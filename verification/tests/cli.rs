use tmux_dart::cli::{parse_cli_args, parse_jump_char, CharSource, CliCommand, CliError};

fn args(words: &[&str]) -> Vec<String> {
    words.iter().map(|w| w.to_string()).collect()
}

#[test]
fn parse_jump_char_accepts_single_character() {
    assert!(matches!(parse_jump_char("Z".to_owned()), Ok('Z')));
}

#[test]
fn parse_jump_char_accepts_single_unicode_scalar() {
    assert!(matches!(parse_jump_char("界".to_owned()), Ok('界')));
}

#[test]
fn parse_jump_char_rejects_empty_input() {
    assert!(parse_jump_char(String::new()).is_err());
}

#[test]
fn parse_jump_char_rejects_multiple_characters() {
    assert!(parse_jump_char("ab".to_owned()).is_err());
}

#[test]
fn parse_jump_char_allows_whitespace_characters() {
    assert!(matches!(parse_jump_char(" ".to_owned()), Ok(' ')));
}

#[test]
fn run_with_args_prints_usage_for_help() {
    let result = parse_cli_args(&args(&["--help"]));
    assert!(result.is_ok());
    assert_eq!(result, Ok(CliCommand::Help));
}

#[test]
fn run_with_args_accepts_jump_help() {
    let result = parse_cli_args(&args(&["jump", "--help"]));
    assert!(result.is_ok());
    assert_eq!(result, Ok(CliCommand::Help));
}

#[test]
fn run_with_args_accepts_top_level_help_subcommand() {
    let result = parse_cli_args(&args(&["help"]));
    assert!(result.is_ok());
    assert_eq!(result, Ok(CliCommand::Help));
}

#[test]
fn jump_with_char_and_pane() {
    assert_eq!(
        parse_cli_args(&args(&["jump", "--char", "x", "--pane-id", "%12"])),
        Ok(CliCommand::Jump {
            source: CharSource::Char('x'),
            pane_id: Some(String::from("%12")),
        })
    );
    assert_eq!(
        parse_cli_args(&args(&["jump", "--char-file", "/tmp/jump-char"])),
        Ok(CliCommand::Jump {
            source: CharSource::File(String::from("/tmp/jump-char")),
            pane_id: None,
        })
    );
}

#[test]
fn later_options_replace_earlier_ones() {
    assert_eq!(
        parse_cli_args(&args(&["jump", "--char", "a", "--char", "b"])),
        Ok(CliCommand::Jump { source: CharSource::Char('b'), pane_id: None })
    );
}

#[test]
fn command_line_errors() {
    assert_eq!(parse_cli_args(&args(&[])), Err(CliError::Usage));
    assert_eq!(parse_cli_args(&args(&["move"])), Err(CliError::Usage));
    assert_eq!(parse_cli_args(&args(&["jump"])), Err(CliError::Usage));
    assert_eq!(
        parse_cli_args(&args(&["jump", "--char"])),
        Err(CliError::MissingCharValue)
    );
    assert_eq!(
        parse_cli_args(&args(&["jump", "--char-file"])),
        Err(CliError::MissingCharFileValue)
    );
    assert_eq!(
        parse_cli_args(&args(&["jump", "--char", "x", "--pane-id"])),
        Err(CliError::MissingPaneIdValue)
    );
    assert_eq!(
        parse_cli_args(&args(&["jump", "--char", "xy"])),
        Err(CliError::CharNotSingle)
    );
    assert_eq!(
        parse_cli_args(&args(&["jump", "--verbose"])),
        Err(CliError::UnsupportedArgument(String::from("--verbose")))
    );
    assert_eq!(
        parse_cli_args(&args(&["jump", "--char", "x", "--char-file", "/tmp/c"])),
        Err(CliError::CharAndCharFile)
    );
}

#[test]
fn help_after_an_error_free_prefix_wins() {
    assert_eq!(
        parse_cli_args(&args(&["jump", "--char", "x", "-h", "--bogus"])),
        Ok(CliCommand::Help)
    );
    assert_eq!(
        parse_cli_args(&args(&["jump", "--bogus", "-h"])),
        Err(CliError::UnsupportedArgument(String::from("--bogus")))
    );
}
