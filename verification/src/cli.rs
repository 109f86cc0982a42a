//! The command line: `tmux-dart jump (--char <char> | --char-file <path>)
//! [--pane-id <pane>]`, and help.

use vstd::prelude::*;

use crate::text::{str_chars, str_eq};

verus! {

/// Why a command line was rejected.
#[derive(Debug, Clone, PartialEq, Eq)]
pub enum CliError {
    /// `--char` was not given exactly one character.
    CharNotSingle,
    /// `--char` came last, without a value.
    MissingCharValue,
    /// `--char-file` came last, without a value.
    MissingCharFileValue,
    /// `--pane-id` came last, without a value.
    MissingPaneIdValue,
    /// An argument the `jump` command does not know.
    UnsupportedArgument(String),
    /// Both `--char` and `--char-file` were given.
    CharAndCharFile,
    /// Neither a known command nor a jump character source.
    Usage,
}

/// Where the jump character comes from.
#[derive(Debug, Clone, PartialEq, Eq)]
pub enum CharSource {
    Char(char),
    File(String),
}

/// What a command line asks for.
#[derive(Debug, Clone, PartialEq, Eq)]
pub enum CliCommand {
    Help,
    Jump { source: CharSource, pane_id: Option<String> },
}

/// A command line's outcome, with texts as character sequences.
pub enum CliOutcome {
    Help,
    JumpChar(char, Option<Seq<char>>),
    JumpFile(Seq<char>, Option<Seq<char>>),
    CharNotSingle,
    MissingCharValue,
    MissingCharFileValue,
    MissingPaneIdValue,
    UnsupportedArgument(Seq<char>),
    CharAndCharFile,
    Usage,
}

/// The outcome a parse result stands for.
pub open spec fn outcome_of(result: Result<CliCommand, CliError>) -> CliOutcome {
    match result {
        Ok(CliCommand::Help) => CliOutcome::Help,
        Ok(CliCommand::Jump { source: CharSource::Char(c), pane_id }) => CliOutcome::JumpChar(
            c,
            opt_view(pane_id),
        ),
        Ok(CliCommand::Jump { source: CharSource::File(f), pane_id }) => CliOutcome::JumpFile(
            f@,
            opt_view(pane_id),
        ),
        Err(CliError::CharNotSingle) => CliOutcome::CharNotSingle,
        Err(CliError::MissingCharValue) => CliOutcome::MissingCharValue,
        Err(CliError::MissingCharFileValue) => CliOutcome::MissingCharFileValue,
        Err(CliError::MissingPaneIdValue) => CliOutcome::MissingPaneIdValue,
        Err(CliError::UnsupportedArgument(a)) => CliOutcome::UnsupportedArgument(a@),
        Err(CliError::CharAndCharFile) => CliOutcome::CharAndCharFile,
        Err(CliError::Usage) => CliOutcome::Usage,
    }
}

/// The text of an optional string.
pub open spec fn opt_view(value: Option<String>) -> Option<Seq<char>> {
    match value {
        Some(v) => Some(v@),
        None => None,
    }
}

/// `--help`, `-h` or `help`.
pub open spec fn is_help_word(a: Seq<char>) -> bool {
    a == "--help"@ || a == "-h"@ || a == "help"@
}

/// What the collected options of `jump` amount to once the arguments run out.
pub open spec fn finish_jump(
    ch: Option<char>,
    file: Option<Seq<char>>,
    pane: Option<Seq<char>>,
) -> CliOutcome {
    if ch is Some && file is Some {
        CliOutcome::CharAndCharFile
    } else if ch is Some {
        CliOutcome::JumpChar(ch.unwrap(), pane)
    } else if file is Some {
        CliOutcome::JumpFile(file.unwrap(), pane)
    } else {
        CliOutcome::Usage
    }
}

/// The arguments of `jump` read from index `i` on, with the options seen so
/// far; a later occurrence of an option replaces an earlier one, and a help
/// word or the first error ends the reading.
pub open spec fn spec_parse_jump(
    args: Seq<Seq<char>>,
    i: nat,
    ch: Option<char>,
    file: Option<Seq<char>>,
    pane: Option<Seq<char>>,
) -> CliOutcome
    decreases args.len() - i,
{
    if i >= args.len() {
        finish_jump(ch, file, pane)
    } else {
        let a = args[i as int];
        if is_help_word(a) {
            CliOutcome::Help
        } else if a == "--char"@ {
            if i + 1 >= args.len() {
                CliOutcome::MissingCharValue
            } else if args[i + 1 as int].len() != 1 {
                CliOutcome::CharNotSingle
            } else {
                spec_parse_jump(args, i + 2, Some(args[i + 1 as int][0]), file, pane)
            }
        } else if a == "--char-file"@ {
            if i + 1 >= args.len() {
                CliOutcome::MissingCharFileValue
            } else {
                spec_parse_jump(args, i + 2, ch, Some(args[i + 1 as int]), pane)
            }
        } else if a == "--pane-id"@ {
            if i + 1 >= args.len() {
                CliOutcome::MissingPaneIdValue
            } else {
                spec_parse_jump(args, i + 2, ch, file, Some(args[i + 1 as int]))
            }
        } else {
            CliOutcome::UnsupportedArgument(a)
        }
    }
}

/// A whole command line (without the program name).
pub open spec fn spec_parse_cli(args: Seq<Seq<char>>) -> CliOutcome {
    if args.len() == 0 {
        CliOutcome::Usage
    } else if is_help_word(args[0]) {
        CliOutcome::Help
    } else if args[0] == "jump"@ {
        spec_parse_jump(args, 1, None, None, None)
    } else {
        CliOutcome::Usage
    }
}

/// The value of the last `--pane-id` among the `jump` arguments from index
/// `i` on, each option taken with the value after it, or `pane` when no later
/// `--pane-id` comes before the options end.
pub open spec fn last_pane_id(args: Seq<Seq<char>>, i: nat, pane: Option<Seq<char>>) -> Option<
    Seq<char>,
>
    decreases args.len() - i,
{
    if i + 1 >= args.len() {
        pane
    } else if args[i as int] == "--pane-id"@ {
        last_pane_id(args, i + 2, Some(args[i + 1 as int]))
    } else if args[i as int] == "--char"@ || args[i as int] == "--char-file"@ {
        last_pane_id(args, i + 2, pane)
    } else {
        pane
    }
}

/// The pane of a parsed jump, from any index on.
pub proof fn lemma_jump_pane_is_last_pane_id(
    args: Seq<Seq<char>>,
    i: nat,
    ch: Option<char>,
    file: Option<Seq<char>>,
    pane: Option<Seq<char>>,
)
    ensures
        spec_parse_jump(args, i, ch, file, pane) matches CliOutcome::JumpChar(_, p) ==> p
            == last_pane_id(args, i, pane),
        spec_parse_jump(args, i, ch, file, pane) matches CliOutcome::JumpFile(_, p) ==> p
            == last_pane_id(args, i, pane),
    decreases args.len() - i,
{
    reveal_strlit("--char");
    reveal_strlit("--char-file");
    reveal_strlit("--pane-id");
    reveal_strlit("--help");
    reveal_strlit("-h");
    reveal_strlit("help");
    if i < args.len() {
        let a = args[i as int];
        if is_help_word(a) {
        } else if a == "--char"@ {
            assert(a != "--pane-id"@) by {
                assert(a.len() != "--pane-id"@.len());
            }
            if i + 1 < args.len() && args[i + 1 as int].len() == 1 {
                lemma_jump_pane_is_last_pane_id(args, i + 2, Some(args[i + 1 as int][0]), file, pane);
                assert(last_pane_id(args, i, pane) == last_pane_id(args, i + 2, pane));
            }
        } else if a == "--char-file"@ {
            assert(a != "--pane-id"@) by {
                assert(a.len() != "--pane-id"@.len());
            }
            if i + 1 < args.len() {
                lemma_jump_pane_is_last_pane_id(args, i + 2, ch, Some(args[i + 1 as int]), pane);
            }
        } else if a == "--pane-id"@ {
            if i + 1 < args.len() {
                lemma_jump_pane_is_last_pane_id(args, i + 2, ch, file, Some(args[i + 1 as int]));
            }
        }
    }
}

/// The pane a jump runs in does not depend on where the jump character comes
/// from: whenever a command line parses to a jump, from `--char` or from
/// `--char-file`, its pane is the value of the last `--pane-id`, and none
/// when there is no `--pane-id`.
pub proof fn law_jump_pane_is_the_last_pane_id(args: Seq<Seq<char>>)
    ensures
        spec_parse_cli(args) matches CliOutcome::JumpChar(_, p) ==> p == last_pane_id(args, 1, None),
        spec_parse_cli(args) matches CliOutcome::JumpFile(_, p) ==> p == last_pane_id(args, 1, None),
{
    if args.len() > 0 && !is_help_word(args[0]) && args[0] == "jump"@ {
        lemma_jump_pane_is_last_pane_id(args, 1, None, None, None);
    }
}

/// The jump character of `--char`: exactly one Unicode scalar.
pub fn parse_jump_char(value: String) -> (parsed: Result<char, CliError>)
    ensures
        value@.len() == 1 ==> parsed == Ok::<char, CliError>(value@[0]),
        value@.len() != 1 ==> parsed == Err::<char, CliError>(CliError::CharNotSingle),
{
    let chars = str_chars(value.as_str());
    if chars.len() != 1 {
        return Err(CliError::CharNotSingle);
    }
    Ok(chars[0])
}

fn is_help_arg(a: &str) -> (help: bool)
    ensures
        help == is_help_word(a@),
{
    str_eq(a, "--help") || str_eq(a, "-h") || str_eq(a, "help")
}

fn finish(ch: Option<char>, file: Option<String>, pane: Option<String>) -> (result: Result<
    CliCommand,
    CliError,
>)
    ensures
        outcome_of(result) == finish_jump(ch, opt_view(file), opt_view(pane)),
{
    match (ch, file) {
        (Some(_), Some(_)) => Err(CliError::CharAndCharFile),
        (Some(c), None) => Ok(CliCommand::Jump { source: CharSource::Char(c), pane_id: pane }),
        (None, Some(f)) => Ok(CliCommand::Jump { source: CharSource::File(f), pane_id: pane }),
        (None, None) => Err(CliError::Usage),
    }
}

/// Reads a command line (without the program name).
pub fn parse_cli_args(args: &Vec<String>) -> (parsed: Result<CliCommand, CliError>)
    ensures
        outcome_of(parsed) == spec_parse_cli(args.deep_view()),
{
    let ghost av = args.deep_view();
    let n = args.len();
    if n == 0 {
        return Err(CliError::Usage);
    }
    assert(args@[0]@ == av[0]);
    if is_help_arg(args[0].as_str()) {
        return Ok(CliCommand::Help);
    }
    if !str_eq(args[0].as_str(), "jump") {
        return Err(CliError::Usage);
    }
    let mut jump_char: Option<char> = None;
    let mut jump_char_file: Option<String> = None;
    let mut explicit_pane_id: Option<String> = None;
    let mut i: usize = 1;
    while i < n
        invariant
            1 <= i <= n + 1,
            n == args@.len(),
            av == args.deep_view(),
            av.len() == n,
            spec_parse_cli(av) == spec_parse_jump(
                av,
                i as nat,
                jump_char,
                opt_view(jump_char_file),
                opt_view(explicit_pane_id),
            ),
        decreases n + 1 - i,
    {
        let arg = args[i].as_str();
        assert(arg@ == av[i as int]);
        if is_help_arg(arg) {
            return Ok(CliCommand::Help);
        } else if str_eq(arg, "--char") {
            if i + 1 >= n {
                return Err(CliError::MissingCharValue);
            }
            assert(args@[i + 1]@ == av[i + 1]);
            match parse_jump_char(args[i + 1].clone()) {
                Ok(c) => {
                    jump_char = Some(c);
                },
                Err(e) => return Err(e),
            }
            i = i + 2;
        } else if str_eq(arg, "--char-file") {
            if i + 1 >= n {
                return Err(CliError::MissingCharFileValue);
            }
            assert(args@[i + 1]@ == av[i + 1]);
            jump_char_file = Some(args[i + 1].clone());
            i = i + 2;
        } else if str_eq(arg, "--pane-id") {
            if i + 1 >= n {
                return Err(CliError::MissingPaneIdValue);
            }
            assert(args@[i + 1]@ == av[i + 1]);
            explicit_pane_id = Some(args[i + 1].clone());
            i = i + 2;
        } else {
            return Err(CliError::UnsupportedArgument(args[i].clone()));
        }
    }
    finish(jump_char, jump_char_file, explicit_pane_id)
}

} // verus!
