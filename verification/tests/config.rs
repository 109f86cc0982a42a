use tmux_dart::config::{EnvValues, JumpConfig};
use tmux_dart::jump::{KeyPosition, LabelKeys, MatchMode};

#[test]
fn config_defaults_match_tmux_jump_style_behavior() {
    let config = JumpConfig::from_values(EnvValues::default());

    assert_eq!(config.options.match_mode, MatchMode::Word);
    assert!(!config.options.case_sensitive);
    assert!(config.options.auto_jump);
    assert_eq!(config.overlay_style.key_position, KeyPosition::Left);
    assert_eq!(config.overlay_style.background, "\u{1b}[0m\u{1b}[32m");
    assert_eq!(config.overlay_style.foreground, "\u{1b}[1m\u{1b}[31m");
    assert_eq!(config.overlay_style.label_style, "\u{1b}[1m");
}

#[test]
fn config_parses_custom_values() {
    let config = JumpConfig::from_values(EnvValues {
        label_keys: Some(String::from("abc")),
        match_mode: Some(String::from("char")),
        case_sensitive: Some(String::from("on")),
        auto_jump: Some(String::from("off")),
        theme: Some(String::from("contrast")),
        background_color: Some(String::from(r#"\e[34m"#)),
        foreground_color: Some(String::from(r#"\e[35m"#)),
        key_position: Some(String::from("right")),
    });

    assert_eq!(config.options.label_keys.as_slice(), ['a', 'b', 'c']);
    assert_eq!(config.options.match_mode, MatchMode::Char);
    assert!(config.options.case_sensitive);
    assert!(!config.options.auto_jump);
    assert_eq!(config.overlay_style.key_position, KeyPosition::Right);
    assert_eq!(config.overlay_style.background, "\u{1b}[34m");
    assert_eq!(config.overlay_style.foreground, "\u{1b}[35m");
    assert_eq!(config.overlay_style.label_style, "\u{1b}[1m\u{1b}[7m");
}

#[test]
fn config_accepts_every_switch_spelling() {
    for on in ["1", "on", "true", "yes"] {
        let config = JumpConfig::from_values(EnvValues {
            case_sensitive: Some(String::from(on)),
            ..EnvValues::default()
        });
        assert!(config.options.case_sensitive, "{on} should enable");
    }
    for off in ["0", "off", "false", "no"] {
        let config = JumpConfig::from_values(EnvValues {
            auto_jump: Some(String::from(off)),
            ..EnvValues::default()
        });
        assert!(!config.options.auto_jump, "{off} should disable");
    }
    let config = JumpConfig::from_values(EnvValues {
        case_sensitive: Some(String::from("ON")),
        auto_jump: Some(String::from("maybe")),
        ..EnvValues::default()
    });
    assert!(!config.options.case_sensitive);
    assert!(config.options.auto_jump);
}

#[test]
fn config_match_mode_aliases_and_unusable_keys() {
    let config = JumpConfig::from_values(EnvValues {
        label_keys: Some(String::from("x")),
        match_mode: Some(String::from("line_start")),
        theme: Some(String::from("soft")),
        key_position: Some(String::from("off_left")),
        ..EnvValues::default()
    });
    assert_eq!(config.options.label_keys, LabelKeys::default());
    assert_eq!(config.options.match_mode, MatchMode::Line);
    assert_eq!(config.overlay_style.background, "\u{1b}[0m\u{1b}[2m\u{1b}[36m");
    assert_eq!(config.overlay_style.key_position, KeyPosition::OffLeft);
    assert_eq!(MatchMode::from_env("anywhere"), MatchMode::Char);
    assert_eq!(MatchMode::from_env("line"), MatchMode::Line);
    assert_eq!(MatchMode::from_env("words"), MatchMode::Word);
}
