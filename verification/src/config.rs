//! Jump configuration from option values.

use vstd::prelude::*;

use crate::jump::{spec_key_position, spec_match_mode, KeyPosition, MatchMode};
use crate::labels::{default_label_keys, spec_label_keys_from, LabelKeys};
use crate::overlay::{
    decode_tmux_color, spec_decode_tmux_color, spec_overlay_theme, spec_theme_colors,
    OverlayStyle, OverlayTheme,
};
use crate::text::str_eq;

verus! {

/// How targets are found and chosen.
#[derive(Debug, Clone, PartialEq, Eq)]
pub struct JumpOptions {
    pub label_keys: LabelKeys,
    pub match_mode: MatchMode,
    pub case_sensitive: bool,
    pub auto_jump: bool,
}

/// Everything a jump is configured with.
#[derive(Debug, Clone, PartialEq, Eq)]
pub struct JumpConfig {
    pub options: JumpOptions,
    pub overlay_style: OverlayStyle,
}

/// The raw option values, each absent when unset.
#[derive(Debug, Clone, Default)]
pub struct EnvValues {
    pub label_keys: Option<String>,
    pub match_mode: Option<String>,
    pub case_sensitive: Option<String>,
    pub auto_jump: Option<String>,
    pub theme: Option<String>,
    pub background_color: Option<String>,
    pub foreground_color: Option<String>,
    pub key_position: Option<String>,
}

/// An option value that turns a switch on: `1`, `on`, `true` or `yes`.
pub open spec fn spec_option_enabled(value: Seq<char>) -> bool {
    value == "1"@ || value == "on"@ || value == "true"@ || value == "yes"@
}

/// An option value that turns a switch off: `0`, `off`, `false` or `no`.
pub open spec fn spec_option_disabled(value: Seq<char>) -> bool {
    value == "0"@ || value == "off"@ || value == "false"@ || value == "no"@
}

/// The text of an optional value, or `default` when it is absent.
pub open spec fn value_or(value: Option<String>, default: Seq<char>) -> Seq<char> {
    match value {
        Some(v) => v@,
        None => default,
    }
}

fn option_enabled(value: &str) -> (enabled: bool)
    ensures
        enabled == spec_option_enabled(value@),
{
    str_eq(value, "1") || str_eq(value, "on") || str_eq(value, "true") || str_eq(value, "yes")
}

fn option_disabled(value: &str) -> (disabled: bool)
    ensures
        disabled == spec_option_disabled(value@),
{
    str_eq(value, "0") || str_eq(value, "off") || str_eq(value, "false") || str_eq(value, "no")
}

impl JumpConfig {
    /// The configuration the option values select. Unset values take their
    /// defaults: the default label keys, `word` matching, case-insensitive,
    /// auto-jump on, the `classic` theme with its colors, labels on the left.
    pub fn from_values(values: EnvValues) -> (config: Self)
        ensures
            config.options.label_keys@ == (match values.label_keys {
                Some(v) => spec_label_keys_from(v@),
                None => default_label_keys(),
            }),
            config.options.match_mode == spec_match_mode(value_or(values.match_mode, "word"@)),
            config.options.case_sensitive == spec_option_enabled(
                value_or(values.case_sensitive, seq![]),
            ),
            config.options.auto_jump == !spec_option_disabled(value_or(values.auto_jump, seq![])),
            config.overlay_style.background@ == (match values.background_color {
                Some(c) => spec_decode_tmux_color(c@),
                None => spec_theme_colors(spec_overlay_theme(value_or(values.theme, "classic"@))).0,
            }),
            config.overlay_style.foreground@ == (match values.foreground_color {
                Some(c) => spec_decode_tmux_color(c@),
                None => spec_theme_colors(spec_overlay_theme(value_or(values.theme, "classic"@))).1,
            }),
            config.overlay_style.label_style@ == spec_theme_colors(
                spec_overlay_theme(value_or(values.theme, "classic"@)),
            ).2,
            config.overlay_style.key_position == spec_key_position(
                value_or(values.key_position, "left"@),
            ),
    {
        let label_keys = match &values.label_keys {
            Some(v) => LabelKeys::from_env(v.as_str()),
            None => LabelKeys::default_keys(),
        };
        let match_mode = match &values.match_mode {
            Some(v) => MatchMode::from_env(v.as_str()),
            None => MatchMode::from_env("word"),
        };
        let case_sensitive = match &values.case_sensitive {
            Some(v) => option_enabled(v.as_str()),
            None => option_enabled(""),
        };
        let auto_jump = match &values.auto_jump {
            Some(v) => !option_disabled(v.as_str()),
            None => !option_disabled(""),
        };
        let theme = match &values.theme {
            Some(v) => OverlayTheme::from_env(v.as_str()),
            None => OverlayTheme::from_env("classic"),
        };
        let mut overlay_style = theme.defaults();
        match &values.background_color {
            Some(c) => {
                overlay_style.background = decode_tmux_color(c.as_str());
            },
            None => {},
        }
        match &values.foreground_color {
            Some(c) => {
                overlay_style.foreground = decode_tmux_color(c.as_str());
            },
            None => {},
        }
        overlay_style.key_position = match &values.key_position {
            Some(v) => KeyPosition::from_env(v.as_str()),
            None => KeyPosition::from_env("left"),
        };
        proof {
            reveal_strlit("");
        }
        assert(""@ =~= Seq::<char>::empty());
        JumpConfig {
            options: JumpOptions { label_keys, match_mode, case_sensitive, auto_jump },
            overlay_style,
        }
    }
}

} // verus!
