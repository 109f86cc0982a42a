use tmux_dart::jump::{overlay_cells_for_char_indices, KeyPosition};
use tmux_dart::tmux::BackendError;
use tmux_dart::overlay::{
    restore_outcome, alternate_screen_restore_sequence, decode_tmux_color, render_overlay, render_overlay_cells,
    OverlayStyle, OverlayTheme,
};

fn style(key_position: KeyPosition) -> OverlayStyle {
    OverlayStyle {
        background: String::from("BG"),
        foreground: String::from("FG"),
        label_style: String::from("LB"),
        key_position,
    }
}

#[test]
fn render_overlay_starts_from_a_clean_home_position() {
    let positions = [0usize];
    let labels = [String::from("j")];
    let rendered = render_overlay(
        "ab\ncd",
        &positions[..],
        &labels[..],
        &style(KeyPosition::Left),
    );

    assert!(rendered.starts_with("\u{1b}[r\u{1b}[2J\u{1b}[HBGab\n\rcd"));
    assert!(rendered.ends_with("\u{1b}[H"));
}

#[test]
fn render_overlay_resets_scroll_region_before_any_line_feed() {
    let positions = [0usize];
    let labels = [String::from("j")];
    let rendered = render_overlay(
        "one\ntwo\nthree",
        &positions[..],
        &labels[..],
        &style(KeyPosition::Left),
    );

    let reset = rendered.find("\u{1b}[r");
    let first_line_feed = rendered.find("\n\r");
    assert!(
        matches!((reset, first_line_feed), (Some(r), Some(lf)) if r < lf),
        "scroll-region reset must precede the first line feed"
    );
}

#[test]
fn alternate_screen_restore_resets_scroll_region_before_repaint() {
    let restore = alternate_screen_restore_sequence("row-a\nrow-b\nrow-c", 2, 4);

    let reset = restore.find("\u{1b}[r");
    let first_line_feed = restore.find("\n\r");
    assert!(
        matches!((reset, first_line_feed), (Some(r), Some(lf)) if r < lf),
        "scroll-region reset must precede the first repainted line feed"
    );
    assert!(restore.contains("\u{1b}[3;5H"));
}

#[test]
fn alternate_screen_restore_saturates_untrusted_cursor_coordinates() {
    let restore = alternate_screen_restore_sequence("screen", usize::MAX, usize::MAX);

    assert!(restore.contains(&format!("\u{1b}[{};{}H", usize::MAX, usize::MAX)));
}

#[test]
fn render_overlay_honors_label_position_modes() {
    let positions = [2usize];
    let labels = [String::from("jk")];
    let left = render_overlay(
        "alpha",
        &positions[..],
        &labels[..],
        &style(KeyPosition::Left),
    );
    let off_left = render_overlay(
        "alpha",
        &positions[..],
        &labels[..],
        &style(KeyPosition::OffLeft),
    );
    let right = render_overlay(
        "alpha",
        &positions[..],
        &labels[..],
        &style(KeyPosition::Right),
    );

    assert!(left.contains("\u{1b}[1;3HFGLBjk\u{1b}[0m"));
    assert!(off_left.contains("\u{1b}[1;1HFGLBjk\u{1b}[0m"));
    assert!(right.contains("\u{1b}[1;4HFGLBjk\u{1b}[0m"));
}

#[test]
fn render_overlay_off_left_saturates_at_the_first_column() {
    let positions = [0usize];
    let labels = [String::from("jk")];
    let rendered = render_overlay(
        "alpha",
        &positions[..],
        &labels[..],
        &style(KeyPosition::OffLeft),
    );

    assert!(rendered.contains("\u{1b}[1;1HFGLBjk\u{1b}[0m"));
}

#[test]
fn render_overlay_places_label_at_display_column_after_wide_characters() {
    let positions = [4usize];
    let labels = [String::from("j")];
    let rendered = render_overlay(
        "あいう x",
        &positions[..],
        &labels[..],
        &style(KeyPosition::Left),
    );

    assert!(rendered.contains("\u{1b}[1;8HFGLBj\u{1b}[0m"));
}

#[test]
fn render_overlay_places_label_to_the_right_of_wide_characters() {
    let positions = [4usize];
    let labels = [String::from("j")];
    let rendered = render_overlay(
        "あいう x",
        &positions[..],
        &labels[..],
        &style(KeyPosition::Right),
    );

    assert!(rendered.contains("\u{1b}[1;9HFGLBj\u{1b}[0m"));
}

#[test]
fn render_overlay_right_position_clears_multi_char_clusters() {
    let positions = [0usize];
    let labels = [String::from("j")];
    let rendered = render_overlay(
        "☝\u{fe0f} z",
        &positions[..],
        &labels[..],
        &style(KeyPosition::Right),
    );

    assert!(rendered.contains("\u{1b}[1;3HFGLBj\u{1b}[0m"));
}

#[test]
fn cached_overlay_cells_preserve_mixed_unicode_rendering() {
    let screen = "あ☝\u{fe0f} e\u{301}\nalpha";
    let positions = [0usize, 1, 2, 4, 7];
    let labels = ["j", "f", "h", "g", "k"].map(String::from);
    let overlay_style = style(KeyPosition::Right);
    let cells = overlay_cells_for_char_indices(screen, &positions);

    assert_eq!(
        render_overlay_cells(screen, &cells, &labels, &overlay_style),
        render_overlay(screen, &positions, &labels, &overlay_style)
    );
}

#[test]
fn decode_tmux_color_supports_single_and_double_escaped_values() {
    assert_eq!(decode_tmux_color(r#"\e[32m"#), "\u{1b}[32m");
    assert_eq!(decode_tmux_color(r#"\\e[32m"#), "\u{1b}[32m");
}

#[test]
fn decode_tmux_color_supports_extended_sgr_values() {
    assert_eq!(
        decode_tmux_color(r#"\e[38;2;1;2;3m\e[48:2:4:5:6m"#),
        "\u{1b}[38;2;1;2;3m\u{1b}[48:2:4:5:6m"
    );
}

#[test]
fn decode_tmux_color_discards_non_sgr_sequences() {
    assert_eq!(
        decode_tmux_color(r#"\e]52;c;SGVsbG8=\a\e[31mplain\e[2J"#),
        "\u{1b}[31m"
    );
}

#[test]
fn overlay_theme_from_env_accepts_aliases() {
    assert_eq!(OverlayTheme::from_env("contrast"), OverlayTheme::Contrast);
    assert_eq!(OverlayTheme::from_env("high_contrast"), OverlayTheme::Contrast);
    assert_eq!(OverlayTheme::from_env("high-contrast"), OverlayTheme::Contrast);
    assert_eq!(OverlayTheme::from_env("soft"), OverlayTheme::Soft);
    assert_eq!(OverlayTheme::from_env("muted"), OverlayTheme::Soft);
    assert_eq!(OverlayTheme::from_env("classic"), OverlayTheme::Classic);
    assert_eq!(OverlayTheme::from_env("other"), OverlayTheme::Classic);
}

#[test]
fn overlay_theme_defaults_give_each_theme_its_colors() {
    let soft = OverlayTheme::Soft.defaults();
    assert_eq!(soft.background, "\u{1b}[0m\u{1b}[2m\u{1b}[36m");
    assert_eq!(soft.foreground, "\u{1b}[1m\u{1b}[33m");
    assert_eq!(soft.label_style, "\u{1b}[1m");
    assert_eq!(soft.key_position, KeyPosition::Left);
    let contrast = OverlayTheme::Contrast.defaults();
    assert_eq!(contrast.background, "\u{1b}[0m\u{1b}[37m");
    assert_eq!(contrast.label_style, "\u{1b}[1m\u{1b}[7m");
}

#[test]
fn render_overlay_draws_exactly_the_expected_sequence() {
    let positions = [0usize, 3];
    let labels = [String::from("j"), String::from("f")];
    let rendered = render_overlay("ab\ncd", &positions, &labels, &style(KeyPosition::Left));
    assert_eq!(
        rendered,
        "\u{1b}[r\u{1b}[2J\u{1b}[HBGab\n\rcd\u{1b}[1;1HFGLBj\u{1b}[0m\u{1b}[2;1HFGLBf\u{1b}[0m\u{1b}[H"
    );
}

#[test]
fn render_overlay_paints_only_as_many_labels_as_cells() {
    let positions = [1usize];
    let labels = [String::from("j"), String::from("f")];
    let rendered = render_overlay("ab", &positions, &labels, &style(KeyPosition::Left));
    assert_eq!(
        rendered,
        "\u{1b}[r\u{1b}[2J\u{1b}[HBGab\u{1b}[1;2HFGLBj\u{1b}[0m\u{1b}[H"
    );
}

#[test]
fn off_left_label_width_counts_wide_label_characters() {
    let positions = [4usize];
    let labels = [String::from("あ")];
    let rendered = render_overlay("あいう x", &positions, &labels, &style(KeyPosition::OffLeft));
    assert!(rendered.contains("\u{1b}[1;6HFGLBあ\u{1b}[0m"));
}

#[test]
fn alternate_screen_restore_is_exact() {
    assert_eq!(
        alternate_screen_restore_sequence("a\nb", 0, 9),
        "\u{1b}[0m\u{1b}[r\u{1b}[2J\u{1b}[Ha\n\rb\u{1b}[1;10H\u{1b}[0m"
    );
}

#[test]
fn decode_tmux_color_drops_unterminated_sequences() {
    assert_eq!(decode_tmux_color(r#"\e[31"#), "");
    assert_eq!(decode_tmux_color("\u{1b}[1m\u{1b}x\u{1b}[;m"), "\u{1b}[1m\u{1b}[;m");
    assert_eq!(decode_tmux_color(""), "");
}

fn err(message: &str) -> BackendError {
    BackendError { message: String::from(message) }
}

#[test]
fn takeover_outcome_prefers_the_action_error_then_the_restore_error() {
    assert_eq!(restore_outcome(Ok::<u8, BackendError>(7), Ok(())).unwrap(), 7);
    assert_eq!(
        restore_outcome(Ok::<u8, BackendError>(7), Err(err("restore"))).unwrap_err().message,
        "restore"
    );
    assert_eq!(
        restore_outcome(Err::<u8, BackendError>(err("action")), Err(err("restore")))
            .unwrap_err()
            .message,
        "action"
    );
}

#[test]
fn decoding_a_decoded_color_changes_nothing() {
    for value in [
        "\\e[0m\\e[32m",
        "\\\\e[1m\\\\e[31m",
        "\u{1b}[38;2;1;2;3m",
        "\\e]52;c;SGVsbG8=\\a\\e[31mplain\\e[2J",
        "\\e[12",
        "plain",
    ] {
        let once = decode_tmux_color(value);
        assert_eq!(decode_tmux_color(&once), once, "{value:?}");
    }
}
