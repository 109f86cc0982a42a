use std::time::Duration;

use tmux_dart::jump::JumpTarget;
use tmux_dart::tmux::{
    capture_range, char_file_deadline_outcome, char_file_outcome, escape_tmux_format, copy_mode_movement_args,
    copy_mode_movement_commands, decode_bounded_utf8, parse_pane_state, parse_prompt_content,
    parse_single_char_content, parse_usize_or_zero, prompt_for_label_input_command,
    activity_check_due, activity_grace_over, bounded_read_len, prompt_wait_step, with_cursor_from,
    PromptWaitAction, PromptWaitState, prompt_poll_interval, prompt_poll_sleep_nanos,
    rebased_scroll_position, ACTIVITY_CHECK_INTERVAL_NANOS, shell_quote, split_on,
    strip_optional_line_ending, strip_text_presentation_selectors, tmux_output_text,
    trim_single_trailing_newline, CaptureRangeError, CopyModeJumpCommand, InvalidField,
    PaneState, PaneStateError, PromptFileError, MAX_INITIAL_CHAR_FILE_BYTES,
    MAX_LABEL_INPUT_FILE_BYTES, PROMPT_FAST_POLL_INTERVAL_MILLIS, PROMPT_FAST_POLL_WINDOW_NANOS,
    PROMPT_IDLE_POLL_INTERVAL_MILLIS, PROMPT_RESPONSIVE_POLL_INTERVAL_MILLIS,
    PROMPT_RESPONSIVE_POLL_WINDOW_NANOS,
};

const PROMPT_FAST_POLL_WINDOW: Duration = Duration::from_nanos(PROMPT_FAST_POLL_WINDOW_NANOS as u64);
const PROMPT_RESPONSIVE_POLL_WINDOW: Duration =
    Duration::from_nanos(PROMPT_RESPONSIVE_POLL_WINDOW_NANOS as u64);
const PROMPT_FAST_POLL_INTERVAL: Duration = Duration::from_millis(PROMPT_FAST_POLL_INTERVAL_MILLIS);
const PROMPT_RESPONSIVE_POLL_INTERVAL: Duration =
    Duration::from_millis(PROMPT_RESPONSIVE_POLL_INTERVAL_MILLIS);
const PROMPT_IDLE_POLL_INTERVAL: Duration = Duration::from_millis(PROMPT_IDLE_POLL_INTERVAL_MILLIS);

fn poll_interval(elapsed: Duration) -> Duration {
    Duration::from_millis(prompt_poll_interval(elapsed.as_nanos()))
}

fn pane_with_scroll_and_history(scroll_position: usize, history_size: usize) -> PaneState {
    PaneState {
        pane_id: String::from("%0"),
        tty_path: String::from("/dev/null"),
        in_copy_mode: false,
        cursor_y: 0,
        cursor_x: 0,
        alternate_on: false,
        scroll_position,
        pane_height: 24,
        history_size,
    }
}

#[test]
fn capture_output_only_trims_tmuxs_final_newline() {
    assert_eq!(trim_single_trailing_newline(b"alpha\n"), "alpha");
    assert_eq!(trim_single_trailing_newline(b"alpha\n\n"), "alpha\n");
    assert_eq!(trim_single_trailing_newline(b"alpha"), "alpha");
}

#[test]
fn shell_quote_handles_spaces_and_quotes() {
    assert_eq!(shell_quote("/tmp/tmux dart"), "'/tmp/tmux dart'");
    assert_eq!(shell_quote("/tmp/a'b"), "'/tmp/a'\\''b'");
}

#[test]
fn prompt_for_label_input_command_escapes_prompt_input() {
    assert_eq!(
        prompt_for_label_input_command("' /tmp/path '"),
        r#"run-shell "printf '%s' #{q:%%%} > ' /tmp/path '""#
    );
}

#[test]
fn parse_prompt_content_accepts_single_value_with_newline() {
    assert!(matches!(parse_prompt_content("Z\n"), Ok(Some(value)) if value == "Z"));
}

#[test]
fn parse_prompt_content_accepts_multi_character_input_with_newline() {
    assert!(matches!(parse_prompt_content("ab\n"), Ok(Some(value)) if value == "ab"));
}

#[test]
fn parse_prompt_content_returns_none_for_empty_input() {
    assert!(matches!(parse_prompt_content(""), Ok(None)));
}

#[test]
fn parse_prompt_content_preserves_single_character_values() {
    assert!(matches!(parse_prompt_content("Z"), Ok(Some(value)) if value == "Z"));
}

#[test]
fn prompt_polling_is_fast_for_immediate_input_then_backs_off() {
    assert_eq!(poll_interval(Duration::ZERO), PROMPT_FAST_POLL_INTERVAL);
    assert_eq!(
        poll_interval(PROMPT_FAST_POLL_WINDOW - Duration::from_nanos(1)),
        PROMPT_FAST_POLL_INTERVAL
    );
    assert_eq!(
        poll_interval(PROMPT_FAST_POLL_WINDOW),
        PROMPT_RESPONSIVE_POLL_INTERVAL
    );
    assert_eq!(
        poll_interval(PROMPT_RESPONSIVE_POLL_WINDOW - Duration::from_nanos(1)),
        PROMPT_RESPONSIVE_POLL_INTERVAL
    );
    assert_eq!(
        poll_interval(PROMPT_RESPONSIVE_POLL_WINDOW),
        PROMPT_IDLE_POLL_INTERVAL
    );
}

#[test]
fn bounded_prompt_read_rejects_oversized_files() {
    let bytes = vec![b'x'; MAX_INITIAL_CHAR_FILE_BYTES + 1];

    let result = decode_bounded_utf8(bytes, MAX_INITIAL_CHAR_FILE_BYTES);

    assert_eq!(
        result,
        Err(PromptFileError::ExceedsLimit(MAX_INITIAL_CHAR_FILE_BYTES))
    );
}

#[test]
fn bounded_prompt_read_rejects_invalid_utf8() {
    let result = decode_bounded_utf8(vec![0xff], MAX_INITIAL_CHAR_FILE_BYTES);

    assert_eq!(result, Err(PromptFileError::InvalidUtf8));
}

#[test]
fn initial_char_parser_rejects_control_characters() {
    for content in ["\t", "\u{1b}", "\u{7f}"] {
        assert!(parse_single_char_content(content).is_err());
    }
}

#[test]
fn initial_char_file_accepts_unicode_with_line_ending() {
    let text = decode_bounded_utf8("界\r\n".as_bytes().to_vec(), MAX_INITIAL_CHAR_FILE_BYTES)
        .expect("a short UTF-8 file decodes");

    assert_eq!(parse_single_char_content(&text), Ok(Some('界')));
}

#[test]
fn missing_initial_char_file_is_an_error_after_timeout() {
    assert_eq!(char_file_deadline_outcome(false), Err(PromptFileError::NotFound));
}

#[test]
fn copy_mode_movements_use_scroll_rows_and_columns() {
    assert_eq!(
        copy_mode_movement_commands(3, JumpTarget { row: 2, column: 5 }),
        vec![
            CopyModeJumpCommand::StartOfLine,
            CopyModeJumpCommand::TopLine,
            CopyModeJumpCommand::CursorUp(3),
            CopyModeJumpCommand::CursorDown(2),
            CopyModeJumpCommand::CursorRight(5),
        ]
    );
}

#[test]
fn copy_mode_movements_omit_zero_distance_moves() {
    assert_eq!(
        copy_mode_movement_commands(0, JumpTarget { row: 0, column: 0 }),
        vec![CopyModeJumpCommand::StartOfLine, CopyModeJumpCommand::TopLine]
    );
}

#[test]
fn copy_mode_movements_form_one_tmux_command_list() {
    let commands = copy_mode_movement_commands(3, JumpTarget { row: 2, column: 5 });

    assert_eq!(
        copy_mode_movement_args("%17", &commands),
        [
            "send-keys",
            "-X",
            "-t",
            "%17",
            "start-of-line",
            ";",
            "send-keys",
            "-X",
            "-t",
            "%17",
            "top-line",
            ";",
            "send-keys",
            "-X",
            "-t",
            "%17",
            "-N",
            "3",
            "cursor-up",
            ";",
            "send-keys",
            "-X",
            "-t",
            "%17",
            "-N",
            "2",
            "cursor-down",
            ";",
            "send-keys",
            "-X",
            "-t",
            "%17",
            "-N",
            "5",
            "cursor-right",
        ]
    );
}

#[test]
fn rebased_scroll_position_follows_new_output_into_history() {
    let pane = pane_with_scroll_and_history(4, 100);
    // No new output: the snapshotted scroll offset still holds.
    assert_eq!(rebased_scroll_position(&pane, 100), 4);
    // Seven lines arrived while the user was picking a label: the captured
    // region is now seven lines further up.
    assert_eq!(rebased_scroll_position(&pane, 107), 11);
    // History shrank (clear-history): never underflow.
    assert_eq!(rebased_scroll_position(&pane, 0), 4);
}

#[test]
fn rebased_scroll_position_saturates_instead_of_overflowing() {
    let pane = pane_with_scroll_and_history(usize::MAX, 0);
    assert_eq!(rebased_scroll_position(&pane, 1), usize::MAX);
}

#[test]
fn capture_range_rejects_invalid_tmux_dimensions() {
    assert!(capture_range(0, 0).is_err());
    assert!(capture_range(usize::MAX, 1).is_err());
    assert!(capture_range(0, usize::MAX).is_err());
}

#[test]
fn capture_range_includes_exactly_the_visible_rows() {
    assert_eq!(capture_range(3, 5), Ok((-3, 1)));
}

#[test]
fn capture_range_names_each_rejected_dimension() {
    assert_eq!(capture_range(0, 0), Err(CaptureRangeError::NonPositiveHeight));
    assert_eq!(capture_range(usize::MAX, 1), Err(CaptureRangeError::ScrollOutOfRange));
    assert_eq!(capture_range(0, usize::MAX), Err(CaptureRangeError::HeightOutOfRange));
    assert_eq!(capture_range(0, 24), Ok((0, 23)));
}

#[test]
fn pane_state_parses_all_nine_fields() {
    let pane = parse_pane_state("%3;/dev/pts/4;1;5;7;0;12;24;300").expect("well-formed output");

    assert_eq!(pane.pane_id, "%3");
    assert_eq!(pane.tty_path, "/dev/pts/4");
    assert!(pane.in_copy_mode);
    assert_eq!(pane.cursor_y, 5);
    assert_eq!(pane.cursor_x, 7);
    assert!(!pane.alternate_on);
    assert_eq!(pane.scroll_position, 12);
    assert_eq!(pane.pane_height, 24);
    assert_eq!(pane.history_size, 300);
}

#[test]
fn pane_state_reads_empty_numbers_as_zero() {
    let pane = parse_pane_state("%0;/dev/tty;0;;;1;;10;").expect("empty numeric fields");

    assert!(!pane.in_copy_mode);
    assert!(pane.alternate_on);
    assert_eq!(pane.cursor_y, 0);
    assert_eq!(pane.scroll_position, 0);
    assert_eq!(pane.pane_height, 10);
    assert_eq!(pane.history_size, 0);
}

#[test]
fn pane_state_rejects_wrong_field_count_and_bad_numbers() {
    assert_eq!(
        parse_pane_state("%0;/dev/tty;0").err(),
        Some(PaneStateError::UnexpectedFormat(String::from("%0;/dev/tty;0")))
    );
    assert_eq!(
        parse_pane_state("%0;/dev/tty;0;1;x;0;0;24;0").err(),
        Some(PaneStateError::InvalidField(String::from("cursor_x")))
    );
    assert_eq!(
        parse_pane_state("%0;/dev/tty;0;1;2;0;-1;24;0").err(),
        Some(PaneStateError::InvalidField(String::from("scroll_position")))
    );
}

#[test]
fn numeric_fields_parse_or_name_the_field() {
    assert_eq!(parse_usize_or_zero("", "cursor_y"), Ok(0));
    assert_eq!(parse_usize_or_zero("+42", "cursor_y"), Ok(42));
    assert_eq!(
        parse_usize_or_zero("4 2", "cursor_y"),
        Err(InvalidField { field: String::from("cursor_y") })
    );
    assert_eq!(
        parse_usize_or_zero("99999999999999999999999", "history_size"),
        Err(InvalidField { field: String::from("history_size") })
    );
}

#[test]
fn split_keeps_empty_pieces() {
    assert_eq!(split_on("a;;b;", ';'), vec!["a", "", "b", ""]);
    assert_eq!(split_on("", ';'), vec![""]);
}

#[test]
fn tmux_output_text_trims_every_trailing_newline_and_decodes_lossily() {
    assert_eq!(tmux_output_text(b"%5\n\n"), "%5");
    assert_eq!(tmux_output_text(b"a\xffb\n"), "a\u{fffd}b");
    assert_eq!(tmux_output_text(b"line\nnext"), "line\nnext");
}

#[test]
fn text_presentation_selectors_are_removed() {
    assert_eq!(strip_text_presentation_selectors("a\u{fe0e}b\u{fe0e}"), "ab");
    assert_eq!(strip_text_presentation_selectors("plain"), "plain");
}

#[test]
fn one_line_ending_is_stripped() {
    assert_eq!(strip_optional_line_ending("x\r\n"), "x");
    assert_eq!(strip_optional_line_ending("x\n\n"), "x\n");
    assert_eq!(strip_optional_line_ending("x\r"), "x\r");
}

#[test]
fn single_char_content_states() {
    assert_eq!(parse_single_char_content(""), Ok(None));
    assert_eq!(parse_single_char_content("\n"), Ok(None));
    assert_eq!(parse_single_char_content("ab"), Err(PromptFileError::MultipleChars));
    assert_eq!(parse_single_char_content("\u{1b}"), Err(PromptFileError::ControlChar));
    assert_eq!(parse_single_char_content("q\n"), Ok(Some('q')));
}

#[test]
fn decoded_prompt_file_is_kept_whole_under_the_limit() {
    assert_eq!(
        decode_bounded_utf8(b"abc".to_vec(), MAX_LABEL_INPUT_FILE_BYTES),
        Ok(String::from("abc"))
    );
    assert_eq!(decode_bounded_utf8(Vec::new(), 0), Ok(String::new()));
    assert_eq!(char_file_deadline_outcome(true), Ok(None));
}

#[test]
fn poll_sleep_is_the_interval_cut_short_at_the_deadline() {
    assert_eq!(prompt_poll_sleep_nanos(0, 10_000_000_000), 5_000_000);
    assert_eq!(prompt_poll_sleep_nanos(300_000_000, 10_000_000_000), 20_000_000);
    assert_eq!(prompt_poll_sleep_nanos(2_000_000_000, 10_000_000_000), 50_000_000);
    assert_eq!(prompt_poll_sleep_nanos(2_000_000_000, 7), 7);
    assert_eq!(prompt_poll_sleep_nanos(0, 0), 0);
}

#[test]
fn session_activity_is_compared_after_the_grace_period_then_every_interval() {
    let mut next = ACTIVITY_CHECK_INTERVAL_NANOS;
    assert!(!activity_check_due(true, 100_000_000, &mut next));
    assert_eq!(next, 250_000_000);
    assert!(activity_check_due(true, 260_000_000, &mut next));
    assert_eq!(next, 510_000_000);
    assert!(!activity_check_due(true, 300_000_000, &mut next));
    assert!(!activity_check_due(false, 900_000_000, &mut next));
    assert_eq!(next, 510_000_000);
    let mut late = 0u128;
    assert!(activity_check_due(true, u128::MAX, &mut late));
    assert_eq!(late, u128::MAX);
}

#[test]
fn bounded_reads_take_one_byte_past_the_limit() {
    assert_eq!(bounded_read_len(MAX_INITIAL_CHAR_FILE_BYTES), Some(9));
    assert_eq!(bounded_read_len(MAX_LABEL_INPUT_FILE_BYTES), Some(4097));
    assert_eq!(bounded_read_len(usize::MAX), None);
}

fn apply(commands: &[CopyModeJumpCommand], start: (i64, i64)) -> (i64, i64) {
    let (mut x, mut y) = start;
    for command in commands {
        match *command {
            CopyModeJumpCommand::StartOfLine => x = 0,
            CopyModeJumpCommand::TopLine => y = 0,
            CopyModeJumpCommand::CursorUp(n) => y -= n as i64,
            CopyModeJumpCommand::CursorDown(n) => y += n as i64,
            CopyModeJumpCommand::CursorRight(n) => x += n as i64,
        }
    }
    (x, y)
}

#[test]
fn movements_reach_the_target_from_any_cursor() {
    let commands = copy_mode_movement_commands(3, JumpTarget { row: 2, column: 5 });
    assert_eq!(apply(&commands, (9, 9)), (5, -1));
    assert_eq!(apply(&commands, (0, 0)), (5, -1));
    let commands = copy_mode_movement_commands(0, JumpTarget { row: 0, column: 0 });
    assert_eq!(apply(&commands, (40, 7)), (0, 0));
}

#[test]
fn polling_never_speeds_up() {
    let samples = [0u128, 1, 249_999_999, 250_000_000, 999_999_999, 1_000_000_000, u128::MAX];
    for pair in samples.windows(2) {
        assert!(prompt_poll_interval(pair[0]) <= prompt_poll_interval(pair[1]));
    }
}

#[test]
fn an_empty_enter_answer_cancels() {
    assert_eq!(parse_single_char_content("\r"), Ok(None));
    assert_eq!(parse_single_char_content("\r\n"), Ok(None));
    assert_eq!(char_file_outcome("\r"), Some(Ok(None)));
    assert_eq!(char_file_outcome(""), None);
    assert_eq!(char_file_outcome("\n"), None);
    assert_eq!(char_file_outcome("x\n"), Some(Ok(Some('x'))));
    assert_eq!(char_file_outcome("\t"), Some(Err(PromptFileError::ControlChar)));
}

#[test]
fn messages_shown_by_tmux_double_every_hash() {
    assert_eq!(escape_tmux_format("tmux-dart: no matches for '#'"), "tmux-dart: no matches for '##'");
    assert_eq!(escape_tmux_format("#{pane_id}##"), "##{pane_id}####");
    assert_eq!(escape_tmux_format("plain"), "plain");
}

#[test]
fn prompt_files_are_read_for_a_grace_period_after_activity_changes() {
    assert!(!activity_grace_over(1_000, 1_000));
    assert!(!activity_grace_over(1_000, 250_000_999));
    assert!(activity_grace_over(1_000, 250_001_000));
    assert!(!activity_grace_over(u128::MAX, u128::MAX));
}

#[test]
fn a_later_snapshot_only_lends_its_cursor() {
    let mut pane = pane_with_scroll_and_history(7, 40);
    pane.in_copy_mode = true;
    pane.cursor_x = 9;
    let mut fresh = pane_with_scroll_and_history(0, 0);
    fresh.cursor_x = 4;
    fresh.cursor_y = 5;
    let updated = with_cursor_from(pane, &fresh);
    assert_eq!((updated.cursor_x, updated.cursor_y), (4, 5));
    assert_eq!((updated.scroll_position, updated.history_size), (7, 40));
    assert!(updated.in_copy_mode);
}

#[test]
fn prompt_waits_compare_activity_then_allow_a_grace_period() {
    const MS: u128 = 1_000_000;
    let timeout = 10_000 * MS;
    let start = PromptWaitState::new(true);
    // Early on: just poll again soon.
    assert_eq!(
        prompt_wait_step(start, None, 0, timeout),
        (start, PromptWaitAction::Sleep(5 * MS))
    );
    // Once the activity check is due, compare.
    let (waiting, action) = prompt_wait_step(start, None, 300 * MS, timeout);
    assert_eq!(action, PromptWaitAction::CompareActivity);
    assert_eq!(waiting.next_activity_check_nanos, 550 * MS);
    // Unchanged: keep polling.
    assert_eq!(
        prompt_wait_step(waiting, Some(false), 300 * MS, timeout),
        (waiting, PromptWaitAction::Sleep(20 * MS))
    );
    // Changed: the grace period starts, and the activity is not compared again.
    let (changed, action) = prompt_wait_step(waiting, Some(true), 300 * MS, timeout);
    assert_eq!(changed.activity_changed_at, Some(300 * MS));
    assert_eq!(action, PromptWaitAction::Sleep(20 * MS));
    assert_eq!(prompt_wait_step(changed, None, 500 * MS, timeout).1, PromptWaitAction::Sleep(20 * MS));
    assert_eq!(prompt_wait_step(changed, None, 550 * MS, timeout).1, PromptWaitAction::ActivityChanged);
    // Without an activity to compare, the wait only times out.
    let plain = PromptWaitState::new(false);
    assert_eq!(prompt_wait_step(plain, None, 9_999 * MS, timeout).1, PromptWaitAction::Sleep(MS));
    assert_eq!(prompt_wait_step(plain, None, timeout, timeout).1, PromptWaitAction::TimedOut);
}
