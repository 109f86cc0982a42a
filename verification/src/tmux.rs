//! The tmux side of a jump: pane state, the backend trait through which every
//! tmux interaction goes, and the pure parts of talking to tmux (parsing its
//! output, building copy-mode command lists, capture ranges, prompt files).

use vstd::prelude::*;

use crate::cells::JumpTarget;
use crate::labels::saturate;
use crate::overlay::sat_sub;
use crate::text::{
    decimal, parse_usize, replace_all, replace_str, spec_parse_usize, spec_utf8_lossy, str_chars,
    str_eq, string_from_str, string_push, usize_to_decimal, utf8_decode, utf8_lossy,
};
use crate::unicode::{is_control, spec_is_control};
use vstd::utf8::{decode_utf8, valid_utf8};

verus! {

/// A snapshot of the pane a jump works on.
#[derive(Debug, Clone)]
pub struct PaneState {
    pub pane_id: String,
    pub tty_path: String,
    pub in_copy_mode: bool,
    pub cursor_y: usize,
    pub cursor_x: usize,
    pub alternate_on: bool,
    pub scroll_position: usize,
    pub pane_height: usize,
    /// History size when this snapshot was taken; comparing it with the
    /// current history size re-anchors captures and jumps to the content the
    /// user saw while the pane kept producing output.
    pub history_size: usize,
}

/// `pane` with the cursor position of the later snapshot `fresh`, every
/// other field kept.
pub fn with_cursor_from(pane: PaneState, fresh: &PaneState) -> (updated: PaneState)
    ensures
        updated.cursor_x == fresh.cursor_x,
        updated.cursor_y == fresh.cursor_y,
        updated.pane_id == pane.pane_id,
        updated.tty_path == pane.tty_path,
        updated.in_copy_mode == pane.in_copy_mode,
        updated.alternate_on == pane.alternate_on,
        updated.scroll_position == pane.scroll_position,
        updated.pane_height == pane.pane_height,
        updated.history_size == pane.history_size,
{
    PaneState {
        pane_id: pane.pane_id,
        tty_path: pane.tty_path,
        in_copy_mode: pane.in_copy_mode,
        cursor_y: fresh.cursor_y,
        cursor_x: fresh.cursor_x,
        alternate_on: pane.alternate_on,
        scroll_position: pane.scroll_position,
        pane_height: pane.pane_height,
        history_size: pane.history_size,
    }
}

/// A failure reported by a backend, with its message.
#[derive(Debug, Clone)]
pub struct BackendError {
    pub message: String,
}

/// Every tmux interaction of a jump. The production backend runs the `tmux`
/// command; tests substitute canned responses.
pub trait TmuxBackend {
    fn current_pane_id(&self) -> Result<String, BackendError>;

    fn pane_state(&self, pane_id: &str) -> Result<PaneState, BackendError>;

    fn cancel_copy_mode(&self, pane: &PaneState) -> Result<(), BackendError>;

    fn capture_visible_pane(&self, pane: &PaneState) -> Result<String, BackendError>;

    fn capture_pane_with_escapes(&self, pane_id: &str) -> Result<String, BackendError>;

    fn write_to_tty(&self, pane: &PaneState, content: &str) -> Result<(), BackendError>;

    fn prompt_for_label_input(&self, prompt: &str) -> Result<Option<String>, BackendError>;

    fn display_message(&self, message: &str) -> Result<(), BackendError>;

    fn jump_to_position(&self, pane: &PaneState, jump_to: JumpTarget) -> Result<(), BackendError>;
}


/// Lines above the current visible top where the region snapshotted in
/// `pane` now sits: its scroll position plus the history that arrived since,
/// saturating (a cleared history never underflows).
pub fn rebased_scroll_position(pane: &PaneState, history_size_now: usize) -> (scroll: usize)
    ensures
        scroll == saturate(pane.scroll_position + sat_sub(history_size_now, pane.history_size)),
{
    pane.scroll_position.saturating_add(history_size_now.saturating_sub(pane.history_size))
}

/// A field that tmux reported with a value that is not a number.
#[derive(Debug, Clone, PartialEq, Eq)]
pub struct InvalidField {
    pub field: String,
}

/// An empty value reads as 0; anything else must be a decimal `usize`.
pub open spec fn spec_usize_or_zero(value: Seq<char>) -> Option<usize> {
    if value.len() == 0 {
        Some(0)
    } else {
        spec_parse_usize(value)
    }
}

pub fn parse_usize_or_zero(value: &str, field: &str) -> (parsed: Result<usize, InvalidField>)
    ensures
        match spec_usize_or_zero(value@) {
            Some(v) => parsed == Ok::<usize, InvalidField>(v),
            None => (parsed matches Err(e) && e.field@ == field@),
        },
{
    if value.unicode_len() == 0 {
        return Ok(0);
    }
    match parse_usize(value) {
        Some(v) => Ok(v),
        None => Err(InvalidField { field: string_from_str(field) }),
    }
}

/// The pieces of `s` between occurrences of `sep`, as `str::split` gives
/// them (always at least one).
pub open spec fn spec_split(s: Seq<char>, sep: char) -> Seq<Seq<char>>
    decreases s.len(),
{
    if s.len() == 0 {
        seq![seq![]]
    } else {
        let parts = spec_split(s.drop_last(), sep);
        if s.last() == sep {
            parts.push(seq![])
        } else {
            parts.update(parts.len() - 1, parts.last().push(s.last()))
        }
    }
}

proof fn lemma_split_nonempty(s: Seq<char>, sep: char)
    ensures
        spec_split(s, sep).len() >= 1,
    decreases s.len(),
{
    if s.len() > 0 {
        lemma_split_nonempty(s.drop_last(), sep);
    }
}

/// Splits `s` at every `sep`.
pub fn split_on(s: &str, sep: char) -> (parts: Vec<String>)
    ensures
        parts.deep_view() == spec_split(s@, sep),
{
    let chars = str_chars(s);
    let n = chars.len();
    let mut parts: Vec<String> = Vec::new();
    let mut current = String::new();
    assert(parts.deep_view().push(current@) =~= spec_split(s@.take(0), sep));
    for i in 0..n
        invariant
            n == s@.len(),
            chars@ == s@,
            parts.deep_view().push(current@) == spec_split(s@.take(i as int), sep),
    {
        let ghost prefix = s@.take(i + 1);
        assert(prefix.drop_last() == s@.take(i as int));
        assert(prefix.last() == chars@[i as int]);
        let ghost before = parts.deep_view().push(current@);
        if chars[i] == sep {
            let done = current;
            parts.push(done);
            current = String::new();
            assert(parts.deep_view().push(current@) =~= before.push(seq![]));
        } else {
            let ghost old_parts = parts.deep_view();
            string_push(&mut current, chars[i]);
            assert(parts.deep_view().push(current@) =~= before.update(
                before.len() - 1,
                before.last().push(chars@[i as int]),
            ));
        }
    }
    assert(s@.take(n as int) == s@);
    parts.push(current);
    parts
}

/// Why tmux's pane description could not be read.
#[derive(Debug, Clone, PartialEq, Eq)]
pub enum PaneStateError {
    /// The output did not hold the nine `;`-separated fields.
    UnexpectedFormat(String),
    /// A numeric field held something else.
    InvalidField(String),
}

/// The numeric fields of a pane description, by position and name.
pub open spec fn numeric_field_names() -> Seq<(int, Seq<char>)> {
    seq![
        (3, "cursor_y"@),
        (4, "cursor_x"@),
        (6, "scroll_position"@),
        (7, "pane_height"@),
        (8, "history_size"@),
    ]
}

/// The name of the first numeric field from the `k`-th on whose text is
/// not a number, if any.
pub open spec fn first_invalid_field(parts: Seq<Seq<char>>, k: nat) -> Option<Seq<char>>
    decreases 5 - k,
{
    if k >= 5 {
        None
    } else if spec_usize_or_zero(parts[numeric_field_names()[k as int].0]) is None {
        Some(numeric_field_names()[k as int].1)
    } else {
        first_invalid_field(parts, k + 1)
    }
}

/// The number a numeric field holds (0 when it is not a number).
pub open spec fn field_value(parts: Seq<Seq<char>>, index: int) -> usize {
    match spec_usize_or_zero(parts[index]) {
        Some(v) => v,
        None => 0,
    }
}

/// Parses the `;`-separated answer to tmux's
/// `#{pane_id};#{pane_tty};#{pane_in_mode};#{cursor_y};#{cursor_x};#{alternate_on};#{scroll_position};#{pane_height};#{history_size}`.
pub fn parse_pane_state(output: &str) -> (state: Result<PaneState, PaneStateError>)
    ensures
        ({
            let parts = spec_split(output@, ';');
            &&& parts.len() != 9 ==> (state matches Err(PaneStateError::UnexpectedFormat(o)) && o@
                == output@)
            &&& parts.len() == 9 ==> match first_invalid_field(parts, 0) {
                Some(name) => (state matches Err(PaneStateError::InvalidField(f)) && f@ == name),
                None => (state matches Ok(p) && {
                    &&& p.pane_id@ == parts[0]
                    &&& p.tty_path@ == parts[1]
                    &&& p.in_copy_mode == (parts[2] == "1"@)
                    &&& p.cursor_y == field_value(parts, 3)
                    &&& p.cursor_x == field_value(parts, 4)
                    &&& p.alternate_on == (parts[5] == "1"@)
                    &&& p.scroll_position == field_value(parts, 6)
                    &&& p.pane_height == field_value(parts, 7)
                    &&& p.history_size == field_value(parts, 8)
                }),
            }
        }),
{
    let parts = split_on(output, ';');
    let ghost ps = spec_split(output@, ';');
    proof {
        reveal_with_fuel(first_invalid_field, 6);
    }
    if parts.len() != 9 {
        return Err(PaneStateError::UnexpectedFormat(string_from_str(output)));
    }
    assert(parts@[3]@ == ps[3]);
    assert(parts@[4]@ == ps[4]);
    assert(parts@[6]@ == ps[6]);
    assert(parts@[7]@ == ps[7]);
    assert(parts@[8]@ == ps[8]);
    proof {
        reveal_strlit("cursor_y");
        reveal_strlit("cursor_x");
        reveal_strlit("scroll_position");
        reveal_strlit("pane_height");
        reveal_strlit("history_size");
    }
    let cursor_y = match parse_usize_or_zero(parts[3].as_str(), "cursor_y") {
        Ok(v) => v,
        Err(e) => return Err(PaneStateError::InvalidField(e.field)),
    };
    let cursor_x = match parse_usize_or_zero(parts[4].as_str(), "cursor_x") {
        Ok(v) => v,
        Err(e) => return Err(PaneStateError::InvalidField(e.field)),
    };
    let scroll_position = match parse_usize_or_zero(parts[6].as_str(), "scroll_position") {
        Ok(v) => v,
        Err(e) => return Err(PaneStateError::InvalidField(e.field)),
    };
    let pane_height = match parse_usize_or_zero(parts[7].as_str(), "pane_height") {
        Ok(v) => v,
        Err(e) => return Err(PaneStateError::InvalidField(e.field)),
    };
    let history_size = match parse_usize_or_zero(parts[8].as_str(), "history_size") {
        Ok(v) => v,
        Err(e) => return Err(PaneStateError::InvalidField(e.field)),
    };
    Ok(PaneState {
        pane_id: parts[0].clone(),
        tty_path: parts[1].clone(),
        in_copy_mode: str_eq(parts[2].as_str(), "1"),
        cursor_y,
        cursor_x,
        alternate_on: str_eq(parts[5].as_str(), "1"),
        scroll_position,
        pane_height,
        history_size,
    })
}


/// Why a capture range could not be formed from tmux's numbers.
#[derive(Debug, Clone, Copy, PartialEq, Eq, Structural)]
pub enum CaptureRangeError {
    /// The scroll position does not fit in `isize`.
    ScrollOutOfRange,
    /// The pane height does not fit in `isize`.
    HeightOutOfRange,
    /// The pane height is 0.
    NonPositiveHeight,
}

/// The `-S`/`-E` line range of `capture-pane` that holds exactly the visible
/// rows of a pane scrolled up by `scroll` lines.
pub fn capture_range(scroll: usize, pane_height: usize) -> (range: Result<
    (isize, isize),
    CaptureRangeError,
>)
    ensures
        scroll > isize::MAX ==> range == Err::<(isize, isize), CaptureRangeError>(
            CaptureRangeError::ScrollOutOfRange,
        ),
        scroll <= isize::MAX && pane_height > isize::MAX ==> range == Err::<
            (isize, isize),
            CaptureRangeError,
        >(CaptureRangeError::HeightOutOfRange),
        scroll <= isize::MAX && pane_height == 0 ==> range == Err::<(isize, isize), CaptureRangeError>(
            CaptureRangeError::NonPositiveHeight,
        ),
        scroll <= isize::MAX && 0 < pane_height <= isize::MAX ==> (range matches Ok((start, end))
            && start == -scroll && end == -scroll + pane_height - 1),
{
    if scroll > isize::MAX as usize {
        return Err(CaptureRangeError::ScrollOutOfRange);
    }
    if pane_height > isize::MAX as usize {
        return Err(CaptureRangeError::HeightOutOfRange);
    }
    if pane_height == 0 {
        return Err(CaptureRangeError::NonPositiveHeight);
    }
    let start: isize = -(scroll as isize);
    let end: isize = start + (pane_height as isize - 1);
    Ok((start, end))
}

/// `s` without any `c`.
pub open spec fn without_char(s: Seq<char>, c: char) -> Seq<char>
    decreases s.len(),
{
    if s.len() == 0 {
        seq![]
    } else if s.last() == c {
        without_char(s.drop_last(), c)
    } else {
        without_char(s.drop_last(), c).push(s.last())
    }
}

/// A capture with every text presentation selector (U+FE0E) removed, since
/// tmux does not give it a cell of its own.
pub fn strip_text_presentation_selectors(screen: &str) -> (stripped: String)
    ensures
        stripped@ == without_char(screen@, '\u{fe0e}'),
{
    let chars = str_chars(screen);
    let n = chars.len();
    let mut stripped = String::new();
    for i in 0..n
        invariant
            n == screen@.len(),
            chars@ == screen@,
            stripped@ == without_char(screen@.take(i as int), '\u{fe0e}'),
    {
        let ghost prefix = screen@.take(i + 1);
        assert(prefix.drop_last() == screen@.take(i as int));
        if chars[i] != '\u{fe0e}' {
            string_push(&mut stripped, chars[i]);
        }
    }
    assert(screen@.take(n as int) == screen@);
    stripped
}

/// `content` without one trailing `"\r\n"` or, failing that, one trailing
/// `'\n'`.
pub open spec fn spec_strip_line_ending(content: Seq<char>) -> Seq<char> {
    let n = content.len();
    if n >= 2 && content[n - 2] == '\r' && content[n - 1] == '\n' {
        content.take(n - 2)
    } else if n >= 1 && content[n - 1] == '\n' {
        content.take(n - 1)
    } else {
        content
    }
}

pub fn strip_optional_line_ending(content: &str) -> (stripped: &str)
    ensures
        stripped@ == spec_strip_line_ending(content@),
{
    let n = content.unicode_len();
    if n >= 2 && content.get_char(n - 2) == '\r' && content.get_char(n - 1) == '\n' {
        content.substring_char(0, n - 2)
    } else if n >= 1 && content.get_char(n - 1) == '\n' {
        content.substring_char(0, n - 1)
    } else {
        content
    }
}

/// Why a prompt file's content was rejected.
#[derive(Debug, Clone, Copy, PartialEq, Eq, Structural)]
pub enum PromptFileError {
    /// The file held more than one character.
    MultipleChars,
    /// The character is a control character.
    ControlChar,
    /// The file is larger than the byte limit.
    ExceedsLimit(usize),
    /// The file is not valid UTF-8.
    InvalidUtf8,
    /// The file never appeared.
    NotFound,
}

/// What a jump-character file's content reads as; see
/// [`parse_single_char_content`].
pub open spec fn spec_single_char_content(content: Seq<char>) -> Result<Option<char>, PromptFileError> {
    let c = spec_strip_line_ending(content);
    if c.len() == 0 || c == seq!['\r'] {
        Ok(None)
    } else if c.len() > 1 {
        Err(PromptFileError::MultipleChars)
    } else if spec_is_control(c[0]) {
        Err(PromptFileError::ControlChar)
    } else {
        Ok(Some(c[0]))
    }
}

/// Reads the jump character from a prompt file's content, after one optional
/// line ending is stripped: no character when nothing is left, or when a lone
/// carriage return is left (an empty answer submitted with Enter, which
/// cancels); otherwise exactly one character, not a control character.
pub fn parse_single_char_content(content: &str) -> (parsed: Result<Option<char>, PromptFileError>)
    ensures
        parsed == spec_single_char_content(content@),
{
    let stripped = strip_optional_line_ending(content);
    let n = stripped.unicode_len();
    if n == 0 {
        return Ok(None);
    }
    if n > 1 {
        return Err(PromptFileError::MultipleChars);
    }
    let first = stripped.get_char(0);
    if first == '\r' {
        assert(stripped@ =~= seq!['\r']);
        return Ok(None);
    }
    if is_control(first) {
        return Err(PromptFileError::ControlChar);
    }
    Ok(Some(first))
}

/// How a poll of the jump-character file ends: `None` while nothing has been
/// written to it (it is empty after one optional line ending), else what its
/// content reads as, where no character means the answer was empty.
pub fn char_file_outcome(content: &str) -> (outcome: Option<Result<Option<char>, PromptFileError>>)
    ensures
        spec_strip_line_ending(content@).len() == 0 ==> outcome is None,
        spec_strip_line_ending(content@).len() > 0 ==> (outcome matches Some(r) && r
            == spec_single_char_content(content@)),
{
    let stripped = strip_optional_line_ending(content);
    if stripped.unicode_len() == 0 {
        return None;
    }
    Some(parse_single_char_content(content))
}

/// Reads a label response from a prompt file's content: nothing yet when it
/// is empty after one optional line ending, else that text.
pub fn parse_prompt_content(content: &str) -> (parsed: Result<Option<String>, PromptFileError>)
    ensures
        spec_strip_line_ending(content@).len() == 0 ==> parsed matches Ok(None),
        spec_strip_line_ending(content@).len() > 0 ==> (parsed matches Ok(Some(v)) && v@
            == spec_strip_line_ending(content@)),
{
    let stripped = strip_optional_line_ending(content);
    if stripped.unicode_len() == 0 {
        return Ok(None);
    }
    Ok(Some(string_from_str(stripped)))
}

/// The most bytes read from the jump-character file.
pub const MAX_INITIAL_CHAR_FILE_BYTES: usize = 8;

/// The most bytes read from a label-response file.
pub const MAX_LABEL_INPUT_FILE_BYTES: usize = 4096;

/// Decodes what was read from a prompt file, at most `limit` bytes of UTF-8.
pub fn decode_bounded_utf8(bytes: Vec<u8>, limit: usize) -> (text: Result<String, PromptFileError>)
    ensures
        bytes@.len() > limit ==> text == Err::<String, PromptFileError>(
            PromptFileError::ExceedsLimit(limit),
        ),
        bytes@.len() <= limit && !valid_utf8(bytes@) ==> text == Err::<String, PromptFileError>(
            PromptFileError::InvalidUtf8,
        ),
        bytes@.len() <= limit && valid_utf8(bytes@) ==> (text matches Ok(t) && t@ == decode_utf8(
            bytes@,
        )),
{
    if bytes.len() > limit {
        return Err(PromptFileError::ExceedsLimit(limit));
    }
    match utf8_decode(bytes) {
        Some(t) => Ok(t),
        None => Err(PromptFileError::InvalidUtf8),
    }
}

/// How waiting for the jump-character file ends at the deadline: with no
/// character if the file was seen, as an error if it never appeared.
pub fn char_file_deadline_outcome(file_was_observed: bool) -> (outcome: Result<
    Option<char>,
    PromptFileError,
>)
    ensures
        file_was_observed ==> outcome == Ok::<Option<char>, PromptFileError>(None),
        !file_was_observed ==> outcome == Err::<Option<char>, PromptFileError>(
            PromptFileError::NotFound,
        ),
{
    if file_was_observed {
        Ok(None)
    } else {
        Err(PromptFileError::NotFound)
    }
}

/// Prompt polling is fast during the first 250 ms.
pub const PROMPT_FAST_POLL_WINDOW_NANOS: u128 = 250000000;

/// Prompt polling is responsive until 1 s has passed.
pub const PROMPT_RESPONSIVE_POLL_WINDOW_NANOS: u128 = 1000000000;

/// Polling interval in the fast window, in milliseconds.
pub const PROMPT_FAST_POLL_INTERVAL_MILLIS: u64 = 5;

/// Polling interval in the responsive window, in milliseconds.
pub const PROMPT_RESPONSIVE_POLL_INTERVAL_MILLIS: u64 = 20;

/// Polling interval after that, in milliseconds.
pub const PROMPT_IDLE_POLL_INTERVAL_MILLIS: u64 = 50;

/// The polling interval, in milliseconds, after `elapsed_nanos` of waiting.
pub open spec fn spec_prompt_poll_interval(elapsed_nanos: u128) -> u64 {
    if elapsed_nanos < PROMPT_FAST_POLL_WINDOW_NANOS {
        PROMPT_FAST_POLL_INTERVAL_MILLIS
    } else if elapsed_nanos < PROMPT_RESPONSIVE_POLL_WINDOW_NANOS {
        PROMPT_RESPONSIVE_POLL_INTERVAL_MILLIS
    } else {
        PROMPT_IDLE_POLL_INTERVAL_MILLIS
    }
}

/// How long to wait, in milliseconds, before polling a prompt file again
/// after `elapsed_nanos` of waiting: fast at first, then backing off.
pub fn prompt_poll_interval(elapsed_nanos: u128) -> (millis: u64)
    ensures
        millis == spec_prompt_poll_interval(elapsed_nanos),
        elapsed_nanos < PROMPT_FAST_POLL_WINDOW_NANOS ==> millis == PROMPT_FAST_POLL_INTERVAL_MILLIS,
        PROMPT_FAST_POLL_WINDOW_NANOS <= elapsed_nanos < PROMPT_RESPONSIVE_POLL_WINDOW_NANOS
            ==> millis == PROMPT_RESPONSIVE_POLL_INTERVAL_MILLIS,
        PROMPT_RESPONSIVE_POLL_WINDOW_NANOS <= elapsed_nanos ==> millis
            == PROMPT_IDLE_POLL_INTERVAL_MILLIS,
{
    if elapsed_nanos < PROMPT_FAST_POLL_WINDOW_NANOS {
        PROMPT_FAST_POLL_INTERVAL_MILLIS
    } else if elapsed_nanos < PROMPT_RESPONSIVE_POLL_WINDOW_NANOS {
        PROMPT_RESPONSIVE_POLL_INTERVAL_MILLIS
    } else {
        PROMPT_IDLE_POLL_INTERVAL_MILLIS
    }
}

/// Polling only ever backs off: a longer wait never polls more often.
pub proof fn law_poll_interval_backs_off(earlier_nanos: u128, later_nanos: u128)
    requires
        earlier_nanos <= later_nanos,
    ensures
        spec_prompt_poll_interval(earlier_nanos) <= spec_prompt_poll_interval(later_nanos),
{
}

/// How long, in nanoseconds, to sleep before the next poll when
/// `elapsed_nanos` have passed and `remaining_nanos` are left before the
/// deadline: the polling interval, cut short at the deadline.
pub open spec fn spec_poll_sleep_nanos(elapsed_nanos: u128, remaining_nanos: u128) -> u128 {
    if spec_prompt_poll_interval(elapsed_nanos) * 1000000 < remaining_nanos {
        (spec_prompt_poll_interval(elapsed_nanos) * 1000000) as u128
    } else {
        remaining_nanos
    }
}

/// How long, in nanoseconds, to sleep before the next poll; see
/// [`spec_poll_sleep_nanos`].
pub fn prompt_poll_sleep_nanos(elapsed_nanos: u128, remaining_nanos: u128) -> (sleep: u128)
    ensures
        sleep == spec_poll_sleep_nanos(elapsed_nanos, remaining_nanos),
        sleep == (if spec_prompt_poll_interval(elapsed_nanos) * 1000000 < remaining_nanos {
            spec_prompt_poll_interval(elapsed_nanos) * 1000000
        } else {
            remaining_nanos as int
        }),
{
    let interval: u128 = prompt_poll_interval(elapsed_nanos) as u128 * 1000000;
    if interval < remaining_nanos {
        interval
    } else {
        remaining_nanos
    }
}

/// The first comparison of the session activity comes this long after a wait
/// begins, and each later one this long after the previous, in nanoseconds.
pub const ACTIVITY_CHECK_INTERVAL_NANOS: u128 = 250000000;

/// Whether the session activity is to be compared now, `elapsed_nanos` into a
/// wait whose next comparison is due at `next_check_nanos`. A wait with no
/// activity to compare against never compares; when a comparison is due, the
/// next one moves one interval past now.
pub fn activity_check_due(watching: bool, elapsed_nanos: u128, next_check_nanos: &mut u128) -> (due:
    bool)
    ensures
        due == (watching && elapsed_nanos >= *old(next_check_nanos)),
        due ==> *final(next_check_nanos) == (if elapsed_nanos + ACTIVITY_CHECK_INTERVAL_NANOS
            <= u128::MAX {
            elapsed_nanos + ACTIVITY_CHECK_INTERVAL_NANOS
        } else {
            u128::MAX as int
        }),
        !due ==> *final(next_check_nanos) == *old(next_check_nanos),
{
    if !watching || elapsed_nanos < *next_check_nanos {
        return false;
    }
    *next_check_nanos = if elapsed_nanos > u128::MAX - ACTIVITY_CHECK_INTERVAL_NANOS {
        u128::MAX
    } else {
        elapsed_nanos + ACTIVITY_CHECK_INTERVAL_NANOS
    };
    true
}

/// How long, in nanoseconds, a prompt file is still read after the session
/// activity changed, so that an answer written just after the key press that
/// changed it is not taken for a dismissal.
pub const ACTIVITY_CHANGE_GRACE_NANOS: u128 = 250000000;

/// Whether the grace period after an activity change seen `changed_at_nanos`
/// into a wait is over at `elapsed_nanos`.
pub fn activity_grace_over(changed_at_nanos: u128, elapsed_nanos: u128) -> (over: bool)
    ensures
        over == (elapsed_nanos >= changed_at_nanos + ACTIVITY_CHANGE_GRACE_NANOS),
{
    if changed_at_nanos > u128::MAX - ACTIVITY_CHANGE_GRACE_NANOS {
        false
    } else {
        elapsed_nanos >= changed_at_nanos + ACTIVITY_CHANGE_GRACE_NANOS
    }
}

/// Where a wait for a prompt file stands between polls of the file.
#[derive(Debug, Clone, Copy, PartialEq, Eq, Structural)]
pub struct PromptWaitState {
    /// Whether there is a session activity to compare against.
    pub watches_activity: bool,
    /// When, in nanoseconds into the wait, the activity is next compared.
    pub next_activity_check_nanos: u128,
    /// When, in nanoseconds into the wait, the activity was seen to change.
    pub activity_changed_at: Option<u128>,
}

impl PromptWaitState {
    /// A wait that has just begun.
    pub fn new(watches_activity: bool) -> (state: Self)
        ensures
            state == (PromptWaitState {
                watches_activity,
                next_activity_check_nanos: ACTIVITY_CHECK_INTERVAL_NANOS,
                activity_changed_at: None,
            }),
    {
        PromptWaitState {
            watches_activity,
            next_activity_check_nanos: ACTIVITY_CHECK_INTERVAL_NANOS,
            activity_changed_at: None,
        }
    }
}

/// What to do next while waiting for a prompt file.
#[derive(Debug, Clone, Copy, PartialEq, Eq, Structural)]
pub enum PromptWaitAction {
    /// Compare the session activity with the one before the prompt, and
    /// step again with the answer.
    CompareActivity,
    /// Stop: the activity changed and its grace period is over.
    ActivityChanged,
    /// Stop: the wait timed out.
    TimedOut,
    /// Sleep this many nanoseconds, then poll the file again.
    Sleep(u128),
}

/// The end of a step: stop at the deadline, else sleep until the next poll.
pub open spec fn spec_wait_tail(state: PromptWaitState, elapsed_nanos: u128, timeout_nanos: u128) -> (
    PromptWaitState,
    PromptWaitAction,
) {
    if elapsed_nanos >= timeout_nanos {
        (state, PromptWaitAction::TimedOut)
    } else {
        (
            state,
            PromptWaitAction::Sleep(
                spec_poll_sleep_nanos(elapsed_nanos, (timeout_nanos - elapsed_nanos) as u128),
            ),
        )
    }
}

/// One step of a wait for a prompt file, `elapsed_nanos` into it, after a
/// poll found no answer (`compared` is `None`) or after the activity was
/// compared (`compared` says whether it changed). A change starts the grace
/// period; once a change was seen, the activity is not compared again and the
/// wait stops when the grace period is over; otherwise the activity is
/// compared whenever that is due. A step that does not stop or compare
/// stops at the deadline or sleeps until the next poll.
pub open spec fn spec_prompt_wait_step(
    state: PromptWaitState,
    compared: Option<bool>,
    elapsed_nanos: u128,
    timeout_nanos: u128,
) -> (PromptWaitState, PromptWaitAction) {
    match compared {
        Some(changed) => {
            let next = if changed {
                PromptWaitState {
                    watches_activity: state.watches_activity,
                    next_activity_check_nanos: state.next_activity_check_nanos,
                    activity_changed_at: Some(elapsed_nanos),
                }
            } else {
                state
            };
            spec_wait_tail(next, elapsed_nanos, timeout_nanos)
        },
        None => match state.activity_changed_at {
            Some(changed_at) => if elapsed_nanos >= changed_at + ACTIVITY_CHANGE_GRACE_NANOS {
                (state, PromptWaitAction::ActivityChanged)
            } else {
                spec_wait_tail(state, elapsed_nanos, timeout_nanos)
            },
            None => if state.watches_activity && elapsed_nanos >= state.next_activity_check_nanos {
                (
                    PromptWaitState {
                        watches_activity: state.watches_activity,
                        next_activity_check_nanos: saturate_u128(
                            elapsed_nanos + ACTIVITY_CHECK_INTERVAL_NANOS,
                        ),
                        activity_changed_at: None,
                    },
                    PromptWaitAction::CompareActivity,
                )
            } else {
                spec_wait_tail(state, elapsed_nanos, timeout_nanos)
            },
        },
    }
}

/// `x` clamped to `u128::MAX`.
pub open spec fn saturate_u128(x: int) -> u128 {
    if x > u128::MAX {
        u128::MAX
    } else {
        x as u128
    }
}

fn wait_tail(state: PromptWaitState, elapsed_nanos: u128, timeout_nanos: u128) -> (step: (
    PromptWaitState,
    PromptWaitAction,
))
    ensures
        step == spec_wait_tail(state, elapsed_nanos, timeout_nanos),
{
    if elapsed_nanos >= timeout_nanos {
        (state, PromptWaitAction::TimedOut)
    } else {
        (
            state,
            PromptWaitAction::Sleep(
                prompt_poll_sleep_nanos(elapsed_nanos, timeout_nanos - elapsed_nanos),
            ),
        )
    }
}

/// Decides the next move of a wait for a prompt file; see
/// [`spec_prompt_wait_step`].
pub fn prompt_wait_step(
    state: PromptWaitState,
    compared: Option<bool>,
    elapsed_nanos: u128,
    timeout_nanos: u128,
) -> (step: (PromptWaitState, PromptWaitAction))
    ensures
        step == spec_prompt_wait_step(state, compared, elapsed_nanos, timeout_nanos),
{
    match compared {
        Some(changed) => {
            let next = if changed {
                PromptWaitState {
                    watches_activity: state.watches_activity,
                    next_activity_check_nanos: state.next_activity_check_nanos,
                    activity_changed_at: Some(elapsed_nanos),
                }
            } else {
                state
            };
            wait_tail(next, elapsed_nanos, timeout_nanos)
        },
        None => match state.activity_changed_at {
            Some(changed_at) => {
                if activity_grace_over(changed_at, elapsed_nanos) {
                    (state, PromptWaitAction::ActivityChanged)
                } else {
                    wait_tail(state, elapsed_nanos, timeout_nanos)
                }
            },
            None => {
                let mut next_check = state.next_activity_check_nanos;
                if activity_check_due(state.watches_activity, elapsed_nanos, &mut next_check) {
                    (
                        PromptWaitState {
                            watches_activity: state.watches_activity,
                            next_activity_check_nanos: next_check,
                            activity_changed_at: None,
                        },
                        PromptWaitAction::CompareActivity,
                    )
                } else {
                    wait_tail(state, elapsed_nanos, timeout_nanos)
                }
            },
        },
    }
}

/// How many bytes to read from a prompt file whose content may hold at most
/// `limit` bytes: one more, so that a larger file shows itself; `None` when
/// that does not fit in `usize`.
pub fn bounded_read_len(limit: usize) -> (len: Option<usize>)
    ensures
        limit < usize::MAX ==> len == Some((limit + 1) as usize),
        limit == usize::MAX ==> len is None,
{
    limit.checked_add(1)
}

/// One copy-mode movement.
#[derive(Debug, Clone, Copy, PartialEq, Eq, Structural)]
pub enum CopyModeJumpCommand {
    StartOfLine,
    TopLine,
    CursorUp(usize),
    CursorDown(usize),
    CursorRight(usize),
}

/// The movements that reach `jump_to` once copy mode is entered: start of
/// line, top line, then up by the scroll distance, down by the row and right
/// by the column, each only when it is not zero.
pub open spec fn spec_movement_commands(scroll_up: usize, jump_to: JumpTarget) -> Seq<
    CopyModeJumpCommand,
> {
    seq![CopyModeJumpCommand::StartOfLine, CopyModeJumpCommand::TopLine] + (if scroll_up > 0 {
        seq![CopyModeJumpCommand::CursorUp(scroll_up)]
    } else {
        seq![]
    }) + (if jump_to.row > 0 {
        seq![CopyModeJumpCommand::CursorDown(jump_to.row)]
    } else {
        seq![]
    }) + (if jump_to.column > 0 {
        seq![CopyModeJumpCommand::CursorRight(jump_to.column)]
    } else {
        seq![]
    })
}

pub fn copy_mode_movement_commands(scroll_up: usize, jump_to: JumpTarget) -> (commands: Vec<
    CopyModeJumpCommand,
>)
    ensures
        commands@ == spec_movement_commands(scroll_up, jump_to),
{
    let mut commands: Vec<CopyModeJumpCommand> = Vec::new();
    commands.push(CopyModeJumpCommand::StartOfLine);
    commands.push(CopyModeJumpCommand::TopLine);
    if scroll_up > 0 {
        commands.push(CopyModeJumpCommand::CursorUp(scroll_up));
    }
    if jump_to.row > 0 {
        commands.push(CopyModeJumpCommand::CursorDown(jump_to.row));
    }
    if jump_to.column > 0 {
        commands.push(CopyModeJumpCommand::CursorRight(jump_to.column));
    }
    assert(commands@ =~= spec_movement_commands(scroll_up, jump_to));
    commands
}

/// A copy-mode cursor after one movement, as (cell column, line), lines
/// counted from the top of the visible region and negative above it.
pub open spec fn apply_movement(cursor: (int, int), command: CopyModeJumpCommand) -> (int, int) {
    match command {
        CopyModeJumpCommand::StartOfLine => (0, cursor.1),
        CopyModeJumpCommand::TopLine => (cursor.0, 0),
        CopyModeJumpCommand::CursorUp(n) => (cursor.0, cursor.1 - n),
        CopyModeJumpCommand::CursorDown(n) => (cursor.0, cursor.1 + n),
        CopyModeJumpCommand::CursorRight(n) => (cursor.0 + n, cursor.1),
    }
}

/// A copy-mode cursor after the movements, in order.
pub open spec fn apply_movements(cursor: (int, int), commands: Seq<CopyModeJumpCommand>) -> (
    int,
    int,
)
    decreases commands.len(),
{
    if commands.len() == 0 {
        cursor
    } else {
        apply_movements(apply_movement(cursor, commands[0]), commands.drop_first())
    }
}

/// Wherever the cursor starts, the movements end on the target's cell
/// column, on the target's row of a region that begins `scroll_up` lines
/// above the visible top.
pub proof fn law_movements_reach_the_target(
    scroll_up: usize,
    jump_to: JumpTarget,
    start: (int, int),
)
    ensures
        apply_movements(start, spec_movement_commands(scroll_up, jump_to)) == (
            jump_to.column as int,
            jump_to.row - scroll_up,
        ),
{
    reveal_with_fuel(apply_movements, 6);
    let c = spec_movement_commands(scroll_up, jump_to);
    let up = if scroll_up > 0 {
        seq![CopyModeJumpCommand::CursorUp(scroll_up)]
    } else {
        seq![]
    };
    let down = if jump_to.row > 0 {
        seq![CopyModeJumpCommand::CursorDown(jump_to.row)]
    } else {
        seq![]
    };
    let right = if jump_to.column > 0 {
        seq![CopyModeJumpCommand::CursorRight(jump_to.column)]
    } else {
        seq![]
    };
    let head = seq![CopyModeJumpCommand::StartOfLine, CopyModeJumpCommand::TopLine];
    assert(c =~= head + up + down + right);
    lemma_apply_concat(start, head, up + down + right);
    lemma_apply_concat(apply_movements(start, head), up, down + right);
    let after_up = apply_movements(apply_movements(start, head), up);
    lemma_apply_concat(after_up, down, right);
    assert(apply_movements(start, head) == (0int, 0int));
    assert(after_up == (0int, -(scroll_up as int)));
}

proof fn lemma_apply_concat(
    cursor: (int, int),
    a: Seq<CopyModeJumpCommand>,
    b: Seq<CopyModeJumpCommand>,
)
    ensures
        apply_movements(cursor, a + b) == apply_movements(apply_movements(cursor, a), b),
    decreases a.len(),
{
    if a.len() > 0 {
        assert((a + b).drop_first() =~= a.drop_first() + b);
        assert((a + b)[0] == a[0]);
        lemma_apply_concat(apply_movement(cursor, a[0]), a.drop_first(), b);
    } else {
        assert(a + b =~= b);
    }
}

/// The tmux words of one movement for pane `pane_id`.
pub open spec fn command_words(pane_id: Seq<char>, command: CopyModeJumpCommand) -> Seq<Seq<char>> {
    seq!["send-keys"@, "-X"@, "-t"@, pane_id] + match command {
        CopyModeJumpCommand::StartOfLine => seq!["start-of-line"@],
        CopyModeJumpCommand::TopLine => seq!["top-line"@],
        CopyModeJumpCommand::CursorUp(n) => seq!["-N"@, decimal(n as nat), "cursor-up"@],
        CopyModeJumpCommand::CursorDown(n) => seq!["-N"@, decimal(n as nat), "cursor-down"@],
        CopyModeJumpCommand::CursorRight(n) => seq!["-N"@, decimal(n as nat), "cursor-right"@],
    }
}

/// The movements as one tmux command list: their words joined by `;`.
pub open spec fn spec_movement_args(pane_id: Seq<char>, commands: Seq<CopyModeJumpCommand>) -> Seq<
    Seq<char>,
>
    decreases commands.len(),
{
    if commands.len() == 0 {
        seq![]
    } else if commands.len() == 1 {
        command_words(pane_id, commands[0])
    } else {
        spec_movement_args(pane_id, commands.drop_last()) + seq![";"@] + command_words(
            pane_id,
            commands.last(),
        )
    }
}

fn push_word(args: &mut Vec<String>, word: &str)
    ensures
        final(args).deep_view() == old(args).deep_view().push(word@),
{
    let ghost before = args.deep_view();
    args.push(string_from_str(word));
    assert(args.deep_view() =~= before.push(word@));
}

pub fn copy_mode_movement_args(pane_id: &str, commands: &[CopyModeJumpCommand]) -> (args: Vec<
    String,
>)
    ensures
        args.deep_view() == spec_movement_args(pane_id@, commands@),
{
    let mut args: Vec<String> = Vec::new();
    let n = commands.len();
    assert(commands@.take(0) =~= Seq::<CopyModeJumpCommand>::empty());
    for index in 0..n
        invariant
            n == commands@.len(),
            args.deep_view() == spec_movement_args(pane_id@, commands@.take(index as int)),
    {
        let ghost prefix = commands@.take(index + 1);
        assert(prefix.drop_last() == commands@.take(index as int));
        assert(prefix.last() == commands@[index as int]);
        let ghost before = args.deep_view();
        if index > 0 {
            push_word(&mut args, ";");
        }
        push_word(&mut args, "send-keys");
        push_word(&mut args, "-X");
        push_word(&mut args, "-t");
        push_word(&mut args, pane_id);
        match commands[index] {
            CopyModeJumpCommand::StartOfLine => push_word(&mut args, "start-of-line"),
            CopyModeJumpCommand::TopLine => push_word(&mut args, "top-line"),
            CopyModeJumpCommand::CursorUp(count) => {
                push_word(&mut args, "-N");
                let ghost b = args.deep_view();
                args.push(usize_to_decimal(count));
                assert(args.deep_view() =~= b.push(decimal(count as nat)));
                push_word(&mut args, "cursor-up");
            },
            CopyModeJumpCommand::CursorDown(count) => {
                push_word(&mut args, "-N");
                let ghost b = args.deep_view();
                args.push(usize_to_decimal(count));
                assert(args.deep_view() =~= b.push(decimal(count as nat)));
                push_word(&mut args, "cursor-down");
            },
            CopyModeJumpCommand::CursorRight(count) => {
                push_word(&mut args, "-N");
                let ghost b = args.deep_view();
                args.push(usize_to_decimal(count));
                assert(args.deep_view() =~= b.push(decimal(count as nat)));
                push_word(&mut args, "cursor-right");
            },
        }
        assert(args.deep_view() =~= spec_movement_args(pane_id@, prefix));
    }
    assert(commands@.take(n as int) == commands@);
    args
}

/// `t` without its trailing line feeds.
pub open spec fn trim_trailing_newlines(t: Seq<char>) -> Seq<char>
    decreases t.len(),
{
    if t.len() > 0 && t.last() == '\n' {
        trim_trailing_newlines(t.drop_last())
    } else {
        t
    }
}

/// The text of a tmux answer: decoded lossily, with every trailing line feed
/// removed.
pub fn tmux_output_text(output: &[u8]) -> (text: String)
    ensures
        text@ == trim_trailing_newlines(spec_utf8_lossy(output@)),
{
    let decoded = utf8_lossy(output);
    let chars = str_chars(decoded.as_str());
    let mut n = chars.len();
    assert(chars@.take(n as int) == chars@);
    while n > 0 && chars[n - 1] == '\n'
        invariant
            n <= chars@.len(),
            chars@ == spec_utf8_lossy(output@),
            trim_trailing_newlines(chars@.take(n as int)) == trim_trailing_newlines(chars@),
        decreases n,
    {
        assert(chars@.take(n as int).drop_last() == chars@.take(n - 1));
        n = n - 1;
    }
    string_from_str(decoded.as_str().substring_char(0, n))
}

/// A capture as tmux printed it, without the single line feed that tmux
/// adds after the last row.
pub fn trim_single_trailing_newline(output: &[u8]) -> (text: String)
    ensures
        ({
            let t = spec_utf8_lossy(output@);
            text@ == (if t.len() > 0 && t.last() == '\n' {
                t.drop_last()
            } else {
                t
            })
        }),
{
    let decoded = utf8_lossy(output);
    let n = decoded.as_str().unicode_len();
    if n > 0 && decoded.as_str().get_char(n - 1) == '\n' {
        string_from_str(decoded.as_str().substring_char(0, n - 1))
    } else {
        decoded
    }
}

/// `value` quoted for a POSIX shell: wrapped in single quotes, each inner
/// single quote written as `'\''`.
pub open spec fn spec_shell_quote(value: Seq<char>) -> Seq<char> {
    seq!['\''] + replace_all(value, "'"@, "'\\''"@) + seq!['\'']
}

pub fn shell_quote(value: &str) -> (quoted: String)
    ensures
        quoted@ == spec_shell_quote(value@),
{
    proof {
        reveal_strlit("'");
    }
    let mut quoted = String::new();
    string_push(&mut quoted, '\'');
    let inner = replace_str(value, "'", "'\\''");
    quoted.append(inner.as_str());
    string_push(&mut quoted, '\'');
    quoted
}

/// `message` made safe for tmux's `display-message`, which expands formats:
/// every `#` doubled, so a jump character such as `#` is shown as itself.
pub fn escape_tmux_format(message: &str) -> (escaped: String)
    ensures
        escaped@ == replace_all(message@, "#"@, "##"@),
{
    proof {
        reveal_strlit("#");
    }
    replace_str(message, "#", "##")
}

/// The `run-shell` command that writes the prompt response into the file
/// at `quoted_path`.
pub open spec fn spec_prompt_command(quoted_path: Seq<char>) -> Seq<char> {
    "run-shell \"printf '%s' #{q:%%%} > "@ + quoted_path + seq!['"']
}

pub fn prompt_for_label_input_command(quoted_path: &str) -> (command: String)
    ensures
        command@ == spec_prompt_command(quoted_path@),
{
    let mut command = string_from_str("run-shell \"printf '%s' #{q:%%%} > ");
    command.append(quoted_path);
    string_push(&mut command, '"');
    command
}

} // verus!
