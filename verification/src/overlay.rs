//! Drawing the label overlay and restoring the pane afterwards: the escape
//! sequences written to the pane's tty, and the screen-recovery protocol
//! around label selection.

use vstd::prelude::*;

use crate::cells::{overlay_cells_for_char_indices, spec_cell_position, spec_screen_cells, OverlayCell};
use crate::jump::KeyPosition;
use crate::labels::saturate;
use crate::text::{decimal, push_decimal, replace_str, replace_all, str_chars, str_eq, string_from_str, string_push};
use crate::tmux::{BackendError, PaneState, TmuxBackend};
use crate::unicode::{char_width, spec_char_width};

verus! {

/// Clear the screen.
pub const CLEAR_SEQ: &'static str = "\u{1b}[2J";

/// Move the cursor home.
pub const HOME_SEQ: &'static str = "\u{1b}[H";

/// Reset the scroll region (DECSTBM) to the full screen. A TUI narrows the
/// scroll region, and `ESC[2J` does not clear it; line feeds written inside a
/// stale region scroll it and shift every row.
pub const RESET_SCROLL_REGION: &'static str = "\u{1b}[r";

/// Reset the scroll region, clear, and home: the prelude before repainting a
/// whole screen's worth of lines.
pub const RESET_CLEAR_HOME_SEQ: &'static str = "\u{1b}[r\u{1b}[2J\u{1b}[H";

/// Reset all colors and attributes.
pub const RESET_COLORS: &'static str = "\u{1b}[0m";

/// Enter the alternate screen, reset the scroll region, and home.
pub const ENTER_ALTERNATE_HOME_SEQ: &'static str = "\u{1b}[?1049h\u{1b}[r\u{1b}[H";

/// Leave the alternate screen.
pub const RESTORE_NORMAL_SCREEN: &'static str = "\u{1b}[?1049l";

/// A preset of overlay colors.
#[derive(Debug, Clone, Copy, PartialEq, Eq, Structural)]
pub enum OverlayTheme {
    Classic,
    Contrast,
    Soft,
}

/// How labels are drawn.
#[derive(Debug, Clone, PartialEq, Eq)]
pub struct OverlayStyle {
    pub background: String,
    pub foreground: String,
    pub label_style: String,
    pub key_position: KeyPosition,
}

/// The theme an option value selects: `contrast`/`high_contrast`/
/// `high-contrast`, `soft`/`muted`, and `classic` for anything else.
pub open spec fn spec_overlay_theme(value: Seq<char>) -> OverlayTheme {
    if value == "contrast"@ || value == "high_contrast"@ || value == "high-contrast"@ {
        OverlayTheme::Contrast
    } else if value == "soft"@ || value == "muted"@ {
        OverlayTheme::Soft
    } else {
        OverlayTheme::Classic
    }
}

/// The background, foreground and label-style sequences of a theme.
pub open spec fn spec_theme_colors(theme: OverlayTheme) -> (Seq<char>, Seq<char>, Seq<char>) {
    match theme {
        OverlayTheme::Classic => (
            "\u{1b}[0m\u{1b}[32m"@,
            "\u{1b}[1m\u{1b}[31m"@,
            "\u{1b}[1m"@,
        ),
        OverlayTheme::Contrast => (
            "\u{1b}[0m\u{1b}[37m"@,
            "\u{1b}[1m\u{1b}[30m"@,
            "\u{1b}[1m\u{1b}[7m"@,
        ),
        OverlayTheme::Soft => (
            "\u{1b}[0m\u{1b}[2m\u{1b}[36m"@,
            "\u{1b}[1m\u{1b}[33m"@,
            "\u{1b}[1m"@,
        ),
    }
}

impl OverlayTheme {
    pub fn from_env(value: &str) -> (theme: Self)
        ensures
            theme == spec_overlay_theme(value@),
    {
        if str_eq(value, "contrast") || str_eq(value, "high_contrast") || str_eq(
            value,
            "high-contrast",
        ) {
            OverlayTheme::Contrast
        } else if str_eq(value, "soft") || str_eq(value, "muted") {
            OverlayTheme::Soft
        } else {
            OverlayTheme::Classic
        }
    }

    /// The style of this theme, with labels to the left of their targets.
    pub fn defaults(self) -> (style: OverlayStyle)
        ensures
            style.background@ == spec_theme_colors(self).0,
            style.foreground@ == spec_theme_colors(self).1,
            style.label_style@ == spec_theme_colors(self).2,
            style.key_position == KeyPosition::Left,
    {
        match self {
            OverlayTheme::Classic => OverlayStyle {
                background: string_from_str("\u{1b}[0m\u{1b}[32m"),
                foreground: string_from_str("\u{1b}[1m\u{1b}[31m"),
                label_style: string_from_str("\u{1b}[1m"),
                key_position: KeyPosition::Left,
            },
            OverlayTheme::Contrast => OverlayStyle {
                background: string_from_str("\u{1b}[0m\u{1b}[37m"),
                foreground: string_from_str("\u{1b}[1m\u{1b}[30m"),
                label_style: string_from_str("\u{1b}[1m\u{1b}[7m"),
                key_position: KeyPosition::Left,
            },
            OverlayTheme::Soft => OverlayStyle {
                background: string_from_str("\u{1b}[0m\u{1b}[2m\u{1b}[36m"),
                foreground: string_from_str("\u{1b}[1m\u{1b}[33m"),
                label_style: string_from_str("\u{1b}[1m"),
                key_position: KeyPosition::Left,
            },
        }
    }
}

/// A parameter character of an SGR sequence: an ASCII digit, `;` or `:`.
pub open spec fn is_sgr_param(c: char) -> bool {
    ('0' <= c <= '9') || c == ';' || c == ':'
}

/// The number of parameter characters at the start of `s`.
pub open spec fn param_run(s: Seq<char>) -> nat
    decreases s.len(),
{
    if s.len() > 0 && is_sgr_param(s[0]) {
        1 + param_run(s.drop_first())
    } else {
        0
    }
}

/// A run of parameter characters is no longer than the text it starts.
pub proof fn lemma_param_run_bounded(s: Seq<char>)
    ensures
        param_run(s) <= s.len(),
    decreases s.len(),
{
    if s.len() > 0 && is_sgr_param(s[0]) {
        lemma_param_run_bounded(s.drop_first());
    }
}

/// The SGR sequences (`ESC [ params m`) found scanning `s` left to right,
/// concatenated; everything else is dropped.
pub open spec fn spec_retain_sgr(s: Seq<char>) -> Seq<char>
    decreases s.len(),
{
    if s.len() == 0 {
        seq![]
    } else if s[0] == '\u{1b}' && s.len() >= 2 && s[1] == '[' {
        let rest = s.skip(2);
        let k = param_run(rest);
        if k < rest.len() && rest[k as int] == 'm' {
            seq!['\u{1b}', '['] + rest.take(k as int) + seq!['m'] + spec_retain_sgr(
                rest.skip(k + 1 as int),
            )
        } else {
            proof {
                lemma_param_run_bounded(rest);
            }
            spec_retain_sgr(rest.skip(k as int))
        }
    } else {
        spec_retain_sgr(s.skip(1))
    }
}

/// A color option decoded: `\\e` and then `\e` turned into ESC, keeping only
/// the SGR sequences.
pub open spec fn spec_decode_tmux_color(value: Seq<char>) -> Seq<char> {
    spec_retain_sgr(
        replace_all(replace_all(value, "\\\\e"@, "\u{1b}"@), "\\e"@, "\u{1b}"@),
    )
}

pub fn decode_tmux_color(value: &str) -> (color: String)
    ensures
        color@ == spec_decode_tmux_color(value@),
{
    proof {
        reveal_strlit("\\\\e");
        reveal_strlit("\\e");
    }
    let once = replace_str(value, "\\\\e", "\u{1b}");
    let decoded = replace_str(once.as_str(), "\\e", "\u{1b}");
    retain_sgr_sequences(decoded.as_str())
}

proof fn lemma_param_run(s: Seq<char>, m: nat)
    requires
        m <= s.len(),
        forall|t: int| 0 <= t < m ==> is_sgr_param(#[trigger] s[t]),
        m == s.len() || !is_sgr_param(s[m as int]),
    ensures
        param_run(s) == m,
    decreases m,
{
    if m > 0 {
        lemma_param_run(s.drop_first(), (m - 1) as nat);
    }
}

fn retain_sgr_sequences(value: &str) -> (retained: String)
    ensures
        retained@ == spec_retain_sgr(value@),
{
    let chars = str_chars(value);
    let n = chars.len();
    let mut retained = String::new();
    let mut i: usize = 0;
    let ghost s = value@;
    assert(s.skip(0) == s);
    while i < n
        invariant
            i <= n,
            n == s.len(),
            chars@ == s,
            retained@ + spec_retain_sgr(s.skip(i as int)) == spec_retain_sgr(s),
        decreases n - i,
    {
        let ghost cur = s.skip(i as int);
        if chars[i] != '\u{1b}' || i + 1 >= n || chars[i + 1] != '[' {
            assert(cur.skip(1) == s.skip(i + 1));
            i = i + 1;
        } else {
            let ghost rest = cur.skip(2);
            assert(rest == s.skip(i + 2));
            let start = i + 2;
            let mut j = start;
            while j < n && (('0' <= chars[j] && chars[j] <= '9') || chars[j] == ';' || chars[j]
                == ':')
                invariant
                    start <= j <= n,
                    n == s.len(),
                    chars@ == s,
                    rest == s.skip(start as int),
                    forall|t: int| start <= t < j ==> is_sgr_param(#[trigger] s[t]),
                decreases n - j,
            {
                j = j + 1;
            }
            proof {
                assert forall|t: int| 0 <= t < j - start implies is_sgr_param(#[trigger] rest[t]) by {
                    assert(rest[t] == s[start + t]);
                }
                if j < n {
                    assert(rest[j - start] == s[j as int]);
                }
                lemma_param_run(rest, (j - start) as nat);
            }
            if j < n && chars[j] == 'm' {
                let ghost before = retained@;
                string_push(&mut retained, '\u{1b}');
                string_push(&mut retained, '[');
                let mut t = start;
                while t < j
                    invariant
                        start <= t <= j,
                        j < n,
                        n == s.len(),
                        chars@ == s,
                        retained@ == before + seq!['\u{1b}', '['] + s.subrange(start as int, t as int),
                    decreases j - t,
                {
                    string_push(&mut retained, chars[t]);
                    assert(s.subrange(start as int, t + 1) == s.subrange(start as int, t as int).push(s[t as int]));
                    t = t + 1;
                }
                string_push(&mut retained, 'm');
                assert(rest.take(j - start) == s.subrange(start as int, j as int));
                assert(rest[j - start] == 'm');
                assert(rest.skip(j - start + 1) == s.skip(j + 1));
                assert(retained@ == before + (seq!['\u{1b}', '['] + rest.take(j - start) + seq!['m']));
                i = j + 1;
            } else {
                if j < n {
                    assert(rest[j - start] == s[j as int]);
                }
                assert(rest.skip(j - start) == s.skip(j as int));
                i = j;
            }
        }
    }
    assert(s.skip(n as int) =~= Seq::<char>::empty());
    retained
}

/// `s` with a carriage return written after every line feed, so each row
/// starts at the left edge when written to a raw tty.
pub open spec fn with_carriage_returns(s: Seq<char>) -> Seq<char>
    decreases s.len(),
{
    if s.len() == 0 {
        seq![]
    } else {
        let prev = with_carriage_returns(s.drop_last());
        if s.last() == '\n' {
            prev + seq!['\n', '\r']
        } else {
            prev.push(s.last())
        }
    }
}

fn push_with_carriage_returns(out: &mut String, text: &str)
    ensures
        final(out)@ == old(out)@ + with_carriage_returns(text@),
{
    let chars = str_chars(text);
    let n = chars.len();
    for i in 0..n
        invariant
            n == text@.len(),
            chars@ == text@,
            out@ == old(out)@ + with_carriage_returns(text@.take(i as int)),
    {
        let ch = chars[i];
        let ghost prefix = text@.take(i + 1);
        assert(prefix.drop_last() == text@.take(i as int));
        assert(prefix.last() == ch);
        string_push(out, ch);
        if ch == '\n' {
            string_push(out, '\r');
        }
    }
    assert(text@.take(n as int) == text@);
}

/// `a - b`, saturating at 0.
pub open spec fn sat_sub(a: usize, b: usize) -> usize {
    if a >= b {
        (a - b) as usize
    } else {
        0
    }
}

/// Display width of a label: the sum of its characters' widths, a control
/// character counting as one column, saturating.
pub open spec fn label_width(label: Seq<char>) -> usize
    decreases label.len(),
{
    if label.len() == 0 {
        0
    } else {
        saturate(
            label_width(label.drop_last()) + match spec_char_width(label.last()) {
                Some(w) => w as int,
                None => 1,
            },
        )
    }
}

fn label_display_width(label: &str) -> (width: usize)
    ensures
        width == label_width(label@),
{
    let chars = str_chars(label);
    let n = chars.len();
    let mut width: usize = 0;
    for i in 0..n
        invariant
            n == label@.len(),
            chars@ == label@,
            width == label_width(label@.take(i as int)),
    {
        let ghost prefix = label@.take(i + 1);
        assert(prefix.drop_last() == label@.take(i as int));
        let w = match char_width(chars[i]) {
            Some(w) => w,
            None => 1,
        };
        width = width.saturating_add(w);
    }
    assert(label@.take(n as int) == label@);
    width
}

/// The display column where a label starts.
pub open spec fn label_start_column(cell: OverlayCell, label: Seq<char>, position: KeyPosition) -> usize {
    match position {
        KeyPosition::Left => cell.anchor.column,
        KeyPosition::Right => saturate(cell.anchor.column + cell.width),
        KeyPosition::OffLeft => sat_sub(cell.anchor.column, label_width(label)),
    }
}

/// `ESC [ row ; column H`: move the cursor to a 1-based position.
pub open spec fn cursor_to(row: usize, column: usize) -> Seq<char> {
    seq!['\u{1b}', '['] + decimal(row as nat) + seq![';'] + decimal(column as nat) + seq!['H']
}

/// What draws one label: move to its 1-based position, set the colors, write
/// the label, reset the colors.
pub open spec fn label_paint(cell: OverlayCell, label: Seq<char>, style: OverlayStyle) -> Seq<char> {
    cursor_to(
        saturate(cell.anchor.row + 1),
        saturate(label_start_column(cell, label, style.key_position) + 1),
    ) + style.foreground@ + style.label_style@ + label + RESET_COLORS@
}

/// The paints of the first `n` labels, in order.
pub open spec fn label_paints(
    cells: Seq<OverlayCell>,
    labels: Seq<Seq<char>>,
    style: OverlayStyle,
    n: nat,
) -> Seq<char>
    decreases n,
{
    if n == 0 {
        seq![]
    } else {
        label_paints(cells, labels, style, (n - 1) as nat) + label_paint(
            cells[n - 1],
            labels[n - 1],
            style,
        )
    }
}

/// The overlay: reset scroll region, clear and home; the background; the
/// screen with carriage returns; one paint per label (as many as there are
/// both cells and labels); home.
pub open spec fn spec_render_overlay(
    screen: Seq<char>,
    cells: Seq<OverlayCell>,
    labels: Seq<Seq<char>>,
    style: OverlayStyle,
) -> Seq<char> {
    let n = if cells.len() < labels.len() {
        cells.len()
    } else {
        labels.len()
    };
    RESET_CLEAR_HOME_SEQ@ + style.background@ + with_carriage_returns(screen) + label_paints(
        cells,
        labels,
        style,
        n,
    ) + HOME_SEQ@
}

/// The overlay cells of the characters at `positions`.
pub open spec fn spec_overlay_cells(screen: Seq<char>, positions: Seq<usize>) -> Seq<OverlayCell> {
    Seq::new(
        positions.len(),
        |i: int|
            {
                let p = spec_cell_position(spec_screen_cells(screen), positions[i] as nat);
                OverlayCell {
                    anchor: crate::cells::OverlayAnchor { row: p.row, column: p.display_column },
                    width: p.cell_width,
                }
            },
    )
}

fn push_label_paint(out: &mut String, cell: OverlayCell, label: &String, style: &OverlayStyle)
    ensures
        final(out)@ == old(out)@ + label_paint(cell, label@, *style),
{
    let label_width = label_display_width(label.as_str());
    let start_column = match style.key_position {
        KeyPosition::Left => cell.anchor.column,
        KeyPosition::Right => cell.anchor.column.saturating_add(cell.width),
        KeyPosition::OffLeft => cell.anchor.column.saturating_sub(label_width),
    };
    string_push(out, '\u{1b}');
    string_push(out, '[');
    push_decimal(out, cell.anchor.row.saturating_add(1));
    string_push(out, ';');
    push_decimal(out, start_column.saturating_add(1));
    string_push(out, 'H');
    out.append(style.foreground.as_str());
    out.append(style.label_style.as_str());
    out.append(label.as_str());
    out.append(RESET_COLORS);
    assert(final(out)@ =~= old(out)@ + label_paint(cell, label@, *style)) by {
        let row = saturate(cell.anchor.row + 1);
        let col = saturate(label_start_column(cell, label@, style.key_position) + 1);
        assert(cursor_to(row, col) =~= seq!['\u{1b}', '['] + decimal(row as nat) + seq![';']
            + decimal(col as nat) + seq!['H']);
    }
}

/// Renders the overlay for precomputed cells.
pub fn render_overlay_cells(
    screen: &str,
    overlay_cells: &[OverlayCell],
    labels: &[String],
    style: &OverlayStyle,
) -> (rendered: String)
    ensures
        rendered@ == spec_render_overlay(
            screen@,
            overlay_cells@,
            labels@.map_values(|l: String| l@),
            *style,
        ),
{
    let ghost label_views = labels@.map_values(|l: String| l@);
    let mut rendered = String::new();
    rendered.append(RESET_CLEAR_HOME_SEQ);
    rendered.append(style.background.as_str());
    push_with_carriage_returns(&mut rendered, screen);
    let ghost head = rendered@;
    let n = if overlay_cells.len() < labels.len() {
        overlay_cells.len()
    } else {
        labels.len()
    };
    for i in 0..n
        invariant
            n <= overlay_cells@.len(),
            n <= labels@.len(),
            label_views == labels@.map_values(|l: String| l@),
            rendered@ == head + label_paints(overlay_cells@, label_views, *style, i as nat),
    {
        push_label_paint(&mut rendered, overlay_cells[i], &labels[i], style);
        assert(label_views[i as int] == labels@[i as int]@);
    }
    rendered.append(HOME_SEQ);
    rendered
}

/// Renders the overlay for the characters at `positions`.
pub fn render_overlay(
    screen: &str,
    positions: &[usize],
    labels: &[String],
    style: &OverlayStyle,
) -> (rendered: String)
    ensures
        rendered@ == spec_render_overlay(
            screen@,
            spec_overlay_cells(screen@, positions@),
            labels@.map_values(|l: String| l@),
            *style,
        ),
{
    let overlay_cells = overlay_cells_for_char_indices(screen, positions);
    assert(overlay_cells@ =~= spec_overlay_cells(screen@, positions@));
    render_overlay_cells(screen, overlay_cells.as_slice(), labels, style)
}

/// Writes the overlay for the characters at `positions` to the pane's tty.
pub fn draw_overlay<B: TmuxBackend>(
    backend: &B,
    pane: &PaneState,
    screen: &str,
    positions: &[usize],
    labels: &[String],
    style: &OverlayStyle,
) -> Result<(), BackendError> {
    let rendered = render_overlay(screen, positions, labels, style);
    backend.write_to_tty(pane, rendered.as_str())
}

/// Writes the overlay for precomputed cells to the pane's tty.
pub fn draw_overlay_cells<B: TmuxBackend>(
    backend: &B,
    pane: &PaneState,
    screen: &str,
    overlay_cells: &[OverlayCell],
    labels: &[String],
    style: &OverlayStyle,
) -> Result<(), BackendError> {
    let rendered = render_overlay_cells(screen, overlay_cells, labels, style);
    backend.write_to_tty(pane, rendered.as_str())
}

/// What repaints a saved alternate screen: reset colors, reset the scroll
/// region, clear, home, the saved rows with carriage returns, the cursor
/// parked back at its 1-based position, reset colors.
pub open spec fn spec_alternate_screen_restore(
    saved_screen: Seq<char>,
    cursor_y: usize,
    cursor_x: usize,
) -> Seq<char> {
    RESET_COLORS@ + RESET_SCROLL_REGION@ + CLEAR_SEQ@ + HOME_SEQ@ + with_carriage_returns(
        saved_screen,
    ) + cursor_to(saturate(cursor_y + 1), saturate(cursor_x + 1)) + RESET_COLORS@
}

pub fn alternate_screen_restore_sequence(
    saved_screen: &str,
    cursor_y: usize,
    cursor_x: usize,
) -> (restore: String)
    ensures
        restore@ == spec_alternate_screen_restore(saved_screen@, cursor_y, cursor_x),
{
    let mut restore = String::new();
    restore.append(RESET_COLORS);
    restore.append(RESET_SCROLL_REGION);
    restore.append(CLEAR_SEQ);
    restore.append(HOME_SEQ);
    push_with_carriage_returns(&mut restore, saved_screen);
    let ghost body = restore@;
    string_push(&mut restore, '\u{1b}');
    string_push(&mut restore, '[');
    push_decimal(&mut restore, cursor_y.saturating_add(1));
    string_push(&mut restore, ';');
    push_decimal(&mut restore, cursor_x.saturating_add(1));
    string_push(&mut restore, 'H');
    restore.append(RESET_COLORS);
    assert(restore@ =~= body + cursor_to(saturate(cursor_y + 1), saturate(cursor_x + 1))
        + RESET_COLORS@);
    restore
}

/// How a screen takeover ends, from the action's result and the restore's:
/// the action's error if it failed, else the restore's error if that failed,
/// else the action's value.
pub fn restore_outcome<T>(
    action_result: Result<T, BackendError>,
    restore_result: Result<(), BackendError>,
) -> (result: Result<T, BackendError>)
    ensures
        action_result is Err ==> result == action_result,
        action_result is Ok && restore_result is Err ==> result == Err::<T, BackendError>(
            restore_result->Err_0,
        ),
        action_result is Ok && restore_result is Ok ==> result == action_result,
{
    match action_result {
        Ok(v) => match restore_result {
            Ok(()) => Ok(v),
            Err(e) => Err(e),
        },
        Err(e) => Err(e),
    }
}

/// Runs `action` with the pane's screen taken over for the overlay, then
/// gives the screen back: on the normal screen by entering and leaving the
/// alternate screen, on the alternate screen by repainting a saved capture.
/// The action's error wins over a failed restore.
pub fn with_recovered_screen<B: TmuxBackend, T, F: FnOnce() -> Result<T, BackendError>>(
    backend: &B,
    pane: &PaneState,
    action: F,
) -> (result: Result<T, BackendError>)
    requires
        action.requires(()),
    ensures
        result matches Ok(v) ==> action.ensures((), Ok(v)),
{
    if pane.alternate_on {
        with_alternate_screen_restore(backend, pane, action).0
    } else {
        with_normal_screen_restore(backend, pane, action).0
    }
}

/// Takes the normal screen over by entering the alternate screen, runs
/// `action`, and leaves the alternate screen again. Returns the outcome and
/// what it wrote to the tty itself: the enter sequence, then, when that write
/// went through, the leave sequence after the action.
fn with_normal_screen_restore<B: TmuxBackend, T, F: FnOnce() -> Result<T, BackendError>>(
    backend: &B,
    pane: &PaneState,
    action: F,
) -> (result: (Result<T, BackendError>, Vec<String>))
    requires
        action.requires(()),
    ensures
        result.0 matches Ok(v) ==> action.ensures((), Ok(v)),
        1 <= result.1@.len() <= 2,
        result.1@[0]@ == ENTER_ALTERNATE_HOME_SEQ@,
        result.1@.len() == 2 ==> result.1@[1]@ == RESTORE_NORMAL_SCREEN@,
        result.0 is Ok ==> result.1@.len() == 2,
{
    let enter = ENTER_ALTERNATE_HOME_SEQ;
    let mut writes: Vec<String> = Vec::new();
    writes.push(string_from_str(enter));
    match backend.write_to_tty(pane, enter) {
        Ok(()) => {},
        Err(e) => return (Err(e), writes),
    }
    let action_result = action();
    let leave = RESTORE_NORMAL_SCREEN;
    writes.push(string_from_str(leave));
    let restore_result = backend.write_to_tty(pane, leave);
    (restore_outcome(action_result, restore_result), writes)
}

/// Takes an alternate screen over by saving a capture of it with its
/// colors, clearing it, running `action`, and repainting the capture. Returns
/// the outcome and what it wrote to the tty itself: the clear, then, when
/// that write went through, the repaint of the capture after the action.
fn with_alternate_screen_restore<B: TmuxBackend, T, F: FnOnce() -> Result<T, BackendError>>(
    backend: &B,
    pane: &PaneState,
    action: F,
) -> (result: (Result<T, BackendError>, Vec<String>))
    requires
        action.requires(()),
    ensures
        result.0 matches Ok(v) ==> action.ensures((), Ok(v)),
        result.1@.len() <= 2,
        result.1@.len() >= 1 ==> result.1@[0]@ == RESET_CLEAR_HOME_SEQ@,
        result.1@.len() == 2 ==> exists|saved: Seq<char>|
            result.1@[1]@ == spec_alternate_screen_restore(saved, pane.cursor_y, pane.cursor_x),
        result.0 is Ok ==> result.1@.len() == 2,
{
    let mut writes: Vec<String> = Vec::new();
    let saved_screen = match backend.capture_pane_with_escapes(pane.pane_id.as_str()) {
        Ok(s) => s,
        Err(e) => return (Err(e), writes),
    };
    let clear = RESET_CLEAR_HOME_SEQ;
    writes.push(string_from_str(clear));
    match backend.write_to_tty(pane, clear) {
        Ok(()) => {},
        Err(e) => return (Err(e), writes),
    }
    let action_result = action();
    let restore = alternate_screen_restore_sequence(
        saved_screen.as_str(),
        pane.cursor_y,
        pane.cursor_x,
    );
    let restore_result = backend.write_to_tty(pane, restore.as_str());
    writes.push(restore);
    (restore_outcome(action_result, restore_result), writes)
}

/// The overlay resets the scroll region before anything else, so none of
/// the line feeds that follow can scroll inside a TUI's narrowed region.
pub proof fn law_overlay_resets_scroll_region_first(
    screen: Seq<char>,
    cells: Seq<OverlayCell>,
    labels: Seq<Seq<char>>,
    style: OverlayStyle,
)
    ensures
        spec_render_overlay(screen, cells, labels, style).take(3) == RESET_SCROLL_REGION@,
        RESET_SCROLL_REGION@ == seq!['\u{1b}', '[', 'r'],
{
    reveal_strlit("\u{1b}[r\u{1b}[2J\u{1b}[H");
    reveal_strlit("\u{1b}[r");
    let r = spec_render_overlay(screen, cells, labels, style);
    assert(r.take(3) =~= RESET_SCROLL_REGION@);
}

/// The restore of an alternate screen resets the scroll region before it
/// writes any line feed (only the color reset precedes it), then clears and
/// homes the cursor explicitly before the saved rows.
pub proof fn law_restore_resets_scroll_region_before_repaint(
    saved_screen: Seq<char>,
    cursor_y: usize,
    cursor_x: usize,
)
    ensures
        spec_alternate_screen_restore(saved_screen, cursor_y, cursor_x).subrange(4, 7)
            == RESET_SCROLL_REGION@,
        !spec_alternate_screen_restore(saved_screen, cursor_y, cursor_x).take(7).contains('\n'),
        spec_alternate_screen_restore(saved_screen, cursor_y, cursor_x).take(14) == RESET_COLORS@
            + RESET_SCROLL_REGION@ + CLEAR_SEQ@ + HOME_SEQ@,
{
    reveal_strlit("\u{1b}[0m");
    reveal_strlit("\u{1b}[r");
    let r = spec_alternate_screen_restore(saved_screen, cursor_y, cursor_x);
    assert(r.subrange(4, 7) =~= RESET_SCROLL_REGION@);
    assert(r.take(7) =~= seq!['\u{1b}', '[', '0', 'm', '\u{1b}', '[', 'r']);
    reveal_strlit("\u{1b}[2J");
    reveal_strlit("\u{1b}[H");
    assert(r.take(14) =~= RESET_COLORS@ + RESET_SCROLL_REGION@ + CLEAR_SEQ@ + HOME_SEQ@);
}


proof fn lemma_param_run_prefix(r: Seq<char>)
    ensures
        param_run(r) <= r.len(),
        forall|t: int| 0 <= t < param_run(r) ==> is_sgr_param(#[trigger] r[t]),
        param_run(r) < r.len() ==> !is_sgr_param(r[param_run(r) as int]),
    decreases r.len(),
{
    if r.len() > 0 && is_sgr_param(r[0]) {
        lemma_param_run_prefix(r.drop_first());
        assert forall|t: int| 0 <= t < param_run(r) implies is_sgr_param(#[trigger] r[t]) by {
            if t > 0 {
                assert(r[t] == r.drop_first()[t - 1]);
            }
        }
        if param_run(r) < r.len() {
            assert(r[param_run(r) as int] == r.drop_first()[param_run(r.drop_first()) as int]);
        }
    }
}

/// One whole SGR sequence: `ESC [`, the parameters `p`, `m`.
pub open spec fn sgr_sequence(p: Seq<char>) -> Seq<char> {
    seq!['\u{1b}', '['] + p + seq!['m']
}

proof fn lemma_retain_keeps_leading_sgr(p: Seq<char>, rest: Seq<char>)
    requires
        forall|t: int| 0 <= t < p.len() ==> is_sgr_param(#[trigger] p[t]),
    ensures
        spec_retain_sgr(sgr_sequence(p) + rest) == sgr_sequence(p) + spec_retain_sgr(rest),
{
    let s = sgr_sequence(p) + rest;
    let r = s.skip(2);
    assert(r =~= p + seq!['m'] + rest);
    assert forall|t: int| 0 <= t < p.len() implies is_sgr_param(#[trigger] r[t]) by {
        assert(r[t] == p[t]);
    }
    assert(r[p.len() as int] == 'm');
    lemma_param_run(r, p.len());
    assert(r.take(p.len() as int) =~= p);
    assert(r.skip(p.len() + 1int) =~= rest);
}

/// Whether no character of `s` is a backslash.
pub open spec fn no_backslash(s: Seq<char>) -> bool {
    forall|t: int| 0 <= t < s.len() ==> #[trigger] s[t] != '\\'
}

proof fn lemma_retain_idempotent(s: Seq<char>)
    ensures
        spec_retain_sgr(spec_retain_sgr(s)) == spec_retain_sgr(s),
        no_backslash(spec_retain_sgr(s)),
    decreases s.len(),
{
    if s.len() == 0 {
    } else if s[0] == '\u{1b}' && s.len() >= 2 && s[1] == '[' {
        let rest = s.skip(2);
        let k = param_run(rest);
        lemma_param_run_prefix(rest);
        if k < rest.len() && rest[k as int] == 'm' {
            let p = rest.take(k as int);
            let tail = rest.skip(k + 1 as int);
            assert forall|t: int| 0 <= t < p.len() implies is_sgr_param(#[trigger] p[t]) by {
                assert(p[t] == rest[t]);
            }
            assert(spec_retain_sgr(s) == sgr_sequence(p) + spec_retain_sgr(tail));
            lemma_retain_idempotent(tail);
            lemma_retain_keeps_leading_sgr(p, spec_retain_sgr(tail));
            let out = sgr_sequence(p) + spec_retain_sgr(tail);
            assert forall|t: int| 0 <= t < out.len() implies #[trigger] out[t] != '\\' by {
                if t >= sgr_sequence(p).len() {
                    assert(out[t] == spec_retain_sgr(tail)[t - sgr_sequence(p).len()]);
                } else if 2 <= t < 2 + p.len() {
                    assert(out[t] == p[t - 2]);
                }
            }
        } else {
            lemma_retain_idempotent(rest.skip(k as int));
        }
    } else {
        lemma_retain_idempotent(s.skip(1));
    }
}

proof fn lemma_replace_without_backslash(t: Seq<char>, pat: Seq<char>, rep: Seq<char>)
    requires
        no_backslash(t),
        pat.len() > 0,
        pat[0] == '\\',
    ensures
        replace_all(t, pat, rep) == t,
    decreases t.len(),
{
    if t.len() > 0 {
        assert(t[0] != '\\');
        if t.len() >= pat.len() && t.take(pat.len() as int) == pat {
            assert(t.take(pat.len() as int)[0] == t[0]);
        }
        assert forall|i: int| 0 <= i < t.skip(1).len() implies #[trigger] t.skip(1)[i] != '\\' by {
            assert(t.skip(1)[i] == t[i + 1]);
        }
        lemma_replace_without_backslash(t.skip(1), pat, rep);
        assert(seq![t[0]] + t.skip(1) =~= t);
    }
}

/// Decoding a colour twice gives what decoding it once gives: a decoded
/// colour holds only whole SGR sequences and no backslash, so it decodes to
/// itself.
pub proof fn law_decoding_colors_is_idempotent(value: Seq<char>)
    ensures
        spec_decode_tmux_color(spec_decode_tmux_color(value)) == spec_decode_tmux_color(value),
{
    let once = spec_decode_tmux_color(value);
    let pre = replace_all(replace_all(value, "\\\\e"@, "\u{1b}"@), "\\e"@, "\u{1b}"@);
    lemma_retain_idempotent(pre);
    reveal_strlit("\\\\e");
    reveal_strlit("\\e");
    lemma_replace_without_backslash(once, "\\\\e"@, "\u{1b}"@);
    lemma_replace_without_backslash(once, "\\e"@, "\u{1b}"@);
}

} // verus!
