//! Grid geometry of a captured screen: which terminal cell holds a given
//! character, measured both in display columns (for drawing labels) and in
//! grid cells (for copy-mode navigation).
//!
//! tmux keeps a whole grapheme cluster in one cell, so both metrics walk
//! clusters, not characters. A newline cluster starts a new row; a cluster of
//! display width 0 (an orphan combining mark) occupies no cell.

use vstd::prelude::*;

use crate::labels::saturate;
use crate::text::str_eq;
use crate::unicode::{
    grapheme_clusters, printable_ascii_or_newline, spec_graphemes, spec_str_width, str_width,
};

verus! {

/// Anchor for drawing an overlay label. `column` is a display column: each
/// grid cell contributes its terminal width, so a wide cell counts as two.
#[derive(Debug, Clone, Copy, PartialEq, Eq, Structural)]
pub struct OverlayAnchor {
    pub row: usize,
    pub column: usize,
}

/// An overlay anchor together with the display width of the cell there.
#[derive(Debug, Clone, Copy, PartialEq, Eq, Structural)]
pub struct OverlayCell {
    pub anchor: OverlayAnchor,
    pub width: usize,
}

/// Target for copy-mode navigation. `column` is a grid-cell count from the
/// start of the row: one copy-mode `cursor-right` press moves one cell.
#[derive(Debug, Clone, Copy, PartialEq, Eq, Structural)]
pub struct JumpTarget {
    pub row: usize,
    pub column: usize,
}

/// What the geometry needs to know of one grapheme cluster.
#[derive(Debug, Clone, Copy, PartialEq, Eq, Structural)]
pub struct GraphemeCell {
    /// Number of characters in the cluster.
    pub char_count: usize,
    /// Display width of the whole cluster.
    pub width: usize,
    /// Whether the cluster is a lone `'\n'`.
    pub is_newline: bool,
}

/// Position of the grid cell that holds a character.
#[derive(Debug, Clone, Copy, PartialEq, Eq, Structural)]
pub struct CellPosition {
    pub row: usize,
    /// Display column where the cell starts (sum of preceding cell widths).
    pub display_column: usize,
    /// Cell index within the row.
    pub cell_column: usize,
    /// Display width of the cell itself, at least 1.
    pub cell_width: usize,
}

/// `a + b`, saturating at `usize::MAX`.
pub open spec fn sat_add(a: usize, b: usize) -> usize {
    saturate(a + b)
}

/// Where the walk stands before cluster `k`: the row, display column and
/// cell column at which cluster `k` starts (`cell_width` is 1).
pub open spec fn walk(cells: Seq<GraphemeCell>, k: nat) -> CellPosition
    decreases k,
{
    if k == 0 {
        CellPosition { row: 0, display_column: 0, cell_column: 0, cell_width: 1 }
    } else {
        let p = walk(cells, (k - 1) as nat);
        let g = cells[k - 1];
        if g.is_newline {
            CellPosition { row: sat_add(p.row, 1), display_column: 0, cell_column: 0, cell_width: 1 }
        } else if g.width > 0 {
            CellPosition {
                row: p.row,
                display_column: sat_add(p.display_column, g.width),
                cell_column: sat_add(p.cell_column, 1),
                cell_width: 1,
            }
        } else {
            p
        }
    }
}

/// Number of characters in the first `k` clusters.
pub open spec fn chars_before(cells: Seq<GraphemeCell>, k: nat) -> nat
    decreases k,
{
    if k == 0 {
        0
    } else {
        chars_before(cells, (k - 1) as nat) + (cells[k - 1].char_count as nat)
    }
}

/// The cell of cluster `k`: where it starts, with its display width (1 for
/// a newline, and at least 1 otherwise).
pub open spec fn cell_at(cells: Seq<GraphemeCell>, k: nat) -> CellPosition {
    let p = walk(cells, k);
    let g = cells[k as int];
    CellPosition {
        row: p.row,
        display_column: p.display_column,
        cell_column: p.cell_column,
        cell_width: if g.is_newline || g.width == 0 {
            1
        } else {
            g.width
        },
    }
}

/// The cell of the first cluster from `k` on that ends after character
/// `target`; past the last cluster, the position after it with width 1.
pub open spec fn position_from(cells: Seq<GraphemeCell>, target: nat, k: nat) -> CellPosition
    decreases cells.len() - k,
{
    if k >= cells.len() {
        walk(cells, cells.len())
    } else if target < chars_before(cells, k + 1) {
        cell_at(cells, k)
    } else {
        position_from(cells, target, k + 1)
    }
}

/// The cell holding character `target`.
pub open spec fn spec_cell_position(cells: Seq<GraphemeCell>, target: nat) -> CellPosition {
    position_from(cells, target, 0)
}

/// What the geometry knows of one cluster of text.
pub open spec fn spec_grapheme_cell(g: Seq<char>) -> GraphemeCell {
    GraphemeCell {
        char_count: g.len() as usize,
        width: spec_str_width(g),
        is_newline: g == seq!['\n'],
    }
}

/// The clusters of a screen, as the geometry sees them.
pub open spec fn spec_screen_cells(screen: Seq<char>) -> Seq<GraphemeCell> {
    spec_graphemes(screen).map_values(|g: Seq<char>| spec_grapheme_cell(g))
}

proof fn lemma_chars_before_monotone(cells: Seq<GraphemeCell>, a: nat, b: nat)
    requires
        a <= b,
    ensures
        chars_before(cells, a) <= chars_before(cells, b),
    decreases b - a,
{
    if a < b {
        lemma_chars_before_monotone(cells, a, (b - 1) as nat);
    }
}

proof fn lemma_position_skips_earlier(cells: Seq<GraphemeCell>, target: nat, j: nat)
    requires
        j <= cells.len(),
        target >= chars_before(cells, j),
    ensures
        spec_cell_position(cells, target) == position_from(cells, target, j),
    decreases j,
{
    if j > 0 {
        lemma_chars_before_monotone(cells, (j - 1) as nat, j);
        lemma_position_skips_earlier(cells, target, (j - 1) as nat);
    }
}

/// A character inside cluster `k` resolves to the cell of cluster `k`
/// (never to a position inside it); one past the last cluster resolves to
/// the position after it.
pub proof fn law_target_resolves_to_its_cluster(cells: Seq<GraphemeCell>, k: nat, target: nat)
    requires
        k < cells.len(),
        chars_before(cells, k) <= target < chars_before(cells, k + 1),
    ensures
        spec_cell_position(cells, target) == cell_at(cells, k),
{
    lemma_position_skips_earlier(cells, target, k);
}

/// Past the last character, a target resolves to the position after the
/// last cluster, one display cell wide.
pub proof fn law_targets_past_the_end(cells: Seq<GraphemeCell>, target: nat)
    requires
        target >= chars_before(cells, cells.len()),
    ensures
        spec_cell_position(cells, target) == walk(cells, cells.len()),
{
    lemma_position_skips_earlier(cells, target, cells.len());
}

/// Every resolved cell is at least one display column wide.
pub proof fn law_cell_width_positive(cells: Seq<GraphemeCell>, target: nat)
    ensures
        spec_cell_position(cells, target).cell_width >= 1,
{
    lemma_width_positive_from(cells, target, 0);
}

proof fn lemma_walk_width_one(cells: Seq<GraphemeCell>, k: nat)
    ensures
        walk(cells, k).cell_width == 1,
    decreases k,
{
    if k > 0 {
        lemma_walk_width_one(cells, (k - 1) as nat);
    }
}

proof fn lemma_width_positive_from(cells: Seq<GraphemeCell>, target: nat, k: nat)
    ensures
        position_from(cells, target, k).cell_width >= 1,
    decreases cells.len() - k,
{
    if k >= cells.len() {
        lemma_walk_width_one(cells, cells.len());
    } else if target >= chars_before(cells, k + 1) {
        lemma_width_positive_from(cells, target, k + 1);
    }
}

/// Whether no cluster is wider than one display column.
pub open spec fn all_narrow(cells: Seq<GraphemeCell>) -> bool {
    forall|i: int| 0 <= i < cells.len() ==> (#[trigger] cells[i]).width <= 1
}

proof fn lemma_walk_metrics_agree(cells: Seq<GraphemeCell>, k: nat)
    requires
        all_narrow(cells),
        k <= cells.len(),
    ensures
        walk(cells, k).display_column == walk(cells, k).cell_column,
    decreases k,
{
    if k > 0 {
        lemma_walk_metrics_agree(cells, (k - 1) as nat);
        assert(cells[k - 1].width <= 1);
    }
}

proof fn lemma_metrics_agree_from(cells: Seq<GraphemeCell>, target: nat, k: nat)
    requires
        all_narrow(cells),
    ensures
        position_from(cells, target, k).display_column == position_from(
            cells,
            target,
            k,
        ).cell_column,
    decreases cells.len() - k,
{
    if k >= cells.len() {
        lemma_walk_metrics_agree(cells, cells.len());
    } else if target < chars_before(cells, k + 1) {
        lemma_walk_metrics_agree(cells, k);
    } else {
        lemma_metrics_agree_from(cells, target, k + 1);
    }
}

/// When no cluster is wider than one column (plain ASCII, for instance),
/// display columns and grid-cell columns coincide, so the overlay anchor and
/// the jump target of a character agree on row and column.
pub proof fn law_narrow_screens_agree_on_columns(cells: Seq<GraphemeCell>, target: nat)
    requires
        all_narrow(cells),
    ensures
        spec_cell_position(cells, target).display_column == spec_cell_position(
            cells,
            target,
        ).cell_column,
{
    lemma_metrics_agree_from(cells, target, 0);
}

fn step(state: CellPosition, g: GraphemeCell) -> (next: CellPosition)
    requires
        state.cell_width == 1,
    ensures
        next == (if g.is_newline {
            CellPosition { row: sat_add(state.row, 1), display_column: 0, cell_column: 0, cell_width: 1 }
        } else if g.width > 0 {
            CellPosition {
                row: state.row,
                display_column: sat_add(state.display_column, g.width),
                cell_column: sat_add(state.cell_column, 1),
                cell_width: 1,
            }
        } else {
            state
        }),
{
    if g.is_newline {
        CellPosition { row: state.row.saturating_add(1), display_column: 0, cell_column: 0, cell_width: 1 }
    } else if g.width > 0 {
        CellPosition {
            row: state.row,
            display_column: state.display_column.saturating_add(g.width),
            cell_column: state.cell_column.saturating_add(1),
            cell_width: 1,
        }
    } else {
        state
    }
}

/// The cells of `targets`, in the same order (unsorted and repeated
/// targets included), over the clusters `clusters`.
pub fn cell_positions_for_clusters(clusters: &Vec<GraphemeCell>, targets: &[usize]) -> (positions:
    Vec<CellPosition>)
    ensures
        positions@.len() == targets@.len(),
        forall|i: int|
            0 <= i < targets@.len() ==> (#[trigger] positions@[i]) == spec_cell_position(
                clusters@,
                targets@[i] as nat,
            ),
{
    let ghost cs = clusters@;
    let n = clusters.len();
    let mut table: Vec<CellPosition> = Vec::new();
    let mut state = CellPosition { row: 0, display_column: 0, cell_column: 0, cell_width: 1 };
    for k in 0..n
        invariant
            n == cs.len(),
            cs == clusters@,
            state == walk(cs, k as nat),
            table@.len() == chars_before(cs, k as nat),
            forall|t: int|
                0 <= t < table@.len() ==> (#[trigger] table@[t]) == spec_cell_position(
                    cs,
                    t as nat,
                ),
    {
        let g = clusters[k];
        let cell = CellPosition {
            row: state.row,
            display_column: state.display_column,
            cell_column: state.cell_column,
            cell_width: if g.is_newline || g.width == 0 {
                1
            } else {
                g.width
            },
        };
        assert(cell == cell_at(cs, k as nat));
        let ghost base = table@.len();
        for j in 0..g.char_count
            invariant
                k < n,
                n == cs.len(),
                cs == clusters@,
                g == cs[k as int],
                base == chars_before(cs, k as nat),
                cell == cell_at(cs, k as nat),
                table@.len() == base + j,
                forall|t: int|
                    0 <= t < table@.len() ==> (#[trigger] table@[t]) == spec_cell_position(
                        cs,
                        t as nat,
                    ),
        {
            proof {
                law_target_resolves_to_its_cluster(cs, k as nat, (base + j) as nat);
            }
            table.push(cell);
        }
        proof {
            lemma_walk_width_one(cs, k as nat);
        }
        state = step(state, g);
    }
    let mut positions: Vec<CellPosition> = Vec::new();
    let m = targets.len();
    for i in 0..m
        invariant
            m == targets@.len(),
            n == cs.len(),
            cs == clusters@,
            state == walk(cs, n as nat),
            table@.len() == chars_before(cs, n as nat),
            forall|t: int|
                0 <= t < table@.len() ==> (#[trigger] table@[t]) == spec_cell_position(
                    cs,
                    t as nat,
                ),
            positions@.len() == i,
            forall|j: int|
                0 <= j < i ==> (#[trigger] positions@[j]) == spec_cell_position(
                    cs,
                    targets@[j] as nat,
                ),
    {
        let t = targets[i];
        if t < table.len() {
            positions.push(table[t]);
        } else {
            proof {
                law_targets_past_the_end(cs, t as nat);
            }
            positions.push(state);
        }
    }
    positions
}

/// The cell of a printable ASCII character or line feed: one character, one
/// column.
pub open spec fn ascii_cell(c: char) -> GraphemeCell {
    GraphemeCell { char_count: 1, width: 1, is_newline: c == '\n' }
}

/// Whether the clusters of `screen` are its characters, one cell each.
pub open spec fn cells_are_ascii(cells: Seq<GraphemeCell>, screen: Seq<char>) -> bool {
    &&& cells.len() == screen.len()
    &&& forall|j: int| 0 <= j < cells.len() ==> #[trigger] cells[j] == ascii_cell(screen[j])
}

/// The clusters of `screen`, as the geometry sees them.
pub fn screen_cells(screen: &str) -> (cells: Vec<GraphemeCell>)
    ensures
        cells@ == spec_screen_cells(screen@),
        chars_before(cells@, cells@.len()) == screen@.len(),
        printable_ascii_or_newline(screen@) ==> cells_are_ascii(cells@, screen@),
{
    let clusters = grapheme_clusters(screen);
    let ghost gs = spec_graphemes(screen@);
    let n = clusters.len();
    let mut cells: Vec<GraphemeCell> = Vec::new();
    for i in 0..n
        invariant
            n == clusters@.len(),
            clusters.deep_view() == gs,
            gs == spec_graphemes(screen@),
            cells@ == gs.take(i as int).map_values(|g: Seq<char>| spec_grapheme_cell(g)),
            chars_before(cells@, i as nat) == gs.take(i as int).flatten_alt().len(),
            gs.flatten() == screen@,
            printable_ascii_or_newline(screen@) ==> gs == Seq::new(
                screen@.len(),
                |k: int| seq![screen@[k]],
            ),
            printable_ascii_or_newline(screen@) ==> forall|j: int|
                0 <= j < i ==> #[trigger] cells@[j] == ascii_cell(screen@[j]),
    {
        let text = clusters[i].as_str();
        assert(text@ == gs[i as int]);
        proof {
            if printable_ascii_or_newline(screen@) {
                assert(text@ == seq![screen@[i as int]]);
                assert(printable_ascii_or_newline(text@)) by {
                    assert forall|k: int| 0 <= k < text@.len() implies (' ' <= #[trigger] text@[k]
                        <= '~' || text@[k] == '\n') by {
                        assert(text@[k] == screen@[i as int]);
                    }
                }
            }
        }
        let cell = GraphemeCell {
            char_count: text.unicode_len(),
            width: str_width(text),
            is_newline: str_eq(text, "\n"),
        };
        proof {
            reveal_strlit("\n");
        }
        assert("\n"@ =~= seq!['\n']);
        proof {
            if printable_ascii_or_newline(screen@) {
                let c = screen@[i as int];
                assert(text@ =~= seq![c]);
                if text@ == "\n"@ {
                    assert(text@[0] == '\n');
                }
                if c == '\n' {
                    assert(text@ =~= "\n"@);
                }
                assert(cell == ascii_cell(c));
            }
        }
        let ghost before = cells@;
        cells.push(cell);
        assert(cells@.take(i as int) =~= before);
        assert(gs.take(i + 1).drop_last() =~= gs.take(i as int));
        assert(gs.take(i + 1).last() == gs[i as int]);
        proof {
            lemma_chars_before_prefix(cells@, i as nat);
        }
        assert(gs.take(i + 1).map_values(|g: Seq<char>| spec_grapheme_cell(g)) =~= gs.take(
            i as int,
        ).map_values(|g: Seq<char>| spec_grapheme_cell(g)).push(spec_grapheme_cell(gs[i as int])));
    }
    assert(gs.take(n as int) =~= gs);
    proof {
        gs.lemma_flatten_and_flatten_alt_are_equivalent();
    }
    cells
}

/// How many line feeds precede index `k` of `s`.
pub open spec fn newlines_before(s: Seq<char>, k: int) -> nat
    decreases k,
{
    if k <= 0 {
        0
    } else {
        newlines_before(s, k - 1) + if s[k - 1] == '\n' {
            1nat
        } else {
            0nat
        }
    }
}

/// Where the line holding index `k` of `s` starts: just after the last line
/// feed before `k`, or at 0.
pub open spec fn line_start(s: Seq<char>, k: int) -> int
    decreases k,
{
    if k <= 0 {
        0
    } else if s[k - 1] == '\n' {
        k
    } else {
        line_start(s, k - 1)
    }
}

proof fn lemma_ascii_walk(cells: Seq<GraphemeCell>, s: Seq<char>, k: nat)
    requires
        cells_are_ascii(cells, s),
        s.len() <= usize::MAX,
        k <= s.len(),
    ensures
        newlines_before(s, k as int) <= k,
        0 <= line_start(s, k as int) <= k,
        chars_before(cells, k) == k,
        walk(cells, k) == (CellPosition {
            row: newlines_before(s, k as int) as usize,
            display_column: (k - line_start(s, k as int)) as usize,
            cell_column: (k - line_start(s, k as int)) as usize,
            cell_width: 1,
        }),
    decreases k,
{
    if k > 0 {
        lemma_ascii_walk(cells, s, (k - 1) as nat);
        assert(cells[k - 1] == ascii_cell(s[k - 1]));
    }
}

/// On a screen of printable ASCII and line feeds, the character at index `i`
/// sits on the row counting the line feeds before it and in the column
/// counting the characters since its line began, in display columns and
/// grid cells alike.
pub proof fn law_ascii_cells_are_characters(s: Seq<char>, i: nat)
    requires
        cells_are_ascii(spec_screen_cells(s), s),
        s.len() <= usize::MAX,
        i < s.len(),
    ensures
        spec_cell_position(spec_screen_cells(s), i).row == newlines_before(s, i as int),
        spec_cell_position(spec_screen_cells(s), i).display_column == i - line_start(s, i as int),
        spec_cell_position(spec_screen_cells(s), i).cell_column == i - line_start(s, i as int),
{
    let cells = spec_screen_cells(s);
    lemma_ascii_walk(cells, s, i);
    lemma_ascii_walk(cells, s, i + 1);
    law_target_resolves_to_its_cluster(cells, i, i);
}

proof fn lemma_chars_before_prefix(cells: Seq<GraphemeCell>, k: nat)
    requires
        k < cells.len(),
    ensures
        chars_before(cells, k) == chars_before(cells.take(k as int), k),
        chars_before(cells, k + 1) == chars_before(cells, k) + cells[k as int].char_count,
    decreases k,
{
    if k > 0 {
        lemma_chars_before_prefix(cells, (k - 1) as nat);
        assert(cells.take(k as int)[k - 1] == cells[k - 1]);
        lemma_chars_before_take_shift(cells, (k - 1) as nat, k as int);
    }
}

proof fn lemma_chars_before_take_shift(cells: Seq<GraphemeCell>, k: nat, len: int)
    requires
        k <= len <= cells.len(),
    ensures
        chars_before(cells, k) == chars_before(cells.take(len), k),
    decreases k,
{
    if k > 0 {
        lemma_chars_before_take_shift(cells, (k - 1) as nat, len);
    }
}

/// The cells holding the characters at `target_indices` of `screen`, in the
/// same order.
fn cell_positions_for_char_indices(screen: &str, target_indices: &[usize]) -> (positions: Vec<
    CellPosition,
>)
    ensures
        positions@.len() == target_indices@.len(),
        forall|i: int|
            0 <= i < target_indices@.len() ==> (#[trigger] positions@[i]) == spec_cell_position(
                spec_screen_cells(screen@),
                target_indices@[i] as nat,
            ),
        printable_ascii_or_newline(screen@) ==> cells_are_ascii(spec_screen_cells(screen@), screen@),
{
    let cells = screen_cells(screen);
    cell_positions_for_clusters(&cells, target_indices)
}

fn cell_position_for_char_index(screen: &str, target_index: usize) -> (position: CellPosition)
    ensures
        position == spec_cell_position(spec_screen_cells(screen@), target_index as nat),
        printable_ascii_or_newline(screen@) && target_index < screen@.len() ==> {
            &&& position.row == newlines_before(screen@, target_index as int)
            &&& position.display_column == target_index - line_start(screen@, target_index as int)
            &&& position.cell_column == target_index - line_start(screen@, target_index as int)
        },
{
    let n = screen.unicode_len();
    let targets: Vec<usize> = vec![target_index];
    let positions = cell_positions_for_char_indices(screen, targets.as_slice());
    proof {
        if printable_ascii_or_newline(screen@) && target_index < screen@.len() {
            law_ascii_cells_are_characters(screen@, target_index as nat);
        }
    }
    positions[0]
}

/// Where to draw the label for the character at `target_index`, in display
/// columns.
pub fn overlay_anchor_for_char_index(screen: &str, target_index: usize) -> (anchor: OverlayAnchor)
    ensures
        printable_ascii_or_newline(screen@) && target_index < screen@.len() ==> anchor.row
            == newlines_before(screen@, target_index as int) && anchor.column == target_index
            - line_start(screen@, target_index as int),
        anchor.row == spec_cell_position(spec_screen_cells(screen@), target_index as nat).row,
        anchor.column == spec_cell_position(
            spec_screen_cells(screen@),
            target_index as nat,
        ).display_column,
{
    let cell = cell_position_for_char_index(screen, target_index);
    OverlayAnchor { row: cell.row, column: cell.display_column }
}

/// The overlay cells of several targets in one traversal, in input order even
/// when the targets are unsorted or repeated.
pub fn overlay_cells_for_char_indices(screen: &str, target_indices: &[usize]) -> (cells: Vec<
    OverlayCell,
>)
    ensures
        cells@.len() == target_indices@.len(),
        forall|i: int|
            0 <= i < target_indices@.len() ==> {
                let p = spec_cell_position(spec_screen_cells(screen@), target_indices@[i] as nat);
                &&& (#[trigger] cells@[i]).anchor.row == p.row
                &&& cells@[i].anchor.column == p.display_column
                &&& cells@[i].width == p.cell_width
            },
{
    let positions = cell_positions_for_char_indices(screen, target_indices);
    let mut cells: Vec<OverlayCell> = Vec::new();
    let m = positions.len();
    for i in 0..m
        invariant
            m == positions@.len(),
            m == target_indices@.len(),
            forall|j: int|
                0 <= j < m ==> (#[trigger] positions@[j]) == spec_cell_position(
                    spec_screen_cells(screen@),
                    target_indices@[j] as nat,
                ),
            cells@.len() == i,
            forall|j: int|
                0 <= j < i ==> {
                    let p = spec_cell_position(
                        spec_screen_cells(screen@),
                        target_indices@[j] as nat,
                    );
                    &&& (#[trigger] cells@[j]).anchor.row == p.row
                    &&& cells@[j].anchor.column == p.display_column
                    &&& cells@[j].width == p.cell_width
                },
    {
        let p = positions[i];
        cells.push(
            OverlayCell {
                anchor: OverlayAnchor { row: p.row, column: p.display_column },
                width: p.cell_width,
            },
        );
    }
    cells
}

/// The copy-mode target of the character at `index` of `screen`: the row
/// and grid-cell column of its cell.
pub open spec fn spec_jump_target(screen: Seq<char>, index: nat) -> JumpTarget {
    let p = spec_cell_position(spec_screen_cells(screen), index);
    JumpTarget { row: p.row, column: p.cell_column }
}

/// Where copy-mode navigation must go for the character at `target_index`,
/// in grid cells.
pub fn jump_target_for_char_index(screen: &str, target_index: usize) -> (target: JumpTarget)
    ensures
        printable_ascii_or_newline(screen@) && target_index < screen@.len() ==> target.row
            == newlines_before(screen@, target_index as int) && target.column == target_index
            - line_start(screen@, target_index as int),
        target.row == spec_cell_position(spec_screen_cells(screen@), target_index as nat).row,
        target.column == spec_cell_position(
            spec_screen_cells(screen@),
            target_index as nat,
        ).cell_column,
        target == spec_jump_target(screen@, target_index as nat),
{
    let cell = cell_position_for_char_index(screen, target_index);
    JumpTarget { row: cell.row, column: cell.cell_column }
}

/// Display width (at least 1) of the grid cell holding the character at
/// `target_index`.
pub fn display_cell_width_for_char_index(screen: &str, target_index: usize) -> (width: usize)
    ensures
        width == spec_cell_position(spec_screen_cells(screen@), target_index as nat).cell_width,
        width >= 1,
{
    proof {
        law_cell_width_positive(spec_screen_cells(screen@), target_index as nat);
    }
    cell_position_for_char_index(screen, target_index).cell_width
}

} // verus!
