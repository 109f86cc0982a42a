//! Match scanning: which character indices of a captured screen a jump
//! character can land on, under the three match modes.

use vstd::prelude::*;

use crate::text::{str_chars, str_eq};
use crate::unicode::{
    char_width, is_alphanumeric, is_ascii_alphanumeric, spec_char_width, spec_is_alphanumeric, spec_to_lowercase,
    to_lowercase,
};

pub use crate::cells::{
    display_cell_width_for_char_index, jump_target_for_char_index, overlay_anchor_for_char_index,
    overlay_cells_for_char_indices, JumpTarget, OverlayAnchor, OverlayCell,
};
pub use crate::labels::{
    bounded_subset_bounds, label_length_for, labels_for, labels_up_to, subset_bounds, LabelKeys,
    DEFAULT_LABEL_KEYS,
};

verus! {

/// Which characters of the screen count as targets.
#[derive(Debug, Clone, Copy, PartialEq, Eq, Structural)]
pub enum MatchMode {
    /// Word starts only (every occurrence for a non-word target).
    Word,
    /// Every occurrence.
    Char,
    /// The first non-blank character of each line.
    Line,
}

/// The mode an option value selects: `char`/`anywhere`, `line`/`line_start`,
/// and `word` for anything else.
pub open spec fn spec_match_mode(value: Seq<char>) -> MatchMode {
    if value == "char"@ || value == "anywhere"@ {
        MatchMode::Char
    } else if value == "line"@ || value == "line_start"@ {
        MatchMode::Line
    } else {
        MatchMode::Word
    }
}

impl MatchMode {
    pub fn from_env(value: &str) -> (mode: Self)
        ensures
            mode == spec_match_mode(value@),
    {
        if str_eq(value, "char") || str_eq(value, "anywhere") {
            MatchMode::Char
        } else if str_eq(value, "line") || str_eq(value, "line_start") {
            MatchMode::Line
        } else {
            MatchMode::Word
        }
    }
}

/// Where a label is drawn relative to its target cell.
#[derive(Debug, Clone, Copy, PartialEq, Eq, Structural)]
pub enum KeyPosition {
    Left,
    Right,
    OffLeft,
}

/// The placement an option value selects: `right`, `off_left`, and `left` for
/// anything else.
pub open spec fn spec_key_position(value: Seq<char>) -> KeyPosition {
    if value == "right"@ {
        KeyPosition::Right
    } else if value == "off_left"@ {
        KeyPosition::OffLeft
    } else {
        KeyPosition::Left
    }
}

impl KeyPosition {
    pub fn from_env(value: &str) -> (position: Self)
        ensures
            position == spec_key_position(value@),
    {
        if str_eq(value, "right") {
            KeyPosition::Right
        } else if str_eq(value, "off_left") {
            KeyPosition::OffLeft
        } else {
            KeyPosition::Left
        }
    }
}

/// A word character: `_`, an alphanumeric, or a zero-width character (which
/// shares its base character's cell and so continues a word).
pub open spec fn spec_is_word_char(c: char) -> bool {
    c == '_' || spec_is_alphanumeric(c) || spec_char_width(c) == Some(0usize)
}

fn is_word_char(ch: char) -> (b: bool)
    ensures
        b == spec_is_word_char(ch),
        ' ' <= ch <= '~' ==> (b <==> (ch == '_' || is_ascii_alphanumeric(ch))),
{
    ch == '_' || is_alphanumeric(ch) || char_width(ch) == Some(0usize)
}

/// Whether two characters match: equal when case-sensitive, otherwise equal
/// lowercase mappings.
pub open spec fn spec_chars_match(lhs: char, rhs: char, case_sensitive: bool) -> bool {
    if case_sensitive {
        lhs == rhs
    } else {
        spec_to_lowercase(lhs) == spec_to_lowercase(rhs)
    }
}

fn lowercase_eq(a: &Vec<char>, b: &Vec<char>) -> (eq: bool)
    ensures
        eq == (a@ == b@),
{
    if a.len() != b.len() {
        return false;
    }
    let n = a.len();
    for i in 0..n
        invariant
            n == a@.len(),
            n == b@.len(),
            forall|j: int| 0 <= j < i ==> a@[j] == b@[j],
    {
        if a[i] != b[i] {
            return false;
        }
    }
    assert(a@ =~= b@);
    true
}

fn chars_match(lhs: char, rhs: char, case_sensitive: bool) -> (b: bool)
    ensures
        b == spec_chars_match(lhs, rhs, case_sensitive),
{
    if case_sensitive {
        lhs == rhs
    } else {
        lowercase_eq(&to_lowercase(lhs), &to_lowercase(rhs))
    }
}

/// The indices `i < n` with `p(i)`, in increasing order.
pub open spec fn indices_where(n: nat, p: spec_fn(int) -> bool) -> Seq<usize>
    decreases n,
{
    if n == 0 {
        seq![]
    } else {
        let prev = indices_where((n - 1) as nat, p);
        if p(n - 1) {
            prev.push((n - 1) as usize)
        } else {
            prev
        }
    }
}

/// Whether only spaces and tabs stand between the start of `s[i]`'s line and
/// index `i`.
pub open spec fn blanks_before(s: Seq<char>, i: int) -> bool
    decreases i,
{
    if i <= 0 {
        true
    } else if s[i - 1] == '\n' {
        true
    } else if s[i - 1] == ' ' || s[i - 1] == '\t' {
        blanks_before(s, i - 1)
    } else {
        false
    }
}

/// Index `i` holds a matching character.
pub open spec fn char_match_at(s: Seq<char>, target: char, case_sensitive: bool) -> spec_fn(
    int,
) -> bool {
    |i: int| spec_chars_match(s[i], target, case_sensitive)
}

/// Index `i` starts a word and holds a matching character.
pub open spec fn word_match_at(s: Seq<char>, target: char, case_sensitive: bool) -> spec_fn(
    int,
) -> bool {
    |i: int|
        spec_is_word_char(s[i]) && (i == 0 || !spec_is_word_char(s[i - 1])) && spec_chars_match(
            s[i],
            target,
            case_sensitive,
        )
}

/// Index `i` holds the first non-blank character of its line, and it matches.
pub open spec fn line_match_at(s: Seq<char>, target: char, case_sensitive: bool) -> spec_fn(
    int,
) -> bool {
    |i: int|
        blanks_before(s, i) && s[i] != '\n' && s[i] != ' ' && s[i] != '\t' && spec_chars_match(
            s[i],
            target,
            case_sensitive,
        )
}

/// Every matching index, in order.
pub open spec fn spec_char_positions(s: Seq<char>, target: char, case_sensitive: bool) -> Seq<
    usize,
> {
    indices_where(s.len(), char_match_at(s, target, case_sensitive))
}

/// Matching word starts, in order; every matching index when `target` is
/// not a word character, since such a target never starts a word.
pub open spec fn spec_word_positions(s: Seq<char>, target: char, case_sensitive: bool) -> Seq<
    usize,
> {
    if !spec_is_word_char(target) {
        spec_char_positions(s, target, case_sensitive)
    } else {
        indices_where(s.len(), word_match_at(s, target, case_sensitive))
    }
}

/// Matching first-non-blank characters of lines, in order.
pub open spec fn spec_line_positions(s: Seq<char>, target: char, case_sensitive: bool) -> Seq<
    usize,
> {
    indices_where(s.len(), line_match_at(s, target, case_sensitive))
}

/// The character indices of `s` that `target` can jump to under `mode`.
pub open spec fn spec_positions(
    s: Seq<char>,
    target: char,
    mode: MatchMode,
    case_sensitive: bool,
) -> Seq<usize> {
    match mode {
        MatchMode::Word => spec_word_positions(s, target, case_sensitive),
        MatchMode::Char => spec_char_positions(s, target, case_sensitive),
        MatchMode::Line => spec_line_positions(s, target, case_sensitive),
    }
}

/// Case-insensitive word-start matching, the default way of finding targets.
pub fn positions_of(target: char, screen: &str) -> (positions: Vec<usize>)
    ensures
        positions@ == spec_positions(screen@, target, MatchMode::Word, false),
{
    positions_for(target, screen, MatchMode::Word, false)
}

pub fn positions_for(
    target: char,
    screen: &str,
    match_mode: MatchMode,
    case_sensitive: bool,
) -> (positions: Vec<usize>)
    ensures
        positions@ == spec_positions(screen@, target, match_mode, case_sensitive),
        match_mode == MatchMode::Word && ' ' <= target <= '~' && target != '_'
            && !is_ascii_alphanumeric(target) ==> positions@ == spec_positions(
            screen@,
            target,
            MatchMode::Char,
            case_sensitive,
        ),
{
    match match_mode {
        MatchMode::Word => word_positions(target, screen, case_sensitive),
        MatchMode::Char => char_positions(target, screen, case_sensitive),
        MatchMode::Line => line_positions(target, screen, case_sensitive),
    }
}

fn word_positions(target: char, screen: &str, case_sensitive: bool) -> (positions: Vec<usize>)
    ensures
        positions@ == spec_word_positions(screen@, target, case_sensitive),
        ' ' <= target <= '~' && target != '_' && !is_ascii_alphanumeric(target) ==> positions@
            == spec_char_positions(screen@, target, case_sensitive),
{
    if !is_word_char(target) {
        return char_positions(target, screen, case_sensitive);
    }
    let chars = str_chars(screen);
    let ghost s = screen@;
    let ghost p = word_match_at(s, target, case_sensitive);
    let n = chars.len();
    let mut positions: Vec<usize> = Vec::new();
    let mut previous_was_word = false;
    for index in 0..n
        invariant
            n == s.len(),
            chars@ == s,
            p == word_match_at(s, target, case_sensitive),
            positions@ == indices_where(index as nat, p),
            previous_was_word == (index > 0 && spec_is_word_char(s[index - 1])),
    {
        let ch = chars[index];
        let is_word = is_word_char(ch);
        if is_word && !previous_was_word && chars_match(ch, target, case_sensitive) {
            positions.push(index);
        }
        previous_was_word = is_word;
    }
    positions
}

fn char_positions(target: char, screen: &str, case_sensitive: bool) -> (positions: Vec<usize>)
    ensures
        positions@ == spec_char_positions(screen@, target, case_sensitive),
{
    let chars = str_chars(screen);
    let ghost s = screen@;
    let ghost p = char_match_at(s, target, case_sensitive);
    let n = chars.len();
    let mut positions: Vec<usize> = Vec::new();
    for index in 0..n
        invariant
            n == s.len(),
            chars@ == s,
            p == char_match_at(s, target, case_sensitive),
            positions@ == indices_where(index as nat, p),
    {
        if chars_match(chars[index], target, case_sensitive) {
            positions.push(index);
        }
    }
    positions
}

fn line_positions(target: char, screen: &str, case_sensitive: bool) -> (positions: Vec<usize>)
    ensures
        positions@ == spec_line_positions(screen@, target, case_sensitive),
{
    let chars = str_chars(screen);
    let ghost s = screen@;
    let ghost p = line_match_at(s, target, case_sensitive);
    let n = chars.len();
    let mut positions: Vec<usize> = Vec::new();
    let mut awaiting_line_content = true;
    for index in 0..n
        invariant
            n == s.len(),
            chars@ == s,
            p == line_match_at(s, target, case_sensitive),
            positions@ == indices_where(index as nat, p),
            awaiting_line_content == blanks_before(s, index as int),
    {
        let ch = chars[index];
        if ch == '\n' {
            awaiting_line_content = true;
        } else if awaiting_line_content && ch != ' ' && ch != '\t' {
            if chars_match(ch, target, case_sensitive) {
                positions.push(index);
            }
            awaiting_line_content = false;
        }
    }
    positions
}

/// What `indices_where` holds: exactly the indices below `n` that satisfy
/// `p`, strictly increasing.
pub proof fn lemma_indices_where(n: nat, p: spec_fn(int) -> bool)
    requires
        n <= usize::MAX + 1,
    ensures
        forall|j: int|
            0 <= j < indices_where(n, p).len() ==> (#[trigger] indices_where(n, p)[j]) < n && p(
                indices_where(n, p)[j] as int,
            ),
        forall|a: int, b: int|
            0 <= a < b < indices_where(n, p).len() ==> #[trigger] indices_where(n, p)[a]
                < #[trigger] indices_where(n, p)[b],
        forall|x: int| 0 <= x < n && p(x) ==> #[trigger] indices_where(n, p).contains(x as usize),
    decreases n,
{
    if n > 0 {
        lemma_indices_where((n - 1) as nat, p);
        let prev = indices_where((n - 1) as nat, p);
        if p(n - 1) {
            let cur = prev.push((n - 1) as usize);
            assert forall|x: int| 0 <= x < n && p(x) implies #[trigger] cur.contains(x as usize) by {
                if x < n - 1 {
                    assert(prev.contains(x as usize));
                    let k = choose|k: int| 0 <= k < prev.len() && prev[k] == x as usize;
                    assert(cur[k] == x as usize);
                } else {
                    assert(cur[prev.len() as int] == x as usize);
                }
            }
        }
    }
}

/// Every position reported under any mode is a strictly increasing index
/// into the screen whose character matches the target.
pub proof fn law_positions_sorted_in_range_and_matching(
    s: Seq<char>,
    target: char,
    mode: MatchMode,
    case_sensitive: bool,
)
    requires
        s.len() <= usize::MAX,
    ensures
        ({
            let r = spec_positions(s, target, mode, case_sensitive);
            &&& forall|a: int, b: int| 0 <= a < b < r.len() ==> r[a] < r[b]
            &&& forall|j: int|
                0 <= j < r.len() ==> r[j] < s.len() && spec_chars_match(
                    s[r[j] as int],
                    target,
                    case_sensitive,
                )
        }),
{
    lemma_indices_where(s.len(), char_match_at(s, target, case_sensitive));
    lemma_indices_where(s.len(), word_match_at(s, target, case_sensitive));
    lemma_indices_where(s.len(), line_match_at(s, target, case_sensitive));
}

/// Word-start and line-start matching only ever filter the exhaustive char
/// matches: every position they report is also a char-mode position.
pub proof fn law_word_and_line_positions_are_char_positions(
    s: Seq<char>,
    target: char,
    case_sensitive: bool,
)
    requires
        s.len() <= usize::MAX,
    ensures
        forall|j: int|
            0 <= j < spec_word_positions(s, target, case_sensitive).len()
                ==> spec_char_positions(s, target, case_sensitive).contains(
                #[trigger] spec_word_positions(s, target, case_sensitive)[j],
            ),
        forall|j: int|
            0 <= j < spec_line_positions(s, target, case_sensitive).len()
                ==> spec_char_positions(s, target, case_sensitive).contains(
                #[trigger] spec_line_positions(s, target, case_sensitive)[j],
            ),
{
    let pc = char_match_at(s, target, case_sensitive);
    let pw = word_match_at(s, target, case_sensitive);
    let pl = line_match_at(s, target, case_sensitive);
    lemma_indices_where(s.len(), pc);
    lemma_indices_where(s.len(), pw);
    lemma_indices_where(s.len(), pl);
    let c = spec_char_positions(s, target, case_sensitive);
    assert forall|j: int| 0 <= j < spec_word_positions(s, target, case_sensitive).len() implies c.contains(
        #[trigger] spec_word_positions(s, target, case_sensitive)[j],
    ) by {
        let x = spec_word_positions(s, target, case_sensitive)[j] as int;
        assert(pc(x));
        assert((x as usize) as int == x);
    }
    assert forall|j: int| 0 <= j < spec_line_positions(s, target, case_sensitive).len() implies c.contains(
        #[trigger] spec_line_positions(s, target, case_sensitive)[j],
    ) by {
        let x = spec_line_positions(s, target, case_sensitive)[j] as int;
        assert(pc(x));
        assert((x as usize) as int == x);
    }
}

/// For a word-character target, every word-mode position starts a word: it
/// is at the start of the screen or follows a character that is not a word
/// character, so it never follows a zero-width character (such as a
/// combining mark) or any other character that continues a word.
pub proof fn law_word_positions_start_words(s: Seq<char>, target: char, case_sensitive: bool)
    requires
        s.len() <= usize::MAX,
        spec_is_word_char(target),
    ensures
        forall|j: int|
            0 <= j < spec_word_positions(s, target, case_sensitive).len() ==> {
                let p = #[trigger] spec_word_positions(s, target, case_sensitive)[j] as int;
                &&& spec_is_word_char(s[p])
                &&& (p == 0 || !spec_is_word_char(s[p - 1]))
                &&& (p > 0 ==> spec_char_width(s[p - 1]) != Some(0usize))
            },
{
    lemma_indices_where(s.len(), word_match_at(s, target, case_sensitive));
}

/// Case-insensitive matching finds every case-sensitive match, in every
/// mode.
pub proof fn law_case_insensitive_finds_every_case_sensitive_match(
    s: Seq<char>,
    target: char,
    mode: MatchMode,
)
    requires
        s.len() <= usize::MAX,
    ensures
        forall|j: int|
            0 <= j < spec_positions(s, target, mode, true).len() ==> spec_positions(
                s,
                target,
                mode,
                false,
            ).contains(#[trigger] spec_positions(s, target, mode, true)[j]),
{
    let sensitive = spec_positions(s, target, mode, true);
    let insensitive = spec_positions(s, target, mode, false);
    lemma_indices_where(s.len(), char_match_at(s, target, true));
    lemma_indices_where(s.len(), char_match_at(s, target, false));
    lemma_indices_where(s.len(), word_match_at(s, target, true));
    lemma_indices_where(s.len(), word_match_at(s, target, false));
    lemma_indices_where(s.len(), line_match_at(s, target, true));
    lemma_indices_where(s.len(), line_match_at(s, target, false));
    assert forall|j: int| 0 <= j < sensitive.len() implies insensitive.contains(
        #[trigger] sensitive[j],
    ) by {
        let x = sensitive[j] as int;
        assert((x as usize) as int == x);
    }
}

/// Whether every character between the start of `i`'s line (just after the
/// last line feed before `i`, or the start of `s`) and `i` is a space or a
/// tab.
pub open spec fn line_head_is_blank(s: Seq<char>, i: int) -> bool {
    forall|j: int|
        0 <= j < i && (forall|k: int| j <= k < i ==> #[trigger] s[k] != '\n') ==> (#[trigger] s[j]
            == ' ' || s[j] == '\t')
}

proof fn lemma_blanks_before_is_line_head(s: Seq<char>, i: int)
    requires
        0 <= i <= s.len(),
    ensures
        blanks_before(s, i) == line_head_is_blank(s, i),
    decreases i,
{
    if i > 0 {
        lemma_blanks_before_is_line_head(s, i - 1);
        let c = s[i - 1];
        if c == '\n' {
            assert forall|j: int|
                0 <= j < i && (forall|k: int| j <= k < i ==> #[trigger] s[k] != '\n') implies (
                #[trigger] s[j] == ' ' || s[j] == '\t') by {
                assert(s[i - 1] != '\n');
            }
        } else if c == ' ' || c == '\t' {
            if line_head_is_blank(s, i - 1) {
                assert forall|j: int|
                    0 <= j < i && (forall|k: int| j <= k < i ==> #[trigger] s[k] != '\n') implies (
                    #[trigger] s[j] == ' ' || s[j] == '\t') by {
                    if j < i - 1 {
                        assert forall|k: int| j <= k < i - 1 implies #[trigger] s[k] != '\n' by {
                            assert(s[k] != '\n');
                        }
                    }
                }
            } else {
                let j = choose|j: int|
                    !(0 <= j < i - 1 && (forall|k: int| j <= k < i - 1 ==> #[trigger] s[k] != '\n')
                        ==> (#[trigger] s[j] == ' ' || s[j] == '\t'));
                assert forall|k: int| j <= k < i implies #[trigger] s[k] != '\n' by {
                    if k < i - 1 {
                        assert(s[k] != '\n');
                    }
                }
                assert(!line_head_is_blank(s, i));
            }
        } else {
            assert(forall|k: int| i - 1 <= k < i ==> #[trigger] s[k] != '\n');
            assert(!(s[i - 1] == ' ' || s[i - 1] == '\t'));
            assert(!line_head_is_blank(s, i));
        }
    }
}

/// Line mode finds exactly the characters that are the first non-blank
/// character of their line and match the target: an index is a position if
/// and only if its character is not a space, tab or line feed, matches, and
/// only spaces and tabs precede it on its line.
pub proof fn law_line_mode_finds_first_non_blanks(s: Seq<char>, target: char, case_sensitive: bool)
    requires
        s.len() <= usize::MAX,
    ensures
        forall|i: int|
            0 <= i < s.len() ==> (spec_positions(s, target, MatchMode::Line, case_sensitive).contains(
                i as usize,
            ) <==> (s[i] != ' ' && s[i] != '\t' && s[i] != '\n' && spec_chars_match(
                s[i],
                target,
                case_sensitive,
            ) && line_head_is_blank(s, i))),
        forall|j: int|
            0 <= j < spec_positions(s, target, MatchMode::Line, case_sensitive).len() ==> (
            #[trigger] spec_positions(s, target, MatchMode::Line, case_sensitive)[j]) < s.len(),
{
    let p = line_match_at(s, target, case_sensitive);
    let r = spec_positions(s, target, MatchMode::Line, case_sensitive);
    lemma_indices_where(s.len(), p);
    assert forall|i: int| 0 <= i < s.len() implies (r.contains(i as usize) <==> (s[i] != ' '
        && s[i] != '\t' && s[i] != '\n' && spec_chars_match(s[i], target, case_sensitive)
        && line_head_is_blank(s, i))) by {
        lemma_blanks_before_is_line_head(s, i);
        if r.contains(i as usize) {
            let idx = choose|idx: int| 0 <= idx < r.len() && r[idx] == i as usize;
            assert(p(r[idx] as int));
            assert(r[idx] as int == i);
        }
    }
}

/// Only `_`, alphanumerics and zero-width characters continue words: a target
/// that is none of these (a punctuation mark such as `-` or `/`, a space) is
/// found at every occurrence in word mode, exactly as in char mode.
pub proof fn law_other_targets_match_everywhere_in_word_mode(
    s: Seq<char>,
    target: char,
    case_sensitive: bool,
)
    requires
        target != '_',
        !spec_is_alphanumeric(target),
        spec_char_width(target) != Some(0usize),
    ensures
        spec_positions(s, target, MatchMode::Word, case_sensitive) == spec_positions(
            s,
            target,
            MatchMode::Char,
            case_sensitive,
        ),
{
}

/// An alphanumeric character that matches a word-character target starts a
/// word, and so is a word-mode position, when it opens the screen or follows
/// a character that is neither `_`, alphanumeric nor zero-width (a space, a
/// line feed, a punctuation mark such as `-`).
pub proof fn law_alphanumerics_after_other_characters_start_words(
    s: Seq<char>,
    target: char,
    case_sensitive: bool,
    i: int,
)
    requires
        s.len() <= usize::MAX,
        0 <= i < s.len(),
        target == '_' || spec_is_alphanumeric(target) || spec_char_width(target) == Some(0usize),
        spec_is_alphanumeric(s[i]),
        spec_chars_match(s[i], target, case_sensitive),
        i == 0 || (s[i - 1] != '_' && !spec_is_alphanumeric(s[i - 1]) && spec_char_width(s[i - 1])
            != Some(0usize)),
    ensures
        spec_positions(s, target, MatchMode::Word, case_sensitive).contains(i as usize),
{
    let p = word_match_at(s, target, case_sensitive);
    lemma_indices_where(s.len(), p);
    assert(p(i));
}

/// A target that is not a word character never starts a word, so word mode
/// reports every occurrence, exactly as char mode does.
pub proof fn law_word_mode_falls_back_for_non_word_targets(
    s: Seq<char>,
    target: char,
    case_sensitive: bool,
)
    requires
        !spec_is_word_char(target),
    ensures
        spec_positions(s, target, MatchMode::Word, case_sensitive) == spec_positions(
            s,
            target,
            MatchMode::Char,
            case_sensitive,
        ),
{
}

} // verus!
