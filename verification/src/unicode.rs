//! The Unicode facts the library relies on, taken from `unicode_segmentation`,
//! `unicode_width` and std's `char` classification. The calls into those are
//! trusted: each contract states the outside result where a few lines can,
//! names it otherwise, and states only what the outside source or
//! documentation shows. Whitespace and control characters, whose sets fit in
//! a few lines, are tested here directly.

use unicode_segmentation::UnicodeSegmentation;
use unicode_width::{UnicodeWidthChar, UnicodeWidthStr};
use vstd::prelude::*;

verus! {

/// The extended grapheme clusters that `unicode_segmentation` finds in a text.
pub uninterp spec fn spec_graphemes(s: Seq<char>) -> Seq<Seq<char>>;

/// The display width `unicode_width` gives a whole string.
pub uninterp spec fn spec_str_width(s: Seq<char>) -> usize;

/// The display width `unicode_width` gives a single character, `None` for a
/// control character.
pub uninterp spec fn spec_char_width(c: char) -> Option<usize>;

/// Whether std's `char::is_alphanumeric` holds of `c`.
pub uninterp spec fn spec_is_alphanumeric(c: char) -> bool;

/// Whether `c` has the Unicode White_Space property, which std's
/// `char::is_whitespace` tests (std documents it as that property): U+0009 to U+000D, U+0020, U+0085, U+00A0,
/// U+1680, U+2000 to U+200A, U+2028, U+2029, U+202F, U+205F and U+3000.
pub open spec fn spec_is_whitespace(c: char) -> bool {
    let u = c as u32;
    ||| 0x09 <= u <= 0x0d
    ||| u == 0x20
    ||| u == 0x85
    ||| u == 0xa0
    ||| u == 0x1680
    ||| 0x2000 <= u <= 0x200a
    ||| u == 0x2028
    ||| u == 0x2029
    ||| u == 0x202f
    ||| u == 0x205f
    ||| u == 0x3000
}

/// Whether `c` is in the general category Cc (control codes), which std's
/// `char::is_control` tests: U+0000 to U+001F and U+007F to U+009F.
pub open spec fn spec_is_control(c: char) -> bool {
    let u = c as u32;
    u <= 0x1f || (0x7f <= u <= 0x9f)
}

/// The characters std's `char::to_lowercase` yields for `c`.
pub uninterp spec fn spec_to_lowercase(c: char) -> Seq<char>;

/// Whether every character of `s` is printable ASCII (`' '` to `'~'`) or a
/// line feed.
pub open spec fn printable_ascii_or_newline(s: Seq<char>) -> bool {
    forall|i: int| 0 <= i < s.len() ==> (' ' <= #[trigger] s[i] <= '~' || s[i] == '\n')
}

/// Calls `UnicodeSegmentation::graphemes(s, true)` and copies each cluster.
/// The clusters are named by [`spec_graphemes`]; the crate's iterator hands
/// out consecutive, non-empty slices `&s[start..next]` from the start of `s`
/// to its end, so they are non-empty and concatenate back to `s`. The crate
/// gives U+0020 to U+007E the category Any and `'\n'` the category LF, and
/// breaks between any two of these (rules GB4, GB5 and GB999), so on such a
/// text every cluster is a single character.
#[verifier::external_body]
pub(crate) fn grapheme_clusters(s: &str) -> (clusters: Vec<String>)
    ensures
        clusters.deep_view() == spec_graphemes(s@),
        clusters.deep_view().flatten() == s@,
        forall|i: int| 0 <= i < clusters@.len() ==> (#[trigger] clusters@[i])@.len() > 0,
        printable_ascii_or_newline(s@) ==> clusters.deep_view() == Seq::new(
            s@.len(),
            |i: int| seq![s@[i]],
        ),
{
    s.graphemes(true).map(String::from).collect()
}

/// Calls `UnicodeWidthStr::width(s)`, named by [`spec_str_width`]. The
/// crate's source counts a lone character up to U+00A0 as one column, so a
/// single printable ASCII character or line feed is one column wide.
#[verifier::external_body]
pub(crate) fn str_width(s: &str) -> (width: usize)
    ensures
        width == spec_str_width(s@),
        s@.len() == 1 && printable_ascii_or_newline(s@) ==> width == 1,
{
    UnicodeWidthStr::width(s)
}

/// Calls `UnicodeWidthChar::width(c)`, named by [`spec_char_width`]. The
/// crate's source returns `None` below U+0020 and from U+007F up to U+009F,
/// `Some(1)` from U+0020 up to U+007E, and `Some` of a table entry from
/// U+00A0 on; the table entries are left to the name.
#[verifier::external_body]
pub(crate) fn char_width(c: char) -> (width: Option<usize>)
    ensures
        width == spec_char_width(c),
        (c as u32) < 0x20 ==> width is None,
        0x20 <= (c as u32) < 0x7f ==> width == Some(1usize),
        0x7f <= (c as u32) < 0xa0 ==> width is None,
        0xa0 <= (c as u32) ==> width is Some,
{
    UnicodeWidthChar::width(c)
}

/// Whether `c` is an ASCII letter or digit.
pub open spec fn is_ascii_alphanumeric(c: char) -> bool {
    ('0' <= c <= '9') || ('a' <= c <= 'z') || ('A' <= c <= 'Z')
}

/// `c` with an ASCII capital turned into its small letter, anything else
/// unchanged.
pub open spec fn ascii_lowercase(c: char) -> char {
    if 'A' <= c <= 'Z' {
        ((c as u32) + 32) as char
    } else {
        c
    }
}

/// Calls `char::is_alphanumeric`, named by [`spec_is_alphanumeric`]. std
/// documents it as alphabetic or numeric, which among printable ASCII
/// characters holds of exactly the letters and digits.
#[verifier::external_body]
pub(crate) fn is_alphanumeric(c: char) -> (b: bool)
    ensures
        b == spec_is_alphanumeric(c),
        ' ' <= c <= '~' ==> (b <==> is_ascii_alphanumeric(c)),
{
    c.is_alphanumeric()
}

/// Whether `c` has the White_Space property, as `char::is_whitespace`
/// reports it.
pub(crate) fn is_whitespace(c: char) -> (b: bool)
    ensures
        b == spec_is_whitespace(c),
{
    let u = c as u32;
    (0x09 <= u && u <= 0x0d) || u == 0x20 || u == 0x85 || u == 0xa0 || u == 0x1680 || (0x2000 <= u
        && u <= 0x200a) || u == 0x2028 || u == 0x2029 || u == 0x202f || u == 0x205f || u == 0x3000
}

/// Whether `c` is in the general category Cc, as `char::is_control`
/// reports it.
pub(crate) fn is_control(c: char) -> (b: bool)
    ensures
        b == spec_is_control(c),
{
    let u = c as u32;
    u <= 0x1f || (0x7f <= u && u <= 0x9f)
}

/// Calls `char::to_lowercase` and collects what it yields, named by
/// [`spec_to_lowercase`]. std documents that the iterator yields one or more
/// characters, and an ASCII character maps to its ASCII lowercase alone.
#[verifier::external_body]
pub(crate) fn to_lowercase(c: char) -> (lower: Vec<char>)
    ensures
        lower@ == spec_to_lowercase(c),
        lower@.len() > 0,
        (c as u32) < 0x80 ==> lower@ == seq![ascii_lowercase(c)],
{
    c.to_lowercase().collect()
}

} // verus!
