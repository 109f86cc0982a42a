//! Label alphabets, EasyMotion-style label generation, and the key groups
//! that recursive label selection narrows to.

use std::ops::Range;

use vstd::arithmetic::div_mod::{
    lemma_div_denominator, lemma_fundamental_div_mod, lemma_mod_breakdown, lemma_mod_mod,
    lemma_multiply_divide_lt, lemma_small_mod,
};
use vstd::arithmetic::power::{lemma_pow_increases, lemma_pow_positive, pow};
use vstd::arithmetic::power2::{lemma2_to64_rest, lemma_pow2};
use vstd::prelude::*;

use crate::text::{chars_contain, str_chars, string_push};
use crate::unicode::{is_control, is_whitespace, spec_is_control, spec_is_whitespace};

verus! {

/// The label alphabet used when none (or no usable one) is configured.
pub const DEFAULT_LABEL_KEYS: [char; 9] = ['j', 'f', 'h', 'g', 'k', 'd', 'l', 's', 'a'];

/// The default label alphabet as a sequence.
pub open spec fn default_label_keys() -> Seq<char> {
    seq!['j', 'f', 'h', 'g', 'k', 'd', 'l', 's', 'a']
}

/// A usable label alphabet: at least two keys, none repeated.
pub open spec fn label_keys_wf(keys: Seq<char>) -> bool {
    keys.len() >= 2 && keys.no_duplicates()
}

/// A character that may serve as a label key: neither whitespace nor a
/// control character.
pub open spec fn is_key_candidate(c: char) -> bool {
    !spec_is_whitespace(c) && !spec_is_control(c)
}

/// The first occurrence of each key candidate in `s`, in order.
pub open spec fn candidate_keys(s: Seq<char>) -> Seq<char>
    decreases s.len(),
{
    if s.len() == 0 {
        seq![]
    } else {
        let prev = candidate_keys(s.drop_last());
        let c = s.last();
        if is_key_candidate(c) && !prev.contains(c) {
            prev.push(c)
        } else {
            prev
        }
    }
}

/// The alphabet an option value selects: its candidate keys, or the default
/// alphabet when fewer than two remain.
pub open spec fn spec_label_keys_from(value: Seq<char>) -> Seq<char> {
    if candidate_keys(value).len() < 2 {
        default_label_keys()
    } else {
        candidate_keys(value)
    }
}

/// A validated set of label keys: always at least two distinct characters.
#[derive(Debug, PartialEq, Eq)]
pub struct LabelKeys(Vec<char>);

impl LabelKeys {
    #[verifier::type_invariant]
    spec fn keys_wf(self) -> bool {
        label_keys_wf(self.0@)
    }
}

impl View for LabelKeys {
    type V = Seq<char>;

    closed spec fn view(&self) -> Seq<char> {
        self.0@
    }
}

proof fn lemma_default_keys_wf()
    ensures
        label_keys_wf(default_label_keys()),
{
    let d = default_label_keys();
    assert forall|i: int, j: int| 0 <= i < d.len() && 0 <= j < d.len() && i != j implies d[i]
        != d[j] by {}
}

proof fn lemma_candidate_keys_distinct(s: Seq<char>)
    ensures
        candidate_keys(s).no_duplicates(),
    decreases s.len(),
{
    if s.len() > 0 {
        lemma_candidate_keys_distinct(s.drop_last());
    }
}

proof fn lemma_candidate_keys_are_candidates(s: Seq<char>)
    ensures
        forall|i: int|
            0 <= i < candidate_keys(s).len() ==> is_key_candidate(#[trigger] candidate_keys(s)[i]),
    decreases s.len(),
{
    if s.len() > 0 {
        lemma_candidate_keys_are_candidates(s.drop_last());
        let prev = candidate_keys(s.drop_last());
        assert forall|i: int|
            0 <= i < candidate_keys(s).len() implies is_key_candidate(
            #[trigger] candidate_keys(s)[i],
        ) by {
            if i < prev.len() {
                assert(candidate_keys(s)[i] == prev[i]);
            }
        }
    }
}

/// Any option value selects a usable alphabet: its own candidate keys when
/// there are at least two of them, the default alphabet otherwise; at least
/// two keys, none repeated, and none whitespace or a control character.
pub proof fn law_label_keys_always_usable(value: Seq<char>)
    ensures
        label_keys_wf(spec_label_keys_from(value)),
        forall|i: int|
            0 <= i < spec_label_keys_from(value).len() ==> is_key_candidate(
                #[trigger] spec_label_keys_from(value)[i],
            ),
        candidate_keys(value).len() >= 2 ==> spec_label_keys_from(value) == candidate_keys(value),
        candidate_keys(value).len() < 2 ==> spec_label_keys_from(value) == default_label_keys(),
{
    lemma_default_keys_wf();
    lemma_candidate_keys_distinct(value);
    lemma_candidate_keys_are_candidates(value);
    let d = default_label_keys();
    assert forall|i: int| 0 <= i < d.len() implies is_key_candidate(#[trigger] d[i]) by {}
}

impl LabelKeys {
    /// The default alphabet `jfhgkdlsa`.
    pub fn default_keys() -> (keys: Self)
        ensures
            keys@ == default_label_keys(),
    {
        proof {
            lemma_default_keys_wf();
        }
        let v: Vec<char> = vec!['j', 'f', 'h', 'g', 'k', 'd', 'l', 's', 'a'];
        assert(v@ == default_label_keys());
        LabelKeys(v)
    }

    /// Parses label keys from a raw option value, keeping the first
    /// occurrence of each non-whitespace, non-control character; falls back to
    /// the default alphabet when fewer than two distinct keys remain.
    pub fn from_env(value: &str) -> (keys: Self)
        ensures
            keys@ == spec_label_keys_from(value@),
    {
        let chars = str_chars(value);
        let n = chars.len();
        let mut keys: Vec<char> = Vec::new();
        for i in 0..n
            invariant
                n == value@.len(),
                chars@ == value@,
                keys@ == candidate_keys(value@.take(i as int)),
        {
            let ch = chars[i];
            let ghost prefix = value@.take(i + 1);
            assert(prefix.drop_last() == value@.take(i as int));
            assert(prefix.last() == ch);
            if !is_whitespace(ch) && !is_control(ch) && !chars_contain(&keys, ch) {
                keys.push(ch);
            }
        }
        assert(value@.take(n as int) == value@);
        if keys.len() < 2 {
            Self::default_keys()
        } else {
            proof {
                lemma_candidate_keys_distinct(value@);
            }
            LabelKeys(keys)
        }
    }

    pub fn as_slice(&self) -> (keys: &[char])
        ensures
            keys@ == self@,
            label_keys_wf(keys@),
    {
        proof {
            use_type_invariant(self);
        }
        self.0.as_slice()
    }

    /// Number of distinct keys, always at least two.
    pub fn len(&self) -> (n: usize)
        ensures
            n == self@.len(),
            n >= 2,
            label_keys_wf(self@),
    {
        proof {
            use_type_invariant(self);
        }
        self.0.len()
    }

    /// Always `false`: a `LabelKeys` is never empty.
    pub fn is_empty(&self) -> (empty: bool)
        ensures
            empty == (self@.len() == 0),
            !empty,
    {
        proof {
            use_type_invariant(self);
        }
        false
    }
}

impl Clone for LabelKeys {
    fn clone(&self) -> (keys: Self)
        ensures
            keys@ == self@,
    {
        proof {
            use_type_invariant(self);
        }
        let copied = self.0.clone();
        assert(copied@ =~= self.0@);
        LabelKeys(copied)
    }
}

impl Default for LabelKeys {
    fn default() -> (keys: Self)
        ensures
            keys@ == default_label_keys(),
    {
        Self::default_keys()
    }
}

/// The label of position `index` when every label has `len` keys: the `len`
/// low base-`keys.len()` digits of `index`, most significant first, each
/// written as its key.
pub open spec fn spec_label(index: nat, len: nat, keys: Seq<char>) -> Seq<char>
    decreases len,
{
    if len == 0 {
        seq![]
    } else {
        spec_label(index / keys.len(), (len - 1) as nat, keys).push(
            keys[(index % keys.len()) as int],
        )
    }
}

/// `len` keys per label are enough for `count` positions, and one fewer
/// would not be (every label has at least one key).
pub open spec fn is_label_length(count: nat, key_count: nat, len: nat) -> bool {
    &&& len >= 1
    &&& count <= pow(key_count as int, len)
    &&& (len == 1 || pow(key_count as int, (len - 1) as nat) < count)
}

/// The number of keys in each label when `count` positions are labelled
/// from `key_count` keys.
pub open spec fn spec_label_length(count: nat, key_count: nat) -> nat {
    choose|len: nat| is_label_length(count, key_count, len)
}

/// The labels of `count` positions, in position order.
pub open spec fn spec_labels(count: nat, keys: Seq<char>) -> Seq<Seq<char>> {
    Seq::new(count, |i: int| spec_label(i as nat, spec_label_length(count, keys.len()), keys))
}

proof fn lemma_label_length_unique(count: nat, key_count: nat, a: nat, b: nat)
    requires
        key_count >= 2,
        is_label_length(count, key_count, a),
        is_label_length(count, key_count, b),
    ensures
        a == b,
{
    if a < b {
        lemma_pow_increases(key_count, a, (b - 1) as nat);
    } else if b < a {
        lemma_pow_increases(key_count, b, (a - 1) as nat);
    }
}

proof fn lemma_label_length_is(count: nat, key_count: nat, len: nat)
    requires
        key_count >= 2,
        is_label_length(count, key_count, len),
    ensures
        spec_label_length(count, key_count) == len,
{
    let other = spec_label_length(count, key_count);
    assert(is_label_length(count, key_count, other));
    lemma_label_length_unique(count, key_count, len, other);
}

fn label_length_for_count(position_count: usize, label_key_count: usize) -> (len: usize)
    requires
        label_key_count >= 2,
    ensures
        is_label_length(position_count as nat, label_key_count as nat, len as nat),
        len == spec_label_length(position_count as nat, label_key_count as nat),
        len <= 64,
{
    proof {
        reveal(pow);
    }
    let mut label_len: usize = 1;
    let mut capacity: usize = label_key_count;
    proof {
        assert(pow(label_key_count as int, 1) == label_key_count) by {
            assert(pow(label_key_count as int, 0) == 1);
        }
        assert(pow(2, 0) == 1);
    }
    while position_count > capacity
        invariant
            label_key_count >= 2,
            1 <= label_len <= 64,
            capacity >= 2,
            capacity as int == pow(label_key_count as int, label_len as nat) || (capacity
                == usize::MAX && pow(label_key_count as int, label_len as nat) > usize::MAX),
            label_len == 1 || pow(label_key_count as int, (label_len - 1) as nat)
                < position_count,
            pow(2, label_len as nat) <= pow(label_key_count as int, label_len as nat),
        decreases usize::MAX - capacity,
    {
        let ghost old_capacity = capacity;
        proof {
            reveal(pow);
        }
        assert(capacity as int == pow(label_key_count as int, label_len as nat));
        proof {
            assert(pow(2, (label_len + 1) as nat) == 2 * pow(2, label_len as nat));
            assert(pow(label_key_count as int, (label_len + 1) as nat) == label_key_count * pow(
                label_key_count as int,
                label_len as nat,
            ));
            assert(label_key_count * pow(label_key_count as int, label_len as nat) >= 2 * pow(
                label_key_count as int,
                label_len as nat,
            )) by (nonlinear_arith)
                requires
                    label_key_count >= 2,
                    pow(label_key_count as int, label_len as nat) >= 0,
            ;
            if label_len == 64 {
                lemma2_to64_rest();
                lemma_pow2(64);
                assert(pow(2, 64) > usize::MAX);
                lemma_pow_increases(2, 64, label_len as nat);
                assert(false);
            }
        }
        label_len = label_len + 1;
        capacity = saturating_mul(capacity, label_key_count);
        proof {
            assert(capacity as int == pow(label_key_count as int, label_len as nat) || (capacity
                == usize::MAX && pow(label_key_count as int, label_len as nat) > usize::MAX))
                by (nonlinear_arith)
                requires
                    capacity == (if old_capacity * label_key_count > usize::MAX {
                        usize::MAX as int
                    } else {
                        old_capacity * label_key_count
                    }),
                    pow(label_key_count as int, label_len as nat) == label_key_count * old_capacity,
            ;
        }
    }
    proof {
        lemma_label_length_is(position_count as nat, label_key_count as nat, label_len as nat);
    }
    label_len
}

fn label_for_index(index: usize, label_len: usize, label_keys: &[char]) -> (label: String)
    requires
        label_keys@.len() >= 2,
    ensures
        label@ == spec_label(index as nat, label_len as nat, label_keys@),
    decreases label_len,
{
    let key_count = label_keys.len();
    if label_len == 0 {
        String::new()
    } else {
        let mut label = label_for_index(index / key_count, label_len - 1, label_keys);
        string_push(&mut label, label_keys[index % key_count]);
        label
    }
}

/// The labels of `position_count` positions, in position order.
pub fn labels_for(position_count: usize, label_keys: &LabelKeys) -> (labels: Vec<String>)
    ensures
        labels.deep_view() == spec_labels(position_count as nat, label_keys@),
{
    labels_up_to(position_count, label_keys)
}

/// The number of keys in each label of `position_count` positions.
pub fn label_length_for(position_count: usize, label_keys: &LabelKeys) -> (len: usize)
    ensures
        len == spec_label_length(position_count as nat, label_keys@.len()),
        is_label_length(position_count as nat, label_keys@.len(), len as nat),
        len <= 64,
{
    let key_count = label_keys.len();
    label_length_for_count(position_count, key_count)
}

/// The labels of the first `position_count` positions, in position order.
pub fn labels_up_to(position_count: usize, label_keys: &LabelKeys) -> (labels: Vec<String>)
    ensures
        labels.deep_view() == spec_labels(position_count as nat, label_keys@),
{
    let keys = label_keys.as_slice();
    let mut labels: Vec<String> = Vec::new();
    if position_count == 0 {
        assert(labels.deep_view() =~= spec_labels(0, label_keys@));
        return labels;
    }
    let label_len = label_length_for_count(position_count, keys.len());
    let ghost expected = spec_labels(position_count as nat, label_keys@);
    for index in 0..position_count
        invariant
            keys@ == label_keys@,
            keys@.len() >= 2,
            label_len == spec_label_length(position_count as nat, keys@.len()),
            expected == spec_labels(position_count as nat, label_keys@),
            labels.deep_view() == expected.take(index as int),
    {
        let label = label_for_index(index, label_len, keys);
        let ghost before = labels.deep_view();
        let ghost text = label@;
        labels.push(label);
        assert(labels.deep_view() =~= before.push(text));
        assert(expected.take(index + 1) =~= expected.take(index as int).push(text));
    }
    assert(expected.take(position_count as int) =~= expected);
    labels
}

/// `x` clamped to `usize::MAX`: the result of a saturating operation whose
/// exact value is `x`.
pub open spec fn saturate(x: int) -> usize {
    if x > usize::MAX {
        usize::MAX
    } else {
        x as usize
    }
}

/// The positions covered by each key's group when labels have `label_len`
/// keys: `key_count` to the power `label_len - 1` (the exponent capped at
/// `u32::MAX`), saturating.
pub open spec fn spec_group_size(label_len: nat, label_key_count: nat) -> usize {
    let exponent: nat = if label_len == 0 {
        0
    } else if label_len - 1 > u32::MAX {
        u32::MAX as nat
    } else {
        (label_len - 1) as nat
    };
    saturate(pow(label_key_count as int, exponent))
}

/// `a * b`, or `usize::MAX` when the product does not fit.
pub fn saturating_mul(a: usize, b: usize) -> (product: usize)
    ensures
        product == saturate(a * b),
{
    match a.checked_mul(b) {
        Some(p) => p,
        None => usize::MAX,
    }
}

fn saturating_pow(base: usize, exponent: u32) -> (result: usize)
    ensures
        result == saturate(pow(base as int, exponent as nat)),
{
    proof {
        reveal(pow);
    }
    proof {
        lemma_pow_positive_or_zero(base as nat, exponent as nat);
    }
    if exponent == 0 {
        return 1;
    }
    if base == 0 {
        proof {
            assert(pow(0, exponent as nat) == 0 * pow(0, (exponent - 1) as nat));
        }
        return 0;
    }
    if base == 1 {
        proof {
            lemma_pow_one(exponent as nat);
        }
        return 1;
    }
    let mut acc: usize = 1;
    let mut i: u32 = 0;
    while i < exponent
        invariant
            base >= 2,
            i <= exponent,
            acc as int == pow(base as int, i as nat),
        decreases exponent - i,
    {
        proof {
            reveal(pow);
            assert(pow(base as int, (i + 1) as nat) == base * pow(base as int, i as nat));
        }
        if acc > usize::MAX / base {
            proof {
                assert(base * acc > usize::MAX) by (nonlinear_arith)
                    requires
                        acc > usize::MAX / base,
                        base >= 2,
                ;
                lemma_pow_increases(base as nat, (i + 1) as nat, exponent as nat);
            }
            return usize::MAX;
        }
        proof {
            assert(acc * base <= usize::MAX && acc * base == base * acc) by (nonlinear_arith)
                requires
                    acc <= usize::MAX / base,
                    base >= 2,
            ;
        }
        acc = acc * base;
        i = i + 1;
    }
    acc
}

proof fn lemma_pow_positive_or_zero(base: nat, e: nat)
    ensures
        pow(base as int, e) >= 0,
    decreases e,
{
    reveal(pow);
    if e > 0 {
        lemma_pow_positive_or_zero(base, (e - 1) as nat);
        assert(base * pow(base as int, (e - 1) as nat) >= 0) by (nonlinear_arith)
            requires
                pow(base as int, (e - 1) as nat) >= 0,
        ;
    }
}

proof fn lemma_pow_one(e: nat)
    ensures
        pow(1, e) == 1,
    decreases e,
{
    reveal(pow);
    if e > 0 {
        lemma_pow_one((e - 1) as nat);
    }
}

/// The positions whose labels start with the key at `key_index`, when labels
/// have `label_len` keys: `key_index * g .. key_index * g + g` for the group
/// size `g`, every bound saturating.
pub fn subset_bounds(key_index: usize, label_len: usize, label_key_count: usize) -> (bounds: Range<
    usize,
>)
    ensures
        bounds.start == saturate(
            key_index * spec_group_size(label_len as nat, label_key_count as nat),
        ),
        bounds.end == saturate(
            bounds.start + spec_group_size(label_len as nat, label_key_count as nat),
        ),
{
    let reduced = label_len.saturating_sub(1);
    let exponent: u32 = if reduced > 4294967295usize {
        4294967295u32
    } else {
        reduced as u32
    };
    let magnitude = saturating_pow(label_key_count, exponent);
    let start = saturating_mul(key_index, magnitude);
    start..start.saturating_add(magnitude)
}

/// The group of `key_index` cut to the `position_count` positions that
/// exist, or `None` when the group starts past them.
pub open spec fn spec_bounded_subset(
    key_index: nat,
    label_len: nat,
    position_count: nat,
    label_key_count: nat,
) -> Option<(usize, usize)> {
    let start = saturate(key_index * spec_group_size(label_len, label_key_count));
    let end = saturate(start + spec_group_size(label_len, label_key_count));
    if start >= position_count {
        None
    } else {
        Some((start, if end < position_count { end } else { position_count as usize }))
    }
}

pub fn bounded_subset_bounds(
    key_index: usize,
    label_len: usize,
    position_count: usize,
    label_key_count: usize,
) -> (bounds: Option<Range<usize>>)
    ensures
        match spec_bounded_subset(
            key_index as nat,
            label_len as nat,
            position_count as nat,
            label_key_count as nat,
        ) {
            Some((start, end)) => bounds matches Some(r) && r.start == start && r.end == end,
            None => bounds is None,
        },
{
    let bounds = subset_bounds(key_index, label_len, label_key_count);
    if bounds.start >= position_count {
        return None;
    }
    let end = if bounds.end < position_count {
        bounds.end
    } else {
        position_count
    };
    Some(bounds.start..end)
}


/// Every label built for `len` keys has exactly `len` keys.
pub proof fn lemma_label_length(index: nat, len: nat, keys: Seq<char>)
    requires
        keys.len() >= 2,
    ensures
        spec_label(index, len, keys).len() == len,
    decreases len,
{
    if len > 0 {
        let prev = spec_label(index / keys.len(), (len - 1) as nat, keys);
        lemma_label_length(index / keys.len(), (len - 1) as nat, keys);
    }
}

proof fn lemma_label_chars_are_keys(index: nat, len: nat, keys: Seq<char>)
    requires
        keys.len() >= 1,
    ensures
        forall|c: int|
            0 <= c < spec_label(index, len, keys).len() ==> keys.contains(
                #[trigger] spec_label(index, len, keys)[c],
            ),
    decreases len,
{
    if len > 0 {
        let prev = spec_label(index / keys.len(), (len - 1) as nat, keys);
        lemma_label_chars_are_keys(index / keys.len(), (len - 1) as nat, keys);
        let k = (index % keys.len()) as int;
        assert(keys[k] == keys[k]);
        assert forall|c: int| 0 <= c < spec_label(index, len, keys).len() implies keys.contains(
            #[trigger] spec_label(index, len, keys)[c],
        ) by {
            if c < prev.len() {
                assert(spec_label(index, len, keys)[c] == prev[c]);
            } else {
                assert(spec_label(index, len, keys)[c] == keys[k]);
            }
        }
    }
}

/// Every character of every label is one of the keys.
pub proof fn law_label_chars_are_keys(count: nat, keys: Seq<char>)
    requires
        keys.len() >= 1,
    ensures
        forall|i: int, c: int|
            0 <= i < count && 0 <= c < spec_labels(count, keys)[i].len() ==> keys.contains(
                #[trigger] spec_labels(count, keys)[i][c],
            ),
{
    let len = spec_label_length(count, keys.len());
    assert forall|i: int, c: int|
        0 <= i < count && 0 <= c < spec_labels(count, keys)[i].len() implies keys.contains(
        #[trigger] spec_labels(count, keys)[i][c],
    ) by {
        lemma_label_chars_are_keys(i as nat, len, keys);
    }
}

proof fn lemma_pow_at_least_exponent(base: nat, e: nat)
    requires
        base >= 2,
    ensures
        pow(base as int, e) >= e + 1,
    decreases e,
{
    reveal(pow);
    if e > 0 {
        lemma_pow_at_least_exponent(base, (e - 1) as nat);
        assert(base * pow(base as int, (e - 1) as nat) >= 2 * pow(base as int, (e - 1) as nat))
            by (nonlinear_arith)
            requires
                base >= 2,
                pow(base as int, (e - 1) as nat) >= 0,
        ;
    }
}

proof fn lemma_pow_base_monotone(a: nat, b: nat, e: nat)
    requires
        1 <= a <= b,
    ensures
        pow(a as int, e) <= pow(b as int, e),
    decreases e,
{
    reveal(pow);
    if e > 0 {
        lemma_pow_base_monotone(a, b, (e - 1) as nat);
        lemma_pow_positive(a as int, (e - 1) as nat);
        assert(a * pow(a as int, (e - 1) as nat) <= b * pow(b as int, (e - 1) as nat))
            by (nonlinear_arith)
            requires
                1 <= a <= b,
                0 < pow(a as int, (e - 1) as nat) <= pow(b as int, (e - 1) as nat),
        ;
    }
}

proof fn lemma_label_length_search(count: nat, key_count: nat, len: nat)
    requires
        key_count >= 2,
        len >= 1,
        len == 1 || pow(key_count as int, (len - 1) as nat) < count,
    ensures
        exists|l: nat| is_label_length(count, key_count, l),
    decreases count - len,
{
    if count <= pow(key_count as int, len) {
        assert(is_label_length(count, key_count, len));
    } else {
        lemma_pow_at_least_exponent(key_count, len);
        lemma_label_length_search(count, key_count, len + 1);
    }
}

/// For any position count and an alphabet of at least two keys, the label
/// length is the least `len >= 1` whose `key_count.pow(len)` labels suffice.
pub proof fn lemma_label_length_exists(count: nat, key_count: nat)
    requires
        key_count >= 2,
    ensures
        is_label_length(count, key_count, spec_label_length(count, key_count)),
{
    lemma_label_length_search(count, key_count, 1);
}

/// A label length for at most `usize::MAX` positions is at most 64 keys.
pub proof fn lemma_label_length_bounded(count: nat, key_count: nat, len: nat)
    requires
        key_count >= 2,
        count <= usize::MAX,
        is_label_length(count, key_count, len),
    ensures
        len <= 64,
{
    if len > 64 {
        lemma_pow_base_monotone(2, key_count, (len - 1) as nat);
        lemma2_to64_rest();
        lemma_pow2(64);
        lemma_pow_increases(2, 64, (len - 1) as nat);
        assert(pow(2, 64) > usize::MAX);
    }
}

proof fn lemma_labels_differ_below(i: nat, j: nat, len: nat, keys: Seq<char>)
    requires
        label_keys_wf(keys),
        i != j,
        i < pow(keys.len() as int, len),
        j < pow(keys.len() as int, len),
    ensures
        spec_label(i, len, keys) != spec_label(j, len, keys),
    decreases len,
{
    reveal(pow);
    let k = keys.len() as int;
    let ii = i as int;
    let jj = j as int;
    if len > 0 {
        let q = pow(k, (len - 1) as nat);
        lemma_pow_positive(k, (len - 1) as nat);
        let a = spec_label(i, len, keys);
        let b = spec_label(j, len, keys);
        if ii % k != jj % k {
            assert(a.last() == keys[ii % k]);
            assert(b.last() == keys[jj % k]);
        } else {
            lemma_fundamental_div_mod(ii, k);
            lemma_fundamental_div_mod(jj, k);
            assert(ii / k != jj / k);
            assert(ii < k * q);
            assert(jj < k * q);
            lemma_multiply_divide_lt(ii, k, q);
            lemma_multiply_divide_lt(jj, k, q);
            lemma_labels_differ_below((ii / k) as nat, (jj / k) as nat, (len - 1) as nat, keys);
            if a == b {
                assert(a.drop_last() == spec_label((ii / k) as nat, (len - 1) as nat, keys));
                assert(b.drop_last() == spec_label((jj / k) as nat, (len - 1) as nat, keys));
            }
        }
    }
}

/// All labels of `count` positions have the label length, and no two of
/// them are equal.
pub proof fn law_labels_unique_and_same_length(count: nat, keys: Seq<char>)
    requires
        label_keys_wf(keys),
    ensures
        spec_labels(count, keys).len() == count,
        forall|i: int|
            0 <= i < count ==> (#[trigger] spec_labels(count, keys)[i]).len()
                == spec_label_length(count, keys.len()),
        forall|i: int, j: int|
            0 <= i < j < count ==> #[trigger] spec_labels(count, keys)[i] != #[trigger] spec_labels(
                count,
                keys,
            )[j],
{
    let len = spec_label_length(count, keys.len());
    lemma_label_length_exists(count, keys.len());
    assert forall|i: int| 0 <= i < count implies (#[trigger] spec_labels(count, keys)[i]).len()
        == len by {
        lemma_label_length(i as nat, len, keys);
    }
    assert forall|i: int, j: int| 0 <= i < j < count implies #[trigger] spec_labels(count, keys)[i]
        != #[trigger] spec_labels(count, keys)[j] by {
        lemma_labels_differ_below(i as nat, j as nat, len, keys);
    }
}

/// The leading key of a label is the digit of `index` at the label's most
/// significant place; the rest is the label of the lower places.
pub proof fn lemma_label_leading_key(index: nat, len: nat, keys: Seq<char>)
    requires
        len >= 1,
        keys.len() >= 2,
    ensures
        spec_label(index, len, keys) == seq![
            keys[((index as int) / pow(keys.len() as int, (len - 1) as nat)) % (keys.len() as int)],
        ] + spec_label(index, (len - 1) as nat, keys),
    decreases len,
{
    reveal(pow);
    let k = keys.len() as int;
    let x = index as int;
    if len == 1 {
        assert(x / 1 == x);
        assert(spec_label((x / k) as nat, 0, keys) == Seq::<char>::empty());
        assert(spec_label(index, 1, keys) == spec_label((x / k) as nat, 0, keys).push(keys[x % k]));
        assert(spec_label(index, 1, keys) =~= seq![keys[x % k]]);
    } else {
        lemma_label_leading_key((x / k) as nat, (len - 1) as nat, keys);
        let q = pow(k, (len - 2) as nat);
        lemma_pow_positive(k, (len - 2) as nat);
        lemma_div_denominator(x, k, q);
        assert(pow(k, (len - 1) as nat) == k * q);
        let head = seq![keys[(x / pow(k, (len - 1) as nat)) % k]];
        let low = spec_label((x / k) as nat, (len - 2) as nat, keys);
        assert(spec_label((x / k) as nat, (len - 1) as nat, keys) == head + low);
        assert(spec_label(index, (len - 1) as nat, keys) == low.push(keys[x % k]));
        assert((head + low).push(keys[x % k]) =~= head + low.push(keys[x % k]));
    }
}

/// A label of `len` keys only depends on `index` modulo `key_count.pow(len)`.
pub proof fn lemma_label_low_digits(index: nat, len: nat, keys: Seq<char>)
    requires
        keys.len() >= 2,
    ensures
        spec_label(index, len, keys) == spec_label(
            ((index as int) % pow(keys.len() as int, len)) as nat,
            len,
            keys,
        ),
    decreases len,
{
    reveal(pow);
    let k = keys.len() as int;
    let x = index as int;
    if len > 0 {
        let q = pow(k, (len - 1) as nat);
        lemma_pow_positive(k, (len - 1) as nat);
        let p = k * q;
        assert(pow(k, len) == p);
        let r = x % p;
        lemma_mod_mod(x, k, q);
        lemma_mod_breakdown(x, k, q);
        assert(r == k * ((x / k) % q) + x % k);
        assert(0 <= x % k < k);
        assert(r == ((x / k) % q) * k + x % k) by (nonlinear_arith)
            requires
                r == k * ((x / k) % q) + x % k,
        ;
        vstd::arithmetic::div_mod::lemma_fundamental_div_mod_converse(r, k, (x / k) % q, x % k);
        lemma_label_low_digits((x / k) as nat, (len - 1) as nat, keys);
        assert(r / k == (x / k) % q);
        assert(r % k == x % k);
    }
}

/// With one-key labels, position `i` is labelled by the `i`-th key.
pub proof fn law_single_key_labels(count: nat, keys: Seq<char>, i: nat)
    requires
        label_keys_wf(keys),
        spec_label_length(count, keys.len()) == 1,
        i < count,
    ensures
        i < keys.len(),
        spec_labels(count, keys)[i as int] == seq![keys[i as int]],
{
    reveal(pow);
    lemma_label_length_exists(count, keys.len());
    assert(pow(keys.len() as int, 1) == keys.len()) by {
        assert(pow(keys.len() as int, 0) == 1);
    }
    lemma_small_mod(i, keys.len());
    assert(spec_label(i / keys.len(), 0, keys) == Seq::<char>::empty());
    assert(spec_label(i, 1, keys) == spec_label(i / keys.len(), 0, keys).push(keys[(i % keys.len()) as int]));
    assert(spec_label(i, 1, keys) =~= seq![keys[i as int]]);
}

/// With labels of two or more keys, the positions whose label starts with
/// the key at `key_index` are exactly that key's bounded group, and inside
/// it each label is that key followed by the label of the offset within the
/// group. This is what lets one key press narrow the selection to a group
/// and the next round of labels continue inside it.
pub proof fn law_label_groups(count: nat, keys: Seq<char>, key_index: nat, i: nat)
    requires
        label_keys_wf(keys),
        count <= usize::MAX,
        spec_label_length(count, keys.len()) >= 2,
        key_index < keys.len(),
        i < count,
    ensures
        ({
            let len = spec_label_length(count, keys.len());
            let label = spec_labels(count, keys)[i as int];
            let group = spec_bounded_subset(key_index, len, count, keys.len());
            &&& (label[0] == keys[key_index as int]) <==> (group is Some && group.unwrap().0 <= i
                < group.unwrap().1)
            &&& (group is Some && group.unwrap().0 <= i < group.unwrap().1) ==> label == seq![
                keys[key_index as int],
            ] + spec_label((i - group.unwrap().0) as nat, (len - 1) as nat, keys)
        }),
{
    let k = keys.len();
    let ki = k as int;
    let xi = i as int;
    let len = spec_label_length(count, k);
    lemma_label_length_exists(count, k);
    let m = pow(ki, (len - 1) as nat);
    lemma_pow_positive(ki, (len - 1) as nat);
    reveal(pow);
    assert(pow(ki, len) == ki * m);
    lemma_pow_base_monotone(2, k, (len - 1) as nat);
    lemma2_to64_rest();
    lemma_pow2(64);
    if len - 1 >= 64 {
        lemma_pow_increases(2, 64, (len - 1) as nat);
    }
    assert(len - 1 < 64);
    assert(spec_group_size(len, k) == m);
    lemma_label_leading_key(i, len, keys);
    assert(xi < m * ki) by (nonlinear_arith)
        requires
            xi < count,
            count <= ki * m,
    ;
    lemma_multiply_divide_lt(xi, m, ki);
    let lead = xi / m;
    assert(lead >= 0) by (nonlinear_arith)
        requires
            xi >= 0,
            m > 0,
            lead == xi / m,
    ;
    lemma_small_mod(lead as nat, k);
    assert(spec_labels(count, keys)[xi][0] == keys[lead]);
    lemma_fundamental_div_mod(xi, m);
    let ji = key_index as int;
    if ji * m <= usize::MAX {
        let start = ji * m;
        assert(saturate(ji * m) == start);
        if start <= xi < start + m {
            vstd::arithmetic::div_mod::lemma_fundamental_div_mod_converse(xi, m, ji, xi - start);
            assert(lead == ji);
            lemma_label_low_digits(i, (len - 1) as nat, keys);
            assert(xi % m == xi - start);
            let rest = spec_label(i, (len - 1) as nat, keys);
            assert(spec_labels(count, keys)[xi] == seq![keys[ji]] + rest);
        } else {
            if lead == ji {
                assert(m * lead + xi % m == xi);
                assert(m * lead == ji * m) by (nonlinear_arith)
                    requires
                        lead == ji,
                ;
            }
            assert(lead != ji);
        }
    } else {
        assert(lead * m <= xi) by (nonlinear_arith)
            requires
                m * lead + xi % m == xi,
                xi % m >= 0,
        ;
        if lead >= ji {
            assert(lead * m >= ji * m) by (nonlinear_arith)
                requires
                    lead >= ji,
                    m > 0,
            ;
        }
        assert(lead != ji);
    }
    if keys[lead] == keys[ji] {
        assert(lead == ji);
    }
}

/// Whether position `i` lies in a bounded group.
pub open spec fn in_group(group: Option<(usize, usize)>, i: nat) -> bool {
    group is Some && group.unwrap().0 <= i < group.unwrap().1
}

/// With labels of two or more keys, the bounded groups of the keys tile the
/// positions: each position lies in the group of exactly one key.
pub proof fn law_label_groups_tile(count: nat, keys: Seq<char>, i: nat)
    requires
        label_keys_wf(keys),
        count <= usize::MAX,
        spec_label_length(count, keys.len()) >= 2,
        i < count,
    ensures
        exists|key_index: nat|
            key_index < keys.len() && (#[trigger] spec_bounded_subset(
                key_index,
                spec_label_length(count, keys.len()),
                count,
                keys.len(),
            )) is Some && spec_bounded_subset(
                key_index,
                spec_label_length(count, keys.len()),
                count,
                keys.len(),
            ).unwrap().0 <= i < spec_bounded_subset(
                key_index,
                spec_label_length(count, keys.len()),
                count,
                keys.len(),
            ).unwrap().1,
        forall|a: nat, b: nat|
            a < keys.len() && b < keys.len() && in_group(
                #[trigger] spec_bounded_subset(a, spec_label_length(count, keys.len()), count, keys.len()),
                i,
            ) && in_group(
                #[trigger] spec_bounded_subset(b, spec_label_length(count, keys.len()), count, keys.len()),
                i,
            ) ==> a == b,
{
    let len = spec_label_length(count, keys.len());
    let label = spec_labels(count, keys)[i as int];
    lemma_label_length_exists(count, keys.len());
    lemma_label_length(i, len, keys);
    lemma_label_leading_key(i, len, keys);
    let k = keys.len() as int;
    let lead = (((i as int) / pow(k, (len - 1) as nat)) % k) as nat;
    lemma_pow_positive(k, (len - 1) as nat);
    assert(label[0] == keys[lead as int]);
    law_label_groups(count, keys, lead, i);
    assert forall|a: nat, b: nat|
        a < keys.len() && b < keys.len() && in_group(
            #[trigger] spec_bounded_subset(a, len, count, keys.len()),
            i,
        ) && in_group(#[trigger] spec_bounded_subset(b, len, count, keys.len()), i) implies a
        == b by {
        law_label_groups(count, keys, a, i);
        law_label_groups(count, keys, b, i);
    }
}


/// Whether position `i` lies in the bounded group of some key.
pub open spec fn in_some_group(count: nat, keys: Seq<char>, i: nat) -> bool {
    exists|j: nat|
        j < keys.len() && in_group(
            #[trigger] spec_bounded_subset(j, spec_label_length(count, keys.len()), count, keys.len()),
            i,
        )
}

/// With labels of two or more keys, the bounded groups of the keys partition
/// the positions: every group that exists is a nonempty range inside them,
/// every position lies in a group, and in only one.
pub proof fn law_label_groups_partition(count: nat, keys: Seq<char>)
    requires
        label_keys_wf(keys),
        count <= usize::MAX,
        spec_label_length(count, keys.len()) >= 2,
    ensures
        forall|j: nat|
            j < keys.len() && (#[trigger] spec_bounded_subset(
                j,
                spec_label_length(count, keys.len()),
                count,
                keys.len(),
            )) is Some ==> spec_bounded_subset(j, spec_label_length(count, keys.len()), count, keys.len()).unwrap().0
                < spec_bounded_subset(j, spec_label_length(count, keys.len()), count, keys.len()).unwrap().1
                <= count,
        forall|i: nat| i < count ==> #[trigger] in_some_group(count, keys, i),
        forall|a: nat, b: nat, i: nat|
            a < keys.len() && b < keys.len() && i < count && #[trigger] in_group(
                spec_bounded_subset(a, spec_label_length(count, keys.len()), count, keys.len()),
                i,
            ) && #[trigger] in_group(
                spec_bounded_subset(b, spec_label_length(count, keys.len()), count, keys.len()),
                i,
            ) ==> a == b,
{
    let len = spec_label_length(count, keys.len());
    let k = keys.len();
    lemma_pow_positive(k as int, (len - 1) as nat);
    lemma_label_length_exists(count, k);
    lemma_label_length_bounded(count, k, len);
    assert(spec_group_size(len, k) >= 1);
    assert forall|i: nat| i < count implies #[trigger] in_some_group(count, keys, i) by {
        law_label_groups_tile(count, keys, i);
        let j = choose|j: nat|
            j < keys.len() && (#[trigger] spec_bounded_subset(j, len, count, k)) is Some
                && spec_bounded_subset(j, len, count, k).unwrap().0 <= i < spec_bounded_subset(
                j,
                len,
                count,
                k,
            ).unwrap().1;
        assert(in_group(spec_bounded_subset(j, len, count, k), i));
    }
    assert forall|a: nat, b: nat, i: nat|
        a < keys.len() && b < keys.len() && i < count && #[trigger] in_group(
            spec_bounded_subset(a, len, count, k),
            i,
        ) && #[trigger] in_group(spec_bounded_subset(b, len, count, k), i) implies a == b by {
        law_label_groups_tile(count, keys, i);
    }
}

} // verus!
