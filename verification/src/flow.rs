//! The jump flow: resolve the pane, capture it, find the targets, let the
//! user pick one by its label, and jump there.

use vstd::prelude::*;

use crate::cells::{jump_target_for_char_index, spec_jump_target, JumpTarget};
use crate::cli::opt_view;
use crate::config::{JumpConfig, JumpOptions};
use crate::jump::{positions_for, spec_positions};
use crate::labels::{
    bounded_subset_bounds, is_label_length, label_keys_wf, label_length_for, labels_for,
    law_label_groups, law_single_key_labels, lemma_label_leading_key, lemma_label_length_bounded,
    lemma_label_length_exists, spec_labels, spec_bounded_subset, spec_group_size, spec_label_length,
    LabelKeys,
};
use crate::overlay::{draw_overlay, with_recovered_screen};
use crate::text::{str_chars, string_from_str, string_push};
use crate::tmux::{with_cursor_from, BackendError, PaneState, TmuxBackend};
use vstd::arithmetic::power::{lemma_pow_positive, pow};

verus! {

/// The stages of a jump.
#[derive(Debug, Clone, Copy, PartialEq, Eq, Structural)]
pub enum JumpState {
    ResolvePane,
    CaptureScreen,
    SelectTarget,
    JumpToTarget,
    Done,
    Cancelled,
}

/// How a jump ended, the stages it went through, and what it saw and did.
#[derive(Debug, Clone, PartialEq, Eq)]
pub struct JumpReport {
    pub state: JumpState,
    pub transitions: Vec<JumpState>,
    /// The captured screen the targets were found in.
    pub screen: String,
    /// The answers to the label prompts, in the order they were read; `None`
    /// for a dismissed prompt.
    pub answers: Vec<Option<String>>,
    /// The cell jumped to, when the jump went through.
    pub jumped_to: Option<JumpTarget>,
    /// The message shown to the user, if any.
    pub message: Option<String>,
}

struct JumpMachine {
    transitions: Vec<JumpState>,
}

impl JumpMachine {
    fn new() -> (machine: Self)
        ensures
            machine.transitions@ == Seq::<JumpState>::empty(),
    {
        JumpMachine { transitions: Vec::new() }
    }

    fn enter(&mut self, state: JumpState)
        ensures
            final(self).transitions@ == old(self).transitions@.push(state),
    {
        self.transitions.push(state);
    }

    fn finish(
        self,
        state: JumpState,
        screen: String,
        answers: Vec<Option<String>>,
        jumped_to: Option<JumpTarget>,
        message: Option<String>,
    ) -> (report: JumpReport)
        ensures
            report.state == state,
            report.transitions@ == self.transitions@.push(state),
            report.screen == screen,
            report.answers == answers,
            report.jumped_to == jumped_to,
            report.message == message,
    {
        let mut transitions = self.transitions;
        transitions.push(state);
        JumpReport { state, transitions, screen, answers, jumped_to, message }
    }
}

/// What a jump is asked to do.
#[derive(Debug, Clone)]
pub struct JumpRequest {
    pub initial_char: char,
    pub pane_id: Option<String>,
    pub config: JumpConfig,
}

/// The stage sequences a jump can go through: no match; a single match
/// jumped to directly; a selection cancelled; a selection jumped to.
pub open spec fn is_jump_path(t: Seq<JumpState>) -> bool {
    ||| t == seq![JumpState::ResolvePane, JumpState::CaptureScreen, JumpState::Cancelled]
    ||| t == seq![
        JumpState::ResolvePane,
        JumpState::CaptureScreen,
        JumpState::JumpToTarget,
        JumpState::Done,
    ]
    ||| t == seq![
        JumpState::ResolvePane,
        JumpState::CaptureScreen,
        JumpState::SelectTarget,
        JumpState::Cancelled,
    ]
    ||| t == seq![
        JumpState::ResolvePane,
        JumpState::CaptureScreen,
        JumpState::SelectTarget,
        JumpState::JumpToTarget,
        JumpState::Done,
    ]
}

/// What to do once the targets are known.
#[derive(Debug, Clone, Copy, PartialEq, Eq, Structural)]
pub enum CaptureDecision {
    /// No target: report it and cancel.
    NoMatch,
    /// A single target with auto-jump on: jump to it without an overlay.
    AutoJump,
    /// Let the user pick a target by its label.
    Select,
}

/// The decision after capture for `position_count` targets.
pub open spec fn spec_after_capture(position_count: nat, auto_jump: bool) -> CaptureDecision {
    if position_count == 0 {
        CaptureDecision::NoMatch
    } else if auto_jump && position_count == 1 {
        CaptureDecision::AutoJump
    } else {
        CaptureDecision::Select
    }
}

pub fn after_capture(position_count: usize, auto_jump: bool) -> (decision: CaptureDecision)
    ensures
        decision == spec_after_capture(position_count as nat, auto_jump),
{
    if position_count == 0 {
        CaptureDecision::NoMatch
    } else if auto_jump && position_count == 1 {
        CaptureDecision::AutoJump
    } else {
        CaptureDecision::Select
    }
}

/// The index of the key that an answer names, when the answer is exactly one
/// of the keys.
pub open spec fn spec_key_index(keys: Seq<char>, input: Seq<char>) -> Option<nat> {
    if exists|i: int| 0 <= i < keys.len() && input == seq![#[trigger] keys[i]] {
        Some((choose|i: int| 0 <= i < keys.len() && input == seq![#[trigger] keys[i]]) as nat)
    } else {
        None
    }
}

/// The index of the label key that a prompt response names: the response
/// must be exactly that one key.
pub fn key_index_for_input(label_keys: &LabelKeys, input: &str) -> (key_index: Option<usize>)
    ensures
        key_index matches Some(i) ==> spec_key_index(label_keys@, input@) == Some(i as nat),
        key_index is None ==> spec_key_index(label_keys@, input@) is None,
        key_index matches Some(i) ==> i < label_keys@.len() && input@ == seq![label_keys@[i as int]],
        key_index is None ==> forall|i: int|
            0 <= i < label_keys@.len() ==> input@ != seq![#[trigger] label_keys@[i]],
{
    let keys = label_keys.as_slice();
    let chars = str_chars(input);
    if chars.len() != 1 {
        assert forall|i: int| 0 <= i < label_keys@.len() implies input@ != seq![
            #[trigger] label_keys@[i],
        ] by {}
        return None;
    }
    let c = chars[0];
    let n = keys.len();
    for i in 0..n
        invariant
            n == keys@.len(),
            keys@ == label_keys@,
            label_keys_wf(keys@),
            chars@ == input@,
            chars@.len() == 1,
            c == chars@[0],
            forall|j: int| 0 <= j < i ==> keys@[j] != c,
    {
        if keys[i] == c {
            assert(input@ =~= seq![label_keys@[i as int]]);
            proof {
                let j = choose|j: int| 0 <= j < label_keys@.len() && input@ == seq![
                    #[trigger] label_keys@[j],
                ];
                assert(input@[0] == label_keys@[j]);
                assert(label_keys@.no_duplicates());
                assert(j == i);
            }
            return Some(i);
        }
    }
    assert forall|i: int| 0 <= i < label_keys@.len() implies input@ != seq![
        #[trigger] label_keys@[i],
    ] by {
        if input@ == seq![label_keys@[i]] {
            assert(input@[0] == label_keys@[i]);
        }
    }
    None
}

/// The outcome of one key press in label selection.
#[derive(Debug, Clone, PartialEq, Eq)]
pub enum SelectionStep {
    /// The key selects nothing: cancel.
    Cancel,
    /// The key selects this position.
    Chosen(usize),
    /// The key selects the group of positions `start..end`, to be labelled
    /// anew.
    Narrow(usize, usize),
}

/// What pressing the key at `key_index` selects among `position_count`
/// positions labelled with `label_len` keys each.
pub open spec fn spec_selection_step(
    key_index: nat,
    label_len: nat,
    position_count: nat,
    label_key_count: nat,
) -> SelectionStep {
    if label_len == 1 {
        if key_index < position_count {
            SelectionStep::Chosen(key_index as usize)
        } else {
            SelectionStep::Cancel
        }
    } else {
        match spec_bounded_subset(key_index, label_len, position_count, label_key_count) {
            Some((start, end)) => SelectionStep::Narrow(start, end),
            None => SelectionStep::Cancel,
        }
    }
}

pub fn selection_step(
    key_index: usize,
    label_len: usize,
    position_count: usize,
    label_key_count: usize,
) -> (step: SelectionStep)
    ensures
        step == spec_selection_step(
            key_index as nat,
            label_len as nat,
            position_count as nat,
            label_key_count as nat,
        ),
{
    if label_len == 1 {
        if key_index < position_count {
            SelectionStep::Chosen(key_index)
        } else {
            SelectionStep::Cancel
        }
    } else {
        match bounded_subset_bounds(key_index, label_len, position_count, label_key_count) {
            Some(range) => SelectionStep::Narrow(range.start, range.end),
            None => SelectionStep::Cancel,
        }
    }
}

/// A group chosen from labels of two or more keys is never empty and is
/// smaller than the positions it was chosen from, so label selection
/// always narrows and ends.
pub proof fn law_narrowing_shrinks(
    key_index: nat,
    label_len: nat,
    position_count: nat,
    label_key_count: nat,
)
    requires
        label_key_count >= 2,
        position_count <= usize::MAX,
        label_len <= 64,
        is_label_length(position_count, label_key_count, label_len),
        spec_selection_step(key_index, label_len, position_count, label_key_count) is Narrow,
    ensures
        ({
            let (start, end) = match spec_selection_step(
                key_index,
                label_len,
                position_count,
                label_key_count,
            ) {
                SelectionStep::Narrow(s, e) => (s, e),
                _ => (0usize, 0usize),
            };
            start < end <= position_count && end - start < position_count
        }),
{
    let g = spec_group_size(label_len, label_key_count);
    assert(label_len >= 2);
    vstd::arithmetic::power::lemma_pow_positive(label_key_count as int, (label_len - 1) as nat);
    assert(pow(label_key_count as int, (label_len - 1) as nat) < position_count);
    assert(g == pow(label_key_count as int, (label_len - 1) as nat));
}

fn copy_range(positions: &[usize], start: usize, end: usize) -> (part: Vec<usize>)
    requires
        start <= end <= positions@.len(),
    ensures
        part@ == positions@.subrange(start as int, end as int),
{
    let mut part: Vec<usize> = Vec::new();
    for i in start..end
        invariant
            start <= end <= positions@.len(),
            part@ == positions@.subrange(start as int, i as int),
    {
        part.push(positions[i]);
        assert(positions@.subrange(start as int, i + 1) == positions@.subrange(
            start as int,
            i as int,
        ).push(positions@[i as int]));
    }
    part
}

/// What label selection read, and what it picked.
#[derive(Debug, Clone, PartialEq, Eq)]
pub struct Selection {
    /// The index picked among the positions, if any.
    pub picked: Option<usize>,
    /// The answers to the label prompts, in the order they were read; `None`
    /// for a dismissed prompt.
    pub answers: Vec<Option<String>>,
    /// The character positions labelled by each overlay drawn, in order; the
    /// prompt of each round is answered over the overlay of that round.
    pub drawn: Vec<Vec<usize>>,
}

/// Whether the overlay after `prev` labels exactly the positions of `prev`
/// whose label, as drawn over `prev`, starts with the key given as `answer`:
/// a contiguous run of them, in order.
pub open spec fn round_narrows(
    prev: Seq<usize>,
    next: Seq<usize>,
    answer: Option<Seq<char>>,
    keys: Seq<char>,
) -> bool {
    exists|k: int, start: int, end: int|
        0 <= k < keys.len() && answer == Some(seq![keys[k]]) && 0 <= start <= end <= prev.len()
            && next == prev.subrange(start, end) && forall|j: int|
            0 <= j < prev.len() ==> ((start <= j < end) <==> (#[trigger] spec_labels(
                prev.len() as nat,
                keys,
            )[j])[0] == keys[k])
}

/// Whether each overlay in `drawn` after the first labels the positions that
/// the answer to the round before narrowed to.
pub open spec fn rounds_narrow(
    drawn: Seq<Seq<usize>>,
    answers: Seq<Option<Seq<char>>>,
    keys: Seq<char>,
) -> bool {
    forall|r: int|
        0 <= r < drawn.len() - 1 ==> round_narrows(#[trigger] drawn[r], drawn[r + 1], answers[r], keys)
}

/// The positions of each drawn overlay.
pub open spec fn drawn_view(drawn: Seq<Vec<usize>>) -> Seq<Seq<usize>> {
    drawn.map_values(|v: Vec<usize>| v@)
}

/// The answers as character sequences.
pub open spec fn answers_view(answers: Seq<Option<String>>) -> Seq<Option<Seq<char>>> {
    answers.map_values(|a: Option<String>| opt_view(a))
}

/// A picked index as a natural number.
pub open spec fn picked_view(picked: Option<usize>) -> Option<nat> {
    match picked {
        Some(i) => Some(i as nat),
        None => None,
    }
}

/// What label selection among `count` positions labelled from `keys` picks
/// when the label prompts are answered with `answers`, one per round: with
/// auto-jump on, a lone position is picked without a prompt; otherwise a
/// dismissed prompt or an answer that is not exactly one key cancels, and a
/// key picks a position, narrows to its group (labelled anew for the next
/// answer) or cancels. `None` when `answers` are not exactly the answers such
/// a run reads: too few, or more after the run has ended.
pub open spec fn spec_run(
    count: nat,
    keys: Seq<char>,
    auto_jump: bool,
    answers: Seq<Option<Seq<char>>>,
) -> Option<Option<nat>>
    decreases answers.len(),
{
    if count == 0 || (auto_jump && count == 1) {
        if answers.len() == 0 {
            Some(if count == 0 {
                None
            } else {
                Some(0nat)
            })
        } else {
            None
        }
    } else if answers.len() == 0 {
        None
    } else {
        let last = answers.len() == 1;
        match answers[0] {
            None => if last {
                Some(None)
            } else {
                None
            },
            Some(text) => match spec_key_index(keys, text) {
                None => if last {
                    Some(None)
                } else {
                    None
                },
                Some(k) => match spec_selection_step(
                    k,
                    spec_label_length(count, keys.len()),
                    count,
                    keys.len(),
                ) {
                    SelectionStep::Chosen(j) => if last {
                        Some(Some(j as nat))
                    } else {
                        None
                    },
                    SelectionStep::Cancel => if last {
                        Some(None)
                    } else {
                        None
                    },
                    SelectionStep::Narrow(start, end) => match spec_run(
                        (end - start) as nat,
                        keys,
                        auto_jump,
                        answers.drop_first(),
                    ) {
                        Some(Some(j)) => Some(Some((start + j) as nat)),
                        Some(None) => Some(None),
                        None => None,
                    },
                },
            },
        }
    }
}

/// Whatever the answers, a run of label selection picks one of the
/// positions it was given, if any.
pub proof fn law_run_stays_in_range(
    count: nat,
    keys: Seq<char>,
    auto_jump: bool,
    answers: Seq<Option<Seq<char>>>,
)
    ensures
        spec_run(count, keys, auto_jump, answers) matches Some(Some(j)) ==> j < count,
    decreases answers.len(),
{
    if count > 0 && !(auto_jump && count == 1) && answers.len() > 0 {
        match answers[0] {
            Some(text) => match spec_key_index(keys, text) {
                Some(k) => match spec_selection_step(
                    k,
                    spec_label_length(count, keys.len()),
                    count,
                    keys.len(),
                ) {
                    SelectionStep::Narrow(start, end) => {
                        law_run_stays_in_range(
                            (end - start) as nat,
                            keys,
                            auto_jump,
                            answers.drop_first(),
                        );
                    },
                    _ => {},
                },
                None => {},
            },
            None => {},
        }
    }
}

/// When a run of label selection prompts at all and picks a position, that
/// position's label, as first drawn, starts with the key of the first
/// answer.
pub proof fn law_pick_starts_with_the_first_key(
    count: nat,
    keys: Seq<char>,
    auto_jump: bool,
    answers: Seq<Option<Seq<char>>>,
)
    requires
        label_keys_wf(keys),
        count <= usize::MAX,
        !(auto_jump && count == 1),
        spec_run(count, keys, auto_jump, answers) is Some,
        spec_run(count, keys, auto_jump, answers).unwrap() is Some,
    ensures
        ({
            let i = spec_run(count, keys, auto_jump, answers).unwrap().unwrap();
            &&& answers.len() > 0
            &&& answers[0] is Some
            &&& spec_key_index(keys, answers[0].unwrap()) is Some
            &&& i < count
            &&& spec_labels(count, keys)[i as int][0] == keys[spec_key_index(
                keys,
                answers[0].unwrap(),
            ).unwrap() as int]
        }),
{
    let k = spec_key_index(keys, answers[0].unwrap()).unwrap();
    let text = answers[0].unwrap();
    assert(exists|x: int| 0 <= x < keys.len() && text == seq![#[trigger] keys[x]]);
    let len = spec_label_length(count, keys.len());
    lemma_label_length_exists(count, keys.len());
    lemma_label_length_bounded(count, keys.len(), len);
    law_run_stays_in_range(count, keys, auto_jump, answers);
    let i = spec_run(count, keys, auto_jump, answers).unwrap().unwrap();
    if len == 1 {
        law_single_key_labels(count, keys, i);
    } else {
        match spec_selection_step(k, len, count, keys.len()) {
            SelectionStep::Narrow(start, end) => {
                law_run_stays_in_range(
                    (end - start) as nat,
                    keys,
                    auto_jump,
                    answers.drop_first(),
                );
                law_label_groups(count, keys, k, i);
            },
            _ => {},
        }
    }
}

/// Whether an answer is exactly one of the keys.
pub open spec fn is_key_answer(keys: Seq<char>, answer: Option<Seq<char>>) -> bool {
    answer is Some && answer.unwrap().len() == 1 && keys.contains(answer.unwrap()[0])
}

proof fn lemma_key_index_of_key(keys: Seq<char>, k: nat)
    requires
        label_keys_wf(keys),
        k < keys.len(),
    ensures
        spec_key_index(keys, seq![keys[k as int]]) == Some(k),
{
    let text = seq![keys[k as int]];
    assert(text == seq![keys[k as int]]);
    let j = choose|j: int| 0 <= j < keys.len() && text == seq![#[trigger] keys[j]];
    assert(text[0] == keys[j]);
    assert(keys.no_duplicates());
}

/// Every position can be picked by answering, round after round, the key
/// that its current label starts with; every answer is one of the keys.
pub proof fn law_every_position_is_selectable(
    count: nat,
    keys: Seq<char>,
    auto_jump: bool,
    i: nat,
)
    requires
        label_keys_wf(keys),
        count <= usize::MAX,
        i < count,
    ensures
        exists|answers: Seq<Option<Seq<char>>>|
            (forall|r: int| 0 <= r < answers.len() ==> is_key_answer(keys, #[trigger] answers[r]))
                && #[trigger] spec_run(count, keys, auto_jump, answers) == Some(Some(i)),
    decreases count,
{
    let k = keys.len();
    if auto_jump && count == 1 {
        let answers = Seq::<Option<Seq<char>>>::empty();
        assert(spec_run(count, keys, auto_jump, answers) == Some(Some(i)));
    } else {
        let len = spec_label_length(count, k);
        lemma_label_length_exists(count, k);
        lemma_label_length_bounded(count, k, len);
        if len == 1 {
            vstd::arithmetic::power::lemma_pow1(k as int);
            lemma_key_index_of_key(keys, i);
            let answers = seq![Some(seq![keys[i as int]])];
            assert(spec_selection_step(i, 1, count, k) == SelectionStep::Chosen(i as usize));
            assert(spec_run(count, keys, auto_jump, answers) == Some(Some(i)));
            assert(is_key_answer(keys, answers[0]));
        } else {
            let m = pow(k as int, (len - 1) as nat);
            lemma_pow_positive(k as int, (len - 1) as nat);
            let lead = (((i as int) / m) % (k as int)) as nat;
            lemma_label_leading_key(i, len, keys);
            law_label_groups(count, keys, lead, i);
            lemma_key_index_of_key(keys, lead);
            let group = spec_bounded_subset(lead, len, count, k);
            assert(spec_selection_step(lead, len, count, k) == SelectionStep::Narrow(
                group.unwrap().0,
                group.unwrap().1,
            ));
            law_narrowing_shrinks(lead, len, count, k);
            let start = group.unwrap().0;
            let end = group.unwrap().1;
            law_every_position_is_selectable((end - start) as nat, keys, auto_jump, (i - start) as nat);
            let rest = choose|a: Seq<Option<Seq<char>>>|
                (forall|r: int| 0 <= r < a.len() ==> is_key_answer(keys, #[trigger] a[r]))
                    && #[trigger] spec_run((end - start) as nat, keys, auto_jump, a) == Some(
                    Some((i - start) as nat),
                );
            let first = Some(seq![keys[lead as int]]);
            let answers = seq![first] + rest;
            assert(answers.drop_first() =~= rest);
            assert(answers[0] == first);
            assert(is_key_answer(keys, first));
            assert forall|r: int| 0 <= r < answers.len() implies is_key_answer(
                keys,
                #[trigger] answers[r],
            ) by {
                if r > 0 {
                    assert(answers[r] == rest[r - 1]);
                }
            }
            assert(spec_run(count, keys, auto_jump, answers) == Some(Some(i)));
        }
    }
}

proof fn lemma_group_is_the_key_run(
    count: nat,
    keys: Seq<char>,
    k: nat,
    len: nat,
    start: usize,
    end: usize,
)
    requires
        label_keys_wf(keys),
        count <= usize::MAX,
        k < keys.len(),
        len == spec_label_length(count, keys.len()),
        len != 1,
        spec_selection_step(k, len, count, keys.len()) == SelectionStep::Narrow(start, end),
    ensures
        start <= end <= count,
        forall|j: int|
            0 <= j < count ==> ((start <= j < end) <==> (#[trigger] spec_labels(count, keys)[j])[0]
                == keys[k as int]),
{
    lemma_label_length_exists(count, keys.len());
    let group = spec_bounded_subset(k, len, count, keys.len());
    assert(group == Some((start, end)));
    assert forall|j: int| 0 <= j < count implies ((start <= j < end) <==> (#[trigger] spec_labels(
        count,
        keys,
    )[j])[0] == keys[k as int]) by {
        law_label_groups(count, keys, k, j as nat);
    }
}

/// Lets the user pick one of `positions` by its label: draws the overlay,
/// reads one answer, and either picks a position, narrows to that key's group
/// and asks again, or cancels. The pick is what [`spec_run`] gives for the
/// answers read, which are returned with it.
pub fn select_position_index<B: TmuxBackend>(
    backend: &B,
    pane: &PaneState,
    screen: &str,
    positions: &[usize],
    config: &JumpConfig,
) -> (selected: Result<Selection, BackendError>)
    ensures
        positions@.len() == 0 ==> (selected matches Ok(sel) && sel.picked is None
            && sel.answers@.len() == 0),
        config.options.auto_jump && positions@.len() == 1 ==> (selected matches Ok(sel)
            && sel.picked == Some(0usize) && sel.answers@.len() == 0),
        selected matches Ok(sel) ==> spec_run(
            positions@.len(),
            config.options.label_keys@,
            config.options.auto_jump,
            answers_view(sel.answers@),
        ) == Some(picked_view(sel.picked)),
        selected matches Ok(sel) ==> (sel.picked matches Some(i) ==> i < positions@.len()),
        selected matches Ok(sel) ==> sel.drawn@.len() == sel.answers@.len() && (sel.drawn@.len()
            > 0 ==> drawn_view(sel.drawn@)[0] == positions@) && rounds_narrow(
            drawn_view(sel.drawn@),
            answers_view(sel.answers@),
            config.options.label_keys@,
        ),
    decreases positions@.len(),
{
    let count = positions.len();
    if count == 0 {
        let sel = Selection { picked: None, answers: Vec::new(), drawn: Vec::new() };
        assert(answers_view(sel.answers@) =~= Seq::<Option<Seq<char>>>::empty());
        return Ok(sel);
    }
    if config.options.auto_jump && count == 1 {
        let sel = Selection { picked: Some(0), answers: Vec::new(), drawn: Vec::new() };
        assert(answers_view(sel.answers@) =~= Seq::<Option<Seq<char>>>::empty());
        return Ok(sel);
    }
    let keys = &config.options.label_keys;
    let key_count = keys.len();
    let labels = labels_for(count, keys);
    let label_len = label_length_for(count, keys);
    let shown = copy_range(positions, 0, count);
    assert(shown@ =~= positions@);
    match draw_overlay(backend, pane, screen, shown.as_slice(), labels.as_slice(), &config.overlay_style) {
        Ok(()) => {},
        Err(e) => return Err(e),
    }
    let mut drawn: Vec<Vec<usize>> = Vec::new();
    drawn.push(shown);
    assert(drawn_view(drawn@) =~= seq![positions@]);
    let answer = match backend.prompt_for_label_input("char:") {
        Ok(a) => a,
        Err(e) => return Err(e),
    };
    let key_index = match &answer {
        Some(input) => key_index_for_input(keys, input.as_str()),
        None => None,
    };
    let ghost first = opt_view(answer);
    let mut answers: Vec<Option<String>> = Vec::new();
    answers.push(answer);
    assert(answers_view(answers@) =~= seq![first]);
    let key_index = match key_index {
        Some(i) => i,
        None => {
            return Ok(Selection { picked: None, answers, drawn });
        },
    };
    match selection_step(key_index, label_len, count, key_count) {
        SelectionStep::Cancel => Ok(Selection { picked: None, answers, drawn }),
        SelectionStep::Chosen(i) => Ok(Selection { picked: Some(i), answers, drawn }),
        SelectionStep::Narrow(start, end) => {
            proof {
                law_narrowing_shrinks(
                    key_index as nat,
                    label_len as nat,
                    count as nat,
                    key_count as nat,
                );
            }
            let remaining = copy_range(positions, start, end);
            match select_position_index(backend, pane, screen, remaining.as_slice(), config) {
                Ok(sub) => {
                    let Selection { picked: lower, answers: mut rest, drawn: mut later } = sub;
                    let ghost rest_view = answers_view(rest@);
                    let ghost later_view = drawn_view(later@);
                    let ghost keys_view = keys@;
                    answers.append(&mut rest);
                    assert(answers_view(answers@) =~= seq![first] + rest_view);
                    assert((seq![first] + rest_view).drop_first() =~= rest_view);
                    drawn.append(&mut later);
                    assert(drawn_view(drawn@) =~= seq![positions@] + later_view);
                    proof {
                        let dv = drawn_view(drawn@);
                        let av = answers_view(answers@);
                        if later_view.len() > 0 {
                            lemma_group_is_the_key_run(
                                count as nat,
                                keys_view,
                                key_index as nat,
                                label_len as nat,
                                start,
                                end,
                            );
                            assert(later_view[0] == positions@.subrange(start as int, end as int));
                            assert(av[0] == first);
                            assert(round_narrows(dv[0], dv[1], av[0], keys_view));
                        }
                        assert forall|r: int| 0 <= r < dv.len() - 1 implies round_narrows(
                            #[trigger] dv[r],
                            dv[r + 1],
                            av[r],
                            keys_view,
                        ) by {
                            if r > 0 {
                                assert(dv[r] == later_view[r - 1]);
                                assert(dv[r + 1] == later_view[r]);
                                assert(av[r] == rest_view[r - 1]);
                                assert(round_narrows(
                                    later_view[r - 1],
                                    later_view[(r - 1) + 1],
                                    rest_view[r - 1],
                                    keys_view,
                                ));
                            }
                        }
                    }
                    let picked = match lower {
                        Some(l) => Some(start + l),
                        None => None,
                    };
                    Ok(Selection { picked, answers, drawn })
                },
                Err(e) => Err(e),
            }
        },
    }
}


/// The message for a jump character without targets.
pub open spec fn spec_no_match_message(initial_char: char) -> Seq<char> {
    "tmux-dart: no matches for '"@ + seq![initial_char, '\'']
}

pub fn no_match_message(initial_char: char) -> (message: String)
    ensures
        message@ == spec_no_match_message(initial_char),
{
    let mut message = string_from_str("tmux-dart: no matches for '");
    string_push(&mut message, initial_char);
    string_push(&mut message, '\'');
    message
}

/// What a capture leads to.
#[derive(Debug, Clone, PartialEq, Eq)]
pub enum CapturePlan {
    /// No target: show this message and cancel.
    NoMatch(String),
    /// A single target with auto-jump on: jump to this cell.
    AutoJump(JumpTarget),
    /// Let the user pick one of these character indices by its label.
    Select(Vec<usize>),
}

/// The targets of `initial_char` in the captured `screen`, and what they
/// lead to under `options`.
pub fn plan_after_capture(initial_char: char, screen: &str, options: &JumpOptions) -> (plan:
    CapturePlan)
    ensures
        ({
            let ps = spec_positions(
                screen@,
                initial_char,
                options.match_mode,
                options.case_sensitive,
            );
            match spec_after_capture(ps.len(), options.auto_jump) {
                CaptureDecision::NoMatch => (plan matches CapturePlan::NoMatch(m) && m@
                    == spec_no_match_message(initial_char)),
                CaptureDecision::AutoJump => (plan matches CapturePlan::AutoJump(t) && t
                    == spec_jump_target(screen@, ps[0] as nat)),
                CaptureDecision::Select => (plan matches CapturePlan::Select(v) && v@ == ps),
            }
        }),
{
    let positions = positions_for(
        initial_char,
        screen,
        options.match_mode,
        options.case_sensitive,
    );
    match after_capture(positions.len(), options.auto_jump) {
        CaptureDecision::NoMatch => CapturePlan::NoMatch(no_match_message(initial_char)),
        CaptureDecision::AutoJump => CapturePlan::AutoJump(
            jump_target_for_char_index(screen, positions[0]),
        ),
        CaptureDecision::Select => CapturePlan::Select(positions),
    }
}

/// The message shown when label selection ends without a pick.
pub const JUMP_CANCELLED_MESSAGE: &'static str = "tmux-dart: jump cancelled";

/// What a jump that was asked for `initial_char` under `options` reports:
/// the stages and the outcome follow from the targets on the captured screen
/// and from the answers read. No target: cancelled with the no-match
/// message. A single target with auto-jump on: a jump to its cell. Otherwise
/// label selection, whose pick (see [`spec_run`]) is jumped to, or which ends
/// cancelled with the cancellation message.
pub open spec fn report_follows(initial_char: char, options: JumpOptions, r: JumpReport) -> bool {
    let ps = spec_positions(r.screen@, initial_char, options.match_mode, options.case_sensitive);
    &&& r.state == r.transitions@.last()
    &&& match spec_after_capture(ps.len(), options.auto_jump) {
        CaptureDecision::NoMatch => {
            &&& r.transitions@ == seq![
                JumpState::ResolvePane,
                JumpState::CaptureScreen,
                JumpState::Cancelled,
            ]
            &&& r.answers@.len() == 0
            &&& r.jumped_to is None
            &&& opt_view(r.message) == Some(spec_no_match_message(initial_char))
        },
        CaptureDecision::AutoJump => {
            &&& r.transitions@ == seq![
                JumpState::ResolvePane,
                JumpState::CaptureScreen,
                JumpState::JumpToTarget,
                JumpState::Done,
            ]
            &&& r.answers@.len() == 0
            &&& r.jumped_to == Some(spec_jump_target(r.screen@, ps[0] as nat))
            &&& r.message is None
        },
        CaptureDecision::Select => match spec_run(
            ps.len(),
            options.label_keys@,
            options.auto_jump,
            answers_view(r.answers@),
        ) {
            Some(Some(i)) => {
                &&& r.transitions@ == seq![
                    JumpState::ResolvePane,
                    JumpState::CaptureScreen,
                    JumpState::SelectTarget,
                    JumpState::JumpToTarget,
                    JumpState::Done,
                ]
                &&& r.jumped_to == Some(spec_jump_target(r.screen@, ps[i as int] as nat))
                &&& r.message is None
            },
            Some(None) => {
                &&& r.transitions@ == seq![
                    JumpState::ResolvePane,
                    JumpState::CaptureScreen,
                    JumpState::SelectTarget,
                    JumpState::Cancelled,
                ]
                &&& r.jumped_to is None
                &&& opt_view(r.message) == Some(JUMP_CANCELLED_MESSAGE@)
            },
            None => false,
        },
    }
}

/// Runs a jump and reports the stages it went through, the captured screen,
/// the answers read, the cell jumped to and the message shown. On success
/// the report follows from the capture and the answers as
/// [`report_follows`] states, and its stages form one of the paths of
/// [`is_jump_path`].
pub fn run_jump_report<B: TmuxBackend>(backend: &B, request: JumpRequest) -> (report: Result<
    JumpReport,
    BackendError,
>)
    ensures
        report matches Ok(r) ==> is_jump_path(r.transitions@) && r.state == r.transitions@.last(),
        report matches Ok(r) ==> report_follows(request.initial_char, request.config.options, r),
{
    let mut machine = JumpMachine::new();
    machine.enter(JumpState::ResolvePane);
    let pane_id = match request.pane_id {
        Some(pane_id) => pane_id,
        None => match backend.current_pane_id() {
            Ok(id) => id,
            Err(e) => return Err(e),
        },
    };
    let pane = match backend.pane_state(pane_id.as_str()) {
        Ok(p) => p,
        Err(e) => return Err(e),
    };
    match backend.cancel_copy_mode(&pane) {
        Ok(()) => {},
        Err(e) => return Err(e),
    }
    // Leaving copy mode moves the cursor back to where the application left
    // it, which the screen restore parks it on; the rest of the snapshot,
    // the scrolled region included, stays as it was taken.
    let pane = if pane.in_copy_mode {
        match backend.pane_state(pane_id.as_str()) {
            Ok(fresh) => with_cursor_from(pane, &fresh),
            Err(e) => return Err(e),
        }
    } else {
        pane
    };
    machine.enter(JumpState::CaptureScreen);
    let screen = match backend.capture_visible_pane(&pane) {
        Ok(s) => s,
        Err(e) => return Err(e),
    };
    let config = request.config;
    let ghost ps = spec_positions(
        screen@,
        request.initial_char,
        config.options.match_mode,
        config.options.case_sensitive,
    );
    let positions = match plan_after_capture(request.initial_char, screen.as_str(), &config.options) {
        CapturePlan::NoMatch(message) => {
            match backend.display_message(message.as_str()) {
                Ok(()) => {},
                Err(e) => return Err(e),
            }
            let report = machine.finish(
                JumpState::Cancelled,
                screen,
                Vec::new(),
                None,
                Some(message),
            );
            assert(report.transitions@ =~= seq![
                JumpState::ResolvePane,
                JumpState::CaptureScreen,
                JumpState::Cancelled,
            ]);
            return Ok(report);
        },
        CapturePlan::AutoJump(target) => {
            machine.enter(JumpState::JumpToTarget);
            match backend.jump_to_position(&pane, target) {
                Ok(()) => {},
                Err(e) => return Err(e),
            }
            let report = machine.finish(JumpState::Done, screen, Vec::new(), Some(target), None);
            assert(report.transitions@ =~= seq![
                JumpState::ResolvePane,
                JumpState::CaptureScreen,
                JumpState::JumpToTarget,
                JumpState::Done,
            ]);
            return Ok(report);
        },
        CapturePlan::Select(positions) => positions,
    };
    machine.enter(JumpState::SelectTarget);
    let count = positions.len();
    let ghost keys_view = config.options.label_keys@;
    let ghost auto_jump = config.options.auto_jump;
    let selected = with_recovered_screen(
        backend,
        &pane,
        (|| -> (selected: Result<Selection, BackendError>)
            ensures
                selected matches Ok(sel) ==> spec_run(
                    count as nat,
                    keys_view,
                    auto_jump,
                    answers_view(sel.answers@),
                ) == Some(picked_view(sel.picked)),
                selected matches Ok(sel) ==> (sel.picked matches Some(i) ==> i < count),
            {
                select_position_index(
                    backend,
                    &pane,
                    screen.as_str(),
                    positions.as_slice(),
                    &config,
                )
            }),
    );
    let selection = match selected {
        Ok(s) => s,
        Err(e) => return Err(e),
    };
    let Selection { picked, answers, .. } = selection;
    let selected_index = match picked {
        Some(i) => i,
        None => {
            match backend.display_message(JUMP_CANCELLED_MESSAGE) {
                Ok(()) => {},
                Err(e) => return Err(e),
            }
            let report = machine.finish(
                JumpState::Cancelled,
                screen,
                answers,
                None,
                Some(string_from_str(JUMP_CANCELLED_MESSAGE)),
            );
            assert(report.transitions@ =~= seq![
                JumpState::ResolvePane,
                JumpState::CaptureScreen,
                JumpState::SelectTarget,
                JumpState::Cancelled,
            ]);
            return Ok(report);
        },
    };
    machine.enter(JumpState::JumpToTarget);
    let target = jump_target_for_char_index(screen.as_str(), positions[selected_index]);
    match backend.jump_to_position(&pane, target) {
        Ok(()) => {},
        Err(e) => return Err(e),
    }
    let report = machine.finish(JumpState::Done, screen, answers, Some(target), None);
    assert(report.transitions@ =~= seq![
        JumpState::ResolvePane,
        JumpState::CaptureScreen,
        JumpState::SelectTarget,
        JumpState::JumpToTarget,
        JumpState::Done,
    ]);
    Ok(report)
}

/// Runs a jump and returns the state it ended in: `Done` or `Cancelled`.
pub fn run_jump<B: TmuxBackend>(backend: &B, request: JumpRequest) -> (state: Result<
    JumpState,
    BackendError,
>)
    ensures
        state matches Ok(s) ==> s == JumpState::Done || s == JumpState::Cancelled,
{
    match run_jump_report(backend, request) {
        Ok(report) => Ok(report.state),
        Err(e) => Err(e),
    }
}

} // verus!
