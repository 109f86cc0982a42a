use std::cell::RefCell;
use std::collections::VecDeque;

use tmux_dart::config::{EnvValues, JumpConfig};
use tmux_dart::flow::{
    after_capture, key_index_for_input, plan_after_capture, run_jump, run_jump_report,
    select_position_index, selection_step, CaptureDecision, CapturePlan, JumpRequest, JumpState, SelectionStep,
    JUMP_CANCELLED_MESSAGE,
};
use tmux_dart::jump::{JumpTarget, LabelKeys};
use tmux_dart::tmux::{BackendError, PaneState, TmuxBackend};

#[derive(Default)]
struct FakeBackend {
    screen: String,
    alternate_on: bool,
    prompts: RefCell<VecDeque<Option<char>>>,
    writes: RefCell<Vec<String>>,
    jumped_to: RefCell<Option<usize>>,
    jump_targets: RefCell<Vec<JumpTarget>>,
    messages: RefCell<Vec<String>>,
    starts_in_copy_mode: bool,
    pane_reads: RefCell<usize>,
    captured_scroll: RefCell<Option<usize>>,
}

impl FakeBackend {
    fn with_prompts(prompts: impl IntoIterator<Item = char>) -> Self {
        Self {
            screen: String::from("qone qtwo qthree qfour"),
            prompts: RefCell::new(prompts.into_iter().map(Some).collect()),
            ..Self::default()
        }
    }

    fn with_prompt_results(prompts: impl IntoIterator<Item = Option<char>>) -> Self {
        Self {
            screen: String::from("qone qtwo qthree qfour"),
            prompts: RefCell::new(prompts.into_iter().collect()),
            ..Self::default()
        }
    }

    fn with_screen(mut self, screen: &str) -> Self {
        self.screen = screen.to_owned();
        self
    }
}

impl TmuxBackend for FakeBackend {
    fn current_pane_id(&self) -> Result<String, BackendError> {
        Ok(String::from("%0"))
    }

    fn pane_state(&self, pane_id: &str) -> Result<PaneState, BackendError> {
        let first = *self.pane_reads.borrow() == 0;
        *self.pane_reads.borrow_mut() += 1;
        // A pane entered in copy mode is scrolled up by 3 with the copy-mode
        // cursor at (9, 9); after leaving it, the application cursor is (1, 2)
        // and the view is back at the bottom.
        let in_copy_mode = self.starts_in_copy_mode && first;
        Ok(PaneState {
            pane_id: pane_id.to_owned(),
            tty_path: String::from("/dev/null"),
            in_copy_mode,
            cursor_y: if in_copy_mode { 9 } else if self.starts_in_copy_mode { 2 } else { 0 },
            cursor_x: if in_copy_mode { 9 } else if self.starts_in_copy_mode { 1 } else { 0 },
            alternate_on: self.alternate_on,
            scroll_position: if in_copy_mode { 3 } else { 0 },
            pane_height: 24,
            history_size: 0,
        })
    }

    fn cancel_copy_mode(&self, _pane: &PaneState) -> Result<(), BackendError> {
        Ok(())
    }

    fn capture_visible_pane(&self, pane: &PaneState) -> Result<String, BackendError> {
        *self.captured_scroll.borrow_mut() = Some(pane.scroll_position);
        Ok(self.screen.clone())
    }

    fn capture_pane_with_escapes(&self, _pane_id: &str) -> Result<String, BackendError> {
        Ok(String::new())
    }

    fn write_to_tty(&self, _pane: &PaneState, content: &str) -> Result<(), BackendError> {
        self.writes.borrow_mut().push(content.to_owned());
        Ok(())
    }

    fn prompt_for_label_input(&self, _prompt: &str) -> Result<Option<String>, BackendError> {
        Ok(self
            .prompts
            .borrow_mut()
            .pop_front()
            .flatten()
            .map(String::from))
    }

    fn display_message(&self, message: &str) -> Result<(), BackendError> {
        self.messages.borrow_mut().push(message.to_owned());
        Ok(())
    }

    fn jump_to_position(&self, _pane: &PaneState, jump_to: JumpTarget) -> Result<(), BackendError> {
        *self.jumped_to.borrow_mut() = Some(jump_to.column);
        self.jump_targets.borrow_mut().push(jump_to);
        Ok(())
    }
}

fn request(initial_char: char) -> JumpRequest {
    JumpRequest {
        initial_char,
        pane_id: None,
        config: JumpConfig::from_values(EnvValues::default()),
    }
}

#[test]
fn jump_flow_selects_second_target_from_label_prompt() {
    let backend = FakeBackend::with_prompts(['f']);
    let config = JumpConfig::from_values(EnvValues::default());
    let report = run_jump_report(
        &backend,
        JumpRequest {
            initial_char: 'q',
            pane_id: None,
            config,
        },
    )
    .unwrap();

    assert_eq!(report.state, JumpState::Done);
    assert_eq!(
        report.transitions,
        vec![
            JumpState::ResolvePane,
            JumpState::CaptureScreen,
            JumpState::SelectTarget,
            JumpState::JumpToTarget,
            JumpState::Done,
        ]
    );
    assert_eq!(*backend.jumped_to.borrow(), Some(5));
    assert_eq!(backend.writes.borrow().len(), 3);
    assert!(
        backend
            .writes
            .borrow()
            .iter()
            .any(|write| write.contains('f'))
    );
    assert!(backend.messages.borrow().is_empty());
}

#[test]
fn jump_flow_auto_jumps_single_target_without_overlay_or_message() {
    let backend = FakeBackend::default().with_screen("only");
    let report = run_jump_report(&backend, request('o')).unwrap();

    assert_eq!(report.state, JumpState::Done);
    assert_eq!(
        report.transitions,
        vec![
            JumpState::ResolvePane,
            JumpState::CaptureScreen,
            JumpState::JumpToTarget,
            JumpState::Done,
        ]
    );
    assert_eq!(*backend.jumped_to.borrow(), Some(0));
    assert!(backend.writes.borrow().is_empty());
    assert!(backend.messages.borrow().is_empty());
}

#[test]
fn jump_flow_auto_jumps_to_non_word_target_in_default_word_mode() {
    let backend = FakeBackend::default().with_screen("a/b");
    let report = run_jump_report(&backend, request('/')).unwrap();

    assert_eq!(report.state, JumpState::Done);
    assert_eq!(
        report.transitions,
        vec![
            JumpState::ResolvePane,
            JumpState::CaptureScreen,
            JumpState::JumpToTarget,
            JumpState::Done,
        ]
    );
    assert_eq!(*backend.jumped_to.borrow(), Some(1));
    assert!(backend.writes.borrow().is_empty());
    assert!(backend.messages.borrow().is_empty());
}

#[test]
fn jump_flow_selects_non_word_target_through_overlay() {
    let backend = FakeBackend::with_prompts(['f']).with_screen("a/b/c");
    let report = run_jump_report(&backend, request('/')).unwrap();

    assert_eq!(report.state, JumpState::Done);
    assert_eq!(
        report.transitions,
        vec![
            JumpState::ResolvePane,
            JumpState::CaptureScreen,
            JumpState::SelectTarget,
            JumpState::JumpToTarget,
            JumpState::Done,
        ]
    );
    assert_eq!(*backend.jumped_to.borrow(), Some(3));
    assert!(!backend.writes.borrow().is_empty());
    assert!(backend.messages.borrow().is_empty());
}

#[test]
fn jump_flow_cancels_when_label_prompt_is_invalid() {
    let backend = FakeBackend::with_prompts(['x']);
    let report = run_jump_report(&backend, request('q')).unwrap();

    assert_eq!(report.state, JumpState::Cancelled);
    assert_eq!(
        report.transitions,
        vec![
            JumpState::ResolvePane,
            JumpState::CaptureScreen,
            JumpState::SelectTarget,
            JumpState::Cancelled,
        ]
    );
    assert_eq!(*backend.jumped_to.borrow(), None);
    assert_eq!(backend.writes.borrow().len(), 3);
    assert_eq!(
        backend.messages.borrow().as_slice(),
        ["tmux-dart: jump cancelled"]
    );
}

#[test]
fn jump_flow_emits_cancellation_message_when_label_prompt_is_dismissed() {
    let backend = FakeBackend::with_prompt_results([None]);
    let report = run_jump_report(&backend, request('q')).unwrap();

    assert_eq!(report.state, JumpState::Cancelled);
    assert_eq!(
        report.transitions,
        vec![
            JumpState::ResolvePane,
            JumpState::CaptureScreen,
            JumpState::SelectTarget,
            JumpState::Cancelled,
        ]
    );
    assert_eq!(*backend.jumped_to.borrow(), None);
    assert_eq!(backend.writes.borrow().len(), 3);
    assert_eq!(
        backend.messages.borrow().as_slice(),
        ["tmux-dart: jump cancelled"]
    );
}

#[test]
fn jump_flow_emits_no_match_message_when_no_targets_exist() {
    let backend = FakeBackend::default().with_screen("only");
    let report = run_jump_report(&backend, request('z')).unwrap();

    assert_eq!(report.state, JumpState::Cancelled);
    assert_eq!(
        report.transitions,
        vec![
            JumpState::ResolvePane,
            JumpState::CaptureScreen,
            JumpState::Cancelled,
        ]
    );
    assert!(backend.writes.borrow().is_empty());
    assert_eq!(*backend.jumped_to.borrow(), None);
    assert_eq!(
        backend.messages.borrow().as_slice(),
        ["tmux-dart: no matches for 'z'"]
    );
}

#[test]
fn jump_flow_narrows_recursively_through_two_key_labels() {
    // Eleven 'a' words: labels have two keys; 'f' picks the second group
    // (positions 9 and 10), then 'f' again picks the second of those.
    let screen = "a a a a a a a a a a a";
    let backend = FakeBackend::with_prompts(['f', 'f']).with_screen(screen);
    let report = run_jump_report(&backend, request('a')).unwrap();
    assert_eq!(report.state, JumpState::Done);
    assert_eq!(*backend.jumped_to.borrow(), Some(20));
    // enter, two overlays, restore
    assert_eq!(backend.writes.borrow().len(), 4);
}

#[test]
fn jump_flow_jumps_by_grid_cells_after_wide_characters() {
    let backend = FakeBackend::default().with_screen("あいう z\nx");
    let state = run_jump(&backend, request('z')).unwrap();
    assert_eq!(state, JumpState::Done);
    assert_eq!(
        backend.jump_targets.borrow().as_slice(),
        [JumpTarget { row: 0, column: 4 }]
    );
}

#[test]
fn jump_flow_repaints_a_saved_alternate_screen() {
    let mut backend = FakeBackend::with_prompts(['j']);
    backend.alternate_on = true;
    let report = run_jump_report(&backend, request('q')).unwrap();
    assert_eq!(report.state, JumpState::Done);
    let writes = backend.writes.borrow();
    assert_eq!(writes.len(), 3);
    assert_eq!(writes[0], "\u{1b}[r\u{1b}[2J\u{1b}[H");
    assert!(writes[2].starts_with("\u{1b}[0m\u{1b}[r\u{1b}[2J\u{1b}[H"));
    assert_eq!(*backend.jumped_to.borrow(), Some(0));
}

#[test]
fn capture_decisions_follow_the_match_count() {
    assert_eq!(after_capture(0, true), CaptureDecision::NoMatch);
    assert_eq!(after_capture(1, true), CaptureDecision::AutoJump);
    assert_eq!(after_capture(1, false), CaptureDecision::Select);
    assert_eq!(after_capture(2, true), CaptureDecision::Select);
}

#[test]
fn key_index_for_input_requires_exactly_one_key() {
    let keys = LabelKeys::default();
    assert_eq!(key_index_for_input(&keys, "j"), Some(0));
    assert_eq!(key_index_for_input(&keys, "a"), Some(8));
    assert_eq!(key_index_for_input(&keys, "x"), None);
    assert_eq!(key_index_for_input(&keys, "jf"), None);
    assert_eq!(key_index_for_input(&keys, ""), None);
}

#[test]
fn selection_steps_pick_narrow_or_cancel() {
    assert_eq!(selection_step(2, 1, 5, 9), SelectionStep::Chosen(2));
    assert_eq!(selection_step(6, 1, 5, 9), SelectionStep::Cancel);
    assert_eq!(selection_step(1, 2, 10, 9), SelectionStep::Narrow(9, 10));
    assert_eq!(selection_step(2, 2, 10, 9), SelectionStep::Cancel);
}

#[test]
fn every_position_is_reachable_by_its_label_keys() {
    // Twenty 'q' words with the nine default keys: two-key labels, first key
    // picks the group of nine, the next round labels the group anew.
    let keys = ['j', 'f', 'h', 'g', 'k', 'd', 'l', 's', 'a'];
    let screen = vec!["q"; 20].join(" ");
    for i in 0..20usize {
        let backend =
            FakeBackend::with_prompts([keys[i / 9], keys[i % 9]]).with_screen(&screen);
        let report = run_jump_report(&backend, request('q')).unwrap();
        assert_eq!(report.state, JumpState::Done, "position {i}");
        assert_eq!(*backend.jumped_to.borrow(), Some(2 * i), "position {i}");
    }
}

#[test]
fn a_lone_remaining_group_member_is_picked_without_a_second_key() {
    // Ten words: the second group holds only position 9, which auto-jump
    // picks as soon as the group is chosen.
    let screen = vec!["q"; 10].join(" ");
    let backend = FakeBackend::with_prompts(['f']).with_screen(&screen);
    let report = run_jump_report(&backend, request('q')).unwrap();
    assert_eq!(report.state, JumpState::Done);
    assert_eq!(*backend.jumped_to.borrow(), Some(18));
}

#[test]
fn capture_plans_name_the_message_the_cell_or_the_choices() {
    let options = JumpConfig::from_values(EnvValues::default()).options;
    assert_eq!(
        plan_after_capture('z', "only", &options),
        CapturePlan::NoMatch(String::from("tmux-dart: no matches for 'z'"))
    );
    assert_eq!(
        plan_after_capture('z', "top\nかき z", &options),
        CapturePlan::AutoJump(JumpTarget { row: 1, column: 3 })
    );
    assert_eq!(
        plan_after_capture('q', "qone qtwo", &options),
        CapturePlan::Select(vec![0, 5])
    );
    assert_eq!(JUMP_CANCELLED_MESSAGE, "tmux-dart: jump cancelled");
}

#[test]
fn selection_needs_no_prompt_for_zero_or_one_auto_jump_position() {
    let backend = FakeBackend::default();
    let pane = backend.pane_state("%0").unwrap();
    let config = JumpConfig::from_values(EnvValues::default());
    let none = select_position_index(&backend, &pane, "q", &[], &config).unwrap();
    assert_eq!((none.picked, none.answers.len()), (None, 0));
    let single = select_position_index(&backend, &pane, "q", &[0], &config).unwrap();
    assert_eq!((single.picked, single.answers.len()), (Some(0), 0));
    assert!(backend.writes.borrow().is_empty());
}

#[test]
fn reports_record_the_screen_answers_target_and_message() {
    let backend = FakeBackend::with_prompts(['f']);
    let report = run_jump_report(&backend, request('q')).unwrap();
    assert_eq!(report.screen, "qone qtwo qthree qfour");
    assert_eq!(report.answers, vec![Some(String::from("f"))]);
    assert_eq!(report.jumped_to, Some(JumpTarget { row: 0, column: 5 }));
    assert_eq!(report.message, None);

    let backend = FakeBackend::with_prompts(['x']);
    let report = run_jump_report(&backend, request('q')).unwrap();
    assert_eq!(report.answers, vec![Some(String::from("x"))]);
    assert_eq!(report.jumped_to, None);
    assert_eq!(report.message.as_deref(), Some("tmux-dart: jump cancelled"));

    let backend = FakeBackend::default().with_screen("only");
    let report = run_jump_report(&backend, request('z')).unwrap();
    assert!(report.answers.is_empty());
    assert_eq!(report.message.as_deref(), Some("tmux-dart: no matches for 'z'"));

    let backend = FakeBackend::default().with_screen("a/b");
    let report = run_jump_report(&backend, request('/')).unwrap();
    assert_eq!(report.jumped_to, Some(JumpTarget { row: 0, column: 1 }));
    assert_eq!(report.message, None);
}

#[test]
fn selection_returns_the_answers_it_read() {
    let screen = vec!["q"; 20].join(" ");
    let backend = FakeBackend::with_prompts(['h', 'f']).with_screen(&screen);
    let pane = backend.pane_state("%0").unwrap();
    let config = JumpConfig::from_values(EnvValues::default());
    let positions: Vec<usize> = (0..20).map(|i| 2 * i).collect();
    let sel = select_position_index(&backend, &pane, &screen, &positions, &config).unwrap();
    assert_eq!(sel.picked, Some(19));
    assert_eq!(
        sel.answers,
        vec![Some(String::from("h")), Some(String::from("f"))]
    );
}

#[test]
fn leaving_copy_mode_rereads_only_the_cursor() {
    let mut backend = FakeBackend::with_prompts(['j']);
    backend.alternate_on = true;
    backend.starts_in_copy_mode = true;
    let report = run_jump_report(&backend, request('q')).unwrap();
    assert_eq!(report.state, JumpState::Done);
    assert_eq!(*backend.pane_reads.borrow(), 2);
    // The capture keeps the scrolled region the user was looking at.
    assert_eq!(*backend.captured_scroll.borrow(), Some(3));
    // The restore parks the cursor where the application left it.
    let writes = backend.writes.borrow();
    assert!(writes[2].ends_with("\u{1b}[3;2H\u{1b}[0m"));
}
