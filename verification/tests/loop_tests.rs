use multipane::editor::{Editor, Key};
use multipane::jobs::{apply_recv_step, drain_completions, RecvStep};
use multipane::layout::{Position, Rect, Size};
use multipane::orchestrator::{
    burst_cut, process_iteration, CompletionOutcome, IterationStep, LoopState,
    IDLE_SLEEP_MS, REDRAW_LATENCY_MS, SUSTAINED_IO_LATENCY_MS,
};
use multipane::themes::{theme_key, theme_label, THEME_COUNT};
use syntect::highlighting::ThemeSet;

fn frame() -> Rect {
    Rect::new(Position::new(0, 0), Size::new(80, 24))
}

fn editor() -> Editor {
    Editor::new(ThemeSet::new())
}

#[test]
fn timing_constants_match_the_documented_budget() {
    assert_eq!(REDRAW_LATENCY_MS, 6);
    assert_eq!(SUSTAINED_IO_LATENCY_MS, 100);
    assert_eq!(IDLE_SLEEP_MS, 1);
}

#[test]
fn step_redraws_when_dirty_and_interval_passed() {
    let mut state = LoopState { dirty: true, last_drawn_ms: 0 };
    let step = state.step(false, 10);
    assert_eq!(step, IterationStep::Redraw);
    assert!(!state.dirty);
    assert_eq!(state.last_drawn_ms, 10);
}

#[test]
fn step_sleeps_out_the_interval_when_not_due() {
    let mut state = LoopState { dirty: true, last_drawn_ms: 10 };
    assert_eq!(state.step(false, 12), IterationStep::Sleep { ms: 4 });
    assert!(state.dirty, "nothing was drawn, the change is still pending");

    let mut clean = LoopState { dirty: false, last_drawn_ms: 10 };
    assert_eq!(clean.step(false, 12), IterationStep::Sleep { ms: 4 });
}

#[test]
fn step_only_pauses_under_sustained_input() {
    let mut state = LoopState { dirty: true, last_drawn_ms: 10 };
    assert_eq!(state.step(true, 12), IterationStep::Pause);
    let mut due = LoopState { dirty: true, last_drawn_ms: 0 };
    assert_eq!(
        due.step(true, 100),
        IterationStep::Redraw,
        "sustained input never delays a redraw that is due"
    );
}

#[test]
fn burst_is_cut_exactly_at_the_window() {
    assert!(!burst_cut(0, 99));
    assert!(burst_cut(0, 100));
    assert!(burst_cut(40, 1000));
}

#[test]
fn long_key_burst_coalesces_into_one_redraw() {
    let mut e = editor();
    let mut state = LoopState { dirty: false, last_drawn_ms: 0 };
    let completions: Vec<CompletionOutcome> = Vec::new();
    let keys = vec![Key::Char('a'); 64];
    let mut redraws = 0;
    let step = process_iteration(&mut e, &mut state, &completions, &keys, frame(), true, 200);
    if step == IterationStep::Redraw {
        redraws += 1;
    }
    assert_eq!(redraws, 1, "sixty-four keys, one redraw");
    let none: Vec<Key> = Vec::new();
    let again = process_iteration(&mut e, &mut state, &completions, &none, frame(), false, 200);
    assert_ne!(again, IterationStep::Redraw, "nothing left to draw");
}

#[test]
fn all_events_of_an_iteration_apply_before_the_redraw() {
    let mut e = editor();
    let mut state = LoopState { dirty: false, last_drawn_ms: 0 };
    let completions = vec![
        CompletionOutcome::Failure("first job failed".to_string()),
        CompletionOutcome::Failure("second job failed".to_string()),
    ];
    let keys = vec![Key::Ctrl('t'), Key::Ctrl('t'), Key::Char('x')];
    let step = process_iteration(&mut e, &mut state, &completions, &keys, frame(), false, 500);
    assert_eq!(step, IterationStep::Redraw, "five events, one redraw after all of them");
    assert_eq!(e.theme_index, 2, "both theme keys were applied");
    assert_eq!(
        e.prompt.log, None,
        "the trailing key cleared the completion failures' log line"
    );
}

#[test]
fn shortcuts_inside_a_burst_apply_in_order() {
    let mut e = editor();
    e.add_component();
    e.add_component();
    let mut state = LoopState { dirty: false, last_drawn_ms: 0 };
    let completions: Vec<CompletionOutcome> = Vec::new();
    // Cycle focus twice, then close: the pane closed is the one focus
    // landed on after both cycles.
    let keys = vec![Key::Ctrl('o'), Key::Ctrl('o'), Key::Ctrl('q')];
    let step = process_iteration(&mut e, &mut state, &completions, &keys, frame(), false, 50);
    assert_eq!(step, IterationStep::Redraw);
    assert_eq!(e.components, vec![3], "focus had cycled back to the first pane");
}

#[test]
fn completion_failures_surface_on_the_prompt() {
    let mut e = editor();
    let mut state = LoopState { dirty: false, last_drawn_ms: 0 };
    let completions = vec![CompletionOutcome::Failure("no such task".to_string())];
    let keys: Vec<Key> = Vec::new();
    process_iteration(&mut e, &mut state, &completions, &keys, frame(), false, 500);
    assert_eq!(e.prompt.log.as_deref(), Some("no such task"));
}

#[test]
fn drain_collects_ready_messages_in_order() {
    let (tx, rx) = crossbeam_channel::unbounded();
    tx.send(10u64).unwrap();
    tx.send(20).unwrap();
    tx.send(30).unwrap();
    let mut out = Vec::new();
    let disconnected = drain_completions(&rx, &mut out, usize::MAX);
    assert!(!disconnected);
    assert_eq!(out, vec![10, 20, 30]);
}

#[test]
fn each_channel_outcome_is_applied_as_specified() {
    let mut out: Vec<u32> = vec![7];
    let (stop, fatal, received) = apply_recv_step(&mut out, RecvStep::Got(9));
    assert_eq!((stop, fatal, received), (false, false, true));
    assert_eq!(out, vec![7, 9], "the message lands after everything drained before it");
    let (stop, fatal, received) = apply_recv_step(&mut out, RecvStep::Empty);
    assert_eq!((stop, fatal, received), (true, false, false));
    let (stop, fatal, received) = apply_recv_step(&mut out, RecvStep::Disconnected);
    assert_eq!((stop, fatal, received), (true, true, false));
    assert_eq!(out, vec![7, 9], "only a message changes the drained list");
}

#[test]
fn drain_reports_a_hung_up_pool() {
    let (tx, rx) = crossbeam_channel::unbounded();
    tx.send(1u8).unwrap();
    drop(tx);
    let mut out = Vec::new();
    let disconnected = drain_completions(&rx, &mut out, usize::MAX);
    assert!(disconnected);
    assert_eq!(out, vec![1]);
}

#[test]
fn theme_table_is_fixed() {
    assert_eq!(THEME_COUNT, 3);
    assert_eq!(theme_label(0), "gruvbox-dark-soft");
    assert_eq!(theme_label(1), "gruvbox-mocha");
    assert_eq!(theme_label(2), "solarized-dark");
    assert_eq!(theme_key(0), "gruvbox-dark-soft");
    assert_eq!(theme_key(1), "base16-mocha.dark");
    assert_eq!(theme_key(2), "Solarized (dark)");
}
