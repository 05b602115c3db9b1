use multipane::editor::{CycleFocus, Editor, Error, FileOpenOutcome, Key, KeyDispatch};
use multipane::layout::{Layout, Position, Rect, Size, SPLASH_ID};
use syntect::highlighting::{Theme, ThemeSet};

fn frame() -> Rect {
    Rect::new(Position::new(0, 0), Size::new(80, 24))
}

fn editor() -> Editor {
    Editor::new(ThemeSet::new())
}

fn editor_with_default_theme() -> Editor {
    let mut themes = ThemeSet::new();
    themes
        .themes
        .insert("gruvbox-dark-soft".to_string(), Theme::default());
    Editor::new(themes)
}

fn live_pane_ids(e: &mut Editor) -> Vec<usize> {
    e.lay_components(frame());
    e.laid_components
        .iter()
        .filter(|laid| laid.id >= 2)
        .map(|laid| laid.id)
        .collect()
}

#[test]
fn add_component_allocates_ids_and_takes_focus_once() {
    let mut e = editor();
    let a = e.add_component();
    assert_eq!(a, 2);
    assert_eq!(e.focus, Some(2));
    let b = e.add_component();
    assert_eq!(b, 3);
    assert_eq!(e.focus, Some(2), "focus stays with the first pane");
    assert_eq!(e.components, vec![3, 2], "newest pane is leftmost");
}

#[test]
fn layout_leaves_match_registry_after_adds_and_removes() {
    let mut e = editor();
    let a = e.add_component();
    let _b = e.add_component();
    let c = e.add_component();
    assert_eq!(live_pane_ids(&mut e), e.components);
    e.focus = Some(a);
    e.close_focused(frame());
    assert_eq!(live_pane_ids(&mut e), e.components);
    e.focus = Some(c);
    e.close_focused(frame());
    assert_eq!(live_pane_ids(&mut e), e.components);
    e.close_focused(frame());
    assert_eq!(live_pane_ids(&mut e), e.components);
    assert!(e.components.is_empty());
}

#[test]
fn removing_last_pane_restores_splash_and_adding_replaces_it() {
    let mut e = editor();
    e.add_component();
    e.close_focused(frame());
    assert!(e.components.is_empty());
    assert_eq!(e.focus, None);
    match &e.layout {
        Layout::Node(root) => match &root.children[0].node {
            Layout::Component(id) => assert_eq!(*id, SPLASH_ID),
            _ => panic!("expected the splash placeholder back"),
        },
        _ => panic!("expected the wrapped root"),
    }
    let id = e.add_component();
    match &e.layout {
        Layout::Node(root) => match &root.children[0].node {
            Layout::Node(content) => match &content.children[0].node {
                Layout::Component(leaf) => assert_eq!(*leaf, id),
                _ => panic!("expected a pane leaf"),
            },
            _ => panic!("expected a horizontal content node"),
        },
        _ => panic!("expected the wrapped root"),
    }
}

#[test]
fn cycle_next_then_previous_returns_to_start() {
    let mut e = editor();
    e.add_component();
    e.add_component();
    e.add_component();
    for start in [2usize, 3, 4] {
        e.focus = Some(start);
        e.cycle_focus(frame(), CycleFocus::Next);
        e.cycle_focus(frame(), CycleFocus::Previous);
        assert_eq!(e.focus, Some(start));
    }
}

#[test]
fn cycle_follows_layout_order_not_allocation_order() {
    let mut e = editor();
    let a = e.add_component();
    let b = e.add_component();
    let c = e.add_component();
    // Panes were allocated a, b, c but are laid newest-first: c, b, a.
    assert_eq!(e.components, vec![c, b, a]);
    e.focus = Some(c);
    e.cycle_focus(frame(), CycleFocus::Next);
    assert_eq!(e.focus, Some(b));
    e.cycle_focus(frame(), CycleFocus::Next);
    assert_eq!(e.focus, Some(a));
    e.cycle_focus(frame(), CycleFocus::Next);
    assert_eq!(e.focus, Some(c), "cycling wraps around");
}

#[test]
fn cycling_with_no_panes_empties_focus() {
    let mut e = editor();
    e.cycle_focus(frame(), CycleFocus::Next);
    assert_eq!(e.focus, None);
}

#[test]
fn cycle_theme_wraps_after_full_round() {
    let mut e = editor();
    assert_eq!(e.theme_index, 0);
    e.cycle_theme();
    assert_eq!(e.theme_index, 1);
    assert_eq!(
        e.prompt.log.as_deref(),
        Some("Theme changed to gruvbox-mocha")
    );
    e.cycle_theme();
    e.cycle_theme();
    assert_eq!(e.theme_index, 0, "three cycles return to the start");
}

#[test]
fn key_dispatch_follows_precedence() {
    let mut e = editor();
    e.add_component();
    assert!(matches!(
        e.on_key(Key::Ctrl('c'), frame()),
        KeyDispatch::Quit
    ));
    assert!(matches!(
        e.on_key(Key::Ctrl('t'), frame()),
        KeyDispatch::Handled
    ));
    assert_eq!(e.theme_index, 1);
    match e.on_key(Key::Char('x'), frame()) {
        KeyDispatch::Forward { pane } => assert_eq!(pane, Some(2)),
        _ => panic!("plain keys are forwarded"),
    }
    e.prompt.set_active(true);
    match e.on_key(Key::Char('x'), frame()) {
        KeyDispatch::Forward { pane } => assert_eq!(pane, None, "active prompt intercepts keys"),
        _ => panic!("plain keys are forwarded"),
    }
}

#[test]
fn close_shortcut_removes_focused_pane() {
    let mut e = editor();
    e.add_component();
    e.add_component();
    e.on_key(Key::Ctrl('q'), frame());
    assert_eq!(e.components, vec![3]);
    assert_eq!(e.focus, Some(3));
}

#[test]
fn every_key_clears_the_transient_log() {
    let mut e = editor();
    e.on_job_failure("boom".to_string());
    assert_eq!(e.prompt.log.as_deref(), Some("boom"));
    e.on_key(Key::Char('x'), frame());
    assert_eq!(e.prompt.log, None);
}

#[test]
fn opening_missing_file_logs_new_file_and_creates_pane() {
    let mut e = editor_with_default_theme();
    let prepared = e.open_file_prepare(false);
    assert!(prepared.is_ok());
    assert_eq!(e.prompt.log.as_deref(), Some("[New file]"));
    let opened = e.open_file_finish(FileOpenOutcome::Opened);
    assert_eq!(opened, Some(2));
    assert_eq!(e.components, vec![2]);
    assert_eq!(e.focus, Some(2));
}

#[test]
fn permission_denied_logs_and_creates_no_pane() {
    let mut e = editor_with_default_theme();
    let prepared = e.open_file_prepare(true);
    assert!(prepared.is_ok());
    assert_eq!(e.prompt.log, None);
    let outcome = FileOpenOutcome::PermissionDenied("/etc/shadow".to_string());
    let opened = e.open_file_finish(outcome);
    assert_eq!(opened, None);
    assert_eq!(
        e.prompt.log.as_deref(),
        Some("Permission denied while opening /etc/shadow")
    );
    assert!(e.components.is_empty());
}

#[test]
fn missing_theme_is_a_named_error() {
    let mut e = editor();
    match e.open_file_prepare(true) {
        Err(Error::MissingSyntectTheme(name)) => assert_eq!(name, "gruvbox-dark-soft"),
        _ => panic!("expected the missing-theme error"),
    }
}

#[test]
fn other_open_failures_are_logged_and_recoverable() {
    let mut e = editor_with_default_theme();
    let opened = e.open_file_finish(FileOpenOutcome::Failed("disk on fire".to_string()));
    assert_eq!(opened, None, "no pane is created");
    assert_eq!(e.prompt.log.as_deref(), Some("disk on fire"));
    assert!(e.components.is_empty());
    assert_eq!(e.focus, None);
}

#[test]
fn job_failures_are_logged_not_fatal() {
    let mut e = editor();
    e.on_job_failure("job went sideways".to_string());
    assert_eq!(e.prompt.log.as_deref(), Some("job went sideways"));
}

#[test]
fn completion_targets_cover_every_live_pane_in_registry_order() {
    let mut e = editor();
    e.add_component();
    e.add_component();
    e.add_component();
    assert_eq!(e.completion_targets(), vec![4, 3, 2]);
}

#[test]
fn focus_flag_respects_prompt() {
    let mut e = editor();
    e.add_component();
    assert!(e.is_component_focused(2));
    assert!(!e.is_component_focused(3));
    e.prompt.set_active(true);
    assert!(!e.is_component_focused(2));
}
