//! The pane registry and id lifecycle, the focus-cycling state machine, the
//! prompt's transient log line, and the key-dispatch decisions: the mutable
//! core that the event loop drives.

use vstd::prelude::*;
use vstd::string::StringExecFns;

use crate::layout::{
    children_leaves, children_without, layout_leaves, lemma_seq_without_add, node_children,
    rect_wf, seq_without,
    unwrap_prompt_from_layout, wrap_layout_with_prompt, ComponentId, Flex, LaidComponentId,
    LaidComponentIds, Layout, LayoutDirection, Rect, FIRST_PANE_ID, PROMPT_HEIGHT, PROMPT_ID,
    SPLASH_ID,
};
use crate::themes::{spec_theme_label, theme_label, THEME_COUNT};

verus! {

/// A key event, as far as the core's decisions are concerned. Control
/// chords carry the global shortcuts; everything else flows through to the
/// focused pane and the prompt.
#[derive(Clone, Copy, PartialEq, Eq, Structural, Debug)]
pub enum Key {
    Char(char),
    Ctrl(char),
    Alt(char),
    Esc,
    Backspace,
    Other,
}

#[derive(Clone, Copy, PartialEq, Eq, Structural, Debug)]
pub enum CycleFocus {
    Next,
    Previous,
}

/// Errors of the core: a highlight theme absent from the loaded theme set
/// is its own named error. File-open failures are not errors of the core —
/// they are logged on the prompt's transient line and recovered from.
#[derive(Debug)]
pub enum Error {
    MissingSyntectTheme(String),
}

/// What the caller must do with a key after the core has applied its own
/// transitions: stop the loop, nothing further, or forward it (first to the
/// pane named here, if any, then always to the prompt).
#[derive(Debug)]
pub enum KeyDispatch {
    Quit,
    Handled,
    Forward { pane: Option<ComponentId> },
}

/// How the attempt to open a file ended, as handed back by the platform:
/// the pane could be built, the path was unreadable for want of permission,
/// or some other failure.
#[derive(Debug)]
pub enum FileOpenOutcome {
    Opened,
    PermissionDenied(String),
    Failed(String),
}

/// The prompt's orchestration-visible state: whether it is capturing
/// command input, and its transient log line, cleared on every key press.
pub struct Prompt {
    pub active: bool,
    pub log: Option<String>,
}

impl Prompt {
    pub fn new() -> (p: Prompt)
        ensures
            p.active == false,
            p.log is None,
    {
        Prompt { active: false, log: None }
    }

    pub fn clear_log(&mut self)
        ensures
            final(self).log is None,
            final(self).active == old(self).active,
    {
        self.log = None;
    }

    pub fn log_error(&mut self, message: String)
        ensures
            final(self).log == Some(message),
            final(self).active == old(self).active,
    {
        self.log = Some(message);
    }

    pub fn is_active(&self) -> (r: bool)
        ensures
            r == self.active,
    {
        self.active
    }

    pub fn set_active(&mut self, active: bool)
        ensures
            final(self).active == active,
            final(self).log == old(self).log,
    {
        self.active = active;
    }
}

/// The mathematical state of the core: registry ids in content order
/// (newest leftmost), focus, id counter, active theme, and the prompt's
/// state.
#[verifier::ext_equal]
pub struct EditorModel {
    pub panes: Seq<ComponentId>,
    pub focus: Option<ComponentId>,
    pub next_component_id: int,
    pub theme_index: int,
    pub prompt_active: bool,
    pub log: Option<Seq<char>>,
}

/// The core state: the registry of live pane ids (in content order, newest
/// first), the layout tree, the id counter, the focus, the prompt state,
/// the active theme, and the loaded highlight themes.
pub struct Editor {
    pub components: Vec<ComponentId>,
    pub layout: Layout,
    pub laid_components: LaidComponentIds,
    pub next_component_id: ComponentId,
    pub focus: Option<ComponentId>,
    pub prompt: Prompt,
    pub theme_index: usize,
    pub syntax_theme_set: syntect::highlighting::ThemeSet,
}

impl View for Editor {
    type V = EditorModel;

    open spec fn view(&self) -> EditorModel {
        EditorModel {
            panes: self.components@,
            focus: self.focus,
            next_component_id: self.next_component_id as int,
            theme_index: self.theme_index as int,
            prompt_active: self.prompt.active,
            log: match self.prompt.log {
                Some(s) => Some(s@),
                None => None,
            },
        }
    }
}

/// The layout child that holds one pane.
pub open spec fn pane_child(id: ComponentId) -> crate::layout::LayoutNodeFlex {
    crate::layout::LayoutNodeFlex { node: Layout::Component(id), flex: Flex::Stretched(1) }
}

/// One layout child per registry id, in order.
pub open spec fn pane_children(ids: Seq<ComponentId>) -> Seq<crate::layout::LayoutNodeFlex> {
    ids.map_values(|id: ComponentId| pane_child(id))
}

pub open spec fn ids_as_ints(ids: Seq<ComponentId>) -> Seq<int> {
    ids.map_values(|id: ComponentId| id as int)
}

/// The content subtree in canonical form: the splash leaf when no pane is
/// live, else a horizontal node with one stretched leaf per live pane.
pub open spec fn canonical_content(content: Layout, ids: Seq<ComponentId>) -> bool {
    if ids.len() == 0 {
        content == Layout::Component(SPLASH_ID)
    } else {
        &&& content matches Layout::Node(n)
        &&& n.direction == LayoutDirection::Horizontal
        &&& n.children@ == pane_children(ids)
    }
}

/// The whole viewport in canonical form: the content subtree stretched
/// above the one-row prompt leaf.
pub open spec fn canonical_wrapped(l: Layout, ids: Seq<ComponentId>) -> bool {
    &&& l matches Layout::Node(n)
    &&& n.direction == LayoutDirection::Vertical
    &&& n.children@.len() == 2
    &&& n.children@[0].flex == Flex::Stretched(1)
    &&& canonical_content(n.children@[0].node, ids)
    &&& n.children@[1] == (crate::layout::LayoutNodeFlex {
        node: Layout::Component(PROMPT_ID),
        flex: Flex::Fixed(PROMPT_HEIGHT),
    })
}

/// `s` with every occurrence of `id` removed, order kept.
pub open spec fn ids_without(s: Seq<ComponentId>, id: ComponentId) -> Seq<ComponentId>
    decreases s,
{
    if s.len() == 0 {
        Seq::empty()
    } else if s.last() == id {
        ids_without(s.drop_last(), id)
    } else {
        ids_without(s.drop_last(), id).push(s.last())
    }
}

/// Where focus moves: among the given ids (the non-reserved laid panes in
/// ascending traversal order) the position of the current focus — position
/// zero when focus is empty or stale — steps by one, wrapping at both ends;
/// no ids at all empties the focus.
pub open spec fn spec_cycle(
    ids: Seq<ComponentId>,
    focus: Option<ComponentId>,
    direction: CycleFocus,
) -> Option<ComponentId> {
    if ids.len() == 0 {
        None
    } else {
        let idx: int = match focus {
            Some(f) => if ids.contains(f) {
                ids.index_of(f)
            } else {
                0
            },
            None => 0,
        };
        let n = ids.len() as int;
        let next: int = match direction {
            CycleFocus::Next => if idx + 1 == n {
                0
            } else {
                idx + 1
            },
            CycleFocus::Previous => if idx == 0 {
                n - 1
            } else {
                idx - 1
            },
        };
        Some(ids[next])
    }
}

pub open spec fn theme_changed_log(i: int) -> Seq<char> {
    "Theme changed to "@ + spec_theme_label(i)
}

pub open spec fn new_file_log() -> Seq<char> {
    "[New file]"@
}

pub open spec fn perm_denied_log(path: Seq<char>) -> Seq<char> {
    "Permission denied while opening "@ + path
}

impl Editor {
    /// Every reachable state keeps this shape: the layout is the canonical
    /// wrapping of the registry ids, ids are strictly decreasing (newest
    /// leftmost), all non-reserved and below the id counter, focus names a
    /// live pane or nothing, and the theme index is in range.
    pub open spec fn wf(self) -> bool {
        &&& canonical_wrapped(self.layout, self.components@)
        &&& forall|i: int, j: int|
            0 <= i < j < self.components@.len() ==> #[trigger] self.components@[i]
                > #[trigger] self.components@[j]
        &&& forall|i: int|
            0 <= i < self.components@.len() ==> FIRST_PANE_ID <= #[trigger] self.components@[i]
                && self.components@[i] < self.next_component_id
        &&& FIRST_PANE_ID <= self.next_component_id
        &&& (self.focus matches Some(f) ==> self.components@.contains(f))
        &&& self.theme_index < THEME_COUNT
    }

    pub fn new(syntax_theme_set: syntect::highlighting::ThemeSet) -> (e: Editor)
        ensures
            e.wf(),
            e@.panes == Seq::<ComponentId>::empty(),
            e@.focus is None,
            e@.next_component_id == FIRST_PANE_ID,
            e@.theme_index == 0,
            e@.prompt_active == false,
            e@.log is None,
    {
        Editor {
            components: Vec::new(),
            layout: wrap_layout_with_prompt(None),
            laid_components: Vec::new(),
            next_component_id: FIRST_PANE_ID,
            focus: None,
            prompt: Prompt::new(),
            theme_index: 0,
            syntax_theme_set,
        }
    }

    /// Registers a new pane: allocates the next id, inserts the pane's leaf
    /// at the left of the content, and takes focus only when nothing was
    /// focused before.
    pub fn add_component(&mut self) -> (id: ComponentId)
        requires
            old(self).wf(),
            old(self).next_component_id + 1 < usize::MAX,
        ensures
            final(self).wf(),
            id == old(self).next_component_id,
            final(self)@.panes == seq![id] + old(self)@.panes,
            final(self)@.next_component_id == old(self)@.next_component_id + 1,
            final(self)@.focus == (if old(self)@.focus is None {
                Some(id)
            } else {
                old(self)@.focus
            }),
            final(self)@.theme_index == old(self)@.theme_index,
            final(self)@.prompt_active == old(self)@.prompt_active,
            final(self)@.log == old(self)@.log,
            final(self).syntax_theme_set == old(self).syntax_theme_set,
    {
        let ghost pre = *self;
        let component_id = self.next_component_id;
        self.next_component_id = self.next_component_id + 1;
        self.components.insert(0, component_id);
        if self.focus.is_none() {
            self.focus = Some(component_id);
        }
        let mut layout: Layout = Layout::Component(PROMPT_ID);
        core::mem::swap(&mut self.layout, &mut layout);
        let content = unwrap_prompt_from_layout(layout).unwrap();
        let added = content.add_left(component_id, Flex::Stretched(1));
        proof {
            lemma_add_then_drop_splash(pre.components@, component_id, added);
        }
        let new_content = added.remove_component_id(SPLASH_ID).unwrap();
        self.layout = wrap_layout_with_prompt(Some(new_content));
        proof {
            let now = self.components@;
            assert(now =~= seq![component_id] + pre.components@);
            assert(forall|i: int|
                0 <= i < now.len() ==> FIRST_PANE_ID <= #[trigger] now[i] && now[i]
                    < self.next_component_id);
            assert forall|i: int, j: int| 0 <= i < j < now.len() implies #[trigger] now[i]
                > #[trigger] now[j] by {
                if i == 0 {
                    assert(now[j] == pre.components@[j - 1]);
                } else {
                    assert(now[i] == pre.components@[i - 1]);
                    assert(now[j] == pre.components@[j - 1]);
                }
            }
            match self.focus {
                Some(f) => {
                    if f != component_id {
                        assert(pre.components@.contains(f));
                        let j = choose|j: int|
                            0 <= j < pre.components@.len() && pre.components@[j] == f;
                        assert(now[j + 1] == f);
                        assert(now.contains(f));
                    } else {
                        assert(now[0] == f);
                        assert(now.contains(f));
                    }
                },
                None => {},
            }
        }
        component_id
    }

    /// Recomputes the laid components for the given viewport: one entry per
    /// layout leaf, in traversal order, traversal numbers counted from one.
    pub fn lay_components(&mut self, frame: Rect)
        requires
            old(self).wf(),
            rect_wf(frame),
        ensures
            final(self).components == old(self).components,
            final(self).layout == old(self).layout,
            final(self).next_component_id == old(self).next_component_id,
            final(self).focus == old(self).focus,
            final(self).prompt == old(self).prompt,
            final(self).theme_index == old(self).theme_index,
            final(self).syntax_theme_set == old(self).syntax_theme_set,
            final(self).wf(),
            final(self).laid_components@.len() == layout_leaves(old(self).layout).len(),
            forall|j: int|
                0 <= j < final(self).laid_components@.len() ==> {
                    &&& (#[trigger] final(self).laid_components@[j]).id as int == layout_leaves(
                        old(self).layout,
                    )[j]
                    &&& final(self).laid_components@[j].frame_id == 1 + j
                    &&& final(self).laid_components@[j].frame == crate::layout::laid_rects(
                        old(self).layout,
                        frame,
                    )[j]
                },
    {
        proof {
            lemma_canonical_leaves(self.layout, self.components@);
            lemma_decreasing_len_bound(self.components@, self.next_component_id);
        }
        self.laid_components.clear();
        let mut counter: usize = 1;
        self.layout.compute(frame, &mut counter, &mut self.laid_components);
    }

    /// Moves focus to the next or previous pane in ascending traversal
    /// order, wrapping at the ends; with no live pane the focus empties.
    #[verifier::loop_isolation(false)]
    pub fn cycle_focus(&mut self, frame: Rect, direction: CycleFocus)
        requires
            old(self).wf(),
            rect_wf(frame),
        ensures
            final(self).wf(),
            final(self)@.focus == spec_cycle(old(self)@.panes, old(self)@.focus, direction),
            final(self)@.panes == old(self)@.panes,
            final(self)@.next_component_id == old(self)@.next_component_id,
            final(self)@.theme_index == old(self)@.theme_index,
            final(self)@.prompt_active == old(self)@.prompt_active,
            final(self)@.log == old(self)@.log,
            final(self).layout == old(self).layout,
            final(self).syntax_theme_set == old(self).syntax_theme_set,
    {
        proof {
            lemma_canonical_leaves(self.layout, self.components@);
        }
        self.lay_components(frame);
        let ghost ids = self.components@;
        let ghost nn = ids.len() as int;
        let mut panes: Vec<LaidComponentId> = Vec::new();
        let mut i: usize = 0;
        while i < self.laid_components.len()
            invariant
                i <= self.laid_components@.len(),
                panes@.len() == (if i as int <= nn {
                    i as int
                } else {
                    nn
                }),
                forall|k: int| 0 <= k < panes@.len() ==> panes@[k] == self.laid_components@[k],
            decreases self.laid_components@.len() - i,
        {
            let laid = self.laid_components[i];
            if laid.id >= FIRST_PANE_ID {
                panes.push(laid);
            }
            i = i + 1;
        }
        proof {
            assert(panes@.len() == nn);
            assert(forall|k: int|
                0 <= k < nn ==> (#[trigger] panes@[k]).id == self.components@[k]);
        }
        let n = panes.len();
        if n == 0 {
            self.focus = None;
        } else {
            let mut index: usize = 0;
            let mut found = false;
            let focus_opt = self.focus;
            match focus_opt {
                Some(f) => {
                    let mut j: usize = 0;
                    while j < n
                        invariant
                            j <= n,
                            !found ==> index == 0,
                            !found ==> forall|k: int| 0 <= k < j ==> panes@[k].id != f,
                            found ==> index < j <= n && panes@[index as int].id == f,
                        decreases n - j,
                    {
                        if !found && panes[j].id == f {
                            index = j;
                            found = true;
                        }
                        j = j + 1;
                    }
                    proof {
                        if found {
                            assert(ids.contains(f)) by {
                                assert(ids[index as int] == f);
                            }
                            let si = ids.index_of(f);
                            assert(0 <= si < nn && ids[si] == f);
                            if si < index as int {
                                assert(ids[si] > ids[index as int]);
                            } else if si > index as int {
                                assert(ids[index as int] > ids[si]);
                            }
                        } else {
                            if ids.contains(f) {
                                let w = choose|w: int| 0 <= w < nn && ids[w] == f;
                                assert(panes@[w].id == f);
                                assert(false);
                            }
                        }
                    }
                },
                None => {},
            }
            let next_index: usize = match direction {
                CycleFocus::Next => if index + 1 == n {
                    0
                } else {
                    index + 1
                },
                CycleFocus::Previous => if index == 0 {
                    n - 1
                } else {
                    index - 1
                },
            };
            let chosen = panes[next_index].id;
            proof {
                assert(ids.contains(chosen)) by {
                    assert(ids[next_index as int] == chosen);
                }
            }
            self.focus = Some(chosen);
        }
    }

    /// Closes the pane that holds focus: removes it from the registry and
    /// the layout (the splash placeholder returns when it was the last
    /// pane), then cycles focus to the previous pane in traversal order.
    /// Without a focused pane this is a no-op.
    #[verifier::loop_isolation(false)]
    pub fn close_focused(&mut self, frame: Rect)
        requires
            old(self).wf(),
            rect_wf(frame),
        ensures
            final(self).wf(),
            old(self)@.focus is None ==> *final(self) == *old(self),
            old(self)@.focus matches Some(f) ==> {
                &&& final(self)@.panes == ids_without(old(self)@.panes, f)
                &&& final(self)@.focus == spec_cycle(
                    ids_without(old(self)@.panes, f),
                    Some(f),
                    CycleFocus::Previous,
                )
                &&& final(self)@.next_component_id == old(self)@.next_component_id
                &&& final(self)@.theme_index == old(self)@.theme_index
                &&& final(self)@.prompt_active == old(self)@.prompt_active
                &&& final(self)@.log == old(self)@.log
            },
            final(self).syntax_theme_set == old(self).syntax_theme_set,
    {
        let focus_opt = self.focus;
        match focus_opt {
            Some(f) => {
                let ghost ids = self.components@;
                let mut layout: Layout = Layout::Component(PROMPT_ID);
                core::mem::swap(&mut self.layout, &mut layout);
                let content = unwrap_prompt_from_layout(layout).unwrap();
                proof {
                    lemma_remove_pane_canonical(ids, f, content);
                }
                let removed = content.remove_component_id(f);
                self.layout = wrap_layout_with_prompt(removed);
                let mut kept_ids: Vec<ComponentId> = Vec::new();
                let mut i: usize = 0;
                proof {
                    assert(ids.take(0) =~= Seq::<ComponentId>::empty());
                }
                while i < self.components.len()
                    invariant
                        i <= ids.len(),
                        self.components@ == ids,
                        kept_ids@ == ids_without(ids.take(i as int), f),
                    decreases ids.len() - i,
                {
                    let v = self.components[i];
                    proof {
                        lemma_ids_without_take_succ(ids, f, i as int);
                    }
                    if v != f {
                        kept_ids.push(v);
                    }
                    i = i + 1;
                }
                proof {
                    assert(ids.take(ids.len() as int) =~= ids);
                    lemma_ids_without_props(ids, f);
                }
                self.components = kept_ids;
                self.focus = None;
                proof {
                    let iw = ids_without(ids, f);
                    assert(self.components@ == iw);
                    assert forall|i: int|
                        0 <= i < iw.len() implies FIRST_PANE_ID <= #[trigger] iw[i] && iw[i]
                        < self.next_component_id by {
                        assert(ids.contains(iw[i]));
                        let j = choose|j: int| 0 <= j < ids.len() && ids[j] == iw[i];
                        assert(FIRST_PANE_ID <= ids[j] && ids[j] < self.next_component_id);
                    }
                    assert(pane_children(iw).len() == iw.len());
                    if iw.len() == 0 {
                        assert(canonical_content(Layout::Component(SPLASH_ID), iw));
                    }
                    assert(self.wf());
                    assert(!iw.contains(f)) by {
                        if iw.contains(f) {
                            let k = choose|k: int| 0 <= k < iw.len() && iw[k] == f;
                            assert(iw[k] != f);
                        }
                    }
                    assert(spec_cycle(iw, None, CycleFocus::Previous) == spec_cycle(
                        iw,
                        Some(f),
                        CycleFocus::Previous,
                    ));
                }
                self.cycle_focus(frame, CycleFocus::Previous);
            },
            None => {},
        }
    }

    /// Advances the active theme by one, wrapping after the last, and logs
    /// the change on the prompt's transient line.
    pub fn cycle_theme(&mut self)
        requires
            old(self).wf(),
        ensures
            final(self).wf(),
            final(self)@.theme_index == (if old(self)@.theme_index + 1 == THEME_COUNT {
                0int
            } else {
                old(self)@.theme_index + 1
            }),
            final(self)@.log == Some(theme_changed_log(final(self)@.theme_index)),
            final(self)@.panes == old(self)@.panes,
            final(self)@.focus == old(self)@.focus,
            final(self)@.next_component_id == old(self)@.next_component_id,
            final(self)@.prompt_active == old(self)@.prompt_active,
            final(self).layout == old(self).layout,
            final(self).syntax_theme_set == old(self).syntax_theme_set,
    {
        self.theme_index = (self.theme_index + 1) % THEME_COUNT;
        let label = theme_label(self.theme_index);
        let message = "Theme changed to ".to_owned().concat(label);
        self.prompt.log_error(message);
    }

    /// The ids that a completed job's payload is delivered to, in registry
    /// order: every live pane.
    #[verifier::loop_isolation(false)]
    pub fn completion_targets(&self) -> (r: Vec<ComponentId>)
        ensures
            r@ == self.components@,
    {
        let mut out: Vec<ComponentId> = Vec::new();
        let mut i: usize = 0;
        while i < self.components.len()
            invariant
                i <= self.components@.len(),
                out@ == self.components@.take(i as int),
            decreases self.components@.len() - i,
        {
            out.push(self.components[i]);
            proof {
                assert(self.components@.take(i + 1 as int) =~= self.components@.take(
                    i as int,
                ).push(self.components@[i as int]));
            }
            i = i + 1;
        }
        proof {
            assert(self.components@.take(self.components@.len() as int) =~= self.components@);
        }
        out
    }

    /// Whether a pane is drawn as focused: it holds focus and the prompt is
    /// not capturing input.
    pub fn is_component_focused(&self, id: ComponentId) -> (r: bool)
        ensures
            r == (self.focus == Some(id) && !self.prompt.active),
    {
        match self.focus {
            Some(f) => f == id && !self.prompt.is_active(),
            None => false,
        }
    }

    /// Applies one key press to the core. The quit chord stops everything
    /// before the log is touched; any other key first clears the prompt's
    /// transient line, then either performs its global shortcut
    /// (cycle-focus, close-focused-pane, cycle-theme) or is handed back for
    /// forwarding to the focused pane (when the prompt is inactive) and the
    /// prompt.
    pub fn on_key(&mut self, key: Key, frame: Rect) -> (r: KeyDispatch)
        requires
            old(self).wf(),
            rect_wf(frame),
        ensures
            final(self).wf(),
            final(self)@ == spec_on_key(old(self)@, key),
            r == spec_key_dispatch(old(self)@, key),
            final(self)@.next_component_id == old(self)@.next_component_id,
            final(self).syntax_theme_set == old(self).syntax_theme_set,
            key != Key::Ctrl('q') ==> final(self).layout == old(self).layout,
            old(self)@.focus is None ==> final(self).layout == old(self).layout,
    {
        if let Key::Ctrl(c) = key {
            if c == 'c' {
                return KeyDispatch::Quit;
            }
        }
        self.prompt.clear_log();
        let ghost m1 = self@;
        let r = match key {
            Key::Ctrl('o') => {
                self.cycle_focus(frame, CycleFocus::Next);
                KeyDispatch::Handled
            },
            Key::Ctrl('q') => {
                self.close_focused(frame);
                KeyDispatch::Handled
            },
            Key::Ctrl('t') => {
                self.cycle_theme();
                KeyDispatch::Handled
            },
            _ => {
                let pane: Option<ComponentId> = if !self.prompt.is_active() {
                    self.focus
                } else {
                    None
                };
                KeyDispatch::Forward { pane }
            },
        };
        proof {
            assert(self@ =~= spec_on_key(old(self)@, key));
        }
        r
    }

    /// Ends opening a file, after the platform tried to build the pane. A
    /// built pane joins the registry and takes focus. A failure creates no
    /// pane and is recovered from: the permission message or the failure's
    /// own words go to the prompt's transient line.
    pub fn open_file_finish(&mut self, outcome: FileOpenOutcome) -> (r: Option<ComponentId>)
        requires
            old(self).wf(),
            outcome is Opened ==> old(self).next_component_id + 1 < usize::MAX,
        ensures
            final(self).wf(),
            r is Some <==> outcome is Opened,
            outcome is Opened ==> {
                &&& r == Some(old(self).next_component_id)
                &&& final(self)@.panes == seq![old(self).next_component_id] + old(self)@.panes
                &&& final(self)@.focus == Some(old(self).next_component_id)
                &&& final(self)@.next_component_id == old(self)@.next_component_id + 1
                &&& final(self)@.log == old(self)@.log
            },
            outcome matches FileOpenOutcome::PermissionDenied(p) ==> {
                &&& final(self)@.log == Some(perm_denied_log(p@))
                &&& final(self).layout == old(self).layout
            },
            outcome matches FileOpenOutcome::Failed(m) ==> {
                &&& final(self)@.log == Some(m@)
                &&& final(self).layout == old(self).layout
            },
            !(outcome is Opened) ==> {
                &&& final(self)@.panes == old(self)@.panes
                &&& final(self)@.focus == old(self)@.focus
                &&& final(self)@.next_component_id == old(self)@.next_component_id
            },
            final(self)@.theme_index == old(self)@.theme_index,
            final(self)@.prompt_active == old(self)@.prompt_active,
            final(self).syntax_theme_set == old(self).syntax_theme_set,
    {
        match outcome {
            FileOpenOutcome::Opened => {
                let id = self.add_component();
                self.focus = Some(id);
                proof {
                    assert(self.components@.contains(id)) by {
                        assert(self.components@[0] == id);
                    }
                }
                Some(id)
            },
            FileOpenOutcome::PermissionDenied(path) => {
                let message = "Permission denied while opening ".to_owned().concat(path.as_str());
                self.prompt.log_error(message);
                None
            },
            FileOpenOutcome::Failed(message) => {
                self.prompt.log_error(message);
                None
            },
        }
    }

    /// Logs a failure reported by a background job on the prompt's
    /// transient line; a failed job is not fatal.
    pub fn on_job_failure(&mut self, message: String)
        requires
            old(self).wf(),
        ensures
            final(self).wf(),
            final(self)@ == (EditorModel { log: Some(message@), ..old(self)@ }),
            final(self).layout == old(self).layout,
            final(self).syntax_theme_set == old(self).syntax_theme_set,
    {
        self.prompt.log_error(message);
        proof {
            assert(self@ =~= EditorModel { log: Some(message@), ..old(self)@ });
        }
    }
}

pub proof fn lemma_seq_without_none(s: Seq<int>, id: int)
    requires
        forall|i: int| 0 <= i < s.len() ==> #[trigger] s[i] != id,
    ensures
        seq_without(s, id) == s,
    decreases s.len(),
{
    if s.len() == 0 {
        assert(seq_without(s, id) =~= s);
    } else {
        let dl = s.drop_last();
        assert(forall|i: int| 0 <= i < dl.len() ==> #[trigger] dl[i] != id);
        lemma_seq_without_none(dl, id);
        assert(dl.push(s.last()) =~= s);
    }
}

/// law: in every well-formed state — hence after any sequence of add and
/// remove operations — the layout's non-reserved leaf ids are exactly the
/// live registry ids: equal as sequences in content order, and so equal as
/// sets.
pub proof fn lemma_layout_matches_registry(e: Editor)
    requires
        e.wf(),
    ensures
        seq_without(seq_without(layout_leaves(e.layout), PROMPT_ID as int), SPLASH_ID as int)
            == ids_as_ints(e@.panes),
        seq_without(
            seq_without(layout_leaves(e.layout), PROMPT_ID as int),
            SPLASH_ID as int,
        ).to_set() == ids_as_ints(e@.panes).to_set(),
{
    lemma_canonical_leaves(e.layout, e.components@);
    let ids = e.components@;
    if ids.len() == 0 {
        reveal_with_fuel(seq_without, 4);
        let leaves = seq![SPLASH_ID as int, PROMPT_ID as int];
        assert(leaves.drop_last() =~= seq![SPLASH_ID as int]);
        assert(seq![SPLASH_ID as int].drop_last() =~= Seq::<int>::empty());
        assert(seq_without(leaves, PROMPT_ID as int) =~= seq![SPLASH_ID as int]);
        assert(seq_without(seq![SPLASH_ID as int], SPLASH_ID as int) =~= Seq::<int>::empty());
        assert(ids_as_ints(ids) =~= Seq::<int>::empty());
    } else {
        let m = ids_as_ints(ids);
        lemma_seq_without_add(m, seq![PROMPT_ID as int], PROMPT_ID as int);
        crate::layout::lemma_seq_without_singleton(PROMPT_ID as int, PROMPT_ID as int);
        assert(forall|i: int| 0 <= i < m.len() ==> #[trigger] m[i] != PROMPT_ID as int);
        lemma_seq_without_none(m, PROMPT_ID as int);
        assert(seq_without(layout_leaves(e.layout), PROMPT_ID as int) =~= m);
        assert(forall|i: int| 0 <= i < m.len() ==> #[trigger] m[i] != SPLASH_ID as int);
        lemma_seq_without_none(m, SPLASH_ID as int);
    }
}

/// The splash placeholder stands in the content slot.
pub open spec fn splash_shown(e: Editor) -> bool {
    &&& e.layout is Node
    &&& node_children(e.layout).len() == 2
    &&& node_children(e.layout)[0].node == Layout::Component(SPLASH_ID)
}

/// law: removing the last pane restores the splash placeholder, and adding
/// a pane replaces it — the splash is shown exactly when no pane is live.
pub proof fn lemma_splash_iff_empty(e: Editor)
    requires
        e.wf(),
    ensures
        splash_shown(e) <==> e@.panes.len() == 0,
{
}

/// law: one cycle forward then one cycle back returns focus to the same
/// pane, from any valid focus among distinct ids, for any pane count of at
/// least one.
pub proof fn lemma_cycle_round_trip(ids: Seq<ComponentId>, f: ComponentId)
    requires
        ids.len() >= 1,
        ids.contains(f),
        forall|i: int, j: int| 0 <= i < j < ids.len() ==> ids[i] != ids[j],
    ensures
        spec_cycle(ids, spec_cycle(ids, Some(f), CycleFocus::Next), CycleFocus::Previous) == Some(
            f,
        ),
{
    let n = ids.len() as int;
    let idx = ids.index_of(f);
    assert(0 <= idx < n && ids[idx] == f);
    let nxt: int = if idx + 1 == n {
        0
    } else {
        idx + 1
    };
    let g = ids[nxt];
    assert(ids.contains(g)) by {
        assert(ids[nxt] == g);
    }
    let gi = ids.index_of(g);
    assert(0 <= gi < n && ids[gi] == g);
    if gi < nxt {
        assert(ids[gi] != ids[nxt]);
        assert(false);
    } else if gi > nxt {
        assert(ids[nxt] != ids[gi]);
        assert(false);
    }
}

/// law: focus cycling visits panes in ascending traversal number among the
/// non-reserved laid components, independent of the order in which their
/// ids were allocated: the laid entries carry strictly increasing traversal
/// numbers, their non-reserved prefix is exactly the registry sequence that
/// `spec_cycle` walks, and everything after that prefix is reserved.
pub proof fn lemma_cycle_order_is_traversal_order(e: Editor, laid: Seq<LaidComponentId>)
    requires
        e.wf(),
        laid.len() == layout_leaves(e.layout).len(),
        forall|j: int|
            0 <= j < laid.len() ==> (#[trigger] laid[j]).id as int == layout_leaves(e.layout)[j]
                && laid[j].frame_id == 1 + j,
    ensures
        forall|j: int, k: int|
            0 <= j < k < laid.len() ==> (#[trigger] laid[j]).frame_id < (#[trigger] laid[k]).frame_id,
        forall|j: int| 0 <= j < e@.panes.len() ==> (#[trigger] laid[j]).id == e@.panes[j],
        forall|j: int|
            e@.panes.len() <= j < laid.len() ==> (#[trigger] laid[j]).id < FIRST_PANE_ID,
{
    lemma_canonical_leaves(e.layout, e.components@);
}

pub proof fn lemma_children_without_none(cs: Seq<crate::layout::LayoutNodeFlex>, id: ComponentId)
    requires
        forall|i: int| 0 <= i < cs.len() ==> (#[trigger] cs[i]).node != Layout::Component(id),
    ensures
        children_without(cs, id) == cs,
    decreases cs.len(),
{
    if cs.len() == 0 {
        assert(children_without(cs, id) =~= cs);
    } else {
        let dl = cs.drop_last();
        assert(forall|i: int|
            0 <= i < dl.len() ==> (#[trigger] dl[i]).node != Layout::Component(id));
        lemma_children_without_none(dl, id);
        assert(dl.push(cs.last()) =~= cs);
    }
}

/// Removing an id from the registry sequence and removing its leaf from the
/// canonical content children agree.
pub proof fn lemma_children_without_map(ids: Seq<ComponentId>, f: ComponentId)
    ensures
        children_without(pane_children(ids), f) == pane_children(ids_without(ids, f)),
    decreases ids.len(),
{
    if ids.len() == 0 {
        assert(children_without(pane_children(ids), f) =~= pane_children(ids_without(ids, f)));
    } else {
        let dl = ids.drop_last();
        lemma_children_without_map(dl, f);
        assert(pane_children(ids).drop_last() =~= pane_children(dl));
        assert(pane_children(ids).last() == pane_child(ids.last()));
        if ids.last() == f {
            assert(ids_without(ids, f) == ids_without(dl, f));
        } else {
            assert(pane_child(ids.last()).node != Layout::Component(f));
            assert(pane_children(ids_without(dl, f)).push(pane_child(ids.last()))
                =~= pane_children(ids_without(dl, f).push(ids.last())));
        }
    }
}

pub proof fn lemma_ids_without_take_succ(s: Seq<ComponentId>, f: ComponentId, i: int)
    requires
        0 <= i < s.len(),
    ensures
        ids_without(s.take(i + 1), f) == (if s[i] == f {
            ids_without(s.take(i), f)
        } else {
            ids_without(s.take(i), f).push(s[i])
        }),
{
    let t = s.take(i + 1);
    assert(t.drop_last() =~= s.take(i));
    assert(t.last() == s[i]);
}

pub proof fn lemma_ids_without_props(s: Seq<ComponentId>, f: ComponentId)
    requires
        forall|i: int, j: int| 0 <= i < j < s.len() ==> #[trigger] s[i] > #[trigger] s[j],
    ensures
        ids_without(s, f).len() <= s.len(),
        forall|k: int|
            0 <= k < ids_without(s, f).len() ==> s.contains(#[trigger] ids_without(s, f)[k]),
        forall|i: int, j: int|
            0 <= i < j < ids_without(s, f).len() ==> #[trigger] ids_without(s, f)[i]
                > #[trigger] ids_without(s, f)[j],
        forall|k: int| 0 <= k < ids_without(s, f).len() ==> #[trigger] ids_without(s, f)[k] != f,
    decreases s.len(),
{
    if s.len() == 0 {
    } else {
        let dl = s.drop_last();
        assert(forall|i: int, j: int|
            0 <= i < j < dl.len() ==> #[trigger] dl[i] > #[trigger] dl[j]);
        lemma_ids_without_props(dl, f);
        let iw_dl = ids_without(dl, f);
        assert forall|k: int| 0 <= k < iw_dl.len() implies s.contains(#[trigger] iw_dl[k]) by {
            let j = choose|j: int| 0 <= j < dl.len() && dl[j] == iw_dl[k];
            assert(s[j] == iw_dl[k]);
        }
        if s.last() == f {
        } else {
            let iw = iw_dl.push(s.last());
            assert(s.contains(s.last())) by {
                assert(s[s.len() - 1] == s.last());
            }
            assert forall|k: int| 0 <= k < iw_dl.len() implies #[trigger] iw_dl[k] > s.last() by {
                let j = choose|j: int| 0 <= j < dl.len() && dl[j] == iw_dl[k];
                assert(s[j] == iw_dl[k]);
                assert(s[j] > s[s.len() - 1]);
            }
            assert(forall|i: int, j: int|
                0 <= i < j < iw.len() ==> #[trigger] iw[i] > #[trigger] iw[j]);
        }
    }
}

/// In a canonically wrapped layout the leaves are exactly the registry ids
/// in content order, then the reserved ids.
pub proof fn lemma_canonical_leaves(l: Layout, ids: Seq<ComponentId>)
    requires
        canonical_wrapped(l, ids),
    ensures
        layout_leaves(l) == (if ids.len() == 0 {
            seq![SPLASH_ID as int, PROMPT_ID as int]
        } else {
            ids_as_ints(ids) + seq![PROMPT_ID as int]
        }),
        layout_leaves(l).len() == (if ids.len() == 0 {
            2int
        } else {
            ids.len() as int + 1
        }),
{
    let cs2 = l->Node_0.children@;
    assert(cs2.drop_last() =~= seq![cs2[0]]);
    assert(seq![cs2[0]].drop_last() =~= Seq::<crate::layout::LayoutNodeFlex>::empty());
    assert(children_leaves(cs2) == children_leaves(seq![cs2[0]]) + layout_leaves(cs2[1].node));
    assert(children_leaves(seq![cs2[0]]) == children_leaves(
        Seq::<crate::layout::LayoutNodeFlex>::empty(),
    ) + layout_leaves(cs2[0].node));
    assert(layout_leaves(cs2[1].node) == seq![PROMPT_ID as int]);
    if ids.len() == 0 {
        assert(layout_leaves(cs2[0].node) == seq![SPLASH_ID as int]);
        assert(children_leaves(cs2) =~= seq![SPLASH_ID as int, PROMPT_ID as int]);
    } else {
        lemma_pane_children_leaves(ids);
        assert(layout_leaves(cs2[0].node) == ids_as_ints(ids));
        assert(children_leaves(cs2) =~= ids_as_ints(ids) + seq![PROMPT_ID as int]);
    }
}

pub proof fn lemma_pane_children_leaves(ids: Seq<ComponentId>)
    ensures
        children_leaves(pane_children(ids)) == ids_as_ints(ids),
    decreases ids.len(),
{
    if ids.len() == 0 {
        assert(children_leaves(pane_children(ids)) =~= ids_as_ints(ids));
    } else {
        let dl = ids.drop_last();
        lemma_pane_children_leaves(dl);
        assert(pane_children(ids).drop_last() =~= pane_children(dl));
        assert(pane_children(ids).last() == pane_child(ids.last()));
        assert(layout_leaves(pane_child(ids.last()).node) == seq![ids.last() as int]);
        assert(ids_as_ints(dl) + seq![ids.last() as int] =~= ids_as_ints(ids));
    }
}

/// A strictly decreasing sequence of non-reserved ids below `bound` cannot
/// be longer than `bound` less the reserved ids.
pub proof fn lemma_decreasing_len_bound(s: Seq<ComponentId>, bound: ComponentId)
    requires
        forall|i: int, j: int| 0 <= i < j < s.len() ==> #[trigger] s[i] > #[trigger] s[j],
        forall|i: int| 0 <= i < s.len() ==> FIRST_PANE_ID <= #[trigger] s[i] && s[i] < bound,
        FIRST_PANE_ID <= bound,
    ensures
        s.len() + FIRST_PANE_ID <= bound,
    decreases s.len(),
{
    if s.len() > 0 {
        let rest = s.skip(1);
        assert(forall|i: int| 0 <= i < rest.len() ==> rest[i] == s[i + 1]);
        assert(forall|i: int, j: int|
            0 <= i < j < rest.len() ==> #[trigger] rest[i] > #[trigger] rest[j]);
        assert(forall|i: int|
            0 <= i < rest.len() ==> FIRST_PANE_ID <= #[trigger] rest[i] && rest[i] < s[0]);
        lemma_decreasing_len_bound(rest, s[0]);
    }
}

/// The content after `add_left` of a fresh non-reserved id, once the splash
/// leaf is dropped, is the canonical content of the grown registry.
pub proof fn lemma_add_then_drop_splash(ids: Seq<ComponentId>, id: ComponentId, added: Layout)
    requires
        FIRST_PANE_ID <= id,
        forall|i: int| 0 <= i < ids.len() ==> FIRST_PANE_ID <= #[trigger] ids[i],
        added matches Layout::Node(n) && n.direction == LayoutDirection::Horizontal
            && n.children@ == (if ids.len() == 0 {
            seq![
                pane_child(id),
                crate::layout::LayoutNodeFlex {
                    node: Layout::Component(SPLASH_ID),
                    flex: Flex::Stretched(1),
                },
            ]
        } else {
            seq![pane_child(id)] + pane_children(ids)
        }),
    ensures
        crate::layout::is_flat_h(added),
        children_without(node_children(added), SPLASH_ID) == pane_children(seq![id] + ids),
        children_without(node_children(added), SPLASH_ID).len() > 0,
{
    let cs = node_children(added);
    if ids.len() == 0 {
        reveal_with_fuel(children_without, 3);
        let s1 = seq![pane_child(id)];
        assert(cs[0] == pane_child(id));
        assert(cs[1].node == Layout::Component(SPLASH_ID));
        assert(cs.drop_last() =~= s1);
        assert(s1.drop_last() =~= Seq::<crate::layout::LayoutNodeFlex>::empty());
        assert(s1.last() == pane_child(id));
        assert(pane_child(id).node != Layout::Component(SPLASH_ID));
        assert(children_without(cs, SPLASH_ID) == children_without(s1, SPLASH_ID));
        assert(children_without(s1, SPLASH_ID) == children_without(
            Seq::<crate::layout::LayoutNodeFlex>::empty(),
            SPLASH_ID,
        ).push(pane_child(id)));
        assert(children_without(s1, SPLASH_ID) =~= s1);
        assert(pane_children(seq![id] + ids) =~= s1);
    } else {
        assert(forall|i: int|
            0 <= i < cs.len() ==> (#[trigger] cs[i]).node != Layout::Component(SPLASH_ID)) by {
            assert(forall|i: int|
                0 <= i < pane_children(ids).len() ==> #[trigger] pane_children(ids)[i]
                    == pane_child(ids[i]));
        }
        lemma_children_without_none(cs, SPLASH_ID);
        assert(pane_children(seq![id] + ids) =~= seq![pane_child(id)] + pane_children(ids));
    }
    assert(forall|i: int| 0 <= i < cs.len() ==> (#[trigger] cs[i]).node is Component);
}

/// The pieces that closing a pane needs: the canonical content either is the
/// splash (no pane carries `f`) or is flat with children that filter to the
/// canonical children of the shrunk registry.
pub proof fn lemma_remove_pane_canonical(ids: Seq<ComponentId>, f: ComponentId, content: Layout)
    requires
        FIRST_PANE_ID <= f,
        canonical_content(content, ids),
    ensures
        ids.len() == 0 ==> content == Layout::Component(SPLASH_ID),
        ids.len() > 0 ==> crate::layout::is_flat_h(content) && children_without(
            node_children(content),
            f,
        ) == pane_children(ids_without(ids, f)),
{
    if ids.len() > 0 {
        assert(forall|i: int|
            0 <= i < pane_children(ids).len() ==> #[trigger] pane_children(ids)[i]
                == pane_child(ids[i]));
        lemma_children_without_map(ids, f);
    }
}

/// The state transition of one key press, over the model.
pub open spec fn spec_on_key(m: EditorModel, key: Key) -> EditorModel {
    if key == Key::Ctrl('c') {
        m
    } else {
        let m1 = EditorModel { log: None, ..m };
        if key == Key::Ctrl('o') {
            EditorModel { focus: spec_cycle(m1.panes, m1.focus, CycleFocus::Next), ..m1 }
        } else if key == Key::Ctrl('q') {
            match m1.focus {
                Some(f) => {
                    let panes2 = ids_without(m1.panes, f);
                    EditorModel {
                        panes: panes2,
                        focus: spec_cycle(panes2, Some(f), CycleFocus::Previous),
                        ..m1
                    }
                },
                None => m1,
            }
        } else if key == Key::Ctrl('t') {
            let ti = if m1.theme_index + 1 == THEME_COUNT {
                0int
            } else {
                m1.theme_index + 1
            };
            EditorModel { theme_index: ti, log: Some(theme_changed_log(ti)), ..m1 }
        } else {
            m1
        }
    }
}

/// What the caller must do with the key after `spec_on_key` has been
/// applied.
pub open spec fn spec_key_dispatch(m: EditorModel, key: Key) -> KeyDispatch {
    if key == Key::Ctrl('c') {
        KeyDispatch::Quit
    } else if key == Key::Ctrl('o') || key == Key::Ctrl('q') || key == Key::Ctrl('t') {
        KeyDispatch::Handled
    } else {
        KeyDispatch::Forward {
            pane: if !m.prompt_active {
                m.focus
            } else {
                None
            },
        }
    }
}

} // verus!
