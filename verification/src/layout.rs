//! The layout tree: a recursive description of how the viewport is split
//! among panes, and the computation of the concrete region of every pane
//! for one frame.

use vstd::prelude::*;

verus! {

/// Identifier of a pane. Two values are reserved: the prompt overlay and the
/// splash placeholder; real panes start above them and ids are never reused.
pub type ComponentId = usize;

pub const PROMPT_ID: ComponentId = 0;

pub const SPLASH_ID: ComponentId = 1;

pub const FIRST_PANE_ID: ComponentId = 2;

/// Height, in rows, of the prompt line at the bottom of the viewport.
pub const PROMPT_HEIGHT: usize = 1;

#[derive(Clone, Copy, PartialEq, Eq, Structural, Debug)]
pub struct Position {
    pub x: usize,
    pub y: usize,
}

#[derive(Clone, Copy, PartialEq, Eq, Structural, Debug)]
pub struct Size {
    pub width: usize,
    pub height: usize,
}

#[derive(Clone, Copy, PartialEq, Eq, Structural, Debug)]
pub struct Rect {
    pub origin: Position,
    pub size: Size,
}

impl Position {
    pub fn new(x: usize, y: usize) -> (r: Position)
        ensures
            r == (Position { x, y }),
    {
        Position { x, y }
    }
}

impl Size {
    pub fn new(width: usize, height: usize) -> (r: Size)
        ensures
            r == (Size { width, height }),
    {
        Size { width, height }
    }
}

impl Rect {
    pub fn new(origin: Position, size: Size) -> (r: Rect)
        ensures
            r == (Rect { origin, size }),
    {
        Rect { origin, size }
    }
}

/// A rectangle is well formed when its far corner still fits in the machine's
/// coordinate range.
pub open spec fn rect_wf(r: Rect) -> bool {
    &&& r.origin.x + r.size.width <= usize::MAX
    &&& r.origin.y + r.size.height <= usize::MAX
}

/// `inner` lies entirely inside `outer`.
pub open spec fn rect_within(inner: Rect, outer: Rect) -> bool {
    &&& outer.origin.x <= inner.origin.x
    &&& inner.origin.x + inner.size.width <= outer.origin.x + outer.size.width
    &&& outer.origin.y <= inner.origin.y
    &&& inner.origin.y + inner.size.height <= outer.origin.y + outer.size.height
}

/// Sizing rule for one child of a layout node: an exact extent along the
/// node's direction, or a weighted share of whatever space the fixed
/// children leave.
#[derive(Clone, Copy, PartialEq, Eq, Structural, Debug)]
pub enum Flex {
    Fixed(usize),
    Stretched(usize),
}

#[derive(Clone, Copy, PartialEq, Eq, Structural, Debug)]
pub enum LayoutDirection {
    Horizontal,
    Vertical,
}

pub struct LayoutNodeFlex {
    pub node: Layout,
    pub flex: Flex,
}

pub struct LayoutNode {
    pub direction: LayoutDirection,
    pub children: Vec<LayoutNodeFlex>,
}

pub enum Layout {
    Component(ComponentId),
    Node(LayoutNode),
}

/// A pane's id, its concrete region, and its traversal-order number for one
/// frame. The traversal number is assigned afresh on every layout
/// computation and is distinct from the pane id.
#[derive(Clone, Copy, PartialEq, Eq, Structural, Debug)]
pub struct LaidComponentId {
    pub id: ComponentId,
    pub frame: Rect,
    pub frame_id: usize,
}

pub type LaidComponentIds = Vec<LaidComponentId>;

/// The leaf ids of a layout, in depth-first order.
pub open spec fn layout_leaves(l: Layout) -> Seq<int>
    decreases l,
{
    match l {
        Layout::Component(id) => seq![id as int],
        Layout::Node(node) => children_leaves(node.children@),
    }
}

/// The leaf ids under a sequence of children, in order.
pub open spec fn children_leaves(cs: Seq<LayoutNodeFlex>) -> Seq<int>
    decreases cs,
{
    if cs.len() == 0 {
        Seq::empty()
    } else {
        children_leaves(cs.drop_last()) + layout_leaves(cs.last().node)
    }
}

/// The extent of `frame` along a node's direction.
pub open spec fn axis_total(direction: LayoutDirection, frame: Rect) -> int {
    if direction == LayoutDirection::Vertical {
        frame.size.height as int
    } else {
        frame.size.width as int
    }
}

/// The fixed extents of the first `i` children added up, saturating at the
/// machine limit.
pub open spec fn spec_fixed_total(cs: Seq<LayoutNodeFlex>, i: int) -> int
    decreases i,
{
    if i <= 0 {
        0
    } else {
        let prev = spec_fixed_total(cs, i - 1);
        match cs[i - 1].flex {
            Flex::Fixed(s) => if prev + s <= usize::MAX {
                prev + s
            } else {
                usize::MAX as int
            },
            Flex::Stretched(_) => prev,
        }
    }
}

/// The stretch weights of the first `i` children added up, saturating at
/// the machine limit.
pub open spec fn spec_share_total(cs: Seq<LayoutNodeFlex>, i: int) -> int
    decreases i,
{
    if i <= 0 {
        0
    } else {
        let prev = spec_share_total(cs, i - 1);
        match cs[i - 1].flex {
            Flex::Fixed(_) => prev,
            Flex::Stretched(w) => if prev + w <= usize::MAX {
                prev + w
            } else {
                usize::MAX as int
            },
        }
    }
}

/// What the fixed children leave over along the direction.
pub open spec fn spec_remaining(cs: Seq<LayoutNodeFlex>, direction: LayoutDirection, frame: Rect) -> int {
    let total = axis_total(direction, frame);
    let ft = spec_fixed_total(cs, cs.len() as int);
    if total > ft {
        total - ft
    } else {
        0
    }
}

/// The extent one unit of stretch weight receives.
pub open spec fn spec_stretch_unit(cs: Seq<LayoutNodeFlex>, direction: LayoutDirection, frame: Rect) -> int {
    let s = spec_share_total(cs, cs.len() as int);
    if s > 0 {
        spec_remaining(cs, direction, frame) / s
    } else {
        0
    }
}

/// The extent child `i` asks for along the direction: its fixed extent, or
/// its weight's worth of stretch units (saturating at the machine limit —
/// the frame edge clips it in any case).
pub open spec fn spec_desired(cs: Seq<LayoutNodeFlex>, i: int, direction: LayoutDirection, frame: Rect) -> int {
    match cs[i].flex {
        Flex::Fixed(s) => s as int,
        Flex::Stretched(w) => {
            let unit = spec_stretch_unit(cs, direction, frame);
            if w == 0 {
                0
            } else if unit <= usize::MAX as int / w as int {
                unit * w
            } else {
                usize::MAX as int
            }
        },
    }
}

/// A product stays within a limit when one factor is at most the limit
/// divided by the other.
pub proof fn lemma_mul_within_limit(a: int, b: int, m: int)
    requires
        0 <= a,
        1 <= b,
        0 <= m,
        a <= m / b,
    ensures
        a * b <= m,
{
    vstd::arithmetic::div_mod::lemma_fundamental_div_mod(m, b);
    vstd::arithmetic::mul::lemma_mul_inequality(a, m / b, b);
}

/// Where child `i` begins along the direction: earlier children's extents,
/// each clipped at the frame edge.
pub open spec fn spec_offset(cs: Seq<LayoutNodeFlex>, i: int, direction: LayoutDirection, frame: Rect) -> int
    decreases i,
{
    if i <= 0 {
        0
    } else {
        let o = spec_offset(cs, i - 1, direction, frame);
        let d = spec_desired(cs, i - 1, direction, frame);
        let avail = axis_total(direction, frame) - o;
        o + (if d < avail {
            d
        } else {
            avail
        })
    }
}

/// The extent child `i` actually receives: its wish, clipped to what is
/// left of the frame.
pub open spec fn spec_actual(cs: Seq<LayoutNodeFlex>, i: int, direction: LayoutDirection, frame: Rect) -> int {
    let o = spec_offset(cs, i, direction, frame);
    let d = spec_desired(cs, i, direction, frame);
    let avail = axis_total(direction, frame) - o;
    if d < avail {
        d
    } else {
        avail
    }
}

/// The exact region of child `i` of a node that splits `frame`.
pub open spec fn spec_child_frame(cs: Seq<LayoutNodeFlex>, i: int, direction: LayoutDirection, frame: Rect) -> Rect {
    if direction == LayoutDirection::Vertical {
        Rect {
            origin: Position {
                x: frame.origin.x,
                y: (frame.origin.y + spec_offset(cs, i, direction, frame)) as usize,
            },
            size: Size {
                width: frame.size.width,
                height: spec_actual(cs, i, direction, frame) as usize,
            },
        }
    } else {
        Rect {
            origin: Position {
                x: (frame.origin.x + spec_offset(cs, i, direction, frame)) as usize,
                y: frame.origin.y,
            },
            size: Size {
                width: spec_actual(cs, i, direction, frame) as usize,
                height: frame.size.height,
            },
        }
    }
}

/// The exact region of every leaf of `l` laid into `frame`, in traversal
/// order.
pub open spec fn laid_rects(l: Layout, frame: Rect) -> Seq<Rect>
    decreases l, 0int,
{
    match l {
        Layout::Component(_) => seq![frame],
        Layout::Node(node) => laid_rects_children(
            node.children@,
            node.children@.len() as int,
            node.direction,
            frame,
        ),
    }
}

/// The regions of the leaves under the first `i` children, in order.
pub open spec fn laid_rects_children(
    cs: Seq<LayoutNodeFlex>,
    i: int,
    direction: LayoutDirection,
    frame: Rect,
) -> Seq<Rect>
    decreases cs, i,
{
    if i <= 0 || i > cs.len() {
        Seq::empty()
    } else {
        laid_rects_children(cs, i - 1, direction, frame) + laid_rects(
            cs[i - 1].node,
            spec_child_frame(cs, i - 1, direction, frame),
        )
    }
}

pub proof fn lemma_children_leaves_take_succ(cs: Seq<LayoutNodeFlex>, i: int)
    requires
        0 <= i < cs.len(),
    ensures
        children_leaves(cs.take(i + 1)) == children_leaves(cs.take(i)) + layout_leaves(
            cs[i].node,
        ),
{
    let t = cs.take(i + 1);
    assert(t.drop_last() =~= cs.take(i));
    assert(t.last() == cs[i]);
}

pub proof fn lemma_children_leaves_split(cs: Seq<LayoutNodeFlex>, i: int)
    requires
        0 <= i <= cs.len(),
    ensures
        children_leaves(cs) == children_leaves(cs.take(i)) + children_leaves(cs.skip(i)),
    decreases cs.len(),
{
    if i == cs.len() {
        assert(cs.take(i) =~= cs);
        assert(cs.skip(i) =~= Seq::<LayoutNodeFlex>::empty());
        assert(children_leaves(cs.take(i)) + children_leaves(cs.skip(i)) =~= children_leaves(cs));
    } else {
        let dl = cs.drop_last();
        lemma_children_leaves_split(dl, i);
        assert(dl.take(i) =~= cs.take(i));
        assert(dl.skip(i) =~= cs.skip(i).drop_last());
        assert(cs.skip(i).last() == cs.last());
        assert(children_leaves(cs.take(i)) + (children_leaves(cs.skip(i).drop_last())
            + layout_leaves(cs.skip(i).last().node)) =~= (children_leaves(cs.take(i))
            + children_leaves(cs.skip(i).drop_last())) + layout_leaves(cs.last().node));
    }
}

/// `s` with every occurrence of `id` removed, order kept.
pub open spec fn seq_without(s: Seq<int>, id: int) -> Seq<int>
    decreases s,
{
    if s.len() == 0 {
        Seq::empty()
    } else if s.last() == id {
        seq_without(s.drop_last(), id)
    } else {
        seq_without(s.drop_last(), id).push(s.last())
    }
}

/// `cs` with every child that is exactly the leaf of `id` removed, order kept.
pub open spec fn children_without(cs: Seq<LayoutNodeFlex>, id: ComponentId) -> Seq<LayoutNodeFlex>
    decreases cs,
{
    if cs.len() == 0 {
        Seq::empty()
    } else if cs.last().node == Layout::Component(id) {
        children_without(cs.drop_last(), id)
    } else {
        children_without(cs.drop_last(), id).push(cs.last())
    }
}

pub proof fn lemma_seq_without_add(a: Seq<int>, b: Seq<int>, id: int)
    ensures
        seq_without(a + b, id) == seq_without(a, id) + seq_without(b, id),
    decreases b.len(),
{
    if b.len() == 0 {
        assert(a + b =~= a);
        assert(seq_without(a, id) + seq_without(b, id) =~= seq_without(a, id));
    } else {
        lemma_seq_without_add(a, b.drop_last(), id);
        assert((a + b).drop_last() =~= a + b.drop_last());
        assert((a + b).last() == b.last());
        if b.last() != id {
            assert(seq_without(a, id) + seq_without(b.drop_last(), id).push(b.last())
                =~= (seq_without(a, id) + seq_without(b.drop_last(), id)).push(b.last()));
        }
    }
}

pub proof fn lemma_seq_without_singleton(v: int, id: int)
    ensures
        v == id ==> seq_without(seq![v], id) == Seq::<int>::empty(),
        v != id ==> seq_without(seq![v], id) == seq![v],
{
    let s = seq![v];
    assert(s.drop_last() =~= Seq::<int>::empty());
    if v != id {
        assert(seq_without(s.drop_last(), id).push(v) =~= seq![v]);
    }
}

impl Layout {
    /// Builds a vertical split of the given children.
    pub fn vertical(first: LayoutNodeFlex, second: LayoutNodeFlex) -> (r: Layout)
        ensures
            r matches Layout::Node(n) && n.direction == LayoutDirection::Vertical
                && n.children@ =~= seq![first, second],
    {
        let children: Vec<LayoutNodeFlex> = vec![first, second];
        Layout::Node(LayoutNode { direction: LayoutDirection::Vertical, children })
    }

    /// Traverses the tree depth first and appends one laid component per
    /// leaf. Along a node's direction, fixed children receive their exact
    /// extent first (clipped when space runs out) and the remaining space is
    /// divided among the stretched children in whole units per stretch
    /// weight; every region stays inside
    /// `frame`, and traversal numbers continue from `*frame_id`, one per
    /// leaf, strictly increasing.
    #[verifier::loop_isolation(false)]
    pub fn compute(&self, frame: Rect, frame_id: &mut usize, output: &mut Vec<LaidComponentId>)
        requires
            rect_wf(frame),
            *old(frame_id) + layout_leaves(*self).len() <= usize::MAX,
        ensures
            final(output)@.len() == old(output)@.len() + layout_leaves(*self).len(),
            forall|k: int| 0 <= k < old(output)@.len() ==> final(output)@[k] == old(output)@[k],
            forall|j: int|
                old(output)@.len() <= j < final(output)@.len() ==> {
                    &&& (#[trigger] final(output)@[j]).id as int == layout_leaves(*self)[j - old(
                        output,
                    )@.len()]
                    &&& final(output)@[j].frame_id == *old(frame_id) + (j - old(output)@.len())
                    &&& rect_wf(final(output)@[j].frame)
                    &&& rect_within(final(output)@[j].frame, frame)
                },
            *final(frame_id) == *old(frame_id) + layout_leaves(*self).len(),
            laid_rects(*self, frame).len() == layout_leaves(*self).len(),
            forall|j: int|
                old(output)@.len() <= j < final(output)@.len()
                    ==> (#[trigger] final(output)@[j]).frame == laid_rects(*self, frame)[j - old(
                    output,
                )@.len()],
        decreases *self,
    {
        match self {
            Layout::Component(id) => {
                output.push(LaidComponentId { id: *id, frame, frame_id: *frame_id });
                *frame_id = *frame_id + 1;
            },
            Layout::Node(node) => {
                let children = &node.children;
                let n = children.len();
                let ghost cs = children@;
                let ghost dir = node.direction;
                let vertical = matches!(node.direction, LayoutDirection::Vertical);
                let total: usize = if vertical {
                    frame.size.height
                } else {
                    frame.size.width
                };
                // First pass: add up the fixed extents and count the
                // stretched children.
                let mut fixed_total: usize = 0;
                let mut share_total: usize = 0;
                let mut i: usize = 0;
                while i < n
                    invariant
                        i <= n,
                        n == cs.len(),
                        fixed_total as int == spec_fixed_total(cs, i as int),
                        share_total as int == spec_share_total(cs, i as int),
                    decreases n - i,
                {
                    match children[i].flex {
                        Flex::Fixed(s) => {
                            fixed_total = if fixed_total <= usize::MAX - s {
                                fixed_total + s
                            } else {
                                usize::MAX
                            };
                        },
                        Flex::Stretched(w) => {
                            share_total = if share_total <= usize::MAX - w {
                                share_total + w
                            } else {
                                usize::MAX
                            };
                        },
                    }
                    i = i + 1;
                }
                let remaining: usize = if total > fixed_total {
                    total - fixed_total
                } else {
                    0
                };
                let unit: usize = if share_total > 0 {
                    remaining / share_total
                } else {
                    0
                };
                // Second pass: assign each child its region, advancing an
                // offset along the direction and clipping at the frame edge.
                let ghost out0 = output@.len() as int;
                let ghost fid0 = *frame_id;
                let mut offset: usize = 0;
                let mut i: usize = 0;
                proof {
                    assert(cs.take(0) =~= Seq::<LayoutNodeFlex>::empty());
                    assert(total as int == axis_total(dir, frame));
                    assert(remaining as int == spec_remaining(cs, dir, frame));
                    assert(unit as int == spec_stretch_unit(cs, dir, frame));
                }
                while i < n
                    invariant
                        i <= n,
                        n == cs.len(),
                        children@ == cs,
                        rect_wf(frame),
                        total == if vertical {
                            frame.size.height
                        } else {
                            frame.size.width
                        },
                        offset <= total,
                        offset as int == spec_offset(cs, i as int, dir, frame),
                        fid0 + children_leaves(cs).len() <= usize::MAX,
                        layout_leaves(*self) == children_leaves(cs),
                        *frame_id == fid0 + children_leaves(cs.take(i as int)).len(),
                        output@.len() == out0 + children_leaves(cs.take(i as int)).len(),
                        laid_rects_children(cs, i as int, dir, frame).len() == children_leaves(
                            cs.take(i as int),
                        ).len(),
                        out0 == old(output)@.len(),
                        forall|k: int| 0 <= k < out0 ==> output@[k] == old(output)@[k],
                        forall|j: int|
                            out0 <= j < output@.len() ==> {
                                &&& (#[trigger] output@[j]).id as int == children_leaves(
                                    cs.take(i as int),
                                )[j - out0]
                                &&& output@[j].frame_id == fid0 + (j - out0)
                                &&& rect_wf(output@[j].frame)
                                &&& rect_within(output@[j].frame, frame)
                                &&& output@[j].frame == laid_rects_children(
                                    cs,
                                    i as int,
                                    dir,
                                    frame,
                                )[j - out0]
                            },
                    decreases n - i,
                {
                    let c = &children[i];
                    let desired: usize = match c.flex {
                        Flex::Fixed(s) => s,
                        Flex::Stretched(w) => {
                            if w == 0 {
                                0
                            } else if unit <= usize::MAX / w {
                                proof {
                                    lemma_mul_within_limit(
                                        unit as int,
                                        w as int,
                                        usize::MAX as int,
                                    );
                                }
                                unit * w
                            } else {
                                usize::MAX
                            }
                        },
                    };
                    let avail = total - offset;
                    let actual = if desired < avail {
                        desired
                    } else {
                        avail
                    };
                    let child_frame = if vertical {
                        Rect {
                            origin: Position { x: frame.origin.x, y: frame.origin.y + offset },
                            size: Size { width: frame.size.width, height: actual },
                        }
                    } else {
                        Rect {
                            origin: Position { x: frame.origin.x + offset, y: frame.origin.y },
                            size: Size { width: actual, height: frame.size.height },
                        }
                    };
                    proof {
                        lemma_children_leaves_split(cs, i as int);
                        lemma_children_leaves_split(cs, i as int + 1);
                        lemma_children_leaves_take_succ(cs, i as int);
                        broadcast use vstd::seq::axiom_seq_index_decreases;
                        broadcast use vstd::std_specs::vec::axiom_vec_decreases_to_view;

                        assert(*self == Layout::Node(*node));
                        assert(decreases_to!(*self => node.children));
                        assert(decreases_to!(node.children => node.children@));
                        assert(decreases_to!(node.children@ => node.children@[i as int]));
                        assert(decreases_to!(node.children@[i as int] => node.children@[
                            i as int].node));
                        assert(decreases_to!(*self => node.children@[i as int].node));
                        assert(desired as int == spec_desired(cs, i as int, dir, frame));
                        assert(actual as int == spec_actual(cs, i as int, dir, frame));
                        assert(child_frame == spec_child_frame(cs, i as int, dir, frame));
                    }
                    c.node.compute(child_frame, frame_id, output);
                    proof {
                        assert(laid_rects_children(cs, i as int + 1, dir, frame)
                            == laid_rects_children(cs, i as int, dir, frame) + laid_rects(
                            cs[i as int].node,
                            spec_child_frame(cs, i as int, dir, frame),
                        ));
                    }
                    offset = offset + actual;
                    i = i + 1;
                }
                proof {
                    assert(cs.take(n as int) =~= cs);
                    assert(laid_rects(*self, frame) == laid_rects_children(cs, n as int, dir, frame));
                }
            },
        }
    }

    /// Inserts a new pane leaf at the left edge: an existing horizontal node
    /// gains the leaf as its first child; any other layout is wrapped
    /// together with the leaf into a new horizontal node.
    pub fn add_left(self, id: ComponentId, flex: Flex) -> (r: Layout)
        ensures
            (self matches Layout::Node(n) && n.direction == LayoutDirection::Horizontal) ==> {
                &&& r matches Layout::Node(n2)
                &&& n2.direction == LayoutDirection::Horizontal
                &&& self matches Layout::Node(n) && n2.children@ == seq![
                    LayoutNodeFlex { node: Layout::Component(id), flex },
                ] + n.children@
            },
            !(self matches Layout::Node(n) && n.direction == LayoutDirection::Horizontal) ==> {
                &&& r matches Layout::Node(n2)
                &&& n2.direction == LayoutDirection::Horizontal
                &&& n2.children@ == seq![
                    LayoutNodeFlex { node: Layout::Component(id), flex },
                    LayoutNodeFlex { node: self, flex: Flex::Stretched(1) },
                ]
            },
    {
        let leaf = LayoutNodeFlex { node: Layout::Component(id), flex };
        match self {
            Layout::Node(node) => {
                match node.direction {
                    LayoutDirection::Horizontal => {
                        let LayoutNode { direction, mut children } = node;
                        children.insert(0, leaf);
                        Layout::Node(LayoutNode { direction, children })
                    },
                    LayoutDirection::Vertical => {
                        let other = Layout::Node(
                            LayoutNode {
                                direction: LayoutDirection::Vertical,
                                children: node.children,
                            },
                        );
                        let children: Vec<LayoutNodeFlex> = vec![
                            leaf,
                            LayoutNodeFlex { node: other, flex: Flex::Stretched(1) },
                        ];
                        Layout::Node(
                            LayoutNode { direction: LayoutDirection::Horizontal, children },
                        )
                    },
                }
            },
            Layout::Component(c) => {
                let children: Vec<LayoutNodeFlex> = vec![
                    leaf,
                    LayoutNodeFlex { node: Layout::Component(c), flex: Flex::Stretched(1) },
                ];
                Layout::Node(LayoutNode { direction: LayoutDirection::Horizontal, children })
            },
        }
    }
}

/// A horizontal node whose children are all leaves: the shape that the
/// editor's content subtree keeps while real panes are open.
pub open spec fn is_flat_h(l: Layout) -> bool {
    &&& l is Node
    &&& l->Node_0.direction == LayoutDirection::Horizontal
    &&& forall|i: int|
        0 <= i < l->Node_0.children@.len() ==> (#[trigger] l->Node_0.children@[i]).node is Component
}

pub open spec fn node_children(l: Layout) -> Seq<LayoutNodeFlex>
    recommends
        l is Node,
{
    l->Node_0.children@
}

/// Removes from `children` every leaf bearing `id`, dropping children whose
/// whole subtree goes away.
fn remove_from_children(children: Vec<LayoutNodeFlex>, id: ComponentId) -> (kept: Vec<
    LayoutNodeFlex,
>)
    ensures
        children_leaves(kept@) == seq_without(children_leaves(children@), id as int),
        children_leaves(kept@).len() == 0 ==> kept@.len() == 0,
        (forall|i: int|
            0 <= i < children@.len() ==> (#[trigger] children@[i]).node is Component) ==> kept@
            == children_without(children@, id),
    decreases children@,
{
    let mut rem = children;
    if rem.len() == 0 {
        proof {
            assert(children_leaves(rem@) =~= Seq::<int>::empty());
            assert(children_without(rem@, id) =~= Seq::<LayoutNodeFlex>::empty());
        }
        return rem;
    }
    let ghost cs = rem@;
    let c = rem.pop().unwrap();
    proof {
        broadcast use vstd::seq::axiom_seq_index_decreases;
        broadcast use vstd::seq::axiom_seq_subrange_decreases;

        assert(rem@ == cs.drop_last());
        assert(cs.drop_last() == cs.subrange(0, cs.len() - 1));
        assert(decreases_to!(cs => cs.subrange(0, cs.len() - 1)));
        assert(c == cs[cs.len() - 1]);
        assert(decreases_to!(cs => cs[cs.len() - 1]));
        assert(decreases_to!(cs[cs.len() - 1] => cs[cs.len() - 1].node));
    }
    let mut kept = remove_from_children(rem, id);
    let ghost flex = c.flex;
    let ghost rest_kept = kept@;
    let result = c.node.remove_component_id(id);
    proof {
        assert(children_leaves(cs) == children_leaves(cs.drop_last()) + layout_leaves(
            cs.last().node,
        ));
        lemma_seq_without_add(
            children_leaves(cs.drop_last()),
            layout_leaves(cs.last().node),
            id as int,
        );
    }
    match result {
        Some(l2) => {
            kept.push(LayoutNodeFlex { node: l2, flex: c.flex });
            proof {
                assert(kept@.drop_last() =~= rest_kept);
                assert(kept@.last() == (LayoutNodeFlex { node: l2, flex: c.flex }));
            }
        },
        None => {
            proof {
                assert(seq_without(layout_leaves(cs.last().node), id as int) =~= Seq::<
                    int,
                >::empty());
                assert(children_leaves(kept@) + seq_without(
                    layout_leaves(cs.last().node),
                    id as int,
                ) =~= children_leaves(kept@));
            }
        },
    }
    proof {
        if forall|i: int| 0 <= i < cs.len() ==> (#[trigger] cs[i]).node is Component {
            assert(forall|i: int|
                0 <= i < cs.drop_last().len() ==> (#[trigger] cs.drop_last()[i]).node
                    is Component);
            assert(c == LayoutNodeFlex { node: c.node, flex: c.flex });
        }
    }
    kept
}

impl Layout {
    /// Removes every leaf bearing `id` from the tree; nodes left without
    /// children are dropped, and `None` says that nothing at all remains.
    /// Removing an id that does not occur returns the tree unchanged.
    pub fn remove_component_id(self, id: ComponentId) -> (r: Option<Layout>)
        ensures
            r is None <==> seq_without(layout_leaves(self), id as int).len() == 0,
            r matches Some(l2) ==> layout_leaves(l2) == seq_without(layout_leaves(self), id as int)
                && layout_leaves(l2).len() >= 1,
            self matches Layout::Component(c) ==> r == (if c == id {
                None::<Layout>
            } else {
                Some(self)
            }),
            is_flat_h(self) ==> {
                let kept = children_without(node_children(self), id);
                ||| (kept.len() == 0 && r is None)
                ||| ({
                    &&& kept.len() > 0
                    &&& r matches Some(l2)
                    &&& l2 matches Layout::Node(n2)
                    &&& n2.direction == LayoutDirection::Horizontal
                    &&& n2.children@ == kept
                })
            },
        decreases self,
    {
        let ghost me = self;
        match self {
            Layout::Component(c) => {
                proof {
                    lemma_seq_without_singleton(c as int, id as int);
                }
                if c == id {
                    None
                } else {
                    Some(Layout::Component(c))
                }
            },
            Layout::Node(node) => {
                proof {
                    broadcast use vstd::std_specs::vec::axiom_vec_decreases_to_view;

                    assert(me == Layout::Node(node));
                    assert(decreases_to!(me => node.children));
                    assert(decreases_to!(node.children => node.children@));
                }
                let LayoutNode { direction, children } = node;
                let kept = remove_from_children(children, id);
                if kept.len() == 0 {
                    proof {
                        assert(children_leaves(kept@) =~= Seq::<int>::empty());
                    }
                    None
                } else {
                    Some(Layout::Node(LayoutNode { direction, children: kept }))
                }
            },
        }
    }
}

/// Wraps a content layout (or the splash placeholder when there is none)
/// above the one-row prompt leaf, the invariant shape of the whole viewport.
pub fn wrap_layout_with_prompt(layout: Option<Layout>) -> (r: Layout)
    ensures
        r matches Layout::Node(n) && n.direction == LayoutDirection::Vertical && n.children@.len()
            == 2 && n.children@[0] == (LayoutNodeFlex {
            node: match layout {
                Some(l) => l,
                None => Layout::Component(SPLASH_ID),
            },
            flex: Flex::Stretched(1),
        }) && n.children@[1] == (LayoutNodeFlex {
            node: Layout::Component(PROMPT_ID),
            flex: Flex::Fixed(PROMPT_HEIGHT),
        }),
{
    let content = match layout {
        Some(l) => l,
        None => Layout::Component(SPLASH_ID),
    };
    Layout::vertical(
        LayoutNodeFlex { node: content, flex: Flex::Stretched(1) },
        LayoutNodeFlex { node: Layout::Component(PROMPT_ID), flex: Flex::Fixed(PROMPT_HEIGHT) },
    )
}

/// Takes the content subtree back out of a prompt-wrapped layout; any other
/// shape has no content and yields `None`.
pub fn unwrap_prompt_from_layout(layout: Layout) -> (r: Option<Layout>)
    requires
        layout matches Layout::Node(n) ==> (n.direction == LayoutDirection::Vertical
            ==> n.children@.len() > 0),
    ensures
        layout matches Layout::Node(n) ==> (n.direction == LayoutDirection::Vertical ==> r == Some(
            n.children@[0].node,
        )) && (n.direction != LayoutDirection::Vertical ==> r is None),
        layout is Component ==> r is None,
{
    match layout {
        Layout::Node(node) => {
            match node.direction {
                LayoutDirection::Vertical => {
                    let mut children = node.children;
                    let first = children.remove(0);
                    Some(first.node)
                },
                LayoutDirection::Horizontal => None,
            }
        },
        Layout::Component(_) => None,
    }
}

} // verus!
