use multipane::layout::{
    wrap_layout_with_prompt, unwrap_prompt_from_layout, Flex, Layout, LayoutDirection, LayoutNode,
    LayoutNodeFlex, Position, Rect, Size, PROMPT_ID, SPLASH_ID,
};

fn frame(w: usize, h: usize) -> Rect {
    Rect::new(Position::new(0, 0), Size::new(w, h))
}

#[test]
fn wrap_then_unwrap_returns_content() {
    let wrapped = wrap_layout_with_prompt(None);
    match unwrap_prompt_from_layout(wrapped) {
        Some(Layout::Component(id)) => assert_eq!(id, SPLASH_ID),
        _ => panic!("expected the splash leaf back"),
    }
}

#[test]
fn unwrap_of_bare_prompt_leaf_is_none() {
    assert!(unwrap_prompt_from_layout(Layout::Component(PROMPT_ID)).is_none());
}

#[test]
fn compute_splash_layout_exact_regions() {
    let layout = wrap_layout_with_prompt(None);
    let mut frame_id: usize = 1;
    let mut out = Vec::new();
    layout.compute(frame(80, 24), &mut frame_id, &mut out);
    assert_eq!(out.len(), 2);
    assert_eq!(out[0].id, SPLASH_ID);
    assert_eq!(out[0].frame_id, 1);
    assert_eq!(out[0].frame, frame(80, 23));
    assert_eq!(out[1].id, PROMPT_ID);
    assert_eq!(out[1].frame_id, 2);
    assert_eq!(
        out[1].frame,
        Rect::new(Position::new(0, 23), Size::new(80, 1))
    );
    assert_eq!(frame_id, 3);
}

#[test]
fn compute_splits_horizontal_space_evenly() {
    let layout = Layout::Node(LayoutNode {
        direction: LayoutDirection::Horizontal,
        children: vec![
            LayoutNodeFlex { node: Layout::Component(2), flex: Flex::Stretched(1) },
            LayoutNodeFlex { node: Layout::Component(3), flex: Flex::Stretched(1) },
        ],
    });
    let mut frame_id: usize = 1;
    let mut out = Vec::new();
    layout.compute(frame(80, 24), &mut frame_id, &mut out);
    assert_eq!(out.len(), 2);
    assert_eq!(out[0].id, 2);
    assert_eq!(out[0].frame, Rect::new(Position::new(0, 0), Size::new(40, 24)));
    assert_eq!(out[1].id, 3);
    assert_eq!(out[1].frame, Rect::new(Position::new(40, 0), Size::new(40, 24)));
    assert_eq!(out[0].frame_id, 1);
    assert_eq!(out[1].frame_id, 2);
}

#[test]
fn compute_divides_remaining_space_by_weight() {
    let layout = Layout::Node(LayoutNode {
        direction: LayoutDirection::Horizontal,
        children: vec![
            LayoutNodeFlex { node: Layout::Component(2), flex: Flex::Stretched(1) },
            LayoutNodeFlex { node: Layout::Component(3), flex: Flex::Stretched(3) },
        ],
    });
    let mut frame_id: usize = 1;
    let mut out = Vec::new();
    layout.compute(frame(80, 24), &mut frame_id, &mut out);
    // Four weight units over 80 columns: 20 columns per unit.
    assert_eq!(out[0].frame, Rect::new(Position::new(0, 0), Size::new(20, 24)));
    assert_eq!(out[1].frame, Rect::new(Position::new(20, 0), Size::new(60, 24)));
}

#[test]
fn compute_gives_zero_weight_nothing() {
    let layout = Layout::Node(LayoutNode {
        direction: LayoutDirection::Horizontal,
        children: vec![
            LayoutNodeFlex { node: Layout::Component(2), flex: Flex::Stretched(0) },
            LayoutNodeFlex { node: Layout::Component(3), flex: Flex::Stretched(1) },
        ],
    });
    let mut frame_id: usize = 1;
    let mut out = Vec::new();
    layout.compute(frame(80, 24), &mut frame_id, &mut out);
    assert_eq!(out[0].frame.size.width, 0);
    assert_eq!(out[1].frame.size.width, 80);
}

#[test]
fn compute_clips_fixed_children_and_zeroes_stretched() {
    let layout = Layout::Node(LayoutNode {
        direction: LayoutDirection::Vertical,
        children: vec![
            LayoutNodeFlex { node: Layout::Component(2), flex: Flex::Fixed(30) },
            LayoutNodeFlex { node: Layout::Component(3), flex: Flex::Stretched(1) },
        ],
    });
    let mut frame_id: usize = 1;
    let mut out = Vec::new();
    layout.compute(frame(80, 24), &mut frame_id, &mut out);
    assert_eq!(out.len(), 2);
    assert_eq!(out[0].frame.size.height, 24);
    assert_eq!(out[1].frame.size.height, 0);
}

#[test]
fn add_left_then_remove_splash_keeps_only_pane() {
    let content = Layout::Component(SPLASH_ID);
    let grown = content.add_left(5, Flex::Stretched(1));
    let without_splash = grown.remove_component_id(SPLASH_ID).unwrap();
    match without_splash {
        Layout::Node(node) => {
            assert_eq!(node.children.len(), 1);
            match &node.children[0].node {
                Layout::Component(id) => assert_eq!(*id, 5),
                _ => panic!("expected a pane leaf"),
            }
        }
        _ => panic!("expected a horizontal node"),
    }
}

#[test]
fn frame_ids_keep_increasing_across_nested_subtrees() {
    let inner = Layout::Node(LayoutNode {
        direction: LayoutDirection::Vertical,
        children: vec![
            LayoutNodeFlex { node: Layout::Component(4), flex: Flex::Stretched(1) },
            LayoutNodeFlex { node: Layout::Component(5), flex: Flex::Stretched(1) },
        ],
    });
    let layout = Layout::Node(LayoutNode {
        direction: LayoutDirection::Horizontal,
        children: vec![
            LayoutNodeFlex { node: Layout::Component(2), flex: Flex::Stretched(1) },
            LayoutNodeFlex { node: inner, flex: Flex::Stretched(1) },
            LayoutNodeFlex { node: Layout::Component(3), flex: Flex::Stretched(1) },
        ],
    });
    let mut frame_id: usize = 1;
    let mut out = Vec::new();
    layout.compute(frame(90, 30), &mut frame_id, &mut out);
    let ids: Vec<usize> = out.iter().map(|l| l.id).collect();
    let frame_ids: Vec<usize> = out.iter().map(|l| l.frame_id).collect();
    assert_eq!(ids, vec![2, 4, 5, 3]);
    assert_eq!(frame_ids, vec![1, 2, 3, 4]);
    assert_eq!(frame_id, 5);
}

#[test]
fn removing_last_leaf_empties_layout() {
    let layout = Layout::Component(7).add_left(5, Flex::Stretched(1));
    let after = layout.remove_component_id(5).unwrap();
    assert!(after.remove_component_id(7).is_none());
}
