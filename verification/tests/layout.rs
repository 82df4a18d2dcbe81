use zedit::layout::{Direction, LayoutState, PaneContent, PaneId, PaneInfo, Rect, SplitDir};

#[test]
fn rect_contains() {
    let r = Rect {
        x: 10,
        y: 5,
        width: 20,
        height: 10,
    };
    assert!(r.contains(10, 5));
    assert!(r.contains(29, 14));
    assert!(!r.contains(30, 5));
    assert!(!r.contains(10, 15));
    assert!(!r.contains(9, 5));
}

#[test]
fn pane_buffer_index() {
    let rect = Rect { x: 0, y: 0, width: 1, height: 1 };
    let p = PaneInfo { id: PaneId(1), rect, content: PaneContent::Buffer(3) };
    assert_eq!(p.buffer_index(), Some(3));
    let t = PaneInfo { id: PaneId(2), rect, content: PaneContent::Terminal(0) };
    assert_eq!(t.buffer_index(), None);
}

#[test]
fn single_pane_resolves_to_full_rect() {
    let mut layout = LayoutState::new(0);
    let total = Rect {
        x: 0,
        y: 0,
        width: 80,
        height: 24,
    };
    layout.resolve(total);
    assert_eq!(layout.pane_count(), 1);
    assert_eq!(layout.panes()[0].rect, total);
    assert_eq!(layout.panes()[0].content, PaneContent::Buffer(0));
}

#[test]
fn split_creates_two_panes() {
    let mut layout = LayoutState::new(0);
    let first = layout.first_pane();
    let new = layout.split_pane(first, SplitDir::Horizontal, 1).unwrap();

    let total = Rect {
        x: 0,
        y: 0,
        width: 80,
        height: 24,
    };
    layout.resolve(total);
    assert_eq!(layout.pane_count(), 2);

    let r1 = layout.pane_rect(first).unwrap();
    let r2 = layout.pane_rect(new).unwrap();

    // Both panes should fit within total width
    assert!(r1.width + r2.width < total.width + 2); // +border
    assert_eq!(r1.height, total.height);
    assert_eq!(r2.height, total.height);
    // Left pane starts at 0
    assert_eq!(r1.x, 0);
}

#[test]
fn close_pane_collapses() {
    let mut layout = LayoutState::new(0);
    let first = layout.first_pane();
    let new = layout.split_pane(first, SplitDir::Horizontal, 1).unwrap();

    assert!(layout.close_pane(new));
    let total = Rect {
        x: 0,
        y: 0,
        width: 80,
        height: 24,
    };
    layout.resolve(total);
    assert_eq!(layout.pane_count(), 1);
    assert_eq!(layout.panes()[0].rect, total);
}

#[test]
fn cannot_close_last_pane() {
    let mut layout = LayoutState::new(0);
    let first = layout.first_pane();
    assert!(!layout.close_pane(first));
}

#[test]
fn adjacent_pane_horizontal() {
    let mut layout = LayoutState::new(0);
    let first = layout.first_pane();
    let second = layout.split_pane(first, SplitDir::Horizontal, 1).unwrap();
    let total = Rect {
        x: 0,
        y: 0,
        width: 80,
        height: 24,
    };
    layout.resolve(total);

    assert_eq!(layout.adjacent_pane(first, Direction::Right), Some(second));
    assert_eq!(layout.adjacent_pane(second, Direction::Left), Some(first));
    assert_eq!(layout.adjacent_pane(first, Direction::Left), None);
    assert_eq!(layout.adjacent_pane(second, Direction::Right), None);
}

#[test]
fn set_pane_buffer() {
    let mut layout = LayoutState::new(0);
    let first = layout.first_pane();
    layout.set_pane_buffer(first, 5);
    let total = Rect {
        x: 0,
        y: 0,
        width: 80,
        height: 24,
    };
    layout.resolve(total);
    assert_eq!(layout.pane_buffer(first), Some(5));
}

#[test]
fn vertical_split() {
    let mut layout = LayoutState::new(0);
    let first = layout.first_pane();
    let second = layout.split_pane(first, SplitDir::Vertical, 1).unwrap();
    let total = Rect {
        x: 0,
        y: 0,
        width: 80,
        height: 24,
    };
    layout.resolve(total);
    assert_eq!(layout.pane_count(), 2);

    let r1 = layout.pane_rect(first).unwrap();
    let r2 = layout.pane_rect(second).unwrap();

    assert_eq!(r1.width, total.width);
    assert_eq!(r2.width, total.width);
    assert!(r1.height + r2.height < total.height + 2);
}

#[test]
fn adjust_buffer_indices() {
    let mut layout = LayoutState::new(2);
    let first = layout.first_pane();
    layout.split_pane(first, SplitDir::Horizontal, 3).unwrap();
    layout.adjust_buffer_indices_after_remove(1);
    let total = Rect {
        x: 0,
        y: 0,
        width: 80,
        height: 24,
    };
    layout.resolve(total);
    // buffer 2 -> 1, buffer 3 -> 2
    assert_eq!(layout.pane_buffer(first), Some(1));
}

#[test]
fn panes_with_buffer() {
    let mut layout = LayoutState::new(0);
    let first = layout.first_pane();
    let second = layout.split_pane(first, SplitDir::Horizontal, 0).unwrap();
    let total = Rect {
        x: 0,
        y: 0,
        width: 80,
        height: 24,
    };
    layout.resolve(total);
    let panes = layout.panes_with_buffer(0);
    assert_eq!(panes.len(), 2);
    assert!(panes.contains(&first));
    assert!(panes.contains(&second));
}

#[test]
fn split_halves_width_with_border() {
    let mut layout = LayoutState::new(0);
    let first = layout.first_pane();
    let second = layout.split_pane(first, SplitDir::Horizontal, 1).unwrap();
    layout.resolve(Rect { x: 0, y: 0, width: 80, height: 24 });
    assert_eq!(layout.pane_rect(first), Some(Rect { x: 0, y: 0, width: 40, height: 24 }));
    assert_eq!(layout.pane_rect(second), Some(Rect { x: 41, y: 0, width: 39, height: 24 }));
}

#[test]
fn resize_grows_first_pane() {
    let mut layout = LayoutState::new(0);
    let first = layout.first_pane();
    let second = layout.split_pane(first, SplitDir::Horizontal, 1).unwrap();
    let total = Rect { x: 0, y: 0, width: 80, height: 24 };
    layout.resize_split(first, 8, SplitDir::Horizontal, total);
    layout.resolve(total);
    assert_eq!(layout.pane_rect(first).unwrap().width, 47);
    assert_eq!(layout.pane_rect(second), Some(Rect { x: 48, y: 0, width: 32, height: 24 }));
    // A resize along the other axis leaves the split alone.
    layout.resize_split(first, 8, SplitDir::Vertical, total);
    layout.resolve(total);
    assert_eq!(layout.pane_rect(first).unwrap().width, 47);
}

#[test]
fn resize_is_held_within_bounds() {
    let mut layout = LayoutState::new(0);
    let first = layout.first_pane();
    layout.split_pane(first, SplitDir::Horizontal, 1).unwrap();
    let total = Rect { x: 0, y: 0, width: 100, height: 24 };
    layout.resize_split(first, 90, SplitDir::Horizontal, total);
    layout.resolve(total);
    // 0.9 of the 99 usable columns, rounded.
    assert_eq!(layout.pane_rect(first).unwrap().width, 89);
}

#[test]
fn wrap_root_bottom_adds_pane_below() {
    let mut layout = LayoutState::new(0);
    let first = layout.first_pane();
    let term = layout.wrap_root_bottom(PaneContent::Terminal(0));
    assert_eq!(term, PaneId(1));
    layout.resolve(Rect { x: 0, y: 0, width: 80, height: 24 });
    assert_eq!(layout.pane_rect(first), Some(Rect { x: 0, y: 0, width: 80, height: 12 }));
    assert_eq!(layout.pane_rect(term), Some(Rect { x: 0, y: 13, width: 80, height: 11 }));
    assert_eq!(layout.pane_content(term), Some(PaneContent::Terminal(0)));
    assert_eq!(layout.pane_buffer(term), None);
    assert_eq!(layout.adjacent_pane(first, Direction::Down), Some(term));
    assert_eq!(layout.adjacent_pane(term, Direction::Up), Some(first));
}

#[test]
fn split_of_missing_pane_is_refused() {
    let mut layout = LayoutState::new(0);
    assert_eq!(layout.split_pane(PaneId(7), SplitDir::Vertical, 1), None);
    let first = layout.first_pane();
    // The id given out next is still 1.
    assert_eq!(layout.split_pane(first, SplitDir::Vertical, 1), Some(PaneId(1)));
    assert!(layout.pane_exists(PaneId(1)));
    assert!(!layout.pane_exists(PaneId(7)));
}

#[test]
fn close_nested_pane_keeps_others() {
    let mut layout = LayoutState::new(0);
    let a = layout.first_pane();
    let b = layout.split_pane(a, SplitDir::Horizontal, 1).unwrap();
    let c = layout.split_pane(b, SplitDir::Vertical, 2).unwrap();
    assert!(layout.close_pane(b));
    assert!(!layout.pane_exists(b));
    assert!(layout.pane_exists(a));
    assert!(layout.pane_exists(c));
    assert!(!layout.close_pane(PaneId(42)));
    layout.resolve(Rect { x: 0, y: 0, width: 80, height: 24 });
    assert_eq!(layout.pane_count(), 2);
    assert_eq!(layout.pane_buffer(c), Some(2));
}

#[test]
fn rect_contains_at_screen_edge() {
    let r = Rect { x: 65535, y: 0, width: 1, height: 1 };
    assert!(!r.contains(0, 0));
    assert!(r.contains(65535, 0));
}
