//! The pane layout: a tree of splits whose leaves are panes, resolved
//! into screen rectangles.
use vstd::prelude::*;

verus! {

#[derive(Clone, Copy, PartialEq, Eq, Hash, Debug, Structural)]
pub struct PaneId(pub u32);

#[derive(Clone, Copy, PartialEq, Eq, Debug, Structural)]
pub enum PaneContent {
    Buffer(usize),
    Terminal(usize),
}

#[derive(Clone, Copy, PartialEq, Eq, Debug, Structural)]
pub enum SplitDir {
    /// Children go left | right.
    Horizontal,
    /// Children go top | bottom.
    Vertical,
}

#[derive(Clone, Copy, PartialEq, Eq, Debug, Structural)]
pub struct Rect {
    pub x: u16,
    pub y: u16,
    pub width: u16,
    pub height: u16,
}

impl Rect {
    /// The rectangle's right and bottom edges fit in `u16`.
    pub open spec fn fits(&self) -> bool {
        self.x + self.width <= u16::MAX && self.y + self.height <= u16::MAX
    }

    /// Whether the cell (col, row) lies inside the rectangle.
    pub fn contains(&self, col: u16, row: u16) -> (b: bool)
        ensures
            b == (self.x <= col < self.x + self.width && self.y <= row < self.y + self.height),
    {
        (col as u32) >= (self.x as u32) && (col as u32) < (self.x as u32) + (self.width as u32) && (row as u32) >= (
        self.y as u32) && (row as u32) < (self.y as u32) + (self.height as u32)
    }
}

#[derive(Clone, Copy, PartialEq, Eq, Debug, Structural)]
pub enum Direction {
    Left,
    Right,
    Up,
    Down,
}

/// A pane as laid out: its id, where it is, and what it shows.
#[derive(Clone, Copy, Debug)]
pub struct PaneInfo {
    pub id: PaneId,
    pub rect: Rect,
    pub content: PaneContent,
}

impl PaneInfo {
    /// The buffer index if this pane holds a buffer.
    pub fn buffer_index(&self) -> (r: Option<usize>)
        ensures
            r == match self.content {
                PaneContent::Buffer(i) => Some(i),
                PaneContent::Terminal(_) => None,
            },
    {
        match self.content {
            PaneContent::Buffer(idx) => Some(idx),
            PaneContent::Terminal(_) => None,
        }
    }
}


/// The share of a split's first child is held in units of one part in
/// `RATIO_SCALE`; the second child has the rest.
pub const RATIO_SCALE: u32 = 10000;

/// The least and the greatest share that a resize leaves a child.
pub const RATIO_MIN: u32 = 1000;
pub const RATIO_MAX: u32 = 9000;

/// A node of the layout tree. A split always has two children, since
/// panes are only ever split in two and a split left with one child
/// collapses into it.
#[derive(Debug)]
pub enum LayoutNode {
    Leaf { id: PaneId, content: PaneContent },
    Split { dir: SplitDir, ratio: u32, first: Box<LayoutNode>, second: Box<LayoutNode> },
}

/// The panes of a tree in order, first child before second.
pub open spec fn node_leaves(n: LayoutNode) -> Seq<(PaneId, PaneContent)>
    decreases n,
{
    match n {
        LayoutNode::Leaf { id, content } => seq![(id, content)],
        LayoutNode::Split { first, second, .. } => node_leaves(*first) + node_leaves(*second),
    }
}

/// Whether the tree has a pane with id `t`.
pub open spec fn has_leaf(n: LayoutNode, t: PaneId) -> bool
    decreases n,
{
    match n {
        LayoutNode::Leaf { id, .. } => id == t,
        LayoutNode::Split { first, second, .. } => has_leaf(*first, t) || has_leaf(*second, t),
    }
}

/// The leftmost (topmost) pane.
pub open spec fn first_id(n: LayoutNode) -> PaneId
    decreases n,
{
    match n {
        LayoutNode::Leaf { id, .. } => id,
        LayoutNode::Split { first, .. } => first_id(*first),
    }
}

/// The depth of the tree: 0 for a single pane.
pub open spec fn depth(n: LayoutNode) -> nat
    decreases n,
{
    match n {
        LayoutNode::Leaf { .. } => 0,
        LayoutNode::Split { first, second, .. } => {
            let a = depth(*first);
            let b = depth(*second);
            1 + if a >= b { a } else { b }
        },
    }
}

/// Every split's share lies within the scale.
pub open spec fn ratios_ok(n: LayoutNode) -> bool
    decreases n,
{
    match n {
        LayoutNode::Leaf { .. } => true,
        LayoutNode::Split { ratio, first, second, .. } => ratio <= RATIO_SCALE && ratios_ok(*first) && ratios_ok(*second),
    }
}

/// The ids of the panes that show buffer `b`, in order.
pub open spec fn buffer_panes(n: LayoutNode, b: usize) -> Seq<PaneId>
    decreases n,
{
    match n {
        LayoutNode::Leaf { id, content } => if content == PaneContent::Buffer(b) { seq![id] } else { Seq::empty() },
        LayoutNode::Split { first, second, .. } => buffer_panes(*first, b) + buffer_panes(*second, b),
    }
}

proof fn lemma_has_leaf(n: LayoutNode, t: PaneId)
    ensures
        has_leaf(n, t) <==> exists|i: int| 0 <= i < node_leaves(n).len() && #[trigger] node_leaves(n)[i].0 == t,
    decreases n,
{
    match n {
        LayoutNode::Leaf { .. } => {
            if has_leaf(n, t) {
                assert(node_leaves(n)[0].0 == t);
            }
        },
        LayoutNode::Split { first, second, .. } => {
            lemma_has_leaf(*first, t);
            lemma_has_leaf(*second, t);
            let a = node_leaves(*first);
            let b = node_leaves(*second);
            assert(node_leaves(n) == a + b);
            if has_leaf(*first, t) {
                let i = choose|i: int| 0 <= i < a.len() && #[trigger] a[i].0 == t;
                assert(node_leaves(n)[i] == a[i]);
            } else if has_leaf(*second, t) {
                let i = choose|i: int| 0 <= i < b.len() && #[trigger] b[i].0 == t;
                assert(node_leaves(n)[a.len() + i] == b[i]);
            }
            if exists|i: int| 0 <= i < node_leaves(n).len() && #[trigger] node_leaves(n)[i].0 == t {
                let i = choose|i: int| 0 <= i < node_leaves(n).len() && #[trigger] node_leaves(n)[i].0 == t;
                if i < a.len() {
                    assert(a[i] == node_leaves(n)[i]);
                } else {
                    assert(b[i - a.len()] == node_leaves(n)[i]);
                }
            }
        },
    }
}

fn leaf_count_of(node: &LayoutNode) -> (c: usize)
    requires
        node_leaves(*node).len() <= usize::MAX,
    ensures
        c == node_leaves(*node).len(),
    decreases node,
{
    match node {
        LayoutNode::Leaf { .. } => 1,
        LayoutNode::Split { first, second, .. } => {
            let a = leaf_count_of(first);
            let b = leaf_count_of(second);
            a + b
        },
    }
}

fn find_leaf(node: &LayoutNode, target: PaneId) -> (b: bool)
    ensures
        b == has_leaf(*node, target),
    decreases node,
{
    match node {
        LayoutNode::Leaf { id, .. } => id.0 == target.0,
        LayoutNode::Split { first, second, .. } => find_leaf(first, target) || find_leaf(second, target),
    }
}

fn first_leaf(node: &LayoutNode) -> (r: PaneId)
    ensures
        r == first_id(*node),
    decreases node,
{
    match node {
        LayoutNode::Leaf { id, .. } => *id,
        LayoutNode::Split { first, .. } => first_leaf(first),
    }
}

fn collect_panes_with_buffer(node: &LayoutNode, buf_idx: usize, out: &mut Vec<PaneId>)
    ensures
        final(out)@ == old(out)@ + buffer_panes(*node, buf_idx),
    decreases node,
{
    match node {
        LayoutNode::Leaf { id, content } => {
            let hit = match content {
                PaneContent::Buffer(bi) => *bi == buf_idx,
                PaneContent::Terminal(_) => false,
            };
            if hit {
                out.push(*id);
            } else {
                proof {
                    assert(old(out)@ + Seq::<PaneId>::empty() =~= old(out)@);
                }
            }
            proof {
                if hit {
                    assert(buffer_panes(*node, buf_idx) == seq![*id]);
                }
            }
        },
        LayoutNode::Split { first, second, .. } => {
            collect_panes_with_buffer(first, buf_idx, out);
            collect_panes_with_buffer(second, buf_idx, out);
            proof {
                assert(final(out)@ =~= old(out)@ + buffer_panes(*node, buf_idx));
            }
        },
    }
}


/// The tree after splitting pane `t`: its leaf becomes an even split in
/// direction `dir` of itself and a new pane `new_id` showing `c`. The
/// first pane with id `t` is split; a tree without it stays as it is.
pub open spec fn split_spec(n: LayoutNode, t: PaneId, dir: SplitDir, new_id: PaneId, c: PaneContent) -> LayoutNode
    decreases n,
{
    match n {
        LayoutNode::Leaf { id, content } => if id == t {
            LayoutNode::Split {
                dir,
                ratio: (RATIO_SCALE / 2) as u32,
                first: Box::new(LayoutNode::Leaf { id, content }),
                second: Box::new(LayoutNode::Leaf { id: new_id, content: c }),
            }
        } else {
            n
        },
        LayoutNode::Split { dir: d, ratio, first, second } => if has_leaf(*first, t) {
            LayoutNode::Split { dir: d, ratio, first: Box::new(split_spec(*first, t, dir, new_id, c)), second }
        } else {
            LayoutNode::Split { dir: d, ratio, first, second: Box::new(split_spec(*second, t, dir, new_id, c)) }
        },
    }
}

/// Whether `n` is the pane `t` itself.
pub open spec fn is_leaf_id(n: LayoutNode, t: PaneId) -> bool {
    n matches LayoutNode::Leaf { id, .. } && id == t
}

/// The tree after closing pane `t`: the split that holds it as a direct
/// child is replaced by its other child. Direct children are looked at
/// before deeper ones, and the first child before the second.
pub open spec fn close_spec(n: LayoutNode, t: PaneId) -> LayoutNode
    decreases n,
{
    match n {
        LayoutNode::Leaf { .. } => n,
        LayoutNode::Split { dir, ratio, first, second } => if is_leaf_id(*first, t) {
            *second
        } else if is_leaf_id(*second, t) {
            *first
        } else if has_leaf(*first, t) {
            LayoutNode::Split { dir, ratio, first: Box::new(close_spec(*first, t)), second }
        } else {
            LayoutNode::Split { dir, ratio, first, second: Box::new(close_spec(*second, t)) }
        },
    }
}

/// The tree with every pane `t` showing `c`.
pub open spec fn set_content_spec(n: LayoutNode, t: PaneId, c: PaneContent) -> LayoutNode
    decreases n,
{
    match n {
        LayoutNode::Leaf { id, content } => if id == t { LayoutNode::Leaf { id, content: c } } else { n },
        LayoutNode::Split { dir, ratio, first, second } => LayoutNode::Split {
            dir,
            ratio,
            first: Box::new(set_content_spec(*first, t, c)),
            second: Box::new(set_content_spec(*second, t, c)),
        },
    }
}

/// A pane's content once buffer `removed` is gone: the buffers after it
/// move down by one, and a pane that showed it shows the one before it
/// (buffer 0 stays 0). Terminal panes keep theirs.
pub open spec fn adjust_content(c: PaneContent, removed: usize) -> PaneContent {
    match c {
        PaneContent::Buffer(bi) => if bi == removed {
            PaneContent::Buffer(if removed == 0 { 0 } else { (removed - 1) as usize })
        } else if bi > removed {
            PaneContent::Buffer((bi - 1) as usize)
        } else {
            c
        },
        PaneContent::Terminal(_) => c,
    }
}

pub open spec fn adjust_spec(n: LayoutNode, removed: usize) -> LayoutNode
    decreases n,
{
    match n {
        LayoutNode::Leaf { id, content } => LayoutNode::Leaf { id, content: adjust_content(content, removed) },
        LayoutNode::Split { dir, ratio, first, second } => LayoutNode::Split {
            dir,
            ratio,
            first: Box::new(adjust_spec(*first, removed)),
            second: Box::new(adjust_spec(*second, removed)),
        },
    }
}

fn split_node(node: LayoutNode, target: PaneId, dir: SplitDir, new_id: PaneId, new_content: PaneContent) -> (r: (LayoutNode, bool))
    ensures
        r.0 == split_spec(node, target, dir, new_id, new_content),
        r.1 == has_leaf(node, target),
    decreases node,
{
    match node {
        LayoutNode::Leaf { id, content } => {
            if id.0 == target.0 {
                (
                    LayoutNode::Split {
                        dir,
                        ratio: RATIO_SCALE / 2,
                        first: Box::new(LayoutNode::Leaf { id, content }),
                        second: Box::new(LayoutNode::Leaf { id: new_id, content: new_content }),
                    },
                    true,
                )
            } else {
                (LayoutNode::Leaf { id, content }, false)
            }
        },
        LayoutNode::Split { dir: d, ratio, first, second } => {
            if find_leaf(&first, target) {
                let (f, _) = split_node(*first, target, dir, new_id, new_content);
                (LayoutNode::Split { dir: d, ratio, first: Box::new(f), second }, true)
            } else {
                let (g, found) = split_node(*second, target, dir, new_id, new_content);
                (LayoutNode::Split { dir: d, ratio, first, second: Box::new(g) }, found)
            }
        },
    }
}

fn leaf_is(node: &LayoutNode, target: PaneId) -> (b: bool)
    ensures
        b == is_leaf_id(*node, target),
{
    match node {
        LayoutNode::Leaf { id, .. } => id.0 == target.0,
        LayoutNode::Split { .. } => false,
    }
}

fn close_node(node: LayoutNode, target: PaneId) -> (r: (LayoutNode, bool))
    ensures
        r.0 == close_spec(node, target),
        r.1 == (match node {
            LayoutNode::Leaf { .. } => false,
            LayoutNode::Split { .. } => has_leaf(node, target),
        }),
    decreases node,
{
    match node {
        LayoutNode::Leaf { id, content } => (LayoutNode::Leaf { id, content }, false),
        LayoutNode::Split { dir, ratio, first, second } => {
            if leaf_is(&first, target) {
                proof {
                    assert(has_leaf(*first, target));
                }
                (*second, true)
            } else if leaf_is(&second, target) {
                proof {
                    assert(has_leaf(*second, target));
                }
                (*first, true)
            } else if find_leaf(&first, target) {
                let (f, _) = close_node(*first, target);
                (LayoutNode::Split { dir, ratio, first: Box::new(f), second }, true)
            } else {
                let (g, found) = close_node(*second, target);
                proof {
                    if has_leaf(*second, target) {
                        assert(*second is Split);
                    }
                }
                (LayoutNode::Split { dir, ratio, first, second: Box::new(g) }, found)
            }
        },
    }
}

fn set_content_in_node(node: LayoutNode, target: PaneId, new_content: PaneContent) -> (r: LayoutNode)
    ensures
        r == set_content_spec(node, target, new_content),
    decreases node,
{
    match node {
        LayoutNode::Leaf { id, content } => {
            if id.0 == target.0 {
                LayoutNode::Leaf { id, content: new_content }
            } else {
                LayoutNode::Leaf { id, content }
            }
        },
        LayoutNode::Split { dir, ratio, first, second } => {
            let f = set_content_in_node(*first, target, new_content);
            let g = set_content_in_node(*second, target, new_content);
            LayoutNode::Split { dir, ratio, first: Box::new(f), second: Box::new(g) }
        },
    }
}

fn adjust_indices(node: LayoutNode, removed: usize) -> (r: LayoutNode)
    ensures
        r == adjust_spec(node, removed),
    decreases node,
{
    match node {
        LayoutNode::Leaf { id, content } => {
            let c = match content {
                PaneContent::Buffer(bi) => {
                    if bi == removed {
                        PaneContent::Buffer(removed.saturating_sub(1))
                    } else if bi > removed {
                        PaneContent::Buffer(bi - 1)
                    } else {
                        content
                    }
                },
                PaneContent::Terminal(_) => content,
            };
            LayoutNode::Leaf { id, content: c }
        },
        LayoutNode::Split { dir, ratio, first, second } => {
            let f = adjust_indices(*first, removed);
            let g = adjust_indices(*second, removed);
            LayoutNode::Split { dir, ratio, first: Box::new(f), second: Box::new(g) }
        },
    }
}


/// The extent of `r` along the axis that a split in direction `dir` divides.
pub open spec fn extent(r: Rect, dir: SplitDir) -> int {
    match dir {
        SplitDir::Horizontal => r.width as int,
        SplitDir::Vertical => r.height as int,
    }
}

/// The first child's extent: its share of what is left once one cell is
/// kept for the border, rounded to the nearest cell (halves up).
pub open spec fn first_extent(dim: int, ratio: int) -> int {
    let usable = if dim >= 1 { dim - 1 } else { 0 };
    (2 * usable * ratio + RATIO_SCALE) / (2 * RATIO_SCALE as int)
}

/// The rectangles of a split's two children: the first gets its share,
/// then a border cell, then the second gets what remains.
pub open spec fn child_rects(r: Rect, dir: SplitDir, ratio: int) -> (Rect, Rect) {
    let dim = extent(r, dir);
    let raw = first_extent(dim, ratio);
    let size0 = raw + 1;
    let size1 = if dim >= size0 { dim - size0 } else { 0 };
    match dir {
        SplitDir::Horizontal => (
            Rect { x: r.x, y: r.y, width: raw as u16, height: r.height },
            Rect { x: (r.x + size0) as u16, y: r.y, width: size1 as u16, height: r.height },
        ),
        SplitDir::Vertical => (
            Rect { x: r.x, y: r.y, width: r.width, height: raw as u16 },
            Rect { x: r.x, y: (r.y + size0) as u16, width: r.width, height: size1 as u16 },
        ),
    }
}

/// Room for every rectangle the tree resolves into inside `r`: each level
/// of splitting can push a zero-wide child one cell past `r`'s edge.
pub open spec fn room(n: LayoutNode, r: Rect) -> bool {
    &&& r.x + r.width + depth(n) <= u16::MAX
    &&& r.y + r.height + depth(n) <= u16::MAX
}

/// The panes of the tree laid out in `r`, in order.
pub open spec fn resolve_spec(n: LayoutNode, r: Rect) -> Seq<PaneInfo>
    decreases n,
{
    match n {
        LayoutNode::Leaf { id, content } => seq![PaneInfo { id, rect: r, content }],
        LayoutNode::Split { dir, ratio, first, second } => {
            let (r0, r1) = child_rects(r, dir, ratio as int);
            resolve_spec(*first, r0) + resolve_spec(*second, r1)
        },
    }
}

proof fn lemma_first_extent(dim: int, ratio: int)
    requires
        0 <= dim,
        0 <= ratio <= RATIO_SCALE,
    ensures
        0 <= first_extent(dim, ratio),
        first_extent(dim, ratio) <= if dim >= 1 { dim - 1 } else { 0 },
{
    let usable = if dim >= 1 { dim - 1 } else { 0 };
    let s = RATIO_SCALE as int;
    assert(0 <= 2 * usable * ratio) by (nonlinear_arith)
        requires
            0 <= usable,
            0 <= ratio,
    ;
    assert(2 * usable * ratio + s <= usable * (2 * s) + s) by (nonlinear_arith)
        requires
            0 <= usable,
            ratio <= s,
    ;
    assert((2 * usable * ratio + s) / (2 * s) <= usable) by (nonlinear_arith)
        requires
            2 * usable * ratio + s <= usable * (2 * s) + s,
            s == 10000,
            0 <= usable,
    ;
}

proof fn lemma_child_room(r: Rect, dir: SplitDir, ratio: int, d: nat)
    requires
        0 <= ratio <= RATIO_SCALE,
        r.x + r.width + d + 1 <= u16::MAX,
        r.y + r.height + d + 1 <= u16::MAX,
    ensures
        ({
            let (r0, r1) = child_rects(r, dir, ratio);
            &&& r0.x + r0.width + d <= u16::MAX
            &&& r0.y + r0.height + d <= u16::MAX
            &&& r1.x + r1.width + d <= u16::MAX
            &&& r1.y + r1.height + d <= u16::MAX
            &&& r0.fits()
            &&& r1.fits()
        }),
{
    lemma_first_extent(extent(r, dir), ratio);
}

fn resolve_node(node: &LayoutNode, rect: Rect, out: &mut Vec<PaneInfo>)
    requires
        room(*node, rect),
        ratios_ok(*node),
    ensures
        final(out)@ == old(out)@ + resolve_spec(*node, rect),
    decreases node,
{
    match node {
        LayoutNode::Leaf { id, content } => {
            out.push(PaneInfo { id: *id, rect, content: *content });
        },
        LayoutNode::Split { dir, ratio, first, second } => {
            let dim: u16 = match dir {
                SplitDir::Horizontal => rect.width,
                SplitDir::Vertical => rect.height,
            };
            let usable: u64 = if dim >= 1 { (dim - 1) as u64 } else { 0 };
            proof {
                lemma_first_extent(dim as int, *ratio as int);
                lemma_child_room(rect, *dir, *ratio as int, (depth(*node) - 1) as nat);
                assert(2 * usable * (*ratio as int) <= 2 * 65535 * 10000) by (nonlinear_arith)
                    requires
                        usable <= 65535,
                        *ratio <= 10000,
                ;
            }
            let raw: u64 = (2 * usable * (*ratio as u64) + RATIO_SCALE as u64) / (2 * RATIO_SCALE as u64);
            let size0: u16 = (raw + 1) as u16;
            let size1: u16 = dim.saturating_sub(size0);
            let (r0, r1) = match dir {
                SplitDir::Horizontal => (
                    Rect { x: rect.x, y: rect.y, width: raw as u16, height: rect.height },
                    Rect { x: rect.x + size0, y: rect.y, width: size1, height: rect.height },
                ),
                SplitDir::Vertical => (
                    Rect { x: rect.x, y: rect.y, width: rect.width, height: raw as u16 },
                    Rect { x: rect.x, y: rect.y + size0, width: rect.width, height: size1 },
                ),
            };
            proof {
                assert((r0, r1) == child_rects(rect, *dir, *ratio as int));
            }
            resolve_node(first, r0, out);
            resolve_node(second, r1, out);
            proof {
                assert(final(out)@ =~= old(out)@ + resolve_spec(*node, rect));
            }
        },
    }
}


/// A share held between the least and the greatest a resize leaves.
pub open spec fn clamp_share(v: int) -> int {
    if v < RATIO_MIN { RATIO_MIN as int } else if v > RATIO_MAX { RATIO_MAX as int } else { v }
}

/// `delta` cells as a share of `size` cells, rounded toward zero.
pub open spec fn share_of(delta: int, size: int) -> int {
    if delta < 0 { -((-delta) * RATIO_SCALE / size) } else { delta * RATIO_SCALE / size }
}

/// `num / den` rounded to the nearest whole number, halves up.
pub open spec fn round_div(num: int, den: int) -> int {
    (2 * num + den) / (2 * den)
}

/// The first child's share after growing the child that holds the pane
/// by `d` and shrinking the other by as much, each held between the
/// least and the greatest share, and the two scaled back to a whole.
pub open spec fn resized_ratio(ratio: int, in_first: bool, d: int) -> int {
    let s = RATIO_SCALE as int;
    if in_first {
        let a = clamp_share(ratio + d);
        let b = clamp_share(s - ratio - d);
        round_div(a * s, a + b)
    } else {
        let a = clamp_share(s - ratio + d);
        let b = clamp_share(ratio - d);
        round_div(b * s, a + b)
    }
}

/// The tree after resizing pane `t` by `delta` cells of `total`: every
/// split in direction `axis` on the way down to the pane moves its
/// border; other splits keep theirs.
pub open spec fn resize_spec(n: LayoutNode, t: PaneId, delta: i16, axis: SplitDir, total: Rect) -> LayoutNode
    decreases n,
{
    match n {
        LayoutNode::Leaf { .. } => n,
        LayoutNode::Split { dir, ratio, first, second } => {
            let in_first = has_leaf(*first, t);
            if in_first || has_leaf(*second, t) {
                let ts = extent(total, dir);
                let r = if dir == axis && ts > 0 {
                    resized_ratio(ratio as int, in_first, share_of(delta as int, ts)) as u32
                } else {
                    ratio
                };
                if in_first {
                    LayoutNode::Split { dir, ratio: r, first: Box::new(resize_spec(*first, t, delta, axis, total)), second }
                } else {
                    LayoutNode::Split { dir, ratio: r, first, second: Box::new(resize_spec(*second, t, delta, axis, total)) }
                }
            } else {
                n
            }
        },
    }
}

proof fn lemma_resized_ratio(ratio: int, in_first: bool, d: int)
    ensures
        0 <= resized_ratio(ratio, in_first, d) <= RATIO_SCALE,
{
    let s = RATIO_SCALE as int;
    let (a, b) = if in_first {
        (clamp_share(ratio + d), clamp_share(s - ratio - d))
    } else {
        (clamp_share(s - ratio + d), clamp_share(ratio - d))
    };
    let top = if in_first { a } else { b };
    assert(0 <= round_div(top * s, a + b) <= s) by (nonlinear_arith)
        requires
            1000 <= a <= 9000,
            1000 <= b <= 9000,
            top == a || top == b,
            s == 10000,
    {
        assert(2 * (top * s) + (a + b) <= 2 * s * (a + b) + (a + b));
        assert(0 <= 2 * (top * s) + (a + b));
    }
}

/// The share in exec arithmetic: a clamped value.
fn clamp_share_exec(v: i64) -> (r: i64)
    ensures
        r == clamp_share(v as int),
{
    if v < RATIO_MIN as i64 {
        RATIO_MIN as i64
    } else if v > RATIO_MAX as i64 {
        RATIO_MAX as i64
    } else {
        v
    }
}

fn resize_in_node(node: LayoutNode, target: PaneId, delta: i16, axis: SplitDir, total: Rect) -> (r: LayoutNode)
    requires
        ratios_ok(node),
    ensures
        r == resize_spec(node, target, delta, axis, total),
        ratios_ok(r),
    decreases node,
{
    match node {
        LayoutNode::Leaf { id, content } => LayoutNode::Leaf { id, content },
        LayoutNode::Split { dir, ratio, first, second } => {
            let in_first = find_leaf(&first, target);
            if !in_first && !find_leaf(&second, target) {
                return LayoutNode::Split { dir, ratio, first, second };
            }
            let ts: u16 = match dir {
                SplitDir::Horizontal => total.width,
                SplitDir::Vertical => total.height,
            };
            let mut new_ratio = ratio;
            if dir == axis && ts > 0 {
                let dl: i64 = delta as i64;
                let mag: i64 = if dl < 0 { -dl } else { dl };
                let m: i64 = mag * (RATIO_SCALE as i64) / (ts as i64);
                let d: i64 = if dl < 0 { -m } else { m };
                proof {
                    assert(0 <= mag * 10000 <= 32768 * 10000) by (nonlinear_arith)
                        requires
                            0 <= mag <= 32768,
                    ;
                    assert(mag * 10000 / (ts as int) <= mag * 10000) by (nonlinear_arith)
                        requires
                            0 <= mag * 10000,
                            ts >= 1,
                    ;
                    assert(d == share_of(delta as int, ts as int));
                }
                let s: i64 = RATIO_SCALE as i64;
                let rt: i64 = ratio as i64;
                let (a, b) = if in_first {
                    (clamp_share_exec(rt + d), clamp_share_exec(s - rt - d))
                } else {
                    (clamp_share_exec(s - rt + d), clamp_share_exec(rt - d))
                };
                let top: i64 = if in_first { a } else { b };
                proof {
                    lemma_resized_ratio(ratio as int, in_first, d as int);
                    assert(0 <= 2 * (top * s) + (a + b) <= 2 * 9000 * 10000 + 18000) by (nonlinear_arith)
                        requires
                            1000 <= a <= 9000,
                            1000 <= b <= 9000,
                            top == a || top == b,
                            s == 10000,
                    ;
                }
                let v: i64 = (2 * (top * s) + (a + b)) / (2 * (a + b));
                proof {
                    assert(v == resized_ratio(ratio as int, in_first, d as int));
                }
                new_ratio = v as u32;
            }
            if in_first {
                let f = resize_in_node(*first, target, delta, axis, total);
                LayoutNode::Split { dir, ratio: new_ratio, first: Box::new(f), second }
            } else {
                let g = resize_in_node(*second, target, delta, axis, total);
                LayoutNode::Split { dir, ratio: new_ratio, first, second: Box::new(g) }
            }
        },
    }
}


/// Splitting a pane puts the new pane right after it in the order of the
/// panes and leaves every other pane where it was; a tree without the
/// pane is left as it is.
pub proof fn lemma_split_leaves(n: LayoutNode, t: PaneId, dir: SplitDir, new_id: PaneId, c: PaneContent)
    ensures
        ratios_ok(n) ==> ratios_ok(split_spec(n, t, dir, new_id, c)),
        !has_leaf(n, t) ==> split_spec(n, t, dir, new_id, c) == n,
        has_leaf(n, t) ==> exists|i: int|
            0 <= i < node_leaves(n).len() && (#[trigger] node_leaves(n)[i]).0 == t && node_leaves(split_spec(n, t, dir, new_id, c))
                == node_leaves(n).take(i + 1).push((new_id, c)) + node_leaves(n).skip(i + 1),
    decreases n,
{
    let l = node_leaves(n);
    match n {
        LayoutNode::Leaf { id, content } => {
            if has_leaf(n, t) {
                let sp = split_spec(n, t, dir, new_id, c);
                let one = LayoutNode::Leaf { id, content };
                let two = LayoutNode::Leaf { id: new_id, content: c };
                assert(node_leaves(one) == seq![(id, content)]);
                assert(node_leaves(two) == seq![(new_id, c)]);
                assert(ratios_ok(one) && ratios_ok(two));
                assert(l[0].0 == t);
                assert(node_leaves(sp) =~= l.take(1).push((new_id, c)) + l.skip(1));
            }
        },
        LayoutNode::Split { dir: d, ratio, first, second } => {
            lemma_split_leaves(*first, t, dir, new_id, c);
            lemma_split_leaves(*second, t, dir, new_id, c);
            let a = node_leaves(*first);
            let b = node_leaves(*second);
            assert(l == a + b);
            if has_leaf(*first, t) {
                let i = choose|i: int|
                    0 <= i < a.len() && (#[trigger] a[i]).0 == t && node_leaves(split_spec(*first, t, dir, new_id, c))
                        == a.take(i + 1).push((new_id, c)) + a.skip(i + 1);
                assert(l[i] == a[i]);
                assert(node_leaves(split_spec(n, t, dir, new_id, c)) =~= l.take(i + 1).push((new_id, c)) + l.skip(i + 1));
            } else if has_leaf(*second, t) {
                let i = choose|i: int|
                    0 <= i < b.len() && (#[trigger] b[i]).0 == t && node_leaves(split_spec(*second, t, dir, new_id, c))
                        == b.take(i + 1).push((new_id, c)) + b.skip(i + 1);
                let j = a.len() + i;
                assert(l[j] == b[i]);
                assert(node_leaves(split_spec(n, t, dir, new_id, c)) =~= l.take(j + 1).push((new_id, c)) + l.skip(j + 1));
            }
        },
    }
}

/// Closing a pane that a split holds removes it, and only it, from the
/// order of the panes; a tree without it, or a single pane, is left as
/// it is.
pub proof fn lemma_close_leaves(n: LayoutNode, t: PaneId)
    ensures
        ratios_ok(n) ==> ratios_ok(close_spec(n, t)),
        depth(close_spec(n, t)) <= depth(n),
        !(n is Split && has_leaf(n, t)) ==> close_spec(n, t) == n,
        n is Split && has_leaf(n, t) ==> exists|i: int|
            0 <= i < node_leaves(n).len() && (#[trigger] node_leaves(n)[i]).0 == t && node_leaves(close_spec(n, t))
                == node_leaves(n).remove(i),
    decreases n,
{
    let l = node_leaves(n);
    match n {
        LayoutNode::Leaf { .. } => {},
        LayoutNode::Split { dir, ratio, first, second } => {
            lemma_close_leaves(*first, t);
            lemma_close_leaves(*second, t);
            let a = node_leaves(*first);
            let b = node_leaves(*second);
            assert(l == a + b);
            if is_leaf_id(*first, t) {
                assert(has_leaf(*first, t));
            }
            if is_leaf_id(*second, t) {
                assert(has_leaf(*second, t));
            }
            if is_leaf_id(*first, t) {
                assert(a =~= seq![a[0]]);
                assert(l[0] == a[0]);
                assert(node_leaves(close_spec(n, t)) =~= l.remove(0));
            } else if is_leaf_id(*second, t) {
                assert(b =~= seq![b[0]]);
                assert(l[a.len() as int] == b[0]);
                assert(node_leaves(close_spec(n, t)) =~= l.remove(a.len() as int));
            } else if has_leaf(*first, t) {
                assert(*first is Split);
                let i = choose|i: int|
                    0 <= i < a.len() && (#[trigger] a[i]).0 == t && node_leaves(close_spec(*first, t)) == a.remove(i);
                assert(l[i] == a[i]);
                assert(node_leaves(close_spec(n, t)) =~= l.remove(i));
            } else if has_leaf(*second, t) {
                assert(*second is Split);
                let i = choose|i: int|
                    0 <= i < b.len() && (#[trigger] b[i]).0 == t && node_leaves(close_spec(*second, t)) == b.remove(i);
                let j = a.len() + i;
                assert(l[j] == b[i]);
                assert(node_leaves(close_spec(n, t)) =~= l.remove(j));
            }
        },
    }
}

/// Setting a pane's content changes the content of the panes with that
/// id and nothing else.
pub proof fn lemma_set_content_leaves(n: LayoutNode, t: PaneId, c: PaneContent)
    ensures
        ratios_ok(n) ==> ratios_ok(set_content_spec(n, t, c)),
        depth(set_content_spec(n, t, c)) == depth(n),
        node_leaves(set_content_spec(n, t, c)) == node_leaves(n).map_values(
            |p: (PaneId, PaneContent)| if p.0 == t { (p.0, c) } else { p },
        ),
    decreases n,
{
    match n {
        LayoutNode::Leaf { .. } => {
            assert(node_leaves(set_content_spec(n, t, c)) =~= node_leaves(n).map_values(
                |p: (PaneId, PaneContent)| if p.0 == t { (p.0, c) } else { p },
            ));
        },
        LayoutNode::Split { first, second, .. } => {
            lemma_set_content_leaves(*first, t, c);
            lemma_set_content_leaves(*second, t, c);
            assert(node_leaves(set_content_spec(n, t, c)) =~= node_leaves(n).map_values(
                |p: (PaneId, PaneContent)| if p.0 == t { (p.0, c) } else { p },
            ));
        },
    }
}

/// Removing a buffer renumbers the buffer of every pane and nothing else.
pub proof fn lemma_adjust_leaves(n: LayoutNode, removed: usize)
    ensures
        ratios_ok(n) ==> ratios_ok(adjust_spec(n, removed)),
        depth(adjust_spec(n, removed)) == depth(n),
        node_leaves(adjust_spec(n, removed)) == node_leaves(n).map_values(
            |p: (PaneId, PaneContent)| (p.0, adjust_content(p.1, removed)),
        ),
    decreases n,
{
    match n {
        LayoutNode::Leaf { .. } => {
            assert(node_leaves(adjust_spec(n, removed)) =~= node_leaves(n).map_values(
                |p: (PaneId, PaneContent)| (p.0, adjust_content(p.1, removed)),
            ));
        },
        LayoutNode::Split { first, second, .. } => {
            lemma_adjust_leaves(*first, removed);
            lemma_adjust_leaves(*second, removed);
            assert(node_leaves(adjust_spec(n, removed)) =~= node_leaves(n).map_values(
                |p: (PaneId, PaneContent)| (p.0, adjust_content(p.1, removed)),
            ));
        },
    }
}

/// Resizing moves borders only: the panes and their order stay.
pub proof fn lemma_resize_leaves(n: LayoutNode, t: PaneId, delta: i16, axis: SplitDir, total: Rect)
    ensures
        node_leaves(resize_spec(n, t, delta, axis, total)) == node_leaves(n),
        depth(resize_spec(n, t, delta, axis, total)) == depth(n),
    decreases n,
{
    match n {
        LayoutNode::Leaf { .. } => {},
        LayoutNode::Split { first, second, .. } => {
            lemma_resize_leaves(*first, t, delta, axis, total);
            lemma_resize_leaves(*second, t, delta, axis, total);
        },
    }
}

/// Resolving lays out every pane of the tree, in order, each once, and
/// every rectangle fits on the screen.
pub proof fn lemma_resolve_leaves(n: LayoutNode, r: Rect)
    requires
        room(n, r),
        ratios_ok(n),
    ensures
        resolve_spec(n, r).map_values(|p: PaneInfo| (p.id, p.content)) == node_leaves(n),
        forall|i: int| 0 <= i < resolve_spec(n, r).len() ==> (#[trigger] resolve_spec(n, r)[i]).rect.fits(),
    decreases n,
{
    match n {
        LayoutNode::Leaf { .. } => {
            assert(resolve_spec(n, r).map_values(|p: PaneInfo| (p.id, p.content)) =~= node_leaves(n));
        },
        LayoutNode::Split { dir, ratio, first, second } => {
            let (r0, r1) = child_rects(r, dir, ratio as int);
            lemma_child_room(r, dir, ratio as int, (depth(n) - 1) as nat);
            lemma_resolve_leaves(*first, r0);
            lemma_resolve_leaves(*second, r1);
            let x = resolve_spec(*first, r0);
            let y = resolve_spec(*second, r1);
            assert(resolve_spec(n, r) == x + y);
            assert(resolve_spec(n, r).map_values(|p: PaneInfo| (p.id, p.content)) =~= node_leaves(n));
            assert forall|i: int| 0 <= i < resolve_spec(n, r).len() implies (#[trigger] resolve_spec(n, r)[i]).rect.fits() by {
                if i < x.len() {
                    assert(resolve_spec(n, r)[i] == x[i]);
                } else {
                    assert(resolve_spec(n, r)[i] == y[i - x.len()]);
                }
            }
        },
    }
}


/// The index of the first pane with id `id`.
pub open spec fn find_index(panes: Seq<PaneInfo>, id: PaneId) -> Option<int>
    decreases panes.len(),
{
    if panes.len() == 0 {
        None
    } else {
        match find_index(panes.drop_last(), id) {
            Some(i) => Some(i),
            None => if panes.last().id == id { Some(panes.len() - 1) } else { None },
        }
    }
}

/// The first pane with id `id`.
pub open spec fn find_pane(panes: Seq<PaneInfo>, id: PaneId) -> Option<PaneInfo> {
    match find_index(panes, id) {
        Some(i) => Some(panes[i]),
        None => None,
    }
}

proof fn lemma_find_index(panes: Seq<PaneInfo>, id: PaneId)
    ensures
        match find_index(panes, id) {
            Some(i) => 0 <= i < panes.len() && panes[i].id == id && forall|j: int| 0 <= j < i ==> panes[j].id != id,
            None => forall|j: int| 0 <= j < panes.len() ==> panes[j].id != id,
        },
    decreases panes.len(),
{
    if panes.len() > 0 {
        let d = panes.drop_last();
        lemma_find_index(d, id);
        assert(forall|j: int| 0 <= j < d.len() ==> d[j] == panes[j]);
    }
}

fn find_in(panes: &Vec<PaneInfo>, id: PaneId) -> (r: Option<usize>)
    ensures
        match r {
            Some(i) => i < panes@.len() && find_index(panes@, id) == Some(i as int),
            None => find_index(panes@, id) is None,
        },
{
    let mut i: usize = 0;
    while i < panes.len()
        invariant
            i <= panes@.len(),
            find_index(panes@.take(i as int), id) is None,
        decreases panes@.len() - i,
    {
        assert(panes@.take(i + 1).drop_last() =~= panes@.take(i as int));
        if panes[i].id.0 == id.0 {
            proof {
                lemma_find_index_prefix(panes@, id, i + 1);
            }
            return Some(i);
        }
        i = i + 1;
    }
    assert(panes@.take(panes@.len() as int) =~= panes@);
    None
}

/// The first match in a prefix that has one is the first match overall.
proof fn lemma_find_index_prefix(panes: Seq<PaneInfo>, id: PaneId, k: int)
    requires
        0 <= k <= panes.len(),
        find_index(panes.take(k), id) is Some,
    ensures
        find_index(panes, id) == find_index(panes.take(k), id),
    decreases panes.len() - k,
{
    if k < panes.len() {
        assert(panes.take(k + 1).drop_last() =~= panes.take(k));
        lemma_find_index_prefix(panes, id, k + 1);
    } else {
        assert(panes.take(k) =~= panes);
    }
}

/// The middle cell of a rectangle, rounded toward its top left.
pub open spec fn center(r: Rect) -> (int, int) {
    (r.x + r.width / 2, r.y + r.height / 2)
}

/// Whether pane `o` lies wholly on side `dir` of rectangle `f`, with its
/// middle past `f`'s middle.
pub open spec fn on_side(o: Rect, f: Rect, dir: Direction) -> bool {
    let (cx, cy) = center(f);
    let (ox, oy) = center(o);
    match dir {
        Direction::Left => ox < cx && o.x + o.width <= f.x,
        Direction::Right => ox > cx && o.x >= f.x + f.width,
        Direction::Up => oy < cy && o.y + o.height <= f.y,
        Direction::Down => oy > cy && o.y >= f.y + f.height,
    }
}

pub open spec fn abs_int(v: int) -> int {
    if v < 0 { -v } else { v }
}

/// How far pane `o` is from `f` going in direction `dir`: the distance
/// along that direction counts twice that across it.
pub open spec fn side_distance(o: Rect, f: Rect, dir: Direction) -> int {
    let (cx, cy) = center(f);
    let (ox, oy) = center(o);
    match dir {
        Direction::Left | Direction::Right => abs_int(ox - cx) * 2 + abs_int(oy - cy),
        Direction::Up | Direction::Down => abs_int(oy - cy) * 2 + abs_int(ox - cx),
    }
}

/// The nearest pane on side `dir` of `f` among the first `n` panes, other
/// than `from`; of equally near ones the first.
pub open spec fn nearest(panes: Seq<PaneInfo>, n: int, from: PaneId, f: Rect, dir: Direction) -> Option<(PaneId, int)>
    decreases n,
{
    if n <= 0 {
        None
    } else {
        let prev = nearest(panes, n - 1, from, f, dir);
        let o = panes[n - 1];
        if o.id == from || !on_side(o.rect, f, dir) {
            prev
        } else {
            let d = side_distance(o.rect, f, dir);
            match prev {
                Some(b) => if d < b.1 { Some((o.id, d)) } else { prev },
                None => Some((o.id, d)),
            }
        }
    }
}

/// The pane next to `from` in direction `dir`, among the panes as laid out.
pub open spec fn adjacent_spec(panes: Seq<PaneInfo>, from: PaneId, dir: Direction) -> Option<PaneId> {
    match find_pane(panes, from) {
        None => None,
        Some(p) => match nearest(panes, panes.len() as int, from, p.rect, dir) {
            Some(b) => Some(b.0),
            None => None,
        },
    }
}

/// Every rectangle in the list fits on the screen.
pub open spec fn all_fit(panes: Seq<PaneInfo>) -> bool {
    forall|i: int| 0 <= i < panes.len() ==> (#[trigger] panes[i]).rect.fits()
}

fn rect_center(r: &Rect) -> (c: (i32, i32))
    ensures
        c.0 == center(*r).0,
        c.1 == center(*r).1,
{
    (r.x as i32 + r.width as i32 / 2, r.y as i32 + r.height as i32 / 2)
}

fn nearest_pane(panes: &Vec<PaneInfo>, from: PaneId, f: Rect, dir: Direction) -> (r: Option<PaneId>)
    requires
        all_fit(panes@),
        f.fits(),
    ensures
        r == match nearest(panes@, panes@.len() as int, from, f, dir) {
            Some(b) => Some(b.0),
            None => None,
        },
{
    let (cx, cy) = rect_center(&f);
    let mut best: Option<(PaneId, i32)> = None;
    let mut i: usize = 0;
    while i < panes.len()
        invariant
            i <= panes@.len(),
            all_fit(panes@),
            f.fits(),
            cx == center(f).0,
            cy == center(f).1,
            match best {
                Some(b) => nearest(panes@, i as int, from, f, dir) == Some((b.0, b.1 as int)),
                None => nearest(panes@, i as int, from, f, dir) is None,
            },
        decreases panes@.len() - i,
    {
        let info = &panes[i];
        assert(info.rect.fits());
        if info.id.0 != from.0 {
            let (ox, oy) = rect_center(&info.rect);
            let ok = match dir {
                Direction::Left => ox < cx && info.rect.x + info.rect.width <= f.x,
                Direction::Right => ox > cx && info.rect.x >= f.x + f.width,
                Direction::Up => oy < cy && info.rect.y + info.rect.height <= f.y,
                Direction::Down => oy > cy && info.rect.y >= f.y + f.height,
            };
            if ok {
                let dx: i32 = if ox < cx { cx - ox } else { ox - cx };
                let dy: i32 = if oy < cy { cy - oy } else { oy - cy };
                let dist: i32 = match dir {
                    Direction::Left | Direction::Right => dx * 2 + dy,
                    Direction::Up | Direction::Down => dy * 2 + dx,
                };
                let better = match best {
                    None => true,
                    Some(b) => dist < b.1,
                };
                if better {
                    best = Some((info.id, dist));
                }
            }
        }
        i = i + 1;
    }
    match best {
        Some(b) => Some(b.0),
        None => None,
    }
}


/// The panes of the editor: a layout tree, the id the next new pane
/// gets, and the panes as last resolved onto the screen.
pub struct LayoutState {
    root: LayoutNode,
    next_id: u32,
    resolved: Vec<PaneInfo>,
}

impl LayoutState {
    pub closed spec fn tree(&self) -> LayoutNode {
        self.root
    }

    pub closed spec fn next_pane_id(&self) -> u32 {
        self.next_id
    }

    /// The panes as last resolved.
    pub closed spec fn resolved_view(&self) -> Seq<PaneInfo> {
        self.resolved@
    }

    /// The shares are within the scale, there are no more panes than ids
    /// given out, and every resolved rectangle fits on the screen.
    pub closed spec fn wf(&self) -> bool {
        &&& ratios_ok(self.root)
        &&& node_leaves(self.root).len() <= self.next_id
        &&& all_fit(self.resolved@)
    }

    /// A layout of one pane, id 0, showing buffer `buffer_index`.
    pub fn new(buffer_index: usize) -> (l: LayoutState)
        ensures
            l.wf(),
            l.tree() == (LayoutNode::Leaf { id: PaneId(0), content: PaneContent::Buffer(buffer_index) }),
            l.next_pane_id() == 1,
            l.resolved_view() == Seq::<PaneInfo>::empty(),
    {
        let l = LayoutState {
            root: LayoutNode::Leaf { id: PaneId(0), content: PaneContent::Buffer(buffer_index) },
            next_id: 1,
            resolved: Vec::new(),
        };
        proof {
            assert(node_leaves(l.root).len() == 1);
        }
        l
    }

    /// Lays the tree out in `total`.
    pub fn resolve(&mut self, total: Rect)
        requires
            old(self).wf(),
            room(old(self).tree(), total),
        ensures
            final(self).wf(),
            final(self).tree() == old(self).tree(),
            final(self).next_pane_id() == old(self).next_pane_id(),
            final(self).resolved_view() == resolve_spec(old(self).tree(), total),
    {
        self.resolved.clear();
        resolve_node(&self.root, total, &mut self.resolved);
        proof {
            assert(self.resolved@ =~= resolve_spec(self.root, total));
            lemma_resolve_leaves(self.root, total);
        }
    }

    /// The panes as last resolved.
    pub fn panes(&self) -> (r: &[PaneInfo])
        ensures
            r@ == self.resolved_view(),
    {
        self.resolved.as_slice()
    }

    /// The number of panes as last resolved.
    pub fn pane_count(&self) -> (r: usize)
        ensures
            r == self.resolved_view().len(),
    {
        self.resolved.len()
    }

    /// The rectangle of pane `id`.
    pub fn pane_rect(&self, id: PaneId) -> (r: Option<Rect>)
        ensures
            r == match find_pane(self.resolved_view(), id) {
                Some(p) => Some(p.rect),
                None => None,
            },
    {
        match find_in(&self.resolved, id) {
            Some(i) => Some(self.resolved[i].rect),
            None => None,
        }
    }

    /// The buffer pane `id` shows, if it shows one.
    pub fn pane_buffer(&self, id: PaneId) -> (r: Option<usize>)
        ensures
            r == match find_pane(self.resolved_view(), id) {
                Some(p) => match p.content {
                    PaneContent::Buffer(b) => Some(b),
                    PaneContent::Terminal(_) => None,
                },
                None => None,
            },
    {
        match find_in(&self.resolved, id) {
            Some(i) => match self.resolved[i].content {
                PaneContent::Buffer(b) => Some(b),
                PaneContent::Terminal(_) => None,
            },
            None => None,
        }
    }

    /// What pane `id` shows.
    pub fn pane_content(&self, id: PaneId) -> (r: Option<PaneContent>)
        ensures
            r == match find_pane(self.resolved_view(), id) {
                Some(p) => Some(p.content),
                None => None,
            },
    {
        match find_in(&self.resolved, id) {
            Some(i) => Some(self.resolved[i].content),
            None => None,
        }
    }

    /// Makes pane `id` show `content`, in the tree and in the resolved panes.
    pub fn set_pane_content(&mut self, id: PaneId, content: PaneContent)
        requires
            old(self).wf(),
        ensures
            final(self).wf(),
            final(self).tree() == set_content_spec(old(self).tree(), id, content),
            final(self).next_pane_id() == old(self).next_pane_id(),
            final(self).resolved_view() == match find_index(old(self).resolved_view(), id) {
                Some(i) => old(self).resolved_view().update(
                    i,
                    PaneInfo { id: old(self).resolved_view()[i].id, rect: old(self).resolved_view()[i].rect, content },
                ),
                None => old(self).resolved_view(),
            },
    {
        let mut root = LayoutNode::Leaf { id: PaneId(u32::MAX), content: PaneContent::Buffer(0) };
        std::mem::swap(&mut root, &mut self.root);
        proof {
            lemma_set_content_leaves(root, id, content);
        }
        self.root = set_content_in_node(root, id, content);
        match find_in(&self.resolved, id) {
            Some(i) => {
                let old_info = self.resolved[i];
                self.resolved.set(i, PaneInfo { id: old_info.id, rect: old_info.rect, content });
                proof {
                    lemma_find_index(old(self).resolved@, id);
                    assert forall|j: int| 0 <= j < self.resolved@.len() implies (#[trigger] self.resolved@[j]).rect.fits() by {
                        assert(old(self).resolved@[j].rect.fits());
                    }
                }
            },
            None => {},
        }
    }

    /// Makes pane `id` show buffer `buffer_index`.
    pub fn set_pane_buffer(&mut self, id: PaneId, buffer_index: usize)
        requires
            old(self).wf(),
        ensures
            final(self).wf(),
            final(self).tree() == set_content_spec(old(self).tree(), id, PaneContent::Buffer(buffer_index)),
            final(self).next_pane_id() == old(self).next_pane_id(),
            final(self).resolved_view() == match find_index(old(self).resolved_view(), id) {
                Some(i) => old(self).resolved_view().update(
                    i,
                    PaneInfo {
                        id: old(self).resolved_view()[i].id,
                        rect: old(self).resolved_view()[i].rect,
                        content: PaneContent::Buffer(buffer_index),
                    },
                ),
                None => old(self).resolved_view(),
            },
    {
        self.set_pane_content(id, PaneContent::Buffer(buffer_index));
    }

    /// Splits pane `pane_id` in direction `dir`; the new pane shows buffer
    /// `new_buffer_index`. Returns the new pane's id, or `None` when there
    /// is no such pane.
    pub fn split_pane(&mut self, pane_id: PaneId, dir: SplitDir, new_buffer_index: usize) -> (r: Option<PaneId>)
        requires
            old(self).wf(),
            old(self).next_pane_id() < u32::MAX,
        ensures
            final(self).wf(),
            final(self).tree() == split_spec(
                old(self).tree(),
                pane_id,
                dir,
                PaneId(old(self).next_pane_id()),
                PaneContent::Buffer(new_buffer_index),
            ),
            final(self).resolved_view() == old(self).resolved_view(),
            has_leaf(old(self).tree(), pane_id) ==> r == Some(PaneId(old(self).next_pane_id())) && final(self).next_pane_id()
                == old(self).next_pane_id() + 1,
            !has_leaf(old(self).tree(), pane_id) ==> r is None && final(self).next_pane_id() == old(self).next_pane_id(),
    {
        self.split_pane_with_content(pane_id, dir, PaneContent::Buffer(new_buffer_index))
    }

    /// Splits pane `pane_id` in direction `dir`; the new pane shows
    /// `new_content`. Returns the new pane's id, or `None` when there is no
    /// such pane.
    pub fn split_pane_with_content(&mut self, pane_id: PaneId, dir: SplitDir, new_content: PaneContent) -> (r: Option<PaneId>)
        requires
            old(self).wf(),
            old(self).next_pane_id() < u32::MAX,
        ensures
            final(self).wf(),
            final(self).tree() == split_spec(old(self).tree(), pane_id, dir, PaneId(old(self).next_pane_id()), new_content),
            final(self).resolved_view() == old(self).resolved_view(),
            has_leaf(old(self).tree(), pane_id) ==> r == Some(PaneId(old(self).next_pane_id())) && final(self).next_pane_id()
                == old(self).next_pane_id() + 1,
            !has_leaf(old(self).tree(), pane_id) ==> r is None && final(self).next_pane_id() == old(self).next_pane_id(),
    {
        let new_id = PaneId(self.next_id);
        self.next_id = self.next_id + 1;
        let mut root = LayoutNode::Leaf { id: PaneId(u32::MAX), content: PaneContent::Buffer(0) };
        std::mem::swap(&mut root, &mut self.root);
        proof {
            lemma_split_leaves(root, pane_id, dir, new_id, new_content);
            if has_leaf(root, pane_id) {
                let l = node_leaves(root);
                let i = choose|i: int|
                    0 <= i < l.len() && (#[trigger] l[i]).0 == pane_id && node_leaves(split_spec(root, pane_id, dir, new_id, new_content))
                        == l.take(i + 1).push((new_id, new_content)) + l.skip(i + 1);
                assert(node_leaves(split_spec(root, pane_id, dir, new_id, new_content)).len() == l.len() + 1);
            }
        }
        let (r, found) = split_node(root, pane_id, dir, new_id, new_content);
        self.root = r;
        if found {
            Some(new_id)
        } else {
            self.next_id = self.next_id - 1;
            None
        }
    }

    /// Puts the whole layout above a new pane showing `content`, each
    /// taking half the height. Returns the new pane's id.
    pub fn wrap_root_bottom(&mut self, content: PaneContent) -> (r: PaneId)
        requires
            old(self).wf(),
            old(self).next_pane_id() < u32::MAX,
        ensures
            final(self).wf(),
            r == PaneId(old(self).next_pane_id()),
            final(self).next_pane_id() == old(self).next_pane_id() + 1,
            final(self).tree() == (LayoutNode::Split {
                dir: SplitDir::Vertical,
                ratio: (RATIO_SCALE / 2) as u32,
                first: Box::new(old(self).tree()),
                second: Box::new(LayoutNode::Leaf { id: r, content }),
            }),
            final(self).resolved_view() == old(self).resolved_view(),
    {
        let new_id = PaneId(self.next_id);
        self.next_id = self.next_id + 1;
        let mut old_root = LayoutNode::Leaf { id: PaneId(u32::MAX), content: PaneContent::Buffer(0) };
        std::mem::swap(&mut old_root, &mut self.root);
        self.root = LayoutNode::Split {
            dir: SplitDir::Vertical,
            ratio: RATIO_SCALE / 2,
            first: Box::new(old_root),
            second: Box::new(LayoutNode::Leaf { id: new_id, content }),
        };
        proof {
            let leaf = LayoutNode::Leaf { id: new_id, content };
            assert(node_leaves(leaf).len() == 1);
            assert(ratios_ok(leaf));
        }
        new_id
    }

    /// Closes pane `pane_id`. The last pane is never closed. Returns
    /// whether a pane was closed.
    pub fn close_pane(&mut self, pane_id: PaneId) -> (r: bool)
        requires
            old(self).wf(),
        ensures
            final(self).wf(),
            final(self).next_pane_id() == old(self).next_pane_id(),
            final(self).resolved_view() == old(self).resolved_view(),
            node_leaves(old(self).tree()).len() <= 1 ==> !r && final(self).tree() == old(self).tree(),
            node_leaves(old(self).tree()).len() > 1 ==> r == has_leaf(old(self).tree(), pane_id) && final(self).tree()
                == close_spec(old(self).tree(), pane_id),
    {
        if leaf_count_of(&self.root) <= 1 {
            return false;
        }
        let mut root = LayoutNode::Leaf { id: PaneId(u32::MAX), content: PaneContent::Buffer(0) };
        std::mem::swap(&mut root, &mut self.root);
        proof {
            lemma_close_leaves(root, pane_id);
            if root is Leaf {
                assert(node_leaves(root).len() == 1);
            }
            if root is Split && has_leaf(root, pane_id) {
                let l = node_leaves(root);
                let i = choose|i: int|
                    0 <= i < l.len() && (#[trigger] l[i]).0 == pane_id && node_leaves(close_spec(root, pane_id)) == l.remove(i);
            }
        }
        let (r, found) = close_node(root, pane_id);
        self.root = r;
        found
    }

    /// The first pane of the tree.
    pub fn first_pane(&self) -> (r: PaneId)
        ensures
            r == first_id(self.tree()),
    {
        first_leaf(&self.root)
    }

    /// The nearest pane on side `direction` of pane `from`, as last
    /// resolved.
    pub fn adjacent_pane(&self, from: PaneId, direction: Direction) -> (r: Option<PaneId>)
        requires
            self.wf(),
        ensures
            r == adjacent_spec(self.resolved_view(), from, direction),
    {
        match find_in(&self.resolved, from) {
            None => None,
            Some(i) => {
                let f = self.resolved[i].rect;
                nearest_pane(&self.resolved, from, f, direction)
            },
        }
    }

    /// Moves the borders of the splits in direction `axis` that hold pane
    /// `pane_id` by `delta` cells of `total` (growing the pane when
    /// positive).
    pub fn resize_split(&mut self, pane_id: PaneId, delta: i16, axis: SplitDir, total: Rect)
        requires
            old(self).wf(),
        ensures
            final(self).wf(),
            final(self).tree() == resize_spec(old(self).tree(), pane_id, delta, axis, total),
            final(self).next_pane_id() == old(self).next_pane_id(),
            final(self).resolved_view() == old(self).resolved_view(),
    {
        let mut root = LayoutNode::Leaf { id: PaneId(u32::MAX), content: PaneContent::Buffer(0) };
        std::mem::swap(&mut root, &mut self.root);
        proof {
            lemma_resize_leaves(root, pane_id, delta, axis, total);
        }
        self.root = resize_in_node(root, pane_id, delta, axis, total);
    }

    /// Whether the tree has pane `id`.
    pub fn pane_exists(&self, id: PaneId) -> (r: bool)
        ensures
            r == has_leaf(self.tree(), id),
    {
        find_leaf(&self.root, id)
    }

    /// The panes that show buffer `buffer_index`, in order.
    pub fn panes_with_buffer(&self, buffer_index: usize) -> (r: Vec<PaneId>)
        ensures
            r@ == buffer_panes(self.tree(), buffer_index),
    {
        let mut result: Vec<PaneId> = Vec::new();
        collect_panes_with_buffer(&self.root, buffer_index, &mut result);
        proof {
            assert(Seq::<PaneId>::empty() + buffer_panes(self.root, buffer_index) =~= buffer_panes(self.root, buffer_index));
        }
        result
    }

    /// Renumbers the buffers of the panes once buffer `removed_index` is gone.
    pub fn adjust_buffer_indices_after_remove(&mut self, removed_index: usize)
        requires
            old(self).wf(),
        ensures
            final(self).wf(),
            final(self).tree() == adjust_spec(old(self).tree(), removed_index),
            final(self).next_pane_id() == old(self).next_pane_id(),
            final(self).resolved_view() == old(self).resolved_view(),
    {
        let mut root = LayoutNode::Leaf { id: PaneId(u32::MAX), content: PaneContent::Buffer(0) };
        std::mem::swap(&mut root, &mut self.root);
        proof {
            lemma_adjust_leaves(root, removed_index);
        }
        self.root = adjust_indices(root, removed_index);
    }

    /// The buffer pane `id` shows, if it shows one.
    pub fn pane_buffer_index(&self, id: PaneId) -> (r: Option<usize>)
        ensures
            r == match find_pane(self.resolved_view(), id) {
                Some(p) => match p.content {
                    PaneContent::Buffer(b) => Some(b),
                    PaneContent::Terminal(_) => None,
                },
                None => None,
            },
    {
        self.pane_buffer(id)
    }
}

} // verus!
