//! The vocabulary shared by the host and its modules: modes, movements,
//! actions, draw intents and screen rectangles.

use crate::client::layout::{
    collapse_at, collapse_down, collapsed, cut_next, cut_upto, cut_vertically, cuts,
    first_half, first_stop, frontier, has_halves, holder, holder_from, is_bsp, is_leaf,
    lemma_bsp_well_formed, lemma_collapse_at, lemma_collapse_settled, lemma_cut_all,
    lemma_cut_next, lemma_first_stop_skips, lemma_gap, lemma_same_shape, lemma_search_on,
    passes, place, reached, second_half, settled_at, settled_from, two_to, unplace,
    well_formed,
};
use crate::client::console::{Handled, HostError, TerminalEvent, TerminalOp};
use crate::module::editor::model::least;
use crate::module::ModuleEvent;
use std::collections::VecDeque;
use vstd::prelude::*;

pub mod console;
pub mod layout;

verus! {

/// The editing mode of a module.
#[derive(Clone, Copy, PartialEq, Eq, Structural, Debug)]
pub enum Mode {
    Normal,
    Insert,
    Visual,
    Command,
}

/// A cursor motion.
#[derive(Clone, Copy, PartialEq, Eq, Structural, Debug)]
pub enum Movement {
    Up,
    Down,
    Left,
    Right,
    LineEnd,
    LineStart,
}

/// What a key press asks a module to do.
#[derive(PartialEq, Eq, Clone, Debug)]
pub enum Action {
    Move(Movement),
    ChangeMode(Mode),
    InsertChar(char),
    Backspace,
    Delete,
    Quit,
    Noop,
    ScrollBy(i32),
    /// The module's new rectangle, as top, right, bottom, left.
    Resize(u16, u16, u16, u16),
    OpenFile(String),
    WriteFile(String),
    SaveFile,
}

/// The shape of the terminal cursor.
#[derive(Clone, Copy, PartialEq, Eq, Structural, Debug)]
pub enum CursorStyle {
    SteadyBlock,
    BlinkingBar,
    SteadyUnderScore,
    BlinkingBlock,
}

/// What a module asks the host to draw, in the module's own coordinates.
#[derive(Clone, PartialEq, Eq, Debug)]
pub enum DrawAction {
    /// Column, row and shape of the cursor.
    CursorTo(u32, u32, CursorStyle),
    AskRedraw(Redraw),
}

/// How much of a module has to be drawn again.
#[derive(Clone, PartialEq, Eq, Debug)]
pub enum Redraw {
    Cursor,
    All,
    /// A row and its new contents.
    Line(u32, String),
    Range(u32, u32),
}

/// A `Redraw` with its text as a sequence of characters.
pub enum RedrawView {
    Cursor,
    All,
    Line(u32, Seq<char>),
    Range(u32, u32),
}

impl View for Redraw {
    type V = RedrawView;

    open spec fn view(&self) -> RedrawView {
        match self {
            Redraw::Cursor => RedrawView::Cursor,
            Redraw::All => RedrawView::All,
            Redraw::Line(y, s) => RedrawView::Line(*y, s@),
            Redraw::Range(a, b) => RedrawView::Range(*a, *b),
        }
    }
}

/// A `DrawAction` with its text as a sequence of characters.
pub enum DrawActionView {
    CursorTo(u32, u32, CursorStyle),
    AskRedraw(RedrawView),
}

impl View for DrawAction {
    type V = DrawActionView;

    open spec fn view(&self) -> DrawActionView {
        match self {
            DrawAction::CursorTo(x, y, style) => DrawActionView::CursorTo(*x, *y, *style),
            DrawAction::AskRedraw(r) => DrawActionView::AskRedraw(r@),
        }
    }
}

/// The views of a sequence of draw intents, in order.
pub open spec fn draw_views(v: Seq<DrawAction>) -> Seq<DrawActionView> {
    v.map_values(|d: DrawAction| d@)
}

/// A rectangle of rows `top..bottom` and columns `left..right`.
#[derive(Debug, Clone, Copy, PartialEq, Eq, Structural)]
pub struct Container {
    pub top: u32,
    pub right: u32,
    pub bottom: u32,
    pub left: u32,
}

impl Default for Container {
    fn default() -> (r: Self)
        ensures
            r == (Container { top: 0, right: 0, bottom: 0, left: 0 }),
    {
        Self { top: 0, left: 0, bottom: 0, right: 0 }
    }
}

impl Container {
    /// The distance from the left edge to the right edge: 0 where the right
    /// edge lies before the left one.
    pub open spec fn width(&self) -> int {
        if self.right >= self.left {
            self.right - self.left
        } else {
            0
        }
    }

    /// The distance from the top edge to the bottom edge: 0 where the bottom
    /// edge lies above the top one.
    pub open spec fn height(&self) -> int {
        if self.bottom >= self.top {
            self.bottom - self.top
        } else {
            0
        }
    }

    /// The width of the rectangle.
    pub fn get_width(&self) -> (w: u32)
        ensures
            w == self.width(),
    {
        if self.right >= self.left {
            self.right - self.left
        } else {
            0
        }
    }

    /// The height of the rectangle.
    pub fn get_height(&self) -> (h: u32)
        ensures
            h == self.height(),
    {
        if self.bottom >= self.top {
            self.bottom - self.top
        } else {
            0
        }
    }
}

/// A node of the layout tree.
#[derive(Debug, Clone, Copy, PartialEq, Eq, Structural)]
pub struct LayoutNode {
    /// The part of the screen that the node stands for.
    pub container: Container,
    /// The module that is shown in that part.
    pub module_id: Option<usize>,
    /// Whether the node is occupied: by a module, or by modules below it.
    pub has_child: bool,
    pub left: Option<usize>,
    pub right: Option<usize>,
}

/// The layout of the screen: a tree that cuts it into halves, and into halves
/// of halves.
pub struct ContainerLayout {
    pub layout_tree: Vec<LayoutNode>,
}

/// Why the layout refused a request.
#[derive(Debug, Clone, Copy, PartialEq, Eq, Structural)]
pub enum LayoutError {
    /// No part of the screen is left for another module.
    Full,
    /// No part of the screen shows the module.
    Missing,
}

impl ContainerLayout {
    /// A layout without any node. It has room for a module once it is set
    /// up.
    pub fn new() -> (r: Self)
        ensures
            r.layout_tree@.len() == 0,
    {
        ContainerLayout { layout_tree: Vec::new() }
    }
}

/// 2 to the power of `expoent`.
fn power_of_two(expoent: u16) -> (r: usize)
    requires
        expoent <= 30,
    ensures
        r == two_to(expoent as nat),
        1 <= r <= 0x4000_0000,
{
    let mut value: usize = 1;
    let mut i: u16 = 0;
    assert(two_to(30) == 0x4000_0000) by {
        reveal_with_fuel(two_to, 31);
    }
    while i < expoent
        invariant
            i <= expoent <= 30,
            value == two_to(i as nat),
            1 <= value,
            value * two_to((30 - i) as nat) == two_to(30),
            two_to(30) == 0x4000_0000,
        decreases expoent - i,
    {
        assert(value * two_to((30 - i) as nat) == 2 * value * two_to((30 - i - 1) as nat))
            by (nonlinear_arith)
            requires
                two_to((30 - i) as nat) == 2 * two_to((30 - i - 1) as nat),
        ;
        assert(2 * value <= 0x4000_0000) by (nonlinear_arith)
            requires
                2 * value * two_to((30 - i - 1) as nat) == 0x4000_0000,
                two_to((30 - i - 1) as nat) >= 1,
                value >= 1,
        ;
        value = value * 2;
        i += 1;
    }
    assert(value <= 0x4000_0000) by (nonlinear_arith)
        requires
            value * two_to((30 - i) as nat) == 0x4000_0000,
            two_to((30 - i) as nat) >= 1,
            value >= 1,
    ;
    value
}

/// The two halves of `parent`.
fn halves(parent: Container, vertical: bool) -> (r: (Container, Container))
    ensures
        r.0 == first_half(parent, vertical),
        r.1 == second_half(parent, vertical),
{
    let edge_w = parent.left + (parent.get_width() / 2);
    let edge_h = parent.top + (parent.get_height() / 2);
    let first = Container {
        top: parent.top,
        right: if vertical {
            edge_w
        } else {
            parent.right
        },
        bottom: if !vertical {
            edge_h
        } else {
            parent.bottom
        },
        left: parent.left,
    };
    let second = Container {
        top: if !vertical {
            edge_h
        } else {
            parent.top
        },
        right: parent.right,
        bottom: parent.bottom,
        left: if vertical {
            edge_w
        } else {
            parent.left
        },
    };
    (first, second)
}

/// A node that is not occupied and has no children.
fn free_leaf(container: Container) -> (r: LayoutNode)
    ensures
        r == crate::client::layout::free_leaf_at(container),
{
    LayoutNode { container, module_id: None, has_child: false, left: None, right: None }
}

/// A layout that places modules by itself.
pub trait ContainerAutoFlow {
    /// The nodes of the layout tree, the root first.
    spec fn nodes(&self) -> Seq<LayoutNode>;

    /// Whether the tree's links can be followed: every node is a leaf or has
    /// its two halves, and every node but the root is a half of its parent.
    spec fn wf(&self) -> bool;

    /// Builds the tree for a screen of `screen_w` columns and `screen_h`
    /// rows, cut until it has at least 2 to the power of `expoent` nodes.
    /// What the layout held before is dropped.
    fn setup_bsp(&mut self, expoent: u16, screen_w: u32, screen_h: u32)
        requires
            expoent <= 30,
        ensures
            is_bsp(final(self).nodes(), expoent as nat, screen_w, screen_h),
            final(self).wf(),
    ;

    /// Gives the module a part of the screen and returns it: the first free
    /// node that a search from the root finds, level by level; or the node
    /// that holds a module and that the search finds first is cut, and the
    /// module gets its second half. `constraints` is not looked at.
    fn push_module(&mut self, module_id: usize, constraints: Vec<Constraint>) -> (r: Result<
        Container,
        LayoutError,
    >)
        requires
            old(self).wf(),
        ensures
            (final(self).nodes(), r) == place(old(self).nodes(), module_id),
            final(self).wf(),
    ;

    /// Takes the module off the screen: the first node that holds it is
    /// emptied, and the tree is collapsed.
    fn remove_module(&mut self, module_id: usize) -> (r: Result<(), LayoutError>)
        requires
            old(self).wf(),
        ensures
            (final(self).nodes(), r) == unplace(old(self).nodes(), module_id),
            final(self).wf(),
    ;

    /// The part of the screen that shows the module: the rectangle of the
    /// first node that holds it.
    fn get_module(&self, module_id: usize) -> (r: Result<Container, LayoutError>)
        ensures
            r == match holder(self.nodes(), module_id) {
                Some(k) => Ok::<Container, LayoutError>(self.nodes()[k].container),
                None => Err::<Container, LayoutError>(LayoutError::Missing),
            },
    ;
}

impl ContainerLayout {
    /// The tree for a screen of `screen_w` columns and `screen_h` rows.
    fn build(expoent: u16, screen_w: u32, screen_h: u32) -> (tree: Vec<LayoutNode>)
        requires
            expoent <= 30,
        ensures
            is_bsp(tree@, expoent as nat, screen_w, screen_h),
    {
        let target = power_of_two(expoent);
        let ghost p = cuts(expoent as nat);
        let ghost root = Container { top: 0, right: screen_w, bottom: screen_h, left: 0 };
        let mut tree: Vec<LayoutNode> = Vec::new();
        tree.push(free_leaf(Container { top: 0, right: screen_w, bottom: screen_h, left: 0 }));
        let mut container_queue = VecDeque::<(usize, bool)>::new();
        container_queue.push_back((0, false));
        let ghost mut done: int = 0;
        assert(two_to(expoent as nat) % 2 == 0 || two_to(expoent as nat) == 1) by {
            if expoent > 0 {
                assert(two_to(expoent as nat) == 2 * two_to((expoent - 1) as nat));
            }
        }
        while container_queue.len() > 0
            invariant
                target == two_to(expoent as nat),
                1 <= target <= 0x4000_0000,
                p == cuts(expoent as nat),
                p % 2 == 1,
                0 <= done <= p,
                cut_upto(tree@, done, root),
                container_queue@.len() == vstd::math::min(2 * done + 1, p) - done,
                forall|i: int|
                    0 <= i < container_queue@.len() ==> #[trigger] container_queue@[i] == (
                        (done + i) as usize,
                        cut_vertically(done + i),
                    ),
            decreases p - done,
        {
            let ghost before = tree@;
            let ghost waiting = container_queue@;
            let (container_idx, vertical) = container_queue.pop_front().unwrap();
            assert(waiting[0] == (done as usize, cut_vertically(done)));
            let parent = tree[container_idx].container;
            let (left_container, right_container) = halves(parent, vertical);
            let left_idx = tree.len();
            let right_idx = left_idx + 1;
            tree.push(free_leaf(left_container));
            tree.push(free_leaf(right_container));
            let mut node = tree[container_idx];
            node.left = Some(left_idx);
            node.right = Some(right_idx);
            tree.set(container_idx, node);
            assert(tree@ =~= cut_next(before, done));
            proof {
                lemma_cut_next(before, done, root);
            }
            let ghost middle = container_queue@;
            if tree.len() < target {
                container_queue.push_back((left_idx, !vertical));
                container_queue.push_back((right_idx, !vertical));
            }
            proof {
                assert(cut_vertically(2 * done + 1) == !cut_vertically(done));
                assert(cut_vertically(2 * done + 2) == !cut_vertically(done));
                assert(middle =~= waiting.subrange(1, waiting.len() as int));
                assert forall|i: int| 0 <= i < container_queue@.len() implies #[trigger] container_queue@[i]
                    == ((done + 1 + i) as usize, cut_vertically(done + 1 + i)) by {
                    if i < middle.len() {
                        assert(container_queue@[i] == middle[i]);
                        assert(middle[i] == waiting[i + 1]);
                    }
                }
                done = done + 1;
            }
        }
        proof {
            lemma_cut_all(tree@, expoent as nat, screen_w, screen_h);
        }
        tree
    }
}

impl ContainerLayout {
    /// The first node that holds the module.
    fn find(&self, module_id: usize) -> (r: Option<usize>)
        ensures
            match r {
                Some(k) => holder(self.layout_tree@, module_id) == Some(k as int) && k
                    < self.layout_tree@.len(),
                None => holder(self.layout_tree@, module_id) is None,
            },
    {
        let n = self.layout_tree.len();
        let mut i: usize = 0;
        while i < n
            invariant
                n == self.layout_tree@.len(),
                i <= n,
                holder(self.layout_tree@, module_id) == holder_from(
                    self.layout_tree@,
                    module_id,
                    i as int,
                ),
            decreases n - i,
        {
            match self.layout_tree[i].module_id {
                Some(e) => {
                    if e == module_id {
                        return Some(i);
                    }
                },
                None => {},
            }
            i += 1;
        }
        None
    }

    /// Moves the module of node `child` up into node `parent`.
    fn lift(&mut self, parent: usize, child: usize)
        requires
            parent < old(self).layout_tree@.len(),
            child < old(self).layout_tree@.len(),
        ensures
            final(self).layout_tree@ == crate::client::layout::promoted(
                old(self).layout_tree@,
                parent as int,
                child as int,
            ),
    {
        let below = self.layout_tree[child];
        let mut above = self.layout_tree[parent];
        above.module_id = below.module_id;
        self.layout_tree.set(parent, above);
        let mut left = self.layout_tree[child];
        left.module_id = None;
        left.has_child = false;
        self.layout_tree.set(child, left);
        assert(self.layout_tree@ =~= crate::client::layout::promoted(
            old(self).layout_tree@,
            parent as int,
            child as int,
        ));
    }
}

impl ContainerAutoFlow for ContainerLayout {
    open spec fn nodes(&self) -> Seq<LayoutNode> {
        self.layout_tree@
    }

    open spec fn wf(&self) -> bool {
        well_formed(self.layout_tree@)
    }

    fn setup_bsp(&mut self, expoent: u16, screen_w: u32, screen_h: u32) {
        self.layout_tree = Self::build(expoent, screen_w, screen_h);
        proof {
            lemma_bsp_well_formed(self.layout_tree@, expoent as nat, screen_w, screen_h);
        }
    }

    /// The search keeps the nodes that it has still to look at in a queue.
    fn push_module(&mut self, module_id: usize, _constraints: Vec<Constraint>) -> (r: Result<
        Container,
        LayoutError,
    >) {
        let ghost t = self.layout_tree@;
        let n = self.layout_tree.len();
        if n == 0 {
            return Err(LayoutError::Full);
        }
        let mut container_queue = VecDeque::<usize>::new();
        container_queue.push_back(0);
        let ghost mut lo: int = 0;
        assert(frontier(t, container_queue@, lo)) by {
            assert(container_queue@[0] == 0);
            assert forall|k: int|
                0 <= k < t.len() && #[trigger] reached(t, k) && crate::client::layout::waits(
                    k,
                    0,
                ) implies container_queue@.contains(k as usize) by {
                assert(container_queue@[0] == k as usize);
            }
        }
        while container_queue.len() > 0
            invariant
                self.layout_tree@ == t,
                t == old(self).layout_tree@,
                t.len() == n,
                well_formed(t),
                frontier(t, container_queue@, lo),
            decreases t.len() - lo,
        {
            let ghost waiting = container_queue@;
            let layout_idx = container_queue.pop_front().unwrap();
            assert(waiting[0] == layout_idx);
            assert(container_queue@ =~= waiting.subrange(1, waiting.len() as int));
            assert(is_leaf(t, layout_idx as int) || has_halves(t, layout_idx as int));
            let node = self.layout_tree[layout_idx];
            if !node.has_child || node.module_id.is_some() {
                proof {
                    assert forall|j: int|
                        0 <= j < layout_idx && #[trigger] reached(t, j) implies passes(t[j]) by {
                        if lo <= j {
                            lemma_gap(t, waiting, lo, j);
                        }
                    }
                    lemma_first_stop_skips(t, 0, layout_idx as int);
                    assert(first_stop(t) == Some(layout_idx as int));
                }
                if !node.has_child {
                    let mut taken = node;
                    taken.module_id = Some(module_id);
                    taken.has_child = true;
                    self.layout_tree.set(layout_idx, taken);
                    proof {
                        lemma_same_shape(t, self.layout_tree@);
                    }
                    return Ok(node.container);
                }
                match (node.left, node.right) {
                    (Some(l_idx), Some(r_idx)) => {
                        let mut first = self.layout_tree[l_idx];
                        first.module_id = node.module_id;
                        first.has_child = true;
                        self.layout_tree.set(l_idx, first);
                        let mut second = self.layout_tree[r_idx];
                        second.module_id = Some(module_id);
                        second.has_child = true;
                        self.layout_tree.set(r_idx, second);
                        let mut parent = node;
                        parent.module_id = None;
                        self.layout_tree.set(layout_idx, parent);
                        proof {
                            lemma_same_shape(t, self.layout_tree@);
                        }
                        return Ok(second.container);
                    },
                    _ => {
                        return Err(LayoutError::Full);
                    },
                }
            }
            proof {
                lemma_search_on(t, waiting, lo);
            }
            if let Some(left) = node.left {
                container_queue.push_back(left);
            }
            if let Some(right) = node.right {
                container_queue.push_back(right);
            }
            proof {
                lo = layout_idx + 1;
            }
        }
        proof {
            assert forall|j: int| 0 <= j < t.len() && #[trigger] reached(t, j) implies passes(
                t[j],
            ) by {
                if lo <= j {
                    lemma_gap(t, container_queue@, lo, j);
                }
            }
            lemma_first_stop_skips(t, 0, t.len() as int);
        }
        Err(LayoutError::Full)
    }

    /// The tree is collapsed sweep after sweep from the last node to the
    /// root, starting over whenever a module has moved up, until a sweep
    /// moves none.
    fn remove_module(&mut self, module_id: usize) -> (r: Result<(), LayoutError>) {
        let n = self.layout_tree.len();
        let found = match self.find(module_id) {
            Some(k) => k,
            None => {
                return Err(LayoutError::Missing);
            },
        };
        let mut node = self.layout_tree[found];
        node.module_id = None;
        node.has_child = false;
        self.layout_tree.set(found, node);
        let ghost goal = collapsed(self.layout_tree@);
        let ghost mut bound: int = n as int;
        proof {
            lemma_same_shape(old(self).layout_tree@, self.layout_tree@);
        }
        let mut have_changes = true;
        while have_changes
            invariant
                self.layout_tree@.len() == n,
                well_formed(self.layout_tree@),
                0 <= bound <= n,
                have_changes ==> goal == collapsed(self.layout_tree@) && settled_from(
                    self.layout_tree@,
                    bound,
                ),
                !have_changes ==> goal == self.layout_tree@,
            decreases
                    (if have_changes {
                        bound + 1
                    } else {
                        0
                    }),
        {
            have_changes = false;
            let ghost limit = bound;
            let mut idx: usize = n;
            while idx > 0 && !have_changes
                invariant
                    self.layout_tree@.len() == n,
                    well_formed(self.layout_tree@),
                    idx <= n,
                    0 <= bound <= limit <= n,
                    !have_changes ==> bound == limit && goal == collapse_down(
                        self.layout_tree@,
                        idx - 1,
                    ) && settled_from(self.layout_tree@, least(idx as int, limit)),
                    have_changes ==> bound < limit && goal == collapsed(self.layout_tree@)
                        && settled_from(self.layout_tree@, bound),
                decreases idx,
            {
                idx -= 1;
                let ghost t = self.layout_tree@;
                proof {
                    assert(is_leaf(t, idx as int) || has_halves(t, idx as int));
                    if idx >= limit {
                        assert(settled_at(t, idx as int));
                    } else {
                        lemma_collapse_at(t, idx as int);
                    }
                }
                let node = self.layout_tree[idx];
                if node.has_child && node.left.is_some() && node.right.is_some()
                    && node.module_id.is_none() {
                    let left_idx = node.left.unwrap();
                    let right_idx = node.right.unwrap();
                    let left_node = self.layout_tree[left_idx];
                    let right_node = self.layout_tree[right_idx];
                    if !right_node.has_child && left_node.has_child {
                        if left_node.module_id.is_some() {
                            self.lift(idx, left_idx);
                            have_changes = true;
                        }
                    } else if right_node.has_child && !left_node.has_child {
                        if right_node.module_id.is_some() {
                            self.lift(idx, right_idx);
                            have_changes = true;
                        }
                    } else if !right_node.has_child && !left_node.has_child {
                        let mut freed = node;
                        freed.has_child = false;
                        self.layout_tree.set(idx, freed);
                    }
                }
                proof {
                    assert(self.layout_tree@ =~= collapse_at(t, idx as int));
                    if have_changes {
                        bound = idx as int;
                        lemma_collapse_settled(self.layout_tree@, n - 1, idx as int);
                    }
                }
            }
        }
        Ok(())
    }

    fn get_module(&self, module_id: usize) -> (r: Result<Container, LayoutError>) {
        match self.find(module_id) {
            Some(k) => Ok(self.layout_tree[k].container),
            None => Err(LayoutError::Missing),
        }
    }
}

/// The edge of the screen that a module is fixed on.
#[derive(Debug, Clone, Copy)]
pub enum Fixture {
    Top,
    Right,
    Bottom,
    Left,
}

/// A wish of a module about its place in the layout.
#[derive(Debug, Clone)]
pub enum Constraint {
    Min(Option<u32>, Option<u32>),
    Max(Option<u32>, Option<u32>),
    Strech(bool, bool),
    Shrink(bool, bool),
    FixOn(Fixture),
}

/// What the program's main loop asks of the host.
pub trait ClientEvent {
    /// Whether the host's layout can be used.
    spec fn ready(&self) -> bool;

    /// Sets the layout up for a terminal of `width` columns and `height`
    /// rows.
    fn load(&mut self, width: u16, height: u16)
        requires
            old(self).ready(),
        ensures
            final(self).ready(),
    ;

    /// Runs one frame on what the terminal reported.
    fn update(&mut self, event: TerminalEvent) -> (r: Handled)
        requires
            old(self).ready(),
        ensures
            final(self).ready(),
    ;

    /// What the terminal has to do to show the modules.
    fn draw(&mut self) -> (r: Result<Vec<TerminalOp>, HostError>)
        requires
            old(self).ready(),
        ensures
            final(self).ready(),
    ;

    /// Hands a file to the focused module: its path and, where it could be
    /// read, its bytes.
    fn handle_file(&mut self, path: String, data: Option<Vec<u8>>) -> (r: Handled)
        requires
            old(self).ready(),
        ensures
            final(self).ready(),
    ;
}

/// A host that modules can be attached to.
pub trait ClientModular: ClientEvent {
    /// Takes the module in, gives it a place on the screen and the focus.
    fn attach_module(&mut self, module: Box<dyn ModuleEvent>) -> (r: Result<Container, LayoutError>)
        requires
            old(self).ready(),
        ensures
            final(self).ready(),
    ;

    /// Gives the focus to the module `idx`.
    fn change_focus(&mut self, idx: u32)
        requires
            old(self).ready(),
        ensures
            final(self).ready(),
    ;
}

} // verus!
