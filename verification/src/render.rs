//! Drawing: the capability that the tree asks of a renderer, and the walk
//! that draws every visible node.

use vstd::prelude::*;
use crate::button::{ButtonState, ButtonStyle};
use crate::geometry::{Box2, Point, Rect, SideOffsets, Size, sat_add, sat_sub, saturate};
use crate::layout::{Frame, frame_of, frames, keeps_measured};
use crate::store::{ChildMap, NodeId, NodeStore, children_of, nodes_of};
use crate::style::Color;
use crate::widget::Node;

verus! {

/// One request made of a renderer.
#[derive(Clone, Copy, PartialEq, Eq, Structural, Debug)]
pub enum Draw {
    /// Fill `rect` with `color`.
    Quad { rect: Rect, color: Color },
    /// Draw a button in `rect` as the theme has it.
    Button { rect: Rect, style: ButtonStyle, toggled: bool, state: ButtonState },
    /// Draw in `rect` what the renderer keeps under `handle`.
    Custom { handle: u64, rect: Rect },
}

/// What a renderer can be asked to draw.
///
/// Nothing is promised of what an implementation does: the library draws
/// through a `Canvas`, which keeps the account of what it asked.
pub trait Renderer {
    /// Fills `rect` with `color`.
    fn draw_quad(&mut self, rect: Rect, color: Color);

    /// Draws a button in `rect` as the theme has it.
    fn draw_button(&mut self, rect: Rect, style: ButtonStyle, toggled: bool, state: ButtonState);

    /// Draws what the renderer keeps under `handle` in `rect`: the text of a
    /// label, for one.
    fn draw_custom(&mut self, handle: u64, rect: Rect);

    /// How many scroll areas are open.
    fn scroll_depth(&self) -> usize;

    /// Closes scroll areas until no more than `depth` are open.
    fn restore_scroll(&mut self, depth: usize);
}

/// A renderer, and the account of the requests that were made of it through
/// the canvas.
pub struct Canvas {
    renderer: Box<dyn Renderer>,
    requests: Ghost<Seq<Draw>>,
}

impl Canvas {
    /// The requests that were made, oldest first.
    pub closed spec fn drawn(&self) -> Seq<Draw> {
        self.requests@
    }

    /// A canvas on `renderer`, of which nothing was asked yet.
    pub fn new(renderer: Box<dyn Renderer>) -> (r: Canvas)
        ensures
            r.drawn() == Seq::<Draw>::empty(),
    {
        Canvas { renderer, requests: Ghost(Seq::empty()) }
    }

    /// Asks the renderer to fill `rect` with `color`.
    pub fn draw_quad(&mut self, rect: Rect, color: Color)
        ensures
            final(self).drawn() == old(self).drawn().push(Draw::Quad { rect, color }),
    {
        self.renderer.draw_quad(rect, color);
        self.requests = Ghost(self.requests@.push(Draw::Quad { rect, color }));
    }

    /// Asks the renderer to draw a button in `rect`.
    pub fn draw_button(&mut self, rect: Rect, style: ButtonStyle, toggled: bool, state: ButtonState)
        ensures
            final(self).drawn() == old(self).drawn().push(Draw::Button { rect, style, toggled, state }),
    {
        self.renderer.draw_button(rect, style, toggled, state);
        self.requests = Ghost(self.requests@.push(Draw::Button { rect, style, toggled, state }));
    }

    /// Asks the renderer to draw in `rect` what it keeps under `handle`.
    pub fn draw_custom(&mut self, handle: u64, rect: Rect)
        ensures
            final(self).drawn() == old(self).drawn().push(Draw::Custom { handle, rect }),
    {
        self.renderer.draw_custom(handle, rect);
        self.requests = Ghost(self.requests@.push(Draw::Custom { handle, rect }));
    }

    /// How many scroll areas the renderer says are open.
    pub fn scroll_depth(&self) -> usize {
        self.renderer.scroll_depth()
    }

    /// Has the renderer close scroll areas until no more than `depth` are
    /// open. Nothing is drawn.
    pub fn restore_scroll(&mut self, depth: usize)
        ensures
            final(self).drawn() == old(self).drawn(),
    {
        self.renderer.restore_scroll(depth);
    }
}

/// The strips that make up a border of the widths `border` along the edges
/// of `rect`: top, bottom, left and right, each only if it has a width.
///
/// The strips lie inside `rect` less one pixel at the right and at the
/// bottom. If nothing is left of `rect` then, there is no border.
pub open spec fn border_strips(rect: Rect, border: SideOffsets) -> Seq<Rect> {
    let width = saturate(rect.size.width - 1) as i32;
    let height = saturate(rect.size.height - 1) as i32;
    let x = rect.origin.x;
    let y = rect.origin.y;
    if !(width > 0 && height > 0) {
        Seq::empty()
    } else {
        let top = if border.top > 0 {
            seq![Rect { origin: Point { x, y }, size: Size { width, height: border.top } }]
        } else {
            Seq::empty()
        };
        let bottom = if border.bottom > 0 {
            seq![
                Rect {
                    origin: Point { x, y: saturate(saturate(y + height) - border.bottom) as i32 },
                    size: Size { width, height: border.bottom },
                },
            ]
        } else {
            Seq::empty()
        };
        let left = if border.left > 0 {
            seq![Rect { origin: Point { x, y }, size: Size { width: border.left, height } }]
        } else {
            Seq::empty()
        };
        let right = if border.right > 0 {
            seq![
                Rect {
                    origin: Point { x: saturate(saturate(x + width) - border.right) as i32, y },
                    size: Size { width: border.right, height },
                },
            ]
        } else {
            Seq::empty()
        };
        top + bottom + left + right
    }
}

/// The strips of a border, as `border_strips` says.
pub fn border_rects(rect: Rect, border: SideOffsets) -> (strips: Vec<Rect>)
    ensures
        strips@ == border_strips(rect, border),
{
    let mut strips: Vec<Rect> = Vec::new();
    let width = sat_sub(rect.size.width, 1);
    let height = sat_sub(rect.size.height, 1);
    let x = rect.origin.x;
    let y = rect.origin.y;
    if !(width > 0 && height > 0) {
        return strips;
    }
    if border.top > 0 {
        strips.push(Rect::new(Point::new(x, y), Size::new(width, border.top)));
    }
    if border.bottom > 0 {
        strips.push(
            Rect::new(Point::new(x, sat_sub(sat_add(y, height), border.bottom)), Size::new(width, border.bottom)),
        );
    }
    if border.left > 0 {
        strips.push(Rect::new(Point::new(x, y), Size::new(border.left, height)));
    }
    if border.right > 0 {
        strips.push(
            Rect::new(Point::new(sat_sub(sat_add(x, width), border.right), y), Size::new(border.right, height)),
        );
    }
    assert(strips@ =~= border_strips(rect, border));
    strips
}

/// The requests that fill each of `strips` with `color`, in their order.
pub open spec fn quads(strips: Seq<Rect>, color: Color) -> Seq<Draw> {
    Seq::new(strips.len(), |i: int| Draw::Quad { rect: strips[i], color })
}

/// Draws a border of the widths `border` along the edges of `rect`: asks
/// for each of the `border_strips` to be filled with `color`, and for
/// nothing else.
pub fn draw_border(renderer: &mut Canvas, rect: Rect, border: SideOffsets, color: Color)
    ensures
        final(renderer).drawn() == old(renderer).drawn() + quads(border_strips(rect, border), color),
{
    let strips = border_rects(rect, border);
    let mut i: usize = 0;
    while i < strips.len()
        invariant
            i <= strips.len(),
            strips@ == border_strips(rect, border),
            renderer.drawn() == old(renderer).drawn() + quads(strips@.take(i as int), color),
        decreases strips.len() - i,
    {
        renderer.draw_quad(strips[i], color);
        assert(quads(strips@.take(i + 1), color) =~= quads(strips@.take(i as int), color).push(
            Draw::Quad { rect: strips@[i as int], color },
        ));
        i = i + 1;
    }
    assert(strips@.take(i as int) =~= strips@);
}

/// One of the four vertical lines of a nine-slice, from left to right: the
/// left edge of `outer`, the two edges of `inner`, the right edge of
/// `outer`.
pub open spec fn slice_x(outer: Box2, inner: Box2, k: int) -> i32 {
    if k <= 0 {
        outer.min.x
    } else if k == 1 {
        inner.min.x
    } else if k == 2 {
        inner.max.x
    } else {
        outer.max.x
    }
}

/// One of the four horizontal lines of a nine-slice, from top to bottom.
pub open spec fn slice_y(outer: Box2, inner: Box2, k: int) -> i32 {
    if k <= 0 {
        outer.min.y
    } else if k == 1 {
        inner.min.y
    } else if k == 2 {
        inner.max.y
    } else {
        outer.max.y
    }
}

/// The cell of a nine-slice in the given column and row, each 0, 1 or 2:
/// between two neighbouring vertical lines and two neighbouring horizontal
/// lines.
pub open spec fn slice_cell(outer: Box2, inner: Box2, column: int, row: int) -> Box2 {
    Box2 {
        min: Point { x: slice_x(outer, inner, column), y: slice_y(outer, inner, row) },
        max: Point { x: slice_x(outer, inner, column + 1), y: slice_y(outer, inner, row + 1) },
    }
}

/// The nine cells into which `rect` falls when `insets` are marked off its
/// four sides, row by row from the top, each row from the left.
pub open spec fn nine_slices(rect: Box2, insets: SideOffsets) -> Seq<Box2> {
    Seq::new(9, |k: int| slice_cell(rect, rect.spec_inner_box(insets), k % 3, k / 3))
}

/// The cell of the upper part of a nine-slice in the given column and row,
/// where the middle row and the bottom row are one.
pub open spec fn top_cell(outer: Box2, inner: Box2, column: int, row: int) -> Box2 {
    Box2 {
        min: Point { x: slice_x(outer, inner, column), y: slice_y(outer, inner, row) },
        max: Point {
            x: slice_x(outer, inner, column + 1),
            y: if row == 0 {
                inner.min.y
            } else {
                outer.max.y
            },
        },
    }
}

/// The six cells into which `rect` falls when `insets` are marked off its
/// top, its left and its right, row by row from the top.
pub open spec fn top_slices(rect: Box2, insets: SideOffsets) -> Seq<Box2> {
    Seq::new(6, |k: int| top_cell(rect, rect.spec_inner_box(insets), k % 3, k / 3))
}

/// The cells of a nine-slice, as `nine_slices` says.
pub fn nine_slice(rect: Box2, insets: SideOffsets) -> (cells: Vec<Box2>)
    ensures
        cells@ == nine_slices(rect, insets),
{
    let center = rect.inner_box(insets);
    let mut cells: Vec<Box2> = Vec::new();
    cells.push(Box2::new(rect.min, center.min));
    cells.push(Box2::new(Point::new(center.min.x, rect.min.y), Point::new(center.max.x, center.min.y)));
    cells.push(Box2::new(Point::new(center.max.x, rect.min.y), Point::new(rect.max.x, center.min.y)));
    cells.push(Box2::new(Point::new(rect.min.x, center.min.y), Point::new(center.min.x, center.max.y)));
    cells.push(Box2::new(center.min, center.max));
    cells.push(Box2::new(Point::new(center.max.x, center.min.y), Point::new(rect.max.x, center.max.y)));
    cells.push(Box2::new(Point::new(rect.min.x, center.max.y), Point::new(center.min.x, rect.max.y)));
    cells.push(Box2::new(Point::new(center.min.x, center.max.y), Point::new(center.max.x, rect.max.y)));
    cells.push(Box2::new(center.max, rect.max));
    assert(cells@ =~= nine_slices(rect, insets));
    cells
}

/// The cells of the upper part of a nine-slice, as `top_slices` says.
pub fn nine_slice_top(rect: Box2, insets: SideOffsets) -> (cells: Vec<Box2>)
    ensures
        cells@ == top_slices(rect, insets),
{
    let center = rect.inner_box(insets);
    let mut cells: Vec<Box2> = Vec::new();
    cells.push(Box2::new(rect.min, center.min));
    cells.push(Box2::new(Point::new(center.min.x, rect.min.y), Point::new(center.max.x, center.min.y)));
    cells.push(Box2::new(Point::new(center.max.x, rect.min.y), Point::new(rect.max.x, center.min.y)));
    cells.push(Box2::new(Point::new(rect.min.x, center.min.y), Point::new(center.min.x, rect.max.y)));
    cells.push(Box2::new(center.min, Point::new(center.max.x, rect.max.y)));
    cells.push(Box2::new(Point::new(center.max.x, center.min.y), rect.max));
    assert(cells@ =~= top_slices(rect, insets));
    cells
}

/// The nodes that a walk from `id` draws, parents before children and
/// children in their order, at most `depth` levels down. A hidden node is
/// left out with everything under it.
pub open spec fn paint_order(
    f: Map<NodeId, Frame>,
    ch: Map<NodeId, Seq<NodeId>>,
    id: NodeId,
    depth: nat,
) -> Seq<NodeId>
    decreases depth, 0nat,
{
    if depth == 0 || !f.contains_key(id) || f[id].area.hidden {
        Seq::empty()
    } else if ch.contains_key(id) {
        seq![id] + paint_children(f, ch, ch[id], 0, (depth - 1) as nat)
    } else {
        seq![id]
    }
}

/// The nodes that are drawn under the children from the `i`-th on.
pub open spec fn paint_children(
    f: Map<NodeId, Frame>,
    ch: Map<NodeId, Seq<NodeId>>,
    kids: Seq<NodeId>,
    i: nat,
    depth: nat,
) -> Seq<NodeId>
    decreases depth, 1nat + kids.len() - i,
{
    if i >= kids.len() {
        Seq::empty()
    } else {
        paint_order(f, ch, kids[i as int], depth) + paint_children(f, ch, kids, i + 1, depth)
    }
}

/// What drawing the node with `frame` asks for before its widget draws: its
/// background rectangle filled if it has a background colour, then its
/// border, strip by strip, if it has a border colour.
pub open spec fn decoration(frame: Frame) -> Seq<Draw> {
    let background = match frame.style.background_color {
        Some(color) => seq![Draw::Quad { rect: frame.area.background_rect, color }],
        None => Seq::empty(),
    };
    let border = match frame.style.border_color {
        Some(color) => quads(border_strips(frame.area.background_rect, frame.style.border), color),
        None => Seq::empty(),
    };
    background + border
}

/// Draws the background and the border of `node`, as `decoration` says:
/// these requests follow what was asked before, and nothing else is asked.
pub fn decorate(renderer: &mut Canvas, node: &Node)
    ensures
        final(renderer).drawn() == old(renderer).drawn() + decoration(frame_of(*node)),
{
    match node.style.background_color {
        Some(color) => {
            renderer.draw_quad(node.area.background_rect, color);
        },
        None => {},
    }
    match node.style.border_color {
        Some(color) => {
            draw_border(renderer, node.area.background_rect, node.style.border, color);
        },
        None => {},
    }
    assert(renderer.drawn() =~= old(renderer).drawn() + decoration(frame_of(*node)));
}

/// The account of a canvas after the nodes of `order` were drawn one after
/// another, from the account `start` on.
///
/// Each node adds its `decoration` to the account, and nothing else is
/// added. A widget may ask for anything, so the account after a node with a
/// widget is what the widget left: `answers` has it, at the place of the
/// node in `order`.
pub open spec fn painted(
    f: Map<NodeId, Frame>,
    order: Seq<NodeId>,
    answers: Seq<Seq<Draw>>,
    start: Seq<Draw>,
) -> Seq<Draw>
    decreases order.len(),
{
    if order.len() == 0 {
        start
    } else if f[order.last()].has_widget {
        answers.last()
    } else {
        painted(f, order.drop_last(), answers.drop_last(), start) + decoration(f[order.last()])
    }
}

/// Drawing one list of nodes and then another is drawing the two lists as
/// one.
pub proof fn lemma_painted_then(
    f: Map<NodeId, Frame>,
    first: Seq<NodeId>,
    first_answers: Seq<Seq<Draw>>,
    second: Seq<NodeId>,
    second_answers: Seq<Seq<Draw>>,
    start: Seq<Draw>,
)
    requires
        first_answers.len() == first.len(),
        second_answers.len() == second.len(),
    ensures
        painted(f, first + second, first_answers + second_answers, start) == painted(
            f,
            second,
            second_answers,
            painted(f, first, first_answers, start),
        ),
    decreases second.len(),
{
    if second.len() == 0 {
        assert(first + second =~= first);
        assert(first_answers + second_answers =~= first_answers);
    } else {
        lemma_painted_then(f, first, first_answers, second.drop_last(), second_answers.drop_last(), start);
        assert((first + second).drop_last() =~= first + second.drop_last());
        assert((first_answers + second_answers).drop_last() =~= first_answers + second_answers.drop_last());
        assert((first + second).last() == second.last());
        assert((first_answers + second_answers).last() == second_answers.last());
    }
}

/// Where no node that is drawn has a widget, the account grows by the
/// decorations of the nodes and by nothing else, whatever `answers` holds.
pub proof fn lemma_painted_without_widgets(
    f: Map<NodeId, Frame>,
    order: Seq<NodeId>,
    answers: Seq<Seq<Draw>>,
    start: Seq<Draw>,
)
    requires
        forall|k: int| 0 <= k < order.len() ==> !(#[trigger] f[order[k]]).has_widget,
    ensures
        start.is_prefix_of(painted(f, order, answers, start)),
        order.len() > 0 ==> painted(f, order, answers, start) == painted(
            f,
            order.drop_last(),
            answers.drop_last(),
            start,
        ) + decoration(f[order.last()]),
    decreases order.len(),
{
    if order.len() > 0 {
        assert(!f[order[order.len() - 1]].has_widget);
        assert forall|k: int| 0 <= k < order.drop_last().len() implies !(#[trigger] f[order.drop_last()[k]]).has_widget by {
            assert(order.drop_last()[k] == order[k]);
        }
        lemma_painted_without_widgets(f, order.drop_last(), answers.drop_last(), start);
    }
}

/// A hidden node is not drawn, and nothing under it is.
pub proof fn lemma_hidden_not_painted(f: Map<NodeId, Frame>, ch: Map<NodeId, Seq<NodeId>>, id: NodeId, depth: nat)
    requires
        f.contains_key(id),
        f[id].area.hidden,
    ensures
        paint_order(f, ch, id, depth) == Seq::<NodeId>::empty(),
{
}

/// Draws the node `id` and what is under it, at most `depth` levels down.
///
/// Of a visible node the background is drawn first, if it has a colour,
/// then the border, if it has a colour, then the widget, then the children
/// in their order. Scroll areas that were opened on the way are closed when
/// the node is done. A hidden node is skipped with everything under it:
/// neither the renderer nor any widget is called.
///
/// Returns the nodes that were drawn, in the order of drawing. The account
/// of the canvas goes on as `painted` says of these nodes: each adds its
/// decoration and then lets its widget draw.
#[verifier::rlimit(40)]
pub fn render_node(
    id: NodeId,
    nodes: &mut NodeStore,
    children: &ChildMap,
    renderer: &mut Canvas,
    depth: usize,
) -> (drawn: Vec<NodeId>)
    ensures
        drawn@ == paint_order(frames(nodes_of(*old(nodes))), children_of(*children), id, depth as nat),
        frames(nodes_of(*final(nodes))) == frames(nodes_of(*old(nodes))),
        keeps_measured(nodes_of(*old(nodes)), nodes_of(*final(nodes))),
        drawn@.len() == 0 ==> nodes_of(*final(nodes)) == nodes_of(*old(nodes)),
        forall|other: NodeId|
            !drawn@.contains(other) && #[trigger] nodes_of(*old(nodes)).contains_key(other) ==> nodes_of(
                *final(nodes),
            )[other] == nodes_of(*old(nodes))[other],
        drawn@.len() == 0 ==> *final(renderer) == *old(renderer),
        exists|answers: Seq<Seq<Draw>>|
            answers.len() == drawn@.len() && final(renderer).drawn() == #[trigger] painted(
                frames(nodes_of(*old(nodes))),
                drawn@,
                answers,
                old(renderer).drawn(),
            ),
    decreases depth,
{
    let mut drawn: Vec<NodeId> = Vec::new();
    let ghost start = renderer.drawn();
    let ghost f = frames(nodes_of(*old(nodes)));
    assert(painted(f, drawn@, Seq::empty(), start) == start);
    if depth == 0 {
        return drawn;
    }
    match nodes.get(id) {
        Some(node) => {
            if node.area.hidden {
                return drawn;
            }
            decorate(renderer, node);
        },
        None => {
            return drawn;
        },
    }
    let scroll_count = renderer.scroll_depth();
    match nodes.get_mut(id) {
        Some(node) => {
            match &mut node.widget {
                Some(widget) => {
                    widget.draw(renderer, &node.area);
                },
                None => {},
            }
            proof {
                crate::layout::lemma_frames_insert(nodes_of(*old(nodes)), id, *node);
                assert(frames(nodes_of(*old(nodes))).insert(id, crate::layout::frame_of(*node)) =~= frames(
                    nodes_of(*old(nodes)),
                ));
            }
        },
        None => {},
    }
    drawn.push(id);
    assert(drawn@[0] == id);
    let ghost ch = children_of(*children);
    let ghost mut answers: Seq<Seq<Draw>> = seq![renderer.drawn()];
    proof {
        assert(drawn@.drop_last().len() == 0);
        assert(painted(f, drawn@.drop_last(), answers.drop_last(), start) == start);
        assert(drawn@.last() == id);
        assert(f[id].has_widget == (nodes_of(*old(nodes))[id].widget is Some));
        assert(renderer.drawn() == painted(f, drawn@, answers, start));
    }
    match children.get(id) {
        Some(child_ids) => {
            let ghost goal = seq![id] + paint_children(f, ch, child_ids@, 0, (depth - 1) as nat);
            let mut i: usize = 0;
            while i < child_ids.len()
                invariant
                    i <= child_ids.len(),
                    depth > 0,
                    f == frames(nodes_of(*old(nodes))),
                    ch == children_of(*children),
                    frames(nodes_of(*nodes)) == f,
                    keeps_measured(nodes_of(*old(nodes)), nodes_of(*nodes)),
                    drawn@ + paint_children(f, ch, child_ids@, i as nat, (depth - 1) as nat) == goal,
                    answers.len() == drawn@.len(),
                    renderer.drawn() == painted(f, drawn@, answers, start),
                    forall|other: NodeId|
                        !drawn@.contains(other) && #[trigger] nodes_of(*old(nodes)).contains_key(other)
                            ==> nodes_of(*nodes)[other] == nodes_of(*old(nodes))[other],
                decreases child_ids.len() - i,
            {
                let ghost before = nodes_of(*nodes);
                let ghost so_far = drawn@;
                let ghost account = renderer.drawn();
                let mut under = render_node(child_ids[i], nodes, children, renderer, depth - 1);
                proof {
                    let below = choose|below: Seq<Seq<Draw>>|
                        below.len() == under@.len() && renderer.drawn() == #[trigger] painted(
                            f,
                            under@,
                            below,
                            account,
                        );
                    lemma_painted_then(f, so_far, answers, under@, below, start);
                    answers = answers + below;
                }
                drawn.append(&mut under);
                proof {
                    crate::layout::lemma_keeps_measured_trans(nodes_of(*old(nodes)), before, nodes_of(*nodes));
                    let first = paint_order(f, ch, child_ids@[i as int], (depth - 1) as nat);
                    let rest = paint_children(f, ch, child_ids@, (i + 1) as nat, (depth - 1) as nat);
                    assert(so_far + (first + rest) == (so_far + first) + rest);
                    assert forall|other: NodeId|
                        !drawn@.contains(other) && #[trigger] nodes_of(*old(nodes)).contains_key(
                            other,
                        ) implies nodes_of(*nodes)[other] == nodes_of(*old(nodes))[other] by {
                        assert(before.contains_key(other));
                        if so_far.contains(other) {
                            let k = choose|k: int| 0 <= k < so_far.len() && so_far[k] == other;
                            assert(drawn@[k] == other);
                        }
                        if first.contains(other) {
                            let k = choose|k: int| 0 <= k < first.len() && first[k] == other;
                            assert(drawn@[so_far.len() + k] == other);
                        }
                    }
                }
                i = i + 1;
            }
            assert(drawn@ + Seq::<NodeId>::empty() == drawn@);
        },
        None => {},
    }
    renderer.restore_scroll(scroll_count);
    assert(answers.len() == drawn@.len() && renderer.drawn() == painted(f, drawn@, answers, start));
    drawn
}

} // verus!
