//! The layout solver: a measure pass from the leaves up and an arrange pass
//! from the root down, for box, stack and grid containers.
//!
//! The arrange pass is a function of the styles, the measured sizes and the
//! shape of the tree, and is specified as one: `node_arrange` and the
//! functions it calls say what every node's area is afterwards. The measure
//! pass asks the widgets. It is a function of their answers, and is
//! specified as one: `node_measure` says what every node measures when the
//! widgets answer as an `Answers` value has it, and the pass is stated to
//! come out as `node_measure` says for some such value.
//!
//! Both passes walk at most `depth` levels down from the node they start at.
//! A tree of `n` nodes has no more than `n` levels, so with the number of
//! nodes as `depth` a tree is walked whole, and a walk ends even where the
//! child lists do not form a tree. On child lists that form trees the
//! outcome is the same for every depth that is large enough.

use vstd::prelude::*;
use crate::geometry::{Rect, Size, half, max_i32, sat_add, sat_mul, sat_sub, saturate, spec_max};
use crate::store::{ChildMap, NodeId, NodeStore, children_of, nodes_of};
use crate::style::{Align, Area, Direction, Layout, Style};
use crate::widget::Node;

verus! {

/// What the layout reads and writes of a node: its style, its area, and
/// whether it has a widget to ask.
pub struct Frame {
    pub style: Style,
    pub area: Area,
    pub has_widget: bool,
}

/// The frame of a node.
pub open spec fn frame_of(node: Node) -> Frame {
    Frame { style: node.style, area: node.area, has_widget: node.widget is Some }
}

/// The frames of all nodes.
pub open spec fn frames(nodes: Map<NodeId, Node>) -> Map<NodeId, Frame> {
    nodes.map_values(|node: Node| frame_of(node))
}

/// Whether two sets of nodes have the same handles, the same styles, and a
/// widget under the same handles.
pub open spec fn same_widgets(before: Map<NodeId, Node>, after: Map<NodeId, Node>) -> bool {
    &&& before.dom() =~= after.dom()
    &&& forall|id: NodeId| #[trigger]
        before.contains_key(id) ==> {
            &&& after[id].style == before[id].style
            &&& (after[id].widget is Some <==> before[id].widget is Some)
        }
}

/// Whether `after` differs from `before` in nothing that arranging, drawing
/// and input leave alone: the handles, the styles, the measured sizes, and
/// which nodes have a widget.
pub open spec fn keeps_measured(before: Map<NodeId, Node>, after: Map<NodeId, Node>) -> bool {
    &&& before.dom() =~= after.dom()
    &&& forall|id: NodeId| #[trigger]
        before.contains_key(id) ==> {
            &&& after[id].style == before[id].style
            &&& after[id].area.measured_size == before[id].area.measured_size
            &&& (after[id].widget is Some <==> before[id].widget is Some)
        }
}

/// The extent of `size` along the main axis.
pub open spec fn main_extent(horizontal: bool, size: Size) -> i32 {
    if horizontal {
        size.width
    } else {
        size.height
    }
}

/// The extent of `size` across the main axis.
pub open spec fn cross_extent(horizontal: bool, size: Size) -> i32 {
    if horizontal {
        size.height
    } else {
        size.width
    }
}

/// The size that is `extent` along the main axis and nothing across it.
pub open spec fn along(horizontal: bool, extent: i32) -> Size {
    if horizontal {
        Size { width: extent, height: 0 }
    } else {
        Size { width: 0, height: extent }
    }
}

/// Whether `rect` is smaller than a node's box offsets on either axis, so
/// that nothing is left for the node's content.
pub open spec fn too_small(style: Style, rect: Rect) -> bool {
    ||| rect.size.width < style.spec_box_offsets().spec_horizontal()
    ||| rect.size.height < style.spec_box_offsets().spec_vertical()
}

/// The area of a node with `style` once it is given `rect`, `before` being
/// its area until then.
///
/// Where `rect` is too small the node is hidden and the rest of its area
/// stays. Otherwise the content rectangle is `rect` without the box offsets,
/// the background rectangle is the content rectangle with the padding put
/// back, and the node is hidden if its style hides it or gives it no layout.
/// The measured size is never touched.
pub open spec fn placed_area(style: Style, before: Area, rect: Rect) -> Area {
    if too_small(style, rect) {
        Area { hidden: true, ..before }
    } else {
        let inner = rect.spec_inner_rect(style.spec_box_offsets());
        Area {
            measured_size: before.measured_size,
            hidden: style.hidden || style.layout == Layout::Inert,
            content_rect: inner,
            background_rect: inner.spec_outer_rect(style.padding),
        }
    }
}

/// What the first `n` of `kids` take along the main axis, one gap after each
/// of them, and how many of them grow. A handle without a node counts for
/// nothing.
pub open spec fn box_usage(
    f: Map<NodeId, Frame>,
    kids: Seq<NodeId>,
    horizontal: bool,
    gap: i32,
    n: nat,
) -> (i32, nat)
    decreases n,
{
    if n == 0 || n > kids.len() {
        (0, 0)
    } else {
        let (used, growers) = box_usage(f, kids, horizontal, gap, (n - 1) as nat);
        let kid = kids[n - 1];
        if f.contains_key(kid) {
            let extent = main_extent(horizontal, f[kid].area.measured_size);
            (
                saturate(used + saturate(extent + gap)) as i32,
                if f[kid].style.grow {
                    growers + 1
                } else {
                    growers
                },
            )
        } else {
            (used, growers)
        }
    }
}

/// Where the first child's slot starts and what each growing child gets on
/// top of its measured size, for children that take `used` (a trailing gap
/// included) of `rect` along the main axis.
///
/// What is left over is `rect`'s main extent less `used` plus one gap, or
/// nothing if that is negative. With growers it is split evenly among them,
/// the remainder of the division being dropped, and the main alignment is
/// not applied. Without growers `End` skips all of what is left over before
/// the first child, `Center` half of it, and the other alignments nothing.
pub open spec fn main_plan(
    direction: Direction,
    main_align: Align,
    gap: i32,
    rect: Rect,
    used: i32,
    growers: nat,
) -> (Rect, Size) {
    let horizontal = direction.spec_horizontal();
    let left_over = spec_max(saturate(saturate(main_extent(horizontal, rect.size) - used) + gap), 0) as i32;
    if growers > 0 {
        (rect, along(horizontal, (left_over as int / growers as int) as i32))
    } else {
        match main_align {
            Align::End => (
                direction.spec_layout_area(rect, along(horizontal, left_over), 0).1,
                Size::spec_zero(),
            ),
            Align::Center => (
                direction.spec_layout_area(rect, along(horizontal, left_over).spec_halved(), 0).1,
                Size::spec_zero(),
            ),
            _ => (rect, Size::spec_zero()),
        }
    }
}

/// The size of the slot of a child: its measured size, and `grow_space` on
/// top if it grows.
pub open spec fn slot_size(frame: Frame, grow_space: Size) -> Size {
    if frame.style.grow {
        frame.area.measured_size.spec_plus(grow_space)
    } else {
        frame.area.measured_size
    }
}

/// The rectangle that a box gives the child with `frame`, and what is left
/// of `cursor` for the children after it: the child gets a slot of its
/// extent along the main axis, and is placed in it across the main axis by
/// its own `cross_align`.
pub open spec fn box_slot(direction: Direction, gap: i32, grow_space: Size, cursor: Rect, frame: Frame) -> (
    Rect,
    Rect,
) {
    let size = slot_size(frame, grow_space);
    let (area, rest) = direction.spec_layout_area(cursor, size, gap);
    (frame.style.cross_align.spec_align_area(!direction.spec_horizontal(), area, size), rest)
}

/// The frames after the node `id` has been arranged in `rect`, walking at
/// most `depth` levels down.
///
/// The node gets its `placed_area`. Unless that hides it, its children are
/// arranged in its content rectangle as its layout says. A handle without a
/// node changes nothing.
pub open spec fn node_arrange(
    f: Map<NodeId, Frame>,
    ch: Map<NodeId, Seq<NodeId>>,
    id: NodeId,
    rect: Rect,
    depth: nat,
) -> Map<NodeId, Frame>
    decreases depth, 0nat, 0nat,
{
    if depth == 0 || !f.contains_key(id) {
        f
    } else {
        let style = f[id].style;
        let area = placed_area(style, f[id].area, rect);
        let placed = f.insert(id, Frame { area, ..f[id] });
        if area.hidden {
            placed
        } else {
            match style.layout {
                Layout::Inert => placed,
                Layout::Box => box_arrange(placed, ch, id, area.content_rect, (depth - 1) as nat),
                Layout::Stack => stack_arrange(placed, ch, id, area.content_rect, (depth - 1) as nat),
                Layout::Grid(columns) => grid_arrange(
                    placed,
                    ch,
                    id,
                    area.content_rect,
                    columns,
                    (depth - 1) as nat,
                ),
            }
        }
    }
}

/// The nodes that arranging `id` in `rect` reaches, in the order in which
/// it reaches them: `id`, and unless it is hidden, what arranging its
/// children reaches. A node that is not reached is not touched: its area
/// stays, and its widget is told nothing.
pub open spec fn arrange_order(
    f: Map<NodeId, Frame>,
    ch: Map<NodeId, Seq<NodeId>>,
    id: NodeId,
    rect: Rect,
    depth: nat,
) -> Seq<NodeId>
    decreases depth, 0nat, 0nat,
{
    if depth == 0 || !f.contains_key(id) {
        Seq::empty()
    } else {
        let style = f[id].style;
        let area = placed_area(style, f[id].area, rect);
        let placed = f.insert(id, Frame { area, ..f[id] });
        if area.hidden {
            seq![id]
        } else {
            seq![id] + match style.layout {
                Layout::Inert => Seq::empty(),
                Layout::Box => box_order(placed, ch, id, area.content_rect, (depth - 1) as nat),
                Layout::Stack => stack_order(placed, ch, id, area.content_rect, (depth - 1) as nat),
                Layout::Grid(columns) => grid_order(
                    placed,
                    ch,
                    id,
                    area.content_rect,
                    columns,
                    (depth - 1) as nat,
                ),
            }
        }
    }
}

/// The nodes that arranging the nodes of `steps` from the `i`-th on reaches.
pub open spec fn steps_order(
    f: Map<NodeId, Frame>,
    ch: Map<NodeId, Seq<NodeId>>,
    steps: Seq<(NodeId, Rect)>,
    i: nat,
    depth: nat,
) -> Seq<NodeId>
    decreases depth, 1nat, steps.len() - i,
{
    if i >= steps.len() {
        Seq::empty()
    } else {
        arrange_order(f, ch, steps[i as int].0, steps[i as int].1, depth) + steps_order(
            node_arrange(f, ch, steps[i as int].0, steps[i as int].1, depth),
            ch,
            steps,
            i + 1,
            depth,
        )
    }
}

/// The nodes that arranging the children of the box `id` reaches.
pub open spec fn box_order(
    f: Map<NodeId, Frame>,
    ch: Map<NodeId, Seq<NodeId>>,
    id: NodeId,
    rect: Rect,
    depth: nat,
) -> Seq<NodeId>
    decreases depth, 2nat, 0nat,
{
    if !ch.contains_key(id) || !f.contains_key(id) {
        Seq::empty()
    } else {
        steps_order(f, ch, box_steps(f, ch[id], f[id].style, rect), 0, depth)
    }
}

/// The nodes that arranging the children of the stack `id` reaches.
pub open spec fn stack_order(
    f: Map<NodeId, Frame>,
    ch: Map<NodeId, Seq<NodeId>>,
    id: NodeId,
    rect: Rect,
    depth: nat,
) -> Seq<NodeId>
    decreases depth, 2nat, 0nat,
{
    if !ch.contains_key(id) || !f.contains_key(id) {
        Seq::empty()
    } else {
        steps_order(
            f,
            ch,
            stack_steps_from(f, ch[id], 0, rect, f[id].style.direction, f[id].style.main_align),
            0,
            depth,
        )
    }
}

/// The nodes that arranging the children of the grid `id` reaches.
pub open spec fn grid_order(
    f: Map<NodeId, Frame>,
    ch: Map<NodeId, Seq<NodeId>>,
    id: NodeId,
    rect: Rect,
    columns: usize,
    depth: nat,
) -> Seq<NodeId>
    decreases depth, 2nat, 0nat,
{
    if columns == 0 || !ch.contains_key(id) || !f.contains_key(id) {
        Seq::empty()
    } else {
        steps_order(f, ch, grid_steps(f, ch[id], f[id].style, rect, columns), 0, depth)
    }
}

/// Whether every node that is not in `reached` is in `after` what it was in
/// `before`.
#[verifier::opaque]
pub open spec fn only_changed(before: Map<NodeId, Node>, after: Map<NodeId, Node>, reached: Seq<NodeId>) -> bool {
    forall|other: NodeId|
        !reached.contains(other) && #[trigger] before.contains_key(other) ==> after.contains_key(other)
            && after[other] == before[other]
}

/// Where nothing changes, nothing changes outside of what is reached.
pub proof fn lemma_only_changed_none(a: Map<NodeId, Node>, reached: Seq<NodeId>)
    ensures
        only_changed(a, a, reached),
{
    reveal(only_changed);
}

/// Where one node changes, nothing changes but that node.
pub proof fn lemma_only_changed_one(a: Map<NodeId, Node>, id: NodeId, node: Node)
    requires
        a.contains_key(id),
    ensures
        only_changed(a, a.insert(id, node), seq![id]),
{
    reveal(only_changed);
    assert(seq![id][0] == id);
}

/// One more step of arranging: what held of the steps so far holds of them
/// and the step that was made.
pub proof fn lemma_arrange_step(
    first: Map<NodeId, Node>,
    earlier: Map<NodeId, Node>,
    now: Map<NodeId, Node>,
    ch: Map<NodeId, Seq<NodeId>>,
    steps: Seq<(NodeId, Rect)>,
    j: int,
    reached: Seq<NodeId>,
    depth: nat,
)
    requires
        0 <= j < steps.len(),
        only_changed(first, earlier, reached),
        keeps_measured(first, earlier),
        frames(now) == node_arrange(frames(earlier), ch, steps[j].0, steps[j].1, depth),
        keeps_measured(earlier, now),
        only_changed(earlier, now, arrange_order(frames(earlier), ch, steps[j].0, steps[j].1, depth)),
    ensures
        arrange_steps(frames(earlier), ch, steps, j as nat, depth) == arrange_steps(
            frames(now),
            ch,
            steps,
            (j + 1) as nat,
            depth,
        ),
        reached + steps_order(frames(earlier), ch, steps, j as nat, depth) == (reached + arrange_order(
            frames(earlier),
            ch,
            steps[j].0,
            steps[j].1,
            depth,
        )) + steps_order(frames(now), ch, steps, (j + 1) as nat, depth),
        only_changed(
            first,
            now,
            reached + arrange_order(frames(earlier), ch, steps[j].0, steps[j].1, depth),
        ),
        keeps_measured(first, now),
{
    let here = arrange_order(frames(earlier), ch, steps[j].0, steps[j].1, depth);
    let later = steps_order(frames(now), ch, steps, (j + 1) as nat, depth);
    lemma_only_changed_then(first, earlier, now, reached, here);
    lemma_keeps_measured_trans(first, earlier, now);
    assert(reached + (here + later) == (reached + here) + later);
}

/// What changes in two steps changes among what the two steps reach.
pub proof fn lemma_only_changed_then(
    a: Map<NodeId, Node>,
    b: Map<NodeId, Node>,
    c: Map<NodeId, Node>,
    first: Seq<NodeId>,
    second: Seq<NodeId>,
)
    requires
        only_changed(a, b, first),
        only_changed(b, c, second),
    ensures
        only_changed(a, c, first + second),
{
    reveal(only_changed);
    let both = first + second;
    assert forall|other: NodeId| !both.contains(other) && #[trigger] a.contains_key(other) implies c.contains_key(
        other,
    ) && c[other] == a[other] by {
        if first.contains(other) {
            let k = choose|k: int| 0 <= k < first.len() && first[k] == other;
            assert(both[k] == other);
        }
        if second.contains(other) {
            let k = choose|k: int| 0 <= k < second.len() && second[k] == other;
            assert(both[first.len() + k] == other);
        }
        assert(b.contains_key(other));
    }
}

/// The frames after the nodes of `steps` from the `i`-th on have been
/// arranged, one after the other, each in the rectangle that stands with
/// it.
pub open spec fn arrange_steps(
    f: Map<NodeId, Frame>,
    ch: Map<NodeId, Seq<NodeId>>,
    steps: Seq<(NodeId, Rect)>,
    i: nat,
    depth: nat,
) -> Map<NodeId, Frame>
    decreases depth, 1nat, steps.len() - i,
{
    if i >= steps.len() {
        f
    } else {
        arrange_steps(
            node_arrange(f, ch, steps[i as int].0, steps[i as int].1, depth),
            ch,
            steps,
            i + 1,
            depth,
        )
    }
}

/// The children of a box with `style` that is given `rect`, each with the
/// rectangle that the box gives it, in the order of `kids`.
///
/// The rectangles depend on the style of the box and on the measured
/// sizes, the `grow` and the `cross_align` of the children, as `f` has them,
/// and on nothing else. A handle without a node is left out.
pub open spec fn box_steps(f: Map<NodeId, Frame>, kids: Seq<NodeId>, style: Style, rect: Rect) -> Seq<
    (NodeId, Rect),
> {
    let (used, growers) = box_usage(f, kids, style.direction.spec_horizontal(), style.gap, kids.len());
    let (start, grow_space) = main_plan(style.direction, style.main_align, style.gap, rect, used, growers);
    box_steps_from(f, kids, 0, start, style.direction, style.gap, grow_space)
}

/// The children of a box from the `i`-th on, each with its rectangle: the
/// `i`-th in the slot cut off `cursor`, the next in the slot cut off what
/// that leaves, and so on.
pub open spec fn box_steps_from(
    f: Map<NodeId, Frame>,
    kids: Seq<NodeId>,
    i: nat,
    cursor: Rect,
    direction: Direction,
    gap: i32,
    grow_space: Size,
) -> Seq<(NodeId, Rect)>
    decreases kids.len() - i,
{
    if i >= kids.len() {
        Seq::empty()
    } else if !f.contains_key(kids[i as int]) {
        box_steps_from(f, kids, i + 1, cursor, direction, gap, grow_space)
    } else {
        let (slot, rest) = box_slot(direction, gap, grow_space, cursor, f[kids[i as int]]);
        seq![(kids[i as int], slot)] + box_steps_from(
            f,
            kids,
            i + 1,
            rest,
            direction,
            gap,
            grow_space,
        )
    }
}

/// The frames after the children of the box `id` have been arranged in
/// `rect`: each in the rectangle that `box_steps` gives it, in their order.
pub open spec fn box_arrange(
    f: Map<NodeId, Frame>,
    ch: Map<NodeId, Seq<NodeId>>,
    id: NodeId,
    rect: Rect,
    depth: nat,
) -> Map<NodeId, Frame>
    decreases depth, 2nat, 0nat,
{
    if !ch.contains_key(id) || !f.contains_key(id) {
        f
    } else {
        arrange_steps(f, ch, box_steps(f, ch[id], f[id].style, rect), 0, depth)
    }
}

/// The rectangle that a stack gives the child with `frame`: the whole of
/// `rect` along the main axis if the child grows, else placed there by the
/// container's `main_align`; and placed across it by the child's own
/// `cross_align`.
pub open spec fn stack_slot(direction: Direction, main_align: Align, rect: Rect, frame: Frame) -> Rect {
    let size = frame.area.measured_size;
    let grow_align = if frame.style.grow {
        Align::Stretch
    } else {
        main_align
    };
    frame.style.cross_align.spec_align_area(
        !direction.spec_horizontal(),
        grow_align.spec_align_area(direction.spec_horizontal(), rect, size),
        size,
    )
}

/// The children of a stack that is given `rect`, each with the rectangle
/// that the stack gives it, in the order of `kids`, from the `i`-th on.
pub open spec fn stack_steps_from(
    f: Map<NodeId, Frame>,
    kids: Seq<NodeId>,
    i: nat,
    rect: Rect,
    direction: Direction,
    main_align: Align,
) -> Seq<(NodeId, Rect)>
    decreases kids.len() - i,
{
    if i >= kids.len() {
        Seq::empty()
    } else if !f.contains_key(kids[i as int]) {
        stack_steps_from(f, kids, i + 1, rect, direction, main_align)
    } else {
        seq![(kids[i as int], stack_slot(direction, main_align, rect, f[kids[i as int]]))] + stack_steps_from(
            f,
            kids,
            i + 1,
            rect,
            direction,
            main_align,
        )
    }
}

/// The frames after the children of the stack `id` have been arranged in
/// `rect`: each on its own, in the rectangle that `stack_slot` gives it.
pub open spec fn stack_arrange(
    f: Map<NodeId, Frame>,
    ch: Map<NodeId, Seq<NodeId>>,
    id: NodeId,
    rect: Rect,
    depth: nat,
) -> Map<NodeId, Frame>
    decreases depth, 2nat, 0nat,
{
    if !ch.contains_key(id) || !f.contains_key(id) {
        f
    } else {
        arrange_steps(
            f,
            ch,
            stack_steps_from(f, ch[id], 0, rect, f[id].style.direction, f[id].style.main_align),
            0,
            depth,
        )
    }
}

/// The number of rows that `count` children fill in `columns` columns, as
/// far as an `i32` holds it. No columns make no rows.
pub open spec fn grid_rows(count: nat, columns: nat) -> i32 {
    if columns == 0 {
        0
    } else if count % columns != 0 {
        saturate(count as int / columns as int + 1) as i32
    } else {
        saturate(count as int / columns as int) as i32
    }
}

/// What `rows` rows of extent `row_size` take across the main axis, with
/// `gap` between them.
pub open spec fn grid_cross_total(row_size: i32, rows: i32, gap: i32) -> i32 {
    saturate(saturate(row_size * rows) + saturate(gap * saturate(rows - 1))) as i32
}

/// `rect` after the container's `cross_align` has moved the whole grid
/// across the main axis: by what `rect` has more than the rows take for
/// `End`, by half of that for `Center`, and not at all otherwise.
pub open spec fn grid_cross_start(
    horizontal: bool,
    cross_align: Align,
    gap: i32,
    rect: Rect,
    row_size: i32,
    rows: i32,
) -> Rect {
    let spare = saturate(cross_extent(horizontal, rect.size) - grid_cross_total(row_size, rows, gap)) as i32;
    let shift = cross_align.spec_offset(spare, 0) as i32;
    if cross_align != Align::End && cross_align != Align::Center {
        rect
    } else if horizontal {
        Rect {
            origin: crate::geometry::Point { x: rect.origin.x, y: saturate(rect.origin.y + shift) as i32 },
            size: Size { width: rect.size.width, height: saturate(rect.size.height - shift) as i32 },
        }
    } else {
        Rect {
            origin: crate::geometry::Point { x: saturate(rect.origin.x + shift) as i32, y: rect.origin.y },
            size: Size { width: saturate(rect.size.width - shift) as i32, height: rect.size.height },
        }
    }
}

/// `slot` with `row_size` as its extent across the main axis.
pub open spec fn grid_cell(horizontal: bool, slot: Rect, row_size: i32) -> Rect {
    if horizontal {
        Rect { origin: slot.origin, size: Size { width: slot.size.width, height: row_size } }
    } else {
        Rect { origin: slot.origin, size: Size { width: row_size, height: slot.size.height } }
    }
}

/// `cell` moved one row on: by `step` across the main axis.
pub open spec fn grid_next_row(horizontal: bool, cell: Rect, step: i32) -> Rect {
    if horizontal {
        Rect {
            origin: crate::geometry::Point { x: cell.origin.x, y: saturate(cell.origin.y + step) as i32 },
            size: cell.size,
        }
    } else {
        Rect {
            origin: crate::geometry::Point { x: saturate(cell.origin.x + step) as i32, y: cell.origin.y },
            size: cell.size,
        }
    }
}

/// The children of one column of a grid, from the `i`-th child on and every
/// `columns`-th after it, each with its cell: the `i`-th in `cell`, each
/// following one a row further on.
pub open spec fn column_steps(
    kids: Seq<NodeId>,
    i: nat,
    columns: usize,
    cell: Rect,
    horizontal: bool,
    step: i32,
) -> Seq<(NodeId, Rect)>
    decreases
            if i < kids.len() {
                kids.len() - i
            } else {
                0
            },
{
    if i >= kids.len() || columns == 0 {
        Seq::empty()
    } else {
        seq![(kids[i as int], cell)] + column_steps(
            kids,
            (i + columns) as nat,
            columns,
            grid_next_row(horizontal, cell, step),
            horizontal,
            step,
        )
    }
}

/// The children of a grid, column after column from the `c`-th column on,
/// each with its cell, the `c`-th column in the slot cut off `cursor`. A
/// column whose first child has no node is left out.
pub open spec fn grid_steps_from(
    f: Map<NodeId, Frame>,
    kids: Seq<NodeId>,
    c: nat,
    row_len: nat,
    columns: usize,
    cursor: Rect,
    direction: Direction,
    gap: i32,
    grow_space: Size,
    row_size: i32,
) -> Seq<(NodeId, Rect)>
    decreases row_len - c,
{
    if c >= row_len || row_len > kids.len() {
        Seq::empty()
    } else if !f.contains_key(kids[c as int]) {
        grid_steps_from(f, kids, c + 1, row_len, columns, cursor, direction, gap, grow_space, row_size)
    } else {
        let horizontal = direction.spec_horizontal();
        let (slot, rest) = direction.spec_layout_area(cursor, slot_size(f[kids[c as int]], grow_space), gap);
        column_steps(
            kids,
            c,
            columns,
            grid_cell(horizontal, slot, row_size),
            horizontal,
            saturate(row_size + gap) as i32,
        ) + grid_steps_from(f, kids, c + 1, row_len, columns, rest, direction, gap, grow_space, row_size)
    }
}

/// The children of a grid with `style` and `columns` columns that is given
/// `rect`, each with its cell, column after column.
///
/// The rows all have the extent that the first child measured across the
/// main axis. The columns are laid out along the main axis as the children
/// of a box would be, from the first row alone: each column has the extent
/// of its first child. A grid without columns has no cells.
pub open spec fn grid_steps(
    f: Map<NodeId, Frame>,
    kids: Seq<NodeId>,
    style: Style,
    rect: Rect,
    columns: usize,
) -> Seq<(NodeId, Rect)> {
    let horizontal = style.direction.spec_horizontal();
    let rows = grid_rows(kids.len(), columns as nat);
    let first = if kids.len() > 0 && f.contains_key(kids[0]) {
        f[kids[0]].area.measured_size
    } else {
        Size::spec_zero()
    };
    let row_size = cross_extent(horizontal, first);
    let across = grid_cross_start(horizontal, style.cross_align, style.gap, rect, row_size, rows);
    let row_len = if columns as nat <= kids.len() {
        columns as nat
    } else {
        kids.len()
    };
    let (used, growers) = box_usage(f, kids, horizontal, style.gap, row_len);
    let (start, grow_space) = main_plan(style.direction, style.main_align, style.gap, across, used, growers);
    grid_steps_from(f, kids, 0, row_len, columns, start, style.direction, style.gap, grow_space, row_size)
}

/// The frames after the children of the grid `id` have been arranged in
/// `rect`: each in the cell that `grid_steps` gives it, column after
/// column.
pub open spec fn grid_arrange(
    f: Map<NodeId, Frame>,
    ch: Map<NodeId, Seq<NodeId>>,
    id: NodeId,
    rect: Rect,
    columns: usize,
    depth: nat,
) -> Map<NodeId, Frame>
    decreases depth, 2nat, 0nat,
{
    if columns == 0 || !ch.contains_key(id) || !f.contains_key(id) {
        f
    } else {
        arrange_steps(f, ch, grid_steps(f, ch[id], f[id].style, rect, columns), 0, depth)
    }
}

/// Whether `after` differs from `before` in nothing that the measure pass
/// leaves alone: the handles, the styles, the arranged part of every area,
/// and which nodes have a widget.
pub open spec fn measured_only(before: Map<NodeId, Node>, after: Map<NodeId, Node>) -> bool {
    &&& before.dom() =~= after.dom()
    &&& forall|id: NodeId| #[trigger]
        before.contains_key(id) ==> {
            &&& after[id].style == before[id].style
            &&& after[id].area.hidden == before[id].area.hidden
            &&& after[id].area.content_rect == before[id].area.content_rect
            &&& after[id].area.background_rect == before[id].area.background_rect
            &&& (after[id].widget is Some <==> before[id].widget is Some)
        }
}

/// The space on offer for the content of a node with `style` when
/// `available` is on offer for the node: less the box size, within the
/// minimum and the maximum.
pub open spec fn content_budget(style: Style, available: Size) -> Size {
    style.spec_apply_min_max(available.spec_minus(style.spec_box_size()))
}

/// The measured size of a node with `style` whose children take `content`
/// and whose widget, if it has one, asks for `widget`: the larger of the two
/// on each axis, within the minimum and the maximum, plus the box size.
pub open spec fn measured_size(style: Style, content: Size, widget: Option<Size>) -> Size {
    let wanted = match widget {
        Some(size) => content.spec_max(size),
        None => content,
    };
    style.spec_apply_min_max(wanted).spec_plus(style.spec_box_size())
}

/// The space still on offer and the size taken so far, after a child (or a
/// column) of size `child` has been added along the main axis.
///
/// The space on offer shrinks by the child and one gap. The size taken grows
/// along the main axis by the child, and by one gap before it unless nothing
/// was taken yet; across the main axis it is the largest child.
pub open spec fn measure_step(horizontal: bool, gap: i32, available: Size, size: Size, child: Size) -> (
    Size,
    Size,
) {
    if horizontal {
        let spaced = if size.width > 0 {
            saturate(size.width + gap)
        } else {
            size.width as int
        };
        (
            Size {
                width: saturate(available.width - saturate(child.width + gap)) as i32,
                height: available.height,
            },
            Size {
                width: saturate(spaced + child.width) as i32,
                height: spec_max(size.height as int, child.height as int) as i32,
            },
        )
    } else {
        let spaced = if size.height > 0 {
            saturate(size.height + gap)
        } else {
            size.height as int
        };
        (
            Size {
                width: available.width,
                height: saturate(available.height - saturate(child.height + gap)) as i32,
            },
            Size {
                width: spec_max(size.width as int, child.width as int) as i32,
                height: saturate(spaced + child.height) as i32,
            },
        )
    }
}

/// What the widgets answered in one measure pass, as a tree in the shape of
/// the pass.
pub struct Answers {
    /// What the widget of the node asked for. Of no account where the node
    /// has no widget.
    pub widget: Size,
    /// What was answered at the children, in the order in which they were
    /// measured. For a grid there is one entry for each column, which holds
    /// under `children` what was answered at the children of the column.
    pub children: Seq<Answers>,
}

/// The outcome of measuring a node, or the children of one.
pub struct Measured {
    /// The frames afterwards.
    pub frames: Map<NodeId, Frame>,
    /// The size that was found.
    pub size: Size,
    /// Whether the answers were as many as the pass asked for.
    pub complete: bool,
}

/// How far the measuring of the children of a node has come.
pub struct Running {
    /// The frames so far.
    pub frames: Map<NodeId, Frame>,
    /// What is still on offer.
    pub available: Size,
    /// What the children measured so far take together.
    pub size: Size,
    /// Whether there was an answer for every child so far, and a child for
    /// every answer.
    pub complete: bool,
}

/// How far the measuring of one column of a grid has come.
pub struct Column {
    /// The frames so far.
    pub frames: Map<NodeId, Frame>,
    /// The largest child so far, on each axis.
    pub size: Size,
    /// The position of the next child of the column.
    pub next: nat,
    /// Whether there was an answer for every child so far, and a child for
    /// every answer.
    pub complete: bool,
}

/// `f` with `size` as the measured size of `id`.
pub open spec fn with_measured(f: Map<NodeId, Frame>, id: NodeId, size: Size) -> Map<NodeId, Frame> {
    if f.contains_key(id) {
        f.insert(id, Frame { area: Area { measured_size: size, ..f[id].area }, ..f[id] })
    } else {
        f
    }
}

/// The outcome of measuring the node `id` with `available` on offer, at most
/// `depth` levels down, where the widgets answer as `answers` says.
///
/// The children are measured as the layout of the node says, with what the
/// node can offer its content. The widget of the node, if it has one, is
/// asked with the same offer. The measured size of the node is the
/// `measured_size` of the two. A handle without a node measures zero and
/// changes nothing.
pub open spec fn node_measure(
    f: Map<NodeId, Frame>,
    ch: Map<NodeId, Seq<NodeId>>,
    id: NodeId,
    available: Size,
    depth: nat,
    answers: Answers,
) -> Measured
    decreases depth, 0nat, 0nat,
{
    if depth == 0 || !f.contains_key(id) {
        Measured { frames: f, size: Size::spec_zero(), complete: true }
    } else {
        let style = f[id].style;
        let budget = content_budget(style, available);
        let under = match style.layout {
            Layout::Inert => Measured { frames: f, size: Size::spec_zero(), complete: true },
            Layout::Box => box_measure(f, ch, id, budget, (depth - 1) as nat, answers.children),
            Layout::Stack => stack_measure(f, ch, id, budget, (depth - 1) as nat, answers.children),
            Layout::Grid(columns) => grid_measure(f, ch, id, budget, columns, (depth - 1) as nat, answers.children),
        };
        let asked = if under.frames.contains_key(id) && under.frames[id].has_widget {
            Some(answers.widget)
        } else {
            None
        };
        let size = measured_size(style, under.size, asked);
        Measured { frames: with_measured(under.frames, id, size), size, complete: under.complete }
    }
}

/// The outcome of measuring the children of the box `id`: one after the
/// other, each with what the children before it left of `available`.
/// Together they take the sum along the main axis, with one gap between
/// consecutive children, and the largest across it.
pub open spec fn box_measure(
    f: Map<NodeId, Frame>,
    ch: Map<NodeId, Seq<NodeId>>,
    id: NodeId,
    available: Size,
    depth: nat,
    answers: Seq<Answers>,
) -> Measured
    decreases depth, 3nat, 0nat,
{
    if !ch.contains_key(id) || !f.contains_key(id) {
        Measured { frames: f, size: Size::spec_zero(), complete: true }
    } else {
        let run = box_fold(
            f,
            ch,
            ch[id],
            f[id].style.direction.spec_horizontal(),
            f[id].style.gap,
            available,
            answers,
            depth,
        );
        Measured { frames: run.frames, size: run.size, complete: run.complete && answers.len() == ch[id].len() }
    }
}

/// How far the measuring of the children of a box has come when as many of
/// them were measured as there are `answers`.
pub open spec fn box_fold(
    f: Map<NodeId, Frame>,
    ch: Map<NodeId, Seq<NodeId>>,
    kids: Seq<NodeId>,
    horizontal: bool,
    gap: i32,
    available: Size,
    answers: Seq<Answers>,
    depth: nat,
) -> Running
    decreases depth, 1nat, answers.len(),
{
    if answers.len() == 0 {
        Running { frames: f, available, size: Size::spec_zero(), complete: true }
    } else {
        let before = box_fold(f, ch, kids, horizontal, gap, available, answers.drop_last(), depth);
        if answers.len() > kids.len() {
            Running { complete: false, ..before }
        } else {
            let child = node_measure(
                before.frames,
                ch,
                kids[answers.len() - 1],
                before.available,
                depth,
                answers.last(),
            );
            let (left, taken) = measure_step(horizontal, gap, before.available, before.size, child.size);
            Running {
                frames: child.frames,
                available: left,
                size: taken,
                complete: before.complete && child.complete,
            }
        }
    }
}

/// The outcome of measuring the children of the stack `id`: each with the
/// whole of `available`. Together they take the largest extent on each
/// axis, or zero where that is larger.
pub open spec fn stack_measure(
    f: Map<NodeId, Frame>,
    ch: Map<NodeId, Seq<NodeId>>,
    id: NodeId,
    available: Size,
    depth: nat,
    answers: Seq<Answers>,
) -> Measured
    decreases depth, 3nat, 0nat,
{
    if !ch.contains_key(id) {
        Measured { frames: f, size: Size::spec_zero(), complete: true }
    } else {
        let run = stack_fold(f, ch, ch[id], available, answers, depth);
        Measured { frames: run.frames, size: run.size, complete: run.complete && answers.len() == ch[id].len() }
    }
}

/// How far the measuring of the children of a stack has come when as many of
/// them were measured as there are `answers`.
pub open spec fn stack_fold(
    f: Map<NodeId, Frame>,
    ch: Map<NodeId, Seq<NodeId>>,
    kids: Seq<NodeId>,
    available: Size,
    answers: Seq<Answers>,
    depth: nat,
) -> Running
    decreases depth, 1nat, answers.len(),
{
    if answers.len() == 0 {
        Running { frames: f, available, size: Size::spec_zero(), complete: true }
    } else {
        let before = stack_fold(f, ch, kids, available, answers.drop_last(), depth);
        if answers.len() > kids.len() {
            Running { complete: false, ..before }
        } else {
            let child = node_measure(before.frames, ch, kids[answers.len() - 1], available, depth, answers.last());
            Running {
                frames: child.frames,
                available,
                size: before.size.spec_max(child.size),
                complete: before.complete && child.complete,
            }
        }
    }
}

/// The outcome of measuring the children of the grid `id` with `columns`
/// columns: column after column, each with what the columns before it left
/// of `available`.
///
/// A column is as large as the largest child in it, on both axes, and every
/// child in it gets that as its measured size. The columns add up along the
/// main axis like the children of a box. Across it the one row that this
/// gives is taken once for each row, with one gap between the rows. A grid
/// without columns measures zero and changes nothing.
pub open spec fn grid_measure(
    f: Map<NodeId, Frame>,
    ch: Map<NodeId, Seq<NodeId>>,
    id: NodeId,
    available: Size,
    columns: usize,
    depth: nat,
    answers: Seq<Answers>,
) -> Measured
    decreases depth, 3nat, 0nat,
{
    if columns == 0 || !ch.contains_key(id) || !f.contains_key(id) {
        Measured { frames: f, size: Size::spec_zero(), complete: true }
    } else {
        let horizontal = f[id].style.direction.spec_horizontal();
        let gap = f[id].style.gap;
        let run = grid_fold(f, ch, ch[id], columns, horizontal, gap, available, answers, depth);
        Measured {
            frames: run.frames,
            size: grid_measured(horizontal, gap, run.size, grid_rows(ch[id].len(), columns as nat)),
            complete: run.complete && answers.len() == columns,
        }
    }
}

/// How far the measuring of the columns of a grid has come when as many of
/// them were measured as there are `answers`.
pub open spec fn grid_fold(
    f: Map<NodeId, Frame>,
    ch: Map<NodeId, Seq<NodeId>>,
    kids: Seq<NodeId>,
    columns: usize,
    horizontal: bool,
    gap: i32,
    available: Size,
    answers: Seq<Answers>,
    depth: nat,
) -> Running
    decreases depth, 2nat, answers.len(),
{
    if answers.len() == 0 {
        Running { frames: f, available, size: Size::spec_zero(), complete: true }
    } else {
        let before = grid_fold(f, ch, kids, columns, horizontal, gap, available, answers.drop_last(), depth);
        let column = column_fold(
            before.frames,
            ch,
            kids,
            (answers.len() - 1) as nat,
            columns,
            before.available,
            answers.last().children,
            depth,
        );
        let (left, taken) = measure_step(horizontal, gap, before.available, before.size, column.size);
        Running {
            frames: column_write(column.frames, kids, (answers.len() - 1) as nat, columns, column.size),
            available: left,
            size: taken,
            complete: before.complete && column.complete && column.next >= kids.len(),
        }
    }
}

/// How far the measuring of the column `c` of a grid has come when as many
/// of its children were measured as there are `answers`: the child at
/// position `c` first, then every `columns`-th after it.
pub open spec fn column_fold(
    f: Map<NodeId, Frame>,
    ch: Map<NodeId, Seq<NodeId>>,
    kids: Seq<NodeId>,
    c: nat,
    columns: usize,
    available: Size,
    answers: Seq<Answers>,
    depth: nat,
) -> Column
    decreases depth, 1nat, answers.len(),
{
    if answers.len() == 0 {
        Column { frames: f, size: Size::spec_zero(), next: c, complete: true }
    } else {
        let before = column_fold(f, ch, kids, c, columns, available, answers.drop_last(), depth);
        if before.next >= kids.len() {
            Column { complete: false, ..before }
        } else {
            let child = node_measure(before.frames, ch, kids[before.next as int], available, depth, answers.last());
            Column {
                frames: child.frames,
                size: before.size.spec_max(child.size),
                next: (before.next + columns) as nat,
                complete: before.complete && child.complete,
            }
        }
    }
}

/// `f` with `size` as the measured size of the child at position `i` and of
/// every `columns`-th child after it.
pub open spec fn column_write(
    f: Map<NodeId, Frame>,
    kids: Seq<NodeId>,
    i: nat,
    columns: usize,
    size: Size,
) -> Map<NodeId, Frame>
    decreases
            if i < kids.len() {
                kids.len() - i
            } else {
                0
            },
{
    if i >= kids.len() || columns == 0 {
        f
    } else {
        column_write(with_measured(f, kids[i as int], size), kids, (i + columns) as nat, columns, size)
    }
}

/// The size of a grid of `rows` rows whose one row takes `row`: across the
/// main axis `rows` times the row with `gap` between the rows, along it the
/// row. Without rows it is `row` as it stands.
pub open spec fn grid_measured(horizontal: bool, gap: i32, row: Size, rows: i32) -> Size {
    if rows <= 0 {
        row
    } else if horizontal {
        Size { width: row.width, height: grid_cross_total(row.height, rows, gap) }
    } else {
        Size { width: grid_cross_total(row.width, rows, gap), height: row.height }
    }
}

/// A node whose rectangle is smaller than its box offsets on either axis is
/// hidden, and arranging it reaches nothing else: no node under it is
/// arranged, and no widget under it is told anything.
pub proof fn lemma_too_small_hides(
    f: Map<NodeId, Frame>,
    ch: Map<NodeId, Seq<NodeId>>,
    id: NodeId,
    rect: Rect,
    depth: nat,
)
    requires
        depth > 0,
        f.contains_key(id),
        too_small(f[id].style, rect),
    ensures
        node_arrange(f, ch, id, rect, depth) == f.insert(
            id,
            Frame { area: Area { hidden: true, ..f[id].area }, ..f[id] },
        ),
        node_arrange(f, ch, id, rect, depth)[id].area.hidden,
        arrange_order(f, ch, id, rect, depth) == seq![id],
{
}

/// Where the steps from the `j`-th on are `first` and then `rest`, the
/// `j`-th step is `first` and the steps after it are `rest`.
pub proof fn lemma_steps_split(steps: Seq<(NodeId, Rect)>, j: int, first: (NodeId, Rect), rest: Seq<(NodeId, Rect)>)
    requires
        0 <= j <= steps.len(),
        steps.subrange(j, steps.len() as int) == seq![first] + rest,
    ensures
        j < steps.len(),
        steps[j] == first,
        steps.subrange(j + 1, steps.len() as int) == rest,
{
    let tail = steps.subrange(j, steps.len() as int);
    assert(tail.len() == 1 + rest.len());
    assert(tail[0] == first);
    assert forall|k: int| 0 <= k < rest.len() implies steps.subrange(j + 1, steps.len() as int)[k] == rest[k] by {
        assert(tail[k + 1] == rest[k]);
    }
    assert(steps.subrange(j + 1, steps.len() as int) =~= rest);
}

/// Changing one node changes one frame.
pub proof fn lemma_frames_insert(nodes: Map<NodeId, Node>, id: NodeId, node: Node)
    ensures
        frames(nodes.insert(id, node)) == frames(nodes).insert(id, frame_of(node)),
{
    assert(frames(nodes.insert(id, node)) =~= frames(nodes).insert(id, frame_of(node)));
}

/// `keeps_measured` carries over a state in between.
pub proof fn lemma_keeps_measured_trans(a: Map<NodeId, Node>, b: Map<NodeId, Node>, c: Map<NodeId, Node>)
    requires
        keeps_measured(a, b),
        keeps_measured(b, c),
    ensures
        keeps_measured(a, c),
{
    assert forall|id: NodeId| #[trigger] a.contains_key(id) implies {
        &&& c[id].style == a[id].style
        &&& c[id].area.measured_size == a[id].area.measured_size
        &&& (c[id].widget is Some <==> a[id].widget is Some)
    } by {
        assert(b.contains_key(id));
    }
}

/// `measured_only` carries over a state in between.
pub proof fn lemma_measured_only_trans(a: Map<NodeId, Node>, b: Map<NodeId, Node>, c: Map<NodeId, Node>)
    requires
        measured_only(a, b),
        measured_only(b, c),
    ensures
        measured_only(a, c),
{
    assert forall|id: NodeId| #[trigger] a.contains_key(id) implies {
        &&& c[id].style == a[id].style
        &&& c[id].area.hidden == a[id].area.hidden
        &&& c[id].area.content_rect == a[id].area.content_rect
        &&& c[id].area.background_rect == a[id].area.background_rect
        &&& (c[id].widget is Some <==> a[id].widget is Some)
    } by {
        assert(b.contains_key(id));
    }
}

/// Gives `area` the `placed_area` of a node with `style` that is given
/// `rect`.
pub fn place(style: &Style, area: &mut Area, rect: Rect)
    ensures
        *final(area) == placed_area(*style, *old(area), rect),
{
    let box_offsets = style.box_offsets();
    if rect.width() < box_offsets.horizontal() || rect.height() < box_offsets.vertical() {
        area.hidden = true;
    } else {
        let inner = rect.inner_rect(box_offsets);
        let inert = match style.layout {
            Layout::Inert => true,
            _ => false,
        };
        area.hidden = style.hidden || inert;
        area.content_rect = inner;
        area.background_rect = inner.outer_rect(style.padding);
    }
}

/// Arranges the node `id` in `rect`, and under it whatever its layout takes
/// in, at most `depth` levels down.
///
/// Every widget that is reached is told its area. Where `rect` is too small
/// for the box offsets of `id`, the node is hidden and nothing else is
/// touched: no node under it is arranged and no widget is told anything.
#[verifier::rlimit(40)]
pub fn layout(nodes: &mut NodeStore, children: &ChildMap, id: NodeId, rect: Rect, depth: usize)
    ensures
        frames(nodes_of(*final(nodes))) == node_arrange(
            frames(nodes_of(*old(nodes))),
            children_of(*children),
            id,
            rect,
            depth as nat,
        ),
        keeps_measured(nodes_of(*old(nodes)), nodes_of(*final(nodes))),
        only_changed(
            nodes_of(*old(nodes)),
            nodes_of(*final(nodes)),
            arrange_order(frames(nodes_of(*old(nodes))), children_of(*children), id, rect, depth as nat),
        ),
        depth == 0 || !nodes_of(*old(nodes)).contains_key(id) ==> nodes_of(*final(nodes)) == nodes_of(
            *old(nodes),
        ),
        depth > 0 && nodes_of(*old(nodes)).contains_key(id) && placed_area(
            nodes_of(*old(nodes))[id].style,
            nodes_of(*old(nodes))[id].area,
            rect,
        ).hidden ==> nodes_of(*final(nodes)) == nodes_of(*old(nodes)).insert(
            id,
            Node {
                area: placed_area(nodes_of(*old(nodes))[id].style, nodes_of(*old(nodes))[id].area, rect),
                ..nodes_of(*old(nodes))[id]
            },
        ),
    decreases depth, 0nat, 0nat,
{
    proof {
        lemma_only_changed_none(
            nodes_of(*old(nodes)),
            arrange_order(frames(nodes_of(*old(nodes))), children_of(*children), id, rect, depth as nat),
        );
    }
    if depth == 0 {
        return ;
    }
    let kind: Layout;
    let content: Rect;
    match nodes.get_mut(id) {
        None => {
            return ;
        },
        Some(node) => {
            place(&node.style, &mut node.area, rect);
            proof {
                lemma_frames_insert(nodes_of(*old(nodes)), id, *node);
                lemma_only_changed_one(nodes_of(*old(nodes)), id, *node);
            }
            if node.area.hidden {
                return ;
            }
            match &mut node.widget {
                Some(widget) => {
                    widget.layout(&node.area);
                },
                None => {},
            }
            proof {
                lemma_frames_insert(nodes_of(*old(nodes)), id, *node);
            }
            kind = node.style.layout;
            content = node.area.content_rect;
        },
    }
    let ghost placed = nodes_of(*nodes);
    assert(keeps_measured(nodes_of(*old(nodes)), placed));
    proof {
        lemma_only_changed_one(nodes_of(*old(nodes)), id, placed[id]);
        assert(placed =~= nodes_of(*old(nodes)).insert(id, placed[id]));
    }
    let ghost mut under: Seq<NodeId> = Seq::empty();
    match kind {
        Layout::Inert => {},
        Layout::Box => {
            BoxLayout::layout(nodes, children, id, content, depth - 1);
            proof {
                under = box_order(frames(placed), children_of(*children), id, content, (depth - 1) as nat);
            }
        },
        Layout::Stack => {
            StackLayout::layout(nodes, children, id, content, depth - 1);
            proof {
                under = stack_order(frames(placed), children_of(*children), id, content, (depth - 1) as nat);
            }
        },
        Layout::Grid(columns) => {
            GridLayout::layout(nodes, children, id, content, columns, depth - 1);
            proof {
                under = grid_order(
                    frames(placed),
                    children_of(*children),
                    id,
                    content,
                    columns,
                    (depth - 1) as nat,
                );
            }
        },
    }
    proof {
        lemma_keeps_measured_trans(nodes_of(*old(nodes)), placed, nodes_of(*nodes));
        lemma_only_changed_then(nodes_of(*old(nodes)), placed, nodes_of(*nodes), seq![id], under);
    }
}

/// Adds a child of size `child_size` to what a container has measured so
/// far, as `measure_step` says.
pub fn accumulate(horizontal: bool, gap: i32, available: &mut Size, size: &mut Size, child_size: Size)
    ensures
        (*final(available), *final(size)) == measure_step(horizontal, gap, *old(available), *old(size), child_size),
{
    if horizontal {
        available.width = sat_sub(available.width, sat_add(child_size.width, gap));
        if size.width > 0 {
            size.width = sat_add(size.width, gap);
        }
        size.width = sat_add(size.width, child_size.width);
        size.height = max_i32(size.height, child_size.height);
    } else {
        available.height = sat_sub(available.height, sat_add(child_size.height, gap));
        size.width = max_i32(size.width, child_size.width);
        if size.height > 0 {
            size.height = sat_add(size.height, gap);
        }
        size.height = sat_add(size.height, child_size.height);
    }
}

/// The measured size of a node, as `measured_size` says.
pub fn finish(style: &Style, content: Size, widget: Option<Size>) -> (r: Size)
    ensures
        r == measured_size(*style, content, widget),
{
    let wanted = match widget {
        Some(size) => content.max(size),
        None => content,
    };
    style.apply_min_max(wanted).plus(style.box_size())
}

/// The size of a grid from the size of one row, as `grid_measured` says.
pub fn grid_total(horizontal: bool, gap: i32, row: Size, rows: i32) -> (r: Size)
    ensures
        r == grid_measured(horizontal, gap, row, rows),
{
    if rows <= 0 {
        return row;
    }
    let spacing = sat_mul(gap, sat_sub(rows, 1));
    if horizontal {
        Size::new(row.width, sat_add(sat_mul(row.height, rows), spacing))
    } else {
        Size::new(sat_add(sat_mul(row.width, rows), spacing), row.height)
    }
}

/// Measures the node `id` when `available_space` is on offer for it, and
/// under it whatever its layout takes in, at most `depth` levels down.
/// Stores the result as the node's measured size and returns it.
///
/// Whatever the widgets answer, the outcome is that of `node_measure` for
/// their answers: the children are measured first, as the node's layout
/// says, with what the node can offer its content; then the node's widget is
/// asked, with the same offer; and the result is the `measured_size` of the
/// two. For a handle without a node, and at depth zero, the result is zero
/// and nothing changes.
#[verifier::rlimit(40)]
pub fn measure(
    nodes: &mut NodeStore,
    children: &ChildMap,
    id: NodeId,
    available_space: Size,
    depth: usize,
) -> (size: Size)
    ensures
        measured_only(nodes_of(*old(nodes)), nodes_of(*final(nodes))),
        exists|answers: Answers| #[trigger]
            node_measure(
                frames(nodes_of(*old(nodes))),
                children_of(*children),
                id,
                available_space,
                depth as nat,
                answers,
            ) == (Measured { frames: frames(nodes_of(*final(nodes))), size, complete: true }),
        depth == 0 || !nodes_of(*old(nodes)).contains_key(id) ==> size == Size::spec_zero() && nodes_of(
            *final(nodes),
        ) == nodes_of(*old(nodes)),
    decreases depth, 0nat, 0nat,
{
    let ghost before = frames(nodes_of(*old(nodes)));
    let ghost ch = children_of(*children);
    let ghost nothing = Answers { widget: Size::spec_zero(), children: Seq::empty() };
    if depth == 0 {
        assert(node_measure(before, ch, id, available_space, depth as nat, nothing) == (Measured {
            frames: before,
            size: Size::spec_zero(),
            complete: true,
        }));
        return Size::zero();
    }
    let style = match nodes.get(id) {
        Some(node) => node.style,
        None => {
            assert(node_measure(before, ch, id, available_space, depth as nat, nothing) == (Measured {
                frames: before,
                size: Size::spec_zero(),
                complete: true,
            }));
            return Size::zero();
        },
    };
    let budget = style.apply_min_max(available_space.minus(style.box_size()));
    let ghost mut below: Seq<Answers> = Seq::empty();
    let content = match style.layout {
        Layout::Inert => Size::zero(),
        Layout::Box => {
            let taken = BoxLayout::measure(nodes, children, id, budget, depth - 1);
            proof {
                below = choose|answers: Seq<Answers>| #[trigger]
                    box_measure(before, ch, id, budget, (depth - 1) as nat, answers) == (Measured {
                        frames: frames(nodes_of(*nodes)),
                        size: taken,
                        complete: true,
                    });
            }
            taken
        },
        Layout::Stack => {
            let taken = StackLayout::measure(nodes, children, id, budget, depth - 1);
            proof {
                below = choose|answers: Seq<Answers>| #[trigger]
                    stack_measure(before, ch, id, budget, (depth - 1) as nat, answers) == (Measured {
                        frames: frames(nodes_of(*nodes)),
                        size: taken,
                        complete: true,
                    });
            }
            taken
        },
        Layout::Grid(columns) => {
            let taken = GridLayout::measure(nodes, children, id, budget, columns, depth - 1);
            proof {
                below = choose|answers: Seq<Answers>| #[trigger]
                    grid_measure(before, ch, id, budget, columns, (depth - 1) as nat, answers) == (Measured {
                        frames: frames(nodes_of(*nodes)),
                        size: taken,
                        complete: true,
                    });
            }
            taken
        },
    };
    let ghost inner = nodes_of(*nodes);
    assert(inner.contains_key(id));
    let mut size = Size::zero();
    let ghost mut asked = Size::spec_zero();
    match nodes.get_mut(id) {
        Some(node) => {
            let answer = match &mut node.widget {
                Some(widget) => {
                    let wanted = widget.measure(budget);
                    proof {
                        asked = wanted;
                    }
                    Some(wanted)
                },
                None => None,
            };
            size = finish(&style, content, answer);
            node.area.measured_size = size;
            proof {
                lemma_frames_insert(inner, id, *node);
            }
        },
        None => {},
    }
    proof {
        assert(measured_only(inner, nodes_of(*nodes)));
        lemma_measured_only_trans(nodes_of(*old(nodes)), inner, nodes_of(*nodes));
        let answers = Answers { widget: asked, children: below };
        assert(frames(nodes_of(*nodes)) =~= with_measured(frames(inner), id, size));
        assert(node_measure(before, ch, id, available_space, depth as nat, answers) == (Measured {
            frames: frames(nodes_of(*nodes)),
            size,
            complete: true,
        }));
    }
    size
}

/// Measures the node `id` with the size of `rect` on offer and arranges it
/// in `rect`, the whole tree under it: whatever the widgets answer, the
/// frames afterwards are those that `node_arrange` makes of what
/// `node_measure` makes of their answers.
pub fn measure_and_layout(nodes: &mut NodeStore, children: &ChildMap, id: NodeId, rect: Rect)
    ensures
        same_widgets(nodes_of(*old(nodes)), nodes_of(*final(nodes))),
        exists|answers: Answers|
            (#[trigger] node_measure(
                frames(nodes_of(*old(nodes))),
                children_of(*children),
                id,
                rect.size,
                nodes_of(*old(nodes)).dom().len(),
                answers,
            )).complete && frames(nodes_of(*final(nodes))) == node_arrange(
                node_measure(
                    frames(nodes_of(*old(nodes))),
                    children_of(*children),
                    id,
                    rect.size,
                    nodes_of(*old(nodes)).dom().len(),
                    answers,
                ).frames,
                children_of(*children),
                id,
                rect,
                nodes_of(*old(nodes)).dom().len(),
            ),
{
    let depth = nodes.len();
    let size = measure(nodes, children, id, rect.size, depth);
    let ghost measured = nodes_of(*nodes);
    let ghost answers = choose|answers: Answers| #[trigger]
        node_measure(
            frames(nodes_of(*old(nodes))),
            children_of(*children),
            id,
            rect.size,
            depth as nat,
            answers,
        ) == (Measured { frames: frames(measured), size, complete: true });
    layout(nodes, children, id, rect, depth);
    proof {
        assert(measured_only(nodes_of(*old(nodes)), measured));
        assert forall|k: NodeId| #[trigger] nodes_of(*old(nodes)).contains_key(k) implies {
            &&& nodes_of(*nodes)[k].style == nodes_of(*old(nodes))[k].style
            &&& (nodes_of(*nodes)[k].widget is Some <==> nodes_of(*old(nodes))[k].widget is Some)
        } by {
            assert(measured.contains_key(k));
        }
        assert(node_measure(
            frames(nodes_of(*old(nodes))),
            children_of(*children),
            id,
            rect.size,
            nodes_of(*old(nodes)).dom().len(),
            answers,
        ).complete);
    }
}

/// Where the first slot starts and what each grower gets, as `main_plan`
/// says.
pub fn plan_main(
    direction: Direction,
    main_align: Align,
    gap: i32,
    rect: Rect,
    used: i32,
    growers: usize,
) -> (r: (Rect, Size))
    ensures
        r == main_plan(direction, main_align, gap, rect, used, growers as nat),
{
    let horizontal = direction.horizontal();
    let extent = if horizontal {
        rect.size.width
    } else {
        rect.size.height
    };
    let left_over = max_i32(sat_add(sat_sub(extent, used), gap), 0);
    if growers > 0 {
        let share: i32 = if growers > 0x7fff_ffff {
            assert(left_over as int / growers as int == 0) by (nonlinear_arith)
                requires
                    0 <= left_over < growers,
            ;
            0
        } else {
            left_over / (growers as i32)
        };
        let grow_space = if horizontal {
            Size::new(share, 0)
        } else {
            Size::new(0, share)
        };
        (rect, grow_space)
    } else {
        let mut start = rect;
        let skip = if horizontal {
            Size::new(left_over, 0)
        } else {
            Size::new(0, left_over)
        };
        match main_align {
            Align::End => {
                direction.layout_area(&mut start, skip, 0);
            },
            Align::Center => {
                direction.layout_area(&mut start, skip.halved(), 0);
            },
            _ => {},
        }
        (start, Size::zero())
    }
}

/// What the children in `kids` take along the main axis and how many of them
/// grow, as `box_usage` says.
pub fn usage(nodes: &NodeStore, kids: &Vec<NodeId>, count: usize, horizontal: bool, gap: i32) -> (r: (
    i32,
    usize,
))
    requires
        count <= kids.len(),
    ensures
        (r.0, r.1 as nat) == box_usage(frames(nodes_of(*nodes)), kids@, horizontal, gap, count as nat),
{
    let mut used: i32 = 0;
    let mut growers: usize = 0;
    let mut i: usize = 0;
    while i < count
        invariant
            i <= count <= kids.len(),
            growers <= i,
            (used, growers as nat) == box_usage(frames(nodes_of(*nodes)), kids@, horizontal, gap, i as nat),
        decreases count - i,
    {
        match nodes.get(kids[i]) {
            Some(child) => {
                let extent = if horizontal {
                    child.area.measured_size.width
                } else {
                    child.area.measured_size.height
                };
                used = sat_add(used, sat_add(extent, gap));
                if child.style.grow {
                    growers = growers + 1;
                }
            },
            None => {},
        }
        i = i + 1;
    }
    (used, growers)
}

/// The layout that puts its children one after another along the main axis.
pub struct BoxLayout;

impl BoxLayout {
    /// Measures the children of `id`, one after the other, each with what
    /// the children before it left of `available_space`, and returns what
    /// they take together: the sum along the main axis, with `gap` between
    /// consecutive children, and the largest across it. Whatever the
    /// widgets answer, the outcome is that of `box_measure` for their
    /// answers.
    #[verifier::rlimit(40)]
    pub fn measure(
        nodes: &mut NodeStore,
        children: &ChildMap,
        id: NodeId,
        available_space: Size,
        depth: usize,
    ) -> (size: Size)
        ensures
            measured_only(nodes_of(*old(nodes)), nodes_of(*final(nodes))),
            exists|answers: Seq<Answers>| #[trigger]
                box_measure(
                    frames(nodes_of(*old(nodes))),
                    children_of(*children),
                    id,
                    available_space,
                    depth as nat,
                    answers,
                ) == (Measured { frames: frames(nodes_of(*final(nodes))), size, complete: true }),
        decreases depth, 3nat, 0nat,
    {
        let ghost before = frames(nodes_of(*old(nodes)));
        let ghost ch = children_of(*children);
        let ghost mut log: Seq<Answers> = Seq::empty();
        let child_ids = match children.get(id) {
            Some(child_ids) => child_ids,
            None => {
                assert(box_measure(before, ch, id, available_space, depth as nat, log) == (Measured {
                    frames: before,
                    size: Size::spec_zero(),
                    complete: true,
                }));
                return Size::zero();
            },
        };
        let style = match nodes.get(id) {
            Some(node) => node.style,
            None => {
                assert(box_measure(before, ch, id, available_space, depth as nat, log) == (Measured {
                    frames: before,
                    size: Size::spec_zero(),
                    complete: true,
                }));
                return Size::zero();
            },
        };
        let horizontal = style.direction.horizontal();
        let gap = style.gap;
        let mut available = available_space;
        let mut size = Size::zero();
        let mut i: usize = 0;
        while i < child_ids.len()
            invariant
                i <= child_ids.len(),
                log.len() == i,
                before == frames(nodes_of(*old(nodes))),
                ch == children_of(*children),
                measured_only(nodes_of(*old(nodes)), nodes_of(*nodes)),
                box_fold(before, ch, child_ids@, horizontal, gap, available_space, log, depth as nat) == (Running {
                    frames: frames(nodes_of(*nodes)),
                    available,
                    size,
                    complete: true,
                }),
            decreases child_ids.len() - i,
        {
            let ghost earlier = nodes_of(*nodes);
            let ghost offered = available;
            let child_size = measure(nodes, children, child_ids[i], available, depth);
            accumulate(horizontal, gap, &mut available, &mut size, child_size);
            proof {
                lemma_measured_only_trans(nodes_of(*old(nodes)), earlier, nodes_of(*nodes));
                let answer = choose|answers: Answers| #[trigger]
                    node_measure(frames(earlier), ch, child_ids@[i as int], offered, depth as nat, answers) == (
                    Measured { frames: frames(nodes_of(*nodes)), size: child_size, complete: true });
                assert(log.push(answer).drop_last() == log);
                log = log.push(answer);
            }
            i = i + 1;
        }
        assert(box_measure(before, ch, id, available_space, depth as nat, log) == (Measured {
            frames: frames(nodes_of(*nodes)),
            size,
            complete: true,
        }));
        size
    }

    /// Arranges the children of `id` in `rect`.
    ///
    /// The main axis adds up: each child gets a slot of its measured extent,
    /// with `gap` between consecutive slots, from the leading edge on, or
    /// from the trailing edge in the reversed directions. Across the main
    /// axis each child is placed in its slot by its own `cross_align`.
    /// Leftover space goes to the growers, or else the container's
    /// `main_align` moves the first slot.
    #[verifier::rlimit(40)]
    pub fn layout(nodes: &mut NodeStore, children: &ChildMap, id: NodeId, rect: Rect, depth: usize)
        ensures
            frames(nodes_of(*final(nodes))) == box_arrange(
                frames(nodes_of(*old(nodes))),
                children_of(*children),
                id,
                rect,
                depth as nat,
            ),
            keeps_measured(nodes_of(*old(nodes)), nodes_of(*final(nodes))),
            only_changed(
                nodes_of(*old(nodes)),
                nodes_of(*final(nodes)),
                box_order(frames(nodes_of(*old(nodes))), children_of(*children), id, rect, depth as nat),
            ),
        decreases depth, 2nat, 0nat,
    {
        proof {
            lemma_only_changed_none(
                nodes_of(*old(nodes)),
                box_order(frames(nodes_of(*old(nodes))), children_of(*children), id, rect, depth as nat),
            );
            lemma_only_changed_none(nodes_of(*old(nodes)), Seq::empty());
        }
        let child_ids = match children.get(id) {
            Some(child_ids) => child_ids,
            None => {
                return ;
            },
        };
        let style = match nodes.get(id) {
            Some(node) => node.style,
            None => {
                return ;
            },
        };
        let direction = style.direction;
        let gap = style.gap;
        let horizontal = direction.horizontal();
        let (used, growers) = usage(nodes, child_ids, child_ids.len(), horizontal, gap);
        let (start, grow_space) = plan_main(direction, style.main_align, gap, rect, used, growers);
        let mut cursor = start;
        let ghost before = frames(nodes_of(*old(nodes)));
        let ghost ch = children_of(*children);
        let ghost steps = box_steps(before, child_ids@, style, rect);
        let ghost goal = box_arrange(before, ch, id, rect, depth as nat);
        let ghost mut j: int = 0;
        let ghost mut reached: Seq<NodeId> = Seq::empty();
        let ghost total = steps_order(before, ch, steps, 0, depth as nat);
        assert(steps.subrange(0, steps.len() as int) == steps);
        assert(reached + total == total);
        let mut i: usize = 0;
        while i < child_ids.len()
            invariant
                i <= child_ids.len(),
                0 <= j <= steps.len(),
                only_changed(nodes_of(*old(nodes)), nodes_of(*nodes), reached),
                total == reached + steps_order(frames(nodes_of(*nodes)), ch, steps, j as nat, depth as nat),
                horizontal == direction.spec_horizontal(),
                before == frames(nodes_of(*old(nodes))),
                ch == children_of(*children),
                keeps_measured(nodes_of(*old(nodes)), nodes_of(*nodes)),
                goal == arrange_steps(frames(nodes_of(*nodes)), ch, steps, j as nat, depth as nat),
                steps.subrange(j, steps.len() as int) == box_steps_from(
                    before,
                    child_ids@,
                    i as nat,
                    cursor,
                    direction,
                    gap,
                    grow_space,
                ),
            decreases child_ids.len() - i,
        {
            let child_id = child_ids[i];
            let ghost earlier = nodes_of(*nodes);
            let found = match nodes.get(child_id) {
                Some(child) => {
                    let mut child_size = child.area.measured_size;
                    if child.style.grow {
                        child_size = child_size.plus(grow_space);
                    }
                    Some((child_size, child.style.cross_align))
                },
                None => None,
            };
            match found {
                Some((child_size, cross_align)) => {
                    assert(nodes_of(*old(nodes)).contains_key(child_id));
                    assert(child_size == slot_size(before[child_id], grow_space));
                    assert(cross_align == before[child_id].style.cross_align);
                    let ghost at = cursor;
                    let slot = direction.layout_area(&mut cursor, child_size, gap);
                    let child_rect = cross_align.align_area(!horizontal, slot, child_size);
                    proof {
                        lemma_steps_split(
                            steps,
                            j,
                            (child_id, child_rect),
                            box_steps_from(
                                before,
                                child_ids@,
                                (i + 1) as nat,
                                cursor,
                                direction,
                                gap,
                                grow_space,
                            ),
                        );
                    }
                    layout(nodes, children, child_id, child_rect, depth);
                    proof {
                        lemma_arrange_step(
                            nodes_of(*old(nodes)),
                            earlier,
                            nodes_of(*nodes),
                            ch,
                            steps,
                            j,
                            reached,
                            depth as nat,
                        );
                        reached = reached + arrange_order(frames(earlier), ch, child_id, child_rect, depth as nat);
                        j = j + 1;
                    }
                },
                None => {
                    assert(!before.contains_key(child_id));
                },
            }
            i = i + 1;
        }
        assert(steps.subrange(j, steps.len() as int).len() == 0);
        assert(reached + Seq::<NodeId>::empty() == reached);
    }
}

/// The rectangle that a stack gives the child `child`, as `stack_slot`
/// says.
pub fn stack_rect(direction: Direction, main_align: Align, rect: Rect, child: &Node) -> (r: Rect)
    ensures
        r == stack_slot(direction, main_align, rect, frame_of(*child)),
{
    let horizontal = direction.horizontal();
    let child_size = child.area.measured_size;
    let grow_align = if child.style.grow {
        Align::Stretch
    } else {
        main_align
    };
    let along_main = grow_align.align_area(horizontal, rect, child_size);
    child.style.cross_align.align_area(!horizontal, along_main, child_size)
}

/// The layout that gives every child the same rectangle.
pub struct StackLayout;

impl StackLayout {
    /// Measures the children of `id`, each with the whole of
    /// `available_space`, and returns the largest extent on each axis, or
    /// zero where that is larger. Whatever the widgets answer, the outcome
    /// is that of `stack_measure` for their answers.
    #[verifier::rlimit(40)]
    pub fn measure(
        nodes: &mut NodeStore,
        children: &ChildMap,
        id: NodeId,
        available_space: Size,
        depth: usize,
    ) -> (size: Size)
        ensures
            measured_only(nodes_of(*old(nodes)), nodes_of(*final(nodes))),
            exists|answers: Seq<Answers>| #[trigger]
                stack_measure(
                    frames(nodes_of(*old(nodes))),
                    children_of(*children),
                    id,
                    available_space,
                    depth as nat,
                    answers,
                ) == (Measured { frames: frames(nodes_of(*final(nodes))), size, complete: true }),
        decreases depth, 3nat, 0nat,
    {
        let ghost before = frames(nodes_of(*old(nodes)));
        let ghost ch = children_of(*children);
        let ghost mut log: Seq<Answers> = Seq::empty();
        let mut size = Size::zero();
        let child_ids = match children.get(id) {
            Some(child_ids) => child_ids,
            None => {
                assert(stack_measure(before, ch, id, available_space, depth as nat, log) == (Measured {
                    frames: before,
                    size: Size::spec_zero(),
                    complete: true,
                }));
                return size;
            },
        };
        let mut i: usize = 0;
        while i < child_ids.len()
            invariant
                i <= child_ids.len(),
                log.len() == i,
                before == frames(nodes_of(*old(nodes))),
                ch == children_of(*children),
                measured_only(nodes_of(*old(nodes)), nodes_of(*nodes)),
                stack_fold(before, ch, child_ids@, available_space, log, depth as nat) == (Running {
                    frames: frames(nodes_of(*nodes)),
                    available: available_space,
                    size,
                    complete: true,
                }),
            decreases child_ids.len() - i,
        {
            let ghost earlier = nodes_of(*nodes);
            let child_size = measure(nodes, children, child_ids[i], available_space, depth);
            size = size.max(child_size);
            proof {
                lemma_measured_only_trans(nodes_of(*old(nodes)), earlier, nodes_of(*nodes));
                let answer = choose|answers: Answers| #[trigger]
                    node_measure(frames(earlier), ch, child_ids@[i as int], available_space, depth as nat, answers)
                        == (Measured { frames: frames(nodes_of(*nodes)), size: child_size, complete: true });
                assert(log.push(answer).drop_last() == log);
                log = log.push(answer);
            }
            i = i + 1;
        }
        assert(stack_measure(before, ch, id, available_space, depth as nat, log) == (Measured {
            frames: frames(nodes_of(*nodes)),
            size,
            complete: true,
        }));
        size
    }

    /// Arranges the children of `id` in `rect`, each on its own.
    ///
    /// A child that grows fills `rect` along the main axis; another is placed
    /// there by the container's `main_align`. Across the main axis each child
    /// is placed by its own `cross_align`.
    #[verifier::rlimit(40)]
    pub fn layout(nodes: &mut NodeStore, children: &ChildMap, id: NodeId, rect: Rect, depth: usize)
        ensures
            frames(nodes_of(*final(nodes))) == stack_arrange(
                frames(nodes_of(*old(nodes))),
                children_of(*children),
                id,
                rect,
                depth as nat,
            ),
            keeps_measured(nodes_of(*old(nodes)), nodes_of(*final(nodes))),
            only_changed(
                nodes_of(*old(nodes)),
                nodes_of(*final(nodes)),
                stack_order(frames(nodes_of(*old(nodes))), children_of(*children), id, rect, depth as nat),
            ),
        decreases depth, 2nat, 0nat,
    {
        proof {
            lemma_only_changed_none(
                nodes_of(*old(nodes)),
                stack_order(frames(nodes_of(*old(nodes))), children_of(*children), id, rect, depth as nat),
            );
            lemma_only_changed_none(nodes_of(*old(nodes)), Seq::empty());
        }
        let child_ids = match children.get(id) {
            Some(child_ids) => child_ids,
            None => {
                return ;
            },
        };
        let style = match nodes.get(id) {
            Some(node) => node.style,
            None => {
                return ;
            },
        };
        let direction = style.direction;
        let main_align = style.main_align;
        let horizontal = direction.horizontal();
        let ghost before = frames(nodes_of(*old(nodes)));
        let ghost ch = children_of(*children);
        let ghost steps = stack_steps_from(before, child_ids@, 0, rect, direction, main_align);
        let ghost goal = stack_arrange(before, ch, id, rect, depth as nat);
        let ghost mut j: int = 0;
        let ghost mut reached: Seq<NodeId> = Seq::empty();
        let ghost total = steps_order(before, ch, steps, 0, depth as nat);
        assert(steps.subrange(0, steps.len() as int) == steps);
        assert(reached + total == total);
        let mut i: usize = 0;
        while i < child_ids.len()
            invariant
                i <= child_ids.len(),
                0 <= j <= steps.len(),
                only_changed(nodes_of(*old(nodes)), nodes_of(*nodes), reached),
                total == reached + steps_order(frames(nodes_of(*nodes)), ch, steps, j as nat, depth as nat),
                horizontal == direction.spec_horizontal(),
                before == frames(nodes_of(*old(nodes))),
                ch == children_of(*children),
                keeps_measured(nodes_of(*old(nodes)), nodes_of(*nodes)),
                goal == arrange_steps(frames(nodes_of(*nodes)), ch, steps, j as nat, depth as nat),
                steps.subrange(j, steps.len() as int) == stack_steps_from(
                    before,
                    child_ids@,
                    i as nat,
                    rect,
                    direction,
                    main_align,
                ),
            decreases child_ids.len() - i,
        {
            let child_id = child_ids[i];
            let ghost earlier = nodes_of(*nodes);
            let found = match nodes.get(child_id) {
                Some(child) => Some(stack_rect(direction, main_align, rect, child)),
                None => None,
            };
            match found {
                Some(child_rect) => {
                    assert(nodes_of(*old(nodes)).contains_key(child_id));
                    assert(child_rect == stack_slot(direction, main_align, rect, before[child_id]));
                    proof {
                        lemma_steps_split(
                            steps,
                            j,
                            (child_id, child_rect),
                            stack_steps_from(before, child_ids@, (i + 1) as nat, rect, direction, main_align),
                        );
                    }
                    layout(nodes, children, child_id, child_rect, depth);
                    proof {
                        lemma_arrange_step(
                            nodes_of(*old(nodes)),
                            earlier,
                            nodes_of(*nodes),
                            ch,
                            steps,
                            j,
                            reached,
                            depth as nat,
                        );
                        reached = reached + arrange_order(frames(earlier), ch, child_id, child_rect, depth as nat);
                        j = j + 1;
                    }
                },
                None => {
                    assert(!before.contains_key(child_id));
                },
            }
            i = i + 1;
        }
        assert(steps.subrange(j, steps.len() as int).len() == 0);
        assert(reached + Seq::<NodeId>::empty() == reached);
    }
}

/// The number of rows, as `grid_rows` says.
pub fn rows_of(count: usize, columns: usize) -> (r: i32)
    ensures
        r == grid_rows(count as nat, columns as nat),
{
    if columns == 0 {
        return 0;
    }
    let full = count / columns;
    let partial = count % columns != 0;
    if full >= 0x7fff_ffff {
        0x7fff_ffff
    } else if partial {
        full as i32 + 1
    } else {
        full as i32
    }
}

/// Moves the whole grid across the main axis, as `grid_cross_start` says.
pub fn cross_start(horizontal: bool, cross_align: Align, gap: i32, rect: Rect, row_size: i32, rows: i32) -> (r:
    Rect)
    ensures
        r == grid_cross_start(horizontal, cross_align, gap, rect, row_size, rows),
{
    let total = sat_add(sat_mul(row_size, rows), sat_mul(gap, sat_sub(rows, 1)));
    let extent = if horizontal {
        rect.size.height
    } else {
        rect.size.width
    };
    let spare = sat_sub(extent, total);
    let shift = match cross_align {
        Align::End => spare,
        Align::Center => half(spare),
        _ => {
            return rect;
        },
    };
    let mut moved = rect;
    if horizontal {
        moved.origin.y = sat_add(moved.origin.y, shift);
        moved.size.height = sat_sub(moved.size.height, shift);
    } else {
        moved.origin.x = sat_add(moved.origin.x, shift);
        moved.size.width = sat_sub(moved.size.width, shift);
    }
    moved
}

/// The layout that puts its children in a fixed number of columns.
pub struct GridLayout;

impl GridLayout {
    /// Measures the children of `id` column by column and returns what the
    /// grid takes.
    ///
    /// A column is as large as the largest child in it, on both axes, and
    /// every child in it gets that as its measured size. Each child is
    /// measured with what the columns before it left of `available_space`.
    /// The columns add up along the main axis like the children of a box;
    /// across it the one row that this gives is taken once for each row,
    /// with `gap` between the rows. A grid without columns takes nothing.
    /// Whatever the widgets answer, the outcome is that of `grid_measure`
    /// for their answers.
    #[verifier::rlimit(40)]
    pub fn measure(
        nodes: &mut NodeStore,
        children: &ChildMap,
        id: NodeId,
        available_space: Size,
        columns: usize,
        depth: usize,
    ) -> (size: Size)
        ensures
            measured_only(nodes_of(*old(nodes)), nodes_of(*final(nodes))),
            exists|answers: Seq<Answers>| #[trigger]
                grid_measure(
                    frames(nodes_of(*old(nodes))),
                    children_of(*children),
                    id,
                    available_space,
                    columns,
                    depth as nat,
                    answers,
                ) == (Measured { frames: frames(nodes_of(*final(nodes))), size, complete: true }),
        decreases depth, 3nat, 0nat,
    {
        let ghost before = frames(nodes_of(*old(nodes)));
        let ghost ch = children_of(*children);
        let ghost mut log: Seq<Answers> = Seq::empty();
        if columns == 0 {
            assert(grid_measure(before, ch, id, available_space, columns, depth as nat, log) == (Measured {
                frames: before,
                size: Size::spec_zero(),
                complete: true,
            }));
            return Size::zero();
        }
        let child_ids = match children.get(id) {
            Some(child_ids) => child_ids,
            None => {
                assert(grid_measure(before, ch, id, available_space, columns, depth as nat, log) == (Measured {
                    frames: before,
                    size: Size::spec_zero(),
                    complete: true,
                }));
                return Size::zero();
            },
        };
        let style = match nodes.get(id) {
            Some(node) => node.style,
            None => {
                assert(grid_measure(before, ch, id, available_space, columns, depth as nat, log) == (Measured {
                    frames: before,
                    size: Size::spec_zero(),
                    complete: true,
                }));
                return Size::zero();
            },
        };
        let count = child_ids.len();
        let horizontal = style.direction.horizontal();
        let gap = style.gap;
        let mut available = available_space;
        let mut size = Size::zero();
        let mut column: usize = 0;
        while column < columns
            invariant
                column <= columns,
                columns > 0,
                count == child_ids.len(),
                log.len() == column,
                before == frames(nodes_of(*old(nodes))),
                ch == children_of(*children),
                measured_only(nodes_of(*old(nodes)), nodes_of(*nodes)),
                grid_fold(before, ch, child_ids@, columns, horizontal, gap, available_space, log, depth as nat)
                    == (Running { frames: frames(nodes_of(*nodes)), available, size, complete: true }),
            decreases columns - column,
        {
            let ghost at_start = frames(nodes_of(*nodes));
            let ghost mut rows: Seq<Answers> = Seq::empty();
            let ghost mut next: nat = column as nat;
            let mut child_size = Size::zero();
            let mut i: usize = column;
            while i < count
                invariant
                    columns > 0,
                    count == child_ids.len(),
                    ch == children_of(*children),
                    next < count ==> i == next,
                    next >= count ==> i >= count,
                    measured_only(nodes_of(*old(nodes)), nodes_of(*nodes)),
                    column_fold(at_start, ch, child_ids@, column as nat, columns, available, rows, depth as nat)
                        == (Column { frames: frames(nodes_of(*nodes)), size: child_size, next, complete: true }),
                decreases count - i,
            {
                let ghost earlier = nodes_of(*nodes);
                let measured = measure(nodes, children, child_ids[i], available, depth);
                child_size = child_size.max(measured);
                proof {
                    lemma_measured_only_trans(nodes_of(*old(nodes)), earlier, nodes_of(*nodes));
                    let answer = choose|answers: Answers| #[trigger]
                        node_measure(frames(earlier), ch, child_ids@[i as int], available, depth as nat, answers)
                            == (Measured { frames: frames(nodes_of(*nodes)), size: measured, complete: true });
                    assert(rows.push(answer).drop_last() == rows);
                    rows = rows.push(answer);
                    next = (next + columns) as nat;
                }
                if columns >= count - i {
                    i = count;
                } else {
                    i = i + columns;
                }
            }
            let ghost measured_frames = frames(nodes_of(*nodes));
            let ghost mut from: nat = column as nat;
            let mut i: usize = column;
            while i < count
                invariant
                    columns > 0,
                    count == child_ids.len(),
                    from < count ==> i == from,
                    from >= count ==> i >= count,
                    measured_only(nodes_of(*old(nodes)), nodes_of(*nodes)),
                    column_write(measured_frames, child_ids@, column as nat, columns, child_size) == column_write(
                        frames(nodes_of(*nodes)),
                        child_ids@,
                        from,
                        columns,
                        child_size,
                    ),
                decreases count - i,
            {
                let ghost earlier = nodes_of(*nodes);
                match nodes.get_mut(child_ids[i]) {
                    Some(child) => {
                        child.area.measured_size = child_size;
                        proof {
                            lemma_frames_insert(earlier, child_ids@[i as int], *child);
                        }
                    },
                    None => {},
                }
                proof {
                    assert(measured_only(earlier, nodes_of(*nodes)));
                    lemma_measured_only_trans(nodes_of(*old(nodes)), earlier, nodes_of(*nodes));
                    assert(frames(nodes_of(*nodes)) =~= with_measured(
                        frames(earlier),
                        child_ids@[i as int],
                        child_size,
                    ));
                    from = (from + columns) as nat;
                }
                if columns >= count - i {
                    i = count;
                } else {
                    i = i + columns;
                }
            }
            let ghost offered = available;
            let ghost so_far = size;
            accumulate(horizontal, gap, &mut available, &mut size, child_size);
            proof {
                let answer = Answers { widget: Size::spec_zero(), children: rows };
                assert(log.push(answer).drop_last() == log);
                log = log.push(answer);
            }
            column = column + 1;
        }
        let total = grid_total(horizontal, gap, size, rows_of(count, columns));
        assert(grid_measure(before, ch, id, available_space, columns, depth as nat, log) == (Measured {
            frames: frames(nodes_of(*nodes)),
            size: total,
            complete: true,
        }));
        total
    }

    /// Arranges the children of `id` in `rect`, in `columns` columns along
    /// the main axis, child after child, row after row.
    ///
    /// Every row has the extent that the first child measured across the
    /// main axis, whatever the later rows hold. The container's
    /// `cross_align` moves the whole grid across the main axis where `rect`
    /// is not exactly what the rows take. Along the main axis the columns
    /// get their slots as the children of a box do, by the first row.
    #[verifier::rlimit(40)]
    pub fn layout(
        nodes: &mut NodeStore,
        children: &ChildMap,
        id: NodeId,
        rect: Rect,
        columns: usize,
        depth: usize,
    )
        ensures
            frames(nodes_of(*final(nodes))) == grid_arrange(
                frames(nodes_of(*old(nodes))),
                children_of(*children),
                id,
                rect,
                columns,
                depth as nat,
            ),
            keeps_measured(nodes_of(*old(nodes)), nodes_of(*final(nodes))),
            only_changed(
                nodes_of(*old(nodes)),
                nodes_of(*final(nodes)),
                grid_order(frames(nodes_of(*old(nodes))), children_of(*children), id, rect, columns, depth as nat),
            ),
        decreases depth, 2nat, 0nat,
    {
        proof {
            lemma_only_changed_none(
                nodes_of(*old(nodes)),
                grid_order(frames(nodes_of(*old(nodes))), children_of(*children), id, rect, columns, depth as nat),
            );
            lemma_only_changed_none(nodes_of(*old(nodes)), Seq::empty());
        }
        if columns == 0 {
            return ;
        }
        let child_ids = match children.get(id) {
            Some(child_ids) => child_ids,
            None => {
                return ;
            },
        };
        let style = match nodes.get(id) {
            Some(node) => node.style,
            None => {
                return ;
            },
        };
        let count = child_ids.len();
        let direction = style.direction;
        let gap = style.gap;
        let horizontal = direction.horizontal();
        let rows = rows_of(count, columns);
        let mut first_child_size = Size::zero();
        if count > 0 {
            match nodes.get(child_ids[0]) {
                Some(child) => {
                    first_child_size = child.area.measured_size;
                },
                None => {},
            }
        }
        let row_size = if horizontal {
            first_child_size.height
        } else {
            first_child_size.width
        };
        let across = cross_start(horizontal, style.cross_align, gap, rect, row_size, rows);
        let row_len = if columns <= count {
            columns
        } else {
            count
        };
        let (used, growers) = usage(nodes, child_ids, row_len, horizontal, gap);
        let (start, grow_space) = plan_main(direction, style.main_align, gap, across, used, growers);
        let step = sat_add(row_size, gap);
        let mut cursor = start;
        let ghost before = frames(nodes_of(*old(nodes)));
        let ghost ch = children_of(*children);
        let ghost steps = grid_steps(before, child_ids@, style, rect, columns);
        let ghost goal = grid_arrange(before, ch, id, rect, columns, depth as nat);
        let ghost mut j: int = 0;
        let ghost mut reached: Seq<NodeId> = Seq::empty();
        let ghost total = steps_order(before, ch, steps, 0, depth as nat);
        assert(steps.subrange(0, steps.len() as int) == steps);
        assert(reached + total == total);
        let mut c: usize = 0;
        while c < row_len
            invariant
                only_changed(nodes_of(*old(nodes)), nodes_of(*nodes), reached),
                total == reached + steps_order(frames(nodes_of(*nodes)), ch, steps, j as nat, depth as nat),
                c <= row_len <= count,
                count == child_ids.len(),
                columns > 0,
                0 <= j <= steps.len(),
                horizontal == direction.spec_horizontal(),
                step == saturate(row_size + gap),
                before == frames(nodes_of(*old(nodes))),
                ch == children_of(*children),
                keeps_measured(nodes_of(*old(nodes)), nodes_of(*nodes)),
                goal == arrange_steps(frames(nodes_of(*nodes)), ch, steps, j as nat, depth as nat),
                steps.subrange(j, steps.len() as int) == grid_steps_from(
                    before,
                    child_ids@,
                    c as nat,
                    row_len as nat,
                    columns,
                    cursor,
                    direction,
                    gap,
                    grow_space,
                    row_size,
                ),
            decreases row_len - c,
        {
            let found = match nodes.get(child_ids[c]) {
                Some(child) => {
                    let mut child_size = child.area.measured_size;
                    if child.style.grow {
                        child_size = child_size.plus(grow_space);
                    }
                    Some(child_size)
                },
                None => None,
            };
            match found {
                Some(child_size) => {
                    assert(nodes_of(*old(nodes)).contains_key(child_ids@[c as int]));
                    assert(child_size == slot_size(before[child_ids@[c as int]], grow_space));
                    let mut cell = direction.layout_area(&mut cursor, child_size, gap);
                    if horizontal {
                        cell.size.height = row_size;
                    } else {
                        cell.size.width = row_size;
                    }
                    let ghost later = grid_steps_from(
                        before,
                        child_ids@,
                        (c + 1) as nat,
                        row_len as nat,
                        columns,
                        cursor,
                        direction,
                        gap,
                        grow_space,
                        row_size,
                    );
                    let mut i: usize = c;
                    while i < count
                        invariant
                            only_changed(nodes_of(*old(nodes)), nodes_of(*nodes), reached),
                            total == reached + steps_order(
                                frames(nodes_of(*nodes)),
                                ch,
                                steps,
                                j as nat,
                                depth as nat,
                            ),
                            i <= count,
                            count == child_ids.len(),
                            columns > 0,
                            0 <= j <= steps.len(),
                            ch == children_of(*children),
                            keeps_measured(nodes_of(*old(nodes)), nodes_of(*nodes)),
                            goal == arrange_steps(frames(nodes_of(*nodes)), ch, steps, j as nat, depth as nat),
                            steps.subrange(j, steps.len() as int) == column_steps(
                                child_ids@,
                                i as nat,
                                columns,
                                cell,
                                horizontal,
                                step,
                            ) + later,
                        decreases count - i,
                    {
                        let ghost earlier = nodes_of(*nodes);
                        let ghost here = cell;
                        let child_id = child_ids[i];
                        layout(nodes, children, child_id, cell, depth);
                        if horizontal {
                            cell.origin.y = sat_add(cell.origin.y, step);
                        } else {
                            cell.origin.x = sat_add(cell.origin.x, step);
                        }
                        proof {
                            let following = column_steps(
                                child_ids@,
                                (i + columns) as nat,
                                columns,
                                cell,
                                horizontal,
                                step,
                            );
                            assert((seq![(child_id, here)] + following) + later == seq![(child_id, here)] + (
                            following + later));
                            lemma_steps_split(steps, j, (child_id, here), following + later);
                            lemma_arrange_step(
                                nodes_of(*old(nodes)),
                                earlier,
                                nodes_of(*nodes),
                                ch,
                                steps,
                                j,
                                reached,
                                depth as nat,
                            );
                            reached = reached + arrange_order(frames(earlier), ch, child_id, here, depth as nat);
                            j = j + 1;
                        }
                        if columns >= count - i {
                            assert(column_steps(
                                child_ids@,
                                (i + columns) as nat,
                                columns,
                                cell,
                                horizontal,
                                step,
                            ) == Seq::<(NodeId, Rect)>::empty());
                            assert(column_steps(child_ids@, count as nat, columns, cell, horizontal, step)
                                == Seq::<(NodeId, Rect)>::empty());
                            i = count;
                        } else {
                            i = i + columns;
                        }
                    }
                    assert(Seq::<(NodeId, Rect)>::empty() + later == later);
                },
                None => {
                    assert(!before.contains_key(child_ids@[c as int]));
                },
            }
            c = c + 1;
        }
        assert(steps.subrange(j, steps.len() as int).len() == 0);
    }
}

} // verus!
