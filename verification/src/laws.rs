//! What holds of the rectangles that a box gives its children: they follow
//! one another with exactly one gap between them, each as long as its child,
//! and together with the gaps they take no more than the box has, as long as
//! the children fit.
//!
//! Coordinates saturate at the bounds of `i32`. The laws speak of exact sums,
//! so each of them asks that the sums it speaks of stay within the bounds.
//! `lemma_box_children_fit` asks it of the box as a whole, by `fits`; the
//! other laws ask it sum by sum.

use vstd::prelude::*;
use crate::geometry::{Rect, Size};
use crate::layout::{
    Frame, along, box_slot, box_steps, box_steps_from, box_usage, cross_extent, main_extent, main_plan, slot_size,
};
use crate::store::NodeId;
use crate::style::{Align, Direction, Style};

verus! {

/// The slots that are cut off `cursor` for children whose slots have the
/// sizes `sizes`, one after the other, before they are placed across the
/// main axis.
pub open spec fn cut_slots(direction: Direction, gap: i32, cursor: Rect, sizes: Seq<Size>) -> Seq<Rect>
    decreases sizes.len(),
{
    if sizes.len() == 0 {
        Seq::empty()
    } else {
        let (slot, rest) = direction.spec_layout_area(cursor, sizes[0], gap);
        seq![slot] + cut_slots(direction, gap, rest, sizes.drop_first())
    }
}

/// What the first `k` of `sizes` take along the main axis, a gap after each.
pub open spec fn taken(horizontal: bool, gap: i32, sizes: Seq<Size>, k: nat) -> int
    decreases k,
{
    if k == 0 || k > sizes.len() {
        0
    } else {
        taken(horizontal, gap, sizes, (k - 1) as nat) + main_extent(horizontal, sizes[k - 1]) + gap
    }
}

/// Where `rect` starts along the main axis.
pub open spec fn main_start(horizontal: bool, rect: Rect) -> i32 {
    if horizontal {
        rect.origin.x
    } else {
        rect.origin.y
    }
}

/// Where `rect` starts across the main axis.
pub open spec fn cross_start(horizontal: bool, rect: Rect) -> i32 {
    if horizontal {
        rect.origin.y
    } else {
        rect.origin.x
    }
}

/// Whether `x` is an `i32`.
pub open spec fn in_range(x: int) -> bool {
    i32::MIN <= x <= i32::MAX
}

/// Whether the direction fills from the trailing edge.
pub open spec fn reversed(direction: Direction) -> bool {
    direction == Direction::RowReverse || direction == Direction::ColumnReverse
}

/// Whether the first `k` of `sizes` can be cut off `cursor` without a sum or
/// a difference leaving the range of `i32` on the way.
pub open spec fn cut_in_range(direction: Direction, gap: i32, cursor: Rect, sizes: Seq<Size>, k: nat) -> bool
    decreases k,
{
    let horizontal = direction.spec_horizontal();
    let start = main_start(horizontal, cursor);
    let extent = main_extent(horizontal, cursor.size);
    if k == 0 || k > sizes.len() {
        true
    } else {
        &&& cut_in_range(direction, gap, cursor, sizes, (k - 1) as nat)
        &&& in_range(main_extent(horizontal, sizes[k - 1]) + gap)
        &&& in_range(extent - taken(horizontal, gap, sizes, k))
        &&& if reversed(direction) {
            &&& in_range(start + extent - taken(horizontal, gap, sizes, k))
            &&& in_range(start + extent - taken(horizontal, gap, sizes, k) + gap)
        } else {
            in_range(start + taken(horizontal, gap, sizes, k))
        }
    }
}

/// Whether the slot of the `k`-th of `sizes` can be cut off what the `k`
/// before it leave of `cursor` without a sum or a difference leaving the
/// range of `i32`. From the leading edge nothing is added up for the slot
/// itself; from the trailing edge the slot is found by what is left once it
/// is cut.
pub open spec fn slot_in_range(direction: Direction, gap: i32, cursor: Rect, sizes: Seq<Size>, k: nat) -> bool {
    let horizontal = direction.spec_horizontal();
    let start = main_start(horizontal, cursor);
    let extent = main_extent(horizontal, cursor.size);
    reversed(direction) ==> {
        &&& in_range(main_extent(horizontal, sizes[k as int]) + gap)
        &&& in_range(extent - taken(horizontal, gap, sizes, k + 1))
        &&& in_range(start + extent - taken(horizontal, gap, sizes, k + 1))
        &&& in_range(start + extent - taken(horizontal, gap, sizes, k + 1) + gap)
    }
}

/// Where the slot of the `k`-th child starts along the main axis when all
/// sums are exact: in the leading directions after what the children before
/// it take, in the reversed directions that far and its own extent before
/// the trailing edge.
pub open spec fn slot_start(direction: Direction, gap: i32, cursor: Rect, sizes: Seq<Size>, k: nat) -> int {
    let horizontal = direction.spec_horizontal();
    if reversed(direction) {
        main_start(horizontal, cursor) + main_extent(horizontal, cursor.size) - taken(horizontal, gap, sizes, k)
            - main_extent(horizontal, sizes[k as int])
    } else {
        main_start(horizontal, cursor) + taken(horizontal, gap, sizes, k)
    }
}

/// The sizes of the slots of `kids`, in their order: the measured size of
/// each, and `grow_space` on top where it grows.
pub open spec fn slot_sizes(f: Map<NodeId, Frame>, kids: Seq<NodeId>, grow_space: Size) -> Seq<Size> {
    Seq::new(kids.len(), |i: int| slot_size(f[kids[i]], grow_space))
}

/// Whether every one of `kids` has a node.
pub open spec fn all_present(f: Map<NodeId, Frame>, kids: Seq<NodeId>) -> bool {
    forall|i: int| 0 <= i < kids.len() ==> f.contains_key(#[trigger] kids[i])
}

/// What the first `k` take is what the first takes and what the following
/// `k - 1` take.
proof fn lemma_taken_first(horizontal: bool, gap: i32, sizes: Seq<Size>, k: nat)
    requires
        0 < k <= sizes.len(),
    ensures
        taken(horizontal, gap, sizes, k) == main_extent(horizontal, sizes[0]) + gap + taken(
            horizontal,
            gap,
            sizes.drop_first(),
            (k - 1) as nat,
        ),
    decreases k,
{
    if k == 1 {
        assert(taken(horizontal, gap, sizes, 0) == 0);
        assert(taken(horizontal, gap, sizes.drop_first(), 0) == 0);
    } else {
        lemma_taken_first(horizontal, gap, sizes, (k - 1) as nat);
        assert(sizes.drop_first()[k - 2] == sizes[k - 1]);
    }
}

/// What can be cut off `cursor` can be cut off what the first slot leaves
/// of it.
proof fn lemma_cut_in_range_rest(direction: Direction, gap: i32, cursor: Rect, sizes: Seq<Size>, k: nat)
    requires
        0 < k <= sizes.len(),
        cut_in_range(direction, gap, cursor, sizes, k),
    ensures
        cut_in_range(direction, gap, cursor, sizes, 1),
        cut_in_range(
            direction,
            gap,
            direction.spec_layout_area(cursor, sizes[0], gap).1,
            sizes.drop_first(),
            (k - 1) as nat,
        ),
    decreases k,
{
    let horizontal = direction.spec_horizontal();
    if k > 1 {
        lemma_cut_in_range_rest(direction, gap, cursor, sizes, (k - 1) as nat);
        lemma_taken_first(horizontal, gap, sizes, k);
        lemma_taken_first(horizontal, gap, sizes, 1);
        assert(taken(horizontal, gap, sizes, 0) == 0);
        assert(taken(horizontal, gap, sizes.drop_first(), 0) == 0);
        assert(sizes.drop_first()[k - 2] == sizes[k - 1]);
    }
}

/// One slot is cut for each size.
proof fn lemma_cut_len(direction: Direction, gap: i32, cursor: Rect, sizes: Seq<Size>)
    ensures
        cut_slots(direction, gap, cursor, sizes).len() == sizes.len(),
    decreases sizes.len(),
{
    if sizes.len() > 0 {
        lemma_cut_len(
            direction,
            gap,
            direction.spec_layout_area(cursor, sizes[0], gap).1,
            sizes.drop_first(),
        );
    }
}

/// As long as no coordinate saturates on the way, the `k`-th slot that is
/// cut is as long as its size says along the main axis and as wide as the
/// cursor across it, and it starts at `slot_start`.
proof fn lemma_slots_contiguous(direction: Direction, gap: i32, cursor: Rect, sizes: Seq<Size>, k: nat)
    requires
        k < sizes.len(),
        cut_in_range(direction, gap, cursor, sizes, k),
        slot_in_range(direction, gap, cursor, sizes, k),
    ensures
        cut_slots(direction, gap, cursor, sizes).len() == sizes.len(),
        main_extent(direction.spec_horizontal(), cut_slots(direction, gap, cursor, sizes)[k as int].size)
            == main_extent(direction.spec_horizontal(), sizes[k as int]),
        cross_extent(direction.spec_horizontal(), cut_slots(direction, gap, cursor, sizes)[k as int].size)
            == cross_extent(direction.spec_horizontal(), cursor.size),
        cross_start(direction.spec_horizontal(), cut_slots(direction, gap, cursor, sizes)[k as int])
            == cross_start(direction.spec_horizontal(), cursor),
        main_start(direction.spec_horizontal(), cut_slots(direction, gap, cursor, sizes)[k as int])
            == slot_start(direction, gap, cursor, sizes, k),
    decreases k,
{
    let horizontal = direction.spec_horizontal();
    lemma_cut_len(direction, gap, cursor, sizes);
    let (slot, rest) = direction.spec_layout_area(cursor, sizes[0], gap);
    let later = cut_slots(direction, gap, rest, sizes.drop_first());
    lemma_taken_first(horizontal, gap, sizes, 1);
    assert(taken(horizontal, gap, sizes, 0) == 0);
    if k == 0 {
        assert(cut_slots(direction, gap, cursor, sizes)[0] == slot);
    } else {
        lemma_cut_in_range_rest(direction, gap, cursor, sizes, k);
        lemma_taken_first(horizontal, gap, sizes, k + 1);
        lemma_taken_first(horizontal, gap, sizes, k);
        assert(sizes.drop_first()[k - 1] == sizes[k as int]);
        assert(slot_in_range(direction, gap, rest, sizes.drop_first(), (k - 1) as nat));
        lemma_cut_len(direction, gap, rest, sizes.drop_first());
        lemma_slots_contiguous(direction, gap, rest, sizes.drop_first(), (k - 1) as nat);
        assert(cut_slots(direction, gap, cursor, sizes)[k as int] == later[k - 1]);
    }
}

/// The rectangles that a box gives its children from the `i`-th on are the
/// slots cut for the sizes of their slots, each placed across the main axis
/// by its own `cross_align`.
proof fn lemma_steps_are_slots(
    f: Map<NodeId, Frame>,
    kids: Seq<NodeId>,
    i: nat,
    cursor: Rect,
    direction: Direction,
    gap: i32,
    grow_space: Size,
)
    requires
        i <= kids.len(),
        all_present(f, kids),
    ensures
        box_steps_from(f, kids, i, cursor, direction, gap, grow_space).len() == kids.len() - i,
        forall|k: int|
            0 <= k < kids.len() - i ==> #[trigger] box_steps_from(
                f,
                kids,
                i,
                cursor,
                direction,
                gap,
                grow_space,
            )[k] == (
                kids[i + k],
                f[kids[i + k]].style.cross_align.spec_align_area(
                    !direction.spec_horizontal(),
                    cut_slots(
                        direction,
                        gap,
                        cursor,
                        slot_sizes(f, kids, grow_space).subrange(i as int, kids.len() as int),
                    )[k],
                    slot_sizes(f, kids, grow_space)[i + k],
                ),
            ),
    decreases kids.len() - i,
{
    let sizes = slot_sizes(f, kids, grow_space);
    let tail = sizes.subrange(i as int, kids.len() as int);
    let steps = box_steps_from(f, kids, i, cursor, direction, gap, grow_space);
    if i < kids.len() {
        let kid = kids[i as int];
        assert(f.contains_key(kids[i as int]));
        let (slot, rest) = box_slot(direction, gap, grow_space, cursor, f[kid]);
        let later = box_steps_from(f, kids, i + 1, rest, direction, gap, grow_space);
        lemma_steps_are_slots(f, kids, i + 1, rest, direction, gap, grow_space);
        assert(tail[0] == sizes[i as int]);
        assert(tail.drop_first() == sizes.subrange((i + 1) as int, kids.len() as int));
        lemma_cut_len(direction, gap, rest, tail.drop_first());
        assert forall|k: int| 0 <= k < kids.len() - i implies #[trigger] steps[k] == (
            kids[i + k],
            f[kids[i + k]].style.cross_align.spec_align_area(
                !direction.spec_horizontal(),
                cut_slots(direction, gap, cursor, tail)[k],
                sizes[i + k],
            ),
        ) by {
            if k > 0 {
                assert(steps[k] == later[k - 1]);
                assert(cut_slots(direction, gap, cursor, tail)[k] == cut_slots(
                    direction,
                    gap,
                    rest,
                    tail.drop_first(),
                )[k - 1]);
            }
        }
    }
}

/// The rectangles that a box gives its children follow one another with
/// exactly one gap between them.
///
/// Let every child have a node, and let no coordinate saturate up to the
/// `k`-th child. Then the `k`-th child is given a rectangle that is as long
/// as its slot along the main axis and starts at `slot_start`: where the
/// rectangle of the child before it ends, plus one gap, in the direction in
/// which the box fills. Across the main axis the rectangle is the whole of
/// `cursor` if the child asks to be stretched, and as wide as the child
/// otherwise.
pub proof fn lemma_box_children_contiguous(
    f: Map<NodeId, Frame>,
    kids: Seq<NodeId>,
    cursor: Rect,
    direction: Direction,
    gap: i32,
    grow_space: Size,
    k: nat,
)
    requires
        all_present(f, kids),
        k < kids.len(),
        cut_in_range(direction, gap, cursor, slot_sizes(f, kids, grow_space), k),
        slot_in_range(direction, gap, cursor, slot_sizes(f, kids, grow_space), k),
    ensures
        ({
            let horizontal = direction.spec_horizontal();
            let steps = box_steps_from(f, kids, 0, cursor, direction, gap, grow_space);
            let sizes = slot_sizes(f, kids, grow_space);
            &&& steps.len() == kids.len()
            &&& steps[k as int].0 == kids[k as int]
            &&& main_extent(horizontal, steps[k as int].1.size) == main_extent(horizontal, sizes[k as int])
            &&& main_start(horizontal, steps[k as int].1) == slot_start(direction, gap, cursor, sizes, k)
            &&& cross_extent(horizontal, steps[k as int].1.size) == if f[kids[k as int]].style.cross_align
                == Align::Stretch {
                cross_extent(horizontal, cursor.size)
            } else {
                cross_extent(horizontal, sizes[k as int])
            }
        }),
{
    let sizes = slot_sizes(f, kids, grow_space);
    lemma_steps_are_slots(f, kids, 0, cursor, direction, gap, grow_space);
    assert(sizes.subrange(0, kids.len() as int) == sizes);
    lemma_slots_contiguous(direction, gap, cursor, sizes, k);
    let steps = box_steps_from(f, kids, 0, cursor, direction, gap, grow_space);
    assert(steps[k as int].0 == kids[0 + k as int]);
}

/// Whether every one of the first `n` of `kids` has a node, none of them
/// grows, and what they take stays in the range of `i32` child by child.
pub open spec fn plain_children(f: Map<NodeId, Frame>, kids: Seq<NodeId>, horizontal: bool, gap: i32, n: nat) -> bool
    decreases n,
{
    if n == 0 || n > kids.len() {
        true
    } else {
        &&& plain_children(f, kids, horizontal, gap, (n - 1) as nat)
        &&& f.contains_key(kids[n - 1])
        &&& !f[kids[n - 1]].style.grow
        &&& in_range(main_extent(horizontal, f[kids[n - 1]].area.measured_size) + gap)
        &&& in_range(taken(horizontal, gap, slot_sizes(f, kids, Size::spec_zero()), n))
    }
}

/// For children that do not grow, what a box counts as used is the sum of
/// their measured sizes and of one gap after each of them.
pub proof fn lemma_usage_is_sum(f: Map<NodeId, Frame>, kids: Seq<NodeId>, horizontal: bool, gap: i32, n: nat)
    requires
        n <= kids.len(),
        plain_children(f, kids, horizontal, gap, n),
    ensures
        box_usage(f, kids, horizontal, gap, n) == (
            taken(horizontal, gap, slot_sizes(f, kids, Size::spec_zero()), n) as i32,
            0nat,
        ),
        in_range(taken(horizontal, gap, slot_sizes(f, kids, Size::spec_zero()), n)),
        forall|i: int| 0 <= i < n ==> f.contains_key(#[trigger] kids[i]),
    decreases n,
{
    if n > 0 {
        lemma_usage_is_sum(f, kids, horizontal, gap, (n - 1) as nat);
        let sizes = slot_sizes(f, kids, Size::spec_zero());
        assert(sizes[n - 1] == f[kids[n - 1]].area.measured_size);
    }
}

/// How far the content of a box is moved from the edge at which the box
/// starts to fill, when `left_over` of the main axis is not taken.
pub open spec fn lead(main_align: Align, left_over: int) -> int {
    match main_align {
        Align::End => left_over,
        Align::Center => left_over / 2,
        _ => 0,
    }
}

/// A box without growers whose children fit gives away no more than it has.
///
/// Let the children take `content` along the main axis, the gaps between
/// them included, and let that be no more than the extent of `rect`. Then
/// what is left over is the difference. The slots start `lead` of it from
/// the edge at which the box starts to fill: all of it for `End`, half of it
/// for `Center`, none of it otherwise. Lead and content together are no
/// more than the extent of `rect`, so the children stay inside it; and
/// nothing else of `rect` changes.
pub proof fn lemma_box_conserves(direction: Direction, main_align: Align, gap: i32, rect: Rect, used: i32)
    requires
        used - gap <= main_extent(direction.spec_horizontal(), rect.size),
        in_range(used - gap),
        in_range(main_extent(direction.spec_horizontal(), rect.size) - used),
        in_range(main_extent(direction.spec_horizontal(), rect.size) - used + gap),
        in_range(
            main_start(direction.spec_horizontal(), rect) + main_extent(direction.spec_horizontal(), rect.size)
                - (used - gap),
        ),
    ensures
        ({
            let horizontal = direction.spec_horizontal();
            let extent = main_extent(horizontal, rect.size);
            let content = used - gap;
            let (start, grow_space) = main_plan(direction, main_align, gap, rect, used, 0);
            let shift = lead(main_align, extent - content);
            &&& grow_space == Size::spec_zero()
            &&& 0 <= shift
            &&& shift + content <= extent
            &&& main_extent(horizontal, start.size) == extent - shift
            &&& cross_extent(horizontal, start.size) == cross_extent(horizontal, rect.size)
            &&& cross_start(horizontal, start) == cross_start(horizontal, rect)
            &&& main_start(horizontal, start) == if reversed(direction) {
                main_start(horizontal, rect) as int
            } else {
                main_start(horizontal, rect) + shift
            }
        }),
{
    let horizontal = direction.spec_horizontal();
    let extent = main_extent(horizontal, rect.size);
    let left_over = extent - (used - gap);
    let skip = along(horizontal, left_over as i32);
    assert(0 <= left_over / 2 <= left_over);
    assert(skip.spec_halved() == along(horizontal, (left_over / 2) as i32));
    match direction {
        Direction::Row => {},
        Direction::Column => {},
        Direction::RowReverse => {},
        Direction::ColumnReverse => {},
    }
}

/// What the children of a box take along the main axis, the gaps between
/// them included, none of them growing.
pub open spec fn content_extent(f: Map<NodeId, Frame>, kids: Seq<NodeId>, style: Style) -> int {
    taken(style.direction.spec_horizontal(), style.gap, slot_sizes(f, kids, Size::spec_zero()), kids.len())
        - style.gap
}

/// Whether a box with `style` that is given `rect` places its children up to
/// the `k`-th without a sum or a difference leaving the range of `i32` on
/// the way.
pub open spec fn box_in_range(f: Map<NodeId, Frame>, kids: Seq<NodeId>, style: Style, rect: Rect, k: nat) -> bool {
    let horizontal = style.direction.spec_horizontal();
    let extent = main_extent(horizontal, rect.size);
    let content = content_extent(f, kids, style);
    &&& in_range(content)
    &&& in_range(extent - content)
    &&& in_range(extent - content - style.gap)
    &&& in_range(main_start(horizontal, rect) + extent - content)
    &&& cut_in_range(
        style.direction,
        style.gap,
        main_plan(style.direction, style.main_align, style.gap, rect, (content + style.gap) as i32, 0).0,
        slot_sizes(f, kids, Size::spec_zero()),
        k,
    )
    &&& slot_in_range(
        style.direction,
        style.gap,
        main_plan(style.direction, style.main_align, style.gap, rect, (content + style.gap) as i32, 0).0,
        slot_sizes(f, kids, Size::spec_zero()),
        k,
    )
}

/// Box main-axis conservation.
///
/// Let a box with `style` be given `rect`, let none of its children grow,
/// and let them fit: their measured sizes and the gaps between them take no
/// more than `rect` has along the main axis. As long as no coordinate
/// saturates, every child is given a rectangle as long as it measured; the
/// rectangles follow one another in the direction of the box, from `lead` of
/// what is left over on, with exactly one gap between two of them; and
/// lead, children and gaps together are no more than `rect` has.
pub proof fn lemma_box_conservation(f: Map<NodeId, Frame>, kids: Seq<NodeId>, style: Style, rect: Rect, k: nat)
    requires
        k < kids.len(),
        plain_children(f, kids, style.direction.spec_horizontal(), style.gap, kids.len()),
        content_extent(f, kids, style) <= main_extent(style.direction.spec_horizontal(), rect.size),
        box_in_range(f, kids, style, rect, k),
    ensures
        ({
            let horizontal = style.direction.spec_horizontal();
            let sizes = slot_sizes(f, kids, Size::spec_zero());
            let extent = main_extent(horizontal, rect.size);
            let content = content_extent(f, kids, style);
            let shift = lead(style.main_align, extent - content);
            let steps = box_steps(f, kids, style, rect);
            &&& steps.len() == kids.len()
            &&& steps[k as int].0 == kids[k as int]
            &&& 0 <= shift
            &&& shift + content <= extent
            &&& main_extent(horizontal, steps[k as int].1.size) == main_extent(
                horizontal,
                f[kids[k as int]].area.measured_size,
            )
            &&& main_start(horizontal, steps[k as int].1) == if reversed(style.direction) {
                main_start(horizontal, rect) + extent - shift - taken(horizontal, style.gap, sizes, k)
                    - main_extent(horizontal, sizes[k as int])
            } else {
                main_start(horizontal, rect) + shift + taken(horizontal, style.gap, sizes, k)
            }
        }),
{
    let horizontal = style.direction.spec_horizontal();
    let sizes = slot_sizes(f, kids, Size::spec_zero());
    lemma_usage_is_sum(f, kids, horizontal, style.gap, kids.len());
    let used = taken(horizontal, style.gap, sizes, kids.len()) as i32;
    lemma_box_conserves(style.direction, style.main_align, style.gap, rect, used);
    let (start, grow_space) = main_plan(style.direction, style.main_align, style.gap, rect, used, 0);
    assert(grow_space == Size::spec_zero());
    assert(all_present(f, kids));
    lemma_box_children_contiguous(f, kids, start, style.direction, style.gap, grow_space, k);
    assert(sizes[k as int] == f[kids[k as int]].area.measured_size);
}

/// What more of `sizes` take is no less, where no size and no gap is
/// negative.
proof fn lemma_taken_grows(horizontal: bool, gap: i32, sizes: Seq<Size>, j: nat, m: nat)
    requires
        j <= m <= sizes.len(),
        gap >= 0,
        forall|i: int| 0 <= i < sizes.len() ==> main_extent(horizontal, #[trigger] sizes[i]) >= 0,
    ensures
        0 <= taken(horizontal, gap, sizes, j) <= taken(horizontal, gap, sizes, m),
        j < m ==> taken(horizontal, gap, sizes, j) + main_extent(horizontal, sizes[j as int]) + gap <= taken(
            horizontal,
            gap,
            sizes,
            m,
        ),
    decreases m,
{
    if j == 0 {
        assert(taken(horizontal, gap, sizes, 0) == 0);
    }
    if m > 0 {
        if j < m {
            lemma_taken_grows(horizontal, gap, sizes, j, (m - 1) as nat);
        } else {
            lemma_taken_grows(horizontal, gap, sizes, (j - 1) as nat, (m - 1) as nat);
        }
    }
}

/// A box none of whose children grows counts no growers.
proof fn lemma_no_growers(f: Map<NodeId, Frame>, kids: Seq<NodeId>, horizontal: bool, gap: i32, n: nat)
    requires
        n <= kids.len(),
        forall|i: int| 0 <= i < kids.len() ==> !f[#[trigger] kids[i]].style.grow,
    ensures
        box_usage(f, kids, horizontal, gap, n).1 == 0,
    decreases n,
{
    if n > 0 {
        lemma_no_growers(f, kids, horizontal, gap, (n - 1) as nat);
    }
}

/// Slots for sizes that fit into `cursor`, the gaps between them included,
/// are cut without a sum leaving the range of `i32` as long as another slot
/// is to follow.
proof fn lemma_cut_fits(direction: Direction, gap: i32, cursor: Rect, sizes: Seq<Size>, j: nat)
    requires
        j < sizes.len(),
        gap >= 0,
        forall|i: int| 0 <= i < sizes.len() ==> main_extent(direction.spec_horizontal(), #[trigger] sizes[i]) >= 0,
        taken(direction.spec_horizontal(), gap, sizes, sizes.len()) - gap <= main_extent(
            direction.spec_horizontal(),
            cursor.size,
        ),
        in_range(
            main_start(direction.spec_horizontal(), cursor) + main_extent(direction.spec_horizontal(), cursor.size),
        ),
    ensures
        cut_in_range(direction, gap, cursor, sizes, j),
    decreases j,
{
    let horizontal = direction.spec_horizontal();
    if j > 0 {
        lemma_cut_fits(direction, gap, cursor, sizes, (j - 1) as nat);
        lemma_taken_grows(horizontal, gap, sizes, (j - 1) as nat, j);
        lemma_taken_grows(horizontal, gap, sizes, j, sizes.len());
    }
}

/// Whether the children `kids` of a box with `style` that is given `rect`
/// fit into it.
///
/// Every child has a node, none grows, and no measured size and no gap is
/// negative. What they take along the main axis, the gaps between them
/// included, is no more than `rect` has. The far edge of `rect` is a
/// coordinate. And the box can do its sums: where it aligns its content to
/// the end or the centre, or fills from the trailing edge, the sizes with
/// one gap after each add up within `i32`; and where it fills from the
/// trailing edge, so does the place one gap before what the children leave
/// of `rect`.
pub open spec fn fits(f: Map<NodeId, Frame>, kids: Seq<NodeId>, style: Style, rect: Rect) -> bool {
    let horizontal = style.direction.spec_horizontal();
    let start = main_start(horizontal, rect);
    let extent = main_extent(horizontal, rect.size);
    let content = content_extent(f, kids, style);
    &&& all_present(f, kids)
    &&& forall|i: int| 0 <= i < kids.len() ==> !f[#[trigger] kids[i]].style.grow
    &&& forall|i: int|
        0 <= i < kids.len() ==> main_extent(horizontal, f[#[trigger] kids[i]].area.measured_size) >= 0
    &&& style.gap >= 0
    &&& content <= extent
    &&& in_range(start + extent)
    &&& (reversed(style.direction) || style.main_align == Align::End || style.main_align == Align::Center)
        ==> in_range(content + style.gap)
    &&& reversed(style.direction) ==> in_range(
        start + extent - lead(style.main_align, extent - content) - content - style.gap,
    )
}

/// No size of children that fit is negative.
proof fn lemma_fits_sizes(f: Map<NodeId, Frame>, kids: Seq<NodeId>, style: Style, rect: Rect)
    requires
        fits(f, kids, style, rect),
    ensures
        forall|i: int|
            0 <= i < kids.len() ==> #[trigger] slot_sizes(f, kids, Size::spec_zero())[i]
                == f[kids[i]].area.measured_size,
        forall|i: int|
            0 <= i < kids.len() ==> main_extent(
                style.direction.spec_horizontal(),
                #[trigger] slot_sizes(f, kids, Size::spec_zero())[i],
            ) >= 0,
{
    let sizes = slot_sizes(f, kids, Size::spec_zero());
    assert forall|i: int| 0 <= i < kids.len() implies #[trigger] sizes[i] == f[kids[i]].area.measured_size
        && main_extent(style.direction.spec_horizontal(), sizes[i]) >= 0 by {
        assert(!f[kids[i]].style.grow);
        assert(main_extent(style.direction.spec_horizontal(), f[kids[i]].area.measured_size) >= 0);
    }
}

/// Children that fit, and whose sizes with a gap after each add up within
/// `i32`, are placed without a sum leaving the range of `i32`.
proof fn lemma_fits_in_range(f: Map<NodeId, Frame>, kids: Seq<NodeId>, style: Style, rect: Rect, k: nat)
    requires
        k < kids.len(),
        fits(f, kids, style, rect),
        in_range(content_extent(f, kids, style) + style.gap),
    ensures
        plain_children(f, kids, style.direction.spec_horizontal(), style.gap, kids.len()),
        box_in_range(f, kids, style, rect, k),
{
    let horizontal = style.direction.spec_horizontal();
    let gap = style.gap;
    let n = kids.len();
    let sizes = slot_sizes(f, kids, Size::spec_zero());
    let extent = main_extent(horizontal, rect.size);
    let content = content_extent(f, kids, style);
    let start = main_start(horizontal, rect);
    lemma_fits_sizes(f, kids, style, rect);
    lemma_taken_grows(horizontal, gap, sizes, k, n);
    lemma_taken_grows(horizontal, gap, sizes, (k + 1) as nat, n);
    lemma_taken_grows(horizontal, gap, sizes, k, (k + 1) as nat);
    lemma_plain(f, kids, horizontal, gap, n);
    let used = taken(horizontal, gap, sizes, n) as i32;
    assert(used == content + gap);
    assert(0 <= content <= extent);
    lemma_box_conserves(style.direction, style.main_align, gap, rect, used);
    let cursor = main_plan(style.direction, style.main_align, gap, rect, used, 0).0;
    let shift = lead(style.main_align, extent - content);
    let from = main_start(horizontal, cursor);
    let room = main_extent(horizontal, cursor.size);
    assert(room == extent - shift);
    assert(from + room <= start + extent);
    assert(from + room >= start);
    lemma_cut_fits(style.direction, gap, cursor, sizes, k);
    if reversed(style.direction) {
        let upto = taken(horizontal, gap, sizes, (k + 1) as nat);
        assert(from == start);
        assert(upto <= content + gap);
        assert(upto >= main_extent(horizontal, sizes[k as int]) + gap);
        assert(in_range(main_extent(horizontal, sizes[k as int]) + gap));
        assert(in_range(room - upto));
        assert(in_range(from + room - upto));
        assert(in_range(from + room - upto + gap));
    }
    assert(slot_in_range(style.direction, gap, cursor, sizes, k));
}

/// Where a box puts the `k`-th of its children along the main axis, where
/// it fills from the leading edge on and does not move its content.
proof fn lemma_box_position_leading(f: Map<NodeId, Frame>, kids: Seq<NodeId>, style: Style, rect: Rect, k: nat)
    requires
        k < kids.len(),
        fits(f, kids, style, rect),
        !reversed(style.direction),
        style.main_align != Align::End,
        style.main_align != Align::Center,
    ensures
        ({
            let horizontal = style.direction.spec_horizontal();
            let sizes = slot_sizes(f, kids, Size::spec_zero());
            let steps = box_steps(f, kids, style, rect);
            &&& steps.len() == kids.len()
            &&& steps[k as int].0 == kids[k as int]
            &&& main_extent(horizontal, steps[k as int].1.size) == main_extent(horizontal, sizes[k as int])
            &&& main_start(horizontal, steps[k as int].1) == main_start(horizontal, rect) + taken(
                horizontal,
                style.gap,
                sizes,
                k,
            )
        }),
{
    let horizontal = style.direction.spec_horizontal();
    let gap = style.gap;
    let n = kids.len();
    let sizes = slot_sizes(f, kids, Size::spec_zero());
    lemma_fits_sizes(f, kids, style, rect);
    lemma_no_growers(f, kids, horizontal, gap, n);
    let (used, growers) = box_usage(f, kids, horizontal, gap, n);
    assert(main_plan(style.direction, style.main_align, gap, rect, used, growers) == (rect, Size::spec_zero()));
    lemma_cut_fits(style.direction, gap, rect, sizes, k);
    lemma_box_children_contiguous(f, kids, rect, style.direction, gap, Size::spec_zero(), k);
}

/// Where a box whose children fit puts the `k`-th of them along the main
/// axis.
proof fn lemma_box_position(f: Map<NodeId, Frame>, kids: Seq<NodeId>, style: Style, rect: Rect, k: nat)
    requires
        k < kids.len(),
        fits(f, kids, style, rect),
    ensures
        ({
            let horizontal = style.direction.spec_horizontal();
            let sizes = slot_sizes(f, kids, Size::spec_zero());
            let extent = main_extent(horizontal, rect.size);
            let content = content_extent(f, kids, style);
            let shift = lead(style.main_align, extent - content);
            let steps = box_steps(f, kids, style, rect);
            &&& steps.len() == kids.len()
            &&& steps[k as int].0 == kids[k as int]
            &&& sizes[k as int] == f[kids[k as int]].area.measured_size
            &&& 0 <= shift
            &&& shift + content <= extent
            &&& main_extent(horizontal, steps[k as int].1.size) == main_extent(horizontal, sizes[k as int])
            &&& main_start(horizontal, steps[k as int].1) == if reversed(style.direction) {
                main_start(horizontal, rect) + extent - shift - taken(horizontal, style.gap, sizes, k)
                    - main_extent(horizontal, sizes[k as int])
            } else {
                main_start(horizontal, rect) + shift + taken(horizontal, style.gap, sizes, k)
            }
        }),
{
    let horizontal = style.direction.spec_horizontal();
    let sizes = slot_sizes(f, kids, Size::spec_zero());
    let extent = main_extent(horizontal, rect.size);
    let content = content_extent(f, kids, style);
    lemma_fits_sizes(f, kids, style, rect);
    lemma_taken_grows(horizontal, style.gap, sizes, 0, kids.len());
    lemma_taken_grows(horizontal, style.gap, sizes, 0, 1);
    assert(taken(horizontal, style.gap, sizes, 0) == 0);
    assert(0 <= content <= extent);
    assert(0 <= (extent - content) / 2 <= extent - content);
    if in_range(content + style.gap) {
        lemma_fits_in_range(f, kids, style, rect, k);
        lemma_box_conservation(f, kids, style, rect, k);
    } else {
        lemma_box_position_leading(f, kids, style, rect, k);
    }
}

/// Children that do not grow and whose sizes add up within `i32` are plain.
proof fn lemma_plain(f: Map<NodeId, Frame>, kids: Seq<NodeId>, horizontal: bool, gap: i32, n: nat)
    requires
        n <= kids.len(),
        gap >= 0,
        all_present(f, kids),
        forall|i: int| 0 <= i < kids.len() ==> !f[#[trigger] kids[i]].style.grow,
        forall|i: int|
            0 <= i < kids.len() ==> main_extent(horizontal, f[#[trigger] kids[i]].area.measured_size) >= 0,
        in_range(taken(horizontal, gap, slot_sizes(f, kids, Size::spec_zero()), kids.len())),
    ensures
        plain_children(f, kids, horizontal, gap, n),
    decreases n,
{
    let sizes = slot_sizes(f, kids, Size::spec_zero());
    assert forall|i: int| 0 <= i < sizes.len() implies main_extent(horizontal, #[trigger] sizes[i]) >= 0 by {
        assert(!f[kids[i]].style.grow);
        assert(sizes[i] == f[kids[i]].area.measured_size);
    }
    if n > 0 {
        lemma_plain(f, kids, horizontal, gap, (n - 1) as nat);
        lemma_taken_grows(horizontal, gap, sizes, (n - 1) as nat, n);
        lemma_taken_grows(horizontal, gap, sizes, n, kids.len());
        assert(sizes[n - 1] == f[kids[n - 1]].area.measured_size);
    }
}

/// Box main-axis conservation, for every box whose children fit.
///
/// Let none of the children of a box grow, and let their measured sizes and
/// the gaps between them take no more than `rect` has along the main axis.
/// Then every child is given a rectangle as long as it measured, inside
/// `rect`. The first starts `lead` of what is left over from the edge at
/// which the box starts to fill, and each of the others exactly one gap
/// after the one before it, in the direction in which the box fills. Lead,
/// children and gaps together are no more than `rect` has.
pub proof fn lemma_box_children_fit(f: Map<NodeId, Frame>, kids: Seq<NodeId>, style: Style, rect: Rect, k: nat)
    requires
        k < kids.len(),
        fits(f, kids, style, rect),
    ensures
        ({
            let horizontal = style.direction.spec_horizontal();
            let extent = main_extent(horizontal, rect.size);
            let content = content_extent(f, kids, style);
            let shift = lead(style.main_align, extent - content);
            let steps = box_steps(f, kids, style, rect);
            let size = main_extent(horizontal, f[kids[k as int]].area.measured_size);
            let at = main_start(horizontal, steps[k as int].1);
            &&& steps.len() == kids.len()
            &&& steps[k as int].0 == kids[k as int]
            &&& main_extent(horizontal, steps[k as int].1.size) == size
            &&& 0 <= shift
            &&& shift + content <= extent
            &&& main_start(horizontal, rect) <= at
            &&& at + size <= main_start(horizontal, rect) + extent
            &&& k == 0 ==> if reversed(style.direction) {
                at + size == main_start(horizontal, rect) + extent - shift
            } else {
                at == main_start(horizontal, rect) + shift
            }
            &&& k + 1 < kids.len() ==> if reversed(style.direction) {
                main_start(horizontal, steps[k as int + 1].1) + main_extent(
                    horizontal,
                    f[kids[k as int + 1]].area.measured_size,
                ) + style.gap == at
            } else {
                main_start(horizontal, steps[k as int + 1].1) == at + size + style.gap
            }
        }),
{
    let horizontal = style.direction.spec_horizontal();
    let gap = style.gap;
    let n = kids.len();
    let sizes = slot_sizes(f, kids, Size::spec_zero());
    assert forall|i: int| 0 <= i < sizes.len() implies main_extent(horizontal, #[trigger] sizes[i]) >= 0 by {
        assert(!f[kids[i]].style.grow);
        assert(sizes[i] == f[kids[i]].area.measured_size);
    }
    lemma_box_position(f, kids, style, rect, k);
    lemma_taken_grows(horizontal, gap, sizes, k, n);
    lemma_taken_grows(horizontal, gap, sizes, 0, k);
    assert(taken(horizontal, gap, sizes, 0) == 0);
    if k + 1 < n {
        lemma_box_position(f, kids, style, rect, k + 1);
        lemma_taken_grows(horizontal, gap, sizes, k, k + 1);
        assert(taken(horizontal, gap, sizes, k + 1) == taken(horizontal, gap, sizes, k) + main_extent(
            horizontal,
            sizes[k as int],
        ) + gap);
    }
}

} // verus!
