//! Why the walks can be given a depth: on child lists that form trees, a
//! walk that is given more depth than the tree has levels below its start
//! finds the same as a walk with any other such depth, and the number of
//! nodes is such a depth. The depth only cuts a walk short where the child
//! lists lead back to where they came from.
//!
//! Whether the child lists form a tree is up to whoever attaches the nodes.
//! What the operations of the tree do to a numbering that shows it is stated
//! at the end.

use vstd::prelude::*;
use crate::dispatch::{visit_children, visit_order};
use crate::geometry::{Rect, Size};
use crate::gui::{Topology, attached, detached, lemma_without, within};
use crate::layout::{
    Answers, Frame, arrange_steps, box_fold, column_fold, content_budget, grid_fold, node_measure, stack_fold, box_slot, box_steps, box_steps_from, column_steps, grid_cell, grid_next_row, grid_steps,
    grid_steps_from, node_arrange, placed_area, slot_size, stack_steps_from,
};
use crate::render::{paint_children, paint_order};
use crate::store::NodeId;
use crate::style::{Align, Direction, Layout, Style};

verus! {

/// The number that `rank` gives `id`, and zero for a node without one.
pub open spec fn height(rank: Map<NodeId, nat>, id: NodeId) -> nat {
    if rank.contains_key(id) {
        rank[id]
    } else {
        0
    }
}

/// Whether `rank` numbers the nodes so that every child has a smaller number
/// than its parent. Child lists that can be numbered so form trees.
pub open spec fn ranked(ch: Map<NodeId, Seq<NodeId>>, rank: Map<NodeId, nat>) -> bool {
    forall|p: NodeId, i: int|
        #![trigger ch[p][i]]
        ch.contains_key(p) && 0 <= i < ch[p].len() ==> height(rank, ch[p][i]) < height(rank, p)
}

/// Arranging a node of a tree does not depend on the depth, once the depth
/// is more than the levels below the node.
pub proof fn lemma_arrange_depth(
    f: Map<NodeId, Frame>,
    ch: Map<NodeId, Seq<NodeId>>,
    rank: Map<NodeId, nat>,
    id: NodeId,
    rect: Rect,
    d1: nat,
    d2: nat,
)
    requires
        ranked(ch, rank),
        d1 > height(rank, id),
        d2 > height(rank, id),
    ensures
        node_arrange(f, ch, id, rect, d1) == node_arrange(f, ch, id, rect, d2),
    decreases height(rank, id), 2nat, 0nat,
{
    if f.contains_key(id) {
        let style = f[id].style;
        let area = placed_area(style, f[id].area, rect);
        let placed = f.insert(id, Frame { area, ..f[id] });
        let e1 = (d1 - 1) as nat;
        let e2 = (d2 - 1) as nat;
        if !area.hidden && ch.contains_key(id) {
            let kids = ch[id];
            let steps = match style.layout {
                Layout::Inert => Seq::empty(),
                Layout::Box => box_steps(placed, kids, style, area.content_rect),
                Layout::Stack => stack_steps_from(
                    placed,
                    kids,
                    0,
                    area.content_rect,
                    style.direction,
                    style.main_align,
                ),
                Layout::Grid(columns) => grid_steps(placed, kids, style, area.content_rect, columns),
            };
            lemma_steps_are_children(placed, kids, style, area.content_rect);
            assert forall|k: int| 0 <= k < steps.len() implies height(rank, #[trigger] steps[k].0) < height(
                rank,
                id,
            ) by {
                assert(kids.contains(steps[k].0));
                let m = choose|m: int| 0 <= m < kids.len() && kids[m] == steps[k].0;
                assert(height(rank, ch[id][m]) < height(rank, id));
            }
            lemma_steps_depth(placed, ch, rank, steps, 0, height(rank, id), e1, e2);
        }
    }
}

/// Arranging nodes that all have fewer than `bound` levels below them does
/// not depend on the depth, once the depth is `bound` or more.
proof fn lemma_steps_depth(
    f: Map<NodeId, Frame>,
    ch: Map<NodeId, Seq<NodeId>>,
    rank: Map<NodeId, nat>,
    steps: Seq<(NodeId, Rect)>,
    i: nat,
    bound: nat,
    e1: nat,
    e2: nat,
)
    requires
        ranked(ch, rank),
        forall|k: int| 0 <= k < steps.len() ==> height(rank, #[trigger] steps[k].0) < bound,
        e1 >= bound,
        e2 >= bound,
    ensures
        arrange_steps(f, ch, steps, i, e1) == arrange_steps(f, ch, steps, i, e2),
    decreases bound, 1nat, steps.len() - i,
{
    if i < steps.len() {
        assert(height(rank, steps[i as int].0) < bound);
        lemma_arrange_depth(f, ch, rank, steps[i as int].0, steps[i as int].1, e1, e2);
        lemma_steps_depth(
            node_arrange(f, ch, steps[i as int].0, steps[i as int].1, e1),
            ch,
            rank,
            steps,
            i + 1,
            bound,
            e1,
            e2,
        );
    }
}

/// Whatever its layout, a node arranges its children and no other nodes.
pub proof fn lemma_steps_are_children(f: Map<NodeId, Frame>, kids: Seq<NodeId>, style: Style, rect: Rect)
    ensures
        forall|k: int|
            0 <= k < box_steps(f, kids, style, rect).len() ==> kids.contains(
                #[trigger] box_steps(f, kids, style, rect)[k].0,
            ),
        forall|k: int|
            0 <= k < stack_steps_from(f, kids, 0, rect, style.direction, style.main_align).len()
                ==> kids.contains(
                #[trigger] stack_steps_from(f, kids, 0, rect, style.direction, style.main_align)[k].0,
            ),
        forall|columns: usize, k: int|
            0 <= k < grid_steps(f, kids, style, rect, columns).len() ==> kids.contains(
                #[trigger] grid_steps(f, kids, style, rect, columns)[k].0,
            ),
{
    let horizontal = style.direction.spec_horizontal();
    let (used, growers) = crate::layout::box_usage(f, kids, horizontal, style.gap, kids.len());
    let (start, grow_space) = crate::layout::main_plan(
        style.direction,
        style.main_align,
        style.gap,
        rect,
        used,
        growers,
    );
    lemma_box_steps_children(f, kids, 0, start, style.direction, style.gap, grow_space);
    lemma_stack_steps_children(f, kids, 0, rect, style.direction, style.main_align);
    assert forall|columns: usize, k: int| 0 <= k < grid_steps(f, kids, style, rect, columns).len() implies kids.contains(
        #[trigger] grid_steps(f, kids, style, rect, columns)[k].0,
    ) by {
        let rows = crate::layout::grid_rows(kids.len(), columns as nat);
        let first = if kids.len() > 0 && f.contains_key(kids[0]) {
            f[kids[0]].area.measured_size
        } else {
            Size::spec_zero()
        };
        let row_size = crate::layout::cross_extent(horizontal, first);
        let across = crate::layout::grid_cross_start(
            horizontal,
            style.cross_align,
            style.gap,
            rect,
            row_size,
            rows,
        );
        let row_len = if columns as nat <= kids.len() {
            columns as nat
        } else {
            kids.len()
        };
        let (row_used, row_growers) = crate::layout::box_usage(f, kids, horizontal, style.gap, row_len);
        let (row_start, row_grow) = crate::layout::main_plan(
            style.direction,
            style.main_align,
            style.gap,
            across,
            row_used,
            row_growers,
        );
        lemma_grid_steps_children(
            f,
            kids,
            0,
            row_len,
            columns,
            row_start,
            style.direction,
            style.gap,
            row_grow,
            row_size,
        );
    }
}

proof fn lemma_box_steps_children(
    f: Map<NodeId, Frame>,
    kids: Seq<NodeId>,
    i: nat,
    cursor: Rect,
    direction: Direction,
    gap: i32,
    grow_space: Size,
)
    ensures
        forall|k: int|
            0 <= k < box_steps_from(f, kids, i, cursor, direction, gap, grow_space).len()
                ==> kids.contains(
                #[trigger] box_steps_from(f, kids, i, cursor, direction, gap, grow_space)[k].0,
            ),
    decreases kids.len() - i,
{
    let steps = box_steps_from(f, kids, i, cursor, direction, gap, grow_space);
    if i >= kids.len() {
        assert(steps.len() == 0);
    } else {
        if !f.contains_key(kids[i as int]) {
            lemma_box_steps_children(f, kids, i + 1, cursor, direction, gap, grow_space);
            assert(steps == box_steps_from(f, kids, i + 1, cursor, direction, gap, grow_space));
        } else {
            let (slot, rest) = box_slot(direction, gap, grow_space, cursor, f[kids[i as int]]);
            let later = box_steps_from(f, kids, i + 1, rest, direction, gap, grow_space);
            lemma_box_steps_children(f, kids, i + 1, rest, direction, gap, grow_space);
            assert forall|k: int| 0 <= k < steps.len() implies kids.contains(#[trigger] steps[k].0) by {
                if k == 0 {
                    assert(kids[i as int] == steps[0].0);
                } else {
                    assert(steps[k] == later[k - 1]);
                }
            }
        }
    }
}

proof fn lemma_stack_steps_children(
    f: Map<NodeId, Frame>,
    kids: Seq<NodeId>,
    i: nat,
    rect: Rect,
    direction: Direction,
    main_align: Align,
)
    ensures
        forall|k: int|
            0 <= k < stack_steps_from(f, kids, i, rect, direction, main_align).len() ==> kids.contains(
                #[trigger] stack_steps_from(f, kids, i, rect, direction, main_align)[k].0,
            ),
    decreases kids.len() - i,
{
    let steps = stack_steps_from(f, kids, i, rect, direction, main_align);
    if i >= kids.len() {
        assert(steps.len() == 0);
    } else {
        lemma_stack_steps_children(f, kids, i + 1, rect, direction, main_align);
        if !f.contains_key(kids[i as int]) {
            assert(steps == stack_steps_from(f, kids, i + 1, rect, direction, main_align));
        } else {
            let later = stack_steps_from(f, kids, i + 1, rect, direction, main_align);
            assert forall|k: int| 0 <= k < steps.len() implies kids.contains(#[trigger] steps[k].0) by {
                if k == 0 {
                    assert(kids[i as int] == steps[0].0);
                } else {
                    assert(steps[k] == later[k - 1]);
                }
            }
        }
    }
}

proof fn lemma_column_steps_children(
    kids: Seq<NodeId>,
    i: nat,
    columns: usize,
    cell: Rect,
    horizontal: bool,
    step: i32,
)
    ensures
        forall|k: int|
            0 <= k < column_steps(kids, i, columns, cell, horizontal, step).len() ==> kids.contains(
                #[trigger] column_steps(kids, i, columns, cell, horizontal, step)[k].0,
            ),
    decreases
            if i < kids.len() {
                kids.len() - i
            } else {
                0
            },
{
    let steps = column_steps(kids, i, columns, cell, horizontal, step);
    if i >= kids.len() || columns == 0 {
        assert(steps.len() == 0);
    } else {
        let later = column_steps(
            kids,
            (i + columns) as nat,
            columns,
            grid_next_row(horizontal, cell, step),
            horizontal,
            step,
        );
        lemma_column_steps_children(
            kids,
            (i + columns) as nat,
            columns,
            grid_next_row(horizontal, cell, step),
            horizontal,
            step,
        );
        assert forall|k: int| 0 <= k < steps.len() implies kids.contains(#[trigger] steps[k].0) by {
            if k == 0 {
                assert(kids[i as int] == steps[0].0);
            } else {
                assert(steps[k] == later[k - 1]);
            }
        }
    }
}

proof fn lemma_grid_steps_children(
    f: Map<NodeId, Frame>,
    kids: Seq<NodeId>,
    c: nat,
    row_len: nat,
    columns: usize,
    cursor: Rect,
    direction: Direction,
    gap: i32,
    grow_space: Size,
    row_size: i32,
)
    ensures
        forall|k: int|
            0 <= k < grid_steps_from(
                f,
                kids,
                c,
                row_len,
                columns,
                cursor,
                direction,
                gap,
                grow_space,
                row_size,
            ).len() ==> kids.contains(
                #[trigger] grid_steps_from(
                    f,
                    kids,
                    c,
                    row_len,
                    columns,
                    cursor,
                    direction,
                    gap,
                    grow_space,
                    row_size,
                )[k].0,
            ),
    decreases row_len - c,
{
    let steps = grid_steps_from(f, kids, c, row_len, columns, cursor, direction, gap, grow_space, row_size);
    if c >= row_len || row_len > kids.len() {
        assert(steps.len() == 0);
    } else {
        if !f.contains_key(kids[c as int]) {
            lemma_grid_steps_children(
                f,
                kids,
                c + 1,
                row_len,
                columns,
                cursor,
                direction,
                gap,
                grow_space,
                row_size,
            );
            assert(steps == grid_steps_from(
                f,
                kids,
                c + 1,
                row_len,
                columns,
                cursor,
                direction,
                gap,
                grow_space,
                row_size,
            ));
        } else {
            let horizontal = direction.spec_horizontal();
            let (slot, rest) = direction.spec_layout_area(cursor, slot_size(f[kids[c as int]], grow_space), gap);
            let column = column_steps(
                kids,
                c,
                columns,
                grid_cell(horizontal, slot, row_size),
                horizontal,
                crate::geometry::saturate(row_size + gap) as i32,
            );
            let later = grid_steps_from(
                f,
                kids,
                c + 1,
                row_len,
                columns,
                rest,
                direction,
                gap,
                grow_space,
                row_size,
            );
            lemma_column_steps_children(
                kids,
                c,
                columns,
                grid_cell(horizontal, slot, row_size),
                horizontal,
                crate::geometry::saturate(row_size + gap) as i32,
            );
            lemma_grid_steps_children(
                f,
                kids,
                c + 1,
                row_len,
                columns,
                rest,
                direction,
                gap,
                grow_space,
                row_size,
            );
            assert forall|k: int| 0 <= k < steps.len() implies kids.contains(#[trigger] steps[k].0) by {
                if k < column.len() {
                    assert(steps[k] == column[k]);
                } else {
                    assert(steps[k] == later[k - column.len()]);
                }
            }
        }
    }
}

/// Measuring a node of a tree does not depend on the depth, once the depth
/// is more than the levels below the node.
pub proof fn lemma_measure_depth(
    f: Map<NodeId, Frame>,
    ch: Map<NodeId, Seq<NodeId>>,
    rank: Map<NodeId, nat>,
    id: NodeId,
    available: Size,
    d1: nat,
    d2: nat,
    answers: Answers,
)
    requires
        ranked(ch, rank),
        d1 > height(rank, id),
        d2 > height(rank, id),
    ensures
        node_measure(f, ch, id, available, d1, answers) == node_measure(f, ch, id, available, d2, answers),
    decreases height(rank, id), 3nat, 0nat,
{
    if f.contains_key(id) && ch.contains_key(id) {
        let style = f[id].style;
        let budget = content_budget(style, available);
        let horizontal = style.direction.spec_horizontal();
        let e1 = (d1 - 1) as nat;
        let e2 = (d2 - 1) as nat;
        match style.layout {
            Layout::Inert => {},
            Layout::Box => {
                lemma_box_fold_depth(f, ch, rank, id, horizontal, style.gap, budget, answers.children, e1, e2);
            },
            Layout::Stack => {
                lemma_stack_fold_depth(f, ch, rank, id, budget, answers.children, e1, e2);
            },
            Layout::Grid(columns) => {
                lemma_grid_fold_depth(
                    f,
                    ch,
                    rank,
                    id,
                    columns,
                    horizontal,
                    style.gap,
                    budget,
                    answers.children,
                    e1,
                    e2,
                );
            },
        }
    }
}

proof fn lemma_box_fold_depth(
    f: Map<NodeId, Frame>,
    ch: Map<NodeId, Seq<NodeId>>,
    rank: Map<NodeId, nat>,
    owner: NodeId,
    horizontal: bool,
    gap: i32,
    available: Size,
    answers: Seq<Answers>,
    e1: nat,
    e2: nat,
)
    requires
        ranked(ch, rank),
        ch.contains_key(owner),
        e1 >= height(rank, owner),
        e2 >= height(rank, owner),
    ensures
        box_fold(f, ch, ch[owner], horizontal, gap, available, answers, e1) == box_fold(
            f,
            ch,
            ch[owner],
            horizontal,
            gap,
            available,
            answers,
            e2,
        ),
    decreases height(rank, owner), 1nat, answers.len(),
{
    if answers.len() > 0 {
        lemma_box_fold_depth(f, ch, rank, owner, horizontal, gap, available, answers.drop_last(), e1, e2);
        if answers.len() <= ch[owner].len() {
            let before = box_fold(f, ch, ch[owner], horizontal, gap, available, answers.drop_last(), e1);
            assert(height(rank, ch[owner][answers.len() - 1]) < height(rank, owner));
            lemma_measure_depth(
                before.frames,
                ch,
                rank,
                ch[owner][answers.len() - 1],
                before.available,
                e1,
                e2,
                answers.last(),
            );
        }
    }
}

proof fn lemma_stack_fold_depth(
    f: Map<NodeId, Frame>,
    ch: Map<NodeId, Seq<NodeId>>,
    rank: Map<NodeId, nat>,
    owner: NodeId,
    available: Size,
    answers: Seq<Answers>,
    e1: nat,
    e2: nat,
)
    requires
        ranked(ch, rank),
        ch.contains_key(owner),
        e1 >= height(rank, owner),
        e2 >= height(rank, owner),
    ensures
        stack_fold(f, ch, ch[owner], available, answers, e1) == stack_fold(
            f,
            ch,
            ch[owner],
            available,
            answers,
            e2,
        ),
    decreases height(rank, owner), 1nat, answers.len(),
{
    if answers.len() > 0 {
        lemma_stack_fold_depth(f, ch, rank, owner, available, answers.drop_last(), e1, e2);
        if answers.len() <= ch[owner].len() {
            let before = stack_fold(f, ch, ch[owner], available, answers.drop_last(), e1);
            assert(height(rank, ch[owner][answers.len() - 1]) < height(rank, owner));
            lemma_measure_depth(
                before.frames,
                ch,
                rank,
                ch[owner][answers.len() - 1],
                available,
                e1,
                e2,
                answers.last(),
            );
        }
    }
}

proof fn lemma_grid_fold_depth(
    f: Map<NodeId, Frame>,
    ch: Map<NodeId, Seq<NodeId>>,
    rank: Map<NodeId, nat>,
    owner: NodeId,
    columns: usize,
    horizontal: bool,
    gap: i32,
    available: Size,
    answers: Seq<Answers>,
    e1: nat,
    e2: nat,
)
    requires
        ranked(ch, rank),
        ch.contains_key(owner),
        e1 >= height(rank, owner),
        e2 >= height(rank, owner),
    ensures
        grid_fold(f, ch, ch[owner], columns, horizontal, gap, available, answers, e1) == grid_fold(
            f,
            ch,
            ch[owner],
            columns,
            horizontal,
            gap,
            available,
            answers,
            e2,
        ),
    decreases height(rank, owner), 2nat, answers.len(),
{
    if answers.len() > 0 {
        lemma_grid_fold_depth(
            f,
            ch,
            rank,
            owner,
            columns,
            horizontal,
            gap,
            available,
            answers.drop_last(),
            e1,
            e2,
        );
        let before = grid_fold(f, ch, ch[owner], columns, horizontal, gap, available, answers.drop_last(), e1);
        lemma_column_fold_depth(
            before.frames,
            ch,
            rank,
            owner,
            (answers.len() - 1) as nat,
            columns,
            before.available,
            answers.last().children,
            e1,
            e2,
        );
    }
}

proof fn lemma_column_fold_depth(
    f: Map<NodeId, Frame>,
    ch: Map<NodeId, Seq<NodeId>>,
    rank: Map<NodeId, nat>,
    owner: NodeId,
    c: nat,
    columns: usize,
    available: Size,
    answers: Seq<Answers>,
    e1: nat,
    e2: nat,
)
    requires
        ranked(ch, rank),
        ch.contains_key(owner),
        e1 >= height(rank, owner),
        e2 >= height(rank, owner),
    ensures
        column_fold(f, ch, ch[owner], c, columns, available, answers, e1) == column_fold(
            f,
            ch,
            ch[owner],
            c,
            columns,
            available,
            answers,
            e2,
        ),
    decreases height(rank, owner), 1nat, answers.len(),
{
    if answers.len() > 0 {
        lemma_column_fold_depth(f, ch, rank, owner, c, columns, available, answers.drop_last(), e1, e2);
        let before = column_fold(f, ch, ch[owner], c, columns, available, answers.drop_last(), e1);
        if before.next < ch[owner].len() {
            assert(height(rank, ch[owner][before.next as int]) < height(rank, owner));
            lemma_measure_depth(
                before.frames,
                ch,
                rank,
                ch[owner][before.next as int],
                available,
                e1,
                e2,
                answers.last(),
            );
        }
    }
}

/// The order in which the nodes of a tree are offered input does not depend
/// on the depth, once the depth is more than the levels below the start.
pub proof fn lemma_visit_depth(
    f: Map<NodeId, Frame>,
    ch: Map<NodeId, Seq<NodeId>>,
    rank: Map<NodeId, nat>,
    id: NodeId,
    d1: nat,
    d2: nat,
)
    requires
        ranked(ch, rank),
        d1 > height(rank, id),
        d2 > height(rank, id),
    ensures
        visit_order(f, ch, id, d1) == visit_order(f, ch, id, d2),
    decreases height(rank, id), 1nat, 0nat,
{
    if f.contains_key(id) && !f[id].area.hidden && ch.contains_key(id) {
        lemma_visit_children_depth(f, ch, rank, id, ch[id].len(), (d1 - 1) as nat, (d2 - 1) as nat);
    }
}

proof fn lemma_visit_children_depth(
    f: Map<NodeId, Frame>,
    ch: Map<NodeId, Seq<NodeId>>,
    rank: Map<NodeId, nat>,
    owner: NodeId,
    n: nat,
    e1: nat,
    e2: nat,
)
    requires
        ranked(ch, rank),
        ch.contains_key(owner),
        e1 >= height(rank, owner),
        e2 >= height(rank, owner),
    ensures
        visit_children(f, ch, ch[owner], n, e1) == visit_children(f, ch, ch[owner], n, e2),
    decreases height(rank, owner), 0nat, n,
{
    if 0 < n <= ch[owner].len() {
        assert(height(rank, ch[owner][n - 1]) < height(rank, owner));
        lemma_visit_depth(f, ch, rank, ch[owner][n - 1], e1, e2);
        lemma_visit_children_depth(f, ch, rank, owner, (n - 1) as nat, e1, e2);
    }
}

/// The order in which the nodes of a tree are drawn does not depend on the
/// depth, once the depth is more than the levels below the start.
pub proof fn lemma_paint_depth(
    f: Map<NodeId, Frame>,
    ch: Map<NodeId, Seq<NodeId>>,
    rank: Map<NodeId, nat>,
    id: NodeId,
    d1: nat,
    d2: nat,
)
    requires
        ranked(ch, rank),
        d1 > height(rank, id),
        d2 > height(rank, id),
    ensures
        paint_order(f, ch, id, d1) == paint_order(f, ch, id, d2),
    decreases height(rank, id), 1nat, 0nat,
{
    if f.contains_key(id) && !f[id].area.hidden && ch.contains_key(id) {
        lemma_paint_children_depth(f, ch, rank, id, 0, (d1 - 1) as nat, (d2 - 1) as nat);
    }
}

proof fn lemma_paint_children_depth(
    f: Map<NodeId, Frame>,
    ch: Map<NodeId, Seq<NodeId>>,
    rank: Map<NodeId, nat>,
    owner: NodeId,
    i: nat,
    e1: nat,
    e2: nat,
)
    requires
        ranked(ch, rank),
        ch.contains_key(owner),
        e1 >= height(rank, owner),
        e2 >= height(rank, owner),
    ensures
        paint_children(f, ch, ch[owner], i, e1) == paint_children(f, ch, ch[owner], i, e2),
    decreases height(rank, owner), 0nat, ch[owner].len() - i,
{
    if i < ch[owner].len() {
        assert(height(rank, ch[owner][i as int]) < height(rank, owner));
        lemma_paint_depth(f, ch, rank, ch[owner][i as int], e1, e2);
        lemma_paint_children_depth(f, ch, rank, owner, i + 1, e1, e2);
    }
}

/// How many levels of the tree lie below `id`: none below a node without
/// children, and else one more than below the child with the most.
pub open spec fn levels(ch: Map<NodeId, Seq<NodeId>>, rank: Map<NodeId, nat>, id: NodeId) -> nat
    decreases height(rank, id), 1nat, 0nat,
    when ranked(ch, rank)
{
    if ch.contains_key(id) {
        levels_among(ch, rank, id, ch[id].len())
    } else {
        0
    }
}

/// How many levels lie below `owner` by way of its first `n` children.
pub open spec fn levels_among(ch: Map<NodeId, Seq<NodeId>>, rank: Map<NodeId, nat>, owner: NodeId, n: nat) -> nat
    decreases height(rank, owner), 0nat, n,
    when ranked(ch, rank) && ch.contains_key(owner)
{
    if n == 0 || n > ch[owner].len() {
        0
    } else {
        let before = levels_among(ch, rank, owner, (n - 1) as nat);
        let here = levels(ch, rank, ch[owner][n - 1]) + 1;
        if here > before {
            here
        } else {
            before
        }
    }
}

/// The numbering of the nodes by the levels below them.
pub open spec fn by_levels(ch: Map<NodeId, Seq<NodeId>>, rank: Map<NodeId, nat>) -> Map<NodeId, nat> {
    Map::new(|id: NodeId| true, |id: NodeId| levels(ch, rank, id))
}

/// More levels lie below a node than below any of its children.
proof fn lemma_levels_among(ch: Map<NodeId, Seq<NodeId>>, rank: Map<NodeId, nat>, owner: NodeId, n: nat, i: int)
    requires
        ranked(ch, rank),
        ch.contains_key(owner),
        0 <= i < n <= ch[owner].len(),
    ensures
        levels(ch, rank, ch[owner][i]) < levels_among(ch, rank, owner, n),
    decreases n,
{
    if i < n - 1 {
        lemma_levels_among(ch, rank, owner, (n - 1) as nat, i);
    }
}

/// The levels number the nodes so that every child has a smaller number
/// than its parent.
proof fn lemma_by_levels_ranked(ch: Map<NodeId, Seq<NodeId>>, rank: Map<NodeId, nat>)
    requires
        ranked(ch, rank),
    ensures
        ranked(ch, by_levels(ch, rank)),
{
    let tight = by_levels(ch, rank);
    assert forall|p: NodeId, i: int|
        #![trigger ch[p][i]]
        ch.contains_key(p) && 0 <= i < ch[p].len() implies height(tight, ch[p][i]) < height(tight, p) by {
        lemma_levels_among(ch, rank, p, ch[p].len(), i);
    }
}

/// Where levels lie below a node by way of its first `n` children, one of
/// these children has one level less below it.
proof fn lemma_deepest_child(ch: Map<NodeId, Seq<NodeId>>, rank: Map<NodeId, nat>, owner: NodeId, n: nat) -> (i:
    int)
    requires
        ranked(ch, rank),
        ch.contains_key(owner),
        n <= ch[owner].len(),
        levels_among(ch, rank, owner, n) > 0,
    ensures
        0 <= i < n,
        levels(ch, rank, ch[owner][i]) + 1 == levels_among(ch, rank, owner, n),
    decreases n,
{
    let before = levels_among(ch, rank, owner, (n - 1) as nat);
    let here = levels(ch, rank, ch[owner][n - 1]) + 1;
    if here > before {
        n - 1
    } else {
        lemma_deepest_child(ch, rank, owner, (n - 1) as nat)
    }
}

/// Whether every handle in a child list has a frame.
pub open spec fn children_present(f: Map<NodeId, Frame>, ch: Map<NodeId, Seq<NodeId>>) -> bool {
    forall|p: NodeId, i: int|
        #![trigger ch[p][i]]
        ch.contains_key(p) && 0 <= i < ch[p].len() ==> f.contains_key(ch[p][i])
}

/// Below a node of a tree lie as many nodes, one under the other, as there
/// are levels: so many nodes, and the node itself, the tree has at least.
proof fn lemma_chain(f: Map<NodeId, Frame>, ch: Map<NodeId, Seq<NodeId>>, rank: Map<NodeId, nat>, id: NodeId) -> (chain:
    Set<NodeId>)
    requires
        ranked(ch, rank),
        children_present(f, ch),
        f.contains_key(id),
    ensures
        chain.finite(),
        chain.len() == levels(ch, rank, id) + 1,
        chain.subset_of(f.dom()),
        forall|other: NodeId| chain.contains(other) ==> height(rank, other) <= height(rank, id),
    decreases height(rank, id),
{
    if ch.contains_key(id) && levels_among(ch, rank, id, ch[id].len()) > 0 {
        let i = lemma_deepest_child(ch, rank, id, ch[id].len());
        let kid = ch[id][i];
        assert(height(rank, ch[id][i]) < height(rank, id));
        let below = lemma_chain(f, ch, rank, kid);
        assert(!below.contains(id)) by {
            if below.contains(id) {
                assert(height(rank, id) <= height(rank, kid));
            }
        }
        below.insert(id)
    } else {
        set![id]
    }
}

/// Fewer levels lie below a node of a tree than the tree has nodes.
pub proof fn lemma_levels_below_count(
    f: Map<NodeId, Frame>,
    ch: Map<NodeId, Seq<NodeId>>,
    rank: Map<NodeId, nat>,
    id: NodeId,
)
    requires
        ranked(ch, rank),
        children_present(f, ch),
        f.dom().finite(),
        f.contains_key(id),
    ensures
        levels(ch, rank, id) < f.dom().len(),
        ranked(ch, by_levels(ch, rank)),
        height(by_levels(ch, rank), id) == levels(ch, rank, id),
{
    let chain = lemma_chain(f, ch, rank, id);
    vstd::set_lib::lemma_len_subset(chain, f.dom());
    lemma_by_levels_ranked(ch, rank);
}

/// The number of nodes is depth enough to arrange a tree.
///
/// Let the child lists form a tree and hold no handle without a node. Then
/// arranging a node at a depth of the number of nodes comes out as at any
/// greater depth: the walk is never cut short.
pub proof fn lemma_count_arranges_all(
    f: Map<NodeId, Frame>,
    ch: Map<NodeId, Seq<NodeId>>,
    rank: Map<NodeId, nat>,
    id: NodeId,
    rect: Rect,
    depth: nat,
)
    requires
        ranked(ch, rank),
        children_present(f, ch),
        f.dom().finite(),
        depth >= f.dom().len(),
    ensures
        node_arrange(f, ch, id, rect, f.dom().len()) == node_arrange(f, ch, id, rect, depth),
{
    if f.contains_key(id) {
        lemma_levels_below_count(f, ch, rank, id);
        lemma_arrange_depth(f, ch, by_levels(ch, rank), id, rect, f.dom().len(), depth);
    }
}

/// The number of nodes is depth enough to measure a tree.
pub proof fn lemma_count_measures_all(
    f: Map<NodeId, Frame>,
    ch: Map<NodeId, Seq<NodeId>>,
    rank: Map<NodeId, nat>,
    id: NodeId,
    available: Size,
    depth: nat,
    answers: Answers,
)
    requires
        ranked(ch, rank),
        children_present(f, ch),
        f.dom().finite(),
        depth >= f.dom().len(),
    ensures
        node_measure(f, ch, id, available, f.dom().len(), answers) == node_measure(
            f,
            ch,
            id,
            available,
            depth,
            answers,
        ),
{
    if f.contains_key(id) {
        lemma_levels_below_count(f, ch, rank, id);
        lemma_measure_depth(f, ch, by_levels(ch, rank), id, available, f.dom().len(), depth, answers);
    }
}

/// The number of nodes is depth enough to offer input to a tree, and to draw
/// it.
pub proof fn lemma_count_visits_all(
    f: Map<NodeId, Frame>,
    ch: Map<NodeId, Seq<NodeId>>,
    rank: Map<NodeId, nat>,
    id: NodeId,
    depth: nat,
)
    requires
        ranked(ch, rank),
        children_present(f, ch),
        f.dom().finite(),
        depth >= f.dom().len(),
    ensures
        visit_order(f, ch, id, f.dom().len()) == visit_order(f, ch, id, depth),
        paint_order(f, ch, id, f.dom().len()) == paint_order(f, ch, id, depth),
{
    if f.contains_key(id) {
        lemma_levels_below_count(f, ch, rank, id);
        lemma_visit_depth(f, ch, by_levels(ch, rank), id, f.dom().len(), depth);
        lemma_paint_depth(f, ch, by_levels(ch, rank), id, f.dom().len(), depth);
    }
}

/// Taking a child out of a list leaves a tree a tree.
pub proof fn lemma_detached_ranked(
    children: Map<NodeId, Seq<NodeId>>,
    rank: Map<NodeId, nat>,
    parent: NodeId,
    child: NodeId,
)
    requires
        ranked(children, rank),
    ensures
        ranked(detached(children, parent, child), rank),
{
    let after = detached(children, parent, child);
    if children.contains_key(parent) {
        lemma_without(children[parent], child);
    }
    assert forall|p: NodeId, i: int|
        #![trigger after[p][i]]
        after.contains_key(p) && 0 <= i < after[p].len() implies height(rank, after[p][i]) < height(
        rank,
        p,
    ) by {
        if p == parent {
            assert(after[p].contains(after[p][i]));
            assert(children[p].contains(after[p][i]));
            let k = choose|k: int| 0 <= k < children[p].len() && children[p][k] == after[p][i];
            assert(height(rank, children[p][k]) < height(rank, p));
        } else {
            assert(height(rank, children[p][i]) < height(rank, p));
        }
    }
}

/// Putting a child at the end of the list of a parent that has a greater
/// number leaves a tree a tree.
pub proof fn lemma_attached_ranked(
    children: Map<NodeId, Seq<NodeId>>,
    rank: Map<NodeId, nat>,
    parent: NodeId,
    child: NodeId,
)
    requires
        ranked(children, rank),
        height(rank, child) < height(rank, parent),
    ensures
        ranked(attached(children, parent, child), rank),
{
    let after = attached(children, parent, child);
    assert forall|p: NodeId, i: int|
        #![trigger after[p][i]]
        after.contains_key(p) && 0 <= i < after[p].len() implies height(rank, after[p][i]) < height(
        rank,
        p,
    ) by {
        if p == parent {
            if children.contains_key(parent) && i < children[parent].len() {
                assert(height(rank, children[p][i]) < height(rank, p));
            }
        } else {
            assert(height(rank, children[p][i]) < height(rank, p));
        }
    }
}

/// Giving a node without children a list of children that all have smaller
/// numbers leaves a tree a tree.
pub proof fn lemma_adopted_ranked(
    children: Map<NodeId, Seq<NodeId>>,
    rank: Map<NodeId, nat>,
    node: NodeId,
    list: Seq<NodeId>,
)
    requires
        ranked(children, rank),
        forall|i: int| 0 <= i < list.len() ==> height(rank, #[trigger] list[i]) < height(rank, node),
    ensures
        ranked(children.insert(node, list), rank),
{
    let after = children.insert(node, list);
    assert forall|p: NodeId, i: int|
        #![trigger after[p][i]]
        after.contains_key(p) && 0 <= i < after[p].len() implies height(rank, after[p][i]) < height(
        rank,
        p,
    ) by {
        if p == node {
            assert(height(rank, list[i]) < height(rank, node));
        } else {
            assert(height(rank, children[p][i]) < height(rank, p));
        }
    }
}

/// Deleting leaves a tree a tree.
pub proof fn lemma_within_ranked(before: Topology, after: Topology, rank: Map<NodeId, nat>)
    requires
        within(before, after),
        ranked(before.children, rank),
    ensures
        ranked(after.children, rank),
{
    assert forall|p: NodeId, i: int|
        #![trigger after.children[p][i]]
        after.children.contains_key(p) && 0 <= i < after.children[p].len() implies height(
        rank,
        after.children[p][i],
    ) < height(rank, p) by {
        assert(after.children.dom().contains(p));
        assert(before.children.dom().contains(p));
        assert(height(rank, before.children[p][i]) < height(rank, p));
    }
}

} // verus!
