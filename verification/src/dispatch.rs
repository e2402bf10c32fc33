//! The delivery of an input event: which nodes are offered it and in which
//! order, and what the answer of a widget does to the delivery.

use vstd::prelude::*;
use crate::event::{EventExecutor, GuiInput, InputAction};
use crate::layout::{Frame, frames, keeps_measured};
use crate::store::{ChildMap, NodeId, NodeStore, children_of, nodes_of};
use crate::widget::Node;

verus! {

/// The nodes that an event delivered at `id` is offered to, in the order in
/// which they are asked, walking at most `depth` levels down.
///
/// A hidden node is left out with everything under it. Of the others the
/// children come before the node itself, the last child first: what was
/// appended last, and is drawn on top, is asked first, and a container last
/// of all.
pub open spec fn visit_order(
    f: Map<NodeId, Frame>,
    ch: Map<NodeId, Seq<NodeId>>,
    id: NodeId,
    depth: nat,
) -> Seq<NodeId>
    decreases depth, 0nat,
{
    if depth == 0 || !f.contains_key(id) || f[id].area.hidden {
        Seq::empty()
    } else if ch.contains_key(id) {
        visit_children(f, ch, ch[id], ch[id].len(), (depth - 1) as nat).push(id)
    } else {
        seq![id]
    }
}

/// The nodes that are asked under the first `n` of `kids`: those under the
/// `n`-th child first, those under the first child last.
pub open spec fn visit_children(
    f: Map<NodeId, Frame>,
    ch: Map<NodeId, Seq<NodeId>>,
    kids: Seq<NodeId>,
    n: nat,
    depth: nat,
) -> Seq<NodeId>
    decreases depth, n + 1,
{
    if n == 0 || n > kids.len() {
        Seq::empty()
    } else {
        visit_order(f, ch, kids[n - 1], depth) + visit_children(f, ch, kids, (n - 1) as nat, depth)
    }
}

/// Whether the pointer is blocked after a widget answered `action`.
pub open spec fn blocked_after(action: InputAction, blocked: bool) -> bool {
    blocked || action != InputAction::Pass
}

/// The node that has grabbed the input after the widget of `id` answered
/// `action`: `id` if it answered `Grab`, and else whoever had.
pub open spec fn grab_after(action: InputAction, id: NodeId, grabbed: Option<NodeId>) -> Option<NodeId> {
    if action == InputAction::Grab {
        Some(id)
    } else {
        grabbed
    }
}

/// Whether `after` is `before` with `blocked` raised or left as it was.
pub open spec fn only_blocked(before: GuiInput, after: GuiInput) -> bool {
    &&& after == GuiInput { blocked: after.blocked, ..before }
    &&& before.blocked ==> after.blocked
}

/// Takes the answer of the widget of `id` into the delivery: `Block` and
/// `Grab` block the pointer, and `Grab` makes `id` the node that the next
/// event goes to.
pub fn apply_action(action: InputAction, id: NodeId, input: &mut GuiInput, grabbed_node: &mut Option<NodeId>)
    ensures
        *final(input) == (GuiInput { blocked: blocked_after(action, old(input).blocked), ..*old(input) }),
        *final(grabbed_node) == grab_after(action, id, *old(grabbed_node)),
{
    match action {
        InputAction::Pass => {},
        InputAction::Block => {
            input.blocked = true;
        },
        InputAction::Grab => {
            input.blocked = true;
            *grabbed_node = Some(id);
        },
    }
}

/// Whether a node without widget blocks the pointer: it has a background,
/// and the pointer is on it.
pub open spec fn background_blocks(frame: Frame, input: GuiInput) -> bool {
    frame.style.background_color is Some && frame.area.background_rect.spec_contains(input.pointer)
}

/// The input state and the grab after the node `id` with `frame` has been
/// offered the input, its widget answering `answer` if it has one.
///
/// The answer of a widget blocks the pointer unless it is `Pass`, and takes
/// the grab if it is `Grab`. A node without widget blocks the pointer if it
/// has a background and the pointer is on it.
pub open spec fn offered(
    frame: Frame,
    id: NodeId,
    answer: InputAction,
    input: GuiInput,
    grabbed: Option<NodeId>,
) -> (GuiInput, Option<NodeId>) {
    if frame.has_widget {
        (GuiInput { blocked: blocked_after(answer, input.blocked), ..input }, grab_after(answer, id, grabbed))
    } else {
        (GuiInput { blocked: input.blocked || background_blocks(frame, input), ..input }, grabbed)
    }
}

/// The input state and the grab after the input has been offered to as many
/// nodes of `order` as there are `answers`, in that order, each widget
/// answering what stands for its node in `answers`. What stands there for a
/// node without widget is of no account.
pub open spec fn delivered(
    f: Map<NodeId, Frame>,
    order: Seq<NodeId>,
    answers: Seq<InputAction>,
    input: GuiInput,
    grabbed: Option<NodeId>,
) -> (GuiInput, Option<NodeId>)
    decreases answers.len(),
{
    if answers.len() == 0 {
        (input, grabbed)
    } else {
        let before = delivered(f, order, answers.drop_last(), input, grabbed);
        if answers.len() > order.len() || !f.contains_key(order[answers.len() - 1]) {
            before
        } else {
            offered(
                f[order[answers.len() - 1]],
                order[answers.len() - 1],
                answers.last(),
                before.0,
                before.1,
            )
        }
    }
}

/// Whether none of the nodes of `order` has a widget.
pub open spec fn no_widget(f: Map<NodeId, Frame>, order: Seq<NodeId>) -> bool {
    forall|k: int| 0 <= k < order.len() ==> !(#[trigger] f[order[k]]).has_widget
}

/// Offers the node `id` the input of the delivery under way, and returns
/// what its widget answered, if it has one.
///
/// The answer of a widget goes into the delivery as `apply_action` says. A
/// node without widget blocks the pointer if it has a background and the
/// pointer is on it. Whatever a widget answers, no other node changes, and
/// no style and no area changes.
pub fn offer(
    nodes: &mut NodeStore,
    id: NodeId,
    input: &mut GuiInput,
    grabbed_node: &mut Option<NodeId>,
    executor: &mut EventExecutor,
) -> (answer: Option<InputAction>)
    ensures
        answer is Some <==> nodes_of(*old(nodes)).contains_key(id) && nodes_of(*old(nodes))[id].widget is Some,
        match answer {
            Some(action) => *final(input) == (GuiInput {
                blocked: blocked_after(action, old(input).blocked),
                ..*old(input)
            }) && *final(grabbed_node) == grab_after(action, id, *old(grabbed_node)),
            None => *final(grabbed_node) == *old(grabbed_node),
        },
        frames(nodes_of(*final(nodes))) == frames(nodes_of(*old(nodes))),
        keeps_measured(nodes_of(*old(nodes)), nodes_of(*final(nodes))),
        forall|other: NodeId|
            other != id && #[trigger] nodes_of(*old(nodes)).contains_key(other) ==> nodes_of(
                *final(nodes),
            )[other] == nodes_of(*old(nodes))[other],
        only_blocked(*old(input), *final(input)),
        *final(grabbed_node) == *old(grabbed_node) || *final(grabbed_node) == Some(id),
        !nodes_of(*old(nodes)).contains_key(id) ==> nodes_of(*final(nodes)) == nodes_of(*old(nodes))
            && *final(input) == *old(input) && *final(grabbed_node) == *old(grabbed_node)
            && *final(executor) == *old(executor),
        nodes_of(*old(nodes)).contains_key(id) && nodes_of(*old(nodes))[id].widget is None ==> nodes_of(
            *final(nodes),
        ) == nodes_of(*old(nodes)) && *final(executor) == *old(executor),
        nodes_of(*old(nodes)).contains_key(id) ==> (*final(input), *final(grabbed_node)) == offered(
            frames(nodes_of(*old(nodes)))[id],
            id,
            match answer {
                Some(action) => action,
                None => InputAction::Pass,
            },
            *old(input),
            *old(grabbed_node),
        ),
{
    let mut answer: Option<InputAction> = None;
    match nodes.get_mut(id) {
        Some(node) => {
            match &mut node.widget {
                Some(widget) => {
                    let action = widget.input(input, executor, &node.area);
                    apply_action(action, id, input, grabbed_node);
                    answer = Some(action);
                },
                None => {
                    if node.style.background_color.is_some() && node.area.background_rect.contains(
                        input.pointer,
                    ) {
                        input.blocked = true;
                    }
                },
            }
            proof {
                crate::layout::lemma_frames_insert(nodes_of(*old(nodes)), id, *node);
                assert(frames(nodes_of(*old(nodes))).insert(id, crate::layout::frame_of(*node)) =~= frames(
                    nodes_of(*old(nodes)),
                ));
            }
        },
        None => {},
    }
    proof {
        if nodes_of(*old(nodes)).contains_key(id) && nodes_of(*old(nodes))[id].widget is None {
            assert(nodes_of(*nodes) =~= nodes_of(*old(nodes)));
        }
    }
    answer
}

/// Appends to `out` the nodes that an event delivered at `id` is offered
/// to, in the order in which they are asked.
#[verifier::rlimit(40)]
pub fn collect(nodes: &NodeStore, children: &ChildMap, id: NodeId, depth: usize, out: &mut Vec<NodeId>)
    ensures
        final(out)@ == old(out)@ + visit_order(
            frames(nodes_of(*nodes)),
            children_of(*children),
            id,
            depth as nat,
        ),
    decreases depth,
{
    if depth == 0 {
        assert(out@ + Seq::<NodeId>::empty() == out@);
        return ;
    }
    match nodes.get(id) {
        Some(node) => {
            if node.area.hidden {
                assert(out@ + Seq::<NodeId>::empty() == out@);
                return ;
            }
        },
        None => {
            assert(out@ + Seq::<NodeId>::empty() == out@);
            return ;
        },
    }
    match children.get(id) {
        Some(child_ids) => {
            let ghost f = frames(nodes_of(*nodes));
            let ghost ch = children_of(*children);
            let mut n: usize = child_ids.len();
            assert(old(out)@ + visit_children(f, ch, child_ids@, n as nat, (depth - 1) as nat) == out@
                + visit_children(f, ch, child_ids@, n as nat, (depth - 1) as nat));
            while n > 0
                invariant
                    n <= child_ids.len(),
                    depth > 0,
                    f == frames(nodes_of(*nodes)),
                    ch == children_of(*children),
                    old(out)@ + visit_children(f, ch, child_ids@, child_ids@.len(), (depth - 1) as nat)
                        == out@ + visit_children(f, ch, child_ids@, n as nat, (depth - 1) as nat),
                decreases n,
            {
                let ghost before = out@;
                collect(nodes, children, child_ids[n - 1], depth - 1, out);
                proof {
                    let first = visit_order(f, ch, child_ids@[n - 1], (depth - 1) as nat);
                    let rest = visit_children(f, ch, child_ids@, (n - 1) as nat, (depth - 1) as nat);
                    assert(before + (first + rest) == (before + first) + rest);
                }
                n = n - 1;
            }
            out.push(id);
            proof {
                let all = visit_children(f, ch, child_ids@, child_ids@.len(), (depth - 1) as nat);
                assert(out@ == (old(out)@ + all).push(id)) by {
                    assert(visit_children(f, ch, child_ids@, 0, (depth - 1) as nat) == Seq::<NodeId>::empty());
                    assert(old(out)@ + all + Seq::<NodeId>::empty() == old(out)@ + all);
                }
                assert((old(out)@ + all).push(id) == old(out)@ + all.push(id));
            }
        },
        None => {
            out.push(id);
            assert(old(out)@.push(id) == old(out)@ + seq![id]);
        },
    }
}

/// Delivers the input under way to the node `id` and to what is under it, at
/// most `depth` levels down: offers it to every node of the `visit_order`,
/// in that order.
///
/// Whatever the widgets answer: no node outside the visit order changes,
/// no style and no area changes, of the input state only `blocked` changes
/// and only from false to true, and the grab stays where it was or goes to a
/// node of the visit order. A hidden node is offered nothing, and nothing
/// under it is. Where no node of the visit order has a widget, no node
/// changes and nothing is queued.
#[verifier::rlimit(40)]
pub fn dispatch_input_event(
    id: NodeId,
    nodes: &mut NodeStore,
    children: &ChildMap,
    input: &mut GuiInput,
    grabbed_node: &mut Option<NodeId>,
    executor: &mut EventExecutor,
    depth: usize,
)
    ensures
        frames(nodes_of(*final(nodes))) == frames(nodes_of(*old(nodes))),
        keeps_measured(nodes_of(*old(nodes)), nodes_of(*final(nodes))),
        forall|other: NodeId|
            !visit_order(frames(nodes_of(*old(nodes))), children_of(*children), id, depth as nat).contains(
                other,
            ) && #[trigger] nodes_of(*old(nodes)).contains_key(other) ==> nodes_of(*final(nodes))[other]
                == nodes_of(*old(nodes))[other],
        only_blocked(*old(input), *final(input)),
        *final(grabbed_node) == *old(grabbed_node) || match *final(grabbed_node) {
            Some(grabber) => visit_order(
                frames(nodes_of(*old(nodes))),
                children_of(*children),
                id,
                depth as nat,
            ).contains(grabber),
            None => false,
        },
        visit_order(frames(nodes_of(*old(nodes))), children_of(*children), id, depth as nat).len() == 0
            ==> nodes_of(*final(nodes)) == nodes_of(*old(nodes)) && *final(input) == *old(input)
            && *final(grabbed_node) == *old(grabbed_node) && *final(executor) == *old(executor),
        no_widget(
            frames(nodes_of(*old(nodes))),
            visit_order(frames(nodes_of(*old(nodes))), children_of(*children), id, depth as nat),
        ) ==> nodes_of(*final(nodes)) == nodes_of(*old(nodes)) && *final(executor) == *old(executor),
        exists|answers: Seq<InputAction>|
            answers.len() == visit_order(
                frames(nodes_of(*old(nodes))),
                children_of(*children),
                id,
                depth as nat,
            ).len() && #[trigger] delivered(
                frames(nodes_of(*old(nodes))),
                visit_order(frames(nodes_of(*old(nodes))), children_of(*children), id, depth as nat),
                answers,
                *old(input),
                *old(grabbed_node),
            ) == (*final(input), *final(grabbed_node)),
{
    let ghost mut log: Seq<InputAction> = Seq::empty();
    let mut order: Vec<NodeId> = Vec::new();
    collect(nodes, children, id, depth, &mut order);
    assert(order@ == visit_order(frames(nodes_of(*old(nodes))), children_of(*children), id, depth as nat)) by {
        assert(Seq::<NodeId>::empty() + visit_order(
            frames(nodes_of(*old(nodes))),
            children_of(*children),
            id,
            depth as nat,
        ) == visit_order(frames(nodes_of(*old(nodes))), children_of(*children), id, depth as nat));
    }
    let mut i: usize = 0;
    while i < order.len()
        invariant
            i <= order.len(),
            frames(nodes_of(*nodes)) == frames(nodes_of(*old(nodes))),
            keeps_measured(nodes_of(*old(nodes)), nodes_of(*nodes)),
            forall|other: NodeId|
                !order@.contains(other) && #[trigger] nodes_of(*old(nodes)).contains_key(other)
                    ==> nodes_of(*nodes)[other] == nodes_of(*old(nodes))[other],
            only_blocked(*old(input), *input),
            *grabbed_node == *old(grabbed_node) || match *grabbed_node {
                Some(grabber) => order@.contains(grabber),
                None => false,
            },
            i == 0 ==> nodes_of(*nodes) == nodes_of(*old(nodes)) && *input == *old(input) && *grabbed_node
                == *old(grabbed_node) && *executor == *old(executor),
            no_widget(frames(nodes_of(*old(nodes))), order@) ==> nodes_of(*nodes) == nodes_of(*old(nodes))
                && *executor == *old(executor),
            log.len() == i,
            delivered(frames(nodes_of(*old(nodes))), order@, log, *old(input), *old(grabbed_node)) == (
                *input,
                *grabbed_node,
            ),
        decreases order.len() - i,
    {
        let ghost before = nodes_of(*nodes);
        assert(order@.contains(order@[i as int]));
        let answer = offer(nodes, order[i], input, grabbed_node, executor);
        proof {
            let action = match answer {
                Some(action) => action,
                None => InputAction::Pass,
            };
            assert(log.push(action).drop_last() == log);
            log = log.push(action);
            assert(frames(before) == frames(nodes_of(*old(nodes))));
        }
        proof {
            crate::layout::lemma_keeps_measured_trans(nodes_of(*old(nodes)), before, nodes_of(*nodes));
            assert forall|other: NodeId|
                !order@.contains(other) && #[trigger] nodes_of(*old(nodes)).contains_key(
                    other,
                ) implies nodes_of(*nodes)[other] == nodes_of(*old(nodes))[other] by {
                assert(before.contains_key(other));
            }
        }
        i = i + 1;
    }
}

/// A hidden node is offered nothing, and nothing under it is.
pub proof fn lemma_hidden_not_visited(f: Map<NodeId, Frame>, ch: Map<NodeId, Seq<NodeId>>, id: NodeId, depth: nat)
    requires
        f.contains_key(id),
        f[id].area.hidden,
    ensures
        visit_order(f, ch, id, depth) == Seq::<NodeId>::empty(),
{
}

/// A node that is visited is asked last of all that is visited at it: after
/// its children and what is under them.
pub proof fn lemma_container_last(f: Map<NodeId, Frame>, ch: Map<NodeId, Seq<NodeId>>, id: NodeId, depth: nat)
    requires
        depth > 0,
        f.contains_key(id),
        !f[id].area.hidden,
    ensures
        visit_order(f, ch, id, depth).len() > 0,
        visit_order(f, ch, id, depth).last() == id,
        ch.contains_key(id) ==> visit_order(f, ch, id, depth).drop_last() == visit_children(
            f,
            ch,
            ch[id],
            ch[id].len(),
            (depth - 1) as nat,
        ),
{
    if ch.contains_key(id) {
        let under = visit_children(f, ch, ch[id], ch[id].len(), (depth - 1) as nat);
        assert(under.push(id).drop_last() == under);
    }
}

/// Children are asked in the reverse of their order in the list: what is
/// asked under the children from position `i` on comes, all of it, before
/// what is asked under the first `i` children.
pub proof fn lemma_later_children_first(
    f: Map<NodeId, Frame>,
    ch: Map<NodeId, Seq<NodeId>>,
    kids: Seq<NodeId>,
    i: nat,
    depth: nat,
)
    requires
        i <= kids.len(),
    ensures
        visit_children(f, ch, kids, kids.len(), depth) == visit_children(
            f,
            ch,
            kids.subrange(i as int, kids.len() as int),
            (kids.len() - i) as nat,
            depth,
        ) + visit_children(f, ch, kids, i, depth),
{
    lemma_visit_children_prefix(f, ch, kids, i, kids.len(), depth);
}

/// What is asked under the first `n` children: first what is asked under
/// those from position `i` on, then what is asked under the first `i`.
pub proof fn lemma_visit_children_prefix(
    f: Map<NodeId, Frame>,
    ch: Map<NodeId, Seq<NodeId>>,
    kids: Seq<NodeId>,
    i: nat,
    n: nat,
    depth: nat,
)
    requires
        i <= n <= kids.len(),
    ensures
        visit_children(f, ch, kids, n, depth) == visit_children(
            f,
            ch,
            kids.subrange(i as int, kids.len() as int),
            (n - i) as nat,
            depth,
        ) + visit_children(f, ch, kids, i, depth),
    decreases n - i,
{
    let tail = kids.subrange(i as int, kids.len() as int);
    if n == i {
        assert(visit_children(f, ch, tail, 0, depth) == Seq::<NodeId>::empty());
        assert(Seq::<NodeId>::empty() + visit_children(f, ch, kids, i, depth) == visit_children(
            f,
            ch,
            kids,
            i,
            depth,
        ));
    } else {
        lemma_visit_children_prefix(f, ch, kids, i, (n - 1) as nat, depth);
        let a = visit_order(f, ch, kids[n - 1], depth);
        let b = visit_children(f, ch, tail, (n - 1 - i) as nat, depth);
        let c = visit_children(f, ch, kids, i, depth);
        assert(tail[n - 1 - i] == kids[n - 1]);
        assert(a + (b + c) == (a + b) + c);
    }
}

} // verus!
