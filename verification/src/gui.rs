//! The tree: the nodes, who is whose child, and the state that lasts from one
//! input event to the next.

use vstd::prelude::*;
use crate::button::{Button, ExclusiveGroup};
use crate::dispatch::{delivered, dispatch_input_event, grab_after, no_widget, offer, visit_order};
use crate::event::{
    Decoded, EventExecutor, EventParam, GroupId, GuiInput, InputAction, InputEvent,
    KeyboardEvent, MouseButtonEvent,
};
use core::marker::PhantomData;
use crate::geometry::Rect;
use crate::layout::{
    Answers, Frame, frames, keeps_measured, measure_and_layout, node_arrange, node_measure, same_widgets,
};
use crate::render::{Canvas, Draw, paint_order, painted, render_node};
use crate::store::{ChildMap, NodeId, NodeStore, ParentMap, children_of, nodes_of, parents_of, slot_free};
use crate::style::{Area, Style};
use crate::widget::{Node, Widget};

verus! {

/// The most nodes that a tree holds: one less than the slots that a 32-bit
/// index reaches, the first of which is never given out.
pub const MAX_NODES: usize = 0xffff_fffe;

/// Whether no two of `keys` point to the same slot, and none is null.
pub open spec fn distinct_slots(keys: Set<NodeId>) -> bool {
    &&& forall|a: NodeId| #[trigger] keys.contains(a) ==> !a.spec_is_null()
    &&& forall|a: NodeId, b: NodeId|
        #![trigger keys.contains(a), keys.contains(b)]
        keys.contains(a) && keys.contains(b) && a.slot() == b.slot() ==> a == b
}

/// Whether the parent entries and the child lists say the same: every handle
/// in the child list of `p` has `p` as its parent entry, and every handle
/// with the parent entry `p` is in the child list of `p`.
pub open spec fn linked(parents: Map<NodeId, NodeId>, children: Map<NodeId, Seq<NodeId>>) -> bool {
    &&& forall|p: NodeId, i: int|
        #![trigger children[p][i]]
        children.contains_key(p) && 0 <= i < children[p].len() ==> parents.contains_key(children[p][i])
            && parents[children[p][i]] == p
    &&& forall|c: NodeId| #[trigger]
        parents.contains_key(c) ==> children.contains_key(parents[c]) && children[parents[c]].contains(c)
}

/// `list` without every occurrence of `id`, the rest in its order.
pub open spec fn without(list: Seq<NodeId>, id: NodeId) -> Seq<NodeId>
    decreases list.len(),
{
    if list.len() == 0 {
        list
    } else if list.last() == id {
        without(list.drop_last(), id)
    } else {
        without(list.drop_last(), id).push(list.last())
    }
}

/// What `without` keeps is what was there and is not `id`.
pub proof fn lemma_without(list: Seq<NodeId>, id: NodeId)
    ensures
        forall|x: NodeId| #[trigger] without(list, id).contains(x) <==> list.contains(x) && x != id,
    decreases list.len(),
{
    if list.len() > 0 {
        let front = list.drop_last();
        lemma_without(front, id);
        assert forall|x: NodeId| #[trigger] without(list, id).contains(x) <==> list.contains(x) && x
            != id by {
            if without(list, id).contains(x) {
                let i = choose|i: int| 0 <= i < without(list, id).len() && without(list, id)[i] == x;
                if list.last() != id && i == without(front, id).len() {
                    assert(list[list.len() - 1] == x);
                } else {
                    assert(without(front, id)[i] == x);
                    assert(without(front, id).contains(x));
                    let j = choose|j: int| 0 <= j < front.len() && front[j] == x;
                    assert(list[j] == x);
                }
            }
            if list.contains(x) && x != id {
                let j = choose|j: int| 0 <= j < list.len() && list[j] == x;
                if j == list.len() - 1 {
                    assert(without(list, id)[without(front, id).len() as int] == x);
                } else {
                    assert(front[j] == x);
                    assert(front.contains(x));
                    assert(without(front, id).contains(x));
                    let i = choose|i: int| 0 <= i < without(front, id).len() && without(front, id)[i] == x;
                    assert(without(list, id)[i] == x);
                }
            }
        }
    }
}

/// The child lists after `child` has been taken out of the list of `parent`.
/// A parent without a list stays without one.
pub open spec fn detached(children: Map<NodeId, Seq<NodeId>>, parent: NodeId, child: NodeId) -> Map<
    NodeId,
    Seq<NodeId>,
> {
    if children.contains_key(parent) {
        children.insert(parent, without(children[parent], child))
    } else {
        children
    }
}

/// The child lists after `child` has been put at the end of the list of
/// `parent`.
pub open spec fn attached(children: Map<NodeId, Seq<NodeId>>, parent: NodeId, child: NodeId) -> Map<
    NodeId,
    Seq<NodeId>,
> {
    if children.contains_key(parent) {
        children.insert(parent, children[parent].push(child))
    } else {
        children.insert(parent, seq![child])
    }
}

/// The parent entries and the child lists after `child` has been made the
/// last child of `parent`: taken out of the list of the parent it had, if it
/// had one, and put at the end of the list of `parent`.
pub open spec fn moved(
    parents: Map<NodeId, NodeId>,
    children: Map<NodeId, Seq<NodeId>>,
    parent: NodeId,
    child: NodeId,
) -> (Map<NodeId, NodeId>, Map<NodeId, Seq<NodeId>>) {
    (
        parents.insert(child, parent),
        attached(
            if parents.contains_key(child) {
                detached(children, parents[child], child)
            } else {
                children
            },
            parent,
            child,
        ),
    )
}

/// The parent entries after every handle in `list` has been given the parent
/// `parent`.
pub open spec fn adopted(parents: Map<NodeId, NodeId>, parent: NodeId, list: Seq<NodeId>) -> Map<
    NodeId,
    NodeId,
> {
    Map::new(
        |c: NodeId| parents.contains_key(c) || list.contains(c),
        |c: NodeId|
            if list.contains(c) {
                parent
            } else {
                parents[c]
            },
    )
}

/// The nodes of a tree and its shape.
pub struct Topology {
    pub nodes: Map<NodeId, Node>,
    pub parents: Map<NodeId, NodeId>,
    pub children: Map<NodeId, Seq<NodeId>>,
}

/// Whether nothing is left of the node `id`: no node, no parent entry and no
/// child list.
pub open spec fn gone(tree: Topology, id: NodeId) -> bool {
    &&& !tree.nodes.contains_key(id)
    &&& !tree.parents.contains_key(id)
    &&& !tree.children.contains_key(id)
}

/// Whether `after` holds nothing that `before` did not hold, and what it
/// holds is what it was.
pub open spec fn within(before: Topology, after: Topology) -> bool {
    &&& after.nodes.submap_of(before.nodes)
    &&& after.parents.submap_of(before.parents)
    &&& after.children.submap_of(before.children)
}

/// Whether `id` stood in a child list of `before` that `after` no longer
/// has.
pub open spec fn in_dropped_list(before: Topology, after: Topology, id: NodeId) -> bool {
    exists|owner: NodeId|
        #![trigger before.children[owner]]
        before.children.contains_key(owner) && !after.children.contains_key(owner)
            && before.children[owner].contains(id)
}

/// Whether `after` is `before` without what hangs under `top`: the child
/// list of `top`, the nodes in it, their child lists, and so on down.
///
/// Nothing else changed. The child list of `top` is gone. Where a child list
/// is gone, nothing is left of the nodes that stood in it. And nothing went
/// without cause: a node or a parent entry only if it stood in a child list
/// that is gone, and a child list only if it is that of `top` or of a node
/// that is gone.
pub open spec fn pruned(before: Topology, after: Topology, top: NodeId) -> bool {
    &&& within(before, after)
    &&& !after.children.contains_key(top)
    &&& forall|owner: NodeId, i: int|
        #![trigger before.children[owner][i]]
        before.children.contains_key(owner) && !after.children.contains_key(owner) && 0 <= i
            < before.children[owner].len() ==> gone(after, before.children[owner][i])
    &&& forall|id: NodeId| #[trigger]
        before.nodes.contains_key(id) && !after.nodes.contains_key(id) ==> in_dropped_list(before, after, id)
    &&& forall|id: NodeId| #[trigger]
        before.parents.contains_key(id) && !after.parents.contains_key(id) ==> in_dropped_list(
            before,
            after,
            id,
        )
    &&& forall|owner: NodeId| #[trigger]
        before.children.contains_key(owner) && !after.children.contains_key(owner) ==> owner == top || (
        before.nodes.contains_key(owner) && !after.nodes.contains_key(owner))
}

/// Whether `now` is `before` on the way to being pruned under `parent`: the
/// child list of `parent` is gone, nothing is left of its first `done`
/// members, and nothing else went without cause.
#[verifier::opaque]
spec fn pruning(before: Topology, now: Topology, parent: NodeId, done: int) -> bool {
    &&& before.children.contains_key(parent)
    &&& now.children.dom().subset_of(before.children.dom().remove(parent))
    &&& within(before, now)
    &&& forall|owner: NodeId, k: int|
        #![trigger before.children[owner][k]]
        before.children.contains_key(owner) && !now.children.contains_key(owner) && owner != parent && 0 <= k
            < before.children[owner].len() ==> gone(now, before.children[owner][k])
    &&& forall|k: int| 0 <= k < done ==> gone(now, #[trigger] before.children[parent][k])
    &&& forall|id: NodeId| #[trigger]
        before.nodes.contains_key(id) && !now.nodes.contains_key(id) ==> in_dropped_list(before, now, id)
    &&& forall|id: NodeId| #[trigger]
        before.parents.contains_key(id) && !now.parents.contains_key(id) ==> in_dropped_list(before, now, id)
    &&& forall|owner: NodeId| #[trigger]
        before.children.contains_key(owner) && !now.children.contains_key(owner) ==> owner == parent || (
        before.nodes.contains_key(owner) && !now.nodes.contains_key(owner))
}

/// Pruning starts with the child list of `parent` taken away.
proof fn lemma_pruning_start(before: Topology, now: Topology, parent: NodeId)
    requires
        before.children.contains_key(parent),
        now.nodes == before.nodes,
        now.parents == before.parents,
        now.children == before.children.remove(parent),
    ensures
        pruning(before, now, parent, 0),
{
    reveal(pruning);
}

/// Pruning goes on by one member of the list: what is under it is pruned,
/// and then its parent entry and the node itself go.
proof fn lemma_pruning_step(
    before: Topology,
    s0: Topology,
    s1: Topology,
    s2: Topology,
    parent: NodeId,
    i: int,
)
    requires
        before.children.dom().subset_of(before.nodes.dom()),
        pruning(before, s0, parent, i),
        0 <= i < before.children[parent].len(),
        pruned(s0, s1, before.children[parent][i]),
        s2.nodes == s1.nodes.remove(before.children[parent][i]),
        s2.parents == s1.parents.remove(before.children[parent][i]),
        s2.children == s1.children,
    ensures
        pruning(before, s2, parent, i + 1),
        s2.children.dom().subset_of(s0.children.dom()),
        s2.children.dom().subset_of(before.children.dom().remove(parent)),
        !s2.children.contains_key(before.children[parent][i]),
{
    reveal(pruning);
    let child = before.children[parent][i];
    let list = before.children[parent];
    assert(list.contains(child));
    assert(within(before, s2)) by {
        assert(within(s0, s1));
        assert forall|k: NodeId| #[trigger] s2.nodes.dom().contains(k) implies before.nodes.dom().contains(k)
            && s2.nodes[k] == before.nodes[k] by {
            assert(s1.nodes.dom().contains(k));
            assert(s0.nodes.dom().contains(k));
        }
        assert forall|k: NodeId| #[trigger] s2.parents.dom().contains(k) implies before.parents.dom().contains(k)
            && s2.parents[k] == before.parents[k] by {
            assert(s1.parents.dom().contains(k));
            assert(s2.parents[k] == s1.parents[k]);
            assert(s0.parents.dom().contains(k));
            assert(s1.parents[k] == s0.parents[k]);
            assert(before.parents.dom().contains(k));
            assert(s0.parents[k] == before.parents[k]);
        }
        assert forall|k: NodeId| #[trigger] s2.children.dom().contains(k) implies before.children.dom().contains(
            k,
        ) && s2.children[k] == before.children[k] by {
            assert(s1.children.dom().contains(k));
            assert(s0.children.dom().contains(k));
        }
    }
    assert forall|k: NodeId| #[trigger] s2.children.dom().contains(k) implies s0.children.dom().contains(k) by {
        assert(s1.children.dom().contains(k));
    }
    assert forall|id: NodeId| in_dropped_list(s0, s1, id) implies in_dropped_list(before, s2, id) by {
        let owner = choose|owner: NodeId|
            #![trigger s0.children[owner]]
            s0.children.contains_key(owner) && !s1.children.contains_key(owner) && s0.children[owner].contains(id);
        assert(before.children.contains_key(owner) && before.children[owner] == s0.children[owner]);
    }
    assert forall|id: NodeId| in_dropped_list(before, s0, id) implies in_dropped_list(before, s2, id) by {
        let owner = choose|owner: NodeId|
            #![trigger before.children[owner]]
            before.children.contains_key(owner) && !s0.children.contains_key(owner)
                && before.children[owner].contains(id);
        assert(!s2.children.contains_key(owner));
    }
    assert(in_dropped_list(before, s2, child)) by {
        assert(before.children.contains_key(parent) && !s2.children.contains_key(parent)
            && before.children[parent].contains(child));
    }
    assert forall|id: NodeId| #[trigger]
        before.nodes.contains_key(id) && !s2.nodes.contains_key(id) implies in_dropped_list(before, s2, id) by {
        if id != child && s0.nodes.contains_key(id) {
            assert(!s1.nodes.contains_key(id));
            assert(in_dropped_list(s0, s1, id));
        }
    }
    assert forall|id: NodeId| #[trigger]
        before.parents.contains_key(id) && !s2.parents.contains_key(id) implies in_dropped_list(before, s2, id) by {
        if id != child && s0.parents.contains_key(id) {
            assert(!s1.parents.contains_key(id));
            assert(in_dropped_list(s0, s1, id));
        }
    }
    assert forall|owner: NodeId| #[trigger]
        before.children.contains_key(owner) && !s2.children.contains_key(owner) implies owner == parent || (
        before.nodes.contains_key(owner) && !s2.nodes.contains_key(owner)) by {
        if s0.children.contains_key(owner) {
            assert(!s1.children.contains_key(owner));
            if owner == child {
                assert(before.children.dom().contains(owner));
            }
        }
    }
    assert forall|owner: NodeId, k: int|
        #![trigger before.children[owner][k]]
        before.children.contains_key(owner) && !s2.children.contains_key(owner) && owner != parent && 0 <= k
            < before.children[owner].len() implies gone(s2, before.children[owner][k]) by {
        if s0.children.contains_key(owner) {
            assert(s0.children[owner] == before.children[owner]);
            assert(gone(s1, s0.children[owner][k]));
        } else {
            assert(gone(s0, before.children[owner][k]));
        }
    }
    assert forall|k: int| 0 <= k < i + 1 implies gone(s2, #[trigger] list[k]) by {
        if k < i {
            assert(gone(s0, list[k]));
        }
    }
}

/// Once nothing is left of any member of the list, the tree is pruned.
proof fn lemma_pruning_end(before: Topology, after: Topology, parent: NodeId)
    requires
        pruning(before, after, parent, before.children[parent].len() as int),
    ensures
        pruned(before, after, parent),
{
    reveal(pruning);
    assert(!after.children.dom().contains(parent));
}

/// Pruning keeps the parent entries and the child lists in agreement.
pub proof fn lemma_pruned_linked(before: Topology, after: Topology, top: NodeId)
    requires
        pruned(before, after, top),
        linked(before.parents, before.children),
    ensures
        linked(after.parents, after.children),
{
    let parents = after.parents;
    let kids = after.children;
    assert forall|p: NodeId, i: int|
        #![trigger kids[p][i]]
        kids.contains_key(p) && 0 <= i < kids[p].len() implies parents.contains_key(kids[p][i])
        && parents[kids[p][i]] == p by {
        assert(before.children.contains_key(p));
        let c = before.children[p][i];
        assert(before.parents.contains_key(c) && before.parents[c] == p);
        if !parents.contains_key(c) {
            assert(in_dropped_list(before, after, c));
            let owner = choose|owner: NodeId|
                #![trigger before.children[owner]]
                before.children.contains_key(owner) && !after.children.contains_key(owner)
                    && before.children[owner].contains(c);
            let k = choose|k: int| 0 <= k < before.children[owner].len() && before.children[owner][k] == c;
            assert(before.parents[before.children[owner][k]] == owner);
        }
    }
    assert forall|c: NodeId| #[trigger] parents.contains_key(c) implies kids.contains_key(parents[c])
        && kids[parents[c]].contains(c) by {
        assert(before.parents.contains_key(c));
        let q = before.parents[c];
        assert(before.children.contains_key(q) && before.children[q].contains(c));
        if !kids.contains_key(q) {
            let k = choose|k: int| 0 <= k < before.children[q].len() && before.children[q][k] == c;
            assert(gone(after, before.children[q][k]));
        }
    }
}

/// `tree` after the node `id` has been unhooked from its parent: without
/// the parent entry of `id`, and without `id` in the child list of the
/// parent that the entry named.
pub open spec fn unhooked(tree: Topology, id: NodeId) -> Topology {
    Topology {
        nodes: tree.nodes,
        parents: tree.parents.remove(id),
        children: if tree.parents.contains_key(id) {
            detached(tree.children, tree.parents[id], id)
        } else {
            tree.children
        },
    }
}

/// Whether `after` is `before` without the node `id` and what hangs under
/// it.
///
/// The node is unhooked from its parent. Nothing else changed but that
/// things went. Nothing is left of `id`. Where a child list is gone, nothing
/// is left of the nodes that stood in it. And nothing went without cause: a
/// node other than `id`, or a parent entry, only if it stood in a child list
/// that is gone, and a child list only if it is that of `id` or of a node
/// that is gone.
pub open spec fn deleted(before: Topology, after: Topology, id: NodeId) -> bool {
    let loose = unhooked(before, id);
    &&& within(loose, after)
    &&& gone(after, id)
    &&& forall|owner: NodeId, i: int|
        #![trigger loose.children[owner][i]]
        loose.children.contains_key(owner) && !after.children.contains_key(owner) && 0 <= i
            < loose.children[owner].len() ==> gone(after, loose.children[owner][i])
    &&& forall|other: NodeId| #[trigger]
        loose.nodes.contains_key(other) && !after.nodes.contains_key(other) ==> other == id
            || in_dropped_list(loose, after, other)
    &&& forall|other: NodeId| #[trigger]
        loose.parents.contains_key(other) && !after.parents.contains_key(other) ==> in_dropped_list(
            loose,
            after,
            other,
        )
    &&& forall|owner: NodeId| #[trigger]
        loose.children.contains_key(owner) && !after.children.contains_key(owner) ==> owner == id || (
        loose.nodes.contains_key(owner) && !after.nodes.contains_key(owner))
}

/// The handle of a node that was made with a widget of the kind `T`.
pub struct WidgetId<T> {
    node: NodeId,
    marker: PhantomData<T>,
}

impl<T> WidgetId<T> {
    /// The handle of the node.
    pub closed spec fn id(self) -> NodeId {
        self.node
    }

    /// The handle of the node.
    pub fn node(&self) -> (r: NodeId)
        ensures
            r == self.id(),
    {
        self.node
    }

    /// The handle `node`, taken to be that of a widget of the kind `T`.
    pub fn new(node: NodeId) -> (r: WidgetId<T>)
        ensures
            r.id() == node,
    {
        WidgetId { node, marker: PhantomData }
    }
}

impl<T> Clone for WidgetId<T> {
    fn clone(&self) -> (r: WidgetId<T>)
        ensures
            r == *self,
    {
        WidgetId { node: self.node, marker: PhantomData }
    }
}

impl<T> Copy for WidgetId<T> {

}

impl WidgetId<Button> {
    /// Whether the button takes input. A handle without button reads as
    /// enabled.
    pub fn enabled(&self, gui: &Gui) -> (r: bool)
        ensures
            r == match gui.button_at(self.id()) {
                Some(button) => button.spec_enabled(),
                None => true,
            },
    {
        match gui.get_button(self.node) {
            Some(button) => button.enabled(),
            None => true,
        }
    }

    /// Enables or disables the button, if there is one.
    pub fn set_enabled(&self, gui: &mut Gui, enabled: bool)
        ensures
            old(gui).wf() ==> final(gui).wf(),
            old(gui).same_but_widgets(final(gui)),
            forall|other: NodeId|
                other != self.id() && #[trigger] old(gui).nodes().contains_key(other) ==> final(gui).nodes()[other] == old(gui).nodes()[other],
            final(gui).button_at(self.id()) == match old(gui).button_at(self.id()) {
                Some(button) => Some(button.spec_set_enabled(enabled)),
                None => None,
            },
    {
        gui.set_button_enabled(self.node, enabled);
    }

    /// Whether the button is toggled on. A handle without button reads as
    /// not toggled.
    pub fn toggled(&self, gui: &Gui) -> (r: bool)
        ensures
            r == match gui.button_at(self.id()) {
                Some(button) => button.toggled,
                None => false,
            },
    {
        match gui.get_button(self.node) {
            Some(button) => button.toggled(),
            None => false,
        }
    }

    /// Sets the toggle of the button, if there is one.
    pub fn set_toggled(&self, gui: &mut Gui, toggled: bool)
        ensures
            old(gui).wf() ==> final(gui).wf(),
            old(gui).same_but_widgets(final(gui)),
            forall|other: NodeId|
                other != self.id() && #[trigger] old(gui).nodes().contains_key(other) ==> final(gui).nodes()[other] == old(gui).nodes()[other],
            final(gui).button_at(self.id()) == match old(gui).button_at(self.id()) {
                Some(button) => Some(Button { toggled, ..button }),
                None => None,
            },
    {
        gui.set_button_toggled(self.node, toggled);
    }
}

/// The button that a node is, if it is one.
pub open spec fn button_of(node: Node) -> Option<Button> {
    match node.widget {
        Some(widget) => widget.button(),
        None => None,
    }
}

/// Whether `list` holds `id` at a position other than `index`.
pub open spec fn other_member(list: Seq<NodeId>, index: usize, id: NodeId) -> bool {
    exists|j: int| 0 <= j < list.len() && j != index && #[trigger] list[j] == id
}

/// A button with its toggle cleared. What is no button stays what it is.
pub open spec fn untoggled(button: Option<Button>) -> Option<Button> {
    match button {
        Some(b) => Some(Button { toggled: false, ..b }),
        None => None,
    }
}

/// What the owner of the window does after an input event has been
/// delivered and its queue has run.
#[derive(Clone, Copy, PartialEq, Eq, Structural, Debug)]
pub enum Reaction {
    /// The application ends.
    Exit,
    /// The window is drawn anew.
    Redraw,
    /// Nothing.
    Idle,
}

/// A tree of nodes with its layout and input state.
pub struct Gui {
    nodes: NodeStore,
    parents: ParentMap,
    children: ChildMap,
    groups: Vec<ExclusiveGroup>,
    root: NodeId,
    input: GuiInput,
    grabbed_node: Option<NodeId>,
    layout_area: Rect,
    needs_layout: bool,
    exit_requested: bool,
}

impl Gui {
    /// The nodes, each under its handle.
    pub closed spec fn nodes(&self) -> Map<NodeId, Node> {
        nodes_of(self.nodes)
    }

    /// The parent of each node that has one.
    pub closed spec fn parent_map(&self) -> Map<NodeId, NodeId> {
        parents_of(self.parents)
    }

    /// The ordered children of each node that has any.
    pub closed spec fn child_map(&self) -> Map<NodeId, Seq<NodeId>> {
        children_of(self.children)
    }

    /// The exclusive groups, in the order in which they were added.
    pub closed spec fn spec_groups(&self) -> Seq<ExclusiveGroup> {
        self.groups@
    }

    pub closed spec fn spec_root(&self) -> NodeId {
        self.root
    }

    /// The state of the input devices between two deliveries.
    pub closed spec fn spec_input(&self) -> GuiInput {
        self.input
    }

    /// The node that the next input event goes to alone, if any.
    pub closed spec fn grabbed(&self) -> Option<NodeId> {
        self.grabbed_node
    }

    /// The rectangle that the root is laid out in.
    pub closed spec fn spec_area(&self) -> Rect {
        self.layout_area
    }

    pub closed spec fn spec_needs_layout(&self) -> bool {
        self.needs_layout
    }

    pub closed spec fn spec_exit_requested(&self) -> bool {
        self.exit_requested
    }

    /// The nodes and the shape together.
    pub open spec fn topology(&self) -> Topology {
        Topology { nodes: self.nodes(), parents: self.parent_map(), children: self.child_map() }
    }

    /// What the storage needs to work: no two nodes share a slot, and the
    /// two maps of the shape have entries for nodes only, finitely many.
    /// Between two deliveries the input state holds no trace of the last
    /// one.
    pub open spec fn wf(&self) -> bool {
        &&& self.nodes().dom().finite()
        &&& distinct_slots(self.nodes().dom())
        &&& self.parent_map().dom().subset_of(self.nodes().dom())
        &&& self.child_map().dom().subset_of(self.nodes().dom())
        &&& self.child_map().dom().finite()
        &&& self.spec_input() == self.spec_input().spec_reset()
    }

    /// Whether the parent entries and the child lists agree.
    pub open spec fn spec_linked(&self) -> bool {
        linked(self.parent_map(), self.child_map())
    }

    /// Whether `after` is `self` but for the nodes and the layout flag.
    pub open spec fn same_shape(&self, after: &Gui) -> bool {
        &&& after.parent_map() == self.parent_map()
        &&& after.child_map() == self.child_map()
        &&& after.spec_groups() == self.spec_groups()
        &&& after.spec_root() == self.spec_root()
        &&& after.spec_input() == self.spec_input()
        &&& after.grabbed() == self.grabbed()
        &&& after.spec_area() == self.spec_area()
        &&& after.spec_exit_requested() == self.spec_exit_requested()
    }

    /// A tree of one node, the root: a container in the default style that
    /// no layout has touched.
    pub fn new() -> (r: Gui)
        ensures
            r.wf(),
            r.spec_linked(),
            r.nodes().dom() =~= set![r.spec_root()],
            r.nodes()[r.spec_root()].style == Style::spec_default(),
            r.nodes()[r.spec_root()].area == Area::spec_new(),
            r.nodes()[r.spec_root()].widget is None,
            r.parent_map() == Map::<NodeId, NodeId>::empty(),
            r.child_map() == Map::<NodeId, Seq<NodeId>>::empty(),
            r.spec_groups().len() == 0,
            r.spec_input() == GuiInput::spec_new(),
            r.grabbed() is None,
            r.spec_area() == Rect::spec_zero(),
            !r.spec_needs_layout(),
            !r.spec_exit_requested(),
    {
        let mut nodes = NodeStore::new();
        let root = nodes.insert(Node::default());
        Gui {
            nodes,
            parents: ParentMap::new(),
            children: ChildMap::new(),
            groups: Vec::new(),
            root,
            input: GuiInput::new(),
            grabbed_node: None,
            layout_area: Rect::zero(),
            needs_layout: false,
            exit_requested: false,
        }
    }

    /// The node that layout and input start from.
    pub fn root(&self) -> (r: NodeId)
        ensures
            r == self.spec_root(),
    {
        self.root
    }

    /// Makes `root` the node that layout and input start from.
    pub fn set_root(&mut self, root: NodeId)
        ensures
            old(self).wf() ==> final(self).wf(),
            final(self).spec_root() == root,
            final(self).spec_needs_layout(),
            final(self).nodes() == old(self).nodes(),
            final(self).parent_map() == old(self).parent_map(),
            final(self).child_map() == old(self).child_map(),
            final(self).spec_groups() == old(self).spec_groups(),
            final(self).spec_input() == old(self).spec_input(),
            final(self).grabbed() == old(self).grabbed(),
            final(self).spec_area() == old(self).spec_area(),
            final(self).spec_exit_requested() == old(self).spec_exit_requested(),
    {
        self.root = root;
        self.needs_layout = true;
    }

    /// How many nodes the tree holds.
    pub fn len(&self) -> (r: usize)
        ensures
            self.nodes().dom().finite(),
            r == self.nodes().dom().len(),
    {
        self.nodes.len()
    }

    /// Whether `node` is a node of the tree.
    pub fn contains(&self, node: NodeId) -> (r: bool)
        ensures
            r == self.nodes().contains_key(node),
    {
        self.nodes.contains(node)
    }

    /// The node under `node`, if there is one.
    pub fn get(&self, node: NodeId) -> (r: Option<&Node>)
        ensures
            match r {
                Some(found) => self.nodes().contains_key(node) && *found == self.nodes()[node],
                None => !self.nodes().contains_key(node),
            },
    {
        self.nodes.get(node)
    }

    /// The style of `node`.
    pub fn get_style(&self, node: NodeId) -> (r: &Style)
        requires
            self.nodes().contains_key(node),
        ensures
            *r == self.nodes()[node].style,
    {
        match self.nodes.get(node) {
            Some(found) => &found.style,
            None => vstd::pervasive::unreached(),
        }
    }

    /// The area that the last layout gave `node`.
    pub fn get_area(&self, node: NodeId) -> (r: &Area)
        requires
            self.nodes().contains_key(node),
        ensures
            *r == self.nodes()[node].area,
    {
        match self.nodes.get(node) {
            Some(found) => &found.area,
            None => vstd::pervasive::unreached(),
        }
    }

    /// Gives `node` the style `style` and asks for a new layout.
    pub fn set_style(&mut self, node: NodeId, style: Style)
        requires
            old(self).nodes().contains_key(node),
        ensures
            old(self).wf() ==> final(self).wf(),
            final(self).nodes() == old(self).nodes().insert(node, Node { style, ..old(self).nodes()[node] }),
            final(self).spec_needs_layout(),
            old(self).same_shape(final(self)),
    {
        match self.nodes.get_mut(node) {
            Some(found) => {
                found.style = style;
            },
            None => {},
        }
        self.needs_layout = true;
    }

    /// Whether something changed since the last layout.
    pub fn needs_layout(&self) -> (r: bool)
        ensures
            r == self.spec_needs_layout(),
    {
        self.needs_layout
    }

    /// Asks for a new layout.
    pub fn request_layout(&mut self)
        ensures
            old(self).wf() ==> final(self).wf(),
            final(self).spec_needs_layout(),
            final(self).nodes() == old(self).nodes(),
            old(self).same_shape(final(self)),
    {
        self.needs_layout = true;
    }

    /// Whether the application was asked to end.
    pub fn exit_requested(&self) -> (r: bool)
        ensures
            r == self.spec_exit_requested(),
    {
        self.exit_requested
    }

    /// Asks the application to end.
    pub fn request_exit(&mut self)
        ensures
            old(self).wf() ==> final(self).wf(),
            final(self).spec_exit_requested(),
            final(self).nodes() == old(self).nodes(),
            final(self).spec_needs_layout() == old(self).spec_needs_layout(),
            final(self).parent_map() == old(self).parent_map(),
            final(self).child_map() == old(self).child_map(),
            final(self).spec_groups() == old(self).spec_groups(),
            final(self).spec_root() == old(self).spec_root(),
            final(self).spec_input() == old(self).spec_input(),
            final(self).grabbed() == old(self).grabbed(),
            final(self).spec_area() == old(self).spec_area(),
    {
        self.exit_requested = true;
    }

    /// What is to be done after the queue of a delivery has run, `redraw`
    /// saying whether the queue asked for a redraw: the application ends if
    /// it was asked to; else the window is drawn anew if that was asked for
    /// or the tree needs a layout.
    pub fn reaction(&self, redraw: bool) -> (r: Reaction)
        ensures
            r == if self.spec_exit_requested() {
                Reaction::Exit
            } else if redraw || self.spec_needs_layout() {
                Reaction::Redraw
            } else {
                Reaction::Idle
            },
    {
        if self.exit_requested {
            Reaction::Exit
        } else if redraw || self.needs_layout {
            Reaction::Redraw
        } else {
            Reaction::Idle
        }
    }

    /// The rectangle that the root is laid out in.
    pub fn area(&self) -> (r: Rect)
        ensures
            r == self.spec_area(),
    {
        self.layout_area
    }

    /// Sets the rectangle that the root is laid out in. A new layout is asked
    /// for if it is another than before.
    pub fn set_area(&mut self, area: Rect)
        ensures
            old(self).wf() ==> final(self).wf(),
            final(self).spec_area() == area,
            final(self).spec_needs_layout() == (old(self).spec_needs_layout() || area != old(self).spec_area()),
            final(self).nodes() == old(self).nodes(),
            final(self).parent_map() == old(self).parent_map(),
            final(self).child_map() == old(self).child_map(),
            final(self).spec_groups() == old(self).spec_groups(),
            final(self).spec_root() == old(self).spec_root(),
            final(self).spec_input() == old(self).spec_input(),
            final(self).grabbed() == old(self).grabbed(),
            final(self).spec_exit_requested() == old(self).spec_exit_requested(),
    {
        if self.layout_area != area {
            self.layout_area = area;
            self.needs_layout = true;
        }
    }

    /// Whether `after` is `self` but for the shape, the nodes and the layout
    /// flag.
    pub open spec fn same_state(&self, after: &Gui) -> bool {
        &&& after.spec_groups() == self.spec_groups()
        &&& after.spec_root() == self.spec_root()
        &&& after.spec_input() == self.spec_input()
        &&& after.grabbed() == self.grabbed()
        &&& after.spec_area() == self.spec_area()
        &&& after.spec_exit_requested() == self.spec_exit_requested()
    }

    /// Adds a node with `style` and the widget `widget` to the tree, attached
    /// to nothing, and returns its handle, which remembers the kind of the
    /// widget.
    pub fn create_widget<W: Widget + 'static>(&mut self, style: Style, widget: W) -> (r: WidgetId<W>)
        requires
            old(self).wf(),
            old(self).nodes().dom().len() < MAX_NODES,
        ensures
            !old(self).nodes().contains_key(r.id()),
            final(self).nodes().dom() =~= old(self).nodes().dom().insert(r.id()),
            forall|other: NodeId| #[trigger]
                old(self).nodes().contains_key(other) ==> final(self).nodes()[other] == old(self).nodes()[other],
            final(self).nodes()[r.id()].style == style,
            final(self).nodes()[r.id()].area == Area::spec_new(),
            final(self).nodes()[r.id()].widget is Some,
            final(self).wf(),
            old(self).same_shape(final(self)),
            final(self).spec_needs_layout() == old(self).spec_needs_layout(),
    {
        let boxed: Box<dyn Widget> = Box::new(widget);
        let node = self.create_boxed(style, boxed);
        WidgetId { node, marker: PhantomData }
    }

    /// Adds a node with `style` and with the widget `widget`, if there is
    /// one, to the tree, attached to nothing, and returns its handle.
    pub fn insert(&mut self, style: Style, widget: Option<Box<dyn Widget>>) -> (r: NodeId)
        requires
            old(self).wf(),
            old(self).nodes().dom().len() < MAX_NODES,
        ensures
            !old(self).nodes().contains_key(r),
            final(self).nodes().dom() =~= old(self).nodes().dom().insert(r),
            forall|other: NodeId| #[trigger]
                old(self).nodes().contains_key(other) ==> final(self).nodes()[other] == old(self).nodes()[other],
            final(self).nodes()[r].style == style,
            final(self).nodes()[r].area == Area::spec_new(),
            final(self).nodes()[r].widget == widget,
            final(self).wf(),
            old(self).same_shape(final(self)),
            final(self).spec_needs_layout() == old(self).spec_needs_layout(),
    {
        self.nodes.insert(Node::new(style, widget))
    }

    /// Adds a node with `style` and `widget` to the tree, attached to
    /// nothing, and returns its handle.
    pub fn create_boxed(&mut self, style: Style, widget: Box<dyn Widget>) -> (r: NodeId)
        requires
            old(self).wf(),
            old(self).nodes().dom().len() < MAX_NODES,
        ensures
            !old(self).nodes().contains_key(r),
            final(self).nodes().dom() =~= old(self).nodes().dom().insert(r),
            forall|other: NodeId| #[trigger]
                old(self).nodes().contains_key(other) ==> final(self).nodes()[other] == old(self).nodes()[other],
            final(self).nodes()[r].style == style,
            final(self).nodes()[r].area == Area::spec_new(),
            final(self).nodes()[r].widget == Some(widget),
            final(self).wf(),
            old(self).same_shape(final(self)),
            final(self).spec_needs_layout() == old(self).spec_needs_layout(),
    {
        let some = Some(widget);
        self.nodes.insert(Node::new(style, some))
    }

    /// Adds a node with `style` and without widget to the tree, attached to
    /// nothing, and returns its handle.
    pub fn create_node(&mut self, style: Style) -> (r: NodeId)
        requires
            old(self).wf(),
            old(self).nodes().dom().len() < MAX_NODES,
        ensures
            !old(self).nodes().contains_key(r),
            final(self).nodes() == old(self).nodes().insert(
                r,
                Node { style, area: Area::spec_new(), widget: None },
            ),
            final(self).wf(),
            old(self).same_shape(final(self)),
            final(self).spec_needs_layout() == old(self).spec_needs_layout(),
    {
        self.nodes.insert(Node::new(style, None))
    }

    /// The parent of `node`, if it has one.
    pub fn parent(&self, node: NodeId) -> (r: Option<NodeId>)
        ensures
            r == if self.parent_map().contains_key(node) {
                Some(self.parent_map()[node])
            } else {
                None
            },
    {
        self.parents.get(node)
    }

    /// The children of `node` in their order, if it has a child list.
    pub fn children(&self, node: NodeId) -> (r: Option<&Vec<NodeId>>)
        ensures
            match r {
                Some(list) => self.child_map().contains_key(node) && list@ == self.child_map()[node],
                None => !self.child_map().contains_key(node),
            },
    {
        self.children.get(node)
    }

    /// Makes `children` the child list of `node`, and `node` the parent of
    /// each of them. An empty list changes nothing.
    ///
    /// This is for building a subtree from the leaves up: for a node that
    /// has no children yet, and children that have no parent yet. Then the
    /// parent entries and the child lists still agree afterwards.
    #[verifier::rlimit(40)]
    pub fn set_node_children(&mut self, node: NodeId, children: Vec<NodeId>)
        requires
            old(self).wf(),
            old(self).nodes().contains_key(node),
            forall|i: int| 0 <= i < children@.len() ==> old(self).nodes().contains_key(#[trigger] children@[i]),
        ensures
            final(self).wf(),
            final(self).nodes() == old(self).nodes(),
            old(self).same_state(final(self)),
            children@.len() == 0 ==> final(self).parent_map() == old(self).parent_map() && final(self).child_map() == old(self).child_map() && final(self).spec_needs_layout() == old(self).spec_needs_layout(),
            children@.len() > 0 ==> final(self).parent_map() == adopted(old(self).parent_map(), node, children@)
                && final(self).child_map() == old(self).child_map().insert(node, children@) && final(self).spec_needs_layout(),
            old(self).spec_linked() && !old(self).child_map().contains_key(node) && (forall|i: int|
                0 <= i < children@.len() ==> !old(self).parent_map().contains_key(#[trigger] children@[i]))
                ==> final(self).spec_linked(),
    {
        if children.len() > 0 {
            let mut i: usize = 0;
            while i < children.len()
                invariant
                    i <= children.len(),
                    self.nodes() == old(self).nodes(),
                    self.child_map() == old(self).child_map(),
                    old(self).same_state(self),
                    self.spec_needs_layout() == old(self).spec_needs_layout(),
                    old(self).wf(),
                    self.wf(),
                    forall|k: int| 0 <= k < children@.len() ==> old(self).nodes().contains_key(#[trigger] children@[k]),
                    self.parent_map() =~= adopted(old(self).parent_map(), node, children@.take(i as int)),
                decreases children.len() - i,
            {
                let child = children[i];
                assert(self.nodes().contains_key(children@[i as int]));
                assert(slot_free(self.parent_map().dom(), child));
                self.parents.insert(child, node);
                proof {
                    let before = children@.take(i as int);
                    let now = children@.take(i + 1);
                    assert(now == before.push(child));
                    assert forall|c: NodeId| now.contains(c) <==> before.contains(c) || c == child by {
                        if now.contains(c) {
                            let k = choose|k: int| 0 <= k < now.len() && now[k] == c;
                            if k < before.len() {
                                assert(before[k] == c);
                            }
                        }
                        if before.contains(c) {
                            let k = choose|k: int| 0 <= k < before.len() && before[k] == c;
                            assert(now[k] == c);
                        }
                        if c == child {
                            assert(now[i as int] == c);
                        }
                    }
                    assert(self.parent_map() =~= adopted(old(self).parent_map(), node, now));
                    assert(self.parent_map().dom().subset_of(self.nodes().dom()));
                }
                i = i + 1;
            }
            assert(children@.take(children@.len() as int) == children@);
            assert(slot_free(self.child_map().dom(), node));
            let ghost list = children@;
            self.children.insert(node, children);
            self.needs_layout = true;
            proof {
                assert(self.child_map().dom().subset_of(self.nodes().dom()));
                if old(self).spec_linked() && !old(self).child_map().contains_key(node) && (forall|i: int|
                    0 <= i < list.len() ==> !old(self).parent_map().contains_key(#[trigger] list[i])) {
                    let parents = self.parent_map();
                    let kids = self.child_map();
                    assert forall|p: NodeId, i: int|
                        #![trigger kids[p][i]]
                        kids.contains_key(p) && 0 <= i < kids[p].len() implies parents.contains_key(kids[p][i])
                        && parents[kids[p][i]] == p by {
                        if p == node {
                            assert(list.contains(list[i]));
                        } else {
                            let c = old(self).child_map()[p][i];
                            assert(old(self).parent_map().contains_key(c));
                            if list.contains(c) {
                                let k = choose|k: int| 0 <= k < list.len() && list[k] == c;
                                assert(!old(self).parent_map().contains_key(list[k]));
                            }
                        }
                    }
                    assert forall|c: NodeId| #[trigger] parents.contains_key(c) implies kids.contains_key(
                        parents[c],
                    ) && kids[parents[c]].contains(c) by {
                        if list.contains(c) {
                        } else {
                            assert(old(self).parent_map().contains_key(c));
                            let q = old(self).parent_map()[c];
                            assert(old(self).child_map().contains_key(q));
                            assert(q != node);
                        }
                    }
                }
            }
        }
    }

    /// Takes every occurrence of `child` out of `list`.
    pub fn take_out(list: &mut Vec<NodeId>, child: NodeId)
        ensures
            final(list)@ == without(old(list)@, child),
    {
        let mut kept: Vec<NodeId> = Vec::new();
        let mut i: usize = 0;
        while i < list.len()
            invariant
                i <= list.len(),
                *list == *old(list),
                kept@ == without(list@.take(i as int), child),
            decreases list.len() - i,
        {
            let item = list[i];
            proof {
                assert(list@.take(i + 1).drop_last() == list@.take(i as int));
                assert(list@.take(i + 1).last() == item);
            }
            if item != child {
                kept.push(item);
            }
            i = i + 1;
        }
        assert(list@.take(list@.len() as int) == list@);
        *list = kept;
    }

    /// Takes `child` out of the child list of `parent`, and removes the
    /// parent entry of `child` if it names `parent`. Asks for a new layout.
    /// Where `parent` has no child list, nothing happens.
    #[verifier::rlimit(40)]
    pub fn remove_child(&mut self, parent: NodeId, child: NodeId)
        requires
            old(self).wf(),
        ensures
            final(self).wf(),
            final(self).nodes() == old(self).nodes(),
            old(self).same_state(final(self)),
            final(self).child_map() == detached(old(self).child_map(), parent, child),
            final(self).parent_map() == if old(self).child_map().contains_key(parent) && old(self).parent_map().contains_key(child) && old(self).parent_map()[child] == parent {
                old(self).parent_map().remove(child)
            } else {
                old(self).parent_map()
            },
            final(self).spec_needs_layout() == (old(self).spec_needs_layout() || old(self).child_map().contains_key(parent)),
            old(self).spec_linked() ==> final(self).spec_linked(),
    {
        match self.children.get_mut(parent) {
            Some(list) => {
                Self::take_out(list, child);
            },
            None => {
                return ;
            },
        }
        assert(self.child_map() =~= detached(old(self).child_map(), parent, child));
        match self.parents.get(child) {
            Some(found) => {
                if found == parent {
                    self.parents.remove(child);
                }
            },
            None => {},
        }
        self.needs_layout = true;
        proof {
            lemma_without(old(self).child_map()[parent], child);
            if old(self).spec_linked() {
                let parents = self.parent_map();
                let kids = self.child_map();
                assert forall|p: NodeId, i: int|
                    #![trigger kids[p][i]]
                    kids.contains_key(p) && 0 <= i < kids[p].len() implies parents.contains_key(kids[p][i])
                    && parents[kids[p][i]] == p by {
                    let c = kids[p][i];
                    if p == parent {
                        assert(kids[p].contains(c));
                        assert(old(self).child_map()[p].contains(c));
                        let k = choose|k: int|
                            0 <= k < old(self).child_map()[p].len() && old(self).child_map()[p][k] == c;
                        assert(old(self).parent_map().contains_key(old(self).child_map()[p][k]));
                    } else {
                        assert(old(self).parent_map().contains_key(old(self).child_map()[p][i]));
                        if c == child {
                            assert(old(self).parent_map()[c] == p);
                        }
                    }
                }
                assert forall|c: NodeId| #[trigger] parents.contains_key(c) implies kids.contains_key(
                    parents[c],
                ) && kids[parents[c]].contains(c) by {
                    assert(old(self).parent_map().contains_key(c));
                    let q = old(self).parent_map()[c];
                    assert(old(self).child_map()[q].contains(c));
                    if q == parent {
                        assert(c != child);
                    }
                }
            }
        }
    }

    /// Makes `child` the last child of `parent`. A child that has a parent
    /// already is taken out of that parent's child list first. Asks for a
    /// new layout.
    #[verifier::rlimit(40)]
    pub fn add_child(&mut self, parent: NodeId, child: NodeId)
        requires
            old(self).wf(),
            old(self).nodes().contains_key(parent),
            old(self).nodes().contains_key(child),
        ensures
            final(self).wf(),
            final(self).nodes() == old(self).nodes(),
            old(self).same_state(final(self)),
            (final(self).parent_map(), final(self).child_map()) == moved(
                old(self).parent_map(),
                old(self).child_map(),
                parent,
                child,
            ),
            final(self).spec_needs_layout(),
            old(self).spec_linked() ==> final(self).spec_linked(),
    {
        match self.parents.get(child) {
            Some(previous) => {
                match self.children.get_mut(previous) {
                    Some(list) => {
                        Self::take_out(list, child);
                    },
                    None => {},
                }
            },
            None => {},
        }
        let ghost loose = self.child_map();
        assert(loose =~= if old(self).parent_map().contains_key(child) {
            detached(old(self).child_map(), old(self).parent_map()[child], child)
        } else {
            old(self).child_map()
        });
        assert(slot_free(self.parent_map().dom(), child));
        self.parents.insert(child, parent);
        match self.children.get_mut(parent) {
            Some(list) => {
                list.push(child);
            },
            None => {
                assert(slot_free(self.child_map().dom(), parent));
                let mut list: Vec<NodeId> = Vec::new();
                list.push(child);
                self.children.insert(parent, list);
            },
        }
        self.needs_layout = true;
        proof {
            assert(self.child_map() =~= attached(loose, parent, child));
            assert(self.parent_map().dom().subset_of(self.nodes().dom()));
            assert(self.child_map().dom().subset_of(self.nodes().dom()));
            if old(self).spec_linked() {
                let parents = self.parent_map();
                let kids = self.child_map();
                let old_parents = old(self).parent_map();
                let old_kids = old(self).child_map();
                if old_parents.contains_key(child) {
                    lemma_without(old_kids[old_parents[child]], child);
                }
                assert forall|c: NodeId| c != child && loose.contains_key(old_parents[c])
                    && #[trigger] old_parents.contains_key(c) implies loose[old_parents[c]].contains(c) by {
                    assert(old_kids[old_parents[c]].contains(c));
                }
                assert forall|p: NodeId, i: int|
                    #![trigger loose[p][i]]
                    loose.contains_key(p) && 0 <= i < loose[p].len() implies old_parents.contains_key(
                        loose[p][i],
                    ) && old_parents[loose[p][i]] == p && loose[p][i] != child by {
                    let c = loose[p][i];
                    assert(loose[p].contains(c));
                    if old_parents.contains_key(child) && p == old_parents[child] {
                        assert(old_kids[p].contains(c));
                        let k = choose|k: int| 0 <= k < old_kids[p].len() && old_kids[p][k] == c;
                        assert(old_parents.contains_key(old_kids[p][k]));
                    } else {
                        assert(old_parents.contains_key(old_kids[p][i]));
                        if c == child {
                            assert(old_parents[child] == p);
                        }
                    }
                }
                assert forall|p: NodeId, i: int|
                    #![trigger kids[p][i]]
                    kids.contains_key(p) && 0 <= i < kids[p].len() implies parents.contains_key(kids[p][i])
                    && parents[kids[p][i]] == p by {
                    if p == parent {
                        if loose.contains_key(parent) && i < loose[parent].len() {
                            assert(kids[p][i] == loose[p][i]);
                            assert(old_parents.contains_key(loose[p][i]));
                        }
                    } else {
                        assert(kids[p][i] == loose[p][i]);
                        assert(old_parents.contains_key(loose[p][i]));
                    }
                }
                assert forall|c: NodeId| #[trigger] parents.contains_key(c) implies kids.contains_key(
                    parents[c],
                ) && kids[parents[c]].contains(c) by {
                    if c == child {
                        assert(kids[parent][kids[parent].len() - 1] == child);
                    } else {
                        assert(old_parents.contains_key(c));
                        let q = old_parents[c];
                        assert(old_kids.contains_key(q));
                        assert(loose.contains_key(q));
                        assert(loose[q].contains(c));
                        let k = choose|k: int| 0 <= k < loose[q].len() && loose[q][k] == c;
                        assert(kids[q][k] == c);
                    }
                }
            }
        }
    }

    /// Lays the tree out if it needs it and draws it from the root: every
    /// visible node, parents before children and children in their order.
    /// Returns the nodes that were drawn, in the order of drawing. The
    /// canvas is asked for what `painted` says of these nodes, and for
    /// nothing if none is drawn.
    pub fn render(&mut self, renderer: &mut Canvas) -> (drawn: Vec<NodeId>)
        ensures
            old(self).wf() ==> final(self).wf(),
            !final(self).spec_needs_layout(),
            old(self).same_shape(final(self)),
            same_widgets(old(self).nodes(), final(self).nodes()),
            drawn@ == paint_order(
                frames(final(self).nodes()),
                final(self).child_map(),
                final(self).spec_root(),
                final(self).nodes().dom().len(),
            ),
            !old(self).spec_needs_layout() ==> frames(final(self).nodes()) == frames(old(self).nodes()),
            drawn@.len() == 0 ==> *final(renderer) == *old(renderer),
            exists|answers: Seq<Seq<Draw>>|
                answers.len() == drawn@.len() && final(renderer).drawn() == #[trigger] painted(
                    frames(final(self).nodes()),
                    drawn@,
                    answers,
                    old(renderer).drawn(),
                ),
    {
        self.layout();
        let ghost laid_out = self.nodes();
        let depth = self.nodes.len();
        let drawn = render_node(self.root, &mut self.nodes, &self.children, renderer, depth);
        proof {
            let answers = choose|answers: Seq<Seq<Draw>>|
                answers.len() == drawn@.len() && renderer.drawn() == #[trigger] painted(
                    frames(laid_out),
                    drawn@,
                    answers,
                    old(renderer).drawn(),
                );
            assert(renderer.drawn() == painted(frames(self.nodes()), drawn@, answers, old(renderer).drawn()));
            assert forall|k: NodeId| #[trigger] old(self).nodes().contains_key(k) implies {
                &&& self.nodes()[k].style == old(self).nodes()[k].style
                &&& (self.nodes()[k].widget is Some <==> old(self).nodes()[k].widget is Some)
            } by {
                assert(laid_out.contains_key(k));
            }
        }
        drawn
    }

    /// Modifies the style of `node` with `f` and asks for a new layout.
    pub fn modify_style<F: FnOnce(Style) -> Style>(&mut self, node: NodeId, f: F)
        requires
            old(self).nodes().contains_key(node),
            call_requires(f, (old(self).nodes()[node].style,)),
        ensures
            old(self).wf() ==> final(self).wf(),
            final(self).nodes().dom() =~= old(self).nodes().dom(),
            call_ensures(f, (old(self).nodes()[node].style,), final(self).nodes()[node].style),
            final(self).nodes()[node].area == old(self).nodes()[node].area,
            final(self).nodes()[node].widget == old(self).nodes()[node].widget,
            forall|other: NodeId|
                other != node && #[trigger] old(self).nodes().contains_key(other) ==> final(self).nodes()[other] == old(self).nodes()[other],
            final(self).spec_needs_layout(),
            old(self).same_shape(final(self)),
    {
        match self.nodes.get_mut(node) {
            Some(found) => {
                found.style = f(found.style);
            },
            None => {},
        }
        self.needs_layout = true;
    }

    /// The nodes that the next input event is offered to, in the order in
    /// which they are asked: the node that grabbed the input and no other,
    /// unless it is hidden or gone; or without a grab the `visit_order` from
    /// the root.
    pub open spec fn targets(&self) -> Seq<NodeId> {
        match self.grabbed() {
            Some(grabber) => if self.nodes().contains_key(grabber) && !self.nodes()[grabber].area.hidden {
                seq![grabber]
            } else {
                Seq::empty()
            },
            None => visit_order(
                frames(self.nodes()),
                self.child_map(),
                self.spec_root(),
                self.nodes().dom().len(),
            ),
        }
    }

    /// The input state and the grab at the end of the delivery of an event
    /// that says `decoded`, before the input state is reset, where the
    /// widgets of the `targets` answer as `answers` says.
    pub open spec fn delivery(&self, decoded: Decoded, answers: Seq<InputAction>) -> (GuiInput, Option<NodeId>) {
        delivered(
            frames(self.nodes()),
            self.targets(),
            answers,
            GuiInput { grabbed: self.grabbed() is Some, ..self.spec_input().spec_apply(decoded) },
            None,
        )
    }

    /// Delivers one input event and returns the queue of what the widgets
    /// asked for, and the event itself unless a node took it.
    ///
    /// The event is taken into the input state and offered to the
    /// `targets`, in their order. A grab lasts for one event: the node that
    /// grabbed the input is offered the next event alone, with `grabbed`
    /// set, and keeps the grab only by answering `Grab` again. Afterwards the
    /// input state is reset, the pointer and the button level staying.
    ///
    /// Whatever the widgets answer, the grab afterwards and whether the
    /// event comes back are what `delivery` makes of their answers: the
    /// event comes back if nothing blocked the pointer. No node that is not
    /// a target changes, and no style, no area and nothing of the shape
    /// changes. Where no target has a widget, no node changes and the queue
    /// comes back empty.
    #[verifier::rlimit(40)]
    pub fn handle_input<K: KeyboardEvent, M: MouseButtonEvent>(&mut self, event: InputEvent<K, M>) -> (r: (
        EventExecutor,
        Option<InputEvent<K, M>>,
    ))
        requires
            old(self).wf(),
        ensures
            final(self).wf(),
            exists|decoded: Decoded, answers: Seq<InputAction>|
                #![trigger old(self).delivery(decoded, answers)]
                {
                    &&& event.decodes_to(decoded)
                    &&& answers.len() == old(self).targets().len()
                    &&& final(self).spec_input() == old(self).spec_input().spec_apply(decoded).spec_reset()
                    &&& final(self).grabbed() == old(self).delivery(decoded, answers).1
                    &&& (r.1 is None <==> old(self).delivery(decoded, answers).0.blocked)
                },
            r.1 is None || r.1 == Some(event),
            frames(final(self).nodes()) == frames(old(self).nodes()),
            keeps_measured(old(self).nodes(), final(self).nodes()),
            forall|other: NodeId|
                !old(self).targets().contains(other) && #[trigger] old(self).nodes().contains_key(other)
                    ==> final(self).nodes()[other] == old(self).nodes()[other],
            final(self).parent_map() == old(self).parent_map(),
            final(self).child_map() == old(self).child_map(),
            final(self).spec_groups() == old(self).spec_groups(),
            final(self).spec_root() == old(self).spec_root(),
            final(self).spec_area() == old(self).spec_area(),
            final(self).spec_needs_layout() == old(self).spec_needs_layout(),
            final(self).spec_exit_requested() == old(self).spec_exit_requested(),
            match final(self).grabbed() {
                Some(grabber) => old(self).targets().contains(grabber),
                None => true,
            },
            old(self).targets().len() == 0 ==> final(self).nodes() == old(self).nodes() && final(self).grabbed() is None && r.0.events().len() == 0 && !r.0.redraw_requested() && r.1 == Some(event),
            no_widget(frames(old(self).nodes()), old(self).targets()) ==> final(self).nodes() == old(self).nodes()
                && r.0.events().len() == 0 && !r.0.redraw_requested(),
    {
        let decoded = event.decode();
        self.input.apply(decoded);
        let mut executor = EventExecutor::new();
        let depth = self.nodes.len();
        let grabbed = self.grabbed_node;
        self.grabbed_node = None;
        let ghost mut answers: Seq<InputAction> = Seq::empty();
        let ghost start = GuiInput {
            grabbed: old(self).grabbed() is Some,
            ..old(self).spec_input().spec_apply(decoded)
        };
        match grabbed {
            Some(id) => {
                self.input.grabbed = true;
                let visible = match self.nodes.get(id) {
                    Some(node) => !node.area.hidden,
                    None => false,
                };
                if visible {
                    assert(old(self).targets()[0] == id);
                    let answer = offer(
                        &mut self.nodes,
                        id,
                        &mut self.input,
                        &mut self.grabbed_node,
                        &mut executor,
                    );
                    proof {
                        let action = match answer {
                            Some(action) => action,
                            None => InputAction::Pass,
                        };
                        answers = seq![action];
                        assert(answers.drop_last() == Seq::<InputAction>::empty());
                        assert(delivered(
                            frames(old(self).nodes()),
                            old(self).targets(),
                            answers.drop_last(),
                            start,
                            None,
                        ) == (start, None::<NodeId>));
                    }
                }
            },
            None => {
                dispatch_input_event(
                    self.root,
                    &mut self.nodes,
                    &self.children,
                    &mut self.input,
                    &mut self.grabbed_node,
                    &mut executor,
                    depth,
                );
                proof {
                    answers = choose|answers: Seq<InputAction>|
                        answers.len() == old(self).targets().len() && #[trigger] delivered(
                            frames(old(self).nodes()),
                            old(self).targets(),
                            answers,
                            start,
                            None,
                        ) == (self.spec_input(), self.grabbed());
                }
            },
        }
        assert(old(self).delivery(decoded, answers) == (self.spec_input(), self.grabbed()));
        let unhandled_event = if self.input.blocked {
            None
        } else {
            Some(event)
        };
        self.input.reset();
        (executor, unhandled_event)
    }

    /// Deletes everything under `parent`: its child list, the nodes in it,
    /// and what is under them. Asks for a new layout if there was a child
    /// list. The node `parent` itself stays.
    #[verifier::rlimit(40)]
    pub fn delete_children(&mut self, parent: NodeId)
        requires
            old(self).wf(),
        ensures
            final(self).wf(),
            old(self).same_state(final(self)),
            pruned(old(self).topology(), final(self).topology(), parent),
            final(self).spec_needs_layout() == (old(self).spec_needs_layout() || old(self).child_map().contains_key(parent)),
            old(self).spec_linked() ==> final(self).spec_linked(),
        decreases old(self).child_map().dom().len(),
    {
        let ghost before = self.topology();
        match self.children.remove(parent) {
            Some(list) => {
                proof {
                    assert(self.child_map().dom() =~= before.children.dom().remove(parent));
                    lemma_pruning_start(before, self.topology(), parent);
                }
                let mut i: usize = 0;
                while i < list.len()
                    invariant
                        i <= list.len(),
                        list@ == before.children[parent],
                        before == old(self).topology(),
                        old(self).wf(),
                        self.wf(),
                        old(self).same_state(self),
                        before.children.contains_key(parent),
                        self.child_map().dom().subset_of(before.children.dom().remove(parent)),
                        pruning(before, self.topology(), parent, i as int),
                    decreases list.len() - i,
                {
                    let child = list[i];
                    let ghost s0 = self.topology();
                    proof {
                        vstd::set_lib::lemma_len_subset(
                            self.child_map().dom(),
                            before.children.dom().remove(parent),
                        );
                    }
                    self.delete_children(child);
                    let ghost s1 = self.topology();
                    self.parents.remove(child);
                    self.nodes.remove(child);
                    proof {
                        let s2 = self.topology();
                        assert(s2.nodes =~= s1.nodes.remove(child));
                        assert(s2.parents =~= s1.parents.remove(child));
                        lemma_pruning_step(before, s0, s1, s2, parent, i as int);
                    }
                    i = i + 1;
                }
                self.needs_layout = true;
                proof {
                    lemma_pruning_end(before, self.topology(), parent);
                }
            },
            None => {
                proof {
                    assert(self.child_map() =~= before.children);
                }
            },
        }
        proof {
            if old(self).spec_linked() {
                lemma_pruned_linked(before, self.topology(), parent);
            }
        }
    }

    /// Deletes the node `node` and everything under it.
    ///
    /// The node is unhooked from its parent first. Then what is under it is
    /// pruned as by `delete_children`, and the node itself goes. A new
    /// layout is asked for if the node was in a parent's list or had a child
    /// list.
    #[verifier::rlimit(40)]
    pub fn delete(&mut self, node: NodeId)
        requires
            old(self).wf(),
        ensures
            final(self).wf(),
            old(self).same_state(final(self)),
            deleted(old(self).topology(), final(self).topology(), node),
            final(self).spec_needs_layout() == (old(self).spec_needs_layout() || (old(self).parent_map().contains_key(node) && old(self).child_map().contains_key(
                old(self).parent_map()[node],
            )) || unhooked(old(self).topology(), node).children.contains_key(node)),
            old(self).spec_linked() ==> final(self).spec_linked(),
    {
        let ghost before = self.topology();
        match self.parents.remove(node) {
            Some(parent) => {
                match self.children.get_mut(parent) {
                    Some(list) => {
                        Self::take_out(list, node);
                        self.needs_layout = true;
                    },
                    None => {},
                }
            },
            None => {},
        }
        let ghost loose = self.topology();
        proof {
            assert(loose.children =~= unhooked(before, node).children);
            assert(loose == unhooked(before, node));
            if before.parents.contains_key(node) && before.children.contains_key(before.parents[node]) {
                lemma_without(before.children[before.parents[node]], node);
            }
            if old(self).spec_linked() {
                let parents = loose.parents;
                let kids = loose.children;
                assert forall|p: NodeId, i: int|
                    #![trigger kids[p][i]]
                    kids.contains_key(p) && 0 <= i < kids[p].len() implies parents.contains_key(kids[p][i])
                    && parents[kids[p][i]] == p by {
                    let c = kids[p][i];
                    if before.parents.contains_key(node) && p == before.parents[node] {
                        assert(kids[p].contains(c));
                        assert(before.children[p].contains(c));
                        let k = choose|k: int| 0 <= k < before.children[p].len() && before.children[p][k] == c;
                        assert(before.parents.contains_key(before.children[p][k]));
                    } else {
                        assert(before.parents.contains_key(before.children[p][i]));
                        if c == node {
                            assert(before.parents[c] == p);
                        }
                    }
                }
                assert forall|c: NodeId| #[trigger] parents.contains_key(c) implies kids.contains_key(
                    parents[c],
                ) && kids[parents[c]].contains(c) by {
                    assert(before.parents.contains_key(c));
                    let q = before.parents[c];
                    assert(before.children[q].contains(c));
                }
                assert(linked(loose.parents, loose.children));
            }
        }
        self.delete_children(node);
        let ghost bare = self.topology();
        self.nodes.remove(node);
        proof {
            let after = self.topology();
            assert(after.nodes =~= bare.nodes.remove(node));
            assert(after.parents == bare.parents && after.children == bare.children);
            assert(!after.parents.contains_key(node)) by {
                if bare.parents.dom().contains(node) {
                    assert(loose.parents.dom().contains(node));
                }
            }
            assert(within(loose, after)) by {
                assert(within(loose, bare));
                assert forall|k: NodeId| #[trigger] after.nodes.dom().contains(k) implies loose.nodes.dom().contains(
                    k,
                ) && after.nodes[k] == loose.nodes[k] by {
                    assert(bare.nodes.dom().contains(k));
                    assert(after.nodes[k] == bare.nodes[k]);
                    assert(loose.nodes.dom().contains(k));
                    assert(bare.nodes[k] == loose.nodes[k]);
                }
            }
            assert forall|other: NodeId| in_dropped_list(loose, bare, other) implies in_dropped_list(
                loose,
                after,
                other,
            ) by {
                let owner = choose|owner: NodeId|
                    #![trigger loose.children[owner]]
                    loose.children.contains_key(owner) && !bare.children.contains_key(owner)
                        && loose.children[owner].contains(other);
                assert(!after.children.contains_key(owner));
            }
            assert forall|owner: NodeId, i: int|
                #![trigger loose.children[owner][i]]
                loose.children.contains_key(owner) && !after.children.contains_key(owner) && 0 <= i
                    < loose.children[owner].len() implies gone(after, loose.children[owner][i]) by {
                assert(gone(bare, loose.children[owner][i]));
            }
            assert(self.parent_map().dom().subset_of(self.nodes().dom()));
            assert(self.child_map().dom().subset_of(self.nodes().dom()));
            if old(self).spec_linked() {
                lemma_pruned_linked(loose, bare, node);
            }
        }
    }

    /// Deletes every node and starts over with a new root, as `new` makes
    /// it. Asks for a new layout. The groups and the input state stay.
    pub fn clear(&mut self)
        requires
            old(self).wf(),
        ensures
            final(self).wf(),
            final(self).spec_linked(),
            final(self).nodes().dom() =~= set![final(self).spec_root()],
            final(self).nodes()[final(self).spec_root()].style == Style::spec_default(),
            final(self).nodes()[final(self).spec_root()].area == Area::spec_new(),
            final(self).nodes()[final(self).spec_root()].widget is None,
            final(self).parent_map() == Map::<NodeId, NodeId>::empty(),
            final(self).child_map() == Map::<NodeId, Seq<NodeId>>::empty(),
            final(self).spec_groups() == old(self).spec_groups(),
            final(self).spec_input() == old(self).spec_input(),
            final(self).grabbed() == old(self).grabbed(),
            final(self).spec_area() == old(self).spec_area(),
            final(self).spec_exit_requested() == old(self).spec_exit_requested(),
            final(self).spec_needs_layout(),
    {
        self.nodes.clear();
        self.parents.clear();
        self.children.clear();
        self.root = self.nodes.insert(Node::default());
        self.needs_layout = true;
    }

    /// The button at `node`, if there is a node and its widget is a button.
    pub open spec fn button_at(&self, node: NodeId) -> Option<Button> {
        if self.nodes().contains_key(node) {
            button_of(self.nodes()[node])
        } else {
            None
        }
    }

    /// Whether `after` is `self` but for the widgets.
    pub open spec fn same_but_widgets(&self, after: &Gui) -> bool {
        &&& self.same_shape(after)
        &&& after.spec_needs_layout() == self.spec_needs_layout()
        &&& frames(after.nodes()) == frames(self.nodes())
        &&& keeps_measured(self.nodes(), after.nodes())
    }

    /// The widget of `node`, if there is a node and it has one.
    pub fn get_widget(&self, node: NodeId) -> (r: Option<&Box<dyn Widget>>)
        ensures
            match r {
                Some(widget) => self.nodes().contains_key(node) && self.nodes()[node].widget == Some(*widget),
                None => !self.nodes().contains_key(node) || self.nodes()[node].widget is None,
            },
    {
        match self.nodes.get(node) {
            Some(found) => match &found.widget {
                Some(widget) => Some(widget),
                None => None,
            },
            None => None,
        }
    }

    /// The widget of `node`, if there is a node and it has one, to be
    /// changed in place. Nothing else changes.
    pub fn get_widget_mut(&mut self, node: NodeId) -> (r: Option<&mut Box<dyn Widget>>)
        ensures
            match r {
                Some(widget) => {
                    &&& old(self).nodes().contains_key(node)
                    &&& old(self).nodes()[node].widget == Some(*widget)
                    &&& final(self).nodes().dom() =~= old(self).nodes().dom()
                    &&& final(self).nodes()[node].widget == Some(*final(widget))
                    &&& final(self).nodes()[node].style == old(self).nodes()[node].style
                    &&& final(self).nodes()[node].area == old(self).nodes()[node].area
                    &&& forall|other: NodeId|
                        other != node && #[trigger] old(self).nodes().contains_key(other) ==> final(self).nodes()[other] == old(self).nodes()[other]
                    &&& old(self).same_shape(final(self))
                    &&& final(self).spec_needs_layout() == old(self).spec_needs_layout()
                },
                None => (!old(self).nodes().contains_key(node) || old(self).nodes()[node].widget is None)
                    && final(self).nodes() == old(self).nodes() && old(self).same_shape(final(self))
                    && final(self).spec_needs_layout() == old(self).spec_needs_layout(),
            },
    {
        match self.nodes.get_mut(node) {
            Some(found) => match &mut found.widget {
                Some(widget) => Some(widget),
                None => None,
            },
            None => None,
        }
    }

    /// The button at `node`, if there is one.
    pub fn get_button(&self, node: NodeId) -> (r: Option<&Button>)
        ensures
            match r {
                Some(button) => self.button_at(node) == Some(*button),
                None => self.button_at(node) is None,
            },
    {
        match self.nodes.get(node) {
            Some(found) => match &found.widget {
                Some(widget) => widget.as_button(),
                None => None,
            },
            None => None,
        }
    }

    /// Sets the toggle of the button at `node`. Where there is no button,
    /// nothing happens.
    pub fn set_button_toggled(&mut self, node: NodeId, toggled: bool)
        ensures
            old(self).wf() ==> final(self).wf(),
            old(self).same_but_widgets(final(self)),
            forall|other: NodeId|
                other != node && #[trigger] old(self).nodes().contains_key(other) ==> final(self).nodes()[other] == old(self).nodes()[other],
            final(self).button_at(node) == match old(self).button_at(node) {
                Some(button) => Some(Button { toggled, ..button }),
                None => None,
            },
    {
        match self.nodes.get_mut(node) {
            Some(found) => {
                match &mut found.widget {
                    Some(widget) => {
                        match widget.as_button_mut() {
                            Some(button) => {
                                button.set_toggled(toggled);
                            },
                            None => {},
                        }
                    },
                    None => {},
                }
                proof {
                    crate::layout::lemma_frames_insert(old(self).nodes(), node, *found);
                    assert(frames(old(self).nodes()).insert(node, crate::layout::frame_of(*found)) =~= frames(
                        old(self).nodes(),
                    ));
                }
            },
            None => {},
        }
    }

    /// Enables or disables the button at `node`. Where there is no button,
    /// nothing happens.
    pub fn set_button_enabled(&mut self, node: NodeId, enabled: bool)
        ensures
            old(self).wf() ==> final(self).wf(),
            old(self).same_but_widgets(final(self)),
            forall|other: NodeId|
                other != node && #[trigger] old(self).nodes().contains_key(other) ==> final(self).nodes()[other] == old(self).nodes()[other],
            final(self).button_at(node) == match old(self).button_at(node) {
                Some(button) => Some(button.spec_set_enabled(enabled)),
                None => None,
            },
    {
        match self.nodes.get_mut(node) {
            Some(found) => {
                match &mut found.widget {
                    Some(widget) => {
                        match widget.as_button_mut() {
                            Some(button) => {
                                button.set_enabled(enabled);
                            },
                            None => {},
                        }
                    },
                    None => {},
                }
                proof {
                    crate::layout::lemma_frames_insert(old(self).nodes(), node, *found);
                    assert(frames(old(self).nodes()).insert(node, crate::layout::frame_of(*found)) =~= frames(
                        old(self).nodes(),
                    ));
                }
            },
            None => {},
        }
    }

    /// Registers `group` with the tree and returns the name under which its
    /// members refer to it.
    pub fn add_group(&mut self, group: ExclusiveGroup) -> (r: GroupId)
        ensures
            old(self).wf() ==> final(self).wf(),
            r.index == old(self).spec_groups().len(),
            final(self).spec_groups() == old(self).spec_groups().push(group),
            final(self).nodes() == old(self).nodes(),
            final(self).parent_map() == old(self).parent_map(),
            final(self).child_map() == old(self).child_map(),
            final(self).spec_root() == old(self).spec_root(),
            final(self).spec_input() == old(self).spec_input(),
            final(self).grabbed() == old(self).grabbed(),
            final(self).spec_area() == old(self).spec_area(),
            final(self).spec_exit_requested() == old(self).spec_exit_requested(),
            final(self).spec_needs_layout() == old(self).spec_needs_layout(),
    {
        let index = self.groups.len();
        self.groups.push(group);
        GroupId { index }
    }

    /// Makes `button` the next member of the group `id`. Without such a
    /// group nothing happens.
    pub fn join_group(&mut self, id: GroupId, button: NodeId)
        ensures
            old(self).wf() ==> final(self).wf(),
            final(self).nodes() == old(self).nodes(),
            final(self).parent_map() == old(self).parent_map(),
            final(self).child_map() == old(self).child_map(),
            final(self).spec_root() == old(self).spec_root(),
            final(self).spec_input() == old(self).spec_input(),
            final(self).grabbed() == old(self).grabbed(),
            final(self).spec_area() == old(self).spec_area(),
            final(self).spec_exit_requested() == old(self).spec_exit_requested(),
            final(self).spec_needs_layout() == old(self).spec_needs_layout(),
            final(self).spec_groups().len() == old(self).spec_groups().len(),
            forall|i: int|
                0 <= i < old(self).spec_groups().len() && i != id.index ==> final(self).spec_groups()[i]
                    == #[trigger] old(self).spec_groups()[i],
            id.index < old(self).spec_groups().len() ==> {
                &&& final(self).spec_groups()[id.index as int].members() == old(self).spec_groups()[id.index as int].members().push(
                    button,
                )
                &&& final(self).spec_groups()[id.index as int].spec_allow_deselect() == old(self).spec_groups()[id.index as int].spec_allow_deselect()
                &&& final(self).spec_groups()[id.index as int].spec_on_selected() == old(self).spec_groups()[id.index as int].spec_on_selected()
            },
    {
        if id.index < self.groups.len() {
            self.groups[id.index].join(button);
        }
    }

    /// The group registered as `id`, if there is one.
    pub fn get_group(&self, id: GroupId) -> (r: Option<&ExclusiveGroup>)
        ensures
            match r {
                Some(group) => id.index < self.spec_groups().len() && *group == self.spec_groups()[id.index as int],
                None => id.index >= self.spec_groups().len(),
            },
    {
        if id.index < self.groups.len() {
            Some(&self.groups[id.index])
        } else {
            None
        }
    }

    /// Whether `after` is `self` with the toggle cleared of every member of
    /// the group `group` but the one at position `index`. A member that is
    /// no button is as it was, and so is everything that is no member.
    /// Without such a group nothing differs.
    pub open spec fn deselected(&self, after: &Gui, group: GroupId, index: usize) -> bool {
        &&& self.wf() ==> after.wf()
        &&& self.same_but_widgets(after)
        &&& group.index >= self.spec_groups().len() ==> after.nodes() == self.nodes()
        &&& group.index < self.spec_groups().len() ==> forall|node: NodeId| #[trigger]
            self.nodes().contains_key(node) ==> if other_member(
                self.spec_groups()[group.index as int].members(),
                index,
                node,
            ) {
                after.button_at(node) == untoggled(self.button_at(node))
            } else {
                after.nodes()[node] == self.nodes()[node]
            }
    }

    /// Clears the toggle of every member of the group `group` but the one at
    /// position `index`, as `deselected` says.
    #[verifier::rlimit(40)]
    pub fn deselect_others(&mut self, group: GroupId, index: usize)
        ensures
            old(self).deselected(final(self), group, index),
    {
        if group.index >= self.groups.len() {
            return ;
        }
        let count = self.groups[group.index].len();
        let ghost members = self.groups[group.index as int].members();
        let mut j: usize = 0;
        while j < count
            invariant
                j <= count,
                group.index < self.groups.len(),
                count == members.len(),
                members == self.spec_groups()[group.index as int].members(),
                self.spec_groups() == old(self).spec_groups(),
                old(self).same_but_widgets(self),
                forall|node: NodeId| #[trigger]
                    old(self).nodes().contains_key(node) ==> if other_member(
                        members.take(j as int),
                        index,
                        node,
                    ) {
                        self.button_at(node) == untoggled(old(self).button_at(node))
                    } else {
                        self.nodes()[node] == old(self).nodes()[node]
                    },
            decreases count - j,
        {
            let ghost before = self.nodes();
            let ghost seen = members.take(j as int);
            let ghost now = members.take(j + 1);
            if j != index {
                let member = self.groups[group.index].member(j);
                self.set_button_toggled(member, false);
                proof {
                    crate::layout::lemma_keeps_measured_trans(old(self).nodes(), before, self.nodes());
                    assert(now[j as int] == member);
                    assert(other_member(now, index, member));
                    assert forall|node: NodeId| #[trigger] old(self).nodes().contains_key(node) implies if other_member(
                        now,
                        index,
                        node,
                    ) {
                        self.button_at(node) == untoggled(old(self).button_at(node))
                    } else {
                        self.nodes()[node] == old(self).nodes()[node]
                    } by {
                        assert(before.contains_key(node));
                        if other_member(seen, index, node) {
                            let k = choose|k: int| 0 <= k < seen.len() && k != index && #[trigger] seen[k] == node;
                            assert(now[k] == node);
                        }
                        if other_member(now, index, node) && node != member {
                            let k = choose|k: int| 0 <= k < now.len() && k != index && #[trigger] now[k] == node;
                            assert(seen[k] == node);
                        }
                    }
                }
            } else {
                proof {
                    assert forall|node: NodeId| other_member(now, index, node) <==> other_member(
                        seen,
                        index,
                        node,
                    ) by {
                        if other_member(seen, index, node) {
                            let k = choose|k: int| 0 <= k < seen.len() && k != index && #[trigger] seen[k] == node;
                            assert(now[k] == node);
                        }
                        if other_member(now, index, node) {
                            let k = choose|k: int| 0 <= k < now.len() && k != index && #[trigger] now[k] == node;
                            assert(seen[k] == node);
                        }
                    }
                }
            }
            j = j + 1;
        }
        assert(members.take(count as int) == members);
    }

    /// Lays the tree out if anything changed since the last layout, and not
    /// otherwise: a second call right after the first changes nothing.
    ///
    /// A layout measures the root with the size of the area on offer, and
    /// then arranges it in the area: whatever the widgets answer, the frames
    /// afterwards are those that `node_arrange` makes of what `node_measure`
    /// makes of their answers.
    pub fn layout(&mut self)
        ensures
            old(self).wf() ==> final(self).wf(),
            !final(self).spec_needs_layout(),
            !old(self).spec_needs_layout() ==> *final(self) == *old(self),
            old(self).same_shape(final(self)),
            same_widgets(old(self).nodes(), final(self).nodes()),
            old(self).spec_needs_layout() ==> exists|answers: Answers|
                (#[trigger] node_measure(
                    frames(old(self).nodes()),
                    old(self).child_map(),
                    old(self).spec_root(),
                    old(self).spec_area().size,
                    old(self).nodes().dom().len(),
                    answers,
                )).complete && frames(final(self).nodes()) == node_arrange(
                    node_measure(
                        frames(old(self).nodes()),
                        old(self).child_map(),
                        old(self).spec_root(),
                        old(self).spec_area().size,
                        old(self).nodes().dom().len(),
                        answers,
                    ).frames,
                    old(self).child_map(),
                    old(self).spec_root(),
                    old(self).spec_area(),
                    old(self).nodes().dom().len(),
                ),
    {
        if self.needs_layout {
            measure_and_layout(&mut self.nodes, &self.children, self.root, self.layout_area);
            self.needs_layout = false;
        }
    }
}

/// In a tree whose parent entries and child lists agree, every handle in a
/// child list has a node: the walks meet no handle without one.
pub proof fn lemma_linked_children_present(gui: Gui)
    requires
        gui.wf(),
        gui.spec_linked(),
    ensures
        crate::depth::children_present(frames(gui.nodes()), gui.child_map()),
        frames(gui.nodes()).dom().finite(),
        frames(gui.nodes()).dom().len() == gui.nodes().dom().len(),
{
    let ch = gui.child_map();
    assert(frames(gui.nodes()).dom() =~= gui.nodes().dom());
    assert forall|p: NodeId, i: int|
        #![trigger ch[p][i]]
        ch.contains_key(p) && 0 <= i < ch[p].len() implies frames(gui.nodes()).contains_key(ch[p][i]) by {
        assert(gui.parent_map().contains_key(ch[p][i]));
        assert(gui.parent_map().dom().contains(ch[p][i]));
    }
}

/// A grab lasts for one event.
///
/// Let a widget have the grab. The next event, whatever it says, is offered
/// to its node alone. If the widget answers it with `Grab`, it has the grab
/// for the event after that too. If it answers with anything else, nobody
/// has the grab afterwards, and the event after that goes the ordinary way
/// from the root.
pub proof fn lemma_grab_lasts_one_event(gui: Gui, id: NodeId, decoded: Decoded, answer: InputAction)
    requires
        gui.wf(),
        gui.grabbed() == Some(id),
        gui.nodes().contains_key(id),
        !gui.nodes()[id].area.hidden,
        gui.nodes()[id].widget is Some,
    ensures
        gui.targets() == seq![id],
        gui.delivery(decoded, seq![answer]).1 == if answer == InputAction::Grab {
            Some(id)
        } else {
            None
        },
        gui.delivery(decoded, seq![answer]).0.blocked == (answer != InputAction::Pass),
{
    let answers = seq![answer];
    let start = GuiInput { grabbed: true, ..gui.spec_input().spec_apply(decoded) };
    assert(answers.drop_last() == Seq::<InputAction>::empty());
    assert(delivered(frames(gui.nodes()), gui.targets(), answers.drop_last(), start, None) == (
        start,
        None::<NodeId>,
    ));
    assert(!gui.spec_input().blocked);
}

} // verus!
