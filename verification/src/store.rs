//! Storage for the nodes and for the two maps that hold the shape of the
//! tree, kept in the slot map and the secondary maps of the `slotmap` crate.
//!
//! Verus does not look inside these collections. Each is held in a struct
//! that is opaque to it, what the collection holds has a name, and the
//! functions of this file say over those names what the methods of `slotmap`
//! do. None of these statements is proved: they are read off the source of
//! `slotmap`.

use vstd::prelude::*;
use crate::widget::Node;

verus! {

/// The handle of a node: the key that the slot map gave it, as the 64-bit
/// value that `slotmap::KeyData::as_ffi` makes of a key. The low 32 bits are
/// the index of the slot, the high 32 bits the version of the slot at the
/// time of the insertion. A slot's version is odd while the slot is taken,
/// so the version in a handle is odd.
#[derive(Clone, Copy, PartialEq, Eq, Structural, Debug, Hash)]
pub struct NodeId {
    raw: u64,
}

impl NodeId {
    #[verifier::type_invariant]
    spec fn odd_version(self) -> bool {
        (self.raw / 0x1_0000_0000) % 2 == 1
    }

    /// The index of the slot that the handle points to.
    pub closed spec fn slot(self) -> int {
        self.raw as int % 0x1_0000_0000
    }

    /// Whether this is the handle that points to no slot.
    pub open spec fn spec_is_null(self) -> bool {
        self.slot() == 0xffff_ffff
    }

    /// The handle that a slot map never gives out.
    pub fn null() -> (r: NodeId)
        ensures
            r.spec_is_null(),
    {
        NodeId { raw: 0x1_ffff_ffff }
    }

    pub fn is_null(&self) -> (r: bool)
        ensures
            r == self.spec_is_null(),
    {
        self.raw % 0x1_0000_0000 == 0xffff_ffff
    }
}

/// The slot map that owns the nodes.
#[verifier::external_body]
pub struct NodeStore {
    slots: slotmap::SlotMap<slotmap::DefaultKey, Node>,
}

/// The secondary map from a node to its parent.
#[verifier::external_body]
pub struct ParentMap {
    slots: slotmap::SecondaryMap<slotmap::DefaultKey, NodeId>,
}

/// The secondary map from a node to the ordered list of its children.
#[verifier::external_body]
pub struct ChildMap {
    slots: slotmap::SecondaryMap<slotmap::DefaultKey, Vec<NodeId>>,
}

/// The nodes that a store holds, each under its handle.
pub uninterp spec fn nodes_of(store: NodeStore) -> Map<NodeId, Node>;

/// The parent entries that a map holds: child to parent.
pub uninterp spec fn parents_of(map: ParentMap) -> Map<NodeId, NodeId>;

/// The child entries that a map holds: parent to the list of its children.
pub uninterp spec fn children_of(map: ChildMap) -> Map<NodeId, Seq<NodeId>>;

/// Whether a secondary map with the keys `keys` takes `key` as a key of its
/// own: `key` is not null, and no other key in the map points to the same
/// slot. (A secondary map keeps one entry per slot. Of two keys to one slot
/// it keeps the one with the newer version, silently.)
pub open spec fn slot_free(keys: Set<NodeId>, key: NodeId) -> bool {
    &&& !key.spec_is_null()
    &&& forall|k: NodeId| #[trigger] keys.contains(k) && k.slot() == key.slot() ==> k == key
}

/// The map without entries.
pub open spec fn no_entries<V>() -> Map<NodeId, V> {
    Map::empty()
}

/// Whether `keys` is a finite set of `count` handles.
pub open spec fn counts(keys: Set<NodeId>, count: usize) -> bool {
    keys.finite() && keys.len() == count
}

impl NodeStore {
    /// `SlotMap::new`: a slot map without elements.
    #[verifier::external_body]
    pub(crate) fn new() -> (r: NodeStore)
        ensures
            nodes_of(r) == no_entries::<Node>(),
    {
        NodeStore { slots: slotmap::SlotMap::new() }
    }

    /// `SlotMap::len`: the number of elements. A slot map holds finitely
    /// many.
    #[verifier::external_body]
    pub(crate) fn len(&self) -> (r: usize)
        ensures
            counts(nodes_of(*self).dom(), r),
    {
        self.slots.len()
    }

    /// `SlotMap::insert`: stores `node` in a free slot and returns the key to
    /// it. The key was not in the map, is not null, and points to a slot
    /// that no other key in the map points to. `SlotMap::insert` panics when
    /// every slot that a 32-bit index can reach is taken; `requires` leaves
    /// that out.
    #[verifier::external_body]
    pub(crate) fn insert(&mut self, node: Node) -> (r: NodeId)
        requires
            nodes_of(*old(self)).dom().len() < 0xffff_fffe,
        ensures
            !nodes_of(*old(self)).contains_key(r),
            nodes_of(*final(self)) == nodes_of(*old(self)).insert(r, node),
            slot_free(nodes_of(*old(self)).dom(), r),
    {
        NodeId { raw: slotmap::Key::data(&self.slots.insert(node)).as_ffi() }
    }

    /// `SlotMap::remove`: takes the element under `id` out of the map and
    /// returns it, if there is one.
    #[verifier::external_body]
    pub(crate) fn remove(&mut self, id: NodeId) -> (r: Option<Node>)
        ensures
            nodes_of(*final(self)) == nodes_of(*old(self)).remove(id),
            r == if nodes_of(*old(self)).contains_key(id) {
                Some(nodes_of(*old(self))[id])
            } else {
                None
            },
    {
        self.slots.remove(slotmap::KeyData::from_ffi(id.raw).into())
    }

    /// `SlotMap::clear`: the map without its elements.
    #[verifier::external_body]
    pub(crate) fn clear(&mut self)
        ensures
            nodes_of(*final(self)) == no_entries::<Node>(),
    {
        self.slots.clear()
    }

    /// `SlotMap::contains_key`.
    #[verifier::external_body]
    pub(crate) fn contains(&self, id: NodeId) -> (r: bool)
        ensures
            r == nodes_of(*self).contains_key(id),
    {
        self.slots.contains_key(slotmap::KeyData::from_ffi(id.raw).into())
    }

    /// `SlotMap::get`: the element under `id`, if there is one.
    #[verifier::external_body]
    pub(crate) fn get(&self, id: NodeId) -> (r: Option<&Node>)
        ensures
            match r {
                Some(node) => nodes_of(*self).contains_key(id) && *node == nodes_of(*self)[id],
                None => !nodes_of(*self).contains_key(id),
            },
    {
        self.slots.get(slotmap::KeyData::from_ffi(id.raw).into())
    }

    /// `SlotMap::get_mut`: the element under `id`, if there is one, to be
    /// changed in place. No other element changes.
    #[verifier::external_body]
    pub(crate) fn get_mut(&mut self, id: NodeId) -> (r: Option<&mut Node>)
        ensures
            match r {
                Some(node) => nodes_of(*old(self)).contains_key(id) && *node == nodes_of(*old(self))[id]
                    && nodes_of(*final(self)) == nodes_of(*old(self)).insert(id, *final(node)),
                None => !nodes_of(*old(self)).contains_key(id) && nodes_of(*final(self)) == nodes_of(
                    *old(self),
                ),
            },
    {
        self.slots.get_mut(slotmap::KeyData::from_ffi(id.raw).into())
    }
}

impl ParentMap {
    /// `SecondaryMap::new`: a secondary map without entries.
    #[verifier::external_body]
    pub(crate) fn new() -> (r: ParentMap)
        ensures
            parents_of(r) == no_entries::<NodeId>(),
    {
        ParentMap { slots: slotmap::SecondaryMap::new() }
    }

    /// `SecondaryMap::insert`, for a key that the map takes as its own:
    /// stores `parent` under `child` and returns what was there.
    #[verifier::external_body]
    pub(crate) fn insert(&mut self, child: NodeId, parent: NodeId) -> (r: Option<NodeId>)
        requires
            slot_free(parents_of(*old(self)).dom(), child),
        ensures
            parents_of(*final(self)) == parents_of(*old(self)).insert(child, parent),
            r == if parents_of(*old(self)).contains_key(child) {
                Some(parents_of(*old(self))[child])
            } else {
                None
            },
    {
        self.slots.insert(slotmap::KeyData::from_ffi(child.raw).into(), parent)
    }

    /// `SecondaryMap::remove`: takes the entry under `child` out of the map
    /// and returns its value, if there is one.
    #[verifier::external_body]
    pub(crate) fn remove(&mut self, child: NodeId) -> (r: Option<NodeId>)
        ensures
            parents_of(*final(self)) == parents_of(*old(self)).remove(child),
            r == if parents_of(*old(self)).contains_key(child) {
                Some(parents_of(*old(self))[child])
            } else {
                None
            },
    {
        self.slots.remove(slotmap::KeyData::from_ffi(child.raw).into())
    }

    /// `SecondaryMap::get`, copied out: the value under `child`, if there is
    /// one.
    #[verifier::external_body]
    pub(crate) fn get(&self, child: NodeId) -> (r: Option<NodeId>)
        ensures
            r == if parents_of(*self).contains_key(child) {
                Some(parents_of(*self)[child])
            } else {
                None
            },
    {
        self.slots.get(slotmap::KeyData::from_ffi(child.raw).into()).copied()
    }

    /// `SecondaryMap::clear`: the map without its entries.
    #[verifier::external_body]
    pub(crate) fn clear(&mut self)
        ensures
            parents_of(*final(self)) == no_entries::<NodeId>(),
    {
        self.slots.clear()
    }
}

impl ChildMap {
    /// `SecondaryMap::new`: a secondary map without entries.
    #[verifier::external_body]
    pub(crate) fn new() -> (r: ChildMap)
        ensures
            children_of(r) == no_entries::<Seq<NodeId>>(),
    {
        ChildMap { slots: slotmap::SecondaryMap::new() }
    }

    /// `SecondaryMap::insert`, for a key that the map takes as its own:
    /// stores `list` under `parent` and returns what was there.
    #[verifier::external_body]
    pub(crate) fn insert(&mut self, parent: NodeId, list: Vec<NodeId>) -> (r: Option<Vec<NodeId>>)
        requires
            slot_free(children_of(*old(self)).dom(), parent),
        ensures
            children_of(*final(self)) == children_of(*old(self)).insert(parent, list@),
            match r {
                Some(before) => children_of(*old(self)).contains_key(parent) && before@ == children_of(
                    *old(self),
                )[parent],
                None => !children_of(*old(self)).contains_key(parent),
            },
    {
        self.slots.insert(slotmap::KeyData::from_ffi(parent.raw).into(), list)
    }

    /// `SecondaryMap::remove`: takes the entry under `parent` out of the map
    /// and returns its list, if there is one.
    #[verifier::external_body]
    pub(crate) fn remove(&mut self, parent: NodeId) -> (r: Option<Vec<NodeId>>)
        ensures
            children_of(*final(self)) == children_of(*old(self)).remove(parent),
            match r {
                Some(before) => children_of(*old(self)).contains_key(parent) && before@ == children_of(
                    *old(self),
                )[parent],
                None => !children_of(*old(self)).contains_key(parent),
            },
    {
        self.slots.remove(slotmap::KeyData::from_ffi(parent.raw).into())
    }

    /// `SecondaryMap::get`: the list under `parent`, if there is one.
    #[verifier::external_body]
    pub(crate) fn get(&self, parent: NodeId) -> (r: Option<&Vec<NodeId>>)
        ensures
            match r {
                Some(list) => children_of(*self).contains_key(parent) && list@ == children_of(*self)[parent],
                None => !children_of(*self).contains_key(parent),
            },
    {
        self.slots.get(slotmap::KeyData::from_ffi(parent.raw).into())
    }

    /// `SecondaryMap::get_mut`: the list under `parent`, if there is one, to
    /// be changed in place. No other entry changes.
    #[verifier::external_body]
    pub(crate) fn get_mut(&mut self, parent: NodeId) -> (r: Option<&mut Vec<NodeId>>)
        ensures
            match r {
                Some(list) => children_of(*old(self)).contains_key(parent) && list@ == children_of(
                    *old(self),
                )[parent] && children_of(*final(self)) == children_of(*old(self)).insert(
                    parent,
                    final(list)@,
                ),
                None => !children_of(*old(self)).contains_key(parent) && children_of(*final(self))
                    == children_of(*old(self)),
            },
    {
        self.slots.get_mut(slotmap::KeyData::from_ffi(parent.raw).into())
    }

    /// `SecondaryMap::clear`: the map without its entries.
    #[verifier::external_body]
    pub(crate) fn clear(&mut self)
        ensures
            children_of(*final(self)) == no_entries::<Seq<NodeId>>(),
    {
        self.slots.clear()
    }
}

} // verus!
