//! Which entities are rolled back, and in which order.

use crate::platform_map::{
    entity_index_get, entity_index_insert, entity_index_new, entity_positions, EntityIndex,
};
use vstd::prelude::*;

verus! {

/// Names an entity across rollbacks: the bits of the entity that it was first made for.
#[derive(Debug, Clone, Copy, PartialEq, Eq, Hash, Structural)]
pub struct RollbackId(pub u64);

impl RollbackId {
    /// The name of an entity with the given bits.
    pub fn new(entity: u64) -> (id: Self)
        ensures
            id == RollbackId(entity),
    {
        RollbackId(entity)
    }
}

/// The entities that are rolled back, in the order in which they were first registered.
pub struct RollbackOrdered {
    order: EntityIndex,
    sorted: Vec<RollbackId>,
}

/// An entity registered: it goes to the end, unless it is already there.
pub open spec fn registered(ordered: Seq<RollbackId>, id: RollbackId) -> Seq<RollbackId> {
    if ordered.contains(id) {
        ordered
    } else {
        ordered.push(id)
    }
}

impl View for RollbackOrdered {
    type V = Seq<RollbackId>;

    closed spec fn view(&self) -> Seq<RollbackId> {
        self.sorted@
    }
}

impl Default for RollbackOrdered {
    fn default() -> (ordered: Self)
        ensures
            ordered.wf(),
            ordered@ == Seq::<RollbackId>::empty(),
    {
        RollbackOrdered { order: entity_index_new(), sorted: Vec::new() }
    }
}

impl RollbackOrdered {
    /// `order` has the place of every entity in `sorted`, and of no other.
    pub closed spec fn wf(&self) -> bool {
        &&& forall|entity: u64| #[trigger]
            entity_positions(self.order).contains_key(entity) ==> {
                &&& entity_positions(self.order)[entity] < self.sorted@.len()
                &&& self.sorted@[entity_positions(self.order)[entity] as int].0 == entity
            }
        &&& forall|i: int|
            0 <= i < self.sorted@.len() ==> {
                &&& entity_positions(self.order).contains_key((#[trigger] self.sorted@[i]).0)
                &&& entity_positions(self.order)[self.sorted@[i].0] == i
            }
    }

    /// No entity is registered twice.
    pub proof fn law_no_entity_twice(&self)
        requires
            self.wf(),
        ensures
            self@.no_duplicates(),
    {
    }

    /// Registers an entity. Registering it again changes nothing.
    pub fn push(&mut self, id: RollbackId) -> (ordered: &mut Self)
        requires
            old(self).wf(),
        ensures
            ordered.wf(),
            ordered@ == registered(old(self)@, id),
            *final(self) == *final(ordered),
    {
        if entity_index_get(&self.order, id.0).is_none() {
            let position = self.sorted.len();
            self.sorted.push(id);
            entity_index_insert(&mut self.order, id.0, position);
        }
        self
    }

    /// Number of registered entities.
    pub fn len(&self) -> (len: usize)
        ensures
            len == self@.len(),
    {
        self.sorted.len()
    }
}

/// Decides what is to be done when an entity gets a component that marks it for rollback.
///
/// An entity that carries a [`RollbackId`] is already tracked: it was respawned by a rollback. Any
/// other entity is registered, and the id that it is to carry is returned.
pub fn rollback_entity_observer(
    entity: u64,
    carried: Option<RollbackId>,
    ordered: &mut RollbackOrdered,
) -> (id: Option<RollbackId>)
    requires
        old(ordered).wf(),
    ensures
        final(ordered).wf(),
        match carried {
            Some(_) => id is None && final(ordered)@ == old(ordered)@,
            None => id == Some(RollbackId(entity)) && final(ordered)@ == registered(
                old(ordered)@,
                RollbackId(entity),
            ),
        },
{
    if carried.is_some() {
        return None;
    }
    let rollback_id = RollbackId::new(entity);
    ordered.push(rollback_id);
    Some(rollback_id)
}

/// Several markers on one entity register it once: registering it again changes nothing.
pub proof fn law_registering_twice_is_once(ordered: Seq<RollbackId>, id: RollbackId)
    ensures
        registered(registered(ordered, id), id) == registered(ordered, id),
        registered(ordered, id).contains(id),
{
    if !ordered.contains(id) {
        assert(ordered.push(id).last() == id);
    }
}

/// The place of an entity never changes: whatever is registered later goes behind it.
pub proof fn law_order_is_stable(ordered: Seq<RollbackId>, id: RollbackId, place: int)
    requires
        0 <= place < ordered.len(),
    ensures
        place < registered(ordered, id).len(),
        registered(ordered, id)[place] == ordered[place],
{
}

/// Registering an entity adds it and nothing else: to the end if it is new, and otherwise nothing
/// changes.
pub proof fn law_registering_adds_one(ordered: Seq<RollbackId>, id: RollbackId)
    ensures
        registered(ordered, id).to_set() == ordered.to_set().insert(id),
        !ordered.contains(id) ==> registered(ordered, id).len() == ordered.len() + 1 && registered(
            ordered,
            id,
        ).last() == id,
        ordered.contains(id) ==> registered(ordered, id).len() == ordered.len(),
{
    let after = registered(ordered, id);
    assert forall|other: RollbackId| after.to_set().contains(other) == ordered.to_set().insert(
        id,
    ).contains(other) by {
        if ordered.contains(other) {
            let i = choose|i: int| 0 <= i < ordered.len() && ordered[i] == other;
            assert(after[i] == other);
        }
        law_registering_twice_is_once(ordered, id);
    }
    assert(after.to_set() =~= ordered.to_set().insert(id));
}

} // verus!
