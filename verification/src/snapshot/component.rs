//! Snapshots of one component type, by entity.

use super::rollback_entity::RollbackId;
use super::GgrsSnapshots;
use crate::platform_map::{
    entity_index_get, entity_index_insert, entity_index_new, entity_positions, EntityIndex,
};
use std::marker::PhantomData;
use vstd::prelude::*;

verus! {

/// Typical storage for snapshots of a component `C` as the type `As`. For most types, the default
/// `As = C` will suffice.
pub type GgrsComponentSnapshots<C, As = C> = GgrsSnapshots<C, GgrsComponentSnapshot<C, As>>;

/// A storage type suitable for per-entity snapshots, such as component types. The values lie in
/// `entries` in no particular order, each beside its entity; `index` has the position of every
/// entity.
pub struct GgrsComponentSnapshot<For, As = For> {
    index: EntityIndex,
    entries: Vec<(RollbackId, As)>,
    _phantom: PhantomData<For>,
}

/// The components of a list, by entity. Of several for one entity, the last counts.
pub open spec fn collected<As>(components: Seq<(RollbackId, As)>) -> Map<RollbackId, As>
    decreases components.len(),
{
    if components.len() == 0 {
        Map::empty()
    } else {
        let (entity, component) = components.last();
        collected(components.drop_last()).insert(entity, component)
    }
}

/// `items` names every entity of `snapshot` once, beside its component.
pub open spec fn lists_each_once<As>(
    items: Seq<(&RollbackId, &As)>,
    snapshot: Map<RollbackId, As>,
) -> bool {
    &&& forall|i: int|
        0 <= i < items.len() ==> {
            &&& snapshot.contains_key(*(#[trigger] items[i]).0)
            &&& snapshot[*items[i].0] == *items[i].1
        }
    &&& forall|i: int, j: int|
        0 <= i < j < items.len() ==> *(#[trigger] items[i]).0 != *(#[trigger] items[j]).0
    &&& forall|entity: RollbackId| #[trigger]
        snapshot.contains_key(entity) ==> exists|i: int|
            0 <= i < items.len() && *(#[trigger] items[i]).0 == entity
}

impl<For, As> View for GgrsComponentSnapshot<For, As> {
    type V = Map<RollbackId, As>;

    closed spec fn view(&self) -> Map<RollbackId, As> {
        Map::new(
            |entity: RollbackId| entity_positions(self.index).contains_key(entity.0),
            |entity: RollbackId| self.entries@[entity_positions(self.index)[entity.0] as int].1,
        )
    }
}

impl<For, As> Default for GgrsComponentSnapshot<For, As> {
    fn default() -> (snapshot: Self)
        ensures
            snapshot.wf(),
            snapshot@ == Map::<RollbackId, As>::empty(),
    {
        let snapshot = GgrsComponentSnapshot {
            index: entity_index_new(),
            entries: Vec::new(),
            _phantom: PhantomData,
        };
        snapshot
    }
}

impl<For, As> GgrsComponentSnapshot<For, As> {
    /// The index and the entries tell the same.
    pub closed spec fn wf(&self) -> bool {
        &&& forall|entity: u64| #[trigger]
            entity_positions(self.index).contains_key(entity) ==> {
                &&& entity_positions(self.index)[entity] < self.entries@.len()
                &&& self.entries@[entity_positions(self.index)[entity] as int].0.0 == entity
            }
        &&& forall|i: int|
            0 <= i < self.entries@.len() ==> {
                &&& entity_positions(self.index).contains_key((#[trigger] self.entries@[i]).0.0)
                &&& entity_positions(self.index)[self.entries@[i].0.0] == i
            }
    }

    /// Create a new snapshot from a list of entities and stored components.
    pub fn new(components: Vec<(RollbackId, As)>) -> (snapshot: Self)
        ensures
            snapshot.wf(),
            snapshot@ == collected(components@),
    {
        let mut snapshot: Self = Default::default();
        let ghost all = components@;
        for component in iter: components.into_iter()
            invariant
                iter.seq() == all,
                snapshot.wf(),
                snapshot@ == collected(all.take(iter.index() as int)),
        {
            assert(all.take(iter.index() + 1).drop_last() == all.take(iter.index() as int));
            snapshot.insert(component.0, component.1);
        }
        assert(all.take(all.len() as int) == all);
        snapshot
    }

    /// Insert a single snapshot for the provided entity.
    pub fn insert(&mut self, entity: RollbackId, snapshot: As) -> (whole: &mut Self)
        requires
            old(self).wf(),
        ensures
            whole.wf(),
            whole@ == old(self)@.insert(entity, snapshot),
            *final(self) == *final(whole),
    {
        match entity_index_get(&self.index, entity.0) {
            Some(position) => {
                self.entries[position] = (entity, snapshot);
            },
            None => {
                let position = self.entries.len();
                self.entries.push((entity, snapshot));
                entity_index_insert(&mut self.index, entity.0, position);
            },
        }
        self
    }

    /// Get a single snapshot for the provided entity.
    pub fn get(&self, entity: &RollbackId) -> (snapshot: Option<&As>)
        requires
            self.wf(),
        ensures
            snapshot == (if self@.contains_key(*entity) {
                Some(&self@[*entity])
            } else {
                None
            }),
    {
        match entity_index_get(&self.index, entity.0) {
            Some(position) => Some(&self.entries[position].1),
            None => None,
        }
    }

    /// All stored snapshots, in no particular order.
    pub fn iter(&self) -> (items: Vec<(&RollbackId, &As)>)
        requires
            self.wf(),
        ensures
            lists_each_once(items@, self@),
    {
        let mut items: Vec<(&RollbackId, &As)> = Vec::new();
        let mut i: usize = 0;
        while i < self.entries.len()
            invariant
                i <= self.entries@.len(),
                items@.len() == i,
                forall|j: int|
                    0 <= j < i ==> {
                        &&& *(#[trigger] items@[j]).0 == self.entries@[j].0
                        &&& *items@[j].1 == self.entries@[j].1
                    },
            decreases self.entries@.len() - i,
        {
            let entry = &self.entries[i];
            items.push((&entry.0, &entry.1));
            i += 1;
        }
        assert forall|entity: RollbackId| #[trigger] self@.contains_key(entity) implies exists|
            i: int,
        |
            0 <= i < items@.len() && *(#[trigger] items@[i]).0 == entity by {
            let i = entity_positions(self.index)[entity.0] as int;
            assert(*items@[i].0 == entity);
        }
        items
    }
}

/// What a snapshot tells of an entity is the last component that the list has for it.
pub proof fn law_last_component_counts<As>(components: Seq<(RollbackId, As)>, place: int)
    requires
        0 <= place < components.len(),
        forall|later: int|
            place < later < components.len() ==> (#[trigger] components[later]).0
                != components[place].0,
    ensures
        collected(components).contains_key(components[place].0),
        collected(components)[components[place].0] == components[place].1,
    decreases components.len(),
{
    if place < components.len() - 1 {
        let rest = components.drop_last();
        law_last_component_counts(rest, place);
    }
}

/// A snapshot tells of no entity that is not in the list.
pub proof fn law_nothing_else_is_collected<As>(
    components: Seq<(RollbackId, As)>,
    entity: RollbackId,
)
    requires
        forall|i: int| 0 <= i < components.len() ==> (#[trigger] components[i]).0 != entity,
    ensures
        !collected(components).contains_key(entity),
    decreases components.len(),
{
    if components.len() > 0 {
        let rest = components.drop_last();
        assert(forall|i: int| 0 <= i < rest.len() ==> #[trigger] rest[i] == components[i]);
        assert(components[components.len() - 1].0 != entity);
        law_nothing_else_is_collected(rest, entity);
    }
}

/// A list of a snapshot has as many items as the snapshot has entities, and each item is one of them
/// beside its component.
pub proof fn law_list_is_whole<As>(
    items: Seq<(&RollbackId, &As)>,
    snapshot: Map<RollbackId, As>,
)
    requires
        lists_each_once(items, snapshot),
    ensures
        snapshot.dom().finite(),
        items.len() == snapshot.dom().len(),
        forall|i: int|
            0 <= i < items.len() ==> snapshot.contains_key(*(#[trigger] items[i]).0)
                && snapshot[*items[i].0] == *items[i].1,
{
    let entities = items.map_values(|item: (&RollbackId, &As)| *item.0);
    entities.unique_seq_to_set();
    assert(entities.to_set() =~= snapshot.dom()) by {
        assert forall|entity: RollbackId| snapshot.dom().contains(
            entity,
        ) implies entities.to_set().contains(entity) by {
            assert(snapshot.contains_key(entity));
            let i = choose|i: int| 0 <= i < items.len() && *(#[trigger] items[i]).0 == entity;
            assert(entities[i] == entity);
        }
    }
}

} // verus!
