use crate::collection::{Collection, Component, EntityCollection, EntityId, TypeKey};
use std::collections::hash_map::Entry;
use std::collections::{HashMap, HashSet};
use vstd::prelude::*;
use vstd::std_specs::iter::IteratorSpec;

verus! {

broadcast use vstd::std_specs::hash::group_hash_axioms;

/// A registry that owns one [`Collection`] per registered component type and
/// hands out entity ids.
///
/// Every record is a `C`, and `C::get_type_id` tells which collection it
/// belongs to. Using a type that was never registered is a programming error:
/// the methods that do so require registration.
pub struct ECSS<C> {
    /// The next fresh id; ids are issued downwards and 0 is never issued.
    entity_counter: EntityId,
    /// Ids to issue before fresh ones. Removal does not put ids back here:
    /// ids carry no generation, so a recycled id would alias stale handles.
    reusable_entities: Vec<EntityId>,
    type_map: HashMap<TypeKey, Collection<C>>,
    /// The registered keys, in the order of registration.
    type_order: Vec<TypeKey>,
    /// For each entity seen, the keys of the types of which it has a record.
    entity_map: HashMap<EntityId, HashSet<TypeKey>>,
    /// The ids issued so far.
    issued: Ghost<Set<EntityId>>,
}

impl<C> ECSS<C> {
    /// The collection of each registered type.
    pub closed spec fn stores(&self) -> Map<TypeKey, Collection<C>> {
        self.type_map@
    }

    /// The next id that the counter would issue.
    pub closed spec fn counter(&self) -> EntityId {
        self.entity_counter
    }

    /// Ids waiting to be issued again, the last one first.
    pub closed spec fn reusable(&self) -> Seq<EntityId> {
        self.reusable_entities@
    }

    /// The ids that `create_entity` has issued.
    pub closed spec fn issued(&self) -> Set<EntityId> {
        self.issued@
    }

    /// Whether the type `key` has a collection.
    pub open spec fn is_registered(&self, key: TypeKey) -> bool {
        self.stores().contains_key(key)
    }

    /// Each entity of a registered type with its record.
    pub open spec fn store(&self, key: TypeKey) -> Map<EntityId, C> {
        self.stores()[key]@
    }

    /// The registered types of which `entity` has a record.
    pub open spec fn attached(&self, entity: EntityId) -> Set<TypeKey> {
        Set::new(|k: TypeKey| self.is_registered(k) && self.store(k).contains_key(entity))
    }

    /// Whether `create_entity` can issue an id.
    pub open spec fn can_issue(&self) -> bool {
        self.reusable().len() > 0 || self.counter() > 0
    }

    /// `other` differs from `self` at most in the collection of `key`.
    pub open spec fn same_except(&self, other: &Self, key: TypeKey) -> bool {
        &&& forall|k: TypeKey|
            #![trigger other.stores().contains_key(k)]
            #![trigger self.stores().contains_key(k)]
            k != key ==> (other.stores().contains_key(k) <==> self.stores().contains_key(k))
        &&& forall|k: TypeKey| #[trigger]
            self.stores().contains_key(k) && k != key ==> other.stores()[k] == self.stores()[k]
        &&& other.counter() == self.counter()
        &&& other.reusable() == self.reusable()
        &&& other.issued() == self.issued()
    }

    /// Every registered collection is well formed, and the registry's own
    /// bookkeeping agrees with the collections.
    pub open spec fn wf(&self) -> bool {
        &&& self.inv()
        &&& forall|k: TypeKey| #[trigger]
            self.stores().contains_key(k) ==> self.stores()[k].wf()
    }

    /// The registration order lists each registered key once; each entity's
    /// set of keys is exactly the set of types of which it has a record; only
    /// issued ids have records; ids still to be issued, from the counter or
    /// the pool, were not issued yet.
    pub closed spec fn inv(&self) -> bool {
        &&& forall|k: TypeKey| #[trigger] self.type_map@.contains_key(k) ==> self.type_map@[k].wf()
        &&& self.type_order@.no_duplicates()
        &&& forall|k: TypeKey|
            #![trigger self.type_map@.contains_key(k)]
            #![trigger self.type_order@.contains(k)]
            self.type_map@.contains_key(k) <==> self.type_order@.contains(k)
        &&& forall|k: TypeKey, e: EntityId|
            #[trigger] self.type_map@.contains_key(k) && #[trigger] self.type_map@[k]@.contains_key(
                e,
            ) ==> self.entity_map@.contains_key(e) && self.entity_map@[e]@.contains(k)
        &&& forall|e: EntityId, k: TypeKey|
            #[trigger] self.entity_map@.contains_key(e) && #[trigger] self.entity_map@[e]@.contains(
                k,
            ) ==> self.type_map@.contains_key(k) && self.type_map@[k]@.contains_key(e)
        &&& forall|k: TypeKey, e: EntityId|
            #[trigger] self.type_map@.contains_key(k) && #[trigger] self.type_map@[k]@.contains_key(
                e,
            ) ==> self.issued@.contains(e)
        &&& forall|e: EntityId| #[trigger] self.issued@.contains(e) ==> e > self.entity_counter
        &&& self.reusable_entities@.no_duplicates()
        &&& forall|i: int|
            0 <= i < self.reusable_entities@.len() ==> #[trigger] self.reusable_entities@[i]
                > self.entity_counter && !self.issued@.contains(self.reusable_entities@[i])
    }
}

impl<C: Component> ECSS<C> {
    /// An empty registry: no type registered, ids issued from the top of the
    /// id space downwards.
    pub fn new() -> (r: Self)
        ensures
            r.wf(),
            r.stores() == Map::<TypeKey, Collection<C>>::empty(),
            r.counter() == usize::MAX,
            r.reusable() == Seq::<EntityId>::empty(),
            r.issued() == Set::<EntityId>::empty(),
    {
        let r = ECSS {
            entity_counter: usize::MAX,
            reusable_entities: Vec::new(),
            type_map: HashMap::new(),
            type_order: Vec::new(),
            entity_map: HashMap::new(),
            issued: Ghost(Set::empty()),
        };
        r
    }

    fn get_collection(&self, key: TypeKey) -> (r: &Collection<C>)
        requires
            self.is_registered(key),
        ensures
            *r == self.stores()[key],
    {
        match self.type_map.get(&key) {
            Some(c) => c,
            None => vstd::pervasive::unreached(),
        }
    }

    fn get_collection_mut(&mut self, key: TypeKey) -> (r: &mut Collection<C>)
        requires
            old(self).is_registered(key),
        ensures
            *r == old(self).stores()[key],
            final(self).type_map@ == old(self).type_map@.insert(key, *final(r)),
            final(self).entity_counter == old(self).entity_counter,
            final(self).reusable_entities == old(self).reusable_entities,
            final(self).type_order == old(self).type_order,
            final(self).entity_map == old(self).entity_map,
            final(self).issued == old(self).issued,
    {
        match self.type_map.entry(key) {
            Entry::Occupied(o) => o.into_mut(),
            Entry::Vacant(_) => vstd::pervasive::unreached(),
        }
    }

    /// Issues an entity id: the last id waiting to be issued again if there is
    /// one, else the counter's next value. The id was not issued before and
    /// has no record yet.
    pub fn create_entity(&mut self) -> (r: EntityId)
        requires
            old(self).wf(),
            old(self).can_issue(),
        ensures
            final(self).wf(),
            final(self).stores() == old(self).stores(),
            !old(self).issued().contains(r),
            final(self).issued() == old(self).issued().insert(r),
            final(self).attached(r) == Set::<TypeKey>::empty(),
            if old(self).reusable().len() > 0 {
                &&& r == old(self).reusable().last()
                &&& final(self).reusable() == old(self).reusable().drop_last()
                &&& final(self).counter() == old(self).counter()
            } else {
                &&& r == old(self).counter()
                &&& final(self).counter() == old(self).counter() - 1
                &&& final(self).reusable() == old(self).reusable()
            },
    {
        let ghost pre = *self;
        let r = match self.reusable_entities.pop() {
            Some(e) => e,
            None => {
                let entity_id = self.entity_counter;
                self.entity_counter = self.entity_counter - 1;
                if !self.entity_map.contains_key(&entity_id) {
                    self.entity_map.insert(entity_id, HashSet::new());
                }
                entity_id
            },
        };
        proof {
            if pre.reusable_entities@.len() > 0 {
                assert(r == pre.reusable_entities@[pre.reusable_entities@.len() - 1]);
                assert forall|i: int| 0 <= i < self.reusable_entities@.len() implies #[trigger] self.reusable_entities@[i]
                    != r by {
                    assert(self.reusable_entities@[i] == pre.reusable_entities@[i]);
                }
            }
            assert(pre.attached(r) =~= Set::<TypeKey>::empty());
        }
        self.issued = Ghost(self.issued@.insert(r));
        proof {
            assert(self.attached(r) =~= pre.attached(r));
        }
        r
    }

    /// Registers the type `key` with an empty collection of no fixed
    /// capacity; nothing changes if it is registered already.
    pub fn register(&mut self, key: TypeKey)
        requires
            old(self).wf(),
        ensures
            final(self).wf(),
            old(self).is_registered(key) ==> *final(self) == *old(self),
            !old(self).is_registered(key) ==> {
                &&& final(self).same_except(old(self), key)
                &&& final(self).stores().dom() == old(self).stores().dom().insert(key)
                &&& final(self).store(key) == Map::<EntityId, C>::empty()
                &&& final(self).stores()[key].spec_len() == 0
                &&& final(self).stores()[key].wf()
                &&& final(self).stores()[key].bound() == None::<usize>
            },
    {
        if !self.type_map.contains_key(&key) {
            self.add_collection(key, Collection::default());
        }
    }

    /// Registers the type `key` with an empty collection that holds at most
    /// `size` records; nothing changes if it is registered already.
    pub fn register_sized(&mut self, key: TypeKey, size: usize)
        requires
            old(self).wf(),
        ensures
            final(self).wf(),
            old(self).is_registered(key) ==> *final(self) == *old(self),
            !old(self).is_registered(key) ==> {
                &&& final(self).same_except(old(self), key)
                &&& final(self).stores().dom() == old(self).stores().dom().insert(key)
                &&& final(self).store(key) == Map::<EntityId, C>::empty()
                &&& final(self).stores()[key].spec_len() == 0
                &&& final(self).stores()[key].wf()
                &&& final(self).stores()[key].bound() == Some(size)
            },
    {
        if !self.type_map.contains_key(&key) {
            self.add_collection(key, Collection::new(size));
        }
    }

    /// Stores `data` in the collection of its type, under the entity it
    /// names, unless that entity already has a record of that type or the
    /// collection is full; then nothing changes. The entity must be one that
    /// `create_entity` issued.
    pub fn create(&mut self, data: C)
        requires
            old(self).wf(),
            old(self).is_registered(data.type_key_of()),
            old(self).issued().contains(data.entity_of()),
        ensures
            final(self).wf(),
            final(self).same_except(old(self), data.type_key_of()),
            final(self).stores().dom() == old(self).stores().dom(),
            Collection::created(
                old(self).stores()[data.type_key_of()],
                final(self).stores()[data.type_key_of()],
                data,
            ),
    {
        let key = data.get_type_id();
        let entity_id = data.get_entity_id();
        let ghost pre = *self;
        let stored = {
            let c = self.get_collection_mut(key);
            c.create(data);
            c.contains(entity_id)
        };
        let ghost mid = *self;
        if stored {
            self.attach(entity_id, key);
        }
        proof {
            assert(mid.type_map@.dom() =~= pre.type_map@.dom());
        }
    }

    /// Whether `entity` has a record of the registered type `key`.
    pub fn contains(&self, key: TypeKey, entity: EntityId) -> (r: bool)
        requires
            self.wf(),
            self.is_registered(key),
        ensures
            r == self.store(key).contains_key(entity),
    {
        self.get_collection(key).contains(entity)
    }

    /// The record of type `key` of `entity`, if it has one.
    pub fn get(&self, key: TypeKey, entity: EntityId) -> (r: Option<&C>)
        requires
            self.wf(),
            self.is_registered(key),
        ensures
            match r {
                Some(v) => self.store(key).contains_key(entity) && *v == self.store(key)[entity],
                None => !self.store(key).contains_key(entity),
            },
    {
        proof {
            assert(self.type_map@[key].wf());
        }
        self.get_collection(key).get(entity)
    }

    /// A mutable borrow of the record of type `key` of `entity`; what is
    /// written through it becomes that record.
    pub fn get_mut(&mut self, key: TypeKey, entity: EntityId) -> (r: Option<&mut C>)
        requires
            old(self).wf(),
            old(self).is_registered(key),
        ensures
            final(self).wf(),
            final(self).same_except(old(self), key),
            final(self).stores().dom() == old(self).stores().dom(),
            final(self).stores()[key].bound() == old(self).stores()[key].bound(),
            final(self).stores()[key].dense_entities() == old(self).stores()[key].dense_entities(),
            match r {
                Some(v) => {
                    &&& old(self).store(key).contains_key(entity)
                    &&& *v == old(self).store(key)[entity]
                    &&& final(self).store(key) == old(self).store(key).insert(entity, *final(v))
                },
                None => !old(self).store(key).contains_key(entity) && final(self).stores() == old(self).stores(),
            },
    {
        proof {
            assert(self.type_map@[key].wf());
        }
        let c = self.get_collection_mut(key);
        c.get_mut(entity)
    }

    /// Removes the record of type `key` of `entity`, if it has one.
    pub fn remove(&mut self, key: TypeKey, entity: EntityId)
        requires
            old(self).wf(),
            old(self).is_registered(key),
        ensures
            final(self).wf(),
            final(self).same_except(old(self), key),
            final(self).stores().dom() == old(self).stores().dom(),
            Collection::removed(old(self).stores()[key], final(self).stores()[key], entity),
            !old(self).store(key).contains_key(entity) ==> final(self).stores() == old(self).stores(),
    {
        let ghost pre = *self;
        proof {
            assert(self.type_map@[key].wf());
        }
        {
            let c = self.get_collection_mut(key);
            c.remove(entity);
        }
        self.detach(entity, key);
        proof {
            assert(self.type_map@.dom() =~= pre.type_map@.dom());
            if !pre.store(key).contains_key(entity) {
                assert(self.type_map@ =~= pre.type_map@);
            }
        }
    }

    /// Removes every record of `entity`, of every registered type.
    pub fn remove_all(&mut self, entity: EntityId)
        requires
            old(self).wf(),
        ensures
            final(self).wf(),
            final(self).stores().dom() == old(self).stores().dom(),
            final(self).counter() == old(self).counter(),
            final(self).reusable() == old(self).reusable(),
            forall|k: TypeKey| #[trigger]
                old(self).is_registered(k) ==> {
                    &&& final(self).store(k) == old(self).store(k).remove(entity)
                    &&& final(self).stores()[k].bound() == old(self).stores()[k].bound()
                },
            forall|k: TypeKey| #[trigger]
                final(self).is_registered(k) ==> !final(self).store(k).contains_key(entity),
            final(self).attached(entity) == Set::<TypeKey>::empty(),
    {
        let ghost pre = *self;
        let mut i: usize = 0;
        while i < self.type_order.len()
            invariant
                self.type_order == pre.type_order,
                self.entity_map == pre.entity_map,
                self.entity_counter == pre.entity_counter,
                self.reusable_entities == pre.reusable_entities,
                self.issued == pre.issued,
                pre.wf(),
                i <= self.type_order@.len(),
                self.type_map@.dom() == pre.type_map@.dom(),
                forall|k: TypeKey| #[trigger]
                    self.type_map@.contains_key(k) ==> {
                        &&& self.type_map@[k].wf()
                        &&& self.type_map@[k].bound() == pre.type_map@[k].bound()
                        &&& (self.store(k) == pre.store(k).remove(entity) || self.type_map@[k]
                            == pre.type_map@[k])
                    },
                forall|j: int|
                    0 <= j < i ==> self.store(#[trigger] self.type_order@[j]) == pre.store(
                        self.type_order@[j],
                    ).remove(entity),
            decreases self.type_order@.len() - i,
        {
            let key = self.type_order[i];
            let ghost before = *self;
            proof {
                assert(self.type_order@.contains(key));
                assert(self.type_map@[key].wf());
            }
            {
                let c = self.get_collection_mut(key);
                c.remove(entity);
            }
            proof {
                assert(self.store(key) =~= pre.store(key).remove(entity));
                assert forall|j: int| 0 <= j < i + 1 implies self.store(
                    #[trigger] self.type_order@[j],
                ) == pre.store(self.type_order@[j]).remove(entity) by {
                    if j < i {
                        assert(self.type_order@[j] != key);
                    }
                }
                assert(self.type_map@.dom() =~= before.type_map@.dom());
            }
            i = i + 1;
        }
        proof {
            assert forall|k: TypeKey| #[trigger] pre.is_registered(k) implies self.store(k)
                == pre.store(k).remove(entity) by {
                assert(self.type_order@.contains(k));
                let j = choose|j: int| 0 <= j < self.type_order@.len() && self.type_order@[j] == k;
                assert(self.store(self.type_order@[j]) == pre.store(self.type_order@[j]).remove(entity));
            }
        }
        if self.entity_map.contains_key(&entity) {
            self.entity_map.insert(entity, HashSet::new());
        }
        proof {
            assert(self.attached(entity) =~= Set::<TypeKey>::empty());
        }
    }

    /// The entities that have a record of type `key`, in the collection's
    /// dense order.
    pub fn entities_by_type(&self, key: TypeKey) -> (r: Vec<EntityId>)
        requires
            self.wf(),
            self.is_registered(key),
        ensures
            r@ == self.stores()[key].dense_entities(),
            r@.to_set() == self.store(key).dom(),
            r@.no_duplicates(),
            r@.len() == self.store(key).len(),
    {
        proof {
            let c = self.type_map@[key];
            assert(c.wf());
            assert forall|e: EntityId| c@.contains_key(e) implies c.dense_entities().contains(e) by {
                assert(c.dense_entities()[c.sparse_index()[e] as int] == e);
            }
            assert(c.dense_entities().to_set() =~= c@.dom());
            crate::lemmas::lemma_view_len(c);
        }
        self.get_collection(key).get_entities()
    }

    /// The entities whose record of type `key` satisfies `f`.
    pub fn entities_where<F>(&self, key: TypeKey, f: F) -> (r: Vec<EntityId>)
        where
            F: Fn(&C) -> bool,
        requires
            self.wf(),
            self.is_registered(key),
            forall|v: &C| #[trigger] f.requires((v,)),
        ensures
            Collection::selects(self.store(key), f, r@),
            Collection::filters(
                self.stores()[key].dense_entities(),
                self.stores()[key].dense_data(),
                f,
                r@,
            ),
    {
        proof {
            assert(self.type_map@[key].wf());
        }
        self.get_collection(key).entities_where(f)
    }

    /// The registered types of which `entity` has a record, in the order in
    /// which they were registered.
    pub fn components(&self, entity: EntityId) -> (r: Vec<TypeKey>)
        requires
            self.wf(),
        ensures
            r@.no_duplicates(),
            r@.to_set() == self.attached(entity),
    {
        let mut r: Vec<TypeKey> = Vec::new();
        match self.entity_map.get(&entity) {
            Some(set) => {
                let mut i: usize = 0;
                while i < self.type_order.len()
                    invariant
                        self.wf(),
                        self.entity_map@.contains_key(entity),
                        *set == self.entity_map@[entity],
                        i <= self.type_order@.len(),
                        r@.no_duplicates(),
                        forall|k: TypeKey|
                            #[trigger] r@.contains(k) <==> (exists|j: int|
                                0 <= j < i && self.type_order@[j] == k && set@.contains(k)),
                    decreases self.type_order@.len() - i,
                {
                    let key = self.type_order[i];
                    if set.contains(&key) {
                        let ghost before = r@;
                        proof {
                            if r@.contains(key) {
                                let j = choose|j: int|
                                    0 <= j < i && self.type_order@[j] == key && set@.contains(key);
                                assert(self.type_order@[j] == self.type_order@[i as int]);
                            }
                        }
                        r.push(key);
                        proof {
                            assert forall|k: TypeKey| #[trigger] r@.contains(k) <==> (exists|j: int|
                                0 <= j < i + 1 && self.type_order@[j] == k && set@.contains(k)) by {
                                if r@.contains(k) && k != key {
                                    let n = choose|n: int| 0 <= n < r@.len() && r@[n] == k;
                                    assert(before[n] == k);
                                    assert(before.contains(k));
                                }
                                if k == key {
                                    assert(r@[before.len() as int] == key);
                                }
                                if (exists|j: int|
                                    0 <= j < i && self.type_order@[j] == k && set@.contains(k)) {
                                    assert(before.contains(k));
                                    let n = choose|n: int| 0 <= n < before.len() && before[n] == k;
                                    assert(r@[n] == k);
                                }
                            }
                        }
                    }
                    i = i + 1;
                }
                proof {
                    assert forall|k: TypeKey| #[trigger] r@.to_set().contains(k) <==> self.attached(entity).contains(k) by {
                        if self.attached(entity).contains(k) {
                            assert(self.type_order@.contains(k));
                        }
                    }
                    assert(r@.to_set() =~= self.attached(entity));
                }
            },
            None => {
                proof {
                    assert(r@.to_set() =~= self.attached(entity));
                }
            },
        }
        r
    }

    /// The records of type `key`, in the collection's dense order.
    pub fn iter(&self, key: TypeKey) -> (r: std::slice::Iter<'_, C>)
        requires
            self.wf(),
            self.is_registered(key),
        ensures
            IteratorSpec::remaining(&r) == self.stores()[key].dense_data().map_values(|v: C| &v),
    {
        proof {
            assert(self.type_map@[key].wf());
        }
        self.get_collection(key).iter()
    }

    /// The records of type `key`, to be changed in place.
    pub fn iter_mut(&mut self, key: TypeKey) -> (r: std::slice::IterMut<'_, C>)
        requires
            old(self).wf(),
            old(self).is_registered(key),
        ensures
            IteratorSpec::obeys_prophetic_iter_laws(&r),
            IteratorSpec::remaining(&r).len() == old(self).stores()[key].dense_data().len(),
            forall|i: int|
                0 <= i < old(self).stores()[key].dense_data().len() ==> *IteratorSpec::remaining(&r)[i]
                    == old(self).stores()[key].dense_data()[i],
            forall|i: int|
                0 <= i < old(self).stores()[key].dense_data().len() ==> final(self).stores()[key].dense_data()[i]
                    == *final(IteratorSpec::remaining(&r)[i]),
            final(self).wf(),
            final(self).same_except(old(self), key),
            final(self).stores().dom() == old(self).stores().dom(),
            final(self).store(key).dom() == old(self).store(key).dom(),
            final(self).stores()[key].dense_entities() == old(self).stores()[key].dense_entities(),
            final(self).stores()[key].bound() == old(self).stores()[key].bound(),
    {
        proof {
            assert(self.type_map@[key].wf());
        }
        let ghost pre = *self;
        let c = self.get_collection_mut(key);
        let r = c.iter_mut();
        proof {
            assert(after_borrow(self).type_map@[key]@.dom() == pre.type_map@[key]@.dom());
        }
        r
    }

    /// Each entity with its record of type `key`, in the collection's dense
    /// order.
    pub fn iter_with_entities(&self, key: TypeKey) -> (r: Vec<(EntityId, &C)>)
        requires
            self.wf(),
            self.is_registered(key),
        ensures
            r@.len() == self.stores()[key].spec_len(),
            forall|i: int|
                0 <= i < r@.len() ==> (#[trigger] r@[i]).0 == self.stores()[key].dense_entities()[i]
                    && *r@[i].1 == self.stores()[key].dense_data()[i],
    {
        proof {
            assert(self.type_map@[key].wf());
        }
        self.get_collection(key).iter_with_entities()
    }

    /// The entities with a record of type `key`, beside those records in the
    /// same order, to be changed in place.
    pub fn iter_with_entities_mut(&mut self, key: TypeKey) -> (r: (
        &[EntityId],
        std::slice::IterMut<'_, C>,
    ))
        requires
            old(self).wf(),
            old(self).is_registered(key),
        ensures
            r.0@ == old(self).stores()[key].dense_entities(),
            IteratorSpec::obeys_prophetic_iter_laws(&r.1),
            IteratorSpec::remaining(&r.1).len() == old(self).stores()[key].dense_data().len(),
            forall|i: int|
                0 <= i < old(self).stores()[key].dense_data().len() ==> *IteratorSpec::remaining(&r.1)[i]
                    == old(self).stores()[key].dense_data()[i],
            forall|i: int|
                0 <= i < old(self).stores()[key].dense_data().len() ==> final(self).stores()[key].dense_data()[i]
                    == *final(IteratorSpec::remaining(&r.1)[i]),
            final(self).wf(),
            final(self).same_except(old(self), key),
            final(self).stores().dom() == old(self).stores().dom(),
            final(self).store(key).dom() == old(self).store(key).dom(),
            final(self).stores()[key].dense_entities() == old(self).stores()[key].dense_entities(),
            final(self).stores()[key].bound() == old(self).stores()[key].bound(),
    {
        proof {
            assert(self.type_map@[key].wf());
        }
        let ghost pre = *self;
        let c = self.get_collection_mut(key);
        let r = c.iter_with_entities_mut();
        proof {
            assert(after_borrow(self).type_map@[key]@.dom() == pre.type_map@[key]@.dom());
        }
        r
    }

    fn add_collection(&mut self, key: TypeKey, c: Collection<C>)
        requires
            old(self).wf(),
            !old(self).is_registered(key),
            c.wf(),
            c@ == Map::<EntityId, C>::empty(),
            c.spec_len() == 0,
        ensures
            final(self).wf(),
            final(self).same_except(old(self), key),
            final(self).stores() == old(self).stores().insert(key, c),
    {
        let ghost pre = *self;
        self.type_map.insert(key, c);
        self.type_order.push(key);
        proof {
            assert forall|k: TypeKey|
                #[trigger] self.type_map@.contains_key(k) <==> self.type_order@.contains(k) by {
                if self.type_order@.contains(k) && k != key {
                    let i = choose|i: int| 0 <= i < self.type_order@.len() && self.type_order@[i] == k;
                    assert(pre.type_order@[i] == k);
                }
                if k == key {
                    assert(self.type_order@[self.type_order@.len() - 1] == key);
                }
                if pre.type_order@.contains(k) {
                    let i = choose|i: int| 0 <= i < pre.type_order@.len() && pre.type_order@[i] == k;
                    assert(self.type_order@[i] == k);
                }
            }
        }
    }
}

impl<C> ECSS<C> {
    /// Records that `entity` has a record of type `key`.
    fn attach(&mut self, entity: EntityId, key: TypeKey)
        ensures
            final(self).entity_map@ == old(self).entity_map@.insert(entity, final(self).entity_map@[entity]),
            final(self).entity_map@[entity]@ == (if old(self).entity_map@.contains_key(entity) {
                old(self).entity_map@[entity]@
            } else {
                Set::<TypeKey>::empty()
            }).insert(key),
            final(self).type_map == old(self).type_map,
            final(self).type_order == old(self).type_order,
            final(self).entity_counter == old(self).entity_counter,
            final(self).reusable_entities == old(self).reusable_entities,
            final(self).issued == old(self).issued,
    {
        let mut set = match self.entity_map.remove(&entity) {
            Some(set) => set,
            None => HashSet::new(),
        };
        set.insert(key);
        self.entity_map.insert(entity, set);
    }

    /// Records that `entity` has no record of type `key`.
    fn detach(&mut self, entity: EntityId, key: TypeKey)
        ensures
            old(self).entity_map@.contains_key(entity) ==> {
                &&& final(self).entity_map@ == old(self).entity_map@.insert(entity, final(self).entity_map@[entity])
                &&& final(self).entity_map@[entity]@ == old(self).entity_map@[entity]@.remove(key)
            },
            !old(self).entity_map@.contains_key(entity) ==> final(self).entity_map@ == old(self).entity_map@,
            final(self).type_map == old(self).type_map,
            final(self).type_order == old(self).type_order,
            final(self).entity_counter == old(self).entity_counter,
            final(self).reusable_entities == old(self).reusable_entities,
            final(self).issued == old(self).issued,
    {
        match self.entity_map.remove(&entity) {
            Some(set) => {
                let mut set = set;
                set.remove(&key);
                self.entity_map.insert(entity, set);
            },
            None => {},
        }
    }
}

impl<C: Component> Default for ECSS<C> {
    fn default() -> (r: Self)
        ensures
            r.wf(),
            r.stores() == Map::<TypeKey, Collection<C>>::empty(),
            r.counter() == usize::MAX,
            r.reusable() == Seq::<EntityId>::empty(),
    {
        ECSS::new()
    }
}

} // verus!
