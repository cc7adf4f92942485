use std::collections::HashMap;
use vstd::prelude::*;
use vstd::std_specs::iter::IteratorSpec;

verus! {

broadcast use vstd::std_specs::hash::group_hash_axioms;

/// Identifier of an entity: an opaque unsigned integer.
pub type EntityId = usize;

/// Identifier of a component type, unique among the registered types.
pub type TypeKey = u8;

/// A record that can be stored in a [`Collection`]: it knows the entity that
/// owns it and the key of its component type.
///
/// The two spec functions name what the two methods return; an
/// implementation written outside Verus gives them as ordinary methods that
/// return the same values as `get_entity_id` and `get_type_id`.
pub trait Component {
    /// The entity that owns this record.
    spec fn entity_of(&self) -> EntityId;

    /// The key of this record's component type.
    spec fn type_key_of(&self) -> TypeKey;

    fn get_entity_id(&self) -> (r: EntityId)
        ensures
            r == self.entity_of(),
    ;

    fn get_type_id(&self) -> (r: TypeKey)
        ensures
            r == self.type_key_of(),
    ;
}

/// The operations that every collection offers whatever it stores.
pub trait EntityCollection {
    /// The collection's internal invariant.
    spec fn well_formed(&self) -> bool;

    /// Whether the collection holds a record of `entity_id`.
    spec fn holds(&self, entity_id: EntityId) -> bool;

    fn remove(&mut self, entity_id: EntityId)
        requires
            old(self).well_formed(),
        ensures
            final(self).well_formed(),
            !final(self).holds(entity_id),
    ;
}

/// A sparse set: records packed in a dense vector, with a parallel vector of
/// their owners and an index from owner to dense slot.
pub struct Collection<T> {
    data: Vec<T>,
    entities: Vec<EntityId>,
    entity_lookup: HashMap<EntityId, usize>,
    capacity: Option<usize>,
}

impl<T> Collection<T> {
    /// The packed records.
    pub closed spec fn dense_data(&self) -> Seq<T> {
        self.data@
    }

    /// The owner of each packed record, slot by slot.
    pub closed spec fn dense_entities(&self) -> Seq<EntityId> {
        self.entities@
    }

    /// The dense slot of each stored entity.
    pub closed spec fn sparse_index(&self) -> Map<EntityId, usize> {
        self.entity_lookup@
    }

    /// The fixed capacity, if one was set.
    pub closed spec fn bound(&self) -> Option<usize> {
        self.capacity
    }

    /// The number of records in the dense part.
    pub open spec fn spec_len(&self) -> nat {
        self.dense_entities().len()
    }

    /// Whether a fixed capacity is set and reached.
    pub open spec fn spec_is_full(&self) -> bool {
        match self.bound() {
            Some(n) => self.spec_len() >= n,
            None => false,
        }
    }

    /// The dense and sparse parts describe the same set of records.
    pub open spec fn wf(&self) -> bool {
        &&& self.dense_data().len() == self.dense_entities().len()
        &&& self.sparse_index().dom().len() == self.dense_entities().len()
        &&& forall|e: EntityId| #[trigger]
            self.sparse_index().contains_key(e) ==> {
                &&& self.sparse_index()[e] < self.dense_entities().len()
                &&& self.dense_entities()[self.sparse_index()[e] as int] == e
            }
        &&& forall|i: int|
            0 <= i < self.dense_entities().len() ==> {
                &&& self.sparse_index().contains_key(#[trigger] self.dense_entities()[i])
                &&& self.sparse_index()[self.dense_entities()[i]] == i
            }
        &&& match self.bound() {
            Some(n) => self.spec_len() <= n,
            None => true,
        }
    }
}

impl<T> View for Collection<T> {
    type V = Map<EntityId, T>;

    /// Each stored entity with its record.
    open spec fn view(&self) -> Map<EntityId, T> {
        Map::new(
            |e: EntityId| self.sparse_index().contains_key(e),
            |e: EntityId| self.dense_data()[self.sparse_index()[e] as int],
        )
    }
}

impl<T: Component> Collection<T> {
    /// What `create(data)` does: `data` is stored under its entity, at the end
    /// of the dense part, unless that entity already has a record or the
    /// collection is full, in which case nothing changes.
    pub open spec fn created(pre: Self, post: Self, data: T) -> bool {
        &&& post.wf()
        &&& post.bound() == pre.bound()
        &&& if !pre@.contains_key(data.entity_of()) && !pre.spec_is_full() {
            &&& post@ == pre@.insert(data.entity_of(), data)
            &&& post.dense_entities() == pre.dense_entities().push(data.entity_of())
            &&& post.dense_data() == pre.dense_data().push(data)
        } else {
            post == pre
        }
    }

    /// What `remove(entity)` does: the entity's record, if any, is gone and
    /// every other record stays, the last record of the dense part moving into
    /// the freed slot; without such a record nothing changes.
    pub open spec fn removed(pre: Self, post: Self, entity: EntityId) -> bool {
        &&& post.wf()
        &&& post@ == pre@.remove(entity)
        &&& pre@.contains_key(entity) ==> {
            let slot = pre.sparse_index()[entity] as int;
            &&& post.dense_entities() == pre.dense_entities().update(
                slot,
                pre.dense_entities().last(),
            ).drop_last()
            &&& post.dense_data() == pre.dense_data().update(slot, pre.dense_data().last()).drop_last()
        }
        &&& post.spec_len() + (if pre@.contains_key(entity) {
            1int
        } else {
            0int
        }) == pre.spec_len()
        &&& post.bound() == pre.bound()
        &&& !pre@.contains_key(entity) ==> post == pre
    }

    /// `r` lists, without repeats, exactly the stored entities whose record
    /// `f` accepts.
    pub open spec fn selects<F: Fn(&T) -> bool>(m: Map<EntityId, T>, f: F, r: Seq<EntityId>) -> bool {
        &&& r.no_duplicates()
        &&& forall|e: EntityId| #[trigger]
            r.contains(e) ==> m.contains_key(e) && f.ensures((&m[e],), true)
        &&& forall|e: EntityId| #[trigger]
            m.contains_key(e) && !r.contains(e) ==> f.ensures((&m[e],), false)
    }

    /// `r` is `ents` with exactly the entries kept whose record in `data` `f`
    /// accepts, in the same order.
    pub open spec fn filters<F: Fn(&T) -> bool>(
        ents: Seq<EntityId>,
        data: Seq<T>,
        f: F,
        r: Seq<EntityId>,
    ) -> bool {
        exists|keep: Seq<bool>|
            {
                &&& keep.len() == ents.len()
                &&& forall|j: int| 0 <= j < ents.len() ==> f.ensures((&#[trigger] data[j],), keep[j])
                &&& r == kept(ents, keep)
            }
    }

    /// An empty collection that holds at most `size` records.
    pub fn new(size: usize) -> (r: Self)
        ensures
            r.wf(),
            r@ == Map::<EntityId, T>::empty(),
            r.dense_entities() == Seq::<EntityId>::empty(),
            r.bound() == Some(size),
    {
        let r = Collection {
            data: Vec::with_capacity(size),
            entities: Vec::with_capacity(size),
            entity_lookup: HashMap::with_capacity(size),
            capacity: Some(size),
        };
        assert(r@ =~= Map::<EntityId, T>::empty());
        r
    }

    pub fn contains(&self, entity_id: EntityId) -> (r: bool)
        ensures
            r == self@.contains_key(entity_id),
    {
        self.entity_lookup.contains_key(&entity_id)
    }

    /// Stores `data` under the entity it names, unless that entity already
    /// has a record here or the collection is full; then nothing changes.
    pub fn create(&mut self, data: T)
        requires
            old(self).wf(),
        ensures
            Self::created(*old(self), *final(self), data),
    {
        let entity_id = data.get_entity_id();
        if !self.entity_lookup.contains_key(&entity_id) && !self.is_full() {
            let ghost pre = *self;
            self.entity_lookup.insert(entity_id, self.data.len());
            self.entities.push(entity_id);
            self.data.push(data);
            proof {
                assert(!pre.sparse_index().dom().contains(entity_id));
                assert(self.sparse_index().dom() == pre.sparse_index().dom().insert(entity_id));
                assert forall|i: int| 0 <= i < self.dense_entities().len() implies {
                    &&& self.sparse_index().contains_key(#[trigger] self.dense_entities()[i])
                    &&& self.sparse_index()[self.dense_entities()[i]] == i
                } by {
                    if i < pre.dense_entities().len() {
                        assert(self.dense_entities()[i] == pre.dense_entities()[i]);
                    }
                }
                assert(self@ =~= pre@.insert(entity_id, data));
            }
        }
    }

    pub fn is_empty(&self) -> (r: bool)
        requires
            self.wf(),
        ensures
            r == (self.spec_len() == 0),
            r == (self@ == Map::<EntityId, T>::empty()),
    {
        proof {
            if self.spec_len() > 0 {
                let e = self.dense_entities()[0];
                assert(self@.contains_key(e));
            } else {
                assert(self@ =~= Map::<EntityId, T>::empty());
            }
        }
        self.data.is_empty()
    }

    pub fn get(&self, entity_id: EntityId) -> (r: Option<&T>)
        requires
            self.wf(),
        ensures
            match r {
                Some(v) => self@.contains_key(entity_id) && *v == self@[entity_id],
                None => !self@.contains_key(entity_id),
            },
    {
        match self.entity_lookup.get(&entity_id) {
            Some(slot) => Some(&self.data[*slot]),
            None => None,
        }
    }

    /// A mutable borrow of the record of `entity_id`; what is written through
    /// it becomes that entity's record.
    pub fn get_mut(&mut self, entity_id: EntityId) -> (r: Option<&mut T>)
        requires
            old(self).wf(),
        ensures
            final(self).wf(),
            final(self).bound() == old(self).bound(),
            final(self).dense_entities() == old(self).dense_entities(),
            match r {
                Some(v) => {
                    &&& old(self)@.contains_key(entity_id)
                    &&& *v == old(self)@[entity_id]
                    &&& final(self)@ == old(self)@.insert(entity_id, *final(v))
                },
                None => !old(self)@.contains_key(entity_id) && *final(self) == *old(self),
            },
    {
        let found = match self.entity_lookup.get(&entity_id) {
            Some(slot) => Some(*slot),
            None => None,
        };
        match found {
            Some(slot) => {
                let ghost pre = *self;
                let v = &mut self.data[slot];
                proof {
                    assert(after_borrow(self)@ =~= pre@.insert(entity_id, *final(v)));
                }
                Some(v)
            },
            None => None,
        }
    }

    /// The entities whose record satisfies `f`, in dense order.
    pub fn entities_where<F>(&self, f: F) -> (r: Vec<EntityId>)
        where
            F: Fn(&T) -> bool,
        requires
            self.wf(),
            forall|v: &T| #[trigger] f.requires((v,)),
        ensures
            Self::selects(self@, f, r@),
            Self::filters(self.dense_entities(), self.dense_data(), f, r@),
    {
        let mut r: Vec<EntityId> = Vec::new();
        let mut i: usize = 0;
        let ghost mut keep: Seq<bool> = Seq::empty();
        while i < self.data.len()
            invariant
                self.wf(),
                forall|v: &T| #[trigger] f.requires((v,)),
                i <= self.spec_len(),
                keep.len() == i,
                forall|j: int|
                    0 <= j < i ==> f.ensures((&#[trigger] self.dense_data()[j],), keep[j]),
                r@ == kept(self.dense_entities().take(i as int), keep),
                r@.no_duplicates(),
                forall|e: EntityId| #[trigger]
                    r@.contains(e) ==> {
                        &&& self@.contains_key(e)
                        &&& self.sparse_index()[e] < i
                        &&& f.ensures((&self@[e],), true)
                    },
                forall|j: int|
                    0 <= j < i && !r@.contains(#[trigger] self.dense_entities()[j]) ==> f.ensures(
                        (&self.dense_data()[j],),
                        false,
                    ),
            decreases self.spec_len() - i,
        {
            let e: EntityId = self.entities[i];
            let keep_it = f(&self.data[i]);
            let ghost before = r@;
            proof {
                let ents = self.dense_entities();
                assert(ents.take(i + 1).drop_last() =~= ents.take(i as int));
                let old_keep = keep;
                keep = keep.push(keep_it);
                assert(keep.drop_last() =~= old_keep);
                assert(ents.take(i + 1).last() == e);
            }
            proof {
                assert(self@[e] == self.dense_data()[i as int]);
                assert(f.ensures((&self.dense_data()[i as int],), keep_it));
            }
            if keep_it {
                proof {
                    assert(!r@.contains(e));
                }
                r.push(e);
                proof {
                    assert forall|x: EntityId| #[trigger] r@.contains(x) implies {
                        &&& self@.contains_key(x)
                        &&& self.sparse_index()[x] < i + 1
                        &&& f.ensures((&self@[x],), true)
                    } by {
                        if x != e {
                            let k = choose|k: int| 0 <= k < r@.len() && r@[k] == x;
                            assert(before[k] == x);
                            assert(before.contains(x));
                        }
                    }
                    assert forall|j: int|
                        0 <= j < i + 1 && !r@.contains(#[trigger] self.dense_entities()[j]) implies f.ensures(
                        (&self.dense_data()[j],),
                        false,
                    ) by {
                        let x = self.dense_entities()[j];
                        assert(r@[before.len() as int] == e);
                        if before.contains(x) {
                            let k = choose|k: int| 0 <= k < before.len() && before[k] == x;
                            assert(r@[k] == x);
                        }
                    }
                }
            }
            i = i + 1;
        }
        proof {
            assert(self.dense_entities().take(self.spec_len() as int) =~= self.dense_entities());
            assert forall|e: EntityId| #[trigger]
                self@.contains_key(e) && !r@.contains(e) implies f.ensures((&self@[e],), false) by {
                let j = self.sparse_index()[e] as int;
                assert(self.dense_entities()[j] == e);
            }
        }
        r
    }

    /// The owners of the stored records, in dense order.
    pub fn get_entities(&self) -> (r: Vec<EntityId>)
        requires
            self.wf(),
        ensures
            r@ == self.dense_entities(),
    {
        self.entities.clone()
    }

    /// The stored records, in dense order.
    pub fn iter(&self) -> (r: std::slice::Iter<'_, T>)
        requires
            self.wf(),
        ensures
            IteratorSpec::remaining(&r) == self.dense_data().map_values(|v: T| &v),
    {
        self.data.as_slice().iter()
    }

    /// The stored records, in dense order, to be changed in place.
    pub fn iter_mut(&mut self) -> (r: std::slice::IterMut<'_, T>)
        requires
            old(self).wf(),
        ensures
            IteratorSpec::obeys_prophetic_iter_laws(&r),
            IteratorSpec::remaining(&r).len() == old(self).dense_data().len(),
            forall|i: int|
                0 <= i < old(self).dense_data().len() ==> *IteratorSpec::remaining(&r)[i]
                    == old(self).dense_data()[i],
            forall|i: int|
                0 <= i < old(self).dense_data().len() ==> final(self).dense_data()[i]
                    == *final(IteratorSpec::remaining(&r)[i]),
            final(self).wf(),
            final(self).dense_data().len() == old(self).dense_data().len(),
            final(self).dense_entities() == old(self).dense_entities(),
            final(self).sparse_index() == old(self).sparse_index(),
            final(self).bound() == old(self).bound(),
    {
        slice_iter_mut(self.data.as_mut_slice())
    }

    /// Each owner with its record, in dense order.
    pub fn iter_with_entities(&self) -> (r: Vec<(EntityId, &T)>)
        requires
            self.wf(),
        ensures
            r@.len() == self.spec_len(),
            forall|i: int|
                0 <= i < r@.len() ==> (#[trigger] r@[i]).0 == self.dense_entities()[i] && *r@[i].1
                    == self.dense_data()[i],
    {
        let mut r: Vec<(EntityId, &T)> = Vec::new();
        let mut i: usize = 0;
        while i < self.data.len()
            invariant
                self.wf(),
                i <= self.spec_len(),
                r@.len() == i,
                forall|k: int|
                    0 <= k < i ==> (#[trigger] r@[k]).0 == self.dense_entities()[k] && *r@[k].1
                        == self.dense_data()[k],
            decreases self.spec_len() - i,
        {
            r.push((self.entities[i], &self.data[i]));
            i = i + 1;
        }
        r
    }

    /// The owners in dense order, beside the records in the same order, to
    /// be changed in place.
    pub fn iter_with_entities_mut(&mut self) -> (r: (&[EntityId], std::slice::IterMut<'_, T>))
        requires
            old(self).wf(),
        ensures
            r.0@ == old(self).dense_entities(),
            IteratorSpec::obeys_prophetic_iter_laws(&r.1),
            IteratorSpec::remaining(&r.1).len() == old(self).dense_data().len(),
            forall|i: int|
                0 <= i < old(self).dense_data().len() ==> *IteratorSpec::remaining(&r.1)[i]
                    == old(self).dense_data()[i],
            forall|i: int|
                0 <= i < old(self).dense_data().len() ==> final(self).dense_data()[i]
                    == *final(IteratorSpec::remaining(&r.1)[i]),
            final(self).wf(),
            final(self).dense_data().len() == old(self).dense_data().len(),
            final(self).dense_entities() == old(self).dense_entities(),
            final(self).sparse_index() == old(self).sparse_index(),
            final(self).bound() == old(self).bound(),
    {
        (self.entities.as_slice(), slice_iter_mut(self.data.as_mut_slice()))
    }

    /// Whether a fixed capacity is set and reached.
    pub fn is_full(&self) -> (r: bool)
        requires
            self.wf(),
        ensures
            r == self.spec_is_full(),
    {
        match self.capacity {
            Some(n) => self.data.len() >= n,
            None => false,
        }
    }
}

impl<T: Component> Default for Collection<T> {
    /// An empty collection with no fixed capacity.
    fn default() -> (r: Self)
        ensures
            r.wf(),
            r@ == Map::<EntityId, T>::empty(),
            r.dense_entities() == Seq::<EntityId>::empty(),
            r.bound() == None::<usize>,
    {
        let r = Collection {
            data: Vec::new(),
            entities: Vec::new(),
            entity_lookup: HashMap::new(),
            capacity: None,
        };
        assert(r@ =~= Map::<EntityId, T>::empty());
        r
    }
}

impl<T: Component> EntityCollection for Collection<T> {
    open spec fn well_formed(&self) -> bool {
        self.wf()
    }

    open spec fn holds(&self, entity_id: EntityId) -> bool {
        self@.contains_key(entity_id)
    }

    /// Removes the record of `entity_id`, if any: the last record moves into
    /// the freed slot, so the dense part stays packed.
    fn remove(&mut self, entity_id: EntityId)
        ensures
            Self::removed(*old(self), *final(self), entity_id),
    {
        if let Some(slot) = self.entity_lookup.get(&entity_id) {
            let slot: usize = *slot;
            let ghost pre = *self;
            let last: usize = self.data.len() - 1;
            if last != slot {
                let moved: EntityId = self.entities[last];
                self.entity_lookup.insert(moved, slot);
            }
            swap_remove_dense(&mut self.data, &mut self.entities, slot);
            self.entity_lookup.remove(&entity_id);
            proof {
                assert(self.sparse_index().dom() =~= pre.sparse_index().dom().remove(entity_id));
                assert forall|i: int| 0 <= i < self.dense_entities().len() implies {
                    &&& self.sparse_index().contains_key(#[trigger] self.dense_entities()[i])
                    &&& self.sparse_index()[self.dense_entities()[i]] == i
                } by {
                    if i != slot && i < pre.dense_entities().len() {
                        assert(self.dense_entities()[i] == pre.dense_entities()[i]);
                    }
                }
                assert(self@ =~= pre@.remove(entity_id));
            }
        } else {
            assert(self@ =~= self@.remove(entity_id));
        }
    }
}

/// std's mutable slice iterator, carried through as an opaque value.
#[verifier::external_type_specification]
#[verifier::external_body]
#[verifier::reject_recursive_types(T)]
pub struct ExIterMut<'a, T: 'a>(std::slice::IterMut<'a, T>);

/// The entries of `ents` at the positions where `keep` holds, in order.
pub open spec fn kept(ents: Seq<EntityId>, keep: Seq<bool>) -> Seq<EntityId>
    decreases ents.len(),
{
    if ents.len() == 0 || keep.len() == 0 {
        Seq::empty()
    } else {
        let prev = kept(ents.drop_last(), keep.drop_last());
        if keep.last() {
            prev.push(ents.last())
        } else {
            prev
        }
    }
}

/// Relies on `<[T]>::iter_mut`: the iterator yields, in order, one mutable
/// borrow of each element of the slice and then nothing; what is written
/// through the i-th borrow becomes the slice's i-th element, and a slice never
/// changes its length.
#[verifier::external_body]
fn slice_iter_mut<T>(s: &mut [T]) -> (r: std::slice::IterMut<'_, T>)
    ensures
        final(s)@.len() == old(s)@.len(),
        IteratorSpec::obeys_prophetic_iter_laws(&r),
        IteratorSpec::remaining(&r).len() == old(s)@.len(),
        forall|i: int| 0 <= i < old(s)@.len() ==> *IteratorSpec::remaining(&r)[i] == old(s)@[i],
        forall|i: int|
            0 <= i < old(s)@.len() ==> final(s)@[i] == *final(IteratorSpec::remaining(&r)[i]),
{
    s.iter_mut()
}

/// Removes slot `slot` from two parallel dense vectors by moving their last
/// elements into it.
fn swap_remove_dense<T>(data: &mut Vec<T>, owners: &mut Vec<EntityId>, slot: usize)
    requires
        slot < old(data).len(),
        old(data).len() == old(owners).len(),
    ensures
        final(data)@ == old(data)@.update(slot as int, old(data)@.last()).drop_last(),
        final(owners)@ == old(owners)@.update(slot as int, old(owners)@.last()).drop_last(),
{
    data.swap_remove(slot);
    owners.swap_remove(slot);
}

} // verus!
