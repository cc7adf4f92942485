use crate::collection::{Collection, Component, EntityId, TypeKey};
use crate::ecss::ECSS;
use vstd::prelude::*;

verus! {

/// One mutation of a collection.
pub enum Op<T> {
    Create(T),
    Remove(EntityId),
}

/// Whether `post` is what `op` makes of `pre`.
pub open spec fn step<T: Component>(pre: Collection<T>, op: Op<T>, post: Collection<T>) -> bool {
    match op {
        Op::Create(data) => Collection::created(pre, post, data),
        Op::Remove(entity) => Collection::removed(pre, post, entity),
    }
}

/// The records held after `ops`, starting from the records `m` in a
/// collection of capacity `bound`: a create stores its record only for an
/// entity without one, and only below the capacity.
pub open spec fn replay<T: Component>(
    m: Map<EntityId, T>,
    bound: Option<usize>,
    ops: Seq<Op<T>>,
) -> Map<EntityId, T>
    decreases ops.len(),
{
    if ops.len() == 0 {
        m
    } else {
        let prev = replay(m, bound, ops.drop_last());
        match ops.last() {
            Op::Create(data) => {
                let full = match bound {
                    Some(n) => prev.len() >= n,
                    None => false,
                };
                if !prev.contains_key(data.entity_of()) && !full {
                    prev.insert(data.entity_of(), data)
                } else {
                    prev
                }
            },
            Op::Remove(entity) => prev.remove(entity),
        }
    }
}

/// In a well-formed collection the number of stored entities is the length
/// of the dense part.
pub proof fn lemma_view_len<T>(c: Collection<T>)
    requires
        c.wf(),
    ensures
        c@.dom() == c.sparse_index().dom(),
        c@.len() == c.spec_len(),
{
    assert(c@.dom() =~= c.sparse_index().dom());
}

/// Along any run of creates and removes, every state is well formed: each
/// stored entity owns the dense slot that the index gives it, and the record
/// in that slot is the one that the run's history leaves for it, that of the
/// latest create that stored a record for it (a create for an entity that
/// already has a record leaves that record as it is).
pub proof fn lemma_history<T: Component>(states: Seq<Collection<T>>, ops: Seq<Op<T>>)
    requires
        states.len() == ops.len() + 1,
        states[0].wf(),
        forall|i: int| 0 <= i < ops.len() ==> #[trigger] step(states[i], ops[i], states[i + 1]),
    ensures
        forall|i: int|
            0 <= i < states.len() ==> {
                &&& #[trigger] states[i].wf()
                &&& states[i].bound() == states[0].bound()
                &&& states[i]@ == replay(states[0]@, states[0].bound(), ops.take(i))
                &&& forall|e: EntityId| #[trigger]
                    states[i]@.contains_key(e) ==> {
                        &&& states[i].dense_entities()[states[i].sparse_index()[e] as int] == e
                        &&& states[i].dense_data()[states[i].sparse_index()[e] as int]
                            == states[i]@[e]
                    }
            },
    decreases ops.len(),
{
    if ops.len() == 0 {
        assert(ops.take(0) =~= Seq::<Op<T>>::empty());
    } else {
        let n = ops.len() as int;
        let s0 = states.drop_last();
        let o0 = ops.drop_last();
        assert forall|i: int| 0 <= i < o0.len() implies #[trigger] step(s0[i], o0[i], s0[i + 1]) by {
            assert(step(states[i], ops[i], states[i + 1]));
        }
        lemma_history(s0, o0);
        assert forall|i: int| 0 <= i < states.len() implies {
            &&& #[trigger] states[i].wf()
            &&& states[i].bound() == states[0].bound()
            &&& states[i]@ == replay(states[0]@, states[0].bound(), ops.take(i))
            &&& forall|e: EntityId| #[trigger]
                states[i]@.contains_key(e) ==> {
                    &&& states[i].dense_entities()[states[i].sparse_index()[e] as int] == e
                    &&& states[i].dense_data()[states[i].sparse_index()[e] as int] == states[i]@[e]
                }
        } by {
            if i < n {
                assert(s0[i] == states[i]);
                assert(o0.take(i) =~= ops.take(i));
            } else {
                let pre = states[n - 1];
                assert(s0[n - 1] == pre);
                assert(o0.take(n - 1) =~= ops.take(n - 1));
                assert(ops.take(n).drop_last() =~= ops.take(n - 1));
                assert(ops.take(n).last() == ops[n - 1]);
                assert(step(states[n - 1], ops[n - 1], states[n]));
                lemma_view_len(pre);
            }
        }
    }
}

/// Removing an entity twice in a row: the second removal changes nothing.
pub proof fn lemma_remove_idempotent<T: Component>(
    c0: Collection<T>,
    c1: Collection<T>,
    c2: Collection<T>,
    entity: EntityId,
)
    requires
        c0.wf(),
        Collection::removed(c0, c1, entity),
        Collection::removed(c1, c2, entity),
    ensures
        c2 == c1,
{
    assert(!c1@.contains_key(entity));
}

/// Filling an empty collection of capacity `n` with records of `n + 1`
/// distinct entities: the first `n` creates store their record, the last one
/// finds the collection full and stores nothing.
pub proof fn lemma_capacity<T: Component>(states: Seq<Collection<T>>, items: Seq<T>, n: usize)
    requires
        items.len() == n + 1,
        states.len() == n + 2,
        states[0].wf(),
        states[0]@ == Map::<EntityId, T>::empty(),
        states[0].bound() == Some(n),
        forall|i: int|
            0 <= i < items.len() ==> #[trigger] Collection::created(
                states[i],
                states[i + 1],
                items[i],
            ),
        forall|i: int, j: int|
            0 <= i < j < items.len() ==> #[trigger] items[i].entity_of()
                != #[trigger] items[j].entity_of(),
    ensures
        forall|i: int| 0 <= i < n ==> #[trigger] states[i + 1]@.contains_key(items[i].entity_of()),
        states[n + 1].spec_len() == n,
        !states[n + 1]@.contains_key(items[n as int].entity_of()),
{
    lemma_fill(states, items, n, n as int);
    let last = states[n as int];
    assert(Collection::created(last, states[n + 1], items[n as int]));
    assert(last.spec_is_full());
    assert forall|i: int| 0 <= i < n implies #[trigger] states[i + 1]@.contains_key(
        items[i].entity_of(),
    ) by {
        lemma_fill(states, items, n, i + 1);
    }
    if last@.contains_key(items[n as int].entity_of()) {
        let j = choose|j: int| 0 <= j < n && items[j].entity_of() == items[n as int].entity_of();
        assert(items[j].entity_of() != items[n as int].entity_of());
    }
}

/// The same run through a registry: after `register_sized(key, n)` leaves an
/// empty collection of capacity `n` for `key`, creating records of `n + 1`
/// distinct entities of that type stores the first `n` and not the last, and
/// `n` records remain.
pub proof fn lemma_registry_capacity<C: Component>(
    regs: Seq<ECSS<C>>,
    items: Seq<C>,
    key: TypeKey,
    n: usize,
)
    requires
        items.len() == n + 1,
        regs.len() == n + 2,
        regs[0].is_registered(key),
        regs[0].wf(),
        regs[0].store(key) == Map::<EntityId, C>::empty(),
        regs[0].stores()[key].bound() == Some(n),
        forall|i: int|
            0 <= i < items.len() ==> (#[trigger] items[i]).type_key_of() == key
                && Collection::created(regs[i].stores()[key], regs[i + 1].stores()[key], items[i]),
        forall|i: int, j: int|
            0 <= i < j < items.len() ==> #[trigger] items[i].entity_of()
                != #[trigger] items[j].entity_of(),
    ensures
        forall|i: int|
            0 <= i < n ==> #[trigger] regs[i + 1].store(key).contains_key(items[i].entity_of()),
        regs[n + 1].stores()[key].spec_len() == n,
        regs[n + 1].store(key).len() == n,
        !regs[n + 1].store(key).contains_key(items[n as int].entity_of()),
{
    let states = Seq::new((n + 2) as nat, |i: int| regs[i].stores()[key]);
    assert forall|i: int| 0 <= i < items.len() implies #[trigger] Collection::created(
        states[i],
        states[i + 1],
        items[i],
    ) by {
        assert(items[i].type_key_of() == key);
    }
    lemma_capacity(states, items, n);
    assert(Collection::created(states[n as int], states[n + 1], items[n as int]));
    lemma_view_len(states[n + 1]);
    assert forall|i: int| 0 <= i < n implies #[trigger] regs[i + 1].store(key).contains_key(
        items[i].entity_of(),
    ) by {
        assert(states[i + 1]@.contains_key(items[i].entity_of()));
    }
}

/// After the first `k` creates of `lemma_capacity`'s run, `k` records are
/// stored: exactly those of the first `k` entities.
proof fn lemma_fill<T: Component>(states: Seq<Collection<T>>, items: Seq<T>, n: usize, k: int)
    requires
        items.len() == n + 1,
        states.len() == n + 2,
        states[0].wf(),
        states[0]@ == Map::<EntityId, T>::empty(),
        states[0].bound() == Some(n),
        forall|i: int|
            0 <= i < items.len() ==> #[trigger] Collection::created(
                states[i],
                states[i + 1],
                items[i],
            ),
        forall|i: int, j: int|
            0 <= i < j < items.len() ==> #[trigger] items[i].entity_of()
                != #[trigger] items[j].entity_of(),
        0 <= k <= n,
    ensures
        states[k].wf(),
        states[k].bound() == Some(n),
        states[k].spec_len() == k,
        forall|j: int| 0 <= j < k ==> #[trigger] states[k]@.contains_key(items[j].entity_of()),
        forall|e: EntityId|
            #[trigger] states[k]@.contains_key(e) ==> exists|j: int|
                0 <= j < k && items[j].entity_of() == e,
    decreases k,
{
    if k == 0 {
        lemma_view_len(states[0]);
    } else {
        lemma_fill(states, items, n, k - 1);
        let i = k - 1;
        let pre = states[i];
        let data = items[i];
        assert(Collection::created(states[i], states[i + 1], items[i]));
        if pre@.contains_key(data.entity_of()) {
            let j = choose|j: int| 0 <= j < k - 1 && items[j].entity_of() == data.entity_of();
            assert(items[j].entity_of() != items[k - 1].entity_of());
        }
        assert forall|e: EntityId| #[trigger] states[k]@.contains_key(e) implies exists|j: int|
            0 <= j < k && items[j].entity_of() == e by {
            if e != data.entity_of() {
                assert(pre@.contains_key(e));
            }
        }
    }
}

/// Which entities `entities_where` selects depends on the stored records
/// alone, not on the order in which they were created or removed.
pub proof fn lemma_selection_depends_on_contents<T: Component, F: Fn(&T) -> bool>(
    c1: Collection<T>,
    c2: Collection<T>,
    f: F,
    r1: Seq<EntityId>,
    r2: Seq<EntityId>,
)
    requires
        c1@ == c2@,
        Collection::selects(c1@, f, r1),
        Collection::selects(c2@, f, r2),
        forall|v: &T, b1: bool, b2: bool|
            f.ensures((v,), b1) && f.ensures((v,), b2) ==> b1 == b2,
    ensures
        r1.to_set() == r2.to_set(),
{
    assert forall|e: EntityId| r1.to_set().contains(e) <==> r2.to_set().contains(e) by {
        if r1.contains(e) && !r2.contains(e) {
            assert(f.ensures((&c1@[e],), true));
            assert(f.ensures((&c2@[e],), false));
        }
        if r2.contains(e) && !r1.contains(e) {
            assert(f.ensures((&c2@[e],), true));
            assert(f.ensures((&c1@[e],), false));
        }
    }
    assert(r1.to_set() =~= r2.to_set());
}

} // verus!
