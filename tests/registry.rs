use ecss::{Collection, Component, EntityCollection, EntityId, TypeKey, ECSS};

const POSITION: TypeKey = 0;
const ATTACHED_TO: TypeKey = 1;

#[derive(Debug)]
struct Position {
    entity_id: EntityId,
    test: u32,
}

#[derive(Debug)]
struct AttachedTo {
    entity_id: EntityId,
    attached_to_entity: EntityId,
}

#[derive(Debug)]
enum Comp {
    Position(Position),
    AttachedTo(AttachedTo),
}

impl Component for Comp {
    fn entity_of(&self) -> EntityId {
        self.get_entity_id()
    }

    fn type_key_of(&self) -> u8 {
        self.get_type_id()
    }

    fn get_entity_id(&self) -> EntityId {
        match self {
            Comp::Position(p) => p.entity_id,
            Comp::AttachedTo(a) => a.entity_id,
        }
    }

    fn get_type_id(&self) -> u8 {
        match self {
            Comp::Position(_) => POSITION,
            Comp::AttachedTo(_) => ATTACHED_TO,
        }
    }
}

fn position(entity_id: EntityId, test: u32) -> Comp {
    Comp::Position(Position { entity_id, test })
}

#[test]
fn test() {
    assert_eq!(position(0, 0).get_type_id(), 0);

    let mut ecs: ECSS<Comp> = ECSS::new();
    ecs.register_sized(POSITION, 4);
    ecs.register_sized(ATTACHED_TO, 1);

    let entity_0 = ecs.create_entity();
    let entity_1 = ecs.create_entity();
    let entity_2 = ecs.create_entity();
    let entity_3 = ecs.create_entity();
    let entity_4 = ecs.create_entity();

    ecs.create(position(entity_0, 0));
    ecs.create(position(entity_1, 1));
    ecs.create(position(entity_2, 2));
    ecs.create(position(entity_3, 3));
    ecs.create(position(entity_4, 4));

    for i in ecs.entities_where(POSITION, move |e: &Comp| {
        matches!(e, Comp::Position(p) if p.test == 3)
    }) {
        assert!(i == entity_3);
    }

    ecs.create(Comp::AttachedTo(AttachedTo {
        entity_id: entity_0,
        attached_to_entity: 3,
    }));

    for typeid in ecs.components(entity_0) {
        println!("{:?}", typeid);
    }

    assert!(ecs.contains(POSITION, entity_0));
    assert!(ecs.contains(POSITION, entity_1));
    assert!(ecs.contains(POSITION, entity_2));
    assert!(ecs.contains(POSITION, entity_3));

    assert_eq!(ecs.contains(POSITION, entity_4), false);

    {
        let entity_1_diff_mem: usize = entity_1.clone();
        ecs.remove(POSITION, entity_1_diff_mem);
    }

    assert!(ecs.get(POSITION, entity_1).is_none());

    ecs.remove(POSITION, entity_1);

    if let Some(Comp::Position(pos)) = ecs.get(POSITION, entity_3) {
        assert_eq!(pos.test, 3);
    } else {
        panic!()
    }

    let mut expected = vec![entity_2, entity_3, entity_0];
    for (entity, _item) in ecs.iter_with_entities(POSITION) {
        assert_eq!(entity, expected.pop().unwrap());
    }

    let mut expected = vec![entity_0, entity_2, entity_3];
    let mut entities = ecs.entities_by_type(POSITION);
    entities.sort();
    for entity in entities {
        assert_eq!(entity, expected.pop().unwrap())
    }

    ecs.create(position(entity_4, 0));

    assert!(ecs.contains(POSITION, entity_4));

    if let Some(Comp::Position(pos)) = ecs.get_mut(POSITION, entity_4) {
        pos.test = 4;
    };

    ecs.remove(POSITION, entity_2);
    ecs.remove_all(entity_0);

    assert!(!ecs.contains(POSITION, entity_0));
    assert!(!ecs.contains(ATTACHED_TO, entity_0));

    if let Some(Comp::Position(pos)) = ecs.get(POSITION, entity_4) {
        assert_eq!(pos.test, 4);
    } else {
        panic!()
    }

    ecs.remove(POSITION, entity_4);

    if let Some(Comp::Position(pos)) = ecs.get(POSITION, entity_3) {
        assert_eq!(pos.test, 3);
    } else {
        panic!()
    }

    ecs.remove(POSITION, entity_3);

    assert_eq!(ecs.iter(POSITION).count(), 0)
}

fn test_of(ecs: &ECSS<Comp>, entity: EntityId) -> Option<u32> {
    match ecs.get(POSITION, entity) {
        Some(Comp::Position(p)) => Some(p.test),
        _ => None,
    }
}

fn stored_test(c: &Collection<Comp>, entity: EntityId) -> Option<u32> {
    match c.get(entity) {
        Some(Comp::Position(p)) => Some(p.test),
        _ => None,
    }
}

#[test]
fn unbounded_registry_removes_one_of_five() {
    let mut ecs: ECSS<Comp> = ECSS::new();
    ecs.register(POSITION);
    let mut ids = Vec::new();
    for i in 0..5u32 {
        let e = ecs.create_entity();
        ecs.create(position(e, i));
        ids.push(e);
    }
    ecs.remove(POSITION, ids[1]);
    assert!(!ecs.contains(POSITION, ids[1]));
    assert_eq!(test_of(&ecs, ids[3]), Some(3));
    let mut seen: Vec<EntityId> = ecs.iter_with_entities(POSITION).iter().map(|(e, _)| *e).collect();
    seen.sort();
    let mut want = vec![ids[0], ids[2], ids[3], ids[4]];
    want.sort();
    assert_eq!(seen, want);
}

#[test]
fn sized_registry_rejects_the_fifth_record() {
    let mut ecs: ECSS<Comp> = ECSS::new();
    ecs.register_sized(POSITION, 4);
    let mut ids = Vec::new();
    for i in 0..5u32 {
        let e = ecs.create_entity();
        ecs.create(position(e, i));
        ids.push(e);
    }
    assert!(!ecs.contains(POSITION, ids[4]));
    assert_eq!(ecs.iter(POSITION).count(), 4);
    assert_eq!(ecs.entities_by_type(POSITION), vec![ids[0], ids[1], ids[2], ids[3]]);
    assert!(ecs.components(ids[4]).is_empty());
}

#[test]
fn entity_ids_count_down_from_the_top() {
    let mut ecs: ECSS<Comp> = ECSS::default();
    assert_eq!(ecs.create_entity(), usize::MAX);
    assert_eq!(ecs.create_entity(), usize::MAX - 1);
    assert_eq!(ecs.create_entity(), usize::MAX - 2);
}

#[test]
fn create_never_overwrites() {
    let mut ecs: ECSS<Comp> = ECSS::new();
    ecs.register(POSITION);
    let e = ecs.create_entity();
    ecs.create(position(e, 7));
    ecs.create(position(e, 8));
    assert_eq!(test_of(&ecs, e), Some(7));
    assert_eq!(ecs.iter(POSITION).count(), 1);
}

#[test]
fn register_twice_keeps_the_first_collection() {
    let mut ecs: ECSS<Comp> = ECSS::new();
    ecs.register_sized(POSITION, 1);
    let e = ecs.create_entity();
    let f = ecs.create_entity();
    ecs.create(position(e, 1));
    ecs.register(POSITION);
    ecs.register_sized(POSITION, 10);
    ecs.create(position(f, 2));
    assert!(ecs.contains(POSITION, e));
    assert!(!ecs.contains(POSITION, f));
}

#[test]
fn remove_twice_changes_nothing_more() {
    let mut ecs: ECSS<Comp> = ECSS::new();
    ecs.register(POSITION);
    let a = ecs.create_entity();
    let b = ecs.create_entity();
    ecs.create(position(a, 1));
    ecs.create(position(b, 2));
    ecs.remove(POSITION, a);
    let after_first = ecs.entities_by_type(POSITION);
    ecs.remove(POSITION, a);
    assert_eq!(ecs.entities_by_type(POSITION), after_first);
    assert_eq!(after_first, vec![b]);
    assert_eq!(test_of(&ecs, b), Some(2));
}

#[test]
fn remove_all_clears_every_type() {
    let mut ecs: ECSS<Comp> = ECSS::new();
    ecs.register(POSITION);
    ecs.register(ATTACHED_TO);
    let a = ecs.create_entity();
    let b = ecs.create_entity();
    ecs.create(position(a, 1));
    ecs.create(position(b, 2));
    ecs.create(Comp::AttachedTo(AttachedTo { entity_id: a, attached_to_entity: b }));
    assert_eq!(ecs.components(a), vec![POSITION, ATTACHED_TO]);
    ecs.remove_all(a);
    assert!(!ecs.contains(POSITION, a));
    assert!(!ecs.contains(ATTACHED_TO, a));
    assert!(ecs.components(a).is_empty());
    assert!(ecs.contains(POSITION, b));
    assert_eq!(test_of(&ecs, b), Some(2));
}

#[test]
fn components_follow_create_and_remove() {
    let mut ecs: ECSS<Comp> = ECSS::new();
    ecs.register(ATTACHED_TO);
    ecs.register(POSITION);
    let a = ecs.create_entity();
    assert!(ecs.components(a).is_empty());
    ecs.create(position(a, 1));
    assert_eq!(ecs.components(a), vec![POSITION]);
    ecs.create(Comp::AttachedTo(AttachedTo { entity_id: a, attached_to_entity: a }));
    assert_eq!(ecs.components(a), vec![ATTACHED_TO, POSITION]);
    ecs.remove(ATTACHED_TO, a);
    assert_eq!(ecs.components(a), vec![POSITION]);
}

#[test]
fn full_collection_leaves_type_set_alone() {
    let mut ecs: ECSS<Comp> = ECSS::new();
    ecs.register_sized(POSITION, 0);
    let a = ecs.create_entity();
    ecs.create(position(a, 1));
    assert!(!ecs.contains(POSITION, a));
    assert!(ecs.components(a).is_empty());
}

#[test]
fn get_mut_writes_through() {
    let mut ecs: ECSS<Comp> = ECSS::new();
    ecs.register(POSITION);
    let a = ecs.create_entity();
    assert!(ecs.get_mut(POSITION, a).is_none());
    ecs.create(position(a, 1));
    if let Some(Comp::Position(p)) = ecs.get_mut(POSITION, a) {
        p.test = 9;
    }
    assert_eq!(test_of(&ecs, a), Some(9));
}

#[test]
fn iter_mut_changes_every_record() {
    let mut ecs: ECSS<Comp> = ECSS::new();
    ecs.register(POSITION);
    let a = ecs.create_entity();
    let b = ecs.create_entity();
    ecs.create(position(a, 1));
    ecs.create(position(b, 2));
    for c in ecs.iter_mut(POSITION) {
        if let Comp::Position(p) = c {
            p.test *= 10;
        }
    }
    assert_eq!(test_of(&ecs, a), Some(10));
    assert_eq!(test_of(&ecs, b), Some(20));
    let (owners, records) = ecs.iter_with_entities_mut(POSITION);
    assert_eq!(owners, &[a, b][..]);
    for (owner, c) in owners.iter().zip(records) {
        if let Comp::Position(p) = c {
            p.test = (*owner % 100) as u32;
        }
    }
    assert_eq!(test_of(&ecs, a), Some((a % 100) as u32));
    assert_eq!(test_of(&ecs, b), Some((b % 100) as u32));
}

#[test]
fn selection_ignores_history() {
    let mut one: ECSS<Comp> = ECSS::new();
    let mut two: ECSS<Comp> = ECSS::new();
    one.register(POSITION);
    two.register(POSITION);
    let mut ids = Vec::new();
    for _ in 0..7 {
        ids.push(one.create_entity());
        assert_eq!(two.create_entity(), *ids.last().unwrap());
    }
    for i in 0..6usize {
        one.create(position(ids[i], (i % 2) as u32));
    }
    for i in (0..6usize).rev() {
        two.create(position(ids[i], (i % 2) as u32));
    }
    two.create(position(ids[6], 1));
    two.remove(POSITION, ids[6]);
    one.remove(POSITION, ids[3]);
    two.remove(POSITION, ids[3]);
    let odd = |c: &Comp| matches!(c, Comp::Position(p) if p.test == 1);
    let mut a = one.entities_where(POSITION, odd);
    let mut b = two.entities_where(POSITION, odd);
    a.sort();
    b.sort();
    let mut want = vec![ids[1], ids[5]];
    want.sort();
    assert_eq!(a, want);
    assert_eq!(a, b);
}

#[test]
fn selection_lists_matches_in_dense_order() {
    let mut ecs: ECSS<Comp> = ECSS::new();
    ecs.register(POSITION);
    let ids: Vec<EntityId> = (0..5).map(|_| ecs.create_entity()).collect();
    for (i, e) in ids.iter().enumerate() {
        ecs.create(position(*e, i as u32));
    }
    ecs.remove(POSITION, ids[0]);
    let even = |c: &Comp| matches!(c, Comp::Position(p) if p.test % 2 == 0);
    assert_eq!(ecs.entities_where(POSITION, even), vec![ids[4], ids[2]]);
}

#[test]
fn collection_swap_removes() {
    let mut c: Collection<Comp> = Collection::default();
    assert!(c.is_empty());
    assert!(!c.is_full());
    c.create(position(10, 0));
    c.create(position(11, 1));
    c.create(position(12, 2));
    EntityCollection::remove(&mut c, 10);
    assert_eq!(c.get_entities(), vec![12, 11]);
    assert_eq!(stored_test(&c, 12), Some(2));
    assert_eq!(stored_test(&c, 11), Some(1));
    assert!(!c.contains(10));
    EntityCollection::remove(&mut c, 11);
    assert_eq!(c.get_entities(), vec![12]);
    EntityCollection::remove(&mut c, 12);
    assert!(c.is_empty());
    EntityCollection::remove(&mut c, 12);
    assert!(c.get_entities().is_empty());
}

#[test]
fn collection_capacity() {
    let mut c: Collection<Comp> = Collection::new(2);
    assert!(!c.is_full());
    c.create(position(1, 1));
    c.create(position(2, 2));
    assert!(c.is_full());
    c.create(position(3, 3));
    assert!(!c.contains(3));
    assert_eq!(c.iter().count(), 2);
    EntityCollection::remove(&mut c, 1);
    assert!(!c.is_full());
    c.create(position(3, 3));
    assert_eq!(c.get_entities(), vec![2, 3]);
}

#[test]
fn collection_selection_and_access() {
    let mut c: Collection<Comp> = Collection::new(8);
    for i in 0..5usize {
        c.create(position(i, i as u32 * 2));
    }
    let mut big = c.entities_where(|v: &Comp| matches!(v, Comp::Position(p) if p.test >= 4));
    big.sort();
    assert_eq!(big, vec![2, 3, 4]);
    assert!(c.entities_where(|_: &Comp| false).is_empty());
    if let Some(Comp::Position(p)) = c.get_mut(4) {
        p.test = 1;
    }
    assert_eq!(stored_test(&c, 4), Some(1));
    assert!(c.get(9).is_none());
    let pairs: Vec<(EntityId, u32)> = c
        .iter_with_entities()
        .into_iter()
        .map(|(e, v)| match v {
            Comp::Position(p) => (e, p.test),
            Comp::AttachedTo(_) => (e, u32::MAX),
        })
        .collect();
    assert_eq!(pairs, vec![(0, 0), (1, 2), (2, 4), (3, 6), (4, 1)]);
    for v in c.iter_mut() {
        if let Comp::Position(p) = v {
            p.test += 1;
        }
    }
    assert_eq!(stored_test(&c, 0), Some(1));
    let (owners, records) = c.iter_with_entities_mut();
    assert_eq!(owners.len(), 5);
    assert_eq!(records.count(), 5);
}
