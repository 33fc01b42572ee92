use entity_alloc::{Entities, Entity, Location, NoSuchEntity};
use hashbrown::{HashMap, HashSet};
use rand::{rngs::StdRng, Rng, SeedableRng};

#[test]
fn entity_bits_roundtrip() {
    let e = Entity {
        generation: 0xDEADBEEF,
        id: 0xBAADF00D,
    };
    assert_eq!(Entity::from_bits(e.to_bits()), e);
}

#[test]
fn alloc_and_free() {
    let mut rng = StdRng::seed_from_u64(0xFEEDFACEDEADF00D);

    let mut e = Entities::default();
    let mut first_unused = 0u32;
    let mut id_to_gen: HashMap<u32, u32> = Default::default();
    let mut free_set: HashSet<u32> = Default::default();

    for _ in 0..100 {
        let alloc = rng.gen_bool(0.7);
        if alloc || first_unused == 0 {
            let entity = e.allocate();

            let id = entity.id;
            if !free_set.is_empty() {
                // This should have come from the freelist.
                assert!(free_set.remove(&id));
            } else if id >= first_unused {
                first_unused = id + 1;
            }

            e.get_mut(entity).unwrap().index = 37;

            assert!(id_to_gen.insert(id, entity.generation).is_none());
        } else {
            // Free a random ID, whether or not it's in use, and check for errors.
            let id = rng.gen_range(0, first_unused);

            let generation = id_to_gen.remove(&id);
            let entity = Entity {
                id,
                generation: generation.unwrap_or(0),
            };

            assert_eq!(e.free(entity).is_ok(), generation.is_some());

            free_set.insert(id);
        }
    }
}

#[test]
fn contains() {
    let mut e = Entities::default();

    for _ in 0..2 {
        let entity = e.allocate();
        assert!(e.contains(entity));

        e.free(entity).unwrap();
        assert!(!e.contains(entity));
    }

    // Reserved but not flushed are still "contained".
    for _ in 0..3 {
        let entity = e.reserve_entity();
        assert!(e.contains(entity));
    }
}

// Shared test code parameterized by how we want to allocate an Entity block.
fn reserve_test_helper(reserve_n: impl FnOnce(&mut Entities, u32) -> Vec<Entity>) {
    let mut e = Entities::default();

    // Allocate 10 items.
    let mut v1: Vec<Entity> = (0..10).map(|_| e.allocate()).collect();
    assert_eq!(v1.iter().map(|e| e.id).max(), Some(9));
    for &entity in v1.iter() {
        assert!(e.contains(entity));
        e.get_mut(entity).unwrap().index = 37;
    }

    // Put the last 4 on the freelist.
    for entity in v1.drain(6..) {
        e.free(entity).unwrap();
    }
    assert_eq!(e.free_cursor(), 4);

    // Reserve 10 entities, so 4 will come from the freelist.
    // This means we will have allocated 10 + 10 - 4 total items, so max id is 15.
    let v2 = reserve_n(&mut e, 10);
    assert_eq!(v2.iter().map(|e| e.id).max(), Some(15));

    // Reserved IDs still count as "contained".
    assert!(v2.iter().all(|&entity| e.contains(entity)));

    // We should have exactly IDs 0..16
    let mut v3: Vec<Entity> = v1.iter().chain(v2.iter()).copied().collect();
    assert_eq!(v3.len(), 16);
    v3.sort_by_key(|entity| entity.id);
    for (i, entity) in v3.into_iter().enumerate() {
        assert_eq!(entity.id, i as u32);
    }

    // 6 will come from pending.
    assert_eq!(e.free_cursor(), -6);

    let mut flushed = Vec::new();
    e.flush(|id| {
        flushed.push(id);
        Location::unplaced()
    });
    flushed.sort_unstable();

    assert_eq!(flushed, (6..16).collect::<Vec<_>>());
}

#[test]
fn reserve_entity() {
    reserve_test_helper(|e, n| (0..n).map(|_| e.reserve_entity()).collect())
}

#[test]
fn reserve_entities() {
    reserve_test_helper(|e, n| e.reserve_entities(n).into_vec())
}

#[test]
fn reserve_mixed_singles_and_batches() {
    let mut e = Entities::new();
    let v1: Vec<Entity> = (0..10).map(|_| e.allocate()).collect();
    for &entity in &v1[6..] {
        e.free(entity).unwrap();
    }
    assert_eq!(e.free_cursor(), 4);
    let mut ids: Vec<u32> = Vec::new();
    ids.push(e.reserve_entity().id);
    ids.extend(e.reserve_entities(5).into_vec().iter().map(|x| x.id));
    ids.push(e.reserve_entity().id);
    ids.extend(e.reserve_entities(3).into_vec().iter().map(|x| x.id));
    assert_eq!(e.free_cursor(), -6);
    let mut sorted = ids.clone();
    sorted.sort_unstable();
    assert_eq!(sorted, (6..16).collect::<Vec<_>>());
    let mut seen = Vec::new();
    let mut flushed = e.flush(|id| {
        seen.push(id);
        Location::unplaced()
    });
    assert_eq!(seen, flushed);
    flushed.sort_unstable();
    assert_eq!(flushed, (6..16).collect::<Vec<_>>());
    assert!(!e.needs_flush());
    assert_eq!(e.free_cursor(), 0);
    assert_eq!(e.len(), 16);
}

#[test]
fn batch_order_freelist_first_then_new_ids() {
    let mut e = Entities::new();
    let v: Vec<Entity> = (0..4).map(|_| e.allocate()).collect();
    e.free(v[1]).unwrap();
    e.free(v[3]).unwrap();
    // freelist is [1, 3]; the batch takes it in list order, then new ids.
    let batch = e.reserve_entities(4).into_vec();
    assert_eq!(
        batch,
        vec![
            Entity { generation: 1, id: 1 },
            Entity { generation: 1, id: 3 },
            Entity { generation: 0, id: 4 },
            Entity { generation: 0, id: 5 },
        ]
    );
    // brand-new ids first, ascending, then the reserved recycled ids.
    let flushed = e.flush(|id| Location { archetype: 1, index: id * 10 });
    assert_eq!(flushed, vec![4, 5, 1, 3]);
    assert!(e.contains(Entity { generation: 1, id: 3 }));
    assert_eq!(e.get(Entity { generation: 1, id: 3 }), Ok(Location { archetype: 1, index: 30 }));
    assert_eq!(e.get(Entity { generation: 0, id: 5 }), Ok(Location { archetype: 1, index: 50 }));
    assert_eq!(e.get(Entity { generation: 0, id: 2 }), Ok(Location::unplaced()));
    assert_eq!(e.len(), 6);
    assert_eq!(e.free_cursor(), 0);
}

#[test]
fn single_reservations_take_freelist_from_the_top() {
    let mut e = Entities::new();
    let v: Vec<Entity> = (0..3).map(|_| e.allocate()).collect();
    e.free(v[0]).unwrap();
    e.free(v[2]).unwrap();
    assert_eq!(e.reserve_entity(), Entity { generation: 1, id: 2 });
    assert_eq!(e.reserve_entity(), Entity { generation: 1, id: 0 });
    assert_eq!(e.reserve_entity(), Entity { generation: 0, id: 3 });
    assert_eq!(e.reserve_entity(), Entity { generation: 0, id: 4 });
    assert_eq!(e.free_cursor(), -2);
}

#[test]
fn reserved_without_allocation_are_contained() {
    let mut e = Entities::new();
    for _ in 0..3 {
        let entity = e.reserve_entity();
        assert!(e.contains(entity));
    }
    assert_eq!(e.len(), 0);
    assert!(e.needs_flush());
    assert!(!e.contains(Entity { generation: 0, id: 3 }));
}

#[test]
fn double_free_is_rejected() {
    let mut e = Entities::new();
    let a = e.allocate();
    assert!(e.free(a).is_ok());
    assert_eq!(e.free(a), Err(NoSuchEntity));
    assert_eq!(e.free_cursor(), 1);
}

#[test]
fn free_returns_old_location_and_resets() {
    let mut e = Entities::new();
    let a = e.allocate();
    *e.get_mut(a).unwrap() = Location { archetype: 3, index: 7 };
    assert_eq!(e.get(a), Ok(Location { archetype: 3, index: 7 }));
    assert_eq!(e.free(a), Ok(Location { archetype: 3, index: 7 }));
    let b = e.allocate();
    assert_eq!(b, Entity { generation: 1, id: 0 });
    assert_eq!(e.get(b), Ok(Location::unplaced()));
    assert_eq!(e.get(a), Err(NoSuchEntity));
}

#[test]
fn free_unknown_id_is_rejected() {
    let mut e = Entities::new();
    assert_eq!(e.free(Entity { generation: 0, id: 5 }), Err(NoSuchEntity));
    assert_eq!(e.get_mut(Entity { generation: 0, id: 5 }), Err(NoSuchEntity));
}

#[test]
fn get_of_pending_and_missing() {
    let mut e = Entities::new();
    let r = e.reserve_entity();
    assert_eq!(e.get(r), Ok(Location { archetype: 0, index: u32::MAX }));
    assert_eq!(e.get(Entity { generation: 0, id: 1 }), Err(NoSuchEntity));
    assert_eq!(e.resolve_unknown_gen(0), Entity { generation: 0, id: 0 });
    e.flush(|_| Location::unplaced());
    assert_eq!(e.len(), 1);
    assert_eq!(e.get(r), Ok(Location::unplaced()));
}

#[test]
fn resolve_unknown_gen_reads_generation() {
    let mut e = Entities::new();
    let a = e.allocate();
    e.free(a).unwrap();
    let b = e.allocate();
    assert_eq!(e.resolve_unknown_gen(b.id), Entity { generation: 1, id: 0 });
}

#[test]
fn clear_resets_everything() {
    let mut e = Entities::new();
    let a = e.allocate();
    e.allocate();
    e.free(a).unwrap();
    e.clear();
    assert_eq!(e.len(), 0);
    assert_eq!(e.free_cursor(), 0);
    assert_eq!(e.allocate(), Entity { generation: 0, id: 0 });
}

#[test]
fn reserve_capacity_changes_nothing() {
    let mut e = Entities::new();
    let a = e.allocate();
    e.reserve(100);
    assert_eq!(e.len(), 1);
    assert!(e.contains(a));
    assert_eq!(e.allocate().id, 1);
}

#[test]
fn iterator_counts_down() {
    let mut e = Entities::new();
    let mut it = e.reserve_entities(2);
    assert_eq!(it.size_hint(), (2, Some(2)));
    assert_eq!(it.next(), Some(Entity { generation: 0, id: 0 }));
    assert_eq!(it.size_hint(), (1, Some(1)));
    assert_eq!(it.next(), Some(Entity { generation: 0, id: 1 }));
    assert_eq!(it.next(), None);
    assert_eq!(it.size_hint(), (0, Some(0)));
}

#[test]
fn bits_layout() {
    let e = Entity { generation: 2, id: 5 };
    assert_eq!(e.to_bits(), (2u64 << 32) | 5);
    assert_eq!(Entity::from_bits(0x0000_0003_0000_0009), Entity { generation: 3, id: 9 });
    assert_eq!(Entity::from_bits(u64::MAX), Entity { generation: u32::MAX, id: u32::MAX });
    assert_eq!(e.id(), 5);
}

#[test]
fn ordering_compares_generation_first() {
    let a = Entity { generation: 1, id: 0 };
    let b = Entity { generation: 0, id: 9 };
    assert!(b < a);
    assert!(Entity { generation: 1, id: 1 } > a);
}

#[test]
fn error_message() {
    assert_eq!(NoSuchEntity.message(), "no such entity");
}

#[test]
fn reserve_nothing() {
    let mut e = Entities::new();
    e.allocate();
    let mut it = e.reserve_entities(0);
    assert_eq!(it.size_hint(), (0, Some(0)));
    assert_eq!(it.next(), None);
    assert_eq!(e.free_cursor(), 0);
    assert!(!e.needs_flush());
    assert_eq!(e.flush(|_| Location::unplaced()), Vec::<u32>::new());
}

#[test]
fn generation_advances_on_each_free() {
    let mut e = Entities::new();
    let mut a = e.allocate();
    for g in 0..5u32 {
        assert_eq!(a, Entity { generation: g, id: 0 });
        e.free(a).unwrap();
        a = e.allocate();
    }
    assert_eq!(a.generation, 5);
}
