use flecs_ecs::ids::{NULL_ENTITY, ANY};
use flecs_ecs::world::{World, WorldIndices, RegistrationError, TypeInfo, WORLD_SPAN, RESERVED_IDS};

#[test]
fn identity_is_stable_within_a_world() {
    let mut w = World::new(0);
    let a = w.identity_of(10, "Position", None).unwrap();
    let b = w.identity_of(10, "Position", None).unwrap();
    assert_eq!(a, b);
    assert_eq!(w.count(), 1);
    assert_eq!(w.lookup(10), Some(a));
}

#[test]
fn distinct_types_get_distinct_identities() {
    let mut w = World::new(0);
    let a = w.identity_of(10, "Position", None).unwrap();
    let b = w.identity_of(11, "Velocity", None).unwrap();
    assert_ne!(a, b);
    assert_eq!(a, RESERVED_IDS);
    assert_eq!(b, RESERVED_IDS + 1);
    assert_eq!(w.name(a), "Position");
    assert_eq!(w.lookup(12), None);
}

#[test]
fn worlds_do_not_share_identities() {
    let mut w1 = World::new(1);
    let mut w2 = World::new(2);
    let a = w1.identity_of(10, "Position", None).unwrap();
    let b = w2.identity_of(10, "Position", None).unwrap();
    assert_ne!(a, b);
    assert_eq!(a, WORLD_SPAN + RESERVED_IDS);
    assert_eq!(b, 2 * WORLD_SPAN + RESERVED_IDS);
    assert!(w1.contains(a));
    assert!(!w1.contains(b));
    assert!(!w2.contains(a));
}

#[test]
fn created_entities_are_live_and_unparented() {
    let mut w = World::new(3);
    let e = w.create_entity("thing").unwrap();
    assert!(w.contains(e));
    assert_eq!(w.parent(e), NULL_ENTITY);
    assert!(!w.prefab(e));
    assert!(!w.contains(ANY));
    assert_eq!(w.path(e), "::thing");
    assert!(w.has_room());
    let ok: Result<u64, RegistrationError> = Ok(e);
    assert!(ok.is_ok());
}

#[test]
fn prefab_of_is_idempotent_and_marks_prefab() {
    let mut w = World::new(0);
    let a = w.prefab_of(7, "Turret").unwrap();
    let b = w.prefab_of(7, "Turret").unwrap();
    assert_eq!(a, b);
    assert!(w.prefab(a));
    assert_eq!(w.count(), 1);
}

#[test]
fn paths_follow_parents() {
    let mut w = World::new(0);
    let railgun = w.create_entity("Railgun").unwrap();
    let beam = w.create_entity("Beam").unwrap();
    w.child_of(beam, railgun);
    assert_eq!(w.path(beam), "::Railgun::Beam");
    assert_eq!(w.path(railgun), "::Railgun");
    assert_eq!(w.parent(beam), railgun);
}

#[test]
fn slot_resolution_end_to_end() {
    let mut w = World::new(0);
    let turret = w.prefab_of(1, "Turret").unwrap();
    let base = w.prefab_of(2, "Base").unwrap();
    let head = w.prefab_of(3, "Head").unwrap();
    w.slot_of(base, turret);
    w.slot_of(head, turret);
    let railgun = w.prefab_of(4, "Railgun").unwrap();
    w.is_a(railgun, turret).unwrap();
    let beam = w.prefab_of(5, "Beam").unwrap();
    w.slot_of(beam, railgun);

    let inst = w.create_entity("my_railgun").unwrap();
    w.is_a(inst, railgun).unwrap();

    let b = w.resolve_slot(inst, base, 0);
    let h = w.resolve_slot(inst, head, 0);
    let m = w.resolve_slot(inst, beam, 0);
    assert!(w.contains(b) && w.contains(h) && w.contains(m));
    assert_ne!(b, h);
    assert_ne!(b, m);
    assert_ne!(h, m);
    assert_eq!(w.path(b), "::my_railgun::Base");
    assert_eq!(w.path(h), "::my_railgun::Head");
    assert_eq!(w.path(m), "::my_railgun::Beam");
    assert_eq!(w.parent(b), inst);
}

#[test]
fn missing_slot_resolves_to_null() {
    let mut w = World::new(0);
    let turret = w.prefab_of(1, "Turret").unwrap();
    let base = w.prefab_of(2, "Base").unwrap();
    w.slot_of(base, turret);
    let inst = w.create_entity("t").unwrap();
    w.is_a(inst, turret).unwrap();
    let other = w.create_entity("plain").unwrap();
    assert_eq!(w.resolve_slot(other, base, 0), NULL_ENTITY);
    assert_eq!(w.resolve_slot(inst, base, 1), NULL_ENTITY);
    assert_ne!(w.resolve_slot(inst, base, 0), NULL_ENTITY);
    assert_eq!(w.resolve_slot(turret, base, 0), base);
}

#[test]
fn slot_children_of_prefabs_are_prefabs() {
    let mut w = World::new(0);
    let turret = w.prefab_of(1, "Turret").unwrap();
    let base = w.prefab_of(2, "Base").unwrap();
    w.slot_of(base, turret);
    let railgun = w.prefab_of(4, "Railgun").unwrap();
    w.is_a(railgun, turret).unwrap();
    let copy = w.resolve_slot(railgun, base, 0);
    assert_ne!(copy, base);
    assert!(w.prefab(copy));
    assert_eq!(w.path(copy), "::Railgun::Base");
}

#[test]
fn type_descriptor_is_recorded_on_first_registration() {
    let mut w = World::new(0);
    let info = TypeInfo { size: 8, alignment: 4, has_ctor: true, has_dtor: false, has_move: true, has_copy: true };
    let other = TypeInfo { size: 16, alignment: 8, has_ctor: false, has_dtor: true, has_move: false, has_copy: false };
    let pos = w.identity_of(10, "Position", Some(info)).unwrap();
    assert_eq!(w.type_info(pos), Some(info));
    let again = w.identity_of(10, "Position", Some(other)).unwrap();
    assert_eq!(again, pos);
    assert_eq!(w.type_info(pos), Some(info));
    let tag = w.identity_of(11, "Tag", None).unwrap();
    assert_eq!(w.type_info(tag), None);
    assert_eq!(w.count(), 2);
}

#[test]
fn slots_declared_later_on_an_ancestor_reach_new_instances() {
    let mut w = World::new(0);
    let turret = w.prefab_of(1, "Turret").unwrap();
    let railgun = w.prefab_of(4, "Railgun").unwrap();
    w.is_a(railgun, turret).unwrap();
    let base = w.prefab_of(2, "Base").unwrap();
    w.slot_of(base, turret);
    let inst = w.create_entity("my_railgun").unwrap();
    w.is_a(inst, railgun).unwrap();
    let b = w.resolve_slot(inst, base, 0);
    assert!(w.contains(b));
    assert_eq!(w.path(b), "::my_railgun::Base");
    assert_eq!(w.resolve_slot(inst, base, 1), NULL_ENTITY);
}

#[test]
fn index_source_gives_each_world_its_own_range() {
    let mut src = WorldIndices::new();
    let mut w1 = src.make_world().unwrap();
    let mut w2 = src.make_world().unwrap();
    assert_eq!(w1.world_index(), 0);
    assert_eq!(w2.world_index(), 1);
    let a = w1.identity_of(10, "Position", None).unwrap();
    let b = w2.identity_of(10, "Position", None).unwrap();
    assert_ne!(a, b);
    assert!(!w2.contains(a));
}
