use flecs_ecs::ids::{NULL_ENTITY, ANY, MAX_TERMS, MAX_EVENTS};
use flecs_ecs::term::{Term, TermError, Polarity, Access, MatchMode};
use flecs_ecs::query::{QueryBuilder, TypeToken, TermKind, DescError, SubmitError, check_terms, check_targets, derive_term};
use flecs_ecs::observer::{ObserverBuilder, notification_order};
use flecs_ecs::world::{World, TypeInfo};

fn token(key: u64, name: &str, kind: TermKind) -> TypeToken {
    TypeToken { key, name: name.to_string(), kind, info: None }
}

#[test]
fn query_terms_keep_their_order() {
    let a = Term::new(100);
    let b = Term::new(200);
    let c = Term::new(300);
    let mut q = QueryBuilder::new();
    q.add_term(a);
    q.add_term(b);
    q.add_term(c);
    assert_eq!(q.term_count(), 3);
    let d = q.build().unwrap();
    assert_eq!(d.terms, vec![a, b, c]);
}

#[test]
fn default_term_settings() {
    let t = Term::new(42);
    assert_eq!(t.relationship, 42);
    assert_eq!(t.target, ANY);
    assert_eq!(t.match_mode, MatchMode::Owned);
    assert_eq!(t.polarity, Polarity::Require);
    assert_eq!(t.access, Access::Read);
    assert_eq!(Term::self_ref(42).target, 42);
    assert_eq!(t.validate(), Ok(()));
}

#[test]
fn term_setters_change_one_field() {
    let mut t = Term::empty();
    assert_eq!(t.validate(), Err(TermError::MissingRelationship));
    t.set_relationship(50);
    t.set_target(60);
    t.set_match_mode(MatchMode::Up(70));
    t.set_polarity(Polarity::Optional);
    t.set_access(Access::Read);
    assert_eq!(t.relationship, 50);
    assert_eq!(t.target, 60);
    assert_eq!(t.match_mode, MatchMode::Up(70));
    assert_eq!(t.validate(), Ok(()));
}

#[test]
fn uncertain_terms_refuse_write_access() {
    let mut opt = Term::new(100);
    opt.set_polarity(Polarity::Optional);
    opt.set_access(Access::Write);
    assert_eq!(opt.validate(), Err(TermError::WriteOnUncertainMatch));
    let mut not = Term::new(101);
    not.set_polarity(Polarity::Exclude);
    not.set_access(Access::ReadWrite);
    assert_eq!(not.validate(), Err(TermError::WriteOnUncertainMatch));

    let mut q = QueryBuilder::new();
    q.add_term(Term::new(5));
    q.add_term(opt);
    assert_eq!(q.build().err(), Some(DescError::InvalidTerm(1, TermError::WriteOnUncertainMatch)));
}

#[test]
fn too_many_terms_are_refused() {
    let mut q = QueryBuilder::new();
    let mut i: u64 = 0;
    while i < MAX_TERMS as u64 + 1 {
        q.add_term(Term::new(100 + i));
        i += 1;
    }
    assert_eq!(q.build().err(), Some(DescError::TooManyTerms));

    let mut full = QueryBuilder::new();
    let mut j: u64 = 0;
    while j < MAX_TERMS as u64 {
        full.add_term(Term::new(100 + j));
        j += 1;
    }
    assert!(full.build().is_ok());
}

#[test]
fn conflicting_access_is_refused() {
    let read = Term::self_ref(100);
    let mut write = Term::self_ref(100);
    write.set_access(Access::Write);
    assert_eq!(check_terms(&vec![read, write]), Err(DescError::ConflictingAccess));
    assert_eq!(check_terms(&vec![read, read]), Ok(()));
    assert_eq!(check_terms(&vec![Term::empty()]), Err(DescError::InvalidTerm(0, TermError::MissingRelationship)));
}

#[test]
fn query_policy_flags() {
    let mut q = QueryBuilder::new();
    q.cached(true);
    q.instanced(true);
    q.order_by(77);
    q.add_term(Term::new(9));
    let d = q.build().unwrap();
    assert!(d.cached);
    assert!(d.instanced);
    assert_eq!(d.order_by, 77);
}

#[test]
fn terms_derived_from_type_tokens() {
    let mut w = World::new(0);
    let mut q = QueryBuilder::new();
    let tokens = vec![
        token(1, "Position", TermKind::Ref),
        token(2, "Velocity", TermKind::Mut),
        token(3, "Mass", TermKind::Opt),
        token(4, "Frozen", TermKind::Not),
    ];
    q.populate(&mut w, &tokens).unwrap();
    let d = q.build().unwrap();
    assert_eq!(d.terms.len(), 4);
    let pos = w.lookup(1).unwrap();
    assert_eq!(d.terms[0], derive_term(TermKind::Ref, pos));
    assert_eq!(d.terms[0].relationship, pos);
    assert_eq!(d.terms[0].target, pos);
    assert_eq!(d.terms[0].access, Access::Read);
    assert_eq!(d.terms[1].access, Access::Write);
    assert_eq!(d.terms[2].polarity, Polarity::Optional);
    assert_eq!(d.terms[3].polarity, Polarity::Exclude);
    assert_eq!(d.terms[3].access, Access::NoAccess);
    assert_eq!(w.name(pos), "Position");
}

#[test]
fn observer_requires_an_event() {
    let mut w = World::new(0);
    let tokens = vec![token(1, "Position", TermKind::Ref)];
    let b = ObserverBuilder::new(&mut w, &tokens).unwrap();
    assert_eq!(b.event_count(), 0);
    assert_eq!(b.build().err(), Some(DescError::NoEvents));

    let mut b = ObserverBuilder::new(&mut w, &tokens).unwrap();
    b.add_event_id(500);
    assert_eq!(b.event_count(), 1);
    let d = b.build().unwrap();
    assert_eq!(d.events, vec![500]);
    assert_eq!(d.query.terms.len(), 1);
}

#[test]
fn observer_event_limit() {
    let mut w = World::new(0);
    let mut b = ObserverBuilder::new(&mut w, &vec![]).unwrap();
    let mut i: u64 = 0;
    while i < MAX_EVENTS as u64 + 1 {
        b.add_event_id(600 + i);
        i += 1;
    }
    assert_eq!(b.event_count(), MAX_EVENTS as i32 + 1);
    assert_eq!(b.build().err(), Some(DescError::TooManyEvents));
}

#[test]
fn observer_events_by_type_and_flags() {
    let mut w = World::new(0);
    let mut b = ObserverBuilder::new_named(&mut w, "watcher", &vec![]).unwrap();
    let on_add = b.add_event(&mut w, 90, "OnAdd", None).unwrap();
    let again = b.add_event(&mut w, 90, "OnAdd", None).unwrap();
    assert_eq!(on_add, again);
    b.add_term(Term::new(on_add));
    b.yield_existing(true);
    b.instanced(true);
    assert_eq!(b.term_count(), 1);
    let d = b.build().unwrap();
    assert_eq!(d.events, vec![on_add, on_add]);
    assert!(d.yield_existing);
    assert!(d.instanced);
    assert_eq!(w.path(d.entity), "::watcher");
}

#[test]
fn observer_terms_are_validated() {
    let mut w = World::new(0);
    let mut b = ObserverBuilder::new(&mut w, &vec![]).unwrap();
    let mut t = Term::new(8);
    t.set_polarity(Polarity::Exclude);
    t.set_access(Access::Write);
    b.add_term(t);
    b.add_event_id(500);
    assert_eq!(b.build().err(), Some(DescError::InvalidTerm(0, TermError::WriteOnUncertainMatch)));
}

#[test]
fn observer_from_existing_descriptor() {
    let mut w = World::new(0);
    let mut b = ObserverBuilder::new(&mut w, &vec![]).unwrap();
    b.add_event_id(500);
    b.yield_existing(true);
    let d = b.build().unwrap();
    let entity = d.entity;
    let count = w.count();
    let mut again = ObserverBuilder::new_from_desc(&mut w, d).unwrap();
    assert_eq!(w.count(), count);
    assert_eq!(again.event_count(), 0);
    again.add_event_id(501);
    assert_eq!(again.event_count(), 1);
    let d2 = again.build().unwrap();
    assert_eq!(d2.entity, entity);
    assert_eq!(d2.events, vec![501]);
    assert!(d2.yield_existing);

    let mut fresh = d2;
    fresh.entity = NULL_ENTITY;
    let third = ObserverBuilder::new_from_desc(&mut w, fresh).unwrap();
    assert_eq!(w.count(), count + 1);
    assert!(third.build().unwrap().entity != NULL_ENTITY);
}

#[test]
fn yield_existing_reports_existing_first() {
    let mut w = World::new(0);
    let mut b = ObserverBuilder::new(&mut w, &vec![]).unwrap();
    b.add_event_id(500);
    b.yield_existing(true);
    let d = b.build().unwrap();
    let order = notification_order(&d, &vec![1, 2, 3], &vec![9, 8]);
    assert_eq!(order, vec![1, 2, 3, 9, 8]);

    let mut b = ObserverBuilder::new(&mut w, &vec![]).unwrap();
    b.add_event_id(500);
    let d = b.build().unwrap();
    assert_eq!(notification_order(&d, &vec![1, 2, 3], &vec![9, 8]), vec![9, 8]);
}

#[test]
fn unresolved_targets_are_reported_at_submission() {
    let mut w = World::new(0);
    let rel = w.create_entity("Likes").unwrap();
    let bob = w.create_entity("Bob").unwrap();
    let mut good = Term::new(rel);
    good.set_target(bob);
    let any = Term::new(rel);
    let mut dangling = Term::new(rel);
    dangling.set_target(bob + 1000);
    assert_eq!(check_targets(&w, &vec![good, any]), Ok(()));
    assert_eq!(check_targets(&w, &vec![good, dangling, any]), Err(SubmitError::UnresolvedTarget(1)));
}

#[test]
fn observer_query_desc_shows_terms() {
    let mut w = World::new(0);
    let tokens = vec![token(1, "Position", TermKind::Ref), token(2, "Velocity", TermKind::Mut)];
    let b = ObserverBuilder::new(&mut w, &tokens).unwrap();
    assert_eq!(b.query_desc().terms.len(), 2);
    assert_eq!(b.query_desc().terms[1].access, Access::Write);
}

#[test]
fn named_observer_reuses_root_entity_of_that_name() {
    let mut w = World::new(0);
    let existing = w.create_entity("watcher").unwrap();
    let count = w.count();
    let b = ObserverBuilder::new_named(&mut w, "watcher", &vec![]).unwrap();
    assert_eq!(w.count(), count);
    let mut b = b;
    b.add_event_id(500);
    assert_eq!(b.build().unwrap().entity, existing);

    let parent = w.create_entity("outer").unwrap();
    let nested = w.create_entity("inner").unwrap();
    w.child_of(nested, parent);
    let mut c = ObserverBuilder::new_named(&mut w, "inner", &vec![]).unwrap();
    c.add_event_id(500);
    let d = c.build().unwrap();
    assert_ne!(d.entity, nested);
    assert_eq!(w.path(d.entity), "::inner");
}

#[test]
fn unnamed_observers_get_fresh_entities() {
    let mut w = World::new(0);
    let mut a = ObserverBuilder::new(&mut w, &vec![]).unwrap();
    let mut b = ObserverBuilder::new(&mut w, &vec![]).unwrap();
    a.add_event_id(500);
    b.add_event_id(500);
    assert_ne!(a.build().unwrap().entity, b.build().unwrap().entity);
    assert_eq!(w.count(), 2);
}

#[test]
fn observer_query_policy() {
    let mut w = World::new(0);
    let mut b = ObserverBuilder::new(&mut w, &vec![]).unwrap();
    b.cached(true);
    b.order_by(42);
    b.add_event_id(500);
    assert!(b.query_desc().cached);
    assert_eq!(b.query_desc().order_by, 42);
    let d = b.build().unwrap();
    assert!(d.query.cached);
    assert_eq!(d.query.order_by, 42);
}

#[test]
fn token_descriptors_are_recorded() {
    let mut w = World::new(0);
    let info = TypeInfo { size: 12, alignment: 4, has_ctor: false, has_dtor: false, has_move: true, has_copy: true };
    let tokens = vec![
        TypeToken { key: 1, name: "Position".to_string(), kind: TermKind::Ref, info: Some(info) },
        token(2, "Enemy", TermKind::Not),
    ];
    let mut q = QueryBuilder::new();
    q.populate(&mut w, &tokens).unwrap();
    let pos = w.lookup(1).unwrap();
    let enemy = w.lookup(2).unwrap();
    assert_eq!(w.type_info(pos), Some(info));
    assert_eq!(w.type_info(enemy), None);
}

#[test]
fn add_event_records_descriptor_of_new_event_type() {
    let mut w = World::new(0);
    let info = TypeInfo { size: 0, alignment: 1, has_ctor: false, has_dtor: false, has_move: false, has_copy: false };
    let mut b = ObserverBuilder::new(&mut w, &vec![]).unwrap();
    let id = b.add_event(&mut w, 77, "Hit", Some(info)).unwrap();
    assert_eq!(w.type_info(id), Some(info));
    assert_eq!(b.event_count(), 1);
}

#[test]
fn events_added_after_a_descriptor_fill_its_positions_in_order() {
    let mut w = World::new(0);
    let mut b = ObserverBuilder::new(&mut w, &vec![]).unwrap();
    b.add_event_id(5);
    b.add_event_id(6);
    let d = b.build().unwrap();
    let mut again = ObserverBuilder::new_from_desc(&mut w, d).unwrap();
    let id = again.add_event(&mut w, 90, "OnSet", None).unwrap();
    let same = again.add_event(&mut w, 90, "OnSet", None).unwrap();
    assert_eq!(id, same);
    again.add_event_id(7);
    assert_eq!(again.event_count(), 3);
    let d = again.build().unwrap();
    assert_eq!(d.events, vec![id, id, 7]);
}

#[test]
fn builder_remembers_its_world() {
    let mut w = World::new(4);
    let b = ObserverBuilder::new(&mut w, &vec![]).unwrap();
    assert_eq!(b.world(), 4);
    assert_eq!(b.world(), w.world_index());
}

#[test]
fn named_observer_picks_first_root_of_that_name() {
    let mut w = World::new(0);
    let first = w.create_entity("dup").unwrap();
    let _second = w.create_entity("dup").unwrap();
    assert_eq!(w.lookup_root("dup"), Some(first));
    let mut b = ObserverBuilder::new_named(&mut w, "dup", &vec![]).unwrap();
    b.add_event_id(500);
    assert_eq!(b.build().unwrap().entity, first);
    assert_eq!(w.lookup_root("nobody"), None);
}
