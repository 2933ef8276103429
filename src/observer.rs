use vstd::prelude::*;
use vstd::string::*;

use crate::ids::{Entity, NULL_ENTITY, MAX_EVENTS};
use crate::term::Term;
use crate::query::{QueryDesc, TypeToken, DescError, query_check, populated, check_terms};
use crate::world::{
    World, RegistrationError, TypeInfo, identity_outcome, world_capacity, entity_id,
    views_have_entity_count,
};

verus! {

/// A finished observer descriptor: a query descriptor, the trigger events in
/// the order they were added, whether existing matches are reported on
/// creation, and the entity that stands for the observer.
pub struct ObserverDesc {
    pub query: QueryDesc,
    pub events: Vec<Entity>,
    pub yield_existing: bool,
    pub entity: Entity,
    pub instanced: bool,
}

/// The outcome of validating an observer: the query's own rules first, then
/// at least one and at most the allowed number of events.
pub open spec fn observer_check(terms: Seq<Term>, n_events: nat) -> Result<(), DescError> {
    if query_check(terms) is Err {
        query_check(terms)
    } else if n_events == 0 {
        Err(DescError::NoEvents)
    } else if n_events > MAX_EVENTS {
        Err(DescError::TooManyEvents)
    } else {
        Ok(())
    }
}

/// The event count as an `i32`, saturated at its largest value.
pub open spec fn saturated_count(n: nat) -> i32 {
    if n > i32::MAX { i32::MAX } else { n as i32 }
}

/// Accumulates the terms, trigger events and policy of an observer.
pub struct ObserverBuilder {
    desc: ObserverDesc,
    event_count: i32,
    is_instanced: bool,
    added: usize,
    world: u32,
}

impl ObserverBuilder {
    pub closed spec fn terms(&self) -> Seq<Term> {
        self.desc.query.terms@
    }

    /// All trigger events of the descriptor, those it started with included.
    pub closed spec fn events(&self) -> Seq<Entity> {
        self.desc.events@
    }

    /// Number of trigger events added through this builder since it was made.
    /// Number of trigger events added through this builder since it was
    /// made; the next one goes to this position of `events()`.
    pub closed spec fn added_events(&self) -> nat {
        self.added as nat
    }

    /// The index of the world the builder was made in.
    pub closed spec fn world_index(&self) -> u32 {
        self.world
    }

    pub closed spec fn yields(&self) -> bool {
        self.desc.yield_existing
    }

    pub closed spec fn is_instanced(&self) -> bool {
        self.is_instanced
    }

    pub closed spec fn is_cached(&self) -> bool {
        self.desc.query.cached
    }

    pub closed spec fn query_instanced(&self) -> bool {
        self.desc.query.instanced
    }

    pub closed spec fn ordering(&self) -> Entity {
        self.desc.query.order_by
    }

    /// The entity that stands for the observer.
    pub closed spec fn entity(&self) -> Entity {
        self.desc.entity
    }

    pub closed spec fn wf(&self) -> bool {
        &&& self.added <= self.desc.events@.len()
        &&& self.event_count == saturated_count(self.added_events())
    }

    /// Picks the entity standing for an observer named `name`: the first live
    /// root entity of that name, else a fresh one (always fresh when `name`
    /// is empty).
    fn observer_entity(world: &mut World, name: &str) -> (r: Result<Entity, RegistrationError>)
        requires
            old(world).wf(),
        ensures
            final(world).wf(),
            final(world).index() == old(world).index(),
            final(world).registry() == old(world).registry(),
            final(world).entity_count() <= old(world).entity_count() + 1,
            final(world).names().subrange(0, old(world).entity_count() as int) == old(world).names(),
            final(world).parents().subrange(0, old(world).entity_count() as int) == old(world).parents(),
            final(world).prefab_marks().subrange(0, old(world).entity_count() as int) == old(world).prefab_marks(),
            final(world).slot_table() == old(world).slot_table(),
            final(world).inheritance() == old(world).inheritance(),
            final(world).type_table() == old(world).type_table(),
            r is Err ==> r == Err::<Entity, RegistrationError>(RegistrationError::Exhausted),
            old(world).entity_count() < world_capacity() ==> r is Ok,
            r matches Ok(e) ==> {
                &&& final(world).is_alive(e)
                &&& final(world).parent_of(e) == NULL_ENTITY
                &&& final(world).name_of(e) == name@
                &&& names_root(*old(world), name@) ==> old(world).is_alive(e)
                    && *final(world) == *old(world)
                    && first_root_named(*old(world), name@, e)
                &&& !names_root(*old(world), name@) ==> e == entity_id(old(world).index(), old(world).entity_count() as int)
            },
    {
        proof {
            views_have_entity_count(*old(world));
        }
        if name.unicode_len() > 0 {
            if let Some(e) = world.lookup_root(name) {
                return Ok(e);
            }
        }
        let r = world.create_entity(name);
        proof {
            views_have_entity_count(*world);
            if r is Ok {
                assert(world.names().subrange(0, old(world).entity_count() as int) =~= old(world).names());
                assert(world.parents().subrange(0, old(world).entity_count() as int) =~= old(world).parents());
                assert(world.prefab_marks().subrange(0, old(world).entity_count() as int) =~= old(world).prefab_marks());
            }
        }
        r
    }

    /// A builder for an observer with one term per type token. The observer
    /// stands for the first live root entity named `name`, or, when there is
    /// none or `name` is empty, for a fresh root entity of that name. Fails
    /// when `world` runs out of ids.
    pub fn new_named(world: &mut World, name: &str, tokens: &Vec<TypeToken>) -> (r: Result<ObserverBuilder, RegistrationError>)
        requires
            old(world).wf(),
        ensures
            final(world).wf(),
            final(world).index() == old(world).index(),
            r is Err ==> r == Err::<ObserverBuilder, RegistrationError>(RegistrationError::Exhausted),
            old(world).entity_count() + tokens@.len() < world_capacity() ==> r is Ok,
            final(world).entity_count() <= old(world).entity_count() + tokens@.len() + 1,
            r matches Ok(b) ==> {
                &&& b.wf()
                &&& b.added_events() == 0
                &&& b.world_index() == old(world).index()
                &&& populated(Seq::empty(), b.terms(), *old(world), *final(world), tokens@, Ok(()))
                &&& b.events() == Seq::<Entity>::empty()
                &&& !b.yields()
                &&& !b.is_instanced()
                &&& !b.is_cached()
                &&& !b.query_instanced()
                &&& b.ordering() == NULL_ENTITY
                &&& final(world).is_alive(b.entity())
                &&& final(world).parent_of(b.entity()) == NULL_ENTITY
                &&& final(world).name_of(b.entity()) == name@
                &&& names_root(*old(world), name@) ==> old(world).is_alive(b.entity())
                    && first_root_named(*old(world), name@, b.entity())
                &&& !names_root(*old(world), name@) ==>
                    b.entity() == entity_id(old(world).index(), old(world).entity_count() as int)
            },
    {
        let ghost w0 = *world;
        let e = match ObserverBuilder::observer_entity(world, name) {
            Ok(e) => e,
            Err(err) => {
                return Err(err);
            },
        };
        let ghost w1 = *world;
        let mut b = ObserverBuilder {
            desc: ObserverDesc {
                query: QueryDesc { terms: Vec::new(), cached: false, instanced: false, order_by: NULL_ENTITY },
                events: Vec::new(),
                yield_existing: false,
                entity: e,
                instanced: false,
            },
            event_count: 0,
            is_instanced: false,
            added: 0,
            world: world.world_index(),
        };
        let p = crate::query::populate_terms(&mut b.desc.query.terms, world, tokens);
        if let Err(err) = p {
            return Err(err);
        }
        proof {
            views_have_entity_count(w0);
            views_have_entity_count(w1);
            views_have_entity_count(*world);
            assert(w1.local(e) < w1.entity_count());
            assert(world.names()[w1.local(e)] == world.names().subrange(0, w1.entity_count() as int)[w1.local(e)]);
            assert(world.parents()[w1.local(e)] == world.parents().subrange(0, w1.entity_count() as int)[w1.local(e)]);
            assert(world.names().subrange(0, w0.entity_count() as int) =~= w0.names()) by {
                assert(world.names().subrange(0, w0.entity_count() as int)
                    =~= w1.names().subrange(0, w0.entity_count() as int));
            }
            assert(world.parents().subrange(0, w0.entity_count() as int) =~= w0.parents()) by {
                assert(world.parents().subrange(0, w0.entity_count() as int)
                    =~= w1.parents().subrange(0, w0.entity_count() as int));
            }
            assert(world.prefab_marks().subrange(0, w0.entity_count() as int) =~= w0.prefab_marks()) by {
                assert(world.prefab_marks().subrange(0, w0.entity_count() as int)
                    =~= w1.prefab_marks().subrange(0, w0.entity_count() as int));
            }
            assert(populated(Seq::empty(), b.terms(), w0, *world, tokens@, Ok(())));
        }
        Ok(b)
    }

    /// A builder for an unnamed observer with one term per type token,
    /// standing for a fresh entity.
    pub fn new(world: &mut World, tokens: &Vec<TypeToken>) -> (r: Result<ObserverBuilder, RegistrationError>)
        requires
            old(world).wf(),
        ensures
            final(world).wf(),
            final(world).index() == old(world).index(),
            r is Err ==> r == Err::<ObserverBuilder, RegistrationError>(RegistrationError::Exhausted),
            old(world).entity_count() + tokens@.len() < world_capacity() ==> r is Ok,
            final(world).entity_count() <= old(world).entity_count() + tokens@.len() + 1,
            r matches Ok(b) ==> {
                &&& b.wf()
                &&& b.added_events() == 0
                &&& b.world_index() == old(world).index()
                &&& populated(Seq::empty(), b.terms(), *old(world), *final(world), tokens@, Ok(()))
                &&& b.events() == Seq::<Entity>::empty()
                &&& !b.yields()
                &&& !b.is_instanced()
                &&& !b.is_cached()
                &&& !b.query_instanced()
                &&& b.ordering() == NULL_ENTITY
                &&& b.entity() == entity_id(old(world).index(), old(world).entity_count() as int)
                &&& final(world).is_alive(b.entity())
                &&& final(world).parent_of(b.entity()) == NULL_ENTITY
            },
    {
        proof {
            reveal_strlit("");
        }
        ObserverBuilder::new_named(world, "", tokens)
    }

    /// A builder that starts from `desc`, its terms, events, flags and policy
    /// kept; the count of events added through the builder starts at zero.
    /// When `desc` names no entity a fresh unnamed one stands for the observer.
    pub fn new_from_desc(world: &mut World, desc: ObserverDesc) -> (r: Result<ObserverBuilder, RegistrationError>)
        requires
            old(world).wf(),
        ensures
            final(world).wf(),
            final(world).index() == old(world).index(),
            final(world).registry() == old(world).registry(),
            desc.entity != NULL_ENTITY ==> *final(world) == *old(world) && r is Ok,
            old(world).entity_count() < world_capacity() ==> r is Ok,
            r is Err ==> r == Err::<ObserverBuilder, RegistrationError>(RegistrationError::Exhausted),
            r matches Ok(b) ==> {
                &&& b.wf()
                &&& b.added_events() == 0
                &&& b.world_index() == old(world).index()
                &&& b.terms() == desc.query.terms@
                &&& b.events() == desc.events@
                &&& b.yields() == desc.yield_existing
                &&& b.is_instanced() == desc.instanced
                &&& b.is_cached() == desc.query.cached
                &&& b.query_instanced() == desc.query.instanced
                &&& b.ordering() == desc.query.order_by
                &&& desc.entity != NULL_ENTITY ==> b.entity() == desc.entity
                &&& desc.entity == NULL_ENTITY ==>
                    b.entity() == entity_id(old(world).index(), old(world).entity_count() as int)
                    && final(world).is_alive(b.entity())
            },
    {
        let mut desc = desc;
        if desc.entity == NULL_ENTITY {
            match world.create_entity("") {
                Ok(e) => {
                    desc.entity = e;
                },
                Err(e) => {
                    return Err(e);
                },
            }
        }
        let instanced = desc.instanced;
        Ok(ObserverBuilder { desc, event_count: 0, is_instanced: instanced, added: 0, world: world.world_index() })
    }

    /// Number of trigger events added through this builder since it was made
    /// (saturated at `i32::MAX`).
    pub fn event_count(&self) -> (r: i32)
        requires
            self.wf(),
        ensures
            r == saturated_count(self.added_events()),
    {
        self.event_count
    }

    /// Puts `event` at the position given by the number of events added so
    /// far through this builder: over the descriptor's event there, or at
    /// the end when the descriptor has none there.
    pub fn add_event_id(&mut self, event: Entity)
        requires
            old(self).wf(),
            old(self).added_events() < usize::MAX,
        ensures
            final(self).wf(),
            final(self).events() == placed(old(self).events(), old(self).added_events(), event),
            final(self).added_events() == old(self).added_events() + 1,
            final(self).terms() == old(self).terms(),
            final(self).yields() == old(self).yields(),
            final(self).is_instanced() == old(self).is_instanced(),
            final(self).entity() == old(self).entity(),
            final(self).world_index() == old(self).world_index(),
            final(self).is_cached() == old(self).is_cached(),
            final(self).query_instanced() == old(self).query_instanced(),
            final(self).ordering() == old(self).ordering(),
    {
        if self.added < self.desc.events.len() {
            self.desc.events.set(self.added, event);
        } else {
            self.desc.events.push(event);
        }
        self.added = self.added + 1;
        if self.event_count < i32::MAX {
            self.event_count = self.event_count + 1;
        }
    }

    /// Adds the event type whose key is `key` as `add_event_id` adds an
    /// event, registering its identity in `world` (named `name`, with `info`
    /// as its descriptor) on first use. Hands back the event's identity.
    pub fn add_event(&mut self, world: &mut World, key: u64, name: &str, info: Option<TypeInfo>) -> (r: Result<Entity, RegistrationError>)
        requires
            old(self).wf(),
            old(world).wf(),
            old(world).index() == old(self).world_index(),
            old(self).added_events() < usize::MAX,
        ensures
            final(self).wf(),
            identity_outcome(*old(world), key, name@, info, *final(world), r),
            r matches Ok(id) ==> final(self).events() == placed(old(self).events(), old(self).added_events(), id)
                && final(self).added_events() == old(self).added_events() + 1,
            r is Err ==> *final(self) == *old(self),
            final(self).terms() == old(self).terms(),
            final(self).yields() == old(self).yields(),
            final(self).is_instanced() == old(self).is_instanced(),
            final(self).entity() == old(self).entity(),
            final(self).world_index() == old(self).world_index(),
            final(self).is_cached() == old(self).is_cached(),
            final(self).query_instanced() == old(self).query_instanced(),
            final(self).ordering() == old(self).ordering(),
    {
        match world.identity_of(key, name, info) {
            Ok(id) => {
                self.add_event_id(id);
                Ok(id)
            },
            Err(e) => Err(e),
        }
    }

    /// Sets whether the observer reports every existing match when it is created.
    pub fn yield_existing(&mut self, should_yield: bool)
        requires
            old(self).wf(),
        ensures
            final(self).wf(),
            final(self).yields() == should_yield,
            final(self).terms() == old(self).terms(),
            final(self).events() == old(self).events(),
            final(self).added_events() == old(self).added_events(),
            final(self).is_instanced() == old(self).is_instanced(),
            final(self).entity() == old(self).entity(),
            final(self).world_index() == old(self).world_index(),
            final(self).is_cached() == old(self).is_cached(),
            final(self).query_instanced() == old(self).query_instanced(),
            final(self).ordering() == old(self).ordering(),
    {
        self.desc.yield_existing = should_yield;
    }

    /// Sets whether matches are delivered instanced.
    pub fn instanced(&mut self, on: bool)
        requires
            old(self).wf(),
        ensures
            final(self).wf(),
            final(self).is_instanced() == on,
            final(self).terms() == old(self).terms(),
            final(self).events() == old(self).events(),
            final(self).added_events() == old(self).added_events(),
            final(self).yields() == old(self).yields(),
            final(self).entity() == old(self).entity(),
            final(self).world_index() == old(self).world_index(),
            final(self).is_cached() == old(self).is_cached(),
            final(self).query_instanced() == old(self).query_instanced(),
            final(self).ordering() == old(self).ordering(),
    {
        self.is_instanced = on;
    }

    /// Sets whether the observer's query is cached.
    pub fn cached(&mut self, on: bool)
        requires
            old(self).wf(),
        ensures
            final(self).wf(),
            final(self).is_cached() == on,
            final(self).terms() == old(self).terms(),
            final(self).events() == old(self).events(),
            final(self).added_events() == old(self).added_events(),
            final(self).yields() == old(self).yields(),
            final(self).is_instanced() == old(self).is_instanced(),
            final(self).entity() == old(self).entity(),
            final(self).world_index() == old(self).world_index(),
            final(self).query_instanced() == old(self).query_instanced(),
            final(self).ordering() == old(self).ordering(),
    {
        self.desc.query.cached = on;
    }

    /// Sets the component whose values order the query's results.
    pub fn order_by(&mut self, component: Entity)
        requires
            old(self).wf(),
        ensures
            final(self).wf(),
            final(self).ordering() == component,
            final(self).terms() == old(self).terms(),
            final(self).events() == old(self).events(),
            final(self).added_events() == old(self).added_events(),
            final(self).yields() == old(self).yields(),
            final(self).is_instanced() == old(self).is_instanced(),
            final(self).entity() == old(self).entity(),
            final(self).world_index() == old(self).world_index(),
            final(self).is_cached() == old(self).is_cached(),
            final(self).query_instanced() == old(self).query_instanced(),
    {
        self.desc.query.order_by = component;
    }

    /// Appends `t` after the terms already added.
    pub fn add_term(&mut self, t: Term)
        requires
            old(self).wf(),
        ensures
            final(self).wf(),
            final(self).terms() == old(self).terms().push(t),
            final(self).events() == old(self).events(),
            final(self).added_events() == old(self).added_events(),
            final(self).yields() == old(self).yields(),
            final(self).is_instanced() == old(self).is_instanced(),
            final(self).entity() == old(self).entity(),
            final(self).world_index() == old(self).world_index(),
            final(self).is_cached() == old(self).is_cached(),
            final(self).query_instanced() == old(self).query_instanced(),
            final(self).ordering() == old(self).ordering(),
    {
        self.desc.query.terms.push(t);
    }

    /// The index of the world the builder was made in.
    pub fn world(&self) -> (r: u32)
        ensures
            r == self.world_index(),
    {
        self.world
    }

    pub fn term_count(&self) -> (r: usize)
        ensures
            r == self.terms().len(),
    {
        self.desc.query.terms.len()
    }

    /// The query part of the descriptor being built.
    pub fn query_desc(&self) -> (r: &QueryDesc)
        ensures
            r.terms@ == self.terms(),
            r.cached == self.is_cached(),
            r.instanced == self.query_instanced(),
            r.order_by == self.ordering(),
    {
        &self.desc.query
    }

    /// Finishes the observer descriptor, consuming the builder. It comes
    /// back, terms and events in the order they were added, when the terms
    /// pass the query's rules and there are between one and the allowed
    /// number of events; otherwise the first failed rule comes back.
    pub fn build(self) -> (r: Result<ObserverDesc, DescError>)
        requires
            self.wf(),
        ensures
            observer_check(self.terms(), self.events().len()) is Ok <==> r is Ok,
            r matches Err(e) ==> observer_check(self.terms(), self.events().len())
                == Err::<(), DescError>(e),
            r matches Ok(d) ==> {
                &&& d.query.terms@ == self.terms()
                &&& d.query.cached == self.is_cached()
                &&& d.query.instanced == self.query_instanced()
                &&& d.query.order_by == self.ordering()
                &&& d.events@ == self.events()
                &&& d.yield_existing == self.yields()
                &&& d.instanced == self.is_instanced()
                &&& d.entity == self.entity()
            },
    {
        if let Err(e) = check_terms(&self.desc.query.terms) {
            return Err(e);
        }
        if self.desc.events.len() == 0 {
            return Err(DescError::NoEvents);
        }
        if self.desc.events.len() > MAX_EVENTS {
            return Err(DescError::TooManyEvents);
        }
        let mut desc = self.desc;
        desc.instanced = self.is_instanced;
        Ok(desc)
    }
}

/// `events` with `event` at position `k`: replacing the event there, or
/// appended when `k` is past the end.
pub open spec fn placed(events: Seq<Entity>, k: nat, event: Entity) -> Seq<Entity> {
    if k < events.len() {
        events.update(k as int, event)
    } else {
        events.push(event)
    }
}

/// `e` is a live root entity of `w` named `name`, created before every
/// other such entity.
pub open spec fn first_root_named(w: World, name: Seq<char>, e: Entity) -> bool {
    &&& w.is_alive(e)
    &&& w.parent_of(e) == NULL_ENTITY
    &&& w.name_of(e) == name
    &&& forall|e2: Entity| #[trigger] w.is_alive(e2) && w.parent_of(e2) == NULL_ENTITY
        && w.name_of(e2) == name ==> w.local(e) <= w.local(e2)
}

/// True when `w` holds a live root entity named `name`, and `name` is not empty.
pub open spec fn names_root(w: World, name: Seq<char>) -> bool {
    name.len() > 0 && exists|e: Entity| #[trigger] w.is_alive(e) && w.parent_of(e) == NULL_ENTITY && w.name_of(e) == name
}

/// The order in which a freshly built observer's callback sees entities:
/// when it yields existing matches, all of `existing` in their enumeration
/// order, then the entities of `live` events as they come.
pub fn notification_order(desc: &ObserverDesc, existing: &Vec<Entity>, live: &Vec<Entity>) -> (r: Vec<Entity>)
    ensures
        r@ == (if desc.yield_existing { existing@ + live@ } else { live@ }),
{
    let mut out: Vec<Entity> = Vec::new();
    if desc.yield_existing {
        let mut i: usize = 0;
        while i < existing.len()
            invariant
                0 <= i <= existing@.len(),
                out@ == existing@.subrange(0, i as int),
            decreases existing@.len() - i,
        {
            out.push(existing[i]);
            i = i + 1;
        }
    }
    let ghost head = out@;
    let mut j: usize = 0;
    while j < live.len()
        invariant
            0 <= j <= live@.len(),
            out@ == head + live@.subrange(0, j as int),
        decreases live@.len() - j,
    {
        out.push(live[j]);
        j = j + 1;
    }
    proof {
        assert(existing@.subrange(0, existing@.len() as int) =~= existing@);
        assert(live@.subrange(0, live@.len() as int) =~= live@);
    }
    out
}

/// An observer whose terms are valid is refused with no event, and accepted
/// with exactly one.
pub proof fn one_event_is_required(terms: Seq<Term>)
    requires
        query_check(terms) is Ok,
    ensures
        observer_check(terms, 0) == Err::<(), DescError>(DescError::NoEvents),
        observer_check(terms, 1) is Ok,
{
}

/// When an observer yields existing matches, every existing entity is
/// reported, in its enumeration order, before any entity of a live event.
pub proof fn existing_matches_come_first(
    yields: bool,
    existing: Seq<Entity>,
    live: Seq<Entity>,
    order: Seq<Entity>,
)
    requires
        yields,
        order == (if yields { existing + live } else { live }),
    ensures
        order.len() == existing.len() + live.len(),
        forall|i: int| 0 <= i < existing.len() ==> order[i] == existing[i],
        forall|j: int| 0 <= j < live.len() ==> #[trigger] order[existing.len() + j] == live[j],
{
}

} // verus!
