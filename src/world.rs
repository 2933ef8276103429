use vstd::prelude::*;
use vstd::string::*;

use crate::ids::{Entity, NULL_ENTITY, is_concrete};

verus! {

/// Number of identities each world may hand out ids from: ids of world `i`
/// lie in `[i * WORLD_SPAN, (i + 1) * WORLD_SPAN)`.
pub const WORLD_SPAN: u64 = 0x1_0000_0000;

/// Low ids of each world's range that are never handed out.
pub const RESERVED_IDS: u64 = 16;

/// The identity allocator has run out of ids.
#[derive(Clone, Copy, Debug, PartialEq, Eq, Structural)]
pub enum RegistrationError {
    Exhausted,
}

/// Static facts about a component type: its byte size and alignment, and
/// which lifecycle hooks it has.
#[derive(Clone, Copy, Debug, PartialEq, Eq, Structural)]
pub struct TypeInfo {
    pub size: usize,
    pub alignment: usize,
    pub has_ctor: bool,
    pub has_dtor: bool,
    pub has_move: bool,
    pub has_copy: bool,
}

/// The descriptor recorded for `e` in `rows`, if any (the latest row wins;
/// the registry records at most one per identity).
pub open spec fn info_lookup(rows: Seq<(Entity, TypeInfo)>, e: Entity) -> Option<TypeInfo>
    decreases rows.len(),
{
    if rows.len() == 0 {
        None
    } else if rows.last().0 == e {
        Some(rows.last().1)
    } else {
        info_lookup(rows.drop_last(), e)
    }
}

/// The first id of world `index`'s range.
pub open spec fn world_base(index: u32) -> int {
    index as int * WORLD_SPAN as int
}

/// The id given to the `k`-th entity created in world `index`.
pub open spec fn entity_id(index: u32, k: int) -> int {
    world_base(index) + RESERVED_IDS as int + k
}

/// Most entities one world can hold.
pub open spec fn world_capacity() -> int {
    WORLD_SPAN as int - RESERVED_IDS as int
}

/// True when `b` is `a` or is reached from `a` by following at most `fuel`
/// is-a edges `(entity, base)`.
pub open spec fn reaches(edges: Seq<(u64, u64)>, a: u64, b: u64, fuel: nat) -> bool
    decreases fuel, 0nat, 0nat,
{
    a == b || (fuel > 0 && reaches_via(edges, a, b, (fuel - 1) as nat, edges.len()))
}

/// True when one of the first `n` edges leaves `a` for an entity that
/// reaches `b` within `fuel` further edges.
pub open spec fn reaches_via(edges: Seq<(u64, u64)>, a: u64, b: u64, fuel: nat, n: nat) -> bool
    decreases fuel, 1nat, n,
{
    if n == 0 || n > edges.len() {
        false
    } else {
        (edges[n - 1].0 == a && reaches(edges, edges[n - 1].1, b, fuel))
            || reaches_via(edges, a, b, fuel, (n - 1) as nat)
    }
}

/// The slot types declared (by `slot_of`, rows `(owner, slot, slot)`) on `base`
/// or on any entity `base` reaches through is-a edges, in the order they were
/// declared. A row `(owner, slot, child)` says that `child` stands for `slot`
/// on `owner`.
pub open spec fn chain_slot_types(rows: Seq<(u64, u64, u64)>, edges: Seq<(u64, u64)>, base: u64) -> Seq<u64>
    decreases rows.len(),
{
    if rows.len() == 0 {
        Seq::empty()
    } else {
        let rest = chain_slot_types(rows.drop_last(), edges, base);
        let r = rows.last();
        if r.1 == r.2 && reaches(edges, base, r.0, edges.len()) {
            rest.push(r.1)
        } else {
            rest
        }
    }
}

/// The entities recorded for `slot` on `instance`, in the order they were recorded.
pub open spec fn slot_children(rows: Seq<(u64, u64, u64)>, instance: u64, slot: u64) -> Seq<u64>
    decreases rows.len(),
{
    if rows.len() == 0 {
        Seq::empty()
    } else {
        let rest = slot_children(rows.drop_last(), instance, slot);
        if rows.last().0 == instance && rows.last().1 == slot {
            rest.push(rows.last().2)
        } else {
            rest
        }
    }
}

/// The shared runtime state: the registry from type keys to identities, and
/// the entities with their names, parents, prefab marks, is-a edges and slots.
pub struct World {
    index: u32,
    type_keys: Vec<u64>,
    type_ids: Vec<Entity>,
    registry: Ghost<Map<u64, Entity>>,
    names: Vec<String>,
    parents: Vec<Entity>,
    prefabs: Vec<bool>,
    is_a_edges: Vec<(Entity, Entity)>,
    slot_rows: Vec<(Entity, Entity, Entity)>,
    type_infos: Vec<(Entity, TypeInfo)>,
}

impl World {
    /// The number that sets this world's id range apart from other worlds'.
    pub closed spec fn index(&self) -> u32 {
        self.index
    }

    /// Identity of each registered type key.
    pub closed spec fn registry(&self) -> Map<u64, Entity> {
        self.registry@
    }

    pub open spec fn entity_count(&self) -> nat {
        self.names().len()
    }

    /// The slot table: rows `(owner, slot type, entity standing for it)`.
    pub closed spec fn slot_table(&self) -> Seq<(Entity, Entity, Entity)> {
        self.slot_rows@
    }

    /// The type descriptors, as rows `(identity, descriptor)` in the order
    /// they were recorded.
    pub closed spec fn type_table(&self) -> Seq<(Entity, TypeInfo)> {
        self.type_infos@
    }

    /// The is-a edges `(entity, base)` in the order they were added.
    pub closed spec fn inheritance(&self) -> Seq<(Entity, Entity)> {
        self.is_a_edges@
    }

    /// Position of a live entity in creation order.
    pub open spec fn local(&self, e: Entity) -> int {
        e as int - world_base(self.index()) - RESERVED_IDS as int
    }

    pub open spec fn is_alive(&self, e: Entity) -> bool {
        0 <= self.local(e) < self.entity_count()
    }

    /// Names of the entities, in creation order.
    pub closed spec fn names(&self) -> Seq<Seq<char>> {
        self.names@.map_values(|n: String| n@)
    }

    /// Parents of the entities (the null handle for none), in creation order.
    pub closed spec fn parents(&self) -> Seq<Entity> {
        self.parents@
    }

    /// Prefab marks of the entities, in creation order.
    pub closed spec fn prefab_marks(&self) -> Seq<bool> {
        self.prefabs@
    }

    pub open spec fn name_of(&self, e: Entity) -> Seq<char> {
        self.names()[self.local(e)]
    }

    /// The parent of `e`, or the null handle.
    pub open spec fn parent_of(&self, e: Entity) -> Entity {
        self.parents()[self.local(e)]
    }

    pub open spec fn is_prefab(&self, e: Entity) -> bool {
        self.prefab_marks()[self.local(e)]
    }

    pub closed spec fn wf(&self) -> bool {
        &&& self.parents@.len() == self.names@.len()
        &&& self.prefabs@.len() == self.names@.len()
        &&& self.names@.len() <= world_capacity()
        &&& self.type_keys@.len() == self.type_ids@.len()
        &&& forall|i: int| 0 <= i < self.type_keys@.len() ==>
            #[trigger] self.registry@.contains_key(self.type_keys@[i])
            && self.registry@[self.type_keys@[i]] == self.type_ids@[i]
        &&& forall|k: u64| #[trigger] self.registry@.contains_key(k) ==>
            exists|i: int| 0 <= i < self.type_keys@.len() && self.type_keys@[i] == k
        &&& forall|k: u64| #[trigger] self.registry@.contains_key(k) ==>
            self.is_alive(self.registry@[k])
        &&& forall|i: int| 0 <= i < self.slot_rows@.len() ==> {
            &&& self.is_alive(#[trigger] self.slot_rows@[i].0)
            &&& self.is_alive(self.slot_rows@[i].1)
            &&& self.is_alive(self.slot_rows@[i].2)
        }
    }

    /// An empty world whose ids are drawn from the range numbered `index`.
    /// Worlds with different indices never share an identity; two worlds
    /// made with the same index hand out the same ids, so give each world
    /// its own index (`WorldIndices` hands each out once).
    pub fn new(index: u32) -> (w: World)
        ensures
            w.wf(),
            w.index() == index,
            w.registry() == Map::<u64, Entity>::empty(),
            w.entity_count() == 0,
            w.slot_table() == Seq::<(Entity, Entity, Entity)>::empty(),
            w.inheritance() == Seq::<(Entity, Entity)>::empty(),
            w.type_table() == Seq::<(Entity, TypeInfo)>::empty(),
    {
        World {
            index,
            type_keys: Vec::new(),
            type_ids: Vec::new(),
            registry: Ghost(Map::empty()),
            names: Vec::new(),
            parents: Vec::new(),
            prefabs: Vec::new(),
            is_a_edges: Vec::new(),
            slot_rows: Vec::new(),
            type_infos: Vec::new(),
        }
    }

    pub fn world_index(&self) -> (r: u32)
        ensures
            r == self.index(),
    {
        self.index
    }

    /// Number of entities created so far.
    pub fn count(&self) -> (r: usize)
        requires
            self.wf(),
        ensures
            r == self.entity_count(),
    {
        self.names.len()
    }

    /// True when the world has room for one more entity.
    pub fn has_room(&self) -> (r: bool)
        requires
            self.wf(),
        ensures
            r == (self.entity_count() < world_capacity()),
    {
        (self.names.len() as u64) < WORLD_SPAN - RESERVED_IDS
    }

    /// The id of the `k`-th entity.
    fn id_at(&self, k: usize) -> (r: Entity)
        requires
            k < world_capacity(),
        ensures
            r == entity_id(self.index(), k as int),
    {
        (self.index as u64) * WORLD_SPAN + RESERVED_IDS + k as u64
    }

    /// Creates an entity named `name` with no parent; fails when the world's
    /// id range is used up.
    pub fn create_entity(&mut self, name: &str) -> (r: Result<Entity, RegistrationError>)
        requires
            old(self).wf(),
        ensures
            final(self).wf(),
            final(self).index() == old(self).index(),
            final(self).registry() == old(self).registry(),
            final(self).slot_table() == old(self).slot_table(),
            final(self).inheritance() == old(self).inheritance(),
            final(self).type_table() == old(self).type_table(),
            old(self).entity_count() < world_capacity() <==> r is Ok,
            r is Err ==> r == Err::<Entity, RegistrationError>(RegistrationError::Exhausted)
                && *final(self) == *old(self),
            r matches Ok(e) ==> {
                &&& e == entity_id(old(self).index(), old(self).entity_count() as int)
                &&& final(self).names() == old(self).names().push(name@)
                &&& final(self).parents() == old(self).parents().push(NULL_ENTITY)
                &&& final(self).prefab_marks() == old(self).prefab_marks().push(false)
            },
    {
        if !self.has_room() {
            return Err(RegistrationError::Exhausted);
        }
        let e = self.id_at(self.names.len());
        self.names.push(String::from_str(name));
        self.parents.push(NULL_ENTITY);
        self.prefabs.push(false);
        assert(self.names() =~= old(self).names().push(name@));
        Ok(e)
    }
    /// The identity registered for `key`, if any.
    pub fn lookup(&self, key: u64) -> (r: Option<Entity>)
        requires
            self.wf(),
        ensures
            r == (if self.registry().contains_key(key) {
                Some(self.registry()[key])
            } else {
                None::<Entity>
            }),
    {
        let mut i: usize = 0;
        while i < self.type_keys.len()
            invariant
                self.wf(),
                0 <= i <= self.type_keys@.len(),
                forall|j: int| 0 <= j < i ==> self.type_keys@[j] != key,
            decreases self.type_keys@.len() - i,
        {
            if self.type_keys[i] == key {
                assert(self.registry@.contains_key(self.type_keys@[i as int]));
                return Some(self.type_ids[i]);
            }
            i = i + 1;
        }
        None
    }

    /// The identity of the type whose key is `key`: on first use a fresh
    /// entity named `name`, with `info` recorded as the type's descriptor
    /// when given (a tag has none); the same identity, the world unchanged,
    /// on every later call.
    pub fn identity_of(&mut self, key: u64, name: &str, info: Option<TypeInfo>) -> (r: Result<Entity, RegistrationError>)
        requires
            old(self).wf(),
        ensures
            identity_outcome(*old(self), key, name@, info, *final(self), r),
    {
        if let Some(e) = self.lookup(key) {
            return Ok(e);
        }
        let r = self.create_entity(name);
        if let Ok(e) = r {
            let ghost keys0 = self.type_keys@;
            let ghost reg0 = self.registry@;
            self.type_keys.push(key);
            self.type_ids.push(e);
            self.registry = Ghost(self.registry@.insert(key, e));
            assert forall|k: u64| #[trigger] self.registry@.contains_key(k) implies
                exists|i: int| 0 <= i < self.type_keys@.len() && self.type_keys@[i] == k by {
                if k == key {
                    assert(self.type_keys@[self.type_keys@.len() - 1] == k);
                } else {
                    assert(reg0.contains_key(k));
                    let i = choose|i: int| 0 <= i < keys0.len() && keys0[i] == k;
                    assert(self.type_keys@[i] == k);
                }
            }
            assert forall|i: int| 0 <= i < self.type_keys@.len() implies
                #[trigger] self.registry@.contains_key(self.type_keys@[i])
                && self.registry@[self.type_keys@[i]] == self.type_ids@[i] by {
                if i < keys0.len() {
                    assert(keys0[i] != key);
                }
            }
            if let Some(ti) = info {
                self.type_infos.push((e, ti));
            }
            proof {
                slot_rows_stay_alive(*old(self), *self);
            }
        }
        r
    }
}

impl World {
    /// Tells whether `e` is an entity of this world.
    pub fn contains(&self, e: Entity) -> (r: bool)
        requires
            self.wf(),
        ensures
            r == self.is_alive(e),
    {
        let base = (self.index as u64) * WORLD_SPAN;
        e >= base + RESERVED_IDS && e - base - RESERVED_IDS < self.names.len() as u64
    }

    /// Position of the live entity `e` in creation order.
    fn slot_index(&self, e: Entity) -> (r: usize)
        requires
            self.wf(),
            self.is_alive(e),
        ensures
            r == self.local(e),
    {
        (e - (self.index as u64) * WORLD_SPAN - RESERVED_IDS) as usize
    }

    /// The name of `e`.
    pub fn name(&self, e: Entity) -> (r: String)
        requires
            self.wf(),
            self.is_alive(e),
        ensures
            r@ == self.name_of(e),
    {
        let k = self.slot_index(e);
        self.names[k].clone()
    }

    /// The parent of `e`, or the null handle.
    pub fn parent(&self, e: Entity) -> (r: Entity)
        requires
            self.wf(),
            self.is_alive(e),
        ensures
            r == self.parent_of(e),
    {
        self.parents[self.slot_index(e)]
    }

    /// Tells whether `e` is marked as a prefab.
    pub fn prefab(&self, e: Entity) -> (r: bool)
        requires
            self.wf(),
            self.is_alive(e),
        ensures
            r == self.is_prefab(e),
    {
        self.prefabs[self.slot_index(e)]
    }

    /// Marks `e` as a prefab, a template rather than a live participant.
    pub fn mark_prefab(&mut self, e: Entity)
        requires
            old(self).wf(),
            old(self).is_alive(e),
        ensures
            final(self).wf(),
            final(self).prefab_marks() == old(self).prefab_marks().update(old(self).local(e), true),
            final(self).index() == old(self).index(),
            final(self).registry() == old(self).registry(),
            final(self).names() == old(self).names(),
            final(self).parents() == old(self).parents(),
            final(self).slot_table() == old(self).slot_table(),
            final(self).inheritance() == old(self).inheritance(),
            final(self).type_table() == old(self).type_table(),
    {
        let k = self.slot_index(e);
        self.prefabs.set(k, true);
        proof {
            slot_rows_stay_alive(*old(self), *self);
        }
    }

    /// The prefab template of the type whose key is `key`: registered, named
    /// `name` and marked as a prefab on first use, the same entity afterwards.
    pub fn prefab_of(&mut self, key: u64, name: &str) -> (r: Result<Entity, RegistrationError>)
        requires
            old(self).wf(),
        ensures
            final(self).wf(),
            final(self).index() == old(self).index(),
            final(self).slot_table() == old(self).slot_table(),
            final(self).inheritance() == old(self).inheritance(),
            final(self).type_table() == old(self).type_table(),
            old(self).registry().contains_key(key) ==> {
                &&& r == Ok::<Entity, RegistrationError>(old(self).registry()[key])
                &&& final(self).registry() == old(self).registry()
                &&& final(self).names() == old(self).names()
                &&& final(self).parents() == old(self).parents()
                &&& final(self).prefab_marks() == old(self).prefab_marks().update(
                    old(self).local(old(self).registry()[key]),
                    true,
                )
            },
            !old(self).registry().contains_key(key) && old(self).entity_count() < world_capacity() ==> {
                &&& r is Ok
                &&& r->Ok_0 == entity_id(old(self).index(), old(self).entity_count() as int)
                &&& final(self).registry() == old(self).registry().insert(key, r->Ok_0)
                &&& final(self).names() == old(self).names().push(name@)
                &&& final(self).parents() == old(self).parents().push(NULL_ENTITY)
                &&& final(self).prefab_marks() == old(self).prefab_marks().push(true)
            },
            !old(self).registry().contains_key(key) && old(self).entity_count() >= world_capacity() ==> {
                &&& r == Err::<Entity, RegistrationError>(RegistrationError::Exhausted)
                &&& *final(self) == *old(self)
            },
    {
        let r = self.identity_of(key, name, None);
        if let Ok(e) = r {
            self.mark_prefab(e);
        }
        r
    }

    /// Makes `parent` the parent of `child`.
    pub fn child_of(&mut self, child: Entity, parent: Entity)
        requires
            old(self).wf(),
            old(self).is_alive(child),
            old(self).is_alive(parent),
        ensures
            final(self).wf(),
            final(self).parents() == old(self).parents().update(old(self).local(child), parent),
            final(self).index() == old(self).index(),
            final(self).registry() == old(self).registry(),
            final(self).names() == old(self).names(),
            final(self).prefab_marks() == old(self).prefab_marks(),
            final(self).slot_table() == old(self).slot_table(),
            final(self).inheritance() == old(self).inheritance(),
            final(self).type_table() == old(self).type_table(),
    {
        let k = self.slot_index(child);
        self.parents.set(k, parent);
    }

    /// Declares `slot` a slot of `owner`: `slot` becomes a child of `owner`,
    /// and `owner` records `slot` as the entity that stands for it.
    pub fn slot_of(&mut self, slot: Entity, owner: Entity)
        requires
            old(self).wf(),
            old(self).is_alive(slot),
            old(self).is_alive(owner),
        ensures
            final(self).wf(),
            final(self).parents() == old(self).parents().update(old(self).local(slot), owner),
            final(self).slot_table() == old(self).slot_table().push((owner, slot, slot)),
            final(self).index() == old(self).index(),
            final(self).registry() == old(self).registry(),
            final(self).names() == old(self).names(),
            final(self).prefab_marks() == old(self).prefab_marks(),
            final(self).inheritance() == old(self).inheritance(),
            final(self).type_table() == old(self).type_table(),
    {
        self.child_of(slot, owner);
        self.slot_rows.push((owner, slot, slot));
    }

    /// Tells whether `b` is `a` or is reached from `a` by at most `fuel` is-a edges.
    fn reaches_within(&self, a: Entity, b: Entity, fuel: usize) -> (r: bool)
        ensures
            r == reaches(self.inheritance(), a, b, fuel as nat),
        decreases fuel,
    {
        if a == b {
            return true;
        }
        if fuel == 0 {
            return false;
        }
        let mut found = false;
        let mut i: usize = 0;
        while i < self.is_a_edges.len()
            invariant
                0 <= i <= self.is_a_edges@.len(),
                a != b,
                fuel > 0,
                found == reaches_via(self.is_a_edges@, a, b, (fuel - 1) as nat, i as nat),
            decreases self.is_a_edges@.len() - i,
        {
            let edge = self.is_a_edges[i];
            if !found && edge.0 == a && self.reaches_within(edge.1, b, fuel - 1) {
                found = true;
            }
            i = i + 1;
        }
        found
    }

    /// The slot types declared on `base` or on any entity it inherits from,
    /// in the order they were declared.
    fn chain_slots_of(&self, base: Entity) -> (r: Vec<Entity>)
        requires
            self.wf(),
        ensures
            r@ == chain_slot_types(self.slot_table(), self.inheritance(), base),
            forall|j: int| 0 <= j < r@.len() ==> self.is_alive(#[trigger] r@[j]),
    {
        let ghost rows = self.slot_rows@;
        let n_edges = self.is_a_edges.len();
        let mut out: Vec<Entity> = Vec::new();
        let mut i: usize = 0;
        while i < self.slot_rows.len()
            invariant
                self.wf(),
                rows == self.slot_rows@,
                n_edges == self.is_a_edges@.len(),
                0 <= i <= rows.len(),
                out@ == chain_slot_types(rows.take(i as int), self.is_a_edges@, base),
                forall|j: int| 0 <= j < out@.len() ==> self.is_alive(#[trigger] out@[j]),
            decreases rows.len() - i,
        {
            let row = self.slot_rows[i];
            assert(rows.take(i + 1).drop_last() =~= rows.take(i as int));
            if row.1 == row.2 && self.reaches_within(base, row.0, n_edges) {
                out.push(row.1);
            }
            i = i + 1;
        }
        assert(rows.take(rows.len() as int) =~= rows);
        out
    }

    /// Makes `e` inherit from `base`. For each slot declared on `base` or on
    /// an entity that `base` reaches through is-a edges (at most as many
    /// steps as the world has is-a edges), in the order the slots were
    /// declared, `e` gets a fresh child named as the slot and records that
    /// child as the entity standing for the slot. Fails, changing nothing, when the
    /// world has no room for all of these children.
    pub fn is_a(&mut self, e: Entity, base: Entity) -> (r: Result<(), RegistrationError>)
        requires
            old(self).wf(),
            old(self).is_alive(e),
            old(self).is_alive(base),
        ensures
            final(self).wf(),
            ({
                let st = chain_slot_types(old(self).slot_table(), old(self).inheritance(), base);
                let n = st.len() as int;
                let c = old(self).entity_count() as int;
                &&& (c + n <= world_capacity()) <==> r is Ok
                &&& r is Err ==> r == Err::<(), RegistrationError>(RegistrationError::Exhausted)
                    && *final(self) == *old(self)
                &&& r is Ok ==> {
                    &&& final(self).index() == old(self).index()
                    &&& final(self).registry() == old(self).registry()
                    &&& final(self).inheritance() == old(self).inheritance().push((e, base))
                    &&& final(self).type_table() == old(self).type_table()
                    &&& final(self).names() == old(self).names()
                        + Seq::new(n as nat, |j: int| old(self).name_of(st[j]))
                    &&& final(self).parents() == old(self).parents()
                        + Seq::new(n as nat, |j: int| e)
                    &&& final(self).prefab_marks() == old(self).prefab_marks()
                        + Seq::new(n as nat, |j: int| old(self).is_prefab(e))
                    &&& final(self).slot_table() == old(self).slot_table()
                        + Seq::new(n as nat, |j: int| (e, st[j], entity_id(old(self).index(), c + j) as Entity))
                }
            }),
    {
        let st = self.chain_slots_of(base);
        if st.len() as u64 > (WORLD_SPAN - RESERVED_IDS) - self.names.len() as u64 {
            return Err(RegistrationError::Exhausted);
        }
        let inherit_prefab = self.prefab(e);
        let ghost w0 = *self;
        let ghost c = self.names@.len() as int;
        let mut j: usize = 0;
        while j < st.len()
            invariant
                self.wf(),
                w0.wf(),
                w0.is_alive(e),
                inherit_prefab == w0.is_prefab(e),
                c == w0.entity_count(),
                c + st@.len() <= world_capacity(),
                st@ == chain_slot_types(w0.slot_table(), w0.inheritance(), base),
                forall|m: int| 0 <= m < st@.len() ==> w0.is_alive(#[trigger] st@[m]),
                0 <= j <= st@.len(),
                self.index == w0.index,
                self.registry@ == w0.registry@,
                self.type_keys@ == w0.type_keys@,
                self.type_ids@ == w0.type_ids@,
                self.is_a_edges@ == w0.is_a_edges@,
                self.type_infos@ == w0.type_infos@,
                self.names() == w0.names() + Seq::new(j as nat, |m: int| w0.name_of(st@[m])),
                self.parents() == w0.parents() + Seq::new(j as nat, |m: int| e),
                self.prefab_marks() == w0.prefab_marks() + Seq::new(j as nat, |m: int| w0.is_prefab(e)),
                self.slot_table() == w0.slot_table()
                    + Seq::new(j as nat, |m: int| (e, st@[m], entity_id(w0.index(), c + m) as Entity)),
            decreases st@.len() - j,
        {
            let ghost wb = *self;
            let slot = st[j];
            let name = self.name(slot);
            let child = self.id_at(self.names.len());
            let ghost before = self.names();
            assert(name@ == w0.name_of(st@[j as int])) by {
                assert(w0.local(slot) < c);
                assert(before[w0.local(slot)] == w0.names()[w0.local(slot)]);
            }
            self.names.push(name);
            assert(self.names() =~= before.push(name@));
            self.parents.push(e);
            self.prefabs.push(inherit_prefab);
            self.slot_rows.push((e, slot, child));
            proof {
                assert forall|i: int| 0 <= i < self.slot_rows@.len() implies {
                    &&& self.is_alive(#[trigger] self.slot_rows@[i].0)
                    &&& self.is_alive(self.slot_rows@[i].1)
                    &&& self.is_alive(self.slot_rows@[i].2)
                } by {
                    if i < wb.slot_rows@.len() {
                        assert(wb.slot_rows@[i] == self.slot_rows@[i]);
                        assert(wb.is_alive(wb.slot_rows@[i].0));
                    }
                }
                assert forall|k: u64| #[trigger] self.registry@.contains_key(k) implies
                    self.is_alive(self.registry@[k]) by {
                    assert(wb.registry@.contains_key(k));
                }
            }
            assert(self.names() =~= w0.names() + Seq::new((j + 1) as nat, |m: int| w0.name_of(st@[m])));
            assert(self.parents() =~= w0.parents() + Seq::new((j + 1) as nat, |m: int| e));
            assert(self.prefab_marks() =~= w0.prefab_marks() + Seq::new((j + 1) as nat, |m: int| w0.is_prefab(e)));
            assert(self.slot_table() =~= w0.slot_table()
                + Seq::new((j + 1) as nat, |m: int| (e, st@[m], entity_id(w0.index(), c + m) as Entity)));
            j = j + 1;
        }
        self.is_a_edges.push((e, base));
        assert(self.wf());
        Ok(())
    }

    /// The path of `e`, written `::a::b::e`, following at most `fuel` parents.
    fn path_within(&self, e: Entity, fuel: usize) -> (r: String)
        requires
            self.wf(),
            self.is_alive(e),
        ensures
            r@ == self.path_text(e, fuel as nat),
        decreases fuel,
    {
        let p = self.parent(e);
        let mut out = if fuel > 0 && self.contains(p) {
            self.path_within(p, fuel - 1)
        } else {
            String::new()
        };
        proof {
            reveal_strlit("::");
        }
        out.append("::");
        let name = self.name(e);
        out.append(name.as_str());
        out
    }

    /// The hierarchical path of `e`: the names from its root ancestor down to
    /// `e`, each written after `::`.
    pub fn path(&self, e: Entity) -> (r: String)
        requires
            self.wf(),
            self.is_alive(e),
        ensures
            r@ == self.path_text(e, self.entity_count()),
    {
        self.path_within(e, self.names.len())
    }

    /// The path of `e` over its parent chain, walking at most `fuel` parents.
    pub open spec fn path_text(&self, e: Entity, fuel: nat) -> Seq<char>
        decreases fuel,
    {
        let p = self.parent_of(e);
        let head = if fuel > 0 && self.is_alive(p) {
            self.path_text(p, (fuel - 1) as nat)
        } else {
            Seq::empty()
        };
        head + seq![':', ':'] + self.name_of(e)
    }

    /// The type descriptor recorded for `e`, if any.
    pub fn type_info(&self, e: Entity) -> (r: Option<TypeInfo>)
        ensures
            r == info_lookup(self.type_table(), e),
    {
        let ghost rows = self.type_infos@;
        let mut result: Option<TypeInfo> = None;
        let mut i: usize = 0;
        while i < self.type_infos.len()
            invariant
                rows == self.type_infos@,
                0 <= i <= rows.len(),
                result == info_lookup(rows.take(i as int), e),
            decreases rows.len() - i,
        {
            assert(rows.take(i + 1).drop_last() =~= rows.take(i as int));
            if self.type_infos[i].0 == e {
                result = Some(self.type_infos[i].1);
            }
            i = i + 1;
        }
        assert(rows.take(rows.len() as int) =~= rows);
        result
    }

    /// The first live entity without a parent whose name is `name`, if any.
    pub fn lookup_root(&self, name: &str) -> (r: Option<Entity>)
        requires
            self.wf(),
        ensures
            r matches Some(e) ==> {
                &&& self.is_alive(e)
                &&& self.parent_of(e) == NULL_ENTITY
                &&& self.name_of(e) == name@
                &&& forall|e2: Entity| #[trigger] self.is_alive(e2) && self.parent_of(e2) == NULL_ENTITY
                    && self.name_of(e2) == name@ ==> self.local(e) <= self.local(e2)
            },
            r is None ==> forall|e: Entity| #[trigger] self.is_alive(e) ==>
                !(self.parent_of(e) == NULL_ENTITY && self.name_of(e) == name@),
    {
        let wanted = String::from_str(name);
        let mut k: usize = 0;
        while k < self.names.len()
            invariant
                self.wf(),
                wanted@ == name@,
                0 <= k <= self.names@.len(),
                forall|j: int| 0 <= j < k ==>
                    !(self.parents@[j] == NULL_ENTITY && #[trigger] self.names()[j] == name@),
            decreases self.names@.len() - k,
        {
            if self.parents[k] == NULL_ENTITY && self.names[k] == wanted {
                let e = self.id_at(k);
                proof {
                    assert forall|e2: Entity| #[trigger] self.is_alive(e2) && self.parent_of(e2) == NULL_ENTITY
                        && self.name_of(e2) == name@ implies self.local(e) <= self.local(e2) by {
                        if self.local(e2) < k {
                            assert(self.names()[self.local(e2)] == name@);
                        }
                    }
                }
                return Some(e);
            }
            k = k + 1;
        }
        proof {
            assert forall|e: Entity| #[trigger] self.is_alive(e) implies
                !(self.parent_of(e) == NULL_ENTITY && self.name_of(e) == name@) by {
                let j = self.local(e);
                assert(0 <= j < k);
            }
        }
        None
    }

    /// The `index`-th entity recorded for `slot` on `instance`, or the null
    /// handle when there is none.
    pub fn resolve_slot(&self, instance: Entity, slot: Entity, index: usize) -> (r: Entity)
        requires
            self.wf(),
        ensures
            r == (if index < slot_children(self.slot_table(), instance, slot).len() {
                slot_children(self.slot_table(), instance, slot)[index as int]
            } else {
                NULL_ENTITY
            }),
    {
        let ghost rows = self.slot_rows@;
        let mut found: usize = 0;
        let mut result: Entity = NULL_ENTITY;
        let mut i: usize = 0;
        while i < self.slot_rows.len()
            invariant
                rows == self.slot_rows@,
                0 <= i <= rows.len(),
                found == slot_children(rows.take(i as int), instance, slot).len(),
                found <= i,
                result == (if index < found {
                    slot_children(rows.take(i as int), instance, slot)[index as int]
                } else {
                    NULL_ENTITY
                }),
            decreases rows.len() - i,
        {
            let row = self.slot_rows[i];
            assert(rows.take(i + 1).drop_last() =~= rows.take(i as int));
            if row.0 == instance && row.1 == slot {
                if found == index {
                    result = row.2;
                }
                found = found + 1;
            }
            i = i + 1;
        }
        assert(rows.take(rows.len() as int) =~= rows);
        result
    }
}

/// What a call of `identity_of(key, name, info)` on `w` may do, giving `w2` and `r`.
/// A registered key returns its identity and leaves the world as it was. An
/// unregistered one is given the next fresh entity, named `name`, unless the
/// world is full, in which case the call fails and changes nothing.
pub open spec fn identity_outcome(
    w: World,
    key: u64,
    name: Seq<char>,
    info: Option<TypeInfo>,
    w2: World,
    r: Result<Entity, RegistrationError>,
) -> bool {
    &&& w2.wf()
    &&& if w.registry().contains_key(key) {
        r == Ok::<Entity, RegistrationError>(w.registry()[key]) && w2 == w
    } else if w.entity_count() < world_capacity() {
        &&& r is Ok
        &&& r->Ok_0 == entity_id(w.index(), w.entity_count() as int)
        &&& w2.index() == w.index()
        &&& w2.registry() == w.registry().insert(key, r->Ok_0)
        &&& w2.names() == w.names().push(name)
        &&& w2.parents() == w.parents().push(NULL_ENTITY)
        &&& w2.prefab_marks() == w.prefab_marks().push(false)
        &&& w2.slot_table() == w.slot_table()
        &&& w2.inheritance() == w.inheritance()
        &&& w2.type_table() == (match info {
            Some(ti) => w.type_table().push((r->Ok_0, ti)),
            None => w.type_table(),
        })
    } else {
        r == Err::<Entity, RegistrationError>(RegistrationError::Exhausted) && w2 == w
    }
}

/// Asking twice for the identity of one type in one world gives the same
/// identity both times, and the second call leaves the world unchanged.
pub proof fn identity_is_stable(
    w0: World,
    w1: World,
    w2: World,
    key: u64,
    name1: Seq<char>,
    name2: Seq<char>,
    info1: Option<TypeInfo>,
    info2: Option<TypeInfo>,
    r1: Result<Entity, RegistrationError>,
    r2: Result<Entity, RegistrationError>,
)
    requires
        w0.wf(),
        identity_outcome(w0, key, name1, info1, w1, r1),
        identity_outcome(w1, key, name2, info2, w2, r2),
        r1 is Ok,
    ensures
        r2 == r1,
        w2 == w1,
{
}

/// Entities of two worlds with different indices are never equal, so no
/// identity of one world is an identity of the other.
pub proof fn worlds_are_isolated(w1: World, w2: World, e1: Entity, e2: Entity)
    requires
        w1.wf(),
        w2.wf(),
        w1.index() != w2.index(),
        w1.is_alive(e1),
        w2.is_alive(e2),
    ensures
        e1 != e2,
{
    assert(w1.entity_count() <= world_capacity());
    assert(w2.entity_count() <= world_capacity());
}

/// Every type registered in one world has an identity different from every
/// type registered in a world with another index.
pub proof fn registries_are_isolated(w1: World, w2: World, k1: u64, k2: u64)
    requires
        w1.wf(),
        w2.wf(),
        w1.index() != w2.index(),
        w1.registry().contains_key(k1),
        w2.registry().contains_key(k2),
    ensures
        w1.registry()[k1] != w2.registry()[k2],
{
    worlds_are_isolated(w1, w2, w1.registry()[k1], w2.registry()[k2]);
}

/// Rows of the slot table stay live when a world only grows.
proof fn slot_rows_stay_alive(w1: World, w2: World)
    requires
        w1.wf(),
        w2.slot_rows@ == w1.slot_rows@,
        w2.index == w1.index,
        w2.names@.len() >= w1.names@.len(),
    ensures
        forall|i: int| 0 <= i < w2.slot_rows@.len() ==> {
            &&& w2.is_alive(#[trigger] w2.slot_rows@[i].0)
            &&& w2.is_alive(w2.slot_rows@[i].1)
            &&& w2.is_alive(w2.slot_rows@[i].2)
        },
{
    assert(w2.names().len() == w2.names@.len());
    assert(w1.names().len() == w1.names@.len());
    assert forall|i: int| 0 <= i < w2.slot_rows@.len() implies {
        &&& w2.is_alive(#[trigger] w2.slot_rows@[i].0)
        &&& w2.is_alive(w2.slot_rows@[i].1)
        &&& w2.is_alive(w2.slot_rows@[i].2)
    } by {
        assert(w1.is_alive(w1.slot_rows@[i].0));
    }
}

/// In a well-formed world every registered identity is a live entity.
pub proof fn registered_identities_are_alive(w: World, key: u64)
    requires
        w.wf(),
        w.registry().contains_key(key),
    ensures
        w.is_alive(w.registry()[key]),
{
}

/// A live entity is never the null handle nor a placeholder.
pub proof fn live_entities_are_concrete(w: World, e: Entity)
    requires
        w.is_alive(e),
    ensures
        is_concrete(e),
{
}

/// The id a world hands out next differs from every identity already
/// registered in it.
pub proof fn next_id_is_unregistered(w: World, key: u64)
    requires
        w.wf(),
        w.entity_count() < world_capacity(),
        w.registry().contains_key(key),
    ensures
        w.registry()[key] != entity_id(w.index(), w.entity_count() as int),
        !w.is_alive(entity_id(w.index(), w.entity_count() as int) as Entity),
{
}

/// In a well-formed world there is one parent and one prefab mark per entity.
pub proof fn views_have_entity_count(w: World)
    requires
        w.wf(),
    ensures
        w.parents().len() == w.entity_count(),
        w.prefab_marks().len() == w.entity_count(),
{
}

/// Hands out world indices, each at most once, so that the worlds it makes
/// never share an identity.
pub struct WorldIndices {
    next: u64,
}

impl WorldIndices {
    /// Number of indices handed out so far; they are exactly `0..handed_out()`.
    pub closed spec fn handed_out(&self) -> nat {
        self.next as nat
    }

    pub closed spec fn wf(&self) -> bool {
        self.next <= WORLD_SPAN
    }

    /// A source that has handed out nothing yet.
    pub fn new() -> (r: WorldIndices)
        ensures
            r.wf(),
            r.handed_out() == 0,
    {
        WorldIndices { next: 0 }
    }

    /// An empty world with an index never handed out before, or `None` once
    /// every index has been used.
    pub fn make_world(&mut self) -> (r: Option<World>)
        requires
            old(self).wf(),
        ensures
            final(self).wf(),
            old(self).handed_out() < WORLD_SPAN <==> r is Some,
            r is None ==> final(self).handed_out() == old(self).handed_out(),
            r matches Some(w) ==> {
                &&& w.wf()
                &&& w.index() == old(self).handed_out()
                &&& final(self).handed_out() == old(self).handed_out() + 1
                &&& w.registry() == Map::<u64, Entity>::empty()
                &&& w.entity_count() == 0
                &&& w.slot_table() == Seq::<(Entity, Entity, Entity)>::empty()
                &&& w.inheritance() == Seq::<(Entity, Entity)>::empty()
                &&& w.type_table() == Seq::<(Entity, TypeInfo)>::empty()
            },
    {
        if self.next >= WORLD_SPAN {
            return None;
        }
        let w = World::new(self.next as u32);
        self.next = self.next + 1;
        Some(w)
    }
}

/// Worlds made by one index source, at different times, never share an
/// identity: the earlier world's index was handed out before the later one.
pub proof fn worlds_of_one_source_are_isolated(
    earlier: World,
    later: World,
    handed_before_later: nat,
    e1: Entity,
    e2: Entity,
)
    requires
        earlier.wf(),
        later.wf(),
        earlier.index() < handed_before_later,
        later.index() == handed_before_later,
        earlier.is_alive(e1),
        later.is_alive(e2),
    ensures
        e1 != e2,
{
    worlds_are_isolated(earlier, later, e1, e2);
}

} // verus!
