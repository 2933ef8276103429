use vstd::prelude::*;

use crate::ids::{Entity, NULL_ENTITY, MAX_TERMS, is_concrete, concrete};
use crate::term::{Term, TermError, MatchMode, Polarity, Access, term_check, is_uncertain, access_writes};
use crate::world::{
    World, RegistrationError, TypeInfo, identity_outcome, world_capacity, info_lookup,
    registered_identities_are_alive, live_entities_are_concrete, views_have_entity_count,
};

verus! {

/// How a type enters a statically declared term list: by shared reference,
/// by mutable reference, wrapped in an option, or under a negation marker.
#[derive(Clone, Copy, Debug, PartialEq, Eq, Structural)]
pub enum TermKind {
    Ref,
    Mut,
    Opt,
    Not,
}

/// One element of a statically declared term list: the type's key, its name,
/// how it is referenced, and its descriptor (none for a tag).
pub struct TypeToken {
    pub key: u64,
    pub name: String,
    pub kind: TermKind,
    pub info: Option<TypeInfo>,
}

/// Reasons a descriptor is refused when it is built.
#[derive(Clone, Copy, Debug, PartialEq, Eq, Structural)]
pub enum DescError {
    /// More terms than a descriptor may hold.
    TooManyTerms,
    /// The term at this position breaks a term rule.
    InvalidTerm(usize, TermError),
    /// Two terms on the same (relationship, target) pair ask for different access.
    ConflictingAccess,
    /// An observer with no trigger event.
    NoEvents,
    /// More trigger events than an observer descriptor may hold.
    TooManyEvents,
}

/// The term derived for a type with identity `id` referenced as `kind`.
pub open spec fn term_for(kind: TermKind, id: Entity) -> Term {
    let (polarity, access) = match kind {
        TermKind::Ref => (Polarity::Require, Access::Read),
        TermKind::Mut => (Polarity::Require, Access::Write),
        TermKind::Opt => (Polarity::Optional, Access::Read),
        TermKind::Not => (Polarity::Exclude, Access::NoAccess),
    };
    Term { relationship: id, target: id, match_mode: MatchMode::Owned, polarity, access }
}

/// Two terms on one (relationship, target) pair with different access modes.
pub open spec fn conflicts(a: Term, b: Term) -> bool {
    a.relationship == b.relationship && a.target == b.target && a.access != b.access
}

pub open spec fn has_conflict(terms: Seq<Term>) -> bool {
    exists|i: int, j: int| 0 <= i < j < terms.len() && #[trigger] conflicts(terms[i], terms[j])
}

/// The first term rule broken at position `i` or later, if any.
pub open spec fn terms_check_from(terms: Seq<Term>, i: int) -> Result<(), DescError>
    decreases terms.len() - i,
{
    if i < 0 || i >= terms.len() {
        Ok(())
    } else {
        match term_check(terms[i]) {
            Err(e) => Err(DescError::InvalidTerm(i as usize, e)),
            Ok(_) => terms_check_from(terms, i + 1),
        }
    }
}

/// The outcome of validating a query's term list: too many terms, then the
/// first broken term rule, then conflicting access.
pub open spec fn query_check(terms: Seq<Term>) -> Result<(), DescError> {
    if terms.len() > MAX_TERMS {
        Err(DescError::TooManyTerms)
    } else if terms_check_from(terms, 0) is Err {
        terms_check_from(terms, 0)
    } else if has_conflict(terms) {
        Err(DescError::ConflictingAccess)
    } else {
        Ok(())
    }
}

proof fn broken_term_is_reported_from(terms: Seq<Term>, i: int, j: int)
    requires
        0 <= j <= i < terms.len(),
        term_check(terms[i]) is Err,
    ensures
        terms_check_from(terms, j) is Err,
    decreases i - j,
{
    if j < i && term_check(terms[j]) is Ok {
        broken_term_is_reported_from(terms, i, j + 1);
    }
}

/// A negated or optional term that asks for write access makes validation
/// of any term list holding it fail: the descriptor is refused when it is
/// built, before anything is handed on.
pub proof fn uncertain_write_is_refused(terms: Seq<Term>, i: int)
    requires
        0 <= i < terms.len(),
        is_uncertain(terms[i].polarity),
        access_writes(terms[i].access),
    ensures
        term_check(terms[i]) is Err,
        query_check(terms) is Err,
{
    broken_term_is_reported_from(terms, i, 0);
}

/// The term derived for one type token, given the type's identity.
pub fn derive_term(kind: TermKind, id: Entity) -> (r: Term)
    ensures
        r == term_for(kind, id),
{
    let (polarity, access) = match kind {
        TermKind::Ref => (Polarity::Require, Access::Read),
        TermKind::Mut => (Polarity::Require, Access::Write),
        TermKind::Opt => (Polarity::Optional, Access::Read),
        TermKind::Not => (Polarity::Exclude, Access::NoAccess),
    };
    Term { relationship: id, target: id, match_mode: MatchMode::Owned, polarity, access }
}

fn same_access(a: Access, b: Access) -> (r: bool)
    ensures
        r == (a == b),
{
    match (a, b) {
        (Access::Read, Access::Read) => true,
        (Access::Write, Access::Write) => true,
        (Access::ReadWrite, Access::ReadWrite) => true,
        (Access::NoAccess, Access::NoAccess) => true,
        _ => false,
    }
}

/// Validates a term list; the result is exactly `query_check(terms@)`.
pub fn check_terms(terms: &Vec<Term>) -> (r: Result<(), DescError>)
    ensures
        r == query_check(terms@),
{
    if terms.len() > MAX_TERMS {
        return Err(DescError::TooManyTerms);
    }
    let n = terms.len();
    let mut i: usize = 0;
    while i < n
        invariant
            n == terms@.len() <= MAX_TERMS,
            0 <= i <= n,
            terms_check_from(terms@, 0) == terms_check_from(terms@, i as int),
        decreases n - i,
    {
        match terms[i].validate() {
            Err(e) => {
                return Err(DescError::InvalidTerm(i, e));
            },
            Ok(_) => {},
        }
        i = i + 1;
    }
    let mut a: usize = 0;
    while a < n
        invariant
            n == terms@.len() <= MAX_TERMS,
            terms_check_from(terms@, 0) is Ok,
            0 <= a <= n,
            forall|x: int, y: int| 0 <= x < a && x < y < n ==> !#[trigger] conflicts(terms@[x], terms@[y]),
        decreases n - a,
    {
        let mut b: usize = a + 1;
        while b < n
            invariant
                n == terms@.len() <= MAX_TERMS,
                terms_check_from(terms@, 0) is Ok,
                0 <= a < n,
                a + 1 <= b <= n,
                forall|x: int, y: int| 0 <= x < a && x < y < n ==> !#[trigger] conflicts(terms@[x], terms@[y]),
                forall|y: int| a < y < b ==> !#[trigger] conflicts(terms@[a as int], terms@[y]),
            decreases n - b,
        {
            let s = terms[a];
            let t = terms[b];
            if s.relationship == t.relationship && s.target == t.target && !same_access(s.access, t.access) {
                assert(conflicts(terms@[a as int], terms@[b as int]));
                return Err(DescError::ConflictingAccess);
            }
            b = b + 1;
        }
        a = a + 1;
    }
    Ok(())
}

/// Raised when a descriptor is handed to a world: the term at this position
/// names a concrete target that is not an entity of that world.
#[derive(Clone, Copy, Debug, PartialEq, Eq, Structural)]
pub enum SubmitError {
    UnresolvedTarget(usize),
}

/// A term whose target is a placeholder or an entity of `w`.
pub open spec fn target_resolves(w: World, t: Term) -> bool {
    !is_concrete(t.target) || w.is_alive(t.target)
}

/// The first term at position `i` or later whose target does not resolve.
pub open spec fn targets_check_from(w: World, terms: Seq<Term>, i: int) -> Result<(), SubmitError>
    decreases terms.len() - i,
{
    if i < 0 || i >= terms.len() {
        Ok(())
    } else if !target_resolves(w, terms[i]) {
        Err(SubmitError::UnresolvedTarget(i as usize))
    } else {
        targets_check_from(w, terms, i + 1)
    }
}

/// Checks, at submission to `world`, that every concrete target is one of
/// its entities; reports the first term whose target is not.
pub fn check_targets(world: &World, terms: &Vec<Term>) -> (r: Result<(), SubmitError>)
    requires
        world.wf(),
    ensures
        r == targets_check_from(*world, terms@, 0),
{
    let mut i: usize = 0;
    while i < terms.len()
        invariant
            world.wf(),
            0 <= i <= terms@.len(),
            targets_check_from(*world, terms@, 0) == targets_check_from(*world, terms@, i as int),
        decreases terms@.len() - i,
    {
        let t = terms[i].target;
        if concrete(t) && !world.contains(t) {
            return Err(SubmitError::UnresolvedTarget(i));
        }
        i = i + 1;
    }
    Ok(())
}

/// A finished query descriptor: the terms in the order they were added, and
/// the iteration policy.
pub struct QueryDesc {
    pub terms: Vec<Term>,
    pub cached: bool,
    pub instanced: bool,
    /// The component whose values order the results, or the null handle.
    pub order_by: Entity,
}

/// Accumulates terms and iteration policy into a query descriptor.
pub struct QueryBuilder {
    pub desc: QueryDesc,
}

impl QueryBuilder {
    /// A builder with no terms, uncached, not instanced, unordered.
    pub fn new() -> (r: QueryBuilder)
        ensures
            r.desc.terms@ == Seq::<Term>::empty(),
            !r.desc.cached,
            !r.desc.instanced,
            r.desc.order_by == NULL_ENTITY,
    {
        QueryBuilder { desc: QueryDesc { terms: Vec::new(), cached: false, instanced: false, order_by: NULL_ENTITY } }
    }

    /// Appends `t` after the terms already added.
    pub fn add_term(&mut self, t: Term)
        ensures
            final(self).desc.terms@ == old(self).desc.terms@.push(t),
            final(self).desc.cached == old(self).desc.cached,
            final(self).desc.instanced == old(self).desc.instanced,
            final(self).desc.order_by == old(self).desc.order_by,
    {
        self.desc.terms.push(t);
    }

    /// Appends one derived term per type token, in the tokens' order,
    /// registering each type's identity in `world` as needed.
    pub fn populate(&mut self, world: &mut World, tokens: &Vec<TypeToken>) -> (r: Result<(), RegistrationError>)
        requires
            old(world).wf(),
        ensures
            final(world).wf(),
            populated(old(self).desc.terms@, final(self).desc.terms@, *old(world), *final(world), tokens@, r),
            final(world).entity_count() <= old(world).entity_count() + tokens@.len(),
            old(world).entity_count() + tokens@.len() <= world_capacity() ==> r is Ok,
            final(self).desc.cached == old(self).desc.cached,
            final(self).desc.instanced == old(self).desc.instanced,
            final(self).desc.order_by == old(self).desc.order_by,
    {
        populate_terms(&mut self.desc.terms, world, tokens)
    }

    pub fn cached(&mut self, on: bool)
        ensures
            final(self).desc.cached == on,
            final(self).desc.terms@ == old(self).desc.terms@,
            final(self).desc.instanced == old(self).desc.instanced,
            final(self).desc.order_by == old(self).desc.order_by,
    {
        self.desc.cached = on;
    }

    pub fn instanced(&mut self, on: bool)
        ensures
            final(self).desc.instanced == on,
            final(self).desc.terms@ == old(self).desc.terms@,
            final(self).desc.cached == old(self).desc.cached,
            final(self).desc.order_by == old(self).desc.order_by,
    {
        self.desc.instanced = on;
    }

    pub fn order_by(&mut self, component: Entity)
        ensures
            final(self).desc.order_by == component,
            final(self).desc.terms@ == old(self).desc.terms@,
            final(self).desc.cached == old(self).desc.cached,
            final(self).desc.instanced == old(self).desc.instanced,
    {
        self.desc.order_by = component;
    }

    pub fn term_count(&self) -> (r: usize)
        ensures
            r == self.desc.terms@.len(),
    {
        self.desc.terms.len()
    }

    /// Finishes the descriptor, consuming the builder. It is handed back
    /// unchanged, terms in the order they were added, when the terms pass
    /// validation; otherwise the validation error comes back.
    pub fn build(self) -> (r: Result<QueryDesc, DescError>)
        ensures
            query_check(self.desc.terms@) is Ok <==> r is Ok,
            r matches Err(e) ==> query_check(self.desc.terms@) == Err::<(), DescError>(e),
            r matches Ok(d) ==> {
                &&& d.terms@ == self.desc.terms@
                &&& d.cached == self.desc.cached
                &&& d.instanced == self.desc.instanced
                &&& d.order_by == self.desc.order_by
            },
    {
        match check_terms(&self.desc.terms) {
            Ok(_) => Ok(self.desc),
            Err(e) => Err(e),
        }
    }
}

/// What appending the terms of `tokens` to `terms` in world `w` may give:
/// on success each token's type is registered and one term per token, in
/// order, follows the old ones; on failure the world ran out of ids while
/// registering some token, and the terms before it were appended.
pub open spec fn populated(
    terms: Seq<Term>,
    terms2: Seq<Term>,
    w: World,
    w2: World,
    tokens: Seq<TypeToken>,
    r: Result<(), RegistrationError>,
) -> bool {
    &&& w2.index() == w.index()
    &&& w2.entity_count() >= w.entity_count()
    &&& w2.names().subrange(0, w.entity_count() as int) == w.names()
    &&& w2.parents().subrange(0, w.entity_count() as int) == w.parents()
    &&& w2.prefab_marks().subrange(0, w.entity_count() as int) == w.prefab_marks()
    &&& w2.slot_table() == w.slot_table()
    &&& w2.inheritance() == w.inheritance()
    &&& w2.type_table().len() >= w.type_table().len()
    &&& w2.type_table().subrange(0, w.type_table().len() as int) == w.type_table()
    &&& forall|k: u64| w.registry().contains_key(k) ==>
        #[trigger] w2.registry().contains_key(k) && w2.registry()[k] == w.registry()[k]
    &&& forall|i: int| 0 <= i < tokens.len() && #[trigger] w2.registry().contains_key(tokens[i].key)
        && first_use(tokens, i) && !w.registry().contains_key(tokens[i].key) && tokens[i].info is Some ==>
        info_lookup(w2.type_table(), w2.registry()[tokens[i].key]) == tokens[i].info
    &&& r is Ok ==> {
        &&& terms2.len() == terms.len() + tokens.len()
        &&& terms2.subrange(0, terms.len() as int) == terms
        &&& forall|i: int| 0 <= i < tokens.len() ==> {
            &&& #[trigger] w2.registry().contains_key(tokens[i].key)
            &&& w2.is_alive(w2.registry()[tokens[i].key])
            &&& is_concrete(w2.registry()[tokens[i].key])
            &&& terms2[terms.len() + i] == term_for(tokens[i].kind, w2.registry()[tokens[i].key])
        }
    }
    &&& r is Err ==> r == Err::<(), RegistrationError>(RegistrationError::Exhausted)
}

/// No token before position `i` has the key of the token at `i`.
pub open spec fn first_use(tokens: Seq<TypeToken>, i: int) -> bool {
    forall|j: int| 0 <= j < i ==> #[trigger] tokens[j].key != tokens[i].key
}

pub(crate) fn populate_terms(terms: &mut Vec<Term>, world: &mut World, tokens: &Vec<TypeToken>) -> (r: Result<(), RegistrationError>)
    requires
        old(world).wf(),
    ensures
        final(world).wf(),
        populated(old(terms)@, final(terms)@, *old(world), *final(world), tokens@, r),
        final(world).entity_count() <= old(world).entity_count() + tokens@.len(),
        old(world).entity_count() + tokens@.len() <= world_capacity() ==> r is Ok,
{
    let ghost w0 = *world;
    let ghost t0 = terms@;
    proof {
        views_have_entity_count(w0);
        assert(world.prefab_marks().subrange(0, w0.entity_count() as int) =~= w0.prefab_marks());
        assert(world.type_table().subrange(0, w0.type_table().len() as int) =~= w0.type_table());
        assert(world.names().subrange(0, w0.entity_count() as int) =~= w0.names());
        assert(world.parents().subrange(0, w0.entity_count() as int) =~= w0.parents());
    }
    let mut i: usize = 0;
    while i < tokens.len()
        invariant
            world.wf(),
            w0.wf(),
            w0 == *old(world),
            t0 == old(terms)@,
            0 <= i <= tokens@.len(),
            world.index() == w0.index(),
            world.entity_count() >= w0.entity_count(),
            world.entity_count() <= w0.entity_count() + i,
            world.names().subrange(0, w0.entity_count() as int) == w0.names(),
            world.parents().subrange(0, w0.entity_count() as int) == w0.parents(),
            world.prefab_marks().subrange(0, w0.entity_count() as int) == w0.prefab_marks(),
            world.slot_table() == w0.slot_table(),
            world.inheritance() == w0.inheritance(),
            world.type_table().len() >= w0.type_table().len(),
            world.type_table().subrange(0, w0.type_table().len() as int) == w0.type_table(),
            forall|k: u64| #[trigger] world.registry().contains_key(k) && !w0.registry().contains_key(k) ==>
                exists|j: int| 0 <= j < i && tokens@[j].key == k,
            forall|m: int| 0 <= m < i && #[trigger] world.registry().contains_key(tokens@[m].key)
                && first_use(tokens@, m) && !w0.registry().contains_key(tokens@[m].key) && tokens@[m].info is Some ==>
                info_lookup(world.type_table(), world.registry()[tokens@[m].key]) == tokens@[m].info,
            forall|k: u64| w0.registry().contains_key(k) ==>
                #[trigger] world.registry().contains_key(k) && world.registry()[k] == w0.registry()[k],
            terms@.len() == t0.len() + i,
            terms@.subrange(0, t0.len() as int) == t0,
            forall|m: int| 0 <= m < i ==> #[trigger] world.registry().contains_key(tokens@[m].key),
            forall|m: int| 0 <= m < i ==>
                #[trigger] terms@[t0.len() + m] == term_for(tokens@[m].kind, world.registry()[tokens@[m].key]),
        decreases tokens@.len() - i,
    {
        let tok = &tokens[i];
        let ghost wb = *world;
        let r = world.identity_of(tok.key, tok.name.as_str(), tok.info);
        assert(identity_outcome(wb, tok.key, tok.name@, tok.info, *world, r));
        proof {
            views_have_entity_count(wb);
            views_have_entity_count(*world);
            views_have_entity_count(w0);
        }
        assert(world.names().subrange(0, w0.entity_count() as int) =~= w0.names()) by {
            assert(world.names().subrange(0, w0.entity_count() as int)
                =~= wb.names().subrange(0, w0.entity_count() as int));
        }
        assert(world.parents().subrange(0, w0.entity_count() as int) =~= w0.parents()) by {
            assert(world.parents().subrange(0, w0.entity_count() as int)
                =~= wb.parents().subrange(0, w0.entity_count() as int));
        }
        assert(world.prefab_marks().subrange(0, w0.entity_count() as int) =~= w0.prefab_marks()) by {
            assert(world.prefab_marks().subrange(0, w0.entity_count() as int)
                =~= wb.prefab_marks().subrange(0, w0.entity_count() as int));
        }
        assert(world.type_table().subrange(0, w0.type_table().len() as int) =~= w0.type_table()) by {
            assert(world.type_table().subrange(0, w0.type_table().len() as int)
                =~= wb.type_table().subrange(0, w0.type_table().len() as int));
        }
        proof {
            if r is Ok && !wb.registry().contains_key(tok.key) {
                let id = r->Ok_0;
                assert forall|k: u64| #[trigger] world.registry().contains_key(k) && !w0.registry().contains_key(k) implies
                    exists|j: int| 0 <= j < i + 1 && tokens@[j].key == k by {
                    if k == tok.key {
                        assert(tokens@[i as int].key == k);
                    } else {
                        assert(wb.registry().contains_key(k));
                    }
                }
                assert forall|m: int| 0 <= m < i + 1 && #[trigger] world.registry().contains_key(tokens@[m].key)
                    && first_use(tokens@, m) && !w0.registry().contains_key(tokens@[m].key) && tokens@[m].info is Some implies
                    info_lookup(world.type_table(), world.registry()[tokens@[m].key]) == tokens@[m].info by {
                    if m < i {
                        assert(wb.registry().contains_key(tokens@[m].key));
                        let idm = wb.registry()[tokens@[m].key];
                        registered_identities_are_alive(wb, tokens@[m].key);
                        assert(idm != id);
                        assert(world.registry()[tokens@[m].key] == idm);
                        if tok.info is Some {
                            assert(world.type_table().drop_last() =~= wb.type_table());
                        }
                    } else {
                        if tok.info is Some {
                            assert(world.type_table().last() == (id, tok.info->Some_0));
                        }
                    }
                }
            } else {
                assert(*world == wb);
                assert forall|k: u64| #[trigger] world.registry().contains_key(k) && !w0.registry().contains_key(k) implies
                    exists|j: int| 0 <= j < i + 1 && tokens@[j].key == k by {
                    assert(wb.registry().contains_key(k));
                    let j = choose|j: int| 0 <= j < i && tokens@[j].key == k;
                    assert(tokens@[j].key == k);
                }
                assert forall|m: int| 0 <= m < i + 1 && #[trigger] world.registry().contains_key(tokens@[m].key)
                    && first_use(tokens@, m) && !w0.registry().contains_key(tokens@[m].key) && tokens@[m].info is Some implies
                    info_lookup(world.type_table(), world.registry()[tokens@[m].key]) == tokens@[m].info by {
                    if m == i {
                        assert(*world == wb);
                        assert(wb.registry().contains_key(tokens@[m].key));
                        assert(exists|j: int| 0 <= j < i && tokens@[j].key == tokens@[m].key);
                        let j = choose|j: int| 0 <= j < i && tokens@[j].key == tokens@[m].key;
                        assert(tokens@[j].key != tokens@[m].key);
                    }
                    if m < i {
                        assert(wb.registry().contains_key(tokens@[m].key));
                    }
                }
            }
        }
        assert forall|k: u64| wb.registry().contains_key(k) implies
            #[trigger] world.registry().contains_key(k) && world.registry()[k] == wb.registry()[k] by {
            if !wb.registry().contains_key(tok.key) && r is Ok {
                assert(world.registry() == wb.registry().insert(tok.key, r->Ok_0));
            }
        }
        match r {
            Ok(id) => {
                assert(world.registry().contains_key(tok.key) && world.registry()[tok.key] == id);
                let ghost before = terms@;
                terms.push(derive_term(tok.kind, id));
                assert(terms@.subrange(0, t0.len() as int) =~= t0);
                assert forall|m: int| 0 <= m < i + 1 implies
                    #[trigger] world.registry().contains_key(tokens@[m].key) by {
                    if m < i {
                        assert(wb.registry().contains_key(tokens@[m].key));
                    }
                }
                assert forall|m: int| 0 <= m < i + 1 implies
                    #[trigger] terms@[t0.len() + m] == term_for(tokens@[m].kind, world.registry()[tokens@[m].key]) by {
                    if m < i {
                        assert(wb.registry().contains_key(tokens@[m].key));
                        assert(terms@[t0.len() + m] == before[t0.len() + m]);
                    }
                }
            },
            Err(e) => {
                assert(*world == wb);
                return Err(e);
            },
        }
        i = i + 1;
    }
    proof {
        assert forall|m: int| 0 <= m < tokens@.len() implies
            world.is_alive(world.registry()[#[trigger] tokens@[m].key])
            && is_concrete(world.registry()[tokens@[m].key]) by {
            assert(world.registry().contains_key(tokens@[m].key));
            registered_identities_are_alive(*world, tokens@[m].key);
            live_entities_are_concrete(*world, world.registry()[tokens@[m].key]);
        }
    }
    Ok(())
}

} // verus!
