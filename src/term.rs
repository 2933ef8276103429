use vstd::prelude::*;

use crate::ids::{Entity, ANY, NULL_ENTITY, is_concrete, concrete};

verus! {

/// How a term finds its component: on the entity itself, or by walking up a
/// traversal relationship (and, for `SelfOrUp`, trying the entity first).
#[derive(Clone, Copy, Debug, PartialEq, Eq, Structural)]
pub enum MatchMode {
    Owned,
    Up(Entity),
    SelfOrUp(Entity),
}

/// Whether a term must match, must not match, or may match.
#[derive(Clone, Copy, Debug, PartialEq, Eq, Structural)]
pub enum Polarity {
    Require,
    Exclude,
    Optional,
}

/// What a term allows the consumer to do with the matched component.
#[derive(Clone, Copy, Debug, PartialEq, Eq, Structural)]
pub enum Access {
    Read,
    Write,
    ReadWrite,
    NoAccess,
}

/// One constraint of a query or observer: a (relationship, target) pair with
/// its matching mode, polarity and access mode.
#[derive(Clone, Copy, Debug, PartialEq, Eq, Structural)]
pub struct Term {
    pub relationship: Entity,
    pub target: Entity,
    pub match_mode: MatchMode,
    pub polarity: Polarity,
    pub access: Access,
}

/// Reasons a term is refused when its descriptor is built.
#[derive(Clone, Copy, Debug, PartialEq, Eq, Structural)]
pub enum TermError {
    /// The relationship was never set to a concrete identity.
    MissingRelationship,
    /// A negated or optional term asks for write access.
    WriteOnUncertainMatch,
}

pub open spec fn access_writes(a: Access) -> bool {
    a == Access::Write || a == Access::ReadWrite
}

/// A term whose match is absent or not guaranteed.
pub open spec fn is_uncertain(p: Polarity) -> bool {
    p == Polarity::Exclude || p == Polarity::Optional
}

/// The outcome of validating one term.
pub open spec fn term_check(t: Term) -> Result<(), TermError> {
    if !is_concrete(t.relationship) {
        Err(TermError::MissingRelationship)
    } else if is_uncertain(t.polarity) && access_writes(t.access) {
        Err(TermError::WriteOnUncertainMatch)
    } else {
        Ok(())
    }
}

/// The term on `relationship` with every other setting at its default: any
/// target, owned match, required, read access.
pub open spec fn default_term(relationship: Entity) -> Term {
    Term {
        relationship,
        target: ANY,
        match_mode: MatchMode::Owned,
        polarity: Polarity::Require,
        access: Access::Read,
    }
}

impl Term {
    /// A term on `relationship` with any target, owned match, required, read.
    pub fn new(relationship: Entity) -> (r: Term)
        ensures
            r == default_term(relationship),
    {
        Term {
            relationship,
            target: ANY,
            match_mode: MatchMode::Owned,
            polarity: Polarity::Require,
            access: Access::Read,
        }
    }

    /// A term with no relationship set yet.
    pub fn empty() -> (r: Term)
        ensures
            r == default_term(NULL_ENTITY),
    {
        Term::new(NULL_ENTITY)
    }

    /// A term whose relationship is `e` itself (direct ownership of `e`).
    pub fn self_ref(e: Entity) -> (r: Term)
        ensures
            r == (Term { target: e, ..default_term(e) }),
    {
        Term { target: e, ..Term::new(e) }
    }

    pub fn set_relationship(&mut self, rel: Entity)
        ensures
            *final(self) == (Term { relationship: rel, ..*old(self) }),
    {
        self.relationship = rel;
    }

    pub fn set_target(&mut self, target: Entity)
        ensures
            *final(self) == (Term { target, ..*old(self) }),
    {
        self.target = target;
    }

    pub fn set_match_mode(&mut self, mode: MatchMode)
        ensures
            *final(self) == (Term { match_mode: mode, ..*old(self) }),
    {
        self.match_mode = mode;
    }

    pub fn set_polarity(&mut self, polarity: Polarity)
        ensures
            *final(self) == (Term { polarity, ..*old(self) }),
    {
        self.polarity = polarity;
    }

    pub fn set_access(&mut self, access: Access)
        ensures
            *final(self) == (Term { access, ..*old(self) }),
    {
        self.access = access;
    }

    /// Checks the term's own rules: a concrete relationship, and no write
    /// access through a negated or optional match.
    pub fn validate(&self) -> (r: Result<(), TermError>)
        ensures
            r == term_check(*self),
    {
        if !concrete(self.relationship) {
            return Err(TermError::MissingRelationship);
        }
        let uncertain = match self.polarity {
            Polarity::Exclude | Polarity::Optional => true,
            Polarity::Require => false,
        };
        let writes = match self.access {
            Access::Write | Access::ReadWrite => true,
            Access::Read | Access::NoAccess => false,
        };
        if uncertain && writes {
            Err(TermError::WriteOnUncertainMatch)
        } else {
            Ok(())
        }
    }
}

} // verus!
