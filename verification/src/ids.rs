//! Identifiers: entity kinds, ids, and the monotonic id generator.
//!
//! Every stored entity is named by an `Id`: a kind tag plus a 128-bit
//! ULID. Two ULIDs per kind are reserved as sentinels — 0 and
//! `u128::MAX` — for use as exclusive range bounds; the generator never
//! produces them.

use vstd::prelude::*;

use crate::error::Error;

verus! {

/// The three kinds of stored entity.
#[derive(Clone, Copy, Debug, PartialEq, Eq, Structural)]
pub enum Type {
    Vertex,
    Edge,
    Parameter,
}

/// The identifier of one entity: its kind and its 128-bit ULID.
/// The kind is part of the identifier so that a stray id of the wrong
/// kind is detectable without a store lookup.
#[derive(Clone, Copy, Debug, PartialEq, Eq, Structural)]
pub struct Id {
    pub kind: Type,
    pub ulid: u128,
}

impl Id {
    /// The low sentinel: ULID zero.
    pub open spec fn spec_is_nil(self) -> bool {
        self.ulid == 0
    }

    /// The high sentinel: the largest ULID.
    pub open spec fn spec_is_max(self) -> bool {
        self.ulid == u128::MAX
    }

    /// Sentinel ids bound range scans and never name real data.
    pub open spec fn is_sentinel(self) -> bool {
        self.spec_is_nil() || self.spec_is_max()
    }

    /// The low sentinel id of a kind.
    pub fn nil(t: Type) -> (r: Id)
        ensures
            r == (Id { kind: t, ulid: 0 }),
    {
        Id { kind: t, ulid: 0 }
    }

    /// The high sentinel id of a kind.
    pub fn max(t: Type) -> (r: Id)
        ensures
            r == (Id { kind: t, ulid: u128::MAX }),
    {
        Id { kind: t, ulid: u128::MAX }
    }

    /// A fresh id of the given kind, strictly above everything the
    /// generator has produced.
    pub fn new(t: Type, generator: &mut IdGen) -> (r: Result<Id, Error>)
        ensures
            r is Ok <==> old(generator).last_ulid() < u128::MAX - 1,
            r matches Ok(id) ==> id.kind == t && old(generator).last_ulid() < id.ulid
                && 0 < id.ulid && id.ulid < u128::MAX
                && final(generator).last_ulid() == id.ulid,
            r is Err ==> r == Err::<Id, Error>(Error::UlidOverflow)
                && *final(generator) == *old(generator),
    {
        generator.next(t)
    }
}

/// Hands out a fresh raw ULID value.
///
/// Relies on `ulid::Ulid::generate`: the value is assembled from the
/// current time and random bits, so nothing is promised of it; the
/// caller makes its own guarantees.
#[verifier::external_body]
fn fresh_ulid_raw() -> u128 {
    ulid::Ulid::generate().0
}

/// The process-wide id generator: remembers the last ULID handed out
/// and never repeats or decreases.
pub struct IdGen {
    last: u128,
}

impl IdGen {
    /// The last ULID handed out, or 0 before the first one.
    pub closed spec fn last_ulid(self) -> u128 {
        self.last
    }

    /// A generator that has produced nothing yet.
    pub fn new() -> (r: IdGen)
        ensures
            r.last_ulid() == 0,
    {
        IdGen { last: 0 }
    }

    /// The next id of the given kind. The ULID is strictly greater than
    /// every ULID this generator produced before, and is never a
    /// sentinel. Fails with `UlidOverflow` exactly when the counter can
    /// no longer advance below the reserved maximum.
    pub fn next(&mut self, t: Type) -> (r: Result<Id, Error>)
        ensures
            r is Ok <==> old(self).last_ulid() < u128::MAX - 1,
            r matches Ok(id) ==> id.kind == t && old(self).last_ulid() < id.ulid
                && 0 < id.ulid && id.ulid < u128::MAX
                && final(self).last_ulid() == id.ulid,
            r is Err ==> r == Err::<Id, Error>(Error::UlidOverflow)
                && *final(self) == *old(self),
    {
        let cand = fresh_ulid_raw();
        if cand > self.last && cand < u128::MAX {
            self.last = cand;
            Ok(Id { kind: t, ulid: cand })
        } else if self.last < u128::MAX - 1 {
            let next = self.last + 1;
            self.last = next;
            Ok(Id { kind: t, ulid: next })
        } else {
            Err(Error::UlidOverflow)
        }
    }
}

/// Zero, one or many ids handed to a traversal source.
#[derive(Debug, Clone, PartialEq)]
pub struct Ids(pub Vec<Id>);

impl Ids {
    /// No ids: a source over every entity.
    pub fn none() -> (r: Ids)
        ensures
            r.0@ =~= Seq::<Id>::empty(),
    {
        Ids(Vec::new())
    }

    /// A single id.
    pub fn one(id: Id) -> (r: Ids)
        ensures
            r.0@ =~= seq![id],
    {
        let mut v: Vec<Id> = Vec::new();
        v.push(id);
        Ids(v)
    }

    /// The given ids, in order.
    pub fn many(ids: Vec<Id>) -> (r: Ids)
        ensures
            r.0@ == ids@,
    {
        Ids(ids)
    }
}

} // verus!
