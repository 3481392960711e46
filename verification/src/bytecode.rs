//! The bytecode intermediate representation of a pending traversal.
//!
//! A `Bytecode` is an ordered instruction stream; steps are consumed
//! from the front, so a source instruction must stand first. `From` and
//! `To` are sideband tags that an `AddE` step consumes out of the rest
//! of the stream.

use vstd::prelude::*;

use crate::ids::{Id, Ids};
use crate::pvalue::PValue;

verus! {

/// A vertex source: every vertex, or point lookups.
#[derive(Debug)]
pub struct Vert(pub Ids);

/// An edge source: every edge, or point lookups.
#[derive(Debug)]
pub struct Edge(pub Ids);

/// One traversal step.
#[derive(Debug)]
pub enum Instruction {
    /// Source: if the ids are empty, scan all vertices; else look each
    /// one up.
    Vert(Vert),
    /// Source: symmetric, for edges.
    Edge(Edge),
    /// Insert a new vertex with the given label and emit it.
    AddV(String),
    /// Insert a new edge with the given label; requires `From` and `To`
    /// tags in the remaining stream.
    AddE(String),
    /// Attach a parameter; not executed in this release.
    Property(String, PValue),
    /// The tail endpoint an `AddE` consumes.
    From(Id),
    /// The head endpoint an `AddE` consumes.
    To(Id),
}

/// An ordered instruction stream. `sources` is reserved and stays
/// empty in this release; `steps` are drained from the front.
#[derive(Debug)]
pub struct Bytecode {
    pub sources: Vec<Instruction>,
    pub steps: Vec<Instruction>,
}

impl Bytecode {
    /// Append one step.
    pub fn add_step(&mut self, i: Instruction)
        ensures
            final(self).steps@ == old(self).steps@.push(i),
            final(self).sources@ == old(self).sources@,
    {
        self.steps.push(i);
    }

    /// The pending steps, front first.
    pub fn steps(&self) -> (r: &Vec<Instruction>)
        ensures
            r@ == self.steps@,
    {
        &self.steps
    }
}

impl Default for Bytecode {
    /// An empty stream.
    fn default() -> (r: Bytecode)
        ensures
            r.steps@.len() == 0,
            r.sources@.len() == 0,
    {
        Bytecode { sources: Vec::new(), steps: Vec::new() }
    }
}

/// The endpoint the last `To` tag of the stream names, if any.
pub open spec fn last_to(s: Seq<Instruction>) -> Option<Id>
    decreases s.len(),
{
    if s.len() == 0 {
        None
    } else {
        match s.last() {
            Instruction::To(id) => Some(id),
            _ => last_to(s.drop_last()),
        }
    }
}

/// The endpoint the last `From` tag of the stream names, if any.
pub open spec fn last_from(s: Seq<Instruction>) -> Option<Id>
    decreases s.len(),
{
    if s.len() == 0 {
        None
    } else {
        match s.last() {
            Instruction::From(id) => Some(id),
            _ => last_from(s.drop_last()),
        }
    }
}

} // verus!
