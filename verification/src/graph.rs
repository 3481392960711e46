//! The graph façade: transactions and the high-level put/get API.
//!
//! A `Graph` owns the committed store, the id generator and the write
//! lock. Read transactions snapshot the committed state; at most one
//! write transaction is open at a time, works on its own copy, and
//! publishes it atomically on commit. A transaction dropped through
//! [`WriteTxn::abort`] rolls back: the committed state never saw it.

use vstd::prelude::*;

use crate::error::Error;
use crate::ids::{Id, IdGen, Type};
use crate::pvalue::{Edge, PValue, Vertex};
use crate::store::{
    id_lookup, label_scan, lidx_view, ptbl_view, tbl_view, elabel_of, vlabel_of, Store,
};

verus! {

/// A read transaction: a consistent snapshot of the committed state at
/// the moment it was opened. Later commits never reach it.
pub struct ReadTxn {
    pub snap: Store,
}

/// A write transaction: the single writer's working copy. Nothing of it
/// is visible until [`WriteTxn::commit`] publishes it.
pub struct WriteTxn {
    pub working: Store,
}

impl WriteTxn {
    /// The working copy obeys the storage discipline.
    pub open spec fn wf(self) -> bool {
        self.working.wf()
    }

    /// Publish the working copy: the committed state becomes exactly
    /// this transaction's view, and the write lock opens.
    pub fn commit(self, graph: &mut Graph) -> (r: Result<(), Error>)
        requires
            self.wf(),
        ensures
            r is Ok,
            final(graph).wf(),
            !final(graph).write_locked,
            tbl_view(final(graph).committed.vertices@) == tbl_view(self.working.vertices@),
            lidx_view(final(graph).committed.vertex_idx@) == lidx_view(
                self.working.vertex_idx@,
            ),
            tbl_view(final(graph).committed.edges@) == tbl_view(self.working.edges@),
            lidx_view(final(graph).committed.edge_idx@) == lidx_view(self.working.edge_idx@),
            ptbl_view(final(graph).committed.parameters@) == ptbl_view(
                self.working.parameters@,
            ),
            lidx_view(final(graph).committed.parameters_idx@) == lidx_view(
                self.working.parameters_idx@,
            ),
            final(graph).generator == old(graph).generator,
    {
        graph.committed = self.working;
        graph.write_locked = false;
        Ok(())
    }

    /// Roll back: the working copy is discarded, the write lock opens,
    /// and the committed state is untouched.
    pub fn abort(self, graph: &mut Graph)
        ensures
            !final(graph).write_locked,
            final(graph).committed == old(graph).committed,
            final(graph).generator == old(graph).generator,
    {
        graph.write_locked = false;
    }
}

impl ReadTxn {
    /// The snapshot obeys the storage discipline.
    pub open spec fn wf(self) -> bool {
        self.snap.wf()
    }
}

/// A graph handle: the committed store, the id generator, and the
/// write lock.
pub struct Graph {
    pub committed: Store,
    pub generator: IdGen,
    pub write_locked: bool,
}

impl Graph {
    /// The committed state obeys the storage discipline.
    pub open spec fn wf(self) -> bool {
        self.committed.wf()
    }

    /// An empty graph with no writer and a fresh id generator.
    pub fn new() -> (r: Graph)
        ensures
            r.wf(),
            !r.write_locked,
            r.generator.last_ulid() == 0,
            r.committed.vertices@.len() == 0,
            r.committed.edges@.len() == 0,
    {
        Graph { committed: Store::new(), generator: IdGen::new(), write_locked: false }
    }

    /// Open a read transaction: its snapshot observes exactly the
    /// commits so far, and nothing that commits later.
    pub fn read_txn(&self) -> (r: Result<ReadTxn, Error>)
        ensures
            r matches Ok(t) && tbl_view(t.snap.vertices@) == tbl_view(
                self.committed.vertices@,
            ) && lidx_view(t.snap.vertex_idx@) == lidx_view(self.committed.vertex_idx@)
                && tbl_view(t.snap.edges@) == tbl_view(self.committed.edges@) && lidx_view(
                t.snap.edge_idx@,
            ) == lidx_view(self.committed.edge_idx@) && ptbl_view(t.snap.parameters@)
                == ptbl_view(self.committed.parameters@) && lidx_view(t.snap.parameters_idx@)
                == lidx_view(self.committed.parameters_idx@),
            self.wf() ==> (r matches Ok(t) && t.wf()),
    {
        Ok(ReadTxn { snap: self.committed.duplicate() })
    }

    /// Open the write transaction, waiting up to `millis` milliseconds
    /// for the lock. With the lock already held, a zero wait fails at
    /// once with `Busy` and a positive wait fails with `TimedOut`:
    /// the single holder cannot release it meanwhile.
    pub fn write_txn_wait(&mut self, millis: u64) -> (r: Result<WriteTxn, Error>)
        ensures
            old(self).write_locked ==> (*final(self) == *old(self) && (if millis == 0 {
                r == Err::<WriteTxn, Error>(Error::Busy)
            } else {
                r == Err::<WriteTxn, Error>(Error::TimedOut(millis))
            })),
            !old(self).write_locked ==> (r matches Ok(t) && final(self).write_locked
                && final(self).committed == old(self).committed && final(self).generator
                == old(self).generator && tbl_view(t.working.vertices@) == tbl_view(
                old(self).committed.vertices@,
            ) && tbl_view(t.working.edges@) == tbl_view(old(self).committed.edges@) && (
            old(self).wf() ==> t.wf())),
    {
        if self.write_locked {
            if millis == 0 {
                Err(Error::Busy)
            } else {
                Err(Error::TimedOut(millis))
            }
        } else {
            self.write_locked = true;
            Ok(WriteTxn { working: self.committed.duplicate() })
        }
    }

    /// Open the write transaction with the default thirty-second wait.
    pub fn write_txn(&mut self) -> (r: Result<WriteTxn, Error>)
        ensures
            old(self).write_locked ==> (*final(self) == *old(self)
                && r == Err::<WriteTxn, Error>(Error::TimedOut(30000))),
            !old(self).write_locked ==> (r matches Ok(t) && final(self).write_locked
                && final(self).committed == old(self).committed && final(self).generator
                == old(self).generator && tbl_view(t.working.vertices@) == tbl_view(
                old(self).committed.vertices@,
            ) && tbl_view(t.working.edges@) == tbl_view(old(self).committed.edges@) && (
            old(self).wf() ==> t.wf())),
    {
        self.write_txn_wait(30000)
    }

    /// Truncate all six sub-tables under the write transaction.
    pub fn clear(&self, txn: &mut WriteTxn) -> (r: Result<(), Error>)
        ensures
            r is Ok,
            final(txn).wf(),
            final(txn).working.vertices@.len() == 0,
            final(txn).working.edges@.len() == 0,
            final(txn).working.parameters@.len() == 0,
    {
        txn.working.clear();
        Ok(())
    }

    /// Write a vertex. A vertex without an id gets a fresh one; a
    /// vertex with an id overwrites its record in place, dropping the
    /// old label-index entry. The returned vertex carries the id under
    /// which it is stored. Fails only when a fresh id cannot be
    /// allocated below the reserved maximum.
    pub fn put_vertex(&mut self, txn: &mut WriteTxn, v: &Vertex) -> (r: Result<Vertex, Error>)
        requires
            old(txn).wf(),
            v@.wf(),
            v@.id matches Some(id) ==> id.kind == Type::Vertex && !id.is_sentinel(),
        ensures
            final(self).committed == old(self).committed,
            final(self).write_locked == old(self).write_locked,
            r is Ok <==> (v@.id is Some || old(self).generator.last_ulid() < u128::MAX - 1),
            r is Err ==> r == Err::<Vertex, Error>(Error::UlidOverflow) && *final(self)
                == *old(self) && *final(txn) == *old(txn),
            r matches Ok(rv) ==> {
                let id = rv@.id->Some_0;
                &&& final(txn).wf()
                &&& rv@.id is Some
                &&& rv@.label == v@.label
                &&& rv@.params == v@.params
                &&& id.kind == Type::Vertex
                &&& !id.is_sentinel()
                &&& (v@.id is Some ==> id == v@.id->Some_0 && final(self).generator
                    == old(self).generator)
                &&& (v@.id is None ==> old(self).generator.last_ulid() < id.ulid
                    && final(self).generator.last_ulid() == id.ulid)
                &&& id_lookup(tbl_view(final(txn).working.vertices@), id) == Some(rv@)
                &&& (forall|id2: Id| id2 != id ==> id_lookup(
                    tbl_view(final(txn).working.vertices@),
                    id2,
                ) == id_lookup(tbl_view(old(txn).working.vertices@), id2))
                &&& tbl_view(final(txn).working.vertices@).len() == tbl_view(
                    old(txn).working.vertices@,
                ).len() + (if id_lookup(tbl_view(old(txn).working.vertices@), id) is Some {
                    0int
                } else {
                    1int
                })
                &&& crate::store::lidx_has(
                    lidx_view(final(txn).working.vertex_idx@),
                    v@.label,
                    id,
                )
                &&& (forall|l: Seq<char>| l != v@.label ==> !crate::store::lidx_has(
                    lidx_view(final(txn).working.vertex_idx@),
                    l,
                    id,
                ))
                &&& (forall|l: Seq<char>, id2: Id| id2 != id ==> (crate::store::lidx_has(
                    lidx_view(final(txn).working.vertex_idx@),
                    l,
                    id2,
                ) <==> crate::store::lidx_has(lidx_view(old(txn).working.vertex_idx@), l, id2)))
                &&& tbl_view(final(txn).working.edges@) == tbl_view(old(txn).working.edges@)
                &&& (forall|kk: Seq<char>| #[trigger] crate::pvalue::param_lookup(
                    v@.params,
                    kk,
                ) is Some ==> crate::store::p_lookup(
                    ptbl_view(final(txn).working.parameters@),
                    id,
                    kk,
                ) == crate::pvalue::param_lookup(v@.params, kk))
            },
    {
        let id = match v.get_id() {
            Some(id) => id,
            None => {
                match Id::new(Type::Vertex, &mut self.generator) {
                    Ok(id) => id,
                    Err(e) => {
                        return Err(e);
                    },
                }
            },
        };
        let mut stored = v.duplicate();
        stored.id = Some(id);
        let returned = stored.duplicate();
        let ghost sv = stored@;
        txn.working.write_vertex(id, stored);
        proof {
            assert forall|kk: Seq<char>| #[trigger] crate::pvalue::param_lookup(
                v@.params,
                kk,
            ) is Some implies crate::store::p_lookup(
                ptbl_view(txn.working.parameters@),
                id,
                kk,
            ) == crate::pvalue::param_lookup(v@.params, kk) by {
                assert(crate::pvalue::param_lookup(sv.params, kk)
                    == crate::pvalue::param_lookup(v@.params, kk));
            }
        }
        Ok(returned)
    }

    /// Write an edge, symmetrically to [`Graph::put_vertex`]. Endpoint
    /// ids must carry the Vertex kind; whether they name stored
    /// vertices is not checked.
    pub fn put_edge(&mut self, txn: &mut WriteTxn, e: &Edge) -> (r: Result<Edge, Error>)
        requires
            old(txn).wf(),
            e@.wf(),
            e@.id matches Some(id) ==> id.kind == Type::Edge && !id.is_sentinel(),
            e@.to.kind == Type::Vertex,
            e@.from.kind == Type::Vertex,
        ensures
            final(self).committed == old(self).committed,
            final(self).write_locked == old(self).write_locked,
            r is Ok <==> (e@.id is Some || old(self).generator.last_ulid() < u128::MAX - 1),
            r is Err ==> r == Err::<Edge, Error>(Error::UlidOverflow) && *final(self)
                == *old(self) && *final(txn) == *old(txn),
            r matches Ok(re) ==> {
                let id = re@.id->Some_0;
                &&& final(txn).wf()
                &&& re@.id is Some
                &&& re@.label == e@.label
                &&& re@.to == e@.to
                &&& re@.from == e@.from
                &&& re@.params == e@.params
                &&& id.kind == Type::Edge
                &&& !id.is_sentinel()
                &&& (e@.id is Some ==> id == e@.id->Some_0 && final(self).generator
                    == old(self).generator)
                &&& (e@.id is None ==> old(self).generator.last_ulid() < id.ulid
                    && final(self).generator.last_ulid() == id.ulid)
                &&& id_lookup(tbl_view(final(txn).working.edges@), id) == Some(re@)
                &&& (forall|id2: Id| id2 != id ==> id_lookup(
                    tbl_view(final(txn).working.edges@),
                    id2,
                ) == id_lookup(tbl_view(old(txn).working.edges@), id2))
                &&& tbl_view(final(txn).working.edges@).len() == tbl_view(
                    old(txn).working.edges@,
                ).len() + (if id_lookup(tbl_view(old(txn).working.edges@), id) is Some {
                    0int
                } else {
                    1int
                })
                &&& crate::store::lidx_has(lidx_view(final(txn).working.edge_idx@), e@.label, id)
                &&& (forall|l: Seq<char>| l != e@.label ==> !crate::store::lidx_has(
                    lidx_view(final(txn).working.edge_idx@),
                    l,
                    id,
                ))
                &&& (forall|l: Seq<char>, id2: Id| id2 != id ==> (crate::store::lidx_has(
                    lidx_view(final(txn).working.edge_idx@),
                    l,
                    id2,
                ) <==> crate::store::lidx_has(lidx_view(old(txn).working.edge_idx@), l, id2)))
                &&& tbl_view(final(txn).working.vertices@) == tbl_view(
                    old(txn).working.vertices@,
                )
                &&& (forall|kk: Seq<char>| #[trigger] crate::pvalue::param_lookup(
                    e@.params,
                    kk,
                ) is Some ==> crate::store::p_lookup(
                    ptbl_view(final(txn).working.parameters@),
                    id,
                    kk,
                ) == crate::pvalue::param_lookup(e@.params, kk))
            },
    {
        let id = match e.get_id() {
            Some(id) => id,
            None => {
                match Id::new(Type::Edge, &mut self.generator) {
                    Ok(id) => id,
                    Err(err) => {
                        return Err(err);
                    },
                }
            },
        };
        let mut stored = e.duplicate();
        stored.id = Some(id);
        let returned = stored.duplicate();
        let ghost sv = stored@;
        txn.working.write_edge(id, stored);
        proof {
            assert forall|kk: Seq<char>| #[trigger] crate::pvalue::param_lookup(
                e@.params,
                kk,
            ) is Some implies crate::store::p_lookup(
                ptbl_view(txn.working.parameters@),
                id,
                kk,
            ) == crate::pvalue::param_lookup(e@.params, kk) by {
                assert(crate::pvalue::param_lookup(sv.params, kk)
                    == crate::pvalue::param_lookup(e@.params, kk));
            }
        }
        Ok(returned)
    }

    /// The committed vertex under an id, if any.
    pub fn get_vertex_by_id(&self, txn: &ReadTxn, id: &Id) -> (r: Result<Option<Vertex>, Error>)
        ensures
            r matches Ok(o) && (o matches Some(v) ==> id_lookup(
                tbl_view(txn.snap.vertices@),
                *id,
            ) == Some(v@)) && (o is None ==> id_lookup(tbl_view(txn.snap.vertices@), *id)
                is None),
    {
        Ok(txn.snap.get_vertex(id))
    }

    /// The committed edge under an id, if any.
    pub fn get_edge_by_id(&self, txn: &ReadTxn, id: &Id) -> (r: Result<Option<Edge>, Error>)
        ensures
            r matches Ok(o) && (o matches Some(e) ==> id_lookup(
                tbl_view(txn.snap.edges@),
                *id,
            ) == Some(e@)) && (o is None ==> id_lookup(tbl_view(txn.snap.edges@), *id) is None),
    {
        Ok(txn.snap.get_edge(id))
    }

    /// The committed vertices carrying a label, in id order.
    pub fn get_vertices_by_label(&self, txn: &ReadTxn, label: &String) -> (r: Result<
        Vec<Vertex>,
        Error,
    >)
        ensures
            r matches Ok(vs) && crate::store::vviews(vs@) == label_scan(
                tbl_view(txn.snap.vertices@),
                label@,
                vlabel_of(),
            ),
    {
        Ok(txn.snap.get_vertices_by_label(label))
    }

    /// The first committed vertex carrying a label, if any.
    pub fn get_vertex_by_label(&self, txn: &ReadTxn, label: &String) -> (r: Result<
        Option<Vertex>,
        Error,
    >)
        ensures
            r matches Ok(o) && ({
                let scan = label_scan(tbl_view(txn.snap.vertices@), label@, vlabel_of());
                match o {
                    Some(v) => scan.len() > 0 && v@ == scan[0],
                    None => scan.len() == 0,
                }
            }),
    {
        Ok(txn.snap.get_vertex_by_label(label))
    }

    /// The committed edges carrying a label, in id order.
    pub fn get_edges_by_label(&self, txn: &ReadTxn, label: &String) -> (r: Result<
        Vec<Edge>,
        Error,
    >)
        ensures
            r matches Ok(es) && crate::store::eviews(es@) == label_scan(
                tbl_view(txn.snap.edges@),
                label@,
                elabel_of(),
            ),
    {
        Ok(txn.snap.get_edges_by_label(label))
    }

    /// The first committed edge carrying a label, if any.
    pub fn get_edge_by_label(&self, txn: &ReadTxn, label: &String) -> (r: Result<
        Option<Edge>,
        Error,
    >)
        ensures
            r matches Ok(o) && ({
                let scan = label_scan(tbl_view(txn.snap.edges@), label@, elabel_of());
                match o {
                    Some(e) => scan.len() > 0 && e@ == scan[0],
                    None => scan.len() == 0,
                }
            }),
    {
        Ok(txn.snap.get_edge_by_label(label))
    }

    /// Every committed vertex, in id order, as values.
    pub fn vertices(&self, txn: &ReadTxn) -> (r: Result<Vec<PValue>, Error>)
        ensures
            r matches Ok(vs) && vs@.len() == tbl_view(txn.snap.vertices@).len() && forall|j: int|
                0 <= j < vs@.len() ==> vs@[j]@ == crate::pvalue::PValueView::Vertex(
                    tbl_view(txn.snap.vertices@)[j].1,
                ),
    {
        Ok(txn.snap.vertices_all())
    }

    /// Every committed edge, in id order, as values.
    pub fn edges(&self, txn: &ReadTxn) -> (r: Result<Vec<PValue>, Error>)
        ensures
            r matches Ok(es) && es@.len() == tbl_view(txn.snap.edges@).len() && forall|j: int|
                0 <= j < es@.len() ==> es@[j]@ == crate::pvalue::PValueView::Edge(
                    tbl_view(txn.snap.edges@)[j].1,
                ),
    {
        Ok(txn.snap.edges_all())
    }

    /// The committed vertices under the given ids, in input order;
    /// missing ids are skipped.
    pub fn get_vertices_by_ids(&self, txn: &ReadTxn, ids: &Vec<Id>) -> (r: Result<
        Vec<PValue>,
        Error,
    >)
        ensures
            r matches Ok(vs) && ({
                let scan = crate::store::ids_scan(tbl_view(txn.snap.vertices@), ids@);
                vs@.len() == scan.len() && forall|j: int| 0 <= j < vs@.len() ==> vs@[j]@
                    == crate::pvalue::PValueView::Vertex(scan[j])
            }),
    {
        Ok(txn.snap.get_vertices_by_ids(ids))
    }

    /// The committed edges under the given ids, in input order; missing
    /// ids are skipped.
    pub fn get_edges_by_ids(&self, txn: &ReadTxn, ids: &Vec<Id>) -> (r: Result<
        Vec<PValue>,
        Error,
    >)
        ensures
            r matches Ok(es) && ({
                let scan = crate::store::ids_scan(tbl_view(txn.snap.edges@), ids@);
                es@.len() == scan.len() && forall|j: int| 0 <= j < es@.len() ==> es@[j]@
                    == crate::pvalue::PValueView::Edge(scan[j])
            }),
    {
        Ok(txn.snap.get_edges_by_ids(ids))
    }

    /// How many vertices are committed; the label index always agrees.
    pub fn vertex_count(&self, txn: &ReadTxn) -> (r: Result<usize, Error>)
        requires
            txn.wf(),
        ensures
            r matches Ok(c) && c == tbl_view(txn.snap.vertices@).len() && c == lidx_view(
                txn.snap.vertex_idx@,
            ).len(),
    {
        Ok(txn.snap.vertex_count())
    }

    /// How many edges are committed; the label index always agrees.
    pub fn edge_count(&self, txn: &ReadTxn) -> (r: Result<usize, Error>)
        requires
            txn.wf(),
        ensures
            r matches Ok(c) && c == tbl_view(txn.snap.edges@).len() && c == lidx_view(
                txn.snap.edge_idx@,
            ).len(),
    {
        Ok(txn.snap.edge_count())
    }
}

} // verus!
