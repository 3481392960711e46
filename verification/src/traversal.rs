//! The traversal pipeline: source, builder, executor and terminator.
//!
//! A source starts a fresh `Bytecode`; the builder accumulates
//! instructions without touching storage; a terminator hands the stream
//! to the executor, which dispatches on the head instruction against a
//! live write transaction and materializes the resulting values.

use vstd::prelude::*;

use crate::bytecode::{last_from, last_to, Bytecode, Instruction};
use crate::convert::FromPValue;
use crate::error::Error;
use crate::graph::{Graph, WriteTxn};
use crate::ids::{Id, Ids, Type};
use crate::pvalue::{pv_list_view, Edge, PValue, PValueView, Vertex};
use crate::store::{id_lookup, ids_scan, tbl_view};

verus! {

/// What executing an instruction stream does: how the resulting values
/// relate to the transaction's state, and how the transaction and the
/// generator moved. The head instruction alone is dispatched; `AddE`
/// additionally consumes the last `To` and `From` tags of the rest.
pub open spec fn execute_post(
    steps: Seq<Instruction>,
    g0: Graph,
    g1: Graph,
    t0: WriteTxn,
    t1: WriteTxn,
    r: Result<Seq<PValueView>, Error>,
) -> bool {
    &&& g1.committed == g0.committed
    &&& g1.write_locked == g0.write_locked
    &&& if steps.len() == 0 {
        r matches Ok(vs) && vs.len() == 0 && t1 == t0 && g1 == g0
    } else {
        match steps[0] {
            Instruction::Vert(v) => {
                &&& t1 == t0
                &&& g1 == g0
                &&& r matches Ok(vs)
                &&& if v.0.0@.len() == 0 {
                    vs.len() == tbl_view(t0.working.vertices@).len() && forall|j: int|
                        0 <= j < vs.len() ==> vs[j] == PValueView::Vertex(
                            tbl_view(t0.working.vertices@)[j].1,
                        )
                } else {
                    {
                        let scan = ids_scan(tbl_view(t0.working.vertices@), v.0.0@);
                        vs.len() == scan.len() && forall|j: int| 0 <= j < vs.len() ==> vs[j]
                            == PValueView::Vertex(scan[j])
                    }
                }
            },
            Instruction::Edge(e) => {
                &&& t1 == t0
                &&& g1 == g0
                &&& r matches Ok(vs)
                &&& if e.0.0@.len() == 0 {
                    vs.len() == tbl_view(t0.working.edges@).len() && forall|j: int|
                        0 <= j < vs.len() ==> vs[j] == PValueView::Edge(
                            tbl_view(t0.working.edges@)[j].1,
                        )
                } else {
                    {
                        let scan = ids_scan(tbl_view(t0.working.edges@), e.0.0@);
                        vs.len() == scan.len() && forall|j: int| 0 <= j < vs.len() ==> vs[j]
                            == PValueView::Edge(scan[j])
                    }
                }
            },
            Instruction::AddV(label) => {
                &&& (r is Ok <==> g0.generator.last_ulid() < u128::MAX - 1)
                &&& (r matches Err(e) ==> e == Error::UlidOverflow && t1 == t0 && g1 == g0)
                &&& (r matches Ok(vs) ==> vs.len() == 1 && (vs[0] matches PValueView::Vertex(rv)
                    && {
                    &&& rv.label == label@
                    &&& rv.params.len() == 0
                    &&& rv.id is Some
                    &&& rv.id->Some_0.kind == Type::Vertex
                    &&& !rv.id->Some_0.is_sentinel()
                    &&& g0.generator.last_ulid() < rv.id->Some_0.ulid
                    &&& g1.generator.last_ulid() == rv.id->Some_0.ulid
                    &&& t1.wf()
                    &&& id_lookup(tbl_view(t1.working.vertices@), rv.id->Some_0) == Some(rv)
                    &&& (forall|id2: Id| id2 != rv.id->Some_0 ==> id_lookup(
                        tbl_view(t1.working.vertices@),
                        id2,
                    ) == id_lookup(tbl_view(t0.working.vertices@), id2))
                    &&& tbl_view(t1.working.edges@) == tbl_view(t0.working.edges@)
                }))
            },
            Instruction::AddE(label) => {
                let tail = steps.drop_first();
                match (last_to(tail), last_from(tail)) {
                    (Option::None, _) => r matches Err(e) && (e matches Error::BadRequest(m)
                        && m@ == "Missing to"@) && t1 == t0 && g1 == g0,
                    (Option::Some(_), Option::None) => r matches Err(e) && (e
                        matches Error::BadRequest(m) && m@ == "Missing from"@) && t1 == t0 && g1
                        == g0,
                    (Option::Some(to), Option::Some(from)) => {
                        if to.kind != Type::Vertex || from.kind != Type::Vertex {
                            r matches Err(e) && e == Error::VertexInvalid && t1 == t0 && g1
                                == g0
                        } else {
                            &&& (r is Ok <==> g0.generator.last_ulid() < u128::MAX - 1)
                            &&& (r matches Err(e) ==> e == Error::UlidOverflow && t1 == t0 && g1
                                == g0)
                            &&& (r matches Ok(vs) ==> vs.len() == 1 && (vs[0]
                                matches PValueView::Edge(re) && {
                                &&& re.label == label@
                                &&& re.to == to
                                &&& re.from == from
                                &&& re.params.len() == 0
                                &&& re.id is Some
                                &&& re.id->Some_0.kind == Type::Edge
                                &&& !re.id->Some_0.is_sentinel()
                                &&& g0.generator.last_ulid() < re.id->Some_0.ulid
                                &&& g1.generator.last_ulid() == re.id->Some_0.ulid
                                &&& t1.wf()
                                &&& id_lookup(tbl_view(t1.working.edges@), re.id->Some_0)
                                    == Some(re)
                                &&& (forall|id2: Id| id2 != re.id->Some_0 ==> id_lookup(
                                    tbl_view(t1.working.edges@),
                                    id2,
                                ) == id_lookup(tbl_view(t0.working.edges@), id2))
                                &&& tbl_view(t1.working.vertices@) == tbl_view(
                                    t0.working.vertices@,
                                )
                            }))
                        }
                    },
                }
            },
            _ => r matches Err(e) && (e matches Error::BadRequest(m)
                && m@ == "Unsupported instruction"@) && t1 == t0 && g1 == g0,
        }
    }
}

/// Interprets instruction streams against a write transaction.
pub struct WriteExecutor {}

impl WriteExecutor {
    /// An executor.
    pub fn new() -> (r: WriteExecutor) {
        WriteExecutor {}
    }

    /// Execute the stream: dispatch on the head instruction, fail
    /// cleanly on anything this release does not run.
    pub fn execute(&self, graph: &mut Graph, txn: &mut WriteTxn, bytecode: &Bytecode) -> (r:
        Result<Vec<PValue>, Error>)
        requires
            old(txn).wf(),
        ensures
            match r {
                Ok(vs) => execute_post(
                    bytecode.steps@,
                    *old(graph),
                    *final(graph),
                    *old(txn),
                    *final(txn),
                    Ok(pv_list_view(vs@)),
                ),
                Err(e) => execute_post(
                    bytecode.steps@,
                    *old(graph),
                    *final(graph),
                    *old(txn),
                    *final(txn),
                    Err(e),
                ),
            },
            r is Ok ==> final(txn).wf(),
    {
        let steps = bytecode.steps();
        if steps.len() == 0 {
            let vs: Vec<PValue> = Vec::new();
            proof {
                assert(pv_list_view(vs@) =~= Seq::<PValueView>::empty());
            }
            return Ok(vs);
        }
        match &steps[0] {
            Instruction::Vert(v) => {
                let vs = if v.0.0.len() == 0 {
                    txn.working.vertices_all()
                } else {
                    txn.working.get_vertices_by_ids(&v.0.0)
                };
                proof {
                    crate::pvalue::lemma_pv_list_view_elts(vs@);
                }
                Ok(vs)
            },
            Instruction::Edge(e) => {
                let vs = if e.0.0.len() == 0 {
                    txn.working.edges_all()
                } else {
                    txn.working.get_edges_by_ids(&e.0.0)
                };
                proof {
                    crate::pvalue::lemma_pv_list_view_elts(vs@);
                }
                Ok(vs)
            },
            Instruction::AddV(label) => {
                let vertex = Vertex::new(label.clone());
                match graph.put_vertex(txn, &vertex) {
                    Ok(rv) => {
                        let mut vs: Vec<PValue> = Vec::new();
                        vs.push(PValue::Vertex(rv));
                        proof {
                            crate::pvalue::lemma_pv_list_view_elts(vs@);
                        }
                        Ok(vs)
                    },
                    Err(err) => Err(err),
                }
            },
            Instruction::AddE(label) => {
                let (to, from) = match pop_to_from(steps, 1) {
                    Ok(pair) => pair,
                    Err(err) => {
                        return Err(err);
                    },
                };
                let to_ok = match to.kind {
                    Type::Vertex => true,
                    _ => false,
                };
                let from_ok = match from.kind {
                    Type::Vertex => true,
                    _ => false,
                };
                if !to_ok || !from_ok {
                    return Err(Error::VertexInvalid);
                }
                let edge = Edge {
                    id: None,
                    to,
                    from,
                    label: label.clone(),
                    parameters: Vec::new(),
                };
                match graph.put_edge(txn, &edge) {
                    Ok(re) => {
                        let mut vs: Vec<PValue> = Vec::new();
                        vs.push(PValue::Edge(re));
                        proof {
                            crate::pvalue::lemma_pv_list_view_elts(vs@);
                        }
                        Ok(vs)
                    },
                    Err(err) => Err(err),
                }
            },
            _ => Err(Error::BadRequest("Unsupported instruction")),
        }
    }
}

/// Scan the stream from `start` for its last `To` and `From` tags,
/// failing with `BadRequest` when either is missing.
fn pop_to_from(steps: &Vec<Instruction>, start: usize) -> (r: Result<(Id, Id), Error>)
    requires
        start <= steps@.len(),
    ensures
        ({
            let tail = steps@.skip(start as int);
            match (last_to(tail), last_from(tail)) {
                (Option::None, _) => r matches Err(e) && (e matches Error::BadRequest(m) && m@
                    == "Missing to"@),
                (Option::Some(_), Option::None) => r matches Err(e) && (e
                    matches Error::BadRequest(m) && m@ == "Missing from"@),
                (Option::Some(t), Option::Some(f)) => r == Ok::<(Id, Id), Error>((t, f)),
            }
        }),
{
    let ghost tail = steps@.skip(start as int);
    let mut to: Option<Id> = None;
    let mut from: Option<Id> = None;
    let n = steps.len();
    let mut i: usize = start;
    proof {
        assert(steps@.subrange(start as int, start as int)
            =~= Seq::<Instruction>::empty());
    }
    while i < n
        invariant
            start <= i <= n,
            n == steps@.len(),
            tail == steps@.skip(start as int),
            to == last_to(steps@.subrange(start as int, i as int)),
            from == last_from(steps@.subrange(start as int, i as int)),
        decreases n - i,
    {
        let ghost prefix = steps@.subrange(start as int, i as int);
        match &steps[i] {
            Instruction::To(id) => {
                to = Some(*id);
            },
            Instruction::From(id) => {
                from = Some(*id);
            },
            _ => {},
        }
        i = i + 1;
        proof {
            let ext = steps@.subrange(start as int, i as int);
            assert(ext =~= prefix.push(steps@[i - 1]));
            assert(ext.last() == steps@[i - 1]);
            assert(ext.drop_last() =~= prefix);
        }
    }
    proof {
        assert(steps@.subrange(start as int, n as int) =~= tail);
    }
    match (to, from) {
        (Some(t), Some(f)) => Ok((t, f)),
        (None, _) => Err(Error::BadRequest("Missing to")),
        (Some(_), None) => Err(Error::BadRequest("Missing from")),
    }
}

/// Convert a stream of values into a typed list, failing on the first
/// value the end-type rejects.
pub fn convert_list<End: FromPValue>(vs: &Vec<PValue>) -> (r: Result<Vec<End>, Error>)
    ensures
        (forall|j: int| 0 <= j < vs@.len() ==> End::pv_accepts(#[trigger] pv_list_view(vs@)[j]))
            <==> r is Ok,
        r matches Ok(out) ==> out@.len() == vs@.len() && forall|j: int| 0 <= j < out@.len()
            ==> out@[j]@ == End::pv_extract(pv_list_view(vs@)[j]),
{
    proof {
        crate::pvalue::lemma_pv_list_view_elts(vs@);
    }
    let mut out: Vec<End> = Vec::new();
    let n = vs.len();
    let mut i: usize = 0;
    while i < n
        invariant
            i <= n,
            n == vs@.len(),
            pv_list_view(vs@).len() == n,
            forall|j: int| 0 <= j < vs@.len() ==> pv_list_view(vs@)[j]
                == crate::pvalue::pv_view(vs@[j]),
            out@.len() == i,
            forall|j: int| 0 <= j < i ==> End::pv_accepts(#[trigger] pv_list_view(vs@)[j])
                && out@[j]@ == End::pv_extract(pv_list_view(vs@)[j]),
        decreases n - i,
    {
        let head = vs[i].duplicate();
        proof {
            assert(crate::pvalue::pv_view(head) == pv_list_view(vs@)[i as int]);
        }
        match End::from_pvalue(head) {
            Ok(v) => {
                out.push(v);
            },
            Err(e) => {
                proof {
                    assert(!End::pv_accepts(pv_list_view(vs@)[i as int]));
                }
                return Err(e);
            },
        }
        i = i + 1;
    }
    Ok(out)
}

/// Materializes traversals against a graph and its write transaction.
pub struct TraversalTerminator {}

impl TraversalTerminator {
    /// A terminator.
    pub fn new() -> (r: TraversalTerminator) {
        TraversalTerminator {}
    }

    /// Run the stream and collect every value it emits.
    pub fn to_list(&self, graph: &mut Graph, txn: &mut WriteTxn, bytecode: &Bytecode) -> (r:
        Result<Vec<PValue>, Error>)
        requires
            old(txn).wf(),
        ensures
            match r {
                Ok(vs) => execute_post(
                    bytecode.steps@,
                    *old(graph),
                    *final(graph),
                    *old(txn),
                    *final(txn),
                    Ok(pv_list_view(vs@)),
                ),
                Err(e) => execute_post(
                    bytecode.steps@,
                    *old(graph),
                    *final(graph),
                    *old(txn),
                    *final(txn),
                    Err(e),
                ),
            },
            r is Ok ==> final(txn).wf(),
    {
        let executor = WriteExecutor::new();
        executor.execute(graph, txn, bytecode)
    }

    /// Run the stream and take its first value; an empty stream fails
    /// with `EmptyTraversal`.
    pub fn next(&self, graph: &mut Graph, txn: &mut WriteTxn, bytecode: &Bytecode) -> (r: Result<
        PValue,
        Error,
    >)
        requires
            old(txn).wf(),
        ensures
            match r {
                Ok(pv) => exists|vs: Seq<PValueView>|
                    #[trigger] execute_post(
                        bytecode.steps@,
                        *old(graph),
                        *final(graph),
                        *old(txn),
                        *final(txn),
                        Ok(vs),
                    ) && vs.len() > 0 && pv@ == vs[0],
                Err(e) => execute_post(
                    bytecode.steps@,
                    *old(graph),
                    *final(graph),
                    *old(txn),
                    *final(txn),
                    Err(e),
                ) || (e == Error::EmptyTraversal && exists|vs: Seq<PValueView>|
                    #[trigger] execute_post(
                        bytecode.steps@,
                        *old(graph),
                        *final(graph),
                        *old(txn),
                        *final(txn),
                        Ok(vs),
                    ) && vs.len() == 0),
            },
    {
        let executor = WriteExecutor::new();
        match executor.execute(graph, txn, bytecode) {
            Ok(vs) => {
                proof {
                    crate::pvalue::lemma_pv_list_view_elts(vs@);
                }
                if vs.len() == 0 {
                    Err(Error::EmptyTraversal)
                } else {
                    let mut vs = vs;
                    let first = vs.remove(0);
                    Ok(first)
                }
            },
            Err(e) => Err(e),
        }
    }
}

/// Accumulates the instruction stream of one pending traversal.
#[derive(Debug)]
pub struct TraversalBuilder {
    pub bytecode: Bytecode,
}

impl TraversalBuilder {
    /// A builder over the given stream.
    pub fn new(bytecode: Bytecode) -> (r: TraversalBuilder)
        ensures
            r.bytecode.steps@ == bytecode.steps@,
    {
        TraversalBuilder { bytecode }
    }

    /// The accumulated stream.
    pub fn bytecode(&self) -> (r: &Bytecode)
        ensures
            r.steps@ == self.bytecode.steps@,
    {
        &self.bytecode
    }
}

/// A pending traversal: the built stream paired with its terminator.
/// Construction is pure; storage is touched only when a terminator
/// method runs.
pub struct GraphTraversal {
    pub builder: TraversalBuilder,
    pub terminator: TraversalTerminator,
}

impl GraphTraversal {
    /// Pair a builder with a terminator.
    pub fn new(builder: TraversalBuilder, terminator: TraversalTerminator) -> (r:
        GraphTraversal)
        ensures
            r.builder.bytecode.steps@ == builder.bytecode.steps@,
    {
        GraphTraversal { builder, terminator }
    }

    /// The accumulated stream.
    pub fn bytecode(&self) -> (r: &Bytecode)
        ensures
            r.steps@ == self.builder.bytecode.steps@,
    {
        self.builder.bytecode()
    }

    /// Run the traversal and collect every value it emits.
    pub fn to_list(&self, graph: &mut Graph, txn: &mut WriteTxn) -> (r: Result<
        Vec<PValue>,
        Error,
    >)
        requires
            old(txn).wf(),
        ensures
            match r {
                Ok(vs) => execute_post(
                    self.builder.bytecode.steps@,
                    *old(graph),
                    *final(graph),
                    *old(txn),
                    *final(txn),
                    Ok(pv_list_view(vs@)),
                ),
                Err(e) => execute_post(
                    self.builder.bytecode.steps@,
                    *old(graph),
                    *final(graph),
                    *old(txn),
                    *final(txn),
                    Err(e),
                ),
            },
            r is Ok ==> final(txn).wf(),
    {
        self.terminator.to_list(graph, txn, self.builder.bytecode())
    }

    /// Run the traversal and take its first value.
    pub fn next(&self, graph: &mut Graph, txn: &mut WriteTxn) -> (r: Result<PValue, Error>)
        requires
            old(txn).wf(),
        ensures
            match r {
                Ok(pv) => exists|vs: Seq<PValueView>|
                    #[trigger] execute_post(
                        self.builder.bytecode.steps@,
                        *old(graph),
                        *final(graph),
                        *old(txn),
                        *final(txn),
                        Ok(vs),
                    ) && vs.len() > 0 && pv@ == vs[0],
                Err(e) => execute_post(
                    self.builder.bytecode.steps@,
                    *old(graph),
                    *final(graph),
                    *old(txn),
                    *final(txn),
                    Err(e),
                ) || (e == Error::EmptyTraversal && exists|vs: Seq<PValueView>|
                    #[trigger] execute_post(
                        self.builder.bytecode.steps@,
                        *old(graph),
                        *final(graph),
                        *old(txn),
                        *final(txn),
                        Ok(vs),
                    ) && vs.len() == 0),
            },
    {
        self.terminator.next(graph, txn, self.builder.bytecode())
    }
}

/// The traversal source: each method starts a fresh stream with one
/// instruction.
pub struct RWTraversalSource {}

impl RWTraversalSource {
    /// A source.
    pub fn new() -> (r: RWTraversalSource) {
        RWTraversalSource {}
    }

    /// Start from vertices: all of them, or the given ids.
    pub fn v(&self, ids: Ids) -> (r: GraphTraversal)
        ensures
            r.builder.bytecode.steps@.len() == 1,
            r.builder.bytecode.steps@[0] matches Instruction::Vert(v) && v.0.0@ == ids.0@,
    {
        let ghost idsv = ids.0@;
        let mut code = Bytecode::default();
        code.add_step(Instruction::Vert(crate::bytecode::Vert(ids)));
        GraphTraversal::new(TraversalBuilder::new(code), TraversalTerminator::new())
    }

    /// Start from edges: all of them, or the given ids.
    pub fn e(&self, ids: Ids) -> (r: GraphTraversal)
        ensures
            r.builder.bytecode.steps@.len() == 1,
            r.builder.bytecode.steps@[0] matches Instruction::Edge(e) && e.0.0@ == ids.0@,
    {
        let ghost idsv = ids.0@;
        let mut code = Bytecode::default();
        code.add_step(Instruction::Edge(crate::bytecode::Edge(ids)));
        GraphTraversal::new(TraversalBuilder::new(code), TraversalTerminator::new())
    }

    /// Start by inserting a vertex with the given label.
    #[allow(non_snake_case)]
    pub fn addV(&self, label: String) -> (r: GraphTraversal)
        ensures
            r.builder.bytecode.steps@.len() == 1,
            r.builder.bytecode.steps@[0] matches Instruction::AddV(l) && l@ == label@,
    {
        let mut code = Bytecode::default();
        code.add_step(Instruction::AddV(label));
        GraphTraversal::new(TraversalBuilder::new(code), TraversalTerminator::new())
    }
}

impl Graph {
    /// A traversal source over this graph.
    pub fn traversal(&self) -> (r: RWTraversalSource) {
        RWTraversalSource::new()
    }
}

} // verus!
