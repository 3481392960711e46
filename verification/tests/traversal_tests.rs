//! The traversal pipeline end to end: sources, terminators, and the
//! add-vertex and add-edge instruction flows.

use gremlite::bytecode::Instruction;
use gremlite::{
    Bytecode, Edge, Error, Graph, Id, Ids, PValue, ToPValue, TraversalTerminator, Type, Vertex,
};

#[test]
fn test_traversal_to_list() {
    let mut g = Graph::new();
    let vertex = Vertex::new("test".to_string());
    let mut txn = g.write_txn().unwrap();
    let returned = g.put_vertex(&mut txn, &vertex).unwrap();
    txn.commit(&mut g).unwrap();

    // all vertices
    let t = g.traversal().v(Ids::none());
    let mut txn = g.write_txn().unwrap();
    let vs = t.to_list(&mut g, &mut txn).unwrap();
    txn.abort(&mut g);
    assert_eq!(vs.len(), 1);
    assert_eq!(vs[0].bytes_encode(), returned.to_pvalue().bytes_encode());

    // one vertex by id
    let t = g.traversal().v(Ids::one(returned.get_id().unwrap()));
    let mut txn = g.write_txn().unwrap();
    let vs = t.to_list(&mut g, &mut txn).unwrap();
    txn.abort(&mut g);
    assert_eq!(vs.len(), 1);
    assert_eq!(vs[0].bytes_encode(), returned.to_pvalue().bytes_encode());

    // a sentinel id names no record
    let t = g.traversal().v(Ids::one(Id::nil(Type::Vertex)));
    let mut txn = g.write_txn().unwrap();
    let vs = t.to_list(&mut g, &mut txn).unwrap();
    txn.abort(&mut g);
    assert_eq!(vs.len(), 0);
}

#[test]
fn test_traversal_next() {
    let mut g = Graph::new();
    let mut txn = g.write_txn().unwrap();
    let returned = g.put_vertex(&mut txn, &Vertex::new("only".to_string())).unwrap();
    txn.commit(&mut g).unwrap();

    let t = g.traversal().v(Ids::none());
    let mut txn = g.write_txn().unwrap();
    let first = t.next(&mut g, &mut txn).unwrap();
    txn.abort(&mut g);
    assert_eq!(first.bytes_encode(), returned.to_pvalue().bytes_encode());
}

#[test]
fn test_traversal_next_empty() {
    let mut g = Graph::new();
    let t = g.traversal().v(Ids::none());
    let mut txn = g.write_txn().unwrap();
    let r = t.next(&mut g, &mut txn);
    txn.abort(&mut g);
    assert_eq!(r.unwrap_err(), Error::EmptyTraversal);
}

#[test]
fn test_traversal_add_vertex() {
    let mut g = Graph::new();
    let t = g.traversal().addV("made".to_string());
    let mut txn = g.write_txn().unwrap();
    let vs = t.to_list(&mut g, &mut txn).unwrap();
    txn.commit(&mut g).unwrap();
    assert_eq!(vs.len(), 1);
    match &vs[0] {
        PValue::Vertex(v) => {
            assert_eq!(v.get_label(), "made".to_string());
            assert!(v.get_id().is_some());
        },
        _ => panic!("expected a vertex"),
    }
    let rt = g.read_txn().unwrap();
    assert_eq!(g.vertex_count(&rt).unwrap(), 1);
}

#[test]
fn test_traversal_edges_source() {
    let mut g = Graph::new();
    let mut txn = g.write_txn().unwrap();
    let a = g.put_vertex(&mut txn, &Vertex::new("a".to_string())).unwrap();
    let b = g.put_vertex(&mut txn, &Vertex::new("b".to_string())).unwrap();
    let e = g
        .put_edge(&mut txn, &Edge::new(&a, &b, "rel".to_string()).unwrap())
        .unwrap();
    txn.commit(&mut g).unwrap();

    let t = g.traversal().e(Ids::none());
    let mut txn = g.write_txn().unwrap();
    let es = t.to_list(&mut g, &mut txn).unwrap();
    txn.abort(&mut g);
    assert_eq!(es.len(), 1);
    assert_eq!(es[0].bytes_encode(), e.to_pvalue().bytes_encode());
}

#[test]
fn test_add_edge_missing_to() {
    let mut g = Graph::new();
    let mut code = Bytecode::default();
    code.add_step(Instruction::AddE("rel".to_string()));
    let term = TraversalTerminator::new();
    let mut txn = g.write_txn().unwrap();
    let r = term.to_list(&mut g, &mut txn, &code);
    txn.abort(&mut g);
    assert_eq!(r.unwrap_err(), Error::BadRequest("Missing to"));
}

#[test]
fn test_add_edge_missing_from() {
    let mut g = Graph::new();
    let mut code = Bytecode::default();
    code.add_step(Instruction::AddE("rel".to_string()));
    code.add_step(Instruction::To(Id { kind: Type::Vertex, ulid: 1 }));
    let term = TraversalTerminator::new();
    let mut txn = g.write_txn().unwrap();
    let r = term.to_list(&mut g, &mut txn, &code);
    txn.abort(&mut g);
    assert_eq!(r.unwrap_err(), Error::BadRequest("Missing from"));
}

#[test]
fn test_add_edge_consumes_tags() {
    let mut g = Graph::new();
    let mut txn = g.write_txn().unwrap();
    let a = g.put_vertex(&mut txn, &Vertex::new("a".to_string())).unwrap();
    let b = g.put_vertex(&mut txn, &Vertex::new("b".to_string())).unwrap();
    txn.commit(&mut g).unwrap();

    let mut code = Bytecode::default();
    code.add_step(Instruction::AddE("rel".to_string()));
    code.add_step(Instruction::To(a.get_id().unwrap()));
    code.add_step(Instruction::From(b.get_id().unwrap()));
    let term = TraversalTerminator::new();
    let mut txn = g.write_txn().unwrap();
    let es = term.to_list(&mut g, &mut txn, &code).unwrap();
    txn.commit(&mut g).unwrap();
    assert_eq!(es.len(), 1);
    match &es[0] {
        PValue::Edge(e) => {
            assert_eq!(e.get_to(), a.get_id().unwrap());
            assert_eq!(e.get_from(), b.get_id().unwrap());
            assert_eq!(e.get_label(), "rel".to_string());
        },
        _ => panic!("expected an edge"),
    }
    let rt = g.read_txn().unwrap();
    assert_eq!(g.edge_count(&rt).unwrap(), 1);
}

#[test]
fn test_unsupported_head_fails_cleanly() {
    let mut g = Graph::new();
    let mut code = Bytecode::default();
    code.add_step(Instruction::Property("k".to_string(), PValue::Null));
    let term = TraversalTerminator::new();
    let mut txn = g.write_txn().unwrap();
    let r = term.to_list(&mut g, &mut txn, &code);
    txn.abort(&mut g);
    assert_eq!(r.unwrap_err(), Error::BadRequest("Unsupported instruction"));
}

#[test]
fn test_empty_bytecode_yields_nothing() {
    let mut g = Graph::new();
    let code = Bytecode::default();
    let term = TraversalTerminator::new();
    let mut txn = g.write_txn().unwrap();
    let vs = term.to_list(&mut g, &mut txn, &code).unwrap();
    txn.abort(&mut g);
    assert_eq!(vs.len(), 0);
}

#[test]
fn test_convert_list() {
    let vs = vec![PValue::I32(1), PValue::I32(2)];
    let out: Vec<i32> = gremlite::traversal::convert_list(&vs).unwrap();
    assert_eq!(out, vec![1, 2]);

    let mixed = vec![PValue::I32(1), PValue::Bool(true)];
    let bad: Result<Vec<i32>, Error> = gremlite::traversal::convert_list(&mixed);
    assert_eq!(bad.unwrap_err(), Error::InvalidPValue("Bool".to_string()));
}
