//! Transactions and the storage façade: puts, gets, scans, counts and
//! the write-lock discipline.

use gremlite::{Edge, Error, Graph, PValue, ToPValue, Vertex};

#[test]
fn test_put_assigns_id() {
    let mut g = Graph::new();
    let vertex = Vertex::new("test".to_string());
    let mut txn = g.write_txn().unwrap();
    let returned = g.put_vertex(&mut txn, &vertex).unwrap();
    txn.commit(&mut g).unwrap();
    assert_eq!(vertex.get_id(), None);
    assert!(returned.get_id().is_some());
    assert_eq!(returned.get_label(), vertex.get_label());
}

#[test]
fn test_put_then_get() {
    let mut g = Graph::new();
    let vertex = Vertex::new("test".to_string())
        .set_param("k".to_string(), PValue::I64(12));
    let mut txn = g.write_txn().unwrap();
    let returned = g.put_vertex(&mut txn, &vertex).unwrap();
    txn.commit(&mut g).unwrap();

    let rt = g.read_txn().unwrap();
    let fetched = g
        .get_vertex_by_id(&rt, &returned.get_id().unwrap())
        .unwrap()
        .expect("stored vertex");
    assert_eq!(fetched.bytes_encode(), returned.bytes_encode());

    let none = g
        .get_vertex_by_id(&rt, &gremlite::Id::nil(gremlite::Type::Vertex))
        .unwrap();
    assert!(none.is_none());
}

#[test]
fn test_get_by_label() {
    let mut g = Graph::new();
    let mut txn = g.write_txn().unwrap();
    let ferb = g.put_vertex(&mut txn, &Vertex::new("ferb".to_string())).unwrap();
    let _phineas = g.put_vertex(&mut txn, &Vertex::new("phineas".to_string())).unwrap();
    txn.commit(&mut g).unwrap();

    let rt = g.read_txn().unwrap();
    let found = g
        .get_vertex_by_label(&rt, &"ferb".to_string())
        .unwrap()
        .expect("label is indexed");
    assert_eq!(found.get_id(), ferb.get_id());

    let absent = g.get_vertex_by_label(&rt, &"absent".to_string()).unwrap();
    assert!(absent.is_none());
}

#[test]
fn test_put_existing_vertex() {
    let mut g = Graph::new();
    let mut txn = g.write_txn().unwrap();
    let mut returned = g.put_vertex(&mut txn, &Vertex::new("tester".to_string())).unwrap();
    returned.label = "testers".to_string();
    g.put_vertex(&mut txn, &returned).unwrap();
    txn.commit(&mut g).unwrap();

    let rt = g.read_txn().unwrap();
    assert_eq!(g.vertex_count(&rt).unwrap(), 1);
    assert!(g.get_vertex_by_label(&rt, &"tester".to_string()).unwrap().is_none());
    let renamed = g
        .get_vertex_by_label(&rt, &"testers".to_string())
        .unwrap()
        .expect("new label is indexed");
    assert_eq!(renamed.get_id(), returned.get_id());
    let n = g
        .get_vertex_by_id(&rt, &returned.get_id().unwrap())
        .unwrap()
        .expect("still stored");
    assert_eq!(n.get_label(), "testers".to_string());
}

#[test]
fn test_edge_roundtrip() {
    let mut g = Graph::new();
    let mut txn = g.write_txn().unwrap();
    let ferb = g.put_vertex(&mut txn, &Vertex::new("ferb".to_string())).unwrap();
    let phineas = g.put_vertex(&mut txn, &Vertex::new("phineas".to_string())).unwrap();
    let e1 = g
        .put_edge(&mut txn, &Edge::new(&ferb, &phineas, "brothers".to_string()).unwrap())
        .unwrap();
    let e2 = g
        .put_edge(&mut txn, &Edge::new(&phineas, &ferb, "brothers".to_string()).unwrap())
        .unwrap();
    txn.commit(&mut g).unwrap();

    let rt = g.read_txn().unwrap();
    assert_eq!(g.edge_count(&rt).unwrap(), 2);
    let all = g.edges(&rt).unwrap();
    assert_eq!(all.len(), 2);
    assert_eq!(all[0].bytes_encode(), e1.to_pvalue().bytes_encode());
    assert_eq!(all[1].bytes_encode(), e2.to_pvalue().bytes_encode());

    let fetched = g
        .get_edge_by_id(&rt, &e1.get_id().unwrap())
        .unwrap()
        .expect("stored edge");
    assert_eq!(fetched.get_to(), ferb.get_id().unwrap());
    assert_eq!(fetched.get_from(), phineas.get_id().unwrap());
    assert_eq!(fetched.get_label(), "brothers".to_string());
    // endpoints of a committed edge always carry the Vertex kind tag
    assert_eq!(fetched.get_to().kind, gremlite::Type::Vertex);
    assert_eq!(fetched.get_from().kind, gremlite::Type::Vertex);

    let by_label = g.get_edge_by_label(&rt, &"brothers".to_string()).unwrap();
    assert!(by_label.is_some());
}

#[test]
fn test_put_existing_edge() {
    let mut g = Graph::new();
    let mut txn = g.write_txn().unwrap();
    let a = g.put_vertex(&mut txn, &Vertex::new("a".to_string())).unwrap();
    let b = g.put_vertex(&mut txn, &Vertex::new("b".to_string())).unwrap();
    let mut returned = g
        .put_edge(&mut txn, &Edge::new(&a, &b, "brothers".to_string()).unwrap())
        .unwrap();
    returned.label = "sisters".to_string();
    g.put_edge(&mut txn, &returned).unwrap();
    txn.commit(&mut g).unwrap();

    let rt = g.read_txn().unwrap();
    assert_eq!(g.edge_count(&rt).unwrap(), 1);
    let n = g
        .get_edge_by_id(&rt, &returned.get_id().unwrap())
        .unwrap()
        .expect("still stored");
    assert_eq!(n.get_label(), "sisters".to_string());
    assert!(g.get_edge_by_label(&rt, &"brothers".to_string()).unwrap().is_none());
}

#[test]
fn test_counts_match_scans() {
    let mut g = Graph::new();
    let mut txn = g.write_txn().unwrap();
    for i in 0..10 {
        g.put_vertex(&mut txn, &Vertex::new(format!("v{}", i))).unwrap();
    }
    txn.commit(&mut g).unwrap();

    let rt = g.read_txn().unwrap();
    let scanned = g.vertices(&rt).unwrap();
    assert_eq!(g.vertex_count(&rt).unwrap(), scanned.len());
    assert_eq!(scanned.len(), 10);
}

#[test]
fn test_vertices_iterate_in_put_order() {
    let mut g = Graph::new();
    let mut txn = g.write_txn().unwrap();
    let mut returned: Vec<Vec<u8>> = Vec::new();
    for i in 0..10 {
        let v = g.put_vertex(&mut txn, &Vertex::new(format!("test {}", i))).unwrap();
        returned.push(v.to_pvalue().bytes_encode());
    }
    txn.commit(&mut g).unwrap();

    let rt = g.read_txn().unwrap();
    let scanned: Vec<Vec<u8>> = g
        .vertices(&rt)
        .unwrap()
        .iter()
        .map(|pv| pv.bytes_encode())
        .collect();
    assert_eq!(scanned, returned);
}

#[test]
fn test_ids_monotonic() {
    let mut g = Graph::new();
    let mut txn = g.write_txn().unwrap();
    let mut last = 0u128;
    for i in 0..5 {
        let v = g.put_vertex(&mut txn, &Vertex::new(format!("v{}", i))).unwrap();
        let id = v.get_id().unwrap();
        assert!(id.ulid > last);
        assert!(id.ulid != 0 && id.ulid != u128::MAX);
        last = id.ulid;
    }
    txn.commit(&mut g).unwrap();
}

#[test]
fn test_mult_trans() {
    let mut g = Graph::new();
    let w1 = g.write_txn().unwrap();
    let w2 = g.write_txn_wait(0);
    match w2 {
        Err(Error::TimedOut(d)) => assert_eq!(d, 0),
        Err(Error::Busy) => {},
        _ => panic!("Not correct error"),
    }
    // after the holder is gone, the lock opens again
    w1.abort(&mut g);
    let w3 = g.write_txn_wait(0);
    assert!(w3.is_ok());
}

#[test]
fn test_write_txn_wait_times_out() {
    let mut g = Graph::new();
    let _w1 = g.write_txn().unwrap();
    match g.write_txn_wait(25) {
        Err(e) => assert_eq!(e, Error::TimedOut(25)),
        Ok(_) => panic!("the lock is held"),
    }
}

#[test]
fn test_read_snapshot_isolation() {
    let mut g = Graph::new();
    let mut txn = g.write_txn().unwrap();
    g.put_vertex(&mut txn, &Vertex::new("one".to_string())).unwrap();
    txn.commit(&mut g).unwrap();

    let early = g.read_txn().unwrap();

    let mut txn = g.write_txn().unwrap();
    g.put_vertex(&mut txn, &Vertex::new("two".to_string())).unwrap();
    txn.commit(&mut g).unwrap();

    // the early snapshot observes exactly the commits before it opened
    assert_eq!(g.vertex_count(&early).unwrap(), 1);
    let late = g.read_txn().unwrap();
    assert_eq!(g.vertex_count(&late).unwrap(), 2);
}

#[test]
fn test_abort_rolls_back() {
    let mut g = Graph::new();
    let mut txn = g.write_txn().unwrap();
    g.put_vertex(&mut txn, &Vertex::new("gone".to_string())).unwrap();
    txn.abort(&mut g);

    let rt = g.read_txn().unwrap();
    assert_eq!(g.vertex_count(&rt).unwrap(), 0);
}

#[test]
fn test_clear() {
    let mut g = Graph::new();
    let mut txn = g.write_txn().unwrap();
    let a = g.put_vertex(&mut txn, &Vertex::new("a".to_string())).unwrap();
    let b = g.put_vertex(&mut txn, &Vertex::new("b".to_string())).unwrap();
    g.put_edge(&mut txn, &Edge::new(&a, &b, "e".to_string()).unwrap()).unwrap();
    g.clear(&mut txn).unwrap();
    txn.commit(&mut g).unwrap();

    let rt = g.read_txn().unwrap();
    assert_eq!(g.vertex_count(&rt).unwrap(), 0);
    assert_eq!(g.edge_count(&rt).unwrap(), 0);
}

#[test]
fn test_get_by_ids_skips_missing() {
    let mut g = Graph::new();
    let mut txn = g.write_txn().unwrap();
    let a = g.put_vertex(&mut txn, &Vertex::new("a".to_string())).unwrap();
    let b = g.put_vertex(&mut txn, &Vertex::new("b".to_string())).unwrap();
    txn.commit(&mut g).unwrap();

    let rt = g.read_txn().unwrap();
    let ids = vec![
        b.get_id().unwrap(),
        gremlite::Id::nil(gremlite::Type::Vertex),
        a.get_id().unwrap(),
    ];
    let found = g.get_vertices_by_ids(&rt, &ids).unwrap();
    assert_eq!(found.len(), 2);
    assert_eq!(found[0].bytes_encode(), b.to_pvalue().bytes_encode());
    assert_eq!(found[1].bytes_encode(), a.to_pvalue().bytes_encode());
}
