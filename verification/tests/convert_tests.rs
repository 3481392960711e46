//! The value algebra: lifting into `PValue` and projecting back out.

use gremlite::{Edge, Error, FromPValue, Id, PValue, ToPValue, Type, Vertex};

#[test]
fn test_vertex_to_from_pvalue() {
    let mut v = Vertex::new("v".to_string());
    v.id = Some(Id::nil(Type::Vertex));
    let expected = v.bytes_encode();
    let pv = v.to_pvalue();
    let decoded = Vertex::from_pvalue(pv).unwrap();
    assert_eq!(decoded.bytes_encode(), expected);
}

#[test]
fn test_vertex_from_wrong_tag() {
    let pv = PValue::default();
    let decoded = Vertex::from_pvalue(pv);
    assert_eq!(decoded.unwrap_err(), Error::InvalidPValue("Null".to_string()));
}

#[test]
fn test_edge_to_from_pvalue() {
    let mut a = Vertex::new("v".to_string());
    a.id = Some(Id::nil(Type::Vertex));
    let mut b = Vertex::new("v".to_string());
    b.id = Some(Id::max(Type::Vertex));
    let e = Edge::new(&a, &b, "e".to_string()).unwrap();
    assert_eq!(e.get_label(), "e".to_string());
    let expected = e.bytes_encode();
    let pv = e.to_pvalue();
    let decoded = Edge::from_pvalue(pv).unwrap();
    assert_eq!(decoded.bytes_encode(), expected);
}

#[test]
fn test_edge_from_wrong_tag() {
    let v = Vertex::new("v".to_string());
    let pv = v.to_pvalue();
    let decoded = Edge::from_pvalue(pv);
    assert_eq!(decoded.unwrap_err(), Error::InvalidPValue("Vertex".to_string()));
}

#[test]
fn test_edge_new_requires_ids() {
    let a = Vertex::new("a".to_string());
    let b = Vertex::new("b".to_string());
    let e = Edge::new(&a, &b, "rel".to_string());
    assert_eq!(e.unwrap_err(), Error::VertexInvalid);
}

#[test]
fn test_scalar_conversions() {
    assert_eq!(i32::from_pvalue(5i32.to_pvalue()).unwrap(), 5);
    assert_eq!(i64::from_pvalue((-9i64).to_pvalue()).unwrap(), -9);
    assert_eq!(i128::from_pvalue(7i128.to_pvalue()).unwrap(), 7);
    assert_eq!(bool::from_pvalue(true.to_pvalue()).unwrap(), true);
    assert_eq!(
        String::from_pvalue("hi".to_string().to_pvalue()).unwrap(),
        "hi".to_string()
    );
    let id = Id { kind: Type::Edge, ulid: 3 };
    assert_eq!(Id::from_pvalue(id.to_pvalue()).unwrap(), id);
}

#[test]
fn test_scalar_wrong_tag_errors() {
    assert_eq!(
        i32::from_pvalue(PValue::Bool(true)).unwrap_err(),
        Error::InvalidPValue("Bool".to_string())
    );
    assert_eq!(
        bool::from_pvalue(PValue::I64(1)).unwrap_err(),
        Error::InvalidPValue("I64".to_string())
    );
    assert_eq!(
        String::from_pvalue(PValue::Token("t".to_string())).unwrap_err(),
        Error::InvalidPValue("Token".to_string())
    );
}

#[test]
fn test_pvalue_identity_conversion() {
    let pv = PValue::default();
    assert_eq!(pv.bytes_encode(), PValue::Null.bytes_encode());
    let back = PValue::from_pvalue(pv.to_pvalue()).unwrap();
    assert_eq!(back.bytes_encode(), PValue::Null.bytes_encode());
}

#[test]
fn test_set_param_replaces_binding() {
    let v = Vertex::new("v".to_string())
        .set_param("k".to_string(), PValue::I32(1))
        .set_param("k".to_string(), PValue::I32(2))
        .set_param("other".to_string(), PValue::Bool(false));
    assert_eq!(
        v.get_param(&"k".to_string()).unwrap().bytes_encode(),
        PValue::I32(2).bytes_encode()
    );
    assert_eq!(
        v.get_param(&"other".to_string()).unwrap().bytes_encode(),
        PValue::Bool(false).bytes_encode()
    );
    assert!(v.get_param(&"absent".to_string()).is_none());
}
