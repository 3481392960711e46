//! Byte-level codec behavior: fixed id layout, round trips, hexastore
//! keys.

use gremlite::{Edge, HexOrder, Id, PValue, Type, Vertex};

#[test]
fn test_vertex_decode_encode() {
    let nil = Id::nil(Type::Vertex);
    let encoded = nil.bytes_encode();
    assert_eq!(encoded.len(), 17);
    let decoded = Id::bytes_decode(&encoded);
    assert!(decoded.is_some());
    assert_eq!(decoded.unwrap(), nil);
}

#[test]
fn test_edge_decode_encode() {
    let nil = Id::nil(Type::Edge);
    let encoded = nil.bytes_encode();
    assert_eq!(encoded.len(), 17);
    let decoded = Id::bytes_decode(&encoded);
    assert!(decoded.is_some());
    assert_eq!(decoded.unwrap(), nil);
}

#[test]
fn test_id_fixed_layout() {
    // one byte of kind tag, then sixteen big-endian ULID bytes
    let nil = Id::nil(Type::Vertex);
    assert_eq!(nil.bytes_encode(), vec![0u8; 17]);

    let max = Id::max(Type::Edge);
    let mut expected = vec![0xffu8; 17];
    expected[0] = 1;
    assert_eq!(max.bytes_encode(), expected);

    let id = Id { kind: Type::Parameter, ulid: 0x0102 };
    let mut expected = vec![0u8; 17];
    expected[0] = 2;
    expected[15] = 1;
    expected[16] = 2;
    assert_eq!(id.bytes_encode(), expected);
}

#[test]
fn test_id_decode_rejects_bad_input() {
    // wrong length
    assert!(Id::bytes_decode(&vec![0u8; 16]).is_none());
    assert!(Id::bytes_decode(&vec![0u8; 18]).is_none());
    // unknown kind tag
    let mut bytes = vec![0u8; 17];
    bytes[0] = 9;
    assert!(Id::bytes_decode(&bytes).is_none());
}

#[test]
fn test_i32_excess_layout() {
    // signed integers are stored excess-2^31, big-endian
    let pv = PValue::I32(-7);
    assert_eq!(pv.bytes_encode(), vec![6u8, 0x7f, 0xff, 0xff, 0xf9]);
    let pv = PValue::I32(0);
    assert_eq!(pv.bytes_encode(), vec![6u8, 0x80, 0x00, 0x00, 0x00]);
}

#[test]
fn test_pvalue_scalar_round_trips() {
    let values = vec![
        PValue::Null,
        PValue::Id(Id { kind: Type::Vertex, ulid: 42 }),
        PValue::Ulid(u128::MAX - 5),
        PValue::Type(Type::Parameter),
        PValue::I32(-123456),
        PValue::I64(i64::MIN),
        PValue::I128(i128::MAX),
        PValue::F32(1.5f32.to_bits()),
        PValue::F64((-0.25f64).to_bits()),
        PValue::Date(1_600_000_000_000_000_000),
        PValue::Token("tok".to_string()),
        PValue::String("föö💡".to_string()),
        PValue::Bool(true),
        PValue::Bool(false),
    ];
    for pv in values {
        let bytes = pv.bytes_encode();
        let back = PValue::bytes_decode(&bytes).expect("round trip");
        assert_eq!(back.bytes_encode(), bytes);
    }
}

#[test]
fn test_pvalue_nested_round_trip() {
    let inner = PValue::List(vec![PValue::I32(1), PValue::String("two".to_string())]);
    let map = PValue::MapOf(vec![
        ("a".to_string(), PValue::Bool(true)),
        ("b".to_string(), inner),
    ]);
    let set = PValue::SetOf(vec![map, PValue::Null]);
    let bytes = set.bytes_encode();
    let back = PValue::bytes_decode(&bytes).expect("round trip");
    assert_eq!(back.bytes_encode(), bytes);
}

#[test]
fn test_vertex_codec_round_trip() {
    let v = Vertex::new("person".to_string())
        .set_param("age".to_string(), PValue::I32(30))
        .set_param("name".to_string(), PValue::String("ferb".to_string()));
    let bytes = v.bytes_encode();
    let back = Vertex::bytes_decode(&bytes).expect("round trip");
    assert_eq!(back.get_label(), "person".to_string());
    assert_eq!(back.get_id(), None);
    assert_eq!(
        back.get_param(&"age".to_string()).unwrap().bytes_encode(),
        PValue::I32(30).bytes_encode()
    );
    assert_eq!(back.bytes_encode(), bytes);
}

#[test]
fn test_edge_codec_round_trip() {
    let mut a = Vertex::new("a".to_string());
    a.id = Some(Id { kind: Type::Vertex, ulid: 7 });
    let mut b = Vertex::new("b".to_string());
    b.id = Some(Id { kind: Type::Vertex, ulid: 9 });
    let e = Edge::new(&a, &b, "rel".to_string()).unwrap();
    let bytes = e.bytes_encode();
    let back = Edge::bytes_decode(&bytes).expect("round trip");
    assert_eq!(back.get_label(), "rel".to_string());
    assert_eq!(back.get_to(), Id { kind: Type::Vertex, ulid: 7 });
    assert_eq!(back.get_from(), Id { kind: Type::Vertex, ulid: 9 });
    assert_eq!(back.bytes_encode(), bytes);
}

#[test]
fn test_vertex_decode_rejects_trailing_bytes() {
    let v = Vertex::new("x".to_string());
    let mut bytes = v.bytes_encode();
    bytes.push(0);
    assert!(Vertex::bytes_decode(&bytes).is_none());
}

#[test]
fn test_hex_order() {
    let ho = HexOrder::EFT;
    let computed = ho
        .to_db(
            Id::nil(Type::Edge),
            Id::nil(Type::Vertex),
            Id::max(Type::Vertex),
        )
        .unwrap();
    // EFT stores (edge id, from, to) behind its tag byte
    let mut expected = vec![3u8];
    expected.extend(Id::nil(Type::Edge).bytes_encode());
    expected.extend(Id::max(Type::Vertex).bytes_encode());
    expected.extend(Id::nil(Type::Vertex).bytes_encode());
    assert_eq!(computed, expected);
}

#[test]
fn test_label_index_key_layout() {
    let id = Id { kind: Type::Vertex, ulid: 1 };
    let key = gremlite::codec::label_id_to_db("ab", &id);
    // eight length bytes, the UTF-8 text, then the 17-byte id
    assert_eq!(key.len(), 8 + 2 + 17);
    assert_eq!(&key[0..8], &[0, 0, 0, 0, 0, 0, 0, 2]);
    assert_eq!(&key[8..10], b"ab");
}

#[test]
fn test_hex_orders_are_six_permutations() {
    let orders = gremlite::codec::hex_orders();
    assert_eq!(orders.len(), 6);
    let id = Id { kind: Type::Edge, ulid: 1 };
    let to = Id { kind: Type::Vertex, ulid: 2 };
    let from = Id { kind: Type::Vertex, ulid: 3 };
    let mut keys: Vec<Vec<u8>> = orders.iter().map(|o| o.to_db(id, to, from).unwrap()).collect();
    keys.sort();
    keys.dedup();
    assert_eq!(keys.len(), 6);
}
