//! The deterministic binary codec for every stored shape.
//!
//! Encoding is total on well-typed values; decoding of arbitrary bytes
//! may fail but never misinterprets: whatever it accepts re-encodes to
//! exactly the bytes consumed. Ids occupy a fixed 17 bytes — one byte
//! of kind tag, then 16 bytes of big-endian ULID. Variable-length
//! fields are length-prefixed with 8 big-endian bytes; signed integers
//! are stored excess-2ⁿ⁻¹ so that numeric order matches byte order.

use vstd::prelude::*;
use vstd::utf8::{decode_utf8, encode_utf8, valid_utf8};

use crate::error::Error;
use crate::ids::{Id, Type};
use crate::pvalue::{Edge, EdgeView, PValue, PValueView, Vertex, VertexView, pv_list_view, params_view, pv_view};

verus! {

/// 256 to the `k`-th power: the number of values of a `k`-byte field.
pub open spec fn pow256(k: nat) -> nat
    decreases k,
{
    if k == 0 {
        1
    } else {
        256 * pow256((k - 1) as nat)
    }
}

/// `pow256` grows monotonically.
pub proof fn lemma_pow256_increases(j: nat, k: nat)
    requires
        j <= k,
    ensures
        pow256(j) <= pow256(k),
    decreases k,
{
    if j < k {
        lemma_pow256_increases(j, (k - 1) as nat);
        assert(pow256(k) == 256 * pow256((k - 1) as nat));
        assert(pow256((k - 1) as nat) <= 256 * pow256((k - 1) as nat)) by (nonlinear_arith)
            requires pow256((k - 1) as nat) >= 0;
    }
}

/// `pow256(16)` is one past the largest `u128`.
pub proof fn lemma_pow256_16()
    ensures
        pow256(16) == 0x100000000000000000000000000000000,
{
    reveal_with_fuel(pow256, 17);
}

/// The big-endian `k`-byte encoding of `x % pow256(k)`: most
/// significant byte first.
pub open spec fn enc_be(x: nat, k: nat) -> Seq<u8>
    decreases k,
{
    if k == 0 {
        Seq::empty()
    } else {
        enc_be(x / 256, (k - 1) as nat) + seq![(x % 256) as u8]
    }
}

/// The value of the `k` bytes of `b` starting at `pos`, big-endian.
pub open spec fn dec_be(b: Seq<u8>, pos: int, k: nat) -> nat
    decreases k,
{
    if k == 0 {
        0
    } else {
        dec_be(b, pos, (k - 1) as nat) * 256 + b[pos + k - 1] as nat
    }
}

/// A `k`-byte encoding has `k` bytes.
pub proof fn lemma_enc_be_len(x: nat, k: nat)
    ensures
        enc_be(x, k).len() == k,
    decreases k,
{
    if k > 0 {
        lemma_enc_be_len(x / 256, (k - 1) as nat);
    }
}

/// A `k`-byte field holds less than `pow256(k)`.
pub proof fn lemma_dec_be_bound(b: Seq<u8>, pos: int, k: nat)
    ensures
        dec_be(b, pos, k) < pow256(k),
    decreases k,
{
    if k > 0 {
        lemma_dec_be_bound(b, pos, (k - 1) as nat);
        let hi = dec_be(b, pos, (k - 1) as nat);
        let p = pow256((k - 1) as nat);
        assert(hi * 256 + 255 < 256 * p) by (nonlinear_arith)
            requires hi < p;
        assert(b[pos + k - 1] as nat <= 255);
    }
}

/// Decoding the `k` bytes an encoder wrote gives the value back.
pub proof fn lemma_dec_enc_be(b: Seq<u8>, pos: int, x: nat, k: nat)
    requires
        0 <= pos,
        pos + k <= b.len(),
        x < pow256(k),
        b.subrange(pos, pos + k as int) == enc_be(x, k),
    ensures
        dec_be(b, pos, k) == x,
    decreases k,
{
    if k == 0 {
        assert(x == 0);
    } else {
        lemma_enc_be_len(x / 256, (k - 1) as nat);
        let sub = b.subrange(pos, pos + k as int);
        assert(b.subrange(pos, pos + k - 1) =~= enc_be(x / 256, (k - 1) as nat)) by {
            assert(forall|j: int| 0 <= j < k ==> b[pos + j] == sub[j]);
        }
        assert(b[pos + k - 1] == sub[k - 1]);
        assert(sub[k - 1] == (x % 256) as u8);
        assert(x / 256 < pow256((k - 1) as nat)) by (nonlinear_arith)
            requires x < 256 * pow256((k - 1) as nat), pow256((k - 1) as nat) >= 0;
        lemma_dec_enc_be(b, pos, x / 256, (k - 1) as nat);
        assert(dec_be(b, pos, k) == (x / 256) * 256 + x % 256);
    }
}

/// Re-encoding `k` decoded bytes gives the bytes back.
pub proof fn lemma_enc_dec_be(b: Seq<u8>, pos: int, k: nat)
    requires
        0 <= pos,
        pos + k <= b.len(),
    ensures
        enc_be(dec_be(b, pos, k), k) == b.subrange(pos, pos + k as int),
    decreases k,
{
    if k == 0 {
        assert(enc_be(0, 0) =~= b.subrange(pos, pos));
    } else {
        lemma_enc_dec_be(b, pos, (k - 1) as nat);
        let hi = dec_be(b, pos, (k - 1) as nat);
        let x = dec_be(b, pos, k);
        let lo = b[pos + k - 1] as nat;
        assert(x == hi * 256 + lo);
        assert(x / 256 == hi && x % 256 == lo) by (nonlinear_arith)
            requires x == hi * 256 + lo, 0 <= lo < 256, 0 <= hi;
        lemma_enc_be_len(hi, (k - 1) as nat);
        assert(enc_be(x, k) =~= b.subrange(pos, pos + k as int));
    }
}

/// Encode `x % pow256(k)` on `k` big-endian bytes.
pub fn encode_be(x: u128, k: usize) -> (r: Vec<u8>)
    ensures
        r@ == enc_be(x as nat, k as nat),
        r@.len() == k,
    decreases k,
{
    proof {
        lemma_enc_be_len(x as nat, k as nat);
    }
    if k == 0 {
        Vec::new()
    } else {
        let mut r = encode_be(x / 256, k - 1);
        r.push((x % 256) as u8);
        proof {
            assert(r@ =~= enc_be(x as nat, k as nat));
        }
        r
    }
}

/// Decode the `k` bytes of `b` starting at `pos`, big-endian.
pub fn decode_be(b: &Vec<u8>, pos: usize, k: usize) -> (r: u128)
    requires
        pos + k <= b@.len(),
        k <= 16,
    ensures
        r as nat == dec_be(b@, pos as int, k as nat),
    decreases k,
{
    if k == 0 {
        0
    } else {
        let n = b.len();
        let hi = decode_be(b, pos, k - 1);
        proof {
            lemma_dec_be_bound(b@, pos as int, (k - 1) as nat);
            lemma_pow256_increases((k - 1) as nat, 15);
            lemma_pow256_16();
            let p15 = pow256(15);
            assert(hi as nat * 256 + 255 < 256 * p15) by (nonlinear_arith)
                requires (hi as nat) < p15;
            assert(256 * pow256(15) == pow256(16));
        }
        hi * 256 + (b[pos + k - 1] as u128)
    }
}


/// Splitting a known concatenation at `pos` into its two parts.
pub proof fn lemma_bytes_split(b: Seq<u8>, pos: int, s1: Seq<u8>, s2: Seq<u8>)
    requires
        0 <= pos,
        pos + s1.len() + s2.len() <= b.len(),
        b.subrange(pos, pos + s1.len() + s2.len()) == s1 + s2,
    ensures
        b.subrange(pos, pos + s1.len()) == s1,
        b.subrange(pos + s1.len(), pos + s1.len() + s2.len()) == s2,
{
    let whole = b.subrange(pos, pos + s1.len() + s2.len());
    assert(forall|j: int| 0 <= j < whole.len() ==> b[pos + j] == whole[j]);
    assert(b.subrange(pos, pos + s1.len()) =~= s1);
    let tail = b.subrange(pos + s1.len(), pos + s1.len() + s2.len());
    assert forall|j: int| 0 <= j < s2.len() implies tail[j] == s2[j] by {
        assert(whole[s1.len() + j] == s2[j]);
        assert(tail[j] == b[pos + s1.len() + j]);
        assert(b[pos + s1.len() + j] == whole[s1.len() + j]);
    }
    assert(tail =~= s2);
}

/// The excess-2³¹ image of an `i32`: order-preserving, in `[0, 2³²)`.
pub open spec fn i32_off(x: i32) -> nat {
    (x + 0x8000_0000) as nat
}

/// The excess-2⁶³ image of an `i64`.
pub open spec fn i64_off(x: i64) -> nat {
    (x + 0x8000_0000_0000_0000) as nat
}

/// The excess-2¹²⁷ image of an `i128`.
pub open spec fn i128_off(x: i128) -> nat {
    (x + 0x80000000000000000000000000000000) as nat
}

/// Apply the excess-2³¹ offset.
pub fn off_i32(x: i32) -> (r: u32)
    ensures
        r as nat == i32_off(x),
{
    ((x as i64) + 0x8000_0000i64) as u32
}

/// Undo the excess-2³¹ offset.
pub fn unoff_i32(u: u32) -> (r: i32)
    ensures
        i32_off(r) == u as nat,
{
    ((u as i64) - 0x8000_0000i64) as i32
}

/// Apply the excess-2⁶³ offset.
pub fn off_i64(x: i64) -> (r: u64)
    ensures
        r as nat == i64_off(x),
{
    ((x as i128) + 0x8000_0000_0000_0000i128) as u64
}

/// Undo the excess-2⁶³ offset.
pub fn unoff_i64(u: u64) -> (r: i64)
    ensures
        i64_off(r) == u as nat,
{
    ((u as i128) - 0x8000_0000_0000_0000i128) as i64
}

/// Apply the excess-2¹²⁷ offset.
pub fn off_i128(x: i128) -> (r: u128)
    ensures
        r as nat == i128_off(x),
{
    if x >= 0 {
        (x as u128) + 0x80000000000000000000000000000000u128
    } else {
        ((x + 0x40000000000000000000000000000000i128)
            + 0x40000000000000000000000000000000i128) as u128
    }
}

/// Undo the excess-2¹²⁷ offset.
pub fn unoff_i128(u: u128) -> (r: i128)
    ensures
        i128_off(r) == u as nat,
{
    if u >= 0x80000000000000000000000000000000u128 {
        (u - 0x80000000000000000000000000000000u128) as i128
    } else {
        ((u as i128) - 0x40000000000000000000000000000000i128)
            - 0x40000000000000000000000000000000i128
    }
}

/// The one-byte encoding of a boolean.
pub open spec fn enc_bool(v: bool) -> Seq<u8> {
    seq![if v { 1u8 } else { 0u8 }]
}

/// The one-byte tag of an entity kind.
pub open spec fn type_tag(t: Type) -> u8 {
    match t {
        Type::Vertex => 0,
        Type::Edge => 1,
        Type::Parameter => 2,
    }
}

/// The kind a tag byte names, if any.
pub open spec fn dec_type_tag(x: u8) -> Option<Type> {
    if x == 0 {
        Some(Type::Vertex)
    } else if x == 1 {
        Some(Type::Edge)
    } else if x == 2 {
        Some(Type::Parameter)
    } else {
        None
    }
}

/// The kind tag of `t`.
pub fn encode_type_tag(t: &Type) -> (r: u8)
    ensures
        r == type_tag(*t),
{
    match t {
        Type::Vertex => 0,
        Type::Edge => 1,
        Type::Parameter => 2,
    }
}

/// The kind a tag byte names, if any.
pub fn decode_type_tag(x: u8) -> (r: Option<Type>)
    ensures
        r == dec_type_tag(x),
{
    if x == 0 {
        Some(Type::Vertex)
    } else if x == 1 {
        Some(Type::Edge)
    } else if x == 2 {
        Some(Type::Parameter)
    } else {
        None
    }
}

/// The fixed 17-byte encoding of an id: the kind tag, then the ULID on
/// 16 big-endian bytes.
pub open spec fn enc_id(id: Id) -> Seq<u8> {
    seq![type_tag(id.kind)] + enc_be(id.ulid as nat, 16)
}

/// An id has 17 encoded bytes.
pub proof fn lemma_enc_id_len(id: Id)
    ensures
        enc_id(id).len() == 17,
{
    lemma_enc_be_len(id.ulid as nat, 16);
}

/// Decode an id at `pos`: 17 bytes, or nothing.
pub open spec fn dec_id(b: Seq<u8>, pos: int) -> Option<(Id, int)> {
    if pos < 0 || b.len() - pos < 17 {
        None
    } else {
        match dec_type_tag(b[pos]) {
            Option::None => None,
            Option::Some(t) => Some(
                (Id { kind: t, ulid: dec_be(b, pos + 1, 16) as u128 }, pos + 17),
            ),
        }
    }
}

/// Decoding the id an encoder wrote gives the id back.
pub proof fn lemma_dec_enc_id(b: Seq<u8>, pos: int, id: Id)
    requires
        0 <= pos,
        pos + 17 <= b.len(),
        b.subrange(pos, pos + 17) == enc_id(id),
    ensures
        dec_id(b, pos) == Some((id, pos + 17)),
{
    lemma_enc_be_len(id.ulid as nat, 16);
    lemma_bytes_split(b, pos, seq![type_tag(id.kind)], enc_be(id.ulid as nat, 16));
    assert(b[pos] == b.subrange(pos, pos + 1)[0]);
    lemma_pow256_16();
    lemma_dec_enc_be(b, pos + 1, id.ulid as nat, 16);
}

/// Re-encoding a decoded id gives the bytes back.
pub proof fn lemma_enc_dec_id(b: Seq<u8>, pos: int)
    requires
        dec_id(b, pos) is Some,
    ensures
        ({
            let (id, p) = dec_id(b, pos)->Some_0;
            p == pos + 17 <= b.len() && 0 <= pos && enc_id(id) == b.subrange(pos, pos + 17)
        }),
{
    let (id, p) = dec_id(b, pos)->Some_0;
    lemma_enc_dec_be(b, pos + 1, 16);
    lemma_dec_be_bound(b, pos + 1, 16);
    lemma_pow256_16();
    lemma_enc_be_len(id.ulid as nat, 16);
    assert(enc_id(id) =~= b.subrange(pos, pos + 17));
}

/// Encode an id on 17 bytes.
pub fn encode_id(id: &Id) -> (r: Vec<u8>)
    ensures
        r@ == enc_id(*id),
        r@.len() == 17,
{
    let mut r: Vec<u8> = Vec::new();
    r.push(encode_type_tag(&id.kind));
    let mut ulid = encode_be(id.ulid, 16);
    r.append(&mut ulid);
    proof {
        lemma_enc_be_len(id.ulid as nat, 16);
        assert(r@ =~= enc_id(*id));
    }
    r
}

/// Decode an id at `pos`.
pub fn decode_id(b: &Vec<u8>, pos: usize) -> (r: Option<(Id, usize)>)
    requires
        pos <= b@.len(),
    ensures
        r matches Some((id, p)) ==> dec_id(b@, pos as int) == Some((id, p as int))
            && pos < p <= b@.len(),
        r is None ==> dec_id(b@, pos as int) is None,
{
    let n = b.len();
    if n - pos < 17 {
        return None;
    }
    match decode_type_tag(b[pos]) {
        Option::None => None,
        Option::Some(t) => {
            let ulid = decode_be(b, pos + 1, 16);
            proof {
                lemma_dec_be_bound(b@, pos as int + 1, 16);
                lemma_pow256_16();
            }
            Some((Id { kind: t, ulid }, pos + 17))
        },
    }
}

/// The encoding of an optional id: an absence byte, or a presence byte
/// followed by the id.
pub open spec fn enc_opt_id(o: Option<Id>) -> Seq<u8> {
    match o {
        Option::None => seq![0u8],
        Option::Some(id) => seq![1u8] + enc_id(id),
    }
}

/// Decode an optional id at `pos`.
pub open spec fn dec_opt_id(b: Seq<u8>, pos: int) -> Option<(Option<Id>, int)> {
    if pos < 0 || b.len() - pos < 1 {
        None
    } else if b[pos] == 0 {
        Some((Option::None, pos + 1))
    } else if b[pos] == 1 {
        match dec_id(b, pos + 1) {
            Option::None => None,
            Option::Some((id, p)) => Some((Some(id), p)),
        }
    } else {
        None
    }
}

/// Decoding the optional id an encoder wrote gives it back.
pub proof fn lemma_dec_enc_opt_id(b: Seq<u8>, pos: int, o: Option<Id>)
    requires
        0 <= pos,
        pos + enc_opt_id(o).len() <= b.len(),
        b.subrange(pos, pos + enc_opt_id(o).len()) == enc_opt_id(o),
    ensures
        dec_opt_id(b, pos) == Some((o, pos + enc_opt_id(o).len())),
{
    match o {
        Option::None => {
            assert(b[pos] == b.subrange(pos, pos + 1)[0]);
        },
        Option::Some(id) => {
            lemma_enc_id_len(id);
            lemma_bytes_split(b, pos, seq![1u8], enc_id(id));
            assert(b[pos] == b.subrange(pos, pos + 1)[0]);
            lemma_dec_enc_id(b, pos + 1, id);
        },
    }
}

/// Re-encoding a decoded optional id gives the bytes back.
pub proof fn lemma_enc_dec_opt_id(b: Seq<u8>, pos: int)
    requires
        dec_opt_id(b, pos) is Some,
    ensures
        ({
            let (o, p) = dec_opt_id(b, pos)->Some_0;
            pos < p <= b.len() && 0 <= pos && p == pos + enc_opt_id(o).len()
                && enc_opt_id(o) == b.subrange(pos, p)
        }),
{
    let (o, p) = dec_opt_id(b, pos)->Some_0;
    match o {
        Option::None => {
            assert(enc_opt_id(o) =~= b.subrange(pos, pos + 1));
        },
        Option::Some(id) => {
            lemma_enc_dec_id(b, pos + 1);
            lemma_enc_id_len(id);
            assert(enc_opt_id(o) =~= b.subrange(pos, p));
        },
    }
}

/// Encode an optional id.
pub fn encode_opt_id(o: &Option<Id>) -> (r: Vec<u8>)
    ensures
        r@ == enc_opt_id(*o),
{
    match o {
        Option::None => {
            let mut r: Vec<u8> = Vec::new();
            r.push(0u8);
            proof {
                assert(r@ =~= enc_opt_id(Option::<Id>::None));
            }
            r
        },
        Option::Some(id) => {
            let mut r: Vec<u8> = Vec::new();
            r.push(1u8);
            let mut idb = encode_id(id);
            r.append(&mut idb);
            proof {
                assert(r@ =~= enc_opt_id(Some(*id)));
            }
            r
        },
    }
}

/// Decode an optional id at `pos`.
pub fn decode_opt_id(b: &Vec<u8>, pos: usize) -> (r: Option<(Option<Id>, usize)>)
    requires
        pos <= b@.len(),
    ensures
        r matches Some((o, p)) ==> dec_opt_id(b@, pos as int) == Some((o, p as int))
            && pos < p <= b@.len(),
        r is None ==> dec_opt_id(b@, pos as int) is None,
{
    let n = b.len();
    if n - pos < 1 {
        return None;
    }
    let tag = b[pos];
    if tag == 0 {
        Some((None, pos + 1))
    } else if tag == 1 {
        match decode_id(b, pos + 1) {
            Option::None => None,
            Option::Some((id, p)) => Some((Some(id), p)),
        }
    } else {
        None
    }
}


/// The bytes of `b` from `from` (inclusive) to `to` (exclusive).
pub fn bytes_subrange(b: &Vec<u8>, from: usize, to: usize) -> (r: Vec<u8>)
    requires
        from <= to <= b@.len(),
    ensures
        r@ == b@.subrange(from as int, to as int),
{
    let mut r: Vec<u8> = Vec::new();
    let mut i = from;
    while i < to
        invariant
            from <= i <= to <= b@.len(),
            r@ =~= b@.subrange(from as int, i as int),
        decreases to - i,
    {
        r.push(b[i]);
        i = i + 1;
        proof {
            assert(r@ =~= b@.subrange(from as int, i as int));
        }
    }
    r
}

/// Builds a `String` from UTF-8 bytes.
///
/// Relies on `str::from_utf8` of std: it returns `Ok` exactly when the
/// bytes are valid UTF-8, and the resulting string slice is backed by
/// exactly those bytes.
#[verifier::external_body]
fn utf8_to_string(v: &Vec<u8>) -> (r: Option<String>)
    ensures
        r matches Some(s) ==> encode_utf8(s@) == v@,
        valid_utf8(v@) ==> r is Some,
{
    match core::str::from_utf8(v.as_slice()) {
        Ok(s) => Some(s.to_owned()),
        Err(_) => None,
    }
}

/// The encoding of a label or string: 8 length bytes, then the UTF-8
/// bytes of the text.
pub open spec fn enc_str(s: Seq<char>) -> Seq<u8> {
    enc_be(encode_utf8(s).len(), 8) + encode_utf8(s)
}

/// A text fits the wire format when its UTF-8 form fits the 8-byte
/// length prefix. Every `String` held in memory fits.
pub open spec fn str_fits(s: Seq<char>) -> bool {
    encode_utf8(s).len() < pow256(8)
}

/// Decode a string at `pos`.
pub open spec fn dec_str(b: Seq<u8>, pos: int) -> Option<(Seq<char>, int)> {
    if pos < 0 || b.len() - pos < 8 {
        None
    } else {
        let n = dec_be(b, pos, 8) as int;
        if b.len() - (pos + 8) < n {
            None
        } else {
            let bytes = b.subrange(pos + 8, pos + 8 + n);
            if valid_utf8(bytes) {
                Some((decode_utf8(bytes), pos + 8 + n))
            } else {
                None
            }
        }
    }
}

/// Decoding the string an encoder wrote gives the text back.
pub proof fn lemma_dec_enc_str(b: Seq<u8>, pos: int, s: Seq<char>)
    requires
        0 <= pos,
        str_fits(s),
        pos + enc_str(s).len() <= b.len(),
        b.subrange(pos, pos + enc_str(s).len()) == enc_str(s),
    ensures
        dec_str(b, pos) == Some((s, pos + enc_str(s).len())),
{
    let u = encode_utf8(s);
    lemma_enc_be_len(u.len(), 8);
    lemma_bytes_split(b, pos, enc_be(u.len(), 8), u);
    lemma_dec_enc_be(b, pos, u.len(), 8);
    broadcast use vstd::utf8::encode_utf8_valid_utf8;
    broadcast use vstd::utf8::encode_utf8_decode_utf8;

    assert(b.subrange(pos + 8, pos + 8 + u.len()) == u);
    assert(decode_utf8(u) == s);
}

/// Re-encoding a decoded string gives the bytes back.
pub proof fn lemma_enc_dec_str(b: Seq<u8>, pos: int)
    requires
        dec_str(b, pos) is Some,
    ensures
        ({
            let (s, p) = dec_str(b, pos)->Some_0;
            pos + 8 <= p <= b.len() && 0 <= pos && p == pos + enc_str(s).len()
                && str_fits(s) && enc_str(s) == b.subrange(pos, p)
        }),
{
    let (s, p) = dec_str(b, pos)->Some_0;
    let n = dec_be(b, pos, 8) as int;
    let bytes = b.subrange(pos + 8, pos + 8 + n);
    vstd::utf8::decode_utf8_encode_utf8(bytes);
    assert(encode_utf8(s) == bytes);
    lemma_enc_dec_be(b, pos, 8);
    lemma_dec_be_bound(b, pos, 8);
    lemma_enc_be_len(n as nat, 8);
    assert(enc_str(s) =~= b.subrange(pos, p));
}

/// Encode a string.
pub fn encode_str(s: &str) -> (r: Vec<u8>)
    ensures
        r@ == enc_str(s@),
        str_fits(s@),
{
    let mut bytes = vstd::string::StrSliceExecFns::as_bytes_vec(s);
    let n = bytes.len();
    let mut r = encode_be(n as u128, 8);
    r.append(&mut bytes);
    proof {
        reveal_with_fuel(pow256, 9);
        assert(n < pow256(8));
        assert(r@ =~= enc_str(s@));
    }
    r
}

/// Decode a string at `pos`.
pub fn decode_str(b: &Vec<u8>, pos: usize) -> (r: Option<(String, usize)>)
    requires
        pos <= b@.len(),
    ensures
        r matches Some((s, p)) ==> dec_str(b@, pos as int) == Some((s@, p as int))
            && pos < p <= b@.len(),
        r is None ==> dec_str(b@, pos as int) is None,
{
    let len = b.len();
    if len - pos < 8 {
        return None;
    }
    let n128 = decode_be(b, pos, 8);
    proof {
        lemma_dec_be_bound(b@, pos as int, 8);
    }
    if n128 > (len - (pos + 8)) as u128 {
        return None;
    }
    let n = n128 as usize;
    let bytes = bytes_subrange(b, pos + 8, pos + 8 + n);
    match utf8_to_string(&bytes) {
        Option::None => {
            proof {
                broadcast use vstd::utf8::encode_utf8_valid_utf8;
            }
            None
        },
        Option::Some(s) => {
            proof {
                broadcast use vstd::utf8::encode_utf8_valid_utf8;
                broadcast use vstd::utf8::encode_utf8_decode_utf8;

                assert(decode_utf8(bytes@) == s@);
            }
            Some((s, pos + 8 + n))
        },
    }
}


/// The encoding of a value: a tag byte, then the variant's payload.
pub open spec fn enc_pval(pv: PValueView) -> Seq<u8>
    decreases pv,
{
    match pv {
        PValueView::Null => seq![0u8],
        PValueView::Vertex(v) => seq![1u8] + enc_vertex(v),
        PValueView::Edge(e) => seq![2u8] + enc_edge(e),
        PValueView::Id(i) => seq![3u8] + enc_id(i),
        PValueView::Ulid(u) => seq![4u8] + enc_be(u as nat, 16),
        PValueView::Type(t) => seq![5u8, type_tag(t)],
        PValueView::I32(x) => seq![6u8] + enc_be(i32_off(x), 4),
        PValueView::I64(x) => seq![7u8] + enc_be(i64_off(x), 8),
        PValueView::I128(x) => seq![8u8] + enc_be(i128_off(x), 16),
        PValueView::F32(x) => seq![9u8] + enc_be(x as nat, 4),
        PValueView::F64(x) => seq![10u8] + enc_be(x as nat, 8),
        PValueView::Date(x) => seq![11u8] + enc_be(i64_off(x), 8),
        PValueView::Token(s) => seq![12u8] + enc_str(s),
        PValueView::String(s) => seq![13u8] + enc_str(s),
        PValueView::Bool(v) => seq![14u8] + enc_bool(v),
        PValueView::List(es) => seq![15u8] + enc_be(es.len(), 8) + enc_pval_seq(es),
        PValueView::SetOf(es) => seq![16u8] + enc_be(es.len(), 8) + enc_pval_seq(es),
        PValueView::MapOf(ps) => seq![17u8] + enc_be(ps.len(), 8) + enc_entries(ps),
    }
}

/// The encodings of a sequence of values, concatenated.
pub open spec fn enc_pval_seq(es: Seq<PValueView>) -> Seq<u8>
    decreases es,
{
    if es.len() == 0 {
        Seq::empty()
    } else {
        enc_pval(es[0]) + enc_pval_seq(es.drop_first())
    }
}

/// The encodings of a parameter mapping's entries, key before value,
/// concatenated.
pub open spec fn enc_entries(ps: Seq<(Seq<char>, PValueView)>) -> Seq<u8>
    decreases ps,
{
    if ps.len() == 0 {
        Seq::empty()
    } else {
        enc_str(ps[0].0) + enc_pval(ps[0].1) + enc_entries(ps.drop_first())
    }
}

/// The value layout of a vertex: optional id, label, then the counted
/// parameter entries.
pub open spec fn enc_vertex(v: VertexView) -> Seq<u8>
    decreases v,
{
    enc_opt_id(v.id) + enc_str(v.label) + enc_be(v.params.len(), 8) + enc_entries(v.params)
}

/// The value layout of an edge: optional id, both endpoints, label,
/// then the counted parameter entries.
pub open spec fn enc_edge(e: EdgeView) -> Seq<u8>
    decreases e,
{
    enc_opt_id(e.id) + enc_id(e.to) + enc_id(e.from) + enc_str(e.label)
        + enc_be(e.params.len(), 8) + enc_entries(e.params)
}

/// A value fits the wire format: every text and every collection is
/// shorter than the 8-byte length prefix allows. Every value held in
/// memory fits.
pub open spec fn pv_fits(pv: PValueView) -> bool
    decreases pv,
{
    match pv {
        PValueView::Vertex(v) => vertex_fits(v),
        PValueView::Edge(e) => edge_fits(e),
        PValueView::Token(s) => str_fits(s),
        PValueView::String(s) => str_fits(s),
        PValueView::List(es) => es.len() < pow256(8) && pval_seq_fits(es),
        PValueView::SetOf(es) => es.len() < pow256(8) && pval_seq_fits(es),
        PValueView::MapOf(ps) => ps.len() < pow256(8) && entries_fit(ps),
        _ => true,
    }
}

/// Every value of the sequence fits.
pub open spec fn pval_seq_fits(es: Seq<PValueView>) -> bool
    decreases es,
{
    if es.len() == 0 {
        true
    } else {
        pv_fits(es[0]) && pval_seq_fits(es.drop_first())
    }
}

/// Every key and value of the entries fits.
pub open spec fn entries_fit(ps: Seq<(Seq<char>, PValueView)>) -> bool
    decreases ps,
{
    if ps.len() == 0 {
        true
    } else {
        str_fits(ps[0].0) && pv_fits(ps[0].1) && entries_fit(ps.drop_first())
    }
}

/// A vertex fits the wire format.
pub open spec fn vertex_fits(v: VertexView) -> bool
    decreases v,
{
    str_fits(v.label) && v.params.len() < pow256(8) && entries_fit(v.params)
}

/// An edge fits the wire format.
pub open spec fn edge_fits(e: EdgeView) -> bool
    decreases e,
{
    str_fits(e.label) && e.params.len() < pow256(8) && entries_fit(e.params)
}

/// Decode a value at `pos`.
pub open spec fn dec_pval(b: Seq<u8>, pos: int) -> Option<(PValueView, int)>
    decreases b.len() - pos, 0int, 0nat,
{
    if pos < 0 || b.len() - pos < 1 {
        None
    } else {
        let tag = b[pos];
        let p1 = pos + 1;
        if tag == 0 {
            Some((PValueView::Null, p1))
        } else if tag == 1 {
            match dec_vertex(b, p1) {
                Option::None => None,
                Option::Some((v, p)) => Some((PValueView::Vertex(v), p)),
            }
        } else if tag == 2 {
            match dec_edge(b, p1) {
                Option::None => None,
                Option::Some((e, p)) => Some((PValueView::Edge(e), p)),
            }
        } else if tag == 3 {
            match dec_id(b, p1) {
                Option::None => None,
                Option::Some((i, p)) => Some((PValueView::Id(i), p)),
            }
        } else if tag == 4 {
            if b.len() - p1 < 16 {
                None
            } else {
                Some((PValueView::Ulid(dec_be(b, p1, 16) as u128), p1 + 16))
            }
        } else if tag == 5 {
            if b.len() - p1 < 1 {
                None
            } else {
                match dec_type_tag(b[p1]) {
                    Option::None => None,
                    Option::Some(t) => Some((PValueView::Type(t), p1 + 1)),
                }
            }
        } else if tag == 6 {
            if b.len() - p1 < 4 {
                None
            } else {
                Some((PValueView::I32((dec_be(b, p1, 4) - 0x8000_0000) as i32), p1 + 4))
            }
        } else if tag == 7 {
            if b.len() - p1 < 8 {
                None
            } else {
                Some((
                    PValueView::I64((dec_be(b, p1, 8) - 0x8000_0000_0000_0000) as i64),
                    p1 + 8,
                ))
            }
        } else if tag == 8 {
            if b.len() - p1 < 16 {
                None
            } else {
                Some((
                    PValueView::I128(
                        (dec_be(b, p1, 16) - 0x80000000000000000000000000000000) as i128,
                    ),
                    p1 + 16,
                ))
            }
        } else if tag == 9 {
            if b.len() - p1 < 4 {
                None
            } else {
                Some((PValueView::F32(dec_be(b, p1, 4) as u32), p1 + 4))
            }
        } else if tag == 10 {
            if b.len() - p1 < 8 {
                None
            } else {
                Some((PValueView::F64(dec_be(b, p1, 8) as u64), p1 + 8))
            }
        } else if tag == 11 {
            if b.len() - p1 < 8 {
                None
            } else {
                Some((
                    PValueView::Date((dec_be(b, p1, 8) - 0x8000_0000_0000_0000) as i64),
                    p1 + 8,
                ))
            }
        } else if tag == 12 {
            match dec_str(b, p1) {
                Option::None => None,
                Option::Some((s, p)) => Some((PValueView::Token(s), p)),
            }
        } else if tag == 13 {
            match dec_str(b, p1) {
                Option::None => None,
                Option::Some((s, p)) => Some((PValueView::String(s), p)),
            }
        } else if tag == 14 {
            if b.len() - p1 < 1 {
                None
            } else if b[p1] == 0 {
                Some((PValueView::Bool(false), p1 + 1))
            } else if b[p1] == 1 {
                Some((PValueView::Bool(true), p1 + 1))
            } else {
                None
            }
        } else if tag == 15 {
            if b.len() - p1 < 8 {
                None
            } else {
                match dec_pval_seq(b, p1 + 8, dec_be(b, p1, 8)) {
                    Option::None => None,
                    Option::Some((es, p)) => Some((PValueView::List(es), p)),
                }
            }
        } else if tag == 16 {
            if b.len() - p1 < 8 {
                None
            } else {
                match dec_pval_seq(b, p1 + 8, dec_be(b, p1, 8)) {
                    Option::None => None,
                    Option::Some((es, p)) => Some((PValueView::SetOf(es), p)),
                }
            }
        } else if tag == 17 {
            if b.len() - p1 < 8 {
                None
            } else {
                match dec_entries(b, p1 + 8, dec_be(b, p1, 8)) {
                    Option::None => None,
                    Option::Some((ps, p)) => Some((PValueView::MapOf(ps), p)),
                }
            }
        } else {
            None
        }
    }
}

/// Decode `n` values in sequence, starting at `pos`.
pub open spec fn dec_pval_seq(b: Seq<u8>, pos: int, n: nat) -> Option<(Seq<PValueView>, int)>
    decreases b.len() - pos, 1int, n,
{
    if n == 0 {
        Some((Seq::empty(), pos))
    } else if pos < 0 || pos > b.len() {
        None
    } else {
        match dec_pval(b, pos) {
            Option::None => None,
            Option::Some((v, p2)) => {
                if !(pos < p2 <= b.len()) {
                    None
                } else {
                    match dec_pval_seq(b, p2, (n - 1) as nat) {
                        Option::None => None,
                        Option::Some((vs, p3)) => Some((seq![v] + vs, p3)),
                    }
                }
            },
        }
    }
}

/// Decode `n` parameter entries, key before value, starting at `pos`.
pub open spec fn dec_entries(b: Seq<u8>, pos: int, n: nat) -> Option<
    (Seq<(Seq<char>, PValueView)>, int),
>
    decreases b.len() - pos, 1int, n,
{
    if n == 0 {
        Some((Seq::empty(), pos))
    } else if pos < 0 || pos > b.len() {
        None
    } else {
        match dec_str(b, pos) {
            Option::None => None,
            Option::Some((k, p2)) => {
                if !(pos < p2 <= b.len()) {
                    None
                } else {
                    match dec_pval(b, p2) {
                        Option::None => None,
                        Option::Some((v, p3)) => {
                            if !(p2 < p3 <= b.len()) {
                                None
                            } else {
                                match dec_entries(b, p3, (n - 1) as nat) {
                                    Option::None => None,
                                    Option::Some((ps, p4)) => Some((seq![(k, v)] + ps, p4)),
                                }
                            }
                        },
                    }
                }
            },
        }
    }
}

/// Decode a vertex at `pos`.
pub open spec fn dec_vertex(b: Seq<u8>, pos: int) -> Option<(VertexView, int)>
    decreases b.len() - pos, 0int, 0nat,
{
    if pos < 0 || pos > b.len() {
        None
    } else {
        match dec_opt_id(b, pos) {
            Option::None => None,
            Option::Some((oid, p1)) => {
                if !(pos < p1 <= b.len()) {
                    None
                } else {
                    match dec_str(b, p1) {
                        Option::None => None,
                        Option::Some((label, p2)) => {
                            if !(p1 < p2 <= b.len()) || b.len() - p2 < 8 {
                                None
                            } else {
                                match dec_entries(b, p2 + 8, dec_be(b, p2, 8)) {
                                    Option::None => None,
                                    Option::Some((ps, p3)) => Some(
                                        (VertexView { id: oid, label, params: ps }, p3),
                                    ),
                                }
                            }
                        },
                    }
                }
            },
        }
    }
}

/// Decode an edge at `pos`.
pub open spec fn dec_edge(b: Seq<u8>, pos: int) -> Option<(EdgeView, int)>
    decreases b.len() - pos, 0int, 0nat,
{
    if pos < 0 || pos > b.len() {
        None
    } else {
        match dec_opt_id(b, pos) {
            Option::None => None,
            Option::Some((oid, p1)) => {
                if !(pos < p1 <= b.len()) {
                    None
                } else {
                    match dec_id(b, p1) {
                        Option::None => None,
                        Option::Some((to, p2)) => {
                            match dec_id(b, p2) {
                                Option::None => None,
                                Option::Some((from, p3)) => {
                                    match dec_str(b, p3) {
                                        Option::None => None,
                                        Option::Some((label, p4)) => {
                                            if !(p3 < p4 <= b.len()) || b.len() - p4 < 8 {
                                                None
                                            } else {
                                                match dec_entries(b, p4 + 8, dec_be(b, p4, 8)) {
                                                    Option::None => None,
                                                    Option::Some((ps, p5)) => Some((
                                                        EdgeView {
                                                            id: oid,
                                                            to: to,
                                                            from: from,
                                                            label,
                                                            params: ps,
                                                        },
                                                        p5,
                                                    )),
                                                }
                                            }
                                        },
                                    }
                                },
                            }
                        },
                    }
                }
            },
        }
    }
}


/// Extending a prefix of the sequence by one element appends that
/// element's encoding.
pub proof fn lemma_enc_pval_seq_take(es: Seq<PValueView>, i: int)
    requires
        0 <= i < es.len(),
    ensures
        enc_pval_seq(es.take(i + 1)) == enc_pval_seq(es.take(i)) + enc_pval(es[i]),
    decreases i,
{
    let a = es.take(i + 1);
    let c = es.take(i);
    if i == 0 {
        assert(a[0] == es[0]);
        assert(a.drop_first() =~= Seq::<PValueView>::empty());
        assert(c =~= Seq::<PValueView>::empty());
        assert(enc_pval_seq(a) =~= enc_pval_seq(c) + enc_pval(es[0]));
    } else {
        let d = es.drop_first();
        lemma_enc_pval_seq_take(d, i - 1);
        assert(a[0] == es[0] && c[0] == es[0]);
        assert(a.drop_first() =~= d.take(i));
        assert(c.drop_first() =~= d.take(i - 1));
        assert(d[i - 1] == es[i]);
        assert(enc_pval_seq(a) =~= enc_pval_seq(c) + enc_pval(es[i]));
    }
}

/// Extending a prefix of the entries by one appends that entry's key
/// and value encodings.
pub proof fn lemma_enc_entries_take(ps: Seq<(Seq<char>, PValueView)>, i: int)
    requires
        0 <= i < ps.len(),
    ensures
        enc_entries(ps.take(i + 1)) == enc_entries(ps.take(i)) + enc_str(ps[i].0)
            + enc_pval(ps[i].1),
    decreases i,
{
    let a = ps.take(i + 1);
    let c = ps.take(i);
    if i == 0 {
        assert(a[0] == ps[0]);
        assert(a.drop_first() =~= Seq::<(Seq<char>, PValueView)>::empty());
        assert(c =~= Seq::<(Seq<char>, PValueView)>::empty());
        assert(enc_entries(a) =~= enc_entries(c) + enc_str(ps[0].0) + enc_pval(ps[0].1));
    } else {
        let d = ps.drop_first();
        lemma_enc_entries_take(d, i - 1);
        assert(a[0] == ps[0] && c[0] == ps[0]);
        assert(a.drop_first() =~= d.take(i));
        assert(c.drop_first() =~= d.take(i - 1));
        assert(d[i - 1] == ps[i]);
        assert(enc_entries(a) =~= enc_entries(c) + enc_str(ps[i].0) + enc_pval(ps[i].1));
    }
}

/// Encode a value: a tag byte, then the variant's payload.
pub fn encode_pval(pv: &PValue) -> (r: Vec<u8>)
    ensures
        r@ == enc_pval(pv@),
    decreases *pv,
{
    let mut r: Vec<u8> = Vec::new();
    match pv {
        PValue::Null => {
            r.push(0u8);
            proof {
                assert(r@ =~= enc_pval(pv@));
            }
        },
        PValue::Vertex(v) => {
            r.push(1u8);
            let mut payload = encode_vertex(v);
            r.append(&mut payload);
            proof {
                assert(r@ =~= enc_pval(pv@));
            }
        },
        PValue::Edge(e) => {
            r.push(2u8);
            let mut payload = encode_edge(e);
            r.append(&mut payload);
            proof {
                assert(r@ =~= enc_pval(pv@));
            }
        },
        PValue::Id(i) => {
            r.push(3u8);
            let mut payload = encode_id(i);
            r.append(&mut payload);
            proof {
                assert(r@ =~= enc_pval(pv@));
            }
        },
        PValue::Ulid(u) => {
            r.push(4u8);
            let mut payload = encode_be(*u, 16);
            r.append(&mut payload);
            proof {
                assert(r@ =~= enc_pval(pv@));
            }
        },
        PValue::Type(t) => {
            r.push(5u8);
            r.push(encode_type_tag(t));
            proof {
                assert(r@ =~= enc_pval(pv@));
            }
        },
        PValue::I32(x) => {
            r.push(6u8);
            let mut payload = encode_be(off_i32(*x) as u128, 4);
            r.append(&mut payload);
            proof {
                assert(r@ =~= enc_pval(pv@));
            }
        },
        PValue::I64(x) => {
            r.push(7u8);
            let mut payload = encode_be(off_i64(*x) as u128, 8);
            r.append(&mut payload);
            proof {
                assert(r@ =~= enc_pval(pv@));
            }
        },
        PValue::I128(x) => {
            r.push(8u8);
            let mut payload = encode_be(off_i128(*x), 16);
            r.append(&mut payload);
            proof {
                assert(r@ =~= enc_pval(pv@));
            }
        },
        PValue::F32(x) => {
            r.push(9u8);
            let mut payload = encode_be(*x as u128, 4);
            r.append(&mut payload);
            proof {
                assert(r@ =~= enc_pval(pv@));
            }
        },
        PValue::F64(x) => {
            r.push(10u8);
            let mut payload = encode_be(*x as u128, 8);
            r.append(&mut payload);
            proof {
                assert(r@ =~= enc_pval(pv@));
            }
        },
        PValue::Date(x) => {
            r.push(11u8);
            let mut payload = encode_be(off_i64(*x) as u128, 8);
            r.append(&mut payload);
            proof {
                assert(r@ =~= enc_pval(pv@));
            }
        },
        PValue::Token(s) => {
            r.push(12u8);
            let mut payload = encode_str(s.as_str());
            r.append(&mut payload);
            proof {
                assert(r@ =~= enc_pval(pv@));
            }
        },
        PValue::String(s) => {
            r.push(13u8);
            let mut payload = encode_str(s.as_str());
            r.append(&mut payload);
            proof {
                assert(r@ =~= enc_pval(pv@));
            }
        },
        PValue::Bool(v) => {
            r.push(14u8);
            r.push(if *v { 1u8 } else { 0u8 });
            proof {
                assert(r@ =~= enc_pval(pv@));
            }
        },
        PValue::List(es) => {
            r.push(15u8);
            let mut payload = encode_pval_list(es);
            r.append(&mut payload);
            proof {
                assert(r@ =~= enc_pval(pv@));
            }
        },
        PValue::SetOf(es) => {
            r.push(16u8);
            let mut payload = encode_pval_list(es);
            r.append(&mut payload);
            proof {
                assert(r@ =~= enc_pval(pv@));
            }
        },
        PValue::MapOf(ps) => {
            r.push(17u8);
            let mut payload = encode_entry_list(ps);
            r.append(&mut payload);
            proof {
                assert(r@ =~= enc_pval(pv@));
            }
        },
    }
    r
}

/// Encode a counted list of values: 8 count bytes, then each element.
fn encode_pval_list(es: &Vec<PValue>) -> (r: Vec<u8>)
    ensures
        r@ == enc_be(pv_list_view(es@).len(), 8) + enc_pval_seq(pv_list_view(es@)),
    decreases es@,
{
    proof {
        crate::pvalue::lemma_pv_list_view_elts(es@);
    }
    let n = es.len();
    let mut r = encode_be(n as u128, 8);
    let ghost vs = pv_list_view(es@);
    let ghost count = r@;
    for i in 0..n
        invariant
            n == es@.len(),
            vs == pv_list_view(es@),
            vs.len() == n,
            forall|j: int| 0 <= j < n ==> vs[j] == crate::pvalue::pv_view(es@[j]),
            count == enc_be(vs.len(), 8),
            r@ == count + enc_pval_seq(vs.take(i as int)),
        decreases n - i,
    {
        proof {
            assert(decreases_to!(es@ => es@[i as int]));
        }
        let mut one = encode_pval(&es[i]);
        r.append(&mut one);
        proof {
            lemma_enc_pval_seq_take(vs, i as int);
        }
    }
    proof {
        assert(vs.take(n as int) =~= vs);
    }
    r
}

/// Encode a counted list of parameter entries: 8 count bytes, then each
/// key and value.
fn encode_entry_list(ps: &Vec<(String, PValue)>) -> (r: Vec<u8>)
    ensures
        r@ == enc_be(params_view(ps@).len(), 8) + enc_entries(params_view(ps@)),
    decreases ps@,
{
    proof {
        crate::pvalue::lemma_params_view_elts(ps@);
    }
    let n = ps.len();
    let mut r = encode_be(n as u128, 8);
    let ghost vs = params_view(ps@);
    let ghost count = r@;
    for i in 0..n
        invariant
            n == ps@.len(),
            vs == params_view(ps@),
            vs.len() == n,
            forall|j: int| 0 <= j < n ==> vs[j] == (ps@[j].0@, crate::pvalue::pv_view(ps@[j].1)),
            count == enc_be(vs.len(), 8),
            r@ == count + enc_entries(vs.take(i as int)),
        decreases n - i,
    {
        let mut key = encode_str(ps[i].0.as_str());
        r.append(&mut key);
        proof {
            assert(decreases_to!(ps@ => ps@[i as int].1));
        }
        let mut one = encode_pval(&ps[i].1);
        r.append(&mut one);
        proof {
            lemma_enc_entries_take(vs, i as int);
            assert(r@ =~= count + enc_entries(vs.take(i + 1)));
        }
    }
    proof {
        assert(vs.take(n as int) =~= vs);
    }
    r
}

/// Encode a vertex payload.
pub fn encode_vertex(v: &Vertex) -> (r: Vec<u8>)
    ensures
        r@ == enc_vertex(v@),
    decreases *v,
{
    let mut r = encode_opt_id(&v.id);
    let mut label = encode_str(v.label.as_str());
    r.append(&mut label);
    proof {
        assert(decreases_to!(*v => v.parameters@));
    }
    let mut entries = encode_entry_list(&v.parameters);
    r.append(&mut entries);
    proof {
        assert(r@ =~= enc_vertex(v@));
    }
    r
}

/// Encode an edge payload.
pub fn encode_edge(e: &Edge) -> (r: Vec<u8>)
    ensures
        r@ == enc_edge(e@),
    decreases *e,
{
    let mut r = encode_opt_id(&e.id);
    let mut to = encode_id(&e.to);
    r.append(&mut to);
    let mut from = encode_id(&e.from);
    r.append(&mut from);
    let mut label = encode_str(e.label.as_str());
    r.append(&mut label);
    proof {
        assert(decreases_to!(*e => e.parameters@));
    }
    let mut entries = encode_entry_list(&e.parameters);
    r.append(&mut entries);
    proof {
        assert(r@ =~= enc_edge(e@));
    }
    r
}


/// Decode a value at `pos`.
pub fn decode_pval(b: &Vec<u8>, pos: usize) -> (r: Option<(PValue, usize)>)
    requires
        pos <= b@.len(),
    ensures
        r matches Some((v, p)) ==> dec_pval(b@, pos as int) == Some((v@, p as int))
            && pos < p <= b@.len(),
        r is None ==> dec_pval(b@, pos as int) is None,
    decreases b@.len() - pos, 0int, 0nat,
{
    let len = b.len();
    if len - pos < 1 {
        return None;
    }
    let tag = b[pos];
    let p1 = pos + 1;
    if tag == 0 {
        Some((PValue::Null, p1))
    } else if tag == 1 {
        match decode_vertex(b, p1) {
            None => None,
            Some((v, p)) => Some((PValue::Vertex(v), p)),
        }
    } else if tag == 2 {
        match decode_edge(b, p1) {
            None => None,
            Some((e, p)) => Some((PValue::Edge(e), p)),
        }
    } else if tag == 3 {
        match decode_id(b, p1) {
            None => None,
            Some((i, p)) => Some((PValue::Id(i), p)),
        }
    } else if tag == 4 {
        if len - p1 < 16 {
            None
        } else {
            let u = decode_be(b, p1, 16);
            proof {
                lemma_dec_be_bound(b@, p1 as int, 16);
                lemma_pow256_16();
            }
            Some((PValue::Ulid(u), p1 + 16))
        }
    } else if tag == 5 {
        if len - p1 < 1 {
            None
        } else {
            match decode_type_tag(b[p1]) {
                None => None,
                Some(t) => Some((PValue::Type(t), p1 + 1)),
            }
        }
    } else if tag == 6 {
        if len - p1 < 4 {
            None
        } else {
            let u = decode_be(b, p1, 4);
            proof {
                lemma_dec_be_bound(b@, p1 as int, 4);
                lemma_pow256_increases(4, 16);
                lemma_pow256_16();
                reveal_with_fuel(pow256, 5);
            }
            Some((PValue::I32(unoff_i32(u as u32)), p1 + 4))
        }
    } else if tag == 7 {
        if len - p1 < 8 {
            None
        } else {
            let u = decode_be(b, p1, 8);
            proof {
                lemma_dec_be_bound(b@, p1 as int, 8);
                reveal_with_fuel(pow256, 9);
            }
            Some((PValue::I64(unoff_i64(u as u64)), p1 + 8))
        }
    } else if tag == 8 {
        if len - p1 < 16 {
            None
        } else {
            let u = decode_be(b, p1, 16);
            proof {
                lemma_dec_be_bound(b@, p1 as int, 16);
                lemma_pow256_16();
            }
            Some((PValue::I128(unoff_i128(u)), p1 + 16))
        }
    } else if tag == 9 {
        if len - p1 < 4 {
            None
        } else {
            let u = decode_be(b, p1, 4);
            proof {
                lemma_dec_be_bound(b@, p1 as int, 4);
                reveal_with_fuel(pow256, 5);
            }
            Some((PValue::F32(u as u32), p1 + 4))
        }
    } else if tag == 10 {
        if len - p1 < 8 {
            None
        } else {
            let u = decode_be(b, p1, 8);
            proof {
                lemma_dec_be_bound(b@, p1 as int, 8);
                reveal_with_fuel(pow256, 9);
            }
            Some((PValue::F64(u as u64), p1 + 8))
        }
    } else if tag == 11 {
        if len - p1 < 8 {
            None
        } else {
            let u = decode_be(b, p1, 8);
            proof {
                lemma_dec_be_bound(b@, p1 as int, 8);
                reveal_with_fuel(pow256, 9);
            }
            Some((PValue::Date(unoff_i64(u as u64)), p1 + 8))
        }
    } else if tag == 12 {
        match decode_str(b, p1) {
            None => None,
            Some((s, p)) => Some((PValue::Token(s), p)),
        }
    } else if tag == 13 {
        match decode_str(b, p1) {
            None => None,
            Some((s, p)) => Some((PValue::String(s), p)),
        }
    } else if tag == 14 {
        if len - p1 < 1 {
            None
        } else if b[p1] == 0 {
            Some((PValue::Bool(false), p1 + 1))
        } else if b[p1] == 1 {
            Some((PValue::Bool(true), p1 + 1))
        } else {
            None
        }
    } else if tag == 15 {
        if len - p1 < 8 {
            None
        } else {
            let n = decode_count(b, p1);
            match decode_pval_list(b, p1 + 8, n) {
                None => None,
                Some((es, p)) => Some((PValue::List(es), p)),
            }
        }
    } else if tag == 16 {
        if len - p1 < 8 {
            None
        } else {
            let n = decode_count(b, p1);
            match decode_pval_list(b, p1 + 8, n) {
                None => None,
                Some((es, p)) => Some((PValue::SetOf(es), p)),
            }
        }
    } else if tag == 17 {
        if len - p1 < 8 {
            None
        } else {
            let n = decode_count(b, p1);
            match decode_entry_list(b, p1 + 8, n) {
                None => None,
                Some((ps, p)) => Some((PValue::MapOf(ps), p)),
            }
        }
    } else {
        None
    }
}

/// Decode an 8-byte element count.
fn decode_count(b: &Vec<u8>, pos: usize) -> (r: u64)
    requires
        pos + 8 <= b@.len(),
    ensures
        r as nat == dec_be(b@, pos as int, 8),
{
    let u = decode_be(b, pos, 8);
    proof {
        lemma_dec_be_bound(b@, pos as int, 8);
        reveal_with_fuel(pow256, 9);
    }
    u as u64
}

/// Decode `n` values in sequence, starting at `pos`.
fn decode_pval_list(b: &Vec<u8>, pos: usize, n: u64) -> (r: Option<(Vec<PValue>, usize)>)
    requires
        pos <= b@.len(),
    ensures
        r matches Some((vs, p)) ==> dec_pval_seq(b@, pos as int, n as nat)
            == Some((pv_list_view(vs@), p as int)) && pos <= p <= b@.len(),
        r is None ==> dec_pval_seq(b@, pos as int, n as nat) is None,
    decreases b@.len() - pos, 1int, n,
{
    if n == 0 {
        let vs: Vec<PValue> = Vec::new();
        proof {
            assert(pv_list_view(vs@) =~= Seq::<PValueView>::empty());
        }
        return Some((vs, pos));
    }
    match decode_pval(b, pos) {
        None => None,
        Some((v, p2)) => {
            match decode_pval_list(b, p2, n - 1) {
                None => None,
                Some((vs, p3)) => {
                    let mut vs = vs;
                    let ghost old_vs = vs@;
                    vs.insert(0, v);
                    proof {
                        assert(vs@.drop_first() =~= old_vs);
                        assert(vs@[0] == v);
                        crate::pvalue::lemma_pv_list_view_elts(vs@);
                        crate::pvalue::lemma_pv_list_view_elts(old_vs);
                        assert(pv_list_view(vs@) =~= seq![v@] + pv_list_view(old_vs));
                    }
                    Some((vs, p3))
                },
            }
        },
    }
}

/// Decode `n` parameter entries, starting at `pos`.
fn decode_entry_list(b: &Vec<u8>, pos: usize, n: u64) -> (r: Option<
    (Vec<(String, PValue)>, usize),
>)
    requires
        pos <= b@.len(),
    ensures
        r matches Some((ps, p)) ==> dec_entries(b@, pos as int, n as nat)
            == Some((params_view(ps@), p as int)) && pos <= p <= b@.len(),
        r is None ==> dec_entries(b@, pos as int, n as nat) is None,
    decreases b@.len() - pos, 1int, n,
{
    if n == 0 {
        let ps: Vec<(String, PValue)> = Vec::new();
        proof {
            assert(params_view(ps@) =~= Seq::<(Seq<char>, PValueView)>::empty());
        }
        return Some((ps, pos));
    }
    match decode_str(b, pos) {
        None => None,
        Some((k, p2)) => {
            match decode_pval(b, p2) {
                None => None,
                Some((v, p3)) => {
                    match decode_entry_list(b, p3, n - 1) {
                        None => None,
                        Some((ps, p4)) => {
                            let ghost kv = k@;
                            let ghost vv = v@;
                            let mut ps = ps;
                            let ghost old_ps = ps@;
                            ps.insert(0, (k, v));
                            proof {
                                assert(ps@.drop_first() =~= old_ps);
                                assert(ps@[0].0@ == kv && ps@[0].1 == v);
                                crate::pvalue::lemma_params_view_elts(ps@);
                                crate::pvalue::lemma_params_view_elts(old_ps);
                                assert(params_view(ps@) =~= seq![(kv, vv)] + params_view(old_ps));
                            }
                            Some((ps, p4))
                        },
                    }
                },
            }
        },
    }
}

/// Decode a vertex payload at `pos`.
pub fn decode_vertex(b: &Vec<u8>, pos: usize) -> (r: Option<(Vertex, usize)>)
    requires
        pos <= b@.len(),
    ensures
        r matches Some((v, p)) ==> dec_vertex(b@, pos as int) == Some((v@, p as int))
            && pos < p <= b@.len(),
        r is None ==> dec_vertex(b@, pos as int) is None,
    decreases b@.len() - pos, 0int, 0nat,
{
    let len = b.len();
    match decode_opt_id(b, pos) {
        None => None,
        Some((oid, p1)) => {
            match decode_str(b, p1) {
                None => None,
                Some((label, p2)) => {
                    if len - p2 < 8 {
                        None
                    } else {
                        let n = decode_count(b, p2);
                        match decode_entry_list(b, p2 + 8, n) {
                            None => None,
                            Some((ps, p3)) => Some(
                                (Vertex { id: oid, label, parameters: ps }, p3),
                            ),
                        }
                    }
                },
            }
        },
    }
}

/// Decode an edge payload at `pos`.
pub fn decode_edge(b: &Vec<u8>, pos: usize) -> (r: Option<(Edge, usize)>)
    requires
        pos <= b@.len(),
    ensures
        r matches Some((e, p)) ==> dec_edge(b@, pos as int) == Some((e@, p as int))
            && pos < p <= b@.len(),
        r is None ==> dec_edge(b@, pos as int) is None,
    decreases b@.len() - pos, 0int, 0nat,
{
    let len = b.len();
    match decode_opt_id(b, pos) {
        None => None,
        Some((oid, p1)) => {
            match decode_id(b, p1) {
                None => None,
                Some((to, p2)) => {
                    match decode_id(b, p2) {
                        None => None,
                        Some((from, p3)) => {
                            match decode_str(b, p3) {
                                None => None,
                                Some((label, p4)) => {
                                    if len - p4 < 8 {
                                        None
                                    } else {
                                        let n = decode_count(b, p4);
                                        match decode_entry_list(b, p4 + 8, n) {
                                            None => None,
                                            Some((ps, p5)) => Some((
                                                Edge {
                                                    id: oid,
                                                    to,
                                                    from,
                                                    label,
                                                    parameters: ps,
                                                },
                                                p5,
                                            )),
                                        }
                                    }
                                },
                            }
                        },
                    }
                },
            }
        },
    }
}


/// Every value encoding starts with its tag byte and is nonempty.
pub proof fn lemma_enc_pval_min_len(pv: PValueView)
    ensures
        enc_pval(pv).len() >= 1,
{
    match pv {
        PValueView::Null => {},
        PValueView::Vertex(v) => {},
        PValueView::Edge(e) => {},
        PValueView::Id(i) => {},
        PValueView::Ulid(u) => {},
        PValueView::Type(t) => {},
        PValueView::I32(x) => {},
        PValueView::I64(x) => {},
        PValueView::I128(x) => {},
        PValueView::F32(x) => {},
        PValueView::F64(x) => {},
        PValueView::Date(x) => {},
        PValueView::Token(s) => {},
        PValueView::String(s) => {},
        PValueView::Bool(v) => {},
        PValueView::List(es) => {},
        PValueView::SetOf(es) => {},
        PValueView::MapOf(ps) => {},
    }
}

/// Decoding the value an encoder wrote gives the value back.
#[verifier::rlimit(100)]
#[verifier::spinoff_prover]
pub proof fn lemma_dec_enc_pval(b: Seq<u8>, pos: int, pv: PValueView)
    requires
        0 <= pos,
        pv_fits(pv),
        pos + enc_pval(pv).len() <= b.len(),
        b.subrange(pos, pos + enc_pval(pv).len()) == enc_pval(pv),
    ensures
        dec_pval(b, pos) == Some((pv, pos + enc_pval(pv).len())),
    decreases pv, 0nat,
{
    let e = enc_pval(pv);
    lemma_enc_pval_min_len(pv);
    assert(b[pos] == e[0]) by {
        assert(b.subrange(pos, pos + e.len())[0] == e[0]);
    }
    let p1 = pos + 1;
    match pv {
        PValueView::Null => {},
        PValueView::Vertex(v) => {
            assert(e =~= seq![1u8] + enc_vertex(v));
            lemma_bytes_split(b, pos, seq![1u8], enc_vertex(v));
            lemma_dec_enc_vertex(b, p1, v);
        },
        PValueView::Edge(ed) => {
            assert(e =~= seq![2u8] + enc_edge(ed));
            lemma_bytes_split(b, pos, seq![2u8], enc_edge(ed));
            lemma_dec_enc_edge(b, p1, ed);
        },
        PValueView::Id(i) => {
            assert(e =~= seq![3u8] + enc_id(i));
            lemma_bytes_split(b, pos, seq![3u8], enc_id(i));
            lemma_enc_id_len(i);
            lemma_dec_enc_id(b, p1, i);
        },
        PValueView::Ulid(u) => {
            assert(e =~= seq![4u8] + enc_be(u as nat, 16));
            lemma_bytes_split(b, pos, seq![4u8], enc_be(u as nat, 16));
            lemma_enc_be_len(u as nat, 16);
            lemma_pow256_16();
            lemma_dec_enc_be(b, p1, u as nat, 16);
        },
        PValueView::Type(t) => {
            assert(e =~= seq![5u8] + seq![type_tag(t)]);
            lemma_bytes_split(b, pos, seq![5u8], seq![type_tag(t)]);
            assert(b[p1] == b.subrange(p1, p1 + 1)[0]);
        },
        PValueView::I32(x) => {
            assert(e =~= seq![6u8] + enc_be(i32_off(x), 4));
            lemma_bytes_split(b, pos, seq![6u8], enc_be(i32_off(x), 4));
            lemma_enc_be_len(i32_off(x), 4);
            reveal_with_fuel(pow256, 5);
            lemma_dec_enc_be(b, p1, i32_off(x), 4);
        },
        PValueView::I64(x) => {
            assert(e =~= seq![7u8] + enc_be(i64_off(x), 8));
            lemma_bytes_split(b, pos, seq![7u8], enc_be(i64_off(x), 8));
            lemma_enc_be_len(i64_off(x), 8);
            reveal_with_fuel(pow256, 9);
            lemma_dec_enc_be(b, p1, i64_off(x), 8);
        },
        PValueView::I128(x) => {
            assert(e =~= seq![8u8] + enc_be(i128_off(x), 16));
            lemma_bytes_split(b, pos, seq![8u8], enc_be(i128_off(x), 16));
            lemma_enc_be_len(i128_off(x), 16);
            lemma_pow256_16();
            lemma_dec_enc_be(b, p1, i128_off(x), 16);
        },
        PValueView::F32(x) => {
            assert(e =~= seq![9u8] + enc_be(x as nat, 4));
            lemma_bytes_split(b, pos, seq![9u8], enc_be(x as nat, 4));
            lemma_enc_be_len(x as nat, 4);
            reveal_with_fuel(pow256, 5);
            lemma_dec_enc_be(b, p1, x as nat, 4);
        },
        PValueView::F64(x) => {
            assert(e =~= seq![10u8] + enc_be(x as nat, 8));
            lemma_bytes_split(b, pos, seq![10u8], enc_be(x as nat, 8));
            lemma_enc_be_len(x as nat, 8);
            reveal_with_fuel(pow256, 9);
            lemma_dec_enc_be(b, p1, x as nat, 8);
        },
        PValueView::Date(x) => {
            assert(e =~= seq![11u8] + enc_be(i64_off(x), 8));
            lemma_bytes_split(b, pos, seq![11u8], enc_be(i64_off(x), 8));
            lemma_enc_be_len(i64_off(x), 8);
            reveal_with_fuel(pow256, 9);
            lemma_dec_enc_be(b, p1, i64_off(x), 8);
        },
        PValueView::Token(s) => {
            assert(e =~= seq![12u8] + enc_str(s));
            lemma_bytes_split(b, pos, seq![12u8], enc_str(s));
            lemma_dec_enc_str(b, p1, s);
        },
        PValueView::String(s) => {
            assert(e =~= seq![13u8] + enc_str(s));
            lemma_bytes_split(b, pos, seq![13u8], enc_str(s));
            lemma_dec_enc_str(b, p1, s);
        },
        PValueView::Bool(v) => {
            assert(e =~= seq![14u8] + enc_bool(v));
            lemma_bytes_split(b, pos, seq![14u8], enc_bool(v));
            assert(b[p1] == b.subrange(p1, p1 + 1)[0]);
        },
        PValueView::List(es) => {
            assert(e =~= seq![15u8] + (enc_be(es.len(), 8) + enc_pval_seq(es)));
            lemma_bytes_split(b, pos, seq![15u8], enc_be(es.len(), 8) + enc_pval_seq(es));
            lemma_enc_be_len(es.len(), 8);
            lemma_bytes_split(b, p1, enc_be(es.len(), 8), enc_pval_seq(es));
            lemma_dec_enc_be(b, p1, es.len(), 8);
            lemma_dec_enc_pval_seq(b, p1 + 8, es);
        },
        PValueView::SetOf(es) => {
            assert(e =~= seq![16u8] + (enc_be(es.len(), 8) + enc_pval_seq(es)));
            lemma_bytes_split(b, pos, seq![16u8], enc_be(es.len(), 8) + enc_pval_seq(es));
            lemma_enc_be_len(es.len(), 8);
            lemma_bytes_split(b, p1, enc_be(es.len(), 8), enc_pval_seq(es));
            lemma_dec_enc_be(b, p1, es.len(), 8);
            lemma_dec_enc_pval_seq(b, p1 + 8, es);
        },
        PValueView::MapOf(ps) => {
            assert(e =~= seq![17u8] + (enc_be(ps.len(), 8) + enc_entries(ps)));
            lemma_bytes_split(b, pos, seq![17u8], enc_be(ps.len(), 8) + enc_entries(ps));
            lemma_enc_be_len(ps.len(), 8);
            lemma_bytes_split(b, p1, enc_be(ps.len(), 8), enc_entries(ps));
            lemma_dec_enc_be(b, p1, ps.len(), 8);
            lemma_dec_enc_entries(b, p1 + 8, ps);
        },
    }
}

/// Decoding the sequence an encoder wrote gives the elements back.
pub proof fn lemma_dec_enc_pval_seq(b: Seq<u8>, pos: int, es: Seq<PValueView>)
    requires
        0 <= pos,
        pval_seq_fits(es),
        pos + enc_pval_seq(es).len() <= b.len(),
        b.subrange(pos, pos + enc_pval_seq(es).len()) == enc_pval_seq(es),
    ensures
        dec_pval_seq(b, pos, es.len()) == Some((es, pos + enc_pval_seq(es).len())),
    decreases es, 1nat,
{
    if es.len() == 0 {
        assert(dec_pval_seq(b, pos, 0) == Some((Seq::<PValueView>::empty(), pos)));
        assert(Seq::<PValueView>::empty() =~= es);
    } else {
        let head = es[0];
        let tail = es.drop_first();
        assert(enc_pval_seq(es) == enc_pval(head) + enc_pval_seq(tail));
        lemma_bytes_split(b, pos, enc_pval(head), enc_pval_seq(tail));
        lemma_dec_enc_pval(b, pos, head);
        lemma_enc_pval_min_len(head);
        let p2 = pos + enc_pval(head).len();
        lemma_dec_enc_pval_seq(b, p2, tail);
        assert(seq![head] + tail =~= es);
    }
}

/// Decoding the entries an encoder wrote gives them back.
pub proof fn lemma_dec_enc_entries(b: Seq<u8>, pos: int, ps: Seq<(Seq<char>, PValueView)>)
    requires
        0 <= pos,
        entries_fit(ps),
        pos + enc_entries(ps).len() <= b.len(),
        b.subrange(pos, pos + enc_entries(ps).len()) == enc_entries(ps),
    ensures
        dec_entries(b, pos, ps.len()) == Some((ps, pos + enc_entries(ps).len())),
    decreases ps, 1nat,
{
    if ps.len() == 0 {
        assert(dec_entries(b, pos, 0) == Some((Seq::<(Seq<char>, PValueView)>::empty(), pos)));
        assert(Seq::<(Seq<char>, PValueView)>::empty() =~= ps);
    } else {
        let (k, v) = ps[0];
        let tail = ps.drop_first();
        assert(enc_entries(ps) == enc_str(k) + enc_pval(v) + enc_entries(tail));
        assert(enc_entries(ps) =~= enc_str(k) + (enc_pval(v) + enc_entries(tail)));
        lemma_bytes_split(b, pos, enc_str(k), enc_pval(v) + enc_entries(tail));
        lemma_dec_enc_str(b, pos, k);
        let p2 = pos + enc_str(k).len();
        lemma_bytes_split(b, p2, enc_pval(v), enc_entries(tail));
        lemma_dec_enc_pval(b, p2, v);
        lemma_enc_pval_min_len(v);
        let p3 = p2 + enc_pval(v).len();
        lemma_dec_enc_entries(b, p3, tail);
        assert(seq![(k, v)] + tail =~= ps);
        assert(enc_str(k).len() >= 8) by {
            lemma_enc_be_len(encode_utf8(k).len(), 8);
        }
    }
}

/// Decoding the vertex an encoder wrote gives the vertex back.
#[verifier::rlimit(100)]
#[verifier::spinoff_prover]
pub proof fn lemma_dec_enc_vertex(b: Seq<u8>, pos: int, v: VertexView)
    requires
        0 <= pos,
        vertex_fits(v),
        pos + enc_vertex(v).len() <= b.len(),
        b.subrange(pos, pos + enc_vertex(v).len()) == enc_vertex(v),
    ensures
        dec_vertex(b, pos) == Some((v, pos + enc_vertex(v).len())),
    decreases v, 1nat,
{
    let oid = enc_opt_id(v.id);
    let lab = enc_str(v.label);
    let cnt = enc_be(v.params.len(), 8);
    let ent = enc_entries(v.params);
    assert(enc_vertex(v) =~= oid + (lab + (cnt + ent)));
    lemma_bytes_split(b, pos, oid, lab + (cnt + ent));
    lemma_dec_enc_opt_id(b, pos, v.id);
    let p1 = pos + oid.len();
    lemma_bytes_split(b, p1, lab, cnt + ent);
    lemma_dec_enc_str(b, p1, v.label);
    let p2 = p1 + lab.len();
    lemma_bytes_split(b, p2, cnt, ent);
    lemma_enc_be_len(v.params.len(), 8);
    lemma_dec_enc_be(b, p2, v.params.len(), 8);
    lemma_dec_enc_entries(b, p2 + 8, v.params);
    assert(lab.len() >= 8) by {
        lemma_enc_be_len(encode_utf8(v.label).len(), 8);
    }
}

/// Decoding the edge an encoder wrote gives the edge back.
#[verifier::rlimit(100)]
#[verifier::spinoff_prover]
pub proof fn lemma_dec_enc_edge(b: Seq<u8>, pos: int, e: EdgeView)
    requires
        0 <= pos,
        edge_fits(e),
        pos + enc_edge(e).len() <= b.len(),
        b.subrange(pos, pos + enc_edge(e).len()) == enc_edge(e),
    ensures
        dec_edge(b, pos) == Some((e, pos + enc_edge(e).len())),
    decreases e, 1nat,
{
    let oid = enc_opt_id(e.id);
    let tob = enc_id(e.to);
    let frb = enc_id(e.from);
    let lab = enc_str(e.label);
    let cnt = enc_be(e.params.len(), 8);
    let ent = enc_entries(e.params);
    lemma_enc_id_len(e.to);
    lemma_enc_id_len(e.from);
    assert(enc_edge(e) =~= oid + (tob + (frb + (lab + (cnt + ent)))));
    lemma_bytes_split(b, pos, oid, tob + (frb + (lab + (cnt + ent))));
    lemma_dec_enc_opt_id(b, pos, e.id);
    let p1 = pos + oid.len();
    lemma_bytes_split(b, p1, tob, frb + (lab + (cnt + ent)));
    lemma_dec_enc_id(b, p1, e.to);
    let p2 = p1 + 17;
    lemma_bytes_split(b, p2, frb, lab + (cnt + ent));
    lemma_dec_enc_id(b, p2, e.from);
    let p3 = p2 + 17;
    lemma_bytes_split(b, p3, lab, cnt + ent);
    lemma_dec_enc_str(b, p3, e.label);
    let p4 = p3 + lab.len();
    lemma_bytes_split(b, p4, cnt, ent);
    lemma_enc_be_len(e.params.len(), 8);
    lemma_dec_enc_be(b, p4, e.params.len(), 8);
    lemma_dec_enc_entries(b, p4 + 8, e.params);
    assert(lab.len() >= 8) by {
        lemma_enc_be_len(encode_utf8(e.label).len(), 8);
    }
}

/// Round trip for ids: decoding an encoded id gives the id back, kind
/// tag preserved.
pub proof fn lemma_id_codec_round_trip(id: Id)
    ensures
        dec_id(enc_id(id), 0) == Some((id, 17int)),
{
    lemma_enc_id_len(id);
    assert(enc_id(id).subrange(0, 17) =~= enc_id(id));
    lemma_dec_enc_id(enc_id(id), 0, id);
}

/// Round trip for vertices: decoding an encoded vertex gives the vertex
/// back, label and parameters preserved.
pub proof fn lemma_vertex_codec_round_trip(v: VertexView)
    requires
        vertex_fits(v),
    ensures
        dec_vertex(enc_vertex(v), 0) == Some((v, enc_vertex(v).len() as int)),
{
    let b = enc_vertex(v);
    assert(b.subrange(0, b.len() as int) =~= b);
    lemma_dec_enc_vertex(b, 0, v);
}

/// Round trip for edges: decoding an encoded edge gives the edge back,
/// endpoints, label and parameters preserved.
pub proof fn lemma_edge_codec_round_trip(e: EdgeView)
    requires
        edge_fits(e),
    ensures
        dec_edge(enc_edge(e), 0) == Some((e, enc_edge(e).len() as int)),
{
    let b = enc_edge(e);
    assert(b.subrange(0, b.len() as int) =~= b);
    lemma_dec_enc_edge(b, 0, e);
}

/// Round trip for values: decoding an encoded value gives the value
/// back.
pub proof fn lemma_pvalue_codec_round_trip(pv: PValueView)
    requires
        pv_fits(pv),
    ensures
        dec_pval(enc_pval(pv), 0) == Some((pv, enc_pval(pv).len() as int)),
{
    let b = enc_pval(pv);
    assert(b.subrange(0, b.len() as int) =~= b);
    lemma_dec_enc_pval(b, 0, pv);
}


impl Id {
    /// The 17-byte form of this id.
    pub fn bytes_encode(&self) -> (r: Vec<u8>)
        ensures
            r@ == enc_id(*self),
            r@.len() == 17,
    {
        encode_id(self)
    }

    /// The id these bytes carry, when they are exactly one encoded id.
    pub fn bytes_decode(b: &Vec<u8>) -> (r: Option<Id>)
        ensures
            r matches Some(id) ==> dec_id(b@, 0) == Some((id, b@.len() as int)),
            r is None ==> (dec_id(b@, 0) is None
                || dec_id(b@, 0)->Some_0.1 != b@.len()),
    {
        match decode_id(b, 0) {
            Some((id, p)) => {
                if p == b.len() {
                    Some(id)
                } else {
                    None
                }
            },
            None => None,
        }
    }
}

impl Vertex {
    /// The value layout of this vertex, for primary storage.
    pub fn bytes_encode(&self) -> (r: Vec<u8>)
        ensures
            r@ == enc_vertex(self@),
    {
        encode_vertex(self)
    }

    /// The vertex these bytes carry, when they are exactly one encoded
    /// vertex.
    pub fn bytes_decode(b: &Vec<u8>) -> (r: Option<Vertex>)
        ensures
            r matches Some(v) ==> dec_vertex(b@, 0) == Some((v@, b@.len() as int)),
            r is None ==> (dec_vertex(b@, 0) is None
                || dec_vertex(b@, 0)->Some_0.1 != b@.len()),
    {
        match decode_vertex(b, 0) {
            Some((v, p)) => {
                if p == b.len() {
                    Some(v)
                } else {
                    None
                }
            },
            None => None,
        }
    }
}

impl Edge {
    /// The value layout of this edge, for primary storage.
    pub fn bytes_encode(&self) -> (r: Vec<u8>)
        ensures
            r@ == enc_edge(self@),
    {
        encode_edge(self)
    }

    /// The edge these bytes carry, when they are exactly one encoded
    /// edge.
    pub fn bytes_decode(b: &Vec<u8>) -> (r: Option<Edge>)
        ensures
            r matches Some(e) ==> dec_edge(b@, 0) == Some((e@, b@.len() as int)),
            r is None ==> (dec_edge(b@, 0) is None
                || dec_edge(b@, 0)->Some_0.1 != b@.len()),
    {
        match decode_edge(b, 0) {
            Some((e, p)) => {
                if p == b.len() {
                    Some(e)
                } else {
                    None
                }
            },
            None => None,
        }
    }
}

impl PValue {
    /// The tagged byte form of this value.
    pub fn bytes_encode(&self) -> (r: Vec<u8>)
        ensures
            r@ == enc_pval(self@),
    {
        encode_pval(self)
    }

    /// The value these bytes carry, when they are exactly one encoded
    /// value.
    pub fn bytes_decode(b: &Vec<u8>) -> (r: Option<PValue>)
        ensures
            r matches Some(v) ==> dec_pval(b@, 0) == Some((v@, b@.len() as int)),
            r is None ==> (dec_pval(b@, 0) is None
                || dec_pval(b@, 0)->Some_0.1 != b@.len()),
    {
        match decode_pval(b, 0) {
            Some((v, p)) => {
                if p == b.len() {
                    Some(v)
                } else {
                    None
                }
            },
            None => None,
        }
    }
}

/// The reverse (index) layout of a label-index entry's key: the label,
/// then the id.
pub open spec fn enc_label_id(label: Seq<char>, id: Id) -> Seq<u8> {
    enc_str(label) + enc_id(id)
}

/// Encode a label-index key.
pub fn label_id_to_db(label: &str, id: &Id) -> (r: Vec<u8>)
    ensures
        r@ == enc_label_id(label@, *id),
{
    let mut r = encode_str(label);
    let mut idb = encode_id(id);
    r.append(&mut idb);
    r
}

/// The reverse layout of a parameter binding's key: the owner id, then
/// the parameter key.
pub open spec fn enc_id_param(id: Id, key: Seq<char>) -> Seq<u8> {
    enc_id(id) + enc_str(key)
}

/// Encode a parameter-store key.
pub fn id_param_to_db(id: &Id, key: &str) -> (r: Vec<u8>)
    ensures
        r@ == enc_id_param(*id, key@),
{
    let mut r = encode_id(id);
    let mut kb = encode_str(key);
    r.append(&mut kb);
    r
}

/// The reverse layout of a parameter-index key: the parameter key, then
/// the owner id.
pub open spec fn enc_param_id(key: Seq<char>, id: Id) -> Seq<u8> {
    enc_str(key) + enc_id(id)
}

/// Encode a parameter-index key.
pub fn param_id_to_db(key: &str, id: &Id) -> (r: Vec<u8>)
    ensures
        r@ == enc_param_id(key@, *id),
{
    let mut r = encode_str(key);
    let mut idb = encode_id(id);
    r.append(&mut idb);
    r
}

/// Composite index keys group exactly by their first field: two
/// label-index keys are equal exactly when label and id both are, so a
/// scan that matches the encoded label prefix sees one label and every
/// id under it.
pub proof fn lemma_enc_label_id_injective(l1: Seq<char>, id1: Id, l2: Seq<char>, id2: Id)
    requires
        str_fits(l1),
        str_fits(l2),
        enc_label_id(l1, id1) == enc_label_id(l2, id2),
    ensures
        l1 == l2,
        id1 == id2,
{
    let b = enc_label_id(l1, id1);
    lemma_enc_id_len(id1);
    lemma_enc_id_len(id2);
    assert(b.subrange(0, enc_str(l1).len() as int) =~= enc_str(l1));
    lemma_dec_enc_str(b, 0, l1);
    assert(b.subrange(0, enc_str(l2).len() as int) =~= enc_str(l2)) by {
        assert(b == enc_str(l2) + enc_id(id2));
    }
    lemma_dec_enc_str(b, 0, l2);
    let p = enc_str(l1).len() as int;
    assert(b.subrange(p, p + 17) =~= enc_id(id1));
    lemma_dec_enc_id(b, p, id1);
    assert(b.subrange(p, p + 17) =~= enc_id(id2)) by {
        assert(enc_str(l2).len() == p);
        assert(b == enc_str(l2) + enc_id(id2));
    }
    lemma_dec_enc_id(b, p, id2);
}

/// The six permutations of the hexastore: every ordering of the edge
/// id and its two endpoints, named by which of To, From and Edge comes
/// first.
#[derive(Debug, Clone, Copy, PartialEq, Eq, Structural)]
pub enum HexOrder {
    TFE,
    FTE,
    ETF,
    EFT,
    TEF,
    FET,
}

/// The tag byte of a permutation.
pub open spec fn hex_tag(h: HexOrder) -> u8 {
    match h {
        HexOrder::TFE => 0,
        HexOrder::FTE => 1,
        HexOrder::ETF => 2,
        HexOrder::EFT => 3,
        HexOrder::TEF => 4,
        HexOrder::FET => 5,
    }
}

/// The ordered triple a permutation stores for an edge id and its two
/// endpoints.
pub open spec fn hex_triple(h: HexOrder, id: Id, to: Id, from: Id) -> (Id, Id, Id) {
    match h {
        HexOrder::TFE => (to, from, id),
        HexOrder::FTE => (from, to, id),
        HexOrder::ETF => (id, to, from),
        HexOrder::EFT => (id, from, to),
        HexOrder::TEF => (to, id, from),
        HexOrder::FET => (from, id, to),
    }
}

/// The hexastore key of a permutation: the permutation tag, then the
/// ordered triple.
pub open spec fn enc_hex_key(h: HexOrder, id: Id, to: Id, from: Id) -> Seq<u8> {
    let (a, b, c) = hex_triple(h, id, to, from);
    seq![hex_tag(h)] + enc_id(a) + enc_id(b) + enc_id(c)
}

impl HexOrder {
    /// The hexastore key this permutation produces for an edge id and
    /// its endpoints. Total; the `Result` mirrors the storage API.
    pub fn to_db(&self, id: Id, to: Id, from: Id) -> (r: Result<Vec<u8>, Error>)
        ensures
            r matches Ok(v) && v@ == enc_hex_key(*self, id, to, from),
    {
        let (a, b, c) = match self {
            HexOrder::TFE => (to, from, id),
            HexOrder::FTE => (from, to, id),
            HexOrder::ETF => (id, to, from),
            HexOrder::EFT => (id, from, to),
            HexOrder::TEF => (to, id, from),
            HexOrder::FET => (from, id, to),
        };
        let mut r: Vec<u8> = Vec::new();
        let tag = match self {
            HexOrder::TFE => 0u8,
            HexOrder::FTE => 1u8,
            HexOrder::ETF => 2u8,
            HexOrder::EFT => 3u8,
            HexOrder::TEF => 4u8,
            HexOrder::FET => 5u8,
        };
        r.push(tag);
        let mut ab = encode_id(&a);
        r.append(&mut ab);
        let mut bb = encode_id(&b);
        r.append(&mut bb);
        let mut cb = encode_id(&c);
        r.append(&mut cb);
        proof {
            assert(r@ =~= enc_hex_key(*self, id, to, from));
        }
        Ok(r)
    }
}

/// The six permutations, in their canonical order.
pub fn hex_orders() -> (r: Vec<HexOrder>)
    ensures
        r@ =~= seq![
            HexOrder::TFE,
            HexOrder::FTE,
            HexOrder::ETF,
            HexOrder::EFT,
            HexOrder::TEF,
            HexOrder::FET,
        ],
{
    let mut r: Vec<HexOrder> = Vec::new();
    r.push(HexOrder::TFE);
    r.push(HexOrder::FTE);
    r.push(HexOrder::ETF);
    r.push(HexOrder::EFT);
    r.push(HexOrder::TEF);
    r.push(HexOrder::FET);
    r
}


/// A byte range is its first byte followed by the rest.
pub proof fn lemma_cons_subrange(b: Seq<u8>, pos: int, p: int)
    requires
        0 <= pos < p <= b.len(),
    ensures
        seq![b[pos]] + b.subrange(pos + 1, p) == b.subrange(pos, p),
{
    assert(seq![b[pos]] + b.subrange(pos + 1, p) =~= b.subrange(pos, p));
}

/// Adjacent byte ranges concatenate to the enclosing range.
pub proof fn lemma_join_subrange(b: Seq<u8>, a: int, m: int, c: int)
    requires
        0 <= a <= m <= c <= b.len(),
    ensures
        b.subrange(a, m) + b.subrange(m, c) == b.subrange(a, c),
{
    assert(b.subrange(a, m) + b.subrange(m, c) =~= b.subrange(a, c));
}

/// Soundness of value decoding: whatever the decoder accepts re-encodes
/// to exactly the bytes it consumed, so no byte string is ever read as
/// a different shape.
#[verifier::rlimit(100)]
#[verifier::spinoff_prover]
pub proof fn lemma_enc_dec_pval(b: Seq<u8>, pos: int)
    requires
        dec_pval(b, pos) is Some,
    ensures
        ({
            let (pv, p) = dec_pval(b, pos)->Some_0;
            &&& 0 <= pos < p <= b.len()
            &&& p == pos + enc_pval(pv).len()
            &&& pv_fits(pv)
            &&& enc_pval(pv) == b.subrange(pos, p)
        }),
    decreases b.len() - pos, 0int, 1nat,
{
    if b[pos] < 12 {
        lemma_enc_dec_pval_low(b, pos);
    } else {
        lemma_enc_dec_pval_high(b, pos);
    }
}

/// Soundness of value decoding for the entity, id and numeric tags.
#[verifier::rlimit(100)]
#[verifier::spinoff_prover]
proof fn lemma_enc_dec_pval_low(b: Seq<u8>, pos: int)
    requires
        dec_pval(b, pos) is Some,
        b[pos] < 12,
    ensures
        ({
            let (pv, p) = dec_pval(b, pos)->Some_0;
            &&& 0 <= pos < p <= b.len()
            &&& p == pos + enc_pval(pv).len()
            &&& pv_fits(pv)
            &&& enc_pval(pv) == b.subrange(pos, p)
        }),
    decreases b.len() - pos, 0int, 0nat,
{
    let (pv, p) = dec_pval(b, pos)->Some_0;
    let tag = b[pos];
    let p1 = pos + 1;
    if tag == 0 {
        assert(enc_pval(pv) =~= b.subrange(pos, p));
    } else if tag == 1 {
        lemma_enc_dec_vertex(b, p1);
        assert(enc_pval(pv) =~= b.subrange(pos, p));
    } else if tag == 2 {
        lemma_enc_dec_edge(b, p1);
        assert(enc_pval(pv) =~= b.subrange(pos, p));
    } else if tag == 3 {
        lemma_enc_dec_id(b, p1);
        lemma_enc_id_len(pv->Id_0);
        assert(enc_pval(pv) =~= b.subrange(pos, p));
    } else if tag == 4 {
        lemma_enc_dec_be(b, p1, 16);
        lemma_dec_be_bound(b, p1, 16);
        lemma_pow256_16();
        lemma_enc_be_len(pv->Ulid_0 as nat, 16);
        assert(enc_pval(pv) =~= b.subrange(pos, p));
    } else if tag == 5 {
        assert(b[p1] == type_tag(pv->Type_0));
        assert(enc_pval(pv) =~= b.subrange(pos, p));
    } else if tag == 6 {
        lemma_enc_dec_be(b, p1, 4);
        lemma_dec_be_bound(b, p1, 4);
        reveal_with_fuel(pow256, 5);
        assert(i32_off(pv->I32_0) == dec_be(b, p1, 4));
        lemma_enc_be_len(i32_off(pv->I32_0), 4);
        assert(enc_pval(pv) =~= b.subrange(pos, p));
    } else if tag == 7 {
        lemma_enc_dec_be(b, p1, 8);
        lemma_dec_be_bound(b, p1, 8);
        reveal_with_fuel(pow256, 9);
        assert(i64_off(pv->I64_0) == dec_be(b, p1, 8));
        lemma_enc_be_len(i64_off(pv->I64_0), 8);
        assert(enc_pval(pv) =~= b.subrange(pos, p));
    } else if tag == 8 {
        lemma_enc_dec_be(b, p1, 16);
        lemma_dec_be_bound(b, p1, 16);
        lemma_pow256_16();
        assert(i128_off(pv->I128_0) == dec_be(b, p1, 16));
        lemma_enc_be_len(i128_off(pv->I128_0), 16);
        assert(enc_pval(pv) =~= b.subrange(pos, p));
    } else if tag == 9 {
        lemma_enc_dec_be(b, p1, 4);
        lemma_dec_be_bound(b, p1, 4);
        reveal_with_fuel(pow256, 5);
        lemma_enc_be_len(pv->F32_0 as nat, 4);
        assert(enc_pval(pv) =~= b.subrange(pos, p));
    } else if tag == 10 {
        lemma_enc_dec_be(b, p1, 8);
        lemma_dec_be_bound(b, p1, 8);
        reveal_with_fuel(pow256, 9);
        lemma_enc_be_len(pv->F64_0 as nat, 8);
        assert(enc_pval(pv) =~= b.subrange(pos, p));
    } else if tag == 11 {
        lemma_enc_dec_be(b, p1, 8);
        lemma_dec_be_bound(b, p1, 8);
        reveal_with_fuel(pow256, 9);
        assert(i64_off(pv->Date_0) == dec_be(b, p1, 8));
        lemma_enc_be_len(i64_off(pv->Date_0), 8);
        assert(enc_pval(pv) =~= b.subrange(pos, p));
    } else {
        assert(false);
    }
}

/// Soundness of value decoding for the text, boolean and collection
/// tags.
#[verifier::rlimit(100)]
#[verifier::spinoff_prover]
proof fn lemma_enc_dec_pval_high(b: Seq<u8>, pos: int)
    requires
        dec_pval(b, pos) is Some,
        b[pos] >= 12,
    ensures
        ({
            let (pv, p) = dec_pval(b, pos)->Some_0;
            &&& 0 <= pos < p <= b.len()
            &&& p == pos + enc_pval(pv).len()
            &&& pv_fits(pv)
            &&& enc_pval(pv) == b.subrange(pos, p)
        }),
    decreases b.len() - pos, 0int, 0nat,
{
    let (pv, p) = dec_pval(b, pos)->Some_0;
    let tag = b[pos];
    let p1 = pos + 1;
    if tag == 12 {
        lemma_enc_dec_str(b, p1);
        assert(enc_pval(pv) =~= b.subrange(pos, p));
    } else if tag == 13 {
        lemma_enc_dec_str(b, p1);
        assert(enc_pval(pv) =~= b.subrange(pos, p));
    } else if tag == 14 {
        assert(enc_pval(pv) =~= b.subrange(pos, p));
    } else if tag == 15 {
        lemma_dec_be_bound(b, p1, 8);
        lemma_enc_dec_be(b, p1, 8);
        lemma_enc_be_len(dec_be(b, p1, 8), 8);
        lemma_enc_dec_pval_seq(b, p1 + 8, dec_be(b, p1, 8));
        let es = pv->List_0;
        assert(enc_be(es.len(), 8) == b.subrange(p1, p1 + 8));
        assert(enc_pval(pv) =~= b.subrange(pos, p));
    } else if tag == 16 {
        lemma_dec_be_bound(b, p1, 8);
        lemma_enc_dec_be(b, p1, 8);
        lemma_enc_be_len(dec_be(b, p1, 8), 8);
        lemma_enc_dec_pval_seq(b, p1 + 8, dec_be(b, p1, 8));
        let es = pv->SetOf_0;
        assert(enc_be(es.len(), 8) == b.subrange(p1, p1 + 8));
        assert(enc_pval(pv) =~= b.subrange(pos, p));
    } else {
        assert(tag == 17);
        lemma_dec_be_bound(b, p1, 8);
        lemma_enc_dec_be(b, p1, 8);
        lemma_enc_be_len(dec_be(b, p1, 8), 8);
        lemma_enc_dec_entries(b, p1 + 8, dec_be(b, p1, 8));
        let ps = pv->MapOf_0;
        assert(enc_be(ps.len(), 8) == b.subrange(p1, p1 + 8));
        assert(enc_pval(pv) =~= b.subrange(pos, p));
    }
}

/// Soundness of sequence decoding.
pub proof fn lemma_enc_dec_pval_seq(b: Seq<u8>, pos: int, n: nat)
    requires
        0 <= pos <= b.len(),
        dec_pval_seq(b, pos, n) is Some,
    ensures
        ({
            let (es, p) = dec_pval_seq(b, pos, n)->Some_0;
            &&& pos <= p <= b.len()
            &&& es.len() == n
            &&& p == pos + enc_pval_seq(es).len()
            &&& pval_seq_fits(es)
            &&& enc_pval_seq(es) == b.subrange(pos, p)
        }),
    decreases b.len() - pos, 1int, n,
{
    let (es, p) = dec_pval_seq(b, pos, n)->Some_0;
    if n == 0 {
        assert(enc_pval_seq(es) =~= b.subrange(pos, pos));
    } else {
        lemma_enc_dec_pval(b, pos);
        let (v, p2) = dec_pval(b, pos)->Some_0;
        lemma_enc_dec_pval_seq(b, p2, (n - 1) as nat);
        let (vs, p3) = dec_pval_seq(b, p2, (n - 1) as nat)->Some_0;
        assert(es == seq![v] + vs);
        assert(es[0] == v);
        assert(es.drop_first() =~= vs);
        assert(enc_pval_seq(es) == enc_pval(v) + enc_pval_seq(vs));
        assert forall|j: int| 0 <= j < enc_pval_seq(es).len() implies enc_pval_seq(es)[j]
            == b.subrange(pos, p)[j] by {
            if j < enc_pval(v).len() {
                assert(enc_pval(v)[j] == b.subrange(pos, p2)[j]);
                assert(b.subrange(pos, p2)[j] == b[pos + j]);
            } else {
                assert(enc_pval_seq(es)[j] == enc_pval_seq(vs)[j - enc_pval(v).len()]);
                assert(enc_pval_seq(vs)[j - enc_pval(v).len()] == b.subrange(p2, p3)[j
                    - enc_pval(v).len()]);
                assert(b.subrange(p2, p3)[j - enc_pval(v).len()] == b[pos + j]);
            }
        }
        assert(enc_pval_seq(es) =~= b.subrange(pos, p));
    }
}

/// Soundness of entry decoding.
pub proof fn lemma_enc_dec_entries(b: Seq<u8>, pos: int, n: nat)
    requires
        0 <= pos <= b.len(),
        dec_entries(b, pos, n) is Some,
    ensures
        ({
            let (ps, p) = dec_entries(b, pos, n)->Some_0;
            &&& pos <= p <= b.len()
            &&& ps.len() == n
            &&& p == pos + enc_entries(ps).len()
            &&& entries_fit(ps)
            &&& enc_entries(ps) == b.subrange(pos, p)
        }),
    decreases b.len() - pos, 1int, n,
{
    let (ps, p) = dec_entries(b, pos, n)->Some_0;
    if n == 0 {
        assert(enc_entries(ps) =~= b.subrange(pos, pos));
    } else {
        lemma_enc_dec_str(b, pos);
        let (k, p2) = dec_str(b, pos)->Some_0;
        lemma_enc_dec_pval(b, p2);
        let (v, p3) = dec_pval(b, p2)->Some_0;
        lemma_enc_dec_entries(b, p3, (n - 1) as nat);
        let (rest, p4) = dec_entries(b, p3, (n - 1) as nat)->Some_0;
        assert(ps == seq![(k, v)] + rest);
        assert(ps[0] == (k, v));
        assert(ps.drop_first() =~= rest);
        assert(enc_entries(ps) == enc_str(k) + enc_pval(v) + enc_entries(rest));
        let kl = enc_str(k).len();
        let vl = enc_pval(v).len();
        assert forall|j: int| 0 <= j < enc_entries(ps).len() implies enc_entries(ps)[j]
            == b.subrange(pos, p)[j] by {
            if j < kl {
                assert((enc_str(k) + enc_pval(v))[j] == enc_str(k)[j]);
                assert(enc_str(k)[j] == b.subrange(pos, p2)[j]);
                assert(b.subrange(pos, p2)[j] == b[pos + j]);
            } else if j < kl + vl {
                assert((enc_str(k) + enc_pval(v))[j] == enc_pval(v)[j - kl]);
                assert(enc_pval(v)[j - kl] == b.subrange(p2, p3)[j - kl]);
                assert(b.subrange(p2, p3)[j - kl] == b[pos + j]);
            } else {
                assert(enc_entries(ps)[j] == enc_entries(rest)[j - kl - vl]);
                assert(enc_entries(rest)[j - kl - vl] == b.subrange(p3, p4)[j - kl - vl]);
                assert(b.subrange(p3, p4)[j - kl - vl] == b[pos + j]);
            }
        }
        assert(enc_entries(ps) =~= b.subrange(pos, p));
    }
}

/// Soundness of vertex decoding.
pub proof fn lemma_enc_dec_vertex(b: Seq<u8>, pos: int)
    requires
        dec_vertex(b, pos) is Some,
    ensures
        ({
            let (v, p) = dec_vertex(b, pos)->Some_0;
            &&& 0 <= pos < p <= b.len()
            &&& p == pos + enc_vertex(v).len()
            &&& vertex_fits(v)
            &&& enc_vertex(v) == b.subrange(pos, p)
        }),
    decreases b.len() - pos, 0int, 0nat,
{
    let (v, p) = dec_vertex(b, pos)->Some_0;
    lemma_enc_dec_opt_id(b, pos);
    let (oid, p1) = dec_opt_id(b, pos)->Some_0;
    lemma_enc_dec_str(b, p1);
    let (label, p2) = dec_str(b, p1)->Some_0;
    lemma_dec_be_bound(b, p2, 8);
    lemma_enc_dec_be(b, p2, 8);
    lemma_enc_be_len(dec_be(b, p2, 8), 8);
    lemma_enc_dec_entries(b, p2 + 8, dec_be(b, p2, 8));
    let (ps, p3) = dec_entries(b, p2 + 8, dec_be(b, p2, 8))->Some_0;
    let ol = enc_opt_id(oid).len();
    let ll = enc_str(label).len();
    assert forall|j: int| 0 <= j < enc_vertex(v).len() implies enc_vertex(v)[j]
        == b.subrange(pos, p)[j] by {
        if j < ol {
            assert(enc_opt_id(oid)[j] == b.subrange(pos, p1)[j]);
            assert(b.subrange(pos, p1)[j] == b[pos + j]);
        } else if j < ol + ll {
            assert(enc_str(label)[j - ol] == b.subrange(p1, p2)[j - ol]);
            assert(b.subrange(p1, p2)[j - ol] == b[pos + j]);
        } else if j < ol + ll + 8 {
            assert(enc_be(v.params.len(), 8)[j - ol - ll] == b.subrange(p2, p2 + 8)[j - ol
                - ll]);
            assert(b.subrange(p2, p2 + 8)[j - ol - ll] == b[pos + j]);
        } else {
            assert(enc_entries(ps)[j - ol - ll - 8] == b.subrange(p2 + 8, p3)[j - ol - ll
                - 8]);
            assert(b.subrange(p2 + 8, p3)[j - ol - ll - 8] == b[pos + j]);
        }
    }
    assert(enc_vertex(v) =~= b.subrange(pos, p));
}

/// Soundness of edge decoding.
pub proof fn lemma_enc_dec_edge(b: Seq<u8>, pos: int)
    requires
        dec_edge(b, pos) is Some,
    ensures
        ({
            let (e, p) = dec_edge(b, pos)->Some_0;
            &&& 0 <= pos < p <= b.len()
            &&& p == pos + enc_edge(e).len()
            &&& edge_fits(e)
            &&& enc_edge(e) == b.subrange(pos, p)
        }),
    decreases b.len() - pos, 0int, 0nat,
{
    let (e, p) = dec_edge(b, pos)->Some_0;
    lemma_enc_dec_opt_id(b, pos);
    let (oid, p1) = dec_opt_id(b, pos)->Some_0;
    lemma_enc_dec_id(b, p1);
    let (to, p2) = dec_id(b, p1)->Some_0;
    lemma_enc_dec_id(b, p2);
    let (from, p3) = dec_id(b, p2)->Some_0;
    lemma_enc_dec_str(b, p3);
    let (label, p4) = dec_str(b, p3)->Some_0;
    lemma_dec_be_bound(b, p4, 8);
    lemma_enc_dec_be(b, p4, 8);
    lemma_enc_be_len(dec_be(b, p4, 8), 8);
    lemma_enc_dec_entries(b, p4 + 8, dec_be(b, p4, 8));
    let (ps, p5) = dec_entries(b, p4 + 8, dec_be(b, p4, 8))->Some_0;
    lemma_enc_id_len(to);
    lemma_enc_id_len(from);
    let ol = enc_opt_id(oid).len();
    let ll = enc_str(label).len();
    assert forall|j: int| 0 <= j < enc_edge(e).len() implies enc_edge(e)[j]
        == b.subrange(pos, p)[j] by {
        if j < ol {
            assert(enc_opt_id(oid)[j] == b.subrange(pos, p1)[j]);
            assert(b.subrange(pos, p1)[j] == b[pos + j]);
        } else if j < ol + 17 {
            assert(enc_id(to)[j - ol] == b.subrange(p1, p2)[j - ol]);
            assert(b.subrange(p1, p2)[j - ol] == b[pos + j]);
        } else if j < ol + 34 {
            assert(enc_id(from)[j - ol - 17] == b.subrange(p2, p3)[j - ol - 17]);
            assert(b.subrange(p2, p3)[j - ol - 17] == b[pos + j]);
        } else if j < ol + 34 + ll {
            assert(enc_str(label)[j - ol - 34] == b.subrange(p3, p4)[j - ol - 34]);
            assert(b.subrange(p3, p4)[j - ol - 34] == b[pos + j]);
        } else if j < ol + 34 + ll + 8 {
            assert(enc_be(e.params.len(), 8)[j - ol - 34 - ll] == b.subrange(p4, p4 + 8)[j
                - ol - 34 - ll]);
            assert(b.subrange(p4, p4 + 8)[j - ol - 34 - ll] == b[pos + j]);
        } else {
            assert(enc_entries(ps)[j - ol - 34 - ll - 8] == b.subrange(p4 + 8, p5)[j - ol - 34
                - ll - 8]);
            assert(b.subrange(p4 + 8, p5)[j - ol - 34 - ll - 8] == b[pos + j]);
        }
    }
    assert(enc_edge(e) =~= b.subrange(pos, p));
}

} // verus!
