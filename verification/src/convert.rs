//! Conversions between typed values and the `PValue` sum.
//!
//! `to_pvalue` lifts a value into the sum, totally and losslessly;
//! `from_pvalue` projects it back out, failing with `InvalidPValue`
//! exactly on a variant mismatch. Every traversal end-type implements
//! both.

use vstd::prelude::*;

use crate::error::Error;
use crate::ids::Id;
use crate::pvalue::{Edge, PValue, PValueView, Vertex};

verus! {

/// The name of the variant a `PValueView` carries.
pub open spec fn pv_variant_name(pv: PValueView) -> Seq<char> {
    match pv {
        PValueView::Null => "Null"@,
        PValueView::Vertex(_) => "Vertex"@,
        PValueView::Edge(_) => "Edge"@,
        PValueView::Id(_) => "Id"@,
        PValueView::Ulid(_) => "Ulid"@,
        PValueView::Type(_) => "Type"@,
        PValueView::I32(_) => "I32"@,
        PValueView::I64(_) => "I64"@,
        PValueView::I128(_) => "I128"@,
        PValueView::F32(_) => "F32"@,
        PValueView::F64(_) => "F64"@,
        PValueView::Date(_) => "Date"@,
        PValueView::Token(_) => "Token"@,
        PValueView::String(_) => "String"@,
        PValueView::Bool(_) => "Bool"@,
        PValueView::List(_) => "List"@,
        PValueView::SetOf(_) => "SetOf"@,
        PValueView::MapOf(_) => "MapOf"@,
    }
}

/// The name of the variant a `PValue` carries.
pub fn variant_name(pv: &PValue) -> (r: String)
    ensures
        r@ == pv_variant_name(pv@),
{
    match pv {
        PValue::Null => "Null".to_owned(),
        PValue::Vertex(_) => "Vertex".to_owned(),
        PValue::Edge(_) => "Edge".to_owned(),
        PValue::Id(_) => "Id".to_owned(),
        PValue::Ulid(_) => "Ulid".to_owned(),
        PValue::Type(_) => "Type".to_owned(),
        PValue::I32(_) => "I32".to_owned(),
        PValue::I64(_) => "I64".to_owned(),
        PValue::I128(_) => "I128".to_owned(),
        PValue::F32(_) => "F32".to_owned(),
        PValue::F64(_) => "F64".to_owned(),
        PValue::Date(_) => "Date".to_owned(),
        PValue::Token(_) => "Token".to_owned(),
        PValue::String(_) => "String".to_owned(),
        PValue::Bool(_) => "Bool".to_owned(),
        PValue::List(_) => "List".to_owned(),
        PValue::SetOf(_) => "SetOf".to_owned(),
        PValue::MapOf(_) => "MapOf".to_owned(),
    }
}

/// A lift into the `PValue` sum: total and lossless.
pub trait ToPValue: View + Sized {
    /// Where the lift lands in the sum, at the level of views.
    spec fn pv_lift(v: Self::V) -> PValueView;

    /// Lift the value into the sum.
    fn to_pvalue(&self) -> (r: PValue)
        ensures
            r@ == Self::pv_lift(self@),
    ;
}

/// A checked projection out of the `PValue` sum: succeeds exactly on
/// the variant the type lifts into, and fails with `InvalidPValue`
/// naming the variant found otherwise.
pub trait FromPValue: View + Sized {
    /// The variants the projection accepts, at the level of views.
    spec fn pv_accepts(pv: PValueView) -> bool;

    /// What the projection extracts, when it accepts.
    spec fn pv_extract(pv: PValueView) -> Self::V;

    /// Project the value out of the sum.
    fn from_pvalue(pv: PValue) -> (r: Result<Self, Error>)
        ensures
            Self::pv_accepts(pv@) ==> (r matches Ok(v) && v@ == Self::pv_extract(pv@)),
            !Self::pv_accepts(pv@) ==> (r matches Err(e)
                && (e matches Error::InvalidPValue(s) && s@ == pv_variant_name(pv@))),
    ;
}

impl ToPValue for Vertex {
    open spec fn pv_lift(v: Self::V) -> PValueView {
        PValueView::Vertex(v)
    }

    fn to_pvalue(&self) -> (r: PValue) {
        PValue::Vertex(self.duplicate())
    }
}

impl FromPValue for Vertex {
    open spec fn pv_accepts(pv: PValueView) -> bool {
        pv is Vertex
    }

    open spec fn pv_extract(pv: PValueView) -> Self::V {
        pv->Vertex_0
    }

    fn from_pvalue(pv: PValue) -> (r: Result<Self, Error>) {
        match pv {
            PValue::Vertex(v) => Ok(v),
            _ => Err(Error::InvalidPValue(variant_name(&pv))),
        }
    }
}

impl ToPValue for Edge {
    open spec fn pv_lift(v: Self::V) -> PValueView {
        PValueView::Edge(v)
    }

    fn to_pvalue(&self) -> (r: PValue) {
        PValue::Edge(self.duplicate())
    }
}

impl FromPValue for Edge {
    open spec fn pv_accepts(pv: PValueView) -> bool {
        pv is Edge
    }

    open spec fn pv_extract(pv: PValueView) -> Self::V {
        pv->Edge_0
    }

    fn from_pvalue(pv: PValue) -> (r: Result<Self, Error>) {
        match pv {
            PValue::Edge(e) => Ok(e),
            _ => Err(Error::InvalidPValue(variant_name(&pv))),
        }
    }
}

impl ToPValue for PValue {
    open spec fn pv_lift(v: Self::V) -> PValueView {
        v
    }

    fn to_pvalue(&self) -> (r: PValue) {
        self.duplicate()
    }
}

impl FromPValue for PValue {
    open spec fn pv_accepts(pv: PValueView) -> bool {
        true
    }

    open spec fn pv_extract(pv: PValueView) -> Self::V {
        pv
    }

    fn from_pvalue(pv: PValue) -> (r: Result<Self, Error>) {
        Ok(pv)
    }
}

impl View for Id {
    type V = Id;

    open spec fn view(&self) -> Id {
        *self
    }
}

impl ToPValue for Id {
    open spec fn pv_lift(v: Self::V) -> PValueView {
        PValueView::Id(v)
    }

    fn to_pvalue(&self) -> (r: PValue) {
        PValue::Id(*self)
    }
}

impl FromPValue for Id {
    open spec fn pv_accepts(pv: PValueView) -> bool {
        pv is Id
    }

    open spec fn pv_extract(pv: PValueView) -> Self::V {
        pv->Id_0
    }

    fn from_pvalue(pv: PValue) -> (r: Result<Self, Error>) {
        match pv {
            PValue::Id(i) => Ok(i),
            _ => Err(Error::InvalidPValue(variant_name(&pv))),
        }
    }
}

impl ToPValue for i32 {
    open spec fn pv_lift(v: Self::V) -> PValueView {
        PValueView::I32(v)
    }

    fn to_pvalue(&self) -> (r: PValue) {
        PValue::I32(*self)
    }
}

impl FromPValue for i32 {
    open spec fn pv_accepts(pv: PValueView) -> bool {
        pv is I32
    }

    open spec fn pv_extract(pv: PValueView) -> Self::V {
        pv->I32_0
    }

    fn from_pvalue(pv: PValue) -> (r: Result<Self, Error>) {
        match pv {
            PValue::I32(x) => Ok(x),
            _ => Err(Error::InvalidPValue(variant_name(&pv))),
        }
    }
}

impl ToPValue for i64 {
    open spec fn pv_lift(v: Self::V) -> PValueView {
        PValueView::I64(v)
    }

    fn to_pvalue(&self) -> (r: PValue) {
        PValue::I64(*self)
    }
}

impl FromPValue for i64 {
    open spec fn pv_accepts(pv: PValueView) -> bool {
        pv is I64
    }

    open spec fn pv_extract(pv: PValueView) -> Self::V {
        pv->I64_0
    }

    fn from_pvalue(pv: PValue) -> (r: Result<Self, Error>) {
        match pv {
            PValue::I64(x) => Ok(x),
            _ => Err(Error::InvalidPValue(variant_name(&pv))),
        }
    }
}

impl ToPValue for i128 {
    open spec fn pv_lift(v: Self::V) -> PValueView {
        PValueView::I128(v)
    }

    fn to_pvalue(&self) -> (r: PValue) {
        PValue::I128(*self)
    }
}

impl FromPValue for i128 {
    open spec fn pv_accepts(pv: PValueView) -> bool {
        pv is I128
    }

    open spec fn pv_extract(pv: PValueView) -> Self::V {
        pv->I128_0
    }

    fn from_pvalue(pv: PValue) -> (r: Result<Self, Error>) {
        match pv {
            PValue::I128(x) => Ok(x),
            _ => Err(Error::InvalidPValue(variant_name(&pv))),
        }
    }
}

impl ToPValue for bool {
    open spec fn pv_lift(v: Self::V) -> PValueView {
        PValueView::Bool(v)
    }

    fn to_pvalue(&self) -> (r: PValue) {
        PValue::Bool(*self)
    }
}

impl FromPValue for bool {
    open spec fn pv_accepts(pv: PValueView) -> bool {
        pv is Bool
    }

    open spec fn pv_extract(pv: PValueView) -> Self::V {
        pv->Bool_0
    }

    fn from_pvalue(pv: PValue) -> (r: Result<Self, Error>) {
        match pv {
            PValue::Bool(b) => Ok(b),
            _ => Err(Error::InvalidPValue(variant_name(&pv))),
        }
    }
}

impl ToPValue for String {
    open spec fn pv_lift(v: Self::V) -> PValueView {
        PValueView::String(v)
    }

    fn to_pvalue(&self) -> (r: PValue) {
        PValue::String(self.clone())
    }
}

impl FromPValue for String {
    open spec fn pv_accepts(pv: PValueView) -> bool {
        pv is String
    }

    open spec fn pv_extract(pv: PValueView) -> Self::V {
        pv->String_0
    }

    fn from_pvalue(pv: PValue) -> (r: Result<Self, Error>) {
        match pv {
            PValue::String(s) => Ok(s),
            _ => Err(Error::InvalidPValue(variant_name(&pv))),
        }
    }
}

/// The conversion law every end-type obeys: projecting a lifted value
/// accepts and gives the value back, so `from_pvalue(to_pvalue(x))`
/// returns `Ok` with `x` for every `x`; a mismatched variant fails with
/// `InvalidPValue` by the `from_pvalue` contract.
pub trait PValueRoundTrip: ToPValue + FromPValue {
    /// Projection after lift is the identity.
    proof fn pvalue_round_trip(v: Self::V)
        ensures
            Self::pv_accepts(Self::pv_lift(v)),
            Self::pv_extract(Self::pv_lift(v)) == v,
    ;
}

impl PValueRoundTrip for Vertex {
    proof fn pvalue_round_trip(v: Self::V) {
    }
}

impl PValueRoundTrip for Edge {
    proof fn pvalue_round_trip(v: Self::V) {
    }
}

impl PValueRoundTrip for PValue {
    proof fn pvalue_round_trip(v: Self::V) {
    }
}

impl PValueRoundTrip for Id {
    proof fn pvalue_round_trip(v: Self::V) {
    }
}

impl PValueRoundTrip for i32 {
    proof fn pvalue_round_trip(v: Self::V) {
    }
}

impl PValueRoundTrip for i64 {
    proof fn pvalue_round_trip(v: Self::V) {
    }
}

impl PValueRoundTrip for i128 {
    proof fn pvalue_round_trip(v: Self::V) {
    }
}

impl PValueRoundTrip for bool {
    proof fn pvalue_round_trip(v: Self::V) {
    }
}

impl PValueRoundTrip for String {
    proof fn pvalue_round_trip(v: Self::V) {
    }
}

} // verus!
