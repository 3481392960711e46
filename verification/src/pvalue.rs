//! The polymorphic value algebra, vertices and edges.
//!
//! `PValue` is the tagged sum of everything a traversal step can emit or
//! a parameter can hold: entities, scalars and collections, nested
//! freely. Vertices and edges carry a label and a parameter mapping
//! with unique keys.
//!
//! Each executable type has a mathematical view (`PValueView`,
//! `VertexView`, `EdgeView`) over `Seq` and plain values; every
//! contract in the crate speaks of those views.

use vstd::prelude::*;

use crate::error::Error;
use crate::ids::{Id, Type};

verus! {

/// Mathematical view of a vertex.
pub struct VertexView {
    pub id: Option<Id>,
    pub label: Seq<char>,
    pub params: Seq<(Seq<char>, PValueView)>,
}

/// Mathematical view of an edge.
pub struct EdgeView {
    pub id: Option<Id>,
    pub to: Id,
    pub from: Id,
    pub label: Seq<char>,
    pub params: Seq<(Seq<char>, PValueView)>,
}

/// Mathematical view of a `PValue`.
pub enum PValueView {
    Null,
    Vertex(VertexView),
    Edge(EdgeView),
    Id(Id),
    Ulid(u128),
    Type(Type),
    I32(i32),
    I64(i64),
    I128(i128),
    F32(u32),
    F64(u64),
    Date(i64),
    Token(Seq<char>),
    String(Seq<char>),
    Bool(bool),
    List(Seq<PValueView>),
    SetOf(Seq<PValueView>),
    MapOf(Seq<(Seq<char>, PValueView)>),
}

/// A parameter mapping: label keys to values, in insertion order.
pub type Params = Vec<(String, PValue)>;

/// A vertex: an optional id (absent before insertion), a label, and a
/// parameter mapping with unique keys.
#[derive(Debug)]
pub struct Vertex {
    pub id: Option<Id>,
    pub label: String,
    pub parameters: Params,
}

/// A directed edge between two vertices, with a label and a parameter
/// mapping with unique keys. Both endpoints must carry ids at
/// construction time.
#[derive(Debug)]
pub struct Edge {
    pub id: Option<Id>,
    pub to: Id,
    pub from: Id,
    pub label: String,
    pub parameters: Params,
}

/// The value carried through traversals and stored as parameter values.
/// `F32` and `F64` hold the IEEE-754 bit patterns of the respective
/// floats; `Date` holds UTC nanoseconds since the epoch.
#[derive(Debug)]
pub enum PValue {
    Null,
    Vertex(Vertex),
    Edge(Edge),
    Id(Id),
    Ulid(u128),
    Type(Type),
    I32(i32),
    I64(i64),
    I128(i128),
    F32(u32),
    F64(u64),
    Date(i64),
    Token(String),
    String(String),
    Bool(bool),
    List(Vec<PValue>),
    SetOf(Vec<PValue>),
    MapOf(Vec<(String, PValue)>),
}

/// View of a `PValue`.
pub open spec fn pv_view(pv: PValue) -> PValueView
    decreases pv,
{
    match pv {
        PValue::Null => PValueView::Null,
        PValue::Vertex(v) => PValueView::Vertex(vertex_view(v)),
        PValue::Edge(e) => PValueView::Edge(edge_view(e)),
        PValue::Id(i) => PValueView::Id(i),
        PValue::Ulid(u) => PValueView::Ulid(u),
        PValue::Type(t) => PValueView::Type(t),
        PValue::I32(x) => PValueView::I32(x),
        PValue::I64(x) => PValueView::I64(x),
        PValue::I128(x) => PValueView::I128(x),
        PValue::F32(x) => PValueView::F32(x),
        PValue::F64(x) => PValueView::F64(x),
        PValue::Date(x) => PValueView::Date(x),
        PValue::Token(s) => PValueView::Token(s@),
        PValue::String(s) => PValueView::String(s@),
        PValue::Bool(b) => PValueView::Bool(b),
        PValue::List(es) => PValueView::List(pv_list_view(es@)),
        PValue::SetOf(es) => PValueView::SetOf(pv_list_view(es@)),
        PValue::MapOf(ps) => PValueView::MapOf(params_view(ps@)),
    }
}

/// View of a sequence of `PValue`s, element-wise.
pub open spec fn pv_list_view(s: Seq<PValue>) -> Seq<PValueView>
    decreases s,
{
    if s.len() == 0 {
        Seq::empty()
    } else {
        seq![pv_view(s[0])] + pv_list_view(s.drop_first())
    }
}

/// View of a parameter mapping, element-wise and in order.
pub open spec fn params_view(s: Seq<(String, PValue)>) -> Seq<(Seq<char>, PValueView)>
    decreases s,
{
    if s.len() == 0 {
        Seq::empty()
    } else {
        seq![(s[0].0@, pv_view(s[0].1))] + params_view(s.drop_first())
    }
}

/// View of a vertex.
pub open spec fn vertex_view(v: Vertex) -> VertexView
    decreases v,
{
    VertexView { id: v.id, label: v.label@, params: params_view(v.parameters@) }
}

/// View of an edge.
pub open spec fn edge_view(e: Edge) -> EdgeView
    decreases e,
{
    EdgeView { id: e.id, to: e.to, from: e.from, label: e.label@, params: params_view(e.parameters@) }
}

impl View for PValue {
    type V = PValueView;

    open spec fn view(&self) -> PValueView {
        pv_view(*self)
    }
}

impl View for Vertex {
    type V = VertexView;

    open spec fn view(&self) -> VertexView {
        vertex_view(*self)
    }
}

impl View for Edge {
    type V = EdgeView;

    open spec fn view(&self) -> EdgeView {
        edge_view(*self)
    }
}

/// The value bound to key `k`, if any: the first matching entry.
pub open spec fn param_lookup(s: Seq<(Seq<char>, PValueView)>, k: Seq<char>) -> Option<PValueView>
    decreases s.len(),
{
    if s.len() == 0 {
        None
    } else if s[0].0 == k {
        Some(s[0].1)
    } else {
        param_lookup(s.drop_first(), k)
    }
}

/// A parameter mapping is well formed when its keys are pairwise
/// distinct.
pub open spec fn params_unique(s: Seq<(Seq<char>, PValueView)>) -> bool {
    forall|i: int, j: int| 0 <= i < j < s.len() ==> s[i].0 != s[j].0
}

impl VertexView {
    /// Well-formedness: unique parameter keys.
    pub open spec fn wf(self) -> bool {
        params_unique(self.params)
    }
}

impl EdgeView {
    /// Well-formedness: unique parameter keys.
    pub open spec fn wf(self) -> bool {
        params_unique(self.params)
    }
}


/// Element characterization of `pv_list_view`.
pub proof fn lemma_pv_list_view_elts(s: Seq<PValue>)
    ensures
        pv_list_view(s).len() == s.len(),
        forall|i: int| 0 <= i < s.len() ==> pv_list_view(s)[i] == pv_view(s[i]),
    decreases s.len(),
{
    if s.len() > 0 {
        lemma_pv_list_view_elts(s.drop_first());
    }
}

/// Element characterization of `params_view`.
pub proof fn lemma_params_view_elts(s: Seq<(String, PValue)>)
    ensures
        params_view(s).len() == s.len(),
        forall|i: int| 0 <= i < s.len() ==> params_view(s)[i]
            == (s[i].0@, pv_view(s[i].1)),
    decreases s.len(),
{
    if s.len() > 0 {
        lemma_params_view_elts(s.drop_first());
    }
}

/// `param_lookup` finds the first matching entry.
pub proof fn lemma_param_lookup_first(s: Seq<(Seq<char>, PValueView)>, k: Seq<char>, i: int)
    requires
        0 <= i < s.len(),
        s[i].0 == k,
        forall|j: int| 0 <= j < i ==> s[j].0 != k,
    ensures
        param_lookup(s, k) == Some(s[i].1),
    decreases i,
{
    if i > 0 {
        assert(forall|j: int| 0 <= j < s.len() - 1 ==> s.drop_first()[j] == s[j + 1]);
        lemma_param_lookup_first(s.drop_first(), k, i - 1);
    }
}

/// `param_lookup` misses exactly when no entry matches.
pub proof fn lemma_param_lookup_none(s: Seq<(Seq<char>, PValueView)>, k: Seq<char>)
    requires
        forall|i: int| 0 <= i < s.len() ==> s[i].0 != k,
    ensures
        param_lookup(s, k) is None,
    decreases s.len(),
{
    if s.len() > 0 {
        assert(forall|j: int| 0 <= j < s.len() - 1 ==> s.drop_first()[j] == s[j + 1]);
        lemma_param_lookup_none(s.drop_first(), k);
    }
}

/// Updating index `i` leaves every other key's binding alone.
proof fn lemma_param_lookup_update_other(
    s: Seq<(Seq<char>, PValueView)>,
    i: int,
    k: Seq<char>,
    v: PValueView,
    k2: Seq<char>,
)
    requires
        0 <= i < s.len(),
        s[i].0 == k,
        k2 != k,
    ensures
        param_lookup(s.update(i, (k, v)), k2) == param_lookup(s, k2),
    decreases s.len(),
{
    let t = s.update(i, (k, v));
    if i == 0 {
        assert(t[0].0 == k && s[0].0 == k);
        assert(t.drop_first() =~= s.drop_first());
    } else {
        assert(t[0] == s[0]);
        assert(t.drop_first() =~= s.drop_first().update(i - 1, (k, v)));
        lemma_param_lookup_update_other(s.drop_first(), i - 1, k, v, k2);
        if s[0].0 == k2 {
            assert(param_lookup(t, k2) == Some(t[0].1));
            assert(param_lookup(s, k2) == Some(s[0].1));
        }
    }
}

/// Updating the first entry that carries key `k` changes that key's
/// binding and nothing else.
pub proof fn lemma_param_lookup_update(
    s: Seq<(Seq<char>, PValueView)>,
    i: int,
    k: Seq<char>,
    v: PValueView,
)
    requires
        0 <= i < s.len(),
        s[i].0 == k,
        forall|j: int| 0 <= j < i ==> s[j].0 != k,
    ensures
        param_lookup(s.update(i, (k, v)), k) == Some(v),
        forall|k2: Seq<char>| k2 != k ==> param_lookup(s.update(i, (k, v)), k2)
            == param_lookup(s, k2),
    decreases i,
{
    let t = s.update(i, (k, v));
    assert(t[i] == (k, v));
    assert(forall|j: int| 0 <= j < i ==> t[j] == s[j]);
    lemma_param_lookup_first(t, k, i);
    assert forall|k2: Seq<char>| k2 != k implies param_lookup(s.update(i, (k, v)), k2)
        == param_lookup(s, k2) by {
        lemma_param_lookup_update_other(s, i, k, v, k2);
    }
}

/// Appending an entry leaves every other key's binding alone.
proof fn lemma_param_lookup_push_other(
    s: Seq<(Seq<char>, PValueView)>,
    k: Seq<char>,
    v: PValueView,
    k2: Seq<char>,
)
    requires
        k2 != k,
    ensures
        param_lookup(s.push((k, v)), k2) == param_lookup(s, k2),
    decreases s.len(),
{
    let t = s.push((k, v));
    if s.len() == 0 {
        assert(t[0] == (k, v));
        assert(t.drop_first() =~= Seq::<(Seq<char>, PValueView)>::empty());
    } else {
        assert(t[0] == s[0]);
        assert(t.drop_first() =~= s.drop_first().push((k, v)));
        lemma_param_lookup_push_other(s.drop_first(), k, v, k2);
        if s[0].0 == k2 {
            assert(param_lookup(t, k2) == Some(t[0].1));
            assert(param_lookup(s, k2) == Some(s[0].1));
        } else {
            assert(t.drop_first() == s.drop_first().push((k, v)));
            assert(param_lookup(t, k2) == param_lookup(t.drop_first(), k2));
            assert(param_lookup(s, k2) == param_lookup(s.drop_first(), k2));
        }
    }
}

/// Appending a fresh key binds it and leaves the other keys alone.
pub proof fn lemma_param_lookup_push(
    s: Seq<(Seq<char>, PValueView)>,
    k: Seq<char>,
    v: PValueView,
)
    requires
        param_lookup(s, k) is None,
    ensures
        param_lookup(s.push((k, v)), k) == Some(v),
        forall|k2: Seq<char>| k2 != k ==> param_lookup(s.push((k, v)), k2)
            == param_lookup(s, k2),
{
    let t = s.push((k, v));
    lemma_param_lookup_none_converse(s, k);
    assert(t[s.len() as int] == (k, v));
    assert(forall|j: int| 0 <= j < s.len() ==> t[j] == s[j]);
    lemma_param_lookup_first(t, k, s.len() as int);
    assert forall|k2: Seq<char>| k2 != k implies param_lookup(s.push((k, v)), k2)
        == param_lookup(s, k2) by {
        lemma_param_lookup_push_other(s, k, v, k2);
    }
}

/// When `param_lookup` misses, no entry matches.
pub proof fn lemma_param_lookup_none_converse(s: Seq<(Seq<char>, PValueView)>, k: Seq<char>)
    requires
        param_lookup(s, k) is None,
    ensures
        forall|i: int| 0 <= i < s.len() ==> s[i].0 != k,
    decreases s.len(),
{
    if s.len() > 0 {
        lemma_param_lookup_none_converse(s.drop_first(), k);
        assert forall|i: int| 0 <= i < s.len() implies s[i].0 != k by {
            if i > 0 {
                assert(s[i] == s.drop_first()[i - 1]);
            }
        }
    }
}


impl PValue {
    /// A deep copy; the copy has the same view.
    pub fn duplicate(&self) -> (r: PValue)
        ensures
            r@ == self@,
        decreases *self,
    {
        match self {
            PValue::Null => PValue::Null,
            PValue::Vertex(v) => PValue::Vertex(v.duplicate()),
            PValue::Edge(e) => PValue::Edge(e.duplicate()),
            PValue::Id(i) => PValue::Id(*i),
            PValue::Ulid(u) => PValue::Ulid(*u),
            PValue::Type(t) => PValue::Type(*t),
            PValue::I32(x) => PValue::I32(*x),
            PValue::I64(x) => PValue::I64(*x),
            PValue::I128(x) => PValue::I128(*x),
            PValue::F32(x) => PValue::F32(*x),
            PValue::F64(x) => PValue::F64(*x),
            PValue::Date(x) => PValue::Date(*x),
            PValue::Token(s) => PValue::Token(s.clone()),
            PValue::String(s) => PValue::String(s.clone()),
            PValue::Bool(b) => PValue::Bool(*b),
            PValue::List(es) => PValue::List(duplicate_list(es)),
            PValue::SetOf(es) => PValue::SetOf(duplicate_list(es)),
            PValue::MapOf(ps) => PValue::MapOf(duplicate_params(ps)),
        }
    }
}

/// A deep copy of a value list; the copy has the same element views.
fn duplicate_list(es: &Vec<PValue>) -> (r: Vec<PValue>)
    ensures
        pv_list_view(r@) == pv_list_view(es@),
    decreases es@,
{
    let mut out: Vec<PValue> = Vec::new();
    let n = es.len();
    for i in 0..n
        invariant
            n == es@.len(),
            out@.len() == i,
            forall|j: int| 0 <= j < i ==> pv_view(out@[j]) == pv_view(es@[j]),
        decreases n - i,
    {
        proof {
            assert(decreases_to!(es@ => es@[i as int]));
        }
        let e = &es[i];
        out.push(e.duplicate());
    }
    proof {
        lemma_pv_list_view_elts(es@);
        lemma_pv_list_view_elts(out@);
        assert(pv_list_view(out@) =~= pv_list_view(es@));
    }
    out
}

/// A deep copy of a parameter mapping; the copy has the same view.
pub(crate) fn duplicate_params(ps: &Vec<(String, PValue)>) -> (r: Vec<(String, PValue)>)
    ensures
        params_view(r@) == params_view(ps@),
    decreases ps@,
{
    let mut out: Vec<(String, PValue)> = Vec::new();
    let n = ps.len();
    for i in 0..n
        invariant
            n == ps@.len(),
            out@.len() == i,
            forall|j: int| 0 <= j < i ==> out@[j].0@ == ps@[j].0@
                && pv_view(out@[j].1) == pv_view(ps@[j].1),
        decreases n - i,
    {
        proof {
            assert(decreases_to!(ps@ => ps@[i as int]));
        }
        let entry = &ps[i];
        out.push((entry.0.clone(), entry.1.duplicate()));
    }
    proof {
        lemma_params_view_elts(ps@);
        lemma_params_view_elts(out@);
        assert(params_view(out@) =~= params_view(ps@));
    }
    out
}

impl Vertex {
    /// A vertex with the given label, no id yet, and no parameters.
    pub fn new(label: String) -> (r: Vertex)
        ensures
            r@ == (VertexView { id: None, label: label@, params: Seq::empty() }),
            r@.wf(),
    {
        Vertex { id: None, label, parameters: Vec::new() }
    }

    /// The label.
    pub fn get_label(&self) -> (r: String)
        ensures
            r@ == self@.label,
    {
        self.label.clone()
    }

    /// The id, present only after insertion.
    pub fn get_id(&self) -> (r: Option<Id>)
        ensures
            r == self@.id,
    {
        self.id
    }

    /// The value bound to a parameter key, if any.
    pub fn get_param(&self, p: &String) -> (r: Option<PValue>)
        ensures
            r matches Some(v) ==> param_lookup(self@.params, p@) == Some(v@),
            r is None ==> param_lookup(self@.params, p@) is None,
    {
        params_get(&self.parameters, p)
    }

    /// The vertex with parameter `p` bound to `val`: the first existing
    /// binding is replaced, or a new one appended.
    pub fn set_param(self, p: String, val: PValue) -> (r: Vertex)
        ensures
            r@.id == self@.id,
            r@.label == self@.label,
            param_lookup(r@.params, p@) == Some(val@),
            forall|k: Seq<char>| k != p@ ==> param_lookup(r@.params, k)
                == param_lookup(self@.params, k),
            self@.wf() ==> r@.wf(),
    {
        let Vertex { id, label, mut parameters } = self;
        params_set(&mut parameters, p, val);
        Vertex { id, label, parameters }
    }

    /// A deep copy; the copy has the same view.
    pub fn duplicate(&self) -> (r: Vertex)
        ensures
            r@ == self@,
        decreases *self,
    {
        Vertex {
            id: self.id,
            label: self.label.clone(),
            parameters: duplicate_params(&self.parameters),
        }
    }
}

impl Edge {
    /// An edge between two persisted vertices. Fails with
    /// `VertexInvalid` exactly when either endpoint still lacks an id.
    pub fn new(to: &Vertex, from: &Vertex, label: String) -> (r: Result<Edge, Error>)
        ensures
            r is Ok <==> to@.id is Some && from@.id is Some,
            r matches Ok(e) ==> e@ == (EdgeView {
                id: None,
                to: to@.id->Some_0,
                from: from@.id->Some_0,
                label: label@,
                params: Seq::empty(),
            }) && e@.wf(),
            r is Err ==> r == Err::<Edge, Error>(Error::VertexInvalid),
    {
        match (to.id, from.id) {
            (Some(t), Some(f)) => Ok(Edge {
                id: None,
                to: t,
                from: f,
                label,
                parameters: Vec::new(),
            }),
            _ => Err(Error::VertexInvalid),
        }
    }

    /// The label.
    pub fn get_label(&self) -> (r: String)
        ensures
            r@ == self@.label,
    {
        self.label.clone()
    }

    /// The id, present only after insertion.
    pub fn get_id(&self) -> (r: Option<Id>)
        ensures
            r == self@.id,
    {
        self.id
    }

    /// The head endpoint.
    pub fn get_to(&self) -> (r: Id)
        ensures
            r == self@.to,
    {
        self.to
    }

    /// The tail endpoint.
    pub fn get_from(&self) -> (r: Id)
        ensures
            r == self@.from,
    {
        self.from
    }

    /// The value bound to a parameter key, if any.
    pub fn get_param(&self, p: &String) -> (r: Option<PValue>)
        ensures
            r matches Some(v) ==> param_lookup(self@.params, p@) == Some(v@),
            r is None ==> param_lookup(self@.params, p@) is None,
    {
        params_get(&self.parameters, p)
    }

    /// The edge with parameter `p` bound to `val`.
    pub fn set_param(self, p: String, val: PValue) -> (r: Edge)
        ensures
            r@.id == self@.id,
            r@.to == self@.to,
            r@.from == self@.from,
            r@.label == self@.label,
            param_lookup(r@.params, p@) == Some(val@),
            forall|k: Seq<char>| k != p@ ==> param_lookup(r@.params, k)
                == param_lookup(self@.params, k),
            self@.wf() ==> r@.wf(),
    {
        let Edge { id, to, from, label, mut parameters } = self;
        params_set(&mut parameters, p, val);
        Edge { id, to, from, label, parameters }
    }

    /// A deep copy; the copy has the same view.
    pub fn duplicate(&self) -> (r: Edge)
        ensures
            r@ == self@,
        decreases *self,
    {
        Edge {
            id: self.id,
            to: self.to,
            from: self.from,
            label: self.label.clone(),
            parameters: duplicate_params(&self.parameters),
        }
    }
}

/// The first value bound to key `p` in a parameter list.
fn params_get(ps: &Vec<(String, PValue)>, p: &String) -> (r: Option<PValue>)
    ensures
        r matches Some(v) ==> param_lookup(params_view(ps@), p@) == Some(v@),
        r is None ==> param_lookup(params_view(ps@), p@) is None,
{
    proof {
        lemma_params_view_elts(ps@);
    }
    let n = ps.len();
    for i in 0..n
        invariant
            n == ps@.len(),
            params_view(ps@).len() == n,
            forall|j: int| 0 <= j < ps@.len() ==> params_view(ps@)[j]
                == (ps@[j].0@, pv_view(ps@[j].1)),
            forall|j: int| 0 <= j < i ==> ps@[j].0@ != p@,
        decreases n - i,
    {
        if ps[i].0.eq(p) {
            proof {
                lemma_param_lookup_first(params_view(ps@), p@, i as int);
            }
            return Some(ps[i].1.duplicate());
        }
    }
    proof {
        lemma_param_lookup_none(params_view(ps@), p@);
    }
    None
}

/// Binds key `p` to `val`: the first existing binding is replaced, or
/// a new one appended.
fn params_set(ps: &mut Vec<(String, PValue)>, p: String, val: PValue)
    ensures
        param_lookup(params_view(final(ps)@), p@) == Some(val@),
        forall|k: Seq<char>| k != p@ ==> param_lookup(params_view(final(ps)@), k)
            == param_lookup(params_view(old(ps)@), k),
        params_unique(params_view(old(ps)@)) ==> params_unique(params_view(final(ps)@)),
{
    let ghost pk = p@;
    let ghost valv = pv_view(val);
    proof {
        lemma_params_view_elts(ps@);
    }
    let n = ps.len();
    for i in 0..n
        invariant
            ps@ == old(ps)@,
            n == ps@.len(),
            params_view(ps@).len() == n,
            forall|j: int| 0 <= j < ps@.len() ==> params_view(ps@)[j]
                == (ps@[j].0@, pv_view(ps@[j].1)),
            forall|j: int| 0 <= j < i ==> ps@[j].0@ != pk,
            p@ == pk,
            pv_view(val) == valv,
        decreases n - i,
    {
        if ps[i].0.eq(&p) {
            ps.remove(i);
            ps.insert(i, (p, val));
            proof {
                lemma_params_view_elts(ps@);
                let old_pv = params_view(old(ps)@);
                let new_pv = params_view(ps@);
                assert(ps@ =~= old(ps)@.update(i as int, (ps@[i as int].0, ps@[i as int].1)));
                assert(new_pv =~= old_pv.update(i as int, (pk, valv)));
                lemma_param_lookup_update(old_pv, i as int, pk, valv);
                assert(param_lookup(params_view(ps@), p@) == Some(pv_view(val)));
                assert forall|k: Seq<char>| k != p@ implies param_lookup(params_view(ps@), k)
                    == param_lookup(params_view(old(ps)@), k) by {
                    lemma_param_lookup_update_other(old_pv, i as int, pk, valv, k);
                }
                assert(forall|x: int| 0 <= x < new_pv.len() ==> new_pv[x].0 == old_pv[x].0);
                if params_unique(old_pv) {
                    assert forall|a: int, b: int| 0 <= a < b < new_pv.len()
                        implies new_pv[a].0 != new_pv[b].0 by {
                        assert(old_pv[a].0 != old_pv[b].0);
                    }
                }
            }
            return;
        }
    }
    proof {
        lemma_param_lookup_none(params_view(old(ps)@), pk);
    }
    ps.push((p, val));
    proof {
        lemma_params_view_elts(ps@);
        let old_pv = params_view(old(ps)@);
        let new_pv = params_view(ps@);
        assert(new_pv =~= old_pv.push((pk, valv)));
        lemma_param_lookup_push(old_pv, pk, valv);
        assert(param_lookup(params_view(ps@), p@) == Some(pv_view(val)));
        assert forall|k: Seq<char>| k != p@ implies param_lookup(params_view(ps@), k)
            == param_lookup(params_view(old(ps)@), k) by {
            lemma_param_lookup_push_other(old_pv, pk, valv, k);
        }
        assert(forall|x: int| 0 <= x < old_pv.len() ==> new_pv[x] == old_pv[x]);
        assert(new_pv[old_pv.len() as int] == (pk, valv));
        assert(forall|x: int| 0 <= x < old_pv.len() ==> old_pv[x].0 != pk);
        if params_unique(old_pv) {
            assert forall|a: int, b: int| 0 <= a < b < new_pv.len()
                implies new_pv[a].0 != new_pv[b].0 by {
                if b < old_pv.len() {
                    assert(old_pv[a].0 != old_pv[b].0);
                } else {
                    assert(new_pv[a].0 == old_pv[a].0);
                    assert(new_pv[b].0 == pk);
                }
            }
        }
    }
}


impl Clone for PValue {
    /// A deep copy; the copy has the same view.
    fn clone(&self) -> (r: PValue)
        ensures
            r@ == self@,
    {
        self.duplicate()
    }
}

impl Clone for Vertex {
    /// A deep copy; the copy has the same view.
    fn clone(&self) -> (r: Vertex)
        ensures
            r@ == self@,
    {
        self.duplicate()
    }
}

impl Clone for Edge {
    /// A deep copy; the copy has the same view.
    fn clone(&self) -> (r: Edge)
        ensures
            r@ == self@,
    {
        self.duplicate()
    }
}

impl Default for PValue {
    /// The empty value.
    fn default() -> (r: PValue)
        ensures
            r@ == PValueView::Null,
    {
        PValue::Null
    }
}

} // verus!
