//! The storage layer: six typed sub-tables under one store value.
//!
//! Vertices and edges live in primary tables keyed by id and ordered
//! by ULID; each has a label index whose entries correspond one-to-one
//! with the primary rows. Parameter bindings live in a shared table
//! keyed by owner id and parameter key, with a reverse index from key
//! to owner. `Store::wf` states the whole discipline: populated ids of
//! the right kind, no sentinel keys, exact index correspondence.

use vstd::prelude::*;

use crate::ids::{Id, Type};
use crate::pvalue::{
    param_lookup, params_unique, params_view, pv_view, Edge, EdgeView, PValue, PValueView, Vertex,
    VertexView,
};

verus! {

/// View of an id-keyed table: ids with the views of their rows.
pub open spec fn tbl_view<V: View>(s: Seq<(Id, V)>) -> Seq<(Id, V::V)>
    decreases s,
{
    if s.len() == 0 {
        Seq::empty()
    } else {
        seq![(s[0].0, s[0].1@)] + tbl_view(s.drop_first())
    }
}

/// Element characterization of `tbl_view`.
pub proof fn lemma_tbl_view_elts<V: View>(s: Seq<(Id, V)>)
    ensures
        tbl_view(s).len() == s.len(),
        forall|i: int| 0 <= i < s.len() ==> tbl_view(s)[i] == (s[i].0, s[i].1@),
    decreases s.len(),
{
    if s.len() > 0 {
        lemma_tbl_view_elts(s.drop_first());
    }
}

/// View of a label-index table: label texts with their ids.
pub open spec fn lidx_view(s: Seq<(String, Id)>) -> Seq<(Seq<char>, Id)>
    decreases s,
{
    if s.len() == 0 {
        Seq::empty()
    } else {
        seq![(s[0].0@, s[0].1)] + lidx_view(s.drop_first())
    }
}

/// Element characterization of `lidx_view`.
pub proof fn lemma_lidx_view_elts(s: Seq<(String, Id)>)
    ensures
        lidx_view(s).len() == s.len(),
        forall|i: int| 0 <= i < s.len() ==> lidx_view(s)[i] == (s[i].0@, s[i].1),
    decreases s.len(),
{
    if s.len() > 0 {
        lemma_lidx_view_elts(s.drop_first());
    }
}

/// View of the parameter table: owner id and key text with the bound
/// value's view.
pub open spec fn ptbl_view(s: Seq<((Id, String), PValue)>) -> Seq<((Id, Seq<char>), PValueView)>
    decreases s,
{
    if s.len() == 0 {
        Seq::empty()
    } else {
        seq![((s[0].0.0, s[0].0.1@), pv_view(s[0].1))] + ptbl_view(s.drop_first())
    }
}

/// Element characterization of `ptbl_view`.
pub proof fn lemma_ptbl_view_elts(s: Seq<((Id, String), PValue)>)
    ensures
        ptbl_view(s).len() == s.len(),
        forall|i: int| 0 <= i < s.len() ==> ptbl_view(s)[i]
            == ((s[i].0.0, s[i].0.1@), pv_view(s[i].1)),
    decreases s.len(),
{
    if s.len() > 0 {
        lemma_ptbl_view_elts(s.drop_first());
    }
}

/// The row a primary table holds under an id: the first match.
pub open spec fn id_lookup<T>(s: Seq<(Id, T)>, id: Id) -> Option<T>
    decreases s.len(),
{
    if s.len() == 0 {
        None
    } else if s[0].0 == id {
        Some(s[0].1)
    } else {
        id_lookup(s.drop_first(), id)
    }
}

/// `id_lookup` finds the first matching row.
pub proof fn lemma_id_lookup_first<T>(s: Seq<(Id, T)>, id: Id, i: int)
    requires
        0 <= i < s.len(),
        s[i].0 == id,
        forall|j: int| 0 <= j < i ==> s[j].0 != id,
    ensures
        id_lookup(s, id) == Some(s[i].1),
    decreases i,
{
    if i > 0 {
        assert(forall|j: int| 0 <= j < s.len() - 1 ==> s.drop_first()[j] == s[j + 1]);
        lemma_id_lookup_first(s.drop_first(), id, i - 1);
    }
}

/// `id_lookup` misses exactly when no row matches.
pub proof fn lemma_id_lookup_none<T>(s: Seq<(Id, T)>, id: Id)
    requires
        forall|i: int| 0 <= i < s.len() ==> s[i].0 != id,
    ensures
        id_lookup(s, id) is None,
    decreases s.len(),
{
    if s.len() > 0 {
        assert(forall|j: int| 0 <= j < s.len() - 1 ==> s.drop_first()[j] == s[j + 1]);
        lemma_id_lookup_none(s.drop_first(), id);
    }
}

/// When `id_lookup` misses, no row matches.
pub proof fn lemma_id_lookup_none_converse<T>(s: Seq<(Id, T)>, id: Id)
    requires
        id_lookup(s, id) is None,
    ensures
        forall|i: int| 0 <= i < s.len() ==> s[i].0 != id,
    decreases s.len(),
{
    if s.len() > 0 {
        lemma_id_lookup_none_converse(s.drop_first(), id);
        assert forall|i: int| 0 <= i < s.len() implies s[i].0 != id by {
            if i > 0 {
                assert(s[i] == s.drop_first()[i - 1]);
            }
        }
    }
}

/// Updating row `i` leaves every other id's row alone.
proof fn lemma_id_lookup_update_other<T>(s: Seq<(Id, T)>, i: int, id: Id, v: T, id2: Id)
    requires
        0 <= i < s.len(),
        s[i].0 == id,
        id2 != id,
    ensures
        id_lookup(s.update(i, (id, v)), id2) == id_lookup(s, id2),
    decreases s.len(),
{
    let t = s.update(i, (id, v));
    if i == 0 {
        assert(t[0].0 == id && s[0].0 == id);
        assert(t.drop_first() =~= s.drop_first());
    } else {
        assert(t[0] == s[0]);
        assert(t.drop_first() =~= s.drop_first().update(i - 1, (id, v)));
        lemma_id_lookup_update_other(s.drop_first(), i - 1, id, v, id2);
        if s[0].0 == id2 {
            assert(id_lookup(t, id2) == Some(t[0].1));
            assert(id_lookup(s, id2) == Some(s[0].1));
        } else {
            assert(id_lookup(t, id2) == id_lookup(t.drop_first(), id2));
            assert(id_lookup(s, id2) == id_lookup(s.drop_first(), id2));
        }
    }
}

/// Updating the first row that carries `id` rebinds it and nothing
/// else.
pub proof fn lemma_id_lookup_update<T>(s: Seq<(Id, T)>, i: int, id: Id, v: T)
    requires
        0 <= i < s.len(),
        s[i].0 == id,
        forall|j: int| 0 <= j < i ==> s[j].0 != id,
    ensures
        id_lookup(s.update(i, (id, v)), id) == Some(v),
        forall|id2: Id| id2 != id ==> id_lookup(s.update(i, (id, v)), id2)
            == id_lookup(s, id2),
    decreases i,
{
    let t = s.update(i, (id, v));
    assert(t[i] == (id, v));
    assert(forall|j: int| 0 <= j < i ==> t[j] == s[j]);
    lemma_id_lookup_first(t, id, i);
    assert forall|id2: Id| id2 != id implies id_lookup(s.update(i, (id, v)), id2)
        == id_lookup(s, id2) by {
        lemma_id_lookup_update_other(s, i, id, v, id2);
    }
}

/// Inserting a row at `i` leaves every other id's row alone.
proof fn lemma_id_lookup_insert_other<T>(s: Seq<(Id, T)>, i: int, id: Id, v: T, id2: Id)
    requires
        0 <= i <= s.len(),
        id2 != id,
    ensures
        id_lookup(s.insert(i, (id, v)), id2) == id_lookup(s, id2),
    decreases s.len(),
{
    let t = s.insert(i, (id, v));
    if i == 0 {
        assert(t[0] == (id, v));
        assert(t.drop_first() =~= s);
    } else {
        assert(t[0] == s[0]);
        assert(t.drop_first() =~= s.drop_first().insert(i - 1, (id, v)));
        lemma_id_lookup_insert_other(s.drop_first(), i - 1, id, v, id2);
        if s[0].0 == id2 {
            assert(id_lookup(t, id2) == Some(t[0].1));
            assert(id_lookup(s, id2) == Some(s[0].1));
        } else {
            assert(id_lookup(t, id2) == id_lookup(t.drop_first(), id2));
            assert(id_lookup(s, id2) == id_lookup(s.drop_first(), id2));
        }
    }
}

/// Inserting a fresh id's row binds it and leaves the other ids alone.
pub proof fn lemma_id_lookup_insert<T>(s: Seq<(Id, T)>, i: int, id: Id, v: T)
    requires
        0 <= i <= s.len(),
        forall|j: int| 0 <= j < s.len() ==> s[j].0 != id,
    ensures
        id_lookup(s.insert(i, (id, v)), id) == Some(v),
        forall|id2: Id| id2 != id ==> id_lookup(s.insert(i, (id, v)), id2)
            == id_lookup(s, id2),
{
    let t = s.insert(i, (id, v));
    assert(t[i] == (id, v));
    assert(forall|j: int| 0 <= j < i ==> t[j] == s[j]);
    lemma_id_lookup_first(t, id, i);
    assert forall|id2: Id| id2 != id implies id_lookup(s.insert(i, (id, v)), id2)
        == id_lookup(s, id2) by {
        lemma_id_lookup_insert_other(s, i, id, v, id2);
    }
}

/// A primary table is well formed under a kind: strictly increasing
/// ULIDs (so ids are unique and scans run in id order), every id of
/// that kind, no sentinel keys, and every row carrying its own id.
pub open spec fn vtbl_wf(s: Seq<(Id, VertexView)>) -> bool {
    &&& forall|i: int, j: int| 0 <= i < j < s.len()
        ==> s[i].0.ulid < s[j].0.ulid
    &&& forall|i: int| 0 <= i < s.len() ==> (#[trigger] s[i].0).kind == Type::Vertex
        && !s[i].0.is_sentinel()
    &&& forall|i: int| 0 <= i < s.len() ==> (#[trigger] s[i].1).id == Some(s[i].0)
        && s[i].1.wf()
}

/// The edge table's discipline: as for vertices, and both endpoints of
/// every row carry the Vertex kind tag.
pub open spec fn etbl_wf(s: Seq<(Id, EdgeView)>) -> bool {
    &&& forall|i: int, j: int| 0 <= i < j < s.len()
        ==> s[i].0.ulid < s[j].0.ulid
    &&& forall|i: int| 0 <= i < s.len() ==> (#[trigger] s[i].0).kind == Type::Edge
        && !s[i].0.is_sentinel()
    &&& forall|i: int| 0 <= i < s.len() ==> (#[trigger] s[i].1).id == Some(s[i].0)
        && s[i].1.wf()
    &&& forall|i: int| 0 <= i < s.len() ==> (#[trigger] s[i].1).to.kind == Type::Vertex
        && s[i].1.from.kind == Type::Vertex
}

/// A label index is well formed against its primary table: it has
/// exactly one entry per row, that entry carries the row's label, and
/// nothing else is in it. Cardinalities therefore agree.
pub open spec fn lidx_wf<T>(idx: Seq<(Seq<char>, Id)>, tbl: Seq<(Id, T)>, label_of: spec_fn(T) -> Seq<char>) -> bool {
    &&& idx.len() == tbl.len()
    &&& forall|i: int| 0 <= i < idx.len() ==> {
        let found = id_lookup(tbl, (#[trigger] idx[i]).1);
        found is Some && label_of(found->Some_0) == idx[i].0
    }
    &&& forall|i: int, j: int| 0 <= i < j < idx.len() ==> idx[i].1 != idx[j].1
    &&& forall|j: int| 0 <= j < tbl.len() ==> lidx_covers(idx, (#[trigger] tbl[j]).0)
}

/// The label of a vertex view.
pub open spec fn vertex_label(v: VertexView) -> Seq<char> {
    v.label
}

/// The label of an edge view.
pub open spec fn edge_label(e: EdgeView) -> Seq<char> {
    e.label
}

/// The binding the parameter table holds under an owner and key: the
/// first match.
pub open spec fn p_lookup(
    s: Seq<((Id, Seq<char>), PValueView)>,
    o: Id,
    k: Seq<char>,
) -> Option<PValueView> {
    kv_lookup(s, (o, k))
}

/// The value a keyed sequence holds under `key`: the first match.
pub open spec fn kv_lookup<K, V>(s: Seq<(K, V)>, key: K) -> Option<V>
    decreases s.len(),
{
    if s.len() == 0 {
        None
    } else if s[0].0 == key {
        Some(s[0].1)
    } else {
        kv_lookup(s.drop_first(), key)
    }
}

/// The parameter table's discipline: unique (owner, key) pairs.
pub open spec fn ptbl_wf(s: Seq<((Id, Seq<char>), PValueView)>) -> bool {
    forall|i: int, j: int| 0 <= i < j < s.len() ==> s[i].0 != s[j].0
}

/// The reverse parameter index is well formed against the parameter
/// table: exactly one entry (key, owner) per binding (owner, key), and
/// nothing else.
pub open spec fn pidx_wf(idx: Seq<(Seq<char>, Id)>, tbl: Seq<((Id, Seq<char>), PValueView)>) -> bool {
    &&& forall|i: int, j: int| 0 <= i < j < idx.len()
        ==> !(idx[i].0 == idx[j].0 && idx[i].1 == idx[j].1)
    &&& forall|i: int| 0 <= i < idx.len()
        ==> p_lookup(tbl, (#[trigger] idx[i]).1, idx[i].0) is Some
    &&& forall|j: int| 0 <= j < tbl.len() ==> pidx_has(idx, (#[trigger] tbl[j]).0.1, tbl[j].0.0)
}


/// Strictly increasing ULIDs: unique keys, scans in id order.
pub open spec fn sorted_ids<T>(s: Seq<(Id, T)>) -> bool {
    forall|i: int, j: int| 0 <= i < j < s.len() ==> s[i].0.ulid < s[j].0.ulid
}

/// The index holds the pair `(l, id)`.
pub open spec fn lidx_has(idx: Seq<(Seq<char>, Id)>, l: Seq<char>, id: Id) -> bool {
    exists|i: int| 0 <= i < idx.len() && idx[i] == (l, id)
}

/// The index holds some entry naming `id`.
pub open spec fn lidx_covers(idx: Seq<(Seq<char>, Id)>, id: Id) -> bool {
    exists|i: int| 0 <= i < idx.len() && (#[trigger] idx[i]).1 == id
}

/// The index holds `e` itself.
pub open spec fn entry_in(idx: Seq<(Seq<char>, Id)>, e: (Seq<char>, Id)) -> bool {
    exists|w: int| 0 <= w < idx.len() && idx[w] == e
}

/// The table holds a row keyed by `id`.
pub open spec fn has_key<T>(s: Seq<(Id, T)>, id: Id) -> bool {
    exists|j: int| 0 <= j < s.len() && (#[trigger] s[j]).0 == id
}

/// The reverse parameter index holds the entry `(k, o)`.
pub open spec fn pidx_has(idx: Seq<(Seq<char>, Id)>, k: Seq<char>, o: Id) -> bool {
    exists|i: int| 0 <= i < idx.len() && idx[i] == (k, o)
}

/// Look up a row by id.
fn tbl_get<'a, V: View>(tbl: &'a Vec<(Id, V)>, id: &Id) -> (r: Option<&'a V>)
    ensures
        r matches Some(v) ==> id_lookup(tbl_view(tbl@), *id) == Some(v@),
        r is None ==> id_lookup(tbl_view(tbl@), *id) is None,
{
    proof {
        lemma_tbl_view_elts(tbl@);
    }
    let n = tbl.len();
    for i in 0..n
        invariant
            n == tbl@.len(),
            tbl_view(tbl@).len() == n,
            forall|j: int| 0 <= j < n ==> tbl_view(tbl@)[j] == (tbl@[j].0, tbl@[j].1@),
            forall|j: int| 0 <= j < i ==> tbl@[j].0 != *id,
        decreases n - i,
    {
        if tbl[i].0 == *id {
            proof {
                lemma_id_lookup_first(tbl_view(tbl@), *id, i as int);
            }
            return Some(&tbl[i].1);
        }
    }
    proof {
        lemma_id_lookup_none(tbl_view(tbl@), *id);
    }
    None
}

/// Remove the index entry that names `id`, if one is there.
fn lidx_delete(idx: &mut Vec<(String, Id)>, id: &Id)
    ensures
        ({
            let ov = lidx_view(old(idx)@);
            let nv = lidx_view(final(idx)@);
            (exists|d: int|
                0 <= d < ov.len() && #[trigger] ov[d].1 == *id
                    && (forall|j: int| 0 <= j < d ==> ov[j].1 != *id)
                    && nv == ov.remove(d))
            || ((forall|i: int| 0 <= i < ov.len() ==> ov[i].1 != *id) && nv == ov)
        }),
{
    proof {
        lemma_lidx_view_elts(idx@);
    }
    let n = idx.len();
    for i in 0..n
        invariant
            idx@ == old(idx)@,
            n == idx@.len(),
            lidx_view(idx@).len() == n,
            forall|j: int| 0 <= j < n ==> lidx_view(idx@)[j] == (idx@[j].0@, idx@[j].1),
            forall|j: int| 0 <= j < i ==> idx@[j].1 != *id,
        decreases n - i,
    {
        if idx[i].1 == *id {
            let ghost ov = lidx_view(idx@);
            idx.remove(i);
            proof {
                lemma_lidx_view_elts(idx@);
                assert(lidx_view(idx@) =~= ov.remove(i as int));
                assert(ov[i as int].1 == *id);
            }
            return;
        }
    }
}

/// Append an index entry.
fn lidx_push(idx: &mut Vec<(String, Id)>, label: String, id: Id)
    ensures
        lidx_view(final(idx)@) == lidx_view(old(idx)@).push((label@, id)),
{
    let ghost lv = label@;
    idx.push((label, id));
    proof {
        lemma_lidx_view_elts(idx@);
        lemma_lidx_view_elts(old(idx)@);
        assert(lidx_view(idx@) =~= lidx_view(old(idx)@).push((lv, id)));
    }
}

/// What taking the `id` entry out of an index leaves: every other
/// entry, exactly once each.
proof fn lemma_lidx_delete_shape(oi: Seq<(Seq<char>, Id)>, mi: Seq<(Seq<char>, Id)>, id: Id)
    requires
        forall|i: int, j: int| 0 <= i < j < oi.len() ==> oi[i].1 != oi[j].1,
        (exists|d: int| 0 <= d < oi.len() && #[trigger] oi[d].1 == id && mi == oi.remove(d))
            || ((forall|i: int| 0 <= i < oi.len() ==> oi[i].1 != id) && mi == oi),
    ensures
        forall|j: int| 0 <= j < mi.len() ==> (#[trigger] mi[j]).1 != id,
        forall|j: int| 0 <= j < mi.len() ==> entry_in(oi, #[trigger] mi[j]),
        forall|i: int, j: int| 0 <= i < j < mi.len() ==> mi[i].1 != mi[j].1,
        forall|l: Seq<char>, id2: Id| id2 != id ==> (lidx_has(mi, l, id2) <==> lidx_has(
            oi,
            l,
            id2,
        )),
        lidx_covers(oi, id) ==> mi.len() == oi.len() - 1,
        !lidx_covers(oi, id) ==> mi == oi,
{
    if exists|d: int| 0 <= d < oi.len() && #[trigger] oi[d].1 == id && mi == oi.remove(d) {
        let d = choose|d: int| 0 <= d < oi.len() && #[trigger] oi[d].1 == id && mi == oi.remove(d);
        assert(forall|j: int| 0 <= j < mi.len() ==> #[trigger] mi[j] == (if j < d {
            oi[j]
        } else {
            oi[j + 1]
        }));
        assert forall|j: int| 0 <= j < mi.len() implies (#[trigger] mi[j]).1 != id by {
            if j < d {
                assert(mi[j] == oi[j]);
            } else {
                assert(mi[j] == oi[j + 1]);
            }
        }
        assert forall|l: Seq<char>, id2: Id| id2 != id implies (lidx_has(mi, l, id2)
            <==> lidx_has(oi, l, id2)) by {
            if lidx_has(mi, l, id2) {
                let i = choose|i: int| 0 <= i < mi.len() && #[trigger] mi[i] == (l, id2);
                let i2: int = if i < d { i } else { i + 1 };
                assert(oi[i2] == (l, id2));
            }
            if lidx_has(oi, l, id2) {
                let w = choose|w: int| 0 <= w < oi.len() && #[trigger] oi[w] == (l, id2);
                assert(w != d);
                let w2: int = if w < d { w } else { w - 1 };
                assert(mi[w2] == (l, id2));
            }
        }
        assert forall|j: int| 0 <= j < mi.len() implies entry_in(oi, #[trigger] mi[j]) by {
            let w: int = if j < d { j } else { j + 1 };
            assert(oi[w] == mi[j]);
        }
    } else {
        assert(mi == oi);
        assert forall|j: int| 0 <= j < mi.len() implies entry_in(oi, #[trigger] mi[j]) by {
            assert(oi[j] == mi[j]);
        }
    }
}

/// Rebuilding the index after a put: pushing the new entry onto the
/// survivors is exact again for the written table.
proof fn lemma_lidx_rebuild<T>(
    oi: Seq<(Seq<char>, Id)>,
    mi: Seq<(Seq<char>, Id)>,
    ov: Seq<(Id, T)>,
    nv: Seq<(Id, T)>,
    id: Id,
    val: T,
    lv: Seq<char>,
    label_of: spec_fn(T) -> Seq<char>,
)
    requires
        lidx_wf(oi, ov, label_of),
        label_of(val) == lv,
        forall|j: int| 0 <= j < mi.len() ==> (#[trigger] mi[j]).1 != id,
        forall|j: int| 0 <= j < mi.len() ==> entry_in(oi, #[trigger] mi[j]),
        forall|i: int, j: int| 0 <= i < j < mi.len() ==> mi[i].1 != mi[j].1,
        forall|l: Seq<char>, id2: Id| id2 != id ==> (lidx_has(mi, l, id2) <==> lidx_has(
            oi,
            l,
            id2,
        )),
        lidx_covers(oi, id) ==> mi.len() == oi.len() - 1,
        !lidx_covers(oi, id) ==> mi == oi,
        id_lookup(nv, id) == Some(val),
        forall|id2: Id| id2 != id ==> id_lookup(nv, id2) == id_lookup(ov, id2),
        nv.len() == ov.len() + (if id_lookup(ov, id) is Some {
            0int
        } else {
            1int
        }),
        forall|j: int| 0 <= j < nv.len() ==> (#[trigger] nv[j]).0 == id
            || has_key(ov, nv[j].0),
    ensures
        lidx_wf(mi.push((lv, id)), nv, label_of),
        lidx_has(mi.push((lv, id)), lv, id),
        forall|l: Seq<char>| l != lv ==> !lidx_has(mi.push((lv, id)), l, id),
        forall|l: Seq<char>, id2: Id| id2 != id ==> (lidx_has(mi.push((lv, id)), l, id2)
            <==> lidx_has(oi, l, id2)),
{
    let ni = mi.push((lv, id));
    assert(ni[mi.len() as int] == (lv, id));
    assert(forall|j: int| 0 <= j < mi.len() ==> #[trigger] ni[j] == mi[j]);
    // The id is indexed exactly when it is stored.
    assert(lidx_covers(oi, id) <==> id_lookup(ov, id) is Some) by {
        if lidx_covers(oi, id) {
            let w = choose|w: int| 0 <= w < oi.len() && (#[trigger] oi[w]).1 == id;
            assert(id_lookup(ov, oi[w].1) is Some);
        }
        if id_lookup(ov, id) is Some {
            lemma_id_lookup_some_key(ov, id);
            let j = choose|j: int| 0 <= j < ov.len() && (#[trigger] ov[j]).0 == id;
            assert(lidx_covers(oi, ov[j].0));
        }
    }
    assert(ni.len() == nv.len());
    // Every entry names a stored row with its label.
    assert forall|i: int| 0 <= i < ni.len() implies {
        let found = id_lookup(nv, (#[trigger] ni[i]).1);
        found is Some && label_of(found->Some_0) == ni[i].0
    } by {
        if i < mi.len() {
            assert(entry_in(oi, mi[i]));
            let w = choose|w: int| 0 <= w < oi.len() && #[trigger] oi[w] == mi[i];
            assert(id_lookup(ov, oi[w].1) is Some
                && label_of(id_lookup(ov, oi[w].1)->Some_0) == oi[w].0);
            assert(mi[i].1 != id);
        }
    }
    // One entry per id.
    assert forall|i: int, j: int| 0 <= i < j < ni.len() implies ni[i].1 != ni[j].1 by {
        if j == mi.len() {
            assert(ni[i].1 != id);
        }
    }
    // Every stored row has an entry.
    assert forall|j: int| 0 <= j < nv.len() implies lidx_covers(ni, (#[trigger] nv[j]).0) by {
        if nv[j].0 == id {
            assert(ni[mi.len() as int].1 == id);
        } else {
            assert(has_key(ov, nv[j].0));
            let oj = choose|oj: int| 0 <= oj < ov.len() && (#[trigger] ov[oj]).0 == nv[j].0;
            assert(lidx_covers(oi, ov[oj].0));
            let w = choose|w: int| 0 <= w < oi.len() && (#[trigger] oi[w]).1 == ov[oj].0;
            assert(lidx_has(oi, oi[w].0, nv[j].0));
            assert(lidx_has(mi, oi[w].0, nv[j].0));
            let w2 = choose|w2: int| 0 <= w2 < mi.len() && #[trigger] mi[w2] == (
                oi[w].0,
                nv[j].0,
            );
            assert(ni[w2].1 == nv[j].0);
        }
    }
    // Membership bookkeeping.
    assert forall|l: Seq<char>| l != lv implies !lidx_has(ni, l, id) by {
        if lidx_has(ni, l, id) {
            let i = choose|i: int| 0 <= i < ni.len() && #[trigger] ni[i] == (l, id);
            assert(i < mi.len());
            assert(mi[i].1 != id);
        }
    }
    assert forall|l: Seq<char>, id2: Id| id2 != id implies (lidx_has(ni, l, id2) <==> lidx_has(
        mi,
        l,
        id2,
    )) by {
        if lidx_has(ni, l, id2) {
            let i = choose|i: int| 0 <= i < ni.len() && #[trigger] ni[i] == (l, id2);
            assert(i < mi.len());
            assert(mi[i] == (l, id2));
        }
        if lidx_has(mi, l, id2) {
            let i = choose|i: int| 0 <= i < mi.len() && #[trigger] mi[i] == (l, id2);
            assert(ni[i] == (l, id2));
        }
    }
}

/// A found row means its key is present.
pub proof fn lemma_id_lookup_some_key<T>(s: Seq<(Id, T)>, id: Id)
    requires
        id_lookup(s, id) is Some,
    ensures
        exists|j: int| 0 <= j < s.len() && (#[trigger] s[j]).0 == id,
    decreases s.len(),
{
    if s.len() > 0 && s[0].0 != id {
        lemma_id_lookup_some_key(s.drop_first(), id);
        let j = choose|j: int| 0 <= j < s.drop_first().len()
            && (#[trigger] s.drop_first()[j]).0 == id;
        assert(s[j + 1].0 == id);
    }
}

/// Write a row under `id` into a primary table and keep its label
/// index exact: the old index entry for `id` (if any) leaves, the new
/// one enters, everything else stays.
#[verifier::rlimit(100)]
fn indexed_put<V: View>(
    tbl: &mut Vec<(Id, V)>,
    idx: &mut Vec<(String, Id)>,
    id: Id,
    label: String,
    value: V,
    Ghost(label_of): Ghost<spec_fn(<V as View>::V) -> Seq<char>>,
)
    requires
        label_of(value@) == label@,
        sorted_ids(tbl_view(old(tbl)@)),
        forall|i: int| 0 <= i < old(tbl)@.len()
            ==> tbl_view(old(tbl)@)[i].0.kind == id.kind,
        lidx_wf(lidx_view(old(idx)@), tbl_view(old(tbl)@), label_of),
    ensures
        ({
            let ov = tbl_view(old(tbl)@);
            let nv = tbl_view(final(tbl)@);
            &&& sorted_ids(nv)
            &&& forall|i: int| 0 <= i < nv.len() ==> (#[trigger] nv[i]).0.kind == id.kind
            &&& lidx_wf(lidx_view(final(idx)@), nv, label_of)
            &&& id_lookup(nv, id) == Some(value@)
            &&& forall|id2: Id| id2 != id ==> id_lookup(nv, id2) == id_lookup(ov, id2)
            &&& (id_lookup(ov, id) is Some ==> exists|i: int|
                0 <= i < ov.len() && (#[trigger] ov[i]).0 == id && nv == ov.update(
                    i,
                    (id, value@),
                ))
            &&& (id_lookup(ov, id) is None ==> exists|i: int|
                0 <= i <= ov.len() && nv == #[trigger] ov.insert(i, (id, value@)))
            &&& nv.len() == ov.len() + (if id_lookup(ov, id) is Some {
                0int
            } else {
                1int
            })
            &&& lidx_has(lidx_view(final(idx)@), label@, id)
            &&& (forall|l: Seq<char>| l != label@ ==> !lidx_has(lidx_view(final(idx)@), l, id))
            &&& (forall|l: Seq<char>, id2: Id| id2 != id ==> (lidx_has(
                lidx_view(final(idx)@),
                l,
                id2,
            ) <==> lidx_has(lidx_view(old(idx)@), l, id2)))
        }),
{
    let ghost ov = tbl_view(old(tbl)@);
    let ghost oi = lidx_view(old(idx)@);
    proof {
        lemma_tbl_view_elts(tbl@);
    }
    // Find the sorted position of `id`.
    let n = tbl.len();
    let mut pos: usize = 0;
    while pos < n && tbl[pos].0.ulid < id.ulid
        invariant
            tbl@ == old(tbl)@,
            n == tbl@.len(),
            ov == tbl_view(tbl@),
            ov.len() == n,
            forall|j: int| 0 <= j < n ==> ov[j] == (tbl@[j].0, tbl@[j].1@),
            pos <= n,
            forall|j: int| 0 <= j < pos ==> ov[j].0.ulid < id.ulid,
        decreases n - pos,
    {
        pos = pos + 1;
    }
    // Take the old index entry for `id` out (there is at most one).
    lidx_delete(idx, &id);
    let ghost mi = lidx_view(idx@);
    proof {
        lemma_lidx_delete_shape(oi, mi, id);
    }
    let ghost val_v = value@;
    if pos < n && tbl[pos].0 == id {
        // Overwrite in place.
        tbl.remove(pos);
        tbl.insert(pos, (id, value));
        proof {
            lemma_tbl_view_elts(tbl@);
            let nv = tbl_view(tbl@);
            assert(nv =~= ov.update(pos as int, (id, val_v)));
            assert(forall|j: int| 0 <= j < pos ==> ov[j].0 != id);
            lemma_id_lookup_update(ov, pos as int, id, val_v);
            lemma_id_lookup_first(ov, id, pos as int);
            assert(forall|x: int| 0 <= x < nv.len() ==> (#[trigger] nv[x]).0 == ov[x].0);
            assert forall|j: int| 0 <= j < nv.len() implies (#[trigger] nv[j]).0 == id
                || has_key(ov, nv[j].0) by {
                assert(ov[j].0 == nv[j].0);
            }
            lemma_lidx_rebuild(oi, mi, ov, nv, id, val_v, label_of(val_v), label_of);
        }
    } else {
        // Insert at the sorted position.
        proof {
            assert forall|j: int| 0 <= j < ov.len() implies (#[trigger] ov[j]).0 != id by {
                if j >= pos {
                    if pos < n && j > pos {
                        assert(ov[pos as int].0.ulid < ov[j].0.ulid);
                    }
                    assert(ov[j].0.ulid >= id.ulid);
                    if ov[j].0.ulid == id.ulid {
                        assert(ov[j].0.kind == id.kind);
                        assert(ov[j].0 == id);
                        assert(j == pos);
                        assert(false);
                    }
                }
            }
            lemma_id_lookup_none(ov, id);
        }
        tbl.insert(pos, (id, value));
        proof {
            lemma_tbl_view_elts(tbl@);
            let nv = tbl_view(tbl@);
            assert(nv =~= ov.insert(pos as int, (id, val_v)));
            lemma_id_lookup_insert(ov, pos as int, id, val_v);
            // Sortedness across the insertion point.
            assert forall|a: int, b: int| 0 <= a < b < nv.len() implies nv[a].0.ulid
                < nv[b].0.ulid by {
                if a < pos && b == pos {
                } else if a == pos && b > pos {
                    assert(nv[b] == ov[b - 1]);
                    assert(ov[b - 1].0.ulid >= id.ulid);
                    assert(ov[b - 1].0.ulid != id.ulid);
                } else if a < pos && b > pos {
                    assert(nv[b] == ov[b - 1]);
                } else if a > pos && b > pos {
                    assert(nv[a] == ov[a - 1] && nv[b] == ov[b - 1]);
                }
            }
            assert forall|j: int| 0 <= j < nv.len() implies (#[trigger] nv[j]).0 == id
                || has_key(ov, nv[j].0) by {
                if j < pos {
                    assert(ov[j].0 == nv[j].0);
                } else if j > pos {
                    assert(ov[j - 1].0 == nv[j].0);
                }
            }
            lemma_lidx_rebuild(oi, mi, ov, nv, id, val_v, label_of(val_v), label_of);
        }
    }
    // Write the new index entry.
    lidx_push(idx, label, id);
}


/// `kv_lookup` finds the first matching entry.
pub proof fn lemma_kv_lookup_first<K, V>(s: Seq<(K, V)>, key: K, i: int)
    requires
        0 <= i < s.len(),
        s[i].0 == key,
        forall|j: int| 0 <= j < i ==> s[j].0 != key,
    ensures
        kv_lookup(s, key) == Some(s[i].1),
    decreases i,
{
    if i > 0 {
        assert(forall|j: int| 0 <= j < s.len() - 1 ==> s.drop_first()[j] == s[j + 1]);
        lemma_kv_lookup_first(s.drop_first(), key, i - 1);
    }
}

/// `kv_lookup` misses exactly when no entry matches.
pub proof fn lemma_kv_lookup_none<K, V>(s: Seq<(K, V)>, key: K)
    requires
        forall|i: int| 0 <= i < s.len() ==> s[i].0 != key,
    ensures
        kv_lookup(s, key) is None,
    decreases s.len(),
{
    if s.len() > 0 {
        assert(forall|j: int| 0 <= j < s.len() - 1 ==> s.drop_first()[j] == s[j + 1]);
        lemma_kv_lookup_none(s.drop_first(), key);
    }
}

/// When `kv_lookup` misses, no entry matches.
pub proof fn lemma_kv_lookup_none_converse<K, V>(s: Seq<(K, V)>, key: K)
    requires
        kv_lookup(s, key) is None,
    ensures
        forall|i: int| 0 <= i < s.len() ==> s[i].0 != key,
    decreases s.len(),
{
    if s.len() > 0 {
        lemma_kv_lookup_none_converse(s.drop_first(), key);
        assert forall|i: int| 0 <= i < s.len() implies s[i].0 != key by {
            if i > 0 {
                assert(s[i] == s.drop_first()[i - 1]);
            }
        }
    }
}

/// Updating entry `i` leaves every other key's value alone.
proof fn lemma_kv_lookup_update_other<K, V>(s: Seq<(K, V)>, i: int, key: K, v: V, k2: K)
    requires
        0 <= i < s.len(),
        s[i].0 == key,
        k2 != key,
    ensures
        kv_lookup(s.update(i, (key, v)), k2) == kv_lookup(s, k2),
    decreases s.len(),
{
    let t = s.update(i, (key, v));
    if i == 0 {
        assert(t[0].0 == key && s[0].0 == key);
        assert(t.drop_first() =~= s.drop_first());
    } else {
        assert(t[0] == s[0]);
        assert(t.drop_first() =~= s.drop_first().update(i - 1, (key, v)));
        lemma_kv_lookup_update_other(s.drop_first(), i - 1, key, v, k2);
        if s[0].0 == k2 {
            assert(kv_lookup(t, k2) == Some(t[0].1));
            assert(kv_lookup(s, k2) == Some(s[0].1));
        } else {
            assert(kv_lookup(t, k2) == kv_lookup(t.drop_first(), k2));
            assert(kv_lookup(s, k2) == kv_lookup(s.drop_first(), k2));
        }
    }
}

/// Updating the first entry that carries `key` rebinds it and nothing
/// else.
pub proof fn lemma_kv_lookup_update<K, V>(s: Seq<(K, V)>, i: int, key: K, v: V)
    requires
        0 <= i < s.len(),
        s[i].0 == key,
        forall|j: int| 0 <= j < i ==> s[j].0 != key,
    ensures
        kv_lookup(s.update(i, (key, v)), key) == Some(v),
        forall|k2: K| k2 != key ==> kv_lookup(s.update(i, (key, v)), k2) == kv_lookup(s, k2),
{
    let t = s.update(i, (key, v));
    assert(t[i] == (key, v));
    assert(forall|j: int| 0 <= j < i ==> t[j] == s[j]);
    lemma_kv_lookup_first(t, key, i);
    assert forall|k2: K| k2 != key implies kv_lookup(s.update(i, (key, v)), k2) == kv_lookup(
        s,
        k2,
    ) by {
        lemma_kv_lookup_update_other(s, i, key, v, k2);
    }
}

/// Appending an entry leaves every other key's value alone.
proof fn lemma_kv_lookup_push_other<K, V>(s: Seq<(K, V)>, key: K, v: V, k2: K)
    requires
        k2 != key,
    ensures
        kv_lookup(s.push((key, v)), k2) == kv_lookup(s, k2),
    decreases s.len(),
{
    let t = s.push((key, v));
    if s.len() == 0 {
        assert(t[0] == (key, v));
        assert(t.drop_first() =~= Seq::<(K, V)>::empty());
    } else {
        assert(t[0] == s[0]);
        assert(t.drop_first() =~= s.drop_first().push((key, v)));
        lemma_kv_lookup_push_other(s.drop_first(), key, v, k2);
        if s[0].0 == k2 {
            assert(kv_lookup(t, k2) == Some(t[0].1));
            assert(kv_lookup(s, k2) == Some(s[0].1));
        } else {
            assert(kv_lookup(t, k2) == kv_lookup(t.drop_first(), k2));
            assert(kv_lookup(s, k2) == kv_lookup(s.drop_first(), k2));
        }
    }
}

/// Appending a fresh key binds it and leaves the other keys alone.
pub proof fn lemma_kv_lookup_push<K, V>(s: Seq<(K, V)>, key: K, v: V)
    requires
        kv_lookup(s, key) is None,
    ensures
        kv_lookup(s.push((key, v)), key) == Some(v),
        forall|k2: K| k2 != key ==> kv_lookup(s.push((key, v)), k2) == kv_lookup(s, k2),
{
    let t = s.push((key, v));
    lemma_kv_lookup_none_converse(s, key);
    assert(t[s.len() as int] == (key, v));
    assert(forall|j: int| 0 <= j < s.len() ==> t[j] == s[j]);
    lemma_kv_lookup_first(t, key, s.len() as int);
    assert forall|k2: K| k2 != key implies kv_lookup(s.push((key, v)), k2) == kv_lookup(
        s,
        k2,
    ) by {
        lemma_kv_lookup_push_other(s, key, v, k2);
    }
}

/// Overwriting an existing binding in place leaves the reverse index
/// exact.
proof fn lemma_pidx_preserved_update(
    oi: Seq<(Seq<char>, Id)>,
    ov: Seq<((Id, Seq<char>), PValueView)>,
    nv: Seq<((Id, Seq<char>), PValueView)>,
    pkey: (Id, Seq<char>),
    valv: PValueView,
    i: int,
)
    requires
        ptbl_wf(ov),
        pidx_wf(oi, ov),
        0 <= i < ov.len(),
        ov[i].0 == pkey,
        nv == ov.update(i, (pkey, valv)),
    ensures
        ptbl_wf(nv),
        pidx_wf(oi, nv),
{
    assert(forall|x: int| 0 <= x < nv.len() ==> (#[trigger] nv[x]).0 == ov[x].0);
    assert(forall|j: int| 0 <= j < i ==> ov[j].0 != pkey);
    lemma_kv_lookup_update(ov, i, pkey, valv);
    assert forall|w: int| 0 <= w < oi.len() implies kv_lookup(
        nv,
        ((#[trigger] oi[w]).1, oi[w].0),
    ) is Some by {
        if (oi[w].1, oi[w].0) == pkey {
            assert(kv_lookup(nv, pkey) == Some(valv));
        } else {
            assert(kv_lookup(nv, (oi[w].1, oi[w].0)) == kv_lookup(ov, (oi[w].1, oi[w].0)));
        }
    }
    assert forall|j: int| 0 <= j < nv.len() implies pidx_has(
        oi,
        (#[trigger] nv[j]).0.1,
        nv[j].0.0,
    ) by {
        assert(nv[j].0 == ov[j].0);
        assert(pidx_has(oi, ov[j].0.1, ov[j].0.0));
    }
}

/// Appending a fresh binding together with its reverse entry leaves
/// both tables exact.
proof fn lemma_pidx_extend_push(
    oi: Seq<(Seq<char>, Id)>,
    ov: Seq<((Id, Seq<char>), PValueView)>,
    nv: Seq<((Id, Seq<char>), PValueView)>,
    ni: Seq<(Seq<char>, Id)>,
    owner: Id,
    keyv: Seq<char>,
    valv: PValueView,
)
    requires
        ptbl_wf(ov),
        pidx_wf(oi, ov),
        kv_lookup(ov, (owner, keyv)) is None,
        nv == ov.push(((owner, keyv), valv)),
        ni == oi.push((keyv, owner)),
    ensures
        ptbl_wf(nv),
        pidx_wf(ni, nv),
        pidx_has(ni, keyv, owner),
        forall|k: Seq<char>, o: Id| !(k == keyv && o == owner) ==> (pidx_has(ni, k, o)
            <==> pidx_has(oi, k, o)),
{
    lemma_kv_lookup_none_converse(ov, (owner, keyv));
    lemma_kv_lookup_push(ov, (owner, keyv), valv);
    assert(forall|x: int| 0 <= x < ov.len() ==> #[trigger] nv[x] == ov[x]);
    assert(nv[ov.len() as int] == ((owner, keyv), valv));
    assert(forall|w: int| 0 <= w < oi.len() ==> #[trigger] ni[w] == oi[w]);
    assert(ni[oi.len() as int] == (keyv, owner));
    // the new pair was not indexed before
    assert forall|w: int| 0 <= w < oi.len() implies oi[w] != (keyv, owner) by {
        if oi[w] == (keyv, owner) {
            assert(kv_lookup(ov, (oi[w].1, oi[w].0)) is Some);
        }
    }
    // table keys stay unique
    assert forall|a: int, b: int| 0 <= a < b < nv.len() implies nv[a].0 != nv[b].0 by {
        if b < ov.len() {
            assert(ov[a].0 != ov[b].0);
        } else {
            assert(nv[a].0 == ov[a].0);
            assert(ov[a].0 != (owner, keyv));
        }
    }
    // index uniqueness
    assert forall|a: int, b: int| 0 <= a < b < ni.len() implies !(ni[a].0 == ni[b].0 && ni[a].1
        == ni[b].1) by {
        if b < oi.len() {
            assert(!(oi[a].0 == oi[b].0 && oi[a].1 == oi[b].1));
        } else {
            assert(ni[a] == oi[a]);
        }
    }
    // entries resolve
    assert forall|w: int| 0 <= w < ni.len() implies kv_lookup(
        nv,
        ((#[trigger] ni[w]).1, ni[w].0),
    ) is Some by {
        if w < oi.len() {
            if (ni[w].1, ni[w].0) == (owner, keyv) {
                assert(kv_lookup(nv, (owner, keyv)) == Some(valv));
            } else {
                assert(kv_lookup(nv, (ni[w].1, ni[w].0)) == kv_lookup(ov, (ni[w].1, ni[w].0)));
                assert(kv_lookup(ov, (oi[w].1, oi[w].0)) is Some);
            }
        } else {
            assert(kv_lookup(nv, (owner, keyv)) == Some(valv));
        }
    }
    // coverage
    assert forall|j: int| 0 <= j < nv.len() implies pidx_has(
        ni,
        (#[trigger] nv[j]).0.1,
        nv[j].0.0,
    ) by {
        if j < ov.len() {
            assert(nv[j] == ov[j]);
            assert(pidx_has(oi, ov[j].0.1, ov[j].0.0));
            let w = choose|w: int| 0 <= w < oi.len() && #[trigger] oi[w] == (
                ov[j].0.1,
                ov[j].0.0,
            );
            assert(ni[w] == (nv[j].0.1, nv[j].0.0));
        } else {
            assert(nv[j].0 == (owner, keyv));
            assert(ni[oi.len() as int] == (keyv, owner));
        }
    }
    // membership bookkeeping
    assert forall|k: Seq<char>, o: Id| !(k == keyv && o == owner) implies (pidx_has(ni, k, o)
        <==> pidx_has(oi, k, o)) by {
        if pidx_has(ni, k, o) {
            let w = choose|w: int| 0 <= w < ni.len() && #[trigger] ni[w] == (k, o);
            assert(w < oi.len());
            assert(oi[w] == (k, o));
        }
        if pidx_has(oi, k, o) {
            let w = choose|w: int| 0 <= w < oi.len() && #[trigger] oi[w] == (k, o);
            assert(ni[w] == (k, o));
        }
    }
}

/// Upsert one parameter binding and keep the reverse index exact.
fn params_put(
    tbl: &mut Vec<((Id, String), PValue)>,
    pidx: &mut Vec<(String, Id)>,
    owner: Id,
    key: String,
    val: PValue,
)
    requires
        ptbl_wf(ptbl_view(old(tbl)@)),
        pidx_wf(lidx_view(old(pidx)@), ptbl_view(old(tbl)@)),
    ensures
        ({
            let ov = ptbl_view(old(tbl)@);
            let nv = ptbl_view(final(tbl)@);
            &&& ptbl_wf(nv)
            &&& pidx_wf(lidx_view(final(pidx)@), nv)
            &&& p_lookup(nv, owner, key@) == Some(val@)
            &&& forall|k2: (Id, Seq<char>)| k2 != (owner, key@) ==> #[trigger] kv_lookup(
                ptbl_view(final(tbl)@),
                k2,
            ) == kv_lookup(ptbl_view(old(tbl)@), k2)
            &&& pidx_has(lidx_view(final(pidx)@), key@, owner)
            &&& forall|k: Seq<char>, o: Id| !(k == key@ && o == owner) ==> (pidx_has(
                lidx_view(final(pidx)@),
                k,
                o,
            ) <==> pidx_has(lidx_view(old(pidx)@), k, o))
        }),
{
    let ghost ov = ptbl_view(old(tbl)@);
    let ghost oi = lidx_view(old(pidx)@);
    let ghost pkey = (owner, key@);
    let ghost valv = pv_view(val);
    proof {
        lemma_ptbl_view_elts(tbl@);
    }
    let n = tbl.len();
    for i in 0..n
        invariant
            tbl@ == old(tbl)@,
            pidx@ == old(pidx)@,
            n == tbl@.len(),
            ov == ptbl_view(tbl@),
            ov.len() == n,
            forall|j: int| 0 <= j < n ==> ov[j] == ((tbl@[j].0.0, tbl@[j].0.1@), pv_view(
                tbl@[j].1,
            )),
            forall|j: int| 0 <= j < i ==> ov[j].0 != pkey,
            pkey == (owner, key@),
            valv == pv_view(val),
            ptbl_wf(ptbl_view(old(tbl)@)),
            pidx_wf(lidx_view(old(pidx)@), ptbl_view(old(tbl)@)),
        decreases n - i,
    {
        if tbl[i].0.0 == owner && tbl[i].0.1.eq(&key) {
            // Overwrite the binding in place; the reverse index already
            // carries this (key, owner) pair.
            tbl.remove(i);
            tbl.insert(i, ((owner, key), val));
            proof {
                assert(ov == ptbl_view(old(tbl)@));
                lemma_ptbl_view_elts(tbl@);
                assert(ptbl_view(tbl@) =~= ptbl_view(old(tbl)@).update(i as int, (pkey, valv)));
                lemma_kv_lookup_update(ptbl_view(old(tbl)@), i as int, pkey, valv);
                lemma_pidx_preserved_update(
                    lidx_view(old(pidx)@),
                    ptbl_view(old(tbl)@),
                    ptbl_view(tbl@),
                    pkey,
                    valv,
                    i as int,
                );
                assert(ptbl_view(old(tbl)@)[i as int].0 == pkey);
                assert(pidx_has(lidx_view(old(pidx)@), pkey.1, pkey.0));
            }
            return;
        }
    }
    proof {
        lemma_kv_lookup_none(ptbl_view(old(tbl)@), pkey);
    }
    let ghost keyv = key@;
    let key2 = key.clone();
    tbl.push(((owner, key), val));
    let ghost mi = lidx_view(pidx@);
    lidx_push(pidx, key2, owner);
    proof {
        lemma_ptbl_view_elts(tbl@);
        assert(ptbl_view(tbl@) =~= ptbl_view(old(tbl)@).push((pkey, valv)));
        assert(mi == lidx_view(old(pidx)@));
        lemma_kv_lookup_push(ptbl_view(old(tbl)@), pkey, valv);
        lemma_pidx_extend_push(
            lidx_view(old(pidx)@),
            ptbl_view(old(tbl)@),
            ptbl_view(tbl@),
            lidx_view(pidx@),
            owner,
            keyv,
            valv,
        );
    }
}


/// Equal tables satisfy the same discipline; bridges values across
/// borrow snapshots.
pub proof fn lemma_sorted_ids_eq<T>(a: Seq<(Id, T)>, b: Seq<(Id, T)>)
    requires
        sorted_ids(a),
        b == a,
    ensures
        sorted_ids(b),
{
    assert forall|i: int, j: int| 0 <= i < j < b.len() implies b[i].0.ulid < b[j].0.ulid by {
        assert(b[i] == a[i] && b[j] == a[j]);
    }
}

/// Equal tables carry equal rows; bridges values across borrow
/// snapshots.
pub proof fn lemma_vtbl_wf_eq(a: Seq<(Id, VertexView)>, b: Seq<(Id, VertexView)>)
    requires
        vtbl_wf(a),
        b == a,
    ensures
        vtbl_wf(b),
{
    lemma_sorted_ids_eq(a, b);
    assert forall|i: int| 0 <= i < b.len() implies (#[trigger] b[i]).0.kind == Type::Vertex
        && !b[i].0.is_sentinel() && b[i].1.id == Some(b[i].0) && b[i].1.wf() by {
        assert(b[i] == a[i]);
    }
}

/// As [`lemma_vtbl_wf_eq`], for edges.
pub proof fn lemma_etbl_wf_eq(a: Seq<(Id, EdgeView)>, b: Seq<(Id, EdgeView)>)
    requires
        etbl_wf(a),
        b == a,
    ensures
        etbl_wf(b),
{
    lemma_sorted_ids_eq(a, b);
    assert forall|i: int| 0 <= i < b.len() implies (#[trigger] b[i]).0.kind == Type::Edge
        && !b[i].0.is_sentinel() && b[i].1.id == Some(b[i].0) && b[i].1.wf()
        && b[i].1.to.kind == Type::Vertex && b[i].1.from.kind == Type::Vertex by {
        assert(b[i] == a[i]);
    }
}

/// As [`lemma_vtbl_wf_eq`], for a label index against its table.
pub proof fn lemma_lidx_wf_eq<T>(
    ia: Seq<(Seq<char>, Id)>,
    ta: Seq<(Id, T)>,
    ib: Seq<(Seq<char>, Id)>,
    tb: Seq<(Id, T)>,
    label_of: spec_fn(T) -> Seq<char>,
)
    requires
        lidx_wf(ia, ta, label_of),
        ib == ia,
        tb == ta,
    ensures
        lidx_wf(ib, tb, label_of),
{
    assert forall|i: int| 0 <= i < ib.len() implies {
        let found = id_lookup(tb, (#[trigger] ib[i]).1);
        found is Some && label_of(found->Some_0) == ib[i].0
    } by {
        assert(ib[i] == ia[i]);
        assert(id_lookup(tb, ib[i].1) == id_lookup(ta, ia[i].1));
    }
    assert forall|i: int, j: int| 0 <= i < j < ib.len() implies ib[i].1 != ib[j].1 by {
        assert(ib[i] == ia[i] && ib[j] == ia[j]);
    }
    assert forall|j: int| 0 <= j < tb.len() implies lidx_covers(ib, (#[trigger] tb[j]).0) by {
        assert(tb[j] == ta[j]);
        assert(lidx_covers(ia, ta[j].0));
        let w = choose|w: int| 0 <= w < ia.len() && (#[trigger] ia[w]).1 == ta[j].0;
        assert(ib[w] == ia[w]);
    }
}

/// As [`lemma_vtbl_wf_eq`], for the parameter table.
pub proof fn lemma_ptbl_wf_eq(
    a: Seq<((Id, Seq<char>), PValueView)>,
    b: Seq<((Id, Seq<char>), PValueView)>,
)
    requires
        ptbl_wf(a),
        b == a,
    ensures
        ptbl_wf(b),
{
    assert forall|i: int, j: int| 0 <= i < j < b.len() implies b[i].0 != b[j].0 by {
        assert(b[i] == a[i] && b[j] == a[j]);
    }
}

/// As [`lemma_vtbl_wf_eq`], for the reverse parameter index.
pub proof fn lemma_pidx_wf_eq(
    ia: Seq<(Seq<char>, Id)>,
    ta: Seq<((Id, Seq<char>), PValueView)>,
    ib: Seq<(Seq<char>, Id)>,
    tb: Seq<((Id, Seq<char>), PValueView)>,
)
    requires
        pidx_wf(ia, ta),
        ib == ia,
        tb == ta,
    ensures
        pidx_wf(ib, tb),
{
    assert forall|i: int, j: int| 0 <= i < j < ib.len() implies !(ib[i].0 == ib[j].0 && ib[i].1
        == ib[j].1) by {
        assert(ib[i] == ia[i] && ib[j] == ia[j]);
    }
    assert forall|i: int| 0 <= i < ib.len() implies kv_lookup(
        tb,
        ((#[trigger] ib[i]).1, ib[i].0),
    ) is Some by {
        assert(ib[i] == ia[i]);
        assert(kv_lookup(tb, (ib[i].1, ib[i].0)) == kv_lookup(ta, (ia[i].1, ia[i].0)));
    }
    assert forall|j: int| 0 <= j < tb.len() implies pidx_has(
        ib,
        (#[trigger] tb[j]).0.1,
        tb[j].0.0,
    ) by {
        assert(tb[j] == ta[j]);
        assert(pidx_has(ia, ta[j].0.1, ta[j].0.0));
        let w = choose|w: int| 0 <= w < ia.len() && #[trigger] ia[w] == (ta[j].0.1, ta[j].0.0);
        assert(ib[w] == ia[w]);
    }
}

/// The label accessor for vertex rows.
pub open spec fn vlabel_of() -> spec_fn(VertexView) -> Seq<char> {
    |v: VertexView| v.label
}

/// The label accessor for edge rows.
pub open spec fn elabel_of() -> spec_fn(EdgeView) -> Seq<char> {
    |e: EdgeView| e.label
}

/// The six sub-tables of one store: primary vertices and edges with
/// their label indexes, and the shared parameter table with its
/// reverse index.
pub struct Store {
    pub vertices: Vec<(Id, Vertex)>,
    pub vertex_idx: Vec<(String, Id)>,
    pub edges: Vec<(Id, Edge)>,
    pub edge_idx: Vec<(String, Id)>,
    pub parameters: Vec<((Id, String), PValue)>,
    pub parameters_idx: Vec<(String, Id)>,
}

impl Store {
    /// The whole storage discipline: well-formed primary tables of the
    /// right kinds with no sentinel keys, and exact secondary indexes.
    pub open spec fn wf(self) -> bool {
        &&& vtbl_wf(tbl_view(self.vertices@))
        &&& lidx_wf(lidx_view(self.vertex_idx@), tbl_view(self.vertices@), vlabel_of())
        &&& etbl_wf(tbl_view(self.edges@))
        &&& lidx_wf(lidx_view(self.edge_idx@), tbl_view(self.edges@), elabel_of())
        &&& ptbl_wf(ptbl_view(self.parameters@))
        &&& pidx_wf(lidx_view(self.parameters_idx@), ptbl_view(self.parameters@))
    }

    /// An empty store.
    pub fn new() -> (r: Store)
        ensures
            r.wf(),
            r.vertices@.len() == 0,
            r.vertex_idx@.len() == 0,
            r.edges@.len() == 0,
            r.edge_idx@.len() == 0,
            r.parameters@.len() == 0,
            r.parameters_idx@.len() == 0,
    {
        let r = Store {
            vertices: Vec::new(),
            vertex_idx: Vec::new(),
            edges: Vec::new(),
            edge_idx: Vec::new(),
            parameters: Vec::new(),
            parameters_idx: Vec::new(),
        };
        proof {
            lemma_tbl_view_elts(r.vertices@);
            lemma_tbl_view_elts(r.edges@);
            lemma_lidx_view_elts(r.vertex_idx@);
            lemma_lidx_view_elts(r.edge_idx@);
            lemma_lidx_view_elts(r.parameters_idx@);
            lemma_ptbl_view_elts(r.parameters@);
        }
        r
    }

    /// Truncate all six sub-tables.
    pub fn clear(&mut self)
        ensures
            final(self).wf(),
            final(self).vertices@.len() == 0,
            final(self).vertex_idx@.len() == 0,
            final(self).edges@.len() == 0,
            final(self).edge_idx@.len() == 0,
            final(self).parameters@.len() == 0,
            final(self).parameters_idx@.len() == 0,
    {
        self.vertices.clear();
        self.vertex_idx.clear();
        self.edges.clear();
        self.edge_idx.clear();
        self.parameters.clear();
        self.parameters_idx.clear();
        proof {
            lemma_tbl_view_elts(self.vertices@);
            lemma_tbl_view_elts(self.edges@);
            lemma_lidx_view_elts(self.vertex_idx@);
            lemma_lidx_view_elts(self.edge_idx@);
            lemma_lidx_view_elts(self.parameters_idx@);
            lemma_ptbl_view_elts(self.parameters@);
        }
    }

    /// How many vertices are stored. The label index always agrees.
    pub fn vertex_count(&self) -> (r: usize)
        requires
            self.wf(),
        ensures
            r == tbl_view(self.vertices@).len(),
            r == lidx_view(self.vertex_idx@).len(),
    {
        proof {
            lemma_tbl_view_elts(self.vertices@);
            lemma_lidx_view_elts(self.vertex_idx@);
        }
        let primary = self.vertices.len();
        let index = self.vertex_idx.len();
        assert(primary == index);
        primary
    }

    /// How many edges are stored. The label index always agrees.
    pub fn edge_count(&self) -> (r: usize)
        requires
            self.wf(),
        ensures
            r == tbl_view(self.edges@).len(),
            r == lidx_view(self.edge_idx@).len(),
    {
        proof {
            lemma_tbl_view_elts(self.edges@);
            lemma_lidx_view_elts(self.edge_idx@);
        }
        let primary = self.edges.len();
        let index = self.edge_idx.len();
        assert(primary == index);
        primary
    }

    /// The stored vertex under an id, if any.
    pub fn get_vertex(&self, id: &Id) -> (r: Option<Vertex>)
        ensures
            r matches Some(v) ==> id_lookup(tbl_view(self.vertices@), *id) == Some(v@),
            r is None ==> id_lookup(tbl_view(self.vertices@), *id) is None,
    {
        match tbl_get(&self.vertices, id) {
            Some(v) => Some(v.duplicate()),
            None => None,
        }
    }

    /// The stored edge under an id, if any.
    pub fn get_edge(&self, id: &Id) -> (r: Option<Edge>)
        ensures
            r matches Some(e) ==> id_lookup(tbl_view(self.edges@), *id) == Some(e@),
            r is None ==> id_lookup(tbl_view(self.edges@), *id) is None,
    {
        match tbl_get(&self.edges, id) {
            Some(e) => Some(e.duplicate()),
            None => None,
        }
    }
}

/// Upsert every binding of a parameter mapping under one owner.
fn write_params(
    tbl: &mut Vec<((Id, String), PValue)>,
    pidx: &mut Vec<(String, Id)>,
    owner: Id,
    ps: &Vec<(String, PValue)>,
)
    requires
        params_unique(params_view(ps@)),
        ptbl_wf(ptbl_view(old(tbl)@)),
        pidx_wf(lidx_view(old(pidx)@), ptbl_view(old(tbl)@)),
    ensures
        ptbl_wf(ptbl_view(final(tbl)@)),
        pidx_wf(lidx_view(final(pidx)@), ptbl_view(final(tbl)@)),
        forall|kk: Seq<char>| #[trigger] param_lookup(params_view(ps@), kk) is Some
            ==> p_lookup(ptbl_view(final(tbl)@), owner, kk)
            == param_lookup(params_view(ps@), kk),
        forall|kk: Seq<char>| #[trigger] param_lookup(params_view(ps@), kk) is None
            ==> p_lookup(ptbl_view(final(tbl)@), owner, kk)
            == p_lookup(ptbl_view(old(tbl)@), owner, kk),
        forall|o2: Id, kk: Seq<char>| o2 != owner
            ==> #[trigger] p_lookup(ptbl_view(final(tbl)@), o2, kk)
            == p_lookup(ptbl_view(old(tbl)@), o2, kk),
{
    proof {
        crate::pvalue::lemma_params_view_elts(ps@);
    }
    let ghost psv = params_view(ps@);
    let n = ps.len();
    let mut i: usize = 0;
    while i < n
        invariant
            i <= n,
            n == ps@.len(),
            psv == params_view(ps@),
            psv.len() == n,
            forall|j: int| 0 <= j < n ==> psv[j] == (ps@[j].0@, pv_view(ps@[j].1)),
            params_unique(psv),
            ptbl_wf(ptbl_view(tbl@)),
            pidx_wf(lidx_view(pidx@), ptbl_view(tbl@)),
            forall|kk: Seq<char>| #[trigger] param_lookup(psv.take(i as int), kk) is Some
                ==> p_lookup(ptbl_view(tbl@), owner, kk)
                == param_lookup(psv.take(i as int), kk),
            forall|kk: Seq<char>| #[trigger] param_lookup(psv.take(i as int), kk) is None
                ==> p_lookup(ptbl_view(tbl@), owner, kk)
                == p_lookup(ptbl_view(old(tbl)@), owner, kk),
            forall|o2: Id, kk: Seq<char>| o2 != owner
                ==> #[trigger] p_lookup(ptbl_view(tbl@), o2, kk)
                == p_lookup(ptbl_view(old(tbl)@), o2, kk),
        decreases n - i,
    {
        let ghost pre = ptbl_view(tbl@);
        let ghost iprev = i as int;
        let ghost ki = ps@[i as int].0@;
        let ghost vi = pv_view(ps@[i as int].1);
        let k_exec = ps[i].0.clone();
        let v_exec = ps[i].1.duplicate();
        proof {
            assert(k_exec@ == ki);
            assert(pv_view(v_exec) == vi);
        }
        params_put(tbl, pidx, owner, k_exec, v_exec);
        i = i + 1;
        proof {
            assert(p_lookup(ptbl_view(tbl@), owner, ki) == Some(vi));
            assert(psv.take(i as int) =~= psv.take(iprev).push((ki, vi)));
            assert forall|jj: int| 0 <= jj < iprev implies psv.take(iprev)[jj].0 != ki by {
                assert(psv[jj].0 != psv[iprev].0);
            }
            crate::pvalue::lemma_param_lookup_none(psv.take(iprev), ki);
            crate::pvalue::lemma_param_lookup_push(psv.take(iprev), ki, vi);
            assert forall|kk: Seq<char>| #[trigger] param_lookup(psv.take(i as int), kk) is Some
                implies p_lookup(ptbl_view(tbl@), owner, kk) == param_lookup(
                psv.take(i as int),
                kk,
            ) by {
                assert(param_lookup(psv.take(i as int), kk) == param_lookup(
                    psv.take(iprev).push((ki, vi)),
                    kk,
                ));
                if kk == ki {
                    assert(param_lookup(psv.take(iprev).push((ki, vi)), ki) == Some(vi));
                } else {
                    assert(param_lookup(psv.take(iprev).push((ki, vi)), kk) == param_lookup(
                        psv.take(iprev),
                        kk,
                    ));
                    assert(param_lookup(psv.take(iprev), kk) is Some);
                    assert(p_lookup(pre, owner, kk) == param_lookup(psv.take(iprev), kk));
                    assert(kv_lookup(ptbl_view(tbl@), (owner, kk)) == kv_lookup(
                        pre,
                        (owner, kk),
                    ));
                }
            }
            assert forall|kk: Seq<char>| #[trigger] param_lookup(psv.take(i as int), kk) is None
                implies p_lookup(ptbl_view(tbl@), owner, kk) == p_lookup(
                ptbl_view(old(tbl)@),
                owner,
                kk,
            ) by {
                assert(param_lookup(psv.take(i as int), kk) == param_lookup(
                    psv.take(iprev).push((ki, vi)),
                    kk,
                ));
                assert(kk != ki);
                assert(param_lookup(psv.take(iprev).push((ki, vi)), kk) == param_lookup(
                    psv.take(iprev),
                    kk,
                ));
                assert(param_lookup(psv.take(iprev), kk) is None);
                assert(p_lookup(pre, owner, kk) == p_lookup(ptbl_view(old(tbl)@), owner, kk));
                assert(kv_lookup(ptbl_view(tbl@), (owner, kk)) == kv_lookup(pre, (owner, kk)));
            }
            assert forall|o2: Id, kk: Seq<char>| o2 != owner implies #[trigger] p_lookup(
                ptbl_view(tbl@),
                o2,
                kk,
            ) == p_lookup(ptbl_view(old(tbl)@), o2, kk) by {
                assert((o2, kk) != (owner, ki));
                assert(kv_lookup(ptbl_view(tbl@), (o2, kk)) == kv_lookup(pre, (o2, kk)));
                assert(p_lookup(pre, o2, kk) == p_lookup(ptbl_view(old(tbl)@), o2, kk));
            }
        }
    }
    proof {
        assert(psv.take(n as int) =~= psv);
        assert forall|kk: Seq<char>| #[trigger] param_lookup(params_view(ps@), kk) is Some
            implies p_lookup(ptbl_view(tbl@), owner, kk) == param_lookup(
            params_view(ps@),
            kk,
        ) by {
            assert(param_lookup(psv.take(n as int), kk) == param_lookup(params_view(ps@), kk));
        }
        assert forall|kk: Seq<char>| #[trigger] param_lookup(params_view(ps@), kk) is None
            implies p_lookup(ptbl_view(tbl@), owner, kk) == p_lookup(
            ptbl_view(old(tbl)@),
            owner,
            kk,
        ) by {
            assert(param_lookup(psv.take(n as int), kk) == param_lookup(params_view(ps@), kk));
        }
    }
}


impl Store {
    /// Write a vertex row under its id: primary payload, exact label
    /// index, and every parameter binding upserted with its reverse
    /// entry.
    pub fn write_vertex(&mut self, id: Id, v: Vertex)
        requires
            old(self).wf(),
            v@.id == Some(id),
            v@.wf(),
            id.kind == Type::Vertex,
            !id.is_sentinel(),
        ensures
            final(self).wf(),
            final(self).edges@ == old(self).edges@,
            final(self).edge_idx@ == old(self).edge_idx@,
            id_lookup(tbl_view(final(self).vertices@), id) == Some(v@),
            forall|id2: Id| id2 != id ==> id_lookup(tbl_view(final(self).vertices@), id2)
                == id_lookup(tbl_view(old(self).vertices@), id2),
            tbl_view(final(self).vertices@).len() == tbl_view(old(self).vertices@).len() + (
            if id_lookup(tbl_view(old(self).vertices@), id) is Some {
                0int
            } else {
                1int
            }),
            (id_lookup(tbl_view(old(self).vertices@), id) is Some ==> exists|i: int|
                0 <= i < tbl_view(old(self).vertices@).len()
                    && (#[trigger] tbl_view(old(self).vertices@)[i]).0 == id
                    && tbl_view(final(self).vertices@) == tbl_view(old(self).vertices@).update(
                    i,
                    (id, v@),
                )),
            (id_lookup(tbl_view(old(self).vertices@), id) is None ==> exists|i: int|
                0 <= i <= tbl_view(old(self).vertices@).len()
                    && tbl_view(final(self).vertices@)
                    == #[trigger] tbl_view(old(self).vertices@).insert(i, (id, v@))),
            lidx_has(lidx_view(final(self).vertex_idx@), v@.label, id),
            forall|l: Seq<char>| l != v@.label ==> !lidx_has(
                lidx_view(final(self).vertex_idx@),
                l,
                id,
            ),
            forall|l: Seq<char>, id2: Id| id2 != id ==> (lidx_has(
                lidx_view(final(self).vertex_idx@),
                l,
                id2,
            ) <==> lidx_has(lidx_view(old(self).vertex_idx@), l, id2)),
            forall|kk: Seq<char>| #[trigger] param_lookup(v@.params, kk) is Some ==> p_lookup(
                ptbl_view(final(self).parameters@),
                id,
                kk,
            ) == param_lookup(v@.params, kk),
            forall|kk: Seq<char>| #[trigger] param_lookup(v@.params, kk) is None ==> p_lookup(
                ptbl_view(final(self).parameters@),
                id,
                kk,
            ) == p_lookup(ptbl_view(old(self).parameters@), id, kk),
            forall|o2: Id, kk: Seq<char>| o2 != id ==> #[trigger] p_lookup(
                ptbl_view(final(self).parameters@),
                o2,
                kk,
            ) == p_lookup(ptbl_view(old(self).parameters@), o2, kk),
    {
        let parameters = crate::pvalue::duplicate_params(&v.parameters);
        let label = v.get_label();
        proof {
            lemma_tbl_view_elts(self.vertices@);
        }
        indexed_put(&mut self.vertices, &mut self.vertex_idx, id, label, v, Ghost(vlabel_of()));
        proof {
            lemma_ptbl_wf_eq(ptbl_view(old(self).parameters@), ptbl_view(self.parameters@));
            lemma_pidx_wf_eq(
                lidx_view(old(self).parameters_idx@),
                ptbl_view(old(self).parameters@),
                lidx_view(self.parameters_idx@),
                ptbl_view(self.parameters@),
            );
        }
        let ghost pmid = ptbl_view(self.parameters@);
        proof {
            assert(pmid == ptbl_view(old(self).parameters@));
        }
        write_params(&mut self.parameters, &mut self.parameters_idx, id, &parameters);
        proof {
            assert forall|kk: Seq<char>| #[trigger] param_lookup(v@.params, kk) is Some
                implies p_lookup(ptbl_view(self.parameters@), id, kk) == param_lookup(
                v@.params,
                kk,
            ) by {
                assert(param_lookup(params_view(parameters@), kk) == param_lookup(
                    v@.params,
                    kk,
                ));
            }
            assert forall|kk: Seq<char>| #[trigger] param_lookup(v@.params, kk) is None
                implies p_lookup(ptbl_view(self.parameters@), id, kk) == p_lookup(
                ptbl_view(old(self).parameters@),
                id,
                kk,
            ) by {
                assert(param_lookup(params_view(parameters@), kk) == param_lookup(
                    v@.params,
                    kk,
                ));
            }
            assert forall|o2: Id, kk: Seq<char>| o2 != id implies #[trigger] p_lookup(
                ptbl_view(self.parameters@),
                o2,
                kk,
            ) == p_lookup(ptbl_view(old(self).parameters@), o2, kk) by {
            }
            let nv = tbl_view(self.vertices@);
            let ov = tbl_view(old(self).vertices@);
            // The new table keeps every row well formed.
            assert forall|i: int| 0 <= i < nv.len() implies (#[trigger] nv[i]).1.id
                == Some(nv[i].0) && nv[i].1.wf() && !nv[i].0.is_sentinel() by {
                if id_lookup(ov, id) is Some {
                    let p = choose|p: int|
                        0 <= p < ov.len() && (#[trigger] ov[p]).0 == id && nv == ov.update(
                            p,
                            (id, v@),
                        );
                    if i != p {
                        assert(nv[i] == ov[i]);
                    }
                } else {
                    let p = choose|p: int| 0 <= p <= ov.len() && nv == #[trigger] ov.insert(
                        p,
                        (id, v@),
                    );
                    if i < p {
                        assert(nv[i] == ov[i]);
                    } else if i > p {
                        assert(nv[i] == ov[i - 1]);
                    }
                }
            }
        }
    }

    /// Write an edge row under its id, symmetrically to
    /// [`Store::write_vertex`].
    pub fn write_edge(&mut self, id: Id, e: Edge)
        requires
            old(self).wf(),
            e@.id == Some(id),
            e@.wf(),
            id.kind == Type::Edge,
            !id.is_sentinel(),
            e@.to.kind == Type::Vertex,
            e@.from.kind == Type::Vertex,
        ensures
            final(self).wf(),
            final(self).vertices@ == old(self).vertices@,
            final(self).vertex_idx@ == old(self).vertex_idx@,
            id_lookup(tbl_view(final(self).edges@), id) == Some(e@),
            forall|id2: Id| id2 != id ==> id_lookup(tbl_view(final(self).edges@), id2)
                == id_lookup(tbl_view(old(self).edges@), id2),
            tbl_view(final(self).edges@).len() == tbl_view(old(self).edges@).len() + (
            if id_lookup(tbl_view(old(self).edges@), id) is Some {
                0int
            } else {
                1int
            }),
            (id_lookup(tbl_view(old(self).edges@), id) is Some ==> exists|i: int|
                0 <= i < tbl_view(old(self).edges@).len()
                    && (#[trigger] tbl_view(old(self).edges@)[i]).0 == id
                    && tbl_view(final(self).edges@) == tbl_view(old(self).edges@).update(
                    i,
                    (id, e@),
                )),
            (id_lookup(tbl_view(old(self).edges@), id) is None ==> exists|i: int|
                0 <= i <= tbl_view(old(self).edges@).len() && tbl_view(final(self).edges@)
                    == #[trigger] tbl_view(old(self).edges@).insert(i, (id, e@))),
            lidx_has(lidx_view(final(self).edge_idx@), e@.label, id),
            forall|l: Seq<char>| l != e@.label ==> !lidx_has(
                lidx_view(final(self).edge_idx@),
                l,
                id,
            ),
            forall|l: Seq<char>, id2: Id| id2 != id ==> (lidx_has(
                lidx_view(final(self).edge_idx@),
                l,
                id2,
            ) <==> lidx_has(lidx_view(old(self).edge_idx@), l, id2)),
            forall|kk: Seq<char>| #[trigger] param_lookup(e@.params, kk) is Some ==> p_lookup(
                ptbl_view(final(self).parameters@),
                id,
                kk,
            ) == param_lookup(e@.params, kk),
            forall|kk: Seq<char>| #[trigger] param_lookup(e@.params, kk) is None ==> p_lookup(
                ptbl_view(final(self).parameters@),
                id,
                kk,
            ) == p_lookup(ptbl_view(old(self).parameters@), id, kk),
            forall|o2: Id, kk: Seq<char>| o2 != id ==> #[trigger] p_lookup(
                ptbl_view(final(self).parameters@),
                o2,
                kk,
            ) == p_lookup(ptbl_view(old(self).parameters@), o2, kk),
    {
        let parameters = crate::pvalue::duplicate_params(&e.parameters);
        let label = e.get_label();
        let ghost to = e@.to;
        let ghost from = e@.from;
        proof {
            lemma_tbl_view_elts(self.edges@);
        }
        indexed_put(&mut self.edges, &mut self.edge_idx, id, label, e, Ghost(elabel_of()));
        proof {
            lemma_ptbl_wf_eq(ptbl_view(old(self).parameters@), ptbl_view(self.parameters@));
            lemma_pidx_wf_eq(
                lidx_view(old(self).parameters_idx@),
                ptbl_view(old(self).parameters@),
                lidx_view(self.parameters_idx@),
                ptbl_view(self.parameters@),
            );
        }
        let ghost pmid = ptbl_view(self.parameters@);
        proof {
            assert(pmid == ptbl_view(old(self).parameters@));
        }
        write_params(&mut self.parameters, &mut self.parameters_idx, id, &parameters);
        proof {
            assert forall|kk: Seq<char>| #[trigger] param_lookup(e@.params, kk) is Some
                implies p_lookup(ptbl_view(self.parameters@), id, kk) == param_lookup(
                e@.params,
                kk,
            ) by {
                assert(param_lookup(params_view(parameters@), kk) == param_lookup(
                    e@.params,
                    kk,
                ));
            }
            assert forall|kk: Seq<char>| #[trigger] param_lookup(e@.params, kk) is None
                implies p_lookup(ptbl_view(self.parameters@), id, kk) == p_lookup(
                ptbl_view(old(self).parameters@),
                id,
                kk,
            ) by {
                assert(param_lookup(params_view(parameters@), kk) == param_lookup(
                    e@.params,
                    kk,
                ));
            }
            assert forall|o2: Id, kk: Seq<char>| o2 != id implies #[trigger] p_lookup(
                ptbl_view(self.parameters@),
                o2,
                kk,
            ) == p_lookup(ptbl_view(old(self).parameters@), o2, kk) by {
            }
            let nv = tbl_view(self.edges@);
            let ov = tbl_view(old(self).edges@);
            assert forall|i: int| 0 <= i < nv.len() implies (#[trigger] nv[i]).1.id
                == Some(nv[i].0) && nv[i].1.wf() && !nv[i].0.is_sentinel()
                && nv[i].1.to.kind == Type::Vertex && nv[i].1.from.kind == Type::Vertex by {
                if id_lookup(ov, id) is Some {
                    let p = choose|p: int|
                        0 <= p < ov.len() && (#[trigger] ov[p]).0 == id && nv == ov.update(
                            p,
                            (id, e@),
                        );
                    if i != p {
                        assert(nv[i] == ov[i]);
                    }
                } else {
                    let p = choose|p: int| 0 <= p <= ov.len() && nv == #[trigger] ov.insert(
                        p,
                        (id, e@),
                    );
                    if i < p {
                        assert(nv[i] == ov[i]);
                    } else if i > p {
                        assert(nv[i] == ov[i - 1]);
                    }
                }
            }
        }
    }
}


/// The rows of a table carrying a label, in table order.
pub open spec fn label_scan<T>(s: Seq<(Id, T)>, l: Seq<char>, label_of: spec_fn(T) -> Seq<char>) -> Seq<T>
    decreases s,
{
    if s.len() == 0 {
        Seq::empty()
    } else {
        let rest = label_scan(s.drop_first(), l, label_of);
        if label_of(s[0].1) == l {
            seq![s[0].1] + rest
        } else {
            rest
        }
    }
}

/// Extending a scanned prefix by one row appends that row exactly when
/// its label matches.
pub proof fn lemma_label_scan_take<T>(
    s: Seq<(Id, T)>,
    l: Seq<char>,
    label_of: spec_fn(T) -> Seq<char>,
    i: int,
)
    requires
        0 <= i < s.len(),
    ensures
        label_scan(s.take(i + 1), l, label_of) == label_scan(s.take(i), l, label_of) + (
        if label_of(s[i].1) == l {
            seq![s[i].1]
        } else {
            Seq::<T>::empty()
        }),
    decreases i,
{
    let a = s.take(i + 1);
    let c = s.take(i);
    if i == 0 {
        assert(a[0] == s[0]);
        assert(a.drop_first() =~= Seq::<(Id, T)>::empty());
        assert(c =~= Seq::<(Id, T)>::empty());
        if label_of(s[0].1) == l {
            assert(label_scan(a, l, label_of) =~= label_scan(c, l, label_of) + seq![s[0].1]);
        } else {
            assert(label_scan(a, l, label_of) =~= label_scan(c, l, label_of)
                + Seq::<T>::empty());
        }
    } else {
        let d = s.drop_first();
        lemma_label_scan_take(d, l, label_of, i - 1);
        assert(a[0] == s[0] && c[0] == s[0]);
        assert(a.drop_first() =~= d.take(i));
        assert(c.drop_first() =~= d.take(i - 1));
        assert(d[i - 1] == s[i]);
        if label_of(s[i].1) == l {
            assert(label_scan(a, l, label_of) =~= label_scan(c, l, label_of) + seq![s[i].1]);
        } else {
            assert(label_scan(a, l, label_of) =~= label_scan(c, l, label_of)
                + Seq::<T>::empty());
        }
    }
}

/// The rows found under a sequence of ids, in input order; missing ids
/// are skipped.
pub open spec fn ids_scan<T>(tbl: Seq<(Id, T)>, ids: Seq<Id>) -> Seq<T>
    decreases ids,
{
    if ids.len() == 0 {
        Seq::empty()
    } else {
        let rest = ids_scan(tbl, ids.drop_first());
        match id_lookup(tbl, ids[0]) {
            Some(v) => seq![v] + rest,
            None => rest,
        }
    }
}

/// Extending the scanned ids by one appends that id's row exactly when
/// it is stored.
pub proof fn lemma_ids_scan_take<T>(tbl: Seq<(Id, T)>, ids: Seq<Id>, i: int)
    requires
        0 <= i < ids.len(),
    ensures
        ids_scan(tbl, ids.take(i + 1)) == ids_scan(tbl, ids.take(i)) + (match id_lookup(
            tbl,
            ids[i],
        ) {
            Some(v) => seq![v],
            None => Seq::<T>::empty(),
        }),
    decreases i,
{
    let a = ids.take(i + 1);
    let c = ids.take(i);
    if i == 0 {
        assert(a[0] == ids[0]);
        assert(a.drop_first() =~= Seq::<Id>::empty());
        assert(c =~= Seq::<Id>::empty());
        match id_lookup(tbl, ids[0]) {
            Some(v) => {
                assert(ids_scan(tbl, a) =~= ids_scan(tbl, c) + seq![v]);
            },
            None => {
                assert(ids_scan(tbl, a) =~= ids_scan(tbl, c) + Seq::<T>::empty());
            },
        }
    } else {
        let d = ids.drop_first();
        lemma_ids_scan_take(tbl, d, i - 1);
        assert(a[0] == ids[0] && c[0] == ids[0]);
        assert(a.drop_first() =~= d.take(i));
        assert(c.drop_first() =~= d.take(i - 1));
        assert(d[i - 1] == ids[i]);
        match id_lookup(tbl, ids[i]) {
            Some(v) => {
                assert(ids_scan(tbl, a) =~= ids_scan(tbl, c) + seq![v]);
            },
            None => {
                assert(ids_scan(tbl, a) =~= ids_scan(tbl, c) + Seq::<T>::empty());
            },
        }
    }
}

/// Views of a sequence of vertices, element-wise.
pub open spec fn vviews(s: Seq<Vertex>) -> Seq<VertexView>
    decreases s,
{
    if s.len() == 0 {
        Seq::empty()
    } else {
        seq![s[0]@] + vviews(s.drop_first())
    }
}

/// Element characterization of `vviews`.
pub proof fn lemma_vviews_elts(s: Seq<Vertex>)
    ensures
        vviews(s).len() == s.len(),
        forall|i: int| 0 <= i < s.len() ==> vviews(s)[i] == s[i]@,
    decreases s.len(),
{
    if s.len() > 0 {
        lemma_vviews_elts(s.drop_first());
    }
}

/// Views of a sequence of edges, element-wise.
pub open spec fn eviews(s: Seq<Edge>) -> Seq<EdgeView>
    decreases s,
{
    if s.len() == 0 {
        Seq::empty()
    } else {
        seq![s[0]@] + eviews(s.drop_first())
    }
}

/// Element characterization of `eviews`.
pub proof fn lemma_eviews_elts(s: Seq<Edge>)
    ensures
        eviews(s).len() == s.len(),
        forall|i: int| 0 <= i < s.len() ==> eviews(s)[i] == s[i]@,
    decreases s.len(),
{
    if s.len() > 0 {
        lemma_eviews_elts(s.drop_first());
    }
}

impl Store {
    /// The stored vertices carrying a label, in id order.
    pub fn get_vertices_by_label(&self, label: &String) -> (r: Vec<Vertex>)
        ensures
            vviews(r@) == label_scan(tbl_view(self.vertices@), label@, vlabel_of()),
    {
        proof {
            lemma_tbl_view_elts(self.vertices@);
        }
        let ghost tv = tbl_view(self.vertices@);
        let mut r: Vec<Vertex> = Vec::new();
        let n = self.vertices.len();
        let mut i: usize = 0;
        proof {
            assert(tv.take(0) =~= Seq::<(Id, VertexView)>::empty());
            lemma_vviews_elts(r@);
            assert(vviews(r@) =~= label_scan(tv.take(0), label@, vlabel_of()));
        }
        while i < n
            invariant
                i <= n,
                n == self.vertices@.len(),
                tv == tbl_view(self.vertices@),
                tv.len() == n,
                forall|j: int| 0 <= j < n ==> tv[j] == (
                    self.vertices@[j].0,
                    self.vertices@[j].1@,
                ),
                vviews(r@) == label_scan(tv.take(i as int), label@, vlabel_of()),
            decreases n - i,
        {
            let ghost prev = r@;
            if self.vertices[i].1.label.eq(label) {
                r.push(self.vertices[i].1.duplicate());
                proof {
                    lemma_vviews_elts(prev);
                    lemma_vviews_elts(r@);
                    assert(vviews(r@) =~= vviews(prev) + seq![tv[i as int].1]);
                }
            }
            proof {
                lemma_label_scan_take(tv, label@, vlabel_of(), i as int);
                assert(vlabel_of()(tv[i as int].1) == self.vertices@[i as int].1@.label);
                if !(self.vertices@[i as int].1@.label == label@) {
                    assert(vviews(r@) =~= label_scan(tv.take(i as int), label@, vlabel_of())
                        + Seq::<VertexView>::empty());
                }
            }
            i = i + 1;
        }
        proof {
            assert(tv.take(n as int) =~= tv);
        }
        r
    }

    /// The first stored vertex carrying a label, if any.
    pub fn get_vertex_by_label(&self, label: &String) -> (r: Option<Vertex>)
        ensures
            ({
                let scan = label_scan(tbl_view(self.vertices@), label@, vlabel_of());
                match r {
                    Some(v) => scan.len() > 0 && v@ == scan[0],
                    None => scan.len() == 0,
                }
            }),
    {
        let mut all = self.get_vertices_by_label(label);
        proof {
            lemma_vviews_elts(all@);
        }
        if all.len() == 0 {
            None
        } else {
            let v = all.remove(0);
            Some(v)
        }
    }

    /// The stored edges carrying a label, in id order.
    pub fn get_edges_by_label(&self, label: &String) -> (r: Vec<Edge>)
        ensures
            eviews(r@) == label_scan(tbl_view(self.edges@), label@, elabel_of()),
    {
        proof {
            lemma_tbl_view_elts(self.edges@);
        }
        let ghost tv = tbl_view(self.edges@);
        let mut r: Vec<Edge> = Vec::new();
        let n = self.edges.len();
        let mut i: usize = 0;
        proof {
            assert(tv.take(0) =~= Seq::<(Id, EdgeView)>::empty());
            lemma_eviews_elts(r@);
            assert(eviews(r@) =~= label_scan(tv.take(0), label@, elabel_of()));
        }
        while i < n
            invariant
                i <= n,
                n == self.edges@.len(),
                tv == tbl_view(self.edges@),
                tv.len() == n,
                forall|j: int| 0 <= j < n ==> tv[j] == (self.edges@[j].0, self.edges@[j].1@),
                eviews(r@) == label_scan(tv.take(i as int), label@, elabel_of()),
            decreases n - i,
        {
            let ghost prev = r@;
            if self.edges[i].1.label.eq(label) {
                r.push(self.edges[i].1.duplicate());
                proof {
                    lemma_eviews_elts(prev);
                    lemma_eviews_elts(r@);
                    assert(eviews(r@) =~= eviews(prev) + seq![tv[i as int].1]);
                }
            }
            proof {
                lemma_label_scan_take(tv, label@, elabel_of(), i as int);
                assert(elabel_of()(tv[i as int].1) == self.edges@[i as int].1@.label);
                if !(self.edges@[i as int].1@.label == label@) {
                    assert(eviews(r@) =~= label_scan(tv.take(i as int), label@, elabel_of())
                        + Seq::<EdgeView>::empty());
                }
            }
            i = i + 1;
        }
        proof {
            assert(tv.take(n as int) =~= tv);
        }
        r
    }

    /// The first stored edge carrying a label, if any.
    pub fn get_edge_by_label(&self, label: &String) -> (r: Option<Edge>)
        ensures
            ({
                let scan = label_scan(tbl_view(self.edges@), label@, elabel_of());
                match r {
                    Some(e) => scan.len() > 0 && e@ == scan[0],
                    None => scan.len() == 0,
                }
            }),
    {
        let mut all = self.get_edges_by_label(label);
        proof {
            lemma_eviews_elts(all@);
        }
        if all.len() == 0 {
            None
        } else {
            let e = all.remove(0);
            Some(e)
        }
    }

    /// Every stored vertex, in id order, as values.
    pub fn vertices_all(&self) -> (r: Vec<PValue>)
        ensures
            r@.len() == tbl_view(self.vertices@).len(),
            forall|j: int| 0 <= j < r@.len() ==> r@[j]@ == PValueView::Vertex(
                tbl_view(self.vertices@)[j].1,
            ),
    {
        proof {
            lemma_tbl_view_elts(self.vertices@);
        }
        let n = self.vertices.len();
        let mut r: Vec<PValue> = Vec::new();
        let mut i: usize = 0;
        while i < n
            invariant
                i <= n,
                n == self.vertices@.len(),
                tbl_view(self.vertices@).len() == n,
                forall|j: int| 0 <= j < n ==> tbl_view(self.vertices@)[j] == (
                    self.vertices@[j].0,
                    self.vertices@[j].1@,
                ),
                r@.len() == i,
                forall|j: int| 0 <= j < i ==> r@[j]@ == PValueView::Vertex(
                    tbl_view(self.vertices@)[j].1,
                ),
            decreases n - i,
        {
            r.push(PValue::Vertex(self.vertices[i].1.duplicate()));
            i = i + 1;
        }
        r
    }

    /// Every stored edge, in id order, as values.
    pub fn edges_all(&self) -> (r: Vec<PValue>)
        ensures
            r@.len() == tbl_view(self.edges@).len(),
            forall|j: int| 0 <= j < r@.len() ==> r@[j]@ == PValueView::Edge(
                tbl_view(self.edges@)[j].1,
            ),
    {
        proof {
            lemma_tbl_view_elts(self.edges@);
        }
        let n = self.edges.len();
        let mut r: Vec<PValue> = Vec::new();
        let mut i: usize = 0;
        while i < n
            invariant
                i <= n,
                n == self.edges@.len(),
                tbl_view(self.edges@).len() == n,
                forall|j: int| 0 <= j < n ==> tbl_view(self.edges@)[j] == (
                    self.edges@[j].0,
                    self.edges@[j].1@,
                ),
                r@.len() == i,
                forall|j: int| 0 <= j < i ==> r@[j]@ == PValueView::Edge(
                    tbl_view(self.edges@)[j].1,
                ),
            decreases n - i,
        {
            r.push(PValue::Edge(self.edges[i].1.duplicate()));
            i = i + 1;
        }
        r
    }

    /// The stored vertices under the given ids, in input order; missing
    /// ids are skipped.
    pub fn get_vertices_by_ids(&self, ids: &Vec<Id>) -> (r: Vec<PValue>)
        ensures
            ({
                let scan = ids_scan(tbl_view(self.vertices@), ids@);
                r@.len() == scan.len() && forall|j: int| 0 <= j < r@.len() ==> r@[j]@
                    == PValueView::Vertex(scan[j])
            }),
    {
        let ghost tv = tbl_view(self.vertices@);
        let n = ids.len();
        let mut r: Vec<PValue> = Vec::new();
        let mut i: usize = 0;
        proof {
            assert(ids@.take(0) =~= Seq::<Id>::empty());
        }
        while i < n
            invariant
                i <= n,
                n == ids@.len(),
                tv == tbl_view(self.vertices@),
                ({
                    let scan = ids_scan(tv, ids@.take(i as int));
                    r@.len() == scan.len() && forall|j: int| 0 <= j < r@.len() ==> r@[j]@
                        == PValueView::Vertex(scan[j])
                }),
            decreases n - i,
        {
            let ghost prev = r@;
            match self.get_vertex(&ids[i]) {
                Some(v) => {
                    r.push(PValue::Vertex(v));
                },
                None => {},
            }
            proof {
                lemma_ids_scan_take(tv, ids@, i as int);
                assert(ids@.take(i + 1).len() == i + 1);
            }
            i = i + 1;
        }
        proof {
            assert(ids@.take(n as int) =~= ids@);
        }
        r
    }

    /// The stored edges under the given ids, in input order; missing
    /// ids are skipped.
    pub fn get_edges_by_ids(&self, ids: &Vec<Id>) -> (r: Vec<PValue>)
        ensures
            ({
                let scan = ids_scan(tbl_view(self.edges@), ids@);
                r@.len() == scan.len() && forall|j: int| 0 <= j < r@.len() ==> r@[j]@
                    == PValueView::Edge(scan[j])
            }),
    {
        let ghost tv = tbl_view(self.edges@);
        let n = ids.len();
        let mut r: Vec<PValue> = Vec::new();
        let mut i: usize = 0;
        proof {
            assert(ids@.take(0) =~= Seq::<Id>::empty());
        }
        while i < n
            invariant
                i <= n,
                n == ids@.len(),
                tv == tbl_view(self.edges@),
                ({
                    let scan = ids_scan(tv, ids@.take(i as int));
                    r@.len() == scan.len() && forall|j: int| 0 <= j < r@.len() ==> r@[j]@
                        == PValueView::Edge(scan[j])
                }),
            decreases n - i,
        {
            let ghost prev = r@;
            match self.get_edge(&ids[i]) {
                Some(e) => {
                    r.push(PValue::Edge(e));
                },
                None => {},
            }
            proof {
                lemma_ids_scan_take(tv, ids@, i as int);
                assert(ids@.take(i + 1).len() == i + 1);
            }
            i = i + 1;
        }
        proof {
            assert(ids@.take(n as int) =~= ids@);
        }
        r
    }

    /// A deep copy of the whole store; the copy has the same view on
    /// every table.
    pub fn duplicate(&self) -> (r: Store)
        ensures
            tbl_view(r.vertices@) == tbl_view(self.vertices@),
            lidx_view(r.vertex_idx@) == lidx_view(self.vertex_idx@),
            tbl_view(r.edges@) == tbl_view(self.edges@),
            lidx_view(r.edge_idx@) == lidx_view(self.edge_idx@),
            ptbl_view(r.parameters@) == ptbl_view(self.parameters@),
            lidx_view(r.parameters_idx@) == lidx_view(self.parameters_idx@),
            self.wf() ==> r.wf(),
    {
        let r = Store {
            vertices: dup_vtbl(&self.vertices),
            vertex_idx: dup_lidx(&self.vertex_idx),
            edges: dup_etbl(&self.edges),
            edge_idx: dup_lidx(&self.edge_idx),
            parameters: dup_ptbl(&self.parameters),
            parameters_idx: dup_lidx(&self.parameters_idx),
        };
        proof {
            if self.wf() {
                lemma_vtbl_wf_eq(tbl_view(self.vertices@), tbl_view(r.vertices@));
                lemma_etbl_wf_eq(tbl_view(self.edges@), tbl_view(r.edges@));
                lemma_lidx_wf_eq(
                    lidx_view(self.vertex_idx@),
                    tbl_view(self.vertices@),
                    lidx_view(r.vertex_idx@),
                    tbl_view(r.vertices@),
                    vlabel_of(),
                );
                lemma_lidx_wf_eq(
                    lidx_view(self.edge_idx@),
                    tbl_view(self.edges@),
                    lidx_view(r.edge_idx@),
                    tbl_view(r.edges@),
                    elabel_of(),
                );
                lemma_ptbl_wf_eq(ptbl_view(self.parameters@), ptbl_view(r.parameters@));
                lemma_pidx_wf_eq(
                    lidx_view(self.parameters_idx@),
                    ptbl_view(self.parameters@),
                    lidx_view(r.parameters_idx@),
                    ptbl_view(r.parameters@),
                );
            }
        }
        r
    }
}

/// A deep copy of a vertex table with the same view.
fn dup_vtbl(s: &Vec<(Id, Vertex)>) -> (r: Vec<(Id, Vertex)>)
    ensures
        tbl_view(r@) == tbl_view(s@),
{
    proof {
        lemma_tbl_view_elts(s@);
    }
    let n = s.len();
    let mut r: Vec<(Id, Vertex)> = Vec::new();
    let mut i: usize = 0;
    while i < n
        invariant
            i <= n,
            n == s@.len(),
            r@.len() == i,
            forall|j: int| 0 <= j < i ==> r@[j].0 == s@[j].0 && r@[j].1@ == s@[j].1@,
        decreases n - i,
    {
        r.push((s[i].0, s[i].1.duplicate()));
        i = i + 1;
    }
    proof {
        lemma_tbl_view_elts(r@);
        assert(tbl_view(r@) =~= tbl_view(s@));
    }
    r
}

/// A deep copy of an edge table with the same view.
fn dup_etbl(s: &Vec<(Id, Edge)>) -> (r: Vec<(Id, Edge)>)
    ensures
        tbl_view(r@) == tbl_view(s@),
{
    proof {
        lemma_tbl_view_elts(s@);
    }
    let n = s.len();
    let mut r: Vec<(Id, Edge)> = Vec::new();
    let mut i: usize = 0;
    while i < n
        invariant
            i <= n,
            n == s@.len(),
            r@.len() == i,
            forall|j: int| 0 <= j < i ==> r@[j].0 == s@[j].0 && r@[j].1@ == s@[j].1@,
        decreases n - i,
    {
        r.push((s[i].0, s[i].1.duplicate()));
        i = i + 1;
    }
    proof {
        lemma_tbl_view_elts(r@);
        assert(tbl_view(r@) =~= tbl_view(s@));
    }
    r
}

/// A deep copy of a label index with the same view.
fn dup_lidx(s: &Vec<(String, Id)>) -> (r: Vec<(String, Id)>)
    ensures
        lidx_view(r@) == lidx_view(s@),
{
    proof {
        lemma_lidx_view_elts(s@);
    }
    let n = s.len();
    let mut r: Vec<(String, Id)> = Vec::new();
    let mut i: usize = 0;
    while i < n
        invariant
            i <= n,
            n == s@.len(),
            r@.len() == i,
            forall|j: int| 0 <= j < i ==> r@[j].0@ == s@[j].0@ && r@[j].1 == s@[j].1,
        decreases n - i,
    {
        r.push((s[i].0.clone(), s[i].1));
        i = i + 1;
    }
    proof {
        lemma_lidx_view_elts(r@);
        assert(lidx_view(r@) =~= lidx_view(s@));
    }
    r
}

/// A deep copy of the parameter table with the same view.
fn dup_ptbl(s: &Vec<((Id, String), PValue)>) -> (r: Vec<((Id, String), PValue)>)
    ensures
        ptbl_view(r@) == ptbl_view(s@),
{
    proof {
        lemma_ptbl_view_elts(s@);
    }
    let n = s.len();
    let mut r: Vec<((Id, String), PValue)> = Vec::new();
    let mut i: usize = 0;
    while i < n
        invariant
            i <= n,
            n == s@.len(),
            r@.len() == i,
            forall|j: int| 0 <= j < i ==> r@[j].0.0 == s@[j].0.0 && r@[j].0.1@ == s@[j].0.1@
                && r@[j].1@ == s@[j].1@,
        decreases n - i,
    {
        r.push(((s[i].0.0, s[i].0.1.clone()), s[i].1.duplicate()));
        i = i + 1;
    }
    proof {
        lemma_ptbl_view_elts(r@);
        assert(ptbl_view(r@) =~= ptbl_view(s@));
    }
    r
}

} // verus!
