//! The storage laws, stated on their own and proved against the store
//! discipline and the transaction contracts.

use vstd::prelude::*;

use crate::ids::{Id, IdGen, Type};
use crate::pvalue::VertexView;
use crate::store::{id_lookup, lidx_has, lidx_view, tbl_view, vlabel_of, Store};

verus! {

/// Put, commit, then read: a vertex stored under its id in the working
/// copy is exactly what a snapshot lookup returns after the commit
/// published that copy.
pub proof fn lemma_put_commit_get(
    working: Seq<(Id, VertexView)>,
    committed: Seq<(Id, VertexView)>,
    snap: Seq<(Id, VertexView)>,
    id: Id,
    rv: VertexView,
)
    requires
        id_lookup(working, id) == Some(rv),
        committed == working,
        snap == committed,
    ensures
        id_lookup(snap, id) == Some(rv),
{
}

/// Re-put with a changed label: after the second write the id is
/// indexed under the new label and no longer under the old one, and
/// the primary table kept its size.
pub proof fn lemma_reput_replaces_label(
    tbl1: Seq<(Id, VertexView)>,
    idx2: Seq<(Seq<char>, Id)>,
    tbl2: Seq<(Id, VertexView)>,
    id: Id,
    l1: Seq<char>,
    l2: Seq<char>,
)
    requires
        // after the first put the id is stored
        id_lookup(tbl1, id) is Some,
        // what the second put ensures of its index and table
        lidx_has(idx2, l2, id),
        forall|l: Seq<char>| l != l2 ==> !lidx_has(idx2, l, id),
        tbl2.len() == tbl1.len() + (if id_lookup(tbl1, id) is Some {
            0int
        } else {
            1int
        }),
        l1 != l2,
    ensures
        lidx_has(idx2, l2, id),
        !lidx_has(idx2, l1, id),
        tbl2.len() == tbl1.len(),
{
}

/// For every stored vertex there is exactly one label-index entry, and
/// it carries the vertex's own label.
pub proof fn lemma_label_index_exact(s: Store)
    requires
        s.wf(),
    ensures
        forall|j: int| 0 <= j < tbl_view(s.vertices@).len() ==> lidx_has(
            lidx_view(s.vertex_idx@),
            (#[trigger] tbl_view(s.vertices@)[j]).1.label,
            tbl_view(s.vertices@)[j].0,
        ),
        forall|i1: int, i2: int|
            0 <= i1 < lidx_view(s.vertex_idx@).len() && 0 <= i2 < lidx_view(
                s.vertex_idx@,
            ).len() && lidx_view(s.vertex_idx@)[i1].1 == lidx_view(s.vertex_idx@)[i2].1 ==> i1
                == i2,
        lidx_view(s.vertex_idx@).len() == tbl_view(s.vertices@).len(),
{
    let tbl = tbl_view(s.vertices@);
    let idx = lidx_view(s.vertex_idx@);
    assert forall|j: int| 0 <= j < tbl.len() implies lidx_has(
        idx,
        (#[trigger] tbl[j]).1.label,
        tbl[j].0,
    ) by {
        assert(crate::store::lidx_covers(idx, tbl[j].0));
        let w = choose|w: int| 0 <= w < idx.len() && (#[trigger] idx[w]).1 == tbl[j].0;
        assert(id_lookup(tbl, idx[w].1) is Some && vlabel_of()(
            id_lookup(tbl, idx[w].1)->Some_0,
        ) == idx[w].0);
        crate::store::lemma_id_lookup_some_key(tbl, tbl[j].0);
        let j2 = choose|j2: int| 0 <= j2 < tbl.len() && (#[trigger] tbl[j2]).0 == tbl[j].0;
        assert(j2 == j || tbl[j2].0.ulid == tbl[j].0.ulid);
        assert(id_lookup(tbl, tbl[j].0) == Some(tbl[j].1)) by {
            let first = choose|f: int|
                0 <= f < tbl.len() && (#[trigger] tbl[f]).0 == tbl[j].0 && forall|p: int|
                    0 <= p < f ==> tbl[p].0 != tbl[j].0;
            assert(exists|f: int|
                0 <= f < tbl.len() && (#[trigger] tbl[f]).0 == tbl[j].0 && forall|p: int|
                    0 <= p < f ==> tbl[p].0 != tbl[j].0) by {
                assert(forall|p: int| 0 <= p < j ==> (#[trigger] tbl[p]).0.ulid
                    != tbl[j].0.ulid);
                assert(forall|p: int| 0 <= p < j ==> (#[trigger] tbl[p]).0 != tbl[j].0);
            }
            assert(first == j) by {
                if first != j {
                    assert(tbl[first].0.ulid != tbl[j].0.ulid);
                }
            }
            crate::store::lemma_id_lookup_first(tbl, tbl[j].0, j);
        }
        assert(idx[w] == (tbl[j].1.label, tbl[j].0));
    }
    assert forall|i1: int, i2: int|
        0 <= i1 < idx.len() && 0 <= i2 < idx.len() && idx[i1].1 == idx[i2].1 implies i1
        == i2 by {
        if i1 < i2 {
            assert(idx[i1].1 != idx[i2].1);
        }
        if i2 < i1 {
            assert(idx[i2].1 != idx[i1].1);
        }
    }
}

/// Every committed edge's endpoints carry the Vertex kind tag.
pub proof fn lemma_edge_endpoints_are_vertices(s: Store)
    requires
        s.wf(),
    ensures
        forall|j: int| 0 <= j < tbl_view(s.edges@).len() ==> (#[trigger] tbl_view(
            s.edges@,
        )[j]).1.to.kind == Type::Vertex && tbl_view(s.edges@)[j].1.from.kind == Type::Vertex,
{
}

/// Sentinel ids never appear as keys of the primary stores.
pub proof fn lemma_no_sentinel_keys(s: Store)
    requires
        s.wf(),
    ensures
        forall|j: int| 0 <= j < tbl_view(s.vertices@).len() ==> !(#[trigger] tbl_view(
            s.vertices@,
        )[j]).0.is_sentinel(),
        forall|j: int| 0 <= j < tbl_view(s.edges@).len() ==> !(#[trigger] tbl_view(
            s.edges@,
        )[j]).0.is_sentinel(),
{
}

/// Ids generated in one run are pairwise distinct and strictly
/// increasing: two successive draws from the generator relate by the
/// generator's own counter.
pub proof fn lemma_generated_ids_increase(
    g0: IdGen,
    g1: IdGen,
    g2: IdGen,
    id1: Id,
    id2: Id,
)
    requires
        // what the first draw ensures
        g0.last_ulid() < id1.ulid,
        g1.last_ulid() == id1.ulid,
        // what the second draw ensures
        g1.last_ulid() < id2.ulid,
        g2.last_ulid() == id2.ulid,
    ensures
        id1.ulid < id2.ulid,
        id1 != id2,
{
}

} // verus!
