//! What holds of every filter and every expansion.

use crate::hybrid_laws::rising;
use crate::json;
use crate::json::JsonV;
use crate::query;
use crate::query::{ExpandTo, PredV};
use crate::schema::SchemaConfig;
use crate::store;
use crate::store::RecordV;
use crate::text;
use vstd::prelude::*;

verus! {

// ---------------------------------------------------------------------------
// Expansion keeps the ranking
// ---------------------------------------------------------------------------

/// Whether another hit belongs to the document of hit `i`.
pub open spec fn has_company(hits: Seq<RecordV>, i: int) -> bool {
    exists|j: int|
        0 <= j < hits.len() && j != i && #[trigger] hits[j].parent_doc_id == hits[i].parent_doc_id
}

/// Whether `row` is what hit `i` is given back as: the hit itself, the document
/// it belongs to, or the hit merged with its neighbours.
pub open spec fn given_as(
    row: RecordV,
    hits: Seq<RecordV>,
    parents: Seq<RecordV>,
    mode: ExpandTo,
    sibs: Seq<Seq<RecordV>>,
    i: int,
) -> bool {
    let h = hits[i];
    if h.parent_doc_id is None || mode == ExpandTo::Chunk {
        row == h
    } else {
        let known = query::row_with_id(parents, h.parent_doc_id->0);
        if known is Some && (mode == ExpandTo::Parent || has_company(hits, i)) {
            row == known->0 && row.id == h.parent_doc_id->0 && parents.contains(row)
        } else if mode == ExpandTo::Parent || sibs[i].len() == 0 {
            row == h
        } else {
            row == query::window_row(h, sibs[i])
        }
    }
}

/// Whether no hit before `i` belongs to its document.
pub open spec fn first_of_document(hits: Seq<RecordV>, i: int) -> bool {
    forall|j: int|
        0 <= j < i ==> hits[i].parent_doc_id is None || (#[trigger] hits[j]).parent_doc_id
            != hits[i].parent_doc_id
}

/// Whether a row of the result stands for hit `i`.
pub open spec fn stood_for(
    out: Seq<RecordV>,
    hits: Seq<RecordV>,
    i: int,
) -> bool {
    exists|k: int|
        0 <= k < out.len() && (#[trigger] out[k] == hits[i] || hits[i].parent_doc_id == Some(
            out[k].id,
        ) || (hits[i].parent_doc_id is Some && out[k].parent_doc_id == hits[i].parent_doc_id)
            || out[k].id == hits[i].id)
}

proof fn lemma_company(hits: Seq<RecordV>, i: int)
    requires
        0 <= i < hits.len(),
        hits[i].parent_doc_id is Some,
    ensures
        has_company(hits, i) <==> query::hits_of(hits, hits[i].parent_doc_id->0, hits.len()) >= 2,
{
    lemma_company_upto(hits, i, hits.len());
    if has_company(hits, i) {
        let j = choose|j: int|
            0 <= j < hits.len() && j != i && #[trigger] hits[j].parent_doc_id
                == hits[i].parent_doc_id;
        assert(hits[j].parent_doc_id == hits[i].parent_doc_id);
    }
}

proof fn lemma_company_upto(hits: Seq<RecordV>, i: int, n: nat)
    requires
        0 <= i < hits.len(),
        n <= hits.len(),
        hits[i].parent_doc_id is Some,
    ensures
        ({
            let pid = hits[i].parent_doc_id->0;
            let c = query::hits_of(hits, pid, n);
            let own: nat = if i < n {
                1
            } else {
                0
            };
            &&& c >= own
            &&& c > own <==> exists|j: int|
                0 <= j < n && j != i && #[trigger] hits[j].parent_doc_id == Some(pid)
        }),
    decreases n,
{
    if n > 0 {
        lemma_company_upto(hits, i, (n - 1) as nat);
        let pid = hits[i].parent_doc_id->0;
        let m = n - 1;
        if m != i && hits[m].parent_doc_id == Some(pid) {
            assert(hits[m].parent_doc_id == Some(pid));
        }
    }
}

proof fn lemma_row_found(rows: Seq<RecordV>, id: Seq<char>)
    ensures
        query::row_with_id(rows, id) matches Some(r) ==> rows.contains(r) && r.id == id,
{
    crate::hybrid_laws::law_rows_are_found_by_id(rows, id);
}

/// Whether a row is the document `x` or belongs to it.
pub open spec fn row_of(out: Seq<RecordV>, x: Seq<char>) -> bool {
    exists|k: int| 0 <= k < out.len() && about(#[trigger] out[k], x)
}

/// Whether a row is the document `x` or belongs to it.
pub open spec fn about(r: RecordV, x: Seq<char>) -> bool {
    r.id == x || r.parent_doc_id == Some(x)
}

proof fn lemma_ranking(
    hits: Seq<RecordV>,
    parents: Seq<RecordV>,
    mode: ExpandTo,
    sibs: Seq<Seq<RecordV>>,
    n: nat,
) -> (at: Seq<int>)
    requires
        n <= hits.len(),
    ensures
        ({
            let st = query::expanded(hits, parents, mode, sibs, n);
            &&& rising(at)
            &&& at.len() == st.out.len()
            &&& forall|k: int|
                0 <= k < at.len() ==> 0 <= #[trigger] at[k] < n && given_as(
                    st.out[k],
                    hits,
                    parents,
                    mode,
                    sibs,
                    at[k],
                )
            &&& forall|i: int| 0 <= i < n ==> #[trigger] stood_for(st.out, hits, i)
            &&& forall|x: Seq<char>| #[trigger] st.seen.contains(x) ==> row_of(st.out, x)
        }),
    decreases n,
{
    if n == 0 {
        Seq::empty()
    } else {
        let m = (n - 1) as nat;
        let i = n - 1;
        let a = lemma_ranking(hits, parents, mode, sibs, m);
        let before = query::expanded(hits, parents, mode, sibs, m);
        let st = query::expanded(hits, parents, mode, sibs, n);
        let h = hits[i];
        assert(st == query::expand_step(hits, parents, mode, before, i, sibs[i]));
        if h.parent_doc_id is Some {
            lemma_company(hits, i);
            lemma_row_found(parents, h.parent_doc_id->0);
        }
        let added = st.out.len() > before.out.len();
        let at = if added {
            a.push(i)
        } else {
            a
        };
        crate::hybrid_laws::lemma_rising_push(a, i);
        assert forall|k: int| 0 <= k < at.len() implies 0 <= #[trigger] at[k] < n && given_as(
            st.out[k],
            hits,
            parents,
            mode,
            sibs,
            at[k],
        ) by {
            if k < a.len() {
                assert(at[k] == a[k]);
                assert(st.out[k] == before.out[k]);
            }
        }
        if added {
            assert(st.out =~= before.out.push(st.out.last()));
        }
        assert forall|x: Seq<char>| #[trigger] st.seen.contains(x) implies row_of(st.out, x) by {
            if before.seen.contains(x) {
                assert(row_of(before.out, x));
                let k = choose|k: int|
                    0 <= k < before.out.len() && about(#[trigger] before.out[k], x);
                assert(st.out[k] == before.out[k]);
            } else {
                let q = st.seen.index_of(x);
                assert(st.seen[q] == x);
                if q < before.seen.len() {
                    assert(before.seen[q] == x);
                }
                assert(h.parent_doc_id == Some(x));
                assert(about(st.out[before.out.len() as int], x));
            }
        }
        assert forall|j: int| 0 <= j < n implies stood_for(st.out, hits, j) by {
            if j < m {
                assert(stood_for(before.out, hits, j));
                let k = choose|k: int|
                    0 <= k < before.out.len() && (#[trigger] before.out[k] == hits[j]
                        || hits[j].parent_doc_id == Some(before.out[k].id) || (
                    hits[j].parent_doc_id is Some && before.out[k].parent_doc_id
                        == hits[j].parent_doc_id) || before.out[k].id == hits[j].id);
                assert(st.out[k] == before.out[k]);
            } else if added {
                assert(st.out[before.out.len() as int] == st.out.last());
            } else if h.parent_doc_id is Some && before.seen.contains(h.parent_doc_id->0) {
                let x = h.parent_doc_id->0;
                let k = choose|k: int|
                    0 <= k < before.out.len() && about(#[trigger] before.out[k], x);
                assert(st.out[k] == before.out[k]);
            } else {
                let k = choose|k: int|
                    0 <= k < before.out.len() && #[trigger] before.out[k].id == h.id;
                assert(st.out[k] == before.out[k]);
            }
        }
        at
    }
}

/// Expansion keeps the ranking: each row is what one hit is given back as, and
/// the hits come in the order in which they were found. No hit is lost: a row
/// stands for each, the hit itself or its document.
pub proof fn law_expansion_keeps_the_ranking(
    hits: Seq<RecordV>,
    parents: Seq<RecordV>,
    mode: ExpandTo,
    sibs: Seq<Seq<RecordV>>,
) -> (at: Seq<int>)
    ensures
        ({
            let out = query::expanded(hits, parents, mode, sibs, hits.len()).out;
            &&& rising(at)
            &&& at.len() == out.len()
            &&& forall|k: int|
                0 <= k < at.len() ==> 0 <= #[trigger] at[k] < hits.len() && given_as(
                    out[k],
                    hits,
                    parents,
                    mode,
                    sibs,
                    at[k],
                )
            &&& forall|i: int| 0 <= i < hits.len() ==> #[trigger] stood_for(out, hits, i)
        }),
{
    lemma_ranking(hits, parents, mode, sibs, hits.len())
}

proof fn lemma_documents_ranked(
    hits: Seq<RecordV>,
    parents: Seq<RecordV>,
    sibs: Seq<Seq<RecordV>>,
    n: nat,
) -> (at: Seq<int>)
    requires
        n <= hits.len(),
        forall|i: int|
            0 <= i < hits.len() ==> (#[trigger] hits[i]).parent_doc_id is Some
                && query::row_with_id(parents, hits[i].parent_doc_id->0) is Some,
    ensures
        ({
            let st = query::expanded(hits, parents, ExpandTo::Parent, sibs, n);
            &&& rising(at)
            &&& at.len() == st.out.len()
            &&& forall|k: int|
                0 <= k < at.len() ==> 0 <= #[trigger] at[k] < n && hits[at[k]].parent_doc_id
                    == Some(st.out[k].id) && first_of_document(hits, at[k])
            &&& forall|i: int|
                0 <= i < n ==> st.seen.contains((#[trigger] hits[i]).parent_doc_id->0)
            &&& forall|x: Seq<char>| #[trigger]
                st.seen.contains(x) ==> exists|j: int|
                    0 <= j < n && #[trigger] hits[j].parent_doc_id == Some(x)
        }),
    decreases n,
{
    if n == 0 {
        Seq::empty()
    } else {
        let m = (n - 1) as nat;
        let i = n - 1;
        let a = lemma_documents_ranked(hits, parents, sibs, m);
        let before = query::expanded(hits, parents, ExpandTo::Parent, sibs, m);
        let st = query::expanded(hits, parents, ExpandTo::Parent, sibs, n);
        let pid = hits[i].parent_doc_id->0;
        lemma_row_found(parents, pid);
        let added = !before.seen.contains(pid);
        let at = if added {
            a.push(i)
        } else {
            a
        };
        crate::hybrid_laws::lemma_rising_push(a, i);
        if added {
            assert(first_of_document(hits, i)) by {
                assert forall|j: int| 0 <= j < i implies hits[i].parent_doc_id is None || (
                #[trigger] hits[j]).parent_doc_id != hits[i].parent_doc_id by {
                    assert(before.seen.contains(hits[j].parent_doc_id->0));
                }
            }
            assert(st.seen[before.seen.len() as int] == pid);
        }
        assert forall|k: int| 0 <= k < at.len() implies 0 <= #[trigger] at[k] < n
            && hits[at[k]].parent_doc_id == Some(st.out[k].id) && first_of_document(
            hits,
            at[k],
        ) by {
            if k < a.len() {
                assert(at[k] == a[k]);
                assert(st.out[k] == before.out[k]);
            }
        }
        assert forall|j: int| 0 <= j < n implies st.seen.contains(
            (#[trigger] hits[j]).parent_doc_id->0,
        ) by {
            if j < m {
                let x = hits[j].parent_doc_id->0;
                assert(before.seen.contains(x));
                assert(st.seen[before.seen.index_of(x)] == x);
            }
        }
        assert forall|x: Seq<char>| #[trigger] st.seen.contains(x) implies exists|j: int|
            0 <= j < n && #[trigger] hits[j].parent_doc_id == Some(x) by {
            let q = st.seen.index_of(x);
            if q < before.seen.len() {
                assert(before.seen[q] == x);
                assert(before.seen.contains(x));
            } else {
                assert(hits[i].parent_doc_id == Some(x));
            }
        }
        at
    }
}

/// Asked for documents that are all known, an expansion gives them in the order
/// in which they were first hit: for two rows, the first hit of the first comes
/// before the first hit of the second.
pub proof fn law_documents_come_as_they_were_hit(
    hits: Seq<RecordV>,
    parents: Seq<RecordV>,
    sibs: Seq<Seq<RecordV>>,
    i: int,
    j: int,
)
    requires
        forall|i: int|
            0 <= i < hits.len() ==> (#[trigger] hits[i]).parent_doc_id is Some
                && query::row_with_id(parents, hits[i].parent_doc_id->0) is Some,
        0 <= i < j < query::expanded(
            hits,
            parents,
            ExpandTo::Parent,
            sibs,
            hits.len(),
        ).out.len(),
    ensures
        ({
            let out = query::expanded(hits, parents, ExpandTo::Parent, sibs, hits.len()).out;
            exists|a: int, b: int|
                0 <= a < b < hits.len() && #[trigger] hits[a].parent_doc_id == Some(out[i].id)
                    && #[trigger] hits[b].parent_doc_id == Some(out[j].id) && first_of_document(
                    hits,
                    a,
                ) && first_of_document(hits, b)
        }),
{
    let at = lemma_documents_ranked(hits, parents, sibs, hits.len());
    let out = query::expanded(hits, parents, ExpandTo::Parent, sibs, hits.len()).out;
    let a = at[i];
    let b = at[j];
    assert(a < b);
    assert(hits[a].parent_doc_id == Some(out[i].id));
    assert(hits[b].parent_doc_id == Some(out[j].id));
}

/// What hit `i` is owed: itself, where it belongs to no document or its document
/// is not wanted or not known; its document, where that is wanted. A lone hit
/// left to choose is owed a row of its own or of its document.
pub open spec fn owed(
    out: Seq<RecordV>,
    hits: Seq<RecordV>,
    parents: Seq<RecordV>,
    mode: ExpandTo,
    i: int,
) -> bool {
    let h = hits[i];
    if h.parent_doc_id is None || mode == ExpandTo::Chunk {
        out.contains(h)
    } else {
        let known = query::row_with_id(parents, h.parent_doc_id->0);
        if known is Some && (mode == ExpandTo::Parent || has_company(hits, i)) {
            out.contains(known->0)
        } else if mode == ExpandTo::Parent {
            out.contains(h)
        } else {
            stood_for(out, hits, i)
        }
    }
}

proof fn lemma_owed_stays(
    out: Seq<RecordV>,
    more: Seq<RecordV>,
    hits: Seq<RecordV>,
    parents: Seq<RecordV>,
    mode: ExpandTo,
    i: int,
)
    requires
        owed(out, hits, parents, mode, i),
        out.is_prefix_of(more),
    ensures
        owed(more, hits, parents, mode, i),
{
    assert forall|r: RecordV| out.contains(r) implies more.contains(r) by {
        let k = out.index_of(r);
        assert(more.subrange(0, out.len() as int)[k] == more[k]);
    }
    if stood_for(out, hits, i) {
        let k = choose|k: int|
            0 <= k < out.len() && (#[trigger] out[k] == hits[i] || hits[i].parent_doc_id == Some(
                out[k].id,
            ) || (hits[i].parent_doc_id is Some && out[k].parent_doc_id == hits[i].parent_doc_id)
                || out[k].id == hits[i].id);
        assert(more.subrange(0, out.len() as int)[k] == more[k]);
        assert(more[k] == out[k]);
    }
}

proof fn lemma_owed(
    hits: Seq<RecordV>,
    parents: Seq<RecordV>,
    mode: ExpandTo,
    sibs: Seq<Seq<RecordV>>,
    n: nat,
)
    requires
        n <= hits.len(),
    ensures
        ({
            let st = query::expanded(hits, parents, mode, sibs, n);
            &&& forall|i: int| 0 <= i < n ==> #[trigger] owed(st.out, hits, parents, mode, i)
            &&& forall|x: Seq<char>| #[trigger]
                st.seen.contains(x) ==> {
                    let known = query::row_with_id(parents, x);
                    &&& mode != ExpandTo::Chunk
                    &&& mode == ExpandTo::Parent ==> known is Some
                    &&& known is Some && (mode == ExpandTo::Parent || query::hits_of(
                        hits,
                        x,
                        hits.len(),
                    ) >= 2) ==> st.out.contains(known->0)
                }
        }),
    decreases n,
{
    if n > 0 {
        let m = (n - 1) as nat;
        let i = n - 1;
        lemma_owed(hits, parents, mode, sibs, m);
        let ranks = lemma_ranking(hits, parents, mode, sibs, n);
        let before = query::expanded(hits, parents, mode, sibs, m);
        let st = query::expanded(hits, parents, mode, sibs, n);
        let h = hits[i];
        assert(st == query::expand_step(hits, parents, mode, before, i, sibs[i]));
        if h.parent_doc_id is Some {
            lemma_company(hits, i);
        }
        let d = before.out.len() as int;
        assert(before.out.is_prefix_of(st.out)) by {
            assert(st.out.subrange(0, d) =~= before.out);
        }
        if st.out.len() > d {
            assert(st.out[d] == st.out.last());
            assert(st.out.contains(st.out.last()));
        }
        assert forall|x: Seq<char>| #[trigger] st.seen.contains(x) implies {
            let known = query::row_with_id(parents, x);
            &&& mode != ExpandTo::Chunk
            &&& mode == ExpandTo::Parent ==> known is Some
            &&& known is Some && (mode == ExpandTo::Parent || query::hits_of(hits, x, hits.len())
                >= 2) ==> st.out.contains(known->0)
        } by {
            if before.seen.contains(x) {
                let known = query::row_with_id(parents, x);
                if known is Some && before.out.contains(known->0) {
                    let k = before.out.index_of(known->0);
                    assert(st.out[k] == before.out[k]);
                }
            } else {
                let q = st.seen.index_of(x);
                if q < before.seen.len() {
                    assert(before.seen[q] == x);
                }
                assert(h.parent_doc_id == Some(x));
            }
        }
        assert forall|j: int| 0 <= j < n implies #[trigger] owed(
            st.out,
            hits,
            parents,
            mode,
            j,
        ) by {
            if j < m {
                assert(owed(before.out, hits, parents, mode, j));
                lemma_owed_stays(before.out, st.out, hits, parents, mode, j);
            } else {
                assert(stood_for(st.out, hits, j));
                if h.parent_doc_id is Some && before.seen.contains(h.parent_doc_id->0) {
                    assert(st.seen.contains(h.parent_doc_id->0));
                }
            }
        }
    }
}

/// Every hit gets what it is owed: a hit without a document, or whose document
/// is not known where documents are asked for, is given back itself; a known
/// document is given back for its chunks where documents are asked for, and,
/// left to choose, where several of its chunks were hit.
pub proof fn law_every_hit_is_given(
    hits: Seq<RecordV>,
    parents: Seq<RecordV>,
    mode: ExpandTo,
    sibs: Seq<Seq<RecordV>>,
    i: int,
)
    requires
        0 <= i < hits.len(),
    ensures
        owed(
            query::expanded(hits, parents, mode, sibs, hits.len()).out,
            hits,
            parents,
            mode,
            i,
        ),
{
    lemma_owed(hits, parents, mode, sibs, hits.len());
}

/// A hit with neighbours is given back as one row: the texts of all of them in
/// the order of their positions, with empty lines between them, under the id and
/// the position of the first.
pub proof fn law_windows_hold_all_texts(h: RecordV, sibs: Seq<RecordV>) -> (rows: Seq<RecordV>)
    requires
        h.raw_text.len() > 0,
        forall|i: int| 0 <= i < sibs.len() ==> (#[trigger] sibs[i]).raw_text.len() > 0,
    ensures
        rows.to_multiset() == sibs.push(h).to_multiset(),
        forall|i: int, j: int|
            0 <= i < j < rows.len() ==> (#[trigger] rows[i]).chunk_index <= (
            #[trigger] rows[j]).chunk_index,
        rows.len() == sibs.len() + 1,
        query::window_row(h, sibs).raw_text == text::joined(
            rows.map_values(|r: RecordV| r.raw_text),
            "\n\n"@,
        ),
        query::window_row(h, sibs).id == rows[0].id,
        query::window_row(h, sibs).chunk_index == rows[0].chunk_index,
        query::window_row(h, sibs).parent_doc_id == h.parent_doc_id,
        query::window_row(h, sibs).source_path == h.source_path,
        query::window_row(h, sibs).source_type == h.source_type,
        query::window_row(h, sibs).extra == h.extra,
{
    let all = sibs.push(h);
    let rows = store::by_index(all);
    store::law_sorted_rows(all);
    rows.to_multiset_ensures();
    all.to_multiset_ensures();
    assert forall|i: int| 0 <= i < rows.len() implies (#[trigger] rows[i]).raw_text.len() > 0 by {
        assert(rows.to_multiset().count(rows[i]) > 0);
        assert(all.contains(rows[i]));
        let k = all.index_of(rows[i]);
        if k < sibs.len() {
            assert(sibs[k] == rows[i]);
        }
    }
    lemma_merged_joined(rows, rows.len());
    assert(rows.take(rows.len() as int) =~= rows);
    rows
}

proof fn lemma_merged_joined(rows: Seq<RecordV>, n: nat)
    requires
        n <= rows.len(),
        forall|i: int| 0 <= i < rows.len() ==> (#[trigger] rows[i]).raw_text.len() > 0,
    ensures
        query::merged_text(rows, n) == text::joined(
            rows.take(n as int).map_values(|r: RecordV| r.raw_text),
            "\n\n"@,
        ),
        n > 0 ==> query::merged_text(rows, n).len() > 0,
    decreases n,
{
    let ts = rows.take(n as int).map_values(|r: RecordV| r.raw_text);
    if n > 0 {
        lemma_merged_joined(rows, (n - 1) as nat);
        let us = rows.take(n - 1).map_values(|r: RecordV| r.raw_text);
        assert(ts.drop_last() =~= us);
        assert(ts.last() == rows[n - 1].raw_text);
    }
}

/// The neighbours of a hit are asked for exactly where they are used: where they
/// are asked for and there are any, the hit is given back merged with them; where
/// they are not asked for, what is given back does not depend on them.
pub proof fn law_neighbours_are_asked_for_where_used(
    hits: Seq<RecordV>,
    parents: Seq<RecordV>,
    mode: ExpandTo,
    st: query::ExpandV,
    i: int,
    a: Seq<RecordV>,
    b: Seq<RecordV>,
)
    requires
        0 <= i < hits.len(),
    ensures
        query::wants_window(hits, parents, mode, st, i) && a.len() > 0 ==> query::expand_step(
            hits,
            parents,
            mode,
            st,
            i,
            a,
        ).out == st.out.push(query::window_row(hits[i], a)),
        !query::wants_window(hits, parents, mode, st, i) ==> query::expand_step(
            hits,
            parents,
            mode,
            st,
            i,
            a,
        ) == query::expand_step(hits, parents, mode, st, i, b),
{
}

} // verus!
