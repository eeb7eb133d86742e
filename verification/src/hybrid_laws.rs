//! What holds of every answer that joins the graph and the store.

use crate::hybrid;
use crate::json;
use crate::json::JsonV;
use crate::query;
use crate::query::PredV;
use crate::store::RecordV;
use crate::text;
use vstd::prelude::*;

verus! {

/// Whether numbers rise.
pub open spec fn rising(at: Seq<int>) -> bool {
    forall|i: int, j: int| 0 <= i < j < at.len() ==> #[trigger] at[i] < #[trigger] at[j]
}

/// Whether the rows are those of `from` at the given positions, which rise.
pub open spec fn taken(rows: Seq<RecordV>, from: Seq<RecordV>, at: Seq<int>) -> bool {
    &&& rising(at)
    &&& rows.len() == at.len()
    &&& forall|k: int|
        0 <= k < at.len() ==> 0 <= #[trigger] at[k] < from.len() && rows[k] == from[at[k]]
}

/// Whether one of the rows has the given id.
pub open spec fn listed(rows: Seq<RecordV>, id: Seq<char>) -> bool {
    exists|k: int| 0 <= k < rows.len() && #[trigger] rows[k].id == id
}

pub proof fn lemma_rising_push(at: Seq<int>, n: int)
    requires
        rising(at),
        forall|k: int| 0 <= k < at.len() ==> #[trigger] at[k] < n,
    ensures
        rising(at.push(n)),
{
    let b = at.push(n);
    assert forall|i: int, j: int| 0 <= i < j < b.len() implies #[trigger] b[i] < #[trigger] b[j] by {
        assert(b[i] == at[i]);
        if j < at.len() {
            assert(b[j] == at[j]);
        }
    }
}

// ---------------------------------------------------------------------------
// What structured data names
// ---------------------------------------------------------------------------

/// Whether a chunk of structured data names the document `id`: by its `doc_id`,
/// or where that is missing or empty by a file called after the document.
pub open spec fn names(chunk: JsonV, id: Seq<char>) -> bool {
    let own = json::text_field(chunk, "doc_id"@);
    if own is Some && own->0.len() > 0 {
        own->0 == id
    } else {
        id.len() > 0 && json::text_field(chunk, "file_path"@) == Some(id + ".txt"@)
    }
}

proof fn lemma_names(chunk: JsonV, id: Seq<char>)
    ensures
        names(chunk, id) <==> hybrid::chunk_doc(chunk) == Some(id),
{
    reveal_strlit(".txt");
    match json::text_field(chunk, "file_path"@) {
        Some(p) => {
            let s = ".txt"@;
            if p == id + s {
                assert(p.take(p.len() - s.len()) =~= id);
                assert(p.subrange(p.len() - s.len(), p.len() as int) =~= s);
                assert(p.skip(p.len() - s.len()) =~= s);
            }
            match text::before_suffix(p, s) {
                Some(x) => {
                    assert(x + s =~= p);
                },
                None => {},
            }
        },
        None => {},
    }
}

/// The documents that structured data names are those that its chunks name, each
/// once, in the order in which they are first named.
pub proof fn law_named_ids_follow_the_chunks(data: JsonV)
    ensures
        ({
            let cs = hybrid::chunks_of(data);
            let ids = hybrid::doc_ids(data);
            &&& ids.no_duplicates()
            &&& forall|j: int, id: Seq<char>|
                0 <= j < cs.len() && names(#[trigger] cs[j], id) ==> #[trigger] ids.contains(id)
            &&& forall|i: int|
                0 <= i < ids.len() ==> exists|j: int|
                    0 <= j < cs.len() && names(cs[j], #[trigger] ids[i])
            &&& forall|i: int, k: int, j: int|
                0 <= i < k < ids.len() && 0 <= j < cs.len() && names(
                    #[trigger] cs[j],
                    #[trigger] ids[k],
                ) ==> named_before(cs, #[trigger] ids[i], j)
        }),
{
    let cs = hybrid::chunks_of(data);
    let all = hybrid::ids_in(cs, cs.len());
    let ids = hybrid::doc_ids(data);
    hybrid::law_first_ids_keep_order(all, all.len());
    assert(all.take(all.len() as int) =~= all);
    assert forall|j: int, id: Seq<char>| 0 <= j < cs.len() && names(#[trigger] cs[j], id) implies
    #[trigger] ids.contains(id) by {
        lemma_names(cs[j], id);
        lemma_ids_in(cs, cs.len(), j);
    }
    assert forall|i: int| 0 <= i < ids.len() implies exists|j: int|
        0 <= j < cs.len() && names(cs[j], #[trigger] ids[i]) by {
        assert(ids.contains(ids[i]));
        let a = all.index_of(ids[i]);
        let j = lemma_ids_from(cs, cs.len(), a);
        lemma_names(cs[j], ids[i]);
    }
    assert forall|i: int, k: int, j: int|
        0 <= i < k < ids.len() && 0 <= j < cs.len() && names(
            #[trigger] cs[j],
            #[trigger] ids[k],
        ) implies named_before(cs, #[trigger] ids[i], j) by {
        lemma_names(cs[j], ids[k]);
        let b = lemma_ids_in(cs, cs.len(), j);
        assert(ids.contains(ids[i]));
        assert(ids.contains(ids[k]));
        all.index_of_first_ensures(ids[i]);
        all.index_of_first_ensures(ids[k]);
        let a = all.index_of_first(ids[i])->0;
        assert(all.index_of_first(ids[i])->0 < all.index_of_first(ids[k])->0);
        assert(a < b);
        let m = lemma_ids_from(cs, cs.len(), a);
        lemma_names(cs[m], ids[i]);
        lemma_ids_order(cs, cs.len(), a, b, m, j);
    }
}

/// Whether a chunk before `j` names the document `id`.
pub open spec fn named_before(cs: Seq<JsonV>, id: Seq<char>, j: int) -> bool {
    exists|m: int| 0 <= m < j && m < cs.len() && names(#[trigger] cs[m], id)
}

proof fn lemma_ids_grow(cs: Seq<JsonV>, m: nat, n: nat)
    requires
        m <= n <= cs.len(),
    ensures
        hybrid::ids_in(cs, m).is_prefix_of(hybrid::ids_in(cs, n)),
        hybrid::ids_in(cs, m).len() <= hybrid::ids_in(cs, n).len(),
    decreases n - m,
{
    let a = hybrid::ids_in(cs, m);
    if m < n {
        lemma_ids_grow(cs, m, (n - 1) as nat);
        let b = hybrid::ids_in(cs, (n - 1) as nat);
        let c = hybrid::ids_in(cs, n);
        assert(c.take(a.len() as int) =~= b.take(a.len() as int));
        assert(c.subrange(0, a.len() as int) =~= b.subrange(0, a.len() as int));
    } else {
        assert(a.subrange(0, a.len() as int) =~= a);
    }
}

/// Where the name that chunk `j` gives stands among all names.
proof fn lemma_ids_in(cs: Seq<JsonV>, n: nat, j: int) -> (b: int)
    requires
        0 <= j < n <= cs.len(),
        hybrid::chunk_doc(cs[j]) is Some,
    ensures
        0 <= b < hybrid::ids_in(cs, n).len(),
        b == hybrid::ids_in(cs, j as nat).len(),
        hybrid::ids_in(cs, n)[b] == hybrid::chunk_doc(cs[j])->0,
        hybrid::ids_in(cs, n).contains(hybrid::chunk_doc(cs[j])->0),
{
    let b = hybrid::ids_in(cs, j as nat).len() as int;
    let mid = hybrid::ids_in(cs, (j + 1) as nat);
    lemma_ids_grow(cs, (j + 1) as nat, n);
    let all = hybrid::ids_in(cs, n);
    assert(mid[b] == hybrid::chunk_doc(cs[j])->0);
    assert(all.subrange(0, mid.len() as int)[b] == all[b]);
    b
}

/// The chunk that gives the name at place `a`.
proof fn lemma_ids_from(cs: Seq<JsonV>, n: nat, a: int) -> (j: int)
    requires
        n <= cs.len(),
        0 <= a < hybrid::ids_in(cs, n).len(),
    ensures
        0 <= j < n,
        hybrid::chunk_doc(cs[j]) == Some(hybrid::ids_in(cs, n)[a]),
        a == hybrid::ids_in(cs, j as nat).len(),
    decreases n,
{
    let before = hybrid::ids_in(cs, (n - 1) as nat);
    if a < before.len() {
        let j = lemma_ids_from(cs, (n - 1) as nat, a);
        j
    } else {
        n - 1
    }
}

proof fn lemma_ids_order(cs: Seq<JsonV>, n: nat, a: int, b: int, m: int, j: int)
    requires
        0 <= m < n <= cs.len(),
        0 <= j < n,
        a == hybrid::ids_in(cs, m as nat).len(),
        b == hybrid::ids_in(cs, j as nat).len(),
        a < b,
    ensures
        m < j,
{
    if j <= m {
        lemma_ids_grow(cs, j as nat, m as nat);
    }
}

/// All chunks of structured data are looked at, and where there are none, none.
pub proof fn law_all_chunks_are_looked_at(data: JsonV, s: Seq<JsonV>)
    ensures
        json::field(data, "chunks"@) == Some(JsonV::Arr(s)) ==> hybrid::chunks_of(data) == s,
        json::field(data, "chunks"@) is None ==> hybrid::chunks_of(data).len() == 0,
{
}

/// A row is found by its id exactly if there is one.
pub proof fn law_rows_are_found_by_id(rows: Seq<RecordV>, id: Seq<char>)
    ensures
        query::row_with_id(rows, id) is Some <==> listed(rows, id),
        query::row_with_id(rows, id) matches Some(r) ==> rows.contains(r) && r.id == id,
    decreases rows.len(),
{
    if rows.len() > 0 {
        let front = rows.drop_last();
        law_rows_are_found_by_id(front, id);
        if rows.last().id == id {
            assert(rows[rows.len() - 1].id == id);
        } else {
            if listed(front, id) {
                let k = choose|k: int| 0 <= k < front.len() && #[trigger] front[k].id == id;
                assert(rows[k].id == id);
            }
            if listed(rows, id) {
                let k = choose|k: int| 0 <= k < rows.len() && #[trigger] rows[k].id == id;
                assert(front[k].id == id);
            }
            match query::row_with_id(front, id) {
                Some(r) => {
                    let k = front.index_of(r);
                    assert(rows[k] == r);
                },
                None => {},
            }
        }
    }
}

// ---------------------------------------------------------------------------
// Documents of a graph answer
// ---------------------------------------------------------------------------

/// The stored document with the given id, if it is one that passes the filter.
pub open spec fn passing(parents: Seq<RecordV>, f: Option<PredV>, id: Seq<char>) -> bool {
    match query::row_with_id(parents, id) {
        Some(p) => f matches Some(q) ==> query::matches_row(q, p),
        None => false,
    }
}

pub proof fn lemma_named_documents(
    ids: Seq<Seq<char>>,
    parents: Seq<RecordV>,
    f: Option<PredV>,
    n: nat,
) -> (at: Seq<int>)
    requires
        n <= ids.len(),
    ensures
        ({
            let out = hybrid::named_documents(ids, parents, f, n);
            &&& rising(at)
            &&& at.len() == out.len()
            &&& forall|k: int|
                0 <= k < at.len() ==> 0 <= #[trigger] at[k] < n && query::row_with_id(
                    parents,
                    ids[at[k]],
                ) == Some(out[k])
            &&& forall|i: int|
                0 <= i < n ==> (passing(parents, f, #[trigger] ids[i]) <==> at.contains(i))
        }),
    decreases n,
{
    if n == 0 {
        Seq::empty()
    } else {
        let before = hybrid::named_documents(ids, parents, f, (n - 1) as nat);
        let a = lemma_named_documents(ids, parents, f, (n - 1) as nat);
        if passing(parents, f, ids[n - 1]) {
            let at = a.push(n - 1);
            lemma_rising_push(a, n - 1);
            assert forall|i: int| 0 <= i < n implies (passing(parents, f, #[trigger] ids[i])
                <==> at.contains(i)) by {
                if i == n - 1 {
                    assert(at[a.len() as int] == i);
                } else {
                    if a.contains(i) {
                        assert(at[a.index_of(i)] == i);
                    }
                    if at.contains(i) {
                        assert(a[at.index_of(i)] == i);
                    }
                }
            }
            at
        } else {
            assert forall|i: int| 0 <= i < n implies (passing(parents, f, #[trigger] ids[i])
                <==> a.contains(i)) by {
                if i == n - 1 && a.contains(i) {
                    assert(a[a.index_of(i)] < n - 1);
                }
            }
            a
        }
    }
}

/// Where structured data names a stored document that passes the filter, the
/// documents given are the named ones that are stored and pass, in the order in
/// which they are named, cut to the limit and to nothing else.
pub proof fn law_graph_documents_are_those_named(
    data: JsonV,
    parents: Seq<RecordV>,
    all: Seq<RecordV>,
    f: Option<PredV>,
    limit: nat,
) -> (at: Seq<int>)
    requires
        exists|i: int|
            0 <= i < hybrid::doc_ids(data).len() && passing(
                parents,
                f,
                #[trigger] hybrid::doc_ids(data)[i],
            ),
    ensures
        ({
            let ids = hybrid::doc_ids(data);
            let out = hybrid::graph_documents_of(data, parents, all, f, limit);
            &&& rising(at)
            &&& out.len() == at.len()
            &&& out.len() <= limit
            &&& forall|k: int|
                0 <= k < at.len() ==> 0 <= #[trigger] at[k] < ids.len() && out[k].id == ids[at[k]]
                    && parents.contains(out[k]) && passing(parents, f, ids[at[k]])
            &&& forall|i: int|
                0 <= i < ids.len() && passing(parents, f, #[trigger] ids[i]) ==> at.contains(i) || (
                out.len() == limit && forall|k: int| 0 <= k < at.len() ==> #[trigger] at[k] < i)
        }),
{
    let ids = hybrid::doc_ids(data);
    let a = lemma_named_documents(ids, parents, f, ids.len());
    let named = hybrid::named_documents(ids, parents, f, ids.len());
    let out = hybrid::graph_documents_of(data, parents, all, f, limit);
    let w = choose|i: int| 0 <= i < ids.len() && passing(parents, f, #[trigger] ids[i]);
    assert(a.contains(w));
    assert(named.len() > 0);
    let at = if a.len() > limit {
        a.take(limit as int)
    } else {
        a
    };
    assert forall|k: int| 0 <= k < at.len() implies 0 <= #[trigger] at[k] < ids.len() && out[k].id
        == ids[at[k]] && parents.contains(out[k]) && passing(parents, f, ids[at[k]]) by {
        assert(at[k] == a[k]);
        assert(out[k] == named[k]);
        assert(a.contains(a[k]));
        law_rows_are_found_by_id(parents, ids[a[k]]);
    }
    assert forall|i: int| 0 <= i < ids.len() && passing(parents, f, #[trigger] ids[i]) implies at.contains(
    i) || (out.len() == limit && forall|k: int| 0 <= k < at.len() ==> #[trigger] at[k] < i) by {
        let j = a.index_of(i);
        assert(a[j] == i);
        if j < at.len() {
            assert(at[j] == i);
        } else {
            assert forall|k: int| 0 <= k < at.len() implies #[trigger] at[k] < i by {
                assert(at[k] == a[k]);
            }
        }
    }
    at
}

proof fn lemma_content_documents(
    all: Seq<RecordV>,
    contents: Seq<Seq<char>>,
    f: Option<PredV>,
    limit: nat,
    n: nat,
) -> (at: Seq<int>)
    requires
        n <= all.len(),
    ensures
        ({
            let out = hybrid::content_documents(all, contents, f, limit, n);
            &&& taken(out, all, at)
            &&& out.len() <= limit
            &&& forall|k: int| 0 <= k < at.len() ==> #[trigger] at[k] < n && content_hit(
                all[at[k]],
                contents,
                f,
            )
            &&& forall|i: int|
                0 <= i < n && content_hit(#[trigger] all[i], contents, f) ==> at.contains(i) || (
                out.len() == limit && forall|k: int| 0 <= k < at.len() ==> #[trigger] at[k] < i)
        }),
    decreases n,
{
    if n == 0 {
        Seq::empty()
    } else {
        let before = hybrid::content_documents(all, contents, f, limit, (n - 1) as nat);
        let a = lemma_content_documents(all, contents, f, limit, (n - 1) as nat);
        let out = hybrid::content_documents(all, contents, f, limit, n);
        let add = before.len() < limit && content_hit(all[n - 1], contents, f);
        let at = if add {
            a.push(n - 1)
        } else {
            a
        };
        lemma_rising_push(a, n - 1);
        assert forall|i: int| 0 <= i < n && content_hit(#[trigger] all[i], contents, f) implies at.contains(
        i) || (out.len() == limit && forall|k: int| 0 <= k < at.len() ==> #[trigger] at[k] < i) by {
            if i == n - 1 {
                if add {
                    assert(at[a.len() as int] == i);
                }
            } else if a.contains(i) {
                assert(at[a.index_of(i)] == i);
            }
        }
        assert forall|k: int| 0 <= k < at.len() implies 0 <= #[trigger] at[k] < all.len() && out[k]
            == all[at[k]] && at[k] < n && content_hit(all[at[k]], contents, f) by {
            if k < a.len() {
                assert(at[k] == a[k]);
                assert(out[k] == before[k]);
            }
        }
        at
    }
}

/// Whether a document holds one of the texts and passes the filter.
pub open spec fn content_hit(d: RecordV, contents: Seq<Seq<char>>, f: Option<PredV>) -> bool {
    &&& exists|i: int| 0 <= i < contents.len() && text::occurs(d.raw_text, #[trigger] contents[i])
    &&& f matches Some(q) ==> query::matches_row(q, d)
}

/// Where structured data names no stored document that passes the filter, the
/// documents given are those that hold one of its longer texts and pass, in the
/// order of the store, cut to the limit and to nothing else.
pub proof fn law_other_graph_documents_hold_the_texts(
    data: JsonV,
    parents: Seq<RecordV>,
    all: Seq<RecordV>,
    f: Option<PredV>,
    limit: nat,
) -> (at: Seq<int>)
    requires
        forall|i: int|
            0 <= i < hybrid::doc_ids(data).len() ==> !passing(
                parents,
                f,
                #[trigger] hybrid::doc_ids(data)[i],
            ),
    ensures
        ({
            let out = hybrid::graph_documents_of(data, parents, all, f, limit);
            let contents = hybrid::contents_of(data);
            &&& taken(out, all, at)
            &&& out.len() <= limit
            &&& forall|k: int|
                0 <= k < at.len() ==> content_hit(all[#[trigger] at[k]], contents, f)
            &&& forall|i: int|
                0 <= i < all.len() && content_hit(#[trigger] all[i], contents, f) ==> at.contains(i)
                    || (out.len() == limit && forall|k: int|
                    0 <= k < at.len() ==> #[trigger] at[k] < i)
        }),
{
    let ids = hybrid::doc_ids(data);
    let a = lemma_named_documents(ids, parents, f, ids.len());
    let named = hybrid::named_documents(ids, parents, f, ids.len());
    if named.len() > 0 {
        assert(a.contains(a[0]));
        assert(passing(parents, f, ids[a[0]]));
    }
    lemma_content_documents(all, hybrid::contents_of(data), f, limit, all.len())
}

/// The texts that stand for documents are those of the chunks with at least
/// fifty characters.
pub proof fn law_longer_texts_stand_for_documents(data: JsonV)
    ensures
        ({
            let cs = hybrid::chunks_of(data);
            let ts = hybrid::contents_of(data);
            &&& forall|j: int|
                0 <= j < cs.len() ==> match json::text_field(#[trigger] cs[j], "content"@) {
                    Some(t) => t.len() >= 50 ==> ts.contains(t),
                    None => true,
                }
            &&& forall|i: int|
                0 <= i < ts.len() ==> (#[trigger] ts[i]).len() >= 50 && exists|j: int|
                    0 <= j < cs.len() && json::text_field(#[trigger] cs[j], "content"@) == Some(
                        ts[i],
                    )
        }),
{
    let cs = hybrid::chunks_of(data);
    lemma_contents(cs, cs.len());
}

proof fn lemma_contents(cs: Seq<JsonV>, n: nat)
    requires
        n <= cs.len(),
    ensures
        ({
            let ts = hybrid::contents_in(cs, n);
            &&& forall|j: int|
                0 <= j < n ==> match json::text_field(#[trigger] cs[j], "content"@) {
                    Some(t) => t.len() >= 50 ==> ts.contains(t),
                    None => true,
                }
            &&& forall|i: int|
                0 <= i < ts.len() ==> (#[trigger] ts[i]).len() >= 50 && exists|j: int|
                    0 <= j < n && json::text_field(#[trigger] cs[j], "content"@) == Some(ts[i])
        }),
    decreases n,
{
    if n > 0 {
        lemma_contents(cs, (n - 1) as nat);
        let before = hybrid::contents_in(cs, (n - 1) as nat);
        let ts = hybrid::contents_in(cs, n);
        assert forall|j: int| 0 <= j < n implies match json::text_field(
            #[trigger] cs[j],
            "content"@,
        ) {
            Some(t) => t.len() >= 50 ==> ts.contains(t),
            None => true,
        } by {
            match json::text_field(cs[j], "content"@) {
                Some(t) => {
                    if t.len() >= 50 {
                        if j < n - 1 {
                            let k = before.index_of(t);
                            assert(ts[k] == t);
                        } else {
                            assert(ts[before.len() as int] == t);
                        }
                    }
                },
                None => {},
            }
        }
        assert forall|i: int| 0 <= i < ts.len() implies (#[trigger] ts[i]).len() >= 50 && exists|
            j: int,
        |
            0 <= j < n && json::text_field(#[trigger] cs[j], "content"@) == Some(ts[i]) by {
            if i < before.len() {
                assert(ts[i] == before[i]);
                let j = choose|j: int|
                    0 <= j < n - 1 && json::text_field(#[trigger] cs[j], "content"@) == Some(
                        before[i],
                    );
                assert(json::text_field(cs[j], "content"@) == Some(ts[i]));
            } else {
                assert(json::text_field(cs[n - 1], "content"@) == Some(ts[i]));
            }
        }
    }
}

// ---------------------------------------------------------------------------
// Merging with a search
// ---------------------------------------------------------------------------

proof fn lemma_merged_found(
    docs: Seq<RecordV>,
    found: Seq<RecordV>,
    room: nat,
    n: nat,
) -> (at: Seq<int>)
    requires
        n <= found.len(),
    ensures
        ({
            let out = hybrid::merged_found(docs, found, room, n);
            &&& docs.is_prefix_of(out)
            &&& taken(out.skip(docs.len() as int), found, at)
            &&& forall|k: int| 0 <= k < at.len() ==> #[trigger] at[k] < n && !listed(
                out.take(docs.len() + k),
                found[at[k]].id,
            )
            &&& out.len() <= docs.len() || out.len() <= room
            &&& forall|i: int|
                0 <= i < n ==> listed(out, (#[trigger] found[i]).id) || (out.len() >= room
                    && forall|k: int| 0 <= k < at.len() ==> #[trigger] at[k] < i)
        }),
    decreases n,
{
    if n == 0 {
        assert(docs.skip(docs.len() as int) =~= Seq::empty());
        assert(docs.subrange(0, docs.len() as int) =~= docs);
        Seq::empty()
    } else {
        let a = lemma_merged_found(docs, found, room, (n - 1) as nat);
        let before = hybrid::merged_found(docs, found, room, (n - 1) as nat);
        let out = hybrid::merged_found(docs, found, room, n);
        let add = before.len() < room && !listed(before, found[n - 1].id);
        let d = docs.len() as int;
        let at = if add {
            a.push(n - 1)
        } else {
            a
        };
        lemma_rising_push(a, n - 1);
        assert(out.subrange(0, d) =~= before.subrange(0, d));
        let rest = out.skip(d);
        assert forall|k: int| 0 <= k < at.len() implies 0 <= #[trigger] at[k] < found.len()
            && rest[k] == found[at[k]] by {
            if k < a.len() {
                assert(at[k] == a[k]);
                assert(before.skip(d)[k] == rest[k]);
            }
        }
        assert forall|k: int| 0 <= k < at.len() implies #[trigger] at[k] < n && !listed(
            out.take(d + k),
            found[at[k]].id,
        ) by {
            if k < a.len() {
                assert(at[k] == a[k]);
                assert(out.take(d + k) =~= before.take(d + k));
            } else {
                assert(out.take(d + k) =~= before);
            }
        }
        assert forall|i: int| 0 <= i < n implies listed(out, (#[trigger] found[i]).id) || (
        out.len() >= room && forall|k: int| 0 <= k < at.len() ==> #[trigger] at[k] < i) by {
            if i < n - 1 {
                if listed(before, found[i].id) {
                    let k = choose|k: int|
                        0 <= k < before.len() && #[trigger] before[k].id == found[i].id;
                    assert(out[k].id == found[i].id);
                }
            } else if add {
                assert(out[before.len() as int].id == found[i].id);
            } else if listed(before, found[i].id) {
                assert(out == before);
            }
        }
        at
    }
}

/// A merge leaves out a row of the search only where a row with its id is there
/// or no room is left. After the graph side come rows of the search, in their
/// order, none of which has the id of a row before it, up to the room: the
/// limit, less one for an answer in words. Where room is left, every row of the
/// search is there.
pub proof fn law_merge_leaves_out_only_repeats(
    data: Option<JsonV>,
    parents: Seq<RecordV>,
    all: Seq<RecordV>,
    found: Seq<RecordV>,
    limit: nat,
    answered: bool,
) -> (at: Seq<int>)
    ensures
        ({
            let room = if answered && limit > 0 {
                limit - 1
            } else {
                limit as int
            };
            let g = hybrid::graph_side(data, parents, all, limit);
            let out = hybrid::hybrid_of(data, parents, all, found, limit, answered);
            &&& g.is_prefix_of(out)
            &&& taken(out.skip(g.len() as int), found, at)
            &&& forall|k: int|
                0 <= k < at.len() ==> !listed(out.take(g.len() + k), found[#[trigger] at[k]].id)
            &&& out.len() <= g.len() || out.len() <= room
            &&& out.len() < room ==> forall|i: int|
                0 <= i < found.len() ==> listed(out, (#[trigger] found[i]).id)
            &&& forall|i: int|
                0 <= i < found.len() ==> listed(out, (#[trigger] found[i]).id) || (out.len() >= room
                    && forall|k: int| 0 <= k < at.len() ==> #[trigger] at[k] < i)
        }),
{
    lemma_merged_found(
        hybrid::graph_side(data, parents, all, limit),
        found,
        hybrid::room_for(limit, answered),
        found.len(),
    )
}

proof fn lemma_merged_named(ids: Seq<Seq<char>>, parents: Seq<RecordV>, n: nat) -> (at: Seq<int>)
    requires
        n <= ids.len(),
        ids.no_duplicates(),
    ensures
        ({
            let out = hybrid::merged_named(ids, parents, n);
            &&& rising(at)
            &&& at.len() == out.len()
            &&& forall|k: int|
                0 <= k < at.len() ==> 0 <= #[trigger] at[k] < n && query::row_with_id(
                    parents,
                    ids[at[k]],
                ) == Some(out[k])
            &&& forall|i: int|
                0 <= i < n ==> (listed(parents, #[trigger] ids[i]) <==> at.contains(i))
        }),
    decreases n,
{
    if n == 0 {
        Seq::empty()
    } else {
        let before = hybrid::merged_named(ids, parents, (n - 1) as nat);
        let a = lemma_merged_named(ids, parents, (n - 1) as nat);
        let out = hybrid::merged_named(ids, parents, n);
        law_rows_are_found_by_id(parents, ids[n - 1]);
        match query::row_with_id(parents, ids[n - 1]) {
            Some(p) => {
                if query::has_id(before, p.id) {
                    let k = choose|k: int| 0 <= k < before.len() && #[trigger] before[k].id == p.id;
                    assert(0 <= a[k] < n - 1);
                    law_rows_are_found_by_id(parents, ids[a[k]]);
                    assert(ids[a[k]] == ids[n - 1]);
                }
                let at = a.push(n - 1);
                lemma_rising_push(a, n - 1);
                assert forall|k: int| 0 <= k < at.len() implies 0 <= #[trigger] at[k] < n
                    && query::row_with_id(parents, ids[at[k]]) == Some(out[k]) by {
                    if k < a.len() {
                        assert(at[k] == a[k]);
                    }
                }
                assert forall|i: int| 0 <= i < n implies (listed(parents, #[trigger] ids[i])
                    <==> at.contains(i)) by {
                    if i == n - 1 {
                        assert(at[a.len() as int] == i);
                    } else {
                        if a.contains(i) {
                            assert(at[a.index_of(i)] == i);
                        }
                        if at.contains(i) {
                            assert(a[at.index_of(i)] == i);
                        }
                    }
                }
                at
            },
            None => {
                assert forall|i: int| 0 <= i < n implies (listed(parents, #[trigger] ids[i])
                    <==> a.contains(i)) by {
                    if i == n - 1 && a.contains(i) {
                        assert(a[a.index_of(i)] < n - 1);
                    }
                }
                a
            },
        }
    }
}

/// The graph side of a merge is made of the stored documents that the graph
/// names, all of them, in the order in which they are named, as soon as one is
/// stored; without a graph answer there is none.
pub proof fn law_graph_side_is_what_is_named(
    d: JsonV,
    parents: Seq<RecordV>,
    all: Seq<RecordV>,
    limit: nat,
) -> (at: Seq<int>)
    requires
        exists|i: int|
            0 <= i < hybrid::doc_ids(d).len() && listed(parents, #[trigger] hybrid::doc_ids(d)[i]),
    ensures
        hybrid::graph_side(None, parents, all, limit).len() == 0,
        ({
            let ids = hybrid::doc_ids(d);
            let g = hybrid::graph_side(Some(d), parents, all, limit);
            &&& rising(at)
            &&& g.len() == at.len()
            &&& forall|k: int|
                0 <= k < at.len() ==> 0 <= #[trigger] at[k] < ids.len() && g[k].id == ids[at[k]]
                    && parents.contains(g[k])
            &&& forall|i: int|
                0 <= i < ids.len() && listed(parents, #[trigger] ids[i]) ==> at.contains(i)
        }),
{
    let ids = hybrid::doc_ids(d);
    law_named_ids_follow_the_chunks(d);
    let at = lemma_merged_named(ids, parents, ids.len());
    let g = hybrid::merged_named(ids, parents, ids.len());
    let w = choose|i: int| 0 <= i < ids.len() && listed(parents, #[trigger] ids[i]);
    assert(at.contains(w));
    assert forall|k: int| 0 <= k < at.len() implies 0 <= #[trigger] at[k] < ids.len() && g[k].id
        == ids[at[k]] && parents.contains(g[k]) by {
        law_rows_are_found_by_id(parents, ids[at[k]]);
    }
    at
}

proof fn lemma_merged_content(
    all: Seq<RecordV>,
    contents: Seq<Seq<char>>,
    limit: nat,
    n: nat,
) -> (at: Seq<int>)
    requires
        n <= all.len(),
    ensures
        ({
            let out = hybrid::merged_content(all, contents, limit, n);
            &&& taken(out, all, at)
            &&& out.len() <= limit
            &&& forall|k: int| 0 <= k < at.len() ==> #[trigger] at[k] < n && content_hit(
                all[at[k]],
                contents,
                None,
            ) && !listed(out.take(k), all[at[k]].id)
            &&& forall|i: int|
                0 <= i < n && content_hit(#[trigger] all[i], contents, None) ==> listed(
                    out,
                    all[i].id,
                ) || (out.len() == limit && forall|k: int|
                    0 <= k < at.len() ==> #[trigger] at[k] < i)
        }),
    decreases n,
{
    if n == 0 {
        Seq::empty()
    } else {
        let before = hybrid::merged_content(all, contents, limit, (n - 1) as nat);
        let a = lemma_merged_content(all, contents, limit, (n - 1) as nat);
        let out = hybrid::merged_content(all, contents, limit, n);
        let add = before.len() < limit && content_hit(all[n - 1], contents, None) && !listed(
            before,
            all[n - 1].id,
        );
        let at = if add {
            a.push(n - 1)
        } else {
            a
        };
        lemma_rising_push(a, n - 1);
        assert forall|k: int| 0 <= k < at.len() implies 0 <= #[trigger] at[k] < all.len() && out[k]
            == all[at[k]] && at[k] < n && content_hit(all[at[k]], contents, None) && !listed(
            out.take(k),
            all[at[k]].id,
        ) by {
            if k < a.len() {
                assert(at[k] == a[k]);
                assert(out[k] == before[k]);
                assert(out.take(k) =~= before.take(k));
            } else {
                assert(out.take(k) =~= before);
            }
        }
        assert forall|i: int| 0 <= i < n && content_hit(#[trigger] all[i], contents, None) implies listed(
            out,
            all[i].id,
        ) || (out.len() == limit && forall|k: int| 0 <= k < at.len() ==> #[trigger] at[k] < i) by {
            if i < n - 1 {
                if listed(before, all[i].id) {
                    let k = choose|k: int|
                        0 <= k < before.len() && #[trigger] before[k].id == all[i].id;
                    assert(out[k].id == all[i].id);
                }
            } else if add {
                assert(out[before.len() as int].id == all[i].id);
            }
        }
        at
    }
}

/// Where no document that the graph names is stored, the graph side of a merge
/// is made of the documents that hold one of its longer texts, in the order of
/// the store, each id once, up to the limit and to nothing else.
pub proof fn law_other_graph_side_holds_the_texts(
    d: JsonV,
    parents: Seq<RecordV>,
    all: Seq<RecordV>,
    limit: nat,
) -> (at: Seq<int>)
    requires
        forall|i: int|
            0 <= i < hybrid::doc_ids(d).len() ==> !listed(
                parents,
                #[trigger] hybrid::doc_ids(d)[i],
            ),
    ensures
        ({
            let out = hybrid::graph_side(Some(d), parents, all, limit);
            let contents = hybrid::contents_of(d);
            &&& taken(out, all, at)
            &&& out.len() <= limit
            &&& forall|k: int|
                0 <= k < at.len() ==> content_hit(all[#[trigger] at[k]], contents, None)
                    && !listed(out.take(k), all[at[k]].id)
            &&& forall|i: int|
                0 <= i < all.len() && content_hit(#[trigger] all[i], contents, None) ==> listed(
                    out,
                    all[i].id,
                ) || (out.len() == limit && forall|k: int|
                    0 <= k < at.len() ==> #[trigger] at[k] < i)
        }),
{
    let ids = hybrid::doc_ids(d);
    law_named_ids_follow_the_chunks(d);
    let a = lemma_merged_named(ids, parents, ids.len());
    let named = hybrid::merged_named(ids, parents, ids.len());
    if named.len() > 0 {
        assert(a.contains(a[0]));
        assert(listed(parents, ids[a[0]]));
    }
    lemma_merged_content(all, hybrid::contents_of(d), limit, all.len())
}

} // verus!
