//! Graph answers: the documents they point at, and their merge with the rows
//! that a search found.

use crate::json;
use crate::json::{Json, JsonV};
use crate::mcp;
use crate::query;
use crate::query::{Pred, PredV};
use crate::store;
use crate::store::{Record, RecordV};
use crate::text;
use vstd::prelude::*;

verus! {

broadcast use vstd::string::group_string_axioms;

/// A chunk of a graph answer stands for its document only if it has at least
/// this many characters.
pub const MIN_CONTENT_CHARS: usize = 50;

// ---------------------------------------------------------------------------
// What a graph answer points at
// ---------------------------------------------------------------------------

/// What a graph backend came back with.
#[derive(Debug, PartialEq, Eq)]
pub enum Outcome {
    /// Nothing: the backend failed.
    Failed,
    /// An answer in words.
    Answer(String),
    /// Structured data.
    Data(Json),
    /// Something that is not JSON where data was asked for, and why not.
    Unreadable(String),
}

/// The `data` part of structured data; null where there is none.
pub open spec fn data_part(j: JsonV) -> JsonV {
    match json::field(j, "data"@) {
        Some(d) => d,
        None => JsonV::Null,
    }
}

/// Reads what a graph backend came back with.
pub fn read_outcome(content: Option<&str>, want_answer: bool) -> (r: Outcome)
    ensures
        (match content {
            None => r is Failed,
            Some(c) => if want_answer {
                r matches Outcome::Answer(a) && a@ == c@
            } else {
                match json::parsed(c@) {
                    Ok(j) => r matches Outcome::Data(d) && d@ == data_part(j),
                    Err(e) => r matches Outcome::Unreadable(m) && m@ == e,
                }
            },
        }),
{
    match content {
        None => Outcome::Failed,
        Some(c) => if want_answer {
            Outcome::Answer(c.to_string())
        } else {
            match Json::parse(c) {
                Ok(j) => Outcome::Data(graph_data(&j)),
                Err(e) => Outcome::Unreadable(e),
            }
        },
    }
}

/// The `data` part of structured data.
pub fn graph_data(j: &Json) -> (r: Json)
    ensures
        r@ == data_part(j@),
{
    match j.get("data") {
        Some(d) => d.copy(),
        None => Json::Null,
    }
}

/// The chunks that structured data names.
pub open spec fn chunks_of(data: JsonV) -> Seq<JsonV> {
    match json::field(data, "chunks"@) {
        Some(JsonV::Arr(s)) => s,
        _ => Seq::empty(),
    }
}

/// The document that the file of a chunk stands for, if it stands for one.
pub open spec fn file_doc(chunk: JsonV) -> Option<Seq<char>> {
    match json::text_field(chunk, "file_path"@) {
        Some(p) => match text::before_suffix(p, ".txt"@) {
            Some(id) => if id.len() > 0 {
                Some(id)
            } else {
                None
            },
            None => None,
        },
        None => None,
    }
}

/// The document that a chunk belongs to: the one it names, else the one its
/// file stands for.
pub open spec fn chunk_doc(chunk: JsonV) -> Option<Seq<char>> {
    match json::text_field(chunk, "doc_id"@) {
        Some(id) => if id.len() > 0 {
            Some(id)
        } else {
            file_doc(chunk)
        },
        None => file_doc(chunk),
    }
}

/// The document ids that the first `n` chunks belong to.
pub open spec fn ids_in(s: Seq<JsonV>, n: nat) -> Seq<Seq<char>>
    decreases n,
{
    if n == 0 || n > s.len() {
        Seq::empty()
    } else {
        match chunk_doc(s[n - 1]) {
            Some(id) => ids_in(s, (n - 1) as nat).push(id),
            None => ids_in(s, (n - 1) as nat),
        }
    }
}

/// The document that a chunk belongs to.
fn doc_of_chunk(chunk: &Json) -> (r: Option<String>)
    ensures
        crate::store::opt_view(r) == chunk_doc(chunk@),
{
    match chunk.str_field("doc_id") {
        Some(id) => if !id.is_empty() {
            return Some(id.to_string());
        },
        None => {},
    }
    match chunk.str_field("file_path") {
        Some(p) => match text::strip_suffix(p, ".txt") {
            Some(id) => if id.as_str().is_empty() {
                None
            } else {
                Some(id)
            },
            None => None,
        },
        None => None,
    }
}

/// A document that was inserted under the name of its file is found again by
/// that name.
pub proof fn law_inserted_documents_are_found(id: Seq<char>)
    requires
        id.len() > 0,
    ensures
        chunk_doc(JsonV::Obj(seq![("file_path"@, JsonV::Str(crate::plugins::graph::file_source(id)))])) == Some(
            id,
        ),
{
    reveal_strlit("file_path");
    reveal_strlit("doc_id");
    assert("file_path"@.len() == 9 && "doc_id"@.len() == 6);
    let chunk = JsonV::Obj(seq![("file_path"@, JsonV::Str(crate::plugins::graph::file_source(id)))]);
    reveal_with_fuel(json::lookup, 3);
    let f = crate::plugins::graph::file_source(id);
    assert(f.skip(f.len() - ".txt"@.len()) =~= ".txt"@);
    assert(f.take(f.len() - ".txt"@.len()) =~= id);
}

/// The first `n` ids, each once, where it comes first.
pub open spec fn first_ids(ids: Seq<Seq<char>>, n: nat) -> Seq<Seq<char>>
    decreases n,
{
    if n == 0 || n > ids.len() {
        Seq::empty()
    } else {
        let before = first_ids(ids, (n - 1) as nat);
        if before.contains(ids[n - 1]) {
            before
        } else {
            before.push(ids[n - 1])
        }
    }
}

/// The document ids that structured data names, each once, in the order in
/// which they come: the most relevant first.
pub open spec fn doc_ids(data: JsonV) -> Seq<Seq<char>> {
    let ids = ids_in(chunks_of(data), chunks_of(data).len());
    first_ids(ids, ids.len())
}

/// Taking each id where it comes first keeps all ids, none twice, in their
/// order.
pub proof fn law_first_ids_keep_order(ids: Seq<Seq<char>>, n: nat)
    requires
        n <= ids.len(),
    ensures
        first_ids(ids, n).no_duplicates(),
        forall|x: Seq<char>| first_ids(ids, n).contains(x) <==> ids.take(n as int).contains(x),
        forall|i: int, j: int|
            0 <= i < j < first_ids(ids, n).len() ==> ids.index_of_first(
                #[trigger] first_ids(ids, n)[i],
            )->0 < ids.index_of_first(#[trigger] first_ids(ids, n)[j])->0,
    decreases n,
{
    let now = first_ids(ids, n);
    if n > 0 {
        let m = (n - 1) as nat;
        let before = first_ids(ids, m);
        let x = ids[n - 1];
        law_first_ids_keep_order(ids, m);
        assert(ids.take(n as int) =~= ids.take(m as int).push(x));
        assert forall|y: Seq<char>| now.contains(y) <==> ids.take(n as int).contains(y) by {
            lemma_pushed(ids.take(m as int), x, y);
            lemma_pushed(before, x, y);
        }
        assert forall|i: int, j: int| 0 <= i < j < now.len() implies ids.index_of_first(
            #[trigger] now[i],
        )->0 < ids.index_of_first(#[trigger] now[j])->0 by {
            assert(now[i] == before[i]);
            if j < before.len() {
                assert(now[j] == before[j]);
            } else {
                assert(before.contains(before[i]));
                lemma_first_place(ids, m, now[i]);
                assert(!ids.take(m as int).contains(x));
                lemma_first_place_from(ids, m, x);
            }
        }
    } else {
        assert(ids.take(0) =~= Seq::empty());
    }
}

proof fn lemma_pushed(s: Seq<Seq<char>>, x: Seq<char>, y: Seq<char>)
    ensures
        s.push(x).contains(y) <==> (s.contains(y) || y == x),
{
    let t = s.push(x);
    if s.contains(y) {
        assert(t[s.index_of(y)] == y);
    }
    assert(t[s.len() as int] == x);
    if t.contains(y) && y != x {
        let i = t.index_of(y);
        assert(s[i] == y);
    }
}

proof fn lemma_first_place(ids: Seq<Seq<char>>, m: nat, x: Seq<char>)
    requires
        m <= ids.len(),
        ids.take(m as int).contains(x),
    ensures
        ids.index_of_first(x) is Some,
        ids.index_of_first(x)->0 < m,
{
    let k = ids.take(m as int).index_of(x);
    assert(ids[k] == x);
    assert(ids.contains(x));
    ids.index_of_first_ensures(x);
}

proof fn lemma_first_place_from(ids: Seq<Seq<char>>, m: nat, x: Seq<char>)
    requires
        m < ids.len(),
        ids[m as int] == x,
        !ids.take(m as int).contains(x),
    ensures
        ids.index_of_first(x) is Some,
        ids.index_of_first(x)->0 >= m,
{
    assert(ids.contains(x));
    ids.index_of_first_ensures(x);
    let k = ids.index_of_first(x)->0;
    if k < m {
        assert(ids.take(m as int)[k] == x);
    }
}

/// The texts of the first `n` chunks that are long enough to stand for a
/// document.
pub open spec fn contents_in(s: Seq<JsonV>, n: nat) -> Seq<Seq<char>>
    decreases n,
{
    if n == 0 || n > s.len() {
        Seq::empty()
    } else {
        match json::text_field(s[n - 1], "content"@) {
            Some(t) => if t.len() >= MIN_CONTENT_CHARS {
                contents_in(s, (n - 1) as nat).push(t)
            } else {
                contents_in(s, (n - 1) as nat)
            },
            None => contents_in(s, (n - 1) as nat),
        }
    }
}

/// The texts of structured data that are long enough to stand for a document.
pub open spec fn contents_of(data: JsonV) -> Seq<Seq<char>> {
    contents_in(chunks_of(data), chunks_of(data).len())
}

/// The document ids that structured data names.
pub fn graph_doc_ids(data: &Json) -> (r: Vec<String>)
    ensures
        text::texts(r@) == doc_ids(data@),
{
    let mut ids: Vec<String> = Vec::new();
    assert(text::texts(ids@) =~= Seq::empty());
    let chunks: &Vec<Json> = match data.get("chunks") {
        Some(c) => match c.as_array() {
            Some(a) => a,
            None => {
                return ids;
            },
        },
        None => {
            return ids;
        },
    };
    let ghost s = json::items(chunks@);
    let mut i: usize = 0;
    while i < chunks.len()
        invariant
            s == json::items(chunks@),
            i <= chunks@.len(),
            text::texts(ids@) == ids_in(s, i as nat),
        decreases chunks@.len() - i,
    {
        assert(s[i as int] == chunks@[i as int]@);
        match doc_of_chunk(&chunks[i]) {
            Some(id) => {
                text::push_text(&mut ids, id);
            },
            None => {},
        }
        i = i + 1;
    }
    each_first(&ids)
}

/// The ids, each once, where it comes first.
fn each_first(ids: &Vec<String>) -> (r: Vec<String>)
    ensures
        text::texts(r@) == first_ids(text::texts(ids@), ids@.len()),
{
    let ghost all = text::texts(ids@);
    let mut r: Vec<String> = Vec::new();
    let mut i: usize = 0;
    assert(text::texts(r@) =~= Seq::empty());
    while i < ids.len()
        invariant
            all == text::texts(ids@),
            i <= ids@.len(),
            text::texts(r@) == first_ids(all, i as nat),
        decreases ids@.len() - i,
    {
        assert(all[i as int] == ids@[i as int]@);
        if !text::listed(&r, ids[i].as_str()) {
            text::push_text(&mut r, ids[i].clone());
        }
        i = i + 1;
    }
    r
}

/// The texts of structured data that are long enough to stand for a document.
pub fn graph_contents(data: &Json) -> (r: Vec<String>)
    ensures
        text::texts(r@) == contents_of(data@),
{
    let mut out: Vec<String> = Vec::new();
    assert(text::texts(out@) =~= Seq::empty());
    let chunks: &Vec<Json> = match data.get("chunks") {
        Some(c) => match c.as_array() {
            Some(a) => a,
            None => {
                return out;
            },
        },
        None => {
            return out;
        },
    };
    let ghost s = json::items(chunks@);
    let mut i: usize = 0;
    while i < chunks.len()
        invariant
            s == json::items(chunks@),
            i <= chunks@.len(),
            text::texts(out@) == contents_in(s, i as nat),
        decreases chunks@.len() - i,
    {
        assert(s[i as int] == chunks@[i as int]@);
        match chunks[i].str_field("content") {
            Some(t) => {
                let chars: Vec<char> = text::chars_of(t);
                if chars.len() >= MIN_CONTENT_CHARS {
                    text::push_text(&mut out, t.to_string());
                }
            },
            None => {},
        }
        i = i + 1;
    }
    out
}

// ---------------------------------------------------------------------------
// Documents of a graph answer
// ---------------------------------------------------------------------------

/// Whether a row passes an optional filter.
pub open spec fn passes(f: Option<PredV>, d: RecordV) -> bool {
    match f {
        Some(p) => query::matches_row(p, d),
        None => true,
    }
}

/// Whether the text of a row holds one of the contents.
pub open spec fn holds_content(d: RecordV, contents: Seq<Seq<char>>) -> bool {
    exists|i: int| 0 <= i < contents.len() && text::occurs(d.raw_text, #[trigger] contents[i])
}

/// The documents that the first `n` ids name and that pass the filter.
pub open spec fn named_documents(
    ids: Seq<Seq<char>>,
    parents: Seq<RecordV>,
    f: Option<PredV>,
    n: nat,
) -> Seq<RecordV>
    decreases n,
{
    if n == 0 || n > ids.len() {
        Seq::empty()
    } else {
        match query::row_with_id(parents, ids[n - 1]) {
            Some(p) => if passes(f, p) {
                named_documents(ids, parents, f, (n - 1) as nat).push(p)
            } else {
                named_documents(ids, parents, f, (n - 1) as nat)
            },
            None => named_documents(ids, parents, f, (n - 1) as nat),
        }
    }
}

/// The documents among the first `n` that hold one of the contents and pass
/// the filter, at most `limit` of them.
pub open spec fn content_documents(
    all: Seq<RecordV>,
    contents: Seq<Seq<char>>,
    f: Option<PredV>,
    limit: nat,
    n: nat,
) -> Seq<RecordV>
    decreases n,
{
    if n == 0 || n > all.len() {
        Seq::empty()
    } else {
        let before = content_documents(all, contents, f, limit, (n - 1) as nat);
        if before.len() < limit && holds_content(all[n - 1], contents) && passes(f, all[n - 1]) {
            before.push(all[n - 1])
        } else {
            before
        }
    }
}

/// The documents that structured data points at: those it names, or where it
/// names none those that hold its texts; at most `limit`.
pub open spec fn graph_documents_of(
    data: JsonV,
    parents: Seq<RecordV>,
    all: Seq<RecordV>,
    f: Option<PredV>,
    limit: nat,
) -> Seq<RecordV> {
    let ids = doc_ids(data);
    let named = named_documents(ids, parents, f, ids.len());
    let docs = if named.len() == 0 {
        content_documents(all, contents_of(data), f, limit, all.len())
    } else {
        named
    };
    if docs.len() > limit {
        docs.take(limit as int)
    } else {
        docs
    }
}

/// The model of an optional filter expression.
pub open spec fn opt_pred(p: Option<&Pred>) -> Option<PredV> {
    match p {
        Some(x) => Some(x@),
        None => None,
    }
}

fn row_passes(p: Option<&Pred>, d: &Record) -> (r: bool)
    ensures
        r == passes(opt_pred(p), d@),
{
    match p {
        Some(x) => query::pred_matches(x, d),
        None => true,
    }
}

fn row_holds(d: &Record, contents: &Vec<String>) -> (r: bool)
    ensures
        r == holds_content(d@, text::texts(contents@)),
{
    let ghost cs = text::texts(contents@);
    let mut i: usize = 0;
    while i < contents.len()
        invariant
            cs == text::texts(contents@),
            i <= contents@.len(),
            forall|k: int| 0 <= k < i ==> !text::occurs(d@.raw_text, #[trigger] cs[k]),
        decreases contents@.len() - i,
    {
        if text::contains(d.raw_text.as_str(), contents[i].as_str()) {
            assert(text::occurs(d@.raw_text, cs[i as int]));
            return true;
        }
        i = i + 1;
    }
    false
}

/// The documents that the ids name and that pass the filter.
pub fn documents_by_id(ids: &Vec<String>, parents: &Vec<Record>, f: Option<&Pred>) -> (r: Vec<
    Record,
>)
    ensures
        store::records(r@) == named_documents(
            text::texts(ids@),
            store::records(parents@),
            opt_pred(f),
            ids@.len(),
        ),
{
    let ghost is = text::texts(ids@);
    let ghost ps = store::records(parents@);
    let mut out: Vec<Record> = Vec::new();
    let mut i: usize = 0;
    assert(store::records(out@) =~= Seq::empty());
    while i < ids.len()
        invariant
            is == text::texts(ids@),
            ps == store::records(parents@),
            i <= ids@.len(),
            store::records(out@) == named_documents(is, ps, opt_pred(f), i as nat),
        decreases ids@.len() - i,
    {
        match query::find_row(parents, ids[i].as_str()) {
            Some(p) => if row_passes(f, p) {
                store::push_record(&mut out, p.copy());
            },
            None => {},
        }
        i = i + 1;
    }
    out
}

/// The documents that hold one of the contents and pass the filter, at most
/// `limit`.
pub fn documents_by_content(
    all: &Vec<Record>,
    contents: &Vec<String>,
    f: Option<&Pred>,
    limit: usize,
) -> (r: Vec<Record>)
    ensures
        store::records(r@) == content_documents(
            store::records(all@),
            text::texts(contents@),
            opt_pred(f),
            limit as nat,
            all@.len(),
        ),
{
    let ghost cs = text::texts(contents@);
    let ghost s = store::records(all@);
    let mut out: Vec<Record> = Vec::new();
    let mut i: usize = 0;
    assert(store::records(out@) =~= Seq::empty());
    while i < all.len()
        invariant
            cs == text::texts(contents@),
            s == store::records(all@),
            i <= all@.len(),
            store::records(out@) == content_documents(s, cs, opt_pred(f), limit as nat, i as nat),
        decreases all@.len() - i,
    {
        assert(s[i as int] == all@[i as int]@);
        assert(out@.len() == store::records(out@).len());
        if out.len() < limit && row_holds(&all[i], contents) && row_passes(f, &all[i]) {
            store::push_record(&mut out, all[i].copy());
        }
        i = i + 1;
    }
    out
}

/// Whether all documents are to be looked at for the texts of structured data:
/// it names none that is at hand and passes, and has texts long enough.
pub fn needs_content_scan(data: &Json, named: &Vec<Record>) -> (r: bool)
    ensures
        r == (named@.len() == 0 && contents_of(data@).len() > 0),
{
    if named.len() > 0 {
        return false;
    }
    let contents: Vec<String> = graph_contents(data);
    assert(contents_of(data@).len() == contents@.len());
    contents.len() > 0
}

/// The documents that structured data points at. `parents` holds the documents
/// it names; `all` holds all documents, where they are to be looked at.
pub fn graph_documents(
    data: &Json,
    parents: &Vec<Record>,
    all: &Vec<Record>,
    f: Option<&Pred>,
    limit: usize,
) -> (r: Vec<Record>)
    ensures
        store::records(r@) == graph_documents_of(
            data@,
            store::records(parents@),
            store::records(all@),
            opt_pred(f),
            limit as nat,
        ),
{
    let ids: Vec<String> = graph_doc_ids(data);
    assert(ids@.len() == doc_ids(data@).len());
    let named: Vec<Record> = documents_by_id(&ids, parents, f);
    assert(store::records(named@).len() == named@.len());
    let mut docs: Vec<Record> = if named.len() == 0 {
        let contents: Vec<String> = graph_contents(data);
        documents_by_content(all, &contents, f, limit)
    } else {
        named
    };
    let ghost before = store::records(docs@);
    assert(before.len() == docs@.len());
    if docs.len() > limit {
        docs.truncate(limit);
        assert(store::records(docs@) =~= before.take(limit as int));
    }
    docs
}

/// Whether all rows pass an optional filter.
pub open spec fn all_pass(f: Option<PredV>, docs: Seq<RecordV>) -> bool {
    forall|i: int| 0 <= i < docs.len() ==> passes(f, #[trigger] docs[i])
}

/// The documents that structured data names are given once each.
pub proof fn law_named_documents_come_once(
    data: JsonV,
    parents: Seq<RecordV>,
    f: Option<PredV>,
    n: nat,
)
    requires
        n <= doc_ids(data).len(),
    ensures
        ids_differ(named_documents(doc_ids(data), parents, f, n)),
        forall|i: int|
            0 <= i < named_documents(doc_ids(data), parents, f, n).len() ==> doc_ids(data).take(
                n as int,
            ).contains((#[trigger] named_documents(doc_ids(data), parents, f, n)[i]).id),
    decreases n,
{
    let ids = doc_ids(data);
    let now = named_documents(ids, parents, f, n);
    if n > 0 {
        let before = named_documents(ids, parents, f, (n - 1) as nat);
        law_named_documents_come_once(data, parents, f, (n - 1) as nat);
        let all = ids_in(chunks_of(data), chunks_of(data).len());
        law_first_ids_keep_order(all, all.len());
        assert(ids.take(n as int) =~= ids.take(n - 1).push(ids[n - 1]));
        assert forall|i: int| 0 <= i < now.len() implies ids.take(n as int).contains(
            (#[trigger] now[i]).id,
        ) by {
            if i < before.len() {
                assert(now[i] == before[i]);
                lemma_pushed(ids.take(n - 1), ids[n - 1], now[i].id);
            } else {
                lemma_row_has_id(parents, ids[n - 1]);
                assert(ids.take(n as int)[n - 1] == now[i].id);
            }
        }
        assert forall|i: int, j: int| 0 <= i < j < now.len() implies (#[trigger] now[i]).id != (
        #[trigger] now[j]).id by {
            assert(now[i] == before[i]);
            if j < before.len() {
                assert(now[j] == before[j]);
            } else {
                lemma_row_has_id(parents, ids[n - 1]);
                let k = ids.take(n - 1).index_of(now[i].id);
                assert(ids[k] == now[i].id);
            }
        }
    }
}

proof fn lemma_row_has_id(rows: Seq<RecordV>, id: Seq<char>)
    ensures
        query::row_with_id(rows, id) matches Some(r) ==> r.id == id,
    decreases rows.len(),
{
    if rows.len() > 0 && rows.last().id != id {
        lemma_row_has_id(rows.drop_last(), id);
    }
}

/// The documents given for structured data never exceed the limit, and all of
/// them pass the filter.
pub proof fn law_graph_documents_respect_limit_and_filter(
    data: JsonV,
    parents: Seq<RecordV>,
    all: Seq<RecordV>,
    f: Option<PredV>,
    limit: nat,
)
    ensures
        graph_documents_of(data, parents, all, f, limit).len() <= limit,
        all_pass(f, graph_documents_of(data, parents, all, f, limit)),
{
    let ids = doc_ids(data);
    lemma_named_pass(ids, parents, f, ids.len());
    lemma_content_pass(all, contents_of(data), f, limit, all.len());
}

proof fn lemma_named_pass(
    ids: Seq<Seq<char>>,
    parents: Seq<RecordV>,
    f: Option<PredV>,
    n: nat,
)
    ensures
        all_pass(f, named_documents(ids, parents, f, n)),
    decreases n,
{
    if n > 0 && n <= ids.len() {
        lemma_named_pass(ids, parents, f, (n - 1) as nat);
    }
}

proof fn lemma_content_pass(
    all: Seq<RecordV>,
    contents: Seq<Seq<char>>,
    f: Option<PredV>,
    limit: nat,
    n: nat,
)
    ensures
        all_pass(f, content_documents(all, contents, f, limit, n)),
    decreases n,
{
    if n > 0 && n <= all.len() {
        lemma_content_pass(all, contents, f, limit, (n - 1) as nat);
    }
}

// ---------------------------------------------------------------------------
// Merging with a search
// ---------------------------------------------------------------------------

/// `docs` with `r` at the end, unless a row with its id is there.
pub open spec fn merged_one(docs: Seq<RecordV>, r: RecordV) -> Seq<RecordV> {
    if query::has_id(docs, r.id) {
        docs
    } else {
        docs.push(r)
    }
}

/// The documents that the first `n` ids name, each once.
pub open spec fn merged_named(ids: Seq<Seq<char>>, parents: Seq<RecordV>, n: nat) -> Seq<RecordV>
    decreases n,
{
    if n == 0 || n > ids.len() {
        Seq::empty()
    } else {
        let before = merged_named(ids, parents, (n - 1) as nat);
        match query::row_with_id(parents, ids[n - 1]) {
            Some(p) => merged_one(before, p),
            None => before,
        }
    }
}

/// The documents among the first `n` that hold one of the contents, each once,
/// at most `limit`.
pub open spec fn merged_content(
    all: Seq<RecordV>,
    contents: Seq<Seq<char>>,
    limit: nat,
    n: nat,
) -> Seq<RecordV>
    decreases n,
{
    if n == 0 || n > all.len() {
        Seq::empty()
    } else {
        let before = merged_content(all, contents, limit, (n - 1) as nat);
        if before.len() < limit && holds_content(all[n - 1], contents) {
            merged_one(before, all[n - 1])
        } else {
            before
        }
    }
}

/// The graph side of a merge: the documents that structured data names, or
/// where none is at hand those that hold its texts.
pub open spec fn graph_side(
    data: Option<JsonV>,
    parents: Seq<RecordV>,
    all: Seq<RecordV>,
    limit: nat,
) -> Seq<RecordV> {
    match data {
        None => Seq::empty(),
        Some(d) => {
            let named = merged_named(doc_ids(d), parents, doc_ids(d).len());
            if named.len() == 0 {
                merged_content(all, contents_of(d), limit, all.len())
            } else {
                named
            }
        },
    }
}

/// `docs` and after them the first `n` of the rows found that are not among
/// them, as long as there are fewer than `room` in all.
pub open spec fn merged_found(
    docs: Seq<RecordV>,
    found: Seq<RecordV>,
    room: nat,
    n: nat,
) -> Seq<RecordV>
    decreases n,
{
    if n == 0 || n > found.len() {
        docs
    } else {
        let before = merged_found(docs, found, room, (n - 1) as nat);
        if before.len() < room {
            merged_one(before, found[n - 1])
        } else {
            before
        }
    }
}

/// The room that an answer in words leaves for documents.
pub open spec fn room_for(limit: nat, answered: bool) -> nat {
    if answered && limit > 0 {
        (limit - 1) as nat
    } else {
        limit
    }
}

/// The merge of a graph answer and a search, by document id, the graph side
/// first.
pub open spec fn hybrid_of(
    data: Option<JsonV>,
    parents: Seq<RecordV>,
    all: Seq<RecordV>,
    found: Seq<RecordV>,
    limit: nat,
    answered: bool,
) -> Seq<RecordV> {
    merged_found(
        graph_side(data, parents, all, limit),
        found,
        room_for(limit, answered),
        found.len(),
    )
}

fn merge_one(docs: &mut Vec<Record>, r: &Record)
    ensures
        store::records(final(docs)@) == merged_one(store::records(old(docs)@), r@),
{
    let ghost s = store::records(docs@);
    let mut i: usize = 0;
    while i < docs.len()
        invariant
            s == store::records(docs@),
            *docs == *old(docs),
            i <= docs@.len(),
            forall|k: int| 0 <= k < i ==> #[trigger] s[k].id != r@.id,
        decreases docs@.len() - i,
    {
        if text::same(docs[i].id.as_str(), r.id.as_str()) {
            assert(s[i as int].id == r@.id);
            return ;
        }
        i = i + 1;
    }
    assert(!query::has_id(s, r@.id));
    store::push_record(docs, r.copy());
}

/// The graph side of a merge.
fn graph_rows(data: Option<&Json>, parents: &Vec<Record>, all: &Vec<Record>, limit: usize) -> (r:
    Vec<Record>)
    ensures
        store::records(r@) == graph_side(
            store::opt_json(data),
            store::records(parents@),
            store::records(all@),
            limit as nat,
        ),
{
    let mut out: Vec<Record> = Vec::new();
    assert(store::records(out@) =~= Seq::empty());
    let data: &Json = match data {
        None => {
            return out;
        },
        Some(d) => d,
    };
    let ids: Vec<String> = graph_doc_ids(data);
    let ghost is = text::texts(ids@);
    let ghost ps = store::records(parents@);
    assert(is.len() == ids@.len());
    let mut i: usize = 0;
    while i < ids.len()
        invariant
            is == text::texts(ids@),
            ps == store::records(parents@),
            i <= ids@.len(),
            store::records(out@) == merged_named(is, ps, i as nat),
        decreases ids@.len() - i,
    {
        match query::find_row(parents, ids[i].as_str()) {
            Some(p) => merge_one(&mut out, p),
            None => {},
        }
        i = i + 1;
    }
    assert(store::records(out@).len() == out@.len());
    if out.len() > 0 {
        return out;
    }
    let contents: Vec<String> = graph_contents(data);
    let ghost cs = text::texts(contents@);
    let ghost s = store::records(all@);
    let mut rows: Vec<Record> = Vec::new();
    let mut k: usize = 0;
    assert(store::records(rows@) =~= Seq::empty());
    while k < all.len()
        invariant
            cs == text::texts(contents@),
            s == store::records(all@),
            k <= all@.len(),
            store::records(rows@) == merged_content(s, cs, limit as nat, k as nat),
        decreases all@.len() - k,
    {
        assert(s[k as int] == all@[k as int]@);
        assert(store::records(rows@).len() == rows@.len());
        if rows.len() < limit && row_holds(&all[k], &contents) {
            merge_one(&mut rows, &all[k]);
        }
        k = k + 1;
    }
    rows
}

/// Whether all documents are to be looked at for the graph side of a merge.
pub fn needs_all_documents(data: &Json, parents: &Vec<Record>) -> (r: bool)
    ensures
        r == (merged_named(
            doc_ids(data@),
            store::records(parents@),
            doc_ids(data@).len(),
        ).len() == 0),
{
    let none: Vec<Record> = Vec::new();
    let rows: Vec<Record> = graph_rows(Some(data), parents, &none, 0);
    assert(store::records(none@) =~= Seq::empty());
    assert(store::records(rows@).len() == rows@.len());
    rows.len() == 0
}

/// Merges a graph answer and a search by document id: the graph side first,
/// the rows of the search after it up to the limit. An answer in words takes
/// the place of one document.
pub fn hybrid_documents(
    data: Option<&Json>,
    parents: &Vec<Record>,
    all: &Vec<Record>,
    found: &Vec<Record>,
    limit: usize,
    answered: bool,
) -> (r: Vec<Record>)
    ensures
        store::records(r@) == hybrid_of(
            store::opt_json(data),
            store::records(parents@),
            store::records(all@),
            store::records(found@),
            limit as nat,
            answered,
        ),
{
    let mut out: Vec<Record> = graph_rows(data, parents, all, limit);
    let ghost start = store::records(out@);
    let ghost fs = store::records(found@);
    let room: usize = if answered && limit > 0 {
        limit - 1
    } else {
        limit
    };
    let mut i: usize = 0;
    while i < found.len()
        invariant
            fs == store::records(found@),
            i <= found@.len(),
            store::records(out@) == merged_found(start, fs, room as nat, i as nat),
        decreases found@.len() - i,
    {
        assert(fs[i as int] == found@[i as int]@);
        assert(store::records(out@).len() == out@.len());
        if out.len() < room {
            merge_one(&mut out, &found[i]);
        }
        i = i + 1;
    }
    out
}

/// Whether no two rows have the same id.
pub open spec fn ids_differ(docs: Seq<RecordV>) -> bool {
    forall|i: int, j: int|
        0 <= i < j < docs.len() ==> (#[trigger] docs[i]).id != (#[trigger] docs[j]).id
}

proof fn lemma_named_differ(ids: Seq<Seq<char>>, parents: Seq<RecordV>, n: nat)
    ensures
        ids_differ(merged_named(ids, parents, n)),
    decreases n,
{
    if n > 0 && n <= ids.len() {
        lemma_named_differ(ids, parents, (n - 1) as nat);
    }
}

proof fn lemma_content_differ(
    all: Seq<RecordV>,
    contents: Seq<Seq<char>>,
    limit: nat,
    n: nat,
)
    ensures
        ids_differ(merged_content(all, contents, limit, n)),
    decreases n,
{
    if n > 0 && n <= all.len() {
        lemma_content_differ(all, contents, limit, (n - 1) as nat);
    }
}

proof fn lemma_found_differ(docs: Seq<RecordV>, found: Seq<RecordV>, room: nat, n: nat)
    requires
        ids_differ(docs),
    ensures
        ids_differ(merged_found(docs, found, room, n)),
        docs.is_prefix_of(merged_found(docs, found, room, n)),
    decreases n,
{
    if n > 0 && n <= found.len() {
        lemma_found_differ(docs, found, room, (n - 1) as nat);
        let before = merged_found(docs, found, room, (n - 1) as nat);
        let now = merged_found(docs, found, room, n);
        assert(now.subrange(0, docs.len() as int) =~= before.subrange(0, docs.len() as int));
    } else {
        assert(docs.subrange(0, docs.len() as int) =~= docs);
    }
}

/// A merge gives each document once, and the graph side stands first.
pub proof fn law_hybrid_gives_each_document_once(
    data: Option<JsonV>,
    parents: Seq<RecordV>,
    all: Seq<RecordV>,
    found: Seq<RecordV>,
    limit: nat,
    answered: bool,
)
    ensures
        ids_differ(hybrid_of(data, parents, all, found, limit, answered)),
        graph_side(data, parents, all, limit).is_prefix_of(
            hybrid_of(data, parents, all, found, limit, answered),
        ),
{
    match data {
        Some(d) => {
            lemma_named_differ(doc_ids(d), parents, doc_ids(d).len());
            lemma_content_differ(all, contents_of(d), limit, all.len());
        },
        None => {},
    }
    lemma_found_differ(
        graph_side(data, parents, all, limit),
        found,
        room_for(limit, answered),
        found.len(),
    );
}

/// Where the graph fails, a merge is the search alone: its rows, each once, up
/// to the limit.
pub proof fn law_failed_graph_degrades_to_search(
    parents: Seq<RecordV>,
    all: Seq<RecordV>,
    found: Seq<RecordV>,
    limit: nat,
)
    requires
        ids_differ(found),
    ensures
        hybrid_of(None, parents, all, found, limit, false) == (if found.len() > limit {
            found.take(limit as int)
        } else {
            found
        }),
{
    lemma_search_alone(found, limit, found.len());
    assert(found.take(found.len() as int) =~= found);
}

proof fn lemma_search_alone(found: Seq<RecordV>, limit: nat, n: nat)
    requires
        ids_differ(found),
        n <= found.len(),
    ensures
        merged_found(Seq::empty(), found, limit, n) == (if n > limit {
            found.take(limit as int)
        } else {
            found.take(n as int)
        }),
    decreases n,
{
    if n > 0 {
        lemma_search_alone(found, limit, (n - 1) as nat);
        let before = merged_found(Seq::empty(), found, limit, (n - 1) as nat);
        if n <= limit {
            assert(before =~= found.take(n - 1));
            assert(!query::has_id(before, found[n - 1].id));
            assert(found.take(n as int) =~= before.push(found[n - 1]));
        }
    } else {
        assert(found.take(0) =~= Seq::empty());
    }
}

// ---------------------------------------------------------------------------
// Answers
// ---------------------------------------------------------------------------

/// The answer to a graph query that fell back to a search.
pub fn degraded_json(docs: &Vec<Record>) -> (r: Json)
    ensures
        r@ == JsonV::Obj(
            seq![
                ("degraded"@, JsonV::Bool(true)),
                ("answer"@, JsonV::Null),
                ("graph"@, JsonV::Null),
                ("documents"@, mcp::documents_value(store::records(docs@))),
            ],
        ),
{
    mcp::object4(
        "degraded",
        Json::Bool(true),
        "answer",
        Json::Null,
        "graph",
        Json::Null,
        "documents",
        mcp::documents_json(docs),
    )
}

/// The answer to a graph query for data.
pub fn graph_json(data: Json, docs: &Vec<Record>) -> (r: Json)
    ensures
        r@ == JsonV::Obj(
            seq![
                ("degraded"@, JsonV::Bool(false)),
                ("graph"@, data@),
                ("documents"@, mcp::documents_value(store::records(docs@))),
            ],
        ),
{
    mcp::object3(
        "degraded",
        Json::Bool(false),
        "graph",
        data,
        "documents",
        mcp::documents_json(docs),
    )
}

/// The answer in words to a graph query over REST.
pub fn answer_json(content: &str) -> (r: Json)
    ensures
        r@ == JsonV::Obj(
            seq![("degraded"@, JsonV::Bool(false)), ("answer"@, JsonV::Str(content@))],
        ),
{
    mcp::object2("degraded", Json::Bool(false), "answer", Json::string(content))
}

/// A JSON value as the indented text of a tool's answer.
pub fn pretty_reply(j: &Json) -> (r: Json)
    ensures
        r@ == mcp::text_value(json::pretty_text(j@)),
{
    let t: String = j.pretty();
    mcp::text_reply(t.as_str())
}

/// The entries of a merge as they are given to clients: an answer in words
/// first, where there is one to show, then the documents.
pub open spec fn merge_entries(answer: Option<JsonV>, docs: Seq<RecordV>) -> JsonV {
    match answer {
        Some(a) => JsonV::Arr(
            seq![JsonV::Obj(seq![("answer"@, a)])] + mcp::documents_value(docs)->Arr_0,
        ),
        None => mcp::documents_value(docs),
    }
}

fn merge_json(answer: Option<&Json>, docs: &Vec<Record>) -> (r: Json)
    ensures
        r@ == merge_entries(store::opt_json(answer), store::records(docs@)),
{
    match answer {
        None => mcp::documents_json(docs),
        Some(a) => {
            let ghost want = mcp::documents_value(store::records(docs@))->Arr_0;
            let first: Json = mcp::object1("answer", a.copy());
            let ghost head = seq![first@];
            let mut out: Vec<Json> = Vec::new();
            out.push(first);
            let mut i: usize = 0;
            assert(json::items(out@) =~= head + want.take(0));
            while i < docs.len()
                invariant
                    want == mcp::documents_value(store::records(docs@))->Arr_0,
                    i <= docs@.len(),
                    json::items(out@) == head + want.take(i as int),
                decreases docs@.len() - i,
            {
                let ghost was = json::items(out@);
                let j: Json = query::record_json(&docs[i]);
                assert(want[i as int] == j@);
                out.push(j);
                assert(json::items(out@) =~= was.push(j@));
                i = i + 1;
                assert(want.take(i as int) =~= want.take(i - 1).push(want[i - 1]));
                assert(json::items(out@) =~= head + want.take(i as int));
            }
            assert(want.take(i as int) =~= want);
            proof {
                json::lemma_arr_view(out);
            }
            Json::Arr(out)
        },
    }
}

/// The answer in words as a JSON value; null where there is none.
pub open spec fn answer_value(o: Outcome) -> JsonV {
    match o {
        Outcome::Answer(a) => JsonV::Str(a@),
        _ => JsonV::Null,
    }
}

fn answer_of(o: &Outcome) -> (r: Json)
    ensures
        r@ == answer_value(*o),
{
    match o {
        Outcome::Answer(a) => Json::Str(a.clone()),
        _ => Json::Null,
    }
}

/// What the tool interface says to a merged query.
pub open spec fn tool_merge_value(o: Outcome, docs: Seq<RecordV>) -> JsonV {
    let answer = if o is Answer {
        Some(answer_value(o))
    } else {
        None
    };
    JsonV::Obj(
        seq![
            ("degraded"@, JsonV::Bool(o is Failed)),
            ("answer"@, answer_value(o)),
            ("documents"@, merge_entries(answer, docs)),
        ],
    )
}

/// The answer to a merged query through the tool interface.
pub fn hybrid_json(o: &Outcome, docs: &Vec<Record>) -> (r: Json)
    ensures
        r@ == tool_merge_value(*o, store::records(docs@)),
{
    let degraded: bool = match o {
        Outcome::Failed => true,
        _ => false,
    };
    let answer: Json = answer_of(o);
    let shown: Option<&Json> = match o {
        Outcome::Answer(_) => Some(&answer),
        _ => None,
    };
    let entries: Json = merge_json(shown, docs);
    let copy: Json = answer.copy();
    mcp::object3("degraded", Json::Bool(degraded), "answer", copy, "documents", entries)
}

/// The structured data as a JSON value; null where there is none.
pub open spec fn data_value(o: Outcome) -> JsonV {
    match o {
        Outcome::Data(d) => d@,
        _ => JsonV::Null,
    }
}

/// What REST says to a merged query.
pub open spec fn rest_merge_value(o: Outcome, want_answer: bool, docs: Seq<RecordV>) -> JsonV {
    let answer = if want_answer {
        Some(answer_value(o))
    } else {
        None
    };
    JsonV::Obj(
        seq![
            ("degraded"@, JsonV::Bool(o is Failed)),
            ("answer"@, answer_value(o)),
            ("graph"@, data_value(o)),
            ("documents"@, merge_entries(answer, docs)),
        ],
    )
}

/// The answer to a merged query over REST: the same with the structured data,
/// and with an entry for the answer whenever one was wanted.
pub fn hybrid_rest_json(o: &Outcome, want_answer: bool, docs: &Vec<Record>) -> (r: Json)
    ensures
        r@ == rest_merge_value(*o, want_answer, store::records(docs@)),
{
    let degraded: bool = match o {
        Outcome::Failed => true,
        _ => false,
    };
    let answer: Json = answer_of(o);
    let shown: Option<&Json> = if want_answer {
        Some(&answer)
    } else {
        None
    };
    let entries: Json = merge_json(shown, docs);
    let copy: Json = answer.copy();
    let data: Json = match o {
        Outcome::Data(d) => d.copy(),
        _ => Json::Null,
    };
    mcp::object4(
        "degraded",
        Json::Bool(degraded),
        "answer",
        copy,
        "graph",
        data,
        "documents",
        entries,
    )
}

} // verus!
