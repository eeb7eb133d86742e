//! What holds of everything that is answered: rows as clients see them, merged
//! answers, rankings, and what services are asked.

use crate::asking::{AskActionV, AskStage, Asking, Caller, Merging};
use crate::embedding;
use crate::hybrid;
use crate::hybrid::Outcome;
use crate::hybrid_laws;
use crate::hybrid_laws::listed;
use crate::http::Reply;
use crate::json;
use crate::json::JsonV;
use crate::mcp;
use crate::plugins::graph;
use crate::plugins::graph::GraphQueryParams;
use crate::query;
use crate::reranker;
use crate::search;
use crate::search::{Finish, NeedV, Search, Stage};
use crate::store;
use crate::store::RecordV;
use crate::text;
use vstd::prelude::*;

verus! {

broadcast use vstd::string::group_string_axioms;

// ---------------------------------------------------------------------------
// Rows as clients see them
// ---------------------------------------------------------------------------

pub proof fn lemma_lookup_at(e: Seq<(Seq<char>, JsonV)>, i: int)
    requires
        0 <= i < e.len(),
        forall|j: int| 0 <= j < i ==> (#[trigger] e[j]).0 != e[i].0,
    ensures
        json::lookup(e, e[i].0) == Some(e[i].1),
    decreases i,
{
    if i > 0 {
        let rest = e.drop_first();
        assert(rest[i - 1] == e[i]);
        assert forall|j: int| 0 <= j < i - 1 implies (#[trigger] rest[j]).0 != rest[i - 1].0 by {
            assert(rest[j] == e[j + 1]);
        }
        lemma_lookup_at(rest, i - 1);
        assert(e[0].0 != e[i].0);
    }
}

proof fn lemma_row_keys()
    ensures
        "id"@.len() == 2,
        "raw_text"@.len() == 8,
        "truncated"@.len() == 9,
        "parent_doc_id"@.len() == 13,
        "chunk_level"@.len() == 11,
        "chunk_index"@.len() == 11,
        "source_path"@.len() == 11,
        "source_type"@.len() == 11,
        "raw_text_preview"@.len() == 16,
        "chunk_level"@ != "chunk_index"@,
        "source_path"@ != "source_type"@,
        "chunk_level"@ != "source_path"@,
        "chunk_level"@ != "source_type"@,
        "chunk_index"@ != "source_path"@,
        "chunk_index"@ != "source_type"@,
{
    reveal_strlit("id");
    reveal_strlit("raw_text");
    reveal_strlit("truncated");
    reveal_strlit("parent_doc_id");
    reveal_strlit("chunk_level");
    reveal_strlit("chunk_index");
    reveal_strlit("source_path");
    reveal_strlit("source_type");
    reveal_strlit("raw_text_preview");
    assert("chunk_level"@[6] == 'l');
    assert("chunk_index"@[6] == 'i');
    assert("chunk_level"@[0] == 'c');
    assert("chunk_index"@[0] == 'c');
    assert("source_path"@[0] == 's');
    assert("source_type"@[0] == 's');
    assert("source_path"@[7] == 'p');
    assert("source_type"@[7] == 't');
}

/// Whether a field of the user is named like one that every row has.
pub open spec fn reserved_key(k: Seq<char>) -> bool {
    ||| k == "id"@
    ||| k == "raw_text"@
    ||| k == "truncated"@
    ||| k == "chunk_level"@
    ||| k == "chunk_index"@
    ||| k == "parent_doc_id"@
    ||| k == "source_path"@
    ||| k == "source_type"@
    ||| k == "raw_text_preview"@
}

/// Whether a row has values under names of their own.
pub open spec fn plain_row(d: RecordV) -> bool {
    &&& forall|i: int| 0 <= i < d.extra.len() ==> !reserved_key((#[trigger] d.extra[i]).0)
    &&& forall|i: int, j: int|
        0 <= i < j < d.extra.len() ==> (#[trigger] d.extra[i]).0 != (#[trigger] d.extra[j]).0
}

proof fn lemma_extra_shown(
    e: Seq<(Seq<char>, JsonV)>,
    more: Seq<(Seq<char>, JsonV)>,
    n: nat,
    i: int,
)
    requires
        0 <= i < n <= more.len(),
        forall|i: int, j: int|
            0 <= i < j < more.len() ==> (#[trigger] more[i]).0 != (#[trigger] more[j]).0,
    ensures
        json::lookup(query::with_entries(e, more, n), more[i].0) == Some(more[i].1),
    decreases n,
{
    let before = query::with_entries(e, more, (n - 1) as nat);
    json::law_with_entry_reads_back(before, more[n - 1].0, more[n - 1].1, more[i].0);
    if i < n - 1 {
        lemma_extra_shown(e, more, (n - 1) as nat, i);
        assert(more[i].0 != more[n - 1].0);
    }
}

/// Whether an object shows a row: its id, its place, its path and type, and each
/// of its own values under its name.
pub open spec fn shows_row(j: JsonV, d: RecordV) -> bool {
    &&& json::text_field(j, "id"@) == Some(d.id)
    &&& json::field(j, "chunk_level"@) matches Some(JsonV::Num(json::NumberV::Int(l))) && l
        == d.chunk_level
    &&& json::field(j, "chunk_index"@) matches Some(JsonV::Num(json::NumberV::Int(i))) && i
        == d.chunk_index
    &&& json::text_field(j, "parent_doc_id"@) == d.parent_doc_id
    &&& json::text_field(j, "source_path"@) == Some(d.source_path)
    &&& json::text_field(j, "source_type"@) == Some(d.source_type)
    &&& forall|i: int|
        0 <= i < d.extra.len() ==> json::field(j, (#[trigger] d.extra[i]).0) == Some(d.extra[i].1)
}

/// A row is shown to clients as it is: a search result with its text cut, and a
/// document that is asked for by its id with its whole text.
pub proof fn law_rows_are_shown_as_they_are(d: RecordV)
    requires
        plain_row(d),
    ensures
        shows_row(query::record_value(d), d),
        shows_row(mcp::whole_record(d), d),
        shows_row(mcp::listed_value(d), d),
        json::text_field(mcp::whole_record(d), "raw_text"@) == Some(d.raw_text),
        json::field(query::record_value(d), "truncated"@) == Some(
            JsonV::Bool(d.raw_text.len() > query::MAX_RAW_TEXT_CHARS),
        ),
        json::text_field(mcp::listed_value(d), "raw_text_preview"@) is Some,
        json::text_field(mcp::listed_value(d), "raw_text_preview"@)->0.is_prefix_of(d.raw_text),
        json::text_field(mcp::listed_value(d), "raw_text_preview"@)->0.len() == (if d.raw_text.len()
            < 200 {
            d.raw_text.len()
        } else {
            200
        }),
{
    lemma_row_keys();
    let f = query::fixed_entries(d);
    let g = seq![
        ("id"@, JsonV::Str(d.id)),
        ("raw_text"@, JsonV::Str(d.raw_text)),
        ("chunk_level"@, JsonV::Num(json::NumberV::Int(d.chunk_level as int))),
        ("chunk_index"@, JsonV::Num(json::NumberV::Int(d.chunk_index as int))),
        ("parent_doc_id"@, query::text_or_null(d.parent_doc_id)),
        ("source_path"@, JsonV::Str(d.source_path)),
        ("source_type"@, JsonV::Str(d.source_type)),
    ];
    let n = d.extra.len();
    lemma_lookup_at(f, 0);
    lemma_lookup_at(f, 2);
    lemma_lookup_at(f, 3);
    lemma_lookup_at(f, 4);
    lemma_lookup_at(f, 5);
    lemma_lookup_at(f, 6);
    lemma_lookup_at(f, 7);
    lemma_lookup_at(g, 0);
    lemma_lookup_at(g, 1);
    lemma_lookup_at(g, 2);
    lemma_lookup_at(g, 3);
    lemma_lookup_at(g, 4);
    lemma_lookup_at(g, 5);
    lemma_lookup_at(g, 6);
    assert forall|k: Seq<char>| #[trigger] reserved_key(k) implies json::lookup(
        query::with_entries(f, d.extra, n),
        k,
    ) == json::lookup(f, k) && json::lookup(query::with_entries(g, d.extra, n), k) == json::lookup(
        g,
        k,
    ) by {
        query::lemma_other_entries(f, d.extra, n, k);
        query::lemma_other_entries(g, d.extra, n, k);
    }
    assert(reserved_key("id"@));
    assert(reserved_key("raw_text"@));
    assert(reserved_key("truncated"@));
    assert(reserved_key("chunk_level"@));
    assert(reserved_key("chunk_index"@));
    assert(reserved_key("parent_doc_id"@));
    assert(reserved_key("source_path"@));
    assert(reserved_key("source_type"@));
    let start = if d.raw_text.len() > 200 {
        d.raw_text.take(200)
    } else {
        d.raw_text
    };
    let all = query::with_entries(f, d.extra, n);
    assert forall|k: Seq<char>| k != "raw_text_preview"@ implies #[trigger] json::field(
        mcp::listed_value(d),
        k,
    ) == json::lookup(all, k) by {
        json::law_with_entry_reads_back(all, "raw_text_preview"@, JsonV::Str(start), k);
    }
    json::law_with_entry_reads_back(all, "raw_text_preview"@, JsonV::Str(start), "id"@);
    assert forall|i: int| 0 <= i < n implies json::lookup(all, (#[trigger] d.extra[i]).0) == Some(
        d.extra[i].1,
    ) && json::lookup(query::with_entries(g, d.extra, n), d.extra[i].0) == Some(d.extra[i].1)
        && json::field(mcp::listed_value(d), d.extra[i].0) == Some(d.extra[i].1) by {
        lemma_extra_shown(f, d.extra, n, i);
        lemma_extra_shown(g, d.extra, n, i);
        assert(!reserved_key(d.extra[i].0));
    }
    assert(start.is_prefix_of(d.raw_text)) by {
        assert(d.raw_text.subrange(0, start.len() as int) =~= start);
    }
    let l = mcp::listed_value(d);
    assert(json::field(l, "id"@) == json::lookup(all, "id"@));
    assert(json::field(l, "chunk_level"@) == json::lookup(all, "chunk_level"@));
    assert(json::field(l, "chunk_index"@) == json::lookup(all, "chunk_index"@));
    assert(json::field(l, "parent_doc_id"@) == json::lookup(all, "parent_doc_id"@));
    assert(json::field(l, "source_path"@) == json::lookup(all, "source_path"@));
    assert(json::field(l, "source_type"@) == json::lookup(all, "source_type"@));
}

/// A long text is shown by its beginning and three dots; a short one as it is.
pub proof fn law_long_texts_are_shown_by_their_beginning(s: Seq<char>, max: nat)
    ensures
        s.len() <= max ==> query::shortened(s, max) == s,
        s.len() > max ==> {
            let t = query::shortened(s, max);
            &&& t.len() == max + 3
            &&& t.take(max as int) == s.take(max as int)
            &&& t[max as int] == '.' && t[max as int + 1] == '.' && t[max as int + 2] == '.'
        },
{
    reveal_strlit("...");
    assert("..."@.len() == 3 && "..."@[0] == '.' && "..."@[1] == '.' && "..."@[2] == '.');
    if s.len() > max {
        assert(query::shortened(s, max).take(max as int) =~= s.take(max as int));
    }
}

/// Search results show at least the first 2000 characters of a text, and all of
/// a text that is no longer.
pub proof fn law_results_show_the_beginning(d: RecordV)
    requires
        plain_row(d),
    ensures
        ({
            let t = json::text_field(query::record_value(d), "raw_text"@);
            &&& t is Some
            &&& d.raw_text.len() <= 2000 ==> t->0 == d.raw_text
            &&& d.raw_text.len() > 2000 ==> t->0.take(2000) == d.raw_text.take(2000)
                && t->0.len() == 2000 + 3
        }),
{
    lemma_row_keys();
    assert forall|i: int| 0 <= i < d.extra.len() implies (#[trigger] d.extra[i]).0
        != "raw_text"@ by {
        assert(!reserved_key(d.extra[i].0));
    }
    query::law_row_texts_are_cut(d);
    law_long_texts_are_shown_by_their_beginning(d.raw_text, 2000);
}

/// A reply carries its text, and only an error is marked as one.
pub proof fn law_replies_carry_their_text(t: Seq<char>)
    ensures
        reply_text(mcp::text_value(t)) == Some(t),
        reply_text(mcp::error_value(t)) == Some(t),
        json::field(mcp::text_value(t), "isError"@) is None,
        json::field(mcp::error_value(t), "isError"@) == Some(JsonV::Bool(true)),
{
    reveal_strlit("content");
    reveal_strlit("isError");
    reveal_strlit("type");
    reveal_strlit("text");
    assert("content"@[0] == 'c' && "isError"@[0] == 'i');
    assert("type"@[1] == 'y' && "text"@[1] == 'e');
    let a = mcp::text_value(t)->Obj_0;
    let b = mcp::error_value(t)->Obj_0;
    lemma_lookup_at(a, 0);
    lemma_lookup_at(b, 0);
    lemma_lookup_at(b, 1);
    reveal_with_fuel(json::lookup, 3);
    assert(a.drop_first() =~= Seq::empty());
    let c = mcp::content_value(t)->Arr_0[0]->Obj_0;
    lemma_lookup_at(c, 1);
}

/// The text of a reply.
pub open spec fn reply_text(j: JsonV) -> Option<Seq<char>> {
    match json::field(j, "content"@) {
        Some(JsonV::Arr(s)) => if s.len() == 1 {
            json::text_field(s[0], "text"@)
        } else {
            None
        },
        _ => None,
    }
}

/// What is said of an added or a deleted document names it, and says what went
/// wrong in the graph.
pub proof fn law_changes_are_told(
    id: Seq<char>,
    chunks: nat,
    old: Option<Seq<char>>,
    error: Option<Seq<char>>,
)
    ensures
        text::occurs(mcp::added_text(id, chunks, old, error), id),
        text::occurs(mcp::added_text(id, chunks, old, error), text::decimal(chunks)),
        old matches Some(o) ==> text::occurs(mcp::added_text(id, chunks, old, error), o),
        error matches Some(e) ==> text::occurs(mcp::added_text(id, chunks, old, error), e),
        text::occurs(mcp::removed_text(id, error), id),
        error matches Some(e) ==> text::occurs(mcp::removed_text(id, error), e),
{
    let a = "文档已写入，id: "@;
    let b = "（chunks: "@;
    let c = "）"@;
    let n = text::decimal(chunks);
    let l = "（已按 replace_key 替换旧版本 "@;
    let k = "（注意：图谱镜像失败，LanceDB 已写入: "@;
    let o = match old {
        Some(x) => l + x + c,
        None => Seq::<char>::empty(),
    };
    let g = match error {
        Some(e) => k + e + c,
        None => Seq::<char>::empty(),
    };
    lemma_ends(a, id);
    lemma_goes_on(a + id, b, id);
    lemma_goes_on(a + id + b, n, id);
    lemma_goes_on(a + id + b + n, c, id);
    lemma_goes_on(a + id + b + n + c, o, id);
    lemma_goes_on(a + id + b + n + c + o, g, id);
    lemma_ends(a + id + b, n);
    lemma_goes_on(a + id + b + n, c, n);
    lemma_goes_on(a + id + b + n + c, o, n);
    lemma_goes_on(a + id + b + n + c + o, g, n);
    match old {
        Some(x) => {
            lemma_ends(l, x);
            lemma_goes_on(l + x, c, x);
            lemma_comes_after(a + id + b + n + c, o, x);
            lemma_goes_on(a + id + b + n + c + o, g, x);
        },
        None => {},
    }
    let h = "文档 "@;
    let m = " 已删除（chunks 级联清理）"@;
    lemma_ends(h, id);
    lemma_goes_on(h + id, m, id);
    let r = mcp::removed_text(id, error);
    lemma_goes_on(h + id + m, removed_note(error), id);
    match error {
        Some(e) => {
            lemma_ends(k, e);
            lemma_goes_on(k + e, c, e);
            lemma_comes_after(a + id + b + n + c + o, g, e);
            let w =
                "（注意：图谱侧删除失败（pipeline busy 等），lightrag 可能仍有残留；                     稍后重试同一命令即可补删: "@;
            lemma_ends(w, e);
            lemma_goes_on(w + e, c, e);
            lemma_comes_after(h + id + m, removed_note(error), e);
        },
        None => {},
    }
}

spec fn removed_note(error: Option<Seq<char>>) -> Seq<char> {
    match error {
        Some(e) =>
            "（注意：图谱侧删除失败（pipeline busy 等），lightrag 可能仍有残留；                     稍后重试同一命令即可补删: "@
            + e + "）"@,
        None => Seq::empty(),
    }
}

pub proof fn lemma_ends(a: Seq<char>, s: Seq<char>)
    ensures
        text::occurs(a + s, s),
{
    let t = a + s;
    assert(t.subrange(a.len() as int, a.len() as int + s.len() as int) =~= s);
    assert(text::occurs_at(t, s, a.len() as int));
}

pub proof fn lemma_goes_on(s: Seq<char>, b: Seq<char>, x: Seq<char>)
    requires
        text::occurs(s, x),
    ensures
        text::occurs(s + b, x),
{
    let i = choose|i: int| text::occurs_at(s, x, i);
    assert((s + b).subrange(i, i + x.len()) =~= s.subrange(i, i + x.len()));
    assert(text::occurs_at(s + b, x, i));
}

proof fn lemma_comes_after(a: Seq<char>, s: Seq<char>, x: Seq<char>)
    requires
        text::occurs(s, x),
    ensures
        text::occurs(a + s, x),
{
    let i = choose|i: int| text::occurs_at(s, x, i);
    let k = a.len() as int + i;
    assert((a + s).subrange(k, k + x.len()) =~= s.subrange(i, i + x.len()));
    assert(text::occurs_at(a + s, x, k));
}

/// A list of rows shows each of them, in their order.
pub proof fn law_lists_show_all_rows(docs: Seq<RecordV>)
    requires
        forall|i: int| 0 <= i < docs.len() ==> plain_row(#[trigger] docs[i]),
    ensures
        mcp::documents_value(docs) is Arr,
        mcp::documents_value(docs)->Arr_0.len() == docs.len(),
        forall|i: int|
            0 <= i < docs.len() ==> shows_row(
                #[trigger] mcp::documents_value(docs)->Arr_0[i],
                docs[i],
            ),
{
    assert forall|i: int| 0 <= i < docs.len() implies shows_row(
        #[trigger] mcp::documents_value(docs)->Arr_0[i],
        docs[i],
    ) by {
        law_rows_are_shown_as_they_are(docs[i]);
    }
}

// ---------------------------------------------------------------------------
// Merged answers
// ---------------------------------------------------------------------------

proof fn lemma_answer_keys()
    ensures
        "degraded"@.len() == 8,
        "answer"@.len() == 6,
        "graph"@.len() == 5,
        "documents"@.len() == 9,
{
    reveal_strlit("degraded");
    reveal_strlit("answer");
    reveal_strlit("graph");
    reveal_strlit("documents");
}

/// Whether the documents of an answer are the given ones, after an entry for the
/// answer in words where there is one to show.
pub open spec fn lists_documents(j: JsonV, docs: Seq<RecordV>, worded: bool) -> bool {
    let skip: int = if worded {
        1
    } else {
        0
    };
    match json::field(j, "documents"@) {
        Some(JsonV::Arr(s)) => s.len() == docs.len() + skip && forall|i: int|
            0 <= i < docs.len() ==> s[i + skip] == query::record_value(#[trigger] docs[i]),
        _ => false,
    }
}

/// A merged answer says whether the graph failed, what it said in words or in
/// data, and lists the documents, all of them and in their order.
pub proof fn law_merged_answers_say_all(o: Outcome, want: bool, docs: Seq<RecordV>)
    ensures
        ({
            let t = hybrid::tool_merge_value(o, docs);
            let r = hybrid::rest_merge_value(o, want, docs);
            &&& json::field(t, "degraded"@) == Some(JsonV::Bool(o is Failed))
            &&& json::field(r, "degraded"@) == Some(JsonV::Bool(o is Failed))
            &&& o matches Outcome::Answer(a) ==> json::text_field(t, "answer"@) == Some(a@)
                && json::text_field(r, "answer"@) == Some(a@)
            &&& !(o is Answer) ==> json::field(t, "answer"@) == Some(JsonV::Null)
            &&& o matches Outcome::Data(d) ==> json::field(r, "graph"@) == Some(d@)
            &&& lists_documents(t, docs, o is Answer)
            &&& lists_documents(r, docs, want)
        }),
{
    lemma_answer_keys();
    let t = hybrid::tool_merge_value(o, docs);
    let r = hybrid::rest_merge_value(o, want, docs);
    let te = t->Obj_0;
    let re = r->Obj_0;
    lemma_lookup_at(te, 0);
    lemma_lookup_at(te, 1);
    lemma_lookup_at(te, 2);
    lemma_lookup_at(re, 0);
    lemma_lookup_at(re, 1);
    lemma_lookup_at(re, 2);
    lemma_lookup_at(re, 3);
    let v = mcp::documents_value(docs)->Arr_0;
    assert forall|i: int| 0 <= i < docs.len() implies v[i] == query::record_value(
        #[trigger] docs[i],
    ) by {}
}

/// An answer of the graph in data shows the data and the documents that belong to
/// it; one that fell back to a search says so and shows what was found.
pub proof fn law_graph_answers_say_all(data: JsonV, docs: Seq<RecordV>, words: Seq<char>)
    ensures
        ({
            let g = crate::asking::graph_value(data, docs);
            let d = crate::asking::degraded_value(docs);
            let w = crate::asking::words_value(Caller::Rest, words);
            &&& json::field(g, "degraded"@) == Some(JsonV::Bool(false))
            &&& json::field(g, "graph"@) == Some(data)
            &&& lists_documents(g, docs, false)
            &&& json::field(d, "degraded"@) == Some(JsonV::Bool(true))
            &&& lists_documents(d, docs, false)
            &&& json::field(w, "degraded"@) == Some(JsonV::Bool(false))
            &&& json::text_field(w, "answer"@) == Some(words)
            &&& reply_text(crate::asking::words_value(Caller::Tool, words)) == Some(words)
        }),
{
    lemma_answer_keys();
    let g = crate::asking::graph_value(data, docs);
    let d = crate::asking::degraded_value(docs);
    let w = crate::asking::words_value(Caller::Rest, words);
    lemma_lookup_at(g->Obj_0, 0);
    lemma_lookup_at(g->Obj_0, 1);
    lemma_lookup_at(g->Obj_0, 2);
    lemma_lookup_at(d->Obj_0, 0);
    lemma_lookup_at(d->Obj_0, 3);
    lemma_lookup_at(w->Obj_0, 0);
    lemma_lookup_at(w->Obj_0, 1);
    law_replies_carry_their_text(words);
    let v = mcp::documents_value(docs)->Arr_0;
    assert forall|i: int| 0 <= i < docs.len() implies v[i] == query::record_value(
        #[trigger] docs[i],
    ) by {}
}

/// A question to the graph that fails becomes a search, for a tool under the
/// filter of the question. The documents that are fetched are those that the
/// answer names.
pub proof fn law_questions_ask_for_what_they_need(a: Asking)
    ensures
        a.stage == AskStage::Asking <==> a.action() is Ask,
        a.stage == AskStage::Searching && a.caller == Caller::Tool ==> (match a.ask.filter {
            Some(f) => a.action() == AskActionV::Search(Some(f.sql@)),
            None => a.action() == AskActionV::Search(None),
        }),
        a.stage == AskStage::Mapping ==> (a.action() matches AskActionV::Parents(ids) && forall|
            j: int,
            id: Seq<char>,
        |
            0 <= j < hybrid::chunks_of(a.data@).len() && hybrid_laws::names(
                #[trigger] hybrid::chunks_of(a.data@)[j],
                id,
            ) ==> #[trigger] ids.contains(id)),
        a.stage == AskStage::Scanning <==> a.action() is All,
        a.stage == AskStage::Done <==> a.action() is Stop,
{
    hybrid_laws::law_named_ids_follow_the_chunks(a.data@);
}

/// A finished question to the graph shows only documents that pass its filter,
/// and no more than were asked for.
pub proof fn law_graph_answers_pass_the_filter(a: Asking, all: Seq<RecordV>)
    requires
        a.answers_with(all),
        a.caller == Caller::Rest,
    ensures
        exists|docs: Seq<RecordV>| #[trigger]
            lists_documents(a.reply->Ok_0@, docs, false) && docs.len() <= a.ask.limit && (
            a.ask.filter matches Some(f) ==> forall|i: int|
                0 <= i < docs.len() ==> query::matches_row(f.pred@, #[trigger] docs[i])),
{
    let docs = a.documents(all);
    law_graph_answers_say_all(a.data@, docs, Seq::empty());
    hybrid::law_graph_documents_respect_limit_and_filter(
        a.data@,
        store::records(a.parents@),
        all,
        crate::asking::filter_of(a.ask),
        a.ask.limit as nat,
    );
    assert(lists_documents(a.reply->Ok_0@, docs, false));
    if a.ask.filter is Some {
        assert forall|i: int| 0 <= i < docs.len() implies query::matches_row(
            a.ask.filter->0.pred@,
            #[trigger] docs[i],
        ) by {
            assert(hybrid::passes(crate::asking::filter_of(a.ask), docs[i]));
        }
    }
}

/// A finished question to the graph leaves out no document that its answer names,
/// that is stored and that passes the filter, unless the limit is reached.
pub proof fn law_graph_answers_are_complete(a: Asking, all: Seq<RecordV>, i: int)
    requires
        a.answers_with(all),
        a.caller == Caller::Rest,
        0 <= i < hybrid::doc_ids(a.data@).len(),
        hybrid_laws::passing(
            store::records(a.parents@),
            match a.ask.filter {
                Some(f) => Some(f.pred@),
                None => None,
            },
            hybrid::doc_ids(a.data@)[i],
        ),
    ensures
        exists|docs: Seq<RecordV>| #[trigger]
            lists_documents(a.reply->Ok_0@, docs, false) && (listed(
                docs,
                hybrid::doc_ids(a.data@)[i],
            ) || docs.len() == a.ask.limit),
{
    let docs = a.documents(all);
    let ids = hybrid::doc_ids(a.data@);
    law_graph_answers_say_all(a.data@, docs, Seq::empty());
    let at = hybrid_laws::law_graph_documents_are_those_named(
        a.data@,
        store::records(a.parents@),
        all,
        crate::asking::filter_of(a.ask),
        a.ask.limit as nat,
    );
    assert(lists_documents(a.reply->Ok_0@, docs, false));
    if at.contains(i) {
        let k = at.index_of(i);
        assert(at[k] == i);
        assert(docs[k].id == ids[i]);
    }
}

/// A merge of the graph and a search shows every row of the search, or has no
/// room for it: the limit, less one where an answer in words takes a place.
pub proof fn law_merges_show_the_search(m: Merging, all: Seq<RecordV>, i: int)
    requires
        m.shows(all),
        0 <= i < m.found@.len(),
    ensures
        ({
            let docs = store::records(m.docs@);
            let worded = match m.caller {
                Caller::Tool => m.outcome is Answer,
                Caller::Rest => m.ask.want_answer,
            };
            let room = if worded && m.ask.limit > 0 {
                m.ask.limit - 1
            } else {
                m.ask.limit as int
            };
            &&& listed(docs, m.found@[i].id@) || docs.len() >= room
            &&& hybrid::ids_differ(docs)
            &&& !(m.outcome is Data) ==> docs.len() <= room
        }),
{
    let at = hybrid_laws::law_merge_leaves_out_only_repeats(
        crate::asking::data_of(m.outcome),
        store::records(m.parents@),
        all,
        store::records(m.found@),
        m.ask.limit as nat,
        m.answer_shown(),
    );
    hybrid::law_hybrid_gives_each_document_once(
        crate::asking::data_of(m.outcome),
        store::records(m.parents@),
        all,
        store::records(m.found@),
        m.ask.limit as nat,
        m.answer_shown(),
    );
    assert(store::records(m.found@)[i].id == m.found@[i].id@);
}

// ---------------------------------------------------------------------------
// Searching and ranking
// ---------------------------------------------------------------------------

/// The documents that a search fetches are those of its hits, all of them.
pub proof fn law_documents_of_all_hits_are_fetched(hits: Seq<RecordV>)
    ensures
        ({
            let ids = search::documents_of(hits, hits.len());
            &&& forall|i: int|
                0 <= i < hits.len() ==> ((#[trigger] hits[i]).parent_doc_id matches Some(p)
                    ==> ids.contains(p))
            &&& forall|k: int|
                0 <= k < ids.len() ==> exists|i: int|
                    0 <= i < hits.len() && (#[trigger] hits[i]).parent_doc_id == Some(
                        #[trigger] ids[k],
                    )
        }),
{
    lemma_documents_of(hits, hits.len());
}

proof fn lemma_documents_of(hits: Seq<RecordV>, n: nat)
    requires
        n <= hits.len(),
    ensures
        ({
            let ids = search::documents_of(hits, n);
            &&& forall|i: int|
                0 <= i < n ==> ((#[trigger] hits[i]).parent_doc_id matches Some(p) ==> ids.contains(
                    p,
                ))
            &&& forall|k: int|
                0 <= k < ids.len() ==> exists|i: int|
                    0 <= i < n && (#[trigger] hits[i]).parent_doc_id == Some(#[trigger] ids[k])
        }),
    decreases n,
{
    if n > 0 {
        lemma_documents_of(hits, (n - 1) as nat);
        let before = search::documents_of(hits, (n - 1) as nat);
        let ids = search::documents_of(hits, n);
        assert forall|i: int| 0 <= i < n implies ((#[trigger] hits[i]).parent_doc_id matches Some(p)
            ==> ids.contains(p)) by {
            match hits[i].parent_doc_id {
                Some(p) => {
                    if i < n - 1 {
                        let k = before.index_of(p);
                        assert(ids[k] == p);
                    } else {
                        assert(ids[before.len() as int] == p);
                    }
                },
                None => {},
            }
        }
        assert forall|k: int| 0 <= k < ids.len() implies exists|i: int|
            0 <= i < n && (#[trigger] hits[i]).parent_doc_id == Some(#[trigger] ids[k]) by {
            if k < before.len() {
                assert(ids[k] == before[k]);
                let i = choose|i: int|
                    0 <= i < n - 1 && (#[trigger] hits[i]).parent_doc_id == Some(before[k]);
                assert(hits[i].parent_doc_id == Some(ids[k]));
            } else {
                assert(hits[n - 1].parent_doc_id == Some(ids[k]));
            }
        }
    }
}

/// A search embeds its query, looks for as many rows as are wanted, and for at
/// least eighty where they are ranked afterwards; ranked are the texts of the
/// hits, in their order.
pub proof fn law_searches_ask_for_enough(s: Search)
    requires
        s.wf(),
    ensures
        s.stage == Stage::Embedding ==> s.need() == NeedV::Embed(s.query@),
        s.stage == Stage::Looking ==> (s.need() matches NeedV::Nearest { vector, limit } && vector
            == s.vector@ && limit >= s.limit && (s.finish is Rank ==> limit >= 80) && (
        s.finish is Expand ==> limit == s.limit)),
        s.stage == Stage::Ranking ==> (s.need() matches NeedV::Rank(ts) && ts.len()
            == s.hits().len() && forall|i: int|
            0 <= i < ts.len() ==> #[trigger] ts[i] == s.hits()[i].raw_text),
        s.stage == Stage::Gathering ==> (s.need() matches NeedV::Parents(ids) && forall|i: int|
            0 <= i < s.hits().len() ==> ((#[trigger] s.hits()[i]).parent_doc_id matches Some(p)
                ==> ids.contains(p))),
        s.stage == Stage::Expanding ==> (s.need() matches NeedV::Around { parent, index }
            && s.hits()[s.expansion.next as int].parent_doc_id == Some(parent) && index
            == s.hits()[s.expansion.next as int].chunk_index),
{
    law_documents_of_all_hits_are_fetched(s.hits());
}

/// Ranked rows come in the order of the ranking: the row at each place is the one
/// that the ranking puts there, and what the ranking does not know is left out.
pub proof fn law_ranked_rows_follow_the_ranking(
    leaves: Seq<RecordV>,
    order: Seq<usize>,
    n: nat,
)
    requires
        n <= order.len(),
        forall|i: int| 0 <= i < order.len() ==> (#[trigger] order[i]) < leaves.len(),
    ensures
        query::picked(leaves, order, n).len() == n,
        forall|i: int|
            0 <= i < n ==> #[trigger] query::picked(leaves, order, n)[i]
                == leaves[order[i] as int],
    decreases n,
{
    if n > 0 {
        law_ranked_rows_follow_the_ranking(leaves, order, (n - 1) as nat);
        assert((order[n - 1] as int) < leaves.len());
    }
}

/// Of a ranking as many rows are taken as are asked for, or all of them.
pub proof fn law_as_many_as_asked_for(limit: nat, there: nat)
    ensures
        limit <= there ==> query::least(limit, there) == limit,
        there <= limit ==> query::least(limit, there) == there,
{
}

/// Texts are joined with the separator between neighbours, and nowhere else.
pub proof fn law_joined_texts(v: Seq<Seq<char>>, x: Seq<char>, sep: Seq<char>)
    ensures
        text::joined(seq![x], sep) == x,
        v.len() > 0 ==> text::joined(v.push(x), sep) == text::joined(v, sep) + sep + x,
        text::joined(Seq::empty(), sep) == Seq::<char>::empty(),
{
    assert(v.push(x).drop_last() =~= v);
}

/// The data of a graph answer is its data part.
pub proof fn law_graph_data_is_its_data_part(j: JsonV, d: JsonV)
    ensures
        json::field(j, "data"@) == Some(d) ==> hybrid::data_part(j) == d,
        json::field(j, "data"@) is None ==> hybrid::data_part(j) is Null,
{
}

/// Of two positive scores the one with more in its bits is the higher, and every
/// positive score is higher than a negative one.
pub proof fn law_scores_compare_as_numbers(a: u32, b: u32)
    requires
        a < 0x7f80_0000,
    ensures
        b < 0x7f80_0000 ==> (reranker::above(a, b) <==> a > b),
        0x8000_0000 < b < 0xff80_0000 ==> reranker::above(a, b) && !reranker::above(b, a),
{
}

proof fn lemma_placed_stable(s: Seq<(usize, u32)>, x: (usize, u32))
    requires
        !reranker::not_a_number(x.1),
        forall|i: int| 0 <= i < s.len() ==> !reranker::not_a_number((#[trigger] s[i]).1),
        forall|i: int| 0 <= i < s.len() ==> (#[trigger] s[i]).0 < x.0,
        forall|i: int, j: int|
            0 <= i < j < s.len() && (#[trigger] s[i]).1 == (#[trigger] s[j]).1 ==> s[i].0 < s[j].0,
        forall|i: int, j: int|
            0 <= i < j < s.len() ==> reranker::score_rank((#[trigger] s[i]).1)
                >= reranker::score_rank((#[trigger] s[j]).1),
    ensures
        ({
            let r = reranker::ranked_in(s, x);
            &&& r.len() == s.len() + 1
            &&& forall|i: int|
                0 <= i < r.len() ==> #[trigger] r[i] == x || s.contains(r[i])
            &&& forall|i: int, j: int|
                0 <= i < j < r.len() && (#[trigger] r[i]).1 == (#[trigger] r[j]).1 ==> r[i].0
                    < r[j].0
        }),
    decreases s.len(),
{
    let r = reranker::ranked_in(s, x);
    if s.len() > 0 && reranker::above(x.1, s.last().1) {
        let head = s.drop_last();
        let last = s.last();
        assert(last == s[s.len() - 1]);
        assert forall|i: int, j: int| 0 <= i < j < head.len() implies reranker::score_rank(
            (#[trigger] head[i]).1,
        ) >= reranker::score_rank((#[trigger] head[j]).1) by {
            assert(head[i] == s[i] && head[j] == s[j]);
        }
        lemma_placed_stable(head, x);
        let p = reranker::ranked_in(head, x);
        assert forall|i: int| 0 <= i < r.len() implies #[trigger] r[i] == x || s.contains(r[i]) by {
            if i < p.len() {
                assert(r[i] == p[i]);
                if r[i] != x {
                    let k = head.index_of(r[i]);
                    assert(s[k] == r[i]);
                }
            } else {
                assert(s.contains(s[s.len() - 1]));
            }
        }
        assert forall|i: int, j: int| 0 <= i < j < r.len() && (#[trigger] r[i]).1 == (
        #[trigger] r[j]).1 implies r[i].0 < r[j].0 by {
            if j < p.len() {
                assert(r[i] == p[i] && r[j] == p[j]);
            } else {
                assert(r[i] == p[i]);
                if p[i] != x {
                    let k = head.index_of(p[i]);
                    assert(s[k] == p[i]);
                }
            }
        }
    } else {
        assert forall|i: int| 0 <= i < r.len() implies #[trigger] r[i] == x || s.contains(r[i]) by {
            if i < s.len() {
                assert(s.contains(s[i]));
            }
        }
    }
}

/// Where all scores are numbers, documents with the same score stay in the order
/// in which they were given.
pub proof fn law_equal_scores_keep_their_order(s: Seq<(usize, u32)>)
    requires
        forall|i: int| 0 <= i < s.len() ==> !reranker::not_a_number((#[trigger] s[i]).1),
        forall|i: int, j: int| 0 <= i < j < s.len() ==> (#[trigger] s[i]).0 < (#[trigger] s[j]).0,
    ensures
        ({
            let r = reranker::by_score(s);
            &&& forall|i: int, j: int|
                0 <= i < j < r.len() && (#[trigger] r[i]).1 == (#[trigger] r[j]).1 ==> r[i].0
                    < r[j].0
            &&& forall|i: int| 0 <= i < r.len() ==> s.contains(#[trigger] r[i])
        }),
    decreases s.len(),
{
    if s.len() > 0 {
        let front = s.drop_last();
        assert forall|i: int| 0 <= i < front.len() implies !reranker::not_a_number(
            (#[trigger] front[i]).1,
        ) by {
            assert(front[i] == s[i]);
        }
        law_equal_scores_keep_their_order(front);
        reranker::law_ranking_is_descending(front);
        let b = reranker::by_score(front);
        let x = s.last();
        assert forall|i: int| 0 <= i < b.len() implies (#[trigger] b[i]).0 < x.0
            && !reranker::not_a_number(b[i].1) by {
            let k = front.index_of(b[i]);
            assert(front[k] == s[k]);
        }
        lemma_placed_stable(b, x);
        let r = reranker::by_score(s);
        assert forall|i: int| 0 <= i < r.len() implies s.contains(#[trigger] r[i]) by {
            if r[i] != x {
                let k = front.index_of(r[i]);
                assert(s[k] == r[i]);
            } else {
                assert(s[s.len() - 1] == x);
            }
        }
    }
}

/// What a service answers is what is used: its scores, sorted, all of them; and
/// its first vector. A service that fails is never taken for one that answers.
pub proof fn law_replies_are_used(
    url: Seq<char>,
    scores: Reply<Vec<(usize, u32)>>,
    vectors: Reply<Vec<Vec<u32>>>,
)
    ensures
        reranker::ranking_of(url, scores) is Ok <==> scores is Answered,
        scores is Answered && (forall|i: int|
            0 <= i < scores->Answered_0@.len() ==> !reranker::not_a_number(
                (#[trigger] scores->Answered_0@[i]).1,
            )) ==> reranker::ranking_of(url, scores)->Ok_0.to_multiset()
            == scores->Answered_0@.to_multiset(),
        embedding::embedding_of(url, vectors) is Ok <==> vectors is Answered
            && vectors->Answered_0@.len() > 0,
        embedding::embedding_of(url, vectors) matches Ok(v) ==> v == vectors->Answered_0@[0]@,
{
    if scores is Answered && (forall|i: int|
        0 <= i < scores->Answered_0@.len() ==> !reranker::not_a_number(
            (#[trigger] scores->Answered_0@[i]).1,
        )) {
        reranker::law_ranking_is_descending(scores->Answered_0@);
    }
}

/// Services are asked under their address, whether it ends in a slash or not, and
/// with the text, the model and the documents that were given.
pub proof fn law_services_are_asked_what_was_given(
    base: Seq<char>,
    model: Seq<char>,
    input: Seq<char>,
    docs: Seq<Seq<char>>,
)
    requires
        base.len() == 0 || base.last() != '/',
    ensures
        embedding::embed_url(base) == base + "/embeddings"@,
        embedding::embed_url(base.push('/')) == base + "/embeddings"@,
        reranker::rank_url(base) == base + "/rerank"@,
        reranker::rank_url(base.push('/')) == base + "/rerank"@,
        json::text_field(embedding::embed_body(model, input), "model"@) == Some(model),
        json::text_field(embedding::embed_body(model, input), "input"@) == Some(input),
        ({
            let b = reranker::openai_body(input, docs, Some(model));
            let c = reranker::openai_body(input, docs, None);
            &&& json::text_field(b, "query"@) == Some(input)
            &&& json::text_field(c, "query"@) == Some(input)
            &&& json::text_field(b, "model"@) == Some(model)
            &&& is_texts(json::field(b, "documents"@), docs)
            &&& is_texts(json::field(c, "documents"@), docs)
        }),
{
    reveal_strlit("model");
    reveal_strlit("input");
    reveal_strlit("query");
    reveal_strlit("documents");
    assert("model"@[0] == 'm');
    assert("input"@[0] == 'i');
    assert("query"@[0] == 'q');
    assert("documents"@[0] == 'd');
    let e = embedding::embed_body(model, input)->Obj_0;
    lemma_lookup_at(e, 0);
    lemma_lookup_at(e, 1);
    let b = reranker::openai_body(input, docs, Some(model))->Obj_0;
    lemma_lookup_at(b, 0);
    lemma_lookup_at(b, 1);
    lemma_lookup_at(b, 2);
    let c = reranker::openai_body(input, docs, None)->Obj_0;
    lemma_lookup_at(c, 0);
    lemma_lookup_at(c, 1);
    let s = base.push('/');
    assert(s.drop_last() =~= base);
    assert(graph::without_slashes(s) == graph::without_slashes(base));
}

/// Whether a value lists texts, in their order.
pub open spec fn is_texts(v: Option<JsonV>, docs: Seq<Seq<char>>) -> bool {
    match v {
        Some(JsonV::Arr(s)) => s.len() == docs.len() && forall|i: int|
            0 <= i < docs.len() ==> s[i] == JsonV::Str(#[trigger] docs[i]),
        _ => false,
    }
}

/// Trimming takes white space off both ends and nothing else.
pub proof fn law_trimming_takes_white_space_only(s: Seq<char>) -> (r: (Seq<char>, Seq<char>))
    ensures
        s == r.0 + text::trimmed(s) + r.1,
        text::is_blank(r.0),
        text::is_blank(r.1),
        text::trimmed(s).len() > 0 ==> !text::is_space(text::trimmed(s)[0]) && !text::is_space(
            text::trimmed(s).last(),
        ),
    decreases s.len(),
{
    let t = text::trimmed(s);
    let none = Seq::<char>::empty();
    if s.len() == 0 {
        assert(none + t + none =~= s);
        (none, none)
    } else if text::is_space(s[0]) {
        let rest = s.drop_first();
        let (a, b) = law_trimming_takes_white_space_only(rest);
        assert(t == text::trimmed(rest));
        let c = seq![s[0]] + a;
        assert forall|i: int| 0 <= i < c.len() implies text::is_space(#[trigger] c[i]) by {
            if i > 0 {
                assert(text::is_space(a[i - 1]));
            }
        }
        assert(rest == a + t + b);
        assert(s =~= seq![s[0]] + rest);
        assert(c + t + b =~= seq![s[0]] + (a + t + b));
        assert(s == c + t + b);
        (c, b)
    } else if text::is_space(s.last()) {
        let rest = s.drop_last();
        let (a, b) = law_trimming_takes_white_space_only(rest);
        assert(t == text::trimmed(rest));
        let c = b.push(s.last());
        assert forall|i: int| 0 <= i < c.len() implies text::is_space(#[trigger] c[i]) by {
            if i < b.len() {
                assert(text::is_space(b[i]));
            }
        }
        assert(rest == a + t + b);
        assert(s =~= rest.push(s.last()));
        assert(a + t + c =~= (a + t + b).push(s.last()));
        assert(s == a + t + c);
        (a, c)
    } else {
        assert(none + t + none =~= s);
        (none, none)
    }
}

/// A question to the graph carries the text and the limit, and each context size
/// exactly where one is given.
pub proof fn law_graph_questions_carry_their_sizes(
    q: Seq<char>,
    limit: usize,
    p: GraphQueryParams,
)
    ensures
        ({
            let b = graph::query_body(q, limit, p);
            &&& json::text_field(b, "query"@) == Some(q)
            &&& json::text_field(b, "mode"@) == Some("hybrid"@)
            &&& json::field(b, "top_k"@) is Some
            &&& json::nat_of(json::field(b, "top_k"@)->0) == Some(limit as int)
            &&& size_said(b, "chunk_top_k"@, p.chunk_top_k)
            &&& size_said(b, "max_entity_tokens"@, p.max_entity_tokens)
            &&& size_said(b, "max_relation_tokens"@, p.max_relation_tokens)
            &&& size_said(b, "max_total_tokens"@, p.max_total_tokens)
        }),
{
    reveal_strlit("query");
    reveal_strlit("mode");
    reveal_strlit("top_k");
    reveal_strlit("chunk_top_k");
    reveal_strlit("max_entity_tokens");
    reveal_strlit("max_relation_tokens");
    reveal_strlit("max_total_tokens");
    let k0 = "query"@;
    let k1 = "mode"@;
    let k2 = "top_k"@;
    let k3 = "chunk_top_k"@;
    let k4 = "max_entity_tokens"@;
    let k5 = "max_relation_tokens"@;
    let k6 = "max_total_tokens"@;
    assert(k0.len() == 5 && k1.len() == 4 && k2.len() == 5 && k3.len() == 11 && k4.len() == 17
        && k5.len() == 19 && k6.len() == 16);
    assert(k0[0] == 'q' && k2[0] == 't');
    let e = seq![
        (k0, JsonV::Str(q)),
        (k1, JsonV::Str("hybrid"@)),
        (k2, graph::count_value(limit as nat)),
    ];
    lemma_lookup_at(e, 0);
    lemma_lookup_at(e, 1);
    lemma_lookup_at(e, 2);
    reveal_with_fuel(json::lookup, 5);
    assert(e.drop_first() =~= seq![e[1], e[2]]);
    assert(seq![e[1], e[2]].drop_first() =~= seq![e[2]]);
    assert(seq![e[2]].drop_first() =~= Seq::empty());
    assert(json::lookup(e, k3) is None);
    assert(json::lookup(e, k4) is None);
    assert(json::lookup(e, k5) is None);
    assert(json::lookup(e, k6) is None);
    let e3 = graph::with_count(e, k3, p.chunk_top_k);
    let e4 = graph::with_count(e3, k4, p.max_entity_tokens);
    let e5 = graph::with_count(e4, k5, p.max_relation_tokens);
    lemma_counted(e, k3, p.chunk_top_k, k0);
    lemma_counted(e, k3, p.chunk_top_k, k1);
    lemma_counted(e, k3, p.chunk_top_k, k2);
    lemma_counted(e, k3, p.chunk_top_k, k3);
    lemma_counted(e, k3, p.chunk_top_k, k4);
    lemma_counted(e, k3, p.chunk_top_k, k5);
    lemma_counted(e, k3, p.chunk_top_k, k6);
    lemma_counted(e3, k4, p.max_entity_tokens, k0);
    lemma_counted(e3, k4, p.max_entity_tokens, k1);
    lemma_counted(e3, k4, p.max_entity_tokens, k2);
    lemma_counted(e3, k4, p.max_entity_tokens, k3);
    lemma_counted(e3, k4, p.max_entity_tokens, k4);
    lemma_counted(e3, k4, p.max_entity_tokens, k5);
    lemma_counted(e3, k4, p.max_entity_tokens, k6);
    lemma_counted(e4, k5, p.max_relation_tokens, k0);
    lemma_counted(e4, k5, p.max_relation_tokens, k1);
    lemma_counted(e4, k5, p.max_relation_tokens, k2);
    lemma_counted(e4, k5, p.max_relation_tokens, k3);
    lemma_counted(e4, k5, p.max_relation_tokens, k4);
    lemma_counted(e4, k5, p.max_relation_tokens, k5);
    lemma_counted(e4, k5, p.max_relation_tokens, k6);
    lemma_counted(e5, k6, p.max_total_tokens, k0);
    lemma_counted(e5, k6, p.max_total_tokens, k1);
    lemma_counted(e5, k6, p.max_total_tokens, k2);
    lemma_counted(e5, k6, p.max_total_tokens, k3);
    lemma_counted(e5, k6, p.max_total_tokens, k4);
    lemma_counted(e5, k6, p.max_total_tokens, k5);
    lemma_counted(e5, k6, p.max_total_tokens, k6);
}

/// Whether a size is said exactly where one is given.
pub open spec fn size_said(b: JsonV, key: Seq<char>, n: Option<usize>) -> bool {
    match n {
        Some(v) => json::field(b, key) is Some && json::nat_of(json::field(b, key)->0) == Some(
            v as int,
        ),
        None => json::field(b, key) is None,
    }
}

proof fn lemma_counted(
    e: Seq<(Seq<char>, JsonV)>,
    key: Seq<char>,
    n: Option<usize>,
    other: Seq<char>,
)
    ensures
        other != key ==> json::lookup(graph::with_count(e, key, n), other) == json::lookup(
            e,
            other,
        ),
        n matches Some(v) ==> json::lookup(graph::with_count(e, key, n), key) == Some(
            graph::count_value(v as nat),
        ),
        n is None ==> graph::with_count(e, key, n) == e,
{
    match n {
        Some(v) => {
            json::law_with_entry_reads_back(e, key, graph::count_value(v as nat), other);
        },
        None => {},
    }
}

/// A deletion in the graph counts as done only where the service answered and did
/// not say that it is busy.
pub proof fn law_busy_deletions_are_not_done(
    id: Seq<char>,
    reply: Reply<String>,
    said: Result<JsonV, Seq<char>>,
    d: graph::Deletion,
)
    requires
        graph::deletion_is(id, reply, said, d),
    ensures
        reply is Unsent || reply is Refused <==> d is Failed,
        d is Busy <==> reply is Answered && said is Ok && json::text_field(said->Ok_0, "status"@)
            == Some("busy"@),
{
}

/// A question that is merged with a search fetches the documents that the answer
/// names; an answer without data names none.
pub proof fn law_merges_ask_for_what_they_need(m: Merging)
    ensures
        m.stage == AskStage::Asking <==> m.action() is Ask,
        m.stage == AskStage::Scanning <==> m.action() is All,
        m.stage == AskStage::Mapping ==> (m.action() matches AskActionV::Parents(ids) && (
        match m.outcome {
            Outcome::Data(d) => forall|j: int, id: Seq<char>|
                0 <= j < hybrid::chunks_of(d@).len() && hybrid_laws::names(
                    #[trigger] hybrid::chunks_of(d@)[j],
                    id,
                ) ==> #[trigger] ids.contains(id),
            _ => ids.len() == 0,
        })),
{
    match m.outcome {
        Outcome::Data(d) => {
            hybrid_laws::law_named_ids_follow_the_chunks(d@);
        },
        _ => {},
    }
}

} // verus!
