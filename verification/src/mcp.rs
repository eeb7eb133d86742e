//! The tool interface: what a call asks for, and what it is answered.

use crate::dict::Dict;
use crate::hash;
use crate::json;
use crate::json::{Json, JsonV, NumberV};
use crate::plugins::graph;
use crate::plugins::graph::{GraphMode, GraphQueryParams};
use crate::query;
use crate::query::{ExpandTo, Pred, PredV};
use crate::schema;
use crate::schema::SchemaConfig;
use crate::store;
use crate::store::{InputDoc, Record, RecordV};
use crate::text;
use vstd::prelude::*;

verus! {

broadcast use vstd::string::group_string_axioms;

// ---------------------------------------------------------------------------
// Answers
// ---------------------------------------------------------------------------

/// The content of an answer: one text.
pub open spec fn content_value(t: Seq<char>) -> JsonV {
    JsonV::Arr(seq![JsonV::Obj(seq![("type"@, JsonV::Str("text"@)), ("text"@, JsonV::Str(t))])])
}

/// An answer that gives a text.
pub open spec fn text_value(t: Seq<char>) -> JsonV {
    JsonV::Obj(seq![("content"@, content_value(t))])
}

/// An answer that says what is wrong.
pub open spec fn error_value(t: Seq<char>) -> JsonV {
    JsonV::Obj(seq![("content"@, content_value(t)), ("isError"@, JsonV::Bool(true))])
}

/// An object with one entry.
pub fn object1(k: &str, v: Json) -> (r: Json)
    ensures
        r@ == JsonV::Obj(seq![(k@, v@)]),
{
    let ghost x = v@;
    let mut e: Vec<(String, Json)> = Vec::new();
    e.push((k.to_string(), v));
    proof {
        json::lemma_obj_view(e);
        assert(json::entries(e@) =~= seq![(k@, x)]);
    }
    Json::Obj(e)
}

/// An object with two entries.
pub fn object2(k: &str, v: Json, l: &str, w: Json) -> (r: Json)
    ensures
        r@ == JsonV::Obj(seq![(k@, v@), (l@, w@)]),
{
    let ghost x = v@;
    let ghost y = w@;
    let mut e: Vec<(String, Json)> = Vec::new();
    e.push((k.to_string(), v));
    e.push((l.to_string(), w));
    proof {
        json::lemma_obj_view(e);
        assert(json::entries(e@) =~= seq![(k@, x), (l@, y)]);
    }
    Json::Obj(e)
}

/// An object with three entries.
pub fn object3(k: &str, v: Json, l: &str, w: Json, m: &str, u: Json) -> (r: Json)
    ensures
        r@ == JsonV::Obj(seq![(k@, v@), (l@, w@), (m@, u@)]),
{
    let ghost x = v@;
    let ghost y = w@;
    let ghost z = u@;
    let mut e: Vec<(String, Json)> = Vec::new();
    e.push((k.to_string(), v));
    e.push((l.to_string(), w));
    e.push((m.to_string(), u));
    proof {
        json::lemma_obj_view(e);
        assert(json::entries(e@) =~= seq![(k@, x), (l@, y), (m@, z)]);
    }
    Json::Obj(e)
}

/// An object with four entries.
pub fn object4(k: &str, v: Json, l: &str, w: Json, m: &str, u: Json, n: &str, t: Json) -> (r:
    Json)
    ensures
        r@ == JsonV::Obj(seq![(k@, v@), (l@, w@), (m@, u@), (n@, t@)]),
{
    let ghost x = v@;
    let ghost y = w@;
    let ghost z = u@;
    let ghost a = t@;
    let mut e: Vec<(String, Json)> = Vec::new();
    e.push((k.to_string(), v));
    e.push((l.to_string(), w));
    e.push((m.to_string(), u));
    e.push((n.to_string(), t));
    proof {
        json::lemma_obj_view(e);
        assert(json::entries(e@) =~= seq![(k@, x), (l@, y), (m@, z), (n@, a)]);
    }
    Json::Obj(e)
}

/// An array with one item.
pub fn array1(v: Json) -> (r: Json)
    ensures
        r@ == JsonV::Arr(seq![v@]),
{
    let ghost x = v@;
    let mut a: Vec<Json> = Vec::new();
    a.push(v);
    proof {
        json::lemma_arr_view(a);
        assert(json::items(a@) =~= seq![x]);
    }
    Json::Arr(a)
}

fn content(t: &str) -> (r: Json)
    ensures
        r@ == content_value(t@),
{
    array1(object2("type", Json::string("text"), "text", Json::string(t)))
}

/// An answer that gives a text.
pub fn text_reply(t: &str) -> (r: Json)
    ensures
        r@ == text_value(t@),
{
    object1("content", content(t))
}

/// An answer that says what is wrong.
pub fn err(msg: &str) -> (r: Json)
    ensures
        r@ == error_value(msg@),
{
    object2("content", content(msg), "isError", Json::Bool(true))
}

/// An answer that says what failed and why.
fn step_error(step: &str, e: &str) -> (r: Json)
    ensures
        r@ == error_value(step@ + e@),
{
    let m: String = text::cat2(step, e);
    err(m.as_str())
}

/// The rows as they are given to clients.
pub open spec fn documents_value(docs: Seq<RecordV>) -> JsonV {
    JsonV::Arr(Seq::new(docs.len(), |i: int| query::record_value(docs[i])))
}

/// The rows as they are given to clients.
pub fn documents_json(docs: &Vec<Record>) -> (r: Json)
    ensures
        r@ == documents_value(store::records(docs@)),
{
    let ghost want = documents_value(store::records(docs@))->Arr_0;
    let mut out: Vec<Json> = Vec::new();
    let mut i: usize = 0;
    assert(json::items(out@) =~= want.take(0));
    while i < docs.len()
        invariant
            want == documents_value(store::records(docs@))->Arr_0,
            i <= docs@.len(),
            json::items(out@) == want.take(i as int),
        decreases docs@.len() - i,
    {
        let ghost was = json::items(out@);
        let j: Json = query::record_json(&docs[i]);
        assert(want[i as int] == j@);
        out.push(j);
        assert(json::items(out@) =~= was.push(j@));
        i = i + 1;
        assert(want.take(i as int) =~= want.take(i - 1).push(want[i - 1]));
    }
    assert(want.take(i as int) =~= want);
    proof {
        json::lemma_arr_view(out);
    }
    Json::Arr(out)
}

/// The answer to a search: the rows it found, or why it failed.
pub fn search_reply(found: &Result<Vec<Record>, String>) -> (r: Json)
    ensures
        r@ == (match found {
            Ok(docs) => text_value(json::pretty_text(documents_value(store::records(docs@)))),
            Err(e) => error_value("query failed: "@ + e@),
        }),
{
    match found {
        Ok(docs) => {
            let t: String = documents_json(docs).pretty();
            text_reply(t.as_str())
        },
        Err(e) => step_error("query failed: ", e.as_str()),
    }
}

/// A row with its whole text.
pub open spec fn whole_record(d: RecordV) -> JsonV {
    JsonV::Obj(
        query::with_entries(
            seq![
                ("id"@, JsonV::Str(d.id)),
                ("raw_text"@, JsonV::Str(d.raw_text)),
                ("chunk_level"@, JsonV::Num(NumberV::Int(d.chunk_level as int))),
                ("chunk_index"@, JsonV::Num(NumberV::Int(d.chunk_index as int))),
                ("parent_doc_id"@, query::text_or_null(d.parent_doc_id)),
                ("source_path"@, JsonV::Str(d.source_path)),
                ("source_type"@, JsonV::Str(d.source_type)),
            ],
            d.extra,
            d.extra.len(),
        ),
    )
}

/// A row with its whole text.
pub fn document_json(d: &Record) -> (r: Json)
    ensures
        r@ == whole_record(d@),
{
    let mut v: Vec<(String, Json)> = Vec::new();
    v.push(("id".to_string(), Json::Str(d.id.clone())));
    v.push(("raw_text".to_string(), Json::Str(d.raw_text.clone())));
    v.push(("chunk_level".to_string(), Json::number(d.chunk_level as i64)));
    v.push(("chunk_index".to_string(), Json::number(d.chunk_index as i64)));
    let parent: Json = match &d.parent_doc_id {
        Some(p) => Json::Str(p.clone()),
        None => Json::Null,
    };
    v.push(("parent_doc_id".to_string(), parent));
    v.push(("source_path".to_string(), Json::Str(d.source_path.clone())));
    v.push(("source_type".to_string(), Json::Str(d.source_type.clone())));
    let ghost start = json::entries(v@);
    assert(start =~= seq![
        ("id"@, JsonV::Str(d@.id)),
        ("raw_text"@, JsonV::Str(d@.raw_text)),
        ("chunk_level"@, JsonV::Num(NumberV::Int(d@.chunk_level as int))),
        ("chunk_index"@, JsonV::Num(NumberV::Int(d@.chunk_index as int))),
        ("parent_doc_id"@, query::text_or_null(d@.parent_doc_id)),
        ("source_path"@, JsonV::Str(d@.source_path)),
        ("source_type"@, JsonV::Str(d@.source_type)),
    ]);
    let ghost more = json::entries(d.extra@);
    let mut i: usize = 0;
    while i < d.extra.len()
        invariant
            more == json::entries(d.extra@),
            i <= d.extra@.len(),
            json::entries(v@) == query::with_entries(start, more, i as nat),
        decreases d.extra@.len() - i,
    {
        assert(more[i as int] == (d.extra@[i as int].0@, d.extra@[i as int].1@));
        json::put(&mut v, d.extra[i].0.as_str(), d.extra[i].1.copy());
        i = i + 1;
    }
    proof {
        json::lemma_obj_view(v);
    }
    Json::Obj(v)
}

/// A row that is asked for by its id is given with its whole text, unless a
/// field of the user is named like it.
pub proof fn law_documents_are_whole(d: RecordV)
    requires
        forall|i: int| 0 <= i < d.extra.len() ==> (#[trigger] d.extra[i]).0 != "raw_text"@,
    ensures
        json::text_field(whole_record(d), "raw_text"@) == Some(d.raw_text),
{
    let f = seq![
        ("id"@, JsonV::Str(d.id)),
        ("raw_text"@, JsonV::Str(d.raw_text)),
        ("chunk_level"@, JsonV::Num(NumberV::Int(d.chunk_level as int))),
        ("chunk_index"@, JsonV::Num(NumberV::Int(d.chunk_index as int))),
        ("parent_doc_id"@, query::text_or_null(d.parent_doc_id)),
        ("source_path"@, JsonV::Str(d.source_path)),
        ("source_type"@, JsonV::Str(d.source_type)),
    ];
    query::lemma_other_entries(f, d.extra, d.extra.len(), "raw_text"@);
    reveal_strlit("id");
    reveal_strlit("raw_text");
    assert("id"@.len() == 2 && "raw_text"@.len() == 8);
    assert(f.drop_first()[0] == f[1]);
    reveal_with_fuel(json::lookup, 3);
}

/// The answer to a request for one row.
pub fn get_reply(id: &str, found: &Result<Option<Record>, String>) -> (r: Json)
    ensures
        r@ == (match found {
            Ok(Some(d)) => text_value(json::pretty_text(whole_record(d@))),
            Ok(None) => error_value("document not found: "@ + id@),
            Err(e) => error_value("get failed: "@ + e@),
        }),
{
    match found {
        Ok(Some(d)) => {
            let t: String = document_json(d).pretty();
            text_reply(t.as_str())
        },
        Ok(None) => step_error("document not found: ", id),
        Err(e) => step_error("get failed: ", e.as_str()),
    }
}

/// The answer to a request for the number of rows.
pub fn stats_reply(rows: &Result<usize, String>) -> (r: Json)
    ensures
        r@ == (match rows {
            Ok(n) => text_value("rows: "@ + text::decimal(*n as nat)),
            Err(e) => error_value("stats failed: "@ + e@),
        }),
{
    match rows {
        Ok(n) => {
            let d: String = text::usize_text(*n);
            let m: String = text::cat2("rows: ", d.as_str());
            text_reply(m.as_str())
        },
        Err(e) => step_error("stats failed: ", e.as_str()),
    }
}

// ---------------------------------------------------------------------------
// Arguments
// ---------------------------------------------------------------------------

/// The text argument `key`, or `default` where there is none.
pub open spec fn text_or(args: JsonV, key: Seq<char>, default: Seq<char>) -> Seq<char> {
    match json::text_field(args, key) {
        Some(s) => s,
        None => default,
    }
}

/// The count argument `key`, where it is a non-negative integer.
pub open spec fn count_of(args: JsonV, key: Seq<char>) -> Option<int> {
    match json::field(args, key) {
        Some(v) => json::nat_of(v),
        None => None,
    }
}

/// The truth argument `key`, or `default` where there is none.
pub open spec fn flag_or(args: JsonV, key: Seq<char>, default: bool) -> bool {
    match json::field(args, key) {
        Some(v) => match json::bool_of(v) {
            Some(b) => b,
            None => default,
        },
        None => default,
    }
}

/// The limit asked for, or `default`, but no more than the allowed most.
pub open spec fn limit_of(args: JsonV, default: int) -> int {
    let n = match count_of(args, "limit"@) {
        Some(n) => n,
        None => default,
    };
    if n < query::MAX_LIMIT {
        n
    } else {
        query::MAX_LIMIT as int
    }
}

fn text_arg(args: &Json, key: &str, default: &str) -> (r: String)
    ensures
        r@ == text_or(args@, key@, default@),
{
    match args.str_field(key) {
        Some(s) => s.to_string(),
        None => default.to_string(),
    }
}

fn count_arg(args: &Json, key: &str) -> (r: Option<u64>)
    ensures
        (match r {
            Some(n) => count_of(args@, key@) == Some(n as int),
            None => count_of(args@, key@) is None,
        }),
{
    match args.get(key) {
        Some(v) => v.as_u64(),
        None => None,
    }
}

fn flag_arg(args: &Json, key: &str, default: bool) -> (r: bool)
    ensures
        r == flag_or(args@, key@, default),
{
    match args.get(key) {
        Some(v) => match v.as_bool() {
            Some(b) => b,
            None => default,
        },
        None => default,
    }
}

fn limit_arg(args: &Json, default: u64) -> (r: usize)
    ensures
        r == limit_of(args@, default as int),
{
    let n: u64 = match count_arg(args, "limit") {
        Some(n) => n,
        None => default,
    };
    if n < query::MAX_LIMIT as u64 {
        n as usize
    } else {
        query::MAX_LIMIT
    }
}

/// The filter argument with its SQL: nothing where there is none or it is
/// empty, or why it is not a filter for this schema.
pub open spec fn filter_of(c: SchemaConfig, f: Option<JsonV>) -> Result<
    Option<(PredV, Seq<char>)>,
    Seq<char>,
> {
    match f {
        Some(JsonV::Obj(e)) => if e.len() == 0 {
            Ok(None)
        } else {
            match query::pred_of(JsonV::Obj(e)) {
                Err(m) => Err(m),
                Ok(p) => match query::filter_sql(c, p) {
                    Err(m) => Err(m),
                    Ok(sql) => Ok(Some((p, sql))),
                },
            }
        },
        _ => Ok(None),
    }
}

/// A filter and its SQL.
#[derive(Debug, PartialEq, Eq)]
pub struct Filter {
    pub pred: Pred,
    pub sql: String,
}

/// The model of an optional filter.
pub open spec fn filter_view(f: Option<Filter>) -> Option<(PredV, Seq<char>)> {
    match f {
        Some(x) => Some((x.pred@, x.sql@)),
        None => None,
    }
}

/// Reads and compiles a filter.
pub fn compile_filter(config: &SchemaConfig, f: Option<&Json>) -> (r: Result<
    Option<Filter>,
    String,
>)
    requires
        config.wf(),
    ensures
        (match r {
            Ok(x) => filter_of(*config, store::opt_json(f)) == Ok::<
                Option<(PredV, Seq<char>)>,
                Seq<char>,
            >(filter_view(x)),
            Err(m) => filter_of(*config, store::opt_json(f)) == Err::<
                Option<(PredV, Seq<char>)>,
                Seq<char>,
            >(m@),
        }),
{
    let f: &Json = match f {
        Some(f) => f,
        None => {
            return Ok(None);
        },
    };
    match f.as_object() {
        None => Ok(None),
        Some(e) => if e.len() == 0 {
            Ok(None)
        } else {
            match Pred::from_json(f) {
                Err(m) => Err(m),
                Ok(pred) => match pred.compile(config) {
                    Err(m) => Err(m),
                    Ok(sql) => Ok(Some(Filter { pred, sql })),
                },
            }
        },
    }
}

// ---------------------------------------------------------------------------
// Metadata
// ---------------------------------------------------------------------------

/// What is wrong with `v` as a value of a field of the type `t`; null is a
/// value of every known type.
pub open spec fn value_error(t: Seq<char>, v: JsonV) -> Option<Seq<char>> {
    if t == "string"@ || t == "text"@ {
        if !(v is Null) && !(v is Str) {
            Some("expected string"@)
        } else {
            None
        }
    } else if t == "int64"@ || t == "timestamp"@ {
        if !(v is Null) && json::int_of(v) is None {
            Some("expected integer"@)
        } else {
            None
        }
    } else if t == "float32"@ {
        if !(v is Null) && !(v is Num) {
            Some("expected number"@)
        } else {
            None
        }
    } else if t == "bool"@ {
        if !(v is Null) && !(v is Bool) {
            Some("expected boolean"@)
        } else {
            None
        }
    } else if t == "list<string>"@ {
        if !(v is Null) && !is_text_list(v) {
            Some("expected array of strings"@)
        } else {
            None
        }
    } else {
        Some("unsupported field type "@ + t)
    }
}

/// Whether `v` is an array of texts.
pub open spec fn is_text_list(v: JsonV) -> bool {
    match v {
        JsonV::Arr(s) => forall|i: int| 0 <= i < s.len() ==> (#[trigger] s[i]) is Str,
        _ => false,
    }
}

fn all_texts(v: &Json) -> (r: bool)
    ensures
        r == is_text_list(v@),
{
    match v.as_array() {
        None => false,
        Some(a) => {
            let ghost s = json::items(a@);
            let mut i: usize = 0;
            while i < a.len()
                invariant
                    s == json::items(a@),
                    v@ == JsonV::Arr(s),
                    i <= a@.len(),
                    forall|k: int| 0 <= k < i ==> (#[trigger] s[k]) is Str,
                decreases a@.len() - i,
            {
                assert(s[i as int] == a@[i as int]@);
                match a[i].as_str() {
                    Some(_) => {},
                    None => {
                        return false;
                    },
                }
                i = i + 1;
            }
            true
        },
    }
}

/// Checks a value against the type of its field.
pub fn validate_field_value(t: &str, v: &Json) -> (r: Result<(), String>)
    ensures
        (match r {
            Ok(_) => value_error(t@, v@) is None,
            Err(e) => value_error(t@, v@) == Some(e@),
        }),
{
    let null: bool = match v {
        Json::Null => true,
        _ => false,
    };
    if text::same(t, "string") || text::same(t, "text") {
        if !null && v.as_str().is_none() {
            return Err("expected string".to_string());
        }
    } else if text::same(t, "int64") || text::same(t, "timestamp") {
        if !null && v.as_i64().is_none() {
            return Err("expected integer".to_string());
        }
    } else if text::same(t, "float32") {
        if !null && v.as_float().is_none() {
            return Err("expected number".to_string());
        }
    } else if text::same(t, "bool") {
        if !null && v.as_bool().is_none() {
            return Err("expected boolean".to_string());
        }
    } else if text::same(t, "list<string>") {
        if !null && !all_texts(v) {
            return Err("expected array of strings".to_string());
        }
    } else {
        return Err(text::cat2("unsupported field type ", t));
    }
    Ok(())
}

/// What is wrong with one metadata entry under a schema.
pub open spec fn meta_error(c: SchemaConfig, k: Seq<char>, v: JsonV) -> Option<Seq<char>> {
    if !c.fields@.dom().contains(k) {
        Some("unknown metadata field `"@ + k + "` — not declared in schema [fields]"@)
    } else {
        match value_error(c.fields@[k].kind@, v) {
            Some(e) => Some("metadata field `"@ + k + "`: "@ + e),
            None => None,
        }
    }
}

/// The first `n` metadata entries, or what is wrong with the first bad one.
pub open spec fn checked_meta(c: SchemaConfig, m: Seq<(Seq<char>, JsonV)>, n: nat) -> Result<
    Seq<(Seq<char>, JsonV)>,
    Seq<char>,
>
    decreases n,
{
    if n == 0 || n > m.len() {
        Ok(Seq::empty())
    } else {
        match checked_meta(c, m, (n - 1) as nat) {
            Err(e) => Err(e),
            Ok(done) => match meta_error(c, m[n - 1].0, m[n - 1].1) {
                Some(e) => Err(e),
                None => Ok(json::with_entry(done, m[n - 1].0, m[n - 1].1)),
            },
        }
    }
}

proof fn lemma_meta_error(c: SchemaConfig, m: Seq<(Seq<char>, JsonV)>, i: nat, n: nat)
    requires
        i <= n <= m.len(),
        checked_meta(c, m, i) is Err,
    ensures
        checked_meta(c, m, n) == checked_meta(c, m, i),
    decreases n - i,
{
    if i < n {
        lemma_meta_error(c, m, i, (n - 1) as nat);
    }
}

fn check_meta_entry(c: &SchemaConfig, k: &str, v: &Json) -> (r: Result<(), String>)
    requires
        c.wf(),
    ensures
        (match r {
            Ok(_) => meta_error(*c, k@, v@) is None,
            Err(e) => meta_error(*c, k@, v@) == Some(e@),
        }),
{
    match c.fields.get(k) {
        None => Err(
            text::cat3("unknown metadata field `", k, "` — not declared in schema [fields]"),
        ),
        Some(f) => match validate_field_value(f.kind.as_str(), v) {
            Ok(_) => Ok(()),
            Err(e) => {
                let mut m: String = text::cat3("metadata field `", k, "`: ");
                m.append(e.as_str());
                Err(m)
            },
        },
    }
}

/// Checks metadata against the schema: every key a field, every value of the
/// field's type.
pub fn check_metadata(c: &SchemaConfig, m: &Vec<(String, Json)>) -> (r: Result<
    Vec<(String, Json)>,
    String,
>)
    requires
        c.wf(),
    ensures
        (match r {
            Ok(x) => checked_meta(*c, json::entries(m@), m@.len()) == Ok::<
                Seq<(Seq<char>, JsonV)>,
                Seq<char>,
            >(json::entries(x@)),
            Err(e) => checked_meta(*c, json::entries(m@), m@.len()) == Err::<
                Seq<(Seq<char>, JsonV)>,
                Seq<char>,
            >(e@),
        }),
{
    let ghost e = json::entries(m@);
    let n: usize = m.len();
    let mut out: Vec<(String, Json)> = Vec::new();
    let mut i: usize = 0;
    assert(json::entries(out@) =~= Seq::empty());
    while i < n
        invariant
            c.wf(),
            n == m@.len(),
            e == json::entries(m@),
            i <= n,
            checked_meta(*c, e, i as nat) == Ok::<Seq<(Seq<char>, JsonV)>, Seq<char>>(
                json::entries(out@),
            ),
        decreases n - i,
    {
        assert(e[i as int] == (m@[i as int].0@, m@[i as int].1@));
        match check_meta_entry(c, m[i].0.as_str(), &m[i].1) {
            Err(msg) => {
                proof {
                    lemma_meta_error(*c, e, (i + 1) as nat, n as nat);
                }
                return Err(msg);
            },
            Ok(_) => {
                json::put(&mut out, m[i].0.as_str(), m[i].1.copy());
            },
        }
        i = i + 1;
    }
    Ok(out)
}

/// Metadata is accepted exactly where it can be stored: the check made before
/// a write and the write itself agree on every value.
pub proof fn law_metadata_check_agrees_with_storage(f: schema::FieldConfig, v: JsonV)
    requires
        !f.required,
    ensures
        v is Null ==> store::cell_of(f, Some(v)) is Ok,
        !(v is Null) ==> (value_error(f.kind@, v) is None) == (store::cell_of(f, Some(v)) is Ok),
{
    reveal_strlit("string");
    reveal_strlit("text");
    reveal_strlit("bool");
    reveal_strlit("int64");
    reveal_strlit("float32");
    reveal_strlit("timestamp");
    reveal_strlit("list<string>");
    assert("string"@.len() == 6 && "int64"@.len() == 5 && "float32"@.len() == 7);
    assert("timestamp"@.len() == 9 && "list<string>"@.len() == 12 && "bool"@.len() == 4);
    assert("text"@.len() == 4 && "text"@[0] != "bool"@[0]);
    match v {
        JsonV::Arr(s) => {
            lemma_text_list(s, s.len());
            assert(is_text_list(v) <==> store::item_texts(s, s.len()) is Some);
        },
        _ => {},
    }
}

proof fn lemma_text_list(s: Seq<JsonV>, n: nat)
    requires
        n <= s.len(),
    ensures
        store::item_texts(s, n) is Some <==> forall|i: int|
            0 <= i < n ==> (#[trigger] s[i]) is Str,
    decreases n,
{
    if n > 0 {
        lemma_text_list(s, (n - 1) as nat);
        assert(s[n - 1] is Str <==> json::string_of(s[n - 1]) is Some);
    }
}

// ---------------------------------------------------------------------------
// Documents to add
// ---------------------------------------------------------------------------

/// `e` with a text under `key`, unless it has that key.
pub open spec fn with_default(e: Seq<(Seq<char>, JsonV)>, key: Seq<char>, t: Seq<char>) -> Seq<
    (Seq<char>, JsonV),
> {
    if json::lookup(e, key) is Some {
        e
    } else {
        json::with_entry(e, key, JsonV::Str(t))
    }
}

/// The values of a document with its path and type filled in, where the schema
/// has fields for them.
pub open spec fn with_source(
    c: SchemaConfig,
    e: Seq<(Seq<char>, JsonV)>,
    path: Seq<char>,
    kind: Seq<char>,
) -> Seq<(Seq<char>, JsonV)> {
    let a = if c.fields@.dom().contains("source_path"@) {
        with_default(e, "source_path"@, path)
    } else {
        e
    };
    if c.fields@.dom().contains("source_type"@) {
        with_default(a, "source_type"@, kind)
    } else {
        a
    }
}

/// Fills in the path and the type of a document, where the schema has fields
/// for them and they are not given.
pub fn fill_source(c: &SchemaConfig, e: &mut Vec<(String, Json)>, path: &str, kind: &str)
    requires
        c.wf(),
    ensures
        json::entries(final(e)@) == with_source(*c, json::entries(old(e)@), path@, kind@),
{
    if c.fields.contains("source_path") {
        let missing: bool = json::find(e, "source_path").is_none();
        if missing {
            json::put(e, "source_path", Json::string(path));
        }
    }
    if c.fields.contains("source_type") {
        let missing: bool = json::find(e, "source_type").is_none();
        if missing {
            json::put(e, "source_type", Json::string(kind));
        }
    }
}

/// The language of a document: the one given, else by its path.
pub open spec fn language_of(given: Option<Seq<char>>, path: Seq<char>) -> Seq<char> {
    match given {
        Some(l) => l,
        None => if ".md"@.is_suffix_of(path) || ".markdown"@.is_suffix_of(path) {
            "markdown"@
        } else {
            "plain"@
        },
    }
}

/// The metadata argument, or nothing where there is none.
pub open spec fn meta_of(args: JsonV) -> Seq<(Seq<char>, JsonV)> {
    match json::field(args, "metadata"@) {
        Some(JsonV::Obj(e)) => e,
        _ => Seq::empty(),
    }
}

/// Whether `d` is the document that the arguments ask to add. Its id is the
/// hash of its text, so the same text is the same document.
pub open spec fn is_new_document(c: SchemaConfig, args: JsonV, d: InputDoc) -> bool {
    let body = text_or(args, "text"@, Seq::empty());
    let path = text_or(args, "source_path"@, "inline"@);
    let kind = text_or(args, "source_type"@, "text"@);
    let meta = checked_meta(c, meta_of(args), meta_of(args).len());
    &&& meta is Ok
    &&& d.id@ == hash::blake3_hex(body)
    &&& d.raw_text@ == body
    &&& d.source_path@ == path
    &&& d.source_type@ == kind
    &&& store::opt_view(d.language) == Some(
        language_of(json::text_field(args, "language"@), path),
    )
    &&& json::entries(d.extra@) == with_source(c, meta->Ok_0, path, kind)
    &&& d.vectors.wf()
    &&& d.vectors@ == Map::<Seq<char>, Vec<u32>>::empty()
}

/// Reads the document that the arguments ask to add.
pub fn new_document(c: &SchemaConfig, args: &Json) -> (r: Result<InputDoc, String>)
    requires
        c.wf(),
    ensures
        ({
            let body = text_or(args@, "text"@, Seq::empty());
            match r {
                Ok(d) => body.len() > 0 && is_new_document(*c, args@, d),
                Err(e) => if body.len() == 0 {
                    e@ == "text is required"@
                } else {
                    checked_meta(*c, meta_of(args@), meta_of(args@).len()) == Err::<
                        Seq<(Seq<char>, JsonV)>,
                        Seq<char>,
                    >(e@)
                },
            }
        }),
{
    proof {
        reveal_strlit("");
    }
    let body: String = text_arg(args, "text", "");
    assert(""@ =~= Seq::<char>::empty());
    if body.as_str().is_empty() {
        return Err("text is required".to_string());
    }
    let path: String = text_arg(args, "source_path", "inline");
    let kind: String = text_arg(args, "source_type", "text");
    let none: Vec<(String, Json)> = Vec::new();
    assert(json::entries(none@) =~= Seq::empty());
    let meta: &Vec<(String, Json)> = match args.get("metadata") {
        Some(m) => match m.as_object() {
            Some(e) => e,
            None => &none,
        },
        None => &none,
    };
    assert(json::entries(meta@) == meta_of(args@));
    let mut extra: Vec<(String, Json)> = match check_metadata(c, meta) {
        Ok(e) => e,
        Err(e) => {
            return Err(e);
        },
    };
    fill_source(c, &mut extra, path.as_str(), kind.as_str());
    let language: String = match args.str_field("language") {
        Some(l) => l.to_string(),
        None => if text::ends_with(path.as_str(), ".md") || text::ends_with(
            path.as_str(),
            ".markdown",
        ) {
            "markdown".to_string()
        } else {
            "plain".to_string()
        },
    };
    Ok(
        InputDoc {
            id: hash::content_hash(body.as_str()),
            raw_text: body,
            source_path: path,
            source_type: kind,
            language: Some(language),
            extra,
            vectors: Dict::new(),
        },
    )
}

/// The conditions that the first `n` keys have the values of the new document,
/// if it has all of them. A value that is not a text counts as empty where
/// `lenient`, else as missing.
pub open spec fn key_conditions(
    keys: Seq<Seq<char>>,
    e: Seq<(Seq<char>, JsonV)>,
    lenient: bool,
    n: nat,
) -> Option<Seq<Seq<char>>>
    decreases n,
{
    if n == 0 || n > keys.len() {
        Some(Seq::empty())
    } else {
        match (key_conditions(keys, e, lenient, (n - 1) as nat), json::lookup(e, keys[n - 1])) {
            (Some(cs), Some(v)) => match json::string_of(v) {
                Some(t) => Some(cs.push(keys[n - 1] + " = "@ + text::quoted(t))),
                None => if lenient {
                    Some(cs.push(keys[n - 1] + " = "@ + text::quoted(Seq::empty())))
                } else {
                    None
                },
            },
            _ => None,
        }
    }
}

/// The condition that finds the versions a new document replaces; nothing
/// where there are no keys or the document lacks one.
pub open spec fn replaced_sql(
    keys: Seq<Seq<char>>,
    e: Seq<(Seq<char>, JsonV)>,
    lenient: bool,
) -> Option<Seq<char>> {
    if keys.len() == 0 {
        None
    } else {
        match key_conditions(keys, e, lenient, keys.len()) {
            Some(cs) => Some(text::joined(cs, " AND "@)),
            None => None,
        }
    }
}

proof fn lemma_key_missing(
    keys: Seq<Seq<char>>,
    e: Seq<(Seq<char>, JsonV)>,
    lenient: bool,
    i: nat,
    n: nat,
)
    requires
        i <= n <= keys.len(),
        key_conditions(keys, e, lenient, i) is None,
    ensures
        key_conditions(keys, e, lenient, n) is None,
    decreases n - i,
{
    if i < n {
        lemma_key_missing(keys, e, lenient, i, (n - 1) as nat);
    }
}

/// The condition that finds the versions a new document replaces.
pub fn replace_filter(keys: &Vec<String>, extra: &Vec<(String, Json)>, lenient: bool) -> (r: Option<
    String,
>)
    ensures
        store::opt_view(r) == replaced_sql(text::texts(keys@), json::entries(extra@), lenient),
{
    if keys.len() == 0 {
        return None;
    }
    proof {
        reveal_strlit("");
        assert(""@ =~= Seq::<char>::empty());
    }
    let ghost ks = text::texts(keys@);
    let ghost e = json::entries(extra@);
    let n: usize = keys.len();
    let mut conds: Vec<String> = Vec::new();
    let mut i: usize = 0;
    assert(text::texts(conds@) =~= Seq::empty());
    while i < n
        invariant
            n == keys@.len(),
            n > 0,
            ks == text::texts(keys@),
            e == json::entries(extra@),
            i <= n,
            ""@ == Seq::<char>::empty(),
            key_conditions(ks, e, lenient, i as nat) == Some(text::texts(conds@)),
        decreases n - i,
    {
        let found: Option<&Json> = json::find(extra, keys[i].as_str());
        let t: Option<String> = match found {
            None => None,
            Some(v) => match v.as_str() {
                Some(s) => Some(s.to_string()),
                None => if lenient {
                    Some("".to_string())
                } else {
                    None
                },
            },
        };
        match t {
            None => {
                proof {
                    lemma_key_missing(ks, e, lenient, (i + 1) as nat, n as nat);
                }
                return None;
            },
            Some(t) => {
                let q: String = text::quote(t.as_str());
                text::push_text(&mut conds, text::cat3(keys[i].as_str(), " = ", q.as_str()));
            },
        }
        i = i + 1;
    }
    Some(text::join(&conds, " AND "))
}

/// The ids of the first `n` rows other than `id`.
pub open spec fn other_ids(rows: Seq<RecordV>, id: Seq<char>, n: nat) -> Seq<Seq<char>>
    decreases n,
{
    if n == 0 || n > rows.len() {
        Seq::empty()
    } else if rows[n - 1].id == id {
        other_ids(rows, id, (n - 1) as nat)
    } else {
        other_ids(rows, id, (n - 1) as nat).push(rows[n - 1].id)
    }
}

/// The versions to delete: those found, but not the new document itself.
pub fn replaced_ids(found: &Vec<Record>, new_id: &str) -> (r: Vec<String>)
    ensures
        text::texts(r@) == other_ids(store::records(found@), new_id@, found@.len()),
{
    let ghost s = store::records(found@);
    let mut out: Vec<String> = Vec::new();
    let mut i: usize = 0;
    assert(text::texts(out@) =~= Seq::empty());
    while i < found.len()
        invariant
            s == store::records(found@),
            i <= found@.len(),
            text::texts(out@) == other_ids(s, new_id@, i as nat),
        decreases found@.len() - i,
    {
        assert(s[i as int] == found@[i as int]@);
        if !text::same(found[i].id.as_str(), new_id) {
            text::push_text(&mut out, found[i].id.clone());
        }
        i = i + 1;
    }
    out
}

/// A new document never replaces itself.
pub proof fn law_replacing_spares_the_new_document(rows: Seq<RecordV>, id: Seq<char>, n: nat)
    ensures
        !other_ids(rows, id, n).contains(id),
    decreases n,
{
    if n > 0 && n <= rows.len() {
        law_replacing_spares_the_new_document(rows, id, (n - 1) as nat);
        let before = other_ids(rows, id, (n - 1) as nat);
        let now = other_ids(rows, id, n);
        if now.contains(id) {
            let i = now.index_of(id);
            if i < before.len() {
                assert(before[i] == id);
            }
        }
    }
}

/// The version that was replaced, where exactly one was.
pub fn single_replaced(deleted: &Vec<String>) -> (r: Option<String>)
    ensures
        store::opt_view(r) == (if deleted@.len() == 1 {
            Some(deleted@[0]@)
        } else {
            None
        }),
{
    if deleted.len() == 1 {
        Some(deleted[0].clone())
    } else {
        None
    }
}

/// The answer to a document that was added.
pub open spec fn added_text(
    id: Seq<char>,
    chunks: nat,
    replaced: Option<Seq<char>>,
    graph_error: Option<Seq<char>>,
) -> Seq<char> {
    "文档已写入，id: "@ + id + "（chunks: "@ + text::decimal(chunks) + "）"@ + (match replaced {
        Some(o) => "（已按 replace_key 替换旧版本 "@ + o + "）"@,
        None => Seq::empty(),
    }) + (match graph_error {
        Some(e) => "（注意：图谱镜像失败，LanceDB 已写入: "@ + e + "）"@,
        None => Seq::empty(),
    })
}

/// The answer to a document that was added: its id, how many chunks it has,
/// the last version it replaced, and why it is not in the graph.
pub fn added_reply(
    id: &str,
    chunks: usize,
    replaced: &Vec<String>,
    graph_error: Option<&str>,
) -> (r: Json)
    ensures
        r@ == text_value(
            added_text(
                id@,
                chunks as nat,
                if replaced@.len() == 0 {
                    None
                } else {
                    Some(replaced@.last()@)
                },
                crate::chunker::opt_text(graph_error),
            ),
        ),
{
    let n: String = text::usize_text(chunks);
    let mut m: String = text::cat5("文档已写入，id: ", id, "（chunks: ", n.as_str(), "）");
    let old: String = if replaced.len() == 0 {
        String::new()
    } else {
        text::cat3(
            "（已按 replace_key 替换旧版本 ",
            replaced[replaced.len() - 1].as_str(),
            "）",
        )
    };
    m.append(old.as_str());
    let note: String = match graph_error {
        Some(e) => text::cat3("（注意：图谱镜像失败，LanceDB 已写入: ", e, "）"),
        None => String::new(),
    };
    m.append(note.as_str());
    text_reply(m.as_str())
}

/// The document that is deleted with a row: the one it is a chunk of, or the
/// row itself.
pub fn delete_target(existing: &Record) -> (r: String)
    ensures
        r@ == (match existing@.parent_doc_id {
            Some(p) => p,
            None => existing@.id,
        }),
{
    match &existing.parent_doc_id {
        Some(p) => p.clone(),
        None => existing.id.clone(),
    }
}

/// What is said of a document that was deleted.
pub open spec fn removed_text(target: Seq<char>, graph_error: Option<Seq<char>>) -> Seq<char> {
    "文档 "@ + target + " 已删除（chunks 级联清理）"@ + (match graph_error {
        Some(e) =>
            "（注意：图谱侧删除失败（pipeline busy 等），lightrag 可能仍有残留；                     稍后重试同一命令即可补删: "@
            + e + "）"@,
        None => Seq::empty(),
    })
}

/// Says that a document was deleted, and why it may still be in the graph.
pub fn deleted_text(target: &str, graph_error: Option<&str>) -> (r: String)
    ensures
        r@ == removed_text(target@, crate::chunker::opt_text(graph_error)),
{
    let mut m: String = text::cat3("文档 ", target, " 已删除（chunks 级联清理）");
    let note: String = match graph_error {
        Some(e) => text::cat3(
            "（注意：图谱侧删除失败（pipeline busy 等），lightrag 可能仍有残留；                     稍后重试同一命令即可补删: ",
            e,
            "）",
        ),
        None => String::new(),
    };
    m.append(note.as_str());
    m
}

// ---------------------------------------------------------------------------
// Updates and lists
// ---------------------------------------------------------------------------

/// A change to the metadata of a document.
#[derive(Debug, PartialEq, Eq)]
pub struct Update {
    pub id: String,
    /// The fields and their new values; null clears a field.
    pub values: Vec<(String, Json)>,
    /// Whether the chunks of the document change too.
    pub cascade: bool,
}

/// Whether `u` is the change that the arguments ask for.
pub open spec fn is_update(c: SchemaConfig, args: JsonV, u: Update) -> bool {
    &&& u.id@ == text_or(args, "id"@, Seq::empty())
    &&& checked_meta(c, meta_of(args), meta_of(args).len()) == Ok::<
        Seq<(Seq<char>, JsonV)>,
        Seq<char>,
    >(json::entries(u.values@))
    &&& u.cascade == flag_or(args, "cascade"@, true)
}

/// Why the arguments ask for no change, if they do not.
pub open spec fn update_error(c: SchemaConfig, args: JsonV) -> Option<Seq<char>> {
    if text_or(args, "id"@, Seq::empty()).len() == 0 {
        Some("id is required"@)
    } else if !(json::field(args, "metadata"@) is Some && json::field(args, "metadata"@)->0 is Obj)
    {
        Some("metadata object is required"@)
    } else if meta_of(args).len() == 0 {
        Some("metadata is empty — provide at least one schema field"@)
    } else {
        match checked_meta(c, meta_of(args), meta_of(args).len()) {
            Err(e) => Some(e),
            Ok(_) => None,
        }
    }
}

/// Reads the change that the arguments ask for; every key is checked before
/// anything is changed.
pub fn read_update(c: &SchemaConfig, args: &Json) -> (r: Result<Update, String>)
    requires
        c.wf(),
    ensures
        (match r {
            Ok(u) => update_error(*c, args@) is None && is_update(*c, args@, u),
            Err(e) => update_error(*c, args@) == Some(e@),
        }),
{
    proof {
        reveal_strlit("");
        assert(""@ =~= Seq::<char>::empty());
    }
    let id: String = text_arg(args, "id", "");
    if id.as_str().is_empty() {
        return Err("id is required".to_string());
    }
    let meta: &Vec<(String, Json)> = match args.get("metadata") {
        Some(m) => match m.as_object() {
            Some(e) => e,
            None => {
                return Err("metadata object is required".to_string());
            },
        },
        None => {
            return Err("metadata object is required".to_string());
        },
    };
    if meta.len() == 0 {
        return Err("metadata is empty — provide at least one schema field".to_string());
    }
    match check_metadata(c, meta) {
        Err(e) => Err(e),
        Ok(values) => Ok(Update { id, values, cascade: flag_arg(args, "cascade", true) }),
    }
}

/// Whether a new value clears its field: null or an empty list.
pub fn clears(v: &Json) -> (r: bool)
    ensures
        r == (v@ is Null || v@ == JsonV::Arr(Seq::empty())),
{
    match v {
        Json::Null => true,
        _ => match v.as_array() {
            Some(a) => {
                if a.len() == 0 {
                    assert(json::items(a@) =~= Seq::empty());
                    true
                } else {
                    assert(json::items(a@).len() != 0);
                    false
                }
            },
            None => false,
        },
    }
}

/// The SQL value that a field of the type `t` is set to, or why there is none.
pub open spec fn new_value(t: Seq<char>, v: JsonV) -> Result<Seq<char>, Seq<char>> {
    if v is Null || v == JsonV::Arr(Seq::empty()) {
        Ok("NULL"@)
    } else if t == "list<string>"@ {
        match json::array_of(v) {
            Some(s) => match store::item_texts(s, s.len()) {
                Some(ts) => Ok(
                    "make_array("@ + text::joined(store::quoted_all(ts), ", "@) + ")"@,
                ),
                None => Err("expected list<string>"@),
            },
            None => Err("expected array"@),
        }
    } else {
        query::literal(t, v)
    }
}

/// The SQL value that a field of the type `t` is set to.
pub fn update_value(t: &str, v: &Json) -> (r: Result<String, String>)
    ensures
        query::outcome(r, new_value(t@, v@)),
{
    if clears(v) {
        Ok("NULL".to_string())
    } else if text::same(t, "list<string>") {
        match v.as_array() {
            Some(a) => match store::texts_of(a) {
                Some(ts) => {
                    let list: String = text::join(&store::quote_all(&ts), ", ");
                    Ok(text::cat3("make_array(", list.as_str(), ")"))
                },
                None => Err("expected list<string>".to_string()),
            },
            None => Err("expected array".to_string()),
        }
    } else {
        query::value_to_sql(t, v)
    }
}

/// The condition on the rows that a change applies to.
pub fn update_filter(u: &Update) -> (r: String)
    ensures
        r@ == (if u.cascade {
            "(id = "@ + text::quoted(u.id@) + " OR parent_doc_id = "@ + text::quoted(u.id@) + ")"@
        } else {
            "id = "@ + text::quoted(u.id@)
        }),
{
    if u.cascade {
        store::delete_filter(u.id.as_str())
    } else {
        store::id_filter(u.id.as_str())
    }
}

/// The answer to a change: how many rows it was made to, or why it failed.
pub fn updated_reply(changed: &Result<u64, String>, u: &Update) -> (r: Json)
    ensures
        r@ == (match changed {
            Ok(n) => text_value(
                "已更新 "@ + text::decimal(*n as nat) + " 行（id="@ + u.id@ + ", cascade="@ + (
                if u.cascade {
                    "true"@
                } else {
                    "false"@
                }) + "）"@,
            ),
            Err(e) => error_value("update failed: "@ + e@),
        }),
{
    let n: u64 = match changed {
        Ok(n) => *n,
        Err(e) => {
            return step_error("update failed: ", e.as_str());
        },
    };
    let d: String = text::decimal_text(n);
    let b: &str = if u.cascade {
        "true"
    } else {
        "false"
    };
    let m: String = text::cat7(
        "已更新 ",
        d.as_str(),
        " 行（id=",
        u.id.as_str(),
        ", cascade=",
        b,
        "）",
    );
    text_reply(m.as_str())
}

/// A row with the beginning of its text besides.
pub open spec fn listed_value(d: RecordV) -> JsonV {
    let start = if d.raw_text.len() > 200 {
        d.raw_text.take(200)
    } else {
        d.raw_text
    };
    JsonV::Obj(
        json::with_entry(
            query::record_value(d)->Obj_0,
            "raw_text_preview"@,
            JsonV::Str(start),
        ),
    )
}

fn listed_json(d: &Record) -> (r: Json)
    ensures
        r@ == listed_value(d@),
{
    let v: Vec<char> = text::chars_of(d.raw_text.as_str());
    let n: usize = if v.len() > 200 {
        200
    } else {
        v.len()
    };
    let start: String = text::text_range(&v, 0, n);
    assert(start@ =~= (if d@.raw_text.len() > 200 {
        d@.raw_text.take(200)
    } else {
        d@.raw_text
    }));
    let whole: Json = query::record_json(d);
    match whole {
        Json::Obj(e) => {
            let mut e: Vec<(String, Json)> = e;
            proof {
                json::lemma_obj_view(e);
            }
            json::put(&mut e, "raw_text_preview", Json::Str(start));
            proof {
                json::lemma_obj_view(e);
            }
            Json::Obj(e)
        },
        other => {
            assert(false);
            other
        },
    }
}

/// The answer to a request for a page of documents.
pub fn list_reply(listed: &Result<Vec<Record>, String>) -> (r: Json)
    ensures
        r@ == (match listed {
            Ok(docs) => text_value(
                json::pretty_text(
                    JsonV::Arr(
                        Seq::new(docs@.len(), |i: int| listed_value(store::records(docs@)[i])),
                    ),
                ),
            ),
            Err(e) => error_value("list failed: "@ + e@),
        }),
{
    let docs: &Vec<Record> = match listed {
        Ok(docs) => docs,
        Err(e) => {
            return step_error("list failed: ", e.as_str());
        },
    };
    let ghost want = Seq::new(docs@.len(), |i: int| listed_value(store::records(docs@)[i]));
    let mut out: Vec<Json> = Vec::new();
    let mut i: usize = 0;
    assert(json::items(out@) =~= want.take(0));
    while i < docs.len()
        invariant
            want == Seq::new(docs@.len(), |i: int| listed_value(store::records(docs@)[i])),
            i <= docs@.len(),
            json::items(out@) == want.take(i as int),
        decreases docs@.len() - i,
    {
        let ghost was = json::items(out@);
        let j: Json = listed_json(&docs[i]);
        assert(want[i as int] == j@);
        out.push(j);
        assert(json::items(out@) =~= was.push(j@));
        i = i + 1;
        assert(want.take(i as int) =~= want.take(i - 1).push(want[i - 1]));
    }
    assert(want.take(i as int) =~= want);
    proof {
        json::lemma_arr_view(out);
    }
    let t: String = Json::Arr(out).pretty();
    text_reply(t.as_str())
}

// ---------------------------------------------------------------------------
// What a call asks for
// ---------------------------------------------------------------------------

/// The kind of a search.
#[derive(Debug, Clone, Copy, PartialEq, Eq, Structural)]
pub enum SearchKind {
    Semantic(ExpandTo),
    FullText,
    Reranked,
}

/// A question to the graph.
#[derive(Debug, PartialEq, Eq)]
pub struct GraphAsk {
    pub text: String,
    pub limit: usize,
    pub filter: Option<Filter>,
    /// Whether an answer in words is wanted.
    pub want_answer: bool,
    pub params: GraphQueryParams,
}

/// How the graph is asked: for words where they are wanted, else for data.
pub fn graph_mode(a: &GraphAsk) -> (m: GraphMode)
    ensures
        m == (if a.want_answer {
            GraphMode::Hybrid
        } else {
            GraphMode::Data
        }),
{
    if a.want_answer {
        GraphMode::Hybrid
    } else {
        GraphMode::Data
    }
}

/// What a call asks for.
#[derive(Debug)]
pub enum Plan {
    Refuse(String),
    Search { kind: SearchKind, text: String, limit: usize, filter: Option<Filter> },
    Graph(GraphAsk),
    Hybrid(GraphAsk),
    Get(String),
    Stats,
    Add(InputDoc),
    Delete(String),
    Change(Update),
    List { limit: usize, offset: u64 },
}

/// Whether `name` is one of the searches.
pub open spec fn is_search(name: Seq<char>) -> bool {
    ||| name == "query_semantic"@
    ||| name == "query_text"@
    ||| name == "query_reranked"@
    ||| name == "query_graph"@
    ||| name == "query_hybrid"@
}

/// A size argument.
pub open spec fn size_of(args: JsonV, key: Seq<char>) -> Option<usize> {
    match count_of(args, key) {
        Some(n) => Some(n as usize),
        None => None,
    }
}

/// The sizes that the arguments set.
pub open spec fn params_of(args: JsonV) -> GraphQueryParams {
    GraphQueryParams {
        chunk_top_k: size_of(args, "chunk_top_k"@),
        max_entity_tokens: size_of(args, "max_entity_tokens"@),
        max_relation_tokens: size_of(args, "max_relation_tokens"@),
        max_total_tokens: size_of(args, "max_total_tokens"@),
    }
}

/// The expansion that the arguments ask for; chunks where they say nothing.
pub open spec fn expand_of(args: JsonV) -> ExpandTo {
    match json::text_field(args, "expand_to"@) {
        Some(s) => query::expansion_named(s),
        None => ExpandTo::Chunk,
    }
}

/// Whether `a` is the question that the arguments ask.
pub open spec fn is_ask(args: JsonV, f: Option<(PredV, Seq<char>)>, a: GraphAsk) -> bool {
    &&& a.text@ == text_or(args, "text"@, Seq::empty())
    &&& a.limit == limit_of(args, 10)
    &&& filter_view(a.filter) == f
    &&& a.want_answer == flag_or(args, "answer"@, false)
    &&& a.params == params_of(args)
}

/// Whether `p` is what a call of a search asks for.
pub open spec fn is_search_plan(c: SchemaConfig, name: Seq<char>, args: JsonV, p: Plan) -> bool {
    let t = text_or(args, "text"@, Seq::empty());
    if t.len() == 0 {
        p matches Plan::Refuse(m) && m@ == "text is required"@
    } else {
        match filter_of(c, json::field(args, "filter"@)) {
            Err(e) => p matches Plan::Refuse(m) && m@ == "invalid filter: "@ + e,
            Ok(f) => if name == "query_graph"@ {
                p matches Plan::Graph(a) && is_ask(args, f, a)
            } else if name == "query_hybrid"@ {
                p matches Plan::Hybrid(a) && is_ask(args, f, a)
            } else {
                p matches Plan::Search { kind, text, limit, filter } && text@ == t && limit
                    == limit_of(args, 10) && filter_view(filter) == f && kind == (if name
                    == "query_text"@ {
                    SearchKind::FullText
                } else if name == "query_reranked"@ {
                    SearchKind::Reranked
                } else {
                    SearchKind::Semantic(expand_of(args))
                })
            },
        }
    }
}

/// Whether `p` is what a call of the tool `name` asks for.
pub open spec fn is_plan(c: SchemaConfig, name: Seq<char>, args: JsonV, p: Plan) -> bool {
    let id = text_or(args, "id"@, Seq::empty());
    if is_search(name) {
        is_search_plan(c, name, args, p)
    } else if name == "get_document"@ {
        if id.len() == 0 {
            p matches Plan::Refuse(m) && m@ == "id is required"@
        } else {
            p matches Plan::Get(i) && i@ == id
        }
    } else if name == "stats"@ {
        p is Stats
    } else if name == "add_document"@ {
        let body = text_or(args, "text"@, Seq::empty());
        if body.len() == 0 {
            p matches Plan::Refuse(m) && m@ == "text is required"@
        } else {
            match checked_meta(c, meta_of(args), meta_of(args).len()) {
                Err(e) => p matches Plan::Refuse(m) && m@ == e,
                Ok(_) => p matches Plan::Add(d) && is_new_document(c, args, d),
            }
        }
    } else if name == "delete_document"@ {
        if id.len() == 0 {
            p matches Plan::Refuse(m) && m@ == "id is required"@
        } else {
            p matches Plan::Delete(i) && i@ == id
        }
    } else if name == "update_document_metadata"@ {
        match update_error(c, args) {
            Some(e) => p matches Plan::Refuse(m) && m@ == e,
            None => p matches Plan::Change(u) && is_update(c, args, u),
        }
    } else if name == "list_documents"@ {
        p matches Plan::List { limit, offset } && limit == limit_of(args, 20) && offset == (
        match count_of(args, "offset"@) {
            Some(n) => n,
            None => 0,
        })
    } else {
        p matches Plan::Refuse(m) && m@ == "unknown tool: "@ + name
    }
}

fn size_arg(args: &Json, key: &str) -> (r: Option<usize>)
    ensures
        r == size_of(args@, key@),
{
    match count_arg(args, key) {
        Some(n) => Some(n as usize),
        None => None,
    }
}

fn read_params(args: &Json) -> (r: GraphQueryParams)
    ensures
        r == params_of(args@),
{
    GraphQueryParams {
        chunk_top_k: size_arg(args, "chunk_top_k"),
        max_entity_tokens: size_arg(args, "max_entity_tokens"),
        max_relation_tokens: size_arg(args, "max_relation_tokens"),
        max_total_tokens: size_arg(args, "max_total_tokens"),
    }
}

fn plan_search(c: &SchemaConfig, name: &str, args: &Json) -> (r: Plan)
    requires
        c.wf(),
    ensures
        is_search_plan(*c, name@, args@, r),
{
    proof {
        reveal_strlit("");
        assert(""@ =~= Seq::<char>::empty());
    }
    let t: String = text_arg(args, "text", "");
    if t.as_str().is_empty() {
        return Plan::Refuse("text is required".to_string());
    }
    let limit: usize = limit_arg(args, 10);
    let filter: Option<Filter> = match compile_filter(c, args.get("filter")) {
        Ok(f) => f,
        Err(e) => {
            return Plan::Refuse(text::cat2("invalid filter: ", e.as_str()));
        },
    };
    let graph: bool = text::same(name, "query_graph");
    let hybrid: bool = text::same(name, "query_hybrid");
    if graph || hybrid {
        let a: GraphAsk = GraphAsk {
            text: t,
            limit,
            filter,
            want_answer: flag_arg(args, "answer", false),
            params: read_params(args),
        };
        return if graph {
            Plan::Graph(a)
        } else {
            Plan::Hybrid(a)
        };
    }
    let kind: SearchKind = if text::same(name, "query_text") {
        SearchKind::FullText
    } else if text::same(name, "query_reranked") {
        SearchKind::Reranked
    } else {
        let e: ExpandTo = match args.str_field("expand_to") {
            Some(s) => ExpandTo::parse(s),
            None => ExpandTo::Chunk,
        };
        SearchKind::Semantic(e)
    };
    Plan::Search { kind, text: t, limit, filter }
}

/// Reads what a call of the tool `name` asks for; a call that asks for nothing
/// that can be done is refused with the reason.
pub fn plan(c: &SchemaConfig, name: &str, args: &Json) -> (r: Plan)
    requires
        c.wf(),
    ensures
        is_plan(*c, name@, args@, r),
{
    proof {
        reveal_strlit("");
        assert(""@ =~= Seq::<char>::empty());
    }
    if text::same(name, "query_semantic") || text::same(name, "query_text") || text::same(
        name,
        "query_reranked",
    ) || text::same(name, "query_graph") || text::same(name, "query_hybrid") {
        return plan_search(c, name, args);
    }
    if text::same(name, "get_document") {
        let id: String = text_arg(args, "id", "");
        if id.as_str().is_empty() {
            return Plan::Refuse("id is required".to_string());
        }
        return Plan::Get(id);
    }
    if text::same(name, "stats") {
        return Plan::Stats;
    }
    if text::same(name, "add_document") {
        return match new_document(c, args) {
            Ok(d) => Plan::Add(d),
            Err(e) => Plan::Refuse(e),
        };
    }
    if text::same(name, "delete_document") {
        let id: String = text_arg(args, "id", "");
        if id.as_str().is_empty() {
            return Plan::Refuse("id is required".to_string());
        }
        return Plan::Delete(id);
    }
    if text::same(name, "update_document_metadata") {
        return match read_update(c, args) {
            Ok(u) => Plan::Change(u),
            Err(e) => Plan::Refuse(e),
        };
    }
    if text::same(name, "list_documents") {
        let offset: u64 = match count_arg(args, "offset") {
            Some(n) => n,
            None => 0,
        };
        return Plan::List { limit: limit_arg(args, 20), offset };
    }
    Plan::Refuse(text::cat2("unknown tool: ", name))
}

/// The names of the tools, in the order they are listed.
pub open spec fn tool_names() -> Seq<Seq<char>> {
    seq![
        "query_semantic"@,
        "query_text"@,
        "query_reranked"@,
        "query_graph"@,
        "query_hybrid"@,
        "get_document"@,
        "add_document"@,
        "delete_document"@,
        "update_document_metadata"@,
        "list_documents"@,
        "stats"@,
    ]
}

/// A call of anything but a tool is refused.
pub proof fn law_only_tools_are_called(c: SchemaConfig, name: Seq<char>, args: JsonV, p: Plan)
    requires
        is_plan(c, name, args, p),
        !tool_names().contains(name),
    ensures
        p matches Plan::Refuse(m) && m@ == "unknown tool: "@ + name,
{
    let t = tool_names();
    assert(t[0] == "query_semantic"@ && t[1] == "query_text"@ && t[2] == "query_reranked"@);
    assert(t[3] == "query_graph"@ && t[4] == "query_hybrid"@ && t[5] == "get_document"@);
    assert(t[6] == "add_document"@ && t[7] == "delete_document"@);
    assert(t[8] == "update_document_metadata"@ && t[9] == "list_documents"@ && t[10] == "stats"@);
}

/// Metadata that was checked names only fields of the schema, each with a value
/// of its type: a change touches no other column.
pub proof fn law_changes_touch_fields_only(
    c: SchemaConfig,
    m: Seq<(Seq<char>, JsonV)>,
    n: nat,
    i: int,
)
    requires
        n <= m.len(),
        checked_meta(c, m, n) is Ok,
        0 <= i < checked_meta(c, m, n)->Ok_0.len(),
    ensures
        c.fields@.dom().contains(checked_meta(c, m, n)->Ok_0[i].0),
        value_error(
            c.fields@[checked_meta(c, m, n)->Ok_0[i].0].kind@,
            checked_meta(c, m, n)->Ok_0[i].1,
        ) is None,
    decreases n,
{
    if n > 0 {
        let before = checked_meta(c, m, (n - 1) as nat)->Ok_0;
        let (k, v) = m[n - 1];
        lemma_entry_place(before, k, v, i);
        let now = checked_meta(c, m, n)->Ok_0;
        if now[i] != (k, v) {
            let j = choose|j: int| 0 <= j < before.len() && before[j] == now[i];
            law_changes_touch_fields_only(c, m, (n - 1) as nat, j);
        }
    }
}

/// Every value that was checked can be written: a change that is accepted has
/// an SQL value for each of its fields.
pub proof fn law_accepted_changes_have_values(t: Seq<char>, v: JsonV)
    requires
        value_error(t, v) is None,
    ensures
        new_value(t, v) is Ok,
{
    reveal_strlit("string");
    reveal_strlit("text");
    reveal_strlit("bool");
    reveal_strlit("int64");
    reveal_strlit("float32");
    reveal_strlit("timestamp");
    reveal_strlit("list<string>");
    assert("string"@.len() == 6 && "int64"@.len() == 5 && "float32"@.len() == 7);
    assert("timestamp"@.len() == 9 && "list<string>"@.len() == 12 && "bool"@.len() == 4);
    assert("text"@.len() == 4 && "text"@[0] != "bool"@[0]);
    match v {
        JsonV::Arr(s) => {
            lemma_text_list(s, s.len());
        },
        _ => {},
    }
}

/// An entry after one was put in is that one or was there before.
proof fn lemma_entry_place(e: Seq<(Seq<char>, JsonV)>, key: Seq<char>, v: JsonV, i: int)
    requires
        0 <= i < json::with_entry(e, key, v).len(),
    ensures
        json::with_entry(e, key, v)[i] == (key, v) || exists|j: int|
            0 <= j < e.len() && e[j] == json::with_entry(e, key, v)[i],
    decreases e.len(),
{
    let w = json::with_entry(e, key, v);
    if e.len() > 0 {
        if e[0].0 == key {
            if i > 0 {
                assert(w[i] == e[i]);
            }
        } else if i == 0 {
            assert(e[0] == w[0]);
        } else {
            let rest = e.drop_first();
            lemma_entry_place(rest, key, v, i - 1);
            assert(w[i] == json::with_entry(rest, key, v)[i - 1]);
            if w[i] != (key, v) {
                let j = choose|j: int| 0 <= j < rest.len() && rest[j] == w[i];
                assert(e[j + 1] == w[i]);
            }
        }
    }
}

/// No search and no list gives more than the allowed most.
pub proof fn law_limits_are_capped(args: JsonV, default: int)
    ensures
        limit_of(args, default) <= query::MAX_LIMIT,
{
}

} // verus!
