use semdoc::chunker::Chunk;
use semdoc::dict::Dict;
use semdoc::json::{Json, Number};
use semdoc::query::{
    check_query_dim, expand_leaf_hits, found_order, json_eq, pick_ranked, pred_matches, preview,
    recall_size, record_json, value_to_sql, ExpandTo, Expansion, Pred, MAX_RAW_TEXT_CHARS,
};
use semdoc::schema::{FieldConfig, SchemaConfig, VectorConfig, VectorFieldConfig};
use semdoc::store::Record;

fn field(kind: &str, index: bool) -> FieldConfig {
    FieldConfig { kind: kind.to_string(), index, required: false, replace_key: false }
}

fn test_schema() -> SchemaConfig {
    SchemaConfig {
        table: Default::default(),
        vector: VectorConfig {
            fields: vec![VectorFieldConfig {
                name: "dense_vec".into(),
                dim: 4,
                source: "raw_text".into(),
                metric: "cosine".into(),
                index: "none".into(),
                auto_embed: true,
            }],
        },
        fields: Dict::from_entries(vec![
            ("category".to_string(), field("string", true)),
            ("score".to_string(), field("float32", true)),
            ("priority".to_string(), field("int64", false)),
            ("verified".to_string(), field("bool", false)),
            ("keywords".to_string(), field("list<string>", false)),
            ("notes".to_string(), field("text", false)),
        ]),
        plugins: Default::default(),
    }
}

fn json(s: &str) -> Json {
    Json::parse(s).unwrap()
}

fn pred(s: &str) -> Pred {
    Pred::from_json(&json(s)).unwrap()
}

fn sql(s: &str) -> String {
    pred(s).compile(&test_schema()).unwrap()
}

// --- from_json ---

#[test]
fn from_json_simple_equality() {
    let p = Pred::from_json(&json("{\"category\": \"mm\"}")).unwrap();
    assert_eq!(p, Pred::Eq("category".into(), Json::Str("mm".into())));
}

#[test]
fn from_json_mixed_ops_become_and() {
    let p = Pred::from_json(&json("{\"category\": \"mm\", \"score\": {\"$gte\": 3}}")).unwrap();
    assert!(matches!(p, Pred::And(ps) if ps.len() == 2));
}

#[test]
fn from_json_non_object_is_error() {
    assert!(Pred::from_json(&json("[\"a\"]")).is_err());
    assert!(Pred::from_json(&json("1")).is_err());
}

#[test]
fn from_json_unknown_operator_is_error() {
    let p = Pred::from_json(&json("{\"score\": {\"$regex\": \"x\"}}"));
    assert!(p.is_err());
}

#[test]
fn from_json_in_requires_array() {
    assert!(Pred::from_json(&json("{\"category\": {\"$in\": \"x\"}}")).is_err());
}

#[test]
fn from_json_or_requires_array() {
    assert!(Pred::from_json(&json("{\"$or\": {\"a\": 1}}")).is_err());
}

// --- compile ---

#[test]
fn compile_empty_filter_is_true() {
    let cfg = test_schema();
    assert_eq!(Pred::And(vec![]).compile(&cfg).unwrap(), "TRUE");
}

#[test]
fn compile_eq_string_quotes_and_escapes() {
    assert_eq!(sql("{\"category\": \"it's\"}"), "category = 'it''s'");
}

#[test]
fn compile_numeric_comparison() {
    assert_eq!(sql("{\"score\": {\"$gte\": 0.5}}"), "score >= 0.5");
}

#[test]
fn compile_integers_as_floats() {
    assert_eq!(sql("{\"score\": {\"$gte\": 3}}"), "score >= 3");
    assert_eq!(sql("{\"score\": 18446744073709551615}"), "score = 18446744073709552000");
}

#[test]
fn compile_int_and_bool_literals() {
    assert_eq!(sql("{\"priority\": {\"$lt\": 10}}"), "priority < 10");
    assert_eq!(sql("{\"verified\": true}"), "verified = TRUE");
}

#[test]
fn compile_type_mismatch_is_error() {
    let cfg = test_schema();
    // string field with numeric value
    assert!(pred("{\"category\": 3}").compile(&cfg).is_err());
    // int64 field with string value
    assert!(pred("{\"priority\": \"high\"}").compile(&cfg).is_err());
    // bool field with string value
    assert!(pred("{\"verified\": \"yes\"}").compile(&cfg).is_err());
}

#[test]
fn compile_unknown_field_is_error() {
    let cfg = test_schema();
    assert!(pred("{\"nope\": \"x\"}").compile(&cfg).is_err());
}

#[test]
fn compile_reserved_filterable_fields() {
    assert_eq!(sql("{\"source_path\": \"/a/b\"}"), "source_path = '/a/b'");
}

#[test]
fn compile_builtin_chunk_columns() {
    assert_eq!(sql("{\"chunk_level\": 1}"), "chunk_level = 1");
    assert_eq!(sql("{\"chunk_index\": {\"$gte\": 2}}"), "chunk_index >= 2");
}

#[test]
fn compile_in_and_nin() {
    assert_eq!(
        sql("{\"category\": {\"$in\": [\"mm\", \"net\"]}}"),
        "category IN ('mm', 'net')"
    );
    assert_eq!(sql("{\"category\": {\"$nin\": [\"mm\"]}}"), "category NOT IN ('mm')");
}

#[test]
fn compile_list_membership_uses_array_has() {
    assert_eq!(
        sql("{\"keywords\": {\"$in\": [\"hugepage\"]}}"),
        "(array_has(keywords, 'hugepage'))"
    );
    assert_eq!(
        sql("{\"keywords\": {\"$nin\": [\"a\", \"b\"]}}"),
        "NOT (array_has(keywords, 'a') OR array_has(keywords, 'b'))"
    );
    // non-string members rejected
    assert!(pred("{\"keywords\": {\"$in\": [1]}}").compile(&test_schema()).is_err());
}

#[test]
fn compile_exists() {
    assert_eq!(sql("{\"category\": {\"$exists\": true}}"), "category IS NOT NULL");
    assert_eq!(sql("{\"category\": {\"$exists\": false}}"), "category IS NULL");
}

#[test]
fn compile_or_nesting() {
    assert_eq!(
        sql("{\"$or\": [{\"category\": \"mm\"}, {\"score\": {\"$gt\": 0.9}, \"verified\": true}]}"),
        "((category = 'mm') OR (score > 0.9 AND verified = TRUE))"
    );
}

#[test]
fn compile_text_field_equality_is_allowed_by_dsl() {
    // `text` is Utf8-backed so equality compiles; the schema docs steer
    // users to FTS instead. Just pin the current behavior.
    assert_eq!(sql("{\"notes\": \"hello\"}"), "notes = 'hello'");
}

#[test]
fn compile_raw_pred_is_spliced_verbatim() {
    let cfg = test_schema();
    let p = Pred::Raw("category LIKE 'mm%'".into());
    assert_eq!(p.compile(&cfg).unwrap(), "category LIKE 'mm%'");
}

#[test]
fn readme_filter_compiles() {
    let cfg = SchemaConfig {
        fields: Dict::from_entries(vec![
            ("subsystem".to_string(), field("string", true)),
            ("priority".to_string(), field("int64", false)),
            ("keywords".to_string(), field("list<string>", false)),
        ]),
        ..test_schema()
    };
    let p = pred("{\"subsystem\": \"mm\", \"priority\": {\"$gte\": 3}, \"keywords\": {\"$in\": [\"hugepage\"]}}");
    let s = p.compile(&cfg).unwrap();
    assert!(s.contains("subsystem = 'mm'"));
    assert!(s.contains("priority >= 3"));
    assert!(s.contains("(array_has(keywords, 'hugepage'))"));
    assert!(pred("{\"priority\": \"high\"}").compile(&cfg).is_err());
}

#[test]
fn literals_are_checked_against_their_type() {
    assert_eq!(value_to_sql("string", &json("\"a'b\"")).unwrap(), "'a''b'");
    assert_eq!(value_to_sql("bool", &json("false")).unwrap(), "FALSE");
    assert_eq!(value_to_sql("int64", &json("-3")).unwrap(), "-3");
    assert!(value_to_sql("int64", &json("1.5")).is_err());
    assert!(value_to_sql("string", &json("1")).is_err());
}

// --- ExpandTo ---

#[test]
fn expand_to_parse() {
    assert_eq!(ExpandTo::parse("chunk"), ExpandTo::Chunk);
    assert_eq!(ExpandTo::parse("auto"), ExpandTo::Auto);
    assert_eq!(ExpandTo::parse("parent"), ExpandTo::Parent);
    // case-insensitive default is Parent
    assert_eq!(ExpandTo::parse("PARENT"), ExpandTo::Parent);
    assert_eq!(ExpandTo::parse("bogus"), ExpandTo::Parent);
    assert_eq!(ExpandTo::parse("CHUNK"), ExpandTo::Chunk);
    assert_eq!(ExpandTo::default(), ExpandTo::Parent);
}

// --- preview / record_json ---

#[test]
fn preview_under_limit_unchanged() {
    assert_eq!(preview("hello", 10), "hello");
    assert_eq!(preview("hello", 5), "hello");
}

#[test]
fn preview_truncates_by_chars_not_bytes() {
    // 10 CJK chars = 30 bytes but 10 chars; max 5 → 5 chars + "..."
    let s = "零一二三四五六七八九";
    let out = preview(s, 5);
    assert_eq!(out.chars().count(), 5 + 3);
    assert!(out.ends_with("..."));
    assert_eq!(out.chars().take(5).collect::<String>(), "零一二三四");
}

fn number(j: &Json, key: &str) -> i64 {
    match j.get(key) {
        Some(Json::Num(Number::Int(i))) => *i,
        other => panic!("no integer: {other:?}"),
    }
}

#[test]
fn record_json_passthrough_and_truncation() {
    let mut rec = Record {
        id: "id1".into(),
        raw_text: "short".into(),
        chunk_level: 1,
        chunk_index: 3,
        parent_doc_id: Some("p1".into()),
        source_path: "/a.md".into(),
        source_type: "file".into(),
        extra: vec![("priority".to_string(), json("7"))],
    };
    let j = record_json(&rec);
    assert_eq!(j.str_field("id"), Some("id1"));
    assert_eq!(j.get("truncated"), Some(&Json::Bool(false)));
    assert_eq!(number(&j, "chunk_level"), 1);
    assert_eq!(number(&j, "chunk_index"), 3);
    assert_eq!(j.str_field("parent_doc_id"), Some("p1"));
    assert_eq!(number(&j, "priority"), 7);

    rec.raw_text = "x".repeat(MAX_RAW_TEXT_CHARS + 10);
    let j = record_json(&rec);
    assert_eq!(j.get("truncated"), Some(&Json::Bool(true)));
    assert_eq!(j.str_field("raw_text").unwrap().chars().count(), MAX_RAW_TEXT_CHARS + 3);
}

#[test]
fn record_json_null_parent() {
    let rec = Record {
        id: "id1".into(),
        raw_text: "t".into(),
        chunk_level: 0,
        chunk_index: 0,
        parent_doc_id: None,
        source_path: String::new(),
        source_type: String::new(),
        extra: Default::default(),
    };
    let j = record_json(&rec);
    assert_eq!(j.get("parent_doc_id"), Some(&Json::Null));
}

// --- expand_leaf_hits ---

fn leaf(parent_id: &str, idx: u32, text: &str) -> Record {
    Record {
        id: Chunk::compute_id(parent_id, idx, text),
        raw_text: text.into(),
        chunk_level: 1,
        chunk_index: idx,
        parent_doc_id: Some(parent_id.into()),
        source_path: "/t".into(),
        source_type: "file".into(),
        extra: Default::default(),
    }
}

fn parent(id: &str, text: &str) -> Record {
    Record {
        id: id.into(),
        raw_text: text.into(),
        chunk_level: 0,
        chunk_index: 0,
        parent_doc_id: None,
        source_path: "/t".into(),
        source_type: "file".into(),
        extra: Default::default(),
    }
}

/// p1: 3 leaves (multi-hit → auto expands to parent); p2: 3 leaves
/// (single hit → auto builds a sentence window).
fn stored() -> Vec<Record> {
    vec![
        parent("p1", "PARENT ONE"),
        leaf("p1", 0, "a0"),
        leaf("p1", 1, "a1"),
        leaf("p1", 2, "a2"),
        parent("p2", "PARENT TWO"),
        leaf("p2", 0, "b0"),
        leaf("p2", 1, "b1"),
        leaf("p2", 2, "b2"),
    ]
}

fn parents() -> Vec<Record> {
    stored().into_iter().filter(|r| r.chunk_level == 0).collect()
}

/// The chunks at most one place away from a hit, by position.
fn siblings(hit: &Record) -> Vec<Record> {
    stored()
        .into_iter()
        .filter(|r| {
            r.parent_doc_id == hit.parent_doc_id
                && r.chunk_index.abs_diff(hit.chunk_index) == 1
        })
        .collect()
}

fn expand(hits: Vec<Record>, mode: ExpandTo) -> Vec<Record> {
    let sibs: Vec<Vec<Record>> = hits.iter().map(siblings).collect();
    expand_leaf_hits(hits, parents(), &sibs, mode)
}

#[test]
fn expand_chunk_keeps_leaf_hits() {
    let hits = vec![leaf("p1", 0, "a0"), leaf("p1", 2, "a2")];
    let out = expand(hits, ExpandTo::Chunk);
    assert_eq!(out.len(), 2);
    assert!(out.iter().all(|r| r.chunk_level == 1));
}

#[test]
fn expand_parent_collapses_siblings() {
    let hits = vec![leaf("p1", 0, "a0"), leaf("p1", 2, "a2")];
    let out = expand(hits, ExpandTo::Parent);
    assert_eq!(out.len(), 1);
    assert_eq!(out[0].id, "p1");
    assert_eq!(out[0].raw_text, "PARENT ONE");
    assert_eq!(out[0].chunk_level, 0);
}

#[test]
fn expand_parent_falls_back_to_leaf_when_parent_missing() {
    let orphan = leaf("ghost", 0, "orphan text");
    let out = expand(vec![orphan], ExpandTo::Parent);
    assert_eq!(out.len(), 1);
    assert_eq!(out[0].raw_text, "orphan text");
}

#[test]
fn expand_auto_multi_hit_takes_parent() {
    let hits = vec![leaf("p1", 0, "a0"), leaf("p1", 1, "a1")];
    let out = expand(hits, ExpandTo::Auto);
    assert_eq!(out.len(), 1);
    assert_eq!(out[0].id, "p1");
    assert_eq!(out[0].raw_text, "PARENT ONE");
}

#[test]
fn expand_auto_single_hit_builds_sentence_window() {
    let hit = leaf("p2", 1, "b1");
    let out = expand(vec![hit], ExpandTo::Auto);
    assert_eq!(out.len(), 1);
    // Window = hit ± 1 sibling: b0 + b1 + b2 merged in chunk order.
    let merged = &out[0];
    assert!(merged.raw_text.contains("b0"), "{}", merged.raw_text);
    assert!(merged.raw_text.contains("b1"));
    assert!(merged.raw_text.contains("b2"));
    assert!(merged.raw_text.starts_with("b0"));
    // id = first chunk's id; parent preserved.
    assert_eq!(merged.id, Chunk::compute_id("p2", 0, "b0"));
    assert_eq!(merged.parent_doc_id.as_deref(), Some("p2"));
    assert_eq!(merged.chunk_index, 0);
}

#[test]
fn expand_auto_window_hit_is_deduped_against_later_sibling() {
    // Hit b1 builds a window covering b0..b2; a later hit of b0 must not
    // produce a second row.
    let hits = vec![leaf("p2", 1, "b1"), leaf("p2", 0, "b0")];
    let out = expand(hits, ExpandTo::Auto);
    assert_eq!(out.len(), 1, "got {}", out.len());
}

#[test]
fn expand_empty_hits_is_empty() {
    let out = expand(Vec::new(), ExpandTo::Parent);
    assert!(out.is_empty());
}

#[test]
fn expansion_asks_for_neighbours_only_where_it_needs_them() {
    let mut e = Expansion::start(vec![leaf("p2", 1, "b1")], parents(), ExpandTo::Auto);
    assert!(!e.finished());
    assert_eq!(e.wanted(), Some(("p2".to_string(), 1)));
    e.step(&siblings(&leaf("p2", 1, "b1")));
    assert!(e.finished());
    let e = Expansion::start(vec![leaf("p2", 1, "b1")], parents(), ExpandTo::Parent);
    assert_eq!(e.wanted(), None);
}

// --- rows in memory ---

fn row() -> Record {
    Record {
        extra: vec![
            ("category".to_string(), json("\"mm\"")),
            ("priority".to_string(), json("3")),
            ("score".to_string(), json("0.5")),
            ("keywords".to_string(), json("[\"hugepage\", \"mlock\"]")),
        ],
        ..parent("d", "text")
    }
}

#[test]
fn filters_hold_of_rows_in_memory() {
    let r = row();
    for (f, holds) in [
        ("{}", true),
        ("{\"category\": \"mm\"}", true),
        ("{\"category\": {\"$ne\": \"mm\"}}", false),
        ("{\"priority\": {\"$gte\": 3}}", true),
        ("{\"priority\": {\"$gt\": 3}}", false),
        ("{\"priority\": {\"$lt\": 3.5}}", true),
        ("{\"priority\": {\"$lte\": 2}}", false),
        ("{\"priority\": 3.0}", true),
        ("{\"score\": 0.5}", true),
        ("{\"category\": {\"$in\": [\"net\", \"mm\"]}}", true),
        ("{\"category\": {\"$nin\": [\"net\", \"mm\"]}}", false),
        ("{\"category\": {\"$exists\": true}}", true),
        ("{\"nope\": {\"$exists\": true}}", false),
        ("{\"source_path\": \"/t\"}", true),
        ("{\"$or\": [{\"category\": \"net\"}, {\"priority\": 3}]}", true),
        ("{\"category\": \"mm\", \"priority\": 4}", false),
        ("{\"category\": {\"$gt\": 1}}", false),
        ("{\"keywords\": {\"$in\": [\"hugepage\"]}}", true),
        ("{\"keywords\": {\"$in\": [\"numa\", \"mlock\"]}}", true),
        ("{\"keywords\": {\"$in\": [\"numa\"]}}", false),
        ("{\"keywords\": {\"$nin\": [\"hugepage\"]}}", false),
        ("{\"keywords\": {\"$nin\": [\"numa\"]}}", true),
    ] {
        assert_eq!(pred_matches(&pred(f), &r), holds, "{f}");
    }
    assert!(pred_matches(&Pred::Raw("FALSE".to_string()), &r));
}

#[test]
fn equal_numbers_of_two_kinds_are_equal() {
    assert!(json_eq(&json("3"), &json("3.0")));
    assert!(json_eq(&json("[1, {\"a\": null}]"), &json("[1, {\"a\": null}]")));
    assert!(!json_eq(&json("3"), &json("\"3\"")));
    assert!(!json_eq(&json("[3]"), &json("[3.0]")));
}

// --- ranking ---

#[test]
fn rerank_recalls_at_least_eighty() {
    assert_eq!(recall_size(10), 80);
    assert_eq!(recall_size(200), 200);
}

#[test]
fn ranked_rows_are_picked_in_order() {
    let leaves = || vec![leaf("p", 0, "a"), leaf("p", 1, "b"), leaf("p", 2, "c")];
    let out = pick_ranked(&leaves(), &vec![2, 9, 0, 1], 3);
    let texts: Vec<&str> = out.iter().map(|r| r.raw_text.as_str()).collect();
    assert_eq!(texts, vec!["c", "a"]);
    // A place that no row has counts towards the limit.
    let out = pick_ranked(&leaves(), &vec![2, 9, 0, 1], 2);
    assert_eq!(out.len(), 1);
    // Without a ranking the rows keep the order they were found in.
    let out = pick_ranked(&leaves(), &found_order(3), 2);
    let texts: Vec<&str> = out.iter().map(|r| r.raw_text.as_str()).collect();
    assert_eq!(texts, vec!["a", "b"]);
}

#[test]
fn query_vectors_must_fit_the_column() {
    assert!(check_query_dim(4, "dense_vec", 4).is_ok());
    let e = check_query_dim(3, "dense_vec", 4).unwrap_err();
    assert!(e.contains("dense_vec") && e.contains('3') && e.contains('4'), "{e}");
}
