use semdoc::dict::Dict;
use semdoc::hash::content_hash;
use semdoc::json::Json;
use semdoc::mcp::{
    added_reply, check_metadata, clears, compile_filter, delete_target, deleted_text,
    document_json, get_reply, list_reply, new_document, plan, read_update, replace_filter,
    replaced_ids, search_reply, single_replaced, stats_reply, update_filter,
    update_value, updated_reply, validate_field_value, Plan, SearchKind,
};
use semdoc::query::{ExpandTo, Pred};
use semdoc::schema::{FieldConfig, SchemaConfig};
use semdoc::store::Record;
use semdoc::tools::{filter_desc, tools_list, updatable_desc};

fn field(kind: &str) -> FieldConfig {
    FieldConfig { kind: kind.to_string(), index: false, required: false, replace_key: false }
}

fn schema() -> SchemaConfig {
    let mut c = SchemaConfig::empty();
    c.fields = Dict::from_entries(vec![
        ("category".to_string(), field("string")),
        ("priority".to_string(), field("int64")),
        ("keywords".to_string(), field("list<string>")),
    ]);
    c
}

fn json(s: &str) -> Json {
    Json::parse(s).unwrap()
}

fn record(id: &str, parent: Option<&str>, text: &str) -> Record {
    Record {
        id: id.to_string(),
        raw_text: text.to_string(),
        chunk_level: if parent.is_some() { 1 } else { 0 },
        chunk_index: 0,
        parent_doc_id: parent.map(|p| p.to_string()),
        source_path: "/a".to_string(),
        source_type: "file".to_string(),
        extra: vec![("category".to_string(), json("\"mm\""))],
    }
}

/// The text of an answer.
fn said(j: &Json) -> String {
    let content = j.get("content").unwrap().as_array().unwrap();
    assert_eq!(content.len(), 1);
    assert_eq!(content[0].str_field("type"), Some("text"));
    content[0].str_field("text").unwrap().to_string()
}

fn refused(p: Plan) -> String {
    match p {
        Plan::Refuse(m) => m,
        other => panic!("not refused: {other:?}"),
    }
}

#[test]
fn eleven_tools_are_listed() {
    let c = schema();
    let list = tools_list(&c);
    let tools = list.get("tools").unwrap().as_array().unwrap();
    let names: Vec<&str> = tools.iter().map(|t| t.str_field("name").unwrap()).collect();
    assert_eq!(
        names,
        vec![
            "query_semantic",
            "query_text",
            "query_reranked",
            "query_graph",
            "query_hybrid",
            "get_document",
            "add_document",
            "delete_document",
            "update_document_metadata",
            "list_documents",
            "stats"
        ]
    );
    for name in names {
        if let Plan::Refuse(m) = plan(&c, name, &json("{}")) {
            assert!(!m.starts_with("unknown tool"), "{m}");
        }
    }
}

#[test]
fn tools_name_the_fields_of_the_schema() {
    let c = schema();
    assert_eq!(
        filter_desc(&c),
        "{\n  \"category\": \"string\",\n  \"keywords\": \"list<string>\",\n  \"priority\": \"int64\"\n}"
    );
    assert_eq!(
        updatable_desc(&c),
        "可用字段及类型: category(string), keywords(list<string>), priority(int64)"
    );
    assert_eq!(updatable_desc(&SchemaConfig::empty()), "此库 [fields] 为空，无可更新字段");
    let text = tools_list(&c).compact();
    assert!(text.contains("\"enum\":[\"chunk\",\"parent\",\"auto\"]"));
    assert!(text.contains("\"required\":[\"id\",\"metadata\"]"));
}

#[test]
fn searches_are_planned() {
    let c = schema();
    let args = json("{\"text\": \"q\", \"limit\": 500, \"filter\": {\"category\": \"mm\"}}");
    match plan(&c, "query_semantic", &args) {
        Plan::Search { kind, text, limit, filter } => {
            assert_eq!(kind, SearchKind::Semantic(ExpandTo::Chunk));
            assert_eq!(text, "q");
            assert_eq!(limit, 200);
            assert_eq!(filter.unwrap().sql, "category = 'mm'");
        }
        other => panic!("{other:?}"),
    }
    let args = json("{\"text\": \"q\", \"expand_to\": \"auto\", \"filter\": {}}");
    match plan(&c, "query_semantic", &args) {
        Plan::Search { kind, limit, filter, .. } => {
            assert_eq!(kind, SearchKind::Semantic(ExpandTo::Auto));
            assert_eq!(limit, 10);
            assert!(filter.is_none());
        }
        other => panic!("{other:?}"),
    }
    let args = json("{\"text\": \"q\"}");
    let full = plan(&c, "query_text", &args);
    assert!(matches!(full, Plan::Search { kind: SearchKind::FullText, .. }));
    let ranked = plan(&c, "query_reranked", &args);
    assert!(matches!(ranked, Plan::Search { kind: SearchKind::Reranked, .. }));
    assert_eq!(refused(plan(&c, "query_text", &json("{}"))), "text is required");
    let bad = json("{\"text\": \"q\", \"filter\": {\"nope\": 1}}");
    assert!(refused(plan(&c, "query_text", &bad)).starts_with("invalid filter: "));
    assert_eq!(refused(plan(&c, "wat", &args)), "unknown tool: wat");
}

#[test]
fn graph_questions_are_planned() {
    let c = schema();
    let args = json("{\"text\": \"q\", \"answer\": true, \"chunk_top_k\": 5}");
    match plan(&c, "query_graph", &args) {
        Plan::Graph(a) => {
            assert!(a.want_answer);
            assert_eq!(a.params.chunk_top_k, Some(5));
            assert_eq!(a.params.max_total_tokens, None);
        }
        other => panic!("{other:?}"),
    }
    assert!(matches!(plan(&c, "query_hybrid", &args), Plan::Hybrid(_)));
}

#[test]
fn other_calls_are_planned() {
    let c = schema();
    assert!(matches!(plan(&c, "stats", &json("{}")), Plan::Stats));
    assert!(matches!(plan(&c, "get_document", &json("{\"id\": \"a\"}")), Plan::Get(i) if i == "a"));
    assert_eq!(refused(plan(&c, "get_document", &json("{}"))), "id is required");
    assert!(
        matches!(plan(&c, "delete_document", &json("{\"id\": \"a\"}")), Plan::Delete(i) if i == "a")
    );
    assert_eq!(refused(plan(&c, "delete_document", &json("{}"))), "id is required");
    let list = plan(&c, "list_documents", &json("{\"limit\": 9999, \"offset\": 3}"));
    assert!(matches!(list, Plan::List { limit: 200, offset: 3 }));
    let list = plan(&c, "list_documents", &json("{}"));
    assert!(matches!(list, Plan::List { limit: 20, offset: 0 }));
    let add = plan(&c, "add_document", &json("{\"text\": \"t\"}"));
    assert!(matches!(add, Plan::Add(d) if d.id == content_hash("t")));
    let change = json("{\"id\": \"a\", \"metadata\": {\"priority\": 1}}");
    assert!(matches!(plan(&c, "update_document_metadata", &change), Plan::Change(_)));
}

#[test]
fn documents_are_read() {
    let c = schema();
    let args = json(
        "{\"text\": \"hello\", \"source_path\": \"a.md\", \"metadata\": {\"category\": \"mm\", \"priority\": 2}}",
    );
    let d = new_document(&c, &args).unwrap();
    assert_eq!(d.id, content_hash("hello"));
    assert_eq!(d.raw_text, "hello");
    assert_eq!(d.source_path, "a.md");
    assert_eq!(d.source_type, "text");
    assert_eq!(d.language.as_deref(), Some("markdown"));
    assert_eq!(d.extra.len(), 2);
    let d = new_document(&c, &json("{\"text\": \"hello\", \"language\": \"rust\"}")).unwrap();
    assert_eq!(d.source_path, "inline");
    assert_eq!(d.language.as_deref(), Some("rust"));
    let d = new_document(&c, &json("{\"text\": \"hello\"}")).unwrap();
    assert_eq!(d.language.as_deref(), Some("plain"));
    assert_eq!(new_document(&c, &json("{}")).unwrap_err(), "text is required");
    let bad = json("{\"text\": \"t\", \"metadata\": {\"nope\": 1}}");
    assert_eq!(
        new_document(&c, &bad).unwrap_err(),
        "unknown metadata field `nope` — not declared in schema [fields]"
    );
    let bad = json("{\"text\": \"t\", \"metadata\": {\"priority\": \"high\"}}");
    assert_eq!(
        new_document(&c, &bad).unwrap_err(),
        "metadata field `priority`: expected integer"
    );
}

#[test]
fn values_are_checked_by_type() {
    let ok = |t: &str, v: &str| validate_field_value(t, &json(v));
    for t in ["string", "text", "int64", "timestamp", "float32", "bool", "list<string>"] {
        ok(t, "null").unwrap();
    }
    assert_eq!(ok("string", "1").unwrap_err(), "expected string");
    assert_eq!(ok("timestamp", "1.5").unwrap_err(), "expected integer");
    ok("float32", "1").unwrap();
    assert_eq!(ok("float32", "\"x\"").unwrap_err(), "expected number");
    assert_eq!(ok("bool", "0").unwrap_err(), "expected boolean");
    ok("list<string>", "[]").unwrap();
    assert_eq!(ok("list<string>", "[1]").unwrap_err(), "expected array of strings");
    assert_eq!(ok("blob", "1").unwrap_err(), "unsupported field type blob");
    let e = json("{\"category\": null}");
    let kept = check_metadata(&schema(), e.as_object().unwrap()).unwrap();
    assert_eq!(kept.len(), 1);
}

#[test]
fn older_versions_are_found_by_their_keys() {
    let keys = vec!["category".to_string(), "path".to_string()];
    let extra = vec![
        ("category".to_string(), json("\"m'm\"")),
        ("path".to_string(), json("\"/a\"")),
    ];
    assert_eq!(
        replace_filter(&keys, &extra, false).unwrap(),
        "category = 'm''m' AND path = '/a'"
    );
    assert_eq!(replace_filter(&keys, &vec![], true), None);
    assert_eq!(replace_filter(&vec![], &extra, true), None);
    let number = vec![("category".to_string(), json("1"))];
    let one = vec!["category".to_string()];
    assert_eq!(replace_filter(&one, &number, true).unwrap(), "category = ''");
    assert_eq!(replace_filter(&one, &number, false), None);
}

#[test]
fn replacing_spares_the_new_document() {
    let found = vec![record("a", None, ""), record("new", None, ""), record("b", None, "")];
    let ids = replaced_ids(&found, "new");
    assert_eq!(ids, vec!["a", "b"]);
    assert_eq!(single_replaced(&ids), None);
    assert_eq!(single_replaced(&vec!["a".to_string()]).as_deref(), Some("a"));
    assert_eq!(
        said(&added_reply("new", 2, &ids, None)),
        "文档已写入，id: new（chunks: 2）（已按 replace_key 替换旧版本 b）"
    );
    assert_eq!(
        said(&added_reply("new", 0, &vec![], Some("down"))),
        "文档已写入，id: new（chunks: 0）（注意：图谱镜像失败，LanceDB 已写入: down）"
    );
}

#[test]
fn a_chunk_stands_for_its_document() {
    assert_eq!(delete_target(&record("c", Some("p"), "")), "p");
    assert_eq!(delete_target(&record("p", None, "")), "p");
    assert_eq!(deleted_text("p", None), "文档 p 已删除（chunks 级联清理）");
    assert!(deleted_text("p", Some("busy")).contains("busy"));
}

#[test]
fn changes_are_read() {
    let c = schema();
    let args = json("{\"id\": \"a\", \"metadata\": {\"priority\": null}, \"cascade\": false}");
    let u = read_update(&c, &args).unwrap();
    assert_eq!(u.id, "a");
    assert!(!u.cascade);
    assert_eq!(update_filter(&u), "id = 'a'");
    assert_eq!(said(&updated_reply(&Ok(1), &u)), "已更新 1 行（id=a, cascade=false）");
    let u = read_update(&c, &json("{\"id\": \"a\", \"metadata\": {\"priority\": 1}}")).unwrap();
    assert!(u.cascade);
    assert!(update_filter(&u).contains("parent_doc_id = 'a'"));
    let e = |s: &str| read_update(&c, &json(s)).unwrap_err();
    assert_eq!(e("{\"metadata\": {\"priority\": 1}}"), "id is required");
    assert_eq!(e("{\"id\": \"a\"}"), "metadata object is required");
    assert_eq!(
        e("{\"id\": \"a\", \"metadata\": {}}"),
        "metadata is empty — provide at least one schema field"
    );
    assert!(e("{\"id\": \"a\", \"metadata\": {\"raw_text\": \"x\"}}").starts_with("unknown metadata field"));
    assert!(clears(&json("null")));
    assert!(clears(&json("[]")));
    assert!(!clears(&json("\"\"")));
}

#[test]
fn answers_cut_long_texts_but_documents_are_whole() {
    let long = "x".repeat(3000);
    let d = record("a", None, &long);
    let found = Json::parse(&said(&search_reply(&Ok(vec![d])))).unwrap();
    let first = &found.as_array().unwrap()[0];
    assert_eq!(first.str_field("raw_text").unwrap().chars().count(), 2003);
    let d = record("a", None, &long);
    assert_eq!(document_json(&d).str_field("raw_text"), Some(long.as_str()));
    let got = Json::parse(&said(&get_reply("a", &Ok(Some(d.copy()))))).unwrap();
    assert_eq!(got.str_field("raw_text"), Some(long.as_str()));
    assert_eq!(got.str_field("category"), Some("mm"));
    let none = get_reply("a", &Ok(None));
    assert_eq!(said(&none), "document not found: a");
    assert_eq!(none.get("isError").unwrap().as_bool(), Some(true));
    let listed = Json::parse(&said(&list_reply(&Ok(vec![d])))).unwrap();
    let first = &listed.as_array().unwrap()[0];
    assert_eq!(first.str_field("raw_text_preview").unwrap().chars().count(), 200);
    assert_eq!(said(&stats_reply(&Ok(7))), "rows: 7");
    let boom = || "boom".to_string();
    assert_eq!(said(&search_reply(&Err(boom()))), "query failed: boom");
    assert_eq!(said(&get_reply("a", &Err(boom()))), "get failed: boom");
    assert_eq!(said(&stats_reply(&Err(boom()))), "stats failed: boom");
    assert_eq!(said(&list_reply(&Err(boom()))), "list failed: boom");
}

#[test]
fn filters_are_compiled_where_they_say_something() {
    let c = schema();
    assert!(compile_filter(&c, None).unwrap().is_none());
    assert!(compile_filter(&c, Some(&json("{}"))).unwrap().is_none());
    assert!(compile_filter(&c, Some(&json("[1]"))).unwrap().is_none());
    let f = compile_filter(&c, Some(&json("{\"priority\": {\"$gte\": 3}}"))).unwrap().unwrap();
    assert_eq!(f.sql, "priority >= 3");
    assert!(matches!(f.pred, Pred::Gte(..)));
    assert!(compile_filter(&c, Some(&json("{\"priority\": \"high\"}"))).is_err());
}

#[test]
fn changes_have_sql_values() {
    let value = |t: &str, v: &str| update_value(t, &json(v));
    assert_eq!(value("string", "\"it's\"").unwrap(), "'it''s'");
    assert_eq!(value("int64", "-5").unwrap(), "-5");
    assert_eq!(value("float32", "0.5").unwrap(), "0.5");
    assert_eq!(value("bool", "true").unwrap(), "TRUE");
    assert_eq!(value("list<string>", "[\"a\", \"b\"]").unwrap(), "make_array('a', 'b')");
    assert_eq!(value("list<string>", "[]").unwrap(), "NULL");
    assert_eq!(value("timestamp", "null").unwrap(), "NULL");
    assert_eq!(value("list<string>", "[1]").unwrap_err(), "expected list<string>");
    assert_eq!(value("list<string>", "3").unwrap_err(), "expected array");
    assert_eq!(value("bool", "3").unwrap_err(), "field is bool, value must be boolean");
}
