use semdoc::cli::{
    added_line, check_dims, choose_text, cli_document, compile_said, detect_language,
    filter_condition, initialized_line, parse_metas, results_text, QueryMode,
};
use semdoc::dict::Dict;
use semdoc::hash::content_hash;
use semdoc::json::{Json, Number};
use semdoc::migrate::{pick_columns, rebuild, remap, Progress, Remap, FLUSH_ROWS};
use semdoc::schema::{FieldConfig, SchemaConfig, VectorFieldConfig};
use semdoc::store::Record;

fn field(kind: &str) -> FieldConfig {
    FieldConfig { kind: kind.to_string(), index: false, required: false, replace_key: false }
}

fn schema() -> SchemaConfig {
    let mut c = SchemaConfig::empty();
    c.fields = Dict::from_entries(vec![
        ("category".to_string(), field("string")),
        ("notes".to_string(), field("text")),
        ("done".to_string(), field("bool")),
        ("priority".to_string(), field("int64")),
        ("at".to_string(), field("timestamp")),
        ("score".to_string(), field("float32")),
        ("keywords".to_string(), field("list<string>")),
    ]);
    c
}

fn json(s: &str) -> Json {
    Json::parse(s).unwrap()
}

fn metas(list: &[&str]) -> Result<Vec<(String, Json)>, String> {
    parse_metas(&list.iter().map(|s| s.to_string()).collect(), &schema())
}

#[test]
fn metas_are_typed() {
    let m = metas(&[
        "category=a=b",
        "notes=",
        "done=1",
        "priority=-7",
        "at=+3",
        "score=0.5",
        "keywords= a | b|",
    ])
    .unwrap();
    let want = [
        ("category", "\"a=b\""),
        ("notes", "\"\""),
        ("done", "true"),
        ("priority", "-7"),
        ("at", "3"),
        ("score", "0.5"),
        ("keywords", "[\"a\", \"b\", \"\"]"),
    ];
    assert_eq!(m.len(), want.len());
    for (got, (k, v)) in m.iter().zip(want) {
        assert_eq!(got.0, k);
        assert_eq!(got.1, json(v), "{k}");
    }
}

#[test]
fn metas_replace_earlier_ones() {
    let m = metas(&["done=yes", "done=true"]).unwrap();
    assert_eq!(m, vec![("done".to_string(), Json::Bool(true))]);
}

#[test]
fn floats_are_read_like_numbers() {
    let one = |s: &str| metas(&[s]).map(|m| m.into_iter().next().unwrap().1);
    match one("score=1e3").unwrap() {
        Json::Num(Number::Float(f)) => {
            assert_eq!(f.bits, 1000f64.to_bits());
            assert_eq!(f.plain, "1000");
        }
        other => panic!("{other:?}"),
    }
    match one("score=2").unwrap() {
        Json::Num(Number::Float(f)) => assert_eq!(f.bits, 2f64.to_bits()),
        other => panic!("{other:?}"),
    }
    // What is no finite number is null.
    assert_eq!(one("score=inf").unwrap(), Json::Null);
    assert_eq!(one("score=NaN").unwrap(), Json::Null);
    assert_eq!(one("score=x").unwrap_err(), "invalid float literal");
}

#[test]
fn bad_metas_are_refused() {
    assert_eq!(metas(&["oops"]).unwrap_err(), "--meta expects KEY=VALUE, got `oops`");
    assert_eq!(metas(&["x=1"]).unwrap_err(), "--meta key `x` is not in schema [fields]");
    assert_eq!(metas(&["priority=high"]).unwrap_err(), "invalid digit found in string");
    assert_eq!(
        metas(&["priority="]).unwrap_err(),
        "cannot parse integer from empty string"
    );
    assert_eq!(
        metas(&["priority=9223372036854775808"]).unwrap_err(),
        "number too large to fit in target type"
    );
    let mut c = SchemaConfig::empty();
    c.fields = Dict::from_entries(vec![("b".to_string(), field("blob"))]);
    assert_eq!(
        parse_metas(&vec!["b=1".to_string()], &c).unwrap_err(),
        "unsupported meta type blob"
    );
}

#[test]
fn languages_are_detected() {
    assert_eq!(detect_language("a.md", ""), "markdown");
    assert_eq!(detect_language("a.markdown", ""), "markdown");
    assert_eq!(detect_language("a.txt", "x\n## y"), "markdown");
    assert_eq!(detect_language("a.txt", "##y"), "text");
}

#[test]
fn documents_from_the_command_line() {
    let s = |t: &str| Some(t.to_string());
    assert_eq!(choose_text(s("f"), s("t")).unwrap(), "f");
    assert_eq!(choose_text(None, s("t")).unwrap(), "t");
    assert_eq!(choose_text(None, None).unwrap_err(), "--file or --text required");
    let d = cli_document(&schema(), "hello", "a.md", metas(&["done=1"]).unwrap());
    assert_eq!(d.id, content_hash("hello"));
    assert_eq!(d.source_path, "a.md");
    assert_eq!(d.source_type, "file");
    assert_eq!(d.language.as_deref(), Some("markdown"));
    assert_eq!(d.extra, vec![("done".to_string(), Json::Bool(true))]);
    assert_eq!(added_line(None), "added (id auto-hashed from content)");
    assert_eq!(
        added_line(Some("x")),
        "added (id auto-hashed from content) — replaced old version x"
    );
}

#[test]
fn dims_must_fit_the_embedder() {
    let v = |name: &str, dim: usize, auto_embed: bool| VectorFieldConfig {
        name: name.to_string(),
        dim,
        source: "raw_text".to_string(),
        metric: "cosine".to_string(),
        index: "none".to_string(),
        auto_embed,
    };
    let mut c = SchemaConfig::empty();
    c.vector.fields = vec![v("a", 4, true), v("b", 8, false)];
    check_dims(&c, 4).unwrap();
    assert_eq!(
        check_dims(&c, 5).unwrap_err(),
        "vector column `a`: configured dim 4 != embedder output dim 5 (embedding model: check Config.toml [embedding])"
    );
    assert_eq!(
        initialized_line("/db", 2, 3),
        "initialized database at /db (2 vector cols, 3 user fields)"
    );
}

#[test]
fn modes_are_named() {
    assert_eq!(QueryMode::parse("semantic"), Ok(QueryMode::Semantic));
    assert_eq!(QueryMode::parse("parent"), Ok(QueryMode::Parent));
    assert_eq!(QueryMode::parse("fts"), Ok(QueryMode::Fts));
    assert_eq!(QueryMode::parse("rerank"), Ok(QueryMode::Rerank));
    assert_eq!(
        QueryMode::parse("wat").unwrap_err(),
        "unknown mode `wat` (semantic|parent|fts|rerank)"
    );
}

#[test]
fn filters_come_before_raw_sql() {
    let c = schema();
    let f = Some("{\"category\": \"a\", \"priority\": {\"$gte\": 3}}");
    let sql = filter_condition(&c, f, Some("x")).unwrap().unwrap();
    assert_eq!(sql, "category = 'a' AND priority >= 3");
    assert_eq!(filter_condition(&c, None, Some("x")).unwrap().as_deref(), Some("x"));
    assert_eq!(filter_condition(&c, None, None).unwrap(), None);
    assert!(filter_condition(&c, Some("{"), None).is_err());
    assert!(filter_condition(&c, Some("[]"), None).is_err());
    assert_eq!(compile_said(&c, Err("bad".to_string())).unwrap_err(), "bad");
}

#[test]
fn results_are_printed() {
    assert_eq!(results_text(&Vec::new()), "[0 results]");
    let r = Record {
        id: "a".to_string(),
        raw_text: "t".to_string(),
        chunk_level: 0,
        chunk_index: 0,
        parent_doc_id: None,
        source_path: "/s".to_string(),
        source_type: "file".to_string(),
        extra: vec![],
    };
    let t = results_text(&vec![r]);
    assert!(t.starts_with("{\n"));
    assert!(t.contains("\"id\": \"a\""));
    assert!(t.ends_with("}\n---\n[1 results]"));
}

#[test]
fn columns_are_found_by_name() {
    let s = |l: &[&str]| l.iter().map(|x| x.to_string()).collect::<Vec<_>>();
    assert_eq!(pick_columns(&s(&["b", "a"]), &s(&["a", "b", "c"])).unwrap(), vec![1, 0]);
    assert_eq!(
        pick_columns(&s(&["a", "z"]), &s(&["a"])).unwrap_err(),
        "src missing column z"
    );
    assert_eq!(remap(true, None, None), Remap::Keep);
    assert_eq!(remap(false, Some(4), Some(4)), Remap::Rebuild);
    assert_eq!(remap(false, Some(4), Some(8)), Remap::Refuse);
    assert_eq!(remap(false, None, None), Remap::Refuse);
}

#[test]
fn vectors_are_copied_as_they_are() {
    let values = vec![9, 9, 1, 2, 3, 4, 5, 6];
    let rows = rebuild(&values, &vec![true, false, true], 1, 2);
    assert_eq!(rows, vec![Some(vec![1, 2]), None, Some(vec![5, 6])]);
}

#[test]
fn rows_are_written_in_batches() {
    let mut p = Progress::start();
    assert!(!p.add(1000));
    assert!(p.add(24));
    assert_eq!(p.waiting, FLUSH_ROWS);
    p.flushed();
    assert_eq!(p.copied, 1024);
    assert!(!p.add(3));
    p.flushed();
    assert_eq!(p.copied, 1027);
    assert_eq!(p.waiting, 0);
}
