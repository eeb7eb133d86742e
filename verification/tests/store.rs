use semdoc::chunker::{chunk_plain_with, Chunk};
use semdoc::dict::Dict;
use semdoc::ingest::{Ingest, Step, Writer};
use semdoc::json::{Float, Json, Number};
use semdoc::query::find_row;
use semdoc::schema::{FieldConfig, SchemaConfig, VectorConfig, VectorFieldConfig};
use semdoc::store::{
    ann_filter, arrow_schema, build_batch, cell_value, delete_filter, extra_values, id_filter,
    index_exists_error, index_plan, parents_filter, parents_where, projection, scalar_column_type, set_scalar,
    siblings_filter, sort_by_index, vector_index_plan, Cell, ColumnType, Entry, IndexKind,
    InputDoc, Record,
};

fn field(kind: &str, index: bool) -> FieldConfig {
    FieldConfig { kind: kind.to_string(), index, required: false, replace_key: false }
}

fn vector(name: &str, dim: usize, source: &str) -> VectorFieldConfig {
    VectorFieldConfig {
        name: name.into(),
        dim,
        source: source.into(),
        metric: "cosine".into(),
        index: "none".into(),
        auto_embed: true,
    }
}

fn two_field_schema() -> SchemaConfig {
    SchemaConfig {
        table: Default::default(),
        vector: VectorConfig { fields: vec![vector("dense_vec", 4, "raw_text")] },
        fields: Dict::from_entries(vec![
            ("category".to_string(), field("string", true)),
            ("keywords".to_string(), field("list<string>", false)),
        ]),
        plugins: Default::default(),
    }
}

fn json(s: &str) -> Json {
    Json::parse(s).unwrap()
}

fn parent_record(id: &str, text: &str, extra: Vec<(String, Json)>) -> Record {
    Record {
        id: id.into(),
        raw_text: text.into(),
        chunk_level: 0,
        chunk_index: 0,
        parent_doc_id: None,
        source_path: format!("/docs/{id}.md"),
        source_type: "file".into(),
        extra,
    }
}

fn leaf_record(parent_id: &str, idx: u32, text: &str) -> Record {
    Record {
        id: Chunk::compute_id(parent_id, idx, text),
        raw_text: text.into(),
        chunk_level: 1,
        chunk_index: idx,
        parent_doc_id: Some(parent_id.into()),
        source_path: String::new(),
        source_type: "file".into(),
        extra: Default::default(),
    }
}

fn bits(v: &[f32]) -> Vec<u32> {
    v.iter().map(|x| x.to_bits()).collect()
}

fn entry(record: Record, vectors: Vec<(&str, Vec<u32>)>) -> Entry {
    Entry {
        record,
        vectors: Dict::from_entries(vectors.into_iter().map(|(k, v)| (k.to_string(), v)).collect()),
    }
}

#[test]
fn roundtrip_scalar_and_list_fields() {
    let cfg = two_field_schema();
    let vfs = cfg.effective_vector_fields(4);
    let extra = vec![
        ("category".to_string(), json("\"sched\"")),
        ("keywords".to_string(), json("[\"hugepage\", \"mlock\"]")),
    ];
    let e = entry(
        parent_record("p2", "text", extra),
        vec![("dense_vec", bits(&[0.5, 0.5, 0.25, 0.25]))],
    );
    let rows = build_batch(&cfg.fields, &vfs, &vec![e]).unwrap();
    assert_eq!(rows.len(), 1);
    let names = ["category", "keywords"];
    let mut read: Vec<(String, Cell)> = Vec::new();
    for (name, cell) in names.iter().zip(rows.into_iter().next().unwrap().cells) {
        read.push((name.to_string(), cell));
    }
    let back = extra_values(&read);
    assert_eq!(back[0], ("category".to_string(), json("\"sched\"")));
    assert_eq!(back[1], ("keywords".to_string(), json("[\"hugepage\", \"mlock\"]")));
}

#[test]
fn wrong_dim_vector_is_rejected() {
    let cfg = two_field_schema();
    let vfs = cfg.effective_vector_fields(4);
    let e = entry(parent_record("p3", "t", vec![]), vec![("dense_vec", bits(&[1.0, 2.0]))]);
    let err = build_batch(&cfg.fields, &vfs, &vec![e]);
    assert!(err.is_err());
    assert!(err.unwrap_err().contains("expected dim 4"));
}

#[test]
fn missing_vectors_are_rejected() {
    let cfg = two_field_schema();
    let vfs = cfg.effective_vector_fields(4);
    let e = entry(parent_record("p", "t", vec![]), vec![]);
    let err = build_batch(&cfg.fields, &vfs, &vec![e]).unwrap_err();
    assert_eq!(err, "missing vector for column dense_vec");
}

#[test]
fn get_parents_dedups_and_maps() {
    // Duplicate ids are deduped; missing ids are absent from the map.
    let ids = vec!["p1".to_string(), "p1".to_string(), "missing".to_string()];
    let (sql, limit) = parents_filter(&ids).unwrap();
    assert_eq!(sql, "chunk_level = 0 AND id IN ('missing', 'p1')");
    assert_eq!(limit, 2);
    let rows = vec![parent_record("p1", "parent", vec![])];
    assert_eq!(find_row(&rows, "p1").unwrap().raw_text, "parent");
    assert!(find_row(&rows, "missing").is_none());
    assert!(parents_filter(&Vec::new()).is_none());
    assert_eq!(parents_where("a = 'b'"), "chunk_level = 0 AND a = 'b'");
}

#[test]
fn sibling_chunks_window_excludes_self() {
    let (sql, limit) = siblings_filter("p1", 1, 1);
    assert_eq!(
        sql,
        "chunk_level = 1 AND parent_doc_id = 'p1' AND chunk_index >= 0 AND chunk_index <= 2 AND chunk_index != 1"
    );
    assert_eq!(limit, 2);
    let (sql, limit) = siblings_filter("p'", 0, 0);
    assert_eq!(
        sql,
        "chunk_level = 1 AND parent_doc_id = 'p''' AND chunk_index >= 0 AND chunk_index <= 0 AND chunk_index != 0"
    );
    assert_eq!(limit, 2);
    let rows = sort_by_index(&vec![leaf_record("p1", 2, "c2"), leaf_record("p1", 0, "c0")]);
    let idxs: Vec<u32> = rows.iter().map(|r| r.chunk_index).collect();
    assert_eq!(idxs, vec![0, 2]);
}

#[test]
fn sibling_windows_stay_in_range() {
    assert!(siblings_filter("p", 0, 3).0.contains("chunk_index >= 0 AND chunk_index <= 3"));
    let (sql, _) = siblings_filter("p", u32::MAX, 1);
    assert!(sql.contains("chunk_index >= 4294967294 AND chunk_index <= 4294967295"));
}

#[test]
fn rows_at_one_place_keep_their_order() {
    let rows = vec![
        leaf_record("a", 1, "x"),
        leaf_record("b", 0, "y"),
        leaf_record("c", 1, "z"),
        leaf_record("d", 0, "w"),
    ];
    let texts: Vec<String> = sort_by_index(&rows).into_iter().map(|r| r.raw_text).collect();
    assert_eq!(texts, vec!["y", "w", "x", "z"]);
}

#[test]
fn deletion_reaches_the_chunks() {
    assert_eq!(delete_filter("p1"), "(id = 'p1' OR parent_doc_id = 'p1')");
    assert_eq!(id_filter("it's"), "id = 'it''s'");
}

#[test]
fn ann_filters_leaves() {
    assert_eq!(
        ann_filter(Some("category = 'mm'"), true).unwrap(),
        "(category = 'mm') AND (chunk_level = 1 OR chunk_level IS NULL)"
    );
    assert_eq!(
        ann_filter(Some("category = 'mm' OR category = 'net'"), true).unwrap(),
        "(category = 'mm' OR category = 'net') AND (chunk_level = 1 OR chunk_level IS NULL)"
    );
    assert_eq!(ann_filter(None, true).unwrap(), "(chunk_level = 1 OR chunk_level IS NULL)");
    assert_eq!(ann_filter(Some("x"), false).unwrap(), "x");
    assert_eq!(ann_filter(None, false), None);
}

#[test]
fn columns_follow_the_schema() {
    let cfg = two_field_schema();
    let cols = arrow_schema(&cfg, &cfg.effective_vector_fields(4));
    let names: Vec<&str> = cols.iter().map(|c| c.name.as_str()).collect();
    assert_eq!(
        names,
        vec![
            "id",
            "raw_text",
            "source_path",
            "source_type",
            "chunk_level",
            "chunk_index",
            "parent_doc_id",
            "category",
            "keywords",
            "dense_vec"
        ]
    );
    assert_eq!(cols[4].kind, ColumnType::UInt8);
    assert_eq!(cols[5].kind, ColumnType::UInt32);
    assert!(cols[6].nullable);
    assert_eq!(cols[8].kind, ColumnType::ListUtf8);
    assert_eq!(cols[9].kind, ColumnType::Vector(4));
    assert!(!cols[9].nullable);
    let mut read = projection(&cfg.fields);
    read.sort();
    let mut scalars = names[..9].to_vec();
    scalars.sort();
    assert_eq!(read, scalars);
}

#[test]
fn column_types() {
    for (t, want) in [
        ("string", ColumnType::Utf8),
        ("text", ColumnType::Utf8),
        ("bool", ColumnType::Bool),
        ("int64", ColumnType::Int64),
        ("float32", ColumnType::Float32),
        ("timestamp", ColumnType::Timestamp),
        ("list<string>", ColumnType::ListUtf8),
    ] {
        assert_eq!(scalar_column_type(t), want);
    }
}

#[test]
fn indexes_follow_the_schema() {
    let mut cfg = two_field_schema();
    cfg.vector.fields[0].index = "ivf_pq".to_string();
    let plan = index_plan(&cfg, &cfg.effective_vector_fields(4));
    assert_eq!(plan[0].kind, IndexKind::BTree);
    assert_eq!(plan[0].columns, vec!["id"]);
    assert_eq!(plan[1].kind, IndexKind::BTree);
    assert_eq!(plan[1].columns, vec!["category"]);
    assert!(plan.iter().any(|i| i.kind == IndexKind::FullText));
    assert!(plan.iter().any(|i| i.kind == IndexKind::IvfPq && i.columns == vec!["dense_vec"]));
    cfg.vector.fields[0].index = "ivf_flat".to_string();
    assert_eq!(vector_index_plan(&cfg.vector.fields)[0].kind, IndexKind::IvfFlat);
    cfg.vector.fields[0].index = "none".to_string();
    assert!(vector_index_plan(&cfg.vector.fields).is_empty());
    assert!(index_exists_error("lance error: index already exists"));
    assert!(!index_exists_error("boom"));
}

#[test]
fn cells_hold_typed_values() {
    let set = |t: &str, v: &str| set_scalar(&field(t, false), Some(&json(v)));
    assert_eq!(set("string", "\"a\"").unwrap(), Cell::Str("a".to_string()));
    assert_eq!(set("text", "1").unwrap_err(), "expected string");
    assert_eq!(set("bool", "true").unwrap(), Cell::Bool(true));
    assert_eq!(set("bool", "1").unwrap_err(), "expected bool");
    assert_eq!(set("int64", "-5").unwrap(), Cell::Int(-5));
    assert_eq!(set("int64", "1.5").unwrap_err(), "expected int64");
    assert_eq!(set("timestamp", "7").unwrap(), Cell::Timestamp(7));
    assert_eq!(set("timestamp", "\"x\"").unwrap_err(), "expected timestamp (unix secs)");
    let half = Float { bits: 0.5f64.to_bits(), plain: "0.5".to_string() };
    assert_eq!(set("float32", "0.5").unwrap(), Cell::Float(half));
    let three = Float { bits: 3.0f64.to_bits(), plain: "3".to_string() };
    assert_eq!(set("float32", "3").unwrap(), Cell::Float(three));
    assert_eq!(set("float32", "\"x\"").unwrap_err(), "expected float32");
    assert_eq!(
        set("list<string>", "[\"a\"]").unwrap(),
        Cell::List(vec!["a".to_string()])
    );
    assert_eq!(set("list<string>", "\"a\"").unwrap_err(), "expected array");
    assert_eq!(set("list<string>", "[1]").unwrap_err(), "expected list<string>");
    assert_eq!(set("blob", "1").unwrap_err(), "unsupported field type blob");
    assert_eq!(set("string", "null").unwrap(), Cell::Null);
    let mut f = field("string", false);
    f.required = true;
    assert_eq!(set_scalar(&f, None).unwrap_err(), "required field missing: string");
}

#[test]
fn cells_read_back() {
    assert_eq!(cell_value(&Cell::Null), None);
    assert_eq!(cell_value(&Cell::Int(3)), Some(Json::Num(Number::Int(3))));
    assert_eq!(cell_value(&Cell::Bool(true)), Some(Json::Bool(true)));
    assert_eq!(
        cell_value(&Cell::List(vec!["a".to_string()])),
        Some(Json::Arr(vec![Json::Str("a".to_string())]))
    );
}

fn input(text: &str) -> InputDoc {
    InputDoc {
        id: "d".to_string(),
        raw_text: text.to_string(),
        source_path: "/s".to_string(),
        source_type: "file".to_string(),
        language: None,
        extra: vec![("notes".to_string(), json("\"n\""))],
        vectors: Dict::new(),
    }
}

/// Embeds a text as its length.
fn run(mut i: Ingest) -> Result<Vec<Entry>, String> {
    loop {
        match i.next() {
            Step::Embed(t) => i.accept(bits(&[t.chars().count() as f32, 0.0]))?,
            Step::Write => return Ok(i.entries()),
            Step::Fail(e) => return Err(e),
        }
    }
}

#[test]
fn every_row_gets_its_vectors() {
    let text = "a".repeat(150);
    let chunks = chunk_plain_with(&text, "d", 100, 0);
    assert_eq!(chunks.len(), 2);
    let fields = vec![vector("v", 2, "raw_text"), vector("w", 2, "notes")];
    let rows = run(Ingest::start(input(&text), chunks, fields, Writer::Tool)).unwrap();
    assert_eq!(rows.len(), 3);
    assert_eq!(rows[0].record.chunk_level, 0);
    assert_eq!(rows[0].vectors.get("v"), Some(&bits(&[150.0, 0.0])));
    assert_eq!(rows[0].vectors.get("w"), Some(&bits(&[1.0, 0.0])));
    assert_eq!(rows[1].record.parent_doc_id.as_deref(), Some("d"));
    assert_eq!(rows[1].vectors.get("v"), Some(&bits(&[100.0, 0.0])));
    assert_eq!(rows[2].vectors.get("v"), Some(&bits(&[50.0, 0.0])));
    assert_eq!(rows[2].record.chunk_index, 1);
    assert_eq!(rows[2].record.extra, rows[0].record.extra);
}

#[test]
fn vectors_brought_along_are_kept() {
    let mut d = input("hello");
    d.vectors.insert("v".to_string(), bits(&[9.0, 9.0]));
    let i = Ingest::start(d, Vec::new(), vec![vector("v", 2, "raw_text")], Writer::Tool);
    assert_eq!(i.next(), Step::Write);
    assert_eq!(i.entries()[0].vectors.get("v"), Some(&bits(&[9.0, 9.0])));
}

#[test]
fn writers_say_what_is_wrong() {
    let start = |dim: usize, source: &str, w: Writer| {
        Ingest::start(
            input("hello"),
            chunk_plain_with("hello", "d", 100, 0),
            vec![vector("v", dim, source)],
            w,
        )
    };
    assert_eq!(
        run(start(2, "missing", Writer::Tool)).err().unwrap(),
        "vector column `v`: source text field `missing` is empty"
    );
    assert!(run(start(2, "missing", Writer::Rest)).is_ok());
    assert_eq!(
        run(start(3, "raw_text", Writer::Tool)).err().unwrap(),
        "vector column `v`: embedder dim 2 != configured dim 3"
    );
    assert_eq!(
        run(start(3, "raw_text", Writer::Rest)).err().unwrap(),
        "vector `v`: embedder dim 2 != configured 3"
    );
    let mut i = start(1, "raw_text", Writer::Cli);
    i.accept(vec![0]).unwrap();
    assert_eq!(
        i.accept(vec![0, 0]).unwrap_err(),
        "vector column `v`: embedder dim mismatch on leaf"
    );
}
