use semdoc::dict::Dict;
use semdoc::schema::{
    BuildFeatures, FieldConfig, GraphPluginConfig, PluginsConfig, RerankPluginConfig, SchemaConfig,
    VectorConfig, VectorFieldConfig, RESERVED_COLUMNS,
};

const ALL: BuildFeatures = BuildFeatures { onnx: true, lightrag_embedded: true };
const BARE: BuildFeatures = BuildFeatures { onnx: false, lightrag_embedded: false };

fn field(kind: &str, index: bool) -> FieldConfig {
    FieldConfig { kind: kind.to_string(), index, required: false, replace_key: false }
}

fn vector(name: &str, dim: usize, source: &str) -> VectorFieldConfig {
    VectorFieldConfig {
        name: name.to_string(),
        dim,
        source: source.to_string(),
        metric: "cosine".to_string(),
        index: "none".to_string(),
        auto_embed: true,
    }
}

fn with_fields(fields: Vec<(&str, FieldConfig)>) -> SchemaConfig {
    let mut c = SchemaConfig::empty();
    c.fields = Dict::from_entries(fields.into_iter().map(|(k, f)| (k.to_string(), f)).collect());
    c
}

fn with_vectors(fields: Vec<VectorFieldConfig>) -> SchemaConfig {
    let mut c = SchemaConfig::empty();
    c.vector = VectorConfig { fields };
    c
}

#[test]
fn parse_minimal() {
    let c = SchemaConfig::empty();
    assert_eq!(c.table.name, "documents");
    assert!(c.vector.fields.is_empty());
    c.validate(BARE).unwrap();
}

#[test]
fn reject_bad_source() {
    let c = with_vectors(vec![vector("v", 8, "nonexistent")]);
    assert!(c.validate(BARE).is_err());
}

#[test]
fn reject_reserved_collision() {
    let c = with_fields(vec![("id", field("string", false))]);
    assert!(c.validate(BARE).is_err());
}

#[test]
fn reject_text_with_scalar_index() {
    let c = with_fields(vec![("notes", field("text", true))]);
    assert!(c.validate(BARE).is_err());
}

#[test]
fn a_full_schema_is_valid() {
    let mut c = with_fields(vec![
        ("category", field("string", true)),
        ("notes", field("text", false)),
        ("score", field("float32", true)),
    ]);
    let mut second = vector("notes_vec", 768, "notes");
    second.metric = "l2".to_string();
    second.index = "ivf_pq".to_string();
    c.vector = VectorConfig { fields: vec![vector("dense_vec", 1024, "raw_text"), second] };
    c.plugins = PluginsConfig {
        graph: Some(GraphPluginConfig::LightragServer {
            endpoint: "http://127.0.0.1:9727".to_string(),
            api_key_env: None,
            query_timeout_secs: 60,
            insert_concurrency: 1,
            insert_timeout_secs: 600,
            delete_timeout_secs: 60,
        }),
        rerank: Some(RerankPluginConfig::Tei {
            endpoint: "http://x:8000".to_string(),
            api_key_env: None,
            timeout_secs: 60,
        }),
    };
    c.validate(BARE).unwrap();
    assert_eq!(c.text_fields(), vec!["notes"]);
    assert_eq!(c.effective_vector_fields(4).len(), 2);
}

#[test]
fn every_fault_is_named() {
    let err = |c: SchemaConfig| c.validate(BARE).unwrap_err();
    assert_eq!(
        err(with_vectors(vec![vector("v", 8, "raw_text"), vector("v", 8, "raw_text")])),
        "duplicate vector field name: v"
    );
    assert_eq!(
        err(with_vectors(vec![vector("id", 8, "raw_text")])),
        "vector field name `id` collides with a reserved column"
    );
    let mut c = with_fields(vec![("v", field("string", false))]);
    c.vector = VectorConfig { fields: vec![vector("v", 8, "raw_text")] };
    assert_eq!(err(c), "vector field `v` collides with a [fields] entry");
    assert_eq!(
        err(with_vectors(vec![vector("v", 0, "raw_text")])),
        "vector field `v`: dim must be > 0"
    );
    assert_eq!(
        err(with_vectors(vec![vector("v", 100_001, "raw_text")])),
        "vector field `v`: dim 100001 unrealistic"
    );
    let mut v = vector("v", 8, "raw_text");
    v.metric = "hamming".to_string();
    assert_eq!(
        err(with_vectors(vec![v])),
        "vector field `v`: unknown metric `hamming` (cosine|l2|dot)"
    );
    let mut v = vector("v", 8, "raw_text");
    v.index = "hnsw".to_string();
    assert_eq!(
        err(with_vectors(vec![v])),
        "vector field `v`: unknown index `hnsw` (none|ivf_pq|ivf_flat)"
    );
    assert_eq!(
        err(with_vectors(vec![vector("v", 8, "x")])),
        "vector field `v`: source `x` must be `raw_text` or a [fields] entry of type `text`"
    );
    assert_eq!(
        err(with_fields(vec![("f", field("blob", false))])),
        "field `f`: unknown type `blob` (string|text|bool|int64|float32|timestamp|list<string>)"
    );
    assert_eq!(
        err(with_fields(vec![("f", field("text", true))])),
        "field `f`: `text` fields are FTS-searched, not scalar-indexed (drop `index = true`)"
    );
    for name in RESERVED_COLUMNS {
        assert_eq!(
            err(with_fields(vec![(name, field("string", false))])),
            format!("field `{name}` collides with a reserved column")
        );
    }
}

#[test]
fn plugins_need_their_build_features() {
    let mut c = SchemaConfig::empty();
    c.plugins.rerank = Some(RerankPluginConfig::Onnx { dir: None });
    assert_eq!(
        c.validate(BARE).unwrap_err(),
        "rerank backend `onnx` requires building with feature `onnx`"
    );
    c.validate(ALL).unwrap();
    let mut c = SchemaConfig::empty();
    c.plugins.graph =
        Some(GraphPluginConfig::LightragEmbedded { workspace: None, query_timeout_secs: 60 });
    assert_eq!(
        c.validate(BARE).unwrap_err(),
        "graph backend `lightrag-embedded` requires building with feature `lightrag-embedded`"
    );
    c.validate(ALL).unwrap();
}

#[test]
fn the_default_vector_column() {
    let v = SchemaConfig::empty().effective_vector_fields(1024);
    assert_eq!(v.len(), 1);
    assert_eq!(v[0].name, "dense_vec");
    assert_eq!(v[0].dim, 1024);
    assert_eq!(v[0].source, "raw_text");
    assert!(v[0].auto_embed);
}

#[test]
fn replace_keys_are_listed_by_name() {
    let mut z = field("string", false);
    z.replace_key = true;
    let mut a = field("string", true);
    a.replace_key = true;
    let c = with_fields(vec![("z", z), ("m", field("string", false)), ("a", a)]);
    assert_eq!(c.replace_key_fields(), vec!["a", "z"]);
    assert!(SchemaConfig::empty().replace_key_fields().is_empty());
}

#[test]
fn physical_fields_are_recorded() {
    let c = with_fields(vec![("b", field("int64", false)), ("a", field("string", true))]);
    let t = c.physical_fields();
    assert!(t.ends_with("[fields]\na = { type = \"string\" }\nb = { type = \"int64\" }\n"), "{t}");
}

#[test]
fn schemas_must_fit_their_database() {
    let c = with_fields(vec![("a", field("string", true))]);
    c.check_compatible_with(&with_fields(vec![("a", field("string", false))])).unwrap();
    let e = c.check_compatible_with(&with_fields(vec![("a", field("int64", false))])).unwrap_err();
    assert!(e.contains('a'), "{e}");
    assert!(c.check_compatible_with(&SchemaConfig::empty()).is_err());
    assert!(SchemaConfig::empty().check_compatible_with(&c).is_err());
}
