//! Schema configuration: `[table]`, `[vector]`, `[fields]`, `[plugins]`.
//!
//! One schema describes one database. A `SchemaConfig` is the single source of
//! truth from which the table columns, the filter compiler, the tool schemas
//! and the plugin set are all derived.

use crate::dict::Dict;
use crate::text;
use vstd::prelude::*;

verus! {

broadcast use vstd::string::group_string_axioms;

/// A parsed schema.
#[derive(Debug)]
pub struct SchemaConfig {
    pub table: TableConfig,
    pub vector: VectorConfig,
    /// User-defined scalar fields by name.
    pub fields: Dict<FieldConfig>,
    pub plugins: PluginsConfig,
}

/// The `[table]` section.
#[derive(Debug, PartialEq, Eq)]
pub struct TableConfig {
    /// Name of the one table of the database.
    pub name: String,
}

/// Vector column definition. A vector field is derived: `source` names the
/// text field whose content is embedded into this column at write time.
#[derive(Debug, PartialEq, Eq)]
pub struct VectorFieldConfig {
    pub name: String,
    pub dim: usize,
    /// `raw_text` or a user field of type `text`.
    pub source: String,
    /// `cosine`, `l2` or `dot`.
    pub metric: String,
    /// `none` (brute force), `ivf_pq` or `ivf_flat`.
    pub index: String,
    /// Embed on write with the default embedder. When false, only vectors
    /// brought by the client are accepted for this column.
    pub auto_embed: bool,
}

/// The `[vector]` section.
#[derive(Debug, PartialEq, Eq)]
pub struct VectorConfig {
    /// Empty means one field named `dense_vec` derived from `raw_text`.
    pub fields: Vec<VectorFieldConfig>,
}

/// User-defined scalar field.
#[derive(Debug, PartialEq, Eq)]
pub struct FieldConfig {
    /// `string`, `text`, `bool`, `int64`, `float32`, `timestamp` or
    /// `list<string>`.
    pub kind: String,
    /// Build a scalar index for fast pre-filtering.
    pub index: bool,
    /// Reject writes missing this field.
    pub required: bool,
    /// A document replaces an older one that has the same values in all such
    /// fields.
    pub replace_key: bool,
}

/// The `[plugins]` section.
#[derive(Debug, PartialEq, Eq)]
pub struct PluginsConfig {
    pub graph: Option<GraphPluginConfig>,
    pub rerank: Option<RerankPluginConfig>,
}

/// The knowledge-graph backend.
#[derive(Debug, PartialEq, Eq)]
pub enum GraphPluginConfig {
    /// A graph server over HTTP.
    LightragServer {
        endpoint: String,
        api_key_env: Option<String>,
        query_timeout_secs: u64,
        insert_concurrency: usize,
        insert_timeout_secs: u64,
        delete_timeout_secs: u64,
    },
    /// A graph engine inside the process (build feature `lightrag-embedded`).
    LightragEmbedded { workspace: Option<String>, query_timeout_secs: u64 },
}

/// The reranking backend named by the schema.
#[derive(Debug, PartialEq, Eq)]
pub enum RerankPluginConfig {
    /// In-process cross-encoder (build feature `onnx`).
    Onnx { dir: Option<String> },
    /// TEI-compatible `/rerank` endpoint.
    Tei { endpoint: String, api_key_env: Option<String>, timeout_secs: u64 },
    /// OpenAI-compatible `/v1/rerank`.
    Openai {
        endpoint: String,
        api_key_env: Option<String>,
        model: Option<String>,
        timeout_secs: u64,
    },
}

/// The optional parts this build of the program was made with.
#[derive(Debug, Clone, Copy, PartialEq, Eq)]
pub struct BuildFeatures {
    pub onnx: bool,
    pub lightrag_embedded: bool,
}

/// Columns present in every database. Everything else must come from
/// `[fields]`.
pub const RESERVED_COLUMNS: [&'static str; 7] = [
    "id",
    "raw_text",
    "chunk_level",
    "chunk_index",
    "parent_doc_id",
    "source_path",
    "source_type",
];

/// Seconds a graph or rerank query may take unless the schema says otherwise.
pub const DEFAULT_QUERY_TIMEOUT: u64 = 60;

/// Seconds a graph insert may take unless the schema says otherwise.
pub const DEFAULT_INSERT_TIMEOUT: u64 = 600;

/// Seconds a graph delete may take unless the schema says otherwise.
pub const DEFAULT_DELETE_TIMEOUT: u64 = 120;

/// Concurrent graph inserts unless the schema says otherwise.
pub const DEFAULT_INSERT_CONCURRENCY: usize = 4;

// ---------------------------------------------------------------------------
// Names
// ---------------------------------------------------------------------------

/// Whether `name` is a reserved column.
pub open spec fn is_reserved(name: Seq<char>) -> bool {
    exists|i: int| 0 <= i < 7 && #[trigger] RESERVED_COLUMNS@[i]@ == name
}

/// Whether `name` is a reserved column.
pub fn reserved(name: &str) -> (r: bool)
    ensures
        r == is_reserved(name@),
{
    let columns: [&'static str; 7] = RESERVED_COLUMNS;
    let mut i: usize = 0;
    while i < 7
        invariant
            i <= 7,
            columns == RESERVED_COLUMNS,
            forall|j: int| 0 <= j < i ==> #[trigger] RESERVED_COLUMNS@[j]@ != name@,
        decreases 7 - i,
    {
        if text::same(columns[i], name) {
            return true;
        }
        i = i + 1;
    }
    false
}

/// Whether `s` names a scalar type.
pub open spec fn is_scalar_type(s: Seq<char>) -> bool {
    ||| s == "string"@
    ||| s == "text"@
    ||| s == "bool"@
    ||| s == "int64"@
    ||| s == "float32"@
    ||| s == "timestamp"@
    ||| s == "list<string>"@
}

/// Whether `s` names a scalar type.
pub fn scalar_type(s: &str) -> (r: bool)
    ensures
        r == is_scalar_type(s@),
{
    text::same(s, "string") || text::same(s, "text") || text::same(s, "bool") || text::same(
        s,
        "int64",
    ) || text::same(s, "float32") || text::same(s, "timestamp") || text::same(s, "list<string>")
}

/// Whether `s` names a distance metric.
pub open spec fn is_metric(s: Seq<char>) -> bool {
    s == "cosine"@ || s == "l2"@ || s == "dot"@
}

/// Whether `s` names a kind of vector index.
pub open spec fn is_vector_index(s: Seq<char>) -> bool {
    s == "none"@ || s == "ivf_pq"@ || s == "ivf_flat"@
}

// ---------------------------------------------------------------------------
// Validation
// ---------------------------------------------------------------------------

/// Whether `source` can feed a vector field of the schema: `raw_text` or a
/// user field of type `text`.
pub open spec fn is_source(c: SchemaConfig, source: Seq<char>) -> bool {
    source == "raw_text"@ || (c.fields@.dom().contains(source) && c.fields@[source].kind@
        == "text"@)
}

/// What is wrong with the vector field at position `i`, if anything.
pub open spec fn vector_error(c: SchemaConfig, i: int) -> Option<Seq<char>> {
    let v = c.vector.fields@[i];
    let name = v.name@;
    if exists|j: int| 0 <= j < i && #[trigger] c.vector.fields@[j].name@ == name {
        Some("duplicate vector field name: "@ + name)
    } else if is_reserved(name) {
        Some("vector field name `"@ + name + "` collides with a reserved column"@)
    } else if c.fields@.dom().contains(name) {
        Some("vector field `"@ + name + "` collides with a [fields] entry"@)
    } else if v.dim == 0 {
        Some("vector field `"@ + name + "`: dim must be > 0"@)
    } else if v.dim > 100_000 {
        Some(
            "vector field `"@ + name + "`: dim "@ + text::decimal(v.dim as nat) + " unrealistic"@,
        )
    } else if !is_metric(v.metric@) {
        Some(
            "vector field `"@ + name + "`: unknown metric `"@ + v.metric@ + "` (cosine|l2|dot)"@,
        )
    } else if !is_vector_index(v.index@) {
        Some(
            "vector field `"@ + name + "`: unknown index `"@ + v.index@
                + "` (none|ivf_pq|ivf_flat)"@,
        )
    } else if !is_source(c, v.source@) {
        Some(
            "vector field `"@ + name + "`: source `"@ + v.source@
                + "` must be `raw_text` or a [fields] entry of type `text`"@,
        )
    } else {
        None
    }
}

/// What is wrong with the first faulty vector field from position `i` on.
pub open spec fn vectors_error(c: SchemaConfig, i: int) -> Option<Seq<char>>
    decreases c.vector.fields@.len() - i,
{
    if i < 0 || i >= c.vector.fields@.len() {
        None
    } else if vector_error(c, i) is Some {
        vector_error(c, i)
    } else {
        vectors_error(c, i + 1)
    }
}

/// What is wrong with the scalar field at position `i`, if anything.
pub open spec fn field_error(c: SchemaConfig, i: int) -> Option<Seq<char>> {
    let name = c.fields.keys@[i]@;
    let f = c.fields.vals@[i];
    if is_reserved(name) {
        Some("field `"@ + name + "` collides with a reserved column"@)
    } else if !is_scalar_type(f.kind@) {
        Some(
            "field `"@ + name + "`: unknown type `"@ + f.kind@
                + "` (string|text|bool|int64|float32|timestamp|list<string>)"@,
        )
    } else if f.kind@ == "text"@ && f.index {
        Some(
            "field `"@ + name
                + "`: `text` fields are FTS-searched, not scalar-indexed (drop `index = true`)"@,
        )
    } else {
        None
    }
}

/// What is wrong with the first faulty scalar field from position `i` on.
pub open spec fn fields_error(c: SchemaConfig, i: int) -> Option<Seq<char>>
    decreases c.fields.keys@.len() - i,
{
    if i < 0 || i >= c.fields.keys@.len() {
        None
    } else if field_error(c, i) is Some {
        field_error(c, i)
    } else {
        fields_error(c, i + 1)
    }
}

/// What is wrong with the plugin section in a build with the given features.
pub open spec fn plugins_error(p: PluginsConfig, f: BuildFeatures) -> Option<Seq<char>> {
    if p.rerank is Some && p.rerank->0 is Onnx && !f.onnx {
        Some("rerank backend `onnx` requires building with feature `onnx`"@)
    } else if p.graph is Some && p.graph->0 is LightragEmbedded && !f.lightrag_embedded {
        Some(
            "graph backend `lightrag-embedded` requires building with feature `lightrag-embedded`"@,
        )
    } else {
        None
    }
}

/// What is wrong with the schema: vector fields first, then scalar fields in
/// name order, then the plugins.
pub open spec fn schema_error(c: SchemaConfig, f: BuildFeatures) -> Option<Seq<char>> {
    if vectors_error(c, 0) is Some {
        vectors_error(c, 0)
    } else if fields_error(c, 0) is Some {
        fields_error(c, 0)
    } else {
        plugins_error(c.plugins, f)
    }
}

impl Default for TableConfig {
    fn default() -> (t: TableConfig)
        ensures
            t.name@ == "documents"@,
    {
        TableConfig { name: "documents".to_string() }
    }
}

impl Default for VectorConfig {
    fn default() -> (v: VectorConfig)
        ensures
            v.fields@.len() == 0,
    {
        VectorConfig { fields: Vec::new() }
    }
}

impl Default for PluginsConfig {
    fn default() -> (p: PluginsConfig)
        ensures
            p.graph is None,
            p.rerank is None,
    {
        PluginsConfig { graph: None, rerank: None }
    }
}

impl VectorFieldConfig {
    /// The same definition again.
    pub fn copy(&self) -> (r: VectorFieldConfig)
        ensures
            r == *self,
    {
        VectorFieldConfig {
            name: self.name.clone(),
            dim: self.dim,
            source: self.source.clone(),
            metric: self.metric.clone(),
            index: self.index.clone(),
            auto_embed: self.auto_embed,
        }
    }
}

impl SchemaConfig {
    /// The schema of an empty file.
    pub fn empty() -> (c: SchemaConfig)
        ensures
            c.wf(),
            c.table.name@ == "documents"@,
            c.vector.fields@.len() == 0,
            c.fields@ == Map::<Seq<char>, FieldConfig>::empty(),
            c.plugins.graph is None,
            c.plugins.rerank is None,
    {
        SchemaConfig {
            table: TableConfig::default(),
            vector: VectorConfig::default(),
            fields: Dict::new(),
            plugins: PluginsConfig::default(),
        }
    }

    /// The scalar fields are a map in name order.
    pub open spec fn wf(&self) -> bool {
        self.fields.wf()
    }

    /// Whether `source` can feed a vector field.
    fn source_ok(&self, source: &str) -> (r: bool)
        requires
            self.wf(),
        ensures
            r == is_source(*self, source@),
    {
        if text::same(source, "raw_text") {
            return true;
        }
        match self.fields.get(source) {
            Some(f) => text::same(f.kind.as_str(), "text"),
            None => false,
        }
    }

    /// Checks the vector field at position `i` against those before it.
    fn check_vector(&self, i: usize) -> (r: Result<(), String>)
        requires
            self.wf(),
            i < self.vector.fields@.len(),
        ensures
            (match r {
                Ok(_) => vector_error(*self, i as int) is None,
                Err(e) => vector_error(*self, i as int) == Some(e@),
            }),
    {
        let v: &VectorFieldConfig = &self.vector.fields[i];
        let name: &str = v.name.as_str();
        let mut j: usize = 0;
        while j < i
            invariant
                i < self.vector.fields@.len(),
                j <= i,
                *v == self.vector.fields@[i as int],
                name@ == v.name@,
                forall|k: int| 0 <= k < j ==> #[trigger] self.vector.fields@[k].name@ != name@,
            decreases i - j,
        {
            if text::same(self.vector.fields[j].name.as_str(), name) {
                assert(self.vector.fields@[j as int].name@ == name@);
                return Err(text::cat2("duplicate vector field name: ", name));
            }
            j = j + 1;
        }
        if reserved(name) {
            return Err(
                text::cat3("vector field name `", name, "` collides with a reserved column"),
            );
        }
        if self.fields.contains(name) {
            return Err(text::cat3("vector field `", name, "` collides with a [fields] entry"));
        }
        if v.dim == 0 {
            return Err(text::cat3("vector field `", name, "`: dim must be > 0"));
        }
        if v.dim > 100_000 {
            let d: String = text::usize_text(v.dim);
            return Err(
                text::cat5("vector field `", name, "`: dim ", d.as_str(), " unrealistic"),
            );
        }
        let metric: &str = v.metric.as_str();
        if !(text::same(metric, "cosine") || text::same(metric, "l2") || text::same(
            metric,
            "dot",
        )) {
            return Err(
                text::cat5(
                    "vector field `",
                    name,
                    "`: unknown metric `",
                    metric,
                    "` (cosine|l2|dot)",
                ),
            );
        }
        let index: &str = v.index.as_str();
        if !(text::same(index, "none") || text::same(index, "ivf_pq") || text::same(
            index,
            "ivf_flat",
        )) {
            return Err(
                text::cat5(
                    "vector field `",
                    name,
                    "`: unknown index `",
                    index,
                    "` (none|ivf_pq|ivf_flat)",
                ),
            );
        }
        if !self.source_ok(v.source.as_str()) {
            return Err(
                text::cat5(
                    "vector field `",
                    name,
                    "`: source `",
                    v.source.as_str(),
                    "` must be `raw_text` or a [fields] entry of type `text`",
                ),
            );
        }
        Ok(())
    }

    /// Checks the scalar field at position `i`.
    fn check_field(&self, i: usize) -> (r: Result<(), String>)
        requires
            self.wf(),
            i < self.fields.keys@.len(),
        ensures
            (match r {
                Ok(_) => field_error(*self, i as int) is None,
                Err(e) => field_error(*self, i as int) == Some(e@),
            }),
    {
        let name: &str = self.fields.keys[i].as_str();
        let f: &FieldConfig = &self.fields.vals[i];
        if reserved(name) {
            return Err(text::cat3("field `", name, "` collides with a reserved column"));
        }
        if !scalar_type(f.kind.as_str()) {
            return Err(
                text::cat5(
                    "field `",
                    name,
                    "`: unknown type `",
                    f.kind.as_str(),
                    "` (string|text|bool|int64|float32|timestamp|list<string>)",
                ),
            );
        }
        if text::same(f.kind.as_str(), "text") && f.index {
            return Err(
                text::cat3(
                    "field `",
                    name,
                    "`: `text` fields are FTS-searched, not scalar-indexed (drop `index = true`)",
                ),
            );
        }
        Ok(())
    }

    /// Checks the whole schema; the error is the first thing that is wrong.
    pub fn validate(&self, features: BuildFeatures) -> (r: Result<(), String>)
        requires
            self.wf(),
        ensures
            (match r {
                Ok(_) => schema_error(*self, features) is None,
                Err(e) => schema_error(*self, features) == Some(e@),
            }),
    {
        let mut i: usize = 0;
        while i < self.vector.fields.len()
            invariant
                self.wf(),
                i <= self.vector.fields@.len(),
                vectors_error(*self, 0) == vectors_error(*self, i as int),
            decreases self.vector.fields@.len() - i,
        {
            match self.check_vector(i) {
                Err(e) => {
                    return Err(e);
                },
                Ok(_) => {},
            }
            i = i + 1;
        }
        let mut k: usize = 0;
        while k < self.fields.keys.len()
            invariant
                self.wf(),
                vectors_error(*self, 0) is None,
                k <= self.fields.keys@.len(),
                fields_error(*self, 0) == fields_error(*self, k as int),
            decreases self.fields.keys@.len() - k,
        {
            match self.check_field(k) {
                Err(e) => {
                    return Err(e);
                },
                Ok(_) => {},
            }
            k = k + 1;
        }
        match &self.plugins.rerank {
            Some(RerankPluginConfig::Onnx { .. }) => if !features.onnx {
                return Err(
                    "rerank backend `onnx` requires building with feature `onnx`".to_string(),
                );
            },
            _ => {},
        }
        match &self.plugins.graph {
            Some(GraphPluginConfig::LightragEmbedded { .. }) => if !features.lightrag_embedded {
                return Err(
                    "graph backend `lightrag-embedded` requires building with feature `lightrag-embedded`".to_string(),
                );
            },
            _ => {},
        }
        Ok(())
    }

    /// The vector fields of the database: those of the schema, or one
    /// `dense_vec` column of the given dimension derived from `raw_text`.
    pub fn effective_vector_fields(&self, default_dim: usize) -> (r: Vec<VectorFieldConfig>)
        ensures
            r@.len() > 0,
            self.vector.fields@.len() > 0 ==> r@ == self.vector.fields@,
            self.vector.fields@.len() == 0 ==> r@.len() == 1 && is_default_vector(
                r@[0],
                default_dim,
            ),
    {
        let mut r: Vec<VectorFieldConfig> = Vec::new();
        if self.vector.fields.len() == 0 {
            r.push(
                VectorFieldConfig {
                    name: "dense_vec".to_string(),
                    dim: default_dim,
                    source: "raw_text".to_string(),
                    metric: "cosine".to_string(),
                    index: "none".to_string(),
                    auto_embed: true,
                },
            );
            return r;
        }
        let mut i: usize = 0;
        while i < self.vector.fields.len()
            invariant
                i <= self.vector.fields@.len(),
                r@ == self.vector.fields@.take(i as int),
            decreases self.vector.fields@.len() - i,
        {
            r.push(self.vector.fields[i].copy());
            i = i + 1;
            assert(r@ =~= self.vector.fields@.take(i as int));
        }
        assert(r@ =~= self.vector.fields@);
        r
    }

    /// The names of the user-defined text fields, in name order.
    pub fn text_fields(&self) -> (r: Vec<String>)
        requires
            self.wf(),
        ensures
            text::texts(r@) == text_field_names(*self, self.fields.keys@.len() as int),
    {
        let mut r: Vec<String> = Vec::new();
        let mut i: usize = 0;
        while i < self.fields.keys.len()
            invariant
                self.wf(),
                i <= self.fields.keys@.len(),
                text::texts(r@) == text_field_names(*self, i as int),
            decreases self.fields.keys@.len() - i,
        {
            let ghost was = text::texts(r@);
            if text::same(self.fields.vals[i].kind.as_str(), "text") {
                let name: String = self.fields.keys[i].clone();
                r.push(name);
                assert(text::texts(r@) =~= was.push(name@));
            }
            i = i + 1;
        }
        r
    }
}

impl SchemaConfig {
    /// The names of the fields by which an older version of a document is
    /// found, in name order.
    pub fn replace_key_fields(&self) -> (r: Vec<String>)
        requires
            self.wf(),
        ensures
            text::texts(r@) == replace_key_names(*self, self.fields.keys@.len() as int),
    {
        let mut r: Vec<String> = Vec::new();
        let mut i: usize = 0;
        assert(text::texts(r@) =~= replace_key_names(*self, 0));
        while i < self.fields.keys.len()
            invariant
                self.wf(),
                i <= self.fields.keys@.len(),
                text::texts(r@) == replace_key_names(*self, i as int),
            decreases self.fields.keys@.len() - i,
        {
            if self.fields.vals[i].replace_key {
                text::push_text(&mut r, self.fields.keys[i].clone());
            }
            i = i + 1;
        }
        r
    }
}

/// The names of the fields among the first `n` by which an older version of a
/// document is found.
pub open spec fn replace_key_names(c: SchemaConfig, n: int) -> Seq<Seq<char>>
    decreases n,
{
    if n <= 0 {
        Seq::empty()
    } else if c.fields.vals@[n - 1].replace_key {
        replace_key_names(c, n - 1).push(c.fields.keys@[n - 1]@)
    } else {
        replace_key_names(c, n - 1)
    }
}

/// The vector field used when the schema names none.
pub open spec fn is_default_vector(v: VectorFieldConfig, dim: usize) -> bool {
    &&& v.name@ == "dense_vec"@
    &&& v.dim == dim
    &&& v.source@ == "raw_text"@
    &&& v.metric@ == "cosine"@
    &&& v.index@ == "none"@
    &&& v.auto_embed
}

/// The names of the text fields among the first `n` scalar fields.
pub open spec fn text_field_names(c: SchemaConfig, n: int) -> Seq<Seq<char>>
    decreases n,
{
    if n <= 0 {
        Seq::empty()
    } else if c.fields.vals@[n - 1].kind@ == "text"@ {
        text_field_names(c, n - 1).push(c.fields.keys@[n - 1]@)
    } else {
        text_field_names(c, n - 1)
    }
}

// ---------------------------------------------------------------------------
// Physical fields
// ---------------------------------------------------------------------------

/// The lines that record the first `n` scalar fields of a schema.
pub open spec fn physical_lines(c: SchemaConfig, n: int) -> Seq<char>
    decreases n,
{
    if n <= 0 {
        Seq::empty()
    } else {
        physical_lines(c, n - 1) + c.fields.keys@[n - 1]@ + " = { type = \""@
            + c.fields.vals@[n - 1].kind@ + "\" }\n"@
    }
}

/// The heading of the file that records the scalar fields of a database.
pub const PHYSICAL_HEADER: &'static str =
    "# Auto-generated by `semdoc init` — physical [fields] of this database.\n# Do not edit; regenerate by re-initializing (or run semdoc-migrate).\n[fields]\n";

impl SchemaConfig {
    /// The file that records the scalar fields (name and type) a database was
    /// made with.
    pub fn physical_fields(&self) -> (r: String)
        requires
            self.wf(),
        ensures
            r@ == PHYSICAL_HEADER@ + physical_lines(*self, self.fields.keys@.len() as int),
    {
        let mut lines: String = String::new();
        let mut i: usize = 0;
        while i < self.fields.keys.len()
            invariant
                self.wf(),
                i <= self.fields.keys@.len(),
                lines@ == physical_lines(*self, i as int),
            decreases self.fields.keys@.len() - i,
        {
            lines.append(self.fields.keys[i].as_str());
            lines.append(" = { type = \"");
            lines.append(self.fields.vals[i].kind.as_str());
            lines.append("\" }\n");
            i = i + 1;
        }
        text::cat2(PHYSICAL_HEADER, lines.as_str())
    }

    /// Whether both schemas have the same scalar fields with the same types.
    pub open spec fn same_fields(&self, physical: &SchemaConfig) -> bool {
        forall|name: Seq<char>| #[trigger] self.has_field_as(physical, name)
    }

    /// Whether `name` is a scalar field of both schemas with one type, or of
    /// neither.
    pub open spec fn has_field_as(&self, physical: &SchemaConfig, name: Seq<char>) -> bool {
        &&& self.fields@.dom().contains(name) == physical.fields@.dom().contains(name)
        &&& self.fields@.dom().contains(name) ==> self.fields@[name].kind@
            == physical.fields@[name].kind@
    }

    /// The first scalar field of `self`, from position `i` on, that is not one
    /// of `other` with the same type.
    pub open spec fn first_difference(&self, other: &SchemaConfig, i: int) -> Option<Seq<char>>
        decreases self.fields.keys@.len() - i,
    {
        if i < 0 || i >= self.fields.keys@.len() {
            None
        } else if !self.has_field_as(other, self.fields.keys@[i]@) {
            Some(self.fields.keys@[i]@)
        } else {
            self.first_difference(other, i + 1)
        }
    }

    /// The first field in which the two schemas differ: first the fields of
    /// `self` in name order, then those of `physical`.
    pub open spec fn difference(&self, physical: &SchemaConfig) -> Option<Seq<char>> {
        match self.first_difference(physical, 0) {
            Some(name) => Some(name),
            None => physical.first_difference(self, 0),
        }
    }

    /// The first scalar field of `self` that is not one of `other` with the
    /// same type.
    fn first_missing(&self, other: &SchemaConfig) -> (r: Option<String>)
        requires
            self.wf(),
            other.wf(),
        ensures
            (match r {
                Some(name) => self.first_difference(other, 0) == Some(name@),
                None => self.first_difference(other, 0) is None,
            }),
    {
        let mut i: usize = 0;
        while i < self.fields.keys.len()
            invariant
                self.wf(),
                other.wf(),
                i <= self.fields.keys@.len(),
                self.first_difference(other, 0) == self.first_difference(other, i as int),
            decreases self.fields.keys@.len() - i,
        {
            proof {
                self.fields.lemma_at(i as int);
            }
            let name: &String = &self.fields.keys[i];
            let same: bool = match other.fields.get(name.as_str()) {
                Some(f) => text::same(f.kind.as_str(), self.fields.vals[i].kind.as_str()),
                None => false,
            };
            if !same {
                return Some(name.clone());
            }
            i = i + 1;
        }
        None
    }

    /// Compares the schema with the fields a database was made with: any
    /// difference in names or types is an error that names the first such
    /// field.
    pub fn check_compatible_with(&self, physical: &SchemaConfig) -> (r: Result<(), String>)
        requires
            self.wf(),
            physical.wf(),
        ensures
            (match r {
                Ok(_) => self.difference(physical) is None && self.same_fields(physical),
                Err(e) => match self.difference(physical) {
                    Some(name) => e@ == mismatch_text(name) && !self.has_field_as(physical, name),
                    None => false,
                },
            }),
    {
        proof {
            lemma_difference(*self, *physical, 0);
            lemma_difference(*physical, *self, 0);
        }
        let found: Option<String> = match self.first_missing(physical) {
            Some(name) => Some(name),
            None => physical.first_missing(self),
        };
        match found {
            Some(name) => {
                assert(self.has_field_as(physical, name@) == physical.has_field_as(self, name@));
                Err(
                    text::cat3(
                        "schema field `",
                        name.as_str(),
                        "` does not match the physical fields of this database",
                    ),
                )
            },
            None => {
                assert forall|name: Seq<char>| #[trigger] self.has_field_as(physical, name) by {
                    if self.fields@.dom().contains(name) {
                        let p = self.fields.pos(name);
                        assert(self.fields.keys@[p]@ == name);
                    } else if physical.fields@.dom().contains(name) {
                        let p = physical.fields.pos(name);
                        assert(physical.fields.keys@[p]@ == name);
                        assert(physical.has_field_as(self, name));
                    }
                }
                Ok(())
            },
        }
    }
}

/// The error that names a field in which a schema and a database differ.
pub open spec fn mismatch_text(name: Seq<char>) -> Seq<char> {
    "schema field `"@ + name + "` does not match the physical fields of this database"@
}

proof fn lemma_difference(a: SchemaConfig, b: SchemaConfig, i: int)
    requires
        a.wf(),
        0 <= i <= a.fields.keys@.len(),
    ensures
        (match a.first_difference(&b, i) {
            Some(name) => !a.has_field_as(&b, name),
            None => forall|k: int|
                i <= k < a.fields.keys@.len() ==> a.has_field_as(
                    &b,
                    #[trigger] a.fields.keys@[k]@,
                ),
        }),
    decreases a.fields.keys@.len() - i,
{
    if i < a.fields.keys@.len() {
        lemma_difference(a, b, i + 1);
    }
}

// ---------------------------------------------------------------------------
// Laws
// ---------------------------------------------------------------------------

/// In a valid schema all column names differ: no two vector fields share a
/// name, and none is a reserved column or a scalar field.
pub proof fn law_valid_columns_are_distinct(c: SchemaConfig, f: BuildFeatures, i: int, j: int)
    requires
        c.wf(),
        schema_error(c, f) is None,
        0 <= i < c.vector.fields@.len(),
        0 <= j < c.vector.fields@.len(),
    ensures
        !is_reserved(c.vector.fields@[i].name@),
        !c.fields@.dom().contains(c.vector.fields@[i].name@),
        i != j ==> c.vector.fields@[i].name@ != c.vector.fields@[j].name@,
{
    lemma_valid_vector(c, 0, i);
    lemma_valid_vector(c, 0, j);
}

/// In a valid schema every vector field has a positive dimension, a known
/// metric and index, and a text source; every scalar field has a known type
/// and a name that is not reserved.
pub proof fn law_valid_schema_is_usable(c: SchemaConfig, f: BuildFeatures, i: int, k: int)
    requires
        c.wf(),
        schema_error(c, f) is None,
        0 <= i < c.vector.fields@.len(),
        0 <= k < c.fields.keys@.len(),
    ensures
        0 < c.vector.fields@[i].dim <= 100_000,
        is_metric(c.vector.fields@[i].metric@),
        is_vector_index(c.vector.fields@[i].index@),
        is_source(c, c.vector.fields@[i].source@),
        is_scalar_type(c.fields.vals@[k].kind@),
        !is_reserved(c.fields.keys@[k]@),
{
    lemma_valid_vector(c, 0, i);
    lemma_valid_field(c, 0, k);
}

proof fn lemma_valid_vector(c: SchemaConfig, from: int, i: int)
    requires
        0 <= from <= i < c.vector.fields@.len(),
        vectors_error(c, from) is None,
    ensures
        vector_error(c, i) is None,
    decreases i - from,
{
    if from < i {
        lemma_valid_vector(c, from + 1, i);
    }
}

proof fn lemma_valid_field(c: SchemaConfig, from: int, i: int)
    requires
        0 <= from <= i < c.fields.keys@.len(),
        fields_error(c, from) is None,
    ensures
        field_error(c, i) is None,
    decreases i - from,
{
    if from < i {
        lemma_valid_field(c, from + 1, i);
    }
}

} // verus!
