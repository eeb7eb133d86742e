//! The stored table: its columns and indexes, the rows written to it, and the
//! SQL conditions it is read with.

use crate::dict;
use crate::dict::Dict;
use crate::json;
use crate::json::{Float, FloatV, Json, JsonV, Number, NumberV};
use crate::schema;
use crate::schema::{FieldConfig, SchemaConfig, VectorFieldConfig};
use crate::text;
use vstd::prelude::*;

verus! {

broadcast use vstd::string::group_string_axioms;

// ---------------------------------------------------------------------------
// Rows
// ---------------------------------------------------------------------------

/// A document to store.
#[derive(Debug)]
pub struct InputDoc {
    pub id: String,
    pub raw_text: String,
    pub source_path: String,
    pub source_type: String,
    pub language: Option<String>,
    /// Values of the user-defined fields by name.
    pub extra: Vec<(String, Json)>,
    /// Vectors brought along, as 32-bit float patterns, by vector field name.
    /// Where one is missing for a field that embeds on write, it is computed
    /// from the field's source text.
    pub vectors: Dict<Vec<u32>>,
}

/// One stored row: a whole document (level 0) or one of its chunks (level 1).
#[derive(Debug, PartialEq, Eq)]
pub struct Record {
    pub id: String,
    pub raw_text: String,
    pub chunk_level: u8,
    pub chunk_index: u32,
    pub parent_doc_id: Option<String>,
    pub source_path: String,
    pub source_type: String,
    /// Values of the user-defined fields by name.
    pub extra: Vec<(String, Json)>,
}

/// The model of a row.
pub struct RecordV {
    pub id: Seq<char>,
    pub raw_text: Seq<char>,
    pub chunk_level: u8,
    pub chunk_index: u32,
    pub parent_doc_id: Option<Seq<char>>,
    pub source_path: Seq<char>,
    pub source_type: Seq<char>,
    pub extra: Seq<(Seq<char>, JsonV)>,
}

/// The view of an optional text.
pub open spec fn opt_view(s: Option<String>) -> Option<Seq<char>> {
    match s {
        Some(t) => Some(t@),
        None => None,
    }
}

impl View for Record {
    type V = RecordV;

    open spec fn view(&self) -> RecordV {
        RecordV {
            id: self.id@,
            raw_text: self.raw_text@,
            chunk_level: self.chunk_level,
            chunk_index: self.chunk_index,
            parent_doc_id: opt_view(self.parent_doc_id),
            source_path: self.source_path@,
            source_type: self.source_type@,
            extra: json::entries(self.extra@),
        }
    }
}

/// The models of a list of rows.
pub open spec fn records(v: Seq<Record>) -> Seq<RecordV> {
    Seq::new(v.len(), |i: int| v[i]@)
}

/// The same optional text again.
pub fn copy_opt(s: &Option<String>) -> (r: Option<String>)
    ensures
        opt_view(r) == opt_view(*s),
{
    match s {
        Some(t) => Some(t.clone()),
        None => None,
    }
}

impl Record {
    /// The same row again.
    pub fn copy(&self) -> (r: Record)
        ensures
            r@ == self@,
    {
        Record {
            id: self.id.clone(),
            raw_text: self.raw_text.clone(),
            chunk_level: self.chunk_level,
            chunk_index: self.chunk_index,
            parent_doc_id: copy_opt(&self.parent_doc_id),
            source_path: self.source_path.clone(),
            source_type: self.source_type.clone(),
            extra: json::copy_entries(&self.extra),
        }
    }
}

/// Adds a row to a list of rows.
pub fn push_record(out: &mut Vec<Record>, r: Record)
    ensures
        records(final(out)@) == records(old(out)@).push(r@),
{
    let ghost was = records(out@);
    let ghost v = r@;
    out.push(r);
    assert(records(out@) =~= was.push(v));
}

// ---------------------------------------------------------------------------
// Columns
// ---------------------------------------------------------------------------

/// The type of a stored column.
#[derive(Debug, Clone, Copy, PartialEq, Eq, Structural)]
pub enum ColumnType {
    Utf8,
    Bool,
    Int64,
    Float32,
    /// Seconds since the epoch.
    Timestamp,
    /// A list of texts.
    ListUtf8,
    UInt8,
    UInt32,
    /// A vector of this many 32-bit floats.
    Vector(usize),
}

/// A stored column.
#[derive(Debug, PartialEq, Eq)]
pub struct Column {
    pub name: String,
    pub kind: ColumnType,
    pub nullable: bool,
}

/// The model of a column.
pub struct ColumnV {
    pub name: Seq<char>,
    pub kind: ColumnType,
    pub nullable: bool,
}

impl View for Column {
    type V = ColumnV;

    open spec fn view(&self) -> ColumnV {
        ColumnV { name: self.name@, kind: self.kind, nullable: self.nullable }
    }
}

/// The models of a list of columns.
pub open spec fn columns(v: Seq<Column>) -> Seq<ColumnV> {
    Seq::new(v.len(), |i: int| v[i]@)
}

/// The column type of a scalar field type.
pub open spec fn column_type(t: Seq<char>) -> ColumnType {
    if t == "bool"@ {
        ColumnType::Bool
    } else if t == "int64"@ {
        ColumnType::Int64
    } else if t == "float32"@ {
        ColumnType::Float32
    } else if t == "timestamp"@ {
        ColumnType::Timestamp
    } else if t == "list<string>"@ {
        ColumnType::ListUtf8
    } else {
        ColumnType::Utf8
    }
}

/// The column type of a scalar field type.
pub fn scalar_column_type(t: &str) -> (r: ColumnType)
    requires
        schema::is_scalar_type(t@),
    ensures
        r == column_type(t@),
{
    if text::same(t, "bool") {
        ColumnType::Bool
    } else if text::same(t, "int64") {
        ColumnType::Int64
    } else if text::same(t, "float32") {
        ColumnType::Float32
    } else if text::same(t, "timestamp") {
        ColumnType::Timestamp
    } else if text::same(t, "list<string>") {
        ColumnType::ListUtf8
    } else {
        ColumnType::Utf8
    }
}

/// The columns that every table begins with.
pub open spec fn fixed_columns() -> Seq<ColumnV> {
    seq![
        ColumnV { name: "id"@, kind: ColumnType::Utf8, nullable: false },
        ColumnV { name: "raw_text"@, kind: ColumnType::Utf8, nullable: false },
        ColumnV { name: "source_path"@, kind: ColumnType::Utf8, nullable: false },
        ColumnV { name: "source_type"@, kind: ColumnType::Utf8, nullable: false },
        ColumnV { name: "chunk_level"@, kind: ColumnType::UInt8, nullable: false },
        ColumnV { name: "chunk_index"@, kind: ColumnType::UInt32, nullable: false },
        ColumnV { name: "parent_doc_id"@, kind: ColumnType::Utf8, nullable: true },
    ]
}

/// The columns of the scalar fields, in name order.
pub open spec fn scalar_columns(fields: Dict<FieldConfig>) -> Seq<ColumnV> {
    Seq::new(
        fields.keys@.len(),
        |i: int|
            ColumnV {
                name: fields.keys@[i]@,
                kind: column_type(fields.vals@[i].kind@),
                nullable: true,
            },
    )
}

/// The columns of the vector fields, in their order.
pub open spec fn vector_columns(vectors: Seq<VectorFieldConfig>) -> Seq<ColumnV> {
    Seq::new(
        vectors.len(),
        |i: int|
            ColumnV {
                name: vectors[i].name@,
                kind: ColumnType::Vector(vectors[i].dim),
                nullable: false,
            },
    )
}

/// All columns of the table: the fixed ones, the scalar fields in name order,
/// and the vector fields.
pub open spec fn table_columns(
    fields: Dict<FieldConfig>,
    vectors: Seq<VectorFieldConfig>,
) -> Seq<ColumnV> {
    fixed_columns() + scalar_columns(fields) + vector_columns(vectors)
}

/// Whether every scalar field has a known type.
pub open spec fn known_types(fields: Dict<FieldConfig>) -> bool {
    forall|i: int|
        0 <= i < fields.vals@.len() ==> schema::is_scalar_type((#[trigger] fields.vals@[i]).kind@)
}

fn push_column(out: &mut Vec<Column>, name: &str, kind: ColumnType, nullable: bool)
    ensures
        columns(final(out)@) == columns(old(out)@).push(
            ColumnV { name: name@, kind, nullable },
        ),
{
    let ghost was = columns(out@);
    out.push(Column { name: name.to_string(), kind, nullable });
    assert(columns(out@) =~= was.push(ColumnV { name: name@, kind, nullable }));
}

/// The columns of the table for a schema whose scalar types are all known.
pub fn arrow_schema(config: &SchemaConfig, vector_fields: &Vec<VectorFieldConfig>) -> (r: Vec<
    Column,
>)
    requires
        config.wf(),
        known_types(config.fields),
    ensures
        columns(r@) == table_columns(config.fields, vector_fields@),
{
    let mut out: Vec<Column> = Vec::new();
    push_column(&mut out, "id", ColumnType::Utf8, false);
    push_column(&mut out, "raw_text", ColumnType::Utf8, false);
    push_column(&mut out, "source_path", ColumnType::Utf8, false);
    push_column(&mut out, "source_type", ColumnType::Utf8, false);
    push_column(&mut out, "chunk_level", ColumnType::UInt8, false);
    push_column(&mut out, "chunk_index", ColumnType::UInt32, false);
    push_column(&mut out, "parent_doc_id", ColumnType::Utf8, true);
    assert(columns(out@) =~= fixed_columns());
    let ghost scalars = scalar_columns(config.fields);
    let ghost vectors = vector_columns(vector_fields@);
    let mut i: usize = 0;
    assert(fixed_columns() + scalars.take(0) =~= fixed_columns());
    while i < config.fields.keys.len()
        invariant
            config.wf(),
            known_types(config.fields),
            scalars == scalar_columns(config.fields),
            i <= config.fields.keys@.len(),
            columns(out@) == fixed_columns() + scalars.take(i as int),
        decreases config.fields.keys@.len() - i,
    {
        assert(schema::is_scalar_type(config.fields.vals@[i as int].kind@));
        let kind: ColumnType = scalar_column_type(config.fields.vals[i].kind.as_str());
        push_column(&mut out, config.fields.keys[i].as_str(), kind, true);
        i = i + 1;
        assert(columns(out@) =~= fixed_columns() + scalars.take(i as int));
    }
    assert(scalars.take(i as int) =~= scalars);
    let mut k: usize = 0;
    assert(fixed_columns() + scalars + vectors.take(0) =~= fixed_columns() + scalars);
    while k < vector_fields.len()
        invariant
            vectors == vector_columns(vector_fields@),
            k <= vector_fields@.len(),
            columns(out@) == fixed_columns() + scalars + vectors.take(k as int),
        decreases vector_fields@.len() - k,
    {
        let v: &VectorFieldConfig = &vector_fields[k];
        push_column(&mut out, v.name.as_str(), ColumnType::Vector(v.dim), false);
        k = k + 1;
        assert(columns(out@) =~= fixed_columns() + scalars + vectors.take(k as int));
    }
    assert(vectors.take(k as int) =~= vectors);
    out
}

// ---------------------------------------------------------------------------
// Indexes
// ---------------------------------------------------------------------------

/// The kind of an index.
#[derive(Debug, Clone, Copy, PartialEq, Eq, Structural)]
pub enum IndexKind {
    BTree,
    FullText,
    IvfPq,
    IvfFlat,
}

/// An index to create.
#[derive(Debug, PartialEq, Eq)]
pub struct IndexSpec {
    pub columns: Vec<String>,
    pub kind: IndexKind,
}

/// The model of an index.
pub struct IndexV {
    pub columns: Seq<Seq<char>>,
    pub kind: IndexKind,
}

impl View for IndexSpec {
    type V = IndexV;

    open spec fn view(&self) -> IndexV {
        IndexV { columns: text::texts(self.columns@), kind: self.kind }
    }
}

/// The models of a list of indexes.
pub open spec fn indexes(v: Seq<IndexSpec>) -> Seq<IndexV> {
    Seq::new(v.len(), |i: int| v[i]@)
}

/// The indexes of the first `n` scalar fields that ask for one.
pub open spec fn scalar_indexes(fields: Dict<FieldConfig>, n: int) -> Seq<IndexV>
    decreases n,
{
    if n <= 0 {
        Seq::empty()
    } else if fields.vals@[n - 1].index {
        scalar_indexes(fields, n - 1).push(
            IndexV { columns: seq![fields.keys@[n - 1]@], kind: IndexKind::BTree },
        )
    } else {
        scalar_indexes(fields, n - 1)
    }
}

/// The indexes of the first `n` vector fields that ask for one.
pub open spec fn vector_indexes(vectors: Seq<VectorFieldConfig>, n: int) -> Seq<IndexV>
    decreases n,
{
    if n <= 0 {
        Seq::empty()
    } else if vectors[n - 1].index@ == "ivf_pq"@ {
        vector_indexes(vectors, n - 1).push(
            IndexV { columns: seq![vectors[n - 1].name@], kind: IndexKind::IvfPq },
        )
    } else if vectors[n - 1].index@ == "ivf_flat"@ {
        vector_indexes(vectors, n - 1).push(
            IndexV { columns: seq![vectors[n - 1].name@], kind: IndexKind::IvfFlat },
        )
    } else {
        vector_indexes(vectors, n - 1)
    }
}

/// All indexes of the table: one on `id`, one for each scalar field that asks
/// for it, one full-text index over `raw_text` and the text fields, and those
/// of the vector fields.
pub open spec fn all_indexes(c: SchemaConfig, vectors: Seq<VectorFieldConfig>) -> Seq<IndexV> {
    seq![IndexV { columns: seq!["id"@], kind: IndexKind::BTree }] + scalar_indexes(
        c.fields,
        c.fields.keys@.len() as int,
    ) + seq![
        IndexV {
            columns: seq!["raw_text"@] + schema::text_field_names(
                c,
                c.fields.keys@.len() as int,
            ),
            kind: IndexKind::FullText,
        },
    ] + vector_indexes(vectors, vectors.len() as int)
}

fn push_index(out: &mut Vec<IndexSpec>, name: &str, kind: IndexKind)
    ensures
        indexes(final(out)@) == indexes(old(out)@).push(IndexV { columns: seq![name@], kind }),
{
    let ghost was = indexes(out@);
    let mut names: Vec<String> = Vec::new();
    names.push(name.to_string());
    assert(text::texts(names@) =~= seq![name@]);
    out.push(IndexSpec { columns: names, kind });
    assert(indexes(out@) =~= was.push(IndexV { columns: seq![name@], kind }));
}

/// The indexes of the vector fields.
pub fn vector_index_plan(vector_fields: &Vec<VectorFieldConfig>) -> (r: Vec<IndexSpec>)
    ensures
        indexes(r@) == vector_indexes(vector_fields@, vector_fields@.len() as int),
{
    let mut out: Vec<IndexSpec> = Vec::new();
    let mut i: usize = 0;
    assert(indexes(out@) =~= Seq::empty());
    while i < vector_fields.len()
        invariant
            i <= vector_fields@.len(),
            indexes(out@) == vector_indexes(vector_fields@, i as int),
        decreases vector_fields@.len() - i,
    {
        let v: &VectorFieldConfig = &vector_fields[i];
        if text::same(v.index.as_str(), "ivf_pq") {
            push_index(&mut out, v.name.as_str(), IndexKind::IvfPq);
        } else if text::same(v.index.as_str(), "ivf_flat") {
            push_index(&mut out, v.name.as_str(), IndexKind::IvfFlat);
        }
        i = i + 1;
    }
    out
}

/// The indexes to create for a schema, in order.
pub fn index_plan(config: &SchemaConfig, vector_fields: &Vec<VectorFieldConfig>) -> (r: Vec<
    IndexSpec,
>)
    requires
        config.wf(),
    ensures
        indexes(r@) == all_indexes(*config, vector_fields@),
{
    let mut out: Vec<IndexSpec> = Vec::new();
    push_index(&mut out, "id", IndexKind::BTree);
    let ghost first = seq![IndexV { columns: seq!["id"@], kind: IndexKind::BTree }];
    assert(indexes(out@) =~= first);
    let mut i: usize = 0;
    assert(first + scalar_indexes(config.fields, 0) =~= first);
    while i < config.fields.keys.len()
        invariant
            config.wf(),
            i <= config.fields.keys@.len(),
            indexes(out@) == first + scalar_indexes(config.fields, i as int),
        decreases config.fields.keys@.len() - i,
    {
        if config.fields.vals[i].index {
            push_index(&mut out, config.fields.keys[i].as_str(), IndexKind::BTree);
        }
        i = i + 1;
        assert(indexes(out@) =~= first + scalar_indexes(config.fields, i as int));
    }
    let texts: Vec<String> = config.text_fields();
    let ghost named = text::texts(texts@);
    let mut names: Vec<String> = Vec::new();
    names.push("raw_text".to_string());
    let mut k: usize = 0;
    assert(text::texts(names@) =~= seq!["raw_text"@] + named.take(0));
    while k < texts.len()
        invariant
            named == text::texts(texts@),
            k <= texts@.len(),
            text::texts(names@) == seq!["raw_text"@] + named.take(k as int),
        decreases texts@.len() - k,
    {
        text::push_text(&mut names, texts[k].clone());
        k = k + 1;
        assert(named.take(k as int) =~= named.take(k - 1).push(named[k - 1]));
        assert(text::texts(names@) =~= seq!["raw_text"@] + named.take(k as int));
    }
    assert(named.take(k as int) =~= named);
    let ghost was = indexes(out@);
    let ghost full = IndexV {
        columns: seq!["raw_text"@] + named,
        kind: IndexKind::FullText,
    };
    out.push(IndexSpec { columns: names, kind: IndexKind::FullText });
    assert(indexes(out@) =~= was + seq![full]);
    let mut vs: Vec<IndexSpec> = vector_index_plan(vector_fields);
    let ghost more = indexes(vs@);
    let ghost done = indexes(out@);
    out.append(&mut vs);
    assert(indexes(out@) =~= done + more);
    out
}

/// Whether creating an index failed only because it is there already.
pub fn index_exists_error(message: &str) -> (r: bool)
    ensures
        r == text::occurs(message@, "already exists"@),
{
    text::contains(message, "already exists")
}

// ---------------------------------------------------------------------------
// Conditions
// ---------------------------------------------------------------------------

/// The condition that a row is a chunk, or has no level.
pub const LEAF_SQL: &'static str = "(chunk_level = 1 OR chunk_level IS NULL)";

/// The condition that a row is a whole document.
pub const PARENT_SQL: &'static str = "chunk_level = 0";

/// Most parents that the content fallback looks at.
pub const ALL_PARENTS_CAP: usize = 50_000;

/// The condition on the rows of a nearest-neighbour query: the filter, and for
/// chunks only also that the row is one, whatever the filter says.
pub fn ann_filter(filter_sql: Option<&str>, leaves_only: bool) -> (r: Option<String>)
    ensures
        opt_view(r) == (match (filter_sql, leaves_only) {
            (Some(f), true) => Some("("@ + f@ + ") AND "@ + LEAF_SQL@),
            (None, true) => Some(LEAF_SQL@),
            (Some(f), false) => Some(f@),
            (None, false) => None,
        }),
{
    if leaves_only {
        match filter_sql {
            Some(f) => Some(text::cat4("(", f, ") AND ", LEAF_SQL)),
            None => Some(LEAF_SQL.to_string()),
        }
    } else {
        match filter_sql {
            Some(f) => Some(f.to_string()),
            None => None,
        }
    }
}

/// The columns that make up a row.
pub open spec fn read_columns(fields: Dict<FieldConfig>) -> Seq<Seq<char>> {
    seq![
        "id"@,
        "raw_text"@,
        "chunk_level"@,
        "chunk_index"@,
        "parent_doc_id"@,
        "source_path"@,
        "source_type"@,
    ] + fields.names()
}

/// The columns to read back: the fixed ones and the scalar fields.
pub fn projection(fields: &Dict<FieldConfig>) -> (r: Vec<String>)
    ensures
        text::texts(r@) == read_columns(*fields),
{
    let mut r: Vec<String> = Vec::new();
    r.push("id".to_string());
    r.push("raw_text".to_string());
    r.push("chunk_level".to_string());
    r.push("chunk_index".to_string());
    r.push("parent_doc_id".to_string());
    r.push("source_path".to_string());
    r.push("source_type".to_string());
    let ghost fixed = text::texts(r@);
    let ghost names = fields.names();
    assert(fixed =~= read_columns(*fields).take(7));
    let mut i: usize = 0;
    assert(fixed + names.take(0) =~= fixed);
    while i < fields.keys.len()
        invariant
            names == fields.names(),
            i <= fields.keys@.len(),
            text::texts(r@) == fixed + names.take(i as int),
        decreases fields.keys@.len() - i,
    {
        text::push_text(&mut r, fields.keys[i].clone());
        i = i + 1;
        assert(names.take(i as int) =~= names.take(i - 1).push(names[i - 1]));
        assert(text::texts(r@) =~= fixed + names.take(i as int));
    }
    assert(names.take(i as int) =~= names);
    assert(text::texts(r@) =~= read_columns(*fields));
    r
}

/// The SQL literals of a list of texts.
pub open spec fn quoted_all(s: Seq<Seq<char>>) -> Seq<Seq<char>> {
    Seq::new(s.len(), |i: int| text::quoted(s[i]))
}

/// The SQL literals of a list of texts.
pub fn quote_all(v: &Vec<String>) -> (r: Vec<String>)
    ensures
        text::texts(r@) == quoted_all(text::texts(v@)),
{
    let ghost u = text::texts(v@);
    let mut parts: Vec<String> = Vec::new();
    let mut i: usize = 0;
    assert(text::texts(parts@) =~= quoted_all(u).take(0));
    while i < v.len()
        invariant
            u == text::texts(v@),
            i <= v@.len(),
            text::texts(parts@) == quoted_all(u).take(i as int),
        decreases v@.len() - i,
    {
        text::push_text(&mut parts, text::quote(v[i].as_str()));
        i = i + 1;
        assert(quoted_all(u).take(i as int) =~= quoted_all(u).take(i - 1).push(
            quoted_all(u)[i - 1],
        ));
    }
    assert(quoted_all(u).take(i as int) =~= quoted_all(u));
    parts
}

/// The condition that a row is one of the given documents.
pub open spec fn parents_sql(ids: Seq<Seq<char>>) -> Seq<char> {
    "chunk_level = 0 AND id IN ("@ + text::joined(
        quoted_all(dict::distinct(ids, ids.len())),
        ", "@,
    ) + ")"@
}

/// The condition that finds the given documents, and how many there can be;
/// nothing where no id is given.
pub fn parents_filter(ids: &Vec<String>) -> (r: Option<(String, usize)>)
    ensures
        (match r {
            Some((sql, limit)) => ids@.len() > 0 && sql@ == parents_sql(text::texts(ids@))
                && limit == dict::distinct(text::texts(ids@), ids@.len()).len(),
            None => ids@.len() == 0,
        }),
{
    if ids.len() == 0 {
        return None;
    }
    let unique: Vec<String> = dict::distinct_texts(ids);
    let parts: Vec<String> = quote_all(&unique);
    let list: String = text::join(&parts, ", ");
    Some((text::cat3("chunk_level = 0 AND id IN (", list.as_str(), ")"), unique.len()))
}

/// The condition that a row is a whole document and meets another condition.
pub fn parents_where(sql: &str) -> (r: String)
    ensures
        r@ == PARENT_SQL@ + " AND "@ + sql@,
{
    text::cat3(PARENT_SQL, " AND ", sql)
}

/// The condition that a row is the document `id` or one of its chunks.
pub fn delete_filter(id: &str) -> (r: String)
    ensures
        r@ == "(id = "@ + text::quoted(id@) + " OR parent_doc_id = "@ + text::quoted(id@) + ")"@,
{
    let q: String = text::quote(id);
    text::cat5("(id = ", q.as_str(), " OR parent_doc_id = ", q.as_str(), ")")
}

/// The condition that a row has the id `id`.
pub fn id_filter(id: &str) -> (r: String)
    ensures
        r@ == "id = "@ + text::quoted(id@),
{
    let q: String = text::quote(id);
    text::cat2("id = ", q.as_str())
}

/// `a - b`, or zero.
pub open spec fn minus(a: u32, b: u32) -> int {
    if a >= b {
        a - b
    } else {
        0
    }
}

/// `a + b`, or the largest 32-bit number.
pub open spec fn plus(a: u32, b: u32) -> int {
    if a + b <= u32::MAX {
        a + b
    } else {
        u32::MAX as int
    }
}

/// The condition that a row is a chunk of `parent` at most `window` away from
/// position `index`, but not at it.
pub open spec fn siblings_sql(parent: Seq<char>, index: u32, window: u32) -> Seq<char> {
    "chunk_level = 1 AND parent_doc_id = "@ + text::quoted(parent) + " AND chunk_index >= "@
        + text::decimal(minus(index, window) as nat) + " AND chunk_index <= "@ + text::decimal(
        plus(index, window) as nat,
    ) + " AND chunk_index != "@ + text::decimal(index as nat)
}

/// The condition that finds the neighbours of a chunk, and how many there can
/// be (at least two).
pub fn siblings_filter(parent: &str, index: u32, window: u32) -> (r: (String, u64))
    ensures
        r.0@ == siblings_sql(parent@, index, window),
        r.1 == (if window < 1 {
            2
        } else {
            2 * window as int
        }),
{
    let low: u32 = if index >= window {
        index - window
    } else {
        0
    };
    let high: u32 = if index <= u32::MAX - window {
        index + window
    } else {
        u32::MAX
    };
    let q: String = text::quote(parent);
    let l: String = text::decimal_text(low as u64);
    let h: String = text::decimal_text(high as u64);
    let x: String = text::decimal_text(index as u64);
    let mut sql: String = text::cat7(
        "chunk_level = 1 AND parent_doc_id = ",
        q.as_str(),
        " AND chunk_index >= ",
        l.as_str(),
        " AND chunk_index <= ",
        h.as_str(),
        " AND chunk_index != ",
    );
    sql.append(x.as_str());
    let limit: u64 = if window < 1 {
        2
    } else {
        window as u64 * 2
    };
    (sql, limit)
}

// ---------------------------------------------------------------------------
// Ordering rows
// ---------------------------------------------------------------------------

/// `s` with `r` placed after all rows that do not come after it.
pub open spec fn placed(s: Seq<RecordV>, r: RecordV) -> Seq<RecordV>
    decreases s.len(),
{
    if s.len() > 0 && s.last().chunk_index > r.chunk_index {
        placed(s.drop_last(), r).push(s.last())
    } else {
        s.push(r)
    }
}

/// The rows by position, those at the same position in the order they had.
pub open spec fn by_index(s: Seq<RecordV>) -> Seq<RecordV>
    decreases s.len(),
{
    if s.len() == 0 {
        s
    } else {
        placed(by_index(s.drop_last()), s.last())
    }
}

/// Puts the rows in the order of their positions, those at the same position
/// in the order they had.
pub fn sort_by_index(v: &Vec<Record>) -> (r: Vec<Record>)
    ensures
        records(r@) == by_index(records(v@)),
{
    let ghost s = records(v@);
    let mut r: Vec<Record> = Vec::new();
    let mut i: usize = 0;
    assert(records(r@) =~= by_index(s.take(0)));
    while i < v.len()
        invariant
            s == records(v@),
            i <= v@.len(),
            records(r@) == by_index(s.take(i as int)),
        decreases v@.len() - i,
    {
        let ghost was = records(r@);
        let rec: Record = v[i].copy();
        let mut k: usize = r.len();
        assert(was.take(k as int) =~= was);
        assert(was.skip(k as int) =~= Seq::empty());
        assert(placed(was.take(k as int), rec@) + was.skip(k as int) =~= placed(was, rec@));
        while k > 0 && r[k - 1].chunk_index > rec.chunk_index
            invariant
                was == records(r@),
                k <= r@.len(),
                placed(was.take(k as int), rec@) + was.skip(k as int) == placed(was, rec@),
            decreases k,
        {
            proof {
                let head = was.take(k as int);
                assert(head.last() == was[k - 1]);
                assert(head.drop_last() =~= was.take(k - 1));
                assert(placed(was.take(k - 1), rec@).push(was[k - 1]) + was.skip(k as int)
                    =~= placed(was.take(k - 1), rec@) + was.skip(k - 1));
            }
            k = k - 1;
        }
        proof {
            let head = was.take(k as int);
            if k > 0 {
                assert(head.last() == was[k - 1]);
            }
            assert(placed(head, rec@) == head.push(rec@));
        }
        let ghost rv = rec@;
        r.insert(k, rec);
        proof {
            assert(records(r@) =~= was.insert(k as int, rv));
            assert(was.take(k as int).push(rv) + was.skip(k as int) =~= was.insert(k as int, rv));
            assert(s.take(i + 1).drop_last() =~= s.take(i as int));
            assert(s.take(i + 1).last() == rv);
        }
        i = i + 1;
    }
    assert(s.take(i as int) =~= s);
    r
}

/// Rows put in the order of their positions are in that order, and are the
/// same rows.
pub proof fn law_sorted_rows(s: Seq<RecordV>)
    ensures
        forall|i: int, j: int|
            0 <= i < j < by_index(s).len() ==> (#[trigger] by_index(s)[i]).chunk_index <= (
            #[trigger] by_index(s)[j]).chunk_index,
        by_index(s).to_multiset() == s.to_multiset(),
    decreases s.len(),
{
    if s.len() > 0 {
        law_sorted_rows(s.drop_last());
        lemma_placed(by_index(s.drop_last()), s.last());
        s.drop_last().to_multiset_ensures();
        assert(s.drop_last().push(s.last()) =~= s);
    }
}

proof fn lemma_placed(s: Seq<RecordV>, r: RecordV)
    requires
        forall|i: int, j: int|
            0 <= i < j < s.len() ==> (#[trigger] s[i]).chunk_index <= (#[trigger] s[j]).chunk_index,
    ensures
        forall|i: int, j: int|
            0 <= i < j < placed(s, r).len() ==> (#[trigger] placed(s, r)[i]).chunk_index <= (
            #[trigger] placed(s, r)[j]).chunk_index,
        placed(s, r).to_multiset() == s.to_multiset().insert(r),
        forall|i: int|
            0 <= i < placed(s, r).len() ==> (#[trigger] placed(s, r)[i]).chunk_index
                <= r.chunk_index || (s.len() > 0 && placed(s, r)[i].chunk_index
                <= s.last().chunk_index),
    decreases s.len(),
{
    s.to_multiset_ensures();
    if s.len() > 0 && s.last().chunk_index > r.chunk_index {
        let head = s.drop_last();
        lemma_placed(head, r);
        let p = placed(head, r);
        p.to_multiset_ensures();
        head.to_multiset_ensures();
        assert(head.push(s.last()) =~= s);
        assert(placed(s, r).to_multiset() =~= s.to_multiset().insert(r));
        assert forall|i: int| 0 <= i < p.len() implies (#[trigger] p[i]).chunk_index
            <= s.last().chunk_index by {
            if head.len() > 0 && p[i].chunk_index <= head.last().chunk_index {
                assert(head.last() == s[s.len() - 2]);
                assert(s[s.len() - 1] == s.last());
            }
        }
    }
}

// ---------------------------------------------------------------------------
// Cells
// ---------------------------------------------------------------------------

/// The value of one scalar column in one row.
#[derive(Debug, PartialEq, Eq)]
pub enum Cell {
    Null,
    Str(String),
    Bool(bool),
    Int(i64),
    Float(Float),
    Timestamp(i64),
    List(Vec<String>),
}

/// The model of a cell.
pub enum CellV {
    Null,
    Str(Seq<char>),
    Bool(bool),
    Int(int),
    Float(FloatV),
    Timestamp(int),
    List(Seq<Seq<char>>),
}

impl View for Cell {
    type V = CellV;

    open spec fn view(&self) -> CellV {
        match *self {
            Cell::Null => CellV::Null,
            Cell::Str(s) => CellV::Str(s@),
            Cell::Bool(b) => CellV::Bool(b),
            Cell::Int(i) => CellV::Int(i as int),
            Cell::Float(f) => CellV::Float(f@),
            Cell::Timestamp(t) => CellV::Timestamp(t as int),
            Cell::List(l) => CellV::List(text::texts(l@)),
        }
    }
}

/// The models of a list of cells.
pub open spec fn cells(v: Seq<Cell>) -> Seq<CellV> {
    Seq::new(v.len(), |i: int| v[i]@)
}

/// The texts of the first `n` items, if all of them are texts.
pub open spec fn item_texts(s: Seq<JsonV>, n: nat) -> Option<Seq<Seq<char>>>
    decreases n,
{
    if n == 0 || n > s.len() {
        Some(Seq::empty())
    } else {
        match (item_texts(s, (n - 1) as nat), json::string_of(s[n - 1])) {
            (Some(ts), Some(t)) => Some(ts.push(t)),
            _ => None,
        }
    }
}

/// The cell that stores the value `v` of a field, or why it cannot be stored.
pub open spec fn cell_of(f: FieldConfig, v: Option<JsonV>) -> Result<CellV, Seq<char>> {
    let t = f.kind@;
    if v is None || v->0 is Null {
        if f.required {
            Err("required field missing: "@ + t)
        } else {
            Ok(CellV::Null)
        }
    } else if t == "string"@ || t == "text"@ {
        match json::string_of(v->0) {
            Some(s) => Ok(CellV::Str(s)),
            None => Err("expected string"@),
        }
    } else if t == "bool"@ {
        match json::bool_of(v->0) {
            Some(b) => Ok(CellV::Bool(b)),
            None => Err("expected bool"@),
        }
    } else if t == "int64"@ {
        match json::int_of(v->0) {
            Some(i) => Ok(CellV::Int(i)),
            None => Err("expected int64"@),
        }
    } else if t == "float32"@ {
        match json::float_of(v->0) {
            Some(x) => Ok(CellV::Float(x)),
            None => Err("expected float32"@),
        }
    } else if t == "timestamp"@ {
        match json::int_of(v->0) {
            Some(i) => Ok(CellV::Timestamp(i)),
            None => Err("expected timestamp (unix secs)"@),
        }
    } else if t == "list<string>"@ {
        match json::array_of(v->0) {
            Some(s) => match item_texts(s, s.len()) {
                Some(ts) => Ok(CellV::List(ts)),
                None => Err("expected list<string>"@),
            },
            None => Err("expected array"@),
        }
    } else {
        Err("unsupported field type "@ + t)
    }
}

proof fn lemma_item_texts_none(s: Seq<JsonV>, i: nat, n: nat)
    requires
        i <= n <= s.len(),
        item_texts(s, i) is None,
    ensures
        item_texts(s, n) is None,
    decreases n - i,
{
    if i < n {
        lemma_item_texts_none(s, i, (n - 1) as nat);
    }
}

/// The texts of a list of values, if all of them are texts.
pub fn texts_of(v: &Vec<Json>) -> (r: Option<Vec<String>>)
    ensures
        (match r {
            Some(ts) => item_texts(json::items(v@), v@.len()) == Some(text::texts(ts@)),
            None => item_texts(json::items(v@), v@.len()) is None,
        }),
{
    let ghost s = json::items(v@);
    let mut out: Vec<String> = Vec::new();
    let n: usize = v.len();
    let mut i: usize = 0;
    assert(text::texts(out@) =~= Seq::empty());
    while i < n
        invariant
            n == v@.len(),
            s == json::items(v@),
            i <= n,
            item_texts(s, i as nat) == Some(text::texts(out@)),
        decreases n - i,
    {
        assert(s[i as int] == v@[i as int]@);
        match v[i].as_str() {
            Some(t) => {
                text::push_text(&mut out, t.to_string());
            },
            None => {
                proof {
                    lemma_item_texts_none(s, (i + 1) as nat, n as nat);
                }
                return None;
            },
        }
        i = i + 1;
    }
    Some(out)
}

/// The view of an optional value.
pub open spec fn opt_json(v: Option<&Json>) -> Option<JsonV> {
    match v {
        Some(j) => Some(j@),
        None => None,
    }
}

/// The cell that stores the value `v` of a field.
pub fn set_scalar(f: &FieldConfig, v: Option<&Json>) -> (r: Result<Cell, String>)
    ensures
        (match r {
            Ok(c) => cell_of(*f, opt_json(v)) == Ok::<CellV, Seq<char>>(c@),
            Err(e) => cell_of(*f, opt_json(v)) == Err::<CellV, Seq<char>>(e@),
        }),
{
    let t: &str = f.kind.as_str();
    let present: Option<&Json> = match v {
        Some(Json::Null) => None,
        Some(j) => Some(j),
        None => None,
    };
    let v: &Json = match present {
        Some(j) => j,
        None => {
            if f.required {
                return Err(text::cat2("required field missing: ", t));
            }
            return Ok(Cell::Null);
        },
    };
    if text::same(t, "string") || text::same(t, "text") {
        match v.as_str() {
            Some(s) => Ok(Cell::Str(s.to_string())),
            None => Err("expected string".to_string()),
        }
    } else if text::same(t, "bool") {
        match v.as_bool() {
            Some(b) => Ok(Cell::Bool(b)),
            None => Err("expected bool".to_string()),
        }
    } else if text::same(t, "int64") {
        match v.as_i64() {
            Some(i) => Ok(Cell::Int(i)),
            None => Err("expected int64".to_string()),
        }
    } else if text::same(t, "float32") {
        match v.as_float() {
            Some(x) => Ok(Cell::Float(x)),
            None => Err("expected float32".to_string()),
        }
    } else if text::same(t, "timestamp") {
        match v.as_i64() {
            Some(i) => Ok(Cell::Timestamp(i)),
            None => Err("expected timestamp (unix secs)".to_string()),
        }
    } else if text::same(t, "list<string>") {
        match v.as_array() {
            Some(a) => match texts_of(a) {
                Some(l) => Ok(Cell::List(l)),
                None => Err("expected list<string>".to_string()),
            },
            None => Err("expected array".to_string()),
        }
    } else {
        Err(text::cat2("unsupported field type ", t))
    }
}

/// The value that a cell holds; nothing for an empty one.
pub open spec fn value_in(c: CellV) -> Option<JsonV> {
    match c {
        CellV::Null => None,
        CellV::Str(s) => Some(JsonV::Str(s)),
        CellV::Bool(b) => Some(JsonV::Bool(b)),
        CellV::Int(i) => Some(JsonV::Num(NumberV::Int(i))),
        CellV::Float(f) => Some(JsonV::Num(NumberV::Float(f))),
        CellV::Timestamp(t) => Some(JsonV::Num(NumberV::Int(t))),
        CellV::List(l) => Some(JsonV::Arr(Seq::new(l.len(), |i: int| JsonV::Str(l[i])))),
    }
}

/// The value that a cell holds; nothing for an empty one.
pub fn cell_value(c: &Cell) -> (r: Option<Json>)
    ensures
        (match r {
            Some(j) => value_in(c@) == Some(j@),
            None => value_in(c@) is None,
        }),
{
    match c {
        Cell::Null => None,
        Cell::Str(s) => Some(Json::Str(s.clone())),
        Cell::Bool(b) => Some(Json::Bool(*b)),
        Cell::Int(i) => Some(Json::Num(Number::Int(*i))),
        Cell::Float(f) => Some(Json::Num(Number::Float(f.copy()))),
        Cell::Timestamp(t) => Some(Json::Num(Number::Int(*t))),
        Cell::List(l) => {
            let mut v: Vec<Json> = Vec::new();
            let ghost all = text::texts(l@);
            let ghost want = Seq::new(all.len(), |i: int| JsonV::Str(all[i]));
            let mut i: usize = 0;
            assert(json::items(v@) =~= want.take(0));
            while i < l.len()
                invariant
                    all == text::texts(l@),
                    want == Seq::new(all.len(), |i: int| JsonV::Str(all[i])),
                    i <= l@.len(),
                    json::items(v@) == want.take(i as int),
                decreases l@.len() - i,
            {
                let ghost was = json::items(v@);
                let j: Json = Json::Str(l[i].clone());
                v.push(j);
                assert(json::items(v@) =~= was.push(j@));
                i = i + 1;
                assert(json::items(v@) =~= want.take(i as int));
            }
            assert(want.take(i as int) =~= want);
            proof {
                json::lemma_arr_view(v);
            }
            Some(Json::Arr(v))
        },
    }
}

/// The values of the first `n` named cells, empty ones left out.
pub open spec fn values_in(v: Seq<(String, Cell)>, n: nat) -> Seq<(Seq<char>, JsonV)>
    decreases n,
{
    if n == 0 || n > v.len() {
        Seq::empty()
    } else {
        match value_in(v[n - 1].1@) {
            Some(j) => json::with_entry(values_in(v, (n - 1) as nat), v[n - 1].0@, j),
            None => values_in(v, (n - 1) as nat),
        }
    }
}

/// The user-defined values that a row's cells hold.
pub fn extra_values(v: &Vec<(String, Cell)>) -> (r: Vec<(String, Json)>)
    ensures
        json::entries(r@) == values_in(v@, v@.len()),
{
    let mut out: Vec<(String, Json)> = Vec::new();
    let mut i: usize = 0;
    assert(json::entries(out@) =~= Seq::empty());
    while i < v.len()
        invariant
            i <= v@.len(),
            json::entries(out@) == values_in(v@, i as nat),
        decreases v@.len() - i,
    {
        match cell_value(&v[i].1) {
            Some(j) => {
                json::put(&mut out, v[i].0.as_str(), j);
            },
            None => {},
        }
        i = i + 1;
    }
    out
}

/// A stored value reads back as itself. Floats are left out: they are stored
/// with fewer bits.
pub proof fn law_cell_reads_back(f: FieldConfig, v: JsonV)
    requires
        !(v is Null),
        f.kind@ != "float32"@,
        cell_of(f, Some(v)) is Ok,
    ensures
        value_in(cell_of(f, Some(v))->Ok_0) == Some(v),
{
    let t = f.kind@;
    if !(t == "string"@ || t == "text"@ || t == "bool"@ || t == "int64"@ || t == "timestamp"@) {
        let s = json::array_of(v)->0;
        lemma_item_texts(s, s.len());
        let ts = item_texts(s, s.len())->0;
        assert(Seq::new(ts.len(), |i: int| JsonV::Str(ts[i])) =~= s);
    }
}

pub proof fn lemma_item_texts(s: Seq<JsonV>, n: nat)
    requires
        n <= s.len(),
        item_texts(s, n) is Some,
    ensures
        item_texts(s, n)->0.len() == n,
        forall|i: int| 0 <= i < n ==> s[i] == JsonV::Str(#[trigger] item_texts(s, n)->0[i]),
    decreases n,
{
    if n > 0 {
        lemma_item_texts(s, (n - 1) as nat);
        let ts = item_texts(s, (n - 1) as nat)->0;
        let us = item_texts(s, n)->0;
        assert forall|i: int| 0 <= i < n implies s[i] == JsonV::Str(#[trigger] us[i]) by {
            if i < n - 1 {
                assert(us[i] == ts[i]);
            }
        }
    }
}

// ---------------------------------------------------------------------------
// Batches
// ---------------------------------------------------------------------------

/// A row ready to be written: its cells in the order of the scalar fields and
/// its vectors, as 32-bit float patterns, in the order of the vector fields.
#[derive(Debug, PartialEq, Eq)]
pub struct Row {
    pub record: Record,
    pub cells: Vec<Cell>,
    pub vectors: Vec<Vec<u32>>,
}

/// The model of a row ready to be written.
pub struct RowV {
    pub record: RecordV,
    pub cells: Seq<CellV>,
    pub vectors: Seq<Seq<u32>>,
}

impl View for Row {
    type V = RowV;

    open spec fn view(&self) -> RowV {
        RowV {
            record: self.record@,
            cells: cells(self.cells@),
            vectors: patterns(self.vectors@),
        }
    }
}

/// The number patterns of a list of vectors.
pub open spec fn patterns(v: Seq<Vec<u32>>) -> Seq<Seq<u32>> {
    Seq::new(v.len(), |i: int| v[i]@)
}

/// The models of a list of rows ready to be written.
pub open spec fn rows(v: Seq<Row>) -> Seq<RowV> {
    Seq::new(v.len(), |i: int| v[i]@)
}

/// The cells of the first `n` scalar fields.
pub open spec fn row_cells(
    fields: Dict<FieldConfig>,
    extra: Seq<(Seq<char>, JsonV)>,
    n: nat,
) -> Result<Seq<CellV>, Seq<char>>
    decreases n,
{
    if n == 0 || n > fields.keys@.len() {
        Ok(Seq::empty())
    } else {
        match row_cells(fields, extra, (n - 1) as nat) {
            Err(e) => Err(e),
            Ok(cs) => match cell_of(
                fields.vals@[n - 1],
                json::lookup(extra, fields.keys@[n - 1]@),
            ) {
                Err(e) => Err(e),
                Ok(c) => Ok(cs.push(c)),
            },
        }
    }
}

/// The vector of one vector field, or why there is none that fits.
pub open spec fn row_vector(v: VectorFieldConfig, given: Map<Seq<char>, Vec<u32>>) -> Result<
    Seq<u32>,
    Seq<char>,
> {
    if !given.dom().contains(v.name@) {
        Err("missing vector for column "@ + v.name@)
    } else if given[v.name@]@.len() != v.dim {
        Err(
            "vector column `"@ + v.name@ + "`: expected dim "@ + text::decimal(v.dim as nat)
                + ", got "@ + text::decimal(given[v.name@]@.len()),
        )
    } else {
        Ok(given[v.name@]@)
    }
}

/// The vectors of the first `n` vector fields.
pub open spec fn row_vectors(
    vectors: Seq<VectorFieldConfig>,
    given: Map<Seq<char>, Vec<u32>>,
    n: nat,
) -> Result<Seq<Seq<u32>>, Seq<char>>
    decreases n,
{
    if n == 0 || n > vectors.len() {
        Ok(Seq::empty())
    } else {
        match row_vectors(vectors, given, (n - 1) as nat) {
            Err(e) => Err(e),
            Ok(vs) => match row_vector(vectors[n - 1], given) {
                Err(e) => Err(e),
                Ok(v) => Ok(vs.push(v)),
            },
        }
    }
}

/// A record as a row, or why it does not fit the table.
pub open spec fn row_of(
    fields: Dict<FieldConfig>,
    vectors: Seq<VectorFieldConfig>,
    rec: RecordV,
    given: Map<Seq<char>, Vec<u32>>,
) -> Result<RowV, Seq<char>> {
    match row_cells(fields, rec.extra, fields.keys@.len()) {
        Err(e) => Err(e),
        Ok(cells) => match row_vectors(vectors, given, vectors.len()) {
            Err(e) => Err(e),
            Ok(vectors) => Ok(RowV { record: rec, cells, vectors }),
        },
    }
}

/// A record with the vectors it is written with.
#[derive(Debug)]
pub struct Entry {
    pub record: Record,
    /// Vectors, as 32-bit float patterns, by vector field name.
    pub vectors: Dict<Vec<u32>>,
}

/// The first `n` entries as rows, or why the first that does not fit does not.
pub open spec fn batch_of(
    fields: Dict<FieldConfig>,
    vectors: Seq<VectorFieldConfig>,
    entries: Seq<Entry>,
    n: nat,
) -> Result<Seq<RowV>, Seq<char>>
    decreases n,
{
    if n == 0 || n > entries.len() {
        Ok(Seq::empty())
    } else {
        match batch_of(fields, vectors, entries, (n - 1) as nat) {
            Err(e) => Err(e),
            Ok(rs) => match row_of(
                fields,
                vectors,
                entries[n - 1].record@,
                entries[n - 1].vectors@,
            ) {
                Err(e) => Err(e),
                Ok(r) => Ok(rs.push(r)),
            },
        }
    }
}

proof fn lemma_row_cells_error(
    fields: Dict<FieldConfig>,
    extra: Seq<(Seq<char>, JsonV)>,
    i: nat,
    n: nat,
)
    requires
        i <= n <= fields.keys@.len(),
        row_cells(fields, extra, i) is Err,
    ensures
        row_cells(fields, extra, n) == row_cells(fields, extra, i),
    decreases n - i,
{
    if i < n {
        lemma_row_cells_error(fields, extra, i, (n - 1) as nat);
    }
}

proof fn lemma_row_vectors_error(
    vectors: Seq<VectorFieldConfig>,
    given: Map<Seq<char>, Vec<u32>>,
    i: nat,
    n: nat,
)
    requires
        i <= n <= vectors.len(),
        row_vectors(vectors, given, i) is Err,
    ensures
        row_vectors(vectors, given, n) == row_vectors(vectors, given, i),
    decreases n - i,
{
    if i < n {
        lemma_row_vectors_error(vectors, given, i, (n - 1) as nat);
    }
}

proof fn lemma_batch_error(
    fields: Dict<FieldConfig>,
    vectors: Seq<VectorFieldConfig>,
    entries: Seq<Entry>,
    i: nat,
    n: nat,
)
    requires
        i <= n <= entries.len(),
        batch_of(fields, vectors, entries, i) is Err,
    ensures
        batch_of(fields, vectors, entries, n) == batch_of(fields, vectors, entries, i),
    decreases n - i,
{
    if i < n {
        lemma_batch_error(fields, vectors, entries, i, (n - 1) as nat);
    }
}

/// The same vector again.
pub fn copy_vector(v: &Vec<u32>) -> (r: Vec<u32>)
    ensures
        r@ == v@,
{
    let mut r: Vec<u32> = Vec::new();
    let mut i: usize = 0;
    while i < v.len()
        invariant
            i <= v@.len(),
            r@ == v@.take(i as int),
        decreases v@.len() - i,
    {
        r.push(v[i]);
        i = i + 1;
        assert(r@ =~= v@.take(i as int));
    }
    assert(v@.take(i as int) =~= v@);
    r
}

/// The vector of one vector field.
fn vector_cell(v: &VectorFieldConfig, given: &Dict<Vec<u32>>) -> (r: Result<Vec<u32>, String>)
    requires
        given.wf(),
    ensures
        (match r {
            Ok(x) => row_vector(*v, given@) == Ok::<Seq<u32>, Seq<char>>(x@),
            Err(e) => row_vector(*v, given@) == Err::<Seq<u32>, Seq<char>>(e@),
        }),
{
    match given.get(v.name.as_str()) {
        None => Err(text::cat2("missing vector for column ", v.name.as_str())),
        Some(x) => if x.len() != v.dim {
            let d: String = text::usize_text(v.dim);
            let n: String = text::usize_text(x.len());
            let mut e: String = text::cat5(
                "vector column `",
                v.name.as_str(),
                "`: expected dim ",
                d.as_str(),
                ", got ",
            );
            e.append(n.as_str());
            Err(e)
        } else {
            Ok(copy_vector(x))
        },
    }
}

/// A record as a row.
fn build_row(
    fields: &Dict<FieldConfig>,
    vector_fields: &Vec<VectorFieldConfig>,
    entry: &Entry,
) -> (r: Result<Row, String>)
    requires
        fields.wf(),
        entry.vectors.wf(),
    ensures
        (match r {
            Ok(x) => row_of(*fields, vector_fields@, entry.record@, entry.vectors@) == Ok::<
                RowV,
                Seq<char>,
            >(x@),
            Err(e) => row_of(*fields, vector_fields@, entry.record@, entry.vectors@) == Err::<
                RowV,
                Seq<char>,
            >(e@),
        }),
{
    let ghost extra = json::entries(entry.record.extra@);
    let n: usize = fields.keys.len();
    let mut cs: Vec<Cell> = Vec::new();
    let mut i: usize = 0;
    assert(cells(cs@) =~= Seq::empty());
    while i < n
        invariant
            fields.wf(),
            n == fields.keys@.len(),
            extra == json::entries(entry.record.extra@),
            i <= n,
            row_cells(*fields, extra, i as nat) == Ok::<Seq<CellV>, Seq<char>>(cells(cs@)),
        decreases n - i,
    {
        let ghost was = cells(cs@);
        let v: Option<&Json> = json::find(&entry.record.extra, fields.keys[i].as_str());
        match set_scalar(&fields.vals[i], v) {
            Ok(c) => {
                cs.push(c);
                assert(cells(cs@) =~= was.push(c@));
            },
            Err(e) => {
                proof {
                    lemma_row_cells_error(*fields, extra, (i + 1) as nat, n as nat);
                }
                return Err(e);
            },
        }
        i = i + 1;
    }
    let m: usize = vector_fields.len();
    let mut vs: Vec<Vec<u32>> = Vec::new();
    let mut k: usize = 0;
    assert(patterns(vs@) =~= Seq::empty());
    while k < m
        invariant
            entry.vectors.wf(),
            m == vector_fields@.len(),
            k <= m,
            row_cells(*fields, extra, fields.keys@.len()) is Ok,
            extra == entry.record@.extra,
            row_vectors(vector_fields@, entry.vectors@, k as nat) == Ok::<
                Seq<Seq<u32>>,
                Seq<char>,
            >(patterns(vs@)),
        decreases m - k,
    {
        let ghost was = patterns(vs@);
        match vector_cell(&vector_fields[k], &entry.vectors) {
            Ok(x) => {
                vs.push(x);
                assert(patterns(vs@) =~= was.push(x@));
            },
            Err(e) => {
                proof {
                    lemma_row_vectors_error(
                        vector_fields@,
                        entry.vectors@,
                        (k + 1) as nat,
                        m as nat,
                    );
                }
                return Err(e);
            },
        }
        k = k + 1;
    }
    Ok(Row { record: entry.record.copy(), cells: cs, vectors: vs })
}

/// The entries as rows of the table; a missing required value, a value of the
/// wrong type, or a missing or wrongly sized vector refuses the whole batch.
pub fn build_batch(
    fields: &Dict<FieldConfig>,
    vector_fields: &Vec<VectorFieldConfig>,
    entries: &Vec<Entry>,
) -> (r: Result<Vec<Row>, String>)
    requires
        fields.wf(),
        forall|i: int| 0 <= i < entries@.len() ==> (#[trigger] entries@[i]).vectors.wf(),
    ensures
        (match r {
            Ok(x) => batch_of(*fields, vector_fields@, entries@, entries@.len()) == Ok::<
                Seq<RowV>,
                Seq<char>,
            >(rows(x@)),
            Err(e) => batch_of(*fields, vector_fields@, entries@, entries@.len()) == Err::<
                Seq<RowV>,
                Seq<char>,
            >(e@),
        }),
{
    let n: usize = entries.len();
    let mut out: Vec<Row> = Vec::new();
    let mut i: usize = 0;
    assert(rows(out@) =~= Seq::empty());
    while i < n
        invariant
            fields.wf(),
            forall|i: int| 0 <= i < entries@.len() ==> (#[trigger] entries@[i]).vectors.wf(),
            n == entries@.len(),
            i <= n,
            batch_of(*fields, vector_fields@, entries@, i as nat) == Ok::<Seq<RowV>, Seq<char>>(
                rows(out@),
            ),
        decreases n - i,
    {
        let ghost was = rows(out@);
        match build_row(fields, vector_fields, &entries[i]) {
            Ok(row) => {
                out.push(row);
                assert(rows(out@) =~= was.push(row@));
            },
            Err(e) => {
                proof {
                    lemma_batch_error(
                        *fields,
                        vector_fields@,
                        entries@,
                        (i + 1) as nat,
                        n as nat,
                    );
                }
                return Err(e);
            },
        }
        i = i + 1;
    }
    Ok(out)
}

} // verus!
