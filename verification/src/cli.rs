//! The command line: what its arguments mean and what it prints.

use crate::chunker;
use crate::dict::Dict;
use crate::hash;
use crate::json;
use crate::json::{Json, JsonV, NumberV};
use crate::mcp;
use crate::query;
use crate::query::Pred;
use crate::schema::SchemaConfig;
use crate::store;
use crate::store::{InputDoc, Record};
use crate::text;
use vstd::prelude::*;

verus! {

broadcast use vstd::string::group_string_axioms;

// ---------------------------------------------------------------------------
// Values of fields
// ---------------------------------------------------------------------------

/// The parts of a text between bars, each without white space around it.
pub open spec fn list_value(v: Seq<char>) -> JsonV {
    let p = text::parts(v, '|');
    JsonV::Arr(Seq::new(p.len(), |i: int| JsonV::Str(text::trimmed(p[i]))))
}

/// What a text means as a value of a field of the type `t`, or why it means
/// nothing.
pub open spec fn meta_value(t: Seq<char>, v: Seq<char>) -> Result<JsonV, Seq<char>> {
    if t == "string"@ || t == "text"@ {
        Ok(JsonV::Str(v))
    } else if t == "bool"@ {
        Ok(JsonV::Bool(v == "true"@ || v == "1"@))
    } else if t == "int64"@ || t == "timestamp"@ {
        match json::integer_said(v) {
            Ok(i) => Ok(JsonV::Num(NumberV::Int(i))),
            Err(e) => Err(e),
        }
    } else if t == "float32"@ {
        match json::float_said(v) {
            Ok(f) => Ok(json::float_value(f)),
            Err(e) => Err(e),
        }
    } else if t == "list<string>"@ {
        Ok(list_value(v))
    } else {
        Err("unsupported meta type "@ + t)
    }
}

/// The field that one `KEY=VALUE` gives and its value, or why it gives none.
pub open spec fn meta_entry(c: SchemaConfig, m: Seq<char>) -> Result<
    (Seq<char>, JsonV),
    Seq<char>,
> {
    match text::cut_from(m, '=', 0) {
        None => Err("--meta expects KEY=VALUE, got `"@ + m + "`"@),
        Some((k, v)) => if !c.fields@.dom().contains(k) {
            Err("--meta key `"@ + k + "` is not in schema [fields]"@)
        } else {
            match meta_value(c.fields@[k].kind@, v) {
                Ok(j) => Ok((k, j)),
                Err(e) => Err(e),
            }
        },
    }
}

/// The values that the first `n` arguments give; a later one for the same field
/// replaces an earlier one.
pub open spec fn meta_entries(c: SchemaConfig, metas: Seq<Seq<char>>, n: nat) -> Result<
    Seq<(Seq<char>, JsonV)>,
    Seq<char>,
>
    decreases n,
{
    if n == 0 {
        Ok(Seq::empty())
    } else {
        match meta_entries(c, metas, (n - 1) as nat) {
            Err(e) => Err(e),
            Ok(before) => match meta_entry(c, metas[n - 1]) {
                Err(e) => Err(e),
                Ok((k, j)) => Ok(json::with_entry(before, k, j)),
            },
        }
    }
}

fn list_json(v: &str) -> (r: Json)
    ensures
        r@ == list_value(v@),
{
    let parts: Vec<String> = text::split(v, '|');
    let ghost p = text::parts(v@, '|');
    let mut out: Vec<Json> = Vec::new();
    let mut i: usize = 0;
    while i < parts.len()
        invariant
            p == text::texts(parts@),
            i <= parts@.len(),
            out@.len() == i,
            forall|k: int| 0 <= k < i ==> (#[trigger] out@[k])@ == JsonV::Str(text::trimmed(p[k])),
        decreases parts@.len() - i,
    {
        let t: String = text::trim(parts[i].as_str());
        out.push(Json::Str(t));
        i = i + 1;
    }
    proof {
        json::lemma_arr_view(out);
        assert(json::items(out@) =~= Seq::new(p.len(), |i: int| JsonV::Str(text::trimmed(p[i]))));
    }
    Json::Arr(out)
}

fn read_value(t: &str, v: &str) -> (r: Result<Json, String>)
    ensures
        (match r {
            Ok(j) => meta_value(t@, v@) == Ok::<JsonV, Seq<char>>(j@),
            Err(e) => meta_value(t@, v@) == Err::<JsonV, Seq<char>>(e@),
        }),
{
    if text::same(t, "string") || text::same(t, "text") {
        Ok(Json::string(v))
    } else if text::same(t, "bool") {
        Ok(Json::Bool(text::same(v, "true") || text::same(v, "1")))
    } else if text::same(t, "int64") || text::same(t, "timestamp") {
        json::read_integer(v)
    } else if text::same(t, "float32") {
        json::read_float(v)
    } else if text::same(t, "list<string>") {
        Ok(list_json(v))
    } else {
        Err(text::cat2("unsupported meta type ", t))
    }
}

proof fn lemma_meta_error(c: SchemaConfig, metas: Seq<Seq<char>>, i: nat, n: nat)
    requires
        i <= n <= metas.len(),
        meta_entries(c, metas, i) is Err,
    ensures
        meta_entries(c, metas, n) == meta_entries(c, metas, i),
    decreases n,
{
    if i < n {
        lemma_meta_error(c, metas, i, (n - 1) as nat);
    }
}

/// The values of fields that `KEY=VALUE` arguments give.
pub fn parse_metas(metas: &Vec<String>, config: &SchemaConfig) -> (r: Result<
    Vec<(String, Json)>,
    String,
>)
    requires
        config.wf(),
    ensures
        (match r {
            Ok(e) => meta_entries(*config, text::texts(metas@), metas@.len()) == Ok::<
                Seq<(Seq<char>, JsonV)>,
                Seq<char>,
            >(json::entries(e@)),
            Err(m) => meta_entries(*config, text::texts(metas@), metas@.len()) == Err::<
                Seq<(Seq<char>, JsonV)>,
                Seq<char>,
            >(m@),
        }),
{
    let ghost ms = text::texts(metas@);
    let mut extra: Vec<(String, Json)> = Vec::new();
    assert(json::entries(extra@) =~= Seq::empty());
    let mut i: usize = 0;
    while i < metas.len()
        invariant
            config.wf(),
            ms == text::texts(metas@),
            i <= metas@.len(),
            meta_entries(*config, ms, i as nat) == Ok::<Seq<(Seq<char>, JsonV)>, Seq<char>>(
                json::entries(extra@),
            ),
        decreases metas@.len() - i,
    {
        let m: &str = metas[i].as_str();
        assert(ms[i as int] == m@);
        let read: Result<(String, Json), String> = match text::split_once(m, '=') {
            None => Err(text::cat3("--meta expects KEY=VALUE, got `", m, "`")),
            Some((k, v)) => match config.fields.get(k.as_str()) {
                None => Err(
                    text::cat3("--meta key `", k.as_str(), "` is not in schema [fields]"),
                ),
                Some(f) => match read_value(f.kind.as_str(), v.as_str()) {
                    Ok(j) => Ok((k, j)),
                    Err(e) => Err(e),
                },
            },
        };
        match read {
            Ok((k, j)) => {
                json::put(&mut extra, k.as_str(), j);
            },
            Err(e) => {
                proof {
                    assert(meta_entries(*config, ms, (i + 1) as nat) == Err::<
                        Seq<(Seq<char>, JsonV)>,
                        Seq<char>,
                    >(e@));
                    lemma_meta_error(*config, ms, (i + 1) as nat, metas@.len());
                }
                return Err(e);
            },
        }
        i = i + 1;
    }
    Ok(extra)
}

/// A value that is read from the command line passes the check of values for
/// the type it was read for.
pub proof fn law_read_values_are_accepted(t: Seq<char>, v: Seq<char>)
    requires
        meta_value(t, v) is Ok,
    ensures
        mcp::value_error(t, meta_value(t, v)->Ok_0) is None,
{
    reveal_strlit("string");
    reveal_strlit("text");
    reveal_strlit("bool");
    reveal_strlit("int64");
    reveal_strlit("float32");
    reveal_strlit("timestamp");
    reveal_strlit("list<string>");
    assert("string"@.len() == 6 && "int64"@.len() == 5 && "float32"@.len() == 7);
    assert("timestamp"@.len() == 9 && "list<string>"@.len() == 12 && "bool"@.len() == 4);
    assert("text"@.len() == 4 && "text"@[0] != "bool"@[0]);
}

// ---------------------------------------------------------------------------
// Adding a document
// ---------------------------------------------------------------------------

/// The language of a document: markdown by its path or its headings.
pub open spec fn language_of(path: Seq<char>, body: Seq<char>) -> Seq<char> {
    if ".md"@.is_suffix_of(path) || ".markdown"@.is_suffix_of(path) || text::occurs(body, "## "@) {
        "markdown"@
    } else {
        "text"@
    }
}

/// The language of a document.
pub fn detect_language(path: &str, body: &str) -> (r: String)
    ensures
        r@ == language_of(path@, body@),
{
    if text::ends_with(path, ".md") || text::ends_with(path, ".markdown") || text::contains(
        body,
        "## ",
    ) {
        "markdown".to_string()
    } else {
        "text".to_string()
    }
}

/// The text to add: that of the file, else the one given.
pub fn choose_text(file: Option<String>, given: Option<String>) -> (r: Result<String, String>)
    ensures
        (match r {
            Ok(t) => file == Some(t) || (file is None && given == Some(t)),
            Err(e) => file is None && given is None && e@ == "--file or --text required"@,
        }),
{
    match file {
        Some(f) => Ok(f),
        None => match given {
            Some(t) => Ok(t),
            None => Err("--file or --text required".to_string()),
        },
    }
}

/// The document to add.
pub fn cli_document(
    c: &SchemaConfig,
    body: &str,
    source: &str,
    metas: Vec<(String, Json)>,
) -> (r: InputDoc)
    requires
        c.wf(),
    ensures
        r.id@ == hash::blake3_hex(body@),
        r.raw_text@ == body@,
        r.source_path@ == source@,
        r.source_type@ == "file"@,
        store::opt_view(r.language) == Some(language_of(source@, body@)),
        json::entries(r.extra@) == mcp::with_source(
            *c,
            json::entries(metas@),
            source@,
            "file"@,
        ),
        r.vectors.wf(),
        r.vectors@ == Map::<Seq<char>, Vec<u32>>::empty(),
{
    let mut extra: Vec<(String, Json)> = metas;
    mcp::fill_source(c, &mut extra, source, "file");
    InputDoc {
        id: hash::content_hash(body),
        raw_text: body.to_string(),
        source_path: source.to_string(),
        source_type: "file".to_string(),
        language: Some(detect_language(source, body)),
        extra,
        vectors: Dict::new(),
    }
}

/// What is printed after a document was added.
pub fn added_line(replaced: Option<&str>) -> (r: String)
    ensures
        r@ == (match chunker::opt_text(replaced) {
            Some(old_id) => "added (id auto-hashed from content)"@ + " — replaced old version "@
                + old_id,
            None => "added (id auto-hashed from content)"@,
        }),
{
    match replaced {
        Some(old_id) => text::cat3(
            "added (id auto-hashed from content)",
            " — replaced old version ",
            old_id,
        ),
        None => "added (id auto-hashed from content)".to_string(),
    }
}

// ---------------------------------------------------------------------------
// Making a database
// ---------------------------------------------------------------------------

/// The error where a vector column does not fit the embedder.
pub open spec fn dim_error(name: Seq<char>, dim: nat, actual: nat) -> Seq<char> {
    "vector column `"@ + name + "`: configured dim "@ + text::decimal(dim)
        + " != embedder output dim "@ + text::decimal(actual)
        + " (embedding model: check Config.toml [embedding])"@
}

/// The first of the first `n` vector columns that is embedded on write and does
/// not fit the embedder, if there is one.
pub open spec fn misfit(c: SchemaConfig, actual: usize, n: int) -> Option<int>
    decreases n,
{
    if n <= 0 {
        None
    } else {
        match misfit(c, actual, n - 1) {
            Some(i) => Some(i),
            None => {
                let v = c.vector.fields@[n - 1];
                if v.auto_embed && v.dim != actual {
                    Some(n - 1)
                } else {
                    None
                }
            },
        }
    }
}

proof fn lemma_misfit(c: SchemaConfig, actual: usize, i: int, n: int)
    requires
        0 <= i <= n,
        misfit(c, actual, i) is Some,
    ensures
        misfit(c, actual, n) == misfit(c, actual, i),
    decreases n,
{
    if i < n {
        lemma_misfit(c, actual, i, n - 1);
    }
}

/// Checks that the vector columns that are embedded on write fit the embedder.
pub fn check_dims(c: &SchemaConfig, actual: usize) -> (r: Result<(), String>)
    ensures
        ({
            let m = misfit(*c, actual, c.vector.fields@.len() as int);
            match r {
                Ok(_) => m is None,
                Err(e) => m matches Some(i) && e@ == dim_error(
                    c.vector.fields@[i].name@,
                    c.vector.fields@[i].dim as nat,
                    actual as nat,
                ),
            }
        }),
{
    let mut i: usize = 0;
    while i < c.vector.fields.len()
        invariant
            i <= c.vector.fields@.len(),
            misfit(*c, actual, i as int) is None,
        decreases c.vector.fields@.len() - i,
    {
        if c.vector.fields[i].auto_embed && c.vector.fields[i].dim != actual {
            proof {
                assert(misfit(*c, actual, i + 1) == Some(i as int));
                lemma_misfit(*c, actual, i + 1, c.vector.fields@.len() as int);
            }
            let d: String = text::usize_text(c.vector.fields[i].dim);
            let a: String = text::usize_text(actual);
            return Err(
                text::cat7(
                    "vector column `",
                    c.vector.fields[i].name.as_str(),
                    "`: configured dim ",
                    d.as_str(),
                    " != embedder output dim ",
                    a.as_str(),
                    " (embedding model: check Config.toml [embedding])",
                ),
            );
        }
        i = i + 1;
    }
    Ok(())
}

/// What is printed after a database was made.
pub fn initialized_line(db: &str, vectors: usize, fields: usize) -> (r: String)
    ensures
        r@ == "initialized database at "@ + db@ + " ("@ + text::decimal(vectors as nat)
            + " vector cols, "@ + text::decimal(fields as nat) + " user fields)"@,
{
    let v: String = text::usize_text(vectors);
    let f: String = text::usize_text(fields);
    text::cat7(
        "initialized database at ",
        db,
        " (",
        v.as_str(),
        " vector cols, ",
        f.as_str(),
        " user fields)",
    )
}

// ---------------------------------------------------------------------------
// Querying
// ---------------------------------------------------------------------------

/// How a query is made.
#[derive(Debug, Clone, Copy, PartialEq, Eq, Structural)]
pub enum QueryMode {
    /// By meaning, giving chunks.
    Semantic,
    /// By meaning, giving documents.
    Parent,
    /// By words.
    Fts,
    /// By meaning, ranked again.
    Rerank,
}

/// The mode that a text names.
pub open spec fn mode_named(s: Seq<char>) -> Option<QueryMode> {
    if s == "semantic"@ {
        Some(QueryMode::Semantic)
    } else if s == "parent"@ {
        Some(QueryMode::Parent)
    } else if s == "fts"@ {
        Some(QueryMode::Fts)
    } else if s == "rerank"@ {
        Some(QueryMode::Rerank)
    } else {
        None
    }
}

impl QueryMode {
    /// The mode that a text names.
    pub fn parse(s: &str) -> (r: Result<QueryMode, String>)
        ensures
            (match r {
                Ok(m) => mode_named(s@) == Some(m),
                Err(e) => mode_named(s@) is None && e@ == "unknown mode `"@ + s@
                    + "` (semantic|parent|fts|rerank)"@,
            }),
    {
        if text::same(s, "semantic") {
            Ok(QueryMode::Semantic)
        } else if text::same(s, "parent") {
            Ok(QueryMode::Parent)
        } else if text::same(s, "fts") {
            Ok(QueryMode::Fts)
        } else if text::same(s, "rerank") {
            Ok(QueryMode::Rerank)
        } else {
            Err(text::cat3("unknown mode `", s, "` (semantic|parent|fts|rerank)"))
        }
    }
}

/// The SQL of a filter that is given as JSON text, or why there is none.
pub open spec fn compiled(c: SchemaConfig, said: Result<JsonV, Seq<char>>) -> Result<
    Seq<char>,
    Seq<char>,
> {
    match said {
        Err(e) => Err(e),
        Ok(j) => match query::pred_of(j) {
            Err(e) => Err(e),
            Ok(p) => query::filter_sql(c, p),
        },
    }
}

/// The SQL of a filter that was read from JSON text.
pub fn compile_said(c: &SchemaConfig, said: Result<Json, String>) -> (r: Result<String, String>)
    requires
        c.wf(),
    ensures
        query::outcome(
            r,
            compiled(
                *c,
                match said {
                    Ok(j) => Ok(j@),
                    Err(e) => Err(e@),
                },
            ),
        ),
{
    match said {
        Err(e) => Err(e),
        Ok(j) => match Pred::from_json(&j) {
            Err(e) => Err(e),
            Ok(p) => p.compile(c),
        },
    }
}

/// The SQL condition of a query: from the JSON filter, else as it is given.
pub fn filter_condition(
    c: &SchemaConfig,
    filter: Option<&str>,
    filter_sql: Option<&str>,
) -> (r: Result<Option<String>, String>)
    requires
        c.wf(),
    ensures
        (match chunker::opt_text(filter) {
            Some(f) => match compiled(*c, json::parsed(f)) {
                Ok(sql) => r matches Ok(x) && store::opt_view(x) == Some(sql),
                Err(e) => r matches Err(x) && x@ == e,
            },
            None => r matches Ok(x) && store::opt_view(x) == chunker::opt_text(filter_sql),
        }),
{
    match filter {
        Some(f) => match compile_said(c, Json::parse(f)) {
            Ok(sql) => Ok(Some(sql)),
            Err(e) => Err(e),
        },
        None => match filter_sql {
            Some(s) => Ok(Some(s.to_string())),
            None => Ok(None),
        },
    }
}

/// What is printed for the first `n` rows that were found.
pub open spec fn rows_text(rows: Seq<store::RecordV>, n: nat) -> Seq<char>
    decreases n,
{
    if n == 0 {
        Seq::empty()
    } else {
        rows_text(rows, (n - 1) as nat) + json::pretty_text(query::record_value(rows[n - 1]))
            + "\n---\n"@
    }
}

/// What is printed for the rows that were found.
pub fn results_text(rows: &Vec<Record>) -> (r: String)
    ensures
        r@ == rows_text(store::records(rows@), rows@.len()) + "["@ + text::decimal(
            rows@.len(),
        ) + " results]"@,
{
    let ghost rs = store::records(rows@);
    let mut out: String = String::new();
    let mut i: usize = 0;
    while i < rows.len()
        invariant
            rs == store::records(rows@),
            i <= rows@.len(),
            out@ == rows_text(rs, i as nat),
        decreases rows@.len() - i,
    {
        let p: String = query::record_json(&rows[i]).pretty();
        out.append(p.as_str());
        out.append("\n---\n");
        i = i + 1;
    }
    let n: String = text::usize_text(rows.len());
    out.append("[");
    out.append(n.as_str());
    out.append(" results]");
    out
}

} // verus!
