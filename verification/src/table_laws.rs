//! What holds of every table, and of what services are reached with.

use crate::asking::{AskStage, Asking};
use crate::cli;
use crate::cli::QueryMode;
use crate::config::{EmbeddingV, RerankV};
use crate::dict::Dict;
use crate::embedding;
use crate::embedding::EmbedderV;
use crate::filter_laws;
use crate::hash;
use crate::http;
use crate::http::Reply;
use crate::hybrid;
use crate::hybrid_laws;
use crate::ingest;
use crate::ingest::Writer;
use crate::json;
use crate::json::JsonV;
use crate::plugins::graph;
use crate::query;
use crate::query::PredV;
use crate::reranker;
use crate::reranker::RerankerV;
use crate::schema;
use crate::schema::{FieldConfig, SchemaConfig, VectorFieldConfig};
use crate::server;
use crate::store;
use crate::store::{Cell, ColumnType, ColumnV, IndexKind, IndexV, InputDoc};
use crate::text;
use crate::write_laws;
use crate::writing;
use crate::writing::{AddStage, Adding};
use vstd::prelude::*;

verus! {

broadcast use vstd::string::group_string_axioms;

// ---------------------------------------------------------------------------
// Columns
// ---------------------------------------------------------------------------

/// Whether a table has a column.
pub open spec fn has_column(
    cs: Seq<ColumnV>,
    name: Seq<char>,
    kind: ColumnType,
    nullable: bool,
) -> bool {
    exists|i: int| 0 <= i < cs.len() && #[trigger] cs[i] == (ColumnV { name, kind, nullable })
}

/// A table has a column for everything that is written: the columns that every
/// row has, one for each field with the type of the field, and one for each
/// vector field with its dimension; and no other.
pub proof fn law_tables_have_a_column_for_everything(
    fields: Dict<FieldConfig>,
    vectors: Seq<VectorFieldConfig>,
)
    ensures
        ({
            let cs = store::table_columns(fields, vectors);
            &&& cs.len() == 7 + fields.keys@.len() + vectors.len()
            &&& has_column(cs, "id"@, ColumnType::Utf8, false)
            &&& has_column(cs, "raw_text"@, ColumnType::Utf8, false)
            &&& has_column(cs, "source_path"@, ColumnType::Utf8, false)
            &&& has_column(cs, "source_type"@, ColumnType::Utf8, false)
            &&& has_column(cs, "chunk_level"@, ColumnType::UInt8, false)
            &&& has_column(cs, "chunk_index"@, ColumnType::UInt32, false)
            &&& has_column(cs, "parent_doc_id"@, ColumnType::Utf8, true)
            &&& forall|i: int|
                0 <= i < fields.keys@.len() ==> has_column(
                    cs,
                    (#[trigger] fields.keys@[i])@,
                    store::column_type(fields.vals@[i].kind@),
                    true,
                )
            &&& forall|i: int|
                0 <= i < vectors.len() ==> has_column(
                    cs,
                    (#[trigger] vectors[i]).name@,
                    ColumnType::Vector(vectors[i].dim),
                    false,
                )
        }),
{
    let cs = store::table_columns(fields, vectors);
    let f = store::fixed_columns();
    let n = fields.keys@.len() as int;
    assert(cs[0] == f[0] && cs[1] == f[1] && cs[2] == f[2] && cs[3] == f[3] && cs[4] == f[4]
        && cs[5] == f[5] && cs[6] == f[6]);
    assert forall|i: int| 0 <= i < fields.keys@.len() implies has_column(
        cs,
        (#[trigger] fields.keys@[i])@,
        store::column_type(fields.vals@[i].kind@),
        true,
    ) by {
        assert(cs[7 + i] == store::scalar_columns(fields)[i]);
    }
    assert forall|i: int| 0 <= i < vectors.len() implies has_column(
        cs,
        (#[trigger] vectors[i]).name@,
        ColumnType::Vector(vectors[i].dim),
        false,
    ) by {
        assert(cs[7 + n + i] == store::vector_columns(vectors)[i]);
    }
}

/// Each type of a field has a column type of its own; both kinds of text share
/// one.
pub proof fn law_types_have_columns()
    ensures
        store::column_type("string"@) == ColumnType::Utf8,
        store::column_type("text"@) == ColumnType::Utf8,
        store::column_type("bool"@) == ColumnType::Bool,
        store::column_type("int64"@) == ColumnType::Int64,
        store::column_type("float32"@) == ColumnType::Float32,
        store::column_type("timestamp"@) == ColumnType::Timestamp,
        store::column_type("list<string>"@) == ColumnType::ListUtf8,
{
    filter_laws::lemma_type_names();
}

/// What is read back of a row is what makes it up: the columns that every row has
/// and all its fields.
pub proof fn law_rows_are_read_whole(fields: Dict<FieldConfig>)
    ensures
        ({
            let cs = store::read_columns(fields);
            &&& cs.len() == 7 + fields.names().len()
            &&& cs.contains("id"@)
            &&& cs.contains("raw_text"@)
            &&& cs.contains("chunk_level"@)
            &&& cs.contains("chunk_index"@)
            &&& cs.contains("parent_doc_id"@)
            &&& cs.contains("source_path"@)
            &&& cs.contains("source_type"@)
            &&& forall|i: int|
                0 <= i < fields.names().len() ==> cs.contains(#[trigger] fields.names()[i])
        }),
{
    let cs = store::read_columns(fields);
    assert(cs[0] == "id"@);
    assert(cs[1] == "raw_text"@);
    assert(cs[2] == "chunk_level"@);
    assert(cs[3] == "chunk_index"@);
    assert(cs[4] == "parent_doc_id"@);
    assert(cs[5] == "source_path"@);
    assert(cs[6] == "source_type"@);
    assert forall|i: int| 0 <= i < fields.names().len() implies cs.contains(
        #[trigger] fields.names()[i],
    ) by {
        assert(cs[7 + i] == fields.names()[i]);
    }
}

/// The values of a row that is read are those of its cells, each under the name of
/// its field; an empty cell gives none.
pub proof fn law_cells_are_read_by_name(v: Seq<(String, Cell)>, n: nat)
    requires
        n <= v.len(),
        forall|i: int, j: int|
            0 <= i < j < v.len() ==> (#[trigger] v[i]).0@ != (#[trigger] v[j]).0@,
    ensures
        forall|i: int|
            0 <= i < n ==> json::lookup(store::values_in(v, n), (#[trigger] v[i]).0@)
                == store::value_in(v[i].1@),
        forall|k: Seq<char>|
            (forall|i: int| 0 <= i < n ==> (#[trigger] v[i]).0@ != k) ==> #[trigger] json::lookup(
                store::values_in(v, n),
                k,
            ) is None,
    decreases n,
{
    if n > 0 {
        law_cells_are_read_by_name(v, (n - 1) as nat);
        let before = store::values_in(v, (n - 1) as nat);
        let now = store::values_in(v, n);
        let key = v[n - 1].0@;
        let cell = store::value_in(v[n - 1].1@);
        assert forall|i: int| 0 <= i < n implies json::lookup(now, (#[trigger] v[i]).0@)
            == store::value_in(v[i].1@) by {
            if cell is Some {
                json::law_with_entry_reads_back(before, key, cell->0, v[i].0@);
            } else if i == n - 1 {
                assert(json::lookup(before, key) is None);
            }
        }
        assert forall|k: Seq<char>|
            (forall|i: int| 0 <= i < n ==> (#[trigger] v[i]).0@ != k) implies #[trigger] json::lookup(
            now,
            k,
        ) is None by {
            assert(v[n - 1].0@ != k);
            if cell is Some {
                json::law_with_entry_reads_back(before, key, cell->0, k);
            }
            assert(json::lookup(before, k) is None);
        }
    }
}

// ---------------------------------------------------------------------------
// Indexes
// ---------------------------------------------------------------------------

/// Whether an index on one column is among some.
pub open spec fn has_index(v: Seq<IndexV>, name: Seq<char>, kind: IndexKind) -> bool {
    exists|i: int|
        0 <= i < v.len() && #[trigger] v[i].kind == kind && v[i].columns == seq![name]
}

proof fn lemma_scalar_indexes(fields: Dict<FieldConfig>, n: int)
    requires
        0 <= n <= fields.keys@.len(),
    ensures
        forall|i: int|
            0 <= i < n && (#[trigger] fields.vals@[i]).index ==> has_index(
                store::scalar_indexes(fields, n),
                fields.keys@[i]@,
                IndexKind::BTree,
            ),
    decreases n,
{
    if n > 0 {
        lemma_scalar_indexes(fields, n - 1);
        let a = store::scalar_indexes(fields, n - 1);
        let b = store::scalar_indexes(fields, n);
        assert forall|i: int| 0 <= i < n && (#[trigger] fields.vals@[i]).index implies has_index(
            b,
            fields.keys@[i]@,
            IndexKind::BTree,
        ) by {
            if i < n - 1 {
                assert(has_index(a, fields.keys@[i]@, IndexKind::BTree));
                let k = choose|k: int|
                    0 <= k < a.len() && #[trigger] a[k].kind == IndexKind::BTree && a[k].columns
                        == seq![fields.keys@[i]@];
                assert(b[k].kind == a[k].kind);
            } else {
                assert(b[a.len() as int].kind == IndexKind::BTree);
            }
        }
    }
}

proof fn lemma_vector_indexes(vectors: Seq<VectorFieldConfig>, n: int)
    requires
        0 <= n <= vectors.len(),
    ensures
        forall|i: int|
            0 <= i < n && (#[trigger] vectors[i]).index@ == "ivf_pq"@ ==> has_index(
                store::vector_indexes(vectors, n),
                vectors[i].name@,
                IndexKind::IvfPq,
            ),
        forall|i: int|
            0 <= i < n && (#[trigger] vectors[i]).index@ == "ivf_flat"@ ==> has_index(
                store::vector_indexes(vectors, n),
                vectors[i].name@,
                IndexKind::IvfFlat,
            ),
    decreases n,
{
    reveal_strlit("ivf_pq");
    reveal_strlit("ivf_flat");
    assert("ivf_pq"@.len() == 6 && "ivf_flat"@.len() == 8);
    if n > 0 {
        lemma_vector_indexes(vectors, n - 1);
        let a = store::vector_indexes(vectors, n - 1);
        let b = store::vector_indexes(vectors, n);
        assert forall|i: int, kind: IndexKind|
            0 <= i < n && has_index(a, (#[trigger] vectors[i]).name@, kind) implies #[trigger] has_index(
            b,
            vectors[i].name@,
            kind,
        ) by {
            let k = choose|k: int|
                0 <= k < a.len() && #[trigger] a[k].kind == kind && a[k].columns
                    == seq![vectors[i].name@];
            assert(b[k].kind == a[k].kind);
        }
        assert forall|i: int| 0 <= i < n && (#[trigger] vectors[i]).index@ == "ivf_pq"@ implies has_index(
            b,
            vectors[i].name@,
            IndexKind::IvfPq,
        ) by {
            if i == n - 1 {
                assert(b[a.len() as int].kind == IndexKind::IvfPq);
            } else {
                assert(has_index(a, vectors[i].name@, IndexKind::IvfPq));
            }
        }
        assert forall|i: int|
            0 <= i < n && (#[trigger] vectors[i]).index@ == "ivf_flat"@ implies has_index(
            b,
            vectors[i].name@,
            IndexKind::IvfFlat,
        ) by {
            if i == n - 1 {
                assert(b[a.len() as int].kind == IndexKind::IvfFlat);
            } else {
                assert(has_index(a, vectors[i].name@, IndexKind::IvfFlat));
            }
        }
    }
}

proof fn lemma_index_among(v: Seq<IndexV>, at: int, all: Seq<IndexV>, name: Seq<char>, kind: IndexKind)
    requires
        has_index(v, name, kind),
        0 <= at,
        at + v.len() <= all.len(),
        all.subrange(at, at + v.len()) == v,
    ensures
        has_index(all, name, kind),
{
    let k = choose|k: int|
        0 <= k < v.len() && #[trigger] v[k].kind == kind && v[k].columns == seq![name];
    assert(all.subrange(at, at + v.len())[k] == all[at + k]);
    assert(all[at + k].kind == kind);
}

/// Every index that the schema asks for is made: one on the ids, one on each field
/// that asks for it, and the one that each vector field asks for; and words are
/// looked up in the text of rows and in every field of the type text.
pub proof fn law_all_indexes_are_made(c: SchemaConfig, vectors: Seq<VectorFieldConfig>)
    ensures
        ({
            let v = store::all_indexes(c, vectors);
            &&& has_index(v, "id"@, IndexKind::BTree)
            &&& forall|i: int|
                0 <= i < c.fields.keys@.len() && (#[trigger] c.fields.vals@[i]).index ==> has_index(
                    v,
                    c.fields.keys@[i]@,
                    IndexKind::BTree,
                )
            &&& forall|i: int|
                0 <= i < vectors.len() && (#[trigger] vectors[i]).index@ == "ivf_pq"@ ==> has_index(
                    v,
                    vectors[i].name@,
                    IndexKind::IvfPq,
                )
            &&& forall|i: int|
                0 <= i < vectors.len() && (#[trigger] vectors[i]).index@ == "ivf_flat"@
                    ==> has_index(v, vectors[i].name@, IndexKind::IvfFlat)
            &&& exists|k: int|
                0 <= k < v.len() && (#[trigger] v[k]).kind == IndexKind::FullText
                    && v[k].columns.contains("raw_text"@) && forall|i: int|
                    0 <= i < c.fields.keys@.len() && (#[trigger] c.fields.vals@[i]).kind@
                        == "text"@ ==> v[k].columns.contains(c.fields.keys@[i]@)
        }),
{
    let v = store::all_indexes(c, vectors);
    let n = c.fields.keys@.len() as int;
    let a = store::scalar_indexes(c.fields, n);
    let b = store::vector_indexes(vectors, vectors.len() as int);
    lemma_scalar_indexes(c.fields, n);
    lemma_vector_indexes(vectors, vectors.len() as int);
    crate::service_laws::law_marked_fields_are_named(c, n);
    assert(v[0].kind == IndexKind::BTree && v[0].columns == seq!["id"@]);
    assert(v.subrange(1, 1 + a.len() as int) =~= a);
    assert(v.subrange(2 + a.len() as int, 2 + a.len() as int + b.len() as int) =~= b);
    assert forall|i: int| 0 <= i < n && (#[trigger] c.fields.vals@[i]).index implies has_index(
        v,
        c.fields.keys@[i]@,
        IndexKind::BTree,
    ) by {
        lemma_index_among(a, 1, v, c.fields.keys@[i]@, IndexKind::BTree);
    }
    assert forall|i: int| 0 <= i < vectors.len() && (#[trigger] vectors[i]).index@ == "ivf_pq"@ implies has_index(
        v,
        vectors[i].name@,
        IndexKind::IvfPq,
    ) by {
        lemma_index_among(b, 2 + a.len() as int, v, vectors[i].name@, IndexKind::IvfPq);
    }
    assert forall|i: int|
        0 <= i < vectors.len() && (#[trigger] vectors[i]).index@ == "ivf_flat"@ implies has_index(
        v,
        vectors[i].name@,
        IndexKind::IvfFlat,
    ) by {
        lemma_index_among(b, 2 + a.len() as int, v, vectors[i].name@, IndexKind::IvfFlat);
    }
    let k = 1 + a.len() as int;
    let names = schema::text_field_names(c, n);
    assert(v[k].kind == IndexKind::FullText);
    assert(v[k].columns == seq!["raw_text"@] + names);
    assert(v[k].columns[0] == "raw_text"@);
    assert forall|i: int| 0 <= i < n && (#[trigger] c.fields.vals@[i]).kind@ == "text"@ implies v[k].columns.contains(
    c.fields.keys@[i]@) by {
        assert(names.contains(c.fields.keys@[i]@));
        let j = names.index_of(c.fields.keys@[i]@);
        assert(v[k].columns[j + 1] == c.fields.keys@[i]@);
    }
}

/// Membership of a value of a declared field compiles exactly where all values
/// have the type of the field; of a list, where all are texts. The place of a
/// chunk is not tested for membership.
pub proof fn law_memberships_compile(c: SchemaConfig, n: Seq<char>, vs: Seq<JsonV>, yes: bool)
    ensures
        ({
            let p = if yes {
                PredV::In(n, vs)
            } else {
                PredV::Nin(n, vs)
            };
            let known = c.fields@.dom().contains(n) || n == "source_path"@ || n == "source_type"@;
            let t = filter_laws::declared(c, n)->0;
            query::filter_sql(c, p) is Ok <==> known && forall|i: int|
                0 <= i < vs.len() ==> if t == "list<string>"@ {
                    (#[trigger] vs[i]) is Str
                } else {
                    filter_laws::has_literal(t, vs[i])
                }
        }),
{
    let p = if yes {
        PredV::In(n, vs)
    } else {
        PredV::Nin(n, vs)
    };
    assert(query::conditions(c, p) == query::one(query::member_sql(c, n, vs, yes)));
    if query::member_type(c, n) is Ok {
        let t = query::member_type(c, n)->Ok_0;
        lemma_literals_there(t, vs, vs.len());
        lemma_memberships_there(n, vs, vs.len());
    }
}

proof fn lemma_literals_there(t: Seq<char>, vs: Seq<JsonV>, n: nat)
    requires
        n <= vs.len(),
    ensures
        query::literals(t, vs, n) is Ok <==> forall|i: int|
            0 <= i < n ==> filter_laws::has_literal(t, #[trigger] vs[i]),
    decreases n,
{
    if n > 0 {
        lemma_literals_there(t, vs, (n - 1) as nat);
        filter_laws::law_literals_denote_their_values(t, vs[n - 1]);
        if query::literals(t, vs, n) is Ok {
            assert forall|i: int| 0 <= i < n implies filter_laws::has_literal(
                t,
                #[trigger] vs[i],
            ) by {}
        }
    }
}

proof fn lemma_memberships_there(name: Seq<char>, vs: Seq<JsonV>, n: nat)
    requires
        n <= vs.len(),
    ensures
        query::memberships(name, vs, n) is Ok <==> forall|i: int|
            0 <= i < n ==> (#[trigger] vs[i]) is Str,
    decreases n,
{
    if n > 0 {
        lemma_memberships_there(name, vs, (n - 1) as nat);
        if query::memberships(name, vs, n) is Ok {
            assert forall|i: int| 0 <= i < n implies (#[trigger] vs[i]) is Str by {}
        }
    }
}

// ---------------------------------------------------------------------------
// Compatibility
// ---------------------------------------------------------------------------

/// A schema fits a database exactly if both have the same fields with the same
/// types.
pub proof fn law_schemas_fit_where_fields_agree(a: SchemaConfig, b: SchemaConfig, name: Seq<char>)
    ensures
        a.same_fields(&b) && a.fields@.dom().contains(name) ==> b.fields@.dom().contains(name)
            && a.fields@[name].kind@ == b.fields@[name].kind@,
        a.same_fields(&b) && b.fields@.dom().contains(name) ==> a.fields@.dom().contains(name),
        a.fields@.dom().contains(name) && !b.fields@.dom().contains(name) ==> !a.same_fields(&b),
        a.fields@.dom().contains(name) && b.fields@.dom().contains(name) && a.fields@[name].kind@
            != b.fields@[name].kind@ ==> !a.same_fields(&b),
{
    if a.same_fields(&b) {
        assert(a.has_field_as(&b, name));
    }
}

// ---------------------------------------------------------------------------
// What services are reached with
// ---------------------------------------------------------------------------

/// A service is reached under the address that is configured, white space around
/// it aside, and with the key that the variable of the configuration holds.
pub proof fn law_services_are_reached_as_configured(
    e: EmbeddingV,
    r: RerankV,
    m: Map<Seq<char>, Seq<char>>,
    onnx: bool,
)
    ensures
        e matches EmbeddingV::Http { url, model, api_key_env, .. } ==> {
            &&& embedding::embedder_of(e, m, onnx) matches Ok(
                EmbedderV::Http { url: u, model: x, api_key },
            )
            &&& u == text::trimmed(url)
            &&& x == text::trimmed(model)
            &&& holds_key(api_key, api_key_env, m)
        },
        e matches EmbeddingV::Onnx { dir: Some(d) } ==> if onnx {
            embedding::embedder_of(e, m, onnx) matches Ok(EmbedderV::Onnx { dir }) && dir
                == text::trimmed(d)
        } else {
            embedding::embedder_of(e, m, onnx) is Err
        },
        r is Off ==> reranker::reranker_of(r, m, onnx) is Err,
        r matches RerankV::Tei { endpoint, api_key_env, .. } ==> {
            &&& reranker::reranker_of(r, m, onnx) matches Ok(RerankerV::Http { url, api_key })
            &&& url == text::trimmed(endpoint)
            &&& holds_key(api_key, api_key_env, m)
        },
        r matches RerankV::Openai { endpoint, model, api_key_env, .. } ==> {
            &&& reranker::reranker_of(r, m, onnx) matches Ok(
                RerankerV::OpenAi { url, model: x, api_key },
            )
            &&& url == text::trimmed(endpoint)
            &&& x == model
            &&& holds_key(api_key, api_key_env, m)
        },
{
}

/// Whether a key is what the named variable holds.
pub open spec fn holds_key(
    key: Option<Seq<char>>,
    named: Option<Seq<char>>,
    m: Map<Seq<char>, Seq<char>>,
) -> bool {
    match named {
        Some(v) => if m.dom().contains(v) {
            key == Some(m[v])
        } else {
            key is None
        },
        None => key is None,
    }
}

/// A key goes along as a bearer token; without one nothing does, and one that
/// cannot stand in a header does not.
pub proof fn law_keys_go_along_as_bearer(key: Seq<char>)
    requires
        forall|i: int| 0 <= i < key.len() ==> ' ' <= #[trigger] key[i] <= '~',
    ensures
        http::bearer_value(Some(key)) == Some("Bearer "@ + key),
        http::bearer_value(None) is None,
        http::bearer_value(Some(key.push('\n'))) is None,
{
    assert(http::header_text(key)) by {
        assert forall|i: int| 0 <= i < key.len() implies http::header_char(#[trigger] key[i]) by {}
    }
    let k = key.push('\n');
    assert(!http::header_char(k[key.len() as int]));
}

/// A failed rerank is tried again at most twice, and each time after a longer
/// wait: a quarter of a second, then three times the wait before.
pub proof fn law_waits_grow(n: nat, message: Seq<char>)
    requires
        n >= 1,
    ensures
        reranker::again(n, message) ==> n < 2,
        reranker::backoff(1) == 250,
        reranker::backoff(n + 1) == 3 * reranker::backoff(n),
{
}

/// The graph keeps a document under the hash of the name of its file, and failures
/// of the graph are told from answers.
pub proof fn law_graph_replies_are_told_apart(id: Seq<char>, endpoint: Seq<char>, reply: Reply<String>)
    ensures
        graph::server_id(id) == "doc-"@ + hash::md5_hex(id + ".txt"@),
        graph::health_error(endpoint, reply) is None <==> reply is Answered || reply is Unreadable,
        graph::insert_error(id, reply) is None <==> reply is Answered || reply is Unreadable,
        graph::query_error(reply) is None <==> reply is Answered,
{
}

/// A caller that sends no preference, or asks for JSON alone, is answered in JSON;
/// one that asks for an event stream alone is not.
pub proof fn law_callers_get_what_they_accept()
    ensures
        server::takes_json(None),
        server::takes_json(Some("application/json"@)),
        !server::takes_json(Some("text/event-stream"@)),
{
    reveal_strlit("application/json");
    reveal_strlit("text/event-stream");
    reveal_strlit("application/json;");
    let a = "application/json"@;
    let b = "text/event-stream"@;
    lemma_no_comma(a, 0);
    lemma_no_comma(b, 0);
    let pa = text::parts(a, ',');
    let pb = text::parts(b, ',');
    assert(pa[0] == a);
    assert(pb[0] == b);
    assert(a.len() == 16 && a[0] == 'a' && a.last() == 'n');
    assert(b.len() == 17 && b[0] == 't' && b.last() == 'm');
    assert(text::trimmed(a) == a);
    assert(text::trimmed(b) == b);
    assert(text::lowered(a) =~= a) by {
        assert forall|i: int| 0 <= i < a.len() implies text::lower(#[trigger] a[i]) == a[i] by {}
    }
    assert(server::asks_json(pa[0]));
    assert(text::lowered(b).len() == 17);
    let c = "application/json;"@;
    assert(c.len() == 17 && c[0] == 'a');
    if c.is_prefix_of(b) {
        assert(b.subrange(0, 17)[0] == c[0]);
    }
    assert(!server::asks_json(pb[0]));
}

proof fn lemma_no_comma(s: Seq<char>, i: int)
    requires
        0 <= i <= s.len(),
        forall|j: int| 0 <= j < s.len() ==> #[trigger] s[j] != ',',
    ensures
        text::parts_from(s, ',', 0, i) == seq![s],
    decreases s.len() - i,
{
    if i < s.len() {
        lemma_no_comma(s, i + 1);
    } else {
        assert(s.subrange(0, s.len() as int) =~= s);
    }
}

/// A mode of the command line goes by its name, and no other name is one.
pub proof fn law_modes_go_by_their_names(s: Seq<char>)
    ensures
        cli::mode_named("semantic"@) == Some(QueryMode::Semantic),
        cli::mode_named("parent"@) == Some(QueryMode::Parent),
        cli::mode_named("fts"@) == Some(QueryMode::Fts),
        cli::mode_named("rerank"@) == Some(QueryMode::Rerank),
        s != "semantic"@ && s != "parent"@ && s != "fts"@ && s != "rerank"@ ==> cli::mode_named(s)
            is None,
{
    reveal_strlit("semantic");
    reveal_strlit("parent");
    reveal_strlit("fts");
    reveal_strlit("rerank");
    assert("semantic"@.len() == 8 && "parent"@.len() == 6 && "fts"@.len() == 3 && "rerank"@.len()
        == 6);
    assert("parent"@[0] == 'p' && "rerank"@[0] == 'r');
}

/// All values that are given on the command line are kept, each under its key.
pub proof fn law_all_values_are_kept(
    c: SchemaConfig,
    metas: Seq<Seq<char>>,
    n: nat,
)
    requires
        n <= metas.len(),
        forall|i: int| 0 <= i < n ==> cli::meta_entry(c, #[trigger] metas[i]) is Ok,
        forall|i: int, j: int|
            0 <= i < j < n ==> (cli::meta_entry(c, #[trigger] metas[i])->Ok_0).0 != (
            cli::meta_entry(c, #[trigger] metas[j])->Ok_0).0,
    ensures
        cli::meta_entries(c, metas, n) is Ok,
        forall|i: int|
            0 <= i < n ==> json::lookup(
                cli::meta_entries(c, metas, n)->Ok_0,
                (cli::meta_entry(c, #[trigger] metas[i])->Ok_0).0,
            ) == Some((cli::meta_entry(c, metas[i])->Ok_0).1),
    decreases n,
{
    if n > 0 {
        law_all_values_are_kept(c, metas, (n - 1) as nat);
        let before = cli::meta_entries(c, metas, (n - 1) as nat)->Ok_0;
        let e = cli::meta_entry(c, metas[n - 1])->Ok_0;
        assert(cli::meta_entry(c, metas[n - 1]) is Ok);
        assert forall|i: int| 0 <= i < n implies json::lookup(
            cli::meta_entries(c, metas, n)->Ok_0,
            (cli::meta_entry(c, #[trigger] metas[i])->Ok_0).0,
        ) == Some((cli::meta_entry(c, metas[i])->Ok_0).1) by {
            json::law_with_entry_reads_back(
                before,
                e.0,
                e.1,
                (cli::meta_entry(c, metas[i])->Ok_0).0,
            );
        }
    }
}

/// The tool and the command line look for old versions by all keys of the schema;
/// over REST nothing is replaced.
pub proof fn law_old_versions_are_looked_for(c: SchemaConfig, d: InputDoc)
    ensures
        writing::replaces(c, d, Writer::Rest) is None,
        ({
            let keys = schema::replace_key_names(c, c.fields.keys@.len() as int);
            let e = json::entries(d.extra@);
            keys.len() > 0 && (forall|i: int|
                0 <= i < keys.len() ==> json::lookup(e, #[trigger] keys[i]) is Some && json::lookup(
                    e,
                    keys[i],
                )->0 is Str) ==> {
                &&& writing::replaces(c, d, Writer::Tool) is Some
                &&& write_laws::joins_tests(writing::replaces(c, d, Writer::Tool)->0, keys, e)
                &&& writing::replaces(c, d, Writer::Cli) is Some
                &&& write_laws::joins_tests(writing::replaces(c, d, Writer::Cli)->0, keys, e)
            }
        }),
{
    let keys = schema::replace_key_names(c, c.fields.keys@.len() as int);
    let e = json::entries(d.extra@);
    write_laws::law_old_versions_agree_in_all_keys(keys, e, true);
    write_laws::law_old_versions_agree_in_all_keys(keys, e, false);
}

/// Old versions are all dealt with before anything is embedded or written.
pub proof fn law_old_versions_go_first(a: Adding, c: SchemaConfig)
    requires
        a.goes_on(c),
    ensures
        a.dealt < a.olds@.len() <==> a.stage == AddStage::Deleting,
        a.stage is Embedding || a.stage is Writing ==> a.dealt >= a.olds@.len(),
{
    if a.dealt >= a.olds@.len() {
        match a.ingest.next_step() {
            ingest::StepV::Fail(_) => {},
            ingest::StepV::Embed(_) => {},
            ingest::StepV::Write => {
                let es = choose|es: Seq<store::Entry>| #[trigger]
                    a.ingest.has_entries(es) && (match store::batch_of(
                        c.fields,
                        a.ingest.fields@,
                        es,
                        es.len(),
                    ) {
                        Ok(rows) => a.stage == AddStage::Writing && store::rows(a.rows@) == rows,
                        Err(e) => a.stage == AddStage::Failed && a.error@ == writing::failure(
                            a.ingest.writer,
                            "batch build failed: "@,
                            e,
                        ),
                    });
            },
        }
    }
}

/// A vector of the wrong length is refused for a document by every writer.
pub proof fn law_wrong_lengths_are_refused(w: Writer, v: VectorFieldConfig, len: nat)
    ensures
        ingest::dim_error(w, v, 0, len) is None <==> len == v.dim,
        w != Writer::Rest ==> (ingest::dim_error(w, v, 1, len) is None <==> len == v.dim),
{
}

/// The vector field of a schema that names none is derived from the text of rows
/// and embedded on write.
pub proof fn law_default_vectors_come_from_the_text(v: VectorFieldConfig, dim: usize)
    requires
        schema::is_default_vector(v, dim),
    ensures
        v.source@ == "raw_text"@,
        v.auto_embed,
        v.dim == dim,
        v.name@ == "dense_vec"@,
        v.metric@ == "cosine"@,
{
}

/// All documents are looked at only where none that the graph names will do.
pub proof fn law_all_documents_are_a_last_resort(a: Asking)
    ensures
        a.mapped_out() ==> (a.stage == AskStage::Scanning ==> a.named().len() == 0),
        a.mapped_out() && a.stage == AskStage::Scanning ==> forall|i: int|
            0 <= i < hybrid::doc_ids(a.data@).len() ==> !hybrid_laws::passing(
                store::records(a.parents@),
                crate::asking::filter_of(a.ask),
                #[trigger] hybrid::doc_ids(a.data@)[i],
            ),
        a.mapped_out() && a.stage != AskStage::Scanning ==> a.stage == AskStage::Done,
{
    if a.mapped_out() && a.stage == AskStage::Scanning {
        let ids = hybrid::doc_ids(a.data@);
        let at = hybrid_laws::lemma_named_documents(
            ids,
            store::records(a.parents@),
            crate::asking::filter_of(a.ask),
            ids.len(),
        );
        assert forall|i: int| 0 <= i < ids.len() implies !hybrid_laws::passing(
            store::records(a.parents@),
            crate::asking::filter_of(a.ask),
            #[trigger] ids[i],
        ) by {
            if at.contains(i) {
                assert(at.len() > 0);
            }
        }
    }
}

/// A model is looked for in the directory that is configured, and otherwise below
/// the home directory, with one slash between the two.
pub proof fn law_models_are_looked_for(dir: Seq<char>, home: Seq<char>, rest: Seq<char>)
    ensures
        embedding::model_dir(Some(dir), Some(home), rest) == Some(text::trimmed(dir)),
        home.len() > 0 && home.last() != '/' ==> embedding::model_dir(None, Some(home), rest)
            == Some(home + "/"@ + rest),
        embedding::model_dir(None, Some(home.push('/')), rest) == Some(home.push('/') + rest),
        embedding::model_dir(None, None, rest) is None,
{
}

/// What is written down of a table names each of its fields with its type.
pub proof fn law_fields_are_written_down(c: SchemaConfig, n: int, i: int)
    requires
        0 <= i < n <= c.fields.keys@.len(),
    ensures
        text::occurs(
            schema::physical_lines(c, n),
            c.fields.keys@[i]@ + " = { type = \""@ + c.fields.vals@[i].kind@ + "\" }\n"@,
        ),
    decreases n,
{
    let k = c.fields.keys@[n - 1]@;
    let t = c.fields.vals@[n - 1].kind@;
    let a = " = { type = \""@;
    let b = "\" }\n"@;
    let before = schema::physical_lines(c, n - 1);
    let line = k + a + t + b;
    assert(schema::physical_lines(c, n) =~= before + line);
    if i < n - 1 {
        law_fields_are_written_down(c, n - 1, i);
        crate::answer_laws::lemma_goes_on(
            before,
            line,
            c.fields.keys@[i]@ + a + c.fields.vals@[i].kind@ + b,
        );
    } else {
        crate::answer_laws::lemma_ends(before, line);
    }
}

/// What the command line prints shows every row.
pub proof fn law_printed_results_show_every_row(rows: Seq<store::RecordV>, n: nat, i: int)
    requires
        0 <= i < n <= rows.len(),
    ensures
        text::occurs(
            cli::rows_text(rows, n),
            json::pretty_text(query::record_value(rows[i])),
        ),
    decreases n,
{
    let before = cli::rows_text(rows, (n - 1) as nat);
    let last = json::pretty_text(query::record_value(rows[n - 1]));
    let x = json::pretty_text(query::record_value(rows[i]));
    if i < n - 1 {
        law_printed_results_show_every_row(rows, (n - 1) as nat, i);
        crate::answer_laws::lemma_goes_on(before, last, x);
    } else {
        crate::answer_laws::lemma_ends(before, last);
    }
    crate::answer_laws::lemma_goes_on(before + last, "\n---\n"@, x);
}

/// Whether a tool says that an argument is required.
pub open spec fn requires_argument(tool: JsonV, name: Seq<char>) -> bool {
    match json::field(tool, "inputSchema"@) {
        Some(j) => match json::field(j, "required"@) {
            Some(JsonV::Arr(s)) => s.contains(JsonV::Str(name)),
            _ => false,
        },
        None => false,
    }
}

/// Tools say which arguments they cannot do without: the text of a search or of a
/// new document, the id of a document that is fetched, deleted or changed, and
/// the values of a change.
pub proof fn law_tools_say_what_they_need(c: SchemaConfig)
    ensures
        ({
            let ts = crate::tools::all_tools(c);
            &&& requires_argument(ts[0], "text"@)
            &&& requires_argument(ts[1], "text"@)
            &&& requires_argument(ts[2], "text"@)
            &&& requires_argument(ts[3], "text"@)
            &&& requires_argument(ts[4], "text"@)
            &&& requires_argument(ts[5], "id"@)
            &&& requires_argument(ts[6], "text"@)
            &&& requires_argument(ts[7], "id"@)
            &&& requires_argument(ts[8], "id"@)
            &&& requires_argument(ts[8], "metadata"@)
        }),
{
    let ts = crate::tools::all_tools(c);
    let text = seq!["text"@];
    let id = seq!["id"@];
    let both = seq!["id"@, "metadata"@];
    assert(text[0] == "text"@ && id[0] == "id"@ && both[0] == "id"@ && both[1] == "metadata"@);
    lemma_tool_requires(ts[0], text, 0);
    lemma_tool_requires(ts[1], text, 0);
    lemma_tool_requires(ts[2], text, 0);
    lemma_tool_requires(ts[3], text, 0);
    lemma_tool_requires(ts[4], text, 0);
    lemma_tool_requires(ts[5], id, 0);
    lemma_tool_requires(ts[6], text, 0);
    lemma_tool_requires(ts[7], id, 0);
    lemma_tool_requires(ts[8], both, 0);
    lemma_tool_requires(ts[8], both, 1);
}

proof fn lemma_tool_requires(tool: JsonV, required: Seq<Seq<char>>, i: int)
    requires
        0 <= i < required.len(),
        exists|name: Seq<char>, about: Seq<char>, props: Seq<(Seq<char>, JsonV)>|
            tool == #[trigger] crate::tools::tool_value(name, about, props, required),
    ensures
        requires_argument(tool, required[i]),
{
    reveal_strlit("name");
    reveal_strlit("description");
    reveal_strlit("inputSchema");
    reveal_strlit("type");
    reveal_strlit("properties");
    reveal_strlit("required");
    assert("name"@.len() == 4 && "description"@.len() == 11 && "inputSchema"@.len() == 11);
    assert("description"@[0] == 'd' && "inputSchema"@[0] == 'i');
    assert("type"@.len() == 4 && "properties"@.len() == 10 && "required"@.len() == 8);
    let (name, about, props) = choose|
        name: Seq<char>,
        about: Seq<char>,
        props: Seq<(Seq<char>, JsonV)>,
    |
        tool == #[trigger] crate::tools::tool_value(name, about, props, required);
    let e = tool->Obj_0;
    crate::answer_laws::lemma_lookup_at(e, 2);
    let j = crate::tools::input_schema(props, required)->Obj_0;
    crate::answer_laws::lemma_lookup_at(j, 2);
    let v = crate::tools::text_array(required)->Arr_0;
    assert(v[i] == JsonV::Str(required[i]));
}

/// A dictionary holds the value of each entry that it is made of under its key.
pub proof fn law_entries_are_found_by_key(entries: Seq<(String, String)>, i: int)
    requires
        0 <= i < entries.len(),
        forall|j: int| i < j < entries.len() ==> (#[trigger] entries[j]).0@ != entries[i].0@,
    ensures
        crate::dict::entries_map(entries).dom().contains(entries[i].0@),
        crate::dict::entries_map(entries)[entries[i].0@] == entries[i].1,
    decreases entries.len(),
{
    if i < entries.len() - 1 {
        let front = entries.drop_last();
        assert forall|j: int| i < j < front.len() implies (#[trigger] front[j]).0@
            != front[i].0@ by {
            assert(front[j] == entries[j]);
        }
        law_entries_are_found_by_key(front, i);
        assert(entries[entries.len() - 1].0@ != entries[i].0@);
        assert(front[i] == entries[i]);
    }
}

/// An expression is what it is called.
pub proof fn law_expressions_are_what_they_are_called(
    n: String,
    v: json::Json,
    vs: Vec<json::Json>,
    yes: bool,
)
    ensures
        query::Pred::Eq(n, v)@ == PredV::Eq(n@, v@),
        query::Pred::Ne(n, v)@ == PredV::Ne(n@, v@),
        query::Pred::Gt(n, v)@ == PredV::Gt(n@, v@),
        query::Pred::Gte(n, v)@ == PredV::Gte(n@, v@),
        query::Pred::Lt(n, v)@ == PredV::Lt(n@, v@),
        query::Pred::Lte(n, v)@ == PredV::Lte(n@, v@),
        query::Pred::In(n, vs)@ == PredV::In(n@, json::items(vs@)),
        query::Pred::Nin(n, vs)@ == PredV::Nin(n@, json::items(vs@)),
        query::Pred::Exists(n, yes)@ == PredV::Exists(n@, yes),
        query::Pred::Raw(n)@ == PredV::Raw(n@),
{
}

/// A filter of the command line is read and compiled as any other; what is no JSON
/// is an error.
pub proof fn law_filters_of_the_command_line(c: SchemaConfig, j: JsonV, e: Seq<char>)
    ensures
        query::pred_of(j) matches Ok(p) ==> cli::compiled(c, Ok(j)) == query::filter_sql(c, p),
        query::pred_of(j) is Err ==> cli::compiled(c, Ok(j)) is Err,
        cli::compiled(c, Err(e)) == Err::<Seq<char>, Seq<char>>(e),
{
}

/// A call that opens a session is told the version of the protocol.
pub proof fn law_greetings_name_the_protocol(instructions: bool)
    ensures
        json::text_field(server::greeting(instructions), "protocolVersion"@) == Some(
            "2024-11-05"@,
        ),
{
    crate::answer_laws::lemma_lookup_at(server::greeting(instructions)->Obj_0, 0);
}

/// Where the first schema has a field that the second has not, or has with another
/// type, a difference is reported, and the field that it names is one.
pub proof fn law_differences_are_found(a: SchemaConfig, b: SchemaConfig, i: int)
    requires
        0 <= i < a.fields.keys@.len(),
        !a.has_field_as(&b, a.fields.keys@[i]@),
    ensures
        a.difference(&b) is Some,
        !a.has_field_as(&b, a.difference(&b)->0),
{
    lemma_difference(a, b, 0, i);
}

proof fn lemma_difference(a: SchemaConfig, b: SchemaConfig, from: int, i: int)
    requires
        0 <= from <= i < a.fields.keys@.len(),
        !a.has_field_as(&b, a.fields.keys@[i]@),
    ensures
        a.first_difference(&b, from) is Some,
        !a.has_field_as(&b, a.first_difference(&b, from)->0),
    decreases i - from,
{
    if a.has_field_as(&b, a.fields.keys@[from]@) {
        lemma_difference(a, b, from + 1, i);
    }
}

/// JSON is taken wherever it stands in a list of what is accepted.
pub proof fn law_lists_take_what_their_entries_take(a: Seq<char>, b: Seq<char>)
    ensures
        server::takes_json(Some(a.push(',') + b)) <==> server::takes_json(Some(a))
            || server::takes_json(Some(b)),
{
    let s = a.push(',') + b;
    let pa = text::parts(a, ',');
    let pb = text::parts(b, ',');
    lemma_parts_before(a, b, 0, 0);
    lemma_parts_after(a, b, 0, 0);
    assert(text::parts(s, ',') == pa + pb);
    if server::some_asks_json(pa) {
        let i = choose|i: int| 0 <= i < pa.len() && server::asks_json(#[trigger] pa[i]);
        assert((pa + pb)[i] == pa[i]);
    }
    if server::some_asks_json(pb) {
        let i = choose|i: int| 0 <= i < pb.len() && server::asks_json(#[trigger] pb[i]);
        assert((pa + pb)[pa.len() + i] == pb[i]);
    }
    if server::some_asks_json(pa + pb) {
        let i = choose|i: int|
            0 <= i < (pa + pb).len() && server::asks_json(#[trigger] (pa + pb)[i]);
        if i < pa.len() {
            assert(server::asks_json(pa[i]));
        } else {
            assert(server::asks_json(pb[i - pa.len()]));
        }
    }
}

proof fn lemma_parts_before(a: Seq<char>, b: Seq<char>, start: int, i: int)
    requires
        0 <= start <= i <= a.len(),
    ensures
        text::parts_from(a.push(',') + b, ',', start, i) == text::parts_from(a, ',', start, i)
            + text::parts_from(a.push(',') + b, ',', a.len() as int + 1, a.len() as int + 1),
    decreases a.len() - i,
{
    let s = a.push(',') + b;
    let rest = text::parts_from(s, ',', a.len() as int + 1, a.len() as int + 1);
    if i < a.len() {
        assert(s[i] == a[i]);
        assert(s.subrange(start, i) =~= a.subrange(start, i));
        if a[i] == ',' {
            lemma_parts_before(a, b, i + 1, i + 1);
            let one = seq![a.subrange(start, i)];
            let mid = text::parts_from(a, ',', i + 1, i + 1);
            assert(one + (mid + rest) =~= (one + mid) + rest);
        } else {
            lemma_parts_before(a, b, start, i + 1);
        }
    } else {
        assert(s[i] == ',');
        assert(s.subrange(start, i) =~= a.subrange(start, a.len() as int));
    }
}

proof fn lemma_parts_after(a: Seq<char>, b: Seq<char>, start: int, i: int)
    requires
        0 <= start <= i <= b.len(),
    ensures
        text::parts_from(
            a.push(',') + b,
            ',',
            a.len() as int + 1 + start,
            a.len() as int + 1 + i,
        ) == text::parts_from(b, ',', start, i),
    decreases b.len() - i,
{
    let s = a.push(',') + b;
    let k = a.len() as int + 1;
    assert(s.subrange(k + start, k + i) =~= b.subrange(start, i));
    if i < b.len() {
        assert(s[k + i] == b[i]);
        if b[i] == ',' {
            lemma_parts_after(a, b, i + 1, i + 1);
        } else {
            lemma_parts_after(a, b, start, i + 1);
        }
    } else {
        assert(s.subrange(k + start, s.len() as int) =~= b.subrange(start, b.len() as int));
    }
}

/// JSON may be asked for in letters of either case, and with parameters.
pub proof fn law_json_is_asked_for_by_name(s: Seq<char>, more: Seq<char>)
    requires
        forall|j: int| 0 <= j < more.len() ==> #[trigger] more[j] != ',',
        more.len() > 0 ==> !text::is_space(more.last()),
    ensures
        text::lowered(s) == "application/json"@ ==> server::takes_json(Some(s)),
        server::takes_json(Some("application/json;"@ + more)),
{
    reveal_strlit("application/json");
    reveal_strlit("application/json;");
    let a = "application/json"@;
    let c = "application/json;"@;
    assert(a.len() == 16 && a[0] == 'a' && a[15] == 'n');
    assert(c.len() == 17 && c[0] == 'a' && c[16] == ';');
    if text::lowered(s) == a {
        assert(s.len() == 16);
        assert forall|j: int| 0 <= j < s.len() implies #[trigger] s[j] != ',' by {
            assert(text::lowered(s)[j] == a[j]);
        }
        lemma_no_comma(s, 0);
        assert(text::lowered(s)[0] == text::lower(s[0]));
        assert(text::lowered(s)[15] == text::lower(s[15]));
        assert(!text::is_space(s[0]) && !text::is_space(s.last()));
        assert(text::trimmed(s) == s);
        let ps = text::parts(s, ',');
        assert(ps[0] == s);
        assert(server::asks_json(ps[0]));
    }
    let t = c + more;
    assert forall|j: int| 0 <= j < t.len() implies #[trigger] t[j] != ',' by {
        if j >= 17 {
            assert(t[j] == more[j - 17]);
        } else {
            assert(t[j] == c[j]);
        }
    }
    lemma_no_comma(t, 0);
    assert(t[0] == 'a');
    assert(!text::is_space(t.last())) by {
        if more.len() > 0 {
            assert(t.last() == more.last());
        } else {
            assert(t.last() == c[16]);
        }
    }
    assert(text::trimmed(t) == t);
    assert(c.is_prefix_of(t)) by {
        assert(t.subrange(0, 17) =~= c);
    }
    let pt = text::parts(t, ',');
    assert(pt[0] == t);
    assert(server::asks_json(pt[0]));
}

} // verus!
