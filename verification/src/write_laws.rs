//! What holds of everything that is written, replaced and changed.

use crate::dict::Dict;
use crate::filter_laws;
use crate::filter_laws::denotes;
use crate::hash;
use crate::ingest;
use crate::json;
use crate::json::JsonV;
use crate::mcp;
use crate::query;
use crate::schema;
use crate::schema::{FieldConfig, SchemaConfig, VectorFieldConfig};
use crate::store;
use crate::store::{CellV, Entry, InputDoc, RecordV, RowV};
use crate::text;
use crate::writing::{AddActionV, AddStage, Adding};
use vstd::prelude::*;

verus! {

broadcast use vstd::string::group_string_axioms;

// ---------------------------------------------------------------------------
// Rows
// ---------------------------------------------------------------------------

/// Whether a cell holds a value: nothing for none, and otherwise the value
/// itself; a number of a float column stands as a float.
pub open spec fn cell_holds(kind: Seq<char>, c: CellV, v: Option<JsonV>) -> bool {
    match v {
        None => c is Null,
        Some(JsonV::Null) => c is Null,
        Some(j) => if kind == "float32"@ {
            c matches CellV::Float(x) && json::float_of(j) == Some(x)
        } else {
            store::value_in(c) == Some(j)
        },
    }
}

proof fn lemma_cell(f: FieldConfig, v: Option<JsonV>)
    requires
        store::cell_of(f, v) is Ok,
    ensures
        cell_holds(f.kind@, store::cell_of(f, v)->Ok_0, v),
        f.required ==> v is Some && !(v->0 is Null),
{
    reveal_strlit("string");
    reveal_strlit("text");
    reveal_strlit("int64");
    reveal_strlit("float32");
    reveal_strlit("bool");
    assert("string"@.len() == 6 && "text"@.len() == 4 && "int64"@.len() == 5 && "float32"@.len()
        == 7 && "bool"@.len() == 4);
    match v {
        Some(j) => {
            if !(j is Null) && f.kind@ != "float32"@ {
                store::law_cell_reads_back(f, j);
            }
        },
        None => {},
    }
}

proof fn lemma_row_cells(fields: Dict<FieldConfig>, extra: Seq<(Seq<char>, JsonV)>, n: nat)
    requires
        n <= fields.keys@.len(),
        store::row_cells(fields, extra, n) is Ok,
    ensures
        store::row_cells(fields, extra, n)->Ok_0.len() == n,
        forall|j: int|
            0 <= j < n ==> cell_holds(
                fields.vals@[j].kind@,
                #[trigger] store::row_cells(fields, extra, n)->Ok_0[j],
                json::lookup(extra, fields.keys@[j]@),
            ) && (fields.vals@[j].required ==> json::lookup(extra, fields.keys@[j]@) is Some),
    decreases n,
{
    if n > 0 {
        lemma_row_cells(fields, extra, (n - 1) as nat);
        let before = store::row_cells(fields, extra, (n - 1) as nat)->Ok_0;
        let now = store::row_cells(fields, extra, n)->Ok_0;
        lemma_cell(fields.vals@[n - 1], json::lookup(extra, fields.keys@[n - 1]@));
        assert forall|j: int| 0 <= j < n implies cell_holds(
            fields.vals@[j].kind@,
            #[trigger] now[j],
            json::lookup(extra, fields.keys@[j]@),
        ) && (fields.vals@[j].required ==> json::lookup(extra, fields.keys@[j]@) is Some) by {
            if j < n - 1 {
                assert(now[j] == before[j]);
            }
        }
    }
}

/// Whether a vector is the one that was given for a column, of its length.
pub open spec fn vector_holds(
    v: VectorFieldConfig,
    x: Seq<u32>,
    given: Map<Seq<char>, Vec<u32>>,
) -> bool {
    &&& given.dom().contains(v.name@)
    &&& x == given[v.name@]@
    &&& x.len() == v.dim
}

proof fn lemma_row_vectors(
    vectors: Seq<VectorFieldConfig>,
    given: Map<Seq<char>, Vec<u32>>,
    n: nat,
)
    requires
        n <= vectors.len(),
        store::row_vectors(vectors, given, n) is Ok,
    ensures
        store::row_vectors(vectors, given, n)->Ok_0.len() == n,
        forall|j: int|
            0 <= j < n ==> vector_holds(
                vectors[j],
                #[trigger] store::row_vectors(vectors, given, n)->Ok_0[j],
                given,
            ),
    decreases n,
{
    if n > 0 {
        lemma_row_vectors(vectors, given, (n - 1) as nat);
        let before = store::row_vectors(vectors, given, (n - 1) as nat)->Ok_0;
        let now = store::row_vectors(vectors, given, n)->Ok_0;
        assert forall|j: int| 0 <= j < n implies vector_holds(
            vectors[j],
            #[trigger] now[j],
            given,
        ) by {
            if j < n - 1 {
                assert(now[j] == before[j]);
            }
        }
    }
}

/// Whether a row holds what its entry says: the record as it is, in the cell of
/// each field the value that the record has for it, and in each vector column
/// the vector of that name, of the length of the column.
pub open spec fn row_holds(
    r: RowV,
    e: Entry,
    fields: Dict<FieldConfig>,
    vectors: Seq<VectorFieldConfig>,
) -> bool {
    &&& r.record == e.record@
    &&& r.cells.len() == fields.keys@.len()
    &&& forall|j: int|
        0 <= j < r.cells.len() ==> cell_holds(
            fields.vals@[j].kind@,
            #[trigger] r.cells[j],
            json::lookup(json::entries(e.record.extra@), fields.keys@[j]@),
        )
    &&& forall|j: int|
        0 <= j < fields.keys@.len() && (#[trigger] fields.vals@[j]).required ==> json::lookup(
            json::entries(e.record.extra@),
            fields.keys@[j]@,
        ) is Some
    &&& r.vectors.len() == vectors.len()
    &&& forall|j: int|
        0 <= j < r.vectors.len() ==> vector_holds(vectors[j], #[trigger] r.vectors[j], e.vectors@)
}

/// Rows are written as they were given, all of them and in their order: no value
/// and no vector is lost, swapped or changed, and no required value is missing.
pub proof fn law_rows_are_written_as_given(
    fields: Dict<FieldConfig>,
    vectors: Seq<VectorFieldConfig>,
    es: Seq<Entry>,
    n: nat,
)
    requires
        n <= es.len(),
        store::batch_of(fields, vectors, es, n) is Ok,
    ensures
        store::batch_of(fields, vectors, es, n)->Ok_0.len() == n,
        forall|i: int|
            0 <= i < n ==> row_holds(
                #[trigger] store::batch_of(fields, vectors, es, n)->Ok_0[i],
                es[i],
                fields,
                vectors,
            ),
    decreases n,
{
    if n > 0 {
        law_rows_are_written_as_given(fields, vectors, es, (n - 1) as nat);
        let before = store::batch_of(fields, vectors, es, (n - 1) as nat)->Ok_0;
        let now = store::batch_of(fields, vectors, es, n)->Ok_0;
        let e = es[n - 1];
        lemma_row_cells(fields, e.record@.extra, fields.keys@.len());
        lemma_row_vectors(vectors, e.vectors@, vectors.len());
        assert forall|i: int| 0 <= i < n implies row_holds(
            #[trigger] now[i],
            es[i],
            fields,
            vectors,
        ) by {
            if i < n - 1 {
                assert(now[i] == before[i]);
            } else {
                let cells = store::row_cells(fields, e.record@.extra, fields.keys@.len())->Ok_0;
                assert(now[i].cells == cells);
                assert forall|j: int|
                    0 <= j < fields.keys@.len() && (#[trigger] fields.vals@[j]).required implies json::lookup(
                    json::entries(e.record.extra@),
                    fields.keys@[j]@,
                ) is Some by {
                    assert(cell_holds(
                        fields.vals@[j].kind@,
                        cells[j],
                        json::lookup(e.record@.extra, fields.keys@[j]@),
                    ));
                }
            }
        }
    }
}

/// What is written for a document is the document and its chunks: the first row
/// has its whole text, and each row after it the text, the id and the position of
/// one chunk, in their order, under the document.
pub proof fn law_added_rows_are_the_document(a: Adding, c: SchemaConfig)
    requires
        a.settled(c),
        a.stage == AddStage::Writing,
    ensures
        a.rows@.len() == a.ingest.chunks@.len() + 1,
        a.rows@[0].record.raw_text@ == a.ingest.doc.raw_text@,
        a.rows@[0].record.id@ == a.ingest.doc.id@,
        forall|k: int|
            0 <= k < a.ingest.chunks@.len() ==> {
                let r = (#[trigger] a.rows@[k + 1]).record;
                &&& r.raw_text@ == a.ingest.chunks@[k].text@
                &&& r.id@ == a.ingest.chunks@[k].chunk_id@
                &&& r.chunk_index == a.ingest.chunks@[k].chunk_index
                &&& store::opt_view(r.parent_doc_id) == Some(a.ingest.doc.id@)
            },
{
    let es = choose|es: Seq<Entry>| #[trigger]
        a.ingest.has_entries(es) && (match store::batch_of(
            c.fields,
            a.ingest.fields@,
            es,
            es.len(),
        ) {
            Ok(rows) => a.stage == AddStage::Writing && store::rows(a.rows@) == rows,
            Err(e) => a.stage == AddStage::Failed && a.error@ == crate::writing::failure(
                a.ingest.writer,
                "batch build failed: "@,
                e,
            ),
        });
    let rows = store::batch_of(c.fields, a.ingest.fields@, es, es.len())->Ok_0;
    ingest::law_rows_carry_their_texts(a.ingest, es);
    law_rows_are_written_as_given(c.fields, a.ingest.fields@, es, es.len());
    assert(rows[0] == a.rows@[0]@);
    assert(row_holds(rows[0], es[0], c.fields, a.ingest.fields@));
    assert forall|k: int| 0 <= k < a.ingest.chunks@.len() implies {
        let r = (#[trigger] a.rows@[k + 1]).record;
        &&& r.raw_text@ == a.ingest.chunks@[k].text@
        &&& r.id@ == a.ingest.chunks@[k].chunk_id@
        &&& r.chunk_index == a.ingest.chunks@[k].chunk_index
        &&& store::opt_view(r.parent_doc_id) == Some(a.ingest.doc.id@)
    } by {
        assert(rows[k + 1] == a.rows@[k + 1]@);
        assert(row_holds(rows[k + 1], es[k + 1], c.fields, a.ingest.fields@));
        assert(es[k + 1].record.raw_text@ == a.ingest.chunks@[k].text@);
    }
}

/// What is deleted on the way is an old version, and the graph is given the whole
/// text of the document under its id.
pub proof fn law_adding_acts_on_its_document(a: Adding)
    requires
        a.wf(),
    ensures
        a.action() matches AddActionV::Delete(id) ==> a.old_ids().contains(id) && id
            != a.ingest.doc.id@,
        a.action() matches AddActionV::Unmirror(id) ==> a.old_ids().contains(id) && id
            != a.ingest.doc.id@,
        a.action() matches AddActionV::Mirror { body, id } ==> body == a.ingest.doc.raw_text@
            && id == a.ingest.doc.id@ && a.graph,
        a.action() is Write ==> a.ingest.answers@.len() == a.ingest.jobs@.len(),
        a.stage is Done || a.stage is Failed <==> a.action() is Stop,
{
    match a.action() {
        AddActionV::Delete(id) => {
            assert(a.old_ids()[a.dealt as int] == id);
        },
        AddActionV::Unmirror(id) => {
            assert(a.old_ids()[a.dealt as int] == id);
        },
        _ => {},
    }
}

// ---------------------------------------------------------------------------
// Replacing old versions
// ---------------------------------------------------------------------------

/// The versions that a new document replaces are exactly the rows that were
/// found, but for the document itself, in their order.
pub proof fn law_all_other_versions_are_replaced(rows: Seq<RecordV>, id: Seq<char>)
    ensures
        ({
            let olds = mcp::other_ids(rows, id, rows.len());
            &&& forall|i: int|
                0 <= i < rows.len() && (#[trigger] rows[i]).id != id ==> olds.contains(rows[i].id)
            &&& forall|k: int|
                0 <= k < olds.len() ==> #[trigger] olds[k] != id && exists|i: int|
                    0 <= i < rows.len() && (#[trigger] rows[i]).id == olds[k]
            &&& (forall|i: int| 0 <= i < rows.len() ==> (#[trigger] rows[i]).id != id)
                ==> olds.len() == rows.len()
        }),
{
    lemma_other_ids(rows, id, rows.len());
}

proof fn lemma_other_ids(rows: Seq<RecordV>, id: Seq<char>, n: nat)
    requires
        n <= rows.len(),
    ensures
        ({
            let olds = mcp::other_ids(rows, id, n);
            &&& forall|i: int|
                0 <= i < n && (#[trigger] rows[i]).id != id ==> olds.contains(rows[i].id)
            &&& forall|k: int|
                0 <= k < olds.len() ==> #[trigger] olds[k] != id && exists|i: int|
                    0 <= i < n && (#[trigger] rows[i]).id == olds[k]
            &&& (forall|i: int| 0 <= i < n ==> (#[trigger] rows[i]).id != id) ==> olds.len() == n
        }),
    decreases n,
{
    if n > 0 {
        lemma_other_ids(rows, id, (n - 1) as nat);
        let before = mcp::other_ids(rows, id, (n - 1) as nat);
        let olds = mcp::other_ids(rows, id, n);
        assert forall|i: int| 0 <= i < n && (#[trigger] rows[i]).id != id implies olds.contains(
            rows[i].id,
        ) by {
            if i < n - 1 {
                let k = before.index_of(rows[i].id);
                assert(olds[k] == rows[i].id);
            } else {
                assert(olds[before.len() as int] == rows[i].id);
            }
        }
        assert forall|k: int| 0 <= k < olds.len() implies #[trigger] olds[k] != id && exists|i: int|
            0 <= i < n && (#[trigger] rows[i]).id == olds[k] by {
            if k < before.len() {
                assert(olds[k] == before[k]);
                let i = choose|i: int| 0 <= i < n - 1 && (#[trigger] rows[i]).id == before[k];
                assert(rows[i].id == olds[k]);
            } else {
                assert(rows[n - 1].id == olds[k]);
            }
        }
        assert(rows[n - 1].id != id ==> olds.len() == before.len() + 1);
    }
}

/// Whether a condition says that a key has the text of the document.
pub open spec fn key_test(s: Seq<char>, key: Seq<char>, e: Seq<(Seq<char>, JsonV)>) -> bool {
    exists|l: Seq<char>| #[trigger]
        denotes("string"@, l, json::lookup(e, key)->0) && s == key + " = "@ + l
}

proof fn lemma_key_conditions(
    keys: Seq<Seq<char>>,
    e: Seq<(Seq<char>, JsonV)>,
    lenient: bool,
    n: nat,
)
    requires
        n <= keys.len(),
        forall|i: int|
            0 <= i < keys.len() ==> json::lookup(e, #[trigger] keys[i]) is Some && json::lookup(
                e,
                keys[i],
            )->0 is Str,
    ensures
        mcp::key_conditions(keys, e, lenient, n) is Some,
        mcp::key_conditions(keys, e, lenient, n)->0.len() == n,
        forall|i: int|
            0 <= i < n ==> key_test(
                #[trigger] mcp::key_conditions(keys, e, lenient, n)->0[i],
                keys[i],
                e,
            ),
    decreases n,
{
    if n > 0 {
        lemma_key_conditions(keys, e, lenient, (n - 1) as nat);
        let before = mcp::key_conditions(keys, e, lenient, (n - 1) as nat)->0;
        let k = keys[n - 1];
        let v = json::lookup(e, k)->0;
        filter_laws::law_literals_denote_their_values("string"@, v);
        let l = text::quoted(v->Str_0);
        assert(query::literal("string"@, v) == Ok::<Seq<char>, Seq<char>>(l));
        assert(denotes("string"@, l, v));
        let now = mcp::key_conditions(keys, e, lenient, n)->0;
        assert forall|i: int| 0 <= i < n implies key_test(#[trigger] now[i], keys[i], e) by {
            if i < n - 1 {
                assert(now[i] == before[i]);
            }
        }
    }
}

/// The old versions of a document are those that agree with it in all its keys:
/// the condition tests each key for the text that the document has, and joins
/// the tests with AND. Without keys, or where the document lacks one, nothing is
/// replaced.
pub proof fn law_old_versions_agree_in_all_keys(
    keys: Seq<Seq<char>>,
    e: Seq<(Seq<char>, JsonV)>,
    lenient: bool,
)
    ensures
        keys.len() == 0 ==> mcp::replaced_sql(keys, e, lenient) is None,
        (exists|i: int| 0 <= i < keys.len() && json::lookup(e, #[trigger] keys[i]) is None)
            ==> mcp::replaced_sql(keys, e, lenient) is None,
        keys.len() > 0 && (forall|i: int|
            0 <= i < keys.len() ==> json::lookup(e, #[trigger] keys[i]) is Some && json::lookup(
                e,
                keys[i],
            )->0 is Str) ==> mcp::replaced_sql(keys, e, lenient) is Some && joins_tests(
            mcp::replaced_sql(keys, e, lenient)->0,
            keys,
            e,
        ),
{
    if exists|i: int| 0 <= i < keys.len() && json::lookup(e, #[trigger] keys[i]) is None {
        let i = choose|i: int| 0 <= i < keys.len() && json::lookup(e, #[trigger] keys[i]) is None;
        lemma_key_missing(keys, e, lenient, keys.len(), i);
    }
    if keys.len() > 0 && (forall|i: int|
        0 <= i < keys.len() ==> json::lookup(e, #[trigger] keys[i]) is Some && json::lookup(
            e,
            keys[i],
        )->0 is Str) {
        lemma_key_conditions(keys, e, lenient, keys.len());
        let cs = mcp::key_conditions(keys, e, lenient, keys.len())->0;
        assert(all_tests(cs, keys, e));
    }
}

/// Whether conditions test the keys one for one.
pub open spec fn all_tests(
    cs: Seq<Seq<char>>,
    keys: Seq<Seq<char>>,
    e: Seq<(Seq<char>, JsonV)>,
) -> bool {
    &&& cs.len() == keys.len()
    &&& forall|i: int| 0 <= i < cs.len() ==> key_test(#[trigger] cs[i], keys[i], e)
}

/// Whether `s` is a test for each key, with AND between them.
pub open spec fn joins_tests(
    s: Seq<char>,
    keys: Seq<Seq<char>>,
    e: Seq<(Seq<char>, JsonV)>,
) -> bool {
    exists|cs: Seq<Seq<char>>| #[trigger] all_tests(cs, keys, e) && s == text::joined(cs, " AND "@)
}

proof fn lemma_key_missing(
    keys: Seq<Seq<char>>,
    e: Seq<(Seq<char>, JsonV)>,
    lenient: bool,
    n: nat,
    i: int,
)
    requires
        0 <= i < n <= keys.len(),
        json::lookup(e, keys[i]) is None,
    ensures
        mcp::key_conditions(keys, e, lenient, n) is None,
    decreases n,
{
    if i < n - 1 {
        lemma_key_missing(keys, e, lenient, (n - 1) as nat, i);
    }
}

// ---------------------------------------------------------------------------
// Metadata
// ---------------------------------------------------------------------------

/// Whether no key occurs twice.
pub open spec fn keys_differ(m: Seq<(Seq<char>, JsonV)>) -> bool {
    forall|i: int, j: int| 0 <= i < j < m.len() ==> (#[trigger] m[i]).0 != (#[trigger] m[j]).0
}

proof fn lemma_checked(c: SchemaConfig, m: Seq<(Seq<char>, JsonV)>, n: nat)
    requires
        n <= m.len(),
        keys_differ(m),
    ensures
        mcp::checked_meta(c, m, n) is Ok <==> forall|i: int|
            0 <= i < n ==> mcp::meta_error(c, (#[trigger] m[i]).0, m[i].1) is None,
        mcp::checked_meta(c, m, n) is Ok ==> forall|i: int|
            0 <= i < n ==> json::lookup(mcp::checked_meta(c, m, n)->Ok_0, (#[trigger] m[i]).0)
                == Some(m[i].1),
        mcp::checked_meta(c, m, n) is Ok ==> forall|k: Seq<char>|
            json::lookup(mcp::checked_meta(c, m, n)->Ok_0, k) is Some ==> exists|i: int|
                0 <= i < n && (#[trigger] m[i]).0 == k,
    decreases n,
{
    if n > 0 {
        lemma_checked(c, m, (n - 1) as nat);
        match mcp::checked_meta(c, m, (n - 1) as nat) {
            Ok(done) => {
                let k = m[n - 1].0;
                let v = m[n - 1].1;
                if mcp::meta_error(c, k, v) is None {
                    let now = json::with_entry(done, k, v);
                    assert forall|i: int| 0 <= i < n implies json::lookup(
                        now,
                        (#[trigger] m[i]).0,
                    ) == Some(m[i].1) by {
                        json::law_with_entry_reads_back(done, k, v, m[i].0);
                    }
                    assert forall|x: Seq<char>| json::lookup(now, x) is Some implies exists|i: int|
                        0 <= i < n && (#[trigger] m[i]).0 == x by {
                        json::law_with_entry_reads_back(done, k, v, x);
                        if x == k {
                            assert(m[n - 1].0 == x);
                        } else {
                            let i = choose|i: int| 0 <= i < n - 1 && (#[trigger] m[i]).0 == x;
                            assert(m[i].0 == x);
                        }
                    }
                }
            },
            Err(_) => {
                let i = choose|i: int|
                    0 <= i < n - 1 && mcp::meta_error(c, (#[trigger] m[i]).0, m[i].1) is Some;
                assert(mcp::meta_error(c, m[i].0, m[i].1) is Some);
            },
        } 
    } else {
        assert(json::lookup(Seq::empty(), Seq::empty()) is None);
        assert forall|k: Seq<char>| json::lookup(mcp::checked_meta(c, m, 0)->Ok_0, k) is None by {}
    }
}

/// Metadata that passes is kept as it is: each field with the value given for it
/// and no other field. What passes is declared and can be stored, and values that
/// can be stored pass.
pub proof fn law_metadata_is_kept(c: SchemaConfig, m: Seq<(Seq<char>, JsonV)>)
    requires
        keys_differ(m),
    ensures
        mcp::checked_meta(c, m, m.len()) is Ok ==> forall|i: int|
            0 <= i < m.len() ==> c.fields@.dom().contains((#[trigger] m[i]).0) && (m[i].1 is Null
                || (store::cell_of(c.fields@[m[i].0], Some(m[i].1)) is Ok)),
        (forall|i: int|
            0 <= i < m.len() ==> c.fields@.dom().contains((#[trigger] m[i]).0) && !(m[i].1 is Null)
                && store::cell_of(c.fields@[m[i].0], Some(m[i].1)) is Ok) ==> mcp::checked_meta(
            c,
            m,
            m.len(),
        ) is Ok,
        mcp::checked_meta(c, m, m.len()) is Ok ==> forall|i: int|
            0 <= i < m.len() ==> json::lookup(
                mcp::checked_meta(c, m, m.len())->Ok_0,
                (#[trigger] m[i]).0,
            ) == Some(m[i].1),
        mcp::checked_meta(c, m, m.len()) is Ok ==> forall|k: Seq<char>| #[trigger]
            json::lookup(mcp::checked_meta(c, m, m.len())->Ok_0, k) is Some ==> exists|i: int|
                0 <= i < m.len() && (#[trigger] m[i]).0 == k,
{
    lemma_checked(c, m, m.len());
    assert forall|i: int| 0 <= i < m.len() implies (mcp::meta_error(
        c,
        (#[trigger] m[i]).0,
        m[i].1,
    ) is None ==> c.fields@.dom().contains(m[i].0) && (m[i].1 is Null || store::cell_of(
        c.fields@[m[i].0],
        Some(m[i].1),
    ) is Ok)) && (c.fields@.dom().contains(m[i].0) && !(m[i].1 is Null) && store::cell_of(
        c.fields@[m[i].0],
        Some(m[i].1),
    ) is Ok ==> mcp::meta_error(c, m[i].0, m[i].1) is None) by {
        if c.fields@.dom().contains(m[i].0) {
            lemma_value_error(c.fields@[m[i].0], m[i].1);
        }
    }
}

proof fn lemma_value_error(f: FieldConfig, v: JsonV)
    ensures
        mcp::value_error(f.kind@, v) is None ==> v is Null || store::cell_of(f, Some(v)) is Ok,
        mcp::value_error(f.kind@, v) is Some && !(v is Null) ==> store::cell_of(f, Some(v)) is Err,
{
    let g = FieldConfig { required: false, ..f };
    mcp::law_metadata_check_agrees_with_storage(g, v);
    if !(v is Null) {
        assert(store::cell_of(f, Some(v)) == store::cell_of(g, Some(v)));
    }
}

// ---------------------------------------------------------------------------
// New documents
// ---------------------------------------------------------------------------

/// A new document has the text that was given and the hash of that text for its
/// id, the path and the type that were given, and the metadata that was given,
/// each field with its value.
pub proof fn law_new_documents_say_what_was_given(
    c: SchemaConfig,
    args: JsonV,
    d: InputDoc,
    body: Seq<char>,
    path: Seq<char>,
    kind: Seq<char>,
)
    requires
        mcp::is_new_document(c, args, d),
        json::text_field(args, "text"@) == Some(body),
        json::text_field(args, "source_path"@) == Some(path),
        json::text_field(args, "source_type"@) == Some(kind),
        keys_differ(mcp::meta_of(args)),
    ensures
        d.raw_text@ == body,
        d.id@ == hash::blake3_hex(body),
        d.source_path@ == path,
        d.source_type@ == kind,
        json::field(args, "metadata"@) matches Some(JsonV::Obj(m)) ==> forall|i: int|
            0 <= i < m.len() ==> json::lookup(json::entries(d.extra@), (#[trigger] m[i]).0) == Some(
                m[i].1,
            ),
        c.fields@.dom().contains("source_path"@) ==> json::lookup(
            json::entries(d.extra@),
            "source_path"@,
        ) is Some,
        c.fields@.dom().contains("source_type"@) ==> json::lookup(
            json::entries(d.extra@),
            "source_type"@,
        ) is Some,
{
    reveal_strlit("source_path");
    reveal_strlit("source_type");
    assert("source_path"@[7] == 'p');
    assert("source_type"@[7] == 't');
    let m = mcp::meta_of(args);
    let meta = mcp::checked_meta(c, m, m.len())->Ok_0;
    law_metadata_is_kept(c, m);
    let a = if c.fields@.dom().contains("source_path"@) {
        mcp::with_default(meta, "source_path"@, path)
    } else {
        meta
    };
    let all = json::entries(d.extra@);
    assert forall|k: Seq<char>| json::lookup(meta, k) is Some implies #[trigger] json::lookup(
        all,
        k,
    ) == json::lookup(meta, k) by {
        json::law_with_entry_reads_back(meta, "source_path"@, JsonV::Str(path), k);
        json::law_with_entry_reads_back(a, "source_type"@, JsonV::Str(kind), k);
    }
    assert forall|i: int| 0 <= i < m.len() implies json::lookup(all, (#[trigger] m[i]).0) == Some(
        m[i].1,
    ) by {
        assert(json::lookup(meta, m[i].0) == Some(m[i].1));
    }
    json::law_with_entry_reads_back(meta, "source_path"@, JsonV::Str(path), "source_path"@);
    json::law_with_entry_reads_back(a, "source_type"@, JsonV::Str(kind), "source_path"@);
    json::law_with_entry_reads_back(a, "source_type"@, JsonV::Str(kind), "source_type"@);
}

// ---------------------------------------------------------------------------
// Changes
// ---------------------------------------------------------------------------

/// A changed field is set to a literal that denotes the new value, or cleared
/// where that is null or an empty list; a list is set to the literals of its
/// items, in their order.
pub proof fn law_changes_set_the_new_value(t: Seq<char>, v: JsonV)
    ensures
        v is Null || v == JsonV::Arr(Seq::empty()) ==> mcp::new_value(t, v) == Ok::<
            Seq<char>,
            Seq<char>,
        >("NULL"@),
        !(v is Null) && t != "list<string>"@ && !(v is Arr) ==> (mcp::new_value(t, v) is Ok
            ==> denotes(t, mcp::new_value(t, v)->Ok_0, v)),
        t == "list<string>"@ && !(v is Null) && v != JsonV::Arr(Seq::empty()) && mcp::new_value(
            t,
            v,
        ) is Ok ==> v is Arr && lists(mcp::new_value(t, v)->Ok_0, v->Arr_0),
{
    filter_laws::law_literals_denote_their_values(t, v);
    if t == "list<string>"@ && !(v is Null) && v != JsonV::Arr(Seq::empty()) && mcp::new_value(
        t,
        v,
    ) is Ok {
        let s = json::array_of(v)->0;
        let ts = store::item_texts(s, s.len())->0;
        let ls = store::quoted_all(ts);
        store::lemma_item_texts(s, s.len());
        assert(filter_laws::all_denote("string"@, ls, s)) by {
            assert forall|i: int| 0 <= i < ls.len() implies denotes(
                "string"@,
                #[trigger] ls[i],
                s[i],
            ) by {
                assert(s[i] == JsonV::Str(ts[i]));
                filter_laws::law_literals_denote_their_values("string"@, s[i]);
                assert(query::literal("string"@, s[i]) == Ok::<Seq<char>, Seq<char>>(ls[i]));
            }
        }
        assert(lists(mcp::new_value(t, v)->Ok_0, s));
    }
}

/// Whether `s` makes a list of literals that denote the items.
pub open spec fn lists(s: Seq<char>, items: Seq<JsonV>) -> bool {
    exists|ls: Seq<Seq<char>>| #[trigger]
        filter_laws::all_denote("string"@, ls, items) && s == "make_array("@ + text::joined(
            ls,
            ", "@,
        ) + ")"@
}

// ---------------------------------------------------------------------------
// Conditions on rows
// ---------------------------------------------------------------------------

/// The neighbours of a chunk are the chunks of its document at most `window` away
/// from it on either side, and not the chunk itself.
pub proof fn law_neighbours_are_close(parent: Seq<char>, index: u32, window: u32, low: u32, high: u32)
    requires
        low == (if index >= window {
            (index - window) as u32
        } else {
            0
        }),
        index + window <= u32::MAX ==> high == index + window,
        index + window > u32::MAX ==> high == u32::MAX,
    ensures
        store::siblings_sql(parent, index, window) == "chunk_level = 1 AND parent_doc_id = "@
            + text::quoted(parent) + " AND chunk_index >= "@ + text::decimal(low as nat)
            + " AND chunk_index <= "@ + text::decimal(high as nat) + " AND chunk_index != "@
            + text::decimal(index as nat),
{
}

/// Documents are looked up by the literals of their ids, each once: every id that
/// was asked for is among them, and no other.
pub proof fn law_documents_are_looked_up_by_id(ids: Seq<Seq<char>>)
    ensures
        exists|us: Seq<Seq<char>>|
            us.no_duplicates() && (forall|x: Seq<char>| us.contains(x) <==> ids.contains(x))
                && (forall|i: int|
                0 <= i < us.len() ==> denotes(
                    "string"@,
                    #[trigger] store::quoted_all(us)[i],
                    JsonV::Str(us[i]),
                )) && store::parents_sql(ids) == "chunk_level = 0 AND id IN ("@ + text::joined(
                #[trigger] store::quoted_all(us),
                ", "@,
            ) + ")"@,
{
    let us = crate::dict::distinct(ids, ids.len());
    crate::dict::law_distinct_is_sorted_set(ids, ids.len());
    assert(us.no_duplicates()) by {
        assert forall|i: int, j: int| 0 <= i < us.len() && 0 <= j < us.len() && i != j implies us[i]
            != us[j] by {
            if us[i] == us[j] {
                crate::dict::lemma_ascending_distinct(us, i, j);
            }
        }
    }
    assert forall|x: Seq<char>| us.contains(x) <==> ids.contains(x) by {
        if ids.contains(x) {
            assert(ids[ids.index_of(x)] == x);
        }
    }
    assert forall|i: int| 0 <= i < us.len() implies denotes(
        "string"@,
        #[trigger] store::quoted_all(us)[i],
        JsonV::Str(us[i]),
    ) by {
        filter_laws::law_literals_denote_their_values("string"@, JsonV::Str(us[i]));
        assert(query::literal("string"@, JsonV::Str(us[i])) == Ok::<Seq<char>, Seq<char>>(
            store::quoted_all(us)[i],
        ));
    }
    assert(store::parents_sql(ids) == "chunk_level = 0 AND id IN ("@ + text::joined(
        store::quoted_all(us),
        ", "@,
    ) + ")"@);
}

/// A value is stored as what its column is declared to hold.
pub proof fn law_cells_have_their_type(f: FieldConfig, v: JsonV)
    requires
        store::cell_of(f, Some(v)) is Ok,
        !(v is Null),
    ensures
        ({
            let c = store::cell_of(f, Some(v))->Ok_0;
            &&& c is Str <==> f.kind@ == "string"@ || f.kind@ == "text"@
            &&& c is Bool <==> f.kind@ == "bool"@
            &&& c is Int <==> f.kind@ == "int64"@
            &&& c is Float <==> f.kind@ == "float32"@
            &&& c is Timestamp <==> f.kind@ == "timestamp"@
            &&& c is List <==> f.kind@ == "list<string>"@
        }),
{
    lemma_kinds_differ();
}

proof fn lemma_kinds_differ()
    ensures
        "string"@.len() == 6 && "int64"@.len() == 5 && "float32"@.len() == 7,
        "timestamp"@.len() == 9 && "list<string>"@.len() == 12,
        "bool"@.len() == 4 && "text"@.len() == 4 && "bool"@ != "text"@,
{
    reveal_strlit("string");
    reveal_strlit("text");
    reveal_strlit("bool");
    reveal_strlit("int64");
    reveal_strlit("float32");
    reveal_strlit("timestamp");
    reveal_strlit("list<string>");
    assert("text"@[0] != "bool"@[0]);
}

/// A field of any type may be given no value; a field of a type that is not known
/// takes none at all.
pub proof fn law_no_value_fits_all_types(t: Seq<char>, v: JsonV)
    ensures
        schema::is_scalar_type(t) ==> mcp::value_error(t, JsonV::Null) is None,
        !schema::is_scalar_type(t) ==> mcp::value_error(t, v) is Some,
{
    lemma_kinds_differ();
}

/// A document whose ingestion fails is not written, and the reason is told.
pub proof fn law_failed_ingestion_is_told(a: Adding, c: SchemaConfig)
    requires
        a.settled(c),
        a.ingest.next_step() is Fail,
    ensures
        a.stage == AddStage::Failed,
        a.error@ == a.ingest.next_step()->Fail_0,
{
}

} // verus!
