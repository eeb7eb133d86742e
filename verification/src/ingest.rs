//! Writing a document: its rows, the texts to embed for them, and the vectors
//! each row is written with.

use crate::chunker;
use crate::chunker::{Chunk, ChunkV};
use crate::dict::Dict;
use crate::json;
use crate::json::JsonV;
use crate::schema::VectorFieldConfig;
use crate::store;
use crate::store::{Entry, InputDoc, Record, RecordV};
use crate::text;
use vstd::prelude::*;

verus! {

broadcast use vstd::string::group_string_axioms;

/// Who writes: the tool interface, the command line or the REST interface.
/// They differ in what they check and how they say what is wrong.
#[derive(Debug, Clone, Copy, PartialEq, Eq, Structural)]
pub enum Writer {
    Tool,
    Cli,
    Rest,
}

/// The text that a vector field is derived from.
pub open spec fn source_text(d: InputDoc, v: VectorFieldConfig) -> Seq<char> {
    if v.source@ == "raw_text"@ {
        d.raw_text@
    } else {
        match json::lookup(json::entries(d.extra@), v.source@) {
            Some(j) => match json::string_of(j) {
                Some(s) => s,
                None => Seq::empty(),
            },
            None => Seq::empty(),
        }
    }
}

/// The text that a vector field is derived from.
fn source_of(d: &InputDoc, v: &VectorFieldConfig) -> (r: String)
    ensures
        r@ == source_text(*d, *v),
{
    if text::same(v.source.as_str(), "raw_text") {
        d.raw_text.clone()
    } else {
        match json::find(&d.extra, v.source.as_str()) {
            Some(j) => match j.as_str() {
                Some(s) => s.to_string(),
                None => String::new(),
            },
            None => String::new(),
        }
    }
}

// ---------------------------------------------------------------------------
// Rows
// ---------------------------------------------------------------------------

/// The row of the whole document.
pub open spec fn parent_row(d: InputDoc) -> RecordV {
    RecordV {
        id: d.id@,
        raw_text: d.raw_text@,
        chunk_level: 0,
        chunk_index: 0,
        parent_doc_id: None,
        source_path: d.source_path@,
        source_type: d.source_type@,
        extra: json::entries(d.extra@),
    }
}

/// The row of one chunk: it carries the path, the type and the values of its
/// document.
pub open spec fn leaf_row(d: InputDoc, c: ChunkV) -> RecordV {
    RecordV {
        id: c.chunk_id,
        raw_text: c.text,
        chunk_level: 1,
        chunk_index: c.chunk_index,
        parent_doc_id: Some(d.id@),
        source_path: d.source_path@,
        source_type: d.source_type@,
        extra: json::entries(d.extra@),
    }
}

fn parent_record(d: &InputDoc) -> (r: Record)
    ensures
        r@ == parent_row(*d),
{
    Record {
        id: d.id.clone(),
        raw_text: d.raw_text.clone(),
        chunk_level: 0,
        chunk_index: 0,
        parent_doc_id: None,
        source_path: d.source_path.clone(),
        source_type: d.source_type.clone(),
        extra: json::copy_entries(&d.extra),
    }
}

fn leaf_record(d: &InputDoc, c: &Chunk) -> (r: Record)
    ensures
        r@ == leaf_row(*d, c@),
{
    Record {
        id: c.chunk_id.clone(),
        raw_text: c.text.clone(),
        chunk_level: 1,
        chunk_index: c.chunk_index,
        parent_doc_id: Some(d.id.clone()),
        source_path: d.source_path.clone(),
        source_type: d.source_type.clone(),
        extra: json::copy_entries(&d.extra),
    }
}

// ---------------------------------------------------------------------------
// Embedding
// ---------------------------------------------------------------------------

/// What is embedded for one vector field: the document (item 0), unless a
/// vector was brought along, and then its chunks (items 1 to `m`). Nothing for
/// a field that does not embed on write.
pub open spec fn field_jobs(f: int, v: VectorFieldConfig, given: bool, m: nat) -> Seq<(int, int)> {
    if !v.auto_embed {
        Seq::empty()
    } else {
        (if given {
            Seq::empty()
        } else {
            seq![(f, 0int)]
        }) + Seq::new(m, |k: int| (f, k + 1))
    }
}

/// What is embedded for the first `n` vector fields, in order.
pub open spec fn jobs(
    fields: Seq<VectorFieldConfig>,
    given: Map<Seq<char>, Vec<u32>>,
    m: nat,
    n: nat,
) -> Seq<(int, int)>
    decreases n,
{
    if n == 0 || n > fields.len() {
        Seq::empty()
    } else {
        jobs(fields, given, m, (n - 1) as nat) + field_jobs(
            n - 1,
            fields[n - 1],
            given.dom().contains(fields[n - 1].name@),
            m,
        )
    }
}

/// The text of item `k` of a vector field.
pub open spec fn item_text(d: InputDoc, cs: Seq<ChunkV>, v: VectorFieldConfig, k: int) -> Seq<
    char,
> {
    if k == 0 {
        source_text(d, v)
    } else {
        cs[k - 1].text
    }
}

/// The error for a vector field without text to derive it from.
pub open spec fn empty_source_error(v: VectorFieldConfig) -> Seq<char> {
    "vector column `"@ + v.name@ + "`: source text field `"@ + v.source@ + "` is empty"@
}

/// What is wrong with an embedding of `len` numbers for item `k` of a field.
pub open spec fn dim_error(w: Writer, v: VectorFieldConfig, k: int, len: nat) -> Option<
    Seq<char>,
> {
    if len == v.dim {
        None
    } else if w == Writer::Rest {
        if k == 0 {
            Some(
                "vector `"@ + v.name@ + "`: embedder dim "@ + text::decimal(len)
                    + " != configured "@ + text::decimal(v.dim as nat),
            )
        } else {
            None
        }
    } else if w == Writer::Cli && k > 0 {
        Some("vector column `"@ + v.name@ + "`: embedder dim mismatch on leaf"@)
    } else {
        Some(
            "vector column `"@ + v.name@ + "`: embedder dim "@ + text::decimal(len)
                + " != configured dim "@ + text::decimal(v.dim as nat),
        )
    }
}

/// What to do next.
#[derive(Debug, PartialEq, Eq)]
pub enum Step {
    /// Embed this text and give back its vector.
    Embed(String),
    /// Write the rows.
    Write,
    /// Give up.
    Fail(String),
}

/// What to do next.
pub enum StepV {
    Embed(Seq<char>),
    Write,
    Fail(Seq<char>),
}

impl View for Step {
    type V = StepV;

    open spec fn view(&self) -> StepV {
        match *self {
            Step::Embed(s) => StepV::Embed(s@),
            Step::Write => StepV::Write,
            Step::Fail(e) => StepV::Fail(e@),
        }
    }
}

/// A document being written.
#[derive(Debug)]
pub struct Ingest {
    pub doc: InputDoc,
    pub chunks: Vec<Chunk>,
    pub fields: Vec<VectorFieldConfig>,
    pub writer: Writer,
    /// What is embedded: field and item.
    pub jobs: Vec<(usize, usize)>,
    /// The vectors obtained so far, one for each job.
    pub answers: Vec<Vec<u32>>,
}

/// A list of jobs as numbers.
pub open spec fn job_numbers(v: Seq<(usize, usize)>) -> Seq<(int, int)> {
    Seq::new(v.len(), |i: int| (v[i].0 as int, v[i].1 as int))
}

impl Ingest {
    /// The jobs are those of the document, and no more of them are answered
    /// than there are.
    pub open spec fn wf(&self) -> bool {
        &&& self.doc.vectors.wf()
        &&& job_numbers(self.jobs@) == jobs(
            self.fields@,
            self.doc.vectors@,
            self.chunks@.len(),
            self.fields@.len(),
        )
        &&& self.answers@.len() <= self.jobs@.len()
    }

    /// What to do next: a document whose source text is empty is refused where
    /// the writer checks that; the next text to embed; or to write.
    pub open spec fn next_step(&self) -> StepV {
        let n = self.answers@.len() as int;
        if n >= self.jobs@.len() {
            StepV::Write
        } else {
            let f = self.jobs@[n].0 as int;
            let k = self.jobs@[n].1 as int;
            let v = self.fields@[f];
            let t = item_text(self.doc, chunker::chunks(self.chunks@), v, k);
            if k == 0 && t.len() == 0 && self.writer != Writer::Rest {
                StepV::Fail(empty_source_error(v))
            } else {
                StepV::Embed(t)
            }
        }
    }
}

proof fn lemma_jobs_in_range(
    fields: Seq<VectorFieldConfig>,
    given: Map<Seq<char>, Vec<u32>>,
    m: nat,
    n: nat,
    j: int,
)
    requires
        n <= fields.len(),
        0 <= j < jobs(fields, given, m, n).len(),
    ensures
        0 <= jobs(fields, given, m, n)[j].0 < n,
        0 <= jobs(fields, given, m, n)[j].1 <= m,
    decreases n,
{
    if n > 0 {
        let before = jobs(fields, given, m, (n - 1) as nat);
        if j < before.len() {
            lemma_jobs_in_range(fields, given, m, (n - 1) as nat, j);
        }
    }
}

/// Lists what is embedded.
fn list_jobs(fields: &Vec<VectorFieldConfig>, given: &Dict<Vec<u32>>, m: usize) -> (r: Vec<
    (usize, usize),
>)
    requires
        given.wf(),
        m < usize::MAX,
    ensures
        job_numbers(r@) == jobs(fields@, given@, m as nat, fields@.len()),
{
    let mut out: Vec<(usize, usize)> = Vec::new();
    let mut f: usize = 0;
    assert(job_numbers(out@) =~= Seq::empty());
    while f < fields.len()
        invariant
            given.wf(),
            m < usize::MAX,
            f <= fields@.len(),
            job_numbers(out@) == jobs(fields@, given@, m as nat, f as nat),
        decreases fields@.len() - f,
    {
        let ghost was = job_numbers(out@);
        let v: &VectorFieldConfig = &fields[f];
        let ghost here = given@.dom().contains(v.name@);
        if v.auto_embed {
            let brought: bool = given.contains(v.name.as_str());
            if !brought {
                out.push((f, 0));
            }
            let ghost head = job_numbers(out@);
            assert(head =~= was + (if here {
                Seq::empty()
            } else {
                seq![(f as int, 0int)]
            }));
            let ghost rest = Seq::new(m as nat, |k: int| (f as int, k + 1));
            let mut k: usize = 0;
            assert(head + rest.take(0) =~= head);
            while k < m
                invariant
                    m < usize::MAX,
                    k <= m,
                    rest == Seq::new(m as nat, |k: int| (f as int, k + 1)),
                    job_numbers(out@) == head + rest.take(k as int),
                decreases m - k,
            {
                let ghost before = job_numbers(out@);
                out.push((f, k + 1));
                k = k + 1;
                assert(job_numbers(out@) =~= before.push((f as int, k as int)));
                assert(rest.take(k as int) =~= rest.take(k - 1).push(rest[k - 1]));
                assert(job_numbers(out@) =~= head + rest.take(k as int));
            }
            assert(rest.take(k as int) =~= rest);
            assert(job_numbers(out@) =~= was + field_jobs(f as int, *v, here, m as nat));
        } else {
            assert(was + field_jobs(f as int, *v, here, m as nat) =~= was);
        }
        f = f + 1;
    }
    out
}

impl Ingest {
    /// Begins to write a document that was split into the given chunks.
    pub fn start(
        doc: InputDoc,
        chunks: Vec<Chunk>,
        fields: Vec<VectorFieldConfig>,
        writer: Writer,
    ) -> (r: Ingest)
        requires
            doc.vectors.wf(),
            chunks@.len() < usize::MAX,
        ensures
            r.wf(),
            r.doc == doc,
            r.chunks == chunks,
            r.fields == fields,
            r.writer == writer,
            r.answers@.len() == 0,
    {
        let jobs: Vec<(usize, usize)> = list_jobs(&fields, &doc.vectors, chunks.len());
        Ingest { doc, chunks, fields, writer, jobs, answers: Vec::new() }
    }

    /// What to do next.
    pub fn next(&self) -> (r: Step)
        requires
            self.wf(),
        ensures
            r@ == self.next_step(),
    {
        let n: usize = self.answers.len();
        if n >= self.jobs.len() {
            return Step::Write;
        }
        proof {
            lemma_jobs_in_range(
                self.fields@,
                self.doc.vectors@,
                self.chunks@.len(),
                self.fields@.len(),
                n as int,
            );
            assert(job_numbers(self.jobs@)[n as int] == (
                self.jobs@[n as int].0 as int,
                self.jobs@[n as int].1 as int,
            ));
        }
        let f: usize = self.jobs[n].0;
        let k: usize = self.jobs[n].1;
        let v: &VectorFieldConfig = &self.fields[f];
        if k == 0 {
            let t: String = source_of(&self.doc, v);
            let checked: bool = match self.writer {
                Writer::Rest => false,
                _ => true,
            };
            if checked && t.as_str().is_empty() {
                return Step::Fail(
                    text::cat5(
                        "vector column `",
                        v.name.as_str(),
                        "`: source text field `",
                        v.source.as_str(),
                        "` is empty",
                    ),
                );
            }
            Step::Embed(t)
        } else {
            assert(chunker::chunks(self.chunks@)[k - 1] == self.chunks@[k - 1]@);
            Step::Embed(self.chunks[k - 1].text.clone())
        }
    }

    /// Takes the vector of the text that was to be embedded; refuses one of
    /// the wrong dimension.
    pub fn accept(&mut self, vector: Vec<u32>) -> (r: Result<(), String>)
        requires
            old(self).wf(),
            old(self).answers@.len() < old(self).jobs@.len(),
        ensures
            final(self).wf(),
            final(self).doc == old(self).doc,
            final(self).chunks == old(self).chunks,
            final(self).fields == old(self).fields,
            final(self).writer == old(self).writer,
            final(self).jobs == old(self).jobs,
            ({
                let j = old(self).jobs@[old(self).answers@.len() as int];
                match dim_error(
                    old(self).writer,
                    old(self).fields@[j.0 as int],
                    j.1 as int,
                    vector@.len(),
                ) {
                    None => r is Ok && final(self).answers@ == old(self).answers@.push(vector),
                    Some(e) => r is Err && r->Err_0@ == e && final(self).answers
                        == old(self).answers,
                }
            }),
    {
        let n: usize = self.answers.len();
        proof {
            lemma_jobs_in_range(
                self.fields@,
                self.doc.vectors@,
                self.chunks@.len(),
                self.fields@.len(),
                n as int,
            );
            assert(job_numbers(self.jobs@)[n as int] == (
                self.jobs@[n as int].0 as int,
                self.jobs@[n as int].1 as int,
            ));
        }
        let f: usize = self.jobs[n].0;
        let k: usize = self.jobs[n].1;
        match check_dim(self.writer, &self.fields[f], k, vector.len()) {
            Err(e) => Err(e),
            Ok(_) => {
                self.answers.push(vector);
                Ok(())
            },
        }
    }
}

/// Checks the dimension of an embedding.
fn check_dim(w: Writer, v: &VectorFieldConfig, k: usize, len: usize) -> (r: Result<(), String>)
    ensures
        (match r {
            Ok(_) => dim_error(w, *v, k as int, len as nat) is None,
            Err(e) => dim_error(w, *v, k as int, len as nat) == Some(e@),
        }),
{
    if len == v.dim {
        return Ok(());
    }
    let l: String = text::usize_text(len);
    let d: String = text::usize_text(v.dim);
    match w {
        Writer::Rest => if k == 0 {
            let mut e: String = text::cat5(
                "vector `",
                v.name.as_str(),
                "`: embedder dim ",
                l.as_str(),
                " != configured ",
            );
            e.append(d.as_str());
            return Err(e);
        } else {
            return Ok(());
        },
        Writer::Cli => if k > 0 {
            return Err(
                text::cat3(
                    "vector column `",
                    v.name.as_str(),
                    "`: embedder dim mismatch on leaf",
                ),
            );
        },
        Writer::Tool => {},
    }
    let mut e: String = text::cat5(
        "vector column `",
        v.name.as_str(),
        "`: embedder dim ",
        l.as_str(),
        " != configured dim ",
    );
    e.append(d.as_str());
    Err(e)
}

// ---------------------------------------------------------------------------
// Vectors of the rows
// ---------------------------------------------------------------------------

/// The answer to the job for item `k` of field `f`, if there is one.
pub open spec fn answer_to(
    js: Seq<(int, int)>,
    answers: Seq<Seq<u32>>,
    f: int,
    k: int,
    n: nat,
) -> Option<Seq<u32>>
    decreases n,
{
    if n == 0 || n > js.len() {
        None
    } else if js[n - 1] == (f, k) {
        Some(answers[n - 1])
    } else {
        answer_to(js, answers, f, k, (n - 1) as nat)
    }
}

/// The vectors of a map by name.
pub open spec fn vector_map(d: Map<Seq<char>, Vec<u32>>) -> Map<Seq<char>, Seq<u32>> {
    Map::new(|k: Seq<char>| d.dom().contains(k), |k: Seq<char>| d[k]@)
}

impl Ingest {
    /// The vector of item `k` for field `f`: for the document, the one brought
    /// along before the one computed; for a chunk the other way round.
    pub open spec fn vector_of(&self, f: int, k: int) -> Option<Seq<u32>> {
        let name = self.fields@[f].name@;
        let given = if self.doc.vectors@.dom().contains(name) {
            Some(self.doc.vectors@[name]@)
        } else {
            None
        };
        let found = answer_to(
            job_numbers(self.jobs@),
            store::patterns(self.answers@),
            f,
            k,
            self.jobs@.len(),
        );
        if k == 0 && given is Some {
            given
        } else if found is Some {
            found
        } else {
            given
        }
    }

    /// The vectors of item `k` for the first `n` fields.
    pub open spec fn vectors_of(&self, k: int, n: nat) -> Map<Seq<char>, Seq<u32>>
        decreases n,
    {
        if n == 0 || n > self.fields@.len() {
            Map::empty()
        } else {
            match self.vector_of(n - 1, k) {
                Some(v) => self.vectors_of(k, (n - 1) as nat).insert(
                    self.fields@[n - 1].name@,
                    v,
                ),
                None => self.vectors_of(k, (n - 1) as nat),
            }
        }
    }

    fn find_vector(&self, f: usize, k: usize) -> (r: Option<Vec<u32>>)
        requires
            self.wf(),
            self.answers@.len() == self.jobs@.len(),
            f < self.fields@.len(),
        ensures
            (match r {
                Some(v) => self.vector_of(f as int, k as int) == Some(v@),
                None => self.vector_of(f as int, k as int) is None,
            }),
    {
        let given: Option<Vec<u32>> = match self.doc.vectors.get(self.fields[f].name.as_str()) {
            Some(v) => Some(store::copy_vector(v)),
            None => None,
        };
        if k == 0 {
            match given {
                Some(v) => {
                    return Some(v);
                },
                None => {
                    return self.find_answer(f, k);
                },
            }
        }
        match self.find_answer(f, k) {
            Some(v) => Some(v),
            None => given,
        }
    }

    fn find_answer(&self, f: usize, k: usize) -> (r: Option<Vec<u32>>)
        requires
            self.answers@.len() == self.jobs@.len(),
        ensures
            ({
                let found = answer_to(
                    job_numbers(self.jobs@),
                    store::patterns(self.answers@),
                    f as int,
                    k as int,
                    self.jobs@.len(),
                );
                match r {
                    Some(v) => found == Some(v@),
                    None => found is None,
                }
            }),
    {
        let ghost js = job_numbers(self.jobs@);
        let ghost answers = store::patterns(self.answers@);
        let mut n: usize = self.jobs.len();
        while n > 0
            invariant
                self.answers@.len() == self.jobs@.len(),
                js == job_numbers(self.jobs@),
                answers == store::patterns(self.answers@),
                n <= self.jobs@.len(),
                answer_to(js, answers, f as int, k as int, self.jobs@.len()) == answer_to(
                    js,
                    answers,
                    f as int,
                    k as int,
                    n as nat,
                ),
            decreases n,
        {
            assert(js[n - 1] == (self.jobs@[n - 1].0 as int, self.jobs@[n - 1].1 as int));
            if self.jobs[n - 1].0 == f && self.jobs[n - 1].1 == k {
                assert(answers[n - 1] == self.answers@[n - 1]@);
                return Some(store::copy_vector(&self.answers[n - 1]));
            }
            n = n - 1;
        }
        None
    }

    fn item_vectors(&self, k: usize) -> (r: Dict<Vec<u32>>)
        requires
            self.wf(),
            self.answers@.len() == self.jobs@.len(),
        ensures
            r.wf(),
            vector_map(r@) == self.vectors_of(k as int, self.fields@.len()),
    {
        let mut out: Dict<Vec<u32>> = Dict::new();
        let mut f: usize = 0;
        assert(vector_map(out@) =~= Map::empty());
        while f < self.fields.len()
            invariant
                self.wf(),
                self.answers@.len() == self.jobs@.len(),
                out.wf(),
                f <= self.fields@.len(),
                vector_map(out@) == self.vectors_of(k as int, f as nat),
            decreases self.fields@.len() - f,
        {
            let ghost was = out@;
            match self.find_vector(f, k) {
                Some(v) => {
                    let name: String = self.fields[f].name.clone();
                    let ghost vec = v;
                    let ghost key = name@;
                    out.insert(name, v);
                    assert(vector_map(out@) =~= vector_map(was).insert(key, vec@));
                },
                None => {},
            }
            f = f + 1;
        }
        out
    }

    /// Whether these are the rows of the document with the vectors they are
    /// written with: the document first, then its chunks in order.
    pub open spec fn has_entries(&self, es: Seq<Entry>) -> bool {
        &&& es.len() == self.chunks@.len() + 1
        &&& es[0].record@ == parent_row(self.doc)
        &&& forall|i: int|
            0 <= i < self.chunks@.len() ==> (#[trigger] es[i + 1]).record@ == leaf_row(
                self.doc,
                self.chunks@[i]@,
            )
        &&& forall|i: int|
            0 <= i < es.len() ==> (#[trigger] es[i]).vectors.wf() && vector_map(es[i].vectors@)
                == self.vectors_of(i, self.fields@.len())
    }

    /// The rows of the document and the vectors they are written with: the
    /// document first, then its chunks in order.
    pub fn entries(&self) -> (r: Vec<Entry>)
        requires
            self.wf(),
            self.answers@.len() == self.jobs@.len(),
            self.chunks@.len() < usize::MAX,
        ensures
            self.has_entries(r@),
    {
        let mut out: Vec<Entry> = Vec::new();
        out.push(Entry { record: parent_record(&self.doc), vectors: self.item_vectors(0) });
        let mut i: usize = 0;
        while i < self.chunks.len()
            invariant
                self.wf(),
                self.answers@.len() == self.jobs@.len(),
                self.chunks@.len() < usize::MAX,
                i <= self.chunks@.len(),
                out@.len() == i + 1,
                out@[0].record@ == parent_row(self.doc),
                forall|k: int|
                    0 <= k < i ==> (#[trigger] out@[k + 1]).record@ == leaf_row(
                        self.doc,
                        self.chunks@[k]@,
                    ),
                forall|k: int|
                    0 <= k < out@.len() ==> (#[trigger] out@[k]).vectors.wf() && vector_map(
                        out@[k].vectors@,
                    ) == self.vectors_of(k, self.fields@.len()),
            decreases self.chunks@.len() - i,
        {
            out.push(
                Entry {
                    record: leaf_record(&self.doc, &self.chunks[i]),
                    vectors: self.item_vectors(i + 1),
                },
            );
            i = i + 1;
        }
        out
    }
}

// ---------------------------------------------------------------------------
// Laws
// ---------------------------------------------------------------------------

proof fn lemma_job_listed(
    fields: Seq<VectorFieldConfig>,
    given: Map<Seq<char>, Vec<u32>>,
    m: nat,
    n: nat,
    f: int,
    k: int,
) -> (j: int)
    requires
        0 <= f < n <= fields.len(),
        fields[f].auto_embed,
        0 <= k <= m,
        k > 0 || !given.dom().contains(fields[f].name@),
    ensures
        0 <= j < jobs(fields, given, m, n).len(),
        jobs(fields, given, m, n)[j] == (f, k),
    decreases n,
{
    let before = jobs(fields, given, m, (n - 1) as nat);
    if f < n - 1 {
        let j = lemma_job_listed(fields, given, m, (n - 1) as nat, f, k);
        assert(jobs(fields, given, m, n)[j] == before[j]);
        j
    } else {
        let here = given.dom().contains(fields[f].name@);
        let own = field_jobs(f, fields[f], here, m);
        let i = if here {
            k - 1
        } else {
            k
        };
        assert(own[i] == (f, k));
        assert(jobs(fields, given, m, n)[before.len() + i] == own[i]);
        before.len() + i
    }
}

proof fn lemma_answer_found(
    js: Seq<(int, int)>,
    answers: Seq<Seq<u32>>,
    f: int,
    k: int,
    n: nat,
    j: int,
)
    requires
        0 <= j < n <= js.len(),
        js[j] == (f, k),
    ensures
        answer_to(js, answers, f, k, n) is Some,
    decreases n,
{
    if js[n - 1] != (f, k) {
        lemma_answer_found(js, answers, f, k, (n - 1) as nat, j);
    }
}

/// Once every text is embedded, each row has a vector for each field that
/// embeds on write: no such column is ever written without one.
pub proof fn law_every_row_has_its_vectors(i: Ingest, f: int, k: int)
    requires
        i.wf(),
        i.answers@.len() == i.jobs@.len(),
        0 <= f < i.fields@.len(),
        i.fields@[f].auto_embed,
        0 <= k <= i.chunks@.len(),
    ensures
        i.vector_of(f, k) is Some,
{
    let given = i.doc.vectors@;
    if k > 0 || !given.dom().contains(i.fields@[f].name@) {
        let j = lemma_job_listed(
            i.fields@,
            given,
            i.chunks@.len(),
            i.fields@.len(),
            f,
            k,
        );
        lemma_answer_found(
            job_numbers(i.jobs@),
            store::patterns(i.answers@),
            f,
            k,
            i.jobs@.len(),
            j,
        );
    }
}

/// The rows that are written say what the document says: the first is the
/// document itself with its whole text; after it comes a row for each chunk, in
/// their order, with the text, the id and the position of that chunk, under the
/// document it belongs to. All of them carry the path, the type and the values
/// of the document.
pub proof fn law_rows_carry_their_texts(i: Ingest, es: Seq<Entry>)
    requires
        i.has_entries(es),
    ensures
        es.len() == i.chunks@.len() + 1,
        es[0].record.raw_text@ == i.doc.raw_text@,
        es[0].record.id@ == i.doc.id@,
        es[0].record.parent_doc_id is None,
        es[0].record.chunk_level == 0,
        forall|k: int|
            0 <= k < i.chunks@.len() ==> {
                let r = (#[trigger] es[k + 1]).record;
                let c = i.chunks@[k];
                &&& r.raw_text@ == c.text@
                &&& r.id@ == c.chunk_id@
                &&& r.chunk_index == c.chunk_index
                &&& r.chunk_level == 1
                &&& r.parent_doc_id is Some
                &&& r.parent_doc_id->0@ == i.doc.id@
            },
        forall|k: int|
            0 <= k < es.len() ==> {
                let r = (#[trigger] es[k]).record;
                &&& r.source_path@ == i.doc.source_path@
                &&& r.source_type@ == i.doc.source_type@
                &&& json::entries(r.extra@) == json::entries(i.doc.extra@)
            },
{
    assert forall|k: int| 0 <= k < i.chunks@.len() implies {
        let r = (#[trigger] es[k + 1]).record;
        let c = i.chunks@[k];
        &&& r.raw_text@ == c.text@
        &&& r.id@ == c.chunk_id@
        &&& r.chunk_index == c.chunk_index
        &&& r.chunk_level == 1
        &&& r.parent_doc_id is Some
        &&& r.parent_doc_id->0@ == i.doc.id@
    } by {
        assert(es[k + 1].record@ == leaf_row(i.doc, i.chunks@[k]@));
        assert(store::opt_view(es[k + 1].record.parent_doc_id) == Some(i.doc.id@));
    }
    assert(es[0].record@ == parent_row(i.doc));
    assert(store::opt_view(es[0].record.parent_doc_id) is None);
    assert forall|k: int| 0 <= k < es.len() implies {
        let r = (#[trigger] es[k]).record;
        &&& r.source_path@ == i.doc.source_path@
        &&& r.source_type@ == i.doc.source_type@
        &&& json::entries(r.extra@) == json::entries(i.doc.extra@)
    } by {
        if k > 0 {
            assert(es[(k - 1) + 1].record@ == leaf_row(i.doc, i.chunks@[k - 1]@));
        }
    }
}

/// Whether `before` is the same document being written with only the first `n`
/// texts embedded.
pub open spec fn is_earlier(before: Ingest, i: Ingest, n: nat) -> bool {
    &&& before.doc == i.doc
    &&& before.chunks == i.chunks
    &&& before.fields == i.fields
    &&& before.writer == i.writer
    &&& before.jobs == i.jobs
    &&& n < i.answers@.len()
    &&& before.answers@ == i.answers@.take(n as int)
}

/// A vector that was computed for a text is written in the row that has that
/// text: what was embedded in any step is the text of a chunk row, or the source
/// text of the document, and the row holds the vector that came back.
pub proof fn law_vectors_belong_to_their_rows(
    before: Ingest,
    i: Ingest,
    n: nat,
    es: Seq<Entry>,
    t: Seq<char>,
) -> (r: (int, int))
    requires
        i.wf(),
        i.answers@.len() == i.jobs@.len(),
        i.has_entries(es),
        is_earlier(before, i, n),
        before.next_step() == StepV::Embed(t),
        forall|f: int, g: int|
            0 <= f < g < i.fields@.len() ==> (#[trigger] i.fields@[f]).name@ != (
            #[trigger] i.fields@[g]).name@,
    ensures
        0 <= r.0 < i.fields@.len(),
        0 <= r.1 < es.len(),
        ({
            let v = i.fields@[r.0];
            let e = es[r.1];
            &&& v.auto_embed
            &&& e.vectors@.dom().contains(v.name@)
            &&& e.vectors@[v.name@]@ == i.answers@[n as int]@
            &&& r.1 > 0 ==> t == e.record.raw_text@
            &&& r.1 == 0 && v.source@ == "raw_text"@ ==> t == e.record.raw_text@
            &&& r.1 == 0 && v.source@ != "raw_text"@ ==> match json::lookup(
                json::entries(i.doc.extra@),
                v.source@,
            ) {
                Some(JsonV::Str(s)) => t == s,
                _ => t.len() == 0,
            }
        }),
{
    let js = job_numbers(i.jobs@);
    let f = js[n as int].0;
    let k = js[n as int].1;
    let m = i.chunks@.len();
    lemma_jobs_in_range(i.fields@, i.doc.vectors@, m, i.fields@.len(), n as int);
    lemma_jobs_mean(i.fields@, i.doc.vectors@, m, i.fields@.len(), n as int);
    lemma_answer_unique(i, n as int);
    lemma_vectors_hold(i, k, i.fields@.len(), f);
    law_rows_carry_their_texts(i, es);
    if k > 0 {
        assert(es[(k - 1) + 1].record.raw_text@ == i.chunks@[k - 1].text@);
        assert(chunker::chunks(i.chunks@)[k - 1] == i.chunks@[k - 1]@);
    }
    assert(vector_map(es[k].vectors@) == i.vectors_of(k, i.fields@.len()));
    assert(vector_map(es[k].vectors@).dom().contains(i.fields@[f].name@));
    (f, k)
}

/// A document is given up only where a vector is to be derived from a text that is
/// empty; every other text is embedded, and once all are the rows are written.
pub proof fn law_texts_are_embedded(i: Ingest)
    requires
        i.wf(),
    ensures
        i.answers@.len() == i.jobs@.len() ==> i.next_step() is Write,
        i.answers@.len() < i.jobs@.len() ==> !(i.next_step() is Write),
        i.next_step() is Fail ==> i.writer != Writer::Rest && exists|f: int|
            0 <= f < i.fields@.len() && i.fields@[f].auto_embed && source_text(
                i.doc,
                #[trigger] i.fields@[f],
            ).len() == 0,
        i.doc.raw_text@.len() > 0 && (forall|f: int|
            0 <= f < i.fields@.len() ==> (#[trigger] i.fields@[f]).source@ == "raw_text"@) ==> !(
        i.next_step() is Fail),
{
    let n = i.answers@.len() as int;
    if n < i.jobs@.len() {
        let js = job_numbers(i.jobs@);
        lemma_jobs_in_range(i.fields@, i.doc.vectors@, i.chunks@.len(), i.fields@.len(), n);
        lemma_jobs_mean(i.fields@, i.doc.vectors@, i.chunks@.len(), i.fields@.len(), n);
        let f = js[n].0;
        assert(i.fields@[f].auto_embed);
    }
}

/// What is embedded is for fields that embed on write, and for the document only
/// where no vector was brought along.
proof fn lemma_jobs_mean(
    fields: Seq<VectorFieldConfig>,
    given: Map<Seq<char>, Vec<u32>>,
    m: nat,
    n: nat,
    j: int,
)
    requires
        n <= fields.len(),
        0 <= j < jobs(fields, given, m, n).len(),
    ensures
        ({
            let (f, k) = jobs(fields, given, m, n)[j];
            &&& 0 <= f < n
            &&& fields[f].auto_embed
            &&& k == 0 ==> !given.dom().contains(fields[f].name@)
        }),
    decreases n,
{
    if n > 0 {
        let before = jobs(fields, given, m, (n - 1) as nat);
        let own = field_jobs(
            n - 1,
            fields[n - 1],
            given.dom().contains(fields[n - 1].name@),
            m,
        );
        if j < before.len() {
            lemma_jobs_mean(fields, given, m, (n - 1) as nat, j);
            assert(jobs(fields, given, m, n)[j] == before[j]);
        } else {
            assert(jobs(fields, given, m, n)[j] == own[j - before.len()]);
        }
    }
}

/// No text is embedded twice.
proof fn lemma_jobs_differ(
    fields: Seq<VectorFieldConfig>,
    given: Map<Seq<char>, Vec<u32>>,
    m: nat,
    n: nat,
    a: int,
    b: int,
)
    requires
        n <= fields.len(),
        0 <= a < b < jobs(fields, given, m, n).len(),
    ensures
        jobs(fields, given, m, n)[a] != jobs(fields, given, m, n)[b],
    decreases n,
{
    if n > 0 {
        let all = jobs(fields, given, m, n);
        let before = jobs(fields, given, m, (n - 1) as nat);
        let own = field_jobs(
            n - 1,
            fields[n - 1],
            given.dom().contains(fields[n - 1].name@),
            m,
        );
        if b < before.len() {
            lemma_jobs_differ(fields, given, m, (n - 1) as nat, a, b);
            assert(all[a] == before[a] && all[b] == before[b]);
        } else {
            assert(all[b] == own[b - before.len()]);
            if a < before.len() {
                lemma_jobs_mean(fields, given, m, (n - 1) as nat, a);
                assert(all[a] == before[a]);
            } else {
                assert(all[a] == own[a - before.len()]);
            }
        }
    }
}

proof fn lemma_answer_unique(i: Ingest, n: int)
    requires
        i.wf(),
        i.answers@.len() == i.jobs@.len(),
        0 <= n < i.jobs@.len(),
    ensures
        answer_to(
            job_numbers(i.jobs@),
            store::patterns(i.answers@),
            job_numbers(i.jobs@)[n].0,
            job_numbers(i.jobs@)[n].1,
            i.jobs@.len(),
        ) == Some(i.answers@[n]@),
{
    lemma_answer_at(i, n, i.jobs@.len());
}

proof fn lemma_answer_at(i: Ingest, n: int, m: nat)
    requires
        i.wf(),
        i.answers@.len() == i.jobs@.len(),
        0 <= n < m <= i.jobs@.len(),
    ensures
        answer_to(
            job_numbers(i.jobs@),
            store::patterns(i.answers@),
            job_numbers(i.jobs@)[n].0,
            job_numbers(i.jobs@)[n].1,
            m,
        ) == Some(i.answers@[n]@),
    decreases m,
{
    let js = job_numbers(i.jobs@);
    if m - 1 != n {
        lemma_jobs_differ(
            i.fields@,
            i.doc.vectors@,
            i.chunks@.len(),
            i.fields@.len(),
            n,
            m - 1,
        );
        lemma_answer_at(i, n, (m - 1) as nat);
    } else {
        assert(store::patterns(i.answers@)[n] == i.answers@[n]@);
        assert(js[n] == (js[n].0, js[n].1));
    }
}

proof fn lemma_vectors_hold(i: Ingest, k: int, n: nat, f: int)
    requires
        0 <= f < n <= i.fields@.len(),
        i.vector_of(f, k) is Some,
        forall|f: int, g: int|
            0 <= f < g < i.fields@.len() ==> (#[trigger] i.fields@[f]).name@ != (
            #[trigger] i.fields@[g]).name@,
    ensures
        i.vectors_of(k, n).dom().contains(i.fields@[f].name@),
        i.vectors_of(k, n)[i.fields@[f].name@] == i.vector_of(f, k)->0,
    decreases n,
{
    if f < n - 1 {
        lemma_vectors_hold(i, k, (n - 1) as nat, f);
        assert(i.fields@[f].name@ != i.fields@[n - 1].name@);
    }
}

/// No row is written without a vector for a field that embeds on write.
pub proof fn law_written_rows_have_vectors(i: Ingest, es: Seq<Entry>, f: int, k: int)
    requires
        i.wf(),
        i.answers@.len() == i.jobs@.len(),
        i.has_entries(es),
        0 <= f < i.fields@.len(),
        i.fields@[f].auto_embed,
        0 <= k < es.len(),
        forall|f: int, g: int|
            0 <= f < g < i.fields@.len() ==> (#[trigger] i.fields@[f]).name@ != (
            #[trigger] i.fields@[g]).name@,
    ensures
        es[k].vectors@.dom().contains(i.fields@[f].name@),
{
    law_every_row_has_its_vectors(i, f, k);
    lemma_vectors_hold(i, k, i.fields@.len(), f);
    assert(vector_map(es[k].vectors@) == i.vectors_of(k, i.fields@.len()));
    assert(vector_map(es[k].vectors@).dom().contains(i.fields@[f].name@));
}

/// A vector that came with the document is the vector of the document's own row.
pub proof fn law_given_vectors_are_kept(i: Ingest, f: int)
    requires
        0 <= f < i.fields@.len(),
        i.doc.vectors@.dom().contains(i.fields@[f].name@),
    ensures
        i.vector_of(f, 0) == Some(i.doc.vectors@[i.fields@[f].name@]@),
{
}

} // verus!
