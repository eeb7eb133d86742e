//! Adding and removing documents, step by step.
//!
//! The table is what counts: a document is written and removed there, and the
//! graph follows as far as it can. `next` says what is to be done, and one of
//! the other methods takes what came of it.

use crate::chunker::Chunk;
use crate::cli;
use crate::ingest;
use crate::ingest::{Ingest, Step, StepV, Writer};
use crate::json;
use crate::json::{Json, JsonV};
use crate::mcp;
use crate::schema;
use crate::schema::{SchemaConfig, VectorFieldConfig};
use crate::server;
use crate::store;
use crate::store::{Entry, InputDoc, Record, Row, RowV};
use crate::text;
use vstd::prelude::*;

verus! {

broadcast use vstd::string::group_string_axioms;

// ---------------------------------------------------------------------------
// Adding
// ---------------------------------------------------------------------------

/// How far a document that is added has come.
#[derive(Debug, Clone, Copy, PartialEq, Eq, Structural)]
pub enum AddStage {
    /// The versions it replaces are looked for.
    Looking,
    /// One of them is deleted.
    Deleting,
    /// The same one is deleted from the graph.
    Unmirroring,
    /// A text is embedded.
    Embedding,
    /// The rows are written.
    Writing,
    /// The indexes are brought up to date.
    Optimizing,
    /// The document is added to the graph.
    Mirroring,
    Done,
    Failed,
}

/// What is to be done for a document that is added.
#[derive(Debug, PartialEq, Eq)]
pub enum AddAction {
    /// Find the documents that meet a condition.
    Find(String),
    /// Delete a document with its chunks.
    Delete(String),
    /// Delete a document from the graph.
    Unmirror(String),
    /// Embed a text.
    Embed(String),
    /// Write the rows.
    Write,
    /// Bring the indexes up to date.
    Optimize,
    /// Add a text under an id to the graph.
    Mirror { body: String, id: String },
    /// Nothing: it is done, or has failed.
    Stop,
}

/// The model of what is to be done.
pub enum AddActionV {
    Find(Seq<char>),
    Delete(Seq<char>),
    Unmirror(Seq<char>),
    Embed(Seq<char>),
    Write,
    Optimize,
    Mirror { body: Seq<char>, id: Seq<char> },
    Stop,
}

impl View for AddAction {
    type V = AddActionV;

    open spec fn view(&self) -> AddActionV {
        match *self {
            AddAction::Find(s) => AddActionV::Find(s@),
            AddAction::Delete(s) => AddActionV::Delete(s@),
            AddAction::Unmirror(s) => AddActionV::Unmirror(s@),
            AddAction::Embed(s) => AddActionV::Embed(s@),
            AddAction::Write => AddActionV::Write,
            AddAction::Optimize => AddActionV::Optimize,
            AddAction::Mirror { body, id } => AddActionV::Mirror { body: body@, id: id@ },
            AddAction::Stop => AddActionV::Stop,
        }
    }
}

/// What went wrong, as a writer says it: the tool says in which step.
pub open spec fn failure(w: Writer, step: Seq<char>, e: Seq<char>) -> Seq<char> {
    if w == Writer::Tool {
        step + e
    } else {
        e
    }
}

fn say_failure(w: Writer, step: &str, e: String) -> (r: String)
    ensures
        r@ == failure(w, step@, e@),
{
    match w {
        Writer::Tool => text::cat2(step, e.as_str()),
        _ => e,
    }
}

/// A document being added.
pub struct Adding {
    pub ingest: Ingest,
    /// The condition on the versions that it replaces, if it replaces any.
    pub condition: Option<String>,
    /// Whether there is a graph.
    pub graph: bool,
    pub stage: AddStage,
    /// The versions to delete, and how many are dealt with.
    pub olds: Vec<String>,
    pub dealt: usize,
    /// The versions that were deleted.
    pub replaced: Vec<String>,
    /// The rows to write.
    pub rows: Vec<Row>,
    /// Why the document is not in the graph.
    pub note: Option<String>,
    /// Why it could not be added.
    pub error: String,
}

/// The condition on the versions that a document replaces. Over REST nothing is
/// replaced.
pub open spec fn replaces(c: SchemaConfig, d: InputDoc, w: Writer) -> Option<Seq<char>> {
    if w == Writer::Rest {
        None
    } else {
        mcp::replaced_sql(
            schema::replace_key_names(c, c.fields.keys@.len() as int),
            json::entries(d.extra@),
            w == Writer::Tool,
        )
    }
}

impl Adding {
    /// The id of the document.
    pub open spec fn id(&self) -> Seq<char> {
        self.ingest.doc.id@
    }

    /// The versions to delete.
    pub open spec fn old_ids(&self) -> Seq<Seq<char>> {
        text::texts(self.olds@)
    }

    /// The versions that were deleted.
    pub open spec fn replaced_ids(&self) -> Seq<Seq<char>> {
        text::texts(self.replaced@)
    }

    /// The new document is not among the versions to delete, only those were
    /// deleted, and the document is written only with all its vectors.
    pub open spec fn wf(&self) -> bool {
        &&& self.ingest.wf()
        &&& self.ingest.chunks@.len() < usize::MAX
        &&& self.dealt <= self.olds@.len()
        &&& !self.old_ids().contains(self.id())
        &&& forall|i: int|
            0 <= i < self.replaced@.len() ==> self.old_ids().contains(
                #[trigger] self.replaced@[i]@,
            )
        &&& match self.stage {
            AddStage::Looking => self.condition is Some && self.replaced@.len() == 0,
            AddStage::Deleting => self.dealt < self.olds@.len(),
            AddStage::Unmirroring => self.dealt < self.olds@.len() && self.graph,
            AddStage::Embedding => self.ingest.next_step() is Embed,
            AddStage::Mirroring => self.graph && self.ingest.next_step() is Write,
            AddStage::Failed => true,
            _ => self.ingest.next_step() is Write,
        }
    }

    /// What is to be done.
    pub open spec fn action(&self) -> AddActionV {
        match self.stage {
            AddStage::Looking => AddActionV::Find(self.condition->0@),
            AddStage::Deleting => AddActionV::Delete(self.olds@[self.dealt as int]@),
            AddStage::Unmirroring => AddActionV::Unmirror(self.olds@[self.dealt as int]@),
            AddStage::Embedding => AddActionV::Embed(self.ingest.next_step()->Embed_0),
            AddStage::Writing => AddActionV::Write,
            AddStage::Optimizing => AddActionV::Optimize,
            AddStage::Mirroring => AddActionV::Mirror {
                body: self.ingest.doc.raw_text@,
                id: self.id(),
            },
            AddStage::Done => AddActionV::Stop,
            AddStage::Failed => AddActionV::Stop,
        }
    }

    /// Where the document stands once the old versions are dealt with: refused,
    /// with a text to embed, or with its rows to write.
    pub open spec fn settled(&self, c: SchemaConfig) -> bool {
        match self.ingest.next_step() {
            StepV::Fail(m) => self.stage == AddStage::Failed && self.error@ == m,
            StepV::Embed(_) => self.stage == AddStage::Embedding,
            StepV::Write => exists|es: Seq<Entry>| #[trigger]
                self.ingest.has_entries(es) && (match store::batch_of(
                    c.fields,
                    self.ingest.fields@,
                    es,
                    es.len(),
                ) {
                    Ok(rows) => self.stage == AddStage::Writing && store::rows(self.rows@) == rows,
                    Err(e) => self.stage == AddStage::Failed && self.error@ == failure(
                        self.ingest.writer,
                        "batch build failed: "@,
                        e,
                    ),
                }),
        }
    }

    /// Where the document stands between two old versions.
    pub open spec fn goes_on(&self, c: SchemaConfig) -> bool {
        if self.dealt < self.olds@.len() {
            self.stage == AddStage::Deleting
        } else {
            self.settled(c)
        }
    }

    /// It is the same document in the same place.
    pub open spec fn same_document(&self, other: &Adding) -> bool {
        &&& self.ingest.doc == other.ingest.doc
        &&& self.ingest.chunks == other.ingest.chunks
        &&& self.ingest.fields == other.ingest.fields
        &&& self.ingest.writer == other.ingest.writer
        &&& self.condition == other.condition
        &&& self.graph == other.graph
    }

    /// Begins to add a document that was split into the given chunks.
    pub fn start(
        c: &SchemaConfig,
        doc: InputDoc,
        chunks: Vec<Chunk>,
        fields: Vec<VectorFieldConfig>,
        writer: Writer,
        graph: bool,
    ) -> (r: Adding)
        requires
            c.wf(),
            doc.vectors.wf(),
            chunks@.len() < usize::MAX,
        ensures
            r.wf(),
            r.ingest.doc == doc,
            r.ingest.chunks == chunks,
            r.ingest.fields == fields,
            r.ingest.writer == writer,
            r.ingest.answers@.len() == 0,
            r.graph == graph,
            store::opt_view(r.condition) == replaces(*c, doc, writer),
            r.replaced@.len() == 0,
            r.note is None,
            if r.condition is Some {
                r.stage == AddStage::Looking
            } else {
                r.settled(*c)
            },
    {
        let condition: Option<String> = match writer {
            Writer::Rest => None,
            Writer::Tool => mcp::replace_filter(&c.replace_key_fields(), &doc.extra, true),
            Writer::Cli => mcp::replace_filter(&c.replace_key_fields(), &doc.extra, false),
        };
        let looks: bool = condition.is_some();
        let mut r: Adding = Adding {
            ingest: Ingest::start(doc, chunks, fields, writer),
            condition,
            graph,
            stage: AddStage::Looking,
            olds: Vec::new(),
            dealt: 0,
            replaced: Vec::new(),
            rows: Vec::new(),
            note: None,
            error: String::new(),
        };
        assert(r.old_ids() =~= Seq::empty());
        if !looks {
            r.settle(c);
        }
        r
    }

    /// Refuses the document, or goes on to embed or to write it.
    fn settle(&mut self, c: &SchemaConfig)
        requires
            c.wf(),
            old(self).ingest.wf(),
            old(self).ingest.chunks@.len() < usize::MAX,
            old(self).dealt <= old(self).olds@.len(),
            !old(self).old_ids().contains(old(self).id()),
            forall|i: int|
                0 <= i < old(self).replaced@.len() ==> old(self).old_ids().contains(
                    #[trigger] old(self).replaced@[i]@,
                ),
        ensures
            final(self).wf(),
            final(self).settled(*c),
            final(self).ingest == old(self).ingest,
            final(self).condition == old(self).condition,
            final(self).graph == old(self).graph,
            final(self).olds == old(self).olds,
            final(self).dealt == old(self).dealt,
            final(self).replaced == old(self).replaced,
            final(self).note == old(self).note,
    {
        match self.ingest.next() {
            Step::Fail(m) => {
                self.error = m;
                self.stage = AddStage::Failed;
            },
            Step::Embed(_) => {
                self.stage = AddStage::Embedding;
            },
            Step::Write => {
                let es: Vec<Entry> = self.ingest.entries();
                match store::build_batch(&c.fields, &self.ingest.fields, &es) {
                    Ok(rows) => {
                        self.rows = rows;
                        self.stage = AddStage::Writing;
                    },
                    Err(e) => {
                        self.error = say_failure(self.ingest.writer, "batch build failed: ", e);
                        self.stage = AddStage::Failed;
                    },
                }
                assert(self.ingest.has_entries(es@));
            },
        }
    }

    /// What is to be done next.
    pub fn next(&self) -> (r: AddAction)
        requires
            self.wf(),
        ensures
            r@ == self.action(),
    {
        match self.stage {
            AddStage::Looking => match &self.condition {
                Some(sql) => AddAction::Find(sql.clone()),
                None => AddAction::Stop,
            },
            AddStage::Deleting => AddAction::Delete(self.olds[self.dealt].clone()),
            AddStage::Unmirroring => AddAction::Unmirror(self.olds[self.dealt].clone()),
            AddStage::Embedding => match self.ingest.next() {
                Step::Embed(t) => AddAction::Embed(t),
                _ => AddAction::Stop,
            },
            AddStage::Writing => AddAction::Write,
            AddStage::Optimizing => AddAction::Optimize,
            AddStage::Mirroring => AddAction::Mirror {
                body: self.ingest.doc.raw_text.clone(),
                id: self.ingest.doc.id.clone(),
            },
            AddStage::Done => AddAction::Stop,
            AddStage::Failed => AddAction::Stop,
        }
    }

    /// Deletes the next old version, or goes on with the document.
    fn go_on(&mut self, c: &SchemaConfig)
        requires
            c.wf(),
            old(self).ingest.wf(),
            old(self).ingest.chunks@.len() < usize::MAX,
            old(self).dealt <= old(self).olds@.len(),
            !old(self).old_ids().contains(old(self).id()),
            forall|i: int|
                0 <= i < old(self).replaced@.len() ==> old(self).old_ids().contains(
                    #[trigger] old(self).replaced@[i]@,
                ),
        ensures
            final(self).wf(),
            final(self).goes_on(*c),
            final(self).ingest == old(self).ingest,
            final(self).condition == old(self).condition,
            final(self).graph == old(self).graph,
            final(self).olds == old(self).olds,
            final(self).dealt == old(self).dealt,
            final(self).replaced == old(self).replaced,
            final(self).note == old(self).note,
    {
        if self.dealt < self.olds.len() {
            self.stage = AddStage::Deleting;
        } else {
            self.settle(c);
        }
    }

    /// Gives up.
    fn fail(&mut self, e: String)
        requires
            old(self).wf(),
        ensures
            final(self).wf(),
            final(self).stage == AddStage::Failed,
            final(self).error == e,
            final(self).same_document(old(self)),
            final(self).replaced == old(self).replaced,
            final(self).note == old(self).note,
    {
        self.error = e;
        self.stage = AddStage::Failed;
    }

    /// Takes the documents that meet the condition. The tool goes on without
    /// them where they cannot be found.
    pub fn found(&mut self, c: &SchemaConfig, r: Result<Vec<Record>, String>)
        requires
            c.wf(),
            old(self).wf(),
            old(self).stage == AddStage::Looking,
        ensures
            final(self).wf(),
            final(self).same_document(old(self)),
            final(self).replaced == old(self).replaced,
            final(self).note == old(self).note,
            (match r {
                Ok(rows) => {
                    &&& final(self).old_ids() == mcp::other_ids(
                        store::records(rows@),
                        old(self).id(),
                        rows@.len(),
                    )
                    &&& final(self).dealt == 0
                    &&& final(self).ingest == old(self).ingest
                    &&& final(self).goes_on(*c)
                },
                Err(e) => if old(self).ingest.writer == Writer::Cli {
                    final(self).stage == AddStage::Failed && final(self).error == e
                } else {
                    &&& final(self).olds@.len() == 0
                    &&& final(self).ingest == old(self).ingest
                    &&& final(self).settled(*c)
                },
            }),
    {
        match r {
            Ok(rows) => {
                self.olds = mcp::replaced_ids(&rows, self.ingest.doc.id.as_str());
                self.dealt = 0;
                proof {
                    mcp::law_replacing_spares_the_new_document(
                        store::records(rows@),
                        self.id(),
                        rows@.len(),
                    );
                }
                self.go_on(c);
            },
            Err(e) => {
                let cli: bool = match self.ingest.writer {
                    Writer::Cli => true,
                    _ => false,
                };
                if cli {
                    self.fail(e);
                } else {
                    self.olds = Vec::new();
                    self.dealt = 0;
                    assert(self.old_ids() =~= Seq::empty());
                    self.settle(c);
                }
            },
        }
    }

    /// Takes how the deletion of an old version went. The tool goes on to the
    /// next where it failed.
    pub fn deleted(&mut self, c: &SchemaConfig, r: Result<(), String>)
        requires
            c.wf(),
            old(self).wf(),
            old(self).stage == AddStage::Deleting,
        ensures
            final(self).wf(),
            final(self).same_document(old(self)),
            final(self).note == old(self).note,
            (match r {
                Ok(_) => {
                    &&& final(self).olds == old(self).olds
                    &&& final(self).ingest == old(self).ingest
                    &&& if old(self).graph {
                        &&& final(self).stage == AddStage::Unmirroring
                        &&& final(self).dealt == old(self).dealt
                        &&& final(self).replaced == old(self).replaced
                    } else {
                        &&& final(self).dealt == old(self).dealt + 1
                        &&& final(self).replaced_ids() == old(self).replaced_ids().push(
                            old(self).olds@[old(self).dealt as int]@,
                        )
                        &&& final(self).goes_on(*c)
                    }
                },
                Err(e) => {
                    &&& final(self).replaced == old(self).replaced
                    &&& if old(self).ingest.writer == Writer::Cli {
                        final(self).stage == AddStage::Failed && final(self).error == e
                    } else {
                        &&& final(self).olds == old(self).olds
                        &&& final(self).ingest == old(self).ingest
                        &&& final(self).dealt == old(self).dealt + 1
                        &&& final(self).goes_on(*c)
                    }
                },
            }),
    {
        match r {
            Ok(_) => if self.graph {
                self.stage = AddStage::Unmirroring;
            } else {
                self.dealt_with();
                self.go_on(c);
            },
            Err(e) => {
                let cli: bool = match self.ingest.writer {
                    Writer::Cli => true,
                    _ => false,
                };
                if cli {
                    self.fail(e);
                } else {
                    let n: usize = self.olds.len();
                    assert(self.dealt < n);
                    self.dealt = self.dealt + 1;
                    self.go_on(c);
                }
            },
        }
    }

    /// Notes that an old version was replaced.
    fn dealt_with(&mut self)
        requires
            old(self).wf(),
            old(self).dealt < old(self).olds@.len(),
        ensures
            final(self).ingest == old(self).ingest,
            final(self).condition == old(self).condition,
            final(self).graph == old(self).graph,
            final(self).note == old(self).note,
            final(self).olds == old(self).olds,
            final(self).dealt == old(self).dealt + 1,
            final(self).replaced_ids() == old(self).replaced_ids().push(
                old(self).olds@[old(self).dealt as int]@,
            ),
            forall|i: int|
                0 <= i < final(self).replaced@.len() ==> final(self).old_ids().contains(
                    #[trigger] final(self).replaced@[i]@,
                ),
    {
        let n: usize = self.olds.len();
        assert(self.dealt < n);
        let gone: String = self.olds[self.dealt].clone();
        assert(self.old_ids()[self.dealt as int] == gone@);
        let ghost before = self.replaced@;
        text::push_text(&mut self.replaced, gone);
        self.dealt = self.dealt + 1;
        proof {
            let now = self.replaced@;
            assert(text::texts(now) == text::texts(before).push(gone@));
            assert forall|i: int| 0 <= i < now.len() implies self.old_ids().contains(
                #[trigger] now[i]@,
            ) by {
                assert(text::texts(now)[i] == now[i]@);
                if i < before.len() {
                    assert(text::texts(before)[i] == before[i]@);
                }
            }
        }
    }

    /// Takes how the deletion of an old version from the graph went: whatever
    /// came of it, the version is replaced.
    pub fn unmirrored(&mut self, c: &SchemaConfig, r: Result<(), String>)
        requires
            c.wf(),
            old(self).wf(),
            old(self).stage == AddStage::Unmirroring,
        ensures
            final(self).wf(),
            final(self).same_document(old(self)),
            final(self).ingest == old(self).ingest,
            final(self).note == old(self).note,
            final(self).olds == old(self).olds,
            final(self).dealt == old(self).dealt + 1,
            final(self).replaced_ids() == old(self).replaced_ids().push(
                old(self).olds@[old(self).dealt as int]@,
            ),
            final(self).goes_on(*c),
    {
        self.dealt_with();
        self.go_on(c);
    }

    /// Takes the embedding of a text.
    pub fn embedded(&mut self, c: &SchemaConfig, r: Result<Vec<u32>, String>)
        requires
            c.wf(),
            old(self).wf(),
            old(self).stage == AddStage::Embedding,
        ensures
            final(self).wf(),
            final(self).same_document(old(self)),
            final(self).replaced == old(self).replaced,
            final(self).note == old(self).note,
            (match r {
                Err(e) => final(self).stage == AddStage::Failed && final(self).error@ == failure(
                    old(self).ingest.writer,
                    "embed failed: "@,
                    e@,
                ),
                Ok(v) => {
                    let j = old(self).ingest.jobs@[old(self).ingest.answers@.len() as int];
                    match ingest::dim_error(
                        old(self).ingest.writer,
                        old(self).ingest.fields@[j.0 as int],
                        j.1 as int,
                        v@.len(),
                    ) {
                        Some(m) => final(self).stage == AddStage::Failed && final(self).error@ == m,
                        None => final(self).ingest.answers@ == old(self).ingest.answers@.push(v)
                            && final(self).settled(*c),
                    }
                },
            }),
    {
        match r {
            Err(e) => {
                let m: String = say_failure(self.ingest.writer, "embed failed: ", e);
                self.fail(m);
            },
            Ok(v) => match self.ingest.accept(v) {
                Err(m) => {
                    self.error = m;
                    self.stage = AddStage::Failed;
                },
                Ok(_) => {
                    self.settle(c);
                },
            },
        }
    }

    /// Takes how the write went.
    pub fn written(&mut self, r: Result<(), String>)
        requires
            old(self).wf(),
            old(self).stage == AddStage::Writing,
        ensures
            final(self).wf(),
            final(self).same_document(old(self)),
            final(self).replaced == old(self).replaced,
            final(self).note == old(self).note,
            (match r {
                Err(e) => final(self).stage == AddStage::Failed && final(self).error@ == failure(
                    old(self).ingest.writer,
                    "write failed: "@,
                    e@,
                ),
                Ok(_) => final(self).stage == (if old(self).ingest.writer != Writer::Rest {
                    AddStage::Optimizing
                } else if old(self).graph {
                    AddStage::Mirroring
                } else {
                    AddStage::Done
                }),
            }),
    {
        match r {
            Err(e) => {
                let m: String = say_failure(self.ingest.writer, "write failed: ", e);
                self.fail(m);
            },
            Ok(_) => {
                self.stage = match self.ingest.writer {
                    Writer::Rest => if self.graph {
                        AddStage::Mirroring
                    } else {
                        AddStage::Done
                    },
                    _ => AddStage::Optimizing,
                };
            },
        }
    }

    /// Takes how the work on the indexes went; only on the command line does it
    /// matter.
    pub fn optimized(&mut self, r: Result<(), String>)
        requires
            old(self).wf(),
            old(self).stage == AddStage::Optimizing,
        ensures
            final(self).wf(),
            final(self).same_document(old(self)),
            final(self).replaced == old(self).replaced,
            final(self).note == old(self).note,
            if r is Err && old(self).ingest.writer == Writer::Cli {
                final(self).stage == AddStage::Failed && final(self).error == r->Err_0
            } else {
                final(self).stage == (if old(self).graph {
                    AddStage::Mirroring
                } else {
                    AddStage::Done
                })
            },
    {
        match (r, self.ingest.writer) {
            (Err(e), Writer::Cli) => {
                self.fail(e);
            },
            _ => {
                self.stage = if self.graph {
                    AddStage::Mirroring
                } else {
                    AddStage::Done
                };
            },
        }
    }

    /// Takes how adding to the graph went: the document is added in any case,
    /// and a failure is noted.
    pub fn mirrored(&mut self, r: Result<(), String>)
        requires
            old(self).wf(),
            old(self).stage == AddStage::Mirroring,
        ensures
            final(self).wf(),
            final(self).same_document(old(self)),
            final(self).replaced == old(self).replaced,
            final(self).stage == AddStage::Done,
            final(self).note == (match r {
                Ok(_) => None::<String>,
                Err(e) => Some(e),
            }),
    {
        self.note = match r {
            Ok(_) => None,
            Err(e) => Some(e),
        };
        self.stage = AddStage::Done;
    }

    /// The answer of the tool.
    pub fn tool_reply(&self) -> (r: Json)
        requires
            self.wf(),
            self.stage is Done || self.stage is Failed,
        ensures
            r@ == (if self.stage is Done {
                mcp::text_value(
                    mcp::added_text(
                        self.id(),
                        self.ingest.chunks@.len(),
                        if self.replaced@.len() == 0 {
                            None
                        } else {
                            Some(self.replaced@.last()@)
                        },
                        store::opt_view(self.note),
                    ),
                )
            } else {
                mcp::error_value(self.error@)
            }),
    {
        match self.stage {
            AddStage::Done => {
                let note: Option<&str> = match &self.note {
                    Some(n) => Some(n.as_str()),
                    None => None,
                };
                mcp::added_reply(
                    self.ingest.doc.id.as_str(),
                    self.ingest.chunks.len(),
                    &self.replaced,
                    note,
                )
            },
            _ => mcp::err(self.error.as_str()),
        }
    }

    /// The answer over REST.
    pub fn rest_reply(&self) -> (r: Result<Json, String>)
        requires
            self.wf(),
            self.stage is Done || self.stage is Failed,
        ensures
            (match r {
                Ok(j) => self.stage is Done && j@ == JsonV::Obj(
                    seq![("ok"@, JsonV::Bool(true))],
                ),
                Err(e) => self.stage is Failed && e@ == self.error@,
            }),
    {
        match self.stage {
            AddStage::Done => Ok(server::ok_json()),
            _ => Err(self.error.clone()),
        }
    }

    /// What is printed on the command line.
    pub fn cli_reply(&self) -> (r: Result<String, String>)
        requires
            self.wf(),
            self.stage is Done || self.stage is Failed,
        ensures
            (match r {
                Ok(t) => self.stage is Done && t@ == "added (id auto-hashed from content)"@ + (
                if self.replaced@.len() == 1 {
                    " — replaced old version "@ + self.replaced@[0]@
                } else {
                    Seq::empty()
                }),
                Err(e) => self.stage is Failed && e@ == self.error@,
            }),
    {
        match self.stage {
            AddStage::Done => {
                let old_id: Option<String> = mcp::single_replaced(&self.replaced);
                let shown: Option<&str> = match &old_id {
                    Some(o) => Some(o.as_str()),
                    None => None,
                };
                let t: String = cli::added_line(shown);
                assert(t@ =~= "added (id auto-hashed from content)"@ + (if self.replaced@.len()
                    == 1 {
                    " — replaced old version "@ + self.replaced@[0]@
                } else {
                    Seq::empty()
                }));
                Ok(t)
            },
            _ => Err(self.error.clone()),
        }
    }
}

/// Adding a document never deletes that document.
pub proof fn law_added_document_is_not_deleted(a: Adding)
    requires
        a.wf(),
    ensures
        a.action() != AddActionV::Delete(a.id()),
        a.action() != AddActionV::Unmirror(a.id()),
        !a.replaced_ids().contains(a.id()),
{
    if a.stage is Deleting || a.stage is Unmirroring {
        assert(a.old_ids()[a.dealt as int] == a.olds@[a.dealt as int]@);
    }
    if a.replaced_ids().contains(a.id()) {
        let i = a.replaced_ids().index_of(a.id());
        assert(a.replaced@[i]@ == a.id());
    }
}

// ---------------------------------------------------------------------------
// Removing
// ---------------------------------------------------------------------------

/// How far a removal has come.
#[derive(Debug, Clone, Copy, PartialEq, Eq, Structural)]
pub enum RemoveStage {
    /// The row is looked for.
    Looking,
    /// Its document is deleted.
    Deleting,
    /// Its document is deleted from the graph.
    Unmirroring,
    Done,
    Failed,
}

/// What is to be done to remove a document.
#[derive(Debug, PartialEq, Eq)]
pub enum RemoveAction {
    /// Find the row with an id.
    Find(String),
    /// Delete a document with its chunks.
    Delete(String),
    /// Delete a document from the graph.
    Unmirror(String),
    /// Nothing: it is done, or has failed.
    Stop,
}

/// A document being removed, named by its own id or by that of a chunk.
pub struct Removal {
    pub id: String,
    /// Whether there is a graph.
    pub graph: bool,
    pub stage: RemoveStage,
    /// The document.
    pub target: String,
    /// Why it may still be in the graph.
    pub note: Option<String>,
    /// Why it could not be removed.
    pub error: String,
}

impl Removal {
    /// Begins to remove the document that the row `id` belongs to.
    pub fn start(id: &str, graph: bool) -> (r: Removal)
        ensures
            r.id@ == id@,
            r.graph == graph,
            r.note is None,
            if id@.len() == 0 {
                r.stage == RemoveStage::Failed && r.error@ == "id is required"@
            } else {
                r.stage == RemoveStage::Looking
            },
    {
        let named: bool = !id.is_empty();
        Removal {
            id: id.to_string(),
            graph,
            stage: if named {
                RemoveStage::Looking
            } else {
                RemoveStage::Failed
            },
            target: String::new(),
            note: None,
            error: "id is required".to_string(),
        }
    }

    /// What is to be done next.
    pub fn next(&self) -> (r: RemoveAction)
        ensures
            (match self.stage {
                RemoveStage::Looking => r matches RemoveAction::Find(s) && s@ == self.id@,
                RemoveStage::Deleting => r matches RemoveAction::Delete(s) && s@ == self.target@,
                RemoveStage::Unmirroring => r matches RemoveAction::Unmirror(s) && s@
                    == self.target@,
                _ => r is Stop,
            }),
    {
        match self.stage {
            RemoveStage::Looking => RemoveAction::Find(self.id.clone()),
            RemoveStage::Deleting => RemoveAction::Delete(self.target.clone()),
            RemoveStage::Unmirroring => RemoveAction::Unmirror(self.target.clone()),
            RemoveStage::Done => RemoveAction::Stop,
            RemoveStage::Failed => RemoveAction::Stop,
        }
    }

    /// Takes the row, if there is one: with a chunk its whole document goes.
    pub fn found(&mut self, r: Result<Option<Record>, String>)
        requires
            old(self).stage == RemoveStage::Looking,
        ensures
            final(self).id == old(self).id,
            final(self).graph == old(self).graph,
            final(self).note == old(self).note,
            (match r {
                Err(e) => final(self).stage == RemoveStage::Failed && final(self).error == e,
                Ok(None) => final(self).stage == RemoveStage::Failed && final(self).error@
                    == "document not found: "@ + old(self).id@,
                Ok(Some(row)) => final(self).stage == RemoveStage::Deleting && final(self).target@
                    == (match row@.parent_doc_id {
                    Some(p) => p,
                    None => row@.id,
                }),
            }),
    {
        match r {
            Err(e) => {
                self.error = e;
                self.stage = RemoveStage::Failed;
            },
            Ok(None) => {
                self.error = text::cat2("document not found: ", self.id.as_str());
                self.stage = RemoveStage::Failed;
            },
            Ok(Some(row)) => {
                self.target = mcp::delete_target(&row);
                self.stage = RemoveStage::Deleting;
            },
        }
    }

    /// Takes how the deletion went.
    pub fn deleted(&mut self, r: Result<(), String>)
        requires
            old(self).stage == RemoveStage::Deleting,
        ensures
            final(self).id == old(self).id,
            final(self).graph == old(self).graph,
            final(self).target == old(self).target,
            final(self).note == old(self).note,
            (match r {
                Err(e) => final(self).stage == RemoveStage::Failed && final(self).error == e,
                Ok(_) => final(self).stage == (if old(self).graph {
                    RemoveStage::Unmirroring
                } else {
                    RemoveStage::Done
                }),
            }),
    {
        match r {
            Err(e) => {
                self.error = e;
                self.stage = RemoveStage::Failed;
            },
            Ok(_) => {
                self.stage = if self.graph {
                    RemoveStage::Unmirroring
                } else {
                    RemoveStage::Done
                };
            },
        }
    }

    /// Takes how the deletion from the graph went: the document is removed in
    /// any case, and a failure is noted.
    pub fn unmirrored(&mut self, r: Result<(), String>)
        requires
            old(self).stage == RemoveStage::Unmirroring,
        ensures
            final(self).id == old(self).id,
            final(self).graph == old(self).graph,
            final(self).target == old(self).target,
            final(self).stage == RemoveStage::Done,
            final(self).note == (match r {
                Ok(_) => None::<String>,
                Err(e) => Some(e),
            }),
    {
        self.note = match r {
            Ok(_) => None,
            Err(e) => Some(e),
        };
        self.stage = RemoveStage::Done;
    }

    /// What came of it.
    pub fn outcome(&self) -> (r: Result<String, String>)
        requires
            self.stage is Done || self.stage is Failed,
        ensures
            (match r {
                Ok(t) => self.stage is Done && t@ == mcp::removed_text(
                    self.target@,
                    store::opt_view(self.note),
                ),
                Err(e) => self.stage is Failed && e@ == self.error@,
            }),
    {
        match self.stage {
            RemoveStage::Done => {
                let note: Option<&str> = match &self.note {
                    Some(n) => Some(n.as_str()),
                    None => None,
                };
                Ok(mcp::deleted_text(self.target.as_str(), note))
            },
            _ => Err(self.error.clone()),
        }
    }
}

} // verus!
