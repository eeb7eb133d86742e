//! Questions to the graph, step by step.
//!
//! A graph that fails never fails a question: it falls back to a search. `next`
//! says what is to be done, and one of the other methods takes what came of it.

use crate::hybrid;
use crate::hybrid::Outcome;
use crate::json;
use crate::json::{Json, JsonV};
use crate::mcp;
use crate::mcp::GraphAsk;
use crate::query::{Pred, PredV};
use crate::store;
use crate::store::{Record, RecordV};
use crate::text;
use vstd::prelude::*;

verus! {

broadcast use vstd::string::group_string_axioms;

/// Who asks.
#[derive(Debug, Clone, Copy, PartialEq, Eq, Structural)]
pub enum Caller {
    Tool,
    Rest,
}

/// How far a question has come.
#[derive(Debug, Clone, Copy, PartialEq, Eq, Structural)]
pub enum AskStage {
    /// The graph is asked.
    Asking,
    /// A search takes its place.
    Searching,
    /// The documents that the graph names are fetched.
    Mapping,
    /// All documents are looked at.
    Scanning,
    Done,
}

/// What is to be done for a question.
#[derive(Debug, PartialEq, Eq)]
pub enum AskAction {
    /// Ask the graph.
    Ask,
    /// Search for chunks that meet a condition.
    Search(Option<String>),
    /// Fetch the documents with these ids.
    Parents(Vec<String>),
    /// Fetch all documents.
    All,
    /// Nothing: there is an answer.
    Stop,
}

/// The model of what is to be done.
pub enum AskActionV {
    Ask,
    Search(Option<Seq<char>>),
    Parents(Seq<Seq<char>>),
    All,
    Stop,
}

impl View for AskAction {
    type V = AskActionV;

    open spec fn view(&self) -> AskActionV {
        match *self {
            AskAction::Ask => AskActionV::Ask,
            AskAction::Search(s) => AskActionV::Search(store::opt_view(s)),
            AskAction::Parents(ids) => AskActionV::Parents(text::texts(ids@)),
            AskAction::All => AskActionV::All,
            AskAction::Stop => AskActionV::Stop,
        }
    }
}

/// The filter of a question.
pub open spec fn filter_of(a: GraphAsk) -> Option<PredV> {
    match a.filter {
        Some(f) => Some(f.pred@),
        None => None,
    }
}

/// The condition of a question.
pub open spec fn condition_of(a: GraphAsk) -> Option<Seq<char>> {
    match a.filter {
        Some(f) => Some(f.sql@),
        None => None,
    }
}

fn lent_filter(a: &GraphAsk) -> (r: Option<&Pred>)
    ensures
        hybrid::opt_pred(r) == filter_of(*a),
{
    match &a.filter {
        Some(f) => Some(&f.pred),
        None => None,
    }
}

/// An answer as the caller takes it: the tool as indented text.
pub open spec fn shown(c: Caller, j: JsonV) -> JsonV {
    match c {
        Caller::Tool => mcp::text_value(json::pretty_text(j)),
        Caller::Rest => j,
    }
}

fn show(c: Caller, j: Json) -> (r: Json)
    ensures
        r@ == shown(c, j@),
{
    match c {
        Caller::Tool => hybrid::pretty_reply(&j),
        Caller::Rest => j,
    }
}

/// What went wrong, as the caller is told: the tool says in which step.
pub open spec fn failure(c: Caller, step: Seq<char>, e: Seq<char>) -> Seq<char> {
    match c {
        Caller::Tool => step + e,
        Caller::Rest => e,
    }
}

fn say_failure(c: Caller, step: &str, e: String) -> (r: String)
    ensures
        r@ == failure(c, step@, e@),
{
    match c {
        Caller::Tool => text::cat2(step, e.as_str()),
        Caller::Rest => e,
    }
}

/// The answer of a search in place of the graph.
pub open spec fn degraded_value(docs: Seq<RecordV>) -> JsonV {
    JsonV::Obj(
        seq![
            ("degraded"@, JsonV::Bool(true)),
            ("answer"@, JsonV::Null),
            ("graph"@, JsonV::Null),
            ("documents"@, mcp::documents_value(docs)),
        ],
    )
}

/// The answer of the graph with the documents it points at.
pub open spec fn graph_value(data: JsonV, docs: Seq<RecordV>) -> JsonV {
    JsonV::Obj(
        seq![
            ("degraded"@, JsonV::Bool(false)),
            ("graph"@, data),
            ("documents"@, mcp::documents_value(docs)),
        ],
    )
}

/// An answer in words.
pub open spec fn words_value(c: Caller, a: Seq<char>) -> JsonV {
    match c {
        Caller::Tool => mcp::text_value(a),
        Caller::Rest => JsonV::Obj(
            seq![("degraded"@, JsonV::Bool(false)), ("answer"@, JsonV::Str(a))],
        ),
    }
}

// ---------------------------------------------------------------------------
// The graph alone
// ---------------------------------------------------------------------------

/// A question to the graph.
pub struct Asking {
    pub ask: GraphAsk,
    pub caller: Caller,
    pub stage: AskStage,
    /// What the graph said.
    pub data: Json,
    /// The documents it names that are at hand.
    pub parents: Vec<Record>,
    /// The answer, or why there is none.
    pub reply: Result<Json, String>,
}

impl Asking {
    /// The documents that the graph names and that pass the filter.
    pub open spec fn named(&self) -> Seq<RecordV> {
        let ids = hybrid::doc_ids(self.data@);
        hybrid::named_documents(
            ids,
            store::records(self.parents@),
            filter_of(self.ask),
            ids.len(),
        )
    }

    /// The documents that the graph points at, where `all` holds those that
    /// were looked at.
    pub open spec fn documents(&self, all: Seq<RecordV>) -> Seq<RecordV> {
        hybrid::graph_documents_of(
            self.data@,
            store::records(self.parents@),
            all,
            filter_of(self.ask),
            self.ask.limit as nat,
        )
    }

    /// What is to be done.
    pub open spec fn action(&self) -> AskActionV {
        match self.stage {
            AskStage::Asking => AskActionV::Ask,
            AskStage::Searching => AskActionV::Search(
                if self.caller == Caller::Tool {
                    condition_of(self.ask)
                } else {
                    None
                },
            ),
            AskStage::Mapping => AskActionV::Parents(hybrid::doc_ids(self.data@)),
            AskStage::Scanning => AskActionV::All,
            AskStage::Done => AskActionV::Stop,
        }
    }

    /// Whether the answer shows the documents that the graph points at.
    pub open spec fn answers_with(&self, all: Seq<RecordV>) -> bool {
        &&& self.stage == AskStage::Done
        &&& self.reply is Ok
        &&& self.reply->Ok_0@ == shown(
            self.caller,
            graph_value(self.data@, self.documents(all)),
        )
    }

    /// Where the question stands once the named documents are at hand: all are
    /// looked at if none of them is left and the graph gave texts to look for.
    pub open spec fn mapped_out(&self) -> bool {
        if self.named().len() == 0 && hybrid::contents_of(self.data@).len() > 0 {
            self.stage == AskStage::Scanning
        } else {
            self.answers_with(Seq::empty())
        }
    }

    /// Begins a question.
    pub fn start(ask: GraphAsk, caller: Caller) -> (r: Asking)
        ensures
            r.ask == ask,
            r.caller == caller,
            r.stage == AskStage::Asking,
    {
        Asking {
            ask,
            caller,
            stage: AskStage::Asking,
            data: Json::Null,
            parents: Vec::new(),
            reply: Ok(Json::Null),
        }
    }

    /// What is to be done next.
    pub fn next(&self) -> (r: AskAction)
        ensures
            r@ == self.action(),
    {
        match self.stage {
            AskStage::Asking => AskAction::Ask,
            AskStage::Searching => match (self.caller, &self.ask.filter) {
                (Caller::Tool, Some(f)) => AskAction::Search(Some(f.sql.clone())),
                _ => AskAction::Search(None),
            },
            AskStage::Mapping => AskAction::Parents(hybrid::graph_doc_ids(&self.data)),
            AskStage::Scanning => AskAction::All,
            AskStage::Done => AskAction::Stop,
        }
    }

    fn finish(&mut self, all: &Vec<Record>)
        ensures
            final(self).ask == old(self).ask,
            final(self).caller == old(self).caller,
            final(self).data == old(self).data,
            final(self).parents == old(self).parents,
            final(self).answers_with(store::records(all@)),
    {
        let docs: Vec<Record> = hybrid::graph_documents(
            &self.data,
            &self.parents,
            all,
            lent_filter(&self.ask),
            self.ask.limit,
        );
        self.reply = Ok(show(self.caller, hybrid::graph_json(self.data.copy(), &docs)));
        self.stage = AskStage::Done;
    }

    fn map_out(&mut self)
        ensures
            final(self).ask == old(self).ask,
            final(self).caller == old(self).caller,
            final(self).data == old(self).data,
            final(self).parents == old(self).parents,
            final(self).mapped_out(),
    {
        let ids: Vec<String> = hybrid::graph_doc_ids(&self.data);
        assert(ids@.len() == hybrid::doc_ids(self.data@).len());
        let named: Vec<Record> = hybrid::documents_by_id(
            &ids,
            &self.parents,
            lent_filter(&self.ask),
        );
        assert(store::records(named@).len() == named@.len());
        if hybrid::needs_content_scan(&self.data, &named) {
            self.stage = AskStage::Scanning;
        } else {
            let none: Vec<Record> = Vec::new();
            assert(store::records(none@) =~= Seq::empty());
            self.finish(&none);
        }
    }

    /// Takes what the graph said.
    pub fn answered(&mut self, o: Outcome)
        requires
            old(self).stage == AskStage::Asking,
        ensures
            final(self).ask == old(self).ask,
            final(self).caller == old(self).caller,
            (match o {
                Outcome::Failed => final(self).stage == AskStage::Searching,
                Outcome::Answer(a) => final(self).stage == AskStage::Done && final(self).reply is Ok && final(self).reply->Ok_0@ == words_value(old(self).caller, a@),
                Outcome::Unreadable(e) => final(self).stage == AskStage::Done && final(self).reply is Err && final(self).reply->Err_0@ == "graph data decode: "@ + e@,
                Outcome::Data(d) => {
                    &&& final(self).data@ == d@
                    &&& if hybrid::doc_ids(d@).len() > 0 {
                        final(self).stage == AskStage::Mapping
                    } else {
                        final(self).parents@.len() == 0 && final(self).mapped_out()
                    }
                },
            }),
    {
        match o {
            Outcome::Failed => {
                self.stage = AskStage::Searching;
            },
            Outcome::Answer(a) => {
                self.reply = Ok(
                    match self.caller {
                        Caller::Tool => mcp::text_reply(a.as_str()),
                        Caller::Rest => hybrid::answer_json(a.as_str()),
                    },
                );
                self.stage = AskStage::Done;
            },
            Outcome::Unreadable(e) => {
                self.reply = Err(text::cat2("graph data decode: ", e.as_str()));
                self.stage = AskStage::Done;
            },
            Outcome::Data(d) => {
                self.data = d;
                let ids: Vec<String> = hybrid::graph_doc_ids(&self.data);
                assert(ids@.len() == hybrid::doc_ids(self.data@).len());
                if ids.len() > 0 {
                    self.stage = AskStage::Mapping;
                } else {
                    self.parents = Vec::new();
                    self.map_out();
                }
            },
        }
    }

    /// Takes what the search in place of the graph found.
    pub fn searched(&mut self, r: Result<Vec<Record>, String>)
        requires
            old(self).stage == AskStage::Searching,
        ensures
            final(self).ask == old(self).ask,
            final(self).caller == old(self).caller,
            final(self).stage == AskStage::Done,
            (match (r, final(self).reply) {
                (Ok(docs), Ok(j)) => j@ == shown(
                    old(self).caller,
                    degraded_value(store::records(docs@)),
                ),
                (Err(e), Err(m)) => m@ == failure(old(self).caller, "query failed: "@, e@),
                _ => false,
            }),
    {
        self.reply = match r {
            Ok(docs) => Ok(show(self.caller, hybrid::degraded_json(&docs))),
            Err(e) => Err(say_failure(self.caller, "query failed: ", e)),
        };
        self.stage = AskStage::Done;
    }

    /// Takes the documents that the graph names.
    pub fn mapped(&mut self, r: Result<Vec<Record>, String>)
        requires
            old(self).stage == AskStage::Mapping,
        ensures
            final(self).ask == old(self).ask,
            final(self).caller == old(self).caller,
            final(self).data == old(self).data,
            (match r {
                Ok(docs) => final(self).parents == docs && final(self).mapped_out(),
                Err(e) => final(self).stage == AskStage::Done && final(self).reply is Err && final(self).reply->Err_0@ == failure(old(self).caller, "map documents: "@, e@),
            }),
    {
        match r {
            Ok(docs) => {
                self.parents = docs;
                self.map_out();
            },
            Err(e) => {
                self.reply = Err(say_failure(self.caller, "map documents: ", e));
                self.stage = AskStage::Done;
            },
        }
    }

    /// Takes all documents. Where they cannot be had, the tool answers without
    /// them.
    pub fn scanned(&mut self, r: Result<Vec<Record>, String>)
        requires
            old(self).stage == AskStage::Scanning,
        ensures
            final(self).ask == old(self).ask,
            final(self).caller == old(self).caller,
            final(self).data == old(self).data,
            final(self).parents == old(self).parents,
            (match r {
                Ok(all) => final(self).answers_with(store::records(all@)),
                Err(e) => if old(self).caller == Caller::Tool {
                    final(self).answers_with(Seq::empty())
                } else {
                    final(self).stage == AskStage::Done && final(self).reply == Err::<
                        Json,
                        String,
                    >(e)
                },
            }),
    {
        match (r, self.caller) {
            (Ok(all), _) => {
                self.finish(&all);
            },
            (Err(_), Caller::Tool) => {
                let none: Vec<Record> = Vec::new();
                assert(store::records(none@) =~= Seq::empty());
                self.finish(&none);
            },
            (Err(e), Caller::Rest) => {
                self.reply = Err(e);
                self.stage = AskStage::Done;
            },
        }
    }

    /// The answer of the tool.
    pub fn tool_reply(self) -> (r: Json)
        ensures
            r@ == (match self.reply {
                Ok(j) => j@,
                Err(e) => mcp::error_value(e@),
            }),
    {
        match self.reply {
            Ok(j) => j,
            Err(e) => mcp::err(e.as_str()),
        }
    }
}

// ---------------------------------------------------------------------------
// The graph and a search
// ---------------------------------------------------------------------------

/// A question to the graph and a search at once.
pub struct Merging {
    pub ask: GraphAsk,
    pub caller: Caller,
    /// Never `Searching`: the search goes along with the question.
    pub stage: AskStage,
    pub outcome: Outcome,
    /// What the search found.
    pub found: Vec<Record>,
    /// The documents that the graph names and that are at hand.
    pub parents: Vec<Record>,
    /// The documents to show.
    pub docs: Vec<Record>,
}

/// The structured data of an outcome.
pub open spec fn data_of(o: Outcome) -> Option<JsonV> {
    match o {
        Outcome::Data(d) => Some(d@),
        _ => None,
    }
}

/// What was found, where a failing lookup counts as finding nothing.
pub open spec fn found_or_none(r: Result<Vec<Record>, String>) -> Seq<RecordV> {
    match r {
        Ok(rows) => store::records(rows@),
        Err(_) => Seq::empty(),
    }
}

fn or_none(r: Result<Vec<Record>, String>) -> (v: Vec<Record>)
    ensures
        store::records(v@) == found_or_none(r),
{
    match r {
        Ok(rows) => rows,
        Err(_) => {
            let none: Vec<Record> = Vec::new();
            assert(store::records(none@) =~= Seq::empty());
            none
        },
    }
}

impl Merging {
    /// Whether an answer in words takes the place of a document: over REST one
    /// that was wanted does in any case.
    pub open spec fn answer_shown(&self) -> bool {
        match self.caller {
            Caller::Tool => self.outcome is Answer,
            Caller::Rest => self.ask.want_answer,
        }
    }

    /// The documents to show, where `all` holds those that were looked at.
    pub open spec fn merged(&self, all: Seq<RecordV>) -> Seq<RecordV> {
        hybrid::hybrid_of(
            data_of(self.outcome),
            store::records(self.parents@),
            all,
            store::records(self.found@),
            self.ask.limit as nat,
            self.answer_shown(),
        )
    }

    /// Whether the merge is done and shows those documents.
    pub open spec fn shows(&self, all: Seq<RecordV>) -> bool {
        self.stage == AskStage::Done && store::records(self.docs@) == self.merged(all)
    }

    /// Where the question stands once the named documents are at hand: all are
    /// looked at if the graph gave data and none of its documents is there.
    pub open spec fn mapped_out(&self) -> bool {
        let d = data_of(self.outcome);
        if d is Some && hybrid::merged_named(
            hybrid::doc_ids(d->0),
            store::records(self.parents@),
            hybrid::doc_ids(d->0).len(),
        ).len() == 0 {
            self.stage == AskStage::Scanning
        } else {
            self.shows(Seq::empty())
        }
    }

    /// What is to be done: first the question and the search at once.
    pub open spec fn action(&self) -> AskActionV {
        match self.stage {
            AskStage::Asking => AskActionV::Ask,
            AskStage::Mapping => AskActionV::Parents(
                match data_of(self.outcome) {
                    Some(d) => hybrid::doc_ids(d),
                    None => Seq::empty(),
                },
            ),
            AskStage::Scanning => AskActionV::All,
            _ => AskActionV::Stop,
        }
    }

    /// Begins a question and a search.
    pub fn start(ask: GraphAsk, caller: Caller) -> (r: Merging)
        ensures
            r.ask == ask,
            r.caller == caller,
            r.stage == AskStage::Asking,
    {
        Merging {
            ask,
            caller,
            stage: AskStage::Asking,
            outcome: Outcome::Failed,
            found: Vec::new(),
            parents: Vec::new(),
            docs: Vec::new(),
        }
    }

    /// What is to be done next.
    pub fn next(&self) -> (r: AskAction)
        ensures
            r@ == self.action(),
    {
        match self.stage {
            AskStage::Asking => AskAction::Ask,
            AskStage::Mapping => match &self.outcome {
                Outcome::Data(d) => AskAction::Parents(hybrid::graph_doc_ids(d)),
                _ => {
                    let none: Vec<String> = Vec::new();
                    assert(text::texts(none@) =~= Seq::empty());
                    AskAction::Parents(none)
                },
            },
            AskStage::Scanning => AskAction::All,
            _ => AskAction::Stop,
        }
    }

    fn finish(&mut self, all: &Vec<Record>)
        ensures
            final(self).ask == old(self).ask,
            final(self).caller == old(self).caller,
            final(self).outcome == old(self).outcome,
            final(self).found == old(self).found,
            final(self).parents == old(self).parents,
            final(self).shows(store::records(all@)),
    {
        let answered: bool = match self.caller {
            Caller::Tool => match &self.outcome {
                Outcome::Answer(_) => true,
                _ => false,
            },
            Caller::Rest => self.ask.want_answer,
        };
        let data: Option<&Json> = match &self.outcome {
            Outcome::Data(d) => Some(d),
            _ => None,
        };
        self.docs = hybrid::hybrid_documents(
            data,
            &self.parents,
            all,
            &self.found,
            self.ask.limit,
            answered,
        );
        self.stage = AskStage::Done;
    }

    fn map_out(&mut self)
        ensures
            final(self).ask == old(self).ask,
            final(self).caller == old(self).caller,
            final(self).outcome == old(self).outcome,
            final(self).found == old(self).found,
            final(self).parents == old(self).parents,
            final(self).mapped_out(),
    {
        let scan: bool = match &self.outcome {
            Outcome::Data(d) => hybrid::needs_all_documents(d, &self.parents),
            _ => false,
        };
        if scan {
            self.stage = AskStage::Scanning;
        } else {
            let none: Vec<Record> = Vec::new();
            assert(store::records(none@) =~= Seq::empty());
            self.finish(&none);
        }
    }

    /// Takes what the graph said and what the search found; a search that
    /// failed found nothing.
    pub fn answered(&mut self, o: Outcome, r: Result<Vec<Record>, String>)
        requires
            old(self).stage == AskStage::Asking,
        ensures
            final(self).ask == old(self).ask,
            final(self).caller == old(self).caller,
            final(self).outcome == o,
            store::records(final(self).found@) == found_or_none(r),
            if data_of(o) is Some && hybrid::doc_ids(data_of(o)->0).len() > 0 {
                final(self).stage == AskStage::Mapping
            } else {
                final(self).parents@.len() == 0 && final(self).mapped_out()
            },
    {
        self.outcome = o;
        self.found = or_none(r);
        let named: bool = match &self.outcome {
            Outcome::Data(d) => {
                let ids: Vec<String> = hybrid::graph_doc_ids(d);
                assert(ids@.len() == hybrid::doc_ids(d@).len());
                ids.len() > 0
            },
            _ => false,
        };
        if named {
            self.stage = AskStage::Mapping;
        } else {
            self.parents = Vec::new();
            self.map_out();
        }
    }

    /// Takes the documents that the graph names.
    pub fn mapped(&mut self, r: Result<Vec<Record>, String>)
        requires
            old(self).stage == AskStage::Mapping,
        ensures
            final(self).ask == old(self).ask,
            final(self).caller == old(self).caller,
            final(self).outcome == old(self).outcome,
            final(self).found == old(self).found,
            store::records(final(self).parents@) == found_or_none(r),
            final(self).mapped_out(),
    {
        self.parents = or_none(r);
        self.map_out();
    }

    /// Takes all documents.
    pub fn scanned(&mut self, r: Result<Vec<Record>, String>)
        requires
            old(self).stage == AskStage::Scanning,
        ensures
            final(self).ask == old(self).ask,
            final(self).caller == old(self).caller,
            final(self).outcome == old(self).outcome,
            final(self).found == old(self).found,
            final(self).parents == old(self).parents,
            final(self).shows(found_or_none(r)),
    {
        let all: Vec<Record> = or_none(r);
        self.finish(&all);
    }

    /// The answer.
    pub fn reply(&self) -> (r: Json)
        requires
            self.stage == AskStage::Done,
        ensures
            r@ == (match self.caller {
                Caller::Tool => mcp::text_value(
                    json::pretty_text(
                        hybrid::tool_merge_value(self.outcome, store::records(self.docs@)),
                    ),
                ),
                Caller::Rest => hybrid::rest_merge_value(
                    self.outcome,
                    self.ask.want_answer,
                    store::records(self.docs@),
                ),
            }),
    {
        match self.caller {
            Caller::Tool => hybrid::pretty_reply(&hybrid::hybrid_json(&self.outcome, &self.docs)),
            Caller::Rest => hybrid::hybrid_rest_json(
                &self.outcome,
                self.ask.want_answer,
                &self.docs,
            ),
        }
    }
}

} // verus!
