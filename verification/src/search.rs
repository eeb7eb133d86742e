//! Searches by meaning, step by step.
//!
//! A search alternates between decisions, which are made here, and work that
//! others do: embedding a text, looking into the table, ranking. `Search::next`
//! says what is needed, and one of the other methods takes what came of it.

use crate::query;
use crate::query::{ExpandTo, Expansion};
use crate::store;
use crate::store::{Record, RecordV};
use crate::text;
use vstd::prelude::*;

verus! {

broadcast use vstd::string::group_string_axioms;

/// What is done with the chunks that were found.
#[derive(Debug, Clone, Copy, PartialEq, Eq, Structural)]
pub enum Finish {
    /// They are expanded.
    Expand(ExpandTo),
    /// They are ranked, and the best are given back.
    Rank,
}

/// How far a search has come.
#[derive(Debug, Clone, Copy, PartialEq, Eq, Structural)]
pub enum Stage {
    /// The query is being embedded.
    Embedding,
    /// The nearest chunks are looked for.
    Looking,
    /// The documents of the chunks are fetched.
    Gathering,
    /// The chunks are expanded; the neighbours of one are needed.
    Expanding,
    /// The chunks are ranked.
    Ranking,
    Done,
}

/// What a search needs next.
#[derive(Debug, PartialEq, Eq)]
pub enum Need {
    /// The embedding of a text.
    Embed(String),
    /// The chunks nearest to a vector.
    Nearest { vector: Vec<u32>, limit: usize },
    /// The documents with these ids.
    Parents(Vec<String>),
    /// The chunks next to one.
    Around { parent: String, index: u32 },
    /// The places of these texts by how well they fit the query.
    Rank(Vec<String>),
    /// Nothing: the search is done.
    Nothing,
}

/// The model of what a search needs.
pub enum NeedV {
    Embed(Seq<char>),
    Nearest { vector: Seq<u32>, limit: usize },
    Parents(Seq<Seq<char>>),
    Around { parent: Seq<char>, index: u32 },
    Rank(Seq<Seq<char>>),
    Nothing,
}

impl View for Need {
    type V = NeedV;

    open spec fn view(&self) -> NeedV {
        match *self {
            Need::Embed(t) => NeedV::Embed(t@),
            Need::Nearest { vector, limit } => NeedV::Nearest { vector: vector@, limit },
            Need::Parents(ids) => NeedV::Parents(text::texts(ids@)),
            Need::Around { parent, index } => NeedV::Around { parent: parent@, index },
            Need::Rank(ts) => NeedV::Rank(text::texts(ts@)),
            Need::Nothing => NeedV::Nothing,
        }
    }
}

/// The documents that the first `n` hits belong to.
pub open spec fn documents_of(hits: Seq<RecordV>, n: nat) -> Seq<Seq<char>>
    decreases n,
{
    if n == 0 || n > hits.len() {
        Seq::empty()
    } else {
        match hits[n - 1].parent_doc_id {
            Some(p) => documents_of(hits, (n - 1) as nat).push(p),
            None => documents_of(hits, (n - 1) as nat),
        }
    }
}

fn list_documents_of(hits: &Vec<Record>) -> (r: Vec<String>)
    ensures
        text::texts(r@) == documents_of(store::records(hits@), hits@.len()),
{
    let ghost hs = store::records(hits@);
    let mut out: Vec<String> = Vec::new();
    let mut i: usize = 0;
    assert(text::texts(out@) =~= Seq::empty());
    while i < hits.len()
        invariant
            hs == store::records(hits@),
            i <= hits@.len(),
            text::texts(out@) == documents_of(hs, i as nat),
        decreases hits@.len() - i,
    {
        assert(hs[i as int] == hits@[i as int]@);
        match &hits[i].parent_doc_id {
            Some(p) => {
                text::push_text(&mut out, p.clone());
            },
            None => {},
        }
        i = i + 1;
    }
    out
}

/// The texts of the rows.
pub open spec fn row_texts(rows: Seq<RecordV>) -> Seq<Seq<char>> {
    Seq::new(rows.len(), |i: int| rows[i].raw_text)
}

fn list_texts(rows: &Vec<Record>) -> (r: Vec<String>)
    ensures
        text::texts(r@) == row_texts(store::records(rows@)),
{
    let ghost ts = row_texts(store::records(rows@));
    let mut out: Vec<String> = Vec::new();
    let mut i: usize = 0;
    assert(text::texts(out@) =~= ts.take(0));
    while i < rows.len()
        invariant
            ts == row_texts(store::records(rows@)),
            i <= rows@.len(),
            text::texts(out@) == ts.take(i as int),
        decreases rows@.len() - i,
    {
        text::push_text(&mut out, rows[i].raw_text.clone());
        assert(ts[i as int] == rows@[i as int]@.raw_text);
        i = i + 1;
        assert(ts.take(i as int) =~= ts.take(i - 1).push(ts[i - 1]));
    }
    assert(ts.take(i as int) =~= ts);
    out
}

/// A search under way.
pub struct Search {
    pub query: String,
    /// How many rows are wanted.
    pub limit: usize,
    pub finish: Finish,
    /// The vector column that is searched, and its dimension.
    pub column: String,
    pub dim: usize,
    pub stage: Stage,
    pub vector: Vec<u32>,
    /// The hits and what was made of them.
    pub expansion: Expansion,
    /// The neighbours that each hit was given with.
    pub windows: Ghost<Seq<Seq<RecordV>>>,
    /// The hits whose neighbours were handed over.
    pub asked: Ghost<Set<int>>,
}

/// How many chunks on either side are the neighbours of a hit.
pub const WINDOW: u32 = 1;

/// The way the hits of a search are expanded.
pub open spec fn mode_of(f: Finish) -> ExpandTo {
    match f {
        Finish::Expand(m) => m,
        Finish::Rank => ExpandTo::Chunk,
    }
}

/// Whether hit `i` is to be given with its neighbours, once those before it are
/// expanded.
pub open spec fn window_wanted(
    hits: Seq<RecordV>,
    parents: Seq<RecordV>,
    mode: ExpandTo,
    windows: Seq<Seq<RecordV>>,
    i: int,
) -> bool {
    query::wants_window(
        hits,
        parents,
        mode,
        query::expanded(hits, parents, mode, windows, i as nat),
        i,
    )
}

/// Whether hit `i` is expanded without neighbours because it is to be given
/// without any.
pub open spec fn passed_over(
    hits: Seq<RecordV>,
    parents: Seq<RecordV>,
    mode: ExpandTo,
    windows: Seq<Seq<RecordV>>,
    i: int,
) -> bool {
    windows[i].len() == 0 && !window_wanted(hits, parents, mode, windows, i)
}

impl Search {
    /// Whether hit `i` is to be given with its neighbours.
    pub open spec fn wanted(&self, i: int) -> bool {
        window_wanted(self.hits(), self.parents(), mode_of(self.finish), self.windows@, i)
    }

    /// Whether hit `i` was expanded without neighbours because it is to be given
    /// without any.
    pub open spec fn passed(&self, i: int) -> bool {
        passed_over(self.hits(), self.parents(), mode_of(self.finish), self.windows@, i)
    }

    /// The hits.
    pub open spec fn hits(&self) -> Seq<RecordV> {
        store::records(self.expansion.hits@)
    }

    /// The documents at hand.
    pub open spec fn parents(&self) -> Seq<RecordV> {
        store::records(self.expansion.parents@)
    }

    /// The rows to give back.
    pub open spec fn rows(&self) -> Seq<RecordV> {
        store::records(self.expansion.out@)
    }

    /// The expansion is that of the hits so far, with their neighbours. Those
    /// of a hit were asked for where it is to be given with them, and nowhere
    /// else.
    pub open spec fn on_track(&self) -> bool {
        &&& self.expansion.wf()
        &&& forall|i: int|
            #![trigger self.asked@.contains(i)]
            #![trigger self.windows@[i]]
            0 <= i < self.expansion.next ==> if self.asked@.contains(i) {
                self.wanted(i)
            } else {
                self.passed(i)
            }
        &&& forall|i: int| #[trigger]
            self.asked@.contains(i) ==> 0 <= i < self.expansion.next
        &&& self.expansion.mode == mode_of(self.finish)
        &&& self.windows@.len() == self.expansion.next
        &&& self.expansion@ == query::expanded(
            self.hits(),
            self.parents(),
            mode_of(self.finish),
            self.windows@,
            self.expansion.next as nat,
        )
    }

    /// A search is on track until it is ranked. While it expands, the next hit
    /// is to be given with its neighbours; when it is done, all hits are
    /// expanded.
    pub open spec fn wf(&self) -> bool {
        &&& self.expansion.mode == mode_of(self.finish)
        &&& !(self.stage is Done && self.finish is Rank) ==> self.on_track()
        &&& match self.stage {
            Stage::Gathering => self.finish is Expand && self.expansion.next == 0,
            Stage::Ranking => self.finish is Rank && self.expansion.next == 0,
            Stage::Expanding => self.finish is Expand && self.expansion.next
                < self.expansion.hits@.len() && query::wants_window(
                self.hits(),
                self.parents(),
                mode_of(self.finish),
                self.expansion@,
                self.expansion.next as int,
            ),
            Stage::Done => self.finish is Expand ==> self.expansion.next
                == self.expansion.hits@.len(),
            _ => true,
        }
    }

    /// What the search needs.
    pub open spec fn need(&self) -> NeedV {
        match self.stage {
            Stage::Embedding => NeedV::Embed(self.query@),
            Stage::Looking => NeedV::Nearest {
                vector: self.vector@,
                limit: if self.finish is Rank && self.limit < query::RERANK_RECALL_K {
                    query::RERANK_RECALL_K
                } else {
                    self.limit
                },
            },
            Stage::Gathering => NeedV::Parents(
                documents_of(self.hits(), self.expansion.hits@.len()),
            ),
            Stage::Expanding => NeedV::Around {
                parent: self.hits()[self.expansion.next as int].parent_doc_id->0,
                index: self.hits()[self.expansion.next as int].chunk_index,
            },
            Stage::Ranking => NeedV::Rank(row_texts(self.hits())),
            Stage::Done => NeedV::Nothing,
        }
    }

    /// What was asked for stays as it is.
    pub open spec fn same_question(&self, other: &Search) -> bool {
        &&& self.query == other.query
        &&& self.limit == other.limit
        &&& self.finish == other.finish
        &&& self.column == other.column
        &&& self.dim == other.dim
    }

    /// Begins a search for `limit` rows.
    pub fn start(query: &str, limit: usize, finish: Finish, column: &str, dim: usize) -> (r: Search)
        ensures
            r.wf(),
            r.query@ == query@,
            r.limit == limit,
            r.finish == finish,
            r.column@ == column@,
            r.dim == dim,
            r.stage == Stage::Embedding,
    {
        let mode: ExpandTo = match finish {
            Finish::Expand(m) => m,
            Finish::Rank => ExpandTo::Chunk,
        };
        Search {
            query: query.to_string(),
            limit,
            finish,
            column: column.to_string(),
            dim,
            stage: Stage::Embedding,
            vector: Vec::new(),
            expansion: Expansion::start(Vec::new(), Vec::new(), mode),
            windows: Ghost(Seq::empty()),
            asked: Ghost(Set::empty()),
        }
    }

    /// What the search needs next.
    pub fn next(&self) -> (r: Need)
        requires
            self.wf(),
        ensures
            r@ == self.need(),
    {
        match self.stage {
            Stage::Embedding => Need::Embed(self.query.clone()),
            Stage::Looking => {
                let limit: usize = match self.finish {
                    Finish::Rank => query::recall_size(self.limit),
                    Finish::Expand(_) => self.limit,
                };
                Need::Nearest { vector: store::copy_vector(&self.vector), limit }
            },
            Stage::Gathering => Need::Parents(list_documents_of(&self.expansion.hits)),
            Stage::Expanding => match self.expansion.wanted() {
                Some((parent, index)) => Need::Around { parent, index },
                None => Need::Nothing,
            },
            Stage::Ranking => Need::Rank(list_texts(&self.expansion.hits)),
            Stage::Done => Need::Nothing,
        }
    }

    /// Takes the embedding of the query. It fails with the embedding, or where
    /// the vector does not fit the column.
    pub fn embedded(&mut self, r: Result<Vec<u32>, String>) -> (done: Result<(), String>)
        requires
            old(self).wf(),
            old(self).stage == Stage::Embedding,
        ensures
            final(self).wf(),
            final(self).same_question(old(self)),
            (match r {
                Err(e) => done == Err::<(), String>(e) && *final(self) == *old(self),
                Ok(v) => if v@.len() == old(self).dim {
                    done is Ok && final(self).stage == Stage::Looking && final(self).vector == v
                } else {
                    done is Err && done->Err_0@ == "embedder returned dim "@ + text::decimal(
                        v@.len(),
                    ) + " but vector column `"@ + old(self).column@ + "` expects dim "@
                        + text::decimal(old(self).dim as nat) && *final(self) == *old(self)
                },
            }),
    {
        let v: Vec<u32> = match r {
            Err(e) => {
                return Err(e);
            },
            Ok(v) => v,
        };
        match query::check_query_dim(v.len(), self.column.as_str(), self.dim) {
            Err(e) => Err(e),
            Ok(_) => {
                self.vector = v;
                self.stage = Stage::Looking;
                Ok(())
            },
        }
    }

    /// Takes the chunks that were found; where there are none, the search is
    /// done.
    pub fn found(&mut self, r: Result<Vec<Record>, String>) -> (done: Result<(), String>)
        requires
            old(self).wf(),
            old(self).stage == Stage::Looking,
        ensures
            final(self).wf(),
            final(self).same_question(old(self)),
            (match r {
                Err(e) => done == Err::<(), String>(e) && *final(self) == *old(self),
                Ok(rows) => {
                    &&& done is Ok
                    &&& final(self).hits() == store::records(rows@)
                    &&& final(self).stage == (if rows@.len() == 0 {
                        Stage::Done
                    } else if old(self).finish is Rank {
                        Stage::Ranking
                    } else {
                        Stage::Gathering
                    })
                    &&& rows@.len() == 0 ==> final(self).rows().len() == 0
                },
            }),
    {
        let rows: Vec<Record> = match r {
            Err(e) => {
                return Err(e);
            },
            Ok(rows) => rows,
        };
        let none: bool = rows.len() == 0;
        let mode: ExpandTo = self.expansion.mode;
        self.expansion = Expansion::start(rows, Vec::new(), mode);
        self.windows = Ghost(Seq::empty());
        self.asked = Ghost(Set::empty());
        assert(self.rows().len() == 0);
        self.stage = if none {
            Stage::Done
        } else {
            match self.finish {
                Finish::Rank => Stage::Ranking,
                Finish::Expand(_) => Stage::Gathering,
            }
        };
        Ok(())
    }

    /// Takes the documents of the hits and expands those hits that need no
    /// neighbours.
    pub fn gathered(&mut self, r: Result<Vec<Record>, String>) -> (done: Result<(), String>)
        requires
            old(self).wf(),
            old(self).stage == Stage::Gathering,
        ensures
            final(self).wf(),
            final(self).same_question(old(self)),
            final(self).hits() == old(self).hits(),
            (match r {
                Err(e) => done == Err::<(), String>(e) && *final(self) == *old(self),
                Ok(rows) => {
                    &&& done is Ok
                    &&& final(self).parents() == store::records(rows@)
                    &&& final(self).stage is Expanding || final(self).stage is Done
                    &&& final(self).asked@ == Set::<int>::empty()
                    &&& forall|i: int|
                        0 <= i < final(self).windows@.len() ==> passed_over(
                            final(self).hits(),
                            final(self).parents(),
                            mode_of(final(self).finish),
                            final(self).windows@,
                            i,
                        )
                },
            }),
    {
        let rows: Vec<Record> = match r {
            Err(e) => {
                return Err(e);
            },
            Ok(rows) => rows,
        };
        self.expansion.parents = rows;
        self.windows = Ghost(Seq::empty());
        assert(self.asked@ =~= Set::empty());
        assert(self.expansion@ == query::expanded(
            self.hits(),
            self.parents(),
            mode_of(self.finish),
            self.windows@,
            0,
        ));
        self.advance();
        Ok(())
    }

    /// Takes the neighbours of a hit; where they cannot be had, the hit stands
    /// alone.
    pub fn surrounded(&mut self, r: Result<Vec<Record>, String>)
        requires
            old(self).wf(),
            old(self).stage == Stage::Expanding,
        ensures
            final(self).wf(),
            final(self).same_question(old(self)),
            final(self).hits() == old(self).hits(),
            final(self).parents() == old(self).parents(),
            final(self).expansion.next > old(self).expansion.next,
            final(self).stage is Expanding || final(self).stage is Done,
            final(self).windows@.len() > old(self).expansion.next,
            final(self).windows@[old(self).expansion.next as int] == (match r {
                Ok(rows) => store::records(rows@),
                Err(_) => Seq::empty(),
            }),
            forall|i: int|
                0 <= i < old(self).expansion.next ==> final(self).windows@[i] == old(self).windows@[i],
            final(self).asked@ == old(self).asked@.insert(old(self).expansion.next as int),
            forall|i: int|
                old(self).expansion.next < i < final(self).windows@.len() ==> passed_over(
                    final(self).hits(),
                    final(self).parents(),
                    mode_of(final(self).finish),
                    final(self).windows@,
                    i,
                ),
    {
        let rows: Vec<Record> = match r {
            Ok(rows) => rows,
            Err(_) => Vec::new(),
        };
        proof {
            if r is Err {
                assert(store::records(rows@) =~= Seq::empty());
            }
        }
        self.take(&rows);
        self.advance();
    }

    /// Takes the ranking of the hits; where it fails, they stay in the order
    /// they were found.
    pub fn ranked(&mut self, r: Result<Vec<usize>, String>)
        requires
            old(self).wf(),
            old(self).stage == Stage::Ranking,
        ensures
            final(self).wf(),
            final(self).same_question(old(self)),
            final(self).hits() == old(self).hits(),
            final(self).stage == Stage::Done,
            final(self).rows() == (match r {
                Ok(order) => query::picked(
                    old(self).hits(),
                    order@,
                    query::least(old(self).limit as nat, order@.len()),
                ),
                Err(_) => old(self).hits().take(
                    query::least(old(self).limit as nat, old(self).hits().len()) as int,
                ),
            }),
    {
        let failed: bool = match &r {
            Ok(_) => false,
            Err(_) => true,
        };
        let order: Vec<usize> = match r {
            Ok(order) => order,
            Err(_) => query::found_order(self.expansion.hits.len()),
        };
        proof {
            if failed {
                query::law_degraded_ranking_keeps_order(
                    self.hits(),
                    order@,
                    query::least(self.limit as nat, order@.len()),
                );
            }
        }
        self.expansion.out = query::pick_ranked(&self.expansion.hits, &order, self.limit);
        self.stage = Stage::Done;
    }

    /// Expands the next hit. Neighbours are given only where it is to be given
    /// with them.
    fn take(&mut self, sibs: &Vec<Record>)
        requires
            old(self).on_track(),
            old(self).expansion.next < old(self).expansion.hits@.len(),
            sibs@.len() == 0 || old(self).wanted(old(self).expansion.next as int),
        ensures
            final(self).on_track(),
            final(self).same_question(old(self)),
            final(self).stage == old(self).stage,
            final(self).hits() == old(self).hits(),
            final(self).parents() == old(self).parents(),
            final(self).expansion.hits == old(self).expansion.hits,
            final(self).expansion.next == old(self).expansion.next + 1,
            final(self).windows@ == old(self).windows@.push(store::records(sibs@)),
            final(self).asked@ == (if old(self).wanted(old(self).expansion.next as int) {
                old(self).asked@.insert(old(self).expansion.next as int)
            } else {
                old(self).asked@
            }),
    {
        let ghost before = self.windows@;
        let ghost now = before.push(store::records(sibs@));
        let ghost k = self.expansion.next as int;
        let ghost asked = if self.wanted(k) {
            self.asked@.insert(k)
        } else {
            self.asked@
        };
        let ghost hs = self.hits();
        let ghost ps = self.parents();
        let ghost mode = mode_of(self.finish);
        proof {
            lemma_later_windows(hs, ps, mode, before, store::records(sibs@), k as nat);
        }
        self.expansion.step(sibs);
        self.windows = Ghost(now);
        self.asked = Ghost(asked);
        proof {
            assert forall|i: int| 0 <= i <= k implies (if #[trigger] asked.contains(i) {
                self.wanted(i)
            } else {
                self.passed(i)
            }) by {
                lemma_later_windows(hs, ps, mode, before, store::records(sibs@), i as nat);
                if i < k {
                    assert(now[i] == before[i]);
                    assert(old(self).asked@.contains(i) == asked.contains(i));
                } else {
                    assert(now[i] == store::records(sibs@));
                }
            }
        }
    }

    /// Expands hits until one is to be given with its neighbours or all are
    /// done.
    fn advance(&mut self)
        requires
            old(self).on_track(),
            old(self).finish is Expand,
        ensures
            final(self).wf(),
            final(self).same_question(old(self)),
            final(self).hits() == old(self).hits(),
            final(self).parents() == old(self).parents(),
            final(self).stage is Expanding || final(self).stage is Done,
            final(self).expansion.next >= old(self).expansion.next,
            final(self).windows@.len() >= old(self).windows@.len(),
            forall|i: int|
                0 <= i < old(self).windows@.len() ==> final(self).windows@[i] == old(self).windows@[i],
            final(self).asked@ == old(self).asked@,
            forall|i: int|
                old(self).windows@.len() <= i < final(self).windows@.len() ==> passed_over(
                    final(self).hits(),
                    final(self).parents(),
                    mode_of(final(self).finish),
                    final(self).windows@,
                    i,
                ),
    {
        let none: Vec<Record> = Vec::new();
        while !self.expansion.finished()
            invariant
                none@.len() == 0,
                self.on_track(),
                self.finish is Expand,
                self.same_question(old(self)),
                self.hits() == old(self).hits(),
                self.parents() == old(self).parents(),
                self.expansion.next >= old(self).expansion.next,
                self.windows@.len() >= old(self).windows@.len(),
                forall|i: int|
                    0 <= i < old(self).windows@.len() ==> self.windows@[i] == old(self).windows@[i],
                self.asked@ == old(self).asked@,
                forall|i: int| #[trigger]
                    self.asked@.contains(i) ==> 0 <= i < old(self).windows@.len(),
            decreases self.expansion.hits@.len() - self.expansion.next,
        {
            match self.expansion.wanted() {
                Some(_) => {
                    self.stage = Stage::Expanding;
                    return ;
                },
                None => {},
            }
            self.take(&none);
        }
        self.stage = Stage::Done;
    }

    /// The rows that the search gives back.
    pub fn into_rows(self) -> (r: Vec<Record>)
        ensures
            store::records(r@) == self.rows(),
    {
        self.expansion.out
    }
}

/// A search that expanded its hits gives back the expansion of all of them,
/// which is no longer than the hits; asked for chunks, it gives back the hits.
/// Every hit that is to be given with its neighbours was asked about, and every
/// other was expanded without any.
pub proof fn law_finished_search_is_an_expansion(s: Search)
    requires
        s.wf(),
        s.stage == Stage::Done,
        s.finish is Expand,
    ensures
        s.rows() == query::expanded(
            s.hits(),
            s.parents(),
            mode_of(s.finish),
            s.windows@,
            s.hits().len(),
        ).out,
        s.rows().len() <= s.hits().len(),
        s.finish == Finish::Expand(ExpandTo::Chunk) ==> s.rows() == s.hits(),
        s.windows@.len() == s.hits().len(),
        forall|i: int|
            0 <= i < s.hits().len() ==> (#[trigger] s.asked@.contains(i) <==> s.wanted(i)),
        forall|i: int| 0 <= i < s.hits().len() ==> s.asked@.contains(i) || #[trigger] s.passed(i),
{
    let n = s.hits().len();
    query::law_expansion_is_no_longer(s.hits(), s.parents(), mode_of(s.finish), s.windows@, n);
    query::law_chunk_expansion_keeps_hits(s.hits(), s.parents(), s.windows@, n);
    assert(s.hits().take(n as int) =~= s.hits());
    assert forall|i: int| 0 <= i < n implies s.asked@.contains(i) || #[trigger] s.passed(i) by {
        assert(s.asked@.contains(i) || !s.asked@.contains(i));
    }
}

/// A search that ranks its hits gives back no more rows than it was asked for,
/// whatever the ranking says.
pub proof fn law_ranking_respects_limit(hits: Seq<RecordV>, order: Seq<usize>, limit: nat)
    ensures
        query::picked(hits, order, query::least(limit, order.len())).len() <= limit,
{
    lemma_picked_len(hits, order, query::least(limit, order.len()));
}

proof fn lemma_picked_len(hits: Seq<RecordV>, order: Seq<usize>, n: nat)
    ensures
        query::picked(hits, order, n).len() <= n,
    decreases n,
{
    if n > 0 {
        lemma_picked_len(hits, order, (n - 1) as nat);
    }
}

/// Neighbours of later hits do not matter to those before.
proof fn lemma_later_windows(
    hits: Seq<RecordV>,
    parents: Seq<RecordV>,
    mode: ExpandTo,
    windows: Seq<Seq<RecordV>>,
    more: Seq<RecordV>,
    n: nat,
)
    requires
        n <= windows.len(),
    ensures
        query::expanded(hits, parents, mode, windows.push(more), n) == query::expanded(
            hits,
            parents,
            mode,
            windows,
            n,
        ),
    decreases n,
{
    if n > 0 && n <= hits.len() {
        lemma_later_windows(hits, parents, mode, windows, more, (n - 1) as nat);
        assert(windows.push(more)[n - 1] == windows[n - 1]);
    }
}

} // verus!
