//! Where found rows are ranked again: by a model in this process, or by a
//! service. Scores are the bit patterns of single-precision numbers.
//!
//! A service is asked again after a failure that may pass, twice at most and
//! after a pause.

use crate::config;
use crate::config::RerankConfig;
use crate::dict::Dict;
use crate::embedding;
use crate::http;
use crate::http::{Reply, Request};
use crate::json;
use crate::json::{Json, JsonV};
use crate::mcp;
use crate::plugins::graph;
use crate::schema::BuildFeatures;
use crate::store;
use crate::text;
use vstd::prelude::*;

verus! {

broadcast use vstd::string::group_string_axioms;

// ---------------------------------------------------------------------------
// Backends
// ---------------------------------------------------------------------------

/// A service that speaks the protocol of text-embeddings-inference.
pub struct HttpReranker {
    pub url: String,
    pub api_key: Option<String>,
}

/// A service that speaks the OpenAI protocol.
pub struct OpenAiReranker {
    pub url: String,
    pub model: Option<String>,
    pub api_key: Option<String>,
}

/// A reranking backend.
pub enum Reranker {
    /// The model in this directory.
    Onnx { dir: String },
    Http(HttpReranker),
    OpenAi(OpenAiReranker),
}

/// The model of a reranking backend.
pub enum RerankerV {
    Onnx { dir: Seq<char> },
    Http { url: Seq<char>, api_key: Option<Seq<char>> },
    OpenAi { url: Seq<char>, model: Option<Seq<char>>, api_key: Option<Seq<char>> },
}

impl View for Reranker {
    type V = RerankerV;

    open spec fn view(&self) -> RerankerV {
        match *self {
            Reranker::Onnx { dir } => RerankerV::Onnx { dir: dir@ },
            Reranker::Http(h) => RerankerV::Http {
                url: h.url@,
                api_key: store::opt_view(h.api_key),
            },
            Reranker::OpenAi(o) => RerankerV::OpenAi {
                url: o.url@,
                model: store::opt_view(o.model),
                api_key: store::opt_view(o.api_key),
            },
        }
    }
}

/// The backend that a configuration describes, or why there is none.
pub open spec fn reranker_of(
    c: config::RerankV,
    m: Map<Seq<char>, Seq<char>>,
    onnx: bool,
) -> Result<RerankerV, Seq<char>> {
    match c {
        config::RerankV::Off => Err("rerank disabled by config"@),
        config::RerankV::Onnx { dir } => if !onnx {
            Err("rerank backend onnx requires the `onnx` feature"@)
        } else {
            match embedding::model_dir(
                dir,
                config::var(m, "HOME"@),
                ".cache/semdoc/models/bge-reranker-v2-m3"@,
            ) {
                Some(d) => Ok(RerankerV::Onnx { dir: d }),
                None => Err("cannot resolve home; set rerank.dir"@),
            }
        },
        config::RerankV::Tei { endpoint, api_key_env, .. } => Ok(
            RerankerV::Http {
                url: text::trimmed(endpoint),
                api_key: embedding::key_of(api_key_env, m),
            },
        ),
        config::RerankV::Openai { endpoint, model, api_key_env, .. } => Ok(
            RerankerV::OpenAi {
                url: text::trimmed(endpoint),
                model,
                api_key: embedding::key_of(api_key_env, m),
            },
        ),
    }
}

impl Reranker {
    /// The backend that the configuration describes.
    pub fn load(cfg: &RerankConfig, env: &Dict<String>, features: &BuildFeatures) -> (r: Result<
        Reranker,
        String,
    >)
        requires
            env.wf(),
        ensures
            (match r {
                Ok(e) => reranker_of(cfg@, config::vars(*env), features.onnx) == Ok::<
                    RerankerV,
                    Seq<char>,
                >(e@),
                Err(x) => reranker_of(cfg@, config::vars(*env), features.onnx) == Err::<
                    RerankerV,
                    Seq<char>,
                >(x@),
            }),
    {
        match cfg {
            RerankConfig::Off => Err("rerank disabled by config".to_string()),
            RerankConfig::Onnx { dir } => {
                if !features.onnx {
                    return Err("rerank backend onnx requires the `onnx` feature".to_string());
                }
                let home: Option<String> = config::get_var(env, "HOME");
                match embedding::find_model(dir, home, ".cache/semdoc/models/bge-reranker-v2-m3") {
                    Some(d) => Ok(Reranker::Onnx { dir: d }),
                    None => Err("cannot resolve home; set rerank.dir".to_string()),
                }
            },
            RerankConfig::Tei { endpoint, api_key_env, .. } => {
                let api_key: Option<String> = embedding::read_key(api_key_env, env);
                Ok(
                    Reranker::Http(
                        HttpReranker::new(text::trim(endpoint.as_str()).as_str(), api_key),
                    ),
                )
            },
            RerankConfig::Openai { endpoint, model, api_key_env, .. } => {
                let api_key: Option<String> = embedding::read_key(api_key_env, env);
                Ok(
                    Reranker::OpenAi(
                        OpenAiReranker::new(
                            text::trim(endpoint.as_str()).as_str(),
                            store::copy_opt(model),
                            api_key,
                        ),
                    ),
                )
            },
        }
    }
}

// ---------------------------------------------------------------------------
// Retrying
// ---------------------------------------------------------------------------

/// Whether a failure may pass: the service was not reached, or it failed
/// itself.
pub open spec fn transient(message: Seq<char>) -> bool {
    "rerank POST"@.is_prefix_of(message) || "rerank HTTP 5"@.is_prefix_of(message)
}

/// Whether a failure may pass.
pub fn is_transient(message: &str) -> (r: bool)
    ensures
        r == transient(message@),
{
    text::starts_with(message, "rerank POST") || text::starts_with(message, "rerank HTTP 5")
}

/// How often a request is made again at most.
pub const MAX_RETRIES: u32 = 2;

/// Whether a request that was made `n` times again is made once more after a
/// failure.
pub open spec fn again(n: nat, message: Seq<char>) -> bool {
    n < MAX_RETRIES && transient(message)
}

/// How often a request has been made again.
pub struct Retry {
    pub attempt: u32,
}

/// The pause in milliseconds before the request is made for the `n`-th time
/// again.
pub open spec fn backoff(n: nat) -> nat
    decreases n,
{
    if n <= 1 {
        250
    } else {
        3 * backoff((n - 1) as nat)
    }
}

impl Retry {
    /// Before the first request.
    pub fn start() -> (r: Self)
        ensures
            r.attempt == 0,
    {
        Retry { attempt: 0 }
    }

    /// What to do after a failure: make the request again after so many
    /// milliseconds, or nothing more.
    pub fn after(&mut self, message: &str) -> (r: Option<u64>)
        ensures
            (match r {
                Some(ms) => again(old(self).attempt as nat, message@) && final(self).attempt == old(
                    self,
                ).attempt + 1 && ms == backoff(final(self).attempt as nat),
                None => !again(old(self).attempt as nat, message@) && final(self).attempt == old(
                    self,
                ).attempt,
            }),
    {
        if self.attempt < MAX_RETRIES && is_transient(message) {
            self.attempt = self.attempt + 1;
            proof {
                reveal_with_fuel(backoff, 3);
            }
            if self.attempt == 1 {
                Some(250)
            } else {
                Some(750)
            }
        } else {
            None
        }
    }
}

/// The state of retrying after a row of failures, and whether the request is
/// still made again.
pub open spec fn retried(messages: Seq<Seq<char>>) -> (nat, bool)
    decreases messages.len(),
{
    if messages.len() == 0 {
        (0, true)
    } else {
        let (n, on) = retried(messages.drop_last());
        if on && again(n, messages.last()) {
            (n + 1, true)
        } else {
            (n, false)
        }
    }
}

/// A request is made again after a row of failures exactly if each may pass
/// and there are at most two: it is never made more than three times.
pub proof fn law_retries_are_bounded(messages: Seq<Seq<char>>)
    ensures
        retried(messages).1 == (messages.len() <= MAX_RETRIES && forall|i: int|
            0 <= i < messages.len() ==> transient(#[trigger] messages[i])),
        retried(messages).1 ==> retried(messages).0 == messages.len(),
    decreases messages.len(),
{
    if messages.len() > 0 {
        let before = messages.drop_last();
        law_retries_are_bounded(before);
        assert(messages.last() == messages[messages.len() - 1]);
        if retried(messages).1 {
            assert forall|i: int| 0 <= i < messages.len() implies transient(
                #[trigger] messages[i],
            ) by {
                if i < before.len() {
                    assert(before[i] == messages[i]);
                }
            }
        } else if messages.len() <= MAX_RETRIES && forall|i: int|
            0 <= i < messages.len() ==> transient(#[trigger] messages[i]) {
            assert forall|i: int| 0 <= i < before.len() implies transient(#[trigger] before[i]) by {
                assert(before[i] == messages[i]);
            }
        }
    }
}

// ---------------------------------------------------------------------------
// Scores
// ---------------------------------------------------------------------------

/// Whether a bit pattern stands for no number.
pub open spec fn not_a_number(bits: u32) -> bool {
    0x7f80_0000 < bits < 0x8000_0000 || 0xff80_0000 < bits
}

/// Where a score stands among all scores: scores compare as these integers do,
/// and the two zeros stand at the same place.
pub open spec fn score_rank(bits: u32) -> int {
    if bits < 0x8000_0000 {
        bits as int
    } else {
        0x8000_0000 - bits
    }
}

/// Whether a score is above another. What is no number is above nothing, and
/// nothing is above it.
pub open spec fn above(a: u32, b: u32) -> bool {
    !not_a_number(a) && !not_a_number(b) && score_rank(a) > score_rank(b)
}

/// Whether a score is above another.
pub fn is_above(a: u32, b: u32) -> (r: bool)
    ensures
        r == above(a, b),
{
    if (a > 0x7f80_0000 && a < 0x8000_0000) || a > 0xff80_0000 || (b > 0x7f80_0000 && b
        < 0x8000_0000) || b > 0xff80_0000 {
        return false;
    }
    let x: i64 = if a < 0x8000_0000 {
        a as i64
    } else {
        0x8000_0000i64 - a as i64
    };
    let y: i64 = if b < 0x8000_0000 {
        b as i64
    } else {
        0x8000_0000i64 - b as i64
    };
    x > y
}

/// `s` with `x` placed after all that it is not above.
pub open spec fn ranked_in(s: Seq<(usize, u32)>, x: (usize, u32)) -> Seq<(usize, u32)>
    decreases s.len(),
{
    if s.len() > 0 && above(x.1, s.last().1) {
        ranked_in(s.drop_last(), x).push(s.last())
    } else {
        s.push(x)
    }
}

/// Positions by score, the highest first, those of the same score in the order
/// they had.
pub open spec fn by_score(s: Seq<(usize, u32)>) -> Seq<(usize, u32)>
    decreases s.len(),
{
    if s.len() == 0 {
        s
    } else {
        ranked_in(by_score(s.drop_last()), s.last())
    }
}

/// Puts positions in the order of their scores, the highest first, those of
/// the same score in the order they had.
pub fn sort_by_score(v: &Vec<(usize, u32)>) -> (r: Vec<(usize, u32)>)
    ensures
        r@ == by_score(v@),
{
    let mut r: Vec<(usize, u32)> = Vec::new();
    let mut i: usize = 0;
    assert(r@ =~= by_score(v@.take(0)));
    while i < v.len()
        invariant
            i <= v@.len(),
            r@ == by_score(v@.take(i as int)),
        decreases v@.len() - i,
    {
        let ghost was = r@;
        let x: (usize, u32) = v[i];
        let mut k: usize = r.len();
        assert(was.take(k as int) =~= was);
        assert(was.skip(k as int) =~= Seq::empty());
        assert(ranked_in(was.take(k as int), x) + was.skip(k as int) =~= ranked_in(was, x));
        while k > 0 && is_above(x.1, r[k - 1].1)
            invariant
                was == r@,
                k <= r@.len(),
                ranked_in(was.take(k as int), x) + was.skip(k as int) == ranked_in(was, x),
            decreases k,
        {
            proof {
                let head = was.take(k as int);
                assert(head.last() == was[k - 1]);
                assert(head.drop_last() =~= was.take(k - 1));
                assert(ranked_in(was.take(k - 1), x).push(was[k - 1]) + was.skip(k as int)
                    =~= ranked_in(was.take(k - 1), x) + was.skip(k - 1));
            }
            k = k - 1;
        }
        proof {
            let head = was.take(k as int);
            if k > 0 {
                assert(head.last() == was[k - 1]);
            }
            assert(ranked_in(head, x) == head.push(x));
        }
        r.insert(k, x);
        proof {
            assert(was.take(k as int).push(x) + was.skip(k as int) =~= was.insert(k as int, x));
            assert(v@.take(i + 1).drop_last() =~= v@.take(i as int));
            assert(v@.take(i + 1).last() == x);
        }
        i = i + 1;
    }
    assert(v@.take(i as int) =~= v@);
    r
}

/// Where all scores are numbers, none comes after a lower one; and nothing is
/// lost or made up.
pub proof fn law_ranking_is_descending(s: Seq<(usize, u32)>)
    requires
        forall|i: int| 0 <= i < s.len() ==> !not_a_number((#[trigger] s[i]).1),
    ensures
        forall|i: int, j: int|
            0 <= i < j < by_score(s).len() ==> score_rank((#[trigger] by_score(s)[i]).1)
                >= score_rank((#[trigger] by_score(s)[j]).1),
        by_score(s).to_multiset() == s.to_multiset(),
    decreases s.len(),
{
    broadcast use vstd::seq_lib::group_to_multiset_ensures;

    if s.len() > 0 {
        let before = s.drop_last();
        assert forall|i: int| 0 <= i < before.len() implies !not_a_number(
            (#[trigger] before[i]).1,
        ) by {
            assert(before[i] == s[i]);
        }
        law_ranking_is_descending(before);
        let x = s.last();
        assert(x == s[s.len() - 1]);
        let b = by_score(before);
        assert forall|i: int| 0 <= i < b.len() implies !not_a_number((#[trigger] b[i]).1) by {
            assert(b.to_multiset().contains(b[i]));
            assert(before.to_multiset().contains(b[i]));
            assert(before.contains(b[i]));
        }
        lemma_ranked_in(b, x);
        assert(before.push(x) =~= s);
    }
}

proof fn lemma_ranked_in(s: Seq<(usize, u32)>, x: (usize, u32))
    requires
        !not_a_number(x.1),
        forall|i: int| 0 <= i < s.len() ==> !not_a_number((#[trigger] s[i]).1),
        forall|i: int, j: int|
            0 <= i < j < s.len() ==> score_rank((#[trigger] s[i]).1) >= score_rank(
                (#[trigger] s[j]).1,
            ),
    ensures
        forall|i: int, j: int|
            0 <= i < j < ranked_in(s, x).len() ==> score_rank((#[trigger] ranked_in(s, x)[i]).1)
                >= score_rank((#[trigger] ranked_in(s, x)[j]).1),
        ranked_in(s, x).to_multiset() == s.push(x).to_multiset(),
        ranked_in(s, x).len() == s.len() + 1,
        forall|i: int|
            0 <= i < ranked_in(s, x).len() ==> (#[trigger] ranked_in(s, x)[i] == x || s.contains(
                ranked_in(s, x)[i],
            )),
    decreases s.len(),
{
    broadcast use vstd::seq_lib::group_to_multiset_ensures;

    if s.len() > 0 && above(x.1, s.last().1) {
        let head = s.drop_last();
        let last = s.last();
        assert(last == s[s.len() - 1]);
        lemma_ranked_in(head, x);
        let p = ranked_in(head, x);
        let all = p.push(last);
        assert forall|i: int| 0 <= i < p.len() implies score_rank((#[trigger] p[i]).1)
            >= score_rank(last.1) by {
            if p[i] != x {
                let j = choose|j: int| 0 <= j < head.len() && head[j] == p[i];
                assert(s[j] == head[j]);
            }
        }
        assert(head.push(last) =~= s);
        assert(all.to_multiset() == s.push(x).to_multiset()) by {
            assert(p.to_multiset() == head.push(x).to_multiset());
            assert(all.to_multiset() =~= p.to_multiset().insert(last));
            assert(head.push(x).to_multiset() =~= head.to_multiset().insert(x));
            assert(s.to_multiset() =~= head.to_multiset().insert(last));
            assert(s.push(x).to_multiset() =~= s.to_multiset().insert(x));
        }
        assert forall|i: int| 0 <= i < all.len() implies #[trigger] all[i] == x || s.contains(
            all[i],
        ) by {
            if i < p.len() {
                if p[i] != x {
                    let j = choose|j: int| 0 <= j < head.len() && head[j] == p[i];
                    assert(s[j] == all[i]);
                }
            } else {
                assert(s[s.len() - 1] == all[i]);
            }
        }
    } else {
        let all = s.push(x);
        if s.len() > 0 {
            assert(s.last() == s[s.len() - 1]);
        }
        assert forall|i: int| 0 <= i < all.len() implies #[trigger] all[i] == x || s.contains(
            all[i],
        ) by {
            if i < s.len() {
                assert(s[i] == all[i]);
            }
        }
    }
}

// ---------------------------------------------------------------------------
// Requests and replies
// ---------------------------------------------------------------------------

/// Where a service ranks texts.
pub open spec fn rank_url(base: Seq<char>) -> Seq<char> {
    graph::without_slashes(base) + "/rerank"@
}

/// Texts as JSON.
pub open spec fn text_values(docs: Seq<Seq<char>>) -> JsonV {
    JsonV::Arr(Seq::new(docs.len(), |i: int| JsonV::Str(docs[i])))
}

/// Texts as JSON.
fn texts_json(docs: &Vec<String>) -> (r: Json)
    ensures
        r@ == text_values(text::texts(docs@)),
{
    let mut out: Vec<Json> = Vec::new();
    let mut i: usize = 0;
    while i < docs.len()
        invariant
            i <= docs@.len(),
            out@.len() == i,
            forall|k: int| 0 <= k < i ==> (#[trigger] out@[k])@ == JsonV::Str(docs@[k]@),
        decreases docs@.len() - i,
    {
        out.push(Json::string(docs[i].as_str()));
        i = i + 1;
    }
    proof {
        json::lemma_arr_view(out);
        assert(json::items(out@) =~= Seq::new(
            text::texts(docs@).len(),
            |i: int| JsonV::Str(text::texts(docs@)[i]),
        ));
    }
    Json::Arr(out)
}

/// The ranking that a reply gives, or why it gives none.
pub open spec fn ranking_of(url: Seq<char>, reply: Reply<Vec<(usize, u32)>>) -> Result<
    Seq<(usize, u32)>,
    Seq<char>,
> {
    match reply {
        Reply::Unsent(e) => Err("rerank POST "@ + url + ": "@ + e@),
        Reply::Refused { status, body } => Err("rerank HTTP "@ + status@ + ": "@ + body@),
        Reply::Unreadable(e) => Err("rerank JSON decode: "@ + e@),
        Reply::Answered(v) => Ok(by_score(v@)),
    }
}

fn read_ranking(base: &str, reply: Reply<Vec<(usize, u32)>>) -> (r: Result<
    Vec<(usize, u32)>,
    String,
>)
    ensures
        (match r {
            Ok(v) => ranking_of(rank_url(base@), reply) == Ok::<Seq<(usize, u32)>, Seq<char>>(v@),
            Err(e) => ranking_of(rank_url(base@), reply) == Err::<Seq<(usize, u32)>, Seq<char>>(e@),
        }),
{
    match reply {
        Reply::Unsent(e) => {
            let b: String = graph::trim_slashes(base);
            let url: String = text::cat2(b.as_str(), "/rerank");
            Err(text::cat4("rerank POST ", url.as_str(), ": ", e.as_str()))
        },
        Reply::Refused { status, body } => Err(
            text::cat4("rerank HTTP ", status.as_str(), ": ", body.as_str()),
        ),
        Reply::Unreadable(e) => Err(text::cat2("rerank JSON decode: ", e.as_str())),
        Reply::Answered(v) => Ok(sort_by_score(&v)),
    }
}

/// The body of a request to a service that speaks the OpenAI protocol.
pub open spec fn openai_body(
    q: Seq<char>,
    docs: Seq<Seq<char>>,
    model: Option<Seq<char>>,
) -> JsonV {
    match model {
        Some(m) => JsonV::Obj(
            seq![
                ("query"@, JsonV::Str(q)),
                ("documents"@, text_values(docs)),
                ("model"@, JsonV::Str(m)),
            ],
        ),
        None => JsonV::Obj(seq![("query"@, JsonV::Str(q)), ("documents"@, text_values(docs))]),
    }
}

impl HttpReranker {
    /// The service at `url`.
    pub fn new(url: &str, api_key: Option<String>) -> (r: Self)
        ensures
            r.url@ == url@,
            r.api_key == api_key,
    {
        HttpReranker { url: url.to_string(), api_key }
    }

    /// The request to rank texts.
    pub fn request(&self, q: &str, docs: &Vec<String>) -> (r: Request<Json>)
        ensures
            r.url@ == rank_url(self.url@),
            r.body@ == JsonV::Obj(
                seq![
                    ("query"@, JsonV::Str(q@)),
                    ("texts"@, text_values(text::texts(docs@))),
                    ("return_text"@, JsonV::Bool(false)),
                ],
            ),
            store::opt_view(r.authorization) == http::bearer_value(store::opt_view(self.api_key)),
    {
        let base: String = graph::trim_slashes(self.url.as_str());
        let body: Json = mcp::object3(
            "query",
            Json::string(q),
            "texts",
            texts_json(docs),
            "return_text",
            Json::Bool(false),
        );
        Request {
            url: text::cat2(base.as_str(), "/rerank"),
            body,
            authorization: http::bearer(http::lent(&self.api_key)),
        }
    }

    /// The ranking that a reply gives.
    pub fn read(&self, reply: Reply<Vec<(usize, u32)>>) -> (r: Result<Vec<(usize, u32)>, String>)
        ensures
            (match r {
                Ok(v) => ranking_of(rank_url(self.url@), reply) == Ok::<
                    Seq<(usize, u32)>,
                    Seq<char>,
                >(v@),
                Err(e) => ranking_of(rank_url(self.url@), reply) == Err::<
                    Seq<(usize, u32)>,
                    Seq<char>,
                >(e@),
            }),
    {
        read_ranking(self.url.as_str(), reply)
    }
}

impl OpenAiReranker {
    /// The service at `url`, which includes the version of the protocol.
    pub fn new(url: &str, model: Option<String>, api_key: Option<String>) -> (r: Self)
        ensures
            r.url@ == url@,
            r.model == model,
            r.api_key == api_key,
    {
        OpenAiReranker { url: url.to_string(), model, api_key }
    }

    /// The request to rank texts.
    pub fn request(&self, q: &str, docs: &Vec<String>) -> (r: Request<Json>)
        ensures
            r.url@ == rank_url(self.url@),
            r.body@ == openai_body(q@, text::texts(docs@), store::opt_view(self.model)),
            store::opt_view(r.authorization) == http::bearer_value(store::opt_view(self.api_key)),
    {
        let base: String = graph::trim_slashes(self.url.as_str());
        let body: Json = match &self.model {
            Some(m) => mcp::object3(
                "query",
                Json::string(q),
                "documents",
                texts_json(docs),
                "model",
                Json::string(m.as_str()),
            ),
            None => mcp::object2("query", Json::string(q), "documents", texts_json(docs)),
        };
        Request {
            url: text::cat2(base.as_str(), "/rerank"),
            body,
            authorization: http::bearer(http::lent(&self.api_key)),
        }
    }

    /// The ranking that a reply gives.
    pub fn read(&self, reply: Reply<Vec<(usize, u32)>>) -> (r: Result<Vec<(usize, u32)>, String>)
        ensures
            (match r {
                Ok(v) => ranking_of(rank_url(self.url@), reply) == Ok::<
                    Seq<(usize, u32)>,
                    Seq<char>,
                >(v@),
                Err(e) => ranking_of(rank_url(self.url@), reply) == Err::<
                    Seq<(usize, u32)>,
                    Seq<char>,
                >(e@),
            }),
    {
        read_ranking(self.url.as_str(), reply)
    }
}

/// A service that was not reached, or that answers with a status of the
/// fifth class, is asked again; one that answers otherwise is not.
pub proof fn law_refusals_are_final(url: Seq<char>, status: String, body: String, e: String)
    ensures
        transient(ranking_of(url, Reply::Unsent(e))->Err_0),
        transient(ranking_of(url, Reply::Refused { status, body })->Err_0) == (status@.len() > 0
            && status@[0] == '5'),
        !transient(ranking_of(url, Reply::Unreadable(e))->Err_0),
{
    reveal_strlit("rerank POST");
    reveal_strlit("rerank POST ");
    reveal_strlit("rerank HTTP 5");
    reveal_strlit("rerank HTTP ");
    reveal_strlit("rerank JSON decode: ");
    reveal_strlit(": ");
    let a = ranking_of(url, Reply::Unsent(e))->Err_0;
    assert("rerank POST"@ =~= a.subrange(0, 11));
    let b = ranking_of(url, Reply::Refused { status, body })->Err_0;
    assert(b[7] == 'H');
    assert("rerank POST"@[7] == 'P');
    assert(!("rerank POST"@.is_prefix_of(b)));
    if status@.len() > 0 {
        assert(b[12] == status@[0]);
    } else {
        assert(b[12] == ':');
    }
    assert("rerank HTTP 5"@[12] == '5');
    if status@.len() > 0 && status@[0] == '5' {
        assert("rerank HTTP 5"@ =~= b.subrange(0, 13));
    }
    let c = ranking_of(url, Reply::Unreadable(e))->Err_0;
    assert(c[7] == 'J');
    assert("rerank HTTP 5"@[7] == 'H');
}

} // verus!
