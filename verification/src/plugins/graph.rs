//! Graph retrieval backends: what is asked of them and which one is used.

use crate::dict::Dict;
use crate::hash;
use crate::http::Reply;
use crate::json;
use crate::json::{Json, JsonV, Number, NumberV};
use crate::schema::GraphPluginConfig;
use crate::text;
use vstd::prelude::*;

verus! {

broadcast use vstd::string::group_string_axioms;

/// How a graph backend is asked.
#[derive(Debug, Clone, Copy, PartialEq, Eq, Structural)]
pub enum GraphMode {
    /// For an answer in words.
    Hybrid,
    /// For structured data: entities, relationships and chunks.
    Data,
}

/// Context sizes passed on to the backend; its defaults hold where unset.
#[derive(Debug, Clone, Copy, PartialEq, Eq)]
pub struct GraphQueryParams {
    pub chunk_top_k: Option<usize>,
    pub max_entity_tokens: Option<usize>,
    pub max_relation_tokens: Option<usize>,
    pub max_total_tokens: Option<usize>,
}

impl Default for GraphQueryParams {
    fn default() -> (r: Self)
        ensures
            r.chunk_top_k is None,
            r.max_entity_tokens is None,
            r.max_relation_tokens is None,
            r.max_total_tokens is None,
    {
        GraphQueryParams {
            chunk_top_k: None,
            max_entity_tokens: None,
            max_relation_tokens: None,
            max_total_tokens: None,
        }
    }
}

/// What a graph backend answered.
#[derive(Debug, PartialEq, Eq)]
pub struct GraphAnswer {
    /// The answer in words, or structured data as JSON text.
    pub content: String,
    /// Whether the answer came without a real backend.
    pub degraded: bool,
}

/// A non-negative number as a JSON number.
pub open spec fn count_value(n: nat) -> JsonV {
    if n <= i64::MAX {
        JsonV::Num(NumberV::Int(n as int))
    } else {
        JsonV::Num(NumberV::Big(n as int))
    }
}

/// A non-negative number as a JSON number.
pub fn count_json(n: u64) -> (r: Json)
    ensures
        r@ == count_value(n as nat),
{
    if n <= i64::MAX as u64 {
        Json::Num(Number::Int(n as i64))
    } else {
        Json::Num(Number::Big(n))
    }
}

/// `e` with `key` set to `n`, where there is one.
pub open spec fn with_count(e: Seq<(Seq<char>, JsonV)>, key: Seq<char>, n: Option<usize>) -> Seq<
    (Seq<char>, JsonV),
> {
    match n {
        Some(v) => json::with_entry(e, key, count_value(v as nat)),
        None => e,
    }
}

/// `e` with the sizes that are set.
pub open spec fn with_params(e: Seq<(Seq<char>, JsonV)>, p: GraphQueryParams) -> Seq<
    (Seq<char>, JsonV),
> {
    with_count(
        with_count(
            with_count(
                with_count(e, "chunk_top_k"@, p.chunk_top_k),
                "max_entity_tokens"@,
                p.max_entity_tokens,
            ),
            "max_relation_tokens"@,
            p.max_relation_tokens,
        ),
        "max_total_tokens"@,
        p.max_total_tokens,
    )
}

fn put_count(v: &mut Vec<(String, Json)>, key: &str, n: Option<usize>)
    ensures
        json::entries(final(v)@) == with_count(json::entries(old(v)@), key@, n),
{
    match n {
        Some(x) => json::put(v, key, count_json(x as u64)),
        None => {},
    }
}

impl GraphQueryParams {
    /// Adds the sizes that are set to a request body.
    pub fn to_body(self, body: &mut Vec<(String, Json)>)
        ensures
            json::entries(final(body)@) == with_params(json::entries(old(body)@), self),
    {
        put_count(body, "chunk_top_k", self.chunk_top_k);
        put_count(body, "max_entity_tokens", self.max_entity_tokens);
        put_count(body, "max_relation_tokens", self.max_relation_tokens);
        put_count(body, "max_total_tokens", self.max_total_tokens);
    }
}

// ---------------------------------------------------------------------------
// Requests to a graph server
// ---------------------------------------------------------------------------

/// `s` without slashes at its end.
pub open spec fn without_slashes(s: Seq<char>) -> Seq<char>
    decreases s.len(),
{
    if s.len() > 0 && s.last() == '/' {
        without_slashes(s.drop_last())
    } else {
        s
    }
}

/// `s` without slashes at its end.
pub fn trim_slashes(s: &str) -> (r: String)
    ensures
        r@ == without_slashes(s@),
{
    let v: Vec<char> = text::chars_of(s);
    let mut n: usize = v.len();
    assert(s@.take(n as int) =~= s@);
    while n > 0 && v[n - 1] == '/'
        invariant
            v@ == s@,
            n <= v@.len(),
            without_slashes(s@) == without_slashes(s@.take(n as int)),
        decreases n,
    {
        assert(s@.take(n as int).last() == s@[n - 1]);
        assert(s@.take(n as int).drop_last() =~= s@.take(n - 1));
        n = n - 1;
    }
    proof {
        let t = s@.take(n as int);
        if n > 0 {
            assert(t.last() == s@[n - 1]);
        }
        assert(without_slashes(t) == t);
        assert(t =~= v@.subrange(0, n as int));
    }
    text::text_range(&v, 0, n)
}

/// A request to a graph server.
#[derive(Debug, PartialEq, Eq)]
pub struct GraphRequest {
    pub url: String,
    pub body: Json,
    pub timeout_secs: u64,
}

/// The body of a query.
pub open spec fn query_body(q: Seq<char>, limit: usize, p: GraphQueryParams) -> JsonV {
    JsonV::Obj(
        with_params(
            seq![
                ("query"@, JsonV::Str(q)),
                ("mode"@, JsonV::Str("hybrid"@)),
                ("top_k"@, count_value(limit as nat)),
            ],
            p,
        ),
    )
}

/// The request that asks a graph server: answers in words may take two
/// minutes, structured data one.
pub fn query_request(
    endpoint: &str,
    q: &str,
    mode: GraphMode,
    limit: usize,
    params: GraphQueryParams,
) -> (r: GraphRequest)
    ensures
        r.url@ == without_slashes(endpoint@) + (if mode == GraphMode::Hybrid {
            "/query"@
        } else {
            "/query/data"@
        }),
        r.body@ == query_body(q@, limit, params),
        r.timeout_secs == (if mode == GraphMode::Hybrid {
            120u64
        } else {
            60u64
        }),
{
    let base: String = trim_slashes(endpoint);
    let mut body: Vec<(String, Json)> = Vec::new();
    body.push(("query".to_string(), Json::string(q)));
    body.push(("mode".to_string(), Json::string("hybrid")));
    body.push(("top_k".to_string(), count_json(limit as u64)));
    assert(json::entries(body@) =~= seq![
        ("query"@, JsonV::Str(q@)),
        ("mode"@, JsonV::Str("hybrid"@)),
        ("top_k"@, count_value(limit as nat)),
    ]);
    params.to_body(&mut body);
    proof {
        json::lemma_obj_view(body);
    }
    let body: Json = Json::Obj(body);
    match mode {
        GraphMode::Hybrid => GraphRequest {
            url: text::cat2(base.as_str(), "/query"),
            body,
            timeout_secs: 120,
        },
        GraphMode::Data => GraphRequest {
            url: text::cat2(base.as_str(), "/query/data"),
            body,
            timeout_secs: 60,
        },
    }
}

/// The name of the file that a document is inserted as.
pub open spec fn file_source(id: Seq<char>) -> Seq<char> {
    id + ".txt"@
}

/// The id that a server gives to a document: it is derived from the name of
/// its file.
pub open spec fn server_id(id: Seq<char>) -> Seq<char> {
    "doc-"@ + hash::md5_hex(file_source(id))
}

/// The request that inserts a document.
pub fn insert_request(endpoint: &str, doc: &str, id: &str, timeout_secs: u64) -> (r: GraphRequest)
    ensures
        r.url@ == without_slashes(endpoint@) + "/documents/text"@,
        r.body@ == JsonV::Obj(
            seq![("text"@, JsonV::Str(doc@)), ("file_source"@, JsonV::Str(file_source(id@)))],
        ),
        r.timeout_secs == timeout_secs,
{
    let base: String = trim_slashes(endpoint);
    let file: String = text::cat2(id, ".txt");
    let mut body: Vec<(String, Json)> = Vec::new();
    body.push(("text".to_string(), Json::string(doc)));
    body.push(("file_source".to_string(), Json::Str(file)));
    proof {
        json::lemma_obj_view(body);
        assert(json::entries(body@) =~= seq![
            ("text"@, JsonV::Str(doc@)),
            ("file_source"@, JsonV::Str(file_source(id@))),
        ]);
    }
    GraphRequest {
        url: text::cat2(base.as_str(), "/documents/text"),
        body: Json::Obj(body),
        timeout_secs,
    }
}

/// The request that deletes a document: under the id that the server gave it,
/// and under its own.
pub fn delete_request(endpoint: &str, id: &str, timeout_secs: u64) -> (r: GraphRequest)
    ensures
        r.url@ == without_slashes(endpoint@) + "/documents/delete_document"@,
        r.body@ == JsonV::Obj(
            seq![
                (
                    "doc_ids"@,
                    JsonV::Arr(seq![JsonV::Str(server_id(id@)), JsonV::Str(id@)]),
                ),
            ],
        ),
        r.timeout_secs == timeout_secs,
{
    let base: String = trim_slashes(endpoint);
    let file: String = text::cat2(id, ".txt");
    let digest: String = hash::name_hash(file.as_str());
    let internal: String = text::cat2("doc-", digest.as_str());
    let mut ids: Vec<Json> = Vec::new();
    ids.push(Json::Str(internal));
    ids.push(Json::string(id));
    let ghost both = seq![JsonV::Str(server_id(id@)), JsonV::Str(id@)];
    proof {
        json::lemma_arr_view(ids);
        assert(json::items(ids@) =~= both);
    }
    let mut body: Vec<(String, Json)> = Vec::new();
    body.push(("doc_ids".to_string(), Json::Arr(ids)));
    proof {
        json::lemma_obj_view(body);
        assert(json::entries(body@) =~= seq![("doc_ids"@, JsonV::Arr(both))]);
    }
    GraphRequest {
        url: text::cat2(base.as_str(), "/documents/delete_document"),
        body: Json::Obj(body),
        timeout_secs,
    }
}

/// The address a graph server's health is asked at.
pub fn health_url(endpoint: &str) -> (r: String)
    ensures
        r@ == without_slashes(endpoint@) + "/health"@,
{
    let base: String = trim_slashes(endpoint);
    text::cat2(base.as_str(), "/health")
}

// ---------------------------------------------------------------------------
// What a server answers
// ---------------------------------------------------------------------------

/// The error that a reply to a health check stands for, if it does.
pub open spec fn health_error(endpoint: Seq<char>, reply: Reply<String>) -> Option<Seq<char>> {
    match reply {
        Reply::Unsent(e) => Some(
            "lightrag health "@ + (without_slashes(endpoint) + "/health"@) + ": "@ + e@,
        ),
        Reply::Refused { status, .. } => Some("lightrag health: HTTP "@ + status@),
        _ => None,
    }
}

/// Whether a server is healthy.
pub fn read_health(endpoint: &str, reply: &Reply<String>) -> (r: Result<(), String>)
    ensures
        (match r {
            Ok(_) => health_error(endpoint@, *reply) is None,
            Err(e) => health_error(endpoint@, *reply) == Some(e@),
        }),
{
    match reply {
        Reply::Unsent(e) => {
            let url: String = health_url(endpoint);
            Err(text::cat4("lightrag health ", url.as_str(), ": ", e.as_str()))
        },
        Reply::Refused { status, .. } => Err(
            text::cat2("lightrag health: HTTP ", status.as_str()),
        ),
        _ => Ok(()),
    }
}

/// The error that a reply to an insertion stands for, if it does.
pub open spec fn insert_error(id: Seq<char>, reply: Reply<String>) -> Option<Seq<char>> {
    match reply {
        Reply::Unsent(e) => Some("lightrag insert "@ + id + ": "@ + e@),
        Reply::Refused { status, body } => Some(
            "lightrag insert "@ + id + ": HTTP "@ + status@ + ": "@ + body@,
        ),
        _ => None,
    }
}

/// Whether a document was inserted.
pub fn read_insert(id: &str, reply: &Reply<String>) -> (r: Result<(), String>)
    ensures
        (match r {
            Ok(_) => insert_error(id@, *reply) is None,
            Err(e) => insert_error(id@, *reply) == Some(e@),
        }),
{
    match reply {
        Reply::Unsent(e) => Err(text::cat4("lightrag insert ", id, ": ", e.as_str())),
        Reply::Refused { status, body } => Err(
            text::cat2(
                text::cat5("lightrag insert ", id, ": HTTP ", status.as_str(), ": ").as_str(),
                body.as_str(),
            ),
        ),
        _ => Ok(()),
    }
}

/// What came of a deletion.
pub enum Deletion {
    Done,
    /// The server works on something else and deleted nothing.
    Busy,
    /// It failed, for this reason.
    Failed(String),
}

/// Whether a server says that it is busy.
pub open spec fn says_busy(j: JsonV) -> bool {
    json::text_field(j, "status"@) == Some("busy"@)
}

/// Whether a server says that it is busy.
pub fn is_busy(j: &Json) -> (r: bool)
    ensures
        r == says_busy(j@),
{
    match j.str_field("status") {
        Some(s) => text::same(s, "busy"),
        None => false,
    }
}

/// Whether a deletion came out as its reply says, where `said` is what the body
/// of an answer says.
pub open spec fn deletion_is(
    id: Seq<char>,
    reply: Reply<String>,
    said: Result<JsonV, Seq<char>>,
    d: Deletion,
) -> bool {
    match reply {
        Reply::Unsent(e) => d matches Deletion::Failed(m) && m@ == "lightrag delete "@ + id + ": "@
            + e@,
        Reply::Refused { status, .. } => d matches Deletion::Failed(m) && m@
            == "lightrag delete "@ + id + ": HTTP "@ + status@,
        Reply::Unreadable(_) => d is Done,
        Reply::Answered(_) => if said matches Ok(j) && says_busy(j) {
            d is Busy
        } else {
            d is Done
        },
    }
}

/// The body of a reply, where it has one.
pub open spec fn reply_body(reply: Reply<String>) -> Seq<char> {
    match reply {
        Reply::Answered(b) => b@,
        _ => Seq::empty(),
    }
}

/// What came of a deletion.
pub fn read_delete(id: &str, reply: &Reply<String>) -> (r: Deletion)
    ensures
        deletion_is(id@, *reply, json::parsed(reply_body(*reply)), r),
{
    match reply {
        Reply::Unsent(e) => Deletion::Failed(
            text::cat4("lightrag delete ", id, ": ", e.as_str()),
        ),
        Reply::Refused { status, .. } => Deletion::Failed(
            text::cat4("lightrag delete ", id, ": HTTP ", status.as_str()),
        ),
        Reply::Unreadable(_) => Deletion::Done,
        Reply::Answered(b) => match Json::parse(b.as_str()) {
            Ok(j) => if is_busy(&j) {
                Deletion::Busy
            } else {
                Deletion::Done
            },
            Err(_) => Deletion::Done,
        },
    }
}

impl Deletion {
    /// Why nothing was deleted, if that is so.
    pub fn error(&self, id: &str) -> (r: Option<String>)
        ensures
            crate::store::opt_view(r) == (match *self {
                Deletion::Done => None,
                Deletion::Busy => Some("lightrag delete "@ + id@ + ": pipeline busy"@),
                Deletion::Failed(m) => Some(m@),
            }),
    {
        match self {
            Deletion::Done => None,
            Deletion::Busy => Some(text::cat3("lightrag delete ", id, ": pipeline busy")),
            Deletion::Failed(m) => Some(m.clone()),
        }
    }
}

/// How often a deletion is tried where the server is busy.
pub const DELETE_TRIES: u32 = 3;

/// How often a deletion has been tried.
pub struct DeleteTries {
    pub made: u32,
}

impl DeleteTries {
    /// Before the first try.
    pub fn start() -> (r: Self)
        ensures
            r.made == 0,
    {
        DeleteTries { made: 0 }
    }

    /// Notes a try, and says whether another is made: only where the server is
    /// busy, and only as often as allowed.
    pub fn again(&mut self, d: &Deletion) -> (r: bool)
        requires
            old(self).made < DELETE_TRIES,
        ensures
            final(self).made == old(self).made + 1,
            r == (*d is Busy && final(self).made < DELETE_TRIES),
    {
        self.made = self.made + 1;
        match d {
            Deletion::Busy => self.made < DELETE_TRIES,
            _ => false,
        }
    }
}

/// The error that a reply to a query stands for, if it does.
pub open spec fn query_error(reply: Reply<String>) -> Option<Seq<char>> {
    match reply {
        Reply::Unsent(e) => Some("lightrag query: "@ + e@),
        Reply::Refused { status, .. } => Some("lightrag query: HTTP "@ + status@),
        Reply::Unreadable(e) => Some(e@),
        Reply::Answered(_) => None,
    }
}

/// What a server answered to a query: the body as it came.
pub fn read_query(reply: Reply<String>) -> (r: Result<GraphAnswer, String>)
    ensures
        (match r {
            Ok(a) => reply is Answered && a.content == reply->Answered_0 && !a.degraded,
            Err(e) => query_error(reply) == Some(e@),
        }),
{
    match reply {
        Reply::Unsent(e) => Err(text::cat2("lightrag query: ", e.as_str())),
        Reply::Refused { status, .. } => Err(text::cat2("lightrag query: HTTP ", status.as_str())),
        Reply::Unreadable(e) => Err(e),
        Reply::Answered(content) => Ok(GraphAnswer { content, degraded: false }),
    }
}

// ---------------------------------------------------------------------------
// The backend that is used
// ---------------------------------------------------------------------------

/// The backend of a build without graph.
#[derive(Debug, Clone, Copy, PartialEq, Eq)]
pub struct NoGraph;

impl NoGraph {
    /// The name that stands for no backend.
    pub fn name(&self) -> (r: &'static str)
        ensures
            r@ == "none"@,
    {
        "none"
    }

    /// There is nothing to be healthy.
    pub fn health(&self) -> (r: Result<(), String>)
        ensures
            r is Err,
            r->Err_0@ == "graph plugin disabled"@,
    {
        Err("graph plugin disabled".to_string())
    }

    /// Documents are not mirrored anywhere.
    pub fn insert(&self, docs: &Vec<(String, String)>) -> (r: Result<(), String>)
        ensures
            r is Ok,
    {
        Ok(())
    }

    /// There is nothing to delete.
    pub fn delete(&self, doc_id: &str) -> (r: Result<(), String>)
        ensures
            r is Ok,
    {
        Ok(())
    }

    /// Queries are refused, so that callers fall back.
    pub fn query(
        &self,
        q: &str,
        mode: GraphMode,
        limit: usize,
        params: &GraphQueryParams,
    ) -> (r: Result<GraphAnswer, String>)
        ensures
            r is Err,
            r->Err_0@ == "graph plugin disabled"@,
    {
        Err("graph plugin disabled".to_string())
    }
}

/// How to reach a graph server.
#[derive(Debug, PartialEq, Eq)]
pub struct ServerSettings {
    pub endpoint: String,
    pub api_key: Option<String>,
    /// Inserts that may run at a time, at least one.
    pub insert_concurrency: usize,
    pub insert_timeout_secs: u64,
    pub delete_timeout_secs: u64,
}

/// The backend to use.
#[derive(Debug, PartialEq, Eq)]
pub enum Backend {
    Disabled,
    Server(ServerSettings),
}

/// The error of a backend that this build cannot have.
pub open spec fn embedded_error(built_in: bool) -> Seq<char> {
    if built_in {
        "lightrag-embedded backend is a build-time stub in this version; use backend = \"lightrag-server\""@
    } else {
        "lightrag-embedded requires the `lightrag-embedded` feature"@
    }
}

/// The value of the variable that the setting names, if it names one that is
/// set.
pub open spec fn named_value(env: Dict<String>, name: Option<String>) -> Option<Seq<char>> {
    match name {
        Some(n) => if env@.dom().contains(n@) {
            Some(env@[n@]@)
        } else {
            None
        },
        None => None,
    }
}

/// Chooses the backend that the schema asks for.
pub fn build_graph_plugin(
    config: &Option<GraphPluginConfig>,
    env: &Dict<String>,
    embedded_built_in: bool,
) -> (r: Result<Backend, String>)
    requires
        env.wf(),
    ensures
        (match config {
            None => r == Ok::<Backend, String>(Backend::Disabled),
            Some(
                GraphPluginConfig::LightragServer {
                    endpoint,
                    api_key_env,
                    query_timeout_secs,
                    insert_concurrency,
                    insert_timeout_secs,
                    delete_timeout_secs,
                },
            ) => match r {
                Ok(Backend::Server(s)) => {
                    &&& s.endpoint@ == without_slashes(endpoint@)
                    &&& crate::store::opt_view(s.api_key) == named_value(*env, *api_key_env)
                    &&& s.insert_concurrency == (if *insert_concurrency < 1 {
                        1
                    } else {
                        *insert_concurrency as int
                    })
                    &&& s.insert_timeout_secs == insert_timeout_secs
                    &&& s.delete_timeout_secs == delete_timeout_secs
                },
                _ => false,
            },
            Some(GraphPluginConfig::LightragEmbedded { .. }) => r is Err && r->Err_0@
                == embedded_error(embedded_built_in),
        }),
{
    match config {
        None => Ok(Backend::Disabled),
        Some(
            GraphPluginConfig::LightragServer {
                endpoint,
                api_key_env,
                query_timeout_secs: _,
                insert_concurrency,
                insert_timeout_secs,
                delete_timeout_secs,
            },
        ) => {
            let api_key: Option<String> = match api_key_env {
                Some(name) => match env.get(name.as_str()) {
                    Some(v) => Some(v.clone()),
                    None => None,
                },
                None => None,
            };
            Ok(
                Backend::Server(
                    ServerSettings {
                        endpoint: trim_slashes(endpoint.as_str()),
                        api_key,
                        insert_concurrency: if *insert_concurrency < 1 {
                            1
                        } else {
                            *insert_concurrency
                        },
                        insert_timeout_secs: *insert_timeout_secs,
                        delete_timeout_secs: *delete_timeout_secs,
                    },
                ),
            )
        },
        Some(GraphPluginConfig::LightragEmbedded { .. }) => if embedded_built_in {
            Err(
                "lightrag-embedded backend is a build-time stub in this version; use backend = \"lightrag-server\"".to_string(),
            )
        } else {
            Err("lightrag-embedded requires the `lightrag-embedded` feature".to_string())
        },
    }
}

} // verus!
