//! What holds of every call, session, schema and setting.

use crate::chunker;
use crate::chunker_laws;
use crate::cli;
use crate::config;
use crate::config::{DeploymentConfig, EmbeddingV, RerankV};
use crate::hash;
use crate::json;
use crate::json::{JsonV, NumberV};
use crate::mcp;
use crate::mcp::{Plan, SearchKind};
use crate::migrate;
use crate::query;
use crate::query::ExpandTo;
use crate::schema;
use crate::schema::{BuildFeatures, SchemaConfig};
use crate::server;
use crate::server::{Opening, SavedSession, SessionV};
use crate::store;
use crate::text;
use vstd::prelude::*;

verus! {

broadcast use vstd::string::group_string_axioms;

// ---------------------------------------------------------------------------
// Who is let in
// ---------------------------------------------------------------------------

/// A call is let in exactly if its header is the word Bearer, a blank and the
/// token, white space around the token aside; without a header none is.
pub proof fn law_only_the_token_is_let_in(token: Seq<char>, said: Seq<char>, header: Seq<char>)
    ensures
        server::refusal(Some(token), None) is Some,
        header == "Bearer "@ + said ==> (server::refusal(Some(token), Some(header)) is None
            <==> text::trimmed(said) == token),
        !("Bearer "@.is_prefix_of(header)) ==> server::refusal(Some(token), Some(header)) is Some,
{
    let p = "Bearer "@;
    if header == p + said {
        assert(header.subrange(0, p.len() as int) =~= p);
        assert(header.skip(p.len() as int) =~= said);
    }
}

// ---------------------------------------------------------------------------
// Sessions
// ---------------------------------------------------------------------------

/// Using a session makes it seen now and changes nothing else of it, and no other
/// session; using one that is not there opens none.
pub proof fn law_use_refreshes_one_session(
    m: Map<Seq<char>, SessionV>,
    id: Seq<char>,
    other: Seq<char>,
    now: u64,
)
    ensures
        ({
            let n = server::after_use(m, id, now);
            &&& n.dom() == m.dom()
            &&& m.dom().contains(id) ==> n[id].last_seen == now && n[id].created_at
                == m[id].created_at && n[id].initialized == m[id].initialized
                && n[id].protocol_version == m[id].protocol_version
            &&& other != id && m.dom().contains(other) ==> n[other] == m[other]
        }),
{
    assert(server::after_use(m, id, now).dom() =~= m.dom());
}

/// A sweep ends exactly the sessions that were last seen `ttl` seconds ago or
/// longer, and leaves the others as they are.
pub proof fn law_sweep_ends_idle_sessions_only(
    m: Map<Seq<char>, SessionV>,
    id: Seq<char>,
    now: u64,
    ttl: u64,
)
    requires
        ttl > 0,
    ensures
        ({
            let n = server::after_sweep(m, now, ttl);
            &&& n.dom().contains(id) <==> m.dom().contains(id) && (m[id].last_seen + ttl > now)
            &&& n.dom().contains(id) ==> n[id] == m[id]
        }),
{
}

/// A restart brings back what was stored of each session, and makes it seen now.
pub proof fn law_restart_brings_sessions_back(saved: Seq<SavedSession>, now: u64, n: nat, i: int)
    requires
        0 <= i < n <= saved.len(),
        forall|i: int, j: int|
            0 <= i < j < saved.len() ==> (#[trigger] saved[i]).id@ != (#[trigger] saved[j]).id@,
    ensures
        ({
            let m = server::restored(saved, now, n);
            &&& m.dom().contains(saved[i].id@)
            &&& m[saved[i].id@].initialized == (saved[i].initialized != 0)
            &&& m[saved[i].id@].protocol_version == saved[i].protocol_version@
            &&& m[saved[i].id@].last_seen == now
        }),
    decreases n,
{
    if i < n - 1 {
        law_restart_brings_sessions_back(saved, now, (n - 1) as nat, i);
        assert(saved[i].id@ != saved[n - 1].id@);
    }
}

/// A call of a session that is there is served with its own method and arguments,
/// and the session is seen now. A call without a session is answered with the
/// error for that, under the id of the call.
pub proof fn law_calls_are_served_as_made(
    refused: Option<Seq<char>>,
    said: Result<JsonV, Seq<char>>,
    session: Seq<char>,
    now: u64,
    before: Map<Seq<char>, SessionV>,
    o: Opening,
    after: Map<Seq<char>, SessionV>,
)
    requires
        server::opens(refused, said, session, now, before, o, after),
    ensures
        refused is Some ==> (o matches Opening::Unauthorized(m) && m@ == refused->0),
        refused is None && said is Err ==> o is Malformed,
        o matches Opening::Serve(i) ==> said is Ok && (json::text_field(said->Ok_0, "method"@)
            matches Some(x) ==> i.method@ == x) && (json::field(said->Ok_0, "params"@) matches Some(
            p,
        ) ==> i.params@ == p) && (json::field(said->Ok_0, "id"@) matches Some(d) ==> i.id@ == d),
        o is Serve && json::text_field(said->Ok_0, "method"@) != Some("initialize"@)
            ==> after.dom().contains(session) && after[session].last_seen == now,
        o matches Opening::NoSession(j) ==> json::field(j@, "error"@) is Some && json::field(
            json::field(j@, "error"@)->0,
            "code"@,
        ) == Some(JsonV::Num(NumberV::Int(-32001))),
{
    reveal_strlit("initialize");
    assert("initialize"@.len() == 10);
    match o {
        Opening::NoSession(j) => {
            law_answers_echo_their_call(
                server::entry_or(said->Ok_0, "id"@, JsonV::Null),
                server::rpc_error(-32001, server::SESSION_ERROR@),
            );
            law_errors_say_their_code(-32001, server::SESSION_ERROR@);
        },
        _ => {},
    }
}

/// An answer carries the id of its call, and either the result or the error,
/// never both.
pub proof fn law_answers_echo_their_call(id: JsonV, result: JsonV)
    ensures
        ({
            let a = server::envelope_value(id, result);
            &&& json::field(a, "id"@) == Some(id)
            &&& json::text_field(a, "jsonrpc"@) == Some("2.0"@)
            &&& match json::field(result, "error"@) {
                Some(e) => json::field(a, "error"@) == Some(e) && json::field(a, "result"@) is None,
                None => json::field(a, "result"@) == Some(result) && json::field(
                    a,
                    "error"@,
                ) is None,
            }
        }),
{
    reveal_strlit("jsonrpc");
    reveal_strlit("id");
    reveal_strlit("error");
    reveal_strlit("result");
    assert("jsonrpc"@.len() == 7 && "id"@.len() == 2 && "error"@.len() == 5 && "result"@.len()
        == 6);
    let e = server::envelope_value(id, result)->Obj_0;
    reveal_with_fuel(json::lookup, 5);
    assert(e.drop_first() =~= seq![e[1], e[2]]);
    assert(seq![e[1], e[2]].drop_first() =~= seq![e[2]]);
    assert(seq![e[2]].drop_first() =~= Seq::empty());
}

/// An error says its code and its message.
pub proof fn law_errors_say_their_code(code: int, message: Seq<char>)
    ensures
        ({
            let e = json::field(server::rpc_error(code, message), "error"@);
            &&& e is Some
            &&& json::field(e->0, "code"@) == Some(JsonV::Num(NumberV::Int(code)))
            &&& json::text_field(e->0, "message"@) == Some(message)
        }),
{
    reveal_strlit("code");
    reveal_strlit("message");
    assert("code"@.len() == 4 && "message"@.len() == 7);
    reveal_with_fuel(json::lookup, 3);
    let inner = seq![
        ("code"@, JsonV::Num(NumberV::Int(code))),
        ("message"@, JsonV::Str(message)),
    ];
    assert(inner.drop_first() =~= seq![inner[1]]);
}

// ---------------------------------------------------------------------------
// Calls of tools
// ---------------------------------------------------------------------------

proof fn lemma_tool_names()
    ensures
        "query_semantic"@.len() == 14 && "query_semantic"@[0] == 'q' && "query_semantic"@[6] == 's',
        "query_text"@.len() == 10,
        "query_reranked"@.len() == 14 && "query_reranked"@[0] == 'q' && "query_reranked"@[6]
            == 'r',
        "query_graph"@.len() == 11,
        "query_hybrid"@.len() == 12 && "query_hybrid"@[0] == 'q',
        "get_document"@.len() == 12 && "get_document"@[0] == 'g',
        "add_document"@.len() == 12 && "add_document"@[0] == 'a',
        "delete_document"@.len() == 15,
        "update_document_metadata"@.len() == 24,
        "list_documents"@.len() == 14 && "list_documents"@[0] == 'l',
        "stats"@.len() == 5,
{
    reveal_strlit("query_semantic");
    reveal_strlit("query_text");
    reveal_strlit("query_reranked");
    reveal_strlit("query_graph");
    reveal_strlit("query_hybrid");
    reveal_strlit("get_document");
    reveal_strlit("add_document");
    reveal_strlit("delete_document");
    reveal_strlit("update_document_metadata");
    reveal_strlit("list_documents");
    reveal_strlit("stats");
}

/// A document is fetched and deleted by the id that was given, and added with the
/// text that was given, under the hash of that text.
pub proof fn law_document_calls_do_what_they_say(
    c: SchemaConfig,
    args: JsonV,
    p: Plan,
    given: Seq<char>,
)
    requires
        given.len() > 0,
    ensures
        mcp::is_plan(c, "get_document"@, args, p) && json::text_field(args, "id"@) == Some(given)
            ==> (p matches Plan::Get(i) && i@ == given),
        mcp::is_plan(c, "delete_document"@, args, p) && json::text_field(args, "id"@) == Some(given)
            ==> (p matches Plan::Delete(i) && i@ == given),
        mcp::is_plan(c, "stats"@, args, p) ==> p is Stats,
        mcp::is_plan(c, "add_document"@, args, p) && json::text_field(args, "text"@) == Some(given)
            && json::field(args, "metadata"@) is None ==> (p matches Plan::Add(d) && d.raw_text@
            == given && d.id@ == hash::blake3_hex(given)),
        mcp::is_plan(c, "add_document"@, args, p) && p is Add ==> json::text_field(args, "text"@)
            is Some && p->Add_0.raw_text@ == json::text_field(args, "text"@)->0,
        mcp::is_plan(c, "update_document_metadata"@, args, p) ==> p is Change || p is Refuse,
        mcp::is_plan(c, "update_document_metadata"@, args, p) && p is Change ==> json::text_field(
            args,
            "id"@,
        ) == Some(p->Change_0.id@) && (p->Change_0.cascade <==> json::field(args, "cascade"@)
            != Some(JsonV::Bool(false))),
{
    lemma_tool_names();
    if json::field(args, "metadata"@) is None {
        assert(mcp::meta_of(args) =~= Seq::empty());
        assert(mcp::checked_meta(c, mcp::meta_of(args), 0) is Ok);
    }
}

/// What a search call asks for is what is searched for: its text, in its own way,
/// up to the limit given, which is ten where none is given and never above two
/// hundred. Without a text it is refused.
pub proof fn law_search_calls_do_what_they_say(
    c: SchemaConfig,
    name: Seq<char>,
    args: JsonV,
    p: Plan,
    t: Seq<char>,
)
    requires
        name == "query_semantic"@ || name == "query_text"@ || name == "query_reranked"@ || name
            == "query_graph"@ || name == "query_hybrid"@,
        mcp::is_plan(c, name, args, p),
        json::field(args, "filter"@) is None,
    ensures
        json::text_field(args, "text"@) is None ==> p is Refuse,
        json::text_field(args, "text"@) == Some(t) && t.len() > 0 ==> {
            &&& name == "query_graph"@ ==> (p matches Plan::Graph(a) && a.text@ == t
                && a.filter is None && limit_kept(args, a.limit as int) && (a.want_answer
                <==> json::field(args, "answer"@) == Some(JsonV::Bool(true))))
            &&& name == "query_hybrid"@ ==> (p matches Plan::Hybrid(a) && a.text@ == t
                && a.filter is None && limit_kept(args, a.limit as int) && (a.want_answer
                <==> json::field(args, "answer"@) == Some(JsonV::Bool(true))))
            &&& name == "query_text"@ ==> (p matches Plan::Search { kind, text, limit, filter }
                && kind == SearchKind::FullText && text@ == t && filter is None && limit_kept(
                args,
                limit as int,
            ))
            &&& name == "query_reranked"@ ==> (p matches Plan::Search { kind, text, limit, filter }
                && kind == SearchKind::Reranked && text@ == t && filter is None && limit_kept(
                args,
                limit as int,
            ))
            &&& name == "query_semantic"@ ==> (p matches Plan::Search { kind, text, limit, filter }
                && kind is Semantic && text@ == t && filter is None && limit_kept(
                args,
                limit as int,
            ))
        },
{
    lemma_tool_names();
    match p {
        Plan::Graph(a) => {
            assert(mcp::filter_view(a.filter) is None);
        },
        Plan::Hybrid(a) => {
            assert(mcp::filter_view(a.filter) is None);
        },
        Plan::Search { kind, text, limit, filter } => {
            assert(mcp::filter_view(filter) is None);
        },
        _ => {},
    }
}

/// Whether `n` is the limit that the arguments ask for.
pub open spec fn limit_kept(args: JsonV, n: int) -> bool {
    match json::field(args, "limit"@) {
        Some(JsonV::Num(NumberV::Int(k))) => if k < 0 {
            n == 10
        } else if k <= 200 {
            n == k
        } else {
            n == 200
        },
        None => n == 10,
        _ => 0 <= n <= 200,
    }
}

/// A list of documents is given page by page: from the offset that is asked for,
/// the first where none is, and as many as are asked for, twenty where none are,
/// and never more than two hundred.
pub proof fn law_lists_are_given_by_page(c: SchemaConfig, args: JsonV, p: Plan)
    requires
        mcp::is_plan(c, "list_documents"@, args, p),
    ensures
        p is List,
        p->offset == (match json::field(args, "offset"@) {
            Some(JsonV::Num(NumberV::Int(k))) => if k >= 0 {
                k
            } else {
                0
            },
            Some(JsonV::Num(NumberV::Big(k))) => k,
            _ => 0,
        }),
        json::field(args, "limit"@) is None ==> p->List_limit == 20,
        json::field(args, "limit"@) matches Some(JsonV::Num(NumberV::Int(k))) && 0 <= k <= 200
            ==> p->List_limit == json::field(args, "limit"@)->0->Num_0->Int_0,
        p->List_limit <= 200,
{
    lemma_tool_names();
}

/// A search by meaning gives chunks unless the call names another expansion, in
/// whatever case.
pub proof fn law_calls_choose_their_expansion(c: SchemaConfig, args: JsonV, p: Plan)
    requires
        mcp::is_plan(c, "query_semantic"@, args, p),
        p is Search,
    ensures
        json::text_field(args, "expand_to"@) is None ==> p->Search_kind == SearchKind::Semantic(
            ExpandTo::Chunk,
        ),
        json::text_field(args, "expand_to"@) matches Some(s) ==> {
            &&& text::lowered(s) == "chunk"@ ==> p->Search_kind == SearchKind::Semantic(
                ExpandTo::Chunk,
            )
            &&& text::lowered(s) == "auto"@ ==> p->Search_kind == SearchKind::Semantic(
                ExpandTo::Auto,
            )
            &&& text::lowered(s) == "parent"@ ==> p->Search_kind == SearchKind::Semantic(
                ExpandTo::Parent,
            )
        },
{
    lemma_tool_names();
    match json::text_field(args, "expand_to"@) {
        Some(s) => {
            law_expansions_are_named(s);
        },
        None => {},
    }
}

/// A search call with a filter searches under that filter, or is refused.
pub proof fn law_searches_keep_their_filter(
    c: SchemaConfig,
    name: Seq<char>,
    args: JsonV,
    p: Plan,
    e: Seq<(Seq<char>, JsonV)>,
)
    requires
        name == "query_semantic"@ || name == "query_text"@ || name == "query_reranked"@ || name
            == "query_graph"@ || name == "query_hybrid"@,
        mcp::is_plan(c, name, args, p),
        json::field(args, "filter"@) == Some(JsonV::Obj(e)),
        e.len() > 0,
    ensures
        p matches Plan::Search { kind, text, limit, filter } ==> is_filter(c, filter, e),
        p matches Plan::Graph(a) ==> is_filter(c, a.filter, e),
        p matches Plan::Hybrid(a) ==> is_filter(c, a.filter, e),
        p is Search || p is Graph || p is Hybrid || p is Refuse,
{
    lemma_tool_names();
    law_filters_go_along(c, e);
}

/// Whether a filter is the one that a JSON object says, with its SQL.
pub open spec fn is_filter(
    c: SchemaConfig,
    f: Option<mcp::Filter>,
    e: Seq<(Seq<char>, JsonV)>,
) -> bool {
    &&& f is Some
    &&& query::pred_of(JsonV::Obj(e)) == Ok::<query::PredV, Seq<char>>(f->0.pred@)
    &&& query::filter_sql(c, f->0.pred@) == Ok::<Seq<char>, Seq<char>>(f->0.sql@)
}

/// The context sizes of a call reach the graph as they were given.
pub proof fn law_context_sizes_are_kept(args: JsonV, key: Seq<char>, n: int)
    requires
        json::field(args, key) == Some(JsonV::Num(NumberV::Int(n))),
        0 <= n <= u32::MAX,
    ensures
        mcp::size_of(args, key) == Some(n as usize),
        key == "chunk_top_k"@ ==> mcp::params_of(args).chunk_top_k == Some(n as usize),
        key == "max_entity_tokens"@ ==> mcp::params_of(args).max_entity_tokens == Some(
            n as usize,
        ),
        key == "max_relation_tokens"@ ==> mcp::params_of(args).max_relation_tokens == Some(
            n as usize,
        ),
        key == "max_total_tokens"@ ==> mcp::params_of(args).max_total_tokens == Some(n as usize),
{
}

/// A change carries the values that were given, each under its field.
pub proof fn law_changes_carry_their_values(c: SchemaConfig, args: JsonV, u: mcp::Update)
    requires
        mcp::is_update(c, args, u),
        json::field(args, "metadata"@) is Some,
        json::field(args, "metadata"@)->0 is Obj,
        crate::write_laws::keys_differ(json::field(args, "metadata"@)->0->Obj_0),
    ensures
        ({
            let m = json::field(args, "metadata"@)->0->Obj_0;
            forall|i: int|
                0 <= i < m.len() ==> json::lookup(json::entries(u.values@), (#[trigger] m[i]).0)
                    == Some(m[i].1)
        }),
{
    let m = json::field(args, "metadata"@)->0->Obj_0;
    assert(mcp::meta_of(args) == m);
    crate::write_laws::law_metadata_is_kept(c, m);
}

/// The language of a new document is the one that is given, or markdown where its
/// path says so. On the command line a heading in the text says so too.
pub proof fn law_language_of_new_documents(
    given: Seq<char>,
    path: Seq<char>,
    name: Seq<char>,
    body: Seq<char>,
)
    ensures
        mcp::language_of(Some(given), path) == given,
        path == name + ".md"@ || path == name + ".markdown"@ ==> mcp::language_of(None, path)
            == "markdown"@ && cli::language_of(path, body) == "markdown"@,
        text::occurs(body, "## "@) ==> cli::language_of(path, body) == "markdown"@,
        !(".md"@.is_suffix_of(path)) && !(".markdown"@.is_suffix_of(path)) ==> mcp::language_of(
            None,
            path,
        ) == "plain"@,
{
    let a = ".md"@;
    let b = ".markdown"@;
    if path == name + a {
        assert(path.subrange(path.len() - a.len(), path.len() as int) =~= a);
        assert(a.is_suffix_of(path));
    }
    if path == name + b {
        assert(path.subrange(path.len() - b.len(), path.len() as int) =~= b);
        assert(b.is_suffix_of(path));
    }
}

/// No call that is in order is refused: a document whose metadata passes is added,
/// a change of a named document with values that pass is made, and a search with
/// a filter that compiles is carried out.
pub proof fn law_calls_in_order_are_carried_out(
    c: SchemaConfig,
    name: Seq<char>,
    args: JsonV,
    p: Plan,
)
    requires
        mcp::is_plan(c, name, args, p),
        json::text_field(args, "text"@) matches Some(t) ==> t.len() > 0,
        json::text_field(args, "id"@) matches Some(i) ==> i.len() > 0,
    ensures
        name == "add_document"@ && json::text_field(args, "text"@) is Some && metadata_passes(
            c,
            args,
        ) ==> p is Add,
        name == "update_document_metadata"@ && json::text_field(args, "id"@) is Some
            && metadata_passes(c, args) && (json::field(args, "metadata"@) matches Some(
            JsonV::Obj(m),
        ) && m.len() > 0) ==> p is Change,
        (name == "query_semantic"@ || name == "query_text"@ || name == "query_reranked"@ || name
            == "query_graph"@ || name == "query_hybrid"@) && json::text_field(args, "text"@) is Some
            && (json::field(args, "filter"@) matches Some(JsonV::Obj(e)) ==> query::pred_of(
            JsonV::Obj(e),
        ) is Ok && query::filter_sql(c, query::pred_of(JsonV::Obj(e))->Ok_0) is Ok) ==> !(
        p is Refuse),
{
    lemma_tool_names();
    match json::field(args, "metadata"@) {
        Some(JsonV::Obj(m)) => {
            if metadata_passes(c, args) {
                crate::write_laws::law_metadata_is_kept(c, m);
            }
        },
        _ => {
            assert(mcp::meta_of(args) =~= Seq::empty());
            assert(mcp::checked_meta(c, mcp::meta_of(args), 0) is Ok);
        },
    }
}

/// Whether the metadata of a call gives declared fields values that they can
/// store, each field once.
pub open spec fn metadata_passes(c: SchemaConfig, args: JsonV) -> bool {
    json::field(args, "metadata"@) matches Some(JsonV::Obj(m)) ==> {
        &&& crate::write_laws::keys_differ(m)
        &&& forall|i: int|
            0 <= i < m.len() ==> c.fields@.dom().contains((#[trigger] m[i]).0) && !(m[i].1 is Null)
                && store::cell_of(c.fields@[m[i].0], Some(m[i].1)) is Ok
    }
}

/// The filter of a call is compiled and goes along with it; one that does not fit
/// the schema refuses the call.
pub proof fn law_filters_go_along(c: SchemaConfig, e: Seq<(Seq<char>, JsonV)>)
    requires
        e.len() > 0,
    ensures
        ({
            let j = JsonV::Obj(e);
            match mcp::filter_of(c, Some(j)) {
                Ok(f) => f is Some && query::pred_of(j) == Ok::<query::PredV, Seq<char>>((f->0).0)
                    && query::filter_sql(c, (f->0).0) == Ok::<Seq<char>, Seq<char>>((f->0).1),
                Err(_) => query::pred_of(j) is Err || query::filter_sql(
                    c,
                    query::pred_of(j)->Ok_0,
                ) is Err,
            }
        }),
        mcp::filter_of(c, None) == Ok::<Option<(query::PredV, Seq<char>)>, Seq<char>>(None),
        mcp::filter_of(c, Some(JsonV::Obj(Seq::empty()))) == Ok::<
            Option<(query::PredV, Seq<char>)>,
            Seq<char>,
        >(None),
{
}

/// An expansion is named by a word, whatever its case: chunk, auto, and parent
/// for any other.
pub proof fn law_expansions_are_named(s: Seq<char>)
    ensures
        text::lowered(s) == "chunk"@ ==> query::expansion_named(s) == ExpandTo::Chunk,
        text::lowered(s) == "auto"@ ==> query::expansion_named(s) == ExpandTo::Auto,
        text::lowered(s) == "parent"@ ==> query::expansion_named(s) == ExpandTo::Parent,
{
    reveal_strlit("chunk");
    reveal_strlit("auto");
    reveal_strlit("parent");
    assert("chunk"@.len() == 5 && "auto"@.len() == 4 && "parent"@.len() == 6);
}

/// Turning a text into small letters changes capitals of ASCII only, one for one.
pub proof fn law_small_letters(s: Seq<char>, i: int)
    requires
        0 <= i < s.len(),
    ensures
        text::lowered(s).len() == s.len(),
        'A' <= s[i] <= 'Z' ==> text::lowered(s)[i] as u32 == s[i] as u32 + 32,
        !('A' <= s[i] <= 'Z') ==> text::lowered(s)[i] == s[i],
{
}

// ---------------------------------------------------------------------------
// Schemas
// ---------------------------------------------------------------------------

/// Whether a vector field is one that a schema may have.
pub open spec fn good_vector(c: SchemaConfig, i: int) -> bool {
    let v = c.vector.fields@[i];
    &&& forall|j: int| 0 <= j < i ==> (#[trigger] c.vector.fields@[j]).name@ != v.name@
    &&& !schema::is_reserved(v.name@)
    &&& !c.fields@.dom().contains(v.name@)
    &&& 0 < v.dim <= 100_000
    &&& v.metric@ == "cosine"@ || v.metric@ == "l2"@ || v.metric@ == "dot"@
    &&& v.index@ == "none"@ || v.index@ == "ivf_pq"@ || v.index@ == "ivf_flat"@
    &&& v.source@ == "raw_text"@ || (c.fields@.dom().contains(v.source@)
        && c.fields@[v.source@].kind@ == "text"@)
}

/// Whether a scalar field is one that a schema may have.
pub open spec fn good_field(c: SchemaConfig, i: int) -> bool {
    let k = c.fields.vals@[i].kind@;
    &&& !schema::is_reserved(c.fields.keys@[i]@)
    &&& k == "string"@ || k == "text"@ || k == "bool"@ || k == "int64"@ || k == "float32"@ || k
        == "timestamp"@ || k == "list<string>"@
    &&& !(k == "text"@ && c.fields.vals@[i].index)
}

/// The columns that every row has are reserved, and no other name is.
pub proof fn law_columns_of_every_row_are_reserved(name: Seq<char>)
    ensures
        schema::is_reserved(name) <==> name == "id"@ || name == "raw_text"@ || name
            == "source_path"@ || name == "source_type"@ || name == "chunk_level"@ || name
            == "chunk_index"@ || name == "parent_doc_id"@,
{
    let r = schema::RESERVED_COLUMNS@;
    assert(r[0]@ == "id"@);
    assert(r[1]@ == "raw_text"@);
    assert(r[2]@ == "chunk_level"@);
    assert(r[3]@ == "chunk_index"@);
    assert(r[4]@ == "parent_doc_id"@);
    assert(r[5]@ == "source_path"@);
    assert(r[6]@ == "source_type"@);
}

/// A schema is accepted exactly if its vector fields and its scalar fields are
/// good and this build has the plugins it names.
pub proof fn law_exactly_good_schemas_are_accepted(c: SchemaConfig, f: BuildFeatures)
    ensures
        schema::schema_error(c, f) is None <==> {
            &&& forall|i: int| 0 <= i < c.vector.fields@.len() ==> #[trigger] good_vector(c, i)
            &&& forall|i: int| 0 <= i < c.fields.keys@.len() ==> #[trigger] good_field(c, i)
            &&& !(c.plugins.rerank is Some && c.plugins.rerank->0 is Onnx && !f.onnx)
            &&& !(c.plugins.graph is Some && c.plugins.graph->0 is LightragEmbedded
                && !f.lightrag_embedded)
        },
{
    lemma_vectors_good(c, 0);
    lemma_fields_good(c, 0);
}

proof fn lemma_vectors_good(c: SchemaConfig, i: int)
    requires
        0 <= i <= c.vector.fields@.len(),
    ensures
        schema::vectors_error(c, i) is None <==> forall|k: int|
            i <= k < c.vector.fields@.len() ==> #[trigger] good_vector(c, k),
    decreases c.vector.fields@.len() - i,
{
    if i < c.vector.fields@.len() {
        lemma_vectors_good(c, i + 1);
        assert(schema::vector_error(c, i) is None <==> good_vector(c, i));
    }
}

proof fn lemma_fields_good(c: SchemaConfig, i: int)
    requires
        0 <= i <= c.fields.keys@.len(),
    ensures
        schema::fields_error(c, i) is None <==> forall|k: int|
            i <= k < c.fields.keys@.len() ==> #[trigger] good_field(c, k),
    decreases c.fields.keys@.len() - i,
{
    if i < c.fields.keys@.len() {
        lemma_fields_good(c, i + 1);
        assert(schema::field_error(c, i) is None <==> good_field(c, i));
    }
}

/// Whether `x` is one of the first `n` fields and marked as a key.
pub open spec fn marked_key(c: SchemaConfig, n: int, x: Seq<char>) -> bool {
    exists|i: int|
        0 <= i < n && c.fields.vals@[i].replace_key && #[trigger] c.fields.keys@[i]@ == x
}

/// Whether `x` is one of the first `n` fields and of the type text.
pub open spec fn text_key(c: SchemaConfig, n: int, x: Seq<char>) -> bool {
    exists|i: int|
        0 <= i < n && c.fields.vals@[i].kind@ == "text"@ && #[trigger] c.fields.keys@[i]@ == x
}

/// The keys by which old versions are found are exactly the fields marked so, and
/// the fields that are searched for words exactly those of the type text.
pub proof fn law_marked_fields_are_named(c: SchemaConfig, n: int)
    requires
        0 <= n <= c.fields.keys@.len(),
    ensures
        forall|i: int|
            0 <= i < n && (#[trigger] c.fields.vals@[i]).replace_key ==> schema::replace_key_names(
                c,
                n,
            ).contains(c.fields.keys@[i]@),
        forall|k: int|
            0 <= k < schema::replace_key_names(c, n).len() ==> marked_key(
                c,
                n,
                #[trigger] schema::replace_key_names(c, n)[k],
            ),
        forall|i: int|
            0 <= i < n && (#[trigger] c.fields.vals@[i]).kind@ == "text"@
                ==> schema::text_field_names(c, n).contains(c.fields.keys@[i]@),
        forall|k: int|
            0 <= k < schema::text_field_names(c, n).len() ==> text_key(
                c,
                n,
                #[trigger] schema::text_field_names(c, n)[k],
            ),
    decreases n,
{
    if n > 0 {
        law_marked_fields_are_named(c, n - 1);
        let a = schema::replace_key_names(c, n - 1);
        let b = schema::replace_key_names(c, n);
        let x = schema::text_field_names(c, n - 1);
        let y = schema::text_field_names(c, n);
        let key = c.fields.keys@[n - 1]@;
        assert forall|i: int|
            0 <= i < n && (#[trigger] c.fields.vals@[i]).replace_key implies b.contains(
            c.fields.keys@[i]@,
        ) by {
            if i < n - 1 {
                assert(b[a.index_of(c.fields.keys@[i]@)] == c.fields.keys@[i]@);
            } else {
                assert(b[a.len() as int] == key);
            }
        }
        assert forall|k: int| 0 <= k < b.len() implies marked_key(c, n, #[trigger] b[k]) by {
            if k < a.len() {
                assert(b[k] == a[k]);
                assert(marked_key(c, n - 1, a[k]));
                let i = choose|i: int|
                    0 <= i < n - 1 && c.fields.vals@[i].replace_key
                        && #[trigger] c.fields.keys@[i]@ == a[k];
                assert(c.fields.keys@[i]@ == b[k]);
            } else {
                assert(c.fields.keys@[n - 1]@ == b[k]);
            }
        }
        assert forall|i: int|
            0 <= i < n && (#[trigger] c.fields.vals@[i]).kind@ == "text"@ implies y.contains(
            c.fields.keys@[i]@,
        ) by {
            if i < n - 1 {
                assert(y[x.index_of(c.fields.keys@[i]@)] == c.fields.keys@[i]@);
            } else {
                assert(y[x.len() as int] == key);
            }
        }
        assert forall|k: int| 0 <= k < y.len() implies text_key(c, n, #[trigger] y[k]) by {
            if k < x.len() {
                assert(y[k] == x[k]);
                assert(text_key(c, n - 1, x[k]));
                let i = choose|i: int|
                    0 <= i < n - 1 && c.fields.vals@[i].kind@ == "text"@
                        && #[trigger] c.fields.keys@[i]@ == x[k];
                assert(c.fields.keys@[i]@ == y[k]);
            } else {
                assert(c.fields.keys@[n - 1]@ == y[k]);
            }
        }
    }
}

// ---------------------------------------------------------------------------
// Settings
// ---------------------------------------------------------------------------

/// The chunk size is within its bounds whatever is set: the nearest bound for a
/// number outside them, and the default where no number is set. The overlap is at
/// most half of it.
pub proof fn law_chunk_settings_stay_in_bounds(value: Option<Seq<char>>, size: nat)
    ensures
        64 <= chunker::chunk_size_of(value) <= 8192,
        chunker::setting(value) is None ==> chunker::chunk_size_of(value) == 512,
        chunker::setting(value) matches Some(n) ==> {
            &&& n <= 64 ==> chunker::chunk_size_of(value) == 64
            &&& n >= 8192 ==> chunker::chunk_size_of(value) == 8192
            &&& 64 <= n <= 8192 ==> chunker::chunk_size_of(value) == n
        },
        chunker::overlap_of(size, value) <= size / 2,
        chunker::setting(value) matches Some(n) ==> n <= size / 2 ==> chunker::overlap_of(
            size,
            value,
        ) == n,
        chunker::setting(value) is None && size >= 100 ==> chunker::overlap_of(size, value) == 50,
{
}

/// Whether what a setting names is set.
pub open spec fn is_set(m: Map<Seq<char>, Seq<char>>, named: Option<Seq<char>>) -> bool {
    named matches Some(v) ==> m.dom().contains(v)
}

/// Whether a model lies where a setting says.
pub open spec fn is_there(models: Seq<Seq<char>>, dir: Option<Seq<char>>) -> bool {
    dir matches Some(d) ==> models.contains(d)
}

/// A configuration is accepted exactly if every key it names is set, every model
/// it names is there, a reranker over HTTP has an endpoint, and the chunk size is
/// within its bounds.
pub proof fn law_exactly_good_configurations_are_accepted(
    c: DeploymentConfig,
    m: Map<Seq<char>, Seq<char>>,
    onnx: bool,
    models: Seq<Seq<char>>,
)
    ensures
        config::config_error(c, m, onnx, models) is None <==> {
            &&& match c.embedding@ {
                EmbeddingV::Http { api_key_env, .. } => is_set(m, api_key_env),
                EmbeddingV::Onnx { dir } => onnx && is_there(models, dir),
            }
            &&& match c.rerank@ {
                RerankV::Off => true,
                RerankV::Onnx { dir } => onnx && is_there(models, dir),
                RerankV::Tei { endpoint, api_key_env, .. } => endpoint.len() > 0 && is_set(
                    m,
                    api_key_env,
                ),
                RerankV::Openai { endpoint, api_key_env, .. } => endpoint.len() > 0 && is_set(
                    m,
                    api_key_env,
                ),
            }
            &&& is_set(m, store::opt_view(c.server.token_env))
            &&& c.chunk.size matches Some(n) ==> 64 <= n <= 8192
        },
{
}

/// A backend that the environment names is taken with what the environment says
/// of it: address and model of embeddings, and the address of a reranker. Where
/// it names none, the file is followed.
pub proof fn law_named_backends_are_taken(c: DeploymentConfig, m: Map<Seq<char>, Seq<char>>)
    requires
        config::overridden(c, m).error is None,
    ensures
        config::var(m, "SEMDOC_EMBEDDER_BACKEND"@) == Some("http"@) ==> {
            &&& config::overridden(c, m).embedding matches EmbeddingV::Http { url, model, .. }
            &&& config::var(m, "SEMDOC_EMBEDDER_HTTP_URL"@) == Some(url)
            &&& config::var(m, "SEMDOC_EMBEDDER_HTTP_MODEL"@) == Some(model)
        },
        config::var(m, "SEMDOC_EMBEDDER_BACKEND"@) == Some("onnx"@) ==> {
            &&& config::overridden(c, m).embedding matches EmbeddingV::Onnx { dir }
            &&& dir == config::var(m, "SEMDOC_EMBEDDER_DIR"@)
        },
        config::var(m, "SEMDOC_RERANKER_BACKEND"@) == Some("tei"@) ==> {
            &&& config::overridden(c, m).rerank matches RerankV::Tei { endpoint, .. }
            &&& config::var(m, "SEMDOC_RERANKER_HTTP_URL"@) == Some(endpoint)
        },
        config::var(m, "SEMDOC_RERANKER_BACKEND"@) == Some("openai"@) ==> {
            &&& config::overridden(c, m).rerank matches RerankV::Openai { endpoint, model, .. }
            &&& config::var(m, "SEMDOC_RERANKER_HTTP_URL"@) == Some(endpoint)
            &&& config::var(m, "SEMDOC_RERANKER_MODEL"@) == model
        },
        config::var(m, "SEMDOC_EMBEDDER_BACKEND"@) is None && c.embedding@ is Http ==> {
            &&& config::overridden(c, m).embedding is Http
            &&& config::overridden(c, m).embedding->Http_url == c.embedding@->Http_url
            &&& config::overridden(c, m).embedding->Http_model == c.embedding@->Http_model
        },
        config::var(m, "SEMDOC_RERANKER_BACKEND"@) is None && !(c.rerank@ is Onnx)
            ==> config::overridden(c, m).rerank == c.rerank@,
{
    config::lemma_names();
    reveal_strlit("tei");
    reveal_strlit("openai");
    assert("tei"@.len() == 3 && "openai"@.len() == 6);
    assert(text::lowered("tei"@) =~= "tei"@);
    assert(text::lowered("openai"@) =~= "openai"@);
    reveal_strlit("http");
    reveal_strlit("onnx");
    assert("http"@.len() == 4 && "onnx"@.len() == 4);
    assert("http"@[0] == 'h' && "onnx"@[0] == 'o');
    assert(text::lowered("http"@) =~= "http"@);
    assert(text::lowered("onnx"@) =~= "onnx"@);
}

/// An environment that names a backend and all that it needs is accepted.
pub proof fn law_complete_environments_are_accepted(
    c: DeploymentConfig,
    m: Map<Seq<char>, Seq<char>>,
)
    requires
        !m.dom().contains("SEMDOC_CHUNK_SIZE"@),
        !m.dom().contains("SEMDOC_CHUNK_OVERLAP"@),
        !m.dom().contains("SEMDOC_EMBEDDER_HTTP_TIMEOUT"@),
        !m.dom().contains("SEMDOC_RERANKER_HTTP_TIMEOUT"@),
        config::var(m, "SEMDOC_EMBEDDER_BACKEND"@) is None || (config::var(
            m,
            "SEMDOC_EMBEDDER_BACKEND"@,
        ) == Some("http"@) && m.dom().contains("SEMDOC_EMBEDDER_HTTP_URL"@) && m.dom().contains(
            "SEMDOC_EMBEDDER_HTTP_MODEL"@,
        )) || config::var(m, "SEMDOC_EMBEDDER_BACKEND"@) == Some("onnx"@),
        config::var(m, "SEMDOC_RERANKER_BACKEND"@) is None || ((config::var(
            m,
            "SEMDOC_RERANKER_BACKEND"@,
        ) == Some("tei"@) || config::var(m, "SEMDOC_RERANKER_BACKEND"@) == Some("openai"@))
            && m.dom().contains("SEMDOC_RERANKER_HTTP_URL"@)) || config::var(
            m,
            "SEMDOC_RERANKER_BACKEND"@,
        ) == Some("onnx"@),
    ensures
        config::overridden(c, m).error is None,
{
    config::lemma_names();
    reveal_strlit("tei");
    reveal_strlit("openai");
    reveal_strlit("http");
    reveal_strlit("onnx");
    assert("tei"@.len() == 3 && "openai"@.len() == 6 && "http"@.len() == 4 && "onnx"@.len() == 4);
    assert("http"@[0] == 'h' && "onnx"@[0] == 'o');
    assert(text::lowered("tei"@) =~= "tei"@);
    assert(text::lowered("openai"@) =~= "openai"@);
    assert(text::lowered("http"@) =~= "http"@);
    assert(text::lowered("onnx"@) =~= "onnx"@);
}

/// What the environment says is taken as it is said: a size, an overlap, an
/// address and the settings of TLS.
pub proof fn law_values_of_the_environment_are_taken(
    c: DeploymentConfig,
    m: Map<Seq<char>, Seq<char>>,
    n: usize,
)
    requires
        config::overridden(c, m).error is None,
    ensures
        config::var(m, "SEMDOC_CHUNK_SIZE"@) == Some(text::decimal(n as nat)) ==> config::overridden(
            c,
            m,
        ).size == Some(n),
        config::var(m, "SEMDOC_CHUNK_OVERLAP"@) == Some(text::decimal(n as nat))
            ==> config::overridden(c, m).overlap == Some(n),
        config::var(m, "SEMDOC_CHUNK_SIZE"@) is None ==> config::overridden(c, m).size
            == c.chunk.size,
        config::var(m, "SEMDOC_CHUNK_OVERLAP"@) is None ==> config::overridden(c, m).overlap
            == c.chunk.overlap,
        config::var(m, "SEMDOC_LISTEN"@) is None ==> config::overridden(c, m).listen
            == store::opt_view(c.server.listen),
        config::var(m, "SEMDOC_TLS_INSECURE"@) == Some("1"@) ==> config::overridden(
            c,
            m,
        ).tls.insecure,
        config::var(m, "SEMDOC_TLS_INSECURE"@) == Some("true"@) ==> config::overridden(
            c,
            m,
        ).tls.insecure,
        config::var(m, "SEMDOC_TLS_INSECURE"@) == Some("0"@) ==> !config::overridden(
            c,
            m,
        ).tls.insecure,
        config::filled_var(m, "SEMDOC_CA_BUNDLE"@) is Some ==> config::overridden(
            c,
            m,
        ).tls.ca_bundle == config::filled_var(m, "SEMDOC_CA_BUNDLE"@),
{
    config::lemma_names();
    text::law_decimal_reads_back(n as nat);
    reveal_strlit("1");
    reveal_strlit("0");
    reveal_strlit("true");
    assert("1"@.len() == 1 && "0"@.len() == 1 && "true"@.len() == 4);
    assert("1"@[0] == '1' && "0"@[0] == '0');
    assert(text::lowered("true"@) =~= "true"@);
    assert(text::lowered("0"@).len() == 1);
}

/// The file that is asked for comes before the one that the environment names,
/// and that before the one in the working directory. A file that cannot be read
/// or understood is an error, and so is one that is asked for and missing.
pub proof fn law_files_are_found_in_order(
    path: Option<Seq<char>>,
    m: Map<Seq<char>, Seq<char>>,
    file: config::ConfigFile,
)
    ensures
        path matches Some(p) ==> config::file_name(path, m) == p,
        path is None && m.dom().contains("SEMDOC_CONFIG"@) ==> config::file_name(path, m)
            == m["SEMDOC_CONFIG"@],
        path is None && !m.dom().contains("SEMDOC_CONFIG"@) ==> config::file_name(path, m)
            == "Config.toml"@,
        config::file_error(path, file, m) is None <==> file is Parsed || (file is Missing
            && path is None),
{
}

/// A number in a variable is read as that number; what is no number is an error.
pub proof fn law_numbers_of_variables(
    m: Map<Seq<char>, Seq<char>>,
    name: Seq<char>,
    default: u64,
    n: u64,
)
    ensures
        !m.dom().contains(name) ==> config::number_var(m, name, default) == Ok::<u64, Seq<char>>(
            default,
        ),
        m.dom().contains(name) && m[name] == text::decimal(n as nat) ==> config::number_var(
            m,
            name,
            default,
        ) == Ok::<u64, Seq<char>>(n),
        m.dom().contains(name) && m[name].len() > 0 && 'a' <= m[name][0] <= 'z'
            ==> config::number_var(m, name, default) is Err,
{
    text::law_decimal_reads_back(n as nat);
    if m.dom().contains(name) && m[name].len() > 0 && 'a' <= m[name][0] <= 'z' {
        let v = m[name];
        assert(text::unsigned_part(v, false) == v);
        assert(!text::is_digit(v[0]));
    }
}

// ---------------------------------------------------------------------------
// The command line
// ---------------------------------------------------------------------------

proof fn lemma_cut(m: Seq<char>, sep: char, i: int, n: int)
    requires
        0 <= i <= n < m.len(),
        m[n] == sep,
        forall|j: int| 0 <= j < n ==> #[trigger] m[j] != sep,
    ensures
        text::cut_from(m, sep, i) == Some((m.take(n), m.skip(n + 1))),
    decreases n - i,
{
    if i < n {
        lemma_cut(m, sep, i + 1, n);
    }
}

/// `KEY=VALUE` gives the field KEY the value VALUE, read as the type of the field:
/// a text as it is, an integer, a truth value, or a list of texts between bars.
pub proof fn law_values_are_read_as_their_type(
    c: SchemaConfig,
    key: Seq<char>,
    value: Seq<char>,
)
    requires
        c.fields@.dom().contains(key),
        forall|i: int| 0 <= i < key.len() ==> #[trigger] key[i] != '=',
    ensures
        ({
            let r = cli::meta_entry(c, key.push('=') + value);
            let t = c.fields@[key].kind@;
            &&& r is Ok ==> (r->Ok_0).0 == key
            &&& t == "string"@ || t == "text"@ ==> r == Ok::<(Seq<char>, JsonV), Seq<char>>(
                (key, JsonV::Str(value)),
            )
            &&& t == "bool"@ ==> r == Ok::<(Seq<char>, JsonV), Seq<char>>(
                (key, JsonV::Bool(value == "true"@ || value == "1"@)),
            )
        }),
{
    reveal_strlit("string");
    reveal_strlit("text");
    reveal_strlit("bool");
    assert("string"@.len() == 6 && "text"@.len() == 4 && "bool"@.len() == 4);
    assert("text"@[0] == 't' && "bool"@[0] == 'b');
    let m = key.push('=') + value;
    assert forall|j: int| 0 <= j < key.len() implies #[trigger] m[j] != '=' by {
        assert(m[j] == key[j]);
    }
    lemma_cut(m, '=', 0, key.len() as int);
    assert(m.take(key.len() as int) =~= key);
    assert(m.skip(key.len() as int + 1) =~= value);
}

proof fn lemma_char_parts_join(s: Seq<char>, sep: char, start: int, i: int)
    requires
        0 <= start <= i <= s.len(),
    ensures
        text::parts_from(s, sep, start, i).len() > 0,
        text::joined(text::parts_from(s, sep, start, i), seq![sep]) == s.skip(start),
    decreases s.len() - i,
{
    if i >= s.len() {
        assert(s.subrange(start, s.len() as int) =~= s.skip(start));
    } else if s[i] == sep {
        let rest = text::parts_from(s, sep, i + 1, i + 1);
        lemma_char_parts_join(s, sep, i + 1, i + 1);
        chunker_laws::lemma_join_front(s.subrange(start, i), rest, seq![sep]);
        assert(s.subrange(start, i) + seq![sep] + s.skip(i + 1) =~= s.skip(start));
    } else {
        lemma_char_parts_join(s, sep, start, i + 1);
    }
}

proof fn lemma_char_parts_pure(s: Seq<char>, sep: char, start: int, i: int, k: int, j: int)
    requires
        0 <= start <= i <= s.len(),
        forall|j: int| start <= j < i ==> #[trigger] s[j] != sep,
        0 <= k < text::parts_from(s, sep, start, i).len(),
        0 <= j < text::parts_from(s, sep, start, i)[k].len(),
    ensures
        text::parts_from(s, sep, start, i)[k][j] != sep,
    decreases s.len() - i,
{
    let ps = text::parts_from(s, sep, start, i);
    if i >= s.len() {
        assert(ps[0][j] == s[start + j]);
    } else if s[i] == sep {
        if k == 0 {
            assert(ps[0][j] == s[start + j]);
        } else {
            assert(ps[k] == text::parts_from(s, sep, i + 1, i + 1)[k - 1]);
            lemma_char_parts_pure(s, sep, i + 1, i + 1, k - 1, j);
        }
    } else {
        lemma_char_parts_pure(s, sep, start, i + 1, k, j);
    }
}

/// A list on the command line has an item for each part between bars, in their
/// order, without white space around it; the parts with bars between them are
/// the value again.
pub proof fn law_lists_are_split_at_bars(value: Seq<char>) -> (parts: Seq<Seq<char>>)
    ensures
        text::joined(parts, seq!['|']) == value,
        forall|i: int, j: int|
            0 <= i < parts.len() && 0 <= j < parts[i].len() ==> #[trigger] parts[i][j] != '|',
        cli::list_value(value) is Arr,
        cli::list_value(value)->Arr_0.len() == parts.len(),
        forall|i: int|
            0 <= i < parts.len() ==> #[trigger] cli::list_value(value)->Arr_0[i] == JsonV::Str(
                text::trimmed(parts[i]),
            ),
{
    let parts = text::parts(value, '|');
    lemma_char_parts_join(value, '|', 0, 0);
    assert(value.skip(0) =~= value);
    assert forall|i: int, j: int| 0 <= i < parts.len() && 0 <= j < parts[i].len() implies
    #[trigger] parts[i][j] != '|' by {
        lemma_char_parts_pure(value, '|', 0, 0, i, j);
    }
    parts
}

/// The first vector field that embeds on write and whose dimension is not that of
/// the embedder is the one that is complained about; where there is none, all
/// fit.
pub proof fn law_misfits_are_found(c: SchemaConfig, actual: usize, n: int)
    requires
        0 <= n <= c.vector.fields@.len(),
    ensures
        cli::misfit(c, actual, n) is None <==> forall|i: int|
            0 <= i < n && (#[trigger] c.vector.fields@[i]).auto_embed ==> c.vector.fields@[i].dim
                == actual,
        cli::misfit(c, actual, n) matches Some(i) ==> 0 <= i < n && c.vector.fields@[i].auto_embed
            && c.vector.fields@[i].dim != actual,
    decreases n,
{
    if n > 0 {
        law_misfits_are_found(c, actual, n - 1);
        if cli::misfit(c, actual, n) is None {
            assert forall|i: int| 0 <= i < n && (#[trigger] c.vector.fields@[i]).auto_embed implies c.vector.fields@[i].dim
                == actual by {}
        } else {
            let i = cli::misfit(c, actual, n)->0;
            assert(c.vector.fields@[i].auto_embed);
        }
    }
}

// ---------------------------------------------------------------------------
// Migration
// ---------------------------------------------------------------------------

proof fn lemma_column_at(names: Seq<Seq<char>>, name: Seq<char>, i: int)
    requires
        0 <= i <= names.len(),
    ensures
        migrate::column_at(names, name, i) is None <==> forall|k: int|
            i <= k < names.len() ==> #[trigger] names[k] != name,
        migrate::column_at(names, name, i) matches Some(k) ==> i <= k < names.len() && names[k]
            == name,
    decreases names.len() - i,
{
    if i < names.len() {
        lemma_column_at(names, name, i + 1);
    }
}

/// The columns of a target are taken from the source by their names, one for one
/// and in the order of the target; a column that the source lacks is an error,
/// and nothing else is.
pub proof fn law_columns_are_taken_by_name(
    target: Seq<Seq<char>>,
    source: Seq<Seq<char>>,
    n: nat,
)
    requires
        n <= target.len(),
    ensures
        migrate::columns_taken(target, source, n) is Ok <==> forall|i: int|
            0 <= i < n ==> source.contains(#[trigger] target[i]),
        migrate::columns_taken(target, source, n) is Ok ==> {
            let v = migrate::columns_taken(target, source, n)->Ok_0;
            v.len() == n && forall|i: int|
                0 <= i < n ==> 0 <= #[trigger] v[i] < source.len() && source[v[i]] == target[i]
        },
    decreases n,
{
    if n > 0 {
        law_columns_are_taken_by_name(target, source, (n - 1) as nat);
        lemma_column_at(source, target[n - 1], 0);
        match migrate::columns_taken(target, source, (n - 1) as nat) {
            Ok(before) => {
                match migrate::column_at(source, target[n - 1], 0) {
                    Some(k) => {
                        assert(source[k] == target[n - 1]);
                        assert forall|i: int| 0 <= i < n implies source.contains(
                            #[trigger] target[i],
                        ) by {}
                        let v = before.push(k);
                        assert forall|i: int| 0 <= i < n implies 0 <= #[trigger] v[i]
                            < source.len() && source[v[i]] == target[i] by {
                            if i < n - 1 {
                                assert(v[i] == before[i]);
                            }
                        }
                    },
                    None => {
                        if source.contains(target[n - 1]) {
                            assert(source[source.index_of(target[n - 1])] == target[n - 1]);
                        }
                    },
                }
            },
            Err(_) => {
                let i = choose|i: int| 0 <= i < n - 1 && !source.contains(#[trigger] target[i]);
                assert(!source.contains(target[i]));
            },
        }
    }
}

/// A vector is rebuilt from its own numbers: those of its row, from the offset on.
pub proof fn law_vectors_are_rebuilt(
    values: Seq<u32>,
    present: Seq<bool>,
    offset: nat,
    len: nat,
    row: int,
    j: int,
)
    requires
        0 <= row < present.len(),
        (offset + present.len()) * len <= values.len(),
        0 <= j < len,
    ensures
        migrate::vector_at(values, present, offset, len, row) is Some <==> present[row],
        migrate::vector_at(values, present, offset, len, row) matches Some(v) ==> v.len() == len
            && v[j] == values[(offset + row) * len + j],
{
    assert((offset + row) * len + len <= (offset + present.len()) * len) by (nonlinear_arith)
        requires
            0 <= row < present.len(),
            0 <= len,
            0 <= offset,
    ;
    assert((offset + row) * len >= 0) by (nonlinear_arith)
        requires
            0 <= row,
            0 <= len,
            0 <= offset,
    ;
}

} // verus!
