//! The transports: who may call, which session a call belongs to, how a call
//! is routed and how its answer is framed.

use crate::dict::Dict;
use crate::hash;
use crate::json;
use crate::json::{Json, JsonV, NumberV};
use crate::mcp;
use crate::schema::SchemaConfig;
use crate::store;
use crate::store::InputDoc;
use crate::text;
use vstd::prelude::*;

verus! {

broadcast use vstd::string::group_string_axioms;

// ---------------------------------------------------------------------------
// Who may call
// ---------------------------------------------------------------------------

/// The token of an authorization header, as it stands.
pub open spec fn raw_bearer(header: Option<Seq<char>>) -> Option<Seq<char>> {
    match header {
        Some(h) => text::after_prefix(h, "Bearer "@),
        None => None,
    }
}

/// Whether a REST call is allowed: no token is set, or the call brings it.
pub fn auth_ok(token: Option<&str>, header: Option<&str>) -> (r: bool)
    ensures
        r == (token is None || raw_bearer(crate::chunker::opt_text(header)) == Some(token->0@)),
{
    match token {
        None => true,
        Some(t) => match header {
            None => false,
            Some(h) => match text::strip_prefix(h, "Bearer ") {
                Some(b) => text::same(b.as_str(), t),
                None => false,
            },
        },
    }
}

/// The token of an authorization header, without white space around it.
pub open spec fn bearer(header: Option<Seq<char>>) -> Option<Seq<char>> {
    match raw_bearer(header) {
        Some(t) => Some(text::trimmed(t)),
        None => None,
    }
}

/// The token of an authorization header.
pub fn extract_bearer(header: Option<&str>) -> (r: Option<String>)
    ensures
        store::opt_view(r) == bearer(crate::chunker::opt_text(header)),
{
    match header {
        None => None,
        Some(h) => match text::strip_prefix(h, "Bearer ") {
            Some(t) => Some(text::trim(t.as_str())),
            None => None,
        },
    }
}

/// Whether two tokens are the same. All bytes are looked at, so that the time
/// taken does not tell where they differ.
pub fn token_matches(received: &str, expected: &str) -> (r: bool)
    ensures
        r == (received@ == expected@),
{
    let x: &[u8] = received.as_bytes();
    let y: &[u8] = expected.as_bytes();
    if x.len() != y.len() {
        return false;
    }
    let mut acc: u8 = 0;
    let mut i: usize = 0;
    while i < x.len()
        invariant
            x@.len() == y@.len(),
            i <= x@.len(),
            (acc == 0) == (forall|k: int| 0 <= k < i ==> x@[k] == y@[k]),
        decreases x@.len() - i,
    {
        let a: u8 = x[i];
        let b: u8 = y[i];
        proof {
            assert(((acc | (a ^ b)) == 0) == (acc == 0 && a == b)) by (bit_vector);
        }
        acc = acc | (a ^ b);
        i = i + 1;
    }
    proof {
        if acc == 0 {
            assert(x@ =~= y@);
            text::lemma_encoding_injective(received@, expected@);
        }
    }
    acc == 0
}

/// Why a call of the tool interface is not allowed, if it is not. Without a
/// configured token no call is.
pub open spec fn refusal(expected: Option<Seq<char>>, header: Option<Seq<char>>) -> Option<
    Seq<char>,
> {
    match expected {
        None => Some("SEMDOC_MCP_TOKEN not set; /mcp disabled"@),
        Some(t) => if bearer(header) == Some(t) {
            None
        } else {
            Some("Invalid or missing bearer token"@)
        },
    }
}

/// Checks that a call of the tool interface is allowed.
pub fn authorize(expected: Option<&str>, header: Option<&str>) -> (r: Result<(), String>)
    ensures
        (match r {
            Ok(_) => refusal(
                crate::chunker::opt_text(expected),
                crate::chunker::opt_text(header),
            ) is None,
            Err(e) => refusal(
                crate::chunker::opt_text(expected),
                crate::chunker::opt_text(header),
            ) == Some(e@),
        }),
{
    match expected {
        None => Err("SEMDOC_MCP_TOKEN not set; /mcp disabled".to_string()),
        Some(t) => match extract_bearer(header) {
            Some(b) => if token_matches(b.as_str(), t) {
                Ok(())
            } else {
                Err("Invalid or missing bearer token".to_string())
            },
            None => Err("Invalid or missing bearer token".to_string()),
        },
    }
}

/// Without a configured token every call of the tool interface is refused.
pub proof fn law_no_token_refuses_all(header: Option<Seq<char>>)
    ensures
        refusal(None, header) is Some,
{
}

// ---------------------------------------------------------------------------
// Sessions
// ---------------------------------------------------------------------------

/// A session of the tool interface. Times are in seconds of a clock that never
/// goes back.
#[derive(Debug, PartialEq, Eq)]
pub struct Session {
    pub initialized: bool,
    pub protocol_version: String,
    pub created_at: u64,
    pub last_seen: u64,
}

/// The model of a session.
pub struct SessionV {
    pub initialized: bool,
    pub protocol_version: Seq<char>,
    pub created_at: u64,
    pub last_seen: u64,
}

impl View for Session {
    type V = SessionV;

    open spec fn view(&self) -> SessionV {
        SessionV {
            initialized: self.initialized,
            protocol_version: self.protocol_version@,
            created_at: self.created_at,
            last_seen: self.last_seen,
        }
    }
}

/// Seconds a session may be idle.
pub const SESSION_TTL_SECS: u64 = 86_400;

/// Seconds between two sweeps.
pub const SWEEP_PERIOD_SECS: u64 = 900;

/// The open sessions by id.
#[derive(Debug)]
pub struct Sessions {
    pub table: Dict<Session>,
}

impl View for Sessions {
    type V = Map<Seq<char>, SessionV>;

    open spec fn view(&self) -> Map<Seq<char>, SessionV> {
        Map::new(
            |k: Seq<char>| self.table@.dom().contains(k),
            |k: Seq<char>| self.table@[k]@,
        )
    }
}

/// How long a session has been idle.
pub open spec fn idle(s: SessionV, now: u64) -> int {
    if now >= s.last_seen {
        now - s.last_seen
    } else {
        0
    }
}

/// A session that was just used.
pub open spec fn touched(s: SessionV, now: u64) -> SessionV {
    SessionV { last_seen: now, ..s }
}

/// The sessions after one of them is used.
pub open spec fn after_use(m: Map<Seq<char>, SessionV>, id: Seq<char>, now: u64) -> Map<
    Seq<char>,
    SessionV,
> {
    if m.dom().contains(id) {
        m.insert(id, touched(m[id], now))
    } else {
        m
    }
}

/// The sessions that have not been idle for `ttl` seconds.
pub open spec fn after_sweep(m: Map<Seq<char>, SessionV>, now: u64, ttl: u64) -> Map<
    Seq<char>,
    SessionV,
> {
    Map::new(
        |k: Seq<char>| m.dom().contains(k) && idle(m[k], now) < ttl,
        |k: Seq<char>| m[k],
    )
}

impl Session {
    /// The same session again.
    pub fn copy(&self) -> (r: Session)
        ensures
            r@ == self@,
    {
        Session {
            initialized: self.initialized,
            protocol_version: self.protocol_version.clone(),
            created_at: self.created_at,
            last_seen: self.last_seen,
        }
    }
}

impl Sessions {
    /// The table is in order.
    pub open spec fn wf(&self) -> bool {
        self.table.wf()
    }

    /// No session.
    pub fn new() -> (r: Sessions)
        ensures
            r.wf(),
            r@ == Map::<Seq<char>, SessionV>::empty(),
    {
        let r: Sessions = Sessions { table: Dict::new() };
        assert(r@ =~= Map::<Seq<char>, SessionV>::empty());
        r
    }

    /// Opens a session.
    pub fn insert(&mut self, id: String, session: Session)
        requires
            old(self).wf(),
        ensures
            final(self).wf(),
            final(self)@ == old(self)@.insert(id@, session@),
    {
        let ghost key = id@;
        let ghost val = session;
        let ghost was = self@;
        self.table.insert(id, session);
        assert(self@ =~= was.insert(key, val@));
    }

    /// Uses a session: it is no longer idle.
    pub fn get(&mut self, id: &str, now: u64) -> (r: Option<Session>)
        requires
            old(self).wf(),
        ensures
            final(self).wf(),
            final(self)@ == after_use(old(self)@, id@, now),
            (match r {
                Some(s) => old(self)@.dom().contains(id@) && s@ == touched(old(self)@[id@], now),
                None => !old(self)@.dom().contains(id@),
            }),
    {
        let ghost was = self@;
        let found: Option<Session> = match self.table.get(id) {
            Some(s) => Some(s.copy()),
            None => None,
        };
        match found {
            Some(s) => {
                let s: Session = Session { last_seen: now, ..s };
                let kept: Session = s.copy();
                let ghost val = kept;
                self.table.insert(id.to_string(), kept);
                assert(self@ =~= was.insert(id@, val@));
                Some(s)
            },
            None => None,
        }
    }

    /// Ends a session; says whether there was one.
    pub fn remove(&mut self, id: &str) -> (r: bool)
        requires
            old(self).wf(),
        ensures
            final(self).wf(),
            final(self)@ == old(self)@.remove(id@),
            r == old(self)@.dom().contains(id@),
    {
        let ghost was = self@;
        let r: bool = self.table.remove(id);
        assert(self@ =~= was.remove(id@));
        r
    }

    /// Ends the sessions that have been idle for `ttl` seconds or more; gives
    /// back their ids.
    pub fn sweep(&mut self, now: u64, ttl: u64) -> (r: Vec<String>)
        requires
            old(self).wf(),
        ensures
            final(self).wf(),
            final(self)@ == after_sweep(old(self)@, now, ttl),
            forall|k: Seq<char>|
                text::texts(r@).contains(k) <==> (old(self)@.dom().contains(k) && idle(
                    old(self)@[k],
                    now,
                ) >= ttl),
    {
        let ghost was = self.table;
        let ghost m = self@;
        let mut kept: Dict<Session> = Dict::new();
        let mut stale: Vec<String> = Vec::new();
        let mut i: usize = 0;
        while i < self.table.keys.len()
            invariant
                self.table == was,
                m == self@,
                was.wf(),
                kept.wf(),
                i <= was.keys@.len(),
                forall|k: Seq<char>| #[trigger]
                    kept@.dom().contains(k) <==> (exists|j: int|
                        0 <= j < i && #[trigger] was.keys@[j]@ == k && idle(m[k], now) < ttl),
                forall|k: Seq<char>| #[trigger]
                    kept@.dom().contains(k) ==> kept@[k]@ == m[k],
                forall|k: Seq<char>|
                    text::texts(stale@).contains(k) <==> (exists|j: int|
                        0 <= j < i && #[trigger] was.keys@[j]@ == k && idle(m[k], now) >= ttl),
            decreases was.keys@.len() - i,
        {
            let ghost kept0 = kept@;
            let ghost stale0 = text::texts(stale@);
            let ghost key = was.keys@[i as int]@;
            proof {
                was.lemma_at(i as int);
                assert(m[key] == was.vals@[i as int]@);
            }
            let s: &Session = &self.table.vals[i];
            let gone: u64 = if now >= s.last_seen {
                now - s.last_seen
            } else {
                0
            };
            if gone < ttl {
                let c: Session = s.copy();
                kept.insert(self.table.keys[i].clone(), c);
                assert(kept@ == kept0.insert(key, c));
            } else {
                text::push_text(&mut stale, self.table.keys[i].clone());
                assert forall|k: Seq<char>|
                    text::texts(stale@).contains(k) <==> (stale0.contains(k) || k == key) by {
                    let now_stale = text::texts(stale@);
                    assert(now_stale == stale0.push(key));
                    assert(now_stale[stale0.len() as int] == key);
                    if stale0.contains(k) {
                        assert(now_stale[stale0.index_of(k)] == k);
                    }
                    if now_stale.contains(k) && k != key {
                        assert(stale0[now_stale.index_of(k)] == k);
                    }
                }
            }
            i = i + 1;
            proof {
                assert forall|k: Seq<char>| #[trigger]
                    kept@.dom().contains(k) <==> (exists|j: int|
                        0 <= j < i && #[trigger] was.keys@[j]@ == k && idle(m[k], now) < ttl) by {
                    if kept0.dom().contains(k) {
                        let j = choose|j: int|
                            0 <= j < i - 1 && #[trigger] was.keys@[j]@ == k && idle(m[k], now)
                                < ttl;
                        assert(was.keys@[j]@ == k);
                    }
                    if k == key {
                        assert(was.keys@[i - 1]@ == k);
                    }
                    if exists|j: int|
                        0 <= j < i && #[trigger] was.keys@[j]@ == k && idle(m[k], now) < ttl {
                        let j = choose|j: int|
                            0 <= j < i && #[trigger] was.keys@[j]@ == k && idle(m[k], now) < ttl;
                        if j < i - 1 {
                            assert(kept0.dom().contains(k));
                        }
                    }
                }
                assert forall|k: Seq<char>|
                    text::texts(stale@).contains(k) <==> (exists|j: int|
                        0 <= j < i && #[trigger] was.keys@[j]@ == k && idle(m[k], now) >= ttl) by {
                    if stale0.contains(k) {
                        let j = choose|j: int|
                            0 <= j < i - 1 && #[trigger] was.keys@[j]@ == k && idle(m[k], now)
                                >= ttl;
                        assert(was.keys@[j]@ == k);
                    }
                    if k == key {
                        assert(was.keys@[i - 1]@ == k);
                    }
                    if exists|j: int|
                        0 <= j < i && #[trigger] was.keys@[j]@ == k && idle(m[k], now) >= ttl {
                        let j = choose|j: int|
                            0 <= j < i && #[trigger] was.keys@[j]@ == k && idle(m[k], now) >= ttl;
                        if j < i - 1 {
                            assert(stale0.contains(k));
                        }
                    }
                }
            }
        }
        proof {
            assert forall|k: Seq<char>| m.dom().contains(k) implies exists|j: int|
                0 <= j < i && #[trigger] was.keys@[j]@ == k by {
                let p = was.pos(k);
                assert(was.keys@[p]@ == k);
            }
            assert forall|j: int| 0 <= j < i implies m.dom().contains(
                #[trigger] was.keys@[j]@,
            ) by {
                was.lemma_at(j);
            }
        }
        self.table = kept;
        assert(self@ =~= after_sweep(m, now, ttl));
        stale
    }
}

/// A session that is used again before it has been idle for `ttl` seconds
/// survives the sweep, however old it is.
pub proof fn law_active_sessions_never_expire(
    m: Map<Seq<char>, SessionV>,
    id: Seq<char>,
    used: u64,
    now: u64,
    ttl: u64,
)
    requires
        m.dom().contains(id),
        used <= now,
        now - used < ttl,
    ensures
        after_sweep(after_use(m, id, used), now, ttl).dom().contains(id),
{
}

/// A session that has been idle for `ttl` seconds is gone after the sweep, and
/// a later call with its id finds none.
pub proof fn law_idle_sessions_expire(
    m: Map<Seq<char>, SessionV>,
    id: Seq<char>,
    now: u64,
    ttl: u64,
)
    requires
        m.dom().contains(id),
        idle(m[id], now) >= ttl,
    ensures
        !after_sweep(m, now, ttl).dom().contains(id),
{
}

/// A stored session: id, whether it was initialized, and its protocol version.
#[derive(Debug, PartialEq, Eq)]
pub struct SavedSession {
    pub id: String,
    pub initialized: i64,
    pub protocol_version: String,
}

/// The sessions of the first `n` stored ones, all used now.
pub open spec fn restored(saved: Seq<SavedSession>, now: u64, n: nat) -> Map<Seq<char>, SessionV>
    decreases n,
{
    if n == 0 || n > saved.len() {
        Map::empty()
    } else {
        restored(saved, now, (n - 1) as nat).insert(
            saved[n - 1].id@,
            SessionV {
                initialized: saved[n - 1].initialized != 0,
                protocol_version: saved[n - 1].protocol_version@,
                created_at: now,
                last_seen: now,
            },
        )
    }
}

impl Sessions {
    /// Takes up the stored sessions after a restart.
    pub fn restore(saved: &Vec<SavedSession>, now: u64) -> (r: Sessions)
        ensures
            r.wf(),
            r@ == restored(saved@, now, saved@.len()),
    {
        let mut r: Sessions = Sessions::new();
        let mut i: usize = 0;
        while i < saved.len()
            invariant
                r.wf(),
                i <= saved@.len(),
                r@ == restored(saved@, now, i as nat),
            decreases saved@.len() - i,
        {
            let s: &SavedSession = &saved[i];
            r.insert(
                s.id.clone(),
                Session {
                    initialized: s.initialized != 0,
                    protocol_version: s.protocol_version.clone(),
                    created_at: now,
                    last_seen: now,
                },
            );
            i = i + 1;
        }
        r
    }
}

/// A restart ends no session: every stored id is a session again.
pub proof fn law_restart_keeps_sessions(saved: Seq<SavedSession>, now: u64, n: nat, i: int)
    requires
        0 <= i < n <= saved.len(),
    ensures
        restored(saved, now, n).dom().contains(saved[i].id@),
    decreases n,
{
    if i < n - 1 {
        law_restart_keeps_sessions(saved, now, (n - 1) as nat, i);
    }
}

/// The id of a session: the time in nanoseconds and a counter, each as at
/// least sixteen hexadecimal digits.
pub open spec fn session_id(nanos: u128, n: u64) -> Seq<char> {
    text::zero_padded(text::radix(nanos as nat, 16), 16) + text::zero_padded(
        text::radix(n as nat, 16),
        16,
    )
}

/// The id of a session.
pub fn uuid_str(nanos: u128, n: u64) -> (r: String)
    ensures
        r@ == session_id(nanos, n),
{
    let a: Vec<char> = text::radix_chars(nanos, 16);
    let b: Vec<char> = text::radix_chars(n as u128, 16);
    let x: String = text::pad_zeros(&a, 16);
    let y: String = text::pad_zeros(&b, 16);
    text::cat2(x.as_str(), y.as_str())
}

/// The value of a hexadecimal digit.
pub open spec fn hex_digit(c: char) -> nat {
    if c <= '9' {
        ((c as nat) - 48) as nat
    } else {
        ((c as nat) - 87) as nat
    }
}

/// The value of a row of hexadecimal digits.
pub open spec fn hex_value(s: Seq<char>) -> nat
    decreases s.len(),
{
    if s.len() == 0 {
        0
    } else {
        hex_value(s.drop_last()) * 16 + hex_digit(s.last())
    }
}

/// Sixteen to the power of `k`.
pub open spec fn pow16(k: nat) -> nat
    decreases k,
{
    if k == 0 {
        1
    } else {
        16 * pow16((k - 1) as nat)
    }
}

proof fn lemma_hex(n: nat, width: nat)
    requires
        width > 0,
        n < pow16(width),
    ensures
        hex_value(text::radix(n, 16)) == n,
        1 <= text::radix(n, 16).len() <= width,
    decreases width,
{
    let d = text::radix(n, 16);
    if n < 16 {
        assert(d == seq![text::digit_char(n)]);
        assert(hex_value(d.drop_last()) == 0);
        assert(hex_digit(text::digit_char(n)) == n);
    } else {
        if width == 1 {
            assert(pow16(0) == 1);
            assert(pow16(1) == 16);
        }
        assert(pow16(width) == 16 * pow16((width - 1) as nat));
        lemma_hex(n / 16, (width - 1) as nat);
        let head = text::radix(n / 16, 16);
        assert(d == head.push(text::digit_char(n % 16)));
        assert(d.drop_last() =~= head);
        assert(hex_digit(text::digit_char(n % 16)) == n % 16);
    }
}

proof fn lemma_hex_padded(d: Seq<char>, k: nat)
    ensures
        hex_value(Seq::new(k, |i: int| '0') + d) == hex_value(d),
    decreases d.len(), k,
{
    let z = Seq::new(k, |i: int| '0');
    if d.len() > 0 {
        lemma_hex_padded(d.drop_last(), k);
        assert((z + d).drop_last() =~= z + d.drop_last());
    } else if k > 0 {
        let y = Seq::new((k - 1) as nat, |i: int| '0');
        assert((z + d).drop_last() =~= y + d);
        lemma_hex_padded(d, (k - 1) as nat);
    } else {
        assert(z + d =~= d);
    }
}

proof fn lemma_counter_part(n: u64)
    ensures
        text::zero_padded(text::radix(n as nat, 16), 16).len() == 16,
        hex_value(text::zero_padded(text::radix(n as nat, 16), 16)) == n,
{
    reveal_with_fuel(pow16, 17);
    assert(pow16(16) == 0x1_0000_0000_0000_0000);
    lemma_hex(n as nat, 16);
    let d = text::radix(n as nat, 16);
    lemma_hex_padded(d, (16 - d.len()) as nat);
    if d.len() == 16 {
        assert(Seq::new(0, |i: int| '0') + d =~= d);
    }
}

/// Two sessions opened under different counts have different ids, whatever the
/// clock says.
pub proof fn law_session_ids_differ(t: u128, n: u64, u: u128, m: u64)
    requires
        n != m,
    ensures
        session_id(t, n) != session_id(u, m),
{
    lemma_counter_part(n);
    lemma_counter_part(m);
    let a = session_id(t, n);
    let b = session_id(u, m);
    let x = text::zero_padded(text::radix(n as nat, 16), 16);
    let y = text::zero_padded(text::radix(m as nat, 16), 16);
    if a == b {
        assert(a.skip(a.len() - 16) =~= x);
        assert(b.skip(b.len() - 16) =~= y);
    }
}

// ---------------------------------------------------------------------------
// Requests and answers
// ---------------------------------------------------------------------------

/// What a request says.
#[derive(Debug, PartialEq, Eq)]
pub struct Incoming {
    pub method: String,
    pub params: Json,
    pub id: Json,
}

/// The entry `key` of a request, or `default`.
pub open spec fn entry_or(req: JsonV, key: Seq<char>, default: JsonV) -> JsonV {
    match json::field(req, key) {
        Some(v) => v,
        None => default,
    }
}

/// The method that a request names; empty where it names none.
pub open spec fn method_of(req: JsonV) -> Seq<char> {
    mcp::text_or(req, "method"@, Seq::empty())
}

/// An object without entries.
pub fn empty_object() -> (r: Json)
    ensures
        r@ == JsonV::Obj(Seq::empty()),
{
    let e: Vec<(String, Json)> = Vec::new();
    proof {
        json::lemma_obj_view(e);
        assert(json::entries(e@) =~= Seq::empty());
    }
    Json::Obj(e)
}

/// Reads a request.
pub fn read_request(req: &Json) -> (r: Incoming)
    ensures
        r.method@ == method_of(req@),
        r.params@ == entry_or(req@, "params"@, JsonV::Obj(Seq::empty())),
        r.id@ == entry_or(req@, "id"@, JsonV::Null),
{
    let method: String = match req.str_field("method") {
        Some(m) => m.to_string(),
        None => String::new(),
    };
    let params: Json = match req.get("params") {
        Some(p) => p.copy(),
        None => empty_object(),
    };
    let id: Json = match req.get("id") {
        Some(i) => i.copy(),
        None => Json::Null,
    };
    Incoming { method, params, id }
}

/// A protocol error.
pub open spec fn rpc_error(code: int, message: Seq<char>) -> JsonV {
    JsonV::Obj(
        seq![
            (
                "error"@,
                JsonV::Obj(
                    seq![
                        ("code"@, JsonV::Num(NumberV::Int(code))),
                        ("message"@, JsonV::Str(message)),
                    ],
                ),
            ),
        ],
    )
}

/// A protocol error.
pub fn error_result(code: i64, message: &str) -> (r: Json)
    ensures
        r@ == rpc_error(code as int, message@),
{
    mcp::object1(
        "error",
        mcp::object2("code", Json::number(code), "message", Json::string(message)),
    )
}

/// The answer to a request: its result, or the error that the result holds.
pub open spec fn envelope_value(id: JsonV, result: JsonV) -> JsonV {
    match json::field(result, "error"@) {
        Some(e) => JsonV::Obj(
            seq![("jsonrpc"@, JsonV::Str("2.0"@)), ("id"@, id), ("error"@, e)],
        ),
        None => JsonV::Obj(
            seq![("jsonrpc"@, JsonV::Str("2.0"@)), ("id"@, id), ("result"@, result)],
        ),
    }
}

/// The answer to a request.
pub fn envelope(id: &Json, result: Json) -> (r: Json)
    ensures
        r@ == envelope_value(id@, result@),
{
    let error: Option<Json> = match result.get("error") {
        Some(e) => Some(e.copy()),
        None => None,
    };
    match error {
        Some(e) => mcp::object3("jsonrpc", Json::string("2.0"), "id", id.copy(), "error", e),
        None => mcp::object3(
            "jsonrpc",
            Json::string("2.0"),
            "id",
            id.copy(),
            "result",
            result,
        ),
    }
}

/// What is to be done for a method.
#[derive(Debug, PartialEq, Eq)]
pub enum Route {
    /// Answer with this result.
    Reply(Json),
    /// Answer with the list of tools.
    Tools,
    /// Call a tool.
    Call { name: String, args: Json },
}

/// What this server says of itself.
pub const INSTRUCTIONS: &'static str =
    "semdoc 知识库 MCP 服务。query_semantic 语义检索（small-to-big）；query_text 全文检索；query_reranked 精排（需 --rerank）；query_graph 图谱检索（lightrag 不可用时降级语义）；query_hybrid 混合检索；get_document 精查整篇；add_document 写入；delete_document 删除（级联图谱）；update_document_metadata 改标签不重嵌入；list_documents 分页浏览。";

/// The result of `initialize`, with what the server says of itself where it is
/// asked over HTTP.
pub open spec fn greeting(instructions: bool) -> JsonV {
    let basic = seq![
        ("protocolVersion"@, JsonV::Str("2024-11-05"@)),
        ("capabilities"@, JsonV::Obj(seq![("tools"@, JsonV::Obj(Seq::empty()))])),
        (
            "serverInfo"@,
            JsonV::Obj(
                seq![("name"@, JsonV::Str("semdoc"@)), ("version"@, JsonV::Str("0.1.0"@))],
            ),
        ),
    ];
    if instructions {
        JsonV::Obj(basic.push(("instructions"@, JsonV::Str(INSTRUCTIONS@))))
    } else {
        JsonV::Obj(basic)
    }
}

fn greet(instructions: bool) -> (r: Json)
    ensures
        r@ == greeting(instructions),
{
    let capabilities: Json = mcp::object1("tools", empty_object());
    let info: Json = mcp::object2(
        "name",
        Json::string("semdoc"),
        "version",
        Json::string("0.1.0"),
    );
    let version: Json = Json::string("2024-11-05");
    let r: Json = if instructions {
        mcp::object4(
            "protocolVersion",
            version,
            "capabilities",
            capabilities,
            "serverInfo",
            info,
            "instructions",
            Json::string(INSTRUCTIONS),
        )
    } else {
        mcp::object3("protocolVersion", version, "capabilities", capabilities, "serverInfo", info)
    };
    proof {
        let want = greeting(instructions)->Obj_0;
        assert(r@->Obj_0 =~= want);
    }
    r
}

/// Finds what is to be done for a method.
pub fn handle_request(method: &str, params: &Json, instructions: bool) -> (r: Route)
    ensures
        (if method@ == "initialize"@ {
            r matches Route::Reply(j) && j@ == greeting(instructions)
        } else if method@ == "notifications/initialized"@ {
            r matches Route::Reply(j) && j@ == JsonV::Null
        } else if method@ == "tools/list"@ {
            r is Tools
        } else if method@ == "tools/call"@ {
            r matches Route::Call { name, args } && name@ == mcp::text_or(
                params@,
                "name"@,
                Seq::empty(),
            ) && args@ == entry_or(params@, "arguments"@, JsonV::Obj(Seq::empty()))
        } else {
            r matches Route::Reply(j) && j@ == rpc_error(
                -32601,
                "method not found: "@ + method@,
            )
        }),
{
    if text::same(method, "initialize") {
        return Route::Reply(greet(instructions));
    }
    if text::same(method, "notifications/initialized") {
        return Route::Reply(Json::Null);
    }
    if text::same(method, "tools/list") {
        return Route::Tools;
    }
    if text::same(method, "tools/call") {
        let name: String = match params.str_field("name") {
            Some(n) => n.to_string(),
            None => String::new(),
        };
        let args: Json = match params.get("arguments") {
            Some(a) => a.copy(),
            None => empty_object(),
        };
        return Route::Call { name, args };
    }
    let m: String = text::cat2("method not found: ", method);
    Route::Reply(error_result(-32601, m.as_str()))
}

/// The error for a call without a valid session.
pub const SESSION_ERROR: &'static str = "Invalid or missing Mcp-Session-Id. Call initialize first.";

/// The answer to a call without a valid session: clients can tell from its
/// code that they are to connect again.
pub fn session_error(id: &Json) -> (r: Json)
    ensures
        r@ == envelope_value(id@, rpc_error(-32001, SESSION_ERROR@)),
{
    envelope(id, error_result(-32001, SESSION_ERROR))
}

/// Checks that a call belongs to a session, which it keeps alive; `initialize`
/// needs none.
pub fn check_session(
    sessions: &mut Sessions,
    method: &str,
    session_id: Option<&str>,
    now: u64,
) -> (r: bool)
    requires
        old(sessions).wf(),
    ensures
        final(sessions).wf(),
        ({
            let id = match session_id {
                Some(s) => s@,
                None => Seq::empty(),
            };
            if method@ == "initialize"@ {
                r && *final(sessions) == *old(sessions)
            } else {
                r == old(sessions)@.dom().contains(id) && final(sessions)@ == after_use(
                    old(sessions)@,
                    id,
                    now,
                )
            }
        }),
{
    if text::same(method, "initialize") {
        return true;
    }
    proof {
        reveal_strlit("");
        assert(""@ =~= Seq::<char>::empty());
    }
    let id: &str = match session_id {
        Some(s) => s,
        None => "",
    };
    match sessions.get(id, now) {
        Some(_) => true,
        None => false,
    }
}

/// The session that `initialize` opens.
pub fn new_session(params: &Json, now: u64) -> (r: Session)
    ensures
        r@ == (SessionV {
            initialized: true,
            protocol_version: mcp::text_or(params@, "protocolVersion"@, "2024-11-05"@),
            created_at: now,
            last_seen: now,
        }),
{
    let version: String = match params.str_field("protocolVersion") {
        Some(v) => v.to_string(),
        None => "2024-11-05".to_string(),
    };
    Session { initialized: true, protocol_version: version, created_at: now, last_seen: now }
}

/// The answer to a body that is not JSON.
pub open spec fn parse_error_value(reason: Seq<char>) -> JsonV {
    JsonV::Obj(
        seq![
            ("jsonrpc"@, JsonV::Str("2.0"@)),
            ("id"@, JsonV::Null),
            (
                "error"@,
                JsonV::Obj(
                    seq![
                        ("code"@, JsonV::Num(NumberV::Int(-32700))),
                        ("message"@, JsonV::Str("Parse error"@)),
                        ("data"@, JsonV::Str(reason)),
                    ],
                ),
            ),
        ],
    )
}

/// The answer to a body that is not JSON.
pub fn parse_error(reason: &str) -> (r: Json)
    ensures
        r@ == parse_error_value(reason@),
{
    mcp::object3(
        "jsonrpc",
        Json::string("2.0"),
        "id",
        Json::Null,
        "error",
        mcp::object3(
            "code",
            Json::number(-32700),
            "message",
            Json::string("Parse error"),
            "data",
            Json::string(reason),
        ),
    )
}

/// The answer to a line that is not JSON.
pub fn line_error(reason: &str) -> (r: Json)
    ensures
        r@ == envelope_value(JsonV::Null, rpc_error(-32700, "parse error: "@ + reason@)),
{
    let m: String = text::cat2("parse error: ", reason);
    envelope(&Json::Null, error_result(-32700, m.as_str()))
}

/// A line of the standard input.
#[derive(Debug, PartialEq, Eq)]
pub enum ReadResult {
    Empty,
    Msg(Json),
    ParseError(String),
}

/// Reads a line of the standard input.
pub fn read_message(line: &str) -> (r: ReadResult)
    ensures
        (if text::is_blank(line@) {
            r is Empty
        } else {
            match json::parsed(line@) {
                Ok(j) => r matches ReadResult::Msg(m) && m@ == j,
                Err(e) => r matches ReadResult::ParseError(m) && m@ == e,
            }
        }),
{
    if text::blank(line) {
        return ReadResult::Empty;
    }
    match Json::parse(line) {
        Ok(j) => ReadResult::Msg(j),
        Err(e) => ReadResult::ParseError(e),
    }
}

// ---------------------------------------------------------------------------
// Framing
// ---------------------------------------------------------------------------

/// Whether a media range asks for JSON.
pub open spec fn asks_json(part: Seq<char>) -> bool {
    let t = text::trimmed(part);
    text::lowered(t) == "application/json"@ || "application/json;"@.is_prefix_of(t)
}

/// Whether one of the media ranges asks for JSON.
pub open spec fn some_asks_json(parts: Seq<Seq<char>>) -> bool {
    exists|i: int| 0 <= i < parts.len() && asks_json(#[trigger] parts[i])
}

/// Whether the client takes JSON: it says so, or says nothing.
pub open spec fn takes_json(accept: Option<Seq<char>>) -> bool {
    match accept {
        None => true,
        Some(s) => some_asks_json(text::parts(s, ',')),
    }
}

fn part_asks_json(part: &str) -> (r: bool)
    ensures
        r == asks_json(part@),
{
    let t: String = text::trim(part);
    let l: String = text::to_lower(t.as_str());
    text::same(l.as_str(), "application/json") || text::starts_with(
        t.as_str(),
        "application/json;",
    )
}

/// Whether the client takes JSON.
pub fn prefer_json(accept: Option<&str>) -> (r: bool)
    ensures
        r == takes_json(crate::chunker::opt_text(accept)),
{
    match accept {
        None => true,
        Some(s) => {
            let parts: Vec<String> = text::split(s, ',');
            let ghost ps = text::parts(s@, ',');
            let mut i: usize = 0;
            while i < parts.len()
                invariant
                    ps == text::texts(parts@),
                    ps == text::parts(s@, ','),
                    crate::chunker::opt_text(accept) == Some(s@),
                    i <= parts@.len(),
                    forall|k: int| 0 <= k < i ==> !asks_json(#[trigger] ps[k]),
                decreases parts@.len() - i,
            {
                if part_asks_json(parts[i].as_str()) {
                    assert(asks_json(ps[i as int]));
                    return true;
                }
                i = i + 1;
            }
            false
        },
    }
}

/// An answer as one server-sent event.
pub fn sse_frame(body: &str) -> (r: String)
    ensures
        r@ == "event: message\ndata: "@ + body@ + "\n\n"@,
{
    text::cat3("event: message\ndata: ", body, "\n\n")
}

/// The body of an answer and how it is labelled.
#[derive(Debug, PartialEq, Eq)]
pub struct Framed {
    pub content_type: &'static str,
    pub body: String,
}

/// Frames an answer as the client takes it: JSON, or one server-sent event.
pub fn frame(accept: Option<&str>, answer: &Json) -> (r: Framed)
    ensures
        (if takes_json(crate::chunker::opt_text(accept)) {
            r.content_type@ == "application/json"@ && r.body@ == json::compact_text(answer@)
        } else {
            r.content_type@ == "text/event-stream"@ && r.body@ == "event: message\ndata: "@
                + json::compact_text(answer@) + "\n\n"@
        }),
{
    let body: String = answer.compact();
    if prefer_json(accept) {
        Framed { content_type: "application/json", body }
    } else {
        Framed { content_type: "text/event-stream", body: sse_frame(body.as_str()) }
    }
}

// ---------------------------------------------------------------------------
// One call over HTTP
// ---------------------------------------------------------------------------

/// How a call over HTTP begins.
#[derive(Debug, PartialEq, Eq)]
pub enum Opening {
    /// It is not allowed, for this reason.
    Unauthorized(String),
    /// It is no JSON and is answered so.
    Malformed(Json),
    /// It belongs to no session and is answered so.
    NoSession(Json),
    /// It is served.
    Serve(Incoming),
}

/// Whether a call begins as it must, where `said` is what its body says, and
/// the sessions are `before` and `after` it.
pub open spec fn opens(
    refused: Option<Seq<char>>,
    said: Result<JsonV, Seq<char>>,
    session: Seq<char>,
    now: u64,
    before: Map<Seq<char>, SessionV>,
    o: Opening,
    after: Map<Seq<char>, SessionV>,
) -> bool {
    match (refused, said) {
        (Some(m), _) => (o matches Opening::Unauthorized(x) && x@ == m) && after == before,
        (None, Err(e)) => (o matches Opening::Malformed(j) && j@ == parse_error_value(e)) && after
            == before,
        (None, Ok(req)) => if method_of(req) == "initialize"@ {
            (o matches Opening::Serve(i) && is_incoming(i, req)) && after == before
        } else if before.dom().contains(session) {
            (o matches Opening::Serve(i) && is_incoming(i, req)) && after == after_use(
                before,
                session,
                now,
            )
        } else {
            (o matches Opening::NoSession(j) && j@ == envelope_value(
                entry_or(req, "id"@, JsonV::Null),
                rpc_error(-32001, SESSION_ERROR@),
            )) && after == before
        },
    }
}

/// Whether `i` is what a request says.
pub open spec fn is_incoming(i: Incoming, req: JsonV) -> bool {
    &&& i.method@ == method_of(req)
    &&& i.params@ == entry_or(req, "params"@, JsonV::Obj(Seq::empty()))
    &&& i.id@ == entry_or(req, "id"@, JsonV::Null)
}

/// The id of a session that a call names; empty where it names none.
pub open spec fn named_session(id: Option<Seq<char>>) -> Seq<char> {
    match id {
        Some(s) => s,
        None => Seq::empty(),
    }
}

/// What a body said, as a model.
pub open spec fn said_value(said: Result<Json, String>) -> Result<JsonV, Seq<char>> {
    match said {
        Ok(j) => Ok(j@),
        Err(e) => Err(e@),
    }
}

/// Begins a call whose body was read.
pub fn open_read(
    expected: Option<&str>,
    authorization: Option<&str>,
    said: Result<Json, String>,
    sessions: &mut Sessions,
    session_id: Option<&str>,
    now: u64,
) -> (r: Opening)
    requires
        old(sessions).wf(),
    ensures
        final(sessions).wf(),
        opens(
            refusal(
                crate::chunker::opt_text(expected),
                crate::chunker::opt_text(authorization),
            ),
            said_value(said),
            named_session(crate::chunker::opt_text(session_id)),
            now,
            old(sessions)@,
            r,
            final(sessions)@,
        ),
{
    match authorize(expected, authorization) {
        Err(e) => {
            return Opening::Unauthorized(e);
        },
        Ok(_) => {},
    }
    let req: Json = match said {
        Err(e) => {
            return Opening::Malformed(parse_error(e.as_str()));
        },
        Ok(j) => j,
    };
    let i: Incoming = read_request(&req);
    if check_session(sessions, i.method.as_str(), session_id, now) {
        Opening::Serve(i)
    } else {
        Opening::NoSession(session_error(&i.id))
    }
}

/// Begins a call over HTTP.
pub fn open_call(
    expected: Option<&str>,
    authorization: Option<&str>,
    body: &Vec<u8>,
    sessions: &mut Sessions,
    session_id: Option<&str>,
    now: u64,
) -> (r: Opening)
    requires
        old(sessions).wf(),
    ensures
        final(sessions).wf(),
        opens(
            refusal(
                crate::chunker::opt_text(expected),
                crate::chunker::opt_text(authorization),
            ),
            json::parsed_bytes(body@),
            named_session(crate::chunker::opt_text(session_id)),
            now,
            old(sessions)@,
            r,
            final(sessions)@,
        ),
{
    let said: Result<Json, String> = Json::parse_bytes(body);
    open_read(expected, authorization, said, sessions, session_id, now)
}

/// Opens a session for `initialize` and gives its id.
pub fn open_session(sessions: &mut Sessions, params: &Json, nanos: u128, count: u64, now: u64) -> (r:
    String)
    requires
        old(sessions).wf(),
    ensures
        final(sessions).wf(),
        r@ == session_id(nanos, count),
        final(sessions)@ == old(sessions)@.insert(
            r@,
            (SessionV {
                initialized: true,
                protocol_version: mcp::text_or(params@, "protocolVersion"@, "2024-11-05"@),
                created_at: now,
                last_seen: now,
            }),
        ),
{
    let id: String = uuid_str(nanos, count);
    sessions.insert(id.clone(), new_session(params, now));
    id
}

/// A call is served exactly if it is allowed, is JSON, and opens a session or
/// belongs to one; any other call changes no session, and none ends a session.
pub proof fn law_only_sessions_are_served(
    refused: Option<Seq<char>>,
    said: Result<JsonV, Seq<char>>,
    session: Seq<char>,
    now: u64,
    before: Map<Seq<char>, SessionV>,
    o: Opening,
    after: Map<Seq<char>, SessionV>,
)
    requires
        opens(refused, said, session, now, before, o, after),
    ensures
        o is Serve <==> refused is None && said is Ok && (method_of(said->Ok_0) == "initialize"@
            || before.dom().contains(session)),
        !(o is Serve) ==> after == before,
        after.dom() == before.dom(),
{
    assert(after.dom() =~= before.dom());
}

// ---------------------------------------------------------------------------
// Documents over REST
// ---------------------------------------------------------------------------

/// The document that a REST call asks to add.
pub fn rest_document(
    c: &SchemaConfig,
    body: &str,
    source_path: Option<&str>,
    meta: Vec<(String, Json)>,
) -> (r: InputDoc)
    requires
        c.wf(),
    ensures
        ({
            let path = match source_path {
                Some(p) => p@,
                None => "inline"@,
            };
            &&& r.id@ == hash::blake3_hex(body@)
            &&& r.raw_text@ == body@
            &&& r.source_path@ == path
            &&& r.source_type@ == "text"@
            &&& store::opt_view(r.language) == Some("markdown"@)
            &&& json::entries(r.extra@) == mcp::with_source(
                *c,
                json::entries(meta@),
                path,
                "text"@,
            )
            &&& r.vectors.wf()
            &&& r.vectors@ == Map::<Seq<char>, Vec<u32>>::empty()
        }),
{
    let path: String = match source_path {
        Some(p) => p.to_string(),
        None => "inline".to_string(),
    };
    let mut extra: Vec<(String, Json)> = meta;
    mcp::fill_source(c, &mut extra, path.as_str(), "text");
    InputDoc {
        id: hash::content_hash(body),
        raw_text: body.to_string(),
        source_path: path,
        source_type: "text".to_string(),
        language: Some("markdown".to_string()),
        extra,
        vectors: Dict::new(),
    }
}

/// The limit of a REST query: ten where none is given, and no more than the
/// allowed most.
pub fn rest_limit(limit: Option<usize>) -> (r: usize)
    ensures
        r == (match limit {
            Some(n) => if n < crate::query::MAX_LIMIT {
                n
            } else {
                crate::query::MAX_LIMIT
            },
            None => 10,
        }),
{
    match limit {
        Some(n) => if n < crate::query::MAX_LIMIT {
            n
        } else {
            crate::query::MAX_LIMIT
        },
        None => 10,
    }
}

// ---------------------------------------------------------------------------
// Running a server
// ---------------------------------------------------------------------------

/// The token that REST calls must bring: the configured one, else the fallback.
pub fn rest_token(configured: Option<String>, fallback: Option<String>, required: bool) -> (r: Result<
    Option<String>,
    String,
>)
    ensures
        (match r {
            Ok(t) => t == (if configured is Some {
                configured
            } else {
                fallback
            }) && (required ==> t is Some),
            Err(e) => required && configured is None && fallback is None && e@
                == "--auth requires server.token_env (config) or SEMDOC_TOKEN (env)"@,
        }),
{
    let token: Option<String> = match configured {
        Some(t) => Some(t),
        None => fallback,
    };
    if required && token.is_none() {
        return Err(
            "--auth requires server.token_env (config) or SEMDOC_TOKEN (env)".to_string(),
        );
    }
    Ok(token)
}

/// Where a server listens unless told otherwise.
pub const DEFAULT_LISTEN: &'static str = "127.0.0.1:8092";

/// Where a server listens: as the command line says, else as configured, else
/// at the default address.
pub fn listen_address(flag: Option<&str>, configured: Option<&str>) -> (r: String)
    ensures
        r@ == (match (crate::chunker::opt_text(flag), crate::chunker::opt_text(configured)) {
            (Some(a), _) => a,
            (None, Some(a)) => a,
            (None, None) => DEFAULT_LISTEN@,
        }),
{
    match flag {
        Some(a) => a.to_string(),
        None => match configured {
            Some(a) => a.to_string(),
            None => DEFAULT_LISTEN.to_string(),
        },
    }
}

/// The answer to a write over REST.
pub fn ok_json() -> (r: Json)
    ensures
        r@ == JsonV::Obj(seq![("ok"@, JsonV::Bool(true))]),
{
    mcp::object1("ok", Json::Bool(true))
}

/// The number of rows over REST.
pub fn rows_json(rows: u64) -> (r: Json)
    ensures
        r@ == JsonV::Obj(seq![("rows"@, crate::plugins::graph::count_value(rows as nat))]),
{
    mcp::object1("rows", crate::plugins::graph::count_json(rows))
}

/// The answer to a probe: it needs neither a token nor the graph.
pub fn health_json(rows: u64, graph: &str) -> (r: Json)
    ensures
        r@ == JsonV::Obj(
            seq![
                ("ok"@, JsonV::Bool(true)),
                ("rows"@, crate::plugins::graph::count_value(rows as nat)),
                ("graph"@, JsonV::Str(graph@)),
            ],
        ),
{
    mcp::object3(
        "ok",
        Json::Bool(true),
        "rows",
        crate::plugins::graph::count_json(rows),
        "graph",
        Json::string(graph),
    )
}

/// The rows that a search over REST found.
pub fn found_json(docs: &Vec<store::Record>) -> (r: Json)
    ensures
        r@ == JsonV::Obj(seq![("documents"@, mcp::documents_value(store::records(docs@)))]),
{
    mcp::object1("documents", mcp::documents_json(docs))
}

} // verus!
