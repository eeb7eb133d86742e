//! Deployment configuration: what describes the environment and does not
//! travel with the database.
//!
//! Values come from the environment before the configuration file before the
//! defaults. Secrets never stand in the file: settings named `*_env` name an
//! environment variable that holds the secret. The environment is a value that
//! functions take and give back.

use crate::chunker;
use crate::dict::Dict;
use crate::schema::BuildFeatures;
use crate::store;
use crate::text;
use crate::tls;
use vstd::prelude::*;

verus! {

broadcast use vstd::string::group_string_axioms;

// ---------------------------------------------------------------------------
// The configuration
// ---------------------------------------------------------------------------

/// The deployment configuration.
#[derive(Debug, PartialEq, Eq)]
pub struct DeploymentConfig {
    pub embedding: EmbeddingConfig,
    pub rerank: RerankConfig,
    pub chunk: ChunkConfig,
    pub server: ServerConfig,
    pub tls: TlsConfig,
}

/// Where embeddings come from.
#[derive(Debug, PartialEq, Eq)]
pub enum EmbeddingConfig {
    Onnx { dir: Option<String> },
    Http { url: String, model: String, api_key_env: Option<String>, timeout_secs: u64 },
}

/// Where reranking is done.
#[derive(Debug, PartialEq, Eq)]
pub enum RerankConfig {
    Onnx { dir: Option<String> },
    Tei { endpoint: String, api_key_env: Option<String>, timeout_secs: u64 },
    Openai {
        endpoint: String,
        model: Option<String>,
        api_key_env: Option<String>,
        timeout_secs: u64,
    },
    /// No reranking.
    Off,
}

/// How documents are split.
#[derive(Debug, PartialEq, Eq)]
pub struct ChunkConfig {
    pub size: Option<usize>,
    pub overlap: Option<usize>,
}

/// How the server runs.
#[derive(Debug, PartialEq, Eq)]
pub struct ServerConfig {
    pub listen: Option<String>,
    /// Variable that holds the bearer token callers must bring.
    pub token_env: Option<String>,
    /// Where events are sent after a write.
    pub webhook_url: Option<String>,
    /// Which events are sent; all where unset.
    pub webhook_events: Option<Vec<String>>,
    /// Variable that holds the secret events are signed with.
    pub webhook_secret_env: Option<String>,
}

/// How connections are secured.
#[derive(Debug, PartialEq, Eq)]
pub struct TlsConfig {
    /// Accept invalid certificates.
    pub insecure: bool,
    /// File with certificates to trust besides those of the system.
    pub ca_bundle: Option<String>,
}

/// Seconds a request to an embedder may take unless configured.
pub const DEFAULT_TIMEOUT_SECS: u64 = 60;

/// Seconds a request to a reranker may take unless configured.
pub const DEFAULT_RERANK_TIMEOUT_SECS: u64 = 120;

/// Variable under which a key given directly is kept.
pub const INLINE_KEY: &'static str = "SEMDOC_EMBEDDER_HTTP_API_KEY_INLINE";

/// The model of an embedding configuration.
pub enum EmbeddingV {
    Onnx { dir: Option<Seq<char>> },
    Http {
        url: Seq<char>,
        model: Seq<char>,
        api_key_env: Option<Seq<char>>,
        timeout_secs: u64,
    },
}

/// The model of a reranking configuration.
pub enum RerankV {
    Onnx { dir: Option<Seq<char>> },
    Tei { endpoint: Seq<char>, api_key_env: Option<Seq<char>>, timeout_secs: u64 },
    Openai {
        endpoint: Seq<char>,
        model: Option<Seq<char>>,
        api_key_env: Option<Seq<char>>,
        timeout_secs: u64,
    },
    Off,
}

/// The model of a TLS configuration.
pub struct TlsV {
    pub insecure: bool,
    pub ca_bundle: Option<Seq<char>>,
}

impl View for EmbeddingConfig {
    type V = EmbeddingV;

    open spec fn view(&self) -> EmbeddingV {
        match *self {
            EmbeddingConfig::Onnx { dir } => EmbeddingV::Onnx { dir: store::opt_view(dir) },
            EmbeddingConfig::Http { url, model, api_key_env, timeout_secs } => EmbeddingV::Http {
                url: url@,
                model: model@,
                api_key_env: store::opt_view(api_key_env),
                timeout_secs,
            },
        }
    }
}

impl View for RerankConfig {
    type V = RerankV;

    open spec fn view(&self) -> RerankV {
        match *self {
            RerankConfig::Onnx { dir } => RerankV::Onnx { dir: store::opt_view(dir) },
            RerankConfig::Tei { endpoint, api_key_env, timeout_secs } => RerankV::Tei {
                endpoint: endpoint@,
                api_key_env: store::opt_view(api_key_env),
                timeout_secs,
            },
            RerankConfig::Openai { endpoint, model, api_key_env, timeout_secs } =>
            RerankV::Openai {
                endpoint: endpoint@,
                model: store::opt_view(model),
                api_key_env: store::opt_view(api_key_env),
                timeout_secs,
            },
            RerankConfig::Off => RerankV::Off,
        }
    }
}

impl View for TlsConfig {
    type V = TlsV;

    open spec fn view(&self) -> TlsV {
        TlsV { insecure: self.insecure, ca_bundle: store::opt_view(self.ca_bundle) }
    }
}

/// The embedding configuration where nothing is configured.
pub open spec fn default_embedding() -> EmbeddingV {
    EmbeddingV::Http {
        url: Seq::empty(),
        model: Seq::empty(),
        api_key_env: None,
        timeout_secs: DEFAULT_TIMEOUT_SECS,
    }
}

/// The reranking configuration where nothing is configured.
pub open spec fn default_rerank() -> RerankV {
    RerankV::Tei {
        endpoint: Seq::empty(),
        api_key_env: None,
        timeout_secs: DEFAULT_RERANK_TIMEOUT_SECS,
    }
}

impl Default for EmbeddingConfig {
    fn default() -> (r: Self)
        ensures
            r@ == default_embedding(),
    {
        EmbeddingConfig::Http {
            url: String::new(),
            model: String::new(),
            api_key_env: None,
            timeout_secs: DEFAULT_TIMEOUT_SECS,
        }
    }
}

impl Default for RerankConfig {
    fn default() -> (r: Self)
        ensures
            r@ == default_rerank(),
    {
        RerankConfig::Tei {
            endpoint: String::new(),
            api_key_env: None,
            timeout_secs: DEFAULT_RERANK_TIMEOUT_SECS,
        }
    }
}

impl Default for ChunkConfig {
    fn default() -> (r: Self)
        ensures
            r.size is None,
            r.overlap is None,
    {
        ChunkConfig { size: None, overlap: None }
    }
}

impl Default for ServerConfig {
    fn default() -> (r: Self)
        ensures
            r.listen is None,
            r.token_env is None,
            r.webhook_url is None,
            r.webhook_events is None,
            r.webhook_secret_env is None,
    {
        ServerConfig {
            listen: None,
            token_env: None,
            webhook_url: None,
            webhook_events: None,
            webhook_secret_env: None,
        }
    }
}

impl Default for TlsConfig {
    fn default() -> (r: Self)
        ensures
            !r.insecure,
            r.ca_bundle is None,
    {
        TlsConfig { insecure: false, ca_bundle: None }
    }
}

impl Default for DeploymentConfig {
    fn default() -> (r: Self)
        ensures
            r.embedding@ == default_embedding(),
            r.rerank@ == default_rerank(),
            r.chunk.size is None,
            r.chunk.overlap is None,
            r.server.listen is None,
            r.server.token_env is None,
            r.server.webhook_url is None,
            r.server.webhook_events is None,
            r.server.webhook_secret_env is None,
            !r.tls.insecure,
            r.tls.ca_bundle is None,
    {
        DeploymentConfig {
            embedding: EmbeddingConfig::default(),
            rerank: RerankConfig::default(),
            chunk: ChunkConfig::default(),
            server: ServerConfig::default(),
            tls: TlsConfig::default(),
        }
    }
}

// ---------------------------------------------------------------------------
// The environment
// ---------------------------------------------------------------------------

/// The variables that are set, and their values.
pub open spec fn vars(env: Dict<String>) -> Map<Seq<char>, Seq<char>> {
    Map::new(|k: Seq<char>| env@.dom().contains(k), |k: Seq<char>| env@[k]@)
}

/// The value of a variable, if it is set.
pub open spec fn var(m: Map<Seq<char>, Seq<char>>, name: Seq<char>) -> Option<Seq<char>> {
    if m.dom().contains(name) {
        Some(m[name])
    } else {
        None
    }
}

/// The value of a variable, if it is set and not empty.
pub open spec fn filled_var(m: Map<Seq<char>, Seq<char>>, name: Seq<char>) -> Option<Seq<char>> {
    match var(m, name) {
        Some(v) => if v.len() > 0 {
            Some(v)
        } else {
            None
        },
        None => None,
    }
}

/// The number that a variable holds; `default` where it is not set, an error
/// where it holds no number.
pub open spec fn number_var(m: Map<Seq<char>, Seq<char>>, name: Seq<char>, default: u64) -> Result<
    u64,
    Seq<char>,
> {
    match var(m, name) {
        Some(v) => match text::natural_upto(v, u64::MAX as nat) {
            Some(n) => Ok(n as u64),
            None => Err("bad "@ + name + " `"@ + v + "`"@),
        },
        None => Ok(default),
    }
}

/// The value of a variable, if it is set.
pub fn get_var(env: &Dict<String>, name: &str) -> (r: Option<String>)
    requires
        env.wf(),
    ensures
        store::opt_view(r) == var(vars(*env), name@),
{
    match env.get(name) {
        Some(v) => Some(v.clone()),
        None => None,
    }
}

/// Sets a variable.
pub fn set_var(env: &mut Dict<String>, name: &str, value: &str)
    requires
        old(env).wf(),
    ensures
        final(env).wf(),
        vars(*final(env)) == vars(*old(env)).insert(name@, value@),
{
    let ghost was = vars(*env);
    let v: String = value.to_string();
    let ghost val = v;
    env.insert(name.to_string(), v);
    assert(vars(*env) =~= was.insert(name@, val@));
}

/// The value of a variable, if it is set and not empty.
fn get_filled(env: &Dict<String>, name: &str) -> (r: Option<String>)
    requires
        env.wf(),
    ensures
        store::opt_view(r) == filled_var(vars(*env), name@),
{
    match get_var(env, name) {
        Some(v) => if v.as_str().is_empty() {
            None
        } else {
            Some(v)
        },
        None => None,
    }
}

/// The number that a variable holds.
fn parse_env_num(env: &Dict<String>, name: &str, default: u64) -> (r: Result<u64, String>)
    requires
        env.wf(),
    ensures
        (match r {
            Ok(n) => number_var(vars(*env), name@, default) == Ok::<u64, Seq<char>>(n),
            Err(e) => number_var(vars(*env), name@, default) == Err::<u64, Seq<char>>(e@),
        }),
{
    match get_var(env, name) {
        Some(v) => match text::parse_upto(v.as_str(), u64::MAX) {
            Some(n) => Ok(n),
            None => Err(text::cat5("bad ", name, " `", v.as_str(), "`")),
        },
        None => Ok(default),
    }
}

/// The variable itself, if it holds a key: the key is then read through it
/// like any other.
fn inline_or_named_key(env: &Dict<String>, name: &str) -> (r: Option<String>)
    requires
        env.wf(),
    ensures
        store::opt_view(r) == (if filled_var(vars(*env), name@) is Some {
            Some(name@)
        } else {
            None
        }),
{
    match get_filled(env, name) {
        Some(_) => Some(name.to_string()),
        None => None,
    }
}

// ---------------------------------------------------------------------------
// What the environment overrides
// ---------------------------------------------------------------------------

/// What one step of overriding comes to: the new value, the new environment,
/// and why it stopped, if it did.
pub struct Overriding<T> {
    pub value: T,
    pub env: Map<Seq<char>, Seq<char>>,
    pub error: Option<Seq<char>>,
}

/// The error for a variable that a backend needs.
pub open spec fn required_error(name: Seq<char>, backend: Seq<char>) -> Seq<char> {
    name + " required for "@ + backend
}

/// The embedding configuration after the environment is looked at for a
/// backend `b`.
pub open spec fn named_embedding(
    e: EmbeddingV,
    m: Map<Seq<char>, Seq<char>>,
    b: Seq<char>,
) -> Overriding<EmbeddingV> {
    if b == "http"@ {
        match (
            var(m, "SEMDOC_EMBEDDER_HTTP_URL"@),
            var(m, "SEMDOC_EMBEDDER_HTTP_MODEL"@),
            number_var(m, "SEMDOC_EMBEDDER_HTTP_TIMEOUT"@, DEFAULT_TIMEOUT_SECS),
        ) {
            (None, _, _) => Overriding {
                value: e,
                env: m,
                error: Some(
                    required_error(
                        "SEMDOC_EMBEDDER_HTTP_URL"@,
                        "SEMDOC_EMBEDDER_BACKEND=http"@,
                    ),
                ),
            },
            (Some(_), None, _) => Overriding {
                value: e,
                env: m,
                error: Some(
                    required_error(
                        "SEMDOC_EMBEDDER_HTTP_MODEL"@,
                        "SEMDOC_EMBEDDER_BACKEND=http"@,
                    ),
                ),
            },
            (Some(_), Some(_), Err(x)) => Overriding { value: e, env: m, error: Some(x) },
            (Some(url), Some(model), Ok(timeout_secs)) => match filled_var(
                m,
                "SEMDOC_EMBEDDER_HTTP_API_KEY"@,
            ) {
                Some(k) => Overriding {
                    value: EmbeddingV::Http {
                        url,
                        model,
                        api_key_env: Some(INLINE_KEY@),
                        timeout_secs,
                    },
                    env: m.insert(INLINE_KEY@, k),
                    error: None,
                },
                None => Overriding {
                    value: EmbeddingV::Http {
                        url,
                        model,
                        api_key_env: var(m, "SEMDOC_EMBEDDER_HTTP_API_KEY_ENV"@),
                        timeout_secs,
                    },
                    env: m,
                    error: None,
                },
            },
        }
    } else if b == "onnx"@ {
        Overriding {
            value: EmbeddingV::Onnx { dir: var(m, "SEMDOC_EMBEDDER_DIR"@) },
            env: m,
            error: None,
        }
    } else {
        Overriding {
            value: e,
            env: m,
            error: Some("unknown SEMDOC_EMBEDDER_BACKEND `"@ + b + "`"@),
        }
    }
}

/// The embedding configuration of the file with what the environment says of
/// it: the key and the timeout that the environment holds come before those of
/// the file.
pub open spec fn filled_embedding(e: EmbeddingV, m: Map<Seq<char>, Seq<char>>) -> Overriding<
    EmbeddingV,
> {
    match e {
        EmbeddingV::Onnx { .. } => Overriding { value: e, env: m, error: None },
        EmbeddingV::Http { url, model, api_key_env, timeout_secs } => {
            let k = filled_var(m, "SEMDOC_EMBEDDER_HTTP_API_KEY"@);
            let key = if k is Some {
                Some(INLINE_KEY@)
            } else {
                api_key_env
            };
            let env = match k {
                Some(v) => m.insert(INLINE_KEY@, v),
                None => m,
            };
            match number_var(env, "SEMDOC_EMBEDDER_HTTP_TIMEOUT"@, timeout_secs) {
                Ok(t) => Overriding {
                    value: EmbeddingV::Http { url, model, api_key_env: key, timeout_secs: t },
                    env,
                    error: None,
                },
                Err(x) => Overriding {
                    value: EmbeddingV::Http { url, model, api_key_env: key, timeout_secs },
                    env,
                    error: Some(x),
                },
            }
        },
    }
}

/// The embedding configuration after the environment: a backend it names
/// replaces that of the file; a file that names the in-process backend is not
/// followed unless the environment names its directory.
pub open spec fn overridden_embedding(e: EmbeddingV, m: Map<Seq<char>, Seq<char>>) -> Overriding<
    EmbeddingV,
> {
    let start = if var(m, "SEMDOC_EMBEDDER_BACKEND"@) is None && e is Onnx && var(
        m,
        "SEMDOC_EMBEDDER_DIR"@,
    ) is None {
        default_embedding()
    } else {
        e
    };
    match var(m, "SEMDOC_EMBEDDER_BACKEND"@) {
        Some(b) => named_embedding(start, m, text::lowered(b)),
        None => filled_embedding(start, m),
    }
}

/// The key variable of a reranker, if it holds a key.
pub open spec fn rerank_key(m: Map<Seq<char>, Seq<char>>) -> Option<Seq<char>> {
    if filled_var(m, "SEMDOC_RERANKER_HTTP_API_KEY"@) is Some {
        Some("SEMDOC_RERANKER_HTTP_API_KEY"@)
    } else {
        None
    }
}

/// The reranking configuration that the environment describes for a backend
/// `b`, or why it describes none.
pub open spec fn named_rerank(m: Map<Seq<char>, Seq<char>>, b: Seq<char>) -> Result<
    RerankV,
    Seq<char>,
> {
    let url = var(m, "SEMDOC_RERANKER_HTTP_URL"@);
    let timeout = number_var(m, "SEMDOC_RERANKER_HTTP_TIMEOUT"@, DEFAULT_RERANK_TIMEOUT_SECS);
    if b == "onnx"@ {
        Ok(RerankV::Onnx { dir: var(m, "SEMDOC_RERANKER_DIR"@) })
    } else if b == "tei"@ || b == "http"@ {
        match (url, timeout) {
            (None, _) => Err(
                required_error("SEMDOC_RERANKER_HTTP_URL"@, "SEMDOC_RERANKER_BACKEND=tei"@),
            ),
            (Some(_), Err(x)) => Err(x),
            (Some(endpoint), Ok(timeout_secs)) => Ok(
                RerankV::Tei { endpoint, api_key_env: rerank_key(m), timeout_secs },
            ),
        }
    } else if b == "openai"@ {
        match (url, timeout) {
            (None, _) => Err(
                required_error("SEMDOC_RERANKER_HTTP_URL"@, "SEMDOC_RERANKER_BACKEND=openai"@),
            ),
            (Some(_), Err(x)) => Err(x),
            (Some(endpoint), Ok(timeout_secs)) => Ok(
                RerankV::Openai {
                    endpoint,
                    model: var(m, "SEMDOC_RERANKER_MODEL"@),
                    api_key_env: rerank_key(m),
                    timeout_secs,
                },
            ),
        }
    } else {
        Err("unknown SEMDOC_RERANKER_BACKEND `"@ + b + "`"@)
    }
}

/// The reranking configuration after the environment.
pub open spec fn overridden_rerank(r: RerankV, m: Map<Seq<char>, Seq<char>>) -> Overriding<
    RerankV,
> {
    let start = if var(m, "SEMDOC_RERANKER_BACKEND"@) is None && r is Onnx && var(
        m,
        "SEMDOC_RERANKER_DIR"@,
    ) is None {
        default_rerank()
    } else {
        r
    };
    match var(m, "SEMDOC_RERANKER_BACKEND"@) {
        Some(b) => match named_rerank(m, text::lowered(b)) {
            Ok(v) => Overriding { value: v, env: m, error: None },
            Err(x) => Overriding { value: start, env: m, error: Some(x) },
        },
        None => Overriding { value: start, env: m, error: None },
    }
}

/// A size after the environment, or why the environment gives none.
pub open spec fn overridden_size(
    v: Option<usize>,
    m: Map<Seq<char>, Seq<char>>,
    name: Seq<char>,
) -> Result<Option<usize>, Seq<char>> {
    match var(m, name) {
        Some(s) => match text::natural_upto(s, usize::MAX as nat) {
            Some(n) => Ok(Some(n as usize)),
            None => Err("bad "@ + name + " `"@ + s + "`"@),
        },
        None => Ok(v),
    }
}

/// The TLS configuration after the environment.
pub open spec fn overridden_tls(t: TlsV, m: Map<Seq<char>, Seq<char>>) -> TlsV {
    TlsV {
        insecure: match var(m, tls::ENV_INSECURE@) {
            Some(v) => tls::is_on(v),
            None => t.insecure,
        },
        ca_bundle: match filled_var(m, tls::ENV_CA_BUNDLE@) {
            Some(v) => Some(v),
            None => t.ca_bundle,
        },
    }
}

/// The environment with the TLS configuration written into it.
pub open spec fn tls_exported(t: TlsV, m: Map<Seq<char>, Seq<char>>) -> Map<Seq<char>, Seq<char>> {
    let a = if t.insecure {
        m.insert(tls::ENV_INSECURE@, "1"@)
    } else {
        m
    };
    match t.ca_bundle {
        Some(p) => a.insert(tls::ENV_CA_BUNDLE@, p),
        None => a,
    }
}

impl EmbeddingConfig {
    fn override_from(&mut self, env: &mut Dict<String>) -> (r: Result<(), String>)
        requires
            old(env).wf(),
        ensures
            final(env).wf(),
            ({
                let o = overridden_embedding(old(self)@, vars(*old(env)));
                &&& final(self)@ == o.value
                &&& vars(*final(env)) == o.env
                &&& match r {
                    Ok(_) => o.error is None,
                    Err(e) => o.error == Some(e@),
                }
            }),
    {
        let backend: Option<String> = get_var(env, "SEMDOC_EMBEDDER_BACKEND");
        let dir: Option<String> = get_var(env, "SEMDOC_EMBEDDER_DIR");
        let file_onnx: bool = match self {
            EmbeddingConfig::Onnx { .. } => true,
            _ => false,
        };
        if backend.is_none() && file_onnx && dir.is_none() {
            *self = EmbeddingConfig::default();
        }
        match backend {
            Some(b) => {
                let b: String = text::to_lower(b.as_str());
                if text::same(b.as_str(), "http") {
                    let url: String = match get_var(env, "SEMDOC_EMBEDDER_HTTP_URL") {
                        Some(u) => u,
                        None => {
                            return Err(
                                text::cat3(
                                    "SEMDOC_EMBEDDER_HTTP_URL",
                                    " required for ",
                                    "SEMDOC_EMBEDDER_BACKEND=http",
                                ),
                            );
                        },
                    };
                    let model: String = match get_var(env, "SEMDOC_EMBEDDER_HTTP_MODEL") {
                        Some(m) => m,
                        None => {
                            return Err(
                                text::cat3(
                                    "SEMDOC_EMBEDDER_HTTP_MODEL",
                                    " required for ",
                                    "SEMDOC_EMBEDDER_BACKEND=http",
                                ),
                            );
                        },
                    };
                    let timeout_secs: u64 = match parse_env_num(
                        env,
                        "SEMDOC_EMBEDDER_HTTP_TIMEOUT",
                        DEFAULT_TIMEOUT_SECS,
                    ) {
                        Ok(t) => t,
                        Err(e) => {
                            return Err(e);
                        },
                    };
                    let mut api_key_env: Option<String> = get_var(
                        env,
                        "SEMDOC_EMBEDDER_HTTP_API_KEY_ENV",
                    );
                    match get_filled(env, "SEMDOC_EMBEDDER_HTTP_API_KEY") {
                        Some(k) => {
                            set_var(env, INLINE_KEY, k.as_str());
                            api_key_env = Some(INLINE_KEY.to_string());
                        },
                        None => {},
                    }
                    *self = EmbeddingConfig::Http { url, model, api_key_env, timeout_secs };
                } else if text::same(b.as_str(), "onnx") {
                    *self = EmbeddingConfig::Onnx { dir };
                } else {
                    return Err(
                        text::cat3("unknown SEMDOC_EMBEDDER_BACKEND `", b.as_str(), "`"),
                    );
                }
            },
            None => {
                return self.fill_from(env);
            },
        }
        Ok(())
    }

    fn fill_from(&mut self, env: &mut Dict<String>) -> (r: Result<(), String>)
        requires
            old(env).wf(),
        ensures
            final(env).wf(),
            ({
                let o = filled_embedding(old(self)@, vars(*old(env)));
                &&& final(self)@ == o.value
                &&& vars(*final(env)) == o.env
                &&& match r {
                    Ok(_) => o.error is None,
                    Err(e) => o.error == Some(e@),
                }
            }),
    {
        let now: EmbeddingConfig = self.copy();
        match now {
            EmbeddingConfig::Onnx { .. } => Ok(()),
            EmbeddingConfig::Http { url, model, api_key_env, timeout_secs } => {
                let mut key: Option<String> = api_key_env;
                match get_filled(env, "SEMDOC_EMBEDDER_HTTP_API_KEY") {
                    Some(k) => {
                        set_var(env, INLINE_KEY, k.as_str());
                        key = Some(INLINE_KEY.to_string());
                    },
                    None => {},
                }
                let mut timeout: u64 = timeout_secs;
                let mut failed: Option<String> = None;
                match parse_env_num(env, "SEMDOC_EMBEDDER_HTTP_TIMEOUT", timeout_secs) {
                    Ok(t) => {
                        timeout = t;
                    },
                    Err(e) => {
                        failed = Some(e);
                    },
                }
                *self = EmbeddingConfig::Http {
                    url,
                    model,
                    api_key_env: key,
                    timeout_secs: timeout,
                };
                match failed {
                    Some(e) => Err(e),
                    None => Ok(()),
                }
            },
        }
    }

    /// The same configuration again.
    pub fn copy(&self) -> (r: EmbeddingConfig)
        ensures
            r@ == self@,
    {
        match self {
            EmbeddingConfig::Onnx { dir } => EmbeddingConfig::Onnx { dir: store::copy_opt(dir) },
            EmbeddingConfig::Http { url, model, api_key_env, timeout_secs } =>
            EmbeddingConfig::Http {
                url: url.clone(),
                model: model.clone(),
                api_key_env: store::copy_opt(api_key_env),
                timeout_secs: *timeout_secs,
            },
        }
    }
}

impl RerankConfig {
    fn override_from(&mut self, env: &Dict<String>) -> (r: Result<(), String>)
        requires
            env.wf(),
        ensures
            ({
                let o = overridden_rerank(old(self)@, vars(*env));
                &&& final(self)@ == o.value
                &&& match r {
                    Ok(_) => o.error is None,
                    Err(e) => o.error == Some(e@),
                }
            }),
    {
        let backend: Option<String> = get_var(env, "SEMDOC_RERANKER_BACKEND");
        let dir: Option<String> = get_var(env, "SEMDOC_RERANKER_DIR");
        let file_onnx: bool = match self {
            RerankConfig::Onnx { .. } => true,
            _ => false,
        };
        if backend.is_none() && file_onnx && dir.is_none() {
            *self = RerankConfig::default();
        }
        match backend {
            Some(b) => {
                let b: String = text::to_lower(b.as_str());
                match RerankConfig::from_env(env, b.as_str()) {
                    Ok(v) => {
                        *self = v;
                        Ok(())
                    },
                    Err(e) => Err(e),
                }
            },
            None => Ok(()),
        }
    }

    fn from_env(env: &Dict<String>, b: &str) -> (r: Result<RerankConfig, String>)
        requires
            env.wf(),
        ensures
            (match r {
                Ok(v) => named_rerank(vars(*env), b@) == Ok::<RerankV, Seq<char>>(v@),
                Err(e) => named_rerank(vars(*env), b@) == Err::<RerankV, Seq<char>>(e@),
            }),
    {
        if text::same(b, "onnx") {
            return Ok(RerankConfig::Onnx { dir: get_var(env, "SEMDOC_RERANKER_DIR") });
        }
        let tei: bool = text::same(b, "tei") || text::same(b, "http");
        let openai: bool = text::same(b, "openai");
        if !tei && !openai {
            return Err(text::cat3("unknown SEMDOC_RERANKER_BACKEND `", b, "`"));
        }
        let endpoint: String = match get_var(env, "SEMDOC_RERANKER_HTTP_URL") {
            Some(u) => u,
            None => {
                let name: &str = if tei {
                    "SEMDOC_RERANKER_BACKEND=tei"
                } else {
                    "SEMDOC_RERANKER_BACKEND=openai"
                };
                return Err(text::cat3("SEMDOC_RERANKER_HTTP_URL", " required for ", name));
            },
        };
        let timeout_secs: u64 = match parse_env_num(
            env,
            "SEMDOC_RERANKER_HTTP_TIMEOUT",
            DEFAULT_RERANK_TIMEOUT_SECS,
        ) {
            Ok(t) => t,
            Err(e) => {
                return Err(e);
            },
        };
        let api_key_env: Option<String> = inline_or_named_key(env, "SEMDOC_RERANKER_HTTP_API_KEY");
        if tei {
            Ok(RerankConfig::Tei { endpoint, api_key_env, timeout_secs })
        } else {
            Ok(
                RerankConfig::Openai {
                    endpoint,
                    model: get_var(env, "SEMDOC_RERANKER_MODEL"),
                    api_key_env,
                    timeout_secs,
                },
            )
        }
    }
}

fn override_size(v: Option<usize>, env: &Dict<String>, name: &str) -> (r: Result<
    Option<usize>,
    String,
>)
    requires
        env.wf(),
    ensures
        (match r {
            Ok(x) => overridden_size(v, vars(*env), name@) == Ok::<Option<usize>, Seq<char>>(x),
            Err(e) => overridden_size(v, vars(*env), name@) == Err::<Option<usize>, Seq<char>>(
                e@,
            ),
        }),
{
    match get_var(env, name) {
        Some(s) => match text::parse_upto(s.as_str(), usize::MAX as u64) {
            Some(n) => Ok(Some(n as usize)),
            None => Err(text::cat5("bad ", name, " `", s.as_str(), "`")),
        },
        None => Ok(v),
    }
}

impl TlsConfig {
    /// Writes the configuration into the environment that connections read.
    pub fn apply_env(&self, env: &mut Dict<String>)
        requires
            old(env).wf(),
        ensures
            final(env).wf(),
            vars(*final(env)) == tls_exported(self@, vars(*old(env))),
    {
        if self.insecure {
            set_var(env, tls::ENV_INSECURE, "1");
        }
        match &self.ca_bundle {
            Some(p) => set_var(env, tls::ENV_CA_BUNDLE, p.as_str()),
            None => {},
        }
    }

    fn override_from(&mut self, env: &Dict<String>)
        requires
            env.wf(),
        ensures
            final(self)@ == overridden_tls(old(self)@, vars(*env)),
    {
        match get_var(env, tls::ENV_INSECURE) {
            Some(v) => {
                self.insecure = tls::on(v.as_str());
            },
            None => {},
        }
        match get_filled(env, tls::ENV_CA_BUNDLE) {
            Some(v) => {
                self.ca_bundle = Some(v);
            },
            None => {},
        }
    }
}

/// The whole configuration after the environment, and the environment after
/// it. Where a step fails, the later ones are not made.
pub struct Overridden {
    pub embedding: EmbeddingV,
    pub rerank: RerankV,
    pub size: Option<usize>,
    pub overlap: Option<usize>,
    pub listen: Option<Seq<char>>,
    pub tls: TlsV,
    pub env: Map<Seq<char>, Seq<char>>,
    pub error: Option<Seq<char>>,
}

/// The configuration and the environment as they stand before overriding.
pub open spec fn not_overridden(c: DeploymentConfig, m: Map<Seq<char>, Seq<char>>) -> Overridden {
    Overridden {
        embedding: c.embedding@,
        rerank: c.rerank@,
        size: c.chunk.size,
        overlap: c.chunk.overlap,
        listen: store::opt_view(c.server.listen),
        tls: c.tls@,
        env: m,
        error: None,
    }
}

/// What the environment makes of the configuration: embedding, reranking,
/// chunk size, overlap, address and TLS in this order.
pub open spec fn overridden(c: DeploymentConfig, m: Map<Seq<char>, Seq<char>>) -> Overridden {
    let s0 = not_overridden(c, m);
    let e = overridden_embedding(s0.embedding, m);
    let s1 = Overridden { embedding: e.value, env: e.env, error: e.error, ..s0 };
    if e.error is Some {
        s1
    } else {
        let r = overridden_rerank(s1.rerank, s1.env);
        let s2 = Overridden { rerank: r.value, error: r.error, ..s1 };
        if r.error is Some {
            s2
        } else {
            match overridden_size(s2.size, s2.env, "SEMDOC_CHUNK_SIZE"@) {
                Err(x) => Overridden { error: Some(x), ..s2 },
                Ok(size) => {
                    let s3 = Overridden { size, ..s2 };
                    match overridden_size(s3.overlap, s3.env, "SEMDOC_CHUNK_OVERLAP"@) {
                        Err(x) => Overridden { error: Some(x), ..s3 },
                        Ok(overlap) => {
                            let t = overridden_tls(s3.tls, s3.env);
                            Overridden {
                                overlap,
                                listen: match var(s3.env, "SEMDOC_LISTEN"@) {
                                    Some(l) => Some(l),
                                    None => s3.listen,
                                },
                                tls: t,
                                env: tls_exported(t, s3.env),
                                ..s3
                            }
                        },
                    }
                },
            }
        }
    }
}

impl DeploymentConfig {
    /// Lets the environment override the configuration.
    pub fn apply_env_overrides(&mut self, env: &mut Dict<String>) -> (r: Result<(), String>)
        requires
            old(env).wf(),
        ensures
            final(env).wf(),
            ({
                let o = overridden(*old(self), vars(*old(env)));
                &&& not_overridden(*final(self), vars(*final(env))) == (Overridden {
                    error: None,
                    ..o
                })
                &&& match r {
                    Ok(_) => o.error is None,
                    Err(e) => o.error == Some(e@),
                }
            }),
            final(self).server.token_env == old(self).server.token_env,
            final(self).server.webhook_url == old(self).server.webhook_url,
            final(self).server.webhook_events == old(self).server.webhook_events,
            final(self).server.webhook_secret_env == old(self).server.webhook_secret_env,
    {
        match self.embedding.override_from(env) {
            Err(e) => {
                return Err(e);
            },
            Ok(_) => {},
        }
        match self.rerank.override_from(env) {
            Err(e) => {
                return Err(e);
            },
            Ok(_) => {},
        }
        match override_size(self.chunk.size, env, "SEMDOC_CHUNK_SIZE") {
            Err(e) => {
                return Err(e);
            },
            Ok(n) => {
                self.chunk.size = n;
            },
        }
        match override_size(self.chunk.overlap, env, "SEMDOC_CHUNK_OVERLAP") {
            Err(e) => {
                return Err(e);
            },
            Ok(n) => {
                self.chunk.overlap = n;
            },
        }
        match get_var(env, "SEMDOC_LISTEN") {
            Some(l) => {
                self.server.listen = Some(l);
            },
            None => {},
        }
        self.tls.override_from(env);
        self.tls.apply_env(env);
        Ok(())
    }
}

// ---------------------------------------------------------------------------
// Validity
// ---------------------------------------------------------------------------

/// The error where a setting names a variable that is not set, if it does.
pub open spec fn unset_error(
    m: Map<Seq<char>, Seq<char>>,
    name: Seq<char>,
    named: Option<Seq<char>>,
) -> Option<Seq<char>> {
    match named {
        Some(v) => if var(m, v) is None {
            Some(name + ": referenced env var `"@ + v + "` is not set"@)
        } else {
            None
        },
        None => None,
    }
}

/// The error where a directory is named that holds no model, if one is.
pub open spec fn model_error(
    name: Seq<char>,
    dir: Option<Seq<char>>,
    models: Seq<Seq<char>>,
) -> Option<Seq<char>> {
    match dir {
        Some(d) => if models.contains(d) {
            None
        } else {
            Some(name + ": no model.onnx under `"@ + d + "`"@)
        },
        None => None,
    }
}

/// What is wrong with an embedding configuration, if anything.
pub open spec fn embedding_error(
    e: EmbeddingV,
    m: Map<Seq<char>, Seq<char>>,
    onnx: bool,
    models: Seq<Seq<char>>,
) -> Option<Seq<char>> {
    match e {
        EmbeddingV::Http { api_key_env, .. } => unset_error(
            m,
            "embedding.api_key_env"@,
            api_key_env,
        ),
        EmbeddingV::Onnx { dir } => if !onnx {
            Some("embedding backend onnx requires building with feature `onnx`"@)
        } else {
            model_error("embedding.dir"@, dir, models)
        },
    }
}

/// What is wrong with a reranker that is reached over HTTP, if anything.
pub open spec fn endpoint_error(
    endpoint: Seq<char>,
    api_key_env: Option<Seq<char>>,
    m: Map<Seq<char>, Seq<char>>,
) -> Option<Seq<char>> {
    if endpoint.len() == 0 {
        Some(NO_ENDPOINT@)
    } else {
        unset_error(m, "rerank.api_key_env"@, api_key_env)
    }
}

/// What is wrong with a reranking configuration, if anything.
pub open spec fn rerank_error(
    r: RerankV,
    m: Map<Seq<char>, Seq<char>>,
    onnx: bool,
    models: Seq<Seq<char>>,
) -> Option<Seq<char>> {
    match r {
        RerankV::Tei { endpoint, api_key_env, .. } => endpoint_error(endpoint, api_key_env, m),
        RerankV::Openai { endpoint, api_key_env, .. } => endpoint_error(endpoint, api_key_env, m),
        RerankV::Onnx { dir } => if !onnx {
            Some("rerank backend onnx requires building with feature `onnx`"@)
        } else {
            model_error("rerank.dir"@, dir, models)
        },
        RerankV::Off => None,
    }
}

/// What is wrong with a chunk size, if anything.
pub open spec fn size_error(size: Option<usize>) -> Option<Seq<char>> {
    match size {
        Some(n) => if chunker::MIN_CHUNK_SIZE <= n <= chunker::MAX_CHUNK_SIZE {
            None
        } else {
            Some("chunk.size must be within [64, 8192]"@)
        },
        None => None,
    }
}

/// The first of two errors.
pub open spec fn either_error(a: Option<Seq<char>>, b: Option<Seq<char>>) -> Option<Seq<char>> {
    match a {
        Some(_) => a,
        None => b,
    }
}

/// What is wrong with a configuration, if anything: the first of what is wrong
/// with its parts.
pub open spec fn config_error(
    c: DeploymentConfig,
    m: Map<Seq<char>, Seq<char>>,
    onnx: bool,
    models: Seq<Seq<char>>,
) -> Option<Seq<char>> {
    either_error(
        embedding_error(c.embedding@, m, onnx, models),
        either_error(
            rerank_error(c.rerank@, m, onnx, models),
            either_error(
                unset_error(m, "server.token_env"@, store::opt_view(c.server.token_env)),
                size_error(c.chunk.size),
            ),
        ),
    )
}

/// The error where a reranker over HTTP has no endpoint.
pub const NO_ENDPOINT: &'static str = "rerank backend=http requires endpoint (set [rerank] in Config.toml or SEMDOC_RERANKER_HTTP_URL)";

fn check_set(env: &Dict<String>, name: &str, named: &Option<String>) -> (r: Option<String>)
    requires
        env.wf(),
    ensures
        store::opt_view(r) == unset_error(vars(*env), name@, store::opt_view(*named)),
{
    match named {
        Some(v) => if get_var(env, v.as_str()).is_none() {
            Some(text::cat4(name, ": referenced env var `", v.as_str(), "` is not set"))
        } else {
            None
        },
        None => None,
    }
}

fn check_model(name: &str, dir: &Option<String>, models: &Vec<String>) -> (r: Option<String>)
    ensures
        store::opt_view(r) == model_error(name@, store::opt_view(*dir), text::texts(models@)),
{
    match dir {
        Some(d) => if text::listed(models, d.as_str()) {
            None
        } else {
            Some(text::cat4(name, ": no model.onnx under `", d.as_str(), "`"))
        },
        None => None,
    }
}

fn check_endpoint(endpoint: &String, api_key_env: &Option<String>, env: &Dict<String>) -> (r:
    Option<String>)
    requires
        env.wf(),
    ensures
        store::opt_view(r) == endpoint_error(endpoint@, store::opt_view(*api_key_env), vars(*env)),
{
    if endpoint.as_str().is_empty() {
        Some(NO_ENDPOINT.to_string())
    } else {
        check_set(env, "rerank.api_key_env", api_key_env)
    }
}

impl DeploymentConfig {
    /// Checks that the configuration can be worked with. Variables that hold
    /// secrets must be set, and `models` lists the directories that hold a
    /// model.
    pub fn validate(
        &self,
        env: &Dict<String>,
        features: &BuildFeatures,
        models: &Vec<String>,
    ) -> (r: Result<(), String>)
        requires
            env.wf(),
        ensures
            (match r {
                Ok(_) => config_error(
                    *self,
                    vars(*env),
                    features.onnx,
                    text::texts(models@),
                ) is None,
                Err(e) => config_error(
                    *self,
                    vars(*env),
                    features.onnx,
                    text::texts(models@),
                ) == Some(e@),
            }),
    {
        let wrong: Option<String> = match &self.embedding {
            EmbeddingConfig::Http { api_key_env, .. } => check_set(
                env,
                "embedding.api_key_env",
                api_key_env,
            ),
            EmbeddingConfig::Onnx { dir } => if !features.onnx {
                Some("embedding backend onnx requires building with feature `onnx`".to_string())
            } else {
                check_model("embedding.dir", dir, models)
            },
        };
        match wrong {
            Some(e) => {
                return Err(e);
            },
            None => {},
        }
        let wrong: Option<String> = match &self.rerank {
            RerankConfig::Tei { endpoint, api_key_env, .. } => check_endpoint(
                endpoint,
                api_key_env,
                env,
            ),
            RerankConfig::Openai { endpoint, api_key_env, .. } => check_endpoint(
                endpoint,
                api_key_env,
                env,
            ),
            RerankConfig::Onnx { dir } => if !features.onnx {
                Some("rerank backend onnx requires building with feature `onnx`".to_string())
            } else {
                check_model("rerank.dir", dir, models)
            },
            RerankConfig::Off => None,
        };
        match wrong {
            Some(e) => {
                return Err(e);
            },
            None => {},
        }
        match check_set(env, "server.token_env", &self.server.token_env) {
            Some(e) => {
                return Err(e);
            },
            None => {},
        }
        match self.chunk.size {
            Some(n) => if n < chunker::MIN_CHUNK_SIZE || n > chunker::MAX_CHUNK_SIZE {
                Err("chunk.size must be within [64, 8192]".to_string())
            } else {
                Ok(())
            },
            None => Ok(()),
        }
    }
}

// ---------------------------------------------------------------------------
// The configuration file
// ---------------------------------------------------------------------------

/// What came of reading the configuration file.
pub enum ConfigFile {
    /// It holds this configuration.
    Parsed(DeploymentConfig),
    /// It holds no configuration, for this reason.
    Malformed(String),
    /// There is no such file.
    Missing,
    /// It could not be read, for this reason.
    Unreadable(String),
}

/// The file that is read: the one that is asked for, else the one that the
/// environment names, else the one in the working directory.
pub open spec fn file_name(path: Option<Seq<char>>, m: Map<Seq<char>, Seq<char>>) -> Seq<char> {
    match path {
        Some(p) => p,
        None => match var(m, "SEMDOC_CONFIG"@) {
            Some(p) => p,
            None => "Config.toml"@,
        },
    }
}

/// The error that the file gives, if it does. Only a file that is asked for by
/// its path has to be there.
pub open spec fn file_error(
    path: Option<Seq<char>>,
    file: ConfigFile,
    m: Map<Seq<char>, Seq<char>>,
) -> Option<Seq<char>> {
    let name = file_name(path, m);
    match file {
        ConfigFile::Parsed(_) => None,
        ConfigFile::Malformed(e) => Some("parse deployment config "@ + name + ": "@ + e@),
        ConfigFile::Missing => if path is Some {
            Some("deployment config not found: "@ + name)
        } else {
            None
        },
        ConfigFile::Unreadable(e) => Some("read deployment config "@ + name + ": "@ + e@),
    }
}

/// Whether a configuration is the default.
pub open spec fn is_default(c: DeploymentConfig) -> bool {
    &&& c.embedding@ == default_embedding()
    &&& c.rerank@ == default_rerank()
    &&& c.chunk.size is None
    &&& c.chunk.overlap is None
    &&& c.server.listen is None
    &&& c.server.token_env is None
    &&& c.server.webhook_url is None
    &&& c.server.webhook_events is None
    &&& c.server.webhook_secret_env is None
    &&& !c.tls.insecure
    &&& c.tls.ca_bundle is None
}

/// Whether a configuration is what the file holds: the default where there is
/// no file.
pub open spec fn is_base(c: DeploymentConfig, file: ConfigFile) -> bool {
    match file {
        ConfigFile::Parsed(p) => c == p,
        _ => is_default(c),
    }
}

/// Whether a configuration is another one after overriding, and so the
/// environment.
pub open spec fn is_overridden(
    c: DeploymentConfig,
    env: Map<Seq<char>, Seq<char>>,
    base: DeploymentConfig,
    before: Map<Seq<char>, Seq<char>>,
) -> bool {
    &&& not_overridden(c, env) == (Overridden { error: None, ..overridden(base, before) })
    &&& c.server.token_env == base.server.token_env
    &&& c.server.webhook_url == base.server.webhook_url
    &&& c.server.webhook_events == base.server.webhook_events
    &&& c.server.webhook_secret_env == base.server.webhook_secret_env
}

/// Whether `r` is what a file and the environment give together, and `env` the
/// environment afterwards.
pub open spec fn is_combined(
    r: Result<DeploymentConfig, String>,
    env: Map<Seq<char>, Seq<char>>,
    path: Option<Seq<char>>,
    file: ConfigFile,
    before: Map<Seq<char>, Seq<char>>,
) -> bool {
    match file_error(path, file, before) {
        Some(e) => r matches Err(x) && x@ == e && env == before,
        None => exists|base: DeploymentConfig| #[trigger]
            is_base(base, file) && match overridden(base, before).error {
                Some(e) => r matches Err(x) && x@ == e && env == overridden(base, before).env,
                None => r matches Ok(c) && is_overridden(c, env, base, before),
            },
    }
}

/// Whether `r` is what a file and the environment give together once it is
/// validated, and `env` the environment afterwards.
pub open spec fn is_loaded(
    r: Result<DeploymentConfig, String>,
    env: Map<Seq<char>, Seq<char>>,
    path: Option<Seq<char>>,
    file: ConfigFile,
    before: Map<Seq<char>, Seq<char>>,
    onnx: bool,
    models: Seq<Seq<char>>,
) -> bool {
    exists|c: Result<DeploymentConfig, String>| #[trigger]
        is_combined(c, env, path, file, before) && match c {
            Ok(v) => match config_error(v, env, onnx, models) {
                Some(e) => r matches Err(x) && x@ == e,
                None => r == c,
            },
            Err(e) => r == c,
        }
}

/// The file that is read.
pub fn config_path(path: Option<&str>, env: &Dict<String>) -> (r: String)
    requires
        env.wf(),
    ensures
        r@ == file_name(chunker::opt_text(path), vars(*env)),
{
    match path {
        Some(p) => p.to_string(),
        None => match get_var(env, "SEMDOC_CONFIG") {
            Some(p) => p,
            None => "Config.toml".to_string(),
        },
    }
}

impl DeploymentConfig {
    /// The configuration that the file and the environment give together,
    /// before it is validated.
    pub fn combine(path: Option<&str>, file: ConfigFile, env: &mut Dict<String>) -> (r: Result<
        DeploymentConfig,
        String,
    >)
        requires
            old(env).wf(),
        ensures
            final(env).wf(),
            is_combined(
                r,
                vars(*final(env)),
                chunker::opt_text(path),
                file,
                vars(*old(env)),
            ),
    {
        let name: String = config_path(path, env);
        let named: bool = path.is_some();
        let mut cfg: DeploymentConfig = match file {
            ConfigFile::Parsed(c) => c,
            ConfigFile::Malformed(e) => {
                return Err(
                    text::cat4("parse deployment config ", name.as_str(), ": ", e.as_str()),
                );
            },
            ConfigFile::Missing => {
                if named {
                    return Err(text::cat2("deployment config not found: ", name.as_str()));
                }
                DeploymentConfig::default()
            },
            ConfigFile::Unreadable(e) => {
                return Err(
                    text::cat4("read deployment config ", name.as_str(), ": ", e.as_str()),
                );
            },
        };
        let ghost base = cfg;
        assert(is_base(base, file));
        match cfg.apply_env_overrides(env) {
            Ok(_) => Ok(cfg),
            Err(e) => Err(e),
        }
    }

    /// The configuration that the file and the environment give together, if it
    /// can be worked with. `models` lists the directories that hold a model.
    pub fn load(
        path: Option<&str>,
        file: ConfigFile,
        env: &mut Dict<String>,
        features: &BuildFeatures,
        models: &Vec<String>,
    ) -> (r: Result<DeploymentConfig, String>)
        requires
            old(env).wf(),
        ensures
            final(env).wf(),
            is_loaded(
                r,
                vars(*final(env)),
                chunker::opt_text(path),
                file,
                vars(*old(env)),
                features.onnx,
                text::texts(models@),
            ),
    {
        let combined: Result<DeploymentConfig, String> = DeploymentConfig::combine(path, file, env);
        let ghost p = chunker::opt_text(path);
        assert(is_combined(combined, vars(*env), p, file, vars(*old(env))));
        match combined {
            Ok(c) => match c.validate(env, features, models) {
                Ok(_) => Ok(c),
                Err(e) => Err(e),
            },
            Err(e) => Err(e),
        }
    }

    /// The token that callers must bring, if one is configured.
    pub fn server_token(&self, env: &Dict<String>) -> (r: Option<String>)
        requires
            env.wf(),
        ensures
            store::opt_view(r) == (match self.server.token_env {
                Some(t) => var(vars(*env), t@),
                None => None,
            }),
    {
        match &self.server.token_env {
            Some(t) => get_var(env, t.as_str()),
            None => None,
        }
    }

    /// Writes the chunk settings into the variables that the chunker is given.
    pub fn apply_chunk_env(&self, env: &mut Dict<String>)
        requires
            old(env).wf(),
        ensures
            final(env).wf(),
            vars(*final(env)) == chunk_exported(
                self.chunk.size,
                self.chunk.overlap,
                vars(*old(env)),
            ),
    {
        match self.chunk.size {
            Some(n) => {
                let t: String = text::usize_text(n);
                set_var(env, "SEMDOC_CHUNK_SIZE", t.as_str());
            },
            None => {},
        }
        match self.chunk.overlap {
            Some(n) => {
                let t: String = text::usize_text(n);
                set_var(env, "SEMDOC_CHUNK_OVERLAP", t.as_str());
            },
            None => {},
        }
    }
}

/// The environment with the chunk settings written into it.
pub open spec fn chunk_exported(
    size: Option<usize>,
    overlap: Option<usize>,
    m: Map<Seq<char>, Seq<char>>,
) -> Map<Seq<char>, Seq<char>> {
    let a = match size {
        Some(n) => m.insert("SEMDOC_CHUNK_SIZE"@, text::decimal(n as nat)),
        None => m,
    };
    match overlap {
        Some(n) => a.insert("SEMDOC_CHUNK_OVERLAP"@, text::decimal(n as nat)),
        None => a,
    }
}

impl ServerConfig {
    /// Whether events of a kind are sent.
    pub fn webhook_enabled(&self, event: &str) -> (r: bool)
        ensures
            r == (self.webhook_url is Some && (self.webhook_events matches Some(list)
                ==> text::texts(list@).contains(event@))),
    {
        match &self.webhook_url {
            None => false,
            Some(_) => match &self.webhook_events {
                None => true,
                Some(list) => text::listed(list, event),
            },
        }
    }

    /// The secret that events are signed with, if one is configured.
    pub fn webhook_secret(&self, env: &Dict<String>) -> (r: Option<String>)
        requires
            env.wf(),
        ensures
            store::opt_view(r) == (match self.webhook_secret_env {
                Some(v) => filled_var(vars(*env), v@),
                None => None,
            }),
    {
        match &self.webhook_secret_env {
            Some(v) => get_filled(env, v.as_str()),
            None => None,
        }
    }
}

// ---------------------------------------------------------------------------
// Laws
// ---------------------------------------------------------------------------

/// What the environment says comes before what the file says: a value that the
/// environment gives does not depend on the file. Of embeddings over HTTP the
/// timeout and the key are such values, whether the environment names a backend
/// or not.
pub proof fn law_environment_comes_first(
    a: DeploymentConfig,
    b: DeploymentConfig,
    m: Map<Seq<char>, Seq<char>>,
)
    requires
        overridden(a, m).error is None,
        overridden(b, m).error is None,
    ensures
        var(m, "SEMDOC_EMBEDDER_BACKEND"@) is Some ==> overridden(a, m).embedding == overridden(
            b,
            m,
        ).embedding,
        var(m, "SEMDOC_RERANKER_BACKEND"@) is Some ==> overridden(a, m).rerank == overridden(
            b,
            m,
        ).rerank,
        var(m, "SEMDOC_CHUNK_SIZE"@) is Some ==> overridden(a, m).size == overridden(b, m).size,
        var(m, "SEMDOC_CHUNK_OVERLAP"@) is Some ==> overridden(a, m).overlap == overridden(
            b,
            m,
        ).overlap,
        var(m, "SEMDOC_LISTEN"@) is Some ==> overridden(a, m).listen == var(m, "SEMDOC_LISTEN"@)
            && overridden(b, m).listen == var(m, "SEMDOC_LISTEN"@),
        var(m, tls::ENV_INSECURE@) is Some ==> overridden(a, m).tls.insecure == overridden(
            b,
            m,
        ).tls.insecure,
        filled_var(m, tls::ENV_CA_BUNDLE@) is Some ==> overridden(a, m).tls.ca_bundle
            == overridden(b, m).tls.ca_bundle,
        var(m, "SEMDOC_EMBEDDER_HTTP_TIMEOUT"@) is Some && overridden(a, m).embedding is Http
            ==> number_var(m, "SEMDOC_EMBEDDER_HTTP_TIMEOUT"@, 0) == Ok::<u64, Seq<char>>(
            overridden(a, m).embedding->Http_timeout_secs,
        ),
        filled_var(m, "SEMDOC_EMBEDDER_HTTP_API_KEY"@) is Some && overridden(a, m).embedding is Http
            ==> overridden(a, m).embedding->Http_api_key_env == Some(INLINE_KEY@) && var(
            overridden(a, m).env,
            INLINE_KEY@,
        ) == filled_var(m, "SEMDOC_EMBEDDER_HTTP_API_KEY"@),
{
    lemma_names();
}

/// Where the environment is empty the file stands as it is, but that a backend
/// in this process is replaced by the default.
pub proof fn law_file_stands_alone(c: DeploymentConfig)
    ensures
        ({
            let o = overridden(c, Map::empty());
            &&& o.error is None
            &&& o.embedding == (if c.embedding@ is Onnx {
                default_embedding()
            } else {
                c.embedding@
            })
            &&& o.rerank == (if c.rerank@ is Onnx {
                default_rerank()
            } else {
                c.rerank@
            })
            &&& o.size == c.chunk.size
            &&& o.overlap == c.chunk.overlap
            &&& o.listen == store::opt_view(c.server.listen)
            &&& o.tls == c.tls@
        }),
{
}

/// A key that the environment gives directly is found under the variable that
/// the configuration names after overriding.
pub proof fn law_inline_key_is_found(c: DeploymentConfig, m: Map<Seq<char>, Seq<char>>)
    requires
        overridden(c, m).error is None,
        overridden(c, m).embedding is Http,
        filled_var(m, "SEMDOC_EMBEDDER_HTTP_API_KEY"@) is Some,
    ensures
        overridden(c, m).embedding->api_key_env == Some(INLINE_KEY@),
        var(overridden(c, m).env, INLINE_KEY@) == filled_var(m, "SEMDOC_EMBEDDER_HTTP_API_KEY"@),
{
    lemma_names();
}

/// Connections see the TLS settings of the configuration: what they read from
/// the environment is what the configuration holds after overriding. An empty
/// name of a file counts as none.
pub proof fn law_tls_settings_reach_connections(
    c: DeploymentConfig,
    m: Map<Seq<char>, Seq<char>>,
)
    requires
        overridden(c, m).error is None,
        overridden(c, m).tls.ca_bundle matches Some(p) ==> p.len() > 0,
    ensures
        tls::insecure_in(overridden(c, m).env) == overridden(c, m).tls.insecure,
        filled_var(overridden(c, m).env, tls::ENV_CA_BUNDLE@) == overridden(c, m).tls.ca_bundle,
{
    lemma_names();
}

/// The chunker works with the configured sizes once they are exported, as far
/// as it allows them.
pub proof fn law_chunk_settings_reach_the_chunker(
    size: usize,
    overlap: usize,
    m: Map<Seq<char>, Seq<char>>,
)
    requires
        size_error(Some(size)) is None,
        overlap <= size / 2,
    ensures
        ({
            let e = chunk_exported(Some(size), Some(overlap), m);
            &&& chunker::chunk_size_of(var(e, "SEMDOC_CHUNK_SIZE"@)) == size
            &&& chunker::overlap_of(size as nat, var(e, "SEMDOC_CHUNK_OVERLAP"@)) == overlap
        }),
{
    lemma_names();
    text::law_decimal_reads_back(size as nat);
    text::law_decimal_reads_back(overlap as nat);
}

/// A configuration that nobody wrote is refused: it names no reranker.
pub proof fn law_defaults_are_incomplete(
    c: DeploymentConfig,
    m: Map<Seq<char>, Seq<char>>,
    onnx: bool,
    models: Seq<Seq<char>>,
)
    requires
        is_default(c),
    ensures
        config_error(c, m, onnx, models) == Some(NO_ENDPOINT@),
{
}

/// Without a file and without an environment nothing is loaded: the error says
/// that no reranker is named.
pub proof fn law_nothing_configured_is_refused(
    r: Result<DeploymentConfig, String>,
    env: Map<Seq<char>, Seq<char>>,
    onnx: bool,
    models: Seq<Seq<char>>,
)
    requires
        is_loaded(r, env, None, ConfigFile::Missing, Map::empty(), onnx, models),
    ensures
        r matches Err(e) && e@ == NO_ENDPOINT@,
{
    let none = Map::<Seq<char>, Seq<char>>::empty();
    let c = choose|c: Result<DeploymentConfig, String>| #[trigger]
        is_combined(c, env, None, ConfigFile::Missing, none) && match c {
            Ok(v) => match config_error(v, env, onnx, models) {
                Some(e) => r matches Err(x) && x@ == e,
                None => r == c,
            },
            Err(e) => r == c,
        };
    let base = choose|base: DeploymentConfig| #[trigger]
        is_base(base, ConfigFile::Missing) && match overridden(base, none).error {
            Some(e) => c matches Err(x) && x@ == e && env == overridden(base, none).env,
            None => c matches Ok(v) && is_overridden(v, env, base, none),
        };
    law_file_stands_alone(base);
    law_defaults_are_incomplete(c->Ok_0, env, onnx, models);
}

/// The variables that are written differ from those that are read afterwards.
pub proof fn lemma_names()
    ensures
        INLINE_KEY@ != tls::ENV_INSECURE@,
        INLINE_KEY@ != tls::ENV_CA_BUNDLE@,
        tls::ENV_INSECURE@ != tls::ENV_CA_BUNDLE@,
        "SEMDOC_CHUNK_SIZE"@ != "SEMDOC_CHUNK_OVERLAP"@,
        "SEMDOC_RERANKER_BACKEND"@ != INLINE_KEY@,
        "SEMDOC_RERANKER_DIR"@ != INLINE_KEY@,
        "SEMDOC_RERANKER_HTTP_URL"@ != INLINE_KEY@,
        "SEMDOC_RERANKER_MODEL"@ != INLINE_KEY@,
        "SEMDOC_RERANKER_HTTP_TIMEOUT"@ != INLINE_KEY@,
        "SEMDOC_RERANKER_HTTP_API_KEY"@ != INLINE_KEY@,
        "SEMDOC_CHUNK_SIZE"@ != INLINE_KEY@,
        "SEMDOC_CHUNK_OVERLAP"@ != INLINE_KEY@,
        "SEMDOC_LISTEN"@ != INLINE_KEY@,
        "SEMDOC_EMBEDDER_HTTP_TIMEOUT"@ != INLINE_KEY@,
{
    reveal_strlit("SEMDOC_EMBEDDER_HTTP_API_KEY_INLINE");
    reveal_strlit("SEMDOC_TLS_INSECURE");
    reveal_strlit("SEMDOC_CA_BUNDLE");
    reveal_strlit("SEMDOC_CHUNK_SIZE");
    reveal_strlit("SEMDOC_CHUNK_OVERLAP");
    reveal_strlit("SEMDOC_RERANKER_BACKEND");
    reveal_strlit("SEMDOC_RERANKER_DIR");
    reveal_strlit("SEMDOC_RERANKER_HTTP_URL");
    reveal_strlit("SEMDOC_RERANKER_MODEL");
    reveal_strlit("SEMDOC_RERANKER_HTTP_TIMEOUT");
    reveal_strlit("SEMDOC_RERANKER_HTTP_API_KEY");
    reveal_strlit("SEMDOC_LISTEN");
    reveal_strlit("SEMDOC_EMBEDDER_HTTP_TIMEOUT");
    assert("SEMDOC_EMBEDDER_HTTP_API_KEY_INLINE"@.len() == 35);
    assert("SEMDOC_TLS_INSECURE"@.len() == 19);
    assert("SEMDOC_CA_BUNDLE"@.len() == 16);
    assert("SEMDOC_CHUNK_SIZE"@.len() == 17);
    assert("SEMDOC_CHUNK_OVERLAP"@.len() == 20);
    assert("SEMDOC_RERANKER_BACKEND"@.len() == 23);
    assert("SEMDOC_RERANKER_DIR"@.len() == 19);
    assert("SEMDOC_RERANKER_HTTP_URL"@.len() == 24);
    assert("SEMDOC_RERANKER_MODEL"@.len() == 21);
    assert("SEMDOC_RERANKER_HTTP_TIMEOUT"@.len() == 28);
    assert("SEMDOC_RERANKER_HTTP_API_KEY"@.len() == 28);
    assert("SEMDOC_LISTEN"@.len() == 13);
    assert("SEMDOC_EMBEDDER_HTTP_TIMEOUT"@.len() == 28);
}

} // verus!
