//! Where embeddings come from: a model in this process, or a service that
//! speaks the OpenAI protocol. Vectors are the bit patterns of their numbers.

use crate::config;
use crate::config::EmbeddingConfig;
use crate::dict::Dict;
use crate::http;
use crate::http::{Reply, Request};
use crate::json;
use crate::json::{Json, JsonV};
use crate::plugins::graph;
use crate::schema::BuildFeatures;
use crate::store;
use crate::text;
use vstd::prelude::*;

verus! {

broadcast use vstd::string::group_string_axioms;

/// An embedding service.
pub struct HttpEmbedder {
    pub url: String,
    pub model: String,
    pub api_key: Option<String>,
}

/// An embedding backend.
pub enum Embedder {
    /// The model in this directory.
    Onnx { dir: String },
    Http(HttpEmbedder),
}

/// The model of an embedding backend.
pub enum EmbedderV {
    Onnx { dir: Seq<char> },
    Http { url: Seq<char>, model: Seq<char>, api_key: Option<Seq<char>> },
}

impl View for Embedder {
    type V = EmbedderV;

    open spec fn view(&self) -> EmbedderV {
        match *self {
            Embedder::Onnx { dir } => EmbedderV::Onnx { dir: dir@ },
            Embedder::Http(h) => EmbedderV::Http {
                url: h.url@,
                model: h.model@,
                api_key: store::opt_view(h.api_key),
            },
        }
    }
}

/// A path below a directory.
pub open spec fn below(dir: Seq<char>, rest: Seq<char>) -> Seq<char> {
    if dir.len() == 0 {
        rest
    } else if dir.last() == '/' {
        dir + rest
    } else {
        dir + "/"@ + rest
    }
}

/// A path below a directory.
pub fn path_below(dir: &str, rest: &str) -> (r: String)
    ensures
        r@ == below(dir@, rest@),
{
    let v: Vec<char> = text::chars_of(dir);
    let n: usize = v.len();
    if n == 0 {
        rest.to_string()
    } else if v[n - 1] == '/' {
        text::cat2(dir, rest)
    } else {
        text::cat3(dir, "/", rest)
    }
}

/// The directory of a model: the one that is configured, else one below the
/// home directory.
pub open spec fn model_dir(
    dir: Option<Seq<char>>,
    home: Option<Seq<char>>,
    rest: Seq<char>,
) -> Option<Seq<char>> {
    match dir {
        Some(d) => Some(text::trimmed(d)),
        None => match home {
            Some(h) => Some(below(h, rest)),
            None => None,
        },
    }
}

/// The directory of a model.
pub fn find_model(dir: &Option<String>, home: Option<String>, rest: &str) -> (r: Option<String>)
    ensures
        store::opt_view(r) == model_dir(store::opt_view(*dir), store::opt_view(home), rest@),
{
    match dir {
        Some(d) => Some(text::trim(d.as_str())),
        None => match home {
            Some(h) => Some(path_below(h.as_str(), rest)),
            None => None,
        },
    }
}

/// The value of the variable that holds a key, if one is named and set.
pub open spec fn key_of(
    named: Option<Seq<char>>,
    m: Map<Seq<char>, Seq<char>>,
) -> Option<Seq<char>> {
    match named {
        Some(v) => config::var(m, v),
        None => None,
    }
}

/// The value of the variable that holds a key.
pub fn read_key(named: &Option<String>, env: &Dict<String>) -> (r: Option<String>)
    requires
        env.wf(),
    ensures
        store::opt_view(r) == key_of(store::opt_view(*named), config::vars(*env)),
{
    match named {
        Some(v) => config::get_var(env, v.as_str()),
        None => None,
    }
}

/// The backend that a configuration describes, or why there is none.
pub open spec fn embedder_of(
    c: config::EmbeddingV,
    m: Map<Seq<char>, Seq<char>>,
    onnx: bool,
) -> Result<EmbedderV, Seq<char>> {
    match c {
        config::EmbeddingV::Onnx { dir } => if !onnx {
            Err(NO_ONNX@)
        } else {
            match model_dir(dir, config::var(m, "HOME"@), ".cache/semdoc/models/bge-m3"@) {
                Some(d) => Ok(EmbedderV::Onnx { dir: d }),
                None => Err("cannot resolve home dir; set embedding.dir"@),
            }
        },
        config::EmbeddingV::Http { url, model, api_key_env, .. } => Ok(
            EmbedderV::Http {
                url: text::trimmed(url),
                model: text::trimmed(model),
                api_key: key_of(api_key_env, m),
            },
        ),
    }
}

/// The error where a model in this process is asked for and none is built in.
pub const NO_ONNX: &'static str = "embedding backend onnx requires the `onnx` feature (build with: cargo build --release --bins --features onnx)";

impl Embedder {
    /// The backend that the configuration describes.
    pub fn load(cfg: &EmbeddingConfig, env: &Dict<String>, features: &BuildFeatures) -> (r: Result<
        Embedder,
        String,
    >)
        requires
            env.wf(),
        ensures
            (match r {
                Ok(e) => embedder_of(cfg@, config::vars(*env), features.onnx) == Ok::<
                    EmbedderV,
                    Seq<char>,
                >(e@),
                Err(x) => embedder_of(cfg@, config::vars(*env), features.onnx) == Err::<
                    EmbedderV,
                    Seq<char>,
                >(x@),
            }),
    {
        match cfg {
            EmbeddingConfig::Onnx { dir } => {
                if !features.onnx {
                    return Err(NO_ONNX.to_string());
                }
                let home: Option<String> = config::get_var(env, "HOME");
                match find_model(dir, home, ".cache/semdoc/models/bge-m3") {
                    Some(d) => Ok(Embedder::Onnx { dir: d }),
                    None => Err("cannot resolve home dir; set embedding.dir".to_string()),
                }
            },
            EmbeddingConfig::Http { url, model, api_key_env, .. } => {
                let api_key: Option<String> = read_key(api_key_env, env);
                Ok(
                    Embedder::Http(
                        HttpEmbedder::new(
                            text::trim(url.as_str()).as_str(),
                            text::trim(model.as_str()).as_str(),
                            api_key,
                        ),
                    ),
                )
            },
        }
    }
}

/// The error where a model could not be loaded, with what to do about it.
pub fn load_hint(error: &str, dir: &str) -> (r: String)
    ensures
        r@ == error@
            + "\nhint: no deployment config found. Either create semdoc.config.toml with [embedding], set SEMDOC_EMBEDDER_* env vars, or place the ONNX model at "@
            + dir@,
{
    text::cat3(
        error,
        "\nhint: no deployment config found. Either create semdoc.config.toml with [embedding], set SEMDOC_EMBEDDER_* env vars, or place the ONNX model at ",
        dir,
    )
}

/// Where a service takes texts to embed.
pub open spec fn embed_url(base: Seq<char>) -> Seq<char> {
    graph::without_slashes(base) + "/embeddings"@
}

/// The body of a request to embed a text.
pub open spec fn embed_body(model: Seq<char>, input: Seq<char>) -> JsonV {
    JsonV::Obj(seq![("model"@, JsonV::Str(model)), ("input"@, JsonV::Str(input))])
}

/// The vector that a reply gives, or why it gives none.
pub open spec fn embedding_of(url: Seq<char>, reply: Reply<Vec<Vec<u32>>>) -> Result<
    Seq<u32>,
    Seq<char>,
> {
    match reply {
        Reply::Unsent(e) => Err("embed POST "@ + url + ": "@ + e@),
        Reply::Refused { status, body } => Err("embed HTTP "@ + status@ + ": "@ + body@),
        Reply::Unreadable(e) => Err("embed JSON decode: "@ + e@),
        Reply::Answered(v) => if v@.len() > 0 {
            Ok(v@[0]@)
        } else {
            Err("embeddings response had no data[0]"@)
        },
    }
}

impl HttpEmbedder {
    /// The service at `url`, which includes the version of the protocol.
    pub fn new(url: &str, model: &str, api_key: Option<String>) -> (r: Self)
        ensures
            r.url@ == url@,
            r.model@ == model@,
            r.api_key == api_key,
    {
        HttpEmbedder { url: url.to_string(), model: model.to_string(), api_key }
    }

    /// The request to embed a text.
    pub fn request(&self, input: &str) -> (r: Request<Json>)
        ensures
            r.url@ == embed_url(self.url@),
            r.body@ == embed_body(self.model@, input@),
            store::opt_view(r.authorization) == http::bearer_value(store::opt_view(self.api_key)),
    {
        let base: String = graph::trim_slashes(self.url.as_str());
        let body: Json = crate::mcp::object2(
            "model",
            Json::string(self.model.as_str()),
            "input",
            Json::string(input),
        );
        Request {
            url: text::cat2(base.as_str(), "/embeddings"),
            body,
            authorization: http::bearer(http::lent(&self.api_key)),
        }
    }

    /// The vector that a reply gives.
    pub fn read(&self, reply: Reply<Vec<Vec<u32>>>) -> (r: Result<Vec<u32>, String>)
        ensures
            (match r {
                Ok(v) => embedding_of(embed_url(self.url@), reply) == Ok::<Seq<u32>, Seq<char>>(v@),
                Err(e) => embedding_of(embed_url(self.url@), reply) == Err::<Seq<u32>, Seq<char>>(
                    e@,
                ),
            }),
    {
        match reply {
            Reply::Unsent(e) => {
                let base: String = graph::trim_slashes(self.url.as_str());
                let url: String = text::cat2(base.as_str(), "/embeddings");
                Err(text::cat4("embed POST ", url.as_str(), ": ", e.as_str()))
            },
            Reply::Refused { status, body } => Err(
                text::cat4("embed HTTP ", status.as_str(), ": ", body.as_str()),
            ),
            Reply::Unreadable(e) => Err(text::cat2("embed JSON decode: ", e.as_str())),
            Reply::Answered(v) => if v.len() > 0 {
                Ok(store::copy_vector(&v[0]))
            } else {
                Err("embeddings response had no data[0]".to_string())
            },
        }
    }
}

} // verus!
