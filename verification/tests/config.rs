use semdoc::chunker::{resolve_chunk_overlap, resolve_chunk_size};
use semdoc::config::{
    config_path, get_var, ChunkConfig, ConfigFile, DeploymentConfig, EmbeddingConfig, RerankConfig,
    ServerConfig, TlsConfig,
};
use semdoc::dict::Dict;
use semdoc::embedding::{load_hint, Embedder, HttpEmbedder};
use semdoc::http::Reply;
use semdoc::schema::BuildFeatures;
use semdoc::tls::{ca_bundle_path, insecure_enabled};

fn env(vars: &[(&str, &str)]) -> Dict<String> {
    let mut d = Dict::new();
    for (k, v) in vars {
        d.insert(k.to_string(), v.to_string());
    }
    d
}

fn features() -> BuildFeatures {
    BuildFeatures { onnx: false, lightrag_embedded: false }
}

fn onnx() -> BuildFeatures {
    BuildFeatures { onnx: true, lightrag_embedded: false }
}

fn validate(cfg: &DeploymentConfig, e: &Dict<String>) -> Result<(), String> {
    cfg.validate(e, &features(), &Vec::new())
}

/// What a file with the given contents comes to, before validation.
fn unchecked(base: DeploymentConfig, e: &mut Dict<String>) -> Result<DeploymentConfig, String> {
    DeploymentConfig::combine(None, ConfigFile::Parsed(base), e)
}

fn load(
    path: Option<&str>,
    file: ConfigFile,
    e: &mut Dict<String>,
) -> Result<DeploymentConfig, String> {
    DeploymentConfig::load(path, file, e, &features(), &Vec::new())
}

fn checked(base: DeploymentConfig, e: &mut Dict<String>) -> Result<DeploymentConfig, String> {
    load(None, ConfigFile::Parsed(base), e)
}

#[test]
fn empty_toml_gives_defaults() {
    let cfg = unchecked(DeploymentConfig::default(), &mut env(&[])).unwrap();
    assert!(matches!(cfg.embedding, EmbeddingConfig::Http { ref url, .. } if url.is_empty()));
    assert!(matches!(cfg.rerank, RerankConfig::Tei { ref endpoint, .. } if endpoint.is_empty()));
    assert_eq!(cfg.chunk.size, None);
    assert_eq!(cfg.server.listen, None);
    assert!(!cfg.tls.insecure);
}

#[test]
fn parse_onnx_and_none_backends() {
    // Setting BACKEND=onnx keeps onnx; the effective dir then comes
    // from SEMDOC_EMBEDDER_DIR (env wins over the file's dir).
    let dir = "/tmp/semdoc-onnx-test";
    let mut e = env(&[("SEMDOC_EMBEDDER_BACKEND", "onnx"), ("SEMDOC_EMBEDDER_DIR", dir)]);
    let base = DeploymentConfig { rerank: RerankConfig::Off, ..Default::default() };
    let cfg = unchecked(base, &mut e).unwrap();
    cfg.validate(&e, &onnx(), &vec![dir.to_string()]).unwrap();
    assert!(matches!(cfg.embedding, EmbeddingConfig::Onnx { .. }));
    assert!(matches!(cfg.rerank, RerankConfig::Off));
    // validate() requires model.onnx to exist under the dir.
    let err = cfg.validate(&e, &onnx(), &Vec::new()).unwrap_err();
    assert_eq!(err, "embedding.dir: no model.onnx under `/tmp/semdoc-onnx-test`");
}

#[test]
fn file_onnx_without_env_dir_is_downgraded_to_default_http() {
    let base = DeploymentConfig {
        embedding: EmbeddingConfig::Onnx { dir: Some("/models/bge-m3".to_string()) },
        ..Default::default()
    };
    let cfg = unchecked(base, &mut env(&[])).unwrap();
    assert!(matches!(cfg.embedding, EmbeddingConfig::Http { .. }));
}

#[test]
fn file_onnx_with_env_dir_stays() {
    let base = DeploymentConfig {
        embedding: EmbeddingConfig::Onnx { dir: Some("/models/bge-m3".to_string()) },
        rerank: RerankConfig::Onnx { dir: None },
        ..Default::default()
    };
    let mut e = env(&[("SEMDOC_EMBEDDER_DIR", "/x")]);
    let cfg = unchecked(base, &mut e).unwrap();
    assert!(
        matches!(cfg.embedding, EmbeddingConfig::Onnx { dir: Some(ref d) } if d == "/models/bge-m3")
    );
    assert!(matches!(cfg.rerank, RerankConfig::Tei { timeout_secs: 120, .. }));
}

#[test]
fn kebab_case_fields_accepted() {
    let base = DeploymentConfig {
        embedding: EmbeddingConfig::Http {
            url: "http://embed:80/v1".to_string(),
            model: "bge-m3".to_string(),
            api_key_env: Some("SEMDOC_TEST_API_KEY".to_string()),
            timeout_secs: 5,
        },
        ..Default::default()
    };
    let cfg = unchecked(base, &mut env(&[])).unwrap();
    match &cfg.embedding {
        EmbeddingConfig::Http { url, model, api_key_env, timeout_secs } => {
            assert_eq!(url, "http://embed:80/v1");
            assert_eq!(model, "bge-m3");
            assert_eq!(api_key_env.as_deref(), Some("SEMDOC_TEST_API_KEY"));
            assert_eq!(*timeout_secs, 5);
        }
        other => panic!("expected http embedder, got {other:?}"),
    }
}

#[test]
fn validate_rejects_empty_rerank_endpoint() {
    let cfg = DeploymentConfig::default();
    assert!(validate(&cfg, &env(&[])).is_err());
}

#[test]
fn validate_accepts_rerank_none_with_empty_endpoint() {
    let cfg = DeploymentConfig { rerank: RerankConfig::Off, ..Default::default() };
    validate(&cfg, &env(&[])).unwrap();
}

#[test]
fn validate_rejects_unset_token_env() {
    let cfg = DeploymentConfig {
        rerank: RerankConfig::Off,
        server: ServerConfig {
            token_env: Some("SEMDOC_TEST_TOKEN".into()),
            listen: None,
            ..Default::default()
        },
        ..Default::default()
    };
    let err = validate(&cfg, &env(&[])).unwrap_err();
    assert!(err.contains("SEMDOC_TEST_TOKEN"), "{err}");
    assert_eq!(err, "server.token_env: referenced env var `SEMDOC_TEST_TOKEN` is not set");
    validate(&cfg, &env(&[("SEMDOC_TEST_TOKEN", "secret")])).unwrap();
}

#[test]
fn validate_rejects_unset_api_key_env() {
    let file = || DeploymentConfig {
        rerank: RerankConfig::Tei {
            endpoint: "http://x:8000".to_string(),
            api_key_env: Some("SEMDOC_TEST_API_KEY".to_string()),
            timeout_secs: 60,
        },
        ..Default::default()
    };
    assert!(checked(file(), &mut env(&[])).is_err());
    checked(file(), &mut env(&[("SEMDOC_TEST_API_KEY", "k")])).unwrap();
}

#[test]
fn validate_chunk_size_bounds() {
    let e = env(&[]);
    let mk = |size: usize| DeploymentConfig {
        rerank: RerankConfig::Off,
        chunk: ChunkConfig { size: Some(size), overlap: None },
        ..Default::default()
    };
    assert!(validate(&mk(63), &e).is_err());
    assert!(validate(&mk(8193), &e).is_err());
    validate(&mk(64), &e).unwrap();
    validate(&mk(8192), &e).unwrap();
}

#[test]
fn validate_names_each_fault() {
    let e = env(&[]);
    let with = |embedding: EmbeddingConfig, rerank: RerankConfig| DeploymentConfig {
        embedding,
        rerank,
        ..Default::default()
    };
    let http = |key: Option<String>| EmbeddingConfig::Http {
        url: "u".to_string(),
        model: "m".to_string(),
        api_key_env: key,
        timeout_secs: 1,
    };
    let err = validate(&with(http(Some("K".to_string())), RerankConfig::Off), &e).unwrap_err();
    assert_eq!(err, "embedding.api_key_env: referenced env var `K` is not set");
    let err = validate(&with(EmbeddingConfig::Onnx { dir: None }, RerankConfig::Off), &e).unwrap_err();
    assert_eq!(err, "embedding backend onnx requires building with feature `onnx`");
    let err = validate(&with(http(None), RerankConfig::Onnx { dir: None }), &e).unwrap_err();
    assert_eq!(err, "rerank backend onnx requires building with feature `onnx`");
    let c = with(http(None), RerankConfig::Onnx { dir: Some("/d".to_string()) });
    let err = c.validate(&e, &onnx(), &Vec::new()).unwrap_err();
    assert_eq!(err, "rerank.dir: no model.onnx under `/d`");
    let c = with(
        http(None),
        RerankConfig::Openai {
            endpoint: String::new(),
            model: None,
            api_key_env: None,
            timeout_secs: 1,
        },
    );
    let err = validate(&c, &e).unwrap_err();
    assert_eq!(
        err,
        "rerank backend=http requires endpoint (set [rerank] in Config.toml or SEMDOC_RERANKER_HTTP_URL)"
    );
    let mut c = with(http(None), RerankConfig::Off);
    c.chunk.size = Some(1);
    assert_eq!(validate(&c, &e).unwrap_err(), "chunk.size must be within [64, 8192]");
}

#[test]
fn env_full_http_embedding_config() {
    let mut e = env(&[
        ("SEMDOC_EMBEDDER_BACKEND", "http"),
        ("SEMDOC_EMBEDDER_HTTP_URL", "http://e:80/v1"),
        ("SEMDOC_EMBEDDER_HTTP_MODEL", "bge-m3"),
        ("SEMDOC_EMBEDDER_HTTP_TIMEOUT", "11"),
    ]);
    let mut cfg = DeploymentConfig::default();
    cfg.apply_env_overrides(&mut e).unwrap();
    match &cfg.embedding {
        EmbeddingConfig::Http { url, model, timeout_secs, api_key_env } => {
            assert_eq!(url, "http://e:80/v1");
            assert_eq!(model, "bge-m3");
            assert_eq!(*timeout_secs, 11);
            assert!(api_key_env.is_none());
        }
        other => panic!("expected http embedder, got {other:?}"),
    }
}

#[test]
fn env_http_backend_requires_url_and_model() {
    let mut e = env(&[("SEMDOC_EMBEDDER_BACKEND", "http")]);
    let mut cfg = DeploymentConfig::default();
    assert!(cfg.apply_env_overrides(&mut e).is_err());
    let mut e = env(&[
        ("SEMDOC_EMBEDDER_BACKEND", "http"),
        ("SEMDOC_EMBEDDER_HTTP_URL", "http://e:80/v1"),
    ]);
    let mut cfg = DeploymentConfig::default();
    let err = cfg.apply_env_overrides(&mut e).unwrap_err();
    assert_eq!(err, "SEMDOC_EMBEDDER_HTTP_MODEL required for SEMDOC_EMBEDDER_BACKEND=http");
}

#[test]
fn env_unknown_embedding_backend_is_error() {
    let mut e = env(&[("SEMDOC_EMBEDDER_BACKEND", "wat")]);
    let mut cfg = DeploymentConfig::default();
    assert!(cfg.apply_env_overrides(&mut e).is_err());
}

#[test]
fn env_inline_api_key_routes_through_indirection() {
    let mut e = env(&[
        ("SEMDOC_EMBEDDER_BACKEND", "http"),
        ("SEMDOC_EMBEDDER_HTTP_URL", "http://e:80/v1"),
        ("SEMDOC_EMBEDDER_HTTP_MODEL", "m"),
        ("SEMDOC_EMBEDDER_HTTP_API_KEY", "key123"),
    ]);
    let mut cfg = DeploymentConfig::default();
    cfg.apply_env_overrides(&mut e).unwrap();
    match &cfg.embedding {
        EmbeddingConfig::Http { api_key_env, .. } => {
            assert_eq!(api_key_env.as_deref(), Some("SEMDOC_EMBEDDER_HTTP_API_KEY_INLINE"));
        }
        other => panic!("expected http embedder, got {other:?}"),
    }
    assert_eq!(get_var(&e, "SEMDOC_EMBEDDER_HTTP_API_KEY_INLINE").as_deref(), Some("key123"));
}

#[test]
fn env_rerank_legacy_http_alias_maps_to_tei() {
    let mut e = env(&[
        ("SEMDOC_RERANKER_BACKEND", "http"),
        ("SEMDOC_RERANKER_HTTP_URL", "http://r:8000"),
    ]);
    let mut cfg = DeploymentConfig::default();
    cfg.apply_env_overrides(&mut e).unwrap();
    match &cfg.rerank {
        RerankConfig::Tei { endpoint, .. } => assert_eq!(endpoint, "http://r:8000"),
        other => panic!("expected tei reranker, got {other:?}"),
    }
}

#[test]
fn env_rerank_requires_url() {
    let mut e = env(&[("SEMDOC_RERANKER_BACKEND", "tei")]);
    let mut cfg = DeploymentConfig::default();
    assert!(cfg.apply_env_overrides(&mut e).is_err());
}

#[test]
fn env_rerank_backends() {
    let mut cfg = DeploymentConfig::default();
    let mut e = env(&[
        ("SEMDOC_RERANKER_BACKEND", "OpenAI"),
        ("SEMDOC_RERANKER_HTTP_URL", "http://r/v1"),
        ("SEMDOC_RERANKER_MODEL", "bge"),
        ("SEMDOC_RERANKER_HTTP_API_KEY", "k"),
        ("SEMDOC_RERANKER_HTTP_TIMEOUT", "7"),
    ]);
    cfg.apply_env_overrides(&mut e).unwrap();
    assert_eq!(
        cfg.rerank,
        RerankConfig::Openai {
            endpoint: "http://r/v1".to_string(),
            model: Some("bge".to_string()),
            api_key_env: Some("SEMDOC_RERANKER_HTTP_API_KEY".to_string()),
            timeout_secs: 7,
        }
    );
    let mut e = env(&[("SEMDOC_RERANKER_BACKEND", "openai")]);
    assert_eq!(
        cfg.apply_env_overrides(&mut e).unwrap_err(),
        "SEMDOC_RERANKER_HTTP_URL required for SEMDOC_RERANKER_BACKEND=openai"
    );
    let mut e = env(&[("SEMDOC_RERANKER_BACKEND", "wat")]);
    assert_eq!(
        cfg.apply_env_overrides(&mut e).unwrap_err(),
        "unknown SEMDOC_RERANKER_BACKEND `wat`"
    );
    let mut e = env(&[
        ("SEMDOC_RERANKER_BACKEND", "tei"),
        ("SEMDOC_RERANKER_HTTP_URL", "http://r"),
        ("SEMDOC_RERANKER_HTTP_TIMEOUT", "soon"),
    ]);
    assert_eq!(
        cfg.apply_env_overrides(&mut e).unwrap_err(),
        "bad SEMDOC_RERANKER_HTTP_TIMEOUT `soon`"
    );
    let mut e = env(&[("SEMDOC_RERANKER_BACKEND", "onnx"), ("SEMDOC_RERANKER_DIR", "/d")]);
    cfg.apply_env_overrides(&mut e).unwrap();
    assert_eq!(cfg.rerank, RerankConfig::Onnx { dir: Some("/d".to_string()) });
}

#[test]
fn env_comes_before_the_file_without_a_backend() {
    let mut cfg = DeploymentConfig::default();
    let mut e = env(&[
        ("SEMDOC_EMBEDDER_HTTP_API_KEY", "k"),
        ("SEMDOC_EMBEDDER_HTTP_TIMEOUT", "9"),
    ]);
    cfg.apply_env_overrides(&mut e).unwrap();
    assert!(matches!(
        cfg.embedding,
        EmbeddingConfig::Http { timeout_secs: 9, api_key_env: Some(_), .. }
    ));
    // So it is where the file gives both.
    let mut cfg = DeploymentConfig {
        embedding: EmbeddingConfig::Http {
            url: String::new(),
            model: String::new(),
            api_key_env: Some("FILE".to_string()),
            timeout_secs: 5,
        },
        ..Default::default()
    };
    cfg.apply_env_overrides(&mut env(&[])).unwrap();
    assert!(matches!(
        cfg.embedding,
        EmbeddingConfig::Http { timeout_secs: 5, api_key_env: Some(ref k), .. } if k == "FILE"
    ));
    let mut e = env(&[
        ("SEMDOC_EMBEDDER_HTTP_API_KEY", "k2"),
        ("SEMDOC_EMBEDDER_HTTP_TIMEOUT", "11"),
    ]);
    cfg.apply_env_overrides(&mut e).unwrap();
    let inline = "SEMDOC_EMBEDDER_HTTP_API_KEY_INLINE";
    assert!(matches!(
        cfg.embedding,
        EmbeddingConfig::Http { timeout_secs: 11, api_key_env: Some(ref k), .. } if k == inline
    ));
    assert_eq!(e.get(inline).map(|v| v.as_str()), Some("k2"));
    let mut e = env(&[("SEMDOC_EMBEDDER_HTTP_TIMEOUT", "soon")]);
    assert_eq!(
        cfg.apply_env_overrides(&mut e).unwrap_err(),
        "bad SEMDOC_EMBEDDER_HTTP_TIMEOUT `soon`"
    );
}

#[test]
fn env_chunk_and_server_and_tls() {
    let mut e = env(&[
        ("SEMDOC_CHUNK_SIZE", "256"),
        ("SEMDOC_CHUNK_OVERLAP", "32"),
        ("SEMDOC_LISTEN", "0.0.0.0:9999"),
        ("SEMDOC_TLS_INSECURE", "1"),
    ]);
    let mut cfg = DeploymentConfig { rerank: RerankConfig::Off, ..Default::default() };
    cfg.apply_env_overrides(&mut e).unwrap();
    validate(&cfg, &e).unwrap();
    assert_eq!(cfg.chunk.size, Some(256));
    assert_eq!(cfg.chunk.overlap, Some(32));
    assert_eq!(cfg.server.listen.as_deref(), Some("0.0.0.0:9999"));
    assert!(cfg.tls.insecure);
}

#[test]
fn env_bad_chunk_size_is_error() {
    let mut e = env(&[("SEMDOC_CHUNK_SIZE", "abc")]);
    let mut cfg = DeploymentConfig::default();
    assert_eq!(cfg.apply_env_overrides(&mut e).unwrap_err(), "bad SEMDOC_CHUNK_SIZE `abc`");
    let mut e = env(&[("SEMDOC_CHUNK_OVERLAP", "-1")]);
    let mut cfg = DeploymentConfig::default();
    assert_eq!(cfg.apply_env_overrides(&mut e).unwrap_err(), "bad SEMDOC_CHUNK_OVERLAP `-1`");
}

#[test]
fn load_missing_explicit_file_is_error() {
    let path = Some("/nonexistent/Config.toml");
    let err = load(path, ConfigFile::Missing, &mut env(&[])).err().unwrap();
    assert_eq!(err, "deployment config not found: /nonexistent/Config.toml");
}

#[test]
fn load_missing_default_file_uses_defaults_then_fails_validate() {
    // No file + no env → defaults; the default rerank endpoint is
    // empty, which validate() rejects. load() must surface that.
    let err = load(None, ConfigFile::Missing, &mut env(&[])).err().unwrap();
    assert!(err.contains("endpoint"), "{err}");
}

#[test]
fn load_checks_models_and_features() {
    let file = || {
        ConfigFile::Parsed(DeploymentConfig { rerank: RerankConfig::Off, ..Default::default() })
    };
    let vars = [("SEMDOC_EMBEDDER_BACKEND", "onnx"), ("SEMDOC_EMBEDDER_DIR", "/m")];
    let models = vec!["/m".to_string()];
    let load = DeploymentConfig::load;
    assert!(load(None, file(), &mut env(&vars), &onnx(), &models).is_ok());
    assert!(load(None, file(), &mut env(&vars), &onnx(), &Vec::new()).is_err());
    assert!(load(None, file(), &mut env(&vars), &features(), &models).is_err());
}

#[test]
fn load_missing_file_of_semdoc_config_uses_defaults() {
    let mut e = env(&[
        ("SEMDOC_CONFIG", "/nonexistent/c.toml"),
        ("SEMDOC_RERANKER_BACKEND", "tei"),
        ("SEMDOC_RERANKER_HTTP_URL", "http://r:80"),
    ]);
    let cfg = load(None, ConfigFile::Missing, &mut e).unwrap();
    assert!(matches!(cfg.rerank, RerankConfig::Tei { endpoint, .. } if endpoint == "http://r:80"));
    let mut e = env(&[("SEMDOC_CONFIG", "/nonexistent/c.toml")]);
    let err = load(None, ConfigFile::Missing, &mut e).err().unwrap();
    assert!(err.contains("endpoint"), "{err}");
}

#[test]
fn load_via_semdoc_config_env() {
    let mut e = env(&[("SEMDOC_CONFIG", "/tmp/semdoc-cfg-test2/my.toml")]);
    assert_eq!(config_path(None, &e), "/tmp/semdoc-cfg-test2/my.toml");
    let file = DeploymentConfig {
        rerank: RerankConfig::Off,
        chunk: ChunkConfig { size: Some(300), overlap: None },
        ..Default::default()
    };
    let cfg = load(None, ConfigFile::Parsed(file), &mut e).unwrap();
    assert_eq!(cfg.chunk.size, Some(300));
    assert!(matches!(cfg.rerank, RerankConfig::Off));
}

#[test]
fn files_that_cannot_be_used_are_errors() {
    let mut e = env(&[("SEMDOC_CONFIG", "c.toml")]);
    let err = load(Some("d.toml"), ConfigFile::Missing, &mut e).err().unwrap();
    assert_eq!(err, "deployment config not found: d.toml");
    let bad = ConfigFile::Malformed("line 1".to_string());
    let err = load(None, bad, &mut e).err().unwrap();
    assert_eq!(err, "parse deployment config c.toml: line 1");
    let bad = ConfigFile::Unreadable("denied".to_string());
    let err = load(Some("x.toml"), bad, &mut e).err().unwrap();
    assert_eq!(err, "read deployment config x.toml: denied");
    assert_eq!(config_path(None, &env(&[])), "Config.toml");
}

#[test]
fn server_token_reads_indirection() {
    let cfg = DeploymentConfig {
        rerank: RerankConfig::Off,
        server: ServerConfig {
            token_env: Some("SEMDOC_TEST_TOKEN".into()),
            listen: None,
            ..Default::default()
        },
        ..Default::default()
    };
    let e = env(&[("SEMDOC_TEST_TOKEN", "tok")]);
    assert_eq!(cfg.server_token(&e).as_deref(), Some("tok"));
}

#[test]
fn webhook_enabled_filters_events() {
    // no url → always off
    let off = ServerConfig::default();
    assert!(!off.webhook_enabled("add"));
    // url without explicit list → all events on
    let all = ServerConfig { webhook_url: Some("http://h/hook".into()), ..Default::default() };
    assert!(all.webhook_enabled("add"));
    assert!(all.webhook_enabled("delete"));
    assert!(all.webhook_enabled("update"));
    // explicit list → only listed events fire
    let filtered = ServerConfig {
        webhook_url: Some("http://h/hook".into()),
        webhook_events: Some(vec!["add".into()]),
        ..Default::default()
    };
    assert!(filtered.webhook_enabled("add"));
    assert!(!filtered.webhook_enabled("delete"));
    assert!(!filtered.webhook_enabled("update"));
}

#[test]
fn webhook_secret_reads_env_indirection() {
    let cfg = ServerConfig {
        webhook_secret_env: Some("SEMDOC_TEST_HOOK_SECRET".into()),
        ..Default::default()
    };
    // unset → None
    assert!(cfg.webhook_secret(&env(&[])).is_none());
    // empty string counts as unset
    assert!(cfg.webhook_secret(&env(&[("SEMDOC_TEST_HOOK_SECRET", "")])).is_none());
    // set → value
    let e = env(&[("SEMDOC_TEST_HOOK_SECRET", "s3cret")]);
    assert_eq!(cfg.webhook_secret(&e).as_deref(), Some("s3cret"));
}

#[test]
fn tls_apply_env_exports_flags() {
    let mut e = env(&[]);
    // defaults: nothing exported
    TlsConfig::default().apply_env(&mut e);
    assert!(get_var(&e, "SEMDOC_TLS_INSECURE").is_none());
    assert!(get_var(&e, "SEMDOC_CA_BUNDLE").is_none());
    // insecure + ca_bundle → both exported
    let cfg = TlsConfig { insecure: true, ca_bundle: Some("/etc/semdoc/ca.pem".into()) };
    cfg.apply_env(&mut e);
    assert_eq!(get_var(&e, "SEMDOC_TLS_INSECURE").as_deref(), Some("1"));
    assert_eq!(get_var(&e, "SEMDOC_CA_BUNDLE").as_deref(), Some("/etc/semdoc/ca.pem"));
}

#[test]
fn tls_settings_of_the_file_reach_connections() {
    let base = DeploymentConfig {
        tls: TlsConfig { insecure: true, ca_bundle: Some("/ca".to_string()) },
        ..Default::default()
    };
    let mut e = env(&[]);
    unchecked(base, &mut e).unwrap();
    assert!(insecure_enabled(&e));
    assert_eq!(ca_bundle_path(&e).as_deref(), Some("/ca"));
    assert!(!insecure_enabled(&env(&[("SEMDOC_TLS_INSECURE", "0")])));
    assert!(insecure_enabled(&env(&[("SEMDOC_TLS_INSECURE", "True")])));
    assert_eq!(ca_bundle_path(&env(&[("SEMDOC_CA_BUNDLE", "")])), None);
}

#[test]
fn env_tls_comes_before_the_file() {
    let base = DeploymentConfig {
        tls: TlsConfig { insecure: true, ca_bundle: Some("/file".to_string()) },
        ..Default::default()
    };
    let mut e = env(&[("SEMDOC_TLS_INSECURE", "0"), ("SEMDOC_CA_BUNDLE", "/env")]);
    let cfg = unchecked(base, &mut e).unwrap();
    assert!(!cfg.tls.insecure);
    assert_eq!(cfg.tls.ca_bundle.as_deref(), Some("/env"));
    assert!(!insecure_enabled(&e));
}

#[test]
fn apply_chunk_env_pushes_values() {
    let cfg = DeploymentConfig {
        rerank: RerankConfig::Off,
        chunk: ChunkConfig { size: Some(700), overlap: Some(70) },
        ..Default::default()
    };
    let mut e = env(&[]);
    cfg.apply_chunk_env(&mut e);
    assert_eq!(get_var(&e, "SEMDOC_CHUNK_SIZE").unwrap(), "700");
    assert_eq!(get_var(&e, "SEMDOC_CHUNK_OVERLAP").unwrap(), "70");
    assert_eq!(resolve_chunk_size(get_var(&e, "SEMDOC_CHUNK_SIZE").as_deref()), 700);
    assert_eq!(resolve_chunk_overlap(700, get_var(&e, "SEMDOC_CHUNK_OVERLAP").as_deref()), 70);
}

#[test]
fn embedders_follow_the_configuration() {
    let mut e = env(&[("KEY", "secret")]);
    let cfg = EmbeddingConfig::Http {
        url: " http://e/v1 ".to_string(),
        model: " bge\n".to_string(),
        api_key_env: Some("KEY".to_string()),
        timeout_secs: 1,
    };
    match Embedder::load(&cfg, &e, &features()) {
        Ok(Embedder::Http(h)) => {
            assert_eq!(h.url, "http://e/v1");
            assert_eq!(h.model, "bge");
            assert_eq!(h.api_key.as_deref(), Some("secret"));
        }
        _ => panic!("expected an http embedder"),
    }
    let cfg = EmbeddingConfig::Onnx { dir: None };
    let err = Embedder::load(&cfg, &e, &features()).err().unwrap();
    assert!(err.starts_with("embedding backend onnx requires the `onnx` feature"));
    let err = Embedder::load(&cfg, &e, &onnx()).err().unwrap();
    assert_eq!(err, "cannot resolve home dir; set embedding.dir");
    e.insert("HOME".to_string(), "/home/u/".to_string());
    match Embedder::load(&cfg, &e, &onnx()) {
        Ok(Embedder::Onnx { dir }) => assert_eq!(dir, "/home/u/.cache/semdoc/models/bge-m3"),
        _ => panic!("expected an onnx embedder"),
    }
    let cfg = EmbeddingConfig::Onnx { dir: Some(" /m ".to_string()) };
    match Embedder::load(&cfg, &e, &onnx()) {
        Ok(Embedder::Onnx { dir }) => assert_eq!(dir, "/m"),
        _ => panic!("expected an onnx embedder"),
    }
    assert!(load_hint("boom", "/m").starts_with("boom\nhint: "));
    assert!(load_hint("boom", "/m").ends_with(" at /m"));
}

#[test]
fn embedding_requests_and_replies() {
    let h = HttpEmbedder::new("http://e/v1/", "bge", Some("k".to_string()));
    let q = h.request("hello");
    assert_eq!(q.url, "http://e/v1/embeddings");
    assert_eq!(q.body.compact(), "{\"input\":\"hello\",\"model\":\"bge\"}");
    assert_eq!(q.authorization.as_deref(), Some("Bearer k"));
    let v = vec![1.5f32.to_bits(), 2.0f32.to_bits()];
    assert_eq!(h.read(Reply::Answered(vec![v.clone(), vec![]])).unwrap(), v);
    assert_eq!(
        h.read(Reply::Answered(vec![])).unwrap_err(),
        "embeddings response had no data[0]"
    );
    assert_eq!(
        h.read(Reply::Unsent("refused".to_string())).unwrap_err(),
        "embed POST http://e/v1/embeddings: refused"
    );
    let refused = Reply::Refused { status: "401 Unauthorized".to_string(), body: "no".to_string() };
    assert_eq!(h.read(refused).unwrap_err(), "embed HTTP 401 Unauthorized: no");
    assert_eq!(
        h.read(Reply::Unreadable("eof".to_string())).unwrap_err(),
        "embed JSON decode: eof"
    );
}
