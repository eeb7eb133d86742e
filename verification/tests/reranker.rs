use semdoc::config::RerankConfig;
use semdoc::dict::Dict;
use semdoc::http::{bearer, Reply};
use semdoc::reranker::{
    is_transient, sort_by_score, HttpReranker, OpenAiReranker, Reranker, Retry,
};
use semdoc::schema::BuildFeatures;

fn with_transient_retry<T>(mut f: impl FnMut() -> Result<T, String>) -> (Result<T, String>, Vec<u64>) {
    let mut retry = Retry::start();
    let mut pauses = Vec::new();
    loop {
        match f() {
            Ok(r) => return (Ok(r), pauses),
            Err(e) => match retry.after(&e) {
                Some(ms) => pauses.push(ms),
                None => return (Err(e), pauses),
            },
        }
    }
}

#[test]
fn transient_detection() {
    assert!(is_transient("rerank POST http://x: connection refused"));
    assert!(is_transient("rerank HTTP 500 Internal Server Error: boom"));
    assert!(is_transient("rerank HTTP 503 Service Unavailable"));
    // 4xx is deterministic — not retried.
    assert!(!is_transient("rerank HTTP 401 Unauthorized"));
    assert!(!is_transient("rerank HTTP 404 Not Found"));
    assert!(!is_transient("rerank JSON decode: bad shape"));
}

#[test]
fn retry_returns_first_success_without_sleeping() {
    let mut calls = 0;
    let (out, pauses) = with_transient_retry(|| {
        calls += 1;
        Ok(vec![(1usize, 0.5f32)])
    });
    assert_eq!(calls, 1);
    assert_eq!(out.unwrap(), vec![(1, 0.5)]);
    assert!(pauses.is_empty());
}

#[test]
fn retry_succeeds_after_transient_failures() {
    let mut calls = 0;
    let (out, pauses) = with_transient_retry(|| {
        calls += 1;
        if calls < 3 {
            Err("rerank HTTP 503".to_string())
        } else {
            Ok(vec![(0, 1.0)])
        }
    });
    assert_eq!(calls, 3);
    assert_eq!(out.unwrap(), vec![(0, 1.0)]);
    assert_eq!(pauses, vec![250, 750]);
}

#[test]
fn retry_gives_up_after_two_extra_attempts() {
    let mut calls = 0;
    let (res, _) = with_transient_retry(|| {
        calls += 1;
        Err::<Vec<(usize, f32)>, _>("rerank HTTP 500".to_string())
    });
    assert!(res.is_err());
    assert_eq!(calls, 3, "1 initial + 2 retries");
}

#[test]
fn non_transient_error_fails_immediately() {
    let mut calls = 0;
    let (res, _) = with_transient_retry(|| {
        calls += 1;
        Err::<Vec<(usize, f32)>, _>("rerank HTTP 401 Unauthorized".to_string())
    });
    assert!(res.is_err());
    assert_eq!(calls, 1);
}

#[test]
fn scores_are_sorted_highest_first() {
    let scores = [0.25f32, -1.5, 3.0, 0.25, -0.0, 0.0, f32::INFINITY, -7.0];
    let v: Vec<(usize, u32)> = scores.iter().enumerate().map(|(i, s)| (i, s.to_bits())).collect();
    let order: Vec<usize> = sort_by_score(&v).iter().map(|x| x.0).collect();
    assert_eq!(order, vec![6, 2, 0, 3, 4, 5, 1, 7]);
}

#[test]
fn a_reply_is_sorted() {
    let h = HttpReranker::new("http://r:8000/", None);
    let out = h
        .read(Reply::Answered(vec![(0, 0.1f32.to_bits()), (1, 0.9f32.to_bits())]))
        .unwrap();
    assert_eq!(out, vec![(1, 0.9f32.to_bits()), (0, 0.1f32.to_bits())]);
}

#[test]
fn failed_replies_say_why() {
    let h = HttpReranker::new("http://r:8000/", None);
    let e = h.read(Reply::Unsent("connection refused".to_string())).unwrap_err();
    assert_eq!(e, "rerank POST http://r:8000/rerank: connection refused");
    assert!(is_transient(&e));
    let e = h
        .read(Reply::Refused { status: "503 Service Unavailable".to_string(), body: "x".to_string() })
        .unwrap_err();
    assert_eq!(e, "rerank HTTP 503 Service Unavailable: x");
    assert!(is_transient(&e));
    let e = h
        .read(Reply::Refused { status: "404 Not Found".to_string(), body: "".to_string() })
        .unwrap_err();
    assert!(!is_transient(&e));
    let e = h.read(Reply::Unreadable("eof".to_string())).unwrap_err();
    assert_eq!(e, "rerank JSON decode: eof");
    assert!(!is_transient(&e));
}

#[test]
fn requests_carry_query_and_texts() {
    let docs = vec!["a".to_string(), "b".to_string()];
    let h = HttpReranker::new("http://r:8000//", Some("k".to_string()));
    let q = h.request("who", &docs);
    assert_eq!(q.url, "http://r:8000/rerank");
    assert_eq!(
        q.body.compact(),
        "{\"query\":\"who\",\"return_text\":false,\"texts\":[\"a\",\"b\"]}"
    );
    assert_eq!(q.authorization.as_deref(), Some("Bearer k"));
    let o = OpenAiReranker::new("http://r/v1", Some("m".to_string()), None);
    let q = o.request("who", &docs);
    assert_eq!(q.url, "http://r/v1/rerank");
    assert_eq!(
        q.body.compact(),
        "{\"documents\":[\"a\",\"b\"],\"model\":\"m\",\"query\":\"who\"}"
    );
    assert_eq!(q.authorization, None);
    let o = OpenAiReranker::new("http://r/v1", None, None);
    assert_eq!(o.request("who", &docs).body.compact(), "{\"documents\":[\"a\",\"b\"],\"query\":\"who\"}");
}

#[test]
fn keys_that_fit_no_header_are_not_sent() {
    assert_eq!(bearer(None), None);
    assert_eq!(bearer(Some("a\tb é")), Some("Bearer a\tb é".to_string()));
    assert_eq!(bearer(Some("a\nb")), None);
    assert_eq!(bearer(Some("a\u{7f}")), None);
}

fn features(onnx: bool) -> BuildFeatures {
    BuildFeatures { onnx, lightrag_embedded: false }
}

#[test]
fn backends_follow_the_configuration() {
    let mut env: Dict<String> = Dict::new();
    env.insert("KEY".to_string(), "secret".to_string());
    let e = Reranker::load(&RerankConfig::Off, &env, &features(true)).err().unwrap();
    assert_eq!(e, "rerank disabled by config");
    let cfg = RerankConfig::Tei {
        endpoint: " http://r ".to_string(),
        api_key_env: Some("KEY".to_string()),
        timeout_secs: 1,
    };
    match Reranker::load(&cfg, &env, &features(false)) {
        Ok(Reranker::Http(h)) => {
            assert_eq!(h.url, "http://r");
            assert_eq!(h.api_key.as_deref(), Some("secret"));
        }
        _ => panic!("expected an http reranker"),
    }
    let cfg = RerankConfig::Openai {
        endpoint: "http://r/v1".to_string(),
        model: Some("m".to_string()),
        api_key_env: Some("UNSET".to_string()),
        timeout_secs: 1,
    };
    match Reranker::load(&cfg, &env, &features(false)) {
        Ok(Reranker::OpenAi(o)) => {
            assert_eq!(o.model.as_deref(), Some("m"));
            assert_eq!(o.api_key, None);
        }
        _ => panic!("expected an openai reranker"),
    }
    let cfg = RerankConfig::Onnx { dir: None };
    let e = Reranker::load(&cfg, &env, &features(false)).err().unwrap();
    assert_eq!(e, "rerank backend onnx requires the `onnx` feature");
    let e = Reranker::load(&cfg, &env, &features(true)).err().unwrap();
    assert_eq!(e, "cannot resolve home; set rerank.dir");
    env.insert("HOME".to_string(), "/root".to_string());
    match Reranker::load(&cfg, &env, &features(true)) {
        Ok(Reranker::Onnx { dir }) => {
            assert_eq!(dir, "/root/.cache/semdoc/models/bge-reranker-v2-m3")
        }
        _ => panic!("expected an onnx reranker"),
    }
}
