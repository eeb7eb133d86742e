use semdoc::json::Json;
use semdoc::schema::SchemaConfig;
use semdoc::server::{Opening, ReadResult, Route, SESSION_TTL_SECS, SavedSession, Session, Sessions, auth_ok, authorize, check_session, envelope, extract_bearer, found_json, frame, handle_request, health_json, line_error, listen_address, new_session, ok_json, open_call, open_session, parse_error, prefer_json, read_message, read_request, rest_document, rest_limit, rest_token, rows_json, session_error, sse_frame, token_matches, uuid_str};

fn json(s: &str) -> Json {
    Json::parse(s).unwrap()
}

fn session(now: u64) -> Session {
    Session {
        initialized: true,
        protocol_version: "2024-11-05".to_string(),
        created_at: now,
        last_seen: now,
    }
}

#[test]
fn rest_calls_bring_the_token() {
    assert!(auth_ok(None, None));
    assert!(auth_ok(Some("t"), Some("Bearer t")));
    assert!(!auth_ok(Some("t"), Some("Bearer  t")));
    assert!(!auth_ok(Some("t"), Some("bearer t")));
    assert!(!auth_ok(Some("t"), None));
}

#[test]
fn tool_calls_are_refused_without_a_token() {
    assert_eq!(
        authorize(None, Some("Bearer x")).unwrap_err(),
        "SEMDOC_MCP_TOKEN not set; /mcp disabled"
    );
    assert_eq!(
        authorize(Some("s"), Some("Bearer x")).unwrap_err(),
        "Invalid or missing bearer token"
    );
    assert_eq!(authorize(Some("s"), None).unwrap_err(), "Invalid or missing bearer token");
    authorize(Some("s"), Some("Bearer  s ")).unwrap();
    assert_eq!(extract_bearer(Some("Bearer  s ")).as_deref(), Some("s"));
    assert_eq!(extract_bearer(Some("Basic s")), None);
    assert!(token_matches("é", "é"));
    assert!(!token_matches("é", "e"));
    assert!(!token_matches("ab", "abc"));
}

#[test]
fn active_sessions_never_expire() {
    let mut s = Sessions::new();
    s.insert("a".to_string(), session(0));
    s.insert("b".to_string(), session(0));
    assert!(s.get("a", SESSION_TTL_SECS - 1).is_some());
    assert_eq!(s.sweep(SESSION_TTL_SECS, SESSION_TTL_SECS), vec!["b"]);
    assert!(s.get("a", SESSION_TTL_SECS).is_some());
    assert!(s.get("b", SESSION_TTL_SECS).is_none());
    assert!(s.sweep(SESSION_TTL_SECS + 1, SESSION_TTL_SECS).is_empty());
}

#[test]
fn sessions_end_when_deleted() {
    let mut s = Sessions::new();
    s.insert("a".to_string(), session(0));
    assert!(s.remove("a"));
    assert!(!s.remove("a"));
    assert!(s.get("a", 1).is_none());
}

#[test]
fn sessions_survive_a_restart() {
    let saved = vec![SavedSession {
        id: "a".to_string(),
        initialized: 1,
        protocol_version: "2025-03-26".to_string(),
    }];
    let mut s = Sessions::restore(&saved, 50);
    let got = s.get("a", 60).unwrap();
    assert!(got.initialized);
    assert_eq!(got.protocol_version, "2025-03-26");
    assert_eq!(got.created_at, 50);
    assert_eq!(got.last_seen, 60);
}

#[test]
fn only_initialize_needs_no_session() {
    let mut s = Sessions::new();
    assert!(check_session(&mut s, "initialize", None, 0));
    assert!(!check_session(&mut s, "tools/list", None, 0));
    s.insert("a".to_string(), session(0));
    assert!(!check_session(&mut s, "tools/list", Some("b"), 5));
    assert!(check_session(&mut s, "tools/list", Some("a"), 5));
    assert_eq!(s.get("a", 5).unwrap().last_seen, 5);
    let e = session_error(&json("7"));
    let err = e.get("error").unwrap();
    assert_eq!(err.get("code").unwrap().as_i64(), Some(-32001));
    assert_eq!(e.get("id").unwrap().as_i64(), Some(7));
}

#[test]
fn session_ids() {
    assert_eq!(uuid_str(255, 16), "00000000000000ff0000000000000010");
    assert_eq!(uuid_str(0x1_0000_0000_0000_0000, 0), "100000000000000000000000000000000");
    assert_ne!(uuid_str(1, 0), uuid_str(0, 1));
    let s = new_session(&json("{\"protocolVersion\": \"x\"}"), 3);
    assert_eq!(s.protocol_version, "x");
    assert!(s.initialized);
    assert_eq!(new_session(&json("{}"), 3).protocol_version, "2024-11-05");
}

#[test]
fn requests_are_read_with_defaults() {
    let r = read_request(&json("{\"id\": 1, \"method\": \"m\", \"params\": {\"a\": 1}}"));
    assert_eq!(r.method, "m");
    assert_eq!(r.id.as_i64(), Some(1));
    assert_eq!(r.params.get("a").unwrap().as_i64(), Some(1));
    let r = read_request(&json("[]"));
    assert_eq!(r.method, "");
    assert_eq!(r.id, Json::Null);
    assert_eq!(r.params, Json::Obj(vec![]));
}

#[test]
fn methods_are_routed() {
    match handle_request("initialize", &json("{}"), true) {
        Route::Reply(j) => {
            assert_eq!(j.str_field("protocolVersion"), Some("2024-11-05"));
            assert!(j.get("instructions").is_some());
        }
        other => panic!("{other:?}"),
    }
    match handle_request("initialize", &json("{}"), false) {
        Route::Reply(j) => assert!(j.get("instructions").is_none()),
        other => panic!("{other:?}"),
    }
    let silent = handle_request("notifications/initialized", &json("{}"), true);
    assert_eq!(silent, Route::Reply(Json::Null));
    assert_eq!(handle_request("tools/list", &json("{}"), true), Route::Tools);
    let call = json("{\"name\": \"stats\", \"arguments\": {\"a\": 1}}");
    assert_eq!(
        handle_request("tools/call", &call, true),
        Route::Call { name: "stats".to_string(), args: json("{\"a\": 1}") }
    );
    match handle_request("nope", &json("{}"), true) {
        Route::Reply(j) => {
            let e = j.get("error").unwrap();
            assert_eq!(e.get("code").unwrap().as_i64(), Some(-32601));
            assert_eq!(e.str_field("message"), Some("method not found: nope"));
        }
        other => panic!("{other:?}"),
    }
}

#[test]
fn errors_are_merged_into_the_envelope() {
    let ok = envelope(&json("1"), json("{\"a\": 2}"));
    assert_eq!(ok.compact(), "{\"id\":1,\"jsonrpc\":\"2.0\",\"result\":{\"a\":2}}");
    let bad = envelope(&json("1"), json("{\"error\": {\"code\": -1}}"));
    assert_eq!(bad.compact(), "{\"error\":{\"code\":-1},\"id\":1,\"jsonrpc\":\"2.0\"}");
    assert_eq!(
        parse_error("eof").compact(),
        "{\"error\":{\"code\":-32700,\"data\":\"eof\",\"message\":\"Parse error\"},\"id\":null,\"jsonrpc\":\"2.0\"}"
    );
    assert_eq!(
        line_error("eof").compact(),
        "{\"error\":{\"code\":-32700,\"message\":\"parse error: eof\"},\"id\":null,\"jsonrpc\":\"2.0\"}"
    );
}

#[test]
fn lines_are_read() {
    assert!(matches!(read_message(" \t\n"), ReadResult::Empty));
    assert!(matches!(read_message("{\"id\": 1}\n"), ReadResult::Msg(_)));
    assert!(matches!(read_message("{"), ReadResult::ParseError(_)));
}

#[test]
fn answers_are_framed_as_asked() {
    assert!(prefer_json(None));
    assert!(prefer_json(Some("application/json")));
    assert!(prefer_json(Some("text/event-stream, Application/JSON")));
    assert!(prefer_json(Some("application/json;q=0.9")));
    assert!(!prefer_json(Some("text/event-stream")));
    assert!(!prefer_json(Some("")));
    assert_eq!(sse_frame("{}"), "event: message\ndata: {}\n\n");
}

#[test]
fn documents_over_rest() {
    let c = SchemaConfig::empty();
    let d = rest_document(&c, "hello", None, vec![("k".to_string(), json("1"))]);
    assert_eq!(d.id, semdoc::hash::content_hash("hello"));
    assert_eq!(d.source_path, "inline");
    assert_eq!(d.source_type, "text");
    assert_eq!(d.language.as_deref(), Some("markdown"));
    assert_eq!(d.extra, vec![("k".to_string(), json("1"))]);
    assert_eq!(rest_limit(None), 10);
    assert_eq!(rest_limit(Some(1000)), 200);
    assert_eq!(ok_json().compact(), "{\"ok\":true}");
    assert_eq!(rows_json(3).compact(), "{\"rows\":3}");
    assert_eq!(health_json(3, "none").compact(), "{\"graph\":\"none\",\"ok\":true,\"rows\":3}");
    assert_eq!(found_json(&Vec::new()).compact(), "{\"documents\":[]}");
}

#[test]
fn server_settings() {
    let s = |t: &str| Some(t.to_string());
    assert_eq!(rest_token(s("a"), s("b"), true).unwrap(), s("a"));
    assert_eq!(rest_token(None, s("b"), true).unwrap(), s("b"));
    assert_eq!(rest_token(None, None, false).unwrap(), None);
    assert_eq!(
        rest_token(None, None, true).unwrap_err(),
        "--auth requires server.token_env (config) or SEMDOC_TOKEN (env)"
    );
    assert_eq!(listen_address(Some("a:1"), Some("b:2")), "a:1");
    assert_eq!(listen_address(None, Some("b:2")), "b:2");
    assert_eq!(listen_address(None, None), "127.0.0.1:8092");
}

#[test]
fn calls_are_opened_in_order() {
    let mut s = Sessions::new();
    let good = Some("Bearer secret");
    let hello = br#"{"jsonrpc":"2.0","id":7,"method":"initialize","params":{"protocolVersion":"x"}}"#;
    let list = br#"{"id":8,"method":"tools/list"}"#.to_vec();

    let refused = open_call(Some("secret"), None, &b"not json".to_vec(), &mut s, None, 1);
    assert_eq!(refused, Opening::Unauthorized("Invalid or missing bearer token".to_string()));
    let off = open_call(None, good, &list, &mut s, None, 1);
    assert_eq!(off, Opening::Unauthorized("SEMDOC_MCP_TOKEN not set; /mcp disabled".to_string()));
    match open_call(Some("secret"), good, &b"{".to_vec(), &mut s, None, 1) {
        Opening::Malformed(j) => {
            let e = j.get("error").unwrap();
            assert_eq!(e.get("code").unwrap().as_i64(), Some(-32700));
            assert_eq!(e.str_field("message"), Some("Parse error"));
        }
        other => panic!("{other:?}"),
    }
    match open_call(Some("secret"), good, &list, &mut s, Some("nobody"), 1) {
        Opening::NoSession(j) => {
            assert_eq!(j.get("id").unwrap().as_i64(), Some(8));
            assert_eq!(j.get("error").unwrap().get("code").unwrap().as_i64(), Some(-32001));
        }
        other => panic!("{other:?}"),
    }
    assert!(s.table.keys.is_empty());

    let params = match open_call(Some("secret"), good, &hello.to_vec(), &mut s, None, 1) {
        Opening::Serve(i) => {
            assert_eq!(i.method, "initialize");
            i.params
        }
        other => panic!("{other:?}"),
    };
    let id = open_session(&mut s, &params, 0x1f, 2, 1);
    assert_eq!(id, "000000000000001f0000000000000002");
    let opened = s.table.get(&id).unwrap();
    assert_eq!((opened.protocol_version.as_str(), opened.created_at), ("x", 1));

    match open_call(Some("secret"), good, &list, &mut s, Some(&id), 50) {
        Opening::Serve(i) => assert_eq!((i.method.as_str(), i.id.as_i64()), ("tools/list", Some(8))),
        other => panic!("{other:?}"),
    }
    assert_eq!(s.table.get(&id).unwrap().last_seen, 50);
}

#[test]
fn answers_have_a_content_type() {
    let a = json("{\"a\":1}");
    let plain = frame(None, &a);
    assert_eq!((plain.content_type, plain.body.as_str()), ("application/json", "{\"a\":1}"));
    let event = frame(Some("text/event-stream"), &a);
    assert_eq!(event.content_type, "text/event-stream");
    assert_eq!(event.body, "event: message\ndata: {\"a\":1}\n\n");
}

#[test]
fn bodies_that_are_no_text_are_refused() {
    let mut s = Sessions::new();
    let body = vec![b'"', 0xff, b'"'];
    let r = open_call(Some("t"), Some("Bearer t"), &body, &mut s, None, 0);
    assert!(matches!(r, Opening::Malformed(_)));
}
