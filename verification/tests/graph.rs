use semdoc::dict::Dict;
use semdoc::hash::name_hash;
use semdoc::http::Reply;
use semdoc::hybrid::{
    answer_json, degraded_json, graph_contents, graph_data, graph_doc_ids, graph_documents,
    graph_json, hybrid_documents, hybrid_json, hybrid_rest_json, needs_all_documents,
    needs_content_scan, pretty_reply, read_outcome, Outcome,
};
use semdoc::json::Json;
use semdoc::plugins::graph::{
    build_graph_plugin, delete_request, health_url, insert_request, query_request, read_delete,
    read_health, read_insert, read_query, trim_slashes, Backend, DeleteTries, Deletion, GraphMode,
    GraphQueryParams, NoGraph,
};
use semdoc::query::Pred;
use semdoc::schema::GraphPluginConfig;
use semdoc::store::Record;

fn json(s: &str) -> Json {
    Json::parse(s).unwrap()
}

fn doc(id: &str, text: &str, category: &str) -> Record {
    Record {
        id: id.to_string(),
        raw_text: text.to_string(),
        chunk_level: 0,
        chunk_index: 0,
        parent_doc_id: None,
        source_path: "/s".to_string(),
        source_type: "file".to_string(),
        extra: vec![("category".to_string(), Json::string(category))],
    }
}

fn ids(rows: &[Record]) -> Vec<&str> {
    rows.iter().map(|r| r.id.as_str()).collect()
}

fn refused(status: &str, body: &str) -> Reply<String> {
    Reply::Refused { status: status.to_string(), body: body.to_string() }
}

fn answered(body: &str) -> Reply<String> {
    Reply::Answered(body.to_string())
}

#[test]
fn documents_are_inserted_under_the_name_of_their_file() {
    let r = insert_request("http://g:9621/", "body", "abc", 600);
    assert_eq!(r.url, "http://g:9621/documents/text");
    assert_eq!(r.body.compact(), "{\"file_source\":\"abc.txt\",\"text\":\"body\"}");
    assert_eq!(r.timeout_secs, 600);
}

#[test]
fn name_hash_is_md5() {
    assert_eq!(name_hash(""), "d41d8cd98f00b204e9800998ecf8427e");
    assert_eq!(name_hash("abcdefghijklmnopqrstuvwxyz"), "c3fcd3d76192e4007dfb496cca67e13b");
}

#[test]
fn documents_are_deleted_under_both_ids() {
    let r = delete_request("http://g", "abc", 60);
    assert_eq!(r.url, "http://g/documents/delete_document");
    let want = format!("{{\"doc_ids\":[\"doc-{}\",\"abc\"]}}", name_hash("abc.txt"));
    assert_eq!(r.body.compact(), want);
}

#[test]
fn inserted_documents_are_found_again() {
    let data = json("{\"chunks\": [{\"file_path\": \"abc.txt\"}, {\"file_path\": \"unknown\"}]}");
    assert_eq!(graph_doc_ids(&data), vec!["abc"]);
}

#[test]
fn busy_servers_are_asked_three_times() {
    let mut tries = DeleteTries::start();
    let busy = || read_delete("a", &answered("{\"status\": \"busy\"}"));
    let mut made = 0;
    loop {
        made += 1;
        if !tries.again(&busy()) {
            break;
        }
    }
    assert_eq!(made, 3);
    assert_eq!(busy().error("a").unwrap(), "lightrag delete a: pipeline busy");
    let mut tries = DeleteTries::start();
    assert!(!tries.again(&Deletion::Done));
    let mut tries = DeleteTries::start();
    assert!(!tries.again(&Deletion::Failed("x".to_string())));
}

#[test]
fn graph_replies_are_read() {
    assert!(matches!(read_delete("a", &answered("{\"status\": \"ok\"}")), Deletion::Done));
    assert!(matches!(read_delete("a", &answered("fine")), Deletion::Done));
    assert!(Deletion::Done.error("a").is_none());
    assert_eq!(
        read_delete("a", &refused("500 Internal Server Error", "x")).error("a").unwrap(),
        "lightrag delete a: HTTP 500 Internal Server Error"
    );
    assert_eq!(
        read_delete("a", &Reply::Unsent("down".to_string())).error("a").unwrap(),
        "lightrag delete a: down"
    );
    assert!(read_insert("a", &answered("{}")).is_ok());
    assert_eq!(
        read_insert("a", &refused("422 Unprocessable Entity", "why")).unwrap_err(),
        "lightrag insert a: HTTP 422 Unprocessable Entity: why"
    );
    assert_eq!(
        read_insert("a", &Reply::Unsent("down".to_string())).unwrap_err(),
        "lightrag insert a: down"
    );
    assert!(read_health("http://g/", &answered("")).is_ok());
    assert_eq!(
        read_health("http://g/", &Reply::Unsent("down".to_string())).unwrap_err(),
        "lightrag health http://g/health: down"
    );
    assert_eq!(
        read_health("http://g/", &refused("503 Service Unavailable", "")).unwrap_err(),
        "lightrag health: HTTP 503 Service Unavailable"
    );
    let a = read_query(answered("words")).unwrap();
    assert_eq!(a.content, "words");
    assert!(!a.degraded);
    assert_eq!(
        read_query(refused("401 Unauthorized", "")).unwrap_err(),
        "lightrag query: HTTP 401 Unauthorized"
    );
    assert_eq!(
        read_query(Reply::Unsent("down".to_string())).unwrap_err(),
        "lightrag query: down"
    );
    assert_eq!(read_query(Reply::Unreadable("eof".to_string())).unwrap_err(), "eof");
}

#[test]
fn queries_carry_the_sizes() {
    let params = GraphQueryParams { chunk_top_k: Some(7), ..Default::default() };
    let r = query_request("http://g/", "q", GraphMode::Data, 5, params);
    assert_eq!(r.url, "http://g/query/data");
    assert_eq!(r.timeout_secs, 60);
    assert_eq!(
        r.body.compact(),
        "{\"chunk_top_k\":7,\"mode\":\"hybrid\",\"query\":\"q\",\"top_k\":5}"
    );
    let r = query_request("http://g", "q", GraphMode::Hybrid, 5, Default::default());
    assert_eq!(r.url, "http://g/query");
    assert_eq!(r.timeout_secs, 120);
    assert_eq!(trim_slashes("http://g///"), "http://g");
    assert_eq!(health_url("http://g/"), "http://g/health");
}

#[test]
fn backends_are_chosen() {
    let mut env: Dict<String> = Dict::new();
    assert!(matches!(build_graph_plugin(&None, &env, false), Ok(Backend::Disabled)));
    let server = || {
        Some(GraphPluginConfig::LightragServer {
            endpoint: "http://g//".to_string(),
            api_key_env: Some("K".to_string()),
            query_timeout_secs: 1,
            insert_concurrency: 0,
            insert_timeout_secs: 2,
            delete_timeout_secs: 3,
        })
    };
    env.insert("K".to_string(), "secret".to_string());
    match build_graph_plugin(&server(), &env, false) {
        Ok(Backend::Server(s)) => {
            assert_eq!(s.endpoint, "http://g");
            assert_eq!(s.api_key.as_deref(), Some("secret"));
            assert_eq!(s.insert_concurrency, 1);
            assert_eq!(s.insert_timeout_secs, 2);
            assert_eq!(s.delete_timeout_secs, 3);
        }
        _ => panic!("expected a server"),
    }
    let embedded =
        Some(GraphPluginConfig::LightragEmbedded { workspace: None, query_timeout_secs: 1 });
    assert_eq!(
        build_graph_plugin(&embedded, &env, false).err().unwrap(),
        "lightrag-embedded requires the `lightrag-embedded` feature"
    );
    assert!(build_graph_plugin(&embedded, &env, true).err().unwrap().contains("build-time stub"));
}

#[test]
fn no_graph_refuses_queries_only() {
    let g = NoGraph;
    assert_eq!(g.name(), "none");
    assert_eq!(g.health().unwrap_err(), "graph plugin disabled");
    g.insert(&vec![("t".to_string(), "i".to_string())]).unwrap();
    g.delete("i").unwrap();
    assert_eq!(
        g.query("q", GraphMode::Data, 1, &Default::default()).unwrap_err(),
        "graph plugin disabled"
    );
}

#[test]
fn chunks_point_at_documents() {
    let data = json(
        "{\"chunks\": [{\"doc_id\": \"b\"}, {\"doc_id\": \"a\"}, {\"doc_id\": \"b\"}, {\"doc_id\": \"\"}, {}, {\"doc_id\": 1}]}",
    );
    assert_eq!(graph_doc_ids(&data), vec!["b", "a"]);
    assert!(graph_doc_ids(&json("{}")).is_empty());
    let long = "x".repeat(50);
    let data = json(&format!("{{\"chunks\": [{{\"content\": \"{long}\"}}, {{\"content\": \"short\"}}]}}"));
    assert_eq!(graph_contents(&data), vec![long]);
    assert_eq!(graph_data(&json("{\"data\": 1}")), json("1"));
    assert_eq!(graph_data(&json("{}")), Json::Null);
}

#[test]
fn graph_documents_are_filtered_and_limited() {
    let data = json("{\"chunks\": [{\"doc_id\": \"b\"}, {\"doc_id\": \"a\"}, {\"doc_id\": \"c\"}]}");
    let parents = vec![doc("a", "", "mm"), doc("b", "", "net"), doc("c", "", "mm")];
    let out = graph_documents(&data, &parents, &vec![], None, 2);
    assert_eq!(ids(&out), vec!["b", "a"]);
    let only = Pred::Eq("category".to_string(), Json::string("mm"));
    let out = graph_documents(&data, &parents, &vec![], Some(&only), 10);
    assert_eq!(ids(&out), vec!["a", "c"]);
}

#[test]
fn chunks_without_ids_are_found_by_content() {
    let words = "the quick brown fox jumps over the lazy dog and runs away";
    let data = json(&format!("{{\"chunks\": [{{\"content\": \"{words}\"}}]}}"));
    let all = vec![
        doc("a", &format!("before {words} after"), "mm"),
        doc("b", "nothing", "mm"),
        doc("c", words, "mm"),
    ];
    assert!(needs_content_scan(&data, &vec![]));
    assert!(!needs_content_scan(&data, &vec![doc("a", "", "mm")]));
    assert!(!needs_content_scan(&json("{}"), &vec![]));
    let out = graph_documents(&data, &vec![], &all, None, 10);
    assert_eq!(ids(&out), vec!["a", "c"]);
    assert_eq!(graph_documents(&data, &vec![], &all, None, 1).len(), 1);
}

#[test]
fn hybrid_results_come_once_graph_first() {
    let data = json("{\"chunks\": [{\"doc_id\": \"b\"}, {\"doc_id\": \"a\"}]}");
    let parents = vec![doc("a", "", ""), doc("b", "", "")];
    let found = vec![doc("b", "", ""), doc("c", "", ""), doc("d", "", "")];
    let out = hybrid_documents(Some(&data), &parents, &vec![], &found, 3, false);
    assert_eq!(ids(&out), vec!["b", "a", "c"]);
    let out = hybrid_documents(None, &vec![], &vec![], &found, 2, false);
    assert_eq!(ids(&out), vec!["b", "c"]);
    assert!(!needs_all_documents(&data, &parents));
    assert!(needs_all_documents(&data, &vec![]));
}

#[test]
fn graph_answers_are_read() {
    assert_eq!(read_outcome(None, false), Outcome::Failed);
    assert_eq!(read_outcome(Some("hi"), true), Outcome::Answer("hi".to_string()));
    assert_eq!(
        read_outcome(Some("{\"data\": {\"a\": 1}}"), false),
        Outcome::Data(json("{\"a\": 1}"))
    );
    assert!(matches!(read_outcome(Some("{"), false), Outcome::Unreadable(_)));
}

#[test]
fn degraded_answers_say_so() {
    let j = degraded_json(&vec![doc("a", "t", "")]);
    assert_eq!(j.get("degraded").unwrap().as_bool(), Some(true));
    assert_eq!(j.get("answer"), Some(&Json::Null));
    assert_eq!(j.get("documents").unwrap().as_array().unwrap().len(), 1);
    let j = graph_json(json("{\"e\": []}"), &vec![]);
    assert_eq!(j.compact(), "{\"degraded\":false,\"documents\":[],\"graph\":{\"e\":[]}}");
    assert_eq!(answer_json("hi").compact(), "{\"answer\":\"hi\",\"degraded\":false}");
    let text = pretty_reply(&json("{\"a\": 1}"));
    let content = text.get("content").unwrap().as_array().unwrap();
    assert_eq!(content[0].str_field("text"), Some("{\n  \"a\": 1\n}"));
}

#[test]
fn hybrid_answers_hold_both_sides() {
    let j = hybrid_json(&Outcome::Failed, &vec![doc("a", "t", "")]);
    assert_eq!(j.get("degraded").unwrap().as_bool(), Some(true));
    assert_eq!(j.get("documents").unwrap().as_array().unwrap().len(), 1);
    let words = Outcome::Answer("hi".to_string());
    let rest = hybrid_rest_json(&words, true, &vec![doc("a", "t", "")]);
    assert_eq!(rest.str_field("answer"), Some("hi"));
    let docs = rest.get("documents").unwrap().as_array().unwrap();
    assert_eq!(docs.len(), 2);
    assert_eq!(docs[0].str_field("answer"), Some("hi"));
    let data = Outcome::Data(json("{\"e\": 1}"));
    let rest = hybrid_rest_json(&data, false, &vec![]);
    assert_eq!(rest.get("graph"), Some(&json("{\"e\": 1}")));
    assert_eq!(rest.get("degraded").unwrap().as_bool(), Some(false));
}
