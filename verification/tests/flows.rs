use semdoc::asking::{AskAction, AskStage, Asking, Caller, Merging};
use semdoc::chunker::chunk_plain_with;
use semdoc::dict::Dict;
use semdoc::hybrid::Outcome;
use semdoc::ingest::Writer;
use semdoc::json::Json;
use semdoc::mcp::{compile_filter, graph_mode, GraphAsk};
use semdoc::plugins::graph::{GraphMode, GraphQueryParams};
use semdoc::query::ExpandTo;
use semdoc::schema::{FieldConfig, SchemaConfig, VectorFieldConfig};
use semdoc::search::{Finish, Need, Search, Stage, WINDOW};
use semdoc::store::{InputDoc, Record};
use semdoc::writing::{AddAction, AddStage, Adding, Removal, RemoveAction};

fn json(s: &str) -> Json {
    Json::parse(s).unwrap()
}

fn fail<T>() -> Result<T, String> {
    Err("boom".to_string())
}

fn row(id: &str, parent: Option<&str>, index: u32, text: &str) -> Record {
    Record {
        id: id.to_string(),
        raw_text: text.to_string(),
        chunk_level: if parent.is_some() { 1 } else { 0 },
        chunk_index: index,
        parent_doc_id: parent.map(str::to_string),
        source_path: "inline".to_string(),
        source_type: "text".to_string(),
        extra: Vec::new(),
    }
}

fn ids(rows: &[Record]) -> Vec<&str> {
    rows.iter().map(|r| r.id.as_str()).collect()
}

fn said(j: &Json) -> String {
    let content = &j.get("content").unwrap().as_array().unwrap()[0];
    content.str_field("text").unwrap().to_string()
}

// ---------------------------------------------------------------------------
// Searches
// ---------------------------------------------------------------------------

fn search(finish: Finish, limit: usize) -> Search {
    Search::start("why", limit, finish, "dense_vec", 2)
}

#[test]
fn a_search_for_chunks_gives_the_hits() {
    let mut s = search(Finish::Expand(ExpandTo::Chunk), 3);
    assert_eq!(s.next(), Need::Embed("why".to_string()));
    s.embedded(Ok(vec![1, 2])).unwrap();
    assert_eq!(s.next(), Need::Nearest { vector: vec![1, 2], limit: 3 });
    s.found(Ok(vec![row("a0", Some("a"), 0, "x"), row("z", None, 0, "y")])).unwrap();
    assert_eq!(s.next(), Need::Parents(vec!["a".to_string()]));
    s.gathered(Ok(vec![row("a", None, 0, "whole")])).unwrap();
    assert_eq!(s.next(), Need::Nothing);
    assert_eq!(ids(&s.into_rows()), ["a0", "z"]);
}

#[test]
fn a_lone_hit_comes_with_its_neighbours() {
    for around in [Ok(vec![row("a1", Some("a"), 1, "two")]), fail()] {
        let alone = around.is_err();
        let mut s = search(Finish::Expand(ExpandTo::Auto), 3);
        s.embedded(Ok(vec![1, 2])).unwrap();
        s.found(Ok(vec![
            row("b0", Some("b"), 0, "p"),
            row("b1", Some("b"), 1, "q"),
            row("a2", Some("a"), 2, "three"),
        ]))
        .unwrap();
        s.gathered(Ok(vec![row("b", None, 0, "whole")])).unwrap();
        assert_eq!(s.next(), Need::Around { parent: "a".to_string(), index: 2 });
        s.surrounded(around);
        assert_eq!(s.next(), Need::Nothing);
        let rows = s.into_rows();
        if alone {
            assert_eq!(ids(&rows), ["b", "a2"]);
        } else {
            assert_eq!(ids(&rows), ["b", "a1"]);
            assert_eq!(rows[1].raw_text, "two\n\nthree");
        }
    }
}

#[test]
fn every_lone_hit_is_asked_about_once() {
    let mut s = search(Finish::Expand(ExpandTo::Auto), 9);
    s.embedded(Ok(vec![1, 2])).unwrap();
    s.found(Ok(vec![
        row("z", None, 0, "alone"),
        row("a2", Some("a"), 2, "three"),
        row("b0", Some("b"), 0, "p"),
        row("c5", Some("c"), 5, "six"),
        row("b1", Some("b"), 1, "q"),
        row("d0", Some("d"), 0, "first"),
    ]))
    .unwrap();
    s.gathered(Ok(vec![row("b", None, 0, "whole"), row("a", None, 0, "other")])).unwrap();
    assert_eq!(s.next(), Need::Around { parent: "a".to_string(), index: 2 });
    s.surrounded(Ok(vec![row("a3", Some("a"), 3, "four"), row("a1", Some("a"), 1, "two")]));
    assert_eq!(s.next(), Need::Around { parent: "c".to_string(), index: 5 });
    s.surrounded(fail());
    assert_eq!(s.next(), Need::Around { parent: "d".to_string(), index: 0 });
    s.surrounded(Ok(vec![]));
    assert_eq!(s.next(), Need::Nothing);
    let rows = s.into_rows();
    assert_eq!(ids(&rows), ["z", "a1", "b", "c5", "d0"]);
    assert_eq!(rows[1].raw_text, "two\n\nthree\n\nfour");
    assert_eq!(WINDOW, 1);
}

#[test]
fn a_merged_row_has_the_id_of_its_first_chunk() {
    let mut s = search(Finish::Expand(ExpandTo::Auto), 1);
    s.embedded(Ok(vec![1, 2])).unwrap();
    s.found(Ok(vec![row("a9", Some("a"), u32::MAX, "x")])).unwrap();
    s.gathered(Ok(vec![])).unwrap();
    s.surrounded(Ok(vec![row("a8", Some("a"), u32::MAX, "w")]));
    assert_eq!(ids(&s.into_rows()), ["a8"]);
}

#[test]
fn a_ranked_search_looks_further_than_asked() {
    let leaves = || Ok(vec![row("x", None, 0, "1"), row("y", None, 0, "2"), row("z", None, 0, "3")]);
    for (order, want) in [(Ok(vec![2, 7, 0]), vec!["z"]), (fail(), vec!["x", "y"])] {
        let mut s = search(Finish::Rank, 2);
        s.embedded(Ok(vec![1, 2])).unwrap();
        assert_eq!(s.next(), Need::Nearest { vector: vec![1, 2], limit: 80 });
        s.found(leaves()).unwrap();
        assert_eq!(s.next(), Need::Rank(vec!["1".to_string(), "2".to_string(), "3".to_string()]));
        s.ranked(order);
        assert_eq!(ids(&s.into_rows()), want);
    }
}

#[test]
fn a_search_fails_where_it_cannot_go_on() {
    let mut s = search(Finish::Rank, 2);
    assert_eq!(s.embedded(fail()).unwrap_err(), "boom");
    assert_eq!(
        s.embedded(Ok(vec![1, 2, 3])).unwrap_err(),
        "embedder returned dim 3 but vector column `dense_vec` expects dim 2"
    );
    s.embedded(Ok(vec![1, 2])).unwrap();
    assert_eq!(s.found(fail()).unwrap_err(), "boom");
    s.found(Ok(Vec::new())).unwrap();
    assert_eq!(s.stage, Stage::Done);
    assert!(s.into_rows().is_empty());
    let mut s = search(Finish::Expand(ExpandTo::Parent), 2);
    s.embedded(Ok(vec![1, 2])).unwrap();
    s.found(Ok(vec![row("a0", Some("a"), 0, "x")])).unwrap();
    assert_eq!(s.gathered(fail()).unwrap_err(), "boom");
}

// ---------------------------------------------------------------------------
// Adding and removing
// ---------------------------------------------------------------------------

fn schema() -> SchemaConfig {
    let mut c = SchemaConfig::empty();
    c.fields = Dict::from_entries(vec![(
        "key".to_string(),
        FieldConfig {
            kind: "string".to_string(),
            index: false,
            required: false,
            replace_key: true,
        },
    )]);
    c
}

fn adding(writer: Writer, graph: bool) -> Adding {
    let doc = InputDoc {
        id: "new".to_string(),
        raw_text: "text".to_string(),
        source_path: "inline".to_string(),
        source_type: "text".to_string(),
        language: None,
        extra: vec![("key".to_string(), Json::string("k"))],
        vectors: Dict::new(),
    };
    let fields = vec![VectorFieldConfig {
        name: "dense_vec".to_string(),
        dim: 2,
        source: "raw_text".to_string(),
        metric: "cosine".to_string(),
        index: "none".to_string(),
        auto_embed: true,
    }];
    let chunks = chunk_plain_with("text", "new", 512, 50);
    Adding::start(&schema(), doc, chunks, fields, writer, graph)
}

/// Embeds and writes what is left.
fn write(a: &mut Adding) {
    let c = schema();
    while let AddAction::Embed(t) = a.next() {
        assert_eq!(t, "text");
        a.embedded(&c, Ok(vec![1, 2]));
    }
    assert_eq!(a.next(), AddAction::Write);
    assert_eq!(a.rows.len(), 2);
    assert_eq!(a.rows[0].record.id, "new");
    a.written(Ok(()));
}

#[test]
fn a_tool_replaces_what_it_can() {
    let c = schema();
    let mut a = adding(Writer::Tool, true);
    assert_eq!(a.next(), AddAction::Find("key = 'k'".to_string()));
    let found = ["old1", "new", "old2"].map(|id| row(id, None, 0, ""));
    a.found(&c, Ok(Vec::from(found)));
    assert_eq!(a.next(), AddAction::Delete("old1".to_string()));
    a.deleted(&c, fail());
    assert_eq!(a.next(), AddAction::Delete("old2".to_string()));
    a.deleted(&c, Ok(()));
    assert_eq!(a.next(), AddAction::Unmirror("old2".to_string()));
    a.unmirrored(&c, fail());
    write(&mut a);
    assert_eq!(a.next(), AddAction::Optimize);
    a.optimized(fail());
    assert_eq!(
        a.next(),
        AddAction::Mirror { body: "text".to_string(), id: "new".to_string() }
    );
    a.mirrored(fail());
    assert_eq!(a.next(), AddAction::Stop);
    assert_eq!(
        said(&a.tool_reply()),
        "文档已写入，id: new（chunks: 1）（已按 replace_key 替换旧版本 old2）\
         （注意：图谱镜像失败，LanceDB 已写入: boom）"
    );
}

#[test]
fn the_command_line_gives_up_where_a_tool_goes_on() {
    let c = schema();
    let mut a = adding(Writer::Cli, false);
    a.found(&c, fail());
    assert_eq!(a.cli_reply().unwrap_err(), "boom");
    let mut a = adding(Writer::Cli, false);
    a.found(&c, Ok(vec![row("old", None, 0, "")]));
    a.deleted(&c, fail());
    assert_eq!(a.cli_reply().unwrap_err(), "boom");
    let mut a = adding(Writer::Cli, false);
    a.found(&c, Ok(vec![row("old", None, 0, "")]));
    a.deleted(&c, Ok(()));
    write(&mut a);
    a.optimized(Ok(()));
    assert_eq!(a.stage, AddStage::Done);
    assert_eq!(
        a.cli_reply().unwrap(),
        "added (id auto-hashed from content) — replaced old version old"
    );
    let mut a = adding(Writer::Cli, false);
    a.found(&c, Ok(Vec::new()));
    write(&mut a);
    a.optimized(fail());
    assert_eq!(a.cli_reply().unwrap_err(), "boom");
}

#[test]
fn rest_writes_replace_nothing() {
    let mut a = adding(Writer::Rest, false);
    write(&mut a);
    assert_eq!(a.next(), AddAction::Stop);
    assert_eq!(a.rest_reply().unwrap().compact(), "{\"ok\":true}");
    let c = schema();
    let mut a = adding(Writer::Rest, true);
    a.embedded(&c, fail());
    assert_eq!(a.rest_reply().unwrap_err(), "boom");
}

#[test]
fn a_tool_says_which_step_failed() {
    let c = schema();
    let start = || {
        let mut a = adding(Writer::Tool, false);
        a.found(&schema(), fail());
        a
    };
    let mut a = start();
    a.embedded(&c, fail());
    assert_eq!(said(&a.tool_reply()), "embed failed: boom");
    let mut a = start();
    a.embedded(&c, Ok(vec![1]));
    assert_eq!(
        said(&a.tool_reply()),
        "vector column `dense_vec`: embedder dim 1 != configured dim 2"
    );
    let mut a = start();
    a.embedded(&c, Ok(vec![1, 2]));
    a.embedded(&c, Ok(vec![1, 2]));
    a.written(fail());
    assert_eq!(said(&a.tool_reply()), "write failed: boom");
    let mut strict = schema();
    strict.fields.insert(
        "must".to_string(),
        FieldConfig {
            kind: "string".to_string(),
            index: false,
            required: true,
            replace_key: false,
        },
    );
    let mut a = start();
    a.embedded(&strict, Ok(vec![1, 2]));
    a.embedded(&strict, Ok(vec![1, 2]));
    assert_eq!(said(&a.tool_reply()), "batch build failed: required field missing: string");
}

#[test]
fn a_chunk_takes_its_document_along() {
    let mut r = Removal::start("a0", true);
    assert_eq!(r.next(), RemoveAction::Find("a0".to_string()));
    r.found(Ok(Some(row("a0", Some("a"), 0, ""))));
    assert_eq!(r.next(), RemoveAction::Delete("a".to_string()));
    r.deleted(Ok(()));
    assert_eq!(r.next(), RemoveAction::Unmirror("a".to_string()));
    r.unmirrored(fail());
    let text = r.outcome().unwrap();
    assert!(text.starts_with("文档 a 已删除（chunks 级联清理）（注意"), "{text}");
    assert!(text.ends_with("boom）"), "{text}");
}

#[test]
fn removals_fail_without_a_document() {
    assert_eq!(Removal::start("", false).outcome().unwrap_err(), "id is required");
    let mut r = Removal::start("a", false);
    r.found(Ok(None));
    assert_eq!(r.outcome().unwrap_err(), "document not found: a");
    let mut r = Removal::start("a", false);
    r.found(fail());
    assert_eq!(r.outcome().unwrap_err(), "boom");
    let mut r = Removal::start("a", false);
    r.found(Ok(Some(row("a", None, 0, ""))));
    r.deleted(fail());
    assert_eq!(r.outcome().unwrap_err(), "boom");
    let mut r = Removal::start("a", false);
    r.found(Ok(Some(row("a", None, 0, ""))));
    r.deleted(Ok(()));
    assert_eq!(r.outcome().unwrap(), "文档 a 已删除（chunks 级联清理）");
}

// ---------------------------------------------------------------------------
// Questions to the graph
// ---------------------------------------------------------------------------

#[test]
fn the_graph_is_asked_for_words_or_data() {
    assert_eq!(graph_mode(&ask(true)), GraphMode::Hybrid);
    assert_eq!(graph_mode(&ask(false)), GraphMode::Data);
}

fn ask(want_answer: bool) -> GraphAsk {
    let filter = json("{\"key\": \"k\"}");
    GraphAsk {
        text: "why".to_string(),
        limit: 3,
        filter: compile_filter(&schema(), Some(&filter)).unwrap(),
        want_answer,
        params: GraphQueryParams::default(),
    }
}

fn keyed(id: &str, text: &str) -> Record {
    let mut r = row(id, None, 0, text);
    r.extra = vec![("key".to_string(), Json::string("k"))];
    r
}

const LONG: &str = "a text that is long enough to be looked for in all documents";

#[test]
fn a_failing_graph_falls_back_to_a_search() {
    let mut a = Asking::start(ask(false), Caller::Tool);
    assert_eq!(a.next(), AskAction::Ask);
    a.answered(Outcome::Failed);
    assert_eq!(a.next(), AskAction::Search(Some("key = 'k'".to_string())));
    a.searched(Ok(vec![row("a", None, 0, "x")]));
    assert_eq!(a.next(), AskAction::Stop);
    let j = json(&said(&a.tool_reply()));
    assert_eq!(j.get("degraded").unwrap().as_bool(), Some(true));
    assert_eq!(j.get("documents").unwrap().as_array().unwrap().len(), 1);

    let mut a = Asking::start(ask(false), Caller::Rest);
    a.answered(Outcome::Failed);
    assert_eq!(a.next(), AskAction::Search(None));
    a.searched(fail());
    assert_eq!(a.reply.unwrap_err(), "boom");
    let mut a = Asking::start(ask(false), Caller::Tool);
    a.answered(Outcome::Failed);
    a.searched(fail());
    assert_eq!(said(&a.tool_reply()), "query failed: boom");
}

#[test]
fn graph_answers_in_words_are_passed_on() {
    let mut a = Asking::start(ask(true), Caller::Tool);
    a.answered(Outcome::Answer("so".to_string()));
    assert_eq!(said(&a.tool_reply()), "so");
    let mut a = Asking::start(ask(true), Caller::Rest);
    a.answered(Outcome::Answer("so".to_string()));
    assert_eq!(a.reply.unwrap().compact(), "{\"answer\":\"so\",\"degraded\":false}");
    let mut a = Asking::start(ask(false), Caller::Rest);
    a.answered(Outcome::Unreadable("no".to_string()));
    assert_eq!(a.reply.unwrap_err(), "graph data decode: no");
}

#[test]
fn graph_data_is_mapped_to_documents() {
    let data = || json("{\"chunks\": [{\"doc_id\": \"a\"}, {\"doc_id\": \"b\"}]}");
    let mut a = Asking::start(ask(false), Caller::Rest);
    a.answered(Outcome::Data(data()));
    assert_eq!(a.next(), AskAction::Parents(vec!["a".to_string(), "b".to_string()]));
    a.mapped(Ok(vec![keyed("b", "x"), row("a", None, 0, "y")]));
    assert_eq!(a.next(), AskAction::Stop);
    let j = a.reply.unwrap();
    assert_eq!(j.get("degraded").unwrap().as_bool(), Some(false));
    let docs = j.get("documents").unwrap().as_array().unwrap();
    assert_eq!(docs.len(), 1);
    assert_eq!(docs[0].str_field("id"), Some("b"));

    let mut a = Asking::start(ask(false), Caller::Tool);
    a.answered(Outcome::Data(data()));
    a.mapped(fail());
    assert_eq!(said(&a.tool_reply()), "map documents: boom");
}

#[test]
fn texts_of_the_graph_are_looked_for_in_all_documents() {
    let data = || json(&format!("{{\"chunks\": [{{\"content\": \"{LONG}\"}}]}}"));
    let whole = format!("before {LONG} after");
    let mut a = Asking::start(ask(false), Caller::Rest);
    a.answered(Outcome::Data(data()));
    assert_eq!(a.next(), AskAction::All);
    a.scanned(Ok(vec![keyed("a", "other"), keyed("b", &whole), row("c", None, 0, &whole)]));
    let j = a.reply.unwrap();
    let docs = j.get("documents").unwrap().as_array().unwrap();
    assert_eq!(docs.len(), 1);
    assert_eq!(docs[0].str_field("id"), Some("b"));

    let mut a = Asking::start(ask(false), Caller::Rest);
    a.answered(Outcome::Data(data()));
    a.scanned(fail());
    assert_eq!(a.reply.unwrap_err(), "boom");
    let mut a = Asking::start(ask(false), Caller::Tool);
    a.answered(Outcome::Data(data()));
    a.scanned(fail());
    let j = json(&said(&a.tool_reply()));
    assert!(j.get("documents").unwrap().as_array().unwrap().is_empty());
}

#[test]
fn merges_show_the_graph_first() {
    let data = json("{\"chunks\": [{\"doc_id\": \"b\"}]}");
    let mut m = Merging::start(ask(false), Caller::Tool);
    assert_eq!(m.next(), AskAction::Ask);
    m.answered(Outcome::Data(data), Ok(vec![row("a", None, 0, "x"), row("b", None, 0, "y")]));
    assert_eq!(m.next(), AskAction::Parents(vec!["b".to_string()]));
    m.mapped(Ok(vec![row("b", None, 0, "y")]));
    assert_eq!(m.stage, AskStage::Done);
    assert_eq!(ids(&m.docs), ["b", "a"]);
    let j = json(&said(&m.reply()));
    assert_eq!(j.get("degraded").unwrap().as_bool(), Some(false));
    assert!(j.get("graph").is_none());
}

#[test]
fn merges_do_without_what_fails() {
    let rows = || Ok(["a", "b", "c"].map(|id| row(id, None, 0, "x")).into());
    let mut m = Merging::start(ask(false), Caller::Tool);
    m.answered(Outcome::Failed, rows());
    assert_eq!(ids(&m.docs), ["a", "b", "c"]);
    assert_eq!(json(&said(&m.reply())).get("degraded").unwrap().as_bool(), Some(true));

    let mut m = Merging::start(ask(true), Caller::Rest);
    m.answered(Outcome::Failed, rows());
    assert_eq!(ids(&m.docs), ["a", "b"]);
    let mut m = Merging::start(ask(true), Caller::Tool);
    m.answered(Outcome::Answer("so".to_string()), rows());
    assert_eq!(ids(&m.docs), ["a", "b"]);
    let mut m = Merging::start(ask(false), Caller::Tool);
    m.answered(Outcome::Unreadable("no".to_string()), fail());
    assert!(m.docs.is_empty());

    let data = json(&format!("{{\"chunks\": [{{\"content\": \"{LONG}\"}}]}}"));
    let mut m = Merging::start(ask(false), Caller::Rest);
    m.answered(Outcome::Data(data), rows());
    assert_eq!(m.next(), AskAction::All);
    m.scanned(fail());
    assert_eq!(ids(&m.docs), ["a", "b", "c"]);
}
