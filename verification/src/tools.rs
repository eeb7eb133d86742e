//! The list of tools: what each is called, what it does and what it takes.

use crate::json;
use crate::json::{Json, JsonV, NumberV};
use crate::mcp;
use crate::schema::SchemaConfig;
use crate::text;
use vstd::prelude::*;

verus! {

broadcast use vstd::string::group_string_axioms;

// ---------------------------------------------------------------------------
// What the schema contributes
// ---------------------------------------------------------------------------

/// The scalar fields and their types.
pub open spec fn field_types(c: SchemaConfig) -> JsonV {
    JsonV::Obj(
        Seq::new(
            c.fields.keys@.len(),
            |i: int| (c.fields.keys@[i]@, JsonV::Str(c.fields.vals@[i].kind@)),
        ),
    )
}

/// The scalar fields and their types, as text for people.
pub fn filter_desc(c: &SchemaConfig) -> (r: String)
    requires
        c.wf(),
    ensures
        r@ == json::pretty_text(field_types(*c)),
{
    let ghost want = field_types(*c)->Obj_0;
    let mut e: Vec<(String, Json)> = Vec::new();
    let mut i: usize = 0;
    assert(json::entries(e@) =~= want.take(0));
    while i < c.fields.keys.len()
        invariant
            c.wf(),
            want == field_types(*c)->Obj_0,
            i <= c.fields.keys@.len(),
            json::entries(e@) == want.take(i as int),
        decreases c.fields.keys@.len() - i,
    {
        let ghost was = json::entries(e@);
        let k: String = c.fields.keys[i].clone();
        let v: Json = Json::Str(c.fields.vals[i].kind.clone());
        e.push((k, v));
        assert(json::entries(e@) =~= was.push((k@, v@)));
        i = i + 1;
        assert(want.take(i as int) =~= want.take(i - 1).push(want[i - 1]));
    }
    assert(want.take(i as int) =~= want);
    proof {
        json::lemma_obj_view(e);
    }
    Json::Obj(e).pretty()
}

/// The scalar fields, each with its type in brackets.
pub open spec fn field_names_with_types(c: SchemaConfig) -> Seq<Seq<char>> {
    Seq::new(
        c.fields.keys@.len(),
        |i: int| c.fields.keys@[i]@ + "("@ + c.fields.vals@[i].kind@ + ")"@,
    )
}

/// Which fields can be changed.
pub open spec fn updatable_text(c: SchemaConfig) -> Seq<char> {
    if c.fields.keys@.len() == 0 {
        "此库 [fields] 为空，无可更新字段"@
    } else {
        "可用字段及类型: "@ + text::joined(field_names_with_types(c), ", "@)
    }
}

/// Which fields can be changed.
pub fn updatable_desc(c: &SchemaConfig) -> (r: String)
    requires
        c.wf(),
    ensures
        r@ == updatable_text(*c),
{
    let ghost want = field_names_with_types(*c);
    let mut parts: Vec<String> = Vec::new();
    let mut i: usize = 0;
    assert(text::texts(parts@) =~= want.take(0));
    while i < c.fields.keys.len()
        invariant
            c.wf(),
            want == field_names_with_types(*c),
            i <= c.fields.keys@.len(),
            text::texts(parts@) == want.take(i as int),
        decreases c.fields.keys@.len() - i,
    {
        let mut part: String = text::cat3(
            c.fields.keys[i].as_str(),
            "(",
            c.fields.vals[i].kind.as_str(),
        );
        part.append(")");
        text::push_text(&mut parts, part);
        i = i + 1;
        assert(want.take(i as int) =~= want.take(i - 1).push(want[i - 1]));
    }
    assert(want.take(i as int) =~= want);
    if parts.len() == 0 {
        "此库 [fields] 为空，无可更新字段".to_string()
    } else {
        let all: String = text::join(&parts, ", ");
        text::cat2("可用字段及类型: ", all.as_str())
    }
}

// ---------------------------------------------------------------------------
// Parts of a tool
// ---------------------------------------------------------------------------

/// A parameter with a description.
pub open spec fn described(kind: Seq<char>, about: Seq<char>) -> JsonV {
    JsonV::Obj(seq![("type"@, JsonV::Str(kind)), ("description"@, JsonV::Str(about))])
}

/// An integer parameter with a default.
pub open spec fn defaulted(default: int) -> JsonV {
    JsonV::Obj(
        seq![
            ("type"@, JsonV::Str("integer"@)),
            ("default"@, JsonV::Num(NumberV::Int(default))),
        ],
    )
}

/// An integer parameter with a default and a description.
pub open spec fn defaulted_described(default: int, about: Seq<char>) -> JsonV {
    JsonV::Obj(
        seq![
            ("type"@, JsonV::Str("integer"@)),
            ("default"@, JsonV::Num(NumberV::Int(default))),
            ("description"@, JsonV::Str(about)),
        ],
    )
}

/// The texts as an array.
pub open spec fn text_array(s: Seq<Seq<char>>) -> JsonV {
    JsonV::Arr(Seq::new(s.len(), |i: int| JsonV::Str(s[i])))
}

/// What a tool takes.
pub open spec fn input_schema(props: Seq<(Seq<char>, JsonV)>, required: Seq<Seq<char>>) -> JsonV {
    if required.len() == 0 {
        JsonV::Obj(seq![("type"@, JsonV::Str("object"@)), ("properties"@, JsonV::Obj(props))])
    } else {
        JsonV::Obj(
            seq![
                ("type"@, JsonV::Str("object"@)),
                ("properties"@, JsonV::Obj(props)),
                ("required"@, text_array(required)),
            ],
        )
    }
}

/// A tool.
pub open spec fn tool_value(
    name: Seq<char>,
    about: Seq<char>,
    props: Seq<(Seq<char>, JsonV)>,
    required: Seq<Seq<char>>,
) -> JsonV {
    JsonV::Obj(
        seq![
            ("name"@, JsonV::Str(name)),
            ("description"@, JsonV::Str(about)),
            ("inputSchema"@, input_schema(props, required)),
        ],
    )
}

fn about_param(kind: &str, about: &str) -> (r: Json)
    ensures
        r@ == described(kind@, about@),
{
    mcp::object2("type", Json::string(kind), "description", Json::string(about))
}

fn default_param(default: i64) -> (r: Json)
    ensures
        r@ == defaulted(default as int),
{
    mcp::object2("type", Json::string("integer"), "default", Json::number(default))
}

fn default_about_param(default: i64, about: &str) -> (r: Json)
    ensures
        r@ == defaulted_described(default as int, about@),
{
    mcp::object3(
        "type",
        Json::string("integer"),
        "default",
        Json::number(default),
        "description",
        Json::string(about),
    )
}

fn text_items(list: &Vec<String>) -> (r: Json)
    ensures
        r@ == text_array(text::texts(list@)),
{
    let ghost all = text::texts(list@);
    let ghost want = Seq::new(all.len(), |i: int| JsonV::Str(all[i]));
    let mut v: Vec<Json> = Vec::new();
    let mut i: usize = 0;
    assert(json::items(v@) =~= want.take(0));
    while i < list.len()
        invariant
            all == text::texts(list@),
            want == Seq::new(all.len(), |i: int| JsonV::Str(all[i])),
            i <= list@.len(),
            json::items(v@) == want.take(i as int),
        decreases list@.len() - i,
    {
        let ghost was = json::items(v@);
        let j: Json = Json::Str(list[i].clone());
        v.push(j);
        assert(json::items(v@) =~= was.push(j@));
        i = i + 1;
        assert(want.take(i as int) =~= want.take(i - 1).push(want[i - 1]));
    }
    assert(want.take(i as int) =~= want);
    proof {
        json::lemma_arr_view(v);
    }
    Json::Arr(v)
}

fn add_param(props: &mut Vec<(String, Json)>, name: &str, p: Json)
    ensures
        json::entries(final(props)@) == json::entries(old(props)@).push((name@, p@)),
{
    let ghost was = json::entries(props@);
    let ghost v = p@;
    props.push((name.to_string(), p));
    assert(json::entries(props@) =~= was.push((name@, v)));
}

fn tool(name: &str, about: &str, props: Vec<(String, Json)>, required: &Vec<String>) -> (r: Json)
    ensures
        r@ == tool_value(name@, about@, json::entries(props@), text::texts(required@)),
{
    proof {
        json::lemma_obj_view(props);
    }
    assert(text::texts(required@).len() == required@.len());
    let schema: Json = if required.len() == 0 {
        mcp::object2("type", Json::string("object"), "properties", Json::Obj(props))
    } else {
        mcp::object3(
            "type",
            Json::string("object"),
            "properties",
            Json::Obj(props),
            "required",
            text_items(required),
        )
    };
    mcp::object3(
        "name",
        Json::string(name),
        "description",
        Json::string(about),
        "inputSchema",
        schema,
    )
}

fn only(name: &str) -> (r: Vec<String>)
    ensures
        text::texts(r@) == seq![name@],
{
    let mut r: Vec<String> = Vec::new();
    r.push(name.to_string());
    assert(text::texts(r@) =~= seq![name@]);
    r
}

// ---------------------------------------------------------------------------
// The tools
// ---------------------------------------------------------------------------

/// The expansions that a search can be asked for.
pub open spec fn expansion_param() -> JsonV {
    JsonV::Obj(
        seq![
            ("type"@, JsonV::Str("string"@)),
            ("enum"@, text_array(seq!["chunk"@, "parent"@, "auto"@])),
            ("default"@, JsonV::Str("chunk"@)),
            ("description"@, JsonV::Str(EXPANSION_ABOUT@)),
        ],
    )
}

/// What the expansions mean.
pub const EXPANSION_ABOUT: &'static str =
    "chunk=只返回命中 chunk；parent=命中所在的整篇父文档（按父 id 去重）；auto=同一父文档命中≥2个 chunk 时返回父文档，否则返回命中±1相邻 chunk 的合并窗口";

fn expansion() -> (r: Json)
    ensures
        r@ == expansion_param(),
{
    let mut names: Vec<String> = Vec::new();
    names.push("chunk".to_string());
    names.push("parent".to_string());
    names.push("auto".to_string());
    assert(text::texts(names@) =~= seq!["chunk"@, "parent"@, "auto"@]);
    mcp::object4(
        "type",
        Json::string("string"),
        "enum",
        text_items(&names),
        "default",
        Json::string("chunk"),
        "description",
        Json::string(EXPANSION_ABOUT),
    )
}


/// What the tool `query_semantic` does.
pub const QUERY_SEMANTIC_ABOUT: &'static str =
    "语义检索：向量 ANN 在叶子 chunk（约512字符）上执行，再按 expand_to 展开（small-to-big）。默认返回命中的 chunk 本身，precision 优先；需要整篇文档时用 parent_doc_id + get_document。";


/// The tool `query_semantic`.
pub open spec fn query_semantic_tool(fields: Seq<char>) -> JsonV {
    tool_value(
        "query_semantic"@,
        QUERY_SEMANTIC_ABOUT@,
        seq![
            ("text"@, described("string"@, "查询文本（自然语言）"@)),
            ("limit"@, defaulted_described(10, "返回条数上限，最大 200"@)),
            ("expand_to"@, expansion_param()),
            ("filter"@, described("object"@, "Mongo 风格过滤，作用于向量检索之前（ANN pre-filter）。本库 schema 字段: "@ + fields + "。支持算子: $eq,$ne,$in,$nin,$gt,$gte,$lt,$lte,$exists,$and,$or。"@)),
        ],
        seq!["text"@],
    )
}

fn query_semantic(fields: &str) -> (r: Json)
    ensures
        r@ == query_semantic_tool(fields@),
{
    let mut props: Vec<(String, Json)> = Vec::new();
    add_param(&mut props, "text", about_param("string", "查询文本（自然语言）"));
    add_param(&mut props, "limit", default_about_param(10, "返回条数上限，最大 200"));
    add_param(&mut props, "expand_to", expansion());
    let about: String = text::cat3("Mongo 风格过滤，作用于向量检索之前（ANN pre-filter）。本库 schema 字段: ", fields, "。支持算子: $eq,$ne,$in,$nin,$gt,$gte,$lt,$lte,$exists,$and,$or。");
    add_param(&mut props, "filter", about_param("object", about.as_str()));
    assert(json::entries(props@) =~= seq![
            ("text"@, described("string"@, "查询文本（自然语言）"@)),
            ("limit"@, defaulted_described(10, "返回条数上限，最大 200"@)),
            ("expand_to"@, expansion_param()),
            ("filter"@, described("object"@, "Mongo 风格过滤，作用于向量检索之前（ANN pre-filter）。本库 schema 字段: "@ + fields@ + "。支持算子: $eq,$ne,$in,$nin,$gt,$gte,$lt,$lte,$exists,$and,$or。"@)),
        ]);
    let required: Vec<String> = only("text");
    tool("query_semantic", QUERY_SEMANTIC_ABOUT, props, &required)
}

/// What the tool `query_text` does.
pub const QUERY_TEXT_ABOUT: &'static str =
    "全文检索（BM25 FTS）：对 raw_text 做关键词匹配，适合精确术语、函数名、错误码等词法召回，与语义检索互补。";


/// The tool `query_text`.
pub open spec fn query_text_tool() -> JsonV {
    tool_value(
        "query_text"@,
        QUERY_TEXT_ABOUT@,
        seq![
            ("text"@, described("string"@, "查询关键词/短语"@)),
            ("limit"@, defaulted(10)),
            ("filter"@, described("object"@, "Mongo 风格过滤（同 query_semantic）"@)),
        ],
        seq!["text"@],
    )
}

fn query_text() -> (r: Json)
    ensures
        r@ == query_text_tool(),
{
    let mut props: Vec<(String, Json)> = Vec::new();
    add_param(&mut props, "text", about_param("string", "查询关键词/短语"));
    add_param(&mut props, "limit", default_param(10));
    add_param(&mut props, "filter", about_param("object", "Mongo 风格过滤（同 query_semantic）"));
    assert(json::entries(props@) =~= seq![
            ("text"@, described("string"@, "查询关键词/短语"@)),
            ("limit"@, defaulted(10)),
            ("filter"@, described("object"@, "Mongo 风格过滤（同 query_semantic）"@)),
        ]);
    let required: Vec<String> = only("text");
    tool("query_text", QUERY_TEXT_ABOUT, props, &required)
}

/// What the tool `query_reranked` does.
pub const QUERY_RERANKED_ABOUT: &'static str =
    "语义检索 + cross-encoder 精排：先 ANN 过召回 80 条叶子 chunk，再用 reranker（bge-reranker-v2-m3 等）对 query-doc 对逐一打分重排。精度最高但最慢；未启用 --rerank 或 reranker 故障时自动降级为普通语义序。";


/// The tool `query_reranked`.
pub open spec fn query_reranked_tool() -> JsonV {
    tool_value(
        "query_reranked"@,
        QUERY_RERANKED_ABOUT@,
        seq![
            ("text"@, described("string"@, "查询文本"@)),
            ("limit"@, defaulted(10)),
            ("filter"@, described("object"@, "Mongo 风格过滤（同 query_semantic）"@)),
        ],
        seq!["text"@],
    )
}

fn query_reranked() -> (r: Json)
    ensures
        r@ == query_reranked_tool(),
{
    let mut props: Vec<(String, Json)> = Vec::new();
    add_param(&mut props, "text", about_param("string", "查询文本"));
    add_param(&mut props, "limit", default_param(10));
    add_param(&mut props, "filter", about_param("object", "Mongo 风格过滤（同 query_semantic）"));
    assert(json::entries(props@) =~= seq![
            ("text"@, described("string"@, "查询文本"@)),
            ("limit"@, defaulted(10)),
            ("filter"@, described("object"@, "Mongo 风格过滤（同 query_semantic）"@)),
        ]);
    let required: Vec<String> = only("text");
    tool("query_reranked", QUERY_RERANKED_ABOUT, props, &required)
}

/// What the tool `query_graph` does.
pub const QUERY_GRAPH_ABOUT: &'static str =
    "图谱检索（lightrag 后端）。默认 answer=false：返回结构化图谱数据（实体/关系/来源 chunk）+ 由图谱 chunk 映射回本库的本地文档（快，无 LLM）。answer=true：返回 LLM 综合答案（慢，30-60s+，走 LLM）。图谱后端不可用时自动降级为语义检索（响应含 degraded:true）。";


/// The tool `query_graph`.
pub open spec fn query_graph_tool() -> JsonV {
    tool_value(
        "query_graph"@,
        QUERY_GRAPH_ABOUT@,
        seq![
            ("text"@, described("string"@, "查询文本"@)),
            ("limit"@, defaulted(10)),
            ("answer"@, described("boolean"@, "false（默认）：结构化图谱数据 + 映射文档（快）；true：LLM 综合答案（慢）"@)),
            ("chunk_top_k"@, described("integer"@, "图谱层：lightrag 召回的 chunk 数（默认 20），调小更快"@)),
            ("max_entity_tokens"@, described("integer"@, "图谱层：实体上下文 token 预算（默认 6000）"@)),
            ("max_relation_tokens"@, described("integer"@, "图谱层：关系上下文 token 预算（默认 8000）"@)),
            ("max_total_tokens"@, described("integer"@, "图谱层：总上下文 token 预算（默认 30000）"@)),
            ("filter"@, described("object"@, "Mongo 风格过滤；data 模式作用于映射出的本地文档，降级模式作用于语义检索"@)),
        ],
        seq!["text"@],
    )
}

fn query_graph() -> (r: Json)
    ensures
        r@ == query_graph_tool(),
{
    let mut props: Vec<(String, Json)> = Vec::new();
    add_param(&mut props, "text", about_param("string", "查询文本"));
    add_param(&mut props, "limit", default_param(10));
    add_param(&mut props, "answer", about_param("boolean", "false（默认）：结构化图谱数据 + 映射文档（快）；true：LLM 综合答案（慢）"));
    add_param(&mut props, "chunk_top_k", about_param("integer", "图谱层：lightrag 召回的 chunk 数（默认 20），调小更快"));
    add_param(&mut props, "max_entity_tokens", about_param("integer", "图谱层：实体上下文 token 预算（默认 6000）"));
    add_param(&mut props, "max_relation_tokens", about_param("integer", "图谱层：关系上下文 token 预算（默认 8000）"));
    add_param(&mut props, "max_total_tokens", about_param("integer", "图谱层：总上下文 token 预算（默认 30000）"));
    add_param(&mut props, "filter", about_param("object", "Mongo 风格过滤；data 模式作用于映射出的本地文档，降级模式作用于语义检索"));
    assert(json::entries(props@) =~= seq![
            ("text"@, described("string"@, "查询文本"@)),
            ("limit"@, defaulted(10)),
            ("answer"@, described("boolean"@, "false（默认）：结构化图谱数据 + 映射文档（快）；true：LLM 综合答案（慢）"@)),
            ("chunk_top_k"@, described("integer"@, "图谱层：lightrag 召回的 chunk 数（默认 20），调小更快"@)),
            ("max_entity_tokens"@, described("integer"@, "图谱层：实体上下文 token 预算（默认 6000）"@)),
            ("max_relation_tokens"@, described("integer"@, "图谱层：关系上下文 token 预算（默认 8000）"@)),
            ("max_total_tokens"@, described("integer"@, "图谱层：总上下文 token 预算（默认 30000）"@)),
            ("filter"@, described("object"@, "Mongo 风格过滤；data 模式作用于映射出的本地文档，降级模式作用于语义检索"@)),
        ]);
    let required: Vec<String> = only("text");
    tool("query_graph", QUERY_GRAPH_ABOUT, props, &required)
}

/// What the tool `query_hybrid` does.
pub const QUERY_HYBRID_ABOUT: &'static str =
    "混合检索：语义（reranked）与图谱并行查询，按文档 id 合并去重——图谱结果在前（宏观关联），语义结果在后（佐证细节）。answer=true 时图谱侧返回 LLM 答案。适合需要'既有图谱多跳关系、又有原文依据'的问题。";


/// The tool `query_hybrid`.
pub open spec fn query_hybrid_tool() -> JsonV {
    tool_value(
        "query_hybrid"@,
        QUERY_HYBRID_ABOUT@,
        seq![
            ("text"@, described("string"@, "查询文本"@)),
            ("limit"@, defaulted(10)),
            ("answer"@, described("boolean"@, "图谱侧：false（默认）=结构化图谱数据；true=LLM 综合答案"@)),
            ("chunk_top_k"@, described("integer"@, "图谱层：lightrag 召回 chunk 数（默认 20）"@)),
            ("max_entity_tokens"@, described("integer"@, "图谱层：实体 token 预算（默认 6000）"@)),
            ("max_relation_tokens"@, described("integer"@, "图谱层：关系 token 预算（默认 8000）"@)),
            ("max_total_tokens"@, described("integer"@, "图谱层：总 token 预算（默认 30000）"@)),
            ("filter"@, described("object"@, "Mongo 风格过滤（作用于语义侧）"@)),
        ],
        seq!["text"@],
    )
}

fn query_hybrid() -> (r: Json)
    ensures
        r@ == query_hybrid_tool(),
{
    let mut props: Vec<(String, Json)> = Vec::new();
    add_param(&mut props, "text", about_param("string", "查询文本"));
    add_param(&mut props, "limit", default_param(10));
    add_param(&mut props, "answer", about_param("boolean", "图谱侧：false（默认）=结构化图谱数据；true=LLM 综合答案"));
    add_param(&mut props, "chunk_top_k", about_param("integer", "图谱层：lightrag 召回 chunk 数（默认 20）"));
    add_param(&mut props, "max_entity_tokens", about_param("integer", "图谱层：实体 token 预算（默认 6000）"));
    add_param(&mut props, "max_relation_tokens", about_param("integer", "图谱层：关系 token 预算（默认 8000）"));
    add_param(&mut props, "max_total_tokens", about_param("integer", "图谱层：总 token 预算（默认 30000）"));
    add_param(&mut props, "filter", about_param("object", "Mongo 风格过滤（作用于语义侧）"));
    assert(json::entries(props@) =~= seq![
            ("text"@, described("string"@, "查询文本"@)),
            ("limit"@, defaulted(10)),
            ("answer"@, described("boolean"@, "图谱侧：false（默认）=结构化图谱数据；true=LLM 综合答案"@)),
            ("chunk_top_k"@, described("integer"@, "图谱层：lightrag 召回 chunk 数（默认 20）"@)),
            ("max_entity_tokens"@, described("integer"@, "图谱层：实体 token 预算（默认 6000）"@)),
            ("max_relation_tokens"@, described("integer"@, "图谱层：关系 token 预算（默认 8000）"@)),
            ("max_total_tokens"@, described("integer"@, "图谱层：总 token 预算（默认 30000）"@)),
            ("filter"@, described("object"@, "Mongo 风格过滤（作用于语义侧）"@)),
        ]);
    let required: Vec<String> = only("text");
    tool("query_hybrid", QUERY_HYBRID_ABOUT, props, &required)
}

/// What the tool `get_document` does.
pub const GET_DOCUMENT_ABOUT: &'static str =
    "按 id 精查一条记录（叶子 chunk 或父文档），返回完整 raw_text（查询结果的 raw_text 截断在 2000 字符，此工具不截断）。传叶子 chunk 的 parent_doc_id 可获取其整篇父文档。";


/// The tool `get_document`.
pub open spec fn get_document_tool() -> JsonV {
    tool_value(
        "get_document"@,
        GET_DOCUMENT_ABOUT@,
        seq![
            ("id"@, described("string"@, "文档 id（来自查询结果或 add_document 返回值）"@)),
        ],
        seq!["id"@],
    )
}

fn get_document() -> (r: Json)
    ensures
        r@ == get_document_tool(),
{
    let mut props: Vec<(String, Json)> = Vec::new();
    add_param(&mut props, "id", about_param("string", "文档 id（来自查询结果或 add_document 返回值）"));
    assert(json::entries(props@) =~= seq![
            ("id"@, described("string"@, "文档 id（来自查询结果或 add_document 返回值）"@)),
        ]);
    let required: Vec<String> = only("id");
    tool("get_document", GET_DOCUMENT_ABOUT, props, &required)
}

/// What the tool `add_document` does.
pub const ADD_DOCUMENT_ABOUT: &'static str =
    "写入一篇文档：自动切块（parent + 叶子 chunk）、自动向量化（schema 声明的 auto_embed 向量列）并入库；若库配置了图谱插件则同步镜像到 lightrag（实体抽取异步进行，失败只告警不影响入库）。返回文档 id（blake3(全文)）。重复添加相同文本为幂等 upsert：同 id 覆盖旧 parent+chunks 并自动重嵌入——也是修改正文后刷新向量的正确方式。";


/// The tool `add_document`.
pub open spec fn add_document_tool(fields: Seq<char>) -> JsonV {
    tool_value(
        "add_document"@,
        ADD_DOCUMENT_ABOUT@,
        seq![
            ("text"@, described("string"@, "文档正文（markdown 或纯文本）"@)),
            ("source_path"@, described("string"@, "来源路径标签（如文件路径），建议必填以便追溯"@)),
            ("source_type"@, described("string"@, "来源形态（file/text/directory/glob 等，默认 text）"@)),
            ("language"@, described("string"@, "语言提示（markdown 时按标题切分）"@)),
            ("metadata"@, described("object"@, "schema 字段值（键值对）。本库字段: "@ + fields + "。类型须匹配（int64 传整数、bool 传布尔、list<string> 传数组）。"@)),
        ],
        seq!["text"@],
    )
}

fn add_document(fields: &str) -> (r: Json)
    ensures
        r@ == add_document_tool(fields@),
{
    let mut props: Vec<(String, Json)> = Vec::new();
    add_param(&mut props, "text", about_param("string", "文档正文（markdown 或纯文本）"));
    add_param(&mut props, "source_path", about_param("string", "来源路径标签（如文件路径），建议必填以便追溯"));
    add_param(&mut props, "source_type", about_param("string", "来源形态（file/text/directory/glob 等，默认 text）"));
    add_param(&mut props, "language", about_param("string", "语言提示（markdown 时按标题切分）"));
    let about: String = text::cat3("schema 字段值（键值对）。本库字段: ", fields, "。类型须匹配（int64 传整数、bool 传布尔、list<string> 传数组）。");
    add_param(&mut props, "metadata", about_param("object", about.as_str()));
    assert(json::entries(props@) =~= seq![
            ("text"@, described("string"@, "文档正文（markdown 或纯文本）"@)),
            ("source_path"@, described("string"@, "来源路径标签（如文件路径），建议必填以便追溯"@)),
            ("source_type"@, described("string"@, "来源形态（file/text/directory/glob 等，默认 text）"@)),
            ("language"@, described("string"@, "语言提示（markdown 时按标题切分）"@)),
            ("metadata"@, described("object"@, "schema 字段值（键值对）。本库字段: "@ + fields@ + "。类型须匹配（int64 传整数、bool 传布尔、list<string> 传数组）。"@)),
        ]);
    let required: Vec<String> = only("text");
    tool("add_document", ADD_DOCUMENT_ABOUT, props, &required)
}

/// What the tool `delete_document` does.
pub const DELETE_DOCUMENT_ABOUT: &'static str =
    "按 id 删除文档，级联清理：LanceDB 中该父文档 + 全部叶子 chunk；若配置了图谱插件则同步删除 lightrag 中的对应文档（内部 id=md5(file_source) 自动推导，同时兼容原始 id；lightrag pipeline busy 时会报错，可稍后重试）。传叶子 chunk 的 parent_doc_id 即可删整篇。";


/// The tool `delete_document`.
pub open spec fn delete_document_tool() -> JsonV {
    tool_value(
        "delete_document"@,
        DELETE_DOCUMENT_ABOUT@,
        seq![
            ("id"@, described("string"@, "文档 id（优先传父文档 id / parent_doc_id）"@)),
        ],
        seq!["id"@],
    )
}

fn delete_document() -> (r: Json)
    ensures
        r@ == delete_document_tool(),
{
    let mut props: Vec<(String, Json)> = Vec::new();
    add_param(&mut props, "id", about_param("string", "文档 id（优先传父文档 id / parent_doc_id）"));
    assert(json::entries(props@) =~= seq![
            ("id"@, described("string"@, "文档 id（优先传父文档 id / parent_doc_id）"@)),
        ]);
    let required: Vec<String> = only("id");
    tool("delete_document", DELETE_DOCUMENT_ABOUT, props, &required)
}

/// What the tool `update_document_metadata` does, before the list of fields.
pub const UPDATE_DOCUMENT_METADATA_ABOUT: &'static str =
    "按 id 修补文档的元数据字段（原位 update，不修改 raw_text/向量列/chunk 结构，零重嵌入成本）。只接受本库 [fields] 声明的标量字段并校验类型，未提供的字段保持不变；值为 null 或空数组表示清空该字段。cascade=true（默认）时对该父文档及其全部叶子 chunk 同时生效。本库可用字段: ";

/// What the tool `update_document_metadata` does, after the list of fields.
pub const UPDATE_DOCUMENT_METADATA_ABOUT_END: &'static str =
    "。注意：需要修改正文时不要用本工具——正文变更请用相同文本调用 add_document（同 id 幂等 upsert，自动重嵌入）。";


/// The tool `update_document_metadata`.
pub open spec fn update_document_metadata_tool(fields: Seq<char>) -> JsonV {
    tool_value(
        "update_document_metadata"@,
        UPDATE_DOCUMENT_METADATA_ABOUT@ + fields + UPDATE_DOCUMENT_METADATA_ABOUT_END@,
        seq![
            ("id"@, described("string"@, "文档 id（父文档或叶子 chunk 均可）"@)),
            ("metadata"@, described("object"@, "要更新的字段→新值键值对（须为 schema 声明的字段；值为 null 表示清空该字段）"@)),
            ("cascade"@, described("boolean"@, "true（默认）：同时更新 parent_doc_id = id 的所有叶子 chunk；false：只更新该行"@)),
        ],
        seq!["id"@, "metadata"@],
    )
}

fn update_document_metadata(fields: &str) -> (r: Json)
    ensures
        r@ == update_document_metadata_tool(fields@),
{
    let mut props: Vec<(String, Json)> = Vec::new();
    add_param(&mut props, "id", about_param("string", "文档 id（父文档或叶子 chunk 均可）"));
    add_param(&mut props, "metadata", about_param("object", "要更新的字段→新值键值对（须为 schema 声明的字段；值为 null 表示清空该字段）"));
    add_param(&mut props, "cascade", about_param("boolean", "true（默认）：同时更新 parent_doc_id = id 的所有叶子 chunk；false：只更新该行"));
    assert(json::entries(props@) =~= seq![
            ("id"@, described("string"@, "文档 id（父文档或叶子 chunk 均可）"@)),
            ("metadata"@, described("object"@, "要更新的字段→新值键值对（须为 schema 声明的字段；值为 null 表示清空该字段）"@)),
            ("cascade"@, described("boolean"@, "true（默认）：同时更新 parent_doc_id = id 的所有叶子 chunk；false：只更新该行"@)),
        ]);
    let mut required: Vec<String> = only("id");
    text::push_text(&mut required, "metadata".to_string());
    assert(text::texts(required@) =~= seq!["id"@, "metadata"@]);
    let about: String = text::cat3(UPDATE_DOCUMENT_METADATA_ABOUT, fields, UPDATE_DOCUMENT_METADATA_ABOUT_END);
    tool("update_document_metadata", about.as_str(), props, &required)
}

/// What the tool `list_documents` does.
pub const LIST_DOCUMENTS_ABOUT: &'static str =
    "分页浏览库中的父文档（chunk_level=0），每条含 raw_text 前 200 字符预览。用于了解库内容、发现待删除/修补的文档 id。";


/// The tool `list_documents`.
pub open spec fn list_documents_tool() -> JsonV {
    tool_value(
        "list_documents"@,
        LIST_DOCUMENTS_ABOUT@,
        seq![
            ("limit"@, defaulted_described(20, "每页条数，最大 200"@)),
            ("offset"@, defaulted_described(0, "偏移量（配合 limit 翻页）"@)),
        ],
        Seq::empty(),
    )
}

fn list_documents() -> (r: Json)
    ensures
        r@ == list_documents_tool(),
{
    let mut props: Vec<(String, Json)> = Vec::new();
    add_param(&mut props, "limit", default_about_param(20, "每页条数，最大 200"));
    add_param(&mut props, "offset", default_about_param(0, "偏移量（配合 limit 翻页）"));
    assert(json::entries(props@) =~= seq![
            ("limit"@, defaulted_described(20, "每页条数，最大 200"@)),
            ("offset"@, defaulted_described(0, "偏移量（配合 limit 翻页）"@)),
        ]);
    let required: Vec<String> = Vec::new();
    assert(text::texts(required@) =~= Seq::empty());
    tool("list_documents", LIST_DOCUMENTS_ABOUT, props, &required)
}

/// What the tool `stats` does.
pub const STATS_ABOUT: &'static str =
    "知识库统计：总行数（父文档+叶子 chunk）。";


/// The tool `stats`.
pub open spec fn stats_tool() -> JsonV {
    tool_value(
        "stats"@,
        STATS_ABOUT@,
        Seq::empty(),
        Seq::empty(),
    )
}

fn stats() -> (r: Json)
    ensures
        r@ == stats_tool(),
{
    let mut props: Vec<(String, Json)> = Vec::new();

    assert(json::entries(props@) =~= Seq::empty());
    let required: Vec<String> = Vec::new();
    assert(text::texts(required@) =~= Seq::empty());
    tool("stats", STATS_ABOUT, props, &required)
}

/// The tools of a database with the given schema, in order.
pub open spec fn all_tools(c: SchemaConfig) -> Seq<JsonV> {
    let fields = json::pretty_text(field_types(c));
    seq![
        query_semantic_tool(fields),
        query_text_tool(),
        query_reranked_tool(),
        query_graph_tool(),
        query_hybrid_tool(),
        get_document_tool(),
        add_document_tool(fields),
        delete_document_tool(),
        update_document_metadata_tool(updatable_text(c)),
        list_documents_tool(),
        stats_tool(),
    ]
}

/// The tools that are listed are those that can be called, whatever the schema.
pub proof fn law_listed_tools_can_be_called(c: SchemaConfig, i: int)
    requires
        0 <= i < all_tools(c).len(),
    ensures
        all_tools(c).len() == mcp::tool_names().len(),
        json::text_field(all_tools(c)[i], "name"@) == Some(mcp::tool_names()[i]),
{
    reveal_with_fuel(json::lookup, 2);
}

/// The list of tools; filterable and updatable fields are those of the schema.
pub fn tools_list(c: &SchemaConfig) -> (r: Json)
    requires
        c.wf(),
    ensures
        r@ == JsonV::Obj(seq![("tools"@, JsonV::Arr(all_tools(*c)))]),
{
    let fields: String = filter_desc(c);
    let updatable: String = updatable_desc(c);
    let mut list: Vec<Json> = Vec::new();
    list.push(query_semantic(fields.as_str()));
    list.push(query_text());
    list.push(query_reranked());
    list.push(query_graph());
    list.push(query_hybrid());
    list.push(get_document());
    list.push(add_document(fields.as_str()));
    list.push(delete_document());
    list.push(update_document_metadata(updatable.as_str()));
    list.push(list_documents());
    list.push(stats());
    proof {
        json::lemma_arr_view(list);
        assert(json::items(list@) =~= all_tools(*c));
    }
    mcp::object1("tools", Json::Arr(list))
}

} // verus!
