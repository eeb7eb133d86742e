//! Filter expressions and their compilation to SQL, result shaping, and the
//! decisions of the query engine.

use crate::chunker;
use crate::json;
use crate::json::{Json, JsonV, NumberV};
use crate::schema::SchemaConfig;
use crate::store;
use crate::store::{Record, RecordV};
use crate::text;
use vstd::prelude::*;

verus! {

broadcast use vstd::string::group_string_axioms;

// ---------------------------------------------------------------------------
// Filter expressions
// ---------------------------------------------------------------------------

/// A parsed filter expression. Values are JSON; their types are checked
/// against the schema when the expression is compiled, so a string compared
/// against an integer field is an error, not a silent mismatch.
#[derive(Debug, PartialEq, Eq)]
pub enum Pred {
    Eq(String, Json),
    Ne(String, Json),
    In(String, Vec<Json>),
    Nin(String, Vec<Json>),
    Gt(String, Json),
    Gte(String, Json),
    Lt(String, Json),
    Lte(String, Json),
    Exists(String, bool),
    /// SQL used as it stands. For trusted input only.
    Raw(String),
    And(Vec<Pred>),
    Or(Vec<Pred>),
}

/// The model of a filter expression.
pub enum PredV {
    Eq(Seq<char>, JsonV),
    Ne(Seq<char>, JsonV),
    In(Seq<char>, Seq<JsonV>),
    Nin(Seq<char>, Seq<JsonV>),
    Gt(Seq<char>, JsonV),
    Gte(Seq<char>, JsonV),
    Lt(Seq<char>, JsonV),
    Lte(Seq<char>, JsonV),
    Exists(Seq<char>, bool),
    Raw(Seq<char>),
    And(Seq<PredV>),
    Or(Seq<PredV>),
}

impl View for Pred {
    type V = PredV;

    open spec fn view(&self) -> PredV {
        pred_model(*self)
    }
}

/// The model of a filter expression.
pub open spec fn pred_model(p: Pred) -> PredV
    decreases p,
{
    match p {
        Pred::Eq(n, v) => PredV::Eq(n@, v@),
        Pred::Ne(n, v) => PredV::Ne(n@, v@),
        Pred::In(n, vs) => PredV::In(n@, json::items(vs@)),
        Pred::Nin(n, vs) => PredV::Nin(n@, json::items(vs@)),
        Pred::Gt(n, v) => PredV::Gt(n@, v@),
        Pred::Gte(n, v) => PredV::Gte(n@, v@),
        Pred::Lt(n, v) => PredV::Lt(n@, v@),
        Pred::Lte(n, v) => PredV::Lte(n@, v@),
        Pred::Exists(n, b) => PredV::Exists(n@, b),
        Pred::Raw(s) => PredV::Raw(s@),
        Pred::And(ps) => PredV::And(
            Seq::new(
                ps@.len(),
                |i: int|
                    if 0 <= i < ps@.len() {
                        pred_model(ps@[i])
                    } else {
                        PredV::Raw(Seq::empty())
                    },
            ),
        ),
        Pred::Or(ps) => PredV::Or(
            Seq::new(
                ps@.len(),
                |i: int|
                    if 0 <= i < ps@.len() {
                        pred_model(ps@[i])
                    } else {
                        PredV::Raw(Seq::empty())
                    },
            ),
        ),
    }
}

/// The models of a list of filter expressions.
pub open spec fn preds(v: Seq<Pred>) -> Seq<PredV> {
    Seq::new(v.len(), |i: int| v[i]@)
}

/// The model of a conjunction is the list of the models of its parts.
pub broadcast proof fn lemma_and_view(v: Vec<Pred>)
    ensures
        #[trigger] Pred::And(v).view() == PredV::And(preds(v@)),
{
    let s = pred_model(Pred::And(v))->And_0;
    assert(s =~= preds(v@));
}

/// The model of a disjunction is the list of the models of its parts.
pub broadcast proof fn lemma_or_view(v: Vec<Pred>)
    ensures
        #[trigger] Pred::Or(v).view() == PredV::Or(preds(v@)),
{
    let s = pred_model(Pred::Or(v))->Or_0;
    assert(s =~= preds(v@));
}

// ---------------------------------------------------------------------------
// Parsing
// ---------------------------------------------------------------------------

/// The expression that a JSON filter says, or why it says none. The entries
/// of an object are taken together with AND.
pub open spec fn pred_of(j: JsonV) -> Result<PredV, Seq<char>>
    decreases j, 0nat,
{
    match j {
        JsonV::Obj(e) => match entries_preds(e, e.len()) {
            Ok(ps) => Ok(
                if ps.len() == 1 {
                    ps[0]
                } else {
                    PredV::And(ps)
                },
            ),
            Err(m) => Err(m),
        },
        _ => Err("filter must be a JSON object"@),
    }
}

/// The expressions of the first `n` items of a `$and` or `$or` list.
pub open spec fn list_preds(a: Seq<JsonV>, n: nat) -> Result<Seq<PredV>, Seq<char>>
    decreases a, n,
{
    if n == 0 || n > a.len() {
        Ok(Seq::empty())
    } else {
        match list_preds(a, (n - 1) as nat) {
            Err(m) => Err(m),
            Ok(ps) => match pred_of(a[n - 1]) {
                Err(m) => Err(m),
                Ok(p) => Ok(ps.push(p)),
            },
        }
    }
}

/// Whether every key of an object is an operator.
pub open spec fn all_operators(e: Seq<(Seq<char>, JsonV)>) -> bool {
    forall|i: int| 0 <= i < e.len() ==> "$"@.is_prefix_of((#[trigger] e[i]).0)
}

/// The expression of one operator applied to the field `k`.
pub open spec fn operator_pred(k: Seq<char>, op: Seq<char>, v: JsonV) -> Result<
    PredV,
    Seq<char>,
> {
    if op == "$eq"@ {
        Ok(PredV::Eq(k, v))
    } else if op == "$ne"@ {
        Ok(PredV::Ne(k, v))
    } else if op == "$in"@ {
        match v {
            JsonV::Arr(vs) => Ok(PredV::In(k, vs)),
            _ => Err("$in needs array"@),
        }
    } else if op == "$nin"@ {
        match v {
            JsonV::Arr(vs) => Ok(PredV::Nin(k, vs)),
            _ => Err("$nin needs array"@),
        }
    } else if op == "$gt"@ {
        Ok(PredV::Gt(k, v))
    } else if op == "$gte"@ {
        Ok(PredV::Gte(k, v))
    } else if op == "$lt"@ {
        Ok(PredV::Lt(k, v))
    } else if op == "$lte"@ {
        Ok(PredV::Lte(k, v))
    } else if op == "$exists"@ {
        Ok(
            PredV::Exists(
                k,
                match v {
                    JsonV::Bool(b) => b,
                    _ => true,
                },
            ),
        )
    } else {
        Err("unknown operator "@ + op + " for field "@ + k)
    }
}

/// The expressions of the first `n` operators applied to the field `k`.
pub open spec fn operator_preds(k: Seq<char>, ops: Seq<(Seq<char>, JsonV)>, n: nat) -> Result<
    Seq<PredV>,
    Seq<char>,
>
    decreases n,
{
    if n == 0 || n > ops.len() {
        Ok(Seq::empty())
    } else {
        match operator_preds(k, ops, (n - 1) as nat) {
            Err(m) => Err(m),
            Ok(ps) => match operator_pred(k, ops[n - 1].0, ops[n - 1].1) {
                Err(m) => Err(m),
                Ok(p) => Ok(ps.push(p)),
            },
        }
    }
}

/// The expressions of the first `n` entries of a filter object.
pub open spec fn entries_preds(e: Seq<(Seq<char>, JsonV)>, n: nat) -> Result<
    Seq<PredV>,
    Seq<char>,
>
    decreases e, n,
{
    if n == 0 || n > e.len() {
        Ok(Seq::empty())
    } else {
        let k = e[n - 1].0;
        match entries_preds(e, (n - 1) as nat) {
            Err(m) => Err(m),
            Ok(ps) => if k == "$and"@ {
                match e[n - 1].1 {
                    JsonV::Arr(a) => match list_preds(a, a.len()) {
                        Ok(qs) => Ok(ps.push(PredV::And(qs))),
                        Err(m) => Err(m),
                    },
                    _ => Err("$and must be an array"@),
                }
            } else if k == "$or"@ {
                match e[n - 1].1 {
                    JsonV::Arr(a) => match list_preds(a, a.len()) {
                        Ok(qs) => Ok(ps.push(PredV::Or(qs))),
                        Err(m) => Err(m),
                    },
                    _ => Err("$or must be an array"@),
                }
            } else {
                match e[n - 1].1 {
                    JsonV::Obj(ops) => if all_operators(ops) {
                        match operator_preds(k, ops, ops.len()) {
                            Ok(qs) => Ok(ps + qs),
                            Err(m) => Err(m),
                        }
                    } else {
                        Ok(ps.push(PredV::Eq(k, JsonV::Obj(ops))))
                    },
                    v => Ok(ps.push(PredV::Eq(k, v))),
                }
            },
        }
    }
}

/// The expression of one operator applied to the field `k`.
fn operator(k: &str, op: &str, v: &Json) -> (r: Result<Pred, String>)
    ensures
        (match r {
            Ok(p) => operator_pred(k@, op@, v@) == Ok::<PredV, Seq<char>>(p@),
            Err(m) => operator_pred(k@, op@, v@) == Err::<PredV, Seq<char>>(m@),
        }),
{
    if text::same(op, "$eq") {
        Ok(Pred::Eq(k.to_string(), v.copy()))
    } else if text::same(op, "$ne") {
        Ok(Pred::Ne(k.to_string(), v.copy()))
    } else if text::same(op, "$in") {
        match v.as_array() {
            Some(vs) => Ok(Pred::In(k.to_string(), json::copy_items(vs))),
            None => Err("$in needs array".to_string()),
        }
    } else if text::same(op, "$nin") {
        match v.as_array() {
            Some(vs) => Ok(Pred::Nin(k.to_string(), json::copy_items(vs))),
            None => Err("$nin needs array".to_string()),
        }
    } else if text::same(op, "$gt") {
        Ok(Pred::Gt(k.to_string(), v.copy()))
    } else if text::same(op, "$gte") {
        Ok(Pred::Gte(k.to_string(), v.copy()))
    } else if text::same(op, "$lt") {
        Ok(Pred::Lt(k.to_string(), v.copy()))
    } else if text::same(op, "$lte") {
        Ok(Pred::Lte(k.to_string(), v.copy()))
    } else if text::same(op, "$exists") {
        Ok(
            Pred::Exists(
                k.to_string(),
                match v.as_bool() {
                    Some(b) => b,
                    None => true,
                },
            ),
        )
    } else {
        let mut m: String = text::cat3("unknown operator ", op, " for field ");
        m.append(k);
        Err(m)
    }
}

/// Whether every key of an object is an operator.
fn only_operators(ops: &Vec<(String, Json)>) -> (r: bool)
    ensures
        r == all_operators(json::entries(ops@)),
{
    let ghost e = json::entries(ops@);
    let mut i: usize = 0;
    while i < ops.len()
        invariant
            e == json::entries(ops@),
            i <= ops@.len(),
            forall|j: int| 0 <= j < i ==> "$"@.is_prefix_of((#[trigger] e[j]).0),
        decreases ops@.len() - i,
    {
        if !text::starts_with(ops[i].0.as_str(), "$") {
            assert(!"$"@.is_prefix_of(e[i as int].0));
            return false;
        }
        i = i + 1;
    }
    true
}

/// Adds the expressions of the operators applied to the field `k`.
fn push_operators(k: &str, ops: &Vec<(String, Json)>, out: &mut Vec<Pred>) -> (r: Result<
    (),
    String,
>)
    ensures
        (match operator_preds(k@, json::entries(ops@), ops@.len()) {
            Ok(ps) => r is Ok && preds(final(out)@) == preds(old(out)@) + ps,
            Err(m) => r is Err && r->Err_0@ == m,
        }),
{
    let ghost e = json::entries(ops@);
    let ghost start = preds(out@);
    let n: usize = ops.len();
    let mut i: usize = 0;
    assert(start + Seq::<PredV>::empty() =~= start);
    while i < n
        invariant
            n == ops@.len(),
            e == json::entries(ops@),
            i <= n,
            start == preds(old(out)@),
            operator_preds(k@, e, i as nat) is Ok,
            preds(out@) == start + operator_preds(k@, e, i as nat)->Ok_0,
        decreases n - i,
    {
        assert(e[i as int] == (ops@[i as int].0@, ops@[i as int].1@));
        let ghost was = preds(out@);
        match operator(k, ops[i].0.as_str(), &ops[i].1) {
            Ok(p) => {
                out.push(p);
                assert(preds(out@) =~= was.push(p@));
                assert(preds(out@) =~= start + operator_preds(k@, e, (i + 1) as nat)->Ok_0);
            },
            Err(m) => {
                proof {
                    lemma_operator_error(k@, e, (i + 1) as nat, n as nat);
                }
                return Err(m);
            },
        }
        i = i + 1;
    }
    Ok(())
}

proof fn lemma_operator_error(k: Seq<char>, e: Seq<(Seq<char>, JsonV)>, i: nat, n: nat)
    requires
        i <= n <= e.len(),
        operator_preds(k, e, i) is Err,
    ensures
        operator_preds(k, e, n) == operator_preds(k, e, i),
    decreases n - i,
{
    if i < n {
        lemma_operator_error(k, e, i, (n - 1) as nat);
    }
}

proof fn lemma_entries_error(e: Seq<(Seq<char>, JsonV)>, i: nat, n: nat)
    requires
        i <= n <= e.len(),
        entries_preds(e, i) is Err,
    ensures
        entries_preds(e, n) == entries_preds(e, i),
    decreases n - i,
{
    if i < n {
        lemma_entries_error(e, i, (n - 1) as nat);
    }
}

proof fn lemma_list_error(a: Seq<JsonV>, i: nat, n: nat)
    requires
        i <= n <= a.len(),
        list_preds(a, i) is Err,
    ensures
        list_preds(a, n) == list_preds(a, i),
    decreases n - i,
{
    if i < n {
        lemma_list_error(a, i, (n - 1) as nat);
    }
}

impl Pred {
    /// Parses a filter object such as
    /// `{"category": "a", "score": {"$gte": 3}, "$or": [{"a": 1}, {"b": 2}]}`.
    pub fn from_json(v: &Json) -> (r: Result<Pred, String>)
        ensures
            (match r {
                Ok(p) => pred_of(v@) == Ok::<PredV, Seq<char>>(p@),
                Err(m) => pred_of(v@) == Err::<PredV, Seq<char>>(m@),
            }),
        decreases v, 1nat,
    {
        broadcast use {lemma_and_view, lemma_or_view};

        let entries: &Vec<(String, Json)> = match v.as_object() {
            Some(e) => e,
            None => {
                return Err("filter must be a JSON object".to_string());
            },
        };
        let ghost e = json::entries(entries@);
        let n: usize = entries.len();
        let mut out: Vec<Pred> = Vec::new();
        let mut i: usize = 0;
        assert(preds(out@) =~= Seq::empty());
        while i < n
            invariant
                n == entries@.len(),
                decreases_to!(v => entries@),
                e == json::entries(entries@),
                v@ == JsonV::Obj(e),
                i <= n,
                entries_preds(e, i as nat) == Ok::<Seq<PredV>, Seq<char>>(preds(out@)),
            decreases n - i,
        {
            let ghost was = preds(out@);
            assert(e[i as int] == (entries@[i as int].0@, entries@[i as int].1@));
            assert(decreases_to!(entries@ => entries@[i as int]));
            assert(decreases_to!(entries@[i as int] => entries@[i as int].1));
            let k: &str = entries[i].0.as_str();
            let val: &Json = &entries[i].1;
            if text::same(k, "$and") {
                match val.as_array() {
                    Some(a) => match Pred::list_from_json(a) {
                        Ok(qs) => {
                            proof {
                                lemma_and_view(qs);
                            }
                            let p: Pred = Pred::And(qs);
                            out.push(p);
                            assert(preds(out@) =~= was.push(p@));
                        },
                        Err(m) => {
                            proof {
                                lemma_entries_error(e, (i + 1) as nat, n as nat);
                            }
                            return Err(m);
                        },
                    },
                    None => {
                        proof {
                            lemma_entries_error(e, (i + 1) as nat, n as nat);
                        }
                        return Err("$and must be an array".to_string());
                    },
                }
            } else if text::same(k, "$or") {
                match val.as_array() {
                    Some(a) => match Pred::list_from_json(a) {
                        Ok(qs) => {
                            proof {
                                lemma_or_view(qs);
                            }
                            let p: Pred = Pred::Or(qs);
                            out.push(p);
                            assert(preds(out@) =~= was.push(p@));
                        },
                        Err(m) => {
                            proof {
                                lemma_entries_error(e, (i + 1) as nat, n as nat);
                            }
                            return Err(m);
                        },
                    },
                    None => {
                        proof {
                            lemma_entries_error(e, (i + 1) as nat, n as nat);
                        }
                        return Err("$or must be an array".to_string());
                    },
                }
            } else {
                let ops: Option<&Vec<(String, Json)>> = match val.as_object() {
                    Some(o) => if only_operators(o) {
                        Some(o)
                    } else {
                        None
                    },
                    None => None,
                };
                match ops {
                    Some(o) => match push_operators(k, o, &mut out) {
                        Ok(_) => {},
                        Err(m) => {
                            proof {
                                lemma_entries_error(e, (i + 1) as nat, n as nat);
                            }
                            return Err(m);
                        },
                    },
                    None => {
                        let p: Pred = Pred::Eq(k.to_string(), val.copy());
                        out.push(p);
                        assert(preds(out@) =~= was.push(p@));
                    },
                }
            }
            i = i + 1;
        }
        if out.len() == 1 {
            assert(preds(out@)[0] == out@[0]@);
            match out.pop() {
                Some(p) => Ok(p),
                None => Err("filter must be a JSON object".to_string()),
            }
        } else {
            Ok(Pred::And(out))
        }
    }

    /// Parses the items of a `$and` or `$or` list.
    fn list_from_json(a: &Vec<Json>) -> (r: Result<Vec<Pred>, String>)
        ensures
            (match r {
                Ok(ps) => list_preds(json::items(a@), a@.len()) == Ok::<Seq<PredV>, Seq<char>>(
                    preds(ps@),
                ),
                Err(m) => list_preds(json::items(a@), a@.len()) == Err::<Seq<PredV>, Seq<char>>(
                    m@,
                ),
            }),
        decreases a@, 0nat,
    {
        let ghost s = json::items(a@);
        let n: usize = a.len();
        let mut out: Vec<Pred> = Vec::new();
        let mut i: usize = 0;
        assert(preds(out@) =~= Seq::empty());
        while i < n
            invariant
                n == a@.len(),
                s == json::items(a@),
                i <= n,
                list_preds(s, i as nat) == Ok::<Seq<PredV>, Seq<char>>(preds(out@)),
            decreases n - i,
        {
            let ghost was = preds(out@);
            assert(s[i as int] == a@[i as int]@);
            assert(decreases_to!(a@ => a@[i as int]));
            match Pred::from_json(&a[i]) {
                Ok(p) => {
                    out.push(p);
                    assert(preds(out@) =~= was.push(p@));
                },
                Err(m) => {
                    proof {
                        lemma_list_error(s, (i + 1) as nat, n as nat);
                    }
                    return Err(m);
                },
            }
            i = i + 1;
        }
        Ok(out)
    }
}

// ---------------------------------------------------------------------------
// Compilation to SQL
// ---------------------------------------------------------------------------

/// Whether `name` is a reserved column of text that filters may use.
pub open spec fn is_filterable(name: Seq<char>) -> bool {
    name == "source_path"@ || name == "source_type"@
}

/// The type a filter sees `name` with, or why it cannot be filtered on.
pub open spec fn field_type(c: SchemaConfig, name: Seq<char>) -> Result<Seq<char>, Seq<char>> {
    if c.fields@.dom().contains(name) {
        Ok(c.fields@[name].kind@)
    } else if is_filterable(name) {
        Ok("string"@)
    } else if name == "chunk_level"@ || name == "chunk_index"@ {
        Ok("int64"@)
    } else {
        Err("unknown filter field `"@ + name + "` — not in [fields] and not reserved"@)
    }
}

/// The type a membership test sees `name` with, or why there is none.
pub open spec fn member_type(c: SchemaConfig, name: Seq<char>) -> Result<Seq<char>, Seq<char>> {
    if c.fields@.dom().contains(name) {
        Ok(c.fields@[name].kind@)
    } else if is_filterable(name) {
        Ok("string"@)
    } else {
        Err("unknown filter field `"@ + name + "`"@)
    }
}

/// The SQL literal of `v` as a value of the type `t`, or why there is none.
pub open spec fn literal(t: Seq<char>, v: JsonV) -> Result<Seq<char>, Seq<char>> {
    if t == "string"@ || t == "text"@ {
        match json::string_of(v) {
            Some(s) => Ok(text::quoted(s)),
            None => Err("field is "@ + t + ", value must be a string"@),
        }
    } else if t == "int64"@ || t == "timestamp"@ {
        match json::int_of(v) {
            Some(i) => Ok(text::signed_decimal(i)),
            None => Err("field is "@ + t + ", value must be an integer"@),
        }
    } else if t == "float32"@ {
        match json::float_of(v) {
            Some(f) => Ok(f.plain),
            None => Err("field is float32, value must be a number"@),
        }
    } else if t == "bool"@ {
        match json::bool_of(v) {
            Some(b) => Ok(
                if b {
                    "TRUE"@
                } else {
                    "FALSE"@
                },
            ),
            None => Err("field is bool, value must be boolean"@),
        }
    } else if t == "list<string>"@ {
        Err("list<string> only supports $in/$nin membership filters"@)
    } else {
        Err("cannot filter on type "@ + t)
    }
}

/// The SQL literals of the first `n` values.
pub open spec fn literals(t: Seq<char>, vs: Seq<JsonV>, n: nat) -> Result<
    Seq<Seq<char>>,
    Seq<char>,
>
    decreases n,
{
    if n == 0 || n > vs.len() {
        Ok(Seq::empty())
    } else {
        match literals(t, vs, (n - 1) as nat) {
            Err(m) => Err(m),
            Ok(ls) => match literal(t, vs[n - 1]) {
                Err(m) => Err(m),
                Ok(l) => Ok(ls.push(l)),
            },
        }
    }
}

/// The tests that the list `name` holds each of the first `n` values.
pub open spec fn memberships(name: Seq<char>, vs: Seq<JsonV>, n: nat) -> Result<
    Seq<Seq<char>>,
    Seq<char>,
>
    decreases n,
{
    if n == 0 || n > vs.len() {
        Ok(Seq::empty())
    } else {
        match memberships(name, vs, (n - 1) as nat) {
            Err(m) => Err(m),
            Ok(ls) => match json::string_of(vs[n - 1]) {
                None => Err("list<string> membership needs string values"@),
                Some(s) => Ok(ls.push("array_has("@ + name + ", "@ + text::quoted(s) + ")"@)),
            },
        }
    }
}

/// The SQL of a membership test, or why there is none.
pub open spec fn member_sql(
    c: SchemaConfig,
    name: Seq<char>,
    vs: Seq<JsonV>,
    positive: bool,
) -> Result<Seq<char>, Seq<char>> {
    match member_type(c, name) {
        Err(m) => Err(m),
        Ok(t) => if t == "list<string>"@ {
            match memberships(name, vs, vs.len()) {
                Err(m) => Err(m),
                Ok(ls) => {
                    let joined = "("@ + text::joined(ls, " OR "@) + ")"@;
                    Ok(
                        if positive {
                            joined
                        } else {
                            "NOT "@ + joined
                        },
                    )
                },
            }
        } else {
            match literals(t, vs, vs.len()) {
                Err(m) => Err(m),
                Ok(ls) => Ok(
                    name + (if positive {
                        " IN ("@
                    } else {
                        " NOT IN ("@
                    }) + text::joined(ls, ", "@) + ")"@,
                ),
            }
        },
    }
}

/// The SQL of a comparison, or why there is none.
pub open spec fn compare_sql(c: SchemaConfig, name: Seq<char>, op: Seq<char>, v: JsonV) -> Result<
    Seq<char>,
    Seq<char>,
> {
    match field_type(c, name) {
        Err(m) => Err(m),
        Ok(t) => match literal(t, v) {
            Err(m) => Err(m),
            Ok(l) => Ok(name + op + l),
        },
    }
}

/// The SQL conditions of an expression, to be taken together with AND, or why
/// the expression does not fit the schema.
pub open spec fn conditions(c: SchemaConfig, p: PredV) -> Result<Seq<Seq<char>>, Seq<char>>
    decreases p, 0nat,
{
    match p {
        PredV::And(ps) => conjuncts(c, ps, ps.len()),
        PredV::Or(ps) => match branches(c, ps, ps.len()) {
            Err(m) => Err(m),
            Ok(bs) => Ok(seq!["("@ + text::joined(bs, " OR "@) + ")"@]),
        },
        PredV::Raw(sql) => Ok(seq![sql]),
        PredV::In(n, vs) => one(member_sql(c, n, vs, true)),
        PredV::Nin(n, vs) => one(member_sql(c, n, vs, false)),
        PredV::Exists(n, yes) => match field_type(c, n) {
            Err(m) => Err(m),
            Ok(_) => Ok(
                seq![
                    n + (if yes {
                        " IS NOT NULL"@
                    } else {
                        " IS NULL"@
                    }),
                ],
            ),
        },
        PredV::Eq(n, v) => one(compare_sql(c, n, " = "@, v)),
        PredV::Ne(n, v) => one(compare_sql(c, n, " != "@, v)),
        PredV::Gt(n, v) => one(compare_sql(c, n, " > "@, v)),
        PredV::Gte(n, v) => one(compare_sql(c, n, " >= "@, v)),
        PredV::Lt(n, v) => one(compare_sql(c, n, " < "@, v)),
        PredV::Lte(n, v) => one(compare_sql(c, n, " <= "@, v)),
    }
}

/// A single condition as a list.
pub open spec fn one(r: Result<Seq<char>, Seq<char>>) -> Result<Seq<Seq<char>>, Seq<char>> {
    match r {
        Ok(s) => Ok(seq![s]),
        Err(m) => Err(m),
    }
}

/// The conditions of the first `n` parts of a conjunction.
pub open spec fn conjuncts(c: SchemaConfig, ps: Seq<PredV>, n: nat) -> Result<
    Seq<Seq<char>>,
    Seq<char>,
>
    decreases ps, n,
{
    if n == 0 || n > ps.len() {
        Ok(Seq::empty())
    } else {
        match conjuncts(c, ps, (n - 1) as nat) {
            Err(m) => Err(m),
            Ok(cs) => match conditions(c, ps[n - 1]) {
                Err(m) => Err(m),
                Ok(ds) => Ok(cs + ds),
            },
        }
    }
}

/// The bracketed conditions of the first `n` parts of a disjunction.
pub open spec fn branches(c: SchemaConfig, ps: Seq<PredV>, n: nat) -> Result<
    Seq<Seq<char>>,
    Seq<char>,
>
    decreases ps, n,
{
    if n == 0 || n > ps.len() {
        Ok(Seq::empty())
    } else {
        match branches(c, ps, (n - 1) as nat) {
            Err(m) => Err(m),
            Ok(bs) => match conditions(c, ps[n - 1]) {
                Err(m) => Err(m),
                Ok(ds) => Ok(bs.push("("@ + text::joined(ds, " AND "@) + ")"@)),
            },
        }
    }
}

/// The SQL of an expression, or why it does not fit the schema.
pub open spec fn filter_sql(c: SchemaConfig, p: PredV) -> Result<Seq<char>, Seq<char>> {
    match conditions(c, p) {
        Err(m) => Err(m),
        Ok(cs) => Ok(
            if cs.len() == 0 {
                "TRUE"@
            } else {
                text::joined(cs, " AND "@)
            },
        ),
    }
}

/// Whether the outcome of a function that gives a text or an error message is
/// the one stated.
pub open spec fn outcome(r: Result<String, String>, s: Result<Seq<char>, Seq<char>>) -> bool {
    match r {
        Ok(t) => s == Ok::<Seq<char>, Seq<char>>(t@),
        Err(m) => s == Err::<Seq<char>, Seq<char>>(m@),
    }
}

/// The type a filter sees `name` with.
fn type_of_field(c: &SchemaConfig, name: &str) -> (r: Result<String, String>)
    requires
        c.wf(),
    ensures
        outcome(r, field_type(*c, name@)),
{
    match c.fields.get(name) {
        Some(f) => Ok(f.kind.clone()),
        None => if text::same(name, "source_path") || text::same(name, "source_type") {
            Ok("string".to_string())
        } else if text::same(name, "chunk_level") || text::same(name, "chunk_index") {
            Ok("int64".to_string())
        } else {
            Err(
                text::cat3(
                    "unknown filter field `",
                    name,
                    "` — not in [fields] and not reserved",
                ),
            )
        },
    }
}

/// The type a membership test sees `name` with.
fn type_of_member(c: &SchemaConfig, name: &str) -> (r: Result<String, String>)
    requires
        c.wf(),
    ensures
        outcome(r, member_type(*c, name@)),
{
    match c.fields.get(name) {
        Some(f) => Ok(f.kind.clone()),
        None => if text::same(name, "source_path") || text::same(name, "source_type") {
            Ok("string".to_string())
        } else {
            Err(text::cat3("unknown filter field `", name, "`"))
        },
    }
}

/// The SQL literal of `v` as a value of the type `t`.
pub fn value_to_sql(t: &str, v: &Json) -> (r: Result<String, String>)
    ensures
        outcome(r, literal(t@, v@)),
{
    if text::same(t, "string") || text::same(t, "text") {
        match v.as_str() {
            Some(s) => Ok(text::quote(s)),
            None => Err(text::cat3("field is ", t, ", value must be a string")),
        }
    } else if text::same(t, "int64") || text::same(t, "timestamp") {
        match v.as_i64() {
            Some(i) => Ok(text::signed_text(i)),
            None => Err(text::cat3("field is ", t, ", value must be an integer")),
        }
    } else if text::same(t, "float32") {
        match v.as_float() {
            Some(f) => Ok(f.plain),
            None => Err("field is float32, value must be a number".to_string()),
        }
    } else if text::same(t, "bool") {
        match v.as_bool() {
            Some(b) => Ok(
                if b {
                    "TRUE".to_string()
                } else {
                    "FALSE".to_string()
                },
            ),
            None => Err("field is bool, value must be boolean".to_string()),
        }
    } else if text::same(t, "list<string>") {
        Err("list<string> only supports $in/$nin membership filters".to_string())
    } else {
        Err(text::cat2("cannot filter on type ", t))
    }
}

proof fn lemma_literals_error(t: Seq<char>, vs: Seq<JsonV>, i: nat, n: nat)
    requires
        i <= n <= vs.len(),
        literals(t, vs, i) is Err,
    ensures
        literals(t, vs, n) == literals(t, vs, i),
    decreases n - i,
{
    if i < n {
        lemma_literals_error(t, vs, i, (n - 1) as nat);
    }
}

proof fn lemma_memberships_error(name: Seq<char>, vs: Seq<JsonV>, i: nat, n: nat)
    requires
        i <= n <= vs.len(),
        memberships(name, vs, i) is Err,
    ensures
        memberships(name, vs, n) == memberships(name, vs, i),
    decreases n - i,
{
    if i < n {
        lemma_memberships_error(name, vs, i, (n - 1) as nat);
    }
}

/// The SQL of a membership test.
pub fn compile_in(c: &SchemaConfig, name: &str, vals: &Vec<Json>, positive: bool) -> (r: Result<
    String,
    String,
>)
    requires
        c.wf(),
    ensures
        outcome(r, member_sql(*c, name@, json::items(vals@), positive)),
{
    let t: String = match type_of_member(c, name) {
        Ok(t) => t,
        Err(m) => {
            return Err(m);
        },
    };
    let ghost vs = json::items(vals@);
    let n: usize = vals.len();
    let mut parts: Vec<String> = Vec::new();
    let mut i: usize = 0;
    assert(text::texts(parts@) =~= Seq::empty());
    if text::same(t.as_str(), "list<string>") {
        while i < n
            invariant
                n == vals@.len(),
                vs == json::items(vals@),
                i <= n,
                memberships(name@, vs, i as nat) == Ok::<Seq<Seq<char>>, Seq<char>>(
                    text::texts(parts@),
                ),
                member_type(*c, name@) == Ok::<Seq<char>, Seq<char>>("list<string>"@),
            decreases n - i,
        {
            let ghost was = text::texts(parts@);
            assert(vs[i as int] == vals@[i as int]@);
            match vals[i].as_str() {
                Some(s) => {
                    let q: String = text::quote(s);
                    let part: String = text::cat5("array_has(", name, ", ", q.as_str(), ")");
                    parts.push(part);
                    assert(text::texts(parts@) =~= was.push(part@));
                },
                None => {
                    proof {
                        lemma_memberships_error(name@, vs, (i + 1) as nat, n as nat);
                    }
                    return Err("list<string> membership needs string values".to_string());
                },
            }
            i = i + 1;
        }
        let all: String = text::join(&parts, " OR ");
        let joined: String = text::cat3("(", all.as_str(), ")");
        if positive {
            Ok(joined)
        } else {
            Ok(text::cat2("NOT ", joined.as_str()))
        }
    } else {
        while i < n
            invariant
                n == vals@.len(),
                vs == json::items(vals@),
                i <= n,
                literals(t@, vs, i as nat) == Ok::<Seq<Seq<char>>, Seq<char>>(
                    text::texts(parts@),
                ),
                member_type(*c, name@) == Ok::<Seq<char>, Seq<char>>(t@),
                t@ != "list<string>"@,
            decreases n - i,
        {
            let ghost was = text::texts(parts@);
            assert(vs[i as int] == vals@[i as int]@);
            match value_to_sql(t.as_str(), &vals[i]) {
                Ok(part) => {
                    parts.push(part);
                    assert(text::texts(parts@) =~= was.push(part@));
                },
                Err(m) => {
                    proof {
                        lemma_literals_error(t@, vs, (i + 1) as nat, n as nat);
                    }
                    return Err(m);
                },
            }
            i = i + 1;
        }
        let all: String = text::join(&parts, ", ");
        let kw: &str = if positive {
            " IN ("
        } else {
            " NOT IN ("
        };
        let mut sql: String = text::cat3(name, kw, all.as_str());
        sql.append(")");
        Ok(sql)
    }
}

/// The SQL of a comparison.
fn compile_compare(c: &SchemaConfig, name: &str, op: &str, v: &Json) -> (r: Result<
    String,
    String,
>)
    requires
        c.wf(),
    ensures
        outcome(r, compare_sql(*c, name@, op@, v@)),
{
    match type_of_field(c, name) {
        Err(m) => Err(m),
        Ok(t) => match value_to_sql(t.as_str(), v) {
            Err(m) => Err(m),
            Ok(l) => Ok(text::cat3(name, op, l.as_str())),
        },
    }
}

proof fn lemma_conjuncts_error(c: SchemaConfig, ps: Seq<PredV>, i: nat, n: nat)
    requires
        i <= n <= ps.len(),
        conjuncts(c, ps, i) is Err,
    ensures
        conjuncts(c, ps, n) == conjuncts(c, ps, i),
    decreases n - i,
{
    if i < n {
        lemma_conjuncts_error(c, ps, i, (n - 1) as nat);
    }
}

proof fn lemma_branches_error(c: SchemaConfig, ps: Seq<PredV>, i: nat, n: nat)
    requires
        i <= n <= ps.len(),
        branches(c, ps, i) is Err,
    ensures
        branches(c, ps, n) == branches(c, ps, i),
    decreases n - i,
{
    if i < n {
        lemma_branches_error(c, ps, i, (n - 1) as nat);
    }
}

impl Pred {
    /// Checks field names and value types against the schema and compiles the
    /// expression to SQL.
    pub fn compile(&self, config: &SchemaConfig) -> (r: Result<String, String>)
        requires
            config.wf(),
        ensures
            outcome(r, filter_sql(*config, self@)),
    {
        let mut parts: Vec<String> = Vec::new();
        match self.compile_into(config, &mut parts) {
            Err(m) => Err(m),
            Ok(_) => {
                assert(text::texts(parts@) =~= conditions(*config, self@)->Ok_0);
                if parts.len() == 0 {
                    Ok("TRUE".to_string())
                } else {
                    Ok(text::join(&parts, " AND "))
                }
            },
        }
    }

    /// Adds the conditions of the expression to `out`.
    fn compile_into(&self, config: &SchemaConfig, out: &mut Vec<String>) -> (r: Result<(), String>)
        requires
            config.wf(),
        ensures
            (match conditions(*config, self@) {
                Ok(cs) => r is Ok && text::texts(final(out)@) == text::texts(old(out)@) + cs,
                Err(m) => r is Err && r->Err_0@ == m,
            }),
        decreases self,
    {
        let ghost start = text::texts(out@);
        match self {
            Pred::And(ps) => {
                proof {
                    lemma_and_view(*ps);
                }
                let ghost vs = preds(ps@);
                let n: usize = ps.len();
                let mut i: usize = 0;
                assert(start + Seq::<Seq<char>>::empty() =~= start);
                while i < n
                    invariant
                        config.wf(),
                        n == ps@.len(),
                        *self == Pred::And(*ps),
                        self@ == PredV::And(vs),
                        vs == preds(ps@),
                        i <= n,
                        start == text::texts(old(out)@),
                        conjuncts(*config, vs, i as nat) is Ok,
                        text::texts(out@) == start + conjuncts(*config, vs, i as nat)->Ok_0,
                    decreases n - i,
                {
                    assert(vs[i as int] == ps@[i as int]@);
                    assert(decreases_to!(*self => (*self)->And_0));
                    assert(decreases_to!(*ps => ps@));
                    assert(decreases_to!(ps@ => ps@[i as int]));
                    match ps[i].compile_into(config, out) {
                        Ok(_) => {
                            assert(text::texts(out@) =~= start + conjuncts(
                                *config,
                                vs,
                                (i + 1) as nat,
                            )->Ok_0);
                        },
                        Err(m) => {
                            proof {
                                lemma_conjuncts_error(*config, vs, (i + 1) as nat, n as nat);
                            }
                            return Err(m);
                        },
                    }
                    i = i + 1;
                }
                Ok(())
            },
            Pred::Or(ps) => {
                proof {
                    lemma_or_view(*ps);
                }
                let ghost vs = preds(ps@);
                let n: usize = ps.len();
                let mut bs: Vec<String> = Vec::new();
                let mut i: usize = 0;
                assert(text::texts(bs@) =~= Seq::empty());
                while i < n
                    invariant
                        config.wf(),
                        n == ps@.len(),
                        *self == Pred::Or(*ps),
                        self@ == PredV::Or(vs),
                        vs == preds(ps@),
                        i <= n,
                        branches(*config, vs, i as nat) == Ok::<Seq<Seq<char>>, Seq<char>>(
                            text::texts(bs@),
                        ),
                    decreases n - i,
                {
                    let ghost was = text::texts(bs@);
                    assert(vs[i as int] == ps@[i as int]@);
                    assert(decreases_to!(*self => (*self)->Or_0));
                    assert(decreases_to!(*ps => ps@));
                    assert(decreases_to!(ps@ => ps@[i as int]));
                    let mut sub: Vec<String> = Vec::new();
                    match ps[i].compile_into(config, &mut sub) {
                        Ok(_) => {
                            assert(text::texts(sub@) =~= conditions(*config, vs[i as int])->Ok_0);
                            let all: String = text::join(&sub, " AND ");
                            let b: String = text::cat3("(", all.as_str(), ")");
                            bs.push(b);
                            assert(text::texts(bs@) =~= was.push(b@));
                        },
                        Err(m) => {
                            proof {
                                lemma_branches_error(*config, vs, (i + 1) as nat, n as nat);
                            }
                            return Err(m);
                        },
                    }
                    i = i + 1;
                }
                let all: String = text::join(&bs, " OR ");
                let b: String = text::cat3("(", all.as_str(), ")");
                out.push(b);
                assert(text::texts(out@) =~= start + seq![b@]);
                Ok(())
            },
            Pred::Raw(sql) => {
                let s: String = sql.clone();
                out.push(s);
                assert(text::texts(out@) =~= start + seq![s@]);
                Ok(())
            },
            _ => match self.compile_atom(config) {
                Ok(s) => {
                    out.push(s);
                    assert(text::texts(out@) =~= start + seq![s@]);
                    Ok(())
                },
                Err(m) => Err(m),
            },
        }
    }

    /// The condition of a single test.
    fn compile_atom(&self, config: &SchemaConfig) -> (r: Result<String, String>)
        requires
            config.wf(),
            !(self is And),
            !(self is Or),
            !(self is Raw),
        ensures
            (match r {
                Ok(s) => conditions(*config, self@) == Ok::<Seq<Seq<char>>, Seq<char>>(seq![s@]),
                Err(m) => conditions(*config, self@) == Err::<Seq<Seq<char>>, Seq<char>>(m@),
            }),
    {
        match self {
            Pred::In(n, vs) => compile_in(config, n.as_str(), vs, true),
            Pred::Nin(n, vs) => compile_in(config, n.as_str(), vs, false),
            Pred::Exists(n, yes) => match type_of_field(config, n.as_str()) {
                Err(m) => Err(m),
                Ok(_) => if *yes {
                    Ok(text::cat2(n.as_str(), " IS NOT NULL"))
                } else {
                    Ok(text::cat2(n.as_str(), " IS NULL"))
                },
            },
            Pred::Eq(n, v) => compile_compare(config, n.as_str(), " = ", v),
            Pred::Ne(n, v) => compile_compare(config, n.as_str(), " != ", v),
            Pred::Gt(n, v) => compile_compare(config, n.as_str(), " > ", v),
            Pred::Gte(n, v) => compile_compare(config, n.as_str(), " >= ", v),
            Pred::Lt(n, v) => compile_compare(config, n.as_str(), " < ", v),
            Pred::Lte(n, v) => compile_compare(config, n.as_str(), " <= ", v),
            _ => Ok(String::new()),
        }
    }
}

// ---------------------------------------------------------------------------
// Laws of filters
// ---------------------------------------------------------------------------

/// Whether `v` is a value of the type `t` that a comparison can use.
pub open spec fn fits(t: Seq<char>, v: JsonV) -> bool {
    if t == "string"@ || t == "text"@ {
        v is Str
    } else if t == "int64"@ || t == "timestamp"@ {
        json::int_of(v) is Some
    } else if t == "float32"@ {
        v is Num
    } else if t == "bool"@ {
        v is Bool
    } else {
        false
    }
}

/// A comparison compiles exactly where the field is known and the value has
/// the field's type: a mismatch is an error, never a silent no-match.
pub proof fn law_comparison_is_type_checked(c: SchemaConfig, name: Seq<char>, v: JsonV)
    ensures
        filter_sql(c, PredV::Eq(name, v)) is Ok <==> (field_type(c, name) is Ok && fits(
            field_type(c, name)->Ok_0,
            v,
        )),
{
}

/// Whether every field that the expression tests is one that the schema knows.
pub open spec fn names_known(c: SchemaConfig, p: PredV) -> bool
    decreases p,
{
    match p {
        PredV::And(ps) => forall|i: int| 0 <= i < ps.len() ==> names_known(c, #[trigger] ps[i]),
        PredV::Or(ps) => forall|i: int| 0 <= i < ps.len() ==> names_known(c, #[trigger] ps[i]),
        PredV::Raw(_) => true,
        PredV::In(n, _) => field_type(c, n) is Ok,
        PredV::Nin(n, _) => field_type(c, n) is Ok,
        PredV::Exists(n, _) => field_type(c, n) is Ok,
        PredV::Eq(n, _) => field_type(c, n) is Ok,
        PredV::Ne(n, _) => field_type(c, n) is Ok,
        PredV::Gt(n, _) => field_type(c, n) is Ok,
        PredV::Gte(n, _) => field_type(c, n) is Ok,
        PredV::Lt(n, _) => field_type(c, n) is Ok,
        PredV::Lte(n, _) => field_type(c, n) is Ok,
    }
}

/// An expression that compiles tests known fields only, at every depth.
pub proof fn law_compiled_names_are_known(c: SchemaConfig, p: PredV)
    requires
        filter_sql(c, p) is Ok,
    ensures
        names_known(c, p),
    decreases p,
{
    match p {
        PredV::And(ps) => {
            assert forall|i: int| 0 <= i < ps.len() implies names_known(c, #[trigger] ps[i]) by {
                lemma_conjunct_ok(c, ps, i as nat, ps.len());
                law_compiled_names_are_known(c, ps[i]);
            }
        },
        PredV::Or(ps) => {
            assert forall|i: int| 0 <= i < ps.len() implies names_known(c, #[trigger] ps[i]) by {
                lemma_branch_ok(c, ps, i as nat, ps.len());
                law_compiled_names_are_known(c, ps[i]);
            }
        },
        _ => {},
    }
}

proof fn lemma_conjunct_ok(c: SchemaConfig, ps: Seq<PredV>, i: nat, n: nat)
    requires
        i < n <= ps.len(),
        conjuncts(c, ps, n) is Ok,
    ensures
        conditions(c, ps[i as int]) is Ok,
    decreases n - i,
{
    if i + 1 < n {
        lemma_conjunct_ok(c, ps, i, (n - 1) as nat);
    }
}

proof fn lemma_branch_ok(c: SchemaConfig, ps: Seq<PredV>, i: nat, n: nat)
    requires
        i < n <= ps.len(),
        branches(c, ps, n) is Ok,
    ensures
        conditions(c, ps[i as int]) is Ok,
    decreases n - i,
{
    if i + 1 < n {
        lemma_branch_ok(c, ps, i, (n - 1) as nat);
    }
}

/// A conjunction of one part compiles to what the part compiles to.
pub proof fn law_single_conjunct(c: SchemaConfig, p: PredV)
    ensures
        filter_sql(c, PredV::And(seq![p])) == filter_sql(c, p),
{
    let ps = seq![p];
    assert(conjuncts(c, ps, 0) == Ok::<Seq<Seq<char>>, Seq<char>>(Seq::empty()));
    assert(ps[0] == p);
    assert(conjuncts(c, ps, 1) == (match conditions(c, p) {
        Err(m) => Err::<Seq<Seq<char>>, Seq<char>>(m),
        Ok(ds) => Ok(Seq::<Seq<char>>::empty() + ds),
    }));
    assert(conditions(c, PredV::And(ps)) == conjuncts(c, ps, 1));
    match conditions(c, p) {
        Ok(ds) => {
            assert(Seq::<Seq<char>>::empty() + ds =~= ds);
        },
        Err(_) => {},
    }
}

// ---------------------------------------------------------------------------
// Results
// ---------------------------------------------------------------------------

/// What a query gives back for the chunks it finds.
#[derive(Debug, Clone, Copy, PartialEq, Eq, Structural)]
pub enum ExpandTo {
    /// The chunks themselves.
    Chunk,
    /// The documents they belong to.
    Parent,
    /// The document where several of its chunks are found, else the chunk with
    /// its neighbours.
    Auto,
}

impl Default for ExpandTo {
    fn default() -> (r: Self)
        ensures
            r == ExpandTo::Parent,
    {
        ExpandTo::Parent
    }
}

/// The expansion that a text names.
pub open spec fn expansion_named(s: Seq<char>) -> ExpandTo {
    let l = text::lowered(s);
    if l == "chunk"@ {
        ExpandTo::Chunk
    } else if l == "auto"@ {
        ExpandTo::Auto
    } else {
        ExpandTo::Parent
    }
}

impl ExpandTo {
    /// The expansion that a text names, whatever its case; documents for any
    /// other text.
    pub fn parse(s: &str) -> (r: Self)
        ensures
            r == expansion_named(s@),
    {
        let l: String = text::to_lower(s);
        if text::same(l.as_str(), "chunk") {
            ExpandTo::Chunk
        } else if text::same(l.as_str(), "auto") {
            ExpandTo::Auto
        } else {
            ExpandTo::Parent
        }
    }
}

/// Most characters of a text in an answer.
pub const MAX_RAW_TEXT_CHARS: usize = 2000;

/// How many chunks are fetched for reranking, at least.
pub const RERANK_RECALL_K: usize = 80;

/// Most results of one request.
pub const MAX_LIMIT: usize = 200;

/// The first `max` characters of `s` and three dots, or all of `s` if it is no
/// longer.
pub open spec fn shortened(s: Seq<char>, max: nat) -> Seq<char> {
    if s.len() <= max {
        s
    } else {
        s.take(max as int) + "..."@
    }
}

/// A text cut to `max_chars` characters, with three dots where something was
/// cut off.
pub fn preview(text: &str, max_chars: usize) -> (r: String)
    ensures
        r@ == shortened(text@, max_chars as nat),
{
    let v: Vec<char> = text::chars_of(text);
    if v.len() <= max_chars {
        text.to_string()
    } else {
        let mut s: String = text::text_range(&v, 0, max_chars);
        s.append("...");
        assert(v@.subrange(0, max_chars as int) =~= text@.take(max_chars as int));
        s
    }
}

/// An optional text as a JSON value.
pub open spec fn text_or_null(s: Option<Seq<char>>) -> JsonV {
    match s {
        Some(t) => JsonV::Str(t),
        None => JsonV::Null,
    }
}

/// The entries of a row that do not depend on the schema.
pub open spec fn fixed_entries(d: RecordV) -> Seq<(Seq<char>, JsonV)> {
    seq![
        ("id"@, JsonV::Str(d.id)),
        ("raw_text"@, JsonV::Str(shortened(d.raw_text, MAX_RAW_TEXT_CHARS as nat))),
        ("truncated"@, JsonV::Bool(d.raw_text.len() > MAX_RAW_TEXT_CHARS)),
        ("chunk_level"@, JsonV::Num(NumberV::Int(d.chunk_level as int))),
        ("chunk_index"@, JsonV::Num(NumberV::Int(d.chunk_index as int))),
        ("parent_doc_id"@, text_or_null(d.parent_doc_id)),
        ("source_path"@, JsonV::Str(d.source_path)),
        ("source_type"@, JsonV::Str(d.source_type)),
    ]
}

/// `e` with the first `n` entries of `more` put in.
pub open spec fn with_entries(
    e: Seq<(Seq<char>, JsonV)>,
    more: Seq<(Seq<char>, JsonV)>,
    n: nat,
) -> Seq<(Seq<char>, JsonV)>
    decreases n,
{
    if n == 0 || n > more.len() {
        e
    } else {
        json::with_entry(with_entries(e, more, (n - 1) as nat), more[n - 1].0, more[n - 1].1)
    }
}

/// A row as it is given to clients: the fixed entries, and the user-defined
/// values put in after them.
pub open spec fn record_value(d: RecordV) -> JsonV {
    JsonV::Obj(with_entries(fixed_entries(d), d.extra, d.extra.len()))
}

/// Entries put in leave the others as they are.
pub proof fn lemma_other_entries(
    e: Seq<(Seq<char>, JsonV)>,
    more: Seq<(Seq<char>, JsonV)>,
    n: nat,
    key: Seq<char>,
)
    requires
        forall|i: int| 0 <= i < more.len() ==> (#[trigger] more[i]).0 != key,
    ensures
        json::lookup(with_entries(e, more, n), key) == json::lookup(e, key),
    decreases n,
{
    if n > 0 && n <= more.len() {
        lemma_other_entries(e, more, (n - 1) as nat, key);
        json::law_with_entry_reads_back(
            with_entries(e, more, (n - 1) as nat),
            more[n - 1].0,
            more[n - 1].1,
            key,
        );
    }
}

/// The text of a row that is given to clients is cut to the allowed length and
/// three dots, unless a field of the user is named like it; a text that is not
/// longer is given whole.
pub proof fn law_row_texts_are_cut(d: RecordV)
    requires
        forall|i: int| 0 <= i < d.extra.len() ==> (#[trigger] d.extra[i]).0 != "raw_text"@,
    ensures
        ({
            let t = json::text_field(record_value(d), "raw_text"@);
            &&& t == Some(shortened(d.raw_text, MAX_RAW_TEXT_CHARS as nat))
            &&& t->0.len() <= MAX_RAW_TEXT_CHARS + 3
            &&& d.raw_text.len() <= MAX_RAW_TEXT_CHARS ==> t == Some(d.raw_text)
        }),
{
    let f = fixed_entries(d);
    lemma_other_entries(f, d.extra, d.extra.len(), "raw_text"@);
    reveal_strlit("id");
    reveal_strlit("raw_text");
    reveal_strlit("...");
    assert("id"@.len() == 2 && "raw_text"@.len() == 8 && "..."@.len() == 3);
    assert(f.drop_first()[0] == f[1]);
    reveal_with_fuel(json::lookup, 3);
}

/// Adds an entry at the end of a list of entries.
fn push_entry(v: &mut Vec<(String, Json)>, key: &str, val: Json)
    ensures
        json::entries(final(v)@) == json::entries(old(v)@).push((key@, val@)),
{
    let ghost was = json::entries(v@);
    let ghost x = val@;
    v.push((key.to_string(), val));
    assert(json::entries(v@) =~= was.push((key@, x)));
}

/// A row as it is given to clients; a long text is cut.
pub fn record_json(d: &Record) -> (r: Json)
    ensures
        r@ == record_value(d@),
{
    let chars: Vec<char> = text::chars_of(d.raw_text.as_str());
    let truncated: bool = chars.len() > MAX_RAW_TEXT_CHARS;
    let mut v: Vec<(String, Json)> = Vec::new();
    push_entry(&mut v, "id", Json::Str(d.id.clone()));
    push_entry(&mut v, "raw_text", Json::Str(preview(d.raw_text.as_str(), MAX_RAW_TEXT_CHARS)));
    push_entry(&mut v, "truncated", Json::Bool(truncated));
    push_entry(&mut v, "chunk_level", Json::number(d.chunk_level as i64));
    push_entry(&mut v, "chunk_index", Json::number(d.chunk_index as i64));
    let parent: Json = match &d.parent_doc_id {
        Some(p) => Json::Str(p.clone()),
        None => Json::Null,
    };
    push_entry(&mut v, "parent_doc_id", parent);
    push_entry(&mut v, "source_path", Json::Str(d.source_path.clone()));
    push_entry(&mut v, "source_type", Json::Str(d.source_type.clone()));
    assert(json::entries(v@) =~= fixed_entries(d@));
    let ghost more = json::entries(d.extra@);
    let mut i: usize = 0;
    while i < d.extra.len()
        invariant
            more == json::entries(d.extra@),
            i <= d.extra@.len(),
            json::entries(v@) == with_entries(fixed_entries(d@), more, i as nat),
        decreases d.extra@.len() - i,
    {
        assert(more[i as int] == (d.extra@[i as int].0@, d.extra@[i as int].1@));
        json::put(&mut v, d.extra[i].0.as_str(), d.extra[i].1.copy());
        i = i + 1;
    }
    proof {
        json::lemma_obj_view(v);
    }
    Json::Obj(v)
}

// ---------------------------------------------------------------------------
// Expansion of chunk hits
// ---------------------------------------------------------------------------

/// The row with the given id, the last one if there are several.
pub open spec fn row_with_id(rows: Seq<RecordV>, id: Seq<char>) -> Option<RecordV>
    decreases rows.len(),
{
    if rows.len() == 0 {
        None
    } else if rows.last().id == id {
        Some(rows.last())
    } else {
        row_with_id(rows.drop_last(), id)
    }
}

/// How many of the first `n` hits belong to the document `pid`.
pub open spec fn hits_of(hits: Seq<RecordV>, pid: Seq<char>, n: nat) -> nat
    decreases n,
{
    if n == 0 || n > hits.len() {
        0
    } else if hits[n - 1].parent_doc_id == Some(pid) {
        hits_of(hits, pid, (n - 1) as nat) + 1
    } else {
        hits_of(hits, pid, (n - 1) as nat)
    }
}

/// The texts of the first `n` rows with empty lines between them.
pub open spec fn merged_text(rows: Seq<RecordV>, n: nat) -> Seq<char>
    decreases n,
{
    if n == 0 || n > rows.len() {
        Seq::empty()
    } else {
        chunker::linked(merged_text(rows, (n - 1) as nat), rows[n - 1].raw_text, "\n\n"@)
    }
}

/// A hit merged with its neighbours in their order. The id and the position are
/// those of the first of them.
pub open spec fn window_row(h: RecordV, sibs: Seq<RecordV>) -> RecordV {
    let rows = store::by_index(sibs.push(h));
    let first = rows[0];
    RecordV {
        id: first.id,
        raw_text: merged_text(rows, rows.len()),
        chunk_level: h.chunk_level,
        chunk_index: first.chunk_index,
        parent_doc_id: h.parent_doc_id,
        source_path: h.source_path,
        source_type: h.source_type,
        extra: h.extra,
    }
}

/// How far an expansion has come.
pub struct ExpandV {
    /// The documents that are done with.
    pub seen: Seq<Seq<char>>,
    /// The rows to give back.
    pub out: Seq<RecordV>,
}

/// Whether one of the rows has the given id.
pub open spec fn has_id(rows: Seq<RecordV>, id: Seq<char>) -> bool {
    exists|k: int| 0 <= k < rows.len() && #[trigger] rows[k].id == id
}

/// Whether hit `i` is to be given with its neighbours: a lone hit whose
/// document is not done with and whose id is not among the rows yet.
pub open spec fn wants_window(
    hits: Seq<RecordV>,
    parents: Seq<RecordV>,
    mode: ExpandTo,
    st: ExpandV,
    i: int,
) -> bool {
    let h = hits[i];
    &&& mode == ExpandTo::Auto
    &&& h.parent_doc_id is Some
    &&& !st.seen.contains(h.parent_doc_id->0)
    &&& !(hits_of(hits, h.parent_doc_id->0, hits.len()) >= 2 && row_with_id(
        parents,
        h.parent_doc_id->0,
    ) is Some)
    &&& !has_id(st.out, h.id)
}

/// The expansion after hit `i`, whose neighbours are `sibs`.
pub open spec fn expand_step(
    hits: Seq<RecordV>,
    parents: Seq<RecordV>,
    mode: ExpandTo,
    st: ExpandV,
    i: int,
    sibs: Seq<RecordV>,
) -> ExpandV {
    let h = hits[i];
    match h.parent_doc_id {
        None => ExpandV { seen: st.seen, out: st.out.push(h) },
        Some(pid) => if st.seen.contains(pid) {
            st
        } else {
            match mode {
                ExpandTo::Chunk => ExpandV { seen: st.seen, out: st.out.push(h) },
                ExpandTo::Parent => match row_with_id(parents, pid) {
                    Some(p) => ExpandV { seen: st.seen.push(pid), out: st.out.push(p) },
                    None => ExpandV { seen: st.seen, out: st.out.push(h) },
                },
                ExpandTo::Auto => if hits_of(hits, pid, hits.len()) >= 2 && row_with_id(
                    parents,
                    pid,
                ) is Some {
                    ExpandV {
                        seen: st.seen.push(pid),
                        out: st.out.push(row_with_id(parents, pid)->0),
                    }
                } else if has_id(st.out, h.id) {
                    st
                } else if sibs.len() == 0 {
                    ExpandV { seen: st.seen.push(pid), out: st.out.push(h) }
                } else {
                    ExpandV { seen: st.seen.push(pid), out: st.out.push(window_row(h, sibs)) }
                },
            }
        },
    }
}

/// An expansion under way.
#[derive(Debug)]
pub struct Expansion {
    pub hits: Vec<Record>,
    pub parents: Vec<Record>,
    pub mode: ExpandTo,
    pub seen: Vec<String>,
    pub out: Vec<Record>,
    /// The next hit.
    pub next: usize,
}

impl View for Expansion {
    type V = ExpandV;

    open spec fn view(&self) -> ExpandV {
        ExpandV { seen: text::texts(self.seen@), out: store::records(self.out@) }
    }
}

/// The last row with the given id.
pub fn find_row<'a>(rows: &'a Vec<Record>, id: &str) -> (r: Option<&'a Record>)
    ensures
        (match r {
            Some(x) => row_with_id(store::records(rows@), id@) == Some(x@),
            None => row_with_id(store::records(rows@), id@) is None,
        }),
{
    let ghost s = store::records(rows@);
    let mut i: usize = rows.len();
    assert(s.take(i as int) =~= s);
    while i > 0
        invariant
            s == store::records(rows@),
            i <= rows@.len(),
            row_with_id(s, id@) == row_with_id(s.take(i as int), id@),
        decreases i,
    {
        assert(s.take(i as int).last() == rows@[i - 1]@);
        assert(s.take(i as int).drop_last() =~= s.take(i - 1));
        if text::same(rows[i - 1].id.as_str(), id) {
            return Some(&rows[i - 1]);
        }
        i = i - 1;
    }
    None
}

/// How many hits belong to the document `pid`.
fn count_hits(hits: &Vec<Record>, pid: &str) -> (r: usize)
    ensures
        r == hits_of(store::records(hits@), pid@, hits@.len()),
{
    let ghost s = store::records(hits@);
    let mut n: usize = 0;
    let mut i: usize = 0;
    while i < hits.len()
        invariant
            s == store::records(hits@),
            i <= hits@.len(),
            n <= i,
            n == hits_of(s, pid@, i as nat),
        decreases hits@.len() - i,
    {
        assert(s[i as int] == hits@[i as int]@);
        match &hits[i].parent_doc_id {
            Some(p) => if text::same(p.as_str(), pid) {
                n = n + 1;
            },
            None => {},
        }
        i = i + 1;
    }
    n
}

/// Whether one of the rows has the given id.
fn id_listed(rows: &Vec<Record>, id: &str) -> (r: bool)
    ensures
        r == has_id(store::records(rows@), id@),
{
    let ghost s = store::records(rows@);
    let mut i: usize = 0;
    while i < rows.len()
        invariant
            s == store::records(rows@),
            i <= rows@.len(),
            forall|k: int| 0 <= k < i ==> #[trigger] s[k].id != id@,
        decreases rows@.len() - i,
    {
        if text::same(rows[i].id.as_str(), id) {
            assert(s[i as int].id == id@);
            return true;
        }
        i = i + 1;
    }
    false
}

/// A hit merged with its neighbours.
fn merge_window(h: &Record, sibs: &Vec<Record>) -> (r: Record)
    ensures
        r@ == window_row(h@, store::records(sibs@)),
{
    let mut all: Vec<Record> = Vec::new();
    let ghost ss = store::records(sibs@);
    let mut i: usize = 0;
    assert(store::records(all@) =~= ss.take(0));
    while i < sibs.len()
        invariant
            ss == store::records(sibs@),
            i <= sibs@.len(),
            store::records(all@) == ss.take(i as int),
        decreases sibs@.len() - i,
    {
        store::push_record(&mut all, sibs[i].copy());
        i = i + 1;
        assert(ss.take(i as int) =~= ss.take(i - 1).push(ss[i - 1]));
    }
    assert(ss.take(i as int) =~= ss);
    store::push_record(&mut all, h.copy());
    let rows: Vec<Record> = store::sort_by_index(&all);
    let ghost rs = store::records(rows@);
    proof {
        store::law_sorted_rows(ss.push(h@));
        rs.to_multiset_ensures();
        ss.push(h@).to_multiset_ensures();
        assert(rs.len() == ss.len() + 1);
    }
    let mut merged: String = String::new();
    let mut k: usize = 0;
    while k < rows.len()
        invariant
            rs == store::records(rows@),
            k <= rows@.len(),
            merged@ == merged_text(rs, k as nat),
        decreases rows@.len() - k,
    {
        assert(rs[k as int] == rows@[k as int]@);
        if merged.as_str().is_empty() {
            merged = rows[k].raw_text.clone();
        } else {
            merged.append("\n\n");
            merged.append(rows[k].raw_text.as_str());
        }
        k = k + 1;
    }
    assert(rs[0] == rows@[0]@);
    Record {
        id: rows[0].id.clone(),
        raw_text: merged,
        chunk_level: h.chunk_level,
        chunk_index: rows[0].chunk_index,
        parent_doc_id: store::copy_opt(&h.parent_doc_id),
        source_path: h.source_path.clone(),
        source_type: h.source_type.clone(),
        extra: json::copy_entries(&h.extra),
    }
}

impl Expansion {
    /// Whether the next hit is within the hits, or all are done.
    pub open spec fn wf(&self) -> bool {
        self.next <= self.hits@.len()
    }

    /// An expansion at its start.
    pub fn start(hits: Vec<Record>, parents: Vec<Record>, mode: ExpandTo) -> (r: Expansion)
        ensures
            r.wf(),
            r.hits == hits,
            r.parents == parents,
            r.mode == mode,
            r.next == 0,
            r@ == (ExpandV { seen: Seq::empty(), out: Seq::empty() }),
    {
        let r: Expansion = Expansion {
            hits,
            parents,
            mode,
            seen: Vec::new(),
            out: Vec::new(),
            next: 0,
        };
        assert(r@.seen =~= Seq::empty());
        assert(r@.out =~= Seq::empty());
        r
    }

    /// Whether all hits are done.
    pub fn finished(&self) -> (r: bool)
        ensures
            r == (self.next >= self.hits@.len()),
    {
        self.next >= self.hits.len()
    }

    /// The document and the position whose neighbours the next hit is to be
    /// given with, if it is.
    pub fn wanted(&self) -> (r: Option<(String, u32)>)
        requires
            self.wf(),
        ensures
            ({
                let hits = store::records(self.hits@);
                let wants = self.next < hits.len() && wants_window(
                    hits,
                    store::records(self.parents@),
                    self.mode,
                    self@,
                    self.next as int,
                );
                match r {
                    Some((pid, index)) => wants && hits[self.next as int].parent_doc_id == Some(
                        pid@,
                    ) && index == hits[self.next as int].chunk_index,
                    None => !wants,
                }
            }),
    {
        if self.next >= self.hits.len() {
            return None;
        }
        let h: &Record = &self.hits[self.next];
        assert(store::records(self.hits@)[self.next as int] == h@);
        match &h.parent_doc_id {
            None => None,
            Some(pid) => {
                let seen: bool = self.was_seen(pid.as_str());
                match self.mode {
                    ExpandTo::Auto => {
                        let several: bool = count_hits(&self.hits, pid.as_str()) >= 2;
                        let known: bool = match find_row(&self.parents, pid.as_str()) {
                            Some(_) => true,
                            None => false,
                        };
                        if seen || (several && known) || id_listed(&self.out, h.id.as_str()) {
                            None
                        } else {
                            Some((pid.clone(), h.chunk_index))
                        }
                    },
                    _ => None,
                }
            },
        }
    }

    /// Whether the document `pid` is done with.
    fn was_seen(&self, pid: &str) -> (r: bool)
        ensures
            r == self@.seen.contains(pid@),
    {
        let r: bool = text::listed(&self.seen, pid);
        proof {
            let s = self@.seen;
            if r {
                let i = choose|i: int|
                    0 <= i < self.seen@.len() && #[trigger] self.seen@[i]@ == pid@;
                assert(s[i] == pid@);
            } else if s.contains(pid@) {
                let i = s.index_of(pid@);
                assert(self.seen@[i]@ == pid@);
            }
        }
        r
    }

    /// Takes the next hit; `sibs` are its neighbours, where they are wanted.
    pub fn step(&mut self, sibs: &Vec<Record>)
        requires
            old(self).wf(),
            old(self).next < old(self).hits@.len(),
        ensures
            final(self).wf(),
            final(self).hits == old(self).hits,
            final(self).parents == old(self).parents,
            final(self).mode == old(self).mode,
            final(self).next == old(self).next + 1,
            final(self)@ == expand_step(
                store::records(old(self).hits@),
                store::records(old(self).parents@),
                old(self).mode,
                old(self)@,
                old(self).next as int,
                store::records(sibs@),
            ),
    {
        let i: usize = self.next;
        let n: usize = self.hits.len();
        assert(i < n);
        let h: Record = self.hits[i].copy();
        assert(store::records(self.hits@)[i as int] == h@);
        self.next = i + 1;
        let pid: String = match &h.parent_doc_id {
            None => {
                store::push_record(&mut self.out, h);
                return ;
            },
            Some(p) => p.clone(),
        };
        if self.was_seen(pid.as_str()) {
            return ;
        }
        let parent: Option<Record> = match find_row(&self.parents, pid.as_str()) {
            Some(p) => Some(p.copy()),
            None => None,
        };
        match self.mode {
            ExpandTo::Chunk => {
                store::push_record(&mut self.out, h);
            },
            ExpandTo::Parent => match parent {
                Some(p) => {
                    store::push_record(&mut self.out, p);
                    text::push_text(&mut self.seen, pid);
                },
                None => {
                    store::push_record(&mut self.out, h);
                },
            },
            ExpandTo::Auto => {
                let several: bool = count_hits(&self.hits, pid.as_str()) >= 2;
                match (several, parent) {
                    (true, Some(p)) => {
                        store::push_record(&mut self.out, p);
                        text::push_text(&mut self.seen, pid);
                        return ;
                    },
                    _ => {},
                }
                if id_listed(&self.out, h.id.as_str()) {
                    return ;
                }
                if sibs.len() == 0 {
                    store::push_record(&mut self.out, h);
                } else {
                    let m: Record = merge_window(&h, sibs);
                    store::push_record(&mut self.out, m);
                }
                text::push_text(&mut self.seen, pid);
            },
        }
    }
}

/// The expansion after the first `n` hits, whose neighbours are `sibs`.
pub open spec fn expanded(
    hits: Seq<RecordV>,
    parents: Seq<RecordV>,
    mode: ExpandTo,
    sibs: Seq<Seq<RecordV>>,
    n: nat,
) -> ExpandV
    decreases n,
{
    if n == 0 || n > hits.len() {
        ExpandV { seen: Seq::empty(), out: Seq::empty() }
    } else {
        expand_step(
            hits,
            parents,
            mode,
            expanded(hits, parents, mode, sibs, (n - 1) as nat),
            n - 1,
            sibs[n - 1],
        )
    }
}

/// The models of a list of lists of rows.
pub open spec fn record_lists(v: Seq<Vec<Record>>) -> Seq<Seq<RecordV>> {
    Seq::new(v.len(), |i: int| store::records(v[i]@))
}

/// The rows to give back for chunk hits, when the documents they belong to and
/// the neighbours of each hit are at hand.
pub fn expand_leaf_hits(
    leaf_hits: Vec<Record>,
    parents: Vec<Record>,
    siblings: &Vec<Vec<Record>>,
    expand_to: ExpandTo,
) -> (r: Vec<Record>)
    requires
        siblings@.len() == leaf_hits@.len(),
    ensures
        store::records(r@) == expanded(
            store::records(leaf_hits@),
            store::records(parents@),
            expand_to,
            record_lists(siblings@),
            leaf_hits@.len(),
        ).out,
{
    let ghost hs = store::records(leaf_hits@);
    let ghost ps = store::records(parents@);
    let ghost ss = record_lists(siblings@);
    let mut e: Expansion = Expansion::start(leaf_hits, parents, expand_to);
    while !e.finished()
        invariant
            e.wf(),
            siblings@.len() == e.hits@.len(),
            hs == store::records(e.hits@),
            ps == store::records(e.parents@),
            ss == record_lists(siblings@),
            e.mode == expand_to,
            e@ == expanded(hs, ps, expand_to, ss, e.next as nat),
        decreases e.hits@.len() - e.next,
    {
        let i: usize = e.next;
        assert(ss[i as int] == store::records(siblings@[i as int]@));
        e.step(&siblings[i]);
    }
    e.out
}

// ---------------------------------------------------------------------------
// Laws of expansion
// ---------------------------------------------------------------------------

/// Asked for chunks, an expansion gives back the hits as they are.
pub proof fn law_chunk_expansion_keeps_hits(
    hits: Seq<RecordV>,
    parents: Seq<RecordV>,
    sibs: Seq<Seq<RecordV>>,
    n: nat,
)
    requires
        n <= hits.len(),
    ensures
        expanded(hits, parents, ExpandTo::Chunk, sibs, n).out == hits.take(n as int),
        expanded(hits, parents, ExpandTo::Chunk, sibs, n).seen.len() == 0,
    decreases n,
{
    if n > 0 {
        law_chunk_expansion_keeps_hits(hits, parents, sibs, (n - 1) as nat);
        assert(hits.take(n as int) =~= hits.take(n - 1).push(hits[n - 1]));
    } else {
        assert(hits.take(0) =~= Seq::empty());
    }
}

/// No expansion gives back more rows than there are hits.
pub proof fn law_expansion_is_no_longer(
    hits: Seq<RecordV>,
    parents: Seq<RecordV>,
    mode: ExpandTo,
    sibs: Seq<Seq<RecordV>>,
    n: nat,
)
    requires
        n <= hits.len(),
    ensures
        expanded(hits, parents, mode, sibs, n).out.len() <= n,
    decreases n,
{
    if n > 0 {
        law_expansion_is_no_longer(hits, parents, mode, sibs, (n - 1) as nat);
    }
}

proof fn lemma_row_has_id(rows: Seq<RecordV>, id: Seq<char>)
    ensures
        row_with_id(rows, id) is Some ==> row_with_id(rows, id)->0.id == id,
    decreases rows.len(),
{
    if rows.len() > 0 {
        lemma_row_has_id(rows.drop_last(), id);
    }
}

/// Asked for documents that are all known, an expansion gives back each
/// document once, however many of its chunks were hit.
pub proof fn law_parent_expansion_gives_each_document_once(
    hits: Seq<RecordV>,
    parents: Seq<RecordV>,
    sibs: Seq<Seq<RecordV>>,
    n: nat,
)
    requires
        n <= hits.len(),
        forall|i: int|
            0 <= i < hits.len() ==> (#[trigger] hits[i]).parent_doc_id is Some && row_with_id(
                parents,
                hits[i].parent_doc_id->0,
            ) is Some,
    ensures
        ({
            let e = expanded(hits, parents, ExpandTo::Parent, sibs, n);
            &&& e.out.len() == e.seen.len()
            &&& e.seen.no_duplicates()
            &&& forall|k: int| 0 <= k < e.out.len() ==> (#[trigger] e.out[k]).id == e.seen[k]
            &&& forall|i: int|
                0 <= i < n ==> e.seen.contains((#[trigger] hits[i]).parent_doc_id->0)
        }),
    decreases n,
{
    if n > 0 {
        law_parent_expansion_gives_each_document_once(hits, parents, sibs, (n - 1) as nat);
        let d = expanded(hits, parents, ExpandTo::Parent, sibs, (n - 1) as nat);
        let e = expanded(hits, parents, ExpandTo::Parent, sibs, n);
        assert(hits[n - 1].parent_doc_id is Some);
        let pid = hits[n - 1].parent_doc_id->0;
        lemma_row_has_id(parents, pid);
        if !d.seen.contains(pid) {
            assert(e.seen == d.seen.push(pid));
            assert(e.seen[d.seen.len() as int] == pid);
            assert forall|i: int| 0 <= i < n implies e.seen.contains(
                (#[trigger] hits[i]).parent_doc_id->0,
            ) by {
                if i < n - 1 {
                    let q = hits[i].parent_doc_id->0;
                    assert(d.seen.contains(q));
                    assert(e.seen[d.seen.index_of(q)] == q);
                }
            }
        }
    }
}

/// Left to choose, an expansion gives back a lone hit merged with its
/// neighbours, and as it is where it has none.
pub proof fn law_lone_hit_comes_with_its_neighbours(
    hits: Seq<RecordV>,
    parents: Seq<RecordV>,
    sibs: Seq<Seq<RecordV>>,
    i: int,
)
    requires
        0 <= i < hits.len(),
        wants_window(
            hits,
            parents,
            ExpandTo::Auto,
            expanded(hits, parents, ExpandTo::Auto, sibs, i as nat),
            i,
        ),
    ensures
        expanded(hits, parents, ExpandTo::Auto, sibs, (i + 1) as nat).out == expanded(
            hits,
            parents,
            ExpandTo::Auto,
            sibs,
            i as nat,
        ).out.push(
            if sibs[i].len() == 0 {
                hits[i]
            } else {
                window_row(hits[i], sibs[i])
            },
        ),
{
}

/// Left to choose, an expansion gives back at most one row for each document
/// whose chunks were hit: the document, or one chunk with its neighbours.
pub proof fn law_auto_expansion_gives_one_row_per_document(
    hits: Seq<RecordV>,
    parents: Seq<RecordV>,
    sibs: Seq<Seq<RecordV>>,
    n: nat,
)
    requires
        n <= hits.len(),
        forall|i: int| 0 <= i < hits.len() ==> (#[trigger] hits[i]).parent_doc_id is Some,
    ensures
        ({
            let e = expanded(hits, parents, ExpandTo::Auto, sibs, n);
            &&& e.out.len() == e.seen.len()
            &&& e.seen.no_duplicates()
        }),
    decreases n,
{
    if n > 0 {
        law_auto_expansion_gives_one_row_per_document(hits, parents, sibs, (n - 1) as nat);
        assert(hits[n - 1].parent_doc_id is Some);
    }
}

// ---------------------------------------------------------------------------
// Filters on rows at hand
// ---------------------------------------------------------------------------

/// The value of a field in a row; null where the row has none.
pub open spec fn row_value(d: RecordV, name: Seq<char>) -> JsonV {
    if name == "source_path"@ {
        JsonV::Str(d.source_path)
    } else if name == "source_type"@ {
        JsonV::Str(d.source_type)
    } else {
        match json::lookup(d.extra, name) {
            Some(v) => v,
            None => JsonV::Null,
        }
    }
}

/// Whether two values are equal to a filter: numbers by their value as floats,
/// so that a stored float equals the integer it was given as.
pub open spec fn filter_equal(a: JsonV, b: JsonV) -> bool {
    match (a, b) {
        (JsonV::Num(x), JsonV::Num(y)) => json::float_rank(json::as_float(x).bits)
            == json::float_rank(json::as_float(y).bits),
        _ => json::same_value(a, b),
    }
}

/// The places of two numbers among all floats; nothing unless both are
/// numbers.
pub open spec fn ranks(a: JsonV, b: JsonV) -> Option<(int, int)> {
    match (json::float_of(a), json::float_of(b)) {
        (Some(x), Some(y)) => Some((json::float_rank(x.bits), json::float_rank(y.bits))),
        _ => None,
    }
}

/// Whether one of the values equals `v` to a filter.
pub open spec fn filter_listed(v: JsonV, vs: Seq<JsonV>) -> bool {
    exists|i: int| 0 <= i < vs.len() && filter_equal(v, #[trigger] vs[i])
}

/// Whether one of the values equals one of the items to a filter.
pub open spec fn some_listed(items: Seq<JsonV>, vs: Seq<JsonV>) -> bool {
    exists|k: int| 0 <= k < items.len() && filter_listed(#[trigger] items[k], vs)
}

/// Whether a row that holds `v` is among the values: a list is if one of its
/// items is, any other value if it is one of them itself.
pub open spec fn filter_member(v: JsonV, vs: Seq<JsonV>) -> bool {
    match v {
        JsonV::Arr(items) => some_listed(items, vs),
        _ => filter_listed(v, vs),
    }
}

/// Whether a row satisfies a filter expression. Raw SQL lets every row pass.
pub open spec fn matches_row(p: PredV, d: RecordV) -> bool
    decreases p,
{
    match p {
        PredV::And(ps) => forall|i: int| 0 <= i < ps.len() ==> matches_row(#[trigger] ps[i], d),
        PredV::Or(ps) => exists|i: int| 0 <= i < ps.len() && matches_row(#[trigger] ps[i], d),
        PredV::Raw(_) => true,
        PredV::Exists(n, yes) => yes == (is_filterable(n) || json::lookup(d.extra, n) is Some),
        PredV::In(n, vs) => filter_member(row_value(d, n), vs),
        PredV::Nin(n, vs) => !filter_member(row_value(d, n), vs),
        PredV::Eq(n, v) => filter_equal(row_value(d, n), v),
        PredV::Ne(n, v) => !filter_equal(row_value(d, n), v),
        PredV::Gt(n, v) => match ranks(row_value(d, n), v) {
            Some((a, b)) => a > b,
            None => false,
        },
        PredV::Gte(n, v) => match ranks(row_value(d, n), v) {
            Some((a, b)) => a >= b,
            None => false,
        },
        PredV::Lt(n, v) => match ranks(row_value(d, n), v) {
            Some((a, b)) => a < b,
            None => false,
        },
        PredV::Lte(n, v) => match ranks(row_value(d, n), v) {
            Some((a, b)) => a <= b,
            None => false,
        },
    }
}

/// The value of a field in a row; null where the row has none.
fn field_value(d: &Record, name: &str) -> (r: Json)
    ensures
        r@ == row_value(d@, name@),
{
    if text::same(name, "source_path") {
        Json::Str(d.source_path.clone())
    } else if text::same(name, "source_type") {
        Json::Str(d.source_type.clone())
    } else {
        match json::find(&d.extra, name) {
            Some(v) => v.copy(),
            None => Json::Null,
        }
    }
}

/// Whether two values are equal to a filter.
pub fn json_eq(a: &Json, b: &Json) -> (r: bool)
    ensures
        r == filter_equal(a@, b@),
{
    match (a, b) {
        (Json::Num(x), Json::Num(y)) => {
            let f: json::Float = x.to_float();
            let g: json::Float = y.to_float();
            json::rank(f.bits) == json::rank(g.bits)
        },
        _ => a.same(b),
    }
}

/// Whether a row that holds `v` is among the values.
fn member(v: &Json, vs: &Vec<Json>) -> (r: bool)
    ensures
        r == filter_member(v@, json::items(vs@)),
{
    let ghost s = json::items(vs@);
    match v.as_array() {
        Some(a) => {
            let ghost items = json::items(a@);
            let mut k: usize = 0;
            while k < a.len()
                invariant
                    s == json::items(vs@),
                    items == json::items(a@),
                    v@ == JsonV::Arr(items),
                    k <= a@.len(),
                    forall|j: int| 0 <= j < k ==> !filter_listed(#[trigger] items[j], s),
                decreases a@.len() - k,
            {
                assert(items[k as int] == a@[k as int]@);
                if listed_value(&a[k], vs) {
                    assert(some_listed(items, s));
                    return true;
                }
                k = k + 1;
            }
            false
        },
        None => listed_value(v, vs),
    }
}

/// Whether one of the values equals `v` to a filter.
fn listed_value(v: &Json, vs: &Vec<Json>) -> (r: bool)
    ensures
        r == filter_listed(v@, json::items(vs@)),
{
    let ghost s = json::items(vs@);
    let mut i: usize = 0;
    while i < vs.len()
        invariant
            s == json::items(vs@),
            i <= vs@.len(),
            forall|k: int| 0 <= k < i ==> !filter_equal(v@, #[trigger] s[k]),
        decreases vs@.len() - i,
    {
        if json_eq(v, &vs[i]) {
            assert(filter_equal(v@, s[i as int]));
            return true;
        }
        i = i + 1;
    }
    false
}

/// The places of two numbers among all floats.
fn rank_pair(a: &Json, b: &Json) -> (r: Option<(i128, i128)>)
    ensures
        (match r {
            Some((x, y)) => ranks(a@, b@) == Some((x as int, y as int)),
            None => ranks(a@, b@) is None,
        }),
{
    match (a.as_float(), b.as_float()) {
        (Some(x), Some(y)) => Some((json::rank(x.bits), json::rank(y.bits))),
        _ => None,
    }
}

proof fn lemma_conjunct_decides(ps: Seq<PredV>, d: RecordV, i: int)
    requires
        0 <= i < ps.len(),
        !matches_row(ps[i], d),
    ensures
        !matches_row(PredV::And(ps), d),
{
    let p = PredV::And(ps);
    let qs = p->And_0;
    assert(qs[i] == ps[i]);
    reveal_with_fuel(matches_row, 2);
}

proof fn lemma_disjunct_decides(ps: Seq<PredV>, d: RecordV, i: int)
    requires
        0 <= i < ps.len(),
        matches_row(ps[i], d),
    ensures
        matches_row(PredV::Or(ps), d),
{
    let p = PredV::Or(ps);
    let qs = p->Or_0;
    assert(qs[i] == ps[i]);
    reveal_with_fuel(matches_row, 2);
}

/// Whether a row satisfies a filter expression.
pub fn pred_matches(pred: &Pred, rec: &Record) -> (r: bool)
    ensures
        r == matches_row(pred@, rec@),
    decreases pred,
{
    match pred {
        Pred::And(ps) => {
            proof {
                lemma_and_view(*ps);
            }
            let ghost s = preds(ps@);
            let mut i: usize = 0;
            while i < ps.len()
                invariant
                    *pred == Pred::And(*ps),
                    pred@ == PredV::And(s),
                    s == preds(ps@),
                    i <= ps@.len(),
                    forall|k: int| 0 <= k < i ==> matches_row(#[trigger] s[k], rec@),
                decreases ps@.len() - i,
            {
                assert(decreases_to!(*pred => (*pred)->And_0));
                assert(decreases_to!(*ps => ps@));
                assert(decreases_to!(ps@ => ps@[i as int]));
                if !pred_matches(&ps[i], rec) {
                    assert(s[i as int] == ps@[i as int]@);
                    assert(!matches_row(s[i as int], rec@));
                    proof {
                        lemma_conjunct_decides(s, rec@, i as int);
                    }
                    return false;
                }
                i = i + 1;
            }
            true
        },
        Pred::Or(ps) => {
            proof {
                lemma_or_view(*ps);
            }
            let ghost s = preds(ps@);
            let mut i: usize = 0;
            while i < ps.len()
                invariant
                    *pred == Pred::Or(*ps),
                    pred@ == PredV::Or(s),
                    s == preds(ps@),
                    i <= ps@.len(),
                    forall|k: int| 0 <= k < i ==> !matches_row(#[trigger] s[k], rec@),
                decreases ps@.len() - i,
            {
                assert(decreases_to!(*pred => (*pred)->Or_0));
                assert(decreases_to!(*ps => ps@));
                assert(decreases_to!(ps@ => ps@[i as int]));
                if pred_matches(&ps[i], rec) {
                    assert(s[i as int] == ps@[i as int]@);
                    assert(matches_row(s[i as int], rec@));
                    proof {
                        lemma_disjunct_decides(s, rec@, i as int);
                    }
                    return true;
                }
                i = i + 1;
            }
            false
        },
        Pred::Raw(_) => true,
        Pred::Exists(n, yes) => {
            let fixed: bool = text::same(n.as_str(), "source_path") || text::same(
                n.as_str(),
                "source_type",
            );
            let found: bool = match json::find(&rec.extra, n.as_str()) {
                Some(_) => true,
                None => false,
            };
            *yes == (fixed || found)
        },
        Pred::In(n, vs) => member(&field_value(rec, n.as_str()), vs),
        Pred::Nin(n, vs) => !member(&field_value(rec, n.as_str()), vs),
        Pred::Eq(n, v) => json_eq(&field_value(rec, n.as_str()), v),
        Pred::Ne(n, v) => !json_eq(&field_value(rec, n.as_str()), v),
        Pred::Gt(n, v) => match rank_pair(&field_value(rec, n.as_str()), v) {
            Some((a, b)) => a > b,
            None => false,
        },
        Pred::Gte(n, v) => match rank_pair(&field_value(rec, n.as_str()), v) {
            Some((a, b)) => a >= b,
            None => false,
        },
        Pred::Lt(n, v) => match rank_pair(&field_value(rec, n.as_str()), v) {
            Some((a, b)) => a < b,
            None => false,
        },
        Pred::Lte(n, v) => match rank_pair(&field_value(rec, n.as_str()), v) {
            Some((a, b)) => a <= b,
            None => false,
        },
    }
}

/// Whether an expression holds no raw SQL at any depth.
pub open spec fn no_raw_sql(p: PredV) -> bool
    decreases p,
{
    match p {
        PredV::And(ps) => forall|i: int| 0 <= i < ps.len() ==> no_raw_sql(#[trigger] ps[i]),
        PredV::Or(ps) => forall|i: int| 0 <= i < ps.len() ==> no_raw_sql(#[trigger] ps[i]),
        PredV::Raw(_) => false,
        _ => true,
    }
}

/// A filter given as JSON never holds raw SQL: that is for local callers only.
pub proof fn law_json_filters_hold_no_raw_sql(j: JsonV)
    requires
        pred_of(j) is Ok,
    ensures
        no_raw_sql(pred_of(j)->Ok_0),
    decreases j, 0nat,
{
    match j {
        JsonV::Obj(e) => {
            lemma_entries_no_raw(e, e.len());
        },
        _ => {},
    }
}

/// Whether none of the expressions holds raw SQL.
pub open spec fn all_no_raw(ps: Seq<PredV>) -> bool {
    forall|i: int| 0 <= i < ps.len() ==> no_raw_sql(#[trigger] ps[i])
}

proof fn lemma_list_no_raw(a: Seq<JsonV>, n: nat)
    requires
        n <= a.len(),
        list_preds(a, n) is Ok,
    ensures
        all_no_raw(list_preds(a, n)->Ok_0),
    decreases a, n,
{
    if n > 0 {
        lemma_list_no_raw(a, (n - 1) as nat);
        law_json_filters_hold_no_raw_sql(a[n - 1]);
    }
}

proof fn lemma_operators_no_raw(k: Seq<char>, ops: Seq<(Seq<char>, JsonV)>, n: nat)
    requires
        n <= ops.len(),
        operator_preds(k, ops, n) is Ok,
    ensures
        all_no_raw(operator_preds(k, ops, n)->Ok_0),
    decreases n,
{
    if n > 0 {
        lemma_operators_no_raw(k, ops, (n - 1) as nat);
    }
}

proof fn lemma_entries_no_raw(e: Seq<(Seq<char>, JsonV)>, n: nat)
    requires
        n <= e.len(),
        entries_preds(e, n) is Ok,
    ensures
        all_no_raw(entries_preds(e, n)->Ok_0),
    decreases e, n,
{
    if n > 0 {
        lemma_entries_no_raw(e, (n - 1) as nat);
        let k = e[n - 1].0;
        match e[n - 1].1 {
            JsonV::Arr(a) => {
                if k == "$and"@ || k == "$or"@ {
                    lemma_list_no_raw(a, a.len());
                }
            },
            JsonV::Obj(ops) => {
                if k != "$and"@ && k != "$or"@ && all_operators(ops) {
                    lemma_operators_no_raw(k, ops, ops.len());
                }
            },
            _ => {},
        }
    }
}

// ---------------------------------------------------------------------------
// Reranking and embedding
// ---------------------------------------------------------------------------

/// How many chunks are fetched for reranking.
pub fn recall_size(limit: usize) -> (r: usize)
    ensures
        r == (if limit < RERANK_RECALL_K {
            RERANK_RECALL_K
        } else {
            limit
        }),
{
    if limit < RERANK_RECALL_K {
        RERANK_RECALL_K
    } else {
        limit
    }
}

/// The rows at the first `n` of the given positions that exist.
pub open spec fn picked(leaves: Seq<RecordV>, ranked: Seq<usize>, n: nat) -> Seq<RecordV>
    decreases n,
{
    if n == 0 || n > ranked.len() {
        Seq::empty()
    } else if (ranked[n - 1] as int) < leaves.len() {
        picked(leaves, ranked, (n - 1) as nat).push(leaves[ranked[n - 1] as int])
    } else {
        picked(leaves, ranked, (n - 1) as nat)
    }
}

/// The smaller of two numbers.
pub open spec fn least(a: nat, b: nat) -> nat {
    if a < b {
        a
    } else {
        b
    }
}

/// The best `limit` rows of a ranking given as positions.
pub fn pick_ranked(leaves: &Vec<Record>, ranked: &Vec<usize>, limit: usize) -> (r: Vec<Record>)
    ensures
        store::records(r@) == picked(
            store::records(leaves@),
            ranked@,
            least(limit as nat, ranked@.len()),
        ),
{
    let ghost ls = store::records(leaves@);
    let n: usize = if limit < ranked.len() {
        limit
    } else {
        ranked.len()
    };
    let mut out: Vec<Record> = Vec::new();
    let mut i: usize = 0;
    assert(store::records(out@) =~= Seq::empty());
    while i < n
        invariant
            ls == store::records(leaves@),
            n <= ranked@.len(),
            i <= n,
            store::records(out@) == picked(ls, ranked@, i as nat),
        decreases n - i,
    {
        let k: usize = ranked[i];
        if k < leaves.len() {
            assert(ls[k as int] == leaves@[k as int]@);
            store::push_record(&mut out, leaves[k].copy());
        }
        i = i + 1;
    }
    out
}

/// The positions from zero on: the order in which the rows were found.
pub fn found_order(n: usize) -> (r: Vec<usize>)
    ensures
        r@.len() == n,
        forall|i: int| 0 <= i < n ==> #[trigger] r@[i] == i,
{
    let mut r: Vec<usize> = Vec::new();
    let mut i: usize = 0;
    while i < n
        invariant
            i <= n,
            r@.len() == i,
            forall|k: int| 0 <= k < i ==> #[trigger] r@[k] == k,
        decreases n - i,
    {
        r.push(i);
        i = i + 1;
    }
    r
}

/// Where reranking fails, the rows come in the order they were found.
pub proof fn law_degraded_ranking_keeps_order(leaves: Seq<RecordV>, order: Seq<usize>, n: nat)
    requires
        order.len() == leaves.len(),
        forall|i: int| 0 <= i < order.len() ==> #[trigger] order[i] == i,
        n <= leaves.len(),
    ensures
        picked(leaves, order, n) == leaves.take(n as int),
    decreases n,
{
    if n > 0 {
        law_degraded_ranking_keeps_order(leaves, order, (n - 1) as nat);
        assert(leaves.take(n as int) =~= leaves.take(n - 1).push(leaves[n - 1]));
    } else {
        assert(leaves.take(0) =~= Seq::empty());
    }
}

/// Checks that an embedding has the dimension of the column it is compared
/// with.
pub fn check_query_dim(len: usize, column: &str, dim: usize) -> (r: Result<(), String>)
    ensures
        (match r {
            Ok(_) => len == dim,
            Err(e) => len != dim && e@ == "embedder returned dim "@ + text::decimal(len as nat)
                + " but vector column `"@ + column@ + "` expects dim "@ + text::decimal(dim as nat),
        }),
{
    if len != dim {
        let l: String = text::usize_text(len);
        let d: String = text::usize_text(dim);
        let mut e: String = text::cat5(
            "embedder returned dim ",
            l.as_str(),
            " but vector column `",
            column,
            "` expects dim ",
        );
        e.append(d.as_str());
        return Err(e);
    }
    Ok(())
}

} // verus!
