//! What holds of every filter: the SQL says what the filter says, and rows at
//! hand are held to the same meaning.

use crate::json;
use crate::json::{FloatV, JsonV, NumberV};
use crate::query;
use crate::query::PredV;
use crate::schema::SchemaConfig;
use crate::store::RecordV;
use crate::text;
use vstd::prelude::*;

verus! {

broadcast use vstd::string::group_string_axioms;

// ---------------------------------------------------------------------------
// What SQL says
// ---------------------------------------------------------------------------

/// The type that a field is declared with.
pub open spec fn declared(c: SchemaConfig, name: Seq<char>) -> Option<Seq<char>> {
    if c.fields@.dom().contains(name) {
        Some(c.fields@[name].kind@)
    } else if name == "source_path"@ || name == "source_type"@ {
        Some("string"@)
    } else if name == "chunk_level"@ || name == "chunk_index"@ {
        Some("int64"@)
    } else {
        None
    }
}

/// Whether the SQL literal `l` denotes the value `v` of the type `t`: a text in
/// single quotes that reads back as the text, an integer in decimal, a number or
/// a truth value.
pub open spec fn denotes(t: Seq<char>, l: Seq<char>, v: JsonV) -> bool {
    match v {
        JsonV::Str(s) => {
            &&& t == "string"@ || t == "text"@
            &&& l.len() >= 2
            &&& l[0] == '\'' && l.last() == '\''
            &&& text::unescaped(l.subrange(1, l.len() - 1)) == Some(s)
        },
        JsonV::Bool(b) => t == "bool"@ && l == (if b {
            "TRUE"@
        } else {
            "FALSE"@
        }),
        JsonV::Num(n) => if t == "float32"@ {
            l == json::as_float(n).plain
        } else {
            &&& t == "int64"@ || t == "timestamp"@
            &&& n is Int
            &&& text::integer(l) == Some(n->Int_0)
        },
        _ => false,
    }
}

/// The field, the sign and the value of a comparison.
pub open spec fn comparison(p: PredV) -> Option<(Seq<char>, Seq<char>, JsonV)> {
    match p {
        PredV::Eq(n, v) => Some((n, " = "@, v)),
        PredV::Ne(n, v) => Some((n, " != "@, v)),
        PredV::Gt(n, v) => Some((n, " > "@, v)),
        PredV::Gte(n, v) => Some((n, " >= "@, v)),
        PredV::Lt(n, v) => Some((n, " < "@, v)),
        PredV::Lte(n, v) => Some((n, " <= "@, v)),
        _ => None,
    }
}

proof fn lemma_signed_reads_back(i: int)
    ensures
        text::integer(text::signed_decimal(i)) == Some(i),
{
    let n: nat = if i < 0 {
        (-i) as nat
    } else {
        i as nat
    };
    text::lemma_decimal_digits(n);
    let d = text::decimal(n);
    let s = text::signed_decimal(i);
    assert(text::is_digit(d[0]));
    if i < 0 {
        assert(s.drop_first() =~= d);
    }
}

pub proof fn lemma_type_names()
    ensures
        "string"@ != "text"@,
        "string"@ != "int64"@,
        "string"@ != "timestamp"@,
        "string"@ != "float32"@,
        "string"@ != "bool"@,
        "string"@ != "list<string>"@,
        "text"@ != "int64"@,
        "text"@ != "timestamp"@,
        "text"@ != "float32"@,
        "text"@ != "bool"@,
        "text"@ != "list<string>"@,
        "int64"@ != "timestamp"@,
        "int64"@ != "float32"@,
        "int64"@ != "bool"@,
        "int64"@ != "list<string>"@,
        "timestamp"@ != "float32"@,
        "timestamp"@ != "bool"@,
        "timestamp"@ != "list<string>"@,
        "float32"@ != "bool"@,
        "float32"@ != "list<string>"@,
        "bool"@ != "list<string>"@,
{
    reveal_strlit("string");
    reveal_strlit("text");
    reveal_strlit("int64");
    reveal_strlit("timestamp");
    reveal_strlit("float32");
    reveal_strlit("bool");
    reveal_strlit("list<string>");
    assert("string"@.len() == 6);
    assert("text"@.len() == 4);
    assert("int64"@.len() == 5);
    assert("timestamp"@.len() == 9);
    assert("float32"@.len() == 7);
    assert("bool"@.len() == 4);
    assert("list<string>"@.len() == 12);
    assert("text"@[0] == 't');
    assert("bool"@[0] == 'b');
}

/// A literal denotes its value, and a value of the type has one.
pub proof fn law_literals_denote_their_values(t: Seq<char>, v: JsonV)
    ensures
        query::literal(t, v) matches Ok(l) ==> denotes(t, l, v),
        query::literal(t, v) is Ok <==> has_literal(t, v),
{
    lemma_type_names();
    match query::literal(t, v) {
        Ok(l) => {
            match v {
                JsonV::Str(s) => {
                    text::law_escape_reads_back(s);
                    assert(l.subrange(1, l.len() - 1) =~= text::escaped(s));
                },
                JsonV::Num(n) => {
                    match n {
                        NumberV::Int(i) => {
                            lemma_signed_reads_back(i);
                        },
                        _ => {},
                    }
                },
                _ => {},
            }
            assert(denotes(t, l, v));
        },
        Err(_) => {
            assert forall|l: Seq<char>| !denotes(t, l, v) by {}
        },
    }
}

proof fn lemma_alone(s: Seq<char>)
    ensures
        text::joined(seq![s], " AND "@) == s,
{
}

/// Whether a literal of the type denotes the value.
pub open spec fn has_literal(t: Seq<char>, v: JsonV) -> bool {
    exists|l: Seq<char>| denotes(t, l, v)
}

/// Whether `s` is a field, a sign and a literal that denotes the value.
pub open spec fn compares(
    t: Seq<char>,
    s: Seq<char>,
    n: Seq<char>,
    sign: Seq<char>,
    v: JsonV,
) -> bool {
    exists|l: Seq<char>| denotes(t, l, v) && s == n + sign + l
}

/// A comparison compiles to the name of its field, the sign of its operator and
/// a literal that denotes its value: `=` for equal, `!=` for unequal, and `>`,
/// `>=`, `<`, `<=`. It compiles exactly where the field is declared and the
/// value is one of its type.
pub proof fn law_comparisons_say_their_signs(c: SchemaConfig, p: PredV)
    requires
        comparison(p) is Some,
    ensures
        ({
            let (n, sign, v) = comparison(p)->0;
            let r = query::filter_sql(c, p);
            &&& r is Ok <==> declared(c, n) is Some && has_literal(declared(c, n)->0, v)
            &&& r is Ok ==> compares(declared(c, n)->0, r->Ok_0, n, sign, v)
        }),
{
    let (n, sign, v) = comparison(p)->0;
    match query::field_type(c, n) {
        Ok(t) => {
            assert(declared(c, n) == Some(t));
            law_literals_denote_their_values(t, v);
            match query::literal(t, v) {
                Ok(l) => {
                    lemma_alone(n + sign + l);
                    assert(denotes(t, l, v));
                    assert(compares(t, n + sign + l, n, sign, v));
                    assert(query::compare_sql(c, n, sign, v) == Ok::<Seq<char>, Seq<char>>(
                        n + sign + l,
                    ));
                },
                Err(m) => {
                    assert(query::compare_sql(c, n, sign, v) == Err::<Seq<char>, Seq<char>>(m));
                },
            }
        },
        Err(m) => {
            assert(query::compare_sql(c, n, sign, v) == Err::<Seq<char>, Seq<char>>(m));
        },
    }
    assert(query::conditions(c, p) == query::one(query::compare_sql(c, n, sign, v)));
}

/// A test whether a field is there compiles to a test against null.
pub proof fn law_presence_is_a_null_test(c: SchemaConfig, n: Seq<char>, yes: bool)
    ensures
        query::filter_sql(c, PredV::Exists(n, yes)) is Ok <==> declared(c, n) is Some,
        query::filter_sql(c, PredV::Exists(n, yes)) matches Ok(s) ==> s == n + (if yes {
            " IS NOT NULL"@
        } else {
            " IS NULL"@
        }),
{
    lemma_alone(
        n + (if yes {
            " IS NOT NULL"@
        } else {
            " IS NULL"@
        }),
    );
}

/// Whether literals denote values, one for one.
pub open spec fn all_denote(t: Seq<char>, ls: Seq<Seq<char>>, vs: Seq<JsonV>) -> bool {
    &&& ls.len() == vs.len()
    &&& forall|i: int| 0 <= i < ls.len() ==> denotes(t, #[trigger] ls[i], vs[i])
}

/// Whether tests for items of a list stand for values, one for one.
pub open spec fn all_held(n: Seq<char>, ms: Seq<Seq<char>>, vs: Seq<JsonV>) -> bool {
    &&& ms.len() == vs.len()
    &&& forall|i: int| 0 <= i < ms.len() ==> held(n, #[trigger] ms[i], vs[i])
}

/// Whether a test asks whether the list `n` has the text `v`.
pub open spec fn held(n: Seq<char>, m: Seq<char>, v: JsonV) -> bool {
    exists|l: Seq<char>| #[trigger]
        denotes("string"@, l, v) && m == "array_has("@ + n + ", "@ + l + ")"@
}

proof fn lemma_literals_denote(t: Seq<char>, vs: Seq<JsonV>, n: nat)
    requires
        n <= vs.len(),
    ensures
        query::literals(t, vs, n) matches Ok(ls) ==> all_denote(t, ls, vs.take(n as int)),
    decreases n,
{
    if n > 0 {
        lemma_literals_denote(t, vs, (n - 1) as nat);
        law_literals_denote_their_values(t, vs[n - 1]);
        match query::literals(t, vs, n) {
            Ok(ls) => {
                let us = query::literals(t, vs, (n - 1) as nat)->Ok_0;
                assert forall|i: int| 0 <= i < ls.len() implies denotes(
                    t,
                    #[trigger] ls[i],
                    vs.take(n as int)[i],
                ) by {
                    if i < us.len() {
                        assert(ls[i] == us[i]);
                        assert(vs.take(n - 1)[i] == vs[i]);
                    }
                }
            },
            Err(_) => {},
        }
    }
}

proof fn lemma_memberships_hold(name: Seq<char>, vs: Seq<JsonV>, n: nat)
    requires
        n <= vs.len(),
    ensures
        query::memberships(name, vs, n) matches Ok(ms) ==> all_held(name, ms, vs.take(n as int)),
    decreases n,
{
    if n > 0 {
        lemma_memberships_hold(name, vs, (n - 1) as nat);
        lemma_type_names();
        match query::memberships(name, vs, n) {
            Ok(ms) => {
                let us = query::memberships(name, vs, (n - 1) as nat)->Ok_0;
                assert forall|i: int| 0 <= i < ms.len() implies held(
                    name,
                    #[trigger] ms[i],
                    vs.take(n as int)[i],
                ) by {
                    if i < us.len() {
                        assert(ms[i] == us[i]);
                        assert(vs.take(n - 1)[i] == vs[i]);
                    } else {
                        law_literals_denote_their_values("string"@, vs[n - 1]);
                        let l = text::quoted(vs[n - 1]->Str_0);
                        assert(query::literal("string"@, vs[n - 1]) == Ok::<Seq<char>, Seq<char>>(
                            l,
                        ));
                        assert(denotes("string"@, l, vs[n - 1]));
                    }
                }
            },
            Err(_) => {},
        }
    }
}

/// Whether `s` asks of the list `n` whether it has one of the values, or that it
/// has none.
pub open spec fn asks_list(s: Seq<char>, n: Seq<char>, vs: Seq<JsonV>, yes: bool) -> bool {
    exists|ms: Seq<Seq<char>>| #[trigger]
        all_held(n, ms, vs) && s == (if yes {
            "("@ + text::joined(ms, " OR "@) + ")"@
        } else {
            "NOT "@ + ("("@ + text::joined(ms, " OR "@) + ")"@)
        })
}

/// Whether `s` asks whether `n` is among the values, or that it is not.
pub open spec fn asks_among(
    t: Seq<char>,
    s: Seq<char>,
    n: Seq<char>,
    vs: Seq<JsonV>,
    yes: bool,
) -> bool {
    exists|ls: Seq<Seq<char>>| #[trigger]
        all_denote(t, ls, vs) && s == n + (if yes {
            " IN ("@
        } else {
            " NOT IN ("@
        }) + text::joined(ls, ", "@) + ")"@
}

/// A membership test names its field, says whether the value is to be among the
/// values or not, and lists a literal for each of them, in their order. Of a list
/// it asks for each of them whether the list has it.
pub proof fn law_memberships_list_their_values(
    c: SchemaConfig,
    n: Seq<char>,
    vs: Seq<JsonV>,
    yes: bool,
)
    ensures
        ({
            let p = if yes {
                PredV::In(n, vs)
            } else {
                PredV::Nin(n, vs)
            };
            let r = query::filter_sql(c, p);
            r is Ok ==> declared(c, n) is Some && if declared(c, n) == Some("list<string>"@) {
                asks_list(r->Ok_0, n, vs, yes)
            } else {
                asks_among(declared(c, n)->0, r->Ok_0, n, vs, yes)
            }
        }),
{
    let p = if yes {
        PredV::In(n, vs)
    } else {
        PredV::Nin(n, vs)
    };
    assert(vs.take(vs.len() as int) =~= vs);
    lemma_type_names();
    assert(query::conditions(c, p) == query::one(query::member_sql(c, n, vs, yes)));
    match query::member_sql(c, n, vs, yes) {
        Ok(s) => {
            lemma_alone(s);
            assert(query::filter_sql(c, p) == Ok::<Seq<char>, Seq<char>>(s));
            let t = query::member_type(c, n)->Ok_0;
            assert(declared(c, n) == Some(t));
            if t == "list<string>"@ {
                lemma_memberships_hold(n, vs, vs.len());
                let ms = query::memberships(n, vs, vs.len())->Ok_0;
                assert(all_held(n, ms, vs));
                assert(asks_list(s, n, vs, yes));
            } else {
                lemma_literals_denote(t, vs, vs.len());
                let ls = query::literals(t, vs, vs.len())->Ok_0;
                assert(all_denote(t, ls, vs));
                assert(asks_among(t, s, n, vs, yes));
            }
        },
        Err(_) => {},
    }
}

// ---------------------------------------------------------------------------
// Conjunctions and disjunctions
// ---------------------------------------------------------------------------

/// Whether an expression holds a test at all.
pub open spec fn says_something(p: PredV) -> bool
    decreases p,
{
    match p {
        PredV::And(ps) => exists|i: int| 0 <= i < ps.len() && says_something(#[trigger] ps[i]),
        _ => true,
    }
}

/// The SQL of each of some expressions.
pub open spec fn all_sql(c: SchemaConfig, ps: Seq<PredV>) -> Seq<Seq<char>> {
    Seq::new(ps.len(), |i: int| query::filter_sql(c, ps[i])->Ok_0)
}

/// Whether all of some expressions compile.
pub open spec fn all_compile(c: SchemaConfig, ps: Seq<PredV>) -> bool {
    forall|i: int| 0 <= i < ps.len() ==> query::filter_sql(c, #[trigger] ps[i]) is Ok
}

proof fn lemma_joined_more(a: Seq<Seq<char>>, b: Seq<Seq<char>>, sep: Seq<char>)
    requires
        a.len() > 0,
        b.len() > 0,
    ensures
        text::joined(a + b, sep) == text::joined(a, sep) + sep + text::joined(b, sep),
    decreases b.len(),
{
    let all = a + b;
    assert(all.drop_last() =~= a + b.drop_last());
    assert(all.last() == b.last());
    if b.len() == 1 {
        assert(a + b.drop_last() =~= a);
    } else {
        lemma_joined_more(a, b.drop_last(), sep);
        assert(text::joined(all, sep) =~= text::joined(a, sep) + sep + text::joined(b, sep));
    }
}

proof fn lemma_conditions_there(c: SchemaConfig, p: PredV)
    requires
        query::conditions(c, p) is Ok,
    ensures
        says_something(p) ==> query::conditions(c, p)->Ok_0.len() > 0,
    decreases p, 0nat,
{
    match p {
        PredV::And(ps) => {
            if says_something(p) {
                let i = choose|i: int| 0 <= i < ps.len() && says_something(#[trigger] ps[i]);
                lemma_conjunct_there(c, ps, i, ps.len());
            }
        },
        _ => {},
    }
}

proof fn lemma_conjunct_there(c: SchemaConfig, ps: Seq<PredV>, i: int, n: nat)
    requires
        0 <= i < n <= ps.len(),
        says_something(ps[i]),
        query::conjuncts(c, ps, n) is Ok,
    ensures
        query::conjuncts(c, ps, n)->Ok_0.len() > 0,
    decreases ps, n,
{
    if i == n - 1 {
        lemma_conditions_there(c, ps[i]);
    } else {
        lemma_conjunct_there(c, ps, i, (n - 1) as nat);
    }
}

proof fn lemma_conjuncts_joined(c: SchemaConfig, ps: Seq<PredV>, n: nat)
    requires
        n <= ps.len(),
        forall|i: int| 0 <= i < ps.len() ==> says_something(#[trigger] ps[i]),
        all_compile(c, ps),
    ensures
        query::conjuncts(c, ps, n) is Ok,
        n > 0 ==> query::conjuncts(c, ps, n)->Ok_0.len() > 0 && text::joined(
            query::conjuncts(c, ps, n)->Ok_0,
            " AND "@,
        ) == text::joined(all_sql(c, ps).take(n as int), " AND "@),
    decreases n,
{
    if n > 0 {
        let m = (n - 1) as nat;
        lemma_conjuncts_joined(c, ps, m);
        let p = ps[n - 1];
        assert(query::filter_sql(c, p) is Ok);
        lemma_conditions_there(c, p);
        let cs = query::conjuncts(c, ps, m)->Ok_0;
        let ds = query::conditions(c, p)->Ok_0;
        let sqls = all_sql(c, ps).take(n as int);
        assert(sqls.last() == text::joined(ds, " AND "@));
        assert(sqls.drop_last() =~= all_sql(c, ps).take(m as int));
        if m == 0 {
            assert(cs + ds =~= ds);
        } else {
            lemma_joined_more(cs, ds, " AND "@);
        }
    }
}

proof fn lemma_conjunct_fails(c: SchemaConfig, ps: Seq<PredV>, i: int, n: nat)
    requires
        0 <= i < n <= ps.len(),
        query::filter_sql(c, ps[i]) is Err,
    ensures
        query::conjuncts(c, ps, n) is Err,
        query::branches(c, ps, n) is Err,
    decreases n,
{
    if i < n - 1 {
        lemma_conjunct_fails(c, ps, i, (n - 1) as nat);
    }
}

/// The parts of a conjunction stand side by side with AND between them, each as
/// it compiles by itself; a part that does not compile fails the whole.
pub proof fn law_conjunctions_join_with_and(c: SchemaConfig, ps: Seq<PredV>)
    requires
        ps.len() > 0,
        forall|i: int| 0 <= i < ps.len() ==> says_something(#[trigger] ps[i]),
    ensures
        query::filter_sql(c, PredV::And(ps)) is Ok <==> all_compile(c, ps),
        all_compile(c, ps) ==> query::filter_sql(c, PredV::And(ps)) == Ok::<Seq<char>, Seq<char>>(
            text::joined(all_sql(c, ps), " AND "@),
        ),
{
    if all_compile(c, ps) {
        lemma_conjuncts_joined(c, ps, ps.len());
        assert(all_sql(c, ps).take(ps.len() as int) =~= all_sql(c, ps));
    } else {
        let i = choose|i: int| 0 <= i < ps.len() && query::filter_sql(c, #[trigger] ps[i]) is Err;
        lemma_conjunct_fails(c, ps, i, ps.len());
    }
}

proof fn lemma_branches_joined(c: SchemaConfig, ps: Seq<PredV>, n: nat)
    requires
        n <= ps.len(),
        forall|i: int| 0 <= i < ps.len() ==> says_something(#[trigger] ps[i]),
        all_compile(c, ps),
    ensures
        query::branches(c, ps, n) == Ok::<Seq<Seq<char>>, Seq<char>>(
            Seq::new(n, |i: int| "("@ + all_sql(c, ps)[i] + ")"@),
        ),
    decreases n,
{
    if n > 0 {
        let m = (n - 1) as nat;
        lemma_branches_joined(c, ps, m);
        let p = ps[n - 1];
        assert(query::filter_sql(c, p) is Ok);
        lemma_conditions_there(c, p);
        let bs = query::branches(c, ps, n)->Ok_0;
        assert(bs =~= Seq::new(n, |i: int| "("@ + all_sql(c, ps)[i] + ")"@));
    } else {
        assert(query::branches(c, ps, 0)->Ok_0 =~= Seq::new(
            0,
            |i: int| "("@ + all_sql(c, ps)[i] + ")"@,
        ));
    }
}

/// The parts of a disjunction stand in brackets, each as it compiles by itself,
/// with OR between them and brackets around all; a part that does not compile
/// fails the whole.
pub proof fn law_disjunctions_join_with_or(c: SchemaConfig, ps: Seq<PredV>)
    requires
        forall|i: int| 0 <= i < ps.len() ==> says_something(#[trigger] ps[i]),
    ensures
        query::filter_sql(c, PredV::Or(ps)) is Ok <==> all_compile(c, ps),
        all_compile(c, ps) ==> query::filter_sql(c, PredV::Or(ps)) == Ok::<Seq<char>, Seq<char>>(
            "("@ + text::joined(
                Seq::new(ps.len(), |i: int| "("@ + all_sql(c, ps)[i] + ")"@),
                " OR "@,
            ) + ")"@,
        ),
{
    if all_compile(c, ps) {
        lemma_branches_joined(c, ps, ps.len());
        let bs = query::branches(c, ps, ps.len())->Ok_0;
        lemma_alone("("@ + text::joined(bs, " OR "@) + ")"@);
    } else {
        let i = choose|i: int| 0 <= i < ps.len() && query::filter_sql(c, #[trigger] ps[i]) is Err;
        lemma_conjunct_fails(c, ps, i, ps.len());
    }
}

/// Without a test all rows pass, and raw SQL stands as it is.
pub proof fn law_empty_and_raw_filters(c: SchemaConfig, s: Seq<char>)
    ensures
        query::filter_sql(c, PredV::And(Seq::empty())) == Ok::<Seq<char>, Seq<char>>("TRUE"@),
        query::filter_sql(c, PredV::Raw(s)) == Ok::<Seq<char>, Seq<char>>(s),
{
    lemma_alone(s);
    assert(query::conjuncts(c, Seq::empty(), 0) == Ok::<Seq<Seq<char>>, Seq<char>>(Seq::empty()));
}

// ---------------------------------------------------------------------------
// What a JSON filter says
// ---------------------------------------------------------------------------

/// The filter that applies one operator to one field.
pub open spec fn applied(k: Seq<char>, op: Seq<char>, v: JsonV) -> JsonV {
    JsonV::Obj(seq![(k, JsonV::Obj(seq![(op, v)]))])
}

/// The filter that gives one field a value.
pub open spec fn given(k: Seq<char>, v: JsonV) -> JsonV {
    JsonV::Obj(seq![(k, v)])
}

proof fn lemma_one_entry(k: Seq<char>, v: JsonV)
    requires
        k != "$and"@,
        k != "$or"@,
    ensures
        query::pred_of(given(k, v)) == (match v {
            JsonV::Obj(ops) => if query::all_operators(ops) {
                match query::operator_preds(k, ops, ops.len()) {
                    Ok(qs) => Ok(
                        if qs.len() == 1 {
                            qs[0]
                        } else {
                            PredV::And(qs)
                        },
                    ),
                    Err(m) => Err::<PredV, Seq<char>>(m),
                }
            } else {
                Ok(PredV::Eq(k, v))
            },
            _ => Ok(PredV::Eq(k, v)),
        }),
{
    let e = seq![(k, v)];
    assert(e[0] == (k, v));
    assert(query::entries_preds(e, 0) == Ok::<Seq<PredV>, Seq<char>>(Seq::empty()));
    let none = Seq::<PredV>::empty();
    match v {
        JsonV::Obj(ops) => {
            if query::all_operators(ops) {
                match query::operator_preds(k, ops, ops.len()) {
                    Ok(qs) => {
                        assert(none + qs =~= qs);
                        assert(query::entries_preds(e, 1) == Ok::<Seq<PredV>, Seq<char>>(
                            none + qs,
                        ));
                    },
                    Err(m) => {
                        assert(query::entries_preds(e, 1) == Err::<Seq<PredV>, Seq<char>>(m));
                    },
                }
            } else {
                assert(query::entries_preds(e, 1) == Ok::<Seq<PredV>, Seq<char>>(
                    none.push(PredV::Eq(k, v)),
                ));
                assert(none.push(PredV::Eq(k, v))[0] == PredV::Eq(k, v));
            }
        },
        _ => {
            assert(query::entries_preds(e, 1) == Ok::<Seq<PredV>, Seq<char>>(
                none.push(PredV::Eq(k, v)),
            ));
            assert(none.push(PredV::Eq(k, v))[0] == PredV::Eq(k, v));
        },
    }
}

proof fn lemma_one_operator(k: Seq<char>, op: Seq<char>, v: JsonV)
    requires
        k != "$and"@,
        k != "$or"@,
        op.len() > 0,
        op[0] == '$',
    ensures
        query::pred_of(applied(k, op, v)) == query::operator_pred(k, op, v),
{
    reveal_strlit("$");
    let ops = seq![(op, v)];
    assert("$"@.len() == 1);
    assert(op.subrange(0, 1) =~= "$"@);
    assert("$"@.is_prefix_of(op));
    assert(query::all_operators(ops)) by {
        assert forall|i: int| 0 <= i < ops.len() implies "$"@.is_prefix_of((#[trigger] ops[i]).0) by {
            assert(ops[i].0 == op);
        }
    }
    lemma_one_entry(k, JsonV::Obj(ops));
    assert(ops[0] == (op, v));
    assert(query::operator_preds(k, ops, 0) == Ok::<Seq<PredV>, Seq<char>>(Seq::empty()));
    match query::operator_pred(k, op, v) {
        Ok(p) => {
            assert(query::operator_preds(k, ops, 1) == Ok::<Seq<PredV>, Seq<char>>(
                Seq::<PredV>::empty().push(p),
            ));
        },
        Err(m) => {
            assert(query::operator_preds(k, ops, 1) == Err::<Seq<PredV>, Seq<char>>(m));
        },
    }
}

proof fn lemma_operator_names()
    ensures
        "$eq"@ != "$ne"@,
        "$eq"@ != "$gt"@,
        "$eq"@ != "$lt"@,
        "$eq"@ != "$in"@,
        "$ne"@ != "$gt"@,
        "$ne"@ != "$lt"@,
        "$ne"@ != "$in"@,
        "$gt"@ != "$lt"@,
        "$gt"@ != "$in"@,
        "$lt"@ != "$in"@,
        "$nin"@ != "$gte"@,
        "$nin"@ != "$lte"@,
        "$gte"@ != "$lte"@,
        "$eq"@.len() == 3,
        "$ne"@.len() == 3,
        "$gt"@.len() == 3,
        "$lt"@.len() == 3,
        "$in"@.len() == 3,
        "$nin"@.len() == 4,
        "$gte"@.len() == 4,
        "$lte"@.len() == 4,
        "$exists"@.len() == 7,
        "$eq"@[0] == '$',
        "$ne"@[0] == '$',
        "$gt"@[0] == '$',
        "$lt"@[0] == '$',
        "$in"@[0] == '$',
        "$nin"@[0] == '$',
        "$gte"@[0] == '$',
        "$lte"@[0] == '$',
        "$exists"@[0] == '$',
{
    reveal_strlit("$eq");
    reveal_strlit("$ne");
    reveal_strlit("$gt");
    reveal_strlit("$lt");
    reveal_strlit("$in");
    reveal_strlit("$nin");
    reveal_strlit("$gte");
    reveal_strlit("$lte");
    reveal_strlit("$exists");
    assert("$eq"@[1] == 'e');
    assert("$ne"@[1] == 'n');
    assert("$gt"@[1] == 'g');
    assert("$lt"@[1] == 'l');
    assert("$in"@[1] == 'i');
    assert("$nin"@[1] == 'n');
    assert("$gte"@[1] == 'g');
    assert("$lte"@[1] == 'l');
}

/// Each operator of a JSON filter is read as what it is called: a value alone and
/// `$eq` as equal, `$ne` as unequal, `$gt`, `$gte`, `$lt` and `$lte` as the
/// comparisons, `$in` and `$nin` with a list as membership and its opposite, and
/// `$exists` as presence.
pub proof fn law_operators_are_read(k: Seq<char>, v: JsonV, vs: Seq<JsonV>, yes: bool)
    requires
        k != "$and"@,
        k != "$or"@,
    ensures
        query::pred_of(applied(k, "$eq"@, v)) == Ok::<PredV, Seq<char>>(PredV::Eq(k, v)),
        query::pred_of(applied(k, "$ne"@, v)) == Ok::<PredV, Seq<char>>(PredV::Ne(k, v)),
        query::pred_of(applied(k, "$gt"@, v)) == Ok::<PredV, Seq<char>>(PredV::Gt(k, v)),
        query::pred_of(applied(k, "$gte"@, v)) == Ok::<PredV, Seq<char>>(PredV::Gte(k, v)),
        query::pred_of(applied(k, "$lt"@, v)) == Ok::<PredV, Seq<char>>(PredV::Lt(k, v)),
        query::pred_of(applied(k, "$lte"@, v)) == Ok::<PredV, Seq<char>>(PredV::Lte(k, v)),
        query::pred_of(applied(k, "$in"@, JsonV::Arr(vs))) == Ok::<PredV, Seq<char>>(
            PredV::In(k, vs),
        ),
        query::pred_of(applied(k, "$nin"@, JsonV::Arr(vs))) == Ok::<PredV, Seq<char>>(
            PredV::Nin(k, vs),
        ),
        query::pred_of(applied(k, "$exists"@, JsonV::Bool(yes))) == Ok::<PredV, Seq<char>>(
            PredV::Exists(k, yes),
        ),
        !(v is Obj) ==> query::pred_of(given(k, v)) == Ok::<PredV, Seq<char>>(PredV::Eq(k, v)),
        !(v is Arr) ==> query::pred_of(applied(k, "$in"@, v)) is Err && query::pred_of(
            applied(k, "$nin"@, v),
        ) is Err,
{
    lemma_operator_names();
    lemma_one_entry(k, v);
    lemma_one_operator(k, "$eq"@, v);
    lemma_one_operator(k, "$ne"@, v);
    lemma_one_operator(k, "$gt"@, v);
    lemma_one_operator(k, "$gte"@, v);
    lemma_one_operator(k, "$lt"@, v);
    lemma_one_operator(k, "$lte"@, v);
    lemma_one_operator(k, "$in"@, v);
    lemma_one_operator(k, "$nin"@, v);
    lemma_one_operator(k, "$in"@, JsonV::Arr(vs));
    lemma_one_operator(k, "$nin"@, JsonV::Arr(vs));
    lemma_one_operator(k, "$exists"@, JsonV::Bool(yes));
}

/// An operator by any other name is an error.
pub proof fn law_other_operators_are_refused(k: Seq<char>, op: Seq<char>, v: JsonV)
    requires
        k != "$and"@,
        k != "$or"@,
        op.len() > 0,
        op[0] == '$',
        op != "$eq"@ && op != "$ne"@ && op != "$gt"@ && op != "$gte"@ && op != "$lt"@ && op
            != "$lte"@ && op != "$in"@ && op != "$nin"@ && op != "$exists"@,
    ensures
        query::pred_of(applied(k, op, v)) is Err,
{
    lemma_one_operator(k, op, v);
}

/// The filter that one entry of an object is by itself.
pub open spec fn alone(e: Seq<(Seq<char>, JsonV)>, i: int) -> JsonV {
    JsonV::Obj(seq![e[i]])
}

/// The expressions of entry `n - 1` alone.
proof fn lemma_entry_alone(e: Seq<(Seq<char>, JsonV)>, n: nat)
    requires
        0 < n <= e.len(),
        query::entries_preds(e, (n - 1) as nat) is Ok,
    ensures
        match query::entries_preds(seq![e[n - 1]], 1) {
            Ok(qs) => query::entries_preds(e, n) == Ok::<Seq<PredV>, Seq<char>>(
                query::entries_preds(e, (n - 1) as nat)->Ok_0 + qs,
            ),
            Err(m) => query::entries_preds(e, n) == Err::<Seq<PredV>, Seq<char>>(m),
        },
{
    let ps = query::entries_preds(e, (n - 1) as nat)->Ok_0;
    let one = seq![e[n - 1]];
    assert(one[0] == e[n - 1]);
    assert(query::entries_preds(one, 0) == Ok::<Seq<PredV>, Seq<char>>(Seq::empty()));
    let none = Seq::<PredV>::empty();
    match query::entries_preds(one, 1) {
        Ok(qs) => {
            let now = query::entries_preds(e, n)->Ok_0;
            assert(now =~= ps + qs);
        },
        Err(_) => {},
    }
}

proof fn lemma_and_rows(ps: Seq<PredV>, d: RecordV)
    ensures
        query::matches_row(PredV::And(ps), d) <==> forall|i: int|
            0 <= i < ps.len() ==> query::matches_row(#[trigger] ps[i], d),
{
    reveal_with_fuel(query::matches_row, 2);
    let p = PredV::And(ps);
    let qs = p->And_0;
    if query::matches_row(p, d) {
        assert forall|i: int| 0 <= i < ps.len() implies query::matches_row(
            #[trigger] ps[i],
            d,
        ) by {
            assert(qs[i] == ps[i]);
        }
    }
    if forall|i: int| 0 <= i < ps.len() ==> query::matches_row(#[trigger] ps[i], d) {
        assert forall|i: int| 0 <= i < qs.len() implies query::matches_row(
            #[trigger] qs[i],
            d,
        ) by {
            assert(qs[i] == ps[i]);
        }
    }
}

proof fn lemma_or_rows(ps: Seq<PredV>, d: RecordV)
    ensures
        query::matches_row(PredV::Or(ps), d) <==> exists|i: int|
            0 <= i < ps.len() && query::matches_row(#[trigger] ps[i], d),
{
    reveal_with_fuel(query::matches_row, 2);
    let p = PredV::Or(ps);
    let qs = p->Or_0;
    if query::matches_row(p, d) {
        let i = choose|i: int| 0 <= i < qs.len() && query::matches_row(#[trigger] qs[i], d);
        assert(query::matches_row(ps[i], d));
    }
    if exists|i: int| 0 <= i < ps.len() && query::matches_row(#[trigger] ps[i], d) {
        let i = choose|i: int| 0 <= i < ps.len() && query::matches_row(#[trigger] ps[i], d);
        assert(query::matches_row(qs[i], d));
    }
}

proof fn lemma_all_rows(ps: Seq<PredV>, qs: Seq<PredV>, d: RecordV)
    ensures
        query::matches_row(PredV::And(ps + qs), d) <==> query::matches_row(PredV::And(ps), d)
            && query::matches_row(PredV::And(qs), d),
{
    let all = ps + qs;
    lemma_and_rows(ps, d);
    lemma_and_rows(qs, d);
    lemma_and_rows(all, d);
    if query::matches_row(PredV::And(all), d) {
        assert forall|i: int| 0 <= i < ps.len() implies query::matches_row(
            #[trigger] ps[i],
            d,
        ) by {
            assert(all[i] == ps[i]);
        }
        assert forall|i: int| 0 <= i < qs.len() implies query::matches_row(
            #[trigger] qs[i],
            d,
        ) by {
            assert(all[ps.len() + i] == qs[i]);
        }
    }
}

proof fn lemma_entries_rows(e: Seq<(Seq<char>, JsonV)>, n: nat, d: RecordV)
    requires
        n <= e.len(),
    ensures
        query::entries_preds(e, n) is Ok <==> forall|i: int|
            0 <= i < n ==> query::pred_of(#[trigger] alone(e, i)) is Ok,
        query::entries_preds(e, n) matches Ok(ps) ==> (query::matches_row(PredV::And(ps), d)
            <==> forall|i: int|
            0 <= i < n ==> query::matches_row(query::pred_of(#[trigger] alone(e, i))->Ok_0, d)),
    decreases n,
{
    if n > 0 {
        let m = (n - 1) as nat;
        lemma_entries_rows(e, m, d);
        let one = seq![e[n - 1]];
        assert(alone(e, n - 1) == JsonV::Obj(one));
        match query::entries_preds(e, m) {
            Ok(ps) => {
                lemma_entry_alone(e, n);
                match query::entries_preds(one, 1) {
                    Ok(qs) => {
                        lemma_all_rows(ps, qs, d);
                        lemma_and_rows(qs, d);
                        let p = query::pred_of(alone(e, n - 1))->Ok_0;
                        if qs.len() == 1 {
                            assert(p == qs[0]);
                            assert(query::matches_row(PredV::And(qs), d) <==> query::matches_row(
                                qs[0],
                                d,
                            ));
                        }
                        let holds = query::matches_row(PredV::And(ps + qs), d);
                        assert(query::matches_row(PredV::And(qs), d) <==> query::matches_row(p, d));
                        if holds {
                            assert forall|i: int| 0 <= i < n implies query::matches_row(
                                query::pred_of(#[trigger] alone(e, i))->Ok_0,
                                d,
                            ) by {}
                        }
                        if forall|i: int|
                            0 <= i < n ==> query::matches_row(
                                query::pred_of(#[trigger] alone(e, i))->Ok_0,
                                d,
                            ) {
                            assert(query::matches_row(
                                query::pred_of(alone(e, n - 1))->Ok_0,
                                d,
                            ));
                        }
                        assert forall|i: int| 0 <= i < n implies query::pred_of(
                            #[trigger] alone(e, i),
                        ) is Ok by {}
                    },
                    Err(_) => {
                        assert(query::pred_of(alone(e, n - 1)) is Err);
                    },
                }
            },
            Err(_) => {
                assert(query::entries_preds(e, n) is Err);
                let i = choose|i: int|
                    0 <= i < m && query::pred_of(#[trigger] alone(e, i)) is Err;
                assert(query::pred_of(alone(e, i)) is Err);
            },
        }
    }
}

/// The entries of a filter are taken together: a row passes the filter exactly
/// if it passes each entry by itself, and the filter is well formed exactly if
/// each entry is.
pub proof fn law_entries_are_taken_together(e: Seq<(Seq<char>, JsonV)>, d: RecordV)
    ensures
        query::pred_of(JsonV::Obj(e)) is Ok <==> forall|i: int|
            0 <= i < e.len() ==> query::pred_of(#[trigger] alone(e, i)) is Ok,
        query::pred_of(JsonV::Obj(e)) matches Ok(p) ==> (query::matches_row(p, d) <==> forall|
            i: int,
        |
            0 <= i < e.len() ==> query::matches_row(
                query::pred_of(#[trigger] alone(e, i))->Ok_0,
                d,
            )),
{
    lemma_entries_rows(e, e.len(), d);
    match query::entries_preds(e, e.len()) {
        Ok(ps) => {
            if ps.len() == 1 {
                lemma_and_rows(ps, d);
                assert(query::matches_row(PredV::And(ps), d) <==> query::matches_row(ps[0], d));
            }
        },
        Err(_) => {},
    }
}

/// Several operators on one field are taken together.
pub proof fn law_operators_are_taken_together(
    k: Seq<char>,
    a: (Seq<char>, JsonV),
    b: (Seq<char>, JsonV),
    d: RecordV,
)
    requires
        k != "$and"@,
        k != "$or"@,
        a.0.len() > 0 && a.0[0] == '$',
        b.0.len() > 0 && b.0[0] == '$',
        query::pred_of(applied(k, a.0, a.1)) is Ok,
        query::pred_of(applied(k, b.0, b.1)) is Ok,
    ensures
        ({
            let r = query::pred_of(given(k, JsonV::Obj(seq![a, b])));
            r is Ok && (query::matches_row(r->Ok_0, d) <==> query::matches_row(
                query::pred_of(applied(k, a.0, a.1))->Ok_0,
                d,
            ) && query::matches_row(query::pred_of(applied(k, b.0, b.1))->Ok_0, d))
        }),
{
    reveal_strlit("$");
    let ops = seq![a, b];
    lemma_one_operator(k, a.0, a.1);
    lemma_one_operator(k, b.0, b.1);
    assert("$"@.len() == 1);
    assert(a.0.subrange(0, 1) =~= "$"@);
    assert(b.0.subrange(0, 1) =~= "$"@);
    assert(query::all_operators(ops)) by {
        assert forall|i: int| 0 <= i < ops.len() implies "$"@.is_prefix_of((#[trigger] ops[i]).0) by {
            if i == 0 {
                assert(ops[i] == a);
            } else {
                assert(ops[i] == b);
            }
        }
    }
    lemma_one_entry(k, JsonV::Obj(ops));
    let p = query::operator_pred(k, a.0, a.1)->Ok_0;
    let q = query::operator_pred(k, b.0, b.1)->Ok_0;
    let none = Seq::<PredV>::empty();
    assert(ops[0] == a && ops[1] == b);
    assert(query::operator_preds(k, ops, 0) == Ok::<Seq<PredV>, Seq<char>>(none));
    assert(query::operator_preds(k, ops, 1) == Ok::<Seq<PredV>, Seq<char>>(none.push(p)));
    assert(query::operator_preds(k, ops, 2) == Ok::<Seq<PredV>, Seq<char>>(none.push(p).push(q)));
    let both = none.push(p).push(q);
    assert(both[0] == p && both[1] == q);
    lemma_and_rows(both, d);
    assert(query::matches_row(PredV::And(both), d) <==> query::matches_row(p, d)
        && query::matches_row(q, d));
}

proof fn lemma_list_read(a: Seq<JsonV>, n: nat)
    requires
        n <= a.len(),
    ensures
        query::list_preds(a, n) is Ok <==> forall|i: int|
            0 <= i < n ==> query::pred_of(#[trigger] a[i]) is Ok,
        query::list_preds(a, n) matches Ok(ps) ==> ps.len() == n && forall|i: int|
            0 <= i < n ==> query::pred_of(a[i]) == Ok::<PredV, Seq<char>>(#[trigger] ps[i]),
    decreases n,
{
    if n > 0 {
        lemma_list_read(a, (n - 1) as nat);
        match query::list_preds(a, (n - 1) as nat) {
            Ok(_) => {
                if query::pred_of(a[n - 1]) is Ok {
                    assert forall|i: int| 0 <= i < n implies query::pred_of(
                        #[trigger] a[i],
                    ) is Ok by {}
                }
            },
            Err(_) => {
                let i = choose|i: int| 0 <= i < n - 1 && query::pred_of(#[trigger] a[i]) is Err;
                assert(query::pred_of(a[i]) is Err);
            },
        }
    }
}

/// A row passes `$and` if it passes all filters of the list, and `$or` if it
/// passes one of them; both are well formed exactly if all filters of the list
/// are.
pub proof fn law_and_or_mean_all_and_one(a: Seq<JsonV>, d: RecordV)
    ensures
        ({
            let both = query::pred_of(given("$and"@, JsonV::Arr(a)));
            let either = query::pred_of(given("$or"@, JsonV::Arr(a)));
            let fine = forall|i: int| 0 <= i < a.len() ==> query::pred_of(#[trigger] a[i]) is Ok;
            &&& both is Ok <==> fine
            &&& either is Ok <==> fine
            &&& fine ==> (query::matches_row(both->Ok_0, d) <==> forall|i: int|
                0 <= i < a.len() ==> query::matches_row(query::pred_of(#[trigger] a[i])->Ok_0, d))
            &&& fine ==> (query::matches_row(either->Ok_0, d) <==> exists|i: int|
                0 <= i < a.len() && query::matches_row(query::pred_of(#[trigger] a[i])->Ok_0, d))
        }),
{
    reveal_strlit("$and");
    reveal_strlit("$or");
    assert("$and"@.len() == 4);
    assert("$or"@.len() == 3);
    lemma_list_read(a, a.len());
    let x = seq![("$and"@, JsonV::Arr(a))];
    let y = seq![("$or"@, JsonV::Arr(a))];
    let none = Seq::<PredV>::empty();
    assert(x[0] == ("$and"@, JsonV::Arr(a)));
    assert(y[0] == ("$or"@, JsonV::Arr(a)));
    assert(query::entries_preds(x, 0) == Ok::<Seq<PredV>, Seq<char>>(none));
    assert(query::entries_preds(y, 0) == Ok::<Seq<PredV>, Seq<char>>(none));
    match query::list_preds(a, a.len()) {
        Ok(ps) => {
            assert(query::entries_preds(x, 1) == Ok::<Seq<PredV>, Seq<char>>(
                none.push(PredV::And(ps)),
            ));
            assert(query::entries_preds(y, 1) == Ok::<Seq<PredV>, Seq<char>>(
                none.push(PredV::Or(ps)),
            ));
            let both = query::pred_of(given("$and"@, JsonV::Arr(a)))->Ok_0;
            let either = query::pred_of(given("$or"@, JsonV::Arr(a)))->Ok_0;
            assert(both == PredV::And(ps));
            assert(either == PredV::Or(ps));
            lemma_and_rows(ps, d);
            lemma_or_rows(ps, d);
            assert forall|i: int| 0 <= i < a.len() implies query::pred_of(#[trigger] a[i])->Ok_0
                == ps[i] by {
                assert(query::pred_of(a[i]) == Ok::<PredV, Seq<char>>(ps[i]));
            }
            if query::matches_row(both, d) {
                assert forall|i: int| 0 <= i < a.len() implies query::matches_row(
                    query::pred_of(#[trigger] a[i])->Ok_0,
                    d,
                ) by {
                    assert(query::matches_row(ps[i], d));
                }
            }
            if forall|i: int|
                0 <= i < a.len() ==> query::matches_row(query::pred_of(#[trigger] a[i])->Ok_0, d) {
                assert forall|i: int| 0 <= i < ps.len() implies query::matches_row(
                    #[trigger] ps[i],
                    d,
                ) by {
                    assert(query::pred_of(a[i])->Ok_0 == ps[i]);
                }
            }
            if query::matches_row(either, d) {
                let i = choose|i: int| 0 <= i < ps.len() && query::matches_row(#[trigger] ps[i], d);
                assert(query::pred_of(a[i])->Ok_0 == ps[i]);
            }
            if exists|i: int|
                0 <= i < a.len() && query::matches_row(query::pred_of(#[trigger] a[i])->Ok_0, d) {
                let i = choose|i: int|
                    0 <= i < a.len() && query::matches_row(
                        query::pred_of(#[trigger] a[i])->Ok_0,
                        d,
                    );
                assert(query::matches_row(ps[i], d));
            }
        },
        Err(m) => {
            assert(query::entries_preds(x, 1) == Err::<Seq<PredV>, Seq<char>>(m));
            assert(query::entries_preds(y, 1) == Err::<Seq<PredV>, Seq<char>>(m));
        },
    }
}

// ---------------------------------------------------------------------------
// Rows at hand
// ---------------------------------------------------------------------------

/// A row passes a test or its opposite, never both: unequal is not equal, and not
/// among the values is not among them.
pub proof fn law_opposites_exclude_each_other(
    n: Seq<char>,
    v: JsonV,
    vs: Seq<JsonV>,
    d: RecordV,
)
    ensures
        query::matches_row(PredV::Eq(n, v), d) != query::matches_row(PredV::Ne(n, v), d),
        query::matches_row(PredV::In(n, vs), d) != query::matches_row(PredV::Nin(n, vs), d),
        query::matches_row(PredV::Exists(n, true), d) != query::matches_row(
            PredV::Exists(n, false),
            d,
        ),
{
}

/// A row passes a test on a text, a truth value or a float exactly if it holds
/// the value asked for; in the two columns that every row has, and in its own
/// values.
pub proof fn law_equal_means_held(d: RecordV, n: Seq<char>, s: Seq<char>, b: bool)
    ensures
        query::matches_row(PredV::Eq("source_path"@, JsonV::Str(s)), d) <==> d.source_path == s,
        query::matches_row(PredV::Eq("source_type"@, JsonV::Str(s)), d) <==> d.source_type == s,
        n != "source_path"@ && n != "source_type"@ ==> {
            &&& query::matches_row(PredV::Eq(n, JsonV::Str(s)), d) <==> json::lookup(d.extra, n)
                == Some(JsonV::Str(s))
            &&& query::matches_row(PredV::Eq(n, JsonV::Bool(b)), d) <==> json::lookup(d.extra, n)
                == Some(JsonV::Bool(b))
            &&& query::matches_row(PredV::Exists(n, true), d) <==> json::lookup(d.extra, n) is Some
        },
{
    reveal_strlit("source_path");
    reveal_strlit("source_type");
    assert("source_path"@[7] == 'p');
    assert("source_type"@[7] == 't');
}

/// Two numbers compare in exactly one way: less, equal or greater. At least is
/// greater or equal, and at most is less or equal. A value that is no number is
/// neither less nor greater.
pub proof fn law_numbers_compare_one_way(n: Seq<char>, x: NumberV, d: RecordV)
    ensures
        ({
            let v = JsonV::Num(x);
            let less = query::matches_row(PredV::Lt(n, v), d);
            let more = query::matches_row(PredV::Gt(n, v), d);
            let same = query::matches_row(PredV::Eq(n, v), d);
            &&& query::matches_row(PredV::Gte(n, v), d) <==> more || same
            &&& query::matches_row(PredV::Lte(n, v), d) <==> less || same
            &&& !(less && more) && !(less && same) && !(more && same)
            &&& query::row_value(d, n) is Num <==> less || more || same
        }),
{
}

/// Of two floats that are not negative the one with more in its bits is the
/// greater, and every such float is greater than a negative one.
pub proof fn law_comparisons_have_their_direction(
    n: Seq<char>,
    held: FloatV,
    asked: FloatV,
    d: RecordV,
)
    requires
        query::row_value(d, n) == JsonV::Num(NumberV::Float(held)),
        held.bits < 0x8000_0000_0000_0000,
    ensures
        ({
            let v = JsonV::Num(NumberV::Float(asked));
            if asked.bits < 0x8000_0000_0000_0000 {
                &&& query::matches_row(PredV::Gt(n, v), d) <==> held.bits > asked.bits
                &&& query::matches_row(PredV::Lt(n, v), d) <==> held.bits < asked.bits
            } else {
                asked.bits > 0x8000_0000_0000_0000 ==> query::matches_row(PredV::Gt(n, v), d)
            }
        }),
{
}

/// A row is among values if it equals one of them; a list is if one of its items
/// does.
pub proof fn law_among_means_equal_to_one(n: Seq<char>, vs: Seq<JsonV>, d: RecordV)
    ensures
        !(query::row_value(d, n) is Arr) ==> (query::matches_row(PredV::In(n, vs), d)
            <==> exists|i: int|
            0 <= i < vs.len() && query::matches_row(PredV::Eq(n, #[trigger] vs[i]), d)),
        query::row_value(d, n) matches JsonV::Arr(items) ==> (query::matches_row(
            PredV::In(n, vs),
            d,
        ) <==> exists|i: int, k: int|
            0 <= i < vs.len() && 0 <= k < items.len() && query::filter_equal(
                #[trigger] items[k],
                #[trigger] vs[i],
            )),
{
    let x = query::row_value(d, n);
    if !(x is Arr) {
        if query::filter_listed(x, vs) {
            let i = choose|i: int|
                0 <= i < vs.len() && query::filter_equal(x, #[trigger] vs[i]);
            assert(query::matches_row(PredV::Eq(n, vs[i]), d));
        }
        if exists|i: int|
            0 <= i < vs.len() && query::matches_row(PredV::Eq(n, #[trigger] vs[i]), d) {
            let i = choose|i: int|
                0 <= i < vs.len() && query::matches_row(PredV::Eq(n, #[trigger] vs[i]), d);
            assert(query::filter_equal(x, vs[i]));
            assert(query::filter_listed(x, vs));
        }
    } else {
        let items = x->Arr_0;
        if query::some_listed(items, vs) {
            let k = choose|k: int|
                0 <= k < items.len() && query::filter_listed(#[trigger] items[k], vs);
            let i = choose|i: int|
                0 <= i < vs.len() && query::filter_equal(items[k], #[trigger] vs[i]);
            assert(query::filter_equal(items[k], vs[i]));
        }
        if exists|i: int, k: int|
            0 <= i < vs.len() && 0 <= k < items.len() && query::filter_equal(
                #[trigger] items[k],
                #[trigger] vs[i],
            ) {
            let (i, k) = choose|i: int, k: int|
                0 <= i < vs.len() && 0 <= k < items.len() && query::filter_equal(
                    #[trigger] items[k],
                    #[trigger] vs[i],
                );
            assert(query::filter_listed(items[k], vs));
            assert(query::some_listed(items, vs));
        }
    }
}

/// Texts and truth values are equal to a filter exactly if they are the same, and
/// values of different kinds never are.
pub proof fn law_equal_values(s: Seq<char>, t: Seq<char>, a: bool, b: bool)
    ensures
        query::filter_equal(JsonV::Str(s), JsonV::Str(t)) <==> s == t,
        query::filter_equal(JsonV::Bool(a), JsonV::Bool(b)) <==> a == b,
        !query::filter_equal(JsonV::Str(s), JsonV::Bool(b)),
        !query::filter_equal(JsonV::Null, JsonV::Str(t)),
{
}

/// A filter is an object, and `$and` and `$or` take lists; anything else is an
/// error.
pub proof fn law_other_shapes_are_refused(j: JsonV)
    ensures
        !(j is Obj) ==> query::pred_of(j) is Err,
        !(j is Arr) ==> query::pred_of(given("$and"@, j)) is Err,
        !(j is Arr) ==> query::pred_of(given("$or"@, j)) is Err,
{
    reveal_strlit("$and");
    reveal_strlit("$or");
    assert("$and"@.len() == 4);
    assert("$or"@.len() == 3);
    if !(j is Arr) {
        let x = seq![("$and"@, j)];
        let y = seq![("$or"@, j)];
        let none = Seq::<PredV>::empty();
        assert(x[0] == ("$and"@, j));
        assert(y[0] == ("$or"@, j));
        assert(query::entries_preds(x, 0) == Ok::<Seq<PredV>, Seq<char>>(none));
        assert(query::entries_preds(y, 0) == Ok::<Seq<PredV>, Seq<char>>(none));
        assert(query::entries_preds(x, 1) is Err);
        assert(query::entries_preds(y, 1) is Err);
    }
}

/// Lists are the same value item by item: one item more on either side makes
/// another list, and so does one entry more in an object.
pub proof fn law_equal_lists(
    x: Seq<JsonV>,
    y: Seq<JsonV>,
    v: JsonV,
    w: JsonV,
    e: Seq<(Seq<char>, JsonV)>,
    n: (Seq<char>, JsonV),
)
    ensures
        json::same_value(JsonV::Arr(x.push(v)), JsonV::Arr(y.push(w))) <==> json::same_value(
            JsonV::Arr(x),
            JsonV::Arr(y),
        ) && json::same_value(v, w),
        !json::same_value(JsonV::Arr(x), JsonV::Arr(x.push(v))),
        !json::same_value(JsonV::Arr(x.push(v)), JsonV::Arr(x)),
        json::same_value(JsonV::Arr(Seq::empty()), JsonV::Arr(Seq::empty())),
        !json::same_value(JsonV::Obj(e), JsonV::Obj(e.push(n))),
        !json::same_value(JsonV::Obj(e.push(n)), JsonV::Obj(e)),
{
    reveal_with_fuel(json::same_value, 2);
    let a = x.push(v);
    let b = y.push(w);
    if x.len() == y.len() {
        assert(a[x.len() as int] == v && b[x.len() as int] == w);
        if json::same_value(JsonV::Arr(x), JsonV::Arr(y)) && json::same_value(v, w) {
            assert forall|i: int| 0 <= i < a.len() implies json::same_value(
                #[trigger] a[i],
                b[i],
            ) by {
                if i < x.len() {
                    assert(json::same_value(x[i], y[i]));
                }
            }
        }
        if json::same_value(JsonV::Arr(a), JsonV::Arr(b)) {
            assert(json::same_value(a[x.len() as int], b[x.len() as int]));
            assert forall|i: int| 0 <= i < x.len() implies json::same_value(
                #[trigger] x[i],
                y[i],
            ) by {
                assert(json::same_value(a[i], b[i]));
            }
        }
    }
}

} // verus!
