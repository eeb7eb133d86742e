//! JSON values: the library's own type, its accessors, and the conversions to
//! and from text.

use crate::text;
use serde_json::Value;
use vstd::prelude::*;

verus! {

broadcast use vstd::string::group_string_axioms;

// ---------------------------------------------------------------------------
// The type and its model
// ---------------------------------------------------------------------------

/// A binary64 number: its bit pattern and its shortest decimal form.
#[derive(Debug, PartialEq, Eq)]
pub struct Float {
    /// The IEEE 754 bit pattern.
    pub bits: u64,
    /// The shortest decimal text that reads back as this number.
    pub plain: String,
}

/// A JSON number.
#[derive(Debug, PartialEq, Eq)]
pub enum Number {
    /// An integer that fits in 64 signed bits.
    Int(i64),
    /// A larger non-negative integer.
    Big(u64),
    /// A number with a fraction or an exponent.
    Float(Float),
}

/// A JSON value. An object is its list of entries.
#[derive(Debug, PartialEq, Eq)]
pub enum Json {
    Null,
    Bool(bool),
    Num(Number),
    Str(String),
    Arr(Vec<Json>),
    Obj(Vec<(String, Json)>),
}

/// The model of a binary64 number.
pub struct FloatV {
    pub bits: u64,
    pub plain: Seq<char>,
}

/// The model of a JSON number.
pub enum NumberV {
    Int(int),
    Big(int),
    Float(FloatV),
}

/// The model of a JSON value.
pub enum JsonV {
    Null,
    Bool(bool),
    Num(NumberV),
    Str(Seq<char>),
    Arr(Seq<JsonV>),
    Obj(Seq<(Seq<char>, JsonV)>),
}

impl View for Float {
    type V = FloatV;

    open spec fn view(&self) -> FloatV {
        FloatV { bits: self.bits, plain: self.plain@ }
    }
}

impl View for Number {
    type V = NumberV;

    open spec fn view(&self) -> NumberV {
        match *self {
            Number::Int(i) => NumberV::Int(i as int),
            Number::Big(u) => NumberV::Big(u as int),
            Number::Float(f) => NumberV::Float(f@),
        }
    }
}

impl View for Json {
    type V = JsonV;

    open spec fn view(&self) -> JsonV {
        model(*self)
    }
}

/// The model of a value.
pub open spec fn model(j: Json) -> JsonV
    decreases j,
{
    match j {
        Json::Null => JsonV::Null,
        Json::Bool(b) => JsonV::Bool(b),
        Json::Num(n) => JsonV::Num(n@),
        Json::Str(s) => JsonV::Str(s@),
        Json::Arr(v) => JsonV::Arr(
            Seq::new(
                v@.len(),
                |i: int|
                    if 0 <= i < v@.len() {
                        model(v@[i])
                    } else {
                        JsonV::Null
                    },
            ),
        ),
        Json::Obj(v) => JsonV::Obj(
            Seq::new(
                v@.len(),
                |i: int|
                    if 0 <= i < v@.len() {
                        (v@[i].0@, model(v@[i].1))
                    } else {
                        (Seq::empty(), JsonV::Null)
                    },
            ),
        ),
    }
}

/// The models of a list of values.
pub open spec fn items(v: Seq<Json>) -> Seq<JsonV> {
    Seq::new(v.len(), |i: int| v[i]@)
}

/// The models of a list of entries.
pub open spec fn entries(v: Seq<(String, Json)>) -> Seq<(Seq<char>, JsonV)> {
    Seq::new(v.len(), |i: int| (v[i].0@, v[i].1@))
}

/// The model of an array is the list of the models of its items.
pub broadcast proof fn lemma_arr_view(v: Vec<Json>)
    ensures
        #[trigger] Json::Arr(v).view() == JsonV::Arr(items(v@)),
{
    let s = model(Json::Arr(v))->Arr_0;
    assert(s =~= items(v@));
}

/// The model of an object is the list of the models of its entries.
pub broadcast proof fn lemma_obj_view(v: Vec<(String, Json)>)
    ensures
        #[trigger] Json::Obj(v).view() == JsonV::Obj(entries(v@)),
{
    let s = model(Json::Obj(v))->Obj_0;
    assert(s =~= entries(v@));
}

// ---------------------------------------------------------------------------
// Reading the model
// ---------------------------------------------------------------------------

/// The value of the first entry with the given key.
pub open spec fn lookup(e: Seq<(Seq<char>, JsonV)>, key: Seq<char>) -> Option<JsonV>
    decreases e.len(),
{
    if e.len() == 0 {
        None
    } else if e[0].0 == key {
        Some(e[0].1)
    } else {
        lookup(e.drop_first(), key)
    }
}

/// The value of `key` in `j`, if `j` is an object that has it.
pub open spec fn field(j: JsonV, key: Seq<char>) -> Option<JsonV> {
    match j {
        JsonV::Obj(e) => lookup(e, key),
        _ => None,
    }
}

/// The text, if `j` is one.
pub open spec fn string_of(j: JsonV) -> Option<Seq<char>> {
    match j {
        JsonV::Str(s) => Some(s),
        _ => None,
    }
}

/// The truth value, if `j` is one.
pub open spec fn bool_of(j: JsonV) -> Option<bool> {
    match j {
        JsonV::Bool(b) => Some(b),
        _ => None,
    }
}

/// The integer, if `j` is a number without fraction that fits in 64 signed bits.
pub open spec fn int_of(j: JsonV) -> Option<int> {
    match j {
        JsonV::Num(NumberV::Int(i)) => Some(i),
        _ => None,
    }
}

/// The integer, if `j` is a non-negative number without fraction.
pub open spec fn nat_of(j: JsonV) -> Option<int> {
    match j {
        JsonV::Num(NumberV::Int(i)) => if i >= 0 {
            Some(i)
        } else {
            None
        },
        JsonV::Num(NumberV::Big(u)) => Some(u),
        _ => None,
    }
}

/// The items, if `j` is an array.
pub open spec fn array_of(j: JsonV) -> Option<Seq<JsonV>> {
    match j {
        JsonV::Arr(s) => Some(s),
        _ => None,
    }
}

/// The text of the field `key`, if `j` has it and it is a text.
pub open spec fn text_field(j: JsonV, key: Seq<char>) -> Option<Seq<char>> {
    match field(j, key) {
        Some(v) => string_of(v),
        None => None,
    }
}

/// `e` with `key` given the value `v`: in place where it was, else at the end.
pub open spec fn with_entry(e: Seq<(Seq<char>, JsonV)>, key: Seq<char>, v: JsonV) -> Seq<
    (Seq<char>, JsonV),
>
    decreases e.len(),
{
    if e.len() == 0 {
        seq![(key, v)]
    } else if e[0].0 == key {
        seq![(key, v)] + e.drop_first()
    } else {
        seq![e[0]] + with_entry(e.drop_first(), key, v)
    }
}

/// After giving `key` a value, `key` has that value and no other key changed.
pub proof fn law_with_entry_reads_back(
    e: Seq<(Seq<char>, JsonV)>,
    key: Seq<char>,
    v: JsonV,
    other: Seq<char>,
)
    ensures
        lookup(with_entry(e, key, v), key) == Some(v),
        other != key ==> lookup(with_entry(e, key, v), other) == lookup(e, other),
    decreases e.len(),
{
    let w = with_entry(e, key, v);
    if e.len() == 0 {
        assert(w.drop_first() =~= Seq::empty());
        assert(lookup(w, other) == if other == key { Some(v) } else { lookup(w.drop_first(), other) });
        assert(lookup(w.drop_first(), other) is None);
    } else if e[0].0 == key {
        assert(w.drop_first() =~= e.drop_first());
    } else {
        law_with_entry_reads_back(e.drop_first(), key, v, other);
        assert(w.drop_first() =~= with_entry(e.drop_first(), key, v));
    }
}

// ---------------------------------------------------------------------------
// Accessors
// ---------------------------------------------------------------------------

impl Float {
    /// The same number again.
    pub fn copy(&self) -> (r: Float)
        ensures
            r@ == self@,
    {
        Float { bits: self.bits, plain: self.plain.clone() }
    }
}

impl Number {
    /// The same number again.
    pub fn copy(&self) -> (r: Number)
        ensures
            r@ == self@,
    {
        match self {
            Number::Int(i) => Number::Int(*i),
            Number::Big(u) => Number::Big(*u),
            Number::Float(f) => Number::Float(f.copy()),
        }
    }
}

impl Json {
    /// The same value again.
    pub fn copy(&self) -> (r: Json)
        ensures
            r@ == self@,
        decreases self,
    {
        broadcast use {lemma_arr_view, lemma_obj_view};

        match self {
            Json::Null => Json::Null,
            Json::Bool(b) => Json::Bool(*b),
            Json::Num(n) => Json::Num(n.copy()),
            Json::Str(s) => Json::Str(s.clone()),
            Json::Arr(v) => {
                let mut w: Vec<Json> = Vec::new();
                let mut i: usize = 0;
                while i < v.len()
                    invariant
                        *self == Json::Arr(*v),
                        i <= v@.len(),
                        items(w@) == items(v@).take(i as int),
                    decreases v@.len() - i,
                {
                    let ghost was = items(w@);
                    assert(decreases_to!(*self => (*self)->Arr_0));
                    assert(decreases_to!(*v => v@));
                    assert(decreases_to!(v@ => v@[i as int]));
                    assert(decreases_to!(*self => v@[i as int]));
                    let c: Json = v[i].copy();
                    w.push(c);
                    i = i + 1;
                    assert(items(w@) =~= was.push(c@));
                    assert(items(w@) =~= items(v@).take(i as int));
                }
                assert(items(w@) =~= items(v@));
                Json::Arr(w)
            },
            Json::Obj(v) => {
                let mut w: Vec<(String, Json)> = Vec::new();
                let mut i: usize = 0;
                while i < v.len()
                    invariant
                        *self == Json::Obj(*v),
                        i <= v@.len(),
                        entries(w@) == entries(v@).take(i as int),
                    decreases v@.len() - i,
                {
                    let ghost was = entries(w@);
                    assert(decreases_to!(*self => (*self)->Obj_0));
                    assert(decreases_to!(*v => v@));
                    assert(decreases_to!(v@ => v@[i as int]));
                    assert(decreases_to!(v@[i as int] => v@[i as int].1));
                    assert(decreases_to!(*self => v@[i as int].1));
                    let c: Json = v[i].1.copy();
                    let k: String = v[i].0.clone();
                    w.push((k, c));
                    i = i + 1;
                    assert(entries(w@) =~= was.push((k@, c@)));
                    assert(entries(w@) =~= entries(v@).take(i as int));
                }
                assert(entries(w@) =~= entries(v@));
                Json::Obj(w)
            },
        }
    }

    /// A text value.
    pub fn string(s: &str) -> (r: Json)
        ensures
            r@ == JsonV::Str(s@),
    {
        Json::Str(s.to_string())
    }

    /// An integer value.
    pub fn number(i: i64) -> (r: Json)
        ensures
            r@ == JsonV::Num(NumberV::Int(i as int)),
    {
        Json::Num(Number::Int(i))
    }

    /// The value of `key`, if this is an object that has it.
    pub fn get(&self, key: &str) -> (r: Option<&Json>)
        ensures
            (match r {
                Some(j) => field(self@, key@) == Some(j@),
                None => field(self@, key@) is None,
            }),
    {
        broadcast use lemma_obj_view;

        match self {
            Json::Obj(v) => find(v, key),
            _ => None,
        }
    }

    /// The text, if this is one.
    pub fn as_str(&self) -> (r: Option<&str>)
        ensures
            (match r {
                Some(s) => string_of(self@) == Some(s@),
                None => string_of(self@) is None,
            }),
    {
        match self {
            Json::Str(s) => Some(s.as_str()),
            _ => None,
        }
    }

    /// The truth value, if this is one.
    pub fn as_bool(&self) -> (r: Option<bool>)
        ensures
            r == bool_of(self@),
    {
        match self {
            Json::Bool(b) => Some(*b),
            _ => None,
        }
    }

    /// The integer, if this is one that fits in 64 signed bits.
    pub fn as_i64(&self) -> (r: Option<i64>)
        ensures
            (match r {
                Some(i) => int_of(self@) == Some(i as int),
                None => int_of(self@) is None,
            }),
    {
        match self {
            Json::Num(Number::Int(i)) => Some(*i),
            _ => None,
        }
    }

    /// The integer, if this is a non-negative one.
    pub fn as_u64(&self) -> (r: Option<u64>)
        ensures
            (match r {
                Some(u) => nat_of(self@) == Some(u as int),
                None => nat_of(self@) is None,
            }),
    {
        match self {
            Json::Num(Number::Int(i)) => if *i >= 0 {
                Some(*i as u64)
            } else {
                None
            },
            Json::Num(Number::Big(u)) => Some(*u),
            _ => None,
        }
    }

    /// The items, if this is an array.
    pub fn as_array(&self) -> (r: Option<&Vec<Json>>)
        ensures
            (match r {
                Some(v) => self@ == JsonV::Arr(items(v@)) && decreases_to!(self => v@),
                None => !(self@ is Arr),
            }),
    {
        broadcast use lemma_arr_view;

        match self {
            Json::Arr(v) => Some(v),
            _ => None,
        }
    }

    /// The entries, if this is an object.
    pub fn as_object(&self) -> (r: Option<&Vec<(String, Json)>>)
        ensures
            (match r {
                Some(v) => self@ == JsonV::Obj(entries(v@)) && decreases_to!(self => v@),
                None => !(self@ is Obj),
            }),
    {
        broadcast use lemma_obj_view;

        match self {
            Json::Obj(v) => Some(v),
            _ => None,
        }
    }

    /// The text of the field `key`, if there is one and it is a text.
    pub fn str_field(&self, key: &str) -> (r: Option<&str>)
        ensures
            (match r {
                Some(s) => text_field(self@, key@) == Some(s@),
                None => text_field(self@, key@) is None,
            }),
    {
        match self.get(key) {
            Some(j) => j.as_str(),
            None => None,
        }
    }
}

/// The same list of values again.
pub fn copy_items(v: &Vec<Json>) -> (r: Vec<Json>)
    ensures
        items(r@) == items(v@),
{
    let mut r: Vec<Json> = Vec::new();
    let mut i: usize = 0;
    while i < v.len()
        invariant
            i <= v@.len(),
            items(r@) == items(v@).take(i as int),
        decreases v@.len() - i,
    {
        let ghost was = items(r@);
        let c: Json = v[i].copy();
        r.push(c);
        i = i + 1;
        assert(items(r@) =~= was.push(c@));
        assert(items(r@) =~= items(v@).take(i as int));
    }
    assert(items(v@).take(v@.len() as int) =~= items(v@));
    r
}

/// The same list of entries again.
pub fn copy_entries(v: &Vec<(String, Json)>) -> (r: Vec<(String, Json)>)
    ensures
        entries(r@) == entries(v@),
{
    let mut r: Vec<(String, Json)> = Vec::new();
    let mut i: usize = 0;
    while i < v.len()
        invariant
            i <= v@.len(),
            entries(r@) == entries(v@).take(i as int),
        decreases v@.len() - i,
    {
        let ghost was = entries(r@);
        let k: String = v[i].0.clone();
        let c: Json = v[i].1.copy();
        r.push((k, c));
        i = i + 1;
        assert(entries(r@) =~= was.push((k@, c@)));
        assert(entries(r@) =~= entries(v@).take(i as int));
    }
    assert(entries(v@).take(v@.len() as int) =~= entries(v@));
    r
}

/// The value of the first entry with the given key.
pub fn find<'a>(v: &'a Vec<(String, Json)>, key: &str) -> (r: Option<&'a Json>)
    ensures
        (match r {
            Some(j) => lookup(entries(v@), key@) == Some(j@),
            None => lookup(entries(v@), key@) is None,
        }),
{
    let ghost e = entries(v@);
    let mut i: usize = 0;
    assert(e.skip(0) =~= e);
    while i < v.len()
        invariant
            e == entries(v@),
            i <= v@.len(),
            lookup(e, key@) == lookup(e.skip(i as int), key@),
        decreases v@.len() - i,
    {
        assert(e.skip(i as int)[0] == e[i as int]);
        if text::same(v[i].0.as_str(), key) {
            return Some(&v[i].1);
        }
        assert(e.skip(i as int).drop_first() =~= e.skip(i + 1));
        i = i + 1;
    }
    None
}

/// Gives `key` the value `val` in a list of entries: in place where it was,
/// else at the end.
pub fn put(v: &mut Vec<(String, Json)>, key: &str, val: Json)
    ensures
        entries(final(v)@) == with_entry(entries(old(v)@), key@, val@),
{
    let ghost e = entries(v@);
    let ghost was = v@;
    let n: usize = v.len();
    let mut i: usize = 0;
    assert(e.skip(0) =~= e);
    assert(e.take(0) + with_entry(e.skip(0), key@, val@) =~= with_entry(e, key@, val@));
    while i < n
        invariant
            v@ == was,
            was == old(v)@,
            n == v@.len(),
            e == entries(was),
            i <= n,
            with_entry(e, key@, val@) == e.take(i as int) + with_entry(
                e.skip(i as int),
                key@,
                val@,
            ),
        decreases n - i,
    {
        assert(e.skip(i as int)[0] == e[i as int]);
        assert(e.skip(i as int).drop_first() =~= e.skip(i + 1));
        if text::same(v[i].0.as_str(), key) {
            let ghost value = val@;
            v.set(i, (key.to_string(), val));
            assert(with_entry(e.skip(i as int), key@, value) == seq![(key@, value)] + e.skip(i + 1));
            assert(entries(v@) =~= e.take(i as int) + (seq![(key@, value)] + e.skip(i + 1)));
            return ;
        }
        assert(e.take(i as int) + (seq![e[i as int]] + with_entry(e.skip(i + 1), key@, val@))
            =~= e.take(i + 1) + with_entry(e.skip(i + 1), key@, val@));
        i = i + 1;
    }
    let ghost value = val@;
    v.push((key.to_string(), val));
    assert(e.skip(n as int).len() == 0);
    assert(entries(v@) =~= e.take(n as int) + seq![(key@, value)]);
}

// ---------------------------------------------------------------------------
// Numbers as floats
// ---------------------------------------------------------------------------

/// The binary64 number nearest to the integer `n`.
pub uninterp spec fn nearest_float(n: int) -> FloatV;

/// Conversion of a signed integer to binary64 (`serde_json::Number::as_f64` of
/// `serde_json::Number::from`): the result is a function of the integer.
#[verifier::external_body]
fn float_of_signed(i: i64) -> (r: Float)
    ensures
        r@ == nearest_float(i as int),
{
    let f = serde_json::Number::from(i).as_f64().unwrap_or_default();
    Float { bits: f.to_bits(), plain: format!("{f}") }
}

/// Conversion of an unsigned integer to binary64 (`serde_json::Number::as_f64`
/// of `serde_json::Number::from`): the result is a function of the integer.
#[verifier::external_body]
fn float_of_unsigned(u: u64) -> (r: Float)
    ensures
        r@ == nearest_float(u as int),
{
    let f = serde_json::Number::from(u).as_f64().unwrap_or_default();
    Float { bits: f.to_bits(), plain: format!("{f}") }
}

/// The finite binary64 number that a text says, if it says one, or why it says
/// none.
pub uninterp spec fn float_said(s: Seq<char>) -> Result<Option<FloatV>, Seq<char>>;

/// `str::parse` as a binary64 number, then `serde_json::Number::from_f64`,
/// which holds no infinity and no NaN: number or error message, the result is
/// a function of the text.
#[verifier::external_body]
fn float_in(s: &str) -> (r: Result<Option<Float>, String>)
    ensures
        float_said(s@) == (match r {
            Ok(Some(f)) => Ok::<Option<FloatV>, Seq<char>>(Some(f@)),
            Ok(None) => Ok::<Option<FloatV>, Seq<char>>(None),
            Err(e) => Err::<Option<FloatV>, Seq<char>>(e@),
        }),
{
    let n = s.parse().map(serde_json::Number::from_f64).map_err(|e| e.to_string())?;
    Ok(n.map(|x| x.as_f64().unwrap_or_default()).map(|f| Float { bits: f.to_bits(), plain: format!("{f}") }))
}

/// Why a text is no integer of 64 bits.
pub uninterp spec fn integer_error(s: Seq<char>) -> Seq<char>;

/// The message of `str::parse` as an integer of 64 bits, for a text that says
/// none: it is a function of the text.
#[verifier::external_body]
fn why_no_integer(s: &str) -> (r: String)
    requires
        text::integer(s@) matches Some(i) ==> !(i64::MIN <= i <= i64::MAX),
    ensures
        r@ == integer_error(s@),
{
    s.parse().map(|i: i64| i.to_string()).unwrap_or_else(|e| e.to_string())
}

/// The integer that a text says, or why it says none.
pub open spec fn integer_said(s: Seq<char>) -> Result<int, Seq<char>> {
    match text::integer(s) {
        Some(i) => if i64::MIN <= i <= i64::MAX {
            Ok(i)
        } else {
            Err(integer_error(s))
        },
        None => Err(integer_error(s)),
    }
}

/// The number that a text says as a JSON value, if it is finite; null where it
/// is not.
pub open spec fn float_value(f: Option<FloatV>) -> JsonV {
    match f {
        Some(x) => JsonV::Num(NumberV::Float(x)),
        None => JsonV::Null,
    }
}

/// A finite number as a JSON value, null where there is none.
pub fn float_json(f: Option<Float>) -> (r: Json)
    ensures
        r@ == float_value(
            match f {
                Some(x) => Some(x@),
                None => None,
            },
        ),
{
    match f {
        Some(x) => Json::Num(Number::Float(x)),
        None => Json::Null,
    }
}

/// Reads a text as a float.
pub fn read_float(s: &str) -> (r: Result<Json, String>)
    ensures
        (match r {
            Ok(j) => float_said(s@) is Ok && j@ == float_value(float_said(s@)->Ok_0),
            Err(e) => float_said(s@) == Err::<Option<FloatV>, Seq<char>>(e@),
        }),
{
    match float_in(s) {
        Ok(f) => Ok(float_json(f)),
        Err(e) => Err(e),
    }
}

/// Reads a text as an integer of 64 bits.
pub fn read_integer(s: &str) -> (r: Result<Json, String>)
    ensures
        (match r {
            Ok(j) => integer_said(s@) is Ok && j@ == JsonV::Num(
                NumberV::Int(integer_said(s@)->Ok_0),
            ),
            Err(e) => integer_said(s@) == Err::<int, Seq<char>>(e@),
        }),
{
    match text::parse_i64(s) {
        Some(i) => Ok(Json::Num(Number::Int(i))),
        None => Err(why_no_integer(s)),
    }
}

/// A number as a float.
pub open spec fn as_float(n: NumberV) -> FloatV {
    match n {
        NumberV::Int(i) => nearest_float(i),
        NumberV::Big(u) => nearest_float(u),
        NumberV::Float(f) => f,
    }
}

/// The number as a float, if `j` is a number.
pub open spec fn float_of(j: JsonV) -> Option<FloatV> {
    match j {
        JsonV::Num(n) => Some(as_float(n)),
        _ => None,
    }
}

/// Where a float stands among all floats: floats compare as these integers
/// do, and the two zeros stand at the same place.
pub open spec fn float_rank(bits: u64) -> int {
    if bits < 0x8000_0000_0000_0000 {
        bits as int
    } else {
        0x8000_0000_0000_0000 - bits
    }
}

/// The rank of a float, as a machine integer.
pub fn rank(bits: u64) -> (r: i128)
    ensures
        r == float_rank(bits),
{
    if bits < 0x8000_0000_0000_0000 {
        bits as i128
    } else {
        0x8000_0000_0000_0000i128 - bits as i128
    }
}

impl Number {
    /// The number as a float.
    pub fn to_float(&self) -> (r: Float)
        ensures
            r@ == as_float(self@),
    {
        match self {
            Number::Int(i) => float_of_signed(*i),
            Number::Big(u) => float_of_unsigned(*u),
            Number::Float(f) => f.copy(),
        }
    }
}

impl Json {
    /// The number as a float, if this is a number.
    pub fn as_float(&self) -> (r: Option<Float>)
        ensures
            (match r {
                Some(f) => float_of(self@) == Some(f@),
                None => float_of(self@) is None,
            }),
    {
        match self {
            Json::Num(n) => Some(n.to_float()),
            _ => None,
        }
    }
}

// ---------------------------------------------------------------------------
// Equality of values
// ---------------------------------------------------------------------------

/// Whether two numbers are the same number of the same kind.
pub open spec fn same_number(a: NumberV, b: NumberV) -> bool {
    match (a, b) {
        (NumberV::Int(x), NumberV::Int(y)) => x == y,
        (NumberV::Big(x), NumberV::Big(y)) => x == y,
        (NumberV::Float(x), NumberV::Float(y)) => float_rank(x.bits) == float_rank(y.bits),
        _ => false,
    }
}

/// Whether two values are equal: item by item for arrays, key by key for
/// objects, whatever the order of the entries.
pub open spec fn same_value(a: JsonV, b: JsonV) -> bool
    decreases a,
{
    match (a, b) {
        (JsonV::Null, JsonV::Null) => true,
        (JsonV::Bool(x), JsonV::Bool(y)) => x == y,
        (JsonV::Num(x), JsonV::Num(y)) => same_number(x, y),
        (JsonV::Str(x), JsonV::Str(y)) => x == y,
        (JsonV::Arr(x), JsonV::Arr(y)) => {
            &&& x.len() == y.len()
            &&& forall|i: int| 0 <= i < x.len() ==> same_value(#[trigger] x[i], y[i])
        },
        (JsonV::Obj(x), JsonV::Obj(y)) => {
            &&& x.len() == y.len()
            &&& forall|i: int|
                0 <= i < x.len() ==> match lookup(y, (#[trigger] x[i]).0) {
                    Some(w) => same_value(x[i].1, w),
                    None => false,
                }
        },
        _ => false,
    }
}

impl Number {
    /// Whether two numbers are the same number of the same kind.
    pub fn same(&self, other: &Number) -> (r: bool)
        ensures
            r == same_number(self@, other@),
    {
        match (self, other) {
            (Number::Int(x), Number::Int(y)) => *x == *y,
            (Number::Big(x), Number::Big(y)) => *x == *y,
            (Number::Float(x), Number::Float(y)) => rank(x.bits) == rank(y.bits),
            _ => false,
        }
    }
}

impl Json {
    /// Whether two values are equal.
    pub fn same(&self, other: &Json) -> (r: bool)
        ensures
            r == same_value(self@, other@),
        decreases self,
    {
        broadcast use {lemma_arr_view, lemma_obj_view};

        match (self, other) {
            (Json::Null, Json::Null) => true,
            (Json::Bool(x), Json::Bool(y)) => *x == *y,
            (Json::Num(x), Json::Num(y)) => x.same(y),
            (Json::Str(x), Json::Str(y)) => text::same(x.as_str(), y.as_str()),
            (Json::Arr(x), Json::Arr(y)) => {
                if x.len() != y.len() {
                    return false;
                }
                let ghost p = items(x@);
                let ghost q = items(y@);
                let mut i: usize = 0;
                while i < x.len()
                    invariant
                        *self == Json::Arr(*x),
                        self@ == JsonV::Arr(p),
                        other@ == JsonV::Arr(q),
                        p == items(x@),
                        q == items(y@),
                        x@.len() == y@.len(),
                        i <= x@.len(),
                        forall|k: int| 0 <= k < i ==> same_value(#[trigger] p[k], q[k]),
                    decreases x@.len() - i,
                {
                    assert(decreases_to!(x@ => x@[i as int]));
                    if !x[i].same(&y[i]) {
                        assert(!same_value(p[i as int], q[i as int]));
                        return false;
                    }
                    i = i + 1;
                }
                true
            },
            (Json::Obj(x), Json::Obj(y)) => {
                if x.len() != y.len() {
                    return false;
                }
                let ghost p = entries(x@);
                let ghost q = entries(y@);
                let mut i: usize = 0;
                while i < x.len()
                    invariant
                        *self == Json::Obj(*x),
                        self@ == JsonV::Obj(p),
                        other@ == JsonV::Obj(q),
                        p == entries(x@),
                        q == entries(y@),
                        x@.len() == y@.len(),
                        i <= x@.len(),
                        forall|k: int|
                            0 <= k < i ==> match lookup(q, (#[trigger] p[k]).0) {
                                Some(w) => same_value(p[k].1, w),
                                None => false,
                            },
                    decreases x@.len() - i,
                {
                    assert(decreases_to!(x@ => x@[i as int]));
                    assert(p[i as int].0 == x@[i as int].0@);
                    match find(y, x[i].0.as_str()) {
                        Some(w) => {
                            if !x[i].1.same(w) {
                                return false;
                            }
                        },
                        None => {
                            return false;
                        },
                    }
                    i = i + 1;
                }
                true
            },
            _ => false,
        }
    }
}

// ---------------------------------------------------------------------------
// serde_json
// ---------------------------------------------------------------------------

/// `serde_json::Value`, carried through to the crates that speak it.
#[verifier::external_type_specification]
#[verifier::external_body]
pub struct ExValue(serde_json::Value);

/// What a `serde_json::Value` holds.
pub uninterp spec fn held(v: serde_json::Value) -> JsonV;

/// The `serde_json::Value` that holds what `j` says.
pub uninterp spec fn value_of(j: JsonV) -> serde_json::Value;

/// What JSON text says, or why it is not JSON.
pub uninterp spec fn parsed(text: Seq<char>) -> Result<JsonV, Seq<char>>;

/// What JSON text that is given as bytes says, or why it is not JSON.
pub uninterp spec fn parsed_bytes(bytes: Seq<u8>) -> Result<JsonV, Seq<char>>;

/// The indented JSON text of `j`.
pub uninterp spec fn pretty_text(j: JsonV) -> Seq<char>;

/// The one-line JSON text of `j`.
pub uninterp spec fn compact_text(j: JsonV) -> Seq<char>;

/// Reads a `serde_json::Value` variant by variant, entries in the order of its
/// map; a number is taken by `as_i64`, else `as_u64`, else `as_f64`.
#[verifier::external_body]
fn read_value(v: Value) -> (r: Json)
    ensures
        r@ == held(v),
{
    match v {
        Value::Null => Json::Null,
        Value::Bool(b) => Json::Bool(b),
        Value::Number(n) => Json::Num(n.as_i64().map(Number::Int).or(n.as_u64().map(Number::Big)).unwrap_or_else(|| {
            let f = n.as_f64().unwrap_or_default();
            Number::Float(Float { bits: f.to_bits(), plain: f.to_string() })
        })),
        Value::String(s) => Json::Str(s),
        Value::Array(a) => Json::Arr(a.into_iter().map(read_value).collect()),
        Value::Object(m) => Json::Obj(m.into_iter().map(|(k, x)| (k, read_value(x))).collect()),
    }
}

/// Builds the `serde_json::Value` of a value variant by variant; a float goes
/// through its shortest decimal form.
#[verifier::external_body]
fn build_value(j: &Json) -> (v: Value)
    ensures
        v == value_of(j@),
{
    match j {
        Json::Null => Value::Null,
        Json::Bool(b) => Value::Bool(*b),
        Json::Num(Number::Int(i)) => Value::from(*i),
        Json::Num(Number::Big(u)) => Value::from(*u),
        Json::Num(Number::Float(f)) => serde_json::Number::from_f64(f.plain.parse().unwrap_or_default()).into(),
        Json::Str(s) => Value::String(s.clone()),
        Json::Arr(a) => a.iter().map(build_value).collect(),
        Json::Obj(m) => m.iter().map(|(k, x)| (k.clone(), build_value(x))).collect(),
    }
}

/// `serde_json::from_str`: what comes back, value or error message, is a
/// function of the text.
#[verifier::external_body]
fn parse_value(s: &str) -> (r: Result<serde_json::Value, String>)
    ensures
        parsed(s@) == (match r {
            Ok(v) => Ok::<JsonV, Seq<char>>(held(v)),
            Err(e) => Err::<JsonV, Seq<char>>(e@),
        }),
{
    serde_json::from_str(s).map_err(|e| e.to_string())
}

/// `serde_json::from_slice`: what comes back, value or error message, is a
/// function of the bytes.
#[verifier::external_body]
fn parse_slice(b: &Vec<u8>) -> (r: Result<serde_json::Value, String>)
    ensures
        parsed_bytes(b@) == (match r {
            Ok(v) => Ok::<JsonV, Seq<char>>(held(v)),
            Err(e) => Err::<JsonV, Seq<char>>(e@),
        }),
{
    serde_json::from_slice(b).map_err(|e| e.to_string())
}

/// `serde_json::to_string_pretty`: the text is a function of the value.
#[verifier::external_body]
fn render_pretty(j: &Json) -> (s: String)
    ensures
        s@ == pretty_text(j@),
{
    serde_json::to_string_pretty(&build_value(j)).unwrap_or_default()
}

/// `serde_json::to_string`: the text is a function of the value.
#[verifier::external_body]
fn render_compact(j: &Json) -> (s: String)
    ensures
        s@ == compact_text(j@),
{
    serde_json::to_string(&build_value(j)).unwrap_or_default()
}

impl Json {
    /// What a `serde_json::Value` holds.
    pub fn from_value(v: serde_json::Value) -> (r: Json)
        ensures
            r@ == held(v),
    {
        read_value(v)
    }

    /// The `serde_json::Value` that holds what this value says.
    pub fn to_value(&self) -> (v: serde_json::Value)
        ensures
            v == value_of(self@),
    {
        build_value(self)
    }

    /// What JSON text says, or why it is not JSON.
    pub fn parse(s: &str) -> (r: Result<Json, String>)
        ensures
            (match r {
                Ok(j) => parsed(s@) == Ok::<JsonV, Seq<char>>(j@),
                Err(e) => parsed(s@) == Err::<JsonV, Seq<char>>(e@),
            }),
    {
        match parse_value(s) {
            Ok(v) => Ok(read_value(v)),
            Err(e) => Err(e),
        }
    }

    /// What JSON text that is given as bytes says, or why it is not JSON.
    pub fn parse_bytes(b: &Vec<u8>) -> (r: Result<Json, String>)
        ensures
            (match r {
                Ok(j) => parsed_bytes(b@) == Ok::<JsonV, Seq<char>>(j@),
                Err(e) => parsed_bytes(b@) == Err::<JsonV, Seq<char>>(e@),
            }),
    {
        match parse_slice(b) {
            Ok(v) => Ok(read_value(v)),
            Err(e) => Err(e),
        }
    }

    /// The indented JSON text.
    pub fn pretty(&self) -> (s: String)
        ensures
            s@ == pretty_text(self@),
    {
        render_pretty(self)
    }

    /// The one-line JSON text.
    pub fn compact(&self) -> (s: String)
        ensures
            s@ == compact_text(self@),
    {
        render_compact(self)
    }
}

} // verus!
