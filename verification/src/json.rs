//! JSON values as the library holds them, with their mathematical model `JsonV`.
//!
//! A number is kept as the text that serde_json prints for it, so no floating point
//! enters the library; objects keep their entries in order (serde_json with
//! `preserve_order`).
use vstd::prelude::*;
use crate::text::{str_eq, str_to_string, string_from_chars, views_of, i64_text_value, int_text_value, decimal_value, digit_value, all_digits, is_digit};

verus! {

#[derive(Debug)]
pub enum Json {
    Null,
    Bool(bool),
    Number(String),
    Str(String),
    Array(Vec<Json>),
    Object(Vec<(String, Json)>),
}

/// The model of a JSON value.
pub enum JsonV {
    Null,
    Bool(bool),
    Number(Seq<char>),
    Str(Seq<char>),
    Array(Seq<JsonV>),
    Object(Seq<(Seq<char>, JsonV)>),
}

pub open spec fn jv(j: Json) -> JsonV
    decreases j, 0int,
{
    match j {
        Json::Null => JsonV::Null,
        Json::Bool(b) => JsonV::Bool(b),
        Json::Number(n) => JsonV::Number(n@),
        Json::Str(s) => JsonV::Str(s@),
        Json::Array(v) => JsonV::Array(jv_seq(v@)),
        Json::Object(v) => JsonV::Object(jv_entries(v@)),
    }
}

pub open spec fn jv_seq(s: Seq<Json>) -> Seq<JsonV>
    decreases s, 1int,
{
    if s.len() == 0 {
        Seq::empty()
    } else {
        jv_seq(s.drop_last()).push(jv(s.last()))
    }
}

pub open spec fn jv_entries(s: Seq<(String, Json)>) -> Seq<(Seq<char>, JsonV)>
    decreases s, 1int,
{
    if s.len() == 0 {
        Seq::empty()
    } else {
        jv_entries(s.drop_last()).push((s.last().0@, jv(s.last().1)))
    }
}

impl View for Json {
    type V = JsonV;

    open spec fn view(&self) -> JsonV {
        jv(*self)
    }
}

pub proof fn lemma_jv_seq(s: Seq<Json>)
    ensures
        jv_seq(s).len() == s.len(),
        forall|i: int| 0 <= i < s.len() ==> #[trigger] jv_seq(s)[i] == jv(s[i]),
    decreases s.len(),
{
    if s.len() > 0 {
        lemma_jv_seq(s.drop_last());
    }
}

pub proof fn lemma_jv_entries(s: Seq<(String, Json)>)
    ensures
        jv_entries(s).len() == s.len(),
        forall|i: int|
            0 <= i < s.len() ==> #[trigger] jv_entries(s)[i] == (s[i].0@, jv(s[i].1)),
    decreases s.len(),
{
    if s.len() > 0 {
        lemma_jv_entries(s.drop_last());
    }
}

pub proof fn lemma_jv_seq_push(s: Seq<Json>, j: Json)
    ensures
        jv_seq(s.push(j)) == jv_seq(s).push(jv(j)),
{
    assert(s.push(j).drop_last() =~= s);
}

pub proof fn lemma_jv_entries_push(s: Seq<(String, Json)>, e: (String, Json))
    ensures
        jv_entries(s.push(e)) == jv_entries(s).push((e.0@, jv(e.1))),
{
    assert(s.push(e).drop_last() =~= s);
}

/// The value under key `k` in an object's entries: the first entry with that key.
pub open spec fn obj_get(e: Seq<(Seq<char>, JsonV)>, k: Seq<char>) -> Option<JsonV>
    decreases e.len(),
{
    if e.len() == 0 {
        None
    } else if e[0].0 == k {
        Some(e[0].1)
    } else {
        obj_get(e.drop_first(), k)
    }
}

/// An object's entries after inserting `v` under `k`: the first entry with key `k` gets
/// the new value in place, otherwise the entry goes to the end (`IndexMap::insert`).
pub open spec fn obj_insert(e: Seq<(Seq<char>, JsonV)>, k: Seq<char>, v: JsonV) -> Seq<
    (Seq<char>, JsonV),
>
    decreases e.len(),
{
    if e.len() == 0 {
        seq![(k, v)]
    } else if e[0].0 == k {
        e.update(0, (k, v))
    } else {
        seq![e[0]] + obj_insert(e.drop_first(), k, v)
    }
}

/// Reading a key after an insertion: the inserted value for the inserted key, else what was
/// there.
pub proof fn lemma_obj_get_insert(e: Seq<(Seq<char>, JsonV)>, k: Seq<char>, v: JsonV, k2: Seq<char>)
    ensures
        obj_get(obj_insert(e, k, v), k2) == if k2 == k {
            Some(v)
        } else {
            obj_get(e, k2)
        },
    decreases e.len(),
{
    if e.len() == 0 {
        assert(seq![(k, v)].drop_first() =~= Seq::<(Seq<char>, JsonV)>::empty());
        assert(seq![(k, v)][0] == (k, v));
        assert(obj_insert(e, k, v) == seq![(k, v)]);
        assert(obj_get(e, k2) is None);
        assert(obj_get(seq![(k, v)].drop_first(), k2) is None);
        assert(obj_get(obj_insert(e, k, v), k2) == if k2 == k { Some(v) } else { obj_get(e, k2) });
    } else if e[0].0 != k {
        lemma_obj_get_insert(e.drop_first(), k, v, k2);
        let ins = seq![e[0]] + obj_insert(e.drop_first(), k, v);
        assert(ins.drop_first() =~= obj_insert(e.drop_first(), k, v));
        assert(ins[0] == e[0]);
        assert(obj_insert(e, k, v) == ins);
        assert(obj_get(ins, k2) == if k2 == k { Some(v) } else { obj_get(e, k2) });
    } else {
        let up = e.update(0, (k, v));
        assert(up.drop_first() =~= e.drop_first());
        assert(up[0] == (k, v));
        assert(obj_insert(e, k, v) == up);
        assert(obj_get(up, k2) == if k2 == k { Some(v) } else { obj_get(e, k2) });
    }
}

proof fn lemma_obj_get_skip(e: Seq<(Seq<char>, JsonV)>, k: Seq<char>, i: int)
    requires
        0 <= i <= e.len(),
        forall|j: int| 0 <= j < i ==> e[j].0 != k,
    ensures
        obj_get(e, k) == obj_get(e.skip(i), k),
    decreases i,
{
    if i > 0 {
        lemma_obj_get_skip(e.drop_first(), k, i - 1);
        assert(e.drop_first().skip(i - 1) =~= e.skip(i));
    } else {
        assert(e.skip(0) =~= e);
    }
}

proof fn lemma_obj_insert_at(e: Seq<(Seq<char>, JsonV)>, k: Seq<char>, v: JsonV, i: int)
    requires
        0 <= i <= e.len(),
        forall|j: int| 0 <= j < i ==> e[j].0 != k,
        i < e.len() ==> e[i].0 == k,
    ensures
        obj_insert(e, k, v) == (if i < e.len() {
            e.update(i, (k, v))
        } else {
            e.push((k, v))
        }),
    decreases i,
{
    if i > 0 {
        lemma_obj_insert_at(e.drop_first(), k, v, i - 1);
        if i < e.len() {
            assert(seq![e[0]] + e.drop_first().update(i - 1, (k, v)) =~= e.update(i, (k, v)));
        } else {
            assert(seq![e[0]] + e.drop_first().push((k, v)) =~= e.push((k, v)));
        }
    } else if e.len() == 0 {
        assert(seq![(k, v)] =~= e.push((k, v)));
    }
}

/// A deep copy of a value.
pub fn json_copy(j: &Json) -> (r: Json)
    ensures
        r@ == j@,
    decreases j,
{
    match j {
        Json::Null => Json::Null,
        Json::Bool(b) => Json::Bool(*b),
        Json::Number(n) => Json::Number(n.clone()),
        Json::Str(s) => Json::Str(s.clone()),
        Json::Array(v) => {
            let out = array_copy(v);
            Json::Array(out)
        },
        Json::Object(v) => {
            let out = entries_copy(v);
            Json::Object(out)
        },
    }
}

/// A deep copy of an array's items.
pub fn array_copy(v: &Vec<Json>) -> (r: Vec<Json>)
    ensures
        jv_seq(r@) == jv_seq(v@),
    decreases v,
{
    let mut out: Vec<Json> = Vec::new();
    let mut i: usize = 0;
    while i < v.len()
        invariant
            i <= v@.len(),
            jv_seq(out@) == jv_seq(v@.take(i as int)),
        decreases v@.len() - i,
    {
        proof {
            assert(decreases_to!(v => v@));
            assert(decreases_to!(v@ => v@[i as int]));
        }
        let c = json_copy(&v[i]);
        proof {
            lemma_jv_seq_push(out@, c);
            assert(v@.take(i + 1).drop_last() =~= v@.take(i as int));
        }
        out.push(c);
        i = i + 1;
    }
    assert(v@.take(v@.len() as int) =~= v@);
    out
}

/// A deep copy of an object's entries.
pub fn entries_copy(v: &Vec<(String, Json)>) -> (r: Vec<(String, Json)>)
    ensures
        jv_entries(r@) == jv_entries(v@),
    decreases v,
{
    let mut out: Vec<(String, Json)> = Vec::new();
    let mut i: usize = 0;
    while i < v.len()
        invariant
            i <= v@.len(),
            jv_entries(out@) == jv_entries(v@.take(i as int)),
        decreases v@.len() - i,
    {
        proof {
            assert(decreases_to!(v => v@));
            assert(decreases_to!(v@ => v@[i as int]));
        }
        let c = json_copy(&v[i].1);
        let e = (v[i].0.clone(), c);
        proof {
            lemma_jv_entries_push(out@, e);
            assert(v@.take(i + 1).drop_last() =~= v@.take(i as int));
        }
        out.push(e);
        i = i + 1;
    }
    assert(v@.take(v@.len() as int) =~= v@);
    out
}

/// The value under `key` in an object's entries.
pub fn entries_get<'a>(v: &'a Vec<(String, Json)>, key: &str) -> (r: Option<&'a Json>)
    ensures
        match r {
            Some(x) => obj_get(jv_entries(v@), key@) == Some(x@),
            None => obj_get(jv_entries(v@), key@) is None,
        },
{
    let ghost e = jv_entries(v@);
    proof {
        lemma_jv_entries(v@);
    }
    let mut i: usize = 0;
    while i < v.len()
        invariant
            e == jv_entries(v@),
            e.len() == v@.len(),
            forall|j: int| 0 <= j < v@.len() ==> #[trigger] e[j] == (v@[j].0@, jv(v@[j].1)),
            i <= v@.len(),
            forall|j: int| 0 <= j < i ==> e[j].0 != key@,
        decreases v@.len() - i,
    {
        if str_eq(v[i].0.as_str(), key) {
            proof {
                lemma_obj_get_skip(e, key@, i as int);
                assert(e.skip(i as int)[0] == e[i as int]);
            }
            return Some(&v[i].1);
        }
        i = i + 1;
    }
    proof {
        lemma_obj_get_skip(e, key@, i as int);
    }
    None
}

/// Inserts `val` under `key`, as `serde_json::Map::insert` does with `preserve_order`.
pub fn entries_insert(v: &mut Vec<(String, Json)>, key: String, val: Json)
    ensures
        jv_entries(final(v)@) == obj_insert(jv_entries(old(v)@), key@, val@),
{
    let ghost e = jv_entries(v@);
    proof {
        lemma_jv_entries(v@);
    }
    let mut i: usize = 0;
    while i < v.len()
        invariant
            e == jv_entries(v@),
            v@ == old(v)@,
            e.len() == v@.len(),
            forall|j: int| 0 <= j < v@.len() ==> #[trigger] e[j] == (v@[j].0@, jv(v@[j].1)),
            i <= v@.len(),
            forall|j: int| 0 <= j < i ==> e[j].0 != key@,
        decreases v@.len() - i,
    {
        if str_eq(v[i].0.as_str(), key.as_str()) {
            proof {
                lemma_obj_insert_at(e, key@, val@, i as int);
            }
            let ghost old_v = v@;
            let kv = (key, val);
            v.set(i, kv);
            proof {
                lemma_jv_entries(v@);
                assert(jv_entries(v@) =~= e.update(i as int, (kv.0@, jv(kv.1))));
                assert(e == jv_entries(old(v)@));
                assert(obj_insert(e, key@, val@) == e.update(i as int, (key@, val@)));
            }
            return ;
        }
        i = i + 1;
    }
    proof {
        lemma_obj_insert_at(e, key@, val@, i as int);
    }
    let kv = (key, val);
    proof {
        lemma_jv_entries_push(v@, kv);
    }
    v.push(kv);
}

pub fn json_string(s: &str) -> (r: Json)
    ensures
        r@ == JsonV::Str(s@),
{
    Json::Str(str_to_string(s))
}

/// The decimal digits of `n`, as `u64`'s `Display` writes them.
pub open spec fn decimal_text(n: nat) -> Seq<char>
    decreases n,
{
    if n < 10 {
        seq![digit_char(n)]
    } else {
        decimal_text(n / 10).push(digit_char(n % 10))
    }
}

pub open spec fn digit_char(d: nat) -> char {
    if d == 0 {
        '0'
    } else if d == 1 {
        '1'
    } else if d == 2 {
        '2'
    } else if d == 3 {
        '3'
    } else if d == 4 {
        '4'
    } else if d == 5 {
        '5'
    } else if d == 6 {
        '6'
    } else if d == 7 {
        '7'
    } else if d == 8 {
        '8'
    } else {
        '9'
    }
}

proof fn lemma_decimal_text_value(n: nat)
    ensures
        decimal_text(n).len() > 0,
        all_digits(decimal_text(n)),
        decimal_value(decimal_text(n)) == n,
    decreases n,
{
    let d = (n % 10) as nat;
    assert(digit_value(digit_char(d)) == d && is_digit(digit_char(d)));
    if n >= 10 {
        lemma_decimal_text_value(n / 10);
        let t = decimal_text(n / 10).push(digit_char(d));
        assert(t.drop_last() =~= decimal_text(n / 10));
        assert(t.last() == digit_char(d));
        assert(decimal_text(n) == t);
        assert(decimal_value(t) == decimal_value(t.drop_last()) * 10 + digit_value(t.last()));
        assert((n / 10) * 10 + d == n);
        assert forall|k: int| 0 <= k < t.len() implies is_digit(#[trigger] t[k]) by {
            if k < t.len() - 1 {
                assert(t[k] == decimal_text(n / 10)[k]);
            }
        }
    } else {
        let t = seq![digit_char(d)];
        assert(d == n);
        assert(decimal_text(n) == t);
        assert(t.drop_last() =~= Seq::<char>::empty());
        assert(t.last() == digit_char(d));
        assert(decimal_value(t) == decimal_value(t.drop_last()) * 10 + digit_value(t.last()));
    }
}

/// The decimal text of an integer of `i64` reads as that integer, as serde's `as_i64` reads
/// a JSON number: the digits of `n` as `n`, and `-` before them as `-n`.
pub proof fn law_integer_text(n: nat)
    ensures
        n <= i64::MAX ==> i64_text_value(decimal_text(n)) == Some(n as i64),
        1 <= n <= 0x8000_0000_0000_0000 ==> i64_text_value(seq!['-'] + decimal_text(n)) == Some((-n) as i64),
{
    lemma_decimal_text_value(n);
    let t = decimal_text(n);
    assert(is_digit(t[0]));
    let m = seq!['-'] + t;
    assert(m.drop_first() =~= t);
}

pub fn digit_of(d: u64) -> (c: char)
    requires
        d < 10,
    ensures
        c == digit_char(d as nat),
{
    if d == 0 {
        '0'
    } else if d == 1 {
        '1'
    } else if d == 2 {
        '2'
    } else if d == 3 {
        '3'
    } else if d == 4 {
        '4'
    } else if d == 5 {
        '5'
    } else if d == 6 {
        '6'
    } else if d == 7 {
        '7'
    } else if d == 8 {
        '8'
    } else {
        '9'
    }
}

pub fn decimal_chars(n: u64) -> (r: Vec<char>)
    ensures
        r@ == decimal_text(n as nat),
    decreases n,
{
    if n < 10 {
        let mut v: Vec<char> = Vec::new();
        v.push(digit_of(n));
        assert(v@ =~= seq![digit_char(n as nat)]);
        v
    } else {
        let mut v = decimal_chars(n / 10);
        v.push(digit_of(n % 10));
        v
    }
}

/// The decimal text of an unsigned integer.
pub fn u64_to_string(n: u64) -> (r: String)
    ensures
        r@ == decimal_text(n as nat),
{
    let v = decimal_chars(n);
    string_from_chars(v.as_slice())
}

/// A JSON number for an unsigned integer.
pub fn json_u64(n: u64) -> (r: Json)
    ensures
        r@ == JsonV::Number(decimal_text(n as nat)),
{
    Json::Number(u64_to_string(n))
}

/// A JSON array of strings.
pub fn json_string_array(v: &Vec<String>) -> (r: Json)
    ensures
        r@ == JsonV::Array(views_of(v@).map_values(|s: Seq<char>| JsonV::Str(s))),
{
    let mut out: Vec<Json> = Vec::new();
    let mut i: usize = 0;
    while i < v.len()
        invariant
            i <= v@.len(),
            jv_seq(out@) == views_of(v@.take(i as int)).map_values(|s: Seq<char>| JsonV::Str(s)),
        decreases v@.len() - i,
    {
        let c = Json::Str(v[i].clone());
        proof {
            lemma_jv_seq_push(out@, c);
        }
        out.push(c);
        i = i + 1;
        assert(views_of(v@.take(i as int)).map_values(|s: Seq<char>| JsonV::Str(s)) =~= views_of(
            v@.take(i - 1),
        ).map_values(|s: Seq<char>| JsonV::Str(s)).push(JsonV::Str(v@[i - 1]@)));
    }
    assert(v@.take(v@.len() as int) =~= v@);
    Json::Array(out)
}

pub fn entry(k: &str, v: Json) -> (r: (String, Json))
    ensures
        r.0@ == k@,
        r.1 == v,
{
    (str_to_string(k), v)
}

/// `{k1: v1}`
pub fn jobj1(k1: &str, v1: Json) -> (r: Json)
    ensures
        r@ == JsonV::Object(seq![(k1@, v1@)]),
{
    let mut e: Vec<(String, Json)> = Vec::new();
    let p1 = entry(k1, v1);
    proof {
        lemma_jv_entries_push(e@, p1);
    }
    e.push(p1);
    assert(jv_entries(e@) =~= seq![(k1@, v1@)]);
    Json::Object(e)
}

/// `{k1: v1, k2: v2}`
pub fn jobj2(k1: &str, v1: Json, k2: &str, v2: Json) -> (r: Json)
    ensures
        r@ == JsonV::Object(seq![(k1@, v1@), (k2@, v2@)]),
{
    let mut e: Vec<(String, Json)> = Vec::new();
    let p1 = entry(k1, v1);
    proof {
        lemma_jv_entries_push(e@, p1);
    }
    e.push(p1);
    let p2 = entry(k2, v2);
    proof {
        lemma_jv_entries_push(e@, p2);
    }
    e.push(p2);
    assert(jv_entries(e@) =~= seq![(k1@, v1@), (k2@, v2@)]);
    Json::Object(e)
}

/// `{k1: v1, k2: v2, k3: v3, k4: v4}`
pub fn jobj4(k1: &str, v1: Json, k2: &str, v2: Json, k3: &str, v3: Json, k4: &str, v4: Json) -> (r:
    Json)
    ensures
        r@ == JsonV::Object(seq![(k1@, v1@), (k2@, v2@), (k3@, v3@), (k4@, v4@)]),
{
    let mut e: Vec<(String, Json)> = Vec::new();
    let p1 = entry(k1, v1);
    proof {
        lemma_jv_entries_push(e@, p1);
    }
    e.push(p1);
    let p2 = entry(k2, v2);
    proof {
        lemma_jv_entries_push(e@, p2);
    }
    e.push(p2);
    let p3 = entry(k3, v3);
    proof {
        lemma_jv_entries_push(e@, p3);
    }
    e.push(p3);
    let p4 = entry(k4, v4);
    proof {
        lemma_jv_entries_push(e@, p4);
    }
    e.push(p4);
    assert(jv_entries(e@) =~= seq![(k1@, v1@), (k2@, v2@), (k3@, v3@), (k4@, v4@)]);
    Json::Object(e)
}

/// `[v1]`
pub fn jarr1(v1: Json) -> (r: Json)
    ensures
        r@ == JsonV::Array(seq![v1@]),
{
    let mut e: Vec<Json> = Vec::new();
    proof {
        lemma_jv_seq_push(e@, v1);
    }
    e.push(v1);
    assert(jv_seq(e@) =~= seq![v1@]);
    Json::Array(e)
}

// ---- serde_json behind trusted items ----
#[verifier::external_type_specification]
#[verifier::external_body]
pub struct ExSerdeValue(serde_json::Value);

/// What `serde_json::from_str::<serde_json::Value>` makes of a text, `None` where it fails.
pub uninterp spec fn serde_json_parse(text: Seq<char>) -> Option<JsonV>;

/// What `serde_json::Value`'s `Display` (`to_string`) prints for a value: compact JSON text.
pub uninterp spec fn serde_json_text(v: JsonV) -> Seq<char>;

/// What `serde_json::to_string_pretty` prints for a value.
pub uninterp spec fn serde_json_pretty_text(v: JsonV) -> Seq<char>;

/// Moves a `serde_json::Value` into the library's `Json`, variant for variant; a number
/// becomes the text that serde_json prints for it.
#[verifier::external_body]
fn json_from_serde(v: serde_json::Value) -> Json {
    match v {
        serde_json::Value::Null => Json::Null,
        serde_json::Value::Bool(b) => Json::Bool(b),
        serde_json::Value::Number(n) => Json::Number(n.to_string()),
        serde_json::Value::String(s) => Json::Str(s),
        serde_json::Value::Array(a) => Json::Array(a.into_iter().map(json_from_serde).collect()),
        serde_json::Value::Object(m) => Json::Object(
            m.into_iter().map(|(k, x)| (k, json_from_serde(x))).collect(),
        ),
    }
}

/// Builds the `serde_json::Value` for a library `Json`, variant for variant; a number's
/// text goes back through `serde_json::Number`'s `FromStr`.
#[verifier::external_body]
fn json_to_serde(j: &Json) -> serde_json::Value {
    match j {
        Json::Null => serde_json::Value::Null,
        Json::Bool(b) => serde_json::Value::Bool(*b),
        Json::Number(n) => match n.parse::<serde_json::Number>() {
            Ok(x) => serde_json::Value::Number(x),
            Err(_) => serde_json::Value::String(n.clone()),
        },
        Json::Str(s) => serde_json::Value::String(s.clone()),
        Json::Array(a) => serde_json::Value::Array(a.iter().map(json_to_serde).collect()),
        Json::Object(e) => serde_json::Value::Object(
            e.iter().map(|(k, x)| (k.clone(), json_to_serde(x))).collect(),
        ),
    }
}

/// `serde_json::from_str::<serde_json::Value>`; the contract claims only that the result is
/// what serde_json makes of this text (named `serde_json_parse`), `None` where it fails.
#[verifier::external_body]
pub(crate) fn parse_json(text: &str) -> (r: Option<Json>)
    ensures
        match r {
            Some(j) => serde_json_parse(text@) == Some(j@),
            None => serde_json_parse(text@) is None,
        },
{
    match serde_json::from_str::<serde_json::Value>(text) {
        Ok(v) => Some(json_from_serde(v)),
        Err(_) => None,
    }
}

/// `serde_json::Value::to_string`; claims only that the text is what serde_json prints for
/// this value (named `serde_json_text`).
#[verifier::external_body]
pub(crate) fn json_to_string(j: &Json) -> (r: String)
    ensures
        r@ == serde_json_text(j@),
{
    json_to_serde(j).to_string()
}

/// `serde_json::to_string_pretty`; claims only that the text is what serde_json prints for
/// this value (named `serde_json_pretty_text`). Serialising a `Value` cannot fail.
#[verifier::external_body]
pub(crate) fn json_to_string_pretty(j: &Json) -> (r: String)
    ensures
        r@ == serde_json_pretty_text(j@),
{
    serde_json::to_string_pretty(&json_to_serde(j)).unwrap_or_default()
}

} // verus!
