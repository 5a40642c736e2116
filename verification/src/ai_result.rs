//! Writing the values of an AI answer into an individual, by the property mapping and the
//! ranges of the properties.
use vstd::prelude::*;
use crate::individual::{Individual, IndividualV, Lang, Resource, ResourceV, res_views};
use crate::json::{Json, JsonV, jv, jv_seq, jv_entries, obj_get, lemma_jv_seq, lemma_jv_entries};
use crate::mapping::PropertyMapping;
use crate::text::{is_prefix_of, starts_with, str_eq, concat3, parse_i64_text, i64_text_value};
use crate::types::AIResponseValues;

verus! {

/// Why the answer cannot be written.
#[derive(PartialEq, Eq, Structural, Clone, Copy, Debug)]
pub enum ApplyError {
    /// The answer has no `result` value.
    MissingResult,
    /// The `result` value is not an object.
    ResultNotObject,
}

impl ApplyError {
    pub fn message(&self) -> (r: String)
        ensures
            *self == ApplyError::MissingResult ==> r@ == "Missing result object"@,
            *self == ApplyError::ResultNotObject ==> r@ == "result is not an object"@,
    {
        match self {
            ApplyError::MissingResult => String::from_str("Missing result object"),
            ApplyError::ResultNotObject => String::from_str("result is not an object"),
        }
    }
}

/// `serde_json::Value::as_i64`.
pub open spec fn as_i64(v: JsonV) -> Option<i64> {
    match v {
        JsonV::Number(t) => i64_text_value(t),
        _ => None,
    }
}

/// String items of an enumeration-valued property: the URI of a known `short*label` key,
/// else the text itself.
pub open spec fn enum_values(
    items: Seq<JsonV>,
    short: Seq<char>,
    pm: Map<Seq<char>, Seq<char>>,
) -> Seq<ResourceV>
    decreases items.len(),
{
    if items.len() == 0 {
        Seq::empty()
    } else {
        let prev = enum_values(items.drop_last(), short, pm);
        match items.last() {
            JsonV::Str(s) => prev.push(enum_value(s, short, pm)),
            _ => prev,
        }
    }
}

pub open spec fn enum_value(s: Seq<char>, short: Seq<char>, pm: Map<Seq<char>, Seq<char>>) -> ResourceV {
    if pm.contains_key(short + "*"@ + s) {
        ResourceV::Uri(pm[short + "*"@ + s])
    } else {
        ResourceV::Str(s, Lang::NoLang)
    }
}

/// The string items, as untagged strings.
pub open spec fn string_values(items: Seq<JsonV>) -> Seq<ResourceV>
    decreases items.len(),
{
    if items.len() == 0 {
        Seq::empty()
    } else {
        let prev = string_values(items.drop_last());
        match items.last() {
            JsonV::Str(s) => prev.push(ResourceV::Str(s, Lang::NoLang)),
            _ => prev,
        }
    }
}

/// The items that are integers.
pub open spec fn integer_values(items: Seq<JsonV>) -> Seq<ResourceV>
    decreases items.len(),
{
    if items.len() == 0 {
        Seq::empty()
    } else {
        let prev = integer_values(items.drop_last());
        match as_i64(items.last()) {
            Some(n) => prev.push(ResourceV::Integer(n)),
            None => prev,
        }
    }
}

/// The items that are numbers, as decimals.
pub open spec fn decimal_values(items: Seq<JsonV>) -> Seq<ResourceV>
    decreases items.len(),
{
    if items.len() == 0 {
        Seq::empty()
    } else {
        let prev = decimal_values(items.drop_last());
        match items.last() {
            JsonV::Number(t) => prev.push(ResourceV::Decimal(t)),
            _ => prev,
        }
    }
}

/// `ind` with `pred` holding `vals`, or without `pred` when `vals` is empty.
pub open spec fn with_values(ind: IndividualV, pred: Seq<char>, vals: Seq<ResourceV>) -> IndividualV {
    if vals.len() == 0 {
        ind
    } else {
        ind.with(pred, vals)
    }
}

/// The individual after one answer value `v` for the property `full` (short name `short`,
/// range `range`): the old values of `full` go, the new ones come by the range.
pub open spec fn apply_value(
    ind: IndividualV,
    full: Seq<char>,
    short: Seq<char>,
    range: Seq<char>,
    v: JsonV,
    pm: Map<Seq<char>, Seq<char>>,
) -> IndividualV {
    let ind0 = ind.without(full);
    if !is_prefix_of("xsd:"@, range) {
        match v {
            JsonV::Array(items) => with_values(ind0, full, enum_values(items, short, pm)),
            JsonV::Str(s) => ind0.with(full, seq![enum_value(s, short, pm)]),
            _ => ind0,
        }
    } else if range == "xsd:string"@ {
        match v {
            JsonV::Array(items) => with_values(ind0, full, string_values(items)),
            JsonV::Str(s) => ind0.with(full, seq![ResourceV::Str(s, Lang::NoLang)]),
            _ => ind0,
        }
    } else if range == "xsd:integer"@ {
        match v {
            JsonV::Array(items) => with_values(ind0, full, integer_values(items)),
            _ => match as_i64(v) {
                Some(n) => ind0.with(full, seq![ResourceV::Integer(n)]),
                None => ind0,
            },
        }
    } else if range == "xsd:decimal"@ {
        match v {
            JsonV::Array(items) => with_values(ind0, full, decimal_values(items)),
            JsonV::Number(t) => ind0.with_added(full, ResourceV::Decimal(t)),
            _ => ind0,
        }
    } else {
        match v {
            JsonV::Str(s) => ind0.with(full, seq![ResourceV::Str(s, Lang::NoLang)]),
            _ => ind0,
        }
    }
}

/// The individual after the answer's `result` entries `es`, in order; an entry whose short
/// name is not mapped, or whose property was not loaded (not in `ranges`), changes nothing.
pub open spec fn apply_entries(
    ind: IndividualV,
    es: Seq<(Seq<char>, JsonV)>,
    pm: Map<Seq<char>, Seq<char>>,
    ranges: Map<Seq<char>, Seq<char>>,
) -> IndividualV
    decreases es.len(),
{
    if es.len() == 0 {
        ind
    } else {
        let prev = apply_entries(ind, es.drop_last(), pm, ranges);
        let short = es.last().0;
        if pm.contains_key(short) && ranges.contains_key(pm[short]) {
            apply_value(prev, pm[short], short, ranges[pm[short]], es.last().1, pm)
        } else {
            prev
        }
    }
}

/// One answer value replaces its property's values by the property's range: a JSON integer
/// `n` for an `xsd:integer` property gives exactly `Integer(n)`; a text for an `xsd:string`
/// property gives exactly that string; a number for an `xsd:decimal` property gives exactly
/// that decimal; a text for a property whose range is a class gives the URI that the mapping
/// records for the text as a label of the property (`short*text`), else the text; every other
/// property keeps its values.
pub proof fn law_answer_value(
    ind: IndividualV,
    full: Seq<char>,
    short: Seq<char>,
    range: Seq<char>,
    v: JsonV,
    pm: Map<Seq<char>, Seq<char>>,
    other: Seq<char>,
    n: i64,
    s: Seq<char>,
)
    ensures
        range == "xsd:integer"@ && v is Number && as_i64(v) == Some(n) ==> apply_value(ind, full, short, range, v, pm).values(
            full,
        ) == seq![ResourceV::Integer(n)],
        range == "xsd:string"@ && v == JsonV::Str(s) ==> apply_value(ind, full, short, range, v, pm).values(full)
            == seq![ResourceV::Str(s, Lang::NoLang)],
        range == "xsd:decimal"@ && v == JsonV::Number(s) ==> apply_value(ind, full, short, range, v, pm).values(full)
            == seq![ResourceV::Decimal(s)],
        !is_prefix_of("xsd:"@, range) && v == JsonV::Str(s) ==> apply_value(ind, full, short, range, v, pm).values(full)
            == seq![
            if pm.contains_key(short + "*"@ + s) {
                ResourceV::Uri(pm[short + "*"@ + s])
            } else {
                ResourceV::Str(s, Lang::NoLang)
            },
        ],
        other != full ==> apply_value(ind, full, short, range, v, pm).values(other) == ind.values(other),
{
    reveal_strlit("xsd:");
    reveal_strlit("xsd:integer");
    reveal_strlit("xsd:string");
    reveal_strlit("xsd:decimal");
    assert("xsd:integer"@[4] == 'i' && "xsd:string"@[4] == 's' && "xsd:decimal"@[4] == 'd');
    if range == "xsd:integer"@ || range == "xsd:string"@ || range == "xsd:decimal"@ {
        assert(is_prefix_of("xsd:"@, range)) by {
            assert(range.subrange(0, 4) =~= "xsd:"@);
        }
    }
}

proof fn lemma_all_strings(items: Seq<JsonV>)
    requires
        forall|i: int| 0 <= i < items.len() ==> (#[trigger] items[i]) is Str,
    ensures
        string_values(items) == items.map_values(|x: JsonV| ResourceV::Str(x->Str_0, Lang::NoLang)),
    decreases items.len(),
{
    if items.len() > 0 {
        let f = items.drop_last();
        assert forall|i: int| 0 <= i < f.len() implies (#[trigger] f[i]) is Str by {
            assert(f[i] == items[i]);
        }
        lemma_all_strings(f);
        assert(items.last() == items[items.len() - 1]);
        assert(items.map_values(|x: JsonV| ResourceV::Str(x->Str_0, Lang::NoLang)) =~= f.map_values(
            |x: JsonV| ResourceV::Str(x->Str_0, Lang::NoLang),
        ).push(ResourceV::Str(items.last()->Str_0, Lang::NoLang)));
    } else {
        assert(items.map_values(|x: JsonV| ResourceV::Str(x->Str_0, Lang::NoLang)) =~= Seq::<ResourceV>::empty());
    }
}

proof fn lemma_all_integers(items: Seq<JsonV>)
    requires
        forall|i: int| 0 <= i < items.len() ==> as_i64(#[trigger] items[i]) is Some,
    ensures
        integer_values(items) == items.map_values(|x: JsonV| ResourceV::Integer(as_i64(x)->0)),
    decreases items.len(),
{
    if items.len() > 0 {
        let f = items.drop_last();
        assert forall|i: int| 0 <= i < f.len() implies as_i64(#[trigger] f[i]) is Some by {
            assert(f[i] == items[i]);
        }
        lemma_all_integers(f);
        assert(items.last() == items[items.len() - 1]);
        assert(items.map_values(|x: JsonV| ResourceV::Integer(as_i64(x)->0)) =~= f.map_values(
            |x: JsonV| ResourceV::Integer(as_i64(x)->0),
        ).push(ResourceV::Integer(as_i64(items.last())->0)));
    } else {
        assert(items.map_values(|x: JsonV| ResourceV::Integer(as_i64(x)->0)) =~= Seq::<ResourceV>::empty());
    }
}

/// An answer array for an `xsd:string` property whose items are all texts, or for an
/// `xsd:integer` property whose items are all integers, replaces the property's values by
/// those texts, or integers, in order.
pub proof fn law_answer_array(
    ind: IndividualV,
    full: Seq<char>,
    short: Seq<char>,
    range: Seq<char>,
    items: Seq<JsonV>,
    pm: Map<Seq<char>, Seq<char>>,
)
    requires
        items.len() > 0,
    ensures
        range == "xsd:string"@ && (forall|i: int| 0 <= i < items.len() ==> (#[trigger] items[i]) is Str) ==> apply_value(
            ind,
            full,
            short,
            range,
            JsonV::Array(items),
            pm,
        ).values(full) == items.map_values(|x: JsonV| ResourceV::Str(x->Str_0, Lang::NoLang)),
        range == "xsd:integer"@ && (forall|i: int| 0 <= i < items.len() ==> as_i64(#[trigger] items[i]) is Some)
            ==> apply_value(ind, full, short, range, JsonV::Array(items), pm).values(full) == items.map_values(
            |x: JsonV| ResourceV::Integer(as_i64(x)->0),
        ),
{
    reveal_strlit("xsd:");
    reveal_strlit("xsd:integer");
    reveal_strlit("xsd:string");
    assert("xsd:integer"@[4] == 'i' && "xsd:string"@[4] == 's');
    if range == "xsd:integer"@ || range == "xsd:string"@ {
        assert(is_prefix_of("xsd:"@, range)) by {
            assert(range.subrange(0, 4) =~= "xsd:"@);
        }
    }
    if range == "xsd:string"@ && (forall|i: int| 0 <= i < items.len() ==> (#[trigger] items[i]) is Str) {
        lemma_all_strings(items);
    }
    if range == "xsd:integer"@ && (forall|i: int| 0 <= i < items.len() ==> as_i64(#[trigger] items[i]) is Some) {
        lemma_all_integers(items);
    }
}

/// In a whole answer, an entry with a JSON integer `n` for a mapped, loaded property of range
/// `xsd:integer`, after which no entry writes that property, leaves it holding exactly
/// `Integer(n)`.
pub proof fn law_answer_integer(
    ind: IndividualV,
    es: Seq<(Seq<char>, JsonV)>,
    pm: Map<Seq<char>, Seq<char>>,
    ranges: Map<Seq<char>, Seq<char>>,
    k: int,
    n: i64,
)
    requires
        0 <= k < es.len(),
        pm.contains_key(es[k].0),
        ranges.contains_key(pm[es[k].0]),
        ranges[pm[es[k].0]] == "xsd:integer"@,
        es[k].1 is Number,
        as_i64(es[k].1) == Some(n),
        forall|j: int|
            #![trigger es[j]]
            k < j < es.len() && pm.contains_key(es[j].0) && ranges.contains_key(pm[es[j].0]) ==> pm[es[j].0]
                != pm[es[k].0],
    ensures
        apply_entries(ind, es, pm, ranges).values(pm[es[k].0]) == seq![ResourceV::Integer(n)],
    decreases es.len(),
{
    let full = pm[es[k].0];
    if k == es.len() - 1 {
        let prev = apply_entries(ind, es.drop_last(), pm, ranges);
        assert(es.last() == es[k]);
        law_answer_value(prev, full, es[k].0, "xsd:integer"@, es[k].1, pm, full, n, Seq::empty());
    } else {
        let front = es.drop_last();
        assert forall|j: int| #![trigger front[j]] k < j < front.len() && pm.contains_key(front[j].0) && ranges.contains_key(
            pm[front[j].0],
        ) implies pm[front[j].0] != pm[front[k].0] by {
            assert(front[j] == es[j]);
        }
        assert(front[k] == es[k]);
        law_answer_integer(ind, front, pm, ranges, k, n);
        let prev = apply_entries(ind, front, pm, ranges);
        let last = es.last();
        assert(last == es[es.len() - 1]);
        if pm.contains_key(last.0) && ranges.contains_key(pm[last.0]) {
            law_answer_value(prev, pm[last.0], last.0, ranges[pm[last.0]], last.1, pm, full, n, Seq::empty());
        }
    }
}

/// The resources for an array's items, by the rule `kind` picks.
fn item_values(
    arr: &Vec<Json>,
    kind: u8,
    short: &str,
    pm: &PropertyMapping,
) -> (r: Vec<Resource>)
    requires
        kind <= 3,
    ensures
        kind == 0 ==> res_views(r@) == enum_values(jv_seq(arr@), short@, pm@),
        kind == 1 ==> res_views(r@) == string_values(jv_seq(arr@)),
        kind == 2 ==> res_views(r@) == integer_values(jv_seq(arr@)),
        kind == 3 ==> res_views(r@) == decimal_values(jv_seq(arr@)),
{
    let ghost items = jv_seq(arr@);
    proof {
        lemma_jv_seq(arr@);
    }
    let mut out: Vec<Resource> = Vec::new();
    let mut i: usize = 0;
    while i < arr.len()
        invariant
            kind <= 3,
            items == jv_seq(arr@),
            items.len() == arr@.len(),
            forall|k: int| 0 <= k < arr@.len() ==> #[trigger] items[k] == jv(arr@[k]),
            i <= arr@.len(),
            kind == 0 ==> res_views(out@) == enum_values(items.take(i as int), short@, pm@),
            kind == 1 ==> res_views(out@) == string_values(items.take(i as int)),
            kind == 2 ==> res_views(out@) == integer_values(items.take(i as int)),
            kind == 3 ==> res_views(out@) == decimal_values(items.take(i as int)),
        decreases arr@.len() - i,
    {
        assert(items.take(i + 1).drop_last() =~= items.take(i as int));
        assert(items.take(i + 1).last() == jv(arr@[i as int]));
        let ghost out0 = out@;
        if kind == 0 {
            if let Json::Str(s) = &arr[i] {
                let r = enum_resource(s.as_str(), short, pm);
                out.push(r);
                assert(res_views(out@) =~= res_views(out0).push(r@));
            }
        } else if kind == 1 {
            if let Json::Str(s) = &arr[i] {
                out.push(Resource::Str(s.clone(), Lang::NoLang));
                assert(res_views(out@) =~= res_views(out0).push(ResourceV::Str(s@, Lang::NoLang)));
            }
        } else if kind == 2 {
            if let Json::Number(t) = &arr[i] {
                match parse_i64_text(t.as_str()) {
                    Some(n) => {
                        out.push(Resource::Integer(n));
                        assert(res_views(out@) =~= res_views(out0).push(ResourceV::Integer(n)));
                    },
                    None => {},
                }
            }
        } else {
            if let Json::Number(t) = &arr[i] {
                out.push(Resource::Decimal(t.clone()));
                assert(res_views(out@) =~= res_views(out0).push(ResourceV::Decimal(t@)));
            }
        }
        i = i + 1;
    }
    assert(items.take(arr@.len() as int) =~= items);
    out
}

fn enum_resource(s: &str, short: &str, pm: &PropertyMapping) -> (r: Resource)
    ensures
        r@ == enum_value(s@, short@, pm@),
{
    let enum_key = concat3(short, "*", s);
    match pm.get(enum_key.as_str()) {
        Some(uri) => Resource::Uri(uri.clone()),
        None => Resource::Str(crate::text::str_to_string(s), Lang::NoLang),
    }
}

fn put_nonempty(individual: &mut Individual, pred: &str, vals: Vec<Resource>)
    ensures
        final(individual)@ == with_values(old(individual)@, pred@, res_views(vals@)),
{
    if vals.len() > 0 {
        individual.put_values(pred, vals);
    }
}

/// Writes one answer value into the individual.
fn apply_one(
    individual: &mut Individual,
    full_prop: &str,
    short_name: &str,
    range: &str,
    value: &Json,
    pm: &PropertyMapping,
)
    ensures
        final(individual)@ == apply_value(old(individual)@, full_prop@, short_name@, range@, value@, pm@),
{
    individual.remove(full_prop);
    if !starts_with(range, "xsd:") {
        match value {
            Json::Array(arr) => {
                let vals = item_values(arr, 0, short_name, pm);
                put_nonempty(individual, full_prop, vals);
            },
            Json::Str(s) => {
                let r = enum_resource(s.as_str(), short_name, pm);
                match r {
                    Resource::Uri(u) => individual.set_uri(full_prop, u.as_str()),
                    Resource::Str(t, l) => individual.set_string(full_prop, t.as_str(), l),
                    _ => {},
                }
            },
            _ => {},
        }
    } else if str_eq(range, "xsd:string") {
        match value {
            Json::Array(arr) => {
                let vals = item_values(arr, 1, short_name, pm);
                put_nonempty(individual, full_prop, vals);
            },
            Json::Str(s) => individual.set_string(full_prop, s.as_str(), Lang::NoLang),
            _ => {},
        }
    } else if str_eq(range, "xsd:integer") {
        match value {
            Json::Array(arr) => {
                let vals = item_values(arr, 2, short_name, pm);
                put_nonempty(individual, full_prop, vals);
            },
            Json::Number(t) => match parse_i64_text(t.as_str()) {
                Some(n) => individual.set_integer(full_prop, n),
                None => {},
            },
            _ => {},
        }
    } else if str_eq(range, "xsd:decimal") {
        match value {
            Json::Array(arr) => {
                let vals = item_values(arr, 3, short_name, pm);
                put_nonempty(individual, full_prop, vals);
            },
            Json::Number(t) => individual.add_decimal(full_prop, t.as_str()),
            _ => {},
        }
    } else {
        match value {
            Json::Str(s) => individual.set_string(full_prop, s.as_str(), Lang::NoLang),
            _ => {},
        }
    }
}

/// Saves the values of an AI answer into `individual`: each entry of the answer's `result`
/// object whose short name the mapping knows, and whose property could be loaded (it is in
/// `ranges`, property URI to its `rdfs:range`, empty where it has none), replaces that
/// property's values.
pub fn set_to_individual_from_ai_response(
    individual: &mut Individual,
    ai_response: &AIResponseValues,
    property_mapping: &PropertyMapping,
    ranges: &PropertyMapping,
) -> (r: Result<(), ApplyError>)
    ensures
        obj_get(ai_response.entries(), "result"@) is None ==> r == Err::<(), ApplyError>(
            ApplyError::MissingResult,
        ) && final(individual)@ == old(individual)@,
        obj_get(ai_response.entries(), "result"@) matches Some(JsonV::Object(es)) ==> r is Ok
            && final(individual)@ == apply_entries(old(individual)@, es, property_mapping@, ranges@),
        obj_get(ai_response.entries(), "result"@) matches Some(v) && !(v is Object) ==> r
            == Err::<(), ApplyError>(ApplyError::ResultNotObject) && final(individual)@ == old(individual)@,
{
    let response_values = match ai_response.get("result") {
        Some(res) => match res {
            Json::Object(obj) => obj,
            _ => {
                return Err(ApplyError::ResultNotObject);
            },
        },
        None => {
            return Err(ApplyError::MissingResult);
        },
    };
    let ghost es = jv_entries(response_values@);
    let ghost ind0 = individual@;
    proof {
        lemma_jv_entries(response_values@);
    }
    let mut i: usize = 0;
    while i < response_values.len()
        invariant
            es == jv_entries(response_values@),
            es.len() == response_values@.len(),
            forall|k: int|
                0 <= k < response_values@.len() ==> #[trigger] es[k] == (
                    response_values@[k].0@,
                    jv(response_values@[k].1),
                ),
            i <= response_values@.len(),
            individual@ == apply_entries(ind0, es.take(i as int), property_mapping@, ranges@),
        decreases response_values@.len() - i,
    {
        assert(es.take(i + 1).drop_last() =~= es.take(i as int));
        let short_name = &response_values[i].0;
        let value = &response_values[i].1;
        match property_mapping.get(short_name.as_str()) {
            Some(full_prop) => match ranges.get(full_prop.as_str()) {
                Some(range) => {
                    apply_one(
                        individual,
                        full_prop.as_str(),
                        short_name.as_str(),
                        range.as_str(),
                        value,
                        property_mapping,
                    );
                },
                None => {},
            },
            None => {},
        }
        i = i + 1;
    }
    assert(es.take(response_values@.len() as int) =~= es);
    Ok(())
}

} // verus!
