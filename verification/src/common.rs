//! Property names, enumeration display values and their mapping to URIs.
use vstd::prelude::*;
use crate::json::{
    Json, JsonV, jv, jv_seq, jv_entries, obj_insert, json_copy, entries_insert, lemma_jv_seq,
    lemma_jv_entries, lemma_jv_seq_push,
};
use crate::kv::{kv_get, kv_map, kv_insert, no_key, lemma_kv_insert_at};
use crate::mapping::PropertyMapping;
use crate::text::{after_last, last_segment, split_once, split_once_spec, concat3};

verus! {

/// Which configured AI client a request goes to.
#[derive(PartialEq, Eq, Structural, Clone, Copy, Debug)]
pub enum ClientType {
    Default,
    Reasoning,
}

/// The only way a conversion of predicates fails: its input is not a JSON object.
#[derive(PartialEq, Eq, Structural, Clone, Copy, Debug)]
pub enum ConvertError {
    ExpectedObject,
}

impl ConvertError {
    pub fn message(&self) -> (r: String)
        ensures
            r@ == "Expected object for input"@,
    {
        String::from_str("Expected object for input")
    }
}

/// The entry sequence of a mapping after `shorten_predicate_name` met `full`.
pub open spec fn shorten_entries(pes: Seq<(Seq<char>, Seq<char>)>, full: Seq<char>) -> Seq<
    (Seq<char>, Seq<char>),
> {
    let short = after_last(full, ':');
    if kv_get(pes, short) is Some {
        pes
    } else {
        pes.push((short, full))
    }
}

/// The short name of a predicate: the text after its last `:`. A short name that the
/// mapping does not know yet is recorded with `full_name` as its URI.
pub fn shorten_predicate_name(full_name: &str, property_mapping: &mut PropertyMapping) -> (r:
    String)
    requires
        old(property_mapping).wf(),
    ensures
        r@ == after_last(full_name@, ':'),
        final(property_mapping).wf(),
        final(property_mapping).entry_seq() == shorten_entries(
            old(property_mapping).entry_seq(),
            full_name@,
        ),
        old(property_mapping)@.contains_key(r@) ==> final(property_mapping)@ == old(
            property_mapping,
        )@,
        !old(property_mapping)@.contains_key(r@) ==> final(property_mapping)@ == old(
            property_mapping,
        )@.insert(r@, full_name@),
{
    let short_name = last_segment(full_name, ':');
    proof {
        property_mapping.lemma_view();
    }
    if !property_mapping.contains_key(short_name.as_str()) {
        let ghost pes = property_mapping.entry_seq();
        proof {
            crate::kv::lemma_kv_cases(pes, short_name@);
            if !no_key(pes, short_name@) {
                let i = choose|i: int| crate::kv::first_index(pes, short_name@, i);
                crate::kv::lemma_kv_get_first(pes, short_name@, i);
            }
            lemma_kv_insert_at(pes, short_name@, full_name@, pes.len() as int);
        }
        property_mapping.insert(copy_str(&short_name), crate::text::str_to_string(full_name));
    }
    short_name
}

fn copy_str(s: &String) -> (r: String)
    ensures
        r@ == s@,
{
    s.clone()
}

/// The display value of `uri`: from the first entry, in insertion order, whose value is
/// `uri` and whose key holds a `*`, the key's text after its first `*`.
pub open spec fn display_for(pes: Seq<(Seq<char>, Seq<char>)>, uri: Seq<char>) -> Option<
    Seq<char>,
>
    decreases pes.len(),
{
    if pes.len() == 0 {
        None
    } else if pes[0].1 == uri && split_once_spec(pes[0].0, '*') is Some {
        Some(split_once_spec(pes[0].0, '*').unwrap().1)
    } else {
        display_for(pes.drop_first(), uri)
    }
}

/// Turns a full URI into its human-readable value, where the mapping has one.
pub fn transform_uri_to_display_value(uri: &str, property_mapping: &PropertyMapping) -> (r:
    Option<String>)
    ensures
        match r {
            Some(d) => display_for(property_mapping.entry_seq(), uri@) == Some(d@),
            None => display_for(property_mapping.entry_seq(), uri@) is None,
        },
{
    let ghost pes = property_mapping.entry_seq();
    let n = property_mapping.len();
    let mut i: usize = 0;
    assert(pes.skip(0) =~= pes);
    while i < n
        invariant
            pes == property_mapping.entry_seq(),
            n == pes.len(),
            i <= n,
            display_for(pes, uri@) == display_for(pes.skip(i as int), uri@),
        decreases n - i,
    {
        assert(pes.skip(i as int).drop_first() =~= pes.skip(i + 1));
        assert(pes.skip(i as int)[0] == pes[i as int]);
        let (key, value) = property_mapping.entry_at(i);
        if crate::text::str_eq(value.as_str(), uri) {
            match split_once(key.as_str(), '*') {
                Some((_prefix, display_value)) => {
                    return Some(display_value);
                },
                None => {},
            }
        }
        i = i + 1;
    }
    None
}

/// Turns a human-readable value of `predicate` back into its URI: the mapping's value of
/// the key `predicate*display_value`.
pub fn transform_display_value_to_uri(
    predicate: &str,
    display_value: &str,
    property_mapping: &PropertyMapping,
) -> (r: Option<String>)
    ensures
        match r {
            Some(u) => property_mapping@.contains_key(predicate@ + "*"@ + display_value@)
                && property_mapping@[predicate@ + "*"@ + display_value@] == u@,
            None => !property_mapping@.contains_key(predicate@ + "*"@ + display_value@),
        },
{
    let enum_key = concat3(predicate, "*", display_value);
    match property_mapping.get(enum_key.as_str()) {
        Some(u) => Some(copy_str(u)),
        None => None,
    }
}

/// A value with a URI that has a display value replaced by that display value.
pub open spec fn to_display(pes: Seq<(Seq<char>, Seq<char>)>, v: JsonV) -> JsonV {
    match v {
        JsonV::Str(s) => match display_for(pes, s) {
            Some(d) => JsonV::Str(d),
            None => v,
        },
        _ => v,
    }
}

/// A predicate's value with its URIs (alone or in an array) shown as display values.
pub open spec fn value_to_short(pes: Seq<(Seq<char>, Seq<char>)>, v: JsonV) -> JsonV {
    match v {
        JsonV::Array(items) => JsonV::Array(items.map_values(|x: JsonV| to_display(pes, x))),
        JsonV::Str(_) => to_display(pes, v),
        _ => v,
    }
}

/// The object entries and mapping entries after converting `es` in order.
pub open spec fn conv_full(es: Seq<(Seq<char>, JsonV)>, pes: Seq<(Seq<char>, Seq<char>)>) -> (
    Seq<(Seq<char>, JsonV)>,
    Seq<(Seq<char>, Seq<char>)>,
)
    decreases es.len(),
{
    if es.len() == 0 {
        (Seq::empty(), pes)
    } else {
        let prev = conv_full(es.drop_last(), pes);
        let full = es.last().0;
        let p2 = shorten_entries(prev.1, full);
        (obj_insert(prev.0, after_last(full, ':'), value_to_short(p2, es.last().1)), p2)
    }
}

fn display_item(item: &Json, property_mapping: &PropertyMapping) -> (r: Json)
    ensures
        r@ == to_display(property_mapping.entry_seq(), item@),
{
    match item {
        Json::Str(uri) => match transform_uri_to_display_value(uri.as_str(), property_mapping) {
            Some(d) => Json::Str(d),
            None => json_copy(item),
        },
        _ => json_copy(item),
    }
}

fn value_short(value: &Json, property_mapping: &PropertyMapping) -> (r: Json)
    ensures
        r@ == value_to_short(property_mapping.entry_seq(), value@),
{
    match value {
        Json::Array(arr) => {
            let ghost pes = property_mapping.entry_seq();
            let ghost items = jv_seq(arr@);
            proof {
                lemma_jv_seq(arr@);
            }
            let mut out: Vec<Json> = Vec::new();
            let mut i: usize = 0;
            while i < arr.len()
                invariant
                    pes == property_mapping.entry_seq(),
                    items == jv_seq(arr@),
                    items.len() == arr@.len(),
                    forall|k: int| 0 <= k < arr@.len() ==> #[trigger] items[k] == jv(arr@[k]),
                    i <= arr@.len(),
                    jv_seq(out@) == items.take(i as int).map_values(|x: JsonV| to_display(pes, x)),
                decreases arr@.len() - i,
            {
                let c = display_item(&arr[i], property_mapping);
                proof {
                    lemma_jv_seq_push(out@, c);
                }
                out.push(c);
                i = i + 1;
                assert(items.take(i as int).map_values(|x: JsonV| to_display(pes, x)) =~= items.take(
                    i - 1,
                ).map_values(|x: JsonV| to_display(pes, x)).push(to_display(pes, items[i - 1])));
            }
            assert(items.take(arr@.len() as int) =~= items);
            Json::Array(out)
        },
        Json::Str(_) => display_item(value, property_mapping),
        _ => json_copy(value),
    }
}

/// Turns the full predicate URIs of an object into short names, recording new short names
/// in the mapping, and URI values that have a display value into that display value.
pub fn convert_full_to_short_predicates(input: &Json, property_mapping: &mut PropertyMapping) -> (r:
    Result<Json, ConvertError>)
    requires
        old(property_mapping).wf(),
    ensures
        final(property_mapping).wf(),
        match input@ {
            JsonV::Object(es) => {
                &&& r matches Ok(j)
                &&& j@ == JsonV::Object(conv_full(es, old(property_mapping).entry_seq()).0)
                &&& final(property_mapping).entry_seq() == conv_full(
                    es,
                    old(property_mapping).entry_seq(),
                ).1
            },
            _ => r == Err::<Json, ConvertError>(ConvertError::ExpectedObject)
                && final(property_mapping).entry_seq() == old(property_mapping).entry_seq(),
        },
{
    match input {
        Json::Object(map) => {
            let ghost es = jv_entries(map@);
            let ghost pes0 = property_mapping.entry_seq();
            proof {
                lemma_jv_entries(map@);
            }
            let mut new_map: Vec<(String, Json)> = Vec::new();
            let mut i: usize = 0;
            while i < map.len()
                invariant
                    es == jv_entries(map@),
                    es.len() == map@.len(),
                    forall|k: int|
                        0 <= k < map@.len() ==> #[trigger] es[k] == (map@[k].0@, jv(map@[k].1)),
                    i <= map@.len(),
                    property_mapping.wf(),
                    jv_entries(new_map@) == conv_full(es.take(i as int), pes0).0,
                    property_mapping.entry_seq() == conv_full(es.take(i as int), pes0).1,
                decreases map@.len() - i,
            {
                assert(es.take(i + 1).drop_last() =~= es.take(i as int));
                let short_predicate = shorten_predicate_name(map[i].0.as_str(), property_mapping);
                let transformed_value = value_short(&map[i].1, property_mapping);
                entries_insert(&mut new_map, short_predicate, transformed_value);
                i = i + 1;
            }
            assert(es.take(map@.len() as int) =~= es);
            Ok(Json::Object(new_map))
        },
        _ => Err(ConvertError::ExpectedObject),
    }
}

/// The full URI of a short name: the mapping's value, or the name itself.
pub open spec fn full_of(pm: Map<Seq<char>, Seq<char>>, short: Seq<char>) -> Seq<char> {
    if pm.contains_key(short) {
        pm[short]
    } else {
        short
    }
}

/// A display value of `short` replaced by its URI where the mapping has one.
pub open spec fn to_uri(pm: Map<Seq<char>, Seq<char>>, short: Seq<char>, v: JsonV) -> JsonV {
    match v {
        JsonV::Str(d) => if pm.contains_key(short + "*"@ + d) {
            JsonV::Str(pm[short + "*"@ + d])
        } else {
            v
        },
        _ => v,
    }
}

pub open spec fn value_to_full(pm: Map<Seq<char>, Seq<char>>, short: Seq<char>, v: JsonV) -> JsonV {
    match v {
        JsonV::Array(items) => JsonV::Array(items.map_values(|x: JsonV| to_uri(pm, short, x))),
        JsonV::Str(_) => to_uri(pm, short, v),
        _ => v,
    }
}

pub open spec fn conv_short(es: Seq<(Seq<char>, JsonV)>, pm: Map<Seq<char>, Seq<char>>) -> Seq<
    (Seq<char>, JsonV),
>
    decreases es.len(),
{
    if es.len() == 0 {
        Seq::empty()
    } else {
        let short = es.last().0;
        obj_insert(
            conv_short(es.drop_last(), pm),
            full_of(pm, short),
            value_to_full(pm, short, es.last().1),
        )
    }
}

fn uri_item(item: &Json, short: &str, property_mapping: &PropertyMapping) -> (r: Json)
    ensures
        r@ == to_uri(property_mapping@, short@, item@),
{
    match item {
        Json::Str(d) => match transform_display_value_to_uri(short, d.as_str(), property_mapping) {
            Some(u) => Json::Str(u),
            None => json_copy(item),
        },
        _ => json_copy(item),
    }
}

fn value_full(value: &Json, short: &str, property_mapping: &PropertyMapping) -> (r: Json)
    ensures
        r@ == value_to_full(property_mapping@, short@, value@),
{
    match value {
        Json::Array(arr) => {
            let ghost pm = property_mapping@;
            let ghost items = jv_seq(arr@);
            proof {
                lemma_jv_seq(arr@);
            }
            let mut out: Vec<Json> = Vec::new();
            let mut i: usize = 0;
            while i < arr.len()
                invariant
                    pm == property_mapping@,
                    items == jv_seq(arr@),
                    items.len() == arr@.len(),
                    forall|k: int| 0 <= k < arr@.len() ==> #[trigger] items[k] == jv(arr@[k]),
                    i <= arr@.len(),
                    jv_seq(out@) == items.take(i as int).map_values(
                        |x: JsonV| to_uri(pm, short@, x),
                    ),
                decreases arr@.len() - i,
            {
                let c = uri_item(&arr[i], short, property_mapping);
                proof {
                    lemma_jv_seq_push(out@, c);
                }
                out.push(c);
                i = i + 1;
                assert(items.take(i as int).map_values(|x: JsonV| to_uri(pm, short@, x))
                    =~= items.take(i - 1).map_values(|x: JsonV| to_uri(pm, short@, x)).push(
                    to_uri(pm, short@, items[i - 1]),
                ));
            }
            assert(items.take(arr@.len() as int) =~= items);
            Json::Array(out)
        },
        Json::Str(_) => uri_item(value, short, property_mapping),
        _ => json_copy(value),
    }
}

/// Turns short predicate names of an object back into full URIs and display values back
/// into URIs, by the mapping.
pub fn convert_short_to_full_predicates(input: &Json, property_mapping: &PropertyMapping) -> (r:
    Result<Json, ConvertError>)
    ensures
        match input@ {
            JsonV::Object(es) => r matches Ok(j) && j@ == JsonV::Object(
                conv_short(es, property_mapping@),
            ),
            _ => r == Err::<Json, ConvertError>(ConvertError::ExpectedObject),
        },
{
    match input {
        Json::Object(map) => {
            let ghost es = jv_entries(map@);
            let ghost pm = property_mapping@;
            proof {
                lemma_jv_entries(map@);
            }
            let mut new_map: Vec<(String, Json)> = Vec::new();
            let mut i: usize = 0;
            while i < map.len()
                invariant
                    es == jv_entries(map@),
                    pm == property_mapping@,
                    es.len() == map@.len(),
                    forall|k: int|
                        0 <= k < map@.len() ==> #[trigger] es[k] == (map@[k].0@, jv(map@[k].1)),
                    i <= map@.len(),
                    jv_entries(new_map@) == conv_short(es.take(i as int), pm),
                decreases map@.len() - i,
            {
                assert(es.take(i + 1).drop_last() =~= es.take(i as int));
                let short_predicate = &map[i].0;
                let full_predicate = match property_mapping.get(short_predicate.as_str()) {
                    Some(full_name) => copy_str(full_name),
                    None => copy_str(short_predicate),
                };
                let transformed_value = value_full(&map[i].1, short_predicate.as_str(), property_mapping);
                entries_insert(&mut new_map, full_predicate, transformed_value);
                i = i + 1;
            }
            assert(es.take(map@.len() as int) =~= es);
            Ok(Json::Object(new_map))
        },
        _ => Err(ConvertError::ExpectedObject),
    }
}


/// Shortening the same name a second time gives the same short name and records nothing
/// more: the mapping after two calls is the mapping after one.
pub proof fn law_shorten_twice(pes: Seq<(Seq<char>, Seq<char>)>, full: Seq<char>)
    ensures
        shorten_entries(shorten_entries(pes, full), full) == shorten_entries(pes, full),
        kv_get(shorten_entries(pes, full), after_last(full, ':')) is Some,
{
    let short = after_last(full, ':');
    crate::kv::lemma_kv_get_push(pes, (short, full), short);
}

} // verus!
