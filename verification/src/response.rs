//! Turning an AI answer into individuals, by a response schema: the result individual, and
//! one related individual for each item of an array field that has a mapping.
use vstd::prelude::*;
use crate::ai_result::as_i64;
use crate::fresh::new_uuid;
use crate::individual::{Individual, IndividualV, Lang, Resource, ResourceV, res_views};
use crate::json::{
    Json, JsonV, jv, jv_seq, jv_entries, lemma_jv_entries, lemma_jv_seq, obj_get, entries_get,
    json_to_string, json_to_string_pretty, serde_json_text, serde_json_pretty_text,
};
use crate::mapping::TextMap;
use crate::onto::{Ontology, ind_views};
use crate::schema::{
    Property, PropertyV, pv, pv_entries, lemma_pv_entries, PropertyInfo, PropertyInfoV, info_of,
    get_property_info, ResponseSchema,
};
use crate::text::{str_eq, str_to_string, starts_with, concat2, concat3, is_prefix_of, views_of};
use crate::kv::{kv_map, no_key, lemma_kv_push_new};
use crate::mapping::keys_unique;

verus! {

/// What mapping an answer value has done so far: the individual the values go to, the
/// related individuals made, and how many fresh ids were taken.
pub struct MapState {
    pub parent: IndividualV,
    pub related: Seq<IndividualV>,
    pub next: nat,
}

/// `ext` starts with `u`.
pub open spec fn extends(ext: Seq<Seq<char>>, u: Seq<Seq<char>>) -> bool {
    u.len() <= ext.len() && forall|i: int| 0 <= i < u.len() ==> ext[i] == u[i]
}

pub open spec fn not_found(uri: Seq<char>) -> Seq<char> {
    "Property "@ + uri + " not found in ontology"@
}

pub open spec fn enum_key(property: Seq<char>, s: Seq<char>) -> Seq<char> {
    property + "*"@ + s
}

/// `ind` with `r` added to `uri` (several values) or as its only value.
pub open spec fn put(ind: IndividualV, uri: Seq<char>, r: ResourceV, multi: bool) -> IndividualV {
    if multi {
        ind.with_added(uri, r)
    } else {
        ind.with(uri, seq![r])
    }
}

/// A value written by the property's type: a string for string and date types, an
/// integer, a decimal for a number, else the string or, for any other value, its JSON text.
pub open spec fn spv(ind: IndividualV, uri: Seq<char>, v: JsonV, ptype: Seq<char>, multi: bool) -> IndividualV {
    if ptype == "xsd:string"@ || ptype == "xsd:dateTime"@ {
        match v {
            JsonV::Str(s) => put(ind, uri, ResourceV::Str(s, Lang::NoLang), multi),
            _ => ind,
        }
    } else if ptype == "xsd:integer"@ {
        match as_i64(v) {
            Some(n) => put(ind, uri, ResourceV::Integer(n), multi),
            None => ind,
        }
    } else if ptype == "xsd:decimal"@ {
        match v {
            JsonV::Number(t) => put(ind, uri, ResourceV::Decimal(t), multi),
            _ => ind,
        }
    } else {
        match v {
            JsonV::Str(s) => put(ind, uri, ResourceV::Str(s, Lang::NoLang), multi),
            _ => put(ind, uri, ResourceV::Str(serde_json_text(v), Lang::NoLang), multi),
        }
    }
}

/// `ind` after `r` is written to `uri`: after its old values where the property takes
/// several, else as its only value.
pub open spec fn values_after(ind: IndividualV, uri: Seq<char>, r: ResourceV, multi: bool) -> Seq<ResourceV> {
    if multi {
        ind.values(uri).push(r)
    } else {
        seq![r]
    }
}

/// An answer value is written by its property's type: a JSON integer `n` to an
/// `xsd:integer` property as `Integer(n)`, a text to an `xsd:string` or `xsd:dateTime`
/// property as that string, a number to an `xsd:decimal` property as that decimal; the
/// property then holds it as its only value, or after its old values where it takes
/// several, and every other property reads as before. So does a number answered for a
/// mapped field whose property in the ontology has the range `xsd:integer`, whether it comes
/// as a leaf of the schema or as a field of an object. A text answered for a leaf whose
/// enumeration mapping knows it (`property*text`) is written as the mapped URI; a text for a
/// property of any other type is written as that string.
pub proof fn law_typed_value(
    ind: IndividualV,
    uri: Seq<char>,
    v: JsonV,
    ptype: Seq<char>,
    multi: bool,
    other: Seq<char>,
    n: i64,
    s: Seq<char>,
    prop: IndividualV,
    property: Seq<char>,
    em: Map<Seq<char>, Seq<char>>,
)
    ensures
        ptype == "xsd:integer"@ && as_i64(v) == Some(n) ==> spv(ind, uri, v, ptype, multi).values(uri)
            == values_after(ind, uri, ResourceV::Integer(n), multi),
        (ptype == "xsd:string"@ || ptype == "xsd:dateTime"@) && v == JsonV::Str(s) ==> spv(ind, uri, v, ptype, multi).values(
            uri,
        ) == values_after(ind, uri, ResourceV::Str(s, Lang::NoLang), multi),
        ptype == "xsd:decimal"@ && v == JsonV::Number(s) ==> spv(ind, uri, v, ptype, multi).values(uri)
            == values_after(ind, uri, ResourceV::Decimal(s), multi),
        ptype != "xsd:string"@ && ptype != "xsd:dateTime"@ && ptype != "xsd:integer"@ && ptype != "xsd:decimal"@
            && v == JsonV::Str(s) ==> spv(ind, uri, v, ptype, multi).values(uri) == values_after(
            ind,
            uri,
            ResourceV::Str(s, Lang::NoLang),
            multi,
        ),
        other != uri ==> spv(ind, uri, v, ptype, multi).values(other) == ind.values(other),
        v == JsonV::Str(s) && em.contains_key(enum_key(property, s)) ==> map_leaf(
            v,
            uri,
            info_of(prop),
            Some(multi),
            property,
            em,
            ind,
        ).values(uri) == values_after(ind, uri, ResourceV::Uri(em[enum_key(property, s)]), multi),
        ({
            &&& prop.first_literal("rdfs:range"@) == Some("xsd:integer"@)
            &&& !prop.any_exists("rdf:type"@, seq!["owl:Class"@])
            &&& v is Number
            &&& as_i64(v) == Some(n)
        }) ==> {
            let multi_p = !prop.any_exists("rdf:type"@, seq!["owl:FunctionalProperty"@]);
            &&& map_leaf(v, uri, info_of(prop), None, property, em, ind).values(uri) == values_after(
                ind,
                uri,
                ResourceV::Integer(n),
                multi_p,
            )
            &&& field_value(ind, uri, v, info_of(prop), property, em).values(uri) == values_after(
                ind,
                uri,
                ResourceV::Integer(n),
                multi_p,
            )
        },
{
    reveal_strlit("xsd:integer");
    reveal_strlit("xsd:string");
    reveal_strlit("xsd:dateTime");
    reveal_strlit("xsd:decimal");
    assert("xsd:integer"@[4] == 'i' && "xsd:string"@[4] == 's' && "xsd:dateTime"@[4] == 'd' && "xsd:decimal"@[4] == 'd');
    assert("xsd:dateTime"@[5] == 'a' && "xsd:decimal"@[5] == 'e');
}

/// The `assign_properties` object among a property's extra fields.
pub open spec fn assign_entries(add: Seq<(Seq<char>, JsonV)>) -> Seq<(Seq<char>, JsonV)> {
    match obj_get(add, "assign_properties"@) {
        Some(JsonV::Object(es)) => es,
        _ => Seq::empty(),
    }
}

/// `ind` after each string entry of `es` is set as a URI value.
pub open spec fn apply_assign(ind: IndividualV, es: Seq<(Seq<char>, JsonV)>) -> IndividualV
    decreases es.len(),
{
    if es.len() == 0 {
        ind
    } else {
        let prev = apply_assign(ind, es.drop_last());
        match es.last().1 {
            JsonV::Str(v) => prev.with(es.last().0, seq![ResourceV::Uri(v)]),
            _ => prev,
        }
    }
}

/// The items of an array value, written to `uri`: objects as pretty JSON text for a class
/// property, else strings as enumeration URIs where known, or by the property's type.
pub open spec fn leaf_items(
    items: Seq<JsonV>,
    uri: Seq<char>,
    info: PropertyInfoV,
    property: Seq<char>,
    em: Map<Seq<char>, Seq<char>>,
    ind: IndividualV,
) -> IndividualV
    decreases items.len(),
{
    if items.len() == 0 {
        ind
    } else {
        let prev = leaf_items(items.drop_last(), uri, info, property, em, ind);
        let it = items.last();
        if info.is_class {
            match it {
                JsonV::Object(_) => prev.with_added(
                    uri,
                    ResourceV::Str(serde_json_pretty_text(it), Lang::NoLang),
                ),
                _ => prev,
            }
        } else {
            match it {
                JsonV::Str(s) => if em.contains_key(enum_key(property, s)) {
                    prev.with_added(uri, ResourceV::Uri(em[enum_key(property, s)]))
                } else {
                    spv(prev, uri, it, info.property_type, true)
                },
                _ => prev,
            }
        }
    }
}

/// A value of a field that has a mapping and no nested description.
pub open spec fn map_leaf(
    v: JsonV,
    uri: Seq<char>,
    info: PropertyInfoV,
    declared_multiple: Option<bool>,
    property: Seq<char>,
    em: Map<Seq<char>, Seq<char>>,
    ind: IndividualV,
) -> IndividualV {
    let multi = match declared_multiple {
        Some(b) => b,
        None => info.is_multiple,
    };
    match v {
        JsonV::Array(items) => leaf_items(items, uri, info, property, em, ind),
        JsonV::Object(_) => if info.is_class {
            put(ind, uri, ResourceV::Str(serde_json_pretty_text(v), Lang::NoLang), multi)
        } else {
            spv(ind, uri, v, info.property_type, multi)
        },
        JsonV::Str(s) => if em.contains_key(enum_key(property, s)) {
            put(ind, uri, ResourceV::Uri(em[enum_key(property, s)]), multi)
        } else {
            spv(ind, uri, v, info.property_type, multi)
        },
        _ => spv(ind, uri, v, info.property_type, multi),
    }
}

/// A value of a named field of an object value, whose description has a mapping.
pub open spec fn field_value(
    ind: IndividualV,
    uri: Seq<char>,
    v: JsonV,
    info: PropertyInfoV,
    key: Seq<char>,
    em: Map<Seq<char>, Seq<char>>,
) -> IndividualV {
    if info.range_type is Some && !is_prefix_of("xsd:"@, info.property_type) && v is Str
        && em.contains_key(enum_key(key, v->Str_0)) {
        put(ind, uri, ResourceV::Uri(em[enum_key(key, v->Str_0)]), info.is_multiple)
    } else {
        spv(ind, uri, v, info.property_type, info.is_multiple)
    }
}

/// Maps the answer value `v` by the description `mp` into the state `st`; the fresh ids
/// come from `ids`, from index `st.next` on. An error ends the mapping.
pub open spec fn map_val(
    v: JsonV,
    mp: PropertyV,
    onto: Ontology,
    st: MapState,
    property: Seq<char>,
    em: Map<Seq<char>, Seq<char>>,
    ids: Seq<Seq<char>>,
) -> Result<MapState, Seq<char>>
    decreases mp, 0int, 0int,
{
    if mp.value_type == Some("array"@) && mp.items is Some && v is Array {
        match mp.mapping {
            None => Err("No mapping URI provided for array items"@),
            Some(uri) => match onto.find(uri) {
                None => Err(not_found(uri)),
                Some(ind) => map_items(
                    v->Array_0,
                    (v->Array_0).len() as int,
                    *mp.items->0,
                    uri,
                    info_of(ind),
                    onto,
                    st,
                    property,
                    em,
                    ids,
                ),
            },
        }
    } else if mp.properties is Some && v is Object {
        let st1 = MapState {
            parent: apply_assign(st.parent, assign_entries(mp.additional)),
            related: st.related,
            next: st.next,
        };
        map_fields(
            v->Object_0,
            mp.properties->0,
            (mp.properties->0).len() as int,
            onto,
            st1,
            em,
            ids,
        )
    } else {
        match mp.mapping {
            None => Ok(st),
            Some(uri) => match onto.find(uri) {
                None => Err(not_found(uri)),
                Some(ind) => Ok(
                    MapState {
                        parent: map_leaf(v, uri, info_of(ind), mp.is_multiple, property, em, st.parent),
                        related: st.related,
                        next: st.next,
                    },
                ),
            },
        }
    }
}

/// The first `n` items of an array field: each becomes a related individual with a fresh
/// id, the items' assigned URIs and the range class as its type, filled by the item's
/// description, and linked from the parent under `uri`.
pub open spec fn map_items(
    arr: Seq<JsonV>,
    n: int,
    items: PropertyV,
    uri: Seq<char>,
    info: PropertyInfoV,
    onto: Ontology,
    st: MapState,
    property: Seq<char>,
    em: Map<Seq<char>, Seq<char>>,
    ids: Seq<Seq<char>>,
) -> Result<MapState, Seq<char>>
    decreases items, 1int, n,
{
    if n <= 0 || n > arr.len() {
        Ok(st)
    } else {
        match map_items(arr, n - 1, items, uri, info, onto, st, property, em, ids) {
            Err(e) => Err(e),
            Ok(st0) => {
                let rel0 = IndividualV { id: "d:"@ + ids[st0.next as int], props: Map::empty() };
                let rel1 = apply_assign(rel0, assign_entries(items.additional));
                let rel2 = match info.range_type {
                    Some(rt) => rel1.with("rdf:type"@, seq![ResourceV::Uri(rt)]),
                    None => rel1,
                };
                let sti = MapState { parent: rel2, related: st0.related, next: st0.next + 1 };
                match map_val(arr[n - 1], items, onto, sti, property, em, ids) {
                    Err(e) => Err(e),
                    Ok(st1) => Ok(
                        MapState {
                            parent: st0.parent.with_added(uri, ResourceV::Uri(st1.parent.id)),
                            related: st1.related.push(st1.parent),
                            next: st1.next,
                        },
                    ),
                }
            },
        }
    }
}

/// The first `n` described fields of an object value, those the value has.
pub open spec fn map_fields(
    obj: Seq<(Seq<char>, JsonV)>,
    ps: Seq<(Seq<char>, PropertyV)>,
    n: int,
    onto: Ontology,
    st: MapState,
    em: Map<Seq<char>, Seq<char>>,
    ids: Seq<Seq<char>>,
) -> Result<MapState, Seq<char>>
    decreases ps, 1int, n,
{
    if n <= 0 || n > ps.len() {
        Ok(st)
    } else {
        match map_fields(obj, ps, n - 1, onto, st, em, ids) {
            Err(e) => Err(e),
            Ok(st0) => match obj_get(obj, ps[n - 1].0) {
                None => Ok(st0),
                Some(pval) => match ps[n - 1].1.mapping {
                    None => map_val(pval, ps[n - 1].1, onto, st0, ps[n - 1].0, em, ids),
                    Some(uri) => match onto.find(uri) {
                        None => Err(not_found(uri)),
                        Some(ind) => Ok(
                            MapState {
                                parent: field_value(st0.parent, uri, pval, info_of(ind), ps[n - 1].0, em),
                                related: st0.related,
                                next: st0.next,
                            },
                        ),
                    },
                },
            },
        }
    }
}

proof fn lemma_map_items_err(
    arr: Seq<JsonV>,
    m: int,
    n: int,
    items: PropertyV,
    uri: Seq<char>,
    info: PropertyInfoV,
    onto: Ontology,
    st: MapState,
    property: Seq<char>,
    em: Map<Seq<char>, Seq<char>>,
    ids: Seq<Seq<char>>,
)
    requires
        0 <= m <= n <= arr.len(),
        map_items(arr, m, items, uri, info, onto, st, property, em, ids) is Err,
    ensures
        map_items(arr, n, items, uri, info, onto, st, property, em, ids) == map_items(
            arr,
            m,
            items,
            uri,
            info,
            onto,
            st,
            property,
            em,
            ids,
        ),
    decreases n - m,
{
    if m < n {
        lemma_map_items_err(arr, m, n - 1, items, uri, info, onto, st, property, em, ids);
    }
}

proof fn lemma_map_fields_err(
    obj: Seq<(Seq<char>, JsonV)>,
    ps: Seq<(Seq<char>, PropertyV)>,
    m: int,
    n: int,
    onto: Ontology,
    st: MapState,
    em: Map<Seq<char>, Seq<char>>,
    ids: Seq<Seq<char>>,
)
    requires
        0 <= m <= n <= ps.len(),
        map_fields(obj, ps, m, onto, st, em, ids) is Err,
    ensures
        map_fields(obj, ps, n, onto, st, em, ids) == map_fields(obj, ps, m, onto, st, em, ids),
    decreases n - m,
{
    if m < n {
        lemma_map_fields_err(obj, ps, m, n - 1, onto, st, em, ids);
    }
}

pub open spec fn outcome(r: Result<(), String>, parent: IndividualV, related: Seq<IndividualV>, next: nat) -> Result<
    MapState,
    Seq<char>,
> {
    match r {
        Ok(_) => Ok(MapState { parent, related, next }),
        Err(e) => Err(e@),
    }
}

// ---- writing values ----
fn put_resource(ind: &mut Individual, uri: &str, r: Resource, multi: bool)
    ensures
        final(ind)@ == put(old(ind)@, uri@, r@, multi),
{
    if multi {
        ind.add_resource(uri, r);
    } else {
        let ghost rv = r@;
        let mut v: Vec<Resource> = Vec::new();
        v.push(r);
        assert(res_views(v@) =~= seq![rv]);
        ind.put_values(uri, v);
    }
}

fn json_as_i64(v: &Json) -> (r: Option<i64>)
    ensures
        r == as_i64(v@),
{
    match v {
        Json::Number(t) => crate::text::parse_i64_text(t.as_str()),
        _ => None,
    }
}

fn set_property_value(
    individual: &mut Individual,
    property: &str,
    value: &Json,
    property_type: &str,
    is_multiple: bool,
)
    ensures
        final(individual)@ == spv(old(individual)@, property@, value@, property_type@, is_multiple),
{
    if str_eq(property_type, "xsd:string") || str_eq(property_type, "xsd:dateTime") {
        match value {
            Json::Str(s) => put_resource(individual, property, Resource::Str(s.clone(), Lang::NoLang), is_multiple),
            _ => {},
        }
    } else if str_eq(property_type, "xsd:integer") {
        match json_as_i64(value) {
            Some(n) => put_resource(individual, property, Resource::Integer(n), is_multiple),
            None => {},
        }
    } else if str_eq(property_type, "xsd:decimal") {
        match value {
            Json::Number(t) => put_resource(individual, property, Resource::Decimal(t.clone()), is_multiple),
            _ => {},
        }
    } else {
        match value {
            Json::Str(s) => put_resource(individual, property, Resource::Str(s.clone(), Lang::NoLang), is_multiple),
            _ => {
                let t = json_to_string(value);
                put_resource(individual, property, Resource::Str(t, Lang::NoLang), is_multiple);
            },
        }
    }
}

fn apply_assign_props(ind: &mut Individual, additional: &Vec<(String, Json)>)
    ensures
        final(ind)@ == apply_assign(old(ind)@, assign_entries(jv_entries(additional@))),
{
    match entries_get(additional, "assign_properties") {
        Some(Json::Object(es)) => {
            let ghost e = jv_entries(es@);
            let ghost i0 = ind@;
            proof {
                lemma_jv_entries(es@);
            }
            let mut i: usize = 0;
            while i < es.len()
                invariant
                    e == jv_entries(es@),
                    e.len() == es@.len(),
                    forall|k: int| 0 <= k < es@.len() ==> #[trigger] e[k] == (es@[k].0@, jv(es@[k].1)),
                    i <= es@.len(),
                    ind@ == apply_assign(i0, e.take(i as int)),
                decreases es@.len() - i,
            {
                assert(e.take(i + 1).drop_last() =~= e.take(i as int));
                match &es[i].1 {
                    Json::Str(v) => ind.set_uri(es[i].0.as_str(), v.as_str()),
                    _ => {},
                }
                i = i + 1;
            }
            assert(e.take(es@.len() as int) =~= e);
        },
        _ => {},
    }
}

fn map_leaf_value(
    value: &Json,
    uri: &str,
    info: &PropertyInfo,
    declared_multiple: Option<bool>,
    property: &str,
    em: &TextMap,
    parent: &mut Individual,
)
    ensures
        final(parent)@ == map_leaf(value@, uri@, info@, declared_multiple, property@, em@, old(parent)@),
{
    let is_multiple = match declared_multiple {
        Some(b) => b,
        None => info.is_multiple,
    };
    match value {
        Json::Array(arr) => {
            let ghost items = jv_seq(arr@);
            let ghost p0 = parent@;
            proof {
                lemma_jv_seq(arr@);
            }
            let mut i: usize = 0;
            while i < arr.len()
                invariant
                    items == jv_seq(arr@),
                    items.len() == arr@.len(),
                    forall|k: int| 0 <= k < arr@.len() ==> #[trigger] items[k] == jv(arr@[k]),
                    i <= arr@.len(),
                    parent@ == leaf_items(items.take(i as int), uri@, info@, property@, em@, p0),
                decreases arr@.len() - i,
            {
                assert(items.take(i + 1).drop_last() =~= items.take(i as int));
                let item = &arr[i];
                if info.is_class {
                    match item {
                        Json::Object(_) => {
                            let t = json_to_string_pretty(item);
                            parent.add_string(uri, t.as_str(), Lang::NoLang);
                        },
                        _ => {},
                    }
                } else {
                    match item {
                        Json::Str(s) => {
                            let k = concat3(property, "*", s.as_str());
                            match em.get(k.as_str()) {
                                Some(u) => parent.add_uri(uri, u.as_str()),
                                None => set_property_value(
                                    parent,
                                    uri,
                                    item,
                                    info.property_type.as_str(),
                                    true,
                                ),
                            }
                        },
                        _ => {},
                    }
                }
                i = i + 1;
            }
            assert(items.take(arr@.len() as int) =~= items);
        },
        Json::Object(_) => {
            if info.is_class {
                let t = json_to_string_pretty(value);
                put_resource(parent, uri, Resource::Str(t, Lang::NoLang), is_multiple);
            } else {
                set_property_value(parent, uri, value, info.property_type.as_str(), is_multiple);
            }
        },
        Json::Str(s) => {
            let k = concat3(property, "*", s.as_str());
            match em.get(k.as_str()) {
                Some(u) => put_resource(parent, uri, Resource::Uri(u.clone()), is_multiple),
                None => set_property_value(parent, uri, value, info.property_type.as_str(), is_multiple),
            }
        },
        _ => set_property_value(parent, uri, value, info.property_type.as_str(), is_multiple),
    }
}

fn map_field_value(
    parent: &mut Individual,
    uri: &str,
    value: &Json,
    info: &PropertyInfo,
    key: &str,
    em: &TextMap,
)
    ensures
        final(parent)@ == field_value(old(parent)@, uri@, value@, info@, key@, em@),
{
    if info.range_type.is_some() && !starts_with(info.property_type.as_str(), "xsd:") {
        match value {
            Json::Str(s) => {
                let k = concat3(key, "*", s.as_str());
                match em.get(k.as_str()) {
                    Some(u) => {
                        put_resource(parent, uri, Resource::Uri(u.clone()), info.is_multiple);
                        return ;
                    },
                    None => {},
                }
            },
            _ => {},
        }
    }
    set_property_value(parent, uri, value, info.property_type.as_str(), info.is_multiple);
}

// ---- mapping an answer value ----
proof fn lemma_extends_trans(a: Seq<Seq<char>>, b: Seq<Seq<char>>, c: Seq<Seq<char>>)
    requires
        extends(a, b),
        extends(b, c),
    ensures
        extends(a, c),
{
}

/// Takes a fresh id and records it.
fn fresh_id(used: &mut Vec<String>) -> (r: String)
    ensures
        views_of(final(used)@) == views_of(old(used)@).push(r@),
{
    let u = new_uuid();
    let c = u.clone();
    used.push(u);
    assert(views_of(used@) =~= views_of(old(used)@).push(c@));
    c
}

fn map_array_value(
    arr: &Vec<Json>,
    items: &Property,
    uri: &str,
    info: &PropertyInfo,
    onto: &Ontology,
    related: &mut Vec<Individual>,
    parent: &mut Individual,
    property: &str,
    em: &TextMap,
    used: &mut Vec<String>,
) -> (r: Result<(), String>)
    ensures
        extends(views_of(final(used)@), views_of(old(used)@)),
        forall|ext: Seq<Seq<char>>|
            #[trigger] extends(ext, views_of(final(used)@)) ==> map_items(
                jv_seq(arr@),
                arr@.len() as int,
                pv(*items),
                uri@,
                info@,
                *onto,
                MapState {
                    parent: old(parent)@,
                    related: ind_views(old(related)@),
                    next: old(used)@.len(),
                },
                property@,
                em@,
                ext,
            ) == outcome(r, final(parent)@, ind_views(final(related)@), final(used)@.len()),
    decreases items, 1int,
{
    let ghost av = jv_seq(arr@);
    let ghost st = MapState {
        parent: old(parent)@,
        related: ind_views(old(related)@),
        next: old(used)@.len(),
    };
    proof {
        lemma_jv_seq(arr@);
    }
    let mut i: usize = 0;
    while i < arr.len()
        invariant
            av == jv_seq(arr@),
            av.len() == arr@.len(),
            forall|k: int| 0 <= k < arr@.len() ==> #[trigger] av[k] == jv(arr@[k]),
            st == (MapState {
                parent: old(parent)@,
                related: ind_views(old(related)@),
                next: old(used)@.len(),
            }),
            i <= arr@.len(),
            extends(views_of(used@), views_of(old(used)@)),
            forall|ext: Seq<Seq<char>>|
                #[trigger] extends(ext, views_of(used@)) ==> map_items(
                    av,
                    i as int,
                    pv(*items),
                    uri@,
                    info@,
                    *onto,
                    st,
                    property@,
                    em@,
                    ext,
                ) == Ok::<MapState, Seq<char>>(
                    MapState { parent: parent@, related: ind_views(related@), next: used@.len() },
                ),
        decreases arr@.len() - i,
    {
        let ghost u0 = views_of(used@);
        let ghost p0 = parent@;
        let ghost r0 = ind_views(related@);
        let id = fresh_id(used);
        let ghost u1 = views_of(used@);
        let mut rel = Individual::with_id(concat2("d:", id.as_str()).as_str());
        apply_assign_props(&mut rel, &items.additional);
        match &info.range_type {
            Some(rt) => rel.set_uri("rdf:type", rt.as_str()),
            None => {},
        }
        let ghost rel2 = rel@;
        let res = map_ai_value_to_individual(&arr[i], items, onto, related, &mut rel, property, em, used);
        let ghost u2 = views_of(used@);
        match res {
            Err(e) => {
                proof {
                    assert forall|ext: Seq<Seq<char>>| #[trigger]
                        extends(ext, u2) implies map_items(
                        av,
                        arr@.len() as int,
                        pv(*items),
                        uri@,
                        info@,
                        *onto,
                        st,
                        property@,
                        em@,
                        ext,
                    ) == Err::<MapState, Seq<char>>(e@) by {
                        lemma_extends_trans(ext, u2, u1);
                        lemma_extends_trans(ext, u1, u0);
                        assert(extends(ext, u0));
                        assert(ext[u0.len() as int] == u1[u0.len() as int]);
                        assert(map_items(av, i + 1, pv(*items), uri@, info@, *onto, st, property@, em@, ext)
                            == Err::<MapState, Seq<char>>(e@));
                        lemma_map_items_err(
                            av,
                            i + 1,
                            arr@.len() as int,
                            pv(*items),
                            uri@,
                            info@,
                            *onto,
                            st,
                            property@,
                            em@,
                            ext,
                        );
                    }
                }
                return Err(e);
            },
            Ok(()) => {},
        }
        let ghost relf = rel@;
        let ghost r1 = ind_views(related@);
        parent.add_uri(uri, rel.get_id());
        related.push(rel);
        proof {
            assert(ind_views(related@) =~= r1.push(relf));
            assert forall|ext: Seq<Seq<char>>| #[trigger]
                extends(ext, u2) implies map_items(
                av,
                i + 1,
                pv(*items),
                uri@,
                info@,
                *onto,
                st,
                property@,
                em@,
                ext,
            ) == Ok::<MapState, Seq<char>>(
                MapState { parent: parent@, related: ind_views(related@), next: used@.len() },
            ) by {
                lemma_extends_trans(ext, u2, u1);
                lemma_extends_trans(ext, u1, u0);
                assert(extends(ext, u0));
                assert(ext[u0.len() as int] == u1[u0.len() as int]);
                let st0 = MapState { parent: p0, related: r0, next: u0.len() };
                assert(map_items(av, i as int, pv(*items), uri@, info@, *onto, st, property@, em@, ext)
                    == Ok::<MapState, Seq<char>>(st0));
                let rel0 = IndividualV { id: "d:"@ + ext[st0.next as int], props: Map::empty() };
                let rel1 = apply_assign(rel0, assign_entries(pv(*items).additional));
                let relx = match info@.range_type {
                    Some(rt) => rel1.with("rdf:type"@, seq![ResourceV::Uri(rt)]),
                    None => rel1,
                };
                assert(relx == rel2);
                let sti = MapState { parent: rel2, related: r0, next: st0.next + 1 };
                assert(map_val(av[i as int], pv(*items), *onto, sti, property@, em@, ext)
                    == Ok::<MapState, Seq<char>>(MapState { parent: relf, related: r1, next: used@.len() }));
            }
        }
        i = i + 1;
    }
    Ok(())
}

fn map_object_value(
    obj: &Vec<(String, Json)>,
    ps: &Vec<(String, Property)>,
    onto: &Ontology,
    related: &mut Vec<Individual>,
    parent: &mut Individual,
    em: &TextMap,
    used: &mut Vec<String>,
) -> (r: Result<(), String>)
    ensures
        extends(views_of(final(used)@), views_of(old(used)@)),
        forall|ext: Seq<Seq<char>>|
            #[trigger] extends(ext, views_of(final(used)@)) ==> map_fields(
                jv_entries(obj@),
                pv_entries(ps@),
                ps@.len() as int,
                *onto,
                MapState {
                    parent: old(parent)@,
                    related: ind_views(old(related)@),
                    next: old(used)@.len(),
                },
                em@,
                ext,
            ) == outcome(r, final(parent)@, ind_views(final(related)@), final(used)@.len()),
    decreases ps, 1int,
{
    let ghost ov = jv_entries(obj@);
    let ghost pvs = pv_entries(ps@);
    let ghost st = MapState {
        parent: old(parent)@,
        related: ind_views(old(related)@),
        next: old(used)@.len(),
    };
    proof {
        lemma_pv_entries(ps@);
    }
    let mut i: usize = 0;
    while i < ps.len()
        invariant
            ov == jv_entries(obj@),
            pvs == pv_entries(ps@),
            pvs.len() == ps@.len(),
            forall|k: int| 0 <= k < ps@.len() ==> #[trigger] pvs[k] == (ps@[k].0@, pv(ps@[k].1)),
            st == (MapState {
                parent: old(parent)@,
                related: ind_views(old(related)@),
                next: old(used)@.len(),
            }),
            i <= ps@.len(),
            extends(views_of(used@), views_of(old(used)@)),
            forall|ext: Seq<Seq<char>>|
                #[trigger] extends(ext, views_of(used@)) ==> map_fields(
                    ov,
                    pvs,
                    i as int,
                    *onto,
                    st,
                    em@,
                    ext,
                ) == Ok::<MapState, Seq<char>>(
                    MapState { parent: parent@, related: ind_views(related@), next: used@.len() },
                ),
        decreases ps@.len() - i,
    {
        proof {
            assert(decreases_to!(ps => ps@));
            assert(decreases_to!(ps@ => ps@[i as int]));
            assert(decreases_to!(ps@[i as int] => ps@[i as int].1));
        }
        let ghost u0 = views_of(used@);
        let key = &ps[i].0;
        let pm = &ps[i].1;
        match entries_get(obj, key.as_str()) {
            None => {},
            Some(pval) => {
                match &pm.mapping {
                    None => {
                        let res = map_ai_value_to_individual(pval, pm, onto, related, parent, key.as_str(), em, used);
                        let ghost u2 = views_of(used@);
                        match res {
                            Err(e) => {
                                proof {
                                    assert forall|ext: Seq<Seq<char>>| #[trigger]
                                        extends(ext, u2) implies map_fields(
                                        ov,
                                        pvs,
                                        ps@.len() as int,
                                        *onto,
                                        st,
                                        em@,
                                        ext,
                                    ) == Err::<MapState, Seq<char>>(e@) by {
                                        lemma_extends_trans(ext, u2, u0);
                                        assert(map_fields(ov, pvs, i + 1, *onto, st, em@, ext)
                                            == Err::<MapState, Seq<char>>(e@));
                                        lemma_map_fields_err(
                                            ov,
                                            pvs,
                                            i + 1,
                                            ps@.len() as int,
                                            *onto,
                                            st,
                                            em@,
                                            ext,
                                        );
                                    }
                                }
                                return Err(e);
                            },
                            Ok(()) => {
                                proof {
                                    assert forall|ext: Seq<Seq<char>>| #[trigger]
                                        extends(ext, u2) implies map_fields(
                                        ov,
                                        pvs,
                                        i + 1,
                                        *onto,
                                        st,
                                        em@,
                                        ext,
                                    ) == Ok::<MapState, Seq<char>>(
                                        MapState {
                                            parent: parent@,
                                            related: ind_views(related@),
                                            next: used@.len(),
                                        },
                                    ) by {
                                        lemma_extends_trans(ext, u2, u0);
                                    }
                                }
                            },
                        }
                    },
                    Some(uri) => {
                        match get_property_info(onto, uri.as_str()) {
                            Err(e) => {
                                proof {
                                    assert forall|ext: Seq<Seq<char>>| #[trigger]
                                        extends(ext, u0) implies map_fields(
                                        ov,
                                        pvs,
                                        ps@.len() as int,
                                        *onto,
                                        st,
                                        em@,
                                        ext,
                                    ) == Err::<MapState, Seq<char>>(e@) by {
                                        assert(map_fields(ov, pvs, i + 1, *onto, st, em@, ext)
                                            == Err::<MapState, Seq<char>>(e@));
                                        lemma_map_fields_err(
                                            ov,
                                            pvs,
                                            i + 1,
                                            ps@.len() as int,
                                            *onto,
                                            st,
                                            em@,
                                            ext,
                                        );
                                    }
                                }
                                return Err(e);
                            },
                            Ok(info) => {
                                map_field_value(parent, uri.as_str(), pval, &info, key.as_str(), em);
                            },
                        }
                    },
                }
            },
        }
        i = i + 1;
    }
    Ok(())
}

/// Maps one answer value by its description into `parent`, making related individuals for
/// the items of array fields; fresh ids are taken into `used`. The contract holds for
/// every continuation of the ids taken.
fn map_ai_value_to_individual(
    value: &Json,
    mapping: &Property,
    onto: &Ontology,
    related: &mut Vec<Individual>,
    parent: &mut Individual,
    property: &str,
    em: &TextMap,
    used: &mut Vec<String>,
) -> (r: Result<(), String>)
    ensures
        extends(views_of(final(used)@), views_of(old(used)@)),
        forall|ext: Seq<Seq<char>>|
            #[trigger] extends(ext, views_of(final(used)@)) ==> map_val(
                value@,
                pv(*mapping),
                *onto,
                MapState {
                    parent: old(parent)@,
                    related: ind_views(old(related)@),
                    next: old(used)@.len(),
                },
                property@,
                em@,
                ext,
            ) == outcome(r, final(parent)@, ind_views(final(related)@), final(used)@.len()),
        pv(*mapping).value_type == Some("array"@) && mapping.items is Some && value@ is Array && mapping.mapping is None
            ==> r is Err && r->Err_0@ == "No mapping URI provided for array items"@ && final(parent)@
            == old(parent)@ && final(related)@ == old(related)@ && final(used)@ == old(used)@,
    decreases mapping, 0int,
{
    let is_array = match &mapping.value_type {
        Some(t) => str_eq(t.as_str(), "array"),
        None => false,
    };
    if is_array {
        match &mapping.items {
            Some(items) => {
                match value {
                    Json::Array(arr) => {
                        let uri = match &mapping.mapping {
                            Some(u) => u,
                            None => {
                                return Err(String::from_str("No mapping URI provided for array items"));
                            },
                        };
                        let info = match get_property_info(onto, uri.as_str()) {
                            Ok(i) => i,
                            Err(e) => {
                                return Err(e);
                            },
                        };
                        proof {
                            assert(decreases_to!(mapping => mapping.items));
                            lemma_jv_seq(arr@);
                        }
                        return map_array_value(
                            arr,
                            &**items,
                            uri.as_str(),
                            &info,
                            onto,
                            related,
                            parent,
                            property,
                            em,
                            used,
                        );
                    },
                    _ => {},
                }
            },
            None => {},
        }
    }
    match &mapping.properties {
        Some(ps) => {
            match value {
                Json::Object(obj) => {
                    apply_assign_props(parent, &mapping.additional);
                    proof {
                        lemma_jv_entries(obj@);
                        lemma_pv_entries(ps@);
                    }
                    return map_object_value(obj, ps, onto, related, parent, em, used);
                },
                _ => {},
            }
        },
        None => {},
    }
    match &mapping.mapping {
        None => Ok(()),
        Some(uri) => match get_property_info(onto, uri.as_str()) {
            Err(e) => Err(e),
            Ok(info) => {
                map_leaf_value(value, uri.as_str(), &info, mapping.is_multiple, property, em, parent);
                Ok(())
            },
        },
    }
}

// ---- the whole answer ----
/// What an answer gives: the result individual and the related individuals made for it.
pub struct ParseResult {
    pub main_individual: Individual,
    pub related_individuals: Vec<Individual>,
}

/// Each key of `m` as a single URI value.
pub open spec fn uris_of(m: Map<Seq<char>, Seq<char>>) -> Map<Seq<char>, Seq<ResourceV>> {
    Map::new(|k: Seq<char>| m.contains_key(k), |k: Seq<char>| seq![ResourceV::Uri(m[k])])
}

/// `ind` with the schema's assigned URIs set.
pub open spec fn assign_all(ind: IndividualV, m: Option<Map<Seq<char>, Seq<char>>>) -> IndividualV {
    match m {
        None => ind,
        Some(m) => IndividualV { id: ind.id, props: ind.props.union_prefer_right(uris_of(m)) },
    }
}

/// The first `n` fields of the schema that the answer object has, in schema order.
pub open spec fn parse_fields(
    obj: Seq<(Seq<char>, JsonV)>,
    props: Seq<(Seq<char>, PropertyV)>,
    n: int,
    onto: Ontology,
    st: MapState,
    em: Map<Seq<char>, Seq<char>>,
    ids: Seq<Seq<char>>,
) -> Result<MapState, Seq<char>>
    decreases n,
{
    if n <= 0 || n > props.len() {
        Ok(st)
    } else {
        match parse_fields(obj, props, n - 1, onto, st, em, ids) {
            Err(e) => Err(e),
            Ok(st0) => match obj_get(obj, props[n - 1].0) {
                None => Ok(st0),
                Some(v) => map_val(v, props[n - 1].1, onto, st0, props[n - 1].0, em, ids),
            },
        }
    }
}

proof fn lemma_parse_fields_err(
    obj: Seq<(Seq<char>, JsonV)>,
    props: Seq<(Seq<char>, PropertyV)>,
    m: int,
    n: int,
    onto: Ontology,
    st: MapState,
    em: Map<Seq<char>, Seq<char>>,
    ids: Seq<Seq<char>>,
)
    requires
        0 <= m <= n <= props.len(),
        parse_fields(obj, props, m, onto, st, em, ids) is Err,
    ensures
        parse_fields(obj, props, n, onto, st, em, ids) == parse_fields(obj, props, m, onto, st, em, ids),
    decreases n - m,
{
    if m < n {
        lemma_parse_fields_err(obj, props, m, n - 1, onto, st, em, ids);
    }
}

/// The result of parsing the answer `response` by a schema (its described fields `props`,
/// its assigned URIs `assign` and its enumeration mapping `em`): a result individual with id
/// `result_id` and type `v-bpa:GenericProcessingResult`, filled field by field, then given
/// the assigned URIs; the related individuals take their ids from `ids`.
pub open spec fn parse_spec(
    props: Seq<(Seq<char>, PropertyV)>,
    assign: Option<Map<Seq<char>, Seq<char>>>,
    em: Map<Seq<char>, Seq<char>>,
    response: JsonV,
    onto: Ontology,
    result_id: Seq<char>,
    ids: Seq<Seq<char>>,
) -> Result<(IndividualV, Seq<IndividualV>), Seq<char>> {
    let main0 = IndividualV { id: result_id, props: Map::empty() }.with(
        "rdf:type"@,
        seq![ResourceV::Uri("v-bpa:GenericProcessingResult"@)],
    );
    let st0 = MapState { parent: main0, related: Seq::empty(), next: 0 };
    match parse_body(props, em, response, onto, st0, ids) {
        Err(e) => Err(e),
        Ok(st) => Ok((assign_all(st.parent, assign), st.related)),
    }
}

/// The fields of the answer mapped from the state `st0`; an answer that is not an object
/// maps nothing.
pub open spec fn parse_body(
    props: Seq<(Seq<char>, PropertyV)>,
    em: Map<Seq<char>, Seq<char>>,
    response: JsonV,
    onto: Ontology,
    st0: MapState,
    ids: Seq<Seq<char>>,
) -> Result<MapState, Seq<char>> {
    match response {
        JsonV::Object(obj) => parse_fields(obj, props, props.len() as int, onto, st0, em, ids),
        _ => Ok(st0),
    }
}

fn assign_all_uris(ind: &mut Individual, m: &TextMap)
    requires
        m.wf(),
    ensures
        final(ind)@ == assign_all(old(ind)@, Some(m@)),
{
    let ghost es = m.entry_seq();
    proof {
        m.lemma_view();
        m.lemma_entry_seq();
    }
    let n = m.len();
    let mut i: usize = 0;
    while i < n
        invariant
            es == m.entry_seq(),
            n == es.len(),
            keys_unique(es),
            m@ == kv_map(es),
            i <= n,
            ind@.id == old(ind)@.id,
            ind@.props == old(ind)@.props.union_prefer_right(uris_of(kv_map(es.take(i as int)))),
        decreases n - i,
    {
        let (k, v) = m.entry_at(i);
        let ghost p0 = ind@.props;
        ind.set_uri(k.as_str(), v.as_str());
        proof {
            assert(es.take(i + 1) =~= es.take(i as int).push(es[i as int]));
            assert(no_key(es.take(i as int), es[i as int].0));
            lemma_kv_push_new(es.take(i as int), es[i as int].0, es[i as int].1);
            assert(ind@.props =~= old(ind)@.props.union_prefer_right(
                uris_of(kv_map(es.take(i + 1))),
            ));
        }
        i = i + 1;
    }
    assert(es.take(n as int) =~= es);
}

impl ResponseSchema {
    /// Reads an AI answer by this schema. The result individual gets the id
    /// `d:result_` and a fresh UUID, and the type `v-bpa:GenericProcessingResult`; each
    /// field of the schema that the answer (an object) has is mapped in schema order, then
    /// the schema's assigned URIs are set. The related individuals get fresh ids. The first
    /// field that fails (a mapping without its property in the ontology, an array field
    /// without a mapping) fails the whole. The contract holds for the UUIDs that were drawn.
    pub fn parse_ai_response(&self, response: &Json, onto: &Ontology) -> (r: Result<ParseResult, String>)
        requires
            self.enum_value_mapping.wf(),
            self.assign_properties matches Some(m) ==> m.wf(),
        ensures
            r matches Ok(pr) ==> exists|u: Seq<char>, ids: Seq<Seq<char>>|
                #[trigger] parse_spec(
                    self.model().properties,
                    self.model().assign_properties,
                    self.enum_value_mapping@,
                    response@,
                    *onto,
                    "d:result_"@ + u,
                    ids,
                ) == Ok::<(IndividualV, Seq<IndividualV>), Seq<char>>(
                    (pr.main_individual@, ind_views(pr.related_individuals@)),
                ),
            r matches Err(e) ==> exists|u: Seq<char>, ids: Seq<Seq<char>>|
                #[trigger] parse_spec(
                    self.model().properties,
                    self.model().assign_properties,
                    self.enum_value_mapping@,
                    response@,
                    *onto,
                    "d:result_"@ + u,
                    ids,
                ) == Err::<(IndividualV, Seq<IndividualV>), Seq<char>>(e@),
    {
        let u = new_uuid();
        let result_id = concat2("d:result_", u.as_str());
        let mut main = Individual::with_id(result_id.as_str());
        main.set_uri("rdf:type", "v-bpa:GenericProcessingResult");
        let ghost main0 = main@;
        let ghost st0 = MapState { parent: main0, related: Seq::empty(), next: 0 };
        let mut related: Vec<Individual> = Vec::new();
        let mut used: Vec<String> = Vec::new();
        let ghost props = pv_entries(self.properties@);
        let ghost em = self.enum_value_mapping@;
        proof {
            lemma_pv_entries(self.properties@);
            assert(ind_views(related@) =~= Seq::<IndividualV>::empty());
        }
        match response {
            Json::Object(obj) => {
                let ghost ov = jv_entries(obj@);
                let mut i: usize = 0;
                while i < self.properties.len()
                    invariant
                        props == pv_entries(self.properties@),
                        props.len() == self.properties@.len(),
                        forall|k: int|
                            0 <= k < self.properties@.len() ==> #[trigger] props[k] == (
                                self.properties@[k].0@,
                                pv(self.properties@[k].1),
                            ),
                        em == self.enum_value_mapping@,
                        st0 == (MapState {
                            parent: IndividualV { id: "d:result_"@ + u@, props: Map::empty() }.with(
                                "rdf:type"@,
                                seq![ResourceV::Uri("v-bpa:GenericProcessingResult"@)],
                            ),
                            related: Seq::empty(),
                            next: 0,
                        }),
                        ov == jv_entries(obj@),
                        response@ == JsonV::Object(ov),
                        i <= self.properties@.len(),
                        forall|ext: Seq<Seq<char>>|
                            #[trigger] extends(ext, views_of(used@)) ==> parse_fields(
                                ov,
                                props,
                                i as int,
                                *onto,
                                st0,
                                em,
                                ext,
                            ) == Ok::<MapState, Seq<char>>(
                                MapState {
                                    parent: main@,
                                    related: ind_views(related@),
                                    next: used@.len(),
                                },
                            ),
                    decreases self.properties@.len() - i,
                {
                    let ghost u0 = views_of(used@);
                    let key = &self.properties[i].0;
                    match entries_get(obj, key.as_str()) {
                        None => {},
                        Some(v) => {
                            let res = map_ai_value_to_individual(
                                v,
                                &self.properties[i].1,
                                onto,
                                &mut related,
                                &mut main,
                                key.as_str(),
                                &self.enum_value_mapping,
                                &mut used,
                            );
                            let ghost u2 = views_of(used@);
                            match res {
                                Err(e) => {
                                    proof {
                                        let ids = views_of(used@);
                                        assert(extends(ids, u2));
                                        lemma_extends_trans(ids, u2, u0);
                                        assert(parse_fields(ov, props, i + 1, *onto, st0, em, ids)
                                            == Err::<MapState, Seq<char>>(e@));
                                        lemma_parse_fields_err(
                                            ov,
                                            props,
                                            i + 1,
                                            props.len() as int,
                                            *onto,
                                            st0,
                                            em,
                                            ids,
                                        );
                                        assert(parse_body(props, em, response@, *onto, st0, ids)
                                            == Err::<MapState, Seq<char>>(e@));
                                        assert(parse_spec(
                                            self.model().properties,
                                            self.model().assign_properties,
                                            self.enum_value_mapping@,
                                            response@,
                                            *onto,
                                            "d:result_"@ + u@,
                                            ids,
                                        ) == Err::<(IndividualV, Seq<IndividualV>), Seq<char>>(e@));
                                    }
                                    return Err(e);
                                },
                                Ok(()) => {
                                    proof {
                                        assert forall|ext: Seq<Seq<char>>| #[trigger]
                                            extends(ext, u2) implies parse_fields(
                                            ov,
                                            props,
                                            i + 1,
                                            *onto,
                                            st0,
                                            em,
                                            ext,
                                        ) == Ok::<MapState, Seq<char>>(
                                            MapState {
                                                parent: main@,
                                                related: ind_views(related@),
                                                next: used@.len(),
                                            },
                                        ) by {
                                            lemma_extends_trans(ext, u2, u0);
                                        }
                                    }
                                },
                            }
                        },
                    }
                    i = i + 1;
                }
                proof {
                    assert(extends(views_of(used@), views_of(used@)));
                }
            },
            _ => {
                assert(ind_views(related@) =~= Seq::<IndividualV>::empty());
            },
        }
        let ghost before_assign = main@;
        assert(parse_body(props, em, response@, *onto, st0, views_of(used@)) == Ok::<MapState, Seq<char>>(
            MapState { parent: before_assign, related: ind_views(related@), next: used@.len() },
        ));
        match &self.assign_properties {
            Some(m) => assign_all_uris(&mut main, m),
            None => {},
        }
        proof {
            let ids = views_of(used@);
            assert(extends(ids, ids));
            assert(parse_spec(
                self.model().properties,
                self.model().assign_properties,
                self.enum_value_mapping@,
                response@,
                *onto,
                "d:result_"@ + u@,
                ids,
            ) == Ok::<(IndividualV, Seq<IndividualV>), Seq<char>>(
                (main@, ind_views(related@)),
            ));
        }
        Ok(ParseResult { main_individual: main, related_individuals: related })
    }
}

} // verus!
