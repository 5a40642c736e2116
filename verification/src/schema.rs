//! Response schemas: the JSON description of what an AI answer holds and where each of
//! its fields goes in the ontology.
use vstd::prelude::*;
use crate::json::{
    Json, JsonV, jv, jv_entries, lemma_jv_entries, lemma_jv_entries_push, json_copy, parse_json,
    serde_json_parse, obj_get, obj_insert, entries_get, entries_insert, json_string,
    json_string_array,
};
use crate::kv::{kv_insert, kv_get, first_index, no_key, lemma_kv_insert_at, lemma_kv_get_first, lemma_kv_get_none};
use crate::mapping::TextMap;
use crate::text::{str_eq, str_to_string, starts_with, concat3, last_segment, is_prefix_of, after_last, views_of};
use crate::individual::{Individual, IndividualV, Lang, first_literal_in_lang};
use crate::onto::{Ontology, ind_views};

verus! {

/// How one field of the answer is described.
pub struct Property {
    pub mapping: Option<String>,
    pub value_type: Option<String>,
    pub is_multiple: Option<bool>,
    pub items: Option<Box<Property>>,
    pub properties: Option<Vec<(String, Property)>>,
    pub additional: Vec<(String, Json)>,
}

/// The model of a `Property`.
pub struct PropertyV {
    pub mapping: Option<Seq<char>>,
    pub value_type: Option<Seq<char>>,
    pub is_multiple: Option<bool>,
    pub items: Option<Box<PropertyV>>,
    pub properties: Option<Seq<(Seq<char>, PropertyV)>>,
    pub additional: Seq<(Seq<char>, JsonV)>,
}

pub open spec fn opt_view(o: Option<String>) -> Option<Seq<char>> {
    match o {
        Some(s) => Some(s@),
        None => None,
    }
}

pub open spec fn pv(p: Property) -> PropertyV
    decreases p, 0int,
{
    PropertyV {
        mapping: opt_view(p.mapping),
        value_type: opt_view(p.value_type),
        is_multiple: p.is_multiple,
        items: match p.items {
            Some(b) => Some(Box::new(pv(*b))),
            None => None,
        },
        properties: match p.properties {
            Some(v) => Some(pv_entries(v@)),
            None => None,
        },
        additional: jv_entries(p.additional@),
    }
}

pub open spec fn pv_entries(s: Seq<(String, Property)>) -> Seq<(Seq<char>, PropertyV)>
    decreases s, 1int,
{
    if s.len() == 0 {
        Seq::empty()
    } else {
        pv_entries(s.drop_last()).push((s.last().0@, pv(s.last().1)))
    }
}

impl View for Property {
    type V = PropertyV;

    open spec fn view(&self) -> PropertyV {
        pv(*self)
    }
}

pub proof fn lemma_pv_entries(s: Seq<(String, Property)>)
    ensures
        pv_entries(s).len() == s.len(),
        forall|i: int| 0 <= i < s.len() ==> #[trigger] pv_entries(s)[i] == (s[i].0@, pv(s[i].1)),
    decreases s.len(),
{
    if s.len() > 0 {
        lemma_pv_entries(s.drop_last());
    }
}

// ---- reading a schema from JSON ----
/// Why a schema is refused.
#[derive(PartialEq, Eq, Structural, Clone, Copy, Debug)]
pub enum SchemaError {
    /// The text is not JSON.
    InvalidJson,
    /// The schema is not a JSON object.
    NotAnObject,
    /// A known field, or a property, has a value of the wrong kind.
    BadValue,
    /// The schema has no `type`.
    MissingType,
    /// The schema has no `properties`.
    MissingProperties,
    /// The schema's `type` is not `object`.
    NotObjectType,
}

impl SchemaError {
    pub fn message(&self) -> (r: String)
        ensures
            *self == SchemaError::InvalidJson ==> r@ == "invalid JSON"@,
            *self == SchemaError::NotAnObject ==> r@ == "schema is not an object"@,
            *self == SchemaError::BadValue ==> r@ == "invalid value of a schema field"@,
            *self == SchemaError::MissingType ==> r@ == "missing field `type`"@,
            *self == SchemaError::MissingProperties ==> r@ == "missing field `properties`"@,
            *self == SchemaError::NotObjectType ==> r@ == "schema type must be object"@,
    {
        match self {
            SchemaError::InvalidJson => String::from_str("invalid JSON"),
            SchemaError::NotAnObject => String::from_str("schema is not an object"),
            SchemaError::BadValue => String::from_str("invalid value of a schema field"),
            SchemaError::MissingType => String::from_str("missing field `type`"),
            SchemaError::MissingProperties => String::from_str("missing field `properties`"),
            SchemaError::NotObjectType => String::from_str("schema type must be object"),
        }
    }
}

/// An optional text field: `null` is absent, a string is present, anything else is refused.
pub open spec fn opt_text(v: JsonV) -> Option<Option<Seq<char>>> {
    match v {
        JsonV::Null => Some(None),
        JsonV::Str(s) => Some(Some(s)),
        _ => None,
    }
}

pub open spec fn opt_bool(v: JsonV) -> Option<Option<bool>> {
    match v {
        JsonV::Null => Some(None),
        JsonV::Bool(b) => Some(Some(b)),
        _ => None,
    }
}

pub open spec fn empty_prop() -> PropertyV {
    PropertyV {
        mapping: None,
        value_type: None,
        is_multiple: None,
        items: None,
        properties: None,
        additional: Seq::empty(),
    }
}

/// The property a JSON value describes, `None` where it is malformed.
pub open spec fn prop_from(v: JsonV) -> Option<PropertyV>
    decreases v, 1int, 0int,
{
    match v {
        JsonV::Object(es) => prop_fields(es, es.len() as int),
        _ => None,
    }
}

/// The property made of the first `n` entries of an object; a later entry with a known key
/// replaces an earlier one, an unknown key goes to `additional`.
pub open spec fn prop_fields(es: Seq<(Seq<char>, JsonV)>, n: int) -> Option<PropertyV>
    decreases es, 0int, n,
{
    if n <= 0 {
        Some(empty_prop())
    } else if n > es.len() {
        None
    } else {
        match prop_fields(es, n - 1) {
            None => None,
            Some(p) => {
                let k = es[n - 1].0;
                if k == "mapping"@ {
                    match opt_text(es[n - 1].1) {
                        Some(m) => Some(PropertyV { mapping: m, ..p }),
                        None => None,
                    }
                } else if k == "type"@ {
                    match opt_text(es[n - 1].1) {
                        Some(t) => Some(PropertyV { value_type: t, ..p }),
                        None => None,
                    }
                } else if k == "is_multiple"@ {
                    match opt_bool(es[n - 1].1) {
                        Some(b) => Some(PropertyV { is_multiple: b, ..p }),
                        None => None,
                    }
                } else if k == "items"@ {
                    if es[n - 1].1 is Null {
                        Some(PropertyV { items: None, ..p })
                    } else {
                        match prop_from(es[n - 1].1) {
                            Some(q) => Some(PropertyV { items: Some(Box::new(q)), ..p }),
                            None => None,
                        }
                    }
                } else if k == "properties"@ {
                    match es[n - 1].1 {
                        JsonV::Null => Some(PropertyV { properties: None, ..p }),
                        JsonV::Object(pes) => match props_from(pes, pes.len() as int) {
                            Some(ps) => Some(PropertyV { properties: Some(ps), ..p }),
                            None => None,
                        },
                        _ => None,
                    }
                } else {
                    Some(PropertyV { additional: p.additional.push(es[n - 1]), ..p })
                }
            },
        }
    }
}

/// The named properties of the first `n` entries, in order; a repeated name keeps its first
/// place and takes the later value.
pub open spec fn props_from(es: Seq<(Seq<char>, JsonV)>, n: int) -> Option<
    Seq<(Seq<char>, PropertyV)>,
>
    decreases es, 0int, n,
{
    if n <= 0 {
        Some(Seq::empty())
    } else if n > es.len() {
        None
    } else {
        match props_from(es, n - 1) {
            None => None,
            Some(acc) => match prop_from(es[n - 1].1) {
                Some(q) => Some(kv_insert(acc, es[n - 1].0, q)),
                None => None,
            },
        }
    }
}

proof fn lemma_prop_fields_none(es: Seq<(Seq<char>, JsonV)>, i: int, n: int)
    requires
        0 <= i <= n <= es.len(),
        prop_fields(es, i) is None,
    ensures
        prop_fields(es, n) is None,
    decreases n - i,
{
    if i < n {
        lemma_prop_fields_none(es, i, n - 1);
    }
}

proof fn lemma_props_from_none(es: Seq<(Seq<char>, JsonV)>, i: int, n: int)
    requires
        0 <= i <= n <= es.len(),
        props_from(es, i) is None,
    ensures
        props_from(es, n) is None,
    decreases n - i,
{
    if i < n {
        lemma_props_from_none(es, i, n - 1);
    }
}

fn opt_text_of(j: &Json) -> (r: Option<Option<String>>)
    ensures
        r is None <==> opt_text(j@) is None,
        r matches Some(o) ==> opt_text(j@) == Some(opt_view(o)),
{
    match j {
        Json::Null => Some(None),
        Json::Str(s) => Some(Some(s.clone())),
        _ => None,
    }
}

/// Inserts a named property: a name already there keeps its place and takes the new value.
fn props_insert(v: &mut Vec<(String, Property)>, key: String, p: Property)
    ensures
        pv_entries(final(v)@) == kv_insert(pv_entries(old(v)@), key@, pv(p)),
{
    let ghost e = pv_entries(v@);
    proof {
        lemma_pv_entries(v@);
    }
    let mut i: usize = 0;
    while i < v.len()
        invariant
            e == pv_entries(v@),
            v@ == old(v)@,
            e.len() == v@.len(),
            forall|j: int| 0 <= j < v@.len() ==> #[trigger] e[j] == (v@[j].0@, pv(v@[j].1)),
            i <= v@.len(),
            forall|j: int| 0 <= j < i ==> e[j].0 != key@,
        decreases v@.len() - i,
    {
        if str_eq(v[i].0.as_str(), key.as_str()) {
            proof {
                lemma_kv_insert_at(e, key@, pv(p), i as int);
            }
            let kp = (key, p);
            let ghost kpv = (kp.0@, pv(kp.1));
            v.set(i, kp);
            proof {
                lemma_pv_entries(v@);
                assert(pv_entries(v@) =~= e.update(i as int, kpv));
            }
            return ;
        }
        i = i + 1;
    }
    proof {
        lemma_kv_insert_at(e, key@, pv(p), i as int);
    }
    let kp = (key, p);
    proof {
        assert(v@.push(kp).drop_last() =~= v@);
    }
    v.push(kp);
}

/// Reads a property from its JSON description.
pub fn parse_property(j: &Json) -> (r: Option<Property>)
    ensures
        r is None <==> prop_from(j@) is None,
        r matches Some(p) ==> prop_from(j@) == Some(pv(p)),
    decreases j, 1int,
{
    match j {
        Json::Object(es) => {
            proof {
                lemma_jv_entries(es@);
            }
            parse_property_fields(es)
        },
        _ => None,
    }
}

fn parse_property_fields(es: &Vec<(String, Json)>) -> (r: Option<Property>)
    ensures
        r is None <==> prop_fields(jv_entries(es@), es@.len() as int) is None,
        r matches Some(p) ==> prop_fields(jv_entries(es@), es@.len() as int) == Some(pv(p)),
    decreases es, 0int,
{
    let ghost e = jv_entries(es@);
    proof {
        lemma_jv_entries(es@);
    }
    let mut p = Property {
        mapping: None,
        value_type: None,
        is_multiple: None,
        items: None,
        properties: None,
        additional: Vec::new(),
    };
    assert(jv_entries(p.additional@) =~= Seq::<(Seq<char>, JsonV)>::empty());
    let mut i: usize = 0;
    while i < es.len()
        invariant
            e == jv_entries(es@),
            e.len() == es@.len(),
            forall|k: int| 0 <= k < es@.len() ==> #[trigger] e[k] == (es@[k].0@, jv(es@[k].1)),
            i <= es@.len(),
            prop_fields(e, i as int) == Some(pv(p)),
        decreases es@.len() - i,
    {
        proof {
            assert(decreases_to!(es => es@));
            assert(decreases_to!(es@ => es@[i as int]));
        }
        let k = &es[i].0;
        let x = &es[i].1;
        if str_eq(k.as_str(), "mapping") {
            match opt_text_of(x) {
                Some(m) => {
                    p.mapping = m;
                },
                None => {
                    proof {
                        lemma_prop_fields_none(e, i + 1, e.len() as int);
                    }
                    return None;
                },
            }
        } else if str_eq(k.as_str(), "type") {
            match opt_text_of(x) {
                Some(t) => {
                    p.value_type = t;
                },
                None => {
                    proof {
                        lemma_prop_fields_none(e, i + 1, e.len() as int);
                    }
                    return None;
                },
            }
        } else if str_eq(k.as_str(), "is_multiple") {
            match x {
                Json::Null => {
                    p.is_multiple = None;
                },
                Json::Bool(b) => {
                    p.is_multiple = Some(*b);
                },
                _ => {
                    proof {
                        lemma_prop_fields_none(e, i + 1, e.len() as int);
                    }
                    return None;
                },
            }
        } else if str_eq(k.as_str(), "items") {
            match x {
                Json::Null => {
                    p.items = None;
                },
                _ => match parse_property(x) {
                    Some(q) => {
                        p.items = Some(Box::new(q));
                    },
                    None => {
                        proof {
                        lemma_prop_fields_none(e, i + 1, e.len() as int);
                    }
                    return None;
                    },
                },
            }
        } else if str_eq(k.as_str(), "properties") {
            match x {
                Json::Null => {
                    p.properties = None;
                },
                Json::Object(pes) => {
                    proof {
                        assert(decreases_to!(es@[i as int] => es@[i as int].1));
                        lemma_jv_entries(pes@);
                    }
                    match parse_named_properties(pes) {
                        Some(ps) => {
                            p.properties = Some(ps);
                        },
                        None => {
                            proof {
                        lemma_prop_fields_none(e, i + 1, e.len() as int);
                    }
                    return None;
                        },
                    }
                },
                _ => {
                    proof {
                        lemma_prop_fields_none(e, i + 1, e.len() as int);
                    }
                    return None;
                },
            }
        } else {
            let c = json_copy(x);
            let ghost a0 = p.additional@;
            p.additional.push((k.clone(), c));
            proof {
                assert(p.additional@.drop_last() =~= a0);
            }
        }
        i = i + 1;
    }
    Some(p)
}

/// Reads the named properties of an object, in order.
pub fn parse_named_properties(es: &Vec<(String, Json)>) -> (r: Option<Vec<(String, Property)>>)
    ensures
        r is None <==> props_from(jv_entries(es@), es@.len() as int) is None,
        r matches Some(ps) ==> props_from(jv_entries(es@), es@.len() as int) == Some(
            pv_entries(ps@),
        ),
    decreases es, 0int,
{
    let ghost e = jv_entries(es@);
    proof {
        lemma_jv_entries(es@);
    }
    let mut out: Vec<(String, Property)> = Vec::new();
    let mut i: usize = 0;
    while i < es.len()
        invariant
            e == jv_entries(es@),
            e.len() == es@.len(),
            forall|k: int| 0 <= k < es@.len() ==> #[trigger] e[k] == (es@[k].0@, jv(es@[k].1)),
            i <= es@.len(),
            props_from(e, i as int) == Some(pv_entries(out@)),
        decreases es@.len() - i,
    {
        proof {
            assert(decreases_to!(es => es@));
            assert(decreases_to!(es@ => es@[i as int]));
        }
        match parse_property(&es[i].1) {
            Some(q) => {
                props_insert(&mut out, es[i].0.clone(), q);
            },
            None => {
                proof {
                    lemma_props_from_none(e, i + 1, e.len() as int);
                }
                return None;
            },
        }
        i = i + 1;
    }
    Some(out)
}

/// A response schema: the root `type` (always `object`), the described fields in order,
/// the URIs given to the result whatever the answer holds (`assign_properties`), and
/// whatever else the JSON held.
pub struct ResponseSchema {
    pub value_type: String,
    pub properties: Vec<(String, Property)>,
    pub assign_properties: Option<TextMap>,
    pub additional: Vec<(String, Json)>,
    pub field_order: Vec<String>,
    pub enum_value_mapping: TextMap,
}

/// The model of what a schema's JSON holds.
pub struct SchemaV {
    pub value_type: Seq<char>,
    pub properties: Seq<(Seq<char>, PropertyV)>,
    pub assign_properties: Option<Map<Seq<char>, Seq<char>>>,
    pub additional: Seq<(Seq<char>, JsonV)>,
}

pub struct SchemaAcc {
    pub value_type: Option<Seq<char>>,
    pub properties: Option<Seq<(Seq<char>, PropertyV)>>,
    pub assign_properties: Option<Map<Seq<char>, Seq<char>>>,
    pub additional: Seq<(Seq<char>, JsonV)>,
}

/// The `assign_properties` map of the first `n` entries: each value must be a string. The
/// field is a map from names to texts, read as such: an entry whose value is not a text, or
/// a field that is neither an object nor null, refuses the whole schema (the field takes its
/// key, so it never reaches the other fields).
pub open spec fn assign_from(es: Seq<(Seq<char>, JsonV)>, n: int) -> Option<Map<Seq<char>, Seq<char>>>
    decreases n,
{
    if n <= 0 {
        Some(Map::empty())
    } else if n > es.len() {
        None
    } else {
        match assign_from(es, n - 1) {
            None => None,
            Some(m) => match es[n - 1].1 {
                JsonV::Str(v) => Some(m.insert(es[n - 1].0, v)),
                _ => None,
            },
        }
    }
}

/// The schema fields of the first `n` entries.
pub open spec fn schema_fields(es: Seq<(Seq<char>, JsonV)>, n: int) -> Option<SchemaAcc>
    decreases n,
{
    if n <= 0 {
        Some(
            SchemaAcc {
                value_type: None,
                properties: None,
                assign_properties: None,
                additional: Seq::empty(),
            },
        )
    } else if n > es.len() {
        None
    } else {
        match schema_fields(es, n - 1) {
            None => None,
            Some(a) => {
                let k = es[n - 1].0;
                if k == "type"@ {
                    match es[n - 1].1 {
                        JsonV::Str(t) => Some(SchemaAcc { value_type: Some(t), ..a }),
                        _ => None,
                    }
                } else if k == "properties"@ {
                    match es[n - 1].1 {
                        JsonV::Object(pes) => match props_from(pes, pes.len() as int) {
                            Some(ps) => Some(SchemaAcc { properties: Some(ps), ..a }),
                            None => None,
                        },
                        _ => None,
                    }
                } else if k == "assign_properties"@ {
                    match es[n - 1].1 {
                        JsonV::Null => Some(SchemaAcc { assign_properties: None, ..a }),
                        JsonV::Object(aes) => match assign_from(aes, aes.len() as int) {
                            Some(m) => Some(SchemaAcc { assign_properties: Some(m), ..a }),
                            None => None,
                        },
                        _ => None,
                    }
                } else {
                    Some(SchemaAcc { additional: a.additional.push(es[n - 1]), ..a })
                }
            },
        }
    }
}

/// The schema a JSON value describes, or why it is refused.
pub open spec fn schema_from(v: JsonV) -> Result<SchemaV, SchemaError> {
    match v {
        JsonV::Object(es) => match schema_fields(es, es.len() as int) {
            None => Err(SchemaError::BadValue),
            Some(a) => if a.value_type is None {
                Err(SchemaError::MissingType)
            } else if a.properties is None {
                Err(SchemaError::MissingProperties)
            } else if a.value_type->0 != "object"@ {
                Err(SchemaError::NotObjectType)
            } else {
                Ok(
                    SchemaV {
                        value_type: a.value_type->0,
                        properties: a.properties->0,
                        assign_properties: a.assign_properties,
                        additional: a.additional,
                    },
                )
            },
        },
        _ => Err(SchemaError::NotAnObject),
    }
}

pub open spec fn keys_of<V>(s: Seq<(Seq<char>, V)>) -> Seq<Seq<char>> {
    s.map_values(|p: (Seq<char>, V)| p.0)
}

pub open spec fn string_views(s: Seq<String>) -> Seq<Seq<char>> {
    s.map_values(|x: String| x@)
}

proof fn lemma_assign_from_none(es: Seq<(Seq<char>, JsonV)>, i: int, n: int)
    requires
        0 <= i <= n <= es.len(),
        assign_from(es, i) is None,
    ensures
        assign_from(es, n) is None,
    decreases n - i,
{
    if i < n {
        lemma_assign_from_none(es, i, n - 1);
    }
}

proof fn lemma_schema_fields_none(es: Seq<(Seq<char>, JsonV)>, i: int, n: int)
    requires
        0 <= i <= n <= es.len(),
        schema_fields(es, i) is None,
    ensures
        schema_fields(es, n) is None,
    decreases n - i,
{
    if i < n {
        lemma_schema_fields_none(es, i, n - 1);
    }
}

pub open spec fn text_map_opt(o: Option<TextMap>) -> Option<Map<Seq<char>, Seq<char>>> {
    match o {
        Some(m) => Some(m@),
        None => None,
    }
}

fn parse_assign(es: &Vec<(String, Json)>) -> (r: Option<TextMap>)
    ensures
        r is None <==> assign_from(jv_entries(es@), es@.len() as int) is None,
        r matches Some(m) ==> m.wf() && assign_from(jv_entries(es@), es@.len() as int) == Some(m@),
{
    let ghost e = jv_entries(es@);
    proof {
        lemma_jv_entries(es@);
    }
    let mut m = TextMap::new();
    let mut i: usize = 0;
    while i < es.len()
        invariant
            e == jv_entries(es@),
            e.len() == es@.len(),
            forall|k: int| 0 <= k < es@.len() ==> #[trigger] e[k] == (es@[k].0@, jv(es@[k].1)),
            i <= es@.len(),
            m.wf(),
            assign_from(e, i as int) == Some(m@),
        decreases es@.len() - i,
    {
        match &es[i].1 {
            Json::Str(v) => {
                m.insert(es[i].0.clone(), v.clone());
            },
            _ => {
                proof {
                    lemma_assign_from_none(e, i + 1, e.len() as int);
                }
                return None;
            },
        }
        i = i + 1;
    }
    Some(m)
}

impl ResponseSchema {
    /// What the schema holds, as read from its JSON.
    pub open spec fn model(&self) -> SchemaV {
        SchemaV {
            value_type: self.value_type@,
            properties: pv_entries(self.properties@),
            assign_properties: text_map_opt(self.assign_properties),
            additional: jv_entries(self.additional@),
        }
    }

    /// Reads a schema from a JSON value. Refused: a value that is not an object, a known
    /// field of the wrong kind, a missing `type` or `properties`, and a `type` other than
    /// `object`. The field order is the order of `properties`.
    pub fn from_value(j: &Json) -> (r: Result<ResponseSchema, SchemaError>)
        ensures
            schema_from(j@) matches Ok(sv) ==> r is Ok && r->Ok_0.model() == sv,
            schema_from(j@) matches Err(e) ==> r == Err::<ResponseSchema, SchemaError>(e),
            r matches Ok(s) ==> string_views(s.field_order@) == keys_of(s.model().properties)
                && s.enum_value_mapping@ == Map::<Seq<char>, Seq<char>>::empty()
                && s.enum_value_mapping.wf() && (s.assign_properties matches Some(m) ==> m.wf()),
    {
        let es = match j {
            Json::Object(es) => es,
            _ => {
                return Err(SchemaError::NotAnObject);
            },
        };
        let ghost e = jv_entries(es@);
        proof {
            lemma_jv_entries(es@);
        }
        let mut value_type: Option<String> = None;
        let mut properties: Option<Vec<(String, Property)>> = None;
        let mut assign: Option<TextMap> = None;
        let mut additional: Vec<(String, Json)> = Vec::new();
        let mut i: usize = 0;
        while i < es.len()
            invariant
                e == jv_entries(es@),
                j@ == JsonV::Object(e),
                e.len() == es@.len(),
                forall|k: int| 0 <= k < es@.len() ==> #[trigger] e[k] == (es@[k].0@, jv(es@[k].1)),
                i <= es@.len(),
                assign matches Some(m) ==> m.wf(),
                schema_fields(e, i as int) == Some(
                    SchemaAcc {
                        value_type: opt_view(value_type),
                        properties: match properties {
                            Some(v) => Some(pv_entries(v@)),
                            None => None,
                        },
                        assign_properties: text_map_opt(assign),
                        additional: jv_entries(additional@),
                    },
                ),
            decreases es@.len() - i,
        {
            let k = &es[i].0;
            let x = &es[i].1;
            if str_eq(k.as_str(), "type") {
                match x {
                    Json::Str(t) => {
                        value_type = Some(t.clone());
                    },
                    _ => {
                        proof {
                            lemma_schema_fields_none(e, i + 1, e.len() as int);
                        }
                        return Err(SchemaError::BadValue);
                    },
                }
            } else if str_eq(k.as_str(), "properties") {
                match x {
                    Json::Object(pes) => {
                        proof {
                            lemma_jv_entries(pes@);
                        }
                        match parse_named_properties(pes) {
                            Some(ps) => {
                                properties = Some(ps);
                            },
                            None => {
                                proof {
                                    lemma_schema_fields_none(e, i + 1, e.len() as int);
                                }
                                return Err(SchemaError::BadValue);
                            },
                        }
                    },
                    _ => {
                        proof {
                            lemma_schema_fields_none(e, i + 1, e.len() as int);
                        }
                        return Err(SchemaError::BadValue);
                    },
                }
            } else if str_eq(k.as_str(), "assign_properties") {
                match x {
                    Json::Null => {
                        assign = None;
                    },
                    Json::Object(aes) => {
                        proof {
                            lemma_jv_entries(aes@);
                        }
                        match parse_assign(aes) {
                            Some(m) => {
                                assign = Some(m);
                            },
                            None => {
                                proof {
                                    lemma_schema_fields_none(e, i + 1, e.len() as int);
                                }
                                return Err(SchemaError::BadValue);
                            },
                        }
                    },
                    _ => {
                        proof {
                            lemma_schema_fields_none(e, i + 1, e.len() as int);
                        }
                        return Err(SchemaError::BadValue);
                    },
                }
            } else {
                let c = json_copy(x);
                let ghost a0 = additional@;
                additional.push((k.clone(), c));
                proof {
                    assert(additional@.drop_last() =~= a0);
                }
            }
            i = i + 1;
        }
        let value_type = match value_type {
            Some(t) => t,
            None => {
                return Err(SchemaError::MissingType);
            },
        };
        let properties = match properties {
            Some(p) => p,
            None => {
                return Err(SchemaError::MissingProperties);
            },
        };
        if !str_eq(value_type.as_str(), "object") {
            return Err(SchemaError::NotObjectType);
        }
        let mut field_order: Vec<String> = Vec::new();
        let mut n: usize = 0;
        proof {
            lemma_pv_entries(properties@);
        }
        while n < properties.len()
            invariant
                n <= properties@.len(),
                pv_entries(properties@).len() == properties@.len(),
                forall|q: int|
                    0 <= q < properties@.len() ==> #[trigger] pv_entries(properties@)[q] == (
                        properties@[q].0@,
                        pv(properties@[q].1),
                    ),
                string_views(field_order@) == keys_of(pv_entries(properties@)).take(n as int),
            decreases properties@.len() - n,
        {
            let ghost f0 = field_order@;
            field_order.push(properties[n].0.clone());
            assert(keys_of(pv_entries(properties@))[n as int] == properties@[n as int].0@);
            assert(string_views(field_order@) =~= string_views(f0).push(properties@[n as int].0@));
            n = n + 1;
            assert(keys_of(pv_entries(properties@)).take(n as int) =~= keys_of(
                pv_entries(properties@),
            ).take(n - 1).push(properties@[n - 1].0@));
        }
        assert(keys_of(pv_entries(properties@)).take(n as int) =~= keys_of(pv_entries(properties@)));
        let s = ResponseSchema {
            value_type,
            properties,
            assign_properties: assign,
            additional,
            field_order,
            enum_value_mapping: TextMap::new(),
        };
        Ok(s)
    }

    /// Reads a schema from JSON text: refused where serde_json cannot read the text, else as
    /// `from_value` reads the value.
    pub fn from_json(json: &str) -> (r: Result<ResponseSchema, SchemaError>)
        ensures
            serde_json_parse(json@) is None ==> r == Err::<ResponseSchema, SchemaError>(
                SchemaError::InvalidJson,
            ),
            serde_json_parse(json@) matches Some(v) ==> (schema_from(v) matches Ok(sv) ==> r is Ok
                && r->Ok_0.model() == sv),
            serde_json_parse(json@) matches Some(v) ==> (schema_from(v) matches Err(e) ==> r
                == Err::<ResponseSchema, SchemaError>(e)),
            r matches Ok(s) ==> string_views(s.field_order@) == keys_of(s.model().properties)
                && s.enum_value_mapping@ == Map::<Seq<char>, Seq<char>>::empty()
                && s.enum_value_mapping.wf() && (s.assign_properties matches Some(m) ==> m.wf()),
    {
        match parse_json(json) {
            Some(j) => ResponseSchema::from_value(&j),
            None => Err(SchemaError::InvalidJson),
        }
    }
}

// ---- what the ontology says of a property ----
/// What the ontology says of a property: the type its values take, the class of its
/// values (when they are individuals of a class), whether it is itself a class, and whether
/// it takes several values.
pub struct PropertyInfo {
    pub property_type: String,
    pub range_type: Option<String>,
    pub is_class: bool,
    pub is_multiple: bool,
}

pub struct PropertyInfoV {
    pub property_type: Seq<char>,
    pub range_type: Option<Seq<char>>,
    pub is_class: bool,
    pub is_multiple: bool,
}

impl View for PropertyInfo {
    type V = PropertyInfoV;

    open spec fn view(&self) -> PropertyInfoV {
        PropertyInfoV {
            property_type: self.property_type@,
            range_type: opt_view(self.range_type),
            is_class: self.is_class,
            is_multiple: self.is_multiple,
        }
    }
}

/// The property information that a property's individual gives.
pub open spec fn info_of(ind: IndividualV) -> PropertyInfoV {
    let is_class = ind.any_exists("rdf:type"@, seq!["owl:Class"@]);
    let is_multiple = !ind.any_exists("rdf:type"@, seq!["owl:FunctionalProperty"@]);
    let range = ind.first_literal("rdfs:range"@);
    PropertyInfoV {
        property_type: if is_class {
            "owl:Class"@
        } else {
            match range {
                Some(r) => r,
                None => "xsd:string"@,
            }
        },
        range_type: if is_class {
            None
        } else {
            match range {
                Some(r) => if !is_prefix_of("xsd:"@, r) {
                    Some(r)
                } else {
                    None
                },
                None => None,
            }
        },
        is_class,
        is_multiple,
    }
}

/// `ind` has a URI or string value `text` under `pred`.
pub fn has_literal(ind: &Individual, pred: &str, text: &str) -> (r: bool)
    ensures
        r == ind@.any_exists(pred@, seq![text@]),
{
    let texts: [&str; 1] = [text];
    let r = ind.any_exists(pred, &texts);
    assert(texts@.map_values(|t: &str| t@) =~= seq![text@]);
    r
}

/// Reads the information on property `property` from the ontology.
pub fn get_property_info(onto: &Ontology, property: &str) -> (r: Result<PropertyInfo, String>)
    ensures
        onto.find(property@) matches Some(ind) ==> r is Ok && r->Ok_0@ == info_of(ind),
        onto.find(property@) is None ==> r is Err && r->Err_0@ == "Property "@ + property@
            + " not found in ontology"@,
{
    let ind = match onto.get_individual(property) {
        Some(i) => i,
        None => {
            return Err(concat3("Property ", property, " not found in ontology"));
        },
    };
    let is_class = has_literal(ind, "rdf:type", "owl:Class");
    let is_multiple = !has_literal(ind, "rdf:type", "owl:FunctionalProperty");
    let range = ind.get_first_literal("rdfs:range");
    let range_type = if is_class {
        None
    } else {
        match &range {
            Some(r) => if !starts_with(r.as_str(), "xsd:") {
                Some(r.clone())
            } else {
                None
            },
            None => None,
        }
    };
    let property_type = if is_class {
        String::from_str("owl:Class")
    } else {
        match range {
            Some(r) => r,
            None => String::from_str("xsd:string"),
        }
    };
    Ok(PropertyInfo { property_type, range_type, is_class, is_multiple })
}

// ---- enumerations ----
/// The label of an instance: its first `rdfs:label` in Russian (or first URI).
pub open spec fn label_of(ind: IndividualV) -> Option<Seq<char>> {
    first_literal_in_lang(ind.values("rdfs:label"@), Lang::Ru)
}

/// The labels of the instances that have one, in order.
pub open spec fn enum_labels(insts: Seq<IndividualV>) -> Seq<Seq<char>>
    decreases insts.len(),
{
    if insts.len() == 0 {
        Seq::empty()
    } else {
        match label_of(insts.last()) {
            Some(l) => enum_labels(insts.drop_last()).push(l),
            None => enum_labels(insts.drop_last()),
        }
    }
}

/// `m` after recording, for each labelled instance, `prefix*label` and `field*label` as keys
/// of its id.
pub open spec fn enum_keys_after(
    m: Map<Seq<char>, Seq<char>>,
    insts: Seq<IndividualV>,
    prefix: Seq<char>,
    field: Seq<char>,
) -> Map<Seq<char>, Seq<char>>
    decreases insts.len(),
{
    if insts.len() == 0 {
        m
    } else {
        let m0 = enum_keys_after(m, insts.drop_last(), prefix, field);
        match label_of(insts.last()) {
            Some(l) => m0.insert(prefix + "*"@ + l, insts.last().id).insert(
                field + "*"@ + l,
                insts.last().id,
            ),
            None => m0,
        }
    }
}

/// The enumeration values of a range, and the mapping after recording them: none for an
/// `xsd:` range or a class without labelled instances.
pub open spec fn enum_values_of(
    onto: Ontology,
    field: Seq<char>,
    range: Seq<char>,
    prefix: Seq<char>,
    m: Map<Seq<char>, Seq<char>>,
) -> (Option<Seq<Seq<char>>>, Map<Seq<char>, Seq<char>>) {
    if is_prefix_of("xsd:"@, range) {
        (None, m)
    } else {
        let insts = onto.members(range);
        let labels = enum_labels(insts);
        (
            if labels.len() == 0 {
                None
            } else {
                Some(labels)
            },
            enum_keys_after(m, insts, prefix, field),
        )
    }
}

/// The enumeration values of the property `uri`, by its range; the mapping keys take the
/// property's short name and `field`.
pub open spec fn property_enum(
    onto: Ontology,
    field: Seq<char>,
    uri: Seq<char>,
    m: Map<Seq<char>, Seq<char>>,
) -> (Option<Seq<Seq<char>>>, Map<Seq<char>, Seq<char>>) {
    match onto.find(uri) {
        None => (None, m),
        Some(ind) => match ind.first_literal("rdfs:range"@) {
            None => (None, m),
            Some(range) => enum_values_of(onto, field, range, after_last(uri, ':'), m),
        },
    }
}

fn process_enum_values(
    onto: &Ontology,
    json_field_name: &str,
    range_type: &str,
    mapping_key_prefix: &str,
    enum_value_mapping: &mut TextMap,
) -> (r: Option<Vec<String>>)
    requires
        old(enum_value_mapping).wf(),
    ensures
        final(enum_value_mapping).wf(),
        (opt_views(r), final(enum_value_mapping)@) == enum_values_of(
            *onto,
            json_field_name@,
            range_type@,
            mapping_key_prefix@,
            old(enum_value_mapping)@,
        ),
{
    if starts_with(range_type, "xsd:") {
        return None;
    }
    let insts = onto.get_members(range_type);
    let ghost iv = ind_views(insts@);
    let ghost m0 = enum_value_mapping@;
    let mut labels: Vec<String> = Vec::new();
    let mut i: usize = 0;
    while i < insts.len()
        invariant
            iv == ind_views(insts@),
            i <= insts@.len(),
            enum_value_mapping.wf(),
            views_of(labels@) == enum_labels(iv.take(i as int)),
            enum_value_mapping@ == enum_keys_after(
                m0,
                iv.take(i as int),
                mapping_key_prefix@,
                json_field_name@,
            ),
        decreases insts@.len() - i,
    {
        assert(iv.take(i + 1).drop_last() =~= iv.take(i as int));
        assert(iv.take(i + 1).last() == insts@[i as int]@);
        let inst = &insts[i];
        match inst.get_first_literal_with_lang("rdfs:label", Lang::Ru) {
            Some(label) => {
                let k1 = concat3(mapping_key_prefix, "*", label.as_str());
                enum_value_mapping.insert(k1, str_to_string(inst.get_id()));
                let k2 = concat3(json_field_name, "*", label.as_str());
                enum_value_mapping.insert(k2, str_to_string(inst.get_id()));
                let ghost l0 = labels@;
                labels.push(label);
                assert(views_of(labels@) =~= views_of(l0).push(labels@.last()@));
            },
            None => {},
        }
        i = i + 1;
    }
    assert(iv.take(insts@.len() as int) =~= iv);
    if labels.len() == 0 {
        None
    } else {
        Some(labels)
    }
}

pub open spec fn opt_views(o: Option<Vec<String>>) -> Option<Seq<Seq<char>>> {
    match o {
        Some(v) => Some(views_of(v@)),
        None => None,
    }
}

fn process_property_individual(
    onto: &Ontology,
    json_field_name: &str,
    mapping_uri: &str,
    enum_value_mapping: &mut TextMap,
) -> (r: Option<Vec<String>>)
    requires
        old(enum_value_mapping).wf(),
    ensures
        final(enum_value_mapping).wf(),
        (opt_views(r), final(enum_value_mapping)@) == property_enum(
            *onto,
            json_field_name@,
            mapping_uri@,
            old(enum_value_mapping)@,
        ),
{
    let ind = match onto.get_individual(mapping_uri) {
        Some(i) => i,
        None => {
            return None;
        },
    };
    let range_type = match ind.get_first_literal("rdfs:range") {
        Some(r) => r,
        None => {
            return None;
        },
    };
    let key_prefix = last_segment(mapping_uri, ':');
    process_enum_values(onto, json_field_name, range_type.as_str(), key_prefix.as_str(), enum_value_mapping)
}

// ---- the schema shown to the AI ----
/// A JSON array of strings.
pub open spec fn strs(v: Seq<Seq<char>>) -> JsonV {
    JsonV::Array(v.map_values(|t: Seq<char>| JsonV::Str(t)))
}

/// A field of the schema's own that the AI does not see.
pub open spec fn is_service_key(k: Seq<char>) -> bool {
    k == "mapping"@ || k == "assign_properties"@ || k == "create_new_individuals"@
}

/// An object's entries after copying in the entries of `add`, but for the service keys.
pub open spec fn with_additional(es: Seq<(Seq<char>, JsonV)>, add: Seq<(Seq<char>, JsonV)>) -> Seq<
    (Seq<char>, JsonV),
>
    decreases add.len(),
{
    if add.len() == 0 {
        es
    } else {
        let prev = with_additional(es, add.drop_last());
        if is_service_key(add.last().0) {
            prev
        } else {
            obj_insert(prev, add.last().0, add.last().1)
        }
    }
}

/// An item schema that describes an object gets all its properties as `required`.
pub open spec fn with_required(v: JsonV) -> JsonV {
    match v {
        JsonV::Object(es) => match obj_get(es, "properties"@) {
            Some(JsonV::Object(pes)) => JsonV::Object(
                obj_insert(es, "required"@, strs(keys_of(pes))),
            ),
            _ => v,
        },
        _ => v,
    }
}

/// An object schema with the enumeration values `ev` as `enum`.
pub open spec fn with_enum(v: JsonV, ev: Option<Seq<Seq<char>>>) -> JsonV {
    match (v, ev) {
        (JsonV::Object(es), Some(e)) => JsonV::Object(obj_insert(es, "enum"@, strs(e))),
        _ => v,
    }
}

/// `create_new_individuals` is `true` among a property's extra fields.
pub open spec fn creates_new(add: Seq<(Seq<char>, JsonV)>) -> bool {
    obj_get(add, "create_new_individuals"@) == Some(JsonV::Bool(true))
}

/// The schema the AI sees for the field `field` described by `p`, and the enumeration
/// mapping after the enumeration values met on the way are recorded.
pub open spec fn conv(field: Seq<char>, onto: Ontology, p: PropertyV, m: Map<Seq<char>, Seq<char>>) -> (
    JsonV,
    Map<Seq<char>, Seq<char>>,
)
    decreases p, 1int, 0int,
{
    match p.items {
        Some(items) => {
            let (is0, m1) = conv(field, onto, *items, m);
            let (ev, m2) = if !creates_new(p.additional) && p.mapping is Some {
                property_enum(onto, field, p.mapping->0, m1)
            } else {
                (None, m1)
            };
            let items_schema = with_enum(with_required(is0), ev);
            (
                JsonV::Object(
                    with_additional(
                        seq![("type"@, JsonV::Str("array"@)), ("items"@, items_schema)],
                        p.additional,
                    ),
                ),
                m2,
            )
        },
        None => {
            if p.properties is Some {
                let ps = p.properties->0;
                let (pes, m1) = conv_props(field, onto, ps, ps.len() as int, m);
                let base = with_additional(
                    seq![
                        ("type"@, JsonV::Str("object"@)),
                        ("additionalProperties"@, JsonV::Bool(false)),
                        ("properties"@, JsonV::Object(pes)),
                    ],
                    p.additional,
                );
                (
                    JsonV::Object(
                        match obj_get(p.additional, "required"@) {
                            Some(req) => obj_insert(base, "required"@, req),
                            None => base,
                        },
                    ),
                    m1,
                )
            } else {
                let t = match p.value_type {
                    Some(t) => t,
                    None => "string"@,
                };
                let (ev, m1) = match p.mapping {
                    Some(u) => property_enum(onto, field, u, m),
                    None => (None, m),
                };
                (
                    JsonV::Object(
                        with_additional(
                            with_enum(JsonV::Object(seq![("type"@, JsonV::Str(t))]), ev)->Object_0,
                            p.additional,
                        ),
                    ),
                    m1,
                )
            }
        },
    }
}

/// The schemas of the first `n` named properties of an object property `field`.
pub open spec fn conv_props(
    field: Seq<char>,
    onto: Ontology,
    ps: Seq<(Seq<char>, PropertyV)>,
    n: int,
    m: Map<Seq<char>, Seq<char>>,
) -> (Seq<(Seq<char>, JsonV)>, Map<Seq<char>, Seq<char>>)
    decreases ps, 0int, n,
{
    if n <= 0 || n > ps.len() {
        (Seq::empty(), m)
    } else {
        let (acc, m1) = conv_props(field, onto, ps, n - 1, m);
        let (sch, m2) = conv(ps[n - 1].0, onto, ps[n - 1].1, m1);
        let (ev, m3) = match ps[n - 1].1.mapping {
            Some(u) => property_enum(onto, field, u, m2),
            None => (None, m2),
        };
        (obj_insert(acc, ps[n - 1].0, with_enum(sch, ev)), m3)
    }
}

fn push_entry(e: &mut Vec<(String, Json)>, k: &str, v: Json)
    ensures
        jv_entries(final(e)@) == jv_entries(old(e)@).push((k@, v@)),
{
    let p = (str_to_string(k), v);
    proof {
        lemma_jv_entries_push(e@, p);
    }
    e.push(p);
}

/// Copies the extra fields of a property into its schema, but for the service fields.
pub fn add_assign_properties(obj: &mut Vec<(String, Json)>, additional: &Vec<(String, Json)>)
    ensures
        jv_entries(final(obj)@) == with_additional(jv_entries(old(obj)@), jv_entries(additional@)),
{
    let ghost a = jv_entries(additional@);
    proof {
        lemma_jv_entries(additional@);
    }
    let mut i: usize = 0;
    while i < additional.len()
        invariant
            a == jv_entries(additional@),
            a.len() == additional@.len(),
            forall|k: int|
                0 <= k < additional@.len() ==> #[trigger] a[k] == (
                    additional@[k].0@,
                    jv(additional@[k].1),
                ),
            i <= additional@.len(),
            jv_entries(obj@) == with_additional(jv_entries(old(obj)@), a.take(i as int)),
        decreases additional@.len() - i,
    {
        assert(a.take(i + 1).drop_last() =~= a.take(i as int));
        let k = &additional[i].0;
        if !(str_eq(k.as_str(), "mapping") || str_eq(k.as_str(), "assign_properties") || str_eq(
            k.as_str(),
            "create_new_individuals",
        )) {
            let c = json_copy(&additional[i].1);
            entries_insert(obj, k.clone(), c);
        }
        i = i + 1;
    }
    assert(a.take(additional@.len() as int) =~= a);
}

fn insert_enum(obj: &mut Vec<(String, Json)>, ev: Option<Vec<String>>)
    ensures
        JsonV::Object(jv_entries(final(obj)@)) == with_enum(
            JsonV::Object(jv_entries(old(obj)@)),
            opt_views(ev),
        ),
{
    match ev {
        Some(v) => {
            let a = json_string_array(&v);
            entries_insert(obj, String::from_str("enum"), a);
        },
        None => {},
    }
}

/// The keys of an object's entries, as a JSON array of strings.
fn keys_array(es: &Vec<(String, Json)>) -> (r: Json)
    ensures
        r@ == strs(keys_of(jv_entries(es@))),
{
    proof {
        lemma_jv_entries(es@);
    }
    let mut keys: Vec<String> = Vec::new();
    let mut i: usize = 0;
    while i < es.len()
        invariant
            i <= es@.len(),
            jv_entries(es@).len() == es@.len(),
            forall|k: int|
                0 <= k < es@.len() ==> #[trigger] jv_entries(es@)[k] == (es@[k].0@, jv(es@[k].1)),
            views_of(keys@) == keys_of(jv_entries(es@)).take(i as int),
        decreases es@.len() - i,
    {
        let ghost k0 = keys@;
        keys.push(es[i].0.clone());
        assert(views_of(keys@) =~= views_of(k0).push(es@[i as int].0@));
        i = i + 1;
        assert(keys_of(jv_entries(es@)).take(i as int) =~= keys_of(jv_entries(es@)).take(i - 1).push(
            es@[i - 1].0@,
        ));
    }
    assert(keys_of(jv_entries(es@)).take(es@.len() as int) =~= keys_of(jv_entries(es@)));
    json_string_array(&keys)
}

fn add_required(v: &mut Json)
    ensures
        final(v)@ == with_required(old(v)@),
{
    let ghost v0 = v@;
    match v {
        Json::Object(es) => {
            let req = match entries_get(es, "properties") {
                Some(Json::Object(pes)) => Some(keys_array(pes)),
                _ => None,
            };
            match req {
                Some(r) => entries_insert(es, String::from_str("required"), r),
                None => {},
            }
        },
        _ => {},
    }
}

/// The schema the AI sees for one field: its `items`, nested `properties` or own `type`,
/// with enumeration values from the ontology where its mapping has a class range, and the
/// property's extra fields but for the service ones. Records the enumeration keys met.
pub fn convert_property(
    json_field_name: &str,
    onto: &Ontology,
    prop: &Property,
    enum_value_mapping: &mut TextMap,
) -> (r: Json)
    requires
        old(enum_value_mapping).wf(),
    ensures
        final(enum_value_mapping).wf(),
        (r@, final(enum_value_mapping)@) == conv(
            json_field_name@,
            *onto,
            pv(*prop),
            old(enum_value_mapping)@,
        ),
    decreases prop, 1int,
{
    match &prop.items {
        Some(items) => {
            let mut items_schema = convert_property(json_field_name, onto, items, enum_value_mapping);
            add_required(&mut items_schema);
            let create_new = match entries_get(&prop.additional, "create_new_individuals") {
                Some(Json::Bool(b)) => *b,
                _ => false,
            };
            let ev = if !create_new && prop.mapping.is_some() {
                match &prop.mapping {
                    Some(u) => process_property_individual(
                        onto,
                        json_field_name,
                        u.as_str(),
                        enum_value_mapping,
                    ),
                    None => None,
                }
            } else {
                None
            };
            match &mut items_schema {
                Json::Object(ies) => insert_enum(ies, ev),
                _ => {},
            }
            let mut arr: Vec<(String, Json)> = Vec::new();
            let ghost isv = items_schema@;
            push_entry(&mut arr, "type", json_string("array"));
            push_entry(&mut arr, "items", items_schema);
            assert(jv_entries(arr@) =~= seq![("type"@, JsonV::Str("array"@)), ("items"@, isv)]);
            add_assign_properties(&mut arr, &prop.additional);
            assert(Json::Object(arr)@ == JsonV::Object(jv_entries(arr@)));
            assert(Json::Object(arr)@ == conv(json_field_name@, *onto, pv(*prop), old(enum_value_mapping)@).0);
            Json::Object(arr)
        },
        None => {
            match &prop.properties {
                Some(props) => {
                    let mut pes: Vec<(String, Json)> = Vec::new();
                    let mut i: usize = 0;
                    let ghost ps = pv_entries(props@);
                    let ghost m0 = enum_value_mapping@;
                    proof {
                        lemma_pv_entries(props@);
                    }
                    while i < props.len()
                        invariant
                            prop.properties == Some(*props),
                            ps == pv_entries(props@),
                            ps.len() == props@.len(),
                            forall|k: int|
                                0 <= k < props@.len() ==> #[trigger] ps[k] == (
                                    props@[k].0@,
                                    pv(props@[k].1),
                                ),
                            i <= props@.len(),
                            enum_value_mapping.wf(),
                            (jv_entries(pes@), enum_value_mapping@) == conv_props(
                                json_field_name@,
                                *onto,
                                ps,
                                i as int,
                                m0,
                            ),
                        decreases props@.len() - i,
                    {
                        proof {
                            assert(decreases_to!(prop => prop.properties));
                            assert(decreases_to!(prop.properties => prop.properties->0));
                            assert(decreases_to!(props => props@));
                            assert(decreases_to!(props@ => props@[i as int]));
                            assert(decreases_to!(props@[i as int] => props@[i as int].1));
                        }
                        let key = &props[i].0;
                        let value = &props[i].1;
                        let sch = convert_property(key.as_str(), onto, value, enum_value_mapping);
                        let ev = match &value.mapping {
                            Some(u) => process_property_individual(
                                onto,
                                json_field_name,
                                u.as_str(),
                                enum_value_mapping,
                            ),
                            None => None,
                        };
                        let mut sch = sch;
                        match &mut sch {
                            Json::Object(ses) => insert_enum(ses, ev),
                            _ => {},
                        }
                        entries_insert(&mut pes, key.clone(), sch);
                        i = i + 1;
                    }
                    let mut obj: Vec<(String, Json)> = Vec::new();
                    push_entry(&mut obj, "type", json_string("object"));
                    push_entry(&mut obj, "additionalProperties", Json::Bool(false));
                    let ghost pesv = jv_entries(pes@);
                    push_entry(&mut obj, "properties", Json::Object(pes));
                    assert(jv_entries(obj@) =~= seq![
                        ("type"@, JsonV::Str("object"@)),
                        ("additionalProperties"@, JsonV::Bool(false)),
                        ("properties"@, JsonV::Object(pesv)),
                    ]);
                    add_assign_properties(&mut obj, &prop.additional);
                    match entries_get(&prop.additional, "required") {
                        Some(req) => {
                            let c = json_copy(req);
                            entries_insert(&mut obj, String::from_str("required"), c);
                        },
                        None => {},
                    }
                    assert(Json::Object(obj)@ == conv(json_field_name@, *onto, pv(*prop), old(enum_value_mapping)@).0);
                    Json::Object(obj)
                },
                None => {
                    let t = match &prop.value_type {
                        Some(t) => t.clone(),
                        None => String::from_str("string"),
                    };
                    let mut obj: Vec<(String, Json)> = Vec::new();
                    push_entry(&mut obj, "type", Json::Str(t));
                    assert(jv_entries(obj@) =~= seq![("type"@, JsonV::Str(t@))]);
                    let ev = match &prop.mapping {
                        Some(u) => process_property_individual(
                            onto,
                            json_field_name,
                            u.as_str(),
                            enum_value_mapping,
                        ),
                        None => None,
                    };
                    insert_enum(&mut obj, ev);
                    add_assign_properties(&mut obj, &prop.additional);
                    assert(Json::Object(obj)@ == conv(json_field_name@, *onto, pv(*prop), old(enum_value_mapping)@).0);
                    Json::Object(obj)
                },
            }
        },
    }
}

/// The schemas of the fields named by the first `n` entries of `fo`, each that `props`
/// describes, and the enumeration mapping after them.
pub open spec fn ai_props(
    fo: Seq<Seq<char>>,
    props: Seq<(Seq<char>, PropertyV)>,
    onto: Ontology,
    n: int,
) -> (Seq<(Seq<char>, JsonV)>, Map<Seq<char>, Seq<char>>)
    decreases n,
{
    if n <= 0 || n > fo.len() {
        (Seq::empty(), Map::empty())
    } else {
        let (acc, m1) = ai_props(fo, props, onto, n - 1);
        match kv_get(props, fo[n - 1]) {
            Some(p) => {
                let (sch, m2) = conv(fo[n - 1], onto, p, m1);
                (obj_insert(acc, fo[n - 1], sch), m2)
            },
            None => (acc, m1),
        }
    }
}

/// The whole schema the AI sees, and the enumeration mapping it records.
pub open spec fn ai_schema(
    value_type: Seq<char>,
    fo: Seq<Seq<char>>,
    props: Seq<(Seq<char>, PropertyV)>,
    onto: Ontology,
) -> (JsonV, Map<Seq<char>, Seq<char>>) {
    let (pes, m) = ai_props(fo, props, onto, fo.len() as int);
    (
        JsonV::Object(
            seq![
                ("type"@, JsonV::Str(value_type)),
                ("additionalProperties"@, JsonV::Bool(false)),
                ("properties"@, JsonV::Object(pes)),
                ("required"@, strs(fo)),
            ],
        ),
        m,
    )
}

/// The first property named `key`.
pub fn find_property<'a>(props: &'a Vec<(String, Property)>, key: &str) -> (r: Option<&'a Property>)
    ensures
        r matches Some(p) ==> kv_get(pv_entries(props@), key@) == Some(pv(*p)),
        r is None ==> kv_get(pv_entries(props@), key@) is None,
{
    let ghost e = pv_entries(props@);
    proof {
        lemma_pv_entries(props@);
    }
    let mut i: usize = 0;
    while i < props.len()
        invariant
            e == pv_entries(props@),
            e.len() == props@.len(),
            forall|k: int| 0 <= k < props@.len() ==> #[trigger] e[k] == (props@[k].0@, pv(props@[k].1)),
            i <= props@.len(),
            forall|j: int| 0 <= j < i ==> e[j].0 != key@,
        decreases props@.len() - i,
    {
        if str_eq(props[i].0.as_str(), key) {
            proof {
                lemma_kv_get_first(e, key@, i as int);
            }
            return Some(&props[i].1);
        }
        i = i + 1;
    }
    proof {
        lemma_kv_get_none(e, key@);
    }
    None
}

impl ResponseSchema {
    /// The JSON schema given to the AI: an object with the schema's `type`, no additional
    /// properties, the converted schema of each field in field order, and every field
    /// required. The enumeration values met are recorded in the schema's enumeration
    /// mapping, which is replaced.
    pub fn to_ai_schema(&mut self, onto: &Ontology) -> (r: Result<Json, SchemaError>)
        ensures
            r is Ok,
            (r->Ok_0@, final(self).enum_value_mapping@) == ai_schema(
                old(self).value_type@,
                string_views(old(self).field_order@),
                pv_entries(old(self).properties@),
                *onto,
            ),
            final(self).enum_value_mapping.wf(),
            final(self).value_type == old(self).value_type,
            final(self).properties == old(self).properties,
            final(self).field_order == old(self).field_order,
            final(self).assign_properties == old(self).assign_properties,
            final(self).additional == old(self).additional,
    {
        let ghost fo = string_views(self.field_order@);
        let ghost props = pv_entries(self.properties@);
        let mut m = TextMap::new();
        let mut pes: Vec<(String, Json)> = Vec::new();
        let mut i: usize = 0;
        while i < self.field_order.len()
            invariant
                fo == string_views(self.field_order@),
                props == pv_entries(self.properties@),
                i <= self.field_order@.len(),
                m.wf(),
                (jv_entries(pes@), m@) == ai_props(fo, props, *onto, i as int),
            decreases self.field_order@.len() - i,
        {
            let key = &self.field_order[i];
            match find_property(&self.properties, key.as_str()) {
                Some(prop) => {
                    let sch = convert_property(key.as_str(), onto, prop, &mut m);
                    entries_insert(&mut pes, key.clone(), sch);
                },
                None => {},
            }
            i = i + 1;
        }
        self.enum_value_mapping = m;
        let mut obj: Vec<(String, Json)> = Vec::new();
        push_entry(&mut obj, "type", Json::Str(self.value_type.clone()));
        push_entry(&mut obj, "additionalProperties", Json::Bool(false));
        let ghost pesv = jv_entries(pes@);
        push_entry(&mut obj, "properties", Json::Object(pes));
        let req = json_string_array(&self.field_order);
        let ghost reqv = req@;
        push_entry(&mut obj, "required", req);
        assert(jv_entries(obj@) =~= seq![
            ("type"@, JsonV::Str(self.value_type@)),
            ("additionalProperties"@, JsonV::Bool(false)),
            ("properties"@, JsonV::Object(pesv)),
            ("required"@, reqv),
        ]);
        assert(reqv == strs(fo));
        Ok(Json::Object(obj))
    }
}

// ---- the mappings a schema names ----
/// The mappings of a property and of the properties it describes, depth first: its own, then
/// those of its items, then those of each named property in order.
pub open spec fn mappings_of(p: PropertyV) -> Seq<Seq<char>>
    decreases p, 1int, 0int,
{
    (match p.mapping {
        Some(m) => seq![m],
        None => Seq::empty(),
    }) + (match p.items {
        Some(items) => mappings_of(*items),
        None => Seq::empty(),
    }) + (match p.properties {
        Some(ps) => mappings_of_props(ps, ps.len() as int),
        None => Seq::empty(),
    })
}

/// The mappings of the first `n` named properties, in order.
pub open spec fn mappings_of_props(ps: Seq<(Seq<char>, PropertyV)>, n: int) -> Seq<Seq<char>>
    decreases ps, 0int, n,
{
    if n <= 0 || n > ps.len() {
        Seq::empty()
    } else {
        mappings_of_props(ps, n - 1) + mappings_of(ps[n - 1].1)
    }
}

/// Appends the mappings of a property and of the properties it describes, depth first.
pub fn collect_mappings(p: &Property, out: &mut Vec<String>)
    ensures
        views_of(final(out)@) == views_of(old(out)@) + mappings_of(pv(*p)),
    decreases p, 1int,
{
    let ghost o0 = views_of(out@);
    match &p.mapping {
        Some(m) => {
            out.push(m.clone());
            assert(views_of(out@) =~= o0 + seq![m@]);
        },
        None => {
            assert(views_of(out@) =~= o0 + Seq::<Seq<char>>::empty());
        },
    }
    let ghost o1 = views_of(out@);
    match &p.items {
        Some(items) => {
            collect_mappings(items, out);
        },
        None => {
            assert(views_of(out@) =~= o1 + Seq::<Seq<char>>::empty());
        },
    }
    let ghost o2 = views_of(out@);
    match &p.properties {
        Some(props) => {
            let ghost ps = pv_entries(props@);
            proof {
                lemma_pv_entries(props@);
            }
            let mut i: usize = 0;
            while i < props.len()
                invariant
                    p.properties == Some(*props),
                    ps == pv_entries(props@),
                    ps.len() == props@.len(),
                    forall|k: int| 0 <= k < props@.len() ==> #[trigger] ps[k] == (props@[k].0@, pv(props@[k].1)),
                    i <= props@.len(),
                    views_of(out@) == o2 + mappings_of_props(ps, i as int),
                decreases props@.len() - i,
            {
                proof {
                    assert(decreases_to!(p => p.properties));
                    assert(decreases_to!(p.properties => p.properties->0));
                    assert(decreases_to!(props => props@));
                    assert(decreases_to!(props@ => props@[i as int]));
                    assert(decreases_to!(props@[i as int] => props@[i as int].1));
                }
                collect_mappings(&props[i].1, out);
                assert(ps[i as int].1 == pv(props@[i as int].1));
                assert(views_of(out@) =~= o2 + mappings_of_props(ps, i + 1));
                i = i + 1;
            }
        },
        None => {
            assert(views_of(out@) =~= o2 + Seq::<Seq<char>>::empty());
        },
    }
    assert(views_of(out@) =~= views_of(old(out)@) + mappings_of(pv(*p)));
}

/// The mappings that a schema's fields name, field by field, depth first.
pub fn schema_mappings(schema: &ResponseSchema) -> (r: Vec<String>)
    ensures
        views_of(r@) == mappings_of_props(schema.model().properties, schema.model().properties.len() as int),
{
    let ghost ps = pv_entries(schema.properties@);
    proof {
        lemma_pv_entries(schema.properties@);
    }
    let mut out: Vec<String> = Vec::new();
    let mut i: usize = 0;
    assert(views_of(out@) =~= Seq::<Seq<char>>::empty());
    while i < schema.properties.len()
        invariant
            ps == pv_entries(schema.properties@),
            ps.len() == schema.properties@.len(),
            forall|k: int| 0 <= k < schema.properties@.len() ==> #[trigger] ps[k] == (schema.properties@[k].0@, pv(schema.properties@[k].1)),
            i <= schema.properties@.len(),
            views_of(out@) == mappings_of_props(ps, i as int),
        decreases schema.properties@.len() - i,
    {
        collect_mappings(&schema.properties[i].1, &mut out);
        assert(ps[i as int].1 == pv(schema.properties@[i as int].1));
        i = i + 1;
    }
    out
}

} // verus!
