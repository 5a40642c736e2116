//! What the schema shown to the AI never holds: the response schema's own fields `mapping`
//! and `is_multiple`, at any depth.
use vstd::prelude::*;
use crate::json::{JsonV, obj_get, obj_insert};
use crate::kv::{kv_get, lemma_kv_get_some, lemma_kv_get_first};
use crate::onto::Ontology;
use crate::schema::{
    PropertyV, conv, conv_props, ai_props, ai_schema, with_additional, with_enum, with_required,
    strs, creates_new, property_enum, keys_of, schema_from,
};

verus! {

/// A field of the response schema that describes the mapping to the ontology.
pub open spec fn is_hidden_key(k: Seq<char>) -> bool {
    k == "mapping"@ || k == "is_multiple"@
}

/// No object in the value, at any depth, has a hidden key.
pub open spec fn shows_no_hidden(v: JsonV) -> bool
    decreases v, 0int,
{
    match v {
        JsonV::Array(items) => items_free(items),
        JsonV::Object(es) => entries_free(es),
        _ => true,
    }
}

pub open spec fn items_free(s: Seq<JsonV>) -> bool
    decreases s, 1int,
{
    if s.len() == 0 {
        true
    } else {
        items_free(s.drop_last()) && shows_no_hidden(s.last())
    }
}

pub open spec fn entries_free(es: Seq<(Seq<char>, JsonV)>) -> bool
    decreases es, 1int,
{
    if es.len() == 0 {
        true
    } else {
        entries_free(es.drop_last()) && !is_hidden_key(es.last().0) && shows_no_hidden(es.last().1)
    }
}

/// No entry has a hidden key, and no value holds one.
pub open spec fn entries_clean(es: Seq<(Seq<char>, JsonV)>) -> bool {
    forall|i: int| #![trigger es[i]] 0 <= i < es.len() ==> !is_hidden_key(es[i].0) && shows_no_hidden(es[i].1)
}

proof fn lemma_entries_free(es: Seq<(Seq<char>, JsonV)>)
    ensures
        entries_free(es) == entries_clean(es),
    decreases es.len(),
{
    if es.len() > 0 {
        let front = es.drop_last();
        lemma_entries_free(front);
        assert forall|i: int| 0 <= i < front.len() implies front[i] == es[i] by {}
        if entries_clean(es) {
            assert forall|i: int| #![trigger front[i]] 0 <= i < front.len() implies !is_hidden_key(front[i].0) && shows_no_hidden(
                front[i].1,
            ) by {
                assert(front[i] == es[i]);
            }
            assert(es.last() == es[es.len() - 1]);
        }
        if entries_free(es) {
            assert forall|i: int| #![trigger es[i]] 0 <= i < es.len() implies !is_hidden_key(es[i].0) && shows_no_hidden(
                es[i].1,
            ) by {
                if i < front.len() {
                    assert(front[i] == es[i]);
                } else {
                    assert(es.last() == es[i]);
                }
            }
        }
    }
}

proof fn lemma_items_free(s: Seq<JsonV>)
    ensures
        items_free(s) == (forall|i: int| #![trigger s[i]] 0 <= i < s.len() ==> shows_no_hidden(s[i])),
    decreases s.len(),
{
    if s.len() > 0 {
        let front = s.drop_last();
        lemma_items_free(front);
        if forall|i: int| #![trigger s[i]] 0 <= i < s.len() ==> shows_no_hidden(s[i]) {
            assert forall|i: int| #![trigger front[i]] 0 <= i < front.len() implies shows_no_hidden(front[i]) by {
                assert(front[i] == s[i]);
            }
            assert(s.last() == s[s.len() - 1]);
        }
        if items_free(s) {
            assert forall|i: int| #![trigger s[i]] 0 <= i < s.len() implies shows_no_hidden(s[i]) by {
                if i < front.len() {
                    assert(front[i] == s[i]);
                } else {
                    assert(s.last() == s[i]);
                }
            }
        }
    }
}

/// A property of the response schema none of whose named sub-properties or extra fields is
/// called `mapping` or `is_multiple`, at any depth, and none of whose extra fields holds one.
pub open spec fn clean_prop(p: PropertyV) -> bool
    decreases p, 0int,
{
    &&& entries_clean(p.additional)
    &&& match p.items {
        Some(b) => clean_prop(*b),
        None => true,
    }
    &&& match p.properties {
        Some(ps) => clean_props(ps),
        None => true,
    }
}

pub open spec fn clean_props(ps: Seq<(Seq<char>, PropertyV)>) -> bool
    decreases ps, 1int,
{
    if ps.len() == 0 {
        true
    } else {
        clean_props(ps.drop_last()) && !is_hidden_key(ps.last().0) && clean_prop(ps.last().1)
    }
}

proof fn lemma_clean_props(ps: Seq<(Seq<char>, PropertyV)>, i: int)
    requires
        clean_props(ps),
        0 <= i < ps.len(),
    ensures
        !is_hidden_key(ps[i].0),
        clean_prop(ps[i].1),
    decreases ps.len(),
{
    if i < ps.len() - 1 {
        lemma_clean_props(ps.drop_last(), i);
        assert(ps.drop_last()[i] == ps[i]);
    }
}

proof fn lemma_key_lengths()
    ensures
        !is_hidden_key("type"@),
        !is_hidden_key("items"@),
        !is_hidden_key("enum"@),
        !is_hidden_key("required"@),
        !is_hidden_key("properties"@),
        !is_hidden_key("additionalProperties"@),
{
    reveal_strlit("mapping");
    reveal_strlit("is_multiple");
    reveal_strlit("type");
    reveal_strlit("items");
    reveal_strlit("enum");
    reveal_strlit("required");
    reveal_strlit("properties");
    reveal_strlit("additionalProperties");
    assert("mapping"@.len() == 7);
    assert("is_multiple"@.len() == 11);
    assert("type"@.len() == 4);
    assert("items"@.len() == 5);
    assert("enum"@.len() == 4);
    assert("required"@.len() == 8);
    assert("properties"@.len() == 10);
    assert("additionalProperties"@.len() == 20);
}

proof fn lemma_object_clean(es: Seq<(Seq<char>, JsonV)>)
    ensures
        shows_no_hidden(JsonV::Object(es)) == entries_clean(es),
{
    lemma_entries_free(es);
}

proof fn lemma_strs_clean(v: Seq<Seq<char>>)
    ensures
        shows_no_hidden(strs(v)),
{
    let items = v.map_values(|t: Seq<char>| JsonV::Str(t));
    assert forall|i: int| #![trigger items[i]] 0 <= i < items.len() implies shows_no_hidden(items[i]) by {
        assert(items[i] == JsonV::Str(v[i]));
    }
    lemma_items_free(items);
}

proof fn lemma_obj_insert_clean(es: Seq<(Seq<char>, JsonV)>, k: Seq<char>, v: JsonV)
    requires
        entries_clean(es),
        !is_hidden_key(k),
        shows_no_hidden(v),
    ensures
        entries_clean(obj_insert(es, k, v)),
    decreases es.len(),
{
    if es.len() == 0 {
    } else if es[0].0 == k {
        let r = es.update(0, (k, v));
        assert forall|i: int| #![trigger r[i]] 0 <= i < r.len() implies !is_hidden_key(r[i].0) && shows_no_hidden(
            r[i].1,
        ) by {
            if i > 0 {
                assert(r[i] == es[i]);
            }
        }
    } else {
        let rest = es.drop_first();
        assert forall|i: int| #![trigger rest[i]] 0 <= i < rest.len() implies !is_hidden_key(rest[i].0) && shows_no_hidden(
            rest[i].1,
        ) by {
            assert(rest[i] == es[i + 1]);
        }
        lemma_obj_insert_clean(rest, k, v);
        let tail = obj_insert(rest, k, v);
        let r = seq![es[0]] + tail;
        assert forall|i: int| #![trigger r[i]] 0 <= i < r.len() implies !is_hidden_key(r[i].0) && shows_no_hidden(
            r[i].1,
        ) by {
            if i == 0 {
                assert(r[0] == es[0]);
            } else {
                assert(r[i] == tail[i - 1]);
            }
        }
        assert(obj_insert(es, k, v) == r);
    }
}

proof fn lemma_obj_get_clean(es: Seq<(Seq<char>, JsonV)>, k: Seq<char>)
    requires
        entries_clean(es),
        obj_get(es, k) is Some,
    ensures
        shows_no_hidden(obj_get(es, k)->0),
    decreases es.len(),
{
    if es[0].0 != k {
        let rest = es.drop_first();
        assert forall|i: int| #![trigger rest[i]] 0 <= i < rest.len() implies !is_hidden_key(rest[i].0) && shows_no_hidden(
            rest[i].1,
        ) by {
            assert(rest[i] == es[i + 1]);
        }
        lemma_obj_get_clean(rest, k);
    }
}

proof fn lemma_with_additional_clean(es: Seq<(Seq<char>, JsonV)>, add: Seq<(Seq<char>, JsonV)>)
    requires
        entries_clean(es),
        entries_clean(add),
    ensures
        entries_clean(with_additional(es, add)),
    decreases add.len(),
{
    if add.len() > 0 {
        let front = add.drop_last();
        assert forall|i: int| #![trigger front[i]] 0 <= i < front.len() implies !is_hidden_key(front[i].0) && shows_no_hidden(
            front[i].1,
        ) by {
            assert(front[i] == add[i]);
        }
        lemma_with_additional_clean(es, front);
        let last = add.last();
        assert(add[add.len() - 1] == last);
        assert(shows_no_hidden(add[add.len() - 1].1));
        lemma_obj_insert_clean(with_additional(es, front), last.0, last.1);
    }
}

proof fn lemma_with_enum_clean(v: JsonV, ev: Option<Seq<Seq<char>>>)
    requires
        shows_no_hidden(v),
    ensures
        shows_no_hidden(with_enum(v, ev)),
{
    lemma_key_lengths();
    match (v, ev) {
        (JsonV::Object(es), Some(e)) => {
            lemma_object_clean(es);
            lemma_strs_clean(e);
            lemma_obj_insert_clean(es, "enum"@, strs(e));
            lemma_object_clean(obj_insert(es, "enum"@, strs(e)));
        },
        _ => {},
    }
}

proof fn lemma_with_required_clean(v: JsonV)
    requires
        shows_no_hidden(v),
    ensures
        shows_no_hidden(with_required(v)),
{
    lemma_key_lengths();
    match v {
        JsonV::Object(es) => match obj_get(es, "properties"@) {
            Some(JsonV::Object(pes)) => {
                lemma_object_clean(es);
                lemma_strs_clean(keys_of(pes));
                lemma_obj_insert_clean(es, "required"@, strs(keys_of(pes)));
                lemma_object_clean(obj_insert(es, "required"@, strs(keys_of(pes))));
            },
            _ => {},
        },
        _ => {},
    }
}

proof fn lemma_two_clean(k1: Seq<char>, v1: JsonV, k2: Seq<char>, v2: JsonV)
    requires
        !is_hidden_key(k1),
        !is_hidden_key(k2),
        shows_no_hidden(v1),
        shows_no_hidden(v2),
    ensures
        entries_clean(seq![(k1, v1), (k2, v2)]),
{
    let s = seq![(k1, v1), (k2, v2)];
    assert forall|i: int| #![trigger s[i]] 0 <= i < s.len() implies !is_hidden_key(s[i].0) && shows_no_hidden(s[i].1) by {
        if i == 0 {
            assert(s[0] == (k1, v1));
        } else {
            assert(s[1] == (k2, v2));
        }
    }
}

/// The schema of a clean property holds no hidden key.
pub proof fn lemma_conv_clean(field: Seq<char>, onto: Ontology, p: PropertyV, m: Map<Seq<char>, Seq<char>>)
    requires
        clean_prop(p),
    ensures
        shows_no_hidden(conv(field, onto, p, m).0),
    decreases p, 1int, 0int,
{
    lemma_key_lengths();
    match p.items {
        Some(items) => {
            lemma_conv_clean(field, onto, *items, m);
            let (is0, m1) = conv(field, onto, *items, m);
            let (ev, m2) = if !creates_new(p.additional) && p.mapping is Some {
                property_enum(onto, field, p.mapping->0, m1)
            } else {
                (None, m1)
            };
            lemma_with_required_clean(is0);
            lemma_with_enum_clean(with_required(is0), ev);
            let items_schema = with_enum(with_required(is0), ev);
            lemma_two_clean("type"@, JsonV::Str("array"@), "items"@, items_schema);
            lemma_with_additional_clean(seq![("type"@, JsonV::Str("array"@)), ("items"@, items_schema)], p.additional);
            lemma_object_clean(
                with_additional(seq![("type"@, JsonV::Str("array"@)), ("items"@, items_schema)], p.additional),
            );
        },
        None => {
            if p.properties is Some {
                let ps = p.properties->0;
                lemma_conv_props_clean(field, onto, ps, ps.len() as int, m);
                let (pes, m1) = conv_props(field, onto, ps, ps.len() as int, m);
                let head = seq![
                    ("type"@, JsonV::Str("object"@)),
                    ("additionalProperties"@, JsonV::Bool(false)),
                    ("properties"@, JsonV::Object(pes)),
                ];
                lemma_object_clean(pes);
                assert forall|i: int| #![trigger head[i]] 0 <= i < head.len() implies !is_hidden_key(head[i].0) && shows_no_hidden(
                    head[i].1,
                ) by {
                    if i == 0 {
                        assert(head[0] == ("type"@, JsonV::Str("object"@)));
                    } else if i == 1 {
                        assert(head[1] == ("additionalProperties"@, JsonV::Bool(false)));
                    } else {
                        assert(head[2] == ("properties"@, JsonV::Object(pes)));
                    }
                }
                lemma_with_additional_clean(head, p.additional);
                let base = with_additional(head, p.additional);
                match obj_get(p.additional, "required"@) {
                    Some(req) => {
                        lemma_obj_get_clean(p.additional, "required"@);
                        lemma_obj_insert_clean(base, "required"@, req);
                        lemma_object_clean(obj_insert(base, "required"@, req));
                    },
                    None => {
                        lemma_object_clean(base);
                    },
                }
            } else {
                let t = match p.value_type {
                    Some(t) => t,
                    None => "string"@,
                };
                let (ev, m1) = match p.mapping {
                    Some(u) => property_enum(onto, field, u, m),
                    None => (None, m),
                };
                let one = seq![("type"@, JsonV::Str(t))];
                assert(one[0] == ("type"@, JsonV::Str(t)));
                lemma_object_clean(one);
                lemma_with_enum_clean(JsonV::Object(one), ev);
                let e = with_enum(JsonV::Object(one), ev)->Object_0;
                assert(with_enum(JsonV::Object(one), ev) == JsonV::Object(e));
                lemma_object_clean(e);
                lemma_with_additional_clean(e, p.additional);
                lemma_object_clean(with_additional(e, p.additional));
            }
        },
    }
}

/// The schemas of clean named properties hold no hidden key, nor do their names.
pub proof fn lemma_conv_props_clean(
    field: Seq<char>,
    onto: Ontology,
    ps: Seq<(Seq<char>, PropertyV)>,
    n: int,
    m: Map<Seq<char>, Seq<char>>,
)
    requires
        clean_props(ps),
    ensures
        entries_clean(conv_props(field, onto, ps, n, m).0),
    decreases ps, 0int, n,
{
    if n <= 0 || n > ps.len() {
    } else {
        lemma_conv_props_clean(field, onto, ps, n - 1, m);
        let (acc, m1) = conv_props(field, onto, ps, n - 1, m);
        lemma_clean_props(ps, n - 1);
        lemma_conv_clean(ps[n - 1].0, onto, ps[n - 1].1, m1);
        let (sch, m2) = conv(ps[n - 1].0, onto, ps[n - 1].1, m1);
        let (ev, m3) = match ps[n - 1].1.mapping {
            Some(u) => property_enum(onto, field, u, m2),
            None => (None, m2),
        };
        lemma_with_enum_clean(sch, ev);
        lemma_obj_insert_clean(acc, ps[n - 1].0, with_enum(sch, ev));
    }
}

proof fn lemma_ai_props_clean(
    fo: Seq<Seq<char>>,
    props: Seq<(Seq<char>, PropertyV)>,
    onto: Ontology,
    n: int,
)
    requires
        forall|i: int| 0 <= i < fo.len() ==> !is_hidden_key(#[trigger] fo[i]),
        forall|i: int| 0 <= i < props.len() ==> #[trigger] clean_prop(props[i].1),
    ensures
        entries_clean(ai_props(fo, props, onto, n).0),
    decreases n,
{
    if n <= 0 || n > fo.len() {
    } else {
        lemma_ai_props_clean(fo, props, onto, n - 1);
        let (acc, m1) = ai_props(fo, props, onto, n - 1);
        match kv_get(props, fo[n - 1]) {
            Some(p) => {
                lemma_kv_get_some(props, fo[n - 1]);
                let i = choose|i: int| #[trigger] crate::kv::first_index(props, fo[n - 1], i);
                lemma_kv_get_first(props, fo[n - 1], i);
                assert(clean_prop(props[i].1));
                lemma_conv_clean(fo[n - 1], onto, p, m1);
                lemma_obj_insert_clean(acc, fo[n - 1], conv(fo[n - 1], onto, p, m1).0);
            },
            None => {},
        }
    }
}

/// The schema shown to the AI holds neither `mapping` nor `is_multiple` as a key, at any
/// depth, for a response schema none of whose field names, property names or extra fields
/// is one of them, and none of whose extra fields holds one.
pub proof fn law_ai_schema_hides_mapping_fields(
    value_type: Seq<char>,
    fo: Seq<Seq<char>>,
    props: Seq<(Seq<char>, PropertyV)>,
    onto: Ontology,
)
    requires
        forall|i: int| 0 <= i < fo.len() ==> !is_hidden_key(#[trigger] fo[i]),
        forall|i: int| 0 <= i < props.len() ==> #[trigger] clean_prop(props[i].1),
    ensures
        shows_no_hidden(ai_schema(value_type, fo, props, onto).0),
{
    lemma_key_lengths();
    lemma_ai_props_clean(fo, props, onto, fo.len() as int);
    let pes = ai_props(fo, props, onto, fo.len() as int).0;
    lemma_object_clean(pes);
    lemma_strs_clean(fo);
    let es = seq![
        ("type"@, JsonV::Str(value_type)),
        ("additionalProperties"@, JsonV::Bool(false)),
        ("properties"@, JsonV::Object(pes)),
        ("required"@, strs(fo)),
    ];
    assert forall|i: int| #![trigger es[i]] 0 <= i < es.len() implies !is_hidden_key(es[i].0) && shows_no_hidden(es[i].1) by {
        if i == 0 {
            assert(es[0] == ("type"@, JsonV::Str(value_type)));
        } else if i == 1 {
            assert(es[1] == ("additionalProperties"@, JsonV::Bool(false)));
        } else if i == 2 {
            assert(es[2] == ("properties"@, JsonV::Object(pes)));
        } else {
            assert(es[3] == ("required"@, strs(fo)));
        }
    }
    lemma_object_clean(es);
}

/// A schema accepted from JSON shows the AI an object: its root has the type `object`, no
/// additional properties, the schemas of its fields under `properties`, and all its fields
/// required, in order.
pub proof fn law_accepted_schema_shows_an_object(v: JsonV, onto: Ontology)
    requires
        schema_from(v) is Ok,
    ensures
        ({
            let sv = schema_from(v)->Ok_0;
            let es = ai_schema(sv.value_type, keys_of(sv.properties), sv.properties, onto).0->Object_0;
            &&& obj_get(es, "type"@) == Some(JsonV::Str("object"@))
            &&& obj_get(es, "additionalProperties"@) == Some(JsonV::Bool(false))
            &&& obj_get(es, "properties"@) is Some
            &&& obj_get(es, "properties"@)->0 is Object
            &&& obj_get(es, "required"@) == Some(strs(keys_of(sv.properties)))
        }),
{
    lemma_key_lengths();
    reveal_strlit("type");
    reveal_strlit("additionalProperties");
    reveal_strlit("properties");
    reveal_strlit("required");
    let sv = schema_from(v)->Ok_0;
    let es = ai_schema(sv.value_type, keys_of(sv.properties), sv.properties, onto).0->Object_0;
    reveal_with_fuel(obj_get, 5);
    assert(es.drop_first().drop_first().drop_first()[0].0 == "required"@);
    assert(es.drop_first().drop_first()[0].0 == "properties"@);
    assert(es.drop_first()[0].0 == "additionalProperties"@);
}

} // verus!
