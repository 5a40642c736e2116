//! What goes into a request to the AI: the JSON schema of the answer, built from the
//! ontology's property definitions, and the messages.
use vstd::prelude::*;
use crate::individual::{Individual, IndividualV, Lang, first_literal_in_lang};
use crate::json::{
    Json, JsonV, jv_entries, lemma_jv_entries_push, obj_insert, obj_get, lemma_obj_get_insert, entries_insert, json_string,
    json_string_array, json_to_string, serde_json_text,
};
use crate::mapping::TextMap;
use crate::onto::{Ontology, ind_views};
use crate::schema::{has_literal, strs, string_views};
use crate::text::{str_eq, str_to_string, starts_with, concat3, last_segment, is_prefix_of, after_last, views_of};

verus! {

pub open spec fn opt_seq(o: Option<Vec<String>>) -> Option<Seq<Seq<char>>> {
    match o {
        Some(v) => Some(views_of(v@)),
        None => None,
    }
}

/// `id` is among the excluded ids.
pub open spec fn is_excluded(ex: Option<Seq<Seq<char>>>, id: Seq<char>) -> bool {
    match ex {
        Some(s) => s.contains(id),
        None => false,
    }
}

/// The Russian label of an instance.
pub open spec fn ru_label(ind: IndividualV) -> Option<Seq<char>> {
    first_literal_in_lang(ind.values("rdfs:label"@), Lang::Ru)
}

/// The labels of the instances that are not excluded and have a label.
pub open spec fn allowed_labels(insts: Seq<IndividualV>, ex: Option<Seq<Seq<char>>>) -> Seq<Seq<char>>
    decreases insts.len(),
{
    if insts.len() == 0 {
        Seq::empty()
    } else {
        let prev = allowed_labels(insts.drop_last(), ex);
        if is_excluded(ex, insts.last().id) {
            prev
        } else {
            match ru_label(insts.last()) {
                Some(l) => prev.push(l),
                None => prev,
            }
        }
    }
}

/// The mapping after recording `short*label` for each allowed labelled instance.
pub open spec fn allowed_keys(
    pm: Map<Seq<char>, Seq<char>>,
    insts: Seq<IndividualV>,
    ex: Option<Seq<Seq<char>>>,
    short: Seq<char>,
) -> Map<Seq<char>, Seq<char>>
    decreases insts.len(),
{
    if insts.len() == 0 {
        pm
    } else {
        let prev = allowed_keys(pm, insts.drop_last(), ex, short);
        if is_excluded(ex, insts.last().id) {
            prev
        } else {
            match ru_label(insts.last()) {
                Some(l) => prev.insert(short + "*"@ + l, insts.last().id),
                None => prev,
            }
        }
    }
}

/// The JSON type of values of an `xsd:` range.
pub open spec fn item_type_of(range: Seq<char>) -> Seq<char> {
    if range == "xsd:integer"@ {
        "integer"@
    } else if range == "xsd:decimal"@ {
        "number"@
    } else {
        "string"@
    }
}

/// The JSON type that a property's schema describes its values with: its `type`, or, for an
/// array, the `type` of its items.
pub open spec fn described_type(d: JsonV) -> Option<Seq<char>> {
    match d {
        JsonV::Object(e) => match obj_get(e, "type"@) {
            Some(JsonV::Str(t)) => if t == "array"@ {
                match obj_get(e, "items"@) {
                    Some(JsonV::Object(ie)) => match obj_get(ie, "type"@) {
                        Some(JsonV::Str(it)) => Some(it),
                        _ => None,
                    },
                    _ => None,
                }
            } else {
                Some(t)
            },
            _ => None,
        },
        _ => None,
    }
}

/// The description of a property is an array of values.
pub open spec fn is_array_def(d: JsonV) -> bool {
    d matches JsonV::Object(e) && obj_get(e, "type"@) == Some(JsonV::Str("array"@))
}

proof fn lemma_def_type(functional: bool, t: Seq<char>, ev: Option<Seq<Seq<char>>>, desc: Seq<char>)
    requires
        t != "array"@,
    ensures
        described_type(prop_def(functional, t, ev, desc)) == Some(t),
        is_array_def(prop_def(functional, t, ev, desc)) <==> !functional,
{
    reveal_strlit("type");
    reveal_strlit("items");
    reveal_strlit("array");
    assert("type"@[0] != "items"@[0]);
    let item = match ev {
        Some(e) => seq![("type"@, JsonV::Str(t)), ("enum"@, strs(e))],
        None => seq![("type"@, JsonV::Str(t))],
    };
    assert(item[0] == ("type"@, JsonV::Str(t)));
    assert(obj_get(item, "type"@) == Some(JsonV::Str(t)));
    if functional {
        let e = item.push(("description"@, JsonV::Str(desc)));
        assert(e[0] == ("type"@, JsonV::Str(t)));
        assert(obj_get(e, "type"@) == Some(JsonV::Str(t)));
    } else {
        let e = seq![
            ("type"@, JsonV::Str("array"@)),
            ("items"@, JsonV::Object(item)),
            ("description"@, JsonV::Str(desc)),
        ];
        assert(obj_get(e, "type"@) == Some(JsonV::Str("array"@)));
        assert(e.drop_first()[0] == ("items"@, JsonV::Object(item)));
        assert(obj_get(e.drop_first(), "items"@) == Some(JsonV::Object(item)));
        assert(obj_get(e, "items"@) == Some(JsonV::Object(item)));
    }
}

/// The range text of a loaded property: its first `rdfs:range` literal, or none.
pub open spec fn range_or_empty(ind: IndividualV) -> Seq<char> {
    match ind.first_literal("rdfs:range"@) {
        Some(r) => r,
        None => Seq::empty(),
    }
}

/// In the answer schema built for ontology properties, each loaded property is described
/// under its short name (where no later loaded property of the list takes the same short
/// name): as an array of values exactly where it is not functional, and with the JSON type
/// `number` for the range `xsd:decimal`, `integer` for `xsd:integer`, and `string` for any
/// other range.
pub proof fn law_property_type(
    onto: Ontology,
    props: Seq<Seq<char>>,
    ex: Option<Seq<Seq<char>>>,
    n: int,
    pm: Map<Seq<char>, Seq<char>>,
    k: int,
)
    requires
        0 <= k < n <= props.len(),
        onto.find(props[k]) is Some,
        forall|j: int|
            #![trigger props[j]]
            k < j < n && onto.find(props[j]) is Some ==> after_last(props[j], ':') != after_last(props[k], ':'),
    ensures
        ({
            let ind = onto.find(props[k])->0;
            let range = range_or_empty(ind);
            let found = obj_get(collect_spec(onto, props, ex, n, pm).0, after_last(props[k], ':'));
            &&& found is Some
            &&& is_array_def(found->0) <==> !ind.any_exists("rdf:type"@, seq!["owl:FunctionalProperty"@])
            &&& range == "xsd:decimal"@ ==> described_type(found->0) == Some("number"@)
            &&& range == "xsd:integer"@ ==> described_type(found->0) == Some("integer"@)
            &&& range != "xsd:decimal"@ && range != "xsd:integer"@ ==> described_type(found->0) == Some("string"@)
        }),
    decreases n,
{
    reveal_strlit("array");
    reveal_strlit("number");
    reveal_strlit("integer");
    reveal_strlit("string");
    reveal_strlit("xsd:integer");
    reveal_strlit("xsd:decimal");
    reveal_strlit("xsd:");
    assert("array"@[0] == 'a' && "number"@[0] == 'n' && "integer"@[0] == 'i' && "string"@[0] == 's');
    assert("xsd:integer"@[4] != "xsd:decimal"@[4]);
    let range = range_or_empty(onto.find(props[k])->0);
    if range == "xsd:decimal"@ || range == "xsd:integer"@ {
        assert(is_prefix_of("xsd:"@, range)) by {
            assert(range.subrange(0, 4) =~= "xsd:"@);
        }
    }
    let short = after_last(props[k], ':');
    let (acc, pm0) = collect_spec(onto, props, ex, n - 1, pm);
    let j = n - 1;
    if j == k || onto.find(props[j]) is Some {
        let ind = onto.find(props[j])->0;
        let r2 = range_or_empty(ind);
        let functional = ind.any_exists("rdf:type"@, seq!["owl:FunctionalProperty"@]);
        let desc = match ru_label(ind) {
            Some(d) => d,
            None => props[j],
        };
        let s2 = after_last(props[j], ':');
        if !is_prefix_of("xsd:"@, r2) {
            let insts = onto.members(r2);
            let labels = allowed_labels(insts, ex);
            let ev = if labels.len() == 0 {
                None
            } else {
                Some(labels)
            };
            lemma_obj_get_insert(acc, s2, prop_def(functional, "string"@, ev, desc), short);
            lemma_def_type(functional, "string"@, ev, desc);
        } else {
            lemma_obj_get_insert(acc, s2, prop_def(functional, item_type_of(r2), None, desc), short);
            lemma_def_type(functional, item_type_of(r2), None, desc);
        }
    }
    if j != k {
        law_property_type(onto, props, ex, n - 1, pm, k);
    }
}

/// The schema of a property: a single value of type `t` (with the enumeration `ev`, if
/// any) for a functional property, else an array of them; with the description.
pub open spec fn prop_def(functional: bool, t: Seq<char>, ev: Option<Seq<Seq<char>>>, desc: Seq<char>) -> JsonV {
    let item = match ev {
        Some(e) => seq![("type"@, JsonV::Str(t)), ("enum"@, strs(e))],
        None => seq![("type"@, JsonV::Str(t))],
    };
    if functional {
        JsonV::Object(item.push(("description"@, JsonV::Str(desc))))
    } else {
        JsonV::Object(
            seq![
                ("type"@, JsonV::Str("array"@)),
                ("items"@, JsonV::Object(item)),
                ("description"@, JsonV::Str(desc)),
            ],
        )
    }
}

/// The property schemas of the first `n` properties, keyed by short name, and the property
/// mapping after recording each short name and each enumeration value.
pub open spec fn collect_spec(
    onto: Ontology,
    props: Seq<Seq<char>>,
    ex: Option<Seq<Seq<char>>>,
    n: int,
    pm: Map<Seq<char>, Seq<char>>,
) -> (Seq<(Seq<char>, JsonV)>, Map<Seq<char>, Seq<char>>)
    decreases n,
{
    if n <= 0 || n > props.len() {
        (Seq::empty(), pm)
    } else {
        let (acc, pm0) = collect_spec(onto, props, ex, n - 1, pm);
        let full = props[n - 1];
        match onto.find(full) {
            None => (acc, pm0),
            Some(ind) => {
                let functional = ind.any_exists("rdf:type"@, seq!["owl:FunctionalProperty"@]);
                let range = match ind.first_literal("rdfs:range"@) {
                    Some(r) => r,
                    None => Seq::empty(),
                };
                let desc = match ru_label(ind) {
                    Some(d) => d,
                    None => full,
                };
                let short = after_last(full, ':');
                let pm1 = pm0.insert(short, full);
                if !is_prefix_of("xsd:"@, range) {
                    let insts = onto.members(range);
                    let labels = allowed_labels(insts, ex);
                    let ev = if labels.len() == 0 {
                        None
                    } else {
                        Some(labels)
                    };
                    (
                        obj_insert(acc, short, prop_def(functional, "string"@, ev, desc)),
                        allowed_keys(pm1, insts, ex, short),
                    )
                } else {
                    (obj_insert(acc, short, prop_def(functional, item_type_of(range), None, desc)), pm1)
                }
            },
        }
    }
}

fn contains_string(v: &Vec<String>, s: &str) -> (r: bool)
    ensures
        r == views_of(v@).contains(s@),
{
    let mut i: usize = 0;
    while i < v.len()
        invariant
            i <= v@.len(),
            forall|k: int| 0 <= k < i ==> v@[k]@ != s@,
        decreases v@.len() - i,
    {
        if str_eq(v[i].as_str(), s) {
            assert(views_of(v@)[i as int] == s@);
            return true;
        }
        i = i + 1;
    }
    assert forall|k: int| 0 <= k < views_of(v@).len() implies views_of(v@)[k] != s@ by {
        assert(views_of(v@)[k] == v@[k]@);
    }
    false
}

fn push_entry(e: &mut Vec<(String, Json)>, k: &str, v: Json)
    ensures
        jv_entries(final(e)@) == jv_entries(old(e)@).push((k@, v@)),
{
    let p = (str_to_string(k), v);
    proof {
        lemma_jv_entries_push(e@, p);
    }
    e.push(p);
}

fn make_prop_def(functional: bool, t: &str, ev: Option<Vec<String>>, desc: &str) -> (r: Json)
    ensures
        r@ == prop_def(functional, t@, opt_seq(ev), desc@),
{
    let mut item: Vec<(String, Json)> = Vec::new();
    push_entry(&mut item, "type", json_string(t));
    match ev {
        Some(e) => {
            push_entry(&mut item, "enum", json_string_array(&e));
        },
        None => {},
    }
    let ghost iv = jv_entries(item@);
    assert(iv =~= (match opt_seq(ev) {
        Some(e) => seq![("type"@, JsonV::Str(t@)), ("enum"@, strs(e))],
        None => seq![("type"@, JsonV::Str(t@))],
    }));
    if functional {
        push_entry(&mut item, "description", json_string(desc));
        Json::Object(item)
    } else {
        let mut arr: Vec<(String, Json)> = Vec::new();
        push_entry(&mut arr, "type", json_string("array"));
        push_entry(&mut arr, "items", Json::Object(item));
        push_entry(&mut arr, "description", json_string(desc));
        assert(jv_entries(arr@) =~= seq![
            ("type"@, JsonV::Str("array"@)),
            ("items"@, JsonV::Object(iv)),
            ("description"@, JsonV::Str(desc@)),
        ]);
        Json::Object(arr)
    }
}

fn item_type(range: &str) -> (r: &'static str)
    ensures
        r@ == item_type_of(range@),
{
    if str_eq(range, "xsd:integer") {
        "integer"
    } else if str_eq(range, "xsd:decimal") {
        "number"
    } else {
        "string"
    }
}

/// Builds the answer schema of the given properties: for each property that the ontology
/// has, keyed by its short name (the text after its last `:`), a single value for a
/// functional property or an array otherwise; an `xsd:` range gives the JSON type, a class
/// range gives strings with the labels of its instances (but the excluded ones) as an
/// enumeration. Records in `property_mapping` each short name and each `short*label`.
pub fn collect_define_from_schema(
    onto: &Ontology,
    properties: &Vec<String>,
    excluded: &Option<Vec<String>>,
    property_mapping: &mut TextMap,
) -> (r: Vec<(String, Json)>)
    requires
        old(property_mapping).wf(),
    ensures
        final(property_mapping).wf(),
        (jv_entries(r@), final(property_mapping)@) == collect_spec(
            *onto,
            views_of(properties@),
            opt_seq(*excluded),
            properties@.len() as int,
            old(property_mapping)@,
        ),
{
    let ghost props = views_of(properties@);
    let ghost ex = opt_seq(*excluded);
    let mut out: Vec<(String, Json)> = Vec::new();
    let mut n: usize = 0;
    while n < properties.len()
        invariant
            props == views_of(properties@),
            ex == opt_seq(*excluded),
            n <= properties@.len(),
            property_mapping.wf(),
            (jv_entries(out@), property_mapping@) == collect_spec(
                *onto,
                props,
                ex,
                n as int,
                old(property_mapping)@,
            ),
        decreases properties@.len() - n,
    {
        let full = &properties[n];
        assert(props[n as int] == full@);
        match onto.get_individual(full.as_str()) {
            None => {},
            Some(ind) => {
                let functional = has_literal(ind, "rdf:type", "owl:FunctionalProperty");
                let range = match ind.get_first_literal("rdfs:range") {
                    Some(r) => r,
                    None => String::new(),
                };
                let desc = match ind.get_first_literal_with_lang("rdfs:label", Lang::Ru) {
                    Some(d) => d,
                    None => full.clone(),
                };
                let short = last_segment(full.as_str(), ':');
                property_mapping.insert(short.clone(), full.clone());
                if !starts_with(range.as_str(), "xsd:") {
                    let insts = onto.get_members(range.as_str());
                    let ghost iv = ind_views(insts@);
                    let ghost pm1 = property_mapping@;
                    let mut labels: Vec<String> = Vec::new();
                    let mut i: usize = 0;
                    while i < insts.len()
                        invariant
                            iv == ind_views(insts@),
                            ex == opt_seq(*excluded),
                            i <= insts@.len(),
                            property_mapping.wf(),
                            views_of(labels@) == allowed_labels(iv.take(i as int), ex),
                            property_mapping@ == allowed_keys(pm1, iv.take(i as int), ex, short@),
                        decreases insts@.len() - i,
                    {
                        assert(iv.take(i + 1).drop_last() =~= iv.take(i as int));
                        assert(iv.take(i + 1).last() == insts@[i as int]@);
                        let inst = &insts[i];
                        let skip = match excluded {
                            Some(ex_ids) => contains_string(ex_ids, inst.get_id()),
                            None => false,
                        };
                        if !skip {
                            match inst.get_first_literal_with_lang("rdfs:label", Lang::Ru) {
                                Some(label) => {
                                    let k = concat3(short.as_str(), "*", label.as_str());
                                    property_mapping.insert(k, str_to_string(inst.get_id()));
                                    let ghost l0 = labels@;
                                    labels.push(label);
                                    assert(views_of(labels@) =~= views_of(l0).push(labels@.last()@));
                                },
                                None => {},
                            }
                        }
                        i = i + 1;
                    }
                    assert(iv.take(insts@.len() as int) =~= iv);
                    let ev = if labels.len() == 0 {
                        None
                    } else {
                        Some(labels)
                    };
                    let def = make_prop_def(functional, "string", ev, desc.as_str());
                    entries_insert(&mut out, short, def);
                } else {
                    let def = make_prop_def(functional, item_type(range.as_str()), None, desc.as_str());
                    entries_insert(&mut out, short, def);
                }
            },
        }
        n = n + 1;
    }
    out
}

// ---- chat requests ----
/// Who speaks a message.
#[derive(PartialEq, Eq, Structural, Clone, Copy, Debug)]
pub enum Role {
    System,
    User,
}

/// A part of a message: text, or an image given by URL (sent with high detail).
pub enum ContentPart {
    Text(String),
    ImageUrl(String),
}

pub enum MessageContent {
    Text(String),
    Parts(Vec<ContentPart>),
}

pub struct ChatMessage {
    pub role: Role,
    pub content: MessageContent,
}

/// What a chat completion request holds: the model, the messages, and, where the answer
/// must follow a JSON schema, the schema's name and the schema (strict).
pub struct ChatRequest {
    pub model: String,
    pub messages: Vec<ChatMessage>,
    pub response_schema: Option<(String, Json)>,
    pub seed: Option<u32>,
    pub max_tokens: Option<u32>,
}

/// The text of a message that is plain text.
pub open spec fn text_of(m: ChatMessage) -> Option<Seq<char>> {
    match m.content {
        MessageContent::Text(t) => Some(t@),
        _ => None,
    }
}

/// The keys of the mapping's entries that name properties, not enumeration values.
pub open spec fn property_keys(es: Seq<(Seq<char>, Seq<char>)>) -> Seq<Seq<char>>
    decreases es.len(),
{
    if es.len() == 0 {
        Seq::empty()
    } else if es.last().0.contains('*') {
        property_keys(es.drop_last())
    } else {
        property_keys(es.drop_last()).push(es.last().0)
    }
}

/// The schema of an answer that holds the properties under `result`, all required.
pub open spec fn result_schema(props: Seq<(Seq<char>, JsonV)>, required: Seq<Seq<char>>) -> JsonV {
    JsonV::Object(
        seq![
            ("type"@, JsonV::Str("object"@)),
            ("additionalProperties"@, JsonV::Bool(false)),
            (
                "properties"@,
                JsonV::Object(
                    seq![
                        (
                            "result"@,
                            JsonV::Object(
                                seq![
                                    ("type"@, JsonV::Str("object"@)),
                                    ("additionalProperties"@, JsonV::Bool(false)),
                                    ("properties"@, JsonV::Object(props)),
                                    ("required"@, strs(required)),
                                ],
                            ),
                        ),
                    ],
                ),
            ),
            ("required"@, strs(seq!["result"@])),
        ],
    )
}

fn text_message(role: Role, text: String) -> (r: ChatMessage)
    ensures
        r.role == role,
        text_of(r) == Some(text@),
{
    ChatMessage { role, content: MessageContent::Text(text) }
}

/// The keys of the mapping that name properties, in insertion order.
pub fn required_keys(property_mapping: &TextMap) -> (r: Vec<String>)
    ensures
        views_of(r@) == property_keys(property_mapping.entry_seq()),
{
    let ghost es = property_mapping.entry_seq();
    let n = property_mapping.len();
    let mut out: Vec<String> = Vec::new();
    let mut i: usize = 0;
    while i < n
        invariant
            es == property_mapping.entry_seq(),
            n == es.len(),
            i <= n,
            views_of(out@) == property_keys(es.take(i as int)),
        decreases n - i,
    {
        assert(es.take(i + 1).drop_last() =~= es.take(i as int));
        let (k, _v) = property_mapping.entry_at(i);
        if !crate::text::has_char(k.as_str(), '*') {
            let ghost o0 = out@;
            out.push(k.clone());
            assert(views_of(out@) =~= views_of(o0).push(k@));
        }
        i = i + 1;
    }
    assert(es.take(n as int) =~= es);
    out
}

pub open spec fn only_russian() -> Seq<char> {
    "You must respond only in Russian language. Use only Russian for all text fields."@
}

/// The request for a structured analysis: two system messages (answer in Russian; the
/// prompt's `v-bpa:promptText`), the analysis data as JSON text from the user, and the
/// schema `process_optimization` of an answer that holds the given property schemas under
/// `result`, each property of the mapping required. Fails when the prompt has no text.
pub fn prepare_request_ai_parameters(
    prompt: &Individual,
    model: &str,
    analysis_data: &Json,
    properties_schema: &Vec<(String, Json)>,
    property_mapping: &TextMap,
) -> (r: Result<ChatRequest, String>)
    ensures
        prompt@.first_literal("v-bpa:promptText"@) is None ==> r is Err && r->Err_0@
            == "Prompt text not found"@,
        prompt@.first_literal("v-bpa:promptText"@) matches Some(pt) ==> r matches Ok(req) && {
            &&& req.model@ == model@
            &&& req.messages@.len() == 3
            &&& req.messages@[0].role == Role::System && text_of(req.messages@[0]) == Some(
                only_russian(),
            )
            &&& req.messages@[1].role == Role::System && text_of(req.messages@[1]) == Some(pt)
            &&& req.messages@[2].role == Role::User && text_of(req.messages@[2]) == Some(
                serde_json_text(analysis_data@),
            )
            &&& req.response_schema matches Some((name, sch)) && name@ == "process_optimization"@
                && sch@ == result_schema(
                jv_entries(properties_schema@),
                property_keys(property_mapping.entry_seq()),
            )
            &&& req.seed is None && req.max_tokens is None
        },
{
    let prompt_text = match prompt.get_first_literal("v-bpa:promptText") {
        Some(t) => t,
        None => {
            return Err(String::from_str("Prompt text not found"));
        },
    };
    let required = required_keys(property_mapping);
    let mut inner: Vec<(String, Json)> = Vec::new();
    push_entry(&mut inner, "type", json_string("object"));
    push_entry(&mut inner, "additionalProperties", Json::Bool(false));
    push_entry(&mut inner, "properties", Json::Object(crate::json::entries_copy(properties_schema)));
    let req_json = json_string_array(&required);
    push_entry(&mut inner, "required", req_json);
    let ghost innerv = jv_entries(inner@);
    let mut props: Vec<(String, Json)> = Vec::new();
    push_entry(&mut props, "result", Json::Object(inner));
    let ghost propsv = jv_entries(props@);
    let mut top: Vec<(String, Json)> = Vec::new();
    push_entry(&mut top, "type", json_string("object"));
    push_entry(&mut top, "additionalProperties", Json::Bool(false));
    push_entry(&mut top, "properties", Json::Object(props));
    let mut res_names: Vec<String> = Vec::new();
    res_names.push(String::from_str("result"));
    let names = json_string_array(&res_names);
    assert(views_of(res_names@) =~= seq!["result"@]);
    let ghost namesv = names@;
    assert(namesv == strs(seq!["result"@]));
    push_entry(&mut top, "required", names);
    assert(jv_entries(top@) =~= seq![
        ("type"@, JsonV::Str("object"@)),
        ("additionalProperties"@, JsonV::Bool(false)),
        ("properties"@, JsonV::Object(propsv)),
        ("required"@, namesv),
    ]);
    let schema = Json::Object(top);
    assert(innerv =~= seq![
        ("type"@, JsonV::Str("object"@)),
        ("additionalProperties"@, JsonV::Bool(false)),
        ("properties"@, JsonV::Object(jv_entries(properties_schema@))),
        ("required"@, strs(property_keys(property_mapping.entry_seq()))),
    ]);
    assert(propsv =~= seq![("result"@, JsonV::Object(innerv))]);
    assert(schema@ == result_schema(
        jv_entries(properties_schema@),
        property_keys(property_mapping.entry_seq()),
    ));
    let mut messages: Vec<ChatMessage> = Vec::new();
    messages.push(text_message(Role::System, String::from_str("You must respond only in Russian language. Use only Russian for all text fields.")));
    messages.push(text_message(Role::System, prompt_text));
    messages.push(text_message(Role::User, json_to_string(analysis_data)));
    Ok(ChatRequest {
        model: str_to_string(model),
        messages,
        response_schema: Some((String::from_str("process_optimization"), schema)),
        seed: None,
        max_tokens: None,
    })
}

} // verus!
