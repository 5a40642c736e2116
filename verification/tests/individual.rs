use bpa_analysis::ai_result::{set_to_individual_from_ai_response, ApplyError};
use bpa_analysis::individual::{Individual, Lang, Resource};
use bpa_analysis::json::Json;
use bpa_analysis::mapping::PropertyMapping;
use bpa_analysis::onto::Ontology;
use bpa_analysis::request::{collect_define_from_schema, prepare_request_ai_parameters, required_keys, MessageContent};
use bpa_analysis::types::structured_response_values;

fn to_serde(j: &Json) -> serde_json::Value {
    match j {
        Json::Null => serde_json::Value::Null,
        Json::Bool(b) => serde_json::Value::Bool(*b),
        Json::Number(n) => serde_json::from_str(n).unwrap(),
        Json::Str(t) => serde_json::Value::String(t.clone()),
        Json::Array(a) => serde_json::Value::Array(a.iter().map(to_serde).collect()),
        Json::Object(e) => serde_json::Value::Object(e.iter().map(|(k, v)| (k.clone(), to_serde(v))).collect()),
    }
}

fn jv(t: &str) -> serde_json::Value {
    serde_json::from_str(t).unwrap()
}

#[test]
fn reads_give_back_what_was_written() {
    let mut i = Individual::new();
    i.set_id("d:i");
    assert_eq!(i.get_id(), "d:i");
    i.set_string("v-bpa:title", "First", Lang::Ru);
    i.set_uri("v-bpa:link", "d:x");
    assert_eq!(i.get_first_literal("v-bpa:title"), Some("First".to_string()));
    i.set_string("v-bpa:title", "Second", Lang::En);
    assert_eq!(i.get_literals("v-bpa:title"), Some(vec!["Second".to_string()]));
    assert_eq!(i.get_first_literal_with_lang("v-bpa:title", Lang::En), Some("Second".to_string()));
    i.add_string("v-bpa:title", "Третий", Lang::Ru);
    assert_eq!(i.get_literals("v-bpa:title"), Some(vec!["Second".to_string(), "Третий".to_string()]));
    assert_eq!(i.get_first_literal_with_lang("v-bpa:title", Lang::Ru), Some("Третий".to_string()));
    assert_eq!(i.get_first_literal("v-bpa:link"), Some("d:x".to_string()));
    i.set_integer("v-bpa:n", 5);
    i.add_integer("v-bpa:n", 6);
    assert_eq!(i.get_first_integer("v-bpa:n"), Some(5));
    assert_eq!(i.values("v-bpa:n").len(), 2);
    i.remove("v-bpa:title");
    assert!(i.get_literals("v-bpa:title").is_none());
    assert!(!i.is_exists("v-bpa:title"));
    assert!(i.is_exists("v-bpa:link"));
    assert!(i.any_exists("v-bpa:link", &["d:y", "d:x"]));
    assert!(!i.any_exists("v-bpa:link", &["d:y"]));
    i.set_uris("v-bpa:many", &vec!["a".to_string(), "b".to_string()]);
    assert_eq!(i.get_literals("v-bpa:many"), Some(vec!["a".to_string(), "b".to_string()]));
    i.set_decimal("v-bpa:d", "1.5");
    assert!(matches!(&i.values("v-bpa:d")[0], Resource::Decimal(t) if t == "1.5"));
    let c = i.copy();
    assert_eq!(c.get_id(), "d:i");
    assert_eq!(c.get_literals("v-bpa:many"), i.get_literals("v-bpa:many"));
    assert_eq!(c.get_first_integer("v-bpa:n"), Some(5));
}

fn property(id: &str, range: &str, functional: bool, label: Option<&str>) -> Individual {
    let mut p = Individual::with_id(id);
    p.add_uri("rdf:type", "owl:DatatypeProperty");
    if functional {
        p.add_uri("rdf:type", "owl:FunctionalProperty");
    }
    p.set_uri("rdfs:range", range);
    if let Some(l) = label {
        p.set_string("rdfs:label", l, Lang::Ru);
    }
    p
}

fn ontology() -> Ontology {
    let mut open = Individual::with_id("v-bpa:Open");
    open.set_string("rdfs:label", "Открыт", Lang::Ru);
    let mut hidden = Individual::with_id("v-bpa:Hidden");
    hidden.set_string("rdfs:label", "Скрыт", Lang::Ru);
    let mut onto = Ontology::new();
    onto.individuals.push(property("v-bpa:title", "xsd:string", true, Some("Название")));
    onto.individuals.push(property("v-bpa:count", "xsd:integer", false, None));
    onto.individuals.push(property("v-bpa:state", "v-bpa:State", true, Some("Состояние")));
    onto.classes.push(("v-bpa:State".to_string(), vec![open, hidden]));
    onto
}

#[test]
fn answer_schema_of_ontology_properties() {
    let mut m = PropertyMapping::new();
    let props = vec!["v-bpa:title".to_string(), "v-bpa:count".to_string(), "v-bpa:state".to_string(), "v-bpa:unknown".to_string()];
    let excluded = Some(vec!["v-bpa:Hidden".to_string()]);
    let defs = collect_define_from_schema(&ontology(), &props, &excluded, &mut m);
    assert_eq!(
        to_serde(&Json::Object(defs.iter().map(|(k, v)| (k.clone(), to_serde_back(v))).collect())),
        jv(r#"{
            "title": {"type": "string", "description": "Название"},
            "count": {"type": "array", "items": {"type": "integer"}, "description": "v-bpa:count"},
            "state": {"type": "string", "enum": ["Открыт"], "description": "Состояние"}
        }"#)
    );
    assert_eq!(m.get("title"), Some(&"v-bpa:title".to_string()));
    assert_eq!(m.get("state*Открыт"), Some(&"v-bpa:Open".to_string()));
    assert!(m.get("state*Скрыт").is_none());
    assert_eq!(required_keys(&m), vec!["title".to_string(), "count".to_string(), "state".to_string()]);

    let mut prompt = Individual::with_id("v-bpa:P");
    assert_eq!(
        prepare_request_ai_parameters(&prompt, "gpt", &Json::Null, &defs, &m).err(),
        Some("Prompt text not found".to_string())
    );
    prompt.set_string("v-bpa:promptText", "Analyse", Lang::Ru);
    let req = prepare_request_ai_parameters(&prompt, "gpt", &Json::Str("data".to_string()), &defs, &m).ok().unwrap();
    assert_eq!(req.messages.len(), 3);
    assert!(matches!(&req.messages[2].content, MessageContent::Text(t) if t == "\"data\""));
    let (name, schema) = req.response_schema.as_ref().unwrap();
    assert_eq!(name, "process_optimization");
    let s = to_serde(schema);
    assert_eq!(s["properties"]["result"]["required"], jv(r#"["title", "count", "state"]"#));
    assert_eq!(s["required"], jv(r#"["result"]"#));
}

fn to_serde_back(j: &Json) -> Json {
    match j {
        Json::Null => Json::Null,
        Json::Bool(b) => Json::Bool(*b),
        Json::Number(n) => Json::Number(n.clone()),
        Json::Str(t) => Json::Str(t.clone()),
        Json::Array(a) => Json::Array(a.iter().map(to_serde_back).collect()),
        Json::Object(e) => Json::Object(e.iter().map(|(k, v)| (k.clone(), to_serde_back(v))).collect()),
    }
}

#[test]
fn answers_are_written_by_range() {
    let mut m = PropertyMapping::new();
    m.insert("title".to_string(), "v-bpa:title".to_string());
    m.insert("count".to_string(), "v-bpa:count".to_string());
    m.insert("state".to_string(), "v-bpa:state".to_string());
    m.insert("state*Открыт".to_string(), "v-bpa:Open".to_string());
    let mut ranges = PropertyMapping::new();
    ranges.insert("v-bpa:title".to_string(), "xsd:string".to_string());
    ranges.insert("v-bpa:count".to_string(), "xsd:integer".to_string());
    ranges.insert("v-bpa:state".to_string(), "v-bpa:State".to_string());
    let answer = structured_response_values(
        r#"{"result": {"title": "Supply", "count": [1, "x", 2], "state": "Открыт", "other": 1}}"#,
        0,
        0,
    )
    .ok()
    .unwrap();
    let mut ind = Individual::with_id("d:bp");
    ind.set_string("v-bpa:title", "Old", Lang::Ru);
    assert_eq!(set_to_individual_from_ai_response(&mut ind, &answer, &m, &ranges), Ok(()));
    assert_eq!(ind.get_first_literal("v-bpa:title"), Some("Supply".to_string()));
    assert!(matches!(&ind.values("v-bpa:title")[0], Resource::Str(_, Lang::NoLang)));
    assert_eq!(ind.values("v-bpa:count").len(), 2);
    assert_eq!(ind.get_first_integer("v-bpa:count"), Some(1));
    assert!(matches!(&ind.values("v-bpa:state")[0], Resource::Uri(u) if u == "v-bpa:Open"));
    assert!(!ind.is_exists("v-bpa:other"));

    let missing = structured_response_values(r#"{"other": {}}"#, 0, 0).ok().unwrap();
    assert_eq!(set_to_individual_from_ai_response(&mut ind, &missing, &m, &ranges), Err(ApplyError::MissingResult));
    let not_object = structured_response_values(r#"{"result": [1]}"#, 0, 0).ok().unwrap();
    assert_eq!(set_to_individual_from_ai_response(&mut ind, &not_object, &m, &ranges), Err(ApplyError::ResultNotObject));
    assert_eq!(ApplyError::MissingResult.message(), "Missing result object");
}
