use bpa_analysis::individual::{Individual, Lang, Resource};
use bpa_analysis::json::Json;
use bpa_analysis::onto::Ontology;
use bpa_analysis::schema::ResponseSchema;

fn from_serde(v: &serde_json::Value) -> Json {
    match v {
        serde_json::Value::Null => Json::Null,
        serde_json::Value::Bool(b) => Json::Bool(*b),
        serde_json::Value::Number(n) => Json::Number(n.to_string()),
        serde_json::Value::String(s) => Json::Str(s.clone()),
        serde_json::Value::Array(a) => Json::Array(a.iter().map(from_serde).collect()),
        serde_json::Value::Object(m) => Json::Object(m.iter().map(|(k, x)| (k.clone(), from_serde(x))).collect()),
    }
}

fn property(id: &str, range: &str, functional: bool) -> Individual {
    let mut p = Individual::with_id(id);
    p.add_uri("rdf:type", "owl:DatatypeProperty");
    if functional {
        p.add_uri("rdf:type", "owl:FunctionalProperty");
    }
    p.set_uri("rdfs:range", range);
    p
}

fn ontology() -> Ontology {
    let mut open = Individual::with_id("v-bpa:Open");
    open.set_string("rdfs:label", "Открыт", Lang::Ru);
    let mut onto = Ontology::new();
    onto.individuals.push(property("v-bpa:title", "xsd:string", true));
    onto.individuals.push(property("v-bpa:state", "v-bpa:State", true));
    onto.individuals.push(property("v-bpa:hasSection", "v-bpa:Section", false));
    onto.individuals.push(property("v-bpa:sectionTitle", "xsd:string", true));
    onto.classes.push(("v-bpa:State".to_string(), vec![open]));
    onto
}

const SCHEMA: &str = r#"{
    "type": "object",
    "properties": {
        "title": {"mapping": "v-bpa:title"},
        "state": {"mapping": "v-bpa:state"},
        "sections": {
            "type": "array",
            "mapping": "v-bpa:hasSection",
            "items": {
                "type": "object",
                "properties": {"name": {"mapping": "v-bpa:sectionTitle"}},
                "assign_properties": {"v-bpa:kind": "v-bpa:SectionKind"}
            }
        }
    },
    "assign_properties": {"v-bpa:source": "v-bpa:AI"}
}"#;

#[test]
fn answer_becomes_individuals() {
    let onto = ontology();
    let mut schema = ResponseSchema::from_json(SCHEMA).ok().unwrap();
    let _ai = schema.to_ai_schema(&onto).ok().unwrap();
    let answer: serde_json::Value = serde_json::from_str(
        r#"{"title": "Supply", "state": "Открыт", "sections": [{"name": "A"}, {"name": "B"}], "extra": 1}"#,
    )
    .unwrap();
    let result = schema.parse_ai_response(&from_serde(&answer), &onto).unwrap();
    let main = &result.main_individual;
    assert!(main.get_id().starts_with("d:result_"));
    assert_eq!(main.get_first_literal("rdf:type"), Some("v-bpa:GenericProcessingResult".to_string()));
    assert_eq!(main.get_first_literal("v-bpa:title"), Some("Supply".to_string()));
    assert!(matches!(&main.values("v-bpa:title")[0], Resource::Str(_, Lang::NoLang)));
    assert!(matches!(&main.values("v-bpa:state")[0], Resource::Uri(u) if u == "v-bpa:Open"));
    assert_eq!(main.get_first_literal("v-bpa:source"), Some("v-bpa:AI".to_string()));
    assert_eq!(result.related_individuals.len(), 2);
    let ids: Vec<String> = result.related_individuals.iter().map(|r| r.get_id().to_string()).collect();
    assert_eq!(main.get_literals("v-bpa:hasSection"), Some(ids.clone()));
    for (r, name) in result.related_individuals.iter().zip(["A", "B"]) {
        assert!(r.get_id().starts_with("d:"));
        assert_eq!(r.get_first_literal("rdf:type"), Some("v-bpa:Section".to_string()));
        assert_eq!(r.get_first_literal("v-bpa:kind"), Some("v-bpa:SectionKind".to_string()));
        assert_eq!(r.get_first_literal("v-bpa:sectionTitle"), Some(name.to_string()));
    }
    assert_ne!(ids[0], ids[1]);
}

#[test]
fn answer_that_is_no_object_sets_only_the_type() {
    let onto = ontology();
    let mut schema = ResponseSchema::from_json(SCHEMA).ok().unwrap();
    let _ai = schema.to_ai_schema(&onto).ok().unwrap();
    let result = schema.parse_ai_response(&Json::Str("nothing".to_string()), &onto).unwrap();
    assert_eq!(result.related_individuals.len(), 0);
    assert_eq!(result.main_individual.get_first_literal("rdf:type"), Some("v-bpa:GenericProcessingResult".to_string()));
    assert_eq!(result.main_individual.get_first_literal("v-bpa:source"), Some("v-bpa:AI".to_string()));
    assert!(result.main_individual.get_literals("v-bpa:title").is_none());
}

#[test]
fn unknown_mapped_property_is_an_error() {
    let onto = Ontology::new();
    let schema = ResponseSchema::from_json(r#"{"type": "object", "properties": {"t": {"mapping": "v-bpa:nowhere"}}}"#)
        .ok()
        .unwrap();
    let answer = Json::Object(vec![("t".to_string(), Json::Str("x".to_string()))]);
    assert_eq!(
        schema.parse_ai_response(&answer, &onto).err(),
        Some("Property v-bpa:nowhere not found in ontology".to_string())
    );
}
