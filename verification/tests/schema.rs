use bpa_analysis::individual::{Individual, Lang};
use bpa_analysis::json::Json;
use bpa_analysis::onto::Ontology;
use bpa_analysis::schema::{ResponseSchema, SchemaError};

fn obj(entries: Vec<(&str, Json)>) -> Json {
    Json::Object(entries.into_iter().map(|(k, v)| (k.to_string(), v)).collect())
}

fn s(t: &str) -> Json {
    Json::Str(t.to_string())
}

fn to_serde(j: &Json) -> serde_json::Value {
    match j {
        Json::Null => serde_json::Value::Null,
        Json::Bool(b) => serde_json::Value::Bool(*b),
        Json::Number(n) => serde_json::from_str(n).unwrap(),
        Json::Str(t) => serde_json::Value::String(t.clone()),
        Json::Array(a) => serde_json::Value::Array(a.iter().map(to_serde).collect()),
        Json::Object(e) => serde_json::Value::Object(e.iter().map(|(k, v)| (k.clone(), to_serde(v))).collect()),
    }
}

fn jv(t: &str) -> serde_json::Value {
    serde_json::from_str(t).unwrap()
}

#[test]
fn test_schema_validation() {
    let invalid_json = r#"{
        "properties": {
            "test": { "mapping": "test:property" }
        }
    }"#;
    let result = ResponseSchema::from_json(invalid_json);
    assert!(result.is_err(), "Schema without type field should fail validation");

    let invalid_type_json = r#"{
        "type": "array",
        "properties": {
            "test": { "mapping": "test:property" }
        }
    }"#;
    let result = ResponseSchema::from_json(invalid_type_json);
    assert!(result.is_err(), "Schema with non-object type should fail validation");

    let minimal_json = r#"{
        "type": "object",
        "properties": {
            "test": { "mapping": "test:property" }
        }
    }"#;
    let result = ResponseSchema::from_json(minimal_json);
    assert!(result.is_ok(), "Valid minimal schema should pass validation");
}

#[test]
fn test_invalid_schema() {
    let invalid_schema = obj(vec![
        ("type", s("array")),
        ("properties", obj(vec![("test", obj(vec![("mapping", s("test:property"))]))])),
    ]);
    let result = ResponseSchema::from_value(&invalid_schema);
    assert!(result.is_err(), "Schema with invalid root type should fail validation");

    let incomplete_schema = obj(vec![("type", s("object"))]);
    let result = ResponseSchema::from_value(&incomplete_schema);
    assert!(result.is_err(), "Schema without required fields should fail validation");
}

#[test]
fn each_schema_error_has_its_input() {
    assert_eq!(ResponseSchema::from_json("not json").err(), Some(SchemaError::InvalidJson));
    assert_eq!(ResponseSchema::from_json("[1, 2]").err(), Some(SchemaError::NotAnObject));
    assert_eq!(ResponseSchema::from_json(r#"{"properties": {}}"#).err(), Some(SchemaError::MissingType));
    assert_eq!(ResponseSchema::from_json(r#"{"type": "object"}"#).err(), Some(SchemaError::MissingProperties));
    assert_eq!(ResponseSchema::from_json(r#"{"type": "array", "properties": {}}"#).err(), Some(SchemaError::NotObjectType));
    assert_eq!(ResponseSchema::from_json(r#"{"type": 5, "properties": {}}"#).err(), Some(SchemaError::BadValue));
    assert_eq!(ResponseSchema::from_json(r#"{"type": "object", "properties": {"a": 1}}"#).err(), Some(SchemaError::BadValue));
    assert_eq!(SchemaError::MissingType.message(), "missing field `type`");
}

#[test]
fn fields_keep_their_order() {
    let schema = ResponseSchema::from_json(
        r#"{"type": "object", "properties": {"b": {"type": "string"}, "a": {"type": "integer"}}, "note": 1}"#,
    )
    .unwrap();
    assert_eq!(schema.field_order, vec!["b".to_string(), "a".to_string()]);
    assert_eq!(schema.value_type, "object");
    assert_eq!(schema.additional.len(), 1);
}

fn status_ontology() -> Ontology {
    let mut prop = Individual::with_id("v-bpa:status");
    prop.set_uri("rdfs:range", "v-bpa:Status");
    let mut open = Individual::with_id("v-bpa:Open");
    open.add_string("rdfs:label", "Open", Lang::En);
    open.add_string("rdfs:label", "Открыт", Lang::Ru);
    let mut closed = Individual::with_id("v-bpa:Closed");
    closed.add_string("rdfs:label", "Закрыт", Lang::Ru);
    let mut onto = Ontology::new();
    onto.individuals.push(prop);
    onto.classes.push(("v-bpa:Status".to_string(), vec![open, closed]));
    onto
}

#[test]
fn ai_schema_of_a_minimal_schema() {
    let mut schema = ResponseSchema::from_json(
        r#"{"type": "object", "properties": {"test": {"mapping": "test:property"}}}"#,
    )
    .unwrap();
    let ai = schema.to_ai_schema(&Ontology::new()).unwrap();
    let expected: serde_json::Value = serde_json::from_str(
        r#"{"type": "object", "additionalProperties": false,
            "properties": {"test": {"type": "string"}}, "required": ["test"]}"#,
    )
    .unwrap();
    assert_eq!(to_serde(&ai), expected);
}

#[test]
fn ai_schema_lists_enumeration_labels() {
    let mut schema = ResponseSchema::from_json(
        r#"{"type": "object", "properties": {
            "state": {"mapping": "v-bpa:status", "description": "current state"},
            "items": {"type": "array", "is_multiple": true, "items": {"type": "object",
                "properties": {"title": {"type": "string", "mapping": "v-bpa:title"}}}}
        }}"#,
    )
    .unwrap();
    let ai = schema.to_ai_schema(&status_ontology()).unwrap();
    let v = to_serde(&ai);
    assert_eq!(v["properties"]["state"]["type"], "string");
    assert_eq!(v["properties"]["state"]["enum"], jv(r#"["Открыт", "Закрыт"]"#));
    assert_eq!(v["properties"]["state"]["description"], "current state");
    assert_eq!(v["properties"]["items"]["type"], "array");
    assert_eq!(v["properties"]["items"]["items"]["required"], jv(r#"["title"]"#));
    assert_eq!(v["required"], jv(r#"["state", "items"]"#));
    assert_eq!(schema.enum_value_mapping.get("status*Открыт"), Some(&"v-bpa:Open".to_string()));
    assert_eq!(schema.enum_value_mapping.get("state*Закрыт"), Some(&"v-bpa:Closed".to_string()));
    let text = serde_json::to_string(&v).unwrap();
    assert!(!text.contains("mapping"), "AI schema should not contain mapping field");
    assert!(!text.contains("is_multiple"), "AI schema should not contain is_multiple field");
}

fn document_ontology() -> Ontology {
    let properties = [
        ("v-bpa:documentSections", "owl:Class", true),
        ("v-bpa:sectionTitle", "xsd:string", false),
        ("v-bpa:sectionContent", "xsd:string", false),
        ("v-bpa:documentTitle", "xsd:string", false),
        ("v-bpa:documentType", "xsd:string", false),
        ("v-bpa:documentSource", "xsd:string", false),
        ("v-bpa:documentDate", "xsd:dateTime", false),
        ("v-bpa:documentSignedBy", "xsd:string", false),
        ("v-bpa:documentErrors", "xsd:string", true),
    ];
    let mut onto = Ontology::new();
    for (uri, property_type, is_multiple) in properties.iter() {
        let mut individual = Individual::with_id(*uri);
        if *property_type == "owl:Class" {
            individual.add_uri("rdf:type", "owl:Class");
        } else {
            individual.add_uri("rdf:type", "owl:DatatypeProperty");
            individual.add_string("rdfs:range", *property_type, Lang::NoLang);
            if !is_multiple {
                individual.add_uri("rdf:type", "owl:FunctionalProperty");
            }
        }
        onto.individuals.push(individual);
    }
    onto
}

const DOCUMENT_SCHEMA: &str = r#"{
    "type": "object",
    "properties": {
        "documentTitle": {"type": "string", "mapping": "v-bpa:documentTitle", "description": "title"},
        "documentType": {"type": "string", "mapping": "v-bpa:documentType"},
        "documentSource": {"type": "string", "mapping": "v-bpa:documentSource"},
        "documentDate": {"type": "string", "mapping": "v-bpa:documentDate"},
        "documentSignedBy": {"type": "string", "mapping": "v-bpa:documentSignedBy"},
        "documentErrors": {"type": "array", "is_multiple": true, "mapping": "v-bpa:documentErrors",
            "items": {"type": "string"}},
        "documentSections": {"type": "array", "is_multiple": true, "mapping": "v-bpa:documentSections"}
    }
}"#;

fn load_test_schema() -> ResponseSchema {
    ResponseSchema::from_json(DOCUMENT_SCHEMA).expect("Failed to parse test schema")
}

fn check_no_service_fields(value: &serde_json::Value) {
    if let Some(obj) = value.as_object() {
        assert!(!obj.contains_key("mapping"), "Schema should not contain mapping field");
        assert!(!obj.contains_key("is_multiple"), "Schema should not contain is_multiple field");
        for (_, v) in obj {
            check_no_service_fields(v);
        }
    } else if let Some(arr) = value.as_array() {
        for item in arr {
            check_no_service_fields(item);
        }
    }
}

#[test]
fn test_schema_ai_conversion() {
    let mut test_schema = load_test_schema();
    let ai_schema = test_schema.to_ai_schema(&document_ontology()).expect("Failed to create AI schema");
    check_no_service_fields(&to_serde(&ai_schema));
}

fn from_serde(v: &serde_json::Value) -> Json {
    match v {
        serde_json::Value::Null => Json::Null,
        serde_json::Value::Bool(b) => Json::Bool(*b),
        serde_json::Value::Number(n) => Json::Number(n.to_string()),
        serde_json::Value::String(s) => Json::Str(s.clone()),
        serde_json::Value::Array(a) => Json::Array(a.iter().map(from_serde).collect()),
        serde_json::Value::Object(m) => Json::Object(m.iter().map(|(k, x)| (k.clone(), from_serde(x))).collect()),
    }
}

#[test]
fn test_schema_parsing_and_response_processing() {
    let onto = document_ontology();
    let mut test_schema = load_test_schema();
    let ai_schema = test_schema.to_ai_schema(&onto).expect("Failed to create AI schema");
    let ai = to_serde(&ai_schema);
    let ai_schema_obj = ai.as_object().unwrap();
    assert_eq!(ai_schema_obj.get("type").unwrap().as_str().unwrap(), "object", "Root schema type should be object");
    assert!(ai_schema_obj.contains_key("properties"), "Schema should contain properties");
    let schema_str = serde_json::to_string(&ai).unwrap();
    assert!(!schema_str.contains("mapping"), "AI schema should not contain mapping field");
    assert!(!schema_str.contains("is_multiple"), "AI schema should not contain is_multiple field");

    let response = jv(r#"{
        "documentTitle": "Регламент закупок",
        "documentType": "Регламент",
        "documentSource": "Отдел закупок",
        "documentDate": "2024-03-01T00:00:00Z",
        "documentSignedBy": "Иванов И.И.",
        "documentErrors": ["нет подписи", "нет даты"],
        "documentSections": [
            {"sectionTitle": "Общие положения", "sectionContent": "Текст"},
            {"sectionTitle": "Порядок", "sectionContent": "Шаги"}
        ]
    }"#);
    let parse_result = test_schema
        .parse_ai_response(&from_serde(&response), &onto)
        .expect("Failed to parse AI response");
    let main = &parse_result.main_individual;
    assert_eq!(main.get_first_literal("v-bpa:documentTitle"), Some("Регламент закупок".to_string()));
    assert_eq!(main.get_first_literal("v-bpa:documentType"), Some("Регламент".to_string()));
    assert_eq!(main.get_first_literal("v-bpa:documentSource"), Some("Отдел закупок".to_string()));
    assert_eq!(main.get_first_literal("v-bpa:documentSignedBy"), Some("Иванов И.И.".to_string()));
    let related: Vec<String> = parse_result.related_individuals.iter().map(|r| r.get_id().to_string()).collect();
    assert_eq!(related.len(), 2, "each listed error is a related individual");
    assert_eq!(main.get_literals("v-bpa:documentErrors"), Some(related));
    let sections = main.get_literals("v-bpa:documentSections").expect("Missing predicate: v-bpa:documentSections");
    assert_eq!(sections.len(), 2, "Different number of values for predicate: v-bpa:documentSections");
    for (text, expected) in sections.iter().zip(response["documentSections"].as_array().unwrap()) {
        let actual: serde_json::Value = serde_json::from_str(text).unwrap();
        assert_eq!(&actual, expected, "JSON values mismatch for predicate: v-bpa:documentSections");
    }
}

#[test]
fn mappings_are_collected_depth_first() {
    let schema = ResponseSchema::from_json(
        r#"{"type": "object", "properties": {
            "a": {"mapping": "v-bpa:a"},
            "list": {"type": "array", "mapping": "v-bpa:list", "items": {"type": "object", "properties": {
                "b": {"mapping": "v-bpa:b"}, "c": {"type": "string"}
            }}},
            "d": {"mapping": "v-bpa:d"}
        }}"#,
    )
    .unwrap();
    assert_eq!(
        bpa_analysis::schema::schema_mappings(&schema),
        vec!["v-bpa:a".to_string(), "v-bpa:list".to_string(), "v-bpa:b".to_string(), "v-bpa:d".to_string()]
    );
}

#[test]
fn ontology_ranges_and_classes_to_load() {
    let onto = document_ontology();
    let ranges = onto.ranges();
    assert_eq!(ranges.get("v-bpa:documentDate"), Some(&"xsd:dateTime".to_string()));
    assert_eq!(ranges.get("v-bpa:documentSections"), Some(&"".to_string()));
    assert_eq!(ranges.get("v-bpa:unknown"), None);
    let status = status_ontology();
    assert!(!status.needs_members("xsd:string"));
    assert!(!status.needs_members("v-bpa:Status"));
    assert!(status.needs_members("v-bpa:Kind"));
    assert!(status.has_class("v-bpa:Status"));
}
