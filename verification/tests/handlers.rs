use bpa_analysis::handlers::{
    apply_document_status, build_analysis_request, cluster_process_ids, comparison_answer, completed_with_prompt,
    create_analysis_request, create_target_individual, extract_process_json, has_content_changed,
    has_process_documents, link_target_individual, mark_no_justification_documents, needs_previous_version,
    prepare_comparison_data, prepare_comparison_parameters, prepare_optimization_data, process_document_ids,
    request_result_id, reset_status_tags,
};
use bpa_analysis::individual::{Individual, Lang, Resource};
use bpa_analysis::json::Json;
use bpa_analysis::request::{MessageContent, Role};
use bpa_analysis::types::ResponseError;

fn to_serde(j: &Json) -> serde_json::Value {
    match j {
        Json::Null => serde_json::Value::Null,
        Json::Bool(b) => serde_json::Value::Bool(*b),
        Json::Number(n) => serde_json::from_str(n).unwrap(),
        Json::Str(t) => serde_json::Value::String(t.clone()),
        Json::Array(a) => serde_json::Value::Array(a.iter().map(to_serde).collect()),
        Json::Object(e) => serde_json::Value::Object(e.iter().map(|(k, v)| (k.clone(), to_serde(v))).collect()),
    }
}

fn jv(t: &str) -> serde_json::Value {
    serde_json::from_str(t).unwrap()
}

fn tags(d: &Individual) -> Vec<String> {
    d.get_literals("v-bpa:hasStatusTag").unwrap_or_default()
}

fn document(counter: i64, title: &str) -> Individual {
    let mut d = Individual::with_id("d:doc");
    d.set_integer("v-s:updateCounter", counter);
    d.set_string("v-bpa:documentTitle", title, Lang::NoLang);
    d.add_uri("v-bpa:hasStatusTag", "v-bpa:OldTag");
    d
}

#[test]
fn new_document_gets_the_new_tag() {
    let mut d = document(1, "Title");
    assert!(!needs_previous_version(&d));
    apply_document_status(&mut d, None);
    assert_eq!(tags(&d), vec!["v-bpa:NewDocumentTag".to_string()]);
    assert_eq!(d.get_first_literal("v-bpa:documentTitle"), Some("Title".to_string()));
}

#[test]
fn changed_document_gets_the_modified_tag() {
    let mut d = document(5, "New title");
    assert!(needs_previous_version(&d));
    let prev = document(4, "Old title");
    assert!(has_content_changed(&d, &prev));
    apply_document_status(&mut d, Some(&prev));
    assert_eq!(tags(&d), vec!["v-bpa:ModifiedDocumentTag".to_string()]);
}

#[test]
fn unchanged_document_loses_its_tags() {
    let mut d = document(5, "Same");
    let prev = document(4, "Same");
    assert!(!has_content_changed(&d, &prev));
    apply_document_status(&mut d, Some(&prev));
    assert!(d.get_literals("v-bpa:hasStatusTag").is_none());
    let mut e = document(5, "Same");
    apply_document_status(&mut e, None);
    assert!(e.get_literals("v-bpa:hasStatusTag").is_none());
    let mut f = document(7, "Any");
    reset_status_tags(&mut f);
    assert!(f.get_literals("v-bpa:hasStatusTag").is_none());
}

#[test]
fn a_field_only_in_one_version_is_a_change() {
    let d = document(2, "T");
    let mut prev = document(1, "T");
    assert!(!has_content_changed(&d, &prev));
    prev.add_uri("v-bpa:hasDocumentSection", "d:s1");
    assert!(has_content_changed(&d, &prev));
    let mut d2 = document(2, "T");
    d2.set_string("v-bpa:unrelated", "x", Lang::NoLang);
    assert!(!has_content_changed(&d2, &document(1, "T")));
}

#[test]
fn process_without_documents_is_marked() {
    let mut bp = Individual::with_id("d:bp");
    assert!(!has_process_documents(&bp));
    mark_no_justification_documents(&mut bp);
    assert_eq!(bp.get_first_literal("v-bpa:hasProcessJustification"), Some("v-bpa:NoDocumentForJustification".to_string()));
    bp.add_uri("v-bpa:hasProcessDocument", "d:doc1");
    bp.add_uri("v-bpa:hasProcessDocument", "d:doc2");
    assert!(has_process_documents(&bp));
    assert_eq!(process_document_ids(&bp), vec!["d:doc1".to_string(), "d:doc2".to_string()]);
}

fn process(label: Option<&str>, name: Option<&str>) -> Individual {
    let mut bp = Individual::with_id("d:bp1");
    if let Some(l) = label {
        bp.set_string("rdfs:label", l, Lang::Ru);
    }
    if let Some(n) = name {
        bp.set_string("v-bpa:processName", n, Lang::NoLang);
    }
    bp.set_string("v-bpa:processDescription", "desc", Lang::NoLang);
    bp.set_string("v-bpa:laborCosts", "10", Lang::NoLang);
    bp
}

#[test]
fn process_json_holds_its_fields_and_documents() {
    let mut doc = Individual::with_id("d:doc1");
    doc.set_string("v-bpa:documentName", "Order", Lang::NoLang);
    let j = extract_process_json(&process(Some("Label"), Some("Name")), &vec![doc]).unwrap();
    assert_eq!(
        to_serde(&j),
        jv(r#"{"processName": "Label", "processDescription": "desc", "participants": "",
               "responsibleDepartment": "", "frequency": "", "laborCosts": "10",
               "hasProcessDocument": [{"name": "Order", "content": ""}]}"#)
    );
    let keys: Vec<String> = match &j {
        Json::Object(e) => e.iter().map(|(k, _)| k.clone()).collect(),
        _ => vec![],
    };
    assert_eq!(keys[0], "processName");
    assert_eq!(keys[6], "hasProcessDocument");
    let j2 = extract_process_json(&process(None, Some("Name")), &vec![]).unwrap();
    assert_eq!(to_serde(&j2)["processName"], "Name");
    let err = extract_process_json(&process(None, None), &vec![]).unwrap_err();
    assert_eq!(err, "Отсутствует название процесса, src=d:bp1");
}

#[test]
fn optimization_data_counts_the_processes() {
    let data = prepare_optimization_data(vec![Json::Str("a".to_string()), Json::Str("b".to_string())]);
    assert_eq!(to_serde(&data), jv(r#"{"processes": ["a", "b"], "count": 2}"#));
    let mut cluster = Individual::with_id("d:c");
    assert!(cluster_process_ids(&cluster).is_empty());
    cluster.add_uri("v-bpa:hasProcess", "d:p1");
    assert_eq!(cluster_process_ids(&cluster), vec!["d:p1".to_string()]);
}

#[test]
fn comparison_data_and_request() {
    let p1 = process(Some("A"), None);
    let p2 = process(Some("B"), None);
    let data = prepare_comparison_data(&p1, &vec![], &p2, &vec![]).unwrap();
    let v = to_serde(&data);
    assert_eq!(v["process1"]["processName"], "A");
    assert_eq!(v["process2"]["processName"], "B");
    assert!(prepare_comparison_data(&p1, &vec![], &process(None, None), &vec![]).is_err());
    let req = prepare_comparison_parameters("gpt-4".to_string(), "Compare".to_string(), &data);
    assert_eq!(req.model, "gpt-4");
    assert_eq!(req.messages.len(), 2);
    assert_eq!(req.messages[0].role, Role::System);
    assert!(matches!(&req.messages[0].content, MessageContent::Text(t) if t == "Compare"));
    assert_eq!(req.messages[1].role, Role::User);
    match &req.messages[1].content {
        MessageContent::Text(t) => assert_eq!(jv(t), v),
        _ => panic!("the data goes as text"),
    }
    let (name, schema) = req.response_schema.as_ref().unwrap();
    assert_eq!(name, "process_comparison");
    assert_eq!(
        to_serde(schema),
        jv(r#"{"type": "object", "properties": {"are_similar": {"type": "boolean",
               "description": "Являются ли процессы похожими"}}, "required": ["are_similar"],
               "additionalProperties": false}"#)
    );
    assert!(req.seed.is_none() && req.max_tokens.is_none());
}

#[test]
fn comparison_answer_reads_are_similar() {
    assert_eq!(comparison_answer(r#"{"are_similar": true}"#), Ok(true));
    assert_eq!(comparison_answer(r#"{"are_similar": false}"#), Ok(false));
    assert_eq!(comparison_answer(r#"{"are_similar": "yes"}"#), Ok(false));
    assert_eq!(comparison_answer(r#"{"other": true}"#), Ok(false));
    assert_eq!(comparison_answer(r#"[true]"#), Ok(false));
    assert_eq!(comparison_answer("true story"), Err(ResponseError::NotJson));
}

fn completed_request(prompt: &str) -> Individual {
    let mut r = Individual::with_id("d:req");
    r.set_uri("v-bpa:prompt", prompt);
    r.set_uri("v-bpa:processingStatus", "v-bpa:Completed");
    r.set_uri("v-bpa:hasResult", "d:res");
    r
}

#[test]
fn completed_requests_are_recognized() {
    let r = completed_request("v-bpa:ImagesToTextPrompt");
    assert!(completed_with_prompt(&r, "v-bpa:ImagesToTextPrompt"));
    assert!(!completed_with_prompt(&r, "v-bpa:DocumentAnalysisPrompt"));
    let mut p = completed_request("v-bpa:ImagesToTextPrompt");
    p.set_uri("v-bpa:processingStatus", "v-bpa:Processing");
    assert!(!completed_with_prompt(&p, "v-bpa:ImagesToTextPrompt"));
    assert_eq!(request_result_id(&r, "No result found"), Ok("d:res".to_string()));
    assert_eq!(request_result_id(&Individual::with_id("x"), "No result found"), Err("No result found".to_string()));
}

#[test]
fn analysis_request_joins_the_extracted_texts() {
    let mut result = Individual::with_id("d:res");
    result.add_string("v-bpa:extractedText", "part one. ", Lang::NoLang);
    result.add_string("v-bpa:extractedText", "part two.", Lang::NoLang);
    assert_eq!(build_analysis_request("d:r1", &result).unwrap_err(), "No target type found");
    result.set_string("v-bpa:targetType", "v-bpa:Contract", Lang::NoLang);
    let req = build_analysis_request("d:r1", &result).unwrap();
    assert_eq!(req.get_id(), "d:r1");
    assert_eq!(req.get_first_literal("rdf:type"), Some("v-bpa:GenericProcessingRequest".to_string()));
    assert_eq!(req.get_first_literal("v-bpa:prompt"), Some("v-bpa:DocumentAnalysisPrompt".to_string()));
    assert_eq!(req.get_first_literal("v-bpa:rawInput"), Some("part one. part two.".to_string()));
    assert_eq!(req.get_first_literal("v-bpa:targetType"), Some("v-bpa:Contract".to_string()));
    let fresh = create_analysis_request(&result).unwrap();
    assert!(fresh.get_id().starts_with("d:request_"));
    assert_eq!(fresh.get_id().len(), "d:request_".len() + 36);
    assert_eq!(build_analysis_request("d:r1", &Individual::with_id("x")).unwrap_err(), "No extracted text found");
}

#[test]
fn target_individual_copies_the_result() {
    let mut result = Individual::with_id("d:res");
    result.set_string("v-bpa:targetType", "v-bpa:Contract", Lang::NoLang);
    result.set_string("v-bpa:title", "Supply", Lang::Ru);
    result.add_integer("v-bpa:amount", 7);
    let t = create_target_individual(&result).unwrap();
    assert!(t.get_id().starts_with("d:Contract_"));
    assert_eq!(t.get_id().len(), "d:Contract_".len() + 36);
    assert_eq!(t.get_first_literal("rdf:type"), Some("v-bpa:Contract".to_string()));
    assert!(t.get_literals("v-bpa:targetType").is_none());
    assert_eq!(t.get_first_literal("v-bpa:title"), Some("Supply".to_string()));
    assert_eq!(t.get_first_integer("v-bpa:amount"), Some(7));
    assert!(matches!(t.values("v-bpa:title")[0], Resource::Str(_, Lang::Ru)));
    assert_eq!(create_target_individual(&Individual::with_id("x")).unwrap_err(), "No target type specified");
    let mut req = Individual::with_id("d:req");
    link_target_individual(&mut req, t.get_id());
    assert_eq!(req.get_first_literal("v-bpa:hasTargetIndividual"), Some(t.get_id().to_string()));
}
