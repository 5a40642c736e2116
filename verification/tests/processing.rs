use bpa_analysis::individual::{Individual, Lang};
use bpa_analysis::json::Json;
use bpa_analysis::mapping::PropertyMapping;
use bpa_analysis::processing::{
    apply_structured_output, attachment_content, complete_request, complete_structured_request,
    create_extraction_request, department_query, document_json, extraction_config, extraction_request,
    extraction_result_text, finish_extraction, generic_request_prompt, generic_result_individual, get_prompt_text,
    handle_pipeline_error, ontology_input_fields, parent_trigger, prepare_analysis_data, prepare_content_for_ai,
    request_input, schema_attachment_file, start_extraction, structured_input, structured_request,
    uses_response_schema, RequestInput,
};
use bpa_analysis::request::{ContentPart, MessageContent, Role};
use bpa_analysis::types::{structured_response_values, AIResponseValues, ResponseError};

fn to_serde(j: &Json) -> serde_json::Value {
    match j {
        Json::Null => serde_json::Value::Null,
        Json::Bool(b) => serde_json::Value::Bool(*b),
        Json::Number(n) => serde_json::from_str(n).unwrap(),
        Json::Str(t) => serde_json::Value::String(t.clone()),
        Json::Array(a) => serde_json::Value::Array(a.iter().map(to_serde).collect()),
        Json::Object(e) => serde_json::Value::Object(e.iter().map(|(k, v)| (k.clone(), to_serde(v))).collect()),
    }
}

fn jv(t: &str) -> serde_json::Value {
    serde_json::from_str(t).unwrap()
}

#[test]
fn prompt_text_is_read() {
    let mut p = Individual::with_id("v-bpa:P");
    assert_eq!(get_prompt_text(&p), Err("Prompt text not found".to_string()));
    p.set_string("v-bpa:promptText", "Do it", Lang::Ru);
    assert_eq!(get_prompt_text(&p), Ok("Do it".to_string()));
}

#[test]
fn extraction_pipeline_settings() {
    let mut p = Individual::with_id("d:p");
    assert_eq!(extraction_config(&p), Err("No target department specified".to_string()));
    p.set_uri("v-bpa:targetDepartment", "d:dep");
    assert_eq!(extraction_config(&p), Err("No document section types specified".to_string()));
    p.add_uri("v-bpa:hasDocumentSectionTypes", "v-bpa:Duties");
    assert_eq!(extraction_config(&p), Ok(("d:dep".to_string(), vec!["v-bpa:Duties".to_string()])));
    assert_eq!(
        department_query("d:dep"),
        "'rdf:type' == 'v-bpa:ProcessDocument' && 'v-bpa:hasDepartment' == 'd:dep'"
    );
    start_extraction(&mut p, 100);
    assert_eq!(p.get_first_literal("v-bpa:processingStatus"), Some("v-bpa:Processing".to_string()));
    finish_extraction(&mut p, "d:req", 200);
    assert_eq!(p.get_first_literal("v-bpa:hasNextStage"), Some("d:req".to_string()));
    assert_eq!(p.get_first_literal("v-bpa:hasExecutionState"), Some("v-bpa:ExecutionCompleted".to_string()));
    handle_pipeline_error(&mut p, "broken", 300);
    assert_eq!(p.get_first_literal("v-bpa:processingStatus"), Some("v-bpa:Failed".to_string()));
    assert_eq!(p.get_first_literal("v-bpa:lastError"), Some("broken".to_string()));
}

#[test]
fn documents_with_wanted_sections() {
    let mut doc = Individual::with_id("d:doc");
    doc.set_string("v-bpa:documentTitle", "Rules", Lang::NoLang);
    let mut s1 = Individual::with_id("d:s1");
    s1.set_uri("v-bpa:hasSectionType", "v-bpa:Duties");
    s1.set_string("v-bpa:sectionTitle", "Duties", Lang::NoLang);
    let mut s2 = Individual::with_id("d:s2");
    s2.set_uri("v-bpa:hasSectionType", "v-bpa:Other");
    let types = vec!["v-bpa:Duties".to_string()];
    let j = document_json(&doc, &vec![s1, s2.copy()], &types).unwrap();
    assert_eq!(
        to_serde(&j),
        jv(r#"{"department": "", "documentTitle": "Rules", "documentType": "", "documentSource": "",
               "documentSignedDate": "", "documentSignedBy": "",
               "sections": [{"section_type": "v-bpa:Duties", "title": "Duties", "content": ""}]}"#)
    );
    assert!(document_json(&doc, &vec![s2], &types).is_none());
}

#[test]
fn extraction_request_and_its_result() {
    let req = extraction_request("o1", "Find processes", vec![Json::Str("doc".to_string())]);
    assert_eq!(req.model, "o1");
    assert_eq!(req.seed, Some(43));
    assert!(req.response_schema.is_none());
    assert_eq!(req.messages.len(), 1);
    assert_eq!(req.messages[0].role, Role::User);
    match &req.messages[0].content {
        MessageContent::Text(t) => {
            assert_eq!(jv(t), jv(r#"{"prompt": "Find processes", "documents": ["doc"]}"#));
            assert!(t.contains('\n'));
        },
        _ => panic!("the request is text"),
    }
    let answer = AIResponseValues::from_text("process list".to_string(), 1, 2);
    assert_eq!(extraction_result_text(&answer), Ok("process list".to_string()));
    let not_text = structured_response_values(r#"{"result": 5}"#, 0, 0).ok().unwrap();
    assert_eq!(extraction_result_text(&not_text), Err("Failed to get text from AI response".to_string()));
    let r = create_extraction_request("process list", "d:p");
    assert!(r.get_id().starts_with("d:request_"));
    assert_eq!(r.get_first_literal("v-bpa:prompt"), Some("v-bpa:ProcessListExtractionPrompt".to_string()));
    assert_eq!(r.get_first_literal("v-bpa:targetType"), Some("v-bpa:BusinessProcess".to_string()));
    assert_eq!(r.get_first_literal("v-s:hasParentLink"), Some("d:p".to_string()));
}

#[test]
fn structured_answers_must_be_objects() {
    assert!(matches!(structured_response_values("nope", 0, 0), Err(ResponseError::NotJson)));
    assert!(matches!(structured_response_values("[1]", 0, 0), Err(ResponseError::NotObject)));
    let v = structured_response_values(r#"{"a": 1, "b": "x"}"#, 3, 4).ok().unwrap();
    assert_eq!(v.input_tokens, 3);
    assert_eq!(v.output_tokens, 4);
    assert!(matches!(v.get("b"), Some(Json::Str(s)) if s == "x"));
    assert!(v.get("c").is_none());
    assert_eq!(to_serde(&v.to_json_value()), jv(r#"{"a": 1, "b": "x"}"#));
}

#[test]
fn generic_requests() {
    let mut r = Individual::with_id("d:r");
    assert_eq!(generic_request_prompt(&r), Err("No prompt specified".to_string()));
    r.set_uri("v-bpa:prompt", "v-bpa:P");
    assert_eq!(generic_request_prompt(&r), Ok(Some("v-bpa:P".to_string())));
    complete_request(&mut r, Some("d:res"));
    assert_eq!(generic_request_prompt(&r), Ok(None));
    assert_eq!(r.get_first_literal("v-bpa:hasResult"), Some("d:res".to_string()));
    let mut p = Individual::with_id("v-bpa:P");
    assert!(!uses_response_schema(&p));
    p.set_string("v-bpa:responseSchema", "{}", Lang::NoLang);
    assert!(uses_response_schema(&p));
    let mut q = Individual::with_id("d:q");
    assert_eq!(ontology_input_fields(&q, &p), Err("No raw input provided".to_string()));
    q.set_string("v-bpa:rawInput", "text", Lang::NoLang);
    assert_eq!(ontology_input_fields(&q, &p), Err("No target type specified".to_string()));
    p.set_uri("v-bpa:targetType", "v-bpa:Contract");
    assert_eq!(ontology_input_fields(&q, &p), Ok(("text".to_string(), "v-bpa:Contract".to_string())));
    let res = generic_result_individual("d:res", "v-bpa:Contract");
    assert_eq!(res.get_first_literal("rdf:type"), Some("v-bpa:GenericProcessingResult".to_string()));
    assert_eq!(res.get_first_literal("v-bpa:targetType"), Some("v-bpa:Contract".to_string()));
}

#[test]
fn analysis_data_names_the_target_type() {
    let mut t = Individual::with_id("v-bpa:Contract");
    let d = prepare_analysis_data("input", &t, None);
    assert_eq!(to_serde(&d), jv(r#"{"input": "input", "targetType": {"id": "v-bpa:Contract", "label": null}}"#));
    t.set_string("rdfs:label", "Договор", Lang::Ru);
    let d2 = prepare_analysis_data("input", &t, Some(Json::Bool(true)));
    assert_eq!(
        to_serde(&d2),
        jv(r#"{"input": "input", "targetType": {"id": "v-bpa:Contract", "label": "Договор"}, "inputData": true}"#)
    );
}

#[test]
fn structured_input_and_output_go_through_the_mapping() {
    let mut m = PropertyMapping::new();
    let mut r = Individual::with_id("d:r");
    assert!(matches!(structured_input(&r, &mut m), Ok(None)));
    r.set_string("v-bpa:structuredInput", "not json", Lang::NoLang);
    assert_eq!(structured_input(&r, &mut m).err(), Some("structured input is not JSON".to_string()));
    r.set_string("v-bpa:structuredInput", "[1]", Lang::NoLang);
    assert_eq!(structured_input(&r, &mut m).err(), Some("Expected object for input".to_string()));
    r.set_string("v-bpa:structuredInput", r#"{"v-bpa:title": "T"}"#, Lang::NoLang);
    let j = structured_input(&r, &mut m).unwrap().unwrap();
    assert_eq!(to_serde(&j), jv(r#"{"title": "T"}"#));
    let answer = structured_response_values(r#"{"result": {"title": "New"}}"#, 0, 0).ok().unwrap();
    let mut out = Individual::with_id("d:r");
    assert_eq!(apply_structured_output(&mut out, &answer, &m), Ok(()));
    let text = out.get_first_literal("v-bpa:structuredOutput").unwrap();
    assert_eq!(jv(&text), jv(r#"{"v-bpa:title": "New"}"#));
    let bad = structured_response_values(r#"{"result": 3}"#, 0, 0).ok().unwrap();
    assert_eq!(apply_structured_output(&mut out, &bad, &m), Err("Expected object for input".to_string()));
}

#[test]
fn schema_requests_and_their_content() {
    let mut r = Individual::with_id("d:r");
    assert_eq!(request_input(&r).err(), Some("Neither attachment nor raw input provided".to_string()));
    r.set_string("v-bpa:rawInput", "raw", Lang::NoLang);
    assert!(matches!(request_input(&r), Ok(RequestInput::Raw(t)) if t == "raw"));
    r.set_uri("v-s:attachment", "d:att");
    assert!(matches!(request_input(&r), Ok(RequestInput::Attachment(a)) if a == "d:att"));
    let mut a = Individual::with_id("d:att");
    assert_eq!(schema_attachment_file(&a), Err("No fileUri in attachment".to_string()));
    a.set_string("v-s:fileUri", "Scan.PNG", Lang::NoLang);
    assert_eq!(schema_attachment_file(&a), Err("No file path in attachment".to_string()));
    a.set_string("v-s:filePath", "files/2024", Lang::NoLang);
    assert_eq!(schema_attachment_file(&a), Ok(("files/2024/Scan.PNG".to_string(), "png".to_string())));
    assert!(matches!(prepare_content_for_ai("txt", "hello".to_string()), ContentPart::Text(t) if t == "hello"));
    assert!(matches!(prepare_content_for_ai("png", "QUJD".to_string()), ContentPart::ImageUrl(u) if u == "data:image/png;base64,QUJD"));
    assert!(matches!(attachment_content("jpeg", b"ABC"), ContentPart::ImageUrl(u) if u == "data:image/jpeg;base64,QUJD"));
    assert!(matches!(attachment_content("txt", b"hi"), ContentPart::Text(t) if t == "aGk="));
    let req = structured_request("gpt", "Prompt".to_string(), Json::Null, ContentPart::Text("x".to_string()));
    assert_eq!(req.messages.len(), 3);
    assert_eq!(req.seed, Some(43));
    assert_eq!(req.max_tokens, Some(16384));
    assert_eq!(req.response_schema.as_ref().unwrap().0, "document_analysis");
    assert!(matches!(&req.messages[1].content, MessageContent::Text(t) if t == "Prompt"));
    complete_structured_request(&mut r, "d:res");
    assert_eq!(r.get_first_integer("v-bpa:percentComplete"), Some(100));
    let t = parent_trigger("d:parent", 77);
    assert_eq!(t.get_id(), "d:parent");
}

#[test]
fn attachment_text_is_padded_base64() {
    assert!(matches!(attachment_content("txt", b"hello"), ContentPart::Text(t) if t == "aGVsbG8="));
    assert!(matches!(attachment_content("txt", b"hi"), ContentPart::Text(t) if t == "aGk="));
    assert!(matches!(attachment_content("txt", b""), ContentPart::Text(t) if t.is_empty()));
}
