use bpa_analysis::individual::{Individual, Lang};
use bpa_analysis::pipeline::{
    advance_to_analysis, analysis_request_id, analysis_status, attachment_file, build_processing_request,
    complete_pipeline, create_processing_request, invalid_stage_message, make_result_document, mark_failed,
    pipeline_attachment, pipeline_stage, recognition_outcome, start_recognition, ExtractedContent, LoadedRequest,
    RawStage, raw_pipeline_step, StageOutcome,
};

#[test]
fn stage_is_read_from_the_pipeline() {
    let mut p = Individual::with_id("d:p");
    assert!(matches!(pipeline_stage(&p), RawStage::Initial));
    p.set_string("v-bpa:currentStage", "content_recognize", Lang::NoLang);
    assert!(matches!(pipeline_stage(&p), RawStage::ContentRecognize));
    p.set_string("v-bpa:currentStage", "document_analysis", Lang::NoLang);
    assert!(matches!(pipeline_stage(&p), RawStage::DocumentAnalysis));
    p.set_string("v-bpa:currentStage", "elsewhere", Lang::NoLang);
    assert!(matches!(pipeline_stage(&p), RawStage::Unknown(s) if s == "elsewhere"));
    assert_eq!(invalid_stage_message("elsewhere"), "Invalid pipeline stage: elsewhere");
}

#[test]
fn attachment_file_lies_under_data_files() {
    let mut p = Individual::with_id("d:p");
    assert_eq!(pipeline_attachment(&p), Err("No attachment found in pipeline".to_string()));
    p.set_uri("v-s:attachment", "d:att");
    assert_eq!(pipeline_attachment(&p), Ok("d:att".to_string()));
    let mut a = Individual::with_id("d:att");
    assert_eq!(attachment_file(&a).err(), Some("No filename in attachment".to_string()));
    a.set_string("v-s:fileName", "Scan.Final.PDF", Lang::NoLang);
    assert_eq!(attachment_file(&a).err(), Some("No file URI in attachment".to_string()));
    a.set_string("v-s:fileUri", "abc123", Lang::NoLang);
    assert_eq!(attachment_file(&a).err(), Some("No file path in attachment".to_string()));
    a.set_string("v-s:filePath", "2024/05", Lang::NoLang);
    let f = attachment_file(&a).ok().unwrap();
    assert_eq!(f.full_path, "./data/files/2024/05/abc123");
    assert_eq!(f.extension, "pdf");
    assert_eq!(f.file_name, "Scan.Final.PDF");
}

#[test]
fn processing_requests_for_text_and_images() {
    let text = ExtractedContent::Text("page text".to_string());
    let (r, a) = build_processing_request("d:r1", "d:a1", "v-bpa:ImagesToTextPrompt", &text, "d:p");
    assert!(a.is_none());
    assert_eq!(r.get_id(), "d:r1");
    assert_eq!(r.get_first_literal("rdf:type"), Some("v-bpa:GenericProcessingRequest".to_string()));
    assert_eq!(r.get_first_literal("v-bpa:prompt"), Some("v-bpa:ImagesToTextPrompt".to_string()));
    assert_eq!(r.get_first_literal("v-bpa:rawInput"), Some("page text".to_string()));
    assert_eq!(r.get_first_literal("v-s:hasParentLink"), Some("d:p".to_string()));
    let image = ExtractedContent::ImageFile {
        path: "out".to_string(),
        name: "page_1_x.jpg".to_string(),
        format: "jpeg".to_string(),
        dimensions: Some((10, 10)),
    };
    let (r2, a2) = build_processing_request("d:r2", "d:a2", "v-bpa:ImagesToTextPrompt", &image, "d:p");
    let a2 = a2.unwrap();
    assert_eq!(a2.get_id(), "d:a2");
    assert_eq!(a2.get_first_literal("rdf:type"), Some("v-s:File".to_string()));
    assert_eq!(a2.get_first_literal("v-s:filePath"), Some("out".to_string()));
    assert_eq!(a2.get_first_literal("v-s:fileUri"), Some("page_1_x.jpg".to_string()));
    assert_eq!(r2.get_first_literal("v-s:attachment"), Some("d:a2".to_string()));
    assert!(r2.get_first_literal("v-bpa:rawInput").is_none());
    let (r3, a3) = create_processing_request("v-bpa:ImagesToTextPrompt", &image, "d:p");
    assert!(r3.get_id().starts_with("d:request_"));
    assert!(a3.unwrap().get_id().starts_with("d:attachment_"));
}

fn request(status: &str, result: Option<&str>) -> Individual {
    let mut r = Individual::with_id("d:r");
    r.set_uri("v-bpa:processingStatus", status);
    if let Some(id) = result {
        r.set_uri("v-bpa:hasResult", id);
    }
    r
}

fn result_with(text: &str) -> Individual {
    let mut r = Individual::with_id("d:res");
    r.set_string("v-bpa:extractedText", text, Lang::NoLang);
    r
}

#[test]
fn recognition_counts_and_joins_results() {
    let reqs = vec![
        LoadedRequest { id: "d:r1".to_string(), request: Some(request("v-bpa:Completed", Some("d:x"))), result: Some(result_with("one")) },
        LoadedRequest { id: "d:r2".to_string(), request: Some(request("v-bpa:Processing", None)), result: None },
        LoadedRequest { id: "d:r3".to_string(), request: Some(request("v-bpa:Completed", Some("d:y"))), result: Some(result_with("three")) },
    ];
    let rec = recognition_outcome(&reqs).ok().unwrap();
    assert_eq!(rec.completed, 2);
    assert_eq!(rec.total, 3);
    assert!(!rec.all_completed);
    assert_eq!(rec.combined_text, "one\nthree\n");
    let missing = vec![LoadedRequest { id: "d:gone".to_string(), request: None, result: None }];
    assert_eq!(recognition_outcome(&missing).err(), Some("Failed to load request [d:gone]".to_string()));
    let mut failed = request("v-bpa:Failed", None);
    failed.set_string("v-bpa:lastError", "bad scan", Lang::NoLang);
    let f = vec![LoadedRequest { id: "d:f".to_string(), request: Some(failed), result: None }];
    assert_eq!(recognition_outcome(&f).err(), Some("Content recognition failed: bad scan".to_string()));
}

#[test]
fn pipeline_moves_through_its_stages() {
    let mut p = Individual::with_id("d:p");
    start_recognition(&mut p, &vec!["d:r1".to_string(), "d:r2".to_string()], 1000);
    assert_eq!(p.get_literals("v-bpa:hasStageRequest"), Some(vec!["d:r1".to_string(), "d:r2".to_string()]));
    assert_eq!(p.get_first_literal("v-bpa:currentStage"), Some("content_recognize".to_string()));
    assert_eq!(p.get_first_literal("v-bpa:hasExecutionState"), Some("v-bpa:ExecutionInProgress".to_string()));
    advance_to_analysis(&mut p, "d:an");
    assert_eq!(p.get_literals("v-bpa:hasStageRequest"), Some(vec!["d:an".to_string()]));
    assert_eq!(analysis_request_id(&p), Ok("d:an".to_string()));
    assert_eq!(analysis_request_id(&Individual::with_id("x")), Err("Missing stage requests".to_string()));
    complete_pipeline(&mut p, "d:doc", 2000);
    assert_eq!(p.get_first_literal("v-bpa:resultDocument"), Some("d:doc".to_string()));
    assert_eq!(p.get_first_literal("v-bpa:processingStatus"), Some("v-bpa:Completed".to_string()));
    assert!(p.get_first_literal("v-bpa:currentStage").is_none());
    assert!(p.get_literals("v-bpa:hasStageRequest").is_none());
}

#[test]
fn analysis_status_and_failures() {
    assert_eq!(analysis_status(&request("v-bpa:Completed", None)), Ok(true));
    assert_eq!(analysis_status(&request("v-bpa:Processing", None)), Ok(false));
    assert_eq!(analysis_status(&request("v-bpa:Failed", None)), Err("Document analysis failed without details".to_string()));
    let mut f = request("v-bpa:Failed", None);
    f.set_string("v-bpa:lastError", "no text", Lang::NoLang);
    assert_eq!(analysis_status(&f), Err("Document analysis failed: no text".to_string()));
    let mut i = Individual::with_id("d:i");
    mark_failed(&mut i, "boom");
    assert_eq!(i.get_first_literal("v-bpa:processingStatus"), Some("v-bpa:Failed".to_string()));
    assert_eq!(i.get_first_literal("v-bpa:lastError"), Some("boom".to_string()));
}

#[test]
fn result_document_takes_the_target_type() {
    let mut p = Individual::with_id("d:p");
    let mut doc = Individual::with_id("d:res");
    assert_eq!(make_result_document(&mut doc, "d:doc", &p), Err("fail read target type".to_string()));
    doc.set_uri("v-bpa:targetType", "v-bpa:Contract");
    assert_eq!(make_result_document(&mut doc, "d:doc", &p), Err("fail read attachment".to_string()));
    p.set_uri("v-s:attachment", "d:att");
    doc.set_string("v-bpa:title", "T", Lang::NoLang);
    assert_eq!(make_result_document(&mut doc, "d:doc", &p), Ok(()));
    assert_eq!(doc.get_id(), "d:doc");
    assert_eq!(doc.get_first_literal("rdf:type"), Some("v-bpa:Contract".to_string()));
    assert_eq!(doc.get_first_literal("v-s:attachment"), Some("d:att".to_string()));
    assert!(doc.get_first_literal("v-bpa:targetType").is_none());
    assert_eq!(doc.get_first_literal("v-bpa:title"), Some("T".to_string()));
}

#[test]
fn raw_pipeline_goes_round_its_stages_one_step_at_a_time() {
    let mut p = Individual::with_id("d:p");
    assert_eq!(raw_pipeline_step(&mut p, StageOutcome::Analysing("d:an".to_string()), 5), Err("The outcome does not fit the pipeline's stage".to_string()));
    assert!(p.get_first_literal("v-bpa:currentStage").is_none());
    raw_pipeline_step(&mut p, StageOutcome::Recognizing(vec!["d:r1".to_string()]), 10).unwrap();
    assert_eq!(p.get_first_literal("v-bpa:currentStage"), Some("content_recognize".to_string()));
    raw_pipeline_step(&mut p, StageOutcome::Waiting, 11).unwrap();
    assert_eq!(p.get_first_literal("v-bpa:currentStage"), Some("content_recognize".to_string()));
    assert!(raw_pipeline_step(&mut p, StageOutcome::Completed("d:doc".to_string()), 12).is_err());
    raw_pipeline_step(&mut p, StageOutcome::Analysing("d:an".to_string()), 13).unwrap();
    assert_eq!(p.get_first_literal("v-bpa:currentStage"), Some("document_analysis".to_string()));
    raw_pipeline_step(&mut p, StageOutcome::Completed("d:doc".to_string()), 14).unwrap();
    assert!(p.get_first_literal("v-bpa:currentStage").is_none());
    assert_eq!(p.get_first_literal("v-bpa:processingStatus"), Some("v-bpa:Completed".to_string()));
    assert_eq!(p.get_first_literal("v-bpa:hasExecutionState"), Some("v-bpa:ExecutionCompleted".to_string()));
    assert_eq!(p.get_first_literal("v-bpa:resultDocument"), Some("d:doc".to_string()));
}
