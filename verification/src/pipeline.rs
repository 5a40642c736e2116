//! The decisions of the document pipelines: which stage a pipeline is in, what each stage
//! writes to the pipeline and to the requests it makes, and how the results of the
//! recognition requests combine. Loading and saving individuals is the caller's.
use vstd::prelude::*;
use crate::fresh::new_uuid;
use crate::individual::{Individual, IndividualV, Lang, ResourceV};
use crate::onto::ind_views;
use crate::schema::has_literal;
use crate::text::{
    str_eq, str_to_string, concat2, concat3, after_last, last_segment, to_lowercase, lowercase_of,
    views_of,
};

verus! {

// ---- extracted content ----
/// What an extractor gives: text, or an image written to a file.
#[derive(Debug)]
pub enum ExtractedContent {
    Text(String),
    ImageFile { path: String, name: String, format: String, dimensions: Option<(u32, u32)> },
}

// ---- the stages of the raw document pipeline ----
/// The stage a raw document pipeline is in, by its `v-bpa:currentStage`.
pub enum RawStage {
    /// No stage yet: the document is to be read and split into parts.
    Initial,
    /// Waiting for the recognition of the parts.
    ContentRecognize,
    /// Waiting for the analysis of the recognized text.
    DocumentAnalysis,
    /// A stage name that the pipeline does not know.
    Unknown(String),
}

pub open spec fn stage_text(p: IndividualV) -> Seq<char> {
    match p.first_literal("v-bpa:currentStage"@) {
        Some(s) => s,
        None => Seq::empty(),
    }
}

/// Reads the stage of a pipeline; a missing stage is the initial one.
pub fn pipeline_stage(pipeline: &Individual) -> (r: RawStage)
    ensures
        stage_text(pipeline@) == Seq::<char>::empty() ==> r is Initial,
        stage_text(pipeline@) == "content_recognize"@ ==> r is ContentRecognize,
        stage_text(pipeline@) == "document_analysis"@ ==> r is DocumentAnalysis,
        stage_text(pipeline@) != Seq::<char>::empty() && stage_text(pipeline@) != "content_recognize"@
            && stage_text(pipeline@) != "document_analysis"@ ==> (r matches RawStage::Unknown(s) && s@
            == stage_text(pipeline@)),
{
    let s = match pipeline.get_first_literal("v-bpa:currentStage") {
        Some(s) => s,
        None => String::new(),
    };
    assert(s@ == stage_text(pipeline@));
    proof {
        reveal_strlit("");
        reveal_strlit("content_recognize");
        reveal_strlit("document_analysis");
        assert(""@ =~= Seq::<char>::empty());
        assert("document_analysis"@[0] != "content_recognize"@[0]);
        assert("document_analysis"@.len() > 0 && "content_recognize"@.len() > 0);
    }
    if str_eq(s.as_str(), "") {
        RawStage::Initial
    } else if str_eq(s.as_str(), "content_recognize") {
        RawStage::ContentRecognize
    } else if str_eq(s.as_str(), "document_analysis") {
        RawStage::DocumentAnalysis
    } else {
        RawStage::Unknown(s)
    }
}

/// The error for a stage the pipeline does not know.
pub fn invalid_stage_message(stage: &str) -> (r: String)
    ensures
        r@ == "Invalid pipeline stage: "@ + stage@,
{
    concat2("Invalid pipeline stage: ", stage)
}

/// The attachment of a pipeline.
pub fn pipeline_attachment(pipeline: &Individual) -> (r: Result<String, String>)
    ensures
        pipeline@.first_literal("v-s:attachment"@) matches Some(a) ==> r is Ok && r->Ok_0@ == a,
        pipeline@.first_literal("v-s:attachment"@) is None ==> r is Err && r->Err_0@
            == "No attachment found in pipeline"@,
{
    match pipeline.get_first_literal("v-s:attachment") {
        Some(a) => Ok(a),
        None => Err(String::from_str("No attachment found in pipeline")),
    }
}

/// Where the file of an attachment lies and what kind it is.
pub struct AttachmentFile {
    /// `./data/files/<path>/<uri>`
    pub full_path: String,
    /// The file name's extension, in lower case.
    pub extension: String,
    pub file_name: String,
}

/// Reads the file name, URI and path of an attachment: the file lies at
/// `./data/files/<v-s:filePath>/<v-s:fileUri>`, and its kind is the lower-cased text after
/// the last `.` of `v-s:fileName`.
pub fn attachment_file(attachment: &Individual) -> (r: Result<AttachmentFile, String>)
    ensures
        attachment@.first_literal("v-s:fileName"@) is None ==> r is Err && r->Err_0@
            == "No filename in attachment"@,
        attachment@.first_literal("v-s:fileName"@) is Some && attachment@.first_literal(
            "v-s:fileUri"@,
        ) is None ==> r is Err && r->Err_0@ == "No file URI in attachment"@,
        attachment@.first_literal("v-s:fileName"@) is Some && attachment@.first_literal(
            "v-s:fileUri"@,
        ) is Some && attachment@.first_literal("v-s:filePath"@) is None ==> r is Err && r->Err_0@
            == "No file path in attachment"@,
        r matches Ok(f) ==> {
            &&& attachment@.first_literal("v-s:fileName"@) == Some(f.file_name@)
            &&& f.extension@ == lowercase_of(after_last(f.file_name@, '.'))
            &&& f.full_path@ == "./data/files/"@ + attachment@.first_literal("v-s:filePath"@)->0
                + "/"@ + attachment@.first_literal("v-s:fileUri"@)->0
        },
        attachment@.first_literal("v-s:fileName"@) is Some && attachment@.first_literal(
            "v-s:fileUri"@,
        ) is Some && attachment@.first_literal("v-s:filePath"@) is Some ==> r is Ok,
{
    let file_name = match attachment.get_first_literal("v-s:fileName") {
        Some(f) => f,
        None => {
            return Err(String::from_str("No filename in attachment"));
        },
    };
    let extension = to_lowercase(last_segment(file_name.as_str(), '.').as_str());
    let file_uri = match attachment.get_first_literal("v-s:fileUri") {
        Some(u) => u,
        None => {
            return Err(String::from_str("No file URI in attachment"));
        },
    };
    let file_path = match attachment.get_first_literal("v-s:filePath") {
        Some(p) => p,
        None => {
            return Err(String::from_str("No file path in attachment"));
        },
    };
    let head = concat3("./data/files/", file_path.as_str(), "/");
    let full_path = concat2(head.as_str(), file_uri.as_str());
    Ok(AttachmentFile { full_path, extension, file_name })
}

// ---- requests made by a pipeline ----
/// A processing request: its id, type `v-bpa:GenericProcessingRequest`, the prompt, the
/// content (text as raw input, an image as a link to its attachment) and the parent link.
pub open spec fn request_spec(
    request_id: Seq<char>,
    prompt_id: Seq<char>,
    text: Option<Seq<char>>,
    attachment_id: Seq<char>,
    parent_id: Seq<char>,
) -> IndividualV {
    let r0 = IndividualV { id: request_id, props: Map::empty() }.with(
        "rdf:type"@,
        seq![ResourceV::Uri("v-bpa:GenericProcessingRequest"@)],
    ).with("v-bpa:prompt"@, seq![ResourceV::Uri(prompt_id)]);
    let r1 = match text {
        Some(t) => r0.with("v-bpa:rawInput"@, seq![ResourceV::Str(t, Lang::NoLang)]),
        None => r0.with_added("v-s:attachment"@, ResourceV::Uri(attachment_id)),
    };
    r1.with("v-s:hasParentLink"@, seq![ResourceV::Uri(parent_id)])
}

/// The attachment individual of an image file.
pub open spec fn image_attachment_spec(attachment_id: Seq<char>, path: Seq<char>, name: Seq<char>) -> IndividualV {
    IndividualV { id: attachment_id, props: Map::empty() }.with(
        "rdf:type"@,
        seq![ResourceV::Uri("v-s:File"@)],
    ).with("v-s:filePath"@, seq![ResourceV::Str(path, Lang::NoLang)]).with(
        "v-s:fileUri"@,
        seq![ResourceV::Str(name, Lang::NoLang)],
    )
}

pub open spec fn content_text(c: ExtractedContent) -> Option<Seq<char>> {
    match c {
        ExtractedContent::Text(t) => Some(t@),
        _ => None,
    }
}

/// Builds a processing request for one extracted part, and for an image its attachment
/// individual (to be saved before the request), with the ids given.
pub fn build_processing_request(
    request_id: &str,
    attachment_id: &str,
    prompt_id: &str,
    content: &ExtractedContent,
    parent_id: &str,
) -> (r: (Individual, Option<Individual>))
    ensures
        r.0@ == request_spec(request_id@, prompt_id@, content_text(*content), attachment_id@, parent_id@),
        content matches ExtractedContent::ImageFile { path, name, .. } ==> (r.1 matches Some(a) && a@
            == image_attachment_spec(attachment_id@, path@, name@)),
        content is Text ==> r.1 is None,
{
    let mut request = Individual::with_id(request_id);
    request.set_uri("rdf:type", "v-bpa:GenericProcessingRequest");
    request.set_uri("v-bpa:prompt", prompt_id);
    let att = match content {
        ExtractedContent::Text(t) => {
            request.set_string("v-bpa:rawInput", t.as_str(), Lang::NoLang);
            None
        },
        ExtractedContent::ImageFile { path, name, .. } => {
            let mut attachment = Individual::with_id(attachment_id);
            attachment.set_uri("rdf:type", "v-s:File");
            attachment.set_string("v-s:filePath", path.as_str(), Lang::NoLang);
            attachment.set_string("v-s:fileUri", name.as_str(), Lang::NoLang);
            request.add_uri("v-s:attachment", attachment_id);
            Some(attachment)
        },
    };
    request.set_uri("v-s:hasParentLink", parent_id);
    (request, att)
}

/// Makes a processing request for one extracted part with fresh ids `d:request_<uuid>`
/// (and `d:attachment_<uuid>` for an image). The contract holds for the UUIDs drawn.
pub fn create_processing_request(prompt_id: &str, content: &ExtractedContent, parent_id: &str) -> (r: (
    Individual,
    Option<Individual>,
))
    ensures
        exists|u1: Seq<char>, u2: Seq<char>|
            #[trigger] request_spec(
                "d:request_"@ + u1,
                prompt_id@,
                content_text(*content),
                "d:attachment_"@ + u2,
                parent_id@,
            ) == r.0@ && (content matches ExtractedContent::ImageFile { path, name, .. } ==> (r.1 matches Some(
                a,
            ) && a@ == image_attachment_spec("d:attachment_"@ + u2, path@, name@))),
        content is Text ==> r.1 is None,
{
    let u1 = new_uuid();
    let u2 = new_uuid();
    let request_id = concat2("d:request_", u1.as_str());
    let attachment_id = concat2("d:attachment_", u2.as_str());
    let r = build_processing_request(request_id.as_str(), attachment_id.as_str(), prompt_id, content, parent_id);
    assert(request_spec(
        "d:request_"@ + u1@,
        prompt_id@,
        content_text(*content),
        "d:attachment_"@ + u2@,
        parent_id@,
    ) == r.0@);
    r
}

// ---- stage: start ----
pub open spec fn add_uris(p: IndividualV, pred: Seq<char>, ids: Seq<Seq<char>>) -> IndividualV
    decreases ids.len(),
{
    if ids.len() == 0 {
        p
    } else {
        add_uris(p, pred, ids.drop_last()).with_added(pred, ResourceV::Uri(ids.last()))
    }
}

fn add_uri_list(p: &mut Individual, pred: &str, ids: &Vec<String>)
    ensures
        final(p)@ == add_uris(old(p)@, pred@, views_of(ids@)),
{
    let ghost iv = views_of(ids@);
    let mut i: usize = 0;
    while i < ids.len()
        invariant
            iv == views_of(ids@),
            i <= ids@.len(),
            p@ == add_uris(old(p)@, pred@, iv.take(i as int)),
        decreases ids@.len() - i,
    {
        assert(iv.take(i + 1).drop_last() =~= iv.take(i as int));
        p.add_uri(pred, ids[i].as_str());
        i = i + 1;
    }
    assert(iv.take(ids@.len() as int) =~= iv);
}

/// After the recognition requests are made: the pipeline links them, enters the
/// `content_recognize` stage, is in progress and has started at `now`.
pub fn start_recognition(pipeline: &mut Individual, request_ids: &Vec<String>, now: i64)
    ensures
        final(pipeline)@ == recognition_started(old(pipeline)@, views_of(request_ids@), now),
{
    add_uri_list(pipeline, "v-bpa:hasStageRequest", request_ids);
    pipeline.set_string("v-bpa:currentStage", "content_recognize", Lang::NoLang);
    pipeline.set_uri("v-bpa:hasExecutionState", "v-bpa:ExecutionInProgress");
    pipeline.set_datetime("v-bpa:startDate", now);
}

/// The pipeline `p` once recognition requests `ids` are made at `now`.
pub open spec fn recognition_started(p: IndividualV, ids: Seq<Seq<char>>, now: i64) -> IndividualV {
    add_uris(p, "v-bpa:hasStageRequest"@, ids).with(
        "v-bpa:currentStage"@,
        seq![ResourceV::Str("content_recognize"@, Lang::NoLang)],
    ).with("v-bpa:hasExecutionState"@, seq![ResourceV::Uri("v-bpa:ExecutionInProgress"@)]).with(
        "v-bpa:startDate"@,
        seq![ResourceV::Datetime(now)],
    )
}

/// The pipeline `p` once its analysis request `request_id` is made.
pub open spec fn analysis_started(p: IndividualV, request_id: Seq<char>) -> IndividualV {
    p.without("v-bpa:hasStageRequest"@).with_added("v-bpa:hasStageRequest"@, ResourceV::Uri(request_id)).with(
        "v-bpa:currentStage"@,
        seq![ResourceV::Str("document_analysis"@, Lang::NoLang)],
    )
}

/// The pipeline `p` once its result document `doc_id` is made at `now`.
pub open spec fn pipeline_completed(p: IndividualV, doc_id: Seq<char>, now: i64) -> IndividualV {
    p.with("v-bpa:resultDocument"@, seq![ResourceV::Uri(doc_id)]).with(
        "v-bpa:hasExecutionState"@,
        seq![ResourceV::Uri("v-bpa:ExecutionCompleted"@)],
    ).with("v-bpa:processingStatus"@, seq![ResourceV::Uri("v-bpa:Completed"@)]).with(
        "v-bpa:endDate"@,
        seq![ResourceV::Datetime(now)],
    ).without("v-bpa:currentStage"@).without("v-bpa:hasStageRequest"@)
}

/// The individual `p` marked failed with `error`.
pub open spec fn marked_failed(p: IndividualV, error: Seq<char>) -> IndividualV {
    p.with("v-bpa:processingStatus"@, seq![ResourceV::Uri("v-bpa:Failed"@)]).with(
        "v-bpa:lastError"@,
        seq![ResourceV::Str(error, Lang::NoLang)],
    )
}

/// The stage after `s`: no stage, then `content_recognize`, then `document_analysis`, then
/// no stage again.
pub open spec fn next_stage(s: Seq<char>) -> Seq<char> {
    if s == Seq::<char>::empty() {
        "content_recognize"@
    } else if s == "content_recognize"@ {
        "document_analysis"@
    } else {
        Seq::empty()
    }
}

/// A raw document pipeline goes round its stages: starting recognition takes it from no
/// stage to `content_recognize`, starting the analysis from there to `document_analysis`, and
/// completing it from there back to no stage, completed, in the state `ExecutionCompleted`
/// and with its result document; marking it failed leaves its stage as it was.
pub proof fn law_stage_cycle(p: IndividualV, ids: Seq<Seq<char>>, request_id: Seq<char>, doc_id: Seq<char>, error: Seq<char>, now: i64)
    ensures
        stage_text(p) == Seq::<char>::empty() ==> stage_text(recognition_started(p, ids, now)) == next_stage(stage_text(p)),
        stage_text(p) == "content_recognize"@ ==> stage_text(analysis_started(p, request_id)) == next_stage(stage_text(p)),
        stage_text(p) == "document_analysis"@ ==> {
            let q = pipeline_completed(p, doc_id, now);
            &&& stage_text(q) == next_stage(stage_text(p))
            &&& q.values("v-bpa:processingStatus"@) == seq![ResourceV::Uri("v-bpa:Completed"@)]
            &&& q.values("v-bpa:hasExecutionState"@) == seq![ResourceV::Uri("v-bpa:ExecutionCompleted"@)]
            &&& q.values("v-bpa:resultDocument"@) == seq![ResourceV::Uri(doc_id)]
        },
        stage_text(marked_failed(p, error)) == stage_text(p),
{
    reveal_strlit("v-bpa:currentStage");
    reveal_strlit("v-bpa:hasStageRequest");
    reveal_strlit("v-bpa:hasExecutionState");
    reveal_strlit("v-bpa:startDate");
    reveal_strlit("v-bpa:resultDocument");
    reveal_strlit("v-bpa:processingStatus");
    reveal_strlit("v-bpa:endDate");
    reveal_strlit("v-bpa:lastError");
    reveal_strlit("content_recognize");
    reveal_strlit("document_analysis");
    assert("content_recognize"@.len() > 0 && "document_analysis"@.len() > 0);
    assert("content_recognize"@[0] != "document_analysis"@[0]);
    assert("v-bpa:currentStage"@[6] == 'c');
    assert("v-bpa:processingStatus"@[7] == 'r' && "v-bpa:hasExecutionState"@[7] == 'a');
    assert("v-bpa:resultDocument"@ != "v-bpa:processingStatus"@);
    assert("v-bpa:resultDocument"@ != "v-bpa:hasExecutionState"@);
    assert("v-bpa:hasStageRequest"@[9] != "v-bpa:hasExecutionState"@[9]);
    assert("v-bpa:endDate"@[6] == 'e' && "v-bpa:resultDocument"@[6] == 'r' && "v-bpa:hasStageRequest"@[6] == 'h');
    assert("v-bpa:processingStatus"@ != "v-bpa:endDate"@);
    assert("v-bpa:hasExecutionState"@ != "v-bpa:endDate"@);
    assert("v-bpa:hasExecutionState"@ != "v-bpa:processingStatus"@);
    assert("v-bpa:processingStatus"@ != "v-bpa:hasStageRequest"@);
}

/// What the outside work of a raw document pipeline's stage came to.
pub enum StageOutcome {
    /// The document was read into parts, and these recognition requests were made.
    Recognizing(Vec<String>),
    /// The stage's requests are not done yet, or the analysis gave no result.
    Waiting,
    /// Every part is recognized, and this analysis request was made.
    Analysing(String),
    /// The analysis is done, and this result document was made.
    Completed(String),
}

/// The pipeline after one call of its stage with this outcome; `None` where the outcome
/// does not fit the stage.
pub open spec fn raw_step(p: IndividualV, o: StageOutcome, now: i64) -> Option<IndividualV> {
    match o {
        StageOutcome::Recognizing(ids) => if stage_text(p) == Seq::<char>::empty() {
            Some(recognition_started(p, views_of(ids@), now))
        } else {
            None
        },
        StageOutcome::Waiting => Some(p),
        StageOutcome::Analysing(id) => if stage_text(p) == "content_recognize"@ {
            Some(analysis_started(p, id@))
        } else {
            None
        },
        StageOutcome::Completed(doc) => if stage_text(p) == "document_analysis"@ {
            Some(pipeline_completed(p, doc@, now))
        } else {
            None
        },
    }
}

/// Writes what one call of a raw document pipeline's stage came to: the recognition
/// started, nothing, the analysis started, or the pipeline completed. An outcome that does
/// not fit the stage leaves the pipeline as it is and is an error.
pub fn raw_pipeline_step(pipeline: &mut Individual, outcome: StageOutcome, now: i64) -> (r: Result<(), String>)
    ensures
        match raw_step(old(pipeline)@, outcome, now) {
            Some(q) => r is Ok && final(pipeline)@ == q,
            None => r is Err && r->Err_0@ == "The outcome does not fit the pipeline's stage"@ && final(pipeline)@ == old(
                pipeline,
            )@,
        },
{
    let stage = pipeline_stage(pipeline);
    proof {
        reveal_strlit("content_recognize");
        reveal_strlit("document_analysis");
        assert("content_recognize"@.len() > 0 && "document_analysis"@.len() > 0);
        assert("content_recognize"@[0] != "document_analysis"@[0]);
    }
    match outcome {
        StageOutcome::Recognizing(ids) => match stage {
            RawStage::Initial => {
                start_recognition(pipeline, &ids, now);
                Ok(())
            },
            _ => Err(String::from_str("The outcome does not fit the pipeline's stage")),
        },
        StageOutcome::Waiting => Ok(()),
        StageOutcome::Analysing(id) => match stage {
            RawStage::ContentRecognize => {
                advance_to_analysis(pipeline, id.as_str());
                Ok(())
            },
            _ => Err(String::from_str("The outcome does not fit the pipeline's stage")),
        },
        StageOutcome::Completed(doc) => match stage {
            RawStage::DocumentAnalysis => {
                complete_pipeline(pipeline, doc.as_str(), now);
                Ok(())
            },
            _ => Err(String::from_str("The outcome does not fit the pipeline's stage")),
        },
    }
}

/// One call of a raw document pipeline leaves its stored stage as it was or moves it to
/// the next in the cycle (no stage, `content_recognize`, `document_analysis`, no stage
/// again); it leaves `document_analysis` only completed, in the state `ExecutionCompleted`
/// and with its result document; and a call that fails, marking the pipeline failed, keeps
/// its stage.
pub proof fn law_raw_step_cycle(p: IndividualV, o: StageOutcome, now: i64, error: Seq<char>)
    ensures
        raw_step(p, o, now) matches Some(q) ==> stage_text(q) == stage_text(p) || stage_text(q) == next_stage(
            stage_text(p),
        ),
        raw_step(p, o, now) matches Some(q) ==> (stage_text(p) == "document_analysis"@ && stage_text(q)
            != stage_text(p) ==> {
            &&& q.values("v-bpa:processingStatus"@) == seq![ResourceV::Uri("v-bpa:Completed"@)]
            &&& q.values("v-bpa:hasExecutionState"@) == seq![ResourceV::Uri("v-bpa:ExecutionCompleted"@)]
            &&& q.values("v-bpa:resultDocument"@).len() == 1
        }),
        stage_text(marked_failed(p, error)) == stage_text(p),
{
    match o {
        StageOutcome::Recognizing(ids) => {
            law_stage_cycle(p, views_of(ids@), Seq::empty(), Seq::empty(), error, now);
        },
        StageOutcome::Waiting => {
            law_stage_cycle(p, Seq::empty(), Seq::empty(), Seq::empty(), error, now);
        },
        StageOutcome::Analysing(id) => {
            law_stage_cycle(p, Seq::empty(), id@, Seq::empty(), error, now);
        },
        StageOutcome::Completed(doc) => {
            law_stage_cycle(p, Seq::empty(), Seq::empty(), doc@, error, now);
        },
    }
}

// ---- stage: content recognition ----
/// A recognition request as loaded: `None` where it could not be loaded; and its result
/// individual, where it names one that could be loaded.
pub struct LoadedRequest {
    pub id: String,
    pub request: Option<Individual>,
    pub result: Option<Individual>,
}

/// How the recognition stands.
pub struct Recognition {
    pub completed: usize,
    pub total: usize,
    pub all_completed: bool,
    /// The texts of the completed requests' results, each followed by a line break.
    pub combined_text: String,
}

pub open spec fn is_completed(r: IndividualV) -> bool {
    r.any_exists("v-bpa:processingStatus"@, seq!["v-bpa:Completed"@])
}

pub open spec fn is_failed(r: IndividualV) -> bool {
    r.any_exists("v-bpa:processingStatus"@, seq!["v-bpa:Failed"@])
}

/// The text that a completed request contributes.
pub open spec fn result_text(req: IndividualV, result: Option<IndividualV>) -> Seq<char> {
    match (req.first_literal("v-bpa:hasResult"@), result) {
        (Some(_), Some(res)) => match res.first_literal("v-bpa:extractedText"@) {
            Some(t) => t + "\n"@,
            None => Seq::empty(),
        },
        _ => Seq::empty(),
    }
}

pub open spec fn opt_ind(o: Option<Individual>) -> Option<IndividualV> {
    match o {
        Some(i) => Some(i@),
        None => None,
    }
}

/// The recognition over the first `n` requests: an error for the first request that could
/// not be loaded or has failed, else the completed count and the combined text.
pub open spec fn recognition_spec(rs: Seq<LoadedRequest>, n: int) -> Result<(nat, bool, Seq<char>), Seq<char>>
    decreases n,
{
    if n <= 0 || n > rs.len() {
        Ok((0, true, Seq::empty()))
    } else {
        match recognition_spec(rs, n - 1) {
            Err(e) => Err(e),
            Ok((c, all, text)) => {
                let lr = rs[n - 1];
                match opt_ind(lr.request) {
                    None => Err("Failed to load request ["@ + lr.id@ + "]"@),
                    Some(req) => if !is_completed(req) {
                        if is_failed(req) {
                            match req.first_literal("v-bpa:lastError"@) {
                                Some(e) => Err("Content recognition failed: "@ + e),
                                None => Err("Content recognition failed without details"@),
                            }
                        } else {
                            Ok((c, false, text))
                        }
                    } else {
                        Ok((c + 1, all, text + result_text(req, opt_ind(lr.result))))
                    },
                }
            },
        }
    }
}

proof fn lemma_recognition_err(rs: Seq<LoadedRequest>, m: int, n: int)
    requires
        0 <= m <= n <= rs.len(),
        recognition_spec(rs, m) is Err,
    ensures
        recognition_spec(rs, n) == recognition_spec(rs, m),
    decreases n - m,
{
    if m < n {
        lemma_recognition_err(rs, m, n - 1);
    }
}

/// Goes through the recognition requests in order: a request that could not be loaded, or
/// that failed, ends with an error (its `v-bpa:lastError` when it has one); otherwise counts
/// the completed ones and joins the texts of their results.
pub fn recognition_outcome(requests: &Vec<LoadedRequest>) -> (r: Result<Recognition, String>)
    ensures
        recognition_spec(requests@, requests@.len() as int) matches Err(e) ==> r is Err && r->Err_0@
            == e,
        recognition_spec(requests@, requests@.len() as int) matches Ok((c, all, text)) ==> (r matches Ok(
            rec,
        ) && rec.completed == c && rec.all_completed == all && rec.combined_text@ == text
            && rec.total == requests@.len()),
{
    let mut completed: usize = 0;
    let mut all_completed = true;
    let mut text = String::new();
    let mut i: usize = 0;
    while i < requests.len()
        invariant
            i <= requests@.len(),
            completed <= i,
            recognition_spec(requests@, i as int) == Ok::<(nat, bool, Seq<char>), Seq<char>>(
                (completed as nat, all_completed, text@),
            ),
        decreases requests@.len() - i,
    {
        let lr = &requests[i];
        match &lr.request {
            None => {
                let e = concat3("Failed to load request [", lr.id.as_str(), "]");
                proof {
                    lemma_recognition_err(requests@, i + 1, requests@.len() as int);
                }
                return Err(e);
            },
            Some(req) => {
                if !has_literal(req, "v-bpa:processingStatus", "v-bpa:Completed") {
                    if has_literal(req, "v-bpa:processingStatus", "v-bpa:Failed") {
                        let e = match req.get_first_literal("v-bpa:lastError") {
                            Some(m) => concat2("Content recognition failed: ", m.as_str()),
                            None => String::from_str("Content recognition failed without details"),
                        };
                        proof {
                            lemma_recognition_err(requests@, i + 1, requests@.len() as int);
                        }
                        return Err(e);
                    }
                    all_completed = false;
                } else {
                    completed = completed + 1;
                    assert(requests@[i as int] == *lr);
                    match (req.get_first_literal("v-bpa:hasResult"), &lr.result) {
                        (Some(_), Some(res)) => match res.get_first_literal("v-bpa:extractedText") {
                            Some(t) => {
                                let ghost t0 = text@;
                                text.append(t.as_str());
                                text.append("\n");
                                assert(text@ =~= t0 + (t@ + "\n"@));
                            },
                            None => {
                                assert(text@ =~= text@ + Seq::<char>::empty());
                            },
                        },
                        _ => {
                            assert(text@ =~= text@ + Seq::<char>::empty());
                        },
                    }
                }
            },
        }
        i = i + 1;
    }
    Ok(Recognition { completed, total: requests.len(), all_completed, combined_text: text })
}

/// Once every part is recognized: the pipeline drops its stage requests, links the analysis
/// request instead, and enters the `document_analysis` stage.
pub fn advance_to_analysis(pipeline: &mut Individual, request_id: &str)
    ensures
        final(pipeline)@ == analysis_started(old(pipeline)@, request_id@),
{
    pipeline.remove("v-bpa:hasStageRequest");
    pipeline.add_uri("v-bpa:hasStageRequest", request_id);
    pipeline.set_string("v-bpa:currentStage", "document_analysis", Lang::NoLang);
}

// ---- stage: document analysis ----
/// The analysis request of a pipeline: the first of its stage requests.
pub fn analysis_request_id(pipeline: &Individual) -> (r: Result<String, String>)
    ensures
        (match pipeline@.literals("v-bpa:hasStageRequest"@) {
            Some(l) => l,
            None => Seq::empty(),
        }).len() == 0 ==> r is Err && r->Err_0@ == "Missing stage requests"@,
        r matches Ok(id) ==> (pipeline@.literals("v-bpa:hasStageRequest"@) matches Some(l) && l.len()
            > 0 && id@ == l[0]),
{
    match pipeline.get_literals("v-bpa:hasStageRequest") {
        Some(l) => {
            if l.len() == 0 {
                assert(l@.map_values(|s: String| s@).len() == 0);
                Err(String::from_str("Missing stage requests"))
            } else {
                assert(l@.map_values(|s: String| s@)[0] == l@[0]@);
                Ok(l[0].clone())
            }
        },
        None => Err(String::from_str("Missing stage requests")),
    }
}

/// Whether the analysis request is done: `true` when completed, `false` while in progress,
/// an error when it failed (with its `v-bpa:lastError` when it has one).
pub fn analysis_status(request: &Individual) -> (r: Result<bool, String>)
    ensures
        is_completed(request@) ==> r == Ok::<bool, String>(true),
        !is_completed(request@) && !is_failed(request@) ==> r == Ok::<bool, String>(false),
        !is_completed(request@) && is_failed(request@) ==> r is Err && r->Err_0@ == (match request@.first_literal(
            "v-bpa:lastError"@,
        ) {
            Some(e) => "Document analysis failed: "@ + e,
            None => "Document analysis failed without details"@,
        }),
{
    if has_literal(request, "v-bpa:processingStatus", "v-bpa:Completed") {
        Ok(true)
    } else if has_literal(request, "v-bpa:processingStatus", "v-bpa:Failed") {
        match request.get_first_literal("v-bpa:lastError") {
            Some(e) => Err(concat2("Document analysis failed: ", e.as_str())),
            None => Err(String::from_str("Document analysis failed without details")),
        }
    } else {
        Ok(false)
    }
}

/// Turns the analysis result into the document: it gets the id `doc_id`, its target type
/// as type, the pipeline's attachment, and loses `v-bpa:targetType`.
pub fn make_result_document(result_doc: &mut Individual, doc_id: &str, pipeline: &Individual) -> (r: Result<(), String>)
    ensures
        old(result_doc)@.first_literal("v-bpa:targetType"@) is None ==> r is Err && r->Err_0@
            == "fail read target type"@,
        old(result_doc)@.first_literal("v-bpa:targetType"@) is Some && pipeline@.first_literal(
            "v-s:attachment"@,
        ) is None ==> r is Err && r->Err_0@ == "fail read attachment"@,
        old(result_doc)@.first_literal("v-bpa:targetType"@) matches Some(t) ==> (pipeline@.first_literal(
            "v-s:attachment"@,
        ) matches Some(a) ==> (r is Ok && final(result_doc)@ == (IndividualV {
            id: doc_id@,
            props: old(result_doc)@.props,
        }).with("rdf:type"@, seq![ResourceV::Uri(t)]).with(
            "v-s:attachment"@,
            seq![ResourceV::Uri(a)],
        ).without("v-bpa:targetType"@))),
{
    let target_type = match result_doc.get_first_literal("v-bpa:targetType") {
        Some(t) => t,
        None => {
            return Err(String::from_str("fail read target type"));
        },
    };
    result_doc.set_id(doc_id);
    result_doc.set_uri("rdf:type", target_type.as_str());
    let att = match pipeline.get_first_literal("v-s:attachment") {
        Some(a) => a,
        None => {
            return Err(String::from_str("fail read attachment"));
        },
    };
    result_doc.set_uri("v-s:attachment", att.as_str());
    result_doc.remove("v-bpa:targetType");
    Ok(())
}

/// The pipeline once its document is made: it links the document, is completed, ends at
/// `now`, and loses its stage and stage requests.
pub fn complete_pipeline(pipeline: &mut Individual, doc_id: &str, now: i64)
    ensures
        final(pipeline)@ == pipeline_completed(old(pipeline)@, doc_id@, now),
{
    pipeline.set_uri("v-bpa:resultDocument", doc_id);
    pipeline.set_uri("v-bpa:hasExecutionState", "v-bpa:ExecutionCompleted");
    pipeline.set_uri("v-bpa:processingStatus", "v-bpa:Completed");
    pipeline.set_datetime("v-bpa:endDate", now);
    pipeline.remove("v-bpa:currentStage");
    pipeline.remove("v-bpa:hasStageRequest");
}

/// A pipeline or request that failed: status `v-bpa:Failed` and the error text.
pub fn mark_failed(individual: &mut Individual, error: &str)
    ensures
        final(individual)@ == marked_failed(old(individual)@, error@),
{
    individual.set_uri("v-bpa:processingStatus", "v-bpa:Failed");
    individual.set_string("v-bpa:lastError", error, Lang::NoLang);
}

} // verus!
