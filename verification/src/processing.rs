//! The decisions of request processing: which handler a request goes to, the inputs each
//! handler reads, the JSON and requests it builds, and what it writes back.
use vstd::prelude::*;
use crate::common::{convert_full_to_short_predicates, convert_short_to_full_predicates, conv_full, conv_short, ConvertError};
use crate::fresh::new_uuid;
use crate::individual::{Individual, IndividualV, Lang, ResourceV};
use crate::json::{
    Json, JsonV, jv_entries, jv_seq, lemma_jv_entries_push, lemma_jv_seq_push, json_string, json_copy,
    json_to_string, json_to_string_pretty, serde_json_text, serde_json_pretty_text, parse_json,
    serde_json_parse, obj_get,
};
use crate::mapping::{TextMap, PropertyMapping};
use crate::onto::{Ontology, ind_views};
use crate::request::{
    ChatMessage, ChatRequest, ContentPart, MessageContent, Role, collect_define_from_schema,
    collect_spec, only_russian, opt_seq, text_of,
};
use crate::schema::has_literal;
use crate::text::{str_eq, str_to_string, concat2, concat3, after_last, last_segment, to_lowercase, lowercase_of, views_of};
use crate::types::AIResponseValues;

verus! {

fn push_entry(e: &mut Vec<(String, Json)>, k: &str, v: Json)
    ensures
        jv_entries(final(e)@) == jv_entries(old(e)@).push((k@, v@)),
{
    let p = (str_to_string(k), v);
    proof {
        lemma_jv_entries_push(e@, p);
    }
    e.push(p);
}

pub open spec fn lit_or_empty(p: IndividualV, pred: Seq<char>) -> Seq<char> {
    match p.first_literal(pred) {
        Some(s) => s,
        None => Seq::empty(),
    }
}

pub(crate) fn literal_or_empty(p: &Individual, pred: &str) -> (r: String)
    ensures
        r@ == lit_or_empty(p@, pred@),
{
    match p.get_first_literal(pred) {
        Some(s) => s,
        None => String::new(),
    }
}

/// The text of a prompt (`v-bpa:promptText`).
pub fn get_prompt_text(prompt: &Individual) -> (r: Result<String, String>)
    ensures
        prompt@.first_literal("v-bpa:promptText"@) matches Some(t) ==> r is Ok && r->Ok_0@ == t,
        prompt@.first_literal("v-bpa:promptText"@) is None ==> r is Err && r->Err_0@
            == "Prompt text not found"@,
{
    match prompt.get_first_literal("v-bpa:promptText") {
        Some(t) => Ok(t),
        None => Err(String::from_str("Prompt text not found")),
    }
}

// ---- the process extraction pipeline ----
/// The pipeline as it starts: in progress from `now`, and processing.
pub fn start_extraction(pipeline: &mut Individual, now: i64)
    ensures
        final(pipeline)@ == old(pipeline)@.with(
            "v-bpa:hasExecutionState"@,
            seq![ResourceV::Uri("v-bpa:ExecutionInProgress"@)],
        ).with("v-bpa:startDate"@, seq![ResourceV::Datetime(now)]).with(
            "v-bpa:processingStatus"@,
            seq![ResourceV::Uri("v-bpa:Processing"@)],
        ),
{
    pipeline.set_uri("v-bpa:hasExecutionState", "v-bpa:ExecutionInProgress");
    pipeline.set_datetime("v-bpa:startDate", now);
    pipeline.set_uri("v-bpa:processingStatus", "v-bpa:Processing");
}

/// The department whose documents are read, and the section types wanted.
pub fn extraction_config(pipeline: &Individual) -> (r: Result<(String, Vec<String>), String>)
    ensures
        pipeline@.first_literal("v-bpa:targetDepartment"@) is None ==> r is Err && r->Err_0@
            == "No target department specified"@,
        pipeline@.first_literal("v-bpa:targetDepartment"@) is Some && pipeline@.literals(
            "v-bpa:hasDocumentSectionTypes"@,
        ) is None ==> r is Err && r->Err_0@ == "No document section types specified"@,
        pipeline@.first_literal("v-bpa:targetDepartment"@) matches Some(d) ==> (pipeline@.literals(
            "v-bpa:hasDocumentSectionTypes"@,
        ) matches Some(ts) ==> (r matches Ok((dep, types)) && dep@ == d && views_of(types@) == ts)),
{
    let department = match pipeline.get_first_literal("v-bpa:targetDepartment") {
        Some(d) => d,
        None => {
            return Err(String::from_str("No target department specified"));
        },
    };
    let types = match pipeline.get_literals("v-bpa:hasDocumentSectionTypes") {
        Some(t) => t,
        None => {
            return Err(String::from_str("No document section types specified"));
        },
    };
    Ok((department, types))
}

/// The search for the documents of a department.
pub fn department_query(department: &str) -> (r: String)
    ensures
        r@ == "'rdf:type' == 'v-bpa:ProcessDocument' && 'v-bpa:hasDepartment' == '"@ + department@
            + "'"@,
{
    concat3("'rdf:type' == 'v-bpa:ProcessDocument' && 'v-bpa:hasDepartment' == '", department, "'")
}

/// A section of one of the wanted types, as JSON: its type, title and content.
pub open spec fn section_spec(section: IndividualV, types: Seq<Seq<char>>) -> Option<JsonV> {
    match section.first_literal("v-bpa:hasSectionType"@) {
        Some(t) => if types.contains(t) {
            Some(
                JsonV::Object(
                    seq![
                        ("section_type"@, JsonV::Str(t)),
                        ("title"@, JsonV::Str(lit_or_empty(section, "v-bpa:sectionTitle"@))),
                        ("content"@, JsonV::Str(lit_or_empty(section, "v-bpa:sectionContent"@))),
                    ],
                ),
            )
        } else {
            None
        },
        None => None,
    }
}

/// The wanted sections among the first `n`.
pub open spec fn sections_spec(sections: Seq<IndividualV>, types: Seq<Seq<char>>) -> Seq<JsonV>
    decreases sections.len(),
{
    if sections.len() == 0 {
        Seq::empty()
    } else {
        match section_spec(sections.last(), types) {
            Some(j) => sections_spec(sections.drop_last(), types).push(j),
            None => sections_spec(sections.drop_last(), types),
        }
    }
}

/// A document with at least one wanted section, as JSON.
pub open spec fn document_spec(doc: IndividualV, sections: Seq<IndividualV>, types: Seq<Seq<char>>) -> Option<JsonV> {
    let ss = sections_spec(sections, types);
    if ss.len() == 0 {
        None
    } else {
        Some(
            JsonV::Object(
                seq![
                    ("department"@, JsonV::Str(lit_or_empty(doc, "v-bpa:documentDepartment"@))),
                    ("documentTitle"@, JsonV::Str(lit_or_empty(doc, "v-bpa:documentTitle"@))),
                    ("documentType"@, JsonV::Str(lit_or_empty(doc, "v-bpa:documentType"@))),
                    ("documentSource"@, JsonV::Str(lit_or_empty(doc, "v-bpa:documentSource"@))),
                    (
                        "documentSignedDate"@,
                        JsonV::Str(lit_or_empty(doc, "v-bpa:documentSignedDate"@)),
                    ),
                    ("documentSignedBy"@, JsonV::Str(lit_or_empty(doc, "v-bpa:documentSignedBy"@))),
                    ("sections"@, JsonV::Array(ss)),
                ],
            ),
        )
    }
}

fn contains_text_of(v: &Vec<String>, s: &str) -> (r: bool)
    ensures
        r == views_of(v@).contains(s@),
{
    let mut i: usize = 0;
    while i < v.len()
        invariant
            i <= v@.len(),
            forall|k: int| 0 <= k < i ==> v@[k]@ != s@,
        decreases v@.len() - i,
    {
        if str_eq(v[i].as_str(), s) {
            assert(views_of(v@)[i as int] == s@);
            return true;
        }
        i = i + 1;
    }
    assert forall|k: int| 0 <= k < views_of(v@).len() implies views_of(v@)[k] != s@ by {
        assert(views_of(v@)[k] == v@[k]@);
    }
    false
}

fn section_json(section: &Individual, types: &Vec<String>) -> (r: Option<Json>)
    ensures
        r matches Some(j) ==> section_spec(section@, views_of(types@)) == Some(j@),
        r is None ==> section_spec(section@, views_of(types@)) is None,
{
    match section.get_first_literal("v-bpa:hasSectionType") {
        Some(t) => {
            if contains_text_of(types, t.as_str()) {
                let mut e: Vec<(String, Json)> = Vec::new();
                let ghost tv = t@;
                push_entry(&mut e, "section_type", Json::Str(t));
                push_entry(&mut e, "title", Json::Str(literal_or_empty(section, "v-bpa:sectionTitle")));
                push_entry(&mut e, "content", Json::Str(literal_or_empty(section, "v-bpa:sectionContent")));
                assert(jv_entries(e@) =~= seq![
                    ("section_type"@, JsonV::Str(tv)),
                    ("title"@, JsonV::Str(lit_or_empty(section@, "v-bpa:sectionTitle"@))),
                    ("content"@, JsonV::Str(lit_or_empty(section@, "v-bpa:sectionContent"@))),
                ]);
                Some(Json::Object(e))
            } else {
                None
            }
        },
        None => None,
    }
}

/// A document and its loaded sections as JSON, when one of the sections is of a wanted
/// type: the document's department, title, type, source, signing date and signer, and the
/// wanted sections in order.
pub fn document_json(document: &Individual, sections: &Vec<Individual>, types: &Vec<String>) -> (r: Option<Json>)
    ensures
        r matches Some(j) ==> document_spec(document@, ind_views(sections@), views_of(types@)) == Some(j@),
        r is None ==> document_spec(document@, ind_views(sections@), views_of(types@)) is None,
{
    let ghost sv = ind_views(sections@);
    let ghost tv = views_of(types@);
    let mut out: Vec<Json> = Vec::new();
    let mut i: usize = 0;
    while i < sections.len()
        invariant
            sv == ind_views(sections@),
            tv == views_of(types@),
            i <= sections@.len(),
            jv_seq(out@) == sections_spec(sv.take(i as int), tv),
        decreases sections@.len() - i,
    {
        assert(sv.take(i + 1).drop_last() =~= sv.take(i as int));
        assert(sv.take(i + 1).last() == sections@[i as int]@);
        match section_json(&sections[i], types) {
            Some(j) => {
                proof {
                    lemma_jv_seq_push(out@, j);
                }
                out.push(j);
            },
            None => {},
        }
        i = i + 1;
    }
    assert(sv.take(sections@.len() as int) =~= sv);
    if out.len() == 0 {
        return None;
    }
    let ghost ssv = jv_seq(out@);
    let mut e: Vec<(String, Json)> = Vec::new();
    push_entry(&mut e, "department", Json::Str(literal_or_empty(document, "v-bpa:documentDepartment")));
    push_entry(&mut e, "documentTitle", Json::Str(literal_or_empty(document, "v-bpa:documentTitle")));
    push_entry(&mut e, "documentType", Json::Str(literal_or_empty(document, "v-bpa:documentType")));
    push_entry(&mut e, "documentSource", Json::Str(literal_or_empty(document, "v-bpa:documentSource")));
    push_entry(&mut e, "documentSignedDate", Json::Str(literal_or_empty(document, "v-bpa:documentSignedDate")));
    push_entry(&mut e, "documentSignedBy", Json::Str(literal_or_empty(document, "v-bpa:documentSignedBy")));
    push_entry(&mut e, "sections", Json::Array(out));
    assert(jv_entries(e@) =~= seq![
        ("department"@, JsonV::Str(lit_or_empty(document@, "v-bpa:documentDepartment"@))),
        ("documentTitle"@, JsonV::Str(lit_or_empty(document@, "v-bpa:documentTitle"@))),
        ("documentType"@, JsonV::Str(lit_or_empty(document@, "v-bpa:documentType"@))),
        ("documentSource"@, JsonV::Str(lit_or_empty(document@, "v-bpa:documentSource"@))),
        ("documentSignedDate"@, JsonV::Str(lit_or_empty(document@, "v-bpa:documentSignedDate"@))),
        ("documentSignedBy"@, JsonV::Str(lit_or_empty(document@, "v-bpa:documentSignedBy"@))),
        ("sections"@, JsonV::Array(ssv)),
    ]);
    Some(Json::Object(e))
}

/// The request to the reasoning model: one user message with the prompt and the documents
/// as pretty JSON, seed 43.
pub fn extraction_request(model: &str, prompt_text: &str, documents: Vec<Json>) -> (r: ChatRequest)
    ensures
        r.model@ == model@,
        r.messages@.len() == 1,
        r.messages@[0].role == Role::User,
        text_of(r.messages@[0]) == Some(
            serde_json_pretty_text(
                JsonV::Object(
                    seq![("prompt"@, JsonV::Str(prompt_text@)), ("documents"@, JsonV::Array(jv_seq(documents@)))],
                ),
            ),
        ),
        r.seed == Some(43u32),
        r.response_schema is None,
        r.max_tokens is None,
{
    let ghost dv = jv_seq(documents@);
    let mut e: Vec<(String, Json)> = Vec::new();
    push_entry(&mut e, "prompt", json_string(prompt_text));
    push_entry(&mut e, "documents", Json::Array(documents));
    assert(jv_entries(e@) =~= seq![("prompt"@, JsonV::Str(prompt_text@)), ("documents"@, JsonV::Array(dv))]);
    let input = Json::Object(e);
    let text = json_to_string_pretty(&input);
    let mut messages: Vec<ChatMessage> = Vec::new();
    messages.push(ChatMessage { role: Role::User, content: MessageContent::Text(text) });
    ChatRequest { model: str_to_string(model), messages, response_schema: None, seed: Some(43), max_tokens: None }
}

/// The text answer of the reasoning model: its `result` string.
pub fn extraction_result_text(ai_response: &AIResponseValues) -> (r: Result<String, String>)
    ensures
        obj_get(ai_response.entries(), "result"@) matches Some(JsonV::Str(t)) ==> r is Ok && r->Ok_0@ == t,
        !(obj_get(ai_response.entries(), "result"@) matches Some(JsonV::Str(_))) ==> r is Err && r->Err_0@
            == "Failed to get text from AI response"@,
{
    match ai_response.get("result") {
        Some(Json::Str(t)) => Ok(t.clone()),
        _ => Err(String::from_str("Failed to get text from AI response")),
    }
}

/// The request that extracts business processes from the reasoning model's text.
pub open spec fn extraction_request_spec(request_id: Seq<char>, text: Seq<char>, parent_id: Seq<char>) -> IndividualV {
    IndividualV { id: request_id, props: Map::empty() }.with(
        "rdf:type"@,
        seq![ResourceV::Uri("v-bpa:GenericProcessingRequest"@)],
    ).with("v-bpa:prompt"@, seq![ResourceV::Uri("v-bpa:ProcessListExtractionPrompt"@)]).with(
        "v-bpa:rawInput"@,
        seq![ResourceV::Str(text, Lang::NoLang)],
    ).with("v-bpa:targetType"@, seq![ResourceV::Str("v-bpa:BusinessProcess"@, Lang::NoLang)]).with(
        "v-bpa:processingStatus"@,
        seq![ResourceV::Uri("v-bpa:Processing"@)],
    ).with("v-s:hasParentLink"@, seq![ResourceV::Uri(parent_id)])
}

pub fn build_extraction_request(request_id: &str, response_text: &str, parent_id: &str) -> (r: Individual)
    ensures
        r@ == extraction_request_spec(request_id@, response_text@, parent_id@),
{
    let mut request = Individual::with_id(request_id);
    request.set_uri("rdf:type", "v-bpa:GenericProcessingRequest");
    request.set_uri("v-bpa:prompt", "v-bpa:ProcessListExtractionPrompt");
    request.set_string("v-bpa:rawInput", response_text, Lang::NoLang);
    request.set_string("v-bpa:targetType", "v-bpa:BusinessProcess", Lang::NoLang);
    request.set_uri("v-bpa:processingStatus", "v-bpa:Processing");
    request.set_uri("v-s:hasParentLink", parent_id);
    request
}

/// The extraction request with a fresh id `d:request_<uuid>`; the contract holds for the
/// UUID drawn.
pub fn create_extraction_request(response_text: &str, parent_id: &str) -> (r: Individual)
    ensures
        exists|u: Seq<char>| #[trigger] extraction_request_spec("d:request_"@ + u, response_text@, parent_id@) == r@,
{
    let u = new_uuid();
    let id = concat2("d:request_", u.as_str());
    let r = build_extraction_request(id.as_str(), response_text, parent_id);
    assert(extraction_request_spec("d:request_"@ + u@, response_text@, parent_id@) == r@);
    r
}

/// The pipeline once the extraction request is processed: it links it as its next stage,
/// is completed and ends at `now`.
pub fn finish_extraction(pipeline: &mut Individual, request_id: &str, now: i64)
    ensures
        final(pipeline)@ == old(pipeline)@.with_added("v-bpa:hasNextStage"@, ResourceV::Uri(request_id@)).with(
            "v-bpa:hasExecutionState"@,
            seq![ResourceV::Uri("v-bpa:ExecutionCompleted"@)],
        ).with("v-bpa:processingStatus"@, seq![ResourceV::Uri("v-bpa:Completed"@)]).with(
            "v-bpa:endDate"@,
            seq![ResourceV::Datetime(now)],
        ),
{
    pipeline.add_uri("v-bpa:hasNextStage", request_id);
    pipeline.set_uri("v-bpa:hasExecutionState", "v-bpa:ExecutionCompleted");
    pipeline.set_uri("v-bpa:processingStatus", "v-bpa:Completed");
    pipeline.set_datetime("v-bpa:endDate", now);
}

/// The pipeline after an error: execution error, failed, the error text, ended at `now`.
pub fn handle_pipeline_error(pipeline: &mut Individual, error: &str, now: i64)
    ensures
        final(pipeline)@ == old(pipeline)@.with(
            "v-bpa:hasExecutionState"@,
            seq![ResourceV::Uri("v-bpa:ExecutionError"@)],
        ).with("v-bpa:processingStatus"@, seq![ResourceV::Uri("v-bpa:Failed"@)]).with(
            "v-bpa:lastError"@,
            seq![ResourceV::Str(error@, Lang::NoLang)],
        ).with("v-bpa:endDate"@, seq![ResourceV::Datetime(now)]),
{
    pipeline.set_uri("v-bpa:hasExecutionState", "v-bpa:ExecutionError");
    pipeline.set_uri("v-bpa:processingStatus", "v-bpa:Failed");
    pipeline.set_string("v-bpa:lastError", error, Lang::NoLang);
    pipeline.set_datetime("v-bpa:endDate", now);
}

// ---- generic requests ----
pub open spec fn is_completed(r: IndividualV) -> bool {
    r.any_exists("v-bpa:processingStatus"@, seq!["v-bpa:Completed"@])
}

/// The prompt a generic request is to be processed with; `None` for a request that is
/// already completed.
pub fn generic_request_prompt(request: &Individual) -> (r: Result<Option<String>, String>)
    ensures
        is_completed(request@) ==> r == Ok::<Option<String>, String>(None),
        !is_completed(request@) && request@.first_literal("v-bpa:prompt"@) is None ==> r is Err && r->Err_0@
            == "No prompt specified"@,
        !is_completed(request@) ==> (request@.first_literal("v-bpa:prompt"@) matches Some(p) ==> (r matches Ok(
            Some(q),
        ) && q@ == p)),
{
    if has_literal(request, "v-bpa:processingStatus", "v-bpa:Completed") {
        return Ok(None);
    }
    match request.get_first_literal("v-bpa:prompt") {
        Some(p) => Ok(Some(p)),
        None => Err(String::from_str("No prompt specified")),
    }
}

/// A prompt with a response schema is processed by the schema, otherwise by the ontology.
pub fn uses_response_schema(prompt: &Individual) -> (r: bool)
    ensures
        r == prompt@.props.contains_key("v-bpa:responseSchema"@),
{
    prompt.is_exists("v-bpa:responseSchema")
}

/// The user input of a request and the target type of its prompt.
pub fn ontology_input_fields(request: &Individual, prompt: &Individual) -> (r: Result<(String, String), String>)
    ensures
        request@.first_literal("v-bpa:rawInput"@) is None ==> r is Err && r->Err_0@ == "No raw input provided"@,
        request@.first_literal("v-bpa:rawInput"@) is Some && prompt@.first_literal("v-bpa:targetType"@) is None
            ==> r is Err && r->Err_0@ == "No target type specified"@,
        request@.first_literal("v-bpa:rawInput"@) matches Some(i) ==> (prompt@.first_literal(
            "v-bpa:targetType"@,
        ) matches Some(t) ==> (r matches Ok((ri, tt)) && ri@ == i && tt@ == t)),
{
    let raw = match request.get_first_literal("v-bpa:rawInput") {
        Some(r) => r,
        None => {
            return Err(String::from_str("No raw input provided"));
        },
    };
    match prompt.get_first_literal("v-bpa:targetType") {
        Some(t) => Ok((raw, t)),
        None => Err(String::from_str("No target type specified")),
    }
}

/// The analysis data: the user input, the target type's id and label (null when it has
/// none), and the extra input data where there is some.
pub open spec fn analysis_data_spec(raw_input: Seq<char>, target: IndividualV, input_data: Option<JsonV>) -> JsonV {
    let tt = JsonV::Object(
        seq![
            ("id"@, JsonV::Str(target.id)),
            (
                "label"@,
                match target.first_literal("rdfs:label"@) {
                    Some(l) => JsonV::Str(l),
                    None => JsonV::Null,
                },
            ),
        ],
    );
    let base = seq![("input"@, JsonV::Str(raw_input)), ("targetType"@, tt)];
    match input_data {
        Some(d) => JsonV::Object(base.push(("inputData"@, d))),
        None => JsonV::Object(base),
    }
}

pub open spec fn opt_json(o: Option<Json>) -> Option<JsonV> {
    match o {
        Some(j) => Some(j@),
        None => None,
    }
}

pub fn prepare_analysis_data(raw_input: &str, target_type_def: &Individual, input_data: Option<Json>) -> (r: Json)
    ensures
        r@ == analysis_data_spec(raw_input@, target_type_def@, opt_json(input_data)),
{
    let label = match target_type_def.get_first_literal("rdfs:label") {
        Some(l) => Json::Str(l),
        None => Json::Null,
    };
    let ghost lv = label@;
    assert(lv == (match target_type_def@.first_literal("rdfs:label"@) {
        Some(l) => JsonV::Str(l),
        None => JsonV::Null,
    }));
    let mut tt: Vec<(String, Json)> = Vec::new();
    push_entry(&mut tt, "id", json_string(target_type_def.get_id()));
    push_entry(&mut tt, "label", label);
    let ghost ttv = jv_entries(tt@);
    let mut e: Vec<(String, Json)> = Vec::new();
    push_entry(&mut e, "input", json_string(raw_input));
    push_entry(&mut e, "targetType", Json::Object(tt));
    assert(ttv =~= seq![("id"@, JsonV::Str(target_type_def@.id)), ("label"@, lv)]);
    let ghost base = jv_entries(e@);
    assert(base =~= seq![("input"@, JsonV::Str(raw_input@)), ("targetType"@, JsonV::Object(ttv))]);
    let ghost ttspec = JsonV::Object(
        seq![
            ("id"@, JsonV::Str(target_type_def@.id)),
            (
                "label"@,
                match target_type_def@.first_literal("rdfs:label"@) {
                    Some(l) => JsonV::Str(l),
                    None => JsonV::Null,
                },
            ),
        ],
    );
    assert(seq![("id"@, JsonV::Str(target_type_def@.id)), ("label"@, lv)] =~= ttspec->Object_0);
    assert(JsonV::Object(ttv) == ttspec);
    match input_data {
        Some(d) => {
            let ghost dv = d@;
            push_entry(&mut e, "inputData", d);
            assert(jv_entries(e@) == seq![("input"@, JsonV::Str(raw_input@)), ("targetType"@, ttspec)].push(("inputData"@, dv)));
        },
        None => {
            assert(jv_entries(e@) == seq![("input"@, JsonV::Str(raw_input@)), ("targetType"@, ttspec)]);
        },
    }
    Json::Object(e)
}

/// The schema of a prompt's properties (`v-bpa:properties`), as `collect_define_from_schema`
/// builds it.
pub fn load_schema(
    onto: &Ontology,
    prompt: &Individual,
    excluded: &Option<Vec<String>>,
    property_mapping: &mut TextMap,
) -> (r: Vec<(String, Json)>)
    requires
        old(property_mapping).wf(),
    ensures
        final(property_mapping).wf(),
        (jv_entries(r@), final(property_mapping)@) == collect_spec(
            *onto,
            match prompt@.literals("v-bpa:properties"@) {
                Some(l) => l,
                None => Seq::empty(),
            },
            opt_seq(*excluded),
            match prompt@.literals("v-bpa:properties"@) {
                Some(l) => l.len() as int,
                None => 0,
            },
            old(property_mapping)@,
        ),
{
    let properties = match prompt.get_literals("v-bpa:properties") {
        Some(l) => l,
        None => Vec::new(),
    };
    assert(views_of(properties@).len() == properties@.len());
    collect_define_from_schema(onto, &properties, excluded, property_mapping)
}

/// The extra structured input of a request, read as JSON and with its predicates shortened.
pub fn structured_input(request: &Individual, property_mapping: &mut TextMap) -> (r: Result<Option<Json>, String>)
    requires
        old(property_mapping).wf(),
    ensures
        final(property_mapping).wf(),
        request@.first_literal("v-bpa:structuredInput"@) is None ==> r == Ok::<Option<Json>, String>(None)
            && final(property_mapping)@ == old(property_mapping)@,
        request@.first_literal("v-bpa:structuredInput"@) matches Some(t) ==> (serde_json_parse(t) is None
            ==> r is Err && r->Err_0@ == "structured input is not JSON"@),
        request@.first_literal("v-bpa:structuredInput"@) matches Some(t) ==> (serde_json_parse(t) matches Some(
            JsonV::Object(es),
        ) ==> (r matches Ok(Some(j)) && j@ == JsonV::Object(conv_full(es, old(property_mapping).entry_seq()).0)
            && final(property_mapping).entry_seq() == conv_full(es, old(property_mapping).entry_seq()).1)),
        request@.first_literal("v-bpa:structuredInput"@) matches Some(t) ==> (serde_json_parse(t) matches Some(
            v,
        ) ==> (!(v is Object) ==> r is Err && r->Err_0@ == "Expected object for input"@)),
{
    let text = match request.get_first_literal("v-bpa:structuredInput") {
        Some(t) => t,
        None => {
            return Ok(None);
        },
    };
    let parsed = match parse_json(text.as_str()) {
        Some(j) => j,
        None => {
            return Err(String::from_str("structured input is not JSON"));
        },
    };
    match convert_full_to_short_predicates(&parsed, property_mapping) {
        Ok(j) => Ok(Some(j)),
        Err(e) => Err(e.message()),
    }
}

/// Writes the answer's `result`, with short names and display values turned back into
/// URIs, as the request's structured output (JSON text).
pub fn apply_structured_output(
    request: &mut Individual,
    ai_response: &AIResponseValues,
    property_mapping: &PropertyMapping,
) -> (r: Result<(), String>)
    ensures
        obj_get(ai_response.entries(), "result"@) is None ==> r is Ok && final(request)@ == old(request)@,
        obj_get(ai_response.entries(), "result"@) matches Some(JsonV::Object(es)) ==> r is Ok
            && final(request)@ == old(request)@.with(
            "v-bpa:structuredOutput"@,
            seq![ResourceV::Str(serde_json_text(JsonV::Object(conv_short(es, property_mapping@))), Lang::NoLang)],
        ),
        obj_get(ai_response.entries(), "result"@) matches Some(v) ==> (!(v is Object) ==> r is Err
            && r->Err_0@ == "Expected object for input"@ && final(request)@ == old(request)@),
{
    match ai_response.get("result") {
        Some(result) => match convert_short_to_full_predicates(result, property_mapping) {
            Ok(mapped) => {
                let t = json_to_string(&mapped);
                request.set_string("v-bpa:structuredOutput", t.as_str(), Lang::NoLang);
                Ok(())
            },
            Err(e) => Err(e.message()),
        },
        None => Ok(()),
    }
}

/// The result individual of an ontology request.
pub fn generic_result_individual(result_id: &str, target_type: &str) -> (r: Individual)
    ensures
        r@ == (IndividualV { id: result_id@, props: Map::empty() }).with(
            "rdf:type"@,
            seq![ResourceV::Uri("v-bpa:GenericProcessingResult"@)],
        ).with("v-bpa:targetType"@, seq![ResourceV::Uri(target_type@)]),
{
    let mut r = Individual::with_id(result_id);
    r.set_uri("rdf:type", "v-bpa:GenericProcessingResult");
    r.set_uri("v-bpa:targetType", target_type);
    r
}

/// A request that is done: linked to its result (where it has one) and completed.
pub fn complete_request(request: &mut Individual, result_id: Option<&str>)
    ensures
        result_id matches Some(id) ==> final(request)@ == old(request)@.with(
            "v-bpa:hasResult"@,
            seq![ResourceV::Uri(id@)],
        ).with("v-bpa:processingStatus"@, seq![ResourceV::Uri("v-bpa:Completed"@)]),
        result_id is None ==> final(request)@ == old(request)@.with(
            "v-bpa:processingStatus"@,
            seq![ResourceV::Uri("v-bpa:Completed"@)],
        ),
{
    match result_id {
        Some(id) => request.set_uri("v-bpa:hasResult", id),
        None => {},
    }
    request.set_uri("v-bpa:processingStatus", "v-bpa:Completed");
}

// ---- requests processed by a response schema ----
/// Where the content of a schema request comes from.
pub enum RequestInput {
    /// An attachment, by id.
    Attachment(String),
    /// The raw text input.
    Raw(String),
}

pub fn request_input(request: &Individual) -> (r: Result<RequestInput, String>)
    ensures
        request@.first_literal("v-s:attachment"@) matches Some(a) ==> (r matches Ok(RequestInput::Attachment(x))
            && x@ == a),
        request@.first_literal("v-s:attachment"@) is None ==> (request@.first_literal("v-bpa:rawInput"@) matches Some(
            t,
        ) ==> (r matches Ok(RequestInput::Raw(x)) && x@ == t)),
        request@.first_literal("v-s:attachment"@) is None && request@.first_literal("v-bpa:rawInput"@) is None
            ==> r is Err && r->Err_0@ == "Neither attachment nor raw input provided"@,
{
    match request.get_first_literal("v-s:attachment") {
        Some(a) => Ok(RequestInput::Attachment(a)),
        None => match request.get_first_literal("v-bpa:rawInput") {
            Some(t) => Ok(RequestInput::Raw(t)),
            None => Err(String::from_str("Neither attachment nor raw input provided")),
        },
    }
}

/// The file of an attachment given to a schema request: `<v-s:filePath>/<v-s:fileUri>`,
/// and its kind, the lower-cased text after the last `.` of the URI.
pub fn schema_attachment_file(attachment: &Individual) -> (r: Result<(String, String), String>)
    ensures
        attachment@.first_literal("v-s:fileUri"@) is None ==> r is Err && r->Err_0@ == "No fileUri in attachment"@,
        attachment@.first_literal("v-s:fileUri"@) is Some && attachment@.first_literal("v-s:filePath"@) is None
            ==> r is Err && r->Err_0@ == "No file path in attachment"@,
        attachment@.first_literal("v-s:fileUri"@) matches Some(u) ==> (attachment@.first_literal(
            "v-s:filePath"@,
        ) matches Some(p) ==> (r matches Ok((path, ext)) && path@ == p + "/"@ + u && ext@ == lowercase_of(
            after_last(u, '.'),
        ))),
{
    let file_uri = match attachment.get_first_literal("v-s:fileUri") {
        Some(u) => u,
        None => {
            return Err(String::from_str("No fileUri in attachment"));
        },
    };
    let extension = to_lowercase(last_segment(file_uri.as_str(), '.').as_str());
    let file_path = match attachment.get_first_literal("v-s:filePath") {
        Some(p) => p,
        None => {
            return Err(String::from_str("No file path in attachment"));
        },
    };
    Ok((concat3(file_path.as_str(), "/", file_uri.as_str()), extension))
}

/// The character of a six-bit value in the standard base64 alphabet.
pub open spec fn base64_char(v: int) -> char {
    if v < 26 {
        ('A' as int + v) as char
    } else if v < 52 {
        ('a' as int + (v - 26)) as char
    } else if v < 62 {
        ('0' as int + (v - 52)) as char
    } else if v == 62 {
        '+'
    } else {
        '/'
    }
}

/// Standard base64 with padding: each group of three bytes as four characters of six bits
/// each, a last group of one or two bytes as two or three characters padded with `=` to four.
pub open spec fn base64_standard(bytes: Seq<u8>) -> Seq<char>
    decreases bytes.len(),
{
    if bytes.len() == 0 {
        Seq::empty()
    } else if bytes.len() == 1 {
        let a = bytes[0] as int;
        seq![base64_char(a / 4), base64_char((a % 4) * 16), '=', '=']
    } else if bytes.len() == 2 {
        let a = bytes[0] as int;
        let b = bytes[1] as int;
        seq![base64_char(a / 4), base64_char((a % 4) * 16 + b / 16), base64_char((b % 16) * 4), '=']
    } else {
        let a = bytes[0] as int;
        let b = bytes[1] as int;
        let c = bytes[2] as int;
        seq![base64_char(a / 4), base64_char((a % 4) * 16 + b / 16), base64_char((b % 16) * 4 + c / 64), base64_char(c % 64)]
            + base64_standard(bytes.skip(3))
    }
}

/// `base64::engine::general_purpose::STANDARD.encode`: the crate's standard engine uses the
/// standard alphabet and pads, so the text is the standard base64 of the bytes.
#[verifier::external_body]
pub(crate) fn encode_base64(bytes: &[u8]) -> (r: String)
    ensures
        r@ == base64_standard(bytes@),
{
    base64::Engine::encode(&base64::engine::general_purpose::STANDARD, bytes)
}

/// The content of a schema request as a message part: text as it is, anything else as an
/// image data URL of that format.
pub fn prepare_content_for_ai(format: &str, content: String) -> (r: ContentPart)
    ensures
        format@ == "txt"@ ==> (r matches ContentPart::Text(t) && t@ == content@),
        format@ != "txt"@ ==> (r matches ContentPart::ImageUrl(u) && u@ == "data:image/"@ + format@
            + ";base64,"@ + content@),
{
    if str_eq(format, "txt") {
        ContentPart::Text(content)
    } else {
        let head = concat3("data:image/", format, ";base64,");
        ContentPart::ImageUrl(concat2(head.as_str(), content.as_str()))
    }
}

/// The content of an attachment file as a message part: its bytes in base64, as an image
/// of its kind (or as text for `txt`).
pub fn attachment_content(extension: &str, bytes: &[u8]) -> (r: ContentPart)
    ensures
        extension@ == "txt"@ ==> (r matches ContentPart::Text(t) && t@ == base64_standard(bytes@)),
        extension@ != "txt"@ ==> (r matches ContentPart::ImageUrl(u) && u@ == "data:image/"@ + extension@
            + ";base64,"@ + base64_standard(bytes@)),
{
    let encoded = encode_base64(bytes);
    prepare_content_for_ai(extension, encoded)
}

/// The request of a schema request: two system messages (answer in Russian; the prompt
/// text), the content from the user, the AI schema `document_analysis`, seed 43 and at most
/// 16384 tokens.
pub fn structured_request(model: &str, prompt_text: String, ai_schema: Json, part: ContentPart) -> (r: ChatRequest)
    ensures
        r.model@ == model@,
        r.messages@.len() == 3,
        r.messages@[0].role == Role::System && text_of(r.messages@[0]) == Some(only_russian()),
        r.messages@[1].role == Role::System && text_of(r.messages@[1]) == Some(prompt_text@),
        r.messages@[2].role == Role::User,
        r.messages@[2].content matches MessageContent::Parts(ps) && ps@.len() == 1 && ps@[0] == part,
        r.response_schema matches Some((name, sch)) && name@ == "document_analysis"@ && sch == ai_schema,
        r.seed == Some(43u32),
        r.max_tokens == Some(16384u32),
{
    let mut parts: Vec<ContentPart> = Vec::new();
    parts.push(part);
    let mut messages: Vec<ChatMessage> = Vec::new();
    messages.push(ChatMessage {
        role: Role::System,
        content: MessageContent::Text(String::from_str("You must respond only in Russian language. Use only Russian for all text fields.")),
    });
    messages.push(ChatMessage { role: Role::System, content: MessageContent::Text(prompt_text) });
    messages.push(ChatMessage { role: Role::User, content: MessageContent::Parts(parts) });
    ChatRequest {
        model: str_to_string(model),
        messages,
        response_schema: Some((String::from_str("document_analysis"), ai_schema)),
        seed: Some(43),
        max_tokens: Some(16384),
    }
}

/// A schema request once its result is saved: linked to it, completed, at 100 percent.
pub fn complete_structured_request(request: &mut Individual, result_id: &str)
    ensures
        final(request)@ == old(request)@.with("v-bpa:hasResult"@, seq![ResourceV::Uri(result_id@)]).with(
            "v-bpa:processingStatus"@,
            seq![ResourceV::Uri("v-bpa:Completed"@)],
        ).with("v-bpa:percentComplete"@, seq![ResourceV::Integer(100)]),
{
    request.set_uri("v-bpa:hasResult", result_id);
    request.set_uri("v-bpa:processingStatus", "v-bpa:Completed");
    request.set_integer("v-bpa:percentComplete", 100);
}

/// The update that makes a parent object be processed again: its modification time.
pub fn parent_trigger(parent_id: &str, now: i64) -> (r: Individual)
    ensures
        r@ == (IndividualV { id: parent_id@, props: Map::empty() }).with(
            "v-s:modified"@,
            seq![ResourceV::Datetime(now)],
        ),
{
    let mut u = Individual::with_id(parent_id);
    u.set_datetime("v-s:modified", now);
    u
}

} // verus!
