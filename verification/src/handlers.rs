//! The decisions of the document-status, business-process, cluster-optimization and
//! process-comparison handlers; loading and saving individuals and calling the AI are the
//! caller's.
use vstd::prelude::*;
use crate::individual::{Individual, IndividualV, ResourceV, Lang};
use crate::json::{
    Json, JsonV, json_string, json_u64, jobj1, jobj2, jobj4, jarr1, decimal_text, jv_seq, lemma_jv_seq_push,
    json_to_string, serde_json_text, parse_json, serde_json_parse, obj_get, entries_get,
};
use crate::request::{ChatRequest, ChatMessage, MessageContent, Role, text_of};
use crate::types::ResponseError;
use crate::processing::{lit_or_empty, literal_or_empty};
use crate::text::{str_eq, str_to_string, concat2, concat3, after_last, last_segment};
use crate::fresh::new_uuid;

verus! {

// ---- document status ----
/// The fields whose change marks a document as modified.
pub open spec fn content_fields() -> Seq<Seq<char>> {
    seq![
        "v-bpa:documentTitle"@,
        "v-bpa:documentType"@,
        "v-bpa:documentSource"@,
        "v-bpa:documentDate"@,
        "v-bpa:documentSignedBy"@,
        "v-bpa:documentContent"@,
        "v-bpa:extractedText"@,
        "v-bpa:documentErrors"@,
        "v-bpa:hasDocumentSection"@,
    ]
}

/// Some content field has other literals in the two versions (or is there in one only).
pub open spec fn content_changed(current: IndividualV, previous: IndividualV) -> bool {
    exists|i: int|
        0 <= i < content_fields().len() && #[trigger] current.literals(content_fields()[i]) != previous.literals(
            content_fields()[i],
        )
}

pub open spec fn opt_texts(o: Option<Vec<String>>) -> Option<Seq<Seq<char>>> {
    match o {
        Some(v) => Some(v@.map_values(|s: String| s@)),
        None => None,
    }
}

fn same_texts(a: &Option<Vec<String>>, b: &Option<Vec<String>>) -> (r: bool)
    ensures
        r == (opt_texts(*a) == opt_texts(*b)),
{
    match (a, b) {
        (None, None) => true,
        (Some(x), Some(y)) => {
            let ghost xv = x@.map_values(|s: String| s@);
            let ghost yv = y@.map_values(|s: String| s@);
            assert(opt_texts(*a) == Some(xv));
            assert(opt_texts(*b) == Some(yv));
            if x.len() != y.len() {
                assert(xv.len() != yv.len());
                return false;
            }
            let mut i: usize = 0;
            while i < x.len()
                invariant
                    xv == x@.map_values(|s: String| s@),
                    yv == y@.map_values(|s: String| s@),
                    opt_texts(*a) == Some(xv),
                    opt_texts(*b) == Some(yv),
                    x@.len() == y@.len(),
                    i <= x@.len(),
                    forall|k: int| 0 <= k < i ==> xv[k] == yv[k],
                decreases x@.len() - i,
            {
                if !str_eq(x[i].as_str(), y[i].as_str()) {
                    assert(xv[i as int] != yv[i as int]);
                    return false;
                }
                i = i + 1;
            }
            assert(xv =~= yv);
            true
        },
        _ => false,
    }
}

/// Whether the content of a document differs from its previous version.
pub fn has_content_changed(current: &Individual, previous: &Individual) -> (r: bool)
    ensures
        r == content_changed(current@, previous@),
{
    let fields: Vec<&str> = vec![
        "v-bpa:documentTitle",
        "v-bpa:documentType",
        "v-bpa:documentSource",
        "v-bpa:documentDate",
        "v-bpa:documentSignedBy",
        "v-bpa:documentContent",
        "v-bpa:extractedText",
        "v-bpa:documentErrors",
        "v-bpa:hasDocumentSection",
    ];
    assert(fields@.map_values(|s: &str| s@) =~= content_fields());
    let mut i: usize = 0;
    while i < fields.len()
        invariant
            fields@.map_values(|s: &str| s@) == content_fields(),
            fields@.len() == content_fields().len(),
            i <= fields@.len(),
            forall|k: int|
                0 <= k < i ==> #[trigger] current@.literals(content_fields()[k]) == previous@.literals(
                    content_fields()[k],
                ),
        decreases fields@.len() - i,
    {
        assert(fields@[i as int]@ == content_fields()[i as int]);
        let a = current.get_literals(fields[i]);
        let b = previous.get_literals(fields[i]);
        if !same_texts(&a, &b) {
            assert(current@.literals(content_fields()[i as int]) != previous@.literals(content_fields()[i as int]));
            return true;
        }
        i = i + 1;
    }
    false
}

/// A document's status tags after it is saved: none but `NewDocumentTag` for a document
/// saved for the first time (update counter 1); else `ModifiedDocumentTag` where a previous
/// version was loaded and its content differs; else none.
pub open spec fn status_tagged(document: IndividualV, previous: Option<IndividualV>) -> IndividualV {
    let cleared = document.without("v-bpa:hasStatusTag"@);
    if document.first_integer("v-s:updateCounter"@) == Some(1i64) {
        cleared.with_added("v-bpa:hasStatusTag"@, ResourceV::Uri("v-bpa:NewDocumentTag"@))
    } else {
        match previous {
            Some(p) => if content_changed(cleared, p) {
                cleared.with_added("v-bpa:hasStatusTag"@, ResourceV::Uri("v-bpa:ModifiedDocumentTag"@))
            } else {
                cleared
            },
            None => cleared,
        }
    }
}

/// One of the nine content fields of a document (title, type, source, date, signer,
/// content, extracted text, errors, sections) reads otherwise in the two versions.
pub open spec fn some_content_field_differs(c: IndividualV, p: IndividualV) -> bool {
    ||| c.literals("v-bpa:documentTitle"@) != p.literals("v-bpa:documentTitle"@)
    ||| c.literals("v-bpa:documentType"@) != p.literals("v-bpa:documentType"@)
    ||| c.literals("v-bpa:documentSource"@) != p.literals("v-bpa:documentSource"@)
    ||| c.literals("v-bpa:documentDate"@) != p.literals("v-bpa:documentDate"@)
    ||| c.literals("v-bpa:documentSignedBy"@) != p.literals("v-bpa:documentSignedBy"@)
    ||| c.literals("v-bpa:documentContent"@) != p.literals("v-bpa:documentContent"@)
    ||| c.literals("v-bpa:extractedText"@) != p.literals("v-bpa:extractedText"@)
    ||| c.literals("v-bpa:documentErrors"@) != p.literals("v-bpa:documentErrors"@)
    ||| c.literals("v-bpa:hasDocumentSection"@) != p.literals("v-bpa:hasDocumentSection"@)
}

/// A document's content counts as changed exactly where one of its nine content fields
/// reads otherwise than in the previous version; and a saved document that is not new, one
/// of whose content fields reads otherwise than in its previous version, is tagged
/// `ModifiedDocumentTag` and nothing else, one whose content fields all read as before has
/// no status tag, and a new document (update counter 1) is tagged `NewDocumentTag` only.
pub proof fn law_content_change(current: IndividualV, previous: IndividualV)
    ensures
        content_changed(current, previous) <==> some_content_field_differs(current, previous),
        current.first_integer("v-s:updateCounter"@) != Some(1i64) && some_content_field_differs(current, previous)
            ==> status_tagged(current, Some(previous)).values("v-bpa:hasStatusTag"@) == seq![
            ResourceV::Uri("v-bpa:ModifiedDocumentTag"@),
        ],
        current.first_integer("v-s:updateCounter"@) != Some(1i64) && !some_content_field_differs(current, previous)
            ==> status_tagged(current, Some(previous)).values("v-bpa:hasStatusTag"@) == Seq::<ResourceV>::empty(),
        current.first_integer("v-s:updateCounter"@) == Some(1i64) ==> status_tagged(current, Some(previous)).values(
            "v-bpa:hasStatusTag"@,
        ) == seq![ResourceV::Uri("v-bpa:NewDocumentTag"@)],
{
    let f = content_fields();
    assert(f[0] == "v-bpa:documentTitle"@);
    assert(f[1] == "v-bpa:documentType"@);
    assert(f[2] == "v-bpa:documentSource"@);
    assert(f[3] == "v-bpa:documentDate"@);
    assert(f[4] == "v-bpa:documentSignedBy"@);
    assert(f[5] == "v-bpa:documentContent"@);
    assert(f[6] == "v-bpa:extractedText"@);
    assert(f[7] == "v-bpa:documentErrors"@);
    assert(f[8] == "v-bpa:hasDocumentSection"@);
    assert(f.len() == 9);
    if content_changed(current, previous) {
        let i = choose|i: int| 0 <= i < f.len() && #[trigger] current.literals(f[i]) != previous.literals(f[i]);
        assert(0 <= i < 9);
    }
    let cleared = current.without("v-bpa:hasStatusTag"@);
    reveal_strlit("v-bpa:hasStatusTag");
    reveal_strlit("v-bpa:documentTitle");
    reveal_strlit("v-bpa:documentType");
    reveal_strlit("v-bpa:documentSource");
    reveal_strlit("v-bpa:documentDate");
    reveal_strlit("v-bpa:documentSignedBy");
    reveal_strlit("v-bpa:documentContent");
    reveal_strlit("v-bpa:extractedText");
    reveal_strlit("v-bpa:documentErrors");
    reveal_strlit("v-bpa:hasDocumentSection");
    assert("v-bpa:hasStatusTag"@[6] == 'h' && "v-bpa:hasStatusTag"@[9] == 'S');
    assert(f[0][6] == 'd' && f[1][6] == 'd' && f[2][6] == 'd' && f[3][6] == 'd' && f[4][6] == 'd');
    assert(f[5][6] == 'd' && f[6][6] == 'e' && f[7][6] == 'd' && f[8][9] == 'D');
    assert forall|k: int| 0 <= k < 9 implies #[trigger] cleared.literals(f[k]) == current.literals(f[k]) by {
        assert(f[k] != "v-bpa:hasStatusTag"@);
    }
    if some_content_field_differs(current, previous) {
        assert(some_content_field_differs(cleared, previous));
        if some_content_field_differs(cleared, previous) {
            assert(content_changed(cleared, previous));
        }
    } else {
        assert(!some_content_field_differs(cleared, previous));
        if content_changed(cleared, previous) {
            let i = choose|i: int| 0 <= i < f.len() && #[trigger] cleared.literals(f[i]) != previous.literals(f[i]);
            assert(0 <= i < 9);
        }
    }
}

pub open spec fn opt_ind_ref(o: Option<&Individual>) -> Option<IndividualV> {
    match o {
        Some(p) => Some(p@),
        None => None,
    }
}

/// Whether the handler needs the previous version: for every document but a new one.
pub fn needs_previous_version(document: &Individual) -> (r: bool)
    ensures
        r == (document@.first_integer("v-s:updateCounter"@) != Some(1i64)),
{
    let counter = match document.get_first_integer("v-s:updateCounter") {
        Some(c) => c,
        None => -1,
    };
    counter != 1
}

/// Sets a document's status tags; `previous` is its stored version, where one was loaded.
pub fn apply_document_status(document: &mut Individual, previous: Option<&Individual>)
    ensures
        final(document)@ == status_tagged(old(document)@, opt_ind_ref(previous)),
{
    let counter = match document.get_first_integer("v-s:updateCounter") {
        Some(c) => c,
        None => -1,
    };
    document.remove("v-bpa:hasStatusTag");
    if counter == 1 {
        document.add_uri("v-bpa:hasStatusTag", "v-bpa:NewDocumentTag");
    } else {
        match previous {
            Some(p) => {
                if has_content_changed(document, p) {
                    document.add_uri("v-bpa:hasStatusTag", "v-bpa:ModifiedDocumentTag");
                }
            },
            None => {},
        }
    }
}

/// A document taken into an extraction pipeline loses its status tags.
pub fn reset_status_tags(document: &mut Individual)
    ensures
        final(document)@ == old(document)@.without("v-bpa:hasStatusTag"@),
{
    document.remove("v-bpa:hasStatusTag");
}

// ---- business process justification ----
/// The process names at least one justification document.
pub open spec fn has_documents_spec(bp: IndividualV) -> bool {
    match bp.literals("v-bpa:hasProcessDocument"@) {
        Some(v) => v.len() > 0,
        None => false,
    }
}

pub fn has_process_documents(bp: &Individual) -> (r: bool)
    ensures
        r == has_documents_spec(bp@),
{
    match bp.get_literals("v-bpa:hasProcessDocument") {
        Some(v) => v.len() > 0,
        None => false,
    }
}

/// A process without documents is marked as having nothing to justify it.
pub fn mark_no_justification_documents(bp: &mut Individual)
    ensures
        final(bp)@ == old(bp)@.with(
            "v-bpa:hasProcessJustification"@,
            seq![ResourceV::Uri("v-bpa:NoDocumentForJustification"@)],
        ),
{
    bp.set_uri("v-bpa:hasProcessJustification", "v-bpa:NoDocumentForJustification");
}

/// The ids of a process's justification documents, in order.
pub fn process_document_ids(bp: &Individual) -> (r: Vec<String>)
    ensures
        bp@.literals("v-bpa:hasProcessDocument"@) matches Some(v) ==> r@.map_values(|s: String| s@) == v,
        bp@.literals("v-bpa:hasProcessDocument"@) is None ==> r@.len() == 0,
{
    match bp.get_literals("v-bpa:hasProcessDocument") {
        Some(v) => v,
        None => Vec::new(),
    }
}

/// A justification document as the AI sees it: its name and content.
pub open spec fn document_brief(d: IndividualV) -> JsonV {
    JsonV::Object(
        seq![
            ("name"@, JsonV::Str(lit_or_empty(d, "v-bpa:documentName"@))),
            ("content"@, JsonV::Str(lit_or_empty(d, "v-bpa:documentContent"@))),
        ],
    )
}

pub open spec fn document_briefs(ds: Seq<IndividualV>) -> Seq<JsonV>
    decreases ds.len(),
{
    if ds.len() == 0 {
        Seq::empty()
    } else {
        document_briefs(ds.drop_last()).push(document_brief(ds.last()))
    }
}

pub open spec fn ind_views(v: Seq<Individual>) -> Seq<IndividualV> {
    v.map_values(|i: Individual| i@)
}

/// The process's name: its label, else its `v-bpa:processName`.
pub open spec fn process_name(bp: IndividualV) -> Option<Seq<char>> {
    if bp.first_literal("rdfs:label"@) is Some {
        bp.first_literal("rdfs:label"@)
    } else {
        bp.first_literal("v-bpa:processName"@)
    }
}

/// A process as the AI sees it, with the documents that were loaded; `None` for a process
/// without a name.
pub open spec fn process_json_spec(bp: IndividualV, docs: Seq<IndividualV>) -> Option<JsonV> {
    match process_name(bp) {
        None => None,
        Some(name) => Some(
            JsonV::Object(
                seq![
                    ("processName"@, JsonV::Str(name)),
                    ("processDescription"@, JsonV::Str(lit_or_empty(bp, "v-bpa:processDescription"@))),
                    ("participants"@, JsonV::Str(lit_or_empty(bp, "v-bpa:processParticipant"@))),
                    ("responsibleDepartment"@, JsonV::Str(lit_or_empty(bp, "v-bpa:responsibleDepartment"@))),
                    ("frequency"@, JsonV::Str(lit_or_empty(bp, "v-bpa:processFrequency"@))),
                    ("laborCosts"@, JsonV::Str(lit_or_empty(bp, "v-bpa:laborCosts"@))),
                    ("hasProcessDocument"@, JsonV::Array(document_briefs(docs))),
                ],
            ),
        ),
    }
}

fn push_field(e: &mut Vec<(String, Json)>, k: &str, v: Json)
    ensures
        crate::json::jv_entries(final(e)@) == crate::json::jv_entries(old(e)@).push((k@, v@)),
{
    let p = crate::json::entry(k, v);
    proof {
        crate::json::lemma_jv_entries_push(e@, p);
    }
    e.push(p);
}

/// The process `bp` as JSON for the AI, with `documents`, the justification documents that
/// could be loaded, in order. Fails for a process without a name.
pub fn extract_process_json(bp: &Individual, documents: &Vec<Individual>) -> (r: Result<Json, String>)
    ensures
        process_json_spec(bp@, ind_views(documents@)) matches Some(j) ==> r is Ok && r->Ok_0@ == j,
        process_json_spec(bp@, ind_views(documents@)) is None ==> r is Err && r->Err_0@
            == "Отсутствует название процесса, src="@ + bp@.id,
{
    let name = match bp.get_first_literal("rdfs:label") {
        Some(n) => n,
        None => match bp.get_first_literal("v-bpa:processName") {
            Some(n) => n,
            None => {
                return Err(concat2("Отсутствует название процесса, src=", bp.get_id()));
            },
        },
    };
    let ghost dv = ind_views(documents@);
    let mut docs: Vec<Json> = Vec::new();
    let mut i: usize = 0;
    while i < documents.len()
        invariant
            dv == ind_views(documents@),
            i <= documents@.len(),
            jv_seq(docs@) == document_briefs(dv.take(i as int)),
        decreases documents@.len() - i,
    {
        assert(dv.take(i + 1).drop_last() =~= dv.take(i as int));
        assert(dv.take(i + 1).last() == documents@[i as int]@);
        let d = &documents[i];
        let brief = jobj2(
            "name",
            Json::Str(literal_or_empty(d, "v-bpa:documentName")),
            "content",
            Json::Str(literal_or_empty(d, "v-bpa:documentContent")),
        );
        proof {
            lemma_jv_seq_push(docs@, brief);
        }
        docs.push(brief);
        i = i + 1;
    }
    assert(dv.take(documents@.len() as int) =~= dv);
    let mut e: Vec<(String, Json)> = Vec::new();
    push_field(&mut e, "processName", Json::Str(name));
    push_field(&mut e, "processDescription", Json::Str(literal_or_empty(bp, "v-bpa:processDescription")));
    push_field(&mut e, "participants", Json::Str(literal_or_empty(bp, "v-bpa:processParticipant")));
    push_field(&mut e, "responsibleDepartment", Json::Str(literal_or_empty(bp, "v-bpa:responsibleDepartment")));
    push_field(&mut e, "frequency", Json::Str(literal_or_empty(bp, "v-bpa:processFrequency")));
    push_field(&mut e, "laborCosts", Json::Str(literal_or_empty(bp, "v-bpa:laborCosts")));
    push_field(&mut e, "hasProcessDocument", Json::Array(docs));
    assert(jv_seq(docs@) == document_briefs(dv));
    assert(crate::json::jv_entries(e@) =~= process_json_spec(bp@, dv)->0->Object_0);
    let r = Json::Object(e);
    Ok(r)
}

// ---- cluster optimization ----
/// The ids of a cluster's processes, in order.
pub fn cluster_process_ids(cluster: &Individual) -> (r: Vec<String>)
    ensures
        cluster@.literals("v-bpa:hasProcess"@) matches Some(v) ==> r@.map_values(|s: String| s@) == v,
        cluster@.literals("v-bpa:hasProcess"@) is None ==> r@.len() == 0,
{
    match cluster.get_literals("v-bpa:hasProcess") {
        Some(v) => v,
        None => Vec::new(),
    }
}

/// The data for optimizing a cluster: its processes and their number.
pub fn prepare_optimization_data(processes: Vec<Json>) -> (r: Json)
    ensures
        r@ == JsonV::Object(
            seq![
                ("processes"@, JsonV::Array(jv_seq(processes@))),
                ("count"@, JsonV::Number(decimal_text(processes@.len()))),
            ],
        ),
{
    let n = processes.len() as u64;
    jobj2("processes", Json::Array(processes), "count", json_u64(n))
}

// ---- comparing two processes ----
/// The data for comparing two processes, each with its loaded documents; fails where either
/// has no name.
pub fn prepare_comparison_data(
    process1: &Individual,
    documents1: &Vec<Individual>,
    process2: &Individual,
    documents2: &Vec<Individual>,
) -> (r: Result<Json, String>)
    ensures
        match (process_json_spec(process1@, ind_views(documents1@)), process_json_spec(process2@, ind_views(documents2@))) {
            (Some(a), Some(b)) => r is Ok && r->Ok_0@ == JsonV::Object(seq![("process1"@, a), ("process2"@, b)]),
            (None, _) => r is Err && r->Err_0@ == "Отсутствует название процесса, src="@ + process1@.id,
            (Some(_), None) => r is Err && r->Err_0@ == "Отсутствует название процесса, src="@ + process2@.id,
        },
{
    let a = extract_process_json(process1, documents1)?;
    let b = extract_process_json(process2, documents2)?;
    Ok(jobj2("process1", a, "process2", b))
}

/// The schema of a comparison answer: an object with the one required boolean `are_similar`.
pub open spec fn comparison_schema() -> JsonV {
    JsonV::Object(
        seq![
            ("type"@, JsonV::Str("object"@)),
            ("properties"@, JsonV::Object(seq![("are_similar"@, JsonV::Object(seq![
                ("type"@, JsonV::Str("boolean"@)),
                ("description"@, JsonV::Str("Являются ли процессы похожими"@)),
            ]))])),
            ("required"@, JsonV::Array(seq![JsonV::Str("are_similar"@)])),
            ("additionalProperties"@, JsonV::Bool(false)),
        ],
    )
}

/// The request that asks the AI whether two processes are alike: the system prompt, the
/// comparison data as compact JSON, and the strict schema `process_comparison`.
pub fn prepare_comparison_parameters(model: String, system_prompt: String, comparison_data: &Json) -> (r: ChatRequest)
    ensures
        r.model == model,
        r.messages@.len() == 2,
        r.messages@[0].role == Role::System && text_of(r.messages@[0]) == Some(system_prompt@),
        r.messages@[1].role == Role::User && text_of(r.messages@[1]) == Some(serde_json_text(comparison_data@)),
        r.response_schema matches Some((name, sch)) && name@ == "process_comparison"@ && sch@ == comparison_schema(),
        r.seed is None,
        r.max_tokens is None,
{
    let similar = jobj2("type", json_string("boolean"), "description", json_string("Являются ли процессы похожими"));
    let properties = jobj1("are_similar", similar);
    let schema = jobj4(
        "type",
        json_string("object"),
        "properties",
        properties,
        "required",
        jarr1(json_string("are_similar")),
        "additionalProperties",
        Json::Bool(false),
    );
    let mut messages: Vec<ChatMessage> = Vec::new();
    messages.push(ChatMessage { role: Role::System, content: MessageContent::Text(system_prompt) });
    messages.push(ChatMessage { role: Role::User, content: MessageContent::Text(json_to_string(comparison_data)) });
    ChatRequest {
        model,
        messages,
        response_schema: Some((String::from_str("process_comparison"), schema)),
        seed: None,
        max_tokens: None,
    }
}

/// What a comparison answer says: `are_similar` where the text is a JSON object holding that
/// boolean; false for any other JSON.
pub open spec fn similarity_of(v: JsonV) -> bool {
    match v {
        JsonV::Object(es) => match obj_get(es, "are_similar"@) {
            Some(JsonV::Bool(b)) => b,
            _ => false,
        },
        _ => false,
    }
}

/// Reads the AI's comparison answer; fails where its text is not JSON.
pub fn comparison_answer(text: &str) -> (r: Result<bool, ResponseError>)
    ensures
        match serde_json_parse(text@) {
            None => r == Err::<bool, ResponseError>(ResponseError::NotJson),
            Some(v) => r == Ok::<bool, ResponseError>(similarity_of(v)),
        },
{
    match parse_json(text) {
        None => Err(ResponseError::NotJson),
        Some(Json::Object(es)) => match entries_get(&es, "are_similar") {
            Some(Json::Bool(b)) => Ok(*b),
            _ => Ok(false),
        },
        Some(_) => Ok(false),
    }
}

// ---- extraction and partitioning ----
/// A request of this prompt whose processing is completed.
pub open spec fn completed_with_prompt_spec(request: IndividualV, prompt: Seq<char>) -> bool {
    &&& request.any_exists("v-bpa:prompt"@, seq![prompt])
    &&& request.any_exists("v-bpa:processingStatus"@, seq!["v-bpa:Completed"@])
}

pub fn completed_with_prompt(request: &Individual, prompt: &str) -> (r: bool)
    ensures
        r == completed_with_prompt_spec(request@, prompt@),
{
    let p: [&str; 1] = [prompt];
    let c: [&str; 1] = ["v-bpa:Completed"];
    assert(p@.map_values(|t: &str| t@) =~= seq![prompt@]);
    assert(c@.map_values(|t: &str| t@) =~= seq!["v-bpa:Completed"@]);
    request.any_exists("v-bpa:prompt", &p) && request.any_exists("v-bpa:processingStatus", &c)
}

/// The result a completed request points to.
pub fn request_result_id(request: &Individual, missing: &str) -> (r: Result<String, String>)
    ensures
        request@.first_literal("v-bpa:hasResult"@) matches Some(id) ==> r is Ok && r->Ok_0@ == id,
        request@.first_literal("v-bpa:hasResult"@) is None ==> r is Err && r->Err_0@ == missing@,
{
    match request.get_first_literal("v-bpa:hasResult") {
        Some(id) => Ok(id),
        None => Err(str_to_string(missing)),
    }
}

/// The concatenation of texts, in order.
pub open spec fn concat_all(ts: Seq<Seq<char>>) -> Seq<char>
    decreases ts.len(),
{
    if ts.len() == 0 {
        Seq::empty()
    } else {
        concat_all(ts.drop_last()) + ts.last()
    }
}

/// The request that analyses a text extracted from images: a generic request of the
/// document analysis prompt, with the text (all extracted parts, joined) and the target type.
pub open spec fn analysis_request_spec(request_id: Seq<char>, text: Seq<char>, target_type: Seq<char>) -> IndividualV {
    (IndividualV { id: request_id, props: Map::empty() }).with(
        "rdf:type"@,
        seq![ResourceV::Uri("v-bpa:GenericProcessingRequest"@)],
    ).with("v-bpa:prompt"@, seq![ResourceV::Uri("v-bpa:DocumentAnalysisPrompt"@)]).with(
        "v-bpa:rawInput"@,
        seq![ResourceV::Str(text, Lang::NoLang)],
    ).with("v-bpa:targetType"@, seq![ResourceV::Str(target_type, Lang::NoLang)])
}

/// The analysis request made from the result of a text extraction, with the id `request_id`.
/// Fails where the result has no extracted text or no target type.
pub fn build_analysis_request(request_id: &str, result: &Individual) -> (r: Result<Individual, String>)
    ensures
        result@.literals("v-bpa:extractedText"@) is None ==> r is Err && r->Err_0@ == "No extracted text found"@,
        result@.literals("v-bpa:extractedText"@) matches Some(ts) ==> match result@.first_literal("v-bpa:targetType"@) {
            None => r is Err && r->Err_0@ == "No target type found"@,
            Some(t) => r is Ok && r->Ok_0@ == analysis_request_spec(request_id@, concat_all(ts), t),
        },
{
    let texts = match result.get_literals("v-bpa:extractedText") {
        Some(v) => v,
        None => {
            return Err(String::from_str("No extracted text found"));
        },
    };
    let target_type = match result.get_first_literal("v-bpa:targetType") {
        Some(t) => t,
        None => {
            return Err(String::from_str("No target type found"));
        },
    };
    let ghost tv = texts@.map_values(|s: String| s@);
    let mut text = String::new();
    let mut i: usize = 0;
    while i < texts.len()
        invariant
            tv == texts@.map_values(|s: String| s@),
            i <= texts@.len(),
            text@ == concat_all(tv.take(i as int)),
        decreases texts@.len() - i,
    {
        assert(tv.take(i + 1).drop_last() =~= tv.take(i as int));
        text.append(texts[i].as_str());
        i = i + 1;
    }
    assert(tv.take(texts@.len() as int) =~= tv);
    let mut request = Individual::with_id(request_id);
    request.set_uri("rdf:type", "v-bpa:GenericProcessingRequest");
    request.set_uri("v-bpa:prompt", "v-bpa:DocumentAnalysisPrompt");
    request.set_string("v-bpa:rawInput", text.as_str(), Lang::NoLang);
    request.set_string("v-bpa:targetType", target_type.as_str(), Lang::NoLang);
    Ok(request)
}

/// The analysis request with a fresh id `d:request_<uuid>`; the contract holds for the UUID
/// drawn.
pub fn create_analysis_request(result: &Individual) -> (r: Result<Individual, String>)
    ensures
        result@.literals("v-bpa:extractedText"@) is None ==> r is Err && r->Err_0@ == "No extracted text found"@,
        result@.literals("v-bpa:extractedText"@) matches Some(ts) ==> match result@.first_literal("v-bpa:targetType"@) {
            None => r is Err && r->Err_0@ == "No target type found"@,
            Some(t) => r is Ok && exists|u: Seq<char>| r->Ok_0@ == #[trigger] analysis_request_spec("d:request_"@ + u, concat_all(ts), t),
        },
{
    let u = new_uuid();
    let id = concat2("d:request_", u.as_str());
    let r = build_analysis_request(id.as_str(), result);
    proof {
        if r is Ok {
            let ts = result@.literals("v-bpa:extractedText"@)->0;
            let t = result@.first_literal("v-bpa:targetType"@)->0;
            assert(r->Ok_0@ == analysis_request_spec("d:request_"@ + u@, concat_all(ts), t));
        }
    }
    r
}

/// The individual made from a document analysis result: a copy of the result under the id
/// `target_id`, of the target type, without the target type field.
pub open spec fn target_spec(result: IndividualV, target_id: Seq<char>, target_type: Seq<char>) -> IndividualV {
    (IndividualV { id: target_id, props: result.props }).with("rdf:type"@, seq![ResourceV::Uri(target_type)]).without(
        "v-bpa:targetType"@,
    )
}

/// The id of a new individual of a target type: `d:`, the type's local name (after its last
/// colon), `_` and a fresh id.
pub open spec fn target_id_spec(target_type: Seq<char>, id: Seq<char>) -> Seq<char> {
    "d:"@ + after_last(target_type, ':') + "_"@ + id
}

/// `target` is the individual made from `result` for the target type, under some fresh id.
pub open spec fn target_made(result: IndividualV, target: IndividualV, target_type: Seq<char>) -> bool {
    exists|u: Seq<char>| target == #[trigger] target_spec(result, target_id_spec(target_type, u), target_type)
}

/// The individual of the target type made from a document analysis result, with a fresh id;
/// fails where the result names no target type. The contract holds for the UUID drawn.
pub fn create_target_individual(result: &Individual) -> (r: Result<Individual, String>)
    ensures
        result@.first_literal("v-bpa:targetType"@) is None ==> r is Err && r->Err_0@ == "No target type specified"@,
        result@.first_literal("v-bpa:targetType"@) is Some ==> r is Ok && target_made(
            result@,
            r->Ok_0@,
            result@.first_literal("v-bpa:targetType"@)->0,
        ),
{
    let target_type = match result.get_first_literal("v-bpa:targetType") {
        Some(t) => t,
        None => {
            return Err(String::from_str("No target type specified"));
        },
    };
    let u = new_uuid();
    let local = last_segment(target_type.as_str(), ':');
    let id = concat2(concat3("d:", local.as_str(), "_").as_str(), u.as_str());
    let mut target = result.copy();
    target.set_id(id.as_str());
    target.set_uri("rdf:type", target_type.as_str());
    target.remove("v-bpa:targetType");
    assert(id@ =~= target_id_spec(target_type@, u@));
    assert(target@ == target_spec(result@, target_id_spec(target_type@, u@), target_type@));
    let r: Result<Individual, String> = Ok(target);
    assert(r->Ok_0@ == target_spec(result@, target_id_spec(target_type@, u@), target_type@));
    r
}

/// The request once the individual made from it is saved: it links to it.
pub fn link_target_individual(request: &mut Individual, target_id: &str)
    ensures
        final(request)@ == old(request)@.with_added("v-bpa:hasTargetIndividual"@, ResourceV::Uri(target_id@)),
{
    request.add_uri("v-bpa:hasTargetIndividual", target_id);
}


/// After the status handler, a document has at most one status tag: `NewDocumentTag` when it
/// was saved for the first time, `ModifiedDocumentTag` when its content changed, else none;
/// and nothing but its status tags changes.
pub proof fn law_one_status_tag(document: IndividualV, previous: Option<IndividualV>, other: Seq<char>)
    requires
        other != "v-bpa:hasStatusTag"@,
    ensures
        status_tagged(document, previous).values("v-bpa:hasStatusTag"@).len() <= 1,
        document.first_integer("v-s:updateCounter"@) == Some(1i64) ==> status_tagged(document, previous).values(
            "v-bpa:hasStatusTag"@,
        ) == seq![ResourceV::Uri("v-bpa:NewDocumentTag"@)],
        status_tagged(document, previous).values(other) == document.values(other),
        status_tagged(document, previous).id == document.id,
{
    let cleared = document.without("v-bpa:hasStatusTag"@);
    assert(cleared.values("v-bpa:hasStatusTag"@) == Seq::<ResourceV>::empty());
    assert(Seq::<ResourceV>::empty().push(ResourceV::Uri("v-bpa:NewDocumentTag"@)) =~= seq![
        ResourceV::Uri("v-bpa:NewDocumentTag"@),
    ]);
}

} // verus!
