//! Values that an AI response carries, with its token counts.
use vstd::prelude::*;
use crate::json::{
    Json, JsonV, jv_entries, obj_get, entries_get, entries_copy, json_string, entry,
    lemma_jv_entries_push, parse_json, serde_json_parse,
};

verus! {

pub struct AIResponseValues {
    /// The named values, in order.
    pub data: Vec<(String, Json)>,
    pub input_tokens: usize,
    pub output_tokens: usize,
}

impl AIResponseValues {
    pub open spec fn entries(&self) -> Seq<(Seq<char>, JsonV)> {
        jv_entries(self.data@)
    }

    pub fn new(data: Vec<(String, Json)>, input_tokens: usize, output_tokens: usize) -> (r: Self)
        ensures
            r.data == data,
            r.input_tokens == input_tokens,
            r.output_tokens == output_tokens,
    {
        AIResponseValues { data, input_tokens, output_tokens }
    }

    pub fn get(&self, key: &str) -> (r: Option<&Json>)
        ensures
            match r {
                Some(v) => obj_get(self.entries(), key@) == Some(v@),
                None => obj_get(self.entries(), key@) is None,
            },
    {
        entries_get(&self.data, key)
    }

    /// A single text result, under the key `result`.
    pub fn from_text(text: String, input_tokens: usize, output_tokens: usize) -> (r: Self)
        ensures
            r.entries() == seq![("result"@, JsonV::Str(text@))],
            r.input_tokens == input_tokens,
            r.output_tokens == output_tokens,
    {
        let mut data: Vec<(String, Json)> = Vec::new();
        let e = entry("result", Json::Str(text));
        proof {
            lemma_jv_entries_push(data@, e);
        }
        data.push(e);
        assert(jv_entries(data@) =~= seq![("result"@, JsonV::Str(text@))]);
        Self::new(data, input_tokens, output_tokens)
    }

    /// All values as one JSON object.
    pub fn to_json_value(&self) -> (r: Json)
        ensures
            r@ == JsonV::Object(self.entries()),
    {
        Json::Object(entries_copy(&self.data))
    }
}

/// Why the text of a structured AI answer yields no values.
#[derive(PartialEq, Eq, Structural, Clone, Copy, Debug)]
pub enum ResponseError {
    /// The text is not JSON.
    NotJson,
    /// The JSON is not an object.
    NotObject,
}

/// The values of a structured AI answer: the members of the JSON object that its text holds.
pub fn structured_response_values(text: &str, input_tokens: usize, output_tokens: usize) -> (r:
    Result<AIResponseValues, ResponseError>)
    ensures
        match serde_json_parse(text@) {
            None => r == Err::<AIResponseValues, ResponseError>(ResponseError::NotJson),
            Some(JsonV::Object(es)) => r matches Ok(v) && v.entries() == es && v.input_tokens
                == input_tokens && v.output_tokens == output_tokens,
            Some(_) => r == Err::<AIResponseValues, ResponseError>(ResponseError::NotObject),
        },
{
    match parse_json(text) {
        None => Err(ResponseError::NotJson),
        Some(Json::Object(m)) => Ok(AIResponseValues::new(m, input_tokens, output_tokens)),
        Some(_) => Err(ResponseError::NotObject),
    }
}

} // verus!
