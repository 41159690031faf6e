use vstd::prelude::*;
use crate::error_process::ErrorProcess;
use crate::json::{Json, JsonV};

verus! {

#[verifier::external_type_specification]
#[verifier::external_body]
pub struct ExValue(serde_json::Value);

/// What the JSON reader yields for a text: `None` when the text is not
/// valid JSON, otherwise the document tree. The result depends on the text
/// alone.
pub uninterp spec fn json_doc_of(s: Seq<char>) -> Option<JsonV>;

/// What the YAML reader yields for a text: `None` when the text is not
/// valid YAML (or does not fit a JSON-style tree), otherwise the document
/// tree. The result depends on the text alone.
pub uninterp spec fn yaml_doc_of(s: Seq<char>) -> Option<JsonV>;

/// Converts a parsed document value into the library's tree, one variant
/// per arm. Numbers keep their rendering; nothing else reads them. Relied
/// on only through the two reader wrappers below, whose contracts name the
/// composite result.
#[verifier::external_body]
fn json_of_value(v: serde_json::Value) -> Json {
    match v {
        serde_json::Value::Null => Json::Null,
        serde_json::Value::Bool(b) => Json::Bool(b),
        serde_json::Value::Number(n) => Json::Num(n.to_string()),
        serde_json::Value::String(s) => Json::Text(s),
        serde_json::Value::Array(a) => Json::Arr(a.into_iter().map(json_of_value).collect()),
        serde_json::Value::Object(m) => Json::Obj(
            m.into_iter().map(|p| (p.0, json_of_value(p.1))).collect(),
        ),
    }
}

/// Reads a JSON text into a document tree.
///
/// Relies on serde_json::from_str, which accepts exactly the valid JSON
/// texts and parses deterministically.
#[verifier::external_body]
fn parse_json_text(data: &str) -> (r: Option<Json>)
    ensures
        r is Some <==> json_doc_of(data@) is Some,
        r is Some ==> r.unwrap()@ == json_doc_of(data@).unwrap(),
{
    match serde_json::from_str::<serde_json::Value>(data) {
        Ok(v) => Some(json_of_value(v)),
        Err(_) => None,
    }
}

/// Reads a YAML text into a document tree.
///
/// Relies on serde_yaml::from_str, which accepts exactly the valid YAML
/// texts that fit a JSON-style tree and parses deterministically.
#[verifier::external_body]
fn parse_yaml_text(data: &str) -> (r: Option<Json>)
    ensures
        r is Some <==> yaml_doc_of(data@) is Some,
        r is Some ==> r.unwrap()@ == yaml_doc_of(data@).unwrap(),
{
    match serde_yaml::from_str::<serde_json::Value>(data) {
        Ok(v) => Some(json_of_value(v)),
        Err(_) => None,
    }
}

/// What reading a document text yields: the JSON reading where the text is
/// JSON, else the YAML reading, else nothing.
pub open spec fn parsed_doc(s: Seq<char>) -> Option<JsonV> {
    if json_doc_of(s) is Some {
        json_doc_of(s)
    } else {
        yaml_doc_of(s)
    }
}

/// Reads a document text, as JSON first and as YAML second; a text that is
/// neither is refused as a format error.
pub fn parse_file(data: &str) -> (r: Result<Json, ErrorProcess>)
    ensures
        match r {
            Ok(j) => parsed_doc(data@) == Some(j@),
            Err(e) => parsed_doc(data@) is None && e is Format,
        },
{
    match parse_json_text(data) {
        Some(j) => Ok(j),
        None => {
            match parse_yaml_text(data) {
                Some(j) => Ok(j),
                None => {
                    Err(
                        ErrorProcess::Format(
                            String::from_str("the document is neither valid JSON nor valid YAML"),
                        ),
                    )
                },
            }
        },
    }
}

} // verus!
