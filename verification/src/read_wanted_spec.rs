use vstd::prelude::*;
use crate::error_process::ErrorProcess;
use crate::open_api_spec::OpenApiMethod;
use crate::text::{join_with, split_chars, split_str};
use crate::utils::OrderHashMap;

verus! {

/// Where a document comes from: an endpoint or a file. Each source may
/// carry path-segment rewrites to apply after parsing.
#[derive(Debug, PartialEq)]
pub enum WantedSource {
    Url { url: String, fix_url_param: Option<Vec<FixUrlParamItem>> },
    File { file: String, fix_url_param: Option<Vec<FixUrlParamItem>> },
}

/// One operation to generate: its path template and its method.
#[derive(Debug, PartialEq)]
pub struct WantedMethod {
    pub method: OpenApiMethod,
    pub url: String,
}

/// One path-segment rewrite: a literal segment that becomes a named
/// placeholder.
#[derive(Debug, PartialEq)]
pub struct FixUrlParamItem {
    pub from: String,
    pub to: String,
}

/// The control data for one document: its source and the operations to
/// generate, by name.
#[derive(Debug)]
pub struct WantedSpec {
    pub source: WantedSource,
    pub methods: OrderHashMap<String, WantedMethod>,
}

/// The name a control file carries: everything before a final `.spec.json`;
/// any other file name carries none.
pub open spec fn spec_name_of(s: Seq<char>) -> Option<Seq<char>> {
    let parts = split_chars(s, '.');
    if parts.len() >= 2 && parts[parts.len() - 1] == "json"@ && parts[parts.len() - 2] == "spec"@ {
        Some(join_with(parts.take(parts.len() - 2), seq!['.']))
    } else {
        None
    }
}

/// Reads the control-file name out of a file name: everything before a
/// final `.spec.json`.
#[verifier::loop_isolation(false)]
pub fn parse_spec_name(file_name: &str) -> (r: Option<String>)
    ensures
        match r {
            Some(name) => spec_name_of(file_name@) == Some(name@),
            None => spec_name_of(file_name@) is None,
        },
{
    let mut parts = split_str(file_name, '.');
    let ghost pv = parts.deep_view();
    if parts.len() < 2 {
        return None;
    }
    let last = parts.pop().unwrap();
    let ghost pv1 = parts.deep_view();
    let second = parts.pop().unwrap();
    proof {
        assert(pv1 =~= pv.take(pv.len() - 1));
        assert(parts.deep_view() =~= pv.take(pv.len() - 2));
        assert(last@ == pv[pv.len() - 1]);
        assert(second@ == pv1[pv1.len() - 1]);
        assert(pv1[pv1.len() - 1] == pv[pv.len() - 2]);
    }
    if !crate::text::str_eq(last.as_str(), "json") {
        return None;
    }
    if !crate::text::str_eq(second.as_str(), "spec") {
        return None;
    }
    let name = crate::text::join_str(&parts, ".");
    proof {
        crate::text::lemma_char_of_dot();
        assert(name@ == join_with(pv.take(pv.len() - 2), seq!['.']));
    }
    Some(name)
}

} // verus!
