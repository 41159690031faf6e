use vstd::prelude::*;
use crate::error_process::ErrorProcess;
use crate::generate_js::{generate_js, generate_js_spec};
use crate::open_api_spec::{params_keys_ok, paths_view, resps_keys_ok, HandlerV, OpenApiMethod,
    SpecHandlerType, SpecOpenApi};
use crate::open_api_type::check_keys_ok;
use crate::utils::{kv_lookup, OrderHashMap, SortKey};

verus! {

/// The first path of the model bound to a URL.
pub open spec fn find_path(
    ps: Seq<(Seq<char>, Seq<(OpenApiMethod, HandlerV)>)>,
    url: Seq<char>,
) -> Option<Seq<(OpenApiMethod, HandlerV)>>
    decreases ps.len(),
{
    if ps.len() == 0 {
        None
    } else if ps[0].0 == url {
        Some(ps[0].1)
    } else {
        find_path(ps.drop_first(), url)
    }
}

/// The first handler of a path bound to a method.
pub open spec fn find_method(
    ms: Seq<(OpenApiMethod, HandlerV)>,
    m: OpenApiMethod,
) -> Option<HandlerV>
    decreases ms.len(),
{
    if ms.len() == 0 {
        None
    } else if ms[0].0 == m {
        Some(ms[0].1)
    } else {
        find_method(ms.drop_first(), m)
    }
}

proof fn lemma_find_path_commute(
    kv: Seq<(String, OrderHashMap<OpenApiMethod, SpecHandlerType>)>,
    url: Seq<char>,
)
    ensures
        match kv_lookup(kv, url) {
            None => find_path(paths_view(kv), url) is None,
            Some(v) => find_path(paths_view(kv), url) == Some(
                crate::open_api_spec::methods_view(v.kv_seq()),
            ),
        },
    decreases kv.len(),
{
    if kv.len() > 0 {
        assert(paths_view(kv)[0] == (kv[0].0@, crate::open_api_spec::methods_view(
            kv[0].1.kv_seq(),
        )));
        assert(paths_view(kv).drop_first() =~= paths_view(kv.drop_first()));
        if kv[0].0.repr() != url {
            lemma_find_path_commute(kv.drop_first(), url);
        }
    }
}

proof fn lemma_find_method_commute(kv: Seq<(OpenApiMethod, SpecHandlerType)>, m: OpenApiMethod)
    ensures
        match kv_lookup(kv, m.rank_spec()) {
            None => find_method(crate::open_api_spec::methods_view(kv), m) is None,
            Some(v) => find_method(crate::open_api_spec::methods_view(kv), m) == Some(v@),
        },
    decreases kv.len(),
{
    if kv.len() > 0 {
        assert(crate::open_api_spec::methods_view(kv)[0] == (kv[0].0, kv[0].1@));
        assert(crate::open_api_spec::methods_view(kv).drop_first()
            =~= crate::open_api_spec::methods_view(kv.drop_first()));
        crate::open_api_spec::lemma_method_rank_injective(kv[0].0, m);
        if kv[0].0.repr() != m.rank_spec() {
            lemma_find_method_commute(kv.drop_first(), m);
        }
    }
}

/// What generating one named operation yields: the module text for the
/// handler the document binds to the operation's URL and method; a URL or
/// method the document does not declare, or a handler whose types carry an
/// empty property name, is refused.
pub open spec fn operation_spec(
    ps: Seq<(Seq<char>, Seq<(OpenApiMethod, HandlerV)>)>,
    name: Seq<char>,
    url: Seq<char>,
    method: OpenApiMethod,
) -> Option<Seq<char>> {
    match find_path(ps, url) {
        None => None,
        Some(ms) => match find_method(ms, method) {
            None => None,
            Some(h) => {
                if params_keys_ok(h.parameters) && resps_keys_ok(h.responses) {
                    Some(generate_js_spec(name, url, method, h))
                } else {
                    None
                }
            },
        },
    }
}

/// Tests that every parameter type carries non-empty property names.
#[verifier::loop_isolation(false)]
fn check_params_keys(h: &SpecHandlerType) -> (r: bool)
    ensures
        r == params_keys_ok(h@.parameters),
{
    let ghost pv = h@.parameters;
    let mut i: usize = 0;
    proof {
        assert(pv.skip(0) =~= pv);
    }
    while i < h.parameters.len()
        invariant
            0 <= i <= h.parameters@.len(),
            pv == h@.parameters,
            pv.len() == h.parameters@.len(),
            params_keys_ok(pv) == params_keys_ok(pv.skip(i as int)),
        decreases h.parameters@.len() - i,
    {
        proof {
            assert(pv.skip(i as int)[0] == pv[i as int]);
            assert(pv[i as int] == h.parameters@[i as int]@);
            assert(pv.skip(i as int).drop_first() =~= pv.skip(i + 1));
        }
        if !check_keys_ok(&h.parameters[i].api_type) {
            return false;
        }
        i = i + 1;
    }
    proof {
        assert(pv.skip(i as int).len() == 0);
    }
    true
}

/// Tests that every response type carries non-empty property names.
#[verifier::loop_isolation(false)]
fn check_resps_keys(h: &SpecHandlerType) -> (r: bool)
    ensures
        r == resps_keys_ok(h@.responses),
{
    let entries = h.responses.entries_ref();
    let ghost rv = h@.responses;
    let mut i: usize = 0;
    proof {
        assert(rv.skip(0) =~= rv);
        assert(rv.len() == h.responses.kv_seq().len());
    }
    while i < entries.len()
        invariant
            0 <= i <= entries@.len(),
            entries@ == h.responses.kv_seq(),
            rv == h@.responses,
            rv.len() == entries@.len(),
            resps_keys_ok(rv) == resps_keys_ok(rv.skip(i as int)),
        decreases entries@.len() - i,
    {
        proof {
            assert(rv.skip(i as int)[0] == rv[i as int]);
            assert(rv[i as int] == (entries@[i as int].0, entries@[i as int].1@));
            assert(rv.skip(i as int).drop_first() =~= rv.skip(i + 1));
        }
        if !check_keys_ok(&entries[i].1) {
            return false;
        }
        i = i + 1;
    }
    proof {
        assert(rv.skip(i as int).len() == 0);
    }
    true
}

/// Generates the module text for one named operation of a resolved
/// document. A URL or method the document does not declare is refused,
/// naming it; so is a handler whose types carry an empty property name.
pub fn generate_operation(
    spec: &SpecOpenApi,
    name_in_file: String,
    url: String,
    method: OpenApiMethod,
) -> (r: Result<String, ErrorProcess>)
    ensures
        match r {
            Ok(out) => operation_spec(spec@, name_in_file@, url@, method) == Some(out@),
            Err(e) => operation_spec(spec@, name_in_file@, url@, method) is None && e is Message,
        },
{
    proof {
        lemma_find_path_commute(spec.paths.kv_seq(), url@);
    }
    let sub_spec = match spec.paths.get(&url) {
        Some(s) => s,
        None => {
            let mut m = String::from_str("no path in the specification ");
            m.append(url.as_str());
            return Err(ErrorProcess::Message(m));
        },
    };
    proof {
        lemma_find_method_commute(sub_spec.kv_seq(), method);
    }
    let handler = match sub_spec.get(&method) {
        Some(h) => h,
        None => {
            let mut m = String::from_str("no method in the specification ");
            m.append(url.as_str());
            m.append(" ");
            m.append(method.to_lower_case().as_str());
            return Err(ErrorProcess::Message(m));
        },
    };
    if !check_params_keys(handler) {
        return Err(
            ErrorProcess::Message(
                String::from_str("a property name in a parameter type is empty"),
            ),
        );
    }
    if !check_resps_keys(handler) {
        return Err(
            ErrorProcess::Message(
                String::from_str("a property name in a response type is empty"),
            ),
        );
    }
    match generate_js(name_in_file, url, method, handler) {
        Ok(out) => Ok(out),
        Err(e) => Err(e),
    }
}

} // verus!
