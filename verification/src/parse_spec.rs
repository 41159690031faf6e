use vstd::prelude::*;
use crate::document::{parse_file, parsed_doc};
use crate::error_process::ErrorProcess;
use crate::filters::{filter_deref, filter_null, norm_spec, strip_nulls, DEREF_FUEL};
use crate::json::{arr_view, entries_view, obj_lookup, Json, JsonV};
use crate::open_api_spec::{has_param_name, lemma_m_contains_commute, lemma_m_insert_commute,
    lemma_p_contains_commute, lemma_p_insert_commute, lemma_resp_contains_commute,
    lemma_resp_insert_commute, m_insert, m_present, method_of, methods_view, p_insert, p_present,
    param_in_of, paths_view, resp_insert, resp_present, HandlerV, OpenApiMethod, ParamV,
    SpecHandlerType, SpecOpenApi};
use crate::parse_type::{parse_type, resolve_spec};
use crate::text::parse_u16_spec;
use crate::open_api_type::TypeV;
use crate::utils::{OrderHashMap, SortKey};

verus! {

/// The resolver's budget for one document: deeper nesting or longer
/// pointer chains than this are treated as an error.
pub const RESOLVE_FUEL: u64 = 1048576;

/// A field read the way the decoders read optional fields: an explicit null
/// counts as absent.
pub open spec fn opt_field(j: JsonV, key: Seq<char>) -> Option<JsonV> {
    match obj_lookup(j, key) {
        Some(JsonV::Null) => None,
        other => other,
    }
}

/// Appends one parameter: a name already present, or an unknown location
/// token, is a fatal error.
pub open spec fn add_param_spec(
    params: Seq<ParamV>,
    name: Seq<char>,
    loc: Seq<char>,
    t: TypeV,
    required: bool,
) -> Option<Seq<ParamV>> {
    if has_param_name(params, name) {
        None
    } else {
        match param_in_of(loc) {
            None => None,
            Some(w) => Some(
                params.push(ParamV { where_in: w, name, api_type: t.with_req(required) }),
            ),
        }
    }
}

/// The optional `required` flag of a parameter or body node; anything but a
/// boolean (or an absent or null field) is a fatal error.
pub open spec fn req_flag(j: JsonV) -> Option<bool> {
    match obj_lookup(j, "required"@) {
        None => Some(false),
        Some(JsonV::Null) => Some(false),
        Some(JsonV::Bool(b)) => Some(b),
        Some(_) => None,
    }
}

/// Each declared parameter in order: its name, location and `required`
/// declaration are read from the node, and the node itself is resolved into
/// its type.
pub open spec fn params_fold(
    items: Seq<JsonV>,
    all: JsonV,
    fuel: nat,
    acc: Seq<ParamV>,
) -> Option<Seq<ParamV>>
    decreases items,
{
    if items.len() == 0 {
        Some(acc)
    } else {
        let p = items[0];
        if !(p is Obj) {
            None
        } else {
            match obj_lookup(p, "name"@) {
                Some(JsonV::Text(n)) => match obj_lookup(p, "in"@) {
                    Some(JsonV::Text(l)) => match req_flag(p) {
                        None => None,
                        Some(required) => match resolve_spec(p, all, fuel) {
                            None => None,
                            Some(t) => match add_param_spec(acc, n, l, t, required) {
                                None => None,
                                Some(acc2) => params_fold(items.drop_first(), all, fuel, acc2),
                            },
                        },
                    },
                    _ => None,
                },
                _ => None,
            }
        }
    }
}

/// The optional request body: resolved and appended as the `requestBody`
/// parameter in the `body` location.
pub open spec fn body_fold(j: JsonV, all: JsonV, fuel: nat, acc: Seq<ParamV>) -> Option<
    Seq<ParamV>,
> {
    match opt_field(j, "requestBody"@) {
        None => Some(acc),
        Some(rb) => {
            if !(rb is Obj) {
                None
            } else {
                match req_flag(rb) {
                    None => None,
                    Some(required) => match resolve_spec(rb, all, fuel) {
                        None => None,
                        Some(t) => add_param_spec(acc, "requestBody"@, "body"@, t, required),
                    },
                }
            }
        },
    }
}

/// Each declared response in order: the code read as a decimal status, the
/// node resolved into its type; a code that is no status, or one bound
/// twice, is a fatal error.
pub open spec fn resp_fold(
    entries: Seq<(Seq<char>, JsonV)>,
    all: JsonV,
    fuel: nat,
    acc: Seq<(u16, TypeV)>,
) -> Option<Seq<(u16, TypeV)>>
    decreases entries,
{
    if entries.len() == 0 {
        Some(acc)
    } else {
        match parse_u16_spec(entries[0].0) {
            None => None,
            Some(c) => match resolve_spec(entries[0].1, all, fuel) {
                None => None,
                Some(t) => {
                    if resp_present(acc, c) {
                        None
                    } else {
                        resp_fold(entries.drop_first(), all, fuel, resp_insert(acc, c, t))
                    }
                },
            },
        }
    }
}

/// The operation model of one path+method node: its parameters, its request
/// body, and its response map.
pub open spec fn handler_spec(j: JsonV, all: JsonV, fuel: nat) -> Option<HandlerV> {
    if !(j is Obj) {
        None
    } else {
        let p0 = match opt_field(j, "parameters"@) {
            None => Some(Seq::<ParamV>::empty()),
            Some(JsonV::Arr(items)) => params_fold(items, all, fuel, Seq::empty()),
            Some(_) => None,
        };
        match p0 {
            None => None,
            Some(ps1) => match body_fold(j, all, fuel, ps1) {
                None => None,
                Some(ps2) => {
                    let r0 = match opt_field(j, "responses"@) {
                        None => Some(Seq::<(u16, TypeV)>::empty()),
                        Some(JsonV::Obj(res)) => resp_fold(res, all, fuel, Seq::empty()),
                        Some(_) => None,
                    };
                    match r0 {
                        None => None,
                        Some(rs) => Some(HandlerV { parameters: ps2, responses: rs }),
                    }
                },
            },
        }
    }
}

/// Reads the optional `required` flag of a node.
fn read_req_flag(j: &Json) -> (r: Result<bool, ErrorProcess>)
    ensures
        match r {
            Ok(b) => req_flag(j@) == Some(b),
            Err(e) => req_flag(j@) is None && e is Message,
        },
{
    match crate::json::json_get(j, "required") {
        None => Ok(false),
        Some(v) => match v {
            Json::Null => Ok(false),
            Json::Bool(b) => Ok(*b),
            _ => Err(
                ErrorProcess::Message(
                    String::from_str("the required flag must be a boolean"),
                ),
            ),
        },
    }
}

/// Builds the operation model of one path+method node, resolving each
/// parameter, the request body and each response. Every error is fatal for
/// the operation: a duplicate parameter name or response code, an unknown
/// location token, a malformed declaration, or a node no shape matcher
/// accepts.
#[verifier::loop_isolation(false)]
pub fn parse_handler(body_raw: &Json, spec: &Json, fuel: u64) -> (r: Result<
    SpecHandlerType,
    ErrorProcess,
>)
    ensures
        match r {
            Ok(h) => handler_spec(body_raw@, spec@, fuel as nat) == Some(h@) && h.wf(),
            Err(e) => handler_spec(body_raw@, spec@, fuel as nat) is None && e is Message,
        },
{
    let node_is_obj = match body_raw {
        Json::Obj(_) => true,
        _ => false,
    };
    if !node_is_obj {
        return Err(
            ErrorProcess::Message(String::from_str("an operation must be an object node")),
        );
    }
    let mut result = SpecHandlerType::new();
    proof {
        assert(result@.parameters =~= Seq::<ParamV>::empty());
        assert(result@.responses =~= Seq::<(u16, TypeV)>::empty());
    }
    // parameters
    let params_node = crate::json::json_get(body_raw, "parameters");
    match params_node {
        None => {
        },
        Some(pn) => {
            match pn {
                Json::Null => {
                },
                Json::Arr(items) => {
                    let ghost iv = arr_view(items@);
                    let mut i: usize = 0;
                    proof {
                        assert(iv.skip(0) =~= iv);
                    }
                    while i < items.len()
                        invariant
                            0 <= i <= items@.len(),
                            result.wf(),
                            result@.responses == Seq::<(u16, TypeV)>::empty(),
                            params_fold(iv, spec@, fuel as nat, Seq::empty()) == params_fold(
                                iv.skip(i as int),
                                spec@,
                                fuel as nat,
                                result@.parameters,
                            ),
                        decreases items@.len() - i,
                    {
                        proof {
                            assert(iv.skip(i as int)[0] == iv[i as int]);
                            assert(iv[i as int] == items@[i as int]@);
                            assert(iv.skip(i as int).drop_first() =~= iv.skip(i + 1));
                        }
                        let item = &items[i];
                        let item_is_obj = match item {
                            Json::Obj(_) => true,
                            _ => false,
                        };
                        if !item_is_obj {
                            return Err(
                                ErrorProcess::Message(
                                    String::from_str("a parameter must be an object node"),
                                ),
                            );
                        }
                        let n = match crate::json::json_get(item, "name") {
                            Some(Json::Text(n)) => n,
                            _ => {
                                return Err(
                                    ErrorProcess::Message(
                                        String::from_str("a parameter needs a name"),
                                    ),
                                );
                            },
                        };
                        let l = match crate::json::json_get(item, "in") {
                            Some(Json::Text(l)) => l,
                            _ => {
                                return Err(
                                    ErrorProcess::Message(
                                        String::from_str("a parameter needs a location"),
                                    ),
                                );
                            },
                        };
                        let required = match read_req_flag(item) {
                            Ok(b) => b,
                            Err(e) => {
                                return Err(e);
                            },
                        };
                        let t = match parse_type(item, spec, fuel) {
                            Ok(t) => t,
                            Err(e) => {
                                return Err(e);
                            },
                        };
                        let res = result.add_param(n.clone(), l.clone(), t, required);
                        match res {
                            Ok(_) => {
                            },
                            Err(e) => {
                                return Err(e);
                            },
                        }
                        i = i + 1;
                    }
                    proof {
                        assert(iv.skip(i as int).len() == 0);
                    }
                },
                _ => {
                    return Err(
                        ErrorProcess::Message(
                            String::from_str("the parameters field must be a list"),
                        ),
                    );
                },
            }
        },
    }
    // request body
    let rb_node = crate::json::json_get(body_raw, "requestBody");
    match rb_node {
        None => {
        },
        Some(rb) => {
            match rb {
                Json::Null => {
                },
                Json::Obj(_) => {
                    let required = match read_req_flag(rb) {
                        Ok(b) => b,
                        Err(e) => {
                            return Err(e);
                        },
                    };
                    let t = match parse_type(rb, spec, fuel) {
                        Ok(t) => t,
                        Err(e) => {
                            return Err(e);
                        },
                    };
                    let res = result.add_param(
                        String::from_str("requestBody"),
                        String::from_str("body"),
                        t,
                        required,
                    );
                    match res {
                        Ok(_) => {
                        },
                        Err(e) => {
                            return Err(e);
                        },
                    }
                },
                _ => {
                    return Err(
                        ErrorProcess::Message(
                            String::from_str("the request body must be an object node"),
                        ),
                    );
                },
            }
        },
    }
    // responses
    let resp_node = crate::json::json_get(body_raw, "responses");
    match resp_node {
        None => {
        },
        Some(rn) => {
            match rn {
                Json::Null => {
                },
                Json::Obj(res) => {
                    let ghost rv = entries_view(res@);
                    let ghost ps2 = result@.parameters;
                    let mut i: usize = 0;
                    proof {
                        assert(rv.skip(0) =~= rv);
                    }
                    while i < res.len()
                        invariant
                            0 <= i <= res@.len(),
                            result.wf(),
                            result@.parameters == ps2,
                            resp_fold(rv, spec@, fuel as nat, Seq::empty()) == resp_fold(
                                rv.skip(i as int),
                                spec@,
                                fuel as nat,
                                result@.responses,
                            ),
                        decreases res@.len() - i,
                    {
                        proof {
                            assert(rv.skip(i as int)[0] == rv[i as int]);
                            assert(rv[i as int] == (res@[i as int].0@, res@[i as int].1@));
                            assert(rv.skip(i as int).drop_first() =~= rv.skip(i + 1));
                        }
                        let e = &res[i];
                        let t = match parse_type(&e.1, spec, fuel) {
                            Ok(t) => t,
                            Err(err) => {
                                return Err(err);
                            },
                        };
                        let ghost okv = result.responses.kv_seq();
                        let resr = result.add_response(e.0.clone(), t);
                        match resr {
                            Ok(_) => {
                                proof {
                                    let c = parse_u16_spec(rv[i as int].0).unwrap();
                                    lemma_resp_contains_commute(okv, c);
                                    lemma_resp_insert_commute(okv, c, t@);
                                }
                            },
                            Err(err) => {
                                proof {
                                    if parse_u16_spec(rv[i as int].0) is Some {
                                        lemma_resp_contains_commute(
                                            okv,
                                            parse_u16_spec(rv[i as int].0).unwrap(),
                                        );
                                    }
                                }
                                return Err(err);
                            },
                        }
                        i = i + 1;
                    }
                    proof {
                        assert(rv.skip(i as int).len() == 0);
                    }
                },
                _ => {
                    return Err(
                        ErrorProcess::Message(
                            String::from_str("the responses field must be an object node"),
                        ),
                    );
                },
            }
        },
    }
    Ok(result)
}

/// Each method of one path in order: an unknown method token is fatal, a
/// null method body is skipped, a method bound twice is fatal.
pub open spec fn methods_fold(
    mes: Seq<(Seq<char>, JsonV)>,
    all: JsonV,
    fuel: nat,
    acc: Seq<(OpenApiMethod, HandlerV)>,
) -> Option<Seq<(OpenApiMethod, HandlerV)>>
    decreases mes,
{
    if mes.len() == 0 {
        Some(acc)
    } else if mes[0].1 is Null {
        methods_fold(mes.drop_first(), all, fuel, acc)
    } else {
        match method_of(mes[0].0) {
            None => None,
            Some(m) => match handler_spec(mes[0].1, all, fuel) {
                None => None,
                Some(h) => {
                    if m_present(acc, m) {
                        None
                    } else {
                        methods_fold(mes.drop_first(), all, fuel, m_insert(acc, m, h))
                    }
                },
            },
        }
    }
}

/// Each path of the document in order: a path body that is no object, or a
/// path bound twice, is fatal.
pub open spec fn paths_fold(
    pes: Seq<(Seq<char>, JsonV)>,
    all: JsonV,
    fuel: nat,
    acc: Seq<(Seq<char>, Seq<(OpenApiMethod, HandlerV)>)>,
) -> Option<Seq<(Seq<char>, Seq<(OpenApiMethod, HandlerV)>)>>
    decreases pes,
{
    if pes.len() == 0 {
        Some(acc)
    } else {
        match pes[0].1 {
            JsonV::Obj(mes) => match methods_fold(mes, all, fuel, Seq::empty()) {
                None => None,
                Some(ms) => {
                    if p_present(acc, pes[0].0) {
                        None
                    } else {
                        paths_fold(pes.drop_first(), all, fuel, p_insert(acc, pes[0].0, ms))
                    }
                },
            },
            _ => None,
        }
    }
}

/// What assembling a whole document text yields: the text read as JSON or
/// YAML, dereferenced against itself, stripped of nulls, and its `paths`
/// object folded into the path model.
pub open spec fn parse_spec_spec(s: Seq<char>) -> Option<
    Seq<(Seq<char>, Seq<(OpenApiMethod, HandlerV)>)>,
> {
    match parsed_doc(s) {
        None => None,
        Some(raw) => match norm_spec(raw, raw, DEREF_FUEL as nat) {
            None => None,
            Some(d) => {
                let n = strip_nulls(d);
                match obj_lookup(n, "paths"@) {
                    Some(JsonV::Obj(pes)) => paths_fold(pes, n, RESOLVE_FUEL as nat, Seq::empty()),
                    _ => None,
                }
            },
        },
    }
}

/// Reads a whole document text into the resolved path model: normalizer,
/// resolver and assembler in one step. Every error is fatal for the
/// document.
#[verifier::loop_isolation(false)]
pub fn parse_spec(data: &str) -> (r: Result<SpecOpenApi, ErrorProcess>)
    ensures
        match r {
            Ok(s) => parse_spec_spec(data@) == Some(s@) && s.paths.wf(),
            Err(e) => parse_spec_spec(data@) is None && (e is Message || e is Format) && ((e
                is Format) <==> parsed_doc(data@) is None),
        },
{
    let j = match parse_file(data) {
        Ok(j) => j,
        Err(e) => {
            return Err(e);
        },
    };
    let d = match filter_deref(&j) {
        Ok(d) => d,
        Err(e) => {
            return Err(e);
        },
    };
    let n = filter_null(&d);
    let pes = match crate::json::json_get(&n, "paths") {
        Some(Json::Obj(pes)) => pes,
        _ => {
            return Err(
                ErrorProcess::Message(
                    String::from_str("the document needs a paths object"),
                ),
            );
        },
    };
    let ghost pv = entries_view(pes@);
    let ghost nv = n@;
    let mut paths: OrderHashMap<String, OrderHashMap<OpenApiMethod, SpecHandlerType>> =
        OrderHashMap::new();
    let mut i: usize = 0;
    proof {
        assert(pv.skip(0) =~= pv);
        assert(paths_view(paths.kv_seq()) =~= Seq::<
            (Seq<char>, Seq<(OpenApiMethod, HandlerV)>),
        >::empty());
    }
    while i < pes.len()
        invariant
            0 <= i <= pes@.len(),
            paths.wf(),
            paths_fold(pv, nv, RESOLVE_FUEL as nat, Seq::empty()) == paths_fold(
                pv.skip(i as int),
                nv,
                RESOLVE_FUEL as nat,
                paths_view(paths.kv_seq()),
            ),
        decreases pes@.len() - i,
    {
        proof {
            assert(pv.skip(i as int)[0] == pv[i as int]);
            assert(pv[i as int] == (pes@[i as int].0@, pes@[i as int].1@));
            assert(pv.skip(i as int).drop_first() =~= pv.skip(i + 1));
        }
        let pe = &pes[i];
        let mes = match &pe.1 {
            Json::Obj(mes) => mes,
            _ => {
                return Err(
                    ErrorProcess::Message(
                        String::from_str("a path body must be an object node"),
                    ),
                );
            },
        };
        let ghost mv = entries_view(mes@);
        let mut inner: OrderHashMap<OpenApiMethod, SpecHandlerType> = OrderHashMap::new();
        let mut k: usize = 0;
        proof {
            assert(mv.skip(0) =~= mv);
            assert(methods_view(inner.kv_seq()) =~= Seq::<(OpenApiMethod, HandlerV)>::empty());
        }
        while k < mes.len()
            invariant
                0 <= k <= mes@.len(),
                inner.wf(),
                mv == entries_view(mes@),
                methods_fold(mv, nv, RESOLVE_FUEL as nat, Seq::empty()) == methods_fold(
                    mv.skip(k as int),
                    nv,
                    RESOLVE_FUEL as nat,
                    methods_view(inner.kv_seq()),
                ),
            decreases mes@.len() - k,
        {
            proof {
                assert(mv.skip(k as int)[0] == mv[k as int]);
                assert(mv[k as int] == (mes@[k as int].0@, mes@[k as int].1@));
                assert(mv.skip(k as int).drop_first() =~= mv.skip(k + 1));
            }
            let me = &mes[k];
            if !me.1.is_null() {
                let m = match OpenApiMethod::from_string(me.0.clone()) {
                    Ok(m) => m,
                    Err(e) => {
                        return Err(e);
                    },
                };
                let h = match parse_handler(&me.1, &n, RESOLVE_FUEL) {
                    Ok(h) => h,
                    Err(e) => {
                        return Err(e);
                    },
                };
                let ghost okv = inner.kv_seq();
                let ghost hv = h@;
                let res = inner.expect_insert(m, h);
                match res {
                    Ok(_) => {
                        proof {
                            lemma_m_contains_commute(okv, m);
                            lemma_m_insert_commute(okv, m, hv);
                        }
                    },
                    Err(e) => {
                        proof {
                            lemma_m_contains_commute(okv, m);
                        }
                        return Err(e);
                    },
                }
            }
            k = k + 1;
        }
        proof {
            assert(mv.skip(k as int).len() == 0);
        }
        let ghost okv = paths.kv_seq();
        let ghost msv = methods_view(inner.kv_seq());
        let res = paths.expect_insert(pe.0.clone(), inner);
        match res {
            Ok(_) => {
                proof {
                    lemma_p_contains_commute(okv, pv[i as int].0);
                    lemma_p_insert_commute(okv, pv[i as int].0, msv);
                }
            },
            Err(e) => {
                proof {
                    lemma_p_contains_commute(okv, pv[i as int].0);
                }
                return Err(e);
            },
        }
        i = i + 1;
    }
    proof {
        assert(pv.skip(i as int).len() == 0);
        assert(obj_lookup(n@, "paths"@) == Some(JsonV::Obj(pv)));
    }
    Ok(SpecOpenApi { paths })
}

} // verus!
