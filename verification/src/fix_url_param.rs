use vstd::prelude::*;
use crate::error_process::ErrorProcess;
use crate::open_api_spec::{clone_handler, methods_view, p_insert, p_present, paths_view, HandlerV,
    OpenApiMethod, ParamIn, ParamV, ParametersType, SpecHandlerType, SpecOpenApi};
use crate::open_api_type::{OpenApiType, TypeV};
use crate::read_wanted_spec::WantedMethod;
use crate::text::{push_char, split_chars, split_str, str_eq};
use crate::utils::OrderHashMap;

verus! {

/// One URL segment under the rewrite: the literal segment becomes the named
/// placeholder, everything else stays.
pub open spec fn fixed_seg(seg: Seq<char>, from: Seq<char>, to: Seq<char>) -> Seq<char> {
    if seg == from {
        seq!['{'] + to + seq!['}']
    } else {
        seg
    }
}

/// The rewritten URL: each `/`-separated segment mapped, joined back.
pub open spec fn fix_url_spec(url: Seq<char>, from: Seq<char>, to: Seq<char>) -> Seq<char> {
    fix_url_parts(split_chars(url, '/'), from, to)
}

pub open spec fn fix_url_parts(parts: Seq<Seq<char>>, from: Seq<char>, to: Seq<char>) -> Seq<char>
    decreases parts, 0int,
{
    if parts.len() == 0 {
        Seq::empty()
    } else {
        fixed_seg(parts[0], from, to) + fix_url_tail(parts.drop_first(), from, to)
    }
}

pub open spec fn fix_url_tail(parts: Seq<Seq<char>>, from: Seq<char>, to: Seq<char>) -> Seq<char>
    decreases parts, 1int,
{
    if parts.len() == 0 {
        Seq::empty()
    } else {
        seq!['/'] + fixed_seg(parts[0], from, to) + fix_url_tail(parts.drop_first(), from, to)
    }
}

/// Rewrites a URL: every segment equal to the literal becomes the named
/// placeholder.
#[verifier::loop_isolation(false)]
pub fn fix_url(url: &String, param_from: &String, param_to: &String) -> (r: String)
    ensures
        r@ == fix_url_spec(url@, param_from@, param_to@),
{
    let parts = split_str(url.as_str(), '/');
    let ghost pv = parts.deep_view();
    let mut r = String::new();
    let mut i: usize = 0;
    proof {
        assert(pv.skip(0) =~= pv);
    }
    while i < parts.len()
        invariant
            0 <= i <= parts@.len(),
            pv.len() == parts@.len(),
            i == 0 ==> r@ == Seq::<char>::empty() && fix_url_parts(pv, param_from@, param_to@)
                == r@ + fix_url_parts(pv.skip(0), param_from@, param_to@),
            i > 0 ==> fix_url_parts(pv, param_from@, param_to@) == r@ + fix_url_tail(
                pv.skip(i as int),
                param_from@,
                param_to@,
            ),
        decreases parts@.len() - i,
    {
        proof {
            assert(pv.skip(i as int)[0] == pv[i as int]);
            assert(pv[i as int] == parts@[i as int]@);
            assert(pv.skip(i as int).drop_first() =~= pv.skip(i + 1));
        }
        let ghost r0 = r@;
        if i > 0 {
            push_char(&mut r, '/');
        }
        if str_eq(parts[i].as_str(), param_from.as_str()) {
            push_char(&mut r, '{');
            r.append(param_to.as_str());
            push_char(&mut r, '}');
        } else {
            r.append(parts[i].as_str());
        }
        proof {
            let q = fixed_seg(pv[i as int], param_from@, param_to@);
            if i == 0 {
                assert(r@ =~= q);
                assert(fix_url_parts(pv, param_from@, param_to@) == q + fix_url_tail(
                    pv.skip(1),
                    param_from@,
                    param_to@,
                ));
            } else {
                assert(r@ =~= r0 + (seq!['/'] + q));
                assert(fix_url_tail(pv.skip(i as int), param_from@, param_to@) == seq!['/'] + q
                    + fix_url_tail(pv.skip(i + 1), param_from@, param_to@));
                assert(r0 + (seq!['/'] + q + fix_url_tail(pv.skip(i + 1), param_from@, param_to@))
                    =~= (r0 + (seq!['/'] + q)) + fix_url_tail(
                    pv.skip(i + 1),
                    param_from@,
                    param_to@,
                ));
            }
        }
        i = i + 1;
    }
    proof {
        crate::utils::lemma_split_chars_nonempty(url@, '/');
        assert(pv.skip(i as int).len() == 0);
        assert(fix_url_tail(pv.skip(i as int), param_from@, param_to@) =~= Seq::<char>::empty());
        assert(r@ + Seq::<char>::empty() =~= r@);
    }
    r
}

/// The handlers of an affected path, each given one more parameter: a
/// required string path parameter under the placeholder's name.
pub open spec fn inject_param(ms: Seq<(OpenApiMethod, HandlerV)>, to: Seq<char>) -> Seq<
    (OpenApiMethod, HandlerV),
> {
    Seq::new(
        ms.len(),
        |i: int|
            if 0 <= i < ms.len() {
                (
                    ms[i].0,
                    HandlerV {
                        parameters: ms[i].1.parameters.push(
                            ParamV {
                                where_in: ParamIn::Path,
                                name: to,
                                api_type: TypeV::String { required: true },
                            },
                        ),
                        responses: ms[i].1.responses,
                    },
                )
            } else {
                (OpenApiMethod::Get, HandlerV { parameters: Seq::empty(), responses: Seq::empty() })
            },
    )
}

/// Copies a path's handlers, appending the injected path parameter to each.
#[verifier::loop_isolation(false)]
pub fn correct_handlers(
    handlers: &OrderHashMap<OpenApiMethod, SpecHandlerType>,
    param_to: &String,
) -> (r: OrderHashMap<OpenApiMethod, SpecHandlerType>)
    ensures
        methods_view(r.kv_seq()) == inject_param(methods_view(handlers.kv_seq()), param_to@),
{
    let entries = handlers.entries_ref();
    let mut out: Vec<(OpenApiMethod, SpecHandlerType)> = Vec::new();
    let mut i: usize = 0;
    while i < entries.len()
        invariant
            0 <= i <= entries@.len(),
            entries@ == handlers.kv_seq(),
            out@.len() == i,
            forall|k: int|
                0 <= k < i ==> (#[trigger] out@[k]).0 == entries@[k].0 && out@[k].1@ == (HandlerV {
                    parameters: entries@[k].1@.parameters.push(
                        ParamV {
                            where_in: ParamIn::Path,
                            name: param_to@,
                            api_type: TypeV::String { required: true },
                        },
                    ),
                    responses: entries@[k].1@.responses,
                }),
        decreases entries@.len() - i,
    {
        let e = &entries[i];
        let mut h = clone_handler(&e.1);
        h.parameters.push(
            ParametersType {
                where_in: ParamIn::Path,
                name: param_to.clone(),
                api_type: OpenApiType::String { required: true },
            },
        );
        proof {
            assert(crate::open_api_spec::params_view(h.parameters@) =~= entries@[i as int].1@
                .parameters.push(
                ParamV {
                    where_in: ParamIn::Path,
                    name: param_to@,
                    api_type: TypeV::String { required: true },
                },
            ));
        }
        out.push((e.0, h));
        i = i + 1;
    }
    let r = OrderHashMap::from_entries(out);
    proof {
        assert(methods_view(r.kv_seq()) =~= inject_param(
            methods_view(handlers.kv_seq()),
            param_to@,
        ));
    }
    r
}

/// Each path of the document under the rewrite: an unchanged path keeps its
/// handlers, a rewritten one gets the injected parameter; two paths falling
/// together is a fatal error.
pub open spec fn fixed_paths_fold(
    ps: Seq<(Seq<char>, Seq<(OpenApiMethod, HandlerV)>)>,
    from: Seq<char>,
    to: Seq<char>,
    acc: Seq<(Seq<char>, Seq<(OpenApiMethod, HandlerV)>)>,
) -> Option<Seq<(Seq<char>, Seq<(OpenApiMethod, HandlerV)>)>>
    decreases ps,
{
    if ps.len() == 0 {
        Some(acc)
    } else {
        let np = fix_url_spec(ps[0].0, from, to);
        let body = if np == ps[0].0 {
            ps[0].1
        } else {
            inject_param(ps[0].1, to)
        };
        if p_present(acc, np) {
            None
        } else {
            fixed_paths_fold(ps.drop_first(), from, to, p_insert(acc, np, body))
        }
    }
}

/// An insertion binds exactly the old URLs and the new one.
proof fn lemma_p_insert_keys(
    ps: Seq<(Seq<char>, Seq<(OpenApiMethod, HandlerV)>)>,
    name: Seq<char>,
    ms: Seq<(OpenApiMethod, HandlerV)>,
)
    ensures
        forall|k: Seq<char>|
            #[trigger] p_present(p_insert(ps, name, ms), k) == (p_present(ps, k) || k == name),
    decreases ps.len(),
{
    let r = p_insert(ps, name, ms);
    assert forall|k: Seq<char>| #[trigger] p_present(r, k) == (p_present(ps, k) || k == name) by {
        let rk = r.map_values(|p: (Seq<char>, Seq<(OpenApiMethod, HandlerV)>)| p.0);
        let pk = ps.map_values(|p: (Seq<char>, Seq<(OpenApiMethod, HandlerV)>)| p.0);
        if ps.len() == 0 {
            assert(r == seq![(name, ms)]);
            assert(rk[0] == name);
            if p_present(r, k) {
                let i = choose|i: int| 0 <= i < rk.len() && rk[i] == k;
                assert(i == 0);
            }
            if k == name {
                assert(rk[0] == k);
            }
        } else if crate::text::str_lt(name, ps[0].0) {
            assert(r == seq![(name, ms)] + ps);
            assert(rk[0] == name);
            assert(forall|q: int| 0 <= q < ps.len() ==> rk[q + 1] == #[trigger] pk[q]);
            if p_present(r, k) {
                let i = choose|i: int| 0 <= i < rk.len() && rk[i] == k;
                if i > 0 {
                    assert(pk[i - 1] == k);
                }
            }
            if p_present(ps, k) {
                let i = choose|i: int| 0 <= i < pk.len() && pk[i] == k;
                assert(rk[i + 1] == k);
            }
            if k == name {
                assert(rk[0] == k);
            }
        } else {
            lemma_p_insert_keys(ps.drop_first(), name, ms);
            let tail = p_insert(ps.drop_first(), name, ms);
            let tk = tail.map_values(|p: (Seq<char>, Seq<(OpenApiMethod, HandlerV)>)| p.0);
            let dk = ps.drop_first().map_values(
                |p: (Seq<char>, Seq<(OpenApiMethod, HandlerV)>)| p.0,
            );
            assert(r == seq![ps[0]] + tail);
            assert(rk[0] == ps[0].0);
            assert(pk[0] == ps[0].0);
            assert(forall|q: int| 0 <= q < tail.len() ==> rk[q + 1] == #[trigger] tk[q]);
            assert(forall|q: int| 0 <= q < ps.drop_first().len() ==> pk[q + 1] == #[trigger] dk[q]);
            assert(p_present(tail, k) == (p_present(ps.drop_first(), k) || k == name));
            if p_present(r, k) {
                let i = choose|i: int| 0 <= i < rk.len() && rk[i] == k;
                if i > 0 {
                    assert(tk[i - 1] == k);
                    assert(p_present(tail, k));
                    if p_present(ps.drop_first(), k) {
                        let q = choose|q: int| 0 <= q < dk.len() && dk[q] == k;
                        assert(pk[q + 1] == k);
                    }
                }
            }
            if p_present(ps, k) {
                let i = choose|i: int| 0 <= i < pk.len() && pk[i] == k;
                if i > 0 {
                    assert(dk[i - 1] == k);
                    assert(p_present(tail, k));
                    let q = choose|q: int| 0 <= q < tk.len() && tk[q] == k;
                    assert(rk[q + 1] == k);
                }
            }
            if k == name {
                assert(p_present(tail, k));
                let q = choose|q: int| 0 <= q < tk.len() && tk[q] == k;
                assert(rk[q + 1] == k);
            }
        }
    }
}

/// Inserting a fresh URL binds it to the new handlers and leaves every
/// other URL's binding alone.
proof fn lemma_p_insert_find(
    ps: Seq<(Seq<char>, Seq<(OpenApiMethod, HandlerV)>)>,
    name: Seq<char>,
    ms: Seq<(OpenApiMethod, HandlerV)>,
)
    requires
        !p_present(ps, name),
    ensures
        crate::run_gen::find_path(p_insert(ps, name, ms), name) == Some(ms),
        forall|k: Seq<char>|
            k != name ==> #[trigger] crate::run_gen::find_path(p_insert(ps, name, ms), k)
                == crate::run_gen::find_path(ps, k),
    decreases ps.len(),
{
    let r = p_insert(ps, name, ms);
    let pk = ps.map_values(|p: (Seq<char>, Seq<(OpenApiMethod, HandlerV)>)| p.0);
    if ps.len() == 0 {
        assert(r == seq![(name, ms)]);
        assert(r[0] == (name, ms));
        assert(r.drop_first() =~= ps);
    } else if crate::text::str_lt(name, ps[0].0) {
        assert(r == seq![(name, ms)] + ps);
        assert(r[0] == (name, ms));
        assert(r.drop_first() =~= ps);
    } else {
        assert(pk[0] == ps[0].0);
        assert(ps[0].0 != name);
        assert(!p_present(ps.drop_first(), name)) by {
            if p_present(ps.drop_first(), name) {
                let dk = ps.drop_first().map_values(
                    |p: (Seq<char>, Seq<(OpenApiMethod, HandlerV)>)| p.0,
                );
                let q = choose|q: int| 0 <= q < dk.len() && dk[q] == name;
                assert(pk[q + 1] == name);
            }
        }
        lemma_p_insert_find(ps.drop_first(), name, ms);
        let tail = p_insert(ps.drop_first(), name, ms);
        assert(r == seq![ps[0]] + tail);
        assert(r[0] == ps[0]);
        assert(r.drop_first() =~= tail);
        assert forall|k: Seq<char>| k != name implies #[trigger] crate::run_gen::find_path(r, k)
            == crate::run_gen::find_path(ps, k) by {
            if k != ps[0].0 {
                assert(crate::run_gen::find_path(r, k) == crate::run_gen::find_path(tail, k));
                assert(crate::run_gen::find_path(ps, k) == crate::run_gen::find_path(
                    ps.drop_first(),
                    k,
                ));
            }
        }
    }
}

/// Whether some path of the input rewrites to the given URL.
pub open spec fn ps_maps_to(
    ps: Seq<(Seq<char>, Seq<(OpenApiMethod, HandlerV)>)>,
    from: Seq<char>,
    to: Seq<char>,
    k: Seq<char>,
) -> bool {
    exists|i: int| 0 <= i < ps.len() && fix_url_spec((#[trigger] ps[i]).0, from, to) == k
}

/// A path's handlers after the rewrite: untouched when its URL is
/// unchanged, with the injected parameter otherwise.
pub open spec fn fixed_body(
    e: (Seq<char>, Seq<(OpenApiMethod, HandlerV)>),
    from: Seq<char>,
    to: Seq<char>,
) -> Seq<(OpenApiMethod, HandlerV)> {
    if fix_url_spec(e.0, from, to) == e.0 {
        e.1
    } else {
        inject_param(e.1, to)
    }
}

/// What the rewrite fold produces, entry by entry: the result binds a URL
/// exactly when the accumulator did or some path rewrites to it; URLs the
/// accumulator bound keep their binding; and every input path is found
/// under its rewritten URL, bound to its rewritten handlers.
pub proof fn lemma_fixed_paths_fold_find(
    ps: Seq<(Seq<char>, Seq<(OpenApiMethod, HandlerV)>)>,
    from: Seq<char>,
    to: Seq<char>,
    acc: Seq<(Seq<char>, Seq<(OpenApiMethod, HandlerV)>)>,
    out: Seq<(Seq<char>, Seq<(OpenApiMethod, HandlerV)>)>,
)
    requires
        fixed_paths_fold(ps, from, to, acc) == Some(out),
    ensures
        forall|k: Seq<char>|
            #[trigger] p_present(out, k) == (p_present(acc, k) || ps_maps_to(ps, from, to, k)),
        forall|k: Seq<char>|
            p_present(acc, k) ==> #[trigger] crate::run_gen::find_path(out, k)
                == crate::run_gen::find_path(acc, k),
        forall|i: int|
            0 <= i < ps.len() ==> #[trigger] crate::run_gen::find_path(
                out,
                fix_url_spec(ps[i].0, from, to),
            ) == Some(fixed_body(ps[i], from, to)),
    decreases ps.len(),
{
    if ps.len() == 0 {
        assert(out == acc);
        assert(forall|k: Seq<char>| !ps_maps_to(ps, from, to, k));
    } else {
        let np = fix_url_spec(ps[0].0, from, to);
        let body = fixed_body(ps[0], from, to);
        let acc2 = p_insert(acc, np, body);
        lemma_p_insert_keys(acc, np, body);
        lemma_p_insert_find(acc, np, body);
        lemma_fixed_paths_fold_find(ps.drop_first(), from, to, acc2, out);
        assert forall|k: Seq<char>| #[trigger] p_present(out, k) == (p_present(acc, k)
            || ps_maps_to(ps, from, to, k)) by {
            assert(p_present(out, k) == (p_present(acc2, k) || ps_maps_to(
                ps.drop_first(),
                from,
                to,
                k,
            )));
            assert(ps_maps_to(ps, from, to, k) == (np == k || ps_maps_to(
                ps.drop_first(),
                from,
                to,
                k,
            ))) by {
                if ps_maps_to(ps, from, to, k) {
                    let i = choose|i: int|
                        0 <= i < ps.len() && fix_url_spec((#[trigger] ps[i]).0, from, to) == k;
                    if i > 0 {
                        assert(ps.drop_first()[i - 1] == ps[i]);
                        assert(ps_maps_to(ps.drop_first(), from, to, k));
                    }
                }
                if ps_maps_to(ps.drop_first(), from, to, k) {
                    let i = choose|i: int|
                        0 <= i < ps.drop_first().len() && fix_url_spec(
                            (#[trigger] ps.drop_first()[i]).0,
                            from,
                            to,
                        ) == k;
                    assert(ps[i + 1] == ps.drop_first()[i]);
                    assert(ps_maps_to(ps, from, to, k));
                }
                if np == k {
                    assert(fix_url_spec(ps[0].0, from, to) == k);
                    assert(ps_maps_to(ps, from, to, k));
                }
            }
        }
        assert forall|k: Seq<char>| p_present(acc, k) implies #[trigger] crate::run_gen::find_path(
            out,
            k,
        ) == crate::run_gen::find_path(acc, k) by {
            assert(k != np);
            assert(p_present(acc2, k));
            assert(crate::run_gen::find_path(out, k) == crate::run_gen::find_path(acc2, k));
            assert(crate::run_gen::find_path(acc2, k) == crate::run_gen::find_path(acc, k));
        }
        assert forall|i: int| 0 <= i < ps.len() implies #[trigger] crate::run_gen::find_path(
            out,
            fix_url_spec(ps[i].0, from, to),
        ) == Some(fixed_body(ps[i], from, to)) by {
            if i == 0 {
                assert(p_present(acc2, np));
                assert(crate::run_gen::find_path(out, np) == crate::run_gen::find_path(acc2, np));
                assert(crate::run_gen::find_path(acc2, np) == Some(body));
            } else {
                assert(ps.drop_first()[i - 1] == ps[i]);
            }
        }
    }
}

/// The whole rewrite, path by path: a URL is bound in the rewritten
/// document exactly when some old path rewrites to it, and every old path
/// is found under its rewritten URL — its handlers untouched when the URL
/// did not change, and each handler given exactly the injected required
/// string path parameter when it did.
pub proof fn lemma_fix_url_param_paths(
    ps: Seq<(Seq<char>, Seq<(OpenApiMethod, HandlerV)>)>,
    from: Seq<char>,
    to: Seq<char>,
    out: Seq<(Seq<char>, Seq<(OpenApiMethod, HandlerV)>)>,
)
    requires
        fixed_paths_fold(ps, from, to, Seq::empty()) == Some(out),
    ensures
        forall|k: Seq<char>| #[trigger] p_present(out, k) == ps_maps_to(ps, from, to, k),
        forall|i: int|
            0 <= i < ps.len() ==> #[trigger] crate::run_gen::find_path(
                out,
                fix_url_spec(ps[i].0, from, to),
            ) == Some(fixed_body(ps[i], from, to)),
{
    lemma_fixed_paths_fold_find(ps, from, to, Seq::empty(), out);
    assert(forall|k: Seq<char>| !p_present(Seq::empty(), k)) by {
        assert(Seq::<(Seq<char>, Seq<(OpenApiMethod, HandlerV)>)>::empty().map_values(
            |p: (Seq<char>, Seq<(OpenApiMethod, HandlerV)>)| p.0,
        ).len() == 0);
    }
}

/// Rebuilds the path map under the rewrite.
#[verifier::loop_isolation(false)]
pub fn correc_spec_paths(
    paths: &OrderHashMap<String, OrderHashMap<OpenApiMethod, SpecHandlerType>>,
    param_from: &String,
    param_to: &String,
) -> (r: Result<OrderHashMap<String, OrderHashMap<OpenApiMethod, SpecHandlerType>>, ErrorProcess>)
    ensures
        match r {
            Ok(out) => fixed_paths_fold(
                paths_view(paths.kv_seq()),
                param_from@,
                param_to@,
                Seq::empty(),
            ) == Some(paths_view(out.kv_seq())) && out.wf(),
            Err(e) => fixed_paths_fold(
                paths_view(paths.kv_seq()),
                param_from@,
                param_to@,
                Seq::empty(),
            ) is None && e is Message,
        },
{
    let entries = paths.entries_ref();
    let ghost ps = paths_view(paths.kv_seq());
    let mut out: OrderHashMap<String, OrderHashMap<OpenApiMethod, SpecHandlerType>> =
        OrderHashMap::new();
    let mut i: usize = 0;
    proof {
        assert(ps.skip(0) =~= ps);
        assert(paths_view(out.kv_seq()) =~= Seq::<
            (Seq<char>, Seq<(OpenApiMethod, HandlerV)>),
        >::empty());
    }
    while i < entries.len()
        invariant
            0 <= i <= entries@.len(),
            entries@ == paths.kv_seq(),
            ps.len() == entries@.len(),
            out.wf(),
            fixed_paths_fold(ps, param_from@, param_to@, Seq::empty()) == fixed_paths_fold(
                ps.skip(i as int),
                param_from@,
                param_to@,
                paths_view(out.kv_seq()),
            ),
        decreases entries@.len() - i,
    {
        proof {
            assert(ps.skip(i as int)[0] == ps[i as int]);
            assert(ps[i as int] == (entries@[i as int].0@, methods_view(
                entries@[i as int].1.kv_seq(),
            )));
            assert(ps.skip(i as int).drop_first() =~= ps.skip(i + 1));
        }
        let e = &entries[i];
        let new_path = fix_url(&e.0, param_from, param_to);
        let body = if str_eq(new_path.as_str(), e.0.as_str()) {
            let b = clone_map_of_handlers(&e.1);
            proof {
                assert(fix_url_spec(ps[i as int].0, param_from@, param_to@) == ps[i as int].0);
            }
            b
        } else {
            correct_handlers(&e.1, param_to)
        };
        let ghost okv = out.kv_seq();
        let ghost bv = methods_view(body.kv_seq());
        let res = out.expect_insert(new_path, body);
        match res {
            Ok(_) => {
                proof {
                    crate::open_api_spec::lemma_p_contains_commute(
                        okv,
                        fix_url_spec(ps[i as int].0, param_from@, param_to@),
                    );
                    crate::open_api_spec::lemma_p_insert_commute(
                        okv,
                        fix_url_spec(ps[i as int].0, param_from@, param_to@),
                        bv,
                    );
                }
            },
            Err(err) => {
                proof {
                    crate::open_api_spec::lemma_p_contains_commute(
                        okv,
                        fix_url_spec(ps[i as int].0, param_from@, param_to@),
                    );
                }
                return Err(err);
            },
        }
        i = i + 1;
    }
    proof {
        assert(ps.skip(i as int).len() == 0);
    }
    Ok(out)
}

/// Copies a path's handler map unchanged.
#[verifier::loop_isolation(false)]
fn clone_map_of_handlers(handlers: &OrderHashMap<OpenApiMethod, SpecHandlerType>) -> (r:
    OrderHashMap<OpenApiMethod, SpecHandlerType>)
    ensures
        methods_view(r.kv_seq()) == methods_view(handlers.kv_seq()),
{
    let entries = handlers.entries_ref();
    let mut out: Vec<(OpenApiMethod, SpecHandlerType)> = Vec::new();
    let mut i: usize = 0;
    while i < entries.len()
        invariant
            0 <= i <= entries@.len(),
            entries@ == handlers.kv_seq(),
            out@.len() == i,
            forall|k: int|
                0 <= k < i ==> (#[trigger] out@[k]).0 == entries@[k].0 && out@[k].1@
                    == entries@[k].1@,
        decreases entries@.len() - i,
    {
        let e = &entries[i];
        out.push((e.0, clone_handler(&e.1)));
        i = i + 1;
    }
    let r = OrderHashMap::from_entries(out);
    proof {
        assert(methods_view(r.kv_seq()) =~= methods_view(handlers.kv_seq()));
    }
    r
}

/// Applies one path-segment rewrite to the whole document and to every
/// operation's URL: affected paths get the injected path parameter, and the
/// operations' own URLs are rewritten the same way. Two paths falling
/// together under the rewrite is a fatal error, and the document stays as
/// it was.
#[verifier::loop_isolation(false)]
pub fn fix_url_param(
    spec: &mut SpecOpenApi,
    methods: &mut OrderHashMap<String, WantedMethod>,
    param_from: String,
    param_to: String,
) -> (r: Result<(), ErrorProcess>)
    ensures
        match r {
            Ok(_) => {
                &&& fixed_paths_fold(old(spec)@, param_from@, param_to@, Seq::empty()) == Some(
                    final(spec)@,
                )
                &&& final(methods).kv_seq().len() == old(methods).kv_seq().len()
                &&& forall|i: int|
                    0 <= i < final(methods).kv_seq().len() ==> (#[trigger] final(methods).kv_seq()[i]).0
                        == old(methods).kv_seq()[i].0 && final(methods).kv_seq()[i].1.method == old(
                        methods,
                    ).kv_seq()[i].1.method && final(methods).kv_seq()[i].1.url@ == fix_url_spec(
                        old(methods).kv_seq()[i].1.url@,
                        param_from@,
                        param_to@,
                    )
            },
            Err(e) => fixed_paths_fold(old(spec)@, param_from@, param_to@, Seq::empty()) is None
                && final(spec)@ == old(spec)@ && *final(methods) == *old(methods) && e is Message,
        },
{
    let new_paths = match correc_spec_paths(&spec.paths, &param_from, &param_to) {
        Ok(p) => p,
        Err(e) => {
            return Err(e);
        },
    };
    spec.paths = new_paths;
    let mut tmp: OrderHashMap<String, WantedMethod> = OrderHashMap::new();
    core::mem::swap(methods, &mut tmp);
    let ghost old_kv = tmp.kv_seq();
    let entries = tmp.into_entries();
    let mut out: Vec<(String, WantedMethod)> = Vec::new();
    let mut i: usize = 0;
    while i < entries.len()
        invariant
            0 <= i <= entries@.len(),
            entries@ == old_kv,
            out@.len() == i,
            forall|k: int|
                0 <= k < i ==> (#[trigger] out@[k]).0 == old_kv[k].0 && out@[k].1.method
                    == old_kv[k].1.method && out@[k].1.url@ == fix_url_spec(
                    old_kv[k].1.url@,
                    param_from@,
                    param_to@,
                ),
        decreases entries@.len() - i,
    {
        let e = &entries[i];
        let nu = fix_url(&e.1.url, &param_from, &param_to);
        out.push((e.0.clone(), WantedMethod { method: e.1.method, url: nu }));
        i = i + 1;
    }
    *methods = OrderHashMap::from_entries(out);
    Ok(())
}

} // verus!
