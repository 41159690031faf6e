use vstd::prelude::*;
use crate::generate_js::generate_params_type::{bump, generate_type_ts, ts_alts, ts_alts_tail,
    ts_props, ts_render, Shape};
use crate::open_api_spec::{HandlerV, OpenApiMethod, SpecHandlerType};
use crate::open_api_type::{keys_ok, OpenApiType, TypeV};
use crate::text::{dec_digits, push_char, spaces_of, u16_to_dec};
use crate::utils::SortKey;

verus! {

broadcast use crate::utils::lemma_map_kv_decreases;

/// The validator emitter's wrapper for an optional slot.
pub open spec fn add_require_io(required: bool, s: Seq<char>) -> Seq<char> {
    if required {
        s
    } else {
        "t.union([t.null, t.undefined, "@ + s + "])"@
    }
}

/// The runtime validator expression for a tree, and the shape the emitter
/// walked. It mirrors the static-type emitter rule for rule.
pub open spec fn io_render(t: TypeV, ind: nat) -> (Seq<char>, Shape)
    decreases t, 1int,
{
    match t {
        TypeV::LiteralString { required, value } => (
            add_require_io(required, "t.literal('"@ + value + "')"@),
            Shape::Atom,
        ),
        TypeV::String { required } => (add_require_io(required, "t.string"@), Shape::Atom),
        TypeV::Number { required } => (add_require_io(required, "t.number"@), Shape::Atom),
        TypeV::Boolean { required } => (add_require_io(required, "t.boolean"@), Shape::Atom),
        TypeV::Unknown => ("t.unknown"@, Shape::Atom),
        TypeV::Array { required, items } => (
            add_require_io(required, "t.array("@ + io_render(*items, ind).0 + seq![')']),
            Shape::Arr(Box::new(io_render(*items, ind).1)),
        ),
        TypeV::Object { required, props } => (
            add_require_io(
                required,
                "t.interface({"@ + io_props(props, bump(ind)).0 + seq!['\n'] + spaces_of(ind)
                    + "})"@,
            ),
            Shape::Fields(io_props(props, bump(ind)).1),
        ),
        TypeV::Union { required, list } => (
            add_require_io(required, "t.union(["@ + io_alts(list).0 + "])"@),
            Shape::Alts(io_alts(list).1),
        ),
        TypeV::Record { required, value } => (
            add_require_io(
                required,
                "t.record(t.string, "@ + io_render(*value, ind).0 + seq![')'],
            ),
            Shape::Dict(Box::new(io_render(*value, ind).1)),
        ),
    }
}

/// The field validators of an object, each on its own indented line, and
/// the fields the emitter walked.
pub open spec fn io_props(props: Seq<(Seq<char>, TypeV)>, ind: nat) -> (
    Seq<char>,
    Seq<(Seq<char>, Shape)>,
)
    decreases props, 0int,
{
    if props.len() == 0 {
        (Seq::empty(), Seq::empty())
    } else {
        let line = seq!['\n'] + spaces_of(ind) + props[0].0 + ": "@ + io_render(
            props[0].1,
            ind,
        ).0 + seq![','];
        (
            line + io_props(props.drop_first(), ind).0,
            seq![(props[0].0, io_render(props[0].1, ind).1)] + io_props(props.drop_first(), ind).1,
        )
    }
}

/// The member validators of a union, comma-joined, and the alternatives the
/// emitter walked.
pub open spec fn io_alts(list: Seq<TypeV>) -> (Seq<char>, Seq<Shape>)
    decreases list, 0int,
{
    if list.len() == 0 {
        (Seq::empty(), Seq::empty())
    } else {
        (
            io_render(list[0], 0).0 + io_alts_tail(list.drop_first()),
            seq![io_render(list[0], 0).1] + io_alts(list.drop_first()).1,
        )
    }
}

/// Every member after the first, each behind a comma.
pub open spec fn io_alts_tail(list: Seq<TypeV>) -> Seq<char>
    decreases list, 1int,
{
    if list.len() == 0 {
        Seq::empty()
    } else {
        ", "@ + io_render(list[0], 0).0 + io_alts_tail(list.drop_first())
    }
}

/// The static-type and validator emitters never diverge in shape: for any
/// type tree, both walk the same field names and the same nesting, whatever
/// the indentation either starts at.
pub proof fn lemma_emitters_share_shape(t: TypeV, ind1: nat, ind2: nat)
    ensures
        ts_render(t, ind1).1 == io_render(t, ind2).1,
    decreases t, 1int,
{
    match t {
        TypeV::Array { items, .. } => {
            lemma_emitters_share_shape(*items, ind1, ind2);
        },
        TypeV::Object { props, .. } => {
            lemma_emitters_share_shape_props(props, bump(ind1), bump(ind2));
        },
        TypeV::Union { list, .. } => {
            lemma_emitters_share_shape_alts(list);
        },
        TypeV::Record { value, .. } => {
            lemma_emitters_share_shape(*value, ind1, ind2);
        },
        _ => {
        },
    }
}

proof fn lemma_emitters_share_shape_props(props: Seq<(Seq<char>, TypeV)>, ind1: nat, ind2: nat)
    ensures
        ts_props(props, ind1).1 == io_props(props, ind2).1,
    decreases props, 0int,
{
    if props.len() > 0 {
        lemma_emitters_share_shape(props[0].1, ind1, ind2);
        lemma_emitters_share_shape_props(props.drop_first(), ind1, ind2);
    }
}

proof fn lemma_emitters_share_shape_alts(list: Seq<TypeV>)
    ensures
        ts_alts(list).1 == io_alts(list).1,
    decreases list, 0int,
{
    if list.len() > 0 {
        lemma_emitters_share_shape(list[0], 0, 0);
        lemma_emitters_share_shape_alts(list.drop_first());
    }
}

/// The validator emitter's wrapper for an optional slot.
pub fn add_require(require: bool, type_param: String) -> (r: String)
    ensures
        r@ == add_require_io(require, type_param@),
{
    if require {
        type_param
    } else {
        let mut r = String::from_str("t.union([t.null, t.undefined, ");
        r.append(type_param.as_str());
        r.append("])");
        r
    }
}

/// Emits the runtime validator expression for a tree.
#[verifier::loop_isolation(false)]
pub fn generate_type_io(ident: u32, type_param: &OpenApiType) -> (r: String)
    ensures
        r@ == io_render(type_param@, ident as nat).0,
    decreases *type_param, 1int,
{
    match type_param {
        OpenApiType::LiteralString { required, value } => {
            let mut s = String::from_str("t.literal('");
            s.append(value.as_str());
            s.append("')");
            proof {
                assert(s@ =~= "t.literal('"@ + value@ + "')"@);
            }
            add_require(*required, s)
        },
        OpenApiType::String { required } => add_require(*required, String::from_str("t.string")),
        OpenApiType::Number { required } => add_require(*required, String::from_str("t.number")),
        OpenApiType::Boolean { required } => add_require(
            *required,
            String::from_str("t.boolean"),
        ),
        OpenApiType::Unknown => String::from_str("t.unknown"),
        OpenApiType::Array { required, items } => {
            proof {
                assert(decreases_to!(*type_param => **items));
            }
            let it = generate_type_io(ident, items);
            let mut s = String::from_str("t.array(");
            s.append(it.as_str());
            push_char(&mut s, ')');
            proof {
                assert(s@ =~= "t.array("@ + io_render((**items)@, ident as nat).0 + seq![')']);
            }
            add_require(*required, s)
        },
        OpenApiType::Record { required, value } => {
            proof {
                assert(decreases_to!(*type_param => **value));
            }
            let it = generate_type_io(ident, value);
            let mut s = String::from_str("t.record(t.string, ");
            s.append(it.as_str());
            push_char(&mut s, ')');
            proof {
                assert(s@ =~= "t.record(t.string, "@ + io_render((**value)@, ident as nat).0
                    + seq![')']);
            }
            add_require(*required, s)
        },
        OpenApiType::Union { required, list } => {
            let ghost lvw = crate::open_api_type::list_view(list@);
            let mut s = String::new();
            let mut i: usize = 0;
            proof {
                assert(lvw.skip(0) =~= lvw);
            }
            while i < list.len()
                invariant
                    0 <= i <= list@.len(),
                    i == 0 ==> s@ == Seq::<char>::empty() && io_alts(lvw).0 == s@ + io_alts(
                        lvw.skip(0),
                    ).0,
                    i > 0 ==> io_alts(lvw).0 == s@ + io_alts_tail(lvw.skip(i as int)),
                decreases list@.len() - i,
            {
                proof {
                    assert(lvw.skip(i as int)[0] == lvw[i as int]);
                    assert(lvw[i as int] == list@[i as int]@);
                    assert(lvw.skip(i as int).drop_first() =~= lvw.skip(i + 1));
                    assert(decreases_to!(*type_param => *list));
                    assert(decreases_to!(*list => list@[i as int]));
                }
                let ghost s0 = s@;
                if i > 0 {
                    s.append(", ");
                }
                let m = generate_type_io(0, &list[i]);
                s.append(m.as_str());
                proof {
                    if i == 0 {
                        assert(s@ =~= io_render(lvw[0], 0).0);
                        assert(io_alts(lvw).0 == io_render(lvw[0], 0).0 + io_alts_tail(
                            lvw.skip(1),
                        ));
                    } else {
                        assert(s@ =~= s0 + (", "@ + io_render(lvw[i as int], 0).0));
                        assert(io_alts_tail(lvw.skip(i as int)) == ", "@ + io_render(
                            lvw[i as int],
                            0,
                        ).0 + io_alts_tail(lvw.skip(i + 1)));
                        assert(s0 + (", "@ + io_render(lvw[i as int], 0).0 + io_alts_tail(
                            lvw.skip(i + 1),
                        )) =~= (s0 + (", "@ + io_render(lvw[i as int], 0).0)) + io_alts_tail(
                            lvw.skip(i + 1),
                        ));
                    }
                }
                i = i + 1;
            }
            proof {
                if list@.len() == 0 {
                    assert(io_alts(lvw).0 =~= Seq::<char>::empty());
                    assert(s@ =~= io_alts(lvw).0);
                } else {
                    assert(lvw.skip(i as int).len() == 0);
                    assert(io_alts_tail(lvw.skip(i as int)) =~= Seq::<char>::empty());
                    assert(s@ + Seq::<char>::empty() =~= s@);
                }
            }
            let mut w = String::from_str("t.union([");
            w.append(s.as_str());
            w.append("])");
            proof {
                assert(w@ =~= "t.union(["@ + io_alts(lvw).0 + "])"@);
            }
            add_require(*required, w)
        },
        OpenApiType::Object { required, props } => {
            let ni = crate::generate_js::generate_params_type::bump_exec(ident);
            let entries = props.get_sorted();
            let ghost pv = crate::open_api_type::props_view(props.kv_seq());
            let mut body = String::new();
            let mut i: usize = 0;
            proof {
                assert(pv.skip(0) =~= pv);
            }
            while i < entries.len()
                invariant
                    entries@.len() == props.kv_seq().len(),
                    forall|q: int|
                        0 <= q < entries@.len() ==> *(#[trigger] entries@[q]).0 == props.kv_seq()[q].0
                            && *entries@[q].1 == props.kv_seq()[q].1,
                    0 <= i <= entries@.len(),
                    io_props(pv, ni as nat).0 == body@ + io_props(pv.skip(i as int), ni as nat).0,
                decreases entries@.len() - i,
            {
                proof {
                    assert(pv.skip(i as int)[0] == pv[i as int]);
                    assert(pv[i as int] == (props.kv_seq()[i as int].0@,
                    props.kv_seq()[i as int].1@));
                    assert(pv.skip(i as int).drop_first() =~= pv.skip(i + 1));
                    assert(decreases_to!(*type_param => *props));
                    assert(decreases_to!(*props => props.kv_seq()));
                    assert(decreases_to!(props.kv_seq() => props.kv_seq()[i as int]));
                    assert(decreases_to!(props.kv_seq()[i as int] => props.kv_seq()[i as int].1));
                }
                let e = entries[i];
                let ghost b0 = body@;
                push_char(&mut body, '\n');
                let ind_str = crate::generate_js::generate_params_type::generate_ident(ni);
                body.append(ind_str.as_str());
                body.append(e.0.as_str());
                body.append(": ");
                let vt = generate_type_io(ni, e.1);
                body.append(vt.as_str());
                push_char(&mut body, ',');
                proof {
                    let line = seq!['\n'] + spaces_of(ni as nat) + pv[i as int].0 + ": "@
                        + io_render(pv[i as int].1, ni as nat).0 + seq![','];
                    assert(body@ =~= b0 + line);
                    assert(io_props(pv.skip(i as int), ni as nat).0 == line + io_props(
                        pv.skip(i + 1),
                        ni as nat,
                    ).0);
                    assert(b0 + (line + io_props(pv.skip(i + 1), ni as nat).0) =~= (b0 + line)
                        + io_props(pv.skip(i + 1), ni as nat).0);
                }
                i = i + 1;
            }
            proof {
                assert(pv.skip(i as int).len() == 0);
                assert(io_props(pv.skip(i as int), ni as nat).0 =~= Seq::<char>::empty());
                assert(body@ + Seq::<char>::empty() =~= body@);
            }
            let mut s = String::from_str("t.interface({");
            s.append(body.as_str());
            push_char(&mut s, '\n');
            let endi = crate::generate_js::generate_params_type::generate_ident(ident);
            s.append(endi.as_str());
            s.append("})");
            proof {
                assert(s@ =~= "t.interface({"@ + io_props(pv, bump(ident as nat)).0 + seq!['\n']
                    + spaces_of(ident as nat) + "})"@);
            }
            add_require(*required, s)
        },
    }
}

/// The generated text for one response code: its validator, its static
/// type, and its decoder function.
pub open spec fn resp_block(code: u16, t: TypeV, url: Seq<char>, ml: Seq<char>) -> Seq<char> {
    "const Response"@ + dec_digits(code as nat) + "IO = "@ + io_render(t, 0).0 + ";"@ + "\n\n"@
        + "export type Response"@ + dec_digits(code as nat) + "Type = "@ + ts_render(t, 0).0
        + ";"@ + "\n\n"@ + "export const decodeResponse"@ + dec_digits(code as nat)
        + " = (data: unknown): Response"@ + dec_digits(code as nat) + "Type => {"@ + "\n"@
        + "    const decodeResult = Response"@ + dec_digits(code as nat) + "IO.decode(data);"@
        + "\n"@ + "    if (isRight(decodeResult)) {"@ + "\n"@ + "        return decodeResult.right;"@
        + "\n"@ + "    }"@ + "\n"@ + "    throw Error('Response decoding error "@ + url + " -> "@
        + ml + " -> "@ + dec_digits(code as nat) + "');"@ + "\n"@ + "};"@ + "\n\n\n\n"@
}

/// The blocks of every declared response code, in code order.
pub open spec fn resp_blocks(resps: Seq<(u16, TypeV)>, url: Seq<char>, ml: Seq<char>) -> Seq<char>
    decreases resps, 0int,
{
    if resps.len() == 0 {
        Seq::empty()
    } else {
        resp_block(resps[0].0, resps[0].1, url, ml) + resp_blocks_tail(resps.drop_first(), url, ml)
    }
}

/// Every block after the first, each behind a line break.
pub open spec fn resp_blocks_tail(resps: Seq<(u16, TypeV)>, url: Seq<char>, ml: Seq<char>) -> Seq<
    char,
>
    decreases resps, 1int,
{
    if resps.len() == 0 {
        Seq::empty()
    } else {
        seq!['\n'] + resp_block(resps[0].0, resps[0].1, url, ml) + resp_blocks_tail(
            resps.drop_first(),
            url,
            ml,
        )
    }
}

/// Emits one block per response code.
fn emit_block(code: u16, t: &OpenApiType, url: &String, ml: &String) -> (r: String)
    requires
        keys_ok(t@),
    ensures
        r@ == resp_block(code, t@, url@, ml@),
{
    let c = u16_to_dec(code);
    let tio = generate_type_io(0, t);
    let tts = generate_type_ts(0, t);
    let mut s = String::from_str("const Response");
    s.append(c.as_str());
    s.append("IO = ");
    s.append(tio.as_str());
    s.append(";");
    s.append("\n\n");
    s.append("export type Response");
    s.append(c.as_str());
    s.append("Type = ");
    s.append(tts.as_str());
    s.append(";");
    s.append("\n\n");
    s.append("export const decodeResponse");
    s.append(c.as_str());
    s.append(" = (data: unknown): Response");
    s.append(c.as_str());
    s.append("Type => {");
    s.append("\n");
    s.append("    const decodeResult = Response");
    s.append(c.as_str());
    s.append("IO.decode(data);");
    s.append("\n");
    s.append("    if (isRight(decodeResult)) {");
    s.append("\n");
    s.append("        return decodeResult.right;");
    s.append("\n");
    s.append("    }");
    s.append("\n");
    s.append("    throw Error('Response decoding error ");
    s.append(url.as_str());
    s.append(" -> ");
    s.append(ml.as_str());
    s.append(" -> ");
    s.append(c.as_str());
    s.append("');");
    s.append("\n");
    s.append("};");
    s.append("\n\n\n\n");
    proof {
        assert(s@ =~= resp_block(code, t@, url@, ml@));
    }
    s
}

/// Emits, for every declared response code in order, a runtime validator, a
/// static type, and a decoder that raises on a body the validator refuses.
#[verifier::loop_isolation(false)]
pub fn generate_response_io(spec: &SpecHandlerType, url: &String, method: &OpenApiMethod) -> (r:
    String)
    requires
        crate::open_api_spec::resps_keys_ok(spec@.responses),
    ensures
        r@ == resp_blocks(spec@.responses, url@, method.lower_name()),
{
    let ml = method.to_lower_case();
    let entries = spec.responses.get_sorted();
    let ghost rv = spec@.responses;
    let mut s = String::new();
    let mut i: usize = 0;
    proof {
        assert(rv.skip(0) =~= rv);
        assert(rv.len() == spec.responses.kv_seq().len());
    }
    while i < entries.len()
        invariant
            entries@.len() == spec.responses.kv_seq().len(),
            forall|q: int|
                0 <= q < entries@.len() ==> *(#[trigger] entries@[q]).0 == spec.responses.kv_seq()[q].0
                    && *entries@[q].1 == spec.responses.kv_seq()[q].1,
            0 <= i <= entries@.len(),
            ml@ == method.lower_name(),
            i == 0 ==> s@ == Seq::<char>::empty() && resp_blocks(rv, url@, ml@) == s@
                + resp_blocks(rv.skip(0), url@, ml@),
            i > 0 ==> resp_blocks(rv, url@, ml@) == s@ + resp_blocks_tail(
                rv.skip(i as int),
                url@,
                ml@,
            ),
        decreases entries@.len() - i,
    {
        proof {
            assert(rv.skip(i as int)[0] == rv[i as int]);
            assert(rv[i as int] == (spec.responses.kv_seq()[i as int].0,
            spec.responses.kv_seq()[i as int].1@));
            assert(rv.skip(i as int).drop_first() =~= rv.skip(i + 1));
            crate::open_api_spec::lemma_resps_keys_ok_index(rv, i as int);
        }
        let e = entries[i];
        let ghost s0 = s@;
        if i > 0 {
            push_char(&mut s, '\n');
        }
        let b = emit_block(*e.0, e.1, url, &ml);
        s.append(b.as_str());
        proof {
            let bl = resp_block(rv[i as int].0, rv[i as int].1, url@, ml@);
            if i == 0 {
                assert(s@ =~= bl);
                assert(resp_blocks(rv, url@, ml@) == bl + resp_blocks_tail(
                    rv.skip(1),
                    url@,
                    ml@,
                ));
            } else {
                assert(s@ =~= s0 + (seq!['\n'] + bl));
                assert(resp_blocks_tail(rv.skip(i as int), url@, ml@) == seq!['\n'] + bl
                    + resp_blocks_tail(rv.skip(i + 1), url@, ml@));
                assert(s0 + (seq!['\n'] + bl + resp_blocks_tail(rv.skip(i + 1), url@, ml@)) =~= (
                s0 + (seq!['\n'] + bl)) + resp_blocks_tail(rv.skip(i + 1), url@, ml@));
            }
        }
        i = i + 1;
    }
    proof {
        if rv.len() == 0 {
            assert(resp_blocks(rv, url@, ml@) =~= Seq::<char>::empty());
            assert(s@ =~= resp_blocks(rv, url@, ml@));
        } else {
            assert(rv.skip(i as int).len() == 0);
            assert(resp_blocks_tail(rv.skip(i as int), url@, ml@) =~= Seq::<char>::empty());
            assert(s@ + Seq::<char>::empty() =~= s@);
        }
    }
    s
}

} // verus!
