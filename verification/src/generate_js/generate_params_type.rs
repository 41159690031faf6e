use vstd::prelude::*;
use crate::generate_js::fix_to_camel_case::fix_to_camel_case;
use crate::open_api_spec::{ParamIn, ParamV, SpecHandlerType};
use crate::open_api_type::{keys_ok, list_keys_ok, props_keys_ok, OpenApiType, TypeV};
use crate::text::{is_ascii_alpha, push_char, spaces_of};
use crate::utils::SortKey;

verus! {

broadcast use crate::utils::lemma_map_kv_decreases;

/// What both emitters walk for one type tree: the rendered field names and
/// the nesting, with everything else abstracted away.
pub enum Shape {
    Atom,
    Arr(Box<Shape>),
    Fields(Seq<(Seq<char>, Shape)>),
    Alts(Seq<Shape>),
    Dict(Box<Shape>),
}

/// The static-type emitter's wrapper for an optional slot.
pub open spec fn add_require_ts(required: bool, s: Seq<char>) -> Seq<char> {
    if required {
        s
    } else {
        "null | undefined | "@ + s
    }
}

/// How an object key is rendered: bare when it starts with a letter, quoted
/// otherwise.
pub open spec fn prop_name_spec(key: Seq<char>) -> Seq<char> {
    if key.len() > 0 && is_ascii_alpha(key[0]) {
        key
    } else {
        seq!['\''] + key + seq!['\'']
    }
}

/// One more nesting level of four spaces; a level that cannot grow further
/// stays put.
pub open spec fn bump(ind: nat) -> nat {
    if ind + 4 <= 4294967295 {
        ind + 4
    } else {
        ind
    }
}

/// The static type text for a tree, and the shape the emitter walked.
pub open spec fn ts_render(t: TypeV, ind: nat) -> (Seq<char>, Shape)
    decreases t, 1int,
{
    match t {
        TypeV::LiteralString { required, value } => (
            add_require_ts(required, seq!['\''] + value + seq!['\'']),
            Shape::Atom,
        ),
        TypeV::String { required } => (add_require_ts(required, "string"@), Shape::Atom),
        TypeV::Number { required } => (add_require_ts(required, "number"@), Shape::Atom),
        TypeV::Boolean { required } => (add_require_ts(required, "boolean"@), Shape::Atom),
        TypeV::Unknown => ("unknown"@, Shape::Atom),
        TypeV::Array { required, items } => (
            add_require_ts(
                required,
                "Array<"@ + ts_render(*items, ind).0 + seq!['>'],
            ),
            Shape::Arr(Box::new(ts_render(*items, ind).1)),
        ),
        TypeV::Object { required, props } => (
            add_require_ts(
                required,
                seq!['{'] + ts_props(props, bump(ind)).0 + seq!['\n'] + spaces_of(ind)
                    + seq!['}'],
            ),
            Shape::Fields(ts_props(props, bump(ind)).1),
        ),
        TypeV::Union { required, list } => (
            add_require_ts(required, ts_alts(list).0),
            Shape::Alts(ts_alts(list).1),
        ),
        TypeV::Record { required, value } => (
            add_require_ts(
                required,
                "Record<string, "@ + ts_render(*value, ind).0 + seq!['>'],
            ),
            Shape::Dict(Box::new(ts_render(*value, ind).1)),
        ),
    }
}

/// The property lines of an object, each on its own indented line, and the
/// fields the emitter walked.
pub open spec fn ts_props(props: Seq<(Seq<char>, TypeV)>, ind: nat) -> (
    Seq<char>,
    Seq<(Seq<char>, Shape)>,
)
    decreases props, 0int,
{
    if props.len() == 0 {
        (Seq::empty(), Seq::empty())
    } else {
        let line = seq!['\n'] + spaces_of(ind) + prop_name_spec(props[0].0) + (if props[0].1.req() {
            ": "@
        } else {
            "?: "@
        }) + ts_render(props[0].1, ind).0 + seq![','];
        (
            line + ts_props(props.drop_first(), ind).0,
            seq![(props[0].0, ts_render(props[0].1, ind).1)] + ts_props(props.drop_first(), ind).1,
        )
    }
}

/// The members of a union joined by the union separator, each rendered at
/// the left margin, and the alternatives the emitter walked.
pub open spec fn ts_alts(list: Seq<TypeV>) -> (Seq<char>, Seq<Shape>)
    decreases list, 0int,
{
    if list.len() == 0 {
        (Seq::empty(), Seq::empty())
    } else {
        (
            ts_render(list[0], 0).0 + ts_alts_tail(list.drop_first()),
            seq![ts_render(list[0], 0).1] + ts_alts(list.drop_first()).1,
        )
    }
}

/// Every member after the first, each behind a union separator.
pub open spec fn ts_alts_tail(list: Seq<TypeV>) -> Seq<char>
    decreases list, 1int,
{
    if list.len() == 0 {
        Seq::empty()
    } else {
        " | "@ + ts_render(list[0], 0).0 + ts_alts_tail(list.drop_first())
    }
}

/// Renders an object key: bare when it starts with a letter, quoted
/// otherwise. An empty key names nothing.
pub fn generate_object_prop_name(key: &String) -> (r: String)
    requires
        key@.len() > 0,
    ensures
        r@ == prop_name_spec(key@),
{
    let first = key.as_str().get_char(0);
    if crate::text::check_ascii_alpha(first) {
        key.clone()
    } else {
        let mut r = String::new();
        push_char(&mut r, '\'');
        r.append(key.as_str());
        push_char(&mut r, '\'');
        proof {
            assert(r@ =~= seq!['\''] + key@ + seq!['\'']);
        }
        r
    }
}

/// Wraps an optional slot so that null and absence are admitted.
pub fn add_require(require: bool, type_param: String) -> (r: String)
    ensures
        r@ == add_require_ts(require, type_param@),
{
    if require {
        type_param
    } else {
        let mut r = String::from_str("null | undefined | ");
        r.append(type_param.as_str());
        r
    }
}

/// One more nesting level of four spaces.
pub fn bump_exec(ind: u32) -> (r: u32)
    ensures
        r as nat == bump(ind as nat),
{
    if ind <= 4294967295u32 - 4 {
        ind + 4
    } else {
        ind
    }
}

/// Emits the static type text for a tree.
#[verifier::loop_isolation(false)]
pub fn generate_type_ts(ident: u32, type_param: &OpenApiType) -> (r: String)
    requires
        keys_ok(type_param@),
    ensures
        r@ == ts_render(type_param@, ident as nat).0,
    decreases *type_param, 1int,
{
    match type_param {
        OpenApiType::LiteralString { required, value } => {
            let mut s = String::new();
            push_char(&mut s, '\'');
            s.append(value.as_str());
            push_char(&mut s, '\'');
            proof {
                assert(s@ =~= seq!['\''] + value@ + seq!['\'']);
            }
            add_require(*required, s)
        },
        OpenApiType::String { required } => add_require(*required, String::from_str("string")),
        OpenApiType::Number { required } => add_require(*required, String::from_str("number")),
        OpenApiType::Boolean { required } => add_require(*required, String::from_str("boolean")),
        OpenApiType::Unknown => String::from_str("unknown"),
        OpenApiType::Array { required, items } => {
            proof {
                assert(decreases_to!(*type_param => **items));
            }
            let it = generate_type_ts(ident, items);
            let mut s = String::from_str("Array<");
            s.append(it.as_str());
            push_char(&mut s, '>');
            proof {
                assert(s@ =~= "Array<"@ + ts_render((**items)@, ident as nat).0 + seq!['>']);
            }
            add_require(*required, s)
        },
        OpenApiType::Record { required, value } => {
            proof {
                assert(decreases_to!(*type_param => **value));
            }
            let it = generate_type_ts(ident, value);
            let mut s = String::from_str("Record<string, ");
            s.append(it.as_str());
            push_char(&mut s, '>');
            proof {
                assert(s@ =~= "Record<string, "@ + ts_render((**value)@, ident as nat).0
                    + seq!['>']);
            }
            add_require(*required, s)
        },
        OpenApiType::Union { required, list } => {
            let ghost lvw = crate::open_api_type::list_view(list@);
            let mut s = String::new();
            let mut i: usize = 0;
            proof {
                assert(lvw.skip(0) =~= lvw);
            }
            while i < list.len()
                invariant
                    0 <= i <= list@.len(),
                    i == 0 ==> s@ == Seq::<char>::empty() && ts_alts(lvw).0 == s@ + ts_alts(
                        lvw.skip(0),
                    ).0,
                    i > 0 ==> ts_alts(lvw).0 == s@ + ts_alts_tail(lvw.skip(i as int)),
                decreases list@.len() - i,
            {
                proof {
                    assert(lvw.skip(i as int)[0] == lvw[i as int]);
                    assert(lvw[i as int] == list@[i as int]@);
                    assert(lvw.skip(i as int).drop_first() =~= lvw.skip(i + 1));
                    assert(decreases_to!(*type_param => *list));
                    assert(decreases_to!(*list => list@[i as int]));
                    crate::open_api_type::lemma_list_keys_ok_index(lvw, i as int);
                }
                let ghost s0 = s@;
                if i > 0 {
                    s.append(" | ");
                }
                let m = generate_type_ts(0, &list[i]);
                s.append(m.as_str());
                proof {
                    if i == 0 {
                        assert(s@ =~= ts_render(lvw[0], 0).0);
                        assert(ts_alts(lvw).0 == ts_render(lvw[0], 0).0 + ts_alts_tail(
                            lvw.skip(1),
                        ));
                    } else {
                        assert(s@ =~= s0 + (" | "@ + ts_render(lvw[i as int], 0).0));
                        assert(ts_alts_tail(lvw.skip(i as int)) == " | "@ + ts_render(
                            lvw[i as int],
                            0,
                        ).0 + ts_alts_tail(lvw.skip(i + 1)));
                        assert(s0 + (" | "@ + ts_render(lvw[i as int], 0).0 + ts_alts_tail(
                            lvw.skip(i + 1),
                        )) =~= (s0 + (" | "@ + ts_render(lvw[i as int], 0).0)) + ts_alts_tail(
                            lvw.skip(i + 1),
                        ));
                    }
                }
                i = i + 1;
            }
            proof {
                if list@.len() == 0 {
                    assert(ts_alts(lvw).0 =~= Seq::<char>::empty());
                    assert(s@ =~= ts_alts(lvw).0);
                } else {
                    assert(lvw.skip(i as int).len() == 0);
                    assert(ts_alts_tail(lvw.skip(i as int)) =~= Seq::<char>::empty());
                    assert(s@ + Seq::<char>::empty() =~= s@);
                }
            }
            add_require(*required, s)
        },
        OpenApiType::Object { required, props } => {
            let ni = bump_exec(ident);
            let entries = props.get_sorted();
            let ghost pv = crate::open_api_type::props_view(props.kv_seq());
            let mut body = String::new();
            let mut i: usize = 0;
            proof {
                assert(pv.skip(0) =~= pv);
            }
            while i < entries.len()
                invariant
                    entries@.len() == props.kv_seq().len(),
                    forall|q: int|
                        0 <= q < entries@.len() ==> *(#[trigger] entries@[q]).0 == props.kv_seq()[q].0
                            && *entries@[q].1 == props.kv_seq()[q].1,
                    0 <= i <= entries@.len(),
                    ts_props(pv, ni as nat).0 == body@ + ts_props(pv.skip(i as int), ni as nat).0,
                decreases entries@.len() - i,
            {
                proof {
                    assert(pv.skip(i as int)[0] == pv[i as int]);
                    assert(pv[i as int] == (props.kv_seq()[i as int].0@,
                    props.kv_seq()[i as int].1@));
                    assert(pv.skip(i as int).drop_first() =~= pv.skip(i + 1));
                    assert(decreases_to!(*type_param => *props));
                    assert(decreases_to!(*props => props.kv_seq()));
                    assert(decreases_to!(props.kv_seq() => props.kv_seq()[i as int]));
                    assert(decreases_to!(props.kv_seq()[i as int] => props.kv_seq()[i as int].1));
                    crate::open_api_type::lemma_props_keys_ok_index(pv, i as int);
                }
                let e = entries[i];
                let ghost b0 = body@;
                push_char(&mut body, '\n');
                let ind_str = generate_ident(ni);
                body.append(ind_str.as_str());
                let key = generate_object_prop_name(e.0);
                body.append(key.as_str());
                if e.1.is_required() {
                    body.append(": ");
                } else {
                    body.append("?: ");
                }
                let vt = generate_type_ts(ni, e.1);
                body.append(vt.as_str());
                push_char(&mut body, ',');
                proof {
                    let line = seq!['\n'] + spaces_of(ni as nat) + prop_name_spec(pv[i as int].0)
                        + (if pv[i as int].1.req() {
                        ": "@
                    } else {
                        "?: "@
                    }) + ts_render(pv[i as int].1, ni as nat).0 + seq![','];
                    assert(body@ =~= b0 + line);
                    assert(ts_props(pv.skip(i as int), ni as nat).0 == line + ts_props(
                        pv.skip(i + 1),
                        ni as nat,
                    ).0);
                    assert(b0 + (line + ts_props(pv.skip(i + 1), ni as nat).0) =~= (b0 + line)
                        + ts_props(pv.skip(i + 1), ni as nat).0);
                }
                i = i + 1;
            }
            proof {
                assert(pv.skip(i as int).len() == 0);
                assert(ts_props(pv.skip(i as int), ni as nat).0 =~= Seq::<char>::empty());
                assert(body@ + Seq::<char>::empty() =~= body@);
            }
            let mut s = String::new();
            push_char(&mut s, '{');
            s.append(body.as_str());
            push_char(&mut s, '\n');
            let endi = generate_ident(ident);
            s.append(endi.as_str());
            push_char(&mut s, '}');
            proof {
                assert(s@ =~= seq!['{'] + ts_props(pv, bump(ident as nat)).0 + seq!['\n']
                    + spaces_of(ident as nat) + seq!['}']);
            }
            add_require(*required, s)
        },
    }
}

/// The parameter-record line for one parameter: its camel-case name and its
/// static type, indented one level.
pub open spec fn param_line(p: crate::open_api_spec::ParamV) -> Seq<char> {
    seq!['\n'] + spaces_of(4) + crate::generate_js::fix_to_camel_case::camel_spec(p.name) + ": "@
        + ts_render(p.api_type, 4).0 + seq![',']
}

/// The lines of every parameter that travels in the request itself; header
/// parameters stay out.
pub open spec fn params_lines(params: Seq<crate::open_api_spec::ParamV>) -> Seq<char>
    decreases params,
{
    if params.len() == 0 {
        Seq::empty()
    } else {
        (if params[0].where_in is Header {
            Seq::<char>::empty()
        } else {
            param_line(params[0])
        }) + params_lines(params.drop_first())
    }
}

/// Whether any parameter travels in the request itself.
pub open spec fn any_sendable(params: Seq<crate::open_api_spec::ParamV>) -> bool
    decreases params,
{
    if params.len() == 0 {
        false
    } else {
        !(params[0].where_in is Header) || any_sendable(params.drop_first())
    }
}

/// The parameter-record declaration of an operation.
pub open spec fn params_def_spec(params: Seq<crate::open_api_spec::ParamV>) -> Seq<char> {
    "export interface ParamsType {"@ + params_lines(params) + seq!['\n'] + seq!['}']
}

/// How the request function binds the record: an unused binding when no
/// parameter travels in the request.
pub open spec fn params_name_spec(params: Seq<crate::open_api_spec::ParamV>) -> Seq<char> {
    if any_sendable(params) {
        "params: ParamsType"@
    } else {
        "_params: ParamsType"@
    }
}

/// Emits the parameter-record declaration of an operation and the binding
/// the request function uses for it.
#[verifier::loop_isolation(false)]
pub fn generate_params_type(spec: &SpecHandlerType) -> (r: (String, String))
    requires
        crate::open_api_spec::params_keys_ok(spec@.parameters),
    ensures
        r.0@ == params_name_spec(spec@.parameters),
        r.1@ == params_def_spec(spec@.parameters),
{
    let ghost pv = spec@.parameters;
    let mut body = String::new();
    let mut counter: usize = 0;
    let mut i: usize = 0;
    proof {
        assert(pv.skip(0) =~= pv);
        assert(pv.len() == spec.parameters@.len());
    }
    while i < spec.parameters.len()
        invariant
            0 <= i <= spec.parameters@.len(),
            counter <= i,
            pv == spec@.parameters,
            pv.len() == spec.parameters@.len(),
            params_lines(pv) == body@ + params_lines(pv.skip(i as int)),
            (counter > 0) == any_sendable(pv.take(i as int)),
        decreases spec.parameters@.len() - i,
    {
        proof {
            assert(pv.skip(i as int)[0] == pv[i as int]);
            assert(pv[i as int] == spec.parameters@[i as int]@);
            assert(pv.skip(i as int).drop_first() =~= pv.skip(i + 1));
            assert(pv.take(i + 1) =~= pv.take(i as int).push(pv[i as int]));
            crate::open_api_spec::lemma_params_keys_ok_index(pv, i as int);
            lemma_any_sendable_push(pv.take(i as int), pv[i as int]);
        }
        let p = &spec.parameters[i];
        let is_header = match p.where_in {
            ParamIn::Header => true,
            _ => false,
        };
        if !is_header {
            let ghost b0 = body@;
            push_char(&mut body, '\n');
            let ind_str = generate_ident(4);
            body.append(ind_str.as_str());
            let nm = fix_to_camel_case(&p.name);
            body.append(nm.as_str());
            body.append(": ");
            let vt = generate_type_ts(4, &p.api_type);
            body.append(vt.as_str());
            push_char(&mut body, ',');
            counter = counter + 1;
            proof {
                assert(body@ =~= b0 + param_line(pv[i as int]));
                assert(params_lines(pv.skip(i as int)) == param_line(pv[i as int]) + params_lines(
                    pv.skip(i + 1),
                ));
                assert(b0 + (param_line(pv[i as int]) + params_lines(pv.skip(i + 1))) =~= (b0
                    + param_line(pv[i as int])) + params_lines(pv.skip(i + 1)));
            }
        } else {
            proof {
                assert(params_lines(pv.skip(i as int)) == Seq::<char>::empty() + params_lines(
                    pv.skip(i + 1),
                ));
                assert(Seq::<char>::empty() + params_lines(pv.skip(i + 1)) =~= params_lines(
                    pv.skip(i + 1),
                ));
            }
        }
        i = i + 1;
    }
    proof {
        assert(pv.skip(i as int).len() == 0);
        assert(params_lines(pv.skip(i as int)) =~= Seq::<char>::empty());
        assert(body@ + Seq::<char>::empty() =~= body@);
        assert(pv.take(i as int) =~= pv);
    }
    let mut def = String::from_str("export interface ParamsType {");
    def.append(body.as_str());
    push_char(&mut def, '\n');
    push_char(&mut def, '}');
    proof {
        assert(def@ =~= params_def_spec(pv));
    }
    let name = if counter > 0 {
        String::from_str("params: ParamsType")
    } else {
        String::from_str("_params: ParamsType")
    };
    (name, def)
}

/// One more parameter extends the question whether any travels in the
/// request.
proof fn lemma_any_sendable_push(params: Seq<crate::open_api_spec::ParamV>, p: crate::open_api_spec::ParamV)
    ensures
        any_sendable(params.push(p)) == (any_sendable(params) || !(p.where_in is Header)),
    decreases params.len(),
{
    if params.len() == 0 {
        assert(params.push(p)[0] == p);
        assert(params.push(p).drop_first() =~= params);
    } else {
        assert(params.push(p)[0] == params[0]);
        assert(params.push(p).drop_first() =~= params.drop_first().push(p));
        lemma_any_sendable_push(params.drop_first(), p);
    }
}

/// A run of spaces: four per nesting level.
#[verifier::loop_isolation(false)]
pub fn generate_ident(ident: u32) -> (r: String)
    ensures
        r@ == spaces_of(ident as nat),
{
    let mut r = String::new();
    let mut i: u32 = 0;
    while i < ident
        invariant
            0 <= i <= ident,
            r@ == spaces_of(i as nat),
        decreases ident - i,
    {
        push_char(&mut r, ' ');
        i = i + 1;
    }
    r
}

} // verus!
