use vstd::prelude::*;
use crate::error_process::ErrorProcess;
use crate::filters::{all_text_values, deref_path_spec, go_to_spec};
use crate::json::{arr_view, assoc_lookup, entries_view, sort_entries, Json, JsonV};
use crate::open_api_type::{insert_prop, lemma_contains_commutes_with_view,
    lemma_insert_commutes_with_view, lemma_insert_prop_wf, lemma_list_wf_each_intro, lemma_with_req_wf, list_view, list_wf_each, prop_key_present,
    props_sorted, props_view, props_wf_each, OpenApiType, TypeV};
use crate::text::lower_chars;
use crate::utils::{OrderHashMap, SortKey};

verus! {

/// The fields the shape matchers can see of a node: object entries whose
/// value is not null. A scalar or array node shows no fields.
pub open spec fn live_entries(es: Seq<(Seq<char>, JsonV)>) -> Seq<(Seq<char>, JsonV)>
    decreases es,
{
    if es.len() == 0 {
        Seq::empty()
    } else if es[0].1 is Null {
        live_entries(es.drop_first())
    } else {
        seq![es[0]] + live_entries(es.drop_first())
    }
}

/// The matchers' view of a node: its non-null object fields.
pub open spec fn live_of(j: JsonV) -> Seq<(Seq<char>, JsonV)> {
    match j {
        JsonV::Obj(es) => live_entries(es),
        _ => Seq::empty(),
    }
}

/// Whether the node is an object; only objects match any shape.
pub open spec fn is_obj(j: JsonV) -> bool {
    j is Obj
}

/// Every item of the list is a text.
pub open spec fn all_text_items(items: Seq<JsonV>) -> bool {
    forall|i: int| 0 <= i < items.len() ==> (#[trigger] items[i]) is Text
}

/// The texts of a list of text nodes.
pub open spec fn text_items(items: Seq<JsonV>) -> Seq<Seq<char>> {
    Seq::new(
        items.len(),
        |i: int|
            if 0 <= i < items.len() {
                match items[i] {
                    JsonV::Text(t) => t,
                    _ => Seq::empty(),
                }
            } else {
                Seq::empty()
            },
    )
}

/// A name occurring twice in the list.
pub open spec fn has_dup(names: Seq<Seq<char>>) -> bool {
    exists|i: int, j: int| 0 <= i < j < names.len() && names[i] == names[j]
}

/// The discriminator matcher's precondition: the node names a tag property
/// and maps tags to reference pointers.
pub open spec fn disc_parts(j: JsonV) -> Option<(Seq<char>, Seq<(Seq<char>, JsonV)>)> {
    match assoc_lookup(live_of(j), "discriminator"@) {
        Some(JsonV::Obj(des)) => match assoc_lookup(des, "propertyName"@) {
            Some(JsonV::Text(pn)) => match assoc_lookup(des, "mapping"@) {
                Some(JsonV::Obj(mes)) => if all_text_values(mes) {
                    Some((pn, mes))
                } else {
                    None
                },
                _ => None,
            },
            _ => None,
        },
        _ => None,
    }
}

/// The declared `required` names of a record-shaped node; `None` is a fatal
/// error: a `required` field that is not a list of names.
pub open spec fn req_list_spec(rv: Option<JsonV>) -> Option<Seq<Seq<char>>> {
    match rv {
        None => Some(Seq::empty()),
        Some(JsonV::Arr(rs)) => if all_text_items(rs) {
            Some(text_items(rs))
        } else {
            None
        },
        Some(_) => None,
    }
}

/// What the type resolver yields for a normalized node: the first shape
/// matcher that accepts the node decides, in the fixed order; `None` is a
/// fatal error. Every returned node carries `required = true`; the caller
/// overwrites the flag from its own context. The budget bounds pointer
/// jumps and nesting depth; a spent budget is a fatal error.
pub open spec fn resolve_spec(j: JsonV, all: JsonV, fuel: nat) -> Option<TypeV>
    decreases fuel, 1int, j,
{
    if fuel == 0 {
        None
    } else {
        let f = (fuel - 1) as nat;
        match disc_parts(j) {
            Some((pn, mes)) => match resolve_mapping_spec(sort_entries(mes), pn, all, f) {
                None => None,
                Some(list) => Some(TypeV::Union { required: true, list }),
            },
            None => match assoc_lookup(live_of(j), "oneOf"@) {
                Some(JsonV::Arr(items)) => {
                    if items.len() == 0 {
                        None
                    } else {
                        match resolve_list_spec(items, all, f) {
                            None => None,
                            Some(list) => {
                                if list.len() == 1 {
                                    Some(list[0])
                                } else {
                                    Some(TypeV::Union { required: true, list })
                                }
                            },
                        }
                    }
                },
                _ => resolve_typed(j, all, fuel),
            },
        }
    }
}

/// The matchers behind the union forms: typed nodes, wrappers, references,
/// and the empty and description-only shapes.
pub open spec fn resolve_typed(j: JsonV, all: JsonV, fuel: nat) -> Option<TypeV>
    decreases fuel, 0int, j,
{
    if fuel == 0 {
        None
    } else {
        let f = (fuel - 1) as nat;
        let live = live_of(j);
        match assoc_lookup(live, "type"@) {
            Some(JsonV::Text(tt)) if lower_chars(tt) == "string"@ => Some(
                TypeV::String { required: true },
            ),
            Some(JsonV::Text(tt)) if lower_chars(tt) == "integer"@ || lower_chars(tt)
                == "number"@ => Some(TypeV::Number { required: true }),
            Some(JsonV::Text(tt)) if lower_chars(tt) == "boolean"@ => Some(
                TypeV::Boolean { required: true },
            ),
            Some(JsonV::Text(tt)) if lower_chars(tt) == "array"@ => {
                match assoc_lookup(live, "items"@) {
                    None => None,
                    Some(it) => match resolve_spec(it, all, f) {
                        None => None,
                        Some(t) => Some(TypeV::Array { required: true, items: Box::new(t) }),
                    },
                }
            },
            Some(JsonV::Text(tt)) if lower_chars(tt) == "object"@ => resolve_object(j, all, fuel),
            _ => resolve_wrappers(j, all, fuel),
        }
    }
}

/// The open-map shape: the node shows exactly a `type` field and an
/// `additionalProperties` field.
pub open spec fn map_shape(live: Seq<(Seq<char>, JsonV)>) -> bool {
    live.len() == 2 && ((live[0].0 == "type"@ && live[1].0 == "additionalProperties"@) || (
    live[0].0 == "additionalProperties"@ && live[1].0 == "type"@))
}

/// The two object shapes: the open map (`additionalProperties` and nothing
/// else) and the record (`properties` with an optional `required` list). A
/// `type: object` node matching neither is a fatal error.
pub open spec fn resolve_object(j: JsonV, all: JsonV, fuel: nat) -> Option<TypeV>
    decreases fuel, 0int, j, 1int,
{
    if fuel == 0 {
        None
    } else {
        let f = (fuel - 1) as nat;
        let live = live_of(j);
        if map_shape(live) {
            match assoc_lookup(live, "additionalProperties"@) {
                None => None,
                Some(ap) => match resolve_spec(ap, all, f) {
                    None => None,
                    Some(t) => Some(TypeV::Record { required: true, value: Box::new(t) }),
                },
            }
        } else {
            match req_list_spec(assoc_lookup(live, "required"@)) {
                None => None,
                Some(req) => {
                    if has_dup(req) {
                        None
                    } else {
                        match assoc_lookup(live, "properties"@) {
                            None => Some(TypeV::Object { required: true, props: Seq::empty() }),
                            Some(JsonV::Obj(pes)) => {
                                match resolve_props_spec(pes, req, all, f, Seq::empty()) {
                                    None => None,
                                    Some(props) => Some(TypeV::Object { required: true, props }),
                                }
                            },
                            Some(_) => None,
                        }
                    }
                },
            }
        }
    }
}

/// The wrapper matchers: a single-media-type `content` map, a bare
/// `schema`, a reference, and the two empty shapes. Falling through them
/// all is a fatal error.
pub open spec fn resolve_wrappers(j: JsonV, all: JsonV, fuel: nat) -> Option<TypeV>
    decreases fuel, 0int, j, 0int,
{
    if fuel == 0 {
        None
    } else {
        let f = (fuel - 1) as nat;
        let live = live_of(j);
        match assoc_lookup(live, "content"@) {
            Some(JsonV::Obj(ces)) => {
                if ces.len() == 1 {
                    resolve_spec(ces[0].1, all, f)
                } else {
                    None
                }
            },
            _ => match assoc_lookup(live, "schema"@) {
                Some(s) => resolve_spec(s, all, f),
                None => {
                    if is_obj(j) && live.len() == 1 && live[0].0 == "$ref"@ && live[0].1 is Text {
                        match live[0].1 {
                            JsonV::Text(p) => match deref_path_spec(all, p) {
                                None => None,
                                Some(target) => resolve_spec(target, all, f),
                            },
                            _ => None,
                        }
                    } else if is_obj(j) && live.len() == 0 {
                        Some(TypeV::Unknown)
                    } else if is_obj(j) && live.len() == 1 && live[0].0 == "description"@
                        && live[0].1 is Text {
                        Some(TypeV::Unknown)
                    } else {
                        None
                    }
                },
            },
        }
    }
}

/// Each member of a `oneOf` list, resolved in turn.
pub open spec fn resolve_list_spec(items: Seq<JsonV>, all: JsonV, fuel: nat) -> Option<Seq<TypeV>>
    decreases fuel, 1int, items,
{
    if items.len() == 0 {
        Some(Seq::empty())
    } else {
        match resolve_spec(items[0], all, fuel) {
            None => None,
            Some(t) => match resolve_list_spec(items.drop_first(), all, fuel) {
                None => None,
                Some(rest) => Some(seq![t] + rest),
            },
        }
    }
}

/// Each entry of a discriminator mapping, sorted by tag: the pointer's
/// target is resolved, and the tag is injected into the resolved `Object` as
/// a required literal-string property named by the discriminator. A target
/// that does not resolve to an `Object`, or that already carries the tag
/// property, is a fatal error.
pub open spec fn resolve_mapping_spec(
    mes: Seq<(Seq<char>, JsonV)>,
    pn: Seq<char>,
    all: JsonV,
    fuel: nat,
) -> Option<Seq<TypeV>>
    decreases fuel, 1int, mes,
{
    if fuel == 0 {
        None
    } else if mes.len() == 0 {
        Some(Seq::empty())
    } else {
        match mes[0].1 {
            JsonV::Text(p) => match deref_path_spec(all, p) {
                None => None,
                Some(target) => match resolve_spec(target, all, (fuel - 1) as nat) {
                    None => None,
                    Some(t) => match t {
                        TypeV::Object { required, props } => {
                            if prop_key_present(props, pn) {
                                None
                            } else {
                                let tagged = TypeV::Object {
                                    required,
                                    props: insert_prop(
                                        props,
                                        pn,
                                        TypeV::LiteralString { required: true, value: mes[0].0 },
                                    ),
                                };
                                match resolve_mapping_spec(mes.drop_first(), pn, all, fuel) {
                                    None => None,
                                    Some(rest) => Some(seq![tagged] + rest),
                                }
                            }
                        },
                        _ => None,
                    },
                },
            },
            _ => None,
        }
    }
}

/// Each declared property, resolved and flagged by its membership in the
/// `required` list, then inserted in key order; a name bound twice is a
/// fatal error.
pub open spec fn resolve_props_spec(
    pes: Seq<(Seq<char>, JsonV)>,
    req: Seq<Seq<char>>,
    all: JsonV,
    fuel: nat,
    acc: Seq<(Seq<char>, TypeV)>,
) -> Option<Seq<(Seq<char>, TypeV)>>
    decreases fuel, 1int, pes,
{
    if pes.len() == 0 {
        Some(acc)
    } else {
        match resolve_spec(pes[0].1, all, fuel) {
            None => None,
            Some(t) => {
                if prop_key_present(acc, pes[0].0) {
                    None
                } else {
                    resolve_props_spec(
                        pes.drop_first(),
                        req,
                        all,
                        fuel,
                        insert_prop(acc, pes[0].0, t.with_req(req.contains(pes[0].0))),
                    )
                }
            },
        }
    }
}

/// The type resolver is deterministic: resolving one normalized node twice,
/// against one document and one budget, yields one structurally identical
/// type.
pub proof fn lemma_resolver_deterministic(j: JsonV, all: JsonV, fuel: nat, t1: TypeV, t2: TypeV)
    requires
        resolve_spec(j, all, fuel) == Some(t1),
        resolve_spec(j, all, fuel) == Some(t2),
    ensures
        t1 == t2,
{
}

/// Every property of a record-shaped resolution carries exactly the flag of
/// its membership in the declared `required` list. The one exception is a
/// property whose schema is the empty shape: its `Unknown` type carries no
/// flag at all.
pub proof fn lemma_object_required_flags(
    pes: Seq<(Seq<char>, JsonV)>,
    req: Seq<Seq<char>>,
    all: JsonV,
    fuel: nat,
    acc: Seq<(Seq<char>, TypeV)>,
    out: Seq<(Seq<char>, TypeV)>,
)
    requires
        resolve_props_spec(pes, req, all, fuel, acc) == Some(out),
        forall|i: int|
            0 <= i < acc.len() ==> !((#[trigger] acc[i]).1 is Unknown) ==> acc[i].1.req()
                == req.contains(acc[i].0),
    ensures
        forall|i: int|
            0 <= i < out.len() ==> !((#[trigger] out[i]).1 is Unknown) ==> out[i].1.req()
                == req.contains(out[i].0),
    decreases pes.len(),
{
    if pes.len() > 0 {
        let t = resolve_spec(pes[0].1, all, fuel).unwrap();
        let t2 = t.with_req(req.contains(pes[0].0));
        assert(!(t2 is Unknown) ==> t2.req() == req.contains(pes[0].0));
        lemma_insert_prop_flags(acc, pes[0].0, t2, req);
        lemma_object_required_flags(
            pes.drop_first(),
            req,
            all,
            fuel,
            insert_prop(acc, pes[0].0, t2),
            out,
        );
    }
}

/// An insertion keeps the flag-membership relation when the new entry has
/// it.
proof fn lemma_insert_prop_flags(
    props: Seq<(Seq<char>, TypeV)>,
    name: Seq<char>,
    v: TypeV,
    req: Seq<Seq<char>>,
)
    requires
        forall|i: int|
            0 <= i < props.len() ==> !((#[trigger] props[i]).1 is Unknown) ==> props[i].1.req()
                == req.contains(props[i].0),
        !(v is Unknown) ==> v.req() == req.contains(name),
    ensures
        forall|i: int|
            0 <= i < insert_prop(props, name, v).len() ==> !((#[trigger] insert_prop(
                props,
                name,
                v,
            )[i]).1 is Unknown) ==> insert_prop(props, name, v)[i].1.req() == req.contains(
                insert_prop(props, name, v)[i].0,
            ),
    decreases props.len(),
{
    let r = insert_prop(props, name, v);
    if props.len() == 0 {
        assert(r == seq![(name, v)]);
        assert(r[0] == (name, v));
    } else if crate::text::str_lt(name, props[0].0) {
        assert(r == seq![(name, v)] + props);
        assert forall|i: int| 0 <= i < r.len() implies !((#[trigger] r[i]).1 is Unknown)
            ==> r[i].1.req() == req.contains(r[i].0) by {
            if i == 0 {
                assert(r[0] == (name, v));
            } else {
                assert(r[i] == props[i - 1]);
            }
        }
    } else {
        assert forall|i: int|
            0 <= i < props.drop_first().len() implies !((#[trigger] props.drop_first()[i]).1
            is Unknown) ==> props.drop_first()[i].1.req() == req.contains(
            props.drop_first()[i].0,
        ) by {
            assert(props.drop_first()[i] == props[i + 1]);
        }
        lemma_insert_prop_flags(props.drop_first(), name, v, req);
        let tail = insert_prop(props.drop_first(), name, v);
        assert(r == seq![props[0]] + tail);
        assert forall|i: int| 0 <= i < r.len() implies !((#[trigger] r[i]).1 is Unknown)
            ==> r[i].1.req() == req.contains(r[i].0) by {
            if i == 0 {
                assert(r[0] == props[0]);
            } else {
                assert(r[i] == tail[i - 1]);
            }
        }
    }
}

/// A declared property name of a record-shaped node.
pub open spec fn pes_has_key(pes: Seq<(Seq<char>, JsonV)>, k: Seq<char>) -> bool {
    exists|i: int| 0 <= i < pes.len() && (#[trigger] pes[i]).0 == k
}

/// The property resolution binds exactly the names it was handed (and
/// whatever the accumulator already bound).
pub proof fn lemma_resolve_props_keys(
    pes: Seq<(Seq<char>, JsonV)>,
    req: Seq<Seq<char>>,
    all: JsonV,
    fuel: nat,
    acc: Seq<(Seq<char>, TypeV)>,
    out: Seq<(Seq<char>, TypeV)>,
)
    requires
        resolve_props_spec(pes, req, all, fuel, acc) == Some(out),
    ensures
        forall|k: Seq<char>|
            #[trigger] prop_key_present(out, k) == (prop_key_present(acc, k) || pes_has_key(
                pes,
                k,
            )),
    decreases pes.len(),
{
    if pes.len() == 0 {
        assert(out == acc);
        assert(forall|k: Seq<char>| !pes_has_key(pes, k));
    } else {
        let t = resolve_spec(pes[0].1, all, fuel).unwrap();
        let t2 = t.with_req(req.contains(pes[0].0));
        let acc2 = insert_prop(acc, pes[0].0, t2);
        crate::open_api_type::lemma_insert_prop_keys(acc, pes[0].0, t2);
        lemma_resolve_props_keys(pes.drop_first(), req, all, fuel, acc2, out);
        assert forall|k: Seq<char>| #[trigger] prop_key_present(out, k) == (prop_key_present(
            acc,
            k,
        ) || pes_has_key(pes, k)) by {
            assert(prop_key_present(out, k) == (prop_key_present(acc2, k) || pes_has_key(
                pes.drop_first(),
                k,
            )));
            assert(pes_has_key(pes, k) == (pes[0].0 == k || pes_has_key(pes.drop_first(), k)))
                by {
                if pes_has_key(pes, k) {
                    let i = choose|i: int| 0 <= i < pes.len() && (#[trigger] pes[i]).0 == k;
                    if i > 0 {
                        assert(pes.drop_first()[i - 1].0 == k);
                    }
                }
                if pes_has_key(pes.drop_first(), k) {
                    let i = choose|i: int|
                        0 <= i < pes.drop_first().len() && (#[trigger] pes.drop_first()[i]).0 == k;
                    assert(pes[i + 1].0 == k);
                }
                if pes[0].0 == k {
                    assert(pes_has_key(pes, k));
                }
            }
        }
    }
}

/// The record matcher in full: a `type: object` node that is no open map
/// resolves to an `Object` that binds exactly the declared property names,
/// and every property's flag equals its membership in the declared
/// `required` list — except a property whose schema is the empty shape,
/// whose `Unknown` type carries no flag.
pub proof fn lemma_record_shape_resolution(j: JsonV, all: JsonV, fuel: nat, t: TypeV)
    requires
        resolve_object(j, all, fuel) == Some(t),
        !map_shape(live_of(j)),
    ensures
        t is Object,
        forall|i: int|
            0 <= i < t.obj_props().len() ==> !((#[trigger] t.obj_props()[i]).1 is Unknown)
                ==> t.obj_props()[i].1.req() == req_list_spec(
                assoc_lookup(live_of(j), "required"@),
            ).unwrap().contains(t.obj_props()[i].0),
        match assoc_lookup(live_of(j), "properties"@) {
            None => t.obj_props().len() == 0,
            Some(pn) => pn is Obj && forall|k: Seq<char>|
                #[trigger] prop_key_present(t.obj_props(), k) == pes_has_key(pn->Obj_0, k),
        },
{
    let live = live_of(j);
    let req = req_list_spec(assoc_lookup(live, "required"@)).unwrap();
    match assoc_lookup(live, "properties"@) {
        None => {
        },
        Some(pn) => {
            match pn {
                JsonV::Obj(pes) => {
                    let props = t.obj_props();
                    assert(resolve_props_spec(pes, req, all, (fuel - 1) as nat, Seq::empty())
                        == Some(props));
                    lemma_object_required_flags(
                        pes,
                        req,
                        all,
                        (fuel - 1) as nat,
                        Seq::empty(),
                        props,
                    );
                    lemma_resolve_props_keys(pes, req, all, (fuel - 1) as nat, Seq::empty(), props);
                    assert(forall|k: Seq<char>| !prop_key_present(Seq::empty(), k)) by {
                        assert(Seq::<(Seq<char>, TypeV)>::empty().map_values(
                            |p: (Seq<char>, TypeV)| p.0,
                        ).len() == 0);
                    }
                },
                _ => {
                },
            }
        },
    }
}

/// Every variant of a discriminated union is the mapped schema's `Object`
/// with the tag injected: a required literal-string property, named by the
/// discriminator, whose value is the variant's mapping key; and the
/// variants match the mapping entries one for one.
pub proof fn lemma_discriminator_variants(
    mes: Seq<(Seq<char>, JsonV)>,
    pn: Seq<char>,
    all: JsonV,
    fuel: nat,
    out: Seq<TypeV>,
)
    requires
        resolve_mapping_spec(mes, pn, all, fuel) == Some(out),
    ensures
        out.len() == mes.len(),
        forall|i: int|
            0 <= i < out.len() ==> (#[trigger] out[i]) is Object
                && crate::open_api_type::tprop_lookup(out[i].obj_props(), pn) == Some(
                TypeV::LiteralString { required: true, value: mes[i].0 },
            ),
    decreases mes.len(),
{
    if mes.len() > 0 {
        match mes[0].1 {
            JsonV::Text(p) => {
                let target = deref_path_spec(all, p).unwrap();
                let t = resolve_spec(target, all, (fuel - 1) as nat).unwrap();
                match t {
                    TypeV::Object { required, props } => {
                        let tagged = TypeV::Object {
                            required,
                            props: insert_prop(
                                props,
                                pn,
                                TypeV::LiteralString { required: true, value: mes[0].0 },
                            ),
                        };
                        let rest = resolve_mapping_spec(
                            mes.drop_first(),
                            pn,
                            all,
                            fuel,
                        ).unwrap();
                        lemma_discriminator_variants(mes.drop_first(), pn, all, fuel, rest);
                        crate::open_api_type::lemma_insert_prop_lookup(
                            props,
                            pn,
                            TypeV::LiteralString { required: true, value: mes[0].0 },
                        );
                        assert(out == seq![tagged] + rest);
                        assert forall|i: int| 0 <= i < out.len() implies (#[trigger] out[i])
                            is Object && crate::open_api_type::tprop_lookup(out[i].obj_props(), pn)
                            == Some(TypeV::LiteralString { required: true, value: mes[i].0 }) by {
                            if i == 0 {
                                assert(out[0] == tagged);
                            } else {
                                assert(out[i] == rest[i - 1]);
                                assert(mes[i] == mes.drop_first()[i - 1]);
                            }
                        }
                    },
                    _ => {
                    },
                }
            },
            _ => {
            },
        }
    }
}

/// The matchers' working view of a node: references to its non-null fields.
#[verifier::loop_isolation(false)]
fn live_vec<'a>(j: &'a Json) -> (r: Vec<(&'a String, &'a Json)>)
    ensures
        r@.len() == live_of(j@).len(),
        forall|i: int|
            0 <= i < r@.len() ==> ((#[trigger] r@[i]).0@, r@[i].1@) == live_of(j@)[i],
{
    let mut out: Vec<(&String, &Json)> = Vec::new();
    match j {
        Json::Obj(es) => {
            let ghost ev = entries_view(es@);
            let ghost lv = live_entries(ev);
            let mut i: usize = 0;
            proof {
                assert(live_of(j@) == lv);
                assert(ev.skip(0) =~= ev);
                assert(out_view(out@) =~= Seq::<(Seq<char>, JsonV)>::empty());
            }
            while i < es.len()
                invariant
                    0 <= i <= es@.len(),
                    lv == out_view(out@) + live_entries(ev.skip(i as int)),
                decreases es@.len() - i,
            {
                proof {
                    assert(ev.skip(i as int)[0] == ev[i as int]);
                    assert(ev[i as int] == (es@[i as int].0@, es@[i as int].1@));
                    assert(ev.skip(i as int).drop_first() =~= ev.skip(i + 1));
                }
                let e = &es[i];
                if !e.1.is_null() {
                    let ghost before = out_view(out@);
                    out.push((&e.0, &e.1));
                    proof {
                        assert(out_view(out@) =~= before + seq![ev[i as int]]);
                        assert(live_entries(ev.skip(i as int)) == seq![ev[i as int]]
                            + live_entries(ev.skip(i + 1)));
                        assert(before + (seq![ev[i as int]] + live_entries(ev.skip(i + 1))) =~= (
                        before + seq![ev[i as int]]) + live_entries(ev.skip(i + 1)));
                    }
                } else {
                    proof {
                        assert(live_entries(ev.skip(i as int)) == live_entries(ev.skip(i + 1)));
                    }
                }
                i = i + 1;
            }
            proof {
                assert(ev.skip(i as int).len() == 0);
                assert(live_entries(ev.skip(i as int)) =~= Seq::<(Seq<char>, JsonV)>::empty());
                assert(lv =~= out_view(out@));
                assert forall|q: int| 0 <= q < out@.len() implies ((#[trigger] out@[q]).0@,
                out@[q].1@) == lv[q] by {
                    assert(out_view(out@)[q] == (out@[q].0@, out@[q].1@));
                }
            }
            out
        },
        _ => {
            proof {
                assert(live_of(j@).len() == 0);
            }
            out
        },
    }
}

/// The model of the working view.
pub open spec fn out_view(v: Seq<(&String, &Json)>) -> Seq<(Seq<char>, JsonV)> {
    Seq::new(v.len(), |i: int| if 0 <= i < v.len() {
        (v[i].0@, v[i].1@)
    } else {
        (Seq::empty(), JsonV::Null)
    })
}

/// The first live field with the given name.
#[verifier::loop_isolation(false)]
fn lv_get<'a>(lv: &Vec<(&'a String, &'a Json)>, key: &str, Ghost(le): Ghost<
    Seq<(Seq<char>, JsonV)>,
>) -> (r: Option<&'a Json>)
    requires
        lv@.len() == le.len(),
        forall|i: int| 0 <= i < lv@.len() ==> ((#[trigger] lv@[i]).0@, lv@[i].1@) == le[i],
    ensures
        match r {
            Some(v) => assoc_lookup(le, key@) == Some(v@),
            None => assoc_lookup(le, key@) is None,
        },
{
    let mut i: usize = 0;
    proof {
        assert(le.skip(0) =~= le);
    }
    while i < lv.len()
        invariant
            0 <= i <= lv@.len(),
            assoc_lookup(le, key@) == assoc_lookup(le.skip(i as int), key@),
        decreases lv@.len() - i,
    {
        proof {
            assert(le.skip(i as int)[0] == le[i as int]);
            assert(le.skip(i as int).drop_first() =~= le.skip(i + 1));
        }
        if crate::text::str_eq(lv[i].0.as_str(), key) {
            return Some(lv[i].1);
        }
        i = i + 1;
    }
    proof {
        assert(le.skip(i as int).len() == 0);
    }
    None
}

/// Tests whether every value of the entry list is a text.
#[verifier::loop_isolation(false)]
fn check_all_text_entries(es: &Vec<(String, Json)>) -> (r: bool)
    ensures
        r == all_text_values(entries_view(es@)),
{
    let ghost ev = entries_view(es@);
    let mut i: usize = 0;
    while i < es.len()
        invariant
            0 <= i <= es@.len(),
            forall|k: int| 0 <= k < i ==> (#[trigger] ev[k].1) is Text,
        decreases es@.len() - i,
    {
        let is_text = match &es[i].1 {
            Json::Text(_) => true,
            _ => false,
        };
        proof {
            assert(ev[i as int].1 == es@[i as int].1@);
        }
        if !is_text {
            proof {
                assert(!(ev[i as int].1 is Text));
                assert(!all_text_values(ev));
            }
            return false;
        }
        i = i + 1;
    }
    true
}

/// Copies an entry list; the copy has the same model.
#[verifier::loop_isolation(false)]
fn clone_entries(es: &Vec<(String, Json)>) -> (r: Vec<(String, Json)>)
    ensures
        entries_view(r@) == entries_view(es@),
{
    let mut out: Vec<(String, Json)> = Vec::new();
    let mut i: usize = 0;
    while i < es.len()
        invariant
            0 <= i <= es@.len(),
            out@.len() == i,
            forall|k: int|
                0 <= k < i ==> (#[trigger] out@[k]).0@ == es@[k].0@ && out@[k].1@ == es@[k].1@,
        decreases es@.len() - i,
    {
        let e = &es[i];
        out.push((e.0.clone(), crate::json::json_clone(&e.1)));
        i = i + 1;
    }
    proof {
        assert(entries_view(out@) =~= entries_view(es@));
    }
    out
}

/// Whether a name stands in the list.
#[verifier::loop_isolation(false)]
fn names_contain(names: &Vec<String>, x: &str) -> (r: bool)
    ensures
        r == names.deep_view().contains(x@),
{
    let mut i: usize = 0;
    while i < names.len()
        invariant
            0 <= i <= names@.len(),
            forall|k: int| 0 <= k < i ==> #[trigger] names.deep_view()[k] != x@,
        decreases names@.len() - i,
    {
        proof {
            assert(names.deep_view()[i as int] == names@[i as int]@);
        }
        if crate::text::str_eq(names[i].as_str(), x) {
            proof {
                assert(names.deep_view().contains(x@));
            }
            return true;
        }
        i = i + 1;
    }
    proof {
        assert(forall|k: int|
            0 <= k < names.deep_view().len() ==> #[trigger] names.deep_view()[k] != x@);
    }
    false
}

/// Reads the declared `required` names of a record-shaped node; a value that
/// is not a list of names, or a name listed twice, is refused.
#[verifier::loop_isolation(false)]
pub fn convert_required(req: Option<&Json>, Ghost(rv): Ghost<Option<JsonV>>) -> (r: Result<
    Vec<String>,
    ErrorProcess,
>)
    requires
        match req {
            None => rv is None,
            Some(x) => rv == Some(x@),
        },
    ensures
        match r {
            Ok(names) => req_list_spec(rv) == Some(names.deep_view()) && !has_dup(
                names.deep_view(),
            ),
            Err(e) => (req_list_spec(rv) is None || has_dup(req_list_spec(rv).unwrap())) && e
                is Message,
        },
{
    let node = match req {
        None => {
            let names: Vec<String> = Vec::new();
            proof {
                assert(names.deep_view() =~= Seq::<Seq<char>>::empty());
                assert(req_list_spec(rv) == Some(names.deep_view()));
            }
            return Ok(names);
        },
        Some(node) => node,
    };
    let items = match node {
        Json::Arr(items) => items,
        _ => {
            return Err(
                ErrorProcess::Message(
                    String::from_str("the required list must be a list of names"),
                ),
            );
        },
    };
    let ghost iv = arr_view(items@);
    let mut names: Vec<String> = Vec::new();
    let mut i: usize = 0;
    while i < items.len()
        invariant
            0 <= i <= items@.len(),
            names@.len() == i,
            forall|k: int| 0 <= k < i ==> (#[trigger] iv[k]) is Text,
            forall|k: int| 0 <= k < i ==> #[trigger] names.deep_view()[k] == text_items(iv)[k],
        decreases items@.len() - i,
    {
        proof {
            assert(iv[i as int] == items@[i as int]@);
        }
        let t = match &items[i] {
            Json::Text(t) => t,
            _ => {
                proof {
                    assert(!(iv[i as int] is Text));
                    assert(!all_text_items(iv));
                }
                return Err(
                    ErrorProcess::Message(
                        String::from_str("the required list must be a list of names"),
                    ),
                );
            },
        };
        proof {
            assert(items@[i as int] == Json::Text(*t));
            assert(iv[i as int] == JsonV::Text(t@));
            assert(text_items(iv)[i as int] == t@);
        }
        let ghost prev = names;
        names.push(t.clone());
        proof {
            assert forall|k: int| 0 <= k < i + 1 implies #[trigger] names.deep_view()[k]
                == text_items(iv)[k] by {
                assert(names.deep_view()[k] == names@[k]@);
                if k < i {
                    assert(prev.deep_view()[k] == text_items(iv)[k]);
                    assert(prev.deep_view()[k] == prev@[k]@);
                    assert(names@[k] == prev@[k]);
                }
            }
        }
        i = i + 1;
    }
    proof {
        assert(all_text_items(iv)) by {
            assert(forall|k: int| 0 <= k < iv.len() ==> (#[trigger] iv[k]) is Text);
        }
        assert(names.deep_view() =~= text_items(iv));
    }
    // refuse a name listed twice
    let mut a: usize = 0;
    while a < names.len()
        invariant
            0 <= a <= names@.len(),
            forall|x: int, y: int|
                0 <= x < y < names.deep_view().len() && x < a ==> #[trigger] names.deep_view()[x]
                    != #[trigger] names.deep_view()[y],
            names.deep_view() == text_items(iv),
        decreases names@.len() - a,
    {
        let mut b: usize = a + 1;
        while b < names.len()
            invariant
                0 <= a < b <= names@.len(),
                forall|y: int|
                    a < y < b ==> names.deep_view()[a as int] != #[trigger] names.deep_view()[y],
                forall|x: int, y: int|
                    0 <= x < y < names.deep_view().len() && x < a ==> #[trigger] names.deep_view()[x]
                        != #[trigger] names.deep_view()[y],
                names.deep_view() == text_items(iv),
            decreases names@.len() - b,
        {
            proof {
                assert(names.deep_view()[a as int] == names@[a as int]@);
                assert(names.deep_view()[b as int] == names@[b as int]@);
            }
            if crate::text::str_eq(names[a].as_str(), names[b].as_str()) {
                proof {
                    assert(has_dup(names.deep_view()));
                }
                let mut m = String::from_str("the required list names an entry twice: ");
                m.append(names[a].as_str());
                return Err(ErrorProcess::Message(m));
            }
            b = b + 1;
        }
        a = a + 1;
    }
    proof {
        assert(!has_dup(names.deep_view()));
    }
    Ok(names)
}

/// Fires the discriminator matcher: the tag property name and the pointer
/// mapping, when the node declares both.
#[verifier::loop_isolation(false)]
fn disc_probe<'a>(
    data: &Json,
    lv: &Vec<(&'a String, &'a Json)>,
    Ghost(le): Ghost<Seq<(Seq<char>, JsonV)>>,
) -> (r: Option<(&'a String, &'a Vec<(String, Json)>)>)
    requires
        le == live_of(data@),
        lv@.len() == le.len(),
        forall|i: int| 0 <= i < lv@.len() ==> ((#[trigger] lv@[i]).0@, lv@[i].1@) == le[i],
    ensures
        match r {
            Some(parts) => disc_parts(data@) == Some((parts.0@, entries_view(parts.1@))),
            None => disc_parts(data@) is None,
        },
{
    let d = match lv_get(lv, "discriminator", Ghost(le)) {
        Some(d) => d,
        None => {
            return None;
        },
    };
    let des = match d {
        Json::Obj(des) => des,
        _ => {
            return None;
        },
    };
    let pn = match crate::json::entries_get(des, "propertyName") {
        Some(Json::Text(pn)) => pn,
        _ => {
            return None;
        },
    };
    let mes = match crate::json::entries_get(des, "mapping") {
        Some(Json::Obj(mes)) => mes,
        _ => {
            return None;
        },
    };
    if !check_all_text_entries(mes) {
        return None;
    }
    Some((pn, mes))
}

/// Resolves each member of a `oneOf` list.
#[verifier::loop_isolation(false)]
fn resolve_list_exec(items: &Vec<Json>, all: &Json, fuel: u64) -> (r: Result<
    Vec<OpenApiType>,
    ErrorProcess,
>)
    ensures
        match r {
            Ok(out) => resolve_list_spec(arr_view(items@), all@, fuel as nat) == Some(
                list_view(out@),
            ) && (forall|i: int| 0 <= i < out@.len() ==> (#[trigger] out@[i]@).wf()),
            Err(e) => resolve_list_spec(arr_view(items@), all@, fuel as nat) is None && e
                is Message,
        },
    decreases fuel, 1int, *items,
{
    let ghost iv = arr_view(items@);
    let mut out: Vec<OpenApiType> = Vec::new();
    let mut i: usize = 0;
    proof {
        assert(iv.skip(0) =~= iv);
        assert(list_view(out@) =~= Seq::<TypeV>::empty());
    }
    while i < items.len()
        invariant
            0 <= i <= items@.len(),
            forall|k: int| 0 <= k < out@.len() ==> (#[trigger] out@[k]@).wf(),
            resolve_list_spec(iv, all@, fuel as nat) == (match resolve_list_spec(
                iv.skip(i as int),
                all@,
                fuel as nat,
            ) {
                None => None,
                Some(rest) => Some(list_view(out@) + rest),
            }),
        decreases items@.len() - i,
    {
        proof {
            assert(iv.skip(i as int)[0] == iv[i as int]);
            assert(iv[i as int] == items@[i as int]@);
            assert(iv.skip(i as int).drop_first() =~= iv.skip(i + 1));
            assert(decreases_to!(*items => items@[i as int]));
        }
        let ghost before = list_view(out@);
        let t = match parse_type(&items[i], all, fuel) {
            Ok(t) => t,
            Err(e) => {
                return Err(e);
            },
        };
        let ghost prev = out;
        out.push(t);
        proof {
            let h = resolve_spec(iv[i as int], all@, fuel as nat).unwrap();
            assert(list_view(out@) =~= before + seq![h]);
            assert forall|rest: Seq<TypeV>| true implies before + (seq![h] + rest) == list_view(
                out@,
            ) + rest by {
                assert(before + (seq![h] + rest) =~= (before + seq![h]) + rest);
            }
            assert forall|k: int| 0 <= k < out@.len() implies (#[trigger] out@[k]@).wf() by {
                if k < prev@.len() {
                    assert(out@[k] == prev@[k]);
                }
            }
        }
        i = i + 1;
    }
    proof {
        assert(iv.skip(i as int).len() == 0);
        assert(resolve_list_spec(iv.skip(i as int), all@, fuel as nat) == Some(
            Seq::<TypeV>::empty(),
        ));
        assert(list_view(out@) + Seq::<TypeV>::empty() =~= list_view(out@));
    }
    Ok(out)
}

/// Resolves each entry of a sorted discriminator mapping and injects the
/// tag into the resolved variant.
#[verifier::loop_isolation(false)]
fn resolve_mapping_exec(mes: &Vec<(String, Json)>, pn: &str, all: &Json, fuel: u64) -> (r: Result<
    Vec<OpenApiType>,
    ErrorProcess,
>)
    ensures
        match r {
            Ok(out) => resolve_mapping_spec(entries_view(mes@), pn@, all@, fuel as nat) == Some(
                list_view(out@),
            ) && (forall|i: int| 0 <= i < out@.len() ==> (#[trigger] out@[i]@).wf()),
            Err(e) => resolve_mapping_spec(entries_view(mes@), pn@, all@, fuel as nat) is None
                && e is Message,
        },
    decreases fuel, 1int, *mes,
{
    if fuel == 0 {
        return Err(ErrorProcess::Message(String::from_str("resolver depth limit reached")));
    }
    let ghost mv = entries_view(mes@);
    let mut out: Vec<OpenApiType> = Vec::new();
    let mut i: usize = 0;
    proof {
        assert(mv.skip(0) =~= mv);
        assert(list_view(out@) =~= Seq::<TypeV>::empty());
    }
    while i < mes.len()
        invariant
            0 <= i <= mes@.len(),
            fuel > 0,
            forall|k: int| 0 <= k < out@.len() ==> (#[trigger] out@[k]@).wf(),
            resolve_mapping_spec(mv, pn@, all@, fuel as nat) == (match resolve_mapping_spec(
                mv.skip(i as int),
                pn@,
                all@,
                fuel as nat,
            ) {
                None => None,
                Some(rest) => Some(list_view(out@) + rest),
            }),
        decreases mes@.len() - i,
    {
        proof {
            assert(mv.skip(i as int)[0] == mv[i as int]);
            assert(mv[i as int] == (mes@[i as int].0@, mes@[i as int].1@));
            assert(mv.skip(i as int).drop_first() =~= mv.skip(i + 1));
        }
        let e = &mes[i];
        let p = match &e.1 {
            Json::Text(p) => p,
            _ => {
                return Err(
                    ErrorProcess::Message(
                        String::from_str("expected a pointer text in discriminator mapping"),
                    ),
                );
            },
        };
        let target = match go_to_spec(all, p.as_str()) {
            Ok(t) => t,
            Err(err) => {
                return Err(err);
            },
        };
        let mut t = match parse_type(target, all, fuel - 1) {
            Ok(t) => t,
            Err(err) => {
                return Err(err);
            },
        };
        let res = t.object_try_add_literal_field(String::from_str(pn), e.0.clone());
        match res {
            Ok(_) => {
            },
            Err(err) => {
                return Err(err);
            },
        }
        let ghost before = list_view(out@);
        let ghost prev = out;
        out.push(t);
        proof {
            let h = list_view(out@).last();
            assert(list_view(out@) =~= before + seq![h]);
            assert forall|rest: Seq<TypeV>| true implies before + (seq![h] + rest) == list_view(
                out@,
            ) + rest by {
                assert(before + (seq![h] + rest) =~= (before + seq![h]) + rest);
            }
            assert forall|k: int| 0 <= k < out@.len() implies (#[trigger] out@[k]@).wf() by {
                if k < prev@.len() {
                    assert(out@[k] == prev@[k]);
                }
            }
        }
        i = i + 1;
    }
    proof {
        assert(mv.skip(i as int).len() == 0);
        assert(resolve_mapping_spec(mv.skip(i as int), pn@, all@, fuel as nat) == Some(
            Seq::<TypeV>::empty(),
        ));
        assert(list_view(out@) + Seq::<TypeV>::empty() =~= list_view(out@));
    }
    Ok(out)
}

/// The typed matchers: primitives, arrays and the two object shapes.
#[verifier::loop_isolation(false)]
fn parse_typed<'a>(
    data: &Json,
    lv: &Vec<(&'a String, &'a Json)>,
    Ghost(le): Ghost<Seq<(Seq<char>, JsonV)>>,
    all_spec: &Json,
    fuel: u64,
) -> (r: Result<OpenApiType, ErrorProcess>)
    requires
        le == live_of(data@),
        lv@.len() == le.len(),
        forall|i: int| 0 <= i < lv@.len() ==> ((#[trigger] lv@[i]).0@, lv@[i].1@) == le[i],
    ensures
        match r {
            Ok(t) => resolve_typed(data@, all_spec@, fuel as nat) == Some(t@) && t@.wf(),
            Err(e) => resolve_typed(data@, all_spec@, fuel as nat) is None && e is Message,
        },
    decreases fuel, 0int, *data,
{
    if fuel == 0 {
        return Err(ErrorProcess::Message(String::from_str("resolver depth limit reached")));
    }
    let tv = lv_get(lv, "type", Ghost(le));
    let token = match tv {
        Some(t) => match t {
            Json::Text(tt) => Some(tt),
            _ => None,
        },
        None => None,
    };
    match token {
        Some(tt) => {
            let tl = crate::text::to_lower_str(tt.as_str());
            if crate::text::str_eq(tl.as_str(), "string") {
                Ok(OpenApiType::String { required: true })
            } else if crate::text::str_eq(tl.as_str(), "integer") || crate::text::str_eq(
                tl.as_str(),
                "number",
            ) {
                Ok(OpenApiType::Number { required: true })
            } else if crate::text::str_eq(tl.as_str(), "boolean") {
                Ok(OpenApiType::Boolean { required: true })
            } else if crate::text::str_eq(tl.as_str(), "array") {
                let it = match lv_get(lv, "items", Ghost(le)) {
                    Some(it) => it,
                    None => {
                        return Err(
                            ErrorProcess::Message(
                                String::from_str("an array schema needs an items schema"),
                            ),
                        );
                    },
                };
                let t = match parse_type(it, all_spec, fuel - 1) {
                    Ok(t) => t,
                    Err(e) => {
                        return Err(e);
                    },
                };
                Ok(OpenApiType::Array { required: true, items: Box::new(t) })
            } else if crate::text::str_eq(tl.as_str(), "object") {
                parse_object(data, lv, Ghost(le), all_spec, fuel)
            } else {
                parse_wrappers(data, lv, Ghost(le), all_spec, fuel)
            }
        },
        None => parse_wrappers(data, lv, Ghost(le), all_spec, fuel),
    }
}

/// The two object shapes: the open map and the record with its `required`
/// list.
#[verifier::loop_isolation(false)]
fn parse_object<'a>(
    data: &Json,
    lv: &Vec<(&'a String, &'a Json)>,
    Ghost(le): Ghost<Seq<(Seq<char>, JsonV)>>,
    all_spec: &Json,
    fuel: u64,
) -> (r: Result<OpenApiType, ErrorProcess>)
    requires
        le == live_of(data@),
        lv@.len() == le.len(),
        forall|i: int| 0 <= i < lv@.len() ==> ((#[trigger] lv@[i]).0@, lv@[i].1@) == le[i],
    ensures
        match r {
            Ok(t) => resolve_object(data@, all_spec@, fuel as nat) == Some(t@) && t@.wf(),
            Err(e) => resolve_object(data@, all_spec@, fuel as nat) is None && e is Message,
        },
    decreases fuel, 0int, *data, 1int,
{
    if fuel == 0 {
        return Err(ErrorProcess::Message(String::from_str("resolver depth limit reached")));
    }
    let mut map_shape = false;
    if lv.len() == 2 {
        proof {
            assert((lv@[0].0@, lv@[0].1@) == le[0]);
            assert((lv@[1].0@, lv@[1].1@) == le[1]);
        }
        let k0 = lv[0].0;
        let k1 = lv[1].0;
        if crate::text::str_eq(k0.as_str(), "type") && crate::text::str_eq(
            k1.as_str(),
            "additionalProperties",
        ) {
            map_shape = true;
        }
        if crate::text::str_eq(k0.as_str(), "additionalProperties") && crate::text::str_eq(
            k1.as_str(),
            "type",
        ) {
            map_shape = true;
        }
    }
    if map_shape {
        let ap = match lv_get(lv, "additionalProperties", Ghost(le)) {
            Some(ap) => ap,
            None => {
                return Err(
                    ErrorProcess::Message(String::from_str("no additionalProperties value")),
                );
            },
        };
        let t = match parse_type(ap, all_spec, fuel - 1) {
            Ok(t) => t,
            Err(e) => {
                return Err(e);
            },
        };
        return Ok(OpenApiType::Record { required: true, value: Box::new(t) });
    }
    let req_node = lv_get(lv, "required", Ghost(le));
    let req_names = match convert_required(req_node, Ghost(assoc_lookup(le, "required"@))) {
        Ok(names) => names,
        Err(e) => {
            return Err(e);
        },
    };
    let props_node = match lv_get(lv, "properties", Ghost(le)) {
        None => {
            let t = OpenApiType::Object { required: true, props: OrderHashMap::new() };
            proof {
                assert(props_view(Seq::<(String, OpenApiType)>::empty()) =~= Seq::<
                    (Seq<char>, TypeV),
                >::empty());
                assert(t@->Object_props.len() == 0);
                assert(props_wf_each(t@->Object_props));
                assert(props_sorted(t@->Object_props));
            }
            return Ok(t);
        },
        Some(p) => p,
    };
    let pes = match props_node {
        Json::Obj(pes) => pes,
        _ => {
            return Err(
                ErrorProcess::Message(String::from_str("the properties field must be an object")),
            );
        },
    };
    let ghost pv = entries_view(pes@);
    let ghost req_dv = req_names.deep_view();
    let ghost f = (fuel - 1) as nat;
    let mut map: OrderHashMap<String, OpenApiType> = OrderHashMap::new();
    let mut i: usize = 0;
    proof {
        assert(pv.skip(0) =~= pv);
        assert(props_view(map.kv_seq()) =~= Seq::<(Seq<char>, TypeV)>::empty());
        assert(crate::open_api_type::props_wf_each(props_view(map.kv_seq())));
    }
    while i < pes.len()
        invariant
            0 <= i <= pes@.len(),
            map.wf(),
            props_wf_each(props_view(map.kv_seq())),
            resolve_props_spec(pv, req_dv, all_spec@, f, Seq::empty()) == resolve_props_spec(
                pv.skip(i as int),
                req_dv,
                all_spec@,
                f,
                props_view(map.kv_seq()),
            ),
        decreases pes@.len() - i,
    {
        proof {
            assert(pv.skip(i as int)[0] == pv[i as int]);
            assert(pv[i as int] == (pes@[i as int].0@, pes@[i as int].1@));
            assert(pv.skip(i as int).drop_first() =~= pv.skip(i + 1));
            assert(decreases_to!(*pes => pes@[i as int]));
            assert(decreases_to!(pes@[i as int] => pes@[i as int].1));
        }
        let e = &pes[i];
        let t = match parse_type(&e.1, all_spec, fuel - 1) {
            Ok(t) => t,
            Err(err) => {
                return Err(err);
            },
        };
        let c = names_contain(&req_names, e.0.as_str());
        let t2 = t.set_required(c);
        proof {
            lemma_with_req_wf(t@, c);
        }
        let ghost old_kv = map.kv_seq();
        let res = map.expect_insert(e.0.clone(), t2);
        proof {
            lemma_contains_commutes_with_view(old_kv, pv[i as int].0);
        }
        match res {
            Ok(_) => {
                proof {
                    lemma_insert_commutes_with_view(old_kv, pv[i as int].0, t2@);
                    lemma_insert_prop_wf(props_view(old_kv), pv[i as int].0, t2@);
                }
            },
            Err(err) => {
                return Err(err);
            },
        }
        i = i + 1;
    }
    proof {
        assert(pv.skip(i as int).len() == 0);
        assert(resolve_props_spec(pv.skip(i as int), req_dv, all_spec@, f, props_view(map.kv_seq()))
            == Some(props_view(map.kv_seq())));
        assert forall|a: int, b: int| 0 <= a < b < props_view(map.kv_seq()).len() implies
            crate::text::str_lt(
            props_view(map.kv_seq())[a].0,
            props_view(map.kv_seq())[b].0,
        ) by {
            assert(props_view(map.kv_seq())[a].0 == map.kv_seq()[a].0@);
            assert(props_view(map.kv_seq())[b].0 == map.kv_seq()[b].0@);
            assert(<String as SortKey>::lt_repr(map.kv_seq()[a].0.repr(), map.kv_seq()[b].0.repr()));
        }
        assert(props_sorted(props_view(map.kv_seq())));
    }
    Ok(OpenApiType::Object { required: true, props: map })
}

/// The wrapper matchers: a single-media-type `content` map, a bare
/// `schema`, a reference, the empty shape and the description-only shape.
#[verifier::loop_isolation(false)]
fn parse_wrappers<'a>(
    data: &Json,
    lv: &Vec<(&'a String, &'a Json)>,
    Ghost(le): Ghost<Seq<(Seq<char>, JsonV)>>,
    all_spec: &Json,
    fuel: u64,
) -> (r: Result<OpenApiType, ErrorProcess>)
    requires
        le == live_of(data@),
        lv@.len() == le.len(),
        forall|i: int| 0 <= i < lv@.len() ==> ((#[trigger] lv@[i]).0@, lv@[i].1@) == le[i],
    ensures
        match r {
            Ok(t) => resolve_wrappers(data@, all_spec@, fuel as nat) == Some(t@) && t@.wf(),
            Err(e) => resolve_wrappers(data@, all_spec@, fuel as nat) is None && e is Message,
        },
    decreases fuel, 0int, *data, 0int,
{
    if fuel == 0 {
        return Err(ErrorProcess::Message(String::from_str("resolver depth limit reached")));
    }
    let content = lv_get(lv, "content", Ghost(le));
    let content_obj = match content {
        Some(c) => match c {
            Json::Obj(ces) => Some(ces),
            _ => None,
        },
        None => None,
    };
    match content_obj {
        Some(ces) => {
            proof {
                assert(assoc_lookup(le, "content"@) == Some(JsonV::Obj(entries_view(ces@))));
            }
            if ces.len() == 1 {
                proof {
                    assert(entries_view(ces@)[0].1 == ces@[0].1@);
                }
                parse_type(&ces[0].1, all_spec, fuel - 1)
            } else if ces.len() == 0 {
                Err(ErrorProcess::Message(String::from_str("schema is missing")))
            } else {
                let mut media: Vec<String> = Vec::new();
                let mut q: usize = 0;
                while q < ces.len()
                    invariant
                        0 <= q <= ces@.len(),
                    decreases ces@.len() - q,
                {
                    media.push(ces[q].0.clone());
                    q = q + 1;
                }
                let joined = crate::text::join_str(&media, ", ");
                let mut m = String::from_str("one media type was expected under content, received ");
                m.append(joined.as_str());
                Err(ErrorProcess::Message(m))
            }
        },
        None => {
            match lv_get(lv, "schema", Ghost(le)) {
                Some(s) => parse_type(s, all_spec, fuel - 1),
                None => {
                    let node_is_obj = match data {
                        Json::Obj(_) => true,
                        _ => false,
                    };
                    if node_is_obj && lv.len() == 1 {
                        if crate::text::str_eq(lv[0].0.as_str(), "$ref") {
                            let p = match lv[0].1 {
                                Json::Text(p) => p,
                                _ => {
                                    let mut m = String::from_str(
                                        "no shape matcher accepts the node ",
                                    );
                                    m.append(crate::json::render_json(data).as_str());
                                    return Err(ErrorProcess::Message(m));
                                },
                            };
                            let target = match go_to_spec(all_spec, p.as_str()) {
                                Ok(t) => t,
                                Err(e) => {
                                    return Err(e);
                                },
                            };
                            return parse_type(target, all_spec, fuel - 1);
                        }
                        if crate::text::str_eq(lv[0].0.as_str(), "description") {
                            let is_text = match lv[0].1 {
                                Json::Text(_) => true,
                                _ => false,
                            };
                            if is_text {
                                return Ok(OpenApiType::Unknown);
                            }
                        }
                        let mut m = String::from_str("no shape matcher accepts the node ");
                        m.append(crate::json::render_json(data).as_str());
                        return Err(ErrorProcess::Message(m));
                    }
                    if node_is_obj && lv.len() == 0 {
                        return Ok(OpenApiType::Unknown);
                    }
                    {
                        let mut m = String::from_str("no shape matcher accepts the node ");
                        m.append(crate::json::render_json(data).as_str());
                        Err(ErrorProcess::Message(m))
                    }
                },
            }
        },
    }
}

/// Resolves a normalized schema node into the canonical type
/// representation: the first shape matcher that accepts the node decides.
/// Every error is fatal for the node, carrying a diagnostic. The budget
/// bounds pointer jumps and nesting depth.
#[verifier::loop_isolation(false)]
pub fn parse_type(data: &Json, all_spec: &Json, fuel: u64) -> (r: Result<
    OpenApiType,
    ErrorProcess,
>)
    ensures
        match r {
            Ok(t) => resolve_spec(data@, all_spec@, fuel as nat) == Some(t@) && t@.wf(),
            Err(e) => resolve_spec(data@, all_spec@, fuel as nat) is None && e is Message,
        },
    decreases fuel, 1int, *data,
{
    if fuel == 0 {
        return Err(ErrorProcess::Message(String::from_str("resolver depth limit reached")));
    }
    let lv = live_vec(data);
    let ghost le = live_of(data@);
    match disc_probe(data, &lv, Ghost(le)) {
        Some(parts) => {
            let sorted = crate::json::sort_entries_exec(clone_entries(parts.1));
            let list = match resolve_mapping_exec(&sorted, parts.0.as_str(), all_spec, fuel - 1) {
                Ok(list) => list,
                Err(e) => {
                    return Err(e);
                },
            };
            proof {
                assert forall|k: int| 0 <= k < list_view(list@).len() implies (#[trigger] list_view(
                    list@,
                )[k]).wf() by {
                    assert(list_view(list@)[k] == list@[k]@);
                }
                lemma_list_wf_each_intro(list_view(list@));
            }
            Ok(OpenApiType::Union { required: true, list })
        },
        None => {
            let one_of = lv_get(&lv, "oneOf", Ghost(le));
            let fired = match one_of {
                Some(o) => match o {
                    Json::Arr(items) => Some(items),
                    _ => None,
                },
                None => None,
            };
            match fired {
                Some(items) => {
                    proof {
                        assert(assoc_lookup(le, "oneOf"@) == Some(JsonV::Arr(arr_view(items@))));
                    }
                    if items.len() == 0 {
                        proof {
                            assert(arr_view(items@).len() == 0);
                        }
                        return Err(
                            ErrorProcess::Message(
                                String::from_str("incorrect data in section 'oneOf'"),
                            ),
                        );
                    }
                    let mut list = match resolve_list_exec(items, all_spec, fuel - 1) {
                        Ok(list) => list,
                        Err(e) => {
                            return Err(e);
                        },
                    };
                    if list.len() == 1 {
                        let ghost slist = resolve_list_spec(
                            arr_view(items@),
                            all_spec@,
                            (fuel - 1) as nat,
                        ).unwrap();
                        let ghost before = list@;
                        let first = list.pop().unwrap();
                        proof {
                            assert(list_view(before) == slist);
                            assert(slist.len() == 1);
                            assert(first == before[0]);
                            assert(list_view(before)[0] == before[0]@);
                            assert(first@ == slist[0]);
                        }
                        Ok(first)
                    } else {
                        proof {
                            assert forall|k: int|
                                0 <= k < list_view(list@).len() implies (#[trigger] list_view(
                                list@,
                            )[k]).wf() by {
                                assert(list_view(list@)[k] == list@[k]@);
                            }
                            lemma_list_wf_each_intro(list_view(list@));
                        }
                        Ok(OpenApiType::Union { required: true, list })
                    }
                },
                None => parse_typed(data, &lv, Ghost(le), all_spec, fuel),
            }
        },
    }
}

} // verus!
