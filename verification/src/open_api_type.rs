use vstd::prelude::*;
use crate::error_process::ErrorProcess;
use crate::text::str_lt;
use crate::utils::{kv_contains, kv_insert, lemma_map_kv_decreases, OrderHashMap, SortKey};

verus! {

broadcast use lemma_map_kv_decreases;

/// The mathematical model of a type of the canonical representation.
pub enum TypeV {
    LiteralString { required: bool, value: Seq<char> },
    String { required: bool },
    Number { required: bool },
    Boolean { required: bool },
    Array { required: bool, items: Box<TypeV> },
    Object { required: bool, props: Seq<(Seq<char>, TypeV)> },
    Record { required: bool, value: Box<TypeV> },
    Union { required: bool, list: Seq<TypeV> },
    Unknown,
}

/// The canonical type representation every schema shape is resolved into.
/// Each variant carries a `required` flag: a false flag means the slot
/// holding the value may also be null or absent.
#[derive(Debug, PartialEq)]
pub enum OpenApiType {
    LiteralString { required: bool, value: String },
    String { required: bool },
    Number { required: bool },
    Boolean { required: bool },
    Array { required: bool, items: Box<OpenApiType> },
    Object { required: bool, props: OrderHashMap<String, OpenApiType> },
    Record { required: bool, value: Box<OpenApiType> },
    Union { required: bool, list: Vec<OpenApiType> },
    Unknown,
}

/// The model of an object's property list.
pub open spec fn props_view(entries: Seq<(String, OpenApiType)>) -> Seq<(Seq<char>, TypeV)>
    decreases entries,
{
    Seq::new(
        entries.len(),
        |i: int|
            if 0 <= i < entries.len() {
                (entries[i].0@, entries[i].1@)
            } else {
                (Seq::empty(), TypeV::Unknown)
            },
    )
}

/// The model of a union's member list.
pub open spec fn list_view(items: Seq<OpenApiType>) -> Seq<TypeV>
    decreases items,
{
    Seq::new(items.len(), |i: int| if 0 <= i < items.len() {
        items[i]@
    } else {
        TypeV::Unknown
    })
}

impl View for OpenApiType {
    type V = TypeV;

    open spec fn view(&self) -> TypeV
        decreases self,
    {
        match self {
            OpenApiType::LiteralString { required, value } => TypeV::LiteralString {
                required: *required,
                value: value@,
            },
            OpenApiType::String { required } => TypeV::String { required: *required },
            OpenApiType::Number { required } => TypeV::Number { required: *required },
            OpenApiType::Boolean { required } => TypeV::Boolean { required: *required },
            OpenApiType::Array { required, items } => TypeV::Array {
                required: *required,
                items: Box::new((**items)@),
            },
            OpenApiType::Object { required, props } => TypeV::Object {
                required: *required,
                props: props_view(props.kv_seq()),
            },
            OpenApiType::Record { required, value } => TypeV::Record {
                required: *required,
                value: Box::new((**value)@),
            },
            OpenApiType::Union { required, list } => TypeV::Union {
                required: *required,
                list: list_view(list@),
            },
            OpenApiType::Unknown => TypeV::Unknown,
        }
    }
}

impl TypeV {
    /// The `required` flag of a node; an `Unknown` node carries none and
    /// counts as required.
    pub open spec fn req(self) -> bool {
        match self {
            TypeV::LiteralString { required, .. } => required,
            TypeV::String { required } => required,
            TypeV::Number { required } => required,
            TypeV::Boolean { required } => required,
            TypeV::Array { required, .. } => required,
            TypeV::Object { required, .. } => required,
            TypeV::Record { required, .. } => required,
            TypeV::Union { required, .. } => required,
            TypeV::Unknown => true,
        }
    }

    /// The node with its `required` flag replaced; `Unknown` is unchanged.
    pub open spec fn with_req(self, required: bool) -> TypeV {
        match self {
            TypeV::LiteralString { value, .. } => TypeV::LiteralString { required, value },
            TypeV::String { .. } => TypeV::String { required },
            TypeV::Number { .. } => TypeV::Number { required },
            TypeV::Boolean { .. } => TypeV::Boolean { required },
            TypeV::Array { items, .. } => TypeV::Array { required, items },
            TypeV::Object { props, .. } => TypeV::Object { required, props },
            TypeV::Record { value, .. } => TypeV::Record { required, value },
            TypeV::Union { list, .. } => TypeV::Union { required, list },
            TypeV::Unknown => TypeV::Unknown,
        }
    }

    /// The property list of an `Object` node.
    pub open spec fn obj_props(self) -> Seq<(Seq<char>, TypeV)> {
        match self {
            TypeV::Object { props, .. } => props,
            _ => Seq::empty(),
        }
    }

    /// Well-formed: every object's property keys are strictly sorted, at
    /// every nesting depth.
    pub open spec fn wf(self) -> bool
        decreases self,
    {
        match self {
            TypeV::Array { items, .. } => items.wf(),
            TypeV::Object { props, .. } => props_sorted(props) && props_wf_each(props),
            TypeV::Record { value, .. } => value.wf(),
            TypeV::Union { list, .. } => list_wf_each(list),
            TypeV::Unknown => true,
            _ => true,
        }
    }
}

/// A property name already bound in a property list.
pub open spec fn prop_key_present(props: Seq<(Seq<char>, TypeV)>, name: Seq<char>) -> bool {
    props.map_values(|p: (Seq<char>, TypeV)| p.0).contains(name)
}

/// Property keys in strictly increasing order.
pub open spec fn props_sorted(props: Seq<(Seq<char>, TypeV)>) -> bool {
    forall|i: int, j: int| 0 <= i < j < props.len() ==> str_lt(props[i].0, props[j].0)
}

/// Every property value well-formed.
pub open spec fn props_wf_each(props: Seq<(Seq<char>, TypeV)>) -> bool
    decreases props,
{
    if props.len() == 0 {
        true
    } else {
        props[0].1.wf() && props_wf_each(props.drop_first())
    }
}

/// Every union member well-formed.
pub open spec fn list_wf_each(list: Seq<TypeV>) -> bool
    decreases list,
{
    if list.len() == 0 {
        true
    } else {
        list[0].wf() && list_wf_each(list.drop_first())
    }
}




pub proof fn lemma_list_wf_each_intro(list: Seq<TypeV>)
    requires
        forall|i: int| 0 <= i < list.len() ==> #[trigger] list[i].wf(),
    ensures
        list_wf_each(list),
    decreases list.len(),
{
    if list.len() > 0 {
        assert forall|i: int|
            0 <= i < list.drop_first().len() implies #[trigger] list.drop_first()[i].wf() by {
            assert(list.drop_first()[i] == list[i + 1]);
            assert(list[i + 1].wf());
        }
        lemma_list_wf_each_intro(list.drop_first());
        assert(list[0].wf());
    }
}

impl OpenApiType {
    /// The `required` flag of the node; an `Unknown` node counts as
    /// required.
    pub fn is_required(&self) -> (r: bool)
        ensures
            r == self@.req(),
    {
        match self {
            OpenApiType::LiteralString { required, .. } => *required,
            OpenApiType::String { required } => *required,
            OpenApiType::Number { required } => *required,
            OpenApiType::Boolean { required } => *required,
            OpenApiType::Array { required, .. } => *required,
            OpenApiType::Object { required, .. } => *required,
            OpenApiType::Record { required, .. } => *required,
            OpenApiType::Union { required, .. } => *required,
            OpenApiType::Unknown => true,
        }
    }

    /// The node with its `required` flag replaced; `Unknown` is unchanged.
    pub fn set_required(self, required: bool) -> (r: OpenApiType)
        ensures
            r@ == self@.with_req(required),
    {
        match self {
            Self::LiteralString { required: _required, value } => Self::LiteralString {
                required,
                value,
            },
            Self::String { required: _required } => Self::String { required },
            Self::Number { required: _required } => Self::Number { required },
            Self::Boolean { required: _required } => Self::Boolean { required },
            Self::Array { required: _required, items } => Self::Array { required, items },
            Self::Object { required: _required, props } => Self::Object { required, props },
            Self::Record { required: _required, value } => Self::Record { required, value },
            Self::Union { required: _required, list } => Self::Union { required, list },
            Self::Unknown => Self::Unknown,
        }
    }

    /// Injects a required literal-string property into an `Object` node: the
    /// checked, partial step of the discriminator fan-out. A node of any
    /// other variant, or a property name already present, is refused and the
    /// node stays as it was.
    pub fn object_try_add_literal_field(&mut self, name: String, value: String) -> (r: Result<
        (),
        ErrorProcess,
    >)
        requires
            old(self)@.wf(),
        ensures
            final(self)@.wf(),
            match r {
                Ok(_) => old(self)@ is Object && !prop_key_present(
                    old(self)@.obj_props(),
                    name@,
                ) && final(self)@ == TypeV::Object {
                    required: old(self)@.req(),
                    props: insert_prop(
                        old(self)@.obj_props(),
                        name@,
                        TypeV::LiteralString { required: true, value: value@ },
                    ),
                },
                Err(e) => (!(old(self)@ is Object) || prop_key_present(
                    old(self)@.obj_props(),
                    name@,
                )) && *final(self) == *old(self) && e is Message,
            },
    {
        let mut tmp = OpenApiType::Unknown;
        core::mem::swap(self, &mut tmp);
        match tmp {
            Self::Object { required, mut props } => {
                let ghost old_kv = props.kv_seq();
                let ghost nv = name@;
                proof {
                    assert(old(self)@ == TypeV::Object { required, props: props_view(old_kv) });
                    assert(old(self)@.wf());
                    assert(props_sorted(props_view(old_kv)));
                    assert(props_wf_each(props_view(old_kv)));
                    assert forall|i: int, j: int| 0 <= i < j < old_kv.len() implies str_lt(
                        old_kv[i].0.repr(),
                        old_kv[j].0.repr(),
                    ) by {
                        assert(props_view(old_kv)[i].0 == old_kv[i].0@);
                        assert(props_view(old_kv)[j].0 == old_kv[j].0@);
                        assert(str_lt(props_view(old_kv)[i].0, props_view(old_kv)[j].0));
                    }
                }
                let lit = OpenApiType::LiteralString { required: true, value };
                let res = props.expect_insert(name, lit);
                let ghost new_kv = props.kv_seq();
                *self = OpenApiType::Object { required, props };
                match res {
                    Ok(_) => {
                        proof {
                            lemma_insert_commutes_with_view(
                                old_kv,
                                nv,
                                TypeV::LiteralString { required: true, value: value@ },
                            );
                            lemma_contains_commutes_with_view(old_kv, nv);
                            lemma_new_props_wf(
                                old_kv,
                                new_kv,
                                nv,
                                TypeV::LiteralString { required: true, value: value@ },
                            );
                        }
                        Ok(())
                    },
                    Err(e) => {
                        proof {
                            lemma_contains_commutes_with_view(old_kv, nv);
                        }
                        Err(e)
                    },
                }
            },
            other => {
                *self = other;
                Err(
                    ErrorProcess::Message(
                        String::from_str("a new property can only be added to an object"),
                    ),
                )
            },
        }
    }
}

/// Inserts a property in front of the first one with a larger key.
pub open spec fn insert_prop(
    props: Seq<(Seq<char>, TypeV)>,
    name: Seq<char>,
    v: TypeV,
) -> Seq<(Seq<char>, TypeV)>
    decreases props.len(),
{
    if props.len() == 0 {
        seq![(name, v)]
    } else if str_lt(name, props[0].0) {
        seq![(name, v)] + props
    } else {
        seq![props[0]] + insert_prop(props.drop_first(), name, v)
    }
}

/// Insertion at the store commutes with taking the model.
pub proof fn lemma_insert_commutes_with_view(kv: Seq<(String, OpenApiType)>, name: Seq<char>, v: TypeV)
    ensures
        forall|k: String, x: OpenApiType|
            k@ == name && x@ == v ==> props_view(#[trigger] kv_insert(kv, k, x)) == insert_prop(
                props_view(kv),
                name,
                v,
            ),
    decreases kv.len(),
{
    assert forall|k: String, x: OpenApiType| k@ == name && x@ == v implies props_view(
        #[trigger] kv_insert(kv, k, x),
    ) == insert_prop(props_view(kv), name, v) by {
        if kv.len() == 0 {
            assert(props_view(kv_insert(kv, k, x)) =~= insert_prop(props_view(kv), name, v));
        } else {
            assert(props_view(kv)[0] == (kv[0].0@, kv[0].1@));
            if str_lt(name, kv[0].0@) {
                assert(props_view(seq![(k, x)] + kv) =~= insert_prop(props_view(kv), name, v));
            } else {
                lemma_insert_commutes_with_view(kv.drop_first(), name, v);
                assert(props_view(kv.drop_first()) =~= props_view(kv).drop_first());
                assert(props_view(seq![kv[0]] + kv_insert(kv.drop_first(), k, x)) =~= seq![
                    props_view(kv)[0]] + props_view(kv_insert(kv.drop_first(), k, x)));
                assert(insert_prop(props_view(kv), name, v) == seq![props_view(kv)[0]]
                    + insert_prop(props_view(kv).drop_first(), name, v));
            }
        }
    }
}

/// Key membership at the store matches key membership at the model.
pub proof fn lemma_contains_commutes_with_view(kv: Seq<(String, OpenApiType)>, name: Seq<char>)
    ensures
        kv_contains(kv, name) == prop_key_present(props_view(kv), name),
{
    let keys = props_view(kv).map_values(|p: (Seq<char>, TypeV)| p.0);
    assert(keys.len() == kv.len());
    if kv_contains(kv, name) {
        let i = choose|i: int| 0 <= i < kv.len() && kv[i].0.repr() == name;
        assert(keys[i] == name);
    }
    if keys.contains(name) {
        let i = choose|i: int| 0 <= i < keys.len() && keys[i] == name;
        assert(kv[i].0.repr() == name);
    }
}

/// A well-formed object stays well-formed when the ordered map inserts a
/// well-formed value.
pub proof fn lemma_new_props_wf(
    old_kv: Seq<(String, OpenApiType)>,
    new_kv: Seq<(String, OpenApiType)>,
    name: Seq<char>,
    v: TypeV,
)
    requires
        props_sorted(props_view(old_kv)),
        props_wf_each(props_view(old_kv)),
        v.wf(),
        crate::utils::kv_sorted(new_kv),
        props_view(new_kv) == insert_prop(props_view(old_kv), name, v),
    ensures
        props_sorted(props_view(new_kv)),
        props_wf_each(props_view(new_kv)),
{
    assert forall|i: int, j: int| 0 <= i < j < props_view(new_kv).len() implies str_lt(
        props_view(new_kv)[i].0,
        props_view(new_kv)[j].0,
    ) by {
        assert(props_view(new_kv)[i].0 == new_kv[i].0@);
        assert(props_view(new_kv)[j].0 == new_kv[j].0@);
        assert(crate::utils::kv_sorted(new_kv));
        assert(<String as SortKey>::lt_repr(new_kv[i].0.repr(), new_kv[j].0.repr()));
        assert(str_lt(new_kv[i].0.repr(), new_kv[j].0.repr()));
    }
    lemma_insert_prop_wf(props_view(old_kv), name, v);
}

/// Every object property of the tree has a non-empty name; the emitters
/// demand it.
pub open spec fn keys_ok(t: TypeV) -> bool
    decreases t,
{
    match t {
        TypeV::Array { items, .. } => keys_ok(*items),
        TypeV::Object { props, .. } => props_keys_ok(props),
        TypeV::Record { value, .. } => keys_ok(*value),
        TypeV::Union { list, .. } => list_keys_ok(list),
        _ => true,
    }
}

/// Each property: a non-empty name, and a value whose own names are fine.
pub open spec fn props_keys_ok(props: Seq<(Seq<char>, TypeV)>) -> bool
    decreases props,
{
    if props.len() == 0 {
        true
    } else {
        props[0].0.len() > 0 && keys_ok(props[0].1) && props_keys_ok(props.drop_first())
    }
}

/// Each member's names are fine.
pub open spec fn list_keys_ok(list: Seq<TypeV>) -> bool
    decreases list,
{
    if list.len() == 0 {
        true
    } else {
        keys_ok(list[0]) && list_keys_ok(list.drop_first())
    }
}

/// Tests that every object property of the tree has a non-empty name.
#[verifier::loop_isolation(false)]
pub fn check_keys_ok(t: &OpenApiType) -> (r: bool)
    ensures
        r == keys_ok(t@),
    decreases *t,
{
    match t {
        OpenApiType::Array { items, .. } => check_keys_ok(items),
        OpenApiType::Record { value, .. } => check_keys_ok(value),
        OpenApiType::Union { list, .. } => {
            let ghost lvw = list_view(list@);
            let mut i: usize = 0;
            proof {
                assert(lvw.skip(0) =~= lvw);
            }
            while i < list.len()
                invariant
                    0 <= i <= list@.len(),
                    list_keys_ok(lvw) == list_keys_ok(lvw.skip(i as int)),
                decreases list@.len() - i,
            {
                proof {
                    assert(lvw.skip(i as int)[0] == lvw[i as int]);
                    assert(lvw[i as int] == list@[i as int]@);
                    assert(lvw.skip(i as int).drop_first() =~= lvw.skip(i + 1));
                    assert(decreases_to!(*t => *list));
                    assert(decreases_to!(*list => list@[i as int]));
                }
                if !check_keys_ok(&list[i]) {
                    return false;
                }
                i = i + 1;
            }
            proof {
                assert(lvw.skip(i as int).len() == 0);
            }
            true
        },
        OpenApiType::Object { props, .. } => {
            let entries = props.get_sorted();
            let ghost pv = props_view(props.kv_seq());
            let mut i: usize = 0;
            proof {
                assert(pv.skip(0) =~= pv);
            }
            while i < entries.len()
                invariant
                    entries@.len() == props.kv_seq().len(),
                    forall|q: int|
                        0 <= q < entries@.len() ==> *(#[trigger] entries@[q]).0 == props.kv_seq()[q].0
                            && *entries@[q].1 == props.kv_seq()[q].1,
                    0 <= i <= entries@.len(),
                    props_keys_ok(pv) == props_keys_ok(pv.skip(i as int)),
                decreases entries@.len() - i,
            {
                proof {
                    assert(pv.skip(i as int)[0] == pv[i as int]);
                    assert(pv[i as int] == (props.kv_seq()[i as int].0@, props.kv_seq()[i as int].1@));
                    assert(pv.skip(i as int).drop_first() =~= pv.skip(i + 1));
                    assert(decreases_to!(*t => *props));
                    assert(decreases_to!(*props => props.kv_seq()));
                    assert(decreases_to!(props.kv_seq() => props.kv_seq()[i as int]));
                    assert(decreases_to!(props.kv_seq()[i as int] => props.kv_seq()[i as int].1));
                }
                let e = entries[i];
                if e.0.as_str().unicode_len() == 0 {
                    proof {
                        assert(pv[i as int].0.len() == 0);
                    }
                    return false;
                }
                if !check_keys_ok(e.1) {
                    return false;
                }
                i = i + 1;
            }
            proof {
                assert(pv.skip(i as int).len() == 0);
            }
            true
        },
        _ => true,
    }
}

/// Copies a type tree; the copy has the same model.
#[verifier::loop_isolation(false)]
pub fn clone_type(t: &OpenApiType) -> (r: OpenApiType)
    ensures
        r@ == t@,
    decreases *t,
{
    match t {
        OpenApiType::LiteralString { required, value } => OpenApiType::LiteralString {
            required: *required,
            value: value.clone(),
        },
        OpenApiType::String { required } => OpenApiType::String { required: *required },
        OpenApiType::Number { required } => OpenApiType::Number { required: *required },
        OpenApiType::Boolean { required } => OpenApiType::Boolean { required: *required },
        OpenApiType::Unknown => OpenApiType::Unknown,
        OpenApiType::Array { required, items } => {
            proof {
                assert(decreases_to!(*t => **items));
            }
            OpenApiType::Array { required: *required, items: Box::new(clone_type(items)) }
        },
        OpenApiType::Record { required, value } => {
            proof {
                assert(decreases_to!(*t => **value));
            }
            OpenApiType::Record { required: *required, value: Box::new(clone_type(value)) }
        },
        OpenApiType::Union { required, list } => {
            let mut out: Vec<OpenApiType> = Vec::new();
            let mut i: usize = 0;
            while i < list.len()
                invariant
                    0 <= i <= list@.len(),
                    out@.len() == i,
                    forall|k: int| 0 <= k < i ==> (#[trigger] out@[k])@ == list@[k]@,
                decreases list@.len() - i,
            {
                proof {
                    assert(decreases_to!(*t => *list));
                    assert(decreases_to!(*list => list@[i as int]));
                }
                out.push(clone_type(&list[i]));
                i = i + 1;
            }
            proof {
                assert(list_view(out@) =~= list_view(list@));
            }
            OpenApiType::Union { required: *required, list: out }
        },
        OpenApiType::Object { required, props } => {
            let entries = props.entries_ref();
            let mut out: Vec<(String, OpenApiType)> = Vec::new();
            let mut i: usize = 0;
            while i < entries.len()
                invariant
                    0 <= i <= entries@.len(),
                    entries@ == props.kv_seq(),
                    out@.len() == i,
                    forall|k: int|
                        0 <= k < i ==> (#[trigger] out@[k]).0 == entries@[k].0 && out@[k].1@
                            == entries@[k].1@,
                decreases entries@.len() - i,
            {
                proof {
                    assert(decreases_to!(*t => *props));
                    assert(decreases_to!(*props => props.kv_seq()));
                    assert(decreases_to!(props.kv_seq() => props.kv_seq()[i as int]));
                    assert(decreases_to!(props.kv_seq()[i as int] => props.kv_seq()[i as int].1));
                }
                let e = &entries[i];
                out.push((e.0.clone(), clone_type(&e.1)));
                i = i + 1;
            }
            let m = OrderHashMap::from_entries(out);
            proof {
                assert(props_view(m.kv_seq()) =~= props_view(props.kv_seq()));
            }
            OpenApiType::Object { required: *required, props: m }
        },
    }
}

pub proof fn lemma_props_keys_ok_index(props: Seq<(Seq<char>, TypeV)>, i: int)
    requires
        props_keys_ok(props),
        0 <= i < props.len(),
    ensures
        props[i].0.len() > 0,
        keys_ok(props[i].1),
    decreases i,
{
    if i > 0 {
        lemma_props_keys_ok_index(props.drop_first(), i - 1);
        assert(props.drop_first()[i - 1] == props[i]);
    }
}

pub proof fn lemma_list_keys_ok_index(list: Seq<TypeV>, i: int)
    requires
        list_keys_ok(list),
        0 <= i < list.len(),
    ensures
        keys_ok(list[i]),
    decreases i,
{
    if i > 0 {
        lemma_list_keys_ok_index(list.drop_first(), i - 1);
        assert(list.drop_first()[i - 1] == list[i]);
    }
}

/// The first value bound to a property name.
pub open spec fn tprop_lookup(props: Seq<(Seq<char>, TypeV)>, name: Seq<char>) -> Option<TypeV>
    decreases props.len(),
{
    if props.len() == 0 {
        None
    } else if props[0].0 == name {
        Some(props[0].1)
    } else {
        tprop_lookup(props.drop_first(), name)
    }
}

/// Looking a fresh name up after its insertion finds the inserted value.
pub proof fn lemma_insert_prop_lookup(props: Seq<(Seq<char>, TypeV)>, name: Seq<char>, v: TypeV)
    requires
        !prop_key_present(props, name),
    ensures
        tprop_lookup(insert_prop(props, name, v), name) == Some(v),
    decreases props.len(),
{
    let r = insert_prop(props, name, v);
    if props.len() == 0 {
        assert(r == seq![(name, v)]);
        assert(r[0] == (name, v));
    } else if str_lt(name, props[0].0) {
        assert(r == seq![(name, v)] + props);
        assert(r[0] == (name, v));
    } else {
        assert(props.map_values(|p: (Seq<char>, TypeV)| p.0)[0] == props[0].0);
        assert(props[0].0 != name);
        assert(!prop_key_present(props.drop_first(), name)) by {
            if prop_key_present(props.drop_first(), name) {
                let keys = props.drop_first().map_values(|p: (Seq<char>, TypeV)| p.0);
                let i = choose|i: int| 0 <= i < keys.len() && keys[i] == name;
                assert(props.drop_first()[i].0 == name);
                assert(props[i + 1].0 == name);
                assert(props.map_values(|p: (Seq<char>, TypeV)| p.0)[i + 1] == name);
                assert(prop_key_present(props, name));
            }
        }
        lemma_insert_prop_lookup(props.drop_first(), name, v);
        let tail = insert_prop(props.drop_first(), name, v);
        assert(r == seq![props[0]] + tail);
        assert(r[0] == props[0]);
        assert(r.drop_first() =~= tail);
    }
}

/// An insertion binds exactly the old names and the new one.
pub proof fn lemma_insert_prop_keys(props: Seq<(Seq<char>, TypeV)>, name: Seq<char>, v: TypeV)
    ensures
        forall|k: Seq<char>|
            #[trigger] prop_key_present(insert_prop(props, name, v), k) == (prop_key_present(
                props,
                k,
            ) || k == name),
    decreases props.len(),
{
    let r = insert_prop(props, name, v);
    assert forall|k: Seq<char>| #[trigger] prop_key_present(r, k) == (prop_key_present(props, k)
        || k == name) by {
        let rk = r.map_values(|p: (Seq<char>, TypeV)| p.0);
        let pk = props.map_values(|p: (Seq<char>, TypeV)| p.0);
        if props.len() == 0 {
            assert(r == seq![(name, v)]);
            assert(rk[0] == name);
            if prop_key_present(r, k) {
                let i = choose|i: int| 0 <= i < rk.len() && rk[i] == k;
                assert(i == 0);
            }
            if k == name {
                assert(rk[0] == k);
            }
            assert(!prop_key_present(props, k));
        } else if str_lt(name, props[0].0) {
            assert(r == seq![(name, v)] + props);
            assert(rk[0] == name);
            assert(forall|q: int| 0 <= q < props.len() ==> rk[q + 1] == #[trigger] pk[q]);
            if prop_key_present(r, k) {
                let i = choose|i: int| 0 <= i < rk.len() && rk[i] == k;
                if i > 0 {
                    assert(pk[i - 1] == k);
                }
            }
            if prop_key_present(props, k) {
                let i = choose|i: int| 0 <= i < pk.len() && pk[i] == k;
                assert(rk[i + 1] == k);
            }
            if k == name {
                assert(rk[0] == k);
            }
        } else {
            lemma_insert_prop_keys(props.drop_first(), name, v);
            let tail = insert_prop(props.drop_first(), name, v);
            let tk = tail.map_values(|p: (Seq<char>, TypeV)| p.0);
            let dk = props.drop_first().map_values(|p: (Seq<char>, TypeV)| p.0);
            assert(r == seq![props[0]] + tail);
            assert(rk[0] == props[0].0);
            assert(pk[0] == props[0].0);
            assert(forall|q: int| 0 <= q < tail.len() ==> rk[q + 1] == #[trigger] tk[q]);
            assert(forall|q: int| 0 <= q < props.drop_first().len() ==> pk[q + 1] == #[trigger] dk[q]);
            assert(prop_key_present(tail, k) == (prop_key_present(props.drop_first(), k) || k
                == name));
            if prop_key_present(r, k) {
                let i = choose|i: int| 0 <= i < rk.len() && rk[i] == k;
                if i > 0 {
                    assert(tk[i - 1] == k);
                    assert(prop_key_present(tail, k));
                    if prop_key_present(props.drop_first(), k) {
                        let q = choose|q: int| 0 <= q < dk.len() && dk[q] == k;
                        assert(pk[q + 1] == k);
                    }
                }
            }
            if prop_key_present(props, k) {
                let i = choose|i: int| 0 <= i < pk.len() && pk[i] == k;
                if i > 0 {
                    assert(dk[i - 1] == k);
                    assert(prop_key_present(tail, k));
                    let q = choose|q: int| 0 <= q < tk.len() && tk[q] == k;
                    assert(rk[q + 1] == k);
                }
            }
            if k == name {
                assert(prop_key_present(tail, k));
                let q = choose|q: int| 0 <= q < tk.len() && tk[q] == k;
                assert(rk[q + 1] == k);
            }
        }
    }
}

/// A flag change keeps a node well-formed.
pub proof fn lemma_with_req_wf(t: TypeV, b: bool)
    requires
        t.wf(),
    ensures
        t.with_req(b).wf(),
{
}

/// A property insertion keeps every value well-formed when the new value is.
pub proof fn lemma_insert_prop_wf(props: Seq<(Seq<char>, TypeV)>, name: Seq<char>, v: TypeV)
    requires
        props_wf_each(props),
        v.wf(),
    ensures
        props_wf_each(insert_prop(props, name, v)),
    decreases props.len(),
{
    let r = insert_prop(props, name, v);
    if props.len() == 0 {
        assert(r == seq![(name, v)]);
        assert(r[0] == (name, v));
        assert(r[0].1.wf());
        assert(r.drop_first() =~= Seq::<(Seq<char>, TypeV)>::empty());
        assert(props_wf_each(r.drop_first()));
    } else if str_lt(name, props[0].0) {
        assert(r == seq![(name, v)] + props);
        assert(r[0] == (name, v));
        assert(r[0].1.wf());
        assert(r.drop_first() =~= props);
        assert(props_wf_each(r.drop_first()));
    } else {
        assert(props[0].1.wf());
        assert(props_wf_each(props.drop_first()));
        lemma_insert_prop_wf(props.drop_first(), name, v);
        let tail = insert_prop(props.drop_first(), name, v);
        assert(r == seq![props[0]] + tail);
        assert(r[0] == props[0]);
        assert(r[0].1.wf());
        assert(r.drop_first() =~= tail);
        assert(props_wf_each(r.drop_first()));
    }
}

} // verus!
