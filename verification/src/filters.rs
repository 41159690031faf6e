use vstd::prelude::*;
use crate::error_process::ErrorProcess;
use crate::json::{arr_view, assoc_lookup, entries_view, entries_sorted, insert_entry, json_get,
    json_clone, lemma_sort_entries_id, lemma_sort_entries_sorted, obj_lookup, sort_entries,
    sort_entries_exec, Json, JsonV};
use crate::text::{split_chars, split_str};

verus! {

/// The segments of a reference pointer: everything after the first `#/`,
/// split at every `/`. A text without `#/` is no pointer.
pub open spec fn ref_path_spec(s: Seq<char>) -> Option<Seq<Seq<char>>> {
    match find_hash_slash(s) {
        None => None,
        Some(i) => Some(split_chars(s.skip(i + 2), '/')),
    }
}

/// The first position of the two characters `#/`.
pub open spec fn find_hash_slash(s: Seq<char>) -> Option<int>
    decreases s.len(),
{
    if s.len() < 2 {
        None
    } else if s[0] == '#' && s[1] == '/' {
        Some(0)
    } else {
        match find_hash_slash(s.drop_first()) {
            None => None,
            Some(i) => Some(i + 1),
        }
    }
}


proof fn lemma_find_hash_slash_absent(s: Seq<char>, i: int)
    requires
        0 <= i <= s.len(),
        forall|k: int| 0 <= k < i && k + 1 < s.len() ==> !(#[trigger] s[k] == '#' && s[k + 1] == '/'),
        i + 2 > s.len(),
    ensures
        find_hash_slash(s) is None,
    decreases s.len(),
{
    if s.len() >= 2 {
        assert(!(s[0] == '#' && s[1] == '/'));
        assert forall|k: int|
            0 <= k < i - 1 && k + 1 < s.drop_first().len() implies !(#[trigger] s.drop_first()[k]
            == '#' && s.drop_first()[k + 1] == '/') by {
            assert(s.drop_first()[k] == s[k + 1]);
            assert(s.drop_first()[k + 1] == s[k + 2]);
        }
        lemma_find_hash_slash_absent(s.drop_first(), i - 1);
    }
}

proof fn lemma_find_hash_slash_at(s: Seq<char>, i: int)
    requires
        0 <= i,
        i + 2 <= s.len(),
        s[i] == '#',
        s[i + 1] == '/',
        forall|k: int| 0 <= k < i ==> !(#[trigger] s[k] == '#' && s[k + 1] == '/'),
    ensures
        find_hash_slash(s) == Some(i),
    decreases i,
{
    if i > 0 {
        assert(s.drop_first()[i - 1] == s[i]);
        assert(s.drop_first()[i] == s[i + 1]);
        assert forall|k: int| 0 <= k < i - 1 implies !(#[trigger] s.drop_first()[k] == '#'
            && s.drop_first()[k + 1] == '/') by {
            assert(s.drop_first()[k] == s[k + 1]);
            assert(s.drop_first()[k + 1] == s[k + 2]);
        }
        lemma_find_hash_slash_at(s.drop_first(), i - 1);
    }
}

/// Splits a reference pointer of the form `...#/a/b/c` into its segments; a
/// text without `#/` is refused, naming it.
#[verifier::loop_isolation(false)]
pub fn parse_ref_path(path: &str) -> (r: Result<Vec<String>, ErrorProcess>)
    ensures
        match r {
            Ok(parts) => ref_path_spec(path@) == Some(parts.deep_view()),
            Err(e) => ref_path_spec(path@) is None && e is Message,
        },
{
    let len: usize = path.unicode_len();
    let mut i: usize = 0;
    while len > 0 && i < len - 1
        invariant
            0 <= i <= len,
            forall|k: int| 0 <= k < i && k + 1 < path@.len() ==> !(#[trigger] path@[k] == '#'
                && path@[k + 1] == '/'),
        decreases len - i,
    {
        if path.get_char(i) == '#' {
            if path.get_char(i + 1) == '/' {
                proof {
                    lemma_find_hash_slash_at(path@, i as int);
                }
                let rest = path.substring_char(i + 2, len);
                let parts = split_str(rest, '/');
                proof {
                    assert(rest@ == path@.skip(i + 2));
                }
                return Ok(parts);
            }
        }
        i = i + 1;
    }
    proof {
        lemma_find_hash_slash_absent(path@, i as int);
    }
    let mut m = String::from_str("invalid ref ");
    m.append(path);
    Err(ErrorProcess::Message(m))
}

/// Walks pointer segments from a node, one object lookup per segment.
pub open spec fn walk_path(j: JsonV, parts: Seq<Seq<char>>) -> Option<JsonV>
    decreases parts.len(),
{
    if parts.len() == 0 {
        Some(j)
    } else {
        match obj_lookup(j, parts[0]) {
            None => None,
            Some(v) => walk_path(v, parts.drop_first()),
        }
    }
}

/// What a reference pointer names in a document: the node reached by walking
/// the pointer's segments from the root.
pub open spec fn deref_path_spec(all: JsonV, path: Seq<char>) -> Option<JsonV> {
    match ref_path_spec(path) {
        None => None,
        Some(parts) => walk_path(all, parts),
    }
}

/// One step of the pointer walk: the property of an object node; a missing
/// property, or a node that is no object, is refused, naming the pointer and
/// the property.
pub fn go_to_spec_property<'a>(spec: &'a Json, property: &str, ref_path: &str) -> (r: Result<
    &'a Json,
    ErrorProcess,
>)
    ensures
        match r {
            Ok(v) => obj_lookup(spec@, property@) == Some(v@),
            Err(e) => obj_lookup(spec@, property@) is None && e is Message,
        },
{
    match json_get(spec, property) {
        Some(v) => Ok(v),
        None => {
            let mut m = String::from_str("invalid ref ");
            m.append(ref_path);
            m.append(", error with reference to property = ");
            m.append(property);
            Err(ErrorProcess::Message(m))
        },
    }
}

/// Resolves a reference pointer against the document root.
#[verifier::loop_isolation(false)]
pub fn go_to_spec<'a>(all_spec: &'a Json, ref_path: &str) -> (r: Result<&'a Json, ErrorProcess>)
    ensures
        match r {
            Ok(v) => deref_path_spec(all_spec@, ref_path@) == Some(v@),
            Err(e) => deref_path_spec(all_spec@, ref_path@) is None && e is Message,
        },
{
    let parts = match parse_ref_path(ref_path) {
        Ok(parts) => parts,
        Err(e) => {
            return Err(e);
        },
    };
    let ghost pv = parts.deep_view();
    let mut current: &Json = all_spec;
    let mut i: usize = 0;
    proof {
        assert(pv.skip(0) =~= pv);
    }
    while i < parts.len()
        invariant
            0 <= i <= parts@.len(),
            pv.len() == parts@.len(),
            walk_path(all_spec@, pv) == walk_path(current@, pv.skip(i as int)),
        decreases parts@.len() - i,
    {
        proof {
            assert(pv.skip(i as int)[0] == pv[i as int]);
            assert(pv[i as int] == parts@[i as int]@);
            assert(pv.skip(i as int).drop_first() =~= pv.skip(i + 1));
        }
        let next = match go_to_spec_property(current, parts[i].as_str(), ref_path) {
            Ok(v) => v,
            Err(e) => {
                return Err(e);
            },
        };
        current = next;
        i = i + 1;
    }
    proof {
        assert(pv.skip(i as int).len() == 0);
    }
    Ok(current)
}

/// The tree with every null-valued object field removed and every object's
/// keys put in sorted order.
pub open spec fn strip_nulls(j: JsonV) -> JsonV
    decreases j,
{
    match j {
        JsonV::Obj(entries) => JsonV::Obj(sort_entries(strip_entries(entries))),
        JsonV::Arr(items) => JsonV::Arr(strip_list(items)),
        other => other,
    }
}

/// The entries that survive the null filter, each value filtered in turn.
pub open spec fn strip_entries(entries: Seq<(Seq<char>, JsonV)>) -> Seq<(Seq<char>, JsonV)>
    decreases entries,
{
    if entries.len() == 0 {
        Seq::empty()
    } else if entries[0].1 is Null {
        strip_entries(entries.drop_first())
    } else {
        seq![(entries[0].0, strip_nulls(entries[0].1))] + strip_entries(entries.drop_first())
    }
}

/// Each item of an array, filtered.
pub open spec fn strip_list(items: Seq<JsonV>) -> Seq<JsonV>
    decreases items,
{
    if items.len() == 0 {
        Seq::empty()
    } else {
        seq![strip_nulls(items[0])] + strip_list(items.drop_first())
    }
}

/// Removes every null-valued object field, recursively, and sorts every
/// object's keys. Pure and total: no error cases.
#[verifier::loop_isolation(false)]
pub fn filter_null(value: &Json) -> (r: Json)
    ensures
        r@ == strip_nulls(value@),
    decreases *value,
{
    match value {
        Json::Obj(entries) => {
            let ghost ev = entries_view(entries@);
            let mut out: Vec<(String, Json)> = Vec::new();
            let mut i: usize = 0;
            proof {
                assert(ev.skip(0) =~= ev);
                assert(entries_view(out@) =~= Seq::<(Seq<char>, JsonV)>::empty());
            }
            while i < entries.len()
                invariant
                    0 <= i <= entries@.len(),
                    strip_entries(ev) == entries_view(out@) + strip_entries(ev.skip(i as int)),
                decreases entries@.len() - i,
            {
                proof {
                    assert(ev.skip(i as int)[0] == ev[i as int]);
                    assert(ev[i as int] == (entries@[i as int].0@, entries@[i as int].1@));
                    assert(ev.skip(i as int).drop_first() =~= ev.skip(i + 1));
                    assert(*value == Json::Obj(*entries));
                    assert(decreases_to!(*value => *entries));
                    assert(decreases_to!(*entries => entries@[i as int]));
                    assert(decreases_to!(entries@[i as int] => entries@[i as int].1));
                }
                let e = &entries[i];
                if !e.1.is_null() {
                    let ghost before = entries_view(out@);
                    let fv = filter_null(&e.1);
                    out.push((e.0.clone(), fv));
                    proof {
                        assert(entries_view(out@) =~= before + seq![
                            (ev[i as int].0, strip_nulls(ev[i as int].1))]);
                        assert(strip_entries(ev.skip(i as int)) == seq![
                            (ev[i as int].0, strip_nulls(ev[i as int].1))] + strip_entries(
                            ev.skip(i + 1),
                        ));
                    }
                } else {
                    proof {
                        assert(strip_entries(ev.skip(i as int)) == strip_entries(ev.skip(i + 1)));
                    }
                }
                i = i + 1;
            }
            proof {
                assert(ev.skip(i as int).len() == 0);
                assert(strip_entries(ev.skip(i as int)) =~= Seq::<(Seq<char>, JsonV)>::empty());
                assert(entries_view(out@) =~= strip_entries(ev));
            }
            let sorted = sort_entries_exec(out);
            Json::Obj(sorted)
        },
        Json::Arr(items) => {
            let ghost iv = arr_view(items@);
            let mut out: Vec<Json> = Vec::new();
            let mut i: usize = 0;
            proof {
                assert(iv.skip(0) =~= iv);
                assert(arr_view(out@) =~= Seq::<JsonV>::empty());
            }
            while i < items.len()
                invariant
                    0 <= i <= items@.len(),
                    strip_list(iv) == arr_view(out@) + strip_list(iv.skip(i as int)),
                decreases items@.len() - i,
            {
                proof {
                    assert(iv.skip(i as int)[0] == iv[i as int]);
                    assert(iv[i as int] == items@[i as int]@);
                    assert(iv.skip(i as int).drop_first() =~= iv.skip(i + 1));
                    assert(*value == Json::Arr(*items));
                    assert(decreases_to!(*value => *items));
                    assert(decreases_to!(*items => items@[i as int]));
                }
                let ghost before = arr_view(out@);
                let fv = filter_null(&items[i]);
                out.push(fv);
                proof {
                    assert(arr_view(out@) =~= before + seq![strip_nulls(iv[i as int])]);
                    assert(strip_list(iv.skip(i as int)) == seq![strip_nulls(iv[i as int])]
                        + strip_list(iv.skip(i + 1)));
                }
                i = i + 1;
            }
            proof {
                assert(iv.skip(i as int).len() == 0);
                assert(strip_list(iv.skip(i as int)) =~= Seq::<JsonV>::empty());
                assert(arr_view(out@) =~= strip_list(iv));
            }
            Json::Arr(out)
        },
        other => json_clone(other),
    }
}

/// A tree the null filter has already cleaned: every object's keys sorted,
/// no null-valued field, every child clean.
pub open spec fn is_stripped(j: JsonV) -> bool
    decreases j,
{
    match j {
        JsonV::Obj(es) => entries_sorted(es) && stripped_entries(es),
        JsonV::Arr(items) => stripped_list(items),
        _ => true,
    }
}

/// Every entry holds a non-null, cleaned value.
pub open spec fn stripped_entries(es: Seq<(Seq<char>, JsonV)>) -> bool
    decreases es,
{
    if es.len() == 0 {
        true
    } else {
        !(es[0].1 is Null) && is_stripped(es[0].1) && stripped_entries(es.drop_first())
    }
}

/// Every item is cleaned.
pub open spec fn stripped_list(items: Seq<JsonV>) -> bool
    decreases items,
{
    if items.len() == 0 {
        true
    } else {
        is_stripped(items[0]) && stripped_list(items.drop_first())
    }
}

proof fn lemma_stripped_entries_index(es: Seq<(Seq<char>, JsonV)>, i: int)
    requires
        stripped_entries(es),
        0 <= i < es.len(),
    ensures
        !(es[i].1 is Null),
        is_stripped(es[i].1),
    decreases i,
{
    if i > 0 {
        lemma_stripped_entries_index(es.drop_first(), i - 1);
        assert(es.drop_first()[i - 1] == es[i]);
    }
}

proof fn lemma_stripped_entries_intro(es: Seq<(Seq<char>, JsonV)>)
    requires
        forall|i: int|
            0 <= i < es.len() ==> !((#[trigger] es[i]).1 is Null) && is_stripped(es[i].1),
    ensures
        stripped_entries(es),
    decreases es.len(),
{
    if es.len() > 0 {
        assert forall|i: int| 0 <= i < es.drop_first().len() implies !((#[trigger] es.drop_first()[i]).1
            is Null) && is_stripped(es.drop_first()[i].1) by {
            assert(es.drop_first()[i] == es[i + 1]);
        }
        lemma_stripped_entries_intro(es.drop_first());
        assert(!(es[0].1 is Null) && is_stripped(es[0].1));
    }
}

/// An insertion keeps every value cleaned when the new one is.
proof fn lemma_insert_entry_stripped(s: Seq<(Seq<char>, JsonV)>, e: (Seq<char>, JsonV))
    requires
        stripped_entries(s),
        !(e.1 is Null),
        is_stripped(e.1),
    ensures
        stripped_entries(insert_entry(s, e)),
    decreases s.len(),
{
    let r = insert_entry(s, e);
    if s.len() == 0 {
        assert(r == seq![e]);
        assert(r[0] == e);
        assert(r.drop_first() =~= Seq::<(Seq<char>, JsonV)>::empty());
        assert(stripped_entries(r.drop_first()));
    } else if crate::text::str_lt(e.0, s[0].0) {
        assert(r == seq![e] + s);
        assert(r[0] == e);
        assert(r.drop_first() =~= s);
        assert(stripped_entries(r.drop_first()));
    } else {
        assert(!(s[0].1 is Null) && is_stripped(s[0].1));
        assert(stripped_entries(s.drop_first()));
        lemma_insert_entry_stripped(s.drop_first(), e);
        let tail = insert_entry(s.drop_first(), e);
        assert(r == seq![s[0]] + tail);
        assert(r[0] == s[0]);
        assert(r.drop_first() =~= tail);
        assert(stripped_entries(r.drop_first()));
    }
}

/// Sorting keeps every value cleaned.
proof fn lemma_sort_entries_stripped(es: Seq<(Seq<char>, JsonV)>)
    requires
        stripped_entries(es),
    ensures
        stripped_entries(sort_entries(es)),
    decreases es.len(),
{
    if es.len() > 0 {
        assert forall|i: int| 0 <= i < es.drop_last().len() implies !((#[trigger] es.drop_last()[i]).1
            is Null) && is_stripped(es.drop_last()[i].1) by {
            assert(es.drop_last()[i] == es[i]);
            lemma_stripped_entries_index(es, i);
        }
        lemma_stripped_entries_intro(es.drop_last());
        lemma_sort_entries_stripped(es.drop_last());
        lemma_stripped_entries_index(es, es.len() - 1);
        lemma_insert_entry_stripped(sort_entries(es.drop_last()), es.last());
    }
}

/// Whatever the null filter returns is cleaned.
pub proof fn lemma_strip_nulls_stripped(j: JsonV)
    ensures
        is_stripped(strip_nulls(j)),
    decreases j,
{
    match j {
        JsonV::Obj(es) => {
            lemma_strip_entries_stripped(es);
            lemma_sort_entries_stripped(strip_entries(es));
            lemma_sort_entries_sorted(strip_entries(es));
        },
        JsonV::Arr(items) => {
            lemma_strip_list_stripped(items);
        },
        _ => {
        },
    }
}

proof fn lemma_strip_entries_stripped(es: Seq<(Seq<char>, JsonV)>)
    ensures
        stripped_entries(strip_entries(es)),
    decreases es,
{
    if es.len() > 0 {
        lemma_strip_entries_stripped(es.drop_first());
        if !(es[0].1 is Null) {
            lemma_strip_nulls_stripped(es[0].1);
            let r = strip_entries(es);
            assert(r == seq![(es[0].0, strip_nulls(es[0].1))] + strip_entries(es.drop_first()));
            assert(r[0] == (es[0].0, strip_nulls(es[0].1)));
            assert(!(strip_nulls(es[0].1) is Null));
            assert(r.drop_first() =~= strip_entries(es.drop_first()));
            assert(stripped_entries(r.drop_first()));
        }
    }
}

proof fn lemma_strip_list_stripped(items: Seq<JsonV>)
    ensures
        stripped_list(strip_list(items)),
    decreases items,
{
    if items.len() > 0 {
        lemma_strip_nulls_stripped(items[0]);
        lemma_strip_list_stripped(items.drop_first());
        let r = strip_list(items);
        assert(r == seq![strip_nulls(items[0])] + strip_list(items.drop_first()));
        assert(r[0] == strip_nulls(items[0]));
        assert(r.drop_first() =~= strip_list(items.drop_first()));
        assert(stripped_list(r.drop_first()));
    }
}

/// A cleaned tree passes the null filter unchanged.
pub proof fn lemma_strip_nulls_of_stripped(j: JsonV)
    requires
        is_stripped(j),
    ensures
        strip_nulls(j) == j,
    decreases j,
{
    match j {
        JsonV::Obj(es) => {
            lemma_strip_entries_of_stripped(es);
            lemma_sort_entries_id(es);
        },
        JsonV::Arr(items) => {
            lemma_strip_list_of_stripped(items);
        },
        _ => {
        },
    }
}

proof fn lemma_strip_entries_of_stripped(es: Seq<(Seq<char>, JsonV)>)
    requires
        stripped_entries(es),
    ensures
        strip_entries(es) == es,
    decreases es,
{
    if es.len() == 0 {
        assert(strip_entries(es) =~= es);
    } else {
        assert(!(es[0].1 is Null) && is_stripped(es[0].1));
        lemma_strip_nulls_of_stripped(es[0].1);
        lemma_strip_entries_of_stripped(es.drop_first());
        assert(seq![(es[0].0, strip_nulls(es[0].1))] + es.drop_first() =~= es);
    }
}

proof fn lemma_strip_list_of_stripped(items: Seq<JsonV>)
    requires
        stripped_list(items),
    ensures
        strip_list(items) == items,
    decreases items,
{
    if items.len() == 0 {
        assert(strip_list(items) =~= items);
    } else {
        assert(is_stripped(items[0]));
        lemma_strip_nulls_of_stripped(items[0]);
        lemma_strip_list_of_stripped(items.drop_first());
        assert(seq![strip_nulls(items[0])] + items.drop_first() =~= items);
    }
}

/// The null filter is idempotent: a tree it produced passes a second run
/// unchanged.
pub proof fn lemma_filter_null_idempotent(j: JsonV)
    ensures
        strip_nulls(strip_nulls(j)) == strip_nulls(j),
{
    lemma_strip_nulls_stripped(j);
    lemma_strip_nulls_of_stripped(strip_nulls(j));
}

/// A discriminator mapping ready for rewriting: a nonempty object all of
/// whose values are texts (reference pointers).
pub open spec fn qualifies_mapping(v: JsonV) -> bool {
    match v {
        JsonV::Obj(es) => es.len() > 0 && all_text_values(es),
        _ => false,
    }
}

/// Every value of the entry list is a text.
pub open spec fn all_text_values(es: Seq<(Seq<char>, JsonV)>) -> bool {
    forall|i: int| 0 <= i < es.len() ==> (#[trigger] es[i].1) is Text
}

/// An entry the dereferencer would fire on again: an unresolved reference,
/// or a pointer-style discriminator mapping.
pub open spec fn bad_entry(e: (Seq<char>, JsonV)) -> bool {
    (e.0 == "$ref"@ && e.1 is Text) || (e.0 == "mapping"@ && qualifies_mapping(e.1))
}

/// No entry of the list would make the dereferencer fire again.
pub open spec fn obj_entries_ok(es: Seq<(Seq<char>, JsonV)>) -> bool {
    forall|i: int| 0 <= i < es.len() ==> !bad_entry(#[trigger] es[i])
}

/// A fully dereferenced tree: object keys sorted, no reference node and no
/// pointer-style discriminator mapping left, at every depth.
pub open spec fn is_normal(j: JsonV) -> bool
    decreases j,
{
    match j {
        JsonV::Obj(es) => entries_sorted(es) && obj_entries_ok(es) && normal_entries(es),
        JsonV::Arr(items) => normal_list(items),
        _ => true,
    }
}

/// Every value of the entry list is a fully dereferenced tree.
pub open spec fn normal_entries(es: Seq<(Seq<char>, JsonV)>) -> bool
    decreases es,
{
    if es.len() == 0 {
        true
    } else {
        is_normal(es[0].1) && normal_entries(es.drop_first())
    }
}

/// Every item of the list is a fully dereferenced tree.
pub open spec fn normal_list(items: Seq<JsonV>) -> bool
    decreases items,
{
    if items.len() == 0 {
        true
    } else {
        is_normal(items[0]) && normal_list(items.drop_first())
    }
}

/// What dereferencing a tree yields, with a budget of pointer jumps. An
/// object carrying a `$ref` pointer is replaced by its fully dereferenced
/// target; a discriminator's pointer mapping is rewritten in place with the
/// dereferenced bodies; everything else is walked structurally, object keys
/// normalized to sorted order. `None` stands for a fatal error: a pointer
/// that resolves nowhere, a jump budget spent (a cyclic document), or a
/// resolution whose result would leave a reference-shaped node behind.
pub open spec fn norm_spec(j: JsonV, all: JsonV, fuel: nat) -> Option<JsonV>
    decreases fuel, j,
{
    match j {
        JsonV::Obj(entries) => match assoc_lookup(entries, "$ref"@) {
            Some(JsonV::Text(p)) => {
                if fuel == 0 {
                    None
                } else {
                    match deref_path_spec(all, p) {
                        None => None,
                        Some(target) => norm_spec(target, all, (fuel - 1) as nat),
                    }
                }
            },
            _ => {
                match norm_entries_spec(entries, all, fuel) {
                    None => None,
                    Some(es) => {
                        let sorted = sort_entries(es);
                        if obj_entries_ok(sorted) {
                            Some(JsonV::Obj(sorted))
                        } else {
                            None
                        }
                    },
                }
            },
        },
        JsonV::Arr(items) => match norm_list_spec(items, all, fuel) {
            None => None,
            Some(l) => Some(JsonV::Arr(l)),
        },
        other => Some(other),
    }
}

/// Each entry of an object, dereferenced in turn.
pub open spec fn norm_entries_spec(
    entries: Seq<(Seq<char>, JsonV)>,
    all: JsonV,
    fuel: nat,
) -> Option<Seq<(Seq<char>, JsonV)>>
    decreases fuel, entries,
{
    if entries.len() == 0 {
        Some(Seq::empty())
    } else {
        match norm_entry_spec(entries[0], all, fuel) {
            None => None,
            Some(h) => match norm_entries_spec(entries.drop_first(), all, fuel) {
                None => None,
                Some(rest) => Some(seq![h] + rest),
            },
        }
    }
}

/// One entry of an object: a pointer-style discriminator mapping is
/// rewritten in place, every other value is dereferenced structurally.
pub open spec fn norm_entry_spec(e: (Seq<char>, JsonV), all: JsonV, fuel: nat) -> Option<
    (Seq<char>, JsonV),
>
    decreases fuel, e,
{
    if e.0 == "mapping"@ && qualifies_mapping(e.1) {
        match e.1 {
            JsonV::Obj(mes) => match norm_mapping_spec(mes, all, fuel) {
                None => None,
                Some(ms) => {
                    let sorted = sort_entries(ms);
                    if obj_entries_ok(sorted) {
                        Some((e.0, JsonV::Obj(sorted)))
                    } else {
                        None
                    }
                },
            },
            _ => None,
        }
    } else {
        match norm_spec(e.1, all, fuel) {
            None => None,
            Some(nv) => Some((e.0, nv)),
        }
    }
}

/// Each item of an array, dereferenced in turn.
pub open spec fn norm_list_spec(items: Seq<JsonV>, all: JsonV, fuel: nat) -> Option<Seq<JsonV>>
    decreases fuel, items,
{
    if items.len() == 0 {
        Some(Seq::empty())
    } else {
        match norm_spec(items[0], all, fuel) {
            None => None,
            Some(h) => match norm_list_spec(items.drop_first(), all, fuel) {
                None => None,
                Some(rest) => Some(seq![h] + rest),
            },
        }
    }
}

/// The pointer mapping of a discriminator, each pointer replaced by its
/// dereferenced body. A body that itself reads as a pointer text is refused:
/// the result could fire the dereferencer again.
pub open spec fn norm_mapping_spec(
    mes: Seq<(Seq<char>, JsonV)>,
    all: JsonV,
    fuel: nat,
) -> Option<Seq<(Seq<char>, JsonV)>>
    decreases fuel, mes,
{
    if fuel == 0 {
        None
    } else if mes.len() == 0 {
        Some(Seq::empty())
    } else {
        match mes[0].1 {
            JsonV::Text(p) => match deref_path_spec(all, p) {
                None => None,
                Some(target) => match norm_spec(target, all, (fuel - 1) as nat) {
                    None => None,
                    Some(t) => {
                        if t is Text {
                            None
                        } else {
                            match norm_mapping_spec(mes.drop_first(), all, fuel) {
                                None => None,
                                Some(rest) => Some(seq![(mes[0].0, t)] + rest),
                            }
                        }
                    },
                },
            },
            _ => None,
        }
    }
}

/// Tests whether a node is a nonempty object all of whose values are texts.
#[verifier::loop_isolation(false)]
fn check_qualifies(v: &Json) -> (r: bool)
    ensures
        r == qualifies_mapping(v@),
{
    match v {
        Json::Obj(es) => {
            if es.len() == 0 {
                proof {
                    assert(entries_view(es@).len() == 0);
                }
                return false;
            }
            let mut i: usize = 0;
            let ghost ev = entries_view(es@);
            while i < es.len()
                invariant
                    0 <= i <= es@.len(),
                    ev == entries_view(es@),
                    forall|k: int| 0 <= k < i ==> (#[trigger] ev[k].1) is Text,
                decreases es@.len() - i,
            {
                let is_text = match &es[i].1 {
                    Json::Text(_) => true,
                    _ => false,
                };
                proof {
                    assert(ev[i as int].1 == es@[i as int].1@);
                }
                if !is_text {
                    proof {
                        assert(!(ev[i as int].1 is Text));
                        assert(!all_text_values(ev));
                    }
                    return false;
                }
                i = i + 1;
            }
            true
        },
        _ => false,
    }
}

/// Tests whether the dereferencer would fire again on some entry.
#[verifier::loop_isolation(false)]
fn check_entries_ok(entries: &Vec<(String, Json)>) -> (r: bool)
    ensures
        r == obj_entries_ok(entries_view(entries@)),
{
    let ghost ev = entries_view(entries@);
    let mut i: usize = 0;
    while i < entries.len()
        invariant
            0 <= i <= entries@.len(),
            ev == entries_view(entries@),
            forall|k: int| 0 <= k < i ==> !bad_entry(#[trigger] ev[k]),
        decreases entries@.len() - i,
    {
        let e = &entries[i];
        proof {
            assert(ev[i as int] == (e.0@, e.1@));
        }
        if crate::text::str_eq(e.0.as_str(), "$ref") {
            let is_text = match &e.1 {
                Json::Text(_) => true,
                _ => false,
            };
            if is_text {
                return false;
            }
        }
        if crate::text::str_eq(e.0.as_str(), "mapping") {
            if check_qualifies(&e.1) {
                return false;
            }
        }
        i = i + 1;
    }
    true
}

/// Dereferences one tree against the document root, within a budget of
/// pointer jumps. Errors carry a diagnostic: a pointer that resolves
/// nowhere, a spent budget (a cyclic document), or a resolution that would
/// leave a reference-shaped node behind.
#[verifier::loop_isolation(false)]
pub fn deref(j: &Json, all: &Json, fuel: u64) -> (r: Result<Json, ErrorProcess>)
    ensures
        match r {
            Ok(out) => norm_spec(j@, all@, fuel as nat) == Some(out@),
            Err(e) => norm_spec(j@, all@, fuel as nat) is None && e is Message,
        },
    decreases fuel, *j,
{
    match j {
        Json::Obj(entries) => {
            proof {
                assert(j@ == JsonV::Obj(entries_view(entries@)));
            }
            let ref_val = crate::json::entries_get(entries, "$ref");
            let mut is_ref: Option<&String> = None;
            match ref_val {
                Some(rv) => {
                    match rv {
                        Json::Text(p) => {
                            is_ref = Some(p);
                        },
                        _ => {
                        },
                    }
                },
                None => {
                },
            }
            match is_ref {
                Some(p) => {
                    if fuel == 0 {
                        return Err(
                            ErrorProcess::Message(
                                String::from_str("reference depth limit reached: is the document cyclic?"),
                            ),
                        );
                    }
                    let target = match go_to_spec(all, p.as_str()) {
                        Ok(t) => t,
                        Err(e) => {
                            return Err(e);
                        },
                    };
                    deref(target, all, fuel - 1)
                },
                None => {
                    let es = match deref_entries(entries, all, fuel) {
                        Ok(es) => es,
                        Err(e) => {
                            return Err(e);
                        },
                    };
                    let sorted = sort_entries_exec(es);
                    if !check_entries_ok(&sorted) {
                        return Err(
                            ErrorProcess::Message(
                                String::from_str("dereferencing left a reference-shaped node behind"),
                            ),
                        );
                    }
                    Ok(Json::Obj(sorted))
                },
            }
        },
        Json::Arr(items) => {
            proof {
                assert(j@ == JsonV::Arr(arr_view(items@)));
            }
            let l = match deref_list(items, all, fuel) {
                Ok(l) => l,
                Err(e) => {
                    return Err(e);
                },
            };
            Ok(Json::Arr(l))
        },
        other => Ok(json_clone(other)),
    }
}

/// Each entry of an object, dereferenced in turn.
#[verifier::loop_isolation(false)]
fn deref_entries(entries: &Vec<(String, Json)>, all: &Json, fuel: u64) -> (r: Result<
    Vec<(String, Json)>,
    ErrorProcess,
>)
    ensures
        match r {
            Ok(out) => norm_entries_spec(entries_view(entries@), all@, fuel as nat) == Some(
                entries_view(out@),
            ),
            Err(e) => norm_entries_spec(entries_view(entries@), all@, fuel as nat) is None && e
                is Message,
        },
    decreases fuel, *entries,
{
    let ghost ev = entries_view(entries@);
    let mut out: Vec<(String, Json)> = Vec::new();
    let mut i: usize = 0;
    proof {
        assert(ev.skip(0) =~= ev);
        assert(entries_view(out@) =~= Seq::<(Seq<char>, JsonV)>::empty());
    }
    while i < entries.len()
        invariant
            0 <= i <= entries@.len(),
            norm_entries_spec(ev, all@, fuel as nat) == (match norm_entries_spec(
                ev.skip(i as int),
                all@,
                fuel as nat,
            ) {
                None => None,
                Some(rest) => Some(entries_view(out@) + rest),
            }),
        decreases entries@.len() - i,
    {
        proof {
            assert(ev.skip(i as int)[0] == ev[i as int]);
            assert(ev[i as int] == (entries@[i as int].0@, entries@[i as int].1@));
            assert(ev.skip(i as int).drop_first() =~= ev.skip(i + 1));
            assert(decreases_to!(*entries => entries@[i as int]));
            assert(decreases_to!(entries@[i as int] => entries@[i as int].1));
        }
        let e = &entries[i];
        let ghost before = entries_view(out@);
        let mut fired = false;
        if crate::text::str_eq(e.0.as_str(), "mapping") {
            if check_qualifies(&e.1) {
                fired = true;
                let mes = match &e.1 {
                    Json::Obj(mes) => mes,
                    _ => {
                        proof {
                            assert(false);
                        }
                        unreached()
                    },
                };
                proof {
                    assert(e.1@ == JsonV::Obj(entries_view(mes@)));
                    assert(decreases_to!(entries@[i as int].1 => *mes));
                }
                let ms = match deref_mapping(mes, all, fuel) {
                    Ok(ms) => ms,
                    Err(err) => {
                        return Err(err);
                    },
                };
                let sorted_ms = sort_entries_exec(ms);
                if !check_entries_ok(&sorted_ms) {
                    return Err(
                        ErrorProcess::Message(
                            String::from_str("dereferencing left a reference-shaped node behind"),
                        ),
                    );
                }
                out.push((e.0.clone(), Json::Obj(sorted_ms)));
                proof {
                    assert(entries_view(out@) =~= before + seq![
                        norm_entry_spec(ev[i as int], all@, fuel as nat).unwrap()]);
                }
            }
        }
        if !fired {
            let nv = match deref(&e.1, all, fuel) {
                Ok(nv) => nv,
                Err(err) => {
                    return Err(err);
                },
            };
            out.push((e.0.clone(), nv));
            proof {
                assert(entries_view(out@) =~= before + seq![
                    norm_entry_spec(ev[i as int], all@, fuel as nat).unwrap()]);
            }
        }
        proof {
            let h = norm_entry_spec(ev[i as int], all@, fuel as nat).unwrap();
            assert(entries_view(out@) == before + seq![h]);
            assert forall|rest: Seq<(Seq<char>, JsonV)>| true implies before + (seq![h] + rest)
                == entries_view(out@) + rest by {
                assert(before + (seq![h] + rest) =~= (before + seq![h]) + rest);
            }
        }
        i = i + 1;
    }
    proof {
        assert(ev.skip(i as int).len() == 0);
        assert(norm_entries_spec(ev.skip(i as int), all@, fuel as nat) == Some(
            Seq::<(Seq<char>, JsonV)>::empty(),
        ));
        assert(entries_view(out@) + Seq::<(Seq<char>, JsonV)>::empty() =~= entries_view(out@));
    }
    Ok(out)
}

/// Each item of an array, dereferenced in turn.
#[verifier::loop_isolation(false)]
fn deref_list(items: &Vec<Json>, all: &Json, fuel: u64) -> (r: Result<Vec<Json>, ErrorProcess>)
    ensures
        match r {
            Ok(out) => norm_list_spec(arr_view(items@), all@, fuel as nat) == Some(arr_view(out@)),
            Err(e) => norm_list_spec(arr_view(items@), all@, fuel as nat) is None && e is Message,
        },
    decreases fuel, *items,
{
    let ghost iv = arr_view(items@);
    let mut out: Vec<Json> = Vec::new();
    let mut i: usize = 0;
    proof {
        assert(iv.skip(0) =~= iv);
        assert(arr_view(out@) =~= Seq::<JsonV>::empty());
    }
    while i < items.len()
        invariant
            0 <= i <= items@.len(),
            norm_list_spec(iv, all@, fuel as nat) == (match norm_list_spec(
                iv.skip(i as int),
                all@,
                fuel as nat,
            ) {
                None => None,
                Some(rest) => Some(arr_view(out@) + rest),
            }),
        decreases items@.len() - i,
    {
        proof {
            assert(iv.skip(i as int)[0] == iv[i as int]);
            assert(iv[i as int] == items@[i as int]@);
            assert(iv.skip(i as int).drop_first() =~= iv.skip(i + 1));
            assert(decreases_to!(*items => items@[i as int]));
        }
        let ghost before = arr_view(out@);
        let nv = match deref(&items[i], all, fuel) {
            Ok(nv) => nv,
            Err(err) => {
                return Err(err);
            },
        };
        out.push(nv);
        proof {
            let h = norm_spec(iv[i as int], all@, fuel as nat).unwrap();
            assert(arr_view(out@) =~= before + seq![h]);
            assert forall|rest: Seq<JsonV>| true implies before + (seq![h] + rest) == arr_view(
                out@,
            ) + rest by {
                assert(before + (seq![h] + rest) =~= (before + seq![h]) + rest);
            }
        }
        i = i + 1;
    }
    proof {
        assert(iv.skip(i as int).len() == 0);
        assert(norm_list_spec(iv.skip(i as int), all@, fuel as nat) == Some(Seq::<JsonV>::empty()));
        assert(arr_view(out@) + Seq::<JsonV>::empty() =~= arr_view(out@));
    }
    Ok(out)
}

/// The pointer mapping of a discriminator, each pointer replaced by its
/// dereferenced body.
#[verifier::loop_isolation(false)]
fn deref_mapping(mes: &Vec<(String, Json)>, all: &Json, fuel: u64) -> (r: Result<
    Vec<(String, Json)>,
    ErrorProcess,
>)
    ensures
        match r {
            Ok(out) => norm_mapping_spec(entries_view(mes@), all@, fuel as nat) == Some(
                entries_view(out@),
            ),
            Err(e) => norm_mapping_spec(entries_view(mes@), all@, fuel as nat) is None && e
                is Message,
        },
    decreases fuel, *mes,
{
    if fuel == 0 {
        return Err(
            ErrorProcess::Message(
                String::from_str("reference depth limit reached: is the document cyclic?"),
            ),
        );
    }
    let ghost mv = entries_view(mes@);
    let mut out: Vec<(String, Json)> = Vec::new();
    let mut i: usize = 0;
    proof {
        assert(mv.skip(0) =~= mv);
        assert(entries_view(out@) =~= Seq::<(Seq<char>, JsonV)>::empty());
    }
    while i < mes.len()
        invariant
            0 <= i <= mes@.len(),
            fuel > 0,
            norm_mapping_spec(mv, all@, fuel as nat) == (match norm_mapping_spec(
                mv.skip(i as int),
                all@,
                fuel as nat,
            ) {
                None => None,
                Some(rest) => Some(entries_view(out@) + rest),
            }),
        decreases mes@.len() - i,
    {
        proof {
            assert(mv.skip(i as int)[0] == mv[i as int]);
            assert(mv[i as int] == (mes@[i as int].0@, mes@[i as int].1@));
            assert(mv.skip(i as int).drop_first() =~= mv.skip(i + 1));
        }
        let e = &mes[i];
        let ghost before = entries_view(out@);
        let p = match &e.1 {
            Json::Text(p) => p,
            _ => {
                let mut m = String::from_str("expected a pointer text in discriminator mapping ");
                m.append(e.0.as_str());
                return Err(ErrorProcess::Message(m));
            },
        };
        let target = match go_to_spec(all, p.as_str()) {
            Ok(t) => t,
            Err(err) => {
                return Err(err);
            },
        };
        let t = match deref(target, all, fuel - 1) {
            Ok(t) => t,
            Err(err) => {
                return Err(err);
            },
        };
        let t_is_text = match &t {
            Json::Text(_) => true,
            _ => false,
        };
        if t_is_text {
            return Err(
                ErrorProcess::Message(
                    String::from_str("a discriminator mapping target resolved to a text"),
                ),
            );
        }
        out.push((e.0.clone(), t));
        proof {
            let h = (mv[i as int].0, norm_spec(
                deref_path_spec(all@, mv[i as int].1->Text_0).unwrap(),
                all@,
                (fuel - 1) as nat,
            ).unwrap());
            assert(entries_view(out@) =~= before + seq![h]);
            assert forall|rest: Seq<(Seq<char>, JsonV)>| true implies before + (seq![h] + rest)
                == entries_view(out@) + rest by {
                assert(before + (seq![h] + rest) =~= (before + seq![h]) + rest);
            }
        }
        i = i + 1;
    }
    proof {
        assert(mv.skip(i as int).len() == 0);
        assert(norm_mapping_spec(mv.skip(i as int), all@, fuel as nat) == Some(
            Seq::<(Seq<char>, JsonV)>::empty(),
        ));
        assert(entries_view(out@) + Seq::<(Seq<char>, JsonV)>::empty() =~= entries_view(out@));
    }
    Ok(out)
}

proof fn lemma_assoc_lookup_member(es: Seq<(Seq<char>, JsonV)>, key: Seq<char>)
    ensures
        match assoc_lookup(es, key) {
            None => true,
            Some(v) => exists|i: int| 0 <= i < es.len() && es[i] == (key, v),
        },
    decreases es.len(),
{
    if es.len() > 0 && es[0].0 != key {
        lemma_assoc_lookup_member(es.drop_first(), key);
        match assoc_lookup(es.drop_first(), key) {
            None => {
            },
            Some(v) => {
                let i = choose|i: int|
                    0 <= i < es.drop_first().len() && es.drop_first()[i] == (key, v);
                assert(es[i + 1] == (key, v));
            },
        }
    } else if es.len() > 0 {
        assert(es[0] == (key, es[0].1));
    }
}

pub proof fn lemma_normal_entries_index(es: Seq<(Seq<char>, JsonV)>, i: int)
    requires
        normal_entries(es),
        0 <= i < es.len(),
    ensures
        is_normal(es[i].1),
    decreases i,
{
    if i > 0 {
        lemma_normal_entries_index(es.drop_first(), i - 1);
        assert(es.drop_first()[i - 1] == es[i]);
    }
}

pub proof fn lemma_normal_entries_intro(es: Seq<(Seq<char>, JsonV)>)
    requires
        forall|i: int| 0 <= i < es.len() ==> is_normal((#[trigger] es[i]).1),
    ensures
        normal_entries(es),
    decreases es.len(),
{
    if es.len() > 0 {
        assert forall|i: int| 0 <= i < es.drop_first().len() implies is_normal(
            (#[trigger] es.drop_first()[i]).1,
        ) by {
            assert(es.drop_first()[i] == es[i + 1]);
        }
        lemma_normal_entries_intro(es.drop_first());
        assert(is_normal(es[0].1));
    }
}



/// An insertion keeps every value fully dereferenced when the new one is.
proof fn lemma_insert_entry_normal(s: Seq<(Seq<char>, JsonV)>, e: (Seq<char>, JsonV))
    requires
        normal_entries(s),
        is_normal(e.1),
    ensures
        normal_entries(insert_entry(s, e)),
    decreases s.len(),
{
    let r = insert_entry(s, e);
    if s.len() == 0 {
        assert(r == seq![e]);
        assert(r[0] == e);
        assert(is_normal(r[0].1));
        assert(r.drop_first() =~= Seq::<(Seq<char>, JsonV)>::empty());
        assert(normal_entries(r.drop_first()));
        assert(normal_entries(r));
    } else if crate::text::str_lt(e.0, s[0].0) {
        assert(r == seq![e] + s);
        assert(r[0] == e);
        assert(is_normal(r[0].1));
        assert(r.drop_first() =~= s);
        assert(normal_entries(r.drop_first()));
        assert(normal_entries(r));
    } else {
        assert(is_normal(s[0].1));
        assert(normal_entries(s.drop_first()));
        lemma_insert_entry_normal(s.drop_first(), e);
        let tail = insert_entry(s.drop_first(), e);
        assert(r == seq![s[0]] + tail);
        assert(r[0] == s[0]);
        assert(is_normal(r[0].1));
        assert(r.drop_first() =~= tail);
        assert(normal_entries(r.drop_first()));
        assert(normal_entries(r));
    }
}

/// Sorting keeps every value fully dereferenced.
proof fn lemma_sort_entries_normal(es: Seq<(Seq<char>, JsonV)>)
    requires
        normal_entries(es),
    ensures
        normal_entries(sort_entries(es)),
    decreases es.len(),
{
    if es.len() > 0 {
        assert forall|i: int| 0 <= i < es.drop_last().len() implies is_normal(
            (#[trigger] es.drop_last()[i]).1,
        ) by {
            assert(es.drop_last()[i] == es[i]);
            lemma_normal_entries_index(es, i);
        }
        lemma_normal_entries_intro(es.drop_last());
        lemma_sort_entries_normal(es.drop_last());
        lemma_normal_entries_index(es, es.len() - 1);
        lemma_insert_entry_normal(sort_entries(es.drop_last()), es.last());
    }
}

/// A fully dereferenced tree passes the dereferencer unchanged, whatever the
/// budget and whatever the root it would resolve pointers against.
pub proof fn lemma_norm_of_normal(j: JsonV, all: JsonV, fuel: nat)
    requires
        is_normal(j),
    ensures
        norm_spec(j, all, fuel) == Some(j),
    decreases j,
{
    match j {
        JsonV::Obj(es) => {
            lemma_assoc_lookup_member(es, "$ref"@);
            match assoc_lookup(es, "$ref"@) {
                Some(v) => {
                    if v is Text {
                        let i = choose|i: int| 0 <= i < es.len() && es[i] == ("$ref"@, v);
                        assert(bad_entry(es[i]));
                        assert(false);
                    }
                },
                None => {
                },
            }
            lemma_norm_entries_of_normal(es, all, fuel);
            lemma_sort_entries_id(es);
        },
        JsonV::Arr(items) => {
            lemma_norm_list_of_normal(items, all, fuel);
        },
        _ => {
        },
    }
}

proof fn lemma_norm_entries_of_normal(es: Seq<(Seq<char>, JsonV)>, all: JsonV, fuel: nat)
    requires
        normal_entries(es),
        obj_entries_ok(es),
    ensures
        norm_entries_spec(es, all, fuel) == Some(es),
    decreases es,
{
    if es.len() > 0 {
        assert(!bad_entry(es[0]));
        assert(is_normal(es[0].1));
        assert(!(es[0].0 == "mapping"@ && qualifies_mapping(es[0].1)));
        lemma_norm_of_normal(es[0].1, all, fuel);
        assert(norm_entry_spec(es[0], all, fuel) == Some(es[0]));
        assert forall|i: int| 0 <= i < es.drop_first().len() implies !bad_entry(
            #[trigger] es.drop_first()[i],
        ) by {
            assert(es.drop_first()[i] == es[i + 1]);
        }
        lemma_norm_entries_of_normal(es.drop_first(), all, fuel);
        assert(seq![es[0]] + es.drop_first() =~= es);
    } else {
        assert(es =~= Seq::<(Seq<char>, JsonV)>::empty());
    }
}

proof fn lemma_norm_list_of_normal(items: Seq<JsonV>, all: JsonV, fuel: nat)
    requires
        normal_list(items),
    ensures
        norm_list_spec(items, all, fuel) == Some(items),
    decreases items,
{
    if items.len() > 0 {
        assert(is_normal(items[0]));
        lemma_norm_of_normal(items[0], all, fuel);
        lemma_norm_list_of_normal(items.drop_first(), all, fuel);
        assert(seq![items[0]] + items.drop_first() =~= items);
    } else {
        assert(items =~= Seq::<JsonV>::empty());
    }
}

/// Whatever the dereferencer returns is fully dereferenced.
pub proof fn lemma_norm_normal(j: JsonV, all: JsonV, fuel: nat, r: JsonV)
    requires
        norm_spec(j, all, fuel) == Some(r),
    ensures
        is_normal(r),
    decreases fuel, j,
{
    match j {
        JsonV::Obj(es) => {
            match assoc_lookup(es, "$ref"@) {
                Some(JsonV::Text(p)) => {
                    lemma_norm_normal(
                        deref_path_spec(all, p).unwrap(),
                        all,
                        (fuel - 1) as nat,
                        r,
                    );
                },
                _ => {
                    let nes = norm_entries_spec(es, all, fuel).unwrap();
                    lemma_norm_entries_normal(es, all, fuel, nes);
                    lemma_sort_entries_sorted(nes);
                    lemma_sort_entries_normal(nes);
                },
            }
        },
        JsonV::Arr(items) => {
            let nl = norm_list_spec(items, all, fuel).unwrap();
            lemma_norm_list_normal(items, all, fuel, nl);
        },
        _ => {
        },
    }
}

proof fn lemma_norm_entries_normal(
    es: Seq<(Seq<char>, JsonV)>,
    all: JsonV,
    fuel: nat,
    out: Seq<(Seq<char>, JsonV)>,
)
    requires
        norm_entries_spec(es, all, fuel) == Some(out),
    ensures
        normal_entries(out),
    decreases fuel, es,
{
    if es.len() > 0 {
        let h = norm_entry_spec(es[0], all, fuel).unwrap();
        let rest = norm_entries_spec(es.drop_first(), all, fuel).unwrap();
        lemma_norm_entry_normal(es[0], all, fuel, h);
        lemma_norm_entries_normal(es.drop_first(), all, fuel, rest);
        assert(out == seq![h] + rest);
        assert(out[0] == h);
        assert(out.drop_first() =~= rest);
    } else {
        assert(out =~= Seq::<(Seq<char>, JsonV)>::empty());
    }
}

proof fn lemma_norm_entry_normal(
    e: (Seq<char>, JsonV),
    all: JsonV,
    fuel: nat,
    h: (Seq<char>, JsonV),
)
    requires
        norm_entry_spec(e, all, fuel) == Some(h),
    ensures
        is_normal(h.1),
    decreases fuel, e,
{
    if e.0 == "mapping"@ && qualifies_mapping(e.1) {
        match e.1 {
            JsonV::Obj(mes) => {
                let ms = norm_mapping_spec(mes, all, fuel).unwrap();
                lemma_norm_mapping_normal(mes, all, fuel, ms);
                lemma_sort_entries_sorted(ms);
                lemma_sort_entries_normal(ms);
            },
            _ => {
            },
        }
    } else {
        lemma_norm_normal(e.1, all, fuel, h.1);
    }
}

proof fn lemma_norm_mapping_normal(
    mes: Seq<(Seq<char>, JsonV)>,
    all: JsonV,
    fuel: nat,
    out: Seq<(Seq<char>, JsonV)>,
)
    requires
        norm_mapping_spec(mes, all, fuel) == Some(out),
    ensures
        normal_entries(out),
    decreases fuel, mes,
{
    if fuel > 0 && mes.len() > 0 {
        match mes[0].1 {
            JsonV::Text(p) => {
                let target = deref_path_spec(all, p).unwrap();
                let t = norm_spec(target, all, (fuel - 1) as nat).unwrap();
                let rest = norm_mapping_spec(mes.drop_first(), all, fuel).unwrap();
                lemma_norm_normal(target, all, (fuel - 1) as nat, t);
                lemma_norm_mapping_normal(mes.drop_first(), all, fuel, rest);
                assert(out == seq![(mes[0].0, t)] + rest);
                assert(out[0] == (mes[0].0, t));
                assert(out.drop_first() =~= rest);
            },
            _ => {
            },
        }
    } else if fuel > 0 {
        assert(out =~= Seq::<(Seq<char>, JsonV)>::empty());
    }
}

proof fn lemma_norm_list_normal(items: Seq<JsonV>, all: JsonV, fuel: nat, out: Seq<JsonV>)
    requires
        norm_list_spec(items, all, fuel) == Some(out),
    ensures
        normal_list(out),
    decreases fuel, items,
{
    if items.len() > 0 {
        let h = norm_spec(items[0], all, fuel).unwrap();
        let rest = norm_list_spec(items.drop_first(), all, fuel).unwrap();
        lemma_norm_normal(items[0], all, fuel, h);
        lemma_norm_list_normal(items.drop_first(), all, fuel, rest);
        assert(out == seq![h] + rest);
        assert(out[0] == h);
        assert(out.drop_first() =~= rest);
    } else {
        assert(out =~= Seq::<JsonV>::empty());
    }
}

/// Dereferencing is idempotent: a tree the dereferencer produced passes a
/// second run unchanged, with any jump budget.
pub proof fn lemma_deref_idempotent(d: JsonV, all: JsonV, fuel: nat, fuel2: nat, r: JsonV)
    requires
        norm_spec(d, all, fuel) == Some(r),
    ensures
        is_normal(r),
        norm_spec(r, all, fuel2) == Some(r),
{
    lemma_norm_normal(d, all, fuel, r);
    lemma_norm_of_normal(r, all, fuel2);
}

/// The jump budget of the dereferencer: more pointer hops than any
/// non-cyclic document can chain.
pub const DEREF_FUEL: u64 = 1048576;

/// Dereferences a whole document against itself: the first normalizer pass.
pub fn filter_deref(value: &Json) -> (r: Result<Json, ErrorProcess>)
    ensures
        match r {
            Ok(out) => norm_spec(value@, value@, DEREF_FUEL as nat) == Some(out@),
            Err(e) => norm_spec(value@, value@, DEREF_FUEL as nat) is None && e is Message,
        },
{
    deref(value, value, DEREF_FUEL)
}

/// Sorts a key-to-node entry list by key, for deterministic processing.
pub fn get_sorted_map(entries: Vec<(String, Json)>) -> (r: Vec<(String, Json)>)
    ensures
        entries_view(r@) == sort_entries(entries_view(entries@)),
{
    sort_entries_exec(entries)
}

} // verus!
