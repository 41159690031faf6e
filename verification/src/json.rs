use vstd::prelude::*;
use crate::text::{str_lt, lemma_str_lt_connected, lemma_str_lt_irreflexive, lemma_str_lt_transitive,
    str_is_lt};

verus! {

/// The mathematical model of a document tree: numbers are carried as their
/// source rendering (nothing in the pipeline reads them), objects are
/// association sequences of key and value.
pub enum JsonV {
    Null,
    Bool(bool),
    Num(Seq<char>),
    Text(Seq<char>),
    Arr(Seq<JsonV>),
    Obj(Seq<(Seq<char>, JsonV)>),
}

/// A document tree, as the normalizer and the type resolver see it.
#[derive(Debug, PartialEq)]
pub enum Json {
    Null,
    Bool(bool),
    Num(String),
    Text(String),
    Arr(Vec<Json>),
    Obj(Vec<(String, Json)>),
}

/// The model of an array's item list.
pub open spec fn arr_view(v: Seq<Json>) -> Seq<JsonV>
    decreases v,
{
    Seq::new(v.len(), |i: int| if 0 <= i < v.len() {
        v[i]@
    } else {
        JsonV::Null
    })
}

/// The model of an object's entry list.
pub open spec fn entries_view(v: Seq<(String, Json)>) -> Seq<(Seq<char>, JsonV)>
    decreases v,
{
    Seq::new(v.len(), |i: int| if 0 <= i < v.len() {
        (v[i].0@, v[i].1@)
    } else {
        (Seq::empty(), JsonV::Null)
    })
}

impl View for Json {
    type V = JsonV;

    open spec fn view(&self) -> JsonV
        decreases self,
    {
        match self {
            Json::Null => JsonV::Null,
            Json::Bool(b) => JsonV::Bool(*b),
            Json::Num(s) => JsonV::Num(s@),
            Json::Text(s) => JsonV::Text(s@),
            Json::Arr(items) => JsonV::Arr(arr_view(items@)),
            Json::Obj(entries) => JsonV::Obj(entries_view(entries@)),
        }
    }
}

impl Json {
    /// True for the null scalar.
    pub fn is_null(&self) -> (r: bool)
        ensures
            r == (self@ is Null),
    {
        match self {
            Json::Null => true,
            _ => false,
        }
    }
}

/// Copies a tree; the copy has the same model.
#[verifier::loop_isolation(false)]
pub fn json_clone(j: &Json) -> (r: Json)
    ensures
        r@ == j@,
    decreases *j,
{
    match j {
        Json::Null => Json::Null,
        Json::Bool(b) => Json::Bool(*b),
        Json::Num(s) => Json::Num(s.clone()),
        Json::Text(s) => Json::Text(s.clone()),
        Json::Arr(items) => {
            let mut out: Vec<Json> = Vec::new();
            let mut i: usize = 0;
            while i < items.len()
                invariant
                    0 <= i <= items@.len(),
                    out@.len() == i,
                    forall|k: int| 0 <= k < i ==> out@[k]@ == items@[k]@,
                decreases items@.len() - i,
            {
                proof {
                    assert(*j == Json::Arr(*items));
                    assert(decreases_to!(*j => *items));
                    assert(decreases_to!(*items => items@[i as int]));
                }
                out.push(json_clone(&items[i]));
                i = i + 1;
            }
            proof {
                assert(arr_view(out@) =~= arr_view(items@));
            }
            Json::Arr(out)
        },
        Json::Obj(entries) => {
            let mut out: Vec<(String, Json)> = Vec::new();
            let mut i: usize = 0;
            while i < entries.len()
                invariant
                    0 <= i <= entries@.len(),
                    out@.len() == i,
                    forall|k: int|
                        0 <= k < i ==> out@[k].0@ == entries@[k].0@ && out@[k].1@
                            == entries@[k].1@,
                decreases entries@.len() - i,
            {
                let e = &entries[i];
                proof {
                    assert(*j == Json::Obj(*entries));
                    assert(decreases_to!(*j => *entries));
                    assert(decreases_to!(*entries => entries@[i as int]));
                    assert(decreases_to!(entries@[i as int] => entries@[i as int].1));
                }
                out.push((e.0.clone(), json_clone(&e.1)));
                i = i + 1;
            }
            proof {
                assert(entries_view(out@) =~= entries_view(entries@));
            }
            Json::Obj(out)
        },
    }
}

/// A compact rendering of a tree for diagnostics: scalars as their source
/// form, texts quoted without escaping, arrays and objects bracketed with
/// comma-separated members.
pub open spec fn json_text(j: JsonV) -> Seq<char>
    decreases j, 2int,
{
    match j {
        JsonV::Null => "null"@,
        JsonV::Bool(b) => if b {
            "true"@
        } else {
            "false"@
        },
        JsonV::Num(s) => s,
        JsonV::Text(s) => seq!['"'] + s + seq!['"'],
        JsonV::Arr(items) => seq!['['] + arr_text(items) + seq![']'],
        JsonV::Obj(entries) => seq!['{'] + obj_text(entries) + seq!['}'],
    }
}

/// The items of an array, comma-joined.
pub open spec fn arr_text(items: Seq<JsonV>) -> Seq<char>
    decreases items, 0int,
{
    if items.len() == 0 {
        Seq::empty()
    } else {
        json_text(items[0]) + arr_text_tail(items.drop_first())
    }
}

pub open spec fn arr_text_tail(items: Seq<JsonV>) -> Seq<char>
    decreases items, 1int,
{
    if items.len() == 0 {
        Seq::empty()
    } else {
        ", "@ + json_text(items[0]) + arr_text_tail(items.drop_first())
    }
}

/// One rendered entry of an object.
pub open spec fn entry_text(e: (Seq<char>, JsonV)) -> Seq<char>
    decreases e, 0int,
{
    seq!['"'] + e.0 + "\": "@ + json_text(e.1)
}

/// The entries of an object, comma-joined.
pub open spec fn obj_text(entries: Seq<(Seq<char>, JsonV)>) -> Seq<char>
    decreases entries, 0int,
{
    if entries.len() == 0 {
        Seq::empty()
    } else {
        entry_text(entries[0]) + obj_text_tail(entries.drop_first())
    }
}

pub open spec fn obj_text_tail(entries: Seq<(Seq<char>, JsonV)>) -> Seq<char>
    decreases entries, 1int,
{
    if entries.len() == 0 {
        Seq::empty()
    } else {
        ", "@ + entry_text(entries[0]) + obj_text_tail(entries.drop_first())
    }
}

/// Renders a tree compactly for a diagnostic.
#[verifier::loop_isolation(false)]
pub fn render_json(j: &Json) -> (r: String)
    ensures
        r@ == json_text(j@),
    decreases *j, 2int,
{
    match j {
        Json::Null => String::from_str("null"),
        Json::Bool(b) => {
            if *b {
                String::from_str("true")
            } else {
                String::from_str("false")
            }
        },
        Json::Num(s) => s.clone(),
        Json::Text(s) => {
            let mut r = String::new();
            crate::text::push_char(&mut r, '"');
            r.append(s.as_str());
            crate::text::push_char(&mut r, '"');
            proof {
                assert(r@ =~= seq!['"'] + s@ + seq!['"']);
            }
            r
        },
        Json::Arr(items) => {
            let ghost iv = arr_view(items@);
            let mut body = String::new();
            let mut i: usize = 0;
            proof {
                assert(iv.skip(0) =~= iv);
            }
            while i < items.len()
                invariant
                    0 <= i <= items@.len(),
                    i == 0 ==> body@ == Seq::<char>::empty() && arr_text(iv) == body@ + arr_text(
                        iv.skip(0),
                    ),
                    i > 0 ==> arr_text(iv) == body@ + arr_text_tail(iv.skip(i as int)),
                decreases items@.len() - i,
            {
                proof {
                    assert(iv.skip(i as int)[0] == iv[i as int]);
                    assert(iv[i as int] == items@[i as int]@);
                    assert(iv.skip(i as int).drop_first() =~= iv.skip(i + 1));
                    assert(decreases_to!(*j => *items));
                    assert(decreases_to!(*items => items@[i as int]));
                }
                let ghost b0 = body@;
                if i > 0 {
                    body.append(", ");
                }
                let it = render_json(&items[i]);
                body.append(it.as_str());
                proof {
                    let q = json_text(iv[i as int]);
                    if i == 0 {
                        assert(body@ =~= q);
                        assert(arr_text(iv) == q + arr_text_tail(iv.skip(1)));
                    } else {
                        assert(body@ =~= b0 + (", "@ + q));
                        assert(arr_text_tail(iv.skip(i as int)) == ", "@ + q + arr_text_tail(
                            iv.skip(i + 1),
                        ));
                        assert(b0 + (", "@ + q + arr_text_tail(iv.skip(i + 1))) =~= (b0 + (", "@
                            + q)) + arr_text_tail(iv.skip(i + 1)));
                    }
                }
                i = i + 1;
            }
            proof {
                if items@.len() == 0 {
                    assert(arr_text(iv) =~= Seq::<char>::empty());
                    assert(body@ =~= arr_text(iv));
                } else {
                    assert(iv.skip(i as int).len() == 0);
                    assert(arr_text_tail(iv.skip(i as int)) =~= Seq::<char>::empty());
                    assert(body@ + Seq::<char>::empty() =~= body@);
                }
            }
            let mut r = String::new();
            crate::text::push_char(&mut r, '[');
            r.append(body.as_str());
            crate::text::push_char(&mut r, ']');
            proof {
                assert(r@ =~= seq!['['] + arr_text(iv) + seq![']']);
            }
            r
        },
        Json::Obj(entries) => {
            let ghost ev = entries_view(entries@);
            let mut body = String::new();
            let mut i: usize = 0;
            proof {
                assert(ev.skip(0) =~= ev);
            }
            while i < entries.len()
                invariant
                    0 <= i <= entries@.len(),
                    i == 0 ==> body@ == Seq::<char>::empty() && obj_text(ev) == body@ + obj_text(
                        ev.skip(0),
                    ),
                    i > 0 ==> obj_text(ev) == body@ + obj_text_tail(ev.skip(i as int)),
                decreases entries@.len() - i,
            {
                proof {
                    assert(ev.skip(i as int)[0] == ev[i as int]);
                    assert(ev[i as int] == (entries@[i as int].0@, entries@[i as int].1@));
                    assert(ev.skip(i as int).drop_first() =~= ev.skip(i + 1));
                    assert(decreases_to!(*j => *entries));
                    assert(decreases_to!(*entries => entries@[i as int]));
                    assert(decreases_to!(entries@[i as int] => entries@[i as int].1));
                }
                let e = &entries[i];
                let ghost b0 = body@;
                if i > 0 {
                    body.append(", ");
                }
                crate::text::push_char(&mut body, '"');
                body.append(e.0.as_str());
                body.append("\": ");
                let vt = render_json(&e.1);
                body.append(vt.as_str());
                proof {
                    let q = entry_text(ev[i as int]);
                    if i == 0 {
                        assert(body@ =~= q);
                        assert(obj_text(ev) == q + obj_text_tail(ev.skip(1)));
                    } else {
                        assert(body@ =~= b0 + (", "@ + q));
                        assert(obj_text_tail(ev.skip(i as int)) == ", "@ + q + obj_text_tail(
                            ev.skip(i + 1),
                        ));
                        assert(b0 + (", "@ + q + obj_text_tail(ev.skip(i + 1))) =~= (b0 + (", "@
                            + q)) + obj_text_tail(ev.skip(i + 1)));
                    }
                }
                i = i + 1;
            }
            proof {
                if entries@.len() == 0 {
                    assert(obj_text(ev) =~= Seq::<char>::empty());
                    assert(body@ =~= obj_text(ev));
                } else {
                    assert(ev.skip(i as int).len() == 0);
                    assert(obj_text_tail(ev.skip(i as int)) =~= Seq::<char>::empty());
                    assert(body@ + Seq::<char>::empty() =~= body@);
                }
            }
            let mut r = String::new();
            crate::text::push_char(&mut r, '{');
            r.append(body.as_str());
            crate::text::push_char(&mut r, '}');
            proof {
                assert(r@ =~= seq!['{'] + obj_text(ev) + seq!['}']);
            }
            r
        },
    }
}

/// The first value bound to a key in an association sequence.
pub open spec fn assoc_lookup(entries: Seq<(Seq<char>, JsonV)>, key: Seq<char>) -> Option<JsonV>
    decreases entries.len(),
{
    if entries.len() == 0 {
        None
    } else if entries[0].0 == key {
        Some(entries[0].1)
    } else {
        assoc_lookup(entries.drop_first(), key)
    }
}

/// The first value bound to a key in an object node; `None` when the node is
/// no object or lacks the key.
pub open spec fn obj_lookup(j: JsonV, key: Seq<char>) -> Option<JsonV> {
    match j {
        JsonV::Obj(entries) => assoc_lookup(entries, key),
        _ => None,
    }
}

/// Looks a key up in an entry list.
pub fn entries_get<'a>(entries: &'a Vec<(String, Json)>, key: &str) -> (r: Option<&'a Json>)
    ensures
        match r {
            Some(v) => assoc_lookup(entries_view(entries@), key@) == Some(v@),
            None => assoc_lookup(entries_view(entries@), key@) is None,
        },
{
    let mut i: usize = 0;
    proof {
        assert(entries_view(entries@).skip(0) =~= entries_view(entries@));
    }
    while i < entries.len()
        invariant
            0 <= i <= entries@.len(),
            forall|k: int| 0 <= k < i ==> entries@[k].0@ != key@,
            assoc_lookup(entries_view(entries@), key@) == assoc_lookup(
                entries_view(entries@).skip(i as int),
                key@,
            ),
        decreases entries@.len() - i,
    {
        proof {
            assert(entries_view(entries@).skip(i as int)[0] == (entries@[i as int].0@,
            entries@[i as int].1@));
            assert(entries_view(entries@).skip(i as int).drop_first() =~= entries_view(
                entries@,
            ).skip(i + 1));
        }
        if crate::text::str_eq(entries[i].0.as_str(), key) {
            return Some(&entries[i].1);
        }
        i = i + 1;
    }
    proof {
        assert(entries_view(entries@).skip(i as int).len() == 0);
    }
    None
}

/// Looks a key up in an object node; `None` when the node is no object or
/// lacks the key.
pub fn json_get<'a>(j: &'a Json, key: &str) -> (r: Option<&'a Json>)
    ensures
        match r {
            Some(v) => obj_lookup(j@, key@) == Some(v@),
            None => obj_lookup(j@, key@) is None,
        },
{
    match j {
        Json::Obj(entries) => entries_get(entries, key),
        _ => None,
    }
}

/// Non-decreasing key order over an association sequence.
pub open spec fn entries_sorted(entries: Seq<(Seq<char>, JsonV)>) -> bool {
    forall|i: int, k: int| 0 <= i < k < entries.len() ==> !str_lt(entries[k].0, entries[i].0)
}

/// Inserts an entry behind every entry whose key does not come after its own.
pub open spec fn insert_entry(sorted: Seq<(Seq<char>, JsonV)>, e: (Seq<char>, JsonV)) -> Seq<
    (Seq<char>, JsonV),
>
    decreases sorted.len(),
{
    if sorted.len() == 0 {
        seq![e]
    } else if str_lt(e.0, sorted[0].0) {
        seq![e] + sorted
    } else {
        seq![sorted[0]] + insert_entry(sorted.drop_first(), e)
    }
}

/// Sorts an association sequence by key, keeping equal keys in their order.
pub open spec fn sort_entries(entries: Seq<(Seq<char>, JsonV)>) -> Seq<(Seq<char>, JsonV)>
    decreases entries.len(),
{
    if entries.len() == 0 {
        Seq::empty()
    } else {
        insert_entry(sort_entries(entries.drop_last()), entries.last())
    }
}

pub proof fn lemma_insert_entry_len(sorted: Seq<(Seq<char>, JsonV)>, e: (Seq<char>, JsonV))
    ensures
        insert_entry(sorted, e).len() == sorted.len() + 1,
    decreases sorted.len(),
{
    if sorted.len() > 0 && !str_lt(e.0, sorted[0].0) {
        lemma_insert_entry_len(sorted.drop_first(), e);
    }
}


pub proof fn lemma_insert_entry_sorted(sorted: Seq<(Seq<char>, JsonV)>, e: (Seq<char>, JsonV))
    requires
        entries_sorted(sorted),
    ensures
        entries_sorted(insert_entry(sorted, e)),
    decreases sorted.len(),
{
    if sorted.len() == 0 {
    } else if str_lt(e.0, sorted[0].0) {
        let r = seq![e] + sorted;
        assert forall|i: int, k: int| 0 <= i < k < r.len() implies !str_lt(r[k].0, r[i].0) by {
            if i == 0 {
                if k == 1 {
                    assert(r[k].0 == sorted[0].0);
                    if str_lt(r[k].0, e.0) {
                        lemma_str_lt_transitive(e.0, sorted[0].0, e.0);
                        lemma_str_lt_irreflexive(e.0);
                    }
                } else {
                    assert(r[k].0 == sorted[k - 1].0);
                    assert(!str_lt(sorted[k - 1].0, sorted[0].0));
                    if str_lt(sorted[k - 1].0, e.0) {
                        lemma_str_lt_transitive(sorted[k - 1].0, e.0, sorted[0].0);
                    }
                }
            } else {
                assert(r[i].0 == sorted[i - 1].0);
                assert(r[k].0 == sorted[k - 1].0);
            }
        }
    } else {
        assert(forall|i: int, k: int|
            0 <= i < k < sorted.drop_first().len() ==> !str_lt(
                sorted.drop_first()[k].0,
                sorted.drop_first()[i].0,
            ));
        lemma_insert_entry_sorted(sorted.drop_first(), e);
        let tail = insert_entry(sorted.drop_first(), e);
        let r = seq![sorted[0]] + tail;
        lemma_insert_entry_len(sorted.drop_first(), e);
        lemma_insert_entry_members(sorted.drop_first(), e);
        assert forall|i: int, k: int| 0 <= i < k < r.len() implies !str_lt(r[k].0, r[i].0) by {
            if i == 0 {
                assert(r[k].0 == tail[k - 1].0);
                if str_lt(tail[k - 1].0, sorted[0].0) {
                    if tail[k - 1] == e {
                        // e is not below the first key, so the head stays first
                        assert(!str_lt(e.0, sorted[0].0));
                    } else {
                        let j = choose|j: int|
                            0 <= j < sorted.drop_first().len() && sorted.drop_first()[j]
                                == tail[k - 1];
                        assert(sorted[j + 1] == tail[k - 1]);
                        assert(!str_lt(sorted[j + 1].0, sorted[0].0));
                    }
                }
            }
        }
    }
}

/// Every entry of an insertion result is the new entry or one of the old ones.
pub proof fn lemma_insert_entry_members(sorted: Seq<(Seq<char>, JsonV)>, e: (Seq<char>, JsonV))
    ensures
        forall|k: int|
            0 <= k < insert_entry(sorted, e).len() ==> insert_entry(sorted, e)[k] == e || exists|
                j: int,
            | 0 <= j < sorted.len() && sorted[j] == insert_entry(sorted, e)[k],
    decreases sorted.len(),
{
    if sorted.len() == 0 {
    } else if str_lt(e.0, sorted[0].0) {
    } else {
        lemma_insert_entry_members(sorted.drop_first(), e);
        let tail = insert_entry(sorted.drop_first(), e);
        let r = seq![sorted[0]] + tail;
        assert forall|k: int| 0 <= k < r.len() implies r[k] == e || exists|j: int|
            0 <= j < sorted.len() && sorted[j] == r[k] by {
            if k == 0 {
                assert(sorted[0] == r[0]);
            } else {
                assert(r[k] == tail[k - 1]);
                if tail[k - 1] != e {
                    let j = choose|j: int|
                        0 <= j < sorted.drop_first().len() && sorted.drop_first()[j] == tail[k - 1];
                    assert(sorted[j + 1] == r[k]);
                }
            }
        }
    }
}

pub proof fn lemma_sort_entries_sorted(entries: Seq<(Seq<char>, JsonV)>)
    ensures
        entries_sorted(sort_entries(entries)),
    decreases entries.len(),
{
    if entries.len() > 0 {
        lemma_sort_entries_sorted(entries.drop_last());
        lemma_insert_entry_sorted(sort_entries(entries.drop_last()), entries.last());
    }
}

/// Sorting a sequence that is already in order leaves it unchanged.
pub proof fn lemma_sort_entries_id(entries: Seq<(Seq<char>, JsonV)>)
    requires
        entries_sorted(entries),
    ensures
        sort_entries(entries) == entries,
    decreases entries.len(),
{
    if entries.len() > 0 {
        assert(forall|i: int, k: int|
            0 <= i < k < entries.drop_last().len() ==> !str_lt(
                entries.drop_last()[k].0,
                entries.drop_last()[i].0,
            ));
        lemma_sort_entries_id(entries.drop_last());
        lemma_insert_sorted_at_end(entries.drop_last(), entries.last());
        assert(entries.drop_last().push(entries.last()) =~= entries);
    }
}

/// Inserting an entry whose key comes after all keys of an ordered sequence
/// appends it.
proof fn lemma_insert_sorted_at_end(sorted: Seq<(Seq<char>, JsonV)>, e: (Seq<char>, JsonV))
    requires
        forall|i: int| 0 <= i < sorted.len() ==> !str_lt(e.0, sorted[i].0),
    ensures
        insert_entry(sorted, e) == sorted.push(e),
    decreases sorted.len(),
{
    if sorted.len() == 0 {
        assert(insert_entry(sorted, e) =~= sorted.push(e));
    } else {
        assert(forall|i: int|
            0 <= i < sorted.drop_first().len() ==> sorted.drop_first()[i] == sorted[i + 1]);
        lemma_insert_sorted_at_end(sorted.drop_first(), e);
        assert(seq![sorted[0]] + sorted.drop_first().push(e) =~= sorted.push(e));
    }
}

/// The first position whose key comes after the given key.
fn find_insert_pos(sorted: &Vec<(String, Json)>, key: &str) -> (p: usize)
    ensures
        0 <= p <= sorted@.len(),
        forall|k: int| 0 <= k < p ==> !str_lt(key@, entries_view(sorted@)[k].0),
        p < sorted@.len() ==> str_lt(key@, entries_view(sorted@)[p as int].0),
{
    let mut i: usize = 0;
    while i < sorted.len()
        invariant
            0 <= i <= sorted@.len(),
            forall|k: int| 0 <= k < i ==> !str_lt(key@, entries_view(sorted@)[k].0),
        decreases sorted@.len() - i,
    {
        if str_is_lt(key, sorted[i].0.as_str()) {
            return i;
        }
        i = i + 1;
    }
    i
}

/// Inserts an entry into a key-ordered entry list, behind equal keys.
pub fn insert_entry_exec(sorted: &mut Vec<(String, Json)>, e: (String, Json))
    ensures
        entries_view(final(sorted)@) == insert_entry(entries_view(old(sorted)@), (e.0@, e.1@)),
{
    let ghost orig = entries_view(sorted@);
    let ghost ev = (e.0@, e.1@);
    let p = find_insert_pos(sorted, e.0.as_str());
    proof {
        lemma_insert_at_position(orig, ev, p as int);
    }
    sorted.insert(p, e);
    proof {
        assert(entries_view(sorted@) =~= orig.take(p as int) + seq![ev] + orig.skip(p as int));
    }
}

/// An insertion lands at the first position whose key comes after the new key.
proof fn lemma_insert_at_position(sorted: Seq<(Seq<char>, JsonV)>, e: (Seq<char>, JsonV), p: int)
    requires
        0 <= p <= sorted.len(),
        forall|k: int| 0 <= k < p ==> !str_lt(e.0, sorted[k].0),
        p < sorted.len() ==> str_lt(e.0, sorted[p].0),
    ensures
        insert_entry(sorted, e) == sorted.take(p) + seq![e] + sorted.skip(p),
    decreases sorted.len(),
{
    if sorted.len() == 0 {
        assert(insert_entry(sorted, e) =~= sorted.take(p) + seq![e] + sorted.skip(p));
    } else if str_lt(e.0, sorted[0].0) {
        assert(p == 0);
        assert(seq![e] + sorted =~= sorted.take(0) + seq![e] + sorted.skip(0));
    } else {
        assert(p >= 1);
        assert(forall|k: int|
            0 <= k < sorted.drop_first().len() ==> sorted.drop_first()[k] == sorted[k + 1]);
        lemma_insert_at_position(sorted.drop_first(), e, p - 1);
        assert(seq![sorted[0]] + (sorted.drop_first().take(p - 1) + seq![e]
            + sorted.drop_first().skip(p - 1)) =~= sorted.take(p) + seq![e] + sorted.skip(p));
    }
}

/// Sorts an entry list by key, keeping equal keys in their order.
pub fn sort_entries_exec(entries: Vec<(String, Json)>) -> (r: Vec<(String, Json)>)
    ensures
        entries_view(r@) == sort_entries(entries_view(entries@)),
{
    let ghost ev = entries_view(entries@);
    let mut r: Vec<(String, Json)> = Vec::new();
    let mut rest = entries;
    let ghost mut i: int = 0;
    proof {
        assert(entries_view(r@) =~= Seq::<(Seq<char>, JsonV)>::empty());
        assert(ev.take(0) =~= Seq::<(Seq<char>, JsonV)>::empty());
        assert(entries_view(rest@) =~= ev.skip(0));
    }
    while rest.len() > 0
        invariant
            0 <= i <= ev.len(),
            entries_view(rest@) == ev.skip(i),
            entries_view(r@) == sort_entries(ev.take(i)),
        decreases rest@.len(),
    {
        let ghost rv = rest@;
        proof {
            assert(entries_view(rv).len() == rv.len());
            assert(ev.skip(i)[0] == ev[i]);
            assert(entries_view(rv)[0] == (rv[0].0@, rv[0].1@));
        }
        let e = rest.remove(0);
        proof {
            assert(e == rv[0]);
            assert((e.0@, e.1@) == ev[i]);
            assert(rest@ =~= rv.drop_first());
            assert(entries_view(rest@) =~= entries_view(rv).drop_first());
            assert(ev.skip(i).drop_first() =~= ev.skip(i + 1));
        }
        insert_entry_exec(&mut r, e);
        proof {
            assert(ev.take(i + 1).drop_last() =~= ev.take(i));
            assert(ev.take(i + 1).last() == ev[i]);
            i = i + 1;
        }
    }
    proof {
        assert(ev.skip(i).len() == 0);
        assert(i == ev.len());
        assert(ev.take(ev.len() as int) =~= ev);
    }
    r
}

} // verus!
