use vstd::prelude::*;
use crate::error_process::ErrorProcess;
use crate::text::{str_lt, lemma_str_lt_connected, lemma_str_lt_irreflexive, lemma_str_lt_transitive,
    str_is_lt, str_eq};

verus! {

/// A key of the ordered map: a strict total order over a mathematical
/// representation of the key, with executable comparisons that match it.
pub trait SortKey: Sized {
    /// The mathematical value the key is ordered by.
    type Repr;

    /// The representation of this key.
    spec fn repr(&self) -> Self::Repr;

    /// The strict order on representations.
    spec fn lt_repr(a: Self::Repr, b: Self::Repr) -> bool;

    /// A rendering of the key for diagnostics.
    spec fn text_of(&self) -> Seq<char>;

    /// The order is irreflexive, transitive, and connected.
    proof fn lemma_strict_order(a: Self::Repr, b: Self::Repr, c: Self::Repr)
        ensures
            !Self::lt_repr(a, a),
            Self::lt_repr(a, b) && Self::lt_repr(b, c) ==> Self::lt_repr(a, c),
            !Self::lt_repr(a, b) && !Self::lt_repr(b, a) ==> a == b,
    ;

    fn key_lt(&self, other: &Self) -> (r: bool)
        ensures
            r == Self::lt_repr(self.repr(), other.repr()),
    ;

    fn key_eq(&self, other: &Self) -> (r: bool)
        ensures
            r == (self.repr() == other.repr()),
    ;

    fn to_text(&self) -> (r: String)
        ensures
            r@ == self.text_of(),
    ;
}

impl SortKey for String {
    type Repr = Seq<char>;

    open spec fn repr(&self) -> Seq<char> {
        self@
    }

    open spec fn lt_repr(a: Seq<char>, b: Seq<char>) -> bool {
        str_lt(a, b)
    }

    open spec fn text_of(&self) -> Seq<char> {
        self@
    }

    proof fn lemma_strict_order(a: Seq<char>, b: Seq<char>, c: Seq<char>) {
        lemma_str_lt_irreflexive(a);
        if str_lt(a, b) && str_lt(b, c) {
            lemma_str_lt_transitive(a, b, c);
        }
        if !str_lt(a, b) && !str_lt(b, a) {
            lemma_str_lt_connected(a, b);
        }
    }

    fn key_lt(&self, other: &Self) -> (r: bool) {
        str_is_lt(self.as_str(), other.as_str())
    }

    fn key_eq(&self, other: &Self) -> (r: bool) {
        str_eq(self.as_str(), other.as_str())
    }

    fn to_text(&self) -> (r: String) {
        self.clone()
    }
}

impl SortKey for u16 {
    type Repr = int;

    open spec fn repr(&self) -> int {
        *self as int
    }

    open spec fn lt_repr(a: int, b: int) -> bool {
        a < b
    }

    open spec fn text_of(&self) -> Seq<char> {
        crate::text::dec_digits(*self as nat)
    }

    proof fn lemma_strict_order(a: int, b: int, c: int) {
    }

    fn key_lt(&self, other: &Self) -> (r: bool) {
        *self < *other
    }

    fn key_eq(&self, other: &Self) -> (r: bool) {
        *self == *other
    }

    fn to_text(&self) -> (r: String) {
        crate::text::u16_to_dec(*self)
    }
}

/// The first value bound to a key representation in an entry sequence.
pub open spec fn kv_lookup<K: SortKey, V>(entries: Seq<(K, V)>, kr: K::Repr) -> Option<V>
    decreases entries.len(),
{
    if entries.len() == 0 {
        None
    } else if entries[0].0.repr() == kr {
        Some(entries[0].1)
    } else {
        kv_lookup(entries.drop_first(), kr)
    }
}

/// Whether a key representation occurs in an entry sequence.
pub open spec fn kv_contains<K: SortKey, V>(entries: Seq<(K, V)>, kr: K::Repr) -> bool {
    exists|i: int| 0 <= i < entries.len() && entries[i].0.repr() == kr
}

pub proof fn lemma_kv_lookup_contains<K: SortKey, V>(entries: Seq<(K, V)>, kr: K::Repr)
    ensures
        kv_contains(entries, kr) <==> kv_lookup(entries, kr) is Some,
    decreases entries.len(),
{
    if entries.len() > 0 {
        lemma_kv_lookup_contains(entries.drop_first(), kr);
        if entries[0].0.repr() != kr {
            assert(kv_contains(entries, kr) ==> kv_contains(entries.drop_first(), kr)) by {
                if kv_contains(entries, kr) {
                    let i = choose|i: int|
                        0 <= i < entries.len() && entries[i].0.repr() == kr;
                    assert(entries.drop_first()[i - 1].0.repr() == kr);
                }
            }
            assert(kv_contains(entries.drop_first(), kr) ==> kv_contains(entries, kr)) by {
                if kv_contains(entries.drop_first(), kr) {
                    let i = choose|i: int|
                        0 <= i < entries.drop_first().len() && entries.drop_first()[i].0.repr()
                            == kr;
                    assert(entries[i + 1].0.repr() == kr);
                }
            }
        }
    }
}

/// Inserts an entry in front of the first entry with a larger key.
pub open spec fn kv_insert<K: SortKey, V>(entries: Seq<(K, V)>, k: K, v: V) -> Seq<(K, V)>
    decreases entries.len(),
{
    if entries.len() == 0 {
        seq![(k, v)]
    } else if K::lt_repr(k.repr(), entries[0].0.repr()) {
        seq![(k, v)] + entries
    } else {
        seq![entries[0]] + kv_insert(entries.drop_first(), k, v)
    }
}

/// Strictly increasing key order: keys are unique and sorted.
pub open spec fn kv_sorted<K: SortKey, V>(entries: Seq<(K, V)>) -> bool {
    forall|i: int, j: int|
        0 <= i < j < entries.len() ==> K::lt_repr(entries[i].0.repr(), entries[j].0.repr())
}

proof fn lemma_kv_insert_at_position<K: SortKey, V>(entries: Seq<(K, V)>, k: K, v: V, p: int)
    requires
        0 <= p <= entries.len(),
        forall|i: int| 0 <= i < p ==> !K::lt_repr(k.repr(), entries[i].0.repr()),
        p < entries.len() ==> K::lt_repr(k.repr(), entries[p].0.repr()),
    ensures
        kv_insert(entries, k, v) == entries.take(p) + seq![(k, v)] + entries.skip(p),
    decreases entries.len(),
{
    if entries.len() == 0 {
        assert(kv_insert(entries, k, v) =~= entries.take(p) + seq![(k, v)] + entries.skip(p));
    } else if K::lt_repr(k.repr(), entries[0].0.repr()) {
        assert(p == 0);
        assert(seq![(k, v)] + entries =~= entries.take(0) + seq![(k, v)] + entries.skip(0));
    } else {
        assert(p >= 1);
        assert(forall|i: int|
            0 <= i < entries.drop_first().len() ==> entries.drop_first()[i] == entries[i + 1]);
        lemma_kv_insert_at_position(entries.drop_first(), k, v, p - 1);
        assert(seq![entries[0]] + (entries.drop_first().take(p - 1) + seq![(k, v)]
            + entries.drop_first().skip(p - 1)) =~= entries.take(p) + seq![(k, v)] + entries.skip(
            p,
        ));
    }
}


/// The ordered map's contents stand below the map in the well-founded order,
/// so views of recursive types may walk through it.
pub broadcast proof fn lemma_map_kv_decreases<K: SortKey, V>(m: OrderHashMap<K, V>)
    ensures
        #[trigger] (decreases_to!(m => m.kv_seq())),
{
    assert(decreases_to!(m => m.entries));
    assert(decreases_to!(m.entries => m.entries@));
    assert(m.kv_seq() == m.entries@);
}

/// A key-unique associative container whose read order is always the sorted
/// key order: entries are held sorted strictly by the keys' representations.
#[derive(Debug, PartialEq)]
pub struct OrderHashMap<K, V> {
    entries: Vec<(K, V)>,
}

impl<K: SortKey, V> OrderHashMap<K, V> {
    /// The entries, in their sorted order.
    pub closed spec fn kv_seq(&self) -> Seq<(K, V)> {
        self.entries@
    }

    /// Keys strictly sorted, hence unique.
    pub open spec fn wf(&self) -> bool {
        kv_sorted(self.kv_seq())
    }

    /// Whether the map holds the key.
    pub open spec fn contains_key_spec(&self, kr: K::Repr) -> bool {
        kv_contains(self.kv_seq(), kr)
    }

    /// The value bound to the key.
    pub open spec fn lookup(&self, kr: K::Repr) -> Option<V> {
        kv_lookup(self.kv_seq(), kr)
    }

    pub fn new() -> (r: OrderHashMap<K, V>)
        ensures
            r.kv_seq() == Seq::<(K, V)>::empty(),
            r.wf(),
    {
        let r = OrderHashMap { entries: Vec::new() };
        proof {
            assert(r.kv_seq() =~= Seq::<(K, V)>::empty());
        }
        r
    }

    /// The number of entries.
    pub fn len(&self) -> (r: usize)
        ensures
            r == self.kv_seq().len(),
    {
        self.entries.len()
    }

    /// Inserts a new key; a key already held is refused, naming the
    /// duplicate, and the map stays as it was.
    pub fn expect_insert(&mut self, k: K, v: V) -> (r: Result<(), ErrorProcess>)
        requires
            old(self).wf(),
        ensures
            final(self).wf(),
            match r {
                Ok(_) => !old(self).contains_key_spec(k.repr()) && final(self).kv_seq()
                    == kv_insert(old(self).kv_seq(), k, v),
                Err(e) => old(self).contains_key_spec(k.repr()) && *final(self) == *old(self) && e
                    is Message,
            },
    {
        let ghost orig = self.entries@;
        let mut i: usize = 0;
        while i < self.entries.len()
            invariant
                *self == *old(self),
                orig == old(self).kv_seq(),
                kv_sorted(orig),
                0 <= i <= orig.len(),
                forall|q: int| 0 <= q < i ==> !K::lt_repr(k.repr(), orig[q].0.repr()),
                forall|q: int| 0 <= q < i ==> orig[q].0.repr() != k.repr(),
            decreases orig.len() - i,
        {
            let e = &self.entries[i];
            if e.0.key_eq(&k) {
                let mut m = String::from_str("duplicate key ");
                m.append(k.to_text().as_str());
                proof {
                    assert(orig[i as int].0.repr() == k.repr());
                }
                return Err(ErrorProcess::Message(m));
            }
            if e.0.key_lt(&k) {
                proof {
                    K::lemma_strict_order(k.repr(), orig[i as int].0.repr(), k.repr());
                }
            } else {
                // key order settled: everything beyond is larger
                proof {
                    K::lemma_strict_order(k.repr(), orig[i as int].0.repr(), k.repr());
                    assert(K::lt_repr(k.repr(), orig[i as int].0.repr()));
                    assert forall|q: int| 0 <= q < orig.len() implies orig[q].0.repr() != k.repr()
                    by {
                        if q < i {
                        } else if q == i {
                        } else {
                            assert(kv_sorted(orig));
                            assert(K::lt_repr(orig[i as int].0.repr(), orig[q].0.repr()));
                            K::lemma_strict_order(
                                k.repr(),
                                orig[i as int].0.repr(),
                                orig[q].0.repr(),
                            );
                            K::lemma_strict_order(k.repr(), orig[q].0.repr(), k.repr());
                        }
                    }
                    lemma_kv_lookup_contains(orig, k.repr());
                    lemma_kv_insert_at_position(orig, k, v, i as int);
                }
                self.insert_at(i, k, v);
                return Ok(());
            }
            i = i + 1;
        }
        proof {
            assert forall|q: int| 0 <= q < orig.len() implies orig[q].0.repr() != k.repr() by {
            }
            lemma_kv_lookup_contains(orig, k.repr());
            lemma_kv_insert_at_position(orig, k, v, orig.len() as int);
        }
        let at = self.entries.len();
        self.insert_at(at, k, v);
        Ok(())
    }

    fn insert_at(&mut self, i: usize, k: K, v: V)
        requires
            i <= old(self).kv_seq().len(),
            kv_sorted(old(self).kv_seq()),
            forall|q: int| 0 <= q < i ==> !K::lt_repr(k.repr(), old(self).kv_seq()[q].0.repr()),
            forall|q: int| 0 <= q < i ==> old(self).kv_seq()[q].0.repr() != k.repr(),
            i < old(self).kv_seq().len() ==> K::lt_repr(
                k.repr(),
                old(self).kv_seq()[i as int].0.repr(),
            ),
        ensures
            final(self).kv_seq() == old(self).kv_seq().take(i as int) + seq![(k, v)] + old(
                self,
            ).kv_seq().skip(i as int),
            final(self).wf(),
    {
        let ghost orig = self.entries@;
        self.entries.insert(i, (k, v));
        proof {
            assert(self.entries@ =~= orig.take(i as int) + seq![(k, v)] + orig.skip(i as int));
            let r = self.entries@;
            assert forall|a: int, b: int| 0 <= a < b < r.len() implies K::lt_repr(
                r[a].0.repr(),
                r[b].0.repr(),
            ) by {
                let ii = i as int;
                if a < ii && b < ii {
                    assert(r[a] == orig[a]);
                    assert(r[b] == orig[b]);
                } else if a < ii && b == ii {
                    assert(r[a] == orig[a]);
                    assert(!K::lt_repr(k.repr(), orig[a].0.repr()));
                    assert(orig[a].0.repr() != k.repr());
                    K::lemma_strict_order(orig[a].0.repr(), k.repr(), k.repr());
                } else if a < ii && b > ii {
                    assert(r[a] == orig[a]);
                    assert(r[b] == orig[b - 1]);
                } else if a == ii && b > ii {
                    assert(r[b] == orig[b - 1]);
                    if ii < orig.len() {
                        if b - 1 == ii {
                            assert(K::lt_repr(k.repr(), orig[ii].0.repr()));
                        } else {
                            assert(K::lt_repr(orig[ii].0.repr(), orig[b - 1].0.repr()));
                            K::lemma_strict_order(
                                k.repr(),
                                orig[ii].0.repr(),
                                orig[b - 1].0.repr(),
                            );
                        }
                    }
                } else {
                    assert(r[a] == orig[a - 1]);
                    assert(r[b] == orig[b - 1]);
                }
            }
        }
    }

    /// The entry store, read-only.
    pub fn entries_ref(&self) -> (r: &Vec<(K, V)>)
        ensures
            r@ == self.kv_seq(),
    {
        &self.entries
    }

    /// The entry store, moved out.
    pub fn into_entries(self) -> (r: Vec<(K, V)>)
        ensures
            r@ == self.kv_seq(),
    {
        self.entries
    }

    /// Wraps an entry list as a map; the caller answers for the order.
    pub fn from_entries(entries: Vec<(K, V)>) -> (r: OrderHashMap<K, V>)
        ensures
            r.kv_seq() == entries@,
    {
        OrderHashMap { entries }
    }

    /// The entries in sorted key order, as references.
    pub fn get_sorted<'a>(&'a self) -> (r: Vec<(&'a K, &'a V)>)
        ensures
            r@.len() == self.kv_seq().len(),
            forall|i: int|
                0 <= i < r@.len() ==> *r@[i].0 == self.kv_seq()[i].0 && *r@[i].1
                    == self.kv_seq()[i].1,
    {
        let mut r: Vec<(&K, &V)> = Vec::new();
        let mut i: usize = 0;
        while i < self.entries.len()
            invariant
                0 <= i <= self.kv_seq().len(),
                r@.len() == i,
                forall|q: int|
                    0 <= q < i ==> *r@[q].0 == self.kv_seq()[q].0 && *r@[q].1
                        == self.kv_seq()[q].1,
            decreases self.kv_seq().len() - i,
        {
            let e = &self.entries[i];
            r.push((&e.0, &e.1));
            i = i + 1;
        }
        r
    }

    /// The value bound to a key, if the key is held.
    pub fn get<'a>(&'a self, k: &K) -> (r: Option<&'a V>)
        ensures
            match r {
                Some(v) => self.lookup(k.repr()) == Some(*v),
                None => self.lookup(k.repr()) is None,
            },
    {
        let ghost orig = self.entries@;
        let mut i: usize = 0;
        proof {
            assert(orig.skip(0) =~= orig);
        }
        while i < self.entries.len()
            invariant
                self.entries@ == orig,
                0 <= i <= orig.len(),
                kv_lookup(orig, k.repr()) == kv_lookup(orig.skip(i as int), k.repr()),
            decreases orig.len() - i,
        {
            proof {
                assert(orig.skip(i as int)[0] == orig[i as int]);
                assert(orig.skip(i as int).drop_first() =~= orig.skip(i + 1));
            }
            let e = &self.entries[i];
            if e.0.key_eq(k) {
                return Some(&e.1);
            }
            i = i + 1;
        }
        proof {
            assert(orig.skip(i as int).len() == 0);
        }
        None
    }
}

/// A split yields at least one segment.
pub proof fn lemma_split_chars_nonempty(s: Seq<char>, sep: char)
    ensures
        crate::text::split_chars(s, sep).len() > 0,
{
}

/// The text with its trailing separators removed.
pub open spec fn trim_slashes(s: Seq<char>) -> Seq<char>
    decreases s.len(),
{
    if s.len() > 0 && s.last() == '/' {
        trim_slashes(s.drop_last())
    } else {
        s
    }
}

/// The suffix after the last separator.
pub open spec fn last_seg(s: Seq<char>) -> Seq<char>
    decreases s.len(),
{
    if s.len() == 0 {
        s
    } else if s.last() == '/' {
        Seq::empty()
    } else {
        last_seg(s.drop_last()) + seq![s.last()]
    }
}

pub proof fn lemma_trim_slashes_len(s: Seq<char>)
    ensures
        trim_slashes(s).len() <= s.len(),
    decreases s.len(),
{
    if s.len() > 0 && s.last() == '/' {
        lemma_trim_slashes_len(s.drop_last());
    }
}

/// The file a path text names, as std names it: trailing separators and
/// trailing `.` components are ignored; a path whose final component is
/// `..`, or that has no component left, names no file.
pub open spec fn file_name_spec(s: Seq<char>) -> Option<Seq<char>> {
    file_name_core(trim_slashes(s))
}

/// The file named by a text without trailing separators.
pub open spec fn file_name_core(t: Seq<char>) -> Option<Seq<char>>
    decreases t.len(),
    via file_name_core_decreases
{
    if t.len() == 0 {
        None
    } else {
        let seg = last_seg(t);
        if seg == seq!['.'] {
            file_name_core(trim_slashes(t.drop_last()))
        } else if seg == seq!['.', '.'] {
            None
        } else if seg.len() == 0 {
            None
        } else {
            Some(seg)
        }
    }
}

#[via_fn]
proof fn file_name_core_decreases(t: Seq<char>) {
    if t.len() > 0 {
        lemma_trim_slashes_len(t.drop_last());
    }
}

/// Trimming stops exactly where the separators end.
proof fn lemma_trim_at(s: Seq<char>, end: int, cut: int)
    requires
        0 <= cut <= end <= s.len(),
        forall|k: int| cut <= k < end ==> s[k] == '/',
        cut == 0 || s[cut - 1] != '/',
    ensures
        trim_slashes(s.take(end)) == s.take(cut),
    decreases end - cut,
{
    if end == cut {
        if s.take(end).len() > 0 {
            assert(s.take(end).last() == s[end - 1]);
        }
    } else {
        assert(s.take(end).last() == s[end - 1]);
        assert(s.take(end).drop_last() =~= s.take(end - 1));
        lemma_trim_at(s, end - 1, cut);
    }
}

/// The last segment is the suffix after the last separator.
proof fn lemma_last_seg_at(s: Seq<char>, start: int, end: int)
    requires
        0 <= start <= end <= s.len(),
        forall|k: int| start <= k < end ==> s[k] != '/',
        start == 0 || s[start - 1] == '/',
    ensures
        last_seg(s.take(end)) == s.subrange(start, end),
    decreases end - start,
{
    if end == start {
        if s.take(end).len() == 0 {
            assert(last_seg(s.take(end)) =~= s.subrange(start, end));
        } else {
            assert(s.take(end).last() == s[end - 1]);
            assert(last_seg(s.take(end)) =~= s.subrange(start, end));
        }
    } else {
        assert(s.take(end).last() == s[end - 1]);
        assert(s.take(end).drop_last() =~= s.take(end - 1));
        lemma_last_seg_at(s, start, end - 1);
        assert(s.subrange(start, end - 1) + seq![s[end - 1]] =~= s.subrange(start, end));
    }
}

/// The file named by a path text: its final component, with trailing
/// separators and trailing `.` components ignored; a path that names no
/// file is refused, naming the path.
#[verifier::loop_isolation(false)]
pub fn get_file_name(path: &str) -> (r: Result<String, ErrorProcess>)
    ensures
        match r {
            Ok(name) => file_name_spec(path@) == Some(name@),
            Err(e) => file_name_spec(path@) is None && e is Message,
        },
{
    let len: usize = path.unicode_len();
    let mut end: usize = len;
    proof {
        assert(path@.take(len as int) =~= path@);
    }
    loop
        invariant
            0 <= end <= len,
            len == path@.len(),
            file_name_spec(path@) == file_name_core(trim_slashes(path@.take(end as int))),
        decreases end,
    {
        // drop trailing separators
        let mut cut: usize = end;
        while cut > 0 && path.get_char(cut - 1) == '/'
            invariant
                0 <= cut <= end,
                forall|k: int| cut <= k < end ==> path@[k] == '/',
            decreases cut,
        {
            cut = cut - 1;
        }
        proof {
            lemma_trim_at(path@, end as int, cut as int);
        }
        if cut == 0 {
            proof {
                assert(path@.take(0) =~= Seq::<char>::empty());
            }
            let mut m = String::from_str("no file name in path ");
            m.append(path);
            return Err(ErrorProcess::Message(m));
        }
        // find the start of the final component
        let mut start: usize = cut;
        while start > 0 && path.get_char(start - 1) != '/'
            invariant
                0 <= start <= cut,
                forall|k: int| start <= k < cut ==> path@[k] != '/',
            decreases start,
        {
            start = start - 1;
        }
        proof {
            lemma_last_seg_at(path@, start as int, cut as int);
        }
        let seg_len = cut - start;
        if seg_len == 1 && path.get_char(start) == '.' {
            proof {
                assert(path@.subrange(start as int, cut as int) =~= seq!['.']);
                assert(path@.take(cut as int).drop_last() =~= path@.take(cut - 1));
            }
            end = cut - 1;
            continue ;
        }
        if seg_len == 2 && path.get_char(start) == '.' {
            if path.get_char(start + 1) == '.' {
                proof {
                    assert(path@.subrange(start as int, cut as int) =~= seq!['.', '.']);
                }
                let mut m = String::from_str("no file name in path ");
                m.append(path);
                return Err(ErrorProcess::Message(m));
            }
        }
        let seg = path.substring_char(start, cut);
        proof {
            let sv = path@.subrange(start as int, cut as int);
            assert(sv.len() == seg_len);
            assert(sv != seq!['.'] && sv != seq!['.', '.']) by {
                if sv == seq!['.'] {
                    assert(sv.len() == 1);
                    assert(sv[0] == '.');
                    assert(sv[0] == path@[start as int]);
                }
                if sv == seq!['.', '.'] {
                    assert(sv.len() == 2);
                    assert(sv[0] == '.');
                    assert(sv[1] == '.');
                    assert(sv[0] == path@[start as int]);
                    assert(sv[1] == path@[start as int + 1]);
                }
            }
        }
        return Ok(String::from_str(seg));
    }
}

} // verus!
