use vstd::prelude::*;

use crate::matcher::{chars_match_at, chars_of};

verus! {

/// Declares serde_json::Value, a JSON value, so that metadata can hold one;
/// it is carried through unread.
#[verifier::external_type_specification]
#[verifier::external_body]
pub struct ExValue(serde_json::Value);

/// An entry of metadata: a key, by its characters, and a JSON value.
pub type Entry = (Seq<char>, serde_json::Value);

/// `a` comes strictly before `b` in lexicographic order of characters: at the
/// first place where they differ, `a` has the smaller character, or `a` is a
/// proper prefix of `b`.
pub open spec fn key_lt(a: Seq<char>, b: Seq<char>) -> bool {
    exists|i: int| is_split_point(a, b, i)
}

/// `a` and `b` agree before `i`, and at `i` either `a` ends while `b` goes on,
/// or both go on and `a` has the smaller character.
pub open spec fn is_split_point(a: Seq<char>, b: Seq<char>, i: int) -> bool {
    &&& 0 <= i <= a.len()
    &&& i <= b.len()
    &&& a.subrange(0, i) == b.subrange(0, i)
    &&& ((i == a.len() && i < b.len()) || (i < a.len() && i < b.len() && a[i] < b[i]))
}

proof fn lemma_split_prefix(a: Seq<char>, b: Seq<char>, i: int, j: int)
    requires
        0 <= j < i,
        i <= a.len(),
        i <= b.len(),
        a.subrange(0, i) == b.subrange(0, i),
    ensures
        a[j] == b[j],
{
    let sa = a.subrange(0, i);
    let sb = b.subrange(0, i);
    assert(sa[j] == a[j]);
    assert(sb[j] == b[j]);
    assert(sa[j] == sb[j]);
}

/// No key comes before itself.
pub proof fn lemma_key_lt_irreflexive(a: Seq<char>)
    ensures
        !key_lt(a, a),
{
}

/// Two keys are never each before the other.
pub proof fn lemma_key_lt_asymmetric(a: Seq<char>, b: Seq<char>)
    ensures
        !(key_lt(a, b) && key_lt(b, a)),
{
    if key_lt(a, b) && key_lt(b, a) {
        let i = choose|i: int| is_split_point(a, b, i);
        let j = choose|j: int| is_split_point(b, a, j);
        if i < j {
            lemma_split_prefix(b, a, j, i);
        } else if j < i {
            lemma_split_prefix(a, b, i, j);
        }
    }
}

/// The order on keys is transitive.
pub proof fn lemma_key_lt_transitive(a: Seq<char>, b: Seq<char>, c: Seq<char>)
    requires
        key_lt(a, b),
        key_lt(b, c),
    ensures
        key_lt(a, c),
{
    let i = choose|i: int| is_split_point(a, b, i);
    let j = choose|j: int| is_split_point(b, c, j);
    let k = if i < j { i } else { j };
    assert forall|t: int| 0 <= t < k implies a.subrange(0, k)[t] == c.subrange(0, k)[t] by {
        lemma_split_prefix(a, b, i, t);
        lemma_split_prefix(b, c, j, t);
    }
    assert(a.subrange(0, k) =~= c.subrange(0, k));
    if i < j {
        if i < a.len() {
            lemma_split_prefix(b, c, j, i);
        }
    } else if j < i {
        lemma_split_prefix(a, b, i, j);
    }
    assert(is_split_point(a, c, k));
}

proof fn lemma_key_lt_total_from(a: Seq<char>, b: Seq<char>, i: int)
    requires
        a != b,
        0 <= i <= a.len(),
        i <= b.len(),
        a.subrange(0, i) == b.subrange(0, i),
    ensures
        key_lt(a, b) || key_lt(b, a),
    decreases a.len() - i,
{
    if i == a.len() && i == b.len() {
        assert(a =~= a.subrange(0, i));
        assert(b =~= b.subrange(0, i));
    } else if i == a.len() {
        assert(is_split_point(a, b, i));
    } else if i == b.len() {
        assert(is_split_point(b, a, i));
    } else if a[i] < b[i] {
        assert(is_split_point(a, b, i));
    } else if b[i] < a[i] {
        assert(is_split_point(b, a, i));
    } else {
        assert(a.subrange(0, i + 1) =~= a.subrange(0, i).push(a[i]));
        assert(b.subrange(0, i + 1) =~= b.subrange(0, i).push(b[i]));
        lemma_key_lt_total_from(a, b, i + 1);
    }
}

/// Two different keys are ordered one way or the other.
pub proof fn lemma_key_lt_total(a: Seq<char>, b: Seq<char>)
    requires
        a != b,
    ensures
        key_lt(a, b) || key_lt(b, a),
{
    assert(a.subrange(0, 0) =~= b.subrange(0, 0));
    lemma_key_lt_total_from(a, b, 0);
}

/// The keys of `m` strictly increase; so no key occurs twice.
pub open spec fn keys_sorted(m: Seq<Entry>) -> bool {
    forall|i: int, j: int| 0 <= i < j < m.len() ==> key_lt(m[i].0, m[j].0)
}

/// `k` is the key of the entry at `i` in `m`.
pub open spec fn has_key_at(m: Seq<Entry>, k: Seq<char>, i: int) -> bool {
    0 <= i < m.len() && m[i].0 == k
}

/// `r` is sorted and holds `(k, v)` and every entry of `m` whose key is not `k`.
pub open spec fn is_insertion(m: Seq<Entry>, k: Seq<char>, v: serde_json::Value, r: Seq<Entry>) -> bool {
    &&& keys_sorted(r)
    &&& forall|e: Entry| #[trigger] r.contains(e) <==> (e == (k, v) || (m.contains(e) && e.0 != k))
}

/// `m` with the value of `k` set to `v`, kept sorted by key.
pub open spec fn inserted(m: Seq<Entry>, k: Seq<char>, v: serde_json::Value) -> Seq<Entry> {
    choose|r: Seq<Entry>| is_insertion(m, k, v, r)
}

/// Two sorted sequences that hold the same entries are equal.
pub proof fn lemma_sorted_ext(a: Seq<Entry>, b: Seq<Entry>)
    requires
        keys_sorted(a),
        keys_sorted(b),
        forall|e: Entry| #[trigger] a.contains(e) <==> b.contains(e),
    ensures
        a == b,
    decreases a.len(),
{
    if a.len() == 0 {
        if b.len() > 0 {
            assert(b.contains(b[0]));
            assert(a.contains(b[0]) == b.contains(b[0]));
        }
        assert(a =~= b);
    } else {
        assert(a.contains(a[0]));
        assert(a.contains(a[0]) == b.contains(a[0]));
        let j = choose|j: int| 0 <= j < b.len() && b[j] == a[0];
        assert(b.contains(b[0]));
        assert(a.contains(b[0]) == b.contains(b[0]));
        let i = choose|i: int| 0 <= i < a.len() && a[i] == b[0];
        if j > 0 {
            if i > 0 {
                lemma_key_lt_asymmetric(a[0].0, a[i].0);
            } else {
                lemma_key_lt_irreflexive(b[0].0);
            }
        }
        assert(a[0] == b[0]);
        let a1 = a.drop_first();
        let b1 = b.drop_first();
        assert forall|e: Entry| #[trigger] a1.contains(e) <==> b1.contains(e) by {
            if a1.contains(e) {
                let t = choose|t: int| 0 <= t < a1.len() && a1[t] == e;
                assert(a[t + 1] == e);
                assert(key_lt(a[0].0, e.0));
                assert(a.contains(e) == b.contains(e));
                let u = choose|u: int| 0 <= u < b.len() && b[u] == e;
                if u == 0 {
                    lemma_key_lt_irreflexive(e.0);
                }
                assert(b1[u - 1] == e);
            }
            if b1.contains(e) {
                let t = choose|t: int| 0 <= t < b1.len() && b1[t] == e;
                assert(b[t + 1] == e);
                assert(key_lt(b[0].0, e.0));
                assert(a.contains(e) == b.contains(e));
                let u = choose|u: int| 0 <= u < a.len() && a[u] == e;
                if u == 0 {
                    lemma_key_lt_irreflexive(e.0);
                }
                assert(a1[u - 1] == e);
            }
        }
        lemma_sorted_ext(a1, b1);
        assert(a =~= seq![a[0]] + a1);
        assert(b =~= seq![b[0]] + b1);
    }
}

/// A sorted sequence has at most one entry with a given key.
proof fn lemma_key_at_most_once(m: Seq<Entry>, k: Seq<char>, i: int, j: int)
    requires
        keys_sorted(m),
        has_key_at(m, k, i),
        has_key_at(m, k, j),
    ensures
        i == j,
{
    if i < j {
        lemma_key_lt_irreflexive(k);
    } else if j < i {
        lemma_key_lt_irreflexive(k);
    }
}

/// Any insertion of `(k, v)` into `m` is the one `inserted` names.
pub proof fn lemma_inserted_is(m: Seq<Entry>, k: Seq<char>, v: serde_json::Value, r: Seq<Entry>)
    requires
        is_insertion(m, k, v, r),
    ensures
        inserted(m, k, v) == r,
        is_insertion(m, k, v, inserted(m, k, v)),
{
    let c = inserted(m, k, v);
    assert(is_insertion(m, k, v, c));
    assert forall|e: Entry| #[trigger] c.contains(e) <==> r.contains(e) by {
        assert(c.contains(e) <==> (e == (k, v) || (m.contains(e) && e.0 != k)));
        assert(r.contains(e) <==> (e == (k, v) || (m.contains(e) && e.0 != k)));
    }
    lemma_sorted_ext(c, r);
}

/// Setting the value of a key that `m` already holds, in place, is an insertion.
proof fn lemma_update_is_insertion(m: Seq<Entry>, k: Seq<char>, v: serde_json::Value, i: int)
    requires
        keys_sorted(m),
        has_key_at(m, k, i),
    ensures
        is_insertion(m, k, v, m.update(i, (k, v))),
{
    let r = m.update(i, (k, v));
    assert(keys_sorted(r)) by {
        assert forall|a: int, b: int| 0 <= a < b < r.len() implies key_lt(r[a].0, r[b].0) by {
            assert(r[a].0 == m[a].0 && r[b].0 == m[b].0);
        }
    }
    assert forall|e: Entry| #[trigger] r.contains(e) <==> (e == (k, v) || (m.contains(e) && e.0
        != k)) by {
        if r.contains(e) {
            let t = choose|t: int| 0 <= t < r.len() && r[t] == e;
            if t != i {
                assert(m[t] == e);
                assert(m.contains(e));
                if e.0 == k {
                    lemma_key_at_most_once(m, k, i, t);
                }
            }
        }
        if e == (k, v) {
            assert(r[i] == e);
        } else if m.contains(e) && e.0 != k {
            let t = choose|t: int| 0 <= t < m.len() && m[t] == e;
            assert(t != i);
            assert(r[t] == e);
        }
    }
}

/// Putting `(k, v)` at the place `p` where it keeps the keys sorted is an insertion.
proof fn lemma_insert_is_insertion(m: Seq<Entry>, k: Seq<char>, v: serde_json::Value, p: int)
    requires
        keys_sorted(m),
        0 <= p <= m.len(),
        forall|j: int| 0 <= j < p ==> key_lt(#[trigger] m[j].0, k),
        forall|j: int| p <= j < m.len() ==> key_lt(k, #[trigger] m[j].0),
    ensures
        is_insertion(m, k, v, m.insert(p, (k, v))),
{
    let r = m.insert(p, (k, v));
    assert(keys_sorted(r)) by {
        assert forall|a: int, b: int| 0 <= a < b < r.len() implies key_lt(r[a].0, r[b].0) by {
            if b < p {
            } else if b == p {
            } else if a < p {
                assert(r[b] == m[b - 1]);
                lemma_key_lt_transitive(m[a].0, k, m[b - 1].0);
            } else if a == p {
                assert(r[b] == m[b - 1]);
            } else {
                assert(r[a] == m[a - 1] && r[b] == m[b - 1]);
            }
        }
    }
    assert forall|e: Entry| #[trigger] r.contains(e) <==> (e == (k, v) || (m.contains(e) && e.0
        != k)) by {
        if r.contains(e) {
            let t = choose|t: int| 0 <= t < r.len() && r[t] == e;
            if t < p {
                assert(m[t] == e);
                assert(m.contains(e));
                lemma_key_lt_irreflexive(k);
            } else if t > p {
                assert(m[t - 1] == e);
                assert(m.contains(e));
                lemma_key_lt_irreflexive(k);
            }
        }
        if e == (k, v) {
            assert(r[p] == e);
        } else if m.contains(e) && e.0 != k {
            let t = choose|t: int| 0 <= t < m.len() && m[t] == e;
            if t < p {
                assert(r[t] == e);
            } else {
                assert(r[t + 1] == e);
            }
        }
    }
}

/// Every key of `m` before `p` comes before `k`, and every key from `p` on after it.
pub open spec fn is_insert_place(m: Seq<Entry>, k: Seq<char>, p: int) -> bool {
    &&& 0 <= p <= m.len()
    &&& forall|j: int| 0 <= j < p ==> key_lt(#[trigger] m[j].0, k)
    &&& forall|j: int| p <= j < m.len() ==> key_lt(k, #[trigger] m[j].0)
}

/// In sorted `m` without the key `k`, there is a place where `k` keeps the keys sorted.
proof fn lemma_insert_place(m: Seq<Entry>, k: Seq<char>)
    requires
        keys_sorted(m),
        forall|i: int| !has_key_at(m, k, i),
    ensures
        exists|p: int| is_insert_place(m, k, p),
    decreases m.len(),
{
    if m.len() == 0 {
        assert(is_insert_place(m, k, 0));
    } else {
        let n = m.len() - 1;
        let m1 = m.drop_last();
        assert forall|i: int| !has_key_at(m1, k, i) by {
            if 0 <= i < m1.len() {
                assert(m1[i] == m[i]);
                assert(!has_key_at(m, k, i));
            }
        }
        assert(keys_sorted(m1)) by {
            assert forall|a: int, b: int| 0 <= a < b < m1.len() implies key_lt(m1[a].0, m1[b].0) by {
                assert(m1[a] == m[a] && m1[b] == m[b]);
            }
        }
        lemma_insert_place(m1, k);
        let p = choose|p: int| is_insert_place(m1, k, p);
        assert(!has_key_at(m, k, n));
        lemma_key_lt_total(m[n].0, k);
        if key_lt(m[n].0, k) {
            assert forall|j: int| 0 <= j < m.len() implies key_lt(#[trigger] m[j].0, k) by {
                if j < n {
                    lemma_key_lt_transitive(m[j].0, m[n].0, k);
                }
            }
            assert(is_insert_place(m, k, m.len() as int));
        } else {
            assert forall|j: int| 0 <= j < p implies key_lt(#[trigger] m[j].0, k) by {
                assert(m1[j] == m[j]);
            }
            assert forall|j: int| p <= j < m.len() implies key_lt(k, #[trigger] m[j].0) by {
                if j < n {
                    assert(m1[j] == m[j]);
                }
            }
            assert(is_insert_place(m, k, p));
        }
    }
}

/// For sorted `m`, `inserted` is sorted and holds exactly `(k, v)` and the
/// entries of `m` with another key.
pub proof fn lemma_inserted(m: Seq<Entry>, k: Seq<char>, v: serde_json::Value)
    requires
        keys_sorted(m),
    ensures
        is_insertion(m, k, v, inserted(m, k, v)),
{
    if exists|i: int| has_key_at(m, k, i) {
        let i = choose|i: int| has_key_at(m, k, i);
        lemma_update_is_insertion(m, k, v, i);
        lemma_inserted_is(m, k, v, m.update(i, (k, v)));
    } else {
        lemma_insert_place(m, k);
        let p = choose|p: int| is_insert_place(m, k, p);
        lemma_insert_is_insertion(m, k, v, p);
        lemma_inserted_is(m, k, v, m.insert(p, (k, v)));
    }
}

/// Setting two different keys gives the same metadata in either order.
pub proof fn lemma_insert_commutes(
    m: Seq<Entry>,
    k1: Seq<char>,
    v1: serde_json::Value,
    k2: Seq<char>,
    v2: serde_json::Value,
)
    requires
        keys_sorted(m),
        k1 != k2,
    ensures
        inserted(inserted(m, k1, v1), k2, v2) == inserted(inserted(m, k2, v2), k1, v1),
{
    lemma_inserted(m, k1, v1);
    lemma_inserted(m, k2, v2);
    let a = inserted(m, k1, v1);
    let b = inserted(m, k2, v2);
    lemma_inserted(a, k2, v2);
    lemma_inserted(b, k1, v1);
    let ab = inserted(a, k2, v2);
    let ba = inserted(b, k1, v1);
    assert forall|e: Entry| #[trigger] ab.contains(e) <==> ba.contains(e) by {
        assert(ab.contains(e) <==> (e == (k2, v2) || (a.contains(e) && e.0 != k2)));
        assert(a.contains(e) <==> (e == (k1, v1) || (m.contains(e) && e.0 != k1)));
        assert(ba.contains(e) <==> (e == (k1, v1) || (b.contains(e) && e.0 != k1)));
        assert(b.contains(e) <==> (e == (k2, v2) || (m.contains(e) && e.0 != k2)));
    }
    lemma_sorted_ext(ab, ba);
}

/// Extra key/value facts about a tool's response: each key at most once, the
/// entries sorted by key, so that two metadata with the same entries are equal
/// however they were built.
#[derive(Clone, Debug, PartialEq, Eq)]
pub struct Metadata {
    entries: Vec<(String, serde_json::Value)>,
}

impl View for Metadata {
    type V = Seq<Entry>;

    closed spec fn view(&self) -> Seq<Entry> {
        self.entries@.map_values(|e: (String, serde_json::Value)| (e.0@, e.1))
    }
}

/// How `a` compares with `b`: negative when it comes first, zero when they are
/// equal, positive when it comes after.
fn compare_keys(a: &Vec<char>, b: &Vec<char>) -> (r: i8)
    ensures
        (r == 0) == (a@ == b@),
        (r < 0) == key_lt(a@, b@),
        (r > 0) == key_lt(b@, a@),
{
    proof {
        lemma_key_lt_asymmetric(a@, b@);
        lemma_key_lt_irreflexive(a@);
    }
    let mut i: usize = 0;
    assert(a@.subrange(0, 0) =~= b@.subrange(0, 0));
    while i < a.len() && i < b.len()
        invariant
            i <= a.len(),
            i <= b.len(),
            a@.subrange(0, i as int) == b@.subrange(0, i as int),
        decreases a.len() - i,
    {
        if a[i] < b[i] {
            assert(is_split_point(a@, b@, i as int));
            proof {
                lemma_key_lt_asymmetric(a@, b@);
            }
            return -1;
        }
        if b[i] < a[i] {
            assert(is_split_point(b@, a@, i as int));
            proof {
                lemma_key_lt_asymmetric(a@, b@);
            }
            return 1;
        }
        assert(a@.subrange(0, i + 1) =~= a@.subrange(0, i as int).push(a@[i as int]));
        assert(b@.subrange(0, i + 1) =~= b@.subrange(0, i as int).push(b@[i as int]));
        i = i + 1;
    }
    if a.len() == b.len() {
        assert(a@ =~= a@.subrange(0, i as int));
        assert(b@ =~= b@.subrange(0, i as int));
        0
    } else if i == a.len() {
        assert(is_split_point(a@, b@, i as int));
        -1
    } else {
        assert(is_split_point(b@, a@, i as int));
        1
    }
}

impl Metadata {
    /// The entries are sorted by key, each key at most once.
    pub open spec fn wf(&self) -> bool {
        keys_sorted(self@)
    }

    /// No entries.
    pub fn new() -> (r: Self)
        ensures
            r@ == Seq::<Entry>::empty(),
            r.wf(),
    {
        let r = Metadata { entries: Vec::new() };
        assert(r@ =~= Seq::<Entry>::empty());
        r
    }

    /// Number of entries.
    pub fn len(&self) -> (r: usize)
        ensures
            r == self@.len(),
    {
        self.entries.len()
    }

    /// Where the key `k` stands or would stand: every key before the place
    /// comes before `k`; the flag says whether the entry at the place has `k`.
    fn place_of(&self, k: &Vec<char>) -> (r: (usize, bool))
        requires
            self.wf(),
        ensures
            r.0 <= self@.len(),
            forall|j: int| 0 <= j < r.0 ==> key_lt(#[trigger] self@[j].0, k@),
            r.1 ==> has_key_at(self@, k@, r.0 as int),
            !r.1 ==> is_insert_place(self@, k@, r.0 as int),
    {
        let mut i: usize = 0;
        while i < self.entries.len()
            invariant
                keys_sorted(self@),
                i <= self@.len(),
                self@.len() == self.entries@.len(),
                forall|j: int| 0 <= j < i ==> key_lt(#[trigger] self@[j].0, k@),
            decreases self.entries.len() - i,
        {
            let name = chars_of(self.entries[i].0.as_str());
            assert(name@ == self@[i as int].0);
            let c = compare_keys(&name, k);
            if c == 0 {
                return (i, true);
            }
            if c > 0 {
                assert forall|j: int| i <= j < self@.len() implies key_lt(k@, #[trigger] self@[j].0) by {
                    if j > i {
                        lemma_key_lt_transitive(k@, self@[i as int].0, self@[j].0);
                    }
                }
                return (i, false);
            }
            i = i + 1;
        }
        (i, false)
    }

    /// Sets the value of `key` to `value`, keeping the entries sorted by key.
    pub fn insert(&mut self, key: String, value: serde_json::Value)
        requires
            old(self).wf(),
        ensures
            final(self)@ == inserted(old(self)@, key@, value),
            final(self).wf(),
    {
        let k = chars_of(key.as_str());
        let (i, found) = self.place_of(&k);
        let ghost m = self@;
        if found {
            self.entries.set(i, (key, value));
            proof {
                lemma_update_is_insertion(m, k@, value, i as int);
                assert(self@ =~= m.update(
                    i as int,
                    (k@, value),
                ));
                lemma_inserted_is(m, k@, value, m.update(i as int, (k@, value)));
            }
        } else {
            self.entries.insert(i, (key, value));
            proof {
                lemma_insert_is_insertion(m, k@, value, i as int);
                assert(self@ =~= m.insert(
                    i as int,
                    (k@, value),
                ));
                lemma_inserted_is(m, k@, value, m.insert(i as int, (k@, value)));
            }
        }
    }

    /// The value of `key`, if it is set.
    pub fn get(&self, key: &str) -> (r: Option<&serde_json::Value>)
        requires
            self.wf(),
        ensures
            match r {
                Some(v) => exists|i: int| has_key_at(self@, key@, i) && self@[i].1 == *v,
                None => forall|i: int| !has_key_at(self@, key@, i),
            },
    {
        let k = chars_of(key);
        let (i, found) = self.place_of(&k);
        if found {
            Some(&self.entries[i].1)
        } else {
            proof {
                lemma_key_lt_irreflexive(k@);
            }
            None
        }
    }

    /// The entries, sorted by key.
    pub fn entries(&self) -> (r: &Vec<(String, serde_json::Value)>)
        ensures
            r@.map_values(|e: (String, serde_json::Value)| (e.0@, e.1)) == self@,
    {
        &self.entries
    }
}

} // verus!
