use vstd::prelude::*;
use vstd::string::*;
use crate::text::chars_of;

verus! {

/// A key and its value, as character sequences.
pub type Entry = (Seq<char>, Seq<char>);

/// Lexicographic order of character sequences, by code point.
pub open spec fn key_lt(a: Seq<char>, b: Seq<char>) -> bool
    decreases a.len(),
{
    if a.len() == 0 {
        b.len() > 0
    } else if b.len() == 0 {
        false
    } else if a[0] < b[0] {
        true
    } else if a[0] == b[0] {
        key_lt(a.drop_first(), b.drop_first())
    } else {
        false
    }
}

/// The keys of `s` are strictly increasing.
pub open spec fn entries_sorted(s: Seq<Entry>) -> bool {
    forall|i: int, j: int| 0 <= i < j < s.len() ==> key_lt(s[i].0, s[j].0)
}

/// `s` with `(k, v)` put in key order, replacing an entry of key `k`.
pub open spec fn insert_sorted(s: Seq<Entry>, k: Seq<char>, v: Seq<char>) -> Seq<Entry>
    decreases s.len(),
{
    if s.len() == 0 {
        seq![(k, v)]
    } else if s[0].0 == k {
        seq![(k, v)] + s.drop_first()
    } else if key_lt(k, s[0].0) {
        seq![(k, v)] + s
    } else {
        seq![s[0]] + insert_sorted(s.drop_first(), k, v)
    }
}

/// The mapping that the entries `s` hold; an earlier entry wins.
pub open spec fn entries_map(s: Seq<Entry>) -> Map<Seq<char>, Seq<char>>
    decreases s.len(),
{
    if s.len() == 0 {
        Map::empty()
    } else {
        entries_map(s.drop_first()).insert(s[0].0, s[0].1)
    }
}

pub proof fn lemma_key_lt_irreflexive(a: Seq<char>)
    ensures
        !key_lt(a, a),
    decreases a.len(),
{
    if a.len() > 0 {
        lemma_key_lt_irreflexive(a.drop_first());
    }
}

pub proof fn lemma_key_lt_asymmetric(a: Seq<char>, b: Seq<char>)
    ensures
        !(key_lt(a, b) && key_lt(b, a)),
    decreases a.len(),
{
    if a.len() > 0 && b.len() > 0 {
        lemma_key_lt_asymmetric(a.drop_first(), b.drop_first());
    }
}

pub proof fn lemma_key_lt_transitive(a: Seq<char>, b: Seq<char>, c: Seq<char>)
    requires
        key_lt(a, b),
        key_lt(b, c),
    ensures
        key_lt(a, c),
    decreases a.len(),
{
    if a.len() > 0 && b.len() > 0 && c.len() > 0 {
        if a[0] == b[0] && b[0] == c[0] {
            lemma_key_lt_transitive(a.drop_first(), b.drop_first(), c.drop_first());
        }
    }
}

pub proof fn lemma_key_lt_total(a: Seq<char>, b: Seq<char>)
    requires
        a != b,
    ensures
        key_lt(a, b) || key_lt(b, a),
    decreases a.len(),
{
    if a.len() > 0 && b.len() > 0 && a[0] == b[0] {
        if a.drop_first() == b.drop_first() {
            assert(a =~= seq![a[0]] + a.drop_first());
            assert(b =~= seq![b[0]] + b.drop_first());
        }
        lemma_key_lt_total(a.drop_first(), b.drop_first());
    } else if a.len() == 0 && b.len() == 0 {
        assert(a =~= b);
    }
}

/// Order facts: irreflexive, asymmetric and total on distinct keys.
proof fn lemma_key_cases(a: Seq<char>, b: Seq<char>)
    ensures
        a == b ==> !key_lt(a, b),
        a != b ==> (key_lt(a, b) <==> !key_lt(b, a)),
{
    lemma_key_lt_irreflexive(a);
    lemma_key_lt_asymmetric(a, b);
    if a != b {
        lemma_key_lt_total(a, b);
    }
}

/// Putting an entry in key order changes the mapping as `insert` does.
pub proof fn lemma_insert_sorted_map(s: Seq<Entry>, k: Seq<char>, v: Seq<char>)
    ensures
        entries_map(insert_sorted(s, k, v)) == entries_map(s).insert(k, v),
    decreases s.len(),
{
    let t = insert_sorted(s, k, v);
    if s.len() == 0 {
        assert(t.drop_first().len() == 0);
        assert(entries_map(t.drop_first()) == Map::<Seq<char>, Seq<char>>::empty());
        assert(entries_map(t) =~= entries_map(s).insert(k, v));
    } else if s[0].0 == k {
        assert(t.drop_first() =~= s.drop_first());
        assert(entries_map(t) =~= entries_map(s).insert(k, v));
    } else if key_lt(k, s[0].0) {
        assert(t.drop_first() =~= s);
        assert(entries_map(t) =~= entries_map(s).insert(k, v));
    } else {
        lemma_insert_sorted_map(s.drop_first(), k, v);
        assert(t.drop_first() =~= insert_sorted(s.drop_first(), k, v));
        assert(entries_map(t) =~= entries_map(s).insert(k, v));
    }
}

/// Inserting two distinct keys gives the same entries in either order.
pub proof fn lemma_insert_sorted_commutes(
    s: Seq<Entry>,
    k1: Seq<char>,
    v1: Seq<char>,
    k2: Seq<char>,
    v2: Seq<char>,
)
    requires
        k1 != k2,
    ensures
        insert_sorted(insert_sorted(s, k1, v1), k2, v2) == insert_sorted(
            insert_sorted(s, k2, v2),
            k1,
            v1,
        ),
    decreases s.len(),
{
    lemma_key_cases(k1, k2);
    lemma_key_cases(k2, k1);
    let l1 = insert_sorted(s, k1, v1);
    let r1 = insert_sorted(s, k2, v2);
    if s.len() == 0 {
        assert(l1.drop_first() =~= seq![]);
        assert(r1.drop_first() =~= seq![]);
        let e: Seq<Entry> = seq![];
        assert(insert_sorted(e, k1, v1) == seq![(k1, v1)]);
        assert(insert_sorted(e, k2, v2) == seq![(k2, v2)]);
        if key_lt(k1, k2) {
            assert(insert_sorted(l1, k2, v2) =~= seq![(k1, v1)] + insert_sorted(e, k2, v2));
            assert(insert_sorted(r1, k1, v1) =~= seq![(k1, v1)] + r1);
        } else {
            assert(insert_sorted(r1, k1, v1) =~= seq![(k2, v2)] + insert_sorted(e, k1, v1));
            assert(insert_sorted(l1, k2, v2) =~= seq![(k2, v2)] + l1);
        }
        assert(insert_sorted(l1, k2, v2) =~= insert_sorted(r1, k1, v1));
    } else {
        let h = s[0];
        let rest = s.drop_first();
        lemma_key_cases(k1, h.0);
        lemma_key_cases(h.0, k1);
        lemma_key_cases(k2, h.0);
        lemma_key_cases(h.0, k2);
        if key_lt(k1, h.0) && key_lt(h.0, k2) {
            lemma_key_lt_transitive(k1, h.0, k2);
        }
        if key_lt(k2, h.0) && key_lt(h.0, k1) {
            lemma_key_lt_transitive(k2, h.0, k1);
        }
        if (k1 == h.0 || key_lt(k1, h.0)) && (k2 == h.0 || key_lt(k2, h.0)) {
            if k1 == h.0 {
                // k2 < k1 == h.0
                assert(l1 =~= seq![(k1, v1)] + rest);
                assert(r1 =~= seq![(k2, v2)] + s);
                assert(insert_sorted(l1, k2, v2) =~= seq![(k2, v2)] + l1);
                assert(r1.drop_first() =~= s);
                assert(insert_sorted(r1, k1, v1) =~= seq![(k2, v2)] + insert_sorted(s, k1, v1));
            } else if k2 == h.0 {
                assert(r1 =~= seq![(k2, v2)] + rest);
                assert(l1 =~= seq![(k1, v1)] + s);
                assert(insert_sorted(r1, k1, v1) =~= seq![(k1, v1)] + r1);
                assert(l1.drop_first() =~= s);
                assert(insert_sorted(l1, k2, v2) =~= seq![(k1, v1)] + insert_sorted(s, k2, v2));
            } else {
                assert(l1 =~= seq![(k1, v1)] + s);
                assert(r1 =~= seq![(k2, v2)] + s);
                assert(l1.drop_first() =~= s);
                assert(r1.drop_first() =~= s);
                if key_lt(k1, k2) {
                    assert(insert_sorted(l1, k2, v2) =~= seq![(k1, v1)] + insert_sorted(s, k2, v2));
                    assert(insert_sorted(r1, k1, v1) =~= seq![(k1, v1)] + r1);
                } else {
                    assert(insert_sorted(r1, k1, v1) =~= seq![(k2, v2)] + insert_sorted(s, k1, v1));
                    assert(insert_sorted(l1, k2, v2) =~= seq![(k2, v2)] + l1);
                }
            }
            assert(insert_sorted(l1, k2, v2) =~= insert_sorted(r1, k1, v1));
        } else if k1 == h.0 || key_lt(k1, h.0) {
            // k2 goes after h
            assert(r1 =~= seq![h] + insert_sorted(rest, k2, v2));
            assert(r1.drop_first() =~= insert_sorted(rest, k2, v2));
            if k1 == h.0 {
                assert(l1.drop_first() =~= rest);
                assert(insert_sorted(l1, k2, v2) =~= seq![(k1, v1)] + insert_sorted(rest, k2, v2));
                assert(insert_sorted(r1, k1, v1) =~= seq![(k1, v1)] + insert_sorted(rest, k2, v2));
            } else {
                assert(l1.drop_first() =~= s);
                assert(insert_sorted(l1, k2, v2) =~= seq![(k1, v1)] + insert_sorted(s, k2, v2));
                assert(insert_sorted(r1, k1, v1) =~= seq![(k1, v1)] + r1);
            }
        } else if k2 == h.0 || key_lt(k2, h.0) {
            assert(l1 =~= seq![h] + insert_sorted(rest, k1, v1));
            assert(l1.drop_first() =~= insert_sorted(rest, k1, v1));
            if k2 == h.0 {
                assert(r1.drop_first() =~= rest);
                assert(insert_sorted(r1, k1, v1) =~= seq![(k2, v2)] + insert_sorted(rest, k1, v1));
                assert(insert_sorted(l1, k2, v2) =~= seq![(k2, v2)] + insert_sorted(rest, k1, v1));
            } else {
                assert(r1.drop_first() =~= s);
                assert(insert_sorted(r1, k1, v1) =~= seq![(k2, v2)] + insert_sorted(s, k1, v1));
                assert(insert_sorted(l1, k2, v2) =~= seq![(k2, v2)] + l1);
            }
        } else {
            lemma_insert_sorted_commutes(rest, k1, v1, k2, v2);
            assert(l1 =~= seq![h] + insert_sorted(rest, k1, v1));
            assert(r1 =~= seq![h] + insert_sorted(rest, k2, v2));
            assert(l1.drop_first() =~= insert_sorted(rest, k1, v1));
            assert(r1.drop_first() =~= insert_sorted(rest, k2, v2));
            assert(insert_sorted(l1, k2, v2) =~= seq![h] + insert_sorted(
                insert_sorted(rest, k1, v1),
                k2,
                v2,
            ));
            assert(insert_sorted(r1, k1, v1) =~= seq![h] + insert_sorted(
                insert_sorted(rest, k2, v2),
                k1,
                v1,
            ));
        }
    }
}

proof fn lemma_insert_sorted_bound(s: Seq<Entry>, k: Seq<char>, v: Seq<char>, x: Seq<char>)
    requires
        key_lt(x, k),
        forall|j: int| 0 <= j < s.len() ==> key_lt(x, #[trigger] s[j].0),
    ensures
        forall|j: int|
            0 <= j < insert_sorted(s, k, v).len() ==> key_lt(x, #[trigger] insert_sorted(s, k, v)[j].0),
    decreases s.len(),
{
    let t = insert_sorted(s, k, v);
    if s.len() > 0 && s[0].0 != k && !key_lt(k, s[0].0) {
        lemma_insert_sorted_bound(s.drop_first(), k, v, x);
        assert forall|j: int| 0 <= j < t.len() implies key_lt(x, #[trigger] t[j].0) by {
            if j > 0 {
                assert(t[j] == insert_sorted(s.drop_first(), k, v)[j - 1]);
            }
        }
    } else if s.len() > 0 && s[0].0 == k {
        assert forall|j: int| 0 <= j < t.len() implies key_lt(x, #[trigger] t[j].0) by {
            if j > 0 {
                assert(t[j] == s[j]);
            }
        }
    } else if s.len() > 0 {
        assert forall|j: int| 0 <= j < t.len() implies key_lt(x, #[trigger] t[j].0) by {
            if j > 0 {
                assert(t[j] == s[j - 1]);
            }
        }
    }
}

/// Putting an entry in key order keeps the keys strictly increasing.
pub proof fn lemma_insert_sorted_sorted(s: Seq<Entry>, k: Seq<char>, v: Seq<char>)
    requires
        entries_sorted(s),
    ensures
        entries_sorted(insert_sorted(s, k, v)),
    decreases s.len(),
{
    let t = insert_sorted(s, k, v);
    if s.len() > 0 {
        let h = s[0];
        let rest = s.drop_first();
        lemma_key_cases(k, h.0);
        lemma_key_cases(h.0, k);
        assert(entries_sorted(rest)) by {
            assert forall|i: int, j: int| 0 <= i < j < rest.len() implies key_lt(
                rest[i].0,
                rest[j].0,
            ) by {
                assert(rest[i] == s[i + 1] && rest[j] == s[j + 1]);
            }
        }
        if h.0 == k {
            assert forall|i: int, j: int| 0 <= i < j < t.len() implies key_lt(t[i].0, t[j].0) by {
                assert(t[j] == s[j]);
                if i > 0 {
                    assert(t[i] == s[i]);
                }
            }
        } else if key_lt(k, h.0) {
            assert forall|i: int, j: int| 0 <= i < j < t.len() implies key_lt(t[i].0, t[j].0) by {
                assert(t[j] == s[j - 1]);
                if i > 0 {
                    assert(t[i] == s[i - 1]);
                } else if j > 1 {
                    lemma_key_lt_transitive(k, h.0, s[j - 1].0);
                }
            }
        } else {
            lemma_insert_sorted_sorted(rest, k, v);
            let u = insert_sorted(rest, k, v);
            assert forall|j: int| 0 <= j < rest.len() implies key_lt(h.0, #[trigger] rest[j].0) by {
                assert(rest[j] == s[j + 1]);
            }
            lemma_insert_sorted_bound(rest, k, v, h.0);
            assert(t == seq![h] + u);
            assert forall|i: int, j: int| 0 <= i < j < t.len() implies key_lt(t[i].0, t[j].0) by {
                assert(t[j] == u[j - 1]);
                if i > 0 {
                    assert(t[i] == u[i - 1]);
                }
            }
        }
    }
}

/// Where `i` is the first index whose key is not below `k`, putting `(k,
/// v)` in key order replaces or inserts at `i`.
proof fn lemma_insert_sorted_at(s: Seq<Entry>, k: Seq<char>, v: Seq<char>, i: int)
    requires
        0 <= i <= s.len(),
        forall|j: int| 0 <= j < i ==> key_lt(#[trigger] s[j].0, k),
        i < s.len() ==> !key_lt(s[i].0, k),
    ensures
        insert_sorted(s, k, v) == (if i < s.len() && s[i].0 == k {
            s.take(i) + seq![(k, v)] + s.skip(i + 1)
        } else {
            s.take(i) + seq![(k, v)] + s.skip(i)
        }),
    decreases i,
{
    if i == 0 {
        if s.len() > 0 {
            lemma_key_cases(k, s[0].0);
            lemma_key_cases(s[0].0, k);
        }
        assert(s.take(0) + seq![(k, v)] + s.skip(1) =~= seq![(k, v)] + s.drop_first());
        assert(s.take(0) + seq![(k, v)] + s.skip(0) =~= seq![(k, v)] + s);
    } else {
        lemma_key_cases(k, s[0].0);
        lemma_key_cases(s[0].0, k);
        let rest = s.drop_first();
        assert forall|j: int| 0 <= j < i - 1 implies key_lt(#[trigger] rest[j].0, k) by {
            assert(rest[j] == s[j + 1]);
        }
        lemma_insert_sorted_at(rest, k, v, i - 1);
        if i < s.len() && s[i].0 == k {
            assert(seq![s[0]] + (rest.take(i - 1) + seq![(k, v)] + rest.skip(i)) =~= s.take(i)
                + seq![(k, v)] + s.skip(i + 1));
        } else {
            assert(seq![s[0]] + (rest.take(i - 1) + seq![(k, v)] + rest.skip(i - 1)) =~= s.take(
                i,
            ) + seq![(k, v)] + s.skip(i));
        }
    }
}

proof fn lemma_entries_map_found(s: Seq<Entry>, k: Seq<char>, i: int)
    requires
        0 <= i < s.len(),
        s[i].0 == k,
        forall|j: int| 0 <= j < i ==> #[trigger] s[j].0 != k,
    ensures
        entries_map(s).contains_key(k),
        entries_map(s)[k] == s[i].1,
    decreases i,
{
    if i > 0 {
        let rest = s.drop_first();
        assert forall|j: int| 0 <= j < i - 1 implies #[trigger] rest[j].0 != k by {
            assert(rest[j] == s[j + 1]);
        }
        lemma_entries_map_found(rest, k, i - 1);
    }
}

proof fn lemma_entries_map_absent(s: Seq<Entry>, k: Seq<char>)
    requires
        forall|j: int| 0 <= j < s.len() ==> #[trigger] s[j].0 != k,
    ensures
        !entries_map(s).contains_key(k),
    decreases s.len(),
{
    if s.len() > 0 {
        let rest = s.drop_first();
        assert forall|j: int| 0 <= j < rest.len() implies #[trigger] rest[j].0 != k by {
            assert(rest[j] == s[j + 1]);
        }
        lemma_entries_map_absent(rest, k);
    }
}

proof fn lemma_entries_map_len(s: Seq<Entry>)
    requires
        entries_sorted(s),
    ensures
        entries_map(s).dom().finite(),
        entries_map(s).dom().len() == s.len(),
    decreases s.len(),
{
    if s.len() > 0 {
        let rest = s.drop_first();
        assert forall|i: int, j: int| 0 <= i < j < rest.len() implies key_lt(
            rest[i].0,
            rest[j].0,
        ) by {
            assert(rest[i] == s[i + 1] && rest[j] == s[j + 1]);
        }
        lemma_entries_map_len(rest);
        assert forall|j: int| 0 <= j < rest.len() implies #[trigger] rest[j].0 != s[0].0 by {
            assert(rest[j] == s[j + 1]);
            lemma_key_lt_irreflexive(s[0].0);
        }
        lemma_entries_map_absent(rest, s[0].0);
    }
}

/// A map from strings to strings, kept sorted by key, so that walking it
/// visits the keys in increasing order whatever the order of insertion.
#[derive(Debug)]
pub struct StrMap {
    entries: Vec<(String, String)>,
}

impl View for StrMap {
    type V = Map<Seq<char>, Seq<char>>;

    open spec fn view(&self) -> Map<Seq<char>, Seq<char>> {
        entries_map(self.entries_view())
    }
}

impl StrMap {
    /// The entries in key order, as character sequences.
    pub closed spec fn entries_view(&self) -> Seq<Entry> {
        self.entries@.map_values(|e: (String, String)| (e.0@, e.1@))
    }

    /// The keys are strictly increasing.
    pub open spec fn wf(&self) -> bool {
        entries_sorted(self.entries_view())
    }

    /// An empty map.
    pub fn new() -> (r: StrMap)
        ensures
            r.wf(),
            r.entries_view() == Seq::<Entry>::empty(),
            r@ == Map::<Seq<char>, Seq<char>>::empty(),
    {
        let r = StrMap { entries: Vec::new() };
        assert(r.entries_view() =~= Seq::<Entry>::empty());
        r
    }

    /// Number of entries.
    pub fn len(&self) -> (r: usize)
        requires
            self.wf(),
        ensures
            r == self@.len(),
            r == self.entries_view().len(),
    {
        proof {
            lemma_entries_map_len(self.entries_view());
        }
        self.entries.len()
    }

    /// Whether the map holds no entry.
    pub fn is_empty(&self) -> (r: bool)
        requires
            self.wf(),
        ensures
            r == (self@.len() == 0),
    {
        self.len() == 0
    }

    /// The entry at position `i` in key order.
    pub fn entry(&self, i: usize) -> (r: (&String, &String))
        requires
            i < self.entries_view().len(),
        ensures
            (r.0@, r.1@) == self.entries_view()[i as int],
    {
        let e = &self.entries[i];
        (&e.0, &e.1)
    }

    /// The value of `key`, if the map holds it.
    pub fn get(&self, key: &str) -> (r: Option<&String>)
        ensures
            match r {
                Some(v) => self@.contains_key(key@) && self@[key@] == v@,
                None => !self@.contains_key(key@),
            },
    {
        let k = String::from_str(key);
        let mut i: usize = 0;
        while i < self.entries.len()
            invariant
                i <= self.entries_view().len(),
                k@ == key@,
                forall|j: int| 0 <= j < i ==> #[trigger] self.entries_view()[j].0 != key@,
            decreases self.entries_view().len() - i,
        {
            if self.entries[i].0 == k {
                proof {
                    lemma_entries_map_found(self.entries_view(), key@, i as int);
                }
                return Some(&self.entries[i].1);
            }
            i += 1;
        }
        proof {
            lemma_entries_map_absent(self.entries_view(), key@);
        }
        None
    }

    /// Sets `key` to `value`, replacing an earlier value of `key`.
    pub fn insert(&mut self, key: String, value: String)
        requires
            old(self).wf(),
        ensures
            final(self).wf(),
            final(self).entries_view() == insert_sorted(old(self).entries_view(), key@, value@),
            final(self)@ == old(self)@.insert(key@, value@),
    {
        let ghost s = self.entries_view();
        let mut i: usize = 0;
        while i < self.entries.len() && key_less(&self.entries[i].0, &key)
            invariant
                i <= s.len(),
                s == self.entries_view(),
                forall|j: int| 0 <= j < i ==> key_lt(#[trigger] s[j].0, key@),
            decreases s.len() - i,
        {
            i += 1;
        }
        proof {
            lemma_insert_sorted_at(s, key@, value@, i as int);
            lemma_insert_sorted_sorted(s, key@, value@);
            lemma_insert_sorted_map(s, key@, value@);
        }
        if i < self.entries.len() && self.entries[i].0 == key {
            self.entries.set(i, (key, value));
            assert(self.entries_view() =~= s.take(i as int) + seq![(key@, value@)] + s.skip(
                i + 1,
            ));
        } else {
            self.entries.insert(i, (key, value));
            assert(self.entries_view() =~= s.take(i as int) + seq![(key@, value@)] + s.skip(
                i as int,
            ));
        }
    }
}

/// Whether `a` comes before `b` in code point order.
fn key_less(a: &String, b: &String) -> (r: bool)
    ensures
        r == key_lt(a@, b@),
{
    let x = chars_of(a.as_str());
    let y = chars_of(b.as_str());
    let mut i: usize = 0;
    assert(x@.skip(0) =~= x@ && y@.skip(0) =~= y@);
    while i < x.len() && i < y.len() && x[i] == y[i]
        invariant
            i <= x@.len(),
            i <= y@.len(),
            key_lt(a@, b@) == key_lt(x@.skip(i as int), y@.skip(i as int)),
            x@ == a@,
            y@ == b@,
        decreases x@.len() - i,
    {
        assert(x@.skip(i as int).drop_first() =~= x@.skip(i + 1));
        assert(y@.skip(i as int).drop_first() =~= y@.skip(i + 1));
        i += 1;
    }
    if i == x.len() {
        i < y.len()
    } else if i == y.len() {
        false
    } else {
        x[i] < y[i]
    }
}

} // verus!
