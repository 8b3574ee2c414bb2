//! A map from strings to values that keeps its entries sorted by key, in the order of
//! `str`'s `Ord` (code point by code point), with each key at most once.
use vstd::prelude::*;
use crate::text::chars_of;

verus! {

/// Lexicographic order on character sequences, comparing code points; a proper prefix
/// comes first.
pub open spec fn str_lt(a: Seq<char>, b: Seq<char>) -> bool
    decreases a.len(),
{
    if a.len() == 0 {
        b.len() > 0
    } else if b.len() == 0 {
        false
    } else if a[0] != b[0] {
        (a[0] as u32) < (b[0] as u32)
    } else {
        str_lt(a.drop_first(), b.drop_first())
    }
}

/// `str_lt` is transitive.
pub proof fn lemma_str_lt_transitive(a: Seq<char>, b: Seq<char>, c: Seq<char>)
    requires
        str_lt(a, b),
        str_lt(b, c),
    ensures
        str_lt(a, c),
    decreases a.len(),
{
    if a.len() > 0 && b.len() > 0 && c.len() > 0 && a[0] == b[0] && b[0] == c[0] {
        lemma_str_lt_transitive(a.drop_first(), b.drop_first(), c.drop_first());
    }
}

/// Two sequences are equal or one is below the other, and never both below each other.
pub proof fn lemma_str_lt_trichotomy(a: Seq<char>, b: Seq<char>)
    ensures
        a == b || str_lt(a, b) || str_lt(b, a),
        !(str_lt(a, b) && str_lt(b, a)),
        !str_lt(a, a),
    decreases a.len(),
{
    if a.len() > 0 && b.len() > 0 && a[0] == b[0] {
        lemma_str_lt_trichotomy(a.drop_first(), b.drop_first());
        if a.drop_first() == b.drop_first() {
            assert(a =~= seq![a[0]] + a.drop_first());
            assert(b =~= seq![b[0]] + b.drop_first());
        }
    } else if a.len() == 0 && b.len() == 0 {
        assert(a =~= b);
    } else if a.len() > 0 && b.len() > 0 {
        vstd::utf8::char_u32_cast(a[0], a[0] as u32);
        vstd::utf8::char_u32_cast(b[0], b[0] as u32);
    }
    if a.len() > 0 {
        lemma_str_lt_trichotomy(a.drop_first(), a.drop_first());
    }
}

/// Whether `a` sorts strictly before `b`.
pub fn str_less(a: &str, b: &str) -> (r: bool)
    ensures
        r == str_lt(a@, b@),
{
    let x = chars_of(a);
    let y = chars_of(b);
    let mut i: usize = 0;
    assert(x@.skip(0) =~= x@);
    assert(y@.skip(0) =~= y@);
    while i < x.len() && i < y.len() && x[i] == y[i]
        invariant
            i <= x@.len(),
            i <= y@.len(),
            str_lt(a@, b@) == str_lt(x@.skip(i as int), y@.skip(i as int)),
            x@ == a@,
            y@ == b@,
        decreases x.len() - i,
    {
        assert(x@.skip(i as int).drop_first() =~= x@.skip(i + 1));
        assert(y@.skip(i as int).drop_first() =~= y@.skip(i + 1));
        i = i + 1;
    }
    if i == x.len() {
        i < y.len()
    } else if i == y.len() {
        false
    } else {
        assert(x@.skip(i as int)[0] == x@[i as int]);
        assert(y@.skip(i as int)[0] == y@[i as int]);
        (x[i] as u32) < (y[i] as u32)
    }
}

/// Keys strictly increasing along the sequence.
pub open spec fn keys_sorted<V>(s: Seq<(String, V)>) -> bool {
    forall|i: int, j: int| 0 <= i < j < s.len() ==> str_lt(#[trigger] s[i].0@, #[trigger] s[j].0@)
}

/// Whether `k` is the key of some entry.
pub open spec fn entries_have<V>(s: Seq<(String, V)>, k: Seq<char>) -> bool {
    exists|i: int| 0 <= i < s.len() && #[trigger] s[i].0@ == k
}

/// The value of the entry with key `k` (meaningful when there is one).
pub open spec fn entries_value<V>(s: Seq<(String, V)>, k: Seq<char>) -> V {
    s[choose|i: int| 0 <= i < s.len() && #[trigger] s[i].0@ == k].1
}

/// The map that a sorted entry list denotes.
pub open spec fn entries_map<V>(s: Seq<(String, V)>) -> Map<Seq<char>, V> {
    Map::new(|k: Seq<char>| entries_have(s, k), |k: Seq<char>| entries_value(s, k))
}

/// A string-keyed map whose entries are kept sorted by key.
#[derive(Debug, PartialEq)]
pub struct StrMap<V> {
    entries: Vec<(String, V)>,
}

impl<V> View for StrMap<V> {
    type V = Map<Seq<char>, V>;

    closed spec fn view(&self) -> Map<Seq<char>, V> {
        entries_map(self.entries@)
    }
}

/// In a sorted list, the entry at `i` is the one found for its key.
pub proof fn lemma_sorted_value<V>(s: Seq<(String, V)>, i: int)
    requires
        keys_sorted(s),
        0 <= i < s.len(),
    ensures
        entries_have(s, s[i].0@),
        entries_value(s, s[i].0@) == s[i].1,
        entries_map(s).contains_key(s[i].0@),
        entries_map(s)[s[i].0@] == s[i].1,
        forall|j: int| 0 <= j < s.len() && #[trigger] s[j].0@ == s[i].0@ ==> j == i,
{
    let k = s[i].0@;
    assert(entries_have(s, k));
    assert forall|j: int| 0 <= j < s.len() && #[trigger] s[j].0@ == k implies j == i by {
        lemma_str_lt_trichotomy(k, k);
        if j < i {
            assert(str_lt(s[j].0@, s[i].0@));
        } else if j > i {
            assert(str_lt(s[i].0@, s[j].0@));
        }
    }
}

impl<V> StrMap<V> {
    /// Entries sorted by key, each key once.
    #[verifier::type_invariant]
    spec fn wf(&self) -> bool {
        keys_sorted(self.entries@)
    }

    /// The entries in their stored (sorted) order.
    pub closed spec fn seq(&self) -> Seq<(String, V)> {
        self.entries@
    }

    /// The entries are sorted, and the map is the one they denote.
    pub fn facts(&self)
        ensures
            keys_sorted(self.seq()),
            self@ == entries_map(self.seq()),
    {
        proof {
            use_type_invariant(self);
        }
    }

    /// Every key of the map is the key of some entry.
    pub proof fn lemma_keys_listed(&self)
        ensures
            forall|k: Seq<char>| #[trigger] self@.contains_key(k) ==> exists|j: int| 0 <= j < self.seq().len()
                && #[trigger] self.seq()[j].0@ == k,
    {
        assert forall|k: Seq<char>| #[trigger] self@.contains_key(k) implies exists|j: int| 0 <= j < self.seq().len()
            && #[trigger] self.seq()[j].0@ == k by {
            assert(entries_map(self.entries@).dom().contains(k));
            assert(entries_have(self.entries@, k));
            let j = choose|j: int| 0 <= j < self.entries@.len() && #[trigger] self.entries@[j].0@ == k;
            assert(self.seq()[j].0@ == k);
        }
    }

    /// An empty map.
    pub fn new() -> (m: Self)
        ensures
            m@ == Map::<Seq<char>, V>::empty(),
            m.seq().len() == 0,
    {
        let m = StrMap { entries: Vec::new() };
        assert(m@ =~= Map::<Seq<char>, V>::empty());
        m
    }

    /// The number of entries.
    pub fn len(&self) -> (n: usize)
        ensures
            n == self.seq().len(),
    {
        self.entries.len()
    }

    /// Whether there are no entries.
    pub fn is_empty(&self) -> (b: bool)
        ensures
            b == (self.seq().len() == 0),
            b == (self@ == Map::<Seq<char>, V>::empty()),
    {
        proof {
            use_type_invariant(self);
        }
        if self.entries.len() == 0 {
            assert(self@ =~= Map::<Seq<char>, V>::empty());
            true
        } else {
            proof {
                lemma_sorted_value(self.entries@, 0);
            }
            assert(self@.contains_key(self.entries@[0].0@));
            false
        }
    }

    /// The position of `key`, or where it would be inserted.
    fn find(&self, key: &str) -> (r: (usize, bool))
        ensures
            r.0 <= self.entries@.len(),
            forall|i: int| 0 <= i < r.0 ==> str_lt(#[trigger] self.entries@[i].0@, key@),
            r.1 ==> r.0 < self.entries@.len() && self.entries@[r.0 as int].0@ == key@,
            !r.1 ==> forall|i: int|
                r.0 <= i < self.entries@.len() ==> str_lt(key@, #[trigger] self.entries@[i].0@),
    {
        proof {
            use_type_invariant(self);
        }
        let mut i: usize = 0;
        while i < self.entries.len()
            invariant
                keys_sorted(self.entries@),
                i <= self.entries@.len(),
                forall|j: int| 0 <= j < i ==> str_lt(#[trigger] self.entries@[j].0@, key@),
            decreases self.entries.len() - i,
        {
            if !str_less(self.entries[i].0.as_str(), key) {
                let eq = crate::text::str_eq(self.entries[i].0.as_str(), key);
                proof {
                    lemma_str_lt_trichotomy(self.entries@[i as int].0@, key@);
                    if !eq {
                        assert forall|j: int| i <= j < self.entries@.len() implies str_lt(
                            key@,
                            #[trigger] self.entries@[j].0@,
                        ) by {
                            if j > i {
                                assert(str_lt(self.entries@[i as int].0@, self.entries@[j].0@));
                                lemma_str_lt_transitive(
                                    key@,
                                    self.entries@[i as int].0@,
                                    self.entries@[j].0@,
                                );
                            }
                        }
                    }
                }
                return (i, eq);
            }
            i = i + 1;
        }
        (i, false)
    }

    /// Whether `key` has an entry.
    pub fn contains_key(&self, key: &str) -> (b: bool)
        ensures
            b == self@.contains_key(key@),
    {
        proof {
            use_type_invariant(self);
        }
        let (i, found) = self.find(key);
        proof {
            if found {
                lemma_sorted_value(self.entries@, i as int);
            } else if entries_have(self.entries@, key@) {
                let j = choose|j: int| 0 <= j < self.entries@.len() && #[trigger] self.entries@[j].0@ == key@;
                if j < i {
                    assert(str_lt(self.entries@[j].0@, key@));
                } else {
                    assert(str_lt(key@, self.entries@[j].0@));
                }
                lemma_str_lt_trichotomy(key@, key@);
            }
        }
        found
    }

    /// The value stored for `key`.
    pub fn get(&self, key: &str) -> (r: Option<&V>)
        ensures
            r is Some == self@.contains_key(key@),
            r matches Some(v) ==> *v == self@[key@],
    {
        proof {
            use_type_invariant(self);
        }
        let (i, found) = self.find(key);
        proof {
            if found {
                lemma_sorted_value(self.entries@, i as int);
            } else if entries_have(self.entries@, key@) {
                let j = choose|j: int| 0 <= j < self.entries@.len() && #[trigger] self.entries@[j].0@ == key@;
                if j < i {
                    assert(str_lt(self.entries@[j].0@, key@));
                } else {
                    assert(str_lt(key@, self.entries@[j].0@));
                }
                lemma_str_lt_trichotomy(key@, key@);
            }
        }
        if found {
            Some(&self.entries[i].1)
        } else {
            None
        }
    }

    /// The key of the entry at position `i` in sorted order.
    pub fn key_at(&self, i: usize) -> (k: &String)
        requires
            i < self.seq().len(),
        ensures
            *k == self.seq()[i as int].0,
    {
        &self.entries[i].0
    }

    /// The value of the entry at position `i` in sorted order.
    pub fn value_at(&self, i: usize) -> (v: &V)
        requires
            i < self.seq().len(),
        ensures
            *v == self.seq()[i as int].1,
    {
        &self.entries[i].1
    }

    /// Removes `key`, returning the value it had.
    pub fn remove(&mut self, key: &str) -> (r: Option<V>)
        ensures
            final(self)@ == old(self)@.remove(key@),
            r is Some == old(self)@.contains_key(key@),
            r matches Some(v) ==> v == old(self)@[key@],
    {
        proof {
            use_type_invariant(&*self);
        }
        let ghost old_entries = self.entries@;
        let (i, found) = self.find(key);
        if found {
            proof {
                lemma_sorted_value(old_entries, i as int);
            }
            let mut entries: Vec<(String, V)> = Vec::new();
            core::mem::swap(&mut entries, &mut self.entries);
            let (_, v) = entries.remove(i);
            self.entries = entries;
            proof {
                let s = self.entries@;
                assert(s == old_entries.remove(i as int));
                assert(keys_sorted(s)) by {
                    assert forall|a: int, b: int| 0 <= a < b < s.len() implies str_lt(
                        #[trigger] s[a].0@,
                        #[trigger] s[b].0@,
                    ) by {
                        if b < i {
                            assert(str_lt(old_entries[a].0@, old_entries[b].0@));
                        } else if a < i {
                            assert(str_lt(old_entries[a].0@, old_entries[b + 1].0@));
                        } else {
                            assert(str_lt(old_entries[a + 1].0@, old_entries[b + 1].0@));
                        }
                    }
                }
                assert forall|k: Seq<char>| #[trigger] entries_have(s, k) == (k != key@ && entries_have(old_entries, k)) by {
                    if entries_have(old_entries, k) && k != key@ {
                        let j = choose|j: int| 0 <= j < old_entries.len() && #[trigger] old_entries[j].0@ == k;
                        if j < i {
                            assert(s[j].0@ == k);
                        } else {
                            assert(j != i);
                            assert(s[j - 1].0@ == k);
                        }
                    }
                    if entries_have(s, k) {
                        let j = choose|j: int| 0 <= j < s.len() && #[trigger] s[j].0@ == k;
                        if j < i {
                            assert(old_entries[j].0@ == k);
                            assert(j != i);
                        } else {
                            assert(old_entries[j + 1].0@ == k);
                        }
                    }
                }
                assert(self@ =~= old(self)@.remove(key@)) by {
                    assert forall|k: Seq<char>| #[trigger] self@.contains_key(k) implies self@[k]
                        == old(self)@.remove(key@)[k] by {
                        let j = choose|j: int| 0 <= j < s.len() && #[trigger] s[j].0@ == k;
                        lemma_sorted_value(s, j);
                        if j < i {
                            lemma_sorted_value(old_entries, j);
                        } else {
                            lemma_sorted_value(old_entries, j + 1);
                        }
                    }
                }
            }
            Some(v)
        } else {
            proof {
                if entries_have(old_entries, key@) {
                    let j = choose|j: int| 0 <= j < old_entries.len() && #[trigger] old_entries[j].0@ == key@;
                    if j < i {
                        assert(str_lt(old_entries[j].0@, key@));
                    } else {
                        assert(str_lt(key@, old_entries[j].0@));
                    }
                    lemma_str_lt_trichotomy(key@, key@);
                }
                assert(self@ =~= old(self)@.remove(key@));
            }
            None
        }
    }

    /// Sets `key` to `value`, returning the value it replaced.
    pub fn insert(&mut self, key: String, value: V) -> (r: Option<V>)
        ensures
            final(self)@ == old(self)@.insert(key@, value),
            r is Some == old(self)@.contains_key(key@),
            r matches Some(v) ==> v == old(self)@[key@],
            (forall|j: int| 0 <= j < old(self).seq().len() ==> str_lt(#[trigger] old(self).seq()[j].0@, key@))
                ==> final(self).seq() == old(self).seq().push((key, value)),
    {
        proof {
            use_type_invariant(&*self);
        }
        let ghost old_entries = self.entries@;
        let ghost kv0 = (key, value);
        let (i, found) = self.find(key.as_str());
        let ghost all_less = forall|j: int| 0 <= j < old_entries.len() ==> str_lt(#[trigger] old_entries[j].0@, key@);
        proof {
            if all_less {
                lemma_str_lt_trichotomy(key@, key@);
                if found {
                    assert(str_lt(old_entries[i as int].0@, key@));
                }
                if !found && i < old_entries.len() {
                    assert(str_lt(old_entries[i as int].0@, key@));
                    lemma_str_lt_trichotomy(key@, old_entries[i as int].0@);
                }
            }
        }
        if found {
            proof {
                lemma_sorted_value(old_entries, i as int);
            }
            let mut entries: Vec<(String, V)> = Vec::new();
            core::mem::swap(&mut entries, &mut self.entries);
            let mut other = (key, value);
            core::mem::swap(&mut entries[i], &mut other);
            self.entries = entries;
            proof {
                let s = self.entries@;
                assert(s == old_entries.update(i as int, (s[i as int].0, value)));
                assert(s[i as int].0@ == key@);
                assert(keys_sorted(s)) by {
                    assert forall|a: int, b: int| 0 <= a < b < s.len() implies str_lt(
                        #[trigger] s[a].0@,
                        #[trigger] s[b].0@,
                    ) by {
                        assert(str_lt(old_entries[a].0@, old_entries[b].0@));
                    }
                }
                assert forall|k: Seq<char>| #[trigger] entries_have(s, k) == (k == key@ || entries_have(old_entries, k)) by {
                    if entries_have(old_entries, k) {
                        let j = choose|j: int| 0 <= j < old_entries.len() && #[trigger] old_entries[j].0@ == k;
                        assert(s[j].0@ == k);
                    }
                    if entries_have(s, k) {
                        let j = choose|j: int| 0 <= j < s.len() && #[trigger] s[j].0@ == k;
                        assert(old_entries[j].0@ == k);
                    }
                    if k == key@ {
                        assert(s[i as int].0@ == k);
                    }
                }
                assert forall|k: Seq<char>| entries_have(s, k) implies #[trigger] entries_value(s, k)
                    == old_entries.update(i as int, (key, value))[i as int].1 || true by {}
                assert(self@ =~= old(self)@.insert(key@, value)) by {
                    assert forall|k: Seq<char>| #[trigger] self@.contains_key(k) implies self@[k]
                        == old(self)@.insert(key@, value)[k] by {
                        let j = choose|j: int| 0 <= j < s.len() && #[trigger] s[j].0@ == k;
                        lemma_sorted_value(s, j);
                        if j != i {
                            assert(s[j] == old_entries[j]);
                            lemma_sorted_value(old_entries, j);
                            assert(old_entries[j].0@ != key@) by {
                                lemma_sorted_value(old_entries, i as int);
                            }
                        } else {
                            assert(s[j].1 == value);
                        }
                    }
                }
            }
            Some(other.1)
        } else {
            proof {
                if entries_have(old_entries, key@) {
                    let j = choose|j: int| 0 <= j < old_entries.len() && #[trigger] old_entries[j].0@ == key@;
                    if j < i {
                        assert(str_lt(old_entries[j].0@, key@));
                    } else {
                        assert(str_lt(key@, old_entries[j].0@));
                    }
                    lemma_str_lt_trichotomy(key@, key@);
                }
            }
            let ghost kv = key@;
            let mut entries: Vec<(String, V)> = Vec::new();
            core::mem::swap(&mut entries, &mut self.entries);
            entries.insert(i, (key, value));
            self.entries = entries;
            proof {
                let s = self.entries@;
                if all_less {
                    assert(s =~= old_entries.push(kv0));
                }
                assert(s == old_entries.insert(i as int, s[i as int]));
                assert(keys_sorted(s)) by {
                    assert forall|a: int, b: int| 0 <= a < b < s.len() implies str_lt(
                        #[trigger] s[a].0@,
                        #[trigger] s[b].0@,
                    ) by {
                        if b < i {
                            assert(str_lt(old_entries[a].0@, old_entries[b].0@));
                        } else if b == i {
                            assert(str_lt(old_entries[a].0@, kv));
                        } else if a == i {
                            assert(str_lt(kv, old_entries[b - 1].0@));
                        } else if a < i {
                            assert(str_lt(old_entries[a].0@, kv));
                            assert(str_lt(kv, old_entries[b - 1].0@));
                            lemma_str_lt_transitive(old_entries[a].0@, kv, old_entries[b - 1].0@);
                        } else {
                            assert(str_lt(old_entries[a - 1].0@, old_entries[b - 1].0@));
                        }
                    }
                }
                assert forall|k: Seq<char>| #[trigger] entries_have(s, k) == (k == kv || entries_have(old_entries, k)) by {
                    if entries_have(old_entries, k) {
                        let j = choose|j: int| 0 <= j < old_entries.len() && #[trigger] old_entries[j].0@ == k;
                        if j < i {
                            assert(s[j].0@ == k);
                        } else {
                            assert(s[j + 1].0@ == k);
                        }
                    }
                    if entries_have(s, k) {
                        let j = choose|j: int| 0 <= j < s.len() && #[trigger] s[j].0@ == k;
                        if j < i {
                            assert(old_entries[j].0@ == k);
                        } else if j > i {
                            assert(old_entries[j - 1].0@ == k);
                        }
                    }
                    if k == kv {
                        assert(s[i as int].0@ == k);
                    }
                }
                assert(self@ =~= old(self)@.insert(kv, value)) by {
                    assert forall|k: Seq<char>| #[trigger] self@.contains_key(k) implies self@[k]
                        == old(self)@.insert(kv, value)[k] by {
                        let j = choose|j: int| 0 <= j < s.len() && #[trigger] s[j].0@ == k;
                        lemma_sorted_value(s, j);
                        if j < i {
                            lemma_sorted_value(old_entries, j);
                        } else if j > i {
                            lemma_sorted_value(old_entries, j - 1);
                        }
                    }
                }
            }
            None
        }
    }
}

impl<V: DeepView> DeepView for StrMap<V> {
    type V = Seq<(Seq<char>, V::V)>;

    closed spec fn deep_view(&self) -> Seq<(Seq<char>, V::V)> {
        Seq::new(self.entries@.len(), |i: int| (self.entries@[i].0@, self.entries@[i].1.deep_view()))
    }
}

impl<V: DeepView> StrMap<V> {
    /// The deep view lists the entries in order, by the view of the key and the deep view
    /// of the value.
    pub fn deep_facts(&self)
        ensures
            self.deep_view().len() == self.seq().len(),
            forall|i: int| 0 <= i < self.seq().len() ==> #[trigger] self.deep_view()[i] == (
                self.seq()[i].0@,
                self.seq()[i].1.deep_view(),
            ),
    {
    }
}

impl<V: crate::dup::Duplicate> crate::dup::Duplicate for StrMap<V> {
    fn duplicate(&self) -> (r: Self) {
        proof {
            use_type_invariant(self);
        }
        let mut out: Vec<(String, V)> = Vec::new();
        let mut i: usize = 0;
        while i < self.entries.len()
            invariant
                keys_sorted(self.entries@),
                i <= self.entries@.len(),
                out@.len() == i,
                forall|k: int| 0 <= k < i ==> #[trigger] out@[k].0 == self.entries@[k].0
                    && out@[k].1.deep_view() == self.entries@[k].1.deep_view(),
            decreases self.entries.len() - i,
        {
            out.push((self.entries[i].0.clone(), self.entries[i].1.duplicate()));
            i = i + 1;
        }
        assert(keys_sorted(out@)) by {
            assert forall|a: int, b: int| 0 <= a < out@.len() && 0 <= b < out@.len() && a < b implies str_lt(
                #[trigger] out@[a].0@,
                #[trigger] out@[b].0@,
            ) by {
                assert(str_lt(self.entries@[a].0@, self.entries@[b].0@));
            }
        }
        let r = StrMap { entries: out };
        assert(r.deep_view() =~= self.deep_view());
        r
    }
}

impl<V: Clone> Clone for StrMap<V> {
    /// A copy with the same keys in the same order (values cloned).
    fn clone(&self) -> (r: Self)
        ensures
            r.seq().len() == self.seq().len(),
            forall|k: int| 0 <= k < self.seq().len() ==> #[trigger] r.seq()[k].0 == self.seq()[k].0,
    {
        proof {
            use_type_invariant(self);
        }
        let mut out: Vec<(String, V)> = Vec::new();
        let mut i: usize = 0;
        while i < self.entries.len()
            invariant
                keys_sorted(self.entries@),
                i <= self.entries@.len(),
                out@.len() == i,
                forall|k: int| 0 <= k < i ==> #[trigger] out@[k].0 == self.entries@[k].0,
            decreases self.entries.len() - i,
        {
            out.push((self.entries[i].0.clone(), self.entries[i].1.clone()));
            i = i + 1;
        }
        assert(keys_sorted(out@)) by {
            assert forall|a: int, b: int| 0 <= a < out@.len() && 0 <= b < out@.len() && a < b implies str_lt(
                #[trigger] out@[a].0@,
                #[trigger] out@[b].0@,
            ) by {
                assert(str_lt(self.entries@[a].0@, self.entries@[b].0@));
            }
        }
        StrMap { entries: out }
    }
}

/// A value stored in a map is smaller than the map (for termination of recursion over
/// nested maps).
pub proof fn lemma_value_decreases<V>(m: StrMap<V>, i: int)
    requires
        0 <= i < m.seq().len(),
    ensures
        decreases_to!(m => m.seq()[i].1),
{
    let e = m.entries;
    assert(decreases_to!(m => e));
    assert(decreases_to!(e => e@[i]));
    assert(decreases_to!(e@[i] => e@[i].1));
}


impl StrMap<String> {
    /// A copy with the same entries in the same order.
    pub fn clone_strings(&self) -> (r: Self)
        ensures
            r.seq() == self.seq(),
            r@ == self@,
    {
        proof {
            use_type_invariant(self);
        }
        let mut out: Vec<(String, String)> = Vec::new();
        let mut i: usize = 0;
        while i < self.entries.len()
            invariant
                keys_sorted(self.entries@),
                i <= self.entries@.len(),
                out@ == self.entries@.subrange(0, i as int),
            decreases self.entries.len() - i,
        {
            out.push((self.entries[i].0.clone(), self.entries[i].1.clone()));
            i = i + 1;
            assert(out@ =~= self.entries@.subrange(0, i as int));
        }
        assert(out@ =~= self.entries@);
        StrMap { entries: out }
    }
}

} // verus!
