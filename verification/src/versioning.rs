//! Values that differ between target game versions: a base value plus overrides that
//! apply from a given version number onwards.
use vstd::prelude::*;
use crate::dup::Duplicate;

verus! {

/// Override keys strictly increasing.
pub open spec fn mods_sorted<X>(s: Seq<(u8, X)>) -> bool {
    forall|i: int, j: int| 0 <= i < j < s.len() ==> #[trigger] s[i].0 < #[trigger] s[j].0
}

/// The value in force at version `v`: the override with the largest key not above `v`,
/// or the base when there is none.
pub open spec fn value_at<X>(base: X, s: Seq<(u8, X)>, v: u8) -> X
    decreases s.len(),
{
    if s.len() == 0 {
        base
    } else if s.last().0 <= v {
        s.last().1
    } else {
        value_at(base, s.drop_last(), v)
    }
}

/// The value in force just below version `v`: the override with the largest key below
/// `v`, or the base when there is none.
pub open spec fn value_below<X>(base: X, s: Seq<(u8, X)>, v: u8) -> X
    decreases s.len(),
{
    if s.len() == 0 {
        base
    } else if s.last().0 < v {
        s.last().1
    } else {
        value_below(base, s.drop_last(), v)
    }
}

/// Whether some override has key `v`.
pub open spec fn has_key<X>(s: Seq<(u8, X)>, v: u8) -> bool {
    exists|i: int| 0 <= i < s.len() && #[trigger] s[i].0 == v
}

/// The override with key `v` (meaningful when there is one).
pub open spec fn key_value<X>(s: Seq<(u8, X)>, v: u8) -> X {
    s[choose|i: int| 0 <= i < s.len() && #[trigger] s[i].0 == v].1
}

/// The deep view of a list of overrides.
pub open spec fn deep_mods<T: DeepView>(s: Seq<(u8, T)>) -> Seq<(u8, T::V)> {
    Seq::new(s.len(), |i: int| (s[i].0, s[i].1.deep_view()))
}

/// In a sorted list, the entry at `i` is the one found for its key.
pub proof fn lemma_key_value<X>(s: Seq<(u8, X)>, i: int)
    requires
        mods_sorted(s),
        0 <= i < s.len(),
    ensures
        has_key(s, s[i].0),
        key_value(s, s[i].0) == s[i].1,
{
    assert(has_key(s, s[i].0));
    let j = choose|j: int| 0 <= j < s.len() && #[trigger] s[j].0 == s[i].0;
    if j < i {
        assert(s[j].0 < s[i].0);
    } else if j > i {
        assert(s[i].0 < s[j].0);
    }
}

/// The deep view of overrides has the same keys.
pub proof fn lemma_deep_has_key<T: DeepView>(s: Seq<(u8, T)>)
    ensures
        forall|v: u8| #[trigger] has_key(deep_mods(s), v) == has_key(s, v),
{
    assert forall|v: u8| #[trigger] has_key(deep_mods(s), v) == has_key(s, v) by {
        if has_key(s, v) {
            let i = choose|i: int| 0 <= i < s.len() && #[trigger] s[i].0 == v;
            assert(deep_mods(s)[i].0 == v);
        }
        if has_key(deep_mods(s), v) {
            let i = choose|i: int| 0 <= i < deep_mods(s).len() && #[trigger] deep_mods(s)[i].0 == v;
            assert(s[i].0 == v);
        }
    }
}

/// The deep view of sorted overrides is sorted.
pub proof fn lemma_deep_mods_sorted<T: DeepView>(s: Seq<(u8, T)>)
    requires
        mods_sorted(s),
    ensures
        mods_sorted(deep_mods(s)),
{
    let d = deep_mods(s);
    assert forall|a: int, b: int| 0 <= a < b < d.len() implies #[trigger] d[a].0 < #[trigger] d[b].0 by {
        assert(s[a].0 < s[b].0);
    }
}

/// The value in force at `k` is that of the last override at index below `i`, when the
/// overrides below `i` have keys up to `k` and the others keys above it.
pub proof fn lemma_value_at_index<X>(b: X, m: Seq<(u8, X)>, i: int, k: u8)
    requires
        mods_sorted(m),
        0 <= i <= m.len(),
        i > 0 ==> m[i - 1].0 <= k,
        i < m.len() ==> k < m[i].0,
    ensures
        value_at(b, m, k) == if i == 0 { b } else { m[i - 1].1 },
    decreases m.len(),
{
    if m.len() > i {
        assert(m.last().0 >= m[i].0) by {
            if i < m.len() - 1 {
                assert(m[i].0 < m[m.len() - 1].0);
            }
        }
        let d = m.drop_last();
        assert(mods_sorted(d)) by {
            assert forall|a: int, c: int| 0 <= a < c < d.len() implies #[trigger] d[a].0 < #[trigger] d[c].0 by {
                assert(m[a].0 < m[c].0);
            }
        }
        lemma_value_at_index(b, d, i, k);
    }
}

/// With no override at or below `ver`, the base is in force.
pub proof fn lemma_value_at_none<X>(b: X, s: Seq<(u8, X)>, ver: u8)
    requires
        forall|i: int| 0 <= i < s.len() ==> #[trigger] s[i].0 > ver,
    ensures
        value_at(b, s, ver) == b,
    decreases s.len(),
{
    if s.len() > 0 {
        assert(s.last().0 > ver);
        lemma_value_at_none(b, s.drop_last(), ver);
    }
}

/// With no override in `(k, ver]`, the value in force at `ver` is the one at `k`.
pub proof fn lemma_value_at_gap<X>(b: X, s: Seq<(u8, X)>, k: u8, ver: u8)
    requires
        mods_sorted(s),
        k <= ver,
        forall|i: int| 0 <= i < s.len() ==> !(k < #[trigger] s[i].0 && s[i].0 <= ver),
    ensures
        value_at(b, s, ver) == value_at(b, s, k),
    decreases s.len(),
{
    if s.len() > 0 {
        let d = s.drop_last();
        assert(mods_sorted(d)) by {
            assert forall|a: int, c: int| 0 <= a < c < d.len() implies #[trigger] d[a].0 < #[trigger] d[c].0 by {
                assert(s[a].0 < s[c].0);
            }
        }
        assert(!(k < s.last().0 && s.last().0 <= ver));
        if s.last().0 > ver {
            lemma_value_at_gap(b, d, k, ver);
        }
    }
}

/// Combining two sides override by override, over the union of their overrides, combines
/// them at every version up to `ver`.
pub proof fn lemma_merged_upto<X, Y>(
    fb: X,
    f: Seq<(u8, X)>,
    sb: X,
    s: Seq<(u8, X)>,
    ob: Y,
    o: Seq<(u8, Y)>,
    mrg: spec_fn(X, Y) -> X,
    ver: u8,
)
    requires
        mods_sorted(f),
        mods_sorted(s),
        mods_sorted(o),
        fb == mrg(sb, ob),
        forall|v: u8| v <= ver ==> (#[trigger] has_key(f, v) == (has_key(s, v) || has_key(o, v))),
        forall|p: int| 0 <= p < f.len() && f[p].0 <= ver ==> #[trigger] f[p].1 == mrg(
            value_at(sb, s, f[p].0),
            value_at(ob, o, f[p].0),
        ),
    ensures
        value_at(fb, f, ver) == mrg(value_at(sb, s, ver), value_at(ob, o, ver)),
    decreases f.len(),
{
    if f.len() == 0 {
        assert forall|i: int| 0 <= i < s.len() implies #[trigger] s[i].0 > ver by {
            if s[i].0 <= ver {
                assert(has_key(s, s[i].0));
                assert(has_key(f, s[i].0));
            }
        }
        assert forall|i: int| 0 <= i < o.len() implies #[trigger] o[i].0 > ver by {
            if o[i].0 <= ver {
                assert(has_key(o, o[i].0));
                assert(has_key(f, o[i].0));
            }
        }
        lemma_value_at_none(sb, s, ver);
        lemma_value_at_none(ob, o, ver);
    } else if f.last().0 <= ver {
        let k = f.last().0;
        let n = f.len() - 1;
        assert(f[n].1 == mrg(value_at(sb, s, k), value_at(ob, o, k)));
        assert forall|i: int| 0 <= i < s.len() implies !(k < #[trigger] s[i].0 && s[i].0 <= ver) by {
            if k < s[i].0 && s[i].0 <= ver {
                assert(has_key(s, s[i].0));
                assert(has_key(f, s[i].0));
                let q = choose|q: int| 0 <= q < f.len() && #[trigger] f[q].0 == s[i].0;
                if q < n {
                    assert(f[q].0 < f[n].0);
                }
            }
        }
        assert forall|i: int| 0 <= i < o.len() implies !(k < #[trigger] o[i].0 && o[i].0 <= ver) by {
            if k < o[i].0 && o[i].0 <= ver {
                assert(has_key(o, o[i].0));
                assert(has_key(f, o[i].0));
                let q = choose|q: int| 0 <= q < f.len() && #[trigger] f[q].0 == o[i].0;
                if q < n {
                    assert(f[q].0 < f[n].0);
                }
            }
        }
        lemma_value_at_gap(sb, s, k, ver);
        lemma_value_at_gap(ob, o, k, ver);
    } else {
        let d = f.drop_last();
        assert(mods_sorted(d)) by {
            assert forall|a: int, c: int| 0 <= a < c < d.len() implies #[trigger] d[a].0 < #[trigger] d[c].0 by {
                assert(f[a].0 < f[c].0);
            }
        }
        assert forall|v: u8| v <= ver implies (#[trigger] has_key(d, v) == (has_key(s, v) || has_key(o, v))) by {
            if has_key(f, v) {
                let q = choose|q: int| 0 <= q < f.len() && #[trigger] f[q].0 == v;
                assert(q < f.len() - 1);
                assert(d[q].0 == v);
            }
            if has_key(d, v) {
                let q = choose|q: int| 0 <= q < d.len() && #[trigger] d[q].0 == v;
                assert(f[q].0 == v);
            }
        }
        assert forall|p: int| 0 <= p < d.len() && d[p].0 <= ver implies #[trigger] d[p].1 == mrg(
            value_at(sb, s, d[p].0),
            value_at(ob, o, d[p].0),
        ) by {
            assert(f[p] == d[p]);
        }
        lemma_merged_upto(fb, d, sb, s, ob, o, mrg, ver);
    }
}

/// Combining two sides override by override, over the union of their overrides (as
/// `map_with` does), combines them at every version.
pub proof fn lemma_merged_at<X, Y>(
    fb: X,
    f: Seq<(u8, X)>,
    sb: X,
    s: Seq<(u8, X)>,
    ob: Y,
    o: Seq<(u8, Y)>,
    mrg: spec_fn(X, Y) -> X,
    ver: u8,
)
    requires
        mods_sorted(f),
        mods_sorted(s),
        mods_sorted(o),
        fb == mrg(sb, ob),
        forall|v: u8| #[trigger] has_key(f, v) == (has_key(s, v) || has_key(o, v)),
        forall|v: u8| #[trigger] has_key(f, v) ==> key_value(f, v) == mrg(value_at(sb, s, v), value_at(ob, o, v)),
    ensures
        value_at(fb, f, ver) == mrg(value_at(sb, s, ver), value_at(ob, o, ver)),
{
    assert forall|p: int| 0 <= p < f.len() && f[p].0 <= ver implies #[trigger] f[p].1 == mrg(
        value_at(sb, s, f[p].0),
        value_at(ob, o, f[p].0),
    ) by {
        lemma_key_value(f, p);
    }
    lemma_merged_upto(fb, f, sb, s, ob, o, mrg, ver);
}

/// `value_below` only looks at entries below the key.
pub proof fn lemma_value_below_prefix<X>(b: X, s: Seq<(u8, X)>, p: int)
    requires
        mods_sorted(s),
        0 <= p < s.len(),
    ensures
        value_below(b, s, s[p].0) == value_below(b, s.subrange(0, p), s[p].0),
    decreases s.len(),
{
    if p < s.len() - 1 {
        assert(s[p].0 < s.last().0);
        lemma_value_below_prefix(b, s.drop_last(), p);
        assert(s.drop_last().subrange(0, p) =~= s.subrange(0, p));
    } else {
        assert(s.drop_last() =~= s.subrange(0, p));
    }
}

/// A way of combining a value with another one, with a spec of the result.
pub trait Merge<T: DeepView, O: DeepView> {
    /// The deep view of the combination.
    spec fn merged(&self, t: T::V, o: O::V) -> T::V;

    /// Combines `t` with `o`.
    fn merge(&self, t: T, o: O) -> (r: T)
        ensures
            r.deep_view() == self.merged(t.deep_view(), o.deep_view()),
    ;
}

/// A base value with per-version overrides, keyed by version number.
#[derive(Debug, PartialEq)]
pub struct Versioned<T> {
    pub base: T,
    pub mods: Vec<(u8, T)>,
}

impl<T> Versioned<T> {
    /// Overrides sorted by version, each version once.
    pub open spec fn wf(&self) -> bool {
        mods_sorted(self.mods@)
    }

    /// The value in force at `version`.
    pub open spec fn spec_get(&self, version: u8) -> T {
        value_at(self.base, self.mods@, version)
    }

    /// A value with no overrides.
    pub fn from(value: T) -> (r: Self)
        ensures
            r.wf(),
            r.base == value,
            r.mods@.len() == 0,
    {
        Versioned { base: value, mods: Vec::new() }
    }

    /// The base value.
    pub fn base(&self) -> (r: &T)
        ensures
            *r == self.base,
    {
        &self.base
    }

    /// The overrides, in increasing version order.
    pub fn versions(&self) -> (r: &Vec<(u8, T)>)
        ensures
            *r == self.mods,
    {
        &self.mods
    }

    /// The value in force at `version`: the override for the largest version not above
    /// it, or the base.
    pub fn get(&self, version: u8) -> (r: &T)
        requires
            self.wf(),
        ensures
            *r == self.spec_get(version),
    {
        let mut i: usize = self.mods.len();
        assert(self.mods@.subrange(0, i as int) =~= self.mods@);
        while i > 0
            invariant
                i <= self.mods@.len(),
                value_at(self.base, self.mods@, version) == value_at(
                    self.base,
                    self.mods@.subrange(0, i as int),
                    version,
                ),
            decreases i,
        {
            let ghost pre = self.mods@.subrange(0, i as int);
            if self.mods[i - 1].0 <= version {
                return &self.mods[i - 1].1;
            }
            assert(pre.drop_last() =~= self.mods@.subrange(0, i - 1));
            i = i - 1;
        }
        assert(self.mods@.subrange(0, 0) =~= Seq::<(u8, T)>::empty());
        &self.base
    }

    /// Sets the override for `version`, returning the one it replaced.
    pub fn add_version(&mut self, version: u8, item: T) -> (r: Option<T>)
        requires
            old(self).wf(),
        ensures
            final(self).wf(),
            final(self).base == old(self).base,
            has_key(final(self).mods@, version),
            key_value(final(self).mods@, version) == item,
            forall|v: u8| v != version ==> (has_key(final(self).mods@, v) == has_key(old(self).mods@, v)),
            forall|v: u8| v != version && has_key(old(self).mods@, v) ==> key_value(final(self).mods@, v) == key_value(old(self).mods@, v),
            r is Some == has_key(old(self).mods@, version),
            r matches Some(x) ==> x == key_value(old(self).mods@, version),
    {
        let ghost s0 = self.mods@;
        let mut i: usize = 0;
        while i < self.mods.len() && self.mods[i].0 < version
            invariant
                i <= self.mods@.len(),
                self.mods@ == s0,
                mods_sorted(s0),
                forall|k: int| 0 <= k < i ==> #[trigger] s0[k].0 < version,
            decreases self.mods.len() - i,
        {
            i = i + 1;
        }
        if i < self.mods.len() && self.mods[i].0 == version {
            proof {
                lemma_key_value(s0, i as int);
            }
            let mut other = (version, item);
            core::mem::swap(&mut self.mods[i], &mut other);
            proof {
                let s = self.mods@;
                assert(s == s0.update(i as int, (version, item)));
                assert(mods_sorted(s)) by {
                    assert forall|a: int, b: int| 0 <= a < b < s.len() implies #[trigger] s[a].0 < #[trigger] s[b].0 by {
                        assert(s0[a].0 < s0[b].0);
                    }
                }
                lemma_key_value(s, i as int);
                assert forall|v: u8| v != version implies (has_key(s, v) == has_key(s0, v)) by {
                    if has_key(s0, v) {
                        let j = choose|j: int| 0 <= j < s0.len() && #[trigger] s0[j].0 == v;
                        assert(s[j].0 == v);
                    }
                    if has_key(s, v) {
                        let j = choose|j: int| 0 <= j < s.len() && #[trigger] s[j].0 == v;
                        assert(s0[j].0 == v);
                    }
                }
                assert forall|v: u8| v != version && has_key(s0, v) implies key_value(s, v) == key_value(s0, v) by {
                    let j = choose|j: int| 0 <= j < s0.len() && #[trigger] s0[j].0 == v;
                    lemma_key_value(s0, j);
                    lemma_key_value(s, j);
                }
            }
            Some(other.1)
        } else {
            proof {
                if has_key(s0, version) {
                    let j = choose|j: int| 0 <= j < s0.len() && #[trigger] s0[j].0 == version;
                    if j >= i {
                        assert(s0[i as int].0 <= s0[j].0);
                    }
                }
            }
            self.mods.insert(i, (version, item));
            proof {
                let s = self.mods@;
                assert(s == s0.insert(i as int, (version, item)));
                assert(mods_sorted(s)) by {
                    assert forall|a: int, b: int| 0 <= a < b < s.len() implies #[trigger] s[a].0 < #[trigger] s[b].0 by {
                        if b < i {
                            assert(s0[a].0 < s0[b].0);
                        } else if a > i {
                            assert(s0[a - 1].0 < s0[b - 1].0);
                        } else if a < i && b > i {
                            assert(s0[a].0 < version);
                            assert(version <= s0[i as int].0);
                            if b - 1 > i {
                                assert(s0[i as int].0 < s0[b - 1].0);
                            }
                        } else if a == i {
                            assert(version <= s0[i as int].0);
                            if b - 1 > i {
                                assert(s0[i as int].0 < s0[b - 1].0);
                            }
                        }
                    }
                }
                lemma_key_value(s, i as int);
                assert forall|v: u8| v != version implies (has_key(s, v) == has_key(s0, v)) by {
                    if has_key(s0, v) {
                        let j = choose|j: int| 0 <= j < s0.len() && #[trigger] s0[j].0 == v;
                        if j < i {
                            assert(s[j].0 == v);
                        } else {
                            assert(s[j + 1].0 == v);
                        }
                    }
                    if has_key(s, v) {
                        let j = choose|j: int| 0 <= j < s.len() && #[trigger] s[j].0 == v;
                        if j < i {
                            assert(s0[j].0 == v);
                        } else if j > i {
                            assert(s0[j - 1].0 == v);
                        }
                    }
                }
                assert forall|v: u8| v != version && has_key(s0, v) implies key_value(s, v) == key_value(s0, v) by {
                    let j = choose|j: int| 0 <= j < s0.len() && #[trigger] s0[j].0 == v;
                    lemma_key_value(s0, j);
                    if j < i {
                        lemma_key_value(s, j);
                    } else {
                        lemma_key_value(s, j + 1);
                    }
                }
            }
            None
        }
    }
}

/// `r` is `src` with `func` applied to the base and to every override, keeping the versions.
pub open spec fn mapped<T, O, F: Fn(T) -> O>(src: Versioned<T>, func: F, r: Versioned<O>) -> bool {
    &&& call_ensures(func, (src.base,), r.base)
    &&& r.mods@.len() == src.mods@.len()
    &&& forall|i: int| 0 <= i < r.mods@.len() ==> #[trigger] r.mods@[i].0 == src.mods@[i].0 && call_ensures(
        func,
        (src.mods@[i].1,),
        r.mods@[i].1,
    )
}

/// `r` is `src` with `func` applied to a reference to the base and to every override.
pub open spec fn mapped_by_ref<T, O, F: Fn(&T) -> O>(src: Versioned<T>, func: F, r: Versioned<O>) -> bool {
    &&& call_ensures(func, (&src.base,), r.base)
    &&& r.mods@.len() == src.mods@.len()
    &&& forall|i: int| 0 <= i < r.mods@.len() ==> #[trigger] r.mods@[i].0 == src.mods@[i].0 && call_ensures(
        func,
        (&src.mods@[i].1,),
        r.mods@[i].1,
    )
}

impl<T> Versioned<T> {
    /// Applies `func` to the base and to every override.
    pub fn map<O, F: Fn(T) -> O>(self, func: F) -> (r: Versioned<O>)
        requires
            self.wf(),
            forall|t: T| #[trigger] call_requires(func, (t,)),
        ensures
            r.wf(),
            mapped(self, func, r),
    {
        let ghost s0 = self.mods@;
        let Versioned { base, mut mods } = self;
        let new_base = func(base);
        let mut out: Vec<(u8, O)> = Vec::new();
        while mods.len() > 0
            invariant
                forall|t: T| #[trigger] call_requires(func, (t,)),
                out@.len() + mods@.len() == s0.len(),
                mods@ == s0.subrange(out@.len() as int, s0.len() as int),
                forall|i: int| 0 <= i < out@.len() ==> #[trigger] out@[i].0 == s0[i].0
                    && call_ensures(func, (s0[i].1,), out@[i].1),
            decreases mods.len(),
        {
            let (k, v) = mods.remove(0);
            let w = func(v);
            out.push((k, w));
            assert(mods@ =~= s0.subrange(out@.len() as int, s0.len() as int));
        }
        let r = Versioned { base: new_base, mods: out };
        assert(mods_sorted(r.mods@)) by {
            assert forall|a: int, b: int| 0 <= a < b < r.mods@.len() implies #[trigger] r.mods@[a].0
                < #[trigger] r.mods@[b].0 by {
                assert(s0[a].0 < s0[b].0);
            }
        }
        r
    }

    /// Applies `func` to references to the base and to every override.
    pub fn map_ref<O, F: Fn(&T) -> O>(&self, func: F) -> (r: Versioned<O>)
        requires
            self.wf(),
            forall|t: &T| #[trigger] call_requires(func, (t,)),
        ensures
            r.wf(),
            mapped_by_ref(*self, func, r),
    {
        let new_base = func(&self.base);
        let mut out: Vec<(u8, O)> = Vec::new();
        let mut i: usize = 0;
        while i < self.mods.len()
            invariant
                forall|t: &T| #[trigger] call_requires(func, (t,)),
                i <= self.mods@.len(),
                out@.len() == i,
                forall|j: int| 0 <= j < i ==> #[trigger] out@[j].0 == self.mods@[j].0
                    && call_ensures(func, (&self.mods@[j].1,), out@[j].1),
            decreases self.mods.len() - i,
        {
            let ghost out0 = out@;
            let w = func(&self.mods[i].1);
            out.push((self.mods[i].0, w));
            assert(forall|j: int| 0 <= j < i ==> out@[j] == out0[j]);
            i = i + 1;
        }
        let r = Versioned { base: new_base, mods: out };
        assert(mods_sorted(r.mods@)) by {
            assert forall|a: int, b: int| 0 <= a < b < r.mods@.len() implies #[trigger] r.mods@[a].0
                < #[trigger] r.mods@[b].0 by {
                assert(self.mods@[a].0 < self.mods@[b].0);
            }
        }
        r
    }

    /// Wraps the base and every override in a one-element vector.
    pub fn into_vec(self) -> (r: Versioned<Vec<T>>)
        requires
            self.wf(),
        ensures
            r.wf(),
            r.base@ == seq![self.base],
            r.mods@.len() == self.mods@.len(),
            forall|i: int| 0 <= i < r.mods@.len() ==> #[trigger] r.mods@[i].0 == self.mods@[i].0
                && r.mods@[i].1@ == seq![self.mods@[i].1],
    {
        let ghost s0 = self.mods@;
        let Versioned { base, mut mods } = self;
        let mut new_base: Vec<T> = Vec::new();
        new_base.push(base);
        let mut out: Vec<(u8, Vec<T>)> = Vec::new();
        while mods.len() > 0
            invariant
                out@.len() + mods@.len() == s0.len(),
                mods@ == s0.subrange(out@.len() as int, s0.len() as int),
                forall|i: int| 0 <= i < out@.len() ==> #[trigger] out@[i].0 == s0[i].0
                    && out@[i].1@ == seq![s0[i].1],
            decreases mods.len(),
        {
            let (k, v) = mods.remove(0);
            let mut w: Vec<T> = Vec::new();
            w.push(v);
            out.push((k, w));
            assert(mods@ =~= s0.subrange(out@.len() as int, s0.len() as int));
        }
        let r = Versioned { base: new_base, mods: out };
        assert(r.base@ =~= seq![self.base]);
        assert(mods_sorted(r.mods@)) by {
            assert forall|a: int, b: int| 0 <= a < b < r.mods@.len() implies #[trigger] r.mods@[a].0
                < #[trigger] r.mods@[b].0 by {
                assert(s0[a].0 < s0[b].0);
            }
        }
        r
    }
}

impl<A, B> Versioned<(A, B)> {
    /// Splits a versioned pair into a pair of versioned values.
    pub fn unzip(self) -> (r: (Versioned<A>, Versioned<B>))
        requires
            self.wf(),
        ensures
            r.0.wf(),
            r.1.wf(),
            r.0.base == self.base.0,
            r.1.base == self.base.1,
            r.0.mods@.len() == self.mods@.len(),
            r.1.mods@.len() == self.mods@.len(),
            forall|i: int| 0 <= i < self.mods@.len() ==> #[trigger] r.0.mods@[i] == (self.mods@[i].0, self.mods@[i].1.0)
                && r.1.mods@[i] == (self.mods@[i].0, self.mods@[i].1.1),
    {
        let ghost s0 = self.mods@;
        let Versioned { base, mut mods } = self;
        let (a0, b0) = base;
        let mut out_a: Vec<(u8, A)> = Vec::new();
        let mut out_b: Vec<(u8, B)> = Vec::new();
        while mods.len() > 0
            invariant
                out_a@.len() == out_b@.len(),
                out_a@.len() + mods@.len() == s0.len(),
                mods@ == s0.subrange(out_a@.len() as int, s0.len() as int),
                forall|i: int| 0 <= i < out_a@.len() ==> #[trigger] out_a@[i] == (s0[i].0, s0[i].1.0)
                    && out_b@[i] == (s0[i].0, s0[i].1.1),
            decreases mods.len(),
        {
            let (k, (a, b)) = mods.remove(0);
            out_a.push((k, a));
            out_b.push((k, b));
            assert(mods@ =~= s0.subrange(out_a@.len() as int, s0.len() as int));
        }
        let ra = Versioned { base: a0, mods: out_a };
        let rb = Versioned { base: b0, mods: out_b };
        assert(mods_sorted(ra.mods@)) by {
            assert forall|a: int, b: int| 0 <= a < b < ra.mods@.len() implies #[trigger] ra.mods@[a].0
                < #[trigger] ra.mods@[b].0 by {
                assert(s0[a].0 < s0[b].0);
            }
        }
        assert(mods_sorted(rb.mods@)) by {
            assert forall|a: int, b: int| 0 <= a < b < rb.mods@.len() implies #[trigger] rb.mods@[a].0
                < #[trigger] rb.mods@[b].0 by {
                assert(s0[a].0 < s0[b].0);
                assert(ra.mods@[a].0 == rb.mods@[a].0);
                assert(ra.mods@[b].0 == rb.mods@[b].0);
            }
        }
        (ra, rb)
    }
}

impl<T: Duplicate> Versioned<T> {
    /// The deep view of the base value.
    pub open spec fn base_v(&self) -> T::V {
        self.base.deep_view()
    }

    /// The deep view of the overrides.
    pub open spec fn mods_v(&self) -> Seq<(u8, T::V)> {
        deep_mods(self.mods@)
    }

    /// Combines every version of `self` with the same version of `other`.
    ///
    /// The result overrides every version that either side overrides; at each of them it
    /// holds the value `self` has in force there combined with the value `other` has in
    /// force there. The bases are combined too. So at every version the result is the
    /// combination of the two sides' values at that version (see `lemma_merged_at`).
    pub fn map_with<O: Duplicate, M: Merge<T, O>>(&mut self, merger: &M, other: Versioned<O>)
        requires
            old(self).wf(),
            other.wf(),
        ensures
            final(self).wf(),
            final(self).base_v() == merger.merged(old(self).base_v(), other.base_v()),
            forall|v: u8| #[trigger] has_key(final(self).mods@, v) == (has_key(old(self).mods@, v)
                || has_key(other.mods@, v)),
            forall|v: u8| #[trigger] has_key(final(self).mods@, v) ==> key_value(final(self).mods_v(), v)
                == merger.merged(
                    value_at(old(self).base_v(), old(self).mods_v(), v),
                    value_at(other.base_v(), other.mods_v(), v),
                ),
    {
        let ghost s = self.mods@;
        let ghost o = other.mods@;
        let ghost sb = self.base.deep_view();
        let ghost ob = other.base.deep_view();
        proof {
            lemma_deep_mods_sorted(s);
            lemma_deep_mods_sorted(o);
        }
        let ls = self.mods.len();
        let lo = other.mods.len();
        let mut out: Vec<(u8, T)> = Vec::new();
        let mut i: usize = 0;
        let mut j: usize = 0;
        while i < ls || j < lo
            invariant
                self.mods@ == s,
                other.mods@ == o,
                self.base.deep_view() == sb,
                other.base.deep_view() == ob,
                ls == s.len(),
                lo == o.len(),
                mods_sorted(s),
                mods_sorted(o),
                mods_sorted(deep_mods(s)),
                mods_sorted(deep_mods(o)),
                i <= ls,
                j <= lo,
                mods_sorted(out@),
                forall|p: int| 0 <= p < out@.len() ==> (i < ls ==> #[trigger] out@[p].0 < s[i as int].0),
                forall|p: int| 0 <= p < out@.len() ==> (j < lo ==> #[trigger] out@[p].0 < o[j as int].0),
                forall|a: int| 0 <= a < i ==> has_key(out@, #[trigger] s[a].0),
                forall|a: int| 0 <= a < j ==> has_key(out@, #[trigger] o[a].0),
                forall|p: int| 0 <= p < out@.len() ==> (has_key(s, #[trigger] out@[p].0) || has_key(o, out@[p].0)),
                forall|p: int| 0 <= p < out@.len() ==> #[trigger] out@[p].1.deep_view() == merger.merged(
                    value_at(sb, deep_mods(s), out@[p].0),
                    value_at(ob, deep_mods(o), out@[p].0),
                ),
            decreases (ls - i) + (lo - j),
        {
            let ghost out0 = out@;
            let take_s = i < ls && (j >= lo || self.mods[i].0 <= other.mods[j].0);
            let take_o = j < lo && (i >= ls || other.mods[j].0 <= self.mods[i].0);
            let k = if take_s { self.mods[i].0 } else { other.mods[j].0 };
            proof {
                if i > 0 {
                    assert(has_key(out0, s[i - 1].0));
                    let q = choose|q: int| 0 <= q < out0.len() && #[trigger] out0[q].0 == s[i - 1].0;
                }
                if j > 0 {
                    assert(has_key(out0, o[j - 1].0));
                    let q = choose|q: int| 0 <= q < out0.len() && #[trigger] out0[q].0 == o[j - 1].0;
                }
            }
            let sv = if take_s {
                self.mods[i].1.duplicate()
            } else if i > 0 {
                self.mods[i - 1].1.duplicate()
            } else {
                self.base.duplicate()
            };
            let ov = if take_o {
                other.mods[j].1.duplicate()
            } else if j > 0 {
                other.mods[j - 1].1.duplicate()
            } else {
                other.base.duplicate()
            };
            proof {
                let ni: int = if take_s { i + 1 } else { i as int };
                let nj: int = if take_o { j + 1 } else { j as int };
                lemma_value_at_index(sb, deep_mods(s), ni, k);
                lemma_value_at_index(ob, deep_mods(o), nj, k);
            }
            let merged = merger.merge(sv, ov);
            out.push((k, merged));
            if take_s {
                i = i + 1;
            }
            if take_o {
                j = j + 1;
            }
            proof {
                let n = out@;
                assert(n == out0.push(n.last()));
                assert(mods_sorted(n)) by {
                    assert forall|a: int, b: int| 0 <= a < b < n.len() implies #[trigger] n[a].0 < #[trigger] n[b].0 by {
                        if b < out0.len() {
                            assert(out0[a].0 < out0[b].0);
                        }
                    }
                }
                assert forall|a: int| 0 <= a < i implies has_key(n, #[trigger] s[a].0) by {
                    if a < i - 1 || !take_s {
                        let q = choose|q: int| 0 <= q < out0.len() && #[trigger] out0[q].0 == s[a].0;
                        assert(n[q].0 == s[a].0);
                    } else {
                        assert(n[out0.len() as int].0 == s[a].0);
                    }
                }
                assert forall|a: int| 0 <= a < j implies has_key(n, #[trigger] o[a].0) by {
                    if a < j - 1 || !take_o {
                        let q = choose|q: int| 0 <= q < out0.len() && #[trigger] out0[q].0 == o[a].0;
                        assert(n[q].0 == o[a].0);
                    } else {
                        assert(n[out0.len() as int].0 == o[a].0);
                    }
                }
                assert forall|p: int| 0 <= p < n.len() implies (has_key(s, #[trigger] n[p].0) || has_key(o, n[p].0)) by {
                    if p == out0.len() {
                        if take_s {
                            assert(s[i - 1].0 == n[p].0);
                        } else {
                            assert(o[j - 1].0 == n[p].0);
                        }
                    }
                }
                assert forall|p: int| 0 <= p < n.len() implies (i < ls ==> #[trigger] n[p].0 < s[i as int].0) by {
                    if p == out0.len() && i < ls {
                        if take_s {
                            assert(s[i - 1].0 < s[i as int].0);
                        }
                    }
                }
                assert forall|p: int| 0 <= p < n.len() implies (j < lo ==> #[trigger] n[p].0 < o[j as int].0) by {
                    if p == out0.len() && j < lo {
                        if take_o {
                            assert(o[j - 1].0 < o[j as int].0);
                        }
                    }
                }
            }
        }
        let new_base = merger.merge(self.base.duplicate(), other.base.duplicate());
        self.base = new_base;
        let ghost fin = out@;
        self.mods = out;
        proof {
            let fv = deep_mods(fin);
            assert(mods_sorted(fv));
            assert forall|v: u8| #[trigger] has_key(fin, v) == (has_key(s, v) || has_key(o, v)) by {
                if has_key(s, v) {
                    let a = choose|a: int| 0 <= a < s.len() && #[trigger] s[a].0 == v;
                }
                if has_key(o, v) {
                    let a = choose|a: int| 0 <= a < o.len() && #[trigger] o[a].0 == v;
                }
                if has_key(fin, v) {
                    let p = choose|p: int| 0 <= p < fin.len() && #[trigger] fin[p].0 == v;
                }
            }
            assert forall|v: u8| #[trigger] has_key(fin, v) implies key_value(fv, v) == merger.merged(
                value_at(sb, deep_mods(s), v),
                value_at(ob, deep_mods(o), v),
            ) by {
                let p = choose|p: int| 0 <= p < fin.len() && #[trigger] fin[p].0 == v;
                lemma_key_value(fv, p);
            }
        }
    }
}

/// Appends the second string to the first.
pub struct PushStr;

impl Merge<String, String> for PushStr {
    open spec fn merged(&self, t: Seq<char>, o: Seq<char>) -> Seq<char> {
        t + o
    }

    fn merge(&self, t: String, o: String) -> (r: String) {
        let mut t = t;
        t.append(o.as_str());
        t
    }
}

/// Appends the second vector to the first.
pub struct Extend;

impl<T: Duplicate> Merge<Vec<T>, Vec<T>> for Extend {
    open spec fn merged(&self, t: Seq<T::V>, o: Seq<T::V>) -> Seq<T::V> {
        t + o
    }

    fn merge(&self, t: Vec<T>, o: Vec<T>) -> (r: Vec<T>) {
        let mut t = t;
        let mut o = o;
        let ghost t0 = t.deep_view();
        let ghost o0 = o.deep_view();
        t.append(&mut o);
        assert(t.deep_view() =~= t0 + o0);
        t
    }
}

/// Appends one element to a vector.
pub struct ExtendOne;

impl<T: Duplicate> Merge<Vec<T>, T> for ExtendOne {
    open spec fn merged(&self, t: Seq<T::V>, o: T::V) -> Seq<T::V> {
        t.push(o)
    }

    fn merge(&self, t: Vec<T>, o: T) -> (r: Vec<T>) {
        let mut t = t;
        let ghost t0 = t.deep_view();
        t.push(o);
        assert(t.deep_view() =~= t0.push(o.deep_view()));
        t
    }
}

/// Puts the second vector in front of the first.
pub struct Prepend;

impl<T: Duplicate> Merge<Vec<T>, Vec<T>> for Prepend {
    open spec fn merged(&self, t: Seq<T::V>, o: Seq<T::V>) -> Seq<T::V> {
        o + t
    }

    fn merge(&self, t: Vec<T>, o: Vec<T>) -> (r: Vec<T>) {
        let mut t = t;
        let mut o = o;
        let ghost t0 = t.deep_view();
        let ghost o0 = o.deep_view();
        o.append(&mut t);
        assert(o.deep_view() =~= o0 + t0);
        o
    }
}

impl<T> Default for Versioned<Vec<T>> {
    fn default() -> (r: Self)
        ensures
            r.wf(),
            r.base@.len() == 0,
            r.mods@.len() == 0,
    {
        Versioned { base: Vec::new(), mods: Vec::new() }
    }
}

impl Default for Versioned<String> {
    fn default() -> (r: Self)
        ensures
            r.wf(),
            r.base@.len() == 0,
            r.mods@.len() == 0,
    {
        Versioned { base: String::new(), mods: Vec::new() }
    }
}

impl<T: Duplicate> Versioned<Vec<T>> {
    /// Appends every version of `other` to the same version of `self` (see `map_with`).
    pub fn extend(&mut self, other: Versioned<Vec<T>>)
        requires
            old(self).wf(),
            other.wf(),
        ensures
            final(self).wf(),
            final(self).base_v() == old(self).base_v() + other.base_v(),
            forall|v: u8| #[trigger] has_key(final(self).mods@, v) == (has_key(old(self).mods@, v)
                || has_key(other.mods@, v)),
            forall|v: u8| #[trigger] has_key(final(self).mods@, v) ==> key_value(final(self).mods_v(), v) == value_at(
                old(self).base_v(),
                old(self).mods_v(),
                v,
            ) + value_at(other.base_v(), other.mods_v(), v),
            forall|v: u8| #[trigger] value_at(final(self).base_v(), final(self).mods_v(), v) == value_at(
                old(self).base_v(),
                old(self).mods_v(),
                v,
            ) + value_at(other.base_v(), other.mods_v(), v),
    {
        let ghost sb = self.base_v();
        let ghost sm = self.mods_v();
        let ghost ob = other.base_v();
        let ghost om = other.mods_v();
        proof {
            lemma_deep_mods_sorted(self.mods@);
            lemma_deep_mods_sorted(other.mods@);
        }
        self.map_with(&Extend, other);
        proof {
            lemma_deep_mods_sorted(self.mods@);
            lemma_deep_has_key(self.mods@);
            lemma_deep_has_key(old(self).mods@);
            lemma_deep_has_key(other.mods@);
            assert forall|v: u8| #[trigger] value_at(self.base_v(), self.mods_v(), v) == value_at(sb, sm, v) + value_at(ob, om, v) by {
                lemma_merged_at(self.base_v(), self.mods_v(), sb, sm, ob, om, |a: Seq<T::V>, b: Seq<T::V>| a + b, v);
            }
        }
    }

    /// Appends every version of `other` as one element to the same version of `self`
    /// (see `map_with`).
    pub fn push(&mut self, other: Versioned<T>)
        requires
            old(self).wf(),
            other.wf(),
        ensures
            final(self).wf(),
            final(self).base_v() == old(self).base_v().push(other.base_v()),
            forall|v: u8| #[trigger] has_key(final(self).mods@, v) == (has_key(old(self).mods@, v)
                || has_key(other.mods@, v)),
            forall|v: u8| #[trigger] has_key(final(self).mods@, v) ==> key_value(final(self).mods_v(), v) == value_at(
                old(self).base_v(),
                old(self).mods_v(),
                v,
            ).push(value_at(other.base_v(), other.mods_v(), v)),
    {
        self.map_with(&ExtendOne, other);
    }

    /// Whether the base version holds no elements.
    pub fn is_empty(&self) -> (b: bool)
        ensures
            b == (self.base@.len() == 0),
    {
        self.base.len() == 0
    }
}

impl Versioned<String> {
    /// Appends `ch` to every version.
    pub fn push(&mut self, ch: char)
        requires
            old(self).wf(),
        ensures
            final(self).wf(),
            final(self).base@ == old(self).base@.push(ch),
            final(self).mods@.len() == old(self).mods@.len(),
            forall|i: int| 0 <= i < final(self).mods@.len() ==> #[trigger] final(self).mods@[i].0
                == old(self).mods@[i].0 && final(self).mods@[i].1@ == old(self).mods@[i].1@.push(ch),
    {
        let mut tmp = String::new();
        tmp.push(ch);
        assert(tmp@ =~= seq![ch]);
        self.push_str(tmp.as_str());
        assert forall|i: int| 0 <= i < self.mods@.len() implies #[trigger] self.mods@[i].1@ == old(self).mods@[i].1@.push(ch) by {
            assert(self.mods@[i].0 == old(self).mods@[i].0);
            assert(old(self).mods@[i].1@ + tmp@ =~= old(self).mods@[i].1@.push(ch));
        }
        assert(old(self).base@ + tmp@ =~= old(self).base@.push(ch));
    }

    /// Appends `string` to every version.
    pub fn push_str(&mut self, string: &str)
        requires
            old(self).wf(),
        ensures
            final(self).wf(),
            final(self).base@ == old(self).base@ + string@,
            final(self).mods@.len() == old(self).mods@.len(),
            forall|i: int| 0 <= i < final(self).mods@.len() ==> #[trigger] final(self).mods@[i].0
                == old(self).mods@[i].0 && final(self).mods@[i].1@ == old(self).mods@[i].1@ + string@,
    {
        let ghost s0 = self.mods@;
        self.base.append(string);
        let ghost b1 = self.base@;
        let mut i: usize = 0;
        while i < self.mods.len()
            invariant
                self.base@ == b1,
                i <= self.mods@.len(),
                self.mods@.len() == s0.len(),
                mods_sorted(s0),
                forall|k: int| 0 <= k < s0.len() ==> #[trigger] self.mods@[k].0 == s0[k].0,
                forall|k: int| 0 <= k < i ==> #[trigger] self.mods@[k].1@ == s0[k].1@ + string@,
                forall|k: int| i <= k < s0.len() ==> #[trigger] self.mods@[k].1 == s0[k].1,
            decreases self.mods.len() - i,
        {
            let (k, mut v) = self.mods.remove(i);
            v.append(string);
            self.mods.insert(i, (k, v));
            i = i + 1;
        }
        proof {
            assert(mods_sorted(self.mods@)) by {
                assert forall|a: int, b: int| 0 <= a < b < self.mods@.len() implies #[trigger] self.mods@[a].0
                    < #[trigger] self.mods@[b].0 by {
                    assert(s0[a].0 < s0[b].0);
                }
            }
        }
    }

    /// Appends every version of `strs` to the same version of `self` (see `map_with`).
    pub fn push_str_v(&mut self, strs: Self)
        requires
            old(self).wf(),
            strs.wf(),
        ensures
            final(self).wf(),
            final(self).base@ == old(self).base@ + strs.base@,
            forall|v: u8| #[trigger] has_key(final(self).mods@, v) == (has_key(old(self).mods@, v)
                || has_key(strs.mods@, v)),
            forall|v: u8| #[trigger] has_key(final(self).mods@, v) ==> key_value(final(self).mods_v(), v) == value_at(
                old(self).base@,
                old(self).mods_v(),
                v,
            ) + value_at(strs.base@, strs.mods_v(), v),
    {
        self.map_with(&PushStr, strs);
    }

    /// Whether the base version is the empty string.
    pub fn is_empty(&self) -> (b: bool)
        ensures
            b == (self.base@.len() == 0),
    {
        self.base.as_str().is_empty()
    }
}

} // verus!
