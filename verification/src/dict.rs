use vstd::prelude::*;

verus! {

/// An ordered string-to-string mapping with unique keys.
///
/// Entries keep their insertion order, which makes every walk over the
/// dictionary deterministic; writing to an existing key replaces the value
/// in place. The abstract value is the entry sequence, with a derived
/// `Map` view for contracts that only care about contents.
pub struct StrDict {
    entries: Vec<(String, String)>,
}

/// The value bound to `k` by the entry sequence `s`; the earliest entry wins.
pub open spec fn entries_get(s: Seq<(Seq<char>, Seq<char>)>, k: Seq<char>) -> Option<Seq<char>>
    decreases s.len(),
{
    if s.len() == 0 {
        None
    } else if s[0].0 == k {
        Some(s[0].1)
    } else {
        entries_get(s.drop_first(), k)
    }
}

/// The finite map described by the entry sequence `s`; the earliest entry wins.
pub open spec fn entries_map(s: Seq<(Seq<char>, Seq<char>)>) -> Map<Seq<char>, Seq<char>>
    decreases s.len(),
{
    if s.len() == 0 {
        Map::empty()
    } else {
        entries_map(s.drop_first()).insert(s[0].0, s[0].1)
    }
}

/// The keys of the entry sequence, in order.
pub open spec fn entries_keys(s: Seq<(Seq<char>, Seq<char>)>) -> Seq<Seq<char>> {
    s.map(|i: int, e: (Seq<char>, Seq<char>)| e.0)
}

/// No key occurs twice in the entry sequence.
pub open spec fn entries_unique(s: Seq<(Seq<char>, Seq<char>)>) -> bool {
    forall|i: int, j: int| 0 <= i < j < s.len() ==> s[i].0 != s[j].0
}

/// The entry sequence after binding `k` to `v`: the first entry for `k` is
/// replaced in place, or a new entry is appended.
pub open spec fn entries_insert(
    s: Seq<(Seq<char>, Seq<char>)>,
    k: Seq<char>,
    v: Seq<char>,
) -> Seq<(Seq<char>, Seq<char>)>
    decreases s.len(),
{
    if s.len() == 0 {
        seq![(k, v)]
    } else if s[0].0 == k {
        seq![(k, v)] + s.drop_first()
    } else {
        seq![s[0]] + entries_insert(s.drop_first(), k, v)
    }
}

impl View for StrDict {
    type V = Seq<(Seq<char>, Seq<char>)>;

    closed spec fn view(&self) -> Seq<(Seq<char>, Seq<char>)> {
        Seq::new(self.entries@.len(), |i: int| (self.entries@[i].0@, self.entries@[i].1@))
    }
}

impl StrDict {
    /// No key occurs twice.
    pub open spec fn wf(&self) -> bool {
        entries_unique(self@)
    }

    /// The map described by the current entries.
    pub open spec fn to_map(&self) -> Map<Seq<char>, Seq<char>> {
        entries_map(self@)
    }

    /// What `get` returns for key `k`.
    pub open spec fn spec_get(&self, k: Seq<char>) -> Option<Seq<char>> {
        entries_get(self@, k)
    }

    pub fn new() -> (d: StrDict)
        ensures
            d@ == Seq::<(Seq<char>, Seq<char>)>::empty(),
            d.wf(),
    {
        let d = StrDict { entries: Vec::new() };
        proof {
            assert(d@ =~= Seq::<(Seq<char>, Seq<char>)>::empty());
        }
        d
    }

    pub fn len(&self) -> (n: usize)
        ensures
            n == self@.len(),
    {
        self.entries.len()
    }

    pub fn is_empty(&self) -> (b: bool)
        ensures
            b == (self@.len() == 0),
    {
        self.entries.len() == 0
    }

    /// The key of the entry at position `i`.
    pub fn key_at(&self, i: usize) -> (k: &String)
        requires
            i < self@.len(),
        ensures
            k@ == self@[i as int].0,
    {
        &self.entries[i].0
    }

    /// The value of the entry at position `i`.
    pub fn val_at(&self, i: usize) -> (v: &String)
        requires
            i < self@.len(),
        ensures
            v@ == self@[i as int].1,
    {
        &self.entries[i].1
    }

    pub fn get(&self, k: &str) -> (r: Option<&String>)
        ensures
            match r {
                Some(v) => self.spec_get(k@) == Some(v@),
                None => self.spec_get(k@) == None::<Seq<char>>,
            },
    {
        let n = self.entries.len();
        let mut i: usize = 0;
        proof {
            assert(self@.skip(0) =~= self@);
        }
        while i < n
            invariant
                n == self@.len(),
                i <= n,
                entries_get(self@.skip(i as int), k@) == entries_get(self@, k@),
                forall|j: int| 0 <= j < i ==> self@[j].0 != k@,
            decreases n - i,
        {
            proof {
                assert(self@.skip(i as int)[0] == self@[i as int]);
                assert(self@.skip(i as int).drop_first() =~= self@.skip(i + 1));
            }
            if crate::strutil::str_eq(self.entries[i].0.as_str(), k) {
                return Some(&self.entries[i].1);
            }
            i = i + 1;
        }
        proof {
            assert(self@.skip(n as int) =~= Seq::<(Seq<char>, Seq<char>)>::empty());
        }
        None
    }
}

/// The entry sequence with every entry for `k` removed.
pub open spec fn entries_remove(
    s: Seq<(Seq<char>, Seq<char>)>,
    k: Seq<char>,
) -> Seq<(Seq<char>, Seq<char>)>
    decreases s.len(),
{
    if s.len() == 0 {
        Seq::empty()
    } else if s[0].0 == k {
        entries_remove(s.drop_first(), k)
    } else {
        seq![s[0]] + entries_remove(s.drop_first(), k)
    }
}

/// Replacing the first entry holding key `k` in place is the same as
/// `entries_insert`.
proof fn lemma_insert_is_update(s: Seq<(Seq<char>, Seq<char>)>, k: Seq<char>, v: Seq<char>, i: int)
    requires
        0 <= i < s.len(),
        s[i].0 == k,
        forall|j: int| 0 <= j < i ==> s[j].0 != k,
    ensures
        entries_insert(s, k, v) =~= s.update(i, (k, v)),
    decreases i,
{
    if i == 0 {
        assert(entries_insert(s, k, v) == seq![(k, v)] + s.drop_first());
    } else {
        assert(s.drop_first()[i - 1].0 == k);
        lemma_insert_is_update(s.drop_first(), k, v, i - 1);
        assert(entries_insert(s, k, v) == seq![s[0]] + entries_insert(s.drop_first(), k, v));
        assert(s.update(i, (k, v)).drop_first() =~= s.drop_first().update(i - 1, (k, v)));
    }
}

/// Appending a fresh key is the same as `entries_insert`.
proof fn lemma_insert_is_push(s: Seq<(Seq<char>, Seq<char>)>, k: Seq<char>, v: Seq<char>)
    requires
        forall|j: int| 0 <= j < s.len() ==> s[j].0 != k,
    ensures
        entries_insert(s, k, v) =~= s.push((k, v)),
    decreases s.len(),
{
    if s.len() > 0 {
        lemma_insert_is_push(s.drop_first(), k, v);
        assert(s.push((k, v)).drop_first() =~= s.drop_first().push((k, v)));
    }
}

/// `entries_insert` acts on the described map as `Map::insert`.
pub proof fn lemma_entries_insert_map(s: Seq<(Seq<char>, Seq<char>)>, k: Seq<char>, v: Seq<char>)
    ensures
        entries_map(entries_insert(s, k, v)) =~= entries_map(s).insert(k, v),
    decreases s.len(),
{
    if s.len() == 0 {
        let single = seq![(k, v)];
        assert(single.drop_first() =~= Seq::<(Seq<char>, Seq<char>)>::empty());
        assert(entries_map(single) == entries_map(single.drop_first()).insert(k, v));
    } else if s[0].0 == k {
        let r = seq![(k, v)] + s.drop_first();
        assert(r.drop_first() =~= s.drop_first());
        assert(entries_map(r) == entries_map(s.drop_first()).insert(k, v));
    } else {
        let r = seq![s[0]] + entries_insert(s.drop_first(), k, v);
        assert(r.drop_first() =~= entries_insert(s.drop_first(), k, v));
        lemma_entries_insert_map(s.drop_first(), k, v);
    }
}

/// `entries_insert` keeps keys unique.
pub proof fn lemma_entries_insert_unique(s: Seq<(Seq<char>, Seq<char>)>, k: Seq<char>, v: Seq<char>)
    requires
        entries_unique(s),
    ensures
        entries_unique(entries_insert(s, k, v)),
    decreases s.len(),
{
    if s.len() == 0 {
    } else if s[0].0 == k {
        let r = seq![(k, v)] + s.drop_first();
        assert forall|i: int, j: int| 0 <= i < j < r.len() implies r[i].0 != r[j].0 by {
            if i > 0 {
                assert(r[i] == s[i]);
                assert(r[j] == s[j]);
            } else {
                assert(r[j] == s[j]);
                assert(s[0].0 != s[j].0);
            }
        }
    } else {
        assert(entries_unique(s.drop_first()));
        lemma_entries_insert_unique(s.drop_first(), k, v);
        let t = entries_insert(s.drop_first(), k, v);
        let r = seq![s[0]] + t;
        assert forall|i: int, j: int| 0 <= i < j < r.len() implies r[i].0 != r[j].0 by {
            if i > 0 {
                assert(r[i] == t[i - 1] && r[j] == t[j - 1]);
            } else {
                assert(r[j] == t[j - 1]);
                lemma_entries_insert_keys(s.drop_first(), k, v, j - 1);
            }
        }
    }
}

/// Every key in `entries_insert(s, k, v)` is `k` or a key of `s`.
proof fn lemma_entries_insert_keys(
    s: Seq<(Seq<char>, Seq<char>)>,
    k: Seq<char>,
    v: Seq<char>,
    i: int,
)
    requires
        0 <= i < entries_insert(s, k, v).len(),
    ensures
        entries_insert(s, k, v)[i].0 == k || exists|j: int|
            0 <= j < s.len() && s[j].0 == entries_insert(s, k, v)[i].0,
    decreases s.len(),
{
    if s.len() == 0 {
    } else if s[0].0 == k {
        if i > 0 {
            assert(entries_insert(s, k, v)[i] == s[i]);
        }
    } else {
        if i > 0 {
            let t = entries_insert(s.drop_first(), k, v);
            assert(entries_insert(s, k, v)[i] == t[i - 1]);
            lemma_entries_insert_keys(s.drop_first(), k, v, i - 1);
            if t[i - 1].0 != k {
                let j = choose|j: int|
                    0 <= j < s.drop_first().len() && s.drop_first()[j].0 == t[i - 1].0;
                assert(s[j + 1].0 == t[i - 1].0);
            }
        }
    }
}

impl StrDict {
    /// Binds `k` to `v`: replaces the value of an existing entry in place,
    /// or appends a new entry.
    pub fn insert(&mut self, k: String, v: String)
        ensures
            final(self)@ == entries_insert(old(self)@, k@, v@),
            old(self).wf() ==> final(self).wf(),
            final(self).to_map() == old(self).to_map().insert(k@, v@),
    {
        let n = self.entries.len();
        let mut i: usize = 0;
        while i < n
            invariant
                self@ == old(self)@,
                n == self@.len(),
                i <= n,
                forall|j: int| 0 <= j < i ==> self@[j].0 != k@,
            decreases n - i,
        {
            if crate::strutil::str_eq(self.entries[i].0.as_str(), k.as_str()) {
                self.entries[i] = (k, v);
                proof {
                    let kv = (self.entries@[i as int].0@, self.entries@[i as int].1@);
                    assert(self@ =~= old(self)@.update(i as int, kv));
                    lemma_insert_is_update(old(self)@, kv.0, kv.1, i as int);
                    lemma_entries_insert_map(old(self)@, kv.0, kv.1);
                    if old(self).wf() {
                        lemma_entries_insert_unique(old(self)@, kv.0, kv.1);
                    }
                }
                return ;
            }
            i = i + 1;
        }
        self.entries.push((k, v));
        proof {
            let kv = (self.entries@[self.entries@.len() - 1].0@, self.entries@[self.entries@.len()
                - 1].1@);
            assert(self@ =~= old(self)@.push(kv));
            lemma_insert_is_push(old(self)@, kv.0, kv.1);
            lemma_entries_insert_map(old(self)@, kv.0, kv.1);
            if old(self).wf() {
                lemma_entries_insert_unique(old(self)@, kv.0, kv.1);
            }
        }
    }

    pub fn contains_key(&self, k: &str) -> (b: bool)
        ensures
            b == (self.spec_get(k@) is Some),
    {
        self.get(k).is_some()
    }

    /// Removes every entry for `k`; reports whether one was present.
    pub fn remove(&mut self, k: &str) -> (present: bool)
        ensures
            final(self)@ == entries_remove(old(self)@, k@),
            old(self).wf() ==> final(self).wf(),
            present == (entries_get(old(self)@, k@) is Some),
    {
        let ghost orig = self@;
        let n = self.entries.len();
        let mut out: Vec<(String, String)> = Vec::new();
        let mut present = false;
        let mut i: usize = 0;
        proof {
            assert(orig.skip(0) =~= orig);
            assert(pairs_of(out@) =~= Seq::<(Seq<char>, Seq<char>)>::empty());
        }
        while i < n
            invariant
                i <= n,
                n == orig.len(),
                self@ == orig,
                pairs_of(out@) + entries_remove(orig.skip(i as int), k@) =~= entries_remove(
                    orig,
                    k@,
                ),
                present ==> entries_get(orig, k@) is Some,
                !present ==> entries_get(orig.skip(i as int), k@) == entries_get(orig, k@),
            decreases n - i,
        {
            proof {
                assert(orig.skip(i as int)[0] == orig[i as int]);
                assert(orig.skip(i as int).drop_first() =~= orig.skip(i + 1));
            }
            if crate::strutil::str_eq(self.entries[i].0.as_str(), k) {
                present = true;
            } else {
                let ghost before = out@;
                let key = crate::strutil::string_clone(&self.entries[i].0);
                let val = crate::strutil::string_clone(&self.entries[i].1);
                out.push((key, val));
                proof {
                    assert(pairs_of(out@) =~= pairs_of(before).push(orig[i as int]));
                    assert(pairs_of(before).push(orig[i as int]) + entries_remove(
                        orig.skip(i + 1),
                        k@,
                    ) =~= pairs_of(before) + (seq![orig[i as int]] + entries_remove(
                        orig.skip(i + 1),
                        k@,
                    )));
                }
            }
            i = i + 1;
        }
        proof {
            assert(orig.skip(n as int).len() == 0);
            assert(entries_remove(orig.skip(n as int), k@)
                =~= Seq::<(Seq<char>, Seq<char>)>::empty());
            assert(pairs_of(out@) + Seq::<(Seq<char>, Seq<char>)>::empty() =~= pairs_of(out@));
        }
        self.entries = out;
        proof {
            assert(self@ =~= pairs_of(self.entries@));
            if entries_unique(orig) {
                lemma_entries_remove_unique(orig, k@);
            }
        }
        present
    }
}

/// The abstract value of an entry vector.
pub open spec fn pairs_of(ps: Seq<(String, String)>) -> Seq<(Seq<char>, Seq<char>)> {
    Seq::new(
        ps.len(),
        |i: int|
            if 0 <= i < ps.len() {
                (ps[i].0@, ps[i].1@)
            } else {
                arbitrary()
            },
    )
}

/// Every entry left after a removal was an entry before it.
proof fn lemma_entries_remove_subset(s: Seq<(Seq<char>, Seq<char>)>, k: Seq<char>, i: int)
    requires
        0 <= i < entries_remove(s, k).len(),
    ensures
        exists|j: int| 0 <= j < s.len() && #[trigger] s[j] == entries_remove(s, k)[i],
    decreases s.len(),
{
    if s.len() > 0 {
        if s[0].0 == k {
            lemma_entries_remove_subset(s.drop_first(), k, i);
            let j = choose|j: int|
                0 <= j < s.drop_first().len() && #[trigger] s.drop_first()[j] == entries_remove(
                    s,
                    k,
                )[i];
            assert(s[j + 1] == entries_remove(s, k)[i]);
        } else {
            let r = seq![s[0]] + entries_remove(s.drop_first(), k);
            assert(r.drop_first() =~= entries_remove(s.drop_first(), k));
            if i == 0 {
                assert(s[0] == r[0]);
            } else {
                lemma_entries_remove_subset(s.drop_first(), k, i - 1);
                let j = choose|j: int|
                    0 <= j < s.drop_first().len() && #[trigger] s.drop_first()[j] == entries_remove(
                        s.drop_first(),
                        k,
                    )[i - 1];
                assert(s[j + 1] == r[i]);
            }
        }
    }
}

/// Removal keeps keys unique.
proof fn lemma_entries_remove_unique(s: Seq<(Seq<char>, Seq<char>)>, k: Seq<char>)
    requires
        entries_unique(s),
    ensures
        entries_unique(entries_remove(s, k)),
    decreases s.len(),
{
    if s.len() > 0 {
        assert(entries_unique(s.drop_first()));
        lemma_entries_remove_unique(s.drop_first(), k);
        if s[0].0 != k {
            let t = entries_remove(s.drop_first(), k);
            let r = seq![s[0]] + t;
            assert forall|a: int, b: int| 0 <= a < b < r.len() implies r[a].0 != r[b].0 by {
                if a > 0 {
                    assert(r[a] == t[a - 1] && r[b] == t[b - 1]);
                } else {
                    assert(r[b] == t[b - 1]);
                    lemma_entries_remove_subset(s.drop_first(), k, b - 1);
                    let j = choose|j: int|
                        0 <= j < s.drop_first().len() && #[trigger] s.drop_first()[j] == t[b - 1];
                    assert(s[0].0 != s[j + 1].0);
                }
            }
        }
    }
}

/// If key `k` occurs only at position `i`, removing it drops exactly that
/// entry.
proof fn lemma_remove_of_unique_hit(s: Seq<(Seq<char>, Seq<char>)>, k: Seq<char>, i: int)
    requires
        0 <= i < s.len(),
        s[i].0 == k,
        forall|j: int| 0 <= j < s.len() && j != i ==> s[j].0 != k,
    ensures
        entries_remove(s, k) =~= s.take(i) + s.skip(i + 1),
    decreases s.len(),
{
    if i == 0 {
        lemma_remove_of_missing(s.drop_first(), k);
        assert(s.take(0) =~= Seq::<(Seq<char>, Seq<char>)>::empty());
        assert(s.skip(1) =~= s.drop_first());
    } else {
        assert(s.drop_first()[i - 1].0 == k);
        lemma_remove_of_unique_hit(s.drop_first(), k, i - 1);
        assert(s.drop_first().take(i - 1) =~= s.take(i).drop_first());
        assert(s.drop_first().skip(i) =~= s.skip(i + 1));
        assert(seq![s[0]] + (s.take(i).drop_first() + s.skip(i + 1)) =~= s.take(i) + s.skip(
            i + 1,
        ));
    }
}

/// If no entry of `s` holds key `k`, removing `k` changes nothing.
proof fn lemma_remove_of_missing(s: Seq<(Seq<char>, Seq<char>)>, k: Seq<char>)
    requires
        forall|j: int| 0 <= j < s.len() ==> s[j].0 != k,
    ensures
        entries_remove(s, k) =~= s,
    decreases s.len(),
{
    if s.len() > 0 {
        lemma_remove_of_missing(s.drop_first(), k);
        assert(seq![s[0]] + s.drop_first() =~= s);
    }
}

/// After binding `k` to `v`, a lookup of `x` sees `v` for `k` and is
/// otherwise unchanged.
pub proof fn lemma_insert_get(s: Seq<(Seq<char>, Seq<char>)>, k: Seq<char>, v: Seq<char>, x: Seq<char>)
    ensures
        entries_get(entries_insert(s, k, v), x) == if x == k {
            Some(v)
        } else {
            entries_get(s, x)
        },
    decreases s.len(),
{
    if s.len() == 0 {
        let single = seq![(k, v)];
        assert(entries_insert(s, k, v) == single);
        assert(single.drop_first() =~= Seq::<(Seq<char>, Seq<char>)>::empty());
        assert(single[0] == (k, v));
        if x == k {
            assert(entries_get(single, x) == Some(v));
        } else {
            assert(entries_get(single, x) == entries_get(single.drop_first(), x));
        }
    } else if s[0].0 == k {
        let r = seq![(k, v)] + s.drop_first();
        assert(entries_insert(s, k, v) == r);
        assert(r.drop_first() =~= s.drop_first());
        assert(r[0] == (k, v));
        if x == k {
            assert(entries_get(r, x) == Some(v));
        } else {
            assert(entries_get(r, x) == entries_get(s.drop_first(), x));
            assert(entries_get(s, x) == entries_get(s.drop_first(), x));
        }
    } else {
        let r = seq![s[0]] + entries_insert(s.drop_first(), k, v);
        assert(entries_insert(s, k, v) == r);
        assert(r.drop_first() =~= entries_insert(s.drop_first(), k, v));
        assert(r[0] == s[0]);
        lemma_insert_get(s.drop_first(), k, v, x);
        if x == s[0].0 {
            assert(entries_get(r, x) == Some(s[0].1));
            assert(entries_get(s, x) == Some(s[0].1));
        } else {
            assert(entries_get(r, x) == entries_get(entries_insert(s.drop_first(), k, v), x));
            assert(entries_get(s, x) == entries_get(s.drop_first(), x));
        }
    }
}

/// After removing `k`, a lookup of `x` sees nothing for `k` and is otherwise
/// unchanged.
pub proof fn lemma_remove_get(s: Seq<(Seq<char>, Seq<char>)>, k: Seq<char>, x: Seq<char>)
    ensures
        entries_get(entries_remove(s, k), x) == if x == k {
            None::<Seq<char>>
        } else {
            entries_get(s, x)
        },
    decreases s.len(),
{
    if s.len() > 0 {
        lemma_remove_get(s.drop_first(), k, x);
        if s[0].0 != k {
            let r = seq![s[0]] + entries_remove(s.drop_first(), k);
            assert(r.drop_first() =~= entries_remove(s.drop_first(), k));
            assert(r[0] == s[0]);
        }
    }
}

impl StrDict {
    /// A dictionary holding exactly the given pairs, in order.
    pub fn from_pairs(pairs: Vec<(String, String)>) -> (d: StrDict)
        ensures
            d@ == Seq::new(
                pairs@.len(),
                |i: int|
                    if 0 <= i < pairs@.len() {
                        (pairs@[i].0@, pairs@[i].1@)
                    } else {
                        arbitrary()
                    },
            ),
    {
        let d = StrDict { entries: pairs };
        proof {
            assert(d@ =~= Seq::new(
                d.entries@.len(),
                |i: int|
                    if 0 <= i < d.entries@.len() {
                        (d.entries@[i].0@, d.entries@[i].1@)
                    } else {
                        arbitrary()
                    },
            ));
        }
        d
    }

    /// A copy with the same entries.
    pub fn duplicate(&self) -> (r: StrDict)
        ensures
            r@ == self@,
    {
        let n = self.entries.len();
        let mut entries: Vec<(String, String)> = Vec::new();
        let mut i: usize = 0;
        while i < n
            invariant
                i <= n,
                n == self@.len(),
                self.entries@.len() == n,
                entries@.len() == i,
                forall|j: int| 0 <= j < i ==> entries@[j].0@ == self.entries@[j].0@
                    && entries@[j].1@ == self.entries@[j].1@,
            decreases n - i,
        {
            let k = crate::strutil::string_clone(&self.entries[i].0);
            let v = crate::strutil::string_clone(&self.entries[i].1);
            entries.push((k, v));
            i = i + 1;
        }
        let r = StrDict { entries };
        proof {
            assert(r@ =~= self@);
        }
        r
    }
}

/// `base` after binding every entry of `add`, in order.
pub open spec fn entries_extend(
    base: Seq<(Seq<char>, Seq<char>)>,
    add: Seq<(Seq<char>, Seq<char>)>,
) -> Seq<(Seq<char>, Seq<char>)>
    decreases add.len(),
{
    if add.len() == 0 {
        base
    } else {
        entries_insert(entries_extend(base, add.drop_last()), add.last().0, add.last().1)
    }
}

/// Extending acts on the described maps as `union_prefer_right`, as long as
/// the added entries hold no duplicate key.
pub proof fn lemma_entries_extend_map(
    base: Seq<(Seq<char>, Seq<char>)>,
    add: Seq<(Seq<char>, Seq<char>)>,
)
    requires
        entries_unique(add),
    ensures
        entries_map(entries_extend(base, add)) =~= entries_map(base).union_prefer_right(
            entries_map(add),
        ),
    decreases add.len(),
{
    if add.len() == 0 {
        assert(entries_map(add) =~= Map::<Seq<char>, Seq<char>>::empty());
    } else {
        let front = add.drop_last();
        assert(entries_unique(front));
        lemma_entries_extend_map(base, front);
        lemma_entries_insert_map(entries_extend(base, front), add.last().0, add.last().1);
        assert(entries_map(add) =~= entries_map(front).insert(add.last().0, add.last().1)) by {
            lemma_map_of_push(front, add.last().0, add.last().1);
            assert(front.push(add.last()) =~= add);
        }
    }
}

/// Appending an entry with a key the sequence does not hold acts as
/// `Map::insert`.
pub proof fn lemma_map_of_push(s: Seq<(Seq<char>, Seq<char>)>, k: Seq<char>, v: Seq<char>)
    requires
        forall|j: int| 0 <= j < s.len() ==> s[j].0 != k,
    ensures
        entries_map(s.push((k, v))) =~= entries_map(s).insert(k, v),
    decreases s.len(),
{
    if s.len() == 0 {
        let single = s.push((k, v));
        assert(single.drop_first() =~= Seq::<(Seq<char>, Seq<char>)>::empty());
        assert(entries_map(single) == entries_map(single.drop_first()).insert(k, v));
    } else {
        let t = s.push((k, v));
        assert(t.drop_first() =~= s.drop_first().push((k, v)));
        lemma_map_of_push(s.drop_first(), k, v);
        assert(t[0] == s[0]);
    }
}

impl StrDict {
    /// Binds every entry of `other`, in order; existing keys are overwritten.
    pub fn extend_from(&mut self, other: &StrDict)
        ensures
            final(self)@ == entries_extend(old(self)@, other@),
            old(self).wf() ==> final(self).wf(),
            other.wf() ==> final(self).to_map() == old(self).to_map().union_prefer_right(
                other.to_map(),
            ),
    {
        let n = other.len();
        let mut i: usize = 0;
        while i < n
            invariant
                i <= n,
                n == other@.len(),
                old(self).wf() ==> self.wf(),
                self@ == entries_extend(old(self)@, other@.take(i as int)),
            decreases n - i,
        {
            let k = crate::strutil::string_clone(other.key_at(i));
            let v = crate::strutil::string_clone(other.val_at(i));
            self.insert(k, v);
            i = i + 1;
            proof {
                let t = other@.take(i as int);
                assert(t.drop_last() =~= other@.take(i - 1));
                assert(t.last() == other@[i - 1]);
            }
        }
        proof {
            assert(other@.take(n as int) =~= other@);
            if other.wf() {
                lemma_entries_extend_map(old(self)@, other@);
            }
        }
    }
}

/// A lookup agrees with the described map.
pub proof fn lemma_entries_get_map(s: Seq<(Seq<char>, Seq<char>)>, k: Seq<char>)
    ensures
        entries_get(s, k) == if entries_map(s).contains_key(k) {
            Some(entries_map(s)[k])
        } else {
            None::<Seq<char>>
        },
    decreases s.len(),
{
    if s.len() == 0 {
    } else {
        lemma_entries_get_map(s.drop_first(), k);
    }
}

/// Removing a key acts on the described map as `Map::remove`.
pub proof fn lemma_entries_remove_map(s: Seq<(Seq<char>, Seq<char>)>, k: Seq<char>)
    ensures
        entries_map(entries_remove(s, k)) =~= entries_map(s).remove(k),
    decreases s.len(),
{
    if s.len() == 0 {
        assert(entries_map(entries_remove(s, k)) =~= Map::<Seq<char>, Seq<char>>::empty());
    } else {
        lemma_entries_remove_map(s.drop_first(), k);
        if s[0].0 == k {
        } else {
            let r = seq![s[0]] + entries_remove(s.drop_first(), k);
            assert(r.drop_first() =~= entries_remove(s.drop_first(), k));
            assert(r[0] == s[0]);
            assert(entries_map(r) == entries_map(entries_remove(s.drop_first(), k)).insert(
                s[0].0,
                s[0].1,
            ));
        }
    }
}

} // verus!
