use vstd::prelude::*;
use vstd::relations::{sorted_by, total_ordering};
use vstd::multiset::Multiset;
use vstd::seq_lib::lemma_multiset_commutative;

verus! {

/// Whether two string slices hold the same characters.
/// Relies on `str::eq`, which compares the underlying text.
#[verifier::external_body]
pub fn str_eq(a: &str, b: &str) -> (r: bool)
    ensures
        r == (a@ == b@),
{
    a == b
}

/// Appends one character.
/// Relies on `String::push`, which adds the character at the end.
#[verifier::external_body]
pub fn push_char(s: &mut String, c: char)
    ensures
        final(s)@ == old(s)@.push(c),
{
    s.push(c);
}

/// Lexicographic order on character sequences, by code point.
pub open spec fn lex_le(a: Seq<char>, b: Seq<char>) -> bool
    decreases a.len(),
{
    if a.len() == 0 {
        true
    } else if b.len() == 0 {
        false
    } else if (a[0] as int) < (b[0] as int) {
        true
    } else if (a[0] as int) > (b[0] as int) {
        false
    } else {
        lex_le(a.drop_first(), b.drop_first())
    }
}

/// The order as a closure, the shape the sorting lemmas expect.
pub open spec fn lex_leq() -> spec_fn(Seq<char>, Seq<char>) -> bool {
    |a: Seq<char>, b: Seq<char>| lex_le(a, b)
}

pub proof fn lemma_lex_le_refl(a: Seq<char>)
    ensures
        lex_le(a, a),
    decreases a.len(),
{
    if a.len() > 0 {
        lemma_lex_le_refl(a.drop_first());
    }
}

pub proof fn lemma_lex_le_total(a: Seq<char>, b: Seq<char>)
    ensures
        lex_le(a, b) || lex_le(b, a),
    decreases a.len(),
{
    if a.len() > 0 && b.len() > 0 && a[0] as int == b[0] as int {
        lemma_lex_le_total(a.drop_first(), b.drop_first());
    }
}

pub proof fn lemma_lex_le_antisym(a: Seq<char>, b: Seq<char>)
    requires
        lex_le(a, b),
        lex_le(b, a),
    ensures
        a == b,
    decreases a.len(),
{
    if a.len() == 0 {
        assert(b.len() == 0);
        assert(a =~= b);
    } else {
        assert(b.len() > 0);
        assert(a[0] as int == b[0] as int);
        assert(a[0] == b[0]);
        lemma_lex_le_antisym(a.drop_first(), b.drop_first());
        assert(a =~= seq![a[0]] + a.drop_first());
        assert(b =~= seq![b[0]] + b.drop_first());
    }
}

pub proof fn lemma_lex_le_trans(a: Seq<char>, b: Seq<char>, c: Seq<char>)
    requires
        lex_le(a, b),
        lex_le(b, c),
    ensures
        lex_le(a, c),
    decreases a.len(),
{
    if a.len() > 0 && b.len() > 0 && c.len() > 0 {
        if a[0] as int == b[0] as int && b[0] as int == c[0] as int {
            lemma_lex_le_trans(a.drop_first(), b.drop_first(), c.drop_first());
        }
    }
}

/// The lexicographic order is a total ordering.
pub proof fn lemma_lex_total_ordering()
    ensures
        total_ordering(lex_leq()),
{
    let leq = lex_leq();
    assert forall|a: Seq<char>| #[trigger] leq(a, a) by {
        lemma_lex_le_refl(a);
    }
    assert forall|a: Seq<char>, b: Seq<char>| #[trigger] leq(a, b) && #[trigger] leq(b, a)
        implies a == b by {
        lemma_lex_le_antisym(a, b);
    }
    assert forall|a: Seq<char>, b: Seq<char>, c: Seq<char>|
        #[trigger] leq(a, b) && #[trigger] leq(b, c) implies leq(a, c) by {
        lemma_lex_le_trans(a, b, c);
    }
    assert forall|a: Seq<char>, b: Seq<char>| #[trigger] leq(a, b) || #[trigger] leq(b, a) by {
        lemma_lex_le_total(a, b);
    }
}

/// Whether `a` comes no later than `b` in lexicographic order.
pub fn str_le(a: &str, b: &str) -> (r: bool)
    ensures
        r == lex_le(a@, b@),
{
    let alen = a.unicode_len();
    let blen = b.unicode_len();
    let mut i: usize = 0;
    proof {
        assert(a@.skip(0) =~= a@);
        assert(b@.skip(0) =~= b@);
    }
    while i < alen && i < blen
        invariant
            i <= alen,
            i <= blen,
            alen == a@.len(),
            blen == b@.len(),
            lex_le(a@, b@) == lex_le(a@.skip(i as int), b@.skip(i as int)),
        decreases alen - i,
    {
        proof {
            assert(a@.skip(i as int)[0] == a@[i as int]);
            assert(b@.skip(i as int)[0] == b@[i as int]);
            assert(a@.skip(i as int).drop_first() =~= a@.skip(i + 1));
            assert(b@.skip(i as int).drop_first() =~= b@.skip(i + 1));
        }
        let ca = a.get_char(i) as u32;
        let cb = b.get_char(i) as u32;
        proof {
            assert(ca as int == a@[i as int] as int);
            assert(cb as int == b@[i as int] as int);
        }
        if ca < cb {
            return true;
        }
        if ca > cb {
            return false;
        }
        i = i + 1;
    }
    proof {
        if i >= alen {
            assert(a@.skip(alen as int).len() == 0);
        } else {
            assert(b@.skip(blen as int).len() == 0);
            assert(a@.skip(i as int).len() > 0);
        }
    }
    alen <= blen
}

/// The strings of a vector, as character sequences.
pub open spec fn strs_of(v: Seq<String>) -> Seq<Seq<char>> {
    v.map_values(|s: String| s@)
}

/// `Seq::insert` adds one occurrence to the multiset.
proof fn lemma_insert_to_multiset(s: Seq<Seq<char>>, i: int, x: Seq<char>)
    requires
        0 <= i <= s.len(),
    ensures
        s.insert(i, x).to_multiset() =~= s.to_multiset().insert(x),
{
    broadcast use vstd::seq_lib::group_to_multiset_ensures;

    let t = s.insert(i, x);
    assert(t =~= s.take(i) + (seq![x] + s.skip(i)));
    assert(s =~= s.take(i) + s.skip(i));
    lemma_multiset_commutative(s.take(i), seq![x] + s.skip(i));
    lemma_multiset_commutative(seq![x], s.skip(i));
    lemma_multiset_commutative(s.take(i), s.skip(i));
    assert(seq![x].to_multiset() =~= Multiset::<Seq<char>>::empty().insert(x)) by {
        assert(seq![x] =~= Seq::<Seq<char>>::empty().push(x));
    }
}

/// Sorts the strings in lexicographic order. The result is the canonical
/// `sort_by` of the input, so it depends only on the input's multiset of
/// strings.
pub fn sort_strings(v: &Vec<String>) -> (r: Vec<String>)
    ensures
        sorted_by(strs_of(r@), lex_leq()),
        strs_of(r@).to_multiset() == strs_of(v@).to_multiset(),
        strs_of(r@) == strs_of(v@).sort_by(lex_leq()),
{
    broadcast use vstd::seq_lib::group_to_multiset_ensures;

    let n = v.len();
    let mut out: Vec<String> = Vec::new();
    let mut i: usize = 0;
    proof {
        assert(strs_of(out@) =~= Seq::<Seq<char>>::empty());
        assert(strs_of(v@.take(0)) =~= Seq::<Seq<char>>::empty());
        assert(strs_of(out@).to_multiset() =~= strs_of(v@.take(0)).to_multiset());
    }
    while i < n
        invariant
            i <= n,
            n == v@.len(),
            sorted_by(strs_of(out@), lex_leq()),
            strs_of(out@).to_multiset() == strs_of(v@.take(i as int)).to_multiset(),
        decreases n - i,
    {
        let x = string_clone(&v[i]);
        let m = out.len();
        let mut p: usize = 0;
        while p < m && str_le(&out[p], &x)
            invariant
                p <= m,
                m == out@.len(),
                forall|q: int| 0 <= q < p ==> lex_le(strs_of(out@)[q], x@),
            decreases m - p,
        {
            p = p + 1;
        }
        proof {
            let so = strs_of(out@);
            if p < m {
                assert(!lex_le(so[p as int], x@));
                lemma_lex_le_total(so[p as int], x@);
                assert forall|q: int| p <= q < m implies lex_le(x@, so[q]) by {
                    if q > p {
                        assert(lex_leq()(so[p as int], so[q]));
                        lemma_lex_le_trans(x@, so[p as int], so[q]);
                    }
                }
            }
        }
        let ghost old_out = out@;
        out.insert(p, x);
        i = i + 1;
        proof {
            assert(strs_of(out@) =~= strs_of(old_out).insert(p as int, x@));
            let so = strs_of(old_out);
            let t = strs_of(out@);
            assert forall|q1: int, q2: int| 0 <= q1 < q2 < t.len() implies #[trigger] lex_leq()(
                t[q1],
                t[q2],
            ) by {
                lemma_lex_le_refl(x@);
                if q1 < p && q2 < p {
                    assert(t[q1] == so[q1] && t[q2] == so[q2]);
                    assert(lex_leq()(so[q1], so[q2]));
                } else if q1 < p && q2 == p {
                    assert(t[q1] == so[q1] && t[q2] == x@);
                } else if q1 < p && q2 > p {
                    assert(t[q1] == so[q1] && t[q2] == so[q2 - 1]);
                    if q1 < q2 - 1 {
                        assert(lex_leq()(so[q1], so[q2 - 1]));
                    }
                    lemma_lex_le_trans(so[q1], x@, so[q2 - 1]);
                } else if q1 == p {
                    assert(t[q1] == x@ && t[q2] == so[q2 - 1]);
                } else {
                    assert(t[q1] == so[q1 - 1] && t[q2] == so[q2 - 1]);
                    assert(lex_leq()(so[q1 - 1], so[q2 - 1]));
                }
                assert(lex_le(t[q1], t[q2]));
            }
            lemma_insert_to_multiset(so, p as int, x@);
            strs_of(v@.take(i - 1)).to_multiset_ensures();
            assert(strs_of(out@).to_multiset() == so.to_multiset().insert(x@));
            assert(v@.take(i as int).drop_last() =~= v@.take(i - 1));
            assert(x@ == v@[i - 1]@);
            assert(v@.take(i as int) =~= v@.take(i - 1).push(v@[i - 1]));
            assert(strs_of(v@.take(i as int)) =~= strs_of(v@.take(i - 1)).push(x@));
            assert(strs_of(v@.take(i - 1)).push(x@).to_multiset() == strs_of(
                v@.take(i - 1),
            ).to_multiset().insert(x@));
        }
    }
    proof {
        assert(v@.take(n as int) =~= v@);
        lemma_lex_total_ordering();
        strs_of(v@).lemma_sort_by_ensures(lex_leq());
        vstd::seq_lib::lemma_sorted_unique(
            strs_of(out@),
            strs_of(v@).sort_by(lex_leq()),
            lex_leq(),
        );
    }
    out
}

/// Copies a string.
/// Relies on `String::clone`, which keeps the characters.
#[verifier::external_body]
pub fn string_clone(s: &String) -> (r: String)
    ensures
        r@ == s@,
{
    s.clone()
}

/// A copy of the vector with the same strings.
pub fn clone_strings(v: &Vec<String>) -> (r: Vec<String>)
    ensures
        strs_of(r@) == strs_of(v@),
{
    let n = v.len();
    let mut r: Vec<String> = Vec::new();
    let mut i: usize = 0;
    while i < n
        invariant
            i <= n,
            n == v@.len(),
            r@.len() == i,
            forall|j: int| 0 <= j < i ==> r@[j]@ == v@[j]@,
        decreases n - i,
    {
        r.push(string_clone(&v[i]));
        i = i + 1;
    }
    proof {
        assert(strs_of(r@) =~= strs_of(v@));
    }
    r
}

/// Whether `p` occurs as a contiguous substring of `s`.
pub open spec fn contains_sub(s: Seq<char>, p: Seq<char>) -> bool {
    exists|i: int| 0 <= i <= s.len() - p.len() && #[trigger] s.subrange(i, i + p.len()) == p
}

/// Whether `pat` occurs as a substring of `s`.
pub fn contains_substr(s: &str, pat: &str) -> (r: bool)
    ensures
        r == contains_sub(s@, pat@),
{
    let slen = s.unicode_len();
    let plen = pat.unicode_len();
    if plen > slen {
        return false;
    }
    let mut i: usize = 0;
    while i <= slen - plen
        invariant
            plen <= slen,
            slen == s@.len(),
            plen == pat@.len(),
            i <= slen - plen + 1,
            forall|q: int| 0 <= q < i ==> #[trigger] s@.subrange(q, q + pat@.len()) != pat@,
        decreases slen - plen - i + 1,
    {
        let mut j: usize = 0;
        let mut matched = true;
        while matched && j < plen
            invariant
                i + plen <= slen,
                slen == s@.len(),
                plen == pat@.len(),
                j <= plen,
                matched ==> forall|q: int| 0 <= q < j ==> s@[i + q] == pat@[q],
                !matched ==> exists|q: int| 0 <= q < pat@.len() && s@[i + q] != pat@[q],
            decreases plen - j,
        {
            if s.get_char(i + j) as u32 != pat.get_char(j) as u32 {
                matched = false;
                proof {
                    let sc = s@[i + j];
                    let pc = pat@[j as int];
                    assert(sc as int != pc as int);
                    assert(sc != pc);
                }
                j = plen;
            } else {
                proof {
                    let sc = s@[i + j];
                    let pc = pat@[j as int];
                    assert(sc as int == pc as int);
                }
                j = j + 1;
            }
        }
        if matched {
            proof {
                assert(s@.subrange(i as int, i + pat@.len()) =~= pat@);
            }
            return true;
        }
        proof {
            assert(s@.subrange(i as int, i + pat@.len()) != pat@) by {
                let q = choose|q: int| 0 <= q < pat@.len() && s@[i + q] != pat@[q];
                assert(s@.subrange(i as int, i + pat@.len())[q] == s@[i + q]);
            }
        }
        i = i + 1;
    }
    false
}

/// The position of the first occurrence of `c` in `s`, if any.
pub open spec fn first_pos(s: Seq<char>, c: char) -> Option<int>
    decreases s.len(),
{
    if s.len() == 0 {
        None
    } else if s[0] == c {
        Some(0)
    } else {
        match first_pos(s.drop_first(), c) {
            Some(i) => Some(i + 1),
            None => None,
        }
    }
}

/// The text before and after the first occurrence of `c`, if `c` occurs.
pub open spec fn spec_split_at(s: Seq<char>, c: char) -> Option<(Seq<char>, Seq<char>)> {
    match first_pos(s, c) {
        Some(i) => Some((s.take(i), s.skip(i + 1))),
        None => None,
    }
}

/// If `c` first occurs at `i`, `first_pos` says so.
proof fn lemma_first_pos_hit(s: Seq<char>, c: char, i: int)
    requires
        0 <= i < s.len(),
        s[i] == c,
        forall|j: int| 0 <= j < i ==> s[j] != c,
    ensures
        first_pos(s, c) == Some(i),
    decreases i,
{
    if i > 0 {
        assert(s.drop_first()[i - 1] == c);
        lemma_first_pos_hit(s.drop_first(), c, i - 1);
    }
}

/// If `c` does not occur, `first_pos` says so.
proof fn lemma_first_pos_missing(s: Seq<char>, c: char)
    requires
        forall|j: int| 0 <= j < s.len() ==> s[j] != c,
    ensures
        first_pos(s, c) == None::<int>,
    decreases s.len(),
{
    if s.len() > 0 {
        lemma_first_pos_missing(s.drop_first(), c);
    }
}

/// Splits at the first occurrence of `c`; the separator is dropped.
pub fn split_at_char(s: &str, c: char) -> (r: Option<(String, String)>)
    ensures
        match r {
            Some((a, b)) => spec_split_at(s@, c) == Some((a@, b@)),
            None => spec_split_at(s@, c) == None::<(Seq<char>, Seq<char>)>,
        },
{
    let len = s.unicode_len();
    let cu = c as u32;
    let mut i: usize = 0;
    while i < len
        invariant
            i <= len,
            len == s@.len(),
            cu == c as u32,
            forall|j: int| 0 <= j < i ==> s@[j] != c,
        decreases len - i,
    {
        let ci = s.get_char(i);
        if ci as u32 == cu {
            proof {
                assert(ci as int == c as int);
                lemma_first_pos_hit(s@, c, i as int);
            }
            let a = s.substring_char(0, i);
            let b = s.substring_char(i + 1, len);
            return Some((String::from_str(a), String::from_str(b)));
        }
        proof {
            assert(ci as int != c as int);
        }
        i = i + 1;
    }
    proof {
        lemma_first_pos_missing(s@, c);
    }
    None
}

/// The pieces of `s` between occurrences of `c`, in order.
pub open spec fn spec_split_all(s: Seq<char>, c: char) -> Seq<Seq<char>>
    decreases s.len(),
{
    match first_pos(s, c) {
        None => seq![s],
        Some(i) => if 0 <= i < s.len() {
            seq![s.take(i)] + spec_split_all(s.skip(i + 1), c)
        } else {
            seq![s]
        },
    }
}

/// `first_pos` never points past the end.
proof fn lemma_first_pos_in_range(s: Seq<char>, c: char)
    ensures
        match first_pos(s, c) {
            Some(i) => 0 <= i < s.len(),
            None => true,
        },
    decreases s.len(),
{
    if s.len() > 0 && s[0] != c {
        lemma_first_pos_in_range(s.drop_first(), c);
    }
}

/// Splits `s` on every occurrence of `c`.
pub fn split_all(s: &str, c: char) -> (r: Vec<String>)
    ensures
        strs_of(r@) == spec_split_all(s@, c),
{
    let mut out: Vec<String> = Vec::new();
    let mut rem = String::from_str(s);
    proof {
        assert(strs_of(out@) =~= Seq::<Seq<char>>::empty());
        assert(Seq::<Seq<char>>::empty() + spec_split_all(rem@, c) =~= spec_split_all(s@, c));
    }
    loop
        invariant
            strs_of(out@) + spec_split_all(rem@, c) =~= spec_split_all(s@, c),
        decreases rem@.len(),
    {
        proof {
            lemma_first_pos_in_range(rem@, c);
        }
        match split_at_char(rem.as_str(), c) {
            Some((a, b)) => {
                let ghost before = out@;
                out.push(a);
                proof {
                    assert(strs_of(out@) =~= strs_of(before).push(rem@.take(
                        first_pos(rem@, c)->Some_0,
                    )));
                    assert(strs_of(before).push(rem@.take(first_pos(rem@, c)->Some_0))
                        + spec_split_all(b@, c) =~= strs_of(before) + (seq![rem@.take(
                        first_pos(rem@, c)->Some_0,
                    )] + spec_split_all(b@, c)));
                }
                rem = b;
            },
            None => {
                let ghost before = out@;
                proof {
                    assert(spec_split_all(rem@, c) =~= seq![rem@]);
                }
                out.push(rem);
                proof {
                    assert(strs_of(out@) =~= strs_of(before).push(strs_of(out@).last()));
                    assert(strs_of(before) + seq![strs_of(out@).last()] =~= strs_of(out@));
                }
                return out;
            },
        }
    }
}

/// The sequences joined with `sep` between consecutive items.
pub open spec fn join_with(items: Seq<Seq<char>>, sep: Seq<char>) -> Seq<char>
    decreases items.len(),
{
    if items.len() == 0 {
        Seq::empty()
    } else if items.len() == 1 {
        items[0]
    } else {
        items[0] + sep + join_with(items.drop_first(), sep)
    }
}

/// The first item followed by the separated rest is the whole joined text.
proof fn lemma_join_decomp(items: Seq<Seq<char>>, sep: Seq<char>)
    requires
        items.len() > 0,
    ensures
        join_with(items, sep) == items[0] + join_tail(items.drop_first(), sep),
    decreases items.len(),
{
    if items.len() == 1 {
        assert(items.drop_first().len() == 0);
        assert(items[0] + join_tail(items.drop_first(), sep) =~= items[0]);
    } else {
        lemma_join_decomp(items.drop_first(), sep);
        let t = items.drop_first();
        assert(join_with(items, sep) == items[0] + sep + join_with(t, sep));
        assert(join_tail(t, sep) == sep + t[0] + join_tail(t.drop_first(), sep));
        assert(items[0] + sep + (t[0] + join_tail(t.drop_first(), sep)) =~= items[0] + (sep
            + t[0] + join_tail(t.drop_first(), sep)));
    }
}

/// Joins the strings with `sep` between consecutive items.
pub fn join_strings(items: &Vec<String>, sep: &str) -> (r: String)
    ensures
        r@ == join_with(strs_of(items@), sep@),
{
    let n = items.len();
    let mut r = String::new();
    if n == 0 {
        return r;
    }
    r.append(items[0].as_str());
    let mut i: usize = 1;
    proof {
        lemma_join_decomp(strs_of(items@), sep@);
        assert(strs_of(items@).drop_first() =~= strs_of(items@).skip(1));
        assert(r@ =~= strs_of(items@)[0]);
    }
    while i < n
        invariant
            1 <= i <= n,
            n == items@.len(),
            join_with(strs_of(items@), sep@) == r@ + join_tail(
                strs_of(items@).skip(i as int),
                sep@,
            ),
        decreases n - i,
    {
        let ghost r0 = r@;
        r.append(sep);
        r.append(items[i].as_str());
        proof {
            let ss = strs_of(items@);
            assert(ss.skip(i as int)[0] == ss[i as int]);
            assert(ss.skip(i as int).drop_first() =~= ss.skip(i + 1));
            assert(join_tail(ss.skip(i as int), sep@) == sep@ + ss[i as int] + join_tail(
                ss.skip(i + 1),
                sep@,
            ));
            assert(r@ + join_tail(ss.skip(i + 1), sep@) =~= r0 + join_tail(
                ss.skip(i as int),
                sep@,
            ));
        }
        i = i + 1;
    }
    proof {
        let ss = strs_of(items@);
        assert(ss.skip(n as int).len() == 0);
        assert(join_tail(ss.skip(n as int), sep@) == Seq::<char>::empty());
        assert(r@ + Seq::<char>::empty() =~= r@);
    }
    r
}

/// What remains to be appended after the first item: a separator before each
/// remaining item.
pub open spec fn join_tail(items: Seq<Seq<char>>, sep: Seq<char>) -> Seq<char>
    decreases items.len(),
{
    if items.len() == 0 {
        Seq::empty()
    } else {
        sep + items[0] + join_tail(items.drop_first(), sep)
    }
}

/// Whether the character sequence starts with the given prefix.
pub open spec fn starts_with(s: Seq<char>, p: Seq<char>) -> bool {
    s.len() >= p.len() && s.subrange(0, p.len() as int) == p
}

/// Whether `s` starts with the prefix `p`.
pub fn starts_with_str(s: &str, p: &str) -> (r: bool)
    ensures
        r == starts_with(s@, p@),
{
    let slen = s.unicode_len();
    let plen = p.unicode_len();
    if plen > slen {
        return false;
    }
    let mut i: usize = 0;
    while i < plen
        invariant
            plen <= slen,
            slen == s@.len(),
            plen == p@.len(),
            i <= plen,
            forall|j: int| 0 <= j < i ==> s@[j] == p@[j],
        decreases plen - i,
    {
        let sc = s.get_char(i);
        let pc = p.get_char(i);
        if sc as u32 != pc as u32 {
            proof {
                assert(sc as int != pc as int);
                assert(s@.subrange(0, p@.len() as int)[i as int] == s@[i as int]);
            }
            return false;
        }
        proof {
            assert(sc as int == pc as int);
        }
        i = i + 1;
    }
    proof {
        assert(s@.subrange(0, p@.len() as int) =~= p@);
    }
    true
}

/// Whether the character sequence ends with the given suffix.
pub open spec fn ends_with(s: Seq<char>, p: Seq<char>) -> bool {
    s.len() >= p.len() && s.subrange(s.len() - p.len(), s.len() as int) == p
}

/// Whether `s` ends with the suffix `p`.
pub fn ends_with_str(s: &str, p: &str) -> (r: bool)
    ensures
        r == ends_with(s@, p@),
{
    let slen = s.unicode_len();
    let plen = p.unicode_len();
    if plen > slen {
        return false;
    }
    let base = slen - plen;
    let mut i: usize = 0;
    while i < plen
        invariant
            plen <= slen,
            slen == s@.len(),
            plen == p@.len(),
            base == slen - plen,
            i <= plen,
            forall|j: int| 0 <= j < i ==> s@[base + j] == p@[j],
        decreases plen - i,
    {
        let sc = s.get_char(base + i);
        let pc = p.get_char(i);
        if sc as u32 != pc as u32 {
            proof {
                assert(sc as int != pc as int);
                assert(s@.subrange(s@.len() - p@.len(), s@.len() as int)[i as int] == s@[base + i]);
            }
            return false;
        }
        proof {
            assert(sc as int == pc as int);
        }
        i = i + 1;
    }
    proof {
        assert(s@.subrange(s@.len() - p@.len(), s@.len() as int) =~= p@);
    }
    true
}

/// The position of the last occurrence of `c` in `s`, if any.
pub open spec fn last_pos(s: Seq<char>, c: char) -> Option<int>
    decreases s.len(),
{
    if s.len() == 0 {
        None
    } else if s.last() == c {
        Some(s.len() - 1)
    } else {
        last_pos(s.drop_last(), c)
    }
}

/// The text after the last occurrence of `c`, or all of `s` when `c` does
/// not occur.
pub open spec fn after_last(s: Seq<char>, c: char) -> Seq<char> {
    match last_pos(s, c) {
        None => s,
        Some(i) => s.skip(i + 1),
    }
}

/// If `c` last occurs at `i`, `last_pos` says so.
proof fn lemma_last_pos_hit(s: Seq<char>, c: char, i: int)
    requires
        0 <= i < s.len(),
        s[i] == c,
        forall|j: int| i < j < s.len() ==> s[j] != c,
    ensures
        last_pos(s, c) == Some(i),
    decreases s.len(),
{
    if i < s.len() - 1 {
        assert(s.drop_last()[i] == c);
        lemma_last_pos_hit(s.drop_last(), c, i);
    }
}

/// If `c` does not occur, `last_pos` says so.
proof fn lemma_last_pos_missing(s: Seq<char>, c: char)
    requires
        forall|j: int| 0 <= j < s.len() ==> s[j] != c,
    ensures
        last_pos(s, c) == None::<int>,
    decreases s.len(),
{
    if s.len() > 0 {
        lemma_last_pos_missing(s.drop_last(), c);
    }
}

/// The text after the last occurrence of `c`, or all of `s` when `c` does
/// not occur.
pub fn after_last_char(s: &str, c: char) -> (r: String)
    ensures
        r@ == after_last(s@, c),
{
    let len = s.unicode_len();
    let cu = c as u32;
    let mut i: usize = len;
    while i > 0
        invariant
            i <= len,
            len == s@.len(),
            cu == c as u32,
            forall|j: int| i <= j < len ==> s@[j] != c,
        decreases i,
    {
        let ci = s.get_char(i - 1);
        if ci as u32 == cu {
            proof {
                assert(ci as int == c as int);
                lemma_last_pos_hit(s@, c, i - 1);
            }
            let rest = s.substring_char(i, len);
            proof {
                assert(rest@ =~= s@.skip(i as int));
            }
            return String::from_str(rest);
        }
        proof {
            assert(ci as int != c as int);
        }
        i = i - 1;
    }
    proof {
        lemma_last_pos_missing(s@, c);
    }
    String::from_str(s)
}

/// Whether `s` starts with two dashes, the shape of a raw CSS variable key.
pub fn starts_with_dash_dash(s: &str) -> (r: bool)
    ensures
        r == starts_with(s@, seq!['-', '-']),
{
    let n = s.unicode_len();
    if n < 2 {
        return false;
    }
    let c0 = s.get_char(0);
    let c1 = s.get_char(1);
    let r = c0 as u32 == 45 && c1 as u32 == 45;
    proof {
        assert('-' as int == 45);
        assert((c0 as u32 == 45) == (c0 == '-')) by {
            assert(c0 as u32 as int == c0 as int);
        }
        assert((c1 as u32 == 45) == (c1 == '-')) by {
            assert(c1 as u32 as int == c1 as int);
        }
        if r {
            assert(s@.subrange(0, 2) =~= seq!['-', '-']);
        } else {
            assert(s@.subrange(0, 2)[0] == s@[0] && s@.subrange(0, 2)[1] == s@[1]);
        }
    }
    r
}

/// Whether the character is an ASCII decimal digit.
pub open spec fn is_digit(c: char) -> bool {
    48 <= c as int <= 57
}

/// Whether the first character of `s` is an ASCII digit; false when empty.
pub fn first_char_is_digit(s: &str) -> (r: bool)
    ensures
        r == (s@.len() > 0 && is_digit(s@[0])),
{
    let n = s.unicode_len();
    if n == 0 {
        return false;
    }
    let c0 = s.get_char(0);
    let c = c0 as u32;
    proof {
        assert(c as int == c0 as int);
    }
    48 <= c && c <= 57
}

/// The HTML escape of one character.
pub open spec fn esc_char(c: char) -> Seq<char> {
    if c == '&' {
        seq!['&', 'a', 'm', 'p', ';']
    } else if c == '<' {
        seq!['&', 'l', 't', ';']
    } else if c == '>' {
        seq!['&', 'g', 't', ';']
    } else if c == '"' {
        seq!['&', 'q', 'u', 'o', 't', ';']
    } else if c == '\'' {
        seq!['&', '#', '3', '9', ';']
    } else {
        seq![c]
    }
}

/// The HTML escape of a character sequence.
pub open spec fn html_escaped(s: Seq<char>) -> Seq<char>
    decreases s.len(),
{
    if s.len() == 0 {
        Seq::empty()
    } else {
        esc_char(s[0]) + html_escaped(s.drop_first())
    }
}

/// Escapes the characters HTML treats specially.
pub fn html_escape(s: &str) -> (r: String)
    ensures
        r@ == html_escaped(s@),
{
    let n = s.unicode_len();
    let mut r = String::new();
    let mut i: usize = 0;
    proof {
        assert(s@.skip(0) =~= s@);
        assert(html_escaped(s@) =~= r@ + html_escaped(s@.skip(0)));
    }
    while i < n
        invariant
            i <= n,
            n == s@.len(),
            html_escaped(s@) == r@ + html_escaped(s@.skip(i as int)),
        decreases n - i,
    {
        proof {
            assert(s@.skip(i as int)[0] == s@[i as int]);
            assert(s@.skip(i as int).drop_first() =~= s@.skip(i + 1));
        }
        let ghost r0 = r@;
        let c = s.get_char(i);
        let cu = c as u32;
        if cu == 38 {
            proof {
                assert('&' as int == 38);
                assert(c as u32 as int == c as int);
                assert(c == '&');
            }
            r.append("&amp;");
            proof {
                reveal_strlit("&amp;");
                assert("&amp;"@ =~= esc_char(c));
            }
        } else if cu == 60 {
            proof {
                assert('<' as int == 60);
                assert(c as u32 as int == c as int);
                assert(c == '<');
            }
            r.append("&lt;");
            proof {
                reveal_strlit("&lt;");
                assert("&lt;"@ =~= esc_char(c));
            }
        } else if cu == 62 {
            proof {
                assert('>' as int == 62);
                assert(c as u32 as int == c as int);
                assert(c == '>');
            }
            r.append("&gt;");
            proof {
                reveal_strlit("&gt;");
                assert("&gt;"@ =~= esc_char(c));
            }
        } else if cu == 34 {
            proof {
                assert('"' as int == 34);
                assert(c as u32 as int == c as int);
                assert(c == '"');
            }
            r.append("&quot;");
            proof {
                reveal_strlit("&quot;");
                assert("&quot;"@ =~= esc_char(c));
            }
        } else if cu == 39 {
            proof {
                assert('\'' as int == 39);
                assert(c as u32 as int == c as int);
                assert(c == '\'');
            }
            r.append("&#39;");
            proof {
                reveal_strlit("&#39;");
                assert("&#39;"@ =~= esc_char(c));
            }
        } else {
            push_char(&mut r, c);
            proof {
                assert(esc_char(c) =~= seq![c]);
                assert(r@ =~= r0 + esc_char(c));
            }
        }
        proof {
            assert(r@ == r0 + esc_char(c));
            assert(html_escaped(s@.skip(i as int)) == esc_char(s@[i as int]) + html_escaped(
                s@.skip(i + 1),
            ));
            assert(r@ + html_escaped(s@.skip(i + 1)) =~= r0 + html_escaped(s@.skip(i as int)));
        }
        i = i + 1;
    }
    proof {
        assert(html_escaped(s@.skip(n as int)) =~= Seq::<char>::empty());
        assert(r@ =~= r@ + Seq::<char>::empty());
    }
    r
}

} // verus!
