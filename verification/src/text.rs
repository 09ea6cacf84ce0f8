//! Text helpers over character sequences: conversion between `String` and `Vec<char>`,
//! trimming, replacement, joining, prefix tests and the lexicographic order of strings.

use vstd::prelude::*;

verus! {

/// The characters of a sequence of strings, one sequence per string.
pub open spec fn strs(v: Seq<String>) -> Seq<Seq<char>> {
    v.map_values(|s: String| s@)
}

/// Unicode `White_Space` characters, the ones `char::is_whitespace` accepts.
pub open spec fn is_space(c: char) -> bool {
    let u = c as u32;
    ||| 0x09 <= u <= 0x0d
    ||| u == 0x20
    ||| u == 0x85
    ||| u == 0xa0
    ||| u == 0x1680
    ||| 0x2000 <= u <= 0x200a
    ||| u == 0x2028
    ||| u == 0x2029
    ||| u == 0x202f
    ||| u == 0x205f
    ||| u == 0x3000
}

/// `s` without its leading white space.
pub open spec fn trim_start(s: Seq<char>) -> Seq<char>
    decreases s.len(),
{
    if s.len() > 0 && is_space(s[0]) {
        trim_start(s.drop_first())
    } else {
        s
    }
}

/// `s` without its trailing white space.
pub open spec fn trim_end(s: Seq<char>) -> Seq<char>
    decreases s.len(),
{
    if s.len() > 0 && is_space(s.last()) {
        trim_end(s.drop_last())
    } else {
        s
    }
}

/// `s` without leading and trailing white space, as `str::trim` gives it.
pub open spec fn trim(s: Seq<char>) -> Seq<char> {
    trim_end(trim_start(s))
}

/// `s` with every non-overlapping occurrence of `pat`, scanned from the left, replaced by
/// `rep`, as `str::replace` gives it for a non-empty pattern.
pub open spec fn replace_all(s: Seq<char>, pat: Seq<char>, rep: Seq<char>) -> Seq<char>
    decreases s.len(),
{
    if s.len() == 0 {
        Seq::empty()
    } else if pat.len() > 0 && pat.is_prefix_of(s) {
        rep + replace_all(s.skip(pat.len() as int), pat, rep)
    } else {
        seq![s[0]] + replace_all(s.drop_first(), pat, rep)
    }
}

/// The items joined with `sep` between neighbours, as `[String]::join` gives it.
pub open spec fn join(items: Seq<Seq<char>>, sep: Seq<char>) -> Seq<char>
    decreases items.len(),
{
    if items.len() == 0 {
        Seq::empty()
    } else if items.len() == 1 {
        items[0]
    } else {
        join(items.drop_last(), sep) + sep + items.last()
    }
}

/// Whether `pat` occurs somewhere in `s`.
pub open spec fn contains_seq(s: Seq<char>, pat: Seq<char>) -> bool {
    exists|i: int| 0 <= i <= s.len() - pat.len() && #[trigger] s.subrange(i, i + pat.len()) == pat
}

/// Lexicographic order of strings by code point, the order of `String`'s `Ord`.
pub open spec fn str_lt(a: Seq<char>, b: Seq<char>) -> bool
    decreases a.len(),
{
    if b.len() == 0 {
        false
    } else if a.len() == 0 {
        true
    } else if a[0] != b[0] {
        (a[0] as u32) < (b[0] as u32)
    } else {
        str_lt(a.drop_first(), b.drop_first())
    }
}

/// `a` is `b` or comes before it.
pub open spec fn str_le(a: Seq<char>, b: Seq<char>) -> bool {
    a == b || str_lt(a, b)
}

/// Every element is at most the next one.
pub open spec fn sorted_strs(s: Seq<Seq<char>>) -> bool {
    forall|i: int, j: int| 0 <= i < j < s.len() ==> str_le(#[trigger] s[i], #[trigger] s[j])
}

/// Every element is below the next one: sorted, without repeats.
pub open spec fn strictly_sorted_strs(s: Seq<Seq<char>>) -> bool {
    forall|i: int, j: int| 0 <= i < j < s.len() ==> str_lt(#[trigger] s[i], #[trigger] s[j])
}

/// No string comes before itself.
pub proof fn lemma_str_lt_irreflexive(a: Seq<char>)
    ensures
        !str_lt(a, a),
    decreases a.len(),
{
    if a.len() > 0 {
        lemma_str_lt_irreflexive(a.drop_first());
    }
}

/// The order of strings is transitive.
pub proof fn lemma_str_lt_transitive(a: Seq<char>, b: Seq<char>, c: Seq<char>)
    requires
        str_lt(a, b),
        str_lt(b, c),
    ensures
        str_lt(a, c),
    decreases a.len(),
{
    if a.len() > 0 && b.len() > 0 && c.len() > 0 {
        if a[0] == b[0] && b[0] == c[0] {
            lemma_str_lt_transitive(a.drop_first(), b.drop_first(), c.drop_first());
        }
    }
}

/// Of two different strings, one comes before the other.
pub proof fn lemma_str_lt_total(a: Seq<char>, b: Seq<char>)
    ensures
        a == b || str_lt(a, b) || str_lt(b, a),
    decreases a.len(),
{
    if a.len() > 0 && b.len() > 0 && a[0] == b[0] {
        lemma_str_lt_total(a.drop_first(), b.drop_first());
        if a.drop_first() == b.drop_first() {
            assert(a =~= seq![a[0]] + a.drop_first());
            assert(b =~= seq![b[0]] + b.drop_first());
        }
    } else if a.len() == 0 && b.len() == 0 {
        assert(a =~= b);
    } else if a.len() > 0 && b.len() > 0 {
        let x = a[0] as u32;
        let y = b[0] as u32;
        assert(x != y) by {
            vstd::utf8::char_u32_cast(a[0], x);
            vstd::utf8::char_u32_cast(b[0], y);
        }
    }
}

/// `str_le` is transitive.
pub proof fn lemma_str_le_transitive(a: Seq<char>, b: Seq<char>, c: Seq<char>)
    requires
        str_le(a, b),
        str_le(b, c),
    ensures
        str_le(a, c),
{
    if str_lt(a, b) && str_lt(b, c) {
        lemma_str_lt_transitive(a, b, c);
    }
}

/// The characters of `s`.
pub fn chars_of(s: &str) -> (v: Vec<char>)
    ensures
        v@ == s@,
{
    let mut v: Vec<char> = Vec::new();
    for c in it: s.chars()
        invariant
            v@ == it.seq().take(it.index() as int),
    {
        v.push(c);
    }
    v
}

/// Appends one character to a `String`.
#[verifier::external_body]
fn push_char(s: &mut String, c: char)
    ensures
        final(s)@ == old(s)@.push(c),
{
    s.push(c);
}

/// A `String` holding exactly the given characters.
pub fn string_of(v: &Vec<char>) -> (s: String)
    ensures
        s@ == v@,
{
    let mut s = String::new();
    let mut i: usize = 0;
    while i < v.len()
        invariant
            i <= v.len(),
            s@ == v@.take(i as int),
        decreases v.len() - i,
    {
        push_char(&mut s, v[i]);
        i += 1;
        assert(s@ =~= v@.take(i as int));
    }
    assert(v@.take(v.len() as int) =~= v@);
    s
}

/// The concatenation of two strings.
pub fn concat(a: &str, b: &str) -> (r: String)
    ensures
        r@ == a@ + b@,
{
    let mut r = String::from_str(a);
    r.append(b);
    r
}

/// Whether `c` is white space.
pub fn is_space_char(c: char) -> (b: bool)
    ensures
        b == is_space(c),
{
    let u = c as u32;
    (0x09 <= u && u <= 0x0d) || u == 0x20 || u == 0x85 || u == 0xa0 || u == 0x1680 || (0x2000
        <= u && u <= 0x200a) || u == 0x2028 || u == 0x2029 || u == 0x202f || u == 0x205f || u
        == 0x3000
}

proof fn lemma_trim_start_skip(s: Seq<char>, i: int)
    requires
        0 <= i <= s.len(),
        forall|k: int| 0 <= k < i ==> is_space(#[trigger] s[k]),
        i == s.len() || !is_space(s[i]),
    ensures
        trim_start(s) == s.skip(i),
    decreases i,
{
    if i == 0 {
        assert(s.skip(0) =~= s);
    } else {
        assert forall|k: int| 0 <= k < i - 1 implies is_space(#[trigger] s.drop_first()[k]) by {
            assert(s.drop_first()[k] == s[k + 1]);
        }
        lemma_trim_start_skip(s.drop_first(), i - 1);
        assert(s.drop_first().skip(i - 1) =~= s.skip(i));
    }
}

proof fn lemma_trim_end_take(s: Seq<char>, j: int)
    requires
        0 <= j <= s.len(),
        forall|k: int| j <= k < s.len() ==> is_space(#[trigger] s[k]),
        j == 0 || !is_space(s[j - 1]),
    ensures
        trim_end(s) == s.take(j),
    decreases s.len() - j,
{
    if j == s.len() {
        assert(s.take(j) =~= s);
    } else {
        assert forall|k: int| j <= k < s.len() - 1 implies is_space(#[trigger] s.drop_last()[k]) by {
            assert(s.drop_last()[k] == s[k]);
        }
        lemma_trim_end_take(s.drop_last(), j);
        assert(s.drop_last().take(j) =~= s.take(j));
    }
}

/// `s` without leading and trailing white space.
pub fn trim_str(s: &str) -> (r: String)
    ensures
        r@ == trim(s@),
{
    let v = chars_of(s);
    let n = v.len();
    let mut i: usize = 0;
    while i < n && is_space_char(v[i])
        invariant
            n == v.len(),
            i <= n,
            forall|k: int| 0 <= k < i ==> is_space(#[trigger] v@[k]),
        decreases n - i,
    {
        i += 1;
    }
    proof {
        lemma_trim_start_skip(v@, i as int);
    }
    let mut j: usize = n;
    while j > i && is_space_char(v[j - 1])
        invariant
            n == v.len(),
            i <= j <= n,
            forall|k: int| j <= k < n ==> is_space(#[trigger] v@[k]),
        decreases j,
    {
        j -= 1;
    }
    let mut out: Vec<char> = Vec::new();
    let mut k: usize = i;
    while k < j
        invariant
            i <= k <= j <= n,
            n == v.len(),
            out@ == v@.subrange(i as int, k as int),
        decreases j - k,
    {
        out.push(v[k]);
        k += 1;
        assert(out@ =~= v@.subrange(i as int, k as int));
    }
    proof {
        let t = v@.skip(i as int);
        assert forall|q: int| j - i <= q < t.len() implies is_space(#[trigger] t[q]) by {
            assert(t[q] == v@[q + i]);
        }
        lemma_trim_end_take(t, j - i);
        assert(t.take(j - i) =~= v@.subrange(i as int, j as int));
    }
    string_of(&out)
}

/// Whether `pat` occurs in `s` at position `at`.
pub fn occurs_at(s: &Vec<char>, pat: &Vec<char>, at: usize) -> (b: bool)
    requires
        at <= s.len(),
    ensures
        b == pat@.is_prefix_of(s@.skip(at as int)),
{
    if pat.len() > s.len() - at {
        return false;
    }
    let mut k: usize = 0;
    while k < pat.len()
        invariant
            k <= pat.len(),
            at + pat.len() <= s.len(),
            forall|q: int| 0 <= q < k ==> pat@[q] == s@[at + q],
        decreases pat.len() - k,
    {
        if pat[k] != s[at + k] {
            assert(s@.skip(at as int)[k as int] == s@[at + k]);
            return false;
        }
        k += 1;
    }
    assert(pat@ =~= s@.skip(at as int).subrange(0, pat.len() as int));
    true
}

/// `s` with every occurrence of `pat` replaced by `rep`.
pub fn replace_str(s: &str, pat: &str, rep: &str) -> (r: String)
    requires
        pat@.len() > 0,
    ensures
        r@ == replace_all(s@, pat@, rep@),
{
    let sv = chars_of(s);
    let pv = chars_of(pat);
    let rv = chars_of(rep);
    let mut out: Vec<char> = Vec::new();
    let mut i: usize = 0;
    assert(sv@.skip(0) =~= sv@);
    while i < sv.len()
        invariant
            i <= sv.len(),
            pv@.len() > 0,
            replace_all(sv@, pv@, rv@) == out@ + replace_all(sv@.skip(i as int), pv@, rv@),
        decreases sv.len() - i,
    {
        let ghost rest = sv@.skip(i as int);
        if occurs_at(&sv, &pv, i) {
            let mut k: usize = 0;
            let ghost before = out@;
            while k < rv.len()
                invariant
                    k <= rv.len(),
                    out@ == before + rv@.take(k as int),
                decreases rv.len() - k,
            {
                out.push(rv[k]);
                k += 1;
                assert(out@ =~= before + rv@.take(k as int));
            }
            assert(rv@.take(rv.len() as int) =~= rv@);
            assert(rest.skip(pv.len() as int) =~= sv@.skip((i + pv.len()) as int));
            i += pv.len();
            assert(replace_all(sv@, pv@, rv@) == out@ + replace_all(sv@.skip(i as int), pv@, rv@))
                by {
                assert(out@ == before + rv@);
                assert(before + rv@ + replace_all(sv@.skip(i as int), pv@, rv@) =~= before + (rv@
                    + replace_all(sv@.skip(i as int), pv@, rv@)));
            }
        } else {
            let ghost before = out@;
            out.push(sv[i]);
            assert(rest.drop_first() =~= sv@.skip(i as int + 1));
            assert(rest[0] == sv@[i as int]);
            i += 1;
            assert(before + (seq![sv@[i - 1]] + replace_all(sv@.skip(i as int), pv@, rv@)) =~= out@
                + replace_all(sv@.skip(i as int), pv@, rv@));
        }
    }
    assert(replace_all(sv@.skip(i as int), pv@, rv@) =~= Seq::<char>::empty());
    assert(out@ + Seq::<char>::empty() =~= out@);
    string_of(&out)
}

/// The strings joined with `sep` between neighbours.
pub fn join_strs(items: &Vec<String>, sep: &str) -> (r: String)
    ensures
        r@ == join(strs(items@), sep@),
{
    let mut r = String::new();
    let mut i: usize = 0;
    while i < items.len()
        invariant
            i <= items.len(),
            r@ == join(strs(items@).take(i as int), sep@),
        decreases items.len() - i,
    {
        let ghost prev = strs(items@).take(i as int);
        if i > 0 {
            r.append(sep);
        }
        r.append(items[i].as_str());
        proof {
            let next = strs(items@).take(i + 1);
            assert(next.drop_last() =~= prev);
            assert(next.last() == items@[i as int]@);
            if i == 0 {
                assert(r@ =~= items@[0]@);
            }
        }
        i += 1;
    }
    assert(strs(items@).take(items.len() as int) =~= strs(items@));
    r
}

/// Whether the two strings are equal.
pub fn str_eq(a: &str, b: &str) -> (r: bool)
    ensures
        r == (a@ == b@),
{
    let av = chars_of(a);
    let bv = chars_of(b);
    if av.len() != bv.len() {
        assert(av@.len() != bv@.len());
        return false;
    }
    let mut i: usize = 0;
    while i < av.len()
        invariant
            av.len() == bv.len(),
            av@ == a@,
            bv@ == b@,
            i <= av.len(),
            forall|k: int| 0 <= k < i ==> av@[k] == bv@[k],
        decreases av.len() - i,
    {
        if av[i] != bv[i] {
            assert(av@[i as int] != bv@[i as int]);
            return false;
        }
        i += 1;
    }
    assert(av@ =~= bv@);
    true
}

proof fn lemma_str_lt_skip(a: Seq<char>, b: Seq<char>, i: int)
    requires
        0 <= i <= a.len(),
        i <= b.len(),
        a.take(i) == b.take(i),
    ensures
        str_lt(a, b) == str_lt(a.skip(i), b.skip(i)),
    decreases i,
{
    if i > 0 {
        assert(a[0] == a.take(i)[0]);
        assert(b[0] == b.take(i)[0]);
        assert(a.drop_first().take(i - 1) =~= a.take(i).drop_first());
        assert(b.drop_first().take(i - 1) =~= b.take(i).drop_first());
        lemma_str_lt_skip(a.drop_first(), b.drop_first(), i - 1);
        assert(a.drop_first().skip(i - 1) =~= a.skip(i));
        assert(b.drop_first().skip(i - 1) =~= b.skip(i));
    } else {
        assert(a.skip(0) =~= a);
        assert(b.skip(0) =~= b);
    }
}

/// Whether `a` comes before `b` in the lexicographic order.
pub fn str_less(a: &str, b: &str) -> (r: bool)
    ensures
        r == str_lt(a@, b@),
{
    let av = chars_of(a);
    let bv = chars_of(b);
    let mut i: usize = 0;
    while i < av.len() && i < bv.len() && av[i] == bv[i]
        invariant
            i <= av.len(),
            i <= bv.len(),
            av@.take(i as int) == bv@.take(i as int),
        decreases av.len() - i,
    {
        assert(av@.take(i + 1) =~= av@.take(i as int).push(av@[i as int]));
        assert(bv@.take(i + 1) =~= bv@.take(i as int).push(bv@[i as int]));
        i += 1;
    }
    proof {
        lemma_str_lt_skip(av@, bv@, i as int);
    }
    if i == bv.len() {
        false
    } else if i == av.len() {
        true
    } else {
        let x = av[i] as u32;
        let y = bv[i] as u32;
        assert(av@.skip(i as int)[0] == av@[i as int]);
        assert(bv@.skip(i as int)[0] == bv@[i as int]);
        x < y
    }
}

/// Whether `pat` occurs in `s`.
pub fn contains_str(s: &str, pat: &str) -> (b: bool)
    ensures
        b == contains_seq(s@, pat@),
{
    let sv = chars_of(s);
    let pv = chars_of(pat);
    if pv.len() > sv.len() {
        return false;
    }
    let mut i: usize = 0;
    while i <= sv.len() - pv.len()
        invariant
            pv.len() <= sv.len(),
            sv@ == s@,
            pv@ == pat@,
            i <= sv.len() - pv.len() + 1,
            forall|q: int| 0 <= q < i ==> #[trigger] sv@.subrange(q, q + pv@.len()) != pv@,
        decreases sv.len() - pv.len() + 1 - i,
    {
        if occurs_at(&sv, &pv, i) {
            assert(sv@.subrange(i as int, i + pv@.len()) =~= sv@.skip(i as int).subrange(
                0,
                pv@.len() as int,
            ));
            assert(sv@.subrange(i as int, i + pv@.len()) == pv@);
            assert(s@.subrange(i as int, i as int + pat@.len()) == pat@);
            return true;
        }
        assert(sv@.subrange(i as int, i + pv@.len()) =~= sv@.skip(i as int).subrange(
            0,
            pv@.len() as int,
        ));
        i += 1;
    }
    false
}

pub proof fn lemma_insert_multiset<A>(s: Seq<A>, p: int, a: A)
    requires
        0 <= p <= s.len(),
    ensures
        s.insert(p, a).to_multiset() =~= s.to_multiset().insert(a),
{
    broadcast use vstd::seq_lib::group_to_multiset_ensures;

    let l = s.subrange(0, p);
    let r = s.subrange(p, s.len() as int);
    assert(s =~= l + r);
    vstd::seq_lib::lemma_multiset_commutative(l, r);
    vstd::seq_lib::lemma_multiset_commutative(l.push(a), r);
}

proof fn lemma_strs_insert(v: Seq<String>, p: int, x: String)
    requires
        0 <= p <= v.len(),
    ensures
        strs(v.insert(p, x)) =~= strs(v).insert(p, x@),
{
    v.insert_ensures(p, x);
    strs(v).insert_ensures(p, x@);
}

/// The strings in ascending order, equal strings kept together; a stable sort.
pub fn sort_strings(v: &Vec<String>) -> (r: Vec<String>)
    ensures
        sorted_strs(strs(r@)),
        strs(r@).to_multiset() == strs(v@).to_multiset(),
{
    let mut out: Vec<String> = Vec::new();
    let mut i: usize = 0;
    assert(strs(v@.take(0)) =~= strs(out@));
    while i < v.len()
        invariant
            i <= v.len(),
            sorted_strs(strs(out@)),
            strs(out@).to_multiset() == strs(v@.take(i as int)).to_multiset(),
        decreases v.len() - i,
    {
        let x = v[i].clone();
        let mut p: usize = 0;
        while p < out.len() && !str_less(x.as_str(), out[p].as_str())
            invariant
                p <= out.len(),
                forall|q: int| 0 <= q < p ==> str_le(#[trigger] strs(out@)[q], x@),
            decreases out.len() - p,
        {
            proof {
                lemma_str_lt_total(x@, out@[p as int]@);
            }
            p += 1;
        }
        let ghost old_out = out@;
        out.insert(p, x);
        proof {
            lemma_strs_insert(old_out, p as int, x);
            let o = strs(old_out);
            let n = strs(out@);
            assert forall|a: int, b: int| 0 <= a < b < n.len() implies str_le(
                #[trigger] n[a],
                #[trigger] n[b],
            ) by {
                if b < p {
                } else if a < p && b == p {
                } else if a < p {
                    assert(str_lt(x@, o[p as int]));
                    if b - 1 > p {
                        assert(str_le(o[p as int], o[b - 1]));
                    }
                    lemma_str_le_transitive(x@, o[p as int], o[b - 1]);
                    lemma_str_le_transitive(o[a], x@, o[b - 1]);
                } else if a == p {
                    assert(str_lt(x@, o[p as int]));
                    if b - 1 > p {
                        assert(str_le(o[p as int], o[b - 1]));
                    }
                    lemma_str_le_transitive(x@, o[p as int], o[b - 1]);
                } else {
                    assert(str_le(o[a - 1], o[b - 1]));
                }
            }
            lemma_insert_multiset(o, p as int, x@);
            assert(strs(v@.take(i + 1)) =~= strs(v@.take(i as int)).push(v@[i as int]@));
            broadcast use vstd::seq_lib::group_to_multiset_ensures;

        }
        i += 1;
    }
    assert(v@.take(v.len() as int) =~= v@);
    out
}

/// Adds `x` to a strictly ascending list of strings, unless it is already there.
pub fn insert_sorted_unique(keys: &mut Vec<String>, x: String)
    requires
        strictly_sorted_strs(strs(old(keys)@)),
    ensures
        strictly_sorted_strs(strs(final(keys)@)),
        strs(final(keys)@).to_set() == strs(old(keys)@).to_set().insert(x@),
{
    let mut p: usize = 0;
    while p < keys.len() && str_less(keys[p].as_str(), x.as_str())
        invariant
            p <= keys.len(),
            forall|q: int| 0 <= q < p ==> str_lt(#[trigger] strs(keys@)[q], x@),
        decreases keys.len() - p,
    {
        p += 1;
    }
    if p < keys.len() && keys[p] == x {
        assert(strs(keys@)[p as int] == x@);
        assert(strs(keys@).to_set().insert(x@) =~= strs(keys@).to_set());
        return ;
    }
    if p < keys.len() {
        proof {
            lemma_str_lt_total(keys@[p as int]@, x@);
        }
    }
    let ghost old_keys = keys@;
    keys.insert(p, x);
    proof {
        lemma_strs_insert(old_keys, p as int, x);
        let o = strs(old_keys);
        let n = strs(keys@);
        assert forall|a: int, b: int| 0 <= a < b < n.len() implies str_lt(
            #[trigger] n[a],
            #[trigger] n[b],
        ) by {
            if b < p {
            } else if a < p && b == p {
            } else if a < p {
                lemma_str_lt_transitive(o[a], x@, o[p as int]);
                if b - 1 > p {
                    lemma_str_lt_transitive(o[a], o[p as int], o[b - 1]);
                }
            } else if a == p {
                if b - 1 > p {
                    lemma_str_lt_transitive(x@, o[p as int], o[b - 1]);
                }
            } else {
            }
        }
        assert forall|y: Seq<char>| n.to_set().contains(y) <==> o.to_set().insert(x@).contains(y) by {
            if n.contains(y) {
                let k = choose|k: int| 0 <= k < n.len() && n[k] == y;
                if k < p {
                    assert(o[k] == y);
                } else if k > p {
                    assert(o[k - 1] == y);
                }
            }
            if o.contains(y) {
                let k = choose|k: int| 0 <= k < o.len() && o[k] == y;
                if k < p {
                    assert(n[k] == y);
                } else {
                    assert(n[k + 1] == y);
                }
            }
            if y == x@ {
                assert(n[p as int] == y);
            }
        }
        assert(n.to_set() =~= o.to_set().insert(x@));
    }
}

/// The strings of `a` followed by those of `b`.
pub fn concat_lists(a: &Vec<String>, b: &Vec<String>) -> (r: Vec<String>)
    ensures
        strs(r@) == strs(a@) + strs(b@),
{
    let mut r: Vec<String> = Vec::new();
    let mut i: usize = 0;
    while i < a.len()
        invariant
            i <= a.len(),
            r.len() == i,
            forall|k: int| 0 <= k < i ==> #[trigger] r@[k]@ == a@[k]@,
        decreases a.len() - i,
    {
        r.push(a[i].clone());
        i += 1;
    }
    let mut j: usize = 0;
    while j < b.len()
        invariant
            j <= b.len(),
            r.len() == a.len() + j,
            forall|k: int| 0 <= k < a.len() ==> #[trigger] r@[k]@ == a@[k]@,
            forall|k: int| 0 <= k < j ==> #[trigger] r@[a.len() + k]@ == b@[k]@,
        decreases b.len() - j,
    {
        r.push(b[j].clone());
        j += 1;
    }
    assert forall|k: int| 0 <= k < r.len() implies #[trigger] strs(r@)[k] == (strs(a@) + strs(
        b@,
    ))[k] by {
        if k >= a.len() {
            assert(r@[a.len() + (k - a.len())]@ == b@[k - a.len()]@);
        }
    }
    assert(strs(r@) =~= strs(a@) + strs(b@));
    r
}

/// Whether `s` ends with `suffix`.
pub fn ends_with_str(s: &str, suffix: &str) -> (b: bool)
    ensures
        b == suffix@.is_suffix_of(s@),
{
    let sv = chars_of(s);
    let pv = chars_of(suffix);
    if pv.len() > sv.len() {
        return false;
    }
    let start = sv.len() - pv.len();
    let r = occurs_at(&sv, &pv, start);
    assert(sv@.skip(start as int).subrange(0, pv@.len() as int) =~= sv@.subrange(
        start as int,
        sv@.len() as int,
    ));
    r
}

} // verus!
