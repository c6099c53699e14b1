//! Verified string helpers used by the source resolver: trimming,
//! prefix tests, splitting on a separator, and lexicographic ordering
//! with sorted deduplication.

use vstd::prelude::*;

verus! {

use vstd::string::StrSliceExecFns;

/// The whitespace characters stripped from the ends of an input line.
pub open spec fn is_space_char(c: char) -> bool {
    c == ' ' || c == '\t' || c == '\r'
}

/// `s` with leading whitespace removed.
pub open spec fn trim_front_spec(s: Seq<char>) -> Seq<char>
    decreases s.len(),
{
    if s.len() > 0 && is_space_char(s[0]) {
        trim_front_spec(s.drop_first())
    } else {
        s
    }
}

/// `s` with trailing whitespace removed.
pub open spec fn trim_back_spec(s: Seq<char>) -> Seq<char>
    decreases s.len(),
{
    if s.len() > 0 && is_space_char(s.last()) {
        trim_back_spec(s.drop_last())
    } else {
        s
    }
}

/// `s` with whitespace removed from both ends.
pub open spec fn trim_spec(s: Seq<char>) -> Seq<char> {
    trim_back_spec(trim_front_spec(s))
}

proof fn lemma_trim_front_at(s: Seq<char>, i: int)
    requires
        0 <= i <= s.len(),
        forall|k: int| 0 <= k < i ==> is_space_char(s[k]),
        i == s.len() || !is_space_char(s[i]),
    ensures
        trim_front_spec(s) == s.subrange(i, s.len() as int),
    decreases i,
{
    if i == 0 {
        assert(s.subrange(0, s.len() as int) =~= s);
    } else {
        let t = s.drop_first();
        assert(t =~= s.subrange(1, s.len() as int));
        lemma_trim_front_at(t, i - 1);
        assert(t.subrange(i - 1, t.len() as int) =~= s.subrange(i, s.len() as int));
    }
}

proof fn lemma_trim_back_at(s: Seq<char>, j: int)
    requires
        0 <= j <= s.len(),
        forall|k: int| j <= k < s.len() ==> is_space_char(s[k]),
        j == 0 || !is_space_char(s[j - 1]),
    ensures
        trim_back_spec(s) == s.subrange(0, j),
    decreases s.len() - j,
{
    if j == s.len() {
        assert(s.subrange(0, j) =~= s);
    } else {
        let t = s.drop_last();
        assert(t =~= s.subrange(0, s.len() - 1));
        lemma_trim_back_at(t, j);
        assert(t.subrange(0, j) =~= s.subrange(0, j));
    }
}

/// Strip whitespace from both ends of `s`.
pub fn trim_str(s: &str) -> (r: String)
    ensures
        r@ == trim_spec(s@),
{
    let n = s.unicode_len();
    let mut i: usize = 0;
    while i < n && is_space(s.get_char(i))
        invariant
            0 <= i <= n,
            n == s@.len(),
            forall|k: int| 0 <= k < i ==> is_space_char(s@[k]),
        decreases n - i,
    {
        i = i + 1;
    }
    proof {
        lemma_trim_front_at(s@, i as int);
    }
    if i == n {
        proof {
            assert(trim_front_spec(s@) =~= Seq::<char>::empty());
            assert(trim_spec(s@) =~= Seq::<char>::empty());
        }
        let r = String::new();
        return r;
    }
    let mut j: usize = n;
    while j > i && is_space(s.get_char(j - 1))
        invariant
            i <= j <= n,
            n == s@.len(),
            i < n,
            !is_space_char(s@[i as int]),
            forall|k: int| j <= k < n ==> is_space_char(s@[k]),
        decreases j,
    {
        j = j - 1;
    }
    // j > i here: s@[i] is not whitespace, so the scan stops at or after i + 1.
    proof {
        let front = trim_front_spec(s@);
        assert(front == s@.subrange(i as int, n as int));
        lemma_trim_back_at(front, j - i);
        assert(front.subrange(0, j - i) =~= s@.subrange(i as int, j as int));
    }
    let sub = s.substring_char(i, j);
    sub.to_owned()
}

/// Exec mirror of `is_space_char`.
fn is_space(c: char) -> (r: bool)
    ensures
        r == is_space_char(c),
{
    c == ' ' || c == '\t' || c == '\r'
}

/// Whether `p` is a prefix of `s`.
pub open spec fn has_prefix(s: Seq<char>, p: Seq<char>) -> bool {
    p.len() <= s.len() && forall|k: int| 0 <= k < p.len() ==> s[k] == p[k]
}

/// Prefix test over characters.
pub fn starts_with_str(s: &str, p: &str) -> (r: bool)
    ensures
        r == has_prefix(s@, p@),
{
    let sn = s.unicode_len();
    let pn = p.unicode_len();
    if pn > sn {
        return false;
    }
    let mut k: usize = 0;
    while k < pn
        invariant
            0 <= k <= pn <= sn,
            sn == s@.len(),
            pn == p@.len(),
            forall|t: int| 0 <= t < k ==> s@[t] == p@[t],
        decreases pn - k,
    {
        if s.get_char(k) != p.get_char(k) {
            return false;
        }
        k = k + 1;
    }
    true
}

/// Character-for-character equality of two string slices.
pub fn str_eq(a: &str, b: &str) -> (r: bool)
    ensures
        r == (a@ == b@),
{
    let an = a.unicode_len();
    let bn = b.unicode_len();
    if an != bn {
        return false;
    }
    let mut k: usize = 0;
    while k < an
        invariant
            0 <= k <= an,
            an == a@.len(),
            an == b@.len(),
            forall|t: int| 0 <= t < k ==> a@[t] == b@[t],
        decreases an - k,
    {
        if a.get_char(k) != b.get_char(k) {
            return false;
        }
        k = k + 1;
    }
    proof {
        assert(a@ =~= b@);
    }
    true
}

/// Index of the first occurrence of `sep` in `s`, or `s.len()` if absent.
pub open spec fn find_sep(s: Seq<char>, sep: char) -> int
    decreases s.len(),
{
    if s.len() == 0 {
        0
    } else if s[0] == sep {
        0
    } else {
        1 + find_sep(s.drop_first(), sep)
    }
}

pub proof fn lemma_find_sep_props(s: Seq<char>, sep: char)
    ensures
        0 <= find_sep(s, sep) <= s.len(),
        forall|k: int| 0 <= k < find_sep(s, sep) ==> s[k] != sep,
        find_sep(s, sep) < s.len() ==> s[find_sep(s, sep)] == sep,
    decreases s.len(),
{
    if s.len() > 0 && s[0] != sep {
        lemma_find_sep_props(s.drop_first(), sep);
        assert forall|k: int| 0 <= k < find_sep(s, sep) implies s[k] != sep by {
            if k > 0 {
                assert(s.drop_first()[k - 1] == s[k]);
            }
        }
    }
}

/// `find_sep` is pinned by its characterization: no separator before `j`,
/// and either `j` is the end or a separator stands at `j`.
pub proof fn lemma_find_sep_at(s: Seq<char>, sep: char, j: int)
    requires
        0 <= j <= s.len(),
        forall|k: int| 0 <= k < j ==> s[k] != sep,
        j == s.len() || s[j] == sep,
    ensures
        find_sep(s, sep) == j,
{
    lemma_find_sep_props(s, sep);
    let f = find_sep(s, sep);
    if f < j {
        assert(s[f] == sep);
        assert(s[f] != sep);
    }
    if j < f {
        assert(s[j] != sep);
    }
}

/// `s` split on `sep`: the separators are dropped and the pieces kept,
/// empty pieces included, as `str::split` with a char pattern does.
pub open spec fn split_spec(s: Seq<char>, sep: char) -> Seq<Seq<char>>
    decreases s.len(),
{
    let i = find_sep(s, sep);
    if 0 <= i < s.len() {
        seq![s.subrange(0, i)] + split_spec(s.subrange(i + 1, s.len() as int), sep)
    } else {
        seq![s]
    }
}

pub proof fn lemma_split_spec_len(s: Seq<char>, sep: char)
    ensures
        split_spec(s, sep).len() >= 1,
    decreases s.len(),
{
    let i = find_sep(s, sep);
    if 0 <= i < s.len() {
        lemma_split_spec_len(s.subrange(i + 1, s.len() as int), sep);
    }
}

/// One unfolding of `split_spec` at a known separator position.
proof fn lemma_split_step(s: Seq<char>, sep: char, j: int)
    requires
        0 <= j < s.len(),
        forall|k: int| 0 <= k < j ==> s[k] != sep,
        s[j] == sep,
    ensures
        split_spec(s, sep) == seq![s.subrange(0, j)] + split_spec(
            s.subrange(j + 1, s.len() as int),
            sep,
        ),
{
    lemma_find_sep_at(s, sep, j);
}

/// `split_spec` of a separator-free sequence is that sequence alone.
proof fn lemma_split_whole(s: Seq<char>, sep: char)
    requires
        forall|k: int| 0 <= k < s.len() ==> s[k] != sep,
    ensures
        split_spec(s, sep) == seq![s],
{
    lemma_find_sep_at(s, sep, s.len() as int);
}

/// Split `s` on the character `sep`, keeping empty pieces.
pub fn split_str(s: &str, sep: char) -> (r: Vec<String>)
    ensures
        r.deep_view() == split_spec(s@, sep),
{
    let n = s.unicode_len();
    let mut r: Vec<String> = Vec::new();
    let mut start: usize = 0;
    let mut i: usize = 0;
    proof {
        assert(s@.subrange(0, n as int) =~= s@);
        assert(r.deep_view() =~= Seq::<Seq<char>>::empty());
    }
    while i < n
        invariant
            0 <= start <= i <= n,
            n == s@.len(),
            forall|k: int| start <= k < i ==> s@[k] != sep,
            split_spec(s@, sep) =~= r.deep_view() + split_spec(
                s@.subrange(start as int, n as int),
                sep,
            ),
        decreases n - i,
    {
        if s.get_char(i) == sep {
            let piece = s.substring_char(start, i);
            let ghost old_r = r.deep_view();
            let ghost tail = s@.subrange(start as int, n as int);
            r.push(piece.to_owned());
            proof {
                // The separator at position i - start of the tail splits off
                // exactly the piece just pushed.
                assert(tail[i - start] == sep);
                assert(forall|k: int| 0 <= k < i - start ==> tail[k] != sep);
                lemma_split_step(tail, sep, i - start);
                assert(tail.subrange(0, i - start) =~= s@.subrange(start as int, i as int));
                assert(tail.subrange(i - start + 1, tail.len() as int) =~= s@.subrange(
                    i as int + 1,
                    n as int,
                ));
                assert(r.deep_view() =~= old_r + seq![s@.subrange(start as int, i as int)]);
            }
            start = i + 1;
        }
        i = i + 1;
    }
    let last = s.substring_char(start, n);
    let ghost old_r = r.deep_view();
    let ghost tail = s@.subrange(start as int, n as int);
    r.push(last.to_owned());
    proof {
        lemma_split_whole(tail, sep);
        assert(r.deep_view() =~= old_r + seq![tail]);
        assert(r.deep_view() =~= split_spec(s@, sep));
    }
    r
}

/// Lexicographic order on character sequences by code point, the order
/// `str` comparison uses (UTF-8 byte order agrees with code-point order).
pub open spec fn lex_le(a: Seq<char>, b: Seq<char>) -> bool
    decreases a.len(),
{
    if a.len() == 0 {
        true
    } else if b.len() == 0 {
        false
    } else if a[0] == b[0] {
        lex_le(a.drop_first(), b.drop_first())
    } else {
        (a[0] as u32) < (b[0] as u32)
    }
}

/// Strict lexicographic order.
pub open spec fn lex_lt(a: Seq<char>, b: Seq<char>) -> bool {
    lex_le(a, b) && a != b
}

pub proof fn lemma_lex_le_refl(a: Seq<char>)
    ensures
        lex_le(a, a),
    decreases a.len(),
{
    if a.len() > 0 {
        lemma_lex_le_refl(a.drop_first());
    }
}

pub proof fn lemma_lex_le_total(a: Seq<char>, b: Seq<char>)
    ensures
        lex_le(a, b) || lex_le(b, a),
        lex_le(a, b) && lex_le(b, a) ==> a == b,
        lex_le(a, a),
    decreases a.len(),
{
    lemma_lex_le_refl(a);
    if a.len() > 0 && b.len() > 0 && a[0] == b[0] {
        lemma_lex_le_total(a.drop_first(), b.drop_first());
        if lex_le(a, b) && lex_le(b, a) {
            assert(a =~= seq![a[0]] + a.drop_first());
            assert(b =~= seq![b[0]] + b.drop_first());
        }
    }
    if a.len() > 0 && b.len() > 0 && a[0] != b[0] {
        // Distinct characters have distinct code points.
        assert((a[0] as u32) != (b[0] as u32)) by {
            vstd::utf8::char_u32_cast(a[0], a[0] as u32);
            vstd::utf8::char_u32_cast(b[0], b[0] as u32);
        }
    }
}

pub proof fn lemma_lex_le_trans(a: Seq<char>, b: Seq<char>, c: Seq<char>)
    requires
        lex_le(a, b),
        lex_le(b, c),
    ensures
        lex_le(a, c),
    decreases a.len() + b.len() + c.len(),
{
    if a.len() == 0 {
    } else if b.len() == 0 {
        // lex_le(a, b) is false here, contradiction with the requires.
    } else if c.len() == 0 {
    } else {
        if a[0] == b[0] && b[0] == c[0] {
            lemma_lex_le_trans(a.drop_first(), b.drop_first(), c.drop_first());
        }
    }
}

/// Comparison over a shared prefix reduces to comparison of the suffixes.
proof fn lemma_lex_le_common_prefix(a: Seq<char>, b: Seq<char>, i: int)
    requires
        0 <= i <= a.len(),
        i <= b.len(),
        forall|k: int| 0 <= k < i ==> a[k] == b[k],
    ensures
        lex_le(a, b) == lex_le(a.subrange(i, a.len() as int), b.subrange(i, b.len() as int)),
    decreases i,
{
    if i == 0 {
        assert(a.subrange(0, a.len() as int) =~= a);
        assert(b.subrange(0, b.len() as int) =~= b);
    } else {
        let a1 = a.drop_first();
        let b1 = b.drop_first();
        lemma_lex_le_common_prefix(a1, b1, i - 1);
        assert(a1.subrange(i - 1, a1.len() as int) =~= a.subrange(i, a.len() as int));
        assert(b1.subrange(i - 1, b1.len() as int) =~= b.subrange(i, b.len() as int));
    }
}

/// Lexicographic comparison: `a <= b` in the order of `lex_le`.
pub fn str_le(a: &str, b: &str) -> (r: bool)
    ensures
        r == lex_le(a@, b@),
{
    let an = a.unicode_len();
    let bn = b.unicode_len();
    let min: usize = if an < bn { an } else { bn };
    let mut i: usize = 0;
    while i < min
        invariant
            0 <= i <= min,
            an == a@.len(),
            bn == b@.len(),
            min == if an < bn { an } else { bn },
            forall|k: int| 0 <= k < i ==> a@[k] == b@[k],
        decreases min - i,
    {
        let ca = a.get_char(i);
        let cb = b.get_char(i);
        if ca != cb {
            proof {
                lemma_lex_le_common_prefix(a@, b@, i as int);
            }
            return (ca as u32) < (cb as u32);
        }
        i = i + 1;
    }
    proof {
        lemma_lex_le_common_prefix(a@, b@, min as int);
        if an <= bn {
            assert(a@.subrange(min as int, an as int) =~= Seq::<char>::empty());
        } else {
            assert(a@.subrange(min as int, an as int).len() > 0);
            assert(b@.subrange(min as int, bn as int) =~= Seq::<char>::empty());
        }
    }
    an <= bn
}

/// A sequence of names in strictly increasing lexicographic order.
pub open spec fn strictly_sorted(s: Seq<Seq<char>>) -> bool {
    forall|i: int, j: int| 0 <= i < j < s.len() ==> lex_lt(s[i], s[j])
}

/// A strictly sorted sequence is pinned by the set of its elements: two
/// such sequences over the same elements are equal.
pub proof fn lemma_strictly_sorted_unique(a: Seq<Seq<char>>, b: Seq<Seq<char>>)
    requires
        strictly_sorted(a),
        strictly_sorted(b),
        forall|x: Seq<char>| a.contains(x) <==> b.contains(x),
    ensures
        a == b,
    decreases a.len(),
{
    if a.len() == 0 {
        if b.len() > 0 {
            assert(b.contains(b[0]));
            assert(a.contains(b[0]));
        }
        assert(a =~= b);
    } else {
        assert(a.contains(a[0]));
        assert(b.contains(a[0]));
        let ib = choose|ib: int| 0 <= ib < b.len() && b[ib] == a[0];
        assert(b.contains(b[0]));
        assert(a.contains(b[0]));
        let ia = choose|ia: int| 0 <= ia < a.len() && a[ia] == b[0];
        // The heads are mutual lower bounds, hence equal.
        if ib > 0 {
            assert(lex_lt(b[0], b[ib]));
        }
        if ia > 0 {
            assert(lex_lt(a[0], a[ia]));
        }
        lemma_lex_le_total(a[0], b[0]);
        assert(a[0] == b[0]);
        let at = a.drop_first();
        let bt = b.drop_first();
        assert forall|x: Seq<char>| at.contains(x) implies bt.contains(x) by {
            let k = choose|k: int| 0 <= k < at.len() && at[k] == x;
            assert(a[k + 1] == x);
            assert(lex_lt(a[0], x));
            assert(a.contains(x));
            assert(b.contains(x));
            let m = choose|m: int| 0 <= m < b.len() && b[m] == x;
            if m == 0 {
                // x would equal the shared head, contradicting lex_lt(a[0], x).
                assert(lex_le(x, x)) by { lemma_lex_le_total(x, x) };
                assert(false);
            }
            assert(bt[m - 1] == x);
        }
        assert forall|x: Seq<char>| bt.contains(x) implies at.contains(x) by {
            let k = choose|k: int| 0 <= k < bt.len() && bt[k] == x;
            assert(b[k + 1] == x);
            assert(lex_lt(b[0], x));
            assert(b.contains(x));
            assert(a.contains(x));
            let m = choose|m: int| 0 <= m < a.len() && a[m] == x;
            if m == 0 {
                assert(lex_le(x, x)) by { lemma_lex_le_total(x, x) };
                assert(false);
            }
            assert(at[m - 1] == x);
        }
        assert(strictly_sorted(at)) by {
            assert(forall|i: int, j: int|
                0 <= i < j < at.len() ==> lex_lt(#[trigger] at[i], #[trigger] at[j]));
        }
        lemma_strictly_sorted_unique(at, bt);
        assert(a =~= seq![a[0]] + at);
        assert(b =~= seq![b[0]] + bt);
    }
}

/// Insert `s` into the strictly sorted `r`, keeping it strictly sorted;
/// a duplicate of an existing element is dropped.
fn insert_sorted_unique(r: &mut Vec<String>, s: String)
    requires
        strictly_sorted(old(r).deep_view()),
    ensures
        strictly_sorted(final(r).deep_view()),
        forall|x: Seq<char>|
            final(r).deep_view().contains(x) <==> (old(r).deep_view().contains(x) || x == s@),
{
    let n = r.len();
    let mut i: usize = 0;
    let mut stop = false;
    while i < n && !stop
        invariant
            0 <= i <= n,
            n == r.len(),
            *r == *old(r),
            forall|k: int| 0 <= k < i ==> lex_lt(#[trigger] r.deep_view()[k], s@),
            stop ==> i < n && !lex_lt(r.deep_view()[i as int], s@),
        decreases n - i, if stop { 0int } else { 1int },
    {
        let le = str_le(r[i].as_str(), s.as_str());
        let eq = str_eq(r[i].as_str(), s.as_str());
        if le && !eq {
            i = i + 1;
        } else {
            stop = true;
        }
    }
    let ghost rv = r.deep_view();
    if i < n {
        let dup = str_eq(r[i].as_str(), s.as_str());
        if dup {
            proof {
                assert(rv.contains(s@)) by {
                    assert(rv[i as int] == s@);
                }
            }
            return;
        }
    }
    // Here every element before i is below s, and either i is the end or
    // s is strictly below the element at i.
    proof {
        if i < n {
            lemma_lex_le_total(rv[i as int], s@);
        }
    }
    r.insert(i, s);
    proof {
        let nv = r.deep_view();
        assert(nv.len() == rv.len() + 1);
        assert forall|p: int, q: int| 0 <= p < q < nv.len() implies lex_lt(nv[p], nv[q]) by {
            let ii = i as int;
            if p < ii && q < ii {
                assert(nv[p] == rv[p] && nv[q] == rv[q]);
            } else if p < ii && q == ii {
                assert(nv[p] == rv[p] && nv[q] == s@);
            } else if p < ii && q > ii {
                assert(nv[p] == rv[p] && nv[q] == rv[q - 1]);
                assert(lex_lt(rv[p], s@));
                if p < q - 1 {
                    assert(lex_lt(rv[p], rv[q - 1]));
                } else {
                    // p == q - 1 == ii - 1 is impossible since q > ii means q - 1 >= ii > p.
                    assert(lex_lt(s@, rv[q - 1]));
                    lemma_lex_le_trans(rv[p], s@, rv[q - 1]);
                    assert(rv[p] != rv[q - 1]) by {
                        if rv[p] == rv[q - 1] {
                            lemma_lex_le_total(rv[p], s@);
                            lemma_lex_le_total(s@, rv[q - 1]);
                            assert(false);
                        }
                    }
                }
            } else if p == ii {
                assert(nv[p] == s@ && nv[q] == rv[q - 1]);
                assert(lex_lt(s@, rv[ii]));
                if q - 1 == ii {
                } else {
                    assert(lex_lt(rv[ii], rv[q - 1]));
                    lemma_lex_le_trans(s@, rv[ii], rv[q - 1]);
                    assert(s@ != rv[q - 1]) by {
                        if s@ == rv[q - 1] {
                            lemma_lex_le_total(s@, rv[ii]);
                            lemma_lex_le_total(rv[ii], rv[q - 1]);
                            assert(false);
                        }
                    }
                }
            } else {
                assert(nv[p] == rv[p - 1] && nv[q] == rv[q - 1]);
                assert(lex_lt(rv[p - 1], rv[q - 1]));
            }
        }
        assert forall|x: Seq<char>| nv.contains(x) <==> (rv.contains(x) || x == s@) by {
            if nv.contains(x) {
                let k = choose|k: int| 0 <= k < nv.len() && nv[k] == x;
                if k < i as int {
                    assert(rv[k] == x);
                    assert(rv.contains(x));
                } else if k == i as int {
                } else {
                    assert(rv[k - 1] == x);
                    assert(rv.contains(x));
                }
            }
            if rv.contains(x) {
                let k = choose|k: int| 0 <= k < rv.len() && rv[k] == x;
                if k < i as int {
                    assert(nv[k] == x);
                } else {
                    assert(nv[k + 1] == x);
                }
                assert(nv.contains(x));
            }
            if x == s@ {
                assert(nv[i as int] == x);
                assert(nv.contains(x));
            }
        }
    }
}

/// The strictly sorted enumeration of the distinct elements of `v`:
/// sorting followed by deduplication.
pub fn sort_dedup(v: &Vec<String>) -> (r: Vec<String>)
    ensures
        strictly_sorted(r.deep_view()),
        forall|x: Seq<char>| r.deep_view().contains(x) <==> v.deep_view().contains(x),
{
    let mut r: Vec<String> = Vec::new();
    let n = v.len();
    let mut i: usize = 0;
    proof {
        assert(r.deep_view() =~= Seq::<Seq<char>>::empty());
    }
    while i < n
        invariant
            0 <= i <= n,
            n == v.len(),
            strictly_sorted(r.deep_view()),
            forall|x: Seq<char>|
                r.deep_view().contains(x) <==> v.deep_view().subrange(0, i as int).contains(x),
        decreases n - i,
    {
        let ghost pre = r.deep_view();
        let ghost dv = v.deep_view();
        let s = v[i].clone();
        proof {
            assert(s@ == dv[i as int]);
        }
        insert_sorted_unique(&mut r, s);
        proof {
            let ii = i as int;
            assert forall|x: Seq<char>|
                r.deep_view().contains(x) <==> dv.subrange(0, ii + 1).contains(x) by {
                if r.deep_view().contains(x) {
                    // From the insert: x was already present or is the new element.
                    if pre.contains(x) {
                        let k = choose|k: int| 0 <= k < ii && dv.subrange(0, ii)[k] == x;
                        assert(dv.subrange(0, ii + 1)[k] == x);
                    } else {
                        assert(dv.subrange(0, ii + 1)[ii] == x);
                    }
                    assert(dv.subrange(0, ii + 1).contains(x));
                }
                if dv.subrange(0, ii + 1).contains(x) {
                    let k = choose|k: int| 0 <= k <= ii && #[trigger] dv.subrange(0, ii + 1)[k]
                        == x;
                    if k < ii {
                        assert(dv.subrange(0, ii)[k] == x);
                        assert(pre.contains(x));
                    } else {
                        assert(x == s@);
                    }
                    assert(r.deep_view().contains(x));
                }
            }
        }
        i = i + 1;
    }
    proof {
        assert(v.deep_view().subrange(0, n as int) =~= v.deep_view());
    }
    r
}

} // verus!
