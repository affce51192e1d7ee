//! Verified text primitives: ASCII whitespace trimming, case-insensitive
//! comparison, exact comparison, and lexicographic ordering of strings.

use vstd::prelude::*;

verus! {

/// ASCII whitespace, the only whitespace this library trims.
pub open spec fn is_ws(c: char) -> bool {
    c == ' ' || c == '\t' || c == '\n' || c == '\r'
}

/// `s` with leading whitespace removed.
pub open spec fn trim_front(s: Seq<char>) -> Seq<char>
    decreases s.len(),
{
    if s.len() > 0 && is_ws(s[0]) {
        trim_front(s.drop_first())
    } else {
        s
    }
}

/// `s` with trailing whitespace removed.
pub open spec fn trim_back(s: Seq<char>) -> Seq<char>
    decreases s.len(),
{
    if s.len() > 0 && is_ws(s.last()) {
        trim_back(s.drop_last())
    } else {
        s
    }
}

/// `s` with leading and trailing whitespace removed.
pub open spec fn trimmed(s: Seq<char>) -> Seq<char> {
    trim_back(trim_front(s))
}

/// Code point of `c`, with ASCII upper-case letters folded to lower case.
pub open spec fn low_code(c: char) -> int {
    if 'A' <= c && c <= 'Z' {
        c as int + 32
    } else {
        c as int
    }
}

/// Case-insensitive equality (ASCII case folding only).
pub open spec fn ci_eq(a: Seq<char>, b: Seq<char>) -> bool {
    a.len() == b.len() && forall|i: int|
        0 <= i < a.len() ==> low_code(#[trigger] a[i]) == low_code(b[i])
}

/// Strict lexicographic order on character sequences by code point.
pub open spec fn lex_lt(a: Seq<char>, b: Seq<char>) -> bool
    decreases a.len(),
{
    if b.len() == 0 {
        false
    } else if a.len() == 0 {
        true
    } else if (a[0] as int) < (b[0] as int) {
        true
    } else if a[0] == b[0] {
        lex_lt(a.drop_first(), b.drop_first())
    } else {
        false
    }
}

proof fn lemma_trim_front_skip(s: Seq<char>, k: int)
    requires
        0 <= k <= s.len(),
        forall|m: int| 0 <= m < k ==> is_ws(#[trigger] s[m]),
        k == s.len() || !is_ws(s[k]),
    ensures
        trim_front(s) == s.skip(k),
    decreases k,
{
    if k == 0 {
        assert(s.skip(0) =~= s);
    } else {
        assert(is_ws(s[0]));
        lemma_trim_front_skip(s.drop_first(), k - 1);
        assert(s.drop_first().skip(k - 1) =~= s.skip(k));
    }
}

proof fn lemma_trim_back_take(s: Seq<char>, j: int)
    requires
        0 <= j <= s.len(),
        forall|m: int| j <= m < s.len() ==> is_ws(#[trigger] s[m]),
        j == 0 || !is_ws(s[j - 1]),
    ensures
        trim_back(s) == s.take(j),
    decreases s.len() - j,
{
    if j == s.len() {
        assert(s.take(j) =~= s);
    } else {
        assert(is_ws(s.last()));
        lemma_trim_back_take(s.drop_last(), j);
        assert(s.drop_last().take(j) =~= s.take(j));
    }
}

/// Bounds `(i, j)` of the whitespace-trimmed core of `s`, so that
/// `trimmed(s@) == s@.subrange(i, j)`.
pub fn trim_bounds(s: &str) -> (r: (usize, usize))
    ensures
        0 <= r.0 <= r.1 <= s@.len(),
        trimmed(s@) == s@.subrange(r.0 as int, r.1 as int),
{
    let n = s.unicode_len();
    let mut i: usize = 0;
    loop
        invariant
            0 <= i <= n == s@.len(),
            forall|m: int| 0 <= m < i ==> is_ws(#[trigger] s@[m]),
        ensures
            0 <= i <= n == s@.len(),
            forall|m: int| 0 <= m < i ==> is_ws(#[trigger] s@[m]),
            i == n || !is_ws(s@[i as int]),
        decreases n - i,
    {
        if i >= n {
            break;
        }
        let c = s.get_char(i);
        if !(c == ' ' || c == '\t' || c == '\n' || c == '\r') {
            break;
        }
        i = i + 1;
    }
    proof {
        lemma_trim_front_skip(s@, i as int);
    }
    if i == n {
        proof {
            assert(s@.skip(n as int) =~= Seq::<char>::empty());
            assert(trim_back(Seq::<char>::empty()) == Seq::<char>::empty());
            assert(s@.subrange(n as int, n as int) =~= Seq::<char>::empty());
        }
        return (n, n);
    }
    let mut j: usize = n;
    loop
        invariant
            i <= j <= n == s@.len(),
            i < n,
            !is_ws(s@[i as int]),
            forall|m: int| j <= m < n ==> is_ws(#[trigger] s@[m]),
        ensures
            i <= j <= n == s@.len(),
            forall|m: int| j <= m < n ==> is_ws(#[trigger] s@[m]),
            j == i || !is_ws(s@[j - 1]),
        decreases j,
    {
        if j <= i {
            break;
        }
        let c = s.get_char(j - 1);
        if !(c == ' ' || c == '\t' || c == '\n' || c == '\r') {
            break;
        }
        j = j - 1;
    }
    proof {
        // j > i here: s@[i] is not whitespace, so the backward scan stops at or after i + 1.
        let t = s@.skip(i as int);
        assert(forall|m: int| j - i <= m < t.len() ==> is_ws(#[trigger] t[m]));
        assert(t[j - i - 1] == s@[j as int - 1]);
        lemma_trim_back_take(t, j - i);
        assert(t.take(j - i) =~= s@.subrange(i as int, j as int));
    }
    (i, j)
}

/// Bounds `(i, j)` of the whitespace-trimmed core of a character vector, so
/// that `trimmed(v@) == v@.subrange(i, j)`.
pub fn vec_trim_bounds(v: &Vec<char>) -> (r: (usize, usize))
    ensures
        0 <= r.0 <= r.1 <= v@.len(),
        trimmed(v@) == v@.subrange(r.0 as int, r.1 as int),
{
    let n = v.len();
    let mut i: usize = 0;
    loop
        invariant
            0 <= i <= n == v@.len(),
            forall|m: int| 0 <= m < i ==> is_ws(#[trigger] v@[m]),
        ensures
            0 <= i <= n == v@.len(),
            forall|m: int| 0 <= m < i ==> is_ws(#[trigger] v@[m]),
            i == n || !is_ws(v@[i as int]),
        decreases n - i,
    {
        if i >= n {
            break;
        }
        let c = v[i];
        if !(c == ' ' || c == '\t' || c == '\n' || c == '\r') {
            break;
        }
        i = i + 1;
    }
    proof {
        lemma_trim_front_skip(v@, i as int);
    }
    if i == n {
        proof {
            assert(v@.skip(n as int) =~= Seq::<char>::empty());
            assert(v@.subrange(n as int, n as int) =~= Seq::<char>::empty());
        }
        return (n, n);
    }
    let mut j: usize = n;
    loop
        invariant
            i <= j <= n == v@.len(),
            i < n,
            !is_ws(v@[i as int]),
            forall|m: int| j <= m < n ==> is_ws(#[trigger] v@[m]),
        ensures
            i <= j <= n == v@.len(),
            forall|m: int| j <= m < n ==> is_ws(#[trigger] v@[m]),
            j == i || !is_ws(v@[j - 1]),
        decreases j,
    {
        if j <= i {
            break;
        }
        let c = v[j - 1];
        if !(c == ' ' || c == '\t' || c == '\n' || c == '\r') {
            break;
        }
        j = j - 1;
    }
    proof {
        let t = v@.skip(i as int);
        assert(forall|m: int| j - i <= m < t.len() ==> is_ws(#[trigger] t[m]));
        assert(t[j - i - 1] == v@[j as int - 1]);
        lemma_trim_back_take(t, j - i);
        assert(t.take(j - i) =~= v@.subrange(i as int, j as int));
    }
    (i, j)
}

/// The whitespace-trimmed copy of `s`.
pub fn trim_str(s: &str) -> (r: String)
    ensures
        r@ == trimmed(s@),
{
    let (i, j) = trim_bounds(s);
    s.substring_char(i, j).to_owned()
}

/// Exact string equality.
pub fn str_eq(a: &str, b: &str) -> (r: bool)
    ensures
        r == (a@ == b@),
{
    let na = a.unicode_len();
    let nb = b.unicode_len();
    if na != nb {
        return false;
    }
    let mut i: usize = 0;
    while i < na
        invariant
            0 <= i <= na == a@.len(),
            na == nb == b@.len(),
            forall|m: int| 0 <= m < i ==> a@[m] == #[trigger] b@[m],
        decreases na - i,
    {
        if a.get_char(i) != b.get_char(i) {
            return false;
        }
        i = i + 1;
    }
    proof {
        assert(a@ =~= b@);
    }
    true
}

/// Case-insensitive equality of the whitespace-trimmed cores of `a` and `b`
/// (ASCII case folding only).
pub fn str_ci_trim_eq(a: &str, b: &str) -> (r: bool)
    ensures
        r == ci_eq(trimmed(a@), trimmed(b@)),
{
    let (ia, ja) = trim_bounds(a);
    let (ib, jb) = trim_bounds(b);
    let la = ja - ia;
    let lb = jb - ib;
    if la != lb {
        return false;
    }
    let mut m: usize = 0;
    while m < la
        invariant
            0 <= m <= la,
            ia + la == ja <= a@.len(),
            ib + lb == jb <= b@.len(),
            la == lb,
            trimmed(a@) == a@.subrange(ia as int, ja as int),
            trimmed(b@) == b@.subrange(ib as int, jb as int),
            forall|p: int|
                0 <= p < m ==> low_code(#[trigger] trimmed(a@)[p]) == low_code(trimmed(b@)[p]),
        decreases la - m,
    {
        let ca = a.get_char(ia + m);
        let cb = b.get_char(ib + m);
        let xa = ca as u32;
        let xb = cb as u32;
        let fa = if xa >= 65 && xa <= 90 { xa + 32 } else { xa };
        let fb = if xb >= 65 && xb <= 90 { xb + 32 } else { xb };
        proof {
            assert(trimmed(a@)[m as int] == a@[ia + m]);
            assert(trimmed(b@)[m as int] == b@[ib + m]);
        }
        if fa != fb {
            return false;
        }
        m = m + 1;
    }
    true
}

proof fn lemma_lex_lt_skip(a: Seq<char>, b: Seq<char>, i: int)
    requires
        0 <= i <= a.len(),
        i <= b.len(),
        forall|m: int| 0 <= m < i ==> a[m] == #[trigger] b[m],
    ensures
        lex_lt(a, b) == lex_lt(a.skip(i), b.skip(i)),
    decreases i,
{
    if i == 0 {
        assert(a.skip(0) =~= a);
        assert(b.skip(0) =~= b);
    } else {
        assert(a[0] == b[0]);
        assert(a.drop_first().skip(i - 1) =~= a.skip(i));
        assert(b.drop_first().skip(i - 1) =~= b.skip(i));
        assert(forall|m: int|
            0 <= m < i - 1 ==> a.drop_first()[m] == #[trigger] b.drop_first()[m]);
        lemma_lex_lt_skip(a.drop_first(), b.drop_first(), i - 1);
    }
}

/// If neither of two character sequences is lexicographically below the
/// other, they are equal; and the order is asymmetric.
pub proof fn lemma_lex_lt_connected(a: Seq<char>, b: Seq<char>)
    ensures
        !lex_lt(a, b) && !lex_lt(b, a) ==> a == b,
        lex_lt(a, b) ==> !lex_lt(b, a),
    decreases a.len(),
{
    if a.len() == 0 || b.len() == 0 {
        if !lex_lt(a, b) && !lex_lt(b, a) {
            assert(a =~= b);
        }
    } else {
        lemma_lex_lt_connected(a.drop_first(), b.drop_first());
        if !lex_lt(a, b) && !lex_lt(b, a) {
            assert(a[0] == b[0]);
            assert(a.drop_first() =~= b.drop_first());
            assert(a =~= Seq::<char>::empty().push(a[0]) + a.drop_first());
            assert(b =~= Seq::<char>::empty().push(b[0]) + b.drop_first());
        }
    }
}

/// Lexicographic order is transitive.
pub proof fn lemma_lex_lt_trans(a: Seq<char>, b: Seq<char>, c: Seq<char>)
    requires
        lex_lt(a, b),
        lex_lt(b, c),
    ensures
        lex_lt(a, c),
    decreases a.len(),
{
    if c.len() == 0 {
    } else if a.len() == 0 {
    } else {
        // b is nonempty since lex_lt(a, b) with a nonempty requires b nonempty.
        if (a[0] as int) < (b[0] as int) {
            if (b[0] as int) < (c[0] as int) {
            } else {
                assert(b[0] == c[0]);
            }
        } else {
            assert(a[0] == b[0]);
            if (b[0] as int) < (c[0] as int) {
            } else {
                assert(b[0] == c[0]);
                lemma_lex_lt_trans(a.drop_first(), b.drop_first(), c.drop_first());
            }
        }
    }
}

/// Strict lexicographic comparison of two strings.
pub fn str_lt(a: &str, b: &str) -> (r: bool)
    ensures
        r == lex_lt(a@, b@),
{
    let na = a.unicode_len();
    let nb = b.unicode_len();
    let mut i: usize = 0;
    while i < na && i < nb && a.get_char(i) == b.get_char(i)
        invariant
            0 <= i <= na == a@.len(),
            0 <= i <= nb == b@.len(),
            forall|m: int| 0 <= m < i ==> a@[m] == #[trigger] b@[m],
        decreases na - i,
    {
        i = i + 1;
    }
    proof {
        lemma_lex_lt_skip(a@, b@, i as int);
    }
    if i == na {
        i < nb
    } else if i == nb {
        false
    } else {
        (a.get_char(i) as u32) < (b.get_char(i) as u32)
    }
}

} // verus!
