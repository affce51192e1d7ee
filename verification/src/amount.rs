//! Parsing of currency-formatted cell text into fixed-point cents.
//!
//! The accepted grammar, after removing every comma (thousands separator)
//! and trimming ASCII whitespace, is: an optional `+` or `-` sign, then
//! decimal digits with at most one decimal point, with at least one digit
//! overall. Fractional digits beyond the first two are ignored. Text not of
//! this shape, and values whose magnitude exceeds `MAX_AMOUNT_CENTS`, parse
//! to zero: a malformed cell must not abort aggregation of the other rows.

use vstd::prelude::*;
use crate::text::{is_ws, trimmed, vec_trim_bounds};

verus! {

/// Largest accepted magnitude, in cents (ten trillion currency units).
pub const MAX_AMOUNT_CENTS: i64 = 1_000_000_000_000_000;

/// Largest accepted integer part, in whole currency units.
pub const MAX_AMOUNT_UNITS: i64 = 10_000_000_000_000;

/// Numeric value of a digit character, or `-1` for any other character.
pub open spec fn dval(c: char) -> int {
    if c == '0' {
        0
    } else if c == '1' {
        1
    } else if c == '2' {
        2
    } else if c == '3' {
        3
    } else if c == '4' {
        4
    } else if c == '5' {
        5
    } else if c == '6' {
        6
    } else if c == '7' {
        7
    } else if c == '8' {
        8
    } else if c == '9' {
        9
    } else {
        -1
    }
}

/// A decimal digit.
pub open spec fn is_digit(c: char) -> bool {
    dval(c) >= 0
}

/// Numeric value of a digit character, or `-1` for any other character.
pub fn digit_of(c: char) -> (d: i64)
    ensures
        d as int == dval(c),
        -1 <= d <= 9,
{
    if c == '0' {
        0
    } else if c == '1' {
        1
    } else if c == '2' {
        2
    } else if c == '3' {
        3
    } else if c == '4' {
        4
    } else if c == '5' {
        5
    } else if c == '6' {
        6
    } else if c == '7' {
        7
    } else if c == '8' {
        8
    } else if c == '9' {
        9
    } else {
        -1
    }
}

/// Value of a digit string read in base ten.
pub open spec fn digits_val(s: Seq<char>) -> int
    decreases s.len(),
{
    if s.len() == 0 {
        0
    } else {
        digits_val(s.drop_last()) * 10 + dval(s.last())
    }
}

/// Every character is a decimal digit.
pub open spec fn all_digits(s: Seq<char>) -> bool {
    forall|i: int| 0 <= i < s.len() ==> is_digit(#[trigger] s[i])
}

/// Index of the first decimal point, or `s.len()` if there is none.
pub open spec fn find_dot(s: Seq<char>) -> int
    decreases s.len(),
{
    if s.len() == 0 {
        0
    } else if s[0] == '.' {
        0
    } else {
        1 + find_dot(s.drop_first())
    }
}

/// Cents contributed by the fractional digit string: the first two digits,
/// the rest ignored.
pub open spec fn frac_cents(f: Seq<char>) -> int {
    if f.len() == 0 {
        0
    } else if f.len() == 1 {
        dval(f[0]) * 10
    } else {
        dval(f[0]) * 10 + dval(f[1])
    }
}

/// `s` with commas removed and whitespace trimmed.
pub open spec fn cleaned(s: Seq<char>) -> Seq<char> {
    trimmed(s.filter(|c: char| c != ','))
}

/// The amount denoted by cell text `s`, in cents; zero when `s` is not a
/// well-formed amount or its magnitude exceeds `MAX_AMOUNT_CENTS`.
pub open spec fn amount_of(s: Seq<char>) -> int {
    let t = cleaned(s);
    let sign: int = if t.len() > 0 && t[0] == '-' {
        -1
    } else {
        1
    };
    let body = if t.len() > 0 && (t[0] == '-' || t[0] == '+') {
        t.drop_first()
    } else {
        t
    };
    let d = find_dot(body);
    let ip = body.take(d);
    let fp = if d < body.len() {
        body.skip(d + 1)
    } else {
        Seq::<char>::empty()
    };
    if ip.len() + fp.len() > 0 && all_digits(ip) && all_digits(fp) {
        let mag = digits_val(ip) * 100 + frac_cents(fp);
        if mag <= MAX_AMOUNT_CENTS {
            sign * mag
        } else {
            0
        }
    } else {
        0
    }
}

proof fn lemma_find_dot_le(s: Seq<char>)
    ensures
        0 <= find_dot(s) <= s.len(),
    decreases s.len(),
{
    if s.len() > 0 && s[0] != '.' {
        lemma_find_dot_le(s.drop_first());
    }
}

proof fn lemma_find_dot_ge(s: Seq<char>, k: int)
    requires
        0 <= k <= s.len(),
        forall|m: int| 0 <= m < k ==> s[m] != '.',
    ensures
        find_dot(s) >= k,
    decreases k,
{
    lemma_find_dot_le(s);
    if k > 0 {
        lemma_find_dot_ge(s.drop_first(), k - 1);
    }
}

proof fn lemma_find_dot_at(s: Seq<char>, k: int)
    requires
        0 <= k <= s.len(),
        forall|m: int| 0 <= m < k ==> s[m] != '.',
        k == s.len() || s[k] == '.',
    ensures
        find_dot(s) == k,
    decreases k,
{
    if k > 0 {
        lemma_find_dot_at(s.drop_first(), k - 1);
    }
}

proof fn lemma_digits_val_nonneg(s: Seq<char>)
    requires
        all_digits(s),
    ensures
        digits_val(s) >= 0,
    decreases s.len(),
{
    if s.len() > 0 {
        assert(forall|i: int|
            0 <= i < s.drop_last().len() ==> is_digit(#[trigger] s.drop_last()[i]));
        lemma_digits_val_nonneg(s.drop_last());
        assert(is_digit(s.last()));
    }
}

/// Every parsed amount lies within `MAX_AMOUNT_CENTS` in magnitude.
pub proof fn lemma_amount_bounds(s: Seq<char>)
    ensures
        -MAX_AMOUNT_CENTS <= amount_of(s) <= MAX_AMOUNT_CENTS,
{
    let t = cleaned(s);
    let body = if t.len() > 0 && (t[0] == '-' || t[0] == '+') {
        t.drop_first()
    } else {
        t
    };
    let d = find_dot(body);
    let ip = body.take(d);
    let fp = if d < body.len() {
        body.skip(d + 1)
    } else {
        Seq::<char>::empty()
    };
    if ip.len() + fp.len() > 0 && all_digits(ip) && all_digits(fp) {
        lemma_digits_val_nonneg(ip);
        assert(frac_cents(fp) >= 0);
        assert(frac_cents(fp) <= 99);
        let sign: int = if t.len() > 0 && t[0] == '-' {
            -1
        } else {
            1
        };
        let mag = digits_val(ip) * 100 + frac_cents(fp);
        assert(mag >= 0);
        if sign == 1 {
            assert(sign * mag == mag);
        } else {
            assert(sign * mag == -mag);
        }
    }
}

/// Parses currency-formatted cell text into cents, two decimal places.
pub fn parse_amount(s: &str) -> (r: i64)
    ensures
        r as int == amount_of(s@),
        -MAX_AMOUNT_CENTS <= r <= MAX_AMOUNT_CENTS,
{
    let n = s.unicode_len();
    let mut v: Vec<char> = Vec::new();
    let mut i: usize = 0;
    while i < n
        invariant
            0 <= i <= n == s@.len(),
            v@ == s@.take(i as int).filter(|c: char| c != ','),
        decreases n - i,
    {
        let c = s.get_char(i);
        proof {
            reveal(Seq::filter);
            assert(s@.take(i + 1).drop_last() =~= s@.take(i as int));
            assert(s@.take(i + 1).last() == s@[i as int]);
        }
        if c != ',' {
            v.push(c);
        }
        i = i + 1;
    }
    proof {
        assert(s@.take(n as int) =~= s@);
    }
    let ghost t = cleaned(s@);
    let (lo, hi) = vec_trim_bounds(&v);
    assert(t == v@.subrange(lo as int, hi as int));

    // Sign.
    let mut p: usize = lo;
    let mut neg = false;
    if p < hi {
        let c = v[p];
        if c == '-' {
            neg = true;
            p = p + 1;
        } else if c == '+' {
            p = p + 1;
        }
    }
    let ghost body = if t.len() > 0 && (t[0] == '-' || t[0] == '+') {
        t.drop_first()
    } else {
        t
    };
    proof {
        assert(body =~= v@.subrange(p as int, hi as int));
    }

    // Integer part, up to the first decimal point.
    let mut iv: i64 = 0;
    let mut big = false;
    let mut q: usize = p;
    loop
        invariant
            lo <= p <= q <= hi <= v@.len(),
            body == v@.subrange(p as int, hi as int),
            t == v@.subrange(lo as int, hi as int),
            t == cleaned(s@),
            neg == (t.len() > 0 && t[0] == '-'),
            body == (if t.len() > 0 && (t[0] == '-' || t[0] == '+') {
                t.drop_first()
            } else {
                t
            }),
            forall|m: int| p <= m < q ==> v@[m] != '.',
            forall|m: int| p <= m < q ==> is_digit(#[trigger] v@[m]),
            0 <= iv,
            digits_val(v@.subrange(p as int, q as int)) >= 0,
            !big ==> iv as int == digits_val(v@.subrange(p as int, q as int))
                && iv <= MAX_AMOUNT_UNITS,
            big ==> digits_val(v@.subrange(p as int, q as int)) > MAX_AMOUNT_UNITS,
        ensures
            lo <= p <= q <= hi,
            forall|m: int| p <= m < q ==> v@[m] != '.',
            forall|m: int| p <= m < q ==> is_digit(#[trigger] v@[m]),
            0 <= iv,
            digits_val(v@.subrange(p as int, q as int)) >= 0,
            !big ==> iv as int == digits_val(v@.subrange(p as int, q as int))
                && iv <= MAX_AMOUNT_UNITS,
            big ==> digits_val(v@.subrange(p as int, q as int)) > MAX_AMOUNT_UNITS,
            q == hi || v@[q as int] == '.',
        decreases hi - q,
    {
        if q >= hi {
            break;
        }
        let c = v[q];
        if c == '.' {
            break;
        }
        let d = digit_of(c);
        if d < 0 {
            // A non-digit in the integer part: the whole cell is malformed.
            proof {
                lemma_find_dot_le(body);
                lemma_find_dot_ge(body, q - p + 1);
                let fd = find_dot(body);
                let ip = body.take(fd);
                assert(ip[q - p] == v@[q as int]);
                assert(!is_digit(ip[q - p]));
                assert(!all_digits(ip));
                assert(amount_of(s@) == 0);
            }
            return 0;
        }
        proof {
            assert(v@.subrange(p as int, q + 1).drop_last() =~= v@.subrange(p as int, q as int));
            assert(v@.subrange(p as int, q + 1).last() == v@[q as int]);
            assert(dval(v@[q as int]) == d as int);
        }
        if !big {
            let nv = iv * 10 + d;
            if nv > MAX_AMOUNT_UNITS {
                big = true;
            } else {
                iv = nv;
            }
        }
        q = q + 1;
    }
    proof {
        lemma_find_dot_at(body, q - p);
    }
    let ghost dot = (q - p) as int;
    let ghost ip = body.take(dot);
    proof {
        assert(ip =~= v@.subrange(p as int, q as int));
        assert(all_digits(ip));
    }

    // Fraction part.
    let mut fc: i64 = 0;
    let dot_present = q < hi;
    let mut w: usize = q;
    if dot_present {
        w = q + 1;
        let ghost fp = body.skip(dot + 1);
        proof {
            assert(fp =~= v@.subrange(w as int, hi as int));
        }
        let mut u: usize = w;
        while u < hi
            invariant
                lo <= p <= q < hi <= v@.len(),
                w == q + 1,
                w <= u <= hi,
                t == v@.subrange(lo as int, hi as int),
                t == cleaned(s@),
                body == v@.subrange(p as int, hi as int),
                body == (if t.len() > 0 && (t[0] == '-' || t[0] == '+') {
                    t.drop_first()
                } else {
                    t
                }),
                dot == q - p,
                find_dot(body) == dot,
                dot < body.len(),
                fp == body.skip(dot + 1),
                fp == v@.subrange(w as int, hi as int),
                forall|m: int| w <= m < u ==> is_digit(#[trigger] v@[m]),
                0 <= fc <= 99,
                fc as int == frac_cents(v@.subrange(w as int, u as int)),
            decreases hi - u,
        {
            let c = v[u];
            let d = digit_of(c);
            if d < 0 {
                // A non-digit in the fraction: the whole cell is malformed.
                proof {
                    assert(fp[u - w] == v@[u as int]);
                    assert(!is_digit(fp[u - w]));
                    assert(!all_digits(fp));
                    assert(amount_of(s@) == 0);
                }
                return 0;
            }
            proof {
                let pre = v@.subrange(w as int, u as int);
                let ext = v@.subrange(w as int, u + 1);
                assert(ext.drop_last() =~= pre);
                assert(ext[ext.len() - 1] == v@[u as int]);
                assert(dval(v@[u as int]) == d as int);
            }
            if u == w {
                fc = d * 10;
            } else if u == w + 1 {
                fc = fc + d;
            }
            u = u + 1;
        }
        proof {
            assert(fp =~= v@.subrange(w as int, hi as int));
            assert(all_digits(fp));
        }
    }
    let ghost fp = if dot < body.len() {
        body.skip(dot + 1)
    } else {
        Seq::<char>::empty()
    };
    proof {
        if !dot_present {
            assert(fp =~= Seq::<char>::empty());
            assert(frac_cents(fp) == 0);
        } else {
            assert(fp =~= v@.subrange(w as int, hi as int));
        }
    }

    // Assemble.
    let saw_digit = (q > p) || (dot_present && hi > w);
    if !saw_digit {
        proof {
            assert(ip.len() == 0);
            assert(fp.len() == 0);
            assert(amount_of(s@) == 0);
        }
        return 0;
    }
    if big {
        proof {
            let mag = digits_val(ip) * 100 + frac_cents(fp);
            assert(frac_cents(fp) >= 0);
            assert(mag > MAX_AMOUNT_CENTS);
            assert(amount_of(s@) == 0);
        }
        return 0;
    }
    let mag = iv * 100 + fc;
    if mag > MAX_AMOUNT_CENTS {
        return 0;
    }
    proof {
        assert(digits_val(ip) == iv as int);
        assert(frac_cents(fp) == fc as int);
        assert(ip.len() + fp.len() > 0);
        assert(all_digits(ip) && all_digits(fp));
        let t2 = cleaned(s@);
        let sign2: int = if t2.len() > 0 && t2[0] == '-' {
            -1
        } else {
            1
        };
        let body2 = if t2.len() > 0 && (t2[0] == '-' || t2[0] == '+') {
            t2.drop_first()
        } else {
            t2
        };
        let d2 = find_dot(body2);
        let ip2 = body2.take(d2);
        let fp2 = if d2 < body2.len() {
            body2.skip(d2 + 1)
        } else {
            Seq::<char>::empty()
        };
        assert(t2 == t);
        assert(body2 == body);
        assert(d2 == dot);
        assert(ip2 == ip);
        assert(fp2 == fp);
        assert(sign2 == (if neg { -1int } else { 1int }));
        assert(digits_val(ip2) * 100 + frac_cents(fp2) == mag as int);
        assert(mag <= MAX_AMOUNT_CENTS);
        assert(amount_of(s@) == sign2 * (mag as int));
        assert(amount_of(s@) == (if neg {
            -(mag as int)
        } else {
            mag as int
        }));
    }
    if neg {
        -mag
    } else {
        mag
    }
}

} // verus!
