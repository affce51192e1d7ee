//! Date parsing through chrono, and delay-in-days computation.

use vstd::prelude::*;
use crate::text::trimmed;
use crate::text::trim_str;

verus! {

/// Day number that `chrono::NaiveDate::parse_from_str` assigns to text `s`
/// under format `fmt`: a day count in the proleptic Gregorian calendar with
/// January 1 of year 1 as day 1; `None` when the text does not parse under
/// that format. The result is a function of `fmt` and `s` alone.
pub uninterp spec fn date_num_of(fmt: Seq<char>, s: Seq<char>) -> Option<i64>;

/// Strict bound on the magnitude of any day number chrono can return.
pub const MAX_DATE_DAYS: i64 = 96_000_000;

/// Relies on `chrono::NaiveDate::parse_from_str` and
/// `chrono::Datelike::num_days_from_ce`: parses `s` under `fmt` and counts
/// days in the proleptic Gregorian calendar, day 1 being January 1 of year
/// 1. chrono dates span years -262143 through 262142 only, so the day
/// count of any parsed date lies strictly within `MAX_DATE_DAYS`.
#[verifier::external_body]
fn parse_date_chrono(s: &str, fmt: &str) -> (r: Option<i64>)
    ensures
        r == date_num_of(fmt@, s@),
        r matches Some(d) ==> -MAX_DATE_DAYS < d < MAX_DATE_DAYS,
{
    match chrono::NaiveDate::parse_from_str(s, fmt) {
        Ok(d) => Some(chrono::Datelike::num_days_from_ce(&d) as i64),
        Err(_) => None,
    }
}

/// Day number under the first format in `fmts` that parses `s`, or `None`.
pub open spec fn multi_date_of(fmts: Seq<Seq<char>>, s: Seq<char>) -> Option<i64>
    decreases fmts.len(),
{
    if fmts.len() == 0 {
        None
    } else if date_num_of(fmts[0], s) is Some {
        date_num_of(fmts[0], s)
    } else {
        multi_date_of(fmts.drop_first(), s)
    }
}

/// Day number of cell text `s`: the text is trimmed, empty text gives
/// `None`, and otherwise the first format in `fmts` that parses decides.
pub open spec fn date_of(fmts: Seq<Seq<char>>, s: Seq<char>) -> Option<i64> {
    if trimmed(s).len() == 0 {
        None
    } else {
        multi_date_of(fmts, trimmed(s))
    }
}

proof fn lemma_multi_date_skip(fmts: Seq<Seq<char>>, s: Seq<char>, i: int)
    requires
        0 <= i <= fmts.len(),
        forall|m: int| 0 <= m < i ==> date_num_of(#[trigger] fmts[m], s) is None,
    ensures
        multi_date_of(fmts, s) == multi_date_of(fmts.skip(i), s),
    decreases i,
{
    if i == 0 {
        assert(fmts.skip(0) =~= fmts);
    } else {
        assert(fmts.drop_first().skip(i - 1) =~= fmts.skip(i));
        assert(forall|m: int|
            0 <= m < i - 1 ==> date_num_of(#[trigger] fmts.drop_first()[m], s) is None);
        lemma_multi_date_skip(fmts.drop_first(), s, i - 1);
    }
}

/// Parses cell text as a calendar date, trying each format in order, and
/// returns its day number in the proleptic Gregorian calendar.
pub fn parse_date_opt(s: &str, fmts: &Vec<&str>) -> (r: Option<i64>)
    ensures
        r == date_of(fmts.deep_view(), s@),
        r matches Some(d) ==> -MAX_DATE_DAYS < d < MAX_DATE_DAYS,
{
    let t = trim_str(s);
    if t.as_str().unicode_len() == 0 {
        return None;
    }
    let n = fmts.len();
    let mut i: usize = 0;
    while i < n
        invariant
            0 <= i <= n == fmts@.len(),
            t@ == trimmed(s@),
            trimmed(s@).len() > 0,
            forall|m: int|
                0 <= m < i ==> date_num_of(#[trigger] fmts.deep_view()[m], trimmed(s@)) is None,
        decreases n - i,
    {
        let r = parse_date_chrono(t.as_str(), fmts[i]);
        proof {
            assert(fmts.deep_view()[i as int] == fmts@[i as int]@);
        }
        if r.is_some() {
            proof {
                lemma_multi_date_skip(fmts.deep_view(), trimmed(s@), i as int);
                assert(fmts.deep_view().skip(i as int)[0] == fmts.deep_view()[i as int]);
            }
            return r;
        }
        i = i + 1;
    }
    proof {
        lemma_multi_date_skip(fmts.deep_view(), trimmed(s@), n as int);
        assert(fmts.deep_view().skip(n as int) =~= Seq::<Seq<char>>::empty());
    }
    None
}

/// Delay in centidays between two parsed dates: `max(0, end - start)`
/// scaled by 100; zero when either date is missing.
pub open spec fn delay_centi_of(start: Option<i64>, end: Option<i64>) -> int {
    match (start, end) {
        (Some(s), Some(e)) => if e >= s {
            (e - s) * 100
        } else {
            0
        },
        _ => 0,
    }
}

/// Delay in centidays between two day numbers; negative spans and missing
/// dates count as zero.
pub fn delay_centidays(start: Option<i64>, end: Option<i64>) -> (r: i64)
    requires
        start matches Some(d) ==> -MAX_DATE_DAYS < d < MAX_DATE_DAYS,
        end matches Some(d) ==> -MAX_DATE_DAYS < d < MAX_DATE_DAYS,
    ensures
        r as int == delay_centi_of(start, end),
        0 <= r < 200 * MAX_DATE_DAYS,
{
    match (start, end) {
        (Some(s), Some(e)) => {
            if e >= s {
                (e - s) * 100
            } else {
                0
            }
        },
        _ => 0,
    }
}

} // verus!
