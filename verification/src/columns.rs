//! Per-row extraction: reading grouping keys and metric values out of raw
//! string cells through resolved column positions.

use vstd::prelude::*;
use crate::amount::{amount_of, lemma_amount_bounds, parse_amount, MAX_AMOUNT_CENTS};
use crate::dates::{date_of, delay_centi_of, delay_centidays, parse_date_opt, MAX_DATE_DAYS};
use crate::grouping::pair_view;
use crate::text::{trim_str, trimmed};

verus! {

/// View of a column assignment: positions as unbounded integers, formats as
/// character sequences.
pub struct ColumnsView {
    pub key1: Option<int>,
    pub key2: Option<int>,
    pub budget: Option<int>,
    pub cost: Option<int>,
    pub cost_savings: Option<int>,
    pub delay_days: Option<int>,
    pub start_date: Option<int>,
    pub end_date: Option<int>,
    pub primary_is_cost: bool,
    pub date_formats: Seq<Seq<char>>,
}

/// Resolved column positions and parsing choices for one report.
pub struct Columns<'a> {
    /// First grouping dimension.
    pub key1: Option<usize>,
    /// Second grouping dimension; `None` leaves it empty.
    pub key2: Option<usize>,
    pub budget: Option<usize>,
    pub cost: Option<usize>,
    /// When present, savings are read from this column instead of being
    /// computed as budget minus cost.
    pub cost_savings: Option<usize>,
    /// When present, the delay is read from this column, in days;
    /// otherwise it is computed from the two date columns.
    pub delay_days: Option<usize>,
    pub start_date: Option<usize>,
    pub end_date: Option<usize>,
    /// Whether the first metric component carries the contract cost rather
    /// than the budget.
    pub primary_is_cost: bool,
    /// Date formats, tried in order.
    pub date_formats: Vec<&'a str>,
}

/// An `Option<usize>` widened to `Option<int>`.
pub open spec fn opt_int(o: Option<usize>) -> Option<int> {
    match o {
        Option::Some(u) => Option::Some(u as int),
        Option::None => Option::None,
    }
}

impl<'a> View for Columns<'a> {
    type V = ColumnsView;

    open spec fn view(&self) -> ColumnsView {
        ColumnsView {
            key1: opt_int(self.key1),
            key2: opt_int(self.key2),
            budget: opt_int(self.budget),
            cost: opt_int(self.cost),
            cost_savings: opt_int(self.cost_savings),
            delay_days: opt_int(self.delay_days),
            start_date: opt_int(self.start_date),
            end_date: opt_int(self.end_date),
            primary_is_cost: self.primary_is_cost,
            date_formats: self.date_formats.deep_view(),
        }
    }
}

/// The raw text of a cell; empty when the column is absent or the row is
/// short.
pub open spec fn raw_field(row: Seq<Seq<char>>, idx: Option<int>) -> Seq<char> {
    match idx {
        Option::Some(i) => if 0 <= i < row.len() {
            row[i]
        } else {
            Seq::empty()
        },
        Option::None => Seq::empty(),
    }
}

/// The trimmed text of a cell; empty when the column is absent or the row
/// is short.
pub open spec fn string_field(row: Seq<Seq<char>>, idx: Option<int>) -> Seq<char> {
    match idx {
        Option::Some(i) => if 0 <= i < row.len() {
            trimmed(row[i])
        } else {
            Seq::empty()
        },
        Option::None => Seq::empty(),
    }
}

/// The amount in a cell, in cents; zero when the column is absent, the row
/// is short, or the cell is malformed.
pub open spec fn amount_field(row: Seq<Seq<char>>, idx: Option<int>) -> int {
    match idx {
        Option::Some(i) => if 0 <= i < row.len() {
            amount_of(row[i])
        } else {
            0
        },
        Option::None => 0,
    }
}

/// The delay of a row in centidays: read from the delay column when one is
/// assigned (clamped to be non-negative), else computed from the two date
/// columns.
pub open spec fn delay_field(row: Seq<Seq<char>>, c: ColumnsView) -> int {
    if c.delay_days is Some {
        let d = amount_field(row, c.delay_days);
        if d < 0 {
            0
        } else {
            d
        }
    } else {
        delay_centi_of(
            date_of(c.date_formats, raw_field(row, c.start_date)),
            date_of(c.date_formats, raw_field(row, c.end_date)),
        )
    }
}

/// The metric tuple of a row: (budget or cost, savings, delay in
/// centidays).
pub open spec fn metric_of(row: Seq<Seq<char>>, c: ColumnsView) -> (i64, i64, i64) {
    let b = amount_field(row, c.budget);
    let cost = amount_field(row, c.cost);
    let s = if c.cost_savings is Some {
        amount_field(row, c.cost_savings)
    } else {
        b - cost
    };
    let d = delay_field(row, c);
    let prim = if c.primary_is_cost {
        cost
    } else {
        b
    };
    ((prim as i64), (s as i64), (d as i64))
}

/// Key and metric tuple of one row.
pub open spec fn row_pair(row: Seq<Seq<char>>, c: ColumnsView) -> (
    (Seq<char>, Seq<char>),
    (i64, i64, i64),
) {
    ((string_field(row, c.key1), string_field(row, c.key2)), metric_of(row, c))
}

/// Key and metric tuples of all rows.
pub open spec fn pairs_of(rows: Seq<Seq<Seq<char>>>, c: ColumnsView) -> Seq<
    ((Seq<char>, Seq<char>), (i64, i64, i64)),
> {
    rows.map_values(|row: Seq<Seq<char>>| row_pair(row, c))
}

/// Range guarantees on a metric tuple, in cents and centidays.
pub open spec fn metric_bounded(v: (i64, i64, i64)) -> bool {
    &&& -MAX_AMOUNT_CENTS <= v.0 <= MAX_AMOUNT_CENTS
    &&& -2 * MAX_AMOUNT_CENTS <= v.1 <= 2 * MAX_AMOUNT_CENTS
    &&& 0 <= v.2 <= MAX_AMOUNT_CENTS
}

fn get_string_field(row: &Vec<String>, idx: Option<usize>) -> (r: String)
    ensures
        r@ == string_field(row.deep_view(), opt_int(idx)),
{
    match idx {
        Option::Some(i) => {
            if i < row.len() {
                proof {
                    assert(row.deep_view()[i as int] == row@[i as int]@);
                }
                trim_str(row[i].as_str())
            } else {
                String::new()
            }
        },
        Option::None => String::new(),
    }
}

fn get_amount_field(row: &Vec<String>, idx: Option<usize>) -> (r: i64)
    ensures
        r as int == amount_field(row.deep_view(), opt_int(idx)),
        -MAX_AMOUNT_CENTS <= r <= MAX_AMOUNT_CENTS,
{
    match idx {
        Option::Some(i) => {
            if i < row.len() {
                proof {
                    assert(row.deep_view()[i as int] == row@[i as int]@);
                }
                parse_amount(row[i].as_str())
            } else {
                0
            }
        },
        Option::None => 0,
    }
}

fn get_date_field(row: &Vec<String>, idx: Option<usize>, fmts: &Vec<&str>) -> (r: Option<i64>)
    ensures
        r == date_of(fmts.deep_view(), raw_field(row.deep_view(), opt_int(idx))),
        r matches Some(d) ==> -MAX_DATE_DAYS < d < MAX_DATE_DAYS,
{
    match idx {
        Option::Some(i) => {
            if i < row.len() {
                proof {
                    assert(row.deep_view()[i as int] == row@[i as int]@);
                }
                parse_date_opt(row[i].as_str(), fmts)
            } else {
                proof {
                    reveal_strlit("");
                    assert(""@ =~= Seq::<char>::empty());
                    assert(trimmed(Seq::<char>::empty()) == Seq::<char>::empty());
                }
                None
            }
        },
        Option::None => {
            proof {
                reveal_strlit("");
                assert(""@ =~= Seq::<char>::empty());
                assert(trimmed(Seq::<char>::empty()) == Seq::<char>::empty());
            }
            None
        },
    }
}

/// The first components of a metric-tuple list.
pub fn tuple_firsts(vals: &Vec<(i64, i64, i64)>) -> (r: Vec<i64>)
    ensures
        r@ == vals@.map_values(|v: (i64, i64, i64)| v.0),
{
    let n = vals.len();
    let mut r: Vec<i64> = Vec::new();
    let mut i: usize = 0;
    while i < n
        invariant
            0 <= i <= n == vals@.len(),
            r@ == vals@.take(i as int).map_values(|v: (i64, i64, i64)| v.0),
        decreases n - i,
    {
        r.push(vals[i].0);
        proof {
            assert(r@ =~= vals@.take(i + 1).map_values(|v: (i64, i64, i64)| v.0));
        }
        i = i + 1;
    }
    proof {
        assert(vals@.take(n as int) =~= vals@);
    }
    r
}

/// The second components of a metric-tuple list.
pub fn tuple_seconds(vals: &Vec<(i64, i64, i64)>) -> (r: Vec<i64>)
    ensures
        r@ == vals@.map_values(|v: (i64, i64, i64)| v.1),
{
    let n = vals.len();
    let mut r: Vec<i64> = Vec::new();
    let mut i: usize = 0;
    while i < n
        invariant
            0 <= i <= n == vals@.len(),
            r@ == vals@.take(i as int).map_values(|v: (i64, i64, i64)| v.1),
        decreases n - i,
    {
        r.push(vals[i].1);
        proof {
            assert(r@ =~= vals@.take(i + 1).map_values(|v: (i64, i64, i64)| v.1));
        }
        i = i + 1;
    }
    proof {
        assert(vals@.take(n as int) =~= vals@);
    }
    r
}

/// The third components of a metric-tuple list.
pub fn tuple_thirds(vals: &Vec<(i64, i64, i64)>) -> (r: Vec<i64>)
    ensures
        r@ == vals@.map_values(|v: (i64, i64, i64)| v.2),
{
    let n = vals.len();
    let mut r: Vec<i64> = Vec::new();
    let mut i: usize = 0;
    while i < n
        invariant
            0 <= i <= n == vals@.len(),
            r@ == vals@.take(i as int).map_values(|v: (i64, i64, i64)| v.2),
        decreases n - i,
    {
        r.push(vals[i].2);
        proof {
            assert(r@ =~= vals@.take(i + 1).map_values(|v: (i64, i64, i64)| v.2));
        }
        i = i + 1;
    }
    proof {
        assert(vals@.take(n as int) =~= vals@);
    }
    r
}

/// Extracts from every row its grouping key and metric tuple.
pub fn extract_pairs(rows: &Vec<Vec<String>>, cols: &Columns) -> (pairs: Vec<
    ((String, String), (i64, i64, i64)),
>)
    ensures
        pairs@.len() == rows@.len(),
        forall|i: int| 0 <= i < pairs@.len() ==> pair_view(#[trigger] pairs@[i]) == row_pair(
            rows.deep_view()[i],
            cols@,
        ),
        forall|i: int| 0 <= i < pairs@.len() ==> metric_bounded((#[trigger] pairs@[i]).1),
        cols@.delay_days is None ==> forall|i: int|
            0 <= i < pairs@.len() ==> 0 <= (#[trigger] pairs@[i]).1.2 < 200 * MAX_DATE_DAYS,
{
    let n = rows.len();
    let mut pairs: Vec<((String, String), (i64, i64, i64))> = Vec::new();
    let mut i: usize = 0;
    while i < n
        invariant
            0 <= i <= n == rows@.len(),
            pairs@.len() == i,
            forall|m: int| 0 <= m < i ==> pair_view(#[trigger] pairs@[m]) == row_pair(
                rows.deep_view()[m],
                cols@,
            ),
            forall|m: int| 0 <= m < i ==> metric_bounded((#[trigger] pairs@[m]).1),
            cols@.delay_days is None ==> forall|m: int|
                0 <= m < i ==> 0 <= (#[trigger] pairs@[m]).1.2 < 200 * MAX_DATE_DAYS,
        decreases n - i,
    {
        let row = &rows[i];
        proof {
            assert(rows.deep_view()[i as int] == rows@[i as int].deep_view());
        }
        let ghost rv = rows.deep_view()[i as int];
        let k1 = get_string_field(row, cols.key1);
        let k2 = get_string_field(row, cols.key2);
        let b = get_amount_field(row, cols.budget);
        let cost = get_amount_field(row, cols.cost);
        let s: i64 = if cols.cost_savings.is_some() {
            get_amount_field(row, cols.cost_savings)
        } else {
            b - cost
        };
        let d: i64 = if cols.delay_days.is_some() {
            let dd = get_amount_field(row, cols.delay_days);
            if dd < 0 {
                0
            } else {
                dd
            }
        } else {
            let sd = get_date_field(row, cols.start_date, &cols.date_formats);
            let ed = get_date_field(row, cols.end_date, &cols.date_formats);
            delay_centidays(sd, ed)
        };
        let prim: i64 = if cols.primary_is_cost {
            cost
        } else {
            b
        };
        pairs.push(((k1, k2), (prim, s, d)));
        proof {
            assert(pair_view(pairs@[i as int]) == row_pair(rv, cols@));
        }
        i = i + 1;
    }
    pairs
}

} // verus!
