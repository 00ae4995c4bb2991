use crate::calendar::{
    chrono_days_between, days_before_month, last_day_of_month, CalendarDate, MAX_YEAR, MIN_YEAR,
};
use vstd::prelude::*;

verus! {

/// Why a batch of pairs could not be processed.
#[derive(Clone, Copy, Debug, PartialEq, Eq, Structural)]
pub enum MonthDeltaError {
    /// The two sequences of dates differ in length.
    InvalidInput,
}

/// Absolute value.
pub open spec fn abs(x: int) -> int {
    if x < 0 {
        -x
    } else {
        x
    }
}

/// Month count from `s` to `e` that looks at year and month only.
pub open spec fn naive_month_span(s: CalendarDate, e: CalendarDate) -> int {
    (e.year - s.year) * 12 + (e.month - s.month)
}

/// Signed number of days from `s` to `e`.
pub open spec fn day_span(s: CalendarDate, e: CalendarDate) -> int {
    e.day_number() - s.day_number()
}

/// Signed number of days from the first of `s`'s month to the first of `e`'s month.
pub open spec fn anchor_span(s: CalendarDate, e: CalendarDate) -> int {
    day_span(s.first_of_month_spec(), e.first_of_month_spec())
}

/// The day span equals the span between the month starts, while both the
/// months and the days of the month differ: one more month is counted.
pub open spec fn spans_extra_month(s: CalendarDate, e: CalendarDate) -> bool {
    &&& day_span(s, e) == anchor_span(s, e)
    &&& e.month != s.month
    &&& e.day != s.day
}

/// Fewer days passed than between the month starts: one month fewer is counted.
pub open spec fn falls_short(s: CalendarDate, e: CalendarDate) -> bool {
    abs(anchor_span(s, e)) > abs(day_span(s, e))
}

/// Both dates end their months, on different days of the month and in different
/// months: one more month is counted.
pub open spec fn both_month_ends(s: CalendarDate, e: CalendarDate) -> bool {
    &&& e.day == e.last_of_month_spec().day
    &&& s.day == s.last_of_month_spec().day
    &&& e.day != s.day
    &&& s.month != e.month
}

/// Number of whole months from `s` to `e`, negative where `e` comes first in the
/// naive count: the naive count's magnitude, corrected by each condition that
/// holds, with the naive count's sign.
pub open spec fn month_delta_spec(s: CalendarDate, e: CalendarDate) -> int {
    let m = naive_month_span(s, e);
    let a = abs(m) + (if spans_extra_month(s, e) {
        1int
    } else {
        0
    }) + (if both_month_ends(s, e) {
        1int
    } else {
        0
    }) - (if falls_short(s, e) {
        1int
    } else {
        0
    });
    if m < 0 {
        -a
    } else {
        a
    }
}

/// The result for one pair of optional dates: absent where either date is.
pub open spec fn pair_delta_spec(s: Option<CalendarDate>, e: Option<CalendarDate>) -> Option<int> {
    match (s, e) {
        (Some(a), Some(b)) => Some(month_delta_spec(a, b)),
        _ => None,
    }
}

proof fn lemma_days_before_month_bounds(year: int, month: int)
    requires
        1 <= month <= 12,
    ensures
        0 <= days_before_month(year, month) <= 31 * (month - 1),
    decreases month,
{
    if month > 1 {
        lemma_days_before_month_bounds(year, month - 1);
    }
}

proof fn lemma_day_number_bounds(d: CalendarDate)
    requires
        d.wf(),
    ensures
        -100_000_000 <= d.day_number() <= 100_000_000,
{
    lemma_days_before_month_bounds(d.year as int, d.month as int);
    let y = d.year - 1;
    assert(MIN_YEAR - 1 <= y < MAX_YEAR);
    assert(-100_000 <= y / 4 <= 100_000);
    assert(-10_000 <= y / 100 <= 10_000);
    assert(-1_000 <= y / 400 <= 1_000);
    assert(-96_000_000 <= 365 * y <= 96_000_000) by (nonlinear_arith)
        requires
            MIN_YEAR - 1 <= y < MAX_YEAR,
    ;
}

/// Number of whole months from `start` to `end`, negative where `end` lies in
/// an earlier month.
pub fn month_delta(start: CalendarDate, end: CalendarDate) -> (r: i32)
    requires
        start.wf(),
        end.wf(),
    ensures
        r == month_delta_spec(start, end),
{
    let month_diff: i32 = (end.year - start.year) * 12 + (end.month as i32 - start.month as i32);

    let actual_days: i64 = chrono_days_between(start, end);
    let expected_days: i64 = chrono_days_between(start.first_of_month(), end.first_of_month());
    proof {
        lemma_day_number_bounds(start);
        lemma_day_number_bounds(end);
        lemma_day_number_bounds(start.first_of_month_spec());
        lemma_day_number_bounds(end.first_of_month_spec());
    }

    let addition_condition: bool = actual_days == expected_days && end.month != start.month
        && end.day != start.day;

    let abs_actual: i64 = if actual_days < 0 {
        -actual_days
    } else {
        actual_days
    };
    let abs_expected: i64 = if expected_days < 0 {
        -expected_days
    } else {
        expected_days
    };
    let subtraction_condition: bool = abs_expected > abs_actual;

    let end_month_end = last_day_of_month(end);
    let start_month_end = last_day_of_month(start);
    let last_month_days: bool = end.day == end_month_end.day && start.day == start_month_end.day
        && end.day != start.day && start.month != end.month;

    let mut abs_month_diff: i32 = if month_diff < 0 {
        -month_diff
    } else {
        month_diff
    };
    if addition_condition {
        abs_month_diff += 1;
    }
    if last_month_days {
        abs_month_diff += 1;
    }
    if subtraction_condition {
        abs_month_diff -= 1;
    }

    if month_diff < 0 {
        -abs_month_diff
    } else {
        abs_month_diff
    }
}

/// Every present date in the sequence is well formed.
pub open spec fn present_dates_wf(v: Seq<Option<CalendarDate>>) -> bool {
    forall|i: int| 0 <= i < v.len() && v[i] is Some ==> (#[trigger] v[i])->Some_0.wf()
}

/// An optional result read as an optional mathematical integer.
pub open spec fn widen(o: Option<i32>) -> Option<int> {
    match o {
        Some(x) => Some(x as int),
        None => None,
    }
}

/// Month deltas of the pairs `starts[i]`, `ends[i]`, index by index; an entry is
/// absent where either date of its pair is. Sequences of different lengths are
/// refused with `InvalidInput`.
pub fn impl_month_delta(starts: &Vec<Option<CalendarDate>>, ends: &Vec<Option<CalendarDate>>) -> (r:
    Result<Vec<Option<i32>>, MonthDeltaError>)
    requires
        present_dates_wf(starts@),
        present_dates_wf(ends@),
    ensures
        r is Err <==> starts@.len() != ends@.len(),
        r is Err ==> r->Err_0 == MonthDeltaError::InvalidInput,
        r is Ok ==> r->Ok_0@.len() == starts@.len(),
        r is Ok ==> forall|i: int|
            0 <= i < starts@.len() ==> widen(#[trigger] r->Ok_0@[i]) == pair_delta_spec(
                starts@[i],
                ends@[i],
            ),
        r is Ok ==> forall|i: int|
            0 <= i < starts@.len() && (starts@[i] is None || ends@[i] is None) ==> (
            #[trigger] r->Ok_0@[i]) is None,
{
    if starts.len() != ends.len() {
        return Err(MonthDeltaError::InvalidInput);
    }
    let n = starts.len();
    let mut out: Vec<Option<i32>> = Vec::with_capacity(n);
    let mut i: usize = 0;
    while i < n
        invariant
            n == starts@.len(),
            n == ends@.len(),
            i <= n,
            present_dates_wf(starts@),
            present_dates_wf(ends@),
            out@.len() == i,
            forall|j: int| 0 <= j < i ==> widen(#[trigger] out@[j]) == pair_delta_spec(starts@[j], ends@[j]),
        decreases n - i,
    {
        let item: Option<i32> = match (starts[i], ends[i]) {
            (Some(s), Some(e)) => {
                assert(starts@[i as int] is Some);
                assert(ends@[i as int] is Some);
                Some(month_delta(s, e))
            },
            _ => None,
        };
        out.push(item);
        i += 1;
    }
    Ok(out)
}

/// A date is zero months away from itself.
pub proof fn lemma_month_delta_same_date(d: CalendarDate)
    requires
        d.wf(),
    ensures
        month_delta_spec(d, d) == 0,
{
}

/// Swapping the two dates negates the month delta.
pub proof fn lemma_month_delta_antisymmetric(s: CalendarDate, e: CalendarDate)
    requires
        s.wf(),
        e.wf(),
    ensures
        month_delta_spec(s, e) == -month_delta_spec(e, s),
{
    let m = naive_month_span(s, e);
    assert(naive_month_span(e, s) == -m);
    if m == 0 {
        assert(s.year == e.year) by (nonlinear_arith)
            requires
                m == (e.year - s.year) * 12 + (e.month - s.month),
                m == 0,
                1 <= s.month <= 12,
                1 <= e.month <= 12,
        ;
        assert(s.first_of_month_spec() == e.first_of_month_spec());
    }
}

/// Two dates on the same day of the month are exactly their naive month count
/// apart: no correction applies.
pub proof fn lemma_month_delta_same_day(s: CalendarDate, e: CalendarDate)
    requires
        s.wf(),
        e.wf(),
        s.day == e.day,
    ensures
        month_delta_spec(s, e) == (e.year - s.year) * 12 + (e.month - s.month),
{
    assert(day_span(s, e) == anchor_span(s, e));
}

} // verus!
