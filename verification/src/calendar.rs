//! Calendar dates as day numbers, weekdays, and the window of candidate dates
//! that a poll asks about.

use chrono::Datelike;
use vstd::prelude::*;

verus! {

/// The earliest day number that names a date.
pub const MIN_DAY: i32 = -95_746_129;

/// The latest day number that names a date.
pub const MAX_DAY: i32 = 95_745_399;

/// A date is the number of its day in the proleptic Gregorian calendar,
/// counted so that 1 January of year 1 is day 1.
pub open spec fn is_date(day: int) -> bool {
    MIN_DAY <= day <= MAX_DAY
}

/// A day of the week.
#[derive(Clone, Copy, Debug, PartialEq, Eq, Structural)]
pub enum Weekday {
    Mon,
    Tue,
    Wed,
    Thu,
    Fri,
    Sat,
    Sun,
}

impl Weekday {
    /// The number of days since Monday.
    pub open spec fn index(self) -> int {
        match self {
            Weekday::Mon => 0,
            Weekday::Tue => 1,
            Weekday::Wed => 2,
            Weekday::Thu => 3,
            Weekday::Fri => 4,
            Weekday::Sat => 5,
            Weekday::Sun => 6,
        }
    }

    /// The weekday that lies `i` days after a Monday, for `i` from 0 to 6.
    pub open spec fn from_index(i: int) -> Weekday {
        if i == 0 {
            Weekday::Mon
        } else if i == 1 {
            Weekday::Tue
        } else if i == 2 {
            Weekday::Wed
        } else if i == 3 {
            Weekday::Thu
        } else if i == 4 {
            Weekday::Fri
        } else if i == 5 {
            Weekday::Sat
        } else {
            Weekday::Sun
        }
    }
}

/// The weekday of a day number: day 1 is a Monday, and the weekdays repeat
/// every seven days.
pub open spec fn weekday_of(day: int) -> Weekday {
    Weekday::from_index((day + 6) % 7)
}

/// Trusted: `chrono::NaiveDate::from_num_days_from_ce_opt` followed by
/// `chrono::Datelike::weekday`. The first takes the number of a day in the
/// proleptic Gregorian calendar with 1 January of year 1 as day 1 and gives
/// the date for every number from `MIN_DAY` to `MAX_DAY`; the second gives
/// that date's day of the week. The contract claims that this is the weekday
/// that follows from day 1 being a Monday.
#[verifier::external_body]
fn chrono_weekday(day: i32) -> (w: Weekday)
    requires
        is_date(day as int),
    ensures
        w == weekday_of(day as int),
{
    match chrono::NaiveDate::from_num_days_from_ce_opt(day).unwrap().weekday() {
        chrono::Weekday::Mon => Weekday::Mon,
        chrono::Weekday::Tue => Weekday::Tue,
        chrono::Weekday::Wed => Weekday::Wed,
        chrono::Weekday::Thu => Weekday::Thu,
        chrono::Weekday::Fri => Weekday::Fri,
        chrono::Weekday::Sat => Weekday::Sat,
        chrono::Weekday::Sun => Weekday::Sun,
    }
}

/// The day of the week on which a date falls.
pub fn weekday(day: i32) -> (w: Weekday)
    requires
        is_date(day as int),
    ensures
        w == weekday_of(day as int),
{
    chrono_weekday(day)
}

/// A set of weekdays, one flag for each day of the week.
#[derive(Clone, Copy, Debug)]
pub struct Weekdays {
    pub mon: bool,
    pub tue: bool,
    pub wed: bool,
    pub thu: bool,
    pub fri: bool,
    pub sat: bool,
    pub sun: bool,
}

impl View for Weekdays {
    type V = Set<Weekday>;

    open spec fn view(&self) -> Set<Weekday> {
        Set::new(|w: Weekday| self.has(w))
    }
}

impl Weekdays {
    /// Whether the flag of `w` is set.
    pub open spec fn has(self, w: Weekday) -> bool {
        match w {
            Weekday::Mon => self.mon,
            Weekday::Tue => self.tue,
            Weekday::Wed => self.wed,
            Weekday::Thu => self.thu,
            Weekday::Fri => self.fri,
            Weekday::Sat => self.sat,
            Weekday::Sun => self.sun,
        }
    }

    /// The empty set.
    pub fn none() -> (days: Weekdays)
        ensures
            days@ == Set::<Weekday>::empty(),
    {
        let days = Weekdays {
            mon: false,
            tue: false,
            wed: false,
            thu: false,
            fri: false,
            sat: false,
            sun: false,
        };
        assert(days@ =~= Set::<Weekday>::empty());
        days
    }

    /// Saturday and Sunday: the days a poll asks about when none are named.
    pub fn weekend() -> (days: Weekdays)
        ensures
            days@ == Set::<Weekday>::empty().insert(Weekday::Sat).insert(Weekday::Sun),
    {
        let days = Weekdays {
            mon: false,
            tue: false,
            wed: false,
            thu: false,
            fri: false,
            sat: true,
            sun: true,
        };
        assert(days@ =~= Set::<Weekday>::empty().insert(Weekday::Sat).insert(Weekday::Sun));
        days
    }

    /// Whether `w` is in the set.
    pub fn contains(&self, w: Weekday) -> (found: bool)
        ensures
            found == self@.contains(w),
            found == self.has(w),
    {
        match w {
            Weekday::Mon => self.mon,
            Weekday::Tue => self.tue,
            Weekday::Wed => self.wed,
            Weekday::Thu => self.thu,
            Weekday::Fri => self.fri,
            Weekday::Sat => self.sat,
            Weekday::Sun => self.sun,
        }
    }

    /// Adds `w` to the set.
    pub fn insert(&mut self, w: Weekday)
        ensures
            final(self)@ == old(self)@.insert(w),
    {
        match w {
            Weekday::Mon => { self.mon = true; },
            Weekday::Tue => { self.tue = true; },
            Weekday::Wed => { self.wed = true; },
            Weekday::Thu => { self.thu = true; },
            Weekday::Fri => { self.fri = true; },
            Weekday::Sat => { self.sat = true; },
            Weekday::Sun => { self.sun = true; },
        }
        assert(self@ =~= old(self)@.insert(w));
    }

    /// Whether no weekday is in the set.
    pub fn is_empty(&self) -> (empty: bool)
        ensures
            empty == (self@ == Set::<Weekday>::empty()),
    {
        let empty = !(self.mon || self.tue || self.wed || self.thu || self.fri || self.sat
            || self.sun);
        proof {
            if empty {
                assert(self@ =~= Set::<Weekday>::empty());
            } else {
                let w = if self.mon {
                    Weekday::Mon
                } else if self.tue {
                    Weekday::Tue
                } else if self.wed {
                    Weekday::Wed
                } else if self.thu {
                    Weekday::Thu
                } else if self.fri {
                    Weekday::Fri
                } else if self.sat {
                    Weekday::Sat
                } else {
                    Weekday::Sun
                };
                assert(self@.contains(w));
            }
        }
        empty
    }
}

/// The first Saturday that lies strictly after `today`.
pub open spec fn first_saturday_after(today: int) -> int {
    today + 7 - (today + 1) % 7
}

/// `first_saturday_after` names a Saturday after `today`, at most a week
/// away, and no day between the two is a Saturday.
pub proof fn lemma_first_saturday_after(today: int)
    ensures
        today < first_saturday_after(today) <= today + 7,
        weekday_of(first_saturday_after(today)) == Weekday::Sat,
        forall|d: int|
            today < d < first_saturday_after(today) ==> #[trigger] weekday_of(d) != Weekday::Sat,
{
    let sat = first_saturday_after(today);
    assert((sat + 6) % 7 == 5) by {
        assert(sat + 1 == (today + 1) - (today + 1) % 7 + 7);
        assert(((today + 1) - (today + 1) % 7) % 7 == 0) by {
            vstd::arithmetic::div_mod::lemma_fundamental_div_mod(today + 1, 7);
            vstd::arithmetic::div_mod::lemma_mod_multiples_basic((today + 1) / 7, 7);
        }
    }
    assert forall|d: int| today < d < sat implies #[trigger] weekday_of(d) != Weekday::Sat by {
        if (d + 6) % 7 == 5 {
            assert((sat - d) % 7 == 0) by {
                vstd::arithmetic::div_mod::lemma_sub_mod_noop(sat + 6, d + 6, 7);
            }
            assert(0 < sat - d < 7);
        }
    }
}

/// The first Saturday strictly after `today`, found by walking forward a day
/// at a time.
pub fn next_saturday(today: i32) -> (sat: i32)
    requires
        is_date(today as int),
        first_saturday_after(today as int) <= MAX_DAY,
    ensures
        sat == first_saturday_after(today as int),
        today < sat <= today + 7,
        weekday_of(sat as int) == Weekday::Sat,
        forall|d: int| today < d < sat ==> #[trigger] weekday_of(d) != Weekday::Sat,
{
    proof {
        lemma_first_saturday_after(today as int);
    }
    let mut day: i32 = today + 1;
    while weekday(day) != Weekday::Sat
        invariant
            is_date(today as int),
            first_saturday_after(today as int) <= MAX_DAY,
            today < day <= first_saturday_after(today as int),
            weekday_of(first_saturday_after(today as int)) == Weekday::Sat,
            forall|d: int|
                today < d < first_saturday_after(today as int) ==> #[trigger] weekday_of(d)
                    != Weekday::Sat,
        decreases first_saturday_after(today as int) - day,
    {
        day = day + 1;
    }
    day
}

/// Every date from `start` up to, but not including, `end`, in order.
pub open spec fn span(start: int, end: int) -> Seq<i32> {
    Seq::new((end - start) as nat, |i: int| (start + i) as i32)
}

/// Trusted: chronoutil's `DateRule::daily` with `DateRule::with_end`, walked
/// to its end. The rule gives `start`, then each following day, and stops
/// before the first day that is not before `end`. The dates go in and come
/// out as day numbers, through chrono's `from_num_days_from_ce_opt` and
/// `num_days_from_ce`.
#[verifier::external_body]
fn chronoutil_daily(start: i32, end: i32) -> (days: Vec<i32>)
    requires
        is_date(start as int),
        is_date(end as int),
        start <= end,
    ensures
        days@ == span(start as int, end as int),
{
    let first = chrono::NaiveDate::from_num_days_from_ce_opt(start).unwrap();
    let stop = chrono::NaiveDate::from_num_days_from_ce_opt(end).unwrap();
    chronoutil::DateRule::daily(first).with_end(stop).map(|d| d.num_days_from_ce()).collect()
}

/// The most weeks a window may cover.
pub const MAX_WEEKS: i64 = 10;

/// The number of weeks to skip: none where no number is given.
pub open spec fn skipped(skip: Option<i64>) -> int {
    match skip {
        Some(s) => s as int,
        None => 0,
    }
}

/// The first day of the window: the first Saturday after `today`, moved on
/// by `skip` weeks.
pub open spec fn window_start(today: int, skip: int) -> int {
    first_saturday_after(today) + 7 * skip
}

/// The day on which the window ends, itself not part of it.
pub open spec fn window_end(today: int, weeks: int, skip: int) -> int {
    window_start(today, skip) + 7 * weeks
}

/// The candidate dates of a poll made on `today`: every date of the `weeks`
/// weeks from `window_start` on whose weekday is in `days`, in order.
pub open spec fn window(today: int, weeks: int, skip: int, days: Weekdays) -> Seq<i32> {
    span(window_start(today, skip), window_end(today, weeks, skip)).filter(
        |d: i32| days.has(weekday_of(d as int)),
    )
}

/// Each element is less than the ones after it.
pub open spec fn strictly_ascending(s: Seq<i32>) -> bool {
    forall|i: int, j: int| 0 <= i < j < s.len() ==> s[i] < s[j]
}

/// What is kept of a span of dates is in order, lies within the span, and
/// satisfies the test by which it was kept.
pub proof fn lemma_span_filter(start: int, end: int, keep: spec_fn(i32) -> bool)
    requires
        is_date(start),
        is_date(end),
        start <= end,
    ensures
        strictly_ascending(span(start, end).filter(keep)),
        forall|k: int|
            0 <= k < span(start, end).filter(keep).len() ==> start <= (#[trigger] span(
                start,
                end,
            ).filter(keep)[k]) < end && keep(span(start, end).filter(keep)[k]),
    decreases end - start,
{
    reveal(Seq::filter);
    if start < end {
        lemma_span_filter(start, end - 1, keep);
        assert(span(start, end).drop_last() =~= span(start, end - 1));
    }
}

/// The dates of a window are strictly ascending, so none occurs twice, and
/// each falls on a weekday of the filter, inside the window.
pub proof fn lemma_window_ordered(today: int, weeks: int, skip: int, days: Weekdays)
    requires
        is_date(today),
        1 <= weeks <= MAX_WEEKS,
        0 <= skip,
        window_end(today, weeks, skip) <= MAX_DAY,
    ensures
        strictly_ascending(window(today, weeks, skip, days)),
        window(today, weeks, skip, days).no_duplicates(),
        forall|k: int|
            0 <= k < window(today, weeks, skip, days).len() ==> days@.contains(
                weekday_of((#[trigger] window(today, weeks, skip, days)[k]) as int),
            ),
        forall|k: int|
            0 <= k < window(today, weeks, skip, days).len() ==> window_start(today, skip) <= (
            #[trigger] window(today, weeks, skip, days)[k]) < window_end(today, weeks, skip),
        window(today, weeks, skip, days).len() <= 7 * weeks,
{
    lemma_first_saturday_after(today);
    let start = window_start(today, skip);
    let end = window_end(today, weeks, skip);
    let keep = |d: i32| days.has(weekday_of(d as int));
    lemma_span_filter(start, end, keep);
    span(start, end).lemma_filter_len(keep);
}

/// Every day from `start` up to, but not including, `end`, in order, as
/// numbers without a bound.
pub open spec fn day_span(start: int, end: int) -> Seq<int> {
    Seq::new((end - start) as nat, |i: int| start + i)
}

/// The days of a window, as numbers without a bound: every day of the
/// `weeks` weeks from `window_start` on whose weekday is in `days`, in order.
pub open spec fn window_days(today: int, weeks: int, skip: int, days: Weekdays) -> Seq<int> {
    day_span(window_start(today, skip), window_end(today, weeks, skip)).filter(
        |d: int| days.has(weekday_of(d)),
    )
}

/// What is kept of a span of days is in strictly ascending order, lies
/// within the span, and satisfies the test by which it was kept.
pub proof fn lemma_day_span_filter(start: int, end: int, keep: spec_fn(int) -> bool)
    requires
        start <= end,
    ensures
        forall|i: int, j: int|
            0 <= i < j < day_span(start, end).filter(keep).len() ==> day_span(start, end).filter(
                keep,
            )[i] < day_span(start, end).filter(keep)[j],
        forall|k: int|
            0 <= k < day_span(start, end).filter(keep).len() ==> start <= (#[trigger] day_span(
                start,
                end,
            ).filter(keep)[k]) < end && keep(day_span(start, end).filter(keep)[k]),
        day_span(start, end).filter(keep).len() <= end - start,
    decreases end - start,
{
    reveal(Seq::filter);
    if start < end {
        lemma_day_span_filter(start, end - 1, keep);
        assert(day_span(start, end).drop_last() =~= day_span(start, end - 1));
    }
}

/// The days of every window are strictly ascending, so none occurs twice,
/// and each falls on a weekday of the filter, inside the window. This holds
/// of every day on which a poll is made, whatever the calendar can hold.
pub proof fn lemma_window_days_ordered(today: int, weeks: int, skip: int, days: Weekdays)
    requires
        1 <= weeks <= MAX_WEEKS,
        0 <= skip,
    ensures
        forall|i: int, j: int|
            0 <= i < j < window_days(today, weeks, skip, days).len() ==> window_days(
                today,
                weeks,
                skip,
                days,
            )[i] < window_days(today, weeks, skip, days)[j],
        window_days(today, weeks, skip, days).no_duplicates(),
        forall|k: int|
            0 <= k < window_days(today, weeks, skip, days).len() ==> days@.contains(
                weekday_of(#[trigger] window_days(today, weeks, skip, days)[k]),
            ),
        forall|k: int|
            0 <= k < window_days(today, weeks, skip, days).len() ==> window_start(today, skip) <= (
            #[trigger] window_days(today, weeks, skip, days)[k]) < window_end(today, weeks, skip),
        window_days(today, weeks, skip, days).len() <= 7 * weeks,
{
    let keep = |d: int| days.has(weekday_of(d));
    lemma_day_span_filter(window_start(today, skip), window_end(today, weeks, skip), keep);
}

/// Within the calendar, dates kept of a span are the days kept of it.
pub proof fn lemma_span_is_day_span(start: int, end: int, days: Weekdays)
    requires
        is_date(start),
        is_date(end),
        start <= end,
    ensures
        span(start, end).filter(|d: i32| days.has(weekday_of(d as int))).map_values(
            |d: i32| d as int,
        ) == day_span(start, end).filter(|d: int| days.has(weekday_of(d))),
    decreases end - start,
{
    let keep = |d: i32| days.has(weekday_of(d as int));
    let keep_day = |d: int| days.has(weekday_of(d));
    let wide = |d: i32| d as int;
    reveal(Seq::filter);
    if start < end {
        lemma_span_is_day_span(start, end - 1, days);
        assert(span(start, end).drop_last() =~= span(start, end - 1));
        assert(day_span(start, end).drop_last() =~= day_span(start, end - 1));
        assert(span(start, end).last() as int == day_span(start, end).last());
        let before = span(start, end - 1).filter(keep);
        if keep(span(start, end).last()) {
            assert(before.push(span(start, end).last()).map_values(wide) =~= before.map_values(
                wide,
            ).push(day_span(start, end).last()));
        }
    } else {
        assert(span(start, end).filter(keep).map_values(wide) =~= day_span(start, end).filter(
            keep_day,
        ));
    }
}

/// The candidate dates of a window that ends within the calendar are the
/// days of the window.
pub proof fn lemma_window_is_window_days(today: int, weeks: int, skip: int, days: Weekdays)
    requires
        is_date(today),
        1 <= weeks <= MAX_WEEKS,
        0 <= skip,
        window_end(today, weeks, skip) <= MAX_DAY,
    ensures
        window(today, weeks, skip, days).map_values(|d: i32| d as int) == window_days(
            today,
            weeks,
            skip,
            days,
        ),
{
    lemma_first_saturday_after(today);
    lemma_span_is_day_span(window_start(today, skip), window_end(today, weeks, skip), days);
}

/// A window with at least one weekday in its filter holds at least one date.
pub proof fn lemma_window_nonempty(today: int, weeks: int, skip: int, days: Weekdays)
    requires
        is_date(today),
        1 <= weeks <= MAX_WEEKS,
        0 <= skip,
        window_end(today, weeks, skip) <= MAX_DAY,
        days@ != Set::<Weekday>::empty(),
    ensures
        window(today, weeks, skip, days).len() >= 1,
{
    lemma_first_saturday_after(today);
    let start = window_start(today, skip);
    let end = window_end(today, weeks, skip);
    let keep = |d: i32| days.has(weekday_of(d as int));
    if forall|w: Weekday| !days.has(w) {
        assert(days@ =~= Set::<Weekday>::empty());
    }
    let w = choose|w: Weekday| days.has(w);
    let offset = (w.index() - (start + 6) % 7 + 7) % 7;
    let day = start + offset;
    assert((day + 6) % 7 == w.index()) by {
        vstd::arithmetic::div_mod::lemma_add_mod_noop(
            start + 6,
            w.index() - (start + 6) % 7 + 7,
            7,
        );
        vstd::arithmetic::div_mod::lemma_fundamental_div_mod(start + 6, 7);
        vstd::arithmetic::div_mod::lemma_fundamental_div_mod(w.index() - (start + 6) % 7 + 7, 7);
        vstd::arithmetic::div_mod::lemma_fundamental_div_mod(day + 6, 7);
    }
    assert(weekday_of(day) == w);
    let all = span(start, end);
    assert(all[offset] == day as i32);
    assert(keep(all[offset]));
    all.lemma_filter_contains(keep, offset);
}

/// The candidate dates of a poll that is made on `today`, covers `weeks`
/// weeks, starts `skip` weeks after the coming Saturday and asks about the
/// weekdays in `days`.
pub fn date_window(today: i32, weeks: i64, skip: Option<i64>, days: &Weekdays) -> (dates: Vec<i32>)
    requires
        is_date(today as int),
        1 <= weeks <= MAX_WEEKS,
        0 <= skipped(skip),
        window_end(today as int, weeks as int, skipped(skip)) <= MAX_DAY,
    ensures
        dates@ == window(today as int, weeks as int, skipped(skip), *days),
        dates@.map_values(|d: i32| d as int) == window_days(
            today as int,
            weeks as int,
            skipped(skip),
            *days,
        ),
        strictly_ascending(dates@),
        dates@.no_duplicates(),
        forall|k: int| 0 <= k < dates.len() ==> days@.contains(weekday_of(#[trigger] dates[k] as int)),
        forall|k: int| 0 <= k < dates.len() ==> is_date(#[trigger] dates[k] as int),
        dates.len() <= 7 * weeks,
        days@ != Set::<Weekday>::empty() ==> dates.len() >= 1,
{
    proof {
        lemma_first_saturday_after(today as int);
        lemma_window_ordered(today as int, weeks as int, skipped(skip), *days);
        lemma_window_is_window_days(today as int, weeks as int, skipped(skip), *days);
        if days@ != Set::<Weekday>::empty() {
            lemma_window_nonempty(today as int, weeks as int, skipped(skip), *days);
        }
    }
    let mut first: i64 = next_saturday(today) as i64;
    if let Some(s) = skip {
        first = first + 7 * s;
    }
    let last: i64 = first + 7 * weeks;
    let start: i32 = first as i32;
    let end: i32 = last as i32;
    let all = chronoutil_daily(start, end);
    let ghost keep = |d: i32| days.has(weekday_of(d as int));
    let mut dates: Vec<i32> = Vec::new();
    let mut i: usize = 0;
    while i < all.len()
        invariant
            i <= all.len(),
            all@ == span(start as int, end as int),
            is_date(start as int),
            is_date(end as int),
            start <= end,
            keep == (|d: i32| days.has(weekday_of(d as int))),
            dates@ == all@.take(i as int).filter(keep),
        decreases all.len() - i,
    {
        let day = all[i];
        proof {
            assert(all@.take(i + 1) =~= all@.take(i as int).push(day));
            all@.take(i as int).lemma_filter_push(day, keep);
        }
        if days.contains(weekday(day)) {
            dates.push(day);
        }
        i = i + 1;
    }
    proof {
        assert(all@.take(i as int) =~= all@);
    }
    dates
}

/// Whether `day` names a date.
pub fn is_valid_day(day: i32) -> (valid: bool)
    ensures
        valid == is_date(day as int),
{
    MIN_DAY <= day && day <= MAX_DAY
}

/// Whether a poll can be made on `today` for `weeks` weeks after `skip`
/// weeks: `today` is a date, the weeks are between one and `MAX_WEEKS`, no
/// negative number of weeks is skipped, and the window ends within the
/// calendar.
pub fn window_fits(today: i32, weeks: i64, skip: Option<i64>) -> (fits: bool)
    ensures
        fits == (is_date(today as int) && 1 <= weeks <= MAX_WEEKS && 0 <= skipped(skip)
            && window_end(today as int, weeks as int, skipped(skip)) <= MAX_DAY),
{
    proof {
        lemma_first_saturday_after(today as int);
    }
    let skipped: i64 = match skip {
        Some(s) => s,
        None => 0,
    };
    if !is_valid_day(today) || weeks < 1 || weeks > MAX_WEEKS || skipped < 0 {
        return false;
    }
    // A window that starts in the last week of the calendar, or after more
    // weeks than the calendar has, ends beyond it.
    if today > MAX_DAY - 7 || skipped > 30_000_000 {
        return false;
    }
    let first: i64 = next_saturday(today) as i64;
    first + 7 * skipped + 7 * weeks <= MAX_DAY as i64
}

/// The text that chrono writes for a date under a format pattern.
pub uninterp spec fn date_text(day: int, pattern: Seq<char>) -> Seq<char>;

/// Trusted: chrono's `NaiveDate::format`, written out through `to_string`,
/// for the two patterns this library uses. Both are made of specifiers that
/// chrono's format syntax lists, so writing the text cannot fail. The
/// contract only names the text.
#[verifier::external_body]
fn chrono_format(day: i32, pattern: &str) -> (text: String)
    requires
        is_date(day as int),
        pattern@ == "%a %Y-%m-%d"@ || pattern@ == "%a %b %d"@,
    ensures
        text@ == date_text(day as int, pattern@),
{
    chrono::NaiveDate::from_num_days_from_ce_opt(day).unwrap().format(pattern).to_string()
}

/// A date as it stands in a report line: weekday, year, month and day.
pub fn report_date(day: i32) -> (text: String)
    requires
        is_date(day as int),
    ensures
        text@ == date_text(day as int, "%a %Y-%m-%d"@),
{
    chrono_format(day, "%a %Y-%m-%d")
}

/// A date as it stands in a menu: weekday, month name and day.
pub fn menu_date(day: i32) -> (text: String)
    requires
        is_date(day as int),
    ensures
        text@ == date_text(day as int, "%a %b %d"@),
{
    chrono_format(day, "%a %b %d")
}

} // verus!
