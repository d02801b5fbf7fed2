//! What a request for a new poll asks for, read from the options of the
//! command.

use crate::calendar::{Weekday, Weekdays, MAX_WEEKS};
use crate::text::same_text;
use std::str::FromStr;
use vstd::prelude::*;
use vstd::string::*;

verus! {

/// The weekday that chrono reads from a name, and nothing where it reads
/// none.
pub uninterp spec fn weekday_named(name: Seq<char>) -> Option<Weekday>;

/// Trusted: chrono's `Weekday::from_str`, which reads a weekday from its
/// short or long English name, or fails. The contract only names what is
/// read; a failure comes back as nothing.
#[verifier::external_body]
fn chrono_weekday_from_str(name: &str) -> (day: Option<Weekday>)
    ensures
        day == weekday_named(name@),
{
    match chrono::Weekday::from_str(name).ok()? {
        chrono::Weekday::Mon => Some(Weekday::Mon),
        chrono::Weekday::Tue => Some(Weekday::Tue),
        chrono::Weekday::Wed => Some(Weekday::Wed),
        chrono::Weekday::Thu => Some(Weekday::Thu),
        chrono::Weekday::Fri => Some(Weekday::Fri),
        chrono::Weekday::Sat => Some(Weekday::Sat),
        chrono::Weekday::Sun => Some(Weekday::Sun),
    }
}

/// The pieces of `s` between the occurrences of `sep`: one more piece than
/// there are occurrences.
pub open spec fn split_on(s: Seq<char>, sep: char) -> Seq<Seq<char>>
    decreases s.len(),
{
    if s.len() == 0 {
        seq![Seq::empty()]
    } else {
        let before = split_on(s.drop_last(), sep);
        if s.last() == sep {
            before.push(Seq::empty())
        } else {
            before.drop_last().push(before.last().push(s.last()))
        }
    }
}

/// The weekdays that `names` name, and nothing where one of them names
/// none.
pub open spec fn days_named(names: Seq<Seq<char>>) -> Option<Set<Weekday>>
    decreases names.len(),
{
    if names.len() == 0 {
        Some(Set::empty())
    } else {
        match (days_named(names.drop_last()), weekday_named(names.last())) {
            (Some(days), Some(day)) => Some(days.insert(day)),
            _ => None,
        }
    }
}

/// The weekdays that `days` holds with `named` added, where `named` is a
/// weekday; nothing where it is none.
pub fn add_named(days: Option<Weekdays>, named: Option<Weekday>) -> (sum: Option<Weekdays>)
    ensures
        sum is Some <==> days is Some && named is Some,
        sum matches Some(s) ==> s@ == days->0@.insert(named->0),
{
    match (days, named) {
        (Some(days), Some(day)) => {
            let mut sum = days;
            sum.insert(day);
            Some(sum)
        },
        _ => None,
    }
}

/// The weekdays named in `text`, where the names stand with `+` between
/// them; nothing where a piece names no weekday.
pub fn parse_days(text: &str) -> (days: Option<Weekdays>)
    ensures
        days is Some <==> days_named(split_on(text@, '+')) is Some,
        days matches Some(d) ==> days_named(split_on(text@, '+')) == Some(d@),
{
    let n = text.unicode_len();
    let ghost s = text@;
    let mut days: Option<Weekdays> = Some(Weekdays::none());
    let mut start: usize = 0;
    let mut i: usize = 0;
    assert(s.take(0) =~= Seq::<char>::empty());
    assert(s.subrange(0, 0) =~= Seq::<char>::empty());
    let ghost mut done: Seq<Seq<char>> = Seq::empty();
    assert(split_on(s.take(0), '+') =~= done.push(s.subrange(0, 0)));
    while i < n
        invariant
            start <= i <= n,
            n == s.len(),
            s == text@,
            split_on(s.take(i as int), '+') == done.push(s.subrange(start as int, i as int)),
            days is Some <==> days_named(done) is Some,
            days matches Some(d) ==> days_named(done) == Some(d@),
        decreases n - i,
    {
        let c = text.get_char(i);
        proof {
            assert(s.take(i + 1).drop_last() =~= s.take(i as int));
            assert(s.take(i + 1).last() == c);
            let before = done.push(s.subrange(start as int, i as int));
            assert(before.drop_last() =~= done);
            assert(before.last() == s.subrange(start as int, i as int));
        }
        if c == '+' {
            let piece = text.substring_char(start, i);
            let named = chrono_weekday_from_str(piece);
            proof {
                let longer = done.push(piece@);
                assert(longer.drop_last() =~= done);
                assert(s.subrange(i + 1, i + 1) =~= Seq::<char>::empty());
                done = longer;
            }
            days = add_named(days, named);
            start = i + 1;
        } else {
            proof {
                assert(s.subrange(start as int, i as int).push(c) =~= s.subrange(
                    start as int,
                    i + 1,
                ));
            }
        }
        i = i + 1;
    }
    let piece = text.substring_char(start, n);
    let named = chrono_weekday_from_str(piece);
    proof {
        assert(s.take(n as int) =~= s);
        assert(done.push(piece@).drop_last() =~= done);
    }
    add_named(days, named)
}

/// The window and the weekdays that a new poll is made with.
#[derive(Clone, Copy, Debug)]
pub struct Plan {
    pub weeks: i64,
    pub skip: Option<i64>,
    pub days: Weekdays,
}

/// What a request asks for: the most weeks where it names no number, and
/// Saturday and Sunday where it names no weekdays. Nothing where the
/// weekdays it names cannot be read.
pub fn plan(weeks: Option<i64>, skip: Option<i64>, days: Option<&str>) -> (planned: Option<Plan>)
    ensures
        planned is None <==> (days matches Some(text) && days_named(split_on(text@, '+'))
            is None),
        planned matches Some(p) ==> {
            &&& p.weeks == match weeks {
                Some(w) => w,
                None => MAX_WEEKS,
            }
            &&& p.skip == skip
            &&& match days {
                Some(text) => days_named(split_on(text@, '+')) == Some(p.days@),
                None => p.days@ == Set::<Weekday>::empty().insert(Weekday::Sat).insert(
                    Weekday::Sun,
                ),
            }
        },
{
    let weeks = match weeks {
        Some(w) => w,
        None => MAX_WEEKS,
    };
    let days = match days {
        Some(text) => match parse_days(text) {
            Some(days) => days,
            None => {
                return None;
            },
        },
        None => Weekdays::weekend(),
    };
    Some(Plan { weeks, skip, days })
}

/// Whether `name` is the name of the command that asks for a new poll.
pub fn is_schedule_command(name: &str) -> (is: bool)
    ensures
        is == (name@ == "schedule"@),
{
    same_text(name, "schedule")
}

} // verus!
