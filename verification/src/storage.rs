//! The names under which the records of the polls are kept: the poll's
//! identifier in decimal, with the extension `json`.

use crate::text::{append_decimal, decimal, digit, same_text};
use vstd::prelude::*;
use vstd::string::*;

verus! {

/// What a file name of the store stands for.
#[derive(Clone, Copy, Debug, PartialEq, Eq, Structural)]
pub enum RecordName {
    /// The record of the poll with this identifier.
    Record(u64),
    /// No record: the name has no extension, or another one than `json`.
    Other,
    /// A name with the extension `json` whose stem is no identifier.
    Malformed,
}

/// The value of a decimal digit, and nothing for another character.
pub open spec fn digit_of(c: char) -> Option<nat> {
    if c == '0' {
        Some(0)
    } else if c == '1' {
        Some(1)
    } else if c == '2' {
        Some(2)
    } else if c == '3' {
        Some(3)
    } else if c == '4' {
        Some(4)
    } else if c == '5' {
        Some(5)
    } else if c == '6' {
        Some(6)
    } else if c == '7' {
        Some(7)
    } else if c == '8' {
        Some(8)
    } else if c == '9' {
        Some(9)
    } else {
        None
    }
}

/// The number that a text of one or more decimal digits stands for.
pub open spec fn number(s: Seq<char>) -> Option<nat>
    decreases s.len(),
{
    if s.len() == 0 {
        None
    } else if s.len() == 1 {
        digit_of(s[0])
    } else {
        match (number(s.drop_last()), digit_of(s.last())) {
            (Some(n), Some(d)) => Some(10 * n + d),
            _ => None,
        }
    }
}

/// The index of the last full stop of `s`.
pub open spec fn last_dot(s: Seq<char>) -> Option<int>
    decreases s.len(),
{
    if s.len() == 0 {
        None
    } else if s.last() == '.' {
        Some(s.len() - 1)
    } else {
        last_dot(s.drop_last())
    }
}

/// The identifier that a stem stands for: decimal digits, after a plus sign
/// or without one, that do not exceed the largest identifier.
pub open spec fn stem_id(stem: Seq<char>) -> Option<u64> {
    let digits = if stem.len() > 0 && stem[0] == '+' {
        stem.skip(1)
    } else {
        stem
    };
    match number(digits) {
        Some(n) => if n <= u64::MAX {
            Some(n as u64)
        } else {
            None
        },
        None => None,
    }
}

/// What the file name `name` stands for. The extension is what follows the
/// last full stop, unless the name begins with it.
pub open spec fn record_of(name: Seq<char>) -> RecordName {
    match last_dot(name) {
        Some(dot) => if dot == 0 || name.skip(dot + 1) != "json"@ {
            RecordName::Other
        } else {
            match stem_id(name.take(dot)) {
                Some(id) => RecordName::Record(id),
                None => RecordName::Malformed,
            }
        },
        None => RecordName::Other,
    }
}

/// The name of the record of poll `id`.
pub open spec fn name_of(id: u64) -> Seq<char> {
    decimal(id as nat) + ".json"@
}

/// A number written in decimal stands for itself: it has at least one
/// character, and each is a digit.
pub proof fn lemma_number_of_decimal(n: nat)
    ensures
        number(decimal(n)) == Some(n),
        decimal(n).len() >= 1,
        forall|k: int| 0 <= k < decimal(n).len() ==> digit_of(#[trigger] decimal(n)[k]) is Some,
    decreases n,
{
    if n >= 10 {
        lemma_number_of_decimal(n / 10);
        let head = decimal(n / 10);
        assert(decimal(n).drop_last() =~= head);
        assert(decimal(n).last() == digit(n % 10));
        assert(digit_of(digit(n % 10)) == Some(n % 10));
        assert forall|k: int| 0 <= k < decimal(n).len() implies digit_of(
            #[trigger] decimal(n)[k],
        ) is Some by {
            if k < head.len() {
                assert(decimal(n)[k] == head[k]);
            }
        }
    } else {
        assert(digit_of(digit(n)) == Some(n));
    }
}

/// The name under which a record is kept stands for that record.
pub proof fn lemma_record_name_round_trip(id: u64)
    ensures
        record_of(name_of(id)) == RecordName::Record(id),
{
    reveal_strlit(".json");
    reveal_strlit("json");
    let stem = decimal(id as nat);
    let name = name_of(id);
    let dot = stem.len() as int;
    lemma_number_of_decimal(id as nat);
    assert(name.len() == dot + 5);
    assert(name[dot] == '.' && name[dot + 1] == 'j' && name[dot + 2] == 's' && name[dot + 3] == 'o'
        && name[dot + 4] == 'n');
    assert(last_dot(name) == Some(dot)) by {
        let a = name.drop_last();
        let b = a.drop_last();
        let c = b.drop_last();
        let d = c.drop_last();
        assert(name.last() == 'n');
        assert(a.last() == 'o');
        assert(b.last() == 's');
        assert(c.last() == 'j');
        assert(d.last() == '.');
        assert(last_dot(d) == Some(dot));
        assert(last_dot(c) == last_dot(d));
        assert(last_dot(b) == last_dot(c));
        assert(last_dot(a) == last_dot(b));
    }
    assert(name.skip(dot + 1) =~= "json"@);
    assert(name.take(dot) =~= stem);
    assert(digit_of(stem[0]) is Some);
}

/// The name of the record of poll `id`.
pub fn record_name(id: u64) -> (name: String)
    ensures
        name@ == name_of(id),
{
    let mut name = String::new();
    append_decimal(&mut name, id);
    name.append(".json");
    assert(name@ =~= name_of(id));
    name
}

fn digit_value(c: char) -> (value: Option<u64>)
    ensures
        value matches Some(d) ==> digit_of(c) == Some(d as nat) && d < 10,
        value is None ==> digit_of(c) is None,
{
    if c == '0' {
        Some(0)
    } else if c == '1' {
        Some(1)
    } else if c == '2' {
        Some(2)
    } else if c == '3' {
        Some(3)
    } else if c == '4' {
        Some(4)
    } else if c == '5' {
        Some(5)
    } else if c == '6' {
        Some(6)
    } else if c == '7' {
        Some(7)
    } else if c == '8' {
        Some(8)
    } else if c == '9' {
        Some(9)
    } else {
        None
    }
}

/// A text that stands for a number keeps standing for one when its last
/// character is taken away, unless that was its only one; and the number
/// does not get larger by it.
proof fn lemma_number_prefix(s: Seq<char>, k: int)
    requires
        1 <= k <= s.len(),
        number(s) is Some,
    ensures
        number(s.take(k)) is Some,
        number(s.take(k))->0 <= number(s)->0,
    decreases s.len() - k,
{
    if k == s.len() {
        assert(s.take(k) =~= s);
    } else {
        assert(s.drop_last().take(k) =~= s.take(k));
        lemma_number_prefix(s.drop_last(), k);
    }
}

/// The identifier that the stem `stem` stands for.
fn parse_stem(stem: &str) -> (id: Option<u64>)
    ensures
        id == stem_id(stem@),
{
    let n = stem.unicode_len();
    let mut i: usize = 0;
    if n > 0 && stem.get_char(0) == '+' {
        i = 1;
    }
    let ghost digits = stem@.skip(i as int);
    proof {
        assert(stem@.skip(0) =~= stem@);
    }
    if i == n {
        return None;
    }
    let first: usize = i;
    let mut value: u64 = 0;
    while i < n
        invariant
            first <= i <= n,
            first < n,
            n == stem@.len(),
            digits == stem@.skip(first as int),
            digits == if stem@.len() > 0 && stem@[0] == '+' {
                stem@.skip(1)
            } else {
                stem@
            },
            i > first ==> number(digits.take(i - first)) == Some(value as nat),
            i == first ==> value == 0,
        decreases n - i,
    {
        let c = stem.get_char(i);
        let ghost seen = digits.take(i - first);
        let ghost more = digits.take(i + 1 - first);
        proof {
            assert(more.drop_last() =~= seen);
            assert(more.last() == c);
            assert(more.len() == i + 1 - first);
            if i == first {
                assert(more[0] == c);
                assert(number(more) == digit_of(c));
            } else {
                assert(number(more) == match (number(seen), digit_of(c)) {
                    (Some(n), Some(d)) => Some(10 * n + d),
                    _ => None,
                });
            }
        }
        match digit_value(c) {
            None => {
                proof {
                    if number(digits) is Some {
                        lemma_number_prefix(digits, i + 1 - first);
                    }
                }
                return None;
            },
            Some(d) => {
                if value > (u64::MAX - d) / 10 {
                    proof {
                        if number(digits) is Some {
                            lemma_number_prefix(digits, i + 1 - first);
                        }
                    }
                    return None;
                }
                value = value * 10 + d;
            },
        }
        i = i + 1;
    }
    proof {
        assert(digits.take(i - first) =~= digits);
    }
    Some(value)
}

/// What the file name `name` stands for.
pub fn record_id(name: &str) -> (found: RecordName)
    ensures
        found == record_of(name@),
{
    let n = name.unicode_len();
    let mut i: usize = n;
    assert(name@.take(n as int) =~= name@);
    while i > 0 && name.get_char(i - 1) != '.'
        invariant
            i <= n,
            n == name@.len(),
            last_dot(name@) == last_dot(name@.take(i as int)),
        decreases i,
    {
        proof {
            assert(name@.take(i as int).drop_last() =~= name@.take(i - 1));
        }
        i = i - 1;
    }
    if i == 0 {
        return RecordName::Other;
    }
    let dot: usize = i - 1;
    assert(last_dot(name@) == Some(dot as int));
    if dot == 0 {
        return RecordName::Other;
    }
    let extension = name.substring_char(dot + 1, n);
    assert(extension@ =~= name@.skip(dot + 1));
    if !same_text(extension, "json") {
        return RecordName::Other;
    }
    let stem = name.substring_char(0, dot);
    assert(stem@ =~= name@.take(dot as int));
    match parse_stem(stem) {
        Some(id) => RecordName::Record(id),
        None => RecordName::Malformed,
    }
}

} // verus!
