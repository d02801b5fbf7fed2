//! The pieces of text that reports are made of: decimal numbers, mentions,
//! and lists joined by a separator.

use itertools::Itertools;
use vstd::prelude::*;
use vstd::string::*;

verus! {

/// The character of a decimal digit.
pub open spec fn digit(d: nat) -> char {
    if d == 0 {
        '0'
    } else if d == 1 {
        '1'
    } else if d == 2 {
        '2'
    } else if d == 3 {
        '3'
    } else if d == 4 {
        '4'
    } else if d == 5 {
        '5'
    } else if d == 6 {
        '6'
    } else if d == 7 {
        '7'
    } else if d == 8 {
        '8'
    } else {
        '9'
    }
}

/// A number in decimal, without leading zeros.
pub open spec fn decimal(n: nat) -> Seq<char>
    decreases n,
{
    if n < 10 {
        seq![digit(n)]
    } else {
        decimal(n / 10).push(digit(n % 10))
    }
}

fn digit_text(d: u64) -> (text: &'static str)
    requires
        d < 10,
    ensures
        text@ == seq![digit(d as nat)],
{
    proof {
        reveal_strlit("0");
        reveal_strlit("1");
        reveal_strlit("2");
        reveal_strlit("3");
        reveal_strlit("4");
        reveal_strlit("5");
        reveal_strlit("6");
        reveal_strlit("7");
        reveal_strlit("8");
        reveal_strlit("9");
    }
    let text = if d == 0 {
        "0"
    } else if d == 1 {
        "1"
    } else if d == 2 {
        "2"
    } else if d == 3 {
        "3"
    } else if d == 4 {
        "4"
    } else if d == 5 {
        "5"
    } else if d == 6 {
        "6"
    } else if d == 7 {
        "7"
    } else if d == 8 {
        "8"
    } else {
        "9"
    };
    assert(text@ =~= seq![digit(d as nat)]);
    text
}

/// Writes `n` in decimal at the end of `out`.
pub fn append_decimal(out: &mut String, n: u64)
    ensures
        final(out)@ == old(out)@ + decimal(n as nat),
    decreases n,
{
    if n >= 10 {
        append_decimal(out, n / 10);
    }
    out.append(digit_text(n % 10));
    assert(out@ =~= old(out)@ + decimal(n as nat));
}

/// `n` in decimal.
pub fn decimal_text(n: u64) -> (text: String)
    ensures
        text@ == decimal(n as nat),
{
    let mut text = String::new();
    append_decimal(&mut text, n);
    assert(text@ =~= decimal(n as nat));
    text
}

/// The text that addresses a user: the user's number between `<@` and `>`.
pub open spec fn mention(id: nat) -> Seq<char> {
    seq!['<', '@'] + decimal(id) + seq!['>']
}

/// The text that addresses a role: the role's number between `<@&` and `>`.
pub open spec fn role_mention(id: nat) -> Seq<char> {
    seq!['<', '@', '&'] + decimal(id) + seq!['>']
}

/// The mention of the user `id`.
pub fn user_mention_text(id: u64) -> (text: String)
    ensures
        text@ == mention(id as nat),
{
    proof {
        reveal_strlit("<@");
        reveal_strlit(">");
    }
    let mut text = String::from_str("<@");
    append_decimal(&mut text, id);
    text.append(">");
    assert(text@ =~= mention(id as nat));
    text
}

/// The mention of the role `id`.
pub fn role_mention_text(id: u64) -> (text: String)
    ensures
        text@ == role_mention(id as nat),
{
    proof {
        reveal_strlit("<@&");
        reveal_strlit(">");
    }
    let mut text = String::from_str("<@&");
    append_decimal(&mut text, id);
    text.append(">");
    assert(text@ =~= role_mention(id as nat));
    text
}

/// The characters of each string of a list.
pub open spec fn texts(list: Seq<String>) -> Seq<Seq<char>> {
    list.map_values(|s: String| s@)
}

/// The parts in order, with `sep` between each two neighbours.
pub open spec fn joined(parts: Seq<Seq<char>>, sep: Seq<char>) -> Seq<char>
    decreases parts.len(),
{
    if parts.len() == 0 {
        Seq::empty()
    } else if parts.len() == 1 {
        parts[0]
    } else {
        joined(parts.drop_last(), sep) + sep + parts.last()
    }
}

/// Trusted: itertools' `Itertools::join` on the strings of `parts`. It
/// writes the first element, then the separator and the next element for
/// each one that follows, and gives the empty string for no elements.
#[verifier::external_body]
fn itertools_join(parts: &Vec<String>, sep: &str) -> (text: String)
    ensures
        text@ == joined(texts(parts@), sep@),
{
    parts.iter().join(sep)
}

/// The strings of `parts` in one string, with `sep` between them.
pub fn join(parts: &Vec<String>, sep: &str) -> (text: String)
    ensures
        text@ == joined(texts(parts@), sep@),
{
    itertools_join(parts, sep)
}

/// The strings of `parts` in one string, with `sep` between them, put
/// together piece by piece.
pub fn concat_with(parts: &Vec<String>, sep: &str) -> (text: String)
    ensures
        text@ == joined(texts(parts@), sep@),
{
    let mut text = String::new();
    let mut i: usize = 0;
    while i < parts.len()
        invariant
            i <= parts.len(),
            text@ == joined(texts(parts@).take(i as int), sep@),
        decreases parts.len() - i,
    {
        if i > 0 {
            text.append(sep);
        }
        text.append(parts[i].as_str());
        proof {
            let all = texts(parts@);
            assert(all.take(i + 1).drop_last() =~= all.take(i as int));
            assert(all.take(i + 1).last() == parts@[i as int]@);
            assert(text@ =~= joined(all.take(i + 1), sep@));
        }
        i = i + 1;
    }
    assert(texts(parts@).take(i as int) =~= texts(parts@));
    text
}

/// Whether two strings hold the same characters.
pub fn same_text(a: &str, b: &str) -> (same: bool)
    ensures
        same == (a@ == b@),
{
    String::from_str(a) == String::from_str(b)
}

/// Each number is less than the ones after it.
pub open spec fn ascending(ids: Seq<u64>) -> bool {
    forall|i: int, j: int| 0 <= i < j < ids.len() ==> ids[i] < ids[j]
}

/// Trusted: itertools' `Itertools::sorted`, collected into a vector. It
/// sorts all elements into ascending order: the result holds the same
/// numbers, each as often as before, and none stands before a smaller one.
#[verifier::external_body]
fn itertools_sorted(ids: Vec<u64>) -> (sorted: Vec<u64>)
    ensures
        sorted@.to_multiset() == ids@.to_multiset(),
        forall|i: int, j: int| 0 <= i <= j < sorted.len() ==> sorted[i] <= sorted[j],
{
    ids.into_iter().sorted().collect()
}

/// Two ascending lists of the same numbers are the same list.
pub proof fn lemma_ascending_unique(a: Seq<u64>, b: Seq<u64>)
    requires
        ascending(a),
        ascending(b),
        a.to_set() == b.to_set(),
    ensures
        a == b,
    decreases a.len(),
{
    a.unique_seq_to_set();
    b.unique_seq_to_set();
    if a.len() > 0 {
        let x = a.last();
        let y = b.last();
        assert(a.to_set().contains(x));
        assert(b.to_set().contains(y));
        assert(b.contains(x));
        assert(a.contains(y));
        assert(x == y);
        assert forall|v: u64| a.drop_last().to_set().contains(v) <==> b.drop_last().to_set().contains(
            v,
        ) by {
            if a.drop_last().contains(v) {
                let i = choose|i: int| 0 <= i < a.drop_last().len() && a.drop_last()[i] == v;
                assert(a[i] == v);
                assert(v < x);
                assert(a.contains(v));
                assert(a.to_set().contains(v));
                assert(b.to_set().contains(v));
                assert(b.contains(v));
                let j = choose|j: int| 0 <= j < b.len() && b[j] == v;
                assert(b.drop_last()[j] == v);
            }
            if b.drop_last().contains(v) {
                let i = choose|i: int| 0 <= i < b.drop_last().len() && b.drop_last()[i] == v;
                assert(b[i] == v);
                assert(v < y);
                assert(b.contains(v));
                assert(b.to_set().contains(v));
                assert(a.to_set().contains(v));
                assert(a.contains(v));
                let j = choose|j: int| 0 <= j < a.len() && a[j] == v;
                assert(a.drop_last()[j] == v);
            }
        }
        assert(a.drop_last().to_set() =~= b.drop_last().to_set());
        lemma_ascending_unique(a.drop_last(), b.drop_last());
        assert(a =~= a.drop_last().push(x));
        assert(b =~= b.drop_last().push(y));
    } else {
        assert(a =~= b);
    }
}

/// Every finite set of numbers can be listed in ascending order.
pub proof fn lemma_ascending_exists(ids: Set<u64>) -> (order: Seq<u64>)
    requires
        ids.finite(),
    ensures
        ascending(order),
        order.to_set() == ids,
    decreases ids.len(),
{
    if ids.len() == 0 {
        let order = Seq::<u64>::empty();
        assert(order.to_set() =~= ids);
        order
    } else {
        let leq = |a: u64, b: u64| a <= b;
        assert(vstd::relations::total_ordering(leq));
        ids.find_unique_maximal_ensures(leq);
        let top = ids.find_unique_maximal(leq);
        let below = lemma_ascending_exists(ids.remove(top));
        let order = below.push(top);
        assert forall|i: int, j: int| 0 <= i < j < order.len() implies order[i] < order[j] by {
            assert(below.to_set().contains(below[i]));
            if j == below.len() {
                assert(ids.contains(below[i]) && below[i] != top);
                assert(leq(top, below[i]) ==> leq(below[i], top));
            }
        }
        assert forall|v: u64| order.to_set().contains(v) <==> ids.contains(v) by {
            if order.contains(v) {
                let k = choose|k: int| 0 <= k < order.len() && order[k] == v;
                if k < below.len() {
                    assert(below.to_set().contains(below[k]));
                }
            }
            if ids.contains(v) {
                if v == top {
                    assert(order[below.len() as int] == v);
                } else {
                    assert(below.to_set().contains(v));
                    let k = choose|k: int| 0 <= k < below.len() && below[k] == v;
                    assert(order[k] == v);
                }
            }
        }
        assert(order.to_set() =~= ids);
        order
    }
}

/// No number stands before a smaller one.
pub open spec fn non_descending(ids: Seq<u64>) -> bool {
    forall|i: int, j: int| 0 <= i <= j < ids.len() ==> ids[i] <= ids[j]
}

/// A list that holds the numbers of a list without repeats, each as often,
/// and is in order, is in strictly ascending order and holds the same
/// numbers.
pub proof fn lemma_sorted_without_repeats(ids: Seq<u64>, sorted: Seq<u64>)
    requires
        ids.no_duplicates(),
        sorted.to_multiset() == ids.to_multiset(),
        non_descending(sorted),
    ensures
        ascending(sorted),
        sorted.to_set() == ids.to_set(),
        sorted.len() == ids.len(),
{
    broadcast use vstd::seq_lib::group_to_multiset_ensures;

    ids.lemma_multiset_has_no_duplicates();
    sorted.lemma_multiset_has_no_duplicates_conv();
    assert forall|v: u64| sorted.to_set().contains(v) <==> ids.to_set().contains(v) by {
        assert(sorted.contains(v) <==> sorted.to_multiset().count(v) > 0);
        assert(ids.contains(v) <==> ids.to_multiset().count(v) > 0);
    }
    assert(sorted.to_set() =~= ids.to_set());
    assert(sorted.len() == ids.len()) by {
        assert(sorted.to_multiset().len() == sorted.len());
        assert(ids.to_multiset().len() == ids.len());
    }
}

/// The numbers of `ids` in order: each number as often as in `ids`, and
/// none before a smaller one.
pub fn sorted_ids(ids: Vec<u64>) -> (sorted: Vec<u64>)
    ensures
        sorted@.to_multiset() == ids@.to_multiset(),
        non_descending(sorted@),
        sorted.len() == ids.len(),
{
    let ghost before = ids@;
    let sorted = itertools_sorted(ids);
    proof {
        broadcast use vstd::seq_lib::group_to_multiset_ensures;

        assert(sorted@.to_multiset().len() == sorted@.len());
        assert(before.to_multiset().len() == before.len());
    }
    sorted
}

/// The number of characters of `s`.
pub fn char_count(s: &str) -> (n: usize)
    ensures
        n == s@.len(),
{
    s.unicode_len()
}

} // verus!
