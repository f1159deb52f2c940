//! What texts and numbers are, in terms of the characters they hold.
use vstd::prelude::*;

use crate::decimal::{
    all_digits, decimal, decimal_reads_back, digit_value, is_digit, parse, value_of, without_plus,
};
use crate::text::{
    contains, join, lower, stands_at, starts_with, trim_class, trim_end, trim_start, view_of, views,
    CharClass,
};

verus! {

/// A text holds another exactly if it is that one with something before and
/// something behind it: what stands around it changes nothing.
pub proof fn a_text_is_held_with_anything_around(s: Seq<char>, needle: Seq<char>)
    ensures
        contains(s, needle) <==> exists|a: Seq<char>, b: Seq<char>| s == #[trigger] (a + needle + b),
{
    if contains(s, needle) {
        let at = choose|at: int| stands_at(s, needle, at);
        let a = s.take(at);
        let b = s.skip(at + needle.len());
        assert(s =~= a + needle + b);
    }
    if exists|a: Seq<char>, b: Seq<char>| s == #[trigger] (a + needle + b) {
        let (a, b) = choose|a: Seq<char>, b: Seq<char>| s == #[trigger] (a + needle + b);
        assert(s.subrange(a.len() as int, (a.len() + needle.len()) as int) =~= needle);
        assert(stands_at(s, needle, a.len() as int));
    }
}

/// A text starts with another exactly if it is that one with something behind.
pub proof fn a_prefix_is_followed_by_anything(s: Seq<char>, prefix: Seq<char>)
    ensures
        starts_with(s, prefix) <==> exists|b: Seq<char>| s == #[trigger] (prefix + b),
{
    if starts_with(s, prefix) {
        let b = s.skip(prefix.len() as int);
        assert(s =~= prefix + b);
    }
    if exists|b: Seq<char>| s == #[trigger] (prefix + b) {
        let b = choose|b: Seq<char>| s == #[trigger] (prefix + b);
        assert(s.subrange(0, prefix.len() as int) =~= prefix);
    }
}

/// Lower case moves the letters from `A` to `Z`, each to its own, and nothing
/// else.
pub proof fn lower_case_moves_letters_only(s: Seq<char>)
    ensures
        lower(s).len() == s.len(),
        forall|i: int|
            0 <= i < s.len() && 'A' <= s[i] <= 'Z' ==> (#[trigger] lower(s)[i]) as int == s[i] as int
                + 32,
        forall|i: int|
            0 <= i < s.len() && !('A' <= s[i] <= 'Z') ==> #[trigger] lower(s)[i] == s[i],
{
}

/// The only quote is the double one.
pub proof fn a_quote_is_a_double_quote(c: char)
    ensures
        CharClass::Quote.has(c) <==> c == '"',
{
}

/// A text is trimmed of all that is of the class at its ends and of nothing
/// else: what remains stands between two places, outside of which all is of the
/// class, and neither of its own ends is.
pub proof fn trimming_takes_the_ends_only(s: Seq<char>, class: CharClass) -> (ends: (int, int))
    ensures
        0 <= ends.0 <= ends.1 <= s.len(),
        trim_class(s, class) == s.subrange(ends.0, ends.1),
        forall|i: int| 0 <= i < ends.0 ==> class.has(#[trigger] s[i]),
        forall|i: int| ends.1 <= i < s.len() ==> class.has(#[trigger] s[i]),
        ends.0 < ends.1 ==> !class.has(s[ends.0]) && !class.has(s[ends.1 - 1]),
{
    let from = start_of(s, class);
    let rest = s.skip(from);
    let to = end_of(rest, class);
    assert(trim_start(s, class) =~= rest);
    assert(rest.take(to) =~= s.subrange(from, from + to));
    assert forall|i: int| from + to <= i < s.len() implies class.has(#[trigger] s[i]) by {
        assert(class.has(rest[i - from]));
    }
    if 0 < to {
        assert(rest[0] == s[from]);
        assert(rest[to - 1] == s[from + to - 1]);
    }
    (from, from + to)
}

proof fn start_of(s: Seq<char>, class: CharClass) -> (from: int)
    ensures
        0 <= from <= s.len(),
        trim_start(s, class) == s.skip(from),
        forall|i: int| 0 <= i < from ==> class.has(#[trigger] s[i]),
        from < s.len() ==> !class.has(s[from]),
    decreases s.len(),
{
    if s.len() > 0 && class.has(s[0]) {
        let rest = s.skip(1);
        let at = start_of(rest, class);
        assert(rest.skip(at) =~= s.skip(at + 1));
        assert forall|i: int| 0 <= i < at + 1 implies class.has(#[trigger] s[i]) by {
            if i > 0 {
                assert(class.has(rest[i - 1]));
            }
        }
        at + 1
    } else {
        assert(s.skip(0) =~= s);
        0
    }
}

proof fn end_of(s: Seq<char>, class: CharClass) -> (to: int)
    ensures
        0 <= to <= s.len(),
        trim_end(s, class) == s.take(to),
        forall|i: int| to <= i < s.len() ==> class.has(#[trigger] s[i]),
        0 < to ==> !class.has(s[to - 1]),
    decreases s.len(),
{
    if s.len() > 0 && class.has(s.last()) {
        let front = s.drop_last();
        let at = end_of(front, class);
        assert(front.take(at) =~= s.take(at));
        assert forall|i: int| at <= i < s.len() implies class.has(#[trigger] s[i]) by {
            if i < front.len() {
                assert(class.has(front[i]));
            }
        }
        at
    } else {
        assert(s.take(s.len() as int) =~= s);
        s.len() as int
    }
}

/// A joined list holds its texts in order, with the separator between each two
/// and nowhere else.
pub proof fn joining_adds_at_the_end(list: Seq<Seq<char>>, sep: Seq<char>, one: Seq<char>)
    ensures
        join(seq![one], sep) == one,
        list.len() > 0 ==> join(list.push(one), sep) == join(list, sep) + sep + one,
        join(Seq::empty(), sep).len() == 0,
{
    assert(list.push(one).drop_last() =~= list);
}

/// A list of texts is seen text by text, and an optional one as it is.
pub proof fn texts_are_seen_as_they_are(list: Seq<String>, text: &str)
    ensures
        views(list).len() == list.len(),
        forall|i: int| 0 <= i < list.len() ==> (#[trigger] views(list)[i]) == list[i]@,
        view_of(Some(text)) == Some(text@),
        view_of(None) is None,
{
}

/// A number is written digit by digit.
pub proof fn a_number_is_written_by_its_digits(n: nat, d: nat)
    requires
        d < 10,
    ensures
        decimal(d) == seq!["0123456789"@[d as int]],
        n > 0 ==> decimal(n * 10 + d) == decimal(n).push("0123456789"@[d as int]),
{
    reveal_strlit("0123456789");
    assert((n * 10 + d) / 10 == n && (n * 10 + d) % 10 == d) by (nonlinear_arith)
        requires
            d < 10,
    ;
}

/// A number with zeros before it.
pub open spec fn padded(zeros: nat, n: nat) -> Seq<char> {
    Seq::new(zeros, |i: int| '0') + decimal(n)
}

/// A text is read as a number exactly if it writes one that is not too large,
/// with zeros before it or none, and a plus sign before those or none.
pub proof fn a_number_is_read_from_what_writes_it(s: Seq<char>, max: nat, n: nat)
    ensures
        parse(s, max) == Some(n) <==> n <= max && exists|zeros: nat|
            s == #[trigger] padded(zeros, n) || s == seq!['+'] + padded(zeros, n),
{
    let digits = without_plus(s);
    if parse(s, max) == Some(n) {
        let zeros = leading_zeros(digits);
        let written = padded(zeros, n);
        assert(digits =~= written);
        if s[0] == '+' {
            assert(s =~= seq!['+'] + written);
        }
        assert(s == written || s == seq!['+'] + padded(zeros, n));
    }
    if n <= max && exists|zeros: nat|
        s == #[trigger] padded(zeros, n) || s == seq!['+'] + padded(zeros, n) {
        let zeros = choose|zeros: nat|
            s == #[trigger] padded(zeros, n) || s == seq!['+'] + padded(zeros, n);
        let written = padded(zeros, n);
        zeros_change_nothing(zeros, n);
        assert(is_digit(written[0]));
        if s != written {
            assert(s.skip(1) =~= written);
        }
    }
}

proof fn zeros_change_nothing(zeros: nat, n: nat)
    ensures
        all_digits(padded(zeros, n)),
        value_of(padded(zeros, n)) == n,
        padded(zeros, n).len() > 0,
    decreases n,
{
    let nothing = Seq::new(zeros, |i: int| '0');
    let written = padded(zeros, n);
    decimal_reads_back(n);
    assert forall|i: int| 0 <= i < written.len() implies is_digit(#[trigger] written[i]) by {
        if i >= zeros {
            assert(written[i] == decimal(n)[i - zeros]);
        }
    }
    if n < 10 {
        assert(written.drop_last() =~= nothing);
        only_zeros_are_nothing(zeros);
        assert(decimal(n).drop_last() =~= Seq::empty());
        assert(value_of(decimal(n).drop_last()) == 0);
    } else {
        zeros_change_nothing(zeros, n / 10);
        assert(written.drop_last() =~= padded(zeros, n / 10));
        decimal_reads_back(n / 10);
        assert(decimal(n).drop_last() =~= decimal(n / 10));
    }
}

proof fn only_zeros_are_nothing(zeros: nat)
    ensures
        value_of(Seq::new(zeros, |i: int| '0')) == 0,
    decreases zeros,
{
    if zeros > 0 {
        only_zeros_are_nothing((zeros - 1) as nat);
        assert(Seq::new(zeros, |i: int| '0').drop_last() =~= Seq::new(
            (zeros - 1) as nat,
            |i: int| '0',
        ));
    }
}

proof fn leading_zeros(digits: Seq<char>) -> (zeros: nat)
    requires
        digits.len() > 0,
        all_digits(digits),
    ensures
        digits == padded(zeros, value_of(digits)),
    decreases digits.len(),
{
    let front = digits.drop_last();
    let d = digit_value(digits.last());
    let n = value_of(digits);
    assert(is_digit(digits[digits.len() - 1]));
    if digits.len() == 1 {
        assert(value_of(front) == 0);
        assert(digits =~= padded(0, n));
        0
    } else {
        assert forall|i: int| 0 <= i < front.len() implies is_digit(#[trigger] front[i]) by {
            assert(is_digit(digits[i]));
        }
        let zeros = leading_zeros(front);
        let m = value_of(front);
        assert(n == m * 10 + d);
        if m == 0 {
            let more = zeros + 1;
            assert(front =~= padded(zeros, 0));
            assert(decimal(0) =~= seq!['0']);
            assert(decimal(n) =~= seq![digits.last()]);
            assert(digits =~= front.push(digits.last()));
            assert(digits =~= padded(more, n));
            more
        } else {
            assert(n / 10 == m && n % 10 == d);
            assert(digits =~= front.push(digits.last()));
            assert(digits =~= padded(zeros, n));
            zeros
        }
    }
}

} // verus!
