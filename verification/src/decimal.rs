//! Decimal notation: writing a number and reading one back.
use vstd::arithmetic::power::{lemma_pow0, pow};
use vstd::prelude::*;

use crate::text::chars_of;

verus! {

/// The character of the decimal digit `d`.
pub open spec fn digit(d: nat) -> char {
    (d + 0x30) as char
}

/// Whether `c` is one of the ten decimal digits.
pub open spec fn is_digit(c: char) -> bool {
    '0' <= c <= '9'
}

/// The value of the decimal digit `c`.
pub open spec fn digit_value(c: char) -> nat {
    if is_digit(c) {
        (c as nat - 0x30) as nat
    } else {
        0
    }
}

/// The decimal notation of `n`, without leading zeros.
pub open spec fn decimal(n: nat) -> Seq<char>
    decreases n,
{
    if n < 10 {
        seq![digit(n)]
    } else {
        decimal(n / 10).push(digit(n % 10))
    }
}

/// Whether `s` is made of decimal digits, of one at least.
pub open spec fn is_number(s: Seq<char>) -> bool {
    s.len() > 0 && forall|i: int| 0 <= i < s.len() ==> is_digit(#[trigger] s[i])
}

/// The value of the digits `s`.
pub open spec fn number_value(s: Seq<char>) -> nat
    decreases s.len(),
{
    if s.len() == 0 {
        0
    } else {
        number_value(s.drop_last()) * 10 + digit_value(s.last())
    }
}

/// The digits of `s`: what is left of it without a plus sign in front.
pub open spec fn unsigned_part(s: Seq<char>) -> Seq<char> {
    if s.len() > 0 && s.first() == '+' {
        s.drop_first()
    } else {
        s
    }
}

/// The number that `s` notes: digits, with or without a plus sign in front, whose value a `usize`
/// can hold. Any other text notes none.
pub open spec fn number_of(s: Seq<char>) -> Option<nat> {
    let digits = unsigned_part(s);
    if is_number(digits) && number_value(digits) <= usize::MAX {
        Some(number_value(digits))
    } else {
        None
    }
}

/// Every number can be read back from its decimal notation.
pub proof fn law_decimal_read_back(n: nat)
    ensures
        is_number(decimal(n)),
        number_value(decimal(n)) == n,
        unsigned_part(decimal(n)) == decimal(n),
        n <= usize::MAX ==> number_of(decimal(n)) == Some(n),
    decreases n,
{
    if n < 10 {
        assert(decimal(n).drop_last() =~= Seq::<char>::empty());
        assert(number_value(decimal(n).drop_last()) == 0);
    } else {
        law_decimal_read_back(n / 10);
        assert(decimal(n).drop_last() =~= decimal(n / 10));
    }
}

/// The digits of a prefix are worth no more than all the digits.
proof fn lemma_prefix_value(s: Seq<char>, k: int)
    requires
        0 <= k <= s.len(),
    ensures
        number_value(s.take(k)) <= number_value(s),
    decreases s.len(),
{
    if k == s.len() {
        assert(s.take(k) =~= s);
    } else {
        lemma_prefix_value(s.drop_last(), k);
        assert(s.drop_last().take(k) =~= s.take(k));
    }
}

/// The digit `d` as text.
fn digit_text(d: usize) -> (r: &'static str)
    requires
        d < 10,
    ensures
        r@ == seq![digit(d as nat)],
{
    proof {
        reveal_strlit("0");
        reveal_strlit("1");
        reveal_strlit("2");
        reveal_strlit("3");
        reveal_strlit("4");
        reveal_strlit("5");
        reveal_strlit("6");
        reveal_strlit("7");
        reveal_strlit("8");
        reveal_strlit("9");
    }
    match d {
        0 => "0",
        1 => "1",
        2 => "2",
        3 => "3",
        4 => "4",
        5 => "5",
        6 => "6",
        7 => "7",
        8 => "8",
        _ => "9",
    }
}

/// Writes `n` in decimal notation.
pub fn to_decimal(n: usize) -> (r: String)
    ensures
        r@ == decimal(n as nat),
    decreases n,
{
    let mut r: String = if n < 10 {
        String::new()
    } else {
        to_decimal(n / 10)
    };
    r.append(digit_text(n % 10));
    assert(r@ =~= decimal(n as nat));
    r
}

/// Reads the number that `s` notes.
pub fn parse_number(s: &str) -> (r: Option<usize>)
    ensures
        match r {
            Some(n) => number_of(s@) == Some(n as nat),
            None => number_of(s@) is None,
        },
{
    let chars: Vec<char> = chars_of(s);
    let start: usize = if chars.len() > 0 && chars[0] == '+' {
        1
    } else {
        0
    };
    let ghost digits = unsigned_part(s@);
    assert(digits =~= s@.skip(start as int));
    if start == chars.len() {
        return None;
    }
    let mut i: usize = start;
    let mut n: usize = 0;
    assert(digits.take(0) =~= Seq::<char>::empty());
    while i < chars.len()
        invariant
            start <= i <= chars.len(),
            chars@ == s@,
            digits == s@.skip(start as int),
            digits == unsigned_part(s@),
            n == number_value(digits.take(i - start)),
            forall|j: int| 0 <= j < i - start ==> is_digit(#[trigger] digits[j]),
        decreases chars.len() - i,
    {
        let c: char = chars[i];
        assert(c == digits[i - start]);
        if c < '0' || '9' < c {
            return None;
        }
        let d: usize = (c as u32 - 0x30) as usize;
        proof {
            let next = digits.take(i - start + 1);
            assert(next.drop_last() =~= digits.take(i - start));
            assert(number_value(next) == n * 10 + d);
            lemma_prefix_value(digits, i - start + 1);
        }
        match n.checked_mul(10) {
            None => return None,
            Some(tens) => match tens.checked_add(d) {
                None => return None,
                Some(sum) => n = sum,
            },
        }
        i = i + 1;
    }
    assert(digits.take(digits.len() as int) =~= digits);
    Some(n)
}

/// The ten digits stand in their order behind the character `0`, and each is worth its place
/// there. No other character is a digit.
pub proof fn law_digits(d: nat, c: char)
    requires
        d < 10,
    ensures
        digit(d) as u32 == '0' as u32 + d,
        digit_value(digit(d)) == d,
        is_digit(c) <==> '0' as u32 <= c as u32 <= '9' as u32,
        is_digit(c) ==> digit_value(c) == c as u32 - '0' as u32,
{
}

/// One more digit at the end makes ten times as much, and its own value more.
pub proof fn law_number_value_one_more_digit(s: Seq<char>, c: char)
    requires
        '0' <= c <= '9',
    ensures
        number_value(s.push(c)) == number_value(s) * 10 + (c as u32 - '0' as u32),
        number_value(Seq::empty()) == 0,
{
    assert(s.push(c).drop_last() =~= s);
}

/// A digit in front of `n` others is worth its value times ten to the power of `n`.
pub proof fn law_number_value_by_place(c: char, s: Seq<char>)
    requires
        '0' <= c <= '9',
    ensures
        number_value(seq![c] + s) == (c as u32 - '0' as u32) * pow(10, s.len()) + number_value(s),
    decreases s.len(),
{
    let d = c as u32 - '0' as u32;
    let all = seq![c] + s;
    if s.len() == 0 {
        lemma_pow0(10);
        assert(all.drop_last() =~= Seq::<char>::empty());
        assert(number_value(all.drop_last()) == 0);
        assert(all.last() == c);
        assert(d * pow(10, 0) == d);
    } else {
        let front = s.drop_last();
        law_number_value_by_place(c, front);
        assert(all.drop_last() =~= seq![c] + front);
        assert(all.last() == s.last());
        let p = pow(10, front.len());
        assert(pow(10, s.len()) == 10 * p) by {
            reveal(pow);
        }
        assert(d * (10 * p) == (d * p) * 10) by (nonlinear_arith);
    }
}

/// Digits note their value, with or without a plus sign in front, if a `usize` can hold it, and
/// otherwise nothing.
pub proof fn law_digits_are_a_number(s: Seq<char>)
    requires
        s.len() > 0,
        forall|i: int| 0 <= i < s.len() ==> '0' <= #[trigger] s[i] <= '9',
    ensures
        number_value(s) <= usize::MAX ==> {
            &&& number_of(s) == Some(number_value(s))
            &&& number_of(seq!['+'] + s) == Some(number_value(s))
        },
        number_value(s) > usize::MAX ==> {
            &&& number_of(s) is None
            &&& number_of(seq!['+'] + s) is None
        },
{
    let signed = seq!['+'] + s;
    assert(signed.drop_first() =~= s);
    assert(s[0] != '+');
}

/// A text notes a number only if it is made of digits, of one at least, with or without a plus
/// sign in front.
pub proof fn law_number_is_made_of_digits(s: Seq<char>)
    requires
        number_of(s) is Some,
    ensures
        ({
            let from: int = if s.len() > 0 && s[0] == '+' {
                1
            } else {
                0
            };
            &&& s.len() > from
            &&& forall|i: int| from <= i < s.len() ==> '0' <= #[trigger] s[i] <= '9'
            &&& number_of(s) == Some(number_value(s.skip(from)))
            &&& number_of(s)->0 <= usize::MAX
        }),
{
    let from: int = if s.len() > 0 && s[0] == '+' {
        1
    } else {
        0
    };
    let digits = unsigned_part(s);
    assert(digits =~= s.skip(from));
    assert forall|i: int| from <= i < s.len() implies '0' <= #[trigger] s[i] <= '9' by {
        assert(is_digit(digits[i - from]));
    }
}

/// The decimal notation is the one that has no zero in front: whatever digits note `n` without
/// one are the decimal notation of `n`.
pub proof fn law_decimal_is_the_notation(s: Seq<char>)
    requires
        s.len() > 0,
        forall|i: int| 0 <= i < s.len() ==> '0' <= #[trigger] s[i] <= '9',
        s.len() > 1 ==> s[0] != '0',
    ensures
        decimal(number_value(s)) == s,
    decreases s.len(),
{
    let front = s.drop_last();
    let d = digit_value(s.last());
    assert('0' <= s[s.len() - 1] <= '9');
    if s.len() == 1 {
        assert(front =~= Seq::<char>::empty());
        assert(number_value(front) == 0);
        assert(decimal(number_value(s)) =~= s);
    } else {
        assert forall|i: int| 0 <= i < front.len() implies '0' <= #[trigger] front[i] <= '9' by {
            assert(front[i] == s[i]);
        }
        assert(front[0] == s[0]);
        law_decimal_is_the_notation(front);
        lemma_value_is_positive(front);
        let n = number_value(s);
        assert(n / 10 == number_value(front));
        assert(n % 10 == d);
        assert(decimal(n) =~= s);
    }
}

/// Digits that begin with another than zero are worth more than nothing.
proof fn lemma_value_is_positive(s: Seq<char>)
    requires
        s.len() > 0,
        '0' < s[0] <= '9',
    ensures
        number_value(s) > 0,
{
    lemma_prefix_value(s, 1);
    let first = s.take(1);
    assert(first.drop_last() =~= Seq::<char>::empty());
    assert(first.last() == s[0]);
    assert(number_value(first) == number_value(first.drop_last()) * 10 + digit_value(s[0]));
}

/// The decimal notation of a number is made of digits, one for a number under ten, and does not
/// begin with a zero otherwise.
pub proof fn law_decimal_has_no_zero_in_front(n: nat)
    ensures
        forall|i: int| 0 <= i < decimal(n).len() ==> '0' <= #[trigger] decimal(n)[i] <= '9',
        decimal(n).len() > 0,
        n < 10 <==> decimal(n).len() == 1,
        n >= 10 ==> decimal(n)[0] != '0',
    decreases n,
{
    law_decimal_read_back(n);
    assert forall|i: int| 0 <= i < decimal(n).len() implies '0' <= #[trigger] decimal(n)[i]
        <= '9' by {
        assert(is_digit(decimal(n)[i]));
    }
    if n >= 10 {
        law_decimal_has_no_zero_in_front(n / 10);
        assert(decimal(n)[0] == decimal(n / 10)[0]);
    }
}

} // verus!
