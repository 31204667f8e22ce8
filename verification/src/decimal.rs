//! Unsigned integers as decimal text, written and read back.

use vstd::prelude::*;
use vstd::string::*;

verus! {

/// The character is one of the ten decimal digits.
pub open spec fn is_digit(c: char) -> bool {
    '0' <= c <= '9'
}

/// The digit that stands for `d`, for `d` from 0 to 9.
pub open spec fn digit_char(d: int) -> char {
    if d == 0 {
        '0'
    } else if d == 1 {
        '1'
    } else if d == 2 {
        '2'
    } else if d == 3 {
        '3'
    } else if d == 4 {
        '4'
    } else if d == 5 {
        '5'
    } else if d == 6 {
        '6'
    } else if d == 7 {
        '7'
    } else if d == 8 {
        '8'
    } else {
        '9'
    }
}

/// The number that a digit stands for.
pub open spec fn digit_value(c: char) -> int {
    c as int - '0' as int
}

/// The decimal text of `n`: no sign, no leading zero, `"0"` for zero.
pub open spec fn decimal(n: nat) -> Seq<char>
    decreases n,
{
    if n < 10 {
        seq![digit_char(n as int)]
    } else {
        decimal(n / 10).push(digit_char((n % 10) as int))
    }
}

/// The number that a string of digits denotes, read as a decimal numeral.
pub open spec fn digits_value(s: Seq<char>) -> nat
    decreases s.len(),
{
    if s.len() == 0 {
        0
    } else {
        (digits_value(s.drop_last()) * 10 + digit_value(s.last())) as nat
    }
}

/// Every character of the string is a decimal digit.
pub open spec fn all_digits(s: Seq<char>) -> bool {
    forall|i: int| 0 <= i < s.len() ==> is_digit(#[trigger] s[i])
}

/// The string is a decimal numeral as `decimal` writes it: at least one
/// digit, and no leading zero but in `"0"` itself.
pub open spec fn canonical(s: Seq<char>) -> bool {
    &&& s.len() >= 1
    &&& all_digits(s)
    &&& (s.len() == 1 || s[0] != '0')
}

/// Each digit character stands for the digit it was made from.
pub proof fn lemma_digit_char(d: int)
    requires
        0 <= d <= 9,
    ensures
        is_digit(digit_char(d)),
        digit_value(digit_char(d)) == d,
{
}

/// A decimal text is canonical, and zero is the only number whose text
/// begins with the digit zero.
pub proof fn lemma_decimal_canonical(n: nat)
    ensures
        canonical(decimal(n)),
        decimal(n)[0] == '0' <==> n == 0,
    decreases n,
{
    if n < 10 {
        lemma_digit_char(n as int);
    } else {
        lemma_decimal_canonical(n / 10);
        lemma_digit_char((n % 10) as int);
        let head = decimal(n / 10);
        let text = decimal(n);
        assert(text == head.push(digit_char((n % 10) as int)));
        assert(text[0] == head[0]);
        assert forall|i: int| 0 <= i < text.len() implies is_digit(#[trigger] text[i]) by {
            if i < head.len() {
                assert(text[i] == head[i]);
            }
        }
    }
}

/// Reading a decimal text gives the number back.
pub proof fn lemma_decimal_value(n: nat)
    ensures
        digits_value(decimal(n)) == n,
    decreases n,
{
    if n < 10 {
        lemma_digit_char(n as int);
        let text = decimal(n);
        assert(text.drop_last() =~= Seq::<char>::empty());
        assert(digits_value(text.drop_last()) == 0);
    } else {
        lemma_decimal_value(n / 10);
        lemma_digit_char((n % 10) as int);
        let text = decimal(n);
        assert(text.drop_last() =~= decimal(n / 10));
    }
}

/// Writing the number that a canonical numeral denotes gives the numeral
/// back.
pub proof fn lemma_value_decimal(s: Seq<char>)
    requires
        canonical(s),
    ensures
        decimal(digits_value(s)) == s,
        s.len() >= 2 ==> digits_value(s) >= 10,
        s[0] != '0' ==> digits_value(s) >= 1,
    decreases s.len(),
{
    let head = s.drop_last();
    let d = digit_value(s.last());
    assert(is_digit(s.last()));
    assert(digit_char(d) == s.last());
    if s.len() == 1 {
        assert(head =~= Seq::<char>::empty());
        assert(digits_value(head) == 0);
        assert(digits_value(s) == d);
        assert(decimal(d as nat) =~= s);
    } else {
        assert(head[0] == s[0]);
        assert forall|i: int| 0 <= i < head.len() implies is_digit(#[trigger] head[i]) by {
            assert(head[i] == s[i]);
        }
        lemma_value_decimal(head);
        let v = digits_value(head);
        assert(v >= 1);
        assert(digits_value(s) == v * 10 + d);
        assert((v * 10 + d) / 10 == v);
        assert((v * 10 + d) % 10 == d);
        assert(decimal(digits_value(s)) =~= head.push(s.last()));
        assert(head.push(s.last()) =~= s);
    }
}

/// A string of digits denotes at least what any of its prefixes denotes.
pub proof fn lemma_prefix_value(s: Seq<char>, k: int)
    requires
        all_digits(s),
        0 <= k <= s.len(),
    ensures
        digits_value(s.take(k)) <= digits_value(s),
    decreases s.len() - k,
{
    if k == s.len() {
        assert(s.take(k) =~= s);
    } else {
        let head = s.drop_last();
        assert forall|i: int| 0 <= i < head.len() implies is_digit(#[trigger] head[i]) by {
            assert(head[i] == s[i]);
        }
        lemma_prefix_value(head, k);
        assert(head.take(k) =~= s.take(k));
        assert(is_digit(s.last()));
    }
}

/// The one-character text of a digit.
fn digit_str(d: u64) -> (text: &'static str)
    requires
        d <= 9,
    ensures
        text@ == seq![digit_char(d as int)],
{
    proof {
        reveal_strlit("0");
        reveal_strlit("1");
        reveal_strlit("2");
        reveal_strlit("3");
        reveal_strlit("4");
        reveal_strlit("5");
        reveal_strlit("6");
        reveal_strlit("7");
        reveal_strlit("8");
        reveal_strlit("9");
    }
    let text = if d == 0 {
        "0"
    } else if d == 1 {
        "1"
    } else if d == 2 {
        "2"
    } else if d == 3 {
        "3"
    } else if d == 4 {
        "4"
    } else if d == 5 {
        "5"
    } else if d == 6 {
        "6"
    } else if d == 7 {
        "7"
    } else if d == 8 {
        "8"
    } else {
        "9"
    };
    assert(text@ =~= seq![digit_char(d as int)]);
    text
}

/// Appends the decimal text of `n` to `out`.
pub fn append_decimal(out: &mut String, n: u64)
    ensures
        final(out)@ == old(out)@ + decimal(n as nat),
    decreases n,
{
    if n >= 10 {
        append_decimal(out, n / 10);
    }
    out.append(digit_str(n % 10));
    assert(out@ =~= old(out)@ + decimal(n as nat));
}

} // verus!
