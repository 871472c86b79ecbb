//! Decimal numerals and the other plain text that messages are made of.

use vstd::prelude::*;

verus! {

broadcast use vstd::string::group_string_axioms;

/// `String::push`: the character is appended to the text, which is otherwise left as it was.
pub assume_specification[ String::push ](s: &mut String, c: char)
    ensures
        final(s)@ == old(s)@.push(c),
;

/// One of the ten characters `0` to `9`.
pub open spec fn is_digit(c: char) -> bool {
    '0' <= c <= '9'
}

/// What the digit `c` is worth.
pub open spec fn digit_value(c: char) -> nat {
    (c as int - '0' as int) as nat
}

/// The digit that is worth `n`, for `n` below ten.
pub open spec fn digit(n: nat) -> char {
    (('0' as int + n) as u32) as char
}

/// A numeral: at least one digit, and nothing but digits.
pub open spec fn is_numeral(s: Seq<char>) -> bool {
    &&& s.len() > 0
    &&& forall|i: int| 0 <= i < s.len() ==> is_digit(#[trigger] s[i])
}

/// The number that a numeral stands for.
pub open spec fn value(s: Seq<char>) -> nat
    decreases s.len(),
{
    if s.len() == 0 {
        0
    } else {
        value(s.drop_last()) * 10 + digit_value(s.last())
    }
}

/// The numeral of `n` without leading zeros.
pub open spec fn decimal(n: nat) -> Seq<char>
    decreases n,
{
    if n < 10 {
        seq![digit(n)]
    } else {
        decimal(n / 10).push(digit(n % 10))
    }
}

/// The numeral of `n`, with a minus sign in front where `n` is negative.
pub open spec fn signed_decimal(n: int) -> Seq<char> {
    if n < 0 {
        seq!['-'] + decimal((-n) as nat)
    } else {
        decimal(n as nat)
    }
}

/// The numeral of `n`, filled up with a zero to two digits.
pub open spec fn two_digits(n: nat) -> Seq<char>
    recommends
        n < 100,
{
    seq![digit(n / 10), digit(n % 10)]
}

pub(crate) proof fn lemma_digit(n: nat)
    requires
        n < 10,
    ensures
        is_digit(digit(n)),
        digit_value(digit(n)) == n,
{
}

/// The ten digits are the ten characters from `0` on, and the one that is worth `n` is the `n`-th
/// after `0`.
pub proof fn law_digits_follow_zero(n: nat, c: char)
    ensures
        n < 10 ==> digit(n) as int == 48 + n,
        is_digit(c) <==> 48 <= c as int && c as int <= 57,
        is_digit(c) ==> digit_value(c) == c as int - 48,
{
}

/// A numeral is any text of one or more digits, however long. Nothing is worth 0, and a digit more
/// at the end makes ten times the number, and what the digit is worth.
pub proof fn law_numerals_are_decimal(s: Seq<char>, c: char)
    ensures
        is_numeral(s) <==> s.len() > 0 && forall|i: int|
            0 <= i < s.len() ==> 48 <= (#[trigger] s[i]) as int && s[i] as int <= 57,
        value(Seq::empty()) == 0,
        48 <= c as int && c as int <= 57 ==> value(s.push(c)) == 10 * value(s) + (c as int - 48),
{
    assert(s.push(c).drop_last() =~= s);
    assert forall|i: int| 0 <= i < s.len() && is_numeral(s) implies 48 <= (#[trigger] s[i]) as int
        && s[i] as int <= 57 by {
        assert(is_digit(s[i]));
    }
}

/// The numeral of a number does not start with a zero, but for that of 0; and the numeral of a
/// number with a digit more at its end is the numeral with that digit behind it.
pub proof fn law_decimal_has_no_leading_zeros(n: nat, d: nat)
    requires
        d < 10,
    ensures
        n > 0 ==> decimal(n).len() > 0 && decimal(n)[0] != '0',
        decimal(d).len() == 1 && decimal(d)[0] as int == 48 + d,
        n > 0 ==> decimal(10 * n + d).drop_last() == decimal(n) && decimal(10 * n + d).last() as int
            == 48 + d,
    decreases n,
{
    if n >= 10 {
        law_decimal_has_no_leading_zeros(n / 10, 0);
    }
    if n > 0 {
        assert((10 * n + d) / 10 == n && (10 * n + d) % 10 == d);
        assert(decimal(10 * n + d).drop_last() =~= decimal(n));
    }
}

/// A minus sign stands in front of the numerals of the numbers below 0 and of no other; the rest is
/// the numeral of the number without its sign.
pub proof fn law_signs_are_shown(n: nat)
    ensures
        signed_decimal(n as int) == decimal(n),
        n > 0 ==> signed_decimal(-n).len() > 0 && signed_decimal(-n)[0] == '-' && signed_decimal(
            -n,
        ).skip(1) == decimal(n),
{
    if n > 0 {
        assert(signed_decimal(-n).skip(1) =~= decimal(n));
    }
}

/// Two digits show the tens and the ones.
pub proof fn law_two_digits(tens: nat, ones: nat)
    requires
        tens < 10,
        ones < 10,
    ensures
        two_digits(10 * tens + ones).len() == 2,
        two_digits(10 * tens + ones)[0] as int == 48 + tens,
        two_digits(10 * tens + ones)[1] as int == 48 + ones,
{
}

/// Reading the numeral of a number gives the number back.
pub proof fn law_decimal_value(n: nat)
    ensures
        is_numeral(decimal(n)),
        value(decimal(n)) == n,
    decreases n,
{
    if n < 10 {
        lemma_digit(n);
        assert(decimal(n).drop_last() =~= Seq::<char>::empty());
        assert(value(Seq::<char>::empty()) == 0);
    } else {
        law_decimal_value(n / 10);
        lemma_digit(n % 10);
        assert(decimal(n).drop_last() =~= decimal(n / 10));
    }
}

/// Reading a number written with two digits gives the number back.
pub(crate) proof fn lemma_two_digits_value(n: nat)
    requires
        n < 100,
    ensures
        is_numeral(two_digits(n)),
        value(two_digits(n)) == n,
{
    lemma_digit(n / 10);
    lemma_digit(n % 10);
    let t = two_digits(n);
    assert(t.drop_last() =~= seq![digit(n / 10)]);
    assert(t.drop_last().drop_last() =~= Seq::<char>::empty());
    assert(value(t.drop_last().drop_last()) == 0);
    assert(value(t.drop_last()) == n / 10);
}

/// Appends the digit that is worth `n`.
fn push_digit(out: &mut String, n: u8)
    requires
        n < 10,
    ensures
        final(out)@ == old(out)@.push(digit(n as nat)),
{
    out.push((48u8 + n) as char);
}

/// Appends the numeral of `n`.
pub fn push_decimal(out: &mut String, n: u64)
    ensures
        final(out)@ == old(out)@ + decimal(n as nat),
    decreases n,
{
    if n >= 10 {
        push_decimal(out, n / 10);
    }
    push_digit(out, (n % 10) as u8);
    assert(out@ =~= old(out)@ + decimal(n as nat));
}

/// Appends the numeral of `n`, with its sign where `n` is negative.
pub fn push_signed(out: &mut String, n: i64)
    ensures
        final(out)@ == old(out)@ + signed_decimal(n as int),
{
    if n >= 0 {
        push_decimal(out, n as u64);
    } else {
        out.push('-');
        let magnitude: u64 = (-(n as i128)) as u64;
        push_decimal(out, magnitude);
        assert(out@ =~= old(out)@ + signed_decimal(n as int));
    }
}

/// Appends the numeral of `n`, filled up with a zero to two digits.
pub fn push_two_digits(out: &mut String, n: u8)
    requires
        n < 100,
    ensures
        final(out)@ == old(out)@ + two_digits(n as nat),
{
    push_digit(out, n / 10);
    push_digit(out, n % 10);
    assert(out@ =~= old(out)@ + two_digits(n as nat));
}

/// The value of a numeral never falls when digits are added at its end.
proof fn lemma_value_prefix(s: Seq<char>, i: int)
    requires
        0 <= i <= s.len(),
        forall|j: int| 0 <= j < s.len() ==> is_digit(#[trigger] s[j]),
    ensures
        value(s.take(i)) <= value(s),
    decreases s.len() - i,
{
    if i < s.len() {
        lemma_value_prefix(s, i + 1);
        assert(s.take(i + 1).drop_last() =~= s.take(i));
    } else {
        assert(s.take(i) =~= s);
    }
}

/// Reads a numeral. Anything that is not a numeral, or is too large for a `usize`, is `None`.
pub fn parse_number(s: &str) -> (r: Option<usize>)
    ensures
        r == (if is_numeral(s@) && value(s@) <= usize::MAX {
            Some(value(s@) as usize)
        } else {
            None
        }),
{
    let mut total: usize = 0;
    let mut any = false;
    assert(s@.take(0) =~= Seq::<char>::empty());
    for c in it: s.chars()
        invariant
            it.seq() == s@,
            any == (it.index() > 0),
            forall|j: int| 0 <= j < it.index() ==> is_digit(#[trigger] s@[j]),
            total == value(s@.take(it.index())),
    {
        let ghost i = it.index();
        any = true;
        if c < '0' || c > '9' {
            assert(!is_digit(s@[i]));
            return None;
        }
        assert(s@.take(i + 1).drop_last() =~= s@.take(i));
        let d: usize = (c as u32 - 48) as usize;
        proof {
            if is_numeral(s@) {
                lemma_value_prefix(s@, i + 1);
            }
        }
        match total.checked_mul(10) {
            None => {
                return None;
            },
            Some(tens) => match tens.checked_add(d) {
                None => {
                    return None;
                },
                Some(sum) => {
                    total = sum;
                },
            },
        }
    }
    assert(s@.take(s@.len() as int) =~= s@);
    if any {
        Some(total)
    } else {
        None
    }
}

/// Whether `content` is the text `text` and nothing else.
pub fn is_text(content: &str, text: &str) -> (r: bool)
    ensures
        r == (content@ == text@),
{
    content.to_owned() == text.to_owned()
}

} // verus!
