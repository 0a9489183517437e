//! Port numbers in decimal notation.

use vstd::prelude::*;

use crate::text::chars_of;

verus! {

/// The character of a decimal digit.
pub open spec fn digit_char(d: int) -> char {
    ((48 + d) as u8) as char
}

/// `n` in decimal notation, without leading zeros.
pub open spec fn decimal(n: nat) -> Seq<char>
    decreases n,
{
    if n < 10 {
        seq![digit_char(n as int)]
    } else {
        decimal(n / 10).push(digit_char((n % 10) as int))
    }
}

/// Whether `s` is made of decimal digits only.
pub open spec fn all_digits(s: Seq<char>) -> bool {
    forall|i: int| 0 <= i < s.len() ==> '0' <= #[trigger] s[i] <= '9'
}

/// The number that the decimal digits `s` spell.
pub open spec fn digits_value(s: Seq<char>) -> nat
    decreases s.len(),
{
    if s.len() == 0 {
        0
    } else {
        (digits_value(s.drop_last()) * 10 + (s.last() as int - 48)) as nat
    }
}

/// `s` without one leading plus sign.
pub open spec fn without_plus(s: Seq<char>) -> Seq<char> {
    if s.len() > 0 && s[0] == '+' {
        s.drop_first()
    } else {
        s
    }
}

/// The 16-bit number that `s` spells: an optional plus sign and then decimal
/// digits, at least one, with a value in range. Anything else spells none.
pub open spec fn u16_value(s: Seq<char>) -> Option<u16> {
    let digits = without_plus(s);
    if digits.len() > 0 && all_digits(digits) && digits_value(digits) <= u16::MAX {
        Some(digits_value(digits) as u16)
    } else {
        None
    }
}

/// Appends `n` in decimal notation to `out`.
pub fn push_decimal(out: &mut String, n: u16)
    ensures
        final(out)@ == old(out)@ + decimal(n as nat),
    decreases n,
{
    if n >= 10 {
        push_decimal(out, n / 10);
    }
    let digit: u8 = (n % 10) as u8;
    out.push((48 + digit) as char);
    proof {
        assert(out@ =~= old(out)@ + decimal(n as nat));
    }
}

/// Reads a 16-bit number in decimal notation.
pub fn parse_u16(s: &str) -> (number: Option<u16>)
    ensures
        number == u16_value(s@),
{
    let chars: Vec<char> = chars_of(s);
    let start: usize = if chars.len() > 0 && chars[0] == '+' { 1 } else { 0 };
    let ghost digits = without_plus(s@);
    assert(digits == s@.skip(start as int)) by {
        assert(s@.skip(0) == s@);
    }
    if start == chars.len() {
        return None;
    }
    let mut value: u32 = 0;
    let mut fits: bool = true;
    let mut i: usize = start;
    assert(digits.take(0) == Seq::<char>::empty());
    while i < chars.len()
        invariant
            start <= i <= chars.len(),
            chars@ == s@,
            digits == s@.skip(start as int),
            digits == without_plus(s@),
            all_digits(digits.take(i - start)),
            fits ==> value == digits_value(digits.take(i - start)) && value <= u16::MAX,
            !fits ==> digits_value(digits.take(i - start)) > u16::MAX,
        decreases chars.len() - i,
    {
        let c: char = chars[i];
        let ghost here = digits.take(i - start);
        let ghost next = digits.take(i - start + 1);
        assert(next.drop_last() == here);
        assert(next.last() == c);
        assert(digits[i - start] == c);
        if !('0' <= c && c <= '9') {
            assert(!all_digits(digits));
            return None;
        }
        assert(next == here.push(c));
        if fits {
            value = value * 10 + (c as u32 - 48);
            if value > 65535 {
                fits = false;
            }
        }
        i += 1;
    }
    assert(digits.take(i - start) == digits);
    if fits {
        Some(value as u16)
    } else {
        None
    }
}

proof fn lemma_decimal_digits(n: nat)
    ensures
        decimal(n).len() > 0,
        all_digits(decimal(n)),
        digits_value(decimal(n)) == n,
    decreases n,
{
    if n < 10 {
        assert(decimal(n).drop_last() == Seq::<char>::empty());
        assert(digits_value(decimal(n).drop_last()) == 0);
        assert(decimal(n).last() == digit_char(n as int));
    } else {
        lemma_decimal_digits(n / 10);
        assert(decimal(n).drop_last() == decimal(n / 10));
    }
}

/// A number written in decimal notation is read back as itself.
pub proof fn law_decimal_is_read_back(n: u16)
    ensures
        u16_value(decimal(n as nat)) == Some(n),
{
    lemma_decimal_digits(n as nat);
    assert('0' <= decimal(n as nat)[0]);
}

/// Decimal notation has one digit for each number below ten, and each further digit
/// goes behind the digits of the tens.
pub proof fn law_decimal_notation(tens: nat, digit: nat)
    requires
        digit < 10,
    ensures
        decimal(digit) == seq!["0123456789"@[digit as int]],
        tens > 0 ==> decimal(10 * tens + digit) == decimal(tens).push("0123456789"@[digit as int]),
{
    reveal_strlit("0123456789");
    assert("0123456789"@[digit as int] == digit_char(digit as int));
    if tens > 0 {
        assert((10 * tens + digit) / 10 == tens);
        assert((10 * tens + digit) % 10 == digit);
    }
}

/// `n` zeros.
pub open spec fn zeros(n: nat) -> Seq<char> {
    Seq::new(n, |i: int| '0')
}

/// Digits are the decimal notation of their value, behind zeros.
proof fn lemma_digits_are_decimal(s: Seq<char>)
    requires
        s.len() > 0,
        all_digits(s),
    ensures
        decimal(digits_value(s)).len() <= s.len(),
        s == zeros((s.len() - decimal(digits_value(s)).len()) as nat) + decimal(digits_value(s)),
    decreases s.len(),
{
    let front = s.drop_last();
    let c = s.last();
    assert('0' <= s[s.len() - 1] <= '9');
    let d = c as int - 48;
    let w = digits_value(front);
    let v = digits_value(s);
    assert(v == 10 * w + d);
    assert(c == digit_char(d));
    assert(s =~= front.push(c));
    if front.len() == 0 {
        assert(w == 0);
        assert(s =~= zeros(0) + decimal(v));
    } else {
        assert(all_digits(front)) by {
            assert forall|i: int| 0 <= i < front.len() implies '0' <= #[trigger] front[i]
                <= '9' by {
                assert(front[i] == s[i]);
            }
        }
        lemma_digits_are_decimal(front);
        let k = (front.len() - decimal(w).len()) as nat;
        assert(front == zeros(k) + decimal(w));
        if w > 0 {
            assert(v / 10 == w && v % 10 == d);
            assert(decimal(v) == decimal(w).push(c));
            assert(s =~= zeros(k) + decimal(v));
        } else {
            assert(decimal(w) =~= seq!['0']);
            assert(decimal(v) =~= seq![c]);
            assert(s =~= zeros(k + 1) + decimal(v));
        }
    }
}

proof fn lemma_zeros_in_front(n: nat, s: Seq<char>)
    requires
        all_digits(s),
    ensures
        all_digits(zeros(n) + s),
        digits_value(zeros(n) + s) == digits_value(s),
    decreases n + s.len(),
{
    let all = zeros(n) + s;
    assert(all_digits(all));
    if s.len() > 0 {
        assert(all.drop_last() =~= zeros(n) + s.drop_last());
        assert(all_digits(s.drop_last())) by {
            assert forall|i: int| 0 <= i < s.len() - 1 implies '0' <= #[trigger] s.drop_last()[i]
                <= '9' by {
                assert(s.drop_last()[i] == s[i]);
            }
        }
        lemma_zeros_in_front(n, s.drop_last());
    } else if n > 0 {
        assert(all.drop_last() =~= zeros((n - 1) as nat) + s);
        lemma_zeros_in_front((n - 1) as nat, s);
        assert(digits_value(s) == 0);
        assert(digits_value(all) == 0);
    } else {
        assert(all =~= s);
    }
}

/// A text is read as the number `n` exactly if it is the decimal notation of `n`,
/// behind any number of zeros, and these behind a plus sign or nothing.
pub proof fn law_number_texts(s: Seq<char>, n: u16)
    ensures
        u16_value(s) == Some(n) <==> exists|k: nat|
            s == #[trigger] zeros(k) + decimal(n as nat) || s == seq!['+'] + (zeros(k) + decimal(
                n as nat,
            )),
{
    lemma_decimal_digits(n as nat);
    let digits = without_plus(s);
    if u16_value(s) == Some(n) {
        lemma_digits_are_decimal(digits);
        let k = (digits.len() - decimal(n as nat).len()) as nat;
        assert(digits == zeros(k) + decimal(n as nat));
        if s.len() > 0 && s[0] == '+' {
            assert(s =~= seq!['+'] + (zeros(k) + decimal(n as nat)));
        }
    }
    if exists|k: nat|
        s == #[trigger] zeros(k) + decimal(n as nat) || s == seq!['+'] + (zeros(k) + decimal(
            n as nat,
        )) {
        let k = choose|k: nat|
            s == #[trigger] zeros(k) + decimal(n as nat) || s == seq!['+'] + (zeros(k) + decimal(
                n as nat,
            ));
        let body = zeros(k) + decimal(n as nat);
        lemma_zeros_in_front(k, decimal(n as nat));
        assert('0' <= body[0] <= '9');
        if s == body {
            assert(digits == body);
        } else {
            assert(digits =~= body);
        }
    }
}

} // verus!
