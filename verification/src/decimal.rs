//! Decimal numerals: the names of blob files and the indices of entries.
//!
//! A numeral is an optional `+` followed by one or more ASCII digits, which is
//! what `usize`'s `FromStr` reads. Leading zeros are allowed.

use vstd::prelude::*;
use vstd::utf8::is_ascii_chars;

verus! {

/// Why a text is not the numeral of a machine integer.
#[derive(Clone, Copy, Debug, PartialEq, Eq, Structural)]
pub enum NumeralError {
    /// The text is not a numeral at all.
    Malformed,
    /// The text is a numeral whose value exceeds `usize::MAX`.
    TooLarge,
}

/// The byte is one of `0` to `9`.
pub open spec fn is_digit(b: u8) -> bool {
    48 <= b <= 57
}

/// The value of a digit; zero for any other byte.
pub open spec fn digit_value(b: u8) -> nat {
    if is_digit(b) {
        (b - 48) as nat
    } else {
        0
    }
}

/// Every byte of `s` is a digit.
pub open spec fn all_digits(s: Seq<u8>) -> bool {
    forall|i: int| 0 <= i < s.len() ==> is_digit(#[trigger] s[i])
}

/// The value of a run of digits, most significant digit first.
pub open spec fn digits_value(s: Seq<u8>) -> nat
    decreases s.len(),
{
    if s.len() == 0 {
        0
    } else {
        10 * digits_value(s.drop_last()) + digit_value(s.last())
    }
}

/// The digits of a numeral: the text without its leading `+`, if it has one.
pub open spec fn numeral_digits(s: Seq<u8>) -> Seq<u8> {
    if s.len() > 0 && s[0] == 43 {
        s.drop_first()
    } else {
        s
    }
}

/// `s` is a numeral: an optional `+`, then at least one digit and nothing else.
pub open spec fn is_numeral(s: Seq<u8>) -> bool {
    numeral_digits(s).len() > 0 && all_digits(numeral_digits(s))
}

/// The number that the numeral `s` denotes.
pub open spec fn numeral_value(s: Seq<u8>) -> nat {
    digits_value(numeral_digits(s))
}

/// The shortest numeral of `n`: its decimal digits without sign or leading zero.
pub open spec fn decimal_bytes(n: nat) -> Seq<u8>
    decreases n,
{
    if n < 10 {
        seq![(48 + n) as u8]
    } else {
        decimal_bytes(n / 10).push((48 + n % 10) as u8)
    }
}

/// The bytes of a text all of whose characters are ASCII.
pub open spec fn ascii_bytes(text: Seq<char>) -> Seq<u8> {
    Seq::new(text.len(), |i: int| text[i] as u8)
}

/// `text` is a numeral (and so made of ASCII characters only).
pub open spec fn text_is_numeral(text: Seq<char>) -> bool {
    is_ascii_chars(text) && is_numeral(ascii_bytes(text))
}

/// The number that the numeral `text` denotes.
pub open spec fn text_value(text: Seq<char>) -> nat {
    numeral_value(ascii_bytes(text))
}

/// Appending one digit multiplies the value by ten and adds the digit.
pub proof fn lemma_digits_value_push(s: Seq<u8>, b: u8)
    ensures
        digits_value(s.push(b)) == 10 * digits_value(s) + digit_value(b),
{
    assert(s.push(b).drop_last() =~= s);
}

/// Rendering and reading agree: the shortest numeral of `n` is a numeral,
/// carries no sign, and denotes `n`.
pub proof fn lemma_decimal_bytes_value(n: nat)
    ensures
        decimal_bytes(n).len() > 0,
        all_digits(decimal_bytes(n)),
        numeral_digits(decimal_bytes(n)) == decimal_bytes(n),
        is_numeral(decimal_bytes(n)),
        numeral_value(decimal_bytes(n)) == n,
    decreases n,
{
    let d = decimal_bytes(n);
    if n < 10 {
        let b = (48 + n) as u8;
        assert(d =~= Seq::<u8>::empty().push(b));
        lemma_digits_value_push(Seq::<u8>::empty(), b);
        assert(digits_value(Seq::<u8>::empty()) == 0);
        assert(d[0] == b);
    } else {
        let head = decimal_bytes(n / 10);
        let b = (48 + n % 10) as u8;
        lemma_decimal_bytes_value(n / 10);
        lemma_digits_value_push(head, b);
        assert(d == head.push(b));
        assert(d[0] == head[0]);
        assert(is_digit(head[0]));
        assert forall|i: int| 0 <= i < d.len() implies is_digit(#[trigger] d[i]) by {
            if i < head.len() {
                assert(d[i] == head[i]);
            }
        }
    }
}

/// Reads the numeral in `bytes`.
pub fn parse_numeral(bytes: &[u8]) -> (r: Result<usize, NumeralError>)
    ensures
        match r {
            Ok(v) => is_numeral(bytes@) && v == numeral_value(bytes@),
            Err(NumeralError::Malformed) => !is_numeral(bytes@),
            Err(NumeralError::TooLarge) => is_numeral(bytes@) && numeral_value(bytes@)
                > usize::MAX,
        },
{
    let n: usize = bytes.len();
    let start: usize = if n > 0 && bytes[0] == 43 {
        1
    } else {
        0
    };
    let ghost digits = numeral_digits(bytes@);
    assert(digits =~= bytes@.subrange(start as int, n as int));
    if start == n {
        return Err(NumeralError::Malformed);
    }
    let mut i: usize = start;
    let mut acc: usize = 0;
    let mut overflow = false;
    assert(bytes@.subrange(start as int, start as int) =~= Seq::<u8>::empty());
    while i < n
        invariant
            start <= i <= n,
            n == bytes@.len(),
            digits == numeral_digits(bytes@),
            digits == bytes@.subrange(start as int, n as int),
            forall|j: int| start <= j < i ==> is_digit(#[trigger] bytes@[j]),
            !overflow ==> acc == digits_value(bytes@.subrange(start as int, i as int)),
            overflow ==> digits_value(bytes@.subrange(start as int, i as int)) > usize::MAX,
        decreases n - i,
    {
        let b: u8 = bytes[i];
        if b < 48 || b > 57 {
            proof {
                assert(digits[i - start] == b);
                assert(!is_digit(digits[i - start]));
            }
            return Err(NumeralError::Malformed);
        }
        let d: usize = (b - 48) as usize;
        proof {
            let before = bytes@.subrange(start as int, i as int);
            assert(bytes@.subrange(start as int, i + 1) =~= before.push(b));
            lemma_digits_value_push(before, b);
        }
        if !overflow {
            match acc.checked_mul(10) {
                Some(m) => match m.checked_add(d) {
                    Some(v) => {
                        acc = v;
                    },
                    None => {
                        overflow = true;
                    },
                },
                None => {
                    overflow = true;
                },
            }
        }
        i = i + 1;
    }
    proof {
        assert(bytes@.subrange(start as int, i as int) == digits);
        assert forall|k: int| 0 <= k < digits.len() implies is_digit(#[trigger] digits[k]) by {
            assert(digits[k] == bytes@[k + start]);
        }
    }
    if overflow {
        Err(NumeralError::TooLarge)
    } else {
        Ok(acc)
    }
}

/// Reads the numeral in `text`.
pub fn parse_text(text: &str) -> (r: Result<usize, NumeralError>)
    ensures
        match r {
            Ok(v) => text_is_numeral(text@) && v == text_value(text@),
            Err(NumeralError::Malformed) => !text_is_numeral(text@),
            Err(NumeralError::TooLarge) => text_is_numeral(text@) && text_value(text@)
                > usize::MAX,
        },
{
    if !text.is_ascii() {
        return Err(NumeralError::Malformed);
    }
    proof {
        vstd::string::is_ascii_spec_bytes(text);
    }
    parse_numeral(text.as_bytes())
}

/// Appends the shortest numeral of `n` to `out`.
pub fn push_decimal(out: &mut Vec<u8>, n: usize)
    ensures
        final(out)@ == old(out)@ + decimal_bytes(n as nat),
    decreases n,
{
    if n >= 10 {
        push_decimal(out, n / 10);
    }
    let digit: u8 = 48 + (n % 10) as u8;
    out.push(digit);
    proof {
        let head = old(out)@;
        if n >= 10 {
            assert(out@ =~= head + decimal_bytes(n as nat / 10).push(digit));
        } else {
            assert(out@ =~= head + seq![digit]);
        }
    }
}

} // verus!
