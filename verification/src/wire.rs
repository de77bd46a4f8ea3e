//! Bytes on the wire: ASCII text, decimal numbers and the blank line that ends
//! a request head.

use vstd::prelude::*;
use vstd::string::is_ascii_spec_bytes;

verus! {

/// The bytes of an ASCII text: one byte for each character, in order.
pub open spec fn ascii(text: Seq<char>) -> Seq<u8> {
    Seq::new(text.len(), |i: int| text[i] as u8)
}

/// Appends an ASCII text to `buf` and returns how many bytes that took.
pub fn push_ascii(buf: &mut Vec<u8>, text: &str) -> (count: usize)
    requires
        text.is_ascii(),
    ensures
        final(buf)@ == old(buf)@ + ascii(text@),
        count == text@.len(),
{
    proof {
        is_ascii_spec_bytes(text);
    }
    let bytes = text.as_bytes();
    buf.extend_from_slice(bytes);
    bytes.len()
}

/// Appends `bytes` to `buf`.
pub fn push_bytes(buf: &mut Vec<u8>, bytes: &[u8])
    ensures
        final(buf)@ == old(buf)@ + bytes@,
{
    buf.extend_from_slice(bytes);
}

/// The ASCII digit that stands for `d`, for `d` below ten.
pub open spec fn digit(d: nat) -> u8 {
    (48 + d) as u8
}

/// True of the ten ASCII digits.
pub open spec fn is_digit(b: u8) -> bool {
    48 <= b <= 57
}

/// The decimal numeral of `n`: at least one digit, most significant first,
/// and no leading zero except for zero itself.
pub open spec fn decimal(n: nat) -> Seq<u8>
    decreases n,
{
    if n < 10 {
        seq![digit(n)]
    } else {
        decimal(n / 10).push(digit(n % 10))
    }
}

/// The number that a sequence of ASCII digits denotes.
pub open spec fn decimal_value(digits: Seq<u8>) -> nat
    decreases digits.len(),
{
    if digits.len() == 0 {
        0
    } else {
        10 * decimal_value(digits.drop_last()) + (digits.last() - 48) as nat
    }
}

/// A numeral is made of digits only, is never empty, starts with a zero only
/// when it is the numeral of zero, and denotes the number it was made from.
pub proof fn lemma_decimal_round_trip(n: nat)
    ensures
        decimal(n).len() >= 1,
        forall|i: int| 0 <= i < decimal(n).len() ==> is_digit(#[trigger] decimal(n)[i]),
        decimal(n)[0] == digit(0) <==> n == 0,
        decimal_value(decimal(n)) == n,
    decreases n,
{
    let numeral = decimal(n);
    if n < 10 {
        assert(numeral.drop_last() =~= Seq::<u8>::empty());
        assert(decimal_value(numeral.drop_last()) == 0);
        assert(numeral.last() == digit(n));
    } else {
        lemma_decimal_round_trip(n / 10);
        assert(numeral.drop_last() =~= decimal(n / 10));
        assert(numeral.last() == digit(n % 10));
        assert(numeral[0] == decimal(n / 10)[0]);
    }
}

/// Two different numbers never share a numeral.
pub proof fn lemma_decimal_injective(m: nat, n: nat)
    requires
        decimal(m) == decimal(n),
    ensures
        m == n,
{
    lemma_decimal_round_trip(m);
    lemma_decimal_round_trip(n);
}

/// Appends the decimal numeral of `n` to `buf`.
pub fn push_decimal(buf: &mut Vec<u8>, n: usize)
    ensures
        final(buf)@ == old(buf)@ + decimal(n as nat),
    decreases n,
{
    if n >= 10 {
        push_decimal(buf, n / 10);
    }
    let d: u8 = (n % 10) as u8;
    buf.push(48 + d);
    assert(final(buf)@ =~= old(buf)@ + decimal(n as nat));
}

/// The four bytes that end a request head: CR LF CR LF.
pub open spec fn terminator() -> Seq<u8> {
    seq![13u8, 10u8, 13u8, 10u8]
}

/// True when `bytes` ends with the terminator.
pub open spec fn terminated(bytes: Seq<u8>) -> bool {
    terminator().is_suffix_of(bytes)
}

/// Tells whether the buffer ends with the terminator.
pub fn ends_head(bytes: &Vec<u8>) -> (found: bool)
    ensures
        found == terminated(bytes@),
{
    let n = bytes.len();
    if n < 4 {
        return false;
    }
    let found = bytes[n - 4] == 13 && bytes[n - 3] == 10 && bytes[n - 2] == 13 && bytes[n - 1] == 10;
    proof {
        let tail = bytes@.subrange(n - 4, n as int);
        if found {
            assert(tail =~= terminator());
        } else {
            assert(tail[0] == bytes@[n - 4] && tail[1] == bytes@[n - 3] && tail[2] == bytes@[n - 2]
                && tail[3] == bytes@[n - 1]);
        }
    }
    found
}

} // verus!
