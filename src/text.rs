//! Bytes to text: UTF-8 checking and decimal numbers.

use vstd::prelude::*;
use vstd::utf8::encode_utf8;
use vstd::utf8::is_leading_byte_width_1;
use vstd::utf8::partial_valid_utf8;
use vstd::utf8::partial_valid_utf8_extend_ascii_block;
use vstd::utf8::valid_utf8;

verus! {

/// Relies on `String::from_utf8`: it succeeds exactly on valid UTF-8, and the
/// string then holds those bytes.
#[verifier::external_body]
pub(crate) fn string_from_utf8(bytes: Vec<u8>) -> (r: Option<String>)
    ensures
        r is Some <==> valid_utf8(bytes@),
        r matches Some(s) ==> encode_utf8(s@) == bytes@,
{
    String::from_utf8(bytes).ok()
}

pub open spec fn is_ascii_bytes(b: Seq<u8>) -> bool {
    forall|i: int| 0 <= i < b.len() ==> b[i] < 0x80
}

/// ASCII bytes are valid UTF-8.
pub proof fn lemma_ascii_valid_utf8(b: Seq<u8>)
    requires
        is_ascii_bytes(b),
    ensures
        valid_utf8(b),
{
    assert(b.subrange(0, 0) =~= Seq::<u8>::empty());
    assert(valid_utf8(Seq::<u8>::empty()));
    assert forall|i: int| 0 <= 0 <= i < b.len() <= b.len() implies #[trigger] is_leading_byte_width_1(
        b[i],
    ) by {
        assert(b[i] < 0x80);
    }
    partial_valid_utf8_extend_ascii_block(b, 0, b.len() as int);
    assert(partial_valid_utf8(b, b.len() as int));
    assert(b.subrange(0, b.len() as int) =~= b);
}

pub open spec fn is_digit(c: u8) -> bool {
    0x30 <= c <= 0x39
}

pub open spec fn all_digits(b: Seq<u8>) -> bool {
    forall|i: int| 0 <= i < b.len() ==> is_digit(#[trigger] b[i])
}

/// The ASCII digit for `d`.
pub open spec fn digit(d: nat) -> u8 {
    (0x30 + d) as u8
}

/// The value of a string of decimal digits.
pub open spec fn decimal_value(b: Seq<u8>) -> nat
    decreases b.len(),
{
    if b.len() == 0 {
        0
    } else {
        decimal_value(b.drop_last()) * 10 + (b.last() - 0x30) as nat
    }
}

/// The decimal digits of `n`, without leading zeros.
pub open spec fn decimal(n: nat) -> Seq<u8>
    decreases n,
{
    if n < 10 {
        seq![digit(n)]
    } else {
        decimal(n / 10) + seq![digit(n % 10)]
    }
}

pub proof fn lemma_decimal_digits(n: nat)
    ensures
        all_digits(decimal(n)),
        is_ascii_bytes(decimal(n)),
        decimal(n).len() > 0,
        decimal_value(decimal(n)) == n,
    decreases n,
{
    if n >= 10 {
        lemma_decimal_digits(n / 10);
        assert(decimal(n).drop_last() =~= decimal(n / 10));
        assert(decimal(n).last() == digit(n % 10));
        assert(decimal_value(decimal(n)) == (n / 10) * 10 + n % 10);
    } else {
        assert(decimal(n).drop_last() =~= Seq::<u8>::empty());
        assert(decimal_value(Seq::<u8>::empty()) == 0);
    }
}

/// A longer digit string is worth at least as much as its prefix.
proof fn lemma_decimal_value_grows(b: Seq<u8>, i: int)
    requires
        all_digits(b),
        0 <= i <= b.len(),
    ensures
        decimal_value(b.subrange(0, i)) <= decimal_value(b),
    decreases b.len() - i,
{
    if i < b.len() {
        lemma_decimal_value_grows(b, i + 1);
        let p = b.subrange(0, i + 1);
        assert(p.drop_last() =~= b.subrange(0, i));
        assert(is_digit(p.last()));
        assert(decimal_value(p) == decimal_value(b.subrange(0, i)) * 10 + (p.last() - 0x30) as nat);
    } else {
        assert(b.subrange(0, i) =~= b);
    }
}

/// Appends the decimal digits of `n`.
pub fn push_decimal(out: &mut Vec<u8>, n: u64)
    ensures
        final(out)@ == old(out)@ + decimal(n as nat),
{
    let mut digits: Vec<u8> = Vec::new();
    let mut cur = n;
    while cur >= 10
        invariant
            decimal(n as nat) == decimal(cur as nat) + digits@,
        decreases cur,
    {
        let ghost before = digits@;
        digits.insert(0, (0x30 + cur % 10) as u8);
        assert(decimal(cur as nat) == decimal((cur / 10) as nat) + seq![digit((cur % 10) as nat)]);
        assert(digits@ =~= seq![digit((cur % 10) as nat)] + before);
        assert(decimal(n as nat) =~= decimal((cur / 10) as nat) + digits@);
        cur = cur / 10;
    }
    let ghost before = digits@;
    digits.insert(0, (0x30 + cur) as u8);
    assert(digits@ =~= decimal(cur as nat) + before);
    assert(decimal(n as nat) =~= digits@);
    crate::packet::append(out, digits.as_slice());
}

/// The value of `b` as a decimal `u64`: `None` unless `b` is a non-empty run of
/// ASCII digits whose value fits 64 bits.
pub fn parse_decimal_u64(b: &[u8]) -> (r: Option<u64>)
    ensures
        r is Some <==> (b@.len() > 0 && all_digits(b@) && decimal_value(b@) <= u64::MAX),
        r matches Some(v) ==> v == decimal_value(b@),
{
    if b.len() == 0 {
        return None;
    }
    let mut acc: u64 = 0;
    let mut i: usize = 0;
    while i < b.len()
        invariant
            i <= b@.len(),
            all_digits(b@.subrange(0, i as int)),
            acc == decimal_value(b@.subrange(0, i as int)),
        decreases b@.len() - i,
    {
        let c = b[i];
        if c < 0x30 || c > 0x39 {
            return None;
        }
        let d = (c - 0x30) as u64;
        let ghost p = b@.subrange(0, i + 1);
        assert(p.drop_last() =~= b@.subrange(0, i as int));
        if acc > (u64::MAX - d) / 10 {
            proof {
                assert(all_digits(p));
                assert(decimal_value(p) > u64::MAX) by (nonlinear_arith)
                    requires
                        decimal_value(p) == acc * 10 + d,
                        acc > (u64::MAX - d) / 10,
                        d <= 9,
                ;
                if all_digits(b@) {
                    lemma_decimal_value_grows(b@, i + 1);
                }
            }
            return None;
        }
        assert(acc * 10 + d <= u64::MAX) by (nonlinear_arith)
            requires
                acc <= (u64::MAX - d) / 10,
                d <= 9,
        ;
        acc = acc * 10 + d;
        i = i + 1;
        assert(all_digits(b@.subrange(0, i as int))) by {
            assert forall|k: int| 0 <= k < i implies is_digit(#[trigger] b@.subrange(0, i as int)[k]) by {
                if k < i - 1 {
                    assert(b@.subrange(0, i as int)[k] == b@.subrange(0, i - 1)[k]);
                }
            }
        }
    }
    assert(b@.subrange(0, b@.len() as int) =~= b@);
    Some(acc)
}

} // verus!
