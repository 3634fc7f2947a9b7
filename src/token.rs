//! Session tokens: 32 random hex digits, a `+`, and the minute at which the
//! token expires.

use vstd::prelude::*;
use vstd::slice::slice_subrange;
use vstd::utf8::encode_utf8;

use crate::packet::append;
use crate::text::all_digits;
use crate::text::decimal;
use crate::text::decimal_value;
use crate::text::is_ascii_bytes;
use crate::text::lemma_ascii_valid_utf8;
use crate::text::lemma_decimal_digits;
use crate::text::parse_decimal_u64;
use crate::text::push_decimal;
use crate::text::string_from_utf8;
use crate::time::minutes_since_unix;

verus! {

/// How long a new token stays valid.
pub const EXPIRE_AFTER_MINUTES: u64 = 2;

/// The byte that separates a token's random part from its expiry.
pub const SEPARATOR: u8 = 0x2B;

/// The lower-case hex digit for `n < 16`.
pub open spec fn hex_digit(n: nat) -> u8 {
    if n < 10 {
        (0x30 + n) as u8
    } else {
        (0x57 + n) as u8
    }
}

/// Two hex digits for each of the `k` low bytes of `v`, least significant
/// byte first, each byte high digit first.
pub open spec fn hex_bytes(v: nat, k: nat) -> Seq<u8>
    decreases k,
{
    if k == 0 {
        Seq::empty()
    } else {
        seq![hex_digit((v % 256) / 16), hex_digit(v % 16)] + hex_bytes(v / 256, (k - 1) as nat)
    }
}

/// The token made of two random numbers and an expiry minute.
pub open spec fn token_text(r1: u64, r2: u64, expiry: nat) -> Seq<u8> {
    hex_bytes(r1 as nat, 8) + hex_bytes(r2 as nat, 8) + seq![SEPARATOR] + decimal(expiry)
}

/// `i` is the position of the one separator in `b`.
pub open spec fn sole_separator_at(b: Seq<u8>, i: int) -> bool {
    0 <= i < b.len() && b[i] == SEPARATOR && forall|j: int|
        0 <= j < b.len() && j != i ==> #[trigger] b[j] != SEPARATOR
}

/// The expiry minute of a well-formed token: it holds exactly one separator,
/// followed by a non-empty run of decimal digits whose value fits 64 bits.
pub open spec fn token_expiry(b: Seq<u8>) -> Option<nat> {
    if exists|i: int| sole_separator_at(b, i) {
        let i = choose|i: int| sole_separator_at(b, i);
        let d = b.subrange(i + 1, b.len() as int);
        if d.len() > 0 && all_digits(d) && decimal_value(d) <= u64::MAX {
            Some(decimal_value(d))
        } else {
            None
        }
    } else {
        None
    }
}

proof fn lemma_hex_bytes(v: nat, k: nat)
    ensures
        hex_bytes(v, k).len() == 2 * k,
        is_ascii_bytes(hex_bytes(v, k)),
        forall|i: int| 0 <= i < hex_bytes(v, k).len() ==> #[trigger] hex_bytes(v, k)[i] != SEPARATOR,
    decreases k,
{
    if k > 0 {
        lemma_hex_bytes(v / 256, (k - 1) as nat);
    }
}

/// A token carries the expiry it was made with: reading it back gives that
/// minute.
pub proof fn lemma_token_expiry_round_trip(r1: u64, r2: u64, expiry: nat)
    requires
        expiry <= u64::MAX,
    ensures
        token_expiry(token_text(r1, r2, expiry)) == Some(expiry),
{
    let t = token_text(r1, r2, expiry);
    let h1 = hex_bytes(r1 as nat, 8);
    let h2 = hex_bytes(r2 as nat, 8);
    let d = decimal(expiry);
    lemma_hex_bytes(r1 as nat, 8);
    lemma_hex_bytes(r2 as nat, 8);
    lemma_decimal_digits(expiry);
    assert forall|j: int| 0 <= j < t.len() && j != 32 implies #[trigger] t[j] != SEPARATOR by {
        if j < 16 {
            assert(t[j] == h1[j]);
        } else if j < 32 {
            assert(t[j] == h2[j - 16]);
        } else {
            assert(t[j] == d[j - 33]);
            assert(crate::text::is_digit(d[j - 33]));
        }
    }
    assert(sole_separator_at(t, 32));
    let c = choose|k: int| sole_separator_at(t, k);
    assert(c == 32) by {
        if c != 32 {
            assert(t[32] != SEPARATOR);
        }
    }
    assert(t.subrange(33, t.len() as int) =~= d);
}

/// Relies on `fastrand::u64` over the full range: a random number, of which
/// nothing is known.
#[verifier::external_body]
fn random_u64() -> u64 {
    fastrand::u64(..)
}

fn push_hex_bytes(out: &mut Vec<u8>, v: u64)
    ensures
        final(out)@ == old(out)@ + hex_bytes(v as nat, 8),
{
    let ghost start = out@;
    let mut cur = v;
    let mut k: usize = 8;
    while k > 0
        invariant
            k <= 8,
            out@ + hex_bytes(cur as nat, k as nat) == start + hex_bytes(v as nat, 8),
        decreases k,
    {
        let byte = cur % 256;
        let hi = byte / 16;
        let lo = cur % 16;
        let ghost before = out@;
        out.push(if hi < 10 { (0x30 + hi) as u8 } else { (0x57 + hi) as u8 });
        out.push(if lo < 10 { (0x30 + lo) as u8 } else { (0x57 + lo) as u8 });
        assert(lo == (cur % 256) % 16);
        assert(out@ + hex_bytes((cur / 256) as nat, (k - 1) as nat) =~= before + hex_bytes(
            cur as nat,
            k as nat,
        ));
        cur = cur / 256;
        k = k - 1;
    }
    assert(out@ =~= start + hex_bytes(v as nat, 8));
}

/// The token for two random numbers at a given time: it expires
/// `EXPIRE_AFTER_MINUTES` after the whole minute `now_secs` falls in.
pub fn make_token(r1: u64, r2: u64, now_secs: u64) -> (t: String)
    ensures
        encode_utf8(t@) == token_text(r1, r2, (now_secs / 60 + EXPIRE_AFTER_MINUTES) as nat),
{
    let expiry = now_secs / 60 + EXPIRE_AFTER_MINUTES;
    let mut out: Vec<u8> = Vec::new();
    push_hex_bytes(&mut out, r1);
    push_hex_bytes(&mut out, r2);
    out.push(SEPARATOR);
    push_decimal(&mut out, expiry);
    proof {
        lemma_hex_bytes(r1 as nat, 8);
        lemma_hex_bytes(r2 as nat, 8);
        lemma_decimal_digits(expiry as nat);
        assert(out@ =~= token_text(r1, r2, expiry as nat));
        assert(is_ascii_bytes(out@));
        lemma_ascii_valid_utf8(out@);
    }
    string_from_utf8(out).unwrap()
}

/// A fresh token from two random numbers and the system clock.
pub fn generate_token() -> (t: String)
    ensures
        exists|r1: u64, r2: u64, expiry: nat| encode_utf8(t@) == token_text(r1, r2, expiry),
{
    let r1 = random_u64();
    let r2 = random_u64();
    let now_secs = crate::time::get_duration_since_unix().as_secs();
    make_token(r1, r2, now_secs)
}

/// Whether a token has expired at minute `now_minutes`: `Err` when it is not
/// well formed.
pub fn refresh_due(token: &str, now_minutes: u64) -> (r: Result<bool, &'static str>)
    ensures
        r is Err <==> token_expiry(encode_utf8(token@)) is None,
        r matches Ok(due) ==> due == (now_minutes >= token_expiry(encode_utf8(token@))->Some_0),
        r matches Err(m) ==> m@ == "Invalid token format"@,
{
    let b = token.as_bytes();
    let ghost bs = b@;
    let mut found: Option<usize> = None;
    let mut i: usize = 0;
    while i < b.len()
        invariant
            i <= bs.len(),
            b@ == bs,
            bs == encode_utf8(token@),
            found is None ==> forall|j: int| 0 <= j < i ==> #[trigger] bs[j] != SEPARATOR,
            found matches Some(at) ==> at < i && bs[at as int] == SEPARATOR && forall|j: int|
                0 <= j < i && j != at ==> #[trigger] bs[j] != SEPARATOR,
        decreases bs.len() - i,
    {
        if b[i] == SEPARATOR {
            if let Some(at) = found {
                assert forall|k: int| !sole_separator_at(bs, k) by {
                    if sole_separator_at(bs, k) {
                        if k != at {
                            assert(bs[at as int] != SEPARATOR);
                        } else {
                            assert(bs[i as int] != SEPARATOR);
                        }
                    }
                }
                return Err("Invalid token format");
            }
            found = Some(i);
        }
        i = i + 1;
    }
    let at = match found {
        Some(at) => at,
        None => {
            assert forall|k: int| !sole_separator_at(bs, k) by {
                if sole_separator_at(bs, k) {
                    assert(bs[k] != SEPARATOR);
                }
            }
            return Err("Invalid token format");
        },
    };
    assert(sole_separator_at(bs, at as int));
    proof {
        let c = choose|k: int| sole_separator_at(bs, k);
        assert(c == at) by {
            if c != at {
                assert(bs[at as int] != SEPARATOR);
            }
        }
    }
    match parse_decimal_u64(slice_subrange(b, at + 1, b.len())) {
        Some(expiry) => Ok(now_minutes >= expiry),
        None => Err("Invalid token format"),
    }
}

/// Whether a token should be replaced because it has expired by the system
/// clock: `Err` when it is not well formed.
pub fn should_refresh_token(token: &str) -> (r: Result<bool, &'static str>)
    ensures
        r is Err <==> token_expiry(encode_utf8(token@)) is None,
        r matches Err(m) ==> m@ == "Invalid token format"@,
{
    refresh_due(token, minutes_since_unix())
}

} // verus!
