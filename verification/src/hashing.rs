//! Hashes of texts and their hexadecimal form.

use vstd::prelude::*;
use vstd::utf8::encode_utf8;

use crate::json::hex_digit;

verus! {

/// The multiplier of the hash.
pub const HASH_PRIME: u64 = 0x100000001b3;

/// The usual start of the hash.
pub const HASH_SEED: u64 = 0xcbf29ce484222325;

/// One step of the hash.
pub open spec fn hash_step(hash: u64, byte: u8) -> u64 {
    (hash ^ (byte as u64)).wrapping_mul(HASH_PRIME)
}

/// The hash of bytes (FNV-1a with a given start).
pub open spec fn hash_of(bytes: Seq<u8>, seed: u64) -> u64
    decreases bytes.len(),
{
    if bytes.len() == 0 {
        seed
    } else {
        hash_step(hash_of(bytes.drop_last(), seed), bytes.last())
    }
}

/// The hash of the bytes of a text.
pub fn text_hash(text: &str, seed: u64) -> (r: u64)
    ensures
        r == hash_of(encode_utf8(text@), seed),
{
    let bytes = text.as_bytes();
    let ghost model = encode_utf8(text@);
    let mut hash: u64 = seed;
    let mut i: usize = 0;
    proof {
        assert(model.take(0).len() == 0);
    }
    while i < bytes.len()
        invariant
            i <= bytes@.len(),
            bytes@ == model,
            hash == hash_of(model.take(i as int), seed),
        decreases bytes.len() - i,
    {
        proof {
            assert(model.take(i + 1).drop_last() =~= model.take(i as int));
        }
        hash = (hash ^ (bytes[i] as u64)).wrapping_mul(HASH_PRIME);
        i += 1;
    }
    proof {
        assert(model.take(i as int) =~= model);
    }
    hash
}

/// The last `width` hexadecimal digits of a number.
pub open spec fn hexadecimal(n: nat, width: nat) -> Seq<char>
    decreases width,
{
    if width == 0 {
        Seq::empty()
    } else {
        hexadecimal(n / 16, (width - 1) as nat).push(hex_digit((n % 16) as int))
    }
}

fn digit_of(d: u64) -> (r: char)
    requires
        d < 16,
    ensures
        r == hex_digit(d as int),
{
    if d < 10 {
        (48 + d as u8) as char
    } else {
        (87 + d as u8) as char
    }
}

/// The hexadecimal digits of a number, with zeros before it up to a width.
pub fn hex_text(n: u64, width: u32) -> (r: String)
    ensures
        r@ == hexadecimal(n as nat, width as nat),
    decreases width,
{
    if width == 0 {
        String::new()
    } else {
        let mut text = hex_text(n / 16, width - 1);
        text.push(digit_of(n % 16));
        text
    }
}

/// A number is written with as many digits as were asked for, all of them hexadecimal.
pub proof fn law_hexadecimal_has_its_width(n: nat, width: nat, i: int)
    ensures
        hexadecimal(n, width).len() == width,
        0 <= i < width ==> '0' <= hexadecimal(n, width)[i] <= '9' || 'a' <= hexadecimal(
            n,
            width,
        )[i] <= 'f',
        width > 0 ==> hexadecimal(n, width).last() == hexadecimal(n % 16, 1)[0],
    decreases width,
{
    if width > 0 {
        law_hexadecimal_has_its_width(n / 16, (width - 1) as nat, i);
        let digit = (n % 16) as int;
        assert(hex_digit(digit) == hexadecimal(n, width).last());
        assert(hexadecimal(n % 16, 1) =~= hexadecimal((n % 16) / 16, 0).push(
            hex_digit(((n % 16) % 16) as int),
        ));
        assert((n % 16) % 16 == n % 16);
    }
}

/// Two numbers of the same digits are the same number, as far as the digits go.
pub proof fn law_digits_tell_the_number(a: nat, b: nat)
    requires
        hexadecimal(a, 1) == hexadecimal(b, 1),
    ensures
        a % 16 == b % 16,
{
    assert(hexadecimal(a, 1).last() == hex_digit((a % 16) as int));
    assert(hexadecimal(b, 1).last() == hex_digit((b % 16) as int));
}

} // verus!
