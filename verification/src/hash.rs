//! Fingerprints: FNV-1a over 128 bits, which is stable across runs, machines
//! and versions.

use vstd::prelude::*;
use vstd::utf8::encode_utf8;

use crate::text::is_digit;

verus! {

pub const OFFSET: u128 = 0x6c62_272e_07bb_0142_62b8_2175_6295_c58d;

pub const PRIME: u128 = 0x0000_0000_0100_0000_0000_0000_0000_013b;

/// One byte into the hash.
pub open spec fn absorb(hash: u128, byte: u8) -> u128 {
    (hash ^ (byte as u128)).wrapping_mul(PRIME)
}

pub open spec fn absorb_bytes(hash: u128, bytes: Seq<u8>) -> u128
    decreases bytes.len(),
{
    if bytes.len() == 0 {
        hash
    } else {
        absorb(absorb_bytes(hash, bytes.drop_last()), bytes.last())
    }
}

/// The hash of the parts. A separator byte stands between neighbours, so that
/// moving a character from one part to the next changes the input.
pub open spec fn hash_parts(parts: Seq<Seq<char>>) -> u128
    decreases parts.len(),
{
    if parts.len() == 0 {
        OFFSET
    } else if parts.len() == 1 {
        absorb_bytes(OFFSET, encode_utf8(parts[0]))
    } else {
        absorb_bytes(absorb(hash_parts(parts.drop_last()), 0x1f), encode_utf8(parts.last()))
    }
}

pub open spec fn hex_char(d: int) -> char {
    if d < 10 {
        ((48 + d) as u8) as char
    } else {
        ((87 + d) as u8) as char
    }
}

/// The last `len` hexadecimal digits of `n`, in lower case.
pub open spec fn hex(n: nat, len: nat) -> Seq<char>
    decreases len,
{
    if len == 0 {
        Seq::empty()
    } else {
        hex(n / 16, (len - 1) as nat).push(hex_char((n % 16) as int))
    }
}

pub open spec fn fingerprint_of(parts: Seq<Seq<char>>) -> Seq<char> {
    hex(hash_parts(parts) as nat, 32)
}

fn hex_text(n: u128, len: u32) -> (r: String)
    ensures
        r@ == hex(n as nat, len as nat),
    decreases len,
{
    if len == 0 {
        String::new()
    } else {
        let d: u8 = (n % 16) as u8;
        let c: char = if d < 10 {
            (48 + d) as char
        } else {
            (87 + d) as char
        };
        let mut out = hex_text(n / 16, len - 1);
        out.push(c);
        out
    }
}

/// A 128-bit fingerprint of the parts, as 32 hexadecimal digits.
pub fn fingerprint(parts: &[&str]) -> (r: String)
    ensures
        r@ == fingerprint_of(parts@.map_values(|p: &str| p@)),
{
    let ghost all = parts@.map_values(|p: &str| p@);
    let mut hash: u128 = OFFSET;
    let mut i: usize = 0;
    assert(all.take(0) =~= Seq::empty());
    while i < parts.len()
        invariant
            i <= parts@.len(),
            all == parts@.map_values(|p: &str| p@),
            hash == hash_parts(all.take(i as int)),
        decreases parts@.len() - i,
    {
        if i > 0 {
            hash = (hash ^ 0x1f).wrapping_mul(PRIME);
        }
        let ghost start = hash;
        let bytes = parts[i].as_bytes();
        let mut j: usize = 0;
        assert(bytes@.take(0) =~= Seq::empty());
        while j < bytes.len()
            invariant
                j <= bytes@.len(),
                hash == absorb_bytes(start, bytes@.take(j as int)),
            decreases bytes@.len() - j,
        {
            hash = (hash ^ (bytes[j] as u128)).wrapping_mul(PRIME);
            assert(bytes@.take(j as int + 1).drop_last() =~= bytes@.take(j as int));
            j = j + 1;
        }
        assert(bytes@.take(j as int) =~= bytes@);
        assert(all.take(i as int + 1).drop_last() =~= all.take(i as int));
        assert(all.take(i as int + 1).last() == parts@[i as int]@);
        i = i + 1;
    }
    assert(all.take(i as int) =~= all);
    hex_text(hash, 32)
}

/// Hexadecimal text has the asked length and lower case digits only.
pub proof fn hex_shape(n: nat, len: nat)
    ensures
        hex(n, len).len() == len,
        forall|i: int|
            0 <= i < len ==> is_digit(#[trigger] hex(n, len)[i]) || ('a' <= hex(n, len)[i]
                && hex(n, len)[i] <= 'f'),
    decreases len,
{
    if len > 0 {
        hex_shape(n / 16, (len - 1) as nat);
    }
}

/// A fingerprint is 32 lower case hexadecimal digits.
pub proof fn fingerprint_shape(parts: Seq<Seq<char>>)
    ensures
        fingerprint_of(parts).len() == 32,
        forall|i: int|
            0 <= i < 32 ==> is_digit(#[trigger] fingerprint_of(parts)[i]) || ('a'
                <= fingerprint_of(parts)[i] && fingerprint_of(parts)[i] <= 'f'),
{
    hex_shape(hash_parts(parts) as nat, 32);
}

} // verus!
