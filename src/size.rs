//! The four-byte size prefix of a frame.
use vstd::prelude::*;
use vstd::arithmetic::div_mod::{lemma_fundamental_div_mod, lemma_div_denominator};
use crate::settings::ByteOrder;

verus! {

/// Number of bytes in a size prefix.
pub const SIZE_PREFIX_LEN: usize = 4;

/// The value of a four-byte size prefix, most significant byte first.
pub open spec fn big_endian_value(h: Seq<u8>) -> nat {
    (h[0] as nat) * 16777216 + (h[1] as nat) * 65536 + (h[2] as nat) * 256 + (h[3] as nat)
}

/// The value that a four-byte size prefix `h` declares under `order`.
pub open spec fn size_value(h: Seq<u8>, order: ByteOrder) -> nat {
    match order {
        ByteOrder::BigEndian => big_endian_value(h),
        ByteOrder::LittleEndian => big_endian_value(seq![h[3], h[2], h[1], h[0]]),
    }
}

/// The four bytes of `n`, most significant first.
pub open spec fn big_endian_bytes(n: nat) -> Seq<u8> {
    seq![
        ((n / 16777216) % 256) as u8,
        ((n / 65536) % 256) as u8,
        ((n / 256) % 256) as u8,
        (n % 256) as u8,
    ]
}

/// The size prefix that declares `n` under `order`.
pub open spec fn size_prefix(n: nat, order: ByteOrder) -> Seq<u8> {
    let b = big_endian_bytes(n);
    match order {
        ByteOrder::BigEndian => b,
        ByteOrder::LittleEndian => seq![b[3], b[2], b[1], b[0]],
    }
}

/// A size prefix holds its value: reading back the prefix of `n` gives `n`.
pub proof fn lemma_size_prefix_round_trip(n: nat, order: ByteOrder)
    requires
        n <= u32::MAX,
    ensures
        size_prefix(n, order).len() == 4,
        size_value(size_prefix(n, order), order) == n,
{
    let x = n as int;
    lemma_fundamental_div_mod(x, 256);
    lemma_fundamental_div_mod(x / 256, 256);
    lemma_fundamental_div_mod(x / 65536, 256);
    lemma_div_denominator(x, 256, 256);
    lemma_div_denominator(x, 65536, 256);
    assert(x / 16777216 < 256);
    let b = big_endian_bytes(n);
    assert(b[0] as int == x / 16777216);
    assert(b[1] as int == (x / 65536) % 256);
    assert(b[2] as int == (x / 256) % 256);
    assert(b[3] as int == x % 256);
}

/// Builds the size prefix of `n`.
pub fn encode_size(n: u32, order: ByteOrder) -> (r: Vec<u8>)
    ensures
        r@ == size_prefix(n as nat, order),
{
    let b0: u8 = ((n / 16777216) % 256) as u8;
    let b1: u8 = ((n / 65536) % 256) as u8;
    let b2: u8 = ((n / 256) % 256) as u8;
    let b3: u8 = (n % 256) as u8;
    let r = match order {
        ByteOrder::BigEndian => vec![b0, b1, b2, b3],
        ByteOrder::LittleEndian => vec![b3, b2, b1, b0],
    };
    assert(r@ =~= size_prefix(n as nat, order));
    r
}

/// Reads the value of a four-byte size prefix.
pub fn decode_size(h: &[u8], order: ByteOrder) -> (r: u32)
    requires
        h@.len() == 4,
    ensures
        r as nat == size_value(h@, order),
{
    let (b0, b1, b2, b3) = match order {
        ByteOrder::BigEndian => (h[0], h[1], h[2], h[3]),
        ByteOrder::LittleEndian => (h[3], h[2], h[1], h[0]),
    };
    (b0 as u32) * 16777216 + (b1 as u32) * 65536 + (b2 as u32) * 256 + (b3 as u32)
}

} // verus!
