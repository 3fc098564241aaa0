//! The signed variable-length integer.
//!
//! First byte: bit 0 is the sign, bits 1..7 carry the low value bits (with
//! bit 6 of the decoded first-byte contribution always cleared, a quirk of
//! the format kept for bit compatibility); bit 7 of every byte is a
//! continuation flag. Later bytes contribute 7 bits each at positions
//! 6, 13, 20, ...; bits past position 31 are discarded. The accumulated
//! magnitude is negated (two's complement) when the sign bit was set.
use vstd::prelude::*;

verus! {

use crate::error::Error;
use crate::tagfile::common::read_u8;

/// Position one past the last byte of the varint starting at `pos`, when the
/// data holds one: the first byte without the continuation flag ends it.
pub open spec fn varint_end(data: Seq<u8>, pos: int) -> Option<int>
    decreases data.len() - pos,
{
    if pos < 0 || pos >= data.len() {
        None
    } else if data[pos] & 0x80 != 0x80 {
        Some(pos + 1)
    } else {
        varint_end(data, pos + 1)
    }
}

/// Contribution of the continuation bytes from `pos` on, each giving its low
/// 7 bits at `shift`, `shift + 7`, ...; positions at or past 32 contribute
/// nothing.
pub open spec fn varint_rest(data: Seq<u8>, pos: int, shift: nat) -> u32
    decreases data.len() - pos,
{
    if pos < 0 || pos >= data.len() {
        0
    } else {
        let g = (data[pos] & 0x7f) as u32;
        let c: u32 = if shift < 32 {
            g << (shift as u32)
        } else {
            0
        };
        if data[pos] & 0x80 == 0x80 {
            c | varint_rest(data, pos + 1, shift + 7)
        } else {
            c
        }
    }
}

/// The unsigned magnitude of the varint at `pos`: the first byte's bits 1..7
/// (bit 6 of the contribution cleared) plus the continuation contributions.
pub open spec fn varint_raw(data: Seq<u8>, pos: int) -> u32 {
    let b0 = data[pos];
    let m0 = ((b0 >> 1) & 0xBF) as u32;
    if b0 & 0x80 == 0x80 {
        m0 | varint_rest(data, pos + 1, 6)
    } else {
        m0
    }
}

/// The decoded value of the varint at `pos`: the magnitude, negated in
/// two's complement when the sign bit (bit 0 of the first byte) is set.
pub open spec fn varint_value(data: Seq<u8>, pos: int) -> i32 {
    let m = varint_raw(data, pos) as int;
    let bits = if data[pos] & 1 == 1 {
        ((0x1_0000_0000 - m) % 0x1_0000_0000) as u32
    } else {
        m as u32
    };
    bits as i32
}

/// A terminated varint ends past its first byte and within the data.
pub proof fn lemma_varint_end_bounds(data: Seq<u8>, pos: int)
    ensures
        varint_end(data, pos) matches Some(e) ==> pos < e <= data.len(),
    decreases data.len() - pos,
{
    if 0 <= pos < data.len() && data[pos] & 0x80 == 0x80 {
        lemma_varint_end_bounds(data, pos + 1);
    }
}

proof fn lemma_or32_assoc(a: u32, b: u32, c: u32)
    by (bit_vector)
    ensures
        (a | b) | c == a | (b | c),
{
}

proof fn lemma_or32_zero(a: u32)
    by (bit_vector)
    ensures
        a | 0 == a,
{
}

/// Read a signed variable-length integer out of `data` at `*pos`, advancing
/// it; fails exactly when the data runs out before a byte without the
/// continuation flag.
pub fn read_i32(data: &[u8], pos: &mut usize) -> (r: Result<i32, Error>)
    ensures
        match r {
            Ok(v) => {
                &&& varint_end(data@, *old(pos) as int) == Some(*final(pos) as int)
                &&& v == varint_value(data@, *old(pos) as int)
                &&& *old(pos) < *final(pos) <= data@.len()
            },
            Err(_) => varint_end(data@, *old(pos) as int) is None && *final(pos) >= *old(pos) && (
            *final(pos) <= data@.len() || *final(pos) == *old(pos)),
        },
{
    let ghost p0: int = *old(pos) as int;
    let mut byte = read_u8(data, pos)?;
    let negative = byte & 1 == 1;
    let mut value: u32 = ((byte >> 1) & 0xBF) as u32;
    let mut shift: u32 = 6;
    let ghost mut gshift: nat = 6;

    while byte & 0x80 == 0x80
        invariant
            p0 == *old(pos),
            p0 < *pos <= data@.len(),
            byte == data@[*pos - 1],
            negative == (data@[p0] & 1 == 1),
            gshift >= 6,
            shift <= 38,
            gshift < 32 ==> shift == gshift,
            gshift >= 32 ==> shift >= 32,
            (byte & 0x80 == 0x80) ==> {
                &&& varint_end(data@, p0) == varint_end(data@, *pos as int)
                &&& varint_raw(data@, p0) == value | varint_rest(data@, *pos as int, gshift)
            },
            (byte & 0x80 != 0x80) ==> {
                &&& varint_end(data@, p0) == Some(*pos as int)
                &&& varint_raw(data@, p0) == value
            },
        decreases data@.len() - *pos,
    {
        byte = read_u8(data, pos)?;
        proof {
            let g = (byte & 0x7f) as u32;
            let c: u32 = if gshift < 32 {
                g << (gshift as u32)
            } else {
                0u32
            };
            let rest = varint_rest(data@, *pos as int, gshift + 7);
            lemma_or32_assoc(value, c, rest);
            lemma_or32_zero(value);
            lemma_or32_zero(rest);
        }
        if shift < 32 {
            value = value | (((byte & 0x7F) as u32) << shift);
        }
        if shift < 32 {
            shift = shift + 7;
        }
        proof {
            gshift = gshift + 7;
        }
    }

    let bits: u32 = if negative {
        let t: u64 = 0x1_0000_0000u64 - (value as u64);
        proof {
            let v = value;
            assert(t & 0xFFFF_FFFF == (0x1_0000_0000 - v) % 0x1_0000_0000 && t & 0xFFFF_FFFF
                < 0x1_0000_0000) by (bit_vector)
                requires
                    t == 0x1_0000_0000 - v,
            ;
        }
        (t & 0xFFFF_FFFF) as u32
    } else {
        value
    };
    Ok(#[verifier::truncate] (bits as i32))
}


/// The values and end position of `n` consecutive varints at `pos`.
pub open spec fn varints_read(data: Seq<u8>, pos: int, n: nat) -> Option<(Seq<i32>, int)>
    decreases n,
{
    if n == 0 {
        Some((Seq::empty(), pos))
    } else {
        match varint_end(data, pos) {
            None => None,
            Some(e) => match varints_read(data, e, (n - 1) as nat) {
                None => None,
                Some((rest, end)) => Some((seq![varint_value(data, pos)] + rest, end)),
            },
        }
    }
}

/// The 7-bit continuation groups of `m`, little-endian, each byte carrying
/// the continuation flag except the last; empty when `m` is zero.
pub open spec fn varint_enc_rest(m: nat) -> Seq<u8>
    decreases m,
{
    if m == 0 {
        Seq::empty()
    } else if m / 128 == 0 {
        seq![(m % 128) as u8]
    } else {
        seq![(m % 128 + 128) as u8] + varint_enc_rest(m / 128)
    }
}

/// The reference encoding of `v`: sign in bit 0 of the first byte, six value
/// bits in bits 1..7, then 7-bit continuation groups; the shortest encoding
/// of the magnitude.
pub open spec fn varint_encode(v: i32) -> Seq<u8> {
    let m: nat = if v < 0 {
        (-(v as int)) as nat
    } else {
        v as nat
    };
    let sign: nat = if v < 0 {
        1
    } else {
        0
    };
    let b0: u8 = if m / 64 > 0 {
        ((m % 64) * 2 + sign + 128) as u8
    } else {
        ((m % 64) * 2 + sign) as u8
    };
    seq![b0] + varint_enc_rest(m / 64)
}


/// Varint round trip: decoding the reference encoding of any `i32` yields
/// exactly that value and consumes exactly the encoding.
pub proof fn lemma_varint_round_trip(v: i32)
    ensures
        varint_end(varint_encode(v), 0) == Some(varint_encode(v).len() as int),
        varint_value(varint_encode(v), 0) == v,
{
    let bytes = varint_encode(v);
    let m: nat = if v < 0 {
        (-(v as int)) as nat
    } else {
        v as nat
    };
    let mu: u32 = m as u32;
    let sign: u32 = if v < 0 {
        1
    } else {
        0
    };
    assert(m == mu && mu <= 0x8000_0000 && sign <= 1);
    reveal_with_fuel(varint_enc_rest, 6);
    reveal_with_fuel(varint_end, 6);
    reveal_with_fuel(varint_rest, 6);

    if mu < 64 {
        assert(bytes =~= seq![((m % 64) * 2 + sign) as u8]);
        let b0 = bytes[0];
        assert(b0 & 0x80 != 0x80 && b0 & 1 == sign && ((b0 >> 1) & 0xBF) as u32 == mu)
            by (bit_vector)
            requires
                b0 == mu % 64 * 2 + sign,
                mu < 64,
                sign <= 1,
        ;
        assert(varint_end(bytes, 0) == Some(1int));
        assert(varint_raw(bytes, 0) == mu);
    } else if mu < 8192 {
        assert(m / 64 >= 1 && m / 64 < 128);
        assert(bytes =~= seq![((m % 64) * 2 + sign + 128) as u8, (m / 64 % 128) as u8]);
        let b0 = bytes[0];
        let b1 = bytes[1];
        assert(b0 & 0x80 == 0x80 && b1 & 0x80 != 0x80 && b0 & 1 == sign && (((b0 >> 1)
            & 0xBF) as u32 | (((b1 & 0x7F) as u32) << 6)) == mu) by (bit_vector)
            requires
                b0 == mu % 64 * 2 + sign + 128,
                b1 == mu / 64 % 128,
                64 <= mu < 8192,
                sign <= 1,
        ;
        assert(varint_end(bytes, 0) == Some(2int));
        assert(varint_raw(bytes, 0) == mu);
    } else if mu < 0x100000 {
        let r1: nat = m / 64;
        let r2: nat = r1 / 128;
        assert(r1 >= 128 && r2 >= 1 && r2 < 128);
        assert(bytes =~= seq![
            ((m % 64) * 2 + sign + 128) as u8,
            (r1 % 128 + 128) as u8,
            (r2 % 128) as u8,
        ]);
        let b0 = bytes[0];
        let b1 = bytes[1];
        let b2 = bytes[2];
        assert(b0 & 0x80 == 0x80 && b1 & 0x80 == 0x80 && b2 & 0x80 != 0x80 && b0 & 1 == sign && ((
        (b0 >> 1) & 0xBF) as u32 | ((((b1 & 0x7F) as u32) << 6) | (((b2 & 0x7F) as u32) << 13)))
            == mu) by (bit_vector)
            requires
                b0 == mu % 64 * 2 + sign + 128,
                b1 == mu / 64 % 128 + 128,
                b2 == mu / 64 / 128 % 128,
                8192 <= mu < 0x100000,
                sign <= 1,
        ;
        assert(varint_end(bytes, 0) == Some(3int));
        assert(varint_raw(bytes, 0) == mu);
    } else if mu < 0x8000000 {
        let r1: nat = m / 64;
        let r2: nat = r1 / 128;
        let r3: nat = r2 / 128;
        assert(r2 >= 128 && r3 >= 1 && r3 < 128);
        assert(bytes =~= seq![
            ((m % 64) * 2 + sign + 128) as u8,
            (r1 % 128 + 128) as u8,
            (r2 % 128 + 128) as u8,
            (r3 % 128) as u8,
        ]);
        let b0 = bytes[0];
        let b1 = bytes[1];
        let b2 = bytes[2];
        let b3 = bytes[3];
        assert(b0 & 0x80 == 0x80 && b1 & 0x80 == 0x80 && b2 & 0x80 == 0x80 && b3 & 0x80 != 0x80
            && b0 & 1 == sign && (((b0 >> 1) & 0xBF) as u32 | ((((b1 & 0x7F) as u32) << 6) | ((((
        b2 & 0x7F) as u32) << 13) | (((b3 & 0x7F) as u32) << 20)))) == mu) by (bit_vector)
            requires
                b0 == mu % 64 * 2 + sign + 128,
                b1 == mu / 64 % 128 + 128,
                b2 == mu / 64 / 128 % 128 + 128,
                b3 == mu / 64 / 128 / 128 % 128,
                0x100000 <= mu < 0x8000000,
                sign <= 1,
        ;
        assert(varint_end(bytes, 0) == Some(4int));
        assert(varint_raw(bytes, 0) == mu);
    } else {
        let r1: nat = m / 64;
        let r2: nat = r1 / 128;
        let r3: nat = r2 / 128;
        let r4: nat = r3 / 128;
        assert(r3 >= 128 && r4 >= 1 && r4 < 128);
        assert(bytes =~= seq![
            ((m % 64) * 2 + sign + 128) as u8,
            (r1 % 128 + 128) as u8,
            (r2 % 128 + 128) as u8,
            (r3 % 128 + 128) as u8,
            (r4 % 128) as u8,
        ]);
        let b0 = bytes[0];
        let b1 = bytes[1];
        let b2 = bytes[2];
        let b3 = bytes[3];
        let b4 = bytes[4];
        assert(b0 & 0x80 == 0x80 && b1 & 0x80 == 0x80 && b2 & 0x80 == 0x80 && b3 & 0x80 == 0x80
            && b4 & 0x80 != 0x80 && b0 & 1 == sign && (((b0 >> 1) & 0xBF) as u32 | ((((b1
            & 0x7F) as u32) << 6) | ((((b2 & 0x7F) as u32) << 13) | ((((b3 & 0x7F) as u32) << 20)
            | (((b4 & 0x7F) as u32) << 27))))) == mu) by (bit_vector)
            requires
                b0 == mu % 64 * 2 + sign + 128,
                b1 == mu / 64 % 128 + 128,
                b2 == mu / 64 / 128 % 128 + 128,
                b3 == mu / 64 / 128 / 128 % 128 + 128,
                b4 == mu / 64 / 128 / 128 / 128 % 128,
                0x8000000 <= mu <= 0x8000_0000,
                sign <= 1,
        ;
        assert(varint_end(bytes, 0) == Some(5int));
        assert(varint_raw(bytes, 0) == mu);
    }

    if v < 0 {
        let bits = ((0x1_0000_0000 - mu as int) % 0x1_0000_0000) as u32;
        assert(bits as i32 == v) by (bit_vector)
            requires
                1 <= mu <= 0x8000_0000,
                mu == -v,
                bits == (0x1_0000_0000 - mu) % 0x1_0000_0000,
        ;
    } else {
        assert(mu as i32 == v) by (bit_vector)
            requires
                mu < 0x8000_0000,
                mu == v,
        ;
    }
}

} // verus!
