//! Fixed-width little-endian primitive reads over a byte buffer.
use vstd::prelude::*;

verus! {

use crate::error::Error;

/// The little-endian value of the `n` bytes of `data` starting at `pos`.
pub open spec fn le_bytes_val(data: Seq<u8>, pos: int, n: nat) -> int
    decreases n,
{
    if n == 0 {
        0
    } else {
        data[pos] + 256 * le_bytes_val(data, pos + 1, (n - 1) as nat)
    }
}

/// Read one byte out of `data` at `*pos`, advancing it.
pub fn read_u8(data: &[u8], pos: &mut usize) -> (r: Result<u8, Error>)
    ensures
        match r {
            Ok(b) => *old(pos) < data@.len() && b == data@[*old(pos) as int] && *final(pos)
                == *old(pos) + 1,
            Err(_) => *old(pos) >= data@.len() && *final(pos) == *old(pos),
        },
{
    if *pos < data.len() {
        let b = data[*pos];
        *pos = *pos + 1;
        Ok(b)
    } else {
        Err(Error::Invalid("unexpected end of data"))
    }
}

/// Read a little-endian `u16` out of `data` at `*pos`, advancing it.
pub fn read_u16(data: &[u8], pos: &mut usize) -> (r: Result<u16, Error>)
    ensures
        match r {
            Ok(v) => *old(pos) + 2 <= data@.len() && v == le_bytes_val(data@, *old(pos) as int, 2)
                && *final(pos) == *old(pos) + 2,
            Err(_) => *old(pos) + 2 > data@.len() && *final(pos) == *old(pos),
        },
{
    if *pos < data.len() && data.len() - *pos >= 2 {
        let b0 = data[*pos];
        let b1 = data[*pos + 1];
        let v: u16 = b0 as u16 + 256 * (b1 as u16);
        *pos = *pos + 2;
        proof {
            reveal_with_fuel(le_bytes_val, 3);
        }
        Ok(v)
    } else {
        Err(Error::Invalid("unexpected end of data"))
    }
}

/// Read a little-endian `u32` out of `data` at `*pos`, advancing it.
pub fn read_u32(data: &[u8], pos: &mut usize) -> (r: Result<u32, Error>)
    ensures
        match r {
            Ok(v) => *old(pos) + 4 <= data@.len() && v == le_bytes_val(data@, *old(pos) as int, 4)
                && *final(pos) == *old(pos) + 4,
            Err(_) => *old(pos) + 4 > data@.len() && *final(pos) == *old(pos),
        },
{
    if *pos < data.len() && data.len() - *pos >= 4 {
        let b0 = data[*pos];
        let b1 = data[*pos + 1];
        let b2 = data[*pos + 2];
        let b3 = data[*pos + 3];
        let v: u32 = b0 as u32 + 256 * (b1 as u32 + 256 * (b2 as u32 + 256 * (b3 as u32)));
        *pos = *pos + 4;
        proof {
            reveal_with_fuel(le_bytes_val, 5);
        }
        Ok(v)
    } else {
        Err(Error::Invalid("unexpected end of data"))
    }
}

/// Read a little-endian `u64` out of `data` at `*pos`, advancing it.
pub fn read_u64(data: &[u8], pos: &mut usize) -> (r: Result<u64, Error>)
    ensures
        match r {
            Ok(v) => *old(pos) + 8 <= data@.len() && v == le_bytes_val(data@, *old(pos) as int, 8)
                && *final(pos) == *old(pos) + 8,
            Err(_) => *old(pos) + 8 > data@.len() && *final(pos) == *old(pos),
        },
{
    if *pos < data.len() && data.len() - *pos >= 8 {
        let b0 = data[*pos];
        let b1 = data[*pos + 1];
        let b2 = data[*pos + 2];
        let b3 = data[*pos + 3];
        let b4 = data[*pos + 4];
        let b5 = data[*pos + 5];
        let b6 = data[*pos + 6];
        let b7 = data[*pos + 7];
        let v: u64 = b0 as u64 + 256 * (b1 as u64 + 256 * (b2 as u64 + 256 * (b3 as u64 + 256 * (b4
            as u64 + 256 * (b5 as u64 + 256 * (b6 as u64 + 256 * (b7 as u64)))))));
        *pos = *pos + 8;
        proof {
            reveal_with_fuel(le_bytes_val, 9);
        }
        Ok(v)
    } else {
        Err(Error::Invalid("unexpected end of data"))
    }
}

} // verus!
