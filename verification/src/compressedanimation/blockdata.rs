//! Cursor over one block's bytes, with the packed quaternion readers.
use vstd::prelude::*;

verus! {

use crate::error::Error;
use crate::compressedanimation::masks::CompressedScalarType;
use crate::tagfile::common::{le_bytes_val, read_u8, read_u16, read_u32};

/// A quaternion packed into 32 bits: 18 bits of combined polar angles, 10
/// bits of radius, four sign bits.
#[derive(Clone, Copy, Debug)]
pub struct QuatK32 {
    /// Bits 0..18: the combined phi/theta code.
    pub phi_theta: u32,
    /// Bits 18..28: the raw radius.
    pub r_raw: u16,
    /// Bit 28: negate x.
    pub sx: bool,
    /// Bit 29: negate y.
    pub sy: bool,
    /// Bit 30: negate z.
    pub sz: bool,
    /// Bit 31: negate w.
    pub sw: bool,
}

/// The K32 fields of a packed 32-bit value.
pub open spec fn k32_unpack(val: u32) -> QuatK32 {
    QuatK32 {
        phi_theta: val & 0x3FFFF,
        r_raw: ((val >> 18) & 0x3FF) as u16,
        sx: val & 0x10000000 != 0,
        sy: val & 0x20000000 != 0,
        sz: val & 0x40000000 != 0,
        sw: val & 0x80000000 != 0,
    }
}

/// A quaternion packed into 40 bits: three 12-bit fixed-point components at
/// bit offsets 0, 12 and 24, the index of the reconstructed component in
/// bits 36..38, and an inversion flag in bit 38.
#[derive(Clone, Copy, Debug)]
pub struct QuatK40 {
    /// First 12-bit component.
    pub a: u16,
    /// Second 12-bit component.
    pub b: u16,
    /// Third 12-bit component.
    pub c: u16,
    /// Where the reconstructed component belongs, 0 to 3.
    pub shift: u8,
    /// Whether the reconstructed component is negated.
    pub invert: bool,
}

/// The K40 fields of the low 40 bits of `n`.
pub open spec fn k40_unpack(n: u64) -> QuatK40 {
    QuatK40 {
        a: (n & 0xFFF) as u16,
        b: ((n >> 12) & 0xFFF) as u16,
        c: ((n >> 24) & 0xFFF) as u16,
        shift: ((n >> 36) & 0x3) as u8,
        invert: (n >> 38) & 0x1 != 0,
    }
}

/// A quaternion packed into 48 bits: three 15-bit fixed-point components,
/// the reconstructed component index split over the top bits of the first
/// two words, and an inversion flag in the top bit of the third.
#[derive(Clone, Copy, Debug)]
pub struct QuatK48 {
    /// First 15-bit component.
    pub a: u16,
    /// Second 15-bit component.
    pub b: u16,
    /// Third 15-bit component.
    pub c: u16,
    /// Where the reconstructed component belongs, 0 to 3.
    pub shift: u8,
    /// Whether the reconstructed component is negated.
    pub invert: bool,
}

/// The K48 fields of the three packed words.
pub open spec fn k48_unpack(x: u16, y: u16, z: u16) -> QuatK48 {
    QuatK48 {
        a: x & 0x7FFF,
        b: y & 0x7FFF,
        c: z & 0x7FFF,
        shift: (((y >> 14) & 2) | (x >> 15)) as u8,
        invert: z & 0x8000 != 0,
    }
}

/// A packed rotation control point, tagged by its packing.
#[derive(Clone, Copy, Debug)]
pub enum PackedQuaternion {
    /// The 32-bit packing.
    K32(QuatK32),
    /// The 40-bit packing.
    K40(QuatK40),
    /// The 48-bit packing.
    K48(QuatK48),
}

/// The next multiple of `unit` at or after `a`.
pub open spec fn align_up(a: int, unit: int) -> int {
    if a % unit == 0 {
        a
    } else {
        a + (unit - a % unit)
    }
}

/// Bytes taken by one compressed scalar of the given packing.
pub open spec fn scalar_bytes(t: CompressedScalarType) -> int {
    match t {
        CompressedScalarType::K8 => 1,
        CompressedScalarType::K16 => 2,
    }
}

/// Cursor over one block's bytes.
pub struct BlockDataReader<'a> {
    /// The block's bytes.
    pub data: &'a [u8],
    /// Cursor into `data`.
    pub pos: usize,
}

impl<'a> BlockDataReader<'a> {
    /// A cursor at the start of `data`.
    pub fn new(data: &'a [u8]) -> (r: Self)
        ensures
            r.data@ == data@,
            r.pos == 0,
    {
        Self { data, pos: 0 }
    }

    /// Advance to the next multiple of `unit`.
    pub fn align(&mut self, unit: usize) -> (r: Result<(), Error>)
        requires
            old(self).unit_ok(unit),
        ensures
            final(self).data@ == old(self).data@,
            match r {
                Ok(_) => {
                    &&& align_up(old(self).pos as int, unit as int) <= usize::MAX
                    &&& final(self).pos == align_up(old(self).pos as int, unit as int)
                    &&& final(self).pos as int % unit as int == 0
                    &&& old(self).pos <= final(self).pos < old(self).pos + unit
                },
                Err(_) => align_up(old(self).pos as int, unit as int) > usize::MAX && final(self).pos == old(self).pos,
            },
    {
        let rem = self.pos % unit;
        if rem != 0 {
            if usize::MAX - self.pos < unit - rem {
                return Err(Error::Invalid("alignment past the end of the address space"));
            }
            let step = unit - rem;
            proof {
                assert((self.pos + (unit - self.pos % unit)) % (unit as int) == 0)
                    by (nonlinear_arith)
                    requires
                        unit > 0,
                        self.pos % unit != 0,
                        self.pos >= 0,
                ;
            }
            self.pos = self.pos + step;
        }
        Ok(())
    }

    /// A usable alignment unit.
    pub open spec fn unit_ok(&self, unit: usize) -> bool {
        unit > 0
    }

    /// Read one byte.
    pub fn read_u8(&mut self) -> (r: Result<u8, Error>)
        ensures
            final(self).data@ == old(self).data@,
            match r {
                Ok(b) => old(self).pos < old(self).data@.len() && b == old(self).data@[old(self).pos as int] && final(self).pos == old(self).pos + 1,
                Err(_) => old(self).pos >= old(self).data@.len() && final(self).pos == old(self).pos,
            },
    {
        read_u8(self.data, &mut self.pos)
    }

    /// Read a little-endian u16.
    pub fn read_u16(&mut self) -> (r: Result<u16, Error>)
        ensures
            final(self).data@ == old(self).data@,
            match r {
                Ok(v) => old(self).pos + 2 <= old(self).data@.len() && v == le_bytes_val(
                    old(self).data@,
                    old(self).pos as int,
                    2,
                ) && final(self).pos == old(self).pos + 2,
                Err(_) => old(self).pos + 2 > old(self).data@.len() && final(self).pos == old(self).pos,
            },
    {
        read_u16(self.data, &mut self.pos)
    }

    /// Read a little-endian u32; also the bit pattern of a stored f32.
    pub fn read_u32(&mut self) -> (r: Result<u32, Error>)
        ensures
            final(self).data@ == old(self).data@,
            match r {
                Ok(v) => old(self).pos + 4 <= old(self).data@.len() && v == le_bytes_val(
                    old(self).data@,
                    old(self).pos as int,
                    4,
                ) && final(self).pos == old(self).pos + 4,
                Err(_) => old(self).pos + 4 > old(self).data@.len() && final(self).pos == old(self).pos,
            },
    {
        read_u32(self.data, &mut self.pos)
    }

    /// Read an exact span of bytes.
    pub fn read_bytes(&mut self, len: usize) -> (r: Result<Vec<u8>, Error>)
        ensures
            final(self).data@ == old(self).data@,
            match r {
                Ok(bytes) => old(self).pos + len <= old(self).data@.len() && bytes@ == old(self).data@.subrange(old(self).pos as int, old(self).pos + len) && final(self).pos
                    == old(self).pos + len,
                Err(_) => old(self).pos + len > old(self).data@.len() && final(self).pos == old(self).pos,
            },
    {
        if !(self.pos <= self.data.len() && self.data.len() - self.pos >= len) {
            return Err(Error::Invalid("unexpected end of data"));
        }
        let base = self.pos;
        let mut bytes: Vec<u8> = Vec::new();
        let mut i: usize = 0;
        while i < len
            invariant
                self.data@ == old(self).data@,
                self.pos == base,
                base + len <= self.data@.len(),
                self.data@.len() <= usize::MAX,
                i <= len,
                bytes@ =~= self.data@.subrange(base as int, base + i),
            decreases len - i,
        {
            bytes.push(self.data[base + i]);
            proof {
                assert(bytes@ =~= self.data@.subrange(base as int, base + i + 1));
            }
            i = i + 1;
        }
        self.pos = base + len;
        Ok(bytes)
    }

    /// Read one raw compressed scalar of the given type, widened to u16:
    /// one byte for K8, one little-endian u16 for K16.
    pub fn read_scaled_compressed_scalar(&mut self, t: &CompressedScalarType) -> (r: Result<
        u16,
        Error,
    >)
        ensures
            final(self).data@ == old(self).data@,
            match r {
                Ok(v) => match t {
                    CompressedScalarType::K8 => old(self).pos < old(self).data@.len() && v == old(self).data@[old(self).pos as int] && final(self).pos == old(self).pos + 1,
                    CompressedScalarType::K16 => old(self).pos + 2 <= old(self).data@.len() && v
                        == le_bytes_val(old(self).data@, old(self).pos as int, 2) && final(self).pos == old(self).pos + 2,
                },
                Err(_) => old(self).pos + scalar_bytes(*t) > old(self).data@.len() && final(self).pos == old(self).pos,
            },
    {
        match t {
            CompressedScalarType::K8 => {
                let b = self.read_u8()?;
                Ok(b as u16)
            },
            CompressedScalarType::K16 => self.read_u16(),
        }
    }

    /// Read a 32-bit packed quaternion.
    pub fn read_k32_quat(&mut self) -> (r: Result<QuatK32, Error>)
        ensures
            final(self).data@ == old(self).data@,
            match r {
                Ok(q) => old(self).pos + 4 <= old(self).data@.len() && q == k32_unpack(
                    le_bytes_val(old(self).data@, old(self).pos as int, 4) as u32,
                ) && final(self).pos == old(self).pos + 4,
                Err(_) => old(self).pos + 4 > old(self).data@.len() && final(self).pos == old(self).pos,
            },
    {
        let val = self.read_u32()?;
        proof {
            assert((val >> 18) & 0x3FF <= 0x3FF) by (bit_vector);
        }
        Ok(
            QuatK32 {
                phi_theta: val & 0x3FFFF,
                r_raw: ((val >> 18) & 0x3FF) as u16,
                sx: val & 0x10000000 != 0,
                sy: val & 0x20000000 != 0,
                sz: val & 0x40000000 != 0,
                sw: val & 0x80000000 != 0,
            },
        )
    }

    /// Read a 40-bit packed quaternion: five bytes, little-endian.
    pub fn read_k40_quat(&mut self) -> (r: Result<QuatK40, Error>)
        ensures
            final(self).data@ == old(self).data@,
            match r {
                Ok(q) => old(self).pos + 5 <= old(self).data@.len() && q == k40_unpack(
                    le_bytes_val(old(self).data@, old(self).pos as int, 5) as u64,
                ) && final(self).pos == old(self).pos + 5,
                Err(_) => old(self).pos + 5 > old(self).data@.len() && final(self).pos == old(self).pos,
            },
    {
        if !(self.pos <= self.data.len() && self.data.len() - self.pos >= 5) {
            return Err(Error::Invalid("unexpected end of data"));
        }
        let b0 = self.data[self.pos];
        let b1 = self.data[self.pos + 1];
        let b2 = self.data[self.pos + 2];
        let b3 = self.data[self.pos + 3];
        let b4 = self.data[self.pos + 4];
        let n: u64 = b0 as u64 + 256 * (b1 as u64 + 256 * (b2 as u64 + 256 * (b3 as u64 + 256 * (b4
            as u64))));
        proof {
            reveal_with_fuel(le_bytes_val, 6);
            assert(n & 0xFFF <= 0xFFF && (n >> 12) & 0xFFF <= 0xFFF && (n >> 24) & 0xFFF <= 0xFFF
                && (n >> 36) & 0x3 <= 0x3) by (bit_vector);
        }
        self.pos = self.pos + 5;
        Ok(
            QuatK40 {
                a: (n & 0xFFF) as u16,
                b: ((n >> 12) & 0xFFF) as u16,
                c: ((n >> 24) & 0xFFF) as u16,
                shift: ((n >> 36) & 0x3) as u8,
                invert: (n >> 38) & 0x1 != 0,
            },
        )
    }

    /// Read a 48-bit packed quaternion: three little-endian u16 words.
    pub fn read_k48_quat(&mut self) -> (r: Result<QuatK48, Error>)
        ensures
            final(self).data@ == old(self).data@,
            match r {
                Ok(q) => {
                    let dv = old(self).data@;
                    let p = old(self).pos as int;
                    &&& old(self).pos + 6 <= dv.len()
                    &&& q == k48_unpack(
                        le_bytes_val(dv, p, 2) as u16,
                        le_bytes_val(dv, p + 2, 2) as u16,
                        le_bytes_val(dv, p + 4, 2) as u16,
                    )
                    &&& final(self).pos == old(self).pos + 6
                },
                Err(_) => old(self).pos + 6 > old(self).data@.len() && final(self).pos >= old(self).pos,
            },
    {
        let x = self.read_u16()?;
        let y = self.read_u16()?;
        let z = self.read_u16()?;
        proof {
            let xx = x;
            let yy = y;
            assert(xx & 0x7FFF <= 0x7FFF && ((yy >> 14) & 2) | (xx >> 15) <= 3) by (bit_vector);
        }
        Ok(
            QuatK48 {
                a: x & 0x7FFF,
                b: y & 0x7FFF,
                c: z & 0x7FFF,
                shift: (((y >> 14) & 2) | (x >> 15)) as u8,
                invert: z & 0x8000 != 0,
            },
        )
    }
}

} // verus!
