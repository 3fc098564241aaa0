//! Byte-aligned bitfields, packed LSB-first.
use vstd::prelude::*;

verus! {

use crate::error::Error;
use crate::tagfile::state::{same_but_pos_strings, Tagfile};

/// Bit `i` of the bitfield starting at `start`: bit `i % 8` of byte `i / 8`.
pub open spec fn bitfield_bit(data: Seq<u8>, start: int, i: int) -> bool {
    ((data[start + i / 8] as u32) >> ((i % 8) as u32)) & 1 == 1
}

/// The number of bytes covering `count` bits.
pub open spec fn bitfield_bytes(count: int) -> int {
    count / 8 + if count % 8 == 0 {
        0int
    } else {
        1int
    }
}

impl Tagfile {
    /// Read a bitfield of `count` bits: `count / 8` bytes rounded up, bit `i`
    /// taken LSB-first; any set bit at position `count` or later is invalid.
    pub fn read_bitfield(&mut self, count: usize) -> (r: Result<Vec<bool>, Error>)
        ensures
            same_but_pos_strings(*old(self), *final(self)),
            final(self).strings == old(self).strings,
            match r {
                Ok(bits) => {
                    let start = old(self).pos as int;
                    let nbytes = bitfield_bytes(count as int);
                    &&& start + nbytes <= old(self).data@.len()
                    &&& final(self).pos == start + nbytes
                    &&& bits@.len() == count
                    &&& forall|i: int|
                        0 <= i < count ==> bits@[i] == bitfield_bit(old(self).data@, start, i)
                    &&& forall|i: int|
                        count <= i < 8 * nbytes ==> !bitfield_bit(old(self).data@, start, i)
                },
                Err(_) => {
                    let start = old(self).pos as int;
                    let nbytes = bitfield_bytes(count as int);
                    &&& final(self).pos == old(self).pos
                    &&& (start + nbytes > old(self).data@.len() || exists|i: int|
                        count <= i < 8 * nbytes && bitfield_bit(old(self).data@, start, i))
                },
            },
    {
        let nbytes: usize = count / 8 + if count % 8 == 0 {
            0
        } else {
            1
        };
        if !(self.pos <= self.data.len() && self.data.len() - self.pos >= nbytes) {
            return Err(Error::Invalid("unexpected end of data"));
        }
        let base = self.pos;
        let endpos: usize = base + nbytes;
        let ghost dv = self.data@;
        let mut bits: Vec<bool> = Vec::new();
        let mut j: usize = 0;
        while j < nbytes
            invariant
                *self == *old(self),
                base == old(self).pos,
                nbytes == bitfield_bytes(count as int),
                endpos == base + nbytes,
                base + nbytes <= self.data@.len(),
                j <= nbytes,
                dv == self.data@,
                bits@.len() == if 8 * j <= count {
                    8 * j
                } else {
                    count as int
                },
                forall|i: int| 0 <= i < bits@.len() ==> bits@[i] == bitfield_bit(dv, base as int, i),
                forall|i: int| count <= i < 8 * j ==> !bitfield_bit(dv, base as int, i),
            decreases nbytes - j,
        {
            let byte = self.data[base + j];
            proof {
                assert(byte == dv[base + j]);
            }
            let mut k: usize = 0;
            while k < 8
                invariant
                    *self == *old(self),
                    base == old(self).pos,
                    dv == self.data@,
                    nbytes == bitfield_bytes(count as int),
                    endpos == base + nbytes,
                    base + nbytes <= dv.len(),
                    j < nbytes,
                    k <= 8,
                    byte == dv[base + j],
                    bits@.len() == if 8 * j + k <= count {
                        8 * j + k
                    } else {
                        count as int
                    },
                    forall|i: int|
                        0 <= i < bits@.len() ==> bits@[i] == bitfield_bit(dv, base as int, i),
                    forall|i: int| count <= i < 8 * j + k ==> !bitfield_bit(dv, base as int, i),
                decreases 8 - k,
            {
                let set = ((byte as u32) >> (k as u32)) & 1 == 1;
                proof {
                    let i: int = 8 * (j as int) + k;
                    assert(i / 8 == j && i % 8 == k) by (nonlinear_arith)
                        requires
                            i == 8 * (j as int) + k,
                            0 <= k < 8,
                            0 <= j,
                    ;
                    assert(set == bitfield_bit(dv, base as int, i));
                }
                if bits.len() < count {
                    bits.push(set);
                } else if set {
                    proof {
                        let i: int = 8 * (j as int) + k;
                        assert(count <= i < 8 * bitfield_bytes(count as int) && bitfield_bit(
                            old(self).data@,
                            old(self).pos as int,
                            i,
                        ));
                    }
                    return Err(Error::Invalid("set bit past the count in a bitfield"));
                }
                k = k + 1;
            }
            j = j + 1;
        }
        proof {
            assert(8 * bitfield_bytes(count as int) >= count);
        }
        self.pos = base + nbytes;
        Ok(bits)
    }
}

} // verus!
