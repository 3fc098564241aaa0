//! Pooled strings: a length varint, then either fresh UTF-8 bytes appended
//! to the pool, or a non-positive length naming a pool entry.
use vstd::prelude::*;

verus! {

use vstd::utf8::{decode_utf8, valid_utf8};
use crate::error::Error;
use crate::tagfile::state::{same_but_pos_strings, Tagfile};
use crate::tagfile::varint::{read_i32, varint_end, varint_value};

/// Relies on `String::from_utf8`: returns the decoded string exactly when
/// the bytes are valid UTF-8.
#[verifier::external_body]
fn string_from_utf8(bytes: Vec<u8>) -> (r: Option<String>)
    ensures
        r matches Some(s) ==> valid_utf8(bytes@) && s@ == decode_utf8(bytes@),
        r is None ==> !valid_utf8(bytes@),
{
    String::from_utf8(bytes).ok()
}

/// The string pool seen as character sequences.
pub open spec fn strings_view(strings: Seq<Option<String>>) -> Seq<Option<Seq<char>>> {
    Seq::new(
        strings.len(),
        |i: int|
            match strings[i] {
                Some(s) => Some(s@),
                None => None,
            },
    )
}

/// The outcome of a cached-string read at `pos` against pool `pool`: the
/// characters read, the position after, and the pool afterwards. A positive
/// length varint is followed by that many bytes of UTF-8, which join the
/// pool; a non-positive length `l` names pool entry `-l`, which must be set.
pub open spec fn spec_cached_string(data: Seq<u8>, pos: int, pool: Seq<Option<Seq<char>>>) -> Option<
    (Seq<char>, int, Seq<Option<Seq<char>>>),
> {
    match varint_end(data, pos) {
        None => None,
        Some(end) => {
            let len = varint_value(data, pos) as int;
            if len <= 0 {
                if 0 <= -len < pool.len() && pool[-len] is Some {
                    Some((pool[-len]->0, end, pool))
                } else {
                    None
                }
            } else {
                if end + len <= data.len() && valid_utf8(data.subrange(end, end + len)) {
                    let cs = decode_utf8(data.subrange(end, end + len));
                    Some((cs, end + len, pool.push(Some(cs))))
                } else {
                    None
                }
            }
        },
    }
}

/// The character sequences, end position and pool after `n` consecutive
/// cached-string reads at `pos`.
pub open spec fn strings_read(data: Seq<u8>, pos: int, pool: Seq<Option<Seq<char>>>, n: nat) -> Option<
    (Seq<Seq<char>>, int, Seq<Option<Seq<char>>>),
>
    decreases n,
{
    if n == 0 {
        Some((Seq::empty(), pos, pool))
    } else {
        match spec_cached_string(data, pos, pool) {
            None => None,
            Some((cs, e, pool1)) => match strings_read(data, e, pool1, (n - 1) as nat) {
                None => None,
                Some((rest, end, poolE)) => Some((seq![cs] + rest, end, poolE)),
            },
        }
    }
}

impl Tagfile {
    /// Read a cached string. A positive length varint is followed by that
    /// many bytes of UTF-8, which join the pool; a non-positive length `l`
    /// names pool entry `-l`, which must be set. Only a fresh read grows the
    /// pool, by exactly its one new entry.
    pub fn read_string(&mut self) -> (r: Result<String, Error>)
        ensures
            same_but_pos_strings(*old(self), *final(self)),
            old(self).strings@.is_prefix_of(final(self).strings@),
            final(self).pos >= old(self).pos,
            final(self).pos > old(self).pos ==> final(self).pos <= final(self).data@.len(),
            r is Ok ==> old(self).pos < final(self).pos <= final(self).data@.len(),
            match r {
                Ok(s) => {
                    let dv = old(self).data@;
                    let start = old(self).pos as int;
                    &&& spec_cached_string(dv, start, strings_view(old(self).strings@))
                        == Some((s@, final(self).pos as int, strings_view(final(self).strings@)))
                    &&& (varint_value(dv, start) <= 0 ==> final(self).strings
                        == old(self).strings)
                    &&& (varint_value(dv, start) > 0 ==> final(self).strings@ == old(
                        self,
                    ).strings@.push(Some(s)))
                },
                Err(_) => {
                    let dv = old(self).data@;
                    let start = old(self).pos as int;
                    &&& spec_cached_string(dv, start, strings_view(old(self).strings@)) is None
                    &&& final(self).strings == old(self).strings
                },
            },
    {
        let length = read_i32(self.data.as_slice(), &mut self.pos)?;

        // Non-positive lengths name an entry of the string pool.
        if length <= 0 {
            let index: i64 = -(length as i64);
            if (index as u64) < (self.strings.len() as u64) {
                let idx = index as usize;
                match &self.strings[idx] {
                    Some(s) => {
                        proof {
                            assert(strings_view(self.strings@)[index as int] == Some(s@));
                        }
                        return Ok(s.clone());
                    },
                    None => {
                        return Err(Error::Invalid("string cache entry is unset"));
                    },
                }
            }
            return Err(Error::Invalid("string cache index out of range"));
        }

        // Otherwise the bytes follow directly; decode and cache them.
        let len = length as usize;
        if !(self.pos <= self.data.len() && self.data.len() - self.pos >= len) {
            return Err(Error::Invalid("unexpected end of data"));
        }
        let base = self.pos;
        let ghost mid = *self;
        let mut buffer: Vec<u8> = Vec::new();
        let mut i: usize = 0;
        while i < len
            invariant
                *self == mid,
                base == self.pos,
                base + len <= self.data@.len(),
                self.data@.len() <= usize::MAX,
                i <= len,
                buffer@ =~= self.data@.subrange(base as int, base + i),
            decreases len - i,
        {
            buffer.push(self.data[base + i]);
            proof {
                assert(buffer@ =~= self.data@.subrange(base as int, base + i + 1));
            }
            i = i + 1;
        }
        proof {
            assert(buffer@ =~= self.data@.subrange(base as int, base + len));
        }
        match string_from_utf8(buffer) {
            Some(s) => {
                self.pos = base + len;
                let r = s.clone();
                let ghost pre = self.strings@;
                self.strings.push(Some(s));
                proof {
                    assert(strings_view(self.strings@) =~= strings_view(pre).push(Some(s@)));
                    assert(pre.is_prefix_of(self.strings@));
                }
                Ok(r)
            },
            None => Err(Error::Invalid("string data is not valid UTF-8")),
        }
    }
}

} // verus!
