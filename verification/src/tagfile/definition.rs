//! Reading schema definitions: name, version, parent, and typed fields.
use vstd::prelude::*;

verus! {

use std::rc::Rc;
use crate::error::Error;
use crate::node::{Definition, Field, FieldKind};
use crate::tagfile::state::{lemma_seq_prefix_trans, Tagfile};
use crate::tagfile::string::{spec_cached_string, strings_view};
use crate::tagfile::varint::{read_i32, varint_end, varint_value};

/// The mathematical shape of a `FieldKind`: the same tree with strings as
/// character sequences.
pub enum FieldKindView {
    /// Carries no payload.
    Void,
    /// A single byte.
    Byte,
    /// A signed variable-length integer.
    Integer,
    /// A 32-bit float.
    Float,
    /// A pooled string.
    Str,
    /// An inline node of the named schema.
    Struct(Seq<char>),
    /// A reference to a node of the named schema.
    Reference(Seq<char>),
    /// A counted sequence of the inner kind.
    Vector(Box<FieldKindView>),
    /// A fixed-size sequence of the inner kind.
    Array(Box<FieldKindView>, int),
}

/// The view of a `FieldKind`.
pub open spec fn kind_view(k: FieldKind) -> FieldKindView
    decreases k,
{
    match k {
        FieldKind::Void => FieldKindView::Void,
        FieldKind::Byte => FieldKindView::Byte,
        FieldKind::Integer => FieldKindView::Integer,
        FieldKind::Float => FieldKindView::Float,
        FieldKind::String => FieldKindView::Str,
        FieldKind::Struct(n) => FieldKindView::Struct(n@),
        FieldKind::Reference(n) => FieldKindView::Reference(n@),
        FieldKind::Vector(inner) => FieldKindView::Vector(Box::new(kind_view(*inner))),
        FieldKind::Array(inner, n) => FieldKindView::Array(Box::new(kind_view(*inner)), n as int),
    }
}

/// The views of a field sequence: name characters and kind view, in order.
pub open spec fn fields_view(fs: Seq<Field>) -> Seq<(Seq<char>, FieldKindView)> {
    Seq::new(fs.len(), |i: int| (fs[i].name@, kind_view(fs[i].kind)))
}

/// Decode a base field kind code at `pos`: codes 8 and 9 read a cached name,
/// codes 4 to 7 stand for float arrays of 4, 8, 12 and 16; anything above
/// 0xA is invalid.
pub open spec fn spec_read_base_kind(
    data: Seq<u8>,
    pos: int,
    pool: Seq<Option<Seq<char>>>,
    base: i32,
) -> Option<(FieldKindView, int, Seq<Option<Seq<char>>>)> {
    if base == 0 {
        Some((FieldKindView::Void, pos, pool))
    } else if base == 1 {
        Some((FieldKindView::Byte, pos, pool))
    } else if base == 2 {
        Some((FieldKindView::Integer, pos, pool))
    } else if base == 3 {
        Some((FieldKindView::Float, pos, pool))
    } else if 4 <= base <= 7 {
        Some((FieldKindView::Array(Box::new(FieldKindView::Float), 4 * (base - 3)), pos, pool))
    } else if base == 8 {
        match spec_cached_string(data, pos, pool) {
            None => None,
            Some((cs, end, pool1)) => Some((FieldKindView::Reference(cs), end, pool1)),
        }
    } else if base == 9 {
        match spec_cached_string(data, pos, pool) {
            None => None,
            Some((cs, end, pool1)) => Some((FieldKindView::Struct(cs), end, pool1)),
        }
    } else if base == 0xA {
        Some((FieldKindView::Str, pos, pool))
    } else {
        None
    }
}

/// Decode a field kind at `pos`: a varint holding the base code in its low
/// four bits and the vector and array flags in bits 4 and 5; an array kind
/// reads its non-negative count varint before the base kind's own payload,
/// and the array flag wins over the vector flag.
pub open spec fn spec_read_kind(data: Seq<u8>, pos: int, pool: Seq<Option<Seq<char>>>) -> Option<
    (FieldKindView, int, Seq<Option<Seq<char>>>),
> {
    match varint_end(data, pos) {
        None => None,
        Some(e1) => {
            let kd = varint_value(data, pos);
            let base = kd & 0xF;
            let is_vector = (kd & 0x10) != 0;
            let is_array = (kd & 0x20) != 0;
            if is_array {
                match varint_end(data, e1) {
                    None => None,
                    Some(e2) => {
                        let cnt = varint_value(data, e1);
                        if cnt < 0 {
                            None
                        } else {
                            match spec_read_base_kind(data, e2, pool, base) {
                                None => None,
                                Some((inner, e3, pool3)) => Some(
                                    (FieldKindView::Array(Box::new(inner), cnt as int), e3, pool3),
                                ),
                            }
                        }
                    },
                }
            } else {
                match spec_read_base_kind(data, e1, pool, base) {
                    None => None,
                    Some((inner, e3, pool3)) => if is_vector {
                        Some((FieldKindView::Vector(Box::new(inner)), e3, pool3))
                    } else {
                        Some((inner, e3, pool3))
                    },
                }
            }
        },
    }
}

/// Decode `n` fields in order, each a cached name then a kind.
pub open spec fn spec_read_fields(
    data: Seq<u8>,
    pos: int,
    pool: Seq<Option<Seq<char>>>,
    n: nat,
) -> Option<(Seq<(Seq<char>, FieldKindView)>, int, Seq<Option<Seq<char>>>)>
    decreases n,
{
    if n == 0 {
        Some((Seq::empty(), pos, pool))
    } else {
        match spec_cached_string(data, pos, pool) {
            None => None,
            Some((name, p1, pool1)) => match spec_read_kind(data, p1, pool1) {
                None => None,
                Some((kv, p2, pool2)) => match spec_read_fields(data, p2, pool2, (n - 1) as nat) {
                    None => None,
                    Some((rest, p3, pool3)) => Some((seq![(name, kv)] + rest, p3, pool3)),
                },
            },
        }
    }
}

/// Decode a whole definition at `pos`: cached name, version varint, parent
/// pool index varint (which must name one of the `ndefs` pool slots), field
/// count varint (non-positive counts read no fields), then the fields.
pub open spec fn spec_read_definition(
    data: Seq<u8>,
    pos: int,
    pool: Seq<Option<Seq<char>>>,
    ndefs: int,
) -> Option<((Seq<char>, i32, int, Seq<(Seq<char>, FieldKindView)>), int, Seq<Option<Seq<char>>>)> {
    match spec_cached_string(data, pos, pool) {
        None => None,
        Some((name, p1, pool1)) => match varint_end(data, p1) {
            None => None,
            Some(p2) => {
                let version = varint_value(data, p1);
                match varint_end(data, p2) {
                    None => None,
                    Some(p3) => {
                        let pi = varint_value(data, p2) as int;
                        if !(0 <= pi < ndefs) {
                            None
                        } else {
                            match varint_end(data, p3) {
                                None => None,
                                Some(p4) => {
                                    let nf = varint_value(data, p3) as int;
                                    let n: nat = if nf <= 0 {
                                        0
                                    } else {
                                        nf as nat
                                    };
                                    match spec_read_fields(data, p4, pool1, n) {
                                        None => None,
                                        Some((fs, p5, pool5)) => Some(
                                            ((name, version, pi, fs), p5, pool5),
                                        ),
                                    }
                                },
                            }
                        }
                    },
                }
            },
        },
    }
}

impl Tagfile {
    /// Read a field kind, per `spec_read_kind`.
    pub fn read_kind(&mut self) -> (r: Result<FieldKind, Error>)
        ensures
            final(self).data == old(self).data,
            final(self).version == old(self).version,
            final(self).nodes == old(self).nodes,
            final(self).definitions == old(self).definitions,
            final(self).references == old(self).references,
            final(self).pending_references == old(self).pending_references,
            old(self).strings@.is_prefix_of(final(self).strings@),
            final(self).pos >= old(self).pos,
            final(self).pos > old(self).pos ==> final(self).pos <= final(self).data@.len(),
            r is Ok ==> old(self).pos < final(self).pos <= final(self).data@.len(),
            match r {
                Ok(k) => spec_read_kind(old(self).data@, old(self).pos as int, strings_view(old(
                    self,
                ).strings@)) == Some(
                    (kind_view(k), final(self).pos as int, strings_view(final(self).strings@)),
                ),
                Err(_) => spec_read_kind(
                    old(self).data@,
                    old(self).pos as int,
                    strings_view(old(self).strings@),
                ) is None && final(self).strings == old(self).strings,
            },
    {
        let kind_data = read_i32(self.data.as_slice(), &mut self.pos)?;
        let base_kind = kind_data & 0xF;
        let is_vector = (kind_data & 0x10) != 0;
        let is_array = (kind_data & 0x20) != 0;

        // An array kind carries its count before the base kind's payload.
        let array_count: usize = if is_array {
            let count = read_i32(self.data.as_slice(), &mut self.pos)?;
            if count < 0 {
                return Err(Error::Invalid("negative array count in field kind"));
            }
            proof {
                assert(kind_data & 0xF >= 0 && kind_data & 0xF <= 0xF) by (bit_vector);
            }
            count as usize
        } else {
            proof {
                assert(kind_data & 0xF >= 0 && kind_data & 0xF <= 0xF) by (bit_vector);
            }
            0
        };

        let mut field_kind: FieldKind = match base_kind {
            0x0 => FieldKind::Void,
            0x1 => FieldKind::Byte,
            0x2 => FieldKind::Integer,
            0x3 => FieldKind::Float,
            0x4 => FieldKind::Array(Box::new(FieldKind::Float), 4),
            0x5 => FieldKind::Array(Box::new(FieldKind::Float), 8),
            0x6 => FieldKind::Array(Box::new(FieldKind::Float), 12),
            0x7 => FieldKind::Array(Box::new(FieldKind::Float), 16),
            0x8 => FieldKind::Reference(self.read_string()?),
            0x9 => FieldKind::Struct(self.read_string()?),
            0xA => FieldKind::String,
            _ => {
                return Err(Error::Invalid("unexpected base field kind"));
            },
        };

        // The array flag wins over the vector flag.
        proof {
            reveal_with_fuel(kind_view, 4);
        }
        if is_array {
            field_kind = FieldKind::Array(Box::new(field_kind), array_count);
        } else if is_vector {
            field_kind = FieldKind::Vector(Box::new(field_kind));
        }

        Ok(field_kind)
    }

    /// Read one field: a cached name, then a kind.
    fn read_field(&mut self) -> (r: Result<Field, Error>)
        ensures
            final(self).data == old(self).data,
            final(self).version == old(self).version,
            final(self).nodes == old(self).nodes,
            final(self).definitions == old(self).definitions,
            final(self).references == old(self).references,
            final(self).pending_references == old(self).pending_references,
            old(self).strings@.is_prefix_of(final(self).strings@),
            final(self).pos >= old(self).pos,
            final(self).pos > old(self).pos ==> final(self).pos <= final(self).data@.len(),
            r is Ok ==> old(self).pos < final(self).pos <= final(self).data@.len(),
            match r {
                Ok(f) => {
                    let dv = old(self).data@;
                    let pool0 = strings_view(old(self).strings@);
                    &&& spec_cached_string(dv, old(self).pos as int, pool0) matches Some(
                        (name, p1, pool1),
                    )
                    &&& f.name@ == name
                    &&& spec_read_kind(dv, p1, pool1) == Some(
                        (
                            kind_view(f.kind),
                            final(self).pos as int,
                            strings_view(final(self).strings@),
                        ),
                    )
                },
                Err(_) => match spec_cached_string(
                    old(self).data@,
                    old(self).pos as int,
                    strings_view(old(self).strings@),
                ) {
                    None => true,
                    Some((name, p1, pool1)) => spec_read_kind(old(self).data@, p1, pool1) is None,
                },
            },
    {
        let name = self.read_string()?;
        let kind = self.read_kind()?;
        Ok(Field { name, kind })
    }

    /// Read a definition, per `spec_read_definition`, appending it to the
    /// definition pool.
    pub fn read_definition(&mut self) -> (r: Result<Rc<Definition>, Error>)
        ensures
            final(self).data == old(self).data,
            final(self).version == old(self).version,
            final(self).nodes == old(self).nodes,
            final(self).references == old(self).references,
            final(self).pending_references == old(self).pending_references,
            old(self).strings@.is_prefix_of(final(self).strings@),
            final(self).pos >= old(self).pos,
            final(self).pos > old(self).pos ==> final(self).pos <= final(self).data@.len(),
            r is Ok ==> old(self).pos < final(self).pos <= final(self).data@.len(),
            match r {
                Ok(d) => {
                    let dv = old(self).data@;
                    let pool0 = strings_view(old(self).strings@);
                    &&& spec_read_definition(
                        dv,
                        old(self).pos as int,
                        pool0,
                        old(self).definitions@.len() as int,
                    ) matches Some(((name, version, pi, fs), end, poolE))
                    &&& d.name@ == name
                    &&& d.version == version
                    &&& d.parent == old(self).definitions@[pi]
                    &&& fields_view(d.fields@) == fs
                    &&& final(self).pos == end
                    &&& strings_view(final(self).strings@) == poolE
                    &&& final(self).definitions@ == old(self).definitions@.push(Some(d))
                },
                Err(_) => spec_read_definition(
                    old(self).data@,
                    old(self).pos as int,
                    strings_view(old(self).strings@),
                    old(self).definitions@.len() as int,
                ) is None && final(self).definitions == old(self).definitions,
            },
    {
        let ghost dv = self.data@;
        let name = self.read_string()?;
        let version = read_i32(self.data.as_slice(), &mut self.pos)?;

        let parent_index = read_i32(self.data.as_slice(), &mut self.pos)?;
        if parent_index < 0 || (parent_index as u64) >= (self.definitions.len() as u64) {
            return Err(Error::Invalid("definition parent index out of range"));
        }
        let parent = match &self.definitions[parent_index as usize] {
            Some(rc) => Some(rc.clone()),
            None => None,
        };

        let field_count = read_i32(self.data.as_slice(), &mut self.pos)?;
        let ghost n: nat = if field_count <= 0 {
            0
        } else {
            field_count as nat
        };
        let ghost fpos = self.pos as int;
        let ghost fpool = strings_view(self.strings@);
        let ghost defspec = spec_read_definition(
            dv,
            old(self).pos as int,
            strings_view(old(self).strings@),
            old(self).definitions@.len() as int,
        );
        proof {
            assert(defspec == match spec_read_fields(dv, fpos, fpool, n) {
                None => None::<
                    ((Seq<char>, i32, int, Seq<(Seq<char>, FieldKindView)>), int, Seq<
                        Option<Seq<char>>,
                    >),
                >,
                Some((fs, e, pl)) => Some(((name@, version, parent_index as int, fs), e, pl)),
            });
        }
        let mut fields: Vec<Field> = Vec::new();
        let mut i: i32 = 0;
        while i < field_count
            invariant
                defspec == spec_read_definition(
                    dv,
                    old(self).pos as int,
                    strings_view(old(self).strings@),
                    old(self).definitions@.len() as int,
                ),
                defspec == match spec_read_fields(dv, fpos, fpool, n) {
                    None => None::<
                        ((Seq<char>, i32, int, Seq<(Seq<char>, FieldKindView)>), int, Seq<
                            Option<Seq<char>>,
                        >),
                    >,
                    Some((fs, e, pl)) => Some(
                        ((name@, version, parent_index as int, fs), e, pl),
                    ),
                },
                0 <= i,
                field_count > 0 ==> i <= field_count,
                field_count <= 0 ==> i == 0,
                n == if field_count <= 0 { 0nat } else { field_count as nat },
                old(self).data == self.data,
                old(self).version == self.version,
                old(self).nodes == self.nodes,
                old(self).definitions == self.definitions,
                old(self).references == self.references,
                old(self).pending_references == self.pending_references,
                old(self).strings@.is_prefix_of(self.strings@),
                old(self).pos < self.pos <= self.data@.len(),
                dv == self.data@,
                spec_read_fields(dv, fpos, fpool, n) == match spec_read_fields(
                    dv,
                    self.pos as int,
                    strings_view(self.strings@),
                    (n - i) as nat,
                ) {
                    None => None::<(Seq<(Seq<char>, FieldKindView)>, int, Seq<Option<Seq<char>>>)>,
                    Some((rest, e, pl)) => Some((fields_view(fields@) + rest, e, pl)),
                },
            decreases field_count - i,
        {
            let ghost pre_fields = fields@;
            let ghost pre_pos = self.pos as int;
            let ghost pre_pool = strings_view(self.strings@);
            let ghost pre_strings = self.strings@;
            let ghost k_rem: nat = (n - i) as nat;
            let f = self.read_field()?;
            fields.push(f);
            i = i + 1;
            proof {
                lemma_seq_prefix_trans(old(self).strings@, pre_strings, self.strings@);
                let x = (f.name@, kind_view(f.kind));
                assert(fields_view(fields@) =~= fields_view(pre_fields).push(x));
                let after = spec_read_fields(
                    dv,
                    self.pos as int,
                    strings_view(self.strings@),
                    (k_rem - 1) as nat,
                );
                assert(spec_read_fields(dv, pre_pos, pre_pool, k_rem) == match after {
                    None => None::<
                        (Seq<(Seq<char>, FieldKindView)>, int, Seq<Option<Seq<char>>>),
                    >,
                    Some((rest, e, pl)) => Some((seq![x] + rest, e, pl)),
                });
                if after is Some {
                    let (rest, e, pl) = after->0;
                    assert(fields_view(pre_fields) + (seq![x] + rest) =~= fields_view(fields@)
                        + rest);
                }
            }
        }
        proof {
            assert(fields_view(fields@) + Seq::<(Seq<char>, FieldKindView)>::empty()
                =~= fields_view(fields@));
        }

        let definition = Rc::new(
            Definition { name, version, parent, fields },
        );
        let result = definition.clone();
        self.definitions.push(Some(definition));
        Ok(result)
    }
}

} // verus!
