//! Per-track channels of one block: spline, static or empty payloads, with
//! all float payloads kept as bit patterns and all compressed scalars as raw
//! fixed-point integers.
use vstd::prelude::*;

verus! {

use crate::error::Error;
use crate::compressedanimation::blockdata::{
    align_up, k32_unpack, k40_unpack, k48_unpack, BlockDataReader, PackedQuaternion, QuatK40,
};
use crate::tagfile::common::le_bytes_val;
use crate::compressedanimation::masks::{
    CompressedQuaternionType, CompressedScalarType, QuatMask, TransformMask, ValueMask, VectorMask,
};

/// The spline payload of a vector channel: knots, per-component ranges and
/// raw control point scalars.
#[derive(Debug)]
pub struct VectorSpline {
    /// The channel mask the payload was read under.
    pub mask: VectorMask,
    /// The scalar packing of the compressed control points.
    pub scalar_type: CompressedScalarType,
    /// Spline degree.
    pub degree: u8,
    /// Integer knot vector.
    pub knots: Vec<u8>,
    /// Per component, the two range floats (floor and ceiling) as bit
    /// patterns: a spline component reads both, a static component only the
    /// first, an empty component none (zeroes remain).
    pub ranges: [[u32; 2]; 3],
    /// One raw scalar triple per control point; zero for components that
    /// are not spline-compressed.
    pub points: Vec<[u16; 3]>,
}

/// Knot count and control point count fit together: `|knots| ==
/// |control_points| + degree + 1`.
pub open spec fn vector_spline_wf(s: VectorSpline) -> bool {
    &&& s.points@.len() >= 1
    &&& s.knots@.len() == s.points@.len() + s.degree + 1
}

/// How many range floats one component stores: two when spline-compressed
/// (floor and ceiling), one when static (floor), none when empty.
pub open spec fn range_floats(bits: u8, component: u8) -> int {
    let pair = (bits >> component) & 0x11;
    if pair == 0x10 {
        2
    } else if pair == 0x01 {
        1
    } else {
        0
    }
}

/// Whether one component is spline-compressed.
pub open spec fn comp_spline(bits: u8, component: u8) -> int {
    if (bits >> component) & 0x11 == 0x10 {
        1
    } else {
        0
    }
}

/// Bytes of one compressed scalar.
pub open spec fn scalar_width(t: CompressedScalarType) -> int {
    match t {
        CompressedScalarType::K8 => 1,
        CompressedScalarType::K16 => 2,
    }
}

/// The raw scalar at `pos` in the given packing, widened to u16.
pub open spec fn scalar_at(data: Seq<u8>, pos: int, t: CompressedScalarType) -> int {
    le_bytes_val(data, pos, scalar_width(t) as nat)
}

/// Whether a vector channel's payload is fully present at `pos`: the
/// spline header, knots, aligned ranges and raw control points for a spline
/// mask, the static floats for a static mask, nothing for an empty one; no
/// component may be marked both static and spline.
pub open spec fn vector_channel_readable(
    data: Seq<u8>,
    pos: int,
    bits: u8,
    t: CompressedScalarType,
) -> bool {
    if bits & 0xF0 != 0 {
        let ni = le_bytes_val(data, pos, 2);
        let kc = ni + data[pos + 2] + 2;
        let rb = align_up(pos + 3 + kc, 4);
        let f = range_floats(bits, 0) + range_floats(bits, 1) + range_floats(bits, 2);
        let sc = comp_spline(bits, 0) + comp_spline(bits, 1) + comp_spline(bits, 2);
        let fe = rb + 4 * f;
        let pe = fe + scalar_width(t) * sc * (ni + 1);
        &&& pos + 3 + kc <= data.len()
        &&& rb <= usize::MAX
        &&& (bits >> 0) & 0x11 != 0x11
        &&& (bits >> 1) & 0x11 != 0x11
        &&& (bits >> 2) & 0x11 != 0x11
        &&& (f >= 1 ==> fe <= data.len())
        &&& (sc >= 1 ==> pe <= data.len())
    } else if bits & 0x0F != 0 {
        let n = range_floats(bits, 0) + range_floats(bits, 1) + range_floats(bits, 2);
        n >= 1 ==> pos + 4 * n <= data.len()
    } else {
        true
    }
}

/// The position just past a vector channel read at `pos`.
pub open spec fn vector_channel_end(
    data: Seq<u8>,
    pos: int,
    bits: u8,
    t: CompressedScalarType,
) -> int {
    if bits & 0xF0 != 0 {
        let ni = le_bytes_val(data, pos, 2);
        let kc = ni + data[pos + 2] + 2;
        let rb = align_up(pos + 3 + kc, 4);
        let f = range_floats(bits, 0) + range_floats(bits, 1) + range_floats(bits, 2);
        let sc = comp_spline(bits, 0) + comp_spline(bits, 1) + comp_spline(bits, 2);
        rb + 4 * f + scalar_width(t) * sc * (ni + 1)
    } else if bits & 0x0F != 0 {
        pos + 4 * (range_floats(bits, 0) + range_floats(bits, 1) + range_floats(bits, 2))
    } else {
        pos
    }
}

/// A three-component vector channel.
#[derive(Debug)]
pub enum CompressedFloatArray {
    /// Spline-compressed control points.
    Spline(VectorSpline),
    /// One static float per stored component (bit patterns; zero when the
    /// component is empty).
    Static([u32; 3]),
    /// No payload at all.
    Empty,
}

/// The channel variant follows the mask: any high-nibble bit means spline,
/// else any low-nibble bit means static, else empty.
pub open spec fn compressed_float_array_wf(a: CompressedFloatArray, mask: VectorMask) -> bool {
    match a {
        CompressedFloatArray::Spline(s) => mask.bits & 0xF0 != 0 && vector_spline_wf(s)
            && s.mask == mask,
        CompressedFloatArray::Static(_) => mask.bits & 0xF0 == 0 && mask.bits & 0x0F != 0,
        CompressedFloatArray::Empty => mask.bits & 0xF0 == 0 && mask.bits & 0x0F == 0,
    }
}

/// Whether a quaternion channel's payload is fully present at `pos`: the
/// spline header, knots and packed control points of a supported packing
/// for a spline mask, one 40-bit packed quaternion for a static mask,
/// nothing for an empty one.
pub open spec fn quat_channel_readable(
    data: Seq<u8>,
    pos: int,
    bits: u8,
    t: CompressedQuaternionType,
) -> bool {
    if bits & 0xF0 != 0 {
        let ni = le_bytes_val(data, pos, 2);
        let kc = ni + data[pos + 2] + 2;
        let qw: int = match t {
            CompressedQuaternionType::K32 => 4,
            CompressedQuaternionType::K40 => 5,
            CompressedQuaternionType::K48 => 6,
            _ => 0,
        };
        &&& (t is K32 || t is K40 || t is K48)
        &&& pos + 3 + kc <= data.len()
        &&& pos + 3 + kc + qw * (ni + 1) <= data.len()
    } else if bits & 0x0F != 0 {
        pos + 5 <= data.len()
    } else {
        true
    }
}

/// The position just past a quaternion channel read at `pos`.
pub open spec fn quat_channel_end(
    data: Seq<u8>,
    pos: int,
    bits: u8,
    t: CompressedQuaternionType,
) -> int {
    if bits & 0xF0 != 0 {
        let ni = le_bytes_val(data, pos, 2);
        let kc = ni + data[pos + 2] + 2;
        let qw: int = match t {
            CompressedQuaternionType::K32 => 4,
            CompressedQuaternionType::K40 => 5,
            CompressedQuaternionType::K48 => 6,
            _ => 0,
        };
        pos + 3 + kc + qw * (ni + 1)
    } else if bits & 0x0F != 0 {
        pos + 5
    } else {
        pos
    }
}

/// The spline payload of a quaternion channel.
#[derive(Debug)]
pub struct QuatSpline {
    /// The quaternion packing of the control points.
    pub quat_type: CompressedQuaternionType,
    /// Spline degree.
    pub degree: u8,
    /// Integer knot vector.
    pub knots: Vec<u8>,
    /// One packed quaternion per control point.
    pub points: Vec<PackedQuaternion>,
}

/// Knot count and control point count fit together.
pub open spec fn quat_spline_wf(s: QuatSpline) -> bool {
    &&& s.points@.len() >= 1
    &&& s.knots@.len() == s.points@.len() + s.degree + 1
}

/// A quaternion channel. A static quaternion is stored in the 40-bit
/// packing whatever the compression byte selects; this format quirk is kept.
#[derive(Debug)]
pub enum CompressedQuatArray {
    /// Spline-compressed control points.
    Spline(QuatSpline),
    /// One static 40-bit packed quaternion.
    Static(QuatK40),
    /// No payload at all.
    Empty,
}

/// The channel variant follows the mask.
pub open spec fn compressed_quat_array_wf(a: CompressedQuatArray, mask: QuatMask) -> bool {
    match a {
        CompressedQuatArray::Spline(s) => mask.bits & 0xF0 != 0 && quat_spline_wf(s),
        CompressedQuatArray::Static(_) => mask.bits & 0xF0 == 0 && mask.bits & 0x0F != 0,
        CompressedQuatArray::Empty => mask.bits & 0xF0 == 0 && mask.bits & 0x0F == 0,
    }
}

impl CompressedFloatArray {
    /// Read a vector channel: for a spline mask, the item count, degree,
    /// `items + degree + 2` knots, a 4-byte alignment, the per-component
    /// ranges, then `items + 1` control points, each component a raw scalar
    /// where spline-compressed, the range floor where static, zero where
    /// empty. For a static mask, one float per static component. Otherwise
    /// the channel is empty.
    pub fn new(reader: &mut BlockDataReader, mask: &VectorMask, primitive_type:
        &CompressedScalarType) -> (r: Result<Self, Error>)
        ensures
            final(reader).data@ == old(reader).data@,
            match r {
                Ok(a) => compressed_float_array_wf(a, *mask) && (a matches
                    CompressedFloatArray::Spline(s) ==> {
                    let dv = old(reader).data@;
                    let p = old(reader).pos as int;
                    let rb = align_up(p + 3 + s.knots@.len(), 4);
                    let f0 = range_floats(mask.bits, 0);
                    let f1 = range_floats(mask.bits, 1);
                    let f2 = range_floats(mask.bits, 2);
                    let s0 = comp_spline(mask.bits, 0);
                    let s1 = comp_spline(mask.bits, 1);
                    let s2 = comp_spline(mask.bits, 2);
                    let w = scalar_width(*primitive_type);
                    let pb = rb + 4 * (f0 + f1 + f2);
                    let stride = w * (s0 + s1 + s2);
                    &&& s.scalar_type == primitive_type
                    &&& p + 3 <= dv.len()
                    &&& s.points@.len() == le_bytes_val(dv, p, 2) + 1
                    &&& s.degree == dv[p + 2]
                    &&& s.knots@ == dv.subrange(p + 3, p + 3 + s.knots@.len())
                    &&& (f0 >= 1 ==> s.ranges@[0]@[0] == le_bytes_val(dv, rb, 4))
                    &&& (f0 == 2 ==> s.ranges@[0]@[1] == le_bytes_val(dv, rb + 4, 4))
                    &&& (f1 >= 1 ==> s.ranges@[1]@[0] == le_bytes_val(dv, rb + 4 * f0, 4))
                    &&& (f1 == 2 ==> s.ranges@[1]@[1] == le_bytes_val(dv, rb + 4 * f0 + 4, 4))
                    &&& (f2 >= 1 ==> s.ranges@[2]@[0] == le_bytes_val(dv, rb + 4 * (f0 + f1), 4))
                    &&& (f2 == 2 ==> s.ranges@[2]@[1] == le_bytes_val(
                        dv,
                        rb + 4 * (f0 + f1) + 4,
                        4,
                    ))
                    &&& forall|i: int|
                        0 <= i < s.points@.len() ==> {
                            let q = pb + stride * i;
                            &&& (#[trigger] s.points@[i])@[0] == if s0 == 1 {
                                scalar_at(dv, q, *primitive_type)
                            } else {
                                0int
                            }
                            &&& s.points@[i]@[1] == if s1 == 1 {
                                scalar_at(dv, q + w * s0, *primitive_type)
                            } else {
                                0int
                            }
                            &&& s.points@[i]@[2] == if s2 == 1 {
                                scalar_at(dv, q + w * (s0 + s1), *primitive_type)
                            } else {
                                0int
                            }
                        }
                }) && (a matches CompressedFloatArray::Static(v) ==> {
                    let dv = old(reader).data@;
                    let p = old(reader).pos as int;
                    let n0: int = if mask.bits & 0x01 != 0 {
                        1int
                    } else {
                        0int
                    };
                    let n1: int = if mask.bits & 0x02 != 0 {
                        1int
                    } else {
                        0int
                    };
                    let n2: int = if mask.bits & 0x04 != 0 {
                        1int
                    } else {
                        0int
                    };
                    &&& v[0] == if n0 == 1 {
                        le_bytes_val(dv, p, 4)
                    } else {
                        0int
                    }
                    &&& v[1] == if n1 == 1 {
                        le_bytes_val(dv, p + 4 * n0, 4)
                    } else {
                        0int
                    }
                    &&& v[2] == if n2 == 1 {
                        le_bytes_val(dv, p + 4 * (n0 + n1), 4)
                    } else {
                        0int
                    }
                }),
                Err(_) => true,
            },
            (old(reader).pos <= old(reader).data@.len() && vector_channel_readable(
                old(reader).data@,
                old(reader).pos as int,
                mask.bits,
                *primitive_type,
            )) ==> r is Ok,
            r is Ok ==> final(reader).pos == vector_channel_end(
                old(reader).data@,
                old(reader).pos as int,
                mask.bits,
                *primitive_type,
            ),
            mask.bits & 0xF0 == 0 && mask.bits & 0x0F == 0 ==> r is Ok,
            r matches Ok(a) && a is Empty ==> final(reader).pos == old(reader).pos,
            mask.bits & 0xF0 == 0 && mask.bits & 0x0F != 0 ==> ({
                let p = old(reader).pos as int;
                let n0: int = if mask.bits & 0x01 != 0 {
                    1int
                } else {
                    0int
                };
                let n1: int = if mask.bits & 0x02 != 0 {
                    1int
                } else {
                    0int
                };
                let n2: int = if mask.bits & 0x04 != 0 {
                    1int
                } else {
                    0int
                };
                r is Ok <==> (n0 + n1 + n2 >= 1 ==> p + 4 * (n0 + n1 + n2) <= old(reader).data@.len())
            }),
    {
        let ghost vcr = vector_channel_readable(
            old(reader).data@,
            old(reader).pos as int,
            mask.bits,
            *primitive_type,
        );
        proof {
            reveal_with_fuel(le_bytes_val, 4);
        }
        if mask.has_spline() {
            let num_items = reader.read_u16()?;
            let degree = reader.read_u8()?;
            let knot_count = num_items as usize + degree as usize + 2;
            let knots = reader.read_bytes(knot_count)?;
            reader.align(4)?;

            // Ranges: two floats for a spline component, one for a static
            // one, none for an empty one.
            let ghost rb = reader.pos as int;
            let r0 = Self::read_range(reader, mask, 0)?;
            let r1 = Self::read_range(reader, mask, 1)?;
            let r2 = Self::read_range(reader, mask, 2)?;
            let ranges: [[u32; 2]; 3] = [r0, r1, r2];
            proof {
                assert(ranges@ =~= seq![r0, r1, r2]);
            }

            // Control points: one raw scalar per spline component.
            let ghost pb = reader.pos as int;
            let ghost s0 = comp_spline(mask.bits, 0);
            let ghost s1 = comp_spline(mask.bits, 1);
            let ghost s2 = comp_spline(mask.bits, 2);
            let ghost w = scalar_width(*primitive_type);
            let ghost stride = w * (s0 + s1 + s2);
            let point_count = num_items as usize + 1;
            let mut points: Vec<[u16; 3]> = Vec::new();
            let mut p: usize = 0;
            while p < point_count
                invariant
                    mask.bits & 0xF0 != 0,
                    vcr == vector_channel_readable(
                        old(reader).data@,
                        old(reader).pos as int,
                        mask.bits,
                        *primitive_type,
                    ),
                    vcr ==> ((mask.bits >> 0) & 0x11 != 0x11 && (mask.bits >> 1) & 0x11 != 0x11
                        && (mask.bits >> 2) & 0x11 != 0x11),
                    vcr && stride >= 1 ==> pb + stride * (point_count as int) <= old(reader).data@.len(),
                    reader.data@ == old(reader).data@,
                    p <= point_count,
                    points@.len() == p,
                    s0 == comp_spline(mask.bits, 0),
                    s1 == comp_spline(mask.bits, 1),
                    s2 == comp_spline(mask.bits, 2),
                    w == scalar_width(*primitive_type),
                    stride == w * (s0 + s1 + s2),
                    reader.pos == pb + stride * p,
                    forall|i: int|
                        0 <= i < p ==> {
                            let q = pb + stride * i;
                            &&& (#[trigger] points@[i])@[0] == if s0 == 1 {
                                scalar_at(reader.data@, q, *primitive_type)
                            } else {
                                0int
                            }
                            &&& points@[i]@[1] == if s1 == 1 {
                                scalar_at(reader.data@, q + w * s0, *primitive_type)
                            } else {
                                0int
                            }
                            &&& points@[i]@[2] == if s2 == 1 {
                                scalar_at(reader.data@, q + w * (s0 + s1), *primitive_type)
                            } else {
                                0int
                            }
                        },
                decreases point_count - p,
            {
                proof {
                    if vcr && stride >= 1 {
                        assert(stride * (p as int) + stride <= stride * (point_count as int))
                            by (nonlinear_arith)
                            requires
                                stride >= 1,
                                0 <= p < point_count,
                        ;
                    }
                    assert(stride == w * s0 + w * s1 + w * s2 && w * s0 >= 0 && w * s1 >= 0 && w
                        * s2 >= 0 && (s0 == 1 ==> w * s0 == w) && (s1 == 1 ==> w * s1 == w) && (s2
                        == 1 ==> w * s2 == w)) by (nonlinear_arith)
                        requires
                            stride == w * (s0 + s1 + s2),
                            w >= 1,
                            0 <= s0 <= 1,
                            0 <= s1 <= 1,
                            0 <= s2 <= 1,
                    ;
                }
                let c0 = Self::read_point_component(reader, mask, 0, primitive_type)?;
                let c1 = Self::read_point_component(reader, mask, 1, primitive_type)?;
                let c2 = Self::read_point_component(reader, mask, 2, primitive_type)?;
                points.push([c0, c1, c2]);
                proof {
                    assert(points@[p as int]@ =~= seq![c0, c1, c2]);
                    assert(stride * ((p + 1) as int) == stride * (p as int) + w * (s0 + s1 + s2))
                        by (nonlinear_arith)
                        requires
                            stride == w * (s0 + s1 + s2),
                    ;
                    assert(w * (s0 + s1 + s2) == w * s0 + w * s1 + w * s2) by (nonlinear_arith);
                }
                p = p + 1;
            }

            Ok(
                Self::Spline(
                    VectorSpline {
                        mask: *mask,
                        scalar_type: *primitive_type,
                        degree,
                        knots,
                        ranges,
                        points,
                    },
                ),
            )
        } else if mask.has_static() {
            proof {
                let b = mask.bits;
                assert(b & 0xF0 == 0 ==> (((b >> 0) & 0x11 == 0x01 <==> b & 0x01 != 0) && ((b >> 1)
                    & 0x11 == 0x01 <==> b & 0x02 != 0) && ((b >> 2) & 0x11 == 0x01 <==> b & 0x04
                    != 0) && (b >> 0) & 0x11 != 0x10 && (b >> 0) & 0x11 != 0x11 && (b >> 1) & 0x11
                    != 0x10 && (b >> 1) & 0x11 != 0x11 && (b >> 2) & 0x11 != 0x10 && (b >> 2)
                    & 0x11 != 0x11)) by (bit_vector);
            }
            let v0 = Self::read_static_component(reader, mask, 0)?;
            let v1 = Self::read_static_component(reader, mask, 1)?;
            let v2 = Self::read_static_component(reader, mask, 2)?;
            Ok(Self::Static([v0, v1, v2]))
        } else {
            Ok(Self::Empty)
        }
    }

    /// Read the range floats of one component: floor and ceiling for a
    /// spline component, floor only for a static one, zeroes otherwise.
    fn read_range(reader: &mut BlockDataReader, mask: &VectorMask, component: usize) -> (r: Result<
        [u32; 2],
        Error,
    >)
        requires
            component < 3,
        ensures
            final(reader).data@ == old(reader).data@,
            r is Err ==> ({
                let pair = (mask.bits >> (component as u8)) & 0x11;
                pair == 0x11 || (pair == 0x10 && old(reader).pos + 8 > old(reader).data@.len())
                    || (pair == 0x01 && old(reader).pos + 4 > old(reader).data@.len())
            }),
            match r {
                Ok(rr) => {
                    let pair = (mask.bits >> (component as u8)) & 0x11;
                    let dv = old(reader).data@;
                    let p = old(reader).pos as int;
                    if pair == 0x10 {
                        &&& p + 8 <= dv.len()
                        &&& rr@[0] == le_bytes_val(dv, p, 4)
                        &&& rr@[1] == le_bytes_val(dv, p + 4, 4)
                        &&& final(reader).pos == old(reader).pos + 8
                    } else if pair == 0x01 {
                        &&& p + 4 <= dv.len()
                        &&& rr@[0] == le_bytes_val(dv, p, 4)
                        &&& rr@[1] == 0
                        &&& final(reader).pos == old(reader).pos + 4
                    } else {
                        &&& pair == 0x00
                        &&& rr@[0] == 0 && rr@[1] == 0
                        &&& final(reader).pos == old(reader).pos
                    }
                },
                Err(_) => true,
            },
    {
        match mask.mask(component)? {
            ValueMask::Spline => {
                let lo = reader.read_u32()?;
                let hi = reader.read_u32()?;
                Ok([lo, hi])
            },
            ValueMask::Static => {
                let lo = reader.read_u32()?;
                Ok([lo, 0u32])
            },
            ValueMask::Empty => Ok([0u32, 0u32]),
        }
    }

    /// Read the raw control point scalar of one component; components that
    /// are not spline-compressed take no bytes.
    fn read_point_component(
        reader: &mut BlockDataReader,
        mask: &VectorMask,
        component: usize,
        t: &CompressedScalarType,
    ) -> (r: Result<u16, Error>)
        requires
            component < 3,
        ensures
            final(reader).data@ == old(reader).data@,
            r is Err ==> ({
                let pair = (mask.bits >> (component as u8)) & 0x11;
                pair == 0x11 || (pair == 0x10 && old(reader).pos + scalar_width(*t) > old(reader).data@.len())
            }),
            match r {
                Ok(v) => {
                    let pair = (mask.bits >> (component as u8)) & 0x11;
                    let dv = old(reader).data@;
                    let p = old(reader).pos as int;
                    if pair == 0x10 {
                        &&& p + scalar_width(*t) <= dv.len()
                        &&& v == scalar_at(dv, p, *t)
                        &&& final(reader).pos == old(reader).pos + scalar_width(*t)
                    } else {
                        &&& pair == 0x00 || pair == 0x01
                        &&& v == 0
                        &&& final(reader).pos == old(reader).pos
                    }
                },
                Err(_) => true,
            },
    {
        proof {
            reveal_with_fuel(le_bytes_val, 3);
        }
        match mask.mask(component)? {
            ValueMask::Spline => reader.read_scaled_compressed_scalar(t),
            _ => Ok(0),
        }
    }

    /// Read the static float of one component; non-static components are
    /// zero.
    fn read_static_component(reader: &mut BlockDataReader, mask: &VectorMask, component: usize) -> (r:
        Result<u32, Error>)
        requires
            component < 3,
        ensures
            final(reader).data@ == old(reader).data@,
            match r {
                Ok(v) => {
                    let pair = (mask.bits >> (component as u8)) & 0x11;
                    let dv = old(reader).data@;
                    let p = old(reader).pos as int;
                    if pair == 0x01 {
                        &&& p + 4 <= dv.len()
                        &&& v == le_bytes_val(dv, p, 4)
                        &&& final(reader).pos == old(reader).pos + 4
                    } else {
                        &&& pair == 0x00 || pair == 0x10
                        &&& v == 0
                        &&& final(reader).pos == old(reader).pos
                    }
                },
                Err(_) => {
                    let pair = (mask.bits >> (component as u8)) & 0x11;
                    pair == 0x11 || (pair == 0x01 && old(reader).pos + 4 > old(reader).data@.len())
                },
            },
    {
        match mask.mask(component)? {
            ValueMask::Static => reader.read_u32(),
            _ => Ok(0),
        }
    }
}


impl CompressedQuatArray {
    /// Read a quaternion channel: for a spline mask, the item count, degree
    /// and `items + degree + 2` knots (with no alignment after), then
    /// `items + 1` packed quaternions in the selected packing; the 24, 16
    /// and 128 bit codes carry no decoder. A static mask reads one 40-bit
    /// packed quaternion whatever the compression byte selects.
    pub fn new(reader: &mut BlockDataReader, mask: &QuatMask, primitive_type:
        &CompressedQuaternionType) -> (r: Result<Self, Error>)
        ensures
            final(reader).data@ == old(reader).data@,
            match r {
                Ok(a) => compressed_quat_array_wf(a, *mask) && (a matches
                    CompressedQuatArray::Spline(s) ==> {
                    let dv = old(reader).data@;
                    let p = old(reader).pos as int;
                    let base = p + 3 + s.knots@.len();
                    &&& s.quat_type == primitive_type
                    &&& p + 3 <= dv.len()
                    &&& s.points@.len() == le_bytes_val(dv, p, 2) + 1
                    &&& s.degree == dv[p + 2]
                    &&& s.knots@ == dv.subrange(p + 3, base)
                    &&& (primitive_type is K32 ==> forall|i: int|
                        0 <= i < s.points@.len() ==> #[trigger] s.points@[i]
                            == PackedQuaternion::K32(
                            k32_unpack(le_bytes_val(dv, base + 4 * i, 4) as u32),
                        ))
                    &&& (primitive_type is K40 ==> forall|i: int|
                        0 <= i < s.points@.len() ==> #[trigger] s.points@[i]
                            == PackedQuaternion::K40(
                            k40_unpack(le_bytes_val(dv, base + 5 * i, 5) as u64),
                        ))
                    &&& (primitive_type is K48 ==> forall|i: int|
                        0 <= i < s.points@.len() ==> #[trigger] s.points@[i]
                            == PackedQuaternion::K48(
                            k48_unpack(
                                le_bytes_val(dv, base + 6 * i, 2) as u16,
                                le_bytes_val(dv, base + 6 * i + 2, 2) as u16,
                                le_bytes_val(dv, base + 6 * i + 4, 2) as u16,
                            ),
                        ))
                }) && (a matches CompressedQuatArray::Static(q) ==> {
                    let dv = old(reader).data@;
                    let p = old(reader).pos as int;
                    &&& p + 5 <= dv.len()
                    &&& q == k40_unpack(le_bytes_val(dv, p, 5) as u64)
                    &&& final(reader).pos == old(reader).pos + 5
                }),
                Err(_) => true,
            },
            (old(reader).pos <= old(reader).data@.len() && quat_channel_readable(
                old(reader).data@,
                old(reader).pos as int,
                mask.bits,
                *primitive_type,
            )) ==> r is Ok,
            r is Ok ==> final(reader).pos == quat_channel_end(
                old(reader).data@,
                old(reader).pos as int,
                mask.bits,
                *primitive_type,
            ),
            mask.bits & 0xF0 == 0 && mask.bits & 0x0F == 0 ==> r is Ok,
            r matches Ok(a) && a is Empty ==> final(reader).pos == old(reader).pos,
            mask.bits & 0xF0 == 0 && mask.bits & 0x0F != 0 ==> (r is Ok <==> old(reader).pos + 5
                <= old(reader).data@.len()),
            (mask.bits & 0xF0 != 0 && !(primitive_type is K32 || primitive_type is K40
                || primitive_type is K48)) ==> r is Err,
    {
        proof {
            reveal_with_fuel(le_bytes_val, 4);
        }
        let ghost qcr = quat_channel_readable(
            old(reader).data@,
            old(reader).pos as int,
            mask.bits,
            *primitive_type,
        );
        if mask.has_spline() {
            let num_items = reader.read_u16()?;
            let degree = reader.read_u8()?;
            let knot_count = num_items as usize + degree as usize + 2;
            let knots = reader.read_bytes(knot_count)?;
            let ghost bstart = reader.pos as int;

            let point_count = num_items as usize + 1;
            let mut points: Vec<PackedQuaternion> = Vec::new();
            let mut p: usize = 0;
            while p < point_count
                invariant
                    mask.bits & 0xF0 != 0,
                    qcr == quat_channel_readable(
                        old(reader).data@,
                        old(reader).pos as int,
                        mask.bits,
                        *primitive_type,
                    ),
                    qcr ==> (primitive_type is K32 || primitive_type is K40 || primitive_type
                        is K48),
                    qcr && primitive_type is K32 ==> bstart + 4 * (point_count as int) <= old(reader).data@.len(),
                    qcr && primitive_type is K40 ==> bstart + 5 * (point_count as int) <= old(reader).data@.len(),
                    qcr && primitive_type is K48 ==> bstart + 6 * (point_count as int) <= old(reader).data@.len(),
                    reader.data@ == old(reader).data@,
                    p <= point_count,
                    points@.len() == p,
                    p > 0 ==> (primitive_type is K32 || primitive_type is K40 || primitive_type
                        is K48),
                    primitive_type is K32 ==> reader.pos == bstart + 4 * p && (forall|i: int|
                        0 <= i < p ==> #[trigger] points@[i] == PackedQuaternion::K32(
                            k32_unpack(
                                le_bytes_val(reader.data@, bstart + 4 * i, 4) as u32,
                            ),
                        )),
                    primitive_type is K40 ==> reader.pos == bstart + 5 * p && (forall|i: int|
                        0 <= i < p ==> #[trigger] points@[i] == PackedQuaternion::K40(
                            k40_unpack(
                                le_bytes_val(reader.data@, bstart + 5 * i, 5) as u64,
                            ),
                        )),
                    primitive_type is K48 ==> reader.pos == bstart + 6 * p && (forall|i: int|
                        0 <= i < p ==> #[trigger] points@[i] == PackedQuaternion::K48(
                            k48_unpack(
                                le_bytes_val(reader.data@, bstart + 6 * i, 2) as u16,
                                le_bytes_val(reader.data@, bstart + 6 * i + 2, 2) as u16,
                                le_bytes_val(reader.data@, bstart + 6 * i + 4, 2) as u16,
                            ),
                        )),
                decreases point_count - p,
            {
                let q = match primitive_type {
                    CompressedQuaternionType::K32 => PackedQuaternion::K32(reader.read_k32_quat()?),
                    CompressedQuaternionType::K40 => PackedQuaternion::K40(reader.read_k40_quat()?),
                    CompressedQuaternionType::K48 => PackedQuaternion::K48(reader.read_k48_quat()?),
                    _ => {
                        return Err(Error::Invalid("unsupported compressed primitive type"));
                    },
                };
                points.push(q);
                p = p + 1;
            }

            Ok(
                Self::Spline(
                    QuatSpline { quat_type: *primitive_type, degree, knots, points },
                ),
            )
        } else if mask.has_static() {
            Ok(Self::Static(reader.read_k40_quat()?))
        } else {
            Ok(Self::Empty)
        }
    }
}

/// The three channels of one track: translation, rotation and scale.
#[derive(Debug)]
pub struct Track {
    /// Translation channel (three components).
    pub translate: CompressedFloatArray,
    /// Rotation channel (a quaternion).
    pub rotate: CompressedQuatArray,
    /// Scale channel (three components).
    pub scale: CompressedFloatArray,
}

/// Each channel follows its mask.
pub open spec fn track_wf(t: Track, mask: TransformMask) -> bool {
    &&& compressed_float_array_wf(t.translate, mask.translate)
    &&& compressed_quat_array_wf(t.rotate, mask.rotate)
    &&& compressed_float_array_wf(t.scale, mask.scale)
}

impl Track {
    /// Read one track: translation, a 4-byte alignment, rotation, another
    /// alignment, scale, a final alignment.
    pub fn new(reader: &mut BlockDataReader, mask: &TransformMask) -> (r: Result<Track, Error>)
        ensures
            final(reader).data@ == old(reader).data@,
            match r {
                Ok(t) => track_wf(t, *mask),
                Err(_) => true,
            },
            r is Ok ==> final(reader).pos == track_end(
                old(reader).data@,
                old(reader).pos as int,
                *mask,
            ),
            (mask.compression & 0x3 >= 2 || (mask.compression >> 2) & 0xF >= 6 || mask.compression
                >> 6 >= 2) ==> r is Err,
            (mask.compression & 0x3 < 2 && (mask.compression >> 2) & 0xF < 6 && mask.compression
                >> 6 < 2 && mask.translate.bits == 0 && mask.rotate.bits == 0 && mask.scale.bits
                == 0 && old(reader).pos + 3 <= usize::MAX) ==> r is Ok,
            track_readable(old(reader).data@, old(reader).pos as int, *mask) ==> r is Ok,
    {
        proof {
            assert(0u8 & 0xF0 == 0 && 0u8 & 0x0F == 0) by (bit_vector);
        }
        let translate_type = mask.translate_primitive_type()?;
        let rotate_type = mask.rotate_primitive_type()?;
        let scale_type = mask.scale_primitive_type()?;
        let translate = CompressedFloatArray::new(reader, &mask.translate, &translate_type)?;
        reader.align(4)?;
        let rotate = CompressedQuatArray::new(reader, &mask.rotate, &rotate_type)?;
        reader.align(4)?;
        let scale = CompressedFloatArray::new(reader, &mask.scale, &scale_type)?;
        reader.align(4)?;
        Ok(Track { translate, rotate, scale })
    }
}

/// One decoded block: its frame count and one track per transform track.
#[derive(Debug)]
pub struct Block {
    /// Frames covered by this block.
    pub num_frames: usize,
    /// One track per transform track.
    pub tracks: Vec<Track>,
}

/// The position just past one track read at `pos` under mask `m`: the
/// translation channel, a four-byte alignment, the rotation channel,
/// another alignment, the scale channel, and a final alignment.
pub open spec fn track_end(data: Seq<u8>, pos: int, m: TransformMask) -> int {
    let tt = if m.compression & 0x3 == 0 {
        CompressedScalarType::K8
    } else {
        CompressedScalarType::K16
    };
    let rcode = (m.compression >> 2) & 0xF;
    let rt = if rcode == 0 {
        CompressedQuaternionType::K32
    } else if rcode == 1 {
        CompressedQuaternionType::K40
    } else if rcode == 2 {
        CompressedQuaternionType::K48
    } else {
        CompressedQuaternionType::K24
    };
    let st = if m.compression >> 6 == 0 {
        CompressedScalarType::K8
    } else {
        CompressedScalarType::K16
    };
    let t1 = vector_channel_end(data, pos, m.translate.bits, tt);
    let a1 = align_up(t1, 4);
    let t2 = quat_channel_end(data, a1, m.rotate.bits, rt);
    let a2 = align_up(t2, 4);
    let t3 = vector_channel_end(data, a2, m.scale.bits, st);
    align_up(t3, 4)
}

/// Whether one track's whole payload is present at `pos`: valid
/// compression codes, each non-empty channel readable at its chained
/// position, and every alignment within the address space.
pub open spec fn track_readable(data: Seq<u8>, pos: int, m: TransformMask) -> bool {
    let tt = if m.compression & 0x3 == 0 {
        CompressedScalarType::K8
    } else {
        CompressedScalarType::K16
    };
    let rcode = (m.compression >> 2) & 0xF;
    let rt = if rcode == 0 {
        CompressedQuaternionType::K32
    } else if rcode == 1 {
        CompressedQuaternionType::K40
    } else {
        CompressedQuaternionType::K48
    };
    let st = if m.compression >> 6 == 0 {
        CompressedScalarType::K8
    } else {
        CompressedScalarType::K16
    };
    let t1 = vector_channel_end(data, pos, m.translate.bits, tt);
    let a1 = align_up(t1, 4);
    let t2 = quat_channel_end(data, a1, m.rotate.bits, rt);
    let a2 = align_up(t2, 4);
    let t3 = vector_channel_end(data, a2, m.scale.bits, st);
    &&& m.compression & 0x3 < 2
    &&& (m.compression >> 2) & 0xF < 3
    &&& m.compression >> 6 < 2
    &&& (m.translate.bits == 0 || (pos <= data.len() && vector_channel_readable(
        data,
        pos,
        m.translate.bits,
        tt,
    )))
    &&& align_up(t1, 4) <= usize::MAX
    &&& (m.rotate.bits == 0 || (a1 <= data.len() && quat_channel_readable(
        data,
        a1,
        m.rotate.bits,
        rt,
    )))
    &&& align_up(t2, 4) <= usize::MAX
    &&& (m.scale.bits == 0 || (a2 <= data.len() && vector_channel_readable(
        data,
        a2,
        m.scale.bits,
        st,
    )))
    &&& align_up(t3, 4) <= usize::MAX
}

/// Each spline channel of a track has a fitting knot vector.
pub open spec fn track_channels_wf(t: Track) -> bool {
    &&& (t.translate matches CompressedFloatArray::Spline(s) ==> vector_spline_wf(s))
    &&& (t.rotate matches CompressedQuatArray::Spline(s) ==> quat_spline_wf(s))
    &&& (t.scale matches CompressedFloatArray::Spline(s) ==> vector_spline_wf(s))
}

/// Where track `k` of a block begins: the masks occupy the first
/// `4 * num_tracks` bytes and each track follows the previous one's end.
pub open spec fn track_start(data: Seq<u8>, num_tracks: int, k: int) -> int
    decreases k,
{
    if k <= 0 {
        4 * num_tracks
    } else {
        track_end(data, track_start(data, num_tracks, k - 1), Block::spec_mask_at(data, k - 1))
    }
}

/// Whether every track from `k` on is readable at its chained position.
pub open spec fn tracks_readable(data: Seq<u8>, num_tracks: int, k: int) -> bool
    decreases num_tracks - k,
{
    if k >= num_tracks {
        true
    } else {
        &&& track_readable(data, track_start(data, num_tracks, k), Block::spec_mask_at(data, k))
        &&& tracks_readable(data, num_tracks, k + 1)
    }
}

/// Every track's spline channels have fitting knot vectors.
pub open spec fn block_wf(b: Block) -> bool {
    forall|i: int| 0 <= i < b.tracks@.len() ==> track_channels_wf(#[trigger] b.tracks@[i])
}

impl Block {
    /// The four mask bytes of track `k`, read back to back from the start
    /// of the block.
    pub open spec fn spec_mask_at(data: Seq<u8>, k: int) -> TransformMask {
        TransformMask {
            compression: data[4 * k],
            translate: VectorMask { bits: data[4 * k + 1] },
            rotate: QuatMask { bits: data[4 * k + 2] },
            scale: VectorMask { bits: data[4 * k + 3] },
        }
    }

    /// Decode one block's byte range: `num_tracks` four-byte transform
    /// masks back to back, then the tracks in the same order, each read
    /// under its own mask.
    pub fn from_bytes(data: &[u8], num_tracks: usize, num_frames: usize) -> (r: Result<
        Block,
        Error,
    >)
        ensures
            num_tracks == 0 ==> r is Ok,
            (4 * num_tracks <= data@.len() && tracks_readable(data@, num_tracks as int, 0))
                ==> r is Ok,
            match r {
                Ok(b) => {
                    &&& b.tracks@.len() == num_tracks
                    &&& b.num_frames == num_frames
                    &&& 4 * num_tracks <= data@.len()
                    &&& forall|k: int|
                        0 <= k < num_tracks ==> track_wf(
                            #[trigger] b.tracks@[k],
                            Self::spec_mask_at(data@, k),
                        )
                    &&& block_wf(b)
                },
                Err(_) => true,
            },
    {
        let mut reader = BlockDataReader::new(data);

        let mut masks: Vec<TransformMask> = Vec::new();
        let mut i: usize = 0;
        while i < num_tracks
            invariant
                i <= num_tracks,
                masks@.len() == i,
                reader.data@ == data@,
                reader.pos == 4 * i,
                4 * i <= data@.len(),
                forall|k: int|
                    0 <= k < i ==> #[trigger] masks@[k] == Self::spec_mask_at(data@, k),
            decreases num_tracks - i,
        {
            let compression = reader.read_u8()?;
            let translate = reader.read_u8()?;
            let rotate = reader.read_u8()?;
            let scale = reader.read_u8()?;
            masks.push(TransformMask::new(compression, translate, rotate, scale));
            i = i + 1;
        }

        let mut tracks: Vec<Track> = Vec::new();
        let mut t: usize = 0;
        while t < num_tracks
            invariant
                t <= num_tracks,
                masks@.len() == num_tracks,
                tracks@.len() == t,
                reader.data@ == data@,
                4 * num_tracks <= data@.len(),
                reader.pos == track_start(data@, num_tracks as int, t as int),
                tracks_readable(data@, num_tracks as int, 0) ==> tracks_readable(
                    data@,
                    num_tracks as int,
                    t as int,
                ),
                forall|k: int|
                    0 <= k < num_tracks ==> #[trigger] masks@[k] == Self::spec_mask_at(data@, k),
                forall|k: int|
                    0 <= k < t ==> track_wf(#[trigger] tracks@[k], masks@[k]),
            decreases num_tracks - t,
        {
            let track = Track::new(&mut reader, &masks[t])?;
            tracks.push(track);
            t = t + 1;
        }

        let b = Block { num_frames, tracks };
        proof {
            assert forall|k: int| 0 <= k < b.tracks@.len() implies track_channels_wf(
                #[trigger] b.tracks@[k],
            ) && track_wf(b.tracks@[k], Self::spec_mask_at(data@, k)) by {
                assert(track_wf(b.tracks@[k], masks@[k]));
            }
        }
        Ok(b)
    }
}

} // verus!
