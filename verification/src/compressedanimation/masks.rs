//! Transform masks and compression type codes.
use vstd::prelude::*;

verus! {

use crate::error::Error;

/// How one vector component is stored.
#[derive(Clone, Copy, Debug, PartialEq, Eq, Structural)]
pub enum ValueMask {
    /// Compressed spline control points.
    Spline,
    /// One static float.
    Static,
    /// Nothing; the component takes its identity value.
    Empty,
}

/// Scalar packing for compressed control point components.
#[derive(Clone, Copy, Debug, PartialEq, Eq, Structural)]
pub enum CompressedScalarType {
    /// One byte, scaled by 1/255.
    K8,
    /// One little-endian u16, scaled by 1/65535.
    K16,
}

impl CompressedScalarType {
    /// Decode a scalar type code: 0 and 1 name the two packings, anything
    /// else is invalid.
    pub fn from(value: u8) -> (r: Result<Self, Error>)
        ensures
            match r {
                Ok(t) => (value == 0 && t is K8) || (value == 1 && t is K16),
                Err(_) => value >= 2,
            },
    {
        match value {
            0 => Ok(Self::K8),
            1 => Ok(Self::K16),
            _ => Err(Error::Invalid("not a valid compressed scalar type")),
        }
    }
}

/// Quaternion packing for rotation control points.
#[derive(Clone, Copy, Debug, PartialEq, Eq, Structural)]
pub enum CompressedQuaternionType {
    /// 32 bits: polar angles and a radius.
    K32,
    /// 40 bits: three 12-bit fixed-point components.
    K40,
    /// 48 bits: three 15-bit fixed-point components.
    K48,
    /// 24 bits; listed in the format but carries no decoder.
    K24,
    /// 16 bits; listed in the format but carries no decoder.
    K16,
    /// 128 bits; listed in the format but carries no decoder.
    K128,
}

impl CompressedQuaternionType {
    /// Decode a quaternion type code: 0 to 5 name the six packings,
    /// anything else is invalid.
    pub fn from(value: u8) -> (r: Result<Self, Error>)
        ensures
            match r {
                Ok(t) => {
                    &&& value <= 5
                    &&& t is K32 <==> value == 0
                    &&& t is K40 <==> value == 1
                    &&& t is K48 <==> value == 2
                    &&& t is K24 <==> value == 3
                    &&& t is K16 <==> value == 4
                    &&& t is K128 <==> value == 5
                },
                Err(_) => value >= 6,
            },
    {
        match value {
            0 => Ok(Self::K32),
            1 => Ok(Self::K40),
            2 => Ok(Self::K48),
            3 => Ok(Self::K24),
            4 => Ok(Self::K16),
            5 => Ok(Self::K128),
            _ => Err(Error::Invalid("not a valid compressed quaternion type")),
        }
    }
}

/// Per-component storage mask of a three-component vector channel: the low
/// nibble marks static components, the high nibble spline components.
#[derive(Clone, Copy, Debug)]
pub struct VectorMask {
    /// The raw mask byte.
    pub bits: u8,
}

impl VectorMask {
    /// Wrap a raw mask byte.
    pub fn new(bits: u8) -> (r: Self)
        ensures
            r.bits == bits,
    {
        Self { bits }
    }

    /// Whether any component is stored as a static float.
    pub fn has_static(&self) -> (r: bool)
        ensures
            r == (self.bits & 0x0F != 0),
    {
        0 != (self.bits & 0x0F)
    }

    /// Whether any component is stored as spline control points.
    pub fn has_spline(&self) -> (r: bool)
        ensures
            r == (self.bits & 0xF0 != 0),
    {
        0 != (self.bits & 0xF0)
    }

    /// How component `component_index` is stored: bit `i` of the low nibble
    /// marks it static, bit `i` of the high nibble spline; both set at once
    /// is invalid.
    pub fn mask(&self, component_index: usize) -> (r: Result<ValueMask, Error>)
        requires
            component_index < 3,
        ensures
            match r {
                Ok(m) => {
                    let pair = (self.bits >> (component_index as u8)) & 0x11;
                    &&& m is Empty <==> pair == 0x00
                    &&& m is Static <==> pair == 0x01
                    &&& m is Spline <==> pair == 0x10
                },
                Err(_) => (self.bits >> (component_index as u8)) & 0x11 == 0x11,
            },
    {
        match (self.bits >> (component_index as u8)) & 0x11 {
            0x00 => Ok(ValueMask::Empty),
            0x01 => Ok(ValueMask::Static),
            0x10 => Ok(ValueMask::Spline),
            _ => {
                proof {
                    let b = self.bits;
                    let c = component_index as u8;
                    assert((b >> c) & 0x11 == 0x00 || (b >> c) & 0x11 == 0x01 || (b >> c) & 0x11
                        == 0x10 || (b >> c) & 0x11 == 0x11) by (bit_vector);
                }
                Err(Error::Invalid("invalid component mask"))
            },
        }
    }
}

/// Storage mask of a quaternion channel; only whether anything is spline or
/// static matters.
#[derive(Clone, Copy, Debug)]
pub struct QuatMask {
    /// The raw mask byte.
    pub bits: u8,
}

impl QuatMask {
    /// Wrap a raw mask byte.
    pub fn new(bits: u8) -> (r: Self)
        ensures
            r.bits == bits,
    {
        Self { bits }
    }

    /// Whether the quaternion is stored as one static packed value.
    pub fn has_static(&self) -> (r: bool)
        ensures
            r == (self.bits & 0x0F != 0),
    {
        0 != (self.bits & 0x0F)
    }

    /// Whether the quaternion is stored as spline control points.
    pub fn has_spline(&self) -> (r: bool)
        ensures
            r == (self.bits & 0xF0 != 0),
    {
        0 != (self.bits & 0xF0)
    }
}

/// The four mask bytes heading one track: a compression byte and the three
/// channel masks.
#[derive(Clone, Copy, Debug)]
pub struct TransformMask {
    /// Compression byte: bits 0..2 the translation scalar type, 2..6 the
    /// rotation quaternion type, 6..8 the scale scalar type.
    pub compression: u8,
    /// Translation channel mask.
    pub translate: VectorMask,
    /// Rotation channel mask.
    pub rotate: QuatMask,
    /// Scale channel mask.
    pub scale: VectorMask,
}

impl TransformMask {
    /// Build a transform mask out of its four bytes.
    pub fn new(compression: u8, translate: u8, rotate: u8, scale: u8) -> (r: Self)
        ensures
            r.compression == compression,
            r.translate.bits == translate,
            r.rotate.bits == rotate,
            r.scale.bits == scale,
    {
        Self {
            compression,
            translate: VectorMask::new(translate),
            rotate: QuatMask::new(rotate),
            scale: VectorMask::new(scale),
        }
    }

    /// The scalar type of the translation channel, from compression bits
    /// 0..2.
    pub fn translate_primitive_type(&self) -> (r: Result<CompressedScalarType, Error>)
        ensures
            match r {
                Ok(t) => (self.compression & 0x3 == 0 && t is K8) || (self.compression & 0x3 == 1
                    && t is K16),
                Err(_) => self.compression & 0x3 >= 2,
            },
    {
        CompressedScalarType::from(self.compression & 0x3)
    }

    /// The quaternion type of the rotation channel, from compression bits
    /// 2..6.
    pub fn rotate_primitive_type(&self) -> (r: Result<CompressedQuaternionType, Error>)
        ensures
            ({
                let code = (self.compression >> 2) & 0xF;
                match r {
                    Ok(t) => {
                        &&& code <= 5
                        &&& t is K32 <==> code == 0
                        &&& t is K40 <==> code == 1
                        &&& t is K48 <==> code == 2
                    },
                    Err(_) => code >= 6,
                }
            }),
    {
        CompressedQuaternionType::from((self.compression >> 2) & 0xF)
    }

    /// The scalar type of the scale channel, from compression bits 6..8.
    pub fn scale_primitive_type(&self) -> (r: Result<CompressedScalarType, Error>)
        ensures
            match r {
                Ok(t) => (self.compression >> 6 == 0 && t is K8) || (self.compression >> 6 == 1
                    && t is K16),
                Err(_) => self.compression >> 6 >= 2,
            },
    {
        CompressedScalarType::from(self.compression >> 6)
    }
}

} // verus!
