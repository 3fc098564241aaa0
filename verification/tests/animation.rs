use tagfile_reader::compressedanimation::{
    Block, BlockDataReader, CompressedFloatArray, CompressedQuatArray, CompressedQuaternionType,
    CompressedScalarType, QuatMask, TransformMask, ValueMask, VectorMask,
};

#[test]
fn scalar_type_codes() {
    assert!(matches!(
        CompressedScalarType::from(0),
        Ok(CompressedScalarType::K8)
    ));
    assert!(matches!(
        CompressedScalarType::from(1),
        Ok(CompressedScalarType::K16)
    ));
    assert!(CompressedScalarType::from(2).is_err());
}

#[test]
fn quaternion_type_codes() {
    assert!(matches!(
        CompressedQuaternionType::from(0),
        Ok(CompressedQuaternionType::K32)
    ));
    assert!(matches!(
        CompressedQuaternionType::from(1),
        Ok(CompressedQuaternionType::K40)
    ));
    assert!(matches!(
        CompressedQuaternionType::from(2),
        Ok(CompressedQuaternionType::K48)
    ));
    assert!(matches!(
        CompressedQuaternionType::from(5),
        Ok(CompressedQuaternionType::K128)
    ));
    assert!(CompressedQuaternionType::from(6).is_err());
}

#[test]
fn vector_mask_components() {
    // Component 0 static, component 1 spline, component 2 empty.
    let mask = VectorMask::new(0x21);
    assert!(mask.has_static());
    assert!(mask.has_spline());
    assert!(matches!(mask.mask(0), Ok(ValueMask::Static)));
    assert!(matches!(mask.mask(1), Ok(ValueMask::Spline)));
    assert!(matches!(mask.mask(2), Ok(ValueMask::Empty)));
    // A component marked both static and spline is invalid.
    assert!(VectorMask::new(0x11).mask(0).is_err());
}

#[test]
fn quat_mask_nibbles() {
    assert!(QuatMask::new(0x01).has_static());
    assert!(!QuatMask::new(0x01).has_spline());
    assert!(QuatMask::new(0x10).has_spline());
    assert!(!QuatMask::new(0x00).has_static());
}

#[test]
fn compression_byte_split() {
    // Translate K16 (bits 0..2 = 1), rotate K48 (bits 2..6 = 2), scale K16
    // (bits 6..8 = 1).
    let mask = TransformMask::new(0b01_0010_01, 0, 0, 0);
    assert!(matches!(
        mask.translate_primitive_type(),
        Ok(CompressedScalarType::K16)
    ));
    assert!(matches!(
        mask.rotate_primitive_type(),
        Ok(CompressedQuaternionType::K48)
    ));
    assert!(matches!(
        mask.scale_primitive_type(),
        Ok(CompressedScalarType::K16)
    ));
}

#[test]
fn k40_identity_fields() {
    // All three components at the midpoint DELTA (0x7FF), shift 3, no
    // inversion: the packed form of the identity quaternion.
    let n: u64 = 0x7FF | (0x7FF << 12) | (0x7FF << 24) | (3 << 36);
    let bytes: Vec<u8> = n.to_le_bytes()[..5].to_vec();
    let mut reader = BlockDataReader::new(&bytes);
    let q = reader.read_k40_quat().unwrap();
    assert_eq!(q.a, 0x7FF);
    assert_eq!(q.b, 0x7FF);
    assert_eq!(q.c, 0x7FF);
    assert_eq!(q.shift, 3);
    assert!(!q.invert);
}

#[test]
fn k48_field_extraction() {
    // x carries shift bit 0 in its top bit, y shift bit 1 in its top bit,
    // z the inversion flag in its top bit.
    let x: u16 = 0x8000 | 0x1234;
    let y: u16 = 0x8000 | 0x0ABC;
    let z: u16 = 0x8000 | 0x7FFF;
    let mut bytes = Vec::new();
    bytes.extend_from_slice(&x.to_le_bytes());
    bytes.extend_from_slice(&y.to_le_bytes());
    bytes.extend_from_slice(&z.to_le_bytes());
    let mut reader = BlockDataReader::new(&bytes);
    let q = reader.read_k48_quat().unwrap();
    assert_eq!(q.a, 0x1234);
    assert_eq!(q.b, 0x0ABC);
    assert_eq!(q.c, 0x7FFF);
    assert_eq!(q.shift, 3);
    assert!(q.invert);
}

#[test]
fn k32_field_extraction() {
    let val: u32 = 0x0002_FFFF | (0x155 << 18) | (1 << 28) | (1 << 31);
    let bytes = val.to_le_bytes();
    let mut reader = BlockDataReader::new(&bytes);
    let q = reader.read_k32_quat().unwrap();
    assert_eq!(q.phi_theta, 0x0002_FFFF);
    assert_eq!(q.r_raw, 0x155);
    assert!(q.sx);
    assert!(!q.sy);
    assert!(!q.sz);
    assert!(q.sw);
}

#[test]
fn align_advances_to_multiple() {
    let bytes = [0u8; 8];
    let mut reader = BlockDataReader::new(&bytes);
    reader.read_u8().unwrap();
    reader.align(4).unwrap();
    assert_eq!(reader.pos, 4);
    reader.align(4).unwrap();
    assert_eq!(reader.pos, 4);
}

#[test]
fn empty_block() {
    let block = Block::from_bytes(&[], 0, 12).unwrap();
    assert_eq!(block.num_frames, 12);
    assert!(block.tracks.is_empty());
}

#[test]
fn static_translation_block() {
    // One track: translate has component 0 static, rotation and scale are
    // empty. Payload: 4 mask bytes, then one float (1.0f32).
    let mut bytes = vec![0x00, 0x01, 0x00, 0x00];
    bytes.extend_from_slice(&1.0f32.to_bits().to_le_bytes());
    let block = Block::from_bytes(&bytes, 1, 1).unwrap();
    assert_eq!(block.tracks.len(), 1);
    match &block.tracks[0].translate {
        CompressedFloatArray::Static(v) => {
            assert_eq!(v[0], 1.0f32.to_bits());
            assert_eq!(v[1], 0);
            assert_eq!(v[2], 0);
        }
        other => panic!("expected a static translation, got {other:?}"),
    }
    assert!(matches!(
        block.tracks[0].rotate,
        CompressedQuatArray::Empty
    ));
    assert!(matches!(
        block.tracks[0].scale,
        CompressedFloatArray::Empty
    ));
}

#[test]
fn spline_translation_block() {
    // One track: translate has component 0 spline-compressed with K8
    // scalars; 2 items of degree 1 need 5 knots.
    let mut bytes = vec![0x00, 0x10, 0x00, 0x00];
    bytes.extend_from_slice(&2u16.to_le_bytes()); // num_items
    bytes.push(1); // degree
    bytes.extend_from_slice(&[0, 0, 1, 2, 2]); // knots
    // align to 4: header was 4 + 2 + 1 + 5 = 12, already aligned
    bytes.extend_from_slice(&0.0f32.to_bits().to_le_bytes()); // range floor
    bytes.extend_from_slice(&1.0f32.to_bits().to_le_bytes()); // range ceiling
    bytes.extend_from_slice(&[0, 128, 255]); // three raw K8 scalars
    let block = Block::from_bytes(&bytes, 1, 2).unwrap();
    match &block.tracks[0].translate {
        CompressedFloatArray::Spline(s) => {
            assert_eq!(s.degree, 1);
            assert_eq!(s.knots, vec![0, 0, 1, 2, 2]);
            assert_eq!(s.points.len(), 3);
            assert_eq!(s.knots.len(), s.points.len() + s.degree as usize + 1);
            assert_eq!(s.ranges[0][0], 0.0f32.to_bits());
            assert_eq!(s.ranges[0][1], 1.0f32.to_bits());
            assert_eq!(s.points[0][0], 0);
            assert_eq!(s.points[1][0], 128);
            assert_eq!(s.points[2][0], 255);
            assert!(matches!(s.scalar_type, CompressedScalarType::K8));
        }
        other => panic!("expected a spline translation, got {other:?}"),
    }
}

#[test]
fn quat_spline_block() {
    // One track whose rotation is a K40 spline: compression byte selects
    // K40 (code 1 in bits 2..6); one item of degree 0 needs three knots and
    // two control points of five bytes each, with no alignment after the
    // knots.
    let mut bytes = vec![0x04, 0x00, 0x10, 0x00];
    bytes.extend_from_slice(&1u16.to_le_bytes()); // num_items
    bytes.push(0); // degree
    bytes.extend_from_slice(&[0, 1, 2]); // knots
    let n: u64 = 0x7FF | (0x7FF << 12) | (0x7FF << 24) | (3 << 36);
    bytes.extend_from_slice(&n.to_le_bytes()[..5]);
    bytes.extend_from_slice(&n.to_le_bytes()[..5]);
    let block = Block::from_bytes(&bytes, 1, 1).unwrap();
    match &block.tracks[0].rotate {
        CompressedQuatArray::Spline(s) => {
            assert!(matches!(s.quat_type, CompressedQuaternionType::K40));
            assert_eq!(s.degree, 0);
            assert_eq!(s.knots, vec![0, 1, 2]);
            assert_eq!(s.points.len(), 2);
            match &s.points[0] {
                tagfile_reader::compressedanimation::PackedQuaternion::K40(q) => {
                    assert_eq!(q.a, 0x7FF);
                    assert_eq!(q.shift, 3);
                    assert!(!q.invert);
                }
                other => panic!("expected a K40 point, got {other:?}"),
            }
        }
        other => panic!("expected a spline rotation, got {other:?}"),
    }
}

#[test]
fn static_quat_uses_k40() {
    // A static rotation reads one 40-bit packed quaternion even when the
    // compression byte selects another packing.
    let mut bytes = vec![0x08, 0x00, 0x01, 0x00]; // rotate type K48, mask static
    let n: u64 = 0x7FF | (0x7FF << 12) | (0x7FF << 24) | (3 << 36);
    bytes.extend_from_slice(&n.to_le_bytes()[..5]);
    let block = Block::from_bytes(&bytes, 1, 1).unwrap();
    match &block.tracks[0].rotate {
        CompressedQuatArray::Static(q) => {
            assert_eq!(q.a, 0x7FF);
            assert_eq!(q.b, 0x7FF);
            assert_eq!(q.c, 0x7FF);
            assert_eq!(q.shift, 3);
            assert!(!q.invert);
        }
        other => panic!("expected a static rotation, got {other:?}"),
    }
}

#[test]
fn truncated_block_rejected() {
    // The mask promises a static float that is not there.
    let bytes = vec![0x00, 0x01, 0x00, 0x00];
    assert!(Block::from_bytes(&bytes, 1, 1).is_err());
}

#[test]
fn unsupported_spline_packing_rejected() {
    // A spline rotation whose compression byte selects the 24-bit packing
    // (code 3), which has no decoder.
    let mut bytes = vec![0x0C, 0x00, 0x10, 0x00];
    bytes.extend_from_slice(&0u16.to_le_bytes()); // num_items
    bytes.push(0); // degree
    bytes.extend_from_slice(&[0, 1]); // knots
    assert!(Block::from_bytes(&bytes, 1, 1).is_err());
}

