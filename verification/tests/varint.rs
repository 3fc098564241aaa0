use tagfile_reader::tagfile::{read_i32, Tagfile};

fn read(input: &[u8]) -> i32 {
    let mut pos: usize = 0;
    read_i32(input, &mut pos).unwrap()
}

#[test]
fn tagfile_zero() {
    let value = read(&[0]);
    assert_eq!(value, 0);
}

#[test]
fn tagfile_one() {
    let value = read(&[2]);
    assert_eq!(value, 1);
}

#[test]
fn tagfile_one_negative() {
    let value = read(&[3]);
    assert_eq!(value, -1);
}

#[test]
fn tagfile_large() {
    let value = read(&[0xFE, 0xFF, 0x7F]);
    assert_eq!(value, 1048575);
}

#[test]
fn tagfile_large_negative() {
    let value = read(&[0xFF, 0xFF, 0x7F]);
    assert_eq!(value, -1048575);
}

fn read_method(input: &[u8]) -> i32 {
    let mut tagfile = Tagfile::new(input.to_vec());
    tagfile.read_i32().unwrap()
}

#[test]
fn i32_zero() {
    assert_eq!(read_method(&[0]), 0);
}

#[test]
fn i32_one() {
    assert_eq!(read_method(&[2]), 1);
}

#[test]
fn i32_one_negative() {
    assert_eq!(read_method(&[3]), -1);
}

#[test]
fn i32_large() {
    assert_eq!(read_method(&[0xFE, 0xFF, 0x7F]), 1048575);
}

#[test]
fn i32_large_negative() {
    assert_eq!(read_method(&[0xFF, 0xFF, 0x7F]), -1048575);
}

/// The reference encoding: sign bit, six value bits, then 7-bit groups.
fn encode(v: i32) -> Vec<u8> {
    let m: u32 = if v < 0 { (-(v as i64)) as u32 } else { v as u32 };
    let sign: u8 = if v < 0 { 1 } else { 0 };
    let mut rest = m / 64;
    let mut bytes = vec![((m % 64) as u8) * 2 + sign + if rest > 0 { 128 } else { 0 }];
    while rest > 0 {
        let group = (rest % 128) as u8;
        rest /= 128;
        bytes.push(group + if rest > 0 { 128 } else { 0 });
    }
    bytes
}

#[test]
fn round_trip() {
    for &v in &[
        0,
        1,
        -1,
        63,
        64,
        -64,
        8191,
        8192,
        1048575,
        -1048575,
        i32::MAX,
        i32::MIN,
    ] {
        let bytes = encode(v);
        let mut pos: usize = 0;
        assert_eq!(read_i32(&bytes, &mut pos).unwrap(), v);
        assert_eq!(pos, bytes.len());
    }
}

#[test]
fn truncated_varint() {
    let mut pos: usize = 0;
    assert!(read_i32(&[0x80], &mut pos).is_err());
    let mut pos2: usize = 0;
    assert!(read_i32(&[], &mut pos2).is_err());
}
