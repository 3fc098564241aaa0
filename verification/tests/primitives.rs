use tagfile_reader::tagfile::{read_u16, read_u32, read_u64, read_u8};

#[test]
fn little_endian_values() {
    let data = [0x1E, 0x0D, 0xB0, 0xCA, 0xCE, 0xFA, 0x11, 0xD0];
    let mut pos: usize = 0;
    assert_eq!(read_u64(&data, &mut pos).unwrap(), 0xD011FACECAB00D1E);
    assert_eq!(pos, 8);

    let mut pos16: usize = 0;
    assert_eq!(read_u16(&data, &mut pos16).unwrap(), 0x0D1E);
    let mut pos32: usize = 0;
    assert_eq!(read_u32(&data, &mut pos32).unwrap(), 0xCAB00D1E);
    let mut pos8: usize = 0;
    assert_eq!(read_u8(&data, &mut pos8).unwrap(), 0x1E);
}

#[test]
fn reads_past_the_end_fail() {
    let data = [1, 2, 3];
    let mut pos: usize = 0;
    assert!(read_u64(&data, &mut pos).is_err());
    assert!(read_u32(&data, &mut pos).is_err());
    assert_eq!(read_u16(&data, &mut pos).unwrap(), 0x0201);
    assert_eq!(read_u8(&data, &mut pos).unwrap(), 3);
    assert!(read_u8(&data, &mut pos).is_err());
    assert_eq!(pos, 3);
}
