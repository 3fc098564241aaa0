use tagfile_reader::tagfile::Tagfile;

fn read(input: &[u8], count: usize) -> Vec<bool> {
    let mut tagfile = Tagfile::new(input.to_vec());
    tagfile.read_bitfield(count).unwrap()
}

#[test]
fn simple() {
    assert_eq!(
        read(&[1], 8),
        [true, false, false, false, false, false, false, false]
    );
}

#[test]
fn mixed() {
    assert_eq!(
        read(&[170], 8),
        [false, true, false, true, false, true, false, true]
    );
}

#[test]
fn multiple_bytes() {
    assert_eq!(
        read(&[1, 1], 16),
        [
            true, false, false, false, false, false, false, false, true, false, false, false,
            false, false, false, false
        ]
    );
}

#[test]
fn truncated() {
    assert_eq!(read(&[2], 2), [false, true]);
}

#[test]
fn stray_bit_invalid() {
    let mut tagfile = Tagfile::new(vec![2]);
    assert!(tagfile.read_bitfield(1).is_err());
}

#[test]
fn not_enough_bytes() {
    let mut tagfile = Tagfile::new(vec![1]);
    assert!(tagfile.read_bitfield(9).is_err());
}
