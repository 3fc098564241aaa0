use tagfile_reader::tagfile::Tagfile;

fn read(input: &[u8], cache: Vec<Option<String>>) -> (String, Vec<Option<String>>) {
    let mut tagfile = Tagfile::new(input.to_vec());
    tagfile.strings = cache;
    (tagfile.read_string().unwrap(), tagfile.strings)
}

#[test]
fn hello() {
    assert_eq!(
        read(&[10, 104, 101, 108, 108, 111], vec![]),
        ("hello".into(), vec![Some("hello".into())])
    )
}

#[test]
fn from_cache() {
    assert_eq!(
        read(
            &[3],
            vec![Some("not this one".into()), Some("this one".into())]
        ),
        (
            "this one".into(),
            vec![Some("not this one".into()), Some("this one".into())]
        )
    )
}

#[test]
fn unset_cache_entry() {
    let mut tagfile = Tagfile::new(vec![3]);
    tagfile.strings = vec![Some("zero".into()), None];
    assert!(tagfile.read_string().is_err());
}

#[test]
fn cache_index_out_of_range() {
    let mut tagfile = Tagfile::new(vec![5]);
    tagfile.strings = vec![Some("zero".into())];
    assert!(tagfile.read_string().is_err());
}

#[test]
fn invalid_utf8() {
    let mut tagfile = Tagfile::new(vec![4, 0xFF, 0xFE]);
    assert!(tagfile.read_string().is_err());
    // A failed read leaves the pool untouched.
    assert_eq!(tagfile.strings.len(), 2);
}

#[test]
fn pool_growth() {
    // Two fresh reads grow the pool by exactly one entry each; a cache hit
    // leaves it unchanged.
    let mut tagfile = Tagfile::new(vec![2, b'x', 2, b'y', 5]);
    assert_eq!(tagfile.strings.len(), 2);
    assert_eq!(tagfile.read_string().unwrap(), "x");
    assert_eq!(tagfile.strings.len(), 3);
    assert_eq!(tagfile.read_string().unwrap(), "y");
    assert_eq!(tagfile.strings.len(), 4);
    assert_eq!(tagfile.read_string().unwrap(), "x");
    assert_eq!(tagfile.strings.len(), 4);
}
