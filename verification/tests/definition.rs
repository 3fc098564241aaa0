use tagfile_reader::tagfile::Tagfile;
use tagfile_reader::FieldKind;

fn read(input: &[u8]) -> FieldKind {
    let mut tagfile = Tagfile::new(input.to_vec());
    tagfile.read_kind().unwrap()
}

#[test]
fn field_float() {
    let value = read(&[6]);
    assert!(
        matches!(value, FieldKind::Float),
        "Expected Float, got {value:?}."
    )
}

#[test]
fn field_vector() {
    let value = read(&[12]);
    assert!(
        matches!(value, FieldKind::Array(ref inner, 12) if matches!(**inner, FieldKind::Float)),
        "Expected Array(Float, 12), got {value:?}."
    )
}

#[test]
fn field_reference() {
    let value = read(&[16, 10, 104, 101, 108, 108, 111]);
    assert!(
        matches!(value, FieldKind::Reference(ref string) if string == "hello"),
        "Expected Reference(\"hello\"), got {value:?}."
    )
}

#[test]
fn field_byte_array() {
    let value = read(&[34]);
    assert!(
        matches!(value, FieldKind::Vector(ref inner) if matches!(**inner, FieldKind::Byte)),
        "Expected Vector(Byte), got {value:?}."
    )
}

#[test]
fn field_float_tuple() {
    let value = read(&[70, 8]);
    assert!(
        matches!(value, FieldKind::Array(ref inner, 4) if matches!(**inner, FieldKind::Float)),
        "Expected Array(Float, 4), got {value:?}."
    )
}

#[test]
fn field_bad_base_kind() {
    let mut tagfile = Tagfile::new(vec![22]);
    assert!(tagfile.read_kind().is_err());
}

#[test]
fn whole_definition() {
    // Name "obj", version 1, no parent, two integer fields "a" and "b".
    let bytes = vec![6, b'o', b'b', b'j', 2, 0, 4, 2, b'a', 4, 2, b'b', 4];
    let mut tagfile = Tagfile::new(bytes);
    let definition = tagfile.read_definition().unwrap();
    assert_eq!(definition.name, "obj");
    assert_eq!(definition.version, 1);
    assert!(definition.parent.is_none());
    let fields = definition.fields();
    assert_eq!(fields.len(), 2);
    assert_eq!(fields[0].name, "a");
    assert!(matches!(fields[0].kind, FieldKind::Integer));
    assert_eq!(fields[1].name, "b");
    assert!(matches!(fields[1].kind, FieldKind::Integer));
    assert_eq!(tagfile.definitions.len(), 2);
}
