use tagfile_reader::tagfile::{read, Tagfile};
use tagfile_reader::Value;

const MAGIC_BYTES: [u8; 8] = [0x1E, 0x0D, 0xB0, 0xCA, 0xCE, 0xFA, 0x11, 0xD0];

fn with_magic(rest: &[u8]) -> Vec<u8> {
    let mut bytes = MAGIC_BYTES.to_vec();
    bytes.extend_from_slice(rest);
    bytes
}

#[test]
fn tagfile_skeleton() {
    // Metadata with version 3, then end of file: success with version 3 and
    // an empty node array.
    let bytes = with_magic(&[2, 6, 14]);
    let mut tagfile = Tagfile::new(bytes);
    tagfile.read().unwrap();
    assert_eq!(tagfile.version, 3);
    assert!(tagfile.nodes.is_empty());
    assert!(tagfile.pending_references.is_empty());
}

#[test]
fn bad_magic() {
    assert!(read(vec![0; 8]).is_err());
}

#[test]
fn unknown_tag() {
    // Tag id 5 is not handled.
    assert!(read(with_magic(&[10])).is_err());
}

#[test]
fn unsupported_version() {
    // Metadata with version 2.
    assert!(read(with_magic(&[2, 4, 14])).is_err());
}

#[test]
fn skeleton_has_no_root() {
    // The skeleton parses, but asking for a root walker fails.
    assert!(read(with_magic(&[2, 6, 14])).is_err());
}

/// Metadata v3, a two-integer-field definition "obj", and one node with
/// only field "b" set to 42.
fn simple_graph() -> Vec<u8> {
    with_magic(&[
        2, 6, // metadata, version 3
        4, // definition tag
        6, b'o', b'b', b'j', // name "obj"
        2, // version 1
        0, // no parent
        4, // two fields
        2, b'a', 4, // field "a": integer
        2, b'b', 4, // field "b": integer
        8, // node tag
        2, // definition index 1
        0x02, // mask: only "b"
        84, // b = 42
        14, // end of file
    ])
}

#[test]
fn field_lookup_positional() {
    let walker = read(simple_graph()).unwrap();
    assert_eq!(walker.name(), "obj");
    assert_eq!(walker.version(), 1);
    assert!(walker.is_or_inherited_from("obj"));
    assert!(!walker.is_or_inherited_from("hkaAnimation"));
    // "a" exists but is unset; "b" holds the only packed value.
    assert!(walker.field("a").is_none());
    assert_eq!(walker.field_i32("b", None).unwrap(), 42);
    assert_eq!(walker.field_i32("a", Some(7)).unwrap(), 7);
    assert!(walker.field_i32("a", None).is_err());
    assert!(walker.field_i32("missing", None).is_err());
}

/// Two definitions with inheritance: "base" with integer "x", "derived"
/// with parent "base" and integer "y"; one node with both fields set.
fn inherited_graph() -> Vec<u8> {
    with_magic(&[
        2, 6, // metadata, version 3
        4, // definition tag
        8, b'b', b'a', b's', b'e', // name "base"
        0, // version 0
        0, // no parent
        2, // one field
        2, b'x', 4, // field "x": integer
        4, // definition tag
        14, b'd', b'e', b'r', b'i', b'v', b'e', b'd', // name "derived"
        0, // version 0
        2, // parent: pool index 1
        2, // one field
        2, b'y', 4, // field "y": integer
        8, // node tag
        4, // definition index 2
        0x03, // mask: both fields
        20, // x = 10
        22, // y = 11
        14, // end of file
    ])
}

#[test]
fn inherited_field_lookup() {
    let walker = read(inherited_graph()).unwrap();
    assert_eq!(walker.name(), "derived");
    assert!(walker.is_or_inherited_from("base"));
    assert!(walker.is_or_inherited_from("derived"));
    assert!(!walker.is_or_inherited_from("other"));
    // Parent-first order: "x" is the first packed value, "y" the second.
    assert_eq!(walker.field_i32("x", None).unwrap(), 10);
    assert_eq!(walker.field_i32("y", None).unwrap(), 11);
}

/// A node holding a forward reference to a node that only appears later.
fn forward_reference_graph() -> Vec<u8> {
    with_magic(&[
        2, 6, // metadata, version 3
        4, // definition tag
        6, b'o', b'b', b'j', // name "obj"
        0, // version 0
        0, // no parent
        0, // no fields
        4, // definition tag
        12, b'h', b'o', b'l', b'd', b'e', b'r', // name "holder"
        0, // version 0
        0, // no parent
        2, // one field
        2, b'r', // field "r"
        16, 5, // kind: reference to cached name "obj"
        8, // node tag: the holder
        4, // definition index 2
        0x01, // mask: "r" set
        4, // forward reference index 2
        8, // node tag: the referenced "obj" node
        2, // definition index 1
        14, // end of file
    ])
}

#[test]
fn forward_reference_resolved() {
    let walker = read(forward_reference_graph()).unwrap();
    assert_eq!(walker.name(), "holder");
    let target = walker.field_node("r").unwrap();
    assert_eq!(target.name(), "obj");
}

#[test]
fn dangling_reference_rejected() {
    // As above, but the referenced node never appears.
    let bytes = with_magic(&[
        2, 6, //
        4, 6, b'o', b'b', b'j', 0, 0, 0, //
        4, 12, b'h', b'o', b'l', b'd', b'e', b'r', 0, 0, 2, 2, b'r', 16, 5, //
        8, 4, 0x01, 4, //
        14,
    ]);
    assert!(read(bytes).is_err());
}

#[test]
fn truncated_stream_rejected() {
    let mut bytes = simple_graph();
    bytes.truncate(bytes.len() - 2);
    assert!(read(bytes).is_err());
}

/// A vector of structs is stored flattened: one shared bitfield, then one
/// full column per set field, transposed into synthesized nodes.
fn vector_of_struct_graph() -> Vec<u8> {
    with_magic(&[
        2, 6, // metadata, version 3
        4, // definition tag
        8, b'i', b't', b'e', b'm', // name "item"
        0, // version 0
        0, // no parent
        4, // two fields
        2, b'a', 4, // field "a": integer
        2, b'b', 4, // field "b": integer
        4, // definition tag
        8, b'l', b'i', b's', b't', // name "list"
        0, // version 0
        0, // no parent
        2, // one field
        10, b'i', b't', b'e', b'm', b's', // field "items"
        50, 5, // kind: vector of struct "item" (cached name)
        8, // node tag
        4, // definition index 2
        0x01, // mask: "items" set
        4, // vector length 2
        0x03, // the shared item bitfield: both fields set
        8, 2, 4, // column "a": marker, then 1 and 2
        8, 6, 8, // column "b": marker, then 3 and 4
        14, // end of file
    ])
}

#[test]
fn vector_of_struct_flattening() {
    let walker = read(vector_of_struct_graph()).unwrap();
    assert_eq!(walker.name(), "list");
    let items = walker.field_node_vec("items").unwrap();
    assert_eq!(items.len(), 2);
    assert_eq!(items[0].name(), "item");
    assert_eq!(items[0].field_i32("a", None).unwrap(), 1);
    assert_eq!(items[0].field_i32("b", None).unwrap(), 3);
    assert_eq!(items[1].field_i32("a", None).unwrap(), 2);
    assert_eq!(items[1].field_i32("b", None).unwrap(), 4);
}

#[test]
fn float_array_effective_count() {
    // A vector of four-float arrays may store only three floats each; each
    // element carries its own leading count of 3 or 4.
    let mut bytes = with_magic(&[
        2, 6, // metadata, version 3
        4, // definition tag
        2, b'v', // name "v"
        0, // version 0
        0, // no parent
        2, // one field
        6, b'p', b't', b's', // field "pts"
        40, // kind: vector of Array(Float, 4)
        8, // node tag
        2, // definition index 1
        0x01, // mask: "pts" set
        2, // vector length 1
        6, // effective count 3
    ]);
    for v in [1.0f32, 2.0f32, 3.0f32] {
        bytes.extend_from_slice(&v.to_bits().to_le_bytes());
    }
    bytes.push(14); // end of file
    let walker = read(bytes).unwrap();
    let pts = walker.field_vec("pts", None).unwrap();
    assert_eq!(pts.len(), 1);
    match &pts[0] {
        Value::Vector(inner) => {
            assert_eq!(inner.len(), 3);
            assert!(matches!(inner[0], Value::F32(b) if b == 1.0f32.to_bits()));
            assert!(matches!(inner[2], Value::F32(b) if b == 3.0f32.to_bits()));
        }
        other => panic!("expected an inner vector, got {other:?}"),
    }
}

#[test]
fn string_field_value() {
    // A definition with a string field; the node's value re-reads from the
    // string pool.
    let bytes = with_magic(&[
        2, 6, // metadata, version 3
        4, // definition tag
        2, b's', // name "s"
        0, // version 0
        0, // no parent
        2, // one field
        8, b'n', b'a', b'm', b'e', // field "name"
        20, // kind: string
        8, // node tag
        2, // definition index 1
        0x01, // mask: "name" set
        2, b'k', // the value: a fresh one-byte string
        14, // end of file
    ]);
    let walker = read(bytes).unwrap();
    assert_eq!(walker.field_string("name", None).unwrap(), "k");
}

#[test]
fn float_array_effective_counts_per_element() {
    // Each element of a vector of four-float arrays carries its own 3-or-4
    // count: here a three-float element followed by a four-float one.
    let mut bytes = with_magic(&[
        2, 6, // metadata, version 3
        4, // definition tag
        2, b'v', // name "v"
        0, // version 0
        0, // no parent
        2, // one field
        6, b'p', b't', b's', // field "pts"
        40, // kind: vector of Array(Float, 4)
        8, // node tag
        2, // definition index 1
        0x01, // mask: "pts" set
        4, // vector length 2
    ]);
    bytes.push(6); // first element: effective count 3
    for v in [1.0f32, 2.0f32, 3.0f32] {
        bytes.extend_from_slice(&v.to_bits().to_le_bytes());
    }
    bytes.push(8); // second element: effective count 4
    for v in [4.0f32, 5.0f32, 6.0f32, 7.0f32] {
        bytes.extend_from_slice(&v.to_bits().to_le_bytes());
    }
    bytes.push(14); // end of file
    let walker = read(bytes).unwrap();
    let pts = walker.field_vec("pts", None).unwrap();
    assert_eq!(pts.len(), 2);
    match (&pts[0], &pts[1]) {
        (Value::Vector(a), Value::Vector(b)) => {
            assert_eq!(a.len(), 3);
            assert_eq!(b.len(), 4);
            assert!(matches!(b[3], Value::F32(x) if x == 7.0f32.to_bits()));
        }
        other => panic!("expected two inner vectors, got {other:?}"),
    }
}

