use epserde::deser::deserialize_full;
use epserde::eps::{deserialize_eps, EpsView};
use epserde::fingerprint::fingerprint;
use epserde::prim::{Prim, PrimKind};
use epserde::ser::serialize;
use epserde::types::{Field, TypeDesc};
use epserde::value::Value;
use epserde::writer::BoundedWriter;

/// A marker is written as no bytes and read back in both modes.
#[test]
fn test_phantom() {
    let ty = TypeDesc::phantom(TypeDesc::prim(PrimKind::Usize));
    let obj = Value::Phantom;
    assert!(obj.conforms_to(&ty));
    let cursor = BoundedWriter::new(1024 * 16);

    let (_bytes_written, cursor) = serialize(&ty, &obj, cursor).unwrap();

    let bytes = cursor.into_bytes();
    let full = deserialize_full(&ty, fingerprint(&ty), &bytes).unwrap();
    assert_eq!(obj, full);

    println!();

    let eps = deserialize_eps(&ty, fingerprint(&ty), &bytes, 0).unwrap();
    assert_eq!(obj, eps.resolve(&ty, &bytes).unwrap());
}

/// A marker for a type that has no fields of its own is written as no bytes
/// inside a record.
#[test]
fn test_not_serializable_in_phantom() {
    let not_serializable = TypeDesc::record("NotSerializable", false, Vec::new()).unwrap();
    let ty = TypeDesc::record(
        "Data",
        false,
        vec![Field::new("a", TypeDesc::phantom(not_serializable))],
    )
    .unwrap();
    let obj = Value::Record(vec![Value::Phantom]);
    assert!(obj.conforms_to(&ty));
    let cursor = BoundedWriter::new(1024 * 16);

    let (_bytes_written, cursor) = serialize(&ty, &obj, cursor).unwrap();

    let bytes = cursor.into_bytes();
    let full = deserialize_full(&ty, fingerprint(&ty), &bytes).unwrap();
    assert_eq!(obj, full);

    println!();

    let eps = deserialize_eps(&ty, fingerprint(&ty), &bytes, 0).unwrap();
    let resolved = eps.resolve(&ty, &bytes).unwrap();
    match (&obj, &resolved) {
        (Value::Record(want), Value::Record(got)) => assert_eq!(want[0], got[0]),
        _ => panic!("a record was expected"),
    }
}

fn i32_values(items: &[i32]) -> Vec<Value> {
    items.iter().map(|x| Value::Prim(Prim::I32(*x))).collect()
}

/// A sequence of 32-bit integers is read back in both modes.
#[test]
fn test_cheaty_serialize() {
    let a = vec![1, 2, 3, 4];
    let s = Value::Sequence(i32_values(a.as_slice()));
    let ty = TypeDesc::sequence(TypeDesc::prim(PrimKind::I32));
    assert!(s.conforms_to(&ty));
    let cursor = BoundedWriter::new(1024 * 16);

    let (_, cursor) = serialize(&ty, &s, cursor).unwrap();
    let backend = cursor.into_bytes();
    let b = deserialize_full(&ty, fingerprint(&ty), &backend).unwrap();
    assert_eq!(Value::Sequence(i32_values(&a)), b);
    let b = deserialize_eps(&ty, fingerprint(&ty), &backend, 0).unwrap();
    assert_eq!(Value::Sequence(i32_values(&a)), b.resolve(&ty, &backend).unwrap());
}

/// The stream of `[1, 2, 3, 4]` is a length of eight bytes and sixteen bytes
/// of elements, and the view refers to the elements as one block.
#[test]
fn sequence_of_four_integers_has_the_documented_bytes() {
    let ty = TypeDesc::sequence(TypeDesc::prim(PrimKind::I32));
    let v = Value::Sequence(i32_values(&[1, 2, 3, 4]));
    let (count, bytes) = serialize(&ty, &v, Vec::new()).unwrap();
    assert_eq!(count, 24);
    assert_eq!(
        bytes,
        vec![4, 0, 0, 0, 0, 0, 0, 0, 1, 0, 0, 0, 2, 0, 0, 0, 3, 0, 0, 0, 4, 0, 0, 0]
    );
    let view = deserialize_eps(&ty, fingerprint(&ty), &bytes, 4096).unwrap();
    match view {
        EpsView::Slice { offset, count } => {
            assert_eq!(offset, 8);
            assert_eq!(count, 4);
            assert_eq!(&bytes[offset..offset + count * 4], &bytes[8..24]);
        }
        other => panic!("a slice view was expected, not {:?}", other),
    }
    let view = deserialize_eps(&ty, fingerprint(&ty), &bytes, 4096).unwrap();
    assert_eq!(view.resolve(&ty, &bytes).unwrap(), v);
}

fn point_type() -> TypeDesc {
    TypeDesc::record(
        "Point",
        true,
        vec![
            Field::new("x", TypeDesc::prim(PrimKind::Usize)),
            Field::new("y", TypeDesc::prim(PrimKind::Usize)),
        ],
    )
    .unwrap()
}

fn point(x: usize, y: usize) -> Value {
    Value::Record(vec![Value::Prim(Prim::Usize(x)), Value::Prim(Prim::Usize(y))])
}

/// A record with a sequence of zero-copy records and a signed integer.
#[test]
fn nested_record_round_trips_in_both_modes() {
    let ty = TypeDesc::record(
        "Object",
        false,
        vec![
            Field::new("a", TypeDesc::sequence(point_type())),
            Field::new("test", TypeDesc::prim(PrimKind::Isize)),
            Field::new("name", TypeDesc::text()),
            Field::new("flag", TypeDesc::optional(TypeDesc::prim(PrimKind::Bool))),
            Field::new("pair", TypeDesc::array(TypeDesc::prim(PrimKind::Char), 2).unwrap()),
            Field::new("unit", TypeDesc::unit()),
        ],
    )
    .unwrap();
    let v = Value::Record(vec![
        Value::Sequence(vec![point(2, 1), point(2, 1), point(7, 9)]),
        Value::Prim(Prim::Isize(-0xbadf00d)),
        Value::Text(String::from("h\u{e9}llo")),
        Value::Optional(Some(Box::new(Value::Prim(Prim::Bool(true))))),
        Value::Array(vec![Value::Prim(Prim::Char('a')), Value::Prim(Prim::Char('\u{1F600}'))]),
        Value::Unit,
    ]);
    assert!(v.conforms_to(&ty));
    let (count, bytes) = serialize(&ty, &v, Vec::new()).unwrap();
    assert_eq!(count, bytes.len());
    // length 8, three points of 16 bytes, isize 8, text length 8 and 6
    // bytes, tag and boolean, two characters
    assert_eq!(count, 8 + 48 + 8 + 8 + 6 + 2 + 8);
    let full = deserialize_full(&ty, fingerprint(&ty), &bytes).unwrap();
    assert_eq!(full, v);
    let view = deserialize_eps(&ty, fingerprint(&ty), &bytes, 0x7f00_0000_0010).unwrap();
    match &view {
        EpsView::Record(fields) => {
            assert_eq!(fields.len(), 6);
            assert!(matches!(fields[0], EpsView::Slice { offset: 8, count: 3 }));
            assert!(matches!(fields[1], EpsView::Ref { offset: 56, len: 8 }));
            assert!(matches!(fields[2], EpsView::Owned(Value::Text(_))));
            assert!(matches!(fields[3], EpsView::Optional(Some(_))));
            assert!(matches!(fields[4], EpsView::Ref { offset: 80, len: 8 }));
            assert!(matches!(fields[5], EpsView::Ref { offset: 88, len: 0 }));
        }
        other => panic!("a record view was expected, not {:?}", other),
    }
    assert_eq!(view.resolve(&ty, &bytes).unwrap(), v);
}

/// Every kind of primitive is read back, at its smallest and largest.
#[test]
fn primitives_round_trip() {
    let cases = vec![
        Prim::U8(0xfe),
        Prim::U16(0xfffe),
        Prim::U32(0xffff_fffe),
        Prim::U64(u64::MAX),
        Prim::U128(u128::MAX),
        Prim::Usize(usize::MAX),
        Prim::I8(i8::MIN),
        Prim::I8(-1),
        Prim::I16(i16::MIN),
        Prim::I32(-2),
        Prim::I64(i64::MIN),
        Prim::I64(i64::MAX),
        Prim::I128(i128::MIN),
        Prim::I128(-1),
        Prim::I128(i128::MAX),
        Prim::Isize(isize::MIN),
        Prim::F32(1.5f32.to_bits()),
        Prim::F64((-0.25f64).to_bits()),
        Prim::Bool(false),
        Prim::Bool(true),
        Prim::Char('\u{10FFFF}'),
    ];
    for p in cases {
        let ty = TypeDesc::prim(p.kind());
        let v = Value::Prim(p);
        let (count, bytes) = serialize(&ty, &v, Vec::new()).unwrap();
        assert_eq!(count, p.kind().size());
        assert_eq!(deserialize_full(&ty, fingerprint(&ty), &bytes).unwrap(), v);
        let view = deserialize_eps(&ty, fingerprint(&ty), &bytes, 0).unwrap();
        assert_eq!(view.resolve(&ty, &bytes).unwrap(), v);
    }
}

/// The bytes of numbers stand lowest first; a negative number stands in
/// two's complement.
#[test]
fn numbers_are_written_lowest_byte_first() {
    let ty = TypeDesc::prim(PrimKind::U32);
    let (_, bytes) = serialize(&ty, &Value::Prim(Prim::U32(0x0102_0304)), Vec::new()).unwrap();
    assert_eq!(bytes, vec![4, 3, 2, 1]);
    let ty = TypeDesc::prim(PrimKind::I16);
    let (_, bytes) = serialize(&ty, &Value::Prim(Prim::I16(-2)), Vec::new()).unwrap();
    assert_eq!(bytes, vec![0xfe, 0xff]);
    let ty = TypeDesc::prim(PrimKind::F32);
    let (_, bytes) = serialize(&ty, &Value::Prim(Prim::F32(1.0f32.to_bits())), Vec::new()).unwrap();
    assert_eq!(bytes, 1.0f32.to_le_bytes().to_vec());
    let ty = TypeDesc::prim(PrimKind::Char);
    let (_, bytes) = serialize(&ty, &Value::Prim(Prim::Char('A')), Vec::new()).unwrap();
    assert_eq!(bytes, vec![65, 0, 0, 0]);
}

/// A sequence whose elements are not zero-copy is written element by
/// element, and its view holds a view of each element.
#[test]
fn sequence_of_texts_is_read_element_by_element() {
    let ty = TypeDesc::sequence(TypeDesc::optional(TypeDesc::prim(PrimKind::U16)));
    let v = Value::Sequence(vec![
        Value::Optional(None),
        Value::Optional(Some(Box::new(Value::Prim(Prim::U16(0x0102))))),
    ]);
    let (_, bytes) = serialize(&ty, &v, Vec::new()).unwrap();
    assert_eq!(bytes, vec![2, 0, 0, 0, 0, 0, 0, 0, 0, 1, 2, 1]);
    let view = deserialize_eps(&ty, fingerprint(&ty), &bytes, 0).unwrap();
    match &view {
        EpsView::Items(items) => {
            assert_eq!(items.len(), 2);
            assert!(matches!(items[0], EpsView::Optional(None)));
        }
        other => panic!("views of the elements were expected, not {:?}", other),
    }
    assert_eq!(view.resolve(&ty, &bytes).unwrap(), v);
    assert_eq!(deserialize_full(&ty, fingerprint(&ty), &bytes).unwrap(), v);
}

/// The stream is written after what the sink holds already.
#[test]
fn serialize_appends_to_the_sink() {
    let ty = TypeDesc::prim(PrimKind::U16);
    let (count, bytes) = serialize(&ty, &Value::Prim(Prim::U16(1)), vec![9u8, 9, 9]).unwrap();
    assert_eq!(count, 2);
    assert_eq!(bytes, vec![9, 9, 9, 1, 0]);
}

/// A copy of a value is the same as the value.
#[test]
fn deep_copy_is_the_same_value() {
    let v = Value::Record(vec![
        Value::Text(String::from("x")),
        Value::Sequence(vec![Value::Unit, Value::Phantom]),
    ]);
    assert!(v.deep_copy().same_as(&v));
    assert!(!v.same_as(&Value::Record(vec![Value::Text(String::from("y"))])));
}
