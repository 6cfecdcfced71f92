use epserde::deser::deserialize_full;
use epserde::eps::{deserialize_eps, EpsView};
use epserde::error::Error;
use epserde::fingerprint::fingerprint;
use epserde::prim::{Prim, PrimKind};
use epserde::ser::serialize;
use epserde::types::{Field, TypeDesc};
use epserde::value::Value;
use epserde::writer::{BoundedWriter, WriteNoStd};

/// A tag of 2 is refused in both modes; 0 and 1 are read.
#[test]
fn tag_outside_zero_and_one_is_invalid() {
    let ty = TypeDesc::optional(TypeDesc::prim(PrimKind::U8));
    let fp = fingerprint(&ty);
    assert_eq!(deserialize_full(&ty, fp, &[2u8]), Err(Error::InvalidTag(2)));
    assert!(matches!(deserialize_eps(&ty, fp, &[2u8], 0), Err(Error::InvalidTag(2))));
    assert_eq!(deserialize_full(&ty, fp, &[0u8]), Ok(Value::Optional(None)));
    assert_eq!(
        deserialize_full(&ty, fp, &[1u8, 7]),
        Ok(Value::Optional(Some(Box::new(Value::Prim(Prim::U8(7))))))
    );
    assert!(matches!(deserialize_eps(&ty, fp, &[0u8], 0), Ok(EpsView::Optional(None))));
    let view = deserialize_eps(&ty, fp, &[1u8, 7], 0).unwrap();
    assert_eq!(
        view.resolve(&ty, &[1u8, 7]),
        Ok(Value::Optional(Some(Box::new(Value::Prim(Prim::U8(7))))))
    );
    assert_eq!(deserialize_full(&ty, fp, &[255u8, 0]), Err(Error::InvalidTag(255)));
}

/// A stream is not read as a type with another fingerprint.
#[test]
fn fingerprint_of_another_type_is_refused() {
    let old = TypeDesc::record("Data", false, vec![Field::new("a", TypeDesc::prim(PrimKind::I32))])
        .unwrap();
    let new = TypeDesc::record("Data", false, vec![Field::new("a", TypeDesc::prim(PrimKind::I64))])
        .unwrap();
    assert_ne!(fingerprint(&old), fingerprint(&new));
    let v = Value::Record(vec![Value::Prim(Prim::I64(5))]);
    let (_, bytes) = serialize(&new, &v, Vec::new()).unwrap();
    let expected = Error::FingerprintMismatch {
        expected: fingerprint(&old),
        found: fingerprint(&new),
    };
    assert_eq!(deserialize_full(&old, fingerprint(&new), &bytes), Err(expected));
    match deserialize_eps(&old, fingerprint(&new), &bytes, 0) {
        Err(e) => assert_eq!(e, expected),
        Ok(view) => panic!("no view was expected, but {:?}", view),
    }
    assert_eq!(deserialize_full(&new, fingerprint(&new), &bytes), Ok(v));
}

/// The fingerprint is the hash of the names, each with a byte that ends
/// it.
#[test]
fn fingerprint_has_documented_values() {
    assert_eq!(fingerprint(&TypeDesc::unit()), 0x09ee_5f17_f6c0_6a5f);
    assert_eq!(
        fingerprint(&TypeDesc::sequence(TypeDesc::prim(PrimKind::I32))),
        0x5638_bd52_15b4_90fd
    );
    let point = TypeDesc::record(
        "Point",
        true,
        vec![
            Field::new("x", TypeDesc::prim(PrimKind::Usize)),
            Field::new("y", TypeDesc::prim(PrimKind::Usize)),
        ],
    )
    .unwrap();
    assert_eq!(fingerprint(&point), 0xe883_36a7_4fd7_d303);
    let renamed = TypeDesc::record(
        "Point",
        true,
        vec![
            Field::new("x", TypeDesc::prim(PrimKind::Usize)),
            Field::new("z", TypeDesc::prim(PrimKind::Usize)),
        ],
    )
    .unwrap();
    assert_ne!(fingerprint(&point), fingerprint(&renamed));
    let shorter = TypeDesc::array(TypeDesc::prim(PrimKind::U8), 3).unwrap();
    let longer = TypeDesc::array(TypeDesc::prim(PrimKind::U8), 4).unwrap();
    assert_ne!(fingerprint(&shorter), fingerprint(&longer));
}

/// A buffer that ends before the value does.
#[test]
fn short_buffer_is_an_unexpected_end() {
    let ty = TypeDesc::prim(PrimKind::U32);
    let fp = fingerprint(&ty);
    assert_eq!(deserialize_full(&ty, fp, &[1u8, 2]), Err(Error::UnexpectedEnd));
    assert!(matches!(deserialize_eps(&ty, fp, &[1u8, 2], 0), Err(Error::UnexpectedEnd)));
    let ty = TypeDesc::sequence(TypeDesc::prim(PrimKind::U32));
    let fp = fingerprint(&ty);
    let bytes = vec![3u8, 0, 0, 0, 0, 0, 0, 0, 1, 0, 0, 0, 2, 0, 0, 0];
    assert_eq!(deserialize_full(&ty, fp, &bytes), Err(Error::UnexpectedEnd));
    assert!(matches!(deserialize_eps(&ty, fp, &bytes, 0), Err(Error::UnexpectedEnd)));
    let huge = vec![0xffu8; 8];
    assert_eq!(deserialize_full(&ty, fp, &huge), Err(Error::UnexpectedEnd));
    let ty = TypeDesc::optional(TypeDesc::unit());
    assert_eq!(deserialize_full(&ty, fingerprint(&ty), &[]), Err(Error::UnexpectedEnd));
    let ty = TypeDesc::text();
    let bytes = vec![2u8, 0, 0, 0, 0, 0, 0, 0, b'a'];
    assert_eq!(deserialize_full(&ty, fingerprint(&ty), &bytes), Err(Error::UnexpectedEnd));
}

/// A buffer at an address that is no multiple of the alignment cannot be
/// referred to in place.
#[test]
fn misaligned_buffer_is_an_alignment_error() {
    let ty = TypeDesc::prim(PrimKind::U64);
    let fp = fingerprint(&ty);
    let bytes = vec![1u8, 0, 0, 0, 0, 0, 0, 0];
    assert!(matches!(deserialize_eps(&ty, fp, &bytes, 4), Err(Error::AlignmentError)));
    assert!(matches!(
        deserialize_eps(&ty, fp, &bytes, 8),
        Ok(EpsView::Ref { offset: 0, len: 8 })
    ));
    assert_eq!(deserialize_full(&ty, fp, &bytes), Ok(Value::Prim(Prim::U64(1))));
    let ty = TypeDesc::sequence(TypeDesc::prim(PrimKind::U8));
    let fp = fingerprint(&ty);
    let bytes = vec![1u8, 0, 0, 0, 0, 0, 0, 0, 9];
    assert!(matches!(deserialize_eps(&ty, fp, &bytes, 2), Err(Error::AlignmentError)));
    let ty = TypeDesc::text();
    let bytes = vec![1u8, 0, 0, 0, 0, 0, 0, 0, b'a'];
    assert!(matches!(
        deserialize_eps(&ty, fingerprint(&ty), &bytes, 3),
        Ok(EpsView::Owned(Value::Text(_)))
    ));
}

/// Bytes that are no image of a value.
#[test]
fn bytes_that_are_no_value_are_invalid() {
    let ty = TypeDesc::prim(PrimKind::Char);
    let fp = fingerprint(&ty);
    let surrogate = 0xD800u32.to_le_bytes();
    assert_eq!(deserialize_full(&ty, fp, &surrogate), Err(Error::InvalidValue));
    let beyond = 0x11_0000u32.to_le_bytes();
    assert_eq!(deserialize_full(&ty, fp, &beyond), Err(Error::InvalidValue));
    let view = deserialize_eps(&ty, fp, &beyond, 0).unwrap();
    assert_eq!(view.resolve(&ty, &beyond), Err(Error::InvalidValue));
    let letter = 0xe9u32.to_le_bytes();
    assert_eq!(deserialize_full(&ty, fp, &letter), Ok(Value::Prim(Prim::Char('\u{e9}'))));
    let ty = TypeDesc::text();
    let bytes = vec![1u8, 0, 0, 0, 0, 0, 0, 0, 0xff];
    assert_eq!(deserialize_full(&ty, fingerprint(&ty), &bytes), Err(Error::InvalidValue));
    let bytes = vec![2u8, 0, 0, 0, 0, 0, 0, 0, 0xc3, 0xa9];
    assert_eq!(
        deserialize_full(&ty, fingerprint(&ty), &bytes),
        Ok(Value::Text(String::from("\u{e9}")))
    );
    let ty = TypeDesc::prim(PrimKind::Bool);
    assert_eq!(
        deserialize_full(&ty, fingerprint(&ty), &[5u8]),
        Ok(Value::Prim(Prim::Bool(true)))
    );
}

/// A view that does not fit the type or the buffer stands for no value.
#[test]
fn view_of_another_buffer_is_refused() {
    let ty = TypeDesc::prim(PrimKind::U32);
    let view = EpsView::Ref { offset: 4, len: 4 };
    assert_eq!(view.resolve(&ty, &[0u8; 6]), Err(Error::UnexpectedEnd));
    assert_eq!(view.resolve(&ty, &[1u8; 8]), Ok(Value::Prim(Prim::U32(0x0101_0101))));
    let view = EpsView::Ref { offset: 0, len: 2 };
    assert_eq!(view.resolve(&ty, &[0u8; 6]), Err(Error::InvalidValue));
    let view = EpsView::Slice { offset: 0, count: 1 };
    assert_eq!(view.resolve(&ty, &[0u8; 6]), Err(Error::InvalidValue));
    let view = EpsView::Items(Vec::new());
    assert_eq!(view.resolve(&ty, &[0u8; 6]), Err(Error::InvalidValue));
    let seq = TypeDesc::sequence(TypeDesc::prim(PrimKind::U32));
    let view = EpsView::Slice { offset: 0, count: usize::MAX };
    assert_eq!(view.resolve(&seq, &[0u8; 6]), Err(Error::UnexpectedEnd));
}

/// A sink that is full fails, and takes nothing of what does not fit.
#[test]
fn full_sink_is_an_io_error() {
    let ty = TypeDesc::prim(PrimKind::U64);
    let v = Value::Prim(Prim::U64(1));
    assert!(matches!(serialize(&ty, &v, BoundedWriter::new(3)), Err(Error::IoError)));
    let (count, sink) = serialize(&ty, &v, BoundedWriter::new(8)).unwrap();
    assert_eq!(count, 8);
    assert_eq!(sink.as_bytes(), &[1u8, 0, 0, 0, 0, 0, 0, 0]);
    let mut sink = BoundedWriter::new(2);
    assert_eq!(sink.write(&[1, 2, 3]), Err(Error::IoError));
    assert_eq!(sink.write(&[1, 2]), Ok(2));
    assert_eq!(sink.write(&[3]), Err(Error::IoError));
    assert_eq!(sink.flush(), Ok(()));
    assert_eq!(sink.into_bytes(), vec![1, 2]);
}
