use epserde::align::pad_align_to;
use epserde::deser::deserialize_full;
use epserde::eps::{deserialize_eps, EpsView};
use epserde::fingerprint::fingerprint;
use epserde::names::ty_name;
use epserde::prim::{Prim, PrimKind};
use epserde::ser::serialize;
use epserde::types::{Classification, Field, TypeDesc};
use epserde::value::Value;

/// The padding is the least that reaches a multiple of the alignment.
#[test]
fn padding_reaches_the_next_boundary() {
    assert_eq!(pad_align_to(0, 8), 0);
    assert_eq!(pad_align_to(1, 8), 7);
    assert_eq!(pad_align_to(8, 8), 0);
    assert_eq!(pad_align_to(13, 4), 3);
    assert_eq!(pad_align_to(15, 16), 1);
    assert_eq!(pad_align_to(usize::MAX, 1), 0);
    for pos in 0..64usize {
        for align in [1usize, 2, 4, 8, 16] {
            let pad = pad_align_to(pos, align);
            assert_eq!((pos + pad) % align, 0);
            assert!(pad < align);
        }
    }
}

/// Two fields that are aligned to eight bytes, after one byte: padding
/// stands before the first of them only.
#[test]
fn padding_stands_before_each_misaligned_field() {
    let ty = TypeDesc::record(
        "Triple",
        false,
        vec![
            Field::new("a", TypeDesc::prim(PrimKind::U8)),
            Field::new("b", TypeDesc::prim(PrimKind::U64)),
            Field::new("c", TypeDesc::prim(PrimKind::U64)),
        ],
    )
    .unwrap();
    let v = Value::Record(vec![
        Value::Prim(Prim::U8(1)),
        Value::Prim(Prim::U64(2)),
        Value::Prim(Prim::U64(3)),
    ]);
    let (count, bytes) = serialize(&ty, &v, Vec::new()).unwrap();
    assert_eq!(count, 1 + 7 + 8 + 8);
    assert_eq!(
        bytes,
        vec![1, 0, 0, 0, 0, 0, 0, 0, 2, 0, 0, 0, 0, 0, 0, 0, 3, 0, 0, 0, 0, 0, 0, 0]
    );
    assert_eq!(deserialize_full(&ty, fingerprint(&ty), &bytes).unwrap(), v);
}

/// A zero-copy record is written as its image in memory: with the gaps
/// between its fields and after the last one.
#[test]
fn zero_copy_record_is_written_as_its_image() {
    let ty = TypeDesc::record(
        "Wide",
        true,
        vec![
            Field::new("a", TypeDesc::prim(PrimKind::U8)),
            Field::new("b", TypeDesc::prim(PrimKind::U32)),
            Field::new("c", TypeDesc::prim(PrimKind::U8)),
        ],
    )
    .unwrap();
    assert_eq!(ty.classification(), Classification::Zero);
    assert_eq!(ty.size_of(), 12);
    assert_eq!(ty.align_of(), 4);
    let v = Value::Record(vec![
        Value::Prim(Prim::U8(7)),
        Value::Prim(Prim::U32(0x0a0b_0c0d)),
        Value::Prim(Prim::U8(9)),
    ]);
    let (_, alone) = serialize(&ty, &v, Vec::new()).unwrap();
    assert_eq!(alone, vec![7, 0, 0, 0, 0x0d, 0x0c, 0x0b, 0x0a, 9, 0, 0, 0]);
    assert_eq!(deserialize_full(&ty, fingerprint(&ty), &alone).unwrap(), v);
    // the positions of a stream count from where the stream begins
    let (_, bytes) = serialize(&ty, &v, vec![0xee]).unwrap();
    assert_eq!(bytes, vec![0xee, 7, 0, 0, 0, 0x0d, 0x0c, 0x0b, 0x0a, 9, 0, 0, 0]);
    // inside a record the image stands at a multiple of its alignment
    let outer = TypeDesc::record(
        "Outer",
        false,
        vec![Field::new("tag", TypeDesc::prim(PrimKind::U8)), Field::new("wide", ty)],
    )
    .unwrap();
    let both = Value::Record(vec![Value::Prim(Prim::U8(0xee)), v]);
    let (_, bytes) = serialize(&outer, &both, Vec::new()).unwrap();
    assert_eq!(bytes, vec![0xee, 0, 0, 0, 7, 0, 0, 0, 0x0d, 0x0c, 0x0b, 0x0a, 9, 0, 0, 0]);
    assert_eq!(deserialize_full(&outer, fingerprint(&outer), &bytes).unwrap(), both);
}

/// The view of a zero-copy value lies within the buffer at an aligned
/// address.
#[test]
fn zero_copy_view_is_aligned_and_within_the_buffer() {
    let ty = TypeDesc::array(TypeDesc::prim(PrimKind::U64), 3).unwrap();
    let v = Value::Array(vec![
        Value::Prim(Prim::U64(1)),
        Value::Prim(Prim::U64(2)),
        Value::Prim(Prim::U64(3)),
    ]);
    let (_, bytes) = serialize(&ty, &v, Vec::new()).unwrap();
    let addr = 0x1000usize;
    match deserialize_eps(&ty, fingerprint(&ty), &bytes, addr).unwrap() {
        EpsView::Ref { offset, len } => {
            assert_eq!(len, 24);
            assert!(offset + len <= bytes.len());
            assert_eq!((addr + offset) % 8, 0);
        }
        other => panic!("a reference was expected, not {:?}", other),
    }
}

/// The classification follows from the structure of the type.
#[test]
fn classification_of_types() {
    let u = TypeDesc::prim(PrimKind::U32);
    assert_eq!(u.classification(), Classification::Zero);
    assert_eq!(TypeDesc::unit().classification(), Classification::Zero);
    assert_eq!(TypeDesc::phantom(TypeDesc::text()).classification(), Classification::Zero);
    assert_eq!(TypeDesc::text().classification(), Classification::Deep);
    assert_eq!(
        TypeDesc::optional(TypeDesc::prim(PrimKind::U8)).classification(),
        Classification::Shell
    );
    assert_eq!(
        TypeDesc::sequence(TypeDesc::prim(PrimKind::U8)).classification(),
        Classification::Shell
    );
    assert_eq!(
        TypeDesc::array(TypeDesc::prim(PrimKind::U8), 4).unwrap().classification(),
        Classification::Zero
    );
    assert_eq!(
        TypeDesc::array(TypeDesc::text(), 4).unwrap().classification(),
        Classification::Deep
    );
    let declared = TypeDesc::record(
        "Fake",
        true,
        vec![Field::new("data", TypeDesc::sequence(TypeDesc::prim(PrimKind::Usize)))],
    )
    .unwrap();
    assert_eq!(declared.classification(), Classification::Shell);
    assert!(!declared.is_zero_copy());
    let deep = TypeDesc::record("Names", false, vec![Field::new("n", TypeDesc::text())]).unwrap();
    assert_eq!(deep.classification(), Classification::Deep);
    let plain = TypeDesc::record("Plain", false, vec![Field::new("n", u)]).unwrap();
    assert_eq!(plain.classification(), Classification::Shell);
}

/// An array that the machine cannot address has no description.
#[test]
fn oversized_types_are_refused() {
    assert!(TypeDesc::array(TypeDesc::prim(PrimKind::U64), usize::MAX).is_none());
    assert!(TypeDesc::array(TypeDesc::text(), usize::MAX).is_some());
    let big = TypeDesc::array(TypeDesc::prim(PrimKind::U8), usize::MAX - 2).unwrap();
    let record = TypeDesc::record(
        "TooBig",
        true,
        vec![Field::new("a", big), Field::new("b", TypeDesc::prim(PrimKind::U64))],
    );
    assert!(record.is_none());
}

/// The names of types.
#[test]
fn names_of_types() {
    let ty = TypeDesc::array(TypeDesc::sequence(TypeDesc::prim(PrimKind::I32)), 3).unwrap();
    assert_eq!(ty_name(&ty), "[Vec<i32>; 3]");
    let ty = TypeDesc::optional(TypeDesc::phantom(TypeDesc::unit()));
    assert_eq!(ty_name(&ty), "Option<PhantomData<()>>");
    assert_eq!(ty_name(&TypeDesc::text()), "String");
    assert_eq!(ty_name(&TypeDesc::prim(PrimKind::F64)), "f64");
    let ty = TypeDesc::record("Data<usize>", false, Vec::new()).unwrap();
    assert_eq!(ty_name(&ty), "Data<usize>");
}

/// A value belongs to a type only if it has the type's structure.
#[test]
fn conformance_of_values() {
    let ty = TypeDesc::array(TypeDesc::prim(PrimKind::U8), 2).unwrap();
    let good = Value::Array(vec![Value::Prim(Prim::U8(1)), Value::Prim(Prim::U8(2))]);
    let short = Value::Array(vec![Value::Prim(Prim::U8(1))]);
    let wrong = Value::Array(vec![Value::Prim(Prim::U8(1)), Value::Prim(Prim::I8(2))]);
    assert!(good.conforms_to(&ty));
    assert!(!short.conforms_to(&ty));
    assert!(!wrong.conforms_to(&ty));
    assert!(!Value::Unit.conforms_to(&ty));
    assert!(Value::Text(String::new()).conforms_to(&TypeDesc::text()));
}

/// A description that a constructor made is sound; one whose parts were
/// changed by hand is not.
#[test]
fn soundness_of_descriptions() {
    let ty = TypeDesc::record(
        "Pair",
        true,
        vec![
            Field::new("a", TypeDesc::prim(PrimKind::U8)),
            Field::new("b", TypeDesc::array(TypeDesc::prim(PrimKind::U16), 3).unwrap()),
        ],
    )
    .unwrap();
    assert!(ty.is_well_formed());
    assert_eq!(ty.size_of(), 8);
    assert_eq!(ty.align_of(), 2);
    let mut wrong = TypeDesc::prim(PrimKind::U32);
    assert!(wrong.is_well_formed());
    wrong.size = 2;
    assert!(!wrong.is_well_formed());
    let mut wrong = TypeDesc::sequence(TypeDesc::prim(PrimKind::U32));
    wrong.class = Classification::Zero;
    assert!(!wrong.is_well_formed());
    let mut inner = TypeDesc::prim(PrimKind::U64);
    inner.align = 4;
    let outer = TypeDesc { node: epserde::types::TypeNode::Optional(Box::new(inner)), class: Classification::Shell, size: 0, align: 1 };
    assert!(!outer.is_well_formed());
    assert!(TypeDesc::optional(TypeDesc::unit()).is_well_formed());
    assert!(TypeDesc::phantom(TypeDesc::text()).is_well_formed());
}
