use epserde::prim::{Prim, PrimKind};
use epserde::schema::{Schema, SchemaRow, SchemaWriter};
use epserde::ser::{serialize, serialize_with_schema};
use epserde::types::{Field, TypeDesc};
use epserde::value::Value;
use epserde::writer::{FieldWrite, WriteNoStd, WriteWithPos};

fn row(field: &str, ty: &str, offset: usize, size: usize, align: usize) -> SchemaRow {
    SchemaRow { field: field.to_string(), ty: ty.to_string(), offset, size, align }
}

/// The table without bytes.
#[test]
fn csv_lists_the_rows_in_order() {
    let schema = Schema(vec![row("a", "u8", 0, 1, 1), row("b.c", "Vec<u64>", 8, 120, 8)]);
    assert_eq!(schema.to_csv(), "field,offset,align,size,ty\na,0,1,1,u8\nb.c,8,8,120,Vec<u64>\n");
    assert_eq!(Schema::default().to_csv(), "field,offset,align,size,ty\n");
    let large = Schema(vec![row("x", "t", usize::MAX, 0, 10)]);
    assert_eq!(
        large.to_csv(),
        format!("field,offset,align,size,ty\nx,{},10,0,t\n", usize::MAX)
    );
}

/// The table with bytes: a row whose successor starts at the same offset
/// shows none.
#[test]
fn debug_shows_the_bytes_of_leaves() {
    let schema = Schema(vec![
        row("root", "Pair", 0, 4, 2),
        row("root.a", "u16", 0, 2, 2),
        row("root.b", "u16", 2, 2, 2),
        row("root.c", "()", 4, 0, 1),
    ]);
    let data = [0x01u8, 0xab, 0x00, 0xff];
    assert_eq!(
        schema.debug(&data),
        "field,offset,align,size,ty,bytes\n\
         root,0,2,4,Pair,\n\
         root.a,0,2,2,u16,[01, ab]\n\
         root.b,2,2,2,u16,[00, ff]\n\
         root.c,4,1,0,(),[]\n"
    );
    assert_eq!(Schema::default().debug(&data), "field,offset,align,size,ty,bytes\n");
}

/// The schema of a sequence of integers.
#[test]
fn schema_of_a_sequence() {
    let ty = TypeDesc::sequence(TypeDesc::prim(PrimKind::I32));
    let v = Value::Sequence(
        [1, 2, 3, 4].iter().map(|x| Value::Prim(Prim::I32(*x))).collect(),
    );
    let (schema, bytes) = serialize_with_schema(&ty, &v, Vec::new()).unwrap();
    let (_, plain) = serialize(&ty, &v, Vec::new()).unwrap();
    assert_eq!(bytes, plain);
    assert_eq!(
        schema.to_csv(),
        "field,offset,align,size,ty\n\
         ROOT,0,1,24,Vec<i32>\n\
         ROOT.len,0,8,8,usize\n\
         ROOT.len.data,0,8,8,usize\n\
         ROOT.data,8,4,16,i32\n"
    );
    assert_eq!(
        schema.debug(&bytes),
        "field,offset,align,size,ty,bytes\n\
         ROOT,0,1,24,Vec<i32>,\n\
         ROOT.len,0,8,8,usize,\n\
         ROOT.len.data,0,8,8,usize,[04, 00, 00, 00, 00, 00, 00, 00]\n\
         ROOT.data,8,4,16,i32,[01, 00, 00, 00, 02, 00, 00, 00, 03, 00, 00, 00, 04, 00, 00, 00]\n"
    );
}

/// Padding gets a row of its own, and moves the row of the field that it
/// stands before.
#[test]
fn schema_records_padding() {
    let ty = TypeDesc::record(
        "Pair",
        false,
        vec![
            Field::new("a", TypeDesc::prim(PrimKind::U8)),
            Field::new("b", TypeDesc::prim(PrimKind::U64)),
        ],
    )
    .unwrap();
    let v = Value::Record(vec![Value::Prim(Prim::U8(1)), Value::Prim(Prim::U64(2))]);
    let (schema, bytes) = serialize_with_schema(&ty, &v, Vec::new()).unwrap();
    assert_eq!(bytes.len(), 16);
    assert_eq!(
        schema.to_csv(),
        "field,offset,align,size,ty\n\
         ROOT,0,1,16,Pair\n\
         ROOT.a,0,1,1,u8\n\
         ROOT.a.data,0,1,1,u8\n\
         ROOT.b,8,8,8,u64\n\
         PADDING,1,1,7,[u8; 7]\n\
         ROOT.b.data,8,8,8,u64\n"
    );
}

/// The writer with a schema writes what the writer without one writes.
#[test]
fn schema_writer_counts_and_records() {
    let mut writer = SchemaWriter::new(WriteWithPos::new(Vec::new()));
    assert_eq!(writer.get_pos(), 0);
    assert_eq!(writer.write(&[1, 2, 3]), Ok(3));
    assert_eq!(writer.get_pos(), 3);
    writer.add_padding_to_align(4).unwrap();
    assert_eq!(writer.get_pos(), 4);
    writer.add_padding_to_align(4).unwrap();
    assert_eq!(writer.get_pos(), 4);
    let writer = writer.add_field_bytes("raw", "u16".to_string(), &[9, 9], 2).unwrap();
    assert_eq!(writer.get_pos(), 6);
    assert_eq!(writer.schema.0.len(), 2);
    assert_eq!(writer.schema.0[0].field, "PADDING");
    assert_eq!(writer.schema.0[0].offset, 3);
    assert_eq!(writer.schema.0[0].size, 1);
    assert_eq!(writer.schema.0[0].ty, "[u8; 1]");
    assert_eq!(writer.schema.0[1].field, "raw");
    assert_eq!(writer.schema.0[1].offset, 4);
    assert_eq!(writer.schema.0[1].size, 2);
    assert_eq!(writer.schema.0[1].align, 2);
    let (schema, inner) = writer.into_parts();
    assert_eq!(schema.0.len(), 2);
    assert_eq!(inner.into_inner(), vec![1, 2, 3, 0, 9, 9]);
}

/// The plain writer counts what it writes.
#[test]
fn write_with_pos_counts_bytes() {
    let mut writer = WriteWithPos::new(vec![7u8]);
    assert_eq!(writer.get_pos(), 0);
    assert_eq!(writer.write(&[1]), Ok(1));
    writer.add_padding_to_align(8).unwrap();
    assert_eq!(writer.get_pos(), 8);
    assert_eq!(writer.flush(), Ok(()));
    let writer = writer.add_field_bytes("x", "u8".to_string(), &[5], 1).unwrap();
    assert_eq!(writer.get_pos(), 9);
    assert_eq!(writer.into_inner(), vec![7, 1, 0, 0, 0, 0, 0, 0, 0, 5]);
}

/// Fields inside fields: the names are joined by dots, and padding moves
/// every row that begins where it begins.
#[test]
fn schema_of_nested_fields() {
    let ty = TypeDesc::optional(TypeDesc::text());
    let v = Value::Optional(Some(Box::new(Value::Text(String::from("hi")))));
    let (schema, bytes) = serialize_with_schema(&ty, &v, Vec::new()).unwrap();
    assert_eq!(bytes, vec![1, 0, 0, 0, 0, 0, 0, 0, 2, 0, 0, 0, 0, 0, 0, 0, b'h', b'i']);
    assert_eq!(
        schema.to_csv(),
        "field,offset,align,size,ty\n\
         ROOT,0,1,18,Option<String>\n\
         ROOT.Tag,0,1,1,u8\n\
         ROOT.Tag.data,0,1,1,u8\n\
         ROOT.Some,8,1,10,String\n\
         ROOT.Some.len,8,8,8,usize\n\
         PADDING,1,1,7,[u8; 7]\n\
         ROOT.Some.len.data,8,8,8,usize\n\
         ROOT.Some.data,16,1,2,u8\n"
    );
}

/// A writer is told where a field begins and ends.
#[test]
fn fields_begin_and_end() {
    let mut writer = SchemaWriter::new(WriteWithPos::new(Vec::new()));
    writer.begin_field("outer", &TypeDesc::unit());
    writer.begin_field("inner", &TypeDesc::prim(PrimKind::U16));
    writer.write(&[1, 2]).unwrap();
    writer.end_field();
    writer.write(&[3]).unwrap();
    writer.end_field();
    writer.end_field();
    assert_eq!(
        writer.schema.to_csv(),
        "field,offset,align,size,ty\nouter,0,1,3,()\nouter.inner,0,2,2,u16\n"
    );
    let mut plain = WriteWithPos::new(Vec::new());
    plain.begin_field("outer", &TypeDesc::unit());
    plain.write(&[1, 2]).unwrap();
    plain.end_field();
    assert_eq!(plain.get_pos(), 2);
}
