//! The names of types, as they stand in a schema and enter a fingerprint.
use crate::prim::PrimKind;
use crate::text::{decimal, push_decimal};
use crate::types::{TypeDesc, TypeModel, TypeNode};
use vstd::prelude::*;

verus! {

/// The name of a primitive type.
pub open spec fn spec_prim_name(kind: PrimKind) -> Seq<char> {
    match kind {
        PrimKind::U8 => "u8"@,
        PrimKind::U16 => "u16"@,
        PrimKind::U32 => "u32"@,
        PrimKind::U64 => "u64"@,
        PrimKind::U128 => "u128"@,
        PrimKind::Usize => "usize"@,
        PrimKind::I8 => "i8"@,
        PrimKind::I16 => "i16"@,
        PrimKind::I32 => "i32"@,
        PrimKind::I64 => "i64"@,
        PrimKind::I128 => "i128"@,
        PrimKind::Isize => "isize"@,
        PrimKind::F32 => "f32"@,
        PrimKind::F64 => "f64"@,
        PrimKind::Bool => "bool"@,
        PrimKind::Char => "char"@,
    }
}

/// The name of a primitive type.
pub fn prim_name(kind: PrimKind) -> (name: &'static str)
    ensures
        name@ == spec_prim_name(kind),
{
    match kind {
        PrimKind::U8 => "u8",
        PrimKind::U16 => "u16",
        PrimKind::U32 => "u32",
        PrimKind::U64 => "u64",
        PrimKind::U128 => "u128",
        PrimKind::Usize => "usize",
        PrimKind::I8 => "i8",
        PrimKind::I16 => "i16",
        PrimKind::I32 => "i32",
        PrimKind::I64 => "i64",
        PrimKind::I128 => "i128",
        PrimKind::Isize => "isize",
        PrimKind::F32 => "f32",
        PrimKind::F64 => "f64",
        PrimKind::Bool => "bool",
        PrimKind::Char => "char",
    }
}

/// The name of a type: that of a primitive or a record as it is, that of
/// any other type made from the names of the types inside it.
pub open spec fn spec_ty_name(ty: TypeModel) -> Seq<char>
    decreases ty,
{
    match ty {
        TypeModel::Unit => "()"@,
        TypeModel::Prim(kind) => spec_prim_name(kind),
        TypeModel::Phantom(inner) => "PhantomData<"@ + spec_ty_name(*inner) + ">"@,
        TypeModel::Optional(inner) => "Option<"@ + spec_ty_name(*inner) + ">"@,
        TypeModel::Array(elem, n) => "["@ + spec_ty_name(*elem) + "; "@ + decimal(n) + "]"@,
        TypeModel::Sequence(elem) => "Vec<"@ + spec_ty_name(*elem) + ">"@,
        TypeModel::Text => "String"@,
        TypeModel::Record { name, zero_copy, fields } => name,
    }
}

/// Appends the name of the type.
pub fn push_ty_name(out: &mut String, ty: &TypeDesc)
    ensures
        final(out)@ == old(out)@ + spec_ty_name(ty@),
    decreases ty,
{
    match &ty.node {
        TypeNode::Unit => {
            out.append("()");
        },
        TypeNode::Prim(kind) => {
            out.append(prim_name(*kind));
        },
        TypeNode::Phantom(inner) => {
            out.append("PhantomData<");
            push_ty_name(out, inner);
            out.append(">");
            assert(out@ =~= old(out)@ + spec_ty_name(ty@));
        },
        TypeNode::Optional(inner) => {
            out.append("Option<");
            push_ty_name(out, inner);
            out.append(">");
            assert(out@ =~= old(out)@ + spec_ty_name(ty@));
        },
        TypeNode::Array(elem, n) => {
            out.append("[");
            push_ty_name(out, elem);
            out.append("; ");
            push_decimal(out, *n);
            out.append("]");
            assert(out@ =~= old(out)@ + spec_ty_name(ty@));
        },
        TypeNode::Sequence(elem) => {
            out.append("Vec<");
            push_ty_name(out, elem);
            out.append(">");
            assert(out@ =~= old(out)@ + spec_ty_name(ty@));
        },
        TypeNode::Text => {
            out.append("String");
        },
        TypeNode::Record { name, zero_copy, fields } => {
            out.append(name.as_str());
        },
    }
}

/// The name of the type.
pub fn ty_name(ty: &TypeDesc) -> (name: String)
    ensures
        name@ == spec_ty_name(ty@),
{
    let mut name = String::new();
    push_ty_name(&mut name, ty);
    assert(name@ =~= spec_ty_name(ty@));
    name
}

} // verus!
