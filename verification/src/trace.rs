//! The trace that writing a value leaves with a writer of fields: the rows
//! of the schema of the value.
use crate::align::spec_pad_align_to;
use crate::layout::{encode, encode_fields, encode_len, encode_seq};
use crate::names::spec_ty_name;
use crate::prim::PrimKind;
use crate::rows::Trace;
use crate::types::{align_of, is_zero, size_of, FieldModel, TypeModel};
use crate::value::ValueModel;
use vstd::prelude::*;
use vstd::utf8::encode_utf8;

verus! {

/// The trace after a value of the `Zero` type `ty` was written at the
/// position `pos`: the padding, if there is any, then the image as a field
/// named `data`.
pub open spec fn trace_zero(ty: TypeModel, told: Trace, pos: nat) -> Trace {
    let pad = spec_pad_align_to(pos, align_of(ty));
    told.padded(pos, pad).with_bytes(
        "data"@,
        spec_ty_name(ty),
        pos + pad,
        size_of(ty),
        align_of(ty),
    )
}

/// The trace after a value of the `Zero` type `ty` was written at the
/// position `pos` as a field named `name`.
pub open spec fn trace_zero_field(name: Seq<char>, ty: TypeModel, told: Trace, pos: nat) -> Trace {
    trace_zero(ty, told.begun(name, spec_ty_name(ty), pos, align_of(ty)), pos).ended(
        pos + spec_pad_align_to(pos, align_of(ty)) + size_of(ty),
    )
}

/// The trace after a length was written at the position `pos`, as a field
/// named `len`.
pub open spec fn trace_len(told: Trace, pos: nat) -> Trace {
    trace_zero_field("len"@, TypeModel::Prim(PrimKind::Usize), told, pos)
}

/// The trace after the value `v` of the type `ty` was written at the
/// position `pos`.
///
/// A value of a `Zero` type leaves its padding and a field named `data`.
/// An optional value leaves a field named `Tag`, and after the tag 1 a
/// field named `Some`. A sequence leaves a field named `len`, then one
/// field named `data` for the block of its elements where they are `Zero`,
/// and a field named `data` for each element where they are not. A text
/// leaves a field named `len` and a field named `data`. An array that is
/// not `Zero` leaves a field named `data` for each element, and a record
/// that is not `Zero` a field for each of its fields, under the field's
/// name.
pub open spec fn trace_value(ty: TypeModel, v: ValueModel, told: Trace, pos: nat) -> Trace
    decreases ty, 0nat, 0nat,
{
    if is_zero(ty) {
        trace_zero(ty, told, pos)
    } else {
        match ty {
            TypeModel::Optional(inner) => match v {
                ValueModel::Optional(Some(x)) => trace_field(
                    "Some"@,
                    *inner,
                    *x,
                    trace_zero_field("Tag"@, TypeModel::Prim(PrimKind::U8), told, pos),
                    pos + 1,
                ),
                _ => trace_zero_field("Tag"@, TypeModel::Prim(PrimKind::U8), told, pos),
            },
            TypeModel::Array(elem, n) => match v {
                ValueModel::Array(vals) => trace_seq(*elem, vals, vals.len(), told, pos),
                _ => told,
            },
            TypeModel::Sequence(elem) => match v {
                ValueModel::Sequence(vals) => trace_slice(*elem, vals, is_zero(*elem), told, pos),
                _ => told,
            },
            TypeModel::Text => match v {
                ValueModel::Text(chars) => trace_len(told, pos).with_bytes(
                    "data"@,
                    "u8"@,
                    pos + encode_len(encode_utf8(chars).len(), pos).len(),
                    encode_utf8(chars).len(),
                    1,
                ),
                _ => told,
            },
            TypeModel::Record { name, zero_copy, fields } => match v {
                ValueModel::Record(vals) => trace_fields(fields, vals, fields.len(), told, pos),
                _ => told,
            },
            _ => told,
        }
    }
}

/// The trace after the value `v` of the type `ty` was written at the
/// position `pos` as a field named `name`: the field begins, the value is
/// written, and the field ends where the bytes of the value end.
pub open spec fn trace_field(
    name: Seq<char>,
    ty: TypeModel,
    v: ValueModel,
    told: Trace,
    pos: nat,
) -> Trace
    decreases ty, 1nat, 0nat,
{
    trace_value(ty, v, told.begun(name, spec_ty_name(ty), pos, align_of(ty)), pos).ended(
        pos + encode(ty, v, pos).len(),
    )
}

/// The trace after the first `n` of the values were written one after the
/// other from the position `pos` on, each as a field named `data`.
pub open spec fn trace_seq(ty: TypeModel, vals: Seq<ValueModel>, n: nat, told: Trace, pos: nat) -> Trace
    decreases ty, 2nat, n,
{
    if n == 0 || n > vals.len() {
        told
    } else {
        trace_field(
            "data"@,
            ty,
            vals[n - 1],
            trace_seq(ty, vals, (n - 1) as nat, told, pos),
            pos + encode_seq(ty, vals, (n - 1) as nat, pos).len(),
        )
    }
}

/// The trace after the first `n` fields of a record were written one after
/// the other from the position `pos` on, each under its name.
pub open spec fn trace_fields(
    fields: Seq<FieldModel>,
    vals: Seq<ValueModel>,
    n: nat,
    told: Trace,
    pos: nat,
) -> Trace
    decreases fields, n, 0nat,
{
    if n == 0 || n > fields.len() || n > vals.len() {
        told
    } else {
        trace_field(
            fields[n - 1].name,
            fields[n - 1].ty,
            vals[n - 1],
            trace_fields(fields, vals, (n - 1) as nat, told, pos),
            pos + encode_fields(fields, vals, (n - 1) as nat, pos).len(),
        )
    }
}

/// The trace after a sequence of values of the type `elem` was written at
/// the position `pos`: its length, then its elements, as one block where
/// `zero_copy` holds, and one after the other where it does not.
pub open spec fn trace_slice(
    elem: TypeModel,
    vals: Seq<ValueModel>,
    zero_copy: bool,
    told: Trace,
    pos: nat,
) -> Trace
    decreases elem, 3nat, 0nat,
{
    let after = pos + encode_len(vals.len(), pos).len();
    if zero_copy {
        let pad = spec_pad_align_to(after, align_of(elem));
        trace_len(told, pos).padded(after, pad).with_bytes(
            "data"@,
            spec_ty_name(elem),
            after + pad,
            vals.len() * size_of(elem),
            align_of(elem),
        )
    } else {
        trace_seq(elem, vals, vals.len(), trace_len(told, pos), after)
    }
}

} // verus!
