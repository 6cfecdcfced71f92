//! The layout of a stream: the image in memory of a `Zero` value, and the
//! bytes that any value is written as at a given position.
use crate::align::{spec_pad_align_to, zeros};
use crate::prim::{le_bytes, lemma_le_bytes_len};
use crate::types::{align_of, fields_align, fields_end, is_zero, size_of, FieldModel, TypeModel};
use crate::value::{conforms, ValueModel};
use vstd::prelude::*;
use vstd::utf8::encode_utf8;

verus! {

/// The image in memory of a value of a `Zero` type: the bytes of a
/// primitive, the lowest first; the images of the elements of an array, one
/// after the other; the images of the fields of a record, each at its
/// offset, with zero bytes in the gaps and after the last field up to the
/// record's size.
pub open spec fn image(ty: TypeModel, v: ValueModel) -> Seq<u8>
    decreases ty, 0nat, 0nat,
{
    match ty {
        TypeModel::Prim(kind) => match v {
            ValueModel::Prim(p) => le_bytes(p.raw(), kind.spec_size()),
            _ => Seq::empty(),
        },
        TypeModel::Array(elem, n) => match v {
            ValueModel::Array(vals) => image_seq(*elem, vals, vals.len()),
            _ => Seq::empty(),
        },
        TypeModel::Record { name, zero_copy, fields } => match v {
            ValueModel::Record(vals) => {
                let body = image_fields(fields, vals, fields.len());
                body + zeros(spec_pad_align_to(body.len(), fields_align(fields, fields.len())))
            },
            _ => Seq::empty(),
        },
        _ => Seq::empty(),
    }
}

/// The images of the first `n` of the values, one after the other.
pub open spec fn image_seq(ty: TypeModel, vals: Seq<ValueModel>, n: nat) -> Seq<u8>
    decreases ty, 1nat, n,
{
    if n == 0 || n > vals.len() {
        Seq::empty()
    } else {
        image_seq(ty, vals, (n - 1) as nat) + image(ty, vals[n - 1])
    }
}

/// The images of the first `n` fields of a record, each at its offset, with
/// zero bytes in the gaps.
pub open spec fn image_fields(fields: Seq<FieldModel>, vals: Seq<ValueModel>, n: nat) -> Seq<u8>
    decreases fields, n, 0nat,
{
    if n == 0 || n > fields.len() || n > vals.len() {
        Seq::empty()
    } else {
        let init = image_fields(fields, vals, (n - 1) as nat);
        init + zeros(spec_pad_align_to(init.len(), align_of(fields[n - 1].ty))) + image(
            fields[n - 1].ty,
            vals[n - 1],
        )
    }
}

/// The bytes of a length: a `usize` in eight bytes, after padding to a
/// multiple of eight.
pub open spec fn encode_len(n: nat, pos: nat) -> Seq<u8> {
    zeros(spec_pad_align_to(pos, 8)) + le_bytes(n, 8)
}

/// The bytes that the value `v` of type `ty` is written as at the position
/// `pos` of a stream.
///
/// A value of a `Zero` type is written as its image, after zero bytes up to
/// the next multiple of its alignment. An optional value is written as a
/// tag, 0 for none and 1 for some, and after a 1 the value. A sequence is
/// written as its length, then, where its elements are `Zero`, as their
/// images in one aligned block, and otherwise element by element. A text is
/// written as the number of its bytes in UTF-8 and those bytes. An array or
/// a record that is not `Zero` is written element by element, or field by
/// field in the order of declaration.
pub open spec fn encode(ty: TypeModel, v: ValueModel, pos: nat) -> Seq<u8>
    decreases ty, 0nat, 0nat,
{
    if is_zero(ty) {
        zeros(spec_pad_align_to(pos, align_of(ty))) + image(ty, v)
    } else {
        match ty {
            TypeModel::Optional(inner) => match v {
                ValueModel::Optional(Some(x)) => seq![1u8] + encode(*inner, *x, pos + 1),
                _ => seq![0u8],
            },
            TypeModel::Array(elem, n) => match v {
                ValueModel::Array(vals) => encode_seq(*elem, vals, vals.len(), pos),
                _ => Seq::empty(),
            },
            TypeModel::Sequence(elem) => match v {
                ValueModel::Sequence(vals) => {
                    let head = encode_len(vals.len(), pos);
                    if is_zero(*elem) {
                        head + zeros(spec_pad_align_to(pos + head.len(), align_of(*elem)))
                            + image_seq(*elem, vals, vals.len())
                    } else {
                        head + encode_seq(*elem, vals, vals.len(), pos + head.len())
                    }
                },
                _ => Seq::empty(),
            },
            TypeModel::Text => match v {
                ValueModel::Text(chars) => encode_len(encode_utf8(chars).len(), pos) + encode_utf8(
                    chars,
                ),
                _ => Seq::empty(),
            },
            TypeModel::Record { name, zero_copy, fields } => match v {
                ValueModel::Record(vals) => encode_fields(fields, vals, fields.len(), pos),
                _ => Seq::empty(),
            },
            _ => Seq::empty(),
        }
    }
}

/// The bytes that the first `n` of the values are written as, one after the
/// other, from the position `pos` on.
pub open spec fn encode_seq(ty: TypeModel, vals: Seq<ValueModel>, n: nat, pos: nat) -> Seq<u8>
    decreases ty, 1nat, n,
{
    if n == 0 || n > vals.len() {
        Seq::empty()
    } else {
        let init = encode_seq(ty, vals, (n - 1) as nat, pos);
        init + encode(ty, vals[n - 1], pos + init.len())
    }
}

/// The bytes that the first `n` fields of a record are written as, one
/// after the other, from the position `pos` on.
pub open spec fn encode_fields(
    fields: Seq<FieldModel>,
    vals: Seq<ValueModel>,
    n: nat,
    pos: nat,
) -> Seq<u8>
    decreases fields, n, 0nat,
{
    if n == 0 || n > fields.len() || n > vals.len() {
        Seq::empty()
    } else {
        let init = encode_fields(fields, vals, (n - 1) as nat, pos);
        init + encode(fields[n - 1].ty, vals[n - 1], pos + init.len())
    }
}

/// The image of a value of a `Zero` type has the size of the type.
pub proof fn lemma_image_len(ty: TypeModel, v: ValueModel)
    requires
        is_zero(ty),
        conforms(v, ty),
    ensures
        image(ty, v).len() == size_of(ty),
    decreases ty, 0nat, 0nat,
{
    match ty {
        TypeModel::Prim(kind) => {
            lemma_le_bytes_len(v->Prim_0.raw(), kind.spec_size());
        },
        TypeModel::Array(elem, n) => {
            lemma_image_seq_len(*elem, v->Array_0, n);
        },
        TypeModel::Record { name, zero_copy, fields } => {
            lemma_image_fields_len(fields, v->Record_0, fields.len());
        },
        _ => {},
    }
}

/// The images of `n` values of a `Zero` type take `n` times its size.
pub proof fn lemma_image_seq_len(ty: TypeModel, vals: Seq<ValueModel>, n: nat)
    requires
        is_zero(ty),
        n <= vals.len(),
        forall|i: int| 0 <= i < n ==> conforms(#[trigger] vals[i], ty),
    ensures
        image_seq(ty, vals, n).len() == n * size_of(ty),
    decreases ty, 1nat, n,
{
    if n > 0 {
        lemma_image_seq_len(ty, vals, (n - 1) as nat);
        lemma_image_len(ty, vals[n - 1]);
        assert(n * size_of(ty) == (n - 1) * size_of(ty) + size_of(ty)) by (nonlinear_arith)
            requires
                n > 0,
        ;
    } else {
        assert(0 * size_of(ty) == 0);
    }
}

/// The images of the first `n` fields of a `Zero` record end where the
/// layout says that the fields end.
pub proof fn lemma_image_fields_len(fields: Seq<FieldModel>, vals: Seq<ValueModel>, n: nat)
    requires
        n <= fields.len() == vals.len(),
        forall|i: int| 0 <= i < n ==> is_zero((#[trigger] fields[i]).ty),
        forall|i: int| 0 <= i < n ==> conforms(#[trigger] vals[i], fields[i].ty),
    ensures
        image_fields(fields, vals, n).len() == fields_end(fields, n),
    decreases fields, n, 0nat,
{
    if n > 0 {
        lemma_image_fields_len(fields, vals, (n - 1) as nat);
        assert(is_zero(fields[n - 1].ty));
        lemma_image_len(fields[n - 1].ty, vals[n - 1]);
    }
}

} // verus!
