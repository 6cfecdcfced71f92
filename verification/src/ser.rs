//! The serializer: it writes a value field by field through a writer that
//! knows its position, and pads before every block that is written as an
//! image in memory.
use crate::align::{lemma_pad_is_minimal, pad_align_to, spec_pad_align_to, zeros};
use crate::error::Error;
use crate::layout::{
    encode, encode_fields, encode_len, encode_seq, image, image_fields, image_seq, lemma_image_len,
    lemma_image_seq_len,
};
use crate::names::ty_name;
use crate::prim::{push_le, Prim, PrimKind};
use crate::types::{
    align_of, fields_align, fields_end, fields_model, is_zero, lemma_align_of_is_alignment,
    lemma_fields_align_is_alignment, lemma_fields_end_monotonic, lemma_inner, lemma_record_fields,
    Classification, Field, TypeDesc, TypeModel, TypeNode,
};
use crate::value::{conforms, values_model, Value, ValueModel};
use crate::rows::Trace;
use crate::schema::{Schema, SchemaWriter};
use crate::trace::{
    trace_field, trace_fields, trace_len, trace_seq, trace_slice, trace_value, trace_zero,
    trace_zero_field,
};
use crate::writer::{FieldWrite, WriteNoStd, WriteWithPos};
use vstd::prelude::*;

verus! {

/// What a step of the serializer owes: a writer that took exactly `bytes`
/// after what `before` had taken, or a failure of the sink, which does not
/// happen where `before` had room for the bytes.
pub open spec fn wrote<F: FieldWrite>(res: Result<F, Error>, before: F, bytes: Seq<u8>) -> bool {
    match res {
        Ok(w) => {
            &&& w.inv()
            &&& w.written() == before.written() + bytes
            &&& w.room() + bytes.len() >= before.room()
            &&& w.base() == before.base()
        },
        Err(e) => e == Error::IoError && bytes.len() > before.room(),
    }
}

/// Whether the writer that a step of the serializer gave, if it gave one,
/// has been told `trace`.
pub open spec fn told<F: FieldWrite>(res: Result<F, Error>, trace: Trace) -> bool {
    res matches Ok(w) ==> w.trace() == trace
}

/// Appends `n` zero bytes.
pub fn push_zeros(out: &mut Vec<u8>, n: usize)
    ensures
        final(out)@ == old(out)@ + zeros(n as nat),
{
    let mut i: usize = 0;
    while i < n
        invariant
            i <= n,
            out@ == old(out)@ + zeros(i as nat),
        decreases n - i,
    {
        out.push(0u8);
        assert(out@ =~= old(out)@ + zeros((i + 1) as nat));
        i = i + 1;
    }
    assert(out@ =~= old(out)@ + zeros(n as nat));
}

/// Appends the image in memory of a value of a `Zero` type.
pub fn write_image(ty: &TypeDesc, v: &Value, out: &mut Vec<u8>)
    requires
        ty.wf(),
        is_zero(ty@),
        conforms(v@, ty@),
    ensures
        final(out)@ == old(out)@ + image(ty@, v@),
    decreases ty,
{
    match &ty.node {
        TypeNode::Prim(kind) => {
            match v {
                Value::Prim(p) => {
                    push_le(out, p.to_raw(), kind.size());
                },
                _ => {},
            }
        },
        TypeNode::Array(elem, n) => {
            match v {
                Value::Array(vals) => {
                    let ghost vm = values_model(vals@);
                    let len = vals.len();
                    let mut i: usize = 0;
                    assert(out@ =~= old(out)@ + image_seq(elem@, vm, 0));
                    while i < len
                        invariant
                            i <= len == vals@.len(),
                            vm == values_model(vals@),
                            decreases_to!(ty => elem),
                            elem.wf(),
                            is_zero(elem@),
                            forall|j: int| 0 <= j < vm.len() ==> conforms(#[trigger] vm[j], elem@),
                            out@ == old(out)@ + image_seq(elem@, vm, i as nat),
                        decreases len - i,
                    {
                        assert(vm[i as int] == vals@[i as int]@);
                        write_image(elem, &vals[i], out);
                        assert(out@ =~= old(out)@ + image_seq(elem@, vm, (i + 1) as nat));
                        i = i + 1;
                    }
                },
                _ => {},
            }
        },
        TypeNode::Record { name, zero_copy, fields } => {
            match v {
                Value::Record(vals) => {
                    let ghost vm = values_model(vals@);
                    let ghost fm = fields_model(fields@);
                    let len = fields.len();
                    let mut end: usize = 0;
                    let mut i: usize = 0;
                    proof {
                        lemma_record_fields(*ty);
                        lemma_fields_align_is_alignment(fm, len as nat);
                        lemma_pad_is_minimal(fields_end(fm, len as nat), fields_align(fm, len as nat));
                    }
                    assert(out@ =~= old(out)@ + image_fields(fm, vm, 0));
                    while i < len
                        invariant
                            i <= len == fields@.len() == vals@.len(),
                            decreases_to!(ty => fields),
                            vm == values_model(vals@),
                            fm == fields_model(fields@),
                            forall|j: int| 0 <= j < fields@.len() ==> (#[trigger] fields@[j]).ty.wf(),
                            forall|j: int| 0 <= j < fm.len() ==> is_zero((#[trigger] fm[j]).ty),
                            forall|j: int|
                                0 <= j < vm.len() ==> conforms(#[trigger] vm[j], fm[j].ty),
                            fields_end(fm, len as nat) <= usize::MAX,
                            end == fields_end(fm, i as nat),
                            end == image_fields(fm, vm, i as nat).len(),
                            out@ == old(out)@ + image_fields(fm, vm, i as nat),
                        decreases len - i,
                    {
                        let field = &fields[i].ty;
                        proof {
                            assert(fields@[i as int].ty.wf());
                            assert(fm[i as int].ty == field@);
                            assert(vm[i as int] == vals@[i as int]@);
                            assert(is_zero(fm[i as int].ty));
                            assert(conforms(vm[i as int], fm[i as int].ty));
                            lemma_align_of_is_alignment(field@);
                            lemma_fields_end_monotonic(fm, (i + 1) as nat, len as nat);
                            lemma_image_len(field@, vm[i as int]);
                        }
                        let pad = pad_align_to(end, field.align);
                        push_zeros(out, pad);
                        write_image(field, &vals[i], out);
                        end = end + pad + field.size;
                        assert(out@ =~= old(out)@ + image_fields(fm, vm, (i + 1) as nat));
                        i = i + 1;
                    }
                    proof {
                        lemma_fields_align_is_alignment(fm, len as nat);
                    }
                    let pad = pad_align_to(end, ty.align);
                    push_zeros(out, pad);
                    assert(out@ =~= old(out)@ + image(ty@, v@));
                },
                _ => {},
            }
        },
        _ => {},
    }
}

/// Writes a value of a `Zero` type: pads to the alignment of the type, then
/// writes the image of the value as the bytes of a field named `data`.
pub fn serialize_zero_copy<F: FieldWrite>(ty: &TypeDesc, v: &Value, backend: F) -> (res: Result<
    F,
    Error,
>)
    requires
        ty.wf(),
        is_zero(ty@),
        conforms(v@, ty@),
        backend.inv(),
    ensures
        wrote(res, backend, encode(ty@, v@, backend.written().len())),
        told(res, trace_zero(ty@, backend.trace(), backend.written().len())),
{
    let ghost pos = backend.written().len();
    proof {
        lemma_image_len(ty@, v@);
    }
    let mut backend = backend;
    let ghost start = backend;
    proof {
        lemma_align_of_is_alignment(ty@);
    }
    match backend.add_padding_to_align(ty.align) {
        Ok(_) => {},
        Err(e) => {
            return Err(e);
        },
    }
    let mut buffer: Vec<u8> = Vec::new();
    write_image(ty, v, &mut buffer);
    assert(buffer@ =~= image(ty@, v@));
    let res = backend.add_field_bytes("data", ty_name(ty), buffer.as_slice(), ty.align);
    proof {
        if res is Ok {
            assert(res.unwrap().written() =~= start.written() + encode(ty@, v@, pos));
        }
    }
    res
}

/// Writes a value of a `Zero` type as a field named `field_name`.
pub fn add_zero_field<F: FieldWrite>(
    backend: F,
    field_name: &str,
    ty: &TypeDesc,
    v: &Value,
) -> (res: Result<F, Error>)
    requires
        ty.wf(),
        is_zero(ty@),
        conforms(v@, ty@),
        backend.inv(),
    ensures
        wrote(res, backend, encode(ty@, v@, backend.written().len())),
        told(res, trace_zero_field(field_name@, ty@, backend.trace(), backend.written().len())),
{
    proof {
        lemma_image_len(ty@, v@);
    }
    let mut backend = backend;
    backend.begin_field(field_name, ty);
    match serialize_zero_copy(ty, v, backend) {
        Ok(mut backend) => {
            backend.end_field();
            Ok(backend)
        },
        Err(e) => Err(e),
    }
}

/// Writes the length `n` of a sequence or a text as a field named `len`.
pub fn add_len_field<F: FieldWrite>(backend: F, n: usize) -> (res: Result<F, Error>)
    requires
        backend.inv(),
    ensures
        wrote(res, backend, encode_len(n as nat, backend.written().len())),
        told(res, trace_len(backend.trace(), backend.written().len())),
{
    let ty = TypeDesc::prim(PrimKind::Usize);
    let v = Value::Prim(Prim::Usize(n));
    add_zero_field(backend, "len", &ty, &v)
}

/// Two steps, one after the other, owe what one step for both runs of bytes
/// owes.
pub proof fn lemma_wrote_then<F: FieldWrite>(
    start: F,
    mid: F,
    first: Seq<u8>,
    res: Result<F, Error>,
    second: Seq<u8>,
)
    requires
        wrote(Ok::<F, Error>(mid), start, first),
        wrote(res, mid, second),
    ensures
        wrote(res, start, first + second),
{
    if res is Ok {
        assert(res.unwrap().written() =~= start.written() + (first + second));
    }
}

/// A step that failed on some bytes has failed on any run of bytes that is
/// no shorter.
pub proof fn lemma_wrote_failed<F: FieldWrite>(
    start: F,
    res: Result<F, Error>,
    bytes: Seq<u8>,
    more: Seq<u8>,
)
    requires
        wrote(res, start, bytes),
        res is Err,
        more.len() >= bytes.len(),
    ensures
        wrote(res, start, more),
{
}

/// More values are written as no fewer bytes.
pub proof fn lemma_encode_seq_grows(ty: TypeModel, vals: Seq<ValueModel>, i: nat, n: nat, pos: nat)
    requires
        i <= n <= vals.len(),
    ensures
        encode_seq(ty, vals, i, pos).len() <= encode_seq(ty, vals, n, pos).len(),
    decreases n,
{
    if i < n {
        lemma_encode_seq_grows(ty, vals, i, (n - 1) as nat, pos);
    }
}

/// More fields are written as no fewer bytes.
pub proof fn lemma_encode_fields_grows(
    fields: Seq<crate::types::FieldModel>,
    vals: Seq<ValueModel>,
    i: nat,
    n: nat,
    pos: nat,
)
    requires
        i <= n <= fields.len(),
        n <= vals.len(),
    ensures
        encode_fields(fields, vals, i, pos).len() <= encode_fields(fields, vals, n, pos).len(),
    decreases n,
{
    if i < n {
        lemma_encode_fields_grows(fields, vals, i, (n - 1) as nat, pos);
    }
}

/// A tag is written as one byte, at any position.
pub proof fn lemma_encode_tag(tag: u8, pos: nat)
    ensures
        encode(TypeModel::Prim(PrimKind::U8), ValueModel::Prim(Prim::U8(tag)), pos) == seq![tag],
{
    reveal_with_fuel(crate::prim::le_bytes, 2);
    assert(spec_pad_align_to(pos, 1) == 0);
    assert(encode(TypeModel::Prim(PrimKind::U8), ValueModel::Prim(Prim::U8(tag)), pos) =~= seq![
        tag,
    ]);
}

/// Writes the value `v` of the type `ty` as a field named `field_name`:
/// the writer is told where the field begins and ends, and the value is
/// written in between.
pub fn add_field<F: FieldWrite>(backend: F, field_name: &str, ty: &TypeDesc, v: &Value) -> (res:
    Result<F, Error>)
    requires
        ty.wf(),
        conforms(v@, ty@),
        backend.inv(),
    ensures
        wrote(res, backend, encode(ty@, v@, backend.written().len())),
        told(
            res,
            trace_field(field_name@, ty@, v@, backend.trace(), backend.written().len()),
        ),
    decreases ty, 1nat,
{
    let mut backend = backend;
    backend.begin_field(field_name, ty);
    match serialize_inner(ty, v, backend) {
        Ok(mut backend) => {
            backend.end_field();
            Ok(backend)
        },
        Err(e) => Err(e),
    }
}

/// Writes the values one after the other, each as a field named `data`.
pub fn serialize_items<F: FieldWrite>(elem: &TypeDesc, vals: &Vec<Value>, backend: F) -> (res:
    Result<F, Error>)
    requires
        elem.wf(),
        forall|i: int| 0 <= i < vals@.len() ==> conforms(#[trigger] values_model(vals@)[i], elem@),
        backend.inv(),
    ensures
        wrote(
            res,
            backend,
            encode_seq(elem@, values_model(vals@), vals@.len(), backend.written().len()),
        ),
        told(
            res,
            trace_seq(
                elem@,
                values_model(vals@),
                vals@.len(),
                backend.trace(),
                backend.written().len(),
            ),
        ),
    decreases elem, 2nat,
{
    let ghost vm = values_model(vals@);
    let ghost pos = backend.written().len();
    let n = vals.len();
    let mut cur = backend;
    let mut i: usize = 0;
    proof {
        assert(cur.written() =~= backend.written() + encode_seq(elem@, vm, 0, pos));
    }
    while i < n
        invariant
            i <= n == vals@.len(),
            vm == values_model(vals@),
            pos == backend.written().len(),
            elem.wf(),
            forall|j: int| 0 <= j < vm.len() ==> conforms(#[trigger] vm[j], elem@),
            wrote(Ok::<F, Error>(cur), backend, encode_seq(elem@, vm, i as nat, pos)),
            cur.trace() == trace_seq(elem@, vm, i as nat, backend.trace(), pos),
        decreases n - i,
    {
        let ghost before = cur;
        let ghost init = encode_seq(elem@, vm, i as nat, pos);
        assert(vm[i as int] == vals@[i as int]@);
        let res = add_field(cur, "data", elem, &vals[i]);
        proof {
            lemma_wrote_then(
                backend,
                before,
                init,
                res,
                encode(elem@, vm[i as int], pos + init.len()),
            );
        }
        match res {
            Ok(next) => {
                cur = next;
            },
            Err(e) => {
                proof {
                    lemma_encode_seq_grows(elem@, vm, (i + 1) as nat, n as nat, pos);
                    lemma_wrote_failed(
                        backend,
                        res,
                        encode_seq(elem@, vm, (i + 1) as nat, pos),
                        encode_seq(elem@, vm, n as nat, pos),
                    );
                }
                return Err(e);
            },
        }
        i = i + 1;
    }
    Ok(cur)
}

/// Writes the values of the fields of a record one after the other, each
/// under the name of its field.
pub fn serialize_fields<F: FieldWrite>(fields: &Vec<Field>, vals: &Vec<Value>, backend: F) -> (res:
    Result<F, Error>)
    requires
        fields@.len() == vals@.len(),
        forall|i: int| 0 <= i < fields@.len() ==> (#[trigger] fields@[i]).ty.wf(),
        forall|i: int|
            0 <= i < vals@.len() ==> conforms(
                #[trigger] values_model(vals@)[i],
                fields_model(fields@)[i].ty,
            ),
        backend.inv(),
    ensures
        wrote(
            res,
            backend,
            encode_fields(
                fields_model(fields@),
                values_model(vals@),
                fields@.len(),
                backend.written().len(),
            ),
        ),
        told(
            res,
            trace_fields(
                fields_model(fields@),
                values_model(vals@),
                fields@.len(),
                backend.trace(),
                backend.written().len(),
            ),
        ),
    decreases fields, 0nat,
{
    let ghost vm = values_model(vals@);
    let ghost fm = fields_model(fields@);
    let ghost pos = backend.written().len();
    let n = fields.len();
    let mut cur = backend;
    let mut i: usize = 0;
    proof {
        assert(cur.written() =~= backend.written() + encode_fields(fm, vm, 0, pos));
    }
    while i < n
        invariant
            i <= n == fields@.len() == vals@.len(),
            vm == values_model(vals@),
            fm == fields_model(fields@),
            pos == backend.written().len(),
            forall|j: int| 0 <= j < fields@.len() ==> (#[trigger] fields@[j]).ty.wf(),
            forall|j: int| 0 <= j < vm.len() ==> conforms(#[trigger] vm[j], fm[j].ty),
            wrote(Ok::<F, Error>(cur), backend, encode_fields(fm, vm, i as nat, pos)),
            cur.trace() == trace_fields(fm, vm, i as nat, backend.trace(), pos),
        decreases n - i,
    {
        let ghost before = cur;
        let ghost init = encode_fields(fm, vm, i as nat, pos);
        proof {
            assert(vm[i as int] == vals@[i as int]@);
            assert(fm[i as int].ty == fields@[i as int].ty@);
            assert(fields@[i as int].ty.wf());
            assert(conforms(vm[i as int], fm[i as int].ty));
            assert(fm[i as int].name == fields@[i as int].name@);
        }
        let res = add_field(cur, fields[i].name.as_str(), &fields[i].ty, &vals[i]);
        proof {
            lemma_wrote_then(
                backend,
                before,
                init,
                res,
                encode(fm[i as int].ty, vm[i as int], pos + init.len()),
            );
        }
        match res {
            Ok(next) => {
                cur = next;
            },
            Err(e) => {
                proof {
                    lemma_encode_fields_grows(fm, vm, (i + 1) as nat, n as nat, pos);
                    lemma_wrote_failed(
                        backend,
                        res,
                        encode_fields(fm, vm, (i + 1) as nat, pos),
                        encode_fields(fm, vm, n as nat, pos),
                    );
                }
                return Err(e);
            },
        }
        i = i + 1;
    }
    Ok(cur)
}

/// The bytes that a sequence of values of the type `elem` is written as:
/// its length, then its elements, in one aligned block of images where
/// `zero_copy` holds, and one after the other where it does not.
pub open spec fn encode_slice(elem: TypeModel, vals: Seq<ValueModel>, zero_copy: bool, pos: nat) -> Seq<
    u8,
> {
    let head = encode_len(vals.len(), pos);
    if zero_copy {
        head + zeros(spec_pad_align_to(pos + head.len(), align_of(elem))) + image_seq(
            elem,
            vals,
            vals.len(),
        )
    } else {
        head + encode_seq(elem, vals, vals.len(), pos + head.len())
    }
}

/// Writes a sequence of values of the type `elem`: its length as a field
/// named `len`, then its elements. Where `zero_copy` holds, the elements are
/// written as one block of images, padded to their alignment, in a field
/// named `data`; where it does not, each is written as a field named `data`.
pub fn serialize_slice<F: FieldWrite>(
    elem: &TypeDesc,
    data: &Vec<Value>,
    backend: F,
    zero_copy: bool,
) -> (res: Result<F, Error>)
    requires
        elem.wf(),
        zero_copy ==> is_zero(elem@),
        forall|i: int| 0 <= i < data@.len() ==> conforms(#[trigger] values_model(data@)[i], elem@),
        backend.inv(),
    ensures
        wrote(
            res,
            backend,
            encode_slice(elem@, values_model(data@), zero_copy, backend.written().len()),
        ),
        told(
            res,
            trace_slice(
                elem@,
                values_model(data@),
                zero_copy,
                backend.trace(),
                backend.written().len(),
            ),
        ),
    decreases elem, 3nat,
{
    let ghost vm = values_model(data@);
    let ghost pos = backend.written().len();
    let ghost head = encode_len(vm.len(), pos);
    let ghost all = encode_slice(elem@, vm, zero_copy, pos);
    let len = data.len();
    let res = add_len_field(backend, len);
    let mut cur = match res {
        Ok(cur) => cur,
        Err(e) => {
            proof {
                lemma_wrote_failed(backend, res, head, all);
            }
            return Err(e);
        },
    };
    let ghost after_len = cur;
    if zero_copy {
        proof {
            lemma_align_of_is_alignment(elem@);
        }
        let ghost pad = zeros(spec_pad_align_to(pos + head.len(), align_of(elem@)));
        let ghost block = image_seq(elem@, vm, vm.len());
        let padded = cur.add_padding_to_align(elem.align);
        match padded {
            Ok(_) => {},
            Err(e) => {
                proof {
                    assert(head.len() + pad.len() > backend.room());
                    assert(all.len() == head.len() + pad.len() + block.len());
                }
                return Err(e);
            },
        }
        let mut buffer: Vec<u8> = Vec::new();
        let mut i: usize = 0;
        assert(buffer@ =~= image_seq(elem@, vm, 0));
        while i < len
            invariant
                i <= len == data@.len(),
                vm == values_model(data@),
                elem.wf(),
                is_zero(elem@),
                forall|j: int| 0 <= j < vm.len() ==> conforms(#[trigger] vm[j], elem@),
                buffer@ == image_seq(elem@, vm, i as nat),
            decreases len - i,
        {
            assert(vm[i as int] == data@[i as int]@);
            write_image(elem, &data[i], &mut buffer);
            assert(buffer@ =~= image_seq(elem@, vm, (i + 1) as nat));
            i = i + 1;
        }
        proof {
            lemma_image_seq_len(elem@, vm, vm.len());
        }
        let res = cur.add_field_bytes("data", ty_name(elem), buffer.as_slice(), elem.align);
        proof {
            assert(all == head + pad + block);
            if res is Ok {
                assert(res.unwrap().written() =~= backend.written() + all);
            }
        }
        res
    } else {
        let res = serialize_items(elem, data, cur);
        proof {
            lemma_wrote_then(
                backend,
                after_len,
                head,
                res,
                encode_seq(elem@, vm, vm.len(), pos + head.len()),
            );
        }
        res
    }
}

/// Writes the value `v` of the type `ty` at the position of the writer.
///
/// The bytes written are those that [`encode`] gives for the position. The
/// writer fails only where the sink underneath does, and not where it has
/// room for the bytes.
pub fn serialize_inner<F: FieldWrite>(ty: &TypeDesc, v: &Value, backend: F) -> (res: Result<
    F,
    Error,
>)
    requires
        ty.wf(),
        conforms(v@, ty@),
        backend.inv(),
    ensures
        wrote(res, backend, encode(ty@, v@, backend.written().len())),
        told(res, trace_value(ty@, v@, backend.trace(), backend.written().len())),
    decreases ty, 0nat,
{
    let ghost pos = backend.written().len();
    if ty.class == Classification::Zero {
        return serialize_zero_copy(ty, v, backend);
    }
    proof {
        lemma_inner(*ty);
    }
    match &ty.node {
        TypeNode::Optional(inner) => {
            let tag_ty = TypeDesc::prim(PrimKind::U8);
            match v {
                Value::Optional(Some(x)) => {
                    proof {
                        lemma_encode_tag(1u8, pos);
                    }
                    let tag = Value::Prim(Prim::U8(1));
                    let res = add_zero_field(backend, "Tag", &tag_ty, &tag);
                    let cur = match res {
                        Ok(cur) => cur,
                        Err(e) => {
                            proof {
                                lemma_wrote_failed(backend, res, seq![1u8], encode(ty@, v@, pos));
                            }
                            return Err(e);
                        },
                    };
                    let ghost after_tag = cur;
                    let res = add_field(cur, "Some", inner, x);
                    proof {
                        lemma_wrote_then(
                            backend,
                            after_tag,
                            seq![1u8],
                            res,
                            encode(inner@, x@, pos + 1),
                        );
                    }
                    res
                },
                _ => {
                    proof {
                        lemma_encode_tag(0u8, pos);
                    }
                    let tag = Value::Prim(Prim::U8(0));
                    add_zero_field(backend, "Tag", &tag_ty, &tag)
                },
            }
        },
        TypeNode::Array(elem, n) => {
            match v {
                Value::Array(vals) => serialize_items(elem, vals, backend),
                _ => Ok(backend),
            }
        },
        TypeNode::Sequence(elem) => {
            match v {
                Value::Sequence(vals) => serialize_slice(
                    elem,
                    vals,
                    backend,
                    elem.class == Classification::Zero,
                ),
                _ => Ok(backend),
            }
        },
        TypeNode::Text => {
            match v {
                Value::Text(text) => {
                    let bytes = text.as_str().as_bytes();
                    let ghost head = encode_len(bytes@.len(), pos);
                    let res = add_len_field(backend, bytes.len());
                    let cur = match res {
                        Ok(cur) => cur,
                        Err(e) => {
                            proof {
                                lemma_wrote_failed(backend, res, head, encode(ty@, v@, pos));
                            }
                            return Err(e);
                        },
                    };
                    let res = cur.add_field_bytes("data", String::from_str("u8"), bytes, 1);
                    proof {
                        if res is Ok {
                            assert(res.unwrap().written() =~= backend.written() + encode(
                                ty@,
                                v@,
                                pos,
                            ));
                        }
                    }
                    res
                },
                _ => Ok(backend),
            }
        },
        TypeNode::Record { name, zero_copy, fields } => {
            match v {
                Value::Record(vals) => {
                    proof {
                        lemma_record_fields(*ty);
                        assert(v@ == ValueModel::Record(values_model(vals@)));
                    }
                    serialize_fields(fields, vals, backend)
                },
                _ => Ok(backend),
            }
        },
        _ => Ok(backend),
    }
}

/// Writes the value `v` of the type `ty` to `backend` as a stream that
/// starts at position 0, and returns the number of bytes written with the
/// sink.
///
/// The bytes are those of [`encode`] at position 0. The call fails only
/// where the sink does, and not where the sink has room for the bytes and
/// their number is at most the largest `usize`.
pub fn serialize<F: WriteNoStd>(ty: &TypeDesc, v: &Value, backend: F) -> (res: Result<
    (usize, F),
    Error,
>)
    requires
        ty.wf(),
        conforms(v@, ty@),
        backend.inv(),
    ensures
        match res {
            Ok((count, sink)) => {
                &&& sink.inv()
                &&& sink.written() == backend.written() + encode(ty@, v@, 0)
                &&& count == encode(ty@, v@, 0).len()
            },
            Err(e) => {
                &&& e == Error::IoError
                &&& (encode(ty@, v@, 0).len() > backend.room() || encode(ty@, v@, 0).len()
                    > usize::MAX)
            },
        },
{
    let writer = WriteWithPos::new(backend);
    match serialize_inner(ty, v, writer) {
        Ok(writer) => {
            proof {
                writer.lemma_backend_holds_stream();
                assert(writer.written() =~= encode(ty@, v@, 0));
            }
            let count = writer.get_pos();
            Ok((count, writer.into_inner()))
        },
        Err(e) => Err(e),
    }
}

/// Writes the value `v` of the type `ty` to `backend` as [`serialize`]
/// does, and returns the schema of what was written with the sink. The
/// value is written as a field named `ROOT`.
///
/// The bytes are those that [`serialize`] writes: the schema is kept
/// beside them.
pub fn serialize_with_schema<F: WriteNoStd>(ty: &TypeDesc, v: &Value, backend: F) -> (res: Result<
    (Schema, F),
    Error,
>)
    requires
        ty.wf(),
        conforms(v@, ty@),
        backend.inv(),
    ensures
        match res {
            Ok((schema, sink)) => {
                &&& sink.inv()
                &&& sink.written() == backend.written() + encode(ty@, v@, 0)
                &&& schema@ == trace_field("ROOT"@, ty@, v@, Trace::empty(), 0).rows
            },
            Err(e) => {
                &&& e == Error::IoError
                &&& (encode(ty@, v@, 0).len() > backend.room() || encode(ty@, v@, 0).len()
                    > usize::MAX)
            },
        },
{
    let writer = SchemaWriter::new(WriteWithPos::new(backend));
    match add_field(writer, "ROOT", ty, v) {
        Ok(writer) => {
            proof {
                writer.lemma_writer_took();
                writer.writer().lemma_backend_holds_stream();
                assert(writer.written() =~= encode(ty@, v@, 0));
            }
            let (schema, inner) = writer.into_parts();
            Ok((schema, inner.into_inner()))
        },
        Err(e) => Err(e),
    }
}

} // verus!
