//! The full-copy deserializer: it builds every value anew from the bytes of
//! a stream.
use crate::align::{align_up, lemma_pad_is_minimal, pad_align_to};
use crate::decode::{
    decode, decode_fields, decode_image, decode_image_fields, decode_image_seq, decode_len,
    decode_seq,
};
use crate::error::Error;
use crate::fingerprint::{fingerprint, spec_fingerprint};
use crate::prim::{lemma_le_value_bound, lemma_pow256_values, prim_from_raw, read_le};
use crate::types::{
    align_of, field_offset, fields_align, fields_end, fields_model, is_zero,
    lemma_align_of_is_alignment, lemma_fields_align_is_alignment, lemma_fields_end_monotonic,
    lemma_inner, lemma_record_fields, size_of, Classification, Field, FieldModel, TypeDesc,
    TypeModel, TypeNode,
};
use crate::value::{lemma_values_model_push, values_model, Value, ValueModel};
use vstd::prelude::*;
use vstd::slice::{slice_subrange, slice_to_vec};
use vstd::utf8::{decode_utf8, valid_utf8};

verus! {

/// Whether a value that was read, or the failure to read one, is what was
/// to be read.
pub open spec fn read_as(res: Result<Value, Error>, want: Result<ValueModel, Error>) -> bool {
    match res {
        Ok(v) => want == Ok::<ValueModel, Error>(v@),
        Err(e) => want == Err::<ValueModel, Error>(e),
    }
}

/// Whether the values that were read, or the failure to read them, are what
/// was to be read.
pub open spec fn read_all_as(res: Result<Vec<Value>, Error>, want: Result<Seq<ValueModel>, Error>) -> bool {
    match res {
        Ok(vals) => want == Ok::<Seq<ValueModel>, Error>(values_model(vals@)),
        Err(e) => want == Err::<Seq<ValueModel>, Error>(e),
    }
}

/// Whether a value that was read with the position after it, or the failure
/// to read one, is what was to be read.
pub open spec fn read_at(res: Result<(Value, usize), Error>, want: Result<(ValueModel, nat), Error>) -> bool {
    match res {
        Ok((v, next)) => want == Ok::<(ValueModel, nat), Error>((v@, next as nat)),
        Err(e) => want == Err::<(ValueModel, nat), Error>(e),
    }
}

/// Whether the values that were read with the position after them, or the
/// failure to read them, are what was to be read.
pub open spec fn read_all_at(
    res: Result<(Vec<Value>, usize), Error>,
    want: Result<(Seq<ValueModel>, nat), Error>,
) -> bool {
    match res {
        Ok((vals, next)) => want == Ok::<(Seq<ValueModel>, nat), Error>(
            (values_model(vals@), next as nat),
        ),
        Err(e) => want == Err::<(Seq<ValueModel>, nat), Error>(e),
    }
}

/// Once an image has failed to be read, reading more images fails alike.
pub proof fn lemma_decode_image_seq_fails(ty: TypeModel, img: Seq<u8>, i: nat, n: nat)
    requires
        i <= n,
        decode_image_seq(ty, img, i) is Err,
    ensures
        decode_image_seq(ty, img, n) == decode_image_seq(ty, img, i),
    decreases n,
{
    if i < n {
        lemma_decode_image_seq_fails(ty, img, i, (n - 1) as nat);
    }
}

/// Once the image of a field has failed to be read, reading more fields
/// fails alike.
pub proof fn lemma_decode_image_fields_fails(fields: Seq<FieldModel>, img: Seq<u8>, i: nat, n: nat)
    requires
        i <= n <= fields.len(),
        decode_image_fields(fields, img, i) is Err,
    ensures
        decode_image_fields(fields, img, n) == decode_image_fields(fields, img, i),
    decreases n,
{
    if i < n {
        lemma_decode_image_fields_fails(fields, img, i, (n - 1) as nat);
    }
}

/// Once a value has failed to be read, reading more values fails alike.
pub proof fn lemma_decode_seq_fails(ty: TypeModel, data: Seq<u8>, pos: nat, i: nat, n: nat)
    requires
        i <= n,
        decode_seq(ty, data, pos, i) is Err,
    ensures
        decode_seq(ty, data, pos, n) == decode_seq(ty, data, pos, i),
    decreases n,
{
    if i < n {
        lemma_decode_seq_fails(ty, data, pos, i, (n - 1) as nat);
    }
}

/// Once a field has failed to be read, reading more fields fails alike.
pub proof fn lemma_decode_fields_fails(
    fields: Seq<FieldModel>,
    data: Seq<u8>,
    pos: nat,
    i: nat,
    n: nat,
)
    requires
        i <= n <= fields.len(),
        decode_fields(fields, data, pos, i) is Err,
    ensures
        decode_fields(fields, data, pos, n) == decode_fields(fields, data, pos, i),
    decreases n,
{
    if i < n {
        lemma_decode_fields_fails(fields, data, pos, i, (n - 1) as nat);
    }
}

/// Where a block of `size` bytes starts that is aligned to `align` at or
/// after the position `pos`, if it ends within `len` bytes.
pub fn locate(pos: usize, align: usize, size: usize, len: usize) -> (start: Option<usize>)
    requires
        align > 0,
    ensures
        start is Some <==> align_up(pos as nat, align as nat) + size <= len,
        start matches Some(s) ==> s == align_up(pos as nat, align as nat),
{
    let pad = pad_align_to(pos, align);
    match pos.checked_add(pad) {
        Some(start) => match start.checked_add(size) {
            Some(end) => if end <= len {
                Some(start)
            } else {
                None
            },
            None => None,
        },
        None => None,
    }
}

/// Reads the value of a `Zero` type whose image starts at `start`.
pub fn read_image(ty: &TypeDesc, data: &[u8], start: usize) -> (res: Result<Value, Error>)
    requires
        ty.wf(),
        is_zero(ty@),
        start + size_of(ty@) <= data@.len(),
    ensures
        read_as(res, decode_image(ty@, data@.subrange(start as int, start + size_of(ty@)))),
    decreases ty,
{
    let ghost img = data@.subrange(start as int, start + size_of(ty@));
    let data_len = data.len();
    match &ty.node {
        TypeNode::Unit => Ok(Value::Unit),
        TypeNode::Phantom(_) => Ok(Value::Phantom),
        TypeNode::Prim(kind) => {
            proof {
                lemma_le_value_bound(img);
                lemma_pow256_values();
            }
            let raw = read_le(data, start, kind.size());
            match prim_from_raw(*kind, raw) {
                Some(p) => Ok(Value::Prim(p)),
                None => Err(Error::InvalidValue),
            }
        },
        TypeNode::Array(elem, n) => {
            proof {
                lemma_inner(*ty);
            }
            let size = elem.size;
            let mut vals: Vec<Value> = Vec::new();
            let mut k: usize = 0;
            let mut off: usize = start;
            assert(values_model(vals@) =~= Seq::<ValueModel>::empty());
            while k < *n
                invariant
                    k <= *n,
                    data@.len() == data_len,
                    decreases_to!(ty => elem),
                    ty@ == TypeModel::Array(Box::new(elem@), *n as nat),
                    is_zero(ty@),
                    size_of(ty@) == *n * size,
                    elem.wf(),
                    is_zero(elem@),
                    size == size_of(elem@),
                    start + *n * size <= data@.len(),
                    img == data@.subrange(start as int, start + *n * size),
                    off == start + k * size,
                    decode_image_seq(elem@, img, k as nat) == Ok::<Seq<ValueModel>, Error>(
                        values_model(vals@),
                    ),
                decreases *n - k,
            {
                proof {
                    assert((k + 1) * size <= *n * size) by (nonlinear_arith)
                        requires
                            k < *n,
                    ;
                    assert((k + 1) * size == k * size + size) by (nonlinear_arith);
                    assert(img.subrange((k * size) as int, ((k + 1) * size) as int)
                        =~= data@.subrange(off as int, off + size));
                }
                match read_image(elem, data, off) {
                    Ok(v) => {
                        proof {
                            lemma_values_model_push(vals@, v);
                        }
                        vals.push(v);
                    },
                    Err(e) => {
                        proof {
                            assert(decode_image_seq(elem@, img, (k + 1) as nat) == Err::<
                                Seq<ValueModel>,
                                Error,
                            >(e));
                            lemma_decode_image_seq_fails(elem@, img, (k + 1) as nat, *n as nat);
                        }
                        return Err(e);
                    },
                }
                off = off + size;
                k = k + 1;
            }
            Ok(Value::Array(vals))
        },
        TypeNode::Record { name, zero_copy, fields } => {
            let ghost fm = fields_model(fields@);
            let len = fields.len();
            proof {
                lemma_record_fields(*ty);
                lemma_fields_align_is_alignment(fm, len as nat);
                lemma_pad_is_minimal(fields_end(fm, len as nat), fields_align(fm, len as nat));
            }
            let mut vals: Vec<Value> = Vec::new();
            let mut end: usize = 0;
            let mut i: usize = 0;
            assert(values_model(vals@) =~= Seq::<ValueModel>::empty());
            while i < len
                invariant
                    i <= len == fields@.len(),
                    data@.len() == data_len,
                    decreases_to!(ty => fields),
                    ty@ == (TypeModel::Record { name: name@, zero_copy: *zero_copy, fields: fm }),
                    is_zero(ty@),
                    fm == fields_model(fields@),
                    forall|j: int| 0 <= j < fields@.len() ==> (#[trigger] fields@[j]).ty.wf(),
                    forall|j: int| 0 <= j < fm.len() ==> is_zero((#[trigger] fm[j]).ty),
                    fields_end(fm, len as nat) <= size_of(ty@),
                    start + size_of(ty@) <= data@.len(),
                    img == data@.subrange(start as int, start + size_of(ty@)),
                    end == fields_end(fm, i as nat),
                    decode_image_fields(fm, img, i as nat) == Ok::<Seq<ValueModel>, Error>(
                        values_model(vals@),
                    ),
                decreases len - i,
            {
                let field = &fields[i].ty;
                proof {
                    assert(fields@[i as int].ty.wf());
                    assert(fm[i as int].ty == field@);
                    assert(is_zero(fm[i as int].ty));
                    lemma_align_of_is_alignment(field@);
                    lemma_fields_end_monotonic(fm, (i + 1) as nat, len as nat);
                    assert(fields_end(fm, (i + 1) as nat) == field_offset(fm, i as nat) + size_of(
                        field@,
                    ));
                    assert(field_offset(fm, i as nat) == align_up(end as nat, align_of(field@)));
                }
                let pad = pad_align_to(end, field.align);
                let at = end + pad;
                proof {
                    assert(at == field_offset(fm, i as nat));
                    assert(img.subrange(at as int, at + field.size) =~= data@.subrange(
                        start + at,
                        start + at + field.size,
                    ));
                }
                match read_image(field, data, start + at) {
                    Ok(v) => {
                        proof {
                            lemma_values_model_push(vals@, v);
                        }
                        vals.push(v);
                    },
                    Err(e) => {
                        proof {
                            assert(decode_image_fields(fm, img, (i + 1) as nat) == Err::<
                                Seq<ValueModel>,
                                Error,
                            >(e));
                            lemma_decode_image_fields_fails(fm, img, (i + 1) as nat, len as nat);
                        }
                        return Err(e);
                    },
                }
                end = at + field.size;
                i = i + 1;
            }
            Ok(Value::Record(vals))
        },
        _ => Err(Error::InvalidValue),
    }
}

/// Reads the values of a `Zero` type whose images stand one after the other
/// from `start` on.
pub fn read_images(elem: &TypeDesc, data: &[u8], start: usize, n: usize) -> (res: Result<
    Vec<Value>,
    Error,
>)
    requires
        elem.wf(),
        is_zero(elem@),
        start + n * size_of(elem@) <= data@.len(),
    ensures
        read_all_as(
            res,
            decode_image_seq(
                elem@,
                data@.subrange(start as int, start + n * size_of(elem@)),
                n as nat,
            ),
        ),
{
    let ghost img = data@.subrange(start as int, start + n * size_of(elem@));
    let size = elem.size;
    let data_len = data.len();
    let mut vals: Vec<Value> = Vec::new();
    let mut k: usize = 0;
    let mut off: usize = start;
    assert(values_model(vals@) =~= Seq::<ValueModel>::empty());
    while k < n
        invariant
            k <= n,
            data@.len() == data_len,
            elem.wf(),
            is_zero(elem@),
            size == size_of(elem@),
            start + n * size <= data@.len(),
            img == data@.subrange(start as int, start + n * size),
            off == start + k * size,
            decode_image_seq(elem@, img, k as nat) == Ok::<Seq<ValueModel>, Error>(
                values_model(vals@),
            ),
        decreases n - k,
    {
        proof {
            assert((k + 1) * size <= n * size) by (nonlinear_arith)
                requires
                    k < n,
            ;
            assert((k + 1) * size == k * size + size) by (nonlinear_arith);
            assert(img.subrange((k * size) as int, ((k + 1) * size) as int) =~= data@.subrange(
                off as int,
                off + size,
            ));
        }
        match read_image(elem, data, off) {
            Ok(v) => {
                proof {
                    lemma_values_model_push(vals@, v);
                }
                vals.push(v);
            },
            Err(e) => {
                proof {
                    assert(decode_image_seq(elem@, img, (k + 1) as nat) == Err::<
                        Seq<ValueModel>,
                        Error,
                    >(e));
                    lemma_decode_image_seq_fails(elem@, img, (k + 1) as nat, n as nat);
                }
                return Err(e);
            },
        }
        off = off + size;
        k = k + 1;
    }
    Ok(vals)
}

/// Reads the length that stands at the position `pos`, after padding to a
/// multiple of eight.
pub fn read_len(data: &[u8], pos: usize) -> (res: Result<(usize, usize), Error>)
    ensures
        match res {
            Ok((n, next)) => decode_len(data@, pos as nat) == Ok::<(nat, nat), Error>(
                (n as nat, next as nat),
            ),
            Err(e) => decode_len(data@, pos as nat) == Err::<(nat, nat), Error>(e),
        },
{
    match locate(pos, 8, 8, data.len()) {
        Some(start) => {
            proof {
                lemma_le_value_bound(data@.subrange(start as int, start + 8));
                lemma_pow256_values();
            }
            let raw = read_le(data, start, 8);
            if raw > usize::MAX as u128 {
                Err(Error::InvalidValue)
            } else {
                Ok((raw as usize, start + 8))
            }
        },
        None => Err(Error::UnexpectedEnd),
    }
}

/// `String::from_utf8` of the standard library: the text whose bytes in
/// UTF-8 are `bytes`, or nothing where the bytes are not UTF-8.
#[verifier::external_body]
fn text_from_utf8(bytes: Vec<u8>) -> (text: Option<String>)
    ensures
        text is Some <==> valid_utf8(bytes@),
        text matches Some(s) ==> s@ == decode_utf8(bytes@),
{
    match String::from_utf8(bytes) {
        Ok(s) => Some(s),
        Err(_) => None,
    }
}

/// Reads the value of a `Zero` type that stands at the position `pos`,
/// after padding to the alignment of the type.
pub fn deserialize_full_zero(ty: &TypeDesc, data: &[u8], pos: usize) -> (res: Result<
    (Value, usize),
    Error,
>)
    requires
        ty.wf(),
        is_zero(ty@),
    ensures
        read_at(res, decode(ty@, data@, pos as nat)),
{
    proof {
        lemma_align_of_is_alignment(ty@);
    }
    match locate(pos, ty.align, ty.size, data.len()) {
        Some(start) => match read_image(ty, data, start) {
            Ok(v) => Ok((v, start + ty.size)),
            Err(e) => Err(e),
        },
        None => Err(Error::UnexpectedEnd),
    }
}

/// Reads the text that stands at the position `pos`: its length in bytes,
/// then its bytes in UTF-8.
pub fn deserialize_full_text(data: &[u8], pos: usize) -> (res: Result<(Value, usize), Error>)
    ensures
        read_at(res, decode(TypeModel::Text, data@, pos as nat)),
{
    let (n, after) = match read_len(data, pos) {
        Ok(found) => found,
        Err(e) => {
            return Err(e);
        },
    };
    if n > data.len() - after {
        return Err(Error::UnexpectedEnd);
    }
    let bytes = slice_to_vec(slice_subrange(data, after, after + n));
    match text_from_utf8(bytes) {
        Some(text) => Ok((Value::Text(text), after + n)),
        None => Err(Error::InvalidValue),
    }
}

/// Reads the sequence of values of the type `elem` that stands at the
/// position `pos`: its length, then its elements, from one aligned block of
/// images where the elements are `Zero`, and one after the other where they
/// are not.
pub fn deserialize_full_slice(elem: &TypeDesc, data: &[u8], pos: usize) -> (res: Result<
    (Value, usize),
    Error,
>)
    requires
        elem.wf(),
    ensures
        read_at(res, decode(TypeModel::Sequence(Box::new(elem@)), data@, pos as nat)),
    decreases elem, 2nat,
{
    let data_len = data.len();
    let (n, after) = match read_len(data, pos) {
        Ok(found) => found,
        Err(e) => {
            return Err(e);
        },
    };
    if elem.class == Classification::Zero {
        proof {
            lemma_align_of_is_alignment(elem@);
        }
        let total = match n.checked_mul(elem.size) {
            Some(total) => total,
            None => {
                return Err(Error::UnexpectedEnd);
            },
        };
        match locate(after, elem.align, total, data_len) {
            Some(start) => match read_images(elem, data, start, n) {
                Ok(vals) => Ok((Value::Sequence(vals), start + total)),
                Err(e) => Err(e),
            },
            None => Err(Error::UnexpectedEnd),
        }
    } else {
        match deserialize_full_items(elem, data, after, n) {
            Ok((vals, next)) => Ok((Value::Sequence(vals), next)),
            Err(e) => Err(e),
        }
    }
}

/// Reads the optional value of the type `inner` that stands at the position
/// `pos`: a tag, and after the tag 1 the value.
pub fn deserialize_full_optional(inner: &TypeDesc, data: &[u8], pos: usize) -> (res: Result<
    (Value, usize),
    Error,
>)
    requires
        inner.wf(),
    ensures
        read_at(res, decode(TypeModel::Optional(Box::new(inner@)), data@, pos as nat)),
    decreases inner, 1nat,
{
    if pos >= data.len() {
        return Err(Error::UnexpectedEnd);
    }
    let tag = data[pos];
    if tag == 0 {
        Ok((Value::Optional(None), pos + 1))
    } else if tag == 1 {
        match deserialize_full_copy_inner(inner, data, pos + 1) {
            Ok((v, next)) => Ok((Value::Optional(Some(Box::new(v))), next)),
            Err(e) => Err(e),
        }
    } else {
        Err(Error::InvalidTag(tag))
    }
}

/// Reads the value of the type `ty` that stands at the position `pos`, and
/// builds it anew. Returns the value with the position after it.
pub fn deserialize_full_copy_inner(ty: &TypeDesc, data: &[u8], pos: usize) -> (res: Result<
    (Value, usize),
    Error,
>)
    requires
        ty.wf(),
    ensures
        read_at(res, decode(ty@, data@, pos as nat)),
    decreases ty, 0nat,
{
    proof {
        lemma_inner(*ty);
    }
    if ty.class == Classification::Zero {
        return deserialize_full_zero(ty, data, pos);
    }
    match &ty.node {
        TypeNode::Optional(inner) => deserialize_full_optional(inner, data, pos),
        TypeNode::Array(elem, n) => {
            match deserialize_full_items(elem, data, pos, *n) {
                Ok((vals, next)) => Ok((Value::Array(vals), next)),
                Err(e) => Err(e),
            }
        },
        TypeNode::Sequence(elem) => deserialize_full_slice(elem, data, pos),
        TypeNode::Text => deserialize_full_text(data, pos),
        TypeNode::Record { name, zero_copy, fields } => {
            proof {
                lemma_record_fields(*ty);
            }
            match deserialize_full_fields(fields, data, pos) {
                Ok((vals, next)) => Ok((Value::Record(vals), next)),
                Err(e) => Err(e),
            }
        },
        _ => Err(Error::InvalidValue),
    }
}

/// Reads `n` values of the type `elem` that stand one after the other from
/// the position `pos` on.
pub fn deserialize_full_items(elem: &TypeDesc, data: &[u8], pos: usize, n: usize) -> (res: Result<
    (Vec<Value>, usize),
    Error,
>)
    requires
        elem.wf(),
    ensures
        read_all_at(res, decode_seq(elem@, data@, pos as nat, n as nat)),
    decreases elem, 1nat,
{
    let mut vals: Vec<Value> = Vec::new();
    let mut cur: usize = pos;
    let mut k: usize = 0;
    assert(values_model(vals@) =~= Seq::<ValueModel>::empty());
    while k < n
        invariant
            k <= n,
            elem.wf(),
            decode_seq(elem@, data@, pos as nat, k as nat) == Ok::<(Seq<ValueModel>, nat), Error>(
                (values_model(vals@), cur as nat),
            ),
        decreases n - k,
    {
        match deserialize_full_copy_inner(elem, data, cur) {
            Ok((v, next)) => {
                proof {
                    lemma_values_model_push(vals@, v);
                }
                vals.push(v);
                cur = next;
            },
            Err(e) => {
                proof {
                    lemma_decode_seq_fails(elem@, data@, pos as nat, (k + 1) as nat, n as nat);
                }
                return Err(e);
            },
        }
        k = k + 1;
    }
    Ok((vals, cur))
}

/// Reads the values of the fields of a record that stand one after the
/// other from the position `pos` on.
pub fn deserialize_full_fields(fields: &Vec<Field>, data: &[u8], pos: usize) -> (res: Result<
    (Vec<Value>, usize),
    Error,
>)
    requires
        forall|j: int| 0 <= j < fields@.len() ==> (#[trigger] fields@[j]).ty.wf(),
    ensures
        read_all_at(
            res,
            decode_fields(fields_model(fields@), data@, pos as nat, fields@.len()),
        ),
    decreases fields, 0nat,
{
    let ghost fm = fields_model(fields@);
    let n = fields.len();
    let mut vals: Vec<Value> = Vec::new();
    let mut cur: usize = pos;
    let mut k: usize = 0;
    assert(values_model(vals@) =~= Seq::<ValueModel>::empty());
    while k < n
        invariant
            k <= n == fields@.len(),
            fm == fields_model(fields@),
            forall|j: int| 0 <= j < fields@.len() ==> (#[trigger] fields@[j]).ty.wf(),
            decode_fields(fm, data@, pos as nat, k as nat) == Ok::<(Seq<ValueModel>, nat), Error>(
                (values_model(vals@), cur as nat),
            ),
        decreases n - k,
    {
        proof {
            assert(fields@[k as int].ty.wf());
            assert(fm[k as int].ty == fields@[k as int].ty@);
        }
        match deserialize_full_copy_inner(&fields[k].ty, data, cur) {
            Ok((v, next)) => {
                proof {
                    lemma_values_model_push(vals@, v);
                }
                vals.push(v);
                cur = next;
            },
            Err(e) => {
                proof {
                    lemma_decode_fields_fails(fm, data@, pos as nat, (k + 1) as nat, n as nat);
                }
                return Err(e);
            },
        }
        k = k + 1;
    }
    Ok((vals, cur))
}

/// What reading a value of the type `ty` in full from the start of `data`
/// gives.
pub open spec fn decode_full(ty: TypeModel, data: Seq<u8>) -> Result<ValueModel, Error> {
    match decode(ty, data, 0) {
        Ok((v, next)) => Ok(v),
        Err(e) => Err(e),
    }
}

/// Reads a value of the type `ty` from the start of `data`, and builds it
/// anew: nothing in the value refers to `data`.
///
/// `recorded` is the fingerprint of the type that the stream was written
/// as. Where it is not the fingerprint of `ty`, nothing is read and the
/// call fails with `FingerprintMismatch`. Otherwise the call gives what
/// [`decode`] gives at position 0.
pub fn deserialize_full(ty: &TypeDesc, recorded: u64, data: &[u8]) -> (res: Result<Value, Error>)
    requires
        ty.wf(),
    ensures
        recorded != spec_fingerprint(ty@) ==> res == Err::<Value, Error>(
            Error::FingerprintMismatch { expected: spec_fingerprint(ty@), found: recorded },
        ),
        recorded == spec_fingerprint(ty@) ==> read_as(res, decode_full(ty@, data@)),
{
    let expected = fingerprint(ty);
    if recorded != expected {
        return Err(Error::FingerprintMismatch { expected, found: recorded });
    }
    match deserialize_full_copy_inner(ty, data, 0) {
        Ok((v, _)) => Ok(v),
        Err(e) => Err(e),
    }
}

} // verus!
