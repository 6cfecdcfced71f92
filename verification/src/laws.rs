//! What holds of writing and reading together: a value that was written is
//! read back as it was.
use crate::align::{
    align_up, is_aligned, lemma_aligned_step, lemma_aligned_to_smaller, lemma_pad_is_minimal,
    lemma_pad_of_aligned, spec_pad_align_to, zeros,
};
use crate::decode::{
    decode, decode_eps, decode_eps_fields, decode_eps_seq, decode_fields, decode_image,
    decode_image_fields, decode_image_seq, decode_len, decode_seq, resolve, resolve_fields,
    resolve_seq, EpsModel,
};
use crate::deser::decode_full;
use crate::eps::{decode_eps_view, lemma_address_aligned};
use crate::error::Error;
use crate::layout::{
    encode, encode_fields, encode_len, encode_seq, image, image_fields, image_seq,
    lemma_image_fields_len, lemma_image_len, lemma_image_seq_len,
};
use crate::prim::{
    le_bytes, lemma_le_bytes_len, lemma_le_value_of_bytes, lemma_pow256_values,
    lemma_prim_of_raw_of_prim, lemma_prim_raw_bound,
};
use crate::types::{
    align_of, classify, field_offset, is_zero, lemma_align_of_is_alignment, lemma_size_is_aligned,
    size_of, Classification, FieldModel, TypeModel,
};
use crate::value::{conforms, ValueModel};
use vstd::prelude::*;
use vstd::utf8::encode_utf8;

verus! {

/// Whether `bytes` stand in `data` from the position `pos` on.
pub open spec fn holds_at(data: Seq<u8>, pos: nat, bytes: Seq<u8>) -> bool {
    &&& pos + bytes.len() <= data.len()
    &&& data.subrange(pos as int, (pos + bytes.len()) as int) == bytes
}

/// Where two runs of bytes stand one after the other, each of them stands
/// at its place.
pub proof fn lemma_holds_split(data: Seq<u8>, pos: nat, first: Seq<u8>, second: Seq<u8>)
    requires
        holds_at(data, pos, first + second),
    ensures
        holds_at(data, pos, first),
        holds_at(data, pos + first.len(), second),
{
    let all = first + second;
    let window = data.subrange(pos as int, (pos + all.len()) as int);
    assert(data.subrange(pos as int, (pos + first.len()) as int) =~= window.subrange(
        0,
        first.len() as int,
    ));
    assert(window.subrange(0, first.len() as int) =~= first);
    assert(data.subrange((pos + first.len()) as int, (pos + first.len() + second.len()) as int)
        =~= window.subrange(first.len() as int, all.len() as int));
    assert(window.subrange(first.len() as int, all.len() as int) =~= second);
}

/// The image of a value of a `Zero` type is read back as the value.
pub proof fn lemma_image_round_trip(ty: TypeModel, v: ValueModel)
    requires
        is_zero(ty),
        conforms(v, ty),
    ensures
        decode_image(ty, image(ty, v)) == Ok::<ValueModel, Error>(v),
    decreases ty, 0nat, 0nat,
{
    match ty {
        TypeModel::Prim(kind) => {
            let p = v->Prim_0;
            lemma_prim_raw_bound(p);
            lemma_le_value_of_bytes(p.raw(), kind.spec_size());
            lemma_prim_of_raw_of_prim(p);
        },
        TypeModel::Array(elem, n) => {
            let vals = v->Array_0;
            let img = image(ty, v);
            assert(img.subrange(0, img.len() as int) =~= img);
            lemma_image_seq_round_trip(*elem, vals, img, n);
            assert(vals.take(n as int) =~= vals);
        },
        TypeModel::Record { name, zero_copy, fields } => {
            let vals = v->Record_0;
            let img = image(ty, v);
            let body = image_fields(fields, vals, fields.len());
            assert(img.subrange(0, body.len() as int) =~= body);
            lemma_image_fields_round_trip(fields, vals, img, fields.len());
            assert(vals.take(fields.len() as int) =~= vals);
        },
        _ => {},
    }
}

/// The images of values of a `Zero` type, one after the other at the start
/// of `img`, are read back as the values.
pub proof fn lemma_image_seq_round_trip(ty: TypeModel, vals: Seq<ValueModel>, img: Seq<u8>, n: nat)
    requires
        is_zero(ty),
        n <= vals.len(),
        forall|i: int| 0 <= i < n ==> conforms(#[trigger] vals[i], ty),
        holds_at(img, 0, image_seq(ty, vals, n)),
    ensures
        decode_image_seq(ty, img, n) == Ok::<Seq<ValueModel>, Error>(vals.take(n as int)),
    decreases ty, 1nat, n,
{
    if n == 0 {
        assert(vals.take(0) =~= Seq::<ValueModel>::empty());
    } else {
        let init = image_seq(ty, vals, (n - 1) as nat);
        let last = image(ty, vals[n - 1]);
        lemma_holds_split(img, 0, init, last);
        lemma_image_seq_len(ty, vals, (n - 1) as nat);
        lemma_image_len(ty, vals[n - 1]);
        lemma_image_seq_round_trip(ty, vals, img, (n - 1) as nat);
        lemma_image_round_trip(ty, vals[n - 1]);
        assert(n * size_of(ty) == (n - 1) * size_of(ty) + size_of(ty)) by (nonlinear_arith)
            requires
                n > 0,
        ;
        assert(img.subrange(((n - 1) * size_of(ty)) as int, (n * size_of(ty)) as int) == last);
        assert(vals.take(n as int) =~= vals.take(n - 1).push(vals[n - 1]));
    }
}

/// The images of the fields of a `Zero` record, each at its offset from
/// the start of `img`, are read back as the values of the fields.
pub proof fn lemma_image_fields_round_trip(
    fields: Seq<FieldModel>,
    vals: Seq<ValueModel>,
    img: Seq<u8>,
    n: nat,
)
    requires
        n <= fields.len() == vals.len(),
        forall|i: int| 0 <= i < n ==> is_zero((#[trigger] fields[i]).ty),
        forall|i: int| 0 <= i < n ==> conforms(#[trigger] vals[i], fields[i].ty),
        holds_at(img, 0, image_fields(fields, vals, n)),
    ensures
        decode_image_fields(fields, img, n) == Ok::<Seq<ValueModel>, Error>(vals.take(n as int)),
    decreases fields, n, 0nat,
{
    if n == 0 {
        assert(vals.take(0) =~= Seq::<ValueModel>::empty());
    } else {
        let field = fields[n - 1].ty;
        let init = image_fields(fields, vals, (n - 1) as nat);
        let gap = zeros(spec_pad_align_to(init.len(), align_of(field)));
        let last = image(field, vals[n - 1]);
        assert(is_zero(field));
        lemma_holds_split(img, 0, init + gap, last);
        lemma_holds_split(img, 0, init, gap);
        lemma_image_fields_len(fields, vals, (n - 1) as nat);
        lemma_image_len(field, vals[n - 1]);
        lemma_image_fields_round_trip(fields, vals, img, (n - 1) as nat);
        lemma_image_round_trip(field, vals[n - 1]);
        let start = field_offset(fields, (n - 1) as nat);
        assert(start == init.len() + gap.len());
        assert(img.subrange(start as int, (start + size_of(field)) as int) == last);
        assert(vals.take(n as int) =~= vals.take(n - 1).push(vals[n - 1]));
    }
}

/// A length that was written is read back.
pub proof fn lemma_len_round_trip(data: Seq<u8>, pos: nat, n: nat)
    requires
        n <= usize::MAX,
        holds_at(data, pos, encode_len(n, pos)),
    ensures
        decode_len(data, pos) == Ok::<(nat, nat), Error>((n, pos + encode_len(n, pos).len())),
        encode_len(n, pos).len() == spec_pad_align_to(pos, 8) + 8,
{
    let gap = zeros(spec_pad_align_to(pos, 8));
    lemma_holds_split(data, pos, gap, le_bytes(n, 8));
    lemma_le_bytes_len(n, 8);
    lemma_pow256_values();
    lemma_le_value_of_bytes(n, 8);
}

/// A value that was written at a position is read back from the position,
/// whatever stands before and after it, and reading ends where the bytes of
/// the value end.
pub proof fn lemma_round_trip_at(ty: TypeModel, v: ValueModel, data: Seq<u8>, pos: nat)
    requires
        conforms(v, ty),
        holds_at(data, pos, encode(ty, v, pos)),
    ensures
        decode(ty, data, pos) == Ok::<(ValueModel, nat), Error>(
            (v, pos + encode(ty, v, pos).len()),
        ),
    decreases ty, 0nat, 0nat,
{
    if is_zero(ty) {
        let gap = zeros(spec_pad_align_to(pos, align_of(ty)));
        lemma_holds_split(data, pos, gap, image(ty, v));
        lemma_image_len(ty, v);
        lemma_image_round_trip(ty, v);
    } else {
        match ty {
            TypeModel::Optional(inner) => {
                match v {
                    ValueModel::Optional(Some(x)) => {
                        lemma_holds_split(data, pos, seq![1u8], encode(*inner, *x, pos + 1));
                        assert(data.subrange(pos as int, (pos + 1) as int)[0] == 1u8);
                        lemma_round_trip_at(*inner, *x, data, pos + 1);
                    },
                    _ => {
                        assert(data.subrange(pos as int, (pos + 1) as int)[0] == 0u8);
                    },
                }
            },
            TypeModel::Array(elem, n) => {
                let vals = v->Array_0;
                lemma_seq_round_trip_at(*elem, vals, data, pos, n);
                assert(vals.take(n as int) =~= vals);
            },
            TypeModel::Sequence(elem) => {
                let vals = v->Sequence_0;
                let n = vals.len();
                let head = encode_len(n, pos);
                let after = pos + head.len();
                if is_zero(*elem) {
                    let gap = zeros(spec_pad_align_to(after, align_of(*elem)));
                    let block = image_seq(*elem, vals, n);
                    lemma_holds_split(data, pos, head + gap, block);
                    lemma_holds_split(data, pos, head, gap);
                    lemma_len_round_trip(data, pos, n);
                    lemma_image_seq_len(*elem, vals, n);
                    let start = align_up(after, align_of(*elem));
                    let end = start + n * size_of(*elem);
                    let window = data.subrange(start as int, end as int);
                    assert(window.subrange(0, block.len() as int) =~= window);
                    lemma_image_seq_round_trip(*elem, vals, window, n);
                    assert(vals.take(n as int) =~= vals);
                } else {
                    lemma_holds_split(data, pos, head, encode_seq(*elem, vals, n, after));
                    lemma_len_round_trip(data, pos, n);
                    lemma_seq_round_trip_at(*elem, vals, data, after, n);
                    assert(vals.take(n as int) =~= vals);
                }
            },
            TypeModel::Text => {
                let chars = v->Text_0;
                let text = encode_utf8(chars);
                lemma_holds_split(data, pos, encode_len(text.len(), pos), text);
                lemma_len_round_trip(data, pos, text.len());
                vstd::utf8::encode_utf8_valid_utf8(chars);
                vstd::utf8::encode_utf8_decode_utf8(chars);
            },
            TypeModel::Record { name, zero_copy, fields } => {
                let vals = v->Record_0;
                lemma_fields_round_trip_at(fields, vals, data, pos, fields.len());
                assert(vals.take(fields.len() as int) =~= vals);
            },
            _ => {},
        }
    }
}

/// Values that were written one after the other are read back one after the
/// other.
pub proof fn lemma_seq_round_trip_at(
    ty: TypeModel,
    vals: Seq<ValueModel>,
    data: Seq<u8>,
    pos: nat,
    n: nat,
)
    requires
        n <= vals.len(),
        forall|i: int| 0 <= i < n ==> conforms(#[trigger] vals[i], ty),
        holds_at(data, pos, encode_seq(ty, vals, n, pos)),
    ensures
        decode_seq(ty, data, pos, n) == Ok::<(Seq<ValueModel>, nat), Error>(
            (vals.take(n as int), pos + encode_seq(ty, vals, n, pos).len()),
        ),
    decreases ty, 1nat, n,
{
    if n == 0 {
        assert(vals.take(0) =~= Seq::<ValueModel>::empty());
    } else {
        let init = encode_seq(ty, vals, (n - 1) as nat, pos);
        let last = encode(ty, vals[n - 1], pos + init.len());
        lemma_holds_split(data, pos, init, last);
        lemma_seq_round_trip_at(ty, vals, data, pos, (n - 1) as nat);
        lemma_round_trip_at(ty, vals[n - 1], data, pos + init.len());
        assert(vals.take(n as int) =~= vals.take(n - 1).push(vals[n - 1]));
    }
}

/// The values of fields that were written one after the other are read back
/// one after the other.
pub proof fn lemma_fields_round_trip_at(
    fields: Seq<FieldModel>,
    vals: Seq<ValueModel>,
    data: Seq<u8>,
    pos: nat,
    n: nat,
)
    requires
        n <= fields.len() == vals.len(),
        forall|i: int| 0 <= i < n ==> conforms(#[trigger] vals[i], fields[i].ty),
        holds_at(data, pos, encode_fields(fields, vals, n, pos)),
    ensures
        decode_fields(fields, data, pos, n) == Ok::<(Seq<ValueModel>, nat), Error>(
            (vals.take(n as int), pos + encode_fields(fields, vals, n, pos).len()),
        ),
    decreases fields, n, 0nat,
{
    if n == 0 {
        assert(vals.take(0) =~= Seq::<ValueModel>::empty());
    } else {
        let init = encode_fields(fields, vals, (n - 1) as nat, pos);
        let last = encode(fields[n - 1].ty, vals[n - 1], pos + init.len());
        lemma_holds_split(data, pos, init, last);
        lemma_fields_round_trip_at(fields, vals, data, pos, (n - 1) as nat);
        lemma_round_trip_at(fields[n - 1].ty, vals[n - 1], data, pos + init.len());
        assert(vals.take(n as int) =~= vals.take(n - 1).push(vals[n - 1]));
    }
}

/// Reading in full what was written gives the value that was written, and
/// takes exactly the bytes that were written.
pub proof fn lemma_full_round_trip(ty: TypeModel, v: ValueModel)
    requires
        conforms(v, ty),
    ensures
        decode(ty, encode(ty, v, 0), 0) == Ok::<(ValueModel, nat), Error>(
            (v, encode(ty, v, 0).len()),
        ),
        decode_full(ty, encode(ty, v, 0)) == Ok::<ValueModel, Error>(v),
{
    let bytes = encode(ty, v, 0);
    assert(bytes.subrange(0, bytes.len() as int) =~= bytes);
    lemma_round_trip_at(ty, v, bytes, 0);
}

/// A block at a multiple of its alignment from the first byte of a buffer
/// whose address is a multiple of 16 has an aligned address.
pub proof fn lemma_aligned_in_buffer(addr: nat, pos: nat, ty: TypeModel)
    requires
        is_aligned(addr, 16),
    ensures
        is_aligned(addr + align_up(pos, align_of(ty)), align_of(ty)),
        is_aligned(addr + align_up(pos, 8), 8),
{
    lemma_align_of_is_alignment(ty);
    lemma_aligned_to_smaller(addr, 16, align_of(ty));
    lemma_address_aligned(addr, pos, align_of(ty));
    lemma_aligned_to_smaller(addr, 16, 8);
    lemma_address_aligned(addr, pos, 8);
}

/// What the first views stand for does not depend on the views after them.
pub proof fn lemma_resolve_seq_of_prefix(
    views: Seq<EpsModel>,
    more: Seq<EpsModel>,
    ty: TypeModel,
    data: Seq<u8>,
    n: nat,
)
    requires
        n <= views.len() <= more.len(),
        forall|i: int| 0 <= i < n ==> views[i] == more[i],
    ensures
        resolve_seq(more, ty, data, n) == resolve_seq(views, ty, data, n),
    decreases n,
{
    if n > 0 {
        lemma_resolve_seq_of_prefix(views, more, ty, data, (n - 1) as nat);
    }
}

/// What the views of the first fields stand for does not depend on the
/// views after them.
pub proof fn lemma_resolve_fields_of_prefix(
    views: Seq<EpsModel>,
    more: Seq<EpsModel>,
    fields: Seq<FieldModel>,
    data: Seq<u8>,
    n: nat,
)
    requires
        n <= views.len() <= more.len(),
        forall|i: int| 0 <= i < n ==> views[i] == more[i],
    ensures
        resolve_fields(more, fields, data, n) == resolve_fields(views, fields, data, n),
    decreases n,
{
    if n > 0 {
        lemma_resolve_fields_of_prefix(views, more, fields, data, (n - 1) as nat);
    }
}

/// Where a value can be read in full from a buffer whose address is a
/// multiple of 16, a view of it can be read, reading the view ends where
/// reading the value ends, and the view stands for the value.
pub proof fn lemma_eps_agrees(ty: TypeModel, data: Seq<u8>, addr: nat, pos: nat)
    requires
        is_aligned(addr, 16),
        decode(ty, data, pos) is Ok,
    ensures
        decode_eps(ty, data, addr, pos) is Ok,
        decode_eps(ty, data, addr, pos).unwrap().1 == decode(ty, data, pos).unwrap().1,
        resolve(decode_eps(ty, data, addr, pos).unwrap().0, ty, data) == Ok::<ValueModel, Error>(
            decode(ty, data, pos).unwrap().0,
        ),
    decreases ty, 0nat, 0nat,
{
    lemma_aligned_in_buffer(addr, pos, ty);
    match classify(ty) {
        Classification::Zero => {},
        Classification::Deep => {},
        Classification::Shell => {
            match ty {
                TypeModel::Optional(inner) => {
                    if data[pos as int] == 1 {
                        lemma_eps_agrees(*inner, data, addr, pos + 1);
                    }
                },
                TypeModel::Array(elem, n) => {
                    lemma_eps_seq_agrees(*elem, data, addr, pos, n);
                },
                TypeModel::Sequence(elem) => {
                    let (n, after) = decode_len(data, pos).unwrap();
                    if is_zero(*elem) {
                        lemma_aligned_in_buffer(addr, after, *elem);
                    } else {
                        lemma_eps_seq_agrees(*elem, data, addr, after, n);
                    }
                },
                TypeModel::Record { name, zero_copy, fields } => {
                    lemma_eps_fields_agrees(fields, data, addr, pos, fields.len());
                },
                _ => {},
            }
        },
    }
}

/// Where values can be read in full one after the other, views of them can
/// be read, and the views stand for the values.
pub proof fn lemma_eps_seq_agrees(ty: TypeModel, data: Seq<u8>, addr: nat, pos: nat, n: nat)
    requires
        is_aligned(addr, 16),
        decode_seq(ty, data, pos, n) is Ok,
    ensures
        decode_eps_seq(ty, data, addr, pos, n) is Ok,
        decode_eps_seq(ty, data, addr, pos, n).unwrap().1 == decode_seq(ty, data, pos, n).unwrap().1,
        decode_eps_seq(ty, data, addr, pos, n).unwrap().0.len() == n,
        resolve_seq(decode_eps_seq(ty, data, addr, pos, n).unwrap().0, ty, data, n) == Ok::<
            Seq<ValueModel>,
            Error,
        >(decode_seq(ty, data, pos, n).unwrap().0),
    decreases ty, 1nat, n,
{
    if n > 0 {
        lemma_eps_seq_agrees(ty, data, addr, pos, (n - 1) as nat);
        let mid = decode_seq(ty, data, pos, (n - 1) as nat).unwrap().1;
        lemma_eps_agrees(ty, data, addr, mid);
        let views = decode_eps_seq(ty, data, addr, pos, (n - 1) as nat).unwrap().0;
        let all = decode_eps_seq(ty, data, addr, pos, n).unwrap().0;
        lemma_resolve_seq_of_prefix(views, all, ty, data, (n - 1) as nat);
    }
}

/// Where the values of fields can be read in full one after the other,
/// views of them can be read, and the views stand for the values.
pub proof fn lemma_eps_fields_agrees(
    fields: Seq<FieldModel>,
    data: Seq<u8>,
    addr: nat,
    pos: nat,
    n: nat,
)
    requires
        is_aligned(addr, 16),
        n <= fields.len(),
        decode_fields(fields, data, pos, n) is Ok,
    ensures
        decode_eps_fields(fields, data, addr, pos, n) is Ok,
        decode_eps_fields(fields, data, addr, pos, n).unwrap().1 == decode_fields(
            fields,
            data,
            pos,
            n,
        ).unwrap().1,
        decode_eps_fields(fields, data, addr, pos, n).unwrap().0.len() == n,
        resolve_fields(decode_eps_fields(fields, data, addr, pos, n).unwrap().0, fields, data, n)
            == Ok::<Seq<ValueModel>, Error>(decode_fields(fields, data, pos, n).unwrap().0),
    decreases fields, n, 0nat,
{
    if n > 0 {
        lemma_eps_fields_agrees(fields, data, addr, pos, (n - 1) as nat);
        let mid = decode_fields(fields, data, pos, (n - 1) as nat).unwrap().1;
        lemma_eps_agrees(fields[n - 1].ty, data, addr, mid);
        let views = decode_eps_fields(fields, data, addr, pos, (n - 1) as nat).unwrap().0;
        let all = decode_eps_fields(fields, data, addr, pos, n).unwrap().0;
        lemma_resolve_fields_of_prefix(views, all, fields, data, (n - 1) as nat);
    }
}

/// Reading a view of what was written, from a buffer whose address is a
/// multiple of 16, succeeds and takes exactly the bytes that were written,
/// and the view stands for the value that was written.
pub proof fn lemma_eps_round_trip(ty: TypeModel, v: ValueModel, addr: nat)
    requires
        conforms(v, ty),
        is_aligned(addr, 16),
    ensures
        decode_eps(ty, encode(ty, v, 0), addr, 0) is Ok,
        decode_eps(ty, encode(ty, v, 0), addr, 0).unwrap().1 == encode(ty, v, 0).len(),
        resolve(decode_eps(ty, encode(ty, v, 0), addr, 0).unwrap().0, ty, encode(ty, v, 0))
            == Ok::<ValueModel, Error>(v),
        decode_eps_view(ty, encode(ty, v, 0), addr) is Ok,
        resolve(decode_eps_view(ty, encode(ty, v, 0), addr).unwrap(), ty, encode(ty, v, 0))
            == Ok::<ValueModel, Error>(v),
{
    lemma_full_round_trip(ty, v);
    lemma_eps_agrees(ty, encode(ty, v, 0), addr, 0);
}

/// The view of a value of a `Zero` type refers to the buffer in place: to
/// as many bytes as the type takes, which lie within the buffer at or after
/// the position, at an address that is a multiple of the type's alignment.
pub proof fn lemma_zero_copy_is_in_place(ty: TypeModel, data: Seq<u8>, addr: nat, pos: nat)
    requires
        is_zero(ty),
        decode_eps(ty, data, addr, pos) is Ok,
    ensures
        decode_eps(ty, data, addr, pos).unwrap().0 matches EpsModel::Ref { offset, len } && {
            &&& len == size_of(ty)
            &&& pos <= offset
            &&& offset + len <= data.len()
            &&& is_aligned(addr + offset, align_of(ty))
            &&& decode_eps(ty, data, addr, pos).unwrap().1 == offset + len
        },
{
}

/// The view of a sequence of values of a `Zero` type that was written
/// refers to the elements in place, as one block: the bytes that it refers
/// to are the images of the elements, one after the other, and no view is
/// made of any single element.
pub proof fn lemma_slice_is_in_place(elem: TypeModel, vals: Seq<ValueModel>, addr: nat)
    requires
        is_zero(elem),
        conforms(ValueModel::Sequence(vals), TypeModel::Sequence(Box::new(elem))),
        is_aligned(addr, 16),
    ensures
        ({
            let ty = TypeModel::Sequence(Box::new(elem));
            let data = encode(ty, ValueModel::Sequence(vals), 0);
            decode_eps(ty, data, addr, 0) matches Ok((EpsModel::Slice { offset, count }, next))
                && {
                &&& count == vals.len()
                &&& next == data.len()
                &&& offset + count * size_of(elem) == data.len()
                &&& is_aligned(addr + offset, align_of(elem))
                &&& data.subrange(offset as int, data.len() as int) == image_seq(
                    elem,
                    vals,
                    vals.len(),
                )
            }
        }),
{
    let ty = TypeModel::Sequence(Box::new(elem));
    let v = ValueModel::Sequence(vals);
    let data = encode(ty, v, 0);
    let n = vals.len();
    let head = encode_len(n, 0);
    let gap = zeros(spec_pad_align_to(head.len(), align_of(elem)));
    let block = image_seq(elem, vals, n);
    assert(data.subrange(0, data.len() as int) =~= data);
    lemma_holds_split(data, 0, head + gap, block);
    lemma_holds_split(data, 0, head, gap);
    lemma_len_round_trip(data, 0, n);
    lemma_image_seq_len(elem, vals, n);
    lemma_aligned_in_buffer(addr, 0, elem);
    lemma_aligned_in_buffer(addr, head.len(), elem);
}

/// A value of a `Zero` type is written as the least run of zero bytes that
/// reaches a multiple of the type's alignment, then its image, which
/// begins at that multiple: the bytes written are as many as the padding
/// and the size of the type together.
pub proof fn lemma_zero_value_is_padded(ty: TypeModel, v: ValueModel, pos: nat)
    requires
        is_zero(ty),
        conforms(v, ty),
    ensures
        encode(ty, v, pos) == zeros(spec_pad_align_to(pos, align_of(ty))) + image(ty, v),
        encode(ty, v, pos).len() == spec_pad_align_to(pos, align_of(ty)) + size_of(ty),
        spec_pad_align_to(pos, align_of(ty)) < align_of(ty),
        is_aligned(pos + spec_pad_align_to(pos, align_of(ty)), align_of(ty)),
        forall|q: nat|
            pos <= q < pos + spec_pad_align_to(pos, align_of(ty)) ==> !#[trigger] is_aligned(
                q,
                align_of(ty),
            ),
{
    lemma_align_of_is_alignment(ty);
    lemma_pad_is_minimal(pos, align_of(ty));
    lemma_image_len(ty, v);
}

/// After a value of a `Zero` type, a value of a `Zero` type whose alignment
/// is no larger is written without padding: the two take the padding
/// before the first and their two sizes.
pub proof fn lemma_no_padding_between(
    first: TypeModel,
    v: ValueModel,
    second: TypeModel,
    w: ValueModel,
    pos: nat,
)
    requires
        is_zero(first),
        is_zero(second),
        conforms(v, first),
        conforms(w, second),
        align_of(second) <= align_of(first),
    ensures
        encode(second, w, pos + encode(first, v, pos).len()) == image(second, w),
        encode(first, v, pos).len() + encode(second, w, pos + encode(first, v, pos).len()).len()
            == spec_pad_align_to(pos, align_of(first)) + size_of(first) + size_of(second),
{
    lemma_zero_value_is_padded(first, v, pos);
    lemma_align_of_is_alignment(first);
    lemma_align_of_is_alignment(second);
    lemma_size_is_aligned(first);
    let start = pos + spec_pad_align_to(pos, align_of(first));
    let end = start + size_of(first);
    lemma_aligned_step(start, size_of(first), align_of(first));
    lemma_aligned_to_smaller(end, align_of(first), align_of(second));
    lemma_pad_of_aligned(end, align_of(second));
    lemma_image_len(second, w);
    assert(zeros(0) + image(second, w) =~= image(second, w));
}

/// The tag of an optional value decides in both modes: 0 stands for no
/// value, 1 for the value that follows, and any other tag is refused with
/// `InvalidTag`.
pub proof fn lemma_tag_decides(inner: TypeModel, data: Seq<u8>, addr: nat, pos: nat)
    requires
        pos < data.len(),
    ensures
        ({
            let ty = TypeModel::Optional(Box::new(inner));
            let tag = data[pos as int];
            &&& tag == 0 ==> decode(ty, data, pos) == Ok::<(ValueModel, nat), Error>(
                (ValueModel::Optional(None), pos + 1),
            ) && decode_eps(ty, data, addr, pos) == Ok::<(EpsModel, nat), Error>(
                (EpsModel::Optional(None), pos + 1),
            )
            &&& tag == 1 ==> decode(ty, data, pos) == (match decode(inner, data, pos + 1) {
                Ok((v, next)) => Ok::<(ValueModel, nat), Error>(
                    (ValueModel::Optional(Some(Box::new(v))), next),
                ),
                Err(e) => Err(e),
            }) && decode_eps(ty, data, addr, pos) == (match decode_eps(inner, data, addr, pos + 1) {
                Ok((view, next)) => Ok::<(EpsModel, nat), Error>(
                    (EpsModel::Optional(Some(Box::new(view))), next),
                ),
                Err(e) => Err(e),
            })
            &&& tag > 1 ==> decode(ty, data, pos) == Err::<(ValueModel, nat), Error>(
                Error::InvalidTag(tag),
            ) && decode_eps(ty, data, addr, pos) == Err::<(EpsModel, nat), Error>(
                Error::InvalidTag(tag),
            )
        }),
{
}

/// The view of a value of a `Deep` type refers to nothing: it holds the
/// value that reading in full gives.
pub proof fn lemma_deep_is_owned(ty: TypeModel, data: Seq<u8>, addr: nat, pos: nat)
    requires
        classify(ty) == Classification::Deep,
    ensures
        decode_eps(ty, data, addr, pos) == (match decode(ty, data, pos) {
            Ok((v, next)) => Ok::<(EpsModel, nat), Error>((EpsModel::Owned(v), next)),
            Err(e) => Err(e),
        }),
{
}

/// Reading an image never fails for want of alignment.
pub proof fn lemma_image_never_misaligned(ty: TypeModel, img: Seq<u8>)
    ensures
        decode_image(ty, img) != Err::<ValueModel, Error>(Error::AlignmentError),
    decreases ty, 0nat, 0nat,
{
    match ty {
        TypeModel::Array(elem, n) => {
            lemma_image_seq_never_misaligned(*elem, img, n);
        },
        TypeModel::Record { name, zero_copy, fields } => {
            lemma_image_fields_never_misaligned(fields, img, fields.len());
        },
        _ => {},
    }
}

/// Reading images one after the other never fails for want of alignment.
pub proof fn lemma_image_seq_never_misaligned(ty: TypeModel, img: Seq<u8>, n: nat)
    ensures
        decode_image_seq(ty, img, n) != Err::<Seq<ValueModel>, Error>(Error::AlignmentError),
    decreases ty, 1nat, n,
{
    if n > 0 {
        lemma_image_seq_never_misaligned(ty, img, (n - 1) as nat);
        lemma_image_never_misaligned(
            ty,
            img.subrange(((n - 1) * size_of(ty)) as int, (n * size_of(ty)) as int),
        );
    }
}

/// Reading the images of fields never fails for want of alignment.
pub proof fn lemma_image_fields_never_misaligned(fields: Seq<FieldModel>, img: Seq<u8>, n: nat)
    ensures
        decode_image_fields(fields, img, n) != Err::<Seq<ValueModel>, Error>(
            Error::AlignmentError,
        ),
    decreases fields, n, 0nat,
{
    if n > 0 && n <= fields.len() {
        lemma_image_fields_never_misaligned(fields, img, (n - 1) as nat);
        let start = field_offset(fields, (n - 1) as nat);
        lemma_image_never_misaligned(
            fields[n - 1].ty,
            img.subrange(start as int, (start + size_of(fields[n - 1].ty)) as int),
        );
    }
}

/// Reading in full never fails for want of alignment: what is read is
/// copied, wherever it stands.
pub proof fn lemma_full_never_misaligned(ty: TypeModel, data: Seq<u8>, pos: nat)
    ensures
        decode(ty, data, pos) != Err::<(ValueModel, nat), Error>(Error::AlignmentError),
    decreases ty, 0nat, 0nat,
{
    if is_zero(ty) {
        let start = align_up(pos, align_of(ty));
        lemma_image_never_misaligned(
            ty,
            data.subrange(start as int, (start + size_of(ty)) as int),
        );
    } else {
        match ty {
            TypeModel::Optional(inner) => {
                lemma_full_never_misaligned(*inner, data, pos + 1);
            },
            TypeModel::Array(elem, n) => {
                lemma_seq_never_misaligned(*elem, data, pos, n);
            },
            TypeModel::Sequence(elem) => {
                if decode_len(data, pos) is Ok {
                    let (n, after) = decode_len(data, pos).unwrap();
                    if is_zero(*elem) {
                        let start = align_up(after, align_of(*elem));
                        let end = start + n * size_of(*elem);
                        lemma_image_seq_never_misaligned(
                            *elem,
                            data.subrange(start as int, end as int),
                            n,
                        );
                    } else {
                        lemma_seq_never_misaligned(*elem, data, after, n);
                    }
                }
            },
            TypeModel::Record { name, zero_copy, fields } => {
                lemma_fields_never_misaligned(fields, data, pos, fields.len());
            },
            _ => {},
        }
    }
}

/// Reading values in full one after the other never fails for want of
/// alignment.
pub proof fn lemma_seq_never_misaligned(ty: TypeModel, data: Seq<u8>, pos: nat, n: nat)
    ensures
        decode_seq(ty, data, pos, n) != Err::<(Seq<ValueModel>, nat), Error>(
            Error::AlignmentError,
        ),
    decreases ty, 1nat, n,
{
    if n > 0 {
        lemma_seq_never_misaligned(ty, data, pos, (n - 1) as nat);
        if decode_seq(ty, data, pos, (n - 1) as nat) is Ok {
            lemma_full_never_misaligned(
                ty,
                data,
                decode_seq(ty, data, pos, (n - 1) as nat).unwrap().1,
            );
        }
    }
}

/// Reading the values of fields in full one after the other never fails
/// for want of alignment.
pub proof fn lemma_fields_never_misaligned(
    fields: Seq<FieldModel>,
    data: Seq<u8>,
    pos: nat,
    n: nat,
)
    ensures
        decode_fields(fields, data, pos, n) != Err::<(Seq<ValueModel>, nat), Error>(
            Error::AlignmentError,
        ),
    decreases fields, n, 0nat,
{
    if n > 0 && n <= fields.len() {
        lemma_fields_never_misaligned(fields, data, pos, (n - 1) as nat);
        if decode_fields(fields, data, pos, (n - 1) as nat) is Ok {
            lemma_full_never_misaligned(
                fields[n - 1].ty,
                data,
                decode_fields(fields, data, pos, (n - 1) as nat).unwrap().1,
            );
        }
    }
}

/// The value that an image is read as belongs to the type.
pub proof fn lemma_image_read_conforms(ty: TypeModel, img: Seq<u8>)
    requires
        is_zero(ty),
        decode_image(ty, img) is Ok,
    ensures
        conforms(decode_image(ty, img).unwrap(), ty),
    decreases ty, 0nat, 0nat,
{
    match ty {
        TypeModel::Array(elem, n) => {
            lemma_image_seq_read_conforms(*elem, img, n);
        },
        TypeModel::Record { name, zero_copy, fields } => {
            lemma_image_fields_read_conforms(fields, img, fields.len());
        },
        _ => {},
    }
}

/// The values that images are read as, one after the other, belong to the
/// type, and there are as many as were asked for.
pub proof fn lemma_image_seq_read_conforms(ty: TypeModel, img: Seq<u8>, n: nat)
    requires
        is_zero(ty),
        decode_image_seq(ty, img, n) is Ok,
    ensures
        decode_image_seq(ty, img, n).unwrap().len() == n,
        forall|i: int|
            0 <= i < n ==> conforms(#[trigger] decode_image_seq(ty, img, n).unwrap()[i], ty),
    decreases ty, 1nat, n,
{
    if n > 0 {
        lemma_image_seq_read_conforms(ty, img, (n - 1) as nat);
        lemma_image_read_conforms(
            ty,
            img.subrange(((n - 1) * size_of(ty)) as int, (n * size_of(ty)) as int),
        );
    }
}

/// The values that the images of fields are read as belong to the types of
/// the fields.
pub proof fn lemma_image_fields_read_conforms(fields: Seq<FieldModel>, img: Seq<u8>, n: nat)
    requires
        n <= fields.len(),
        forall|i: int| 0 <= i < n ==> is_zero((#[trigger] fields[i]).ty),
        decode_image_fields(fields, img, n) is Ok,
    ensures
        decode_image_fields(fields, img, n).unwrap().len() == n,
        forall|i: int|
            0 <= i < n ==> conforms(
                #[trigger] decode_image_fields(fields, img, n).unwrap()[i],
                fields[i].ty,
            ),
    decreases fields, n, 0nat,
{
    if n > 0 {
        lemma_image_fields_read_conforms(fields, img, (n - 1) as nat);
        let start = field_offset(fields, (n - 1) as nat);
        assert(is_zero(fields[n - 1].ty));
        lemma_image_read_conforms(
            fields[n - 1].ty,
            img.subrange(start as int, (start + size_of(fields[n - 1].ty)) as int),
        );
    }
}

/// The value that is read in full belongs to the type that it was read as.
pub proof fn lemma_read_conforms(ty: TypeModel, data: Seq<u8>, pos: nat)
    requires
        decode(ty, data, pos) is Ok,
    ensures
        conforms(decode(ty, data, pos).unwrap().0, ty),
    decreases ty, 0nat, 0nat,
{
    if is_zero(ty) {
        let start = align_up(pos, align_of(ty));
        lemma_image_read_conforms(ty, data.subrange(start as int, (start + size_of(ty)) as int));
    } else {
        match ty {
            TypeModel::Optional(inner) => {
                if data[pos as int] == 1 {
                    lemma_read_conforms(*inner, data, pos + 1);
                }
            },
            TypeModel::Array(elem, n) => {
                lemma_seq_read_conforms(*elem, data, pos, n);
            },
            TypeModel::Sequence(elem) => {
                let (n, after) = decode_len(data, pos).unwrap();
                if is_zero(*elem) {
                    let start = align_up(after, align_of(*elem));
                    let end = start + n * size_of(*elem);
                    lemma_image_seq_read_conforms(*elem, data.subrange(start as int, end as int), n);
                } else {
                    lemma_seq_read_conforms(*elem, data, after, n);
                }
            },
            TypeModel::Text => {
                let (n, after) = decode_len(data, pos).unwrap();
                let bytes = data.subrange(after as int, (after + n) as int);
                vstd::utf8::decode_utf8_encode_utf8(bytes);
            },
            TypeModel::Record { name, zero_copy, fields } => {
                lemma_fields_read_conforms(fields, data, pos, fields.len());
            },
            _ => {},
        }
    }
}

/// The values that are read in full one after the other belong to the type,
/// and there are as many as were asked for.
pub proof fn lemma_seq_read_conforms(ty: TypeModel, data: Seq<u8>, pos: nat, n: nat)
    requires
        decode_seq(ty, data, pos, n) is Ok,
    ensures
        decode_seq(ty, data, pos, n).unwrap().0.len() == n,
        forall|i: int|
            0 <= i < n ==> conforms(#[trigger] decode_seq(ty, data, pos, n).unwrap().0[i], ty),
    decreases ty, 1nat, n,
{
    if n > 0 {
        lemma_seq_read_conforms(ty, data, pos, (n - 1) as nat);
        lemma_read_conforms(ty, data, decode_seq(ty, data, pos, (n - 1) as nat).unwrap().1);
    }
}

/// The values of fields that are read in full one after the other belong
/// to the types of the fields.
pub proof fn lemma_fields_read_conforms(fields: Seq<FieldModel>, data: Seq<u8>, pos: nat, n: nat)
    requires
        n <= fields.len(),
        decode_fields(fields, data, pos, n) is Ok,
    ensures
        decode_fields(fields, data, pos, n).unwrap().0.len() == n,
        forall|i: int|
            0 <= i < n ==> conforms(
                #[trigger] decode_fields(fields, data, pos, n).unwrap().0[i],
                fields[i].ty,
            ),
    decreases fields, n, 0nat,
{
    if n > 0 {
        lemma_fields_read_conforms(fields, data, pos, (n - 1) as nat);
        lemma_read_conforms(
            fields[n - 1].ty,
            data,
            decode_fields(fields, data, pos, (n - 1) as nat).unwrap().1,
        );
    }
}

} // verus!
