//! What reading a stream gives: the value that the bytes at a position
//! stand for, or the failure that reading them ends in.
use crate::align::{align_up, is_aligned};
use crate::error::Error;
use crate::prim::{le_value, prim_of_raw};
use crate::types::{
    align_of, classify, field_offset, is_zero, size_of, Classification, FieldModel, TypeModel,
};
use crate::value::ValueModel;
use vstd::prelude::*;
use vstd::utf8::{decode_utf8, valid_utf8};

verus! {

/// The value of a `Zero` type whose image is `img`, where there is one.
pub open spec fn decode_image(ty: TypeModel, img: Seq<u8>) -> Result<ValueModel, Error>
    decreases ty, 0nat, 0nat,
{
    match ty {
        TypeModel::Unit => Ok(ValueModel::Unit),
        TypeModel::Phantom(_) => Ok(ValueModel::Phantom),
        TypeModel::Prim(kind) => match prim_of_raw(kind, le_value(img)) {
            Some(p) => Ok(ValueModel::Prim(p)),
            None => Err(Error::InvalidValue),
        },
        TypeModel::Array(elem, n) => match decode_image_seq(*elem, img, n) {
            Ok(vals) => Ok(ValueModel::Array(vals)),
            Err(e) => Err(e),
        },
        TypeModel::Record { name, zero_copy, fields } => match decode_image_fields(
            fields,
            img,
            fields.len(),
        ) {
            Ok(vals) => Ok(ValueModel::Record(vals)),
            Err(e) => Err(e),
        },
        _ => Err(Error::InvalidValue),
    }
}

/// The `n` values of a `Zero` type whose images stand one after the other
/// at the start of `img`, or the failure of the first that has none.
pub open spec fn decode_image_seq(ty: TypeModel, img: Seq<u8>, n: nat) -> Result<
    Seq<ValueModel>,
    Error,
>
    decreases ty, 1nat, n,
{
    if n == 0 {
        Ok(Seq::empty())
    } else {
        match decode_image_seq(ty, img, (n - 1) as nat) {
            Ok(vals) => match decode_image(
                ty,
                img.subrange(((n - 1) * size_of(ty)) as int, (n * size_of(ty)) as int),
            ) {
                Ok(v) => Ok(vals.push(v)),
                Err(e) => Err(e),
            },
            Err(e) => Err(e),
        }
    }
}

/// The values of the first `n` fields of a `Zero` record whose image is
/// `img`, or the failure of the first that has none.
pub open spec fn decode_image_fields(fields: Seq<FieldModel>, img: Seq<u8>, n: nat) -> Result<
    Seq<ValueModel>,
    Error,
>
    decreases fields, n, 0nat,
{
    if n == 0 || n > fields.len() {
        Ok(Seq::empty())
    } else {
        match decode_image_fields(fields, img, (n - 1) as nat) {
            Ok(vals) => {
                let start = field_offset(fields, (n - 1) as nat);
                match decode_image(
                    fields[n - 1].ty,
                    img.subrange(start as int, (start + size_of(fields[n - 1].ty)) as int),
                ) {
                    Ok(v) => Ok(vals.push(v)),
                    Err(e) => Err(e),
                }
            },
            Err(e) => Err(e),
        }
    }
}

/// The length that stands at the position `pos`, after padding to a
/// multiple of eight, and the position after it.
pub open spec fn decode_len(data: Seq<u8>, pos: nat) -> Result<(nat, nat), Error> {
    let start = align_up(pos, 8);
    if start + 8 > data.len() {
        Err(Error::UnexpectedEnd)
    } else {
        let raw = le_value(data.subrange(start as int, (start + 8) as int));
        if raw > usize::MAX {
            Err(Error::InvalidValue)
        } else {
            Ok((raw, start + 8))
        }
    }
}

/// The value of the type `ty` that stands at the position `pos` of `data`,
/// built anew, and the position after it; or the failure that reading it
/// ends in.
///
/// The bytes are read as [`crate::layout::encode`] writes them. Reading
/// fails with `UnexpectedEnd` where the data end before the value does, with
/// `InvalidTag` where the tag of an optional value is neither 0 nor 1, and
/// with `InvalidValue` where bytes are no image of a value.
pub open spec fn decode(ty: TypeModel, data: Seq<u8>, pos: nat) -> Result<(ValueModel, nat), Error>
    decreases ty, 0nat, 0nat,
{
    if is_zero(ty) {
        let start = align_up(pos, align_of(ty));
        if start + size_of(ty) > data.len() {
            Err(Error::UnexpectedEnd)
        } else {
            match decode_image(ty, data.subrange(start as int, (start + size_of(ty)) as int)) {
                Ok(v) => Ok((v, start + size_of(ty))),
                Err(e) => Err(e),
            }
        }
    } else {
        match ty {
            TypeModel::Optional(inner) => {
                if pos >= data.len() {
                    Err(Error::UnexpectedEnd)
                } else if data[pos as int] == 0 {
                    Ok((ValueModel::Optional(None), pos + 1))
                } else if data[pos as int] == 1 {
                    match decode(*inner, data, pos + 1) {
                        Ok((v, next)) => Ok((ValueModel::Optional(Some(Box::new(v))), next)),
                        Err(e) => Err(e),
                    }
                } else {
                    Err(Error::InvalidTag(data[pos as int]))
                }
            },
            TypeModel::Array(elem, n) => match decode_seq(*elem, data, pos, n) {
                Ok((vals, next)) => Ok((ValueModel::Array(vals), next)),
                Err(e) => Err(e),
            },
            TypeModel::Sequence(elem) => match decode_len(data, pos) {
                Ok((n, after)) => {
                    if is_zero(*elem) {
                        let start = align_up(after, align_of(*elem));
                        let end = start + n * size_of(*elem);
                        if end > data.len() {
                            Err(Error::UnexpectedEnd)
                        } else {
                            match decode_image_seq(
                                *elem,
                                data.subrange(start as int, end as int),
                                n,
                            ) {
                                Ok(vals) => Ok((ValueModel::Sequence(vals), end)),
                                Err(e) => Err(e),
                            }
                        }
                    } else {
                        match decode_seq(*elem, data, after, n) {
                            Ok((vals, next)) => Ok((ValueModel::Sequence(vals), next)),
                            Err(e) => Err(e),
                        }
                    }
                },
                Err(e) => Err(e),
            },
            TypeModel::Text => match decode_len(data, pos) {
                Ok((n, after)) => {
                    if after + n > data.len() {
                        Err(Error::UnexpectedEnd)
                    } else {
                        let bytes = data.subrange(after as int, (after + n) as int);
                        if valid_utf8(bytes) {
                            Ok((ValueModel::Text(decode_utf8(bytes)), after + n))
                        } else {
                            Err(Error::InvalidValue)
                        }
                    }
                },
                Err(e) => Err(e),
            },
            TypeModel::Record { name, zero_copy, fields } => match decode_fields(
                fields,
                data,
                pos,
                fields.len(),
            ) {
                Ok((vals, next)) => Ok((ValueModel::Record(vals), next)),
                Err(e) => Err(e),
            },
            _ => Err(Error::InvalidValue),
        }
    }
}

/// The `n` values of the type `ty` that stand one after the other from the
/// position `pos` on, and the position after them; or the failure of the
/// first that cannot be read.
pub open spec fn decode_seq(ty: TypeModel, data: Seq<u8>, pos: nat, n: nat) -> Result<
    (Seq<ValueModel>, nat),
    Error,
>
    decreases ty, 1nat, n,
{
    if n == 0 {
        Ok((Seq::empty(), pos))
    } else {
        match decode_seq(ty, data, pos, (n - 1) as nat) {
            Ok((vals, mid)) => match decode(ty, data, mid) {
                Ok((v, next)) => Ok((vals.push(v), next)),
                Err(e) => Err(e),
            },
            Err(e) => Err(e),
        }
    }
}

/// The values of the first `n` fields of a record that stand one after the
/// other from the position `pos` on, and the position after them; or the
/// failure of the first that cannot be read.
pub open spec fn decode_fields(fields: Seq<FieldModel>, data: Seq<u8>, pos: nat, n: nat) -> Result<
    (Seq<ValueModel>, nat),
    Error,
>
    decreases fields, n, 0nat,
{
    if n == 0 || n > fields.len() {
        Ok((Seq::empty(), pos))
    } else {
        match decode_fields(fields, data, pos, (n - 1) as nat) {
            Ok((vals, mid)) => match decode(fields[n - 1].ty, data, mid) {
                Ok((v, next)) => Ok((vals.push(v), next)),
                Err(e) => Err(e),
            },
            Err(e) => Err(e),
        }
    }
}

/// What a view says: where in the buffer it refers to, and what it holds
/// itself.
pub enum EpsModel {
    /// A value of a `Zero` type in place: `len` bytes from `offset` on.
    Ref { offset: nat, len: nat },
    /// The elements of a sequence of a `Zero` type in place: the images of
    /// `count` elements from `offset` on.
    Slice { offset: nat, count: nat },
    /// An optional value whose value, if there is one, is a view.
    Optional(Option<Box<EpsModel>>),
    /// An array or a sequence whose elements are views.
    Items(Seq<EpsModel>),
    /// A record whose fields are views.
    Record(Seq<EpsModel>),
    /// A value that was built anew.
    Owned(ValueModel),
}

/// The view of the value of the type `ty` that stands at the position `pos`
/// of `data`, where the first byte of `data` has the address `addr`, and the
/// position after the value; or the failure that reading it ends in.
///
/// A value of a `Zero` type is referred to in place. Its address must be
/// a multiple of the alignment of its type: reading fails with
/// `AlignmentError` where it is not. A sequence of elements of a `Zero`
/// type is referred to in place as a whole. A value of a `Deep` type is
/// built anew as [`decode`] says. Of a value of a `Shell` type a shell is
/// built that holds views.
pub open spec fn decode_eps(ty: TypeModel, data: Seq<u8>, addr: nat, pos: nat) -> Result<
    (EpsModel, nat),
    Error,
>
    decreases ty, 0nat, 0nat,
{
    match classify(ty) {
        Classification::Zero => {
            let start = align_up(pos, align_of(ty));
            if !is_aligned(addr + start, align_of(ty)) {
                Err(Error::AlignmentError)
            } else if start + size_of(ty) > data.len() {
                Err(Error::UnexpectedEnd)
            } else {
                Ok((EpsModel::Ref { offset: start, len: size_of(ty) }, start + size_of(ty)))
            }
        },
        Classification::Deep => match decode(ty, data, pos) {
            Ok((v, next)) => Ok((EpsModel::Owned(v), next)),
            Err(e) => Err(e),
        },
        Classification::Shell => match ty {
            TypeModel::Optional(inner) => {
                if pos >= data.len() {
                    Err(Error::UnexpectedEnd)
                } else if data[pos as int] == 0 {
                    Ok((EpsModel::Optional(None), pos + 1))
                } else if data[pos as int] == 1 {
                    match decode_eps(*inner, data, addr, pos + 1) {
                        Ok((v, next)) => Ok((EpsModel::Optional(Some(Box::new(v))), next)),
                        Err(e) => Err(e),
                    }
                } else {
                    Err(Error::InvalidTag(data[pos as int]))
                }
            },
            TypeModel::Array(elem, n) => match decode_eps_seq(*elem, data, addr, pos, n) {
                Ok((views, next)) => Ok((EpsModel::Items(views), next)),
                Err(e) => Err(e),
            },
            TypeModel::Sequence(elem) => match decode_len_eps(data, addr, pos) {
                Ok((n, after)) => {
                    if is_zero(*elem) {
                        let start = align_up(after, align_of(*elem));
                        let end = start + n * size_of(*elem);
                        if !is_aligned(addr + start, align_of(*elem)) {
                            Err(Error::AlignmentError)
                        } else if end > data.len() {
                            Err(Error::UnexpectedEnd)
                        } else {
                            Ok((EpsModel::Slice { offset: start, count: n }, end))
                        }
                    } else {
                        match decode_eps_seq(*elem, data, addr, after, n) {
                            Ok((views, next)) => Ok((EpsModel::Items(views), next)),
                            Err(e) => Err(e),
                        }
                    }
                },
                Err(e) => Err(e),
            },
            TypeModel::Record { name, zero_copy, fields } => match decode_eps_fields(
                fields,
                data,
                addr,
                pos,
                fields.len(),
            ) {
                Ok((views, next)) => Ok((EpsModel::Record(views), next)),
                Err(e) => Err(e),
            },
            _ => Err(Error::InvalidValue),
        },
    }
}

/// The length that stands at the position `pos`, read where it stands: its
/// address must be a multiple of eight.
pub open spec fn decode_len_eps(data: Seq<u8>, addr: nat, pos: nat) -> Result<(nat, nat), Error> {
    if !is_aligned(addr + align_up(pos, 8), 8) {
        Err(Error::AlignmentError)
    } else {
        decode_len(data, pos)
    }
}

/// The views of the `n` values of the type `ty` that stand one after the
/// other from the position `pos` on.
pub open spec fn decode_eps_seq(ty: TypeModel, data: Seq<u8>, addr: nat, pos: nat, n: nat) -> Result<
    (Seq<EpsModel>, nat),
    Error,
>
    decreases ty, 1nat, n,
{
    if n == 0 {
        Ok((Seq::empty(), pos))
    } else {
        match decode_eps_seq(ty, data, addr, pos, (n - 1) as nat) {
            Ok((views, mid)) => match decode_eps(ty, data, addr, mid) {
                Ok((v, next)) => Ok((views.push(v), next)),
                Err(e) => Err(e),
            },
            Err(e) => Err(e),
        }
    }
}

/// The views of the values of the first `n` fields of a record that stand
/// one after the other from the position `pos` on.
pub open spec fn decode_eps_fields(
    fields: Seq<FieldModel>,
    data: Seq<u8>,
    addr: nat,
    pos: nat,
    n: nat,
) -> Result<(Seq<EpsModel>, nat), Error>
    decreases fields, n, 0nat,
{
    if n == 0 || n > fields.len() {
        Ok((Seq::empty(), pos))
    } else {
        match decode_eps_fields(fields, data, addr, pos, (n - 1) as nat) {
            Ok((views, mid)) => match decode_eps(fields[n - 1].ty, data, addr, mid) {
                Ok((v, next)) => Ok((views.push(v), next)),
                Err(e) => Err(e),
            },
            Err(e) => Err(e),
        }
    }
}

/// The value of the type `ty` that the view stands for over `data`: what it
/// refers to is read where it stands, and what it holds is taken as it is.
/// Reading fails with `UnexpectedEnd` where the view refers to bytes beyond
/// the data, and with `InvalidValue` where the view is no view of a value of
/// the type, or refers to bytes that are no image of a value.
pub open spec fn resolve(view: EpsModel, ty: TypeModel, data: Seq<u8>) -> Result<ValueModel, Error>
    decreases ty, 0nat, 0nat,
{
    match view {
        EpsModel::Owned(v) => Ok(v),
        EpsModel::Ref { offset, len } => {
            if !is_zero(ty) || len != size_of(ty) {
                Err(Error::InvalidValue)
            } else if offset + len > data.len() {
                Err(Error::UnexpectedEnd)
            } else {
                decode_image(ty, data.subrange(offset as int, (offset + len) as int))
            }
        },
        EpsModel::Slice { offset, count } => match ty {
            TypeModel::Sequence(elem) => {
                if !is_zero(*elem) {
                    Err(Error::InvalidValue)
                } else if offset + count * size_of(*elem) > data.len() {
                    Err(Error::UnexpectedEnd)
                } else {
                    match decode_image_seq(
                        *elem,
                        data.subrange(offset as int, (offset + count * size_of(*elem)) as int),
                        count,
                    ) {
                        Ok(vals) => Ok(ValueModel::Sequence(vals)),
                        Err(e) => Err(e),
                    }
                }
            },
            _ => Err(Error::InvalidValue),
        },
        EpsModel::Optional(inner_view) => match ty {
            TypeModel::Optional(inner) => match inner_view {
                None => Ok(ValueModel::Optional(None)),
                Some(x) => match resolve(*x, *inner, data) {
                    Ok(v) => Ok(ValueModel::Optional(Some(Box::new(v)))),
                    Err(e) => Err(e),
                },
            },
            _ => Err(Error::InvalidValue),
        },
        EpsModel::Items(views) => match ty {
            TypeModel::Array(elem, n) => {
                if views.len() != n {
                    Err(Error::InvalidValue)
                } else {
                    match resolve_seq(views, *elem, data, views.len()) {
                        Ok(vals) => Ok(ValueModel::Array(vals)),
                        Err(e) => Err(e),
                    }
                }
            },
            TypeModel::Sequence(elem) => match resolve_seq(views, *elem, data, views.len()) {
                Ok(vals) => Ok(ValueModel::Sequence(vals)),
                Err(e) => Err(e),
            },
            _ => Err(Error::InvalidValue),
        },
        EpsModel::Record(views) => match ty {
            TypeModel::Record { name, zero_copy, fields } => {
                if views.len() != fields.len() {
                    Err(Error::InvalidValue)
                } else {
                    match resolve_fields(views, fields, data, views.len()) {
                        Ok(vals) => Ok(ValueModel::Record(vals)),
                        Err(e) => Err(e),
                    }
                }
            },
            _ => Err(Error::InvalidValue),
        },
    }
}

/// The values of the type `ty` that the first `n` of the views stand for.
pub open spec fn resolve_seq(views: Seq<EpsModel>, ty: TypeModel, data: Seq<u8>, n: nat) -> Result<
    Seq<ValueModel>,
    Error,
>
    decreases ty, 1nat, n,
{
    if n == 0 || n > views.len() {
        Ok(Seq::empty())
    } else {
        match resolve_seq(views, ty, data, (n - 1) as nat) {
            Ok(vals) => match resolve(views[n - 1], ty, data) {
                Ok(v) => Ok(vals.push(v)),
                Err(e) => Err(e),
            },
            Err(e) => Err(e),
        }
    }
}

/// The values of the first `n` fields of a record that the first `n` of the
/// views stand for.
pub open spec fn resolve_fields(
    views: Seq<EpsModel>,
    fields: Seq<FieldModel>,
    data: Seq<u8>,
    n: nat,
) -> Result<Seq<ValueModel>, Error>
    decreases fields, n, 0nat,
{
    if n == 0 || n > views.len() || n > fields.len() {
        Ok(Seq::empty())
    } else {
        match resolve_fields(views, fields, data, (n - 1) as nat) {
            Ok(vals) => match resolve(views[n - 1], fields[n - 1].ty, data) {
                Ok(v) => Ok(vals.push(v)),
                Err(e) => Err(e),
            },
            Err(e) => Err(e),
        }
    }
}

} // verus!
