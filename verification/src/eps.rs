//! The eps-copy deserializer: it refers to the values of `Zero` types where
//! they stand in the buffer, and builds anew only what holds them.
use crate::align::{align_up, is_aligned, is_alignment, lemma_pad_is_minimal};
use crate::decode::{
    decode_eps, decode_eps_fields, decode_eps_seq, resolve, resolve_fields, resolve_seq, EpsModel,
};
use crate::deser::{
    deserialize_full_copy_inner, locate, read_all_as, read_as, read_image, read_images, read_len,
};
use crate::error::Error;
use crate::fingerprint::{fingerprint, spec_fingerprint};
use crate::types::{
    fields_model, is_zero, lemma_align_of_is_alignment, lemma_inner, lemma_record_fields,
    Classification, Field, FieldModel, TypeDesc, TypeModel, TypeNode,
};
use crate::value::{lemma_values_model_push, values_model, Value, ValueModel};
use vstd::prelude::*;

verus! {

/// What the eps-copy deserializer gives for a value: a reference into the
/// buffer, a shell around views, or a value of its own.
///
/// A view refers to the buffer by offsets. It stands for a value only
/// together with the buffer that it was read from.
#[derive(Debug)]
pub enum EpsView {
    /// A value of a `Zero` type in place: `len` bytes from `offset` on.
    Ref { offset: usize, len: usize },
    /// The elements of a sequence of a `Zero` type in place: the images of
    /// `count` elements from `offset` on.
    Slice { offset: usize, count: usize },
    /// An optional value whose value, if there is one, is a view.
    Optional(Option<Box<EpsView>>),
    /// An array or a sequence whose elements are views.
    Items(Vec<EpsView>),
    /// A record whose fields are views.
    Record(Vec<EpsView>),
    /// A value that was built anew.
    Owned(Value),
}

/// What the views say.
pub open spec fn views_model(views: Seq<EpsView>) -> Seq<EpsModel>
    decreases views,
{
    Seq::new(
        views.len(),
        |i: int|
            if 0 <= i < views.len() {
                eps_model(views[i])
            } else {
                arbitrary()
            },
    )
}

/// What the view says.
pub open spec fn eps_model(view: EpsView) -> EpsModel
    decreases view,
{
    match view {
        EpsView::Ref { offset, len } => EpsModel::Ref { offset: offset as nat, len: len as nat },
        EpsView::Slice { offset, count } => EpsModel::Slice {
            offset: offset as nat,
            count: count as nat,
        },
        EpsView::Optional(None) => EpsModel::Optional(None),
        EpsView::Optional(Some(inner)) => EpsModel::Optional(Some(Box::new(eps_model(*inner)))),
        EpsView::Items(views) => EpsModel::Items(views_model(views@)),
        EpsView::Record(views) => EpsModel::Record(views_model(views@)),
        EpsView::Owned(v) => EpsModel::Owned(v@),
    }
}

impl View for EpsView {
    type V = EpsModel;

    open spec fn view(&self) -> EpsModel {
        eps_model(*self)
    }
}

/// Whether a view that was read with the position after it, or the failure
/// to read one, is what was to be read.
pub open spec fn viewed_at(
    res: Result<(EpsView, usize), Error>,
    want: Result<(EpsModel, nat), Error>,
) -> bool {
    match res {
        Ok((view, next)) => want == Ok::<(EpsModel, nat), Error>((view@, next as nat)),
        Err(e) => want == Err::<(EpsModel, nat), Error>(e),
    }
}

/// Whether the views that were read with the position after them, or the
/// failure to read them, are what was to be read.
pub open spec fn viewed_all_at(
    res: Result<(Vec<EpsView>, usize), Error>,
    want: Result<(Seq<EpsModel>, nat), Error>,
) -> bool {
    match res {
        Ok((views, next)) => want == Ok::<(Seq<EpsModel>, nat), Error>(
            (views_model(views@), next as nat),
        ),
        Err(e) => want == Err::<(Seq<EpsModel>, nat), Error>(e),
    }
}

/// The views after one more was read.
pub proof fn lemma_views_model_push(views: Seq<EpsView>, view: EpsView)
    ensures
        views_model(views.push(view)) == views_model(views).push(view@),
{
    assert(views_model(views.push(view)) =~= views_model(views).push(view@));
}

/// Once a view has failed to be read, reading more views fails alike.
pub proof fn lemma_decode_eps_seq_fails(
    ty: TypeModel,
    data: Seq<u8>,
    addr: nat,
    pos: nat,
    i: nat,
    n: nat,
)
    requires
        i <= n,
        decode_eps_seq(ty, data, addr, pos, i) is Err,
    ensures
        decode_eps_seq(ty, data, addr, pos, n) == decode_eps_seq(ty, data, addr, pos, i),
    decreases n,
{
    if i < n {
        lemma_decode_eps_seq_fails(ty, data, addr, pos, i, (n - 1) as nat);
    }
}

/// Once the view of a field has failed to be read, reading more fields
/// fails alike.
pub proof fn lemma_decode_eps_fields_fails(
    fields: Seq<FieldModel>,
    data: Seq<u8>,
    addr: nat,
    pos: nat,
    i: nat,
    n: nat,
)
    requires
        i <= n <= fields.len(),
        decode_eps_fields(fields, data, addr, pos, i) is Err,
    ensures
        decode_eps_fields(fields, data, addr, pos, n) == decode_eps_fields(
            fields,
            data,
            addr,
            pos,
            i,
        ),
    decreases n,
{
    if i < n {
        lemma_decode_eps_fields_fails(fields, data, addr, pos, i, (n - 1) as nat);
    }
}

/// Once a view has failed to stand for a value, more views fail alike.
pub proof fn lemma_resolve_seq_fails(
    views: Seq<EpsModel>,
    ty: TypeModel,
    data: Seq<u8>,
    i: nat,
    n: nat,
)
    requires
        i <= n <= views.len(),
        resolve_seq(views, ty, data, i) is Err,
    ensures
        resolve_seq(views, ty, data, n) == resolve_seq(views, ty, data, i),
    decreases n,
{
    if i < n {
        lemma_resolve_seq_fails(views, ty, data, i, (n - 1) as nat);
    }
}

/// Once the view of a field has failed to stand for a value, more fields
/// fail alike.
pub proof fn lemma_resolve_fields_fails(
    views: Seq<EpsModel>,
    fields: Seq<FieldModel>,
    data: Seq<u8>,
    i: nat,
    n: nat,
)
    requires
        i <= n <= views.len(),
        n <= fields.len(),
        resolve_fields(views, fields, data, i) is Err,
    ensures
        resolve_fields(views, fields, data, n) == resolve_fields(views, fields, data, i),
    decreases n,
{
    if i < n {
        lemma_resolve_fields_fails(views, fields, data, i, (n - 1) as nat);
    }
}

/// A block that starts at a multiple of its alignment from the first byte
/// of the buffer has an aligned address exactly where the buffer has one.
pub proof fn lemma_address_aligned(addr: nat, pos: nat, align: nat)
    requires
        is_alignment(align),
    ensures
        is_aligned(addr + align_up(pos, align), align) <==> is_aligned(addr, align),
{
    let start = align_up(pos, align);
    lemma_pad_is_minimal(pos, align);
    vstd::arithmetic::div_mod::lemma_add_mod_noop(addr as int, start as int, align as int);
    vstd::arithmetic::div_mod::lemma_mod_twice(addr as int, align as int);
    vstd::arithmetic::div_mod::lemma_small_mod(addr % align, align);
}

/// Whether the address `addr` is a multiple of `align`.
pub fn address_is_aligned(addr: usize, pos: usize, align: usize) -> (ok: bool)
    requires
        is_alignment(align as nat),
    ensures
        ok == is_aligned(addr as nat + align_up(pos as nat, align as nat), align as nat),
{
    proof {
        lemma_address_aligned(addr as nat, pos as nat, align as nat);
    }
    addr % align == 0
}

/// Refers to the value of a `Zero` type that stands at the position `pos`,
/// after padding to the alignment of the type.
pub fn deserialize_eps_zero(ty: &TypeDesc, data: &[u8], addr: usize, pos: usize) -> (res: Result<
    (EpsView, usize),
    Error,
>)
    requires
        ty.wf(),
        is_zero(ty@),
    ensures
        viewed_at(res, decode_eps(ty@, data@, addr as nat, pos as nat)),
{
    proof {
        lemma_align_of_is_alignment(ty@);
    }
    if !address_is_aligned(addr, pos, ty.align) {
        return Err(Error::AlignmentError);
    }
    match locate(pos, ty.align, ty.size, data.len()) {
        Some(start) => Ok((EpsView::Ref { offset: start, len: ty.size }, start + ty.size)),
        None => Err(Error::UnexpectedEnd),
    }
}

/// Reads the sequence of values of the type `elem` that stands at the
/// position `pos`. Where the elements are `Zero`, the view refers to all of
/// them in place, as one block; where they are not, it holds a view of each.
pub fn deserialize_eps_slice(elem: &TypeDesc, data: &[u8], addr: usize, pos: usize) -> (res:
    Result<(EpsView, usize), Error>)
    requires
        elem.wf(),
    ensures
        viewed_at(
            res,
            decode_eps(TypeModel::Sequence(Box::new(elem@)), data@, addr as nat, pos as nat),
        ),
    decreases elem, 2nat,
{
    let data_len = data.len();
    if !address_is_aligned(addr, pos, 8) {
        return Err(Error::AlignmentError);
    }
    let (n, after) = match read_len(data, pos) {
        Ok(found) => found,
        Err(e) => {
            return Err(e);
        },
    };
    if elem.class == Classification::Zero {
        proof {
            lemma_align_of_is_alignment(elem@);
        }
        if !address_is_aligned(addr, after, elem.align) {
            return Err(Error::AlignmentError);
        }
        let total = match n.checked_mul(elem.size) {
            Some(total) => total,
            None => {
                return Err(Error::UnexpectedEnd);
            },
        };
        match locate(after, elem.align, total, data_len) {
            Some(start) => Ok((EpsView::Slice { offset: start, count: n }, start + total)),
            None => Err(Error::UnexpectedEnd),
        }
    } else {
        match deserialize_eps_items(elem, data, addr, after, n) {
            Ok((views, next)) => Ok((EpsView::Items(views), next)),
            Err(e) => Err(e),
        }
    }
}

/// Reads the optional value of the type `inner` that stands at the position
/// `pos`: a tag, and after the tag 1 a view of the value.
pub fn deserialize_eps_optional(inner: &TypeDesc, data: &[u8], addr: usize, pos: usize) -> (res:
    Result<(EpsView, usize), Error>)
    requires
        inner.wf(),
    ensures
        viewed_at(
            res,
            decode_eps(TypeModel::Optional(Box::new(inner@)), data@, addr as nat, pos as nat),
        ),
    decreases inner, 1nat,
{
    if pos >= data.len() {
        return Err(Error::UnexpectedEnd);
    }
    let tag = data[pos];
    if tag == 0 {
        Ok((EpsView::Optional(None), pos + 1))
    } else if tag == 1 {
        match deserialize_eps_copy_inner(inner, data, addr, pos + 1) {
            Ok((view, next)) => Ok((EpsView::Optional(Some(Box::new(view))), next)),
            Err(e) => Err(e),
        }
    } else {
        Err(Error::InvalidTag(tag))
    }
}

/// Reads a view of the value of the type `ty` that stands at the position
/// `pos` of `data`, whose first byte has the address `addr`. Returns the
/// view with the position after the value.
///
/// The type's classification decides: a value of a `Zero` type is referred
/// to in place and none of its bytes is copied, a value of a `Deep` type is
/// built anew, and of a value of a `Shell` type a shell is built around the
/// views of its parts.
pub fn deserialize_eps_copy_inner(ty: &TypeDesc, data: &[u8], addr: usize, pos: usize) -> (res:
    Result<(EpsView, usize), Error>)
    requires
        ty.wf(),
    ensures
        viewed_at(res, decode_eps(ty@, data@, addr as nat, pos as nat)),
    decreases ty, 0nat,
{
    proof {
        lemma_inner(*ty);
    }
    match ty.class {
        Classification::Zero => deserialize_eps_zero(ty, data, addr, pos),
        Classification::Deep => match deserialize_full_copy_inner(ty, data, pos) {
            Ok((v, next)) => Ok((EpsView::Owned(v), next)),
            Err(e) => Err(e),
        },
        Classification::Shell => match &ty.node {
            TypeNode::Optional(inner) => deserialize_eps_optional(inner, data, addr, pos),
            TypeNode::Array(elem, n) => {
                match deserialize_eps_items(elem, data, addr, pos, *n) {
                    Ok((views, next)) => Ok((EpsView::Items(views), next)),
                    Err(e) => Err(e),
                }
            },
            TypeNode::Sequence(elem) => deserialize_eps_slice(elem, data, addr, pos),
            TypeNode::Record { name, zero_copy, fields } => {
                proof {
                    lemma_record_fields(*ty);
                }
                match deserialize_eps_fields(fields, data, addr, pos) {
                    Ok((views, next)) => Ok((EpsView::Record(views), next)),
                    Err(e) => Err(e),
                }
            },
            _ => Err(Error::InvalidValue),
        },
    }
}

/// Reads views of `n` values of the type `elem` that stand one after the
/// other from the position `pos` on.
pub fn deserialize_eps_items(
    elem: &TypeDesc,
    data: &[u8],
    addr: usize,
    pos: usize,
    n: usize,
) -> (res: Result<(Vec<EpsView>, usize), Error>)
    requires
        elem.wf(),
    ensures
        viewed_all_at(res, decode_eps_seq(elem@, data@, addr as nat, pos as nat, n as nat)),
    decreases elem, 1nat,
{
    let mut views: Vec<EpsView> = Vec::new();
    let mut cur: usize = pos;
    let mut k: usize = 0;
    assert(views_model(views@) =~= Seq::<EpsModel>::empty());
    while k < n
        invariant
            k <= n,
            elem.wf(),
            decode_eps_seq(elem@, data@, addr as nat, pos as nat, k as nat) == Ok::<
                (Seq<EpsModel>, nat),
                Error,
            >((views_model(views@), cur as nat)),
        decreases n - k,
    {
        match deserialize_eps_copy_inner(elem, data, addr, cur) {
            Ok((view, next)) => {
                proof {
                    lemma_views_model_push(views@, view);
                }
                views.push(view);
                cur = next;
            },
            Err(e) => {
                proof {
                    lemma_decode_eps_seq_fails(
                        elem@,
                        data@,
                        addr as nat,
                        pos as nat,
                        (k + 1) as nat,
                        n as nat,
                    );
                }
                return Err(e);
            },
        }
        k = k + 1;
    }
    Ok((views, cur))
}

/// Reads views of the values of the fields of a record that stand one after
/// the other from the position `pos` on.
pub fn deserialize_eps_fields(fields: &Vec<Field>, data: &[u8], addr: usize, pos: usize) -> (res:
    Result<(Vec<EpsView>, usize), Error>)
    requires
        forall|j: int| 0 <= j < fields@.len() ==> (#[trigger] fields@[j]).ty.wf(),
    ensures
        viewed_all_at(
            res,
            decode_eps_fields(
                fields_model(fields@),
                data@,
                addr as nat,
                pos as nat,
                fields@.len(),
            ),
        ),
    decreases fields, 0nat,
{
    let ghost fm = fields_model(fields@);
    let n = fields.len();
    let mut views: Vec<EpsView> = Vec::new();
    let mut cur: usize = pos;
    let mut k: usize = 0;
    assert(views_model(views@) =~= Seq::<EpsModel>::empty());
    while k < n
        invariant
            k <= n == fields@.len(),
            fm == fields_model(fields@),
            forall|j: int| 0 <= j < fields@.len() ==> (#[trigger] fields@[j]).ty.wf(),
            decode_eps_fields(fm, data@, addr as nat, pos as nat, k as nat) == Ok::<
                (Seq<EpsModel>, nat),
                Error,
            >((views_model(views@), cur as nat)),
        decreases n - k,
    {
        proof {
            assert(fields@[k as int].ty.wf());
            assert(fm[k as int].ty == fields@[k as int].ty@);
        }
        match deserialize_eps_copy_inner(&fields[k].ty, data, addr, cur) {
            Ok((view, next)) => {
                proof {
                    lemma_views_model_push(views@, view);
                }
                views.push(view);
                cur = next;
            },
            Err(e) => {
                proof {
                    lemma_decode_eps_fields_fails(
                        fm,
                        data@,
                        addr as nat,
                        pos as nat,
                        (k + 1) as nat,
                        n as nat,
                    );
                }
                return Err(e);
            },
        }
        k = k + 1;
    }
    Ok((views, cur))
}

/// The values of the type `elem` that the views stand for over `data`.
fn resolve_items(views: &Vec<EpsView>, elem: &TypeDesc, data: &[u8]) -> (res: Result<
    Vec<Value>,
    Error,
>)
    requires
        elem.wf(),
    ensures
        read_all_as(res, resolve_seq(views_model(views@), elem@, data@, views@.len())),
    decreases elem, 1nat,
{
    let ghost vm = views_model(views@);
    let n = views.len();
    let mut vals: Vec<Value> = Vec::new();
    let mut k: usize = 0;
    assert(values_model(vals@) =~= Seq::<ValueModel>::empty());
    while k < n
        invariant
            k <= n == views@.len(),
            vm == views_model(views@),
            elem.wf(),
            resolve_seq(vm, elem@, data@, k as nat) == Ok::<Seq<ValueModel>, Error>(
                values_model(vals@),
            ),
        decreases n - k,
    {
        assert(vm[k as int] == views@[k as int]@);
        match views[k].resolve(elem, data) {
            Ok(v) => {
                proof {
                    lemma_values_model_push(vals@, v);
                }
                vals.push(v);
            },
            Err(e) => {
                proof {
                    assert(resolve_seq(vm, elem@, data@, (k + 1) as nat) == Err::<
                        Seq<ValueModel>,
                        Error,
                    >(e));
                    lemma_resolve_seq_fails(vm, elem@, data@, (k + 1) as nat, n as nat);
                }
                return Err(e);
            },
        }
        k = k + 1;
    }
    Ok(vals)
}

/// The values of the fields of a record that the views stand for over
/// `data`.
fn resolve_record(views: &Vec<EpsView>, fields: &Vec<Field>, data: &[u8]) -> (res: Result<
    Vec<Value>,
    Error,
>)
    requires
        views@.len() == fields@.len(),
        forall|j: int| 0 <= j < fields@.len() ==> (#[trigger] fields@[j]).ty.wf(),
    ensures
        read_all_as(
            res,
            resolve_fields(views_model(views@), fields_model(fields@), data@, views@.len()),
        ),
    decreases fields, 0nat,
{
    let ghost vm = views_model(views@);
    let ghost fm = fields_model(fields@);
    let n = views.len();
    let mut vals: Vec<Value> = Vec::new();
    let mut k: usize = 0;
    assert(values_model(vals@) =~= Seq::<ValueModel>::empty());
    while k < n
        invariant
            k <= n == views@.len() == fields@.len(),
            vm == views_model(views@),
            fm == fields_model(fields@),
            forall|j: int| 0 <= j < fields@.len() ==> (#[trigger] fields@[j]).ty.wf(),
            resolve_fields(vm, fm, data@, k as nat) == Ok::<Seq<ValueModel>, Error>(
                values_model(vals@),
            ),
        decreases n - k,
    {
        proof {
            assert(vm[k as int] == views@[k as int]@);
            assert(fields@[k as int].ty.wf());
            assert(fm[k as int].ty == fields@[k as int].ty@);
        }
        match views[k].resolve(&fields[k].ty, data) {
            Ok(v) => {
                proof {
                    lemma_values_model_push(vals@, v);
                }
                vals.push(v);
            },
            Err(e) => {
                proof {
                    assert(resolve_fields(vm, fm, data@, (k + 1) as nat) == Err::<
                        Seq<ValueModel>,
                        Error,
                    >(e));
                    lemma_resolve_fields_fails(vm, fm, data@, (k + 1) as nat, n as nat);
                }
                return Err(e);
            },
        }
        k = k + 1;
    }
    Ok(vals)
}

impl EpsView {
    /// The value of the type `ty` that the view stands for over `data`:
    /// what the view refers to is read from `data`, and what it holds is
    /// copied.
    ///
    /// The view is checked against the type and the data: the call fails
    /// with `UnexpectedEnd` where the view refers to bytes beyond the data,
    /// and with `InvalidValue` where it is no view of a value of the type,
    /// or refers to bytes that are no image of a value.
    pub fn resolve(&self, ty: &TypeDesc, data: &[u8]) -> (res: Result<Value, Error>)
        requires
            ty.wf(),
        ensures
            read_as(res, resolve(self@, ty@, data@)),
        decreases ty, 0nat,
    {
        let data_len = data.len();
        proof {
            lemma_inner(*ty);
        }
        match self {
            EpsView::Owned(v) => Ok(v.deep_copy()),
            EpsView::Ref { offset, len } => {
                if !(ty.class == Classification::Zero) || *len != ty.size {
                    return Err(Error::InvalidValue);
                }
                if *len > data_len || *offset > data_len - *len {
                    return Err(Error::UnexpectedEnd);
                }
                read_image(ty, data, *offset)
            },
            EpsView::Slice { offset, count } => match &ty.node {
                TypeNode::Sequence(elem) => {
                    if !(elem.class == Classification::Zero) {
                        return Err(Error::InvalidValue);
                    }
                    let total = match count.checked_mul(elem.size) {
                        Some(total) => total,
                        None => {
                            return Err(Error::UnexpectedEnd);
                        },
                    };
                    if total > data_len || *offset > data_len - total {
                        return Err(Error::UnexpectedEnd);
                    }
                    match read_images(elem, data, *offset, *count) {
                        Ok(vals) => Ok(Value::Sequence(vals)),
                        Err(e) => Err(e),
                    }
                },
                _ => Err(Error::InvalidValue),
            },
            EpsView::Optional(inner_view) => match &ty.node {
                TypeNode::Optional(inner) => match inner_view {
                    None => Ok(Value::Optional(None)),
                    Some(x) => match x.resolve(inner, data) {
                        Ok(v) => Ok(Value::Optional(Some(Box::new(v)))),
                        Err(e) => Err(e),
                    },
                },
                _ => Err(Error::InvalidValue),
            },
            EpsView::Items(views) => match &ty.node {
                TypeNode::Array(elem, n) => {
                    assert(views_model(views@).len() == views@.len());
                    if views.len() != *n {
                        return Err(Error::InvalidValue);
                    }
                    match resolve_items(views, elem, data) {
                        Ok(vals) => Ok(Value::Array(vals)),
                        Err(e) => Err(e),
                    }
                },
                TypeNode::Sequence(elem) => match resolve_items(views, elem, data) {
                    Ok(vals) => Ok(Value::Sequence(vals)),
                    Err(e) => Err(e),
                },
                _ => Err(Error::InvalidValue),
            },
            EpsView::Record(views) => match &ty.node {
                TypeNode::Record { name, zero_copy, fields } => {
                    proof {
                        lemma_record_fields(*ty);
                    }
                    assert(views_model(views@).len() == views@.len());
                    if views.len() != fields.len() {
                        return Err(Error::InvalidValue);
                    }
                    match resolve_record(views, fields, data) {
                        Ok(vals) => Ok(Value::Record(vals)),
                        Err(e) => Err(e),
                    }
                },
                _ => Err(Error::InvalidValue),
            },
        }
    }
}

/// What reading a view of a value of the type `ty` from the start of `data`
/// gives, where the first byte of `data` has the address `addr`.
pub open spec fn decode_eps_view(ty: TypeModel, data: Seq<u8>, addr: nat) -> Result<
    EpsModel,
    Error,
> {
    match decode_eps(ty, data, addr, 0) {
        Ok((view, next)) => Ok(view),
        Err(e) => Err(e),
    }
}

/// Reads a view of a value of the type `ty` from the start of `data`, whose
/// first byte has the address `addr`. The view refers to `data` wherever
/// the type allows it, and stands for the value only over `data`.
///
/// `recorded` is the fingerprint of the type that the stream was written
/// as. Where it is not the fingerprint of `ty`, nothing is read and the
/// call fails with `FingerprintMismatch`. Otherwise the call gives what
/// [`decode_eps`] gives at position 0.
pub fn deserialize_eps(ty: &TypeDesc, recorded: u64, data: &[u8], addr: usize) -> (res: Result<
    EpsView,
    Error,
>)
    requires
        ty.wf(),
    ensures
        recorded != spec_fingerprint(ty@) ==> (res matches Err(e) && e
            == (Error::FingerprintMismatch { expected: spec_fingerprint(ty@), found: recorded })),
        recorded == spec_fingerprint(ty@) ==> match res {
            Ok(view) => decode_eps_view(ty@, data@, addr as nat) == Ok::<EpsModel, Error>(view@),
            Err(e) => decode_eps_view(ty@, data@, addr as nat) == Err::<EpsModel, Error>(e),
        },
{
    let expected = fingerprint(ty);
    if recorded != expected {
        return Err(Error::FingerprintMismatch { expected, found: recorded });
    }
    match deserialize_eps_copy_inner(ty, data, addr, 0) {
        Ok((view, _)) => Ok(view),
        Err(e) => Err(e),
    }
}

} // verus!
