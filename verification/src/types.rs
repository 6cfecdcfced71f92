//! Descriptions of the types that can be serialized, and what follows from
//! a description alone: how values of the type are copied on reading, and
//! the layout in memory of those that are read in place.
use crate::align::{align_up, is_alignment, lemma_pad_is_minimal, pad_align_to};
use crate::prim::PrimKind;
use vstd::prelude::*;

verus! {

/// How the values of a type are reconstructed from a stream.
#[derive(Debug, Clone, Copy, PartialEq, Eq, Structural)]
pub enum Classification {
    /// The type has a fixed layout without indirection. A value is written
    /// as its image in memory and can be referred to in place.
    Zero,
    /// The outer structure of a value is built anew, while parts of it can
    /// be referred to in place.
    Shell,
    /// Every part of a value is built anew.
    Deep,
}

/// A named field of a record.
#[derive(Debug)]
pub struct Field {
    pub name: String,
    pub ty: TypeDesc,
}

/// The structure of a type.
#[derive(Debug)]
pub enum TypeNode {
    /// The type with one value, which takes no bytes.
    Unit,
    /// A number, a boolean or a character.
    Prim(PrimKind),
    /// A marker for another type. It has one value, which takes no bytes.
    Phantom(Box<TypeDesc>),
    /// A value of the inner type, or none.
    Optional(Box<TypeDesc>),
    /// A fixed number of values of one type.
    Array(Box<TypeDesc>, usize),
    /// Any number of values of one type.
    Sequence(Box<TypeDesc>),
    /// A text in UTF-8.
    Text,
    /// Named fields in the order of their declaration. A record that is
    /// declared `zero_copy` is laid out in memory in that order.
    Record { name: String, zero_copy: bool, fields: Vec<Field> },
}

/// The description of a type: its structure, and what was worked out from
/// the structure when the description was made.
#[derive(Debug)]
pub struct TypeDesc {
    pub node: TypeNode,
    pub class: Classification,
    pub size: usize,
    pub align: usize,
}

/// What a field says.
pub struct FieldModel {
    pub name: Seq<char>,
    pub ty: TypeModel,
}

/// What a description says of a type.
pub enum TypeModel {
    Unit,
    Prim(PrimKind),
    Phantom(Box<TypeModel>),
    Optional(Box<TypeModel>),
    Array(Box<TypeModel>, nat),
    Sequence(Box<TypeModel>),
    Text,
    Record { name: Seq<char>, zero_copy: bool, fields: Seq<FieldModel> },
}

/// The larger of two numbers.
pub open spec fn max_nat(a: nat, b: nat) -> nat {
    if a >= b {
        a
    } else {
        b
    }
}

/// The classification of a type.
///
/// Units, primitives and markers are `Zero`. An array is what its elements
/// are. A record is `Zero` where it is declared so and every field is
/// `Zero`; otherwise it is `Deep` where every field is `Deep`, and `Shell`
/// where some field is not. Optional values and sequences are `Shell`, texts
/// are `Deep`.
pub open spec fn classify(ty: TypeModel) -> Classification
    decreases ty,
{
    match ty {
        TypeModel::Unit => Classification::Zero,
        TypeModel::Prim(_) => Classification::Zero,
        TypeModel::Phantom(_) => Classification::Zero,
        TypeModel::Optional(_) => Classification::Shell,
        TypeModel::Array(elem, _) => classify(*elem),
        TypeModel::Sequence(_) => Classification::Shell,
        TypeModel::Text => Classification::Deep,
        TypeModel::Record { name, zero_copy, fields } => {
            if zero_copy && (forall|i: int|
                0 <= i < fields.len() ==> classify((#[trigger] fields[i]).ty)
                    == Classification::Zero) {
                Classification::Zero
            } else if forall|i: int|
                0 <= i < fields.len() ==> classify((#[trigger] fields[i]).ty)
                    == Classification::Deep {
                Classification::Deep
            } else {
                Classification::Shell
            }
        },
    }
}

/// Whether values of the type are written as their image in memory.
pub open spec fn is_zero(ty: TypeModel) -> bool {
    classify(ty) == Classification::Zero
}

/// The alignment of a `Zero` type: that of a primitive is its size, that of
/// an array is that of its elements, that of a record is the largest among
/// its fields. Every other type has the alignment 1.
pub open spec fn align_of(ty: TypeModel) -> nat
    decreases ty, 0nat, 0nat,
{
    match ty {
        TypeModel::Prim(kind) => kind.spec_align(),
        TypeModel::Array(elem, _) => if is_zero(ty) {
            align_of(*elem)
        } else {
            1
        },
        TypeModel::Record { name, zero_copy, fields } => if is_zero(ty) {
            fields_align(fields, fields.len())
        } else {
            1
        },
        _ => 1,
    }
}

/// The largest alignment among the first `n` fields, and 1 where there is
/// none.
pub open spec fn fields_align(fields: Seq<FieldModel>, n: nat) -> nat
    decreases fields, n, 0nat,
{
    if n == 0 || n > fields.len() {
        1
    } else {
        max_nat(fields_align(fields, (n - 1) as nat), align_of(fields[n - 1].ty))
    }
}

/// The size in memory of a `Zero` type: an array takes the sizes of its
/// elements, a record ends after its last field, rounded up to its
/// alignment. Every other type has the size 0.
pub open spec fn size_of(ty: TypeModel) -> nat
    decreases ty, 0nat, 0nat,
{
    match ty {
        TypeModel::Prim(kind) => kind.spec_size(),
        TypeModel::Array(elem, n) => if is_zero(ty) {
            n * size_of(*elem)
        } else {
            0
        },
        TypeModel::Record { name, zero_copy, fields } => if is_zero(ty) {
            align_up(fields_end(fields, fields.len()), fields_align(fields, fields.len()))
        } else {
            0
        },
        _ => 0,
    }
}

/// The offset in a record's image at which the first `n` fields end.
pub open spec fn fields_end(fields: Seq<FieldModel>, n: nat) -> nat
    decreases fields, n, 0nat,
{
    if n == 0 || n > fields.len() {
        0
    } else {
        field_offset(fields, (n - 1) as nat) + size_of(fields[n - 1].ty)
    }
}

/// The offset in a record's image at which field `i` starts: the end of the
/// fields before it, rounded up to the field's alignment.
pub open spec fn field_offset(fields: Seq<FieldModel>, i: nat) -> nat
    decreases fields, i, 1nat,
{
    if i >= fields.len() {
        0
    } else {
        align_up(fields_end(fields, i), align_of(fields[i as int].ty))
    }
}

/// Whether the machine can hold the type: every count and every size in it
/// is at most the largest `usize`.
pub open spec fn fits(ty: TypeModel) -> bool
    decreases ty,
{
    match ty {
        TypeModel::Phantom(inner) => fits(*inner),
        TypeModel::Optional(inner) => fits(*inner),
        TypeModel::Array(elem, n) => fits(*elem) && n <= usize::MAX && size_of(ty) <= usize::MAX,
        TypeModel::Sequence(elem) => fits(*elem),
        TypeModel::Record { name, zero_copy, fields } => {
            &&& fields.len() <= usize::MAX
            &&& size_of(ty) <= usize::MAX
            &&& forall|i: int| 0 <= i < fields.len() ==> fits((#[trigger] fields[i]).ty)
        },
        _ => true,
    }
}

/// What the fields say.
pub open spec fn fields_model(fields: Seq<Field>) -> Seq<FieldModel>
    decreases fields,
{
    Seq::new(
        fields.len(),
        |i: int|
            if 0 <= i < fields.len() {
                FieldModel { name: fields[i].name@, ty: type_model(fields[i].ty) }
            } else {
                arbitrary()
            },
    )
}

/// What the description says of the type.
pub open spec fn type_model(ty: TypeDesc) -> TypeModel
    decreases ty,
{
    match ty.node {
        TypeNode::Unit => TypeModel::Unit,
        TypeNode::Prim(kind) => TypeModel::Prim(kind),
        TypeNode::Phantom(inner) => TypeModel::Phantom(Box::new(type_model(*inner))),
        TypeNode::Optional(inner) => TypeModel::Optional(Box::new(type_model(*inner))),
        TypeNode::Array(elem, n) => TypeModel::Array(Box::new(type_model(*elem)), n as nat),
        TypeNode::Sequence(elem) => TypeModel::Sequence(Box::new(type_model(*elem))),
        TypeNode::Text => TypeModel::Text,
        TypeNode::Record { name, zero_copy, fields } => TypeModel::Record {
            name: name@,
            zero_copy,
            fields: fields_model(fields@),
        },
    }
}

impl View for Field {
    type V = FieldModel;

    open spec fn view(&self) -> FieldModel {
        FieldModel { name: self.name@, ty: type_model(self.ty) }
    }
}

impl View for TypeDesc {
    type V = TypeModel;

    open spec fn view(&self) -> TypeModel {
        type_model(*self)
    }
}

/// Whether what was worked out when the description was made, here and in
/// every description inside it, is what the structure says.
pub open spec fn cached(ty: TypeDesc) -> bool
    decreases ty,
{
    &&& ty.class == classify(ty@)
    &&& ty.size == size_of(ty@)
    &&& ty.align == align_of(ty@)
    &&& match ty.node {
        TypeNode::Phantom(inner) => cached(*inner),
        TypeNode::Optional(inner) => cached(*inner),
        TypeNode::Array(elem, _) => cached(*elem),
        TypeNode::Sequence(elem) => cached(*elem),
        TypeNode::Record { name, zero_copy, fields } => forall|i: int|
            0 <= i < fields@.len() ==> cached((#[trigger] fields@[i]).ty),
        _ => true,
    }
}

/// The alignment of a type is one of 1, 2, 4, 8 and 16.
pub proof fn lemma_align_of_is_alignment(ty: TypeModel)
    ensures
        is_alignment(align_of(ty)),
    decreases ty, 0nat,
{
    match ty {
        TypeModel::Array(elem, _) => {
            lemma_align_of_is_alignment(*elem);
        },
        TypeModel::Record { name, zero_copy, fields } => {
            lemma_fields_align_is_alignment(fields, fields.len());
        },
        _ => {},
    }
}

/// The largest alignment among fields is one of 1, 2, 4, 8 and 16, and each
/// of the fields has an alignment up to it.
pub proof fn lemma_fields_align_is_alignment(fields: Seq<FieldModel>, n: nat)
    ensures
        is_alignment(fields_align(fields, n)),
        n <= fields.len() ==> forall|i: int|
            0 <= i < n ==> align_of((#[trigger] fields[i]).ty) <= fields_align(fields, n),
    decreases fields, n,
{
    if n == 0 || n > fields.len() {
    } else {
        lemma_fields_align_is_alignment(fields, (n - 1) as nat);
        lemma_align_of_is_alignment(fields[n - 1].ty);
    }
}

/// The fields of a record end no earlier than any of its first fields.
pub proof fn lemma_fields_end_monotonic(fields: Seq<FieldModel>, i: nat, n: nat)
    requires
        i <= n <= fields.len(),
    ensures
        fields_end(fields, i) <= fields_end(fields, n),
    decreases n,
{
    if i < n {
        lemma_fields_end_monotonic(fields, i, (n - 1) as nat);
    }
}

/// A type that is not `Zero` has the size 0 and the alignment 1.
pub proof fn lemma_layout_of_non_zero(ty: TypeModel)
    requires
        !is_zero(ty),
    ensures
        size_of(ty) == 0,
        align_of(ty) == 1,
{
}

/// The size of a `Zero` type is a multiple of its alignment.
pub proof fn lemma_size_is_aligned(ty: TypeModel)
    requires
        is_zero(ty),
    ensures
        size_of(ty) % align_of(ty) == 0,
    decreases ty,
{
    lemma_align_of_is_alignment(ty);
    match ty {
        TypeModel::Prim(kind) => {},
        TypeModel::Array(elem, n) => {
            lemma_size_is_aligned(*elem);
            let size = size_of(*elem);
            let align = align_of(*elem);
            let quot = size / align;
            assert(size == align * quot) by {
                vstd::arithmetic::div_mod::lemma_fundamental_div_mod(size as int, align as int);
            }
            assert(n * size == (n * quot) * align) by (nonlinear_arith)
                requires
                    size == align * quot,
            ;
            vstd::arithmetic::div_mod::lemma_mod_multiples_basic((n * quot) as int, align as int);
        },
        TypeModel::Record { name, zero_copy, fields } => {
            lemma_pad_is_minimal(
                fields_end(fields, fields.len()),
                fields_align(fields, fields.len()),
            );
        },
        _ => {},
    }
}

/// What the soundness of a description says of the description inside it.
pub proof fn lemma_inner(ty: TypeDesc)
    requires
        ty.wf(),
    ensures
        match ty.node {
            TypeNode::Phantom(inner) => inner.wf() && ty@ == TypeModel::Phantom(Box::new(inner@)),
            TypeNode::Optional(inner) => inner.wf() && ty@ == TypeModel::Optional(
                Box::new(inner@),
            ),
            TypeNode::Array(elem, n) => elem.wf() && ty@ == TypeModel::Array(
                Box::new(elem@),
                n as nat,
            ),
            TypeNode::Sequence(elem) => elem.wf() && ty@ == TypeModel::Sequence(Box::new(elem@)),
            _ => true,
        },
{
}

/// What the soundness of a record's description says of its fields.
pub proof fn lemma_record_fields(ty: TypeDesc)
    requires
        ty.wf(),
        ty.node is Record,
    ensures
        ({
            let fields = ty.node->Record_fields;
            let fm = fields_model(fields@);
            &&& ty@ == (TypeModel::Record {
                name: ty.node->Record_name@,
                zero_copy: ty.node->Record_zero_copy,
                fields: fm,
            })
            &&& fm.len() == fields@.len()
            &&& forall|j: int| 0 <= j < fields@.len() ==> (#[trigger] fields@[j]).ty.wf()
            &&& forall|j: int| 0 <= j < fields@.len() ==> (#[trigger] fm[j]).ty == fields@[j].ty@
            &&& is_zero(ty@) ==> forall|j: int| 0 <= j < fm.len() ==> is_zero((#[trigger] fm[j]).ty)
        }),
{
    let fields = ty.node->Record_fields;
    let fm = fields_model(fields@);
    assert forall|j: int| 0 <= j < fields@.len() implies (#[trigger] fields@[j]).ty.wf() by {
        assert(fm[j].ty == fields@[j].ty@);
    }
}

impl Field {
    /// A field named `name` of type `ty`.
    pub fn new(name: &str, ty: TypeDesc) -> (field: Field)
        ensures
            field.name@ == name@,
            field.ty == ty,
    {
        Field { name: String::from_str(name), ty }
    }
}

impl TypeDesc {
    /// Whether the description is sound: the machine can hold the type,
    /// and what the description has worked out is what its structure says.
    pub open spec fn wf(&self) -> bool {
        fits(self@) && cached(*self)
    }

    /// The classification of the type.
    pub fn classification(&self) -> (class: Classification)
        requires
            self.wf(),
        ensures
            class == classify(self@),
    {
        self.class
    }

    /// Whether values of the type are written as their image in memory.
    pub fn is_zero_copy(&self) -> (zero: bool)
        requires
            self.wf(),
        ensures
            zero == is_zero(self@),
    {
        self.class == Classification::Zero
    }

    /// The size in memory of a `Zero` type, and 0 for any other.
    pub fn size_of(&self) -> (size: usize)
        requires
            self.wf(),
        ensures
            size == size_of(self@),
    {
        self.size
    }

    /// The alignment of a `Zero` type, and 1 for any other.
    pub fn align_of(&self) -> (align: usize)
        requires
            self.wf(),
        ensures
            align == align_of(self@),
            is_alignment(align as nat),
    {
        proof {
            lemma_align_of_is_alignment(self@);
        }
        self.align
    }

    /// The unit type.
    pub fn unit() -> (ty: TypeDesc)
        ensures
            ty.wf(),
            ty@ == TypeModel::Unit,
    {
        TypeDesc { node: TypeNode::Unit, class: Classification::Zero, size: 0, align: 1 }
    }

    /// A primitive type.
    pub fn prim(kind: PrimKind) -> (ty: TypeDesc)
        ensures
            ty.wf(),
            ty@ == TypeModel::Prim(kind),
    {
        TypeDesc {
            node: TypeNode::Prim(kind),
            class: Classification::Zero,
            size: kind.size(),
            align: kind.align(),
        }
    }

    /// The type of texts.
    pub fn text() -> (ty: TypeDesc)
        ensures
            ty.wf(),
            ty@ == TypeModel::Text,
    {
        TypeDesc { node: TypeNode::Text, class: Classification::Deep, size: 0, align: 1 }
    }

    /// A marker for the type `inner`.
    pub fn phantom(inner: TypeDesc) -> (ty: TypeDesc)
        requires
            inner.wf(),
        ensures
            ty.wf(),
            ty@ == TypeModel::Phantom(Box::new(inner@)),
    {
        TypeDesc {
            node: TypeNode::Phantom(Box::new(inner)),
            class: Classification::Zero,
            size: 0,
            align: 1,
        }
    }

    /// The type of optional values of the type `inner`.
    pub fn optional(inner: TypeDesc) -> (ty: TypeDesc)
        requires
            inner.wf(),
        ensures
            ty.wf(),
            ty@ == TypeModel::Optional(Box::new(inner@)),
    {
        TypeDesc {
            node: TypeNode::Optional(Box::new(inner)),
            class: Classification::Shell,
            size: 0,
            align: 1,
        }
    }

    /// The type of sequences of values of the type `elem`.
    pub fn sequence(elem: TypeDesc) -> (ty: TypeDesc)
        requires
            elem.wf(),
        ensures
            ty.wf(),
            ty@ == TypeModel::Sequence(Box::new(elem@)),
    {
        TypeDesc {
            node: TypeNode::Sequence(Box::new(elem)),
            class: Classification::Shell,
            size: 0,
            align: 1,
        }
    }

    /// The type of arrays of `n` values of the type `elem`, unless an array
    /// of `Zero` elements would be larger than the machine can address.
    pub fn array(elem: TypeDesc, n: usize) -> (res: Option<TypeDesc>)
        requires
            elem.wf(),
        ensures
            res is Some <==> n * size_of(elem@) <= usize::MAX,
            res matches Some(ty) ==> ty.wf() && ty@ == TypeModel::Array(Box::new(elem@), n as nat),
    {
        let class = elem.class;
        proof {
            if !is_zero(elem@) {
                lemma_layout_of_non_zero(elem@);
                assert(n * 0 == 0);
            }
        }
        let align = if class == Classification::Zero {
            elem.align
        } else {
            1
        };
        let size = if class == Classification::Zero {
            match n.checked_mul(elem.size) {
                Some(size) => size,
                None => {
                    return None;
                },
            }
        } else {
            0
        };
        let ty = TypeDesc { node: TypeNode::Array(Box::new(elem), n), class, size, align };
        Some(ty)
    }

    /// The type of records named `name` with the fields `fields`, unless a
    /// `Zero` record would be larger than the machine can address.
    pub fn record(name: &str, zero_copy: bool, fields: Vec<Field>) -> (res: Option<TypeDesc>)
        requires
            forall|i: int| 0 <= i < fields@.len() ==> (#[trigger] fields@[i]).ty.wf(),
        ensures
            res is Some <==> size_of(
                TypeModel::Record { name: name@, zero_copy, fields: fields_model(fields@) },
            ) <= usize::MAX,
            res matches Some(ty) ==> ty.wf() && ty@ == (TypeModel::Record {
                name: name@,
                zero_copy,
                fields: fields_model(fields@),
            }),
    {
        let ghost model_fields = fields_model(fields@);
        let ghost model = TypeModel::Record { name: name@, zero_copy, fields: model_fields };
        let count = fields.len();
        match record_layout(name, zero_copy, &fields) {
            Some((class, size, align)) => {
                let ty = TypeDesc {
                    node: TypeNode::Record { name: String::from_str(name), zero_copy, fields },
                    class,
                    size,
                    align,
                };
                assert(ty@ == model);
                assert(fits(model)) by {
                    assert forall|j: int| 0 <= j < model_fields.len() implies fits(
                        (#[trigger] model_fields[j]).ty,
                    ) by {
                        assert(fields@[j].ty.wf());
                    }
                }
                Some(ty)
            },
            None => None,
        }
    }

    /// Whether the description is sound. A description that one of the
    /// functions of this type has made is sound; one that was put together
    /// from its parts need not be.
    pub fn is_well_formed(&self) -> (ok: bool)
        ensures
            ok == self.wf(),
        decreases self,
    {
        match &self.node {
            TypeNode::Unit => self.class == Classification::Zero && self.size == 0 && self.align
                == 1,
            TypeNode::Prim(kind) => self.class == Classification::Zero && self.size == kind.size()
                && self.align == kind.align(),
            TypeNode::Text => self.class == Classification::Deep && self.size == 0 && self.align
                == 1,
            TypeNode::Phantom(inner) => inner.is_well_formed() && self.class
                == Classification::Zero && self.size == 0 && self.align == 1,
            TypeNode::Optional(inner) => inner.is_well_formed() && self.class
                == Classification::Shell && self.size == 0 && self.align == 1,
            TypeNode::Sequence(elem) => elem.is_well_formed() && self.class
                == Classification::Shell && self.size == 0 && self.align == 1,
            TypeNode::Array(elem, n) => {
                if !elem.is_well_formed() {
                    return false;
                }
                proof {
                    if !is_zero(elem@) {
                        lemma_layout_of_non_zero(elem@);
                        assert(*n * 0 == 0);
                    }
                }
                if elem.class == Classification::Zero {
                    match n.checked_mul(elem.size) {
                        Some(size) => self.class == Classification::Zero && self.size == size
                            && self.align == elem.align,
                        None => false,
                    }
                } else {
                    self.class == elem.class && self.size == 0 && self.align == 1
                }
            },
            TypeNode::Record { name, zero_copy, fields } => {
                let ghost fm = fields_model(fields@);
                let n = fields.len();
                let mut i: usize = 0;
                while i < n
                    invariant
                        i <= n == fields@.len(),
                        decreases_to!(self => fields),
                        fm == fields_model(fields@),
                        self@ == (TypeModel::Record {
                            name: name@,
                            zero_copy: *zero_copy,
                            fields: fm,
                        }),
                        self.node == (TypeNode::Record {
                            name: *name,
                            zero_copy: *zero_copy,
                            fields: *fields,
                        }),
                        forall|j: int| 0 <= j < i ==> (#[trigger] fields@[j]).ty.wf(),
                    decreases n - i,
                {
                    if !fields[i].ty.is_well_formed() {
                        proof {
                            assert(fm[i as int].ty == fields@[i as int].ty@);
                            if self.wf() {
                                assert(fits(fm[i as int].ty));
                                assert(cached(fields@[i as int].ty));
                            }
                        }
                        return false;
                    }
                    i = i + 1;
                }
                match record_layout(name.as_str(), *zero_copy, fields) {
                    Some((class, size, align)) => {
                        proof {
                            if self.class == class && self.size == size && self.align == align {
                                assert forall|j: int| 0 <= j < fm.len() implies fits(
                                    (#[trigger] fm[j]).ty,
                                ) by {
                                    assert(fields@[j].ty.wf());
                                }
                            }
                        }
                        self.class == class && self.size == size && self.align == align
                    },
                    None => false,
                }
            },
        }
    }
}

/// The classification, the size and the alignment of a record with the
/// fields `fields`, unless a `Zero` record would be larger than the machine
/// can address.
fn record_layout(name: &str, zero_copy: bool, fields: &Vec<Field>) -> (res: Option<
    (Classification, usize, usize),
>)
    requires
        forall|i: int| 0 <= i < fields@.len() ==> (#[trigger] fields@[i]).ty.wf(),
    ensures
        ({
            let model = TypeModel::Record { name: name@, zero_copy, fields: fields_model(fields@) };
            &&& res is Some <==> size_of(model) <= usize::MAX
            &&& res matches Some((class, size, align)) ==> class == classify(model) && size
                == size_of(model) && align == align_of(model)
        }),
{
    let ghost model_fields = fields_model(fields@);
    let ghost model = TypeModel::Record { name: name@, zero_copy, fields: model_fields };
    let n = fields.len();
    let mut all_zero = true;
    let mut all_deep = true;
    let mut i: usize = 0;
    while i < n
        invariant
            i <= n == fields@.len(),
            model_fields == fields_model(fields@),
            forall|j: int| 0 <= j < fields@.len() ==> (#[trigger] fields@[j]).ty.wf(),
            all_zero <==> forall|j: int|
                0 <= j < i ==> classify((#[trigger] model_fields[j]).ty)
                    == Classification::Zero,
            all_deep <==> forall|j: int|
                0 <= j < i ==> classify((#[trigger] model_fields[j]).ty)
                    == Classification::Deep,
        decreases n - i,
    {
        assert(fields@[i as int].ty.wf());
        assert(model_fields[i as int].ty == fields@[i as int].ty@);
        match fields[i].ty.class {
            Classification::Zero => {
                all_deep = false;
            },
            Classification::Shell => {
                all_zero = false;
                all_deep = false;
            },
            Classification::Deep => {
                all_zero = false;
            },
        }
        i = i + 1;
    }
    let class = if zero_copy && all_zero {
        Classification::Zero
    } else if all_deep {
        Classification::Deep
    } else {
        Classification::Shell
    };
    assert(class == classify(model));
    let mut end: usize = 0;
    let mut align: usize = 1;
    if zero_copy && all_zero {
        i = 0;
        while i < n
            invariant
                i <= n == fields@.len(),
                model_fields == fields_model(fields@),
                forall|j: int| 0 <= j < fields@.len() ==> (#[trigger] fields@[j]).ty.wf(),
                is_zero(model),
                model == (TypeModel::Record { name: name@, zero_copy, fields: model_fields }),
                end == fields_end(model_fields, i as nat),
                align == fields_align(model_fields, i as nat),
            decreases n - i,
        {
            let field = &fields[i].ty;
            proof {
                assert(fields@[i as int].ty.wf());
                assert(model_fields[i as int].ty == field@);
                lemma_align_of_is_alignment(field@);
                lemma_fields_end_monotonic(model_fields, (i + 1) as nat, n as nat);
                lemma_fields_align_is_alignment(model_fields, n as nat);
                lemma_pad_is_minimal(
                    fields_end(model_fields, n as nat),
                    fields_align(model_fields, n as nat),
                );
            }
            let pad = pad_align_to(end, field.align);
            let start = match end.checked_add(pad) {
                Some(start) => start,
                None => {
                    return None;
                },
            };
            end = match start.checked_add(field.size) {
                Some(end) => end,
                None => {
                    return None;
                },
            };
            if field.align > align {
                align = field.align;
            }
            i = i + 1;
        }
    }
    let size = if zero_copy && all_zero {
        proof {
            lemma_fields_align_is_alignment(model_fields, n as nat);
        }
        let pad = pad_align_to(end, align);
        match end.checked_add(pad) {
            Some(size) => size,
            None => {
                return None;
            },
        }
    } else {
        0
    };
    proof {
        if !(zero_copy && all_zero) {
            lemma_layout_of_non_zero(model);
        }
    }
    Some((class, size, align))
}

} // verus!
