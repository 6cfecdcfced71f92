//! Values, and which values belong to a type.
use crate::prim::Prim;
use crate::types::{fields_model, Field, TypeDesc, TypeModel, TypeNode};
use vstd::prelude::*;
use vstd::utf8::encode_utf8;

verus! {

/// A value of one of the types that can be serialized.
#[derive(Debug)]
pub enum Value {
    /// The value of the unit type.
    Unit,
    /// A number, a boolean or a character.
    Prim(Prim),
    /// The value of a marker type.
    Phantom,
    /// A value, or none.
    Optional(Option<Box<Value>>),
    /// The elements of an array.
    Array(Vec<Value>),
    /// The elements of a sequence.
    Sequence(Vec<Value>),
    /// A text.
    Text(String),
    /// The values of the fields of a record, in the order of their
    /// declaration.
    Record(Vec<Value>),
}

/// What a value is.
pub enum ValueModel {
    Unit,
    Prim(Prim),
    Phantom,
    Optional(Option<Box<ValueModel>>),
    Array(Seq<ValueModel>),
    Sequence(Seq<ValueModel>),
    Text(Seq<char>),
    Record(Seq<ValueModel>),
}

/// What the values are.
pub open spec fn values_model(vals: Seq<Value>) -> Seq<ValueModel>
    decreases vals,
{
    Seq::new(
        vals.len(),
        |i: int|
            if 0 <= i < vals.len() {
                value_model(vals[i])
            } else {
                arbitrary()
            },
    )
}

/// What the value is.
pub open spec fn value_model(v: Value) -> ValueModel
    decreases v,
{
    match v {
        Value::Unit => ValueModel::Unit,
        Value::Prim(p) => ValueModel::Prim(p),
        Value::Phantom => ValueModel::Phantom,
        Value::Optional(None) => ValueModel::Optional(None),
        Value::Optional(Some(inner)) => ValueModel::Optional(
            Some(Box::new(value_model(*inner))),
        ),
        Value::Array(vals) => ValueModel::Array(values_model(vals@)),
        Value::Sequence(vals) => ValueModel::Sequence(values_model(vals@)),
        Value::Text(text) => ValueModel::Text(text@),
        Value::Record(vals) => ValueModel::Record(values_model(vals@)),
    }
}

impl View for Value {
    type V = ValueModel;

    open spec fn view(&self) -> ValueModel {
        value_model(*self)
    }
}

/// Whether `v` is a value of the type `ty`. A sequence has at most as many
/// elements, and a text in UTF-8 at most as many bytes, as the largest
/// `usize`.
pub open spec fn conforms(v: ValueModel, ty: TypeModel) -> bool
    decreases ty,
{
    match ty {
        TypeModel::Unit => v is Unit,
        TypeModel::Prim(kind) => v matches ValueModel::Prim(p) && p.kind() == kind,
        TypeModel::Phantom(_) => v is Phantom,
        TypeModel::Optional(inner) => match v {
            ValueModel::Optional(None) => true,
            ValueModel::Optional(Some(x)) => conforms(*x, *inner),
            _ => false,
        },
        TypeModel::Array(elem, n) => match v {
            ValueModel::Array(vals) => vals.len() == n && forall|i: int|
                0 <= i < vals.len() ==> conforms(#[trigger] vals[i], *elem),
            _ => false,
        },
        TypeModel::Sequence(elem) => match v {
            ValueModel::Sequence(vals) => vals.len() <= usize::MAX && forall|i: int|
                0 <= i < vals.len() ==> conforms(#[trigger] vals[i], *elem),
            _ => false,
        },
        TypeModel::Text => match v {
            ValueModel::Text(chars) => encode_utf8(chars).len() <= usize::MAX,
            _ => false,
        },
        TypeModel::Record { name, zero_copy, fields } => match v {
            ValueModel::Record(vals) => vals.len() == fields.len() && forall|i: int|
                0 <= i < vals.len() ==> conforms(#[trigger] vals[i], fields[i].ty),
            _ => false,
        },
    }
}

/// Whether each of the values belongs to the type `ty`.
fn all_conform(vals: &Vec<Value>, ty: &TypeDesc) -> (ok: bool)
    ensures
        ok <==> forall|i: int|
            0 <= i < vals@.len() ==> conforms(#[trigger] values_model(vals@)[i], ty@),
    decreases ty, 1nat,
{
    let n = vals.len();
    let mut i: usize = 0;
    while i < n
        invariant
            i <= n == vals@.len(),
            forall|j: int| 0 <= j < i ==> conforms(#[trigger] values_model(vals@)[j], ty@),
        decreases n - i,
    {
        assert(values_model(vals@)[i as int] == vals@[i as int]@);
        if !vals[i].conforms_to(ty) {
            return false;
        }
        i = i + 1;
    }
    true
}

/// Whether there is a value for each field, and each belongs to its field's
/// type.
fn fields_conform(vals: &Vec<Value>, fields: &Vec<Field>) -> (ok: bool)
    ensures
        ok <==> vals@.len() == fields@.len() && forall|i: int|
            0 <= i < vals@.len() ==> conforms(
                #[trigger] values_model(vals@)[i],
                fields_model(fields@)[i].ty,
            ),
    decreases fields,
{
    let n = vals.len();
    if n != fields.len() {
        return false;
    }
    let mut i: usize = 0;
    while i < n
        invariant
            i <= n == vals@.len() == fields@.len(),
            forall|j: int|
                0 <= j < i ==> conforms(
                    #[trigger] values_model(vals@)[j],
                    fields_model(fields@)[j].ty,
                ),
        decreases n - i,
    {
        assert(values_model(vals@)[i as int] == vals@[i as int]@);
        assert(fields_model(fields@)[i as int].ty == fields@[i as int].ty@);
        if !vals[i].conforms_to(&fields[i].ty) {
            return false;
        }
        i = i + 1;
    }
    true
}

impl Value {
    /// Whether the value belongs to the type `ty`.
    pub fn conforms_to(&self, ty: &TypeDesc) -> (ok: bool)
        ensures
            ok == conforms(self@, ty@),
        decreases ty, 0nat,
    {
        match &ty.node {
            TypeNode::Unit => match self {
                Value::Unit => true,
                _ => false,
            },
            TypeNode::Prim(kind) => match self {
                Value::Prim(p) => p.kind() == *kind,
                _ => false,
            },
            TypeNode::Phantom(_) => match self {
                Value::Phantom => true,
                _ => false,
            },
            TypeNode::Optional(inner) => match self {
                Value::Optional(None) => true,
                Value::Optional(Some(x)) => {
                    let ok = x.conforms_to(inner);
                    assert(ok == conforms(self@, ty@));
                    ok
                },
                _ => false,
            },
            TypeNode::Array(elem, n) => match self {
                Value::Array(vals) => {
                    let ok = vals.len() == *n && all_conform(vals, elem);
                    assert(ok == conforms(self@, ty@));
                    ok
                },
                _ => false,
            },
            TypeNode::Sequence(elem) => match self {
                Value::Sequence(vals) => {
                    let n = vals.len();
                    all_conform(vals, elem)
                },
                _ => false,
            },
            TypeNode::Text => match self {
                Value::Text(text) => {
                    let bytes = text.as_str().as_bytes();
                    let len = bytes.len();
                    assert(conforms(self@, ty@));
                    true
                },
                _ => false,
            },
            TypeNode::Record { name, zero_copy, fields } => match self {
                Value::Record(vals) => {
                    let ok = fields_conform(vals, fields);
                    let ghost vm = values_model(vals@);
                    let ghost fm = fields_model(fields@);
                    assert(self@ == ValueModel::Record(vm));
                    assert(ty@ == (TypeModel::Record { name: name@, zero_copy: *zero_copy, fields: fm }));
                    assert(vm.len() == vals@.len());
                    assert(fm.len() == fields@.len());
                    assert(ok ==> conforms(self@, ty@));
                    assert(conforms(self@, ty@) ==> ok);
                    ok
                },
                _ => false,
            },
        }
    }
}

/// The values after one more was added.
pub proof fn lemma_values_model_push(vals: Seq<Value>, v: Value)
    ensures
        values_model(vals.push(v)) == values_model(vals).push(v@),
{
    assert(values_model(vals.push(v)) =~= values_model(vals).push(v@));
}

/// Copies of the values.
fn copy_all(vals: &Vec<Value>) -> (copies: Vec<Value>)
    ensures
        values_model(copies@) == values_model(vals@),
    decreases vals,
{
    let n = vals.len();
    let mut copies: Vec<Value> = Vec::new();
    let mut i: usize = 0;
    while i < n
        invariant
            i <= n == vals@.len(),
            copies@.len() == i,
            forall|j: int| 0 <= j < i ==> (#[trigger] copies@[j])@ == vals@[j]@,
        decreases n - i,
    {
        let copy = vals[i].deep_copy();
        copies.push(copy);
        i = i + 1;
    }
    assert(values_model(copies@) =~= values_model(vals@));
    copies
}

impl Value {
    /// A copy of the value.
    pub fn deep_copy(&self) -> (copy: Value)
        ensures
            copy@ == self@,
        decreases self,
    {
        match self {
            Value::Unit => Value::Unit,
            Value::Prim(p) => Value::Prim(*p),
            Value::Phantom => Value::Phantom,
            Value::Optional(None) => Value::Optional(None),
            Value::Optional(Some(inner)) => Value::Optional(Some(Box::new(inner.deep_copy()))),
            Value::Array(vals) => Value::Array(copy_all(vals)),
            Value::Sequence(vals) => Value::Sequence(copy_all(vals)),
            Value::Text(text) => Value::Text(text.clone()),
            Value::Record(vals) => Value::Record(copy_all(vals)),
        }
    }
}

/// Whether the values are the same, one by one.
fn same_all(left: &Vec<Value>, right: &Vec<Value>) -> (same: bool)
    ensures
        same == (values_model(left@) == values_model(right@)),
    decreases left,
{
    let n = left.len();
    if n != right.len() {
        assert(values_model(left@).len() != values_model(right@).len());
        return false;
    }
    let mut i: usize = 0;
    while i < n
        invariant
            i <= n == left@.len() == right@.len(),
            forall|j: int| 0 <= j < i ==> (#[trigger] left@[j])@ == right@[j]@,
        decreases n - i,
    {
        if !left[i].same_as(&right[i]) {
            assert(values_model(left@)[i as int] == left@[i as int]@);
            assert(values_model(right@)[i as int] == right@[i as int]@);
            return false;
        }
        i = i + 1;
    }
    assert(values_model(left@) =~= values_model(right@));
    true
}

impl Value {
    /// Whether the two values are the same.
    pub fn same_as(&self, other: &Value) -> (same: bool)
        ensures
            same == (self@ == other@),
        decreases self,
    {
        match (self, other) {
            (Value::Unit, Value::Unit) => true,
            (Value::Prim(p), Value::Prim(q)) => *p == *q,
            (Value::Phantom, Value::Phantom) => true,
            (Value::Optional(None), Value::Optional(None)) => true,
            (Value::Optional(Some(x)), Value::Optional(Some(y))) => x.same_as(y),
            (Value::Array(left), Value::Array(right)) => same_all(left, right),
            (Value::Sequence(left), Value::Sequence(right)) => same_all(left, right),
            (Value::Text(left), Value::Text(right)) => *left == *right,
            (Value::Record(left), Value::Record(right)) => same_all(left, right),
            _ => false,
        }
    }
}

impl PartialEq for Value {
    fn eq(&self, other: &Value) -> (same: bool) {
        self.same_as(other)
    }
}

impl vstd::std_specs::cmp::PartialEqSpecImpl for Value {
    open spec fn obeys_eq_spec() -> bool {
        true
    }

    open spec fn eq_spec(&self, other: &Value) -> bool {
        self@ == other@
    }
}

} // verus!
