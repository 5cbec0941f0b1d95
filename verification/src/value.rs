//! Values, as a caller supplies them and as decoding returns them.

use vstd::prelude::*;

verus! {

/// A value of any type that a descriptor can describe.
#[derive(Debug, PartialEq, Eq)]
pub enum Value {
    Bool(bool),
    /// An integer of any width and sign.
    Int(i128),
    /// The bits of a single-precision number.
    Float32(u32),
    /// The bits of a double-precision number.
    Float64(u64),
    /// The bytes of a string.
    Text(Vec<u8>),
    /// The bytes of a key.
    Pubkey(Vec<u8>),
    /// The elements of a vector or of a fixed array.
    List(Vec<Value>),
    Optional(Option<Box<Value>>),
    /// The fields of a struct, each under its name.
    Struct(Vec<FieldValue>),
    /// A variant of an enum, by name, with its payload if it has one.
    Variant(String, Option<Box<Value>>),
}

#[derive(Debug, PartialEq, Eq)]
pub struct FieldValue {
    pub name: String,
    pub value: Value,
}

/// What a `Value` is in contracts.
pub enum ValueModel {
    Bool(bool),
    Int(int),
    Float32(u32),
    Float64(u64),
    Text(Seq<u8>),
    Pubkey(Seq<u8>),
    List(Seq<ValueModel>),
    Optional(Option<Box<ValueModel>>),
    Struct(Seq<(Seq<char>, ValueModel)>),
    Variant(Seq<char>, Option<Box<ValueModel>>),
}

/// The model of `v`: the same tree, with sequences in place of vectors.
pub open spec fn model_of(v: &Value) -> ValueModel
    decreases v,
{
    match v {
        Value::Bool(b) => ValueModel::Bool(*b),
        Value::Int(n) => ValueModel::Int(*n as int),
        Value::Float32(bits) => ValueModel::Float32(*bits),
        Value::Float64(bits) => ValueModel::Float64(*bits),
        Value::Text(bytes) => ValueModel::Text(bytes@),
        Value::Pubkey(bytes) => ValueModel::Pubkey(bytes@),
        Value::List(items) => ValueModel::List(
            Seq::new(
                items.len() as nat,
                |i: int|
                    if 0 <= i < items.len() {
                        model_of(&items[i])
                    } else {
                        ValueModel::Bool(false)
                    },
            ),
        ),
        Value::Optional(inner) => ValueModel::Optional(
            match inner {
                Some(inner) => Some(Box::new(model_of(&**inner))),
                None => None,
            },
        ),
        Value::Struct(fields) => ValueModel::Struct(
            Seq::new(
                fields.len() as nat,
                |i: int|
                    if 0 <= i < fields.len() {
                        (fields[i].name@, model_of(&fields[i].value))
                    } else {
                        (Seq::empty(), ValueModel::Bool(false))
                    },
            ),
        ),
        Value::Variant(name, payload) => ValueModel::Variant(
            name@,
            match payload {
                Some(inner) => Some(Box::new(model_of(&**inner))),
                None => None,
            },
        ),
    }
}

/// The models of the elements of a list.
pub open spec fn list_model(items: &Vec<Value>) -> Seq<ValueModel> {
    Seq::new(items.len() as nat, |i: int| model_of(&items[i]))
}

/// The names and models of the fields of a struct value.
pub open spec fn struct_model(fields: &Vec<FieldValue>) -> Seq<(Seq<char>, ValueModel)> {
    Seq::new(fields.len() as nat, |i: int| (fields[i].name@, model_of(&fields[i].value)))
}

/// The model of what an optional value or a variant holds.
pub open spec fn inner_model(inner: &Option<Box<Value>>) -> Option<Box<ValueModel>> {
    match inner {
        Some(v) => Some(Box::new(model_of(&**v))),
        None => None,
    }
}

/// The model of a composite value is made of the models of its parts.
pub proof fn lemma_model_parts(v: &Value)
    ensures
        match v {
            Value::List(items) => model_of(v) == ValueModel::List(list_model(items)),
            Value::Struct(fields) => model_of(v) == ValueModel::Struct(struct_model(fields)),
            Value::Optional(inner) => model_of(v) == ValueModel::Optional(inner_model(inner)),
            Value::Variant(name, inner) => model_of(v) == ValueModel::Variant(
                name@,
                inner_model(inner),
            ),
            _ => true,
        },
{
    match v {
        Value::List(items) => {
            assert(model_of(v)->List_0 =~= list_model(items));
        },
        Value::Struct(fields) => {
            assert(model_of(v)->Struct_0 =~= struct_model(fields));
        },
        _ => {},
    }
}

impl View for Value {
    type V = ValueModel;

    open spec fn view(&self) -> ValueModel {
        model_of(self)
    }
}

} // verus!
