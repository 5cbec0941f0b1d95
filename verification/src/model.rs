//! What type descriptors and interface definitions are in contracts:
//! the same trees, with sequences in place of vectors.

use vstd::prelude::*;
use crate::idl::{AccountSlot, IdlDefinition, IdlInstruction};
use crate::schema::{
    DiscriminantWidth, Field, PrimitiveKind, TypeDescriptor, Variant,
};

verus! {

pub enum TypeModel {
    Primitive(PrimitiveKind),
    Vector(Box<TypeModel>),
    Optional(Box<TypeModel>),
    FixedArray(Box<TypeModel>, nat),
    Struct(Seq<(Seq<char>, TypeModel)>),
    Enum(DiscriminantWidth, Seq<VariantModel>),
    DefinedRef(Seq<char>),
}

pub struct VariantModel {
    pub name: Seq<char>,
    pub discriminant: nat,
    pub payload: Option<TypeModel>,
}

/// The model of `d`.
pub open spec fn type_model(d: &TypeDescriptor) -> TypeModel
    decreases d,
{
    match d {
        TypeDescriptor::Primitive(k) => TypeModel::Primitive(*k),
        TypeDescriptor::Vector(e) => TypeModel::Vector(Box::new(type_model(&**e))),
        TypeDescriptor::Optional(e) => TypeModel::Optional(Box::new(type_model(&**e))),
        TypeDescriptor::FixedArray(e, n) => TypeModel::FixedArray(
            Box::new(type_model(&**e)),
            *n as nat,
        ),
        TypeDescriptor::Struct(fields) => TypeModel::Struct(
            Seq::new(
                fields.len() as nat,
                |i: int|
                    if 0 <= i < fields.len() {
                        (fields[i].name@, type_model(&fields[i].ty))
                    } else {
                        (Seq::empty(), TypeModel::Primitive(PrimitiveKind::Bool))
                    },
            ),
        ),
        TypeDescriptor::Enum(width, variants) => TypeModel::Enum(
            *width,
            Seq::new(
                variants.len() as nat,
                |i: int|
                    if 0 <= i < variants.len() {
                        VariantModel {
                            name: variants[i].name@,
                            discriminant: variants[i].discriminant as nat,
                            payload: match variants[i].payload {
                                Some(p) => Some(type_model(&p)),
                                None => None,
                            },
                        }
                    } else {
                        VariantModel { name: Seq::empty(), discriminant: 0, payload: None }
                    },
            ),
        ),
        TypeDescriptor::DefinedRef(name) => TypeModel::DefinedRef(name@),
    }
}

/// The model of a type that may be absent.
pub open spec fn optional_type_model(d: &Option<TypeDescriptor>) -> Option<TypeModel> {
    match d {
        Some(p) => Some(type_model(p)),
        None => None,
    }
}

/// The names and models of fields, of arguments, or of a type's
/// definitions.
pub open spec fn field_models(fields: &Vec<Field>) -> Seq<(Seq<char>, TypeModel)> {
    Seq::new(fields.len() as nat, |i: int| (fields[i].name@, type_model(&fields[i].ty)))
}

/// The model of a variant.
pub open spec fn variant_model(v: &Variant) -> VariantModel {
    VariantModel {
        name: v.name@,
        discriminant: v.discriminant as nat,
        payload: optional_type_model(&v.payload),
    }
}

pub open spec fn variant_models(variants: &Vec<Variant>) -> Seq<VariantModel> {
    Seq::new(variants.len() as nat, |i: int| variant_model(&variants[i]))
}

/// The model of a composite type is made of the models of its parts.
pub proof fn lemma_type_model_parts(d: &TypeDescriptor)
    ensures
        match d {
            TypeDescriptor::Struct(fields) => type_model(d) == TypeModel::Struct(
                field_models(fields),
            ),
            TypeDescriptor::Enum(width, variants) => type_model(d) == TypeModel::Enum(
                *width,
                variant_models(variants),
            ),
            _ => true,
        },
{
    match d {
        TypeDescriptor::Struct(fields) => {
            assert(type_model(d)->Struct_0 =~= field_models(fields));
        },
        TypeDescriptor::Enum(width, variants) => {
            assert(type_model(d)->Enum_1 =~= variant_models(variants));
        },
        _ => {},
    }
}

impl View for TypeDescriptor {
    type V = TypeModel;

    open spec fn view(&self) -> TypeModel {
        type_model(self)
    }
}

pub struct SlotModel {
    pub name: Seq<char>,
    pub is_signer: bool,
    pub is_writable: bool,
    pub is_optional: bool,
}

pub struct InstructionModel {
    pub name: Seq<char>,
    pub accounts: Seq<SlotModel>,
    pub args: Seq<(Seq<char>, TypeModel)>,
    pub returns: Option<TypeModel>,
}

pub struct IdlModel {
    pub program_id: Seq<u8>,
    pub instructions: Seq<InstructionModel>,
    pub types: Seq<(Seq<char>, TypeModel)>,
}

impl View for AccountSlot {
    type V = SlotModel;

    open spec fn view(&self) -> SlotModel {
        SlotModel {
            name: self.name@,
            is_signer: self.is_signer,
            is_writable: self.is_writable,
            is_optional: self.is_optional,
        }
    }
}

pub open spec fn slot_models(slots: &Vec<AccountSlot>) -> Seq<SlotModel> {
    Seq::new(slots.len() as nat, |i: int| slots[i]@)
}

impl View for IdlInstruction {
    type V = InstructionModel;

    open spec fn view(&self) -> InstructionModel {
        InstructionModel {
            name: self.name@,
            accounts: slot_models(&self.accounts),
            args: field_models(&self.args),
            returns: optional_type_model(&self.returns),
        }
    }
}

pub open spec fn instruction_models(instructions: &Vec<IdlInstruction>) -> Seq<InstructionModel> {
    Seq::new(instructions.len() as nat, |i: int| instructions[i]@)
}

impl View for IdlDefinition {
    type V = IdlModel;

    open spec fn view(&self) -> IdlModel {
        IdlModel {
            program_id: self.program_id.bytes@,
            instructions: instruction_models(&self.instructions),
            types: field_models(&self.types.entries),
        }
    }
}

} // verus!
