//! Reading an interface definition from its JSON document.

use vstd::prelude::*;
use vstd::utf8::encode_utf8;
use crate::errors::SchemaError;
use crate::idl::{
    address_from_bytes,
    instruction_names,
    slot_names,
    AccountSlot,
    Address,
    IdlDefinition,
    IdlInstruction,
};
use crate::names::{all_distinct, names_of};
use crate::sameness::{lemma_instruction_names_same, lemma_instruction_same, lemma_ordered_same};
use crate::table::{is_valid, ordered_by};
use crate::json::{get_member, is_word, member, Json, Member};
use crate::model::{
    field_models,
    instruction_models,
    lemma_type_model_parts,
    slot_models,
    type_model,
    variant_model,
    variant_models,
    IdlModel,
    InstructionModel,
    SlotModel,
    TypeModel,
    VariantModel,
};
use crate::schema::{
    field_names,
    valid_fields,
    DiscriminantWidth,
    Field,
    PrimitiveKind,
    TypeDescriptor,
    TypeTable,
    Variant,
};

verus! {

/// The kind of value without parts that goes by the name `kind`.
pub open spec fn primitive_named(kind: Seq<char>) -> Option<PrimitiveKind> {
    if kind == "bool"@ {
        Some(PrimitiveKind::Bool)
    } else if kind == "u8"@ {
        Some(PrimitiveKind::U8)
    } else if kind == "u16"@ {
        Some(PrimitiveKind::U16)
    } else if kind == "u32"@ {
        Some(PrimitiveKind::U32)
    } else if kind == "u64"@ {
        Some(PrimitiveKind::U64)
    } else if kind == "i8"@ {
        Some(PrimitiveKind::I8)
    } else if kind == "i16"@ {
        Some(PrimitiveKind::I16)
    } else if kind == "i32"@ {
        Some(PrimitiveKind::I32)
    } else if kind == "i64"@ {
        Some(PrimitiveKind::I64)
    } else if kind == "f32"@ {
        Some(PrimitiveKind::F32)
    } else if kind == "f64"@ {
        Some(PrimitiveKind::F64)
    } else if kind == "string"@ {
        Some(PrimitiveKind::Text)
    } else if kind == "pubkey"@ {
        Some(PrimitiveKind::Pubkey)
    } else {
        None
    }
}

/// The string that the member `key` holds.
pub open spec fn text_member(members: &Vec<Member>, key: Seq<char>) -> Option<Seq<char>> {
    match member(members, key) {
        Some(Json::Text(s)) => Some(s@),
        _ => None,
    }
}

/// The items of the array that the member `key` holds.
pub open spec fn array_member(members: &Vec<Member>, key: Seq<char>) -> Option<Vec<Json>> {
    match member(members, key) {
        Some(Json::Array(items)) => Some(items),
        _ => None,
    }
}

/// The length that an array type declares.
pub open spec fn array_length(members: &Vec<Member>) -> Option<nat> {
    match member(members, "length"@) {
        Some(Json::Integer(n)) => if 0 <= n <= usize::MAX {
            Some(n as nat)
        } else {
            None
        },
        _ => None,
    }
}

/// The width that an enum type declares for its discriminant: one byte
/// where it declares none.
pub open spec fn enum_width(members: &Vec<Member>) -> Option<DiscriminantWidth> {
    match member(members, "width"@) {
        None => Some(DiscriminantWidth::One),
        Some(Json::Integer(n)) => if n == 1 {
            Some(DiscriminantWidth::One)
        } else if n == 2 {
            Some(DiscriminantWidth::Two)
        } else if n == 4 {
            Some(DiscriminantWidth::Four)
        } else if n == 8 {
            Some(DiscriminantWidth::Eight)
        } else {
            None
        },
        _ => None,
    }
}

/// The discriminant that a variant declares: its index among the variants
/// where it declares none.
pub open spec fn variant_discriminant(members: &Vec<Member>, index: int) -> Option<nat> {
    match member(members, "discriminant"@) {
        None => if 0 <= index <= u64::MAX {
            Some(index as nat)
        } else {
            None
        },
        Some(Json::Integer(n)) => if 0 <= n <= u64::MAX {
            Some(n as nat)
        } else {
            None
        },
        _ => None,
    }
}

/// The type that `j` describes.
///
/// A string names a kind of value without parts. An object has a `kind`:
/// `vector` and `option` with an `element`; `array` with an `element` and
/// a `length`; `struct` with `fields`; `enum` with `variants` and, where
/// it is not 1, a `width`; `defined` with a `name`; or the name of a kind
/// without parts. A kind that is none of these is `UnsupportedType`, and
/// anything else that is out of place is `MalformedIdl`.
pub open spec fn parsed_type(j: &Json) -> Result<TypeModel, SchemaError>
    decreases j, 0nat,
{
    match j {
        Json::Text(kind) => match primitive_named(kind@) {
            Some(k) => Ok(TypeModel::Primitive(k)),
            None => Err(SchemaError::UnsupportedType),
        },
        Json::Object(members) => match text_member(members, "kind"@) {
            None => Err(SchemaError::MalformedIdl),
            Some(kind) => if kind == "vector"@ || kind == "option"@ || kind == "array"@ {
                match member(members, "element"@) {
                    None => Err(SchemaError::MalformedIdl),
                    Some(e) => if kind == "array"@ && array_length(members).is_none() {
                        Err(SchemaError::MalformedIdl)
                    } else {
                        match parsed_type(&e) {
                            Err(x) => Err(x),
                            Ok(t) => Ok(
                                if kind == "vector"@ {
                                    TypeModel::Vector(Box::new(t))
                                } else if kind == "option"@ {
                                    TypeModel::Optional(Box::new(t))
                                } else {
                                    TypeModel::FixedArray(
                                        Box::new(t),
                                        array_length(members).unwrap(),
                                    )
                                },
                            ),
                        }
                    },
                }
            } else if kind == "struct"@ {
                match array_member(members, "fields"@) {
                    None => Err(SchemaError::MalformedIdl),
                    Some(items) => match parsed_fields(&items, 0) {
                        Err(x) => Err(x),
                        Ok(fields) => Ok(TypeModel::Struct(fields)),
                    },
                }
            } else if kind == "enum"@ {
                match (enum_width(members), array_member(members, "variants"@)) {
                    (Some(width), Some(items)) => match parsed_variants(&items, 0) {
                        Err(x) => Err(x),
                        Ok(variants) => Ok(TypeModel::Enum(width, variants)),
                    },
                    _ => Err(SchemaError::MalformedIdl),
                }
            } else if kind == "defined"@ {
                match text_member(members, "name"@) {
                    Some(name) => Ok(TypeModel::DefinedRef(name)),
                    None => Err(SchemaError::MalformedIdl),
                }
            } else {
                match primitive_named(kind) {
                    Some(k) => Ok(TypeModel::Primitive(k)),
                    None => Err(SchemaError::UnsupportedType),
                }
            },
        },
        _ => Err(SchemaError::MalformedIdl),
    }
}

/// The named types that the items from index `from` on describe: each
/// item an object with a `name` and a `type`.
pub open spec fn parsed_fields(items: &Vec<Json>, from: int) -> Result<
    Seq<(Seq<char>, TypeModel)>,
    SchemaError,
>
    decreases items, items.len() - from,
{
    if from < 0 || from >= items.len() {
        Ok(Seq::empty())
    } else {
        match items[from] {
            Json::Object(members) => match (
                text_member(&members, "name"@),
                member(&members, "type"@),
            ) {
                (Some(name), Some(ty)) => match parsed_type(&ty) {
                    Err(x) => Err(x),
                    Ok(t) => match parsed_fields(items, from + 1) {
                        Err(x) => Err(x),
                        Ok(rest) => Ok(seq![(name, t)] + rest),
                    },
                },
                _ => Err(SchemaError::MalformedIdl),
            },
            _ => Err(SchemaError::MalformedIdl),
        }
    }
}

/// The variants that the items from index `from` on describe: each item
/// an object with a `name` and, where it has them, a `discriminant` and a
/// `payload`.
pub open spec fn parsed_variants(items: &Vec<Json>, from: int) -> Result<
    Seq<VariantModel>,
    SchemaError,
>
    decreases items, items.len() - from,
{
    if from < 0 || from >= items.len() {
        Ok(Seq::empty())
    } else {
        match items[from] {
            Json::Object(members) => match (
                text_member(&members, "name"@),
                variant_discriminant(&members, from),
            ) {
                (Some(name), Some(discriminant)) => match (match member(&members, "payload"@) {
                    None => Ok(None),
                    Some(p) => match parsed_type(&p) {
                        Ok(t) => Ok(Some(t)),
                        Err(x) => Err(x),
                    },
                }) {
                    Err(x) => Err(x),
                    Ok(payload) => match parsed_variants(items, from + 1) {
                        Err(x) => Err(x),
                        Ok(rest) => Ok(seq![VariantModel { name, discriminant, payload }] + rest),
                    },
                },
                _ => Err(SchemaError::MalformedIdl),
            },
            _ => Err(SchemaError::MalformedIdl),
        }
    }
}

/// The kind of value without parts that goes by the name `kind`.
fn primitive_of(kind: &String) -> (r: Option<PrimitiveKind>)
    ensures
        r == primitive_named(kind@),
{
    if is_word(kind, "bool") {
        Some(PrimitiveKind::Bool)
    } else if is_word(kind, "u8") {
        Some(PrimitiveKind::U8)
    } else if is_word(kind, "u16") {
        Some(PrimitiveKind::U16)
    } else if is_word(kind, "u32") {
        Some(PrimitiveKind::U32)
    } else if is_word(kind, "u64") {
        Some(PrimitiveKind::U64)
    } else if is_word(kind, "i8") {
        Some(PrimitiveKind::I8)
    } else if is_word(kind, "i16") {
        Some(PrimitiveKind::I16)
    } else if is_word(kind, "i32") {
        Some(PrimitiveKind::I32)
    } else if is_word(kind, "i64") {
        Some(PrimitiveKind::I64)
    } else if is_word(kind, "f32") {
        Some(PrimitiveKind::F32)
    } else if is_word(kind, "f64") {
        Some(PrimitiveKind::F64)
    } else if is_word(kind, "string") {
        Some(PrimitiveKind::Text)
    } else if is_word(kind, "pubkey") {
        Some(PrimitiveKind::Pubkey)
    } else {
        None
    }
}

fn get_text<'a>(members: &'a Vec<Member>, key: &str) -> (r: Option<&'a String>)
    ensures
        match r {
            Some(s) => text_member(members, key@) == Some(s@),
            None => text_member(members, key@).is_none(),
        },
{
    match get_member(members, key) {
        Some(Json::Text(s)) => Some(s),
        _ => None,
    }
}

fn get_array<'a>(members: &'a Vec<Member>, key: &str) -> (r: Option<&'a Vec<Json>>)
    ensures
        match r {
            Some(items) => array_member(members, key@) == Some(*items) && member(members, key@)
                == Some(Json::Array(*items)),
            None => array_member(members, key@).is_none(),
        },
{
    match get_member(members, key) {
        Some(Json::Array(items)) => Some(items),
        _ => None,
    }
}

fn get_length(members: &Vec<Member>) -> (r: Option<usize>)
    ensures
        match r {
            Some(n) => array_length(members) == Some(n as nat),
            None => array_length(members).is_none(),
        },
{
    match get_member(members, "length") {
        Some(Json::Integer(n)) => {
            if 0 <= *n && *n <= usize::MAX as i128 {
                Some(*n as usize)
            } else {
                None
            }
        },
        _ => None,
    }
}

fn get_width(members: &Vec<Member>) -> (r: Option<DiscriminantWidth>)
    ensures
        r == enum_width(members),
{
    match get_member(members, "width") {
        None => Some(DiscriminantWidth::One),
        Some(Json::Integer(n)) => {
            if *n == 1 {
                Some(DiscriminantWidth::One)
            } else if *n == 2 {
                Some(DiscriminantWidth::Two)
            } else if *n == 4 {
                Some(DiscriminantWidth::Four)
            } else if *n == 8 {
                Some(DiscriminantWidth::Eight)
            } else {
                None
            }
        },
        _ => None,
    }
}

fn get_discriminant(members: &Vec<Member>, index: usize) -> (r: Option<u64>)
    ensures
        match r {
            Some(n) => variant_discriminant(members, index as int) == Some(n as nat),
            None => variant_discriminant(members, index as int).is_none(),
        },
{
    match get_member(members, "discriminant") {
        None => Some(index as u64),
        Some(Json::Integer(n)) => {
            if 0 <= *n && *n <= u64::MAX as i128 {
                Some(*n as u64)
            } else {
                None
            }
        },
        _ => None,
    }
}

/// The outcome `r` of reading a type is the outcome `m` of the grammar.
pub open spec fn parsed_as(
    r: Result<TypeDescriptor, SchemaError>,
    m: Result<TypeModel, SchemaError>,
) -> bool {
    match r {
        Ok(d) => m == Ok::<TypeModel, SchemaError>(d@),
        Err(e) => m == Err::<TypeModel, SchemaError>(e),
    }
}

/// `m`, with `done` in front of what it holds.
pub open spec fn after_parsed<T>(done: Seq<T>, m: Result<Seq<T>, SchemaError>) -> Result<
    Seq<T>,
    SchemaError,
> {
    match m {
        Ok(rest) => Ok(done + rest),
        Err(x) => Err(x),
    }
}

/// The type that `j` describes.
pub fn parse_type(j: &Json) -> (r: Result<TypeDescriptor, SchemaError>)
    ensures
        parsed_as(r, parsed_type(j)),
    decreases j, 0nat,
{
    match j {
        Json::Text(kind) => match primitive_of(kind) {
            Some(k) => Ok(TypeDescriptor::Primitive(k)),
            None => Err(SchemaError::UnsupportedType),
        },
        Json::Object(members) => {
            let kind: &String = match get_text(members, "kind") {
                Some(kind) => kind,
                None => {
                    return Err(SchemaError::MalformedIdl);
                },
            };
            let vector: bool = is_word(kind, "vector");
            let option: bool = is_word(kind, "option");
            let array: bool = is_word(kind, "array");
            if vector || option || array {
                let element: &Json = match get_member(members, "element") {
                    Some(e) => e,
                    None => {
                        return Err(SchemaError::MalformedIdl);
                    },
                };
                let length: usize = if array {
                    match get_length(members) {
                        Some(n) => n,
                        None => {
                            return Err(SchemaError::MalformedIdl);
                        },
                    }
                } else {
                    0
                };
                let inner: TypeDescriptor = match parse_type(element) {
                    Ok(t) => t,
                    Err(x) => {
                        return Err(x);
                    },
                };
                if vector {
                    Ok(TypeDescriptor::Vector(Box::new(inner)))
                } else if option {
                    Ok(TypeDescriptor::Optional(Box::new(inner)))
                } else {
                    Ok(TypeDescriptor::FixedArray(Box::new(inner), length))
                }
            } else if is_word(kind, "struct") {
                match get_array(members, "fields") {
                    None => Err(SchemaError::MalformedIdl),
                    Some(items) => match parse_fields(items) {
                        Err(x) => Err(x),
                        Ok(fields) => {
                            let d = TypeDescriptor::Struct(fields);
                            proof {
                                lemma_type_model_parts(&d);
                            }
                            Ok(d)
                        },
                    },
                }
            } else if is_word(kind, "enum") {
                let width: DiscriminantWidth = match get_width(members) {
                    Some(width) => width,
                    None => {
                        return Err(SchemaError::MalformedIdl);
                    },
                };
                match get_array(members, "variants") {
                    None => Err(SchemaError::MalformedIdl),
                    Some(items) => match parse_variants(items) {
                        Err(x) => Err(x),
                        Ok(variants) => {
                            let d = TypeDescriptor::Enum(width, variants);
                            proof {
                                lemma_type_model_parts(&d);
                            }
                            Ok(d)
                        },
                    },
                }
            } else if is_word(kind, "defined") {
                match get_text(members, "name") {
                    Some(name) => Ok(TypeDescriptor::DefinedRef(name.clone())),
                    None => Err(SchemaError::MalformedIdl),
                }
            } else {
                match primitive_of(kind) {
                    Some(k) => Ok(TypeDescriptor::Primitive(k)),
                    None => Err(SchemaError::UnsupportedType),
                }
            }
        },
        _ => Err(SchemaError::MalformedIdl),
    }
}

/// The named types that `items` describe.
pub fn parse_fields(items: &Vec<Json>) -> (r: Result<Vec<Field>, SchemaError>)
    ensures
        match r {
            Ok(fields) => parsed_fields(items, 0) == Ok::<Seq<(Seq<char>, TypeModel)>, SchemaError>(
                field_models(&fields),
            ),
            Err(e) => parsed_fields(items, 0) == Err::<Seq<(Seq<char>, TypeModel)>, SchemaError>(e),
        },
    decreases items, 1nat,
{
    let ghost whole = parsed_fields(items, 0);
    let mut fields: Vec<Field> = Vec::new();
    let mut i: usize = 0;
    proof {
        assert(field_models(&fields) =~= Seq::empty());
        if whole.is_ok() {
            assert(Seq::<(Seq<char>, TypeModel)>::empty() + whole->Ok_0 =~= whole->Ok_0);
        }
    }
    while i < items.len()
        invariant
            i <= items.len(),
            fields.len() == i,
            whole == parsed_fields(items, 0),
            whole == after_parsed(field_models(&fields), parsed_fields(items, i as int)),
        decreases items.len() - i,
    {
        let ghost done = field_models(&fields);
        let members: &Vec<Member> = match &items[i] {
            Json::Object(members) => members,
            _ => {
                return Err(SchemaError::MalformedIdl);
            },
        };
        let name: &String = match get_text(members, "name") {
            Some(name) => name,
            None => {
                return Err(SchemaError::MalformedIdl);
            },
        };
        let described: &Json = match get_member(members, "type") {
            Some(described) => described,
            None => {
                return Err(SchemaError::MalformedIdl);
            },
        };
        let ty: TypeDescriptor = match parse_type(described) {
            Ok(ty) => ty,
            Err(x) => {
                return Err(x);
            },
        };
        let field = Field { name: name.clone(), ty };
        proof {
            let next = parsed_fields(items, i + 1);
            let entry = (field.name@, type_model(&field.ty));
            if next.is_ok() {
                assert(done + (seq![entry] + next->Ok_0) =~= done.push(entry) + next->Ok_0);
            }
        }
        fields.push(field);
        proof {
            assert(field_models(&fields) =~= done.push(
                (fields[i as int].name@, type_model(&fields[i as int].ty)),
            ));
        }
        i += 1;
    }
    proof {
        assert(field_models(&fields) + Seq::<(Seq<char>, TypeModel)>::empty() =~= field_models(
            &fields,
        ));
    }
    Ok(fields)
}

/// The variants that `items` describe.
pub fn parse_variants(items: &Vec<Json>) -> (r: Result<Vec<Variant>, SchemaError>)
    ensures
        match r {
            Ok(variants) => parsed_variants(items, 0) == Ok::<Seq<VariantModel>, SchemaError>(
                variant_models(&variants),
            ),
            Err(e) => parsed_variants(items, 0) == Err::<Seq<VariantModel>, SchemaError>(e),
        },
    decreases items, 1nat,
{
    let ghost whole = parsed_variants(items, 0);
    let mut variants: Vec<Variant> = Vec::new();
    let mut i: usize = 0;
    proof {
        assert(variant_models(&variants) =~= Seq::empty());
        if whole.is_ok() {
            assert(Seq::<VariantModel>::empty() + whole->Ok_0 =~= whole->Ok_0);
        }
    }
    while i < items.len()
        invariant
            i <= items.len(),
            variants.len() == i,
            whole == parsed_variants(items, 0),
            whole == after_parsed(variant_models(&variants), parsed_variants(items, i as int)),
        decreases items.len() - i,
    {
        let ghost done = variant_models(&variants);
        let members: &Vec<Member> = match &items[i] {
            Json::Object(members) => members,
            _ => {
                return Err(SchemaError::MalformedIdl);
            },
        };
        let name: &String = match get_text(members, "name") {
            Some(name) => name,
            None => {
                return Err(SchemaError::MalformedIdl);
            },
        };
        let discriminant: u64 = match get_discriminant(members, i) {
            Some(discriminant) => discriminant,
            None => {
                return Err(SchemaError::MalformedIdl);
            },
        };
        let payload: Option<TypeDescriptor> = match get_member(members, "payload") {
            None => None,
            Some(described) => match parse_type(described) {
                Ok(ty) => Some(ty),
                Err(x) => {
                    return Err(x);
                },
            },
        };
        let variant = Variant { name: name.clone(), discriminant, payload };
        proof {
            let next = parsed_variants(items, i + 1);
            let entry = variant_model(&variant);
            if next.is_ok() {
                assert(done + (seq![entry] + next->Ok_0) =~= done.push(entry) + next->Ok_0);
            }
        }
        variants.push(variant);
        proof {
            assert(variant_models(&variants) =~= done.push(variant_model(&variants[i as int])));
        }
        i += 1;
    }
    proof {
        assert(variant_models(&variants) + Seq::<VariantModel>::empty() =~= variant_models(
            &variants,
        ));
    }
    Ok(variants)
}

/// The flag that the member `key` holds: unset where there is no such
/// member.
pub open spec fn flag_member(members: &Vec<Member>, key: Seq<char>) -> Option<bool> {
    match member(members, key) {
        None => Some(false),
        Some(Json::Bool(b)) => Some(b),
        _ => None,
    }
}

/// The account slot that `j` describes: an object with a `name` and,
/// where they are set, the flags `is_signer`, `is_writable` and
/// `is_optional`.
pub open spec fn parsed_slot(j: &Json) -> Result<SlotModel, SchemaError> {
    match j {
        Json::Object(members) => match (
            text_member(members, "name"@),
            flag_member(members, "is_signer"@),
            flag_member(members, "is_writable"@),
            flag_member(members, "is_optional"@),
        ) {
            (Some(name), Some(is_signer), Some(is_writable), Some(is_optional)) => Ok(
                SlotModel { name, is_signer, is_writable, is_optional },
            ),
            _ => Err(SchemaError::MalformedIdl),
        },
        _ => Err(SchemaError::MalformedIdl),
    }
}

/// The account slots that the items from index `from` on describe.
pub open spec fn parsed_slots(items: &Vec<Json>, from: int) -> Result<Seq<SlotModel>, SchemaError>
    decreases items.len() - from,
{
    if from < 0 || from >= items.len() {
        Ok(Seq::empty())
    } else {
        match parsed_slot(&items[from]) {
            Err(x) => Err(x),
            Ok(slot) => match parsed_slots(items, from + 1) {
                Err(x) => Err(x),
                Ok(rest) => Ok(seq![slot] + rest),
            },
        }
    }
}

/// The type that the member `key` describes, if there is such a member.
pub open spec fn parsed_optional_type(members: &Vec<Member>, key: Seq<char>) -> Result<
    Option<TypeModel>,
    SchemaError,
> {
    match member(members, key) {
        None => Ok(None),
        Some(described) => match parsed_type(&described) {
            Ok(t) => Ok(Some(t)),
            Err(x) => Err(x),
        },
    }
}

/// The instruction that `j` describes: an object with a `name`, its
/// `accounts`, its `args` and, where it returns a value, the type that it
/// `returns`.
pub open spec fn parsed_instruction(j: &Json) -> Result<InstructionModel, SchemaError> {
    match j {
        Json::Object(members) => match (
            text_member(members, "name"@),
            array_member(members, "accounts"@),
            array_member(members, "args"@),
        ) {
            (Some(name), Some(accounts), Some(args)) => match parsed_slots(&accounts, 0) {
                Err(x) => Err(x),
                Ok(accounts) => match parsed_fields(&args, 0) {
                    Err(x) => Err(x),
                    Ok(args) => match parsed_optional_type(members, "returns"@) {
                        Err(x) => Err(x),
                        Ok(returned) => Ok(
                            InstructionModel { name, accounts, args, returns: returned },
                        ),
                    },
                },
            },
            _ => Err(SchemaError::MalformedIdl),
        },
        _ => Err(SchemaError::MalformedIdl),
    }
}

/// The instructions that the items from index `from` on describe.
pub open spec fn parsed_instructions(items: &Vec<Json>, from: int) -> Result<
    Seq<InstructionModel>,
    SchemaError,
>
    decreases items.len() - from,
{
    if from < 0 || from >= items.len() {
        Ok(Seq::empty())
    } else {
        match parsed_instruction(&items[from]) {
            Err(x) => Err(x),
            Ok(instruction) => match parsed_instructions(items, from + 1) {
                Err(x) => Err(x),
                Ok(rest) => Ok(seq![instruction] + rest),
            },
        }
    }
}

fn get_flag(members: &Vec<Member>, key: &str) -> (r: Option<bool>)
    ensures
        r == flag_member(members, key@),
{
    match get_member(members, key) {
        None => Some(false),
        Some(Json::Bool(b)) => Some(*b),
        _ => None,
    }
}

/// The account slot that `j` describes.
pub fn parse_slot(j: &Json) -> (r: Result<AccountSlot, SchemaError>)
    ensures
        match r {
            Ok(slot) => parsed_slot(j) == Ok::<SlotModel, SchemaError>(slot@),
            Err(e) => parsed_slot(j) == Err::<SlotModel, SchemaError>(e),
        },
{
    let members: &Vec<Member> = match j {
        Json::Object(members) => members,
        _ => {
            return Err(SchemaError::MalformedIdl);
        },
    };
    match (
        get_text(members, "name"),
        get_flag(members, "is_signer"),
        get_flag(members, "is_writable"),
        get_flag(members, "is_optional"),
    ) {
        (Some(name), Some(is_signer), Some(is_writable), Some(is_optional)) => Ok(
            AccountSlot { name: name.clone(), is_signer, is_writable, is_optional },
        ),
        _ => Err(SchemaError::MalformedIdl),
    }
}

/// The account slots that `items` describe.
pub fn parse_slots(items: &Vec<Json>) -> (r: Result<Vec<AccountSlot>, SchemaError>)
    ensures
        match r {
            Ok(slots) => parsed_slots(items, 0) == Ok::<Seq<SlotModel>, SchemaError>(
                slot_models(&slots),
            ),
            Err(e) => parsed_slots(items, 0) == Err::<Seq<SlotModel>, SchemaError>(e),
        },
{
    let ghost whole = parsed_slots(items, 0);
    let mut slots: Vec<AccountSlot> = Vec::new();
    let mut i: usize = 0;
    proof {
        assert(slot_models(&slots) =~= Seq::empty());
        if whole.is_ok() {
            assert(Seq::<SlotModel>::empty() + whole->Ok_0 =~= whole->Ok_0);
        }
    }
    while i < items.len()
        invariant
            i <= items.len(),
            slots.len() == i,
            whole == parsed_slots(items, 0),
            whole == after_parsed(slot_models(&slots), parsed_slots(items, i as int)),
        decreases items.len() - i,
    {
        let ghost done = slot_models(&slots);
        let slot: AccountSlot = match parse_slot(&items[i]) {
            Ok(slot) => slot,
            Err(x) => {
                return Err(x);
            },
        };
        proof {
            let next = parsed_slots(items, i + 1);
            if next.is_ok() {
                assert(done + (seq![slot@] + next->Ok_0) =~= done.push(slot@) + next->Ok_0);
            }
        }
        slots.push(slot);
        proof {
            assert(slot_models(&slots) =~= done.push(slots[i as int]@));
        }
        i += 1;
    }
    proof {
        assert(slot_models(&slots) + Seq::<SlotModel>::empty() =~= slot_models(&slots));
    }
    Ok(slots)
}

/// The instruction that `j` describes.
pub fn parse_instruction(j: &Json) -> (r: Result<IdlInstruction, SchemaError>)
    ensures
        match r {
            Ok(instruction) => parsed_instruction(j) == Ok::<InstructionModel, SchemaError>(
                instruction@,
            ),
            Err(e) => parsed_instruction(j) == Err::<InstructionModel, SchemaError>(e),
        },
{
    let members: &Vec<Member> = match j {
        Json::Object(members) => members,
        _ => {
            return Err(SchemaError::MalformedIdl);
        },
    };
    let (name, slot_items, arg_items) = match (
        get_text(members, "name"),
        get_array(members, "accounts"),
        get_array(members, "args"),
    ) {
        (Some(name), Some(slot_items), Some(arg_items)) => (name, slot_items, arg_items),
        _ => {
            return Err(SchemaError::MalformedIdl);
        },
    };
    let accounts: Vec<AccountSlot> = match parse_slots(slot_items) {
        Ok(accounts) => accounts,
        Err(x) => {
            return Err(x);
        },
    };
    let args: Vec<Field> = match parse_fields(arg_items) {
        Ok(args) => args,
        Err(x) => {
            return Err(x);
        },
    };
    let returned: Option<TypeDescriptor> = match get_member(members, "returns") {
        None => None,
        Some(described) => match parse_type(described) {
            Ok(ty) => Some(ty),
            Err(x) => {
                return Err(x);
            },
        },
    };
    Ok(IdlInstruction { name: name.clone(), accounts, args, returns: returned })
}

/// The instructions that `items` describe.
pub fn parse_instructions(items: &Vec<Json>) -> (r: Result<Vec<IdlInstruction>, SchemaError>)
    ensures
        match r {
            Ok(instructions) => parsed_instructions(items, 0) == Ok::<
                Seq<InstructionModel>,
                SchemaError,
            >(instruction_models(&instructions)),
            Err(e) => parsed_instructions(items, 0) == Err::<Seq<InstructionModel>, SchemaError>(e),
        },
{
    let ghost whole = parsed_instructions(items, 0);
    let mut instructions: Vec<IdlInstruction> = Vec::new();
    let mut i: usize = 0;
    proof {
        assert(instruction_models(&instructions) =~= Seq::empty());
        if whole.is_ok() {
            assert(Seq::<InstructionModel>::empty() + whole->Ok_0 =~= whole->Ok_0);
        }
    }
    while i < items.len()
        invariant
            i <= items.len(),
            instructions.len() == i,
            whole == parsed_instructions(items, 0),
            whole == after_parsed(
                instruction_models(&instructions),
                parsed_instructions(items, i as int),
            ),
        decreases items.len() - i,
    {
        let ghost done = instruction_models(&instructions);
        let instruction: IdlInstruction = match parse_instruction(&items[i]) {
            Ok(instruction) => instruction,
            Err(x) => {
                return Err(x);
            },
        };
        proof {
            let next = parsed_instructions(items, i + 1);
            if next.is_ok() {
                assert(done + (seq![instruction@] + next->Ok_0) =~= done.push(instruction@)
                    + next->Ok_0);
            }
        }
        instructions.push(instruction);
        proof {
            assert(instruction_models(&instructions) =~= done.push(instructions[i as int]@));
        }
        i += 1;
    }
    proof {
        assert(instruction_models(&instructions) + Seq::<InstructionModel>::empty()
            =~= instruction_models(&instructions));
    }
    Ok(instructions)
}

/// The bytes that `text` stands for in base58, if it is base58.
pub uninterp spec fn base58_decoded(text: Seq<u8>) -> Option<Seq<u8>>;

/// The bytes that `text` stands for, as `bs58::decode` with `into_vec`
/// finds them: base58 in the alphabet of Bitcoin. `None` where that
/// function reports an error. The result depends on `text` alone.
#[verifier::external_body]
fn base58_decode(text: &[u8]) -> (r: Option<Vec<u8>>)
    ensures
        match r {
            Some(bytes) => base58_decoded(text@) == Some(bytes@),
            None => base58_decoded(text@).is_none(),
        },
{
    bs58::decode(text).into_vec().ok()
}

/// The program identifier that a definition declares: the 32 bytes that
/// its `program_id` holds in base58.
pub open spec fn parsed_program_id(members: &Vec<Member>) -> Option<Seq<u8>> {
    match text_member(members, "program_id"@) {
        Some(text) => match base58_decoded(encode_utf8(text)) {
            Some(bytes) => if bytes.len() == 32 {
                Some(bytes)
            } else {
                None
            },
            None => None,
        },
        None => None,
    }
}

/// The named types that a definition declares: those of its `types`, and
/// none where it has no such member.
pub open spec fn parsed_types(members: &Vec<Member>) -> Result<
    Seq<(Seq<char>, TypeModel)>,
    SchemaError,
> {
    match member(members, "types"@) {
        None => Ok(Seq::empty()),
        Some(Json::Array(items)) => parsed_fields(&items, 0),
        Some(_) => Err(SchemaError::MalformedIdl),
    }
}

/// The definition that the document `doc` holds: an object with a
/// `program_id`, its `instructions` and, where it has any, its `types`.
pub open spec fn parsed_idl(doc: &Json) -> Result<IdlModel, SchemaError> {
    match doc {
        Json::Object(members) => match (
            parsed_program_id(members),
            array_member(members, "instructions"@),
        ) {
            (Some(program_id), Some(items)) => match parsed_instructions(&items, 0) {
                Err(x) => Err(x),
                Ok(instructions) => match parsed_types(members) {
                    Err(x) => Err(x),
                    Ok(types) => Ok(IdlModel { program_id, instructions, types }),
                },
            },
            _ => Err(SchemaError::MalformedIdl),
        },
        _ => Err(SchemaError::MalformedIdl),
    }
}

/// `idl` is a well-formed definition of the model `m`.
pub open spec fn realizes(idl: IdlDefinition, m: IdlModel) -> bool {
    idl.wf() && idl@ == m
}

/// The model `m` is that of a well-formed definition: no two
/// instructions and no two types share a name, every type is valid, every
/// reference leads to a type that is defined, and no chain of references
/// comes back to where it started.
pub open spec fn realizable(m: IdlModel) -> bool {
    exists|idl: IdlDefinition| #[trigger] realizes(idl, m)
}

/// The model of a definition made of these parts.
pub open spec fn model_of_parts(
    program_id: Address,
    instructions: Vec<IdlInstruction>,
    entries: Vec<Field>,
) -> IdlModel {
    IdlModel {
        program_id: program_id.bytes@,
        instructions: instruction_models(&instructions),
        types: field_models(&entries),
    }
}

/// Whether every one of `fields` has a valid type.
fn fields_valid(fields: &Vec<Field>, table: &TypeTable) -> (r: bool)
    ensures
        r == valid_fields(fields, table, 0),
{
    let mut i: usize = 0;
    while i < fields.len()
        invariant
            i <= fields.len(),
            valid_fields(fields, table, 0) == valid_fields(fields, table, i as int),
        decreases fields.len() - i,
    {
        if !is_valid(&fields[i].ty, table) {
            return false;
        }
        i += 1;
    }
    true
}

/// Whether `instruction` is well-formed in `table`.
fn instruction_is_wf(instruction: &IdlInstruction, table: &TypeTable) -> (r: bool)
    ensures
        r == instruction.wf(table),
{
    assert(names_of(instruction.accounts@) =~= slot_names(instruction.accounts@));
    assert(names_of(instruction.args@) =~= field_names(instruction.args@));
    all_distinct(&instruction.accounts) && all_distinct(&instruction.args) && fields_valid(
        &instruction.args,
        table,
    ) && match &instruction.returns {
        Some(r) => is_valid(r, table),
        None => true,
    }
}

/// The definition made of these parts, if it is well-formed; and
/// `MalformedIdl` if no well-formed definition has their model.
pub fn assemble(program_id: Address, instructions: Vec<IdlInstruction>, entries: Vec<Field>) -> (r:
    Result<IdlDefinition, SchemaError>)
    ensures
        match r {
            Ok(idl) => idl.wf() && idl.program_id == program_id && idl.instructions == instructions
                && idl.types.entries == entries,
            Err(e) => e == SchemaError::MalformedIdl && !realizable(
                model_of_parts(program_id, instructions, entries),
            ),
        },
{
    let ghost m = model_of_parts(program_id, instructions, entries);
    let table: TypeTable = match TypeTable::build(entries) {
        Ok(table) => table,
        Err(_) => {
            proof {
                if realizable(m) {
                    let other = choose|idl: IdlDefinition| #[trigger] realizes(idl, m);
                    assert(ordered_by(other.types.entries, other.types.depths));
                    lemma_ordered_same(entries, other.types.entries, other.types.depths);
                }
            }
            return Err(SchemaError::MalformedIdl);
        },
    };
    let ghost candidate = IdlDefinition { program_id, instructions, types: table };
    assert(candidate@ == m);
    assert(names_of(instructions@) =~= instruction_names(instructions@));
    if !all_distinct(&instructions) {
        proof {
            if realizable(m) {
                let other = choose|idl: IdlDefinition| #[trigger] realizes(idl, m);
                lemma_instruction_names_same(&candidate, &other);
            }
        }
        return Err(SchemaError::MalformedIdl);
    }
    let mut i: usize = 0;
    while i < instructions.len()
        invariant
            i <= instructions.len(),
            candidate == (IdlDefinition { program_id, instructions, types: table }),
            candidate@ == m,
            m == model_of_parts(program_id, instructions, entries),
            forall|k: int| 0 <= k < i ==> (#[trigger] instructions[k]).wf(&table),
        decreases instructions.len() - i,
    {
        if !instruction_is_wf(&instructions[i], &table) {
            proof {
                if realizable(m) {
                    let other = choose|idl: IdlDefinition| #[trigger] realizes(idl, m);
                    lemma_instruction_names_same(&candidate, &other);
                    assert(other.instructions[i as int].wf(&other.types));
                    lemma_instruction_same(
                        &instructions[i as int],
                        &other.instructions[i as int],
                        &table,
                        &other.types,
                    );
                }
            }
            return Err(SchemaError::MalformedIdl);
        }
        i += 1;
    }
    Ok(IdlDefinition { program_id, instructions, types: table })
}

/// Reads the interface definition that the document `doc` holds.
///
/// Fails with `UnsupportedType` where a type is of a kind that is not
/// known, and with `MalformedIdl` where the document is not built as a
/// definition is, or holds none that is well-formed.
pub fn load(doc: &Json) -> (r: Result<IdlDefinition, SchemaError>)
    ensures
        match r {
            Ok(idl) => idl.wf() && parsed_idl(doc) == Ok::<IdlModel, SchemaError>(idl@),
            Err(e) => match parsed_idl(doc) {
                Err(x) => e == x,
                Ok(m) => e == SchemaError::MalformedIdl && !realizable(m),
            },
        },
{
    let members: &Vec<Member> = match doc {
        Json::Object(members) => members,
        _ => {
            return Err(SchemaError::MalformedIdl);
        },
    };
    let decoded: Option<Vec<u8>> = match get_text(members, "program_id") {
        Some(text) => base58_decode(text.as_str().as_bytes()),
        None => None,
    };
    let program_id: Address = match decoded {
        Some(bytes) => match address_from_bytes(bytes.as_slice()) {
            Some(address) => address,
            None => {
                return Err(SchemaError::MalformedIdl);
            },
        },
        None => {
            return Err(SchemaError::MalformedIdl);
        },
    };
    let items: &Vec<Json> = match get_array(members, "instructions") {
        Some(items) => items,
        None => {
            return Err(SchemaError::MalformedIdl);
        },
    };
    let instructions: Vec<IdlInstruction> = match parse_instructions(items) {
        Ok(instructions) => instructions,
        Err(x) => {
            return Err(x);
        },
    };
    let entries: Vec<Field> = match get_member(members, "types") {
        None => {
            let none: Vec<Field> = Vec::new();
            assert(field_models(&none) =~= Seq::empty());
            none
        },
        Some(Json::Array(items)) => match parse_fields(items) {
            Ok(entries) => entries,
            Err(x) => {
                return Err(x);
            },
        },
        Some(_) => {
            return Err(SchemaError::MalformedIdl);
        },
    };
    assemble(program_id, instructions, entries)
}

} // verus!
