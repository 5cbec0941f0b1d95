//! The binary format, as mathematical functions from values to bytes and
//! from bytes to values.

use vstd::prelude::*;
use vstd::utf8::valid_utf8;
use crate::errors::CodecError;
use crate::names::index_of;
use crate::schema::{
    rank, rank_fields, rank_variants, DiscriminantWidth, Field, PrimitiveKind, TypeDescriptor,
    TypeTable, Variant,
};
use crate::value::ValueModel;
use crate::wire::{le_bytes, le_value, radix};

verus! {

/// The number of bytes of an integer kind, and 0 for the other kinds.
pub open spec fn int_width(k: PrimitiveKind) -> nat {
    match k {
        PrimitiveKind::U8 | PrimitiveKind::I8 => 1,
        PrimitiveKind::U16 | PrimitiveKind::I16 => 2,
        PrimitiveKind::U32 | PrimitiveKind::I32 => 4,
        PrimitiveKind::U64 | PrimitiveKind::I64 => 8,
        _ => 0,
    }
}

pub open spec fn is_signed(k: PrimitiveKind) -> bool {
    k == PrimitiveKind::I8 || k == PrimitiveKind::I16 || k == PrimitiveKind::I32 || k
        == PrimitiveKind::I64
}

/// `n` is a value of the integer kind `k`.
pub open spec fn int_in_range(k: PrimitiveKind, n: int) -> bool {
    if is_signed(k) {
        -(radix(int_width(k)) / 2) <= n < radix(int_width(k)) / 2
    } else {
        int_width(k) > 0 && 0 <= n < radix(int_width(k))
    }
}

/// The unsigned number that stands for `n` on the wire: `n` itself, or its
/// two's complement if it is negative.
pub open spec fn int_to_wire(k: PrimitiveKind, n: int) -> nat {
    if n >= 0 {
        n as nat
    } else {
        (n + radix(int_width(k))) as nat
    }
}

/// The integer of kind `k` that the unsigned number `u` stands for.
pub open spec fn int_from_wire(k: PrimitiveKind, u: nat) -> int {
    if is_signed(k) && u >= radix(int_width(k)) / 2 {
        u - radix(int_width(k))
    } else {
        u as int
    }
}

/// The names of a struct value's fields, in the order given.
pub open spec fn value_names(fields: Seq<(Seq<char>, ValueModel)>) -> Seq<Seq<char>> {
    Seq::new(fields.len(), |i: int| fields[i].0)
}

/// The bytes of a value without parts.
pub open spec fn encoding_primitive(v: ValueModel, k: PrimitiveKind) -> Result<
    Seq<u8>,
    CodecError,
> {
    match v {
        ValueModel::Bool(b) => if k == PrimitiveKind::Bool {
            Ok(
                seq![if b {
                    1u8
                } else {
                    0u8
                }],
            )
        } else {
            Err(CodecError::TypeMismatch)
        },
        ValueModel::Int(n) => if int_in_range(k, n) {
            Ok(le_bytes(int_to_wire(k, n), int_width(k)))
        } else {
            Err(CodecError::TypeMismatch)
        },
        ValueModel::Float32(bits) => if k == PrimitiveKind::F32 {
            Ok(le_bytes(bits as nat, 4))
        } else {
            Err(CodecError::TypeMismatch)
        },
        ValueModel::Float64(bits) => if k == PrimitiveKind::F64 {
            Ok(le_bytes(bits as nat, 8))
        } else {
            Err(CodecError::TypeMismatch)
        },
        ValueModel::Text(s) => if k == PrimitiveKind::Text && s.len() < radix(4) && valid_utf8(s) {
            Ok(le_bytes(s.len(), 4) + s)
        } else {
            Err(CodecError::TypeMismatch)
        },
        ValueModel::Pubkey(s) => if k == PrimitiveKind::Pubkey && s.len() == 32 {
            Ok(s)
        } else {
            Err(CodecError::TypeMismatch)
        },
        _ => Err(CodecError::TypeMismatch),
    }
}

/// The bytes of `v` as a value of type `d`, or why `v` is no such value.
pub open spec fn encoding(v: ValueModel, d: &TypeDescriptor, t: &TypeTable) -> Result<
    Seq<u8>,
    CodecError,
>
    decreases rank(d, t), d, 0nat,
{
    match d {
        TypeDescriptor::Primitive(k) => encoding_primitive(v, *k),
        TypeDescriptor::Vector(e) => match v {
            ValueModel::List(items) => if items.len() < radix(4) {
                match encoding_items(items, e, t, 0) {
                    Ok(b) => Ok(le_bytes(items.len(), 4) + b),
                    Err(x) => Err(x),
                }
            } else {
                Err(CodecError::TypeMismatch)
            },
            _ => Err(CodecError::TypeMismatch),
        },
        TypeDescriptor::Optional(e) => match v {
            ValueModel::Optional(None) => Ok(seq![0u8]),
            ValueModel::Optional(Some(inner)) => match encoding(*inner, e, t) {
                Ok(b) => Ok(seq![1u8] + b),
                Err(x) => Err(x),
            },
            _ => Err(CodecError::TypeMismatch),
        },
        TypeDescriptor::FixedArray(e, n) => match v {
            ValueModel::List(items) => if items.len() == *n {
                encoding_items(items, e, t, 0)
            } else {
                Err(CodecError::TypeMismatch)
            },
            _ => Err(CodecError::TypeMismatch),
        },
        TypeDescriptor::Struct(fields) => match v {
            ValueModel::Struct(given) => if given.len() == fields.len() {
                encoding_fields(given, fields, t, 0)
            } else {
                Err(CodecError::TypeMismatch)
            },
            _ => Err(CodecError::TypeMismatch),
        },
        TypeDescriptor::Enum(width, variants) => match v {
            ValueModel::Variant(name, payload) => encoding_variant(
                name,
                payload,
                *width,
                variants,
                t,
                0,
            ),
            _ => Err(CodecError::TypeMismatch),
        },
        TypeDescriptor::DefinedRef(name) => match t.target(name@) {
            Some(j) => encoding(v, &t.entries[j].ty, t),
            None => Err(CodecError::TypeMismatch),
        },
    }
}

/// The bytes of the elements from index `from` on, one after the other.
pub open spec fn encoding_items(
    items: Seq<ValueModel>,
    e: &TypeDescriptor,
    t: &TypeTable,
    from: int,
) -> Result<Seq<u8>, CodecError>
    decreases rank(e, t), e, items.len() - from,
{
    if from < 0 || from >= items.len() {
        Ok(Seq::empty())
    } else {
        match encoding(items[from], e, t) {
            Err(x) => Err(x),
            Ok(head) => match encoding_items(items, e, t, from + 1) {
                Err(x) => Err(x),
                Ok(tail) => Ok(head + tail),
            },
        }
    }
}

/// The bytes of the declared fields from index `from` on, in the order of
/// their declaration, each taken from the given field of its name.
pub open spec fn encoding_fields(
    given: Seq<(Seq<char>, ValueModel)>,
    fields: &Vec<Field>,
    t: &TypeTable,
    from: int,
) -> Result<Seq<u8>, CodecError>
    decreases rank_fields(fields, t, from), fields, fields.len() - from,
{
    if from < 0 || from >= fields.len() {
        Ok(Seq::empty())
    } else {
        match index_of(value_names(given), fields[from].name@) {
            None => Err(CodecError::TypeMismatch),
            Some(k) => match encoding(given[k].1, &fields[from].ty, t) {
                Err(x) => Err(x),
                Ok(head) => match encoding_fields(given, fields, t, from + 1) {
                    Err(x) => Err(x),
                    Ok(tail) => Ok(head + tail),
                },
            },
        }
    }
}

/// The bytes of the variant `name`, looked for among the declared variants
/// from index `from` on: its discriminant, then its payload if it has one.
pub open spec fn encoding_variant(
    name: Seq<char>,
    payload: Option<Box<ValueModel>>,
    width: DiscriminantWidth,
    variants: &Vec<Variant>,
    t: &TypeTable,
    from: int,
) -> Result<Seq<u8>, CodecError>
    decreases rank_variants(variants, t, from), variants, variants.len() - from,
{
    if from < 0 || from >= variants.len() {
        Err(CodecError::TypeMismatch)
    } else if variants[from].name@ == name {
        if variants[from].discriminant >= radix(width.bytes()) {
            Err(CodecError::TypeMismatch)
        } else {
            let tag = le_bytes(variants[from].discriminant as nat, width.bytes());
            match (variants[from].payload, payload) {
                (None, None) => Ok(tag),
                (Some(p), Some(inner)) => match encoding(*inner, &p, t) {
                    Ok(b) => Ok(tag + b),
                    Err(x) => Err(x),
                },
                _ => Err(CodecError::TypeMismatch),
            }
        }
    } else {
        encoding_variant(name, payload, width, variants, t, from + 1)
    }
}

/// The value without parts that stands at `pos`, and where it ends.
pub open spec fn decoding_primitive(bytes: Seq<u8>, pos: int, k: PrimitiveKind) -> Result<
    (ValueModel, int),
    CodecError,
> {
    match k {
        PrimitiveKind::Bool => if pos + 1 > bytes.len() {
            Err(CodecError::TruncatedInput)
        } else if bytes[pos] == 0 {
            Ok((ValueModel::Bool(false), pos + 1))
        } else if bytes[pos] == 1 {
            Ok((ValueModel::Bool(true), pos + 1))
        } else {
            Err(CodecError::InvalidDiscriminant)
        },
        PrimitiveKind::F32 => if pos + 4 > bytes.len() {
            Err(CodecError::TruncatedInput)
        } else {
            Ok((ValueModel::Float32(le_value(bytes, pos, 4) as u32), pos + 4))
        },
        PrimitiveKind::F64 => if pos + 8 > bytes.len() {
            Err(CodecError::TruncatedInput)
        } else {
            Ok((ValueModel::Float64(le_value(bytes, pos, 8) as u64), pos + 8))
        },
        PrimitiveKind::Text => if pos + 4 > bytes.len() {
            Err(CodecError::TruncatedInput)
        } else if pos + 4 + le_value(bytes, pos, 4) > bytes.len() {
            Err(CodecError::TruncatedInput)
        } else if valid_utf8(bytes.subrange(pos + 4, pos + 4 + le_value(bytes, pos, 4))) {
            Ok(
                (
                    ValueModel::Text(bytes.subrange(pos + 4, pos + 4 + le_value(bytes, pos, 4))),
                    pos + 4 + le_value(bytes, pos, 4),
                ),
            )
        } else {
            Err(CodecError::TypeMismatch)
        },
        PrimitiveKind::Pubkey => if pos + 32 > bytes.len() {
            Err(CodecError::TruncatedInput)
        } else {
            Ok((ValueModel::Pubkey(bytes.subrange(pos, pos + 32)), pos + 32))
        },
        _ => if pos + int_width(k) > bytes.len() {
            Err(CodecError::TruncatedInput)
        } else {
            Ok(
                (
                    ValueModel::Int(int_from_wire(k, le_value(bytes, pos, int_width(k)))),
                    pos + int_width(k),
                ),
            )
        },
    }
}

/// The value of type `d` that stands at `pos`, and where it ends, or why
/// no such value stands there.
pub open spec fn decoding(bytes: Seq<u8>, pos: int, d: &TypeDescriptor, t: &TypeTable) -> Result<
    (ValueModel, int),
    CodecError,
>
    decreases rank(d, t), d, 0nat,
{
    match d {
        TypeDescriptor::Primitive(k) => decoding_primitive(bytes, pos, *k),
        TypeDescriptor::Vector(e) => if pos + 4 > bytes.len() {
            Err(CodecError::TruncatedInput)
        } else {
            match decoding_items(bytes, pos + 4, e, t, le_value(bytes, pos, 4)) {
                Ok((items, end)) => Ok((ValueModel::List(items), end)),
                Err(x) => Err(x),
            }
        },
        TypeDescriptor::Optional(e) => if pos + 1 > bytes.len() {
            Err(CodecError::TruncatedInput)
        } else if bytes[pos] == 0 {
            Ok((ValueModel::Optional(None), pos + 1))
        } else if bytes[pos] == 1 {
            match decoding(bytes, pos + 1, e, t) {
                Ok((inner, end)) => Ok((ValueModel::Optional(Some(Box::new(inner))), end)),
                Err(x) => Err(x),
            }
        } else {
            Err(CodecError::InvalidDiscriminant)
        },
        TypeDescriptor::FixedArray(e, n) => match decoding_items(bytes, pos, e, t, *n as nat) {
            Ok((items, end)) => Ok((ValueModel::List(items), end)),
            Err(x) => Err(x),
        },
        TypeDescriptor::Struct(fields) => match decoding_fields(bytes, pos, fields, t, 0) {
            Ok((given, end)) => Ok((ValueModel::Struct(given), end)),
            Err(x) => Err(x),
        },
        TypeDescriptor::Enum(width, variants) => if pos + width.bytes() > bytes.len() {
            Err(CodecError::TruncatedInput)
        } else {
            decoding_variant(
                bytes,
                pos + width.bytes(),
                le_value(bytes, pos, width.bytes()),
                variants,
                t,
                0,
            )
        },
        TypeDescriptor::DefinedRef(name) => match t.target(name@) {
            Some(j) => decoding(bytes, pos, &t.entries[j].ty, t),
            None => Err(CodecError::TypeMismatch),
        },
    }
}

/// The `count` values of type `e` that stand one after the other from
/// `pos` on, and where the last one ends.
pub open spec fn decoding_items(
    bytes: Seq<u8>,
    pos: int,
    e: &TypeDescriptor,
    t: &TypeTable,
    count: nat,
) -> Result<(Seq<ValueModel>, int), CodecError>
    decreases rank(e, t), e, count,
{
    if count == 0 {
        Ok((Seq::empty(), pos))
    } else {
        match decoding(bytes, pos, e, t) {
            Err(x) => Err(x),
            Ok((head, mid)) => match decoding_items(bytes, mid, e, t, (count - 1) as nat) {
                Err(x) => Err(x),
                Ok((tail, end)) => Ok((seq![head] + tail, end)),
            },
        }
    }
}

/// The values of the declared fields from index `from` on, each under its
/// name, and where the last one ends.
pub open spec fn decoding_fields(
    bytes: Seq<u8>,
    pos: int,
    fields: &Vec<Field>,
    t: &TypeTable,
    from: int,
) -> Result<(Seq<(Seq<char>, ValueModel)>, int), CodecError>
    decreases rank_fields(fields, t, from), fields, fields.len() - from,
{
    if from < 0 || from >= fields.len() {
        Ok((Seq::empty(), pos))
    } else {
        match decoding(bytes, pos, &fields[from].ty, t) {
            Err(x) => Err(x),
            Ok((head, mid)) => match decoding_fields(bytes, mid, fields, t, from + 1) {
                Err(x) => Err(x),
                Ok((tail, end)) => Ok((seq![(fields[from].name@, head)] + tail, end)),
            },
        }
    }
}

/// The variant whose discriminant is `tag`, looked for among the declared
/// variants from index `from` on, with its payload read from `pos`.
pub open spec fn decoding_variant(
    bytes: Seq<u8>,
    pos: int,
    tag: nat,
    variants: &Vec<Variant>,
    t: &TypeTable,
    from: int,
) -> Result<(ValueModel, int), CodecError>
    decreases rank_variants(variants, t, from), variants, variants.len() - from,
{
    if from < 0 || from >= variants.len() {
        Err(CodecError::InvalidDiscriminant)
    } else if variants[from].discriminant == tag {
        match variants[from].payload {
            None => Ok((ValueModel::Variant(variants[from].name@, None), pos)),
            Some(p) => match decoding(bytes, pos, &p, t) {
                Ok((inner, end)) => Ok(
                    (ValueModel::Variant(variants[from].name@, Some(Box::new(inner))), end),
                ),
                Err(x) => Err(x),
            },
        }
    } else {
        decoding_variant(bytes, pos, tag, variants, t, from + 1)
    }
}

} // verus!
