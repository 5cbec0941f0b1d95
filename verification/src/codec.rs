//! Encoding values to bytes and decoding bytes to values, each against a
//! type descriptor.

use vstd::prelude::*;
use vstd::utf8::valid_utf8;
use crate::errors::CodecError;
use crate::format::{
    decoding,
    decoding_fields,
    decoding_items,
    decoding_primitive,
    decoding_variant,
    encoding,
    encoding_fields,
    encoding_items,
    encoding_primitive,
    encoding_variant,
    int_width,
    is_signed,
    value_names,
};
use crate::names::{index_from, index_of};
use crate::schema::{
    lemma_rank_fields,
    lemma_rank_variants,
    rank,
    rank_fields,
    rank_variants,
    DiscriminantWidth,
    Field,
    PrimitiveKind,
    TypeDescriptor,
    TypeTable,
    Variant,
};
use crate::value::{
    inner_model,
    lemma_model_parts,
    list_model,
    model_of,
    struct_model,
    FieldValue,
    Value,
    ValueModel,
};
use crate::wire::{
    append_bytes,
    copy_range,
    get_le,
    le_bytes,
    lemma_le_value_bound,
    lemma_radix_values,
    put_le,
    radix,
};

verus! {

/// Whether `bytes` is well-formed UTF-8, as `core::str::from_utf8` finds:
/// that function accepts exactly the byte strings that are valid UTF-8.
#[verifier::external_body]
fn is_utf8(bytes: &[u8]) -> (ok: bool)
    ensures
        ok == valid_utf8(bytes@),
{
    core::str::from_utf8(bytes).is_ok()
}

/// The outcome `r` of appending to a buffer, with the buffer before and
/// after, is the outcome `m` that the format gives.
pub open spec fn written(
    before: Seq<u8>,
    after: Seq<u8>,
    r: Result<(), CodecError>,
    m: Result<Seq<u8>, CodecError>,
) -> bool {
    match r {
        Ok(_) => m.is_ok() && after == before + m->Ok_0,
        Err(e) => m == Err::<Seq<u8>, CodecError>(e),
    }
}

/// `m`, with `done` in front of its bytes.
pub open spec fn after_bytes(done: Seq<u8>, m: Result<Seq<u8>, CodecError>) -> Result<
    Seq<u8>,
    CodecError,
> {
    match m {
        Ok(rest) => Ok(done + rest),
        Err(x) => Err(x),
    }
}

/// Width and signedness of an integer kind.
fn int_shape(k: PrimitiveKind) -> (r: Option<(usize, bool)>)
    ensures
        match r {
            Some((w, signed)) => w == int_width(k) && signed == is_signed(k) && (w == 1 || w == 2
                || w == 4 || w == 8),
            None => int_width(k) == 0 && !is_signed(k),
        },
{
    match k {
        PrimitiveKind::U8 => Some((1, false)),
        PrimitiveKind::U16 => Some((2, false)),
        PrimitiveKind::U32 => Some((4, false)),
        PrimitiveKind::U64 => Some((8, false)),
        PrimitiveKind::I8 => Some((1, true)),
        PrimitiveKind::I16 => Some((2, true)),
        PrimitiveKind::I32 => Some((4, true)),
        PrimitiveKind::I64 => Some((8, true)),
        _ => None,
    }
}

/// 256 to the power `w`.
pub(crate) fn modulus(w: usize) -> (m: i128)
    requires
        w == 1 || w == 2 || w == 4 || w == 8,
    ensures
        m == radix(w as nat),
{
    proof {
        lemma_radix_values();
    }
    if w == 1 {
        0x100
    } else if w == 2 {
        0x1_0000
    } else if w == 4 {
        0x1_0000_0000
    } else {
        0x1_0000_0000_0000_0000
    }
}

fn write_primitive(value: &Value, k: PrimitiveKind, out: &mut Vec<u8>) -> (r: Result<
    (),
    CodecError,
>)
    ensures
        written(old(out)@, final(out)@, r, encoding_primitive(value@, k)),
{
    proof {
        lemma_radix_values();
    }
    match value {
        Value::Bool(b) => {
            if k == PrimitiveKind::Bool {
                out.push(
                    if *b {
                        1u8
                    } else {
                        0u8
                    },
                );
                assert(out@ =~= old(out)@ + seq![if *b {
                    1u8
                } else {
                    0u8
                }]);
                Ok(())
            } else {
                Err(CodecError::TypeMismatch)
            }
        },
        Value::Int(n) => {
            match int_shape(k) {
                Some((w, signed)) => {
                    let m: i128 = modulus(w);
                    let low: i128 = if signed {
                        -(m / 2)
                    } else {
                        0
                    };
                    let high: i128 = if signed {
                        m / 2
                    } else {
                        m
                    };
                    if low <= *n && *n < high {
                        let u: u64 = if *n >= 0 {
                            *n as u64
                        } else {
                            (*n + m) as u64
                        };
                        put_le(out, u, w);
                        Ok(())
                    } else {
                        Err(CodecError::TypeMismatch)
                    }
                },
                None => Err(CodecError::TypeMismatch),
            }
        },
        Value::Float32(bits) => {
            if k == PrimitiveKind::F32 {
                put_le(out, *bits as u64, 4);
                Ok(())
            } else {
                Err(CodecError::TypeMismatch)
            }
        },
        Value::Float64(bits) => {
            if k == PrimitiveKind::F64 {
                put_le(out, *bits, 8);
                Ok(())
            } else {
                Err(CodecError::TypeMismatch)
            }
        },
        Value::Text(bytes) => {
            if k == PrimitiveKind::Text && bytes.len() as u64 <= 0xFFFF_FFFF && is_utf8(
                bytes.as_slice(),
            ) {
                put_le(out, bytes.len() as u64, 4);
                append_bytes(out, bytes.as_slice());
                assert(out@ =~= old(out)@ + (le_bytes(bytes@.len(), 4) + bytes@));
                Ok(())
            } else {
                Err(CodecError::TypeMismatch)
            }
        },
        Value::Pubkey(bytes) => {
            if k == PrimitiveKind::Pubkey && bytes.len() == 32 {
                append_bytes(out, bytes.as_slice());
                Ok(())
            } else {
                Err(CodecError::TypeMismatch)
            }
        },
        _ => Err(CodecError::TypeMismatch),
    }
}

/// Index of the first given field named `name`.
pub(crate) fn find_field(given: &Vec<FieldValue>, name: &String) -> (r: Option<usize>)
    ensures
        match r {
            Some(k) => k < given.len() && index_of(value_names(struct_model(given)), name@)
                == Some(k as int),
            None => index_of(value_names(struct_model(given)), name@).is_none(),
        },
{
    let ghost names = value_names(struct_model(given));
    let mut i: usize = 0;
    while i < given.len()
        invariant
            i <= given.len(),
            names == value_names(struct_model(given)),
            index_of(names, name@) == index_from(names, name@, i as int),
        decreases given.len() - i,
    {
        if given[i].name == *name {
            return Some(i);
        }
        i += 1;
    }
    None
}

fn write_value(value: &Value, d: &TypeDescriptor, table: &TypeTable, out: &mut Vec<u8>) -> (r:
    Result<(), CodecError>)
    requires
        table.wf(),
    ensures
        written(old(out)@, final(out)@, r, encoding(value@, d, table)),
    decreases rank(d, table), d, 0nat,
{
    proof {
        lemma_model_parts(value);
        lemma_radix_values();
    }
    match d {
        TypeDescriptor::Primitive(k) => write_primitive(value, *k, out),
        TypeDescriptor::Vector(e) => match value {
            Value::List(items) => {
                if items.len() as u64 > 0xFFFF_FFFF {
                    return Err(CodecError::TypeMismatch);
                }
                put_le(out, items.len() as u64, 4);
                let r = write_items(items, e, table, out);
                proof {
                    if r.is_ok() {
                        let b = encoding_items(list_model(items), e, table, 0)->Ok_0;
                        assert(out@ =~= old(out)@ + (le_bytes(items.len() as nat, 4) + b));
                    }
                }
                r
            },
            _ => Err(CodecError::TypeMismatch),
        },
        TypeDescriptor::Optional(e) => match value {
            Value::Optional(None) => {
                out.push(0u8);
                assert(out@ =~= old(out)@ + seq![0u8]);
                Ok(())
            },
            Value::Optional(Some(inner)) => {
                out.push(1u8);
                let r = write_value(inner, e, table, out);
                proof {
                    if r.is_ok() {
                        let b = encoding(model_of(&**inner), e, table)->Ok_0;
                        assert(out@ =~= old(out)@ + (seq![1u8] + b));
                    }
                }
                r
            },
            _ => Err(CodecError::TypeMismatch),
        },
        TypeDescriptor::FixedArray(e, n) => match value {
            Value::List(items) => {
                if items.len() != *n {
                    return Err(CodecError::TypeMismatch);
                }
                write_items(items, e, table, out)
            },
            _ => Err(CodecError::TypeMismatch),
        },
        TypeDescriptor::Struct(fields) => match value {
            Value::Struct(given) => {
                if given.len() != fields.len() {
                    return Err(CodecError::TypeMismatch);
                }
                write_fields(given, fields, table, out)
            },
            _ => Err(CodecError::TypeMismatch),
        },
        TypeDescriptor::Enum(width, variants) => match value {
            Value::Variant(name, payload) => write_variant(
                name,
                payload,
                *width,
                variants,
                table,
                out,
            ),
            _ => Err(CodecError::TypeMismatch),
        },
        TypeDescriptor::DefinedRef(name) => match table.find(name) {
            Some(j) => {
                assert(table.settled(j as int));
                assert(table.target(name@) == Some(j as int));
                write_value(value, &table.entries[j].ty, table, out)
            },
            None => Err(CodecError::TypeMismatch),
        },
    }
}

fn write_items(items: &Vec<Value>, e: &TypeDescriptor, table: &TypeTable, out: &mut Vec<u8>) -> (r:
    Result<(), CodecError>)
    requires
        table.wf(),
    ensures
        written(old(out)@, final(out)@, r, encoding_items(list_model(items), e, table, 0)),
    decreases rank(e, table), e, 1nat,
{
    let ghost all = list_model(items);
    let ghost whole = encoding_items(all, e, table, 0);
    let ghost done = Seq::<u8>::empty();
    assert(old(out)@ + done =~= old(out)@);
    assert(after_bytes(done, whole) == whole) by {
        if whole.is_ok() {
            assert(done + whole->Ok_0 =~= whole->Ok_0);
        }
    }
    let mut i: usize = 0;
    while i < items.len()
        invariant
            i <= items.len(),
            table.wf(),
            all == list_model(items),
            whole == encoding_items(all, e, table, 0),
            out@ == old(out)@ + done,
            whole == after_bytes(done, encoding_items(all, e, table, i as int)),
        decreases items.len() - i,
    {
        assert(all[i as int] == model_of(&items[i as int]));
        match write_value(&items[i], e, table, out) {
            Err(x) => {
                return Err(x);
            },
            Ok(_) => {},
        }
        proof {
            let head = encoding(all[i as int], e, table)->Ok_0;
            let next = encoding_items(all, e, table, i + 1);
            assert(out@ =~= old(out)@ + (done + head));
            if next.is_ok() {
                assert(done + (head + next->Ok_0) =~= (done + head) + next->Ok_0);
            }
            done = done + head;
        }
        i += 1;
    }
    proof {
        assert(done + Seq::<u8>::empty() =~= done);
    }
    Ok(())
}

pub(crate) fn write_fields(
    given: &Vec<FieldValue>,
    fields: &Vec<Field>,
    table: &TypeTable,
    out: &mut Vec<u8>,
) -> (r: Result<(), CodecError>)
    requires
        table.wf(),
    ensures
        written(
            old(out)@,
            final(out)@,
            r,
            encoding_fields(struct_model(given), fields, table, 0),
        ),
    decreases rank_fields(fields, table, 0), fields, 1nat,
{
    let ghost all = struct_model(given);
    let ghost whole = encoding_fields(all, fields, table, 0);
    let ghost done = Seq::<u8>::empty();
    assert(old(out)@ + done =~= old(out)@);
    assert(after_bytes(done, whole) == whole) by {
        if whole.is_ok() {
            assert(done + whole->Ok_0 =~= whole->Ok_0);
        }
    }
    let mut i: usize = 0;
    while i < fields.len()
        invariant
            i <= fields.len(),
            table.wf(),
            all == struct_model(given),
            whole == encoding_fields(all, fields, table, 0),
            out@ == old(out)@ + done,
            whole == after_bytes(done, encoding_fields(all, fields, table, i as int)),
        decreases fields.len() - i,
    {
        let k = match find_field(given, &fields[i].name) {
            Some(k) => k,
            None => {
                return Err(CodecError::TypeMismatch);
            },
        };
        proof {
            lemma_rank_fields(fields, table, 0, i as int);
            assert(all[k as int].1 == model_of(&given[k as int].value));
        }
        match write_value(&given[k].value, &fields[i].ty, table, out) {
            Err(x) => {
                return Err(x);
            },
            Ok(_) => {},
        }
        proof {
            let head = encoding(all[k as int].1, &fields[i as int].ty, table)->Ok_0;
            let next = encoding_fields(all, fields, table, i + 1);
            assert(out@ =~= old(out)@ + (done + head));
            if next.is_ok() {
                assert(done + (head + next->Ok_0) =~= (done + head) + next->Ok_0);
            }
            done = done + head;
        }
        i += 1;
    }
    proof {
        assert(done + Seq::<u8>::empty() =~= done);
    }
    Ok(())
}

fn write_variant(
    name: &String,
    payload: &Option<Box<Value>>,
    width: DiscriminantWidth,
    variants: &Vec<Variant>,
    table: &TypeTable,
    out: &mut Vec<u8>,
) -> (r: Result<(), CodecError>)
    requires
        table.wf(),
    ensures
        written(
            old(out)@,
            final(out)@,
            r,
            encoding_variant(name@, inner_model(payload), width, variants, table, 0),
        ),
    decreases rank_variants(variants, table, 0), variants, 1nat,
{
    let ghost whole = encoding_variant(name@, inner_model(payload), width, variants, table, 0);
    let mut i: usize = 0;
    let mut found: bool = false;
    while i < variants.len() && !found
        invariant
            i <= variants.len(),
            found ==> i < variants.len() && variants[i as int].name@ == name@,
            whole == encoding_variant(
                name@,
                inner_model(payload),
                width,
                variants,
                table,
                i as int,
            ),
        decreases variants.len() - i, (if found { 0nat } else { 1nat }),
    {
        if variants[i].name == *name {
            found = true;
        } else {
            i += 1;
        }
    }
    if !found {
        return Err(CodecError::TypeMismatch);
    }
    let w: usize = width.byte_count();
    let tag: u64 = variants[i].discriminant;
    proof {
        lemma_radix_values();
        lemma_rank_variants(variants, table, 0, i as int);
    }
    if w < 8 && tag >= modulus(w) as u64 {
        return Err(CodecError::TypeMismatch);
    }
    match (&variants[i].payload, payload) {
        (None, None) => {
            put_le(out, tag, w);
            Ok(())
        },
        (Some(p), Some(inner)) => {
            put_le(out, tag, w);
            let r = write_value(inner, p, table, out);
            proof {
                if r.is_ok() {
                    let b = encoding(model_of(&**inner), p, table)->Ok_0;
                    assert(out@ =~= old(out)@ + (le_bytes(tag as nat, w as nat) + b));
                }
            }
            r
        },
        _ => Err(CodecError::TypeMismatch),
    }
}

/// The bytes of `value` as a value of type `descriptor`, where references
/// are resolved in `table`.
///
/// Fails with `TypeMismatch` where the value's shape is not the
/// descriptor's: another kind of value, an integer out of the range of its
/// kind, a string that is not UTF-8 or longer than a length prefix can
/// say, a key of other than 32 bytes, a fixed array of another length, a
/// struct value with a declared field missing or with more fields than
/// declared, a variant that is not declared, a payload where none is
/// declared or none where one is, or a reference to a name that the table
/// lacks.
pub fn encode(value: &Value, descriptor: &TypeDescriptor, table: &TypeTable) -> (r: Result<
    Vec<u8>,
    CodecError,
>)
    requires
        table.wf(),
    ensures
        match r {
            Ok(bytes) => encoding(value@, descriptor, table) == Ok::<Seq<u8>, CodecError>(bytes@),
            Err(e) => encoding(value@, descriptor, table) == Err::<Seq<u8>, CodecError>(e),
        },
{
    let mut out: Vec<u8> = Vec::new();
    match write_value(value, descriptor, table, &mut out) {
        Ok(_) => {
            assert(Seq::<u8>::empty() + encoding(value@, descriptor, table)->Ok_0 =~= encoding(
                value@,
                descriptor,
                table,
            )->Ok_0);
            Ok(out)
        },
        Err(e) => Err(e),
    }
}

/// The outcome `r` of reading is the outcome `m` that the format gives.
pub open spec fn read_as(
    r: Result<(Value, usize), CodecError>,
    m: Result<(ValueModel, int), CodecError>,
) -> bool {
    match r {
        Ok((v, end)) => m == Ok::<(ValueModel, int), CodecError>((v@, end as int)),
        Err(e) => m == Err::<(ValueModel, int), CodecError>(e),
    }
}

/// `m`, with `done` in front of its values.
pub open spec fn after_items(
    done: Seq<ValueModel>,
    m: Result<(Seq<ValueModel>, int), CodecError>,
) -> Result<(Seq<ValueModel>, int), CodecError> {
    match m {
        Ok((rest, end)) => Ok((done + rest, end)),
        Err(x) => Err(x),
    }
}

/// `m`, with `done` in front of its fields.
pub open spec fn after_fields(
    done: Seq<(Seq<char>, ValueModel)>,
    m: Result<(Seq<(Seq<char>, ValueModel)>, int), CodecError>,
) -> Result<(Seq<(Seq<char>, ValueModel)>, int), CodecError> {
    match m {
        Ok((rest, end)) => Ok((done + rest, end)),
        Err(x) => Err(x),
    }
}

fn read_primitive(bytes: &[u8], pos: usize, k: PrimitiveKind) -> (r: Result<
    (Value, usize),
    CodecError,
>)
    requires
        pos <= bytes@.len(),
    ensures
        read_as(r, decoding_primitive(bytes@, pos as int, k)),
        r.is_ok() ==> pos <= r->Ok_0.1 <= bytes@.len(),
{
    let left: usize = bytes.len() - pos;
    proof {
        lemma_radix_values();
    }
    match k {
        PrimitiveKind::Bool => {
            if left < 1 {
                Err(CodecError::TruncatedInput)
            } else if bytes[pos] == 0 {
                Ok((Value::Bool(false), pos + 1))
            } else if bytes[pos] == 1 {
                Ok((Value::Bool(true), pos + 1))
            } else {
                Err(CodecError::InvalidDiscriminant)
            }
        },
        PrimitiveKind::F32 => {
            if left < 4 {
                Err(CodecError::TruncatedInput)
            } else {
                let u: u64 = get_le(bytes, pos, 4);
                Ok((Value::Float32(u as u32), pos + 4))
            }
        },
        PrimitiveKind::F64 => {
            if left < 8 {
                Err(CodecError::TruncatedInput)
            } else {
                let u: u64 = get_le(bytes, pos, 8);
                Ok((Value::Float64(u), pos + 8))
            }
        },
        PrimitiveKind::Text => {
            if left < 4 {
                return Err(CodecError::TruncatedInput);
            }
            let n: u64 = get_le(bytes, pos, 4);
            proof {
                lemma_le_value_bound(bytes@, pos as int, 4);
            }
            if n > (left - 4) as u64 {
                return Err(CodecError::TruncatedInput);
            }
            let end: usize = pos + 4 + n as usize;
            let text: Vec<u8> = copy_range(bytes, pos + 4, end);
            if is_utf8(text.as_slice()) {
                Ok((Value::Text(text), end))
            } else {
                Err(CodecError::TypeMismatch)
            }
        },
        PrimitiveKind::Pubkey => {
            if left < 32 {
                Err(CodecError::TruncatedInput)
            } else {
                let key: Vec<u8> = copy_range(bytes, pos, pos + 32);
                Ok((Value::Pubkey(key), pos + 32))
            }
        },
        _ => {
            match int_shape(k) {
                Some((w, signed)) => {
                    if left < w {
                        return Err(CodecError::TruncatedInput);
                    }
                    let u: u64 = get_le(bytes, pos, w);
                    proof {
                        lemma_le_value_bound(bytes@, pos as int, w as nat);
                    }
                    let m: i128 = modulus(w);
                    let n: i128 = if signed && u as i128 >= m / 2 {
                        u as i128 - m
                    } else {
                        u as i128
                    };
                    Ok((Value::Int(n), pos + w))
                },
                None => {
                    assert(false);
                    Err(CodecError::TypeMismatch)
                },
            }
        },
    }
}

fn read_value(bytes: &[u8], pos: usize, d: &TypeDescriptor, table: &TypeTable) -> (r: Result<
    (Value, usize),
    CodecError,
>)
    requires
        table.wf(),
        pos <= bytes@.len(),
    ensures
        read_as(r, decoding(bytes@, pos as int, d, table)),
        r.is_ok() ==> pos <= r->Ok_0.1 <= bytes@.len(),
    decreases rank(d, table), d, 0nat,
{
    let left: usize = bytes.len() - pos;
    proof {
        lemma_radix_values();
    }
    match d {
        TypeDescriptor::Primitive(k) => read_primitive(bytes, pos, *k),
        TypeDescriptor::Vector(e) => {
            if left < 4 {
                return Err(CodecError::TruncatedInput);
            }
            let n: u64 = get_le(bytes, pos, 4);
            proof {
                lemma_le_value_bound(bytes@, pos as int, 4);
            }
            match read_items(bytes, pos + 4, e, table, n as usize) {
                Ok((items, end)) => {
                    let v = Value::List(items);
                    proof {
                        lemma_model_parts(&v);
                    }
                    Ok((v, end))
                },
                Err(x) => Err(x),
            }
        },
        TypeDescriptor::Optional(e) => {
            if left < 1 {
                Err(CodecError::TruncatedInput)
            } else if bytes[pos] == 0 {
                Ok((Value::Optional(None), pos + 1))
            } else if bytes[pos] == 1 {
                match read_value(bytes, pos + 1, e, table) {
                    Ok((inner, end)) => Ok((Value::Optional(Some(Box::new(inner))), end)),
                    Err(x) => Err(x),
                }
            } else {
                Err(CodecError::InvalidDiscriminant)
            }
        },
        TypeDescriptor::FixedArray(e, n) => {
            match read_items(bytes, pos, e, table, *n) {
                Ok((items, end)) => {
                    let v = Value::List(items);
                    proof {
                        lemma_model_parts(&v);
                    }
                    Ok((v, end))
                },
                Err(x) => Err(x),
            }
        },
        TypeDescriptor::Struct(fields) => {
            match read_fields(bytes, pos, fields, table) {
                Ok((given, end)) => {
                    let v = Value::Struct(given);
                    proof {
                        lemma_model_parts(&v);
                    }
                    Ok((v, end))
                },
                Err(x) => Err(x),
            }
        },
        TypeDescriptor::Enum(width, variants) => {
            let w: usize = width.byte_count();
            if left < w {
                return Err(CodecError::TruncatedInput);
            }
            let tag: u64 = get_le(bytes, pos, w);
            read_variant(bytes, pos + w, tag, variants, table)
        },
        TypeDescriptor::DefinedRef(name) => match table.find(name) {
            Some(j) => {
                assert(table.settled(j as int));
                assert(table.target(name@) == Some(j as int));
                read_value(bytes, pos, &table.entries[j].ty, table)
            },
            None => Err(CodecError::TypeMismatch),
        },
    }
}

fn read_items(bytes: &[u8], pos: usize, e: &TypeDescriptor, table: &TypeTable, count: usize) -> (r:
    Result<(Vec<Value>, usize), CodecError>)
    requires
        table.wf(),
        pos <= bytes@.len(),
    ensures
        match r {
            Ok((items, end)) => decoding_items(bytes@, pos as int, e, table, count as nat) == Ok::<
                (Seq<ValueModel>, int),
                CodecError,
            >((list_model(&items), end as int)) && pos <= end <= bytes@.len(),
            Err(x) => decoding_items(bytes@, pos as int, e, table, count as nat) == Err::<
                (Seq<ValueModel>, int),
                CodecError,
            >(x),
        },
    decreases rank(e, table), e, 1nat,
{
    let ghost whole = decoding_items(bytes@, pos as int, e, table, count as nat);
    let mut items: Vec<Value> = Vec::new();
    let mut cur: usize = pos;
    let mut i: usize = 0;
    proof {
        assert(list_model(&items) =~= Seq::<ValueModel>::empty());
        if whole.is_ok() {
            assert(Seq::<ValueModel>::empty() + whole->Ok_0.0 =~= whole->Ok_0.0);
        }
    }
    while i < count
        invariant
            i <= count,
            pos <= cur <= bytes@.len(),
            table.wf(),
            whole == decoding_items(bytes@, pos as int, e, table, count as nat),
            whole == after_items(
                list_model(&items),
                decoding_items(bytes@, cur as int, e, table, (count - i) as nat),
            ),
        decreases count - i,
    {
        let ghost done = list_model(&items);
        match read_value(bytes, cur, e, table) {
            Err(x) => {
                return Err(x);
            },
            Ok((v, mid)) => {
                proof {
                    let next = decoding_items(bytes@, mid as int, e, table, (count - i - 1) as nat);
                    if next.is_ok() {
                        assert(done + (seq![v@] + next->Ok_0.0) =~= done.push(v@) + next->Ok_0.0);
                    }
                }
                items.push(v);
                proof {
                    assert(list_model(&items) =~= done.push(v@));
                }
                cur = mid;
            },
        }
        i += 1;
    }
    proof {
        assert(list_model(&items) + Seq::<ValueModel>::empty() =~= list_model(&items));
    }
    Ok((items, cur))
}

fn read_fields(bytes: &[u8], pos: usize, fields: &Vec<Field>, table: &TypeTable) -> (r: Result<
    (Vec<FieldValue>, usize),
    CodecError,
>)
    requires
        table.wf(),
        pos <= bytes@.len(),
    ensures
        match r {
            Ok((given, end)) => decoding_fields(bytes@, pos as int, fields, table, 0) == Ok::<
                (Seq<(Seq<char>, ValueModel)>, int),
                CodecError,
            >((struct_model(&given), end as int)) && pos <= end <= bytes@.len(),
            Err(x) => decoding_fields(bytes@, pos as int, fields, table, 0) == Err::<
                (Seq<(Seq<char>, ValueModel)>, int),
                CodecError,
            >(x),
        },
    decreases rank_fields(fields, table, 0), fields, 1nat,
{
    let ghost whole = decoding_fields(bytes@, pos as int, fields, table, 0);
    let mut given: Vec<FieldValue> = Vec::new();
    let mut cur: usize = pos;
    let mut i: usize = 0;
    proof {
        assert(struct_model(&given) =~= Seq::<(Seq<char>, ValueModel)>::empty());
        if whole.is_ok() {
            assert(Seq::<(Seq<char>, ValueModel)>::empty() + whole->Ok_0.0 =~= whole->Ok_0.0);
        }
    }
    while i < fields.len()
        invariant
            i <= fields.len(),
            pos <= cur <= bytes@.len(),
            table.wf(),
            whole == decoding_fields(bytes@, pos as int, fields, table, 0),
            whole == after_fields(
                struct_model(&given),
                decoding_fields(bytes@, cur as int, fields, table, i as int),
            ),
        decreases fields.len() - i,
    {
        let ghost done = struct_model(&given);
        proof {
            lemma_rank_fields(fields, table, 0, i as int);
        }
        match read_value(bytes, cur, &fields[i].ty, table) {
            Err(x) => {
                return Err(x);
            },
            Ok((v, mid)) => {
                let name: String = fields[i].name.clone();
                proof {
                    let next = decoding_fields(bytes@, mid as int, fields, table, i + 1);
                    if next.is_ok() {
                        assert(done + (seq![(name@, v@)] + next->Ok_0.0) =~= done.push((name@, v@))
                            + next->Ok_0.0);
                    }
                }
                given.push(FieldValue { name, value: v });
                proof {
                    assert(struct_model(&given) =~= done.push((name@, v@)));
                }
                cur = mid;
            },
        }
        i += 1;
    }
    proof {
        assert(struct_model(&given) + Seq::<(Seq<char>, ValueModel)>::empty() =~= struct_model(
            &given,
        ));
    }
    Ok((given, cur))
}

fn read_variant(
    bytes: &[u8],
    pos: usize,
    tag: u64,
    variants: &Vec<Variant>,
    table: &TypeTable,
) -> (r: Result<(Value, usize), CodecError>)
    requires
        table.wf(),
        pos <= bytes@.len(),
    ensures
        read_as(r, decoding_variant(bytes@, pos as int, tag as nat, variants, table, 0)),
        r.is_ok() ==> pos <= r->Ok_0.1 <= bytes@.len(),
    decreases rank_variants(variants, table, 0), variants, 1nat,
{
    let ghost whole = decoding_variant(bytes@, pos as int, tag as nat, variants, table, 0);
    let mut i: usize = 0;
    let mut found: bool = false;
    while i < variants.len() && !found
        invariant
            i <= variants.len(),
            found ==> i < variants.len() && variants[i as int].discriminant == tag,
            whole == decoding_variant(bytes@, pos as int, tag as nat, variants, table, i as int),
        decreases
                variants.len() - i,
                (if found {
                    0nat
                } else {
                    1nat
                }),
    {
        if variants[i].discriminant == tag {
            found = true;
        } else {
            i += 1;
        }
    }
    if !found {
        return Err(CodecError::InvalidDiscriminant);
    }
    proof {
        lemma_rank_variants(variants, table, 0, i as int);
    }
    match &variants[i].payload {
        None => Ok((Value::Variant(variants[i].name.clone(), None), pos)),
        Some(p) => match read_value(bytes, pos, p, table) {
            Ok((inner, end)) => Ok(
                (Value::Variant(variants[i].name.clone(), Some(Box::new(inner))), end),
            ),
            Err(x) => Err(x),
        },
    }
}

/// The value of type `descriptor` that `bytes` begins with, and the number
/// of bytes it takes, where references are resolved in `table`.
///
/// Fails with `TruncatedInput` where the bytes end before the value does,
/// with `InvalidDiscriminant` where the index of an enum matches no
/// declared variant or a presence flag or a boolean is neither 0 nor 1,
/// and with `TypeMismatch` where a string is not UTF-8 or a reference
/// names what the table lacks.
pub fn decode(bytes: &[u8], descriptor: &TypeDescriptor, table: &TypeTable) -> (r: Result<
    (Value, usize),
    CodecError,
>)
    requires
        table.wf(),
    ensures
        read_as(r, decoding(bytes@, 0, descriptor, table)),
        r.is_ok() ==> r->Ok_0.1 <= bytes@.len(),
{
    read_value(bytes, 0, descriptor, table)
}

} // verus!
