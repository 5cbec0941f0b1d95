//! What holds of decoding when the bytes are cut short: a value is read
//! from its own bytes alone, and a cut through them is `TruncatedInput`.

use vstd::prelude::*;
use crate::errors::CodecError;
use crate::format::{
    decoding, decoding_fields, decoding_items, decoding_primitive, decoding_variant, int_width,
};
use crate::schema::{
    rank, rank_fields, rank_variants, Field, PrimitiveKind, TypeDescriptor, TypeTable, Variant,
};
use crate::value::ValueModel;
use crate::wire::le_value;

verus! {

/// What decoding gives on the first `cut` bytes, for a value that ends at
/// `end` in the whole: the same where the value ends within them, and
/// `TruncatedInput` where it does not.
pub open spec fn cut_short<T>(whole: Result<(T, int), CodecError>, cut: int) -> Result<
    (T, int),
    CodecError,
> {
    match whole {
        Ok((v, end)) => if end <= cut {
            whole
        } else {
            Err(CodecError::TruncatedInput)
        },
        Err(e) => Err(e),
    }
}

/// Where a value ends: not before it starts, and within the bytes.
pub open spec fn ends_within<T>(whole: Result<(T, int), CodecError>, pos: int, len: int) -> bool {
    match whole {
        Ok((_, end)) => pos <= end <= len,
        Err(_) => true,
    }
}

proof fn lemma_le_value_cut(bytes: Seq<u8>, pos: int, w: nat, cut: int)
    requires
        0 <= pos,
        pos + w <= cut <= bytes.len(),
    ensures
        le_value(bytes.take(cut), pos, w) == le_value(bytes, pos, w),
    decreases w,
{
    if w > 0 {
        lemma_le_value_cut(bytes, pos + 1, (w - 1) as nat, cut);
    }
}

proof fn lemma_cut_primitive(bytes: Seq<u8>, pos: int, k: PrimitiveKind, cut: int)
    requires
        0 <= pos <= cut <= bytes.len(),
        decoding_primitive(bytes, pos, k).is_ok(),
    ensures
        ends_within(decoding_primitive(bytes, pos, k), pos, bytes.len() as int),
        decoding_primitive(bytes.take(cut), pos, k) == cut_short(
            decoding_primitive(bytes, pos, k),
            cut,
        ),
{
    let short = bytes.take(cut);
    match k {
        PrimitiveKind::Bool => {},
        PrimitiveKind::F32 => {
            if pos + 4 <= cut {
                lemma_le_value_cut(bytes, pos, 4, cut);
            }
        },
        PrimitiveKind::F64 => {
            if pos + 8 <= cut {
                lemma_le_value_cut(bytes, pos, 8, cut);
            }
        },
        PrimitiveKind::Text => {
            if pos + 4 <= cut {
                lemma_le_value_cut(bytes, pos, 4, cut);
                let n = le_value(bytes, pos, 4);
                if pos + 4 + n <= cut {
                    assert(short.subrange(pos + 4, pos + 4 + n) =~= bytes.subrange(
                        pos + 4,
                        pos + 4 + n,
                    ));
                }
            }
        },
        PrimitiveKind::Pubkey => {
            if pos + 32 <= cut {
                assert(short.subrange(pos, pos + 32) =~= bytes.subrange(pos, pos + 32));
            }
        },
        _ => {
            if pos + int_width(k) <= cut {
                lemma_le_value_cut(bytes, pos, int_width(k), cut);
            }
        },
    }
}

/// Where decoding succeeds on the whole, it ends within the bytes, and on
/// the first `cut` bytes it gives the same if the value ends within them
/// and `TruncatedInput` if not.
pub proof fn lemma_cut(bytes: Seq<u8>, pos: int, d: &TypeDescriptor, t: &TypeTable, cut: int)
    requires
        0 <= pos <= cut <= bytes.len(),
        decoding(bytes, pos, d, t).is_ok(),
    ensures
        ends_within(decoding(bytes, pos, d, t), pos, bytes.len() as int),
        decoding(bytes.take(cut), pos, d, t) == cut_short(decoding(bytes, pos, d, t), cut),
    decreases rank(d, t), d, 0nat,
{
    match d {
        TypeDescriptor::Primitive(k) => {
            lemma_cut_primitive(bytes, pos, *k, cut);
        },
        TypeDescriptor::Vector(e) => {
            let n = le_value(bytes, pos, 4);
            if pos + 4 <= cut {
                lemma_le_value_cut(bytes, pos, 4, cut);
                lemma_cut_items(bytes, pos + 4, e, t, n, cut);
            } else {
                lemma_cut_items(bytes, pos + 4, e, t, n, pos + 4);
            }
        },
        TypeDescriptor::Optional(e) => {
            if bytes[pos] == 1 {
                if pos + 1 <= cut {
                    lemma_cut(bytes, pos + 1, e, t, cut);
                } else {
                    lemma_cut(bytes, pos + 1, e, t, pos + 1);
                }
            }
        },
        TypeDescriptor::FixedArray(e, n) => {
            lemma_cut_items(bytes, pos, e, t, *n as nat, cut);
        },
        TypeDescriptor::Struct(fields) => {
            lemma_cut_fields(bytes, pos, fields, t, 0, cut);
        },
        TypeDescriptor::Enum(width, variants) => {
            let w = width.bytes();
            let tag = le_value(bytes, pos, w);
            if pos + w <= cut {
                lemma_le_value_cut(bytes, pos, w, cut);
                lemma_cut_variant(bytes, pos + w, tag, variants, t, 0, cut);
            } else {
                lemma_cut_variant(bytes, pos + w, tag, variants, t, 0, pos + w);
            }
        },
        TypeDescriptor::DefinedRef(name) => {
            let j = t.target(name@)->Some_0;
            lemma_cut(bytes, pos, &t.entries[j].ty, t, cut);
        },
    }
}

proof fn lemma_cut_items(
    bytes: Seq<u8>,
    pos: int,
    e: &TypeDescriptor,
    t: &TypeTable,
    count: nat,
    cut: int,
)
    requires
        0 <= pos <= cut <= bytes.len(),
        decoding_items(bytes, pos, e, t, count).is_ok(),
    ensures
        ends_within(decoding_items(bytes, pos, e, t, count), pos, bytes.len() as int),
        decoding_items(bytes.take(cut), pos, e, t, count) == cut_short(
            decoding_items(bytes, pos, e, t, count),
            cut,
        ),
    decreases rank(e, t), e, count + 1,
{
    if count > 0 {
        lemma_cut(bytes, pos, e, t, cut);
        let mid = decoding(bytes, pos, e, t)->Ok_0.1;
        if mid <= cut {
            lemma_cut_items(bytes, mid, e, t, (count - 1) as nat, cut);
        } else {
            lemma_cut_items(bytes, mid, e, t, (count - 1) as nat, mid);
        }
    }
}

proof fn lemma_cut_fields(
    bytes: Seq<u8>,
    pos: int,
    fields: &Vec<Field>,
    t: &TypeTable,
    from: int,
    cut: int,
)
    requires
        0 <= pos <= cut <= bytes.len(),
        0 <= from,
        decoding_fields(bytes, pos, fields, t, from).is_ok(),
    ensures
        ends_within(decoding_fields(bytes, pos, fields, t, from), pos, bytes.len() as int),
        decoding_fields(bytes.take(cut), pos, fields, t, from) == cut_short(
            decoding_fields(bytes, pos, fields, t, from),
            cut,
        ),
    decreases rank_fields(fields, t, from), fields, fields.len() - from + 1,
{
    if from < fields.len() {
        lemma_cut(bytes, pos, &fields[from].ty, t, cut);
        let mid = decoding(bytes, pos, &fields[from].ty, t)->Ok_0.1;
        if mid <= cut {
            lemma_cut_fields(bytes, mid, fields, t, from + 1, cut);
        } else {
            lemma_cut_fields(bytes, mid, fields, t, from + 1, mid);
        }
    }
}

proof fn lemma_cut_variant(
    bytes: Seq<u8>,
    pos: int,
    tag: nat,
    variants: &Vec<Variant>,
    t: &TypeTable,
    from: int,
    cut: int,
)
    requires
        0 <= pos <= cut <= bytes.len(),
        0 <= from,
        decoding_variant(bytes, pos, tag, variants, t, from).is_ok(),
    ensures
        ends_within(decoding_variant(bytes, pos, tag, variants, t, from), pos, bytes.len() as int),
        decoding_variant(bytes.take(cut), pos, tag, variants, t, from) == cut_short(
            decoding_variant(bytes, pos, tag, variants, t, from),
            cut,
        ),
    decreases rank_variants(variants, t, from), variants, variants.len() - from + 1,
{
    if from < variants.len() {
        if variants[from].discriminant == tag {
            match variants[from].payload {
                Some(p) => {
                    lemma_cut(bytes, pos, &p, t, cut);
                },
                None => {},
            }
        } else {
            lemma_cut_variant(bytes, pos, tag, variants, t, from + 1, cut);
        }
    }
}

/// Decoding stays within the bytes: a value that is read from `pos` ends
/// at or after `pos`, and not after the bytes do.
pub proof fn decoding_stays_in_bounds(bytes: Seq<u8>, pos: int, d: &TypeDescriptor, t: &TypeTable)
    requires
        0 <= pos <= bytes.len(),
        decoding(bytes, pos, d, t).is_ok(),
    ensures
        pos <= decoding(bytes, pos, d, t)->Ok_0.1 <= bytes.len(),
{
    lemma_cut(bytes, pos, d, t, bytes.len() as int);
}

/// A value is read from its own bytes alone: where it ends within the
/// first `cut` bytes, decoding those gives the same value and the same
/// end.
pub proof fn later_bytes_do_not_matter(
    bytes: Seq<u8>,
    pos: int,
    d: &TypeDescriptor,
    t: &TypeTable,
    cut: int,
)
    requires
        0 <= pos <= cut <= bytes.len(),
        decoding(bytes, pos, d, t).is_ok(),
        decoding(bytes, pos, d, t)->Ok_0.1 <= cut,
    ensures
        decoding(bytes.take(cut), pos, d, t) == decoding(bytes, pos, d, t),
{
    lemma_cut(bytes, pos, d, t, cut);
}

/// Truncation. Where a value can be read from `pos`, and the bytes are
/// cut short before it ends, decoding the rest fails with
/// `TruncatedInput`: of whatever type the value is, and so also after the
/// valid discriminant of an enum.
pub proof fn truncated_input_is_rejected(
    bytes: Seq<u8>,
    pos: int,
    d: &TypeDescriptor,
    t: &TypeTable,
    cut: int,
)
    requires
        0 <= pos <= cut <= bytes.len(),
        decoding(bytes, pos, d, t).is_ok(),
        cut < decoding(bytes, pos, d, t)->Ok_0.1,
    ensures
        decoding(bytes.take(cut), pos, d, t) == Err::<(ValueModel, int), CodecError>(
            CodecError::TruncatedInput,
        ),
{
    lemma_cut(bytes, pos, d, t, cut);
}

} // verus!
