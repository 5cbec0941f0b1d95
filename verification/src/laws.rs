//! What holds of the format for all values and all bytes.

use vstd::prelude::*;
use crate::errors::CodecError;
use crate::format::{
    decoding,
    decoding_fields,
    decoding_items,
    decoding_primitive,
    decoding_variant,
    encoding,
    encoding_fields,
    encoding_items,
    encoding_primitive,
    encoding_variant,
    int_from_wire,
    int_in_range,
    int_to_wire,
    int_width,
    value_names,
};
use crate::names::{distinct, index_of, lemma_index_of_distinct};
use crate::schema::{
    field_names,
    lemma_rank_fields,
    lemma_rank_variants,
    rank,
    rank_fields,
    rank_variants,
    valid,
    valid_fields,
    valid_variants,
    DiscriminantWidth,
    Field,
    PrimitiveKind,
    TypeDescriptor,
    TypeTable,
    Variant,
};
use crate::value::ValueModel;
use crate::wire::{
    holds_at,
    le_bytes,
    le_value,
    lemma_holds_at_split,
    lemma_le_bytes_len,
    lemma_le_round_trip,
    lemma_radix_values,
    radix,
};

verus! {

/// Every struct value inside `v` gives its fields in the order in which
/// the struct it is held against declares them.
pub open spec fn in_declared_order(v: ValueModel, d: &TypeDescriptor, t: &TypeTable) -> bool
    decreases rank(d, t), d, 0nat,
{
    match d {
        TypeDescriptor::Primitive(_) => true,
        TypeDescriptor::Vector(e) => match v {
            ValueModel::List(items) => items_in_order(items, e, t, 0),
            _ => true,
        },
        TypeDescriptor::Optional(e) => match v {
            ValueModel::Optional(Some(inner)) => in_declared_order(*inner, e, t),
            _ => true,
        },
        TypeDescriptor::FixedArray(e, _) => match v {
            ValueModel::List(items) => items_in_order(items, e, t, 0),
            _ => true,
        },
        TypeDescriptor::Struct(fields) => match v {
            ValueModel::Struct(given) => value_names(given) == field_names(fields@)
                && fields_in_order(given, fields, t, 0),
            _ => true,
        },
        TypeDescriptor::Enum(_, variants) => match v {
            ValueModel::Variant(name, Some(inner)) => payload_in_order(
                name,
                *inner,
                variants,
                t,
                0,
            ),
            _ => true,
        },
        TypeDescriptor::DefinedRef(name) => match t.target(name@) {
            Some(j) => in_declared_order(v, &t.entries[j].ty, t),
            None => true,
        },
    }
}

pub open spec fn items_in_order(
    items: Seq<ValueModel>,
    e: &TypeDescriptor,
    t: &TypeTable,
    from: int,
) -> bool
    decreases rank(e, t), e, items.len() - from,
{
    if from < 0 || from >= items.len() {
        true
    } else {
        in_declared_order(items[from], e, t) && items_in_order(items, e, t, from + 1)
    }
}

pub open spec fn fields_in_order(
    given: Seq<(Seq<char>, ValueModel)>,
    fields: &Vec<Field>,
    t: &TypeTable,
    from: int,
) -> bool
    decreases rank_fields(fields, t, from), fields, fields.len() - from,
{
    if from < 0 || from >= fields.len() {
        true
    } else {
        in_declared_order(given[from].1, &fields[from].ty, t) && fields_in_order(
            given,
            fields,
            t,
            from + 1,
        )
    }
}

pub open spec fn payload_in_order(
    name: Seq<char>,
    inner: ValueModel,
    variants: &Vec<Variant>,
    t: &TypeTable,
    from: int,
) -> bool
    decreases rank_variants(variants, t, from), variants, variants.len() - from,
{
    if from < 0 || from >= variants.len() {
        true
    } else if variants[from].name@ == name {
        match variants[from].payload {
            Some(p) => in_declared_order(inner, &p, t),
            None => true,
        }
    } else {
        payload_in_order(name, inner, variants, t, from + 1)
    }
}

proof fn lemma_int_wire_round_trip(k: PrimitiveKind, n: int)
    requires
        int_in_range(k, n),
    ensures
        int_to_wire(k, n) < radix(int_width(k)),
        int_from_wire(k, int_to_wire(k, n)) == n,
{
    lemma_radix_values();
}

proof fn lemma_round_trip_primitive(
    v: ValueModel,
    k: PrimitiveKind,
    enc: Seq<u8>,
    bytes: Seq<u8>,
    pos: int,
)
    requires
        encoding_primitive(v, k) == Ok::<Seq<u8>, CodecError>(enc),
        holds_at(bytes, pos, enc),
    ensures
        decoding_primitive(bytes, pos, k) == Ok::<(ValueModel, int), CodecError>(
            (v, pos + enc.len()),
        ),
{
    lemma_radix_values();
    match v {
        ValueModel::Bool(b) => {
            assert(bytes[pos] == bytes.subrange(pos, pos + 1)[0]);
        },
        ValueModel::Int(n) => {
            lemma_int_wire_round_trip(k, n);
            lemma_le_bytes_len(int_to_wire(k, n), int_width(k));
            lemma_le_round_trip(bytes, pos, int_to_wire(k, n), int_width(k));
        },
        ValueModel::Float32(bits) => {
            lemma_le_bytes_len(bits as nat, 4);
            lemma_le_round_trip(bytes, pos, bits as nat, 4);
        },
        ValueModel::Float64(bits) => {
            lemma_le_bytes_len(bits as nat, 8);
            lemma_le_round_trip(bytes, pos, bits as nat, 8);
        },
        ValueModel::Text(s) => {
            lemma_le_bytes_len(s.len(), 4);
            lemma_holds_at_split(bytes, pos, le_bytes(s.len(), 4), s);
            lemma_le_round_trip(bytes, pos, s.len(), 4);
        },
        ValueModel::Pubkey(s) => {},
        _ => {},
    }
}

/// Each field of a valid struct is valid.
proof fn lemma_valid_fields(fields: &Vec<Field>, t: &TypeTable, from: int, i: int)
    requires
        0 <= from <= i < fields.len(),
        valid_fields(fields, t, from),
    ensures
        valid(&fields[i].ty, t),
        valid_fields(fields, t, i),
    decreases i - from,
{
    if from < i {
        lemma_valid_fields(fields, t, from + 1, i);
    }
}

/// Each variant of a valid enum has a discriminant that fits, and a valid
/// payload if it has one.
proof fn lemma_valid_variants(
    variants: &Vec<Variant>,
    width: DiscriminantWidth,
    t: &TypeTable,
    from: int,
    i: int,
)
    requires
        0 <= from <= i < variants.len(),
        valid_variants(variants, width, t, from),
    ensures
        variants[i].discriminant < radix(width.bytes()),
        match variants[i].payload {
            Some(p) => valid(&p, t),
            None => true,
        },
    decreases i - from,
{
    if from < i {
        lemma_valid_variants(variants, width, t, from + 1, i);
    }
}

/// Looking for a variant by name from `from` on is looking at the first
/// index, not before `from`, that bears the name.
proof fn lemma_encoding_variant_at(
    name: Seq<char>,
    payload: Option<Box<ValueModel>>,
    width: DiscriminantWidth,
    variants: &Vec<Variant>,
    t: &TypeTable,
    from: int,
) -> (k: int)
    requires
        0 <= from,
        encoding_variant(name, payload, width, variants, t, from).is_ok(),
    ensures
        from <= k < variants.len(),
        variants[k].name@ == name,
        encoding_variant(name, payload, width, variants, t, from) == encoding_variant(
            name,
            payload,
            width,
            variants,
            t,
            k,
        ),
        payload.is_some() ==> payload_in_order(name, *payload.unwrap(), variants, t, from)
            == payload_in_order(name, *payload.unwrap(), variants, t, k),
    decreases variants.len() - from,
{
    if variants[from].name@ == name {
        from
    } else {
        lemma_encoding_variant_at(name, payload, width, variants, t, from + 1)
    }
}

/// Variants whose discriminant is not `tag` are passed over.
proof fn lemma_decoding_variant_skip(
    bytes: Seq<u8>,
    pos: int,
    tag: nat,
    variants: &Vec<Variant>,
    t: &TypeTable,
    from: int,
    k: int,
)
    requires
        0 <= from <= k <= variants.len(),
        forall|j: int| from <= j < k ==> variants[j].discriminant != tag,
    ensures
        decoding_variant(bytes, pos, tag, variants, t, from) == decoding_variant(
            bytes,
            pos,
            tag,
            variants,
            t,
            k,
        ),
    decreases k - from,
{
    if from < k {
        lemma_decoding_variant_skip(bytes, pos, tag, variants, t, from + 1, k);
    }
}

/// Decoding undoes encoding: where `enc`, the bytes of `v` as a value of
/// type `d`, stands in `bytes` at `pos`, decoding a `d` at `pos` gives `v`
/// and ends where `enc` ends. It holds of values that give the fields of
/// their structs in declared order, since decoding returns them so.
pub proof fn round_trip(
    v: ValueModel,
    d: &TypeDescriptor,
    t: &TypeTable,
    enc: Seq<u8>,
    bytes: Seq<u8>,
    pos: int,
)
    requires
        t.wf(),
        valid(d, t),
        in_declared_order(v, d, t),
        encoding(v, d, t) == Ok::<Seq<u8>, CodecError>(enc),
        holds_at(bytes, pos, enc),
    ensures
        decoding(bytes, pos, d, t) == Ok::<(ValueModel, int), CodecError>((v, pos + enc.len())),
    decreases rank(d, t), d, 0nat,
{
    lemma_radix_values();
    match d {
        TypeDescriptor::Primitive(k) => {
            lemma_round_trip_primitive(v, *k, enc, bytes, pos);
        },
        TypeDescriptor::Vector(e) => {
            let items = v->List_0;
            let body = encoding_items(items, e, t, 0)->Ok_0;
            let head = le_bytes(items.len(), 4);
            lemma_le_bytes_len(items.len(), 4);
            lemma_holds_at_split(bytes, pos, head, body);
            lemma_le_round_trip(bytes, pos, items.len(), 4);
            round_trip_items(items, e, t, 0, body, bytes, pos + 4);
            assert(items.subrange(0, items.len() as int) =~= items);
        },
        TypeDescriptor::Optional(e) => {
            match v {
                ValueModel::Optional(None) => {
                    assert(bytes[pos] == bytes.subrange(pos, pos + 1)[0]);
                },
                ValueModel::Optional(Some(inner)) => {
                    let body = encoding(*inner, e, t)->Ok_0;
                    lemma_holds_at_split(bytes, pos, seq![1u8], body);
                    assert(bytes[pos] == bytes.subrange(pos, pos + 1)[0]);
                    round_trip(*inner, e, t, body, bytes, pos + 1);
                },
                _ => {},
            }
        },
        TypeDescriptor::FixedArray(e, n) => {
            let items = v->List_0;
            round_trip_items(items, e, t, 0, enc, bytes, pos);
            assert(items.subrange(0, items.len() as int) =~= items);
        },
        TypeDescriptor::Struct(fields) => {
            let given = v->Struct_0;
            round_trip_fields(given, fields, t, 0, enc, bytes, pos);
            assert(given.subrange(0, given.len() as int) =~= given);
        },
        TypeDescriptor::Enum(width, variants) => {
            let name = v->Variant_0;
            let payload = v->Variant_1;
            let k = lemma_encoding_variant_at(name, payload, *width, variants, t, 0);
            let w = width.bytes();
            let disc = variants[k].discriminant as nat;
            let tag = le_bytes(disc, w);
            lemma_le_bytes_len(disc, w);
            lemma_valid_variants(variants, *width, t, 0, k);
            lemma_rank_variants(variants, t, 0, k);
            assert forall|j: int| 0 <= j < k implies variants[j].discriminant != disc by {
                assert(variants@[j].discriminant != variants@[k].discriminant);
            }
            lemma_decoding_variant_skip(bytes, pos + w, disc, variants, t, 0, k);
            match (variants[k].payload, payload) {
                (None, None) => {
                    lemma_le_round_trip(bytes, pos, disc, w);
                },
                (Some(p), Some(inner)) => {
                    let body = encoding(*inner, &p, t)->Ok_0;
                    lemma_holds_at_split(bytes, pos, tag, body);
                    lemma_le_round_trip(bytes, pos, disc, w);
                    round_trip(*inner, &p, t, body, bytes, pos + w);
                },
                _ => {},
            }
        },
        TypeDescriptor::DefinedRef(name) => {
            let j = t.target(name@)->Some_0;
            assert(t.settled(j));
            round_trip(v, &t.entries[j].ty, t, enc, bytes, pos);
        },
    }
}

/// Enum boundary. Where the index that stands at `pos` is the
/// discriminant of no declared variant, decoding the enum fails with
/// `InvalidDiscriminant`.
pub proof fn unknown_discriminant_is_rejected(
    bytes: Seq<u8>,
    pos: int,
    d: &TypeDescriptor,
    t: &TypeTable,
)
    requires
        d is Enum,
        pos + d->Enum_0.bytes() <= bytes.len(),
        forall|i: int|
            0 <= i < d->Enum_1.len() ==> (#[trigger] d->Enum_1[i]).discriminant != le_value(
                bytes,
                pos,
                d->Enum_0.bytes(),
            ),
    ensures
        decoding(bytes, pos, d, t) == Err::<(ValueModel, int), CodecError>(
            CodecError::InvalidDiscriminant,
        ),
{
    let width = d->Enum_0;
    let variants = d->Enum_1;
    lemma_decoding_variant_skip(
        bytes,
        pos + width.bytes(),
        le_value(bytes, pos, width.bytes()),
        &variants,
        t,
        0,
        variants.len() as int,
    );
}

/// What decoding makes of the payload of the variant at index `k`, read
/// from `pos`.
pub open spec fn decoding_payload(
    bytes: Seq<u8>,
    pos: int,
    variant: Variant,
    t: &TypeTable,
) -> Result<(ValueModel, int), CodecError> {
    match variant.payload {
        None => Ok((ValueModel::Variant(variant.name@, None), pos)),
        Some(p) => match decoding(bytes, pos, &p, t) {
            Ok((inner, end)) => Ok(
                (ValueModel::Variant(variant.name@, Some(Box::new(inner))), end),
            ),
            Err(x) => Err(x),
        },
    }
}

/// Enum boundary. Where the index that stands at `pos` is the
/// discriminant of the variant at index `k`, and of none before it,
/// decoding the enum is decoding the payload of that variant from where
/// the index ends. So where the bytes end before the payload does, the
/// enum fails as the payload does: with `TruncatedInput`.
pub proof fn known_discriminant_selects_payload(
    bytes: Seq<u8>,
    pos: int,
    d: &TypeDescriptor,
    t: &TypeTable,
    k: int,
)
    requires
        d is Enum,
        pos + d->Enum_0.bytes() <= bytes.len(),
        0 <= k < d->Enum_1.len(),
        d->Enum_1[k].discriminant == le_value(bytes, pos, d->Enum_0.bytes()),
        forall|i: int|
            0 <= i < k ==> (#[trigger] d->Enum_1[i]).discriminant != le_value(
                bytes,
                pos,
                d->Enum_0.bytes(),
            ),
    ensures
        decoding(bytes, pos, d, t) == decoding_payload(
            bytes,
            pos + d->Enum_0.bytes(),
            d->Enum_1[k],
            t,
        ),
{
    let width = d->Enum_0;
    let variants = d->Enum_1;
    lemma_decoding_variant_skip(
        bytes,
        pos + width.bytes(),
        le_value(bytes, pos, width.bytes()),
        &variants,
        t,
        0,
        k,
    );
}

/// Round trip. Decoding the bytes of a value gives the value back, and
/// takes all the bytes.
pub proof fn decode_of_encode(v: ValueModel, d: &TypeDescriptor, t: &TypeTable)
    requires
        t.wf(),
        valid(d, t),
        in_declared_order(v, d, t),
        encoding(v, d, t).is_ok(),
    ensures
        decoding(encoding(v, d, t)->Ok_0, 0, d, t) == Ok::<(ValueModel, int), CodecError>(
            (v, encoding(v, d, t)->Ok_0.len() as int),
        ),
{
    let enc = encoding(v, d, t)->Ok_0;
    assert(enc.subrange(0, enc.len() as int) =~= enc);
    round_trip(v, d, t, enc, enc, 0);
}

/// The value that a struct value gives for the field `name`: that of the
/// first field it gives under that name.
pub open spec fn field_value(given: Seq<(Seq<char>, ValueModel)>, name: Seq<char>) -> Option<
    ValueModel,
> {
    match index_of(value_names(given), name) {
        Some(k) => Some(given[k].1),
        None => None,
    }
}

/// The struct values `a` and `b` give the same value for the field
/// declared at index `i`.
pub open spec fn same_field(
    a: Seq<(Seq<char>, ValueModel)>,
    b: Seq<(Seq<char>, ValueModel)>,
    fields: &Vec<Field>,
    i: int,
) -> bool {
    field_value(a, fields[i].name@) == field_value(b, fields[i].name@)
}

proof fn lemma_same_fields(
    a: Seq<(Seq<char>, ValueModel)>,
    b: Seq<(Seq<char>, ValueModel)>,
    fields: &Vec<Field>,
    t: &TypeTable,
    from: int,
)
    requires
        0 <= from,
        forall|i: int| 0 <= i < fields.len() ==> #[trigger] same_field(a, b, fields, i),
    ensures
        encoding_fields(a, fields, t, from) == encoding_fields(b, fields, t, from),
    decreases fields.len() - from,
{
    if from < fields.len() {
        assert(same_field(a, b, fields, from));
        lemma_same_fields(a, b, fields, t, from + 1);
    }
}

/// Field order. The bytes of a struct value are those of its fields in
/// the order of their declaration, whatever the order in which the value
/// gives them: two struct values of as many fields, which give the same
/// value for every declared field, have the same bytes.
pub proof fn field_order_does_not_matter(
    a: Seq<(Seq<char>, ValueModel)>,
    b: Seq<(Seq<char>, ValueModel)>,
    d: &TypeDescriptor,
    t: &TypeTable,
)
    requires
        d is Struct,
        a.len() == b.len(),
        forall|i: int| 0 <= i < d->Struct_0.len() ==> #[trigger] same_field(a, b, &d->Struct_0, i),
    ensures
        encoding(ValueModel::Struct(a), d, t) == encoding(ValueModel::Struct(b), d, t),
{
    lemma_same_fields(a, b, &d->Struct_0, t, 0);
}

proof fn round_trip_items(
    items: Seq<ValueModel>,
    e: &TypeDescriptor,
    t: &TypeTable,
    from: int,
    enc: Seq<u8>,
    bytes: Seq<u8>,
    pos: int,
)
    requires
        t.wf(),
        valid(e, t),
        0 <= from <= items.len(),
        items_in_order(items, e, t, from),
        encoding_items(items, e, t, from) == Ok::<Seq<u8>, CodecError>(enc),
        holds_at(bytes, pos, enc),
    ensures
        decoding_items(bytes, pos, e, t, (items.len() - from) as nat) == Ok::<
            (Seq<ValueModel>, int),
            CodecError,
        >((items.subrange(from, items.len() as int), pos + enc.len())),
    decreases rank(e, t), e, items.len() - from + 1,
{
    if from < items.len() {
        let head = encoding(items[from], e, t)->Ok_0;
        let tail = encoding_items(items, e, t, from + 1)->Ok_0;
        lemma_holds_at_split(bytes, pos, head, tail);
        round_trip(items[from], e, t, head, bytes, pos);
        round_trip_items(items, e, t, from + 1, tail, bytes, pos + head.len());
        assert(seq![items[from]] + items.subrange(from + 1, items.len() as int)
            =~= items.subrange(from, items.len() as int));
    } else {
        assert(items.subrange(from, items.len() as int) =~= Seq::<ValueModel>::empty());
    }
}

proof fn round_trip_fields(
    given: Seq<(Seq<char>, ValueModel)>,
    fields: &Vec<Field>,
    t: &TypeTable,
    from: int,
    enc: Seq<u8>,
    bytes: Seq<u8>,
    pos: int,
)
    requires
        t.wf(),
        0 <= from <= fields.len(),
        given.len() == fields.len(),
        distinct(field_names(fields@)),
        value_names(given) == field_names(fields@),
        valid_fields(fields, t, from),
        fields_in_order(given, fields, t, from),
        encoding_fields(given, fields, t, from) == Ok::<Seq<u8>, CodecError>(enc),
        holds_at(bytes, pos, enc),
    ensures
        decoding_fields(bytes, pos, fields, t, from) == Ok::<
            (Seq<(Seq<char>, ValueModel)>, int),
            CodecError,
        >((given.subrange(from, given.len() as int), pos + enc.len())),
    decreases rank_fields(fields, t, 0), fields, fields.len() - from + 1,
{
    if from < fields.len() {
        lemma_index_of_distinct(value_names(given), from);
        assert(value_names(given)[from] == fields[from].name@);
        assert(value_names(given)[from] == given[from].0);
        let head = encoding(given[from].1, &fields[from].ty, t)->Ok_0;
        let tail = encoding_fields(given, fields, t, from + 1)->Ok_0;
        lemma_holds_at_split(bytes, pos, head, tail);
        lemma_rank_fields(fields, t, 0, from);
        round_trip(given[from].1, &fields[from].ty, t, head, bytes, pos);
        round_trip_fields(given, fields, t, from + 1, tail, bytes, pos + head.len());
        assert(seq![(fields[from].name@, given[from].1)] + given.subrange(
            from + 1,
            given.len() as int,
        ) =~= given.subrange(from, given.len() as int));
    } else {
        assert(given.subrange(from, given.len() as int) =~= Seq::<
            (Seq<char>, ValueModel),
        >::empty());
    }
}

} // verus!
