use aqd_solana::codec::{decode, encode};
use aqd_solana::errors::CodecError;
use aqd_solana::schema::{
    DiscriminantWidth, Field, PrimitiveKind, TypeDescriptor, TypeTable, Variant,
};
use aqd_solana::value::{FieldValue, Value};

fn no_types() -> TypeTable {
    TypeTable::empty()
}

fn prim(k: PrimitiveKind) -> TypeDescriptor {
    TypeDescriptor::Primitive(k)
}

fn name(s: &str) -> String {
    s.to_string()
}

fn point() -> TypeDescriptor {
    TypeDescriptor::Struct(vec![
        Field { name: name("x"), ty: prim(PrimitiveKind::U8) },
        Field { name: name("y"), ty: prim(PrimitiveKind::U16) },
    ])
}

fn shape() -> TypeDescriptor {
    TypeDescriptor::Enum(
        DiscriminantWidth::One,
        vec![
            Variant { name: name("Empty"), discriminant: 0, payload: None },
            Variant { name: name("Circle"), discriminant: 1, payload: Some(prim(PrimitiveKind::U32)) },
            Variant { name: name("Dot"), discriminant: 7, payload: Some(point()) },
        ],
    )
}

fn round_trip(v: Value, d: &TypeDescriptor, t: &TypeTable) {
    let bytes = encode(&v, d, t).unwrap();
    let mut longer = bytes.clone();
    longer.push(0xAB);
    assert_eq!(decode(&bytes, d, t), Ok((v, bytes.len())));
    let (again, used) = decode(&longer, d, t).unwrap();
    assert_eq!(used, bytes.len());
    assert_eq!(encode(&again, d, t).unwrap(), bytes);
}

#[test]
fn u64_is_little_endian() {
    let d = prim(PrimitiveKind::U64);
    let bytes = encode(&Value::Int(1000), &d, &no_types()).unwrap();
    assert_eq!(bytes, vec![0xE8, 0x03, 0, 0, 0, 0, 0, 0]);
}

#[test]
fn optional_u64_absent_and_present() {
    let d = TypeDescriptor::Optional(Box::new(prim(PrimitiveKind::U64)));
    let (v, used) = decode(&[0x00], &d, &no_types()).unwrap();
    assert_eq!(v, Value::Optional(None));
    assert_eq!(used, 1);
    let (v, used) = decode(&[0x01, 0x2A, 0, 0, 0, 0, 0, 0, 0], &d, &no_types()).unwrap();
    assert_eq!(v, Value::Optional(Some(Box::new(Value::Int(42)))));
    assert_eq!(used, 9);
    assert_eq!(decode(&[0x01, 0x2A], &d, &no_types()), Err(CodecError::TruncatedInput));
    assert_eq!(decode(&[0x02], &d, &no_types()), Err(CodecError::InvalidDiscriminant));
    assert_eq!(decode(&[], &d, &no_types()), Err(CodecError::TruncatedInput));
}

#[test]
fn bool_is_one_byte() {
    let d = prim(PrimitiveKind::Bool);
    assert_eq!(encode(&Value::Bool(true), &d, &no_types()), Ok(vec![1]));
    assert_eq!(encode(&Value::Bool(false), &d, &no_types()), Ok(vec![0]));
    assert_eq!(decode(&[1, 5], &d, &no_types()), Ok((Value::Bool(true), 1)));
    assert_eq!(decode(&[2], &d, &no_types()), Err(CodecError::InvalidDiscriminant));
    assert_eq!(encode(&Value::Int(1), &d, &no_types()), Err(CodecError::TypeMismatch));
}

#[test]
fn integers_of_every_width() {
    let t = no_types();
    assert_eq!(encode(&Value::Int(255), &prim(PrimitiveKind::U8), &t), Ok(vec![0xFF]));
    assert_eq!(encode(&Value::Int(0x1234), &prim(PrimitiveKind::U16), &t), Ok(vec![0x34, 0x12]));
    assert_eq!(
        encode(&Value::Int(0xDEAD_BEEF), &prim(PrimitiveKind::U32), &t),
        Ok(vec![0xEF, 0xBE, 0xAD, 0xDE])
    );
    assert_eq!(
        encode(&Value::Int(u64::MAX as i128), &prim(PrimitiveKind::U64), &t),
        Ok(vec![0xFF; 8])
    );
    assert_eq!(encode(&Value::Int(-1), &prim(PrimitiveKind::I8), &t), Ok(vec![0xFF]));
    assert_eq!(encode(&Value::Int(-2), &prim(PrimitiveKind::I16), &t), Ok(vec![0xFE, 0xFF]));
    assert_eq!(
        encode(&Value::Int(i32::MIN as i128), &prim(PrimitiveKind::I32), &t),
        Ok(vec![0, 0, 0, 0x80])
    );
    assert_eq!(
        encode(&Value::Int(i64::MIN as i128), &prim(PrimitiveKind::I64), &t),
        Ok(vec![0, 0, 0, 0, 0, 0, 0, 0x80])
    );
    assert_eq!(decode(&[0x80], &prim(PrimitiveKind::I8), &t), Ok((Value::Int(-128), 1)));
    assert_eq!(decode(&[0x80], &prim(PrimitiveKind::U8), &t), Ok((Value::Int(128), 1)));
    assert_eq!(
        decode(&[0xFF; 8], &prim(PrimitiveKind::I64), &t),
        Ok((Value::Int(-1), 8))
    );
    assert_eq!(
        decode(&[0xFF; 8], &prim(PrimitiveKind::U64), &t),
        Ok((Value::Int(u64::MAX as i128), 8))
    );
}

#[test]
fn integers_out_of_range_are_mismatches() {
    let t = no_types();
    assert_eq!(encode(&Value::Int(256), &prim(PrimitiveKind::U8), &t), Err(CodecError::TypeMismatch));
    assert_eq!(encode(&Value::Int(-1), &prim(PrimitiveKind::U64), &t), Err(CodecError::TypeMismatch));
    assert_eq!(encode(&Value::Int(128), &prim(PrimitiveKind::I8), &t), Err(CodecError::TypeMismatch));
    assert_eq!(encode(&Value::Int(-129), &prim(PrimitiveKind::I8), &t), Err(CodecError::TypeMismatch));
    assert_eq!(
        encode(&Value::Int(u64::MAX as i128 + 1), &prim(PrimitiveKind::U64), &t),
        Err(CodecError::TypeMismatch)
    );
    assert_eq!(
        encode(&Value::Int(i64::MAX as i128 + 1), &prim(PrimitiveKind::I64), &t),
        Err(CodecError::TypeMismatch)
    );
    assert_eq!(encode(&Value::Int(1), &prim(PrimitiveKind::Text), &t), Err(CodecError::TypeMismatch));
}

#[test]
fn floats_are_their_bits() {
    let t = no_types();
    let one = 1.0f32.to_bits();
    assert_eq!(
        encode(&Value::Float32(one), &prim(PrimitiveKind::F32), &t),
        Ok(1.0f32.to_le_bytes().to_vec())
    );
    let half = 0.5f64.to_bits();
    assert_eq!(
        encode(&Value::Float64(half), &prim(PrimitiveKind::F64), &t),
        Ok(0.5f64.to_le_bytes().to_vec())
    );
    assert_eq!(
        decode(&(-2.5f32).to_le_bytes(), &prim(PrimitiveKind::F32), &t),
        Ok((Value::Float32((-2.5f32).to_bits()), 4))
    );
    assert_eq!(
        encode(&Value::Float32(one), &prim(PrimitiveKind::F64), &t),
        Err(CodecError::TypeMismatch)
    );
    assert_eq!(decode(&[0, 0, 0], &prim(PrimitiveKind::F32), &t), Err(CodecError::TruncatedInput));
}

#[test]
fn strings_have_a_length_prefix() {
    let t = no_types();
    let d = prim(PrimitiveKind::Text);
    assert_eq!(
        encode(&Value::Text(b"hi".to_vec()), &d, &t),
        Ok(vec![2, 0, 0, 0, b'h', b'i'])
    );
    assert_eq!(encode(&Value::Text(vec![]), &d, &t), Ok(vec![0, 0, 0, 0]));
    assert_eq!(
        decode(&[3, 0, 0, 0, 0xE2, 0x82, 0xAC, 9], &d, &t),
        Ok((Value::Text("€".as_bytes().to_vec()), 7))
    );
    assert_eq!(encode(&Value::Text(vec![0xFF, 0xFE]), &d, &t), Err(CodecError::TypeMismatch));
    assert_eq!(decode(&[2, 0, 0, 0, 0xFF, 0xFE], &d, &t), Err(CodecError::TypeMismatch));
    assert_eq!(decode(&[2, 0, 0, 0, b'h'], &d, &t), Err(CodecError::TruncatedInput));
    assert_eq!(decode(&[2, 0, 0], &d, &t), Err(CodecError::TruncatedInput));
}

#[test]
fn pubkeys_are_32_raw_bytes() {
    let t = no_types();
    let d = prim(PrimitiveKind::Pubkey);
    let key: Vec<u8> = (0u8..32).collect();
    assert_eq!(encode(&Value::Pubkey(key.clone()), &d, &t), Ok(key.clone()));
    assert_eq!(decode(&key, &d, &t), Ok((Value::Pubkey(key.clone()), 32)));
    assert_eq!(encode(&Value::Pubkey(vec![1; 31]), &d, &t), Err(CodecError::TypeMismatch));
    assert_eq!(decode(&key[..31], &d, &t), Err(CodecError::TruncatedInput));
}

#[test]
fn vectors_have_a_length_prefix() {
    let t = no_types();
    let d = TypeDescriptor::Vector(Box::new(prim(PrimitiveKind::U16)));
    let v = Value::List(vec![Value::Int(1), Value::Int(0x0203)]);
    assert_eq!(encode(&v, &d, &t), Ok(vec![2, 0, 0, 0, 1, 0, 3, 2]));
    assert_eq!(decode(&[2, 0, 0, 0, 1, 0, 3, 2], &d, &t), Ok((v, 8)));
    assert_eq!(encode(&Value::List(vec![]), &d, &t), Ok(vec![0, 0, 0, 0]));
    assert_eq!(decode(&[2, 0, 0, 0, 1, 0, 3], &d, &t), Err(CodecError::TruncatedInput));
    assert_eq!(
        encode(&Value::List(vec![Value::Int(1), Value::Bool(true)]), &d, &t),
        Err(CodecError::TypeMismatch)
    );
    assert_eq!(encode(&Value::Int(1), &d, &t), Err(CodecError::TypeMismatch));
}

#[test]
fn fixed_arrays_have_no_prefix() {
    let t = no_types();
    let d = TypeDescriptor::FixedArray(Box::new(prim(PrimitiveKind::U8)), 3);
    let v = Value::List(vec![Value::Int(7), Value::Int(8), Value::Int(9)]);
    assert_eq!(encode(&v, &d, &t), Ok(vec![7, 8, 9]));
    assert_eq!(decode(&[7, 8, 9, 10], &d, &t), Ok((v, 3)));
    assert_eq!(
        encode(&Value::List(vec![Value::Int(7)]), &d, &t),
        Err(CodecError::TypeMismatch)
    );
    assert_eq!(decode(&[7, 8], &d, &t), Err(CodecError::TruncatedInput));
}

#[test]
fn structs_are_encoded_in_declared_order() {
    let t = no_types();
    let d = point();
    let in_order = Value::Struct(vec![
        FieldValue { name: name("x"), value: Value::Int(1) },
        FieldValue { name: name("y"), value: Value::Int(0x0302) },
    ]);
    let reversed = Value::Struct(vec![
        FieldValue { name: name("y"), value: Value::Int(0x0302) },
        FieldValue { name: name("x"), value: Value::Int(1) },
    ]);
    assert_eq!(encode(&in_order, &d, &t), Ok(vec![1, 2, 3]));
    assert_eq!(encode(&reversed, &d, &t), Ok(vec![1, 2, 3]));
    assert_eq!(encode(&in_order, &d, &t), encode(&in_order, &d, &t));
    assert_eq!(decode(&[1, 2, 3], &d, &t), Ok((in_order, 3)));
}

#[test]
fn struct_values_must_have_exactly_the_declared_fields() {
    let t = no_types();
    let d = point();
    let missing = Value::Struct(vec![FieldValue { name: name("x"), value: Value::Int(1) }]);
    let renamed = Value::Struct(vec![
        FieldValue { name: name("x"), value: Value::Int(1) },
        FieldValue { name: name("z"), value: Value::Int(2) },
    ]);
    let extra = Value::Struct(vec![
        FieldValue { name: name("x"), value: Value::Int(1) },
        FieldValue { name: name("y"), value: Value::Int(2) },
        FieldValue { name: name("z"), value: Value::Int(3) },
    ]);
    assert_eq!(encode(&missing, &d, &t), Err(CodecError::TypeMismatch));
    assert_eq!(encode(&renamed, &d, &t), Err(CodecError::TypeMismatch));
    assert_eq!(encode(&extra, &d, &t), Err(CodecError::TypeMismatch));
    assert_eq!(decode(&[1, 2], &d, &t), Err(CodecError::TruncatedInput));
}

#[test]
fn enums_are_a_discriminant_and_a_payload() {
    let t = no_types();
    let d = shape();
    let empty = Value::Variant(name("Empty"), None);
    let circle = Value::Variant(name("Circle"), Some(Box::new(Value::Int(5))));
    assert_eq!(encode(&empty, &d, &t), Ok(vec![0]));
    assert_eq!(encode(&circle, &d, &t), Ok(vec![1, 5, 0, 0, 0]));
    assert_eq!(decode(&[0, 9], &d, &t), Ok((empty, 1)));
    assert_eq!(decode(&[1, 5, 0, 0, 0], &d, &t), Ok((circle, 5)));
    assert_eq!(
        decode(&[7, 4, 1, 0], &d, &t),
        Ok((
            Value::Variant(
                name("Dot"),
                Some(Box::new(Value::Struct(vec![
                    FieldValue { name: name("x"), value: Value::Int(4) },
                    FieldValue { name: name("y"), value: Value::Int(1) },
                ])))
            ),
            4
        ))
    );
}

#[test]
fn enum_boundary() {
    let t = no_types();
    let d = shape();
    assert_eq!(decode(&[2, 0, 0, 0, 0], &d, &t), Err(CodecError::InvalidDiscriminant));
    assert_eq!(decode(&[8], &d, &t), Err(CodecError::InvalidDiscriminant));
    assert_eq!(decode(&[255], &d, &t), Err(CodecError::InvalidDiscriminant));
    assert_eq!(decode(&[1, 5, 0, 0], &d, &t), Err(CodecError::TruncatedInput));
    assert_eq!(decode(&[1], &d, &t), Err(CodecError::TruncatedInput));
    assert_eq!(decode(&[7, 4, 1], &d, &t), Err(CodecError::TruncatedInput));
    assert_eq!(decode(&[], &d, &t), Err(CodecError::TruncatedInput));
}

#[test]
fn enum_values_must_match_a_declared_variant() {
    let t = no_types();
    let d = shape();
    assert_eq!(
        encode(&Value::Variant(name("Square"), None), &d, &t),
        Err(CodecError::TypeMismatch)
    );
    assert_eq!(
        encode(&Value::Variant(name("Circle"), None), &d, &t),
        Err(CodecError::TypeMismatch)
    );
    assert_eq!(
        encode(&Value::Variant(name("Empty"), Some(Box::new(Value::Int(1)))), &d, &t),
        Err(CodecError::TypeMismatch)
    );
}

#[test]
fn enum_discriminants_take_the_declared_width() {
    let t = no_types();
    let wide = TypeDescriptor::Enum(
        DiscriminantWidth::Four,
        vec![
            Variant { name: name("A"), discriminant: 0x0102, payload: None },
            Variant { name: name("B"), discriminant: 3, payload: Some(prim(PrimitiveKind::Bool)) },
        ],
    );
    assert_eq!(encode(&Value::Variant(name("A"), None), &wide, &t), Ok(vec![2, 1, 0, 0]));
    assert_eq!(
        encode(&Value::Variant(name("B"), Some(Box::new(Value::Bool(true)))), &wide, &t),
        Ok(vec![3, 0, 0, 0, 1])
    );
    assert_eq!(
        decode(&[2, 1, 0, 0], &wide, &t),
        Ok((Value::Variant(name("A"), None), 4))
    );
    assert_eq!(decode(&[2, 1, 0], &wide, &t), Err(CodecError::TruncatedInput));
    assert_eq!(decode(&[2, 1, 0, 1], &wide, &t), Err(CodecError::InvalidDiscriminant));
    let narrow = TypeDescriptor::Enum(
        DiscriminantWidth::One,
        vec![Variant { name: name("A"), discriminant: 256, payload: None }],
    );
    assert_eq!(
        encode(&Value::Variant(name("A"), None), &narrow, &t),
        Err(CodecError::TypeMismatch)
    );
    let two = TypeDescriptor::Enum(
        DiscriminantWidth::Two,
        vec![Variant { name: name("A"), discriminant: 0xABCD, payload: None }],
    );
    assert_eq!(encode(&Value::Variant(name("A"), None), &two, &t), Ok(vec![0xCD, 0xAB]));
    let eight = TypeDescriptor::Enum(
        DiscriminantWidth::Eight,
        vec![Variant { name: name("A"), discriminant: u64::MAX, payload: None }],
    );
    assert_eq!(encode(&Value::Variant(name("A"), None), &eight, &t), Ok(vec![0xFF; 8]));
}

#[test]
fn references_are_resolved_in_the_table() {
    let t = TypeTable::build(vec![
        Field { name: name("Line"), ty: TypeDescriptor::Struct(vec![
            Field { name: name("from"), ty: TypeDescriptor::DefinedRef(name("Point")) },
            Field { name: name("to"), ty: TypeDescriptor::DefinedRef(name("Point")) },
        ]) },
        Field { name: name("Point"), ty: point() },
    ])
    .unwrap();
    let p = |x: i128, y: i128| {
        Value::Struct(vec![
            FieldValue { name: name("x"), value: Value::Int(x) },
            FieldValue { name: name("y"), value: Value::Int(y) },
        ])
    };
    let line = Value::Struct(vec![
        FieldValue { name: name("from"), value: p(1, 2) },
        FieldValue { name: name("to"), value: p(3, 4) },
    ]);
    let d = TypeDescriptor::DefinedRef(name("Line"));
    assert_eq!(encode(&line, &d, &t), Ok(vec![1, 2, 0, 3, 4, 0]));
    assert_eq!(decode(&[1, 2, 0, 3, 4, 0], &d, &t), Ok((line, 6)));
    let dangling = TypeDescriptor::DefinedRef(name("Nowhere"));
    assert_eq!(encode(&Value::Int(1), &dangling, &t), Err(CodecError::TypeMismatch));
    assert_eq!(decode(&[1], &dangling, &t), Err(CodecError::TypeMismatch));
}

#[test]
fn decoding_undoes_encoding_for_every_kind() {
    let t = no_types();
    round_trip(Value::Bool(true), &prim(PrimitiveKind::Bool), &t);
    round_trip(Value::Int(200), &prim(PrimitiveKind::U8), &t);
    round_trip(Value::Int(60000), &prim(PrimitiveKind::U16), &t);
    round_trip(Value::Int(4_000_000_000), &prim(PrimitiveKind::U32), &t);
    round_trip(Value::Int(u64::MAX as i128), &prim(PrimitiveKind::U64), &t);
    round_trip(Value::Int(-100), &prim(PrimitiveKind::I8), &t);
    round_trip(Value::Int(-30000), &prim(PrimitiveKind::I16), &t);
    round_trip(Value::Int(-2_000_000_000), &prim(PrimitiveKind::I32), &t);
    round_trip(Value::Int(i64::MIN as i128), &prim(PrimitiveKind::I64), &t);
    round_trip(Value::Float32(3.25f32.to_bits()), &prim(PrimitiveKind::F32), &t);
    round_trip(Value::Float64((-1e300f64).to_bits()), &prim(PrimitiveKind::F64), &t);
    round_trip(Value::Text("héllo".as_bytes().to_vec()), &prim(PrimitiveKind::Text), &t);
    round_trip(Value::Pubkey(vec![9; 32]), &prim(PrimitiveKind::Pubkey), &t);
    round_trip(
        Value::List(vec![Value::Optional(None), Value::Optional(Some(Box::new(Value::Int(-1))))]),
        &TypeDescriptor::Vector(Box::new(TypeDescriptor::Optional(Box::new(prim(
            PrimitiveKind::I64,
        ))))),
        &t,
    );
    round_trip(
        Value::List(vec![Value::Bool(false), Value::Bool(true)]),
        &TypeDescriptor::FixedArray(Box::new(prim(PrimitiveKind::Bool)), 2),
        &t,
    );
    round_trip(
        Value::Struct(vec![
            FieldValue { name: name("x"), value: Value::Int(1) },
            FieldValue { name: name("y"), value: Value::Int(2) },
        ]),
        &point(),
        &t,
    );
    round_trip(
        Value::Variant(
            name("Dot"),
            Some(Box::new(Value::Struct(vec![
                FieldValue { name: name("x"), value: Value::Int(1) },
                FieldValue { name: name("y"), value: Value::Int(2) },
            ]))),
        ),
        &shape(),
        &t,
    );
    round_trip(Value::Variant(name("Empty"), None), &shape(), &t);
}
