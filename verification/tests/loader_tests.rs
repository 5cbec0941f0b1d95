use aqd_solana::errors::SchemaError;
use aqd_solana::idl::{address_from_bytes, Address, IdlDefinition};
use aqd_solana::json::{get_member, is_word, Json, Member};
use aqd_solana::loader::{assemble, load, parse_type};
use aqd_solana::schema::{DiscriminantWidth, Field, PrimitiveKind, TypeDescriptor, Variant};

fn text(s: &str) -> Json {
    Json::Text(s.to_string())
}

fn object(members: Vec<(&str, Json)>) -> Json {
    Json::Object(
        members.into_iter().map(|(k, v)| Member { key: k.to_string(), value: v }).collect(),
    )
}

fn of_kind(kind: &str, mut rest: Vec<(&'static str, Json)>) -> Json {
    let mut members = vec![("kind", text(kind))];
    members.append(&mut rest);
    object(members)
}

fn named(name: &str, ty: Json) -> Json {
    object(vec![("name", text(name)), ("type", ty)])
}

const KEY: &str = "US517G5965aydkZ46HS38QLi7UQiSojurfbQfKCELFx";

fn document(instructions: Vec<Json>, types: Vec<Json>) -> Json {
    object(vec![
        ("program_id", text(KEY)),
        ("instructions", Json::Array(instructions)),
        ("types", Json::Array(types)),
    ])
}

fn transfer() -> Json {
    object(vec![
        ("name", text("transfer")),
        (
            "accounts",
            Json::Array(vec![
                object(vec![
                    ("name", text("from")),
                    ("is_signer", Json::Bool(true)),
                    ("is_writable", Json::Bool(true)),
                ]),
                object(vec![("name", text("to")), ("is_writable", Json::Bool(true))]),
                object(vec![("name", text("memo")), ("is_optional", Json::Bool(true))]),
            ]),
        ),
        ("args", Json::Array(vec![named("amount", text("u64"))])),
        ("returns", of_kind("option", vec![("element", text("u64"))])),
    ])
}

fn prim(k: PrimitiveKind) -> TypeDescriptor {
    TypeDescriptor::Primitive(k)
}

#[test]
fn members_are_found_by_key() {
    let j = object(vec![("a", Json::Integer(1)), ("b", Json::Null), ("a", Json::Integer(2))]);
    let members = match &j {
        Json::Object(members) => members,
        _ => unreachable!(),
    };
    assert_eq!(get_member(members, "a"), Some(&Json::Integer(1)));
    assert_eq!(get_member(members, "b"), Some(&Json::Null));
    assert_eq!(get_member(members, "c"), None);
    assert!(is_word(&"kind".to_string(), "kind"));
    assert!(!is_word(&"kind".to_string(), "kin"));
}

#[test]
fn kinds_without_parts_are_read_from_their_names() {
    let all = [
        ("bool", PrimitiveKind::Bool),
        ("u8", PrimitiveKind::U8),
        ("u16", PrimitiveKind::U16),
        ("u32", PrimitiveKind::U32),
        ("u64", PrimitiveKind::U64),
        ("i8", PrimitiveKind::I8),
        ("i16", PrimitiveKind::I16),
        ("i32", PrimitiveKind::I32),
        ("i64", PrimitiveKind::I64),
        ("f32", PrimitiveKind::F32),
        ("f64", PrimitiveKind::F64),
        ("string", PrimitiveKind::Text),
        ("pubkey", PrimitiveKind::Pubkey),
    ];
    for (word, kind) in all {
        assert_eq!(parse_type(&text(word)), Ok(prim(kind)));
        assert_eq!(parse_type(&of_kind(word, vec![])), Ok(prim(kind)));
    }
    assert_eq!(parse_type(&text("u128")), Err(SchemaError::UnsupportedType));
    assert_eq!(parse_type(&of_kind("tuple", vec![])), Err(SchemaError::UnsupportedType));
}

#[test]
fn composite_types_are_read_from_objects() {
    assert_eq!(
        parse_type(&of_kind("vector", vec![("element", text("u8"))])),
        Ok(TypeDescriptor::Vector(Box::new(prim(PrimitiveKind::U8))))
    );
    assert_eq!(
        parse_type(&of_kind("option", vec![("element", text("string"))])),
        Ok(TypeDescriptor::Optional(Box::new(prim(PrimitiveKind::Text))))
    );
    assert_eq!(
        parse_type(&of_kind("array", vec![("element", text("bool")), ("length", Json::Integer(3))])),
        Ok(TypeDescriptor::FixedArray(Box::new(prim(PrimitiveKind::Bool)), 3))
    );
    assert_eq!(
        parse_type(&of_kind("defined", vec![("name", text("Point"))])),
        Ok(TypeDescriptor::DefinedRef("Point".to_string()))
    );
    assert_eq!(
        parse_type(&of_kind(
            "struct",
            vec![("fields", Json::Array(vec![named("x", text("u8")), named("y", text("i16"))]))]
        )),
        Ok(TypeDescriptor::Struct(vec![
            Field { name: "x".to_string(), ty: prim(PrimitiveKind::U8) },
            Field { name: "y".to_string(), ty: prim(PrimitiveKind::I16) },
        ]))
    );
    assert_eq!(
        parse_type(&of_kind(
            "enum",
            vec![
                ("width", Json::Integer(2)),
                (
                    "variants",
                    Json::Array(vec![
                        object(vec![("name", text("A"))]),
                        object(vec![("name", text("B")), ("payload", text("u8"))]),
                        object(vec![("name", text("C")), ("discriminant", Json::Integer(9))]),
                    ])
                ),
            ]
        )),
        Ok(TypeDescriptor::Enum(
            DiscriminantWidth::Two,
            vec![
                Variant { name: "A".to_string(), discriminant: 0, payload: None },
                Variant {
                    name: "B".to_string(),
                    discriminant: 1,
                    payload: Some(prim(PrimitiveKind::U8))
                },
                Variant { name: "C".to_string(), discriminant: 9, payload: None },
            ]
        ))
    );
    assert_eq!(
        parse_type(&of_kind("enum", vec![("variants", Json::Array(vec![]))])),
        Ok(TypeDescriptor::Enum(DiscriminantWidth::One, vec![]))
    );
}

#[test]
fn types_out_of_shape_are_malformed() {
    let bad = Err(SchemaError::MalformedIdl);
    assert_eq!(parse_type(&Json::Null), bad);
    assert_eq!(parse_type(&Json::Integer(8)), bad);
    assert_eq!(parse_type(&object(vec![("element", text("u8"))])), bad);
    assert_eq!(parse_type(&object(vec![("kind", Json::Integer(1))])), bad);
    assert_eq!(parse_type(&of_kind("vector", vec![])), bad);
    assert_eq!(parse_type(&of_kind("array", vec![("element", text("u8"))])), bad);
    assert_eq!(
        parse_type(&of_kind("array", vec![("element", text("u8")), ("length", Json::Integer(-1))])),
        bad
    );
    assert_eq!(
        parse_type(&of_kind(
            "array",
            vec![("element", text("u8")), ("length", Json::Decimal("1.5".to_string()))]
        )),
        bad
    );
    assert_eq!(parse_type(&of_kind("struct", vec![("fields", text("x"))])), bad);
    assert_eq!(
        parse_type(&of_kind("struct", vec![("fields", Json::Array(vec![text("x")]))])),
        bad
    );
    assert_eq!(
        parse_type(&of_kind(
            "struct",
            vec![("fields", Json::Array(vec![object(vec![("name", text("x"))])]))]
        )),
        bad
    );
    assert_eq!(
        parse_type(&of_kind("enum", vec![("width", Json::Integer(3)), ("variants", Json::Array(vec![]))])),
        bad
    );
    assert_eq!(parse_type(&of_kind("enum", vec![])), bad);
    assert_eq!(parse_type(&of_kind("defined", vec![])), bad);
    assert_eq!(
        parse_type(&of_kind("vector", vec![("element", text("u256"))])),
        Err(SchemaError::UnsupportedType)
    );
}

#[test]
fn a_definition_is_loaded() {
    let point = named(
        "Point",
        of_kind("struct", vec![("fields", Json::Array(vec![named("x", text("u8"))]))]),
    );
    let line = named("Line", of_kind("vector", vec![("element", of_kind("defined", vec![("name", text("Point"))]))]));
    let idl = load(&document(vec![transfer()], vec![line, point])).unwrap();
    assert_eq!(idl.program_id, Address { bytes: [7; 32] });
    assert_eq!(idl.instructions.len(), 1);
    let ins = idl.instruction(&"transfer".to_string()).unwrap();
    assert_eq!(ins.accounts.len(), 3);
    assert!(ins.accounts[0].is_signer && ins.accounts[0].is_writable && !ins.accounts[0].is_optional);
    assert!(!ins.accounts[1].is_signer && ins.accounts[1].is_writable);
    assert!(ins.accounts[2].is_optional && !ins.accounts[2].is_writable);
    assert_eq!(ins.args, vec![Field { name: "amount".to_string(), ty: prim(PrimitiveKind::U64) }]);
    assert_eq!(
        ins.returns,
        Some(TypeDescriptor::Optional(Box::new(prim(PrimitiveKind::U64))))
    );
    assert_eq!(
        idl.named_type(&"Point".to_string()),
        Ok(&TypeDescriptor::Struct(vec![Field { name: "x".to_string(), ty: prim(PrimitiveKind::U8) }]))
    );
    assert!(idl.types.depths[0] > idl.types.depths[1]);
    assert_eq!(idl.instruction(&"mint".to_string()), Err(SchemaError::NotFound));
    assert_eq!(idl.named_type(&"Circle".to_string()), Err(SchemaError::NotFound));
}

#[test]
fn types_may_be_left_out_of_a_definition() {
    let doc = object(vec![("program_id", text(KEY)), ("instructions", Json::Array(vec![]))]);
    let idl = load(&doc).unwrap();
    assert!(idl.instructions.is_empty());
    assert!(idl.types.entries.is_empty());
}

fn load_error(doc: Json) -> SchemaError {
    match load(&doc) {
        Ok(_) => panic!("the document was accepted"),
        Err(e) => e,
    }
}

#[test]
fn documents_out_of_shape_are_malformed() {
    let bad = SchemaError::MalformedIdl;
    assert_eq!(load_error(Json::Array(vec![])), bad);
    assert_eq!(load_error(object(vec![("instructions", Json::Array(vec![]))])), bad);
    assert_eq!(load_error(object(vec![("program_id", text(KEY))])), bad);
    assert_eq!(
        load_error(object(vec![
            ("program_id", text("not base58: 0OIl")),
            ("instructions", Json::Array(vec![]))
        ])),
        bad
    );
    assert_eq!(
        load_error(object(vec![
            ("program_id", text("7DUeBUtEcb7nujVZRJmeBju3X1mo6PpnWNtJ9EBhdY")),
            ("instructions", Json::Array(vec![]))
        ])),
        bad
    );
    assert_eq!(
        load_error(object(vec![
            ("program_id", text(KEY)),
            ("instructions", Json::Array(vec![])),
            ("types", Json::Null)
        ])),
        bad
    );
    assert_eq!(load_error(document(vec![text("transfer")], vec![])), bad);
    assert_eq!(
        load_error(document(
            vec![object(vec![("name", text("f")), ("accounts", Json::Array(vec![]))])],
            vec![]
        )),
        bad
    );
    assert_eq!(
        load_error(document(
            vec![object(vec![
                ("name", text("f")),
                ("accounts", Json::Array(vec![object(vec![
                    ("name", text("a")),
                    ("is_signer", text("yes"))
                ])])),
                ("args", Json::Array(vec![]))
            ])],
            vec![]
        )),
        bad
    );
}

#[test]
fn an_unknown_kind_is_unsupported() {
    assert_eq!(
        load_error(document(vec![], vec![named("T", text("u128"))])),
        SchemaError::UnsupportedType
    );
    assert_eq!(
        load_error(document(
            vec![object(vec![
                ("name", text("f")),
                ("accounts", Json::Array(vec![])),
                ("args", Json::Array(vec![named("x", of_kind("map", vec![]))]))
            ])],
            vec![]
        )),
        SchemaError::UnsupportedType
    );
}

#[test]
fn definitions_that_are_not_well_formed_are_malformed() {
    let bad = SchemaError::MalformedIdl;
    let refer = |n: &str| of_kind("defined", vec![("name", text(n))]);
    assert_eq!(load_error(document(vec![transfer(), transfer()], vec![])), bad);
    assert_eq!(
        load_error(document(vec![], vec![named("A", text("u8")), named("A", text("u8"))])),
        bad
    );
    assert_eq!(load_error(document(vec![], vec![named("A", refer("B"))])), bad);
    assert_eq!(
        load_error(document(vec![], vec![named("A", refer("B")), named("B", refer("A"))])),
        bad
    );
    let uses = |ty: Json| {
        object(vec![
            ("name", text("f")),
            ("accounts", Json::Array(vec![])),
            ("args", Json::Array(vec![named("x", ty)])),
        ])
    };
    assert_eq!(load_error(document(vec![uses(refer("Missing"))], vec![])), bad);
    assert!(load(&document(vec![uses(refer("A"))], vec![named("A", text("u8"))])).is_ok());
    let twice = object(vec![
        ("name", text("f")),
        ("accounts", Json::Array(vec![])),
        ("args", Json::Array(vec![named("x", text("u8")), named("x", text("u8"))])),
    ]);
    assert_eq!(load_error(document(vec![twice], vec![])), bad);
    let same_slot = object(vec![
        ("name", text("f")),
        (
            "accounts",
            Json::Array(vec![object(vec![("name", text("a"))]), object(vec![("name", text("a"))])]),
        ),
        ("args", Json::Array(vec![])),
    ]);
    assert_eq!(load_error(document(vec![same_slot], vec![])), bad);
}

#[test]
fn addresses_have_32_bytes() {
    let bytes: Vec<u8> = (0u8..32).collect();
    let address = address_from_bytes(&bytes).unwrap();
    assert_eq!(address.bytes.to_vec(), bytes);
    assert_eq!(address_from_bytes(&bytes[..31]), None);
    assert_eq!(address_from_bytes(&[0; 33]), None);
}

#[test]
fn parts_are_assembled_as_they_are() {
    let idl: IdlDefinition = assemble(
        Address { bytes: [1; 32] },
        vec![],
        vec![Field { name: "T".to_string(), ty: prim(PrimitiveKind::Bool) }],
    )
    .unwrap();
    assert_eq!(idl.program_id.bytes, [1; 32]);
    assert_eq!(idl.types.find(&"T".to_string()), Some(0));
}
