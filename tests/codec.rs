use structurs::{
    Annotation, ArgToken, ArrayLen, CodecError, Codec, ElemDecl, FieldDecl, PrimKind, Reader,
    RecordDecl, RecordSchema, SchemaError, Source, TypeDecl, Value, Writer,
};

fn ann(name: &str) -> Annotation {
    Annotation { name: name.to_string(), args: None }
}

fn pad_bytes(lit: &str) -> Annotation {
    Annotation {
        name: "pad".to_string(),
        args: Some(vec![
            ArgToken::Ident("bytes".to_string()),
            ArgToken::Punct('='),
            ArgToken::Literal(lit.to_string()),
        ]),
    }
}

fn field(name: &str, elem: ElemDecl, len: Option<ArrayLen>, annotations: Vec<Annotation>) -> FieldDecl {
    FieldDecl { name: name.to_string(), ty: TypeDecl { elem, len }, annotations }
}

fn prim(name: &str, k: PrimKind, annotations: Vec<Annotation>) -> FieldDecl {
    field(name, ElemDecl::Prim(k), None, annotations)
}

fn scalar(k: PrimKind, bits: u128) -> Value {
    Value::Scalar(k, bits)
}

fn fields_of(v: &Value) -> &Vec<Value> {
    match v {
        Value::Record(vs) => vs,
        _ => panic!("not a record"),
    }
}

const SCENARIO: [u8; 32] = [
    30, 113, 89, 178, 217, 118, 243, 7, 67, 25, 132, 7, 240, 193, 119, 176, 106, 194, 164, 76, 100, 15, 49, 94,
    129, 93, 34, 122, 135, 84, 19, 162,
];

fn scenario_decl() -> RecordDecl {
    RecordDecl::Named(vec![
        prim("f1", PrimKind::U32, vec![ann("be")]),
        prim("f2", PrimKind::I128, vec![ann("ne")]),
        prim("f3", PrimKind::U8, vec![ann("be")]),
        field("pad", ElemDecl::Pad, None, vec![pad_bytes("11")]),
    ])
}

fn native_i128_bits(b: &[u8]) -> u128 {
    let mut a = [0u8; 16];
    a.copy_from_slice(b);
    i128::from_ne_bytes(a) as u128
}

#[test]
fn concrete_scenario_decodes_fields() {
    let codec = Codec::from_decl(&scenario_decl()).unwrap();
    assert_eq!(codec.byte_len(), 32);
    let mut src = Source::new(SCENARIO.to_vec());
    let v = codec.decode(&mut src).unwrap();
    let fs = fields_of(&v);
    assert_eq!(fs.len(), 4);
    assert_eq!(fs[0], scalar(PrimKind::U32, 510745010));
    assert_eq!(fs[1], scalar(PrimKind::I128, native_i128_bits(&SCENARIO[4..20])));
    assert_eq!(fs[2], scalar(PrimKind::U8, 100));
    assert_eq!(fs[3], Value::Pad);
    assert_eq!(src.position(), 32);
    assert_eq!(src.remaining(), 0);
}

#[test]
fn concrete_scenario_native_value_on_little_endian_hosts() {
    if u16::from_ne_bytes([1, 0]) == 1 {
        let codec = Codec::from_decl(&scenario_decl()).unwrap();
        let v = codec.decode(&mut Source::new(SCENARIO.to_vec())).unwrap();
        let expected: i128 = 101876807604715792753432598791754839769;
        assert_eq!(fields_of(&v)[1], scalar(PrimKind::I128, expected as u128));
    }
}

#[test]
fn nested_array_scenario_reads_two_native_u16() {
    let decl = RecordDecl::Named(vec![field(
        "arr",
        ElemDecl::Prim(PrimKind::U16),
        Some(ArrayLen::Literal("2".to_string())),
        vec![],
    )]);
    let codec = Codec::from_decl(&decl).unwrap();
    assert_eq!(codec.byte_len(), 4);
    let bytes = vec![1u8, 2, 3, 4, 5];
    let mut src = Source::new(bytes);
    let v = codec.decode(&mut src).unwrap();
    assert_eq!(src.position(), 4);
    let expected = Value::Array(vec![
        scalar(PrimKind::U16, u16::from_ne_bytes([1, 2]) as u128),
        scalar(PrimKind::U16, u16::from_ne_bytes([3, 4]) as u128),
    ]);
    assert_eq!(fields_of(&v)[0], expected);
}

#[test]
fn short_read_fails_and_consumes_nothing() {
    let codec = Codec::from_decl(&scenario_decl()).unwrap();
    let mut src = Source::new(SCENARIO[..31].to_vec());
    assert_eq!(codec.decode(&mut src), Err(CodecError::ShortRead));
    assert_eq!(src.position(), 0);
    let mut empty = Source::new(vec![]);
    assert_eq!(codec.decode(&mut empty), Err(CodecError::ShortRead));
}

#[test]
fn padding_bytes_ignore_declared_type() {
    let decl = RecordDecl::Named(vec![
        field("skipped", ElemDecl::Prim(PrimKind::U32), Some(ArrayLen::Value(5)), vec![pad_bytes("11")]),
        prim("after", PrimKind::U8, vec![]),
    ]);
    let codec = Codec::from_decl(&decl).unwrap();
    assert_eq!(codec.byte_len(), 12);
    let mut bytes: Vec<u8> = (1..=11).collect();
    bytes.push(77);
    let v = codec.decode(&mut Source::new(bytes)).unwrap();
    let fs = fields_of(&v);
    assert_eq!(fs[0], Value::Array((0..5).map(|_| scalar(PrimKind::U32, 0)).collect()));
    assert_eq!(fs[1], scalar(PrimKind::U8, 77));
}

#[test]
fn type_sized_padding_skips_the_declared_size() {
    let decl = RecordDecl::Named(vec![
        field("skipped", ElemDecl::Prim(PrimKind::U32), Some(ArrayLen::Value(3)), vec![ann("pad")]),
        prim("after", PrimKind::U16, vec![ann("be")]),
    ]);
    let codec = Codec::from_decl(&decl).unwrap();
    assert_eq!(codec.byte_len(), 14);
    let mut bytes = vec![0xffu8; 12];
    bytes.extend_from_slice(&[1, 2]);
    let v = codec.decode(&mut Source::new(bytes)).unwrap();
    assert_eq!(fields_of(&v)[0], Value::Array((0..3).map(|_| scalar(PrimKind::U32, 0)).collect()));
    assert_eq!(fields_of(&v)[1], scalar(PrimKind::U16, 0x0102));
}

#[test]
fn fields_are_read_in_declaration_order() {
    let decl = RecordDecl::Named(vec![
        prim("a", PrimKind::U8, vec![]),
        prim("b", PrimKind::U16, vec![ann("be")]),
        prim("c", PrimKind::U8, vec![]),
    ]);
    let codec = Codec::from_decl(&decl).unwrap();
    let v = codec.decode(&mut Source::new(vec![1, 2, 3, 4])).unwrap();
    assert_eq!(
        *fields_of(&v),
        vec![scalar(PrimKind::U8, 1), scalar(PrimKind::U16, 0x0203), scalar(PrimKind::U8, 4)]
    );
}

#[test]
fn reordering_fields_keeps_the_length() {
    let first = RecordDecl::Named(vec![
        prim("a", PrimKind::U8, vec![]),
        prim("b", PrimKind::U16, vec![ann("be")]),
        prim("c", PrimKind::U8, vec![]),
    ]);
    let second = RecordDecl::Named(vec![
        prim("b", PrimKind::U16, vec![ann("be")]),
        prim("c", PrimKind::U8, vec![]),
        prim("a", PrimKind::U8, vec![]),
    ]);
    let c1 = Codec::from_decl(&first).unwrap();
    let c2 = Codec::from_decl(&second).unwrap();
    assert_eq!(c1.byte_len(), c2.byte_len());
    let bytes = vec![1, 2, 3, 4];
    let v2 = c2.decode(&mut Source::new(bytes)).unwrap();
    assert_eq!(
        *fields_of(&v2),
        vec![scalar(PrimKind::U16, 0x0102), scalar(PrimKind::U8, 3), scalar(PrimKind::U8, 4)]
    );
}

#[test]
fn compiling_twice_gives_the_same_codec() {
    let schema = RecordSchema::build(&scenario_decl()).unwrap();
    let c1 = Codec::compile(&schema).unwrap();
    let c2 = Codec::compile(&schema).unwrap();
    assert_eq!(c1.byte_len(), c2.byte_len());
    assert_eq!(format!("{:?}", c1.ops()), format!("{:?}", c2.ops()));
    let little = Codec::compile_for(&schema, structurs::ByteOrder::Little).unwrap();
    let big = Codec::compile_for(&schema, structurs::ByteOrder::Big).unwrap();
    assert_eq!(little.byte_len(), big.byte_len());
    assert_eq!(little.ops().len(), big.ops().len());
}

#[test]
fn round_trip_restores_values_and_defaults_padding() {
    let inner = RecordDecl::Named(vec![
        prim("x", PrimKind::U32, vec![ann("le")]),
        prim("y", PrimKind::I16, vec![ann("le")]),
    ]);
    let decl = RecordDecl::Named(vec![
        prim("a", PrimKind::U64, vec![ann("be")]),
        field("inner", ElemDecl::Record(inner), None, vec![]),
        field("gap", ElemDecl::Prim(PrimKind::U16), None, vec![ann("pad")]),
        field("arr", ElemDecl::Prim(PrimKind::I8), Some(ArrayLen::Value(3)), vec![]),
        field("tail", ElemDecl::Pad, None, vec![pad_bytes("2")]),
    ]);
    let codec = Codec::from_decl(&decl).unwrap();
    assert_eq!(codec.byte_len(), 8 + 6 + 2 + 3 + 2);
    let value = Value::Record(vec![
        scalar(PrimKind::U64, 0x0102030405060708),
        Value::Record(vec![scalar(PrimKind::U32, 1222188209), scalar(PrimKind::I16, (-30174i16) as u16 as u128)]),
        scalar(PrimKind::U16, 999),
        Value::Array(vec![
            scalar(PrimKind::I8, (-1i8) as u8 as u128),
            scalar(PrimKind::I8, 0),
            scalar(PrimKind::I8, 127),
        ]),
        Value::Pad,
    ]);
    let mut out: Vec<u8> = Vec::new();
    codec.encode(&value, &mut out).unwrap();
    assert_eq!(out.len(), 21);
    assert_eq!(&out[..8], &[1, 2, 3, 4, 5, 6, 7, 8]);
    assert_eq!(&out[14..16], &[0, 0]);
    let back = codec.decode(&mut Source::new(out)).unwrap();
    let fs = fields_of(&back);
    assert_eq!(fs[0], scalar(PrimKind::U64, 0x0102030405060708));
    assert_eq!(fs[1], Value::Record(vec![scalar(PrimKind::U32, 1222188209), scalar(PrimKind::I16, 35362)]));
    assert_eq!(fs[2], scalar(PrimKind::U16, 0));
    assert_eq!(fs[3], Value::Array(vec![scalar(PrimKind::I8, 255), scalar(PrimKind::I8, 0), scalar(PrimKind::I8, 127)]));
    assert_eq!(fs[4], Value::Pad);
}

#[test]
fn encode_refuses_a_value_of_another_shape() {
    let codec = Codec::from_decl(&scenario_decl()).unwrap();
    let mut out = vec![9u8];
    let wrong_kind = Value::Record(vec![
        scalar(PrimKind::U16, 1),
        scalar(PrimKind::I128, 0),
        scalar(PrimKind::U8, 0),
        Value::Pad,
    ]);
    assert_eq!(codec.encode(&wrong_kind, &mut out), Err(CodecError::ValueMismatch));
    let too_wide = Value::Record(vec![
        scalar(PrimKind::U32, 1),
        scalar(PrimKind::I128, 0),
        scalar(PrimKind::U8, 256),
        Value::Pad,
    ]);
    assert_eq!(codec.encode(&too_wide, &mut out), Err(CodecError::ValueMismatch));
    assert_eq!(codec.encode(&Value::Pad, &mut out), Err(CodecError::ValueMismatch));
    assert_eq!(out, vec![9u8]);
}

#[test]
fn empty_record_uses_no_bytes() {
    let codec = Codec::from_decl(&RecordDecl::Named(vec![])).unwrap();
    assert_eq!(codec.byte_len(), 0);
    let mut src = Source::new(vec![]);
    assert_eq!(codec.decode(&mut src), Ok(Value::Record(vec![])));
    let mut out = Vec::new();
    assert_eq!(codec.encode(&Value::Record(vec![]), &mut out), Ok(()));
    assert!(out.is_empty());
}

#[test]
fn zero_length_array_uses_no_bytes() {
    let decl = RecordDecl::Named(vec![
        field("none", ElemDecl::Prim(PrimKind::U64), Some(ArrayLen::Value(0)), vec![]),
        prim("b", PrimKind::U8, vec![]),
    ]);
    let codec = Codec::from_decl(&decl).unwrap();
    assert_eq!(codec.byte_len(), 1);
    let v = codec.decode(&mut Source::new(vec![5])).unwrap();
    assert_eq!(*fields_of(&v), vec![Value::Array(vec![]), scalar(PrimKind::U8, 5)]);
}

#[test]
fn layout_too_large_is_refused() {
    let decl = RecordDecl::Named(vec![field(
        "huge",
        ElemDecl::Prim(PrimKind::U128),
        Some(ArrayLen::Value(usize::MAX)),
        vec![],
    )]);
    assert_eq!(Codec::from_decl(&decl).unwrap_err(), SchemaError::LayoutTooLarge);
    let sum = RecordDecl::Named(vec![
        field("a", ElemDecl::Prim(PrimKind::U8), Some(ArrayLen::Value(usize::MAX)), vec![]),
        prim("b", PrimKind::U8, vec![]),
    ]);
    assert_eq!(Codec::from_decl(&sum).unwrap_err(), SchemaError::LayoutTooLarge);
}

#[test]
fn reader_and_writer_dispatch_to_the_codec() {
    let codec = Codec::from_decl(&scenario_decl()).unwrap();
    let mut src = Source::new(SCENARIO.to_vec());
    let v = src.read_record(&codec).unwrap();
    let mut out: Vec<u8> = Vec::new();
    out.write_record(&codec, &v).unwrap();
    assert_eq!(&out[..21], &SCENARIO[..21]);
    assert_eq!(&out[21..], &[0u8; 11]);
}

const DATA_BYTES: [u8; 104] = [
    30, 113, 89, 178, 217, 118, 243, 7, 67, 25, 132, 7, 240, 193, 119, 176, 106, 194, 164, 76, 100, 15, 49, 94, 129,
    93, 34, 122, 135, 84, 19, 162, 177, 28, 217, 72, 34, 138, 120, 126, 147, 167, 89, 14, 96, 133, 107, 66, 141, 244,
    174, 13, 60, 26, 52, 53, 123, 162, 196, 107, 33, 77, 222, 199, 147, 209, 31, 124, 70, 155, 1, 93, 120, 87, 128,
    217, 184, 128, 127, 232, 247, 25, 89, 43, 192, 212, 193, 177, 36, 197, 157, 140, 242, 208, 135, 155, 117, 114,
    195, 215, 109, 70, 234, 112,
];

#[test]
fn nested_record_with_padding_decodes() {
    let inner = RecordDecl::Named(vec![
        prim("field_1", PrimKind::U32, vec![ann("le")]),
        prim("field_2", PrimKind::I16, vec![ann("le")]),
    ]);
    let decl = RecordDecl::Named(vec![
        prim("field_1", PrimKind::U32, vec![ann("be")]),
        prim("field_2", PrimKind::I128, vec![ann("ne")]),
        prim("field_3", PrimKind::U8, vec![ann("be")]),
        field("pad_to_32", ElemDecl::Pad, None, vec![pad_bytes("11")]),
        field("test_data_2", ElemDecl::Record(inner), None, vec![]),
        field("another_pad", ElemDecl::Prim(PrimKind::U32), Some(ArrayLen::Literal("12".to_string())), vec![ann("pad")]),
    ]);
    let codec = Codec::from_decl(&decl).unwrap();
    assert_eq!(codec.byte_len(), 32 + 6 + 48);
    let mut src = Source::new(DATA_BYTES.to_vec());
    let v = codec.decode(&mut src).unwrap();
    assert_eq!(src.position(), 86);
    let fs = fields_of(&v);
    assert_eq!(fs[0], scalar(PrimKind::U32, 510745010));
    assert_eq!(fs[2], scalar(PrimKind::U8, 100));
    assert_eq!(fs[3], Value::Pad);
    assert_eq!(
        fs[4],
        Value::Record(vec![scalar(PrimKind::U32, 1222188209), scalar(PrimKind::I16, (-30174i16) as u16 as u128)])
    );
    assert_eq!(fs[5], Value::Array((0..12).map(|_| scalar(PrimKind::U32, 0)).collect()));
}

#[test]
fn unpadded_byte_array_keeps_the_bytes() {
    let decl = RecordDecl::Named(vec![
        prim("field_1", PrimKind::U32, vec![ann("be")]),
        prim("field_2", PrimKind::I128, vec![ann("ne")]),
        prim("field_3", PrimKind::U8, vec![ann("be")]),
        field("pad_to_32", ElemDecl::Prim(PrimKind::U8), Some(ArrayLen::Value(11)), vec![]),
    ]);
    let codec = Codec::from_decl(&decl).unwrap();
    let v = codec.decode(&mut Source::new(SCENARIO.to_vec())).unwrap();
    let expected: Vec<Value> = [15u8, 49, 94, 129, 93, 34, 122, 135, 84, 19, 162]
        .iter()
        .map(|b| scalar(PrimKind::U8, *b as u128))
        .collect();
    assert_eq!(fields_of(&v)[3], Value::Array(expected));
}
