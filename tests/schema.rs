use structurs::{
    Annotation, ArgToken, ArrayArity, ArrayLen, ByteOrderMode, ElemDecl, ElemType, FieldDecl,
    FieldDirective, PaddingMode, PrimKind, RecordDecl, RecordSchema, SchemaError, TypeDecl,
};

fn ann(name: &str) -> Annotation {
    Annotation { name: name.to_string(), args: None }
}

fn pad_with(args: Vec<ArgToken>) -> Annotation {
    Annotation { name: "pad".to_string(), args: Some(args) }
}

fn bytes_eq(lit: &str) -> Vec<ArgToken> {
    vec![ArgToken::Ident("bytes".to_string()), ArgToken::Punct('='), ArgToken::Literal(lit.to_string())]
}

fn prim(name: &str, k: PrimKind, annotations: Vec<Annotation>) -> FieldDecl {
    FieldDecl { name: name.to_string(), ty: TypeDecl { elem: ElemDecl::Prim(k), len: None }, annotations }
}

#[test]
fn no_annotation_gives_default_order_and_no_padding() {
    let d = FieldDirective::resolve(&vec![]).unwrap();
    assert_eq!(d, FieldDirective { byte_order: ByteOrderMode::Default, padding: None });
}

#[test]
fn each_byte_order_annotation_is_recognised() {
    assert_eq!(FieldDirective::resolve(&vec![ann("le")]).unwrap().byte_order, ByteOrderMode::Little);
    assert_eq!(FieldDirective::resolve(&vec![ann("be")]).unwrap().byte_order, ByteOrderMode::Big);
    assert_eq!(FieldDirective::resolve(&vec![ann("ne")]).unwrap().byte_order, ByteOrderMode::Native);
}

#[test]
fn two_different_byte_orders_conflict() {
    assert_eq!(FieldDirective::resolve(&vec![ann("le"), ann("be")]), Err(SchemaError::ConflictingByteOrder));
    assert_eq!(
        FieldDirective::resolve(&vec![ann("ne"), ann("pad"), ann("le")]),
        Err(SchemaError::ConflictingByteOrder)
    );
    assert_eq!(FieldDirective::resolve(&vec![ann("be"), ann("be")]).unwrap().byte_order, ByteOrderMode::Big);
}

#[test]
fn other_annotations_are_ignored() {
    let d = FieldDirective::resolve(&vec![ann("doc"), ann("be"), ann("allow")]).unwrap();
    assert_eq!(d, FieldDirective { byte_order: ByteOrderMode::Big, padding: None });
}

#[test]
fn pad_without_parameters_skips_the_type_size() {
    let d = FieldDirective::resolve(&vec![ann("pad")]).unwrap();
    assert_eq!(d.padding, Some(PaddingMode::SkipTypeSized));
    let d = FieldDirective::resolve(&vec![pad_with(vec![])]).unwrap();
    assert_eq!(d.padding, Some(PaddingMode::SkipTypeSized));
}

#[test]
fn pad_with_bytes_parses_the_literal() {
    let d = FieldDirective::resolve(&vec![pad_with(bytes_eq("11"))]).unwrap();
    assert_eq!(d.padding, Some(PaddingMode::SkipBytes(11)));
    let d = FieldDirective::resolve(&vec![pad_with(bytes_eq("0x0B"))]).unwrap();
    assert_eq!(d.padding, Some(PaddingMode::SkipBytes(11)));
    let d = FieldDirective::resolve(&vec![pad_with(bytes_eq("1_000usize"))]).unwrap();
    assert_eq!(d.padding, Some(PaddingMode::SkipBytes(1000)));
    let d = FieldDirective::resolve(&vec![pad_with(bytes_eq("0"))]).unwrap();
    assert_eq!(d.padding, Some(PaddingMode::SkipBytes(0)));
}

#[test]
fn malformed_padding_is_refused() {
    let cases = vec![
        bytes_eq("\"11\""),
        bytes_eq("1.5"),
        bytes_eq("abc"),
        vec![ArgToken::Ident("size".to_string()), ArgToken::Punct('='), ArgToken::Literal("4".to_string())],
        vec![ArgToken::Ident("bytes".to_string()), ArgToken::Punct('='), ArgToken::Punct('-'), ArgToken::Literal("4".to_string())],
        vec![ArgToken::Ident("bytes".to_string()), ArgToken::Punct(':'), ArgToken::Literal("4".to_string())],
        vec![ArgToken::Ident("bytes".to_string())],
        vec![ArgToken::Group],
    ];
    for args in cases {
        assert_eq!(FieldDirective::resolve(&vec![pad_with(args)]), Err(SchemaError::MalformedPadding));
    }
}

#[test]
fn resolving_twice_gives_the_same_directive() {
    let anns = vec![ann("le"), pad_with(bytes_eq("3"))];
    assert_eq!(FieldDirective::resolve(&anns), FieldDirective::resolve(&anns));
}

#[test]
fn padding_from_uses_the_given_literal_value() {
    let args = Some(bytes_eq("anything"));
    assert_eq!(structurs::directive::padding_from(&args, Some(7)), Ok(PaddingMode::SkipBytes(7)));
    assert_eq!(structurs::directive::padding_from(&args, None), Err(SchemaError::MalformedPadding));
    assert_eq!(structurs::directive::padding_from(&None, None), Ok(PaddingMode::SkipTypeSized));
}

#[test]
fn array_length_literal_is_parsed() {
    let ty = TypeDecl { elem: ElemDecl::Prim(PrimKind::U8), len: Some(ArrayLen::Literal("12".to_string())) };
    assert_eq!(ty.arity(), Ok(ArrayArity::Fixed(12)));
    let ty = TypeDecl { elem: ElemDecl::Prim(PrimKind::U8), len: Some(ArrayLen::Literal("N".to_string())) };
    assert_eq!(ty.arity(), Err(SchemaError::MalformedArrayLength));
    let ty = TypeDecl { elem: ElemDecl::Prim(PrimKind::U8), len: Some(ArrayLen::Literal("-1".to_string())) };
    assert_eq!(ty.arity(), Err(SchemaError::MalformedArrayLength));
    let ty = TypeDecl { elem: ElemDecl::Prim(PrimKind::U8), len: None };
    assert_eq!(ty.arity(), Ok(ArrayArity::Single));
}

#[test]
fn only_structs_with_named_fields_are_accepted() {
    assert_eq!(RecordSchema::build(&RecordDecl::Positional).unwrap_err(), SchemaError::UnsupportedShape);
    assert_eq!(RecordSchema::build(&RecordDecl::Unit).unwrap_err(), SchemaError::UnsupportedShape);
    assert_eq!(RecordSchema::build(&RecordDecl::NotAStruct).unwrap_err(), SchemaError::UnsupportedShape);
    let nested = RecordDecl::Named(vec![FieldDecl {
        name: "inner".to_string(),
        ty: TypeDecl { elem: ElemDecl::Record(RecordDecl::Positional), len: None },
        annotations: vec![],
    }]);
    assert_eq!(RecordSchema::build(&nested).unwrap_err(), SchemaError::UnsupportedShape);
}

#[test]
fn byte_order_on_a_read_record_is_refused() {
    let inner = RecordDecl::Named(vec![prim("x", PrimKind::U8, vec![])]);
    let decl = RecordDecl::Named(vec![FieldDecl {
        name: "inner".to_string(),
        ty: TypeDecl { elem: ElemDecl::Record(inner), len: None },
        annotations: vec![ann("be")],
    }]);
    assert_eq!(RecordSchema::build(&decl).unwrap_err(), SchemaError::ByteOrderOnRecord);
}

#[test]
fn first_error_in_declaration_order_wins() {
    let decl = RecordDecl::Named(vec![
        prim("a", PrimKind::U8, vec![]),
        prim("b", PrimKind::U8, vec![pad_with(bytes_eq("x"))]),
        prim("c", PrimKind::U8, vec![ann("le"), ann("be")]),
    ]);
    assert_eq!(RecordSchema::build(&decl).unwrap_err(), SchemaError::MalformedPadding);
}

#[test]
fn schema_keeps_declaration_order_and_directives() {
    let decl = RecordDecl::Named(vec![
        prim("first", PrimKind::U32, vec![ann("be")]),
        FieldDecl {
            name: "second".to_string(),
            ty: TypeDecl { elem: ElemDecl::Pad, len: None },
            annotations: vec![pad_with(bytes_eq("11"))],
        },
    ]);
    let schema = RecordSchema::build(&decl).unwrap();
    let fields = schema.fields();
    assert_eq!(fields.len(), 2);
    assert_eq!(fields[0].name, "first");
    assert!(matches!(fields[0].elem, ElemType::Prim(PrimKind::U32)));
    assert_eq!(fields[0].directive.byte_order, ByteOrderMode::Big);
    assert_eq!(fields[1].name, "second");
    assert!(matches!(fields[1].elem, ElemType::Pad));
    assert_eq!(fields[1].arity, ArrayArity::Single);
    assert_eq!(fields[1].directive.padding, Some(PaddingMode::SkipBytes(11)));
}

#[test]
fn c_string_literals_are_refused_without_panicking() {
    let d = FieldDirective::resolve(&vec![pad_with(bytes_eq("c\"x\""))]);
    assert_eq!(d, Err(SchemaError::MalformedPadding));
    let ty = TypeDecl { elem: ElemDecl::Prim(PrimKind::U8), len: Some(ArrayLen::Literal("c\"x\"".to_string())) };
    assert_eq!(ty.arity(), Err(SchemaError::MalformedArrayLength));
    let ty = TypeDecl { elem: ElemDecl::Prim(PrimKind::U8), len: Some(ArrayLen::Literal("b'x'".to_string())) };
    assert_eq!(ty.arity(), Err(SchemaError::MalformedArrayLength));
}

#[test]
fn number_shape_is_checked_before_parsing() {
    assert!(structurs::directive::number_shaped(&"11".to_string()));
    assert!(structurs::directive::number_shaped(&"0x0B".to_string()));
    assert!(structurs::directive::number_shaped(&"1_000usize".to_string()));
    assert!(!structurs::directive::number_shaped(&"".to_string()));
    assert!(!structurs::directive::number_shaped(&"x1".to_string()));
    assert!(!structurs::directive::number_shaped(&"1.5".to_string()));
    assert!(!structurs::directive::number_shaped(&"-4".to_string()));
    assert!(!structurs::directive::number_shaped(&"c\"x\"".to_string()));
    assert!(!structurs::directive::number_shaped(&"1é".to_string()));
}

#[test]
fn number_shaped_texts_that_are_no_integers_are_refused() {
    let d = FieldDirective::resolve(&vec![pad_with(bytes_eq("1e5"))]);
    assert_eq!(d, Err(SchemaError::MalformedPadding));
    let d = FieldDirective::resolve(&vec![pad_with(bytes_eq("0x"))]);
    assert_eq!(d, Err(SchemaError::MalformedPadding));
    let d = FieldDirective::resolve(&vec![pad_with(bytes_eq("99999999999999999999999999"))]);
    assert_eq!(d, Err(SchemaError::MalformedPadding));
}
