//! The numeral parser, the annotation scanner, the case parser and the
//! shared-attribute argument parser.
use enum_gen::ast::{CaseAttr, CaseDiscriminant, FieldDef};
use enum_gen::attr::{expect_punct_token, parse_case, parse_gen_args, scan_id};
use enum_gen::error::{ErrorClass, GenError};
use enum_gen::gen::{VariantInput, enum_gen, enum_gen_match_id};
use enum_gen::num::{IntParseError, parse_int};
use enum_gen::registry::GlobalState;
use enum_gen::token::{Delim, Token};

fn ident(s: &str) -> Token {
    Token::Ident(s.to_string())
}

fn lit(s: &str) -> Token {
    Token::Literal(s.to_string())
}

fn id_tokens(value: Token) -> Vec<Token> {
    vec![ident("ID"), Token::Punct('='), value]
}

fn attr_block(tokens: Vec<Token>) -> CaseAttr {
    CaseAttr { name: "attr".to_string(), args: Some(tokens) }
}

#[test]
fn parse_int_reads_decimal() {
    assert_eq!(parse_int("0"), Ok(0));
    assert_eq!(parse_int("42"), Ok(42));
    assert_eq!(parse_int("007"), Ok(7));
}

#[test]
fn parse_int_reads_hexadecimal_after_prefix() {
    assert_eq!(parse_int("0x2b"), Ok(43));
    assert_eq!(parse_int("0x42"), Ok(66));
    assert_eq!(parse_int("0xFf"), Ok(255));
    assert_eq!(parse_int("0x0"), Ok(0));
}

#[test]
fn parse_int_rejects_empty_input() {
    assert_eq!(parse_int(""), Err(IntParseError::Empty));
    assert_eq!(parse_int("0x"), Err(IntParseError::Empty));
}

#[test]
fn parse_int_rejects_foreign_characters() {
    assert_eq!(parse_int("12a"), Err(IntParseError::InvalidDigit));
    assert_eq!(parse_int("-4"), Err(IntParseError::InvalidDigit));
    assert_eq!(parse_int("0X2b"), Err(IntParseError::InvalidDigit));
    assert_eq!(parse_int("0x2g"), Err(IntParseError::InvalidDigit));
    assert_eq!(parse_int("４２"), Err(IntParseError::InvalidDigit));
}

#[test]
fn parse_int_reports_overflow() {
    assert_eq!(parse_int("0xffffffffffffffff"), Ok(usize::MAX));
    assert_eq!(parse_int("0x10000000000000000"), Err(IntParseError::Overflow));
    assert_eq!(parse_int("99999999999999999999999999"), Err(IntParseError::Overflow));
}

#[test]
fn expect_punct_token_demands_an_equals_sign() {
    assert!(expect_punct_token(Some(&Token::Punct('='))).is_ok());
    assert_eq!(
        expect_punct_token(Some(&Token::Punct('+'))),
        Err(GenError::MalformedAttrSyntax)
    );
    assert_eq!(expect_punct_token(Some(&ident("x"))), Err(GenError::MalformedAttrSyntax));
    assert_eq!(expect_punct_token(None), Err(GenError::MalformedAttrSyntax));
}

#[test]
fn scan_id_reads_numeral_and_wildcard_values() {
    assert_eq!(
        scan_id(&id_tokens(lit("0x2b"))),
        Ok(Some(CaseDiscriminant::Value(43)))
    );
    assert_eq!(scan_id(&id_tokens(lit("7"))), Ok(Some(CaseDiscriminant::Value(7))));
    assert_eq!(scan_id(&id_tokens(ident("_"))), Ok(Some(CaseDiscriminant::Wildcard)));
}

#[test]
fn scan_id_passes_over_leading_punctuation_and_takes_the_last_assignment() {
    let mut tokens = vec![Token::Punct(',')];
    tokens.extend(id_tokens(lit("1")));
    tokens.push(Token::Punct(','));
    tokens.extend(id_tokens(lit("2")));
    assert_eq!(scan_id(&tokens), Ok(Some(CaseDiscriminant::Value(2))));
}

#[test]
fn scan_id_rejects_malformed_assignments() {
    assert_eq!(
        scan_id(&vec![ident("ID"), Token::Punct(':'), lit("1")]),
        Err(GenError::MalformedAttrSyntax)
    );
    assert_eq!(scan_id(&vec![ident("ID")]), Err(GenError::MalformedAttrSyntax));
    assert_eq!(
        scan_id(&vec![ident("ID"), Token::Punct('=')]),
        Err(GenError::MalformedAttrSyntax)
    );
    assert_eq!(
        scan_id(&id_tokens(ident("nope"))),
        Err(GenError::InvalidId)
    );
    assert_eq!(
        scan_id(&id_tokens(Token::Group(Delim::Paren, "1".to_string()))),
        Err(GenError::InvalidId)
    );
    assert_eq!(
        scan_id(&vec![ident("parse_with"), Token::Punct('='), ident("f")]),
        Err(GenError::UnknownAttributeKey)
    );
}

#[test]
fn parse_case_builds_a_case_and_keeps_field_order() {
    let fields = vec![
        FieldDef { name: "a".to_string(), ty: "u8".to_string() },
        FieldDef { name: "e".to_string(), ty: "u8".to_string() },
    ];
    let attrs = vec![attr_block(id_tokens(lit("0x42")))];
    let c = parse_case("Goodbye".to_string(), fields, &attrs).unwrap();
    assert_eq!(c.name, "Goodbye");
    assert_eq!(c.disc, CaseDiscriminant::Value(66));
    assert_eq!(c.fields[0].name, "a");
    assert_eq!(c.fields[1].name, "e");
}

#[test]
fn parse_case_demands_exactly_one_annotation_block() {
    let none: Vec<CaseAttr> = Vec::new();
    assert_eq!(
        parse_case("A".to_string(), Vec::new(), &none),
        Err(GenError::MissingAttrBlock)
    );
    let two = vec![attr_block(id_tokens(lit("1"))), attr_block(id_tokens(lit("2")))];
    assert_eq!(
        parse_case("A".to_string(), Vec::new(), &two),
        Err(GenError::DuplicateAttrBlock)
    );
    // A bare `attr` without a list is no annotation block.
    let bare = vec![CaseAttr { name: "attr".to_string(), args: None }];
    assert_eq!(
        parse_case("A".to_string(), Vec::new(), &bare),
        Err(GenError::MissingAttrBlock)
    );
}

#[test]
fn parse_case_rejects_additional_annotations() {
    let attrs = vec![
        attr_block(id_tokens(lit("1"))),
        CaseAttr { name: "serde".to_string(), args: Some(vec![ident("skip")]) },
    ];
    let err = parse_case("A".to_string(), Vec::new(), &attrs).unwrap_err();
    assert_eq!(err, GenError::UnsupportedAttribute);
    assert_eq!(err.class(), ErrorClass::Unsupported);
}

#[test]
fn parse_case_demands_an_id_assignment() {
    let attrs = vec![attr_block(vec![Token::Punct(',')])];
    assert_eq!(
        parse_case("A".to_string(), Vec::new(), &attrs),
        Err(GenError::MissingId)
    );
}

#[test]
fn parse_gen_args_reads_attributes_with_and_without_groups() {
    let tokens = vec![
        ident("derive"),
        Token::Group(Delim::Paren, "Debug, Default".to_string()),
        Token::Punct(','),
        ident("repr"),
        Token::Group(Delim::Paren, "C, packed".to_string()),
    ];
    let attrs = parse_gen_args(&tokens).unwrap();
    assert_eq!(attrs.len(), 2);
    assert_eq!(attrs[0].name, "derive");
    assert_eq!(attrs[0].args.as_ref().unwrap().content, "Debug, Default");
    assert_eq!(attrs[1].name, "repr");
    assert_eq!(attrs[1].args.as_ref().unwrap().content, "C, packed");
    let bare = parse_gen_args(&vec![ident("no_mangle")]).unwrap();
    assert_eq!(bare.len(), 1);
    assert_eq!(bare[0].name, "no_mangle");
    assert!(bare[0].args.is_none());
}

#[test]
fn parse_gen_args_swallows_one_separator_after_a_bare_attribute() {
    // The token after a bare identifier is taken for the separating comma,
    // whatever it is.
    let tokens = vec![ident("no_mangle"), ident("packed")];
    let attrs = parse_gen_args(&tokens).unwrap();
    assert_eq!(attrs.len(), 1);
    assert_eq!(attrs[0].name, "no_mangle");
}

#[test]
fn parse_gen_args_demands_identifiers() {
    assert_eq!(
        parse_gen_args(&vec![Token::Punct(',')]),
        Err(GenError::MalformedArgs)
    );
    assert_eq!(
        parse_gen_args(&vec![Token::Group(Delim::Paren, "Debug".to_string())]),
        Err(GenError::MalformedArgs)
    );
}

#[test]
fn enum_gen_parses_registers_and_emits() {
    let mut state = GlobalState::new();
    let args = vec![
        ident("derive"),
        Token::Group(Delim::Paren, "Debug, Default".to_string()),
        Token::Punct(','),
        ident("repr"),
        Token::Group(Delim::Paren, "C, packed".to_string()),
    ];
    let variants = vec![
        VariantInput {
            name: "Hello".to_string(),
            fields: vec![FieldDef { name: "a".to_string(), ty: "u8".to_string() }],
            attrs: vec![attr_block(id_tokens(lit("0x2b")))],
        },
        VariantInput {
            name: "Goodbye".to_string(),
            fields: Vec::new(),
            attrs: vec![attr_block(id_tokens(lit("0x42")))],
        },
        VariantInput {
            name: "Invalid".to_string(),
            fields: Vec::new(),
            attrs: vec![attr_block(id_tokens(ident("_")))],
        },
    ];
    let out = enum_gen(
        &mut state,
        "Payload".to_string(),
        "pub".to_string(),
        Vec::new(),
        &args,
        &variants,
    )
    .unwrap();
    assert_eq!(out.union_decl.alternatives.len(), 3);
    assert_eq!(out.records.len(), 3);
    assert_eq!(out.records[0].id_const, Some(0x2b));
    assert_eq!(out.records[1].id_const, Some(0x42));
    assert_eq!(out.records[2].id_const, None);
    assert_eq!(out.records[0].attrs[0].name, "derive");
    assert!(out.flushed.is_empty());
}

#[test]
fn enum_gen_propagates_parse_failures_and_registers_nothing() {
    let mut state = GlobalState::new();
    let bad_args = vec![Token::Punct(',')];
    let variants = vec![VariantInput {
        name: "A".to_string(),
        fields: Vec::new(),
        attrs: vec![attr_block(id_tokens(lit("1")))],
    }];
    assert_eq!(
        enum_gen(
            &mut state,
            "P".to_string(),
            "pub".to_string(),
            Vec::new(),
            &bad_args,
            &variants,
        ),
        Err(GenError::MalformedArgs)
    );
    let bad_variant = vec![VariantInput {
        name: "A".to_string(),
        fields: Vec::new(),
        attrs: Vec::new(),
    }];
    assert_eq!(
        enum_gen(
            &mut state,
            "P".to_string(),
            "pub".to_string(),
            Vec::new(),
            &Vec::new(),
            &bad_variant,
        ),
        Err(GenError::MissingAttrBlock)
    );
}

#[test]
fn enum_gen_flushes_requests_queued_before_it() {
    let mut state = GlobalState::new();
    let template = vec![
        ident("fn"),
        ident("default"),
        Token::Group(Delim::Paren, "id: usize".to_string()),
        Token::Group(Delim::Brace, "EnumVariantType(EnumStructType::default())".to_string()),
    ];
    assert!(enum_gen_match_id(&mut state, "Payload".to_string(), template).unwrap().is_none());
    let variants = vec![
        VariantInput {
            name: "Hello".to_string(),
            fields: Vec::new(),
            attrs: vec![attr_block(id_tokens(lit("1")))],
        },
        VariantInput {
            name: "Invalid".to_string(),
            fields: Vec::new(),
            attrs: vec![attr_block(id_tokens(ident("_")))],
        },
    ];
    let out = enum_gen(
        &mut state,
        "Payload".to_string(),
        "pub".to_string(),
        Vec::new(),
        &Vec::new(),
        &variants,
    )
    .unwrap();
    assert_eq!(out.flushed.len(), 1);
    assert_eq!(out.flushed[0].union_name, "Payload");
    assert_eq!(out.flushed[0].arms.len(), 2);
    assert_eq!(out.flushed[0].arms[0].case_name, "Hello");
    assert_eq!(out.flushed[0].arms[1].case_name, "Invalid");
}

#[test]
fn error_classes_follow_the_taxonomy() {
    assert_eq!(GenError::MissingAttrBlock.class(), ErrorClass::Schema);
    assert_eq!(GenError::DuplicateAttrBlock.class(), ErrorClass::Schema);
    assert_eq!(GenError::MissingId.class(), ErrorClass::Schema);
    assert_eq!(GenError::InvalidId.class(), ErrorClass::Schema);
    assert_eq!(GenError::DuplicateUnion.class(), ErrorClass::Schema);
    assert_eq!(GenError::MalformedAttrSyntax.class(), ErrorClass::Syntax);
    assert_eq!(GenError::UnknownAttributeKey.class(), ErrorClass::Syntax);
    assert_eq!(GenError::MissingBody.class(), ErrorClass::Syntax);
    assert_eq!(GenError::MissingArgument.class(), ErrorClass::Syntax);
    assert_eq!(GenError::MalformedArgs.class(), ErrorClass::Syntax);
    assert_eq!(GenError::UnsupportedAttribute.class(), ErrorClass::Unsupported);
}
