//! Registry, dispatch and record-generation behaviour, end to end.
use enum_gen::DispatchMode;
use enum_gen::ast::{AttrArgs, CaseDefinition, CaseDiscriminant, FieldDef, SharedAttr, UnionDefinition};
use enum_gen::error::{ErrorClass, GenError};
use enum_gen::gen::{enum_gen_match_id, enum_gen_match_self};
use enum_gen::matcher::ArmPattern;
use enum_gen::registry::GlobalState;
use enum_gen::token::{Delim, Token};

fn ident(s: &str) -> Token {
    Token::Ident(s.to_string())
}

fn case(name: &str, disc: CaseDiscriminant) -> CaseDefinition {
    CaseDefinition { name: name.to_string(), fields: Vec::new(), disc }
}

fn union_def(name: &str, cases: Vec<CaseDefinition>) -> UnionDefinition {
    UnionDefinition {
        name: name.to_string(),
        vis: "pub".to_string(),
        own_attrs: Vec::new(),
        shared_attrs: Vec::new(),
        cases,
    }
}

/// `U = {A: ID=1, B: ID=2, C: ID=_}`.
fn union_u() -> UnionDefinition {
    union_def(
        "U",
        vec![
            case("A", CaseDiscriminant::Value(1)),
            case("B", CaseDiscriminant::Value(2)),
            case("C", CaseDiscriminant::Wildcard),
        ],
    )
}

fn template(body: &str) -> Vec<Token> {
    vec![
        ident("pub"),
        ident("fn"),
        ident("default"),
        Token::Group(Delim::Paren, "id: usize".to_string()),
        Token::Group(Delim::Brace, body.to_string()),
    ]
}

const BODY: &str = "EnumVariantType(EnumStructType::default())";

#[test]
fn records_one_per_case_and_constants_all_but_wildcard() {
    let mut state = GlobalState::new();
    let out = state.register_union(union_u()).unwrap();
    assert_eq!(out.records.len(), 3);
    let with_const = out.records.iter().filter(|r| r.id_const.is_some()).count();
    assert_eq!(with_const, 3 - 1);
    assert_eq!(out.records[0].id_const, Some(1));
    assert_eq!(out.records[1].id_const, Some(2));
    assert_eq!(out.records[2].id_const, None);
    assert_eq!(out.records[0].name, "A");
    assert_eq!(out.records[1].name, "B");
    assert_eq!(out.records[2].name, "C");
}

#[test]
fn regenerated_union_wraps_one_alternative_per_case() {
    let mut state = GlobalState::new();
    let out = state.register_union(union_u()).unwrap();
    assert_eq!(out.union_decl.name, "U");
    assert_eq!(out.union_decl.vis, "pub");
    assert_eq!(out.union_decl.alternatives, vec!["A".to_string(), "B".to_string(), "C".to_string()]);
}

#[test]
fn records_carry_shared_attrs_vis_and_fields_verbatim() {
    let mut u = union_u();
    u.shared_attrs = vec![
        SharedAttr {
            name: "derive".to_string(),
            args: Some(AttrArgs { delim: Delim::Paren, content: "Debug, Default".to_string() }),
        },
        SharedAttr { name: "no_mangle".to_string(), args: None },
    ];
    u.own_attrs = vec!["#[doc = \"payload\"]".to_string()];
    u.cases[0].fields = vec![
        FieldDef { name: "a".to_string(), ty: "u8".to_string() },
        FieldDef { name: "b".to_string(), ty: "u64".to_string() },
    ];
    let mut state = GlobalState::new();
    let out = state.register_union(u).unwrap();
    for r in &out.records {
        assert_eq!(r.attrs.len(), 2);
        assert_eq!(r.attrs[0].name, "derive");
        assert_eq!(r.attrs[1].name, "no_mangle");
        assert_eq!(r.vis, "pub");
    }
    assert_eq!(out.records[0].fields.len(), 2);
    assert_eq!(out.records[0].fields[0].name, "a");
    assert_eq!(out.records[0].fields[1].ty, "u64");
    assert_eq!(out.union_decl.own_attrs, vec!["#[doc = \"payload\"]".to_string()]);
}

#[test]
fn duplicate_union_name_fails_with_schema_error() {
    let mut state = GlobalState::new();
    state.register_union(union_u()).unwrap();
    // An unrelated pending request changes nothing about the conflict.
    let queued = enum_gen_match_id(&mut state, "W".to_string(), template(BODY)).unwrap();
    assert!(queued.is_none());
    let err = state.register_union(union_u()).unwrap_err();
    assert_eq!(err, GenError::DuplicateUnion);
    assert_eq!(err.class(), ErrorClass::Schema);
}

#[test]
fn failed_duplicate_registration_keeps_the_original() {
    let mut state = GlobalState::new();
    state.register_union(union_u()).unwrap();
    let other = union_def(
        "U",
        vec![case("X", CaseDiscriminant::Value(9)), case("Y", CaseDiscriminant::Wildcard)],
    );
    assert!(state.register_union(other).is_err());
    let out = enum_gen_match_id(&mut state, "U".to_string(), template(BODY)).unwrap().unwrap();
    assert_eq!(out.arms.len(), 3);
    assert_eq!(out.arms[0].case_name, "A");
}

#[test]
fn deferred_dispatch_equals_immediate() {
    // Request first, register later.
    let mut early = GlobalState::new();
    let r = enum_gen_match_id(&mut early, "U".to_string(), template(BODY)).unwrap();
    assert!(r.is_none());
    let out = early.register_union(union_u()).unwrap();
    assert_eq!(out.flushed.len(), 1);
    // Register first, request after.
    let mut late = GlobalState::new();
    late.register_union(union_u()).unwrap();
    let immediate = enum_gen_match_id(&mut late, "U".to_string(), template(BODY)).unwrap().unwrap();
    assert_eq!(out.flushed[0], immediate);
}

#[test]
fn by_discriminant_wildcard_declared_first_is_emitted_last() {
    let u = union_def(
        "V",
        vec![
            case("C", CaseDiscriminant::Wildcard),
            case("A", CaseDiscriminant::Value(1)),
            case("B", CaseDiscriminant::Value(2)),
        ],
    );
    let mut state = GlobalState::new();
    state.register_union(u).unwrap();
    let out = enum_gen_match_id(&mut state, "V".to_string(), template(BODY)).unwrap().unwrap();
    assert_eq!(out.arms.len(), 3);
    assert_eq!(out.arms[0].pattern, ArmPattern::Discriminant(1));
    assert_eq!(out.arms[0].case_name, "A");
    assert_eq!(out.arms[1].pattern, ArmPattern::Discriminant(2));
    assert_eq!(out.arms[1].case_name, "B");
    assert_eq!(out.arms[2].pattern, ArmPattern::CatchAll);
    assert_eq!(out.arms[2].case_name, "C");
}

#[test]
fn by_value_every_case_gets_a_structural_arm() {
    let u = union_def(
        "V",
        vec![
            case("C", CaseDiscriminant::Wildcard),
            case("A", CaseDiscriminant::Value(1)),
            case("B", CaseDiscriminant::Value(2)),
        ],
    );
    let mut state = GlobalState::new();
    state.register_union(u).unwrap();
    let out = enum_gen_match_self(&mut state, "V".to_string(), template(BODY)).unwrap().unwrap();
    assert_eq!(out.mode, DispatchMode::ByValue);
    assert_eq!(out.arms.len(), 3);
    for arm in &out.arms {
        assert_eq!(arm.pattern, ArmPattern::Alternative(arm.case_name.clone()));
    }
    // The wildcard case is a plain structural arm here, not a catch-all.
    assert_eq!(out.arms[2].pattern, ArmPattern::Alternative("C".to_string()));
}

#[test]
fn example_register_then_dispatch_by_discriminant() {
    let mut state = GlobalState::new();
    state.register_union(union_u()).unwrap();
    let out = enum_gen_match_id(&mut state, "U".to_string(), template(BODY)).unwrap().unwrap();
    assert_eq!(out.mode, DispatchMode::ByDiscriminant);
    assert_eq!(out.union_name, "U");
    assert_eq!(out.header, template(BODY)[..4].to_vec());
    assert_eq!(out.arms.len(), 3);
    assert_eq!(out.arms[0].pattern, ArmPattern::Discriminant(1));
    assert_eq!(out.arms[0].case_name, "A");
    assert_eq!(out.arms[1].pattern, ArmPattern::Discriminant(2));
    assert_eq!(out.arms[1].case_name, "B");
    assert_eq!(out.arms[2].pattern, ArmPattern::CatchAll);
    assert_eq!(out.arms[2].case_name, "C");
    for arm in &out.arms {
        assert_eq!(arm.body, BODY);
    }
}

#[test]
fn example_dispatch_before_register_yields_empty_then_same_arms() {
    let mut state = GlobalState::new();
    let r = enum_gen_match_id(&mut state, "U".to_string(), template(BODY)).unwrap();
    assert!(r.is_none());
    let out = state.register_union(union_u()).unwrap();
    assert_eq!(out.flushed.len(), 1);
    let d = &out.flushed[0];
    assert_eq!(d.arms.len(), 3);
    assert_eq!(d.arms[0].pattern, ArmPattern::Discriminant(1));
    assert_eq!(d.arms[1].pattern, ArmPattern::Discriminant(2));
    assert_eq!(d.arms[2].pattern, ArmPattern::CatchAll);
    assert_eq!(d.arms[2].case_name, "C");
}

#[test]
fn example_duplicate_discriminant_fails() {
    let u = union_def(
        "U",
        vec![case("A", CaseDiscriminant::Value(1)), case("B", CaseDiscriminant::Value(1))],
    );
    let mut state = GlobalState::new();
    let err = state.register_union(u).unwrap_err();
    assert_eq!(err, GenError::DuplicateDiscriminant);
    assert_eq!(err.class(), ErrorClass::Schema);
    assert_eq!(err.message(), "duplicate discriminant");
}

#[test]
fn example_zero_wildcards_fails() {
    let u = union_def(
        "U",
        vec![case("A", CaseDiscriminant::Value(1)), case("B", CaseDiscriminant::Value(2))],
    );
    let mut state = GlobalState::new();
    let err = state.register_union(u).unwrap_err();
    assert_eq!(err, GenError::MissingDefault);
    assert_eq!(err.class(), ErrorClass::Schema);
    assert_eq!(err.message(), "missing default: exactly one case must carry the wildcard ID");
}

#[test]
fn two_wildcards_fail() {
    let u = union_def(
        "U",
        vec![
            case("A", CaseDiscriminant::Value(1)),
            case("B", CaseDiscriminant::Wildcard),
            case("C", CaseDiscriminant::Wildcard),
        ],
    );
    let mut state = GlobalState::new();
    let err = state.register_union(u).unwrap_err();
    assert_eq!(err, GenError::DuplicateDefault);
    assert_eq!(err.class(), ErrorClass::Schema);
}

#[test]
fn empty_union_name_fails() {
    let mut state = GlobalState::new();
    let err = enum_gen_match_id(&mut state, String::new(), template(BODY)).unwrap_err();
    assert_eq!(err, GenError::MissingArgument);
    assert_eq!(err.class(), ErrorClass::Syntax);
}

#[test]
fn template_without_body_group_fails() {
    let mut state = GlobalState::new();
    state.register_union(union_u()).unwrap();
    let err = enum_gen_match_id(&mut state, "U".to_string(), vec![ident("fn"), ident("f")])
        .unwrap_err();
    assert_eq!(err, GenError::MissingBody);
    assert_eq!(err.class(), ErrorClass::Syntax);
}

#[test]
fn queued_malformed_template_aborts_the_registration() {
    let mut state = GlobalState::new();
    let r = enum_gen_match_id(&mut state, "U".to_string(), vec![ident("fn")]).unwrap();
    assert!(r.is_none());
    let err = state.register_union(union_u()).unwrap_err();
    assert_eq!(err, GenError::MissingBody);
    // Nothing was stored or dequeued: a second attempt fails the same way.
    let err = state.register_union(union_u()).unwrap_err();
    assert_eq!(err, GenError::MissingBody);
}

#[test]
fn never_registered_request_silently_yields_nothing() {
    let mut state = GlobalState::new();
    assert!(enum_gen_match_id(&mut state, "Nowhere".to_string(), template(BODY)).unwrap().is_none());
    assert!(enum_gen_match_self(&mut state, "Nowhere".to_string(), template(BODY)).unwrap().is_none());
}

#[test]
fn flushed_requests_keep_arrival_order() {
    let mut state = GlobalState::new();
    enum_gen_match_id(&mut state, "U".to_string(), template("first()")).unwrap();
    enum_gen_match_self(&mut state, "U".to_string(), template("second()")).unwrap();
    let out = state.register_union(union_u()).unwrap();
    assert_eq!(out.flushed.len(), 2);
    assert_eq!(out.flushed[0].mode, DispatchMode::ByDiscriminant);
    assert_eq!(out.flushed[0].arms[0].body, "first()");
    assert_eq!(out.flushed[1].mode, DispatchMode::ByValue);
    assert_eq!(out.flushed[1].arms[0].body, "second()");
}
