//! The attribute parser: extracts each case's discriminant from its
//! annotation block and parses the shared-attribute argument list.
use vstd::prelude::*;
use crate::ast::{
    AttrArgs, AttrArgsModel, CaseAttr, CaseAttrModel, CaseDefinition, CaseDiscriminant, CaseModel,
    FieldDef, FieldModel, SharedAttr, SharedAttrModel,
};
use crate::error::GenError;
use crate::num::{parse_int, spec_parse_int};
use crate::result_model;
use crate::text::str_eq;
use crate::token::{Token, TokenModel};

verus! {

/// The discriminant an `ID` value token denotes: the wildcard marker, or a
/// decimal or `0x`-prefixed hexadecimal numeral.
pub open spec fn spec_id_value(t: TokenModel) -> Result<CaseDiscriminant, GenError> {
    match t {
        TokenModel::Ident(s) => if s == "_"@ {
            Ok(CaseDiscriminant::Wildcard)
        } else {
            match spec_parse_int(s) {
                Ok(n) => Ok(CaseDiscriminant::Value(n)),
                Err(_) => Err(GenError::InvalidId),
            }
        },
        TokenModel::Literal(s) => match spec_parse_int(s) {
            Ok(n) => Ok(CaseDiscriminant::Value(n)),
            Err(_) => Err(GenError::InvalidId),
        },
        _ => Err(GenError::InvalidId),
    }
}

/// Reads the discriminant an `ID` value token denotes.
pub fn id_value(t: &Token) -> (r: Result<CaseDiscriminant, GenError>)
    ensures
        r == spec_id_value(t@),
{
    match t {
        Token::Ident(s) => {
            if str_eq(s.as_str(), "_") {
                Ok(CaseDiscriminant::Wildcard)
            } else {
                match parse_int(s.as_str()) {
                    Ok(n) => Ok(CaseDiscriminant::Value(n)),
                    Err(_) => Err(GenError::InvalidId),
                }
            }
        },
        Token::Literal(s) => match parse_int(s.as_str()) {
            Ok(n) => Ok(CaseDiscriminant::Value(n)),
            Err(_) => Err(GenError::InvalidId),
        },
        _ => Err(GenError::InvalidId),
    }
}

/// Whether the token after a key is the `=` the annotation grammar demands.
pub open spec fn spec_expect_punct(t: Option<TokenModel>) -> Result<(), GenError> {
    match t {
        Some(TokenModel::Punct(c)) => if c == '=' {
            Ok(())
        } else {
            Err(GenError::MalformedAttrSyntax)
        },
        _ => Err(GenError::MalformedAttrSyntax),
    }
}

/// Demands that the given token is the `=` of a `key = value` pair.
pub fn expect_punct_token(t: Option<&Token>) -> (r: Result<(), GenError>)
    ensures
        r == spec_expect_punct(t.deep_view()),
{
    match t {
        Some(Token::Punct(c)) => {
            if *c == '=' {
                Ok(())
            } else {
                Err(GenError::MalformedAttrSyntax)
            }
        },
        _ => Err(GenError::MalformedAttrSyntax),
    }
}

/// What scanning an annotation block's tokens yields: tokens other than
/// identifiers are passed over; every identifier must be the key `ID`,
/// followed by `=` and a value; a later assignment wins.
pub open spec fn spec_scan_id(ts: Seq<TokenModel>, cur: Option<CaseDiscriminant>) -> Result<
    Option<CaseDiscriminant>,
    GenError,
>
    decreases ts.len(),
{
    if ts.len() == 0 {
        Ok(cur)
    } else {
        match ts[0] {
            TokenModel::Ident(key) => if key == "ID"@ {
                if spec_expect_punct(
                    if ts.len() >= 2 {
                        Some(ts[1])
                    } else {
                        None
                    },
                ) is Err {
                    Err(GenError::MalformedAttrSyntax)
                } else if ts.len() < 3 {
                    Err(GenError::MalformedAttrSyntax)
                } else {
                    match spec_id_value(ts[2]) {
                        Ok(d) => spec_scan_id(ts.skip(3), Some(d)),
                        Err(e) => Err(e),
                    }
                }
            } else {
                Err(GenError::UnknownAttributeKey)
            },
            _ => spec_scan_id(ts.skip(1), cur),
        }
    }
}

/// Scans an annotation block's tokens for the `ID` assignment.
pub fn scan_id(tokens: &Vec<Token>) -> (r: Result<Option<CaseDiscriminant>, GenError>)
    ensures
        r == spec_scan_id(tokens.deep_view(), None),
{
    let ghost tsm = tokens.deep_view();
    let n = tokens.len();
    let mut i: usize = 0;
    let mut cur: Option<CaseDiscriminant> = None;
    proof {
        assert(tsm.skip(0) =~= tsm);
    }
    while i < n
        invariant
            n == tokens.len(),
            tsm == tokens.deep_view(),
            i <= n,
            spec_scan_id(tsm, None) == spec_scan_id(tsm.skip(i as int), cur),
        decreases n - i,
    {
        proof {
            assert(tsm.skip(i as int)[0] == tsm[i as int]);
            assert(tsm[i as int] == tokens[i as int].deep_view());
        }
        match &tokens[i] {
            Token::Ident(key) => {
                if str_eq(key.as_str(), "ID") {
                    let pt = if i + 1 < n {
                        Some(&tokens[i + 1])
                    } else {
                        None
                    };
                    proof {
                        if i + 1 < n {
                            assert(tsm.skip(i as int)[1] == tsm[i + 1]);
                            assert(tsm[i + 1] == tokens[i + 1].deep_view());
                        }
                    }
                    if let Err(e) = expect_punct_token(pt) {
                        return Err(e);
                    }
                    if i + 2 >= n {
                        return Err(GenError::MalformedAttrSyntax);
                    }
                    proof {
                        assert(tsm.skip(i as int)[2] == tsm[i + 2]);
                        assert(tsm[i + 2] == tokens[i + 2].deep_view());
                    }
                    match id_value(&tokens[i + 2]) {
                        Ok(d) => {
                            proof {
                                assert(tsm.skip(i as int).skip(3) =~= tsm.skip(i + 3));
                            }
                            cur = Some(d);
                            i = i + 3;
                        },
                        Err(e) => {
                            return Err(e);
                        },
                    }
                } else {
                    return Err(GenError::UnknownAttributeKey);
                }
            },
            _ => {
                proof {
                    assert(tsm.skip(i as int).skip(1) =~= tsm.skip(i + 1));
                }
                i = i + 1;
            },
        }
    }
    proof {
        assert(tsm.skip(n as int) =~= Seq::<TokenModel>::empty());
    }
    Ok(cur)
}

/// Whether a case annotation is the discriminant annotation block:
/// a parenthesised list named `attr`.
pub open spec fn spec_is_block(a: CaseAttrModel) -> bool {
    a.name == "attr"@ && a.args is Some
}

/// The tokens inside a case annotation, where it carries any.
pub open spec fn block_tokens(a: CaseAttrModel) -> Seq<TokenModel> {
    match a.args {
        Some(ts) => ts,
        None => Seq::empty(),
    }
}

/// How many annotations of a case are discriminant annotation blocks.
pub open spec fn block_count(attrs: Seq<CaseAttrModel>) -> nat
    decreases attrs.len(),
{
    if attrs.len() == 0 {
        0
    } else {
        block_count(attrs.drop_last()) + (if spec_is_block(attrs.last()) {
            1nat
        } else {
            0nat
        })
    }
}

/// The tokens of the first discriminant annotation block.
pub open spec fn first_block_tokens(attrs: Seq<CaseAttrModel>) -> Seq<TokenModel>
    decreases attrs.len(),
{
    if attrs.len() == 0 {
        Seq::empty()
    } else if spec_is_block(attrs[0]) {
        block_tokens(attrs[0])
    } else {
        first_block_tokens(attrs.drop_first())
    }
}

/// The first annotation block found by a forward scan is the one
/// `first_block_tokens` speaks of.
proof fn lemma_first_block(attrs: Seq<CaseAttrModel>, j: int)
    requires
        0 <= j < attrs.len(),
        spec_is_block(attrs[j]),
        forall|k: int| 0 <= k < j ==> !spec_is_block(#[trigger] attrs[k]),
    ensures
        first_block_tokens(attrs) == block_tokens(attrs[j]),
    decreases j,
{
    if j > 0 {
        lemma_first_block(attrs.drop_first(), j - 1);
    }
}

/// What parsing one case yields. The case must carry exactly one annotation
/// block and nothing else; the block must assign `ID` a numeral or the
/// wildcard marker.
pub open spec fn spec_parse_case(
    name: Seq<char>,
    fields: Seq<FieldModel>,
    attrs: Seq<CaseAttrModel>,
) -> Result<CaseModel, GenError> {
    if block_count(attrs) == 0 {
        Err(GenError::MissingAttrBlock)
    } else if block_count(attrs) > 1 {
        Err(GenError::DuplicateAttrBlock)
    } else {
        match spec_scan_id(first_block_tokens(attrs), None) {
            Err(e) => Err(e),
            Ok(opt) => if attrs.len() > 1 {
                Err(GenError::UnsupportedAttribute)
            } else {
                match opt {
                    None => Err(GenError::MissingId),
                    Some(d) => Ok(CaseModel { name, fields, disc: d }),
                }
            },
        }
    }
}

/// Parses one case: locates its single annotation block, reads the `ID`
/// assignment, and builds the case definition, preserving field order.
pub fn parse_case(name: String, fields: Vec<FieldDef>, attrs: &Vec<CaseAttr>) -> (r: Result<
    CaseDefinition,
    GenError,
>)
    ensures
        result_model(r) == spec_parse_case(name@, fields.deep_view(), attrs.deep_view()),
{
    let ghost am = attrs.deep_view();
    let n = attrs.len();
    let mut count: usize = 0;
    let mut first: usize = n;
    for i in 0..n
        invariant
            n == attrs.len(),
            am == attrs.deep_view(),
            count == block_count(am.take(i as int)),
            count <= i,
            count == 0 ==> first == n && (forall|k: int|
                0 <= k < i ==> !spec_is_block(#[trigger] am[k])),
            count > 0 ==> first < i && spec_is_block(am[first as int]) && (forall|k: int|
                0 <= k < first ==> !spec_is_block(#[trigger] am[k])),
    {
        proof {
            assert(am[i as int] == attrs[i as int].deep_view());
            assert(am.take(i + 1).drop_last() =~= am.take(i as int));
            assert(am.take(i + 1).last() == am[i as int]);
        }
        let a = &attrs[i];
        let is_blk = str_eq(a.name.as_str(), "attr") && a.args.is_some();
        if is_blk {
            if count == 0 {
                first = i;
            }
            count = count + 1;
        }
    }
    proof {
        assert(am.take(n as int) =~= am);
    }
    if count == 0 {
        return Err(GenError::MissingAttrBlock);
    }
    if count > 1 {
        return Err(GenError::DuplicateAttrBlock);
    }
    proof {
        lemma_first_block(am, first as int);
    }
    let block = &attrs[first];
    let tokens = match &block.args {
        Some(ts) => ts,
        None => {
            proof {
                assert(false);
            }
            return Err(GenError::MissingAttrBlock);
        },
    };
    assert(tokens.deep_view() == first_block_tokens(am));
    match scan_id(tokens) {
        Err(e) => Err(e),
        Ok(opt) => {
            if attrs.len() > 1 {
                Err(GenError::UnsupportedAttribute)
            } else {
                match opt {
                    None => Err(GenError::MissingId),
                    Some(d) => Ok(CaseDefinition { name, fields, disc: d }),
                }
            }
        },
    }
}

/// What parsing the shared-attribute argument list yields. Each attribute is
/// an identifier with an optional argument group; the token after a group —
/// or after a bare identifier — is passed over as the separating comma.
pub open spec fn spec_parse_args(ts: Seq<TokenModel>) -> Result<Seq<SharedAttrModel>, GenError>
    decreases ts.len(),
{
    if ts.len() == 0 {
        Ok(Seq::empty())
    } else {
        match ts[0] {
            TokenModel::Ident(name) => if ts.len() >= 2 && (ts[1] is Group) {
                let attr = match ts[1] {
                    TokenModel::Group(d, c) => SharedAttrModel {
                        name,
                        args: Some(AttrArgsModel { delim: d, content: c }),
                    },
                    _ => SharedAttrModel { name, args: None },
                };
                let rest = if ts.len() >= 3 {
                    ts.skip(3)
                } else {
                    Seq::<TokenModel>::empty()
                };
                match spec_parse_args(rest) {
                    Ok(r) => Ok(seq![attr] + r),
                    Err(e) => Err(e),
                }
            } else {
                let attr = SharedAttrModel { name, args: None };
                let rest = if ts.len() >= 2 {
                    ts.skip(2)
                } else {
                    Seq::<TokenModel>::empty()
                };
                match spec_parse_args(rest) {
                    Ok(r) => Ok(seq![attr] + r),
                    Err(e) => Err(e),
                }
            },
            _ => Err(GenError::MalformedArgs),
        }
    }
}

/// Parses the shared-attribute argument list handed to a union definition.
pub fn parse_gen_args(tokens: &Vec<Token>) -> (r: Result<Vec<SharedAttr>, GenError>)
    ensures
        result_model(r) == spec_parse_args(tokens.deep_view()),
{
    let ghost tsm = tokens.deep_view();
    let n = tokens.len();
    let mut i: usize = 0;
    let mut acc: Vec<SharedAttr> = Vec::new();
    proof {
        assert(tsm.skip(0) =~= tsm);
        assert(acc.deep_view() + spec_parse_args(tsm)->Ok_0 =~= spec_parse_args(tsm)->Ok_0);
    }
    while i < n
        invariant
            n == tokens.len(),
            tsm == tokens.deep_view(),
            i <= n,
            spec_parse_args(tsm) == (match spec_parse_args(tsm.skip(i as int)) {
                Ok(rest) => Ok::<Seq<SharedAttrModel>, GenError>(acc.deep_view() + rest),
                Err(e) => Err(e),
            }),
        decreases n - i,
    {
        proof {
            assert(tsm.skip(i as int)[0] == tsm[i as int]);
            assert(tsm[i as int] == tokens[i as int].deep_view());
        }
        let ghost pre = acc.deep_view();
        match &tokens[i] {
            Token::Ident(name) => {
                let has_group = i + 1 < n && matches!(&tokens[i + 1], Token::Group(_, _));
                proof {
                    if i + 1 < n {
                        assert(tsm.skip(i as int)[1] == tsm[i + 1]);
                        assert(tsm[i + 1] == tokens[i + 1].deep_view());
                    }
                }
                if has_group {
                    let (delim, content) = match &tokens[i + 1] {
                        Token::Group(d, c) => (*d, c.clone()),
                        _ => {
                            proof {
                                assert(false);
                            }
                            return Err(GenError::MalformedArgs);
                        },
                    };
                    acc.push(
                        SharedAttr { name: name.clone(), args: Some(AttrArgs { delim, content }) },
                    );
                    let next = if n - i >= 3 {
                        i + 3
                    } else {
                        n
                    };
                    proof {
                        if n - i >= 3 {
                            assert(tsm.skip(i as int).skip(3) =~= tsm.skip(i + 3));
                        } else {
                            assert(tsm.skip(i as int).skip(tsm.skip(i as int).len() as int)
                                =~= Seq::<TokenModel>::empty());
                            assert(tsm.skip(n as int) =~= Seq::<TokenModel>::empty());
                        }
                        let ghost attr = acc.deep_view().last();
                        assert(acc.deep_view() =~= pre.push(attr));
                        assert forall|rest: Seq<SharedAttrModel>|
                            true implies pre + (seq![attr] + rest) =~= acc.deep_view() + rest by {}
                    }
                    i = next;
                } else {
                    acc.push(SharedAttr { name: name.clone(), args: None });
                    let next = if n - i >= 2 {
                        i + 2
                    } else {
                        n
                    };
                    proof {
                        if n - i >= 2 {
                            assert(tsm.skip(i as int).skip(2) =~= tsm.skip(i + 2));
                        } else {
                            assert(tsm.skip(n as int) =~= Seq::<TokenModel>::empty());
                        }
                        let ghost attr = acc.deep_view().last();
                        assert(acc.deep_view() =~= pre.push(attr));
                        assert forall|rest: Seq<SharedAttrModel>|
                            true implies pre + (seq![attr] + rest) =~= acc.deep_view() + rest by {}
                    }
                    i = next;
                }
            },
            _ => {
                return Err(GenError::MalformedArgs);
            },
        }
    }
    proof {
        assert(tsm.skip(n as int) =~= Seq::<TokenModel>::empty());
        assert(acc.deep_view() + Seq::<SharedAttrModel>::empty() =~= acc.deep_view());
    }
    Ok(acc)
}

} // verus!
