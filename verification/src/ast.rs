//! The data model of the generator: cases, discriminants, shared attributes
//! and union definitions, with the validity rules a union must satisfy.
use vstd::prelude::*;
use crate::token::{Delim, Token, TokenModel};

verus! {

/// The discriminant of one case: a numeric value, or the single wildcard.
#[derive(Clone, Copy, Debug, PartialEq, Eq, Structural)]
pub enum CaseDiscriminant {
    /// A non-negative numeric discriminant.
    Value(usize),
    /// The wildcard marker `_`: the designated default case.
    Wildcard,
}

impl DeepView for CaseDiscriminant {
    type V = CaseDiscriminant;

    open spec fn deep_view(&self) -> CaseDiscriminant {
        *self
    }
}

/// One field of a case: a name and a type, both carried verbatim.
#[derive(Debug, PartialEq, Eq)]
pub struct FieldDef {
    pub name: String,
    pub ty: String,
}

/// The mathematical value of a field.
#[verifier::ext_equal]
pub struct FieldModel {
    pub name: Seq<char>,
    pub ty: Seq<char>,
}

impl DeepView for FieldDef {
    type V = FieldModel;

    open spec fn deep_view(&self) -> FieldModel {
        FieldModel { name: self.name@, ty: self.ty@ }
    }
}

impl Clone for FieldDef {
    /// Clones a field; the copy has the same value.
    fn clone(&self) -> (r: Self)
        ensures
            r.deep_view() == self.deep_view(),
    {
        FieldDef { name: self.name.clone(), ty: self.ty.clone() }
    }
}

/// One case of a union: its name, its ordered fields, its discriminant.
#[derive(Debug, PartialEq, Eq)]
pub struct CaseDefinition {
    pub name: String,
    pub fields: Vec<FieldDef>,
    pub disc: CaseDiscriminant,
}

/// The mathematical value of a case.
#[verifier::ext_equal]
pub struct CaseModel {
    pub name: Seq<char>,
    pub fields: Seq<FieldModel>,
    pub disc: CaseDiscriminant,
}

impl DeepView for CaseDefinition {
    type V = CaseModel;

    open spec fn deep_view(&self) -> CaseModel {
        CaseModel { name: self.name@, fields: self.fields.deep_view(), disc: self.disc }
    }
}

/// The argument group of a shared attribute, carried verbatim.
#[derive(Debug, PartialEq, Eq)]
pub struct AttrArgs {
    pub delim: Delim,
    pub content: String,
}

/// The mathematical value of an attribute argument group.
#[verifier::ext_equal]
pub struct AttrArgsModel {
    pub delim: Delim,
    pub content: Seq<char>,
}

impl DeepView for AttrArgs {
    type V = AttrArgsModel;

    open spec fn deep_view(&self) -> AttrArgsModel {
        AttrArgsModel { delim: self.delim, content: self.content@ }
    }
}

impl Clone for AttrArgs {
    /// Clones an argument group; the copy has the same value.
    fn clone(&self) -> (r: Self)
        ensures
            r.deep_view() == self.deep_view(),
    {
        AttrArgs { delim: self.delim, content: self.content.clone() }
    }
}

/// One shared attribute, forwarded verbatim to every generated record:
/// an identifier with an optional argument group, as in `derive(Debug)`
/// or a bare `no_mangle`.
#[derive(Debug, PartialEq, Eq)]
pub struct SharedAttr {
    pub name: String,
    pub args: Option<AttrArgs>,
}

/// The mathematical value of a shared attribute.
#[verifier::ext_equal]
pub struct SharedAttrModel {
    pub name: Seq<char>,
    pub args: Option<AttrArgsModel>,
}

impl DeepView for SharedAttr {
    type V = SharedAttrModel;

    open spec fn deep_view(&self) -> SharedAttrModel {
        SharedAttrModel { name: self.name@, args: self.args.deep_view() }
    }
}

impl Clone for SharedAttr {
    /// Clones a shared attribute; the copy has the same value.
    fn clone(&self) -> (r: Self)
        ensures
            r.deep_view() == self.deep_view(),
    {
        let args = match &self.args {
            Some(a) => Some(a.clone()),
            None => None,
        };
        SharedAttr { name: self.name.clone(), args }
    }
}

/// A resolved union definition, frozen at registration: its name, its
/// declared visibility, its own attribute list and the shared attribute list
/// (both carried verbatim), and its ordered cases.
#[derive(Debug, PartialEq, Eq)]
pub struct UnionDefinition {
    pub name: String,
    pub vis: String,
    pub own_attrs: Vec<String>,
    pub shared_attrs: Vec<SharedAttr>,
    pub cases: Vec<CaseDefinition>,
}

/// The mathematical value of a union definition.
#[verifier::ext_equal]
pub struct UnionModel {
    pub name: Seq<char>,
    pub vis: Seq<char>,
    pub own_attrs: Seq<Seq<char>>,
    pub shared_attrs: Seq<SharedAttrModel>,
    pub cases: Seq<CaseModel>,
}

impl DeepView for UnionDefinition {
    type V = UnionModel;

    open spec fn deep_view(&self) -> UnionModel {
        UnionModel {
            name: self.name@,
            vis: self.vis@,
            own_attrs: self.own_attrs.deep_view(),
            shared_attrs: self.shared_attrs.deep_view(),
            cases: self.cases.deep_view(),
        }
    }
}

/// One annotation on a case, as the lexer hands it over: its path name and,
/// where it is a parenthesised list, the tokens inside.
#[derive(Debug, PartialEq, Eq)]
pub struct CaseAttr {
    pub name: String,
    pub args: Option<Vec<Token>>,
}

/// The mathematical value of a case annotation.
#[verifier::ext_equal]
pub struct CaseAttrModel {
    pub name: Seq<char>,
    pub args: Option<Seq<TokenModel>>,
}

impl DeepView for CaseAttr {
    type V = CaseAttrModel;

    open spec fn deep_view(&self) -> CaseAttrModel {
        CaseAttrModel { name: self.name@, args: self.args.deep_view() }
    }
}

/// How many cases carry the wildcard discriminant.
pub open spec fn wildcard_count(cs: Seq<CaseModel>) -> nat
    decreases cs.len(),
{
    if cs.len() == 0 {
        0
    } else {
        wildcard_count(cs.drop_last()) + (if cs.last().disc is Wildcard {
            1nat
        } else {
            0nat
        })
    }
}

/// Whether positions `i < j` of the case list carry the same numeric
/// discriminant.
pub open spec fn dup_value_pair(cs: Seq<CaseModel>, i: int, j: int) -> bool {
    &&& 0 <= i < j < cs.len()
    &&& cs[i].disc is Value
    &&& cs[i].disc == cs[j].disc
}

/// Whether two cases carry the same numeric discriminant.
pub open spec fn has_duplicate_value(cs: Seq<CaseModel>) -> bool {
    exists|i: int, j: int| dup_value_pair(cs, i, j)
}

/// The validity a registered union's case list enjoys: exactly one wildcard
/// case, and every numeric discriminant unique.
pub open spec fn valid_cases(cs: Seq<CaseModel>) -> bool {
    &&& wildcard_count(cs) == 1
    &&& !has_duplicate_value(cs)
}

} // verus!
