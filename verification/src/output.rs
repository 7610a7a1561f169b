//! The generated output, held structurally: record types, the regenerated
//! union type, and dispatch selectors. Rendering to source text is the host's
//! concern, not this library's.
use vstd::prelude::*;
use crate::DispatchMode;
use crate::ast::{
    CaseModel, FieldDef, FieldModel, SharedAttr, SharedAttrModel, UnionDefinition, UnionModel,
    wildcard_count,
};
use crate::token::{Token, TokenModel};

verus! {

/// One generated record type: the union's shared attributes verbatim, the
/// union's visibility, the case's name and fields, and — for a numeric
/// discriminant — the named constant carrying its value.
#[derive(Debug, PartialEq, Eq)]
pub struct RecordOutput {
    pub attrs: Vec<SharedAttr>,
    pub vis: String,
    pub name: String,
    pub fields: Vec<FieldDef>,
    pub id_const: Option<usize>,
}

/// The mathematical value of a generated record type.
#[verifier::ext_equal]
pub struct RecordModel {
    pub attrs: Seq<SharedAttrModel>,
    pub vis: Seq<char>,
    pub name: Seq<char>,
    pub fields: Seq<FieldModel>,
    pub id_const: Option<usize>,
}

impl DeepView for RecordOutput {
    type V = RecordModel;

    open spec fn deep_view(&self) -> RecordModel {
        RecordModel {
            attrs: self.attrs.deep_view(),
            vis: self.vis@,
            name: self.name@,
            fields: self.fields.deep_view(),
            id_const: self.id_const,
        }
    }
}

/// The regenerated union type: its own attributes and visibility, its name,
/// and one alternative per case, each wrapping the record type of that name.
#[derive(Debug, PartialEq, Eq)]
pub struct UnionOutput {
    pub own_attrs: Vec<String>,
    pub vis: String,
    pub name: String,
    pub alternatives: Vec<String>,
}

/// The mathematical value of the regenerated union type.
#[verifier::ext_equal]
pub struct UnionOutModel {
    pub own_attrs: Seq<Seq<char>>,
    pub vis: Seq<char>,
    pub name: Seq<char>,
    pub alternatives: Seq<Seq<char>>,
}

impl DeepView for UnionOutput {
    type V = UnionOutModel;

    open spec fn deep_view(&self) -> UnionOutModel {
        UnionOutModel {
            own_attrs: self.own_attrs.deep_view(),
            vis: self.vis@,
            name: self.name@,
            alternatives: self.alternatives.deep_view(),
        }
    }
}

/// What one generated record states for a case: the shared attributes and
/// visibility verbatim, the case's own name and fields, and a constant
/// exactly for a numeric discriminant.
pub open spec fn spec_record(
    c: CaseModel,
    attrs: Seq<SharedAttrModel>,
    vis: Seq<char>,
) -> RecordModel {
    RecordModel {
        attrs,
        vis,
        name: c.name,
        fields: c.fields,
        id_const: match c.disc {
            crate::ast::CaseDiscriminant::Value(n) => Some(n),
            crate::ast::CaseDiscriminant::Wildcard => None,
        },
    }
}

/// The records generated for a case list, one per case, in declaration order.
pub open spec fn spec_records(
    cs: Seq<CaseModel>,
    attrs: Seq<SharedAttrModel>,
    vis: Seq<char>,
) -> Seq<RecordModel> {
    Seq::new(cs.len(), |i: int| spec_record(cs[i], attrs, vis))
}

/// The regenerated union type for a definition: same name, visibility and own
/// attributes, one alternative per case in declaration order.
pub open spec fn spec_union_decl(u: UnionModel) -> UnionOutModel {
    UnionOutModel {
        own_attrs: u.own_attrs,
        vis: u.vis,
        name: u.name,
        alternatives: Seq::new(u.cases.len(), |i: int| u.cases[i].name),
    }
}

/// Clones a shared-attribute list; the copy has the same value.
pub(crate) fn clone_attrs(v: &Vec<SharedAttr>) -> (r: Vec<SharedAttr>)
    ensures
        r.deep_view() == v.deep_view(),
{
    let ghost vm = v.deep_view();
    let mut r: Vec<SharedAttr> = Vec::new();
    for i in 0..v.len()
        invariant
            vm == v.deep_view(),
            r@.len() == i,
            forall|k: int| 0 <= k < i ==> #[trigger] r@[k].deep_view() == vm[k],
    {
        proof {
            assert(vm[i as int] == v@[i as int].deep_view());
        }
        r.push(v[i].clone());
    }
    proof {
        assert forall|k: int| 0 <= k < r@.len() implies r.deep_view()[k] == vm[k] by {
            assert(r.deep_view()[k] == r@[k].deep_view());
        }
        assert(r.deep_view() =~= vm);
    }
    r
}

/// Clones a field list; the copy has the same value.
pub(crate) fn clone_fields(v: &Vec<FieldDef>) -> (r: Vec<FieldDef>)
    ensures
        r.deep_view() == v.deep_view(),
{
    let ghost vm = v.deep_view();
    let mut r: Vec<FieldDef> = Vec::new();
    for i in 0..v.len()
        invariant
            vm == v.deep_view(),
            r@.len() == i,
            forall|k: int| 0 <= k < i ==> #[trigger] r@[k].deep_view() == vm[k],
    {
        proof {
            assert(vm[i as int] == v@[i as int].deep_view());
        }
        r.push(v[i].clone());
    }
    proof {
        assert forall|k: int| 0 <= k < r@.len() implies r.deep_view()[k] == vm[k] by {
            assert(r.deep_view()[k] == r@[k].deep_view());
        }
        assert(r.deep_view() =~= vm);
    }
    r
}

/// Clones a list of verbatim attribute texts; the copy has the same value.
pub(crate) fn clone_strings(v: &Vec<String>) -> (r: Vec<String>)
    ensures
        r.deep_view() == v.deep_view(),
{
    let ghost vm = v.deep_view();
    let mut r: Vec<String> = Vec::new();
    for i in 0..v.len()
        invariant
            vm == v.deep_view(),
            r@.len() == i,
            forall|k: int| 0 <= k < i ==> #[trigger] r@[k].deep_view() == vm[k],
    {
        proof {
            assert(vm[i as int] == v@[i as int].deep_view());
        }
        r.push(v[i].clone());
    }
    proof {
        assert forall|k: int| 0 <= k < r@.len() implies r.deep_view()[k] == vm[k] by {
            assert(r.deep_view()[k] == r@[k].deep_view());
        }
        assert(r.deep_view() =~= vm);
    }
    r
}

/// Emits one record type per case of the union, in declaration order.
pub fn generate_records(u: &UnionDefinition) -> (r: Vec<RecordOutput>)
    ensures
        r.deep_view() == spec_records(
            u.deep_view().cases,
            u.deep_view().shared_attrs,
            u.deep_view().vis,
        ),
{
    let ghost um = u.deep_view();
    let ghost s = spec_records(um.cases, um.shared_attrs, um.vis);
    let mut r: Vec<RecordOutput> = Vec::new();
    let n = u.cases.len();
    for i in 0..n
        invariant
            n == u.cases.len(),
            um == u.deep_view(),
            s == spec_records(um.cases, um.shared_attrs, um.vis),
            r@.len() == i,
            forall|k: int| 0 <= k < i ==> #[trigger] r@[k].deep_view() == s[k],
    {
        proof {
            assert(um.cases[i as int] == u.cases@[i as int].deep_view());
        }
        let c = &u.cases[i];
        let id_const = match c.disc {
            crate::ast::CaseDiscriminant::Value(v) => Some(v),
            crate::ast::CaseDiscriminant::Wildcard => None,
        };
        r.push(
            RecordOutput {
                attrs: clone_attrs(&u.shared_attrs),
                vis: u.vis.clone(),
                name: c.name.clone(),
                fields: clone_fields(&c.fields),
                id_const,
            },
        );
        proof {
            assert(r@[i as int].deep_view() == s[i as int]);
        }
    }
    proof {
        assert forall|k: int| 0 <= k < r@.len() implies r.deep_view()[k] == s[k] by {
            assert(r.deep_view()[k] == r@[k].deep_view());
        }
        assert(r.deep_view() =~= s);
    }
    r
}

/// Regenerates the union type itself: same name, visibility and attributes,
/// one alternative per case wrapping that case's record type.
pub fn generate_union_decl(u: &UnionDefinition) -> (r: UnionOutput)
    ensures
        r.deep_view() == spec_union_decl(u.deep_view()),
{
    let ghost um = u.deep_view();
    let mut alternatives: Vec<String> = Vec::new();
    let n = u.cases.len();
    for i in 0..n
        invariant
            n == u.cases.len(),
            um == u.deep_view(),
            alternatives@.len() == i,
            forall|k: int| 0 <= k < i ==> #[trigger] alternatives@[k]@ == um.cases[k].name,
    {
        proof {
            assert(um.cases[i as int] == u.cases@[i as int].deep_view());
        }
        alternatives.push(u.cases[i].name.clone());
    }
    let r = UnionOutput {
        own_attrs: clone_strings(&u.own_attrs),
        vis: u.vis.clone(),
        name: u.name.clone(),
        alternatives,
    };
    proof {
        let alts = Seq::new(um.cases.len(), |i: int| um.cases[i].name);
        assert forall|k: int| 0 <= k < r.alternatives@.len() implies r.alternatives.deep_view()[k]
            == alts[k] by {
            assert(r.alternatives.deep_view()[k] == r.alternatives@[k].deep_view());
        }
        assert(r.alternatives.deep_view() =~= alts);
        assert(r.deep_view() =~= spec_union_decl(um));
    }
    r
}

/// How many generated records carry a discriminant constant.
pub open spec fn id_const_count(rs: Seq<RecordModel>) -> nat
    decreases rs.len(),
{
    if rs.len() == 0 {
        0
    } else {
        id_const_count(rs.drop_last()) + (if rs.last().id_const is Some {
            1nat
        } else {
            0nat
        })
    }
}

/// Record generation is exhaustive and counts constants exactly: a case list
/// yields one record per case, and the records carrying a discriminant
/// constant are exactly the cases that are no wildcard.
pub proof fn lemma_record_counts(
    cs: Seq<CaseModel>,
    attrs: Seq<SharedAttrModel>,
    vis: Seq<char>,
)
    ensures
        spec_records(cs, attrs, vis).len() == cs.len(),
        id_const_count(spec_records(cs, attrs, vis)) + wildcard_count(cs) == cs.len(),
    decreases cs.len(),
{
    if cs.len() > 0 {
        lemma_record_counts(cs.drop_last(), attrs, vis);
        assert(spec_records(cs, attrs, vis).drop_last() =~= spec_records(
            cs.drop_last(),
            attrs,
            vis,
        ));
        assert(spec_records(cs, attrs, vis).last() == spec_record(cs.last(), attrs, vis));
    }
}

/// For a union of N cases, exactly one of them the wildcard, the generator
/// emits exactly N record types and exactly N - 1 discriminant constants.
pub proof fn lemma_one_wildcard_record_counts(
    cs: Seq<CaseModel>,
    attrs: Seq<SharedAttrModel>,
    vis: Seq<char>,
)
    requires
        wildcard_count(cs) == 1,
    ensures
        spec_records(cs, attrs, vis).len() == cs.len(),
        id_const_count(spec_records(cs, attrs, vis)) == cs.len() - 1,
{
    lemma_record_counts(cs, attrs, vis);
}

} // verus!
