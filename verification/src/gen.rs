//! The generator's entry points, one per host-facing request: define a union
//! (parse its shared attributes and cases, register it, flush what waited),
//! or ask for a dispatcher by discriminant or by value.
use vstd::prelude::*;
use crate::DispatchMode;
use crate::ast::{
    CaseAttr, CaseAttrModel, CaseDefinition, CaseModel, FieldDef, FieldModel, SharedAttrModel,
    UnionDefinition, UnionModel,
};
use crate::attr::{parse_case, parse_gen_args, spec_parse_args, spec_parse_case};
use crate::error::GenError;
use crate::matcher::DispatchOutput;
use crate::output::clone_fields;
use crate::registry::{
    GenOutput, GenOutputModel, GlobalState, StateModel, spec_register, spec_request, state_wf,
};
use crate::result_model;
use crate::token::{Token, TokenModel};

verus! {

/// One case of a union definition as the lexer hands it over: its name, its
/// ordered fields, and its annotations, not yet parsed.
#[derive(Debug, PartialEq, Eq)]
pub struct VariantInput {
    pub name: String,
    pub fields: Vec<FieldDef>,
    pub attrs: Vec<CaseAttr>,
}

/// The mathematical value of one unparsed case.
#[verifier::ext_equal]
pub struct VariantModel {
    pub name: Seq<char>,
    pub fields: Seq<FieldModel>,
    pub attrs: Seq<CaseAttrModel>,
}

impl DeepView for VariantInput {
    type V = VariantModel;

    open spec fn deep_view(&self) -> VariantModel {
        VariantModel {
            name: self.name@,
            fields: self.fields.deep_view(),
            attrs: self.attrs.deep_view(),
        }
    }
}

/// What parsing every case of a union yields, in declaration order; the first
/// failure aborts the whole definition.
pub open spec fn spec_parse_cases(vs: Seq<VariantModel>) -> Result<Seq<CaseModel>, GenError>
    decreases vs.len(),
{
    if vs.len() == 0 {
        Ok(Seq::empty())
    } else {
        match spec_parse_case(vs[0].name, vs[0].fields, vs[0].attrs) {
            Err(e) => Err(e),
            Ok(c) => match spec_parse_cases(vs.drop_first()) {
                Err(e) => Err(e),
                Ok(rest) => Ok(seq![c] + rest),
            },
        }
    }
}

/// What defining a union does and yields: the shared-attribute arguments are
/// parsed, then every case, then the union is registered — which emits its
/// records and union type and expands every dispatch request waiting for it.
pub open spec fn spec_enum_gen(
    s: StateModel,
    name: Seq<char>,
    vis: Seq<char>,
    own_attrs: Seq<Seq<char>>,
    args: Seq<TokenModel>,
    variants: Seq<VariantModel>,
) -> (StateModel, Result<GenOutputModel, GenError>) {
    match spec_parse_args(args) {
        Err(e) => (s, Err(e)),
        Ok(shared) => match spec_parse_cases(variants) {
            Err(e) => (s, Err(e)),
            Ok(cases) => spec_register(
                s,
                UnionModel { name, vis, own_attrs, shared_attrs: shared, cases },
            ),
        },
    }
}

/// Defines a union: parses the shared-attribute arguments and every case,
/// registers the definition under its name, and returns the generated records,
/// the regenerated union type, and the expansions of every dispatch request
/// that was waiting for this union.
pub fn enum_gen(
    state: &mut GlobalState,
    name: String,
    vis: String,
    own_attrs: Vec<String>,
    args: &Vec<Token>,
    variants: &Vec<VariantInput>,
) -> (r: Result<GenOutput, GenError>)
    requires
        state_wf(old(state).model()),
    ensures
        state_wf(final(state).model()),
        final(state).model() == spec_enum_gen(
            old(state).model(),
            name@,
            vis@,
            own_attrs.deep_view(),
            args.deep_view(),
            variants.deep_view(),
        ).0,
        result_model(r) == spec_enum_gen(
            old(state).model(),
            name@,
            vis@,
            own_attrs.deep_view(),
            args.deep_view(),
            variants.deep_view(),
        ).1,
{
    let ghost s0 = state.model();
    let ghost vm = variants.deep_view();
    let shared_attrs = match parse_gen_args(args) {
        Ok(a) => a,
        Err(e) => {
            return Err(e);
        },
    };
    let n = variants.len();
    let mut cases: Vec<CaseDefinition> = Vec::new();
    proof {
        assert(vm.skip(0) =~= vm);
        assert(cases.deep_view() + spec_parse_cases(vm)->Ok_0 =~= spec_parse_cases(vm)->Ok_0);
    }
    for i in 0..n
        invariant
            n == variants@.len(),
            vm == variants.deep_view(),
            s0 == state.model(),
            s0 == old(state).model(),
            state_wf(s0),
            spec_parse_args(args.deep_view()) == Ok::<Seq<SharedAttrModel>, GenError>(
                shared_attrs.deep_view(),
            ),
            spec_parse_cases(vm) == (match spec_parse_cases(vm.skip(i as int)) {
                Ok(rest) => Ok::<Seq<CaseModel>, GenError>(cases.deep_view() + rest),
                Err(e) => Err(e),
            }),
    {
        proof {
            assert(vm.skip(i as int)[0] == vm[i as int]);
            assert(vm[i as int] == variants@[i as int].deep_view());
        }
        let ghost pre = cases.deep_view();
        let v = &variants[i];
        match parse_case(v.name.clone(), clone_fields(&v.fields), &v.attrs) {
            Ok(c) => {
                cases.push(c);
                proof {
                    assert(vm.skip(i as int).drop_first() =~= vm.skip(i + 1));
                    let cmodel = cases.deep_view().last();
                    assert(cases.deep_view() =~= pre.push(cmodel));
                    assert forall|rest: Seq<CaseModel>| true implies pre + (seq![cmodel] + rest)
                        =~= cases.deep_view() + rest by {}
                }
            },
            Err(e) => {
                return Err(e);
            },
        }
    }
    proof {
        assert(vm.skip(n as int) =~= Seq::<VariantModel>::empty());
        assert(cases.deep_view() + Seq::<CaseModel>::empty() =~= cases.deep_view());
    }
    let u = UnionDefinition { name, vis, own_attrs, shared_attrs, cases };
    state.register_union(u)
}

/// Asks for a dispatcher that branches on the numeric discriminant, the
/// wildcard case as its catch-all arm. Where the union is not yet known the
/// request is queued for replay at registration.
pub fn enum_gen_match_id(state: &mut GlobalState, union_name: String, template: Vec<Token>) -> (r: Result<
    Option<DispatchOutput>,
    GenError,
>)
    requires
        state_wf(old(state).model()),
    ensures
        state_wf(final(state).model()),
        final(state).model() == spec_request(
            old(state).model(),
            union_name@,
            DispatchMode::ByDiscriminant,
            template.deep_view(),
        ).0,
        result_model(r) == spec_request(
            old(state).model(),
            union_name@,
            DispatchMode::ByDiscriminant,
            template.deep_view(),
        ).1,
{
    state.request_dispatch(union_name, DispatchMode::ByDiscriminant, template)
}

/// Asks for a dispatcher that branches on the union value itself, every case
/// — the wildcard included — as a structural arm. Where the union is not yet
/// known the request is queued for replay at registration.
pub fn enum_gen_match_self(state: &mut GlobalState, union_name: String, template: Vec<Token>) -> (r: Result<
    Option<DispatchOutput>,
    GenError,
>)
    requires
        state_wf(old(state).model()),
    ensures
        state_wf(final(state).model()),
        final(state).model() == spec_request(
            old(state).model(),
            union_name@,
            DispatchMode::ByValue,
            template.deep_view(),
        ).0,
        result_model(r) == spec_request(
            old(state).model(),
            union_name@,
            DispatchMode::ByValue,
            template.deep_view(),
        ).1,
{
    state.request_dispatch(union_name, DispatchMode::ByValue, template)
}

} // verus!
