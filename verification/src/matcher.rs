//! The dispatch generator: turns a resolved case list, a dispatch mode and a
//! code template into a selector with one arm per case.
//!
//! In discriminant mode the wildcard case becomes the catch-all arm and is
//! always emitted last, whatever its declaration position; all other arms keep
//! declaration order. In value mode every case, the wildcard included, gets a
//! structural arm on its own record type. Every arm carries a verbatim copy of
//! the template's body, to run under two per-arm aliases: the case's record
//! type and the union's alternative for that case.
use vstd::prelude::*;
use crate::DispatchMode;
use crate::ast::{CaseDefinition, CaseDiscriminant, CaseModel, UnionDefinition, UnionModel,
    wildcard_count};
use crate::error::GenError;
use crate::result_model;
use crate::token::{Token, TokenModel};

verus! {

/// How one selector arm matches.
#[derive(Debug, PartialEq, Eq)]
pub enum ArmPattern {
    /// `<n> =>`: matches the numeric discriminant.
    Discriminant(usize),
    /// `_ =>`: the catch-all arm of discriminant dispatch.
    CatchAll,
    /// `<Union>::<Case>(inner) =>`: matches the union alternative itself and
    /// binds its record payload.
    Alternative(String),
}

/// The mathematical value of an arm pattern.
#[verifier::ext_equal]
pub enum ArmPatternModel {
    Discriminant(usize),
    CatchAll,
    Alternative(Seq<char>),
}

impl DeepView for ArmPattern {
    type V = ArmPatternModel;

    open spec fn deep_view(&self) -> ArmPatternModel {
        match self {
            ArmPattern::Discriminant(n) => ArmPatternModel::Discriminant(*n),
            ArmPattern::CatchAll => ArmPatternModel::CatchAll,
            ArmPattern::Alternative(s) => ArmPatternModel::Alternative(s@),
        }
    }
}

/// One selector arm: its pattern, the case it aliases, and a verbatim copy of
/// the template body.
#[derive(Debug, PartialEq, Eq)]
pub struct DispatchArm {
    pub pattern: ArmPattern,
    pub case_name: String,
    pub body: String,
}

/// The mathematical value of a selector arm.
#[verifier::ext_equal]
pub struct ArmModel {
    pub pattern: ArmPatternModel,
    pub case_name: Seq<char>,
    pub body: Seq<char>,
}

impl DeepView for DispatchArm {
    type V = ArmModel;

    open spec fn deep_view(&self) -> ArmModel {
        ArmModel { pattern: self.pattern.deep_view(), case_name: self.case_name@, body: self.body@ }
    }
}

/// One expanded dispatch function: the enclosing declaration rebuilt around a
/// selector over the given mode, with one arm per case.
#[derive(Debug, PartialEq, Eq)]
pub struct DispatchOutput {
    pub mode: DispatchMode,
    pub union_name: String,
    pub header: Vec<Token>,
    pub arms: Vec<DispatchArm>,
}

/// The mathematical value of an expanded dispatch function.
#[verifier::ext_equal]
pub struct DispatchModel {
    pub mode: DispatchMode,
    pub union_name: Seq<char>,
    pub header: Seq<TokenModel>,
    pub arms: Seq<ArmModel>,
}

impl DeepView for DispatchOutput {
    type V = DispatchModel;

    open spec fn deep_view(&self) -> DispatchModel {
        DispatchModel {
            mode: self.mode,
            union_name: self.union_name@,
            header: self.header.deep_view(),
            arms: self.arms.deep_view(),
        }
    }
}

/// The arm one case produces: keyed by its discriminant in discriminant mode
/// (the wildcard as catch-all), a structural pattern on the case itself in
/// value mode; the body is the template body verbatim.
pub open spec fn spec_arm(c: CaseModel, mode: DispatchMode, body: Seq<char>) -> ArmModel {
    ArmModel {
        pattern: match mode {
            DispatchMode::ByDiscriminant => match c.disc {
                CaseDiscriminant::Value(n) => ArmPatternModel::Discriminant(n),
                CaseDiscriminant::Wildcard => ArmPatternModel::CatchAll,
            },
            DispatchMode::ByValue => ArmPatternModel::Alternative(c.name),
        },
        case_name: c.name,
        body,
    }
}

/// The cases that are no wildcard, in declaration order.
pub open spec fn nonwild(cs: Seq<CaseModel>) -> Seq<CaseModel>
    decreases cs.len(),
{
    if cs.len() == 0 {
        Seq::empty()
    } else {
        let rest = nonwild(cs.drop_last());
        if cs.last().disc is Wildcard {
            rest
        } else {
            rest.push(cs.last())
        }
    }
}

/// The first wildcard case of a list.
pub open spec fn first_wildcard(cs: Seq<CaseModel>) -> CaseModel
    decreases cs.len(),
{
    if cs.len() == 0 {
        arbitrary()
    } else if cs[0].disc is Wildcard {
        cs[0]
    } else {
        first_wildcard(cs.drop_first())
    }
}

/// The wildcard case found by a forward scan is the one `first_wildcard`
/// speaks of.
pub proof fn lemma_first_wildcard(cs: Seq<CaseModel>, j: int)
    requires
        0 <= j < cs.len(),
        cs[j].disc is Wildcard,
        forall|k: int| 0 <= k < j ==> !((#[trigger] cs[k].disc) is Wildcard),
    ensures
        first_wildcard(cs) == cs[j],
    decreases j,
{
    if j > 0 {
        lemma_first_wildcard(cs.drop_first(), j - 1);
    }
}

/// Dropping the wildcards drops exactly `wildcard_count` cases.
pub proof fn lemma_nonwild_len(cs: Seq<CaseModel>)
    ensures
        nonwild(cs).len() + wildcard_count(cs) == cs.len(),
    decreases cs.len(),
{
    if cs.len() > 0 {
        lemma_nonwild_len(cs.drop_last());
    }
}

/// The arms of one dispatch expansion: the non-wildcard cases in declaration
/// order, then the wildcard case last.
pub open spec fn spec_arms(cs: Seq<CaseModel>, mode: DispatchMode, body: Seq<char>) -> Seq<
    ArmModel,
> {
    Seq::new(nonwild(cs).len(), |i: int| spec_arm(nonwild(cs)[i], mode, body)).push(
        spec_arm(first_wildcard(cs), mode, body),
    )
}

/// What expanding one dispatch request against a resolved union yields. The
/// template must end in a delimited group — the body hole — and the case list
/// must carry exactly one wildcard.
pub open spec fn spec_expand(u: UnionModel, mode: DispatchMode, template: Seq<TokenModel>) -> Result<
    DispatchModel,
    GenError,
> {
    if template.len() == 0 {
        Err(GenError::MissingBody)
    } else {
        match template.last() {
            TokenModel::Group(_, body) => if wildcard_count(u.cases) == 0 {
                Err(GenError::MissingDefault)
            } else if wildcard_count(u.cases) > 1 {
                Err(GenError::DuplicateDefault)
            } else {
                Ok(
                    DispatchModel {
                        mode,
                        union_name: u.name,
                        header: template.drop_last(),
                        arms: spec_arms(u.cases, mode, body),
                    },
                )
            },
            _ => Err(GenError::MissingBody),
        }
    }
}

/// Builds the arm of one case.
fn make_arm(c: &CaseDefinition, mode: DispatchMode, body: &String) -> (a: DispatchArm)
    ensures
        a.deep_view() == spec_arm(c.deep_view(), mode, body@),
{
    let pattern = match mode {
        DispatchMode::ByDiscriminant => match c.disc {
            CaseDiscriminant::Value(n) => ArmPattern::Discriminant(n),
            CaseDiscriminant::Wildcard => ArmPattern::CatchAll,
        },
        DispatchMode::ByValue => ArmPattern::Alternative(c.name.clone()),
    };
    DispatchArm { pattern, case_name: c.name.clone(), body: body.clone() }
}

/// Expands one dispatch request against a resolved union: pops the template's
/// trailing body group, demands exactly one wildcard case, and emits the
/// selector arms — non-wildcard cases in declaration order, the wildcard last.
pub fn expand_dispatch(u: &UnionDefinition, mode: DispatchMode, template: Vec<Token>) -> (r: Result<
    DispatchOutput,
    GenError,
>)
    ensures
        result_model(r) == spec_expand(u.deep_view(), mode, template.deep_view()),
{
    let ghost um = u.deep_view();
    let ghost tm = template.deep_view();
    let mut header = template;
    let body_tok = match header.pop() {
        Some(t) => t,
        None => {
            return Err(GenError::MissingBody);
        },
    };
    proof {
        assert(tm[tm.len() - 1] == body_tok.deep_view());
    }
    let body = match body_tok {
        Token::Group(_, c) => c,
        _ => {
            return Err(GenError::MissingBody);
        },
    };
    let ghost bodym = body@;
    let ghost cm = um.cases;
    let n = u.cases.len();

    // Locate the single wildcard case.
    let mut count: usize = 0;
    let mut first: usize = n;
    for i in 0..n
        invariant
            n == u.cases.len(),
            um == u.deep_view(),
            cm == um.cases,
            count == wildcard_count(cm.take(i as int)),
            count <= i,
            count == 0 ==> first == n && (forall|k: int|
                0 <= k < i ==> !((#[trigger] cm[k].disc) is Wildcard)),
            count > 0 ==> first < i && cm[first as int].disc is Wildcard && (forall|k: int|
                0 <= k < first ==> !((#[trigger] cm[k].disc) is Wildcard)),
    {
        proof {
            assert(cm[i as int] == u.cases@[i as int].deep_view());
            assert(cm.take(i + 1).drop_last() =~= cm.take(i as int));
            assert(cm.take(i + 1).last() == cm[i as int]);
        }
        let is_wild = matches!(u.cases[i].disc, CaseDiscriminant::Wildcard);
        if is_wild {
            if count == 0 {
                first = i;
            }
            count = count + 1;
        }
    }
    proof {
        assert(cm.take(n as int) =~= cm);
    }
    if count == 0 {
        return Err(GenError::MissingDefault);
    }
    if count > 1 {
        return Err(GenError::DuplicateDefault);
    }
    proof {
        lemma_first_wildcard(cm, first as int);
    }

    // Non-wildcard arms, in declaration order.
    let mut arms: Vec<DispatchArm> = Vec::new();
    proof {
        assert(cm.take(0) =~= Seq::<CaseModel>::empty());
    }
    for i in 0..n
        invariant
            n == u.cases.len(),
            um == u.deep_view(),
            cm == um.cases,
            bodym == body@,
            arms@.len() == nonwild(cm.take(i as int)).len(),
            forall|k: int| 0 <= k < arms@.len() ==> #[trigger] arms@[k].deep_view() == spec_arm(
                nonwild(cm.take(i as int))[k],
                mode,
                bodym,
            ),
    {
        proof {
            assert(cm[i as int] == u.cases@[i as int].deep_view());
            assert(cm.take(i + 1).drop_last() =~= cm.take(i as int));
            assert(cm.take(i + 1).last() == cm[i as int]);
        }
        let c = &u.cases[i];
        match c.disc {
            CaseDiscriminant::Wildcard => {
                proof {
                    assert(nonwild(cm.take(i + 1)) == nonwild(cm.take(i as int)));
                }
            },
            CaseDiscriminant::Value(_) => {
                arms.push(make_arm(c, mode, &body));
                proof {
                    assert(nonwild(cm.take(i + 1)) == nonwild(cm.take(i as int)).push(
                        cm[i as int],
                    ));
                }
            },
        }
    }
    proof {
        assert(cm.take(n as int) =~= cm);
    }

    // The wildcard arm comes last.
    let wild_arm = make_arm(&u.cases[first], mode, &body);
    arms.push(wild_arm);

    let out = DispatchOutput { mode, union_name: u.name.clone(), header, arms };
    proof {
        let arms_spec = spec_arms(cm, mode, bodym);
        assert forall|k: int| 0 <= k < out.arms@.len() implies out.arms.deep_view()[k]
            == arms_spec[k] by {
            assert(out.arms.deep_view()[k] == out.arms@[k].deep_view());
        }
        assert(out.arms.deep_view() =~= arms_spec);
        assert forall|k: int| 0 <= k < out.header@.len() implies out.header.deep_view()[k]
            == tm.drop_last()[k] by {
            assert(out.header.deep_view()[k] == out.header@[k].deep_view());
        }
        assert(out.header.deep_view() =~= tm.drop_last());
        assert(out.deep_view() =~= spec_expand(um, mode, tm)->Ok_0);
    }
    Ok(out)
}

/// In discriminant mode the selector's arms are: one `Discriminant` arm per
/// non-wildcard case, in declaration order, then the wildcard case as the
/// catch-all arm, last — whatever position the wildcard was declared at.
pub proof fn lemma_by_discriminant_arm_order(cs: Seq<CaseModel>, body: Seq<char>)
    requires
        wildcard_count(cs) == 1,
    ensures
        ({
            let arms = spec_arms(cs, DispatchMode::ByDiscriminant, body);
            let nw = nonwild(cs);
            &&& arms.len() == cs.len()
            &&& arms.last() == spec_arm(first_wildcard(cs), DispatchMode::ByDiscriminant, body)
            &&& arms.last().pattern is CatchAll
            &&& forall|i: int| 0 <= i < nw.len() ==> #[trigger] arms[i] == spec_arm(
                nw[i],
                DispatchMode::ByDiscriminant,
                body,
            )
            &&& forall|i: int| 0 <= i < arms.len() - 1 ==> (#[trigger] arms[i].pattern)
                is Discriminant
        }),
{
    lemma_nonwild_len(cs);
    lemma_first_wildcard_is_wild(cs);
    let nw = nonwild(cs);
    let arms = spec_arms(cs, DispatchMode::ByDiscriminant, body);
    lemma_nonwild_no_wildcards(cs);
    assert forall|i: int| 0 <= i < arms.len() - 1 implies (#[trigger] arms[i].pattern)
        is Discriminant by {
        assert(arms[i] == spec_arm(nw[i], DispatchMode::ByDiscriminant, body));
        assert(!(nw[i].disc is Wildcard));
    }
}

/// No case `nonwild` keeps is a wildcard.
pub proof fn lemma_nonwild_no_wildcards(cs: Seq<CaseModel>)
    ensures
        forall|i: int| 0 <= i < nonwild(cs).len() ==> !((#[trigger] nonwild(cs)[i].disc)
            is Wildcard),
    decreases cs.len(),
{
    if cs.len() > 0 {
        lemma_nonwild_no_wildcards(cs.drop_last());
    }
}

/// Where the case list holds a wildcard at all, `first_wildcard` names a
/// wildcard case.
pub proof fn lemma_first_wildcard_is_wild(cs: Seq<CaseModel>)
    requires
        wildcard_count(cs) >= 1,
    ensures
        first_wildcard(cs).disc is Wildcard,
    decreases cs.len(),
{
    if cs.len() > 0 {
        if cs[0].disc is Wildcard {
        } else {
            lemma_wildcard_count_drop_first(cs);
            lemma_first_wildcard_is_wild(cs.drop_first());
        }
    }
}

/// Dropping a leading non-wildcard case keeps the wildcard count.
proof fn lemma_wildcard_count_drop_first(cs: Seq<CaseModel>)
    requires
        cs.len() > 0,
        !(cs[0].disc is Wildcard),
    ensures
        wildcard_count(cs.drop_first()) == wildcard_count(cs),
    decreases cs.len(),
{
    if cs.len() == 1 {
        assert(cs.drop_first() =~= Seq::<CaseModel>::empty());
        assert(cs.drop_last() =~= Seq::<CaseModel>::empty());
    } else {
        assert(cs.drop_last()[0] == cs[0]);
        lemma_wildcard_count_drop_first(cs.drop_last());
        assert(cs.drop_first().drop_last() =~= cs.drop_last().drop_first());
        assert(cs.drop_first().last() == cs.last());
    }
}

/// In value mode every case, the wildcard included, produces a structural arm
/// on its own record type; no arm is a numeric or catch-all fallback.
pub proof fn lemma_by_value_arms_structural(cs: Seq<CaseModel>, body: Seq<char>)
    requires
        wildcard_count(cs) == 1,
    ensures
        ({
            let arms = spec_arms(cs, DispatchMode::ByValue, body);
            &&& arms.len() == cs.len()
            &&& forall|i: int| 0 <= i < arms.len() ==> (#[trigger] arms[i].pattern)
                == ArmPatternModel::Alternative(arms[i].case_name)
        }),
{
    lemma_nonwild_len(cs);
}

/// Every arm of an expansion carries the template's body verbatim.
pub proof fn lemma_arms_share_body(cs: Seq<CaseModel>, mode: DispatchMode, body: Seq<char>)
    ensures
        forall|i: int| 0 <= i < spec_arms(cs, mode, body).len() ==> (#[trigger] spec_arms(
            cs,
            mode,
            body,
        )[i].body) == body,
{
}

} // verus!
