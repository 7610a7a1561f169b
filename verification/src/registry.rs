//! The union registry and orchestrator: a process-scoped service coordinating
//! out-of-order "define this union" and "generate a dispatcher" requests.
//!
//! `register_union` stores a definition, then dequeues and expands — in
//! arrival order — every dispatch request waiting under that name.
//! `request_dispatch` expands immediately where the union is known, and
//! otherwise queues the request and yields nothing. A request whose union is
//! never registered silently never yields output; that sharp edge is kept
//! deliberately.
use vstd::prelude::*;
use crate::DispatchMode;
use crate::ast::{
    CaseDiscriminant, CaseModel, UnionDefinition, UnionModel, dup_value_pair, has_duplicate_value,
    valid_cases, wildcard_count,
};
use crate::error::{ErrorClass, GenError, spec_class_of};
use crate::matcher::{DispatchModel, DispatchOutput, expand_dispatch, spec_expand};
use crate::output::{
    RecordModel, RecordOutput, UnionOutModel, UnionOutput, generate_records, generate_union_decl,
    spec_records, spec_union_decl,
};
use crate::result_model;
use crate::text::str_eq;
use crate::token::{Token, TokenModel, clone_tokens};

verus! {

/// One dispatch request: its mode and its code template — the enclosing
/// declaration whose trailing delimited group is the shared body.
#[derive(Debug, PartialEq, Eq)]
pub struct DispatchRequest {
    pub mode: DispatchMode,
    pub template: Vec<Token>,
}

/// The mathematical value of a dispatch request.
#[verifier::ext_equal]
pub struct RequestModel {
    pub mode: DispatchMode,
    pub template: Seq<TokenModel>,
}

impl DeepView for DispatchRequest {
    type V = RequestModel;

    open spec fn deep_view(&self) -> RequestModel {
        RequestModel { mode: self.mode, template: self.template.deep_view() }
    }
}

/// The dispatch requests waiting for one union, in arrival order.
#[derive(Debug, PartialEq, Eq)]
pub struct PendingQueue {
    pub union_name: String,
    pub requests: Vec<DispatchRequest>,
}

/// The mathematical value of one pending queue.
#[verifier::ext_equal]
pub struct QueueModel {
    pub name: Seq<char>,
    pub requests: Seq<RequestModel>,
}

impl DeepView for PendingQueue {
    type V = QueueModel;

    open spec fn deep_view(&self) -> QueueModel {
        QueueModel { name: self.union_name@, requests: self.requests.deep_view() }
    }
}

/// Everything one registration emits: the regenerated union type, one record
/// type per case, and the expansions of every dispatch request that was
/// waiting for this union, in arrival order.
#[derive(Debug, PartialEq, Eq)]
pub struct GenOutput {
    pub union_decl: UnionOutput,
    pub records: Vec<RecordOutput>,
    pub flushed: Vec<DispatchOutput>,
}

/// The mathematical value of a registration's output.
#[verifier::ext_equal]
pub struct GenOutputModel {
    pub union_decl: UnionOutModel,
    pub records: Seq<RecordModel>,
    pub flushed: Seq<DispatchModel>,
}

impl DeepView for GenOutput {
    type V = GenOutputModel;

    open spec fn deep_view(&self) -> GenOutputModel {
        GenOutputModel {
            union_decl: self.union_decl.deep_view(),
            records: self.records.deep_view(),
            flushed: self.flushed.deep_view(),
        }
    }
}

/// The mathematical value of the whole registry.
#[verifier::ext_equal]
pub struct StateModel {
    pub unions: Seq<UnionModel>,
    pub pending: Seq<QueueModel>,
}

/// The registry's invariant: registered names unique, queue names unique, and
/// every registered union valid — exactly one wildcard, no duplicate
/// discriminant.
pub open spec fn state_wf(s: StateModel) -> bool {
    &&& forall|i: int, j: int|
        0 <= i < j < s.unions.len() ==> (#[trigger] s.unions[i]).name != (
        #[trigger] s.unions[j]).name
    &&& forall|i: int, j: int|
        0 <= i < j < s.pending.len() ==> (#[trigger] s.pending[i]).name != (
        #[trigger] s.pending[j]).name
    &&& forall|i: int| 0 <= i < s.unions.len() ==> valid_cases((#[trigger] s.unions[i]).cases)
}

/// The first registered union of the given name.
pub open spec fn find_union(us: Seq<UnionModel>, name: Seq<char>) -> Option<UnionModel>
    decreases us.len(),
{
    if us.len() == 0 {
        None
    } else if us[0].name == name {
        Some(us[0])
    } else {
        find_union(us.drop_first(), name)
    }
}

/// The first pending queue of the given name.
pub open spec fn find_queue(qs: Seq<QueueModel>, name: Seq<char>) -> Option<QueueModel>
    decreases qs.len(),
{
    if qs.len() == 0 {
        None
    } else if qs[0].name == name {
        Some(qs[0])
    } else {
        find_queue(qs.drop_first(), name)
    }
}

/// The queues left after the one of the given name is taken out; where none
/// carries the name, the queues unchanged.
pub open spec fn remove_queue(qs: Seq<QueueModel>, name: Seq<char>) -> Seq<QueueModel>
    decreases qs.len(),
{
    if qs.len() == 0 {
        qs
    } else if qs[0].name == name {
        qs.drop_first()
    } else {
        seq![qs[0]] + remove_queue(qs.drop_first(), name)
    }
}

/// The queues after one request is appended under the given name: to the
/// first queue of that name, or as a new queue at the end.
pub open spec fn append_req(qs: Seq<QueueModel>, name: Seq<char>, r: RequestModel) -> Seq<
    QueueModel,
>
    decreases qs.len(),
{
    if qs.len() == 0 {
        seq![QueueModel { name, requests: seq![r] }]
    } else if qs[0].name == name {
        seq![QueueModel { name: qs[0].name, requests: qs[0].requests.push(r) }] + qs.drop_first()
    } else {
        seq![qs[0]] + append_req(qs.drop_first(), name, r)
    }
}

/// Whether a template has the shape an expansion needs: it ends in a
/// delimited group, the body hole.
pub open spec fn template_ok(t: Seq<TokenModel>) -> bool {
    t.len() > 0 && t.last() is Group
}

/// The expansions of a request list against one union, in order; the first
/// failure aborts the whole list.
pub open spec fn expand_all(u: UnionModel, reqs: Seq<RequestModel>) -> Result<
    Seq<DispatchModel>,
    GenError,
>
    decreases reqs.len(),
{
    if reqs.len() == 0 {
        Ok(Seq::empty())
    } else {
        match spec_expand(u, reqs[0].mode, reqs[0].template) {
            Err(e) => Err(e),
            Ok(o) => match expand_all(u, reqs.drop_first()) {
                Err(e) => Err(e),
                Ok(rest) => Ok(seq![o] + rest),
            },
        }
    }
}

/// What registering a union does to the registry and yields: a duplicate name
/// or an invalid case list changes nothing and fails; otherwise the
/// definition is stored, its records and union type are emitted, and every
/// pending request under the name is expanded in arrival order and its queue
/// taken out. A malformed pending template aborts the whole registration.
pub open spec fn spec_register(s: StateModel, u: UnionModel) -> (StateModel, Result<
    GenOutputModel,
    GenError,
>) {
    if find_union(s.unions, u.name) is Some {
        (s, Err(GenError::DuplicateUnion))
    } else if has_duplicate_value(u.cases) {
        (s, Err(GenError::DuplicateDiscriminant))
    } else if wildcard_count(u.cases) == 0 {
        (s, Err(GenError::MissingDefault))
    } else if wildcard_count(u.cases) > 1 {
        (s, Err(GenError::DuplicateDefault))
    } else {
        let reqs = match find_queue(s.pending, u.name) {
            Some(q) => q.requests,
            None => Seq::empty(),
        };
        match expand_all(u, reqs) {
            Err(e) => (s, Err(e)),
            Ok(flushed) => (
                StateModel { unions: s.unions.push(u), pending: remove_queue(s.pending, u.name) },
                Ok(
                    GenOutputModel {
                        union_decl: spec_union_decl(u),
                        records: spec_records(u.cases, u.shared_attrs, u.vis),
                        flushed,
                    },
                ),
            ),
        }
    }
}

/// What a dispatch request does to the registry and yields: a missing name
/// fails; a registered union is expanded at once; an unknown one has the
/// request queued, and the call yields nothing.
pub open spec fn spec_request(
    s: StateModel,
    name: Seq<char>,
    mode: DispatchMode,
    template: Seq<TokenModel>,
) -> (StateModel, Result<Option<DispatchModel>, GenError>) {
    if name.len() == 0 {
        (s, Err(GenError::MissingArgument))
    } else {
        match find_union(s.unions, name) {
            Some(u) => (
                s,
                match spec_expand(u, mode, template) {
                    Ok(o) => Ok(Some(o)),
                    Err(e) => Err(e),
                },
            ),
            None => (
                StateModel {
                    unions: s.unions,
                    pending: append_req(s.pending, name, RequestModel { mode, template }),
                },
                Ok(None),
            ),
        }
    }
}

/// A forward scan settles what `find_union` yields: the first hit, or nothing
/// where no name matches.
proof fn lemma_find_union_at(us: Seq<UnionModel>, name: Seq<char>, j: int)
    requires
        0 <= j < us.len(),
        us[j].name == name,
        forall|k: int| 0 <= k < j ==> (#[trigger] us[k]).name != name,
    ensures
        find_union(us, name) == Some(us[j]),
    decreases j,
{
    if j > 0 {
        lemma_find_union_at(us.drop_first(), name, j - 1);
    }
}

/// Where no registered name matches, `find_union` yields nothing, and the
/// other way round.
proof fn lemma_find_union_none(us: Seq<UnionModel>, name: Seq<char>)
    ensures
        (find_union(us, name) is None) <==> (forall|k: int|
            0 <= k < us.len() ==> (#[trigger] us[k]).name != name),
    decreases us.len(),
{
    if us.len() > 0 {
        lemma_find_union_none(us.drop_first(), name);
        assert forall|k: int| 0 <= k < us.drop_first().len() implies #[trigger] us.drop_first()[k]
            == us[k + 1] by {}
        if find_union(us, name) is None {
            assert forall|k: int| 0 <= k < us.len() implies (#[trigger] us[k]).name != name by {
                if k > 0 {
                    assert(us[k] == us.drop_first()[k - 1]);
                }
            }
        }
    }
}

/// A forward scan settles what `find_queue` yields.
proof fn lemma_find_queue_at(qs: Seq<QueueModel>, name: Seq<char>, j: int)
    requires
        0 <= j < qs.len(),
        qs[j].name == name,
        forall|k: int| 0 <= k < j ==> (#[trigger] qs[k]).name != name,
    ensures
        find_queue(qs, name) == Some(qs[j]),
    decreases j,
{
    if j > 0 {
        lemma_find_queue_at(qs.drop_first(), name, j - 1);
    }
}

/// Where no queue name matches, `find_queue` yields nothing, and the other
/// way round.
proof fn lemma_find_queue_none(qs: Seq<QueueModel>, name: Seq<char>)
    ensures
        (find_queue(qs, name) is None) <==> (forall|k: int|
            0 <= k < qs.len() ==> (#[trigger] qs[k]).name != name),
    decreases qs.len(),
{
    if qs.len() > 0 {
        lemma_find_queue_none(qs.drop_first(), name);
        assert forall|k: int| 0 <= k < qs.drop_first().len() implies #[trigger] qs.drop_first()[k]
            == qs[k + 1] by {}
        if find_queue(qs, name) is None {
            assert forall|k: int| 0 <= k < qs.len() implies (#[trigger] qs[k]).name != name by {
                if k > 0 {
                    assert(qs[k] == qs.drop_first()[k - 1]);
                }
            }
        }
    }
}

/// Taking out a name that no queue carries changes nothing.
proof fn lemma_remove_queue_none(qs: Seq<QueueModel>, name: Seq<char>)
    requires
        forall|k: int| 0 <= k < qs.len() ==> (#[trigger] qs[k]).name != name,
    ensures
        remove_queue(qs, name) == qs,
    decreases qs.len(),
{
    if qs.len() > 0 {
        lemma_remove_queue_none(qs.drop_first(), name);
        assert(seq![qs[0]] + qs.drop_first() =~= qs);
    }
}

/// Taking out the name of the queue a forward scan found takes out exactly
/// that queue.
proof fn lemma_remove_queue_at(qs: Seq<QueueModel>, name: Seq<char>, j: int)
    requires
        0 <= j < qs.len(),
        qs[j].name == name,
        forall|k: int| 0 <= k < j ==> (#[trigger] qs[k]).name != name,
    ensures
        remove_queue(qs, name) == qs.remove(j),
    decreases j,
{
    if j == 0 {
        assert(qs.drop_first() =~= qs.remove(0));
    } else {
        lemma_remove_queue_at(qs.drop_first(), name, j - 1);
        assert(seq![qs[0]] + qs.drop_first().remove(j - 1) =~= qs.remove(j));
    }
}

/// Appending under a fresh name opens a new queue at the end.
proof fn lemma_append_req_fresh(qs: Seq<QueueModel>, name: Seq<char>, r: RequestModel)
    requires
        forall|k: int| 0 <= k < qs.len() ==> (#[trigger] qs[k]).name != name,
    ensures
        append_req(qs, name, r) == qs.push(QueueModel { name, requests: seq![r] }),
    decreases qs.len(),
{
    if qs.len() == 0 {
        assert(seq![QueueModel { name, requests: seq![r] }] =~= qs.push(
            QueueModel { name, requests: seq![r] },
        ));
    } else {
        lemma_append_req_fresh(qs.drop_first(), name, r);
        assert(seq![qs[0]] + qs.drop_first().push(QueueModel { name, requests: seq![r] }) =~= qs
            .push(QueueModel { name, requests: seq![r] }));
    }
}

/// Appending under a name a forward scan found updates exactly that queue.
proof fn lemma_append_req_at(qs: Seq<QueueModel>, name: Seq<char>, r: RequestModel, j: int)
    requires
        0 <= j < qs.len(),
        qs[j].name == name,
        forall|k: int| 0 <= k < j ==> (#[trigger] qs[k]).name != name,
    ensures
        append_req(qs, name, r) == qs.update(
            j,
            QueueModel { name: qs[j].name, requests: qs[j].requests.push(r) },
        ),
    decreases j,
{
    let q2 = QueueModel { name: qs[j].name, requests: qs[j].requests.push(r) };
    if j == 0 {
        assert(seq![q2] + qs.drop_first() =~= qs.update(0, q2));
    } else {
        lemma_append_req_at(qs.drop_first(), name, r, j - 1);
        assert(seq![qs[0]] + qs.drop_first().update(j - 1, q2) =~= qs.update(j, q2));
    }
}

/// Where every pending template ends in its body group, the flush of a valid
/// union succeeds, one expansion per request, in order.
proof fn lemma_expand_all_ok(u: UnionModel, reqs: Seq<RequestModel>)
    requires
        wildcard_count(u.cases) == 1,
        forall|k: int| 0 <= k < reqs.len() ==> template_ok((#[trigger] reqs[k]).template),
    ensures
        expand_all(u, reqs) matches Ok(outs) && outs.len() == reqs.len() && (forall|k: int|
            0 <= k < reqs.len() ==> ((spec_expand(u, (#[trigger] reqs[k]).mode, reqs[k].template)
                matches Ok(o)) && expand_all(u, reqs)->Ok_0[k] == spec_expand(
                u,
                reqs[k].mode,
                reqs[k].template,
            )->Ok_0)),
    decreases reqs.len(),
{
    if reqs.len() > 0 {
        lemma_expand_all_ok(u, reqs.drop_first());
        let o0 = spec_expand(u, reqs[0].mode, reqs[0].template)->Ok_0;
        let rest = expand_all(u, reqs.drop_first())->Ok_0;
        assert(expand_all(u, reqs)->Ok_0 == seq![o0] + rest);
        assert forall|k: int| 0 <= k < reqs.len() implies ((spec_expand(
            u,
            (#[trigger] reqs[k]).mode,
            reqs[k].template,
        ) matches Ok(o)) && expand_all(u, reqs)->Ok_0[k] == spec_expand(
            u,
            reqs[k].mode,
            reqs[k].template,
        )->Ok_0) by {
            if k > 0 {
                assert(reqs.drop_first()[k - 1] == reqs[k]);
                assert((seq![o0] + rest)[k] == rest[k - 1]);
            }
        }
    }
}

/// The first malformed pending template aborts the whole flush.
proof fn lemma_expand_all_err(u: UnionModel, reqs: Seq<RequestModel>, j: int)
    requires
        wildcard_count(u.cases) == 1,
        0 <= j < reqs.len(),
        !template_ok(reqs[j].template),
        forall|k: int| 0 <= k < j ==> template_ok((#[trigger] reqs[k]).template),
    ensures
        expand_all(u, reqs) == Err::<Seq<DispatchModel>, GenError>(GenError::MissingBody),
    decreases j,
{
    if j == 0 {
        assert(spec_expand(u, reqs[0].mode, reqs[0].template) == Err::<DispatchModel, GenError>(
            GenError::MissingBody,
        ));
    } else {
        lemma_expand_all_err(u, reqs.drop_first(), j - 1);
    }
}

/// The first index whose union carries the name, by forward scan.
fn find_union_idx(unions: &Vec<UnionDefinition>, name: &str) -> (r: Option<usize>)
    ensures
        match r {
            Some(i) => i < unions@.len() && unions.deep_view()[i as int].name == name@ && (
            forall|k: int| 0 <= k < i ==> (#[trigger] unions.deep_view()[k]).name != name@),
            None => forall|k: int|
                0 <= k < unions@.len() ==> (#[trigger] unions.deep_view()[k]).name != name@,
        },
{
    let n = unions.len();
    for i in 0..n
        invariant
            n == unions@.len(),
            forall|k: int| 0 <= k < i ==> (#[trigger] unions.deep_view()[k]).name != name@,
    {
        proof {
            assert(unions.deep_view()[i as int] == unions@[i as int].deep_view());
        }
        if str_eq(unions[i].name.as_str(), name) {
            return Some(i);
        }
    }
    None
}

/// The first index whose queue carries the name, by forward scan.
fn find_queue_idx(pending: &Vec<PendingQueue>, name: &str) -> (r: Option<usize>)
    ensures
        match r {
            Some(i) => i < pending@.len() && pending.deep_view()[i as int].name == name@ && (
            forall|k: int| 0 <= k < i ==> (#[trigger] pending.deep_view()[k]).name != name@),
            None => forall|k: int|
                0 <= k < pending@.len() ==> (#[trigger] pending.deep_view()[k]).name != name@,
        },
{
    let n = pending.len();
    for i in 0..n
        invariant
            n == pending@.len(),
            forall|k: int| 0 <= k < i ==> (#[trigger] pending.deep_view()[k]).name != name@,
    {
        proof {
            assert(pending.deep_view()[i as int] == pending@[i as int].deep_view());
        }
        if str_eq(pending[i].union_name.as_str(), name) {
            return Some(i);
        }
    }
    None
}

/// The process-scoped registry: the resolved unions, and the dispatch
/// requests still waiting for theirs, queued per union name.
pub struct GlobalState {
    unions: Vec<UnionDefinition>,
    pending: Vec<PendingQueue>,
}

impl GlobalState {
    /// The mathematical value of the registry.
    pub closed spec fn model(&self) -> StateModel {
        StateModel { unions: self.unions.deep_view(), pending: self.pending.deep_view() }
    }

    /// A fresh registry: no unions, no pending requests.
    pub fn new() -> (s: Self)
        ensures
            s.model() == (StateModel { unions: Seq::<UnionModel>::empty(), pending: Seq::<
                QueueModel,
            >::empty() }),
            state_wf(s.model()),
    {
        let s = GlobalState { unions: Vec::new(), pending: Vec::new() };
        proof {
            assert(s.unions.deep_view() =~= Seq::<UnionModel>::empty());
            assert(s.pending.deep_view() =~= Seq::<QueueModel>::empty());
        }
        s
    }

    /// Registers a union. A duplicate name or an invalid case list fails
    /// fatally and changes nothing. On success the definition is frozen and
    /// stored, its records and regenerated union type are emitted, and every
    /// dispatch request queued under the name is expanded, in arrival order.
    pub fn register_union(&mut self, u: UnionDefinition) -> (r: Result<GenOutput, GenError>)
        requires
            state_wf(old(self).model()),
        ensures
            state_wf(final(self).model()),
            final(self).model() == spec_register(old(self).model(), u.deep_view()).0,
            result_model(r) == spec_register(old(self).model(), u.deep_view()).1,
    {
        let ghost s0 = self.model();
        let ghost um = u.deep_view();
        let ghost cm = um.cases;

        // A name is registered at most once.
        match find_union_idx(&self.unions, u.name.as_str()) {
            Some(j) => {
                proof {
                    lemma_find_union_at(s0.unions, um.name, j as int);
                }
                return Err(GenError::DuplicateUnion);
            },
            None => {
                proof {
                    lemma_find_union_none(s0.unions, um.name);
                }
            },
        }
        // Every numeric discriminant unique within the union.
        let n = u.cases.len();
        for i in 0..n
            invariant
                n == u.cases.len(),
                um == u.deep_view(),
                cm == um.cases,
                s0 == self.model(),
                find_union(s0.unions, um.name) is None,
                state_wf(s0),
                forall|a: int, b: int| dup_value_pair(cm, a, b) ==> a >= i,
        {
            for j in (i + 1)..n
                invariant
                    i < n == u.cases.len(),
                    um == u.deep_view(),
                    cm == um.cases,
                    s0 == self.model(),
                    find_union(s0.unions, um.name) is None,
                    state_wf(s0),
                    forall|a: int, b: int| dup_value_pair(cm, a, b) ==> a >= i,
                    forall|b: int| i < b < j ==> !dup_value_pair(cm, i as int, b),
            {
                proof {
                    assert(cm[i as int] == u.cases@[i as int].deep_view());
                    assert(cm[j as int] == u.cases@[j as int].deep_view());
                }
                let di = u.cases[i].disc;
                let dj = u.cases[j].disc;
                if let (CaseDiscriminant::Value(x), CaseDiscriminant::Value(y)) = (di, dj) {
                    if x == y {
                        proof {
                            assert(dup_value_pair(cm, i as int, j as int));
                        }
                        return Err(GenError::DuplicateDiscriminant);
                    }
                }
            }
        }
        proof {
            assert(!has_duplicate_value(cm)) by {
                if has_duplicate_value(cm) {
                    let (a, b): (int, int) = choose|a: int, b: int| dup_value_pair(cm, a, b);
                    assert(dup_value_pair(cm, a, b));
                }
            }
        }
        // Exactly one wildcard case.
        let mut wc: usize = 0;
        for i in 0..n
            invariant
                n == u.cases.len(),
                um == u.deep_view(),
                cm == um.cases,
                s0 == self.model(),
                find_union(s0.unions, um.name) is None,
                state_wf(s0),
                !has_duplicate_value(cm),
                wc == wildcard_count(cm.take(i as int)),
                wc <= i,
        {
            proof {
                assert(cm[i as int] == u.cases@[i as int].deep_view());
                assert(cm.take(i + 1).drop_last() =~= cm.take(i as int));
                assert(cm.take(i + 1).last() == cm[i as int]);
            }
            if matches!(u.cases[i].disc, CaseDiscriminant::Wildcard) {
                wc = wc + 1;
            }
        }
        proof {
            assert(cm.take(n as int) =~= cm);
        }
        if wc == 0 {
            return Err(GenError::MissingDefault);
        }
        if wc > 1 {
            return Err(GenError::DuplicateDefault);
        }

        // Flush the requests waiting under this name, in arrival order.
        match find_queue_idx(&self.pending, u.name.as_str()) {
            None => {
                proof {
                    lemma_find_union_none(s0.unions, um.name);
                    lemma_find_queue_none(s0.pending, um.name);
                    lemma_remove_queue_none(s0.pending, um.name);
                }
                let records = generate_records(&u);
                let union_decl = generate_union_decl(&u);
                let flushed: Vec<DispatchOutput> = Vec::new();
                self.unions.push(u);
                let out = GenOutput { union_decl, records, flushed };
                proof {
                    assert forall|k: int| 0 <= k < self.unions@.len() implies self
                        .unions.deep_view()[k] == s0.unions.push(um)[k] by {
                        assert(self.unions.deep_view()[k] == self.unions@[k].deep_view());
                    }
                    assert(self.unions.deep_view() =~= s0.unions.push(um));
                    assert(out.flushed.deep_view() =~= Seq::<DispatchModel>::empty());
                    assert(out.deep_view() =~= spec_register(s0, um).1->Ok_0);
                    assert(self.model() == spec_register(s0, um).0);
                    let sn = self.model();
                    assert forall|a: int, b: int| 0 <= a < b < sn.unions.len() implies (
                    #[trigger] sn.unions[a]).name != (#[trigger] sn.unions[b]).name by {
                        if b < s0.unions.len() {
                            assert(sn.unions[a] == s0.unions[a]);
                            assert(sn.unions[b] == s0.unions[b]);
                        } else {
                            assert(sn.unions[a] == s0.unions[a]);
                            assert(sn.unions[b] == um);
                        }
                    }
                    assert forall|a: int| 0 <= a < sn.unions.len() implies valid_cases(
                        (#[trigger] sn.unions[a]).cases,
                    ) by {
                        if a < s0.unions.len() {
                            assert(sn.unions[a] == s0.unions[a]);
                        } else {
                            assert(sn.unions[a] == um);
                        }
                    }
                    assert(state_wf(self.model()));
                }
                Ok(out)
            },
            Some(qi) => {
                proof {
                    lemma_find_queue_at(s0.pending, um.name, qi as int);
                    lemma_remove_queue_at(s0.pending, um.name, qi as int);
                }
                let ghost qm = s0.pending[qi as int];
                let ghost reqs_m = qm.requests;
                // Every waiting template must end in its body group; the
                // first that does not aborts the whole registration.
                let m = self.pending[qi].requests.len();
                for k in 0..m
                    invariant
                        qi < self.pending@.len(),
                        m == self.pending@[qi as int].requests@.len(),
                        s0 == self.model(),
                        um == u.deep_view(),
                        cm == um.cases,
                        find_union(s0.unions, um.name) is None,
                        qm == s0.pending[qi as int],
                        find_queue(s0.pending, um.name) == Some(qm),
                        state_wf(s0),
                        wildcard_count(cm) == 1,
                        !has_duplicate_value(cm),
                        reqs_m == qm.requests,
                        forall|b: int| 0 <= b < k ==> template_ok((#[trigger] reqs_m[b]).template),
                {
                    proof {
                        assert(s0.pending[qi as int] == self.pending@[qi as int].deep_view());
                        assert(reqs_m[k as int] == self.pending@[qi as int].requests@[
                            k as int].deep_view());
                    }
                    let t = &self.pending[qi].requests[k].template;
                    let tl = t.len();
                    let mut bad = tl == 0;
                    if !bad {
                        proof {
                            assert(reqs_m[k as int].template[tl - 1] == t@[tl - 1].deep_view());
                        }
                        bad = !matches!(&t[tl - 1], Token::Group(_, _));
                    }
                    if bad {
                        proof {
                            lemma_expand_all_err(um, reqs_m, k as int);
                        }
                        return Err(GenError::MissingBody);
                    }
                }
                // Consume the queue and expand each request against the new
                // definition.
                let q = self.pending.remove(qi);
                let ghost pd = self.pending.deep_view();
                proof {
                    s0.pending.remove_ensures(qi as int);
                    old(self).pending@.remove_ensures(qi as int);
                    assert forall|k: int| 0 <= k < pd.len() implies pd[k] == s0.pending.remove(
                        qi as int,
                    )[k] by {
                        assert(pd[k] == self.pending@[k].deep_view());
                        if k < qi {
                            assert(self.pending@[k] == old(self).pending@[k]);
                            assert(s0.pending[k] == old(self).pending@[k].deep_view());
                        } else {
                            assert(self.pending@[k] == old(self).pending@[k + 1]);
                            assert(s0.pending[k + 1] == old(self).pending@[k + 1].deep_view());
                        }
                    }
                    assert(pd =~= s0.pending.remove(qi as int));
                    assert(q.deep_view() == qm);
                }
                let reqs = q.requests;
                let rn = reqs.len();
                let mut flushed: Vec<DispatchOutput> = Vec::new();
                for k in 0..rn
                    invariant
                        rn == reqs@.len(),
                        s0 == (StateModel { unions: self.unions.deep_view(), pending: s0.pending }),
                        um == u.deep_view(),
                        cm == um.cases,
                        find_union(s0.unions, um.name) is None,
                        qm == s0.pending[qi as int],
                        qi < s0.pending.len(),
                        find_queue(s0.pending, um.name) == Some(qm),
                        state_wf(s0),
                        wildcard_count(cm) == 1,
                        !has_duplicate_value(cm),
                        reqs_m == qm.requests,
                        reqs_m == reqs.deep_view(),
                        forall|b: int| 0 <= b < rn ==> template_ok(
                            (#[trigger] reqs_m[b]).template,
                        ),
                        self.pending.deep_view() == pd,
                        pd == s0.pending.remove(qi as int),
                        flushed@.len() == k,
                        forall|b: int| 0 <= b < k ==> #[trigger] flushed@[b].deep_view()
                            == spec_expand(um, reqs_m[b].mode, reqs_m[b].template)->Ok_0,
                {
                    proof {
                        assert(reqs_m[k as int] == reqs@[k as int].deep_view());
                        lemma_expand_all_ok(um, reqs_m);
                    }
                    let req_mode = reqs[k].mode;
                    let templ = clone_tokens(&reqs[k].template);
                    match expand_dispatch(&u, req_mode, templ) {
                        Ok(o) => {
                            flushed.push(o);
                        },
                        Err(_) => {
                            proof {
                                assert(false);
                            }
                            return Err(GenError::MissingBody);
                        },
                    }
                }
                let records = generate_records(&u);
                let union_decl = generate_union_decl(&u);
                self.unions.push(u);
                let out = GenOutput { union_decl, records, flushed };
                proof {
                    lemma_expand_all_ok(um, reqs_m);
                    assert forall|k: int| 0 <= k < self.unions@.len() implies self
                        .unions.deep_view()[k] == s0.unions.push(um)[k] by {
                        assert(self.unions.deep_view()[k] == self.unions@[k].deep_view());
                    }
                    assert(self.unions.deep_view() =~= s0.unions.push(um));
                    assert forall|b: int| 0 <= b < out.flushed@.len() implies out
                        .flushed.deep_view()[b] == expand_all(um, reqs_m)->Ok_0[b] by {
                        assert(out.flushed.deep_view()[b] == out.flushed@[b].deep_view());
                    }
                    assert(out.flushed.deep_view() =~= expand_all(um, reqs_m)->Ok_0);
                    assert(out.deep_view() =~= spec_register(s0, um).1->Ok_0);
                    assert(self.model() == spec_register(s0, um).0);
                    // Uniqueness survives: the new union's name was fresh, and
                    // the queues kept are a subsequence of the old ones.
                    lemma_find_union_none(s0.unions, um.name);
                    s0.pending.remove_ensures(qi as int);
                    let sn = self.model();
                    assert forall|a: int, b: int| 0 <= a < b < sn.unions.len() implies (
                    #[trigger] sn.unions[a]).name != (#[trigger] sn.unions[b]).name by {
                        if b < s0.unions.len() {
                            assert(sn.unions[a] == s0.unions[a]);
                            assert(sn.unions[b] == s0.unions[b]);
                        } else {
                            assert(sn.unions[a] == s0.unions[a]);
                            assert(sn.unions[b] == um);
                        }
                    }
                    assert forall|a: int| 0 <= a < sn.unions.len() implies valid_cases(
                        (#[trigger] sn.unions[a]).cases,
                    ) by {
                        if a < s0.unions.len() {
                            assert(sn.unions[a] == s0.unions[a]);
                        } else {
                            assert(sn.unions[a] == um);
                        }
                    }
                    assert forall|a: int, b: int| 0 <= a < b < sn.pending.len() implies (
                    #[trigger] sn.pending[a]).name != (#[trigger] sn.pending[b]).name by {
                        if b < qi {
                        } else if a < qi {
                            assert(sn.pending[b] == s0.pending[b + 1]);
                        } else {
                            assert(sn.pending[a] == s0.pending[a + 1]);
                            assert(sn.pending[b] == s0.pending[b + 1]);
                        }
                    }
                    assert(state_wf(self.model()));
                }
                Ok(out)
            },
        }
    }

    /// Asks for a dispatcher over the named union. Where the union is already
    /// registered the request is expanded at once; otherwise it is queued
    /// under the name and the call yields nothing — silently forever, if the
    /// union never registers.
    pub fn request_dispatch(&mut self, name: String, mode: DispatchMode, template: Vec<Token>) -> (r: Result<
        Option<DispatchOutput>,
        GenError,
    >)
        requires
            state_wf(old(self).model()),
        ensures
            state_wf(final(self).model()),
            final(self).model() == spec_request(
                old(self).model(),
                name@,
                mode,
                template.deep_view(),
            ).0,
            result_model(r) == spec_request(old(self).model(), name@, mode, template.deep_view()).1,
    {
        let ghost s0 = self.model();
        let ghost tm = template.deep_view();
        if name.as_str().is_empty() {
            return Err(GenError::MissingArgument);
        }
        match find_union_idx(&self.unions, name.as_str()) {
            Some(i) => {
                proof {
                    lemma_find_union_at(s0.unions, name@, i as int);
                    assert(s0.unions[i as int] == self.unions@[i as int].deep_view());
                }
                match expand_dispatch(&self.unions[i], mode, template) {
                    Ok(o) => Ok(Some(o)),
                    Err(e) => Err(e),
                }
            },
            None => {
                proof {
                    lemma_find_union_none(s0.unions, name@);
                }
                let ghost reqm = RequestModel { mode, template: tm };
                let req = DispatchRequest { mode, template };
                proof {
                    assert(req.deep_view() == reqm);
                }
                match find_queue_idx(&self.pending, name.as_str()) {
                    Some(qi) => {
                        proof {
                            lemma_find_queue_at(s0.pending, name@, qi as int);
                            lemma_append_req_at(s0.pending, name@, reqm, qi as int);
                        }
                        let ghost qm = s0.pending[qi as int];
                        let mut q = self.pending.remove(qi);
                        proof {
                            assert(q.deep_view() == qm);
                        }
                        q.requests.push(req);
                        proof {
                            assert forall|b: int| 0 <= b < q.requests@.len() implies q
                                .requests.deep_view()[b] == qm.requests.push(reqm)[b] by {
                                assert(q.requests.deep_view()[b] == q.requests@[b].deep_view());
                            }
                            assert(q.requests.deep_view() =~= qm.requests.push(reqm));
                        }
                        self.pending.insert(qi, q);
                        proof {
                            let ghost q2 = QueueModel {
                                name: qm.name,
                                requests: qm.requests.push(reqm),
                            };
                            old(self).pending@.remove_ensures(qi as int);
                            assert forall|k: int| 0 <= k < self.pending@.len() implies self
                                .pending.deep_view()[k] == s0.pending.update(qi as int, q2)[k] by {
                                assert(self.pending.deep_view()[k] == self.pending@[
                                    k as int].deep_view());
                                if k < qi {
                                    assert(self.pending@[k] == old(self).pending@[k]);
                                    assert(s0.pending[k] == old(self).pending@[k].deep_view());
                                } else if k == qi {
                                } else {
                                    assert(self.pending@[k] == old(self).pending@[k]);
                                    assert(s0.pending[k] == old(self).pending@[k].deep_view());
                                }
                            }
                            assert(self.pending.deep_view() =~= s0.pending.update(qi as int, q2));
                            assert(self.model() == spec_request(s0, name@, mode, tm).0);
                            let sn = self.model();
                            assert forall|a: int, b: int| 0 <= a < b < sn.pending.len() implies (
                            #[trigger] sn.pending[a]).name != (#[trigger] sn.pending[b]).name by {
                                assert(sn.pending[a] == if a == qi {
                                    q2
                                } else {
                                    s0.pending[a]
                                });
                                assert(sn.pending[b] == if b == qi {
                                    q2
                                } else {
                                    s0.pending[b]
                                });
                            }
                            assert(state_wf(self.model()));
                        }
                        Ok(None)
                    },
                    None => {
                        proof {
                            lemma_find_queue_none(s0.pending, name@);
                            lemma_append_req_fresh(s0.pending, name@, reqm);
                        }
                        let mut reqs: Vec<DispatchRequest> = Vec::new();
                        reqs.push(req);
                        let ghost q2 = QueueModel { name: name@, requests: seq![reqm] };
                        let newq = PendingQueue { union_name: name, requests: reqs };
                        proof {
                            assert(newq.requests.deep_view() =~= seq![reqm]);
                            assert(newq.deep_view() == q2);
                        }
                        self.pending.push(newq);
                        proof {
                            assert forall|k: int| 0 <= k < self.pending@.len() implies self
                                .pending.deep_view()[k] == s0.pending.push(q2)[k] by {
                                assert(self.pending.deep_view()[k] == self.pending@[
                                    k as int].deep_view());
                            }
                            assert(self.pending.deep_view() =~= s0.pending.push(q2));
                            assert(self.model() == spec_request(s0, name@, mode, tm).0);
                            let sn = self.model();
                            assert forall|a: int, b: int| 0 <= a < b < sn.pending.len() implies (
                            #[trigger] sn.pending[a]).name != (#[trigger] sn.pending[b]).name by {
                                assert(sn.pending[a] == s0.pending[a]);
                                if b < s0.pending.len() {
                                    assert(sn.pending[b] == s0.pending[b]);
                                } else {
                                    assert(sn.pending[b] == q2);
                                }
                            }
                            assert(state_wf(self.model()));
                        }
                        Ok(None)
                    },
                }
            },
        }
    }
}

/// Registering a union name that is already present fails as a schema error
/// and changes nothing — whatever the new definition holds, and independent
/// of any pending dispatch requests.
pub proof fn lemma_duplicate_union_rejected(s: StateModel, u: UnionModel)
    requires
        find_union(s.unions, u.name) is Some,
    ensures
        spec_register(s, u).0 == s,
        spec_register(s, u).1 == Err::<GenOutputModel, GenError>(GenError::DuplicateUnion),
        spec_class_of(GenError::DuplicateUnion) == ErrorClass::Schema,
{
}

/// Deferred replay is transparent: a dispatch request issued before its
/// union is registered is queued and yields nothing; the later registration
/// then expands it to exactly the output the same request yields when issued
/// after registration — and both orders fail alike where expansion fails.
pub proof fn lemma_deferred_dispatch_equals_immediate(
    s: StateModel,
    u: UnionModel,
    mode: DispatchMode,
    template: Seq<TokenModel>,
)
    requires
        state_wf(s),
        valid_cases(u.cases),
        u.name.len() > 0,
        find_union(s.unions, u.name) is None,
        find_queue(s.pending, u.name) is None,
    ensures
        ({
            let (s1, r1) = spec_request(s, u.name, mode, template);
            let (s2, r2) = spec_register(s1, u);
            let (s3, r3) = spec_register(s, u);
            let (s4, r4) = spec_request(s3, u.name, mode, template);
            &&& r1 == Ok::<Option<DispatchModel>, GenError>(None)
            &&& (r3 matches Ok(g) && g.flushed == Seq::<DispatchModel>::empty())
            &&& match spec_expand(u, mode, template) {
                Ok(o) => ((r2 matches Ok(g2) && g2.flushed == seq![o]) && r4 == Ok::<
                    Option<DispatchModel>,
                    GenError,
                >(Some(o))),
                Err(e) => r2 == Err::<GenOutputModel, GenError>(e) && r4 == Err::<
                    Option<DispatchModel>,
                    GenError,
                >(e),
            }
        }),
{
    let req = RequestModel { mode, template };
    lemma_find_union_none(s.unions, u.name);
    lemma_find_queue_none(s.pending, u.name);
    lemma_append_req_fresh(s.pending, u.name, req);
    lemma_remove_queue_none(s.pending, u.name);
    let (s1, r1) = spec_request(s, u.name, mode, template);
    let newq = QueueModel { name: u.name, requests: seq![req] };
    assert(s1.pending == s.pending.push(newq));
    assert forall|k: int| 0 <= k < s.pending.len() implies (#[trigger] s1.pending[k]).name
        != u.name by {
        assert(s1.pending[k] == s.pending[k]);
    }
    assert(s1.pending[s.pending.len() as int] == newq);
    lemma_find_queue_at(s1.pending, u.name, s.pending.len() as int);
    let reqs = seq![req];
    assert(reqs[0] == req);
    assert(reqs.drop_first() =~= Seq::<RequestModel>::empty());
    match spec_expand(u, mode, template) {
        Ok(o) => {
            assert(expand_all(u, reqs.drop_first()) == Ok::<Seq<DispatchModel>, GenError>(
                Seq::empty(),
            ));
            assert(seq![o] + Seq::<DispatchModel>::empty() =~= seq![o]);
            assert(expand_all(u, reqs) == Ok::<Seq<DispatchModel>, GenError>(seq![o]));
        },
        Err(e) => {},
    }
    let (s3, r3) = spec_register(s, u);
    assert(expand_all(u, Seq::<RequestModel>::empty()) == Ok::<Seq<DispatchModel>, GenError>(
        Seq::empty(),
    ));
    assert(s3.unions == s.unions.push(u));
    assert forall|k: int| 0 <= k < s.unions.len() implies (#[trigger] s3.unions[k]).name
        != u.name by {
        assert(s3.unions[k] == s.unions[k]);
    }
    assert(s3.unions[s.unions.len() as int] == u);
    lemma_find_union_at(s3.unions, u.name, s.unions.len() as int);
}

} // verus!
