//! The hooks of the observers, each with the arguments that every observer of
//! one dispatch is given.
use crate::dispatch::Trace;
use crate::messages::{
    AdminRequest, AdminResponse, CfName, CheckPolicy, Config, RaftResponseHeader, Region,
    RegionChangeEvent, Request, Response, SplitChecker, SplitCheckerHost, StateRole, DB,
};
use crate::observer::{
    BoxAdminObserver, BoxApplySnapshotObserver, BoxQueryObserver, BoxRegionChangeObserver,
    BoxRoleObserver, BoxSplitCheckObserver, Error, ObserverContext,
};
use vstd::prelude::*;

verus! {

/// A call of an observer's hook: the observer, the region that the call was
/// about, and what else the hook was given.
pub enum HookCall {
    PreProposeAdmin(BoxAdminObserver, Region, AdminRequest),
    PreApplyAdmin(BoxAdminObserver, Region, u64, AdminRequest),
    PostApplyAdmin(BoxAdminObserver, Region, u64, RaftResponseHeader, AdminResponse),
    PreProposeQuery(BoxQueryObserver, Region, Seq<Request>),
    PreApplyQuery(BoxQueryObserver, Region, Seq<Request>),
    PostApplyQuery(BoxQueryObserver, Region, RaftResponseHeader, Seq<Response>),
    PreApplyPlainKvs(BoxApplySnapshotObserver, Region, Seq<char>, Seq<(Vec<u8>, Vec<u8>)>),
    PreApplySst(BoxApplySnapshotObserver, Region, Seq<char>, Seq<char>),
    AddChecker(BoxSplitCheckObserver, Region, bool, Config, Seq<SplitChecker>, DB, CheckPolicy),
    OnRoleChange(BoxRoleObserver, Region, StateRole),
    OnRegionChanged(BoxRegionChangeObserver, Region, RegionChangeEvent, StateRole),
}

/// A hook of the observers `O`, which pass the state `S` on from one to the
/// next.
pub trait Hook<O, S> {
    /// What the hook of `observer` may answer and leave behind.
    spec fn outcome(
        &self,
        observer: O,
        before: ObserverContext<'_>,
        state_before: S,
        after: ObserverContext<'_>,
        state_after: S,
        answer: Result<(), Error>,
    ) -> bool;

    /// The call of the hook of `observer` about `region`.
    spec fn call(&self, observer: O, region: Region, state: S) -> HookCall;

    /// Runs the hook of one observer.
    fn fire(
        &self,
        observer: &O,
        ctx: &mut ObserverContext<'_>,
        state: &mut S,
        trace: &mut Trace,
    ) -> (answer: Result<(), Error>)
        ensures
            self.outcome(*observer, *old(ctx), *old(state), *final(ctx), *final(state), answer),
            final(trace)@ == old(trace)@.push(
                self.call(*observer, *old(ctx).region, *old(state)),
            ),
    ;
}

/// Before an administrative request is proposed: `pre_propose_admin`.
pub struct PreProposeAdmin;

impl Hook<BoxAdminObserver, AdminRequest> for PreProposeAdmin {
    open spec fn outcome(
        &self,
        observer: BoxAdminObserver,
        before: ObserverContext<'_>,
        state_before: AdminRequest,
        after: ObserverContext<'_>,
        state_after: AdminRequest,
        answer: Result<(), Error>,
    ) -> bool {
        observer.inner.pre_propose_admin_outcome(before, state_before, after, state_after, answer)
    }

    open spec fn call(
        &self,
        observer: BoxAdminObserver,
        region: Region,
        state: AdminRequest,
    ) -> HookCall {
        HookCall::PreProposeAdmin(observer, region, state)
    }

    fn fire(
        &self,
        observer: &BoxAdminObserver,
        ctx: &mut ObserverContext<'_>,
        state: &mut AdminRequest,
        trace: &mut Trace,
    ) -> (answer: Result<(), Error>) {
        trace.pre_propose_admin(observer, ctx, state)
    }
}

/// Before an administrative request is applied: `pre_apply_admin`.
pub struct PreApplyAdmin<'m> {
    pub index: u64,
    pub admin: &'m AdminRequest,
}

impl<'m> Hook<BoxAdminObserver, ()> for PreApplyAdmin<'m> {
    open spec fn outcome(
        &self,
        observer: BoxAdminObserver,
        before: ObserverContext<'_>,
        state_before: (),
        after: ObserverContext<'_>,
        state_after: (),
        answer: Result<(), Error>,
    ) -> bool {
        &&& observer.inner.pre_apply_admin_outcome(before, self.index, *self.admin, after)
        &&& answer is Ok
    }

    open spec fn call(&self, observer: BoxAdminObserver, region: Region, state: ()) -> HookCall {
        HookCall::PreApplyAdmin(observer, region, self.index, *self.admin)
    }

    fn fire(
        &self,
        observer: &BoxAdminObserver,
        ctx: &mut ObserverContext<'_>,
        state: &mut (),
        trace: &mut Trace,
    ) -> (answer: Result<(), Error>) {
        trace.pre_apply_admin(observer, ctx, self.index, self.admin);
        Ok(())
    }
}

/// After an administrative request has been applied: `post_apply_admin`.
pub struct PostApplyAdmin<'m> {
    pub index: u64,
    pub header: &'m RaftResponseHeader,
}

impl<'m> Hook<BoxAdminObserver, AdminResponse> for PostApplyAdmin<'m> {
    open spec fn outcome(
        &self,
        observer: BoxAdminObserver,
        before: ObserverContext<'_>,
        state_before: AdminResponse,
        after: ObserverContext<'_>,
        state_after: AdminResponse,
        answer: Result<(), Error>,
    ) -> bool {
        &&& observer.inner.post_apply_admin_outcome(
            before,
            self.index,
            *self.header,
            state_before,
            after,
            state_after,
        )
        &&& answer is Ok
    }

    open spec fn call(
        &self,
        observer: BoxAdminObserver,
        region: Region,
        state: AdminResponse,
    ) -> HookCall {
        HookCall::PostApplyAdmin(observer, region, self.index, *self.header, state)
    }

    fn fire(
        &self,
        observer: &BoxAdminObserver,
        ctx: &mut ObserverContext<'_>,
        state: &mut AdminResponse,
        trace: &mut Trace,
    ) -> (answer: Result<(), Error>) {
        trace.post_apply_admin(observer, ctx, self.index, self.header, state);
        Ok(())
    }
}

/// Before plain requests are proposed: `pre_propose_query`.
pub struct PreProposeQuery;

impl Hook<BoxQueryObserver, Vec<Request>> for PreProposeQuery {
    open spec fn outcome(
        &self,
        observer: BoxQueryObserver,
        before: ObserverContext<'_>,
        state_before: Vec<Request>,
        after: ObserverContext<'_>,
        state_after: Vec<Request>,
        answer: Result<(), Error>,
    ) -> bool {
        observer.inner.pre_propose_query_outcome(before, state_before@, after, state_after@, answer)
    }

    open spec fn call(
        &self,
        observer: BoxQueryObserver,
        region: Region,
        state: Vec<Request>,
    ) -> HookCall {
        HookCall::PreProposeQuery(observer, region, state@)
    }

    fn fire(
        &self,
        observer: &BoxQueryObserver,
        ctx: &mut ObserverContext<'_>,
        state: &mut Vec<Request>,
        trace: &mut Trace,
    ) -> (answer: Result<(), Error>) {
        trace.pre_propose_query(observer, ctx, state)
    }
}

/// Before plain requests are applied: `pre_apply_query`.
pub struct PreApplyQuery<'m> {
    pub requests: &'m Vec<Request>,
}

impl<'m> Hook<BoxQueryObserver, ()> for PreApplyQuery<'m> {
    open spec fn outcome(
        &self,
        observer: BoxQueryObserver,
        before: ObserverContext<'_>,
        state_before: (),
        after: ObserverContext<'_>,
        state_after: (),
        answer: Result<(), Error>,
    ) -> bool {
        &&& observer.inner.pre_apply_query_outcome(before, self.requests@, after)
        &&& answer is Ok
    }

    open spec fn call(&self, observer: BoxQueryObserver, region: Region, state: ()) -> HookCall {
        HookCall::PreApplyQuery(observer, region, self.requests@)
    }

    fn fire(
        &self,
        observer: &BoxQueryObserver,
        ctx: &mut ObserverContext<'_>,
        state: &mut (),
        trace: &mut Trace,
    ) -> (answer: Result<(), Error>) {
        trace.pre_apply_query(observer, ctx, self.requests.as_slice());
        Ok(())
    }
}

/// After plain requests have been applied: `post_apply_query`.
pub struct PostApplyQuery<'m> {
    pub header: &'m RaftResponseHeader,
}

impl<'m> Hook<BoxQueryObserver, Vec<Response>> for PostApplyQuery<'m> {
    open spec fn outcome(
        &self,
        observer: BoxQueryObserver,
        before: ObserverContext<'_>,
        state_before: Vec<Response>,
        after: ObserverContext<'_>,
        state_after: Vec<Response>,
        answer: Result<(), Error>,
    ) -> bool {
        &&& observer.inner.post_apply_query_outcome(
            before,
            *self.header,
            state_before@,
            after,
            state_after@,
        )
        &&& answer is Ok
    }

    open spec fn call(
        &self,
        observer: BoxQueryObserver,
        region: Region,
        state: Vec<Response>,
    ) -> HookCall {
        HookCall::PostApplyQuery(observer, region, *self.header, state@)
    }

    fn fire(
        &self,
        observer: &BoxQueryObserver,
        ctx: &mut ObserverContext<'_>,
        state: &mut Vec<Response>,
        trace: &mut Trace,
    ) -> (answer: Result<(), Error>) {
        trace.post_apply_query(observer, ctx, self.header, state);
        Ok(())
    }
}

/// Before key-value pairs of a snapshot are applied: `pre_apply_plain_kvs`.
pub struct PreApplyPlainKvs<'m> {
    pub cf: CfName,
    pub kv_pairs: &'m [(Vec<u8>, Vec<u8>)],
}

impl<'m> Hook<BoxApplySnapshotObserver, ()> for PreApplyPlainKvs<'m> {
    open spec fn outcome(
        &self,
        observer: BoxApplySnapshotObserver,
        before: ObserverContext<'_>,
        state_before: (),
        after: ObserverContext<'_>,
        state_after: (),
        answer: Result<(), Error>,
    ) -> bool {
        &&& observer.inner.pre_apply_plain_kvs_outcome(before, self.cf@, self.kv_pairs@, after)
        &&& answer is Ok
    }

    open spec fn call(
        &self,
        observer: BoxApplySnapshotObserver,
        region: Region,
        state: (),
    ) -> HookCall {
        HookCall::PreApplyPlainKvs(observer, region, self.cf@, self.kv_pairs@)
    }

    fn fire(
        &self,
        observer: &BoxApplySnapshotObserver,
        ctx: &mut ObserverContext<'_>,
        state: &mut (),
        trace: &mut Trace,
    ) -> (answer: Result<(), Error>) {
        trace.pre_apply_plain_kvs(observer, ctx, self.cf, self.kv_pairs);
        Ok(())
    }
}

/// Before a table file of a snapshot is applied: `pre_apply_sst`.
pub struct PreApplySst<'m> {
    pub cf: CfName,
    pub path: &'m str,
}

impl<'m> Hook<BoxApplySnapshotObserver, ()> for PreApplySst<'m> {
    open spec fn outcome(
        &self,
        observer: BoxApplySnapshotObserver,
        before: ObserverContext<'_>,
        state_before: (),
        after: ObserverContext<'_>,
        state_after: (),
        answer: Result<(), Error>,
    ) -> bool {
        &&& observer.inner.pre_apply_sst_outcome(before, self.cf@, self.path@, after)
        &&& answer is Ok
    }

    open spec fn call(
        &self,
        observer: BoxApplySnapshotObserver,
        region: Region,
        state: (),
    ) -> HookCall {
        HookCall::PreApplySst(observer, region, self.cf@, self.path@)
    }

    fn fire(
        &self,
        observer: &BoxApplySnapshotObserver,
        ctx: &mut ObserverContext<'_>,
        state: &mut (),
        trace: &mut Trace,
    ) -> (answer: Result<(), Error>) {
        trace.pre_apply_sst(observer, ctx, self.cf, self.path);
        Ok(())
    }
}

/// When the checkers of a split check are gathered: `add_checker`.
pub struct AddChecker<'m> {
    pub engine: &'m DB,
    pub policy: CheckPolicy,
}

impl<'m, 'c> Hook<BoxSplitCheckObserver, SplitCheckerHost<'c>> for AddChecker<'m> {
    open spec fn outcome(
        &self,
        observer: BoxSplitCheckObserver,
        before: ObserverContext<'_>,
        state_before: SplitCheckerHost<'c>,
        after: ObserverContext<'_>,
        state_after: SplitCheckerHost<'c>,
        answer: Result<(), Error>,
    ) -> bool {
        &&& observer.inner.add_checker_outcome(
            before,
            state_before,
            *self.engine,
            self.policy,
            after,
            state_after,
        )
        &&& answer is Ok
    }

    open spec fn call(
        &self,
        observer: BoxSplitCheckObserver,
        region: Region,
        state: SplitCheckerHost<'c>,
    ) -> HookCall {
        HookCall::AddChecker(
            observer,
            region,
            state.auto_split,
            *state.cfg,
            state.checkers@,
            *self.engine,
            self.policy,
        )
    }

    fn fire(
        &self,
        observer: &BoxSplitCheckObserver,
        ctx: &mut ObserverContext<'_>,
        state: &mut SplitCheckerHost<'c>,
        trace: &mut Trace,
    ) -> (answer: Result<(), Error>) {
        trace.add_checker(observer, ctx, state, self.engine, self.policy);
        Ok(())
    }
}

/// When a peer's role changes: `on_role_change`.
pub struct OnRoleChange {
    pub role: StateRole,
}

impl Hook<BoxRoleObserver, ()> for OnRoleChange {
    open spec fn outcome(
        &self,
        observer: BoxRoleObserver,
        before: ObserverContext<'_>,
        state_before: (),
        after: ObserverContext<'_>,
        state_after: (),
        answer: Result<(), Error>,
    ) -> bool {
        &&& observer.inner.on_role_change_outcome(before, self.role, after)
        &&& answer is Ok
    }

    open spec fn call(&self, observer: BoxRoleObserver, region: Region, state: ()) -> HookCall {
        HookCall::OnRoleChange(observer, region, self.role)
    }

    fn fire(
        &self,
        observer: &BoxRoleObserver,
        ctx: &mut ObserverContext<'_>,
        state: &mut (),
        trace: &mut Trace,
    ) -> (answer: Result<(), Error>) {
        trace.on_role_change(observer, ctx, self.role);
        Ok(())
    }
}

/// When a region changes: `on_region_changed`.
pub struct OnRegionChanged {
    pub event: RegionChangeEvent,
    pub role: StateRole,
}

impl Hook<BoxRegionChangeObserver, ()> for OnRegionChanged {
    open spec fn outcome(
        &self,
        observer: BoxRegionChangeObserver,
        before: ObserverContext<'_>,
        state_before: (),
        after: ObserverContext<'_>,
        state_after: (),
        answer: Result<(), Error>,
    ) -> bool {
        &&& observer.inner.on_region_changed_outcome(before, self.event, self.role, after)
        &&& answer is Ok
    }

    open spec fn call(
        &self,
        observer: BoxRegionChangeObserver,
        region: Region,
        state: (),
    ) -> HookCall {
        HookCall::OnRegionChanged(observer, region, self.event, self.role)
    }

    fn fire(
        &self,
        observer: &BoxRegionChangeObserver,
        ctx: &mut ObserverContext<'_>,
        state: &mut (),
        trace: &mut Trace,
    ) -> (answer: Result<(), Error>) {
        trace.on_region_changed(observer, ctx, self.event, self.role);
        Ok(())
    }
}

/// Law: what `pre_propose_admin` of an observer may do with what the dispatch was given is what
/// the hook may do, no more and no less. The line of the call says the same.
pub proof fn law_pre_propose_admin_hook(
    observer: BoxAdminObserver,
    before: ObserverContext<'_>,
    state: AdminRequest,
    after: ObserverContext<'_>,
    state_after: AdminRequest,
    answer: Result<(), Error>,
)
    ensures
        PreProposeAdmin.outcome(observer, before, state, after, state_after, answer) <==>
            observer.inner.pre_propose_admin_outcome(before, state, after, state_after, answer),
        PreProposeAdmin.call(observer, *before.region, state) == HookCall::PreProposeAdmin(
            observer,
            *before.region,
            state,
        ),
{
}

/// Law: what `pre_apply_admin` of an observer may do with what the dispatch was given is what
/// the hook may do, no more and no less, and it never fails. The line of the call says the same.
pub proof fn law_pre_apply_admin_hook(
    index: u64,
    admin: &AdminRequest,
    observer: BoxAdminObserver,
    before: ObserverContext<'_>,
    after: ObserverContext<'_>,
    answer: Result<(), Error>,
)
    ensures
        (PreApplyAdmin { index, admin }).outcome(observer, before, (), after, (), answer) <==>
            observer.inner.pre_apply_admin_outcome(before, index, *admin, after) && answer is Ok,
        (PreApplyAdmin { index, admin }).call(observer, *before.region, ()) == HookCall::PreApplyAdmin(
            observer,
            *before.region,
            index,
            *admin,
        ),
{
}

/// Law: what `post_apply_admin` of an observer may do with what the dispatch was given is what
/// the hook may do, no more and no less, and it never fails. The line of the call says the same.
pub proof fn law_post_apply_admin_hook(
    index: u64,
    header: &RaftResponseHeader,
    observer: BoxAdminObserver,
    before: ObserverContext<'_>,
    state: AdminResponse,
    after: ObserverContext<'_>,
    state_after: AdminResponse,
    answer: Result<(), Error>,
)
    ensures
        (PostApplyAdmin { index, header }).outcome(
            observer,
            before,
            state,
            after,
            state_after,
            answer,
        ) <==>
            observer.inner.post_apply_admin_outcome(
                before,
                index,
                *header,
                state,
                after,
                state_after,
            ) && answer is Ok,
        (PostApplyAdmin { index, header }).call(observer, *before.region, state) == HookCall::PostApplyAdmin(
            observer,
            *before.region,
            index,
            *header,
            state,
        ),
{
}

/// Law: what `pre_propose_query` of an observer may do with what the dispatch was given is what
/// the hook may do, no more and no less. The line of the call says the same.
pub proof fn law_pre_propose_query_hook(
    observer: BoxQueryObserver,
    before: ObserverContext<'_>,
    state: Vec<Request>,
    after: ObserverContext<'_>,
    state_after: Vec<Request>,
    answer: Result<(), Error>,
)
    ensures
        PreProposeQuery.outcome(observer, before, state, after, state_after, answer) <==>
            observer.inner.pre_propose_query_outcome(before, state@, after, state_after@, answer),
        PreProposeQuery.call(observer, *before.region, state) == HookCall::PreProposeQuery(
            observer,
            *before.region,
            state@,
        ),
{
}

/// Law: what `pre_apply_query` of an observer may do with what the dispatch was given is what
/// the hook may do, no more and no less, and it never fails. The line of the call says the same.
pub proof fn law_pre_apply_query_hook(
    requests: &Vec<Request>,
    observer: BoxQueryObserver,
    before: ObserverContext<'_>,
    after: ObserverContext<'_>,
    answer: Result<(), Error>,
)
    ensures
        (PreApplyQuery { requests }).outcome(observer, before, (), after, (), answer) <==>
            observer.inner.pre_apply_query_outcome(before, requests@, after) && answer is Ok,
        (PreApplyQuery { requests }).call(observer, *before.region, ()) == HookCall::PreApplyQuery(
            observer,
            *before.region,
            requests@,
        ),
{
}

/// Law: what `post_apply_query` of an observer may do with what the dispatch was given is what
/// the hook may do, no more and no less, and it never fails. The line of the call says the same.
pub proof fn law_post_apply_query_hook(
    header: &RaftResponseHeader,
    observer: BoxQueryObserver,
    before: ObserverContext<'_>,
    state: Vec<Response>,
    after: ObserverContext<'_>,
    state_after: Vec<Response>,
    answer: Result<(), Error>,
)
    ensures
        (PostApplyQuery { header }).outcome(observer, before, state, after, state_after, answer) <==>
            observer.inner.post_apply_query_outcome(
                before,
                *header,
                state@,
                after,
                state_after@,
            ) && answer is Ok,
        (PostApplyQuery { header }).call(observer, *before.region, state) == HookCall::PostApplyQuery(
            observer,
            *before.region,
            *header,
            state@,
        ),
{
}

/// Law: what `pre_apply_plain_kvs` of an observer may do with what the dispatch was given is what
/// the hook may do, no more and no less, and it never fails. The line of the call says the same.
pub proof fn law_pre_apply_plain_kvs_hook(
    cf: CfName,
    kv_pairs: &[(Vec<u8>, Vec<u8>)],
    observer: BoxApplySnapshotObserver,
    before: ObserverContext<'_>,
    after: ObserverContext<'_>,
    answer: Result<(), Error>,
)
    ensures
        (PreApplyPlainKvs { cf, kv_pairs }).outcome(observer, before, (), after, (), answer) <==>
            observer.inner.pre_apply_plain_kvs_outcome(
                before,
                cf@,
                kv_pairs@,
                after,
            ) && answer is Ok,
        (PreApplyPlainKvs { cf, kv_pairs }).call(observer, *before.region, ()) == HookCall::PreApplyPlainKvs(
            observer,
            *before.region,
            cf@,
            kv_pairs@,
        ),
{
}

/// Law: what `pre_apply_sst` of an observer may do with what the dispatch was given is what
/// the hook may do, no more and no less, and it never fails. The line of the call says the same.
pub proof fn law_pre_apply_sst_hook(
    cf: CfName,
    path: &str,
    observer: BoxApplySnapshotObserver,
    before: ObserverContext<'_>,
    after: ObserverContext<'_>,
    answer: Result<(), Error>,
)
    ensures
        (PreApplySst { cf, path }).outcome(observer, before, (), after, (), answer) <==>
            observer.inner.pre_apply_sst_outcome(before, cf@, path@, after) && answer is Ok,
        (PreApplySst { cf, path }).call(observer, *before.region, ()) == HookCall::PreApplySst(
            observer,
            *before.region,
            cf@,
            path@,
        ),
{
}

/// Law: what `add_checker` of an observer may do with what the dispatch was given is what
/// the hook may do, no more and no less, and it never fails. The line of the call says the same.
pub proof fn law_add_checker_hook(
    engine: &DB,
    policy: CheckPolicy,
    observer: BoxSplitCheckObserver,
    before: ObserverContext<'_>,
    state: SplitCheckerHost<'_>,
    after: ObserverContext<'_>,
    state_after: SplitCheckerHost<'_>,
    answer: Result<(), Error>,
)
    ensures
        (AddChecker { engine, policy }).outcome(observer, before, state, after, state_after, answer) <==>
            observer.inner.add_checker_outcome(
                before,
                state,
                *engine,
                policy,
                after,
                state_after,
            ) && answer is Ok,
        (AddChecker { engine, policy }).call(observer, *before.region, state) == HookCall::AddChecker(
            observer,
            *before.region,
            state.auto_split,
            *state.cfg,
            state.checkers@,
            *engine,
            policy,
        ),
{
}

/// Law: what `on_role_change` of an observer may do with what the dispatch was given is what
/// the hook may do, no more and no less, and it never fails. The line of the call says the same.
pub proof fn law_on_role_change_hook(
    role: StateRole,
    observer: BoxRoleObserver,
    before: ObserverContext<'_>,
    after: ObserverContext<'_>,
    answer: Result<(), Error>,
)
    ensures
        (OnRoleChange { role }).outcome(observer, before, (), after, (), answer) <==>
            observer.inner.on_role_change_outcome(before, role, after) && answer is Ok,
        (OnRoleChange { role }).call(observer, *before.region, ()) == HookCall::OnRoleChange(
            observer,
            *before.region,
            role,
        ),
{
}

/// Law: what `on_region_changed` of an observer may do with what the dispatch was given is what
/// the hook may do, no more and no less, and it never fails. The line of the call says the same.
pub proof fn law_on_region_changed_hook(
    event: RegionChangeEvent,
    role: StateRole,
    observer: BoxRegionChangeObserver,
    before: ObserverContext<'_>,
    after: ObserverContext<'_>,
    answer: Result<(), Error>,
)
    ensures
        (OnRegionChanged { event, role }).outcome(observer, before, (), after, (), answer) <==>
            observer.inner.on_region_changed_outcome(before, event, role, after) && answer is Ok,
        (OnRegionChanged { event, role }).call(observer, *before.region, ()) == HookCall::OnRegionChanged(
            observer,
            *before.region,
            event,
            role,
        ),
{
}

} // verus!
