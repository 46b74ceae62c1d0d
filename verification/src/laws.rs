//! What holds of a host as its callers and observers see it.
//!
//! The laws here speak of the observers' own outcomes, of the calls that are
//! made on them, and of what a caller hands in and gets back.
use crate::dispatch::{
    dispatched, law_calls_in_order, law_dispatch_step, law_nobody_to_run, lemma_first_step,
    lemma_untraced_step, traced, Moment,
};
use crate::dispatcher::{
    answered, applying, applying_plain_kvs, applying_sst, gathered, header_for,
    law_unobserved_response, no_checkers, observed_response, proposed, region_changed, role_changed,
    Arrival, Roster,
};
use crate::entry::{law_place, Entry};
use crate::hook::{
    AddChecker, Hook, HookCall, OnRegionChanged, OnRoleChange, PostApplyAdmin, PostApplyQuery,
    PreApplyAdmin, PreApplyPlainKvs, PreApplyQuery, PreApplySst, PreProposeAdmin, PreProposeQuery,
};
use crate::journal::{all_executed, all_stopped, executions, Call};
use crate::messages::{
    AdminRequest, AdminResponse, CfName, CheckPolicy, CmdBatch, Config, RaftCmdRequest,
    RaftCmdResponse, RaftResponseHeader, Region, RegionChangeEvent, Request, Response,
    SplitCheckerHost, StateRole, DB,
};
use crate::observer::{
    fresh, BoxAdminObserver, BoxApplySnapshotObserver, BoxCmdObserver, BoxQueryObserver,
    BoxRegionChangeObserver, BoxRoleObserver, BoxSplitCheckObserver, Error, ObserverContext, Seat,
};
use vstd::prelude::*;

verus! {

/// Law: the admin observers are shown an administrative request before it is
/// applied, one after the other, in their order, each with what the host was
/// given, about the region, and without a bypass. The first that leaves the
/// bypass set is the last to be called; if none does, all are called. The trace
/// holds no other call.
pub proof fn law_pre_apply_admin_calls<'a>(
    roster: Roster,
    region: &'a Region,
    index: u64,
    req: RaftCmdRequest,
    end: ObserverContext<'a>,
    calls: Seq<HookCall>,
    i: int,
)
    requires
        req.admin_request is Some,
        applying(roster, region, index, req, end, calls),
    ensures
        calls.len() <= roster.admin.len(),
        calls.len() < roster.admin.len() ==> end.bypass,
        end.bypass ==> calls.len() > 0,
        end.region == region,
        0 <= i < calls.len() ==> calls[i] == HookCall::PreApplyAdmin(
            roster.admin[i].observer,
            *region,
            index,
            req.admin_request->0,
        ),
        0 <= i < calls.len() ==> exists|left: ObserverContext<'_>|
            {
                &&& left.bypass == (end.bypass && i == calls.len() - 1)
                &&& #[trigger] roster.admin[i].observer.inner.pre_apply_admin_outcome(
                    ObserverContext { region, bypass: false },
                    index,
                    req.admin_request->0,
                    left,
                )
            },
{
    let hook = PreApplyAdmin { index, admin: &req.admin_request->0 };
    law_calls_in_order(roster.admin, hook, region, end, calls, i);
}

/// Law: the query observers are shown all plain requests of a command before it
/// is applied, one after the other, in their order, each with what the host was
/// given, about the region, and without a bypass. The first that leaves the
/// bypass set is the last to be called; if none does, all are called. The trace
/// holds no other call.
pub proof fn law_pre_apply_query_calls<'a>(
    roster: Roster,
    region: &'a Region,
    index: u64,
    req: RaftCmdRequest,
    end: ObserverContext<'a>,
    calls: Seq<HookCall>,
    i: int,
)
    requires
        req.admin_request is None,
        applying(roster, region, index, req, end, calls),
    ensures
        calls.len() <= roster.query.len(),
        calls.len() < roster.query.len() ==> end.bypass,
        end.bypass ==> calls.len() > 0,
        end.region == region,
        0 <= i < calls.len() ==> calls[i] == HookCall::PreApplyQuery(
            roster.query[i].observer,
            *region,
            req.requests@,
        ),
        0 <= i < calls.len() ==> exists|left: ObserverContext<'_>|
            {
                &&& left.bypass == (end.bypass && i == calls.len() - 1)
                &&& #[trigger] roster.query[i].observer.inner.pre_apply_query_outcome(
                    ObserverContext { region, bypass: false },
                    req.requests@,
                    left,
                )
            },
{
    let hook = PreApplyQuery { requests: &req.requests };
    law_calls_in_order(roster.query, hook, region, end, calls, i);
}

/// Law: the apply snapshot observers are shown all key-value pairs of a
/// snapshot, if there are any, one after the other, in their order, each with
/// what the host was given, about the region, and without a bypass. The first
/// that leaves the bypass set is the last to be called; if none does, all are
/// called. The trace holds no other call. Without pairs it is empty.
pub proof fn law_plain_kvs_calls<'a>(
    roster: Roster,
    region: &'a Region,
    cf: CfName,
    kv_pairs: &[(Vec<u8>, Vec<u8>)],
    end: ObserverContext<'a>,
    calls: Seq<HookCall>,
    i: int,
)
    requires
        applying_plain_kvs(roster, region, cf, kv_pairs, end, calls),
    ensures
        kv_pairs@.len() == 0 ==> calls.len() == 0 && end == (ObserverContext {
            region,
            bypass: false,
        }),
        calls.len() <= roster.apply_snapshot.len(),
        kv_pairs@.len() > 0 && calls.len() < roster.apply_snapshot.len() ==> end.bypass,
        end.bypass ==> calls.len() > 0,
        end.region == region,
        0 <= i < calls.len() ==> calls[i] == HookCall::PreApplyPlainKvs(
            roster.apply_snapshot[i].observer,
            *region,
            cf@,
            kv_pairs@,
        ),
        0 <= i < calls.len() ==> exists|left: ObserverContext<'_>|
            {
                &&& left.bypass == (end.bypass && i == calls.len() - 1)
                &&& #[trigger] roster.apply_snapshot[i].observer.inner.pre_apply_plain_kvs_outcome(
                    ObserverContext { region, bypass: false },
                    cf@,
                    kv_pairs@,
                    left,
                )
            },
{
    if kv_pairs@.len() > 0 {
        let hook = PreApplyPlainKvs { cf, kv_pairs };
        law_calls_in_order(roster.apply_snapshot, hook, region, end, calls, i);
    }
}

/// Law: the apply snapshot observers are shown a table file of a snapshot, one
/// after the other, in their order, each with what the host was given, about
/// the region, and without a bypass. The first that leaves the bypass set is
/// the last to be called; if none does, all are called. The trace holds no
/// other call.
pub proof fn law_sst_calls<'a>(
    roster: Roster,
    region: &'a Region,
    cf: CfName,
    path: &str,
    end: ObserverContext<'a>,
    calls: Seq<HookCall>,
    i: int,
)
    requires
        applying_sst(roster, region, cf, path, end, calls),
    ensures
        calls.len() <= roster.apply_snapshot.len(),
        calls.len() < roster.apply_snapshot.len() ==> end.bypass,
        end.bypass ==> calls.len() > 0,
        end.region == region,
        0 <= i < calls.len() ==> calls[i] == HookCall::PreApplySst(
            roster.apply_snapshot[i].observer,
            *region,
            cf@,
            path@,
        ),
        0 <= i < calls.len() ==> exists|left: ObserverContext<'_>|
            {
                &&& left.bypass == (end.bypass && i == calls.len() - 1)
                &&& #[trigger] roster.apply_snapshot[i].observer.inner.pre_apply_sst_outcome(
                    ObserverContext { region, bypass: false },
                    cf@,
                    path@,
                    left,
                )
            },
{
    law_calls_in_order(roster.apply_snapshot, PreApplySst { cf, path }, region, end, calls, i);
}

/// Law: the role observers are told of a change of role, one after the other,
/// in their order, each with what the host was given, about the region, and
/// without a bypass. The first that leaves the bypass set is the last to be
/// called; if none does, all are called. The trace holds no other call.
pub proof fn law_role_change_calls<'a>(
    roster: Roster,
    region: &'a Region,
    role: StateRole,
    end: ObserverContext<'a>,
    calls: Seq<HookCall>,
    i: int,
)
    requires
        role_changed(roster, region, role, end, calls),
    ensures
        calls.len() <= roster.role.len(),
        calls.len() < roster.role.len() ==> end.bypass,
        end.bypass ==> calls.len() > 0,
        end.region == region,
        0 <= i < calls.len() ==> calls[i] == HookCall::OnRoleChange(
            roster.role[i].observer,
            *region,
            role,
        ),
        0 <= i < calls.len() ==> exists|left: ObserverContext<'_>|
            {
                &&& left.bypass == (end.bypass && i == calls.len() - 1)
                &&& #[trigger] roster.role[i].observer.inner.on_role_change_outcome(
                    ObserverContext { region, bypass: false },
                    role,
                    left,
                )
            },
{
    law_calls_in_order(roster.role, OnRoleChange { role }, region, end, calls, i);
}

/// Law: the region change observers are told of a change of a region, one after
/// the other, in their order, each with what the host was given, about the
/// region, and without a bypass. The first that leaves the bypass set is the
/// last to be called; if none does, all are called. The trace holds no other
/// call.
pub proof fn law_region_change_calls<'a>(
    roster: Roster,
    region: &'a Region,
    event: RegionChangeEvent,
    role: StateRole,
    end: ObserverContext<'a>,
    calls: Seq<HookCall>,
    i: int,
)
    requires
        region_changed(roster, region, event, role, end, calls),
    ensures
        calls.len() <= roster.region_change.len(),
        calls.len() < roster.region_change.len() ==> end.bypass,
        end.bypass ==> calls.len() > 0,
        end.region == region,
        0 <= i < calls.len() ==> calls[i] == HookCall::OnRegionChanged(
            roster.region_change[i].observer,
            *region,
            event,
            role,
        ),
        0 <= i < calls.len() ==> exists|left: ObserverContext<'_>|
            {
                &&& left.bypass == (end.bypass && i == calls.len() - 1)
                &&& #[trigger] roster.region_change[i].observer.inner.on_region_changed_outcome(
                    ObserverContext { region, bypass: false },
                    event,
                    role,
                    left,
                )
            },
{
    let hook = OnRegionChanged { event, role };
    law_calls_in_order(roster.region_change, hook, region, end, calls, i);
}

/// Law: an administrative request that is proposed goes to the first admin
/// observer as it is, about the region and without a bypass. If that observer
/// refuses it, its error is the answer; if it sets the bypass, the request goes
/// through; and else the others are asked about what it left, as if they were
/// the only ones. The plain requests stay as they are.
pub proof fn law_admin_proposal_step(
    roster: Roster,
    region: &Region,
    before: RaftCmdRequest,
    after: RaftCmdRequest,
    answer: Result<(), Error>,
)
    requires
        before.admin_request is Some,
        roster.admin.len() > 0,
        proposed(roster, region, before, after, answer),
    ensures
        after.requests == before.requests,
        after.admin_request is Some,
        exists|left: ObserverContext<'_>, admin: AdminRequest, first: Result<(), Error>|
            {
                &&& #[trigger] roster.admin[0].observer.inner.pre_propose_admin_outcome(
                    ObserverContext { region, bypass: false },
                    before.admin_request->0,
                    left,
                    admin,
                    first,
                )
                &&& if first is Err {
                    answer == first && after.admin_request == Some(admin)
                } else if left.bypass {
                    answer is Ok && after.admin_request == Some(admin)
                } else {
                    proposed(
                        Roster { admin: roster.admin.drop_first(), ..roster },
                        region,
                        RaftCmdRequest { admin_request: Some(admin), ..before },
                        after,
                        answer,
                    )
                }
            },
{
    let begin = Moment {
        ctx: ObserverContext { region, bypass: false },
        state: before.admin_request->0,
    };
    let end = choose|end: ObserverContext<'_>| #[trigger]
        dispatched(
            roster.admin,
            PreProposeAdmin,
            begin,
            Moment { ctx: end, state: after.admin_request->0 },
            answer,
        );
    let last = Moment { ctx: end, state: after.admin_request->0 };
    let (next, first) = lemma_untraced_step(roster.admin, PreProposeAdmin, begin, last, answer);
    assert(roster.admin[0].observer.inner.pre_propose_admin_outcome(
        begin.ctx,
        begin.state,
        next.ctx,
        next.state,
        first,
    ));
    if first is Ok && !next.ctx.bypass {
        let others = Roster { admin: roster.admin.drop_first(), ..roster };
        let given = RaftCmdRequest { admin_request: Some(next.state), ..before };
        assert(dispatched(
            others.admin,
            PreProposeAdmin,
            Moment { ctx: fresh(region), state: given.admin_request->0 },
            last,
            answer,
        ));
        assert(proposed(others, region, given, after, answer));
    }
}

/// Law: plain requests that are proposed go to the first query observer, all of
/// them, about the region and without a bypass. If that observer refuses them,
/// its error is the answer, and none is left; if it sets the bypass, what it left
/// goes through; and else the others are asked about what it left, as if they
/// were the only ones.
pub proof fn law_query_proposal_step(
    roster: Roster,
    region: &Region,
    before: RaftCmdRequest,
    after: RaftCmdRequest,
    answer: Result<(), Error>,
)
    requires
        before.admin_request is None,
        roster.query.len() > 0,
        proposed(roster, region, before, after, answer),
    ensures
        after.admin_request is None,
        exists|left: ObserverContext<'_>, requests: Vec<Request>, first: Result<(), Error>|
            {
                &&& #[trigger] roster.query[0].observer.inner.pre_propose_query_outcome(
                    ObserverContext { region, bypass: false },
                    before.requests@,
                    left,
                    requests@,
                    first,
                )
                &&& if first is Err {
                    answer == first && after.requests@.len() == 0
                } else if left.bypass {
                    answer is Ok && after.requests == requests
                } else {
                    proposed(
                        Roster { query: roster.query.drop_first(), ..roster },
                        region,
                        RaftCmdRequest { requests, ..before },
                        after,
                        answer,
                    )
                }
            },
{
    let begin = Moment { ctx: ObserverContext { region, bypass: false }, state: before.requests };
    let (end, requests) = choose|end: ObserverContext<'_>, requests: Vec<Request>|
        {
            &&& #[trigger] dispatched(
                roster.query,
                PreProposeQuery,
                begin,
                Moment { ctx: end, state: requests },
                answer,
            )
            &&& answer is Ok ==> after.requests == requests
            &&& answer is Err ==> after.requests@ == Seq::<Request>::empty()
        };
    let last = Moment { ctx: end, state: requests };
    let (next, first) = lemma_untraced_step(roster.query, PreProposeQuery, begin, last, answer);
    assert(roster.query[0].observer.inner.pre_propose_query_outcome(
        begin.ctx,
        begin.state@,
        next.ctx,
        next.state@,
        first,
    ));
    if first is Ok && !next.ctx.bypass {
        let others = Roster { query: roster.query.drop_first(), ..roster };
        let given = RaftCmdRequest { requests: next.state, ..before };
        assert(dispatched(
            others.query,
            PreProposeQuery,
            Moment { ctx: fresh(region), state: given.requests },
            last,
            answer,
        ));
        assert(proposed(others, region, given, after, answer));
    }
}

/// Law: an administrative request that the first admin observer can only refuse
/// is refused.
pub proof fn law_admin_refusal_is_certain(
    roster: Roster,
    region: &Region,
    before: RaftCmdRequest,
    after: RaftCmdRequest,
    answer: Result<(), Error>,
)
    requires
        before.admin_request is Some,
        roster.admin.len() > 0,
        forall|left: ObserverContext<'_>, admin: AdminRequest, first: Result<(), Error>| #[trigger]
            roster.admin[0].observer.inner.pre_propose_admin_outcome(
                ObserverContext { region, bypass: false },
                before.admin_request->0,
                left,
                admin,
                first,
            ) ==> first is Err,
        proposed(roster, region, before, after, answer),
    ensures
        answer is Err,
{
    law_admin_proposal_step(roster, region, before, after, answer);
}

/// Law: plain requests that the first query observer can only refuse are
/// refused.
pub proof fn law_query_refusal_is_certain(
    roster: Roster,
    region: &Region,
    before: RaftCmdRequest,
    after: RaftCmdRequest,
    answer: Result<(), Error>,
)
    requires
        before.admin_request is None,
        roster.query.len() > 0,
        forall|left: ObserverContext<'_>, requests: Seq<Request>, first: Result<(), Error>|
            #[trigger]
            roster.query[0].observer.inner.pre_propose_query_outcome(
                ObserverContext { region, bypass: false },
                before.requests@,
                left,
                requests,
                first,
            ) ==> first is Err,
        proposed(roster, region, before, after, answer),
    ensures
        answer is Err,
        after.requests@.len() == 0,
{
    law_query_proposal_step(roster, region, before, after, answer);
}

/// Law: an administrative response goes to the first admin observer as it is,
/// with the index, and with the header of the response or an empty one where it
/// has none. If that observer sets the bypass, what it left is the response; and
/// else the others are shown what it left, as if they were the only ones. The
/// header and the plain responses stay as they are.
pub proof fn law_admin_response_step(
    roster: Roster,
    region: &Region,
    index: u64,
    before: RaftCmdResponse,
    after: RaftCmdResponse,
    calls: Seq<HookCall>,
)
    requires
        before.admin_response is Some,
        roster.admin.len() > 0,
        answered(roster, region, index, before, after, calls),
    ensures
        after.header == before.header,
        after.responses == before.responses,
        after.admin_response is Some,
        exists|header: RaftResponseHeader, left: ObserverContext<'_>, admin: AdminResponse|
            {
                &&& before.header is Some ==> header == before.header->0
                &&& before.header is None ==> header.encoded@.len() == 0
                &&& #[trigger] roster.admin[0].observer.inner.post_apply_admin_outcome(
                    ObserverContext { region, bypass: false },
                    index,
                    header,
                    before.admin_response->0,
                    left,
                    admin,
                )
                &&& calls.len() > 0
                &&& calls[0] == HookCall::PostApplyAdmin(
                    roster.admin[0].observer,
                    *region,
                    index,
                    header,
                    before.admin_response->0,
                )
                &&& if left.bypass {
                    after.admin_response == Some(admin) && calls.len() == 1
                } else {
                    answered(
                        Roster { admin: roster.admin.drop_first(), ..roster },
                        region,
                        index,
                        RaftCmdResponse { admin_response: Some(admin), ..before },
                        after,
                        calls.drop_first(),
                    )
                }
            },
{
    let header = choose|header: RaftResponseHeader| #[trigger]
        header_for(before.header, header) && observed_response(
            roster,
            region,
            index,
            header,
            before,
            after,
            calls,
        );
    let hook = PostApplyAdmin { index, header: &header };
    let begin = Moment {
        ctx: ObserverContext { region, bypass: false },
        state: before.admin_response->0,
    };
    let end = choose|end: ObserverContext<'_>| #[trigger]
        traced(
            roster.admin,
            hook,
            begin,
            Moment { ctx: end, state: after.admin_response->0 },
            Ok::<(), Error>(()),
            calls,
        );
    let last = Moment { ctx: end, state: after.admin_response->0 };
    let answer = Ok::<(), Error>(());
    law_dispatch_step(roster.admin, hook, begin, last, answer, calls);
    let (next, first) = lemma_first_step(roster.admin, hook, begin, last, answer, calls);
    assert(roster.admin[0].observer.inner.post_apply_admin_outcome(
        begin.ctx,
        index,
        header,
        begin.state,
        next.ctx,
        next.state,
    ));
    if !next.ctx.bypass {
        let others = Roster { admin: roster.admin.drop_first(), ..roster };
        let given = RaftCmdResponse { admin_response: Some(next.state), ..before };
        let rest = calls.drop_first();
        assert(traced(
            others.admin,
            PostApplyAdmin { index, header: &header },
            Moment { ctx: fresh(region), state: given.admin_response->0 },
            last,
            answer,
            rest,
        ));
        assert(observed_response(others, region, index, header, given, after, rest));
        assert(header_for(given.header, header));
        assert(answered(others, region, index, given, after, rest));
    }
}

/// Law: plain responses go to the first query observer, all of them, with the
/// header of the response or an empty one where it has none. If that observer
/// sets the bypass, what it left are the responses; and else the others are shown
/// what it left, as if they were the only ones. The header stays as it is.
pub proof fn law_query_response_step(
    roster: Roster,
    region: &Region,
    index: u64,
    before: RaftCmdResponse,
    after: RaftCmdResponse,
    calls: Seq<HookCall>,
)
    requires
        before.admin_response is None,
        roster.query.len() > 0,
        answered(roster, region, index, before, after, calls),
    ensures
        after.header == before.header,
        after.admin_response is None,
        exists|header: RaftResponseHeader, left: ObserverContext<'_>, responses: Vec<Response>|
            {
                &&& before.header is Some ==> header == before.header->0
                &&& before.header is None ==> header.encoded@.len() == 0
                &&& #[trigger] roster.query[0].observer.inner.post_apply_query_outcome(
                    ObserverContext { region, bypass: false },
                    header,
                    before.responses@,
                    left,
                    responses@,
                )
                &&& calls.len() > 0
                &&& calls[0] == HookCall::PostApplyQuery(
                    roster.query[0].observer,
                    *region,
                    header,
                    before.responses@,
                )
                &&& if left.bypass {
                    after.responses == responses && calls.len() == 1
                } else {
                    answered(
                        Roster { query: roster.query.drop_first(), ..roster },
                        region,
                        index,
                        RaftCmdResponse { responses, ..before },
                        after,
                        calls.drop_first(),
                    )
                }
            },
{
    let header = choose|header: RaftResponseHeader| #[trigger]
        header_for(before.header, header) && observed_response(
            roster,
            region,
            index,
            header,
            before,
            after,
            calls,
        );
    let hook = PostApplyQuery { header: &header };
    let begin = Moment { ctx: ObserverContext { region, bypass: false }, state: before.responses };
    let end = choose|end: ObserverContext<'_>| #[trigger]
        traced(
            roster.query,
            hook,
            begin,
            Moment { ctx: end, state: after.responses },
            Ok::<(), Error>(()),
            calls,
        );
    let last = Moment { ctx: end, state: after.responses };
    let answer = Ok::<(), Error>(());
    law_dispatch_step(roster.query, hook, begin, last, answer, calls);
    let (next, first) = lemma_first_step(roster.query, hook, begin, last, answer, calls);
    assert(roster.query[0].observer.inner.post_apply_query_outcome(
        begin.ctx,
        header,
        begin.state@,
        next.ctx,
        next.state@,
    ));
    if !next.ctx.bypass {
        let others = Roster { query: roster.query.drop_first(), ..roster };
        let given = RaftCmdResponse { responses: next.state, ..before };
        let rest = calls.drop_first();
        assert(traced(
            others.query,
            PostApplyQuery { header: &header },
            Moment { ctx: fresh(region), state: given.responses },
            last,
            answer,
            rest,
        ));
        assert(observed_response(others, region, index, header, given, after, rest));
        assert(header_for(given.header, header));
        assert(answered(others, region, index, given, after, rest));
    }
}

/// Law: where a single query observer can make only one thing of the plain
/// responses, that is what becomes of them.
pub proof fn law_single_query_response(
    roster: Roster,
    region: &Region,
    index: u64,
    before: RaftCmdResponse,
    after: RaftCmdResponse,
    calls: Seq<HookCall>,
    made: Seq<Response>,
)
    requires
        before.admin_response is None,
        roster.query.len() == 1,
        forall|header: RaftResponseHeader, left: ObserverContext<'_>, responses: Seq<Response>|
            {
                &&& before.header is Some ==> header == before.header->0
                &&& before.header is None ==> header.encoded@.len() == 0
                &&& #[trigger] roster.query[0].observer.inner.post_apply_query_outcome(
                    ObserverContext { region, bypass: false },
                    header,
                    before.responses@,
                    left,
                    responses,
                )
            } ==> responses == made,
        answered(roster, region, index, before, after, calls),
    ensures
        after.responses@ == made,
        calls.len() == 1,
{
    law_query_response_step(roster, region, index, before, after, calls);
    let nobody = Roster { query: roster.query.drop_first(), ..roster };
    assert forall|between: RaftCmdResponse| #[trigger]
        answered(nobody, region, index, between, after, calls.drop_first())
            && between.admin_response is None implies after == between && calls.len() == 1 by {
        law_unobserved_response(nobody, region, index, between, after, calls.drop_first());
    }
}

/// Law: a split check goes to the first split check observer without checkers,
/// with the configuration and the flag that the host was given, and with the
/// engine and the policy. If that observer sets the bypass, what it left is the
/// split check; and else the others go on with what it left. Without observers
/// there are no checkers.
pub proof fn law_split_check_step(
    roster: Roster,
    cfg: &Config,
    region: &Region,
    engine: DB,
    auto_split: bool,
    policy: CheckPolicy,
    host: SplitCheckerHost<'_>,
)
    requires
        gathered(roster, cfg, region, engine, auto_split, policy, host),
    ensures
        roster.split_check.len() == 0 ==> {
            &&& host.auto_split == auto_split
            &&& host.cfg == cfg
            &&& host.checkers@.len() == 0
        },
        roster.split_check.len() > 0 ==> exists|
            empty: SplitCheckerHost<'_>,
            left: ObserverContext<'_>,
            next: SplitCheckerHost<'_>,
        |
            {
                &&& empty.auto_split == auto_split
                &&& empty.cfg == cfg
                &&& empty.checkers@.len() == 0
                &&& #[trigger] roster.split_check[0].observer.inner.add_checker_outcome(
                    ObserverContext { region, bypass: false },
                    empty,
                    engine,
                    policy,
                    left,
                    next,
                )
                &&& if left.bypass {
                    host == next
                } else {
                    exists|end: ObserverContext<'_>| #[trigger]
                        dispatched(
                            roster.split_check.drop_first(),
                            AddChecker { engine: &engine, policy },
                            Moment { ctx: ObserverContext { region, bypass: false }, state: next },
                            Moment { ctx: end, state: host },
                            Ok::<(), Error>(()),
                        )
                }
            },
{
    let hook = AddChecker { engine: &engine, policy };
    let ctx = ObserverContext { region, bypass: false };
    let (start, end) = choose|start: SplitCheckerHost<'_>, end: ObserverContext<'_>|
        no_checkers(start, cfg, auto_split) && #[trigger] dispatched(
            roster.split_check,
            hook,
            Moment { ctx, state: start },
            Moment { ctx: end, state: host },
            Ok::<(), Error>(()),
        );
    if roster.split_check.len() > 0 {
        let (next, _) = lemma_untraced_step(
            roster.split_check,
            hook,
            Moment { ctx, state: start },
            Moment { ctx: end, state: host },
            Ok::<(), Error>(()),
        );
        assert(roster.split_check[0].observer.inner.add_checker_outcome(
            ctx,
            start,
            engine,
            policy,
            next.ctx,
            next.state,
        ));
    } else {
        assert(roster.split_check == Seq::<Entry<BoxSplitCheckObserver>>::empty());
        law_nobody_to_run::<BoxSplitCheckObserver, _, _>(
            hook,
            Moment { ctx, state: start },
            Moment { ctx: end, state: host },
            Ok::<(), Error>(()),
        );
    }
}

/// Law: where every split check observer adds one checker, keeps the flag and the
/// configuration, and sets no bypass, a split check ends with as many checkers as
/// there are observers, whatever the flag and the policy.
pub proof fn law_one_checker_each(
    roster: Roster,
    cfg: &Config,
    region: &Region,
    engine: DB,
    auto_split: bool,
    policy: CheckPolicy,
    host: SplitCheckerHost<'_>,
)
    requires
        adds_one_each(roster.split_check, engine, policy),
        gathered(roster, cfg, region, engine, auto_split, policy, host),
    ensures
        host.checkers@.len() == roster.split_check.len(),
        host.auto_split == auto_split,
        host.cfg == cfg,
{
    let hook = AddChecker { engine: &engine, policy };
    let ctx = ObserverContext { region, bypass: false };
    let (start, end) = choose|start: SplitCheckerHost<'_>, end: ObserverContext<'_>|
        no_checkers(start, cfg, auto_split) && #[trigger] dispatched(
            roster.split_check,
            hook,
            Moment { ctx, state: start },
            Moment { ctx: end, state: host },
            Ok::<(), Error>(()),
        );
    lemma_one_checker_each(roster.split_check, region, engine, policy, start, end, host);
}

/// Every observer of the entries adds one checker to a split check, keeps the
/// rest of it, and sets no bypass.
pub open spec fn adds_one_each(
    entries: Seq<Entry<BoxSplitCheckObserver>>,
    engine: DB,
    policy: CheckPolicy,
) -> bool {
    forall|
        i: int,
        before: ObserverContext<'_>,
        host_before: SplitCheckerHost<'_>,
        after: ObserverContext<'_>,
        host_after: SplitCheckerHost<'_>,
    |
        0 <= i < entries.len() && #[trigger] entries[i].observer.inner.add_checker_outcome(
            before,
            host_before,
            engine,
            policy,
            after,
            host_after,
        ) ==> {
            &&& !after.bypass
            &&& host_after.checkers@.len() == host_before.checkers@.len() + 1
            &&& host_after.auto_split == host_before.auto_split
            &&& host_after.cfg == host_before.cfg
        }
}

/// From any split check, such observers add as many checkers as they are.
proof fn lemma_one_checker_each<'c>(
    entries: Seq<Entry<BoxSplitCheckObserver>>,
    region: &Region,
    engine: DB,
    policy: CheckPolicy,
    start: SplitCheckerHost<'c>,
    end: ObserverContext<'_>,
    host: SplitCheckerHost<'c>,
)
    requires
        adds_one_each(entries, engine, policy),
        dispatched(
            entries,
            AddChecker { engine: &engine, policy },
            Moment { ctx: ObserverContext { region, bypass: false }, state: start },
            Moment { ctx: end, state: host },
            Ok::<(), Error>(()),
        ),
    ensures
        host.checkers@.len() == start.checkers@.len() + entries.len(),
        host.auto_split == start.auto_split,
        host.cfg == start.cfg,
    decreases entries.len(),
{
    let hook = AddChecker { engine: &engine, policy };
    let begin = Moment { ctx: ObserverContext { region, bypass: false }, state: start };
    let last = Moment { ctx: end, state: host };
    let answer = Ok::<(), Error>(());
    if entries.len() == 0 {
        assert(entries == Seq::<Entry<BoxSplitCheckObserver>>::empty());
        law_nobody_to_run::<BoxSplitCheckObserver, _, _>(hook, begin, last, answer);
    } else {
        let (next, _) = lemma_untraced_step(entries, hook, begin, last, answer);
        assert(entries[0].observer.inner.add_checker_outcome(
            begin.ctx,
            start,
            engine,
            policy,
            next.ctx,
            next.state,
        ));
        let others = entries.drop_first();
        assert forall|
            i: int,
            before: ObserverContext<'_>,
            host_before: SplitCheckerHost<'_>,
            after: ObserverContext<'_>,
            host_after: SplitCheckerHost<'_>,
        |
            0 <= i < others.len() && #[trigger] others[i].observer.inner.add_checker_outcome(
                before,
                host_before,
                engine,
                policy,
                after,
                host_after,
            ) implies {
            &&& !after.bypass
            &&& host_after.checkers@.len() == host_before.checkers@.len() + 1
            &&& host_after.auto_split == host_before.auto_split
            &&& host_after.cfg == host_before.cfg
        } by {
            assert(entries[i + 1].observer.inner.add_checker_outcome(
                before,
                host_before,
                engine,
                policy,
                after,
                host_after,
            ));
        }
        lemma_one_checker_each(others, region, engine, policy, next.state, end, host);
    }
}

/// Law: an admin observer that comes to be registered is started, and goes in
/// front of those of its kind with a greater number and behind all the others.
/// Nobody else is started or moved, and the other kinds stay as they are.
pub proof fn law_admin_arrival(roster: Roster, priority: u32, observer: BoxAdminObserver, i: int)
    requires
        forall|a: int, b: int|
            0 <= a <= b < roster.admin.len() ==> roster.admin[a].priority
                <= roster.admin[b].priority,
    ensures
        ({
            let after = roster.with(Arrival::Admin(priority, observer));
            let n = roster.admin.len();
            &&& after.query == roster.query
            &&& after.apply_snapshot == roster.apply_snapshot
            &&& after.split_check == roster.split_check
            &&& after.role == roster.role
            &&& after.region_change == roster.region_change
            &&& after.cmd == roster.cmd
            &&& after.starts == roster.starts.push(Call::Started(Seat::Admin(observer)))
            &&& after.admin.len() == n + 1
            &&& 0 <= i < n && roster.admin[i].priority <= priority ==> after.admin[i]
                == roster.admin[i]
            &&& 0 <= i < n && roster.admin[i].priority > priority ==> after.admin[i + 1]
                == roster.admin[i]
            &&& {
                &&& 0 <= i <= n
                &&& i > 0 ==> roster.admin[i - 1].priority <= priority
                &&& i < n ==> roster.admin[i].priority > priority
            } ==> after.admin[i] == (Entry { priority, observer })
        }),
{
    law_place(roster.admin, Entry { priority, observer }, i);
}

/// Law: a query observer that comes to be registered is started, and goes in
/// front of those of its kind with a greater number and behind all the others.
/// Nobody else is started or moved, and the other kinds stay as they are.
pub proof fn law_query_arrival(roster: Roster, priority: u32, observer: BoxQueryObserver, i: int)
    requires
        forall|a: int, b: int|
            0 <= a <= b < roster.query.len() ==> roster.query[a].priority
                <= roster.query[b].priority,
    ensures
        ({
            let after = roster.with(Arrival::Query(priority, observer));
            let n = roster.query.len();
            &&& after.admin == roster.admin
            &&& after.apply_snapshot == roster.apply_snapshot
            &&& after.split_check == roster.split_check
            &&& after.role == roster.role
            &&& after.region_change == roster.region_change
            &&& after.cmd == roster.cmd
            &&& after.starts == roster.starts.push(Call::Started(Seat::Query(observer)))
            &&& after.query.len() == n + 1
            &&& 0 <= i < n && roster.query[i].priority <= priority ==> after.query[i]
                == roster.query[i]
            &&& 0 <= i < n && roster.query[i].priority > priority ==> after.query[i + 1]
                == roster.query[i]
            &&& {
                &&& 0 <= i <= n
                &&& i > 0 ==> roster.query[i - 1].priority <= priority
                &&& i < n ==> roster.query[i].priority > priority
            } ==> after.query[i] == (Entry { priority, observer })
        }),
{
    law_place(roster.query, Entry { priority, observer }, i);
}

/// Law: an apply snapshot observer that comes to be registered is started, and
/// goes in front of those of its kind with a greater number and behind all the
/// others. Nobody else is started or moved, and the other kinds stay as they
/// are.
pub proof fn law_apply_snapshot_arrival(
    roster: Roster,
    priority: u32,
    observer: BoxApplySnapshotObserver,
    i: int,
)
    requires
        forall|a: int, b: int|
            0 <= a <= b < roster.apply_snapshot.len() ==> roster.apply_snapshot[a].priority
                <= roster.apply_snapshot[b].priority,
    ensures
        ({
            let after = roster.with(Arrival::ApplySnapshot(priority, observer));
            let n = roster.apply_snapshot.len();
            &&& after.admin == roster.admin
            &&& after.query == roster.query
            &&& after.split_check == roster.split_check
            &&& after.role == roster.role
            &&& after.region_change == roster.region_change
            &&& after.cmd == roster.cmd
            &&& after.starts == roster.starts.push(Call::Started(Seat::ApplySnapshot(observer)))
            &&& after.apply_snapshot.len() == n + 1
            &&& 0 <= i < n && roster.apply_snapshot[i].priority <= priority ==> after.apply_snapshot[i]
                == roster.apply_snapshot[i]
            &&& 0 <= i < n && roster.apply_snapshot[i].priority > priority ==> after.apply_snapshot[i + 1]
                == roster.apply_snapshot[i]
            &&& {
                &&& 0 <= i <= n
                &&& i > 0 ==> roster.apply_snapshot[i - 1].priority <= priority
                &&& i < n ==> roster.apply_snapshot[i].priority > priority
            } ==> after.apply_snapshot[i] == (Entry { priority, observer })
        }),
{
    law_place(roster.apply_snapshot, Entry { priority, observer }, i);
}

/// Law: a split check observer that comes to be registered is started, and goes
/// in front of those of its kind with a greater number and behind all the
/// others. Nobody else is started or moved, and the other kinds stay as they
/// are.
pub proof fn law_split_check_arrival(
    roster: Roster,
    priority: u32,
    observer: BoxSplitCheckObserver,
    i: int,
)
    requires
        forall|a: int, b: int|
            0 <= a <= b < roster.split_check.len() ==> roster.split_check[a].priority
                <= roster.split_check[b].priority,
    ensures
        ({
            let after = roster.with(Arrival::SplitCheck(priority, observer));
            let n = roster.split_check.len();
            &&& after.admin == roster.admin
            &&& after.query == roster.query
            &&& after.apply_snapshot == roster.apply_snapshot
            &&& after.role == roster.role
            &&& after.region_change == roster.region_change
            &&& after.cmd == roster.cmd
            &&& after.starts == roster.starts.push(Call::Started(Seat::SplitCheck(observer)))
            &&& after.split_check.len() == n + 1
            &&& 0 <= i < n && roster.split_check[i].priority <= priority ==> after.split_check[i]
                == roster.split_check[i]
            &&& 0 <= i < n && roster.split_check[i].priority > priority ==> after.split_check[i + 1]
                == roster.split_check[i]
            &&& {
                &&& 0 <= i <= n
                &&& i > 0 ==> roster.split_check[i - 1].priority <= priority
                &&& i < n ==> roster.split_check[i].priority > priority
            } ==> after.split_check[i] == (Entry { priority, observer })
        }),
{
    law_place(roster.split_check, Entry { priority, observer }, i);
}

/// Law: a role observer that comes to be registered is started, and goes in
/// front of those of its kind with a greater number and behind all the others.
/// Nobody else is started or moved, and the other kinds stay as they are.
pub proof fn law_role_arrival(roster: Roster, priority: u32, observer: BoxRoleObserver, i: int)
    requires
        forall|a: int, b: int|
            0 <= a <= b < roster.role.len() ==> roster.role[a].priority
                <= roster.role[b].priority,
    ensures
        ({
            let after = roster.with(Arrival::Role(priority, observer));
            let n = roster.role.len();
            &&& after.admin == roster.admin
            &&& after.query == roster.query
            &&& after.apply_snapshot == roster.apply_snapshot
            &&& after.split_check == roster.split_check
            &&& after.region_change == roster.region_change
            &&& after.cmd == roster.cmd
            &&& after.starts == roster.starts.push(Call::Started(Seat::Role(observer)))
            &&& after.role.len() == n + 1
            &&& 0 <= i < n && roster.role[i].priority <= priority ==> after.role[i]
                == roster.role[i]
            &&& 0 <= i < n && roster.role[i].priority > priority ==> after.role[i + 1]
                == roster.role[i]
            &&& {
                &&& 0 <= i <= n
                &&& i > 0 ==> roster.role[i - 1].priority <= priority
                &&& i < n ==> roster.role[i].priority > priority
            } ==> after.role[i] == (Entry { priority, observer })
        }),
{
    law_place(roster.role, Entry { priority, observer }, i);
}

/// Law: a region change observer that comes to be registered is started, and
/// goes in front of those of its kind with a greater number and behind all the
/// others. Nobody else is started or moved, and the other kinds stay as they
/// are.
pub proof fn law_region_change_arrival(
    roster: Roster,
    priority: u32,
    observer: BoxRegionChangeObserver,
    i: int,
)
    requires
        forall|a: int, b: int|
            0 <= a <= b < roster.region_change.len() ==> roster.region_change[a].priority
                <= roster.region_change[b].priority,
    ensures
        ({
            let after = roster.with(Arrival::RegionChange(priority, observer));
            let n = roster.region_change.len();
            &&& after.admin == roster.admin
            &&& after.query == roster.query
            &&& after.apply_snapshot == roster.apply_snapshot
            &&& after.split_check == roster.split_check
            &&& after.role == roster.role
            &&& after.cmd == roster.cmd
            &&& after.starts == roster.starts.push(Call::Started(Seat::RegionChange(observer)))
            &&& after.region_change.len() == n + 1
            &&& 0 <= i < n && roster.region_change[i].priority <= priority ==> after.region_change[i]
                == roster.region_change[i]
            &&& 0 <= i < n && roster.region_change[i].priority > priority ==> after.region_change[i + 1]
                == roster.region_change[i]
            &&& {
                &&& 0 <= i <= n
                &&& i > 0 ==> roster.region_change[i - 1].priority <= priority
                &&& i < n ==> roster.region_change[i].priority > priority
            } ==> after.region_change[i] == (Entry { priority, observer })
        }),
{
    law_place(roster.region_change, Entry { priority, observer }, i);
}

/// Law: a command observer that comes to be registered is started, and goes in
/// front of those of its kind with a greater number and behind all the others.
/// Nobody else is started or moved, and the other kinds stay as they are.
pub proof fn law_cmd_arrival(roster: Roster, priority: u32, observer: BoxCmdObserver, i: int)
    requires
        forall|a: int, b: int|
            0 <= a <= b < roster.cmd.len() ==> roster.cmd[a].priority
                <= roster.cmd[b].priority,
    ensures
        ({
            let after = roster.with(Arrival::Cmd(priority, observer));
            let n = roster.cmd.len();
            &&& after.admin == roster.admin
            &&& after.query == roster.query
            &&& after.apply_snapshot == roster.apply_snapshot
            &&& after.split_check == roster.split_check
            &&& after.role == roster.role
            &&& after.region_change == roster.region_change
            &&& after.starts == roster.starts.push(Call::Started(Seat::Cmd(observer)))
            &&& after.cmd.len() == n + 1
            &&& 0 <= i < n && roster.cmd[i].priority <= priority ==> after.cmd[i]
                == roster.cmd[i]
            &&& 0 <= i < n && roster.cmd[i].priority > priority ==> after.cmd[i + 1]
                == roster.cmd[i]
            &&& {
                &&& 0 <= i <= n
                &&& i > 0 ==> roster.cmd[i - 1].priority <= priority
                &&& i < n ==> roster.cmd[i].priority > priority
            } ==> after.cmd[i] == (Entry { priority, observer })
        }),
{
    law_place(roster.cmd, Entry { priority, observer }, i);
}

/// Law: a shutdown stops the admin observers, then the query observers, then
/// the split check observers, then the command observers, each once and in
/// their order. The journal holds no other call.
pub proof fn law_shutdown_calls(roster: Roster, i: int)
    ensures
        roster.stops().len() == roster.admin.len() + roster.query.len() + roster.split_check.len()
            + roster.cmd.len(),
        0 <= i < roster.admin.len() ==> roster.stops()[i] == Call::Stopped(
            Seat::Admin(roster.admin[i].observer),
        ),
        0 <= i < roster.query.len() ==> roster.stops()[roster.admin.len() + i] == Call::Stopped(
            Seat::Query(roster.query[i].observer),
        ),
        0 <= i < roster.split_check.len() ==> roster.stops()[roster.admin.len() + roster.query.len()
            + i] == Call::Stopped(Seat::SplitCheck(roster.split_check[i].observer)),
        0 <= i < roster.cmd.len() ==> roster.stops()[roster.admin.len() + roster.query.len()
            + roster.split_check.len() + i] == Call::Stopped(Seat::Cmd(roster.cmd[i].observer)),
{
}

/// Law: where all observers of the kinds that a shutdown stops have been stopped,
/// each of them has.
pub proof fn law_each_is_stopped(roster: Roster, i: int)
    ensures
        all_stopped(roster.admin) && 0 <= i < roster.admin.len()
            ==> roster.admin[i].observer.inner.stopped(),
        all_stopped(roster.query) && 0 <= i < roster.query.len()
            ==> roster.query[i].observer.inner.stopped(),
        all_stopped(roster.split_check) && 0 <= i < roster.split_check.len()
            ==> roster.split_check[i].observer.inner.stopped(),
        all_stopped(roster.cmd) && 0 <= i < roster.cmd.len()
            ==> roster.cmd[i].observer.inner.stopped(),
{
}

/// Law: every command observer is told of executed commands, once, in its turn,
/// and with the whole batch. The journal holds no other call.
pub proof fn law_execution_calls(roster: Roster, batch: Seq<CmdBatch>, i: int)
    ensures
        executions(roster.cmd, batch).len() == roster.cmd.len(),
        0 <= i < roster.cmd.len() ==> executions(roster.cmd, batch)[i] == Call::Executed(
            Seat::Cmd(roster.cmd[i].observer),
            batch,
        ),
        all_executed(roster.cmd, batch) && 0 <= i < roster.cmd.len()
            ==> roster.cmd[i].observer.inner.batch_executed(batch),
{
}

/// Law: the observers of every kind stand in the order of their numbers wherever
/// a roster is ordered.
pub proof fn law_ordered_roster(roster: Roster, i: int, j: int)
    requires
        roster.ordered(),
        0 <= i <= j,
    ensures
        j < roster.admin.len() ==> roster.admin[i].priority <= roster.admin[j].priority,
        j < roster.query.len() ==> roster.query[i].priority <= roster.query[j].priority,
        j < roster.apply_snapshot.len() ==> roster.apply_snapshot[i].priority <= roster.apply_snapshot[j].priority,
        j < roster.split_check.len() ==> roster.split_check[i].priority <= roster.split_check[j].priority,
        j < roster.role.len() ==> roster.role[i].priority <= roster.role[j].priority,
        j < roster.region_change.len() ==> roster.region_change[i].priority <= roster.region_change[j].priority,
        j < roster.cmd.len() ==> roster.cmd[i].priority <= roster.cmd[j].priority,
{
}

} // verus!
