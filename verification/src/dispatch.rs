//! Running one hook through the observers of a list.
//!
//! The observers are run one after the other, each on what the one before it
//! left behind, and each in a context about the region of the dispatch. The
//! first that answers with an error, or leaves the context with the bypass set,
//! is the last to be run.
use crate::entry::{enlisted, lemma_slot_splits, ordered, slot, Entry};
use crate::hook::{Hook, HookCall};
use crate::messages::{
    AdminRequest, AdminResponse, CfName, CheckPolicy, RaftResponseHeader, Region,
    RegionChangeEvent, Request, Response, SplitCheckerHost, StateRole, DB,
};
use crate::observer::{
    BoxAdminObserver, BoxApplySnapshotObserver, BoxQueryObserver, BoxRegionChangeObserver,
    BoxRoleObserver, BoxSplitCheckObserver, Error, ObserverContext,
};
use vstd::prelude::*;

verus! {

/// The calls of hooks that were made through the trace, in their order.
///
/// It is kept for proofs alone and takes no room. Only a dispatch begins one,
/// and only the methods that make the calls write in it, one line for each call.
/// It says nothing of calls that are made past it: those it does not rule out.
pub struct Trace {
    calls: Ghost<Seq<HookCall>>,
}

impl View for Trace {
    type V = Seq<HookCall>;

    closed spec fn view(&self) -> Seq<HookCall> {
        self.calls@
    }
}

impl Trace {
    /// A trace of no calls.
    fn new() -> (trace: Trace)
        ensures
            trace@ == Seq::<HookCall>::empty(),
    {
        Trace { calls: Ghost(Seq::empty()) }
    }

    /// Calls `pre_propose_admin` of one observer.
    pub(crate) fn pre_propose_admin(
        &mut self,
        observer: &BoxAdminObserver,
        ctx: &mut ObserverContext<'_>,
        admin: &mut AdminRequest,
    ) -> (answer: Result<(), Error>)
        ensures
            observer.inner.pre_propose_admin_outcome(
                *old(ctx),
                *old(admin),
                *final(ctx),
                *final(admin),
                answer,
            ),
            final(self)@ == old(self)@.push(
                HookCall::PreProposeAdmin(*observer, *old(ctx).region, *old(admin)),
            ),
    {
        let ghost call = HookCall::PreProposeAdmin(*observer, *ctx.region, *admin);
        let answer = observer.inner.pre_propose_admin(ctx, admin);
        self.calls = Ghost(self.calls@.push(call));
        answer
    }

    /// Calls `pre_apply_admin` of one observer.
    pub(crate) fn pre_apply_admin(
        &mut self,
        observer: &BoxAdminObserver,
        ctx: &mut ObserverContext<'_>,
        index: u64,
        admin: &AdminRequest,
    )
        ensures
            observer.inner.pre_apply_admin_outcome(*old(ctx), index, *admin, *final(ctx)),
            final(self)@ == old(self)@.push(
                HookCall::PreApplyAdmin(*observer, *old(ctx).region, index, *admin),
            ),
    {
        let ghost call = HookCall::PreApplyAdmin(*observer, *ctx.region, index, *admin);
        observer.inner.pre_apply_admin(ctx, index, admin);
        self.calls = Ghost(self.calls@.push(call));
    }

    /// Calls `post_apply_admin` of one observer.
    pub(crate) fn post_apply_admin(
        &mut self,
        observer: &BoxAdminObserver,
        ctx: &mut ObserverContext<'_>,
        index: u64,
        header: &RaftResponseHeader,
        admin: &mut AdminResponse,
    )
        ensures
            observer.inner.post_apply_admin_outcome(
                *old(ctx),
                index,
                *header,
                *old(admin),
                *final(ctx),
                *final(admin),
            ),
            final(self)@ == old(self)@.push(
                HookCall::PostApplyAdmin(*observer, *old(ctx).region, index, *header, *old(admin)),
            ),
    {
        let ghost call = HookCall::PostApplyAdmin(*observer, *ctx.region, index, *header, *admin);
        observer.inner.post_apply_admin(ctx, index, header, admin);
        self.calls = Ghost(self.calls@.push(call));
    }

    /// Calls `pre_propose_query` of one observer.
    pub(crate) fn pre_propose_query(
        &mut self,
        observer: &BoxQueryObserver,
        ctx: &mut ObserverContext<'_>,
        requests: &mut Vec<Request>,
    ) -> (answer: Result<(), Error>)
        ensures
            observer.inner.pre_propose_query_outcome(
                *old(ctx),
                old(requests)@,
                *final(ctx),
                final(requests)@,
                answer,
            ),
            final(self)@ == old(self)@.push(
                HookCall::PreProposeQuery(*observer, *old(ctx).region, old(requests)@),
            ),
    {
        let ghost call = HookCall::PreProposeQuery(*observer, *ctx.region, requests@);
        let answer = observer.inner.pre_propose_query(ctx, requests);
        self.calls = Ghost(self.calls@.push(call));
        answer
    }

    /// Calls `pre_apply_query` of one observer.
    pub(crate) fn pre_apply_query(
        &mut self,
        observer: &BoxQueryObserver,
        ctx: &mut ObserverContext<'_>,
        requests: &[Request],
    )
        ensures
            observer.inner.pre_apply_query_outcome(*old(ctx), requests@, *final(ctx)),
            final(self)@ == old(self)@.push(
                HookCall::PreApplyQuery(*observer, *old(ctx).region, requests@),
            ),
    {
        let ghost call = HookCall::PreApplyQuery(*observer, *ctx.region, requests@);
        observer.inner.pre_apply_query(ctx, requests);
        self.calls = Ghost(self.calls@.push(call));
    }

    /// Calls `post_apply_query` of one observer.
    pub(crate) fn post_apply_query(
        &mut self,
        observer: &BoxQueryObserver,
        ctx: &mut ObserverContext<'_>,
        header: &RaftResponseHeader,
        responses: &mut Vec<Response>,
    )
        ensures
            observer.inner.post_apply_query_outcome(
                *old(ctx),
                *header,
                old(responses)@,
                *final(ctx),
                final(responses)@,
            ),
            final(self)@ == old(self)@.push(
                HookCall::PostApplyQuery(*observer, *old(ctx).region, *header, old(responses)@),
            ),
    {
        let ghost call = HookCall::PostApplyQuery(*observer, *ctx.region, *header, responses@);
        observer.inner.post_apply_query(ctx, header, responses);
        self.calls = Ghost(self.calls@.push(call));
    }

    /// Calls `pre_apply_plain_kvs` of one observer.
    pub(crate) fn pre_apply_plain_kvs(
        &mut self,
        observer: &BoxApplySnapshotObserver,
        ctx: &mut ObserverContext<'_>,
        cf: CfName,
        kv_pairs: &[(Vec<u8>, Vec<u8>)],
    )
        ensures
            observer.inner.pre_apply_plain_kvs_outcome(*old(ctx), cf@, kv_pairs@, *final(ctx)),
            final(self)@ == old(self)@.push(
                HookCall::PreApplyPlainKvs(*observer, *old(ctx).region, cf@, kv_pairs@),
            ),
    {
        let ghost call = HookCall::PreApplyPlainKvs(*observer, *ctx.region, cf@, kv_pairs@);
        observer.inner.pre_apply_plain_kvs(ctx, cf, kv_pairs);
        self.calls = Ghost(self.calls@.push(call));
    }

    /// Calls `pre_apply_sst` of one observer.
    pub(crate) fn pre_apply_sst(
        &mut self,
        observer: &BoxApplySnapshotObserver,
        ctx: &mut ObserverContext<'_>,
        cf: CfName,
        path: &str,
    )
        ensures
            observer.inner.pre_apply_sst_outcome(*old(ctx), cf@, path@, *final(ctx)),
            final(self)@ == old(self)@.push(
                HookCall::PreApplySst(*observer, *old(ctx).region, cf@, path@),
            ),
    {
        let ghost call = HookCall::PreApplySst(*observer, *ctx.region, cf@, path@);
        observer.inner.pre_apply_sst(ctx, cf, path);
        self.calls = Ghost(self.calls@.push(call));
    }

    /// Calls `add_checker` of one observer.
    pub(crate) fn add_checker(
        &mut self,
        observer: &BoxSplitCheckObserver,
        ctx: &mut ObserverContext<'_>,
        host: &mut SplitCheckerHost<'_>,
        engine: &DB,
        policy: CheckPolicy,
    )
        ensures
            observer.inner.add_checker_outcome(
                *old(ctx),
                *old(host),
                *engine,
                policy,
                *final(ctx),
                *final(host),
            ),
            final(self)@ == old(self)@.push(
                HookCall::AddChecker(
                    *observer,
                    *old(ctx).region,
                    old(host).auto_split,
                    *old(host).cfg,
                    old(host).checkers@,
                    *engine,
                    policy,
                ),
            ),
    {
        let ghost call = HookCall::AddChecker(
            *observer,
            *ctx.region,
            host.auto_split,
            *host.cfg,
            host.checkers@,
            *engine,
            policy,
        );
        observer.inner.add_checker(ctx, host, engine, policy);
        self.calls = Ghost(self.calls@.push(call));
    }

    /// Calls `on_role_change` of one observer.
    pub(crate) fn on_role_change(
        &mut self,
        observer: &BoxRoleObserver,
        ctx: &mut ObserverContext<'_>,
        role: StateRole,
    )
        ensures
            observer.inner.on_role_change_outcome(*old(ctx), role, *final(ctx)),
            final(self)@ == old(self)@.push(
                HookCall::OnRoleChange(*observer, *old(ctx).region, role),
            ),
    {
        let ghost call = HookCall::OnRoleChange(*observer, *ctx.region, role);
        observer.inner.on_role_change(ctx, role);
        self.calls = Ghost(self.calls@.push(call));
    }

    /// Calls `on_region_changed` of one observer.
    pub(crate) fn on_region_changed(
        &mut self,
        observer: &BoxRegionChangeObserver,
        ctx: &mut ObserverContext<'_>,
        event: RegionChangeEvent,
        role: StateRole,
    )
        ensures
            observer.inner.on_region_changed_outcome(*old(ctx), event, role, *final(ctx)),
            final(self)@ == old(self)@.push(
                HookCall::OnRegionChanged(*observer, *old(ctx).region, event, role),
            ),
    {
        let ghost call = HookCall::OnRegionChanged(*observer, *ctx.region, event, role);
        observer.inner.on_region_changed(ctx, event, role);
        self.calls = Ghost(self.calls@.push(call));
    }
}

/// What stands between the runs of two observers.
pub struct Moment<'a, S> {
    pub ctx: ObserverContext<'a>,
    pub state: S,
}

/// The course of a dispatch: what the observers that were run answered, and
/// what stood before the first, between each two, and after the last of them.
pub struct Run<'a, S> {
    pub moments: Seq<Moment<'a, S>>,
    pub answers: Seq<Result<(), Error>>,
}

/// The dispatch ends with an observer that answers and leaves behind this.
pub open spec fn halts(ctx: ObserverContext<'_>, answer: Result<(), Error>) -> bool {
    answer is Err || ctx.bypass
}

impl<'a, S> Run<'a, S> {
    /// How many observers were run.
    pub open spec fn count(self) -> int {
        self.answers.len() as int
    }

    /// What stood before the first observer.
    pub open spec fn first(self) -> Moment<'a, S> {
        self.moments[0]
    }

    /// What the last observer left behind.
    pub open spec fn last(self) -> Moment<'a, S> {
        self.moments[self.count()]
    }

    /// The observer at `i` ended the run.
    pub open spec fn halted_at(self, i: int) -> bool {
        halts(self.moments[i + 1].ctx, self.answers[i])
    }

    /// The observer at `i` was run on what stood before it. Of the context that it
    /// left, the bypass is kept; the region is put back.
    pub open spec fn stepped<O, H: Hook<O, S>>(
        self,
        entries: Seq<Entry<O>>,
        hook: H,
        i: int,
    ) -> bool {
        &&& self.moments[i + 1].ctx.region == self.moments[i].ctx.region
        &&& exists|left: ObserverContext<'_>|
            left.bypass == self.moments[i + 1].ctx.bypass && #[trigger] hook.outcome(
                entries[i].observer,
                self.moments[i].ctx,
                self.moments[i].state,
                left,
                self.moments[i + 1].state,
                self.answers[i],
            )
    }

    /// The run takes the hook through the entries from the front, goes on after
    /// every observer that does not end it, and stops at the first that does.
    pub open spec fn runs<O, H: Hook<O, S>>(self, entries: Seq<Entry<O>>, hook: H) -> bool {
        &&& self.moments.len() == self.count() + 1
        &&& self.count() <= entries.len()
        &&& forall|i: int| 0 <= i < self.count() ==> #[trigger] self.stepped(entries, hook, i)
        &&& forall|i: int| 0 <= i < self.count() - 1 ==> !#[trigger] self.halted_at(i)
        &&& self.count() < entries.len() ==> self.count() > 0 && self.halted_at(self.count() - 1)
    }

    /// What the dispatch answers: the error of the observer that was run last,
    /// if it answered with one.
    pub open spec fn answer(self) -> Result<(), Error> {
        if self.count() > 0 && self.answers[self.count() - 1] is Err {
            self.answers[self.count() - 1]
        } else {
            Ok(())
        }
    }
}

impl<'a, S> Run<'a, S> {
    /// The calls that the run makes, in their order.
    pub open spec fn calls<O, H: Hook<O, S>>(self, entries: Seq<Entry<O>>, hook: H) -> Seq<
        HookCall,
    > {
        Seq::new(
            self.answers.len(),
            |i: int|
                hook.call(
                    entries[i].observer,
                    *self.moments[i].ctx.region,
                    self.moments[i].state,
                ),
        )
    }
}

/// A dispatch of the hook to the entries may lead from `before` to `after` and
/// answer with `answer`.
pub open spec fn dispatched<'a, O, S, H: Hook<O, S>>(
    entries: Seq<Entry<O>>,
    hook: H,
    before: Moment<'a, S>,
    after: Moment<'a, S>,
    answer: Result<(), Error>,
) -> bool {
    exists|run: Run<'a, S>|
        {
            &&& #[trigger] run.runs(entries, hook)
            &&& run.first() == before
            &&& run.last() == after
            &&& run.answer() == answer
        }
}

/// A dispatch of the hook to the entries may lead from `before` to `after` and
/// answer with `answer`, and make exactly `calls`.
pub open spec fn traced<'a, O, S, H: Hook<O, S>>(
    entries: Seq<Entry<O>>,
    hook: H,
    before: Moment<'a, S>,
    after: Moment<'a, S>,
    answer: Result<(), Error>,
    calls: Seq<HookCall>,
) -> bool {
    exists|run: Run<'a, S>|
        {
            &&& #[trigger] run.runs(entries, hook)
            &&& run.first() == before
            &&& run.last() == after
            &&& run.answer() == answer
            &&& run.calls(entries, hook) == calls
        }
}

/// Runs a hook through the observers until one answers with an error or sets
/// the bypass.
pub fn try_dispatch<'a, O, S, H: Hook<O, S>>(
    entries: &Vec<Entry<O>>,
    hook: &H,
    ctx: &mut ObserverContext<'a>,
    state: &mut S,
) -> (out: (Result<(), Error>, Trace))
    ensures
        dispatched(
            entries@,
            *hook,
            Moment { ctx: *old(ctx), state: *old(state) },
            Moment { ctx: *final(ctx), state: *final(state) },
            out.0,
        ),
        traced(
            entries@,
            *hook,
            Moment { ctx: *old(ctx), state: *old(state) },
            Moment { ctx: *final(ctx), state: *final(state) },
            out.0,
            out.1@,
        ),
        final(ctx).region == old(ctx).region,
{
    let mut trace = Trace::new();
    let ghost before = Moment { ctx: *ctx, state: *state };
    let ghost mut run: Run<'a, S> = Run { moments: seq![before], answers: seq![] };
    let mut i: usize = 0;
    while i < entries.len()
        invariant
            i <= entries.len(),
            before == (Moment { ctx: *old(ctx), state: *old(state) }),
            run.count() == i,
            run.moments.len() == i + 1,
            run.first() == before,
            run.last() == (Moment { ctx: *ctx, state: *state }),
            trace@ == run.calls(entries@, *hook),
            ctx.region == old(ctx).region,
            forall|k: int| 0 <= k < i ==> #[trigger] run.stepped(entries@, *hook, k),
            forall|k: int| 0 <= k < i ==> !#[trigger] run.halted_at(k),
        decreases entries.len() - i,
    {
        let ghost earlier = run;
        let region = ctx.region;
        let answer = hook.fire(&entries[i].observer, ctx, state, &mut trace);
        let ghost left = *ctx;
        ctx.region = region;
        proof {
            run = Run {
                moments: earlier.moments.push(Moment { ctx: *ctx, state: *state }),
                answers: earlier.answers.push(answer),
            };
            assert forall|k: int| 0 <= k < i + 1 implies #[trigger] run.stepped(
                entries@,
                *hook,
                k,
            ) by {
                if k < i {
                    assert(earlier.stepped(entries@, *hook, k));
                    assert(run.moments[k] == earlier.moments[k]);
                    assert(run.moments[k + 1] == earlier.moments[k + 1]);
                    assert(run.answers[k] == earlier.answers[k]);
                } else {
                    assert(hook.outcome(
                        entries@[k].observer,
                        run.moments[k].ctx,
                        run.moments[k].state,
                        left,
                        run.moments[k + 1].state,
                        run.answers[k],
                    ));
                }
            }
            assert forall|k: int| 0 <= k < i implies !#[trigger] run.halted_at(k) by {
                assert(!earlier.halted_at(k));
            }
            assert(trace@ == run.calls(entries@, *hook));
        }
        if answer.is_err() {
            assert(run.halted_at(i as int));
            assert(run.runs(entries@, *hook));
            return (answer, trace);
        }
        if ctx.bypass {
            assert(run.halted_at(i as int));
            assert(run.runs(entries@, *hook));
            assert(run.answer() == Ok::<(), Error>(()));
            return (Ok(()), trace);
        }
        i = i + 1;
    }
    proof {
        if i > 0 {
            assert(!run.halted_at(i - 1));
        }
        assert(run.runs(entries@, *hook));
    }
    (Ok(()), trace)
}

/// The hook never answers with an error.
pub open spec fn unfailing<O, S, H: Hook<O, S>>(hook: H) -> bool {
    forall|
        observer: O,
        before: ObserverContext<'_>,
        state_before: S,
        after: ObserverContext<'_>,
        state_after: S,
        answer: Result<(), Error>,
    | #[trigger]
        hook.outcome(observer, before, state_before, after, state_after, answer) ==> answer is Ok
}

/// Runs a hook that never answers with an error through the observers until one
/// sets the bypass.
pub fn dispatch<'a, O, S, H: Hook<O, S>>(
    entries: &Vec<Entry<O>>,
    hook: &H,
    ctx: &mut ObserverContext<'a>,
    state: &mut S,
) -> (trace: Trace)
    requires
        unfailing::<O, S, H>(*hook),
    ensures
        dispatched(
            entries@,
            *hook,
            Moment { ctx: *old(ctx), state: *old(state) },
            Moment { ctx: *final(ctx), state: *final(state) },
            Ok::<(), Error>(()),
        ),
        traced(
            entries@,
            *hook,
            Moment { ctx: *old(ctx), state: *old(state) },
            Moment { ctx: *final(ctx), state: *final(state) },
            Ok::<(), Error>(()),
            trace@,
        ),
        final(ctx).region == old(ctx).region,
{
    let (answer, trace) = try_dispatch(entries, hook, ctx, state);
    proof {
        law_no_error_from_unfailing(
            entries@,
            *hook,
            Moment { ctx: *old(ctx), state: *old(state) },
            Moment { ctx: *ctx, state: *state },
            answer,
        );
    }
    trace
}

/// Law: no error comes from a hook that never answers with one.
pub proof fn law_no_error_from_unfailing<'a, O, S, H: Hook<O, S>>(
    entries: Seq<Entry<O>>,
    hook: H,
    before: Moment<'a, S>,
    after: Moment<'a, S>,
    answer: Result<(), Error>,
)
    requires
        unfailing::<O, S, H>(hook),
        dispatched(entries, hook, before, after, answer),
    ensures
        answer == Ok::<(), Error>(()),
{
    let run = choose|run: Run<'a, S>|
        {
            &&& #[trigger] run.runs(entries, hook)
            &&& run.first() == before
            &&& run.last() == after
            &&& run.answer() == answer
        };
    if run.count() > 0 {
        assert(run.stepped(entries, hook, run.count() - 1));
    }
}

/// Law: less means more. Of two observers of an ordered list, the one that is
/// run earlier does not have the greater number.
pub proof fn law_less_means_more<'a, O, S, H: Hook<O, S>>(
    run: Run<'a, S>,
    entries: Seq<Entry<O>>,
    hook: H,
    earlier: int,
    later: int,
)
    requires
        ordered(entries),
        run.runs(entries, hook),
        0 <= earlier <= later < run.count(),
    ensures
        entries[earlier].priority <= entries[later].priority,
{
}

/// Law: every observer that is run is given a context about the region of the
/// dispatch, whatever the ones before it wrote there. If the dispatch begins
/// without a bypass, none of them is given one.
pub proof fn law_region_is_kept<'a, O, S, H: Hook<O, S>>(
    run: Run<'a, S>,
    entries: Seq<Entry<O>>,
    hook: H,
    i: int,
)
    requires
        run.runs(entries, hook),
        0 <= i <= run.count(),
    ensures
        run.moments[i].ctx.region == run.first().ctx.region,
        i < run.count() && !run.first().ctx.bypass ==> run.moments[i].ctx == run.first().ctx,
    decreases i,
{
    if i > 0 {
        law_region_is_kept(run, entries, hook, i - 1);
        assert(run.stepped(entries, hook, i - 1));
        if i < run.count() {
            assert(!run.halted_at(i - 1));
        }
    }
}

/// Law: after an observer that answers with an error or sets the bypass, no
/// other observer is run.
pub proof fn law_halt_ends_run<'a, O, S, H: Hook<O, S>>(
    run: Run<'a, S>,
    entries: Seq<Entry<O>>,
    hook: H,
    i: int,
)
    requires
        run.runs(entries, hook),
        0 <= i < run.count(),
        run.answers[i] is Err || run.moments[i + 1].ctx.bypass,
    ensures
        run.count() == i + 1,
{
    assert(run.halted_at(i));
}

/// Law: unless an observer answers with an error or sets the bypass, all are
/// run.
pub proof fn law_all_are_run<'a, O, S, H: Hook<O, S>>(
    run: Run<'a, S>,
    entries: Seq<Entry<O>>,
    hook: H,
)
    requires
        run.runs(entries, hook),
        forall|i: int|
            0 <= i < run.count() ==> (#[trigger] run.answers[i]) is Ok && !run.moments[i
                + 1].ctx.bypass,
    ensures
        run.count() == entries.len(),
{
    if run.count() < entries.len() {
        assert(run.answers[run.count() - 1] is Ok);
    }
}

/// Law: a dispatch answers with an error exactly when an observer that was run
/// did, and with that observer's error.
pub proof fn law_error_is_passed_on<'a, O, S, H: Hook<O, S>>(
    run: Run<'a, S>,
    entries: Seq<Entry<O>>,
    hook: H,
    error: Error,
)
    requires
        run.runs(entries, hook),
    ensures
        run.answer() == Err::<(), Error>(error) <==> exists|i: int|
            0 <= i < run.count() && #[trigger] run.answers[i] == Err::<(), Error>(error),
        run.answer() is Ok <==> forall|i: int|
            0 <= i < run.count() ==> (#[trigger] run.answers[i]) is Ok,
{
    let n = run.count();
    assert forall|i: int| 0 <= i < n && (#[trigger] run.answers[i]) is Err implies i == n - 1 by {
        law_halt_ends_run(run, entries, hook, i);
    }
}

/// Law: where there are observers, the first is run.
pub proof fn law_first_is_run<'a, O, S, H: Hook<O, S>>(
    run: Run<'a, S>,
    entries: Seq<Entry<O>>,
    hook: H,
)
    requires
        run.runs(entries, hook),
        entries.len() > 0,
    ensures
        run.count() > 0,
        run.stepped(entries, hook, 0),
{
}

/// Law: an error has an author. Where a dispatch answers with an error, an
/// observer of the list answered with it and left behind the state and the
/// bypass that are there after the dispatch.
pub proof fn law_error_has_author<'a, O, S, H: Hook<O, S>>(
    entries: Seq<Entry<O>>,
    hook: H,
    before: Moment<'a, S>,
    after: Moment<'a, S>,
    error: Error,
)
    requires
        dispatched(entries, hook, before, after, Err::<(), Error>(error)),
    ensures
        exists|i: int, given: Moment<'a, S>, left: ObserverContext<'_>|
            {
                &&& 0 <= i < entries.len()
                &&& left.bypass == after.ctx.bypass
                &&& #[trigger] hook.outcome(
                    entries[i].observer,
                    given.ctx,
                    given.state,
                    left,
                    after.state,
                    Err::<(), Error>(error),
                )
            },
{
    let run = choose|run: Run<'a, S>|
        {
            &&& #[trigger] run.runs(entries, hook)
            &&& run.first() == before
            &&& run.last() == after
            &&& run.answer() == Err::<(), Error>(error)
        };
    let last = run.count() - 1;
    assert(run.stepped(entries, hook, last));
}

/// Law: without observers nothing changes, and no error comes.
pub proof fn law_nobody_to_run<'a, O, S, H: Hook<O, S>>(
    hook: H,
    before: Moment<'a, S>,
    after: Moment<'a, S>,
    answer: Result<(), Error>,
)
    ensures
        dispatched(Seq::<Entry<O>>::empty(), hook, before, after, answer) <==> after == before
            && answer is Ok,
{
    let entries = Seq::<Entry<O>>::empty();
    if after == before && answer is Ok {
        let run: Run<'a, S> = Run { moments: seq![before], answers: seq![] };
        assert(run.runs(entries, hook));
        assert(run.first() == before && run.last() == after);
        assert(answer == Ok::<(), Error>(answer->Ok_0));
        assert(run.answer() == answer);
    }
}

/// The hook of every observer in the list has one outcome for what it is given,
/// as far as `same` tells states apart: on states that are the same to it, in
/// the same context, the hook gives one answer, leaves one bypass, and leaves
/// states that are the same.
pub open spec fn settled<O, S, H: Hook<O, S>>(
    entries: Seq<Entry<O>>,
    hook: H,
    same: spec_fn(S, S) -> bool,
) -> bool {
    forall|
        i: int,
        given: ObserverContext<'_>,
        before1: S,
        left1: ObserverContext<'_>,
        after1: S,
        answer1: Result<(), Error>,
        before2: S,
        left2: ObserverContext<'_>,
        after2: S,
        answer2: Result<(), Error>,
    |
        {
            &&& 0 <= i < entries.len()
            &&& same(before1, before2)
            &&& #[trigger] hook.outcome(
                entries[i].observer,
                given,
                before1,
                left1,
                after1,
                answer1,
            )
            &&& #[trigger] hook.outcome(
                entries[i].observer,
                given,
                before2,
                left2,
                after2,
                answer2,
            )
        } ==> {
            &&& left1.bypass == left2.bypass
            &&& same(after1, after2)
            &&& answer1 == answer2
        }
}

/// Law: where the hooks leave no choice, the dispatch leaves none. From states
/// that are the same to `same`, in the same context, it gives one answer, ends
/// in one context, and leaves states that are the same.
pub proof fn law_settled_dispatch<'a, O, S, H: Hook<O, S>>(
    entries: Seq<Entry<O>>,
    hook: H,
    same: spec_fn(S, S) -> bool,
    before1: Moment<'a, S>,
    after1: Moment<'a, S>,
    answer1: Result<(), Error>,
    before2: Moment<'a, S>,
    after2: Moment<'a, S>,
    answer2: Result<(), Error>,
)
    requires
        settled(entries, hook, same),
        before1.ctx == before2.ctx,
        same(before1.state, before2.state),
        dispatched(entries, hook, before1, after1, answer1),
        dispatched(entries, hook, before2, after2, answer2),
    ensures
        after1.ctx == after2.ctx,
        same(after1.state, after2.state),
        answer1 == answer2,
{
    let run1 = choose|run: Run<'a, S>|
        {
            &&& #[trigger] run.runs(entries, hook)
            &&& run.first() == before1
            &&& run.last() == after1
            &&& run.answer() == answer1
        };
    let run2 = choose|run: Run<'a, S>|
        {
            &&& #[trigger] run.runs(entries, hook)
            &&& run.first() == before2
            &&& run.last() == after2
            &&& run.answer() == answer2
        };
    let n: int = if run1.count() <= run2.count() {
        run1.count()
    } else {
        run2.count()
    };
    lemma_settled_runs_agree(run1, run2, entries, hook, same, n);
    if n > 0 {
        assert(run1.halted_at(n - 1) == run2.halted_at(n - 1));
    }
    assert(run1.count() == run2.count());
}

/// Two runs from the same start agree as far as both go.
proof fn lemma_settled_runs_agree<'a, O, S, H: Hook<O, S>>(
    run1: Run<'a, S>,
    run2: Run<'a, S>,
    entries: Seq<Entry<O>>,
    hook: H,
    same: spec_fn(S, S) -> bool,
    n: int,
)
    requires
        settled(entries, hook, same),
        run1.runs(entries, hook),
        run2.runs(entries, hook),
        run1.first().ctx == run2.first().ctx,
        same(run1.first().state, run2.first().state),
        0 <= n <= run1.count(),
        n <= run2.count(),
    ensures
        run1.moments[n].ctx == run2.moments[n].ctx,
        same(run1.moments[n].state, run2.moments[n].state),
        n > 0 ==> run1.answers[n - 1] == run2.answers[n - 1],
    decreases n,
{
    if n > 0 {
        lemma_settled_runs_agree(run1, run2, entries, hook, same, n - 1);
        assert(run1.stepped(entries, hook, n - 1));
        assert(run2.stepped(entries, hook, n - 1));
    }
}

/// Law: who comes behind the observer that ends a dispatch has no part in it.
/// A run that was ended stays a run of the list when another observer is put in
/// its place there, unless its number is smaller than that of the observer that
/// ended the run.
pub proof fn law_latecomer_is_shielded<'a, O, S, H: Hook<O, S>>(
    run: Run<'a, S>,
    entries: Seq<Entry<O>>,
    hook: H,
    entry: Entry<O>,
)
    requires
        ordered(entries),
        run.runs(entries, hook),
        run.count() > 0,
        run.halted_at(run.count() - 1),
        entry.priority >= entries[run.count() - 1].priority,
    ensures
        run.runs(enlisted(entries, entry), hook),
{
    let after = enlisted(entries, entry);
    let k = slot(entries, entry.priority) as int;
    lemma_slot_splits(entries, entry.priority);
    assert(run.count() <= k);
    assert forall|i: int| 0 <= i < run.count() implies #[trigger] run.stepped(after, hook, i) by {
        assert(after[i] == entries[i]);
        assert(run.stepped(entries, hook, i));
    }
}

/// Law: a dispatch whose calls are known is a dispatch, and every dispatch makes
/// some calls.
pub proof fn law_dispatch_makes_calls<'a, O, S, H: Hook<O, S>>(
    entries: Seq<Entry<O>>,
    hook: H,
    before: Moment<'a, S>,
    after: Moment<'a, S>,
    answer: Result<(), Error>,
)
    ensures
        dispatched(entries, hook, before, after, answer) <==> exists|calls: Seq<HookCall>| #[trigger]
            traced(entries, hook, before, after, answer, calls),
{
    if dispatched(entries, hook, before, after, answer) {
        let run = choose|run: Run<'a, S>|
            {
                &&& #[trigger] run.runs(entries, hook)
                &&& run.first() == before
                &&& run.last() == after
                &&& run.answer() == answer
            };
        assert(traced(entries, hook, before, after, answer, run.calls(entries, hook)));
    }
}

/// Law: a dispatch is the call of the first observer and, unless that observer
/// answered with an error or set the bypass, a dispatch to the others from what
/// it left behind. The region of the context is put back in between. Without
/// observers no call is made and nothing changes.
pub proof fn law_dispatch_step<'a, O, S, H: Hook<O, S>>(
    entries: Seq<Entry<O>>,
    hook: H,
    before: Moment<'a, S>,
    after: Moment<'a, S>,
    answer: Result<(), Error>,
    calls: Seq<HookCall>,
)
    requires
        traced(entries, hook, before, after, answer, calls),
    ensures
        entries.len() == 0 ==> after == before && answer == Ok::<(), Error>(()) && calls == Seq::<
            HookCall,
        >::empty(),
        entries.len() > 0 ==> calls.len() > 0 && calls[0] == hook.call(
            entries[0].observer,
            *before.ctx.region,
            before.state,
        ),
        entries.len() > 0 ==> exists|left: ObserverContext<'_>, state: S, first: Result<(), Error>|
            {
                let next = Moment {
                    ctx: ObserverContext { region: before.ctx.region, bypass: left.bypass },
                    state,
                };
                &&& #[trigger] hook.outcome(
                    entries[0].observer,
                    before.ctx,
                    before.state,
                    left,
                    state,
                    first,
                )
                &&& if first is Err || left.bypass {
                    after == next && calls.len() == 1 && answer == if first is Err {
                        first
                    } else {
                        Ok::<(), Error>(())
                    }
                } else {
                    traced(entries.drop_first(), hook, next, after, answer, calls.drop_first())
                }
            },
{
    let run = choose|run: Run<'a, S>|
        {
            &&& #[trigger] run.runs(entries, hook)
            &&& run.first() == before
            &&& run.last() == after
            &&& run.answer() == answer
            &&& run.calls(entries, hook) == calls
        };
    if entries.len() > 0 {
        assert(run.count() > 0);
        assert(run.stepped(entries, hook, 0));
        let left = choose|left: ObserverContext<'_>|
            left.bypass == run.moments[1].ctx.bypass && #[trigger] hook.outcome(
                entries[0].observer,
                run.moments[0].ctx,
                run.moments[0].state,
                left,
                run.moments[1].state,
                run.answers[0],
            );
        assert(hook.outcome(
            entries[0].observer,
            before.ctx,
            before.state,
            left,
            run.moments[1].state,
            run.answers[0],
        ));
        if run.halted_at(0) {
            law_halt_ends_run(run, entries, hook, 0);
        } else {
            let others = entries.drop_first();
            let rest = Run {
                moments: run.moments.drop_first(),
                answers: run.answers.drop_first(),
            };
            assert(rest.count() == run.count() - 1);
            assert forall|i: int| 0 <= i < rest.count() implies #[trigger] rest.stepped(
                others,
                hook,
                i,
            ) by {
                assert(run.stepped(entries, hook, i + 1));
                assert(rest.moments[i] == run.moments[i + 1]);
                assert(rest.moments[i + 1] == run.moments[i + 1 + 1]);
                assert(rest.answers[i] == run.answers[i + 1]);
                assert(others[i] == entries[i + 1]);
            }
            assert forall|i: int| 0 <= i < rest.count() - 1 implies !#[trigger] rest.halted_at(
                i,
            ) by {
                assert(!run.halted_at(i + 1));
            }
            if rest.count() < others.len() {
                assert(run.halted_at(run.count() - 1));
                assert(rest.halted_at(rest.count() - 1));
            }
            assert(rest.runs(others, hook));
            assert(rest.calls(others, hook) == calls.drop_first());
            assert(rest.answer() == answer);
            assert(traced(others, hook, rest.first(), after, answer, calls.drop_first()));
        }
    }
}

/// What the first observer of a dispatch left and answered.
pub proof fn lemma_first_step<'a, O, S, H: Hook<O, S>>(
    entries: Seq<Entry<O>>,
    hook: H,
    before: Moment<'a, S>,
    after: Moment<'a, S>,
    answer: Result<(), Error>,
    calls: Seq<HookCall>,
) -> (step: (Moment<'a, S>, Result<(), Error>))
    requires
        entries.len() > 0,
        traced(entries, hook, before, after, answer, calls),
    ensures
        hook.outcome(
            entries[0].observer,
            before.ctx,
            before.state,
            step.0.ctx,
            step.0.state,
            step.1,
        ),
        step.1 is Err || step.0.ctx.bypass ==> {
            &&& calls.len() == 1
            &&& after.ctx.region == before.ctx.region
            &&& after.ctx.bypass == step.0.ctx.bypass
            &&& after.state == step.0.state
            &&& step.1 is Err ==> answer == step.1
            &&& step.1 is Ok ==> answer == Ok::<(), Error>(())
        },
        step.1 is Ok && !step.0.ctx.bypass ==> traced(
            entries.drop_first(),
            hook,
            Moment {
                ctx: ObserverContext { region: before.ctx.region, bypass: false },
                state: step.0.state,
            },
            after,
            answer,
            calls.drop_first(),
        ),
{
    law_dispatch_step(entries, hook, before, after, answer, calls);
    let (left, state, first) = choose|
        left: ObserverContext<'a>,
        state: S,
        first: Result<(), Error>,
    |
        {
            let next = Moment {
                ctx: ObserverContext { region: before.ctx.region, bypass: left.bypass },
                state,
            };
            &&& #[trigger] hook.outcome(
                entries[0].observer,
                before.ctx,
                before.state,
                left,
                state,
                first,
            )
            &&& if first is Err || left.bypass {
                after == next && calls.len() == 1 && answer == if first is Err {
                    first
                } else {
                    Ok::<(), Error>(())
                }
            } else {
                traced(entries.drop_first(), hook, next, after, answer, calls.drop_first())
            }
        };
    (Moment { ctx: left, state }, first)
}

/// The same of a dispatch whose calls do not matter.
pub proof fn lemma_untraced_step<'a, O, S, H: Hook<O, S>>(
    entries: Seq<Entry<O>>,
    hook: H,
    before: Moment<'a, S>,
    after: Moment<'a, S>,
    answer: Result<(), Error>,
) -> (step: (Moment<'a, S>, Result<(), Error>))
    requires
        entries.len() > 0,
        dispatched(entries, hook, before, after, answer),
    ensures
        hook.outcome(
            entries[0].observer,
            before.ctx,
            before.state,
            step.0.ctx,
            step.0.state,
            step.1,
        ),
        step.1 is Err || step.0.ctx.bypass ==> {
            &&& after.ctx.region == before.ctx.region
            &&& after.ctx.bypass == step.0.ctx.bypass
            &&& after.state == step.0.state
            &&& step.1 is Err ==> answer == step.1
            &&& step.1 is Ok ==> answer == Ok::<(), Error>(())
        },
        step.1 is Ok && !step.0.ctx.bypass ==> dispatched(
            entries.drop_first(),
            hook,
            Moment {
                ctx: ObserverContext { region: before.ctx.region, bypass: false },
                state: step.0.state,
            },
            after,
            answer,
        ),
{
    law_dispatch_makes_calls(entries, hook, before, after, answer);
    let calls = choose|calls: Seq<HookCall>| #[trigger]
        traced(entries, hook, before, after, answer, calls);
    let step = lemma_first_step(entries, hook, before, after, answer, calls);
    let next = Moment {
        ctx: ObserverContext { region: before.ctx.region, bypass: false },
        state: step.0.state,
    };
    law_dispatch_makes_calls(entries.drop_first(), hook, next, after, answer);
    step
}

/// Law: the calls of a dispatch without a state begin with the first observer
/// and take one after the other, each with a context about the region and
/// without a bypass. They end with the first call that leaves the bypass set, or
/// with the last observer.
pub proof fn law_calls_in_order<'a, O, H: Hook<O, ()>>(
    entries: Seq<Entry<O>>,
    hook: H,
    region: &'a Region,
    end: ObserverContext<'a>,
    calls: Seq<HookCall>,
    i: int,
)
    requires
        traced(
            entries,
            hook,
            Moment { ctx: ObserverContext { region, bypass: false }, state: () },
            Moment { ctx: end, state: () },
            Ok::<(), Error>(()),
            calls,
        ),
    ensures
        calls.len() <= entries.len(),
        calls.len() < entries.len() ==> end.bypass,
        end.bypass ==> calls.len() > 0,
        end.region == region,
        0 <= i < calls.len() ==> calls[i] == hook.call(entries[i].observer, *region, ()),
        0 <= i < calls.len() ==> exists|left: ObserverContext<'_>|
            left.bypass == (end.bypass && i == calls.len() - 1) && #[trigger] hook.outcome(
                entries[i].observer,
                ObserverContext { region, bypass: false },
                (),
                left,
                (),
                Ok::<(), Error>(()),
            ),
{
    let begin = Moment { ctx: ObserverContext { region, bypass: false }, state: () };
    let run = choose|run: Run<'a, ()>|
        {
            &&& #[trigger] run.runs(entries, hook)
            &&& run.first() == begin
            &&& run.last() == (Moment { ctx: end, state: () })
            &&& run.answer() == Ok::<(), Error>(())
            &&& run.calls(entries, hook) == calls
        };
    law_region_is_kept(run, entries, hook, run.count());
    if 0 <= i < calls.len() {
        law_region_is_kept(run, entries, hook, i);
        assert(run.stepped(entries, hook, i));
        if i < run.count() - 1 {
            assert(!run.halted_at(i));
        }
        let left = choose|left: ObserverContext<'_>|
            left.bypass == run.moments[i + 1].ctx.bypass && #[trigger] hook.outcome(
                entries[i].observer,
                run.moments[i].ctx,
                run.moments[i].state,
                left,
                run.moments[i + 1].state,
                run.answers[i],
            );
        assert(run.answers[i] == Ok::<(), Error>(run.answers[i]->Ok_0));
        assert(run.answers[i]->Ok_0 == ());
        assert(run.moments[i].state == ());
        assert(run.moments[i + 1].state == ());
        assert(hook.outcome(
            entries[i].observer,
            ObserverContext { region, bypass: false },
            (),
            left,
            (),
            Ok::<(), Error>(()),
        ));
    }
}

} // verus!
