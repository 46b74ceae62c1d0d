//! Observers: what users of the library implement to watch a region's commands.
//!
//! An observer works behind a shared reference and may keep state of its own,
//! so nothing here says what a hook does. Each hook comes with a relation,
//! named after it and ending in `_outcome`, that its implementor chooses: it
//! holds between what the hook was given and what it left behind. A caller
//! learns that the relation holds in one way only, by calling the hook.
use crate::messages::{
    AdminRequest, AdminResponse, CfName, CheckPolicy, CmdBatch, RaftResponseHeader, Region,
    RegionChangeEvent, Request, Response, SplitCheckerHost, StateRole, DB,
};
use vstd::prelude::*;

verus! {

/// Why an observer turned a proposal down.
#[derive(Clone, Debug, PartialEq, Eq)]
pub struct Error {
    pub message: String,
}

/// What the observers of one dispatch share.
#[derive(Clone, Debug, PartialEq, Eq)]
pub struct ObserverContext<'a> {
    /// The region that the hook is about. What an observer writes here does not
    /// reach the following ones.
    pub region: &'a Region,
    /// Set by an observer to keep the following ones from being run.
    pub bypass: bool,
}

/// The context that a dispatch about `region` begins with.
pub open spec fn fresh<'a>(region: &'a Region) -> ObserverContext<'a> {
    ObserverContext { region, bypass: false }
}

impl<'a> ObserverContext<'a> {
    /// A context in which no observer has asked for a bypass.
    pub fn new(region: &'a Region) -> (ctx: ObserverContext<'a>)
        ensures
            ctx == fresh(region),
            ctx.region == region,
            !ctx.bypass,
    {
        ObserverContext { region, bypass: false }
    }
}

/// Watches administrative commands.
pub trait AdminObserver: Send + Sync {
    /// Holds once `start` has returned.
    open spec fn started(&self) -> bool {
        true
    }

    /// Holds once `stop` has returned.
    open spec fn stopped(&self) -> bool {
        true
    }

    /// Called when the observer is registered.
    fn start(&self)
        ensures
            self.started(),
    ;

    /// Called when the host shuts down.
    fn stop(&self)
        ensures
            self.stopped(),
    ;

    /// What `pre_propose_admin` may answer and leave behind.
    open spec fn pre_propose_admin_outcome(
        &self,
        before: ObserverContext<'_>,
        admin_before: AdminRequest,
        after: ObserverContext<'_>,
        admin_after: AdminRequest,
        answer: Result<(), Error>,
    ) -> bool {
        true
    }

    /// What `pre_apply_admin` may leave behind.
    open spec fn pre_apply_admin_outcome(
        &self,
        before: ObserverContext<'_>,
        index: u64,
        admin: AdminRequest,
        after: ObserverContext<'_>,
    ) -> bool {
        true
    }

    /// What `post_apply_admin` may leave behind.
    open spec fn post_apply_admin_outcome(
        &self,
        before: ObserverContext<'_>,
        index: u64,
        header: RaftResponseHeader,
        admin_before: AdminResponse,
        after: ObserverContext<'_>,
        admin_after: AdminResponse,
    ) -> bool {
        true
    }

    /// Called before an administrative request is proposed.
    fn pre_propose_admin(&self, ctx: &mut ObserverContext<'_>, admin: &mut AdminRequest) -> (answer:
        Result<(), Error>)
        ensures
            self.pre_propose_admin_outcome(
                *old(ctx),
                *old(admin),
                *final(ctx),
                *final(admin),
                answer,
            ),
    ;

    /// Called before an administrative request is applied.
    fn pre_apply_admin(&self, ctx: &mut ObserverContext<'_>, index: u64, admin: &AdminRequest)
        ensures
            self.pre_apply_admin_outcome(*old(ctx), index, *admin, *final(ctx)),
    ;

    /// Called after an administrative request has been applied.
    fn post_apply_admin(
        &self,
        ctx: &mut ObserverContext<'_>,
        index: u64,
        header: &RaftResponseHeader,
        admin: &mut AdminResponse,
    )
        ensures
            self.post_apply_admin_outcome(
                *old(ctx),
                index,
                *header,
                *old(admin),
                *final(ctx),
                *final(admin),
            ),
    ;
}

/// Watches plain commands.
pub trait QueryObserver: Send + Sync {
    /// Holds once `start` has returned.
    open spec fn started(&self) -> bool {
        true
    }

    /// Holds once `stop` has returned.
    open spec fn stopped(&self) -> bool {
        true
    }

    /// Called when the observer is registered.
    fn start(&self)
        ensures
            self.started(),
    ;

    /// Called when the host shuts down.
    fn stop(&self)
        ensures
            self.stopped(),
    ;

    /// What `pre_propose_query` may answer and leave behind.
    open spec fn pre_propose_query_outcome(
        &self,
        before: ObserverContext<'_>,
        requests_before: Seq<Request>,
        after: ObserverContext<'_>,
        requests_after: Seq<Request>,
        answer: Result<(), Error>,
    ) -> bool {
        true
    }

    /// What `pre_apply_query` may leave behind.
    open spec fn pre_apply_query_outcome(
        &self,
        before: ObserverContext<'_>,
        requests: Seq<Request>,
        after: ObserverContext<'_>,
    ) -> bool {
        true
    }

    /// What `post_apply_query` may leave behind.
    open spec fn post_apply_query_outcome(
        &self,
        before: ObserverContext<'_>,
        header: RaftResponseHeader,
        responses_before: Seq<Response>,
        after: ObserverContext<'_>,
        responses_after: Seq<Response>,
    ) -> bool {
        true
    }

    /// Called before plain requests are proposed.
    fn pre_propose_query(
        &self,
        ctx: &mut ObserverContext<'_>,
        requests: &mut Vec<Request>,
    ) -> (answer: Result<(), Error>)
        ensures
            self.pre_propose_query_outcome(
                *old(ctx),
                old(requests)@,
                *final(ctx),
                final(requests)@,
                answer,
            ),
    ;

    /// Called before plain requests are applied.
    fn pre_apply_query(&self, ctx: &mut ObserverContext<'_>, requests: &[Request])
        ensures
            self.pre_apply_query_outcome(*old(ctx), requests@, *final(ctx)),
    ;

    /// Called after plain requests have been applied.
    fn post_apply_query(
        &self,
        ctx: &mut ObserverContext<'_>,
        header: &RaftResponseHeader,
        responses: &mut Vec<Response>,
    )
        ensures
            self.post_apply_query_outcome(
                *old(ctx),
                *header,
                old(responses)@,
                *final(ctx),
                final(responses)@,
            ),
    ;
}

/// Watches the data of a snapshot on its way into a region.
pub trait ApplySnapshotObserver: Send + Sync {
    /// Holds once `start` has returned.
    open spec fn started(&self) -> bool {
        true
    }

    /// Holds once `stop` has returned.
    open spec fn stopped(&self) -> bool {
        true
    }

    /// Called when the observer is registered.
    fn start(&self)
        ensures
            self.started(),
    ;

    /// Called when the host shuts down.
    fn stop(&self)
        ensures
            self.stopped(),
    ;

    /// What `pre_apply_plain_kvs` may leave behind.
    open spec fn pre_apply_plain_kvs_outcome(
        &self,
        before: ObserverContext<'_>,
        cf: Seq<char>,
        kv_pairs: Seq<(Vec<u8>, Vec<u8>)>,
        after: ObserverContext<'_>,
    ) -> bool {
        true
    }

    /// What `pre_apply_sst` may leave behind.
    open spec fn pre_apply_sst_outcome(
        &self,
        before: ObserverContext<'_>,
        cf: Seq<char>,
        path: Seq<char>,
        after: ObserverContext<'_>,
    ) -> bool {
        true
    }

    /// Called before key-value pairs of a snapshot are applied.
    fn pre_apply_plain_kvs(
        &self,
        ctx: &mut ObserverContext<'_>,
        cf: CfName,
        kv_pairs: &[(Vec<u8>, Vec<u8>)],
    )
        ensures
            self.pre_apply_plain_kvs_outcome(*old(ctx), cf@, kv_pairs@, *final(ctx)),
    ;

    /// Called before a table file of a snapshot is applied.
    fn pre_apply_sst(&self, ctx: &mut ObserverContext<'_>, cf: CfName, path: &str)
        ensures
            self.pre_apply_sst_outcome(*old(ctx), cf@, path@, *final(ctx)),
    ;
}

/// Adds checkers to the split check of a region.
pub trait SplitCheckObserver: Send + Sync {
    /// Holds once `start` has returned.
    open spec fn started(&self) -> bool {
        true
    }

    /// Holds once `stop` has returned.
    open spec fn stopped(&self) -> bool {
        true
    }

    /// Called when the observer is registered.
    fn start(&self)
        ensures
            self.started(),
    ;

    /// Called when the host shuts down.
    fn stop(&self)
        ensures
            self.stopped(),
    ;

    /// What `add_checker` may leave behind.
    open spec fn add_checker_outcome(
        &self,
        before: ObserverContext<'_>,
        host_before: SplitCheckerHost<'_>,
        engine: DB,
        policy: CheckPolicy,
        after: ObserverContext<'_>,
        host_after: SplitCheckerHost<'_>,
    ) -> bool {
        true
    }

    /// Called when the checkers of a split check are gathered.
    fn add_checker(
        &self,
        ctx: &mut ObserverContext<'_>,
        host: &mut SplitCheckerHost<'_>,
        engine: &DB,
        policy: CheckPolicy,
    )
        ensures
            self.add_checker_outcome(
                *old(ctx),
                *old(host),
                *engine,
                policy,
                *final(ctx),
                *final(host),
            ),
    ;
}

/// Watches the role of a peer.
pub trait RoleObserver: Send + Sync {
    /// Holds once `start` has returned.
    open spec fn started(&self) -> bool {
        true
    }

    /// Holds once `stop` has returned.
    open spec fn stopped(&self) -> bool {
        true
    }

    /// Called when the observer is registered.
    fn start(&self)
        ensures
            self.started(),
    ;

    /// Called when the host shuts down.
    fn stop(&self)
        ensures
            self.stopped(),
    ;

    /// What `on_role_change` may leave behind.
    open spec fn on_role_change_outcome(
        &self,
        before: ObserverContext<'_>,
        role: StateRole,
        after: ObserverContext<'_>,
    ) -> bool {
        true
    }

    /// Called when the peer's role changes.
    fn on_role_change(&self, ctx: &mut ObserverContext<'_>, role: StateRole)
        ensures
            self.on_role_change_outcome(*old(ctx), role, *final(ctx)),
    ;
}

/// Watches the regions of a store come, change and go.
pub trait RegionChangeObserver: Send + Sync {
    /// Holds once `start` has returned.
    open spec fn started(&self) -> bool {
        true
    }

    /// Holds once `stop` has returned.
    open spec fn stopped(&self) -> bool {
        true
    }

    /// Called when the observer is registered.
    fn start(&self)
        ensures
            self.started(),
    ;

    /// Called when the host shuts down.
    fn stop(&self)
        ensures
            self.stopped(),
    ;

    /// What `on_region_changed` may leave behind.
    open spec fn on_region_changed_outcome(
        &self,
        before: ObserverContext<'_>,
        event: RegionChangeEvent,
        role: StateRole,
        after: ObserverContext<'_>,
    ) -> bool {
        true
    }

    /// Called when a region changes.
    fn on_region_changed(
        &self,
        ctx: &mut ObserverContext<'_>,
        event: RegionChangeEvent,
        role: StateRole,
    )
        ensures
            self.on_region_changed_outcome(*old(ctx), event, role, *final(ctx)),
    ;
}

/// Watches executed commands.
pub trait CmdObserver: Send + Sync {
    /// Holds once `start` has returned.
    open spec fn started(&self) -> bool {
        true
    }

    /// Holds once `stop` has returned.
    open spec fn stopped(&self) -> bool {
        true
    }

    /// Called when the observer is registered.
    fn start(&self)
        ensures
            self.started(),
    ;

    /// Called when the host shuts down.
    fn stop(&self)
        ensures
            self.stopped(),
    ;

    /// Holds once `on_batch_executed` has returned for the batch.
    open spec fn batch_executed(&self, batch: Seq<CmdBatch>) -> bool {
        true
    }

    /// Called with commands that have been executed.
    fn on_batch_executed(&self, batch: &[CmdBatch])
        ensures
            self.batch_executed(batch@),
    ;
}

/// A `AdminObserver` of any type.
pub struct BoxAdminObserver {
    pub inner: Box<dyn AdminObserver>,
}

/// A `QueryObserver` of any type.
pub struct BoxQueryObserver {
    pub inner: Box<dyn QueryObserver>,
}

/// A `ApplySnapshotObserver` of any type.
pub struct BoxApplySnapshotObserver {
    pub inner: Box<dyn ApplySnapshotObserver>,
}

/// A `SplitCheckObserver` of any type.
pub struct BoxSplitCheckObserver {
    pub inner: Box<dyn SplitCheckObserver>,
}

/// A `RoleObserver` of any type.
pub struct BoxRoleObserver {
    pub inner: Box<dyn RoleObserver>,
}

/// A `RegionChangeObserver` of any type.
pub struct BoxRegionChangeObserver {
    pub inner: Box<dyn RegionChangeObserver>,
}

/// A `CmdObserver` of any type.
pub struct BoxCmdObserver {
    pub inner: Box<dyn CmdObserver>,
}

/// A registered observer of any kind.
pub enum Seat {
    Admin(BoxAdminObserver),
    Query(BoxQueryObserver),
    ApplySnapshot(BoxApplySnapshotObserver),
    SplitCheck(BoxSplitCheckObserver),
    Role(BoxRoleObserver),
    RegionChange(BoxRegionChangeObserver),
    Cmd(BoxCmdObserver),
}

/// What the registered observers of every kind have in common.
pub trait Coprocessor {
    /// Holds once `start` has returned.
    spec fn started(&self) -> bool;

    /// Holds once `stop` has returned.
    spec fn stopped(&self) -> bool;

    /// The observer as one among the observers of every kind.
    spec fn seat(&self) -> Seat;

    /// Starts the observer.
    fn start(&self)
        ensures
            self.started(),
    ;

    /// Stops the observer.
    fn stop(&self)
        ensures
            self.stopped(),
    ;
}

impl Coprocessor for BoxAdminObserver {
    open spec fn started(&self) -> bool {
        self.inner.started()
    }

    open spec fn stopped(&self) -> bool {
        self.inner.stopped()
    }

    open spec fn seat(&self) -> Seat {
        Seat::Admin(*self)
    }

    fn start(&self) {
        self.inner.start();
    }

    fn stop(&self) {
        self.inner.stop();
    }
}

impl Coprocessor for BoxQueryObserver {
    open spec fn started(&self) -> bool {
        self.inner.started()
    }

    open spec fn stopped(&self) -> bool {
        self.inner.stopped()
    }

    open spec fn seat(&self) -> Seat {
        Seat::Query(*self)
    }

    fn start(&self) {
        self.inner.start();
    }

    fn stop(&self) {
        self.inner.stop();
    }
}

impl Coprocessor for BoxApplySnapshotObserver {
    open spec fn started(&self) -> bool {
        self.inner.started()
    }

    open spec fn stopped(&self) -> bool {
        self.inner.stopped()
    }

    open spec fn seat(&self) -> Seat {
        Seat::ApplySnapshot(*self)
    }

    fn start(&self) {
        self.inner.start();
    }

    fn stop(&self) {
        self.inner.stop();
    }
}

impl Coprocessor for BoxSplitCheckObserver {
    open spec fn started(&self) -> bool {
        self.inner.started()
    }

    open spec fn stopped(&self) -> bool {
        self.inner.stopped()
    }

    open spec fn seat(&self) -> Seat {
        Seat::SplitCheck(*self)
    }

    fn start(&self) {
        self.inner.start();
    }

    fn stop(&self) {
        self.inner.stop();
    }
}

impl Coprocessor for BoxRoleObserver {
    open spec fn started(&self) -> bool {
        self.inner.started()
    }

    open spec fn stopped(&self) -> bool {
        self.inner.stopped()
    }

    open spec fn seat(&self) -> Seat {
        Seat::Role(*self)
    }

    fn start(&self) {
        self.inner.start();
    }

    fn stop(&self) {
        self.inner.stop();
    }
}

impl Coprocessor for BoxRegionChangeObserver {
    open spec fn started(&self) -> bool {
        self.inner.started()
    }

    open spec fn stopped(&self) -> bool {
        self.inner.stopped()
    }

    open spec fn seat(&self) -> Seat {
        Seat::RegionChange(*self)
    }

    fn start(&self) {
        self.inner.start();
    }

    fn stop(&self) {
        self.inner.stop();
    }
}

impl Coprocessor for BoxCmdObserver {
    open spec fn started(&self) -> bool {
        self.inner.started()
    }

    open spec fn stopped(&self) -> bool {
        self.inner.stopped()
    }

    open spec fn seat(&self) -> Seat {
        Seat::Cmd(*self)
    }

    fn start(&self) {
        self.inner.start();
    }

    fn stop(&self) {
        self.inner.stop();
    }
}

} // verus!
