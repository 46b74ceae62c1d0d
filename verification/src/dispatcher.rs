//! The registry of observers and the host that invokes them.
use crate::bench::Bench;
use crate::dispatch::{
    dispatched, law_dispatch_step, law_error_has_author, law_nobody_to_run,
    law_settled_dispatch, settled, traced, Moment, Trace,
};
use crate::entry::{
    enlisted, enlisted_all, law_arrivals_sorted, law_enlisted_ordered, lemma_slot_splits,
    ordered, slot, with_priority, Entry,
};
use crate::hook::{
    AddChecker, Hook, HookCall, OnRegionChanged, OnRoleChange, PostApplyAdmin, PostApplyQuery,
    PreApplyAdmin, PreApplyPlainKvs, PreApplyQuery, PreApplySst, PreProposeAdmin, PreProposeQuery,
};
use crate::journal::{all_executed, all_stopped, executions, stops, Call, Journal};
use crate::messages::{
    AdminRequest, CfName, CheckPolicy, CmdBatch, Config, RaftCmdRequest, RaftCmdResponse,
    RaftResponseHeader, Region, RegionChangeEvent, Request, SplitChecker, SplitCheckerHost,
    StateRole, DB,
};
use crate::observer::{
    fresh, BoxAdminObserver, BoxApplySnapshotObserver, BoxCmdObserver, BoxQueryObserver,
    BoxRegionChangeObserver, BoxRoleObserver, BoxSplitCheckObserver, Coprocessor, Error,
    ObserverContext, Seat,
};
use vstd::prelude::*;

verus! {

/// Registry contains all registered coprocessors.
pub struct Registry {
    admin_observers: Bench<BoxAdminObserver>,
    query_observers: Bench<BoxQueryObserver>,
    apply_snapshot_observers: Bench<BoxApplySnapshotObserver>,
    split_check_observers: Bench<BoxSplitCheckObserver>,
    role_observers: Bench<BoxRoleObserver>,
    region_change_observers: Bench<BoxRegionChangeObserver>,
    cmd_observers: Bench<BoxCmdObserver>,
    starts: Journal,
}

/// The registered observers of each kind, in the order in which they are run,
/// and all of them in the order in which they were started.
#[verifier::ext_equal]
pub struct Roster {
    pub admin: Seq<Entry<BoxAdminObserver>>,
    pub query: Seq<Entry<BoxQueryObserver>>,
    pub apply_snapshot: Seq<Entry<BoxApplySnapshotObserver>>,
    pub split_check: Seq<Entry<BoxSplitCheckObserver>>,
    pub role: Seq<Entry<BoxRoleObserver>>,
    pub region_change: Seq<Entry<BoxRegionChangeObserver>>,
    pub cmd: Seq<Entry<BoxCmdObserver>>,
    pub starts: Seq<Call>,
}

/// An observer that comes to be registered, with its number.
pub enum Arrival {
    Admin(u32, BoxAdminObserver),
    Query(u32, BoxQueryObserver),
    ApplySnapshot(u32, BoxApplySnapshotObserver),
    SplitCheck(u32, BoxSplitCheckObserver),
    Role(u32, BoxRoleObserver),
    RegionChange(u32, BoxRegionChangeObserver),
    Cmd(u32, BoxCmdObserver),
}

impl Arrival {
    /// The observer that comes.
    pub open spec fn seat(self) -> Seat {
        match self {
            Arrival::Admin(_, observer) => observer.seat(),
            Arrival::Query(_, observer) => observer.seat(),
            Arrival::ApplySnapshot(_, observer) => observer.seat(),
            Arrival::SplitCheck(_, observer) => observer.seat(),
            Arrival::Role(_, observer) => observer.seat(),
            Arrival::RegionChange(_, observer) => observer.seat(),
            Arrival::Cmd(_, observer) => observer.seat(),
        }
    }

    /// The entry of the observer that comes, if it is an admin observer.
    pub open spec fn admin(self) -> Option<Entry<BoxAdminObserver>> {
        match self {
            Arrival::Admin(priority, observer) => Some(Entry { priority, observer }),
            _ => None,
        }
    }

    /// The entry of the observer that comes, if it is a query observer.
    pub open spec fn query(self) -> Option<Entry<BoxQueryObserver>> {
        match self {
            Arrival::Query(priority, observer) => Some(Entry { priority, observer }),
            _ => None,
        }
    }

    /// The entry of the observer that comes, if it is an apply snapshot observer.
    pub open spec fn apply_snapshot(self) -> Option<Entry<BoxApplySnapshotObserver>> {
        match self {
            Arrival::ApplySnapshot(priority, observer) => Some(Entry { priority, observer }),
            _ => None,
        }
    }

    /// The entry of the observer that comes, if it is a split check observer.
    pub open spec fn split_check(self) -> Option<Entry<BoxSplitCheckObserver>> {
        match self {
            Arrival::SplitCheck(priority, observer) => Some(Entry { priority, observer }),
            _ => None,
        }
    }

    /// The entry of the observer that comes, if it is a role observer.
    pub open spec fn role(self) -> Option<Entry<BoxRoleObserver>> {
        match self {
            Arrival::Role(priority, observer) => Some(Entry { priority, observer }),
            _ => None,
        }
    }

    /// The entry of the observer that comes, if it is a region change observer.
    pub open spec fn region_change(self) -> Option<Entry<BoxRegionChangeObserver>> {
        match self {
            Arrival::RegionChange(priority, observer) => Some(Entry { priority, observer }),
            _ => None,
        }
    }

    /// The entry of the observer that comes, if it is a command observer.
    pub open spec fn cmd(self) -> Option<Entry<BoxCmdObserver>> {
        match self {
            Arrival::Cmd(priority, observer) => Some(Entry { priority, observer }),
            _ => None,
        }
    }
}

impl Roster {
    /// The roster once an observer has been started and has found its place among
    /// those of its kind.
    pub open spec fn with(self, arrival: Arrival) -> Roster {
        match arrival {
            Arrival::Admin(priority, observer) => Roster {
                admin: enlisted(self.admin, Entry { priority, observer }),
                starts: self.starts.push(Call::Started(observer.seat())),
                ..self
            },
            Arrival::Query(priority, observer) => Roster {
                query: enlisted(self.query, Entry { priority, observer }),
                starts: self.starts.push(Call::Started(observer.seat())),
                ..self
            },
            Arrival::ApplySnapshot(priority, observer) => Roster {
                apply_snapshot: enlisted(self.apply_snapshot, Entry { priority, observer }),
                starts: self.starts.push(Call::Started(observer.seat())),
                ..self
            },
            Arrival::SplitCheck(priority, observer) => Roster {
                split_check: enlisted(self.split_check, Entry { priority, observer }),
                starts: self.starts.push(Call::Started(observer.seat())),
                ..self
            },
            Arrival::Role(priority, observer) => Roster {
                role: enlisted(self.role, Entry { priority, observer }),
                starts: self.starts.push(Call::Started(observer.seat())),
                ..self
            },
            Arrival::RegionChange(priority, observer) => Roster {
                region_change: enlisted(self.region_change, Entry { priority, observer }),
                starts: self.starts.push(Call::Started(observer.seat())),
                ..self
            },
            Arrival::Cmd(priority, observer) => Roster {
                cmd: enlisted(self.cmd, Entry { priority, observer }),
                starts: self.starts.push(Call::Started(observer.seat())),
                ..self
            },
        }
    }

    /// The roster once all of `arrivals` have come, one after the other.
    pub open spec fn of(arrivals: Seq<Arrival>) -> Roster
        decreases arrivals.len(),
    {
        if arrivals.len() == 0 {
            Roster::empty()
        } else {
            Roster::of(arrivals.drop_last()).with(arrivals.last())
        }
    }

    /// The stops of a shutdown.
    pub open spec fn stops(self) -> Seq<Call> {
        stops(self.admin) + stops(self.query) + stops(self.split_check) + stops(self.cmd)
    }

    /// The observers of every kind stand in the order of their numbers.
    pub open spec fn ordered(self) -> bool {
        &&& ordered(self.admin)
        &&& ordered(self.query)
        &&& ordered(self.apply_snapshot)
        &&& ordered(self.split_check)
        &&& ordered(self.role)
        &&& ordered(self.region_change)
        &&& ordered(self.cmd)
    }

    /// Nobody is registered.
    pub open spec fn empty() -> Roster {
        Roster {
            admin: Seq::empty(),
            query: Seq::empty(),
            apply_snapshot: Seq::empty(),
            split_check: Seq::empty(),
            role: Seq::empty(),
            region_change: Seq::empty(),
            cmd: Seq::empty(),
            starts: Seq::empty(),
        }
    }
}

impl View for Registry {
    type V = Roster;

    closed spec fn view(&self) -> Roster {
        Roster {
            admin: self.admin_observers@,
            query: self.query_observers@,
            apply_snapshot: self.apply_snapshot_observers@,
            split_check: self.split_check_observers@,
            role: self.role_observers@,
            region_change: self.region_change_observers@,
            cmd: self.cmd_observers@,
            starts: self.starts@,
        }
    }
}

impl Default for Registry {
    /// A registry of no observers.
    fn default() -> (registry: Registry)
        ensures
            registry@ == Roster::empty(),
            registry@.ordered(),
    {
        Registry {
            admin_observers: Bench::new(),
            query_observers: Bench::new(),
            apply_snapshot_observers: Bench::new(),
            split_check_observers: Bench::new(),
            role_observers: Bench::new(),
            region_change_observers: Bench::new(),
            cmd_observers: Bench::new(),
            starts: Journal::new(),
        }
    }
}

impl Registry {
    /// Every registry keeps its observers in the order of their numbers.
    #[verifier::type_invariant]
    spec fn well_formed(self) -> bool {
        self@.ordered()
    }

    /// Starts an admin observer and registers it behind those whose number is
    /// not greater.
    pub fn register_admin_observer(
        &mut self,
        priority: u32,
        ao: BoxAdminObserver,
    )
        ensures
            ao.inner.started(),
            final(self)@ == old(self)@.with(Arrival::Admin(priority, ao)),
            final(self)@.ordered(),
    {
        proof {
            use_type_invariant(&*self);
        }
        let mut starts = Journal::new();
        std::mem::swap(&mut starts, &mut self.starts);
        starts.start(&ao);
        self.starts = starts;
        let mut bench: Bench<BoxAdminObserver> = Bench::new();
        std::mem::swap(&mut bench, &mut self.admin_observers);
        bench.enlist(priority, ao);
        self.admin_observers = bench;
    }

    /// Starts a query observer and registers it behind those whose number is
    /// not greater.
    pub fn register_query_observer(
        &mut self,
        priority: u32,
        qo: BoxQueryObserver,
    )
        ensures
            qo.inner.started(),
            final(self)@ == old(self)@.with(Arrival::Query(priority, qo)),
            final(self)@.ordered(),
    {
        proof {
            use_type_invariant(&*self);
        }
        let mut starts = Journal::new();
        std::mem::swap(&mut starts, &mut self.starts);
        starts.start(&qo);
        self.starts = starts;
        let mut bench: Bench<BoxQueryObserver> = Bench::new();
        std::mem::swap(&mut bench, &mut self.query_observers);
        bench.enlist(priority, qo);
        self.query_observers = bench;
    }

    /// Starts an apply snapshot observer and registers it behind those whose number is
    /// not greater.
    pub fn register_apply_snapshot_observer(
        &mut self,
        priority: u32,
        aso: BoxApplySnapshotObserver,
    )
        ensures
            aso.inner.started(),
            final(self)@ == old(self)@.with(Arrival::ApplySnapshot(priority, aso)),
            final(self)@.ordered(),
    {
        proof {
            use_type_invariant(&*self);
        }
        let mut starts = Journal::new();
        std::mem::swap(&mut starts, &mut self.starts);
        starts.start(&aso);
        self.starts = starts;
        let mut bench: Bench<BoxApplySnapshotObserver> = Bench::new();
        std::mem::swap(&mut bench, &mut self.apply_snapshot_observers);
        bench.enlist(priority, aso);
        self.apply_snapshot_observers = bench;
    }

    /// Starts a split check observer and registers it behind those whose number is
    /// not greater.
    pub fn register_split_check_observer(
        &mut self,
        priority: u32,
        sco: BoxSplitCheckObserver,
    )
        ensures
            sco.inner.started(),
            final(self)@ == old(self)@.with(Arrival::SplitCheck(priority, sco)),
            final(self)@.ordered(),
    {
        proof {
            use_type_invariant(&*self);
        }
        let mut starts = Journal::new();
        std::mem::swap(&mut starts, &mut self.starts);
        starts.start(&sco);
        self.starts = starts;
        let mut bench: Bench<BoxSplitCheckObserver> = Bench::new();
        std::mem::swap(&mut bench, &mut self.split_check_observers);
        bench.enlist(priority, sco);
        self.split_check_observers = bench;
    }

    /// Starts a role observer and registers it behind those whose number is
    /// not greater.
    pub fn register_role_observer(
        &mut self,
        priority: u32,
        ro: BoxRoleObserver,
    )
        ensures
            ro.inner.started(),
            final(self)@ == old(self)@.with(Arrival::Role(priority, ro)),
            final(self)@.ordered(),
    {
        proof {
            use_type_invariant(&*self);
        }
        let mut starts = Journal::new();
        std::mem::swap(&mut starts, &mut self.starts);
        starts.start(&ro);
        self.starts = starts;
        let mut bench: Bench<BoxRoleObserver> = Bench::new();
        std::mem::swap(&mut bench, &mut self.role_observers);
        bench.enlist(priority, ro);
        self.role_observers = bench;
    }

    /// Starts a region change observer and registers it behind those whose number is
    /// not greater.
    pub fn register_region_change_observer(
        &mut self,
        priority: u32,
        rco: BoxRegionChangeObserver,
    )
        ensures
            rco.inner.started(),
            final(self)@ == old(self)@.with(Arrival::RegionChange(priority, rco)),
            final(self)@.ordered(),
    {
        proof {
            use_type_invariant(&*self);
        }
        let mut starts = Journal::new();
        std::mem::swap(&mut starts, &mut self.starts);
        starts.start(&rco);
        self.starts = starts;
        let mut bench: Bench<BoxRegionChangeObserver> = Bench::new();
        std::mem::swap(&mut bench, &mut self.region_change_observers);
        bench.enlist(priority, rco);
        self.region_change_observers = bench;
    }

    /// Starts a cmd observer and registers it behind those whose number is
    /// not greater.
    pub fn register_cmd_observer(
        &mut self,
        priority: u32,
        co: BoxCmdObserver,
    )
        ensures
            co.inner.started(),
            final(self)@ == old(self)@.with(Arrival::Cmd(priority, co)),
            final(self)@.ordered(),
    {
        proof {
            use_type_invariant(&*self);
        }
        let mut starts = Journal::new();
        std::mem::swap(&mut starts, &mut self.starts);
        starts.start(&co);
        self.starts = starts;
        let mut bench: Bench<BoxCmdObserver> = Bench::new();
        std::mem::swap(&mut bench, &mut self.cmd_observers);
        bench.enlist(priority, co);
        self.cmd_observers = bench;
    }
}

/// The priority of the observer that splits a region in half.
pub const HALF_CHECK_PRIORITY: u32 = 100;

/// The priority of the observer that splits a region by its size.
pub const SIZE_CHECK_PRIORITY: u32 = 200;

/// The priority of the observer that splits a region by its number of keys.
pub const KEYS_CHECK_PRIORITY: u32 = 200;

/// The priority of the observer that splits a region by its tables.
pub const TABLE_CHECK_PRIORITY: u32 = 400;

/// Admin and invoke all coprocessors.
pub struct CoprocessorHost {
    pub registry: Registry,
}

impl Default for CoprocessorHost {
    /// A host without observers.
    fn default() -> (host: CoprocessorHost)
        ensures
            host.registry@ == Roster::empty(),
            host.registry@.ordered(),
    {
        CoprocessorHost { registry: Registry::default() }
    }
}

/// What a proposal of the command `before` may answer and leave behind: it goes
/// through the admin observers with the administrative request, if there is
/// one, and else through the query observers with the plain requests. The other
/// part of the command is left alone. An administrative request is changed in
/// place. Plain requests are taken out of the command, and are put back only if
/// no observer refuses them.
pub open spec fn proposed(
    roster: Roster,
    region: &Region,
    before: RaftCmdRequest,
    after: RaftCmdRequest,
    answer: Result<(), Error>,
) -> bool {
    match before.admin_request {
        Some(admin) => {
            &&& after.requests == before.requests
            &&& after.admin_request is Some
            &&& exists|end: ObserverContext<'_>| #[trigger]
                dispatched(
                    roster.admin,
                    PreProposeAdmin,
                    Moment { ctx: fresh(region), state: admin },
                    Moment { ctx: end, state: after.admin_request->0 },
                    answer,
                )
        },
        None => {
            &&& after.admin_request is None
            &&& exists|end: ObserverContext<'_>, left: Vec<Request>|
                {
                    &&& #[trigger] dispatched(
                        roster.query,
                        PreProposeQuery,
                        Moment { ctx: fresh(region), state: before.requests },
                        Moment { ctx: end, state: left },
                        answer,
                    )
                    &&& answer is Ok ==> after.requests == left
                    &&& answer is Err ==> after.requests@ == Seq::<Request>::empty()
                }
        },
    }
}

/// The header that observers are given for a response: its own, or an empty one
/// where it has none.
pub open spec fn header_for(own: Option<RaftResponseHeader>, given: RaftResponseHeader) -> bool {
    match own {
        Some(header) => given == header,
        None => given.encoded@ == Seq::<u8>::empty(),
    }
}

/// What the observers may make of the response `before` when they are given
/// `header`, and the calls that this takes.
pub open spec fn observed_response(
    roster: Roster,
    region: &Region,
    index: u64,
    header: RaftResponseHeader,
    before: RaftCmdResponse,
    after: RaftCmdResponse,
    calls: Seq<HookCall>,
) -> bool {
    match before.admin_response {
        Some(admin) => {
            &&& after.responses == before.responses
            &&& after.admin_response is Some
            &&& exists|end: ObserverContext<'_>| #[trigger]
                traced(
                    roster.admin,
                    PostApplyAdmin { index, header: &header },
                    Moment { ctx: fresh(region), state: admin },
                    Moment { ctx: end, state: after.admin_response->0 },
                    Ok::<(), Error>(()),
                    calls,
                )
        },
        None => {
            &&& after.admin_response is None
            &&& exists|end: ObserverContext<'_>| #[trigger]
                traced(
                    roster.query,
                    PostApplyQuery { header: &header },
                    Moment { ctx: fresh(region), state: before.responses },
                    Moment { ctx: end, state: after.responses },
                    Ok::<(), Error>(()),
                    calls,
                )
        },
    }
}

/// What the observers may make of the response `before` once its command has
/// been applied: it goes through the admin observers with the administrative
/// response, if there is one, and else through the query observers with the
/// plain responses. The header and the other part are left alone. `calls` are
/// the calls that this takes.
pub open spec fn answered(
    roster: Roster,
    region: &Region,
    index: u64,
    before: RaftCmdResponse,
    after: RaftCmdResponse,
    calls: Seq<HookCall>,
) -> bool {
    &&& after.header == before.header
    &&& exists|header: RaftResponseHeader| #[trigger]
        header_for(before.header, header) && observed_response(
            roster,
            region,
            index,
            header,
            before,
            after,
            calls,
        )
}

/// A split check to which no checker has been added yet.
pub open spec fn no_checkers(host: SplitCheckerHost<'_>, cfg: &Config, auto_split: bool) -> bool {
    &&& host.auto_split == auto_split
    &&& host.cfg == cfg
    &&& host.checkers@ == Seq::<SplitChecker>::empty()
}

/// What the split check observers may make of a split check without checkers.
pub open spec fn gathered(
    roster: Roster,
    cfg: &Config,
    region: &Region,
    engine: DB,
    auto_split: bool,
    policy: CheckPolicy,
    host: SplitCheckerHost<'_>,
) -> bool {
    exists|start: SplitCheckerHost<'_>, end: ObserverContext<'_>|
        no_checkers(start, cfg, auto_split) && #[trigger] dispatched(
            roster.split_check,
            AddChecker { engine: &engine, policy },
            Moment { ctx: fresh(region), state: start },
            Moment { ctx: end, state: host },
            Ok::<(), Error>(()),
        )
}

/// What the observers may leave of the context of the command `req` before it is
/// applied, and the calls that this takes: those of the admin observers with the
/// administrative request, if there is one, and else those of the query
/// observers with the plain requests.
pub open spec fn applying<'a>(
    roster: Roster,
    region: &'a Region,
    index: u64,
    req: RaftCmdRequest,
    end: ObserverContext<'a>,
    calls: Seq<HookCall>,
) -> bool {
    match req.admin_request {
        Some(admin) => traced(
            roster.admin,
            PreApplyAdmin { index, admin: &admin },
            Moment { ctx: fresh(region), state: () },
            Moment { ctx: end, state: () },
            Ok::<(), Error>(()),
            calls,
        ),
        None => traced(
            roster.query,
            PreApplyQuery { requests: &req.requests },
            Moment { ctx: fresh(region), state: () },
            Moment { ctx: end, state: () },
            Ok::<(), Error>(()),
            calls,
        ),
    }
}

/// What the observers may leave of the context of the key-value pairs of a
/// snapshot, and the calls that this takes. Without pairs there are none.
pub open spec fn applying_plain_kvs<'a>(
    roster: Roster,
    region: &'a Region,
    cf: CfName,
    kv_pairs: &[(Vec<u8>, Vec<u8>)],
    end: ObserverContext<'a>,
    calls: Seq<HookCall>,
) -> bool {
    if kv_pairs@.len() == 0 {
        end == fresh(region) && calls == Seq::<HookCall>::empty()
    } else {
        traced(
            roster.apply_snapshot,
            PreApplyPlainKvs { cf, kv_pairs },
            Moment { ctx: fresh(region), state: () },
            Moment { ctx: end, state: () },
            Ok::<(), Error>(()),
            calls,
        )
    }
}

/// What the observers may leave of the context of a table file of a snapshot,
/// and the calls that this takes.
pub open spec fn applying_sst<'a>(
    roster: Roster,
    region: &'a Region,
    cf: CfName,
    path: &str,
    end: ObserverContext<'a>,
    calls: Seq<HookCall>,
) -> bool {
    traced(
        roster.apply_snapshot,
        PreApplySst { cf, path },
        Moment { ctx: fresh(region), state: () },
        Moment { ctx: end, state: () },
        Ok::<(), Error>(()),
        calls,
    )
}

/// What the observers may leave of the context of a change of role, and the
/// calls that this takes.
pub open spec fn role_changed<'a>(
    roster: Roster,
    region: &'a Region,
    role: StateRole,
    end: ObserverContext<'a>,
    calls: Seq<HookCall>,
) -> bool {
    traced(
        roster.role,
        OnRoleChange { role },
        Moment { ctx: fresh(region), state: () },
        Moment { ctx: end, state: () },
        Ok::<(), Error>(()),
        calls,
    )
}

/// What the observers may leave of the context of a change of a region, and the
/// calls that this takes.
pub open spec fn region_changed<'a>(
    roster: Roster,
    region: &'a Region,
    event: RegionChangeEvent,
    role: StateRole,
    end: ObserverContext<'a>,
    calls: Seq<HookCall>,
) -> bool {
    traced(
        roster.region_change,
        OnRegionChanged { event, role },
        Moment { ctx: fresh(region), state: () },
        Moment { ctx: end, state: () },
        Ok::<(), Error>(()),
        calls,
    )
}

/// What has become of a dispatch that passes nothing on but the context.
///
/// It is kept for proofs alone and takes no room.
pub struct Told<'a> {
    /// What the observers left of the context.
    pub end: Ghost<ObserverContext<'a>>,
    /// The calls that were made.
    pub trace: Trace,
}

impl CoprocessorHost {
    /// A host with the given split check observers. `half` is run first, then
    /// `size`, `keys` and `table`.
    pub fn new(
        size: BoxSplitCheckObserver,
        keys: BoxSplitCheckObserver,
        half: BoxSplitCheckObserver,
        table: BoxSplitCheckObserver,
    ) -> (host: CoprocessorHost)
        ensures
            size.inner.started(),
            keys.inner.started(),
            half.inner.started(),
            table.inner.started(),
            host.registry@ == (Roster {
                split_check: seq![
                    Entry { priority: HALF_CHECK_PRIORITY, observer: half },
                    Entry { priority: SIZE_CHECK_PRIORITY, observer: size },
                    Entry { priority: KEYS_CHECK_PRIORITY, observer: keys },
                    Entry { priority: TABLE_CHECK_PRIORITY, observer: table },
                ],
                starts: seq![
                    Call::Started(size.seat()),
                    Call::Started(keys.seat()),
                    Call::Started(half.seat()),
                    Call::Started(table.seat()),
                ],
                ..Roster::empty()
            }),
            host.registry@ == Roster::of(
                seq![
                    Arrival::SplitCheck(SIZE_CHECK_PRIORITY, size),
                    Arrival::SplitCheck(KEYS_CHECK_PRIORITY, keys),
                    Arrival::SplitCheck(HALF_CHECK_PRIORITY, half),
                    Arrival::SplitCheck(TABLE_CHECK_PRIORITY, table),
                ],
            ),
            host.registry@.ordered(),
            host.registry@.split_check == seq![
                Entry { priority: 100, observer: half },
                Entry { priority: 200, observer: size },
                Entry { priority: 200, observer: keys },
                Entry { priority: 400, observer: table },
            ],
    {
        let mut registry = Registry::default();
        registry.register_split_check_observer(SIZE_CHECK_PRIORITY, size);
        registry.register_split_check_observer(KEYS_CHECK_PRIORITY, keys);
        registry.register_split_check_observer(HALF_CHECK_PRIORITY, half);
        registry.register_split_check_observer(TABLE_CHECK_PRIORITY, table);
        proof {
            reveal_with_fuel(slot, 5);
            let one = seq![Arrival::SplitCheck(SIZE_CHECK_PRIORITY, size)];
            let two = one.push(Arrival::SplitCheck(KEYS_CHECK_PRIORITY, keys));
            let three = two.push(Arrival::SplitCheck(HALF_CHECK_PRIORITY, half));
            let four = three.push(Arrival::SplitCheck(TABLE_CHECK_PRIORITY, table));
            assert(one.drop_last() == Seq::<Arrival>::empty());
            assert(two.drop_last() == one);
            assert(three.drop_last() == two);
            assert(four.drop_last() == three);
            reveal_with_fuel(Roster::of, 5);
            assert(four == seq![
                Arrival::SplitCheck(SIZE_CHECK_PRIORITY, size),
                Arrival::SplitCheck(KEYS_CHECK_PRIORITY, keys),
                Arrival::SplitCheck(HALF_CHECK_PRIORITY, half),
                Arrival::SplitCheck(TABLE_CHECK_PRIORITY, table),
            ]);
        }
        CoprocessorHost { registry }
    }

    /// Call all prepose hooks until bypass is set to true. An error of a hook is
    /// returned at once: plain requests that are refused do not come back.
    pub fn pre_propose(&self, region: &Region, req: &mut RaftCmdRequest) -> (answer: Result<
        (),
        Error,
    >)
        ensures
            self.registry@.ordered(),
            proposed(self.registry@, region, *old(req), *final(req), answer),
    {
        proof {
            use_type_invariant(&self.registry);
        }
        let mut ctx = ObserverContext::new(region);
        match &mut req.admin_request {
            None => {
                let mut requests: Vec<Request> = Vec::new();
                std::mem::swap(&mut requests, &mut req.requests);
                let (answer, _) = self.registry.query_observers.try_dispatch(
                    &PreProposeQuery,
                    &mut ctx,
                    &mut requests,
                );
                assert(dispatched(
                    self.registry@.query,
                    PreProposeQuery,
                    Moment { ctx: fresh(region), state: old(req).requests },
                    Moment { ctx, state: requests },
                    answer,
                ));
                if answer.is_err() {
                    return answer;
                }
                req.requests = requests;
                answer
            },
            Some(admin) => {
                let (answer, _) = self.registry.admin_observers.try_dispatch(
                    &PreProposeAdmin,
                    &mut ctx,
                    admin,
                );
                assert(dispatched(
                    self.registry@.admin,
                    PreProposeAdmin,
                    Moment { ctx: fresh(region), state: old(req).admin_request->0 },
                    Moment { ctx, state: req.admin_request->0 },
                    answer,
                ));
                answer
            },
        }
    }

    /// Call all pre apply hook until bypass is set to true.
    pub fn pre_apply<'a>(&self, region: &'a Region, index: u64, req: &RaftCmdRequest) -> (told:
        Told<'a>)
        ensures
            self.registry@.ordered(),
            match req.admin_request {
                Some(admin) => dispatched(
                    self.registry@.admin,
                    PreApplyAdmin { index, admin: &admin },
                    Moment { ctx: fresh(region), state: () },
                    Moment { ctx: told.end@, state: () },
                    Ok::<(), Error>(()),
                ),
                None => dispatched(
                    self.registry@.query,
                    PreApplyQuery { requests: &req.requests },
                    Moment { ctx: fresh(region), state: () },
                    Moment { ctx: told.end@, state: () },
                    Ok::<(), Error>(()),
                ),
            },
            told.end@.region == region,
            applying(self.registry@, region, index, *req, told.end@, told.trace@),
    {
        proof {
            use_type_invariant(&self.registry);
        }
        let mut ctx = ObserverContext::new(region);
        let trace = match &req.admin_request {
            None => {
                let hook = PreApplyQuery { requests: &req.requests };
                self.registry.query_observers.dispatch(&hook, &mut ctx, &mut ())
            },
            Some(admin) => {
                let hook = PreApplyAdmin { index, admin };
                self.registry.admin_observers.dispatch(&hook, &mut ctx, &mut ())
            },
        };
        Told { end: Ghost(ctx), trace }
    }

    /// Call all post apply hooks until bypass is set to true.
    pub fn post_apply(&self, region: &Region, index: u64, resp: &mut RaftCmdResponse) -> (trace:
        Trace)
        ensures
            self.registry@.ordered(),
            answered(self.registry@, region, index, *old(resp), *final(resp), trace@),
    {
        proof {
            use_type_invariant(&self.registry);
        }
        let none = RaftResponseHeader::default();
        let header = match &resp.header {
            Some(header) => header,
            None => &none,
        };
        let ghost given = *header;
        let mut ctx = ObserverContext::new(region);
        let trace = match &mut resp.admin_response {
            None => {
                let hook = PostApplyQuery { header };
                self.registry.query_observers.dispatch(&hook, &mut ctx, &mut resp.responses)
            },
            Some(admin) => {
                let hook = PostApplyAdmin { index, header };
                self.registry.admin_observers.dispatch(&hook, &mut ctx, admin)
            },
        };
        proof {
            assert(header_for(old(resp).header, given));
            match old(resp).admin_response {
                None => assert(traced(
                    self.registry@.query,
                    PostApplyQuery { header: &given },
                    Moment { ctx: fresh(region), state: old(resp).responses },
                    Moment { ctx, state: resp.responses },
                    Ok::<(), Error>(()),
                    trace@,
                )),
                Some(admin) => assert(traced(
                    self.registry@.admin,
                    PostApplyAdmin { index, header: &given },
                    Moment { ctx: fresh(region), state: admin },
                    Moment { ctx, state: resp.admin_response->0 },
                    Ok::<(), Error>(()),
                    trace@,
                )),
            }
        }
        trace
    }

    /// Call the hooks for the key-value pairs of a snapshot until bypass is set to
    /// true. Where there are no pairs, no hook is called.
    pub fn pre_apply_plain_kvs_from_snapshot<'a>(
        &self,
        region: &'a Region,
        cf: CfName,
        kv_pairs: &[(Vec<u8>, Vec<u8>)],
    ) -> (told: Told<'a>)
        ensures
            self.registry@.ordered(),
            kv_pairs@.len() == 0 ==> told.end@ == fresh(region),
            kv_pairs@.len() > 0 ==> dispatched(
                self.registry@.apply_snapshot,
                PreApplyPlainKvs { cf, kv_pairs },
                Moment { ctx: fresh(region), state: () },
                Moment { ctx: told.end@, state: () },
                Ok::<(), Error>(()),
            ),
            told.end@.region == region,
            applying_plain_kvs(self.registry@, region, cf, kv_pairs, told.end@, told.trace@),
    {
        proof {
            use_type_invariant(&self.registry);
        }
        let mut ctx = ObserverContext::new(region);
        let nobody: Bench<BoxApplySnapshotObserver> = Bench::new();
        let observers = if kv_pairs.len() > 0 {
            &self.registry.apply_snapshot_observers
        } else {
            &nobody
        };
        let hook = PreApplyPlainKvs { cf, kv_pairs };
        let trace = observers.dispatch(&hook, &mut ctx, &mut ());
        proof {
            law_dispatch_step(
                observers@,
                hook,
                Moment { ctx: fresh(region), state: () },
                Moment { ctx, state: () },
                Ok::<(), Error>(()),
                trace@,
            );
        }
        Told { end: Ghost(ctx), trace }
    }

    /// Call the hooks for a table file of a snapshot until bypass is set to true.
    pub fn pre_apply_sst_from_snapshot<'a>(
        &self,
        region: &'a Region,
        cf: CfName,
        path: &str,
    ) -> (told: Told<'a>)
        ensures
            self.registry@.ordered(),
            dispatched(
                self.registry@.apply_snapshot,
                PreApplySst { cf, path },
                Moment { ctx: fresh(region), state: () },
                Moment { ctx: told.end@, state: () },
                Ok::<(), Error>(()),
            ),
            told.end@.region == region,
            applying_sst(self.registry@, region, cf, path, told.end@, told.trace@),
    {
        proof {
            use_type_invariant(&self.registry);
        }
        let mut ctx = ObserverContext::new(region);
        let hook = PreApplySst { cf, path };
        let trace = self.registry.apply_snapshot_observers.dispatch(&hook, &mut ctx, &mut ());
        Told { end: Ghost(ctx), trace }
    }

    /// A split check with the checkers that the observers add to it, until bypass
    /// is set to true.
    pub fn new_split_checker_host<'a>(
        &self,
        cfg: &'a Config,
        region: &Region,
        engine: &DB,
        auto_split: bool,
        policy: CheckPolicy,
    ) -> (host: SplitCheckerHost<'a>)
        ensures
            self.registry@.ordered(),
            gathered(self.registry@, cfg, region, *engine, auto_split, policy, host),
    {
        proof {
            use_type_invariant(&self.registry);
        }
        let mut host = SplitCheckerHost::new(auto_split, cfg);
        let ghost start = host;
        let mut ctx = ObserverContext::new(region);
        let hook = AddChecker { engine, policy };
        self.registry.split_check_observers.dispatch(&hook, &mut ctx, &mut host);
        proof {
            assert(no_checkers(start, cfg, auto_split));
            assert(dispatched(
                self.registry@.split_check,
                AddChecker { engine, policy },
                Moment { ctx: fresh(region), state: start },
                Moment { ctx, state: host },
                Ok::<(), Error>(()),
            ));
        }
        host
    }

    /// Call all role change hooks until bypass is set to true.
    pub fn on_role_change<'a>(&self, region: &'a Region, role: StateRole) -> (told: Told<'a>)
        ensures
            self.registry@.ordered(),
            dispatched(
                self.registry@.role,
                OnRoleChange { role },
                Moment { ctx: fresh(region), state: () },
                Moment { ctx: told.end@, state: () },
                Ok::<(), Error>(()),
            ),
            told.end@.region == region,
            role_changed(self.registry@, region, role, told.end@, told.trace@),
    {
        proof {
            use_type_invariant(&self.registry);
        }
        let mut ctx = ObserverContext::new(region);
        let hook = OnRoleChange { role };
        let trace = self.registry.role_observers.dispatch(&hook, &mut ctx, &mut ());
        Told { end: Ghost(ctx), trace }
    }

    /// Call all region change hooks until bypass is set to true.
    pub fn on_region_changed<'a>(
        &self,
        region: &'a Region,
        event: RegionChangeEvent,
        role: StateRole,
    ) -> (told: Told<'a>)
        ensures
            self.registry@.ordered(),
            dispatched(
                self.registry@.region_change,
                OnRegionChanged { event, role },
                Moment { ctx: fresh(region), state: () },
                Moment { ctx: told.end@, state: () },
                Ok::<(), Error>(()),
            ),
            told.end@.region == region,
            region_changed(self.registry@, region, event, role, told.end@, told.trace@),
    {
        proof {
            use_type_invariant(&self.registry);
        }
        let mut ctx = ObserverContext::new(region);
        let hook = OnRegionChanged { event, role };
        let trace = self.registry.region_change_observers.dispatch(&hook, &mut ctx, &mut ());
        Told { end: Ghost(ctx), trace }
    }

    /// Tell every command observer, in order, of executed commands.
    pub fn on_cmd_executed(&self, batch: &[CmdBatch]) -> (journal: Journal)
        ensures
            self.registry@.ordered(),
            all_executed(self.registry@.cmd, batch@),
            journal@ == executions(self.registry@.cmd, batch@),
    {
        proof {
            use_type_invariant(&self.registry);
        }
        let mut journal = Journal::new();
        self.registry.cmd_observers.execute_all(&mut journal, batch);
        assert(journal@ == executions(self.registry@.cmd, batch@));
        journal
    }

    /// Stop the admin observers, then the query, split check and command
    /// observers. Those of the other kinds are not stopped.
    pub fn shutdown(&self) -> (journal: Journal)
        ensures
            self.registry@.ordered(),
            all_stopped(self.registry@.admin),
            all_stopped(self.registry@.query),
            all_stopped(self.registry@.split_check),
            all_stopped(self.registry@.cmd),
            journal@ == self.registry@.stops(),
    {
        proof {
            use_type_invariant(&self.registry);
        }
        let mut journal = Journal::new();
        self.registry.admin_observers.stop_all(&mut journal);
        self.registry.query_observers.stop_all(&mut journal);
        self.registry.split_check_observers.stop_all(&mut journal);
        self.registry.cmd_observers.stop_all(&mut journal);
        assert(journal@ == self.registry@.stops());
        journal
    }
}

/// Law: a proposal that nobody watches goes through as it is.
pub proof fn law_unobserved_proposal(
    roster: Roster,
    region: &Region,
    before: RaftCmdRequest,
    after: RaftCmdRequest,
    answer: Result<(), Error>,
)
    requires
        before.admin_request is Some ==> roster.admin.len() == 0,
        before.admin_request is None ==> roster.query.len() == 0,
        proposed(roster, region, before, after, answer),
    ensures
        answer is Ok,
        after == before,
{
    match before.admin_request {
        Some(admin) => {
            let start = Moment { ctx: fresh(region), state: admin };
            let end = choose|end: ObserverContext<'_>| #[trigger]
                dispatched(
                    roster.admin,
                    PreProposeAdmin,
                    start,
                    Moment { ctx: end, state: after.admin_request->0 },
                    answer,
                );
            assert(roster.admin == Seq::<Entry<BoxAdminObserver>>::empty());
            law_nobody_to_run::<BoxAdminObserver, _, _>(
                PreProposeAdmin,
                start,
                Moment { ctx: end, state: after.admin_request->0 },
                answer,
            );
        },
        None => {
            let start = Moment { ctx: fresh(region), state: before.requests };
            let (end, left) = choose|end: ObserverContext<'_>, left: Vec<Request>|
                {
                    &&& #[trigger] dispatched(
                        roster.query,
                        PreProposeQuery,
                        start,
                        Moment { ctx: end, state: left },
                        answer,
                    )
                    &&& answer is Ok ==> after.requests == left
                    &&& answer is Err ==> after.requests@ == Seq::<Request>::empty()
                };
            assert(roster.query == Seq::<Entry<BoxQueryObserver>>::empty());
            law_nobody_to_run::<BoxQueryObserver, _, _>(
                PreProposeQuery,
                start,
                Moment { ctx: end, state: left },
                answer,
            );
        },
    }
}

/// Law: a response that nobody watches is left as it is.
pub proof fn law_unobserved_response(
    roster: Roster,
    region: &Region,
    index: u64,
    before: RaftCmdResponse,
    after: RaftCmdResponse,
    calls: Seq<HookCall>,
)
    requires
        before.admin_response is Some ==> roster.admin.len() == 0,
        before.admin_response is None ==> roster.query.len() == 0,
        answered(roster, region, index, before, after, calls),
    ensures
        after == before,
        calls == Seq::<HookCall>::empty(),
{
    let header = choose|header: RaftResponseHeader| #[trigger]
        header_for(before.header, header) && observed_response(
            roster,
            region,
            index,
            header,
            before,
            after,
            calls,
        );
    match before.admin_response {
        Some(admin) => {
            let hook = PostApplyAdmin { index, header: &header };
            let start = Moment { ctx: fresh(region), state: admin };
            let end = choose|end: ObserverContext<'_>| #[trigger]
                traced(
                    roster.admin,
                    hook,
                    start,
                    Moment { ctx: end, state: after.admin_response->0 },
                    Ok::<(), Error>(()),
                    calls,
                );
            law_dispatch_step(
                roster.admin,
                hook,
                start,
                Moment { ctx: end, state: after.admin_response->0 },
                Ok::<(), Error>(()),
                calls,
            );
        },
        None => {
            let hook = PostApplyQuery { header: &header };
            let start = Moment { ctx: fresh(region), state: before.responses };
            let end = choose|end: ObserverContext<'_>| #[trigger]
                traced(
                    roster.query,
                    hook,
                    start,
                    Moment { ctx: end, state: after.responses },
                    Ok::<(), Error>(()),
                    calls,
                );
            law_dispatch_step(
                roster.query,
                hook,
                start,
                Moment { ctx: end, state: after.responses },
                Ok::<(), Error>(()),
                calls,
            );
        },
    }
}

/// Law: a proposal is refused by an observer or not at all, and the error is
/// what that observer answered. A refused administrative request is what it
/// left behind; of refused plain requests nothing is left in the command.
pub proof fn law_refusal_has_author(
    roster: Roster,
    region: &Region,
    before: RaftCmdRequest,
    after: RaftCmdRequest,
    error: Error,
)
    requires
        proposed(roster, region, before, after, Err::<(), Error>(error)),
    ensures
        before.admin_request is Some ==> exists|
            i: int,
            given: Moment<'_, AdminRequest>,
            end: ObserverContext<'_>,
        |
            0 <= i < roster.admin.len() && #[trigger] PreProposeAdmin.outcome(
                roster.admin[i].observer,
                given.ctx,
                given.state,
                end,
                after.admin_request->0,
                Err::<(), Error>(error),
            ),
        before.admin_request is None ==> exists|
            i: int,
            given: Moment<'_, Vec<Request>>,
            end: ObserverContext<'_>,
            left: Vec<Request>,
        |
            0 <= i < roster.query.len() && #[trigger] PreProposeQuery.outcome(
                roster.query[i].observer,
                given.ctx,
                given.state,
                end,
                left,
                Err::<(), Error>(error),
            ),
        before.admin_request is None ==> after.requests@ == Seq::<Request>::empty(),
{
    let refusal = Err::<(), Error>(error);
    match before.admin_request {
        Some(admin) => {
            let start = Moment { ctx: fresh(region), state: admin };
            let end = choose|end: ObserverContext<'_>| #[trigger]
                dispatched(
                    roster.admin,
                    PreProposeAdmin,
                    start,
                    Moment { ctx: end, state: after.admin_request->0 },
                    refusal,
                );
            law_error_has_author(
                roster.admin,
                PreProposeAdmin,
                start,
                Moment { ctx: end, state: after.admin_request->0 },
                error,
            );
        },
        None => {
            let start = Moment { ctx: fresh(region), state: before.requests };
            let (end, requests) = choose|end: ObserverContext<'_>, requests: Vec<Request>|
                {
                    &&& #[trigger] dispatched(
                        roster.query,
                        PreProposeQuery,
                        start,
                        Moment { ctx: end, state: requests },
                        refusal,
                    )
                    &&& after.requests@ == Seq::<Request>::empty()
                };
            let left = Moment { ctx: end, state: requests };
            law_error_has_author(roster.query, PreProposeQuery, start, left, error);
        },
    }
}

/// Law: where the hooks leave no choice, a proposal leaves none. What counts as
/// the same administrative request, and as the same plain requests, is up to
/// `same_admin` and `same_requests`.
pub proof fn law_settled_proposal(
    roster: Roster,
    region: &Region,
    same_admin: spec_fn(AdminRequest, AdminRequest) -> bool,
    same_requests: spec_fn(Vec<Request>, Vec<Request>) -> bool,
    before1: RaftCmdRequest,
    after1: RaftCmdRequest,
    answer1: Result<(), Error>,
    before2: RaftCmdRequest,
    after2: RaftCmdRequest,
    answer2: Result<(), Error>,
)
    requires
        settled(roster.admin, PreProposeAdmin, same_admin),
        settled(roster.query, PreProposeQuery, same_requests),
        before1.admin_request is Some == before2.admin_request is Some,
        before1.admin_request is Some ==> same_admin(
            before1.admin_request->0,
            before2.admin_request->0,
        ),
        before1.admin_request is None ==> same_requests(before1.requests, before2.requests),
        proposed(roster, region, before1, after1, answer1),
        proposed(roster, region, before2, after2, answer2),
    ensures
        answer1 == answer2,
        before1.admin_request is Some ==> same_admin(
            after1.admin_request->0,
            after2.admin_request->0,
        ),
        before1.admin_request is None && answer1 is Ok ==> same_requests(
            after1.requests,
            after2.requests,
        ),
        before1.admin_request is None && answer1 is Err ==> after1.requests@ == after2.requests@,
{
    let ctx = fresh(region);
    if before1.admin_request is Some {
        let start1 = Moment { ctx, state: before1.admin_request->0 };
        let start2 = Moment { ctx, state: before2.admin_request->0 };
        let end1 = choose|end: ObserverContext<'_>| #[trigger]
            dispatched(
                roster.admin,
                PreProposeAdmin,
                start1,
                Moment { ctx: end, state: after1.admin_request->0 },
                answer1,
            );
        let end2 = choose|end: ObserverContext<'_>| #[trigger]
            dispatched(
                roster.admin,
                PreProposeAdmin,
                start2,
                Moment { ctx: end, state: after2.admin_request->0 },
                answer2,
            );
        law_settled_dispatch(
            roster.admin,
            PreProposeAdmin,
            same_admin,
            start1,
            Moment { ctx: end1, state: after1.admin_request->0 },
            answer1,
            start2,
            Moment { ctx: end2, state: after2.admin_request->0 },
            answer2,
        );
    } else {
        let start1 = Moment { ctx, state: before1.requests };
        let start2 = Moment { ctx, state: before2.requests };
        let (end1, left1) = choose|end: ObserverContext<'_>, left: Vec<Request>|
            {
                &&& #[trigger] dispatched(
                    roster.query,
                    PreProposeQuery,
                    start1,
                    Moment { ctx: end, state: left },
                    answer1,
                )
                &&& answer1 is Ok ==> after1.requests == left
                &&& answer1 is Err ==> after1.requests@ == Seq::<Request>::empty()
            };
        let (end2, left2) = choose|end: ObserverContext<'_>, left: Vec<Request>|
            {
                &&& #[trigger] dispatched(
                    roster.query,
                    PreProposeQuery,
                    start2,
                    Moment { ctx: end, state: left },
                    answer2,
                )
                &&& answer2 is Ok ==> after2.requests == left
                &&& answer2 is Err ==> after2.requests@ == Seq::<Request>::empty()
            };
        law_settled_dispatch(
            roster.query,
            PreProposeQuery,
            same_requests,
            start1,
            Moment { ctx: end1, state: left1 },
            answer1,
            start2,
            Moment { ctx: end2, state: left2 },
            answer2,
        );
    }
}

/// The observer is of a kind that a shutdown stops.
pub open spec fn is_stopped_kind(seat: Seat) -> bool {
    seat is Admin || seat is Query || seat is SplitCheck || seat is Cmd
}

/// Law: whoever comes, and in whatever order, the observers of every kind stand
/// in the order of their numbers.
pub proof fn law_arrivals_ordered(arrivals: Seq<Arrival>)
    ensures
        Roster::of(arrivals).ordered(),
    decreases arrivals.len(),
{
    if arrivals.len() > 0 {
        law_arrivals_ordered(arrivals.drop_last());
        let before = Roster::of(arrivals.drop_last());
        match arrivals.last() {
            Arrival::Admin(priority, observer) => law_enlisted_ordered(
                before.admin,
                Entry { priority, observer },
            ),
            Arrival::Query(priority, observer) => law_enlisted_ordered(
                before.query,
                Entry { priority, observer },
            ),
            Arrival::ApplySnapshot(priority, observer) => law_enlisted_ordered(
                before.apply_snapshot,
                Entry { priority, observer },
            ),
            Arrival::SplitCheck(priority, observer) => law_enlisted_ordered(
                before.split_check,
                Entry { priority, observer },
            ),
            Arrival::Role(priority, observer) => law_enlisted_ordered(
                before.role,
                Entry { priority, observer },
            ),
            Arrival::RegionChange(priority, observer) => law_enlisted_ordered(
                before.region_change,
                Entry { priority, observer },
            ),
            Arrival::Cmd(priority, observer) => law_enlisted_ordered(
                before.cmd,
                Entry { priority, observer },
            ),
        }
    }
}

/// Law: kinds do not mix. However the arrivals of the kinds alternate, the list
/// of each kind is what the arrivals of that kind alone make, one after the
/// other, and everyone is started in the order of arrival.
pub proof fn law_kinds_do_not_mix(arrivals: Seq<Arrival>)
    ensures
        Roster::of(arrivals).admin == enlisted_all(
            arrivals.filter_map(|a: Arrival| a.admin()),
        ),
        Roster::of(arrivals).query == enlisted_all(
            arrivals.filter_map(|a: Arrival| a.query()),
        ),
        Roster::of(arrivals).apply_snapshot == enlisted_all(
            arrivals.filter_map(|a: Arrival| a.apply_snapshot()),
        ),
        Roster::of(arrivals).split_check == enlisted_all(
            arrivals.filter_map(|a: Arrival| a.split_check()),
        ),
        Roster::of(arrivals).role == enlisted_all(
            arrivals.filter_map(|a: Arrival| a.role()),
        ),
        Roster::of(arrivals).region_change == enlisted_all(
            arrivals.filter_map(|a: Arrival| a.region_change()),
        ),
        Roster::of(arrivals).cmd == enlisted_all(
            arrivals.filter_map(|a: Arrival| a.cmd()),
        ),
        Roster::of(arrivals).starts == arrivals.map_values(
            |a: Arrival| Call::Started(a.seat()),
        ),
    decreases arrivals.len(),
{
    if arrivals.len() > 0 {
        law_kinds_do_not_mix(arrivals.drop_last());
        lemma_enlisted_last(arrivals, |a: Arrival| a.admin());
        lemma_enlisted_last(arrivals, |a: Arrival| a.query());
        lemma_enlisted_last(arrivals, |a: Arrival| a.apply_snapshot());
        lemma_enlisted_last(arrivals, |a: Arrival| a.split_check());
        lemma_enlisted_last(arrivals, |a: Arrival| a.role());
        lemma_enlisted_last(arrivals, |a: Arrival| a.region_change());
        lemma_enlisted_last(arrivals, |a: Arrival| a.cmd());
    }
}

/// Law: however the arrivals of the kinds alternate, those of one kind with the
/// same number stand in the order in which they came.
pub proof fn law_kinds_keep_arrival_order(arrivals: Seq<Arrival>, priority: u32)
    ensures
        with_priority(Roster::of(arrivals).admin, priority) == with_priority(
            arrivals.filter_map(|a: Arrival| a.admin()),
            priority,
        ),
        with_priority(Roster::of(arrivals).query, priority) == with_priority(
            arrivals.filter_map(|a: Arrival| a.query()),
            priority,
        ),
        with_priority(Roster::of(arrivals).apply_snapshot, priority) == with_priority(
            arrivals.filter_map(|a: Arrival| a.apply_snapshot()),
            priority,
        ),
        with_priority(Roster::of(arrivals).split_check, priority) == with_priority(
            arrivals.filter_map(|a: Arrival| a.split_check()),
            priority,
        ),
        with_priority(Roster::of(arrivals).role, priority) == with_priority(
            arrivals.filter_map(|a: Arrival| a.role()),
            priority,
        ),
        with_priority(Roster::of(arrivals).region_change, priority) == with_priority(
            arrivals.filter_map(|a: Arrival| a.region_change()),
            priority,
        ),
        with_priority(Roster::of(arrivals).cmd, priority) == with_priority(
            arrivals.filter_map(|a: Arrival| a.cmd()),
            priority,
        ),
{
    law_kinds_do_not_mix(arrivals);
    law_arrivals_sorted(arrivals.filter_map(|a: Arrival| a.admin()), priority);
    law_arrivals_sorted(arrivals.filter_map(|a: Arrival| a.query()), priority);
    law_arrivals_sorted(arrivals.filter_map(|a: Arrival| a.apply_snapshot()), priority);
    law_arrivals_sorted(arrivals.filter_map(|a: Arrival| a.split_check()), priority);
    law_arrivals_sorted(arrivals.filter_map(|a: Arrival| a.role()), priority);
    law_arrivals_sorted(arrivals.filter_map(|a: Arrival| a.region_change()), priority);
    law_arrivals_sorted(arrivals.filter_map(|a: Arrival| a.cmd()), priority);
}

/// What the last arrival adds to the list of one kind.
proof fn lemma_enlisted_last<T>(
    arrivals: Seq<Arrival>,
    of_kind: spec_fn(Arrival) -> Option<Entry<T>>,
)
    requires
        arrivals.len() > 0,
    ensures
        enlisted_all(arrivals.filter_map(of_kind)) == match of_kind(arrivals.last()) {
            Some(entry) => enlisted(
                enlisted_all(arrivals.drop_last().filter_map(of_kind)),
                entry,
            ),
            None => enlisted_all(arrivals.drop_last().filter_map(of_kind)),
        },
{
    let before = arrivals.drop_last().filter_map(of_kind);
    let after = arrivals.filter_map(of_kind);
    if let Some(entry) = of_kind(arrivals.last()) {
        assert(after == before + seq![entry]);
        assert(after.drop_last() == before);
        assert(after.last() == entry);
    }
}

/// Law: a shutdown stops an observer as often as it was started, if it is an
/// admin, query, split check or command observer, and else not at all.
pub proof fn law_stopped_as_often_as_started(arrivals: Seq<Arrival>, seat: Seat)
    ensures
        is_stopped_kind(seat) ==> Roster::of(arrivals).stops().to_multiset().count(
            Call::Stopped(seat),
        ) == Roster::of(arrivals).starts.to_multiset().count(Call::Started(seat)),
        !is_stopped_kind(seat) ==> Roster::of(arrivals).stops().to_multiset().count(
            Call::Stopped(seat),
        ) == 0,
    decreases arrivals.len(),
{
    broadcast use vstd::seq_lib::group_to_multiset_ensures;
    broadcast use vstd::multiset::group_multiset_axioms;

    if arrivals.len() == 0 {
        assert(Roster::empty().stops() == Seq::<Call>::empty());
    } else {
        let rest = arrivals.drop_last();
        let last = arrivals.last();
        let before = Roster::of(rest);
        let after = before.with(last);
        law_stopped_as_often_as_started(rest, seat);
        law_arrivals_ordered(rest);
        lemma_stops_of_arrival(before, last);
        assert(after.starts == before.starts.push(Call::Started(last.seat())));
    }
}

/// An observer that comes adds one stop to a shutdown, or none if its kind is
/// not stopped.
proof fn lemma_stops_of_arrival(roster: Roster, arrival: Arrival)
    requires
        roster.ordered(),
    ensures
        is_stopped_kind(arrival.seat()) ==> roster.with(arrival).stops().to_multiset()
            == roster.stops().to_multiset().insert(Call::Stopped(arrival.seat())),
        !is_stopped_kind(arrival.seat()) ==> roster.with(arrival).stops() == roster.stops(),
{
    broadcast use vstd::seq_lib::group_to_multiset_ensures;

    let before = roster.stops();
    let after = roster.with(arrival).stops();
    let stop = Call::Stopped(arrival.seat());
    let a = roster.admin.len() as int;
    let q = roster.query.len() as int;
    let c = roster.split_check.len() as int;
    match arrival {
        Arrival::Admin(priority, observer) => {
            lemma_slot_splits(roster.admin, priority);
            assert(after == before.insert(slot(roster.admin, priority) as int, stop));
        },
        Arrival::Query(priority, observer) => {
            lemma_slot_splits(roster.query, priority);
            assert(after == before.insert(a + slot(roster.query, priority), stop));
        },
        Arrival::SplitCheck(priority, observer) => {
            lemma_slot_splits(roster.split_check, priority);
            assert(after == before.insert(a + q + slot(roster.split_check, priority), stop));
        },
        Arrival::Cmd(priority, observer) => {
            lemma_slot_splits(roster.cmd, priority);
            assert(after == before.insert(a + q + c + slot(roster.cmd, priority), stop));
        },
        _ => {},
    }
}

} // verus!
