use coprocessor::dispatcher::{CoprocessorHost, Registry};
use coprocessor::messages::{
    AdminRequest, AdminResponse, CfName, CheckPolicy, Cmd, CmdBatch, Config, RaftCmdRequest,
    RaftCmdResponse, RaftResponseHeader, Region, RegionChangeEvent, Request, Response,
    SplitChecker, SplitCheckerHost, StateRole, DB,
};
use coprocessor::observer::{
    AdminObserver, ApplySnapshotObserver, BoxAdminObserver, BoxApplySnapshotObserver,
    BoxCmdObserver, BoxQueryObserver, BoxRegionChangeObserver, BoxRoleObserver,
    BoxSplitCheckObserver, CmdObserver, Error, ObserverContext, QueryObserver,
    RegionChangeObserver, RoleObserver, SplitCheckObserver,
};
use std::sync::{Arc, Mutex};

/// An observer that writes down its calls and marks what passes through it.
#[derive(Clone)]
struct Scribe {
    name: &'static str,
    log: Arc<Mutex<Vec<String>>>,
    bypass: bool,
    refuse: bool,
}

impl Scribe {
    fn note(&self, what: String) {
        self.log.lock().unwrap().push(format!("{} {}", self.name, what));
    }

    fn mark(&self) -> u8 {
        self.name.as_bytes()[0]
    }

    fn answer(&self) -> Result<(), Error> {
        if self.refuse {
            Err(Error { message: format!("refused by {}", self.name) })
        } else {
            Ok(())
        }
    }
}

struct Desk {
    log: Arc<Mutex<Vec<String>>>,
}

impl Desk {
    fn new() -> Desk {
        Desk { log: Arc::new(Mutex::new(Vec::new())) }
    }

    fn scribe(&self, name: &'static str) -> Scribe {
        Scribe { name, log: self.log.clone(), bypass: false, refuse: false }
    }

    fn take(&self) -> Vec<String> {
        std::mem::take(&mut *self.log.lock().unwrap())
    }
}

impl AdminObserver for Scribe {
    fn start(&self) {
        self.note("start admin".to_string());
    }

    fn stop(&self) {
        self.note("stop admin".to_string());
    }

    fn pre_propose_admin(
        &self,
        ctx: &mut ObserverContext<'_>,
        admin: &mut AdminRequest,
    ) -> Result<(), Error> {
        self.note(format!("propose {:?} in {:?}", admin.encoded, ctx.region.encoded));
        admin.encoded.push(self.mark());
        ctx.bypass = self.bypass;
        self.answer()
    }

    fn pre_apply_admin(&self, ctx: &mut ObserverContext<'_>, index: u64, admin: &AdminRequest) {
        self.note(format!("apply {} {:?}", index, admin.encoded));
        ctx.bypass = self.bypass;
    }

    fn post_apply_admin(
        &self,
        ctx: &mut ObserverContext<'_>,
        index: u64,
        header: &RaftResponseHeader,
        admin: &mut AdminResponse,
    ) {
        self.note(format!("applied {} {:?} {:?}", index, header.encoded, admin.encoded));
        admin.encoded.push(self.mark());
        ctx.bypass = self.bypass;
    }
}

impl QueryObserver for Scribe {
    fn start(&self) {
        self.note("start query".to_string());
    }

    fn stop(&self) {
        self.note("stop query".to_string());
    }

    fn pre_propose_query(
        &self,
        ctx: &mut ObserverContext<'_>,
        requests: &mut Vec<Request>,
    ) -> Result<(), Error> {
        self.note(format!("propose {}", requests.len()));
        requests.push(Request { encoded: vec![self.mark()] });
        ctx.bypass = self.bypass;
        self.answer()
    }

    fn pre_apply_query(&self, ctx: &mut ObserverContext<'_>, requests: &[Request]) {
        self.note(format!("apply {}", requests.len()));
        ctx.bypass = self.bypass;
    }

    fn post_apply_query(
        &self,
        ctx: &mut ObserverContext<'_>,
        header: &RaftResponseHeader,
        responses: &mut Vec<Response>,
    ) {
        self.note(format!("applied {:?} {}", header.encoded, responses.len()));
        responses.push(Response { encoded: vec![self.mark()] });
        ctx.bypass = self.bypass;
    }
}

impl ApplySnapshotObserver for Scribe {
    fn start(&self) {
        self.note("start snapshot".to_string());
    }

    fn stop(&self) {
        self.note("stop snapshot".to_string());
    }

    fn pre_apply_plain_kvs(
        &self,
        ctx: &mut ObserverContext<'_>,
        cf: CfName,
        kv_pairs: &[(Vec<u8>, Vec<u8>)],
    ) {
        self.note(format!("kvs {} {:?}", cf, kv_pairs));
        ctx.bypass = self.bypass;
    }

    fn pre_apply_sst(&self, ctx: &mut ObserverContext<'_>, cf: CfName, path: &str) {
        self.note(format!("sst {} {}", cf, path));
        ctx.bypass = self.bypass;
    }
}

impl SplitCheckObserver for Scribe {
    fn start(&self) {
        self.note("start split".to_string());
    }

    fn stop(&self) {
        self.note("stop split".to_string());
    }

    fn add_checker(
        &self,
        ctx: &mut ObserverContext<'_>,
        host: &mut SplitCheckerHost<'_>,
        engine: &DB,
        policy: CheckPolicy,
    ) {
        self.note(format!("add {} {:?} {}", engine.path, policy, host.checkers.len()));
        host.checkers.push(SplitChecker { name: self.name.to_string(), policy });
        ctx.bypass = self.bypass;
    }
}

impl RoleObserver for Scribe {
    fn start(&self) {
        self.note("start role".to_string());
    }

    fn stop(&self) {
        self.note("stop role".to_string());
    }

    fn on_role_change(&self, ctx: &mut ObserverContext<'_>, role: StateRole) {
        self.note(format!("role {:?}", role));
        ctx.bypass = self.bypass;
    }
}

impl RegionChangeObserver for Scribe {
    fn start(&self) {
        self.note("start region".to_string());
    }

    fn stop(&self) {
        self.note("stop region".to_string());
    }

    fn on_region_changed(
        &self,
        ctx: &mut ObserverContext<'_>,
        event: RegionChangeEvent,
        role: StateRole,
    ) {
        self.note(format!("region {:?} {:?}", event, role));
        ctx.bypass = self.bypass;
    }
}

impl CmdObserver for Scribe {
    fn start(&self) {
        self.note("start cmd".to_string());
    }

    fn stop(&self) {
        self.note("stop cmd".to_string());
    }

    fn on_batch_executed(&self, batch: &[CmdBatch]) {
        let ids: Vec<u64> = batch.iter().map(|b| b.region_id).collect();
        self.note(format!("executed {:?}", ids));
    }
}

fn admin(s: &Scribe) -> BoxAdminObserver {
    BoxAdminObserver { inner: Box::new(s.clone()) }
}

fn query(s: &Scribe) -> BoxQueryObserver {
    BoxQueryObserver { inner: Box::new(s.clone()) }
}

fn snapshot(s: &Scribe) -> BoxApplySnapshotObserver {
    BoxApplySnapshotObserver { inner: Box::new(s.clone()) }
}

fn split(s: &Scribe) -> BoxSplitCheckObserver {
    BoxSplitCheckObserver { inner: Box::new(s.clone()) }
}

fn role(s: &Scribe) -> BoxRoleObserver {
    BoxRoleObserver { inner: Box::new(s.clone()) }
}

fn region_change(s: &Scribe) -> BoxRegionChangeObserver {
    BoxRegionChangeObserver { inner: Box::new(s.clone()) }
}

fn cmd(s: &Scribe) -> BoxCmdObserver {
    BoxCmdObserver { inner: Box::new(s.clone()) }
}

fn region() -> Region {
    Region { encoded: vec![7] }
}

fn admin_request() -> RaftCmdRequest {
    RaftCmdRequest {
        requests: vec![Request { encoded: vec![1] }],
        admin_request: Some(AdminRequest { encoded: vec![2] }),
    }
}

fn query_request() -> RaftCmdRequest {
    RaftCmdRequest { requests: vec![Request { encoded: vec![1] }], admin_request: None }
}

fn config() -> Config {
    Config {
        split_region_on_table: false,
        batch_split_limit: 10,
        region_max_size: 144,
        region_split_size: 96,
        region_max_keys: 1440,
        region_split_keys: 960,
    }
}

#[test]
fn registration_starts_each_observer_once() {
    let desk = Desk::new();
    let s = desk.scribe("a");
    let mut registry = Registry::default();
    registry.register_admin_observer(1, admin(&s));
    registry.register_query_observer(1, query(&s));
    registry.register_apply_snapshot_observer(1, snapshot(&s));
    registry.register_split_check_observer(1, split(&s));
    registry.register_role_observer(1, role(&s));
    registry.register_region_change_observer(1, region_change(&s));
    registry.register_cmd_observer(1, cmd(&s));
    assert_eq!(
        desk.take(),
        vec![
            "a start admin",
            "a start query",
            "a start snapshot",
            "a start split",
            "a start role",
            "a start region",
            "a start cmd",
        ]
    );
}

#[test]
fn equal_numbers_keep_the_order_of_arrival() {
    let desk = Desk::new();
    let mut host = CoprocessorHost::default();
    for (name, priority) in [("a", 5), ("b", 1), ("c", 5), ("d", 0), ("e", 1), ("f", u32::MAX)] {
        host.registry.register_role_observer(priority, role(&desk.scribe(name)));
    }
    desk.take();
    host.on_role_change(&region(), StateRole::Candidate);
    assert_eq!(
        desk.take(),
        vec![
            "d role Candidate",
            "b role Candidate",
            "e role Candidate",
            "a role Candidate",
            "c role Candidate",
            "f role Candidate",
        ]
    );
}

#[test]
fn unequal_numbers_may_arrive_in_any_order() {
    let desk = Desk::new();
    for order in [[("a", 1), ("b", 2)], [("b", 2), ("a", 1)]] {
        let mut host = CoprocessorHost::default();
        for (name, priority) in order {
            let observer = region_change(&desk.scribe(name));
            host.registry.register_region_change_observer(priority, observer);
        }
        desk.take();
        host.on_region_changed(&region(), RegionChangeEvent::Update, StateRole::PreCandidate);
        assert_eq!(
            desk.take(),
            vec!["a region Update PreCandidate", "b region Update PreCandidate"]
        );
    }
}

#[test]
fn every_list_puts_the_smaller_number_first() {
    let desk = Desk::new();
    let (a, b) = (desk.scribe("a"), desk.scribe("b"));
    let mut host = CoprocessorHost::default();
    host.registry.register_admin_observer(9, admin(&b));
    host.registry.register_admin_observer(8, admin(&a));
    host.registry.register_query_observer(9, query(&b));
    host.registry.register_query_observer(8, query(&a));
    host.registry.register_apply_snapshot_observer(9, snapshot(&b));
    host.registry.register_apply_snapshot_observer(8, snapshot(&a));
    host.registry.register_cmd_observer(9, cmd(&b));
    host.registry.register_cmd_observer(8, cmd(&a));
    desk.take();
    host.pre_apply(&region(), 4, &admin_request());
    host.pre_apply(&region(), 4, &query_request());
    host.pre_apply_plain_kvs_from_snapshot(&region(), "write", &[(vec![1], vec![2])]);
    host.pre_apply_sst_from_snapshot(&region(), "lock", "p");
    host.on_cmd_executed(&[CmdBatch { region_id: 3, cmds: vec![] }]);
    assert_eq!(
        desk.take(),
        vec![
            "a apply 4 [2]",
            "b apply 4 [2]",
            "a apply 1",
            "b apply 1",
            "a kvs write [([1], [2])]",
            "b kvs write [([1], [2])]",
            "a sst lock p",
            "b sst lock p",
            "a executed [3]",
            "b executed [3]",
        ]
    );
}

#[test]
fn admin_proposal_is_passed_on_and_changed() {
    let desk = Desk::new();
    let mut host = CoprocessorHost::default();
    host.registry.register_admin_observer(1, admin(&desk.scribe("a")));
    host.registry.register_admin_observer(2, admin(&desk.scribe("b")));
    host.registry.register_query_observer(1, query(&desk.scribe("q")));
    desk.take();
    let mut req = admin_request();
    assert_eq!(host.pre_propose(&region(), &mut req), Ok(()));
    assert_eq!(desk.take(), vec!["a propose [2] in [7]", "b propose [2, 97] in [7]"]);
    assert_eq!(req.admin_request, Some(AdminRequest { encoded: vec![2, 97, 98] }));
    assert_eq!(req.requests, vec![Request { encoded: vec![1] }]);
}

#[test]
fn refused_plain_requests_do_not_come_back() {
    let desk = Desk::new();
    for bypass in [false, true] {
        let mut refusing = desk.scribe("b");
        refusing.refuse = true;
        refusing.bypass = bypass;
        let mut host = CoprocessorHost::default();
        host.registry.register_query_observer(1, query(&desk.scribe("a")));
        host.registry.register_query_observer(2, query(&refusing));
        host.registry.register_query_observer(3, query(&desk.scribe("c")));
        host.registry.register_admin_observer(1, admin(&desk.scribe("d")));
        desk.take();
        let mut req = query_request();
        assert_eq!(
            host.pre_propose(&region(), &mut req),
            Err(Error { message: "refused by b".to_string() })
        );
        assert_eq!(desk.take(), vec!["a propose 1", "b propose 2"]);
        assert_eq!(req.requests, vec![]);
        assert_eq!(req.admin_request, None);
    }
}

#[test]
fn plain_proposal_is_passed_on_and_changed() {
    let desk = Desk::new();
    let mut shield = desk.scribe("b");
    shield.bypass = true;
    let mut host = CoprocessorHost::default();
    host.registry.register_query_observer(1, query(&desk.scribe("a")));
    host.registry.register_query_observer(2, query(&shield));
    host.registry.register_query_observer(3, query(&desk.scribe("c")));
    desk.take();
    let mut req = query_request();
    assert_eq!(host.pre_propose(&region(), &mut req), Ok(()));
    assert_eq!(desk.take(), vec!["a propose 1", "b propose 2"]);
    assert_eq!(
        req.requests,
        vec![
            Request { encoded: vec![1] },
            Request { encoded: vec![97] },
            Request { encoded: vec![98] },
        ]
    );
    assert_eq!(req.admin_request, None);
}

#[test]
fn refused_admin_request_keeps_what_the_refusing_observer_left() {
    let desk = Desk::new();
    let mut refusing = desk.scribe("b");
    refusing.refuse = true;
    let mut host = CoprocessorHost::default();
    host.registry.register_admin_observer(1, admin(&desk.scribe("a")));
    host.registry.register_admin_observer(2, admin(&refusing));
    host.registry.register_admin_observer(3, admin(&desk.scribe("c")));
    desk.take();
    let mut req = admin_request();
    assert_eq!(
        host.pre_propose(&region(), &mut req),
        Err(Error { message: "refused by b".to_string() })
    );
    assert_eq!(desk.take(), vec!["a propose [2] in [7]", "b propose [2, 97] in [7]"]);
    assert_eq!(req.admin_request, Some(AdminRequest { encoded: vec![2, 97, 98] }));
    assert_eq!(req.requests, vec![Request { encoded: vec![1] }]);
}

#[test]
fn equals_change_places_with_their_arrival() {
    let desk = Desk::new();
    for (order, run) in [(["a", "b"], ["y", "a", "b", "z"]), (["b", "a"], ["y", "b", "a", "z"])] {
        let mut host = CoprocessorHost::default();
        host.registry.register_role_observer(9, role(&desk.scribe("z")));
        host.registry.register_role_observer(5, role(&desk.scribe("y")));
        for name in order {
            host.registry.register_role_observer(5, role(&desk.scribe(name)));
        }
        desk.take();
        host.on_role_change(&region(), StateRole::Follower);
        let expected: Vec<String> = run.iter().map(|n| format!("{} role Follower", n)).collect();
        assert_eq!(desk.take(), expected);
    }
}

#[test]
fn an_observer_registered_twice_is_stopped_twice() {
    let desk = Desk::new();
    let s = desk.scribe("a");
    let mut host = CoprocessorHost::default();
    host.registry.register_query_observer(2, query(&s));
    host.registry.register_query_observer(1, query(&s));
    host.registry.register_role_observer(1, role(&s));
    assert_eq!(desk.take(), vec!["a start query", "a start query", "a start role"]);
    host.shutdown();
    assert_eq!(desk.take(), vec!["a stop query", "a stop query"]);
}

#[test]
fn bypass_shields_the_following_observers() {
    let desk = Desk::new();
    let mut shield = desk.scribe("b");
    shield.bypass = true;
    let mut host = CoprocessorHost::default();
    let (a, c, d) = (desk.scribe("a"), desk.scribe("c"), desk.scribe("d"));
    for (number, s) in [(1, a), (2, shield), (2, c), (3, d)] {
        host.registry.register_admin_observer(number, admin(&s));
        host.registry.register_query_observer(number, query(&s));
        host.registry.register_apply_snapshot_observer(number, snapshot(&s));
        host.registry.register_split_check_observer(number, split(&s));
        host.registry.register_role_observer(number, role(&s));
        host.registry.register_region_change_observer(number, region_change(&s));
    }
    desk.take();
    let cfg = config();
    let engine = DB { path: "db".to_string() };
    let mut req = admin_request();
    assert_eq!(host.pre_propose(&region(), &mut req), Ok(()));
    host.pre_apply(&region(), 1, &query_request());
    host.pre_apply_plain_kvs_from_snapshot(&region(), "default", &[(vec![], vec![])]);
    host.pre_apply_sst_from_snapshot(&region(), "default", "f");
    let split = host.new_split_checker_host(&cfg, &region(), &engine, false, CheckPolicy::Scan);
    host.on_role_change(&region(), StateRole::Leader);
    host.on_region_changed(&region(), RegionChangeEvent::Destroy, StateRole::Leader);
    assert_eq!(
        desk.take(),
        vec![
            "a propose [2] in [7]",
            "b propose [2, 97] in [7]",
            "a apply 1",
            "b apply 1",
            "a kvs default [([], [])]",
            "b kvs default [([], [])]",
            "a sst default f",
            "b sst default f",
            "a add db Scan 0",
            "b add db Scan 1",
            "a role Leader",
            "b role Leader",
            "a region Destroy Leader",
            "b region Destroy Leader",
        ]
    );
    assert_eq!(split.checkers.len(), 2);
}

#[test]
fn responses_are_passed_on_with_their_header() {
    let desk = Desk::new();
    let mut host = CoprocessorHost::default();
    host.registry.register_admin_observer(1, admin(&desk.scribe("a")));
    host.registry.register_admin_observer(2, admin(&desk.scribe("b")));
    host.registry.register_query_observer(1, query(&desk.scribe("q")));
    desk.take();
    let header = Some(RaftResponseHeader { encoded: vec![5] });
    let mut resp = RaftCmdResponse {
        header: header.clone(),
        responses: vec![Response { encoded: vec![6] }],
        admin_response: Some(AdminResponse { encoded: vec![] }),
    };
    host.post_apply(&region(), 11, &mut resp);
    assert_eq!(desk.take(), vec!["a applied 11 [5] []", "b applied 11 [5] [97]"]);
    assert_eq!(resp.admin_response, Some(AdminResponse { encoded: vec![97, 98] }));
    assert_eq!(resp.responses, vec![Response { encoded: vec![6] }]);
    assert_eq!(resp.header, header);

    resp.admin_response = None;
    resp.header = None;
    host.post_apply(&region(), 12, &mut resp);
    assert_eq!(desk.take(), vec!["q applied [] 1"]);
    assert_eq!(
        resp.responses,
        vec![Response { encoded: vec![6] }, Response { encoded: vec![113] }]
    );
    assert_eq!(resp.header, None);
    assert_eq!(resp.admin_response, None);
}

#[test]
fn new_host_runs_half_size_keys_and_table() {
    let desk = Desk::new();
    let host = CoprocessorHost::new(
        split(&desk.scribe("size")),
        split(&desk.scribe("keys")),
        split(&desk.scribe("half")),
        split(&desk.scribe("table")),
    );
    assert_eq!(
        desk.take(),
        vec!["size start split", "keys start split", "half start split", "table start split"]
    );
    let cfg = config();
    let engine = DB { path: "kv".to_string() };
    let check =
        host.new_split_checker_host(&cfg, &region(), &engine, true, CheckPolicy::Approximate);
    assert!(check.auto_split);
    assert_eq!(check.cfg, &cfg);
    let names: Vec<&str> = check.checkers.iter().map(|c| c.name.as_str()).collect();
    assert_eq!(names, vec!["half", "size", "keys", "table"]);
    assert!(check.checkers.iter().all(|c| c.policy == CheckPolicy::Approximate));
    assert_eq!(
        desk.take(),
        vec![
            "half add kv Approximate 0",
            "size add kv Approximate 1",
            "keys add kv Approximate 2",
            "table add kv Approximate 3",
        ]
    );
}

#[test]
fn executed_commands_reach_all_whatever_they_would_bypass() {
    let desk = Desk::new();
    let mut a = desk.scribe("a");
    a.bypass = true;
    let mut host = CoprocessorHost::default();
    host.registry.register_cmd_observer(2, cmd(&desk.scribe("b")));
    host.registry.register_cmd_observer(1, cmd(&a));
    desk.take();
    let one = Cmd { index: 1, request: query_request(), response: RaftCmdResponse::default() };
    let batch = [
        CmdBatch { region_id: 4, cmds: vec![one] },
        CmdBatch { region_id: 5, cmds: vec![] },
    ];
    host.on_cmd_executed(&batch);
    assert_eq!(desk.take(), vec!["a executed [4, 5]", "b executed [4, 5]"]);
}

#[test]
fn shutdown_stops_four_kinds_in_turn() {
    let desk = Desk::new();
    let (a, b) = (desk.scribe("a"), desk.scribe("b"));
    let mut host = CoprocessorHost::default();
    for (number, s) in [(2, &b), (1, &a)] {
        host.registry.register_cmd_observer(number, cmd(s));
        host.registry.register_region_change_observer(number, region_change(s));
        host.registry.register_role_observer(number, role(s));
        host.registry.register_split_check_observer(number, split(s));
        host.registry.register_apply_snapshot_observer(number, snapshot(s));
        host.registry.register_query_observer(number, query(s));
        host.registry.register_admin_observer(number, admin(s));
    }
    desk.take();
    host.shutdown();
    assert_eq!(
        desk.take(),
        vec![
            "a stop admin",
            "b stop admin",
            "a stop query",
            "b stop query",
            "a stop split",
            "b stop split",
            "a stop cmd",
            "b stop cmd",
        ]
    );
}

/// An observer that writes another region into the context.
struct Scribbler;

impl AdminObserver for Scribbler {
    fn start(&self) {}

    fn stop(&self) {}

    fn pre_propose_admin(
        &self,
        ctx: &mut ObserverContext<'_>,
        _: &mut AdminRequest,
    ) -> Result<(), Error> {
        ctx.region = Box::leak(Box::new(Region { encoded: vec![8] }));
        Ok(())
    }

    fn pre_apply_admin(&self, _: &mut ObserverContext<'_>, _: u64, _: &AdminRequest) {}

    fn post_apply_admin(
        &self,
        _: &mut ObserverContext<'_>,
        _: u64,
        _: &RaftResponseHeader,
        _: &mut AdminResponse,
    ) {
    }
}

#[test]
fn every_observer_is_given_the_region_of_the_dispatch() {
    let desk = Desk::new();
    let mut host = CoprocessorHost::default();
    host.registry.register_admin_observer(1, admin(&desk.scribe("a")));
    host.registry.register_admin_observer(2, BoxAdminObserver { inner: Box::new(Scribbler) });
    host.registry.register_admin_observer(3, admin(&desk.scribe("b")));
    desk.take();
    assert_eq!(host.pre_propose(&region(), &mut admin_request()), Ok(()));
    assert_eq!(desk.take(), vec!["a propose [2] in [7]", "b propose [2, 97] in [7]"]);
}

#[test]
fn kinds_do_not_mix_in_whatever_order_they_come() {
    let desk = Desk::new();
    let (a, b, c) = (desk.scribe("a"), desk.scribe("b"), desk.scribe("c"));
    let mut host = CoprocessorHost::default();
    host.registry.register_role_observer(2, role(&a));
    host.registry.register_region_change_observer(2, region_change(&c));
    host.registry.register_role_observer(2, role(&b));
    host.registry.register_region_change_observer(2, region_change(&a));
    host.registry.register_role_observer(1, role(&c));
    assert_eq!(
        desk.take(),
        vec!["a start role", "c start region", "b start role", "a start region", "c start role"]
    );
    host.on_role_change(&region(), StateRole::Leader);
    host.on_region_changed(&region(), RegionChangeEvent::Create, StateRole::Leader);
    assert_eq!(
        desk.take(),
        vec![
            "c role Leader",
            "a role Leader",
            "b role Leader",
            "c region Create Leader",
            "a region Create Leader",
        ]
    );
}

#[test]
fn host_without_observers_changes_nothing() {
    let host = CoprocessorHost::default();
    for original in [admin_request(), query_request()] {
        let mut req = original.clone();
        assert_eq!(host.pre_propose(&region(), &mut req), Ok(()));
        assert_eq!(req, original);
    }
    let original = RaftCmdResponse {
        header: None,
        responses: vec![Response::default()],
        admin_response: Some(AdminResponse::default()),
    };
    let mut resp = original.clone();
    host.post_apply(&region(), 1, &mut resp);
    assert_eq!(resp, original);
    let cfg = config();
    let engine = DB { path: String::new() };
    let check = host.new_split_checker_host(&cfg, &region(), &engine, false, CheckPolicy::Scan);
    assert_eq!(check, SplitCheckerHost::new(false, &cfg));
    host.pre_apply(&region(), 1, &admin_request());
    host.on_cmd_executed(&[]);
    host.shutdown();
}

#[test]
fn snapshot_without_pairs_runs_no_hook() {
    let desk = Desk::new();
    let mut host = CoprocessorHost::default();
    host.registry.register_apply_snapshot_observer(1, snapshot(&desk.scribe("a")));
    desk.take();
    host.pre_apply_plain_kvs_from_snapshot(&region(), "default", &[]);
    assert!(desk.take().is_empty());
    host.pre_apply_plain_kvs_from_snapshot(&region(), "default", &[(vec![1], vec![])]);
    assert_eq!(desk.take(), vec!["a kvs default [([1], [])]"]);
}
