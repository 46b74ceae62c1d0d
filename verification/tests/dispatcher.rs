use coprocessor::dispatcher::CoprocessorHost;
use coprocessor::messages::{
    AdminRequest, AdminResponse, CfName, CmdBatch, RaftCmdRequest, RaftCmdResponse,
    RaftResponseHeader, Region, RegionChangeEvent, Request, Response, StateRole,
};
use coprocessor::observer::{
    AdminObserver, ApplySnapshotObserver, BoxAdminObserver, BoxApplySnapshotObserver,
    BoxCmdObserver, BoxQueryObserver, BoxRegionChangeObserver, BoxRoleObserver, CmdObserver, Error,
    ObserverContext, QueryObserver, RegionChangeObserver, RoleObserver,
};
use std::sync::atomic::{AtomicBool, AtomicUsize, Ordering};
use std::sync::Arc;

#[derive(Clone, Default)]
struct TestCoprocessor {
    bypass: Arc<AtomicBool>,
    called: Arc<AtomicUsize>,
    return_err: Arc<AtomicBool>,
}

impl AdminObserver for TestCoprocessor {
    fn start(&self) {}

    fn stop(&self) {}

    fn pre_propose_admin(
        &self,
        ctx: &mut ObserverContext<'_>,
        _: &mut AdminRequest,
    ) -> Result<(), Error> {
        self.called.fetch_add(1, Ordering::SeqCst);
        ctx.bypass = self.bypass.load(Ordering::SeqCst);
        if self.return_err.load(Ordering::SeqCst) {
            return Err(Error { message: "error".to_string() });
        }
        Ok(())
    }

    fn pre_apply_admin(&self, ctx: &mut ObserverContext<'_>, _: u64, _: &AdminRequest) {
        self.called.fetch_add(2, Ordering::SeqCst);
        ctx.bypass = self.bypass.load(Ordering::SeqCst);
    }

    fn post_apply_admin(
        &self,
        ctx: &mut ObserverContext<'_>,
        _: u64,
        _: &RaftResponseHeader,
        _: &mut AdminResponse,
    ) {
        self.called.fetch_add(3, Ordering::SeqCst);
        ctx.bypass = self.bypass.load(Ordering::SeqCst);
    }
}

impl QueryObserver for TestCoprocessor {
    fn start(&self) {}

    fn stop(&self) {}

    fn pre_propose_query(
        &self,
        ctx: &mut ObserverContext<'_>,
        _: &mut Vec<Request>,
    ) -> Result<(), Error> {
        self.called.fetch_add(4, Ordering::SeqCst);
        ctx.bypass = self.bypass.load(Ordering::SeqCst);
        if self.return_err.load(Ordering::SeqCst) {
            return Err(Error { message: "error".to_string() });
        }
        Ok(())
    }

    fn pre_apply_query(&self, ctx: &mut ObserverContext<'_>, _: &[Request]) {
        self.called.fetch_add(5, Ordering::SeqCst);
        ctx.bypass = self.bypass.load(Ordering::SeqCst);
    }

    fn post_apply_query(
        &self,
        ctx: &mut ObserverContext<'_>,
        _: &RaftResponseHeader,
        _: &mut Vec<Response>,
    ) {
        self.called.fetch_add(6, Ordering::SeqCst);
        ctx.bypass = self.bypass.load(Ordering::SeqCst);
    }
}

impl RoleObserver for TestCoprocessor {
    fn start(&self) {}

    fn stop(&self) {}

    fn on_role_change(&self, ctx: &mut ObserverContext<'_>, _: StateRole) {
        self.called.fetch_add(7, Ordering::SeqCst);
        ctx.bypass = self.bypass.load(Ordering::SeqCst);
    }
}

impl RegionChangeObserver for TestCoprocessor {
    fn start(&self) {}

    fn stop(&self) {}

    fn on_region_changed(
        &self,
        ctx: &mut ObserverContext<'_>,
        _: RegionChangeEvent,
        _: StateRole,
    ) {
        self.called.fetch_add(8, Ordering::SeqCst);
        ctx.bypass = self.bypass.load(Ordering::SeqCst);
    }
}

impl ApplySnapshotObserver for TestCoprocessor {
    fn start(&self) {}

    fn stop(&self) {}

    fn pre_apply_plain_kvs(
        &self,
        ctx: &mut ObserverContext<'_>,
        _: CfName,
        _: &[(Vec<u8>, Vec<u8>)],
    ) {
        self.called.fetch_add(9, Ordering::SeqCst);
        ctx.bypass = self.bypass.load(Ordering::SeqCst);
    }

    fn pre_apply_sst(&self, ctx: &mut ObserverContext<'_>, _: CfName, _: &str) {
        self.called.fetch_add(10, Ordering::SeqCst);
        ctx.bypass = self.bypass.load(Ordering::SeqCst);
    }
}

impl CmdObserver for TestCoprocessor {
    fn start(&self) {}

    fn stop(&self) {}

    fn on_batch_executed(&self, _: &[CmdBatch]) {
        self.called.fetch_add(9, Ordering::SeqCst);
    }
}

fn assert_all(target: &[&Arc<AtomicUsize>], expect: &[usize]) {
    assert_eq!(target.len(), expect.len());
    for (c, e) in target.iter().zip(expect) {
        assert_eq!(c.load(Ordering::SeqCst), *e);
    }
}

fn set_all(target: &[&Arc<AtomicBool>], v: bool) {
    for t in target {
        t.store(v, Ordering::SeqCst);
    }
}

fn reset_all(target: &[&Arc<AtomicUsize>]) {
    for t in target {
        t.store(0, Ordering::SeqCst);
    }
}

#[test]
fn test_trigger_right_hook() {
    let mut host = CoprocessorHost::default();
    let ob = TestCoprocessor::default();
    host.registry.register_admin_observer(1, BoxAdminObserver { inner: Box::new(ob.clone()) });
    host.registry.register_query_observer(1, BoxQueryObserver { inner: Box::new(ob.clone()) });
    let snapshot = BoxApplySnapshotObserver { inner: Box::new(ob.clone()) };
    host.registry.register_apply_snapshot_observer(1, snapshot);
    host.registry.register_role_observer(1, BoxRoleObserver { inner: Box::new(ob.clone()) });
    let region_change = BoxRegionChangeObserver { inner: Box::new(ob.clone()) };
    host.registry.register_region_change_observer(1, region_change);
    host.registry.register_cmd_observer(1, BoxCmdObserver { inner: Box::new(ob.clone()) });
    let region = Region::default();
    let mut admin_req = RaftCmdRequest::default();
    admin_req.admin_request = Some(AdminRequest::default());
    host.pre_propose(&region, &mut admin_req).unwrap();
    assert_all(&[&ob.called], &[1]);
    host.pre_apply(&region, 0, &admin_req);
    assert_all(&[&ob.called], &[3]);
    let mut admin_resp = RaftCmdResponse::default();
    admin_resp.admin_response = Some(AdminResponse::default());
    admin_resp.header = Some(RaftResponseHeader::default());
    host.post_apply(&region, 0, &mut admin_resp);
    assert_all(&[&ob.called], &[6]);

    let mut query_req = RaftCmdRequest::default();
    query_req.requests = vec![Request::default()];
    host.pre_propose(&region, &mut query_req).unwrap();
    assert_all(&[&ob.called], &[10]);
    host.pre_apply(&region, 0, &query_req);
    assert_all(&[&ob.called], &[15]);
    let mut query_resp = admin_resp.clone();
    query_resp.admin_response = None;
    host.post_apply(&region, 0, &mut query_resp);
    assert_all(&[&ob.called], &[21]);

    host.on_role_change(&region, StateRole::Leader);
    assert_all(&[&ob.called], &[28]);

    host.on_region_changed(&region, RegionChangeEvent::Create, StateRole::Follower);
    assert_all(&[&ob.called], &[36]);

    host.on_cmd_executed(&[]);
    assert_all(&[&ob.called], &[45]);

    host.pre_apply_plain_kvs_from_snapshot(&region, "default", &[]);
    assert_all(&[&ob.called], &[45]);
    host.pre_apply_sst_from_snapshot(&region, "default", "");
    assert_all(&[&ob.called], &[55]);
}

#[test]
fn test_order() {
    let mut host = CoprocessorHost::default();

    let ob1 = TestCoprocessor::default();
    host.registry.register_admin_observer(3, BoxAdminObserver { inner: Box::new(ob1.clone()) });
    host.registry.register_query_observer(3, BoxQueryObserver { inner: Box::new(ob1.clone()) });
    let ob2 = TestCoprocessor::default();
    host.registry.register_admin_observer(2, BoxAdminObserver { inner: Box::new(ob2.clone()) });
    host.registry.register_query_observer(2, BoxQueryObserver { inner: Box::new(ob2.clone()) });

    let region = Region::default();
    let mut admin_req = RaftCmdRequest::default();
    admin_req.admin_request = Some(AdminRequest::default());
    let mut admin_resp = RaftCmdResponse::default();
    admin_resp.admin_response = Some(AdminResponse::default());
    let query_req = RaftCmdRequest::default();
    let query_resp = RaftCmdResponse::default();

    let cases = vec![(0, admin_req, admin_resp), (3, query_req, query_resp)];

    for (base_score, mut req, mut resp) in cases {
        set_all(&[&ob1.return_err, &ob2.return_err], false);
        reset_all(&[&ob1.called, &ob2.called]);
        set_all(&[&ob1.bypass, &ob2.bypass], true);

        host.pre_propose(&region, &mut req).unwrap();

        // less means more.
        assert_all(&[&ob1.called, &ob2.called], &[0, base_score + 1]);

        host.pre_apply(&region, 0, &req);
        assert_all(&[&ob1.called, &ob2.called], &[0, base_score * 2 + 3]);

        host.post_apply(&region, 0, &mut resp);
        assert_all(&[&ob1.called, &ob2.called], &[0, base_score * 3 + 6]);

        set_all(&[&ob2.bypass], false);
        reset_all(&[&ob2.called]);

        host.pre_propose(&region, &mut req).unwrap();

        assert_all(&[&ob1.called, &ob2.called], &[base_score + 1, base_score + 1]);

        reset_all(&[&ob1.called, &ob2.called]);

        // when return error, following coprocessor should not be run.
        set_all(&[&ob2.return_err], true);
        host.pre_propose(&region, &mut req).unwrap_err();
        assert_all(&[&ob1.called, &ob2.called], &[0, base_score + 1]);
    }
}
