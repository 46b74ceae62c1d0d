//! The values that travel through the hooks.
//!
//! A host reads very little of them: whether a command carries an
//! administrative part, and what its plain requests and responses are. The
//! messages that it only hands on are kept in their encoded form, as bytes.
use vstd::prelude::*;

verus! {

/// Name of a column family.
pub type CfName = &'static str;

/// A region, in its encoded form.
#[derive(Clone, Debug, PartialEq, Eq)]
pub struct Region {
    pub encoded: Vec<u8>,
}

/// An administrative request, in its encoded form.
#[derive(Clone, Debug, PartialEq, Eq)]
pub struct AdminRequest {
    pub encoded: Vec<u8>,
}

/// A plain request, in its encoded form.
#[derive(Clone, Debug, PartialEq, Eq)]
pub struct Request {
    pub encoded: Vec<u8>,
}

/// An administrative response, in its encoded form.
#[derive(Clone, Debug, PartialEq, Eq)]
pub struct AdminResponse {
    pub encoded: Vec<u8>,
}

/// A plain response, in its encoded form.
#[derive(Clone, Debug, PartialEq, Eq)]
pub struct Response {
    pub encoded: Vec<u8>,
}

/// The header of a command's response, in its encoded form.
#[derive(Clone, Debug, PartialEq, Eq)]
pub struct RaftResponseHeader {
    pub encoded: Vec<u8>,
}

/// A command: an administrative request if there is one, else the plain
/// requests.
#[derive(Clone, Debug, PartialEq, Eq)]
pub struct RaftCmdRequest {
    pub requests: Vec<Request>,
    pub admin_request: Option<AdminRequest>,
}

/// The response to a command: an administrative response if there is one,
/// else the plain responses.
#[derive(Clone, Debug, PartialEq, Eq)]
pub struct RaftCmdResponse {
    pub header: Option<RaftResponseHeader>,
    pub responses: Vec<Response>,
    pub admin_response: Option<AdminResponse>,
}

/// An executed command with its response.
#[derive(Clone, Debug, PartialEq, Eq)]
pub struct Cmd {
    pub index: u64,
    pub request: RaftCmdRequest,
    pub response: RaftCmdResponse,
}

/// The commands executed for one region.
#[derive(Clone, Debug, PartialEq, Eq)]
pub struct CmdBatch {
    pub region_id: u64,
    pub cmds: Vec<Cmd>,
}

/// The role of a peer in its group.
#[derive(Clone, Copy, Debug, PartialEq, Eq, Structural)]
pub enum StateRole {
    Follower,
    Candidate,
    Leader,
    PreCandidate,
}

/// What happened to a region.
#[derive(Clone, Copy, Debug, PartialEq, Eq, Structural)]
pub enum RegionChangeEvent {
    Create,
    Update,
    Destroy,
}

/// How a split check finds its keys.
#[derive(Clone, Copy, Debug, PartialEq, Eq, Structural)]
pub enum CheckPolicy {
    Scan,
    Approximate,
}

/// The storage that split checkers scan, named by its path.
#[derive(Clone, Debug, PartialEq, Eq)]
pub struct DB {
    pub path: String,
}

/// The settings that split checkers go by.
#[derive(Clone, Debug, PartialEq, Eq)]
pub struct Config {
    pub split_region_on_table: bool,
    pub batch_split_limit: u64,
    pub region_max_size: u64,
    pub region_split_size: u64,
    pub region_max_keys: u64,
    pub region_split_keys: u64,
}

/// A checker that takes part in a split check.
#[derive(Clone, Debug, PartialEq, Eq)]
pub struct SplitChecker {
    pub name: String,
    pub policy: CheckPolicy,
}

/// The checkers that take part in one split check.
#[derive(Clone, Debug, PartialEq, Eq)]
pub struct SplitCheckerHost<'a> {
    pub auto_split: bool,
    pub cfg: &'a Config,
    pub checkers: Vec<SplitChecker>,
}

impl<'a> SplitCheckerHost<'a> {
    /// A split check without checkers.
    pub fn new(auto_split: bool, cfg: &'a Config) -> (host: SplitCheckerHost<'a>)
        ensures
            host.auto_split == auto_split,
            host.cfg == cfg,
            host.checkers@ == Seq::<SplitChecker>::empty(),
    {
        SplitCheckerHost { auto_split, cfg, checkers: Vec::new() }
    }
}

impl Default for Region {
    fn default() -> (r: Self)
        ensures
            r.encoded@ == Seq::<u8>::empty(),
    {
        Region { encoded: Vec::new() }
    }
}

impl Default for AdminRequest {
    fn default() -> (r: Self)
        ensures
            r.encoded@ == Seq::<u8>::empty(),
    {
        AdminRequest { encoded: Vec::new() }
    }
}

impl Default for Request {
    fn default() -> (r: Self)
        ensures
            r.encoded@ == Seq::<u8>::empty(),
    {
        Request { encoded: Vec::new() }
    }
}

impl Default for AdminResponse {
    fn default() -> (r: Self)
        ensures
            r.encoded@ == Seq::<u8>::empty(),
    {
        AdminResponse { encoded: Vec::new() }
    }
}

impl Default for Response {
    fn default() -> (r: Self)
        ensures
            r.encoded@ == Seq::<u8>::empty(),
    {
        Response { encoded: Vec::new() }
    }
}

impl Default for RaftResponseHeader {
    fn default() -> (r: Self)
        ensures
            r.encoded@ == Seq::<u8>::empty(),
    {
        RaftResponseHeader { encoded: Vec::new() }
    }
}

impl Default for RaftCmdRequest {
    fn default() -> (r: Self)
        ensures
            r.requests@ == Seq::<Request>::empty(),
            r.admin_request is None,
    {
        RaftCmdRequest { requests: Vec::new(), admin_request: None }
    }
}

impl Default for RaftCmdResponse {
    fn default() -> (r: Self)
        ensures
            r.header is None,
            r.responses@ == Seq::<Response>::empty(),
            r.admin_response is None,
    {
        RaftCmdResponse { header: None, responses: Vec::new(), admin_response: None }
    }
}

} // verus!
