use vstd::prelude::*;
use crate::text::{decimal, decimal_text};

verus! {

/// Where a supervised simulator process stands.
#[derive(Clone, Copy, Debug, PartialEq, Eq, Structural)]
pub enum NodeStatus {
    Stopped,
    /// A launch was requested; its outcome is not known yet.
    Starting,
    Running,
}

/// The simulator process could not be spawned.
#[derive(Clone, Copy, Debug, PartialEq, Eq, Structural)]
pub enum SpawnError {
    Failed,
}

/// What the caller must do to carry out a start request: terminate the process that
/// runs now (if `stop_previous`), then spawn the simulator with `args`.
pub struct Launch {
    pub stop_previous: bool,
    pub args: Vec<String>,
}

/// The state of one supervised simulator, bound to a fixed port.
pub struct AnvilNode {
    status: NodeStatus,
    port: u16,
    fork_url: Option<String>,
    fork_block: Option<u64>,
    pending_url: Option<String>,
    pending_block: Option<u64>,
}

pub struct NodeView {
    pub status: NodeStatus,
    pub port: u16,
    /// The upstream of the fork that runs, or ran last.
    pub fork_url: Option<Seq<char>>,
    pub fork_block: Option<u64>,
    /// The fork configuration of the launch in progress.
    pub pending_url: Option<Seq<char>>,
    pub pending_block: Option<u64>,
}

pub open spec fn opt_text(o: Option<String>) -> Option<Seq<char>> {
    match o {
        Some(s) => Some(s@),
        None => None,
    }
}

/// The arguments that bind the simulator to `port`.
pub open spec fn primary_args(port: u16) -> Seq<Seq<char>> {
    seq!["--port"@, decimal(port as nat)]
}

/// The arguments of a simulator on `port` that replays the state of `url`, as of
/// `block` when one is given.
pub open spec fn fork_args(port: u16, url: Seq<char>, block: Option<u64>) -> Seq<Seq<char>> {
    let base = primary_args(port) + seq!["--fork-url"@, url];
    match block {
        Some(b) => base + seq!["--fork-block-number"@, decimal(b as nat)],
        None => base,
    }
}

/// The state after `stop`: nothing runs, the last fork configuration is kept.
pub open spec fn stopped(v: NodeView) -> NodeView {
    NodeView { status: NodeStatus::Stopped, ..v }
}

impl View for AnvilNode {
    type V = NodeView;

    closed spec fn view(&self) -> NodeView {
        NodeView {
            status: self.status,
            port: self.port,
            fork_url: opt_text(self.fork_url),
            fork_block: self.fork_block,
            pending_url: opt_text(self.pending_url),
            pending_block: self.pending_block,
        }
    }
}

fn clone_opt(o: &Option<String>) -> (r: Option<String>)
    ensures
        opt_text(r) == opt_text(*o),
{
    match o {
        Some(s) => Some(s.clone()),
        None => None,
    }
}

fn text_args(port: u16) -> (r: Vec<String>)
    ensures
        r@.map_values(|a: String| a@) == primary_args(port),
{
    let mut args: Vec<String> = Vec::new();
    args.push("--port".to_owned());
    args.push(decimal_text(port as u64));
    assert(args@.map_values(|a: String| a@) =~= primary_args(port));
    args
}

impl AnvilNode {
    /// A stopped simulator for `port` that has never been forked.
    pub fn new(port: u16) -> (r: AnvilNode)
        ensures
            r@ == (NodeView {
                status: NodeStatus::Stopped,
                port,
                fork_url: None,
                fork_block: None,
                pending_url: None,
                pending_block: None,
            }),
    {
        AnvilNode {
            status: NodeStatus::Stopped,
            port,
            fork_url: None,
            fork_block: None,
            pending_url: None,
            pending_block: None,
        }
    }

    /// Requests a plain simulator on this node's port. A process that runs now is
    /// to be terminated first.
    pub fn start(&mut self) -> (r: Launch)
        ensures
            r.stop_previous == (old(self)@.status == NodeStatus::Running),
            r.args@.map_values(|a: String| a@) == primary_args(old(self)@.port),
            final(self)@ == (NodeView {
                status: NodeStatus::Starting,
                pending_url: None,
                pending_block: None,
                ..old(self)@
            }),
    {
        let stop_previous = self.status == NodeStatus::Running;
        self.status = NodeStatus::Starting;
        self.pending_url = None;
        self.pending_block = None;
        Launch { stop_previous, args: text_args(self.port) }
    }

    /// Requests a simulator that replays the state of `fork_url`, as of `fork_block`
    /// when given, else as of its latest state. A process that runs now is to be
    /// terminated first.
    pub fn start_fork(&mut self, fork_url: String, fork_block: Option<u64>) -> (r: Launch)
        ensures
            r.stop_previous == (old(self)@.status == NodeStatus::Running),
            r.args@.map_values(|a: String| a@) == fork_args(old(self)@.port, fork_url@, fork_block),
            final(self)@ == (NodeView {
                status: NodeStatus::Starting,
                pending_url: Some(fork_url@),
                pending_block: fork_block,
                ..old(self)@
            }),
    {
        let stop_previous = self.status == NodeStatus::Running;
        let mut args = text_args(self.port);
        let ghost base = args@.map_values(|a: String| a@);
        args.push("--fork-url".to_owned());
        args.push(fork_url.clone());
        assert(args@.map_values(|a: String| a@) =~= base + seq!["--fork-url"@, fork_url@]);
        if let Some(b) = fork_block {
            let ghost mid = args@.map_values(|a: String| a@);
            args.push("--fork-block-number".to_owned());
            args.push(decimal_text(b));
            assert(args@.map_values(|a: String| a@) =~= mid + seq!["--fork-block-number"@, decimal(b as nat)]);
        }
        self.status = NodeStatus::Starting;
        self.pending_url = Some(fork_url);
        self.pending_block = fork_block;
        Launch { stop_previous, args }
    }

    /// Records the outcome of the launch in progress. On success the node runs with
    /// the requested fork configuration (none for a plain start); on failure it is
    /// stopped and reports `SpawnError`, its last fork configuration kept.
    pub fn launched(&mut self, spawned: bool) -> (r: Result<(), SpawnError>)
        requires
            old(self)@.status == NodeStatus::Starting,
        ensures
            spawned ==> r is Ok && final(self)@ == (NodeView {
                status: NodeStatus::Running,
                fork_url: old(self)@.pending_url,
                fork_block: old(self)@.pending_block,
                ..old(self)@
            }),
            !spawned ==> r == Err::<(), SpawnError>(SpawnError::Failed) && final(self)@ == (NodeView {
                status: NodeStatus::Stopped,
                ..old(self)@
            }),
    {
        if spawned {
            self.status = NodeStatus::Running;
            self.fork_url = clone_opt(&self.pending_url);
            self.fork_block = self.pending_block;
            Ok(())
        } else {
            self.status = NodeStatus::Stopped;
            Err(SpawnError::Failed)
        }
    }

    /// Stops the node. Returns whether a process ran, which the caller must then
    /// terminate; on a node that runs nothing this changes nothing.
    pub fn stop(&mut self) -> (was_running: bool)
        ensures
            was_running == (old(self)@.status == NodeStatus::Running),
            final(self)@ == stopped(old(self)@),
    {
        let was_running = self.status == NodeStatus::Running;
        self.status = NodeStatus::Stopped;
        was_running
    }

    pub fn is_running(&self) -> (r: bool)
        ensures
            r == (self@.status == NodeStatus::Running),
    {
        self.status == NodeStatus::Running
    }

    pub fn status(&self) -> (r: NodeStatus)
        ensures
            r == self@.status,
    {
        self.status
    }

    pub fn port(&self) -> (r: u16)
        ensures
            r == self@.port,
    {
        self.port
    }

    /// The upstream and pinned block of the fork that runs, or ran last.
    pub fn fork_info(&self) -> (r: (Option<String>, Option<u64>))
        ensures
            opt_text(r.0) == self@.fork_url,
            r.1 == self@.fork_block,
    {
        (clone_opt(&self.fork_url), self.fork_block)
    }
}

/// Stopping twice leaves the node as stopping once does, and the second stop finds
/// nothing to terminate.
pub proof fn lemma_stop_idempotent(v: NodeView)
    ensures
        stopped(stopped(v)) == stopped(v),
        stopped(v).status != NodeStatus::Running,
{
}

} // verus!
