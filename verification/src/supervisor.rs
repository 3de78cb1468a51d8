//! The node process supervisor: the map from node name to its tracked state,
//! and the decision logic of every lifecycle operation.  The caller performs
//! the process and file work each decision calls for (spawning, killing,
//! probing ports, persisting logs) and reports the outcomes back; everything
//! the supervisor decides from those plain facts is verified here.

use vstd::prelude::*;

use crate::ansi::{strip_ansi_escapes, strip_spec};
use crate::errors::AppError;
use crate::logbuf::{trim_spec, LogBuffer, NL};
use crate::strutil::str_eq;
use crate::types::NodeConfig;

verus! {

use vstd::string::StringExecFns;
use vstd::utf8::encode_utf8;

/// The supervisor's record of one running node: the identifier of the OS
/// process, whether the stdin channel is open, and the in-memory output
/// buffer served to `get_node_output`.
pub struct RuntimeHandle {
    pub pid: u32,
    pub stdin_open: bool,
    pub output: String,
}

/// One tracked node: its name, its configured ports, its runtime handle while
/// it runs, and its log.
pub struct NodeEntry {
    pub name: String,
    pub config: NodeConfig,
    pub handle: Option<RuntimeHandle>,
    pub log: LogBuffer,
}

/// The supervisor state: one entry per tracked node name.
pub struct Supervisor {
    entries: Vec<NodeEntry>,
}

/// Number of entries named `name` that hold a runtime handle.
pub open spec fn count_running(s: Seq<NodeEntry>, name: Seq<char>) -> int
    decreases s.len(),
{
    if s.len() == 0 {
        0
    } else {
        (if s[0].name@ == name && s[0].handle is Some {
            1int
        } else {
            0int
        }) + count_running(s.skip(1), name)
    }
}

proof fn lemma_count_running_absent(s: Seq<NodeEntry>, name: Seq<char>)
    requires
        forall|j: int| 0 <= j < s.len() ==> s[j].name@ != name,
    ensures
        count_running(s, name) == 0,
    decreases s.len(),
{
    if s.len() > 0 {
        assert(forall|j: int| 0 <= j < s.len() - 1 ==> s.skip(1)[j] == s[j + 1]);
        lemma_count_running_absent(s.skip(1), name);
    }
}

proof fn lemma_count_running_seq(s: Seq<NodeEntry>, name: Seq<char>)
    requires
        forall|i: int, j: int| 0 <= i < j < s.len() ==> s[i].name@ != s[j].name@,
    ensures
        count_running(s, name) == if exists|i: int|
            0 <= i < s.len() && s[i].name@ == name && s[i].handle is Some {
            1int
        } else {
            0int
        },
    decreases s.len(),
{
    if s.len() > 0 {
        assert(forall|j: int| 0 <= j < s.len() - 1 ==> s.skip(1)[j] == s[j + 1]);
        if s[0].name@ == name {
            lemma_count_running_absent(s.skip(1), name);
            if s[0].handle is Some {
                assert(0 <= 0 < s.len() && s[0].name@ == name && s[0].handle is Some);
            } else {
                assert forall|i: int|
                    0 <= i < s.len() implies !(s[i].name@ == name && s[i].handle
                    is Some) by {
                    if i > 0 {
                        assert(s[i].name@ != s[0].name@);
                    }
                }
            }
        } else {
            lemma_count_running_seq(s.skip(1), name);
            if exists|i: int|
                0 <= i < s.len() && s[i].name@ == name && s[i].handle is Some {
                let i = choose|i: int|
                    0 <= i < s.len() && s[i].name@ == name && s[i].handle is Some;
                assert(i > 0);
                assert(s.skip(1)[i - 1] == s[i]);
            } else {
                assert(forall|i: int|
                    0 <= i < s.len() - 1 ==> !(s.skip(1)[i].name@ == name && s.skip(
                        1,
                    )[i].handle is Some));
            }
        }
    }
}

impl Supervisor {
    /// The tracked entries, in registration order.
    pub closed spec fn entries_seq(&self) -> Seq<NodeEntry> {
        self.entries@
    }

    /// Each name is tracked at most once.
    pub open spec fn wf(&self) -> bool {
        forall|i: int, j: int|
            0 <= i < j < self.entries_seq().len() ==> self.entries_seq()[i].name@
                != self.entries_seq()[j].name@
    }

    /// A node of this name is tracked.
    pub open spec fn has_node(&self, name: Seq<char>) -> bool {
        exists|i: int|
            0 <= i < self.entries_seq().len() && self.entries_seq()[i].name@ == name
    }

    /// A node of this name is tracked and holds a runtime handle.
    pub open spec fn running(&self, name: Seq<char>) -> bool {
        exists|i: int|
            0 <= i < self.entries_seq().len() && self.entries_seq()[i].name@ == name
                && self.entries_seq()[i].handle is Some
    }

    /// A node of this name is running with its stdin channel open.
    pub open spec fn stdin_open(&self, name: Seq<char>) -> bool {
        exists|i: int|
            0 <= i < self.entries_seq().len() && self.entries_seq()[i].name@ == name
                && (self.entries_seq()[i].handle matches Some(h) && h.stdin_open)
    }

    /// A well-formed supervisor tracks at most one runtime handle per name:
    /// exactly one while the node runs, none otherwise.
    pub proof fn lemma_running_handle_unique(&self, name: Seq<char>)
        requires
            self.wf(),
        ensures
            count_running(self.entries_seq(), name) == if self.running(name) {
                1int
            } else {
                0int
            },
    {
        lemma_count_running_seq(self.entries_seq(), name);
    }

    /// An empty supervisor, as the application starts with.
    pub fn new() -> (r: Self)
        ensures
            r.wf(),
            r.entries_seq() == Seq::<NodeEntry>::empty(),
    {
        Supervisor { entries: Vec::new() }
    }

    /// Index of the entry named `name`.
    fn find_entry(&self, name: &str) -> (r: Option<usize>)
        ensures
            match r {
                Some(i) => i < self.entries_seq().len()
                    && self.entries_seq()[i as int].name@ == name@,
                None => !self.has_node(name@),
            },
    {
        let n = self.entries.len();
        let mut i: usize = 0;
        while i < n
            invariant
                n == self.entries.len(),
                i <= n,
                forall|j: int| 0 <= j < i ==> self.entries@[j].name@ != name@,
            decreases n - i,
        {
            if str_eq(self.entries[i].name.as_str(), name) {
                return Some(i);
            }
            i = i + 1;
        }
        None
    }

    /// Tracks a freshly initialized node, not running, with its log.
    /// Refused when the name is already tracked.
    pub fn register_node(&mut self, name: String, config: NodeConfig, log: LogBuffer)
        -> (r: Result<(), AppError>)
        requires
            old(self).wf(),
        ensures
            final(self).wf(),
            r is Ok <==> !old(self).has_node(name@),
            r is Err ==> *final(self) == *old(self) && (r matches Err(e) && e
                is InvalidInput),
            r is Ok ==> {
                &&& final(self).entries_seq().len() == old(self).entries_seq().len()
                    + 1
                &&& forall|j: int|
                    0 <= j < old(self).entries_seq().len() ==> final(self).entries_seq()[j] == old(self).entries_seq()[j]
                &&& final(self).entries_seq().last().name@ == name@
                &&& final(self).entries_seq().last().config == config
                &&& final(self).entries_seq().last().handle is None
                &&& final(self).entries_seq().last().log == log
            },
    {
        if self.find_entry(name.as_str()).is_some() {
            return Err(
                AppError::InvalidInput(
                    String::from_str("Node already exists: ").concat(name.as_str()),
                ),
            );
        }
        let ghost before = self.entries@;
        self.entries.push(NodeEntry { name, config, handle: None, log });
        proof {
            let e = self.entries@.last();
            assert(self.entries@ =~= before.push(e));
            assert forall|i: int, j: int|
                0 <= i < j < self.entries@.len() implies self.entries@[i].name@
                != self.entries@[j].name@ by {
                if j < before.len() {
                } else {
                    assert(self.entries@[j] == e);
                    assert(!old(self).has_node(e.name@));
                }
            }
        }
        Ok(())
    }

    /// The configured ports of a tracked node.
    pub fn node_config(&self, name: &str) -> (r: Result<NodeConfig, AppError>)
        ensures
            match r {
                Ok(c) => exists|j: int|
                    0 <= j < self.entries_seq().len()
                        && self.entries_seq()[j].name@ == name@
                        && self.entries_seq()[j].config == c,
                Err(e) => !self.has_node(name@) && e is InvalidInput,
            },
    {
        match self.find_entry(name) {
            Some(i) => Ok(self.entries[i].config),
            None => Err(
                AppError::InvalidInput(
                    String::from_str("Node not found: ").concat(name),
                ),
            ),
        }
    }

    /// Replaces the configured ports of a tracked node after its
    /// configuration file was rewritten.
    pub fn set_config(&mut self, name: &str, config: NodeConfig) -> (r: Result<
        (),
        AppError,
    >)
        requires
            old(self).wf(),
        ensures
            final(self).wf(),
            r is Ok <==> old(self).has_node(name@),
            r is Err ==> *final(self) == *old(self) && (r matches Err(e) && e
                is InvalidInput),
            r is Ok ==> {
                &&& final(self).entries_seq().len() == old(self).entries_seq().len()
                &&& forall|j: int|
                    0 <= j < old(self).entries_seq().len() ==> if old(self).entries_seq()[j].name@ == name@ {
                        &&& final(self).entries_seq()[j].name == old(self).entries_seq()[j].name
                        &&& final(self).entries_seq()[j].config == config
                        &&& final(self).entries_seq()[j].handle == old(self).entries_seq()[j].handle
                        &&& final(self).entries_seq()[j].log == old(self).entries_seq()[j].log
                    } else {
                        final(self).entries_seq()[j] == old(self).entries_seq()[j]
                    }
            },
    {
        let found = self.find_entry(name);
        match found {
            Some(i) => {
                let ghost before = self.entries@;
                let mut e = self.entries.remove(i);
                e.config = config;
                self.entries.insert(i, e);
                proof {
                    assert(self.entries@ =~= before.update(
                        i as int,
                        self.entries@[i as int],
                    ));
                    assert forall|i1: int, j1: int|
                        0 <= i1 < j1 < self.entries@.len() implies self.entries@[
                        i1].name@ != self.entries@[j1].name@ by {
                        assert(self.entries@[i1].name@ == before[i1].name@);
                        assert(self.entries@[j1].name@ == before[j1].name@);
                    }
                    assert forall|j: int|
                        0 <= j < before.len() && before[j].name@ != name@ implies self
                        .entries@[j] == before[j] by {}
                }
                Ok(())
            },
            None => Err(
                AppError::InvalidInput(
                    String::from_str("Node not found: ").concat(name),
                ),
            ),
        }
    }
}

/// A log record of one line sent to a node's stdin.
pub open spec fn stdin_record_spec(input: Seq<char>) -> Seq<char> {
    "STDIN: "@ + input
}

/// Builds the `STDIN:`-prefixed record logged before a line is forwarded.
pub fn stdin_record(input: &str) -> (r: String)
    ensures
        r@ == stdin_record_spec(input@),
{
    String::from_str("STDIN: ").concat(input)
}

/// The timestamped record appended to a node's log when it is stopped.
pub open spec fn stop_record_spec(ts: Seq<char>, name: Seq<char>) -> Seq<char> {
    ts + " Node '"@ + name + "' has been stopped successfully."@
}

/// Relies on chrono::Local::now and its format method: the current local
/// time rendered for log records.  The result depends on the clock, so
/// nothing is promised of the text.
#[verifier::external_body]
fn now_timestamp() -> (r: String) {
    chrono::Local::now().format("%Y-%m-%dT%H:%M:%S.%6fZ").to_string()
}

/// Builds the stop record for a node.
pub fn stop_record(ts: &str, name: &str) -> (r: String)
    ensures
        r@ == stop_record_spec(ts@, name@),
{
    let r = String::from_str(ts).concat(" Node '").concat(name).concat(
        "' has been stopped successfully.",
    );
    proof {
        assert(r@ =~= stop_record_spec(ts@, name@));
    }
    r
}

/// The arguments of the external binary's run subcommand.
pub open spec fn run_args_spec(name: Seq<char>, home: Seq<char>) -> Seq<Seq<char>> {
    seq!["--node-name"@, name, "--home"@, home, "run"@]
}

/// Builds the run subcommand's argument list.
pub fn run_command_args(node_name: &str, home: &str) -> (r: Vec<String>)
    ensures
        crate::address::views_of(r@) == run_args_spec(node_name@, home@),
{
    let mut r: Vec<String> = Vec::new();
    r.push(String::from_str("--node-name"));
    r.push(String::from_str(node_name));
    r.push(String::from_str("--home"));
    r.push(String::from_str(home));
    r.push(String::from_str("run"));
    proof {
        assert(crate::address::views_of(r@) =~= run_args_spec(node_name@, home@));
    }
    r
}

/// The arguments of the external binary's init subcommand.
pub open spec fn init_args_spec(
    name: Seq<char>,
    home: Seq<char>,
    server_port: u16,
    swarm_port: u16,
) -> Seq<Seq<char>> {
    seq![
        "--node-name"@,
        name,
        "--home"@,
        home,
        "init"@,
        "--server-port"@,
        crate::strutil::dec_rep(server_port as int),
        "--swarm-port"@,
        crate::strutil::dec_rep(swarm_port as int),
    ]
}

/// Builds the init subcommand's argument list.
pub fn init_command_args(node_name: &str, home: &str, server_port: u16, swarm_port: u16)
    -> (r: Vec<String>)
    ensures
        crate::address::views_of(r@) == init_args_spec(
            node_name@,
            home@,
            server_port,
            swarm_port,
        ),
{
    let mut r: Vec<String> = Vec::new();
    r.push(String::from_str("--node-name"));
    r.push(String::from_str(node_name));
    r.push(String::from_str("--home"));
    r.push(String::from_str(home));
    r.push(String::from_str("init"));
    r.push(String::from_str("--server-port"));
    r.push(crate::strutil::u16_to_string(server_port));
    r.push(String::from_str("--swarm-port"));
    r.push(crate::strutil::u16_to_string(swarm_port));
    proof {
        assert(crate::address::views_of(r@) =~= init_args_spec(
            node_name@,
            home@,
            server_port,
            swarm_port,
        ));
    }
    r
}

/// The outcome of the init subcommand: success on exit code zero; otherwise a
/// process failure carrying the ANSI-stripped stderr text.
pub fn create_outcome(exit_ok: bool, stderr: &str) -> (r: Result<(), AppError>)
    ensures
        r is Ok <==> exit_ok,
        r matches Err(e) ==> e matches AppError::Process(m) && m@ == strip_spec(
            stderr@,
        ),
{
    if exit_ok {
        Ok(())
    } else {
        Err(AppError::Process(strip_ansi_escapes(stderr)))
    }
}

/// Rejects a start when either configured port is already bound.
pub fn check_ports_availability(
    config: &NodeConfig,
    server_in_use: bool,
    swarm_in_use: bool,
) -> (r: Result<(), AppError>)
    ensures
        r is Ok <==> !server_in_use && !swarm_in_use,
        r matches Err(e) ==> e is Custom,
{
    if server_in_use || swarm_in_use {
        let msg = String::from_str("Port ").concat(
            crate::strutil::u16_to_string(config.server_port).as_str(),
        ).concat(" or ").concat(
            crate::strutil::u16_to_string(config.swarm_port).as_str(),
        ).concat(" is already in use");
        Err(AppError::Custom(msg))
    } else {
        Ok(())
    }
}

/// What `stop` should do: nothing when the OS shows no such process; kill the
/// tracked process when a handle exists; otherwise kill by command-line
/// pattern, the fallback for processes orphaned by an application restart.
#[derive(Debug, Clone, Copy, PartialEq, Eq, Structural)]
pub enum StopDecision {
    NotRunning,
    KillTracked(u32),
    KillByPattern,
}

/// Entries other than `name` are untouched, and the set of tracked names is
/// unchanged.
pub open spec fn frame_except(pre: Seq<NodeEntry>, post: Seq<NodeEntry>, name: Seq<char>) -> bool {
    &&& post.len() == pre.len()
    &&& forall|j: int| 0 <= j < pre.len() ==> post[j].name == pre[j].name
    &&& forall|j: int| 0 <= j < pre.len() && pre[j].name@ != name ==> post[j] == pre[j]
}

/// The entry after a successful start: a fresh handle with the spawned
/// process id, an open stdin channel, and an empty output buffer.
pub open spec fn entry_started(pre: NodeEntry, post: NodeEntry, pid: u32) -> bool {
    &&& post.name == pre.name
    &&& post.config == pre.config
    &&& post.log == pre.log
    &&& post.handle matches Some(h) && h.pid == pid && h.stdin_open && h.output@
        == Seq::<char>::empty()
}

/// The entry after a stop: no handle (which also discards the output
/// buffer), and the timestamped stop record appended to the log.
pub open spec fn entry_stopped(pre: NodeEntry, post: NodeEntry, ts: Seq<char>) -> bool {
    &&& post.name == pre.name
    &&& post.config == pre.config
    &&& post.handle is None
    &&& post.log.content() == trim_spec(
        pre.log.content() + encode_utf8(stop_record_spec(ts, pre.name@)) + seq![NL],
    )
}

/// The entry after queuing one stdin line: unchanged but for the `STDIN:`
/// record appended to the log.
pub open spec fn entry_logged_stdin(pre: NodeEntry, post: NodeEntry, input: Seq<char>) -> bool {
    &&& post.name == pre.name
    &&& post.config == pre.config
    &&& post.handle == pre.handle
    &&& post.log.content() == trim_spec(
        pre.log.content() + encode_utf8(stdin_record_spec(input)) + seq![NL],
    )
}

/// The entry after one line of process output: the cleaned line goes to the
/// output buffer (newline-terminated) and to the log.
pub open spec fn entry_output_appended(pre: NodeEntry, post: NodeEntry, cleaned: Seq<char>) -> bool {
    &&& post.name == pre.name
    &&& post.config == pre.config
    &&& pre.handle matches Some(h1) && post.handle matches Some(h2) && h2.pid
        == h1.pid && h2.stdin_open == h1.stdin_open && h2.output@ == h1.output@
        + cleaned + seq!['\n']
    &&& post.log.content() == trim_spec(
        pre.log.content() + encode_utf8(cleaned) + seq![NL],
    )
}

impl Supervisor {
    proof fn lemma_unique_name_index(&self, i: int, name: Seq<char>)
        requires
            self.wf(),
            0 <= i < self.entries_seq().len(),
            self.entries_seq()[i].name@ == name,
        ensures
            forall|j: int|
                0 <= j < self.entries_seq().len() && self.entries_seq()[j].name@
                    == name ==> j == i,
    {
    }

    /// Checks the preconditions of a start and hands back the run
    /// subcommand's arguments: the node must be tracked, not already running
    /// (a duplicate start is rejected, not merged), and both of its
    /// configured ports must be free.
    pub fn plan_start(
        &self,
        name: &str,
        home: &str,
        server_in_use: bool,
        swarm_in_use: bool,
    ) -> (r: Result<Vec<String>, AppError>)
        requires
            self.wf(),
        ensures
            r is Ok <==> self.has_node(name@) && !self.running(name@) && !server_in_use
                && !swarm_in_use,
            r matches Ok(args) ==> crate::address::views_of(args@) == run_args_spec(
                name@,
                home@,
            ),
            r matches Err(e) ==> {
                &&& !self.has_node(name@) ==> e is InvalidInput
                &&& self.has_node(name@) && self.running(name@) ==> e is StateConflict
                &&& self.has_node(name@) && !self.running(name@) ==> e is Custom
            },
    {
        let i = match self.find_entry(name) {
            Some(i) => i,
            None => {
                return Err(
                    AppError::InvalidInput(
                        String::from_str("Node not found: ").concat(name),
                    ),
                );
            },
        };
        if self.entries[i].handle.is_some() {
            return Err(
                AppError::StateConflict(
                    String::from_str("Node is already running: ").concat(name),
                ),
            );
        }
        proof {
            self.lemma_unique_name_index(i as int, name@);
        }
        match check_ports_availability(&self.entries[i].config, server_in_use, swarm_in_use) {
            Ok(_) => Ok(run_command_args(name, home)),
            Err(e) => Err(e),
        }
    }

    /// Records the handle of a process spawned for this node.  Rejected when
    /// the node is unknown or already running; on rejection the supervisor is
    /// unchanged, so a running node keeps its one handle.
    pub fn commit_start(&mut self, name: &str, pid: u32) -> (r: Result<(), AppError>)
        requires
            old(self).wf(),
        ensures
            final(self).wf(),
            r is Ok <==> old(self).has_node(name@) && !old(self).running(name@),
            r matches Err(e) ==> *final(self) == *old(self) && {
                &&& !old(self).has_node(name@) ==> e is InvalidInput
                &&& old(self).has_node(name@) && old(self).running(name@) ==> e
                    is StateConflict
            },
            r is Ok ==> frame_except(
                old(self).entries_seq(),
                final(self).entries_seq(),
                name@,
            ) && forall|j: int|
                0 <= j < old(self).entries_seq().len() && old(self).entries_seq()[
                j].name@ == name@ ==> entry_started(
                    old(self).entries_seq()[j],
                    final(self).entries_seq()[j],
                    pid,
                ),
    {
        let i = match self.find_entry(name) {
            Some(i) => i,
            None => {
                return Err(
                    AppError::InvalidInput(
                        String::from_str("Node not found: ").concat(name),
                    ),
                );
            },
        };
        if self.entries[i].handle.is_some() {
            return Err(
                AppError::StateConflict(
                    String::from_str("Node is already running: ").concat(name),
                ),
            );
        }
        proof {
            self.lemma_unique_name_index(i as int, name@);
        }
        let ghost before = self.entries@;
        let mut e = self.entries.remove(i);
        e.handle = Some(
            RuntimeHandle { pid, stdin_open: true, output: String::new() },
        );
        self.entries.insert(i, e);
        proof {
            self.lemma_frame_after_update(before, i as int, name@);
        }
        Ok(())
    }

    proof fn lemma_frame_after_update(&self, before: Seq<NodeEntry>, i: int, name: Seq<char>)
        requires
            0 <= i < before.len(),
            self.entries_seq().len() == before.len(),
            forall|j: int| 0 <= j < before.len() && j != i ==> self.entries_seq()[j]
                == before[j],
            self.entries_seq()[i].name == before[i].name,
            before[i].name@ == name,
            forall|i1: int, j1: int|
                0 <= i1 < j1 < before.len() ==> before[i1].name@ != before[j1].name@,
        ensures
            self.wf(),
            frame_except(before, self.entries_seq(), name),
            forall|j: int|
                0 <= j < before.len() && before[j].name@ == name ==> j == i,
    {
        assert forall|i1: int, j1: int|
            0 <= i1 < j1 < self.entries_seq().len() implies self.entries_seq()[
        i1].name@ != self.entries_seq()[j1].name@ by {
            assert(self.entries_seq()[i1].name@ == before[i1].name@);
            assert(self.entries_seq()[j1].name@ == before[j1].name@);
        }
        assert forall|j: int|
            0 <= j < before.len() implies self.entries_seq()[j].name == before[j].name
            by {}
        assert forall|j: int|
            0 <= j < before.len() && before[j].name@ == name implies j == i by {
            if j != i {
                assert(before[j].name@ != before[i].name@);
            }
        }
    }

    /// Queues one line for a node's stdin: the `STDIN:`-prefixed record is
    /// logged, and the caller forwards the raw line to the process.  Fails
    /// with a not-running conflict when no open stdin channel exists.
    pub fn send_input_to_node(&mut self, name: &str, input: &str) -> (r: Result<
        (),
        AppError,
    >)
        requires
            old(self).wf(),
        ensures
            final(self).wf(),
            r is Ok <==> old(self).stdin_open(name@),
            r matches Err(e) ==> *final(self) == *old(self) && {
                &&& !old(self).has_node(name@) ==> e is InvalidInput
                &&& old(self).has_node(name@) && !old(self).stdin_open(name@) ==> e
                    is StateConflict
            },
            r is Ok ==> frame_except(
                old(self).entries_seq(),
                final(self).entries_seq(),
                name@,
            ) && forall|j: int|
                0 <= j < old(self).entries_seq().len() && old(self).entries_seq()[
                j].name@ == name@ ==> entry_logged_stdin(
                    old(self).entries_seq()[j],
                    final(self).entries_seq()[j],
                    input@,
                ),
    {
        let i = match self.find_entry(name) {
            Some(i) => i,
            None => {
                return Err(
                    AppError::InvalidInput(
                        String::from_str("Node not found: ").concat(name),
                    ),
                );
            },
        };
        proof {
            self.lemma_unique_name_index(i as int, name@);
        }
        let has_stdin = match &self.entries[i].handle {
            Some(h) => h.stdin_open,
            None => false,
        };
        if !has_stdin {
            return Err(
                AppError::StateConflict(
                    String::from_str("Node is not running: ").concat(name),
                ),
            );
        }
        let record = stdin_record(input);
        let ghost before = self.entries@;
        let mut e = self.entries.remove(i);
        e.log.append_record(record.as_str());
        self.entries.insert(i, e);
        proof {
            self.lemma_frame_after_update(before, i as int, name@);
        }
        Ok(())
    }

    /// A snapshot of a node's in-memory output buffer; empty while the node
    /// is stopped.
    pub fn get_node_output(&self, name: &str) -> (r: Result<String, AppError>)
        requires
            self.wf(),
        ensures
            match r {
                Ok(o) => self.has_node(name@) && forall|j: int|
                    0 <= j < self.entries_seq().len() && self.entries_seq()[j].name@
                        == name@ ==> (match self.entries_seq()[j].handle {
                        Some(h) => o@ == h.output@,
                        None => o@ == Seq::<char>::empty(),
                    }),
                Err(e) => !self.has_node(name@) && e is InvalidInput,
            },
    {
        let i = match self.find_entry(name) {
            Some(i) => i,
            None => {
                return Err(
                    AppError::InvalidInput(
                        String::from_str("Node not found: ").concat(name),
                    ),
                );
            },
        };
        proof {
            self.lemma_unique_name_index(i as int, name@);
        }
        match &self.entries[i].handle {
            Some(h) => Ok(h.output.clone()),
            None => Ok(String::new()),
        }
    }

    /// Takes one raw line of process output: strips ANSI escapes, appends it
    /// to the node's output buffer and log, and returns the cleaned line for
    /// the caller to publish to subscribers.
    pub fn append_output(&mut self, name: &str, raw: &str) -> (r: Result<
        String,
        AppError,
    >)
        requires
            old(self).wf(),
        ensures
            final(self).wf(),
            r is Ok <==> old(self).running(name@),
            r matches Err(e) ==> *final(self) == *old(self) && {
                &&& !old(self).has_node(name@) ==> e is InvalidInput
                &&& old(self).has_node(name@) && !old(self).running(name@) ==> e
                    is StateConflict
            },
            r matches Ok(c) ==> c@ == strip_spec(raw@) && frame_except(
                old(self).entries_seq(),
                final(self).entries_seq(),
                name@,
            ) && forall|j: int|
                0 <= j < old(self).entries_seq().len() && old(self).entries_seq()[
                j].name@ == name@ ==> entry_output_appended(
                    old(self).entries_seq()[j],
                    final(self).entries_seq()[j],
                    strip_spec(raw@),
                ),
    {
        let i = match self.find_entry(name) {
            Some(i) => i,
            None => {
                return Err(
                    AppError::InvalidInput(
                        String::from_str("Node not found: ").concat(name),
                    ),
                );
            },
        };
        proof {
            self.lemma_unique_name_index(i as int, name@);
        }
        if self.entries[i].handle.is_none() {
            return Err(
                AppError::StateConflict(
                    String::from_str("Node is not running: ").concat(name),
                ),
            );
        }
        let cleaned = strip_ansi_escapes(raw);
        let ghost before = self.entries@;
        let mut e = self.entries.remove(i);
        if let Some(h) = &mut e.handle {
            h.output.append(cleaned.as_str());
            h.output.append("\n");
            proof {
                reveal_strlit("\n");
            }
        }
        e.log.append_record(cleaned.as_str());
        self.entries.insert(i, e);
        proof {
            self.lemma_frame_after_update(before, i as int, name@);
            assert(self.entries_seq()[i as int].handle matches Some(h2) && h2.output@
                =~= before[i as int].handle->Some_0.output@ + cleaned@ + seq!['\n']);
        }
        Ok(cleaned)
    }

    /// Decides how to stop a node.  When the OS shows no matching process the
    /// stop is a no-op; a tracked handle is killed directly; otherwise the
    /// process is killed by command-line pattern.
    pub fn plan_stop(&self, name: &str, os_running: bool) -> (r: StopDecision)
        requires
            self.wf(),
        ensures
            !os_running ==> r == StopDecision::NotRunning,
            os_running && !self.running(name@) ==> r == StopDecision::KillByPattern,
            os_running && self.running(name@) ==> (r matches StopDecision::KillTracked(
                p,
            ) && forall|j: int|
                0 <= j < self.entries_seq().len() && self.entries_seq()[j].name@
                    == name@ ==> (self.entries_seq()[j].handle matches Some(h)
                    && h.pid == p)),
    {
        if !os_running {
            return StopDecision::NotRunning;
        }
        let i = match self.find_entry(name) {
            Some(i) => i,
            None => {
                return StopDecision::KillByPattern;
            },
        };
        proof {
            self.lemma_unique_name_index(i as int, name@);
        }
        match &self.entries[i].handle {
            Some(h) => StopDecision::KillTracked(h.pid),
            None => StopDecision::KillByPattern,
        }
    }

    /// Clears a node's handle after its process was terminated, discarding
    /// the output buffer, and appends a stop record carrying the returned
    /// timestamp to its log.  Unknown names are left untouched, as when only
    /// an orphaned process was killed.
    pub fn finish_stop(&mut self, name: &str) -> (ts: String)
        requires
            old(self).wf(),
        ensures
            final(self).wf(),
            !old(self).has_node(name@) ==> *final(self) == *old(self),
            old(self).has_node(name@) ==> frame_except(
                old(self).entries_seq(),
                final(self).entries_seq(),
                name@,
            ) && forall|j: int|
                0 <= j < old(self).entries_seq().len() && old(self).entries_seq()[
                j].name@ == name@ ==> entry_stopped(
                    old(self).entries_seq()[j],
                    final(self).entries_seq()[j],
                    ts@,
                ),
    {
        let ts = now_timestamp();
        let i = match self.find_entry(name) {
            Some(i) => i,
            None => {
                return ts;
            },
        };
        proof {
            self.lemma_unique_name_index(i as int, name@);
        }
        let record = stop_record(ts.as_str(), name);
        let ghost before = self.entries@;
        let mut e = self.entries.remove(i);
        e.handle = None;
        e.log.append_record(record.as_str());
        self.entries.insert(i, e);
        proof {
            self.lemma_frame_after_update(before, i as int, name@);
            assert(before[i as int].name@ == name@);
        }
        ts
    }

    /// Refuses a delete while the node is tracked as running or an OS process
    /// for it exists, and when the node's directory does not exist.
    pub fn plan_delete(&self, name: &str, os_running: bool, dir_exists: bool) -> (r:
        Result<(), AppError>)
        requires
            self.wf(),
        ensures
            r is Ok <==> dir_exists && !os_running && !self.running(name@),
            r matches Err(e) ==> {
                &&& !dir_exists ==> e is InvalidInput
                &&& dir_exists ==> e is StateConflict
            },
    {
        if !dir_exists {
            return Err(
                AppError::InvalidInput(
                    String::from_str("Node not found: ").concat(name),
                ),
            );
        }
        if os_running {
            return Err(
                AppError::StateConflict(
                    String::from_str("Node is running: ").concat(name),
                ),
            );
        }
        let i = match self.find_entry(name) {
            Some(i) => i,
            None => {
                return Ok(());
            },
        };
        proof {
            self.lemma_unique_name_index(i as int, name@);
        }
        if self.entries[i].handle.is_some() {
            return Err(
                AppError::StateConflict(
                    String::from_str("Node is running: ").concat(name),
                ),
            );
        }
        Ok(())
    }

    /// Forgets a tracked node.
    pub fn remove_node(&mut self, name: &str)
        requires
            old(self).wf(),
        ensures
            final(self).wf(),
            !final(self).has_node(name@),
            !old(self).has_node(name@) ==> *final(self) == *old(self),
            old(self).has_node(name@) ==> exists|i: int|
                0 <= i < old(self).entries_seq().len() && old(self).entries_seq()[
                i].name@ == name@ && final(self).entries_seq() == old(
                    self,
                ).entries_seq().remove(i),
    {
        let i = match self.find_entry(name) {
            Some(i) => i,
            None => {
                return;
            },
        };
        proof {
            self.lemma_unique_name_index(i as int, name@);
        }
        let ghost before = self.entries@;
        self.entries.remove(i);
        proof {
            assert forall|i1: int, j1: int|
                0 <= i1 < j1 < self.entries@.len() implies self.entries@[i1].name@
                != self.entries@[j1].name@ by {
                if j1 < i {
                    assert(self.entries@[i1] == before[i1] && self.entries@[j1]
                        == before[j1]);
                } else if i1 < i {
                    assert(self.entries@[i1] == before[i1] && self.entries@[j1]
                        == before[j1 + 1]);
                } else {
                    assert(self.entries@[i1] == before[i1 + 1] && self.entries@[j1]
                        == before[j1 + 1]);
                }
            }
            assert forall|j: int|
                0 <= j < self.entries@.len() implies self.entries@[j].name@ != name@
                by {
                if j < i {
                    assert(self.entries@[j] == before[j]);
                } else {
                    assert(self.entries@[j] == before[j + 1]);
                }
            }
            assert(0 <= i < before.len() && before[i as int].name@ == name@
                && self.entries@ == before.remove(i as int));
        }
    }

    /// Refuses a rename to a taken name and any reconfiguration of a running
    /// node; otherwise says whether the node's directory must be renamed.
    pub fn plan_update(&self, original_name: &str, new_name: &str, new_dir_exists: bool)
        -> (r: Result<bool, AppError>)
        requires
            self.wf(),
        ensures
            r is Ok <==> !(original_name@ != new_name@ && new_dir_exists) && !self
                .running(original_name@),
            r matches Ok(rename) ==> rename == (original_name@ != new_name@),
            r matches Err(e) ==> {
                &&& original_name@ != new_name@ && new_dir_exists ==> e
                    is InvalidInput
                &&& !(original_name@ != new_name@ && new_dir_exists) ==> e
                    is StateConflict
            },
    {
        let same = str_eq(original_name, new_name);
        if !same && new_dir_exists {
            return Err(
                AppError::InvalidInput(
                    String::from_str(
                        "Cannot change node name, node with name already exists: ",
                    ).concat(new_name),
                ),
            );
        }
        let i = match self.find_entry(original_name) {
            Some(i) => i,
            None => {
                return Ok(!same);
            },
        };
        proof {
            self.lemma_unique_name_index(i as int, original_name@);
        }
        if self.entries[i].handle.is_some() {
            return Err(
                AppError::StateConflict(
                    String::from_str("Node is running: ").concat(original_name),
                ),
            );
        }
        Ok(!same)
    }
}


/// True when one of `names` is `name`.
pub fn contains_name(names: &Vec<String>, name: &str) -> (r: bool)
    ensures
        r == crate::address::views_of(names@).contains(name@),
{
    let ghost nv = crate::address::views_of(names@);
    let n = names.len();
    let mut i: usize = 0;
    while i < n
        invariant
            n == names.len(),
            nv == crate::address::views_of(names@),
            i <= n,
            forall|j: int| 0 <= j < i ==> nv[j] != name@,
        decreases n - i,
    {
        proof {
            assert(nv[i as int] == names@[i as int]@);
        }
        if str_eq(names[i].as_str(), name) {
            proof {
                assert(nv.contains(name@));
            }
            return true;
        }
        i = i + 1;
    }
    proof {
        assert(forall|j: int| 0 <= j < nv.len() ==> nv[j] != name@);
        if nv.contains(name@) {
            let j = choose|j: int| 0 <= j < nv.len() && nv[j] == name@;
        }
    }
    false
}

impl Supervisor {
    /// One `NodeInfo` per tracked node, in registration order: its ports
    /// from the tracked configuration, its running flag from the caller's
    /// process scan, and its startup policy from the store.
    pub fn list_nodes(&self, policy: &crate::policy::PolicyStore, running_names: &Vec<String>)
        -> (r: Vec<crate::types::NodeInfo>)
        ensures
            r@.len() == self.entries_seq().len(),
            forall|j: int|
                0 <= j < r@.len() ==> {
                    &&& r@[j].name@ == self.entries_seq()[j].name@
                    &&& r@[j].node_ports == self.entries_seq()[j].config
                    &&& r@[j].is_running == crate::address::views_of(
                        running_names@,
                    ).contains(self.entries_seq()[j].name@)
                    &&& r@[j].run_on_startup == (policy.lookup(
                        self.entries_seq()[j].name@ + crate::policy::startup_suffix(),
                    ) == Some(true))
                },
    {
        let n = self.entries.len();
        let mut r: Vec<crate::types::NodeInfo> = Vec::new();
        let mut i: usize = 0;
        while i < n
            invariant
                n == self.entries.len(),
                i <= n,
                r@.len() == i,
                forall|j: int|
                    0 <= j < i ==> {
                        &&& r@[j].name@ == self.entries@[j].name@
                        &&& r@[j].node_ports == self.entries@[j].config
                        &&& r@[j].is_running == crate::address::views_of(
                            running_names@,
                        ).contains(self.entries@[j].name@)
                        &&& r@[j].run_on_startup == (policy.lookup(
                            self.entries@[j].name@ + crate::policy::startup_suffix(),
                        ) == Some(true))
                    },
            decreases n - i,
        {
            let entry = &self.entries[i];
            let is_running = contains_name(running_names, entry.name.as_str());
            let run_on_startup = crate::policy::get_run_node_on_startup(
                policy,
                entry.name.as_str(),
            );
            r.push(
                crate::types::NodeInfo {
                    name: entry.name.clone(),
                    is_running,
                    run_on_startup,
                    node_ports: entry.config,
                },
            );
            i = i + 1;
        }
        r
    }
}


impl Supervisor {
    /// Read-only access to a tracked node's log bytes, for persisting them
    /// or serving a log query.
    pub fn node_log_bytes(&self, name: &str) -> (r: Result<&Vec<u8>, AppError>)
        requires
            self.wf(),
        ensures
            match r {
                Ok(b) => self.has_node(name@) && forall|j: int|
                    0 <= j < self.entries_seq().len() && self.entries_seq()[j].name@
                        == name@ ==> b@ == self.entries_seq()[j].log.content(),
                Err(e) => !self.has_node(name@) && e is InvalidInput,
            },
    {
        let i = match self.find_entry(name) {
            Some(i) => i,
            None => {
                return Err(
                    AppError::InvalidInput(
                        String::from_str("Node not found: ").concat(name),
                    ),
                );
            },
        };
        proof {
            self.lemma_unique_name_index(i as int, name@);
        }
        Ok(self.entries[i].log.as_bytes())
    }

    /// The names of all tracked nodes, in registration order.
    pub fn node_names(&self) -> (r: Vec<String>)
        ensures
            crate::address::views_of(r@) == self.entries_seq().map_values(
                |e: NodeEntry| e.name@,
            ),
    {
        let n = self.entries.len();
        let mut r: Vec<String> = Vec::new();
        let mut i: usize = 0;
        while i < n
            invariant
                n == self.entries.len(),
                i <= n,
                crate::address::views_of(r@) =~= self.entries@.map_values(
                    |e: NodeEntry| e.name@,
                ).take(i as int),
            decreases n - i,
        {
            let name = self.entries[i].name.clone();
            let ghost before = r@;
            r.push(name);
            proof {
                assert(crate::address::views_of(r@) =~= crate::address::views_of(
                    before,
                ) + seq![self.entries@[i as int].name@]);
                assert(crate::address::views_of(r@) =~= self.entries@.map_values(
                    |e: NodeEntry| e.name@,
                ).take(i + 1));
            }
            i = i + 1;
        }
        proof {
            assert(self.entries@.map_values(|e: NodeEntry| e.name@).take(n as int)
                =~= self.entries@.map_values(|e: NodeEntry| e.name@));
        }
        r
    }
}


/// The admin dashboard URL for a node's server port.
pub open spec fn dashboard_url_spec(port: u16) -> Seq<char> {
    "http://localhost:"@ + crate::strutil::dec_rep(port as int)
        + "/admin-dashboard"@
}

/// Builds the URL of a node's admin dashboard, which the caller opens in a
/// browser.
pub fn admin_dashboard_url(server_port: u16) -> (r: String)
    ensures
        r@ == dashboard_url_spec(server_port),
{
    let r = String::from_str("http://localhost:").concat(
        crate::strutil::u16_to_string(server_port).as_str(),
    ).concat("/admin-dashboard");
    proof {
        assert(r@ =~= dashboard_url_spec(server_port));
    }
    r
}


/// Law: the startup reconciliation of one node ends with exactly one
/// tracked runtime handle for it, and that handle belongs to the freshly
/// started process.  `mid` is the supervisor after the stop step cleared any
/// stale handle (a start can only be committed from such a state), and
/// `post` is the supervisor after the fresh start was committed with the new
/// process id; the kills and spawns between the steps happen outside the
/// state and cannot disturb it.
pub proof fn lemma_reconcile_tracks_fresh_handle(
    mid: Supervisor,
    post: Supervisor,
    name: Seq<char>,
    pid: u32,
)
    requires
        post.wf(),
        mid.has_node(name),
        forall|j: int|
            0 <= j < mid.entries_seq().len() && mid.entries_seq()[j].name@ == name
                ==> mid.entries_seq()[j].handle is None,
        frame_except(mid.entries_seq(), post.entries_seq(), name),
        forall|j: int|
            0 <= j < mid.entries_seq().len() && mid.entries_seq()[j].name@ == name
                ==> entry_started(mid.entries_seq()[j], post.entries_seq()[j], pid),
    ensures
        count_running(post.entries_seq(), name) == 1,
        forall|j: int|
            0 <= j < post.entries_seq().len() && post.entries_seq()[j].name@ == name
                ==> (post.entries_seq()[j].handle matches Some(h) && h.pid == pid),
{
    let i = choose|i: int|
        0 <= i < mid.entries_seq().len() && mid.entries_seq()[i].name@ == name;
    assert(post.entries_seq()[i].name@ == name);
    assert(post.entries_seq()[i].handle is Some);
    assert(post.running(name));
    post.lemma_running_handle_unique(name);
    assert forall|j: int|
        0 <= j < post.entries_seq().len() && post.entries_seq()[j].name@ == name
        implies (post.entries_seq()[j].handle matches Some(h) && h.pid == pid) by {
        assert(mid.entries_seq()[j].name@ == name);
        assert(entry_started(mid.entries_seq()[j], post.entries_seq()[j], pid));
    }
}


} // verus!
