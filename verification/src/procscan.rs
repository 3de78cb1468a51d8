//! Detection of running node processes from the OS process table.  The
//! process list comes from the `sysinfo` crate; whether a command line
//! belongs to a given node is decided here by exact token matching, so a
//! node named `a` never matches the process of a node named `abc`.

use vstd::prelude::*;

use crate::address::views_of;
use crate::strutil::{str_ends_with, str_eq};

verus! {

/// The token names the supervised binary: exactly `meroctl`, or a path
/// whose last component is `meroctl`.
pub open spec fn names_binary(t: Seq<char>) -> bool {
    t == "meroctl"@ || (t.len() >= "/meroctl"@.len() && t.skip(
        t.len() - "/meroctl"@.len(),
    ) == "/meroctl"@)
}

/// A command line that runs the node `name`: its first token names the
/// binary, a `--node-name` token is followed by exactly `name`, and a `run`
/// token follows them.
pub open spec fn cmd_matches(cmd: Seq<Seq<char>>, name: Seq<char>) -> bool {
    &&& cmd.len() >= 1
    &&& names_binary(cmd[0])
    &&& exists|t: int|
        #![trigger cmd[t]]
        1 <= t < cmd.len() - 1 && cmd[t] == "--node-name"@ && cmd[t + 1] == name && (
        exists|k: int| #![trigger cmd[k]] t + 1 < k < cmd.len() && cmd[k] == "run"@)
}

/// Whether one process command line runs the node `node_name`.
pub fn cmdline_matches_node(cmd: &Vec<String>, node_name: &str) -> (r: bool)
    ensures
        r == cmd_matches(views_of(cmd@), node_name@),
{
    let ghost cv = views_of(cmd@);
    let n = cmd.len();
    if n == 0 {
        return false;
    }
    proof {
        assert(cv[0] == cmd@[0]@);
    }
    let binary_ok = str_eq(cmd[0].as_str(), "meroctl") || str_ends_with(
        cmd[0].as_str(),
        "/meroctl",
    );
    if !binary_ok {
        return false;
    }
    let mut t: usize = 1;
    while t < n - 1
        invariant
            n == cmd.len(),
            n >= 1,
            cv == views_of(cmd@),
            cv.len() == n,
            names_binary(cv[0]),
            1 <= t,
            t <= n,
            forall|t2: int|
                #![trigger cv[t2]]
                1 <= t2 < t ==> !(cv[t2] == "--node-name"@ && cv[t2 + 1] == node_name@
                    && (exists|k: int|
                    #![trigger cv[k]]
                    t2 + 1 < k < cv.len() && cv[k] == "run"@)),
        decreases n - t,
    {
        proof {
            assert(cv[t as int] == cmd@[t as int]@);
            assert(cv[t + 1] == cmd@[t + 1]@);
        }
        if str_eq(cmd[t].as_str(), "--node-name") && str_eq(
            cmd[t + 1].as_str(),
            node_name,
        ) {
            let mut k = t + 2;
            while k < n
                invariant
                    n == cmd.len(),
                    cv == views_of(cmd@),
                    cv.len() == n,
                    names_binary(cv[0]),
                    1 <= t,
                    t + 1 < n,
                    cv[t as int] == "--node-name"@,
                    cv[t + 1] == node_name@,
                    t + 2 <= k <= n,
                    forall|k2: int| #![trigger cv[k2]] t + 1 < k2 < k ==> cv[k2] != "run"@,
                decreases n - k,
            {
                proof {
                    assert(cv[k as int] == cmd@[k as int]@);
                }
                if str_eq(cmd[k].as_str(), "run") {
                    proof {
                        assert(1 <= t < cv.len() - 1 && cv[t as int] == "--node-name"@
                            && cv[t + 1] == node_name@ && t + 1 < k < cv.len()
                            && cv[k as int] == "run"@);
                    }
                    return true;
                }
                k = k + 1;
            }
        }
        t = t + 1;
    }
    proof {
        if cmd_matches(cv, node_name@) {
            let t2 = choose|t2: int|
                #![trigger cv[t2]]
                1 <= t2 < cv.len() - 1 && cv[t2] == "--node-name"@ && cv[t2 + 1]
                    == node_name@ && (exists|k: int|
                    #![trigger cv[k]]
                    t2 + 1 < k < cv.len() && cv[k] == "run"@);
            assert(false);
        }
    }
    false
}

/// Whether any of the given command lines runs the node `name`.
pub fn any_cmdline_matches(cmds: &Vec<Vec<String>>, name: &str) -> (r: bool)
    ensures
        r == exists|i: int|
            0 <= i < cmds@.len() && cmd_matches(views_of(cmds@[i]@), name@),
{
    let n = cmds.len();
    let mut i: usize = 0;
    while i < n
        invariant
            n == cmds.len(),
            i <= n,
            forall|j: int| 0 <= j < i ==> !cmd_matches(views_of(cmds@[j]@), name@),
        decreases n - i,
    {
        if cmdline_matches_node(&cmds[i], name) {
            proof {
                assert(cmd_matches(views_of(cmds@[i as int]@), name@));
            }
            return true;
        }
        i = i + 1;
    }
    false
}

/// Relies on sysinfo::System::new_with_specifics with process refresh and on
/// Process::cmd: the command-line argument vector of every process the OS
/// reports.  The result depends on the machine's state, so nothing is
/// promised of it.
#[verifier::external_body]
fn os_process_cmdlines() -> (r: Vec<Vec<String>>) {
    let sys = sysinfo::System::new_with_specifics(
        sysinfo::RefreshKind::nothing().with_processes(
            sysinfo::ProcessRefreshKind::everything(),
        ),
    );
    let mut out: Vec<Vec<String>> = Vec::new();
    for p in sys.processes().values() {
        let mut cmd: Vec<String> = Vec::new();
        for a in p.cmd() {
            cmd.push(a.to_string_lossy().into_owned());
        }
        out.push(cmd);
    }
    out
}

/// Whether the OS currently runs a process for the node, judged by exact
/// token matching over the enumerated command lines.
pub fn is_node_process_running(node_name: &str) -> (r: bool) {
    let cmds = os_process_cmdlines();
    any_cmdline_matches(&cmds, node_name)
}

} // verus!
