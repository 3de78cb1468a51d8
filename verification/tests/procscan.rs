use node_manager::procscan::{
    any_cmdline_matches, cmdline_matches_node, is_node_process_running,
};

fn cmd(parts: &[&str]) -> Vec<String> {
    parts.iter().map(|s| s.to_string()).collect()
}

#[test]
fn matches_exact_node_name() {
    let c = cmd(&[
        "/usr/local/bin/meroctl",
        "--node-name",
        "alpha",
        "--home",
        "/data/nodes",
        "run",
    ]);
    assert!(cmdline_matches_node(&c, "alpha"));
    assert!(!cmdline_matches_node(&c, "beta"));
}

#[test]
fn short_name_does_not_match_longer_name() {
    // A node named `a` must not match the process of a node named `abc`.
    let c = cmd(&["meroctl", "--node-name", "abc", "--home", "/d", "run"]);
    assert!(cmdline_matches_node(&c, "abc"));
    assert!(!cmdline_matches_node(&c, "a"));
    assert!(!cmdline_matches_node(&c, "ab"));
    assert!(!cmdline_matches_node(&c, "bc"));
}

#[test]
fn requires_run_subcommand_after_the_name() {
    let init = cmd(&["meroctl", "--node-name", "alpha", "--home", "/d", "init"]);
    assert!(!cmdline_matches_node(&init, "alpha"));
    let run_before = cmd(&["meroctl", "run", "--node-name", "alpha"]);
    assert!(!cmdline_matches_node(&run_before, "alpha"));
}

#[test]
fn requires_the_supervised_binary() {
    let other = cmd(&["/usr/bin/python", "--node-name", "alpha", "run"]);
    assert!(!cmdline_matches_node(&other, "alpha"));
    // A different binary whose name merely ends in the same letters does
    // not count; only `meroctl` itself or a path ending in `/meroctl` does.
    let lookalike = cmd(&["mymeroctl", "--node-name", "alpha", "run"]);
    assert!(!cmdline_matches_node(&lookalike, "alpha"));
    let path_lookalike = cmd(&["/opt/mymeroctl", "--node-name", "alpha", "run"]);
    assert!(!cmdline_matches_node(&path_lookalike, "alpha"));
    let empty: Vec<String> = Vec::new();
    assert!(!cmdline_matches_node(&empty, "alpha"));
}

#[test]
fn any_match_scans_all_command_lines() {
    let cmds = vec![
        cmd(&["init"]),
        cmd(&["meroctl", "--node-name", "beta", "run"]),
        cmd(&["meroctl", "--node-name", "alpha", "run"]),
    ];
    assert!(any_cmdline_matches(&cmds, "alpha"));
    assert!(any_cmdline_matches(&cmds, "beta"));
    assert!(!any_cmdline_matches(&cmds, "gamma"));
    assert!(!any_cmdline_matches(&Vec::new(), "alpha"));
}

#[test]
fn scan_of_real_processes_finds_no_such_node() {
    // Runs the real process enumeration; no process on this machine runs a
    // node with this name.
    assert!(!is_node_process_running("no-such-node-name-es9x"));
}
