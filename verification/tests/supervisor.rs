use node_manager::errors::AppError;
use node_manager::logbuf::LogBuffer;
use node_manager::policy::{
    get_run_node_on_startup, policy_key, update_run_node_on_startup, PolicyStore,
};
use node_manager::procscan::any_cmdline_matches;
use node_manager::supervisor::{
    check_ports_availability, create_outcome, init_command_args, run_command_args,
    StopDecision, Supervisor,
};
use node_manager::types::NodeConfig;

fn cfg() -> NodeConfig {
    NodeConfig {
        server_port: 2428,
        swarm_port: 2528,
    }
}

fn supervisor_with(name: &str) -> Supervisor {
    let mut sup = Supervisor::new();
    sup.register_node(name.to_string(), cfg(), LogBuffer::new())
        .unwrap();
    sup
}

#[test]
fn register_refuses_duplicate_name() {
    let mut sup = supervisor_with("alpha");
    let r = sup.register_node("alpha".to_string(), cfg(), LogBuffer::new());
    assert!(matches!(r, Err(AppError::InvalidInput(_))));
}

#[test]
fn start_of_running_node_is_state_conflict_and_keeps_one_handle() {
    let mut sup = supervisor_with("alpha");
    let args = sup.plan_start("alpha", "/home/nodes", false, false).unwrap();
    assert_eq!(
        args,
        vec!["--node-name", "alpha", "--home", "/home/nodes", "run"]
    );
    sup.commit_start("alpha", 4242).unwrap();

    // A second start is rejected as a state conflict, not merged.
    let again = sup.plan_start("alpha", "/home/nodes", false, false);
    assert!(matches!(again, Err(AppError::StateConflict(_))));
    let commit_again = sup.commit_start("alpha", 9999);
    assert!(matches!(commit_again, Err(AppError::StateConflict(_))));

    // Exactly one tracked entry for the name, still running.
    let policy = PolicyStore::new();
    let infos = sup.list_nodes(&policy, &vec!["alpha".to_string()]);
    assert_eq!(infos.len(), 1);
    assert_eq!(infos[0].name, "alpha");
    assert!(infos[0].is_running);
    assert_eq!(sup.plan_stop("alpha", true), StopDecision::KillTracked(4242));
}

#[test]
fn plan_start_rejects_unknown_node_and_busy_ports() {
    let sup = supervisor_with("alpha");
    assert!(matches!(
        sup.plan_start("beta", "/h", false, false),
        Err(AppError::InvalidInput(_))
    ));
    assert!(matches!(
        sup.plan_start("alpha", "/h", true, false),
        Err(AppError::Custom(_))
    ));
    assert!(matches!(
        sup.plan_start("alpha", "/h", false, true),
        Err(AppError::Custom(_))
    ));
}

#[test]
fn send_input_to_stopped_node_fails_with_not_running() {
    let mut sup = supervisor_with("alpha");
    let r = sup.send_input_to_node("alpha", "peers");
    match r {
        Err(AppError::StateConflict(m)) => assert!(m.contains("not running")),
        other => panic!("expected a not-running conflict, got {:?}", other),
    }
    let unknown = sup.send_input_to_node("beta", "peers");
    assert!(matches!(unknown, Err(AppError::InvalidInput(_))));
}

#[test]
fn send_input_logs_a_stdin_record() {
    let mut sup = supervisor_with("alpha");
    sup.commit_start("alpha", 7).unwrap();
    sup.send_input_to_node("alpha", "peers").unwrap();
    let log = sup.node_log_bytes("alpha").unwrap();
    assert_eq!(log.as_slice(), b"STDIN: peers\n");
}

#[test]
fn output_is_buffered_stripped_and_reset_on_stop() {
    let mut sup = supervisor_with("alpha");
    sup.commit_start("alpha", 7).unwrap();
    let cleaned = sup.append_output("alpha", "\x1b[31mred\x1b[0m line").unwrap();
    assert_eq!(cleaned, "red line");
    sup.append_output("alpha", "more").unwrap();
    assert_eq!(sup.get_node_output("alpha").unwrap(), "red line\nmore\n");

    let ts = sup.finish_stop("alpha");
    // The buffer is discarded with the handle; the log keeps everything,
    // including the timestamped stop record.
    assert_eq!(sup.get_node_output("alpha").unwrap(), "");
    let log = String::from_utf8(sup.node_log_bytes("alpha").unwrap().clone()).unwrap();
    let expected_tail = format!("{} Node 'alpha' has been stopped successfully.\n", ts);
    assert!(log.ends_with(&expected_tail));
    assert!(log.starts_with("red line\nmore\n"));
}

#[test]
fn append_output_requires_a_running_node() {
    let mut sup = supervisor_with("alpha");
    assert!(matches!(
        sup.append_output("alpha", "x"),
        Err(AppError::StateConflict(_))
    ));
    assert!(matches!(
        sup.append_output("beta", "x"),
        Err(AppError::InvalidInput(_))
    ));
}

#[test]
fn stop_decisions_follow_state() {
    let mut sup = supervisor_with("alpha");
    // No OS process: stopping is a no-op.
    assert_eq!(sup.plan_stop("alpha", false), StopDecision::NotRunning);
    // An OS process without a tracked handle is killed by pattern.
    assert_eq!(sup.plan_stop("alpha", true), StopDecision::KillByPattern);
    assert_eq!(sup.plan_stop("beta", true), StopDecision::KillByPattern);
    sup.commit_start("alpha", 31).unwrap();
    assert_eq!(sup.plan_stop("alpha", true), StopDecision::KillTracked(31));
}

#[test]
fn delete_refused_while_running_and_removes_policy_when_stopped() {
    let mut sup = supervisor_with("alpha");
    let mut policy = PolicyStore::new();
    update_run_node_on_startup(&mut policy, "alpha", true);
    sup.commit_start("alpha", 11).unwrap();

    // Refused while a runtime handle is tracked.
    assert!(matches!(
        sup.plan_delete("alpha", true, true),
        Err(AppError::StateConflict(_))
    ));
    assert!(matches!(
        sup.plan_delete("alpha", false, true),
        Err(AppError::StateConflict(_))
    ));

    // After a stop the delete goes through and clears everything.
    sup.finish_stop("alpha");
    sup.plan_delete("alpha", false, true).unwrap();
    sup.remove_node("alpha");
    policy.remove(policy_key("alpha").as_str());

    assert!(!get_run_node_on_startup(&policy, "alpha"));
    assert!(policy.get("alpha_run_on_startup").is_none());
    let infos = sup.list_nodes(&policy, &Vec::new());
    assert_eq!(infos.len(), 0);
    assert!(matches!(
        sup.plan_delete("alpha", false, false),
        Err(AppError::InvalidInput(_))
    ));
}

#[test]
fn startup_reconciliation_stops_orphan_then_tracks_one_handle() {
    // A simulated restart: the policy asks for alpha, and an orphaned OS
    // process for alpha is already running.
    let mut sup = supervisor_with("alpha");
    let mut policy = PolicyStore::new();
    update_run_node_on_startup(&mut policy, "alpha", true);
    let autostart = policy.autostart_names();
    assert_eq!(autostart, vec!["alpha".to_string()]);

    let orphan_cmds = vec![vec![
        "/usr/bin/meroctl".to_string(),
        "--node-name".to_string(),
        "alpha".to_string(),
        "--home".to_string(),
        "/home/nodes".to_string(),
        "run".to_string(),
    ]];
    let orphan_running = any_cmdline_matches(&orphan_cmds, "alpha");
    assert!(orphan_running);

    // The orphan is stopped before the fresh start.
    assert_eq!(
        sup.plan_stop("alpha", orphan_running),
        StopDecision::KillByPattern
    );
    sup.finish_stop("alpha");
    sup.plan_start("alpha", "/home/nodes", false, false).unwrap();
    sup.commit_start("alpha", 555).unwrap();

    // Exactly one tracked, running entry for alpha.
    let infos = sup.list_nodes(&policy, &vec!["alpha".to_string()]);
    assert_eq!(infos.len(), 1);
    assert!(infos[0].is_running && infos[0].run_on_startup);
    assert_eq!(sup.plan_stop("alpha", true), StopDecision::KillTracked(555));
    assert!(matches!(
        sup.commit_start("alpha", 556),
        Err(AppError::StateConflict(_))
    ));
}

#[test]
fn plan_update_refuses_collision_and_running_node() {
    let mut sup = supervisor_with("alpha");
    assert!(matches!(
        sup.plan_update("alpha", "beta", true),
        Err(AppError::InvalidInput(_))
    ));
    assert_eq!(sup.plan_update("alpha", "beta", false).unwrap(), true);
    assert_eq!(sup.plan_update("alpha", "alpha", true).unwrap(), false);
    sup.commit_start("alpha", 3).unwrap();
    assert!(matches!(
        sup.plan_update("alpha", "beta", false),
        Err(AppError::StateConflict(_))
    ));
}

#[test]
fn set_config_updates_tracked_ports() {
    let mut sup = supervisor_with("alpha");
    let newcfg = NodeConfig {
        server_port: 2480,
        swarm_port: 2580,
    };
    sup.set_config("alpha", newcfg).unwrap();
    assert_eq!(sup.node_config("alpha").unwrap(), newcfg);
    assert!(matches!(
        sup.set_config("beta", newcfg),
        Err(AppError::InvalidInput(_))
    ));
}

#[test]
fn command_argument_lists_are_exact() {
    assert_eq!(
        init_command_args("n1", "/data/nodes", 2428, 2528),
        vec![
            "--node-name",
            "n1",
            "--home",
            "/data/nodes",
            "init",
            "--server-port",
            "2428",
            "--swarm-port",
            "2528"
        ]
    );
    assert_eq!(
        run_command_args("n1", "/data/nodes"),
        vec!["--node-name", "n1", "--home", "/data/nodes", "run"]
    );
}

#[test]
fn create_outcome_carries_stripped_stderr() {
    assert!(create_outcome(true, "").is_ok());
    match create_outcome(false, "\x1b[31mboom\x1b[0m failed") {
        Err(AppError::Process(m)) => assert_eq!(m, "boom failed"),
        other => panic!("expected a process error, got {:?}", other),
    }
}

#[test]
fn port_availability_check() {
    assert!(check_ports_availability(&cfg(), false, false).is_ok());
    match check_ports_availability(&cfg(), true, false) {
        Err(AppError::Custom(m)) => {
            assert_eq!(m, "Port 2428 or 2528 is already in use")
        }
        other => panic!("expected a port error, got {:?}", other),
    }
    assert!(check_ports_availability(&cfg(), false, true).is_err());
}

#[test]
fn node_names_lists_registered_order() {
    let mut sup = supervisor_with("alpha");
    sup.register_node("beta".to_string(), cfg(), LogBuffer::new())
        .unwrap();
    assert_eq!(sup.node_names(), vec!["alpha", "beta"]);
}
