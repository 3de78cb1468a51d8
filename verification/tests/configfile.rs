use node_manager::configfile::{get_node_ports, update_config_text};
use node_manager::errors::AppError;
use node_manager::types::NodeConfig;

fn sample_config() -> String {
    [
        "description = \"test node\"",
        "",
        "[server]",
        "listen = [\"/ip4/127.0.0.1/tcp/2428\", \"/ip6/::1/tcp/2428\"]",
        "",
        "[swarm]",
        "listen = [\"/ip4/0.0.0.0/tcp/2528\", \"/ip4/0.0.0.0/udp/2528/quic-v1\"]",
        "",
    ]
    .join("\n")
}

#[test]
fn reads_both_ports() {
    let ports = get_node_ports(&sample_config()).unwrap();
    assert_eq!(
        ports,
        NodeConfig {
            server_port: 2428,
            swarm_port: 2528
        }
    );
}

#[test]
fn read_fails_without_section() {
    assert!(matches!(
        get_node_ports("[server]\nlisten = [\"/ip4/127.0.0.1/tcp/1\"]\n"),
        Err(AppError::Custom(_))
    ));
    assert!(matches!(get_node_ports("x = 1\n"), Err(AppError::Custom(_))));
}

#[test]
fn read_fails_on_bad_toml() {
    assert!(matches!(
        get_node_ports("not toml at all ["),
        Err(AppError::TomlError(_))
    ));
}

#[test]
fn update_rewrites_every_listen_entry() {
    let updated = update_config_text(&sample_config(), 2480, 2580).unwrap();
    assert!(updated.contains("/ip4/127.0.0.1/tcp/2480"));
    assert!(updated.contains("/ip6/::1/tcp/2480"));
    assert!(updated.contains("/ip4/0.0.0.0/tcp/2580"));
    assert!(updated.contains("/ip4/0.0.0.0/udp/2580/quic-v1"));
    assert!(!updated.contains("2428"));
    assert!(!updated.contains("2528"));
    // The rest of the document survives the round trip.
    assert!(updated.contains("test node"));
    // And the rewritten text parses back to the new ports.
    let ports = get_node_ports(&updated).unwrap();
    assert_eq!(
        ports,
        NodeConfig {
            server_port: 2480,
            swarm_port: 2580
        }
    );
}

#[test]
fn update_fails_on_malformed_listen_address() {
    let bad = "[server]\nlisten = [\"/ip4/127.0.0.1\"]\n[swarm]\nlisten = []\n";
    assert!(matches!(
        update_config_text(bad, 1, 2),
        Err(AppError::InvalidInput(_))
    ));
}

#[test]
fn update_leaves_absent_sections_alone() {
    let only_server = "[server]\nlisten = [\"/ip4/127.0.0.1/tcp/2428\"]\n";
    let updated = update_config_text(only_server, 2480, 2580).unwrap();
    assert!(updated.contains("/ip4/127.0.0.1/tcp/2480"));
}
