use node_manager::address::{change_port_in_path, port_of_address};
use node_manager::errors::AppError;

#[test]
fn rewrites_tcp_port() {
    let r = change_port_in_path("/ip4/127.0.0.1/tcp/2428", "4001");
    assert_eq!(r.unwrap(), "/ip4/127.0.0.1/tcp/4001");
}

#[test]
fn rewrites_udp_port_and_keeps_quic_wrapper() {
    let r = change_port_in_path("/ip4/0.0.0.0/udp/4001/quic-v1", "5000");
    assert_eq!(r.unwrap(), "/ip4/0.0.0.0/udp/5000/quic-v1");
}

#[test]
fn rewrites_every_transport_port() {
    let r = change_port_in_path("/ip4/0.0.0.0/tcp/1/udp/2/quic-v1", "7");
    assert_eq!(r.unwrap(), "/ip4/0.0.0.0/tcp/7/udp/7/quic-v1");
}

#[test]
fn no_transport_segment_fails() {
    let r = change_port_in_path("/ip4/127.0.0.1", "4001");
    assert!(matches!(r, Err(AppError::InvalidInput(_))));
}

#[test]
fn invalid_new_port_fails() {
    assert!(change_port_in_path("/ip4/127.0.0.1/tcp/2428", "abc").is_err());
    assert!(change_port_in_path("/ip4/127.0.0.1/tcp/2428", "70000").is_err());
    assert!(change_port_in_path("/ip4/127.0.0.1/tcp/2428", "").is_err());
}

#[test]
fn non_numeric_existing_port_fails() {
    let r = change_port_in_path("/ip4/127.0.0.1/tcp/abc", "4001");
    assert!(matches!(r, Err(AppError::InvalidInput(_))));
}

#[test]
fn malformed_address_fails() {
    assert!(change_port_in_path("ip4/127.0.0.1/tcp/1", "2").is_err());
    assert!(change_port_in_path("/ip4//tcp/1", "2").is_err());
    assert!(change_port_in_path("/ip4/127.0.0.1/tcp/1/", "2").is_err());
    assert!(change_port_in_path("", "2").is_err());
    assert!(change_port_in_path("/", "2").is_err());
}

#[test]
fn new_port_is_canonicalized() {
    let r = change_port_in_path("/ip4/127.0.0.1/tcp/2428", "0042");
    assert_eq!(r.unwrap(), "/ip4/127.0.0.1/tcp/42");
}

#[test]
fn trailing_transport_without_port_fails() {
    assert!(change_port_in_path("/ip4/127.0.0.1/tcp", "4001").is_err());
}

#[test]
fn reads_tcp_port() {
    assert_eq!(port_of_address("/ip4/127.0.0.1/tcp/2428").unwrap(), 2428);
    assert_eq!(
        port_of_address("/ip4/0.0.0.0/udp/9/quic-v1/tcp/80").unwrap(),
        80
    );
}

#[test]
fn read_fails_without_tcp_segment() {
    assert!(port_of_address("/ip4/0.0.0.0/udp/4001/quic-v1").is_err());
    assert!(port_of_address("/ip4/127.0.0.1").is_err());
}

#[test]
fn read_fails_on_invalid_transport_port() {
    assert!(port_of_address("/ip4/1.2.3.4/tcp/2428/udp/bad").is_err());
    assert!(port_of_address("/ip4/1.2.3.4/tcp/99999").is_err());
}
