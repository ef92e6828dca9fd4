//! The listen address, formed from the two configuration values and their
//! documented defaults.

use noaas::bind_address;

#[test]
fn defaults_when_nothing_is_configured() {
    assert_eq!(bind_address(None, None), "0.0.0.0:3000");
}

#[test]
fn configured_port_overrides_the_default() {
    assert_eq!(bind_address(None, Some("8080".to_string())), "0.0.0.0:8080");
}

#[test]
fn configured_host_and_port_are_joined() {
    assert_eq!(
        bind_address(Some("127.0.0.1".to_string()), Some("9".to_string())),
        "127.0.0.1:9"
    );
}
