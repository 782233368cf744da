use alx::bind::BindTarget;
use alx::parse_bind_address;

fn address(text: &str) -> BindTarget {
    BindTarget::Address(text.to_owned())
}

#[test]
fn binding_defaults_to_localhost_and_accepts_an_explicit_ip() {
    assert_eq!(parse_bind_address(None, false, false).unwrap(), address("127.0.0.1:3000"));
    assert_eq!(
        parse_bind_address(Some("0.0.0.0:8080"), true, false).unwrap(),
        address("0.0.0.0:8080")
    );
    assert_eq!(
        parse_bind_address(Some("127.0.0.1:0"), true, false).unwrap(),
        address("127.0.0.1:0")
    );
}

#[test]
fn binding_rejects_conflicts_and_hostnames() {
    assert!(parse_bind_address(Some("127.0.0.1:3000"), true, true).is_err());
    assert!(parse_bind_address(Some("localhost:3000"), false, false).is_err());
    assert_eq!(
        parse_bind_address(Some("localhost:3000"), false, false).unwrap_err().message(),
        "invalid bind address; expected IP:PORT"
    );
    assert_eq!(
        parse_bind_address(Some("127.0.0.1:3000"), true, true).unwrap_err().message(),
        "--bind cannot be used with --tailscale"
    );
    assert_eq!(
        parse_bind_address(Some("localhost:3000"), false, true).unwrap_err().message(),
        "--bind cannot be used with --tailscale"
    );
}
