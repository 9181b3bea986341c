use plexy::error::Error;
use plexy::state::strategy::TunnelLBStrategy;
use plexy::text::dec_string;
use plexy::tunnel::{SocketSpec, Tunnel, TunnelOptions, TunnelRemoteOptions};

#[test]
fn test_full() {
    let t: Tunnel = Tunnel::parse("0.0.0.0:3333=127.0.0.1:3000").expect("valid tunnel");
    assert_eq!(3333, t.local.port());
    assert_eq!("0.0.0.0", t.local.host());
    assert_eq!(3000, t.remote[0].port());
    assert_eq!("127.0.0.1", t.remote[0].host());
}

#[test]
fn test_port_only() {
    let t: Tunnel = Tunnel::parse("3333=127.0.0.1:3000").expect("valid tunnel");
    assert_eq!(3333, t.local.port());
    assert_eq!("127.0.0.1", t.local.host());
    assert_eq!(3000, t.remote[0].port());
    assert_eq!("127.0.0.1", t.remote[0].host());
}

#[test]
fn test_tunnel_with_options() {
    let t_str = "localhost:3000=host1:3001,host2:3002,host3:3003[strategy=round-robin,timeout=55.5,retries=5]";
    let t: Tunnel = Tunnel::parse(t_str).expect("Valid tunnel spec");
    assert_eq!(t.options.unwrap().remote_connect_retries, 5);
}

#[test]
fn tunnel_rejects_empty_remotes() {
    assert!(matches!(Tunnel::parse("3333="), Err(Error::TunnelParseError(_))));
    assert!(matches!(Tunnel::parse(""), Err(Error::TunnelParseError(_))));
    assert!(matches!(Tunnel::parse("3333"), Err(Error::TunnelParseError(_))));
    assert!(matches!(Tunnel::parse("3333=4444,"), Err(Error::TunnelParseError(_))));
}

#[test]
fn tunnel_ipv6_remotes() {
    let t = Tunnel::parse("[::1]:3000=[::1]:3001,[::1]:3002[strategy=round-robin,timeout=2]")
        .expect("valid tunnel");
    assert_eq!("::1", t.local.host());
    assert_eq!(2, t.remote.len());
    assert_eq!(2000, t.options.unwrap().options.connect_timeout_ms);
}

#[test]
fn socket_spec_display_roundtrip() {
    for text in ["localhost:3333", "127.0.0.1:3000", "[::1]:8080", "a-b.c:1", "0.0.0.0:0"] {
        let s = SocketSpec::parse(text).expect("valid socket address");
        let shown = s.display_string();
        assert_eq!(text, shown);
        let again = SocketSpec::parse(&shown).expect("canonical display parses");
        assert_eq!(s, again);
    }
    // A bare port displays with the loopback host filled in.
    let s = SocketSpec::parse("3333").expect("valid socket address");
    assert_eq!("127.0.0.1:3333", s.display_string());
    let again = SocketSpec::parse("127.0.0.1:3333").unwrap();
    assert_eq!(s, again);
}

#[test]
fn socket_spec_rejects_malformed() {
    for text in ["", ":80", "host-:80", "host.:80", "70000", "a b:80", "1.2.3.4.5:80", "[::1]"] {
        assert!(
            matches!(SocketSpec::parse(text), Err(Error::SocketSpecParseError(_))),
            "{} should be rejected",
            text
        );
    }
    // Trailing whitespace after a spec is tolerated.
    assert!(SocketSpec::parse("localhost:80  ").is_ok());
    assert!(SocketSpec::parse("  localhost:80").is_err());
}

#[test]
fn tunnel_display() {
    let t = Tunnel::parse("3333=4444,localhost:5555").unwrap();
    assert_eq!("127.0.0.1:3333=127.0.0.1:4444,localhost:5555", t.display_string());
}

#[test]
fn error_codes() {
    assert_eq!(1005, Error::TunnelExists.code());
    assert_eq!(1006, Error::TunnelDoesNotExist.code());
    assert_eq!(1007, Error::RemoteExists.code());
    assert_eq!(1008, Error::RemoteDoesNotExist.code());
    assert_eq!(1011, Error::NoRemote.code());
    assert_eq!(1012, Error::InvalidLBStrategy.code());
    assert_eq!(1001, Error::TunnelParseError(String::new()).code());
    assert_eq!(1002, Error::SocketSpecParseError(String::new()).code());
    assert_eq!(1003, Error::SocketAddrParse(String::new()).code());
    assert_eq!(1004, Error::IOError(String::new()).code());
    assert_eq!(1009, Error::ControlProtocolLineError(String::new()).code());
    assert_eq!(1010, Error::ControlProtocolError(String::new()).code());
    assert_eq!(1013, Error::RPCError(String::new()).code());
    assert_eq!(
        "Tunnel already exists",
        Error::TunnelExists.message()
    );
    assert_eq!(
        "IO error: boom",
        Error::IOError("boom".to_string()).message()
    );
}

#[test]
fn defaults_flow_into_option_blocks() {
    let defaults = TunnelOptions {
        lb_strategy: TunnelLBStrategy::RoundRobin,
        remote_connect_retries: 9,
        options: TunnelRemoteOptions {
            errors_till_dead: 4,
            connect_timeout_ms: 2500,
            dead_retry_ms: 1500,
            tls: true,
        },
    };
    // A tunnel without an option block records no options of its own.
    let bare = Tunnel::parse_with("3333=4444", &defaults).unwrap();
    assert!(bare.options.is_none());
    // A partial option block starts from the given defaults.
    let t = Tunnel::parse_with("3333=4444[retries=1]", &defaults).unwrap();
    let opts = t.options.unwrap();
    assert_eq!(1, opts.remote_connect_retries);
    assert_eq!(4, opts.options.errors_till_dead);
    assert_eq!(2500, opts.options.connect_timeout_ms);
    assert!(opts.options.tls);
    assert!(matches!(opts.lb_strategy, TunnelLBStrategy::RoundRobin));
}

#[test]
fn decimal_rendering() {
    assert_eq!("0", dec_string(0));
    assert_eq!("7", dec_string(7));
    assert_eq!("65535", dec_string(65535));
    assert_eq!("18446744073709551615", dec_string(u64::MAX));
}
