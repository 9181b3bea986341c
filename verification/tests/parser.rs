use plexy::state::strategy::TunnelLBStrategy;
use plexy::tunnel::parser::{host_name, ipv4, ipv6, options_fold_at, port, socket_spec};
use plexy::tunnel::TunnelOptions;

#[test]
fn test_ipv6() {
    let s = |s: &'static str| &s[1..s.len() - 1];
    let ip1 = "[2001:db8:3333:4444:5555:6666:7777:8888]";
    let (_rest, res) = ipv6(ip1).expect("valid ipv6 addr");
    assert_eq!(s(ip1), res);
    let ip2 = "[2001:db8:3333:4444:CCCC:DDDD:EEEE:FFFF]";
    let (_rest, res) = ipv6(ip2).expect("valid ipv6 addr");
    assert_eq!(s(ip2), res);
    let ip3 = "[::]";
    let (_rest, res) = ipv6(ip3).expect("valid ipv6 addr");
    assert_eq!(s(ip3), res);

    let ip4 = "[::1234:5678]";
    let (_rest, res) = ipv6(ip4).expect("valid ipv6 addr");
    assert_eq!(s(ip4), res);

    let ip5 = "[2001:db8::]";
    let (_rest, res) = ipv6(ip5).expect("valid ipv6 addr");
    assert_eq!(s(ip5), res);

    let ip6 = "[2001:db8::1234:5678]";
    let (_rest, res) = ipv6(ip6).expect("valid ipv6 addr");
    assert_eq!(s(ip6), res);
}

#[test]
fn test_ipv4() {
    let x = "12.138.34.5";
    let (rest, num) = ipv4(x).expect("valid IP address");
    assert_eq!(x, num);
    assert_eq!("", rest);

    let x = "12.138.34.500";
    let res = ipv4(x);
    assert!(res.is_none());
}

#[test]
fn test_port() {
    let x = "12345";
    let (rest, num) = port(x).expect("valid number");
    assert_eq!(x.parse::<u16>().unwrap(), num);
    assert_eq!("", rest);
}

#[test]
fn test_hostname() {
    let x = "localhost";
    let (_rest, name) = host_name(x).expect("valid hostname");
    assert_eq!(x, name);

    let y = "doma.ume.cz";

    let (_rest, name) = host_name(y).expect("valid hostname");
    assert_eq!(y, name);

    let z = "neplatne-";
    let res = host_name(z);
    assert!(res.is_none());
}

#[test]
fn test_socket_spec() {
    let x = "localhost:3333";
    let (_rest, s) = socket_spec(x).expect("valid socket address");
    assert_eq!("localhost", s.host());
    assert_eq!(3333, s.port());

    let y = "127.0.0.1:3000";
    let (_rest, s) = socket_spec(y).expect("valid socket address");
    assert_eq!("127.0.0.1", s.host());
    assert_eq!(3000, s.port());
}

#[test]
fn test_options() {
    let options_str = "strategy=random,retries=3,timeout=10.0";
    let (_rest, res) = options_fold_at(options_str, 0, TunnelOptions::default()).unwrap();
    assert_eq!(3, res.remote_connect_retries);
    assert_eq!(10000, res.options.connect_timeout_ms);
    assert!(matches!(res.lb_strategy, TunnelLBStrategy::Random));
}

#[test]
fn more_options_and_aliases() {
    let s = "strategy=min-open-connections,errors=2,check-interval=0.5,remote-tls=true";
    let (_rest, res) = options_fold_at(s, 0, TunnelOptions::default()).unwrap();
    assert!(matches!(res.lb_strategy, TunnelLBStrategy::MinimumOpenConnections));
    assert_eq!(2, res.options.errors_till_dead);
    assert_eq!(500, res.options.dead_retry_ms);
    assert!(res.options.tls);

    assert!(options_fold_at("nosuch=1", 0, TunnelOptions::default()).is_none());
    assert!(options_fold_at("retries=notanumber", 0, TunnelOptions::default()).is_none());
    assert!(options_fold_at("strategy=bogus", 0, TunnelOptions::default()).is_none());
}

#[test]
fn port_bounds() {
    assert!(port("65535").is_some());
    assert!(port("65536").is_none());
    assert!(port("").is_none());
    let (rest, num) = port("80x").expect("digits prefix");
    assert_eq!(80, num);
    assert_eq!("x", rest);
}

#[test]
fn ipv6_segment_too_long() {
    assert!(ipv6("[12345::]").is_none());
    assert!(ipv6("[2001:db8]").is_some());
    assert!(ipv6("[zz::]").is_none());
}
