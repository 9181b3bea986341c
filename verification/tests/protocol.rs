use plexy::error::Error;
use plexy::protocol::{
    detail_response, help_response, status_response, CommandRequest, CommandResponse,
};
use plexy::state::stats::{RemoteStats, TunnelStats};
use plexy::state::strategy::TunnelLBStrategy;
use plexy::tunnel::SocketSpec;

#[test]
fn parse_commands() {
    assert!(matches!(
        CommandRequest::parse("STATUS"),
        Ok(CommandRequest::Status(false))
    ));
    assert!(matches!(
        CommandRequest::parse("STATUS LONG"),
        Ok(CommandRequest::Status(true))
    ));
    assert!(matches!(
        CommandRequest::parse("status full"),
        Ok(CommandRequest::Status(true))
    ));
    assert!(matches!(
        CommandRequest::parse("STATUS SHORT"),
        Ok(CommandRequest::Status(false))
    ));
    assert!(matches!(
        CommandRequest::parse("STATUS loud"),
        Err(Error::ControlProtocolError(_))
    ));
    assert!(matches!(CommandRequest::parse("HELP"), Ok(CommandRequest::Help)));
    assert!(matches!(CommandRequest::parse("exit"), Ok(CommandRequest::Exit)));
    assert!(matches!(
        CommandRequest::parse("NOSUCH"),
        Err(Error::ControlProtocolError(_))
    ));
}

#[test]
fn parse_open_and_close() {
    match CommandRequest::parse("OPEN 3333=127.0.0.1:3000").expect("valid open") {
        CommandRequest::Open(t) => {
            assert_eq!(3333, t.local.port());
            assert_eq!(1, t.remote.len());
        },
        other => panic!("unexpected command {:?}", other),
    }
    match CommandRequest::parse("CLOSE localhost:80").expect("valid close") {
        CommandRequest::Close(s) => assert_eq!("localhost", s.host()),
        other => panic!("unexpected command {:?}", other),
    }
    match CommandRequest::parse("DETAIL 4444").expect("valid detail") {
        CommandRequest::Detail(s) => assert_eq!(4444, s.port()),
        other => panic!("unexpected command {:?}", other),
    }
    assert!(matches!(
        CommandRequest::parse("OPEN"),
        Err(Error::ControlProtocolError(_))
    ));
    assert!(matches!(
        CommandRequest::parse("OPEN not-a-tunnel"),
        Err(Error::TunnelParseError(_))
    ));
    assert!(matches!(
        CommandRequest::parse("CLOSE :::"),
        Err(Error::SocketSpecParseError(_))
    ));
}

#[test]
fn response_wire_text() {
    assert_eq!("OK", CommandResponse::OK.to_response_string());
    assert_eq!("DONE", CommandResponse::Done.to_response_string());
    assert_eq!("SORRY", CommandResponse::Problem(None).to_response_string());
    assert_eq!(
        "SORRY: No remote available",
        CommandResponse::Problem(Some(Error::NoRemote)).to_response_string()
    );
    let info = CommandResponse::Info {
        short: "two".to_string(),
        details: Some(vec!["one".to_string(), "and two".to_string()]),
    };
    assert_eq!("OK: two\n\tone\n\tand two", info.to_response_string());
    let bare = CommandResponse::Info { short: "none".to_string(), details: None };
    assert_eq!("OK: none", bare.to_response_string());
}

#[test]
fn of_result_maps_outcomes() {
    assert!(matches!(
        CommandResponse::of_result::<()>(Ok(())),
        CommandResponse::OK
    ));
    assert!(matches!(
        CommandResponse::of_result::<()>(Err(Error::TunnelExists)),
        CommandResponse::Problem(Some(Error::TunnelExists))
    ));
}

#[test]
fn status_and_detail_text() {
    let empty: Vec<(SocketSpec, TunnelStats)> = Vec::new();
    match status_response(&empty, true) {
        CommandResponse::Info { short, details } => {
            assert_eq!("No tunnels", short);
            assert!(details.is_none());
        },
        other => panic!("unexpected response {:?}", other),
    }

    let mut stats = TunnelStats::default();
    stats.bytes_sent = 6;
    stats.bytes_received = 7;
    stats.total_connections = 2;
    stats.streams_open = 1;
    let list = vec![(SocketSpec::parse("3333").unwrap(), stats)];
    match status_response(&list, true) {
        CommandResponse::Info { short, details } => {
            assert_eq!("Tunnels: 1", short);
            let lines = details.expect("long form carries lines");
            assert_eq!(
                "127.0.0.1:3333 = open conns 1, total conns 2, bytes sent 6, received 7, total errors 0",
                lines[0]
            );
        },
        other => panic!("unexpected response {:?}", other),
    }
    match status_response(&list, false) {
        CommandResponse::Info { details, .. } => assert!(details.is_none()),
        other => panic!("unexpected response {:?}", other),
    }

    let mut rs = RemoteStats::default();
    rs.total_connections = 5;
    rs.num_errors = 1;
    rs.total_errors = 3;
    let remotes = vec![(SocketSpec::parse("good:1").unwrap(), rs)];
    match detail_response(&remotes) {
        CommandResponse::Info { short, details } => {
            assert_eq!("Remotes: 1", short);
            assert_eq!(
                "good:1 = open conns 0, total conns 5, bytes sent 0, received 0, recent errors 1, total errors 3",
                details.unwrap()[0]
            );
        },
        other => panic!("unexpected response {:?}", other),
    }

    match help_response() {
        CommandResponse::Info { short, details } => {
            assert_eq!("commands", short);
            assert_eq!(6, details.unwrap().len());
        },
        other => panic!("unexpected response {:?}", other),
    }
}

#[test]
fn strategy_names() {
    assert!(matches!(
        TunnelLBStrategy::from_name("random"),
        Ok(TunnelLBStrategy::Random)
    ));
    assert!(matches!(
        TunnelLBStrategy::from_name("Round-Robin"),
        Ok(TunnelLBStrategy::RoundRobin)
    ));
    assert!(matches!(
        TunnelLBStrategy::from_name("round_robin"),
        Ok(TunnelLBStrategy::RoundRobin)
    ));
    assert!(matches!(
        TunnelLBStrategy::from_name("minimum-open-connections"),
        Ok(TunnelLBStrategy::MinimumOpenConnections)
    ));
    assert!(matches!(
        TunnelLBStrategy::from_name("minopenconnections"),
        Ok(TunnelLBStrategy::MinimumOpenConnections)
    ));
    assert!(matches!(
        TunnelLBStrategy::from_name("fastest"),
        Err(Error::InvalidLBStrategy)
    ));
    assert_eq!("round-robin", TunnelLBStrategy::RoundRobin.name());
    assert_eq!("random", TunnelLBStrategy::default().name());
}
