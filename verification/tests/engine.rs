use plexy::config::Config;
use plexy::error::Error;
use plexy::state::info::CloseSignal;
use plexy::state::State;
use plexy::tunnel::{SocketSpec, Tunnel};
use plexy::{stop_tunnel, ConnAction, ConnState};

fn sock(text: &str) -> SocketSpec {
    SocketSpec::parse(text).expect("valid socket spec")
}

fn fresh_state() -> State {
    State::new(Config::default())
}

fn add(state: &mut State, spec: &str, signal: u64) -> SocketSpec {
    let t = Tunnel::parse(spec).expect("valid tunnel spec");
    let local = t.local.clone();
    state
        .add_tunnel(t, CloseSignal { id: signal })
        .expect("tunnel registers");
    local
}

#[test]
fn start_stop_tunnel() {
    let mut state = fresh_state();
    let local = add(&mut state, "3928=127.0.0.1:3927", 7);
    assert_eq!(1, state.number_of_tunnels());
    let closure = stop_tunnel(&local, &mut state).expect("stop succeeds");
    assert_eq!(7, closure.close_signal.id);
    assert!(closure.probers.is_empty());
    assert_eq!(0, state.number_of_tunnels());
}

#[test]
fn stop_twice_reports_missing() {
    let mut state = fresh_state();
    let local = add(&mut state, "12000=127.0.0.1:13000", 1);
    assert!(stop_tunnel(&local, &mut state).is_ok());
    assert!(matches!(
        stop_tunnel(&local, &mut state),
        Err(Error::TunnelDoesNotExist)
    ));
}

#[test]
fn add_twice_reports_exists() {
    let mut state = fresh_state();
    add(&mut state, "12001=127.0.0.1:13001", 1);
    let again = Tunnel::parse("12001=127.0.0.1:13001").unwrap();
    assert!(matches!(
        state.add_tunnel(again, CloseSignal { id: 2 }),
        Err(Error::TunnelExists)
    ));
    assert_eq!(1, state.number_of_tunnels());
}

#[test]
fn list_and_queries() {
    let mut state = fresh_state();
    let a = add(&mut state, "12002=127.0.0.1:13002", 1);
    let b = add(&mut state, "12003=127.0.0.1:13003,127.0.0.1:13004", 2);
    assert!(state.tunnel_exists(&a));
    assert!(!state.tunnel_exists(&sock("nowhere:1")));
    let listed = state.list_tunnels();
    assert_eq!(2, listed.len());
    assert_eq!(a, listed[0]);
    assert_eq!(b, listed[1]);

    let view = state.info_to(&b).expect("known tunnel");
    assert_eq!(2, view.num_remotes);
    assert_eq!(0, view.num_dead_remotes);
    assert_eq!(3, view.options.remote_connect_retries);
    assert_eq!(3, state.remote_retries(&b).unwrap());
    assert!(matches!(state.info_to(&sock("nowhere:9")), Err(Error::TunnelDoesNotExist)));

    let (remotes, dead) = state.remotes(&b).expect("known tunnel");
    assert_eq!(2, remotes.len());
    assert_eq!(0, dead);
    assert_eq!(13003, remotes[0].0.port());
    assert_eq!(0, remotes[0].1.total_connections);
}

#[test]
fn round_robin_dispatch() {
    let mut state = fresh_state();
    let local = add(&mut state, "12100=a:1,b:1,c:1[strategy=round-robin]", 1);
    let mut picked = Vec::new();
    for _ in 0..4 {
        let (remote, _opts) = state.select_remote(&local).expect("remote available");
        picked.push(remote.host().to_string());
    }
    assert_eq!(vec!["a", "b", "c", "a"], picked);
}

#[test]
fn minimum_open_connections_prefers_idle() {
    let mut state = fresh_state();
    let local = add(&mut state, "12400=a:1,b:1[strategy=minimum-open-connections]", 1);
    let a = sock("a:1");
    let client = sock("10.0.0.1:50000");
    // Load the first remote with three open streams.
    for _ in 0..3 {
        state.remote_connected(&local, &a, &client);
    }
    let (remote, _opts) = state.select_remote(&local).expect("remote available");
    assert_eq!("b", remote.host());
}

#[test]
fn random_selection_stays_in_range() {
    let mut state = fresh_state();
    let local = add(&mut state, "12403=a:1,b:1,c:1[strategy=random]", 1);
    for _ in 0..20 {
        let (remote, _opts) = state.select_remote(&local).expect("remote available");
        assert!(["a", "b", "c"].contains(&remote.host()));
    }
}

#[test]
fn single_remote_fast_path() {
    let mut state = fresh_state();
    let local = add(&mut state, "12401=only:9[strategy=round-robin]", 1);
    for _ in 0..3 {
        let (remote, opts) = state.select_remote(&local).expect("remote available");
        assert_eq!("only", remote.host());
        assert_eq!(10000, opts.connect_timeout_ms);
    }
    let (remotes, _) = state.remotes(&local).unwrap();
    assert_eq!(3, remotes[0].1.streams_pending);
}

#[test]
fn select_remote_errors() {
    let mut state = fresh_state();
    assert!(matches!(
        state.select_remote(&sock("nowhere:5")),
        Err(Error::TunnelDoesNotExist)
    ));
    let local = add(&mut state, "12402=gone:1", 1);
    let gone = sock("gone:1");
    state
        .remove_remote_from_tunnel(&local, &gone)
        .expect("remote removed");
    assert!(matches!(state.select_remote(&local), Err(Error::NoRemote)));
}

#[test]
fn one_error_moves_remote_to_dead() {
    let mut state = fresh_state();
    let local = add(&mut state, "12300=bad:1", 1);
    let bad = sock("bad:1");
    let client = sock("10.0.0.1:50001");
    let opts = state.tunnel_options(&local).unwrap().options;
    assert_eq!(1, opts.errors_till_dead);
    let req = state
        .remote_error(&local, &bad, Some(&client), &opts, 1000)
        .expect("one error kills the remote");
    assert_eq!("bad", req.remote.host());
    assert_eq!(10000, req.delay_ms);
    assert_eq!(10000, req.timeout_ms);
    assert!(!req.tls);
    let (remotes, dead) = state.remotes(&local).unwrap();
    assert!(remotes.is_empty());
    assert_eq!(1, dead);
    // A second error for the now-dead remote only bumps the tunnel counter.
    assert!(state
        .remote_error(&local, &bad, Some(&client), &opts, 2000)
        .is_none());
}

#[test]
fn threshold_above_one_keeps_remote_alive() {
    let mut state = fresh_state();
    let local = add(&mut state, "12301=flaky:1[errors=2]", 1);
    let flaky = sock("flaky:1");
    let client = sock("10.0.0.1:50002");
    let opts = state.tunnel_options(&local).unwrap().options;
    assert!(state
        .remote_error(&local, &flaky, Some(&client), &opts, 1000)
        .is_none());
    let (remotes, dead) = state.remotes(&local).unwrap();
    assert_eq!(1, remotes.len());
    assert_eq!(0, dead);
    assert_eq!(1, remotes[0].1.num_errors);
    assert_eq!(Some(1000), remotes[0].1.last_error_time);
    assert!(state
        .remote_error(&local, &flaky, Some(&client), &opts, 2000)
        .is_some());
    let (remotes, dead) = state.remotes(&local).unwrap();
    assert!(remotes.is_empty());
    assert_eq!(1, dead);
}

#[test]
fn prober_promotes_dead_remote() {
    let mut state = fresh_state();
    let local = add(&mut state, "12302=bad:1", 1);
    let bad = sock("bad:1");
    let client = sock("10.0.0.1:50003");
    let opts = state.tunnel_options(&local).unwrap().options;
    state
        .remote_error(&local, &bad, Some(&client), &opts, 1000)
        .expect("remote dies");
    // A failed probe re-arms under a fresh handle and stays dead.
    let handle = state.prober_reschedule(&local, &bad, 2000);
    assert!(handle.is_some());
    let (remotes, dead) = state.remotes(&local).unwrap();
    assert!(remotes.is_empty());
    assert_eq!(1, dead);
    // A successful probe promotes the remote with its errors cleared.
    assert!(state.prober_promote(&local, &bad));
    let (remotes, dead) = state.remotes(&local).unwrap();
    assert_eq!(1, remotes.len());
    assert_eq!(0, dead);
    assert_eq!(0, remotes[0].1.num_errors);
    assert_eq!(2, remotes[0].1.total_errors);
    // Promoting again finds nothing dead.
    assert!(!state.prober_promote(&local, &bad));
}

#[test]
fn remove_dead_remote_hands_out_prober() {
    let mut state = fresh_state();
    let local = add(&mut state, "12303=bad:1", 1);
    let bad = sock("bad:1");
    let client = sock("10.0.0.1:50004");
    let opts = state.tunnel_options(&local).unwrap().options;
    let req = state
        .remote_error(&local, &bad, Some(&client), &opts, 1000)
        .expect("remote dies");
    let (info, handle) = state
        .remove_remote_from_tunnel(&local, &bad)
        .expect("dead remote removed");
    assert_eq!(1, info.stats.num_errors);
    assert_eq!(Some(req.handle), handle);
    assert!(matches!(
        state.remove_remote_from_tunnel(&local, &bad),
        Err(Error::RemoteDoesNotExist)
    ));
}

#[test]
fn stop_tunnel_collects_probers() {
    let mut state = fresh_state();
    let local = add(&mut state, "12304=bad:1,worse:1[errors=1]", 1);
    let client = sock("10.0.0.1:50005");
    let opts = state.tunnel_options(&local).unwrap().options;
    state
        .remote_error(&local, &sock("bad:1"), Some(&client), &opts, 1000)
        .expect("first remote dies");
    state
        .remote_error(&local, &sock("worse:1"), Some(&client), &opts, 1000)
        .expect("second remote dies");
    let closure = stop_tunnel(&local, &mut state).expect("stop succeeds");
    assert_eq!(2, closure.probers.len());
}

#[test]
fn add_and_remove_remote() {
    let mut state = fresh_state();
    let local = add(&mut state, "12305=first:1", 1);
    state
        .add_remote_to_tunnel(&local, sock("second:2"))
        .expect("new remote joins");
    assert!(matches!(
        state.add_remote_to_tunnel(&local, sock("second:2")),
        Err(Error::RemoteExists)
    ));
    let (remotes, _) = state.remotes(&local).unwrap();
    assert_eq!(2, remotes.len());
    assert_eq!("second", remotes[1].0.host());
    let (info, handle) = state
        .remove_remote_from_tunnel(&local, &sock("first:1"))
        .expect("live remote removed");
    assert_eq!(0, info.stats.total_errors);
    assert!(handle.is_none());
    assert!(matches!(
        state.add_remote_to_tunnel(&sock("nowhere:9"), sock("x:1")),
        Err(Error::TunnelDoesNotExist)
    ));
}

#[test]
fn stream_accounting_over_one_connection() {
    let mut state = fresh_state();
    let local = add(&mut state, "12000=127.0.0.1:13000", 1);
    let remote = sock("127.0.0.1:13000");
    let client = sock("10.0.0.1:50006");

    state.client_connected(&local, &client);
    let (picked, _opts) = state.select_remote(&local).expect("remote available");
    assert_eq!(remote, picked);
    state.remote_connected(&local, &picked, &client);
    state.update_transferred(&local, &picked, true, 6, &client);
    state.update_transferred(&local, &picked, false, 6, &client);
    state.client_disconnected(&local, Some(&picked), &client);

    let stats = state.stats();
    assert_eq!(1, stats.len());
    let tunnel_stats = stats[0].1;
    assert_eq!(6, tunnel_stats.bytes_sent);
    assert_eq!(6, tunnel_stats.bytes_received);
    assert_eq!(0, tunnel_stats.streams_open);
    assert_eq!(1, tunnel_stats.total_connections);
    assert_eq!(0, tunnel_stats.errors);

    let (remotes, _) = state.remotes(&local).unwrap();
    let rs = remotes[0].1;
    assert_eq!(1, rs.total_connections);
    assert_eq!(0, rs.streams_pending);
    assert_eq!(0, rs.streams_open);
    assert_eq!(0, rs.num_errors);
    assert_eq!(6, rs.bytes_sent);
    assert_eq!(6, rs.bytes_received);
}

#[test]
fn connection_processor_with_no_retries_gives_up() {
    let conn = ConnState::begin(0);
    assert_eq!(ConnAction::Disconnect, conn.next_action());
    assert!(conn.last_remote.is_none());
}

#[test]
fn connection_processor_retry_budget() {
    let mut conn = ConnState::begin(2);
    assert_eq!(ConnAction::SelectRemote, conn.next_action());
    conn.on_connect_failed();
    assert_eq!(ConnAction::SelectRemote, conn.next_action());
    conn.on_connect_failed();
    assert_eq!(ConnAction::Disconnect, conn.next_action());
    assert!(conn.last_remote.is_none());

    let mut conn = ConnState::begin(2);
    conn.on_connect_failed();
    conn.on_connect_success(SocketSpec::parse("good:1").unwrap());
    assert_eq!(ConnAction::Disconnect, conn.next_action());
    assert_eq!("good", conn.last_remote.as_ref().unwrap().host());

    let mut conn = ConnState::begin(3);
    conn.on_select_failed();
    assert_eq!(ConnAction::Disconnect, conn.next_action());
    assert!(conn.last_remote.is_none());
}

#[test]
fn duplicate_remotes_collapse() {
    let mut state = fresh_state();
    let local = add(&mut state, "12306=twice:1,twice:1,once:2", 1);
    let (remotes, _) = state.remotes(&local).unwrap();
    assert_eq!(2, remotes.len());
    assert_eq!("twice", remotes[0].0.host());
    assert_eq!("once", remotes[1].0.host());
}
