//! A dynamic multi-tunnel TCP reverse proxy engine.
//!
//! The crate holds the verified core of the proxy: the socket and tunnel
//! text grammar, the load-balancing strategies, the tunnel registry with its
//! per-tunnel counters and remote health state machine, the decision logic of
//! the per-connection processor, and the byte-accounting state machine of the
//! bidirectional copy engine.  Listening, connecting, TLS and timers live in
//! the surrounding (unverified) binary, which drives these functions and
//! performs the actions they return.
use vstd::prelude::*;

pub mod aio;
pub mod config;
pub mod error;
pub mod protocol;
pub mod state;
pub mod text;
pub mod tunnel;

use crate::error::Error;
use crate::state::info::{has_key, index_of_key, unique_keys, CloseSignal, ProberHandle, TunnelInfo};
use crate::state::State;
use crate::tunnel::{SockKey, SocketSpec};

verus! {

/// What removing a tunnel obliges the runtime to do: fire the close signal
/// so the accept loop and the in-flight copies unwind, and abort the probe
/// tasks of the dead remotes.
#[derive(Debug)]
pub struct TunnelClosure {
    pub close_signal: CloseSignal,
    pub probers: Vec<ProberHandle>,
}

/// The probe handles held by a dead-remote table.
pub open spec fn prober_handles_of(
    dead: Seq<(SocketSpec, crate::state::info::DeadRemote)>,
) -> Seq<ProberHandle>
    decreases dead.len(),
{
    if dead.len() == 0 {
        Seq::<ProberHandle>::empty()
    } else {
        let rest = prober_handles_of(dead.drop_last());
        match dead.last().1.join_handle {
            Some(h) => rest.push(h),
            None => rest,
        }
    }
}

/// Unregisters the tunnel and hands back its close signal and the probe
/// handles to abort.  Fails with `TunnelDoesNotExist` exactly when no
/// tunnel listens on `local`.
pub fn stop_tunnel(local: &SocketSpec, state: &mut State) -> (r: Result<TunnelClosure, Error>)
    requires
        old(state).wf(),
    ensures
        final(state).wf(),
        final(state).config == old(state).config,
        match r {
            Ok(c) => {
                &&& old(state).has_tunnel(local@)
                &&& !final(state).has_tunnel(local@)
                &&& final(state).tunnels@ == old(state).tunnels@.remove(
                    index_of_key(old(state).tunnels@, local@),
                )
                &&& c.close_signal == old(state).tunnel_at(local@).close_channel
                &&& c.probers@ == prober_handles_of(old(state).tunnel_at(local@).dead_remotes@)
            },
            Err(e) => e is TunnelDoesNotExist && !old(state).has_tunnel(local@) && *final(state)
                == *old(state),
        },
{
    let info = match state.remove_tunnel(local) {
        Ok(info) => info,
        Err(e) => {
            return Err(e);
        },
    };
    let mut probers: Vec<ProberHandle> = Vec::new();
    let mut i: usize = 0;
    while i < info.dead_remotes.len()
        invariant
            i <= info.dead_remotes@.len(),
            probers@ == prober_handles_of(info.dead_remotes@.take(i as int)),
        decreases info.dead_remotes@.len() - i,
    {
        proof {
            let upto = info.dead_remotes@.take((i + 1) as int);
            assert(upto.drop_last() =~= info.dead_remotes@.take(i as int));
            assert(upto.last() == info.dead_remotes@[i as int]);
        }
        match info.dead_remotes[i].1.join_handle {
            Some(h) => {
                probers.push(h);
            },
            None => {},
        }
        i += 1;
    }
    proof {
        assert(info.dead_remotes@.take(info.dead_remotes@.len() as int) =~= info.dead_remotes@);
    }
    Ok(TunnelClosure { close_signal: info.close_channel, probers })
}

/// Stopping the same tunnel twice: the first removal takes the local out
/// of the registry, so a second stop of the same local is bound to report
/// `TunnelDoesNotExist`.
pub proof fn lemma_stop_tunnel_twice(pre: Seq<(SocketSpec, TunnelInfo)>, local: SockKey)
    requires
        unique_keys(pre),
        has_key(pre, local),
    ensures
        !has_key(pre.remove(index_of_key(pre, local)), local),
{
    let i = index_of_key(pre, local);
    let post = pre.remove(i);
    if has_key(post, local) {
        let j = choose|j: int| 0 <= j < post.len() && (#[trigger] post[j]).0@ == local;
        if j < i {
            assert(pre[j].0@ == local);
            assert(pre[i].0@ == local);
        } else {
            assert(pre[j + 1].0@ == local);
            assert(pre[i].0@ == local);
        }
    }
}

/// Registering the same local twice: a successful registration leaves the
/// local in the registry, so a second registration of the same local is
/// bound to report `TunnelExists`.
pub proof fn lemma_add_tunnel_twice(
    pre: Seq<(SocketSpec, TunnelInfo)>,
    post: Seq<(SocketSpec, TunnelInfo)>,
    local: SockKey,
)
    requires
        post.len() == pre.len() + 1,
        post.last().0@ == local,
    ensures
        has_key(post, local),
{
    assert(post[post.len() - 1].0@ == local);
}

/// The decision core of the per-connection processor: how many remote
/// attempts are left and which remote, if any, the client ended up
/// connected to.  The runtime performs the connects and copies; this state
/// decides what to do next.
#[derive(Debug)]
pub struct ConnState {
    pub retries_left: u16,
    pub last_remote: Option<SocketSpec>,
    pub done: bool,
}

/// What the per-connection processor does next.
#[derive(Clone, Copy, Debug, PartialEq, Eq, Structural)]
pub enum ConnAction {
    /// Ask the registry for a remote and attempt to connect to it.
    SelectRemote,
    /// Account the client as disconnected and finish.
    Disconnect,
}

impl ConnState {
    /// Begins processing one accepted client with the tunnel's retry
    /// budget.
    pub fn begin(retries: u16) -> (r: ConnState)
        ensures
            r.retries_left == retries,
            r.last_remote is None,
            !r.done,
    {
        ConnState { retries_left: retries, last_remote: None, done: false }
    }

    /// The next step.  With no retries left the client is turned away at
    /// once: no remote is ever attempted.
    pub fn next_action(&self) -> (r: ConnAction)
        ensures
            r == (if self.done || self.retries_left == 0 {
                ConnAction::Disconnect
            } else {
                ConnAction::SelectRemote
            }),
            self.retries_left == 0 ==> r == ConnAction::Disconnect,
    {
        if self.done || self.retries_left == 0 {
            ConnAction::Disconnect
        } else {
            ConnAction::SelectRemote
        }
    }

    /// No live remote was available: give up without a remote to leave.
    pub fn on_select_failed(&mut self)
        ensures
            final(self).done,
            final(self).last_remote is None,
            final(self).retries_left == old(self).retries_left,
    {
        self.last_remote = None;
        self.done = true;
    }

    /// The remote connection stands: the splice runs next, and the remote
    /// is the one to leave at disconnect time.
    pub fn on_connect_success(&mut self, remote: SocketSpec)
        ensures
            final(self).done,
            final(self).last_remote matches Some(rk) && rk@ == remote@,
            final(self).retries_left == old(self).retries_left,
    {
        self.last_remote = Some(remote);
        self.done = true;
    }

    /// The connect attempt failed or timed out: one retry is spent.
    pub fn on_connect_failed(&mut self)
        requires
            old(self).retries_left > 0,
        ensures
            final(self).retries_left == old(self).retries_left - 1,
            final(self).last_remote == old(self).last_remote,
            final(self).done == old(self).done,
    {
        self.retries_left = self.retries_left - 1;
    }
}

} // verus!
