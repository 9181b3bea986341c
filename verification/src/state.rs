//! The process-wide tunnel registry: one entry per local listener, each
//! holding that tunnel's counters, remote tables and options.  Every
//! mutation and query the other components use goes through here.
//!
//! The surrounding runtime serializes access to the registry in short
//! per-entry critical sections that never suspend; these methods express
//! each such critical section as one verified step.
use vstd::prelude::*;

pub mod info;
pub mod stats;
pub mod strategy;

use crate::config::Config;
use crate::error::Error;
use crate::tunnel::{keys_of, SockKey, SocketSpec, Tunnel, TunnelOptions, TunnelRemoteOptions};
use self::info::{
    dedup_first, find_key, has_key, index_of_key, lemma_index_of_key_unique, unique_keys,
    CloseSignal, DeadRemote, ProberHandle, RemoteInfo, TunnelInfo,
};
use self::stats::{RemoteStats, TunnelStats};
use self::strategy::{rr_next, spec_load, TunnelLBStrategy};

verus! {

/// A snapshot of one tunnel for the control surfaces.
#[derive(Clone, Copy, Debug, PartialEq, Eq, Structural)]
pub struct TunnelInfoView {
    pub stats: TunnelStats,
    pub num_remotes: usize,
    pub num_dead_remotes: usize,
    pub options: TunnelOptions,
}

/// An instruction to the runtime to schedule a liveness probe of a dead
/// remote: sleep `delay_ms`, attempt a plain connection bounded by
/// `timeout_ms`, and report the outcome back under `handle`.
#[derive(Debug)]
pub struct ProbeRequest {
    pub handle: ProberHandle,
    pub remote: SocketSpec,
    pub delay_ms: u64,
    pub timeout_ms: u64,
    pub tls: bool,
}

/// The registry: the tunnels keyed by their local socket, the configuration
/// snapshot, and the counter naming prober tasks.
#[derive(Debug)]
pub struct State {
    pub tunnels: Vec<(SocketSpec, TunnelInfo)>,
    pub config: Config,
    pub next_prober_id: u64,
}

/// The two registries hold the same tunnels under the same keys, and every
/// tunnel but `k`'s is untouched.
pub open spec fn same_tunnels_except(
    pre: Seq<(SocketSpec, TunnelInfo)>,
    post: Seq<(SocketSpec, TunnelInfo)>,
    k: SockKey,
) -> bool {
    &&& post.len() == pre.len()
    &&& forall|i: int|
        0 <= i < pre.len() ==> (#[trigger] post[i]).0 == (#[trigger] pre[i]).0 && (pre[i].0@ != k
            ==> post[i].1 == pre[i].1)
}

/// Replacing one tunnel's state under an unchanged key keeps the registry
/// well formed and leaves every other tunnel untouched.
proof fn lemma_update_entry_wf(
    pre: Seq<(SocketSpec, TunnelInfo)>,
    post: Seq<(SocketSpec, TunnelInfo)>,
    i: int,
)
    requires
        unique_keys(pre),
        forall|j: int| 0 <= j < pre.len() ==> (#[trigger] pre[j]).1.wf(),
        post.len() == pre.len(),
        0 <= i < pre.len(),
        forall|j: int| 0 <= j < pre.len() && j != i ==> #[trigger] post[j] == pre[j],
        post[i].0 == pre[i].0,
        post[i].1.wf(),
    ensures
        unique_keys(post),
        forall|j: int| 0 <= j < post.len() ==> (#[trigger] post[j]).1.wf(),
        same_tunnels_except(pre, post, pre[i].0@),
{
    assert forall|a: int, b: int| 0 <= a < b < post.len() implies (#[trigger] post[a]).0@ != (
    #[trigger] post[b]).0@ by {
        assert(post[a].0 == pre[a].0);
        assert(post[b].0 == pre[b].0);
    }
}

impl State {
    /// Every key appears once and every tunnel's own tables are well
    /// formed.
    pub open spec fn wf(&self) -> bool {
        &&& unique_keys(self.tunnels@)
        &&& forall|i: int| 0 <= i < self.tunnels@.len() ==> (#[trigger] self.tunnels@[i]).1.wf()
    }

    pub open spec fn has_tunnel(&self, k: SockKey) -> bool {
        has_key(self.tunnels@, k)
    }

    /// The tunnel registered under `k`.
    pub open spec fn tunnel_at(&self, k: SockKey) -> TunnelInfo {
        self.tunnels@[index_of_key(self.tunnels@, k)].1
    }

    /// A fresh registry over the given configuration snapshot.
    pub fn new(config: Config) -> (r: State)
        ensures
            r.wf(),
            r.tunnels@.len() == 0,
            r.config == config,
    {
        State { tunnels: Vec::new(), config, next_prober_id: 0 }
    }

    pub fn tunnel_exists(&self, tunnel: &SocketSpec) -> (r: bool)
        ensures
            r == self.has_tunnel(tunnel@),
    {
        match find_key(&self.tunnels, tunnel) {
            Some(i) => {
                proof {
                    assert(self.has_tunnel(tunnel@));
                }
                true
            },
            None => false,
        }
    }

    pub fn number_of_tunnels(&self) -> (r: usize)
        ensures
            r == self.tunnels@.len(),
    {
        self.tunnels.len()
    }

    /// A snapshot of the registered local sockets, in registration order.
    pub fn list_tunnels(&self) -> (r: Vec<SocketSpec>)
        ensures
            r@.len() == self.tunnels@.len(),
            forall|i: int| 0 <= i < r@.len() ==> (#[trigger] r@[i])@ == self.tunnels@[i].0@,
    {
        let mut out: Vec<SocketSpec> = Vec::new();
        let mut i: usize = 0;
        while i < self.tunnels.len()
            invariant
                i <= self.tunnels@.len(),
                out@.len() == i,
                forall|j: int| 0 <= j < i ==> (#[trigger] out@[j])@ == self.tunnels@[j].0@,
            decreases self.tunnels@.len() - i,
        {
            out.push(self.tunnels[i].0.clone());
            i += 1;
        }
        out
    }

    /// Registers a tunnel under its local socket.  The tunnel's remotes
    /// start zeroed (later duplicates dropped); options left unset fall
    /// back to the configuration's defaults.  Fails if the local socket is
    /// taken.
    pub fn add_tunnel(&mut self, tunnel: Tunnel, close_channel: CloseSignal) -> (r: Result<
        (),
        Error,
    >)
        requires
            old(self).wf(),
        ensures
            final(self).wf(),
            final(self).config == old(self).config,
            match r {
                Ok(_) => {
                    let entry = final(self).tunnels@.last();
                    &&& !old(self).has_tunnel(tunnel.local@)
                    &&& final(self).tunnels@.len() == old(self).tunnels@.len() + 1
                    &&& final(self).tunnels@.take(old(self).tunnels@.len() as int) == old(
                        self,
                    ).tunnels@
                    &&& entry.0@ == tunnel.local@
                    &&& entry.1.stats == TunnelStats::spec_default()
                    &&& entry.1.close_channel == close_channel
                    &&& entry.1.options == (match tunnel.options {
                        Some(o) => o,
                        None => old(self).config.spec_default_tunnel_options(),
                    })
                    &&& entry.1.remote_keys() == dedup_first(keys_of(tunnel.remote@))
                    &&& entry.1.dead_remotes@.len() == 0
                    &&& entry.1.last_selected_index is None
                    &&& final(self).has_tunnel(tunnel.local@)
                },
                Err(e) => e is TunnelExists && old(self).has_tunnel(tunnel.local@) && *final(self)
                    == *old(self),
            },
    {
        match find_key(&self.tunnels, &tunnel.local) {
            Some(i) => {
                proof {
                    assert(old(self).has_tunnel(tunnel.local@));
                }
                Err(Error::TunnelExists)
            },
            None => {
                let options = match tunnel.options {
                    Some(o) => o,
                    None => self.config.default_tunnel_options(),
                };
                let info = TunnelInfo::new(close_channel, tunnel.remote, options);
                let entry = (tunnel.local, info);
                self.tunnels.push(entry);
                proof {
                    let n = old(self).tunnels@.len() as int;
                    assert(self.tunnels@.take(n) =~= old(self).tunnels@);
                    assert(self.tunnels@.last().0@ == tunnel.local@);
                    assert(self.has_tunnel(tunnel.local@));
                    assert forall|i: int, j: int| 0 <= i < j < self.tunnels@.len() implies (
                    #[trigger] self.tunnels@[i]).0@ != (#[trigger] self.tunnels@[j]).0@ by {
                        if j == n {
                            assert(!has_key(old(self).tunnels@, tunnel.local@));
                            assert(old(self).tunnels@[i].0@ != tunnel.local@);
                        }
                    }
                }
                Ok(())
            },
        }
    }

    /// Removes and returns the tunnel registered under `local`.  The caller
    /// owns the returned state: it must fire the close signal and abort the
    /// probers named in its dead table.  Fails if no such tunnel exists.
    pub fn remove_tunnel(&mut self, local: &SocketSpec) -> (r: Result<TunnelInfo, Error>)
        requires
            old(self).wf(),
        ensures
            final(self).wf(),
            final(self).config == old(self).config,
            match r {
                Ok(ti) => {
                    &&& old(self).has_tunnel(local@)
                    &&& ti == old(self).tunnel_at(local@)
                    &&& final(self).tunnels@ == old(self).tunnels@.remove(
                        index_of_key(old(self).tunnels@, local@),
                    )
                    &&& !final(self).has_tunnel(local@)
                },
                Err(e) => e is TunnelDoesNotExist && !old(self).has_tunnel(local@) && *final(self)
                    == *old(self),
            },
    {
        match find_key(&self.tunnels, local) {
            Some(i) => {
                proof {
                    lemma_index_of_key_unique(self.tunnels@, local@, i as int);
                }
                let entry = self.tunnels.remove(i);
                proof {
                    assert(!self.has_tunnel(local@)) by {
                        if self.has_tunnel(local@) {
                            let j = choose|j: int|
                                0 <= j < self.tunnels@.len() && (#[trigger] self.tunnels@[j]).0@
                                    == local@;
                            if j < i {
                                assert(old(self).tunnels@[j].0@ == local@);
                            } else {
                                assert(old(self).tunnels@[j + 1].0@ == local@);
                            }
                        }
                    }
                }
                Ok(entry.1)
            },
            None => Err(Error::TunnelDoesNotExist),
        }
    }

    /// Picks a remote of the tunnel for a new client connection and marks a
    /// pending stream on it.  Reports `TunnelDoesNotExist` for an unknown
    /// tunnel and `NoRemote` for a tunnel whose live table is empty; on any
    /// other input it succeeds.
    pub fn select_remote(&mut self, tunnel_key: &SocketSpec) -> (r: Result<
        (SocketSpec, TunnelRemoteOptions),
        Error,
    >)
        requires
            old(self).wf(),
        ensures
            final(self).wf(),
            final(self).config == old(self).config,
            match r {
                Ok((remote, opts)) => {
                    let pre = old(self).tunnel_at(tunnel_key@);
                    let post = final(self).tunnel_at(tunnel_key@);
                    let n = pre.remotes@.len();
                    &&& old(self).has_tunnel(tunnel_key@)
                    &&& same_tunnels_except(old(self).tunnels@, final(self).tunnels@, tunnel_key@)
                    &&& n > 0
                    &&& opts == pre.options.options
                    &&& post.last_selected_index matches Some(idx)
                    &&& (idx as int) < n
                    &&& remote@ == pre.remotes@[post.last_selected_index.unwrap() as int].0@
                    &&& post.remotes@ == pre.remotes@.update(
                        post.last_selected_index.unwrap() as int,
                        (
                            pre.remotes@[post.last_selected_index.unwrap() as int].0,
                            RemoteInfo {
                                stats: pre.remotes@[post.last_selected_index.unwrap() as int].1.stats.spec_new_pending_stream(),
                            },
                        ),
                    )
                    &&& post.stats == pre.stats
                    &&& post.dead_remotes == pre.dead_remotes
                    &&& post.options == pre.options
                    &&& post.close_channel == pre.close_channel
                    &&& (n == 1 ==> post.last_selected_index == Some(0usize))
                    &&& (pre.options.lb_strategy == TunnelLBStrategy::RoundRobin && n > 1
                        ==> post.last_selected_index.unwrap() as int == rr_next(
                        pre.last_selected_index,
                        n as int,
                    ))
                    &&& (pre.options.lb_strategy == TunnelLBStrategy::MinimumOpenConnections && n
                        > 1 ==> {
                        let idx = post.last_selected_index.unwrap() as int;
                        &&& forall|j: int|
                            0 <= j < n ==> spec_load(pre.remotes@[idx].1.stats) <= spec_load(
                                (#[trigger] pre.remotes@[j]).1.stats,
                            )
                        &&& forall|j: int|
                            0 <= j < idx ==> spec_load((#[trigger] pre.remotes@[j]).1.stats)
                                > spec_load(pre.remotes@[idx].1.stats)
                    })
                },
                Err(e) => {
                    &&& final(self).tunnels@ == old(self).tunnels@
                    &&& final(self).next_prober_id == old(self).next_prober_id
                    &&& if !old(self).has_tunnel(tunnel_key@) {
                        e is TunnelDoesNotExist
                    } else {
                        e is NoRemote && old(self).tunnel_at(tunnel_key@).remotes@.len() == 0
                    }
                },
            },
    {
        let i = match find_key(&self.tunnels, tunnel_key) {
            Some(i) => i,
            None => {
                return Err(Error::TunnelDoesNotExist);
            },
        };
        proof {
            lemma_index_of_key_unique(self.tunnels@, tunnel_key@, i as int);
        }
        let mut entry = self.tunnels.remove(i);
        let selected = entry.1.select_remote();
        match selected {
            Ok(remote) => {
                let idx = match entry.1.last_selected_index {
                    Some(idx) => idx,
                    None => 0,
                };
                let mut rentry = entry.1.remotes.remove(idx);
                rentry.1.new_pending_stream();
                entry.1.remotes.insert(idx, rentry);
                let opts = entry.1.options.options;
                proof {
                    let pre = old(self).tunnel_at(tunnel_key@);
                    assert(entry.1.remotes@ =~= pre.remotes@.update(
                        idx as int,
                        entry.1.remotes@[idx as int],
                    ));
                }
                self.tunnels.insert(i, entry);
                proof {
                    assert(self.tunnels@ =~= old(self).tunnels@.update(
                        i as int,
                        self.tunnels@[i as int],
                    ));
                    lemma_index_of_key_unique(self.tunnels@, tunnel_key@, i as int);
                    let post = self.tunnel_at(tunnel_key@);
                    assert forall|a: int, b: int|
                        0 <= a < post.remotes@.len() && 0 <= b < post.dead_remotes@.len() implies (
                    #[trigger] post.remotes@[a]).0@ != (#[trigger] post.dead_remotes@[b]).0@ by {
                        let pre = old(self).tunnel_at(tunnel_key@);
                        assert(post.remotes@[a].0@ == pre.remotes@[a].0@);
                    }
                    assert(post.wf());
                }
                Ok((remote, opts))
            },
            Err(e) => {
                self.tunnels.insert(i, entry);
                proof {
                    assert(self.tunnels@ =~= old(self).tunnels@);
                }
                Err(e)
            },
        }
    }

    /// The retry budget of the tunnel's per-connection processor.
    pub fn remote_retries(&self, tunnel_key: &SocketSpec) -> (r: Result<u16, Error>)
        requires
            self.wf(),
        ensures
            match r {
                Ok(n) => self.has_tunnel(tunnel_key@) && n == self.tunnel_at(
                    tunnel_key@,
                ).options.remote_connect_retries,
                Err(e) => e is TunnelDoesNotExist && !self.has_tunnel(tunnel_key@),
            },
    {
        match find_key(&self.tunnels, tunnel_key) {
            Some(i) => {
                proof {
                    lemma_index_of_key_unique(self.tunnels@, tunnel_key@, i as int);
                }
                Ok(self.tunnels[i].1.options.remote_connect_retries)
            },
            None => Err(Error::TunnelDoesNotExist),
        }
    }

    /// Accounts a client arriving at the tunnel's listener; an unknown
    /// tunnel is a no-op, as the tunnel may have been removed meanwhile.
    pub fn client_connected(&mut self, local: &SocketSpec, _client_addr: &SocketSpec)
        requires
            old(self).wf(),
        ensures
            final(self).wf(),
            final(self).config == old(self).config,
            final(self).next_prober_id == old(self).next_prober_id,
            !old(self).has_tunnel(local@) ==> *final(self) == *old(self),
            old(self).has_tunnel(local@) ==> {
                &&& same_tunnels_except(old(self).tunnels@, final(self).tunnels@, local@)
                &&& final(self).has_tunnel(local@)
                &&& final(self).tunnel_at(local@) == (TunnelInfo {
                    stats: old(self).tunnel_at(local@).stats.spec_client_connected(),
                    ..old(self).tunnel_at(local@)
                })
            },
    {
        let i = match find_key(&self.tunnels, local) {
            Some(i) => i,
            None => {
                return ;
            },
        };
        proof {
            lemma_index_of_key_unique(self.tunnels@, local@, i as int);
        }
        let mut entry = self.tunnels.remove(i);
        entry.1.client_connected();
        self.tunnels.insert(i, entry);
        proof {
            assert(self.tunnels@ =~= old(self).tunnels@.update(i as int, self.tunnels@[i as int]));
            lemma_update_entry_wf(old(self).tunnels@, self.tunnels@, i as int);
            lemma_index_of_key_unique(self.tunnels@, local@, i as int);
        }
    }

    /// Accounts a client leaving the tunnel, and leaving its remote where
    /// one had been connected; unknown keys are no-ops.
    pub fn client_disconnected(
        &mut self,
        local: &SocketSpec,
        remote: Option<&SocketSpec>,
        _client_addr: &SocketSpec,
    )
        requires
            old(self).wf(),
        ensures
            final(self).wf(),
            final(self).config == old(self).config,
            final(self).next_prober_id == old(self).next_prober_id,
            !old(self).has_tunnel(local@) ==> *final(self) == *old(self),
            old(self).has_tunnel(local@) ==> {
                let pre = old(self).tunnel_at(local@);
                let post = final(self).tunnel_at(local@);
                &&& same_tunnels_except(old(self).tunnels@, final(self).tunnels@, local@)
                &&& final(self).has_tunnel(local@)
                &&& post.stats == pre.stats.spec_client_disconnected()
                &&& post.options == pre.options
                &&& post.close_channel == pre.close_channel
                &&& post.last_selected_index == pre.last_selected_index
                &&& post.dead_remotes == pre.dead_remotes
                &&& (match remote {
                    Some(rk) => if pre.has_remote(rk@) {
                        let ri = index_of_key(pre.remotes@, rk@);
                        post.remotes@ == pre.remotes@.update(
                            ri,
                            (
                                pre.remotes@[ri].0,
                                RemoteInfo {
                                    stats: pre.remotes@[ri].1.stats.spec_client_disconnected(),
                                },
                            ),
                        )
                    } else {
                        post.remotes == pre.remotes
                    },
                    None => post.remotes == pre.remotes,
                })
            },
    {
        let i = match find_key(&self.tunnels, local) {
            Some(i) => i,
            None => {
                return ;
            },
        };
        proof {
            lemma_index_of_key_unique(self.tunnels@, local@, i as int);
        }
        let mut entry = self.tunnels.remove(i);
        entry.1.client_disconnected();
        match remote {
            Some(rk) => {
                match find_key(&entry.1.remotes, rk) {
                    Some(ri) => {
                        proof {
                            lemma_index_of_key_unique(entry.1.remotes@, rk@, ri as int);
                        }
                        let mut rentry = entry.1.remotes.remove(ri);
                        rentry.1.client_disconnected();
                        entry.1.remotes.insert(ri, rentry);
                        proof {
                            assert(entry.1.remotes@ =~= old(self).tunnel_at(
                                local@,
                            ).remotes@.update(ri as int, entry.1.remotes@[ri as int]));
                        }
                    },
                    None => {},
                }
            },
            None => {},
        }
        self.tunnels.insert(i, entry);
        proof {
            assert(self.tunnels@ =~= old(self).tunnels@.update(i as int, self.tunnels@[i as int]));
            let pre = old(self).tunnel_at(local@);
            let post = self.tunnels@[i as int].1;
            assert(post.wf()) by {
                assert forall|a: int, b: int|
                    0 <= a < post.remotes@.len() && 0 <= b < post.dead_remotes@.len() implies (
                #[trigger] post.remotes@[a]).0@ != (#[trigger] post.dead_remotes@[b]).0@ by {
                    assert(post.remotes@[a].0@ == pre.remotes@[a].0@);
                }
                assert forall|a: int, b: int| 0 <= a < b < post.remotes@.len() implies (
                #[trigger] post.remotes@[a]).0@ != (#[trigger] post.remotes@[b]).0@ by {
                    assert(post.remotes@[a].0@ == pre.remotes@[a].0@);
                    assert(post.remotes@[b].0@ == pre.remotes@[b].0@);
                }
            }
            lemma_update_entry_wf(old(self).tunnels@, self.tunnels@, i as int);
            lemma_index_of_key_unique(self.tunnels@, local@, i as int);
        }
    }

    /// Accounts a successful connection to a remote of the tunnel: the
    /// remote's pending stream opens and its consecutive-error count
    /// resets.  Unknown keys are no-ops.
    pub fn remote_connected(&mut self, local: &SocketSpec, remote: &SocketSpec, _client_addr: &SocketSpec)
        requires
            old(self).wf(),
        ensures
            final(self).wf(),
            final(self).config == old(self).config,
            final(self).next_prober_id == old(self).next_prober_id,
            !old(self).has_tunnel(local@) ==> *final(self) == *old(self),
            old(self).has_tunnel(local@) ==> {
                let pre = old(self).tunnel_at(local@);
                let post = final(self).tunnel_at(local@);
                &&& same_tunnels_except(old(self).tunnels@, final(self).tunnels@, local@)
                &&& final(self).has_tunnel(local@)
                &&& post.stats == pre.stats
                &&& post.options == pre.options
                &&& post.close_channel == pre.close_channel
                &&& post.last_selected_index == pre.last_selected_index
                &&& post.dead_remotes == pre.dead_remotes
                &&& (if pre.has_remote(remote@) {
                    let ri = index_of_key(pre.remotes@, remote@);
                    &&& post.remotes@ == pre.remotes@.update(
                        ri,
                        (
                            pre.remotes@[ri].0,
                            RemoteInfo { stats: pre.remotes@[ri].1.stats.spec_remote_connected() },
                        ),
                    )
                    &&& post.remotes@[ri].1.stats.num_errors == 0
                } else {
                    post.remotes == pre.remotes
                })
            },
    {
        let i = match find_key(&self.tunnels, local) {
            Some(i) => i,
            None => {
                return ;
            },
        };
        proof {
            lemma_index_of_key_unique(self.tunnels@, local@, i as int);
        }
        let mut entry = self.tunnels.remove(i);
        match find_key(&entry.1.remotes, remote) {
            Some(ri) => {
                proof {
                    lemma_index_of_key_unique(entry.1.remotes@, remote@, ri as int);
                }
                let mut rentry = entry.1.remotes.remove(ri);
                rentry.1.remote_connected();
                entry.1.remotes.insert(ri, rentry);
                proof {
                    assert(entry.1.remotes@ =~= old(self).tunnel_at(local@).remotes@.update(
                        ri as int,
                        entry.1.remotes@[ri as int],
                    ));
                }
            },
            None => {},
        }
        self.tunnels.insert(i, entry);
        proof {
            assert(self.tunnels@ =~= old(self).tunnels@.update(i as int, self.tunnels@[i as int]));
            let pre = old(self).tunnel_at(local@);
            let post = self.tunnels@[i as int].1;
            assert(post.wf()) by {
                assert forall|a: int, b: int|
                    0 <= a < post.remotes@.len() && 0 <= b < post.dead_remotes@.len() implies (
                #[trigger] post.remotes@[a]).0@ != (#[trigger] post.dead_remotes@[b]).0@ by {
                    assert(post.remotes@[a].0@ == pre.remotes@[a].0@);
                }
                assert forall|a: int, b: int| 0 <= a < b < post.remotes@.len() implies (
                #[trigger] post.remotes@[a]).0@ != (#[trigger] post.remotes@[b]).0@ by {
                    assert(post.remotes@[a].0@ == pre.remotes@[a].0@);
                    assert(post.remotes@[b].0@ == pre.remotes@[b].0@);
                }
            }
            lemma_update_entry_wf(old(self).tunnels@, self.tunnels@, i as int);
            lemma_index_of_key_unique(self.tunnels@, local@, i as int);
        }
    }

    /// Accounts bytes moved through a stream of the tunnel, at the tunnel
    /// level and, where the remote is still live, at the remote level.
    pub fn update_transferred(
        &mut self,
        local: &SocketSpec,
        remote: &SocketSpec,
        sent: bool,
        bytes: u64,
        _client_addr: &SocketSpec,
    )
        requires
            old(self).wf(),
        ensures
            final(self).wf(),
            final(self).config == old(self).config,
            final(self).next_prober_id == old(self).next_prober_id,
            !old(self).has_tunnel(local@) ==> *final(self) == *old(self),
            old(self).has_tunnel(local@) ==> {
                let pre = old(self).tunnel_at(local@);
                let post = final(self).tunnel_at(local@);
                &&& same_tunnels_except(old(self).tunnels@, final(self).tunnels@, local@)
                &&& final(self).has_tunnel(local@)
                &&& post.stats == pre.stats.spec_moved_bytes(sent, bytes)
                &&& post.options == pre.options
                &&& post.close_channel == pre.close_channel
                &&& post.last_selected_index == pre.last_selected_index
                &&& post.dead_remotes == pre.dead_remotes
                &&& (if pre.has_remote(remote@) {
                    let ri = index_of_key(pre.remotes@, remote@);
                    post.remotes@ == pre.remotes@.update(
                        ri,
                        (
                            pre.remotes@[ri].0,
                            RemoteInfo {
                                stats: pre.remotes@[ri].1.stats.spec_moved_bytes(sent, bytes),
                            },
                        ),
                    )
                } else {
                    post.remotes == pre.remotes
                })
            },
    {
        let i = match find_key(&self.tunnels, local) {
            Some(i) => i,
            None => {
                return ;
            },
        };
        proof {
            lemma_index_of_key_unique(self.tunnels@, local@, i as int);
        }
        let mut entry = self.tunnels.remove(i);
        entry.1.update_moved_bytes(sent, bytes);
        match find_key(&entry.1.remotes, remote) {
            Some(ri) => {
                proof {
                    lemma_index_of_key_unique(entry.1.remotes@, remote@, ri as int);
                }
                let mut rentry = entry.1.remotes.remove(ri);
                rentry.1.update_moved_bytes(sent, bytes);
                entry.1.remotes.insert(ri, rentry);
                proof {
                    assert(entry.1.remotes@ =~= old(self).tunnel_at(local@).remotes@.update(
                        ri as int,
                        entry.1.remotes@[ri as int],
                    ));
                }
            },
            None => {},
        }
        self.tunnels.insert(i, entry);
        proof {
            assert(self.tunnels@ =~= old(self).tunnels@.update(i as int, self.tunnels@[i as int]));
            let pre = old(self).tunnel_at(local@);
            let post = self.tunnels@[i as int].1;
            assert(post.wf()) by {
                assert forall|a: int, b: int|
                    0 <= a < post.remotes@.len() && 0 <= b < post.dead_remotes@.len() implies (
                #[trigger] post.remotes@[a]).0@ != (#[trigger] post.dead_remotes@[b]).0@ by {
                    assert(post.remotes@[a].0@ == pre.remotes@[a].0@);
                }
                assert forall|a: int, b: int| 0 <= a < b < post.remotes@.len() implies (
                #[trigger] post.remotes@[a]).0@ != (#[trigger] post.remotes@[b]).0@ by {
                    assert(post.remotes@[a].0@ == pre.remotes@[a].0@);
                    assert(post.remotes@[b].0@ == pre.remotes@[b].0@);
                }
            }
            lemma_update_entry_wf(old(self).tunnels@, self.tunnels@, i as int);
            lemma_index_of_key_unique(self.tunnels@, local@, i as int);
        }
    }

    /// Accounts a failed connection attempt to a remote of the tunnel at
    /// `now_ms`.  The tunnel-level error counter always grows; where the
    /// remote is live its own counters grow too, and once its consecutive
    /// errors reach `options.errors_till_dead` it moves to the dead table.
    /// In that case the caller receives a request to schedule a liveness
    /// probe, whose handle the dead entry records.
    pub fn remote_error(
        &mut self,
        local: &SocketSpec,
        remote: &SocketSpec,
        client_addr: Option<&SocketSpec>,
        options: &TunnelRemoteOptions,
        now_ms: u64,
    ) -> (r: Option<ProbeRequest>)
        requires
            old(self).wf(),
        ensures
            final(self).wf(),
            final(self).config == old(self).config,
            !old(self).has_tunnel(local@) ==> *final(self) == *old(self) && r is None,
            old(self).has_tunnel(local@) ==> {
                let pre = old(self).tunnel_at(local@);
                let post = final(self).tunnel_at(local@);
                &&& same_tunnels_except(old(self).tunnels@, final(self).tunnels@, local@)
                &&& final(self).has_tunnel(local@)
                &&& post.stats == pre.stats.spec_remote_error()
                &&& post.options == pre.options
                &&& post.close_channel == pre.close_channel
                &&& post.last_selected_index == pre.last_selected_index
                &&& (if pre.has_remote(remote@) {
                    let ri = index_of_key(pre.remotes@, remote@);
                    let newstats = pre.remotes@[ri].1.stats.spec_error(client_addr is Some, now_ms);
                    if newstats.num_errors >= options.errors_till_dead {
                        &&& post.remotes@ == pre.remotes@.remove(ri)
                        &&& r matches Some(req)
                        &&& post.dead_remotes@ == pre.dead_remotes@.push(
                            (
                                pre.remotes@[ri].0,
                                DeadRemote {
                                    remote: RemoteInfo { stats: newstats },
                                    join_handle: Some(r.unwrap().handle),
                                },
                            ),
                        )
                        &&& req.remote@ == remote@
                        &&& req.delay_ms == options.dead_retry_ms
                        &&& req.timeout_ms == options.connect_timeout_ms
                        &&& req.tls == options.tls
                    } else {
                        &&& post.remotes@ == pre.remotes@.update(
                            ri,
                            (pre.remotes@[ri].0, RemoteInfo { stats: newstats }),
                        )
                        &&& post.dead_remotes == pre.dead_remotes
                        &&& r is None
                    }
                } else {
                    &&& post.remotes == pre.remotes
                    &&& post.dead_remotes == pre.dead_remotes
                    &&& r is None
                })
            },
    {
        let i = match find_key(&self.tunnels, local) {
            Some(i) => i,
            None => {
                return None;
            },
        };
        proof {
            lemma_index_of_key_unique(self.tunnels@, local@, i as int);
        }
        let mut entry = self.tunnels.remove(i);
        entry.1.remote_error();
        let mut result: Option<ProbeRequest> = None;
        match find_key(&entry.1.remotes, remote) {
            Some(ri) => {
                proof {
                    lemma_index_of_key_unique(entry.1.remotes@, remote@, ri as int);
                }
                let mut rentry = entry.1.remotes.remove(ri);
                rentry.1.error(client_addr.is_some(), now_ms);
                if rentry.1.stats.num_errors >= options.errors_till_dead {
                    let handle = ProberHandle { id: self.next_prober_id };
                    self.next_prober_id = self.next_prober_id.saturating_add(1);
                    let req = ProbeRequest {
                        handle,
                        remote: rentry.0.clone(),
                        delay_ms: options.dead_retry_ms,
                        timeout_ms: options.connect_timeout_ms,
                        tls: options.tls,
                    };
                    entry.1.dead_remotes.push(
                        (rentry.0, DeadRemote { remote: rentry.1, join_handle: Some(handle) }),
                    );
                    result = Some(req);
                } else {
                    entry.1.remotes.insert(ri, rentry);
                    proof {
                        assert(entry.1.remotes@ =~= old(self).tunnel_at(local@).remotes@.update(
                            ri as int,
                            entry.1.remotes@[ri as int],
                        ));
                    }
                }
            },
            None => {},
        }
        self.tunnels.insert(i, entry);
        proof {
            assert(self.tunnels@ =~= old(self).tunnels@.update(i as int, self.tunnels@[i as int]));
            let pre = old(self).tunnel_at(local@);
            let post = self.tunnels@[i as int].1;
            assert(post.wf()) by {
                if pre.has_remote(remote@) {
                    let ri = index_of_key(pre.remotes@, remote@);
                    if result is Some {
                        assert forall|a: int, b: int| 0 <= a < b < post.dead_remotes@.len() implies
                            (#[trigger] post.dead_remotes@[a]).0@ != (
                        #[trigger] post.dead_remotes@[b]).0@ by {
                            if b == post.dead_remotes@.len() - 1 {
                                assert(post.dead_remotes@[b].0@ == pre.remotes@[ri].0@);
                                assert(pre.dead_remotes@[a].0@ != pre.remotes@[ri].0@);
                            }
                        }
                        assert forall|a: int, b: int|
                            0 <= a < post.remotes@.len() && 0 <= b < post.dead_remotes@.len()
                            implies (#[trigger] post.remotes@[a]).0@ != (
                        #[trigger] post.dead_remotes@[b]).0@ by {
                            if a < ri {
                                assert(post.remotes@[a] == pre.remotes@[a]);
                            } else {
                                assert(post.remotes@[a] == pre.remotes@[a + 1]);
                            }
                            if b == post.dead_remotes@.len() - 1 {
                                assert(post.dead_remotes@[b].0@ == pre.remotes@[ri].0@);
                            }
                        }
                        assert forall|a: int, b: int| 0 <= a < b < post.remotes@.len() implies (
                        #[trigger] post.remotes@[a]).0@ != (#[trigger] post.remotes@[b]).0@ by {
                            let a2: int = if a < ri {
                                a
                            } else {
                                a + 1
                            };
                            let b2: int = if b < ri {
                                b
                            } else {
                                b + 1
                            };
                            assert(post.remotes@[a] == pre.remotes@[a2]);
                            assert(post.remotes@[b] == pre.remotes@[b2]);
                        }
                    } else {
                        assert forall|a: int, b: int|
                            0 <= a < post.remotes@.len() && 0 <= b < post.dead_remotes@.len()
                            implies (#[trigger] post.remotes@[a]).0@ != (
                        #[trigger] post.dead_remotes@[b]).0@ by {
                            assert(post.remotes@[a].0@ == pre.remotes@[a].0@);
                        }
                        assert forall|a: int, b: int| 0 <= a < b < post.remotes@.len() implies (
                        #[trigger] post.remotes@[a]).0@ != (#[trigger] post.remotes@[b]).0@ by {
                            assert(post.remotes@[a].0@ == pre.remotes@[a].0@);
                            assert(post.remotes@[b].0@ == pre.remotes@[b].0@);
                        }
                    }
                }
            }
            lemma_update_entry_wf(old(self).tunnels@, self.tunnels@, i as int);
            lemma_index_of_key_unique(self.tunnels@, local@, i as int);
        }
        result
    }

    /// A liveness probe succeeded: where the remote still sits in the dead
    /// table, moves it back to the live table with its consecutive-error
    /// count reset.  Reports whether the promotion happened.
    pub fn prober_promote(&mut self, local: &SocketSpec, remote: &SocketSpec) -> (r: bool)
        requires
            old(self).wf(),
        ensures
            final(self).wf(),
            final(self).config == old(self).config,
            final(self).next_prober_id == old(self).next_prober_id,
            r == (old(self).has_tunnel(local@) && old(self).tunnel_at(local@).has_dead(remote@)),
            !r ==> final(self).tunnels@ == old(self).tunnels@ && final(self).next_prober_id == old(
                self,
            ).next_prober_id,
            r ==> {
                let pre = old(self).tunnel_at(local@);
                let post = final(self).tunnel_at(local@);
                let di = index_of_key(pre.dead_remotes@, remote@);
                &&& same_tunnels_except(old(self).tunnels@, final(self).tunnels@, local@)
                &&& final(self).has_tunnel(local@)
                &&& post.stats == pre.stats
                &&& post.options == pre.options
                &&& post.close_channel == pre.close_channel
                &&& post.last_selected_index == pre.last_selected_index
                &&& post.dead_remotes@ == pre.dead_remotes@.remove(di)
                &&& post.remotes@ == pre.remotes@.push(
                    (
                        pre.dead_remotes@[di].0,
                        RemoteInfo { stats: pre.dead_remotes@[di].1.remote.stats.spec_remote_recovered() },
                    ),
                )
                &&& post.remotes@.last().1.stats.num_errors == 0
            },
    {
        let i = match find_key(&self.tunnels, local) {
            Some(i) => i,
            None => {
                return false;
            },
        };
        proof {
            lemma_index_of_key_unique(self.tunnels@, local@, i as int);
        }
        let mut entry = self.tunnels.remove(i);
        let di = match find_key(&entry.1.dead_remotes, remote) {
            Some(di) => di,
            None => {
                self.tunnels.insert(i, entry);
                proof {
                    assert(self.tunnels@ =~= old(self).tunnels@);
                }
                return false;
            },
        };
        proof {
            lemma_index_of_key_unique(entry.1.dead_remotes@, remote@, di as int);
        }
        let mut dentry = entry.1.dead_remotes.remove(di);
        dentry.1.remote.remote_recovered();
        entry.1.remotes.push((dentry.0, dentry.1.remote));
        self.tunnels.insert(i, entry);
        proof {
            assert(self.tunnels@ =~= old(self).tunnels@.update(i as int, self.tunnels@[i as int]));
            let pre = old(self).tunnel_at(local@);
            let post = self.tunnels@[i as int].1;
            assert(post.wf()) by {
                assert forall|a: int, b: int| 0 <= a < b < post.remotes@.len() implies (
                #[trigger] post.remotes@[a]).0@ != (#[trigger] post.remotes@[b]).0@ by {
                    if b == post.remotes@.len() - 1 {
                        assert(post.remotes@[b].0@ == pre.dead_remotes@[di as int].0@);
                        assert(post.remotes@[a] == pre.remotes@[a]);
                    }
                }
                assert forall|a: int, b: int|
                    0 <= a < post.remotes@.len() && 0 <= b < post.dead_remotes@.len() implies (
                #[trigger] post.remotes@[a]).0@ != (#[trigger] post.dead_remotes@[b]).0@ by {
                    let b2: int = if b < di {
                        b
                    } else {
                        b + 1
                    };
                    assert(post.dead_remotes@[b] == pre.dead_remotes@[b2]);
                    if a == post.remotes@.len() - 1 {
                        assert(post.remotes@[a].0@ == pre.dead_remotes@[di as int].0@);
                    } else {
                        assert(post.remotes@[a] == pre.remotes@[a]);
                    }
                }
                assert forall|a: int, b: int| 0 <= a < b < post.dead_remotes@.len() implies (
                #[trigger] post.dead_remotes@[a]).0@ != (#[trigger] post.dead_remotes@[b]).0@ by {
                    let a2: int = if a < di {
                        a
                    } else {
                        a + 1
                    };
                    let b2: int = if b < di {
                        b
                    } else {
                        b + 1
                    };
                    assert(post.dead_remotes@[a] == pre.dead_remotes@[a2]);
                    assert(post.dead_remotes@[b] == pre.dead_remotes@[b2]);
                }
            }
            lemma_update_entry_wf(old(self).tunnels@, self.tunnels@, i as int);
            lemma_index_of_key_unique(self.tunnels@, local@, i as int);
        }
        true
    }

    /// A liveness probe failed at `now_ms`: the tunnel's error counter
    /// grows and, where the remote still sits in the dead table, its
    /// counters grow and a fresh probe handle replaces the old one; the
    /// caller then re-arms its probe under the returned handle.
    pub fn prober_reschedule(&mut self, local: &SocketSpec, remote: &SocketSpec, now_ms: u64) -> (r:
        Option<ProberHandle>)
        requires
            old(self).wf(),
        ensures
            final(self).wf(),
            final(self).config == old(self).config,
            !old(self).has_tunnel(local@) ==> *final(self) == *old(self) && r is None,
            old(self).has_tunnel(local@) ==> {
                let pre = old(self).tunnel_at(local@);
                let post = final(self).tunnel_at(local@);
                &&& same_tunnels_except(old(self).tunnels@, final(self).tunnels@, local@)
                &&& final(self).has_tunnel(local@)
                &&& post.stats == pre.stats.spec_remote_error()
                &&& post.options == pre.options
                &&& post.close_channel == pre.close_channel
                &&& post.last_selected_index == pre.last_selected_index
                &&& post.remotes == pre.remotes
                &&& (if pre.has_dead(remote@) {
                    let di = index_of_key(pre.dead_remotes@, remote@);
                    &&& r matches Some(h)
                    &&& post.dead_remotes@ == pre.dead_remotes@.update(
                        di,
                        (
                            pre.dead_remotes@[di].0,
                            DeadRemote {
                                remote: RemoteInfo {
                                    stats: pre.dead_remotes@[di].1.remote.stats.spec_error(
                                        false,
                                        now_ms,
                                    ),
                                },
                                join_handle: Some(r.unwrap()),
                            },
                        ),
                    )
                } else {
                    post.dead_remotes == pre.dead_remotes && r is None
                })
            },
    {
        let i = match find_key(&self.tunnels, local) {
            Some(i) => i,
            None => {
                return None;
            },
        };
        proof {
            lemma_index_of_key_unique(self.tunnels@, local@, i as int);
        }
        let mut entry = self.tunnels.remove(i);
        entry.1.remote_error();
        let mut result: Option<ProberHandle> = None;
        match find_key(&entry.1.dead_remotes, remote) {
            Some(di) => {
                proof {
                    lemma_index_of_key_unique(entry.1.dead_remotes@, remote@, di as int);
                }
                let mut dentry = entry.1.dead_remotes.remove(di);
                dentry.1.remote.error(false, now_ms);
                let handle = ProberHandle { id: self.next_prober_id };
                self.next_prober_id = self.next_prober_id.saturating_add(1);
                dentry.1.join_handle = Some(handle);
                entry.1.dead_remotes.insert(di, dentry);
                result = Some(handle);
                proof {
                    assert(entry.1.dead_remotes@ =~= old(self).tunnel_at(
                        local@,
                    ).dead_remotes@.update(di as int, entry.1.dead_remotes@[di as int]));
                }
            },
            None => {},
        }
        self.tunnels.insert(i, entry);
        proof {
            assert(self.tunnels@ =~= old(self).tunnels@.update(i as int, self.tunnels@[i as int]));
            let pre = old(self).tunnel_at(local@);
            let post = self.tunnels@[i as int].1;
            assert(post.wf()) by {
                assert forall|a: int, b: int|
                    0 <= a < post.remotes@.len() && 0 <= b < post.dead_remotes@.len() implies (
                #[trigger] post.remotes@[a]).0@ != (#[trigger] post.dead_remotes@[b]).0@ by {
                    assert(post.dead_remotes@[b].0@ == pre.dead_remotes@[b].0@);
                }
                assert forall|a: int, b: int| 0 <= a < b < post.dead_remotes@.len() implies (
                #[trigger] post.dead_remotes@[a]).0@ != (#[trigger] post.dead_remotes@[b]).0@ by {
                    assert(post.dead_remotes@[a].0@ == pre.dead_remotes@[a].0@);
                    assert(post.dead_remotes@[b].0@ == pre.dead_remotes@[b].0@);
                }
            }
            lemma_update_entry_wf(old(self).tunnels@, self.tunnels@, i as int);
            lemma_index_of_key_unique(self.tunnels@, local@, i as int);
        }
        result
    }

    /// Adds a zeroed live remote to the tunnel.  Fails where the tunnel is
    /// unknown or the remote already appears in either table.
    pub fn add_remote_to_tunnel(&mut self, tunnel: &SocketSpec, remote: SocketSpec) -> (r: Result<
        (),
        Error,
    >)
        requires
            old(self).wf(),
        ensures
            final(self).wf(),
            final(self).config == old(self).config,
            final(self).next_prober_id == old(self).next_prober_id,
            match r {
                Ok(_) => {
                    let pre = old(self).tunnel_at(tunnel@);
                    let post = final(self).tunnel_at(tunnel@);
                    &&& old(self).has_tunnel(tunnel@)
                    &&& !pre.has_remote(remote@)
                    &&& !pre.has_dead(remote@)
                    &&& same_tunnels_except(old(self).tunnels@, final(self).tunnels@, tunnel@)
                    &&& final(self).has_tunnel(tunnel@)
                    &&& post.remotes@ == pre.remotes@.push(
                        (remote, RemoteInfo { stats: RemoteStats::spec_default() }),
                    )
                    &&& post.stats == pre.stats
                    &&& post.dead_remotes == pre.dead_remotes
                    &&& post.options == pre.options
                    &&& post.close_channel == pre.close_channel
                    &&& post.last_selected_index == pre.last_selected_index
                },
                Err(e) => {
                    &&& final(self).tunnels@ == old(self).tunnels@
                    &&& if !old(self).has_tunnel(tunnel@) {
                        e is TunnelDoesNotExist
                    } else {
                        e is RemoteExists && (old(self).tunnel_at(tunnel@).has_remote(remote@)
                            || old(self).tunnel_at(tunnel@).has_dead(remote@))
                    }
                },
            },
    {
        let i = match find_key(&self.tunnels, tunnel) {
            Some(i) => i,
            None => {
                return Err(Error::TunnelDoesNotExist);
            },
        };
        proof {
            lemma_index_of_key_unique(self.tunnels@, tunnel@, i as int);
        }
        let mut entry = self.tunnels.remove(i);
        let in_live = find_key(&entry.1.remotes, &remote).is_some();
        let in_dead = find_key(&entry.1.dead_remotes, &remote).is_some();
        if in_live || in_dead {
            self.tunnels.insert(i, entry);
            proof {
                assert(self.tunnels@ =~= old(self).tunnels@);
            }
            return Err(Error::RemoteExists);
        }
        entry.1.remotes.push((remote, RemoteInfo::new()));
        self.tunnels.insert(i, entry);
        proof {
            assert(self.tunnels@ =~= old(self).tunnels@.update(i as int, self.tunnels@[i as int]));
            let pre = old(self).tunnel_at(tunnel@);
            let post = self.tunnels@[i as int].1;
            assert(post.wf()) by {
                assert forall|a: int, b: int| 0 <= a < b < post.remotes@.len() implies (
                #[trigger] post.remotes@[a]).0@ != (#[trigger] post.remotes@[b]).0@ by {
                    if b == post.remotes@.len() - 1 {
                        assert(post.remotes@[a] == pre.remotes@[a]);
                        assert(!pre.has_remote(remote@));
                    }
                }
                assert forall|a: int, b: int|
                    0 <= a < post.remotes@.len() && 0 <= b < post.dead_remotes@.len() implies (
                #[trigger] post.remotes@[a]).0@ != (#[trigger] post.dead_remotes@[b]).0@ by {
                    if a == post.remotes@.len() - 1 {
                        assert(!pre.has_dead(remote@));
                    } else {
                        assert(post.remotes@[a] == pre.remotes@[a]);
                    }
                }
            }
            lemma_update_entry_wf(old(self).tunnels@, self.tunnels@, i as int);
            lemma_index_of_key_unique(self.tunnels@, tunnel@, i as int);
        }
        Ok(())
    }

    /// Removes a remote from whichever table holds it, returning its
    /// counters and, for a dead remote, the probe handle the caller must
    /// abort.  Fails where the tunnel is unknown or no table holds the
    /// remote.
    pub fn remove_remote_from_tunnel(&mut self, tunnel: &SocketSpec, remote: &SocketSpec) -> (r:
        Result<(RemoteInfo, Option<ProberHandle>), Error>)
        requires
            old(self).wf(),
        ensures
            final(self).wf(),
            final(self).config == old(self).config,
            final(self).next_prober_id == old(self).next_prober_id,
            match r {
                Ok((info, handle)) => {
                    let pre = old(self).tunnel_at(tunnel@);
                    let post = final(self).tunnel_at(tunnel@);
                    &&& old(self).has_tunnel(tunnel@)
                    &&& same_tunnels_except(old(self).tunnels@, final(self).tunnels@, tunnel@)
                    &&& final(self).has_tunnel(tunnel@)
                    &&& post.stats == pre.stats
                    &&& post.options == pre.options
                    &&& post.close_channel == pre.close_channel
                    &&& post.last_selected_index == pre.last_selected_index
                    &&& (if pre.has_remote(remote@) {
                        let ri = index_of_key(pre.remotes@, remote@);
                        &&& post.remotes@ == pre.remotes@.remove(ri)
                        &&& post.dead_remotes == pre.dead_remotes
                        &&& info == pre.remotes@[ri].1
                        &&& handle is None
                    } else {
                        let di = index_of_key(pre.dead_remotes@, remote@);
                        &&& pre.has_dead(remote@)
                        &&& post.dead_remotes@ == pre.dead_remotes@.remove(di)
                        &&& post.remotes == pre.remotes
                        &&& info == pre.dead_remotes@[di].1.remote
                        &&& handle == pre.dead_remotes@[di].1.join_handle
                    })
                },
                Err(e) => {
                    &&& final(self).tunnels@ == old(self).tunnels@
                    &&& if !old(self).has_tunnel(tunnel@) {
                        e is TunnelDoesNotExist
                    } else {
                        e is RemoteDoesNotExist && !old(self).tunnel_at(tunnel@).has_remote(remote@)
                            && !old(self).tunnel_at(tunnel@).has_dead(remote@)
                    }
                },
            },
    {
        let i = match find_key(&self.tunnels, tunnel) {
            Some(i) => i,
            None => {
                return Err(Error::TunnelDoesNotExist);
            },
        };
        proof {
            lemma_index_of_key_unique(self.tunnels@, tunnel@, i as int);
        }
        let mut entry = self.tunnels.remove(i);
        let result = match find_key(&entry.1.remotes, remote) {
            Some(ri) => {
                proof {
                    lemma_index_of_key_unique(entry.1.remotes@, remote@, ri as int);
                }
                let rentry = entry.1.remotes.remove(ri);
                Ok((rentry.1, None))
            },
            None => {
                match find_key(&entry.1.dead_remotes, remote) {
                    Some(di) => {
                        proof {
                            lemma_index_of_key_unique(entry.1.dead_remotes@, remote@, di as int);
                        }
                        let dentry = entry.1.dead_remotes.remove(di);
                        Ok((dentry.1.remote, dentry.1.join_handle))
                    },
                    None => Err(Error::RemoteDoesNotExist),
                }
            },
        };
        self.tunnels.insert(i, entry);
        proof {
            assert(self.tunnels@ =~= old(self).tunnels@.update(i as int, self.tunnels@[i as int]));
            let pre = old(self).tunnel_at(tunnel@);
            let post = self.tunnels@[i as int].1;
            if result is Err {
                assert(self.tunnels@ =~= old(self).tunnels@);
            }
            assert(post.wf()) by {
                if pre.has_remote(remote@) {
                    let ri = index_of_key(pre.remotes@, remote@);
                    assert forall|a: int, b: int| 0 <= a < b < post.remotes@.len() implies (
                    #[trigger] post.remotes@[a]).0@ != (#[trigger] post.remotes@[b]).0@ by {
                        let a2: int = if a < ri {
                            a
                        } else {
                            a + 1
                        };
                        let b2: int = if b < ri {
                            b
                        } else {
                            b + 1
                        };
                        assert(post.remotes@[a] == pre.remotes@[a2]);
                        assert(post.remotes@[b] == pre.remotes@[b2]);
                    }
                    assert forall|a: int, b: int|
                        0 <= a < post.remotes@.len() && 0 <= b < post.dead_remotes@.len() implies (
                    #[trigger] post.remotes@[a]).0@ != (#[trigger] post.dead_remotes@[b]).0@ by {
                        let a2: int = if a < ri {
                            a
                        } else {
                            a + 1
                        };
                        assert(post.remotes@[a] == pre.remotes@[a2]);
                    }
                } else if pre.has_dead(remote@) {
                    let di = index_of_key(pre.dead_remotes@, remote@);
                    assert forall|a: int, b: int| 0 <= a < b < post.dead_remotes@.len() implies (
                    #[trigger] post.dead_remotes@[a]).0@ != (#[trigger] post.dead_remotes@[b]).0@ by {
                        let a2: int = if a < di {
                            a
                        } else {
                            a + 1
                        };
                        let b2: int = if b < di {
                            b
                        } else {
                            b + 1
                        };
                        assert(post.dead_remotes@[a] == pre.dead_remotes@[a2]);
                        assert(post.dead_remotes@[b] == pre.dead_remotes@[b2]);
                    }
                    assert forall|a: int, b: int|
                        0 <= a < post.remotes@.len() && 0 <= b < post.dead_remotes@.len() implies (
                    #[trigger] post.remotes@[a]).0@ != (#[trigger] post.dead_remotes@[b]).0@ by {
                        let b2: int = if b < di {
                            b
                        } else {
                            b + 1
                        };
                        assert(post.dead_remotes@[b] == pre.dead_remotes@[b2]);
                    }
                }
            }
            lemma_update_entry_wf(old(self).tunnels@, self.tunnels@, i as int);
            lemma_index_of_key_unique(self.tunnels@, tunnel@, i as int);
        }
        result
    }

    /// A snapshot of every tunnel's aggregate counters.
    pub fn stats(&self) -> (r: Vec<(SocketSpec, TunnelStats)>)
        ensures
            r@.len() == self.tunnels@.len(),
            forall|i: int|
                0 <= i < r@.len() ==> (#[trigger] r@[i]).0@ == self.tunnels@[i].0@ && r@[i].1
                    == self.tunnels@[i].1.stats,
    {
        let mut out: Vec<(SocketSpec, TunnelStats)> = Vec::new();
        let mut i: usize = 0;
        while i < self.tunnels.len()
            invariant
                i <= self.tunnels@.len(),
                out@.len() == i,
                forall|j: int|
                    0 <= j < i ==> (#[trigger] out@[j]).0@ == self.tunnels@[j].0@ && out@[j].1
                        == self.tunnels@[j].1.stats,
            decreases self.tunnels@.len() - i,
        {
            let entry = (self.tunnels[i].0.clone(), self.tunnels[i].1.stats);
            out.push(entry);
            i += 1;
        }
        out
    }

    /// A snapshot of one tunnel for the control surfaces.
    pub fn info_to(&self, tunnel: &SocketSpec) -> (r: Result<TunnelInfoView, Error>)
        requires
            self.wf(),
        ensures
            match r {
                Ok(v) => {
                    let ti = self.tunnel_at(tunnel@);
                    &&& self.has_tunnel(tunnel@)
                    &&& v.stats == ti.stats
                    &&& v.num_remotes == ti.remotes@.len()
                    &&& v.num_dead_remotes == ti.dead_remotes@.len()
                    &&& v.options == ti.options
                },
                Err(e) => e is TunnelDoesNotExist && !self.has_tunnel(tunnel@),
            },
    {
        match find_key(&self.tunnels, tunnel) {
            Some(i) => {
                proof {
                    lemma_index_of_key_unique(self.tunnels@, tunnel@, i as int);
                }
                let ti = &self.tunnels[i].1;
                Ok(
                    TunnelInfoView {
                        stats: ti.stats,
                        num_remotes: ti.remotes.len(),
                        num_dead_remotes: ti.dead_remotes.len(),
                        options: ti.options,
                    },
                )
            },
            None => Err(Error::TunnelDoesNotExist),
        }
    }

    /// A snapshot of the tunnel's live remotes and their counters, with the
    /// number of its dead remotes.
    pub fn remotes(&self, local: &SocketSpec) -> (r: Result<
        (Vec<(SocketSpec, RemoteStats)>, usize),
        Error,
    >)
        requires
            self.wf(),
        ensures
            match r {
                Ok((list, dead)) => {
                    let ti = self.tunnel_at(local@);
                    &&& self.has_tunnel(local@)
                    &&& list@.len() == ti.remotes@.len()
                    &&& forall|i: int|
                        0 <= i < list@.len() ==> (#[trigger] list@[i]).0@ == ti.remotes@[i].0@
                            && list@[i].1 == ti.remotes@[i].1.stats
                    &&& dead == ti.dead_remotes@.len()
                },
                Err(e) => e is TunnelDoesNotExist && !self.has_tunnel(local@),
            },
    {
        match find_key(&self.tunnels, local) {
            Some(i) => {
                proof {
                    lemma_index_of_key_unique(self.tunnels@, local@, i as int);
                }
                let ti = &self.tunnels[i].1;
                let mut list: Vec<(SocketSpec, RemoteStats)> = Vec::new();
                let mut j: usize = 0;
                while j < ti.remotes.len()
                    invariant
                        j <= ti.remotes@.len(),
                        list@.len() == j,
                        forall|m: int|
                            0 <= m < j ==> (#[trigger] list@[m]).0@ == ti.remotes@[m].0@
                                && list@[m].1 == ti.remotes@[m].1.stats,
                    decreases ti.remotes@.len() - j,
                {
                    let entry = (ti.remotes[j].0.clone(), ti.remotes[j].1.stats);
                    list.push(entry);
                    j += 1;
                }
                Ok((list, ti.dead_remotes.len()))
            },
            None => Err(Error::TunnelDoesNotExist),
        }
    }

    /// The tunnel's options.
    pub fn tunnel_options(&self, local: &SocketSpec) -> (r: Result<TunnelOptions, Error>)
        requires
            self.wf(),
        ensures
            match r {
                Ok(o) => self.has_tunnel(local@) && o == self.tunnel_at(local@).options,
                Err(e) => e is TunnelDoesNotExist && !self.has_tunnel(local@),
            },
    {
        match find_key(&self.tunnels, local) {
            Some(i) => {
                proof {
                    lemma_index_of_key_unique(self.tunnels@, local@, i as int);
                }
                Ok(self.tunnels[i].1.options)
            },
            None => Err(Error::TunnelDoesNotExist),
        }
    }

    /// The per-direction buffer size of the copy engine.
    pub fn copy_buffer_size(&self) -> (r: usize)
        ensures
            r == self.config.copy_buffer_size,
    {
        self.config.copy_buffer_size
    }

    /// The configured default timeout for establishing a remote connection.
    pub fn establish_remote_connection_timeout(&self) -> (r: u64)
        ensures
            r == self.config.remote_timeout_ms,
    {
        self.config.remote_timeout_ms
    }

    /// The configured default retry budget per client connection.
    pub fn establish_remote_connection_retries(&self) -> (r: u16)
        ensures
            r == self.config.remote_retries,
    {
        self.config.remote_retries
    }
}

} // verus!
