//! Per-tunnel in-memory state: the live and dead remote tables, the close
//! signal, the strategy state, and the per-remote counters.
//!
//! Both remote tables are association lists that keep insertion order (the
//! round-robin strategy depends on it) with unique keys, and a tunnel's two
//! tables never share a remote.
use vstd::prelude::*;

use crate::error::Error;
use crate::state::stats::{RemoteStats, TunnelStats};
use crate::state::strategy::{
    rr_next, spec_load, MinimumOpenConnections, Random, RoundRobin, TunnelLBStrategy,
};
use crate::tunnel::{keys_of, SockKey, SocketSpec, TunnelOptions};

verus! {

/// The producer side of a tunnel's close signal, named by the token the
/// surrounding runtime registered for it.
#[derive(Clone, Copy, Debug, PartialEq, Eq, Structural)]
pub struct CloseSignal {
    pub id: u64,
}

/// A handle naming one scheduled dead-remote probe task, so that removing
/// the tunnel or the remote can abort it.
#[derive(Clone, Copy, Debug, PartialEq, Eq, Structural)]
pub struct ProberHandle {
    pub id: u64,
}

/// Counters of one live remote.
#[derive(Clone, Copy, Debug, PartialEq, Eq, Structural)]
pub struct RemoteInfo {
    pub stats: RemoteStats,
}

impl RemoteInfo {
    pub fn new() -> (r: RemoteInfo)
        ensures
            r.stats == RemoteStats::spec_default(),
    {
        RemoteInfo { stats: RemoteStats::default() }
    }

    /// Marks one selected-but-not-yet-connected stream.
    pub fn new_pending_stream(&mut self)
        ensures
            final(self).stats == old(self).stats.spec_new_pending_stream(),
    {
        self.stats.new_pending_stream();
    }

    /// Records a successful connection; the consecutive-error count resets.
    pub fn remote_connected(&mut self)
        ensures
            final(self).stats == old(self).stats.spec_remote_connected(),
            final(self).stats.num_errors == 0,
    {
        self.stats.remote_connected();
    }

    /// Records a failed connection attempt at `now_ms`; an attempt made for
    /// a client releases its pending stream.
    pub fn error(&mut self, from_client: bool, now_ms: u64)
        ensures
            final(self).stats == old(self).stats.spec_error(from_client, now_ms),
    {
        self.stats.error(from_client, now_ms);
    }

    /// Records the prober finding the remote live again.
    pub fn remote_recovered(&mut self)
        ensures
            final(self).stats == old(self).stats.spec_remote_recovered(),
            final(self).stats.num_errors == 0,
    {
        self.stats.remote_recovered();
    }

    pub fn update_moved_bytes(&mut self, sent: bool, bytes: u64)
        ensures
            final(self).stats == old(self).stats.spec_moved_bytes(sent, bytes),
    {
        self.stats.update_moved_bytes(sent, bytes);
    }

    pub fn client_disconnected(&mut self)
        ensures
            final(self).stats == old(self).stats.spec_client_disconnected(),
    {
        self.stats.client_disconnected();
    }
}

/// A remote currently excluded from selection, with the handle of its
/// latest probe task.
#[derive(Clone, Copy, Debug, PartialEq, Eq, Structural)]
pub struct DeadRemote {
    pub remote: RemoteInfo,
    pub join_handle: Option<ProberHandle>,
}

/// The keys of an association list.
pub open spec fn pair_keys<T>(s: Seq<(SocketSpec, T)>) -> Seq<SockKey> {
    s.map_values(|p: (SocketSpec, T)| p.0@)
}

/// No two entries of the association list share a key.
pub open spec fn unique_keys<T>(s: Seq<(SocketSpec, T)>) -> bool {
    forall|i: int, j: int|
        0 <= i < j < s.len() ==> (#[trigger] s[i]).0@ != (#[trigger] s[j]).0@
}

/// Whether some entry of the association list has the key.
pub open spec fn has_key<T>(s: Seq<(SocketSpec, T)>, k: SockKey) -> bool {
    exists|i: int| 0 <= i < s.len() && (#[trigger] s[i]).0@ == k
}

/// The index of the entry with the key.
pub open spec fn index_of_key<T>(s: Seq<(SocketSpec, T)>, k: SockKey) -> int {
    choose|i: int| 0 <= i < s.len() && (#[trigger] s[i]).0@ == k
}

/// Under unique keys the entry of a key sits at exactly one index, and
/// `index_of_key` names it.
pub proof fn lemma_index_of_key_unique<T>(s: Seq<(SocketSpec, T)>, k: SockKey, i: int)
    requires
        unique_keys(s),
        0 <= i < s.len(),
        s[i].0@ == k,
    ensures
        has_key(s, k),
        index_of_key(s, k) == i,
{
    assert(has_key(s, k));
    let j = index_of_key(s, k);
    if j != i {
        if j < i {
            assert(s[j].0@ != s[i].0@);
        } else {
            assert(s[i].0@ != s[j].0@);
        }
    }
}

/// Looks a key up in an association list, returning the index of its entry.
pub fn find_key<T>(v: &Vec<(SocketSpec, T)>, key: &SocketSpec) -> (r: Option<usize>)
    ensures
        match r {
            Some(i) => i < v@.len() && v@[i as int].0@ == key@ && forall|j: int|
                0 <= j < i ==> (#[trigger] v@[j]).0@ != key@,
            None => !has_key(v@, key@),
        },
{
    let mut i: usize = 0;
    while i < v.len()
        invariant
            i <= v@.len(),
            forall|j: int| 0 <= j < i ==> (#[trigger] v@[j]).0@ != key@,
        decreases v@.len() - i,
    {
        if v[i].0 == *key {
            return Some(i);
        }
        i += 1;
    }
    None
}

/// The keys of a target list with every later duplicate dropped: each key
/// keeps its first position.
pub open spec fn dedup_first(ks: Seq<SockKey>) -> Seq<SockKey>
    decreases ks.len(),
{
    if ks.len() == 0 {
        Seq::<SockKey>::empty()
    } else {
        let rest = dedup_first(ks.drop_last());
        if rest.contains(ks.last()) {
            rest
        } else {
            rest.push(ks.last())
        }
    }
}

pub proof fn lemma_dedup_first_contains(ks: Seq<SockKey>, k: SockKey)
    ensures
        dedup_first(ks).contains(k) == ks.contains(k),
    decreases ks.len(),
{
    if ks.len() > 0 {
        lemma_dedup_first_contains(ks.drop_last(), k);
        let rest = dedup_first(ks.drop_last());
        if ks.contains(k) {
            let i = choose|i: int| 0 <= i < ks.len() && ks[i] == k;
            if i < ks.len() - 1 {
                assert(ks.drop_last()[i] == k);
                assert(ks.drop_last().contains(k));
                if rest.contains(k) {
                    if !rest.contains(ks.last()) {
                        let ri = choose|ri: int| 0 <= ri < rest.len() && rest[ri] == k;
                        assert(dedup_first(ks)[ri] == k);
                    }
                }
            } else {
                assert(ks.last() == k);
                if rest.contains(ks.last()) {
                    assert(dedup_first(ks) == rest);
                } else {
                    assert(dedup_first(ks).last() == k);
                }
            }
            assert(dedup_first(ks).contains(k));
        } else {
            assert(!ks.drop_last().contains(k)) by {
                if ks.drop_last().contains(k) {
                    let i = choose|i: int| 0 <= i < ks.drop_last().len() && ks.drop_last()[i] == k;
                    assert(ks[i] == k);
                }
            }
            assert(ks.last() != k) by {
                if ks.last() == k {
                    assert(ks[ks.len() - 1] == k);
                }
            }
            assert(!dedup_first(ks).contains(k)) by {
                if dedup_first(ks).contains(k) {
                    let i = choose|i: int|
                        0 <= i < dedup_first(ks).len() && dedup_first(ks)[i] == k;
                    if !rest.contains(ks.last()) && i == rest.len() {
                        assert(dedup_first(ks)[i] == ks.last());
                    } else {
                        assert(rest[i] == k);
                        assert(rest.contains(k));
                    }
                }
            }
        }
    }
}

/// The state of one tunnel: aggregate counters, the close signal, the live
/// and dead remote tables, the options, and the round-robin cursor.
#[derive(Debug)]
pub struct TunnelInfo {
    pub stats: TunnelStats,
    pub close_channel: CloseSignal,
    pub remotes: Vec<(SocketSpec, RemoteInfo)>,
    pub dead_remotes: Vec<(SocketSpec, DeadRemote)>,
    pub options: TunnelOptions,
    pub last_selected_index: Option<usize>,
}

impl TunnelInfo {
    pub open spec fn remote_keys(&self) -> Seq<SockKey> {
        pair_keys(self.remotes@)
    }

    pub open spec fn dead_keys(&self) -> Seq<SockKey> {
        pair_keys(self.dead_remotes@)
    }

    pub open spec fn has_remote(&self, k: SockKey) -> bool {
        has_key(self.remotes@, k)
    }

    pub open spec fn has_dead(&self, k: SockKey) -> bool {
        has_key(self.dead_remotes@, k)
    }

    /// The tunnel's tables are well formed: keys are unique in each table,
    /// and no remote is both live and dead.
    pub open spec fn wf(&self) -> bool {
        &&& unique_keys(self.remotes@)
        &&& unique_keys(self.dead_remotes@)
        &&& forall|i: int, j: int|
            0 <= i < self.remotes@.len() && 0 <= j < self.dead_remotes@.len() ==> (
            #[trigger] self.remotes@[i]).0@ != (#[trigger] self.dead_remotes@[j]).0@
    }

    /// Installs a fresh tunnel: zeroed counters, the given remotes (each a
    /// zeroed entry, later duplicates dropped), no dead remotes, no
    /// selection made yet.
    pub fn new(close_channel: CloseSignal, remotes: Vec<SocketSpec>, options: TunnelOptions) -> (r:
        TunnelInfo)
        ensures
            r.wf(),
            r.stats == TunnelStats::spec_default(),
            r.close_channel == close_channel,
            r.options == options,
            r.last_selected_index is None,
            r.dead_remotes@.len() == 0,
            r.remote_keys() == dedup_first(keys_of(remotes@)),
            forall|i: int|
                0 <= i < r.remotes@.len() ==> (#[trigger] r.remotes@[i]).1.stats
                    == RemoteStats::spec_default(),
    {
        let mut table: Vec<(SocketSpec, RemoteInfo)> = Vec::new();
        let mut i: usize = 0;
        while i < remotes.len()
            invariant
                i <= remotes@.len(),
                pair_keys(table@) == dedup_first(keys_of(remotes@).take(i as int)),
                unique_keys(table@),
                forall|j: int|
                    0 <= j < table@.len() ==> (#[trigger] table@[j]).1.stats
                        == RemoteStats::spec_default(),
            decreases remotes@.len() - i,
        {
            let ghost prefix = keys_of(remotes@).take(i as int);
            let ghost now = keys_of(remotes@).take(i + 1 as int);
            proof {
                assert(now.drop_last() =~= prefix);
                assert(now.last() == remotes@[i as int]@);
                lemma_dedup_first_contains(prefix, remotes@[i as int]@);
            }
            match find_key(&table, &remotes[i]) {
                Some(fi) => {
                    proof {
                        assert(pair_keys(table@)[fi as int] == table@[fi as int].0@);
                        assert(pair_keys(table@).contains(remotes@[i as int]@));
                        assert(prefix.contains(remotes@[i as int]@));
                    }
                },
                None => {
                    proof {
                        assert(!prefix.contains(remotes@[i as int]@)) by {
                            if prefix.contains(remotes@[i as int]@) {
                                let pi = choose|pi: int|
                                    0 <= pi < pair_keys(table@).len() && pair_keys(table@)[pi]
                                        == remotes@[i as int]@;
                                assert(table@[pi].0@ == remotes@[i as int]@);
                                assert(has_key(table@, remotes@[i as int]@));
                            }
                        }
                    }
                    let entry = (remotes[i].clone(), RemoteInfo::new());
                    table.push(entry);
                    proof {
                        assert(pair_keys(table@) =~= dedup_first(prefix).push(
                            remotes@[i as int]@,
                        ));
                    }
                },
            }
            i += 1;
        }
        proof {
            assert(keys_of(remotes@).take(remotes@.len() as int) =~= keys_of(remotes@));
        }
        TunnelInfo {
            stats: TunnelStats::default(),
            close_channel,
            remotes: table,
            dead_remotes: Vec::new(),
            options,
            last_selected_index: None,
        }
    }

    /// Picks a live remote for a new client connection.  One remote is
    /// returned directly; otherwise the configured strategy decides.  The
    /// chosen position is recorded for the next round-robin turn.
    pub fn select_remote(&mut self) -> (r: Result<SocketSpec, Error>)
        ensures
            final(self).stats == old(self).stats,
            final(self).close_channel == old(self).close_channel,
            final(self).remotes == old(self).remotes,
            final(self).dead_remotes == old(self).dead_remotes,
            final(self).options == old(self).options,
            old(self).wf() ==> final(self).wf(),
            match r {
                Ok(key) => {
                    let n = old(self).remotes@.len();
                    &&& n > 0
                    &&& final(self).last_selected_index matches Some(idx)
                    &&& idx < n
                    &&& key@ == old(self).remotes@[final(self).last_selected_index.unwrap() as int].0@
                    &&& (n == 1 ==> final(self).last_selected_index == Some(0usize))
                    &&& (old(self).options.lb_strategy == TunnelLBStrategy::RoundRobin && n > 1
                        ==> final(self).last_selected_index.unwrap() as int == rr_next(
                        old(self).last_selected_index,
                        n as int,
                    ))
                    &&& (old(self).options.lb_strategy == TunnelLBStrategy::MinimumOpenConnections
                        && n > 1 ==> {
                        let idx = final(self).last_selected_index.unwrap() as int;
                        &&& forall|j: int|
                            0 <= j < n ==> spec_load(old(self).remotes@[idx].1.stats) <= spec_load(
                                (#[trigger] old(self).remotes@[j]).1.stats,
                            )
                        &&& forall|j: int|
                            0 <= j < idx ==> spec_load((#[trigger] old(self).remotes@[j]).1.stats)
                                > spec_load(old(self).remotes@[idx].1.stats)
                    })
                },
                Err(e) => e is NoRemote && old(self).remotes@.len() == 0 && *final(self) == *old(
                    self,
                ),
            },
    {
        let size = self.remotes.len();
        let idx: usize = if size == 0 {
            return Err(Error::NoRemote);
        } else if size == 1 {
            0
        } else {
            match self.options.lb_strategy {
                TunnelLBStrategy::Random => {
                    let s = Random;
                    match s.select_remote(self) {
                        Ok(i) => i,
                        Err(e) => {
                            return Err(e);
                        },
                    }
                },
                TunnelLBStrategy::RoundRobin => {
                    let s = RoundRobin;
                    match s.select_remote(self) {
                        Ok(i) => i,
                        Err(e) => {
                            return Err(e);
                        },
                    }
                },
                TunnelLBStrategy::MinimumOpenConnections => {
                    let s = MinimumOpenConnections;
                    match s.select_remote(self) {
                        Ok(i) => i,
                        Err(e) => {
                            return Err(e);
                        },
                    }
                },
            }
        };
        self.last_selected_index = Some(idx);
        Ok(self.remotes[idx].0.clone())
    }

    /// Tunnel-level accounting of a client arriving.
    pub fn client_connected(&mut self)
        ensures
            *final(self) == (TunnelInfo {
                stats: old(self).stats.spec_client_connected(),
                ..*old(self)
            }),
    {
        self.stats.client_connected();
    }

    /// Tunnel-level accounting of a client leaving.
    pub fn client_disconnected(&mut self)
        ensures
            *final(self) == (TunnelInfo {
                stats: old(self).stats.spec_client_disconnected(),
                ..*old(self)
            }),
    {
        self.stats.client_disconnected();
    }

    /// Tunnel-level accounting of a failed remote connection.
    pub fn remote_error(&mut self)
        ensures
            *final(self) == (TunnelInfo {
                stats: old(self).stats.spec_remote_error(),
                ..*old(self)
            }),
    {
        self.stats.remote_error();
    }

    /// Tunnel-level accounting of bytes moved through a stream.
    pub fn update_moved_bytes(&mut self, sent: bool, bytes: u64)
        ensures
            *final(self) == (TunnelInfo {
                stats: old(self).stats.spec_moved_bytes(sent, bytes),
                ..*old(self)
            }),
    {
        self.stats.update_moved_bytes(sent, bytes);
    }
}

} // verus!
