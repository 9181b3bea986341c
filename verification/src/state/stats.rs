//! Per-tunnel and per-remote counters, and the event model that ties the
//! counters to the history of connection events.
//!
//! All counters clamp at their type's maximum instead of wrapping; the
//! accounting lemmas below show that, for any event history short enough to
//! stay below the clamp, the counters equal the exact event counts.
use vstd::prelude::*;

use crate::tunnel::SockKey;

verus! {

/// Aggregate counters of one tunnel.
#[derive(Clone, Copy, Debug, PartialEq, Eq, Structural)]
pub struct TunnelStats {
    pub bytes_sent: u64,
    pub streams_open: usize,
    pub bytes_received: u64,
    pub total_connections: u64,
    pub errors: u64,
}

/// Counters of one remote of one tunnel.  `last_error_time` is kept as
/// milliseconds since the epoch, as handed in by the caller.
#[derive(Clone, Copy, Debug, PartialEq, Eq, Structural)]
pub struct RemoteStats {
    pub bytes_sent: u64,
    pub streams_open: usize,
    pub streams_pending: usize,
    pub bytes_received: u64,
    pub total_connections: u64,
    pub last_error_time: Option<u64>,
    pub num_errors: u64,
    pub total_errors: u64,
}

impl Default for TunnelStats {
    /// Fresh counters: everything at zero.
    fn default() -> (r: Self)
        ensures
            r == TunnelStats::spec_default(),
    {
        TunnelStats {
            bytes_sent: 0,
            streams_open: 0,
            bytes_received: 0,
            total_connections: 0,
            errors: 0,
        }
    }
}

impl Default for RemoteStats {
    /// Fresh counters: everything at zero, no error recorded yet.
    fn default() -> (r: Self)
        ensures
            r == RemoteStats::spec_default(),
    {
        RemoteStats {
            bytes_sent: 0,
            streams_open: 0,
            streams_pending: 0,
            bytes_received: 0,
            total_connections: 0,
            last_error_time: None,
            num_errors: 0,
            total_errors: 0,
        }
    }
}

/// Saturating increment of a 64-bit counter.
pub open spec fn inc64(n: u64) -> u64 {
    if n < u64::MAX {
        (n + 1) as u64
    } else {
        u64::MAX
    }
}

/// Saturating addition of a 64-bit counter.
pub open spec fn add64(n: u64, m: u64) -> u64 {
    if n + m <= u64::MAX {
        (n + m) as u64
    } else {
        u64::MAX
    }
}

/// Saturating increment of a machine-word counter.
pub open spec fn inc_usize(n: usize) -> usize {
    if n < usize::MAX {
        (n + 1) as usize
    } else {
        usize::MAX
    }
}

/// Saturating decrement of a machine-word counter.
pub open spec fn dec_usize(n: usize) -> usize {
    if n > 0 {
        (n - 1) as usize
    } else {
        0
    }
}

impl TunnelStats {
    /// Fresh counters: everything at zero.
    pub open spec fn spec_default() -> TunnelStats {
        TunnelStats {
            bytes_sent: 0,
            streams_open: 0,
            bytes_received: 0,
            total_connections: 0,
            errors: 0,
        }
    }

    /// The state of the tunnel counters after a client connects.
    pub open spec fn spec_client_connected(self) -> TunnelStats {
        TunnelStats {
            total_connections: inc64(self.total_connections),
            streams_open: inc_usize(self.streams_open),
            ..self
        }
    }

    /// The state of the tunnel counters after a client disconnects.
    pub open spec fn spec_client_disconnected(self) -> TunnelStats {
        TunnelStats { streams_open: dec_usize(self.streams_open), ..self }
    }

    /// The state of the tunnel counters after a remote connection error.
    pub open spec fn spec_remote_error(self) -> TunnelStats {
        TunnelStats { errors: inc64(self.errors), ..self }
    }

    /// The state of the tunnel counters after `bytes` moved through a stream.
    pub open spec fn spec_moved_bytes(self, sent: bool, bytes: u64) -> TunnelStats {
        if sent {
            TunnelStats { bytes_sent: add64(self.bytes_sent, bytes), ..self }
        } else {
            TunnelStats { bytes_received: add64(self.bytes_received, bytes), ..self }
        }
    }

    pub fn client_connected(&mut self)
        ensures
            *final(self) == old(self).spec_client_connected(),
    {
        self.total_connections = self.total_connections.saturating_add(1);
        self.streams_open = self.streams_open.saturating_add(1);
    }

    pub fn client_disconnected(&mut self)
        ensures
            *final(self) == old(self).spec_client_disconnected(),
    {
        self.streams_open = self.streams_open.saturating_sub(1);
    }

    pub fn remote_error(&mut self)
        ensures
            *final(self) == old(self).spec_remote_error(),
    {
        self.errors = self.errors.saturating_add(1);
    }

    pub fn update_moved_bytes(&mut self, sent: bool, bytes: u64)
        ensures
            *final(self) == old(self).spec_moved_bytes(sent, bytes),
    {
        if sent {
            self.bytes_sent = self.bytes_sent.saturating_add(bytes);
        } else {
            self.bytes_received = self.bytes_received.saturating_add(bytes);
        }
    }
}

impl RemoteStats {
    /// Fresh counters: everything at zero, no error recorded yet.
    pub open spec fn spec_default() -> RemoteStats {
        RemoteStats {
            bytes_sent: 0,
            streams_open: 0,
            streams_pending: 0,
            bytes_received: 0,
            total_connections: 0,
            last_error_time: None,
            num_errors: 0,
            total_errors: 0,
        }
    }

    /// The remote's counters after selection marked a stream pending.
    pub open spec fn spec_new_pending_stream(self) -> RemoteStats {
        RemoteStats { streams_pending: inc_usize(self.streams_pending), ..self }
    }

    /// The remote's counters after a connection to it succeeded: the pending
    /// stream opens and the consecutive-error count resets.
    pub open spec fn spec_remote_connected(self) -> RemoteStats {
        RemoteStats {
            streams_open: inc_usize(self.streams_open),
            total_connections: inc64(self.total_connections),
            streams_pending: dec_usize(self.streams_pending),
            num_errors: 0,
            ..self
        }
    }

    /// The remote's counters after a connection attempt failed at `now_ms`.
    /// A failed client attempt (`from_client`) also releases its pending
    /// stream; a prober attempt holds none.
    pub open spec fn spec_error(self, from_client: bool, now_ms: u64) -> RemoteStats {
        RemoteStats {
            total_errors: inc64(self.total_errors),
            num_errors: inc64(self.num_errors),
            last_error_time: Some(now_ms),
            streams_pending: if from_client {
                dec_usize(self.streams_pending)
            } else {
                self.streams_pending
            },
            ..self
        }
    }

    /// The remote's counters after a prober found it live again.
    pub open spec fn spec_remote_recovered(self) -> RemoteStats {
        RemoteStats { num_errors: 0, ..self }
    }

    /// The remote's counters after `bytes` moved through one of its streams.
    pub open spec fn spec_moved_bytes(self, sent: bool, bytes: u64) -> RemoteStats {
        if sent {
            RemoteStats { bytes_sent: add64(self.bytes_sent, bytes), ..self }
        } else {
            RemoteStats { bytes_received: add64(self.bytes_received, bytes), ..self }
        }
    }

    /// The remote's counters after the client of one of its streams left.
    pub open spec fn spec_client_disconnected(self) -> RemoteStats {
        RemoteStats { streams_open: dec_usize(self.streams_open), ..self }
    }

    pub fn new_pending_stream(&mut self)
        ensures
            *final(self) == old(self).spec_new_pending_stream(),
    {
        self.streams_pending = self.streams_pending.saturating_add(1);
    }

    pub fn remote_connected(&mut self)
        ensures
            *final(self) == old(self).spec_remote_connected(),
            final(self).num_errors == 0,
    {
        self.streams_open = self.streams_open.saturating_add(1);
        self.total_connections = self.total_connections.saturating_add(1);
        self.streams_pending = self.streams_pending.saturating_sub(1);
        self.num_errors = 0;
    }

    pub fn error(&mut self, from_client: bool, now_ms: u64)
        ensures
            *final(self) == old(self).spec_error(from_client, now_ms),
    {
        self.total_errors = self.total_errors.saturating_add(1);
        self.num_errors = self.num_errors.saturating_add(1);
        self.last_error_time = Some(now_ms);
        if from_client {
            self.streams_pending = self.streams_pending.saturating_sub(1);
        }
    }

    pub fn remote_recovered(&mut self)
        ensures
            *final(self) == old(self).spec_remote_recovered(),
            final(self).num_errors == 0,
    {
        self.num_errors = 0;
    }

    pub fn update_moved_bytes(&mut self, sent: bool, bytes: u64)
        ensures
            *final(self) == old(self).spec_moved_bytes(sent, bytes),
    {
        if sent {
            self.bytes_sent = self.bytes_sent.saturating_add(bytes);
        } else {
            self.bytes_received = self.bytes_received.saturating_add(bytes);
        }
    }

    pub fn client_disconnected(&mut self)
        ensures
            *final(self) == old(self).spec_client_disconnected(),
    {
        self.streams_open = self.streams_open.saturating_sub(1);
    }
}


/// One observable connection event of a tunnel, as the accounting laws
/// speak of them.
pub ghost enum TunnelEvent {
    /// A client connection was accepted on the tunnel's listener.
    ClientConnected,
    /// A client connection ended.
    ClientDisconnected,
    /// A connection to the named remote succeeded.
    RemoteConnected(SockKey),
}

/// The counters the events drive: the tunnel's aggregates and each
/// remote's counters, keyed by the remote.
pub ghost struct TunnelModel {
    pub stats: TunnelStats,
    pub remotes: Seq<(SockKey, RemoteStats)>,
}

pub open spec fn model_has_key(rs: Seq<(SockKey, RemoteStats)>, k: SockKey) -> bool {
    exists|i: int| 0 <= i < rs.len() && (#[trigger] rs[i]).0 == k
}

pub open spec fn model_key_index(rs: Seq<(SockKey, RemoteStats)>, k: SockKey) -> int {
    choose|i: int| 0 <= i < rs.len() && (#[trigger] rs[i]).0 == k
}

pub open spec fn model_unique_keys(rs: Seq<(SockKey, RemoteStats)>) -> bool {
    forall|i: int, j: int| 0 <= i < j < rs.len() ==> (#[trigger] rs[i]).0 != (#[trigger] rs[j]).0
}

/// How one event moves the counters: exactly the transitions the
/// registry's event sinks are proven to implement.
pub open spec fn apply_event(m: TunnelModel, e: TunnelEvent) -> TunnelModel {
    match e {
        TunnelEvent::ClientConnected => TunnelModel {
            stats: m.stats.spec_client_connected(),
            ..m
        },
        TunnelEvent::ClientDisconnected => TunnelModel {
            stats: m.stats.spec_client_disconnected(),
            ..m
        },
        TunnelEvent::RemoteConnected(k) => if model_has_key(m.remotes, k) {
            let i = model_key_index(m.remotes, k);
            TunnelModel {
                remotes: m.remotes.update(i, (k, m.remotes[i].1.spec_remote_connected())),
                ..m
            }
        } else {
            m
        },
    }
}

pub open spec fn apply_events(m: TunnelModel, es: Seq<TunnelEvent>) -> TunnelModel
    decreases es.len(),
{
    if es.len() == 0 {
        m
    } else {
        apply_event(apply_events(m, es.drop_last()), es.last())
    }
}

pub open spec fn count_client_connected(es: Seq<TunnelEvent>) -> int
    decreases es.len(),
{
    if es.len() == 0 {
        0
    } else {
        count_client_connected(es.drop_last()) + (if es.last() is ClientConnected {
            1int
        } else {
            0int
        })
    }
}

pub open spec fn count_client_disconnected(es: Seq<TunnelEvent>) -> int
    decreases es.len(),
{
    if es.len() == 0 {
        0
    } else {
        count_client_disconnected(es.drop_last()) + (if es.last() is ClientDisconnected {
            1int
        } else {
            0int
        })
    }
}

pub open spec fn count_remote_connected(es: Seq<TunnelEvent>) -> int
    decreases es.len(),
{
    if es.len() == 0 {
        0
    } else {
        count_remote_connected(es.drop_last()) + (if es.last() is RemoteConnected {
            1int
        } else {
            0int
        })
    }
}

/// The remotes' connection counters summed.
pub open spec fn sum_remote_connections(rs: Seq<(SockKey, RemoteStats)>) -> int
    decreases rs.len(),
{
    if rs.len() == 0 {
        0
    } else {
        sum_remote_connections(rs.drop_last()) + rs.last().1.total_connections
    }
}

proof fn lemma_counts_nonneg(es: Seq<TunnelEvent>)
    ensures
        0 <= count_client_connected(es),
        0 <= count_client_disconnected(es),
        0 <= count_remote_connected(es),
    decreases es.len(),
{
    if es.len() > 0 {
        lemma_counts_nonneg(es.drop_last());
    }
}

proof fn lemma_sum_update(rs: Seq<(SockKey, RemoteStats)>, i: int, v: (SockKey, RemoteStats))
    requires
        0 <= i < rs.len(),
    ensures
        sum_remote_connections(rs.update(i, v)) == sum_remote_connections(rs)
            - rs[i].1.total_connections + v.1.total_connections,
    decreases rs.len(),
{
    let upd = rs.update(i, v);
    if i == rs.len() - 1 {
        assert(upd.drop_last() =~= rs.drop_last());
        assert(upd.last() == v);
    } else {
        assert(upd.drop_last() =~= rs.drop_last().update(i, v));
        assert(upd.last() == rs.last());
        lemma_sum_update(rs.drop_last(), i, v);
    }
}

proof fn lemma_sum_bounds(rs: Seq<(SockKey, RemoteStats)>)
    ensures
        0 <= sum_remote_connections(rs),
        forall|j: int|
            0 <= j < rs.len() ==> (#[trigger] rs[j]).1.total_connections
                <= sum_remote_connections(rs),
    decreases rs.len(),
{
    if rs.len() > 0 {
        lemma_sum_bounds(rs.drop_last());
        assert forall|j: int|
            0 <= j < rs.len() implies (#[trigger] rs[j]).1.total_connections
            <= sum_remote_connections(rs) by {
            if j < rs.len() - 1 {
                assert(rs.drop_last()[j] == rs[j]);
            }
        }
    }
}

proof fn lemma_sum_zero(rs: Seq<(SockKey, RemoteStats)>)
    requires
        forall|j: int| 0 <= j < rs.len() ==> (#[trigger] rs[j]).1.total_connections == 0,
    ensures
        sum_remote_connections(rs) == 0,
    decreases rs.len(),
{
    if rs.len() > 0 {
        assert forall|j: int|
            0 <= j < rs.drop_last().len() implies (#[trigger] rs.drop_last()[j]).1.total_connections
            == 0 by {
            assert(rs.drop_last()[j] == rs[j]);
        }
        lemma_sum_zero(rs.drop_last());
        assert(rs.last() == rs[rs.len() - 1]);
    }
}

/// Stream accounting: after any event history in which no prefix sees more
/// disconnects than connects (each disconnect closes an earlier connect),
/// and which is short enough for the counters, the tunnel's open-stream
/// counter equals the number of connects minus the number of disconnects
/// - so it never undershoots zero - and its connection total equals the
/// number of connects.
pub proof fn lemma_stream_accounting(m0: TunnelModel, es: Seq<TunnelEvent>)
    requires
        m0.stats.streams_open == 0,
        m0.stats.total_connections == 0,
        forall|i: int|
            0 <= i <= es.len() ==> count_client_disconnected(#[trigger] es.take(i))
                <= count_client_connected(es.take(i)),
        count_client_connected(es) <= usize::MAX,
        count_client_connected(es) <= u64::MAX,
    ensures
        apply_events(m0, es).stats.streams_open == count_client_connected(es)
            - count_client_disconnected(es),
        apply_events(m0, es).stats.total_connections == count_client_connected(es),
    decreases es.len(),
{
    lemma_counts_nonneg(es);
    if es.len() > 0 {
        let prefix = es.drop_last();
        assert(es.take(es.len() as int) =~= es);
        assert(es.take(es.len() - 1) =~= prefix);
        assert forall|i: int| 0 <= i <= prefix.len() implies count_client_disconnected(
            #[trigger] prefix.take(i),
        ) <= count_client_connected(prefix.take(i)) by {
            assert(prefix.take(i) =~= es.take(i));
        }
        lemma_counts_nonneg(prefix);
        assert(count_client_connected(prefix) <= count_client_connected(es));
        lemma_stream_accounting(m0, prefix);
        let m1 = apply_events(m0, prefix);
        match es.last() {
            TunnelEvent::ClientConnected => {
                assert(m1.stats.streams_open < usize::MAX);
                assert(m1.stats.total_connections < u64::MAX);
            },
            TunnelEvent::ClientDisconnected => {
                assert(count_client_disconnected(es) <= count_client_connected(es));
                assert(m1.stats.streams_open > 0);
            },
            TunnelEvent::RemoteConnected(_) => {},
        }
    }
}

/// Connection accounting: the tunnel's connection total counts the
/// accepted clients, while the remotes' connection totals, summed, count
/// the successful remote connections.  The two differ exactly by the
/// number of clients that never reached a remote.
pub proof fn lemma_connection_accounting(m0: TunnelModel, es: Seq<TunnelEvent>)
    requires
        m0.stats.total_connections == 0,
        forall|j: int|
            0 <= j < m0.remotes.len() ==> (#[trigger] m0.remotes[j]).1.total_connections == 0,
        model_unique_keys(m0.remotes),
        forall|i: int|
            0 <= i < es.len() ==> ((#[trigger] es[i]) is RemoteConnected ==> model_has_key(
                m0.remotes,
                es[i]->RemoteConnected_0,
            )),
        count_client_connected(es) <= u64::MAX,
        count_remote_connected(es) <= u64::MAX,
    ensures
        apply_events(m0, es).stats.total_connections == count_client_connected(es),
        sum_remote_connections(apply_events(m0, es).remotes) == count_remote_connected(es),
        apply_events(m0, es).remotes.len() == m0.remotes.len(),
        forall|j: int|
            0 <= j < m0.remotes.len() ==> (#[trigger] apply_events(m0, es).remotes[j]).0
                == m0.remotes[j].0,
    decreases es.len(),
{
    lemma_counts_nonneg(es);
    if es.len() == 0 {
        lemma_sum_zero(m0.remotes);
    } else {
        let prefix = es.drop_last();
        assert forall|i: int|
            0 <= i < prefix.len() && (#[trigger] prefix[i]) is RemoteConnected implies model_has_key(
            m0.remotes,
            prefix[i]->RemoteConnected_0,
        ) by {
            assert(prefix[i] == es[i]);
        }
        lemma_counts_nonneg(prefix);
        lemma_connection_accounting(m0, prefix);
        let m1 = apply_events(m0, prefix);
        match es.last() {
            TunnelEvent::ClientConnected => {
                assert(m1.stats.total_connections < u64::MAX);
            },
            TunnelEvent::ClientDisconnected => {},
            TunnelEvent::RemoteConnected(k) => {
                assert(es[es.len() - 1] == es.last());
                assert(model_has_key(m0.remotes, k));
                assert(model_has_key(m1.remotes, k)) by {
                    let w = choose|w: int|
                        0 <= w < m0.remotes.len() && (#[trigger] m0.remotes[w]).0 == k;
                    assert(m1.remotes[w].0 == k);
                }
                let i = model_key_index(m1.remotes, k);
                assert(0 <= i < m1.remotes.len() && m1.remotes[i].0 == k);
                lemma_sum_bounds(m1.remotes);
                assert(count_remote_connected(es) == count_remote_connected(prefix) + 1);
                assert(m1.remotes[i].1.total_connections < u64::MAX);
                let v = (k, m1.remotes[i].1.spec_remote_connected());
                lemma_sum_update(m1.remotes, i, v);
                assert(v.1.total_connections == m1.remotes[i].1.total_connections + 1);
                assert(apply_events(m0, es) == apply_event(m1, es.last()));
                assert(apply_event(m1, es.last()).remotes == m1.remotes.update(i, v));
                assert(sum_remote_connections(apply_events(m0, es).remotes)
                    == count_remote_connected(es));
            },
        }
    }
}

} // verus!
