//! Load-balancing strategies: the closed set of policies a tunnel can use to
//! pick one live remote per client connection.
use vstd::prelude::*;

use crate::error::Error;
use crate::state::info::TunnelInfo;
use crate::state::stats::RemoteStats;
use crate::text::{eq_ignore_ascii_case, spec_lower};
use rand::Rng;
use vstd::arithmetic::div_mod::{
    lemma_add_mod_noop, lemma_add_mod_noop_right, lemma_fundamental_div_mod,
    lemma_mod_division_less_than_divisor, lemma_small_mod,
};

verus! {

/// The tag naming the strategy a tunnel was configured with.
#[derive(Clone, Copy, Debug, PartialEq, Eq, Structural)]
pub enum TunnelLBStrategy {
    Random,
    RoundRobin,
    MinimumOpenConnections,
}

impl Default for TunnelLBStrategy {
    fn default() -> (r: Self)
        ensures
            r == TunnelLBStrategy::Random,
    {
        TunnelLBStrategy::Random
    }
}

/// The strategy a (case-folded) name denotes, `None` where the name is not
/// one of the accepted spellings.
pub open spec fn strategy_of_name(s: Seq<char>) -> Option<TunnelLBStrategy> {
    let l = spec_lower(s);
    if l == "random"@ {
        Some(TunnelLBStrategy::Random)
    } else if l == "roundrobin"@ || l == "round-robin"@ || l == "round_robin"@ {
        Some(TunnelLBStrategy::RoundRobin)
    } else if l == "minimum-open-connections"@ || l == "minimum_open_connections"@ || l
        == "minimumopenconnections"@ || l == "min-open-connections"@ || l == "min_open_connections"@
        || l == "minopenconnections"@ {
        Some(TunnelLBStrategy::MinimumOpenConnections)
    } else {
        None
    }
}

proof fn lemma_strategy_names_are_lowercase()
    ensures
        spec_lower("random"@) == "random"@,
        spec_lower("roundrobin"@) == "roundrobin"@,
        spec_lower("round-robin"@) == "round-robin"@,
        spec_lower("round_robin"@) == "round_robin"@,
        spec_lower("minimum-open-connections"@) == "minimum-open-connections"@,
        spec_lower("minimum_open_connections"@) == "minimum_open_connections"@,
        spec_lower("minimumopenconnections"@) == "minimumopenconnections"@,
        spec_lower("min-open-connections"@) == "min-open-connections"@,
        spec_lower("min_open_connections"@) == "min_open_connections"@,
        spec_lower("minopenconnections"@) == "minopenconnections"@,
{
    reveal_strlit("random");
    reveal_strlit("roundrobin");
    reveal_strlit("round-robin");
    reveal_strlit("round_robin");
    reveal_strlit("minimum-open-connections");
    reveal_strlit("minimum_open_connections");
    reveal_strlit("minimumopenconnections");
    reveal_strlit("min-open-connections");
    reveal_strlit("min_open_connections");
    reveal_strlit("minopenconnections");
    assert(spec_lower("random"@) =~= "random"@);
    assert(spec_lower("roundrobin"@) =~= "roundrobin"@);
    assert(spec_lower("round-robin"@) =~= "round-robin"@);
    assert(spec_lower("round_robin"@) =~= "round_robin"@);
    assert(spec_lower("minimum-open-connections"@) =~= "minimum-open-connections"@);
    assert(spec_lower("minimum_open_connections"@) =~= "minimum_open_connections"@);
    assert(spec_lower("minimumopenconnections"@) =~= "minimumopenconnections"@);
    assert(spec_lower("min-open-connections"@) =~= "min-open-connections"@);
    assert(spec_lower("min_open_connections"@) =~= "min_open_connections"@);
    assert(spec_lower("minopenconnections"@) =~= "minopenconnections"@);
}

impl TunnelLBStrategy {
    /// Parses a strategy name, case-insensitively, accepting the hyphen,
    /// underscore and camel spellings.
    pub fn from_name(s: &str) -> (r: Result<TunnelLBStrategy, Error>)
        ensures
            match r {
                Ok(t) => strategy_of_name(s@) == Some(t),
                Err(e) => strategy_of_name(s@) is None && e is InvalidLBStrategy,
            },
    {
        proof {
            lemma_strategy_names_are_lowercase();
        }
        if eq_ignore_ascii_case(s, "random") {
            Ok(TunnelLBStrategy::Random)
        } else if eq_ignore_ascii_case(s, "roundrobin") || eq_ignore_ascii_case(s, "round-robin")
            || eq_ignore_ascii_case(s, "round_robin") {
            Ok(TunnelLBStrategy::RoundRobin)
        } else if eq_ignore_ascii_case(s, "minimum-open-connections") || eq_ignore_ascii_case(
            s,
            "minimum_open_connections",
        ) || eq_ignore_ascii_case(s, "minimumopenconnections") || eq_ignore_ascii_case(
            s,
            "min-open-connections",
        ) || eq_ignore_ascii_case(s, "min_open_connections") || eq_ignore_ascii_case(
            s,
            "minopenconnections",
        ) {
            Ok(TunnelLBStrategy::MinimumOpenConnections)
        } else {
            Err(Error::InvalidLBStrategy)
        }
    }

    /// The canonical display name of the strategy.
    pub open spec fn spec_name(&self) -> Seq<char> {
        match self {
            TunnelLBStrategy::Random => "random"@,
            TunnelLBStrategy::RoundRobin => "round-robin"@,
            TunnelLBStrategy::MinimumOpenConnections => "minimum-open-connections"@,
        }
    }

    pub fn name(&self) -> (r: &'static str)
        ensures
            r@ == self.spec_name(),
    {
        match self {
            TunnelLBStrategy::Random => "random",
            TunnelLBStrategy::RoundRobin => "round-robin",
            TunnelLBStrategy::MinimumOpenConnections => "minimum-open-connections",
        }
    }
}

/// The load a remote carries when strategies compare remotes: its open
/// streams plus its selected-but-not-yet-connected ones.
pub open spec fn spec_load(r: RemoteStats) -> int {
    r.streams_open + r.streams_pending
}

/// The position the round-robin strategy picks next: one past the cursor,
/// wrapping; an unset cursor behaves as the last position, so the first
/// pick is position zero.
pub open spec fn rr_next(last: Option<usize>, n: int) -> int {
    let l: int = match last {
        Some(i) => i as int,
        None => n - 1,
    };
    (l + 1) % n
}

/// The position round-robin picks at its `i`-th consecutive turn after
/// cursor `l`.
pub open spec fn rr_seq(l: int, n: int, i: int) -> int {
    (l + 1 + i) % n
}

/// Some turn among the first `n` after cursor `l` picks position `t`.
pub open spec fn rr_covers(l: int, n: int, t: int) -> bool {
    exists|i: int| 0 <= i < n && #[trigger] rr_seq(l, n, i) == t
}

/// Consecutive turns chain: one more turn after the `i`-th moves one
/// position further along the cycle, so repeated picks walk `rr_seq`.
pub proof fn lemma_rr_seq_chain(l: int, n: int, i: int)
    requires
        n >= 1,
    ensures
        (rr_seq(l, n, i) + 1) % n == rr_seq(l, n, i + 1),
{
    let a = l + 1 + i;
    lemma_add_mod_noop(a, 1, n);
    if n == 1 {
        assert((rr_seq(l, n, i) + 1) % 1int == (a + 1) % 1int);
    } else {
        lemma_small_mod(1nat, n as nat);
    }
}

proof fn lemma_mod_injective_in_window(a: int, b: int, n: int)
    requires
        n >= 1,
        a < b < a + n,
    ensures
        a % n != b % n,
{
    if a % n == b % n {
        lemma_fundamental_div_mod(a, n);
        lemma_fundamental_div_mod(b, n);
        let q = b / n - a / n;
        assert(b - a == n * q) by (nonlinear_arith)
            requires
                a == n * (a / n) + a % n,
                b == n * (b / n) + b % n,
                a % n == b % n,
                q == b / n - a / n,
        ;
        assert(false) by (nonlinear_arith)
            requires
                b - a == n * q,
                0 < b - a < n,
                n >= 1,
        ;
    }
}

/// Round-robin fairness: over a fixed set of `n` remotes, `n` consecutive
/// turns starting from any cursor visit every position exactly once.
pub proof fn lemma_round_robin_cycle(l: int, n: int)
    requires
        n >= 1,
    ensures
        forall|i: int, j: int| 0 <= i < j < n ==> rr_seq(l, n, i) != rr_seq(l, n, j),
        forall|t: int| 0 <= t < n ==> #[trigger] rr_covers(l, n, t),
{
    assert forall|i: int, j: int| 0 <= i < j < n implies rr_seq(l, n, i) != rr_seq(l, n, j) by {
        if rr_seq(l, n, i) == rr_seq(l, n, j) {
            lemma_mod_injective_in_window(l + 1 + i, l + 1 + j, n);
        }
    }
    assert forall|t: int| 0 <= t < n implies #[trigger] rr_covers(l, n, t) by {
        let i = (t - l - 1) % n;
        lemma_mod_division_less_than_divisor(t - l - 1, n);
        lemma_add_mod_noop_right(l + 1, t - l - 1, n);
        lemma_small_mod(t as nat, n as nat);
        assert(rr_seq(l, n, i) == t);
    }
}

/// Relies on `rand::Rng::gen_range` on `rand::thread_rng`: the result of
/// sampling `0..n` lies in `[0, n)`; the call panics only on an empty
/// range, which the bound here rules out.
#[verifier::external_body]
fn random_below(n: usize) -> (r: usize)
    requires
        n > 0,
    ensures
        r < n,
{
    rand::thread_rng().gen_range(0..n)
}

/// The uniformly random strategy.
#[derive(Debug)]
pub struct Random;

impl Random {
    /// Picks a position uniformly at random among the live remotes.
    pub fn select_remote(&self, tunnel: &TunnelInfo) -> (r: Result<usize, Error>)
        requires
            tunnel.remotes@.len() > 0,
        ensures
            r matches Ok(idx) && idx < tunnel.remotes@.len(),
    {
        let size = tunnel.remotes.len();
        let idx = random_below(size);
        Ok(idx)
    }
}

/// The rotating strategy: each turn picks the position after the previous
/// pick, wrapping at the end of the table.
#[derive(Debug)]
pub struct RoundRobin;

impl RoundRobin {
    /// Picks the position after the recorded cursor, wrapping.
    pub fn select_remote(&self, tunnel: &TunnelInfo) -> (r: Result<usize, Error>)
        requires
            tunnel.remotes@.len() > 0,
        ensures
            r matches Ok(idx) && idx < tunnel.remotes@.len() && idx as int == rr_next(
                tunnel.last_selected_index,
                tunnel.remotes@.len() as int,
            ),
    {
        let size = tunnel.remotes.len();
        let last: usize = match tunnel.last_selected_index {
            Some(i) => i,
            None => size - 1,
        };
        let idx = (last % size + 1) % size;
        proof {
            let l: int = match tunnel.last_selected_index {
                Some(i) => i as int,
                None => size as int - 1,
            };
            if size == 1 {
                assert(idx as int == (l + 1) % 1int);
            } else {
                lemma_add_mod_noop_right(1, l, size as int);
                assert((1 + l % (size as int)) % (size as int) == (1 + l) % (size as int));
            }
        }
        Ok(idx)
    }
}

/// The least-loaded strategy: the first position whose remote carries the
/// smallest load, leaving early on an idle remote.
#[derive(Debug)]
pub struct MinimumOpenConnections;

impl MinimumOpenConnections {
    /// Picks the first position of minimal load.  With no remotes at all
    /// the position falls back to zero, as the caller guards emptiness.
    pub fn select_remote(&self, tunnel: &TunnelInfo) -> (r: Result<usize, Error>)
        ensures
            r matches Ok(idx) && (if tunnel.remotes@.len() == 0 {
                idx == 0
            } else {
                &&& idx < tunnel.remotes@.len()
                &&& forall|j: int|
                    0 <= j < tunnel.remotes@.len() ==> spec_load(
                        tunnel.remotes@[idx as int].1.stats,
                    ) <= spec_load((#[trigger] tunnel.remotes@[j]).1.stats)
                &&& forall|j: int|
                    0 <= j < idx ==> spec_load((#[trigger] tunnel.remotes@[j]).1.stats)
                        > spec_load(tunnel.remotes@[idx as int].1.stats)
            }),
    {
        let n = tunnel.remotes.len();
        let mut min_idx: usize = 0;
        let mut min_val: u128 = u128::MAX;
        let mut idx: usize = 0;
        while idx < n
            invariant
                idx <= n,
                n == tunnel.remotes@.len(),
                idx == 0 ==> min_idx == 0 && min_val == u128::MAX,
                idx > 0 ==> {
                    &&& min_idx < idx
                    &&& min_val == spec_load(tunnel.remotes@[min_idx as int].1.stats)
                    &&& forall|j: int|
                        0 <= j < idx ==> min_val <= spec_load(
                            (#[trigger] tunnel.remotes@[j]).1.stats,
                        )
                    &&& forall|j: int|
                        0 <= j < min_idx ==> spec_load((#[trigger] tunnel.remotes@[j]).1.stats)
                            > min_val
                    &&& min_val > 0
                },
            decreases n - idx,
        {
            let stats = &tunnel.remotes[idx].1.stats;
            let open_conns: u128 = stats.streams_open as u128 + stats.streams_pending as u128;
            if open_conns == 0 {
                return Ok(idx);
            } else if open_conns < min_val {
                min_idx = idx;
                min_val = open_conns;
            }
            idx += 1;
        }
        Ok(min_idx)
    }
}

} // verus!
