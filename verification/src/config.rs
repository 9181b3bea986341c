//! The engine's configuration snapshot: taken once at start, handed to the
//! registry at construction, and consulted for every tunnel that does not
//! override a field.  Durations are milliseconds.
use vstd::prelude::*;

use crate::state::strategy::TunnelLBStrategy;
use crate::tunnel::{TunnelOptions, TunnelRemoteOptions};

verus! {

/// The engine's tunable values.
#[derive(Clone, Copy, Debug, PartialEq, Eq, Structural)]
pub struct Config {
    /// Per-direction buffer size of the copy engine, in bytes.
    pub copy_buffer_size: usize,
    /// Default timeout for establishing a remote connection.
    pub remote_timeout_ms: u64,
    /// Default number of remote-connection retries per client connection.
    pub remote_retries: u16,
    /// Default number of consecutive errors before a remote is dead.
    pub remote_errors: u64,
    /// Default interval between liveness probes of a dead remote.
    pub remote_dead_check_interval_ms: u64,
}

impl Config {
    pub open spec fn spec_default() -> Config {
        Config {
            copy_buffer_size: 8192,
            remote_timeout_ms: 10000,
            remote_retries: 3,
            remote_errors: 1,
            remote_dead_check_interval_ms: 10000,
        }
    }

    /// The tunnel options a tunnel without an option block receives.
    pub open spec fn spec_default_tunnel_options(&self) -> TunnelOptions {
        TunnelOptions {
            lb_strategy: TunnelLBStrategy::Random,
            remote_connect_retries: self.remote_retries,
            options: TunnelRemoteOptions {
                errors_till_dead: self.remote_errors,
                connect_timeout_ms: self.remote_timeout_ms,
                dead_retry_ms: self.remote_dead_check_interval_ms,
                tls: false,
            },
        }
    }

    pub fn default_tunnel_options(&self) -> (r: TunnelOptions)
        ensures
            r == self.spec_default_tunnel_options(),
    {
        TunnelOptions {
            lb_strategy: TunnelLBStrategy::Random,
            remote_connect_retries: self.remote_retries,
            options: TunnelRemoteOptions {
                errors_till_dead: self.remote_errors,
                connect_timeout_ms: self.remote_timeout_ms,
                dead_retry_ms: self.remote_dead_check_interval_ms,
                tls: false,
            },
        }
    }
}

impl Default for Config {
    fn default() -> (r: Self)
        ensures
            r == Config::spec_default(),
    {
        Config {
            copy_buffer_size: 8192,
            remote_timeout_ms: 10000,
            remote_retries: 3,
            remote_errors: 1,
            remote_dead_check_interval_ms: 10000,
        }
    }
}

} // verus!
