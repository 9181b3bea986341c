//! The tunnel value types: an addressable `(host, port)` target, the
//! per-tunnel options, and the tunnel definition itself, together with their
//! canonical display forms and their text grammar (in [`parser`]).
use vstd::prelude::*;

use crate::error::Error;
use crate::state::strategy::TunnelLBStrategy;
use crate::text::{contains_char, dec_digits, push_dec};

pub mod parser;

verus! {

/// The mathematical value of a [`SocketSpec`]: its host text and port.
pub ghost struct SockKey {
    pub host: Seq<char>,
    pub port: u16,
}

/// An addressable target: a host (IPv4 literal, IPv6 literal without its
/// brackets, or DNS name) and a port.  Equality is structural over the pair;
/// an IPv6 host is displayed bracketed.
#[derive(Debug, Hash)]
pub struct SocketSpec {
    pub host: String,
    pub port: u16,
}

impl View for SocketSpec {
    type V = SockKey;

    open spec fn view(&self) -> SockKey {
        SockKey { host: self.host@, port: self.port }
    }
}

impl PartialEq for SocketSpec {
    fn eq(&self, other: &SocketSpec) -> (r: bool) {
        self.port == other.port && self.host == other.host
    }
}

impl Eq for SocketSpec {

}

impl vstd::std_specs::cmp::PartialEqSpecImpl for SocketSpec {
    open spec fn obeys_eq_spec() -> bool {
        true
    }

    open spec fn eq_spec(&self, other: &SocketSpec) -> bool {
        self@ == other@
    }
}

impl Clone for SocketSpec {
    fn clone(&self) -> (r: Self)
        ensures
            r@ == self@,
    {
        SocketSpec { host: self.host.clone(), port: self.port }
    }
}

impl SocketSpec {
    pub fn new(host: String, port: u16) -> (r: SocketSpec)
        ensures
            r@ == (SockKey { host: host@, port }),
    {
        SocketSpec { host, port }
    }

    /// The host and port as a pair.
    pub fn as_tuple(&self) -> (r: (&str, u16))
        ensures
            r.0@ == self@.host,
            r.1 == self@.port,
    {
        (self.host.as_str(), self.port)
    }

    pub fn port(&self) -> (r: u16)
        ensures
            r == self@.port,
    {
        self.port
    }

    pub fn host(&self) -> (r: &str)
        ensures
            r@ == self@.host,
    {
        self.host.as_str()
    }

    /// The canonical text of a target: `host:port`, with the host bracketed
    /// where it holds a colon (an IPv6 literal).
    pub open spec fn spec_display(k: SockKey) -> Seq<char> {
        if k.host.contains(':') {
            seq!['['] + k.host + seq![']'] + seq![':'] + dec_digits(k.port as nat)
        } else {
            k.host + seq![':'] + dec_digits(k.port as nat)
        }
    }

    /// Parses a socket spec: a bare port (standing for `127.0.0.1:port`),
    /// `host:port`, `ipv4:port`, or `[ipv6]:port`, with nothing but
    /// whitespace after it.
    pub fn parse(s: &str) -> (r: Result<SocketSpec, Error>)
        ensures
            match r {
                Ok(sp) => parser::spec_socket_whole(s@) == Some(sp@),
                Err(e) => parser::spec_socket_whole(s@) is None && e is SocketSpecParseError,
            },
    {
        match parser::socket_whole(s) {
            Some(sp) => Ok(sp),
            None => Err(Error::SocketSpecParseError(s.to_owned())),
        }
    }

    /// Renders the canonical text of the target.
    pub fn display_string(&self) -> (r: String)
        ensures
            r@ == SocketSpec::spec_display(self@),
    {
        let mut out = String::new();
        if contains_char(self.host.as_str(), ':') {
            out.append("[");
            out.append(self.host.as_str());
            out.append("]");
        } else {
            out.append(self.host.as_str());
        }
        out.append(":");
        push_dec(self.port as u64, &mut out);
        proof {
            reveal_strlit("[");
            reveal_strlit("]");
            reveal_strlit(":");
            assert(out@ =~= SocketSpec::spec_display(self@));
        }
        out
    }
}

/// Options of the remote leg of a tunnel.  Durations are milliseconds.
#[derive(Clone, Copy, Debug, PartialEq, Eq, Structural)]
pub struct TunnelRemoteOptions {
    pub errors_till_dead: u64,
    pub connect_timeout_ms: u64,
    pub dead_retry_ms: u64,
    pub tls: bool,
}

/// Options of one tunnel: its load-balancing strategy, the per-connection
/// retry budget, and the remote-leg options.
#[derive(Clone, Copy, Debug, PartialEq, Eq, Structural)]
pub struct TunnelOptions {
    pub lb_strategy: TunnelLBStrategy,
    pub remote_connect_retries: u16,
    pub options: TunnelRemoteOptions,
}

impl TunnelOptions {
    /// The built-in defaults: random strategy, three retries, one error till
    /// dead, ten-second connect timeout and dead-retry interval, no TLS.
    pub open spec fn spec_default() -> TunnelOptions {
        TunnelOptions {
            lb_strategy: TunnelLBStrategy::Random,
            remote_connect_retries: 3,
            options: TunnelRemoteOptions {
                errors_till_dead: 1,
                connect_timeout_ms: 10000,
                dead_retry_ms: 10000,
                tls: false,
            },
        }
    }
}

impl Default for TunnelOptions {
    fn default() -> (r: Self)
        ensures
            r == TunnelOptions::spec_default(),
    {
        TunnelOptions {
            lb_strategy: TunnelLBStrategy::Random,
            remote_connect_retries: 3,
            options: TunnelRemoteOptions {
                errors_till_dead: 1,
                connect_timeout_ms: 10000,
                dead_retry_ms: 10000,
                tls: false,
            },
        }
    }
}

/// A tunnel definition: the local listener, at least one remote, and the
/// options, where the spec text carried an option block.
#[derive(Debug)]
pub struct Tunnel {
    pub local: SocketSpec,
    pub remote: Vec<SocketSpec>,
    pub options: Option<TunnelOptions>,
}

/// The keys of a list of targets.
pub open spec fn keys_of(s: Seq<SocketSpec>) -> Seq<SockKey> {
    s.map_values(|r: SocketSpec| r@)
}

impl Clone for Tunnel {
    fn clone(&self) -> (r: Self)
        ensures
            r.local@ == self.local@,
            keys_of(r.remote@) == keys_of(self.remote@),
            r.options == self.options,
    {
        let mut remote: Vec<SocketSpec> = Vec::new();
        let mut i: usize = 0;
        while i < self.remote.len()
            invariant
                i <= self.remote.len(),
                remote@.len() == i,
                forall|j: int| 0 <= j < i ==> remote@[j]@ == self.remote@[j]@,
            decreases self.remote.len() - i,
        {
            remote.push(self.remote[i].clone());
            i += 1;
        }
        proof {
            assert(keys_of(remote@) =~= keys_of(self.remote@));
        }
        Tunnel { local: self.local.clone(), remote, options: self.options }
    }
}

/// The canonical text of a list of remotes, comma separated.
pub open spec fn spec_remotes_display(rs: Seq<SockKey>) -> Seq<char>
    decreases rs.len(),
{
    if rs.len() == 0 {
        Seq::<char>::empty()
    } else if rs.len() == 1 {
        SocketSpec::spec_display(rs[0])
    } else {
        spec_remotes_display(rs.drop_last()) + seq![','] + SocketSpec::spec_display(rs.last())
    }
}

impl TunnelOptions {
    /// The display text of the options.  Durations are shown in
    /// milliseconds, as they are held.
    pub open spec fn spec_display(&self) -> Seq<char> {
        "strategy="@ + self.lb_strategy.spec_name() + ",retries="@ + dec_digits(
            self.remote_connect_retries as nat,
        ) + ",timeout_ms="@ + dec_digits(self.options.connect_timeout_ms as nat) + ", errors="@
            + dec_digits(self.options.errors_till_dead as nat)
    }

    /// Renders the options for the status surfaces.
    pub fn display_string(&self) -> (r: String)
        ensures
            r@ == self.spec_display(),
    {
        let mut out = String::new();
        out.append("strategy=");
        out.append(self.lb_strategy.name());
        out.append(",retries=");
        push_dec(self.remote_connect_retries as u64, &mut out);
        out.append(",timeout_ms=");
        push_dec(self.options.connect_timeout_ms, &mut out);
        out.append(", errors=");
        push_dec(self.options.errors_till_dead, &mut out);
        proof {
            assert(out@ =~= self.spec_display());
        }
        out
    }
}

impl Tunnel {
    /// Parses a tunnel spec (`local=remote,remote,...[options]`) with the
    /// built-in default options as the base of its option block.
    pub fn parse(s: &str) -> (r: Result<Tunnel, Error>)
        ensures
            match r {
                Ok(t) => parser::spec_tunnel(s@, TunnelOptions::spec_default()) == Some(
                    parser::TunnelShape {
                        local: t.local@,
                        remotes: keys_of(t.remote@),
                        options: t.options,
                    },
                ) && t.remote@.len() >= 1,
                Err(e) => parser::spec_tunnel(s@, TunnelOptions::spec_default()) is None
                    && e is TunnelParseError,
            },
    {
        let defaults = TunnelOptions::default();
        Tunnel::parse_with(s, &defaults)
    }

    /// Parses a tunnel spec, resolving option names left out of the option
    /// block against the given defaults.
    pub fn parse_with(s: &str, defaults: &TunnelOptions) -> (r: Result<Tunnel, Error>)
        ensures
            match r {
                Ok(t) => parser::spec_tunnel(s@, *defaults) == Some(
                    parser::TunnelShape {
                        local: t.local@,
                        remotes: keys_of(t.remote@),
                        options: t.options,
                    },
                ) && t.remote@.len() >= 1,
                Err(e) => parser::spec_tunnel(s@, *defaults) is None && e is TunnelParseError,
            },
    {
        match parser::tunnel_with(s, defaults) {
            Some(t) => Ok(t),
            None => Err(Error::TunnelParseError(s.to_owned())),
        }
    }

    /// The canonical text of a tunnel: `local=remote,remote,...`.
    pub open spec fn spec_display(&self) -> Seq<char> {
        SocketSpec::spec_display(self.local@) + seq!['='] + spec_remotes_display(
            keys_of(self.remote@),
        )
    }

    /// Renders the tunnel as its canonical text.
    pub fn display_string(&self) -> (r: String)
        ensures
            r@ == self.spec_display(),
    {
        let mut out = self.local.display_string();
        out.append("=");
        proof {
            reveal_strlit("=");
            reveal_strlit(",");
            assert(keys_of(self.remote@).take(0int) =~= Seq::<SockKey>::empty());
            assert(out@ =~= SocketSpec::spec_display(self.local@) + seq!['=']
                + spec_remotes_display(keys_of(self.remote@).take(0int)));
        }
        let mut i: usize = 0;
        while i < self.remote.len()
            invariant
                i <= self.remote.len(),
                ","@ =~= seq![','],
                out@ == SocketSpec::spec_display(self.local@) + seq!['='] + spec_remotes_display(
                    keys_of(self.remote@).take(i as int),
                ),
            decreases self.remote.len() - i,
        {
            if i > 0 {
                out.append(",");
            }
            let piece = self.remote[i].display_string();
            out.append(piece.as_str());
            proof {
                let ks = keys_of(self.remote@);
                let upto = ks.take((i + 1) as int);
                assert(upto.drop_last() =~= ks.take(i as int));
                assert(upto.last() == ks[i as int]);
                if i == 0 {
                    assert(upto =~= seq![ks[0]]);
                }
                assert(out@ =~= SocketSpec::spec_display(self.local@) + seq!['=']
                    + spec_remotes_display(upto));
            }
            i += 1;
        }
        proof {
            assert(keys_of(self.remote@).take(self.remote@.len() as int) =~= keys_of(
                self.remote@,
            ));
        }
        out
    }
}

} // verus!
