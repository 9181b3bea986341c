//! Error kinds surfaced by the engine, with the stable numeric codes that
//! the control surfaces report.
use vstd::prelude::*;

verus! {

/// Base of the stable numeric error codes.
pub const ERROR_BASE: i32 = 1000;

/// Every error kind the engine can surface.  Kinds that wrap a lower-level
/// failure carry its human-readable message.
#[derive(Debug)]
pub enum Error {
    TunnelParseError(String),
    SocketSpecParseError(String),
    SocketAddrParse(String),
    IOError(String),
    TunnelExists,
    TunnelDoesNotExist,
    RemoteExists,
    RemoteDoesNotExist,
    ControlProtocolLineError(String),
    ControlProtocolError(String),
    NoRemote,
    InvalidLBStrategy,
    RPCError(String),
}

impl Clone for Error {
    /// A clone reports the same kind and the same message.
    fn clone(&self) -> (r: Self)
        ensures
            r.spec_code() == self.spec_code(),
            r.spec_message() == self.spec_message(),
    {
        match self {
            Error::TunnelParseError(s) => Error::TunnelParseError(s.clone()),
            Error::SocketSpecParseError(s) => Error::SocketSpecParseError(s.clone()),
            Error::SocketAddrParse(s) => Error::SocketAddrParse(s.clone()),
            Error::IOError(s) => Error::IOError(s.clone()),
            Error::TunnelExists => Error::TunnelExists,
            Error::TunnelDoesNotExist => Error::TunnelDoesNotExist,
            Error::RemoteExists => Error::RemoteExists,
            Error::RemoteDoesNotExist => Error::RemoteDoesNotExist,
            Error::ControlProtocolLineError(s) => Error::ControlProtocolLineError(s.clone()),
            Error::ControlProtocolError(s) => Error::ControlProtocolError(s.clone()),
            Error::NoRemote => Error::NoRemote,
            Error::InvalidLBStrategy => Error::InvalidLBStrategy,
            Error::RPCError(s) => Error::RPCError(s.clone()),
        }
    }
}

impl Error {
    /// The stable numeric code of each kind, as external RPC clients expect it.
    pub open spec fn spec_code(&self) -> i32 {
        match self {
            Error::TunnelParseError(_) => 1001,
            Error::SocketSpecParseError(_) => 1002,
            Error::SocketAddrParse(_) => 1003,
            Error::IOError(_) => 1004,
            Error::TunnelExists => 1005,
            Error::TunnelDoesNotExist => 1006,
            Error::RemoteExists => 1007,
            Error::RemoteDoesNotExist => 1008,
            Error::ControlProtocolLineError(_) => 1009,
            Error::ControlProtocolError(_) => 1010,
            Error::NoRemote => 1011,
            Error::InvalidLBStrategy => 1012,
            Error::RPCError(_) => 1013,
        }
    }

    pub fn code(&self) -> (r: i32)
        ensures
            r == self.spec_code(),
    {
        match self {
            Error::TunnelParseError(_) => ERROR_BASE + 1,
            Error::SocketSpecParseError(_) => ERROR_BASE + 2,
            Error::SocketAddrParse(_) => ERROR_BASE + 3,
            Error::IOError(_) => ERROR_BASE + 4,
            Error::TunnelExists => ERROR_BASE + 5,
            Error::TunnelDoesNotExist => ERROR_BASE + 6,
            Error::RemoteExists => ERROR_BASE + 7,
            Error::RemoteDoesNotExist => ERROR_BASE + 8,
            Error::ControlProtocolLineError(_) => ERROR_BASE + 9,
            Error::ControlProtocolError(_) => ERROR_BASE + 10,
            Error::NoRemote => ERROR_BASE + 11,
            Error::InvalidLBStrategy => ERROR_BASE + 12,
            Error::RPCError(_) => ERROR_BASE + 13,
        }
    }

    /// The fixed text that introduces each kind in its displayed message.
    pub open spec fn spec_prefix(&self) -> Seq<char> {
        match self {
            Error::TunnelParseError(_) => "Tunnel definition parsing error: "@,
            Error::SocketSpecParseError(_) => "Socket spec parse error: "@,
            Error::SocketAddrParse(_) => "Socket address parse error: "@,
            Error::IOError(_) => "IO error: "@,
            Error::TunnelExists => "Tunnel already exists"@,
            Error::TunnelDoesNotExist => "Tunnel doesn't exist"@,
            Error::RemoteExists => "Remote already exists"@,
            Error::RemoteDoesNotExist => "Remote does not exists"@,
            Error::ControlProtocolLineError(_) => "Invalid control protocol line: "@,
            Error::ControlProtocolError(_) => "Control protocol error: "@,
            Error::NoRemote => "No remote available"@,
            Error::InvalidLBStrategy => "Invalid loadbalancing strategy string"@,
            Error::RPCError(_) => "RPC error: "@,
        }
    }

    /// The detail text each kind carries, empty for the kinds without one.
    pub open spec fn spec_detail(&self) -> Seq<char> {
        match self {
            Error::TunnelParseError(s) => s@,
            Error::SocketSpecParseError(s) => s@,
            Error::SocketAddrParse(s) => s@,
            Error::IOError(s) => s@,
            Error::ControlProtocolLineError(s) => s@,
            Error::ControlProtocolError(s) => s@,
            Error::RPCError(s) => s@,
            _ => Seq::<char>::empty(),
        }
    }

    /// The displayed message: the kind's fixed text followed by its detail.
    pub open spec fn spec_message(&self) -> Seq<char> {
        self.spec_prefix() + self.spec_detail()
    }

    /// Renders the error as the human-readable message the proxy logs and
    /// the control protocols send.
    pub fn message(&self) -> (r: String)
        ensures
            r@ == self.spec_message(),
    {
        let mut out: String = String::new();
        match self {
            Error::TunnelParseError(s) => {
                out.append("Tunnel definition parsing error: ");
                out.append(s.as_str());
            },
            Error::SocketSpecParseError(s) => {
                out.append("Socket spec parse error: ");
                out.append(s.as_str());
            },
            Error::SocketAddrParse(s) => {
                out.append("Socket address parse error: ");
                out.append(s.as_str());
            },
            Error::IOError(s) => {
                out.append("IO error: ");
                out.append(s.as_str());
            },
            Error::TunnelExists => {
                out.append("Tunnel already exists");
            },
            Error::TunnelDoesNotExist => {
                out.append("Tunnel doesn't exist");
            },
            Error::RemoteExists => {
                out.append("Remote already exists");
            },
            Error::RemoteDoesNotExist => {
                out.append("Remote does not exists");
            },
            Error::ControlProtocolLineError(s) => {
                out.append("Invalid control protocol line: ");
                out.append(s.as_str());
            },
            Error::ControlProtocolError(s) => {
                out.append("Control protocol error: ");
                out.append(s.as_str());
            },
            Error::NoRemote => {
                out.append("No remote available");
            },
            Error::InvalidLBStrategy => {
                out.append("Invalid loadbalancing strategy string");
            },
            Error::RPCError(s) => {
                out.append("RPC error: ");
                out.append(s.as_str());
            },
        }
        proof {
            assert(out@ =~= self.spec_message());
        }
        out
    }
}

/// The usual result type of the engine's operations.
pub type Result<T> = core::result::Result<T, Error>;

} // verus!
