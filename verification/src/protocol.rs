//! The line-based control protocol: one command per line in, one response
//! out.  Parsing a line and rendering a response are pure text work and are
//! verified here; framing and sockets stay with the runtime.
use vstd::prelude::*;

use crate::error::Error;
use crate::state::stats::{RemoteStats, TunnelStats};
use crate::text::{dec_digits, eq_ignore_ascii_case, push_dec, spec_lower};
use crate::tunnel::parser::{run_end, scan_run, spec_socket_whole, spec_tunnel, CharKind, TunnelShape};
use crate::tunnel::{keys_of, SockKey, SocketSpec, Tunnel, TunnelOptions};

verus! {

/// A parsed control command.
#[derive(Debug)]
pub enum CommandRequest {
    Open(Tunnel),
    Close(SocketSpec),
    Status(bool),
    Detail(SocketSpec),
    Help,
    Exit,
    Invalid(Error),
}

/// The mathematical value of a command line.
pub ghost enum CommandShape {
    Open(TunnelShape),
    Close(SockKey),
    Status(bool),
    Detail(SockKey),
    Help,
    Exit,
    BadCommand,
    MissingArgument,
    BadStatusArgument,
    BadTunnel,
    BadSocket,
}

/// The command word: everything before the first space.
pub open spec fn spec_cmd_end(s: Seq<char>) -> int {
    run_end(s, 0, CharKind::NotSpace)
}

/// The argument text: everything after the first space, where there is
/// one.
pub open spec fn spec_args(s: Seq<char>) -> Option<Seq<char>> {
    let e = spec_cmd_end(s);
    if e < s.len() {
        Some(s.subrange(e + 1, s.len() as int))
    } else {
        None
    }
}

/// What a command line means.  The command word is matched after case
/// folding; `STATUS` takes an optional scale argument; `OPEN`, `CLOSE` and
/// `DETAIL` require an argument in the respective grammar.
pub open spec fn spec_command(s: Seq<char>, defaults: TunnelOptions) -> CommandShape {
    let cmd = spec_lower(s.subrange(0, spec_cmd_end(s)));
    let args = spec_args(s);
    if cmd == "status"@ {
        match args {
            None => CommandShape::Status(false),
            Some(a) => if spec_lower(a) == "long"@ || spec_lower(a) == "full"@ {
                CommandShape::Status(true)
            } else if spec_lower(a) == "short"@ || a.len() == 0 {
                CommandShape::Status(false)
            } else {
                CommandShape::BadStatusArgument
            },
        }
    } else if cmd == "open"@ {
        match args {
            None => CommandShape::MissingArgument,
            Some(a) => match spec_tunnel(a, defaults) {
                Some(ts) => CommandShape::Open(ts),
                None => CommandShape::BadTunnel,
            },
        }
    } else if cmd == "help"@ {
        CommandShape::Help
    } else if cmd == "exit"@ {
        CommandShape::Exit
    } else if cmd == "close"@ {
        match args {
            None => CommandShape::MissingArgument,
            Some(a) => match spec_socket_whole(a) {
                Some(k) => CommandShape::Close(k),
                None => CommandShape::BadSocket,
            },
        }
    } else if cmd == "detail"@ {
        match args {
            None => CommandShape::MissingArgument,
            Some(a) => match spec_socket_whole(a) {
                Some(k) => CommandShape::Detail(k),
                None => CommandShape::BadSocket,
            },
        }
    } else {
        CommandShape::BadCommand
    }
}

proof fn lemma_command_words_lowercase()
    ensures
        spec_lower("status"@) == "status"@,
        spec_lower("open"@) == "open"@,
        spec_lower("help"@) == "help"@,
        spec_lower("exit"@) == "exit"@,
        spec_lower("close"@) == "close"@,
        spec_lower("detail"@) == "detail"@,
        spec_lower("long"@) == "long"@,
        spec_lower("full"@) == "full"@,
        spec_lower("short"@) == "short"@,
{
    reveal_strlit("status");
    reveal_strlit("open");
    reveal_strlit("help");
    reveal_strlit("exit");
    reveal_strlit("close");
    reveal_strlit("detail");
    reveal_strlit("long");
    reveal_strlit("full");
    reveal_strlit("short");
    assert(spec_lower("status"@) =~= "status"@);
    assert(spec_lower("open"@) =~= "open"@);
    assert(spec_lower("help"@) =~= "help"@);
    assert(spec_lower("exit"@) =~= "exit"@);
    assert(spec_lower("close"@) =~= "close"@);
    assert(spec_lower("detail"@) =~= "detail"@);
    assert(spec_lower("long"@) =~= "long"@);
    assert(spec_lower("full"@) =~= "full"@);
    assert(spec_lower("short"@) =~= "short"@);
}

impl CommandRequest {
    /// Parses one control line against the built-in default tunnel
    /// options.
    pub fn parse(s: &str) -> (r: Result<CommandRequest, Error>)
        ensures
            match spec_command(s@, TunnelOptions::spec_default()) {
                CommandShape::Open(ts) => r matches Ok(CommandRequest::Open(t)) && ts == (TunnelShape {
                    local: t.local@,
                    remotes: keys_of(t.remote@),
                    options: t.options,
                }) && t.remote@.len() >= 1,
                CommandShape::Close(k) => r matches Ok(CommandRequest::Close(sp)) && sp@ == k,
                CommandShape::Status(b) => r matches Ok(CommandRequest::Status(b2)) && b2 == b,
                CommandShape::Detail(k) => r matches Ok(CommandRequest::Detail(sp)) && sp@ == k,
                CommandShape::Help => r matches Ok(CommandRequest::Help),
                CommandShape::Exit => r matches Ok(CommandRequest::Exit),
                CommandShape::BadCommand => r matches Err(e) && e is ControlProtocolError,
                CommandShape::MissingArgument => r matches Err(e) && e is ControlProtocolError,
                CommandShape::BadStatusArgument => r matches Err(e) && e is ControlProtocolError,
                CommandShape::BadTunnel => r matches Err(e) && e is TunnelParseError,
                CommandShape::BadSocket => r matches Err(e) && e is SocketSpecParseError,
            },
    {
        proof {
            lemma_command_words_lowercase();
        }
        let len = s.unicode_len();
        let ce = scan_run(s, 0, CharKind::NotSpace);
        let cmd = s.substring_char(0, ce);
        let args: Option<&str> = if ce < len {
            Some(s.substring_char(ce + 1, len))
        } else {
            None
        };
        if eq_ignore_ascii_case(cmd, "status") {
            match args {
                None => Ok(CommandRequest::Status(false)),
                Some(a) => {
                    if eq_ignore_ascii_case(a, "long") || eq_ignore_ascii_case(a, "full") {
                        Ok(CommandRequest::Status(true))
                    } else if eq_ignore_ascii_case(a, "short") || a.unicode_len() == 0 {
                        Ok(CommandRequest::Status(false))
                    } else {
                        Err(Error::ControlProtocolError("Invalid argument to STATUS".to_owned()))
                    }
                },
            }
        } else if eq_ignore_ascii_case(cmd, "open") {
            match args {
                None => Err(Error::ControlProtocolError("Missing argument".to_owned())),
                Some(a) => {
                    match Tunnel::parse(a) {
                        Ok(t) => Ok(CommandRequest::Open(t)),
                        Err(e) => Err(e),
                    }
                },
            }
        } else if eq_ignore_ascii_case(cmd, "help") {
            Ok(CommandRequest::Help)
        } else if eq_ignore_ascii_case(cmd, "exit") {
            Ok(CommandRequest::Exit)
        } else if eq_ignore_ascii_case(cmd, "close") {
            match args {
                None => Err(Error::ControlProtocolError("Missing argument".to_owned())),
                Some(a) => {
                    match SocketSpec::parse(a) {
                        Ok(sp) => Ok(CommandRequest::Close(sp)),
                        Err(e) => Err(e),
                    }
                },
            }
        } else if eq_ignore_ascii_case(cmd, "detail") {
            match args {
                None => Err(Error::ControlProtocolError("Missing argument".to_owned())),
                Some(a) => {
                    match SocketSpec::parse(a) {
                        Ok(sp) => Ok(CommandRequest::Detail(sp)),
                        Err(e) => Err(e),
                    }
                },
            }
        } else {
            let mut msg = String::new();
            msg.append("Invalid command: ");
            msg.append(cmd);
            Err(Error::ControlProtocolError(msg))
        }
    }
}

/// A response to a control command.
#[derive(Debug)]
pub enum CommandResponse {
    OK,
    Problem(Option<Error>),
    Info { short: String, details: Option<Vec<String>> },
    Done,
}

/// The wire text of the detail lines: each line on its own row, indented.
pub open spec fn spec_detail_lines(lines: Seq<Seq<char>>) -> Seq<char>
    decreases lines.len(),
{
    if lines.len() == 0 {
        Seq::<char>::empty()
    } else if lines.len() == 1 {
        seq!['\t'] + lines[0]
    } else {
        spec_detail_lines(lines.drop_last()) + seq!['\n'] + seq!['\t'] + lines.last()
    }
}

/// The views of a list of strings.
pub open spec fn line_views(lines: Seq<String>) -> Seq<Seq<char>> {
    lines.map_values(|l: String| l@)
}

impl CommandResponse {
    /// The wire text of the response.
    pub open spec fn spec_display(&self) -> Seq<char> {
        match self {
            CommandResponse::Done => "DONE"@,
            CommandResponse::OK => "OK"@,
            CommandResponse::Problem(None) => "SORRY"@,
            CommandResponse::Problem(Some(e)) => "SORRY: "@ + e.spec_message(),
            CommandResponse::Info { short, details: None } => "OK: "@ + short@,
            CommandResponse::Info { short, details: Some(lines) } => "OK: "@ + short@ + seq!['\n']
                + spec_detail_lines(line_views(lines@)),
        }
    }

    /// Renders the response for the wire.
    pub fn to_response_string(&self) -> (r: String)
        ensures
            r@ == self.spec_display(),
    {
        match self {
            CommandResponse::Done => "DONE".to_owned(),
            CommandResponse::OK => "OK".to_owned(),
            CommandResponse::Problem(None) => "SORRY".to_owned(),
            CommandResponse::Problem(Some(e)) => {
                let mut out = String::new();
                out.append("SORRY: ");
                let msg = e.message();
                out.append(msg.as_str());
                proof {
                    assert(out@ =~= self.spec_display());
                }
                out
            },
            CommandResponse::Info { short, details } => {
                let mut out = String::new();
                out.append("OK: ");
                out.append(short.as_str());
                match details {
                    None => {
                        proof {
                            assert(out@ =~= self.spec_display());
                        }
                        out
                    },
                    Some(lines) => {
                        out.append("\n");
                        proof {
                            reveal_strlit("\n");
                            reveal_strlit("\t");
                            assert(line_views(lines@).take(0int) =~= Seq::<Seq<char>>::empty());
                            assert(out@ =~= "OK: "@ + short@ + seq!['\n'] + spec_detail_lines(
                                line_views(lines@).take(0int),
                            ));
                        }
                        let mut i: usize = 0;
                        while i < lines.len()
                            invariant
                                i <= lines@.len(),
                                "\n"@ =~= seq!['\n'],
                                "\t"@ =~= seq!['\t'],
                                out@ == "OK: "@ + short@ + seq!['\n'] + spec_detail_lines(
                                    line_views(lines@).take(i as int),
                                ),
                            decreases lines@.len() - i,
                        {
                            if i > 0 {
                                out.append("\n");
                            }
                            out.append("\t");
                            out.append(lines[i].as_str());
                            proof {
                                let lv = line_views(lines@);
                                let upto = lv.take((i + 1) as int);
                                assert(upto.drop_last() =~= lv.take(i as int));
                                assert(upto.last() == lv[i as int]);
                                if i == 0 {
                                    assert(upto =~= seq![lv[0]]);
                                }
                                assert(out@ =~= "OK: "@ + short@ + seq!['\n'] + spec_detail_lines(
                                    upto,
                                ));
                            }
                            i += 1;
                        }
                        proof {
                            assert(line_views(lines@).take(lines@.len() as int) =~= line_views(
                                lines@,
                            ));
                        }
                        out
                    },
                }
            },
        }
    }

    /// The response to an operation's outcome: `OK`, or the problem it
    /// reported.
    pub fn of_result<T>(res: Result<T, Error>) -> (r: CommandResponse)
        ensures
            match res {
                Ok(_) => r is OK,
                Err(e) => r matches CommandResponse::Problem(Some(e2)) && e2 == e,
            },
    {
        match res {
            Ok(_) => CommandResponse::OK,
            Err(e) => CommandResponse::Problem(Some(e)),
        }
    }
}

/// The wire text of one tunnel's status line.
pub open spec fn spec_status_line(k: SockKey, stats: TunnelStats) -> Seq<char> {
    SocketSpec::spec_display(k) + " = open conns "@ + dec_digits(stats.streams_open as nat)
        + ", total conns "@ + dec_digits(stats.total_connections as nat) + ", bytes sent "@
        + dec_digits(stats.bytes_sent as nat) + ", received "@ + dec_digits(
        stats.bytes_received as nat,
    ) + ", total errors "@ + dec_digits(stats.errors as nat)
}

/// Renders one tunnel's status line.
pub fn status_line(local: &SocketSpec, stats: &TunnelStats) -> (r: String)
    ensures
        r@ == spec_status_line(local@, *stats),
{
    let mut out = local.display_string();
    out.append(" = open conns ");
    push_dec(stats.streams_open as u64, &mut out);
    out.append(", total conns ");
    push_dec(stats.total_connections, &mut out);
    out.append(", bytes sent ");
    push_dec(stats.bytes_sent, &mut out);
    out.append(", received ");
    push_dec(stats.bytes_received, &mut out);
    out.append(", total errors ");
    push_dec(stats.errors, &mut out);
    proof {
        assert(out@ =~= spec_status_line(local@, *stats));
    }
    out
}

/// The wire text of one remote's detail line.
pub open spec fn spec_remote_line(k: SockKey, stats: RemoteStats) -> Seq<char> {
    SocketSpec::spec_display(k) + " = open conns "@ + dec_digits(stats.streams_open as nat)
        + ", total conns "@ + dec_digits(stats.total_connections as nat) + ", bytes sent "@
        + dec_digits(stats.bytes_sent as nat) + ", received "@ + dec_digits(
        stats.bytes_received as nat,
    ) + ", recent errors "@ + dec_digits(stats.num_errors as nat) + ", total errors "@ + dec_digits(
        stats.total_errors as nat,
    )
}

/// Renders one remote's detail line.
pub fn remote_line(remote: &SocketSpec, stats: &RemoteStats) -> (r: String)
    ensures
        r@ == spec_remote_line(remote@, *stats),
{
    let mut out = remote.display_string();
    out.append(" = open conns ");
    push_dec(stats.streams_open as u64, &mut out);
    out.append(", total conns ");
    push_dec(stats.total_connections, &mut out);
    out.append(", bytes sent ");
    push_dec(stats.bytes_sent, &mut out);
    out.append(", received ");
    push_dec(stats.bytes_received, &mut out);
    out.append(", recent errors ");
    push_dec(stats.num_errors, &mut out);
    out.append(", total errors ");
    push_dec(stats.total_errors, &mut out);
    proof {
        assert(out@ =~= spec_remote_line(remote@, *stats));
    }
    out
}

/// Builds the `STATUS` response from a stats snapshot: the tunnel count,
/// and one line per tunnel when the long form was asked for.
pub fn status_response(stats: &Vec<(SocketSpec, TunnelStats)>, long: bool) -> (r: CommandResponse)
    ensures
        stats@.len() == 0 ==> ({
            &&& r matches CommandResponse::Info { short, details }
            &&& short@ == "No tunnels"@
            &&& details is None
        }),
        stats@.len() > 0 ==> ({
            &&& r matches CommandResponse::Info { short, details }
            &&& short@ == "Tunnels: "@ + dec_digits(stats@.len() as nat)
            &&& (if long {
                &&& details matches Some(lines)
                &&& lines@.len() == stats@.len()
                &&& forall|i: int|
                    0 <= i < lines@.len() ==> (#[trigger] lines@[i])@ == spec_status_line(
                        stats@[i].0@,
                        stats@[i].1,
                    )
            } else {
                details is None
            })
        }),
{
    if stats.len() == 0 {
        return CommandResponse::Info { short: "No tunnels".to_owned(), details: None };
    }
    let mut short = String::new();
    short.append("Tunnels: ");
    push_dec(stats.len() as u64, &mut short);
    proof {
        assert(short@ =~= "Tunnels: "@ + dec_digits(stats@.len() as nat));
    }
    if !long {
        return CommandResponse::Info { short, details: None };
    }
    let mut lines: Vec<String> = Vec::new();
    let mut i: usize = 0;
    while i < stats.len()
        invariant
            i <= stats@.len(),
            lines@.len() == i,
            forall|j: int|
                0 <= j < i ==> (#[trigger] lines@[j])@ == spec_status_line(
                    stats@[j].0@,
                    stats@[j].1,
                ),
        decreases stats@.len() - i,
    {
        let line = status_line(&stats[i].0, &stats[i].1);
        lines.push(line);
        i += 1;
    }
    CommandResponse::Info { short, details: Some(lines) }
}

/// Builds the `DETAIL` response from a remotes snapshot: the remote count
/// and one line per live remote.
pub fn detail_response(remotes: &Vec<(SocketSpec, RemoteStats)>) -> (r: CommandResponse)
    ensures
        ({
            &&& r matches CommandResponse::Info { short, details }
            &&& short@ == "Remotes: "@ + dec_digits(remotes@.len() as nat)
            &&& details matches Some(lines)
            &&& lines@.len() == remotes@.len()
            &&& forall|i: int|
                0 <= i < remotes@.len() ==> (#[trigger] lines@[i])@ == spec_remote_line(
                    remotes@[i].0@,
                    remotes@[i].1,
                )
        }),
{
    let mut short = String::new();
    short.append("Remotes: ");
    push_dec(remotes.len() as u64, &mut short);
    proof {
        assert(short@ =~= "Remotes: "@ + dec_digits(remotes@.len() as nat));
    }
    let mut lines: Vec<String> = Vec::new();
    let mut i: usize = 0;
    while i < remotes.len()
        invariant
            i <= remotes@.len(),
            lines@.len() == i,
            forall|j: int|
                0 <= j < i ==> (#[trigger] lines@[j])@ == spec_remote_line(
                    remotes@[j].0@,
                    remotes@[j].1,
                ),
        decreases remotes@.len() - i,
    {
        let line = remote_line(&remotes[i].0, &remotes[i].1);
        lines.push(line);
        i += 1;
    }
    CommandResponse::Info { short, details: Some(lines) }
}

/// Builds the `HELP` response: the fixed list of commands.
pub fn help_response() -> (r: CommandResponse)
    ensures
        ({
            &&& r matches CommandResponse::Info { short, details }
            &&& short@ == "commands"@
            &&& details matches Some(lines)
            &&& lines@.len() == 6
        }),
{
    let mut lines: Vec<String> = Vec::new();
    lines.push("OPEN tunnel".to_owned());
    lines.push("CLOSE socket_address".to_owned());
    lines.push("STATUS [full|long]".to_owned());
    lines.push("DETAIL tunnel".to_owned());
    lines.push("EXIT".to_owned());
    lines.push("HELP".to_owned());
    CommandResponse::Info { short: "commands".to_owned(), details: Some(lines) }
}

} // verus!
