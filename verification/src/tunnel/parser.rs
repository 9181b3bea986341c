//! The text grammar of socket specs and tunnel specs.
//!
//! ```text
//! tunnel  := socket '=' remotes ( '[' options ']' )?
//! remotes := socket ( ',' socket )*
//! socket  := port | ipv4 ':' port | hostname ':' port | '[' ipv6 ']' ':' port
//! options := name '=' value ( ',' name '=' value )*
//! ```
//!
//! A bare `port` stands for `127.0.0.1:port`.  Every parser here consumes a
//! prefix starting at a character position and is specified against a spec
//! function of the same shape, so the accepted language is pinned exactly.
use vstd::prelude::*;

use crate::error::Error;
use crate::state::strategy::{strategy_of_name, TunnelLBStrategy};
use crate::text::{
    all_digits, dec_digits, dec_val, digit_val, is_digit_char, lemma_dec_digits_are_digits,
    lemma_dec_val_of_digits, spec_lower,
};
use crate::tunnel::{SockKey, SocketSpec, Tunnel, TunnelOptions};

verus! {

pub open spec fn is_alpha_char(c: char) -> bool {
    (65 <= c as u32 && c as u32 <= 90) || (97 <= c as u32 && c as u32 <= 122)
}

pub open spec fn is_hex_char(c: char) -> bool {
    is_digit_char(c) || (65 <= c as u32 && c as u32 <= 70) || (97 <= c as u32 && c as u32 <= 102)
}

/// Characters allowed after the first character of a host name.
pub open spec fn is_host_char(c: char) -> bool {
    is_alpha_char(c) || is_digit_char(c) || c == '.' || c == '-'
}

/// Characters allowed between the brackets of an IPv6 literal.
pub open spec fn is_ipv6_char(c: char) -> bool {
    is_hex_char(c) || c == ':'
}

/// Characters allowed in an option name.
pub open spec fn is_option_name_char_spec(c: char) -> bool {
    is_alpha_char(c) || is_digit_char(c) || c == '_' || c == '-'
}

/// Characters allowed in an option value: anything up to the separator or
/// the closing bracket.
pub open spec fn is_option_value_char(c: char) -> bool {
    c != ',' && c != ']'
}

/// ASCII whitespace, as tolerated after a socket spec.
pub open spec fn is_ws_char(c: char) -> bool {
    c == ' ' || c == '\t' || c == '\r' || c == '\n'
}

/// The character classes the scanners below run over.
#[derive(Clone, Copy, Debug, PartialEq, Eq, Structural)]
pub enum CharKind {
    Digit,
    Alpha,
    HexDigit,
    HostChar,
    Ipv6Char,
    OptionNameChar,
    OptionValueChar,
    WsChar,
    NotSpace,
}

pub open spec fn kind_matches(k: CharKind, c: char) -> bool {
    match k {
        CharKind::Digit => is_digit_char(c),
        CharKind::Alpha => is_alpha_char(c),
        CharKind::HexDigit => is_hex_char(c),
        CharKind::HostChar => is_host_char(c),
        CharKind::Ipv6Char => is_ipv6_char(c),
        CharKind::OptionNameChar => is_option_name_char_spec(c),
        CharKind::OptionValueChar => is_option_value_char(c),
        CharKind::WsChar => is_ws_char(c),
        CharKind::NotSpace => c != ' ',
    }
}

pub fn char_is(k: CharKind, c: char) -> (r: bool)
    ensures
        r == kind_matches(k, c),
{
    let n = c as u32;
    match k {
        CharKind::Digit => 48 <= n && n <= 57,
        CharKind::Alpha => (65 <= n && n <= 90) || (97 <= n && n <= 122),
        CharKind::HexDigit => (48 <= n && n <= 57) || (65 <= n && n <= 70) || (97 <= n && n
            <= 102),
        CharKind::HostChar => (65 <= n && n <= 90) || (97 <= n && n <= 122) || (48 <= n && n <= 57)
            || c == '.' || c == '-',
        CharKind::Ipv6Char => (48 <= n && n <= 57) || (65 <= n && n <= 70) || (97 <= n && n <= 102)
            || c == ':',
        CharKind::OptionNameChar => (65 <= n && n <= 90) || (97 <= n && n <= 122) || (48 <= n && n
            <= 57) || c == '_' || c == '-',
        CharKind::OptionValueChar => c != ',' && c != ']',
        CharKind::WsChar => c == ' ' || c == '\t' || c == '\r' || c == '\n',
        CharKind::NotSpace => c != ' ',
    }
}

/// Where the run of `k`-characters beginning at `from` ends: the first
/// position at or after `from` whose character falls outside the class, or
/// the end of the text.
pub open spec fn run_end(s: Seq<char>, from: int, k: CharKind) -> int
    decreases s.len() - from,
{
    if from < 0 || from >= s.len() {
        from
    } else if kind_matches(k, s[from]) {
        run_end(s, from + 1, k)
    } else {
        from
    }
}

pub proof fn lemma_run_end(s: Seq<char>, from: int, k: CharKind)
    requires
        0 <= from <= s.len(),
    ensures
        from <= run_end(s, from, k) <= s.len(),
        forall|i: int| from <= i < run_end(s, from, k) ==> kind_matches(k, #[trigger] s[i]),
        run_end(s, from, k) == s.len() || !kind_matches(k, s[run_end(s, from, k)]),
    decreases s.len() - from,
{
    if from < s.len() && kind_matches(k, s[from]) {
        lemma_run_end(s, from + 1, k);
    }
}

/// The run end is the unique position bounding a fully-matching run whose
/// following character (if any) falls outside the class.
pub proof fn lemma_run_end_is(s: Seq<char>, from: int, e: int, k: CharKind)
    requires
        0 <= from <= e <= s.len(),
        forall|i: int| from <= i < e ==> kind_matches(k, #[trigger] s[i]),
        e == s.len() || !kind_matches(k, s[e]),
    ensures
        run_end(s, from, k) == e,
    decreases s.len() - from,
{
    if from < s.len() && kind_matches(k, s[from]) {
        lemma_run_end_is(s, from + 1, e, k);
    }
}

/// Scans the run of `k`-characters beginning at `from`.
pub fn scan_run(s: &str, from: usize, k: CharKind) -> (r: usize)
    requires
        from <= s@.len(),
    ensures
        r == run_end(s@, from as int, k),
        from <= r <= s@.len(),
{
    proof {
        lemma_run_end(s@, from as int, k);
    }
    let len = s.unicode_len();
    let mut i: usize = from;
    while i < len
        invariant
            from <= i <= len,
            len == s@.len(),
            run_end(s@, from as int, k) == run_end(s@, i as int, k),
            forall|j: int| from <= j < i ==> kind_matches(k, #[trigger] s@[j]),
        decreases len - i,
    {
        if !char_is(k, s.get_char(i)) {
            proof {
                lemma_run_end_is(s@, i as int, i as int, k);
            }
            return i;
        }
        i += 1;
    }
    proof {
        lemma_run_end_is(s@, i as int, i as int, k);
    }
    i
}

/// A digit string's value never shrinks as the string grows to the right.
pub proof fn lemma_dec_val_take_le(s: Seq<char>, j: int)
    requires
        0 <= j <= s.len(),
    ensures
        dec_val(s.take(j)) <= dec_val(s),
    decreases s.len() - j,
{
    if j == s.len() {
        assert(s.take(j) =~= s);
    } else {
        lemma_dec_val_take_le(s, j + 1);
        let t = s.take(j + 1);
        assert(t.drop_last() =~= s.take(j));
        assert(t.last() == s[j]);
        assert(dec_val(t) == dec_val(s.take(j)) * 10 + digit_val(s[j]));
        assert(dec_val(s.take(j)) * 10 >= dec_val(s.take(j))) by (nonlinear_arith);
    }
}

/// The value of the digit run beginning at `from`, where the run is
/// non-empty and its value stays within `cap`; the position after the run
/// comes with it.
pub open spec fn spec_bounded_dec(s: Seq<char>, from: int, cap: u64) -> Option<(int, u64)> {
    let end = run_end(s, from, CharKind::Digit);
    if end == from {
        None
    } else if dec_val(s.subrange(from, end)) <= cap {
        Some((end, dec_val(s.subrange(from, end)) as u64))
    } else {
        None
    }
}

/// Reads the digit run beginning at `from` as a number, refusing an empty
/// run and a value above `cap`.
pub fn bounded_dec_at(s: &str, from: usize, cap: u64) -> (r: Option<(usize, u64)>)
    requires
        from <= s@.len(),
    ensures
        match r {
            Some((end, v)) => spec_bounded_dec(s@, from as int, cap) == Some((end as int, v)) && from
                < end <= s@.len(),
            None => spec_bounded_dec(s@, from as int, cap) is None,
        },
{
    let end = scan_run(s, from, CharKind::Digit);
    if end == from {
        return None;
    }
    proof {
        lemma_run_end(s@, from as int, CharKind::Digit);
    }
    let ghost digits = s@.subrange(from as int, end as int);
    let mut val: u64 = 0;
    let mut i: usize = from;
    while i < end
        invariant
            from <= i <= end <= s@.len(),
            end == run_end(s@, from as int, CharKind::Digit),
            digits == s@.subrange(from as int, end as int),
            forall|j: int| from <= j < end ==> is_digit_char(#[trigger] s@[j]),
            val == dec_val(digits.take(i - from)),
            val <= cap,
            cap <= u64::MAX,
        decreases end - i,
    {
        let c = s.get_char(i);
        let d: u64 = (c as u32 - 48) as u64;
        proof {
            assert(digits.take(i + 1 - from).drop_last() =~= digits.take(i - from));
            assert(digits.take(i + 1 - from).last() == s@[i as int]);
            assert(dec_val(digits.take(i + 1 - from)) == dec_val(digits.take(i - from)) * 10
                + digit_val(s@[i as int]));
        }
        if val > cap / 10 || val * 10 > u64::MAX - d || val * 10 + d > cap {
            proof {
                if val > cap / 10 {
                    assert(val * 10 > cap) by (nonlinear_arith)
                        requires
                            val > cap / 10,
                            cap >= 0,
                    ;
                }
                assert(dec_val(digits.take(i + 1 - from)) > cap);
                lemma_dec_val_take_le(digits, i + 1 - from);
            }
            return None;
        }
        val = val * 10 + d;
        i += 1;
    }
    proof {
        assert(digits.take(end - from) =~= digits);
    }
    Some((end, val))
}

/// Where a host name beginning at `from` ends: a letter, then letters,
/// digits, dots and hyphens, not ending in a dot or a hyphen.
pub open spec fn spec_host_name(s: Seq<char>, from: int) -> Option<int> {
    if from < s.len() && is_alpha_char(s[from]) {
        let end = run_end(s, from, CharKind::HostChar);
        if s[end - 1] == '.' || s[end - 1] == '-' {
            None
        } else {
            Some(end)
        }
    } else {
        None
    }
}

pub fn host_name_at(s: &str, from: usize) -> (r: Option<usize>)
    requires
        from <= s@.len(),
    ensures
        match r {
            Some(end) => spec_host_name(s@, from as int) == Some(end as int) && from < end
                <= s@.len(),
            None => spec_host_name(s@, from as int) is None,
        },
{
    let len = s.unicode_len();
    if from < len && char_is(CharKind::Alpha, s.get_char(from)) {
        let end = scan_run(s, from, CharKind::HostChar);
        proof {
            lemma_run_end(s@, from as int, CharKind::HostChar);
            assert(kind_matches(CharKind::HostChar, s@[from as int]));
            assert(end > from);
        }
        let last = s.get_char(end - 1);
        if last == '.' || last == '-' {
            None
        } else {
            Some(end)
        }
    } else {
        None
    }
}

/// Where one dotted-quad octet beginning at `from` ends: a digit run whose
/// value stays within 255.
pub open spec fn spec_octet_end(s: Seq<char>, from: int) -> Option<int> {
    match spec_bounded_dec(s, from, 255) {
        Some((end, _v)) => Some(end),
        None => None,
    }
}

/// Where an IPv4 literal beginning at `from` ends: four octets separated by
/// dots.
pub open spec fn spec_ipv4(s: Seq<char>, from: int) -> Option<int> {
    match spec_octet_end(s, from) {
        Some(e1) => if e1 < s.len() && s[e1] == '.' {
            match spec_octet_end(s, e1 + 1) {
                Some(e2) => if e2 < s.len() && s[e2] == '.' {
                    match spec_octet_end(s, e2 + 1) {
                        Some(e3) => if e3 < s.len() && s[e3] == '.' {
                            spec_octet_end(s, e3 + 1)
                        } else {
                            None
                        },
                        None => None,
                    }
                } else {
                    None
                },
                None => None,
            }
        } else {
            None
        },
        None => None,
    }
}

fn octet_end_at(s: &str, from: usize) -> (r: Option<usize>)
    requires
        from <= s@.len(),
    ensures
        match r {
            Some(end) => spec_octet_end(s@, from as int) == Some(end as int) && from < end
                <= s@.len(),
            None => spec_octet_end(s@, from as int) is None,
        },
{
    match bounded_dec_at(s, from, 255) {
        Some((end, _v)) => Some(end),
        None => None,
    }
}

pub fn ipv4_at(s: &str, from: usize) -> (r: Option<usize>)
    requires
        from <= s@.len(),
    ensures
        match r {
            Some(end) => spec_ipv4(s@, from as int) == Some(end as int) && from < end <= s@.len(),
            None => spec_ipv4(s@, from as int) is None,
        },
{
    let len = s.unicode_len();
    let e1 = match octet_end_at(s, from) {
        Some(e) => e,
        None => {
            return None;
        },
    };
    if !(e1 < len && s.get_char(e1) == '.') {
        return None;
    }
    let e2 = match octet_end_at(s, e1 + 1) {
        Some(e) => e,
        None => {
            return None;
        },
    };
    if !(e2 < len && s.get_char(e2) == '.') {
        return None;
    }
    let e3 = match octet_end_at(s, e2 + 1) {
        Some(e) => e,
        None => {
            return None;
        },
    };
    if !(e3 < len && s.get_char(e3) == '.') {
        return None;
    }
    match octet_end_at(s, e3 + 1) {
        Some(e4) => Some(e4),
        None => None,
    }
}

/// Five hexadecimal characters in a row starting at `i`.
pub open spec fn all_hex5(s: Seq<char>, i: int) -> bool {
    is_hex_char(s[i]) && is_hex_char(s[i + 1]) && is_hex_char(s[i + 2]) && is_hex_char(s[i + 3])
        && is_hex_char(s[i + 4])
}

/// Between `lo` and `hi` the text is made of hex-digit groups of at most
/// four characters, separated by colons.
pub open spec fn segments_ok(s: Seq<char>, lo: int, hi: int) -> bool {
    forall|w: int| lo <= w && w + 5 <= hi ==> !#[trigger] all_hex5(s, w)
}

/// Where an IPv6 literal beginning at `from` ends (after its closing
/// bracket), with the bounds of the bracket-free inner text.
pub open spec fn spec_ipv6(s: Seq<char>, from: int) -> Option<(int, int, int)> {
    if from < s.len() && s[from] == '[' {
        let e = run_end(s, from + 1, CharKind::Ipv6Char);
        if e < s.len() && s[e] == ']' && segments_ok(s, from + 1, e) {
            Some((e + 1, from + 1, e))
        } else {
            None
        }
    } else {
        None
    }
}

fn check_segments(s: &str, lo: usize, hi: usize) -> (r: bool)
    requires
        lo <= hi <= s@.len(),
    ensures
        r == segments_ok(s@, lo as int, hi as int),
{
    let mut run: usize = 0;
    let mut i: usize = lo;
    while i < hi
        invariant
            lo <= i <= hi <= s@.len(),
            run <= i - lo,
            run <= 4,
            forall|j: int| i - run <= j < i ==> is_hex_char(#[trigger] s@[j]),
            i - run == lo || !is_hex_char(s@[i - run - 1]),
            forall|w: int| lo <= w && w + 5 <= i ==> !#[trigger] all_hex5(s@, w),
        decreases hi - i,
    {
        if char_is(CharKind::HexDigit, s.get_char(i)) {
            if run == 4 {
                assert(all_hex5(s@, i - 4));
                return false;
            }
            run += 1;
        } else {
            run = 0;
        }
        i += 1;
        proof {
            assert forall|w: int| lo <= w && w + 5 <= i implies !#[trigger] all_hex5(s@, w) by {
                if w + 5 == i {
                    if is_hex_char(s@[i - 1]) {
                        assert(!is_hex_char(s@[i - 1 - run]));
                        assert(i - 1 - run >= w);
                    }
                }
            }
        }
    }
    true
}

pub fn ipv6_at(s: &str, from: usize) -> (r: Option<(usize, usize, usize)>)
    requires
        from <= s@.len(),
    ensures
        match r {
            Some((end, lo, hi)) => spec_ipv6(s@, from as int) == Some(
                (end as int, lo as int, hi as int),
            ) && from < end <= s@.len() && from < lo <= hi < end,
            None => spec_ipv6(s@, from as int) is None,
        },
{
    let len = s.unicode_len();
    if from < len && s.get_char(from) == '[' {
        let e = scan_run(s, from + 1, CharKind::Ipv6Char);
        if e < len && s.get_char(e) == ']' {
            if check_segments(s, from + 1, e) {
                Some((e + 1, from + 1, e))
            } else {
                None
            }
        } else {
            None
        }
    } else {
        None
    }
}

/// The host part of a socket spec beginning at `from`: a host name, an IPv4
/// literal, or a bracketed IPv6 literal, together with the position after it
/// and the host text itself (bracket-free for IPv6).
pub open spec fn spec_host_token(s: Seq<char>, from: int) -> Option<(int, Seq<char>)> {
    if from >= s.len() {
        None
    } else if is_alpha_char(s[from]) {
        match spec_host_name(s, from) {
            Some(e) => Some((e, s.subrange(from, e))),
            None => None,
        }
    } else if s[from] == '[' {
        match spec_ipv6(s, from) {
            Some((e, lo, hi)) => Some((e, s.subrange(lo, hi))),
            None => None,
        }
    } else if is_digit_char(s[from]) {
        match spec_ipv4(s, from) {
            Some(e) => Some((e, s.subrange(from, e))),
            None => None,
        }
    } else {
        None
    }
}

/// A full socket spec beginning at `from`.  A host part followed by a colon
/// and a port wins; otherwise a bare port stands for a loopback host.
pub open spec fn spec_socket_spec(s: Seq<char>, from: int) -> Option<(int, SockKey)> {
    let via_host = match spec_host_token(s, from) {
        Some((hend, host)) => if hend < s.len() && s[hend] == ':' {
            match spec_bounded_dec(s, hend + 1, 65535) {
                Some((pend, p)) => Some((pend, SockKey { host, port: p as u16 })),
                None => None,
            }
        } else {
            None
        },
        None => None,
    };
    match via_host {
        Some(r) => Some(r),
        None => match spec_bounded_dec(s, from, 65535) {
            Some((pend, p)) => Some((pend, SockKey { host: "127.0.0.1"@, port: p as u16 })),
            None => None,
        },
    }
}

fn host_token_at(s: &str, from: usize) -> (r: Option<(usize, String)>)
    requires
        from <= s@.len(),
    ensures
        match r {
            Some((end, host)) => spec_host_token(s@, from as int) == Some((end as int, host@))
                && from < end <= s@.len(),
            None => spec_host_token(s@, from as int) is None,
        },
{
    let len = s.unicode_len();
    if from >= len {
        return None;
    }
    let c = s.get_char(from);
    if char_is(CharKind::Alpha, c) {
        match host_name_at(s, from) {
            Some(e) => Some((e, s.substring_char(from, e).to_owned())),
            None => None,
        }
    } else if c == '[' {
        match ipv6_at(s, from) {
            Some((e, lo, hi)) => Some((e, s.substring_char(lo, hi).to_owned())),
            None => None,
        }
    } else if char_is(CharKind::Digit, c) {
        match ipv4_at(s, from) {
            Some(e) => Some((e, s.substring_char(from, e).to_owned())),
            None => None,
        }
    } else {
        None
    }
}

pub fn socket_spec_at(s: &str, from: usize) -> (r: Option<(usize, SocketSpec)>)
    requires
        from <= s@.len(),
    ensures
        match r {
            Some((end, sp)) => spec_socket_spec(s@, from as int) == Some((end as int, sp@)) && from
                < end <= s@.len(),
            None => spec_socket_spec(s@, from as int) is None,
        },
{
    let len = s.unicode_len();
    match host_token_at(s, from) {
        Some((hend, host)) => {
            if hend < len && s.get_char(hend) == ':' {
                match bounded_dec_at(s, hend + 1, 65535) {
                    Some((pend, p)) => {
                        return Some((pend, SocketSpec { host, port: p as u16 }));
                    },
                    None => {},
                }
            }
        },
        None => {},
    }
    match bounded_dec_at(s, from, 65535) {
        Some((pend, p)) => Some((pend, SocketSpec { host: "127.0.0.1".to_owned(), port: p as u16 })),
        None => None,
    }
}

pub proof fn lemma_bounded_dec_bounds(s: Seq<char>, from: int, cap: u64)
    requires
        0 <= from <= s.len(),
    ensures
        match spec_bounded_dec(s, from, cap) {
            Some((e, _v)) => from < e <= s.len(),
            None => true,
        },
{
    lemma_run_end(s, from, CharKind::Digit);
}

pub proof fn lemma_host_token_bounds(s: Seq<char>, from: int)
    requires
        0 <= from <= s.len(),
    ensures
        match spec_host_token(s, from) {
            Some((hend, _host)) => from < hend <= s.len(),
            None => true,
        },
{
    if from < s.len() {
        if is_alpha_char(s[from]) {
            lemma_run_end(s, from, CharKind::HostChar);
        } else if s[from] == '[' {
            lemma_run_end(s, from + 1, CharKind::Ipv6Char);
        } else if is_digit_char(s[from]) {
            if spec_ipv4(s, from) is Some {
                lemma_bounded_dec_bounds(s, from, 255);
                let e1 = spec_octet_end(s, from).unwrap();
                lemma_bounded_dec_bounds(s, e1 + 1, 255);
                let e2 = spec_octet_end(s, e1 + 1).unwrap();
                lemma_bounded_dec_bounds(s, e2 + 1, 255);
                let e3 = spec_octet_end(s, e2 + 1).unwrap();
                lemma_bounded_dec_bounds(s, e3 + 1, 255);
            }
        }
    }
}

pub proof fn lemma_socket_spec_bounds(s: Seq<char>, from: int)
    requires
        0 <= from <= s.len(),
    ensures
        match spec_socket_spec(s, from) {
            Some((e, _k)) => from < e <= s.len(),
            None => true,
        },
{
    lemma_host_token_bounds(s, from);
    match spec_host_token(s, from) {
        Some((hend, _host)) => {
            if hend < s.len() && s[hend] == ':' {
                lemma_bounded_dec_bounds(s, hend + 1, 65535);
            }
            lemma_bounded_dec_bounds(s, from, 65535);
        },
        None => {
            lemma_bounded_dec_bounds(s, from, 65535);
        },
    }
}

/// The value of an option: a non-empty digit string within `cap`.
pub open spec fn spec_dec_u64_full(v: Seq<char>, cap: u64) -> Option<u64> {
    if v.len() >= 1 && all_digits(v) && dec_val(v) <= cap {
        Some(dec_val(v) as u64)
    } else {
        None
    }
}

/// Reads a whole option value as a number within `cap`.
pub fn parse_u64_value(v: &str, cap: u64) -> (r: Option<u64>)
    ensures
        r == spec_dec_u64_full(v@, cap),
{
    let len = v.unicode_len();
    let e = scan_run(v, 0, CharKind::Digit);
    proof {
        lemma_run_end(v@, 0, CharKind::Digit);
    }
    if len == 0 || e != len {
        return None;
    }
    match bounded_dec_at(v, 0, cap) {
        Some((_end, val)) => {
            proof {
                assert(v@.subrange(0, len as int) =~= v@);
            }
            Some(val)
        },
        None => {
            proof {
                assert(v@.subrange(0, len as int) =~= v@);
            }
            None
        },
    }
}

/// The largest number of whole seconds that still converts to
/// milliseconds within a 64-bit count.
pub open spec fn max_secs() -> u64 {
    ((u64::MAX - 999) / 1000) as u64
}

/// The milliseconds encoded by up to three fractional-second digits.
pub open spec fn frac_ms(d: Seq<char>) -> u64 {
    if d.len() == 0 {
        0u64
    } else if d.len() == 1 {
        (digit_val(d[0]) * 100) as u64
    } else if d.len() == 2 {
        (digit_val(d[0]) * 100 + digit_val(d[1]) * 10) as u64
    } else {
        (digit_val(d[0]) * 100 + digit_val(d[1]) * 10 + digit_val(d[2])) as u64
    }
}

/// The value of a duration option: seconds with an optional decimal
/// fraction, converted to milliseconds (fractions beyond milliseconds are
/// dropped).
pub open spec fn spec_duration_ms(v: Seq<char>) -> Option<u64> {
    let ip = run_end(v, 0, CharKind::Digit);
    if v.len() == 0 {
        None
    } else if ip == v.len() {
        if dec_val(v) <= max_secs() {
            Some((dec_val(v) * 1000) as u64)
        } else {
            None
        }
    } else if v[ip] == '.' {
        let fp = run_end(v, ip + 1, CharKind::Digit);
        if fp == v.len() && (ip > 0 || fp > ip + 1) {
            if dec_val(v.take(ip)) <= max_secs() {
                Some((dec_val(v.take(ip)) * 1000 + frac_ms(v.subrange(ip + 1, fp))) as u64)
            } else {
                None
            }
        } else {
            None
        }
    } else {
        None
    }
}

/// Reads a whole option value as a duration in milliseconds.
pub fn parse_duration_value(v: &str) -> (r: Option<u64>)
    ensures
        r == spec_duration_ms(v@),
{
    let len = v.unicode_len();
    if len == 0 {
        return None;
    }
    let ip = scan_run(v, 0, CharKind::Digit);
    proof {
        lemma_run_end(v@, 0, CharKind::Digit);
    }
    let cap: u64 = (u64::MAX - 999) / 1000;
    if ip == len {
        match bounded_dec_at(v, 0, cap) {
            Some((_e, secs)) => {
                proof {
                    assert(v@.subrange(0, len as int) =~= v@);
                }
                Some(secs * 1000)
            },
            None => {
                proof {
                    assert(v@.subrange(0, len as int) =~= v@);
                }
                None
            },
        }
    } else if v.get_char(ip) == '.' {
        let fp = scan_run(v, ip + 1, CharKind::Digit);
        proof {
            lemma_run_end(v@, ip as int + 1, CharKind::Digit);
        }
        if !(fp == len && (ip > 0 || fp > ip + 1)) {
            return None;
        }
        let ghost whole_digits = v@.take(ip as int);
        let mut secs: u64 = 0;
        if ip > 0 {
            match bounded_dec_at(v, 0, cap) {
                Some((e, w)) => {
                    proof {
                        lemma_run_end_is(v@, 0, ip as int, CharKind::Digit);
                        assert(v@.subrange(0, ip as int) =~= whole_digits);
                    }
                    secs = w;
                },
                None => {
                    proof {
                        lemma_run_end_is(v@, 0, ip as int, CharKind::Digit);
                        assert(v@.subrange(0, ip as int) =~= whole_digits);
                    }
                    return None;
                },
            }
        } else {
            proof {
                assert(whole_digits =~= Seq::<char>::empty());
            }
        }
        let mut frac: u64 = 0;
        if fp > ip + 1 {
            let d0 = v.get_char(ip + 1);
            frac = ((d0 as u32 - 48) as u64) * 100;
            if fp > ip + 2 {
                let d1 = v.get_char(ip + 2);
                frac = frac + ((d1 as u32 - 48) as u64) * 10;
                if fp > ip + 3 {
                    let d2 = v.get_char(ip + 3);
                    frac = frac + ((d2 as u32 - 48) as u64);
                }
            }
        }
        proof {
            let d = v@.subrange(ip as int + 1, fp as int);
            assert(forall|j: int| ip + 1 <= j < fp ==> is_digit_char(#[trigger] v@[j]));
            if d.len() >= 1 {
                assert(d[0] == v@[ip as int + 1]);
            }
            if d.len() >= 2 {
                assert(d[1] == v@[ip as int + 2]);
            }
            if d.len() >= 3 {
                assert(d[2] == v@[ip as int + 3]);
            }
            assert(frac == frac_ms(d));
        }
        Some(secs * 1000 + frac)
    } else {
        None
    }
}

/// The value of a boolean option: `true` or `false`, case-insensitively.
pub open spec fn spec_bool_value(v: Seq<char>) -> Option<bool> {
    if spec_lower(v) == "true"@ {
        Some(true)
    } else if spec_lower(v) == "false"@ {
        Some(false)
    } else {
        None
    }
}

pub fn parse_bool_value(v: &str) -> (r: Option<bool>)
    ensures
        r == spec_bool_value(v@),
{
    proof {
        reveal_strlit("true");
        reveal_strlit("false");
        assert(spec_lower("true"@) =~= "true"@);
        assert(spec_lower("false"@) =~= "false"@);
    }
    if crate::text::eq_ignore_ascii_case(v, "true") {
        Some(true)
    } else if crate::text::eq_ignore_ascii_case(v, "false") {
        Some(false)
    } else {
        None
    }
}

/// One option applied to the accumulated options, `None` where the name is
/// unknown or the value does not parse.
pub open spec fn spec_apply_option(o: TunnelOptions, name: Seq<char>, value: Seq<char>) -> Option<
    TunnelOptions,
> {
    let n = spec_lower(name);
    if n == "strategy"@ {
        match strategy_of_name(value) {
            Some(st) => Some(TunnelOptions { lb_strategy: st, ..o }),
            None => None,
        }
    } else if n == "retries"@ {
        match spec_dec_u64_full(value, 65535) {
            Some(x) => Some(TunnelOptions { remote_connect_retries: x as u16, ..o }),
            None => None,
        }
    } else if n == "timeout"@ {
        match spec_duration_ms(value) {
            Some(ms) => Some(
                TunnelOptions {
                    options: crate::tunnel::TunnelRemoteOptions {
                        connect_timeout_ms: ms,
                        ..o.options
                    },
                    ..o
                },
            ),
            None => None,
        }
    } else if n == "errors"@ {
        match spec_dec_u64_full(value, u64::MAX) {
            Some(x) => Some(
                TunnelOptions {
                    options: crate::tunnel::TunnelRemoteOptions { errors_till_dead: x, ..o.options },
                    ..o
                },
            ),
            None => None,
        }
    } else if n == "check-interval"@ {
        match spec_duration_ms(value) {
            Some(ms) => Some(
                TunnelOptions {
                    options: crate::tunnel::TunnelRemoteOptions { dead_retry_ms: ms, ..o.options },
                    ..o
                },
            ),
            None => None,
        }
    } else if n == "remote-tls"@ {
        match spec_bool_value(value) {
            Some(b) => Some(
                TunnelOptions {
                    options: crate::tunnel::TunnelRemoteOptions { tls: b, ..o.options },
                    ..o
                },
            ),
            None => None,
        }
    } else {
        None
    }
}

proof fn lemma_option_names_lowercase()
    ensures
        spec_lower("strategy"@) == "strategy"@,
        spec_lower("retries"@) == "retries"@,
        spec_lower("timeout"@) == "timeout"@,
        spec_lower("errors"@) == "errors"@,
        spec_lower("check-interval"@) == "check-interval"@,
        spec_lower("remote-tls"@) == "remote-tls"@,
{
    reveal_strlit("strategy");
    reveal_strlit("retries");
    reveal_strlit("timeout");
    reveal_strlit("errors");
    reveal_strlit("check-interval");
    reveal_strlit("remote-tls");
    assert(spec_lower("strategy"@) =~= "strategy"@);
    assert(spec_lower("retries"@) =~= "retries"@);
    assert(spec_lower("timeout"@) =~= "timeout"@);
    assert(spec_lower("errors"@) =~= "errors"@);
    assert(spec_lower("check-interval"@) =~= "check-interval"@);
    assert(spec_lower("remote-tls"@) =~= "remote-tls"@);
}

fn apply_option(o: TunnelOptions, name: &str, value: &str) -> (r: Option<TunnelOptions>)
    ensures
        r == spec_apply_option(o, name@, value@),
{
    proof {
        lemma_option_names_lowercase();
    }
    if crate::text::eq_ignore_ascii_case(name, "strategy") {
        match TunnelLBStrategy::from_name(value) {
            Ok(st) => Some(TunnelOptions { lb_strategy: st, ..o }),
            Err(_) => None,
        }
    } else if crate::text::eq_ignore_ascii_case(name, "retries") {
        match parse_u64_value(value, 65535) {
            Some(x) => Some(TunnelOptions { remote_connect_retries: x as u16, ..o }),
            None => None,
        }
    } else if crate::text::eq_ignore_ascii_case(name, "timeout") {
        match parse_duration_value(value) {
            Some(ms) => Some(
                TunnelOptions {
                    options: crate::tunnel::TunnelRemoteOptions {
                        connect_timeout_ms: ms,
                        ..o.options
                    },
                    ..o
                },
            ),
            None => None,
        }
    } else if crate::text::eq_ignore_ascii_case(name, "errors") {
        match parse_u64_value(value, u64::MAX) {
            Some(x) => Some(
                TunnelOptions {
                    options: crate::tunnel::TunnelRemoteOptions { errors_till_dead: x, ..o.options },
                    ..o
                },
            ),
            None => None,
        }
    } else if crate::text::eq_ignore_ascii_case(name, "check-interval") {
        match parse_duration_value(value) {
            Some(ms) => Some(
                TunnelOptions {
                    options: crate::tunnel::TunnelRemoteOptions { dead_retry_ms: ms, ..o.options },
                    ..o
                },
            ),
            None => None,
        }
    } else if crate::text::eq_ignore_ascii_case(name, "remote-tls") {
        match parse_bool_value(value) {
            Some(b) => Some(
                TunnelOptions {
                    options: crate::tunnel::TunnelRemoteOptions { tls: b, ..o.options },
                    ..o
                },
            ),
            None => None,
        }
    } else {
        None
    }
}

/// Whether a structurally well-formed `name=value` pair begins at `p`.
pub open spec fn pair_ahead(s: Seq<char>, p: int) -> bool {
    let ne = run_end(s, p, CharKind::OptionNameChar);
    ne < s.len() && s[ne] == '='
}

/// Parses `name=value` pairs separated by commas, folding each into the
/// accumulated options; ends before the first character that cannot begin
/// another pair.  `None` where a name is unknown or a value is malformed.
pub open spec fn spec_options_fold(s: Seq<char>, from: int, acc: TunnelOptions) -> Option<
    (int, TunnelOptions),
>
    decreases s.len() - from,
    via spec_options_fold_dec
{
    if !(0 <= from <= s.len()) {
        None
    } else {
        let ne = run_end(s, from, CharKind::OptionNameChar);
        if ne < s.len() && s[ne] == '=' {
            let ve = run_end(s, ne + 1, CharKind::OptionValueChar);
            match spec_apply_option(acc, s.subrange(from, ne), s.subrange(ne + 1, ve)) {
                Some(acc2) => if ve < s.len() && s[ve] == ',' && pair_ahead(s, ve + 1) {
                    spec_options_fold(s, ve + 1, acc2)
                } else {
                    Some((ve, acc2))
                },
                None => None,
            }
        } else {
            None
        }
    }
}

#[via_fn]
proof fn spec_options_fold_dec(s: Seq<char>, from: int, acc: TunnelOptions) {
    if 0 <= from <= s.len() {
        lemma_run_end(s, from, CharKind::OptionNameChar);
        let ne = run_end(s, from, CharKind::OptionNameChar);
        if ne < s.len() {
            lemma_run_end(s, ne + 1, CharKind::OptionValueChar);
        }
    }
}

pub fn options_fold_at(s: &str, from: usize, acc: TunnelOptions) -> (r: Option<
    (usize, TunnelOptions),
>)
    requires
        from <= s@.len(),
    ensures
        match r {
            Some((e, o)) => spec_options_fold(s@, from as int, acc) == Some((e as int, o)) && from
                <= e <= s@.len(),
            None => spec_options_fold(s@, from as int, acc) is None,
        },
    decreases s@.len() - from,
{
    let len = s.unicode_len();
    let ne = scan_run(s, from, CharKind::OptionNameChar);
    if !(ne < len && s.get_char(ne) == '=') {
        return None;
    }
    let ve = scan_run(s, ne + 1, CharKind::OptionValueChar);
    let name = s.substring_char(from, ne);
    let value = s.substring_char(ne + 1, ve);
    let acc2 = match apply_option(acc, name, value) {
        Some(a) => a,
        None => {
            return None;
        },
    };
    if ve < len && s.get_char(ve) == ',' {
        let ne2 = scan_run(s, ve + 1, CharKind::OptionNameChar);
        if ne2 < len && s.get_char(ne2) == '=' {
            return options_fold_at(s, ve + 1, acc2);
        }
    }
    Some((ve, acc2))
}

/// The comma-separated list of remote socket specs beginning at `from`:
/// at least one, extending while a comma is followed by another spec.
pub open spec fn spec_remotes(s: Seq<char>, from: int) -> Option<(int, Seq<SockKey>)>
    decreases s.len() - from,
    via spec_remotes_dec
{
    if !(0 <= from <= s.len()) {
        None
    } else {
        match spec_socket_spec(s, from) {
            Some((e, k)) => if e < s.len() && s[e] == ',' {
                match spec_remotes(s, e + 1) {
                    Some((e2, rest)) => Some((e2, seq![k] + rest)),
                    None => Some((e, seq![k])),
                }
            } else {
                Some((e, seq![k]))
            },
            None => None,
        }
    }
}

#[via_fn]
proof fn spec_remotes_dec(s: Seq<char>, from: int) {
    if 0 <= from <= s.len() {
        lemma_socket_spec_bounds(s, from);
    }
}

pub fn remotes_at(s: &str, from: usize, out: &mut Vec<SocketSpec>) -> (r: Option<usize>)
    requires
        from <= s@.len(),
    ensures
        match r {
            Some(e) => {
                &&& spec_remotes(s@, from as int) matches Some((se, ks)) && se == e as int
                    && crate::tunnel::keys_of(final(out)@) == crate::tunnel::keys_of(old(out)@) + ks
                &&& from < e <= s@.len()
                &&& final(out)@.len() > old(out)@.len()
            },
            None => spec_remotes(s@, from as int) is None && final(out)@ == old(out)@,
        },
    decreases s@.len() - from,
{
    let len = s.unicode_len();
    match socket_spec_at(s, from) {
        Some((e, sp)) => {
            let ghost k = sp@;
            out.push(sp);
            proof {
                assert(crate::tunnel::keys_of(out@) =~= crate::tunnel::keys_of(old(out)@)
                    + seq![k]);
            }
            if e < len && s.get_char(e) == ',' {
                let ghost mid = out@;
                match remotes_at(s, e + 1, out) {
                    Some(e2) => {
                        proof {
                            let (se2, rest) = spec_remotes(s@, e as int + 1).unwrap();
                            assert(crate::tunnel::keys_of(out@) =~= crate::tunnel::keys_of(
                                old(out)@,
                            ) + (seq![k] + rest));
                        }
                        Some(e2)
                    },
                    None => Some(e),
                }
            } else {
                Some(e)
            }
        },
        None => None,
    }
}

/// The mathematical value of a whole tunnel spec.
pub ghost struct TunnelShape {
    pub local: SockKey,
    pub remotes: Seq<SockKey>,
    pub options: Option<TunnelOptions>,
}

/// A whole tunnel spec: a local socket, `=`, the remotes, and an optional
/// bracketed option block, with nothing after it.  Option values left out
/// of the block keep the given defaults.
pub open spec fn spec_tunnel(s: Seq<char>, defaults: TunnelOptions) -> Option<TunnelShape> {
    match spec_socket_spec(s, 0) {
        Some((e1, local)) => if e1 < s.len() && s[e1] == '=' {
            match spec_remotes(s, e1 + 1) {
                Some((e2, rs)) => if e2 == s.len() {
                    Some(TunnelShape { local, remotes: rs, options: None })
                } else if s[e2] == '[' {
                    match spec_options_fold(s, e2 + 1, defaults) {
                        Some((e3, o)) => if e3 < s.len() && s[e3] == ']' && e3 + 1 == s.len() {
                            Some(TunnelShape { local, remotes: rs, options: Some(o) })
                        } else {
                            None
                        },
                        None => None,
                    }
                } else {
                    None
                },
                None => None,
            }
        } else {
            None
        },
        None => None,
    }
}

/// Parses a whole tunnel spec against the given defaults.
pub fn tunnel_with(i: &str, defaults: &TunnelOptions) -> (r: Option<Tunnel>)
    ensures
        match r {
            Some(t) => spec_tunnel(i@, *defaults) == Some(
                TunnelShape {
                    local: t.local@,
                    remotes: crate::tunnel::keys_of(t.remote@),
                    options: t.options,
                },
            ) && t.remote@.len() >= 1,
            None => spec_tunnel(i@, *defaults) is None,
        },
{
    let len = i.unicode_len();
    let (e1, local) = match socket_spec_at(i, 0) {
        Some(x) => x,
        None => {
            return None;
        },
    };
    if !(e1 < len && i.get_char(e1) == '=') {
        return None;
    }
    let mut remote: Vec<SocketSpec> = Vec::new();
    let e2 = match remotes_at(i, e1 + 1, &mut remote) {
        Some(e) => e,
        None => {
            return None;
        },
    };
    proof {
        let (se2, ks) = spec_remotes(i@, e1 as int + 1).unwrap();
        assert(crate::tunnel::keys_of(remote@) =~= ks);
    }
    if e2 == len {
        return Some(Tunnel { local, remote, options: None });
    }
    if i.get_char(e2) != '[' {
        return None;
    }
    let (e3, opts) = match options_fold_at(i, e2 + 1, *defaults) {
        Some(x) => x,
        None => {
            return None;
        },
    };
    if e3 < len && i.get_char(e3) == ']' && e3 + 1 == len {
        Some(Tunnel { local, remote, options: Some(opts) })
    } else {
        None
    }
}

/// A whole socket spec: one socket and then nothing but trailing
/// whitespace.
pub open spec fn spec_socket_whole(s: Seq<char>) -> Option<SockKey> {
    match spec_socket_spec(s, 0) {
        Some((e, k)) => if run_end(s, e, CharKind::WsChar) == s.len() {
            Some(k)
        } else {
            None
        },
        None => None,
    }
}

/// Parses a whole socket spec, tolerating trailing whitespace.
pub fn socket_whole(i: &str) -> (r: Option<SocketSpec>)
    ensures
        match r {
            Some(sp) => spec_socket_whole(i@) == Some(sp@),
            None => spec_socket_whole(i@) is None,
        },
{
    let len = i.unicode_len();
    match socket_spec_at(i, 0) {
        Some((e, sp)) => {
            let we = scan_run(i, e, CharKind::WsChar);
            if we == len {
                Some(sp)
            } else {
                None
            }
        },
        None => None,
    }
}

/// Parses one socket spec prefix, handing back the unparsed rest, as the
/// grammar's other rules consume it.
pub fn socket_spec(i: &str) -> (r: Option<(&str, SocketSpec)>)
    ensures
        match spec_socket_spec(i@, 0) {
            Some((e, k)) => r matches Some((rest, sp)) && sp@ == k && rest@ == i@.subrange(
                e,
                i@.len() as int,
            ),
            None => r is None,
        },
{
    let len = i.unicode_len();
    match socket_spec_at(i, 0) {
        Some((e, sp)) => Some((i.substring_char(e, len), sp)),
        None => None,
    }
}

/// Parses a port number prefix, handing back the unparsed rest.
pub fn port(i: &str) -> (r: Option<(&str, u16)>)
    ensures
        match spec_bounded_dec(i@, 0, 65535) {
            Some((e, v)) => r matches Some((rest, p)) && p == v as u16 && rest@ == i@.subrange(
                e,
                i@.len() as int,
            ),
            None => r is None,
        },
{
    let len = i.unicode_len();
    match bounded_dec_at(i, 0, 65535) {
        Some((e, v)) => Some((i.substring_char(e, len), v as u16)),
        None => None,
    }
}

/// Parses a host name prefix, handing back the rest and the name.
pub fn host_name(i: &str) -> (r: Option<(&str, &str)>)
    ensures
        match spec_host_name(i@, 0) {
            Some(e) => r matches Some((rest, name)) && name@ == i@.subrange(0, e) && rest@
                == i@.subrange(e, i@.len() as int),
            None => r is None,
        },
{
    let len = i.unicode_len();
    match host_name_at(i, 0) {
        Some(e) => Some((i.substring_char(e, len), i.substring_char(0, e))),
        None => None,
    }
}

/// Parses an IPv4 literal prefix, handing back the rest and the literal.
pub fn ipv4(i: &str) -> (r: Option<(&str, &str)>)
    ensures
        match spec_ipv4(i@, 0) {
            Some(e) => r matches Some((rest, lit)) && lit@ == i@.subrange(0, e) && rest@
                == i@.subrange(e, i@.len() as int),
            None => r is None,
        },
{
    let len = i.unicode_len();
    match ipv4_at(i, 0) {
        Some(e) => Some((i.substring_char(e, len), i.substring_char(0, e))),
        None => None,
    }
}

/// Bracket-free IPv6 inner text: hex digits and colons, in groups of at
/// most four hex digits.
pub open spec fn ipv6_inner_ok(h: Seq<char>) -> bool {
    (forall|i: int| 0 <= i < h.len() ==> is_ipv6_char(#[trigger] h[i])) && segments_ok(
        h,
        0,
        h.len() as int,
    )
}

/// Host texts the grammar accepts as the host part of a socket spec: a host
/// name, an IPv4 literal, or (displayed bracketed) an IPv6 inner text that
/// holds at least one colon.
pub open spec fn valid_host_text(h: Seq<char>) -> bool {
    ||| spec_host_name(h, 0) == Some(h.len() as int)
    ||| spec_ipv4(h, 0) == Some(h.len() as int)
    ||| (h.contains(':') && ipv6_inner_ok(h))
}

/// The port digits at the tail of a canonical display parse back to the
/// port itself.
proof fn lemma_port_tail(d: Seq<char>, start: int, port: u16)
    requires
        0 <= start <= d.len(),
        d.len() == start + dec_digits(port as nat).len(),
        forall|i: int| start <= i < d.len() ==> d[i] == dec_digits(port as nat)[i - start],
    ensures
        spec_bounded_dec(d, start, 65535) == Some((d.len() as int, port as u64)),
{
    lemma_dec_digits_are_digits(port as nat);
    lemma_dec_val_of_digits(port as nat);
    lemma_run_end_is(d, start, d.len() as int, CharKind::Digit);
    assert(d.subrange(start, d.len() as int) =~= dec_digits(port as nat));
}

proof fn lemma_roundtrip_hostname(k: SockKey)
    requires
        spec_host_name(k.host, 0) == Some(k.host.len() as int),
    ensures
        spec_socket_whole(SocketSpec::spec_display(k)) == Some(k),
{
    let h = k.host;
    let hl = h.len() as int;
    lemma_run_end(h, 0, CharKind::HostChar);
    assert(run_end(h, 0, CharKind::HostChar) == hl);
    assert(!h.contains(':')) by {
        if h.contains(':') {
            let i = choose|i: int| 0 <= i < h.len() && h[i] == ':';
            assert(is_host_char(h[i]));
        }
    }
    let p = dec_digits(k.port as nat);
    lemma_dec_digits_are_digits(k.port as nat);
    let d = SocketSpec::spec_display(k);
    assert(d == h + seq![':'] + p);
    assert(d.len() == hl + 1 + p.len());
    assert(forall|i: int| 0 <= i < hl ==> d[i] == h[i]);
    assert(d[hl] == ':');
    assert(forall|i: int| hl + 1 <= i < d.len() ==> d[i] == p[i - hl - 1]);
    assert(is_alpha_char(d[0]));
    lemma_run_end_is(d, 0, hl, CharKind::HostChar);
    assert(d[hl - 1] == h[hl - 1]);
    assert(spec_host_name(d, 0) == Some(hl));
    assert(d.subrange(0, hl) =~= h);
    lemma_port_tail(d, hl + 1, k.port);
    assert(spec_host_token(d, 0) == Some((hl, d.subrange(0, hl))));
    assert(spec_socket_spec(d, 0) == Some((d.len() as int, k)));
    assert(run_end(d, d.len() as int, CharKind::WsChar) == d.len() as int);
    assert(spec_socket_whole(d) == Some(k));
}

proof fn lemma_roundtrip_ipv4(k: SockKey)
    requires
        spec_ipv4(k.host, 0) == Some(k.host.len() as int),
    ensures
        spec_socket_whole(SocketSpec::spec_display(k)) == Some(k),
{
    let h = k.host;
    let hl = h.len() as int;
    let e1 = spec_octet_end(h, 0).unwrap();
    assert(e1 < hl && h[e1] == '.');
    let e2 = spec_octet_end(h, e1 + 1).unwrap();
    assert(e2 < hl && h[e2] == '.');
    let e3 = spec_octet_end(h, e2 + 1).unwrap();
    assert(e3 < hl && h[e3] == '.');
    assert(spec_octet_end(h, e3 + 1) == Some(hl));
    lemma_run_end(h, 0, CharKind::Digit);
    lemma_run_end(h, e1 + 1, CharKind::Digit);
    lemma_run_end(h, e2 + 1, CharKind::Digit);
    lemma_run_end(h, e3 + 1, CharKind::Digit);
    lemma_bounded_dec_bounds(h, 0, 255);
    assert(run_end(h, 0, CharKind::Digit) == e1);
    assert(run_end(h, e1 + 1, CharKind::Digit) == e2);
    assert(run_end(h, e2 + 1, CharKind::Digit) == e3);
    assert(run_end(h, e3 + 1, CharKind::Digit) == hl);
    assert(0 < e1);
    assert(is_digit_char(h[0]));
    assert(!h.contains(':')) by {
        if h.contains(':') {
            let i = choose|i: int| 0 <= i < h.len() && h[i] == ':';
            assert(!is_digit_char(':'));
            if i < e1 {
                assert(is_digit_char(h[i]));
            } else if i == e1 || i == e2 || i == e3 {
            } else if i < e2 {
                assert(is_digit_char(h[i]));
            } else if i < e3 {
                assert(is_digit_char(h[i]));
            } else {
                assert(is_digit_char(h[i]));
            }
        }
    }
    let p = dec_digits(k.port as nat);
    lemma_dec_digits_are_digits(k.port as nat);
    let d = SocketSpec::spec_display(k);
    assert(d == h + seq![':'] + p);
    assert(d.len() == hl + 1 + p.len());
    assert(forall|i: int| 0 <= i < hl ==> d[i] == h[i]);
    assert(d[hl] == ':');
    assert(forall|i: int| hl + 1 <= i < d.len() ==> d[i] == p[i - hl - 1]);
    lemma_run_end_is(d, 0, e1, CharKind::Digit);
    lemma_run_end_is(d, e1 + 1, e2, CharKind::Digit);
    lemma_run_end_is(d, e2 + 1, e3, CharKind::Digit);
    lemma_run_end_is(d, e3 + 1, hl, CharKind::Digit);
    assert(d.subrange(0, e1) =~= h.subrange(0, e1));
    assert(d.subrange(e1 + 1, e2) =~= h.subrange(e1 + 1, e2));
    assert(d.subrange(e2 + 1, e3) =~= h.subrange(e2 + 1, e3));
    assert(d.subrange(e3 + 1, hl) =~= h.subrange(e3 + 1, hl));
    assert(spec_octet_end(d, 0) == Some(e1));
    assert(spec_octet_end(d, e1 + 1) == Some(e2));
    assert(spec_octet_end(d, e2 + 1) == Some(e3));
    assert(spec_octet_end(d, e3 + 1) == Some(hl));
    assert(spec_ipv4(d, 0) == Some(hl));
    assert(!is_alpha_char(d[0]));
    assert(d[0] != '[');
    assert(d.subrange(0, hl) =~= h);
    lemma_port_tail(d, hl + 1, k.port);
    assert(spec_host_token(d, 0) == Some((hl, d.subrange(0, hl))));
    assert(spec_socket_spec(d, 0) == Some((d.len() as int, k)));
    assert(run_end(d, d.len() as int, CharKind::WsChar) == d.len() as int);
    assert(spec_socket_whole(d) == Some(k));
}

proof fn lemma_roundtrip_ipv6(k: SockKey)
    requires
        k.host.contains(':'),
        ipv6_inner_ok(k.host),
    ensures
        spec_socket_whole(SocketSpec::spec_display(k)) == Some(k),
{
    let h = k.host;
    let hl = h.len() as int;
    assert(hl >= 1) by {
        let i = choose|i: int| 0 <= i < h.len() && h[i] == ':';
    }
    let p = dec_digits(k.port as nat);
    lemma_dec_digits_are_digits(k.port as nat);
    let d = SocketSpec::spec_display(k);
    assert(d == seq!['['] + h + seq![']'] + seq![':'] + p);
    assert(d.len() == hl + 3 + p.len());
    assert(d[0] == '[');
    assert(forall|i: int| 0 <= i < hl ==> d[1 + i] == h[i]);
    assert(d[1 + hl] == ']');
    assert(d[2 + hl] == ':');
    assert(forall|i: int| hl + 3 <= i < d.len() ==> d[i] == p[i - hl - 3]);
    assert(!is_alpha_char(d[0]));
    assert(forall|i: int| 1 <= i < 1 + hl ==> is_ipv6_char(#[trigger] d[i]));
    assert(!is_ipv6_char(']'));
    lemma_run_end_is(d, 1, 1 + hl, CharKind::Ipv6Char);
    assert(segments_ok(d, 1, 1 + hl)) by {
        assert forall|w: int| 1 <= w && w + 5 <= 1 + hl implies !#[trigger] all_hex5(d, w) by {
            assert(!all_hex5(h, w - 1));
            assert(d[w] == h[w - 1] && d[w + 1] == h[w] && d[w + 2] == h[w + 1] && d[w + 3] == h[w
                + 2] && d[w + 4] == h[w + 3]);
        }
    }
    assert(spec_ipv6(d, 0) == Some((hl + 2, 1int, 1 + hl)));
    assert(d.subrange(1, 1 + hl) =~= h);
    lemma_port_tail(d, hl + 3, k.port);
    assert(spec_host_token(d, 0) == Some((hl + 2, d.subrange(1, 1 + hl))));
    assert(spec_socket_spec(d, 0) == Some((d.len() as int, k)));
    assert(run_end(d, d.len() as int, CharKind::WsChar) == d.len() as int);
    assert(spec_socket_whole(d) == Some(k));
}

/// Round trip: parsing the canonical display of any socket spec whose host
/// text the grammar accepts gives the very same spec back.
pub proof fn lemma_display_parse_roundtrip(k: SockKey)
    requires
        valid_host_text(k.host),
    ensures
        spec_socket_whole(SocketSpec::spec_display(k)) == Some(k),
{
    if spec_host_name(k.host, 0) == Some(k.host.len() as int) {
        lemma_roundtrip_hostname(k);
    } else if spec_ipv4(k.host, 0) == Some(k.host.len() as int) {
        lemma_roundtrip_ipv4(k);
    } else {
        lemma_roundtrip_ipv6(k);
    }
}

/// Parses a bracketed IPv6 literal prefix, handing back the rest and the
/// bracket-free inner text.
pub fn ipv6(i: &str) -> (r: Option<(&str, &str)>)
    ensures
        match spec_ipv6(i@, 0) {
            Some((e, lo, hi)) => r matches Some((rest, inner)) && inner@ == i@.subrange(lo, hi)
                && rest@ == i@.subrange(e, i@.len() as int),
            None => r is None,
        },
{
    let len = i.unicode_len();
    match ipv6_at(i, 0) {
        Some((e, lo, hi)) => Some((i.substring_char(e, len), i.substring_char(lo, hi))),
        None => None,
    }
}

} // verus!

