//! The local relay: which protocol a client speaks, and what its SOCKS5 or HTTP proxy
//! request asks for.
use vstd::prelude::*;

use crate::text::{
    crlf_line_ranges, dec, push_decimal, crlf_lines, decode_utf8_lossy, has_prefix, lower_seq, lowercase, pieces,
    push_chars, push_str, ranges_within, string_from_chars, utf8_lossy, chars_eq_ignore_case, chars_of, copy_range, eq_ignore_case, lemma_lower_prefix, same_ascii_letters, starts_with, str_starts_with, trim,
    trim_bounds, find_char, index_of, last_index_of, parse_u16_range, parse_unsigned, rfind_char,
    string_of_range,
};

verus! {

/// Why a relay request is refused.
#[derive(Debug)]
pub enum ProxyError {
    /// The HTTP header has no blank line.
    InvalidHeader,
    /// The HTTP header has no request line.
    MissingRequestLine,
    /// A `[` opens a host without a closing `]`.
    InvalidIpv6Host,
    /// The absolute request target is no URI.
    InvalidUri(http::uri::InvalidUri),
    /// The absolute request target has no authority.
    MissingAuthority,
    /// A request with a relative target has no `Host` header.
    MissingHost,
    /// The HTTP header grew beyond 64 KiB.
    HeaderTooLarge,
    /// The SOCKS5 request is no CONNECT.
    UnsupportedCommand,
    /// The SOCKS5 request names an address of an unknown type.
    UnsupportedAddressType,
}

/// Which way a relay request was refused.
#[derive(Clone, Copy, Debug, PartialEq, Eq, Structural)]
pub enum ProxyFault {
    InvalidHeader,
    MissingRequestLine,
    InvalidIpv6Host,
    InvalidUri,
    MissingAuthority,
    MissingHost,
    HeaderTooLarge,
    UnsupportedCommand,
    UnsupportedAddressType,
}

impl ProxyError {
    pub open spec fn fault(&self) -> ProxyFault {
        match self {
            ProxyError::InvalidHeader => ProxyFault::InvalidHeader,
            ProxyError::MissingRequestLine => ProxyFault::MissingRequestLine,
            ProxyError::InvalidIpv6Host => ProxyFault::InvalidIpv6Host,
            ProxyError::InvalidUri(_) => ProxyFault::InvalidUri,
            ProxyError::MissingAuthority => ProxyFault::MissingAuthority,
            ProxyError::MissingHost => ProxyFault::MissingHost,
            ProxyError::HeaderTooLarge => ProxyFault::HeaderTooLarge,
            ProxyError::UnsupportedCommand => ProxyFault::UnsupportedCommand,
            ProxyError::UnsupportedAddressType => ProxyFault::UnsupportedAddressType,
        }
    }
}

/// `http::uri::InvalidUri`, carried as it is.
#[verifier::external_type_specification]
#[verifier::external_body]
pub struct ExInvalidUri(http::uri::InvalidUri);

// ---------------------------------------------------------------------------
// Host and port
// ---------------------------------------------------------------------------

/// Host and port of `value`: `[host]` with an optional `:port`, or `host:port` split at
/// the last `:` when what follows it is a port; otherwise the whole value with the
/// default port. `None` when a `[` is not closed.
pub open spec fn host_port_of(value: Seq<char>, default_port: u16) -> Option<(Seq<char>, u16)> {
    if value.len() > 0 && value[0] == '[' {
        let stripped = value.drop_first();
        match index_of(stripped, ']') {
            None => None,
            Some(end) => {
                let rest = stripped.skip(end as int + 1);
                let port: u16 = if rest.len() > 0 && rest[0] == ':' {
                    match parse_unsigned(rest.drop_first(), 0xffff) {
                        Some(p) => p as u16,
                        None => default_port,
                    }
                } else {
                    default_port
                };
                Some((stripped.take(end as int), port))
            },
        }
    } else {
        match last_index_of(value, ':') {
            Some(i) => match parse_unsigned(value.skip(i as int + 1), 0xffff) {
                Some(p) => Some((value.take(i as int), p as u16)),
                None => Some((value, default_port)),
            },
            None => Some((value, default_port)),
        }
    }
}

/// Splitting `host:port` gives back host and port, for a host that does not begin with
/// `[` (it may hold colons itself) and any port.
pub proof fn law_host_port_roundtrip(host: Seq<char>, port: u16, default_port: u16)
    requires
        !(host.len() > 0 && host[0] == '['),
    ensures
        host_port_of(host + ":"@ + dec(port as nat), default_port) == Some((host, port)),
{
    reveal_strlit(":");
    let d = dec(port as nat);
    crate::text::lemma_dec_digits(port as nat);
    crate::text::law_decimal_roundtrip(port as nat, 0xffff);
    let s = host + ":"@ + d;
    let k = host.len() as int;
    assert(s[k] == ':');
    assert forall|j: int| k < j < s.len() implies s[j] != ':' by {
        assert(s[j] == d[j - k - 1]);
        assert(crate::text::is_ascii_digit(d[j - k - 1]));
    }
    crate::text::lemma_last_index_of(s, ':');
    assert(last_index_of(s, ':') == Some(k as nat));
    assert(s.skip(k + 1) =~= d);
    assert(s.take(k) =~= host);
}

/// Host and port of `v[lo..hi]`.
fn split_host_port_range(v: &Vec<char>, lo: usize, hi: usize, default_port: u16) -> (r: Result<(String, u16), ProxyError>)
    requires
        lo <= hi <= v.len(),
    ensures
        match host_port_of(v@.subrange(lo as int, hi as int), default_port) {
            Some(hp) => r matches Ok(x) && x.0@ == hp.0 && x.1 == hp.1,
            None => r matches Err(ProxyError::InvalidIpv6Host),
        },
{
    let ghost s = v@.subrange(lo as int, hi as int);
    if lo < hi && v[lo] == '[' {
        assert(s.drop_first() =~= v@.subrange(lo + 1, hi as int));
        let end = match find_char(v, lo + 1, hi, ']') {
            Some(e) => e,
            None => return Err(ProxyError::InvalidIpv6Host),
        };
        proof {
            crate::text::lemma_index_of(s.drop_first(), ']');
        }
        let host_end = lo + 1 + end;
        let rest = host_end + 1;
        let ghost st = s.drop_first();
        assert(st.take(end as int) =~= v@.subrange(lo + 1, host_end as int));
        assert(st.skip(end + 1) =~= v@.subrange(rest as int, hi as int));
        let port: u16 = if rest < hi && v[rest] == ':' {
            assert(v@.subrange(rest as int, hi as int).drop_first() =~= v@.subrange(rest + 1, hi as int));
            match parse_u16_range(v, rest + 1, hi) {
                Some(p) => p,
                None => default_port,
            }
        } else {
            default_port
        };
        Ok((string_of_range(v, lo + 1, host_end), port))
    } else {
        match rfind_char(v, lo, hi, ':') {
            Some(i) => {
                proof {
                    crate::text::lemma_last_index_of(s, ':');
                }
                assert(s.skip(i + 1) =~= v@.subrange(lo + i + 1, hi as int));
                assert(s.take(i as int) =~= v@.subrange(lo as int, lo + i));
                match parse_u16_range(v, lo + i + 1, hi) {
                    Some(p) => Ok((string_of_range(v, lo, lo + i), p)),
                    None => Ok((string_of_range(v, lo, hi), default_port)),
                }
            },
            None => Ok((string_of_range(v, lo, hi), default_port)),
        }
    }
}

/// Splits a `host:port` text (`[host]:port` for IPv6 addresses); the default port stands
/// in when none is given or it is no `u16`.
pub fn split_host_port(value: &str, default_port: u16) -> (r: Result<(String, u16), ProxyError>)
    ensures
        match host_port_of(value@, default_port) {
            Some(hp) => r matches Ok(x) && x.0@ == hp.0 && x.1 == hp.1,
            None => r matches Err(ProxyError::InvalidIpv6Host),
        },
{
    let v = chars_of(value);
    assert(v@.subrange(0, v.len() as int) =~= v@);
    split_host_port_range(&v, 0, v.len(), default_port)
}


// ---------------------------------------------------------------------------
// The target of an HTTP proxy request
// ---------------------------------------------------------------------------

/// The parts of a URI that the relay reads.
#[derive(Debug)]
pub struct UriParts {
    pub scheme: Option<String>,
    pub authority: Option<String>,
    pub path_and_query: Option<String>,
}

pub open spec fn opt_text(o: Option<String>) -> Option<Seq<char>> {
    match o {
        Some(s) => Some(s@),
        None => None,
    }
}

/// What `http::Uri` parses a text into: scheme, authority and path-and-query, as
/// `scheme_str`, `authority` and `path_and_query` give them; `None` when it refuses the text.
pub uninterp spec fn uri_parts(text: Seq<char>) -> Option<(Option<Seq<char>>, Option<Seq<char>>, Option<Seq<char>>)>;

/// `text.parse::<http::Uri>()`, with the parts the relay reads taken as strings. The
/// parts are the ones `http` gives for this text; what they are is not stated here.
#[verifier::external_body]
fn parse_uri(text: &str) -> (r: Result<UriParts, http::uri::InvalidUri>)
    ensures
        match uri_parts(text@) {
            Some(p) => r matches Ok(u) && opt_text(u.scheme) == p.0 && opt_text(u.authority) == p.1
                && opt_text(u.path_and_query) == p.2,
            None => r is Err,
        },
{
    let uri: http::Uri = text.parse()?;
    Ok(UriParts {
        scheme: uri.scheme_str().map(|s| s.to_string()),
        authority: uri.authority().map(|a| a.as_str().to_string()),
        path_and_query: uri.path_and_query().map(|p| p.as_str().to_string()),
    })
}

/// Host, port and path of an absolute target: the scheme's port (443 for `https`, else 80)
/// when the authority names none, and `/` when there is no path.
pub open spec fn uri_target(scheme: Option<Seq<char>>, authority: Option<Seq<char>>, path_and_query: Option<Seq<char>>) -> Result<(Seq<char>, u16, Seq<char>), ProxyFault> {
    let scheme_text = match scheme {
        Some(s) => s,
        None => "http"@,
    };
    let default_port: u16 = if scheme_text == "https"@ { 443 } else { 80 };
    match authority {
        None => Err(ProxyFault::MissingAuthority),
        Some(a) => match host_port_of(a, default_port) {
            None => Err(ProxyFault::InvalidIpv6Host),
            Some(hp) => Ok((hp.0, hp.1, match path_and_query {
                Some(p) => p,
                None => "/"@,
            })),
        },
    }
}

/// Host, port and path that an absolute target names, given what `http::Uri` read in it.
pub fn target_from_uri(parts: &UriParts) -> (r: Result<(String, u16, String), ProxyError>)
    ensures
        match uri_target(opt_text(parts.scheme), opt_text(parts.authority), opt_text(parts.path_and_query)) {
            Ok(t) => r matches Ok(x) && x.0@ == t.0 && x.1 == t.1 && x.2@ == t.2,
            Err(f) => r matches Err(e) && e.fault() == f,
        },
{
    let https = match &parts.scheme {
        Some(s) => crate::text::str_equal(s.as_str(), "https"),
        None => crate::text::str_equal("http", "https"),
    };
    let default_port: u16 = if https { 443 } else { 80 };
    let authority = match &parts.authority {
        Some(a) => a,
        None => return Err(ProxyError::MissingAuthority),
    };
    let (host, port) = split_host_port(authority.as_str(), default_port)?;
    let path = match &parts.path_and_query {
        Some(p) => p.clone(),
        None => crate::text::owned("/"),
    };
    Ok((host, port, path))
}

/// The value of the first header line whose name (before the first `:`) is `host`, in any
/// case, trimmed.
pub open spec fn host_header(headers: Seq<Seq<char>>) -> Option<Seq<char>>
    decreases headers.len(),
{
    if headers.len() == 0 {
        None
    } else {
        let h = headers[0];
        match index_of(h, ':') {
            Some(i) => if eq_ignore_case(h.take(i as int), "host"@) {
                Some(trim(h.skip(i as int + 1)))
            } else {
                host_header(headers.drop_first())
            },
            None => host_header(headers.drop_first()),
        }
    }
}

/// Host, port and path of an HTTP proxy request: an `http://` or `https://` target is read
/// as a URI; any other target is the path, and the `Host` header names host and port
/// (80 by default).
pub open spec fn http_target(target: Seq<char>, headers: Seq<Seq<char>>) -> Result<(Seq<char>, u16, Seq<char>), ProxyFault> {
    if starts_with(target, "http://"@) || starts_with(target, "https://"@) {
        match uri_parts(target) {
            None => Err(ProxyFault::InvalidUri),
            Some(p) => uri_target(p.0, p.1, p.2),
        }
    } else {
        match host_header(headers) {
            None => Err(ProxyFault::MissingHost),
            Some(h) => match host_port_of(h, 80) {
                None => Err(ProxyFault::InvalidIpv6Host),
                Some(hp) => Ok((hp.0, hp.1, target)),
            },
        }
    }
}

proof fn lemma_host_header_step(headers: Seq<Seq<char>>, k: int)
    requires
        0 <= k < headers.len(),
    ensures
        host_header(headers.skip(k)) == ({
            let h = headers[k];
            match index_of(h, ':') {
                Some(i) => if eq_ignore_case(h.take(i as int), "host"@) {
                    Some(trim(h.skip(i as int + 1)))
                } else {
                    host_header(headers.skip(k + 1))
                },
                None => host_header(headers.skip(k + 1)),
            }
        }),
{
    assert(headers.skip(k).drop_first() =~= headers.skip(k + 1));
}

/// Host, port and path of an HTTP proxy request with the given target and header lines.
pub fn parse_http_target(target: &str, headers: &Vec<String>) -> (r: Result<(String, u16, String), ProxyError>)
    ensures
        match http_target(target@, headers@.map_values(|h: String| h@)) {
            Ok(t) => r matches Ok(x) && x.0@ == t.0 && x.1 == t.1 && x.2@ == t.2,
            Err(f) => r matches Err(e) && e.fault() == f,
        },
{
    if str_starts_with(target, "http://") || str_starts_with(target, "https://") {
        let parts = match parse_uri(target) {
            Ok(p) => p,
            Err(e) => return Err(ProxyError::InvalidUri(e)),
        };
        return target_from_uri(&parts);
    }
    let ghost hs = headers@.map_values(|h: String| h@);
    let mut k: usize = 0;
    assert(hs.skip(0) =~= hs);
    while k < headers.len()
        invariant
            k <= headers.len(),
            hs == headers@.map_values(|h: String| h@),
            !(starts_with(target@, "http://"@) || starts_with(target@, "https://"@)),
            host_header(hs) == host_header(hs.skip(k as int)),
        decreases headers.len() - k,
    {
        proof {
            lemma_host_header_step(hs, k as int);
        }
        let v = chars_of(headers[k].as_str());
        assert(v@ == hs[k as int]);
        match find_char(&v, 0, v.len(), ':') {
            Some(i) => {
                assert(v@.subrange(0, v.len() as int) =~= v@);
                proof {
                    crate::text::lemma_index_of(v@, ':');
                }
                let name = copy_range(&v, 0, i);
                let host_name = chars_of("host");
                assert(v@.take(i as int) =~= name@);
                if chars_eq_ignore_case(name.as_slice(), host_name.as_slice()) {
                    let (a, b) = trim_bounds(&v, i + 1, v.len());
                    assert(v@.skip(i as int + 1) =~= v@.subrange(i + 1, v.len() as int));
                    let value = string_of_range(&v, a, b);
                    let (host, port) = split_host_port(value.as_str(), 80)?;
                    return Ok((host, port, crate::text::owned(target)));
                }
            },
            None => {
                assert(v@.subrange(0, v.len() as int) =~= v@);
            },
        }
        k += 1;
    }
    assert(hs.skip(k as int) =~= Seq::<Seq<char>>::empty());
    Err(ProxyError::MissingHost)
}


// ---------------------------------------------------------------------------
// HTTP proxy requests
// ---------------------------------------------------------------------------

pub open spec fn blank_line_at(h: Seq<u8>, i: int) -> bool {
    0 <= i && i + 4 <= h.len() && h[i] == 13 && h[i + 1] == 10 && h[i + 2] == 13 && h[i + 3] == 10
}

/// The first `"\r\n\r\n"` in `h` at or after `i`.
pub open spec fn first_blank_line_from(h: Seq<u8>, i: nat) -> Option<nat>
    decreases h.len() - i,
{
    if i + 4 > h.len() {
        None
    } else if blank_line_at(h, i as int) {
        Some(i)
    } else {
        first_blank_line_from(h, i + 1)
    }
}

/// Whether the bytes hold the blank line that ends an HTTP header.
pub open spec fn has_blank_line(h: Seq<u8>) -> bool {
    first_blank_line_from(h, 0) is Some
}

proof fn lemma_first_blank_line(h: Seq<u8>, i: nat)
    ensures
        first_blank_line_from(h, i) matches Some(k) ==> blank_line_at(h, k as int),
    decreases h.len() - i,
{
    if i + 4 <= h.len() && !blank_line_at(h, i as int) {
        lemma_first_blank_line(h, i + 1);
    }
}

fn find_blank_line(h: &[u8]) -> (r: Option<usize>)
    ensures
        r matches Some(i) ==> first_blank_line_from(h@, 0) == Some(i as nat) && i + 4 <= h@.len(),
        r is None ==> first_blank_line_from(h@, 0) is None,
{
    proof {
        lemma_first_blank_line(h@, 0);
    }
    if h.len() < 4 {
        return None;
    }
    let mut i: usize = 0;
    while i <= h.len() - 4
        invariant
            i <= h.len(),
            h.len() >= 4,
            first_blank_line_from(h@, 0) == first_blank_line_from(h@, i as nat),
        decreases h.len() - i,
    {
        if h[i] == 13 && h[i + 1] == 10 && h[i + 2] == 13 && h[i + 3] == 10 {
            return Some(i);
        }
        i += 1;
    }
    None
}

/// How far reading an HTTP header has come.
#[derive(Clone, Copy, Debug, PartialEq, Eq, Structural)]
pub enum HeaderProgress {
    Complete,
    NeedMore,
    TooLarge,
}

/// The largest HTTP header the relay reads, in bytes.
pub const MAX_HEADER_BYTES: usize = 65536;

/// After bytes were added to a header being read: over 64 KiB it is refused, with its
/// blank line it is complete, and otherwise more is needed.
pub fn header_progress(data: &[u8]) -> (r: HeaderProgress)
    ensures
        r == if data@.len() > MAX_HEADER_BYTES {
            HeaderProgress::TooLarge
        } else if has_blank_line(data@) {
            HeaderProgress::Complete
        } else {
            HeaderProgress::NeedMore
        },
{
    if data.len() > MAX_HEADER_BYTES {
        HeaderProgress::TooLarge
    } else if find_blank_line(data).is_some() {
        HeaderProgress::Complete
    } else {
        HeaderProgress::NeedMore
    }
}

/// Method, target and version of a request line: the line split at its first two spaces
/// (`str::splitn(3, ' ')`); the target is empty and the version `HTTP/1.1` when missing.
pub open spec fn request_parts(line: Seq<char>) -> (Seq<char>, Seq<char>, Seq<char>) {
    match index_of(line, ' ') {
        None => (line, Seq::empty(), "HTTP/1.1"@),
        Some(i) => {
            let r = line.skip(i as int + 1);
            match index_of(r, ' ') {
                None => (line.take(i as int), r, "HTTP/1.1"@),
                Some(j) => (line.take(i as int), r.take(j as int), r.skip(j as int + 1)),
            }
        },
    }
}

/// Header lines that the relay does not pass on: `Proxy-Connection` and `Connection`.
pub open spec fn dropped_header(h: Seq<char>) -> bool {
    starts_with(lower_seq(h), "proxy-connection:"@) || starts_with(lower_seq(h), "connection:"@)
}

/// The header lines passed on, each ended by `"\r\n"`.
pub open spec fn forwarded_headers(hs: Seq<Seq<char>>) -> Seq<char>
    decreases hs.len(),
{
    if hs.len() == 0 {
        Seq::empty()
    } else {
        forwarded_headers(hs.drop_last()) + if dropped_header(hs.last()) {
            Seq::empty()
        } else {
            hs.last() + "\r\n"@
        }
    }
}

/// The request the relay sends upstream: the request line with the path in place of the
/// target, the headers it passes on, and `Connection: close`.
pub open spec fn forward_request(method: Seq<char>, path: Seq<char>, version: Seq<char>, hs: Seq<Seq<char>>) -> Seq<char> {
    method + " "@ + path + " "@ + version + "\r\n"@ + forwarded_headers(hs) + "Connection: close\r\n\r\n"@
}

/// `h` names the `Connection` or `Proxy-Connection` header, in any ASCII case.
proof fn lemma_connection_header_names(h: Seq<char>)
    ensures
        dropped_header(h) <==> (h.len() >= 11 && same_ascii_letters(h.take(11), "connection:"@))
            || (h.len() >= 17 && same_ascii_letters(h.take(17), "proxy-connection:"@)),
{
    reveal_strlit("connection:");
    reveal_strlit("proxy-connection:");
    assert(lower_seq("connection:"@) =~= "connection:"@);
    assert(lower_seq("proxy-connection:"@) =~= "proxy-connection:"@);
    lemma_lower_prefix(h, "connection:"@);
    lemma_lower_prefix(h, "proxy-connection:"@);
}

/// With no header lines, the forwarded request is the request line and
/// `Connection: close`.
pub proof fn law_forward_without_headers(method: Seq<char>, path: Seq<char>, version: Seq<char>)
    ensures
        forward_request(method, path, version, Seq::empty())
            == method + " "@ + path + " "@ + version + "\r\n"@ + "Connection: close\r\n\r\n"@,
{
    assert(forward_request(method, path, version, Seq::empty())
        =~= method + " "@ + path + " "@ + version + "\r\n"@ + "Connection: close\r\n\r\n"@);
}

/// A further header line that names `Connection` or `Proxy-Connection`, in any ASCII case,
/// leaves the forwarded request as it was: the client's connection headers never reach the
/// upstream server, which gets `Connection: close` alone.
pub proof fn law_connection_headers_dropped(method: Seq<char>, path: Seq<char>, version: Seq<char>, hs: Seq<Seq<char>>, h: Seq<char>)
    requires
        (h.len() >= 11 && same_ascii_letters(h.take(11), "connection:"@))
            || (h.len() >= 17 && same_ascii_letters(h.take(17), "proxy-connection:"@)),
    ensures
        forward_request(method, path, version, hs.push(h)) == forward_request(method, path, version, hs),
{
    lemma_connection_header_names(h);
    assert(hs.push(h).drop_last() =~= hs);
    assert(forwarded_headers(hs.push(h)) =~= forwarded_headers(hs));
}

/// Any other further header line is passed on unchanged, ended by `"\r\n"`, just before
/// the closing `Connection: close`.
pub proof fn law_other_headers_forwarded(method: Seq<char>, path: Seq<char>, version: Seq<char>, hs: Seq<Seq<char>>, h: Seq<char>)
    requires
        !(h.len() >= 11 && same_ascii_letters(h.take(11), "connection:"@)),
        !(h.len() >= 17 && same_ascii_letters(h.take(17), "proxy-connection:"@)),
    ensures
        ({
            let before = forward_request(method, path, version, hs);
            let tail = "Connection: close\r\n\r\n"@;
            &&& before.len() >= tail.len()
            &&& forward_request(method, path, version, hs.push(h))
                == before.take(before.len() - tail.len()) + h + "\r\n"@ + tail
        }),
{
    lemma_connection_header_names(h);
    assert(hs.push(h).drop_last() =~= hs);
    let head = method + " "@ + path + " "@ + version + "\r\n"@ + forwarded_headers(hs);
    let tail = "Connection: close\r\n\r\n"@;
    assert(forward_request(method, path, version, hs) =~= head + tail);
    assert((head + tail).take(head.len() as int) =~= head);
    assert(forward_request(method, path, version, hs.push(h)) =~= head + h + "\r\n"@ + tail);
}

/// What the relay does with an HTTP proxy request.
#[derive(Debug)]
pub enum HttpPlan {
    /// `CONNECT`: open a tunnel to host and port, and send `rest` (what the client sent
    /// after the header) ahead.
    Tunnel { host: String, port: u16, rest: Vec<u8> },
    /// Any other method: connect to host and port, send `request`, then `rest`.
    Forward { host: String, port: u16, request: String, rest: Vec<u8> },
}

pub enum HttpPlanView {
    Tunnel(Seq<char>, u16, Seq<u8>),
    Forward(Seq<char>, u16, Seq<char>, Seq<u8>),
}

impl HttpPlan {
    pub open spec fn view_plan(&self) -> HttpPlanView {
        match self {
            HttpPlan::Tunnel { host, port, rest } => HttpPlanView::Tunnel(host@, *port, rest@),
            HttpPlan::Forward { host, port, request, rest } => HttpPlanView::Forward(host@, *port, request@, rest@),
        }
    }
}

/// What an HTTP proxy request asks for: the header ends at the first blank line; its
/// non-empty lines are the request line and the header lines.
pub open spec fn http_plan(h: Seq<u8>) -> Result<HttpPlanView, ProxyFault> {
    match first_blank_line_from(h, 0) {
        None => Err(ProxyFault::InvalidHeader),
        Some(i) => {
            let head = h.take(i as int + 4);
            let rest = h.skip(i as int + 4);
            let lines = crlf_lines(utf8_lossy(head));
            if lines.len() == 0 {
                Err(ProxyFault::MissingRequestLine)
            } else {
                let parts = request_parts(lines[0]);
                let headers = lines.drop_first();
                if eq_ignore_case(parts.0, "CONNECT"@) {
                    match host_port_of(parts.1, 443) {
                        None => Err(ProxyFault::InvalidIpv6Host),
                        Some(hp) => Ok(HttpPlanView::Tunnel(hp.0, hp.1, rest)),
                    }
                } else {
                    match http_target(parts.1, headers) {
                        Err(f) => Err(f),
                        Ok(t) => Ok(HttpPlanView::Forward(t.0, t.1, forward_request(parts.0, t.2, parts.2, headers), rest)),
                    }
                }
            }
        },
    }
}

fn copy_bytes(h: &[u8], start: usize) -> (r: Vec<u8>)
    requires
        start <= h.len(),
    ensures
        r@ == h@.skip(start as int),
{
    let mut r: Vec<u8> = Vec::new();
    let mut i: usize = start;
    while i < h.len()
        invariant
            start <= i <= h.len(),
            r@ == h@.subrange(start as int, i as int),
        decreases h.len() - i,
    {
        r.push(h[i]);
        i += 1;
    }
    r
}

/// The pieces of `v` named by the ranges, as strings.
fn strings_of_ranges(v: &Vec<char>, rs: &Vec<(usize, usize)>, from: usize) -> (r: Vec<String>)
    requires
        ranges_within(rs@, v@.len()),
        from <= rs@.len(),
    ensures
        r@.map_values(|s: String| s@) == pieces(v@, rs@).skip(from as int),
{
    let mut r: Vec<String> = Vec::new();
    let mut k: usize = from;
    while k < rs.len()
        invariant
            from <= k <= rs@.len(),
            ranges_within(rs@, v@.len()),
            r@.map_values(|s: String| s@) == pieces(v@, rs@).subrange(from as int, k as int),
        decreases rs@.len() - k,
    {
        let (a, b) = rs[k];
        assert(rs@[k as int].0 <= rs@[k as int].1 <= v@.len());
        let s = string_of_range(v, a, b);
        let ghost before = r@;
        r.push(s);
        assert(r@.map_values(|s: String| s@) =~= before.map_values(|s: String| s@).push(s@));
        assert(pieces(v@, rs@).subrange(from as int, k + 1) =~= pieces(v@, rs@).subrange(from as int, k as int).push(pieces(v@, rs@)[k as int]));
        k += 1;
    }
    r
}

/// Appends the header lines that are passed on.
fn push_forwarded_headers(out: &mut Vec<char>, hs: &Vec<String>)
    ensures
        final(out)@ == old(out)@ + forwarded_headers(hs@.map_values(|s: String| s@)),
{
    let ghost all = hs@.map_values(|s: String| s@);
    let mut k: usize = 0;
    assert(all.take(0) =~= Seq::<Seq<char>>::empty());
    assert(old(out)@ + forwarded_headers(all.take(0)) =~= old(out)@);
    while k < hs.len()
        invariant
            k <= hs.len(),
            all == hs@.map_values(|s: String| s@),
            out@ == old(out)@ + forwarded_headers(all.take(k as int)),
        decreases hs.len() - k,
    {
        let line = chars_of(hs[k].as_str());
        let low = lowercase(line.as_slice());
        let p1 = chars_of("proxy-connection:");
        let p2 = chars_of("connection:");
        let ghost before = out@;
        if !has_prefix(low.as_slice(), p1.as_slice()) && !has_prefix(low.as_slice(), p2.as_slice()) {
            push_chars(out, line.as_slice());
            push_str(out, "\r\n");
        }
        assert(all.take(k + 1).drop_last() =~= all.take(k as int));
        assert(all.take(k + 1).last() == all[k as int]);
        assert(out@ =~= old(out)@ + forwarded_headers(all.take(k + 1)));
        k += 1;
    }
    assert(all.take(hs.len() as int) =~= all);
}

/// Reads an HTTP proxy request header (with whatever the client sent after it) and says
/// what to do with it.
pub fn plan_http_request(header: &[u8]) -> (r: Result<HttpPlan, ProxyError>)
    ensures
        match http_plan(header@) {
            Ok(p) => r matches Ok(x) && x.view_plan() == p,
            Err(f) => r matches Err(e) && e.fault() == f,
        },
{
    let found = find_blank_line(header);
    let i = match found {
        Some(i) => i,
        None => return Err(ProxyError::InvalidHeader),
    };
    let n = header.len();
    assert(i + 4 <= n);
    let end = i + 4;
    let head = &header[0..end];
    assert(head@ =~= header@.take(end as int));
    let rest = copy_bytes(header, end);
    let text = decode_utf8_lossy(head);
    let v = chars_of(text.as_str());
    let rs = crlf_line_ranges(&v);
    let ghost lines = crlf_lines(v@);
    if rs.len() == 0 {
        return Err(ProxyError::MissingRequestLine);
    }
    let (la, lb) = rs[0];
    assert(rs@[0].0 <= rs@[0].1 <= v@.len());
    let ghost line = v@.subrange(la as int, lb as int);
    assert(lines[0] == line);
    let headers = strings_of_ranges(&v, &rs, 1);
    assert(pieces(v@, rs@).skip(1) =~= lines.drop_first());
    // method, target and version
    let (m_end, t_start, t_end, ver_start) = match find_char(&v, la, lb, ' ') {
        None => (lb, lb, lb, lb),
        Some(si) => {
            proof {
                crate::text::lemma_index_of(line, ' ');
            }
            let ts = la + si + 1;
            assert(line.skip(si as int + 1) =~= v@.subrange(ts as int, lb as int));
            match find_char(&v, ts, lb, ' ') {
                None => (la + si, ts, lb, lb),
                Some(sj) => {
                    proof {
                        crate::text::lemma_index_of(v@.subrange(ts as int, lb as int), ' ');
                    }
                    (la + si, ts, ts + sj, ts + sj + 1)
                },
            }
        },
    };
    let method = copy_range(&v, la, m_end);
    let target = string_of_range(&v, t_start, t_end);
    let version: String = if ver_start < lb || (t_end < lb) {
        string_of_range(&v, ver_start, lb)
    } else {
        crate::text::owned("HTTP/1.1")
    };
    proof {
        let parts = request_parts(line);
        crate::text::lemma_index_of(line, ' ');
        match index_of(line, ' ') {
            None => {
                assert(method@ =~= line);
                assert(target@ =~= Seq::<char>::empty());
            },
            Some(si) => {
                let r = line.skip(si as int + 1);
                crate::text::lemma_index_of(r, ' ');
                assert(method@ =~= line.take(si as int));
                match index_of(r, ' ') {
                    None => {
                        assert(target@ =~= r);
                    },
                    Some(sj) => {
                        assert(target@ =~= r.take(sj as int));
                        assert(version@ =~= r.skip(sj as int + 1));
                    },
                }
            },
        }
    }
    let connect = chars_of("CONNECT");
    if chars_eq_ignore_case(method.as_slice(), connect.as_slice()) {
        let (host, port) = split_host_port(target.as_str(), 443)?;
        return Ok(HttpPlan::Tunnel { host, port, rest });
    }
    let (host, port, path) = parse_http_target(target.as_str(), &headers)?;
    let mut req: Vec<char> = Vec::new();
    push_chars(&mut req, method.as_slice());
    push_str(&mut req, " ");
    push_str(&mut req, path.as_str());
    push_str(&mut req, " ");
    push_str(&mut req, version.as_str());
    push_str(&mut req, "\r\n");
    push_forwarded_headers(&mut req, &headers);
    push_str(&mut req, "Connection: close\r\n\r\n");
    let request = string_from_chars(req.as_slice());
    assert(request@ =~= forward_request(method@, path@, version@, lines.drop_first()));
    Ok(HttpPlan::Forward { host, port, request, rest })
}

/// The reply that tells an HTTP client its tunnel is open.
pub fn tunnel_established_reply() -> (r: String)
    ensures
        r@ == "HTTP/1.1 200 Connection Established\r\n\r\n"@,
{
    crate::text::owned("HTTP/1.1 200 Connection Established\r\n\r\n")
}


// ---------------------------------------------------------------------------
// Which protocol a relay client speaks
// ---------------------------------------------------------------------------

/// The protocols of the relay port.
#[derive(Clone, Copy, Debug, PartialEq, Eq, Structural)]
pub enum RelayProtocol {
    Socks5,
    Http,
}

/// A client whose first byte is 5 (the SOCKS version) speaks SOCKS5; any other speaks HTTP.
pub fn relay_protocol(first: u8) -> (r: RelayProtocol)
    ensures
        r == if first == 5 {
            RelayProtocol::Socks5
        } else {
            RelayProtocol::Http
        },
{
    if first == 5 {
        RelayProtocol::Socks5
    } else {
        RelayProtocol::Http
    }
}

// ---------------------------------------------------------------------------
// SOCKS5, after the version byte: a step for each read
// ---------------------------------------------------------------------------

/// What a SOCKS5 exchange waits for.
#[derive(Debug)]
pub enum Socks5Phase {
    /// The number of authentication methods.
    MethodCount,
    /// The methods themselves (ignored: the relay asks for none).
    Methods { count: u8 },
    /// Version, command, reserved byte and address type.
    Request,
    /// An IPv4 address.
    Ipv4,
    /// The length of a domain name.
    DomainLength,
    /// A domain name.
    Domain { len: u8 },
    /// An IPv6 address.
    Ipv6,
    /// The port, big-endian.
    Port { host: String },
}

impl Socks5Phase {
    /// How many bytes the phase reads.
    pub open spec fn input_len(&self) -> nat {
        match self {
            Socks5Phase::MethodCount => 1,
            Socks5Phase::Methods { count } => *count as nat,
            Socks5Phase::Request => 4,
            Socks5Phase::Ipv4 => 4,
            Socks5Phase::DomainLength => 1,
            Socks5Phase::Domain { len } => *len as nat,
            Socks5Phase::Ipv6 => 16,
            Socks5Phase::Port { .. } => 2,
        }
    }
}

/// What to do after a read.
#[derive(Debug)]
pub enum Socks5Step {
    /// Send `reply` when it is not empty, then read `read` bytes for `next`.
    Continue { next: Socks5Phase, reply: Vec<u8>, read: usize },
    /// Connect to the host and port that the client asked for.
    Connect { host: String, port: u16 },
    /// Write the 16 bytes of an IPv6 address as text (as `Ipv6Addr` displays it), and go
    /// on with `socks5_port_phase` of that text.
    Ipv6Host { bytes: Vec<u8> },
    /// Send `reply` when it is not empty, then end the exchange with the error.
    Fail { reply: Vec<u8>, error: ProxyError },
}

/// The phase a SOCKS5 exchange starts in, once its version byte is read, and how many bytes
/// it reads.
pub fn socks5_start() -> (r: (Socks5Phase, usize))
    ensures
        r.0 is MethodCount,
        r.1 == 1,
{
    (Socks5Phase::MethodCount, 1)
}

/// `Ipv4Addr`'s text: the four bytes in decimal, separated by dots.
pub open spec fn ipv4_text(b: Seq<u8>) -> Seq<char> {
    dec(b[0] as nat) + "."@ + dec(b[1] as nat) + "."@ + dec(b[2] as nat) + "."@ + dec(b[3] as nat)
}

fn ipv4_to_string(b: &[u8]) -> (r: String)
    requires
        b@.len() == 4,
    ensures
        r@ == ipv4_text(b@),
{
    let mut v: Vec<char> = Vec::new();
    push_decimal(&mut v, b[0] as u64);
    push_str(&mut v, ".");
    push_decimal(&mut v, b[1] as u64);
    push_str(&mut v, ".");
    push_decimal(&mut v, b[2] as u64);
    push_str(&mut v, ".");
    push_decimal(&mut v, b[3] as u64);
    assert(v@ =~= ipv4_text(b@));
    string_from_chars(v.as_slice())
}

pub open spec fn bytes_are(r: Vec<u8>, s: Seq<u8>) -> bool {
    r@ == s
}

/// The reply that refuses a command other than CONNECT.
pub open spec fn command_refused_reply() -> Seq<u8> {
    seq![5u8, 7, 0, 1, 0, 0, 0, 0, 0, 0]
}

/// What happens after one read of a SOCKS5 exchange: the methods are acknowledged with
/// "no authentication"; a request other than version 5 CONNECT is refused with reply 7; an
/// address is read by its type (1: IPv4, 3: domain name, 4: IPv6; any other is refused);
/// then the big-endian port.
pub open spec fn socks5_step_spec(phase: Socks5Phase, input: Seq<u8>, r: Socks5Step) -> bool {
    match phase {
        Socks5Phase::MethodCount => r matches Socks5Step::Continue { next, reply, read } && next matches Socks5Phase::Methods { count }
            && count == input[0] && reply@.len() == 0 && read == input[0],
        Socks5Phase::Methods { .. } => r matches Socks5Step::Continue { next, reply, read } && next
            is Request && reply@ == seq![5u8, 0] && read == 4,
        Socks5Phase::Request => if input[0] != 5 || input[1] != 1 {
            r matches Socks5Step::Fail { reply, error } && reply@ == command_refused_reply()
                && error is UnsupportedCommand
        } else if input[3] == 1 {
            r matches Socks5Step::Continue { next, reply, read } && next is Ipv4 && reply@.len() == 0
                && read == 4
        } else if input[3] == 3 {
            r matches Socks5Step::Continue { next, reply, read } && next is DomainLength
                && reply@.len() == 0 && read == 1
        } else if input[3] == 4 {
            r matches Socks5Step::Continue { next, reply, read } && next is Ipv6 && reply@.len() == 0
                && read == 16
        } else {
            r matches Socks5Step::Fail { reply, error } && reply@.len() == 0
                && error is UnsupportedAddressType
        },
        Socks5Phase::Ipv4 => r matches Socks5Step::Continue { next, reply, read } && next matches Socks5Phase::Port { host }
            && host@ == ipv4_text(input) && reply@.len() == 0 && read == 2,
        Socks5Phase::DomainLength => r matches Socks5Step::Continue { next, reply, read } && next matches Socks5Phase::Domain { len }
            && len == input[0] && reply@.len() == 0 && read == input[0],
        Socks5Phase::Domain { .. } => r matches Socks5Step::Continue { next, reply, read } && next matches Socks5Phase::Port { host }
            && host@ == utf8_lossy(input) && reply@.len() == 0 && read == 2,
        Socks5Phase::Ipv6 => r matches Socks5Step::Ipv6Host { bytes } && bytes@ == input,
        Socks5Phase::Port { host } => r matches Socks5Step::Connect { host: h, port } && h@ == host@
            && port == input[0] as u16 * 256 + input[1] as u16,
    }
}

/// One step of a SOCKS5 exchange: the bytes that the phase read, and what to do next.
pub fn socks5_step(phase: Socks5Phase, input: &[u8]) -> (r: Socks5Step)
    requires
        input@.len() == phase.input_len(),
    ensures
        socks5_step_spec(phase, input@, r),
        r matches Socks5Step::Continue { next, read, .. } ==> read == next.input_len(),
{
    match phase {
        Socks5Phase::MethodCount => {
            let n = input[0];
            Socks5Step::Continue { next: Socks5Phase::Methods { count: n }, reply: Vec::new(), read: n as usize }
        },
        Socks5Phase::Methods { .. } => {
            Socks5Step::Continue { next: Socks5Phase::Request, reply: vec![5u8, 0u8], read: 4 }
        },
        Socks5Phase::Request => {
            if input[0] != 5 || input[1] != 1 {
                let reply: Vec<u8> = vec![5u8, 7u8, 0u8, 1u8, 0u8, 0u8, 0u8, 0u8, 0u8, 0u8];
                assert(reply@ =~= command_refused_reply());
                Socks5Step::Fail { reply, error: ProxyError::UnsupportedCommand }
            } else if input[3] == 1 {
                Socks5Step::Continue { next: Socks5Phase::Ipv4, reply: Vec::new(), read: 4 }
            } else if input[3] == 3 {
                Socks5Step::Continue { next: Socks5Phase::DomainLength, reply: Vec::new(), read: 1 }
            } else if input[3] == 4 {
                Socks5Step::Continue { next: Socks5Phase::Ipv6, reply: Vec::new(), read: 16 }
            } else {
                Socks5Step::Fail { reply: Vec::new(), error: ProxyError::UnsupportedAddressType }
            }
        },
        Socks5Phase::Ipv4 => {
            let host = ipv4_to_string(input);
            Socks5Step::Continue { next: Socks5Phase::Port { host }, reply: Vec::new(), read: 2 }
        },
        Socks5Phase::DomainLength => {
            let n = input[0];
            Socks5Step::Continue { next: Socks5Phase::Domain { len: n }, reply: Vec::new(), read: n as usize }
        },
        Socks5Phase::Domain { .. } => {
            let host = decode_utf8_lossy(input);
            Socks5Step::Continue { next: Socks5Phase::Port { host }, reply: Vec::new(), read: 2 }
        },
        Socks5Phase::Ipv6 => {
            assert(input@.skip(0) =~= input@);
            Socks5Step::Ipv6Host { bytes: copy_bytes(input, 0) }
        },
        Socks5Phase::Port { host } => {
            let port: u16 = input[0] as u16 * 256 + input[1] as u16;
            Socks5Step::Connect { host, port }
        },
    }
}

/// A SOCKS5 client that offers any methods and then asks to CONNECT to an IPv4 address is
/// answered "no authentication", and the exchange ends in a connection to that address, in
/// dotted decimal, and the big-endian port.
pub proof fn law_socks5_ipv4_connect(
    count: u8,
    methods: Seq<u8>,
    request: Seq<u8>,
    address: Seq<u8>,
    port: Seq<u8>,
    s1: Socks5Step,
    s2: Socks5Step,
    s3: Socks5Step,
    s4: Socks5Step,
    s5: Socks5Step,
)
    requires
        request.len() == 4 && request[0] == 5 && request[1] == 1 && request[3] == 1,
        address.len() == 4,
        port.len() == 2,
        socks5_step_spec(Socks5Phase::MethodCount, seq![count], s1),
        s1 matches Socks5Step::Continue { next, .. } && socks5_step_spec(next, methods, s2),
        s2 matches Socks5Step::Continue { next, .. } && socks5_step_spec(next, request, s3),
        s3 matches Socks5Step::Continue { next, .. } && socks5_step_spec(next, address, s4),
        s4 matches Socks5Step::Continue { next, .. } && socks5_step_spec(next, port, s5),
    ensures
        s2 matches Socks5Step::Continue { reply, .. } && reply@ == seq![5u8, 0],
        s5 matches Socks5Step::Connect { host, port: p } && host@ == ipv4_text(address) && p
            == port[0] as u16 * 256 + port[1] as u16,
{
}

/// The phase that reads the port, once the host is known, and how many bytes it reads.
pub fn socks5_port_phase(host: String) -> (r: (Socks5Phase, usize))
    ensures
        r.0 matches Socks5Phase::Port { host: h } && h@ == host@,
        r.1 == 2,
{
    (Socks5Phase::Port { host }, 2)
}

/// The reply to a SOCKS5 CONNECT: success (0), or "host unreachable" (4) when the relay
/// could not connect.
pub fn socks5_connect_reply(connected: bool) -> (r: Vec<u8>)
    ensures
        r@ == seq![5u8, if connected { 0u8 } else { 4u8 }, 0, 1, 0, 0, 0, 0, 0, 0],
{
    let code: u8 = if connected { 0 } else { 4 };
    let r: Vec<u8> = vec![5u8, code, 0u8, 1u8, 0u8, 0u8, 0u8, 0u8, 0u8, 0u8];
    assert(r@ =~= seq![5u8, if connected { 0u8 } else { 4u8 }, 0, 1, 0, 0, 0, 0, 0, 0]);
    r
}

} // verus!
