//! The VPNGate catalog: its CSV rows and the OpenVPN configurations they carry.
use base64::Engine;
use vstd::prelude::*;
use vstd::utf8::encode_utf8;

use crate::model::{nodes_view, Node, NodeStatus, NodeView};

use crate::text::{
    chars_of, copy_range, dec, is_ascii_alnum, parse_i64_range, parse_signed64, push_decimal, line_ranges, lines_of, lower_seq, lowercase, owned, parse_u16_range,
    parse_unsigned, pieces, push_chars, push_str, lemma_pieces_push, ranges_within, seq_equal, string_from_chars, string_of_range, trim,
    trim_bounds, word_ranges, words_of, decode_utf8_lossy, utf8_lossy,
};

verus! {

// ---------------------------------------------------------------------------
// The `remote` and `proto` directives of an OpenVPN configuration
// ---------------------------------------------------------------------------

/// Host, port and protocol, as read so far.
pub type RemoteView = (Seq<char>, u16, Seq<char>);

/// The effect of one configuration line: `proto P` sets the protocol, `remote H P [PROTO]`
/// sets host and port (a port that is no `u16` reads as 0) and, when given, the protocol.
/// Blank lines and comments (`#`, `;`) change nothing; directive names are
/// case-insensitive and protocols are lower-cased.
pub open spec fn remote_step(st: RemoteView, raw: Seq<char>) -> RemoteView {
    let line = trim(raw);
    if line.len() == 0 || line[0] == '#' || line[0] == ';' {
        st
    } else {
        let parts = words_of(line);
        if parts.len() == 0 {
            st
        } else if lower_seq(parts[0]) == "proto"@ && parts.len() >= 2 {
            (st.0, st.1, lower_seq(parts[1]))
        } else if lower_seq(parts[0]) == "remote"@ && parts.len() >= 3 {
            let port: u16 = match parse_unsigned(parts[2], 0xffff) {
                Some(n) => n as u16,
                None => 0,
            };
            (parts[1], port, if parts.len() >= 4 { lower_seq(parts[3]) } else { st.2 })
        } else {
            st
        }
    }
}

/// The lines applied in order.
pub open spec fn remote_fold(lines: Seq<Seq<char>>, st: RemoteView) -> RemoteView
    decreases lines.len(),
{
    if lines.len() == 0 {
        st
    } else {
        remote_fold(lines.drop_first(), remote_step(st, lines[0]))
    }
}

/// What `parse_remote` finds in a configuration: the last `remote` and `proto` that apply,
/// starting from the fallback host, port 0 and protocol `unknown`.
pub open spec fn remote_of(config: Seq<char>, fallback_host: Seq<char>) -> RemoteView {
    remote_fold(lines_of(config), (fallback_host, 0u16, "unknown"@))
}

proof fn lemma_remote_fold_step(lines: Seq<Seq<char>>, k: int, st: RemoteView)
    requires
        0 <= k < lines.len(),
    ensures
        remote_fold(lines.skip(k), st) == remote_fold(lines.skip(k + 1), remote_step(st, lines[k])),
{
    assert(lines.skip(k).drop_first() =~= lines.skip(k + 1));
}

fn words_equal(v: &Vec<char>, r: (usize, usize), word: &str) -> (b: bool)
    requires
        r.0 <= r.1 <= v.len(),
    ensures
        b == (lower_seq(v@.subrange(r.0 as int, r.1 as int)) == word@),
{
    let piece = copy_range(v, r.0, r.1);
    let low = lowercase(piece.as_slice());
    let w = chars_of(word);
    seq_equal(low.as_slice(), w.as_slice())
}

/// Reads the `remote` host and port and the protocol out of an OpenVPN configuration.
pub fn parse_remote(config: &str, fallback_host: &str) -> (r: (String, u16, String))
    ensures
        (r.0@, r.1, r.2@) == remote_of(config@, fallback_host@),
{
    let v = chars_of(config);
    let rs = line_ranges(&v);
    let ghost lines = lines_of(v@);
    let mut host = owned(fallback_host);
    let mut port: u16 = 0;
    let mut proto = owned("unknown");
    let mut k: usize = 0;
    assert(lines.skip(0) =~= lines);
    while k < rs.len()
        invariant
            k <= rs.len(),
            v@ == config@,
            lines == lines_of(v@),
            pieces(v@, rs@) == lines,
            ranges_within(rs@, v@.len()),
            remote_of(config@, fallback_host@) == remote_fold(lines.skip(k as int), (host@, port, proto@)),
        decreases rs.len() - k,
    {
        let (a, b) = rs[k];
        assert(rs@[k as int].0 <= rs@[k as int].1 <= v@.len());
        proof {
            lemma_remote_fold_step(lines, k as int, (host@, port, proto@));
            assert(lines[k as int] == v@.subrange(a as int, b as int));
        }
        let (ta, tb) = trim_bounds(&v, a, b);
        let ghost line = v@.subrange(ta as int, tb as int);
        if ta < tb && v[ta] != '#' && v[ta] != ';' {
            let ws = word_ranges(&v, ta, tb);
            assert(pieces(v@, ws@) == words_of(line));
            if ws.len() > 0 {
                let w0 = ws[0];
                assert(ws@[0].0 <= ws@[0].1 <= v@.len());
                if ws.len() >= 2 && words_equal(&v, w0, "proto") {
                    let w1 = ws[1];
                    assert(ws@[1].0 <= ws@[1].1 <= v@.len());
                    let piece = copy_range(&v, w1.0, w1.1);
                    let low = lowercase(piece.as_slice());
                    proto = string_from_chars(low.as_slice());
                } else if ws.len() >= 3 && words_equal(&v, w0, "remote") {
                    let w1 = ws[1];
                    let w2 = ws[2];
                    assert(ws@[1].0 <= ws@[1].1 <= v@.len());
                    assert(ws@[2].0 <= ws@[2].1 <= v@.len());
                    host = string_of_range(&v, w1.0, w1.1);
                    port = match parse_u16_range(&v, w2.0, w2.1) {
                        Some(n) => n,
                        None => 0,
                    };
                    if ws.len() >= 4 {
                        let w3 = ws[3];
                        assert(ws@[3].0 <= ws@[3].1 <= v@.len());
                        let piece = copy_range(&v, w3.0, w3.1);
                        let low = lowercase(piece.as_slice());
                        proto = string_from_chars(low.as_slice());
                    }
                }
            }
        }
        k += 1;
    }
    assert(lines.skip(k as int) =~= Seq::<Seq<char>>::empty());
    (host, port, proto)
}


// ---------------------------------------------------------------------------
// Node ids
// ---------------------------------------------------------------------------

pub open spec fn is_id_char(c: char) -> bool {
    is_ascii_alnum(c) || c == '_' || c == '-' || c == '.'
}

/// Characters outside `[A-Za-z0-9_.-]` replaced by `'_'`.
pub open spec fn sanitize_id(s: Seq<char>) -> Seq<char> {
    s.map_values(|c: char| if is_id_char(c) { c } else { '_' })
}

pub open spec fn is_id_edge(c: char) -> bool {
    c == '_' || c == '.' || c == '-'
}

pub open spec fn strip_edges_start(s: Seq<char>) -> Seq<char>
    decreases s.len(),
{
    if s.len() > 0 && is_id_edge(s[0]) {
        strip_edges_start(s.drop_first())
    } else {
        s
    }
}

pub open spec fn strip_edges_end(s: Seq<char>) -> Seq<char>
    decreases s.len(),
{
    if s.len() > 0 && is_id_edge(s.last()) {
        strip_edges_end(s.drop_last())
    } else {
        s
    }
}

/// A text made into an id: sanitised, then `'_'`, `'.'` and `'-'` trimmed from both ends.
pub open spec fn clean_id(s: Seq<char>) -> Seq<char> {
    strip_edges_end(strip_edges_start(sanitize_id(s)))
}

/// The id `safe_id` gives when cleaning leaves nothing: `node_` and the time in seconds.
pub open spec fn fallback_id(now_secs: u64) -> Seq<char> {
    "node_"@ + dec(now_secs as nat)
}

proof fn lemma_strip_start_keeps(s: Seq<char>, i: int)
    requires
        0 <= i < s.len(),
        !is_id_edge(s[i]),
    ensures
        exists|j: int| 0 <= j <= i && strip_edges_start(s) == #[trigger] s.skip(j),
    decreases s.len(),
{
    if s.len() > 0 && is_id_edge(s[0]) {
        lemma_strip_start_keeps(s.drop_first(), i - 1);
        let j = choose|j: int| 0 <= j <= i - 1 && strip_edges_start(s.drop_first()) == #[trigger] s.drop_first().skip(j);
        assert(s.drop_first().skip(j) =~= s.skip(j + 1));
    } else {
        assert(s.skip(0) =~= s);
    }
}

proof fn lemma_strip_end_keeps(s: Seq<char>, i: int)
    requires
        0 <= i < s.len(),
        !is_id_edge(s[i]),
    ensures
        strip_edges_end(s).len() > i,
    decreases s.len(),
{
    if s.len() > 0 && is_id_edge(s.last()) {
        lemma_strip_end_keeps(s.drop_last(), i);
    }
}

/// Cleaning keeps something when the text has a character that is no edge character.
proof fn lemma_clean_id_nonempty(s: Seq<char>, i: int)
    requires
        0 <= i < s.len(),
        is_ascii_alnum(s[i]),
    ensures
        clean_id(s).len() > 0,
{
    let t = sanitize_id(s);
    assert(t[i] == s[i]);
    lemma_strip_start_keeps(t, i);
    let j = choose|j: int| 0 <= j <= i && strip_edges_start(t) == #[trigger] t.skip(j);
    assert(t.skip(j)[i - j] == t[i]);
    lemma_strip_end_keeps(t.skip(j), i - j);
}

fn is_id_edge_char(c: char) -> (r: bool)
    ensures
        r == is_id_edge(c),
{
    c == '_' || c == '.' || c == '-'
}

fn clean_id_chars(v: &[char]) -> (r: Vec<char>)
    ensures
        r@ == clean_id(v@),
{
    let mut t: Vec<char> = Vec::new();
    let mut i: usize = 0;
    while i < v.len()
        invariant
            i <= v.len(),
            t@ == sanitize_id(v@.take(i as int)),
        decreases v.len() - i,
    {
        let c = v[i];
        let keep = ('0' <= c && c <= '9') || ('a' <= c && c <= 'z') || ('A' <= c && c <= 'Z') || c
            == '_' || c == '-' || c == '.';
        let d: char = if keep { c } else { '_' };
        t.push(d);
        i += 1;
        assert(sanitize_id(v@.take(i as int)) =~= sanitize_id(v@.take((i - 1) as int)).push(d));
    }
    assert(v@.take(v.len() as int) =~= v@);
    let ghost s = t@;
    let mut a: usize = 0;
    assert(s.subrange(0, s.len() as int) =~= s);
    while a < t.len() && is_id_edge_char(t[a])
        invariant
            a <= t.len(),
            s == t@,
            strip_edges_start(s) == strip_edges_start(s.subrange(a as int, s.len() as int)),
        decreases t.len() - a,
    {
        assert(s.subrange(a as int, s.len() as int).drop_first() =~= s.subrange(a + 1, s.len() as int));
        a += 1;
    }
    let mut b: usize = t.len();
    while b > a && is_id_edge_char(t[b - 1])
        invariant
            a <= b <= t.len(),
            s == t@,
            clean_id(v@) == strip_edges_end(s.subrange(a as int, b as int)),
        decreases b - a,
    {
        assert(s.subrange(a as int, b as int).drop_last() =~= s.subrange(a as int, b - 1));
        b -= 1;
    }
    copy_range(&t, a, b)
}

/// The id made of `value`, with `now_secs` standing for the time when cleaning leaves nothing.
pub fn safe_id_at(value: &str, now_secs: u64) -> (r: String)
    ensures
        r@ == if clean_id(value@).len() > 0 {
            clean_id(value@)
        } else {
            fallback_id(now_secs)
        },
{
    let v = chars_of(value);
    let c = clean_id_chars(v.as_slice());
    if c.len() > 0 {
        string_from_chars(c.as_slice())
    } else {
        let mut out = chars_of("node_");
        push_decimal(&mut out, now_secs);
        string_from_chars(out.as_slice())
    }
}

/// The current time in whole seconds since the Unix epoch, 0 when the clock is before it
/// (`SystemTime::now().duration_since(UNIX_EPOCH)`). Nothing is stated of its value.
#[verifier::external_body]
fn unix_time_secs() -> u64 {
    std::time::SystemTime::now().duration_since(std::time::UNIX_EPOCH).map(|d| d.as_secs()).unwrap_or(0)
}

/// Makes a text into a node id: characters outside `[A-Za-z0-9_.-]` become `'_'`, and
/// `'_'`, `'.'`, `'-'` are trimmed from both ends; when nothing is left the id is `node_`
/// followed by the current time in seconds.
pub fn safe_id(value: &str) -> (r: String)
    ensures
        clean_id(value@).len() > 0 ==> r@ == clean_id(value@),
        clean_id(value@).len() == 0 ==> exists|t: u64| r@ == fallback_id(t),
{
    let now = unix_time_secs();
    safe_id_at(value, now)
}

/// A catalog number: the value when the text is an `i64`, 0 otherwise.
pub open spec fn number_or_zero(s: Seq<char>) -> i64 {
    match parse_signed64(s) {
        Some(n) => n as i64,
        None => 0,
    }
}

pub fn parse_i64(value: &str) -> (r: i64)
    ensures
        r == number_or_zero(value@),
{
    let v = chars_of(value);
    assert(v@.subrange(0, v.len() as int) =~= v@);
    match parse_i64_range(&v, 0, v.len()) {
        Some(n) => n,
        None => 0,
    }
}


// ---------------------------------------------------------------------------
// Catalog rows
// ---------------------------------------------------------------------------

/// The position of the first header equal to `name`.
pub open spec fn header_index(headers: Seq<Seq<char>>, name: Seq<char>) -> Option<nat>
    decreases headers.len(),
{
    if headers.len() == 0 {
        None
    } else if headers[0] == name {
        Some(0)
    } else {
        match header_index(headers.drop_first(), name) {
            Some(i) => Some(i + 1),
            None => None,
        }
    }
}

/// The value of column `name` in a record: the field under the first header of that
/// name, or the empty text when there is none.
pub open spec fn field(headers: Seq<Seq<char>>, rec: Seq<Seq<char>>, name: Seq<char>) -> Seq<char> {
    match header_index(headers, name) {
        Some(i) => if i < rec.len() {
            rec[i as int]
        } else {
            Seq::empty()
        },
        None => Seq::empty(),
    }
}

pub open spec fn strings_view(v: Seq<String>) -> Seq<Seq<char>> {
    v.map_values(|s: String| s@)
}

proof fn lemma_header_index_step(headers: Seq<Seq<char>>, name: Seq<char>, i: int)
    requires
        0 <= i < headers.len(),
        forall|j: int| 0 <= j < i ==> headers[j] != name,
    ensures
        header_index(headers, name) == (if headers[i] == name {
            Some(i as nat)
        } else {
            match header_index(headers.skip(i + 1), name) {
                Some(k) => Some((k + i + 1) as nat),
                None => None,
            }
        }),
    decreases i,
{
    if i > 0 {
        lemma_header_index_step(headers.drop_first(), name, i - 1);
        assert(headers.drop_first().skip(i) =~= headers.skip(i + 1));
    } else {
        assert(headers.drop_first() =~= headers.skip(1));
    }
}

/// The value of column `name` in a record.
pub fn get_field(headers: &Vec<String>, rec: &Vec<String>, name: &str) -> (r: String)
    ensures
        r@ == field(strings_view(headers@), strings_view(rec@), name@),
{
    let ghost hs = strings_view(headers@);
    let mut i: usize = 0;
    while i < headers.len()
        invariant
            i <= headers.len(),
            hs == strings_view(headers@),
            forall|j: int| 0 <= j < i ==> hs[j] != name@,
        decreases headers.len() - i,
    {
        let h = chars_of(headers[i].as_str());
        let n = chars_of(name);
        proof {
            lemma_header_index_step(hs, name@, i as int);
        }
        if seq_equal(h.as_slice(), n.as_slice()) {
            if i < rec.len() {
                return rec[i].clone();
            } else {
                return String::new();
            }
        }
        i += 1;
    }
    proof {
        if hs.len() > 0 {
            lemma_header_index_step(hs, name@, hs.len() - 1);
            assert(hs.skip(hs.len() as int) =~= Seq::<Seq<char>>::empty());
        }
    }
    String::new()
}

/// The text from which a node's id is made: country code (`XX` when there is none),
/// address (the catalog IP, else the remote host), port and protocol, joined by `_`.
pub open spec fn id_source(country_short: Seq<char>, ip: Seq<char>, host: Seq<char>, port: u16, proto: Seq<char>) -> Seq<char> {
    (if country_short.len() == 0 { "XX"@ } else { country_short }) + "_"@ + (if ip.len() == 0 {
        host
    } else {
        ip
    }) + "_"@ + dec(port as nat) + "_"@ + proto
}

/// The node that a record describes, given the text of its OpenVPN configuration: none
/// when the configuration names no remote host or no port.
pub open spec fn node_of(headers: Seq<Seq<char>>, rec: Seq<Seq<char>>, config_text: Seq<char>) -> Option<NodeView> {
    let ip = field(headers, rec, "IP"@);
    let remote = remote_of(config_text, ip);
    if remote.0.len() == 0 || remote.1 == 0 {
        None
    } else {
        let cs = field(headers, rec, "CountryShort"@);
        Some(
            NodeView {
                id: clean_id(id_source(cs, ip, remote.0, remote.1, remote.2)),
                country: field(headers, rec, "CountryLong"@),
                country_short: cs,
                host_name: field(headers, rec, "HostName"@),
                ip: ip,
                remote_host: remote.0,
                remote_port: remote.1,
                proto: remote.2,
                score: number_or_zero(field(headers, rec, "Score"@)),
                ping: number_or_zero(field(headers, rec, "Ping"@)),
                speed: number_or_zero(field(headers, rec, "Speed"@)),
                sessions: number_or_zero(field(headers, rec, "NumVpnSessions"@)),
                config_text: config_text,
                latency_ms: None,
                status: NodeStatus::New,
                last_error: None,
            },
        )
    }
}

proof fn lemma_dec_ends_in_digit(n: nat)
    ensures
        dec(n).len() > 0,
        is_ascii_alnum(dec(n).last()),
    decreases n,
{
    if n >= 10 {
        lemma_dec_ends_in_digit(n / 10);
    }
}

proof fn lemma_id_source_clean(cs: Seq<char>, ip: Seq<char>, host: Seq<char>, port: u16, proto: Seq<char>)
    ensures
        clean_id(id_source(cs, ip, host, port, proto)).len() > 0,
{
    let a = (if cs.len() == 0 { "XX"@ } else { cs }) + "_"@ + (if ip.len() == 0 { host } else { ip }) + "_"@;
    let d = dec(port as nat);
    lemma_dec_ends_in_digit(port as nat);
    let s = id_source(cs, ip, host, port, proto);
    assert(s =~= a + d + "_"@ + proto);
    assert(s[a.len() + d.len() - 1] == d.last());
    lemma_clean_id_nonempty(s, a.len() + d.len() - 1);
}

/// The node that a record describes, given the text of its OpenVPN configuration.
pub fn node_from_config_text(headers: &Vec<String>, rec: &Vec<String>, config_text: String) -> (r: Option<Node>)
    ensures
        match node_of(strings_view(headers@), strings_view(rec@), config_text@) {
            Some(n) => r matches Some(node) && node@ == n,
            None => r is None,
        },
{
    let ip = get_field(headers, rec, "IP");
    let (remote_host, remote_port, proto) = parse_remote(config_text.as_str(), ip.as_str());
    if remote_host.as_str().is_empty() || remote_port == 0 {
        return None;
    }
    let country_short = get_field(headers, rec, "CountryShort");
    let mut src: Vec<char> = Vec::new();
    if country_short.as_str().is_empty() {
        push_str(&mut src, "XX");
    } else {
        push_str(&mut src, country_short.as_str());
    }
    push_str(&mut src, "_");
    if ip.as_str().is_empty() {
        push_str(&mut src, remote_host.as_str());
    } else {
        push_str(&mut src, ip.as_str());
    }
    push_str(&mut src, "_");
    push_decimal(&mut src, remote_port as u64);
    push_str(&mut src, "_");
    push_str(&mut src, proto.as_str());
    proof {
        assert(src@ =~= id_source(country_short@, ip@, remote_host@, remote_port, proto@));
        lemma_id_source_clean(country_short@, ip@, remote_host@, remote_port, proto@);
    }
    let id_text = string_from_chars(src.as_slice());
    let id = safe_id(id_text.as_str());
    let score = parse_i64(get_field(headers, rec, "Score").as_str());
    let ping = parse_i64(get_field(headers, rec, "Ping").as_str());
    let speed = parse_i64(get_field(headers, rec, "Speed").as_str());
    let sessions = parse_i64(get_field(headers, rec, "NumVpnSessions").as_str());
    Some(
        Node {
            id,
            country: get_field(headers, rec, "CountryLong"),
            country_short,
            host_name: get_field(headers, rec, "HostName"),
            ip,
            remote_host,
            remote_port,
            proto,
            score,
            ping,
            speed,
            sessions,
            config_text,
            latency_ms: None,
            status: NodeStatus::New,
            last_error: None,
        },
    )
}

/// What `base64`'s standard engine decodes `input` into; `None` when it refuses the input.
pub uninterp spec fn base64_standard(input: Seq<u8>) -> Option<Seq<u8>>;

/// `base64::DecodeError`, carried as it is.
#[verifier::external_type_specification]
#[verifier::external_body]
pub struct ExDecodeError(base64::DecodeError);

/// `base64::engine::general_purpose::STANDARD.decode`: the decoded bytes, or the error
/// that the engine reports; the result is the one the engine gives for these bytes.
#[verifier::external_body]
fn decode_base64(input: &[u8]) -> (r: Result<Vec<u8>, base64::DecodeError>)
    ensures
        match base64_standard(input@) {
            Some(b) => r matches Ok(v) && v@ == b,
            None => r is Err,
        },
{
    base64::engine::general_purpose::STANDARD.decode(input)
}

/// What a catalog record gives.
pub enum RowView {
    /// The record carries no configuration, or one with no usable remote.
    Skip,
    /// The configuration is not valid base64.
    BadConfig,
    Node(NodeView),
}

/// The outcome of one record: its base64 configuration column decoded and read.
pub open spec fn row_of(headers: Seq<Seq<char>>, rec: Seq<Seq<char>>) -> RowView {
    let encoded = field(headers, rec, "OpenVPN_ConfigData_Base64"@);
    if encoded.len() == 0 {
        RowView::Skip
    } else {
        match base64_standard(encode_utf8(encoded)) {
            None => RowView::BadConfig,
            Some(bytes) => match node_of(headers, rec, utf8_lossy(bytes)) {
                Some(n) => RowView::Node(n),
                None => RowView::Skip,
            },
        }
    }
}

/// `csv::Error`, carried as it is.
#[verifier::external_type_specification]
#[verifier::external_body]
pub struct ExCsvError(csv::Error);

/// Why a catalog could not be read.
#[derive(Debug)]
pub enum CatalogError {
    /// No line of the catalog holds anything.
    EmptyCatalog,
    /// The CSV reader refused the header or a record.
    Csv(csv::Error),
    /// A record's OpenVPN configuration is not valid base64.
    BadConfig(base64::DecodeError),
    /// No record describes a usable tunnel.
    NoUsableEntries,
}

/// Reads one record: `Ok(None)` when it describes no usable tunnel.
pub fn row_to_node(headers: &Vec<String>, rec: &Vec<String>) -> (r: Result<Option<Node>, CatalogError>)
    ensures
        match row_of(strings_view(headers@), strings_view(rec@)) {
            RowView::Skip => r matches Ok(None),
            RowView::BadConfig => r matches Err(CatalogError::BadConfig(_)),
            RowView::Node(n) => r matches Ok(Some(node)) && node@ == n,
        },
{
    let encoded = get_field(headers, rec, "OpenVPN_ConfigData_Base64");
    if encoded.as_str().is_empty() {
        return Ok(None);
    }
    let bytes = match decode_base64(encoded.as_str().as_bytes()) {
        Ok(b) => b,
        Err(e) => return Err(CatalogError::BadConfig(e)),
    };
    let config_text = decode_utf8_lossy(bytes.as_slice());
    Ok(node_from_config_text(headers, rec, config_text))
}


// ---------------------------------------------------------------------------
// The order of the catalog: nodes with a positive ping first, by ascending ping, then
// by descending score
// ---------------------------------------------------------------------------

/// `a` comes strictly before `b`: by the key `(ping <= 0, ping, -score)`.
pub open spec fn key_lt(a: NodeView, b: NodeView) -> bool {
    if (a.ping <= 0) != (b.ping <= 0) {
        b.ping <= 0
    } else if a.ping != b.ping {
        a.ping < b.ping
    } else {
        a.score > b.score
    }
}

pub open spec fn same_key(a: NodeView, b: NodeView) -> bool {
    a.ping == b.ping && a.score == b.score
}

/// `out` is `inp` reordered by `p` (`out[i]` is `inp[p[i]]`), sorted by key, with nodes of
/// equal key in the order they came in.
pub open spec fn stable_sort_witness(out: Seq<NodeView>, inp: Seq<NodeView>, p: Seq<int>) -> bool {
    &&& p.len() == out.len() == inp.len()
    &&& forall|i: int| 0 <= i < p.len() ==> 0 <= #[trigger] p[i] < inp.len() && out[i] == inp[p[i]]
    &&& forall|i: int, j: int| 0 <= i < j < p.len() ==> #[trigger] p[i] != #[trigger] p[j]
    &&& forall|i: int, j: int| 0 <= i < j < out.len() ==> !key_lt(#[trigger] out[j], #[trigger] out[i])
    &&& forall|i: int, j: int|
        0 <= i < j < out.len() && same_key(#[trigger] out[i], #[trigger] out[j]) ==> p[i] < p[j]
}

/// `out` is the stable sort of `inp` by key.
pub open spec fn is_stable_sort_of(out: Seq<NodeView>, inp: Seq<NodeView>) -> bool {
    exists|p: Seq<int>| stable_sort_witness(out, inp, p)
}

/// The catalog order, pair by pair: nodes with a positive ping come before the others;
/// among nodes on the same side of zero the ping does not go down; of two nodes with the
/// same ping the one with the higher score comes first, whatever the ping; and nodes with
/// the same ping and score stay in the order they came in.
pub proof fn law_catalog_order(out: Seq<NodeView>, inp: Seq<NodeView>, i: int, j: int)
    requires
        is_stable_sort_of(out, inp),
        0 <= i < j < out.len(),
    ensures
        out[j].ping > 0 ==> out[i].ping > 0,
        (out[i].ping > 0) == (out[j].ping > 0) ==> out[i].ping <= out[j].ping,
        out[i].ping == out[j].ping ==> out[i].score >= out[j].score,
        out[i].ping == out[j].ping && out[i].score == out[j].score ==> exists|a: int, b: int|
            0 <= a < b < inp.len() && inp[a] == out[i] && inp[b] == out[j],
{
    let p = choose|p: Seq<int>| stable_sort_witness(out, inp, p);
    assert(!key_lt(out[j], out[i]));
    if out[i].ping == out[j].ping && out[i].score == out[j].score {
        assert(same_key(out[i], out[j]));
        assert(p[i] < p[j]);
        assert(inp[p[i]] == out[i] && inp[p[j]] == out[j]);
    }
}

pub(crate) fn node_key_lt(a: &Node, b: &Node) -> (r: bool)
    ensures
        r == key_lt(a@, b@),
{
    if (a.ping <= 0) != (b.ping <= 0) {
        b.ping <= 0
    } else if a.ping != b.ping {
        a.ping < b.ping
    } else {
        a.score > b.score
    }
}

/// Sorts the nodes by key, keeping nodes of equal key in their order (a stable sort).
pub fn sort_nodes(nodes: Vec<Node>) -> (r: Vec<Node>)
    ensures
        is_stable_sort_of(nodes_view(r@), nodes_view(nodes@)),
{
    let ghost inp = nodes_view(nodes@);
    let mut src = nodes;
    let mut out: Vec<Node> = Vec::new();
    let ghost mut p: Seq<int> = Seq::empty();
    let mut k: usize = 0;
    let n = src.len();
    assert(nodes_view(src@) =~= inp.skip(0));
    while k < n
        invariant
            k <= n == inp.len(),
            nodes_view(src@) == inp.skip(k as int),
            src@.len() == n - k,
            p.len() == out@.len() == k,
            forall|i: int| 0 <= i < p.len() ==> 0 <= #[trigger] p[i] < k && nodes_view(out@)[i] == inp[p[i]],
            forall|i: int, j: int| 0 <= i < j < p.len() ==> #[trigger] p[i] != #[trigger] p[j],
            forall|i: int, j: int| 0 <= i < j < out@.len() ==> !key_lt(#[trigger] nodes_view(out@)[j], #[trigger] nodes_view(out@)[i]),
            forall|i: int, j: int|
                0 <= i < j < out@.len() && same_key(#[trigger] nodes_view(out@)[i], #[trigger] nodes_view(out@)[j]) ==> p[i] < p[j],
        decreases n - k,
    {
        let ghost old_src = src@;
        let node = src.remove(0);
        assert(nodes_view(old_src)[0] == node@);
        assert(node@ == inp[k as int]);
        assert(nodes_view(src@) =~= nodes_view(old_src).drop_first());
        let ghost ov = nodes_view(out@);
        let mut q: usize = 0;
        while q < out.len() && !node_key_lt(&node, &out[q])
            invariant
                q <= out@.len(),
                ov == nodes_view(out@),
                forall|i: int| 0 <= i < q ==> !key_lt(node@, #[trigger] ov[i]),
            decreases out@.len() - q,
        {
            q += 1;
        }
        out.insert(q, node);
        proof {
            let nv = nodes_view(out@);
            assert(nv =~= ov.insert(q as int, inp[k as int]));
            let np = p.insert(q as int, k as int);
            assert forall|j: int| q < j < nv.len() implies key_lt(inp[k as int], #[trigger] nv[j]) by {
                assert(nv[j] == ov[j - 1]);
                assert(key_lt(inp[k as int], ov[q as int]));
                if j - 1 > q {
                    assert(!key_lt(ov[j - 1], ov[q as int]));
                }
            }
            assert forall|i: int| 0 <= i < np.len() implies 0 <= #[trigger] np[i] < k + 1 && nv[i] == inp[np[i]] by {
                if i < q {
                    assert(np[i] == p[i]);
                } else if i > q {
                    assert(np[i] == p[i - 1]);
                }
            }
            assert forall|i: int, j: int| 0 <= i < j < np.len() implies #[trigger] np[i] != #[trigger] np[j] by {
                if i < q && j > q {
                    assert(np[j] == p[j - 1]);
                } else if i > q {
                    assert(np[i] == p[i - 1]);
                    assert(np[j] == p[j - 1]);
                } else if j < q {
                } else if i == q {
                    assert(np[j] == p[j - 1]);
                } else {
                    assert(np[i] == p[i]);
                }
            }
            assert forall|i: int, j: int| 0 <= i < j < nv.len() implies !key_lt(#[trigger] nv[j], #[trigger] nv[i]) by {
                if i < q && j > q {
                    assert(nv[i] == ov[i]);
                    assert(nv[j] == ov[j - 1]);
                } else if i > q {
                    assert(nv[i] == ov[i - 1]);
                    assert(nv[j] == ov[j - 1]);
                } else if i == q {
                } else if j == q {
                    assert(nv[i] == ov[i]);
                } else {
                    assert(nv[i] == ov[i]);
                    assert(nv[j] == ov[j]);
                }
            }
            assert forall|i: int, j: int|
                0 <= i < j < nv.len() && same_key(#[trigger] nv[i], #[trigger] nv[j]) implies np[i] < np[j] by {
                if i < q && j > q {
                    assert(np[i] == p[i]);
                    assert(np[j] == p[j - 1]);
                    assert(nv[i] == ov[i]);
                    assert(nv[j] == ov[j - 1]);
                } else if i > q {
                    assert(np[i] == p[i - 1]);
                    assert(np[j] == p[j - 1]);
                    assert(nv[i] == ov[i - 1]);
                    assert(nv[j] == ov[j - 1]);
                } else if i == q {
                    assert(key_lt(inp[k as int], nv[j]));
                } else if j == q {
                    assert(np[i] == p[i]);
                } else {
                    assert(np[i] == p[i]);
                    assert(np[j] == p[j]);
                    assert(nv[i] == ov[i]);
                    assert(nv[j] == ov[j]);
                }
            }
            p = np;
            assert(inp.skip(k as int).drop_first() =~= inp.skip(k + 1));
        }
        k += 1;
    }
    assert(stable_sort_witness(nodes_view(out@), inp, p));
    out
}


// ---------------------------------------------------------------------------
// The catalog as a whole
// ---------------------------------------------------------------------------

/// A catalog line that counts: not blank, and no `*` comment.
pub open spec fn keeps_line(l: Seq<char>) -> bool {
    trim(l).len() > 0 && !(l.len() > 0 && l[0] == '*')
}

/// The lines that count, in order.
pub open spec fn kept_lines(ls: Seq<Seq<char>>) -> Seq<Seq<char>>
    decreases ls.len(),
{
    if ls.len() == 0 {
        ls
    } else if keeps_line(ls.last()) {
        kept_lines(ls.drop_last()).push(ls.last())
    } else {
        kept_lines(ls.drop_last())
    }
}

/// A text without its leading `'#'` characters.
pub open spec fn strip_hashes(s: Seq<char>) -> Seq<char>
    decreases s.len(),
{
    if s.len() > 0 && s[0] == '#' {
        strip_hashes(s.drop_first())
    } else {
        s
    }
}

/// The lines of the catalog that go to the CSV reader: those that count, the first one
/// without the `#` that marks the header.
pub open spec fn catalog_lines(text: Seq<char>) -> Seq<Seq<char>> {
    let kept = kept_lines(lines_of(text));
    if kept.len() > 0 {
        kept.update(0, strip_hashes(kept[0]))
    } else {
        kept
    }
}

/// Lines joined with `'\n'` between them.
pub open spec fn join_lines(ls: Seq<Seq<char>>) -> Seq<char>
    decreases ls.len(),
{
    if ls.len() == 0 {
        Seq::empty()
    } else if ls.len() == 1 {
        ls[0]
    } else {
        join_lines(ls.drop_last()) + seq!['\n'] + ls.last()
    }
}

/// The CSV text of a catalog, or `None` when no line of it counts.
pub open spec fn csv_text_of(text: Seq<char>) -> Option<Seq<char>> {
    if catalog_lines(text).len() == 0 {
        None
    } else {
        Some(join_lines(catalog_lines(text)))
    }
}

/// The CSV text that a catalog hands to the CSV reader.
pub fn catalog_csv_text(text: &str) -> (r: Option<String>)
    ensures
        match csv_text_of(text@) {
            Some(t) => r matches Some(s) && s@ == t,
            None => r is None,
        },
{
    let v = chars_of(text);
    let rs = line_ranges(&v);
    let ghost lines = lines_of(v@);
    let mut kept: Vec<(usize, usize)> = Vec::new();
    let mut k: usize = 0;
    assert(lines.take(0) =~= Seq::<Seq<char>>::empty());
    assert(pieces(v@, kept@) =~= Seq::<Seq<char>>::empty());
    while k < rs.len()
        invariant
            k <= rs.len(),
            lines == lines_of(v@),
            pieces(v@, rs@) == lines,
            ranges_within(rs@, v@.len()),
            ranges_within(kept@, v@.len()),
            pieces(v@, kept@) == kept_lines(lines.take(k as int)),
        decreases rs.len() - k,
    {
        let (a, b) = rs[k];
        assert(rs@[k as int].0 <= rs@[k as int].1 <= v@.len());
        assert(lines[k as int] == v@.subrange(a as int, b as int));
        assert(lines.take(k + 1).drop_last() =~= lines.take(k as int));
        assert(lines.take(k + 1).last() == lines[k as int]);
        let (ta, tb) = trim_bounds(&v, a, b);
        let star = a < b && v[a] == '*';
        if ta < tb && !star {
            proof {
                lemma_pieces_push(v@, kept@, (a, b));
            }
            kept.push((a, b));
        }
        k += 1;
    }
    assert(lines.take(rs.len() as int) =~= lines);
    if kept.len() == 0 {
        return None;
    }
    let ghost cl = catalog_lines(v@);
    let (a0, b0) = kept[0];
    assert(kept@[0].0 <= kept@[0].1 <= v@.len());
    let mut h = a0;
    while h < b0 && v[h] == '#'
        invariant
            a0 <= h <= b0 <= v@.len(),
            strip_hashes(v@.subrange(a0 as int, b0 as int)) == strip_hashes(v@.subrange(h as int, b0 as int)),
        decreases b0 - h,
    {
        assert(v@.subrange(h as int, b0 as int).drop_first() =~= v@.subrange(h + 1, b0 as int));
        h += 1;
    }
    let mut out: Vec<char> = Vec::new();
    let mut j: usize = 0;
    while j < kept.len()
        invariant
            j <= kept@.len(),
            kept@.len() > 0,
            ranges_within(kept@, v@.len()),
            a0 <= h <= b0 <= v@.len(),
            kept@[0] == (a0, b0),
            cl == pieces(v@, kept@).update(0, v@.subrange(h as int, b0 as int)),
            out@ == join_lines(cl.take(j as int)),
        decreases kept@.len() - j,
    {
        let (a, b) = if j == 0 {
            (h, b0)
        } else {
            kept[j]
        };
        assert(a <= b <= v@.len());
        assert(cl[j as int] == v@.subrange(a as int, b as int));
        let piece = copy_range(&v, a, b);
        let ghost before = out@;
        if j > 0 {
            out.push('\n');
        }
        push_chars(&mut out, piece.as_slice());
        assert(cl.take(j + 1).drop_last() =~= cl.take(j as int));
        if j == 0 {
            assert(out@ =~= join_lines(cl.take(j + 1)));
        } else {
            assert(out@ =~= join_lines(cl.take(j + 1)));
        }
        j += 1;
    }
    assert(cl.take(kept@.len() as int) =~= cl);
    Some(string_from_chars(out.as_slice()))
}

/// What the `csv` crate's `Reader` reads from a text: the header record (`None` when the
/// reader refuses it), then each following record (`None` for one it refuses).
pub uninterp spec fn csv_table(text: Seq<char>) -> (Option<Seq<Seq<char>>>, Seq<Option<Seq<Seq<char>>>>);

pub open spec fn record_view(r: Result<Vec<String>, csv::Error>) -> Option<Seq<Seq<char>>> {
    match r {
        Ok(v) => Some(strings_view(v@)),
        Err(_) => None,
    }
}

pub open spec fn records_view(rs: Seq<Result<Vec<String>, csv::Error>>) -> Seq<Option<Seq<Seq<char>>>> {
    rs.map_values(|r: Result<Vec<String>, csv::Error>| record_view(r))
}

/// `csv::Reader::from_reader(text.as_bytes())`, then `headers()` and `records()`, each
/// record's fields taken as strings. The records are read only when the header is; each
/// is the reader's verdict on this text.
#[verifier::external_body]
fn read_csv(text: &str) -> (r: (Result<Vec<String>, csv::Error>, Vec<Result<Vec<String>, csv::Error>>))
    ensures
        record_view(r.0) == csv_table(text@).0,
        r.0 is Ok ==> records_view(r.1@) == csv_table(text@).1,
{
    let mut reader = csv::Reader::from_reader(text.as_bytes());
    let headers = match reader.headers() {
        Ok(h) => h.iter().map(|f| f.to_string()).collect(),
        Err(e) => return (Err(e), Vec::new()),
    };
    let records = reader.records().map(|r| r.map(|rec| rec.iter().map(|f| f.to_string()).collect())).collect();
    (Ok(headers), records)
}

/// Which way reading a catalog went wrong.
#[derive(Clone, Copy, Debug, PartialEq, Eq, Structural)]
pub enum CatalogFault {
    EmptyCatalog,
    Csv,
    BadConfig,
    NoUsableEntries,
}

impl CatalogError {
    pub open spec fn fault(&self) -> CatalogFault {
        match self {
            CatalogError::EmptyCatalog => CatalogFault::EmptyCatalog,
            CatalogError::Csv(_) => CatalogFault::Csv,
            CatalogError::BadConfig(_) => CatalogFault::BadConfig,
            CatalogError::NoUsableEntries => CatalogFault::NoUsableEntries,
        }
    }
}

/// The records read in order, stopping at the first that the CSV reader refused or whose
/// configuration is not base64.
pub open spec fn collect_rows(headers: Seq<Seq<char>>, recs: Seq<Option<Seq<Seq<char>>>>, acc: Seq<NodeView>) -> Result<Seq<NodeView>, CatalogFault>
    decreases recs.len(),
{
    if recs.len() == 0 {
        Ok(acc)
    } else {
        match recs[0] {
            None => Err(CatalogFault::Csv),
            Some(rec) => match row_of(headers, rec) {
                RowView::BadConfig => Err(CatalogFault::BadConfig),
                RowView::Skip => collect_rows(headers, recs.drop_first(), acc),
                RowView::Node(n) => collect_rows(headers, recs.drop_first(), acc.push(n)),
            },
        }
    }
}

/// The nodes of a read table, before sorting: the first `max_nodes` records are read.
pub open spec fn table_nodes(header: Option<Seq<Seq<char>>>, recs: Seq<Option<Seq<Seq<char>>>>, max_nodes: nat) -> Result<Seq<NodeView>, CatalogFault> {
    match header {
        None => Err(CatalogFault::Csv),
        Some(h) => {
            let n = if max_nodes < recs.len() { max_nodes as int } else { recs.len() as int };
            match collect_rows(h, recs.take(n), Seq::empty()) {
                Err(f) => Err(f),
                Ok(ns) => if ns.len() == 0 {
                    Err(CatalogFault::NoUsableEntries)
                } else {
                    Ok(ns)
                },
            }
        },
    }
}

/// The nodes of a catalog, before sorting.
pub open spec fn catalog_nodes(text: Seq<char>, max_nodes: nat) -> Result<Seq<NodeView>, CatalogFault> {
    match csv_text_of(text) {
        None => Err(CatalogFault::EmptyCatalog),
        Some(t) => table_nodes(csv_table(t).0, csv_table(t).1, max_nodes),
    }
}

/// The nodes of a table that the CSV reader has read, sorted.
#[verifier::loop_isolation(false)]
pub fn nodes_from_table(header: Result<Vec<String>, csv::Error>, records: Vec<Result<Vec<String>, csv::Error>>, max_nodes: usize) -> (r: Result<Vec<Node>, CatalogError>)
    ensures
        match table_nodes(record_view(header), records_view(records@), max_nodes as nat) {
            Err(f) => r matches Err(e) && e.fault() == f,
            Ok(ns) => r matches Ok(v) && is_stable_sort_of(nodes_view(v@), ns),
        },
{
    let headers = match header {
        Ok(h) => h,
        Err(e) => return Err(CatalogError::Csv(e)),
    };
    let ghost hv = strings_view(headers@);
    let ghost all = records_view(records@);
    let limit: usize = if max_nodes < records.len() {
        max_nodes
    } else {
        records.len()
    };
    let ghost recs = all.take(limit as int);
    let mut records = records;
    let mut nodes: Vec<Node> = Vec::new();
    let mut i: usize = 0;
    assert(recs.skip(0) =~= recs);
    assert(nodes_view(nodes@) =~= Seq::<NodeView>::empty());
    while i < limit
        invariant
            i <= limit <= records@.len(),
            all == records_view(records@),
            recs == all.take(limit as int),
            hv == strings_view(headers@),
            collect_rows(hv, recs, Seq::empty()) == collect_rows(hv, recs.skip(i as int), nodes_view(nodes@)),
        decreases limit - i,
    {
        let ghost rest = recs.skip(i as int);
        assert(rest.drop_first() =~= recs.skip(i + 1));
        assert(rest[0] == all[i as int]);
        if records[i].is_err() {
            assert(rest[0] is None);
            assert(collect_rows(hv, rest, nodes_view(nodes@)) == Err::<Seq<NodeView>, CatalogFault>(CatalogFault::Csv));
            let bad = records.remove(i);
            match bad {
                Err(e) => return Err(CatalogError::Csv(e)),
                Ok(_) => {
                    return Err(CatalogError::NoUsableEntries);
                },
            }
        }
        let rec = match &records[i] {
            Ok(rec) => rec,
            Err(_) => {
                return Err(CatalogError::NoUsableEntries);
            },
        };
        assert(rest[0] == Some(strings_view(rec@)));
        match row_to_node(&headers, rec) {
            Err(e) => {
                assert(row_of(hv, strings_view(rec@)) is BadConfig);
                return Err(e);
            },
            Ok(Some(node)) => {
                let ghost before = nodes_view(nodes@);
                nodes.push(node);
                assert(nodes_view(nodes@) =~= before.push(node@));
            },
            Ok(None) => {},
        }
        i += 1;
    }
    assert(recs.skip(limit as int) =~= Seq::<Option<Seq<Seq<char>>>>::empty());
    if nodes.len() == 0 {
        return Err(CatalogError::NoUsableEntries);
    }
    Ok(sort_nodes(nodes))
}

/// A node the gateway can connect to: it has an id, a remote host and a port, and is new.
pub open spec fn routable(n: NodeView) -> bool {
    n.id.len() > 0 && n.remote_host.len() > 0 && n.remote_port != 0 && n.status == NodeStatus::New
}

proof fn lemma_node_of_routable(headers: Seq<Seq<char>>, rec: Seq<Seq<char>>, config_text: Seq<char>)
    ensures
        node_of(headers, rec, config_text) matches Some(n) ==> routable(n),
{
    let ip = field(headers, rec, "IP"@);
    let remote = remote_of(config_text, ip);
    let cs = field(headers, rec, "CountryShort"@);
    lemma_id_source_clean(cs, ip, remote.0, remote.1, remote.2);
}

proof fn lemma_collect_rows_routable(headers: Seq<Seq<char>>, recs: Seq<Option<Seq<Seq<char>>>>, acc: Seq<NodeView>)
    requires
        forall|i: int| 0 <= i < acc.len() ==> routable(#[trigger] acc[i]),
    ensures
        collect_rows(headers, recs, acc) matches Ok(ns) ==> forall|i: int| 0 <= i < ns.len() ==> routable(#[trigger] ns[i]),
    decreases recs.len(),
{
    if recs.len() > 0 {
        if let Some(rec) = recs[0] {
            let encoded = field(headers, rec, "OpenVPN_ConfigData_Base64"@);
            if encoded.len() > 0 {
                if let Some(bytes) = base64_standard(encode_utf8(encoded)) {
                    lemma_node_of_routable(headers, rec, utf8_lossy(bytes));
                }
            }
            match row_of(headers, rec) {
                RowView::Node(n) => {
                    assert forall|i: int| 0 <= i < acc.push(n).len() implies routable(#[trigger] acc.push(n)[i]) by {
                        if i < acc.len() {
                            assert(acc.push(n)[i] == acc[i]);
                        }
                    }
                    lemma_collect_rows_routable(headers, recs.drop_first(), acc.push(n));
                },
                RowView::Skip => {
                    lemma_collect_rows_routable(headers, recs.drop_first(), acc);
                },
                RowView::BadConfig => {},
            }
        }
    }
}

/// Every node of a catalog, in whatever order, can be connected to: it has an id, a
/// remote host and a port, and is new.
pub proof fn law_catalog_nodes_routable(text: Seq<char>, max_nodes: nat, ns: Seq<NodeView>, out: Seq<NodeView>)
    requires
        catalog_nodes(text, max_nodes) == Ok::<Seq<NodeView>, CatalogFault>(ns),
        is_stable_sort_of(out, ns),
    ensures
        forall|i: int| 0 <= i < out.len() ==> routable(#[trigger] out[i]),
{
    let t = csv_text_of(text).unwrap();
    let h = csv_table(t).0.unwrap();
    let recs = csv_table(t).1;
    let n = if max_nodes < recs.len() { max_nodes as int } else { recs.len() as int };
    lemma_collect_rows_routable(h, recs.take(n), Seq::empty());
    let p = choose|p: Seq<int>| stable_sort_witness(out, ns, p);
    assert forall|i: int| 0 <= i < out.len() implies routable(#[trigger] out[i]) by {
        assert(out[i] == ns[p[i]]);
    }
}

/// Reads the VPNGate catalog: the lines that count (not blank, no `*` comment) go to the
/// CSV reader, the first without its `#`; the first `max_nodes` records are read, and the
/// nodes they describe come out sorted (positive pings first, ascending ping, then
/// descending score; equal keys in catalog order).
pub fn parse_catalog_csv(text: &str, max_nodes: usize) -> (r: Result<Vec<Node>, CatalogError>)
    ensures
        match catalog_nodes(text@, max_nodes as nat) {
            Err(f) => r matches Err(e) && e.fault() == f,
            Ok(ns) => r matches Ok(v) && is_stable_sort_of(nodes_view(v@), ns),
        },
{
    let csv_text = match catalog_csv_text(text) {
        Some(t) => t,
        None => return Err(CatalogError::EmptyCatalog),
    };
    let (header, records) = read_csv(csv_text.as_str());
    nodes_from_table(header, records, max_nodes)
}

} // verus!
