//! The decisions of the control API: who may use it, which node the automatic connection
//! takes, and what a refresh, a node test or a log line changes.
use vstd::prelude::*;

use crate::catalog::{key_lt, node_key_lt};
use crate::model::{
    nodes_view, GatewaySettings, LogEntry, Node, NodeStatus, NodeTestResult, NodeView,
    RouteMode, RuntimeStatus,
};
use crate::text::{
    chars_eq_ignore_case, chars_of, eq_ignore_case, lemma_eq_ignore_case_letters, owned,
    push_decimal, same_ascii_letters,
    push_str, starts_with, str_starts_with, string_from_chars,
};

verus! {

// ---------------------------------------------------------------------------
// Access
// ---------------------------------------------------------------------------

/// The token a request presents: the `Authorization` value after `Bearer `, or else the
/// `x-vgl-token` value.
pub open spec fn presented_token(authorization: Option<Seq<char>>, x_token: Option<Seq<char>>) -> Option<Seq<char>> {
    match authorization {
        Some(a) => if starts_with(a, "Bearer "@) {
            Some(a.skip("Bearer "@.len() as int))
        } else {
            x_token
        },
        None => x_token,
    }
}

pub open spec fn opt_str(o: Option<&str>) -> Option<Seq<char>> {
    match o {
        Some(s) => Some(s@),
        None => None,
    }
}

/// Whether a request may use the control API: always when no token is configured,
/// otherwise when it presents exactly that token. The header values are those that are
/// valid visible ASCII.
pub fn authorize(api_token: Option<&str>, authorization: Option<&str>, x_token: Option<&str>) -> (r: bool)
    ensures
        r == match opt_str(api_token) {
            None => true,
            Some(t) => presented_token(opt_str(authorization), opt_str(x_token)) == Some(t),
        },
{
    let expected = match api_token {
        None => return true,
        Some(t) => t,
    };
    let presented: Option<Vec<char>> = match authorization {
        Some(a) if str_starts_with(a, "Bearer ") => {
            let v = chars_of(a);
            let p = chars_of("Bearer ");
            Some(crate::text::copy_range(&v, p.len(), v.len()))
        },
        _ => match x_token {
            Some(x) => Some(chars_of(x)),
            None => None,
        },
    };
    match presented {
        Some(p) => {
            let e = chars_of(expected);
            proof {
                if let Some(a) = authorization {
                    assert(a@.subrange("Bearer "@.len() as int, a@.len() as int) =~= a@.skip("Bearer "@.len() as int));
                }
            }
            crate::text::seq_equal(p.as_slice(), e.as_slice())
        },
        None => false,
    }
}

/// A request that carries `Authorization: Bearer <token>` is let in, whatever else it
/// carries.
pub proof fn law_bearer_token_accepted(token: Seq<char>, x_token: Option<Seq<char>>)
    ensures
        presented_token(Some("Bearer "@ + token), x_token) == Some(token),
{
    let a = "Bearer "@ + token;
    assert(a.take("Bearer "@.len() as int) =~= "Bearer "@);
    assert(a.skip("Bearer "@.len() as int) =~= token);
}

/// A request without an `Authorization` header that carries `x-vgl-token: <token>` is let in.
pub proof fn law_x_token_accepted(token: Seq<char>)
    ensures
        presented_token(None, Some(token)) == Some(token),
{
}


// ---------------------------------------------------------------------------
// The automatic choice of a node
// ---------------------------------------------------------------------------

pub open spec fn usable(n: NodeView) -> bool {
    n.status != NodeStatus::Failed
}

pub open spec fn is_favorite(s: &GatewaySettings, n: NodeView) -> bool {
    s.favorite_node_ids.has(n.id)
}

/// Some usable node is a favorite.
pub open spec fn any_usable_favorite(s: &GatewaySettings, ns: Seq<NodeView>) -> bool {
    exists|i: int| 0 <= i < ns.len() && usable(#[trigger] ns[i]) && is_favorite(s, ns[i])
}

/// Whether the settings let the automatic connection take `n`: never a failed node; in
/// `FixedCountry` mode one whose country code or name is the configured country, in any
/// case (any node when none is configured); in `FixedNode` mode the configured node; in
/// `Favorites` mode a favorite, or any node when no usable favorite is there and the
/// settings allow falling back.
pub open spec fn is_candidate(s: &GatewaySettings, ns: Seq<NodeView>, n: NodeView) -> bool {
    usable(n) && match s.route_mode {
        RouteMode::Auto => true,
        RouteMode::FixedCountry => s.country@.len() == 0 || eq_ignore_case(n.country_short, s.country@)
            || eq_ignore_case(n.country, s.country@),
        RouteMode::FixedNode => n.id == s.fixed_node_id@,
        RouteMode::Favorites => if any_usable_favorite(s, ns) || !s.fallback_to_any {
            is_favorite(s, n)
        } else {
            true
        },
    }
}

/// Node `i` is the one chosen: a candidate with the least key, the first of those.
pub open spec fn is_best(s: &GatewaySettings, ns: Seq<NodeView>, i: int) -> bool {
    &&& 0 <= i < ns.len()
    &&& is_candidate(s, ns, ns[i])
    &&& forall|j: int| 0 <= j < ns.len() && is_candidate(s, ns, #[trigger] ns[j]) ==> !key_lt(ns[j], ns[i])
    &&& forall|j: int| 0 <= j < i && is_candidate(s, ns, #[trigger] ns[j]) ==> key_lt(ns[i], ns[j])
}

/// The chosen node is never one that failed, and it is the configured node in
/// `FixedNode` mode and a node of the configured country in `FixedCountry` mode.
pub proof fn law_choice_follows_settings(s: &GatewaySettings, ns: Seq<NodeView>, i: int)
    requires
        is_best(s, ns, i),
    ensures
        ns[i].status != NodeStatus::Failed,
        s.route_mode == RouteMode::FixedNode ==> ns[i].id == s.fixed_node_id@,
        s.route_mode == RouteMode::FixedCountry && s.country@.len() > 0 ==> eq_ignore_case(ns[i].country_short, s.country@)
            || eq_ignore_case(ns[i].country, s.country@),
        s.route_mode == RouteMode::Favorites && !s.fallback_to_any ==> s.favorite_node_ids.has(ns[i].id),
{
}

/// In `FixedCountry` mode a node that has not failed, and whose country code or country
/// name spells the configured country letter by letter up to ASCII case, can be taken.
pub proof fn law_country_match_is_candidate(s: &GatewaySettings, ns: Seq<NodeView>, k: int)
    requires
        s.route_mode == RouteMode::FixedCountry,
        0 <= k < ns.len(),
        ns[k].status != NodeStatus::Failed,
        same_ascii_letters(ns[k].country_short, s.country@) || same_ascii_letters(ns[k].country, s.country@),
    ensures
        is_candidate(s, ns, ns[k]),
{
    lemma_eq_ignore_case_letters(ns[k].country_short, s.country@);
    lemma_eq_ignore_case_letters(ns[k].country, s.country@);
}

fn candidate(settings: &GatewaySettings, node: &Node, any_fav: bool, ns: Ghost<Seq<NodeView>>) -> (r: bool)
    requires
        any_fav == any_usable_favorite(settings, ns@),
    ensures
        r == is_candidate(settings, ns@, node@),
{
    if node.status == NodeStatus::Failed {
        return false;
    }
    match settings.route_mode {
        RouteMode::Auto => true,
        RouteMode::FixedCountry => {
            if settings.country.as_str().is_empty() {
                return true;
            }
            let c = chars_of(settings.country.as_str());
            let cs = chars_of(node.country_short.as_str());
            let cl = chars_of(node.country.as_str());
            chars_eq_ignore_case(cs.as_slice(), c.as_slice()) || chars_eq_ignore_case(cl.as_slice(), c.as_slice())
        },
        RouteMode::FixedNode => node.id == settings.fixed_node_id,
        RouteMode::Favorites => {
            if any_fav || !settings.fallback_to_any {
                settings.favorite_node_ids.contains(node.id.as_str())
            } else {
                true
            }
        },
    }
}

/// The node the automatic connection takes: none when connections are off or no node is a
/// candidate; otherwise the candidate with the least key `(ping <= 0, ping, -score)`, the
/// first in list order among equals.
pub fn select_node(settings: &GatewaySettings, nodes: &Vec<Node>) -> (r: Option<String>)
    ensures
        !settings.connection_enabled ==> r is None,
        settings.connection_enabled && r is None ==> forall|i: int|
            0 <= i < nodes@.len() ==> !is_candidate(settings, nodes_view(nodes@), #[trigger] nodes_view(nodes@)[i]),
        r matches Some(id) ==> exists|i: int|
            is_best(settings, nodes_view(nodes@), i) && id@ == #[trigger] nodes_view(nodes@)[i].id,
        settings.connection_enabled && settings.route_mode == RouteMode::FixedCountry && (exists|k: int|
            0 <= k < nodes@.len() && #[trigger] nodes_view(nodes@)[k].status != NodeStatus::Failed
                && (same_ascii_letters(nodes_view(nodes@)[k].country_short, settings.country@)
                || same_ascii_letters(nodes_view(nodes@)[k].country, settings.country@))) ==> r is Some,
{
    if !settings.connection_enabled {
        return None;
    }
    let ghost ns = nodes_view(nodes@);
    let mut any_fav = false;
    let mut k: usize = 0;
    while k < nodes.len()
        invariant
            k <= nodes@.len(),
            ns == nodes_view(nodes@),
            any_fav == exists|i: int| 0 <= i < k && usable(#[trigger] ns[i]) && is_favorite(settings, ns[i]),
        decreases nodes@.len() - k,
    {
        assert(ns[k as int] == nodes@[k as int]@);
        if nodes[k].status != NodeStatus::Failed && settings.favorite_node_ids.contains(nodes[k].id.as_str()) {
            assert(usable(ns[k as int]) && is_favorite(settings, ns[k as int]));
            any_fav = true;
        } else {
            assert(!(usable(ns[k as int]) && is_favorite(settings, ns[k as int])));
        }
        k += 1;
    }
    let mut best: Option<usize> = None;
    let mut i: usize = 0;
    while i < nodes.len()
        invariant
            i <= nodes@.len(),
            ns == nodes_view(nodes@),
            any_fav == any_usable_favorite(settings, ns),
            match best {
                None => forall|j: int| 0 <= j < i ==> !is_candidate(settings, ns, #[trigger] ns[j]),
                Some(b) => b < i && is_candidate(settings, ns, ns[b as int])
                    && (forall|j: int| 0 <= j < i && is_candidate(settings, ns, #[trigger] ns[j]) ==> !key_lt(ns[j], ns[b as int]))
                    && (forall|j: int| 0 <= j < b && is_candidate(settings, ns, #[trigger] ns[j]) ==> key_lt(ns[b as int], ns[j])),
            },
        decreases nodes@.len() - i,
    {
        if candidate(settings, &nodes[i], any_fav, Ghost(ns)) {
            match best {
                None => {
                    best = Some(i);
                },
                Some(b) => {
                    if node_key_lt(&nodes[i], &nodes[b]) {
                        best = Some(i);
                    }
                },
            }
        }
        i += 1;
    }
    if best.is_none() {
        assert forall|j: int| 0 <= j < nodes@.len() implies !is_candidate(settings, nodes_view(nodes@), #[trigger] nodes_view(nodes@)[j]) by {
            assert(!is_candidate(settings, ns, ns[j]));
        }
        if settings.route_mode == RouteMode::FixedCountry {
            assert forall|k: int| 0 <= k < nodes@.len() && #[trigger] ns[k].status != NodeStatus::Failed
                implies !(same_ascii_letters(ns[k].country_short, settings.country@)
                || same_ascii_letters(ns[k].country, settings.country@)) by {
                if same_ascii_letters(ns[k].country_short, settings.country@)
                    || same_ascii_letters(ns[k].country, settings.country@) {
                    law_country_match_is_candidate(settings, ns, k);
                }
            }
        }
        return None;
    }
    let b = best.unwrap();
    let id = nodes[b].id.clone();
    assert(is_best(settings, ns, b as int) && id@ == ns[b as int].id);
    Some(id)
}


// ---------------------------------------------------------------------------
// Node lookup and updates
// ---------------------------------------------------------------------------

/// The position of the first node with the given id.
pub open spec fn index_of_id(ns: Seq<NodeView>, id: Seq<char>) -> Option<nat>
    decreases ns.len(),
{
    if ns.len() == 0 {
        None
    } else if ns[0].id == id {
        Some(0)
    } else {
        match index_of_id(ns.drop_first(), id) {
            Some(i) => Some(i + 1),
            None => None,
        }
    }
}

pub proof fn lemma_index_of_id(ns: Seq<NodeView>, id: Seq<char>)
    ensures
        match index_of_id(ns, id) {
            Some(i) => i < ns.len() && ns[i as int].id == id && forall|j: int| 0 <= j < i ==> #[trigger] ns[j].id != id,
            None => forall|j: int| 0 <= j < ns.len() ==> #[trigger] ns[j].id != id,
        },
    decreases ns.len(),
{
    if ns.len() > 0 && ns[0].id != id {
        lemma_index_of_id(ns.drop_first(), id);
        assert forall|j: int| 1 <= j < ns.len() implies ns[j] == ns.drop_first()[j - 1] by {}
    }
}

/// The position of the first node with the given id.
pub fn find_node(nodes: &Vec<Node>, id: &str) -> (r: Option<usize>)
    ensures
        r matches Some(k) ==> index_of_id(nodes_view(nodes@), id@) == Some(k as nat) && k < nodes@.len(),
        r is None ==> index_of_id(nodes_view(nodes@), id@) is None,
{
    let ghost ns = nodes_view(nodes@);
    proof {
        lemma_index_of_id(ns, id@);
    }
    let mut i: usize = 0;
    while i < nodes.len()
        invariant
            i <= nodes@.len(),
            ns == nodes_view(nodes@),
            forall|j: int| 0 <= j < i ==> #[trigger] ns[j].id != id@,
        decreases nodes@.len() - i,
    {
        assert(ns[i as int] == nodes@[i as int]@);
        if crate::text::str_equal(nodes[i].id.as_str(), id) {
            proof {
                lemma_index_of_id(ns, id@);
                match index_of_id(ns, id@) {
                    Some(k) => {
                        if k < i {
                            assert(ns[k as int].id != id@);
                        } else if k > i {
                            assert(ns[i as int].id != id@);
                        }
                    },
                    None => {
                        assert(ns[i as int].id != id@);
                    },
                }
            }
            return Some(i);
        }
        i += 1;
    }
    proof {
        lemma_index_of_id(ns, id@);
        match index_of_id(ns, id@) {
            Some(k) => {
                assert(ns[k as int].id != id@);
            },
            None => {},
        }
    }
    None
}

pub open spec fn with_status(n: NodeView, status: NodeStatus) -> NodeView {
    NodeView { status: status, ..n }
}

/// After a refresh, the favorites among the fresh nodes count as available.
pub fn mark_favorites_available(nodes: &mut Vec<Node>, settings: &GatewaySettings)
    ensures
        final(nodes)@.len() == old(nodes)@.len(),
        forall|i: int|
            0 <= i < old(nodes)@.len() ==> #[trigger] final(nodes)@[i]@ == if settings.favorite_node_ids.has(old(nodes)@[i]@.id) {
                with_status(old(nodes)@[i]@, NodeStatus::Available)
            } else {
                old(nodes)@[i]@
            },
{
    let mut i: usize = 0;
    while i < nodes.len()
        invariant
            i <= nodes@.len(),
            nodes@.len() == old(nodes)@.len(),
            forall|j: int|
                0 <= j < i ==> #[trigger] nodes@[j]@ == if settings.favorite_node_ids.has(old(nodes)@[j]@.id) {
                    with_status(old(nodes)@[j]@, NodeStatus::Available)
                } else {
                    old(nodes)@[j]@
                },
            forall|j: int| i <= j < nodes@.len() ==> #[trigger] nodes@[j] == old(nodes)@[j],
        decreases nodes@.len() - i,
    {
        if settings.favorite_node_ids.contains(nodes[i].id.as_str()) {
            nodes[i].status = NodeStatus::Available;
        }
        i += 1;
    }
}

/// "`prefix` `n` `suffix`".
pub open spec fn framed_number(prefix: Seq<char>, n: nat, suffix: Seq<char>) -> Seq<char> {
    prefix + crate::text::dec(n) + suffix
}

fn framed_number_string(prefix: &str, n: u64, suffix: &str) -> (r: String)
    ensures
        r@ == framed_number(prefix@, n as nat, suffix@),
{
    let mut v = chars_of(prefix);
    push_decimal(&mut v, n);
    push_str(&mut v, suffix);
    string_from_chars(v.as_slice())
}

/// The runtime status after a refresh that found `count` nodes at time `now`; the message
/// it records ("refreshed N routes") is returned for the log too.
pub fn record_refresh(runtime: &mut RuntimeStatus, count: usize, now: i64) -> (msg: String)
    ensures
        msg@ == framed_number("refreshed "@, count as nat, " routes"@),
        final(runtime).node_count == count,
        final(runtime).last_refresh_at == Some(now),
        final(runtime).last_message@ == msg@,
        final(runtime).active_node_id == old(runtime).active_node_id,
        final(runtime).connecting == old(runtime).connecting,
        final(runtime).relay_addr == old(runtime).relay_addr,
        final(runtime).control_addr == old(runtime).control_addr,
        final(runtime).auth_enabled == old(runtime).auth_enabled,
{
    let msg = framed_number_string("refreshed ", count as u64, " routes");
    runtime.node_count = count;
    runtime.last_refresh_at = Some(now);
    runtime.last_message = msg.clone();
    msg
}

// ---------------------------------------------------------------------------
// Node tests
// ---------------------------------------------------------------------------

/// How a TCP connection attempt to a node ended.
#[derive(Debug)]
pub enum TcpProbe {
    Connected { latency_ms: u128 },
    Refused { message: String },
    TimedOut,
}

/// The result of testing node `id`: reachable with its latency, or not, with the reason.
pub fn test_result(id: &str, probe: TcpProbe) -> (r: NodeTestResult)
    ensures
        r.id@ == id@,
        match probe {
            TcpProbe::Connected { latency_ms } => r.ok && r.latency_ms == Some(latency_ms)
                && r.message@ == "tcp reachable"@,
            TcpProbe::Refused { message } => !r.ok && r.latency_ms is None && r.message@ == message@,
            TcpProbe::TimedOut => !r.ok && r.latency_ms is None && r.message@ == "tcp timeout"@,
        },
{
    match probe {
        TcpProbe::Connected { latency_ms } => NodeTestResult {
            id: owned(id),
            ok: true,
            latency_ms: Some(latency_ms),
            message: owned("tcp reachable"),
        },
        TcpProbe::Refused { message } => NodeTestResult {
            id: owned(id),
            ok: false,
            latency_ms: None,
            message,
        },
        TcpProbe::TimedOut => NodeTestResult {
            id: owned(id),
            ok: false,
            latency_ms: None,
            message: owned("tcp timeout"),
        },
    }
}

/// What a test result makes of the node it tested: its latency, and available with no
/// error, or failed with the test's message.
pub open spec fn tested(n: NodeView, r: &NodeTestResult) -> NodeView {
    NodeView {
        latency_ms: r.latency_ms,
        status: if r.ok { NodeStatus::Available } else { NodeStatus::Failed },
        last_error: if r.ok { None } else { Some(r.message@) },
        ..n
    }
}

/// `after` is `before` with the test result recorded on the first node with the tested id.
pub open spec fn records_test(before: Seq<NodeView>, after: Seq<NodeView>, r: &NodeTestResult) -> bool {
    &&& after.len() == before.len()
    &&& match index_of_id(before, r.id@) {
        Some(k) => forall|j: int|
            0 <= j < before.len() ==> #[trigger] after[j] == if j == k { tested(before[j], r) } else { before[j] },
        None => forall|j: int| 0 <= j < before.len() ==> #[trigger] after[j] == before[j],
    }
}

/// After a test result is recorded, the first node with the tested id carries the
/// result's latency (none for a failed test) whatever it had before, is available with no
/// error when the test passed and failed with the test's message when it did not, and keeps
/// everything else; every other node is unchanged.
pub proof fn law_test_result_recorded(before: Seq<NodeView>, after: Seq<NodeView>, r: &NodeTestResult, k: int)
    requires
        records_test(before, after, r),
        0 <= k < before.len(),
        before[k].id == r.id@,
        forall|j: int| 0 <= j < k ==> #[trigger] before[j].id != r.id@,
    ensures
        after[k].latency_ms == r.latency_ms,
        after[k].status == (if r.ok { NodeStatus::Available } else { NodeStatus::Failed }),
        after[k].last_error == (if r.ok { None } else { Some(r.message@) }),
        after[k].id == before[k].id && after[k].ping == before[k].ping && after[k].score == before[k].score
            && after[k].config_text == before[k].config_text && after[k].remote_host == before[k].remote_host
            && after[k].remote_port == before[k].remote_port,
        forall|j: int| 0 <= j < before.len() && j != k ==> #[trigger] after[j] == before[j],
{
    lemma_index_of_id(before, r.id@);
    let i = index_of_id(before, r.id@)->0 as int;
    assert(i == k);
    assert(after[k] == tested(before[k], r));
}

/// Records a test result on the first node with the tested id; the other nodes are
/// unchanged.
pub fn apply_test_result(nodes: &mut Vec<Node>, result: &NodeTestResult)
    ensures
        records_test(nodes_view(old(nodes)@), nodes_view(final(nodes)@), result),
        final(nodes)@.len() == old(nodes)@.len(),
        match index_of_id(nodes_view(old(nodes)@), result.id@) {
            Some(k) => forall|j: int|
                0 <= j < old(nodes)@.len() ==> #[trigger] final(nodes)@[j]@ == if j == k {
                    tested(old(nodes)@[j]@, result)
                } else {
                    old(nodes)@[j]@
                },
            None => forall|j: int| 0 <= j < old(nodes)@.len() ==> #[trigger] final(nodes)@[j]@ == old(nodes)@[j]@,
        },
{
    proof {
        lemma_index_of_id(nodes_view(nodes@), result.id@);
    }
    match find_node(nodes, result.id.as_str()) {
        Some(k) => {
            nodes[k].latency_ms = result.latency_ms;
            nodes[k].status = if result.ok {
                NodeStatus::Available
            } else {
                NodeStatus::Failed
            };
            nodes[k].last_error = if result.ok {
                None
            } else {
                Some(result.message.clone())
            };
        },
        None => {},
    }
    assert(nodes_view(nodes@).len() == nodes_view(old(nodes)@).len());
    assert forall|j: int| 0 <= j < old(nodes)@.len() implies #[trigger] nodes_view(nodes@)[j] == nodes@[j]@
        && nodes_view(old(nodes)@)[j] == old(nodes)@[j]@ by {}
}

/// The level and line that the log records for a test result.
pub fn test_log_line(result: &NodeTestResult) -> (r: (String, String))
    ensures
        r.0@ == if result.ok { "INFO"@ } else { "WARNING"@ },
        r.1@ == result.id@ + ": "@ + result.message@,
{
    let level = if result.ok {
        owned("INFO")
    } else {
        owned("WARNING")
    };
    let mut v = chars_of(result.id.as_str());
    push_str(&mut v, ": ");
    push_str(&mut v, result.message.as_str());
    (level, string_from_chars(v.as_slice()))
}

/// The most nodes a batch test takes.
pub const MAX_BATCH_TESTS: usize = 200;

/// How many of the requested ids a batch test takes: the first 200.
pub fn batch_size(requested: usize) -> (r: usize)
    ensures
        r == if requested < MAX_BATCH_TESTS { requested } else { MAX_BATCH_TESTS },
{
    if requested < MAX_BATCH_TESTS {
        requested
    } else {
        MAX_BATCH_TESTS
    }
}

pub open spec fn count_ok(rs: Seq<NodeTestResult>) -> nat
    decreases rs.len(),
{
    if rs.len() == 0 {
        0
    } else {
        count_ok(rs.drop_last()) + if rs.last().ok { 1nat } else { 0nat }
    }
}

/// How many of the tested nodes were reachable.
pub fn count_available(results: &Vec<NodeTestResult>) -> (r: usize)
    ensures
        r == count_ok(results@),
{
    let mut n: usize = 0;
    let mut i: usize = 0;
    assert(results@.take(0) =~= Seq::<NodeTestResult>::empty());
    while i < results.len()
        invariant
            i <= results@.len(),
            n == count_ok(results@.take(i as int)),
            n <= i,
        decreases results@.len() - i,
    {
        assert(results@.take(i + 1).drop_last() =~= results@.take(i as int));
        if results[i].ok {
            n += 1;
        }
        i += 1;
    }
    assert(results@.take(i as int) =~= results@);
    n
}

// ---------------------------------------------------------------------------
// The service log
// ---------------------------------------------------------------------------

/// The most entries the service log keeps.
pub const MAX_LOG_ENTRIES: usize = 1000;

/// The log after `entry` is added: the newest 1000 entries.
pub open spec fn logged(logs: Seq<LogEntry>, entry: LogEntry) -> Seq<LogEntry> {
    let all = logs.push(entry);
    if all.len() > MAX_LOG_ENTRIES {
        all.skip(all.len() - MAX_LOG_ENTRIES)
    } else {
        all
    }
}

/// Adds an entry to the service log, dropping the oldest beyond 1000: the log never holds
/// more than 1000 entries, and the newest is last.
pub fn push_log(logs: &mut Vec<LogEntry>, entry: LogEntry)
    requires
        old(logs)@.len() < usize::MAX,
    ensures
        final(logs)@ == logged(old(logs)@, entry),
        final(logs)@.len() <= MAX_LOG_ENTRIES,
        final(logs)@.last() == entry,
{
    logs.push(entry);
    let ghost all = logs@;
    if logs.len() > MAX_LOG_ENTRIES {
        let extra = logs.len() - MAX_LOG_ENTRIES;
        let mut k: usize = 0;
        while k < extra
            invariant
                k <= extra,
                extra == all.len() - MAX_LOG_ENTRIES,
                logs@ == all.skip(k as int),
            decreases extra - k,
        {
            logs.remove(0);
            assert(all.skip(k as int).drop_first() =~= all.skip(k + 1));
            k += 1;
        }
    }
}

/// The log line for a message of a module at a level, at time `ts`.
pub fn log_entry(ts: i64, level: &str, module: &str, message: String) -> (r: LogEntry)
    ensures
        r@ == (ts, level@, module@, message@),
{
    LogEntry { ts, level: owned(level), module: owned(module), message }
}

} // verus!
