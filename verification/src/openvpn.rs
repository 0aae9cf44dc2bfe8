//! The OpenVPN session: what its output lines mean, how nodes and the runtime status move
//! through a connection, and the commands that route the relay's traffic into the tunnel.
use vstd::prelude::*;

use crate::control::{index_of_id, lemma_index_of_id};
use crate::model::{nodes_view, Node, NodeStatus, NodeView, RuntimeStatus};
use crate::text::{
    chars_of, contains, contains_at_any, dec, lower_seq, lowercase, owned, push_decimal, push_str,
    string_from_chars,
};

verus! {

// ---------------------------------------------------------------------------
// OpenVPN output
// ---------------------------------------------------------------------------

/// What a line of OpenVPN output says about the connection.
#[derive(Clone, Copy, Debug, PartialEq, Eq, Structural)]
pub enum OpenVpnLine {
    /// The tunnel is up.
    Ready,
    /// The connection failed for good.
    Fatal,
    /// Nothing decisive.
    Other,
}

/// Markers of a connection that failed for good.
pub open spec fn is_fatal_text(lower: Seq<char>) -> bool {
    ||| contains(lower, "auth_failed"@)
    ||| contains(lower, "authentication failed"@)
    ||| contains(lower, "cannot open tun"@)
    ||| contains(lower, "cannot allocate tun"@)
    ||| contains(lower, "fatal error"@)
}

/// The meaning of a line, read without regard to ASCII case: the end of the initialization
/// sequence means ready, the failure markers mean fatal.
pub open spec fn line_meaning(line: Seq<char>) -> OpenVpnLine {
    let lower = lower_seq(line);
    if contains(lower, "initialization sequence completed"@) {
        OpenVpnLine::Ready
    } else if is_fatal_text(lower) {
        OpenVpnLine::Fatal
    } else {
        OpenVpnLine::Other
    }
}

fn contains_str(v: &Vec<char>, p: &str) -> (r: bool)
    ensures
        r == contains(v@, p@),
{
    let pv = chars_of(p);
    contains_at_any(v.as_slice(), pv.as_slice())
}

/// What a line of OpenVPN output means for the connection being set up.
pub fn classify_openvpn_line(line: &str) -> (r: OpenVpnLine)
    ensures
        r == line_meaning(line@),
{
    let v = chars_of(line);
    let lower = lowercase(v.as_slice());
    if contains_str(&lower, "initialization sequence completed") {
        OpenVpnLine::Ready
    } else if contains_str(&lower, "auth_failed") || contains_str(&lower, "authentication failed")
        || contains_str(&lower, "cannot open tun") || contains_str(&lower, "cannot allocate tun")
        || contains_str(&lower, "fatal error") {
        OpenVpnLine::Fatal
    } else {
        OpenVpnLine::Other
    }
}

/// The error a fatal line makes: `openvpn failed: <line>`.
pub fn failure_message(line: &str) -> (r: String)
    ensures
        r@ == "openvpn failed: "@ + line@,
{
    let mut v = chars_of("openvpn failed: ");
    push_str(&mut v, line);
    string_from_chars(v.as_slice())
}

/// The error when OpenVPN does not come up in time: `openvpn timeout after <secs>s`.
pub fn timeout_message(secs: u64) -> (r: String)
    ensures
        r@ == "openvpn timeout after "@ + dec(secs as nat) + "s"@,
{
    let mut v = chars_of("openvpn timeout after ");
    push_decimal(&mut v, secs);
    push_str(&mut v, "s");
    string_from_chars(v.as_slice())
}

/// Why a connection attempt ended before OpenVPN said anything decisive.
#[derive(Clone, Copy, Debug, PartialEq, Eq, Structural)]
pub enum ConnectFailure {
    /// No node has the requested id.
    NodeMissing,
    /// OpenVPN's output could not be read.
    NoOutput,
    /// OpenVPN ended before the tunnel came up.
    ExitedEarly,
}

/// The error text of such an end: `node not found: <id>`, `openvpn stdout not captured`,
/// `openvpn exited before initialization`.
pub open spec fn connect_failure_text(failure: ConnectFailure, node_id: Seq<char>) -> Seq<char> {
    match failure {
        ConnectFailure::NodeMissing => "node not found: "@ + node_id,
        ConnectFailure::NoOutput => "openvpn stdout not captured"@,
        ConnectFailure::ExitedEarly => "openvpn exited before initialization"@,
    }
}

/// The error text of a connection attempt to `node_id` that ended with `failure`.
pub fn connect_failure_message(failure: ConnectFailure, node_id: &str) -> (r: String)
    ensures
        r@ == connect_failure_text(failure, node_id@),
{
    match failure {
        ConnectFailure::NodeMissing => prefixed("node not found: ", node_id),
        ConnectFailure::NoOutput => owned("openvpn stdout not captured"),
        ConnectFailure::ExitedEarly => owned("openvpn exited before initialization"),
    }
}

/// What happened while waiting for OpenVPN to bring the tunnel up.
#[derive(Debug)]
pub enum ConnectEvent {
    /// OpenVPN printed a line.
    Line(String),
    /// OpenVPN's output ended.
    OutputEnded,
    /// The deadline passed.
    TimedOut,
}

/// What the connection attempt does next.
#[derive(Debug)]
pub enum ConnectAction {
    /// Read on.
    KeepWaiting,
    /// The tunnel is up: the node becomes active.
    Connected,
    /// The attempt failed with this message: the node is marked failed.
    Failed(String),
}

/// The step of a connection attempt to `node_id` with a deadline of `timeout_secs` seconds:
/// a ready line connects, a fatal line fails with `openvpn failed: <line>`, any other line
/// reads on, the end of the output fails with `openvpn exited before initialization`, and
/// the deadline fails with `openvpn timeout after <secs>s`.
pub fn connect_step(event: ConnectEvent, node_id: &str, timeout_secs: u64) -> (a: ConnectAction)
    ensures
        match event {
            ConnectEvent::Line(line) => match line_meaning(line@) {
                OpenVpnLine::Ready => a is Connected,
                OpenVpnLine::Fatal => a matches ConnectAction::Failed(m) && m@ == "openvpn failed: "@ + line@,
                OpenVpnLine::Other => a is KeepWaiting,
            },
            ConnectEvent::OutputEnded => a matches ConnectAction::Failed(m)
                && m@ == connect_failure_text(ConnectFailure::ExitedEarly, node_id@),
            ConnectEvent::TimedOut => a matches ConnectAction::Failed(m)
                && m@ == "openvpn timeout after "@ + dec(timeout_secs as nat) + "s"@,
        },
{
    match event {
        ConnectEvent::Line(line) => match classify_openvpn_line(line.as_str()) {
            OpenVpnLine::Ready => ConnectAction::Connected,
            OpenVpnLine::Fatal => ConnectAction::Failed(failure_message(line.as_str())),
            OpenVpnLine::Other => ConnectAction::KeepWaiting,
        },
        ConnectEvent::OutputEnded => ConnectAction::Failed(
            connect_failure_message(ConnectFailure::ExitedEarly, node_id),
        ),
        ConnectEvent::TimedOut => ConnectAction::Failed(timeout_message(timeout_secs)),
    }
}

/// "`prefix``id`".
fn prefixed(prefix: &str, id: &str) -> (r: String)
    ensures
        r@ == prefix@ + id@,
{
    let mut v = chars_of(prefix);
    push_str(&mut v, id);
    string_from_chars(v.as_slice())
}

/// The name of the file that holds a node's configuration: `<id>.conf`.
pub fn config_file_name(node_id: &str) -> (r: String)
    ensures
        r@ == node_id@ + ".conf"@,
{
    let mut v = chars_of(node_id);
    push_str(&mut v, ".conf");
    string_from_chars(v.as_slice())
}

// ---------------------------------------------------------------------------
// The connection lifecycle
// ---------------------------------------------------------------------------

/// A connection to `node_id` begins; the message is returned for the log too.
pub fn begin_connect(runtime: &mut RuntimeStatus, node_id: &str) -> (msg: String)
    ensures
        msg@ == "connecting "@ + node_id@,
        final(runtime).connecting,
        final(runtime).last_message@ == msg@,
        final(runtime).active_node_id == old(runtime).active_node_id,
        final(runtime).same_setup(&*old(runtime)),
{
    let msg = prefixed("connecting ", node_id);
    runtime.connecting = true;
    runtime.last_message = msg.clone();
    msg
}

/// The node came up: it is active, without error, and any other active node is back to new.
pub open spec fn activated(n: NodeView, id: Seq<char>) -> NodeView {
    if n.id == id {
        NodeView { status: NodeStatus::Active, last_error: None, ..n }
    } else if n.status == NodeStatus::Active {
        NodeView { status: NodeStatus::New, ..n }
    } else {
        n
    }
}

/// `after` is `before` with the nodes of `id` activated.
pub open spec fn marks_active(before: Seq<NodeView>, after: Seq<NodeView>, id: Seq<char>) -> bool {
    &&& after.len() == before.len()
    &&& forall|i: int| 0 <= i < before.len() ==> #[trigger] after[i] == activated(before[i], id)
}

/// Marks the node with `node_id` active and every other active node new.
pub fn mark_active(nodes: &mut Vec<Node>, node_id: &str)
    ensures
        final(nodes)@.len() == old(nodes)@.len(),
        forall|i: int| 0 <= i < old(nodes)@.len() ==> #[trigger] final(nodes)@[i]@ == activated(old(nodes)@[i]@, node_id@),
        marks_active(nodes_view(old(nodes)@), nodes_view(final(nodes)@), node_id@),
{
    let mut i: usize = 0;
    while i < nodes.len()
        invariant
            i <= nodes@.len(),
            nodes@.len() == old(nodes)@.len(),
            forall|j: int| 0 <= j < i ==> #[trigger] nodes@[j]@ == activated(old(nodes)@[j]@, node_id@),
            forall|j: int| i <= j < nodes@.len() ==> #[trigger] nodes@[j] == old(nodes)@[j],
        decreases nodes@.len() - i,
    {
        if crate::text::str_equal(nodes[i].id.as_str(), node_id) {
            nodes[i].status = NodeStatus::Active;
            nodes[i].last_error = None;
        } else if nodes[i].status == NodeStatus::Active {
            nodes[i].status = NodeStatus::New;
        }
        i += 1;
    }
    assert forall|i: int| 0 <= i < old(nodes)@.len() implies #[trigger] nodes_view(nodes@)[i]
        == activated(nodes_view(old(nodes)@)[i], node_id@) by {
        assert(nodes@[i]@ == activated(old(nodes)@[i]@, node_id@));
    }
}

/// After a connection came up, the nodes with its id are the only active ones.
pub proof fn law_single_active_route(before: Seq<NodeView>, after: Seq<NodeView>, id: Seq<char>)
    requires
        after.len() == before.len(),
        forall|i: int| 0 <= i < before.len() ==> #[trigger] after[i] == activated(before[i], id),
    ensures
        forall|i: int| 0 <= i < after.len() ==> (#[trigger] after[i].status == NodeStatus::Active <==> after[i].id == id),
{
    assert forall|i: int| 0 <= i < after.len() implies (#[trigger] after[i].status == NodeStatus::Active <==> after[i].id == id) by {
        assert(after[i] == activated(before[i], id));
    }
}

/// The connection to `node_id` is up; the message is returned for the log and the caller.
pub fn finish_connect(runtime: &mut RuntimeStatus, node_id: &str) -> (msg: String)
    ensures
        msg@ == "connected "@ + node_id@,
        final(runtime).active_node_id matches Some(a) && a@ == node_id@,
        !final(runtime).connecting,
        final(runtime).last_message@ == msg@,
        final(runtime).same_setup(&*old(runtime)),
{
    let msg = prefixed("connected ", node_id);
    runtime.active_node_id = Some(owned(node_id));
    runtime.connecting = false;
    runtime.last_message = msg.clone();
    msg
}

/// What a failed connection makes of its node.
pub open spec fn failed_node(n: NodeView, message: Seq<char>) -> NodeView {
    NodeView { status: NodeStatus::Failed, last_error: Some(message), ..n }
}

/// `after` is `before` with the first node of `id`, if there is one, failed with `message`.
pub open spec fn marks_failed(before: Seq<NodeView>, after: Seq<NodeView>, id: Seq<char>, message: Seq<char>) -> bool {
    &&& after.len() == before.len()
    &&& match index_of_id(before, id) {
        Some(k) => forall|j: int|
            0 <= j < before.len() ==> #[trigger] after[j] == if j == k {
                failed_node(before[j], message)
            } else {
                before[j]
            },
        None => forall|j: int| 0 <= j < before.len() ==> #[trigger] after[j] == before[j],
    }
}

/// A connection to `node_id` failed with `message`: the first node with that id is failed
/// with the message as its error, and nothing is active or connecting any more.
pub fn mark_failed(nodes: &mut Vec<Node>, runtime: &mut RuntimeStatus, node_id: &str, message: String)
    ensures
        marks_failed(nodes_view(old(nodes)@), nodes_view(final(nodes)@), node_id@, message@),
        final(nodes)@.len() == old(nodes)@.len(),
        match index_of_id(nodes_view(old(nodes)@), node_id@) {
            Some(k) => forall|j: int|
                0 <= j < old(nodes)@.len() ==> #[trigger] final(nodes)@[j]@ == if j == k {
                    failed_node(old(nodes)@[j]@, message@)
                } else {
                    old(nodes)@[j]@
                },
            None => forall|j: int| 0 <= j < old(nodes)@.len() ==> #[trigger] final(nodes)@[j]@ == old(nodes)@[j]@,
        },
        !final(runtime).connecting,
        final(runtime).active_node_id is None,
        final(runtime).last_message@ == message@,
        final(runtime).same_setup(&*old(runtime)),
{
    proof {
        lemma_index_of_id(nodes_view(nodes@), node_id@);
    }
    match crate::control::find_node(nodes, node_id) {
        Some(k) => {
            nodes[k].status = NodeStatus::Failed;
            nodes[k].last_error = Some(message.clone());
        },
        None => {},
    }
    runtime.connecting = false;
    runtime.active_node_id = None;
    runtime.last_message = message;
}

/// What a disconnect makes of a node: an active one is new again.
pub open spec fn deactivated(n: NodeView) -> NodeView {
    if n.status == NodeStatus::Active {
        NodeView { status: NodeStatus::New, ..n }
    } else {
        n
    }
}

/// `after` is `before` with every active node new again.
pub open spec fn clears_active(before: Seq<NodeView>, after: Seq<NodeView>) -> bool {
    &&& after.len() == before.len()
    &&& forall|i: int| 0 <= i < before.len() ==> #[trigger] after[i] == deactivated(before[i])
}

/// Every active node is new again.
pub fn clear_active(nodes: &mut Vec<Node>)
    ensures
        clears_active(nodes_view(old(nodes)@), nodes_view(final(nodes)@)),
        final(nodes)@.len() == old(nodes)@.len(),
        forall|i: int| 0 <= i < old(nodes)@.len() ==> #[trigger] final(nodes)@[i]@ == deactivated(old(nodes)@[i]@),
        forall|i: int| 0 <= i < final(nodes)@.len() ==> #[trigger] final(nodes)@[i].status != NodeStatus::Active,
{
    let mut i: usize = 0;
    while i < nodes.len()
        invariant
            i <= nodes@.len(),
            nodes@.len() == old(nodes)@.len(),
            forall|j: int| 0 <= j < i ==> #[trigger] nodes@[j]@ == deactivated(old(nodes)@[j]@),
            forall|j: int| i <= j < nodes@.len() ==> #[trigger] nodes@[j] == old(nodes)@[j],
        decreases nodes@.len() - i,
    {
        if nodes[i].status == NodeStatus::Active {
            nodes[i].status = NodeStatus::New;
        }
        i += 1;
    }
    assert forall|i: int| 0 <= i < nodes@.len() implies #[trigger] nodes@[i].status != NodeStatus::Active by {
        assert(nodes@[i]@ == deactivated(old(nodes)@[i]@));
    }
    assert forall|i: int| 0 <= i < old(nodes)@.len() implies #[trigger] nodes_view(nodes@)[i]
        == deactivated(nodes_view(old(nodes)@)[i]) by {
        assert(nodes@[i]@ == deactivated(old(nodes)@[i]@));
    }
}

/// The session is stopped: nothing active or connecting.
pub fn finish_disconnect(runtime: &mut RuntimeStatus)
    ensures
        final(runtime).active_node_id is None,
        !final(runtime).connecting,
        final(runtime).last_message@ == "disconnected"@,
        final(runtime).same_setup(&*old(runtime)),
{
    runtime.active_node_id = None;
    runtime.connecting = false;
    runtime.last_message = owned("disconnected");
}

/// No two nodes share an id.
pub open spec fn ids_distinct(ns: Seq<NodeView>) -> bool {
    forall|i: int, j: int| 0 <= i < j < ns.len() ==> #[trigger] ns[i].id != #[trigger] ns[j].id
}

/// At most one node is active, and the runtime names no node or the active one.
pub open spec fn single_route(ns: Seq<NodeView>, active: Option<Seq<char>>) -> bool {
    &&& forall|i: int, j: int|
        0 <= i < j < ns.len() && #[trigger] ns[i].status == NodeStatus::Active
            ==> #[trigger] ns[j].status != NodeStatus::Active
    &&& active matches Some(a) ==> exists|k: int|
        0 <= k < ns.len() && #[trigger] ns[k].status == NodeStatus::Active && ns[k].id == a
}

/// A whole connection attempt to `id`: the running session is stopped (every active node
/// made new, nothing active or connecting), then either the node came up (it is activated
/// and the runtime names it) or the attempt failed (the node, when it was found, is failed
/// with `message`, and the runtime names nothing). With distinct ids, afterwards at most one
/// node is active and the runtime names it; a success leaves exactly the node of `id`
/// active, a failure leaves no node active.
#[verifier::rlimit(20)]
pub proof fn law_connect_attempt(
    before: Seq<NodeView>,
    stopped: Seq<NodeView>,
    after: Seq<NodeView>,
    id: Seq<char>,
    connected: bool,
    message: Seq<char>,
    active: Option<Seq<char>>,
    connecting: bool,
)
    requires
        ids_distinct(before),
        clears_active(before, stopped),
        connected ==> {
            &&& index_of_id(stopped, id) is Some
            &&& marks_active(stopped, after, id)
            &&& active == Some(id)
            &&& !connecting
        },
        !connected ==> {
            &&& after == stopped || marks_failed(stopped, after, id, message)
            &&& active is None
            &&& !connecting
        },
    ensures
        single_route(after, active),
        !connecting,
        connected ==> active == Some(id) && exists|k: int|
            0 <= k < after.len() && after[k].id == id && #[trigger] after[k].status == NodeStatus::Active
                && forall|j: int| 0 <= j < after.len() && j != k ==> #[trigger] after[j].status != NodeStatus::Active,
        !connected ==> active is None && forall|j: int| 0 <= j < after.len() ==> #[trigger] after[j].status != NodeStatus::Active,
{
    lemma_stopped(before, stopped);
    if connected {
        lemma_connected(before, stopped, after, id);
    } else {
        lemma_failed(stopped, after, id, message);
    }
}

/// A stopped session has no active node and keeps every id.
proof fn lemma_stopped(before: Seq<NodeView>, stopped: Seq<NodeView>)
    requires
        clears_active(before, stopped),
    ensures
        forall|i: int| 0 <= i < stopped.len() ==> #[trigger] stopped[i].status != NodeStatus::Active,
        forall|i: int| 0 <= i < stopped.len() ==> #[trigger] stopped[i].id == before[i].id,
{
    assert forall|i: int| 0 <= i < stopped.len() implies #[trigger] stopped[i].status != NodeStatus::Active
        && stopped[i].id == before[i].id by {
        assert(stopped[i] == deactivated(before[i]));
    }
}

/// Activating a found node of a stopped session with distinct ids leaves exactly it active.
proof fn lemma_connected(before: Seq<NodeView>, stopped: Seq<NodeView>, after: Seq<NodeView>, id: Seq<char>)
    requires
        ids_distinct(before),
        stopped.len() == before.len(),
        forall|i: int| 0 <= i < stopped.len() ==> #[trigger] stopped[i].status != NodeStatus::Active,
        forall|i: int| 0 <= i < stopped.len() ==> #[trigger] stopped[i].id == before[i].id,
        index_of_id(stopped, id) is Some,
        marks_active(stopped, after, id),
    ensures
        single_route(after, Some(id)),
        exists|k: int|
            0 <= k < after.len() && after[k].id == id && #[trigger] after[k].status == NodeStatus::Active
                && forall|j: int| 0 <= j < after.len() && j != k ==> #[trigger] after[j].status != NodeStatus::Active,
{
    lemma_index_of_id(stopped, id);
    let k = index_of_id(stopped, id)->0 as int;
    assert(after[k] == activated(stopped[k], id));
    assert forall|j: int| 0 <= j < after.len() && j != k implies #[trigger] after[j].status != NodeStatus::Active by {
        assert(after[j] == activated(stopped[j], id));
        assert(stopped[j].id == before[j].id);
        assert(stopped[k].id == before[k].id);
        if j < k {
            assert(before[j].id != before[k].id);
        } else {
            assert(before[k].id != before[j].id);
        }
    }
    assert(after[k].status == NodeStatus::Active);
    assert forall|i: int, j: int|
        0 <= i < j < after.len() && #[trigger] after[i].status == NodeStatus::Active
            implies #[trigger] after[j].status != NodeStatus::Active by {
        if i != k {
            assert(after[i].status != NodeStatus::Active);
        }
    }
}

/// Failing a node of a stopped session, or leaving it as it is, leaves no node active.
proof fn lemma_failed(stopped: Seq<NodeView>, after: Seq<NodeView>, id: Seq<char>, message: Seq<char>)
    requires
        forall|i: int| 0 <= i < stopped.len() ==> #[trigger] stopped[i].status != NodeStatus::Active,
        after == stopped || marks_failed(stopped, after, id, message),
    ensures
        forall|j: int| 0 <= j < after.len() ==> #[trigger] after[j].status != NodeStatus::Active,
        single_route(after, None),
{
    assert forall|j: int| 0 <= j < after.len() implies #[trigger] after[j].status != NodeStatus::Active by {
        if after != stopped {
            match index_of_id(stopped, id) {
                Some(k) => {
                    assert(after[j] == if j == k { failed_node(stopped[j], message) } else { stopped[j] });
                },
                None => {
                    assert(after[j] == stopped[j]);
                },
            }
        }
    }
}


// ---------------------------------------------------------------------------
// Commands
// ---------------------------------------------------------------------------

pub open spec fn texts(v: Seq<String>) -> Seq<Seq<char>> {
    v.map_values(|s: String| s@)
}

fn push_text(v: &mut Vec<String>, s: &str)
    ensures
        texts(final(v)@) == texts(old(v)@).push(s@),
{
    v.push(owned(s));
    assert(texts(v@) =~= texts(old(v)@).push(s@));
}

/// The arguments OpenVPN is started with: the configuration file, the fixed tun device,
/// no pulled routes, no IPv6, one quick connection attempt, the credentials file.
pub open spec fn openvpn_arg_list(config_file: Seq<char>, tunnel_device: Seq<char>, auth_file: Seq<char>) -> Seq<Seq<char>> {
    seq![
        "--config"@, config_file,
        "--dev"@, tunnel_device,
        "--dev-type"@, "tun"@,
        "--route-nopull"@,
        "--pull-filter"@, "ignore"@, "route-ipv6"@,
        "--pull-filter"@, "ignore"@, "ifconfig-ipv6"@,
        "--route-delay"@, "2"@,
        "--connect-retry-max"@, "1"@,
        "--connect-timeout"@, "15"@,
        "--auth-user-pass"@, auth_file,
        "--auth-nocache"@,
        "--data-ciphers"@, "AES-128-CBC:AES-256-GCM:AES-128-GCM:CHACHA20-POLY1305"@,
        "--verb"@, "3"@,
    ]
}

/// The arguments OpenVPN is started with.
pub fn openvpn_args(config_file: &str, tunnel_device: &str, auth_file: &str) -> (r: Vec<String>)
    ensures
        texts(r@) == openvpn_arg_list(config_file@, tunnel_device@, auth_file@),
{
    let mut v: Vec<String> = Vec::new();
    push_text(&mut v, "--config");
    push_text(&mut v, config_file);
    push_text(&mut v, "--dev");
    push_text(&mut v, tunnel_device);
    push_text(&mut v, "--dev-type");
    push_text(&mut v, "tun");
    push_text(&mut v, "--route-nopull");
    push_text(&mut v, "--pull-filter");
    push_text(&mut v, "ignore");
    push_text(&mut v, "route-ipv6");
    push_text(&mut v, "--pull-filter");
    push_text(&mut v, "ignore");
    push_text(&mut v, "ifconfig-ipv6");
    push_text(&mut v, "--route-delay");
    push_text(&mut v, "2");
    push_text(&mut v, "--connect-retry-max");
    push_text(&mut v, "1");
    push_text(&mut v, "--connect-timeout");
    push_text(&mut v, "15");
    push_text(&mut v, "--auth-user-pass");
    push_text(&mut v, auth_file);
    push_text(&mut v, "--auth-nocache");
    push_text(&mut v, "--data-ciphers");
    push_text(&mut v, "AES-128-CBC:AES-256-GCM:AES-128-GCM:CHACHA20-POLY1305");
    push_text(&mut v, "--verb");
    push_text(&mut v, "3");
    assert(texts(v@) =~= openvpn_arg_list(config_file@, tunnel_device@, auth_file@));
    v
}

/// A system command of the routing setup; when it is not `required`, its failure is
/// ignored.
#[derive(Debug)]
pub struct RouteCommand {
    pub program: String,
    pub args: Vec<String>,
    pub required: bool,
}

impl View for RouteCommand {
    type V = (Seq<char>, Seq<Seq<char>>, bool);

    open spec fn view(&self) -> (Seq<char>, Seq<Seq<char>>, bool) {
        (self.program@, texts(self.args@), self.required)
    }
}

pub open spec fn commands_view(cs: Seq<RouteCommand>) -> Seq<(Seq<char>, Seq<Seq<char>>, bool)> {
    cs.map_values(|c: RouteCommand| c@)
}

/// The commands that remove the relay's routing table 100 and its rule (both optional).
pub open spec fn cleanup_command_list() -> Seq<(Seq<char>, Seq<Seq<char>>, bool)> {
    seq![
        ("ip"@, seq!["rule"@, "del"@, "table"@, "100"@], false),
        ("ip"@, seq!["route"@, "flush"@, "table"@, "100"@], false),
    ]
}

/// The commands that send the traffic of the tun device through table 100: the old table
/// cleared, a default route over the device and a rule for traffic leaving by it (both
/// required), then loose reverse-path filtering (optional).
pub open spec fn setup_command_list(dev: Seq<char>) -> Seq<(Seq<char>, Seq<Seq<char>>, bool)> {
    cleanup_command_list() + seq![
        ("ip"@, seq!["route"@, "add"@, "default"@, "dev"@, dev, "table"@, "100"@], true),
        ("ip"@, seq!["rule"@, "add"@, "oif"@, dev, "table"@, "100"@], true),
        ("sysctl"@, seq!["-w"@, "net.ipv4.conf.all.rp_filter=2"@], false),
        ("sysctl"@, seq!["-w"@, "net.ipv4.conf.default.rp_filter=2"@], false),
        ("sysctl"@, seq!["-w"@, "net.ipv4.conf."@ + dev + ".rp_filter=2"@], false),
    ]
}

fn command(program: &str, args: Vec<String>, required: bool) -> (r: RouteCommand)
    ensures
        r@ == (program@, texts(args@), required),
{
    RouteCommand { program: owned(program), args, required }
}

fn push_command(cs: &mut Vec<RouteCommand>, c: RouteCommand)
    ensures
        commands_view(final(cs)@) == commands_view(old(cs)@).push(c@),
{
    cs.push(c);
    assert(commands_view(cs@) =~= commands_view(old(cs)@).push(c@));
}

fn args4(a: &str, b: &str, c: &str, d: &str) -> (r: Vec<String>)
    ensures
        texts(r@) == seq![a@, b@, c@, d@],
{
    let mut v: Vec<String> = Vec::new();
    push_text(&mut v, a);
    push_text(&mut v, b);
    push_text(&mut v, c);
    push_text(&mut v, d);
    assert(texts(v@) =~= seq![a@, b@, c@, d@]);
    v
}

fn push_cleanup(cs: &mut Vec<RouteCommand>)
    ensures
        commands_view(final(cs)@) == commands_view(old(cs)@) + cleanup_command_list(),
{
    push_command(cs, command("ip", args4("rule", "del", "table", "100"), false));
    push_command(cs, command("ip", args4("route", "flush", "table", "100"), false));
    assert(commands_view(cs@) =~= commands_view(old(cs)@) + cleanup_command_list());
}

/// The commands that undo the relay's routing.
pub fn policy_routing_cleanup() -> (r: Vec<RouteCommand>)
    ensures
        commands_view(r@) == cleanup_command_list(),
{
    let mut cs: Vec<RouteCommand> = Vec::new();
    push_cleanup(&mut cs);
    assert(commands_view(cs@) =~= cleanup_command_list());
    cs
}

/// The commands that route the relay's traffic through the tun device `dev`.
pub fn policy_routing_setup(dev: &str) -> (r: Vec<RouteCommand>)
    ensures
        commands_view(r@) == setup_command_list(dev@),
{
    let mut cs: Vec<RouteCommand> = Vec::new();
    push_cleanup(&mut cs);
    let mut a: Vec<String> = Vec::new();
    push_text(&mut a, "route");
    push_text(&mut a, "add");
    push_text(&mut a, "default");
    push_text(&mut a, "dev");
    push_text(&mut a, dev);
    push_text(&mut a, "table");
    push_text(&mut a, "100");
    assert(texts(a@) =~= seq!["route"@, "add"@, "default"@, "dev"@, dev@, "table"@, "100"@]);
    push_command(&mut cs, command("ip", a, true));
    let mut b: Vec<String> = Vec::new();
    push_text(&mut b, "rule");
    push_text(&mut b, "add");
    push_text(&mut b, "oif");
    push_text(&mut b, dev);
    push_text(&mut b, "table");
    push_text(&mut b, "100");
    assert(texts(b@) =~= seq!["rule"@, "add"@, "oif"@, dev@, "table"@, "100"@]);
    push_command(&mut cs, command("ip", b, true));
    let mut c1: Vec<String> = Vec::new();
    push_text(&mut c1, "-w");
    push_text(&mut c1, "net.ipv4.conf.all.rp_filter=2");
    assert(texts(c1@) =~= seq!["-w"@, "net.ipv4.conf.all.rp_filter=2"@]);
    push_command(&mut cs, command("sysctl", c1, false));
    let mut c2: Vec<String> = Vec::new();
    push_text(&mut c2, "-w");
    push_text(&mut c2, "net.ipv4.conf.default.rp_filter=2");
    assert(texts(c2@) =~= seq!["-w"@, "net.ipv4.conf.default.rp_filter=2"@]);
    push_command(&mut cs, command("sysctl", c2, false));
    let mut key = chars_of("net.ipv4.conf.");
    push_str(&mut key, dev);
    push_str(&mut key, ".rp_filter=2");
    let key_text = string_from_chars(key.as_slice());
    let mut c3: Vec<String> = Vec::new();
    push_text(&mut c3, "-w");
    let ghost before = texts(c3@);
    c3.push(key_text);
    assert(texts(c3@) =~= seq!["-w"@, "net.ipv4.conf."@ + dev@ + ".rp_filter=2"@]);
    push_command(&mut cs, command("sysctl", c3, false));
    assert(commands_view(cs@) =~= setup_command_list(dev@));
    cs
}

/// How running a command went.
#[derive(Debug)]
pub enum CommandOutcome {
    Succeeded,
    /// It ran and reported failure, with what it wrote to stderr.
    Failed { stderr: String },
    /// It could not be started.
    NotStarted,
}

/// Whether the setup goes on after a command: an optional command may fail, a required one
/// must succeed.
pub fn command_accepted(required: bool, outcome: &CommandOutcome) -> (r: bool)
    ensures
        r == (!required || outcome is Succeeded),
{
    !required || matches!(outcome, CommandOutcome::Succeeded)
}

/// The error of a required command that failed: `<program> failed: <stderr>`.
pub fn command_failure_message(program: &str, stderr: &str) -> (r: String)
    ensures
        r@ == program@ + " failed: "@ + stderr@,
{
    let mut v = chars_of(program);
    push_str(&mut v, " failed: ");
    push_str(&mut v, stderr);
    string_from_chars(v.as_slice())
}

/// The content of OpenVPN's credentials file: user and password, each on its own line.
pub fn auth_file_text(user: &str, pass: &str) -> (r: String)
    ensures
        r@ == user@ + "\n"@ + pass@ + "\n"@,
{
    let mut v = chars_of(user);
    push_str(&mut v, "\n");
    push_str(&mut v, pass);
    push_str(&mut v, "\n");
    string_from_chars(v.as_slice())
}

} // verus!
