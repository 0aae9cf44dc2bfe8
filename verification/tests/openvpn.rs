use vpngate_link::model::{Node, NodeStatus, RuntimeStatus};
use vpngate_link::openvpn::{
    auth_file_text, begin_connect, classify_openvpn_line, clear_active, command_accepted,
    command_failure_message, config_file_name, failure_message, finish_connect,
    finish_disconnect, mark_active, mark_failed, openvpn_args, policy_routing_cleanup,
    policy_routing_setup, timeout_message, connect_failure_message, connect_step, CommandOutcome, ConnectAction,
    ConnectEvent, ConnectFailure,
    OpenVpnLine,
};

fn node(id: &str, status: NodeStatus) -> Node {
    Node {
        id: id.to_string(),
        country: String::new(),
        country_short: String::new(),
        host_name: String::new(),
        ip: String::new(),
        remote_host: "h".to_string(),
        remote_port: 1194,
        proto: "udp".to_string(),
        score: 0,
        ping: 0,
        speed: 0,
        sessions: 0,
        config_text: String::new(),
        latency_ms: None,
        status,
        last_error: Some("old".to_string()),
    }
}

#[test]
fn classifies_openvpn_output() {
    assert_eq!(classify_openvpn_line("2024 Initialization Sequence Completed"), OpenVpnLine::Ready);
    assert_eq!(classify_openvpn_line("AUTH: Received control message: AUTH_FAILED"), OpenVpnLine::Fatal);
    assert_eq!(classify_openvpn_line("ERROR: Cannot open TUN/TAP dev /dev/net/tun"), OpenVpnLine::Fatal);
    assert_eq!(classify_openvpn_line("Exiting due to fatal error"), OpenVpnLine::Fatal);
    assert_eq!(classify_openvpn_line("Cannot allocate TUN/TAP dev dynamically"), OpenVpnLine::Fatal);
    assert_eq!(classify_openvpn_line("Authentication failed"), OpenVpnLine::Fatal);
    assert_eq!(classify_openvpn_line("TCP connection established"), OpenVpnLine::Other);
}

#[test]
fn connection_messages() {
    assert_eq!(failure_message("AUTH_FAILED"), "openvpn failed: AUTH_FAILED");
    assert_eq!(timeout_message(35), "openvpn timeout after 35s");
    assert_eq!(config_file_name("JP_1.2.3.4_1194_udp"), "JP_1.2.3.4_1194_udp.conf");
    assert_eq!(auth_file_text("vpn", "pw"), "vpn\npw\n");
}

#[test]
fn a_connection_has_a_single_active_node() {
    let mut nodes = vec![node("a", NodeStatus::Active), node("b", NodeStatus::Failed), node("c", NodeStatus::New)];
    let mut rt = RuntimeStatus::new("r".into(), "c".into(), false);
    let m = begin_connect(&mut rt, "b");
    assert_eq!(m, "connecting b");
    assert!(rt.connecting);
    mark_active(&mut nodes, "b");
    assert_eq!(nodes[0].status, NodeStatus::New);
    assert_eq!(nodes[1].status, NodeStatus::Active);
    assert!(nodes[1].last_error.is_none());
    assert_eq!(nodes[2].status, NodeStatus::New);
    let m = finish_connect(&mut rt, "b");
    assert_eq!(m, "connected b");
    assert_eq!(rt.active_node_id.as_deref(), Some("b"));
    assert!(!rt.connecting);
    assert_eq!(rt.last_message, "connected b");
}

#[test]
fn a_failed_connection_marks_its_node() {
    let mut nodes = vec![node("a", NodeStatus::New), node("a", NodeStatus::New)];
    let mut rt = RuntimeStatus::new("r".into(), "c".into(), false);
    begin_connect(&mut rt, "a");
    mark_failed(&mut nodes, &mut rt, "a", "openvpn timeout after 35s".to_string());
    assert_eq!(nodes[0].status, NodeStatus::Failed);
    assert_eq!(nodes[0].last_error.as_deref(), Some("openvpn timeout after 35s"));
    assert_eq!(nodes[1].status, NodeStatus::New);
    assert!(!rt.connecting);
    assert!(rt.active_node_id.is_none());
    assert_eq!(rt.last_message, "openvpn timeout after 35s");
}

#[test]
fn disconnect_clears_the_active_node() {
    let mut nodes = vec![node("a", NodeStatus::Active), node("b", NodeStatus::Failed)];
    let mut rt = RuntimeStatus::new("r".into(), "c".into(), false);
    finish_connect(&mut rt, "a");
    clear_active(&mut nodes);
    finish_disconnect(&mut rt);
    assert_eq!(nodes[0].status, NodeStatus::New);
    assert_eq!(nodes[1].status, NodeStatus::Failed);
    assert!(rt.active_node_id.is_none());
    assert_eq!(rt.last_message, "disconnected");
}

#[test]
fn openvpn_arguments() {
    let args = openvpn_args("/d/configs/x.conf", "vgl0", "/d/openvpn_auth.txt");
    assert_eq!(
        args,
        vec![
            "--config", "/d/configs/x.conf", "--dev", "vgl0", "--dev-type", "tun", "--route-nopull",
            "--pull-filter", "ignore", "route-ipv6", "--pull-filter", "ignore", "ifconfig-ipv6",
            "--route-delay", "2", "--connect-retry-max", "1", "--connect-timeout", "15",
            "--auth-user-pass", "/d/openvpn_auth.txt", "--auth-nocache", "--data-ciphers",
            "AES-128-CBC:AES-256-GCM:AES-128-GCM:CHACHA20-POLY1305", "--verb", "3",
        ]
    );
}

#[test]
fn routing_commands() {
    let setup = policy_routing_setup("vgl0");
    let lines: Vec<String> = setup
        .iter()
        .map(|c| format!("{} {} {}", c.required, c.program, c.args.join(" ")))
        .collect();
    assert_eq!(
        lines,
        vec![
            "false ip rule del table 100",
            "false ip route flush table 100",
            "true ip route add default dev vgl0 table 100",
            "true ip rule add oif vgl0 table 100",
            "false sysctl -w net.ipv4.conf.all.rp_filter=2",
            "false sysctl -w net.ipv4.conf.default.rp_filter=2",
            "false sysctl -w net.ipv4.conf.vgl0.rp_filter=2",
        ]
    );
    assert_eq!(policy_routing_cleanup().len(), 2);
    assert!(command_accepted(false, &CommandOutcome::NotStarted));
    assert!(command_accepted(true, &CommandOutcome::Succeeded));
    assert!(!command_accepted(true, &CommandOutcome::Failed { stderr: "x".into() }));
    assert_eq!(command_failure_message("ip", "RTNETLINK answers"), "ip failed: RTNETLINK answers");
}

#[test]
fn failure_messages_of_a_connection_attempt() {
    assert_eq!(connect_failure_message(ConnectFailure::NodeMissing, "JP_1"), "node not found: JP_1");
    assert_eq!(connect_failure_message(ConnectFailure::NoOutput, "JP_1"), "openvpn stdout not captured");
    assert_eq!(
        connect_failure_message(ConnectFailure::ExitedEarly, "JP_1"),
        "openvpn exited before initialization"
    );
}

fn active_ids(nodes: &[Node]) -> Vec<String> {
    nodes.iter().filter(|n| n.status == NodeStatus::Active).map(|n| n.id.clone()).collect()
}

#[test]
fn a_whole_attempt_that_connects_leaves_one_route() {
    let mut nodes = vec![node("a", NodeStatus::Active), node("b", NodeStatus::New), node("c", NodeStatus::Failed)];
    let mut rt = RuntimeStatus::new("r".into(), "c".into(), false);
    begin_connect(&mut rt, "c");
    clear_active(&mut nodes);
    finish_disconnect(&mut rt);
    mark_active(&mut nodes, "c");
    finish_connect(&mut rt, "c");
    assert_eq!(active_ids(&nodes), vec!["c".to_string()]);
    assert_eq!(rt.active_node_id.as_deref(), Some("c"));
    assert!(!rt.connecting);
}

#[test]
fn a_whole_attempt_that_fails_leaves_no_route() {
    let mut nodes = vec![node("a", NodeStatus::Active), node("b", NodeStatus::New)];
    let mut rt = RuntimeStatus::new("r".into(), "c".into(), false);
    begin_connect(&mut rt, "b");
    clear_active(&mut nodes);
    finish_disconnect(&mut rt);
    mark_failed(&mut nodes, &mut rt, "b", "openvpn exited before initialization".to_string());
    assert!(active_ids(&nodes).is_empty());
    assert_eq!(nodes[1].status, NodeStatus::Failed);
    assert!(rt.active_node_id.is_none());
    assert!(!rt.connecting);
}

#[test]
fn each_event_of_a_connection_attempt_has_its_action() {
    let ready = connect_step(ConnectEvent::Line("x Initialization Sequence Completed".into()), "JP_1", 35);
    assert!(matches!(ready, ConnectAction::Connected));
    let other = connect_step(ConnectEvent::Line("TCP connection established".into()), "JP_1", 35);
    assert!(matches!(other, ConnectAction::KeepWaiting));
    match connect_step(ConnectEvent::Line("AUTH_FAILED".into()), "JP_1", 35) {
        ConnectAction::Failed(m) => assert_eq!(m, "openvpn failed: AUTH_FAILED"),
        _ => panic!("a fatal line fails the attempt"),
    }
    match connect_step(ConnectEvent::OutputEnded, "JP_1", 35) {
        ConnectAction::Failed(m) => assert_eq!(m, "openvpn exited before initialization"),
        _ => panic!("the end of the output fails the attempt"),
    }
    match connect_step(ConnectEvent::TimedOut, "JP_1", 35) {
        ConnectAction::Failed(m) => assert_eq!(m, "openvpn timeout after 35s"),
        _ => panic!("the deadline fails the attempt"),
    }
}
