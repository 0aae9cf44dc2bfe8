use vpngate_link::control::{
    apply_test_result, authorize, batch_size, count_available, find_node, log_entry,
    mark_favorites_available, push_log, record_refresh, select_node, test_log_line, test_result,
    TcpProbe,
};
use vpngate_link::model::{
    FavoriteSet, GatewaySettings, LogEntry, Node, NodeStatus, NodeTestResult, RouteMode,
    RuntimeStatus,
};

fn node(id: &str, short: &str, long: &str, ping: i64, score: i64, status: NodeStatus) -> Node {
    Node {
        id: id.to_string(),
        country: long.to_string(),
        country_short: short.to_string(),
        host_name: String::new(),
        ip: String::new(),
        remote_host: "h".to_string(),
        remote_port: 1194,
        proto: "udp".to_string(),
        score,
        ping,
        speed: 0,
        sessions: 0,
        config_text: String::new(),
        latency_ms: None,
        status,
        last_error: None,
    }
}

fn sample() -> Vec<Node> {
    vec![
        node("jp1", "JP", "Japan", 30, 10, NodeStatus::New),
        node("kr1", "KR", "Korea Republic of", 10, 10, NodeStatus::Failed),
        node("jp2", "JP", "Japan", 20, 5, NodeStatus::Available),
        node("us1", "US", "United States", 0, 99, NodeStatus::New),
        node("jp3", "JP", "Japan", 20, 5, NodeStatus::New),
    ]
}

#[test]
fn authorization_by_bearer_or_token_header() {
    assert!(authorize(None, None, None));
    assert!(authorize(None, Some("junk"), None));
    assert!(authorize(Some("t0k"), Some("Bearer t0k"), None));
    assert!(authorize(Some("t0k"), None, Some("t0k")));
    assert!(authorize(Some("t0k"), Some("Basic abc"), Some("t0k")));
    assert!(!authorize(Some("t0k"), Some("Bearer nope"), Some("t0k")));
    assert!(!authorize(Some("t0k"), Some("bearer t0k"), None));
    assert!(!authorize(Some("t0k"), None, None));
    assert!(!authorize(Some("t0k"), None, Some("t0k ")));
}

#[test]
fn auto_mode_takes_the_best_usable_node() {
    let s = GatewaySettings::default();
    assert_eq!(select_node(&s, &sample()).as_deref(), Some("jp2"));
}

#[test]
fn disabled_connection_selects_nothing() {
    let mut s = GatewaySettings::default();
    s.connection_enabled = false;
    assert_eq!(select_node(&s, &sample()), None);
}

#[test]
fn fixed_country_matches_code_or_name() {
    let mut s = GatewaySettings::default();
    s.route_mode = RouteMode::FixedCountry;
    s.country = "united states".to_string();
    assert_eq!(select_node(&s, &sample()).as_deref(), Some("us1"));
    s.country = "kr".to_string();
    assert_eq!(select_node(&s, &sample()), None);
    s.country = String::new();
    assert_eq!(select_node(&s, &sample()).as_deref(), Some("jp2"));
}

#[test]
fn fixed_node_and_favorites() {
    let mut s = GatewaySettings::default();
    s.route_mode = RouteMode::FixedNode;
    s.fixed_node_id = "jp1".to_string();
    assert_eq!(select_node(&s, &sample()).as_deref(), Some("jp1"));
    s.fixed_node_id = "kr1".to_string();
    assert_eq!(select_node(&s, &sample()), None);

    s.route_mode = RouteMode::Favorites;
    s.favorite_node_ids = FavoriteSet::from_ids(vec!["kr1".to_string(), "us1".to_string()]);
    assert_eq!(select_node(&s, &sample()).as_deref(), Some("us1"));
    s.favorite_node_ids = FavoriteSet::from_ids(vec!["kr1".to_string()]);
    assert_eq!(select_node(&s, &sample()).as_deref(), Some("jp2"));
    s.fallback_to_any = false;
    assert_eq!(select_node(&s, &sample()), None);
}

#[test]
fn refresh_marks_favorites_and_records_counts() {
    let mut nodes = sample();
    let mut s = GatewaySettings::default();
    s.favorite_node_ids.toggle("us1".to_string());
    s.favorite_node_ids.toggle("kr1".to_string());
    mark_favorites_available(&mut nodes, &s);
    let st: Vec<NodeStatus> = nodes.iter().map(|n| n.status).collect();
    assert_eq!(st, vec![NodeStatus::New, NodeStatus::Available, NodeStatus::Available, NodeStatus::Available, NodeStatus::New]);

    let mut rt = RuntimeStatus::new("r".into(), "c".into(), true);
    let msg = record_refresh(&mut rt, 42, 1700000000);
    assert_eq!(msg, "refreshed 42 routes");
    assert_eq!(rt.last_message, msg);
    assert_eq!(rt.node_count, 42);
    assert_eq!(rt.last_refresh_at, Some(1700000000));
    assert!(rt.auth_enabled);
}

#[test]
fn test_results_update_the_first_matching_node() {
    let mut nodes = sample();
    nodes.push(node("jp3", "JP", "Japan", 1, 1, NodeStatus::New));
    let ok = test_result("jp3", TcpProbe::Connected { latency_ms: 25 });
    assert!(ok.ok && ok.latency_ms == Some(25) && ok.message == "tcp reachable");
    apply_test_result(&mut nodes, &ok);
    assert_eq!(nodes[4].status, NodeStatus::Available);
    assert_eq!(nodes[4].latency_ms, Some(25));
    assert_eq!(nodes[5].status, NodeStatus::New);

    let bad = test_result("jp1", TcpProbe::Refused { message: "connection refused".into() });
    apply_test_result(&mut nodes, &bad);
    assert_eq!(nodes[0].status, NodeStatus::Failed);
    assert_eq!(nodes[0].last_error.as_deref(), Some("connection refused"));
    let (level, line) = test_log_line(&bad);
    assert_eq!((level.as_str(), line.as_str()), ("WARNING", "jp1: connection refused"));

    let slow = test_result("zz", TcpProbe::TimedOut);
    assert_eq!(slow.message, "tcp timeout");
    apply_test_result(&mut nodes, &slow);
    assert_eq!(find_node(&nodes, "zz"), None);
    assert_eq!(find_node(&nodes, "jp3"), Some(4));
    let (level, _) = test_log_line(&ok);
    assert_eq!(level, "INFO");
}

#[test]
fn batch_tests_take_200_and_count_reachable() {
    assert_eq!(batch_size(3), 3);
    assert_eq!(batch_size(500), 200);
    let rs: Vec<NodeTestResult> = vec![
        test_result("a", TcpProbe::Connected { latency_ms: 1 }),
        test_result("b", TcpProbe::TimedOut),
        test_result("c", TcpProbe::Connected { latency_ms: 2 }),
    ];
    assert_eq!(count_available(&rs), 2);
}

#[test]
fn log_keeps_the_newest_thousand() {
    let mut logs: Vec<LogEntry> = Vec::new();
    for i in 0..1005 {
        push_log(&mut logs, log_entry(i, "INFO", "test", format!("m{i}")));
        assert!(logs.len() <= 1000);
    }
    assert_eq!(logs.len(), 1000);
    assert_eq!(logs[0].message, "m5");
    assert_eq!(logs[999].message, "m1004");
    assert_eq!(logs[999].module, "test");
}
