use base64::Engine;
use vpngate_link::catalog::{
    catalog_csv_text, get_field, nodes_from_table, parse_catalog_csv, parse_i64, parse_remote,
    row_to_node, safe_id, safe_id_at, sort_nodes, CatalogError,
};
use vpngate_link::model::{Node, NodeStatus};

const HEADER: &str = "#HostName,IP,Score,Ping,Speed,CountryLong,CountryShort,NumVpnSessions,Uptime,TotalUsers,TotalTraffic,LogType,Operator,Message,OpenVPN_ConfigData_Base64";

fn encode(conf: &str) -> String {
    base64::engine::general_purpose::STANDARD.encode(conf)
}

fn row(host: &str, ip: &str, score: &str, ping: &str, short: &str, conf: &str) -> String {
    format!(
        "{host},{ip},{score},{ping},3000,Japan,{short},4,1,1,1,2weeks,op,msg,{}",
        encode(conf)
    )
}

#[test]
fn parses_remote_line() {
    let cfg = "client\nproto tcp\nremote 203.0.113.10 443\n";
    let (host, port, proto) = parse_remote(cfg, "");
    assert_eq!(host, "203.0.113.10");
    assert_eq!(port, 443);
    assert_eq!(proto, "tcp");
}

#[test]
fn parses_catalog_csv() {
    let conf = "client\nproto udp\nremote 198.51.100.1 1194\n";
    let encoded = base64::engine::general_purpose::STANDARD.encode(conf);
    let body = format!(
        "*vpn_servers\n#HostName,IP,Score,Ping,Speed,CountryLong,CountryShort,NumVpnSessions,Uptime,TotalUsers,TotalTraffic,LogType,Operator,Message,OpenVPN_ConfigData_Base64\nhost1,198.51.100.1,100,20,3000,Japan,JP,4,1,1,1,2weeks,op,msg,{encoded}\n"
    );
    let nodes = parse_catalog_csv(&body, 10).unwrap();
    assert_eq!(nodes.len(), 1);
    assert_eq!(nodes[0].remote_port, 1194);
    assert_eq!(nodes[0].country_short, "JP");
}

#[test]
fn remote_keeps_fallback_host_without_remote_line() {
    let (host, port, proto) = parse_remote("client\nproto UDP\n", "10.0.0.1");
    assert_eq!(host, "10.0.0.1");
    assert_eq!(port, 0);
    assert_eq!(proto, "udp");
}

#[test]
fn remote_skips_comments_and_reads_case_insensitively() {
    let cfg = "# remote 1.1.1.1 1\n; remote 2.2.2.2 2\r\n  REMOTE  vpn.example.org  8443 TCP-Client \r\nproto\n";
    let (host, port, proto) = parse_remote(cfg, "x");
    assert_eq!(host, "vpn.example.org");
    assert_eq!(port, 8443);
    assert_eq!(proto, "tcp-client");
}

#[test]
fn remote_with_invalid_port_reads_zero_and_last_line_wins() {
    let (host, port, proto) = parse_remote("remote a.example 70000\n", "");
    assert_eq!((host.as_str(), port, proto.as_str()), ("a.example", 0, "unknown"));
    let (host, port, _) = parse_remote("remote a 1\nremote b 2\n", "");
    assert_eq!((host.as_str(), port), ("b", 2));
    let (_, port, _) = parse_remote("remote a +22\n", "");
    assert_eq!(port, 22);
}

#[test]
fn safe_id_sanitises_and_trims() {
    assert_eq!(safe_id("JP_1.2.3.4_443_tcp"), "JP_1.2.3.4_443_tcp");
    assert_eq!(safe_id("__a b/c--"), "a_b_c");
    assert_eq!(safe_id_at("ü", 42), "node_42");
    assert_eq!(safe_id_at("...", 7), "node_7");
}

#[test]
fn safe_id_falls_back_to_the_time() {
    let id = safe_id("@@@");
    assert!(id.starts_with("node_"));
    let rest = &id["node_".len()..];
    assert!(!rest.is_empty());
    assert!(rest.chars().all(|c| c.is_ascii_digit()));
    assert_ne!(rest, "@@@");
}

#[test]
fn parse_i64_reads_numbers_or_zero() {
    assert_eq!(parse_i64("123"), 123);
    assert_eq!(parse_i64("-45"), -45);
    assert_eq!(parse_i64("+7"), 7);
    assert_eq!(parse_i64("-9223372036854775808"), i64::MIN);
    assert_eq!(parse_i64("9223372036854775808"), 0);
    assert_eq!(parse_i64(""), 0);
    assert_eq!(parse_i64("-"), 0);
    assert_eq!(parse_i64("1.5"), 0);
    assert_eq!(parse_i64(" 1"), 0);
}

#[test]
fn catalog_text_drops_comments_blank_lines_and_header_hashes() {
    let t = catalog_csv_text("*vpn\n\n##A,B\n  \n1,2\r\n*\n").unwrap();
    assert_eq!(t, "A,B\n1,2");
    assert!(catalog_csv_text("*only\n   \n").is_none());
}

#[test]
fn empty_catalog_is_refused() {
    assert!(matches!(parse_catalog_csv("", 10), Err(CatalogError::EmptyCatalog)));
    assert!(matches!(parse_catalog_csv("*a\n\t\n", 10), Err(CatalogError::EmptyCatalog)));
}

#[test]
fn catalog_without_usable_rows_is_refused() {
    let body = format!("{HEADER}\n{}\n", row("h", "1.2.3.4", "1", "1", "JP", "client\n"));
    assert!(matches!(parse_catalog_csv(&body, 10), Err(CatalogError::NoUsableEntries)));
    let body = format!("{HEADER}\nh,1.2.3.4,1,1,1,Japan,JP,1,1,1,1,x,op,msg,\n");
    assert!(matches!(parse_catalog_csv(&body, 10), Err(CatalogError::NoUsableEntries)));
}

#[test]
fn bad_base64_is_refused() {
    let body = format!("{HEADER}\nh,1.2.3.4,1,1,1,Japan,JP,1,1,1,1,x,op,msg,!!!notbase64\n");
    assert!(matches!(parse_catalog_csv(&body, 10), Err(CatalogError::BadConfig(_))));
}

#[test]
fn uneven_record_is_refused_by_the_csv_reader() {
    let body = format!("{HEADER}\nonly,three,fields\n");
    assert!(matches!(parse_catalog_csv(&body, 10), Err(CatalogError::Csv(_))));
    // beyond the limit, a bad record is never read
    let good = row("h", "1.2.3.4", "1", "5", "JP", "remote 1.2.3.4 1194\n");
    let body = format!("{HEADER}\n{good}\nonly,three,fields\n");
    assert_eq!(parse_catalog_csv(&body, 1).unwrap().len(), 1);
}

#[test]
fn catalog_is_sorted_by_ping_then_score() {
    let conf = "remote 10.0.0.1 1194\nproto udp\n";
    let body = format!(
        "{HEADER}\n{}\n{}\n{}\n{}\n{}\n",
        row("a", "1.0.0.1", "10", "0", "AA", conf),
        row("b", "1.0.0.2", "10", "30", "BB", conf),
        row("c", "1.0.0.3", "50", "30", "CC", conf),
        row("d", "1.0.0.4", "99", "5", "DD", conf),
        row("e", "1.0.0.5", "10", "30", "EE", conf),
    );
    let nodes = parse_catalog_csv(&body, 10).unwrap();
    let hosts: Vec<&str> = nodes.iter().map(|n| n.host_name.as_str()).collect();
    assert_eq!(hosts, vec!["d", "c", "b", "e", "a"]);
}

#[test]
fn catalog_limit_counts_records() {
    let conf = "remote 10.0.0.1 1194\n";
    let body = format!(
        "{HEADER}\n{}\n{}\n{}\n",
        row("a", "1.0.0.1", "1", "1", "AA", conf),
        row("b", "1.0.0.2", "1", "1", "BB", conf),
        row("c", "1.0.0.3", "1", "1", "CC", conf),
    );
    assert_eq!(parse_catalog_csv(&body, 2).unwrap().len(), 2);
    assert!(matches!(parse_catalog_csv(&body, 0), Err(CatalogError::NoUsableEntries)));
}

#[test]
fn catalog_node_fields() {
    let conf = "client\nremote 198.51.100.7 443 TCP\n";
    let body = format!("{HEADER}\n{}\n", row("vpn1", "", "77", "12", "", conf));
    let nodes = parse_catalog_csv(&body, 10).unwrap();
    let n = &nodes[0];
    assert_eq!(n.id, "XX_198.51.100.7_443_tcp");
    assert_eq!(n.remote_host, "198.51.100.7");
    assert_eq!(n.proto, "tcp");
    assert_eq!(n.score, 77);
    assert_eq!(n.ping, 12);
    assert_eq!(n.speed, 3000);
    assert_eq!(n.sessions, 4);
    assert_eq!(n.country, "Japan");
    assert_eq!(n.host_name, "vpn1");
    assert_eq!(n.config_text, conf);
    assert_eq!(n.status, NodeStatus::New);
    assert!(n.latency_ms.is_none() && n.last_error.is_none());
}

#[test]
fn fields_are_found_by_header_name() {
    let headers: Vec<String> = vec!["A".into(), "B".into(), "A".into()];
    let rec: Vec<String> = vec!["1".into(), "2".into(), "3".into()];
    assert_eq!(get_field(&headers, &rec, "A"), "1");
    assert_eq!(get_field(&headers, &rec, "B"), "2");
    assert_eq!(get_field(&headers, &rec, "C"), "");
    let short: Vec<String> = vec!["1".into()];
    assert_eq!(get_field(&headers, &short, "B"), "");
}

#[test]
fn row_decodes_its_configuration() {
    let headers: Vec<String> = vec!["IP".into(), "OpenVPN_ConfigData_Base64".into()];
    let rec: Vec<String> = vec!["9.9.9.9".into(), encode("remote 9.9.9.9 1194\n")];
    let node = row_to_node(&headers, &rec).unwrap().unwrap();
    assert_eq!(node.config_text, "remote 9.9.9.9 1194\n");
    assert_eq!(node.id, "XX_9.9.9.9_1194_unknown");
    let rec: Vec<String> = vec!["9.9.9.9".into(), encode("client\n")];
    assert!(row_to_node(&headers, &rec).unwrap().is_none());
}

#[test]
fn invalid_utf8_in_a_configuration_is_replaced() {
    let headers: Vec<String> = vec!["OpenVPN_ConfigData_Base64".into()];
    let raw: Vec<u8> = b"remote h 1\n\xff\n".to_vec();
    let rec: Vec<String> = vec![base64::engine::general_purpose::STANDARD.encode(&raw)];
    let node = row_to_node(&headers, &rec).unwrap().unwrap();
    assert_eq!(node.config_text, "remote h 1\n\u{fffd}\n");
}

fn node(id: &str, ping: i64, score: i64) -> Node {
    Node {
        id: id.to_string(),
        country: String::new(),
        country_short: String::new(),
        host_name: String::new(),
        ip: String::new(),
        remote_host: "h".to_string(),
        remote_port: 1,
        proto: "udp".to_string(),
        score,
        ping,
        speed: 0,
        sessions: 0,
        config_text: String::new(),
        latency_ms: None,
        status: NodeStatus::New,
        last_error: None,
    }
}

#[test]
fn sort_is_stable() {
    let nodes = vec![node("a", 5, 1), node("b", -1, 9), node("c", 5, 1), node("d", 2, 0), node("e", 5, 3)];
    let ids: Vec<String> = sort_nodes(nodes).into_iter().map(|n| n.id).collect();
    assert_eq!(ids, vec!["d", "e", "a", "c", "b"]);
}

#[test]
fn table_header_error_and_limits() {
    let headers: Vec<String> = vec!["IP".into(), "OpenVPN_ConfigData_Base64".into()];
    let good: Vec<String> = vec!["1.1.1.1".into(), encode("remote 1.1.1.1 1\n")];
    let r = nodes_from_table(Ok(headers.clone()), vec![Ok(good.clone()), Ok(good.clone())], 5).unwrap();
    assert_eq!(r.len(), 2);
    assert!(matches!(nodes_from_table(Ok(headers), vec![], 5), Err(CatalogError::NoUsableEntries)));
}
