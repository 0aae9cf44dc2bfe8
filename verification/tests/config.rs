use vpngate_link::config::Config;

fn vars(pairs: &[(&str, &str)]) -> Vec<(String, String)> {
    pairs.iter().map(|(k, v)| (k.to_string(), v.to_string())).collect()
}

#[test]
fn defaults_apply_without_variables() {
    let c = Config::from_env(&Vec::new());
    assert_eq!(c.data_dir, "./gateway_data");
    assert_eq!(c.web_dir, "./web/dist");
    assert_eq!(c.control_addr, "127.0.0.1:18081");
    assert_eq!(c.relay_addr, "127.0.0.1:19080");
    assert_eq!(c.catalog_url, "https://www.vpngate.net/api/iphone/");
    assert_eq!(c.tunnel_device, "vgl0");
    assert!(c.api_token.is_none());
    assert_eq!(c.openvpn_cmd, "openvpn");
    assert_eq!((c.openvpn_user.as_str(), c.openvpn_pass.as_str()), ("vpn", "vpn"));
    assert_eq!(c.refresh_interval_secs, 1260);
    assert_eq!(c.connect_timeout_secs, 35);
    assert_eq!(c.max_nodes, 300);
    assert_eq!(c.nodes_file(), "./gateway_data/nodes.json");
}

#[test]
fn variables_override_defaults() {
    let c = Config::from_env(&vars(&[
        ("VGL_DATA_DIR", "/opt/vgl/data/"),
        ("VGL_TOKEN", "secret"),
        ("VGL_MAX_NODES", "25"),
        ("VGL_REFRESH_SECONDS", "soon"),
        ("VGL_TUN", "tun7"),
        ("VGL_TUN", "ignored"),
    ]));
    assert_eq!(c.api_token.as_deref(), Some("secret"));
    assert_eq!(c.max_nodes, 25);
    assert_eq!(c.refresh_interval_secs, 1260);
    assert_eq!(c.tunnel_device, "tun7");
    assert_eq!(c.configs_dir(), "/opt/vgl/data/configs");
    assert_eq!(c.auth_file(), "/opt/vgl/data/openvpn_auth.txt");
    assert_eq!(c.state_file(), "/opt/vgl/data/state.json");
    assert_eq!(c.settings_file(), "/opt/vgl/data/settings.json");
}

#[test]
fn blank_token_disables_auth() {
    let c = Config::from_env(&vars(&[("VGL_TOKEN", "  \t ")]));
    assert!(c.api_token.is_none());
    let c = Config::from_env(&vars(&[("VGL_DATA_DIR", "")]));
    assert_eq!(c.configs_dir(), "configs");
}
