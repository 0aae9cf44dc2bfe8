use vpngate_link::model::{FavoriteSet, GatewaySettings, RouteMode, RuntimeStatus};

#[test]
fn runtime_status_starts_idle() {
    let rt = RuntimeStatus::new("127.0.0.1:19080".into(), "127.0.0.1:18081".into(), true);
    assert!(rt.active_node_id.is_none());
    assert!(!rt.connecting);
    assert_eq!(rt.relay_addr, "127.0.0.1:19080");
    assert_eq!(rt.control_addr, "127.0.0.1:18081");
    assert_eq!(rt.last_message, "starting");
    assert!(rt.last_refresh_at.is_none());
    assert_eq!(rt.node_count, 0);
    assert!(rt.auth_enabled);
}

#[test]
fn default_settings() {
    let s = GatewaySettings::default();
    assert!(s.connection_enabled);
    assert_eq!(s.route_mode, RouteMode::Auto);
    assert!(s.country.is_empty() && s.fixed_node_id.is_empty());
    assert_eq!(s.favorite_node_ids.len(), 0);
    assert!(s.fallback_to_any);
}

#[test]
fn favorites_are_sorted_and_unique() {
    let f = FavoriteSet::from_ids(vec!["b".into(), "a".into(), "b".into(), "Z".into(), "é".into()]);
    assert_eq!(f.to_vec(), vec!["Z", "a", "b", "é"]);
    assert!(f.contains("a") && !f.contains("c"));
}

#[test]
fn toggling_twice_restores_the_favorites() {
    let mut f = FavoriteSet::from_ids(vec!["x".into(), "m".into()]);
    let before = f.to_vec();
    f.toggle("c".into());
    assert_eq!(f.to_vec(), vec!["c", "m", "x"]);
    f.toggle("c".into());
    assert_eq!(f.to_vec(), before);
    f.toggle("m".into());
    assert_eq!(f.to_vec(), vec!["x"]);
    f.toggle("m".into());
    assert_eq!(f.to_vec(), before);
    f.insert("x".into());
    f.remove("nope");
    assert_eq!(f.to_vec(), before);
}
