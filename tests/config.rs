use wraith::config::{
    default_admin_bind, default_admin_port, default_bind_address, default_health_interval,
    default_health_path, default_health_status, default_health_timeout, default_index_files,
    default_max_connections, default_max_fails, default_port, default_static_root, default_true,
    default_weight, Config, HealthCheckGlobalConfig, LoadBalancingMethod, ProxyConfig,
};

#[test]
fn development_config_values() {
    let c = Config::development();
    assert_eq!(c.server.bind_address, "127.0.0.1");
    assert_eq!(c.server.port, 8080);
    assert_eq!(c.server.max_connections, 1000);
    assert_eq!(c.static_files.root, "./public");
    assert_eq!(c.static_files.index_files, vec!["index.html".to_string(), "index.htm".to_string()]);
    assert_eq!(c.admin.port, 9090);
    assert_eq!(c.proxy.upstreams.len(), 1);
    assert_eq!(c.proxy.upstreams[0].address, "httpbin.org");
    assert_eq!(c.proxy.routes[0].path.as_deref(), Some("/api/"));
    assert_eq!(c.proxy.health_check.path, "/status/200");
    assert_eq!(c.proxy.load_balancing, LoadBalancingMethod::RoundRobin);
}

#[test]
fn default_values() {
    assert_eq!(default_bind_address(), "0.0.0.0");
    assert_eq!(default_port(), 8080);
    assert_eq!(default_max_connections(), 10000);
    assert!(default_true());
    assert_eq!(default_static_root(), "./public");
    assert_eq!(default_index_files().len(), 2);
    assert_eq!(default_admin_bind(), "127.0.0.1");
    assert_eq!(default_admin_port(), 9090);
    assert_eq!(default_weight(), 1);
    assert_eq!(default_max_fails(), 3);
    assert_eq!(default_health_interval(), 30);
    assert_eq!(default_health_timeout(), 5);
    assert_eq!(default_health_path(), "/health");
    assert_eq!(default_health_status(), 200);
}

#[test]
fn default_impls() {
    let p = ProxyConfig::default();
    assert!(!p.enabled);
    assert!(p.upstreams.is_empty());
    let h = HealthCheckGlobalConfig::default();
    assert!(!h.enabled);
    assert_eq!(h.expected_status, 200);
    assert_eq!(LoadBalancingMethod::default(), LoadBalancingMethod::RoundRobin);
    assert_eq!(Config::default().admin.port, 9090);
}
