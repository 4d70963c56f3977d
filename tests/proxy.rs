use wraith::config::{LoadBalancingMethod, ProxyConfig, RouteConfig, UpstreamConfig};
use wraith::proxy::{is_hop_by_hop_header, is_hop_by_hop_lowercase, LoadBalancer, ProxyError, ProxyManager};

fn member(name: &str, weight: u32, max_fails: usize) -> UpstreamConfig {
    UpstreamConfig {
        name: name.to_string(),
        address: format!("{}.internal", name),
        port: 8000,
        weight,
        max_fails,
        enabled: true,
    }
}

fn manager(method: LoadBalancingMethod, members: Vec<UpstreamConfig>) -> ProxyManager {
    let mut config = ProxyConfig::default();
    config.enabled = true;
    config.load_balancing = method;
    config.upstreams = members;
    ProxyManager::new(config, 0)
}

#[test]
fn round_robin_spreads_evenly() {
    let mut m = manager(
        LoadBalancingMethod::RoundRobin,
        vec![member("a", 1, 3), member("b", 1, 3), member("c", 1, 3)],
    );
    let mut counts = [0usize; 3];
    for _ in 0..12 {
        let i = m.select_upstream("*").unwrap();
        counts[i] += 1;
    }
    assert_eq!(counts, [4, 4, 4]);
}

#[test]
fn round_robin_order_follows_the_counter() {
    let mut m = manager(LoadBalancingMethod::RoundRobin, vec![member("a", 1, 3), member("b", 1, 3)]);
    let picks: Vec<usize> = (0..4).map(|_| m.select_upstream("").unwrap()).collect();
    assert_eq!(picks, vec![0, 1, 0, 1]);
}

#[test]
fn ip_hash_falls_back_to_rotation() {
    let mut m = manager(LoadBalancingMethod::IpHash, vec![member("a", 1, 3), member("b", 1, 3)]);
    let picks: Vec<usize> = (0..3).map(|_| m.select_upstream("*").unwrap()).collect();
    assert_eq!(picks, vec![0, 1, 0]);
}

#[test]
fn pinned_name_bypasses_balancing() {
    let mut m = manager(LoadBalancingMethod::RoundRobin, vec![member("a", 1, 3), member("b", 1, 3)]);
    for _ in 0..3 {
        assert_eq!(m.select_upstream("b"), Ok(1));
    }
    // the rotation was not moved by pinned selections
    assert_eq!(m.select_upstream("*"), Ok(0));
}

#[test]
fn unhealthy_pinned_member_falls_back_to_balancing() {
    let mut m = manager(LoadBalancingMethod::RoundRobin, vec![member("a", 1, 1), member("b", 1, 1)]);
    m.record_health_check(1, false, 10);
    assert_eq!(m.select_upstream("b"), Ok(0));
    assert_eq!(m.select_upstream("unknown"), Ok(0));
}

#[test]
fn all_unhealthy_gives_no_healthy_upstream() {
    let mut m = manager(LoadBalancingMethod::RoundRobin, vec![member("a", 1, 1), member("b", 1, 2)]);
    m.record_health_check(0, false, 1);
    m.record_health_check(1, false, 1);
    m.record_health_check(1, false, 2);
    assert_eq!(m.select_upstream("*"), Err(ProxyError::NoHealthyUpstream));
    assert_eq!(m.select_upstream("a"), Err(ProxyError::NoHealthyUpstream));
    assert_eq!(m.begin_forward("*"), Err(ProxyError::NoHealthyUpstream));
    assert_eq!(m.get_stats().total_requests, 0);
}

#[test]
fn empty_pool_gives_no_healthy_upstream() {
    let mut m = manager(LoadBalancingMethod::LeastConnections, vec![]);
    assert_eq!(m.select_upstream("*"), Err(ProxyError::NoHealthyUpstream));
}

#[test]
fn health_goes_down_at_max_fails_and_back_on_success() {
    let mut m = manager(LoadBalancingMethod::RoundRobin, vec![member("a", 1, 3)]);
    m.record_health_check(0, false, 1);
    m.record_health_check(0, false, 2);
    let s = m.get_stats();
    assert!(s.upstreams[0].healthy);
    assert_eq!(s.upstreams[0].current_fails, 2);
    m.record_health_check(0, false, 3);
    let s = m.get_stats();
    assert!(!s.upstreams[0].healthy);
    assert_eq!(s.upstreams[0].current_fails, 3);
    m.record_health_check(0, true, 4);
    let s = m.get_stats();
    assert!(s.upstreams[0].healthy);
    assert_eq!(s.upstreams[0].current_fails, 0);
    assert_eq!(m.upstream_list()[0].last_health_check, 4);
}

#[test]
fn least_connections_takes_the_first_minimum() {
    let mut m = manager(
        LoadBalancingMethod::LeastConnections,
        vec![member("a", 1, 3), member("b", 1, 3), member("c", 1, 3)],
    );
    assert_eq!(m.begin_forward("*"), Ok(0));
    assert_eq!(m.begin_forward("*"), Ok(1));
    assert_eq!(m.begin_forward("*"), Ok(2));
    m.end_forward(1);
    assert_eq!(m.select_upstream("*"), Ok(1));
    m.end_forward(0);
    assert_eq!(m.select_upstream("*"), Ok(0));
}

#[test]
fn weighted_walks_the_weight_slices() {
    let mut m = manager(
        LoadBalancingMethod::Weighted,
        vec![member("a", 2, 3), member("b", 1, 3), member("c", 3, 3)],
    );
    let picks: Vec<usize> = (0..7).map(|_| m.select_upstream("*").unwrap()).collect();
    assert_eq!(picks, vec![0, 0, 1, 2, 2, 2, 0]);
}

#[test]
fn weighted_with_zero_total_takes_the_first() {
    let mut m = manager(LoadBalancingMethod::Weighted, vec![member("a", 0, 3), member("b", 0, 3)]);
    assert_eq!(m.select_upstream("*"), Ok(0));
    assert_eq!(m.select_upstream("*"), Ok(0));
}

#[test]
fn weighted_skips_zero_weights() {
    let mut m = manager(LoadBalancingMethod::Weighted, vec![member("a", 0, 3), member("b", 2, 3)]);
    assert_eq!(m.select_upstream("*"), Ok(1));
    assert_eq!(m.select_upstream("*"), Ok(1));
}

#[test]
fn random_stays_among_healthy_members() {
    let mut m = manager(
        LoadBalancingMethod::Random,
        vec![member("a", 1, 1), member("b", 1, 1), member("c", 1, 1)],
    );
    m.record_health_check(1, false, 0);
    for _ in 0..50 {
        let i = m.select_upstream("*").unwrap();
        assert!(i == 0 || i == 2);
    }
}

#[test]
fn load_balancer_select_directly() {
    let mut lb = LoadBalancer { method: LoadBalancingMethod::RoundRobin, round_robin_counter: 5 };
    assert_eq!(lb.select(&vec![0, 0, 0], &vec![1, 1, 1]), 2);
    assert_eq!(lb.round_robin_counter, 6);
    let mut lc = LoadBalancer { method: LoadBalancingMethod::LeastConnections, round_robin_counter: 7 };
    assert_eq!(lc.select(&vec![4, 2, 2], &vec![1, 1, 1]), 1);
    assert_eq!(lc.round_robin_counter, 7);
    let mut wrap = LoadBalancer { method: LoadBalancingMethod::RoundRobin, round_robin_counter: usize::MAX };
    assert_eq!(wrap.select(&vec![0, 0], &vec![1, 1]), usize::MAX % 2);
    assert_eq!(wrap.round_robin_counter, 0);
}

#[test]
fn forwarding_counts_requests_and_connections() {
    let mut m = manager(LoadBalancingMethod::RoundRobin, vec![member("a", 1, 3), member("b", 1, 3)]);
    let i = m.begin_forward("a").unwrap();
    assert_eq!(i, 0);
    let j = m.begin_forward("a").unwrap();
    let s = m.get_stats();
    assert_eq!(s.total_requests, 2);
    assert_eq!(s.upstreams[0].total_requests, 2);
    assert_eq!(s.upstreams[0].active_connections, 2);
    assert_eq!(s.upstreams[0].name, "a");
    assert_eq!(s.upstreams[0].address, "a.internal");
    assert_eq!(s.upstreams[0].port, 8000);
    m.end_forward(i);
    m.end_forward(j);
    m.end_forward(j);
    let s = m.get_stats();
    assert_eq!(s.upstreams[0].active_connections, 0);
    assert_eq!(s.upstreams[0].total_requests, 2);
}

#[test]
fn configured_routes_match_by_prefix_and_host() {
    let mut config = ProxyConfig::default();
    config.upstreams = vec![member("a", 1, 3)];
    config.routes = vec![
        RouteConfig { host: Some("api.test".to_string()), path: Some("/v1/".to_string()), upstream: "api".to_string() },
        RouteConfig { host: None, path: Some("/api/".to_string()), upstream: "a".to_string() },
        RouteConfig { host: None, path: None, upstream: "fallback".to_string() },
    ];
    let m = ProxyManager::new(config, 0);
    assert_eq!(m.find_matching_route("/v1/x", Some("api.test")).unwrap().upstream, "api");
    assert_eq!(m.find_matching_route("/v1/x", Some("other")).unwrap().upstream, "fallback");
    assert_eq!(m.find_matching_route("/api/users", None).unwrap().upstream, "a");
    assert_eq!(m.find_matching_route("/", None).unwrap().upstream, "fallback");
}

#[test]
fn no_configured_route_matches() {
    let mut config = ProxyConfig::default();
    config.routes = vec![RouteConfig { host: None, path: Some("/api/".to_string()), upstream: "a".to_string() }];
    let m = ProxyManager::new(config, 0);
    assert!(m.find_matching_route("/ap", None).is_none());
}

#[test]
fn hop_by_hop_headers_in_any_case() {
    assert!(is_hop_by_hop_header("Connection"));
    assert!(is_hop_by_hop_header("TRANSFER-ENCODING"));
    assert!(is_hop_by_hop_header("te"));
    assert!(!is_hop_by_hop_header("Content-Type"));
    assert!(!is_hop_by_hop_header("tE-x"));
    assert!(is_hop_by_hop_lowercase("proxy-authenticate"));
    assert!(!is_hop_by_hop_lowercase("Upgrade"));
}

#[test]
fn configured_route_overrides_the_routed_member() {
    let mut config = ProxyConfig::default();
    config.routes = vec![
        RouteConfig { host: None, path: Some("/api/".to_string()), upstream: "api".to_string() },
        RouteConfig { host: None, path: Some("/api/v2/".to_string()), upstream: "v2".to_string() },
    ];
    let m = ProxyManager::new(config, 0);
    assert_eq!(m.resolve_upstream("web", "/api/v2/x", None), "api");
    assert_eq!(m.resolve_upstream("web", "/home", None), "web");
}

#[test]
fn upstream_url_joins_address_port_path_and_query() {
    let m = manager(LoadBalancingMethod::RoundRobin, vec![member("a", 1, 3)]);
    assert_eq!(m.upstream_url(0, "/v1/items", Some("x=1&y=2")), "http://a.internal:8000/v1/items?x=1&y=2");
    assert_eq!(m.upstream_url(0, "/", None), "http://a.internal:8000/");
    let mut c = member("b", 1, 3);
    c.port = 7;
    let m2 = manager(LoadBalancingMethod::RoundRobin, vec![c]);
    assert_eq!(m2.upstream_url(0, "/p", None), "http://b.internal:7/p");
    let mut d = member("c", 1, 3);
    d.port = 65535;
    let m3 = manager(LoadBalancingMethod::RoundRobin, vec![d]);
    assert_eq!(m3.upstream_url(0, "", None), "http://c.internal:65535");
}
