use wraith::config::{DdosConfig, RateLimitConfig};
use wraith::rate_limiter::{ipv4_key, BlockReason, RateLimitReason, RateLimiter};
use wraith::token_bucket::bucket_params_valid;

fn rate_config(rpm: u32, burst: u32) -> RateLimitConfig {
    RateLimitConfig {
        enabled: true,
        requests_per_minute: rpm,
        burst,
        max_request_size: 1024 * 1024,
        whitelist: vec![],
        blacklist: vec![],
        auto_block_enabled: false,
        block_duration_ms: 300_000,
    }
}

fn ddos_config(enabled: bool, max_conn: u32, rate: u32) -> DdosConfig {
    DdosConfig {
        enabled,
        max_connections_per_ip: max_conn,
        connection_rate_limit: rate,
        packet_rate_limit: 1000,
        window_size_ms: 60_000,
    }
}

#[test]
fn test_rate_limiter_basic() {
    let config = rate_config(60, 10);
    let ddos = ddos_config(false, 100, 10);
    let mut limiter = RateLimiter::new(config, ddos);
    let ip = ipv4_key(192, 168, 1, 1);

    let result = limiter.check_request(ip, None, 0);
    assert!(result.allowed);
    assert!(matches!(result.reason, RateLimitReason::Allowed));
}

#[test]
fn test_whitelist() {
    let mut config = rate_config(1, 1);
    config.whitelist = vec![ipv4_key(192, 168, 1, 1)];
    let ddos = ddos_config(false, 100, 10);
    let mut limiter = RateLimiter::new(config, ddos);
    let ip = ipv4_key(192, 168, 1, 1);

    let result = limiter.check_request(ip, None, 0);
    assert!(result.allowed);
    assert!(matches!(result.reason, RateLimitReason::Whitelisted));
}

#[test]
fn ipv4_key_is_the_mapped_address() {
    assert_eq!(ipv4_key(192, 168, 1, 1), 0xffff_c0a8_0101u128);
    assert_eq!(ipv4_key(0, 0, 0, 0), 0xffff_0000_0000u128);
}

#[test]
fn burst_of_one_allows_one_then_limits() {
    let mut limiter = RateLimiter::new(rate_config(1, 1), ddos_config(false, 100, 10));
    let first = limiter.check_request(ipv4_key(10, 0, 0, 1), None, 0);
    assert!(first.allowed);
    assert_eq!(first.reason, RateLimitReason::Allowed);
    let second = limiter.check_request(ipv4_key(10, 0, 0, 1), None, 0);
    assert!(!second.allowed);
    assert_ne!(second.reason, RateLimitReason::Allowed);
}

#[test]
fn per_address_burst_is_exact() {
    let mut limiter = RateLimiter::new(rate_config(1, 3), ddos_config(false, 100, 10));
    let ip = ipv4_key(10, 0, 0, 2);
    for _ in 0..3 {
        assert!(limiter.check_request(ip, None, 0).allowed);
    }
    let fourth = limiter.check_request(ip, None, 0);
    assert!(!fourth.allowed);
}

#[test]
fn global_bucket_limits_all_addresses() {
    let mut limiter = RateLimiter::new(rate_config(1, 2), ddos_config(false, 100, 10));
    assert!(limiter.check_request(ipv4_key(10, 0, 1, 1), None, 0).allowed);
    assert!(limiter.check_request(ipv4_key(10, 0, 1, 2), None, 0).allowed);
    let third = limiter.check_request(ipv4_key(10, 0, 1, 3), None, 0);
    assert_eq!(third.reason, RateLimitReason::GlobalLimit);
    assert_eq!(third.remaining, Some(0));
}

#[test]
fn whitelisted_burst_is_all_allowed() {
    let mut config = rate_config(1, 1);
    let ip = ipv4_key(192, 168, 1, 1);
    config.whitelist = vec![ip];
    let mut limiter = RateLimiter::new(config, ddos_config(false, 100, 10));
    for _ in 0..10 {
        let r = limiter.check_request(ip, None, 0);
        assert!(r.allowed);
        assert_eq!(r.reason, RateLimitReason::Whitelisted);
    }
}

#[test]
fn blacklisted_is_always_refused() {
    let mut config = rate_config(60, 10);
    let ip = ipv4_key(172, 16, 0, 9);
    config.blacklist = vec![ip];
    let mut limiter = RateLimiter::new(config, ddos_config(false, 100, 10));
    for t in 0..5u64 {
        let r = limiter.check_request(ip, None, t * 1000);
        assert!(!r.allowed);
        assert_eq!(r.reason, RateLimitReason::Blacklisted);
        assert_eq!(r.retry_after, None);
    }
    assert_eq!(limiter.get_stats(0).blocked_ips_count, 0);
}

#[test]
fn disabled_control_allows_everything() {
    let mut config = rate_config(1, 1);
    config.enabled = false;
    let ip = ipv4_key(1, 2, 3, 4);
    config.blacklist = vec![ip];
    let mut limiter = RateLimiter::new(config, ddos_config(false, 100, 10));
    for _ in 0..3 {
        let r = limiter.check_request(ip, Some(usize::MAX), 0);
        assert!(r.allowed);
        assert_eq!(r.reason, RateLimitReason::Allowed);
    }
}

#[test]
fn oversized_request_blocks_for_five_minutes() {
    let mut limiter = RateLimiter::new(rate_config(60, 10), ddos_config(false, 100, 10));
    let ip = ipv4_key(10, 1, 1, 1);
    let r = limiter.check_request(ip, Some(1024 * 1024 + 1), 1_000);
    assert!(!r.allowed);
    assert_eq!(r.reason, RateLimitReason::RateLimit);
    assert_eq!(r.retry_after, Some(300_000));

    let blocked = limiter.check_request(ip, None, 1_000 + 299_999);
    assert_eq!(blocked.reason, RateLimitReason::Blocked);
    assert_eq!(blocked.retry_after, Some(1));

    let later = limiter.check_request(ip, None, 1_000 + 300_000);
    assert!(later.allowed);
    assert_eq!(later.reason, RateLimitReason::Allowed);
    assert_eq!(limiter.get_stats(1_000 + 300_000).blocked_ips_count, 0);
}

#[test]
fn auto_block_follows_a_per_address_refusal() {
    let mut config = rate_config(1, 1);
    config.auto_block_enabled = true;
    config.block_duration_ms = 10_000;
    let mut limiter = RateLimiter::new(config, ddos_config(false, 100, 10));
    let ip = ipv4_key(10, 2, 2, 2);
    let mut limiter_ok = limiter.decide_after_limits(ip, 0, true, true);
    assert!(limiter_ok.allowed);
    limiter_ok = limiter.decide_after_limits(ip, 0, true, false);
    assert_eq!(limiter_ok.reason, RateLimitReason::RateLimit);
    assert_eq!(limiter_ok.retry_after, Some(60_000));
    let stats = limiter.get_stats(0);
    assert_eq!(stats.blocked_ips_count, 1);
    assert_eq!(stats.blocked_ips[0].ip, ip);
    assert_eq!(stats.blocked_ips[0].reason, BlockReason::RateLimit);
    assert_eq!(stats.blocked_ips[0].remaining_secs, 10);
    assert_eq!(stats.blocked_ips[0].block_count, 1);
    let r = limiter.check_request(ip, None, 5_000);
    assert_eq!(r.reason, RateLimitReason::Blocked);
    assert_eq!(r.retry_after, Some(5_000));
}

#[test]
fn decide_after_limits_on_each_answer() {
    let mut limiter = RateLimiter::new(rate_config(60, 10), ddos_config(false, 100, 10));
    let ip = ipv4_key(10, 3, 3, 3);
    let g = limiter.decide_after_limits(ip, 0, false, true);
    assert_eq!(g.reason, RateLimitReason::GlobalLimit);
    assert!(!g.allowed);
    let p = limiter.decide_after_limits(ip, 0, true, false);
    assert_eq!(p.reason, RateLimitReason::RateLimit);
    let a = limiter.decide_after_limits(ip, 0, true, true);
    assert_eq!(a.reason, RateLimitReason::Allowed);
    assert_eq!(a.remaining, None);
    // without automatic blocking nothing was recorded
    assert_eq!(limiter.get_stats(0).blocked_ips_count, 0);
}

#[test]
fn connection_ceiling_blocks_the_address() {
    let mut limiter = RateLimiter::new(rate_config(60, 10), ddos_config(true, 2, 100));
    let ip = ipv4_key(10, 4, 4, 4);
    assert!(limiter.track_connection(ip, true, 0));
    assert!(limiter.track_connection(ip, true, 0));
    assert!(!limiter.track_connection(ip, true, 0));
    let stats = limiter.get_stats(0);
    assert_eq!(stats.blocked_ips[0].reason, BlockReason::TooManyConnections);
    assert_eq!(stats.active_connections_count, 3);
    let r = limiter.check_request(ip, None, 599_999);
    assert_eq!(r.reason, RateLimitReason::Blocked);
    assert_eq!(r.retry_after, Some(1));
    // the block is gone, the connections are still open
    let r2 = limiter.check_request(ip, None, 600_000);
    assert_eq!(r2.reason, RateLimitReason::TooManyConnections);
    assert!(!r2.allowed);
}

#[test]
fn connection_rate_blocks_as_flood() {
    let mut limiter = RateLimiter::new(rate_config(60, 10), ddos_config(true, 100, 2));
    let ip = ipv4_key(10, 5, 5, 5);
    assert!(limiter.track_connection(ip, true, 0));
    assert!(limiter.track_connection(ip, false, 1));
    assert!(limiter.track_connection(ip, true, 2));
    assert!(limiter.track_connection(ip, false, 3));
    assert!(!limiter.track_connection(ip, true, 4));
    let stats = limiter.get_stats(4);
    assert_eq!(stats.blocked_ips[0].reason, BlockReason::DdosDetection);
    assert_eq!(stats.blocked_ips[0].remaining_secs, 1800);
}

#[test]
fn connection_window_forgets_old_connections() {
    let mut limiter = RateLimiter::new(rate_config(60, 10), ddos_config(true, 100, 2));
    let ip = ipv4_key(10, 6, 6, 6);
    assert!(limiter.track_connection(ip, true, 0));
    assert!(limiter.track_connection(ip, true, 10));
    // both earlier ones are more than a minute old now
    assert!(limiter.track_connection(ip, true, 70_011));
    assert!(limiter.track_connection(ip, true, 70_012));
    assert!(!limiter.track_connection(ip, true, 70_013));
}

#[test]
fn disconnect_floors_at_zero() {
    let mut limiter = RateLimiter::new(rate_config(60, 10), ddos_config(true, 1, 100));
    let ip = ipv4_key(10, 7, 7, 7);
    assert!(limiter.track_connection(ip, false, 0));
    assert!(limiter.track_connection(ip, false, 0));
    assert_eq!(limiter.get_stats(0).active_connections_count, 0);
    assert!(limiter.track_connection(ip, true, 0));
    assert_eq!(limiter.get_stats(0).active_connections_count, 1);
}

#[test]
fn tracking_is_off_without_flood_protection() {
    let mut limiter = RateLimiter::new(rate_config(60, 10), ddos_config(false, 1, 1));
    let ip = ipv4_key(10, 8, 8, 8);
    for _ in 0..5 {
        assert!(limiter.track_connection(ip, true, 0));
    }
    assert_eq!(limiter.get_stats(0).active_connections_count, 0);
}

#[test]
fn unblock_of_unknown_address_changes_nothing() {
    let mut limiter = RateLimiter::new(rate_config(60, 10), ddos_config(false, 100, 10));
    let ip = ipv4_key(10, 9, 9, 9);
    assert!(!limiter.unblock_ip(ip, 0));
    assert!(!limiter.unblock_ip(ip, 0));
    assert_eq!(limiter.get_stats(0).blocked_ips_count, 0);
}

#[test]
fn unblock_removes_a_block() {
    let mut limiter = RateLimiter::new(rate_config(60, 10), ddos_config(false, 100, 10));
    let ip = ipv4_key(10, 9, 9, 10);
    limiter.check_request(ip, Some(usize::MAX), 0);
    assert_eq!(limiter.check_request(ip, None, 1).reason, RateLimitReason::Blocked);
    assert!(limiter.unblock_ip(ip, 1));
    assert!(limiter.check_request(ip, None, 2).allowed);
    assert!(!limiter.unblock_ip(ip, 2));
}

#[test]
fn cleanup_purges_expired_blocks_and_idle_trackers() {
    let mut limiter = RateLimiter::new(rate_config(60, 10), ddos_config(true, 100, 100));
    let a = ipv4_key(10, 10, 0, 1);
    let b = ipv4_key(10, 10, 0, 2);
    limiter.check_request(a, Some(usize::MAX), 0);
    limiter.check_request(b, Some(usize::MAX), 200_000);
    limiter.track_connection(a, true, 0);
    limiter.track_connection(a, false, 0);
    limiter.track_connection(b, true, 0);
    limiter.cleanup_expired(300_000);
    let stats = limiter.get_stats(300_000);
    assert_eq!(stats.blocked_ips_count, 1);
    assert_eq!(stats.blocked_ips[0].ip, b);
    assert_eq!(stats.blocked_ips[0].remaining_secs, 200);
    limiter.cleanup_expired(3_600_000);
    let stats = limiter.get_stats(3_600_000);
    assert_eq!(stats.blocked_ips_count, 0);
    // the tracker of `b` holds an open connection and stays
    assert_eq!(stats.active_connections_count, 1);
}

#[test]
fn stats_count_addresses_with_buckets() {
    let mut limiter = RateLimiter::new(rate_config(60, 10), ddos_config(false, 100, 10));
    limiter.check_request(ipv4_key(10, 11, 0, 1), None, 0);
    limiter.check_request(ipv4_key(10, 11, 0, 2), None, 0);
    limiter.check_request(ipv4_key(10, 11, 0, 1), None, 0);
    let stats = limiter.get_stats(0);
    assert_eq!(stats.tracked_ips_count, 2);
    assert_eq!(stats.blocked_ips_count, 0);
    assert!(stats.blocked_ips.is_empty());
}

#[test]
fn unblock_of_run_out_block_changes_nothing() {
    let mut limiter = RateLimiter::new(rate_config(60, 10), ddos_config(false, 100, 10));
    let ip = ipv4_key(10, 9, 9, 11);
    limiter.check_request(ip, Some(usize::MAX), 0);
    // the record ran out at 300 s but has not been purged yet
    assert!(!limiter.unblock_ip(ip, 300_000));
    let stats = limiter.get_stats(300_000);
    assert_eq!(stats.blocked_ips_count, 1);
    assert_eq!(stats.blocked_ips[0].remaining_secs, 0);
    // a still-running block is lifted
    assert!(limiter.unblock_ip(ip, 299_999));
    assert_eq!(limiter.get_stats(0).blocked_ips_count, 0);
}

#[test]
fn bucket_parameters_are_checked() {
    assert!(bucket_params_valid(60, 10));
    assert!(!bucket_params_valid(0, 10));
    assert!(!bucket_params_valid(60, 0));
    // one cell a minute: 6e10 ns per cell; 300 million cells fit, 400 million do not
    assert!(bucket_params_valid(1, 300_000_000));
    assert!(!bucket_params_valid(1, 400_000_000));
    assert!(bucket_params_valid(u32::MAX, u32::MAX));
}
