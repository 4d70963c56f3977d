//! Admission control: per-address and global token buckets, address lists,
//! time-bounded blocks and connection tracking.
//!
//! Clients are identified by a 128-bit key: an IPv6 address as its 128-bit
//! value, an IPv4 address in its IPv4-mapped IPv6 form (`ipv4_key`). Times
//! and durations are milliseconds on a monotonic clock chosen by the caller.

use vstd::prelude::*;
use crate::config::{DdosConfig, RateLimitConfig};
use crate::ip_table::IpTable;
use crate::token_bucket::{bucket_params_ok, TokenBucket};

verus! {

/// How long an oversized request blocks its sender.
pub const OVERSIZE_BLOCK_MS: u64 = 300_000;

/// Suggested retry after a global or per-address limit, or a connection excess.
pub const LIMIT_RETRY_MS: u64 = 60_000;

/// How long exceeding the connection ceiling blocks the address.
pub const CONNECTION_BLOCK_MS: u64 = 600_000;

/// How long exceeding the connection rate blocks the address.
pub const FLOOD_BLOCK_MS: u64 = 1_800_000;

/// The sliding window of connection times.
pub const CONNECTION_WINDOW_MS: u64 = 60_000;

/// A tracker with no open connection and no activity for this long is dropped.
pub const TRACKER_IDLE_MS: u64 = 3_600_000;

/// Above this many per-address buckets the whole table is cleared.
pub const MAX_TRACKED_BUCKETS: usize = 10_000;

/// Why an address was blocked.
#[derive(Clone, Copy, Debug, PartialEq, Eq, Structural)]
pub enum BlockReason {
    RateLimit,
    TooManyConnections,
    DdosDetection,
    Blacklisted,
}

/// An active (or expired, not yet purged) block of one address.
#[derive(Clone, Copy, Debug, PartialEq, Eq, Structural)]
pub struct BlockedClient {
    pub blocked_until: u64,
    pub reason: BlockReason,
    pub block_count: u32,
}

/// Connections of one address: how many are open, when the last one came,
/// and the times of the recent ones.
pub struct ConnectionTracker {
    pub active_connections: u32,
    pub last_connection: u64,
    pub connection_rate: Vec<u64>,
}

/// What a `ConnectionTracker` holds, as plain values.
pub struct TrackerView {
    pub active: u32,
    pub last: u64,
    pub times: Seq<u64>,
}

impl View for ConnectionTracker {
    type V = TrackerView;

    open spec fn view(&self) -> TrackerView {
        TrackerView {
            active: self.active_connections,
            last: self.last_connection,
            times: self.connection_rate@,
        }
    }
}

/// The outcome kind of an admission check.
#[derive(Clone, Copy, Debug, PartialEq, Eq, Structural)]
pub enum RateLimitReason {
    Allowed,
    RateLimit,
    GlobalLimit,
    Blocked,
    TooManyConnections,
    Blacklisted,
    Whitelisted,
}

/// An admission decision, with a retry hint in milliseconds.
#[derive(Clone, Copy, Debug, PartialEq, Eq, Structural)]
pub struct RateLimitResult {
    pub allowed: bool,
    pub reason: RateLimitReason,
    pub retry_after: Option<u64>,
    pub remaining: Option<u32>,
}

/// One blocked address as reported by `get_stats`.
#[derive(Clone, Copy, Debug, PartialEq, Eq, Structural)]
pub struct BlockedIpInfo {
    pub ip: u128,
    pub remaining_secs: u64,
    pub reason: BlockReason,
    pub block_count: u32,
}

/// Counters of the admission controller.
pub struct RateLimiterStats {
    pub blocked_ips_count: usize,
    pub tracked_ips_count: usize,
    pub active_connections_count: u64,
    pub blocked_ips: Vec<BlockedIpInfo>,
}

/// The admission controller.
pub struct RateLimiter {
    config: RateLimitConfig,
    ddos_config: DdosConfig,
    global_limiter: Option<TokenBucket>,
    per_ip_limiters: IpTable<TokenBucket>,
    blocked_ips: IpTable<BlockedClient>,
    connection_counts: IpTable<ConnectionTracker>,
}

/// The key of an IPv4 address `a.b.c.d`: its IPv4-mapped IPv6 form.
pub open spec fn ipv4_key_spec(a: u8, b: u8, c: u8, d: u8) -> int {
    0xffff_0000_0000 + a * 0x100_0000 + b * 0x1_0000 + c * 0x100 + d
}

pub fn ipv4_key(a: u8, b: u8, c: u8, d: u8) -> (r: u128)
    ensures
        r == ipv4_key_spec(a, b, c, d),
{
    0xffff_0000_0000u128 + (a as u128) * 0x100_0000 + (b as u128) * 0x1_0000 + (c as u128) * 0x100
        + (d as u128)
}

/// `now + d`, held at the largest time.
pub open spec fn deadline(now: u64, d: u64) -> u64 {
    if now + d > u64::MAX {
        u64::MAX
    } else {
        (now + d) as u64
    }
}

pub open spec fn sat_inc(n: u32) -> u32 {
    if n == u32::MAX {
        n
    } else {
        (n + 1) as u32
    }
}

pub open spec fn sat_dec(n: u32) -> u32 {
    if n == 0 {
        0
    } else {
        (n - 1) as u32
    }
}

/// The record that blocking `ip` at `now` for `d` leaves: the count goes up
/// by one over a record still present.
pub open spec fn next_block(
    blocks: Map<u128, BlockedClient>,
    ip: u128,
    now: u64,
    reason: BlockReason,
    d: u64,
) -> BlockedClient {
    BlockedClient {
        blocked_until: deadline(now, d),
        reason,
        block_count: if blocks.contains_key(ip) {
            sat_inc(blocks[ip].block_count)
        } else {
            1
        },
    }
}

pub open spec fn admitted(reason: RateLimitReason) -> RateLimitResult {
    RateLimitResult { allowed: true, reason, retry_after: None, remaining: None }
}

pub open spec fn denied(reason: RateLimitReason, retry: Option<u64>) -> RateLimitResult {
    RateLimitResult { allowed: false, reason, retry_after: retry, remaining: Some(0) }
}

/// The window of connection times after a connection at `now`: the old
/// times and `now`, less those more than the window before `now`.
pub open spec fn window_after(times: Seq<u64>, now: u64) -> Seq<u64> {
    times.push(now).filter(|t: u64| in_window(t, now))
}

/// Whether a connection at `t` lies within the window before `now`.
pub open spec fn in_window(t: u64, now: u64) -> bool {
    now <= t + CONNECTION_WINDOW_MS
}

/// Whether cleanup at `now` keeps a tracker.
pub open spec fn tracker_kept(t: TrackerView, now: u64) -> bool {
    t.active > 0 || now < t.last + TRACKER_IDLE_MS
}

fn make_result(allowed: bool, reason: RateLimitReason, retry_after: Option<u64>) -> (r:
    RateLimitResult)
    ensures
        r == (if allowed {
            admitted(reason)
        } else {
            denied(reason, retry_after)
        }),
{
    if allowed {
        RateLimitResult { allowed: true, reason, retry_after: None, remaining: None }
    } else {
        RateLimitResult { allowed: false, reason, retry_after, remaining: Some(0) }
    }
}

fn list_contains(list: &Vec<u128>, ip: u128) -> (r: bool)
    ensures
        r == list@.contains(ip),
{
    let mut i: usize = 0;
    while i < list.len()
        invariant
            i <= list@.len(),
            forall|j: int| 0 <= j < i ==> list@[j] != ip,
        decreases list@.len() - i,
    {
        if list[i] == ip {
            return true;
        }
        i = i + 1;
    }
    false
}

/// The sum of open connections over tracker entries.
pub open spec fn active_total(s: Seq<(u128, ConnectionTracker)>) -> int
    decreases s.len(),
{
    if s.len() == 0 {
        0
    } else {
        active_total(s.drop_last()) + s.last().1.active_connections
    }
}

/// A total held at the largest `u64`.
pub open spec fn capped_total(n: int) -> u64 {
    if n > u64::MAX {
        u64::MAX
    } else {
        n as u64
    }
}

/// How `get_stats` reports one block record at `now`.
pub open spec fn block_info(e: (u128, BlockedClient), now: u64) -> BlockedIpInfo {
    BlockedIpInfo {
        ip: e.0,
        remaining_secs: if e.1.blocked_until > now {
            ((e.1.blocked_until - now) / 1000) as u64
        } else {
            0
        },
        reason: e.1.reason,
        block_count: e.1.block_count,
    }
}

/// The times of `times` that lie within the window before `now`.
fn recent_times(times: &Vec<u64>, now: u64) -> (r: Vec<u64>)
    ensures
        r@ == times@.filter(|t: u64| in_window(t, now)),
{
    let ghost keep = |t: u64| in_window(t, now);
    let mut out: Vec<u64> = Vec::new();
    let mut i: usize = 0;
    while i < times.len()
        invariant
            i <= times@.len(),
            keep == (|t: u64| in_window(t, now)),
            out@ == times@.take(i as int).filter(keep),
        decreases times@.len() - i,
    {
        let t = times[i];
        let ghost prev = times@.take(i as int);
        let keep_t = now <= t || now - t <= CONNECTION_WINDOW_MS;
        proof {
            assert(keep_t == in_window(t, now));
            assert(times@.take(i as int + 1) =~= prev.push(t));
            prev.lemma_filter_push(t, keep);
        }
        if keep_t {
            out.push(t);
        }
        i = i + 1;
    }
    proof {
        assert(times@.take(times@.len() as int) =~= times@);
    }
    out
}

impl RateLimiter {
    pub closed spec fn rate_config(&self) -> RateLimitConfig {
        self.config
    }

    pub closed spec fn ddos(&self) -> DdosConfig {
        self.ddos_config
    }

    /// The block records by address.
    pub closed spec fn blocks(&self) -> Map<u128, BlockedClient> {
        self.blocked_ips@
    }

    /// The connection trackers by address.
    pub closed spec fn trackers(&self) -> Map<u128, TrackerView> {
        self.connection_counts@.map_values(|t: ConnectionTracker| t@)
    }

    /// The per-address buckets.
    pub closed spec fn buckets(&self) -> Map<u128, TokenBucket> {
        self.per_ip_limiters@
    }

    /// The addresses that hold a bucket of their own.
    pub open spec fn limited_ips(&self) -> Set<u128> {
        self.buckets().dom()
    }

    /// Whether no check has yet reached the global bucket, which is made,
    /// full, on first use.
    pub closed spec fn global_fresh(&self) -> bool {
        self.global_limiter is None
    }

    pub closed spec fn wf(&self) -> bool {
        &&& self.per_ip_limiters.wf()
        &&& self.blocked_ips.wf()
        &&& self.connection_counts.wf()
        &&& bucket_params_ok(self.config.requests_per_minute, self.config.burst)
    }

    pub open spec fn whitelisted(&self, ip: u128) -> bool {
        self.rate_config().whitelist@.contains(ip)
    }

    pub open spec fn blacklisted(&self, ip: u128) -> bool {
        self.rate_config().blacklist@.contains(ip)
    }

    /// Whether a block record of `ip` is still running at `now`.
    pub open spec fn block_active(&self, ip: u128, now: u64) -> bool {
        self.blocks().contains_key(ip) && now < self.blocks()[ip].blocked_until
    }

    /// Whether a check of `ip` at `now` gets past the lists, the block
    /// records and the size limit, to the token buckets.
    pub open spec fn reaches_buckets(&self, ip: u128, size: Option<usize>, now: u64) -> bool {
        &&& self.rate_config().enabled
        &&& !self.whitelisted(ip)
        &&& !self.blacklisted(ip)
        &&& !self.block_active(ip, now)
        &&& !(size matches Some(s) && s > self.rate_config().max_request_size)
    }

    /// What a check of `ip` at `now` decides once the global bucket said
    /// `global_ok` and the bucket of `ip` said `per_ip_ok`.
    pub open spec fn limits_result(&self, ip: u128, global_ok: bool, per_ip_ok: bool) -> RateLimitResult {
        if !global_ok {
            denied(RateLimitReason::GlobalLimit, Some(LIMIT_RETRY_MS))
        } else if !per_ip_ok {
            denied(RateLimitReason::RateLimit, Some(LIMIT_RETRY_MS))
        } else if self.ddos().enabled && self.trackers().contains_key(ip)
            && self.trackers()[ip].active > self.ddos().max_connections_per_ip {
            denied(RateLimitReason::TooManyConnections, Some(LIMIT_RETRY_MS))
        } else {
            admitted(RateLimitReason::Allowed)
        }
    }

    /// The block records after that decision.
    pub open spec fn limits_blocks(&self, ip: u128, now: u64, global_ok: bool, per_ip_ok: bool) -> Map<
        u128,
        BlockedClient,
    > {
        if global_ok && !per_ip_ok && self.rate_config().auto_block_enabled {
            self.blocks().insert(
                ip,
                next_block(
                    self.blocks(),
                    ip,
                    now,
                    BlockReason::RateLimit,
                    self.rate_config().block_duration_ms,
                ),
            )
        } else {
            self.blocks()
        }
    }

    /// The decision of a check of `ip` at `now` with a body of `size`, where
    /// the buckets answer `global_ok` and `per_ip_ok`.
    pub open spec fn admission_result(
        &self,
        ip: u128,
        size: Option<usize>,
        now: u64,
        global_ok: bool,
        per_ip_ok: bool,
    ) -> RateLimitResult {
        if !self.rate_config().enabled {
            admitted(RateLimitReason::Allowed)
        } else if self.whitelisted(ip) {
            admitted(RateLimitReason::Whitelisted)
        } else if self.blacklisted(ip) {
            denied(RateLimitReason::Blacklisted, None)
        } else if self.block_active(ip, now) {
            denied(RateLimitReason::Blocked, Some((self.blocks()[ip].blocked_until - now) as u64))
        } else if size matches Some(s) && s > self.rate_config().max_request_size {
            denied(RateLimitReason::RateLimit, Some(OVERSIZE_BLOCK_MS))
        } else {
            self.limits_result(ip, global_ok, per_ip_ok)
        }
    }

    /// The block records after that check.
    pub open spec fn admission_blocks(
        &self,
        ip: u128,
        size: Option<usize>,
        now: u64,
        global_ok: bool,
        per_ip_ok: bool,
    ) -> Map<u128, BlockedClient> {
        let purged = self.blocks().remove(ip);
        if !self.rate_config().enabled || self.whitelisted(ip) || self.blacklisted(ip)
            || self.block_active(ip, now) {
            self.blocks()
        } else if size matches Some(s) && s > self.rate_config().max_request_size {
            purged.insert(ip, next_block(purged, ip, now, BlockReason::RateLimit, OVERSIZE_BLOCK_MS))
        } else if global_ok && !per_ip_ok && self.rate_config().auto_block_enabled {
            purged.insert(
                ip,
                next_block(
                    purged,
                    ip,
                    now,
                    BlockReason::RateLimit,
                    self.rate_config().block_duration_ms,
                ),
            )
        } else {
            purged
        }
    }

    /// Whether `after` is what a check of `ip` at `now` leaves of the
    /// per-address buckets: where the check reaches them and the global
    /// bucket grants, `ip` has a bucket (its old one, if it had one) and the
    /// others are untouched; otherwise nothing changes.
    pub open spec fn buckets_after(
        &self,
        after: Map<u128, TokenBucket>,
        ip: u128,
        size: Option<usize>,
        now: u64,
        global_ok: bool,
    ) -> bool {
        if self.reaches_buckets(ip, size, now) && global_ok {
            &&& after.contains_key(ip)
            &&& after.remove(ip) == self.buckets().remove(ip)
            &&& self.buckets().contains_key(ip) ==> after == self.buckets()
        } else {
            after == self.buckets()
        }
    }

    /// A controller with empty state. The bucket parameters must admit a
    /// bucket (`bucket_params_valid` tests them).
    pub fn new(rate_config: RateLimitConfig, ddos_config: DdosConfig) -> (r: Self)
        requires
            bucket_params_ok(rate_config.requests_per_minute, rate_config.burst),
        ensures
            r.wf(),
            r.rate_config() == rate_config,
            r.ddos() == ddos_config,
            r.blocks() == Map::<u128, BlockedClient>::empty(),
            r.trackers() == Map::<u128, TrackerView>::empty(),
            r.buckets() == Map::<u128, TokenBucket>::empty(),
            r.global_fresh(),
    {
        let r = RateLimiter {
            config: rate_config,
            ddos_config,
            global_limiter: None,
            per_ip_limiters: IpTable::new(),
            blocked_ips: IpTable::new(),
            connection_counts: IpTable::new(),
        };
        assert(r.trackers() =~= Map::<u128, TrackerView>::empty());
        r
    }

    fn is_whitelisted(&self, ip: u128) -> (r: bool)
        ensures
            r == self.whitelisted(ip),
    {
        list_contains(&self.config.whitelist, ip)
    }

    fn is_blacklisted(&self, ip: u128) -> (r: bool)
        ensures
            r == self.blacklisted(ip),
    {
        list_contains(&self.config.blacklist, ip)
    }

    /// Records a block of `ip` from `now` for `duration` milliseconds.
    fn block_ip(&mut self, ip: u128, reason: BlockReason, duration: u64, now: u64)
        requires
            old(self).wf(),
        ensures
            final(self).wf(),
            final(self).blocks() == old(self).blocks().insert(
                ip,
                next_block(old(self).blocks(), ip, now, reason, duration),
            ),
            final(self).trackers() == old(self).trackers(),
            final(self).buckets() == old(self).buckets(),
            final(self).global_fresh() == old(self).global_fresh(),
            final(self).rate_config() == old(self).rate_config(),
            final(self).ddos() == old(self).ddos(),
    {
        let blocked_until = now.saturating_add(duration);
        let block_count: u32 = match self.blocked_ips.get(ip) {
            Some(existing) => existing.block_count.saturating_add(1),
            None => 1,
        };
        self.blocked_ips.insert(ip, BlockedClient { blocked_until, reason, block_count });
    }

    /// Looks up the block record of `ip`: a running one gives a `Blocked`
    /// decision, an expired one is deleted.
    fn check_blocked_ip(&mut self, ip: u128, now: u64) -> (r: Option<RateLimitResult>)
        requires
            old(self).wf(),
        ensures
            final(self).wf(),
            old(self).block_active(ip, now) ==> r == Some(
                denied(
                    RateLimitReason::Blocked,
                    Some((old(self).blocks()[ip].blocked_until - now) as u64),
                ),
            ) && final(self).blocks() == old(self).blocks(),
            !old(self).block_active(ip, now) ==> r is None && final(self).blocks() == old(
                self,
            ).blocks().remove(ip),
            final(self).trackers() == old(self).trackers(),
            final(self).buckets() == old(self).buckets(),
            final(self).global_fresh() == old(self).global_fresh(),
            final(self).rate_config() == old(self).rate_config(),
            final(self).ddos() == old(self).ddos(),
    {
        match self.blocked_ips.get(ip) {
            Some(blocked) => {
                if now < blocked.blocked_until {
                    let retry = blocked.blocked_until - now;
                    return Some(make_result(false, RateLimitReason::Blocked, Some(retry)));
                }
            },
            None => {},
        }
        self.blocked_ips.remove(ip);
        None
    }

    /// Takes a cell from the bucket of `ip`, creating the bucket on first
    /// sight of the address.
    fn check_per_ip_limit(&mut self, ip: u128) -> (r: bool)
        requires
            old(self).wf(),
        ensures
            final(self).wf(),
            final(self).buckets().contains_key(ip),
            final(self).buckets().remove(ip) == old(self).buckets().remove(ip),
            old(self).buckets().contains_key(ip) ==> final(self).buckets() == old(self).buckets(),
            !old(self).buckets().contains_key(ip) ==> r,
            final(self).global_fresh() == old(self).global_fresh(),
            final(self).blocks() == old(self).blocks(),
            final(self).trackers() == old(self).trackers(),
            final(self).rate_config() == old(self).rate_config(),
            final(self).ddos() == old(self).ddos(),
    {
        match self.per_ip_limiters.get(ip) {
            Some(bucket) => bucket.check(),
            None => {
                let (bucket, ok) = TokenBucket::new_taking_first(
                    self.config.requests_per_minute,
                    self.config.burst,
                );
                self.per_ip_limiters.insert(ip, bucket);
                assert(self.buckets().remove(ip) =~= old(self).buckets().remove(ip));
                ok
            },
        }
    }

    /// Whether open connections of `ip` are over the ceiling.
    fn over_connection_ceiling(&self, ip: u128) -> (r: bool)
        requires
            self.wf(),
        ensures
            r == (self.trackers().contains_key(ip) && self.trackers()[ip].active
                > self.ddos().max_connections_per_ip),
    {
        match self.connection_counts.get(ip) {
            Some(tracker) => tracker.active_connections > self.ddos_config.max_connections_per_ip,
            None => false,
        }
    }

    /// The decision once the global bucket answered `global_ok` and the
    /// bucket of `ip` answered `per_ip_ok`: a refusal by the bucket of `ip`
    /// blocks the address where automatic blocking is on.
    pub fn decide_after_limits(&mut self, ip: u128, now: u64, global_ok: bool, per_ip_ok: bool) -> (r:
        RateLimitResult)
        requires
            old(self).wf(),
        ensures
            final(self).wf(),
            r == old(self).limits_result(ip, global_ok, per_ip_ok),
            final(self).blocks() == old(self).limits_blocks(ip, now, global_ok, per_ip_ok),
            final(self).trackers() == old(self).trackers(),
            final(self).buckets() == old(self).buckets(),
            final(self).global_fresh() == old(self).global_fresh(),
            final(self).rate_config() == old(self).rate_config(),
            final(self).ddos() == old(self).ddos(),
    {
        if !global_ok {
            return make_result(false, RateLimitReason::GlobalLimit, Some(LIMIT_RETRY_MS));
        }
        if !per_ip_ok {
            if self.config.auto_block_enabled {
                let d = self.config.block_duration_ms;
                self.block_ip(ip, BlockReason::RateLimit, d, now);
            }
            return make_result(false, RateLimitReason::RateLimit, Some(LIMIT_RETRY_MS));
        }
        if self.ddos_config.enabled && self.over_connection_ceiling(ip) {
            return make_result(false, RateLimitReason::TooManyConnections, Some(LIMIT_RETRY_MS));
        }
        make_result(true, RateLimitReason::Allowed, None)
    }

    /// Decides whether a request of `request_size` bytes from `ip` at `now`
    /// is admitted. The lists, the block records and the size limit are
    /// applied first; then the global bucket and the bucket of `ip`, whose
    /// answers depend on the clock: the decision is the one that
    /// `admission_result` gives for what they answered.
    pub fn check_request(&mut self, client_ip: u128, request_size: Option<usize>, now: u64) -> (r:
        RateLimitResult)
        requires
            old(self).wf(),
        ensures
            final(self).wf(),
            exists|global_ok: bool, per_ip_ok: bool|
                {
                    &&& r == old(self).admission_result(
                        client_ip,
                        request_size,
                        now,
                        global_ok,
                        per_ip_ok,
                    )
                    &&& final(self).blocks() == old(self).admission_blocks(
                        client_ip,
                        request_size,
                        now,
                        global_ok,
                        per_ip_ok,
                    )
                    &&& old(self).buckets_after(
                        final(self).buckets(),
                        client_ip,
                        request_size,
                        now,
                        global_ok,
                    )
                    &&& old(self).global_fresh() ==> global_ok
                    &&& !old(self).buckets().contains_key(client_ip) ==> per_ip_ok
                },
            final(self).global_fresh() == (old(self).global_fresh() && !old(self).reaches_buckets(
                client_ip,
                request_size,
                now,
            )),
            final(self).trackers() == old(self).trackers(),
            final(self).rate_config() == old(self).rate_config(),
            final(self).ddos() == old(self).ddos(),
    {
        if !self.config.enabled {
            let r = make_result(true, RateLimitReason::Allowed, None);
            assert(r == old(self).admission_result(client_ip, request_size, now, true, true));
            return r;
        }
        if self.is_whitelisted(client_ip) {
            let r = make_result(true, RateLimitReason::Whitelisted, None);
            assert(r == old(self).admission_result(client_ip, request_size, now, true, true));
            return r;
        }
        if self.is_blacklisted(client_ip) {
            let r = make_result(false, RateLimitReason::Blacklisted, None);
            assert(r == old(self).admission_result(client_ip, request_size, now, true, true));
            return r;
        }
        match self.check_blocked_ip(client_ip, now) {
            Some(r) => {
                assert(r == old(self).admission_result(client_ip, request_size, now, true, true));
                return r;
            },
            None => {},
        }
        match request_size {
            Some(size) => {
                if size > self.config.max_request_size {
                    self.block_ip(client_ip, BlockReason::RateLimit, OVERSIZE_BLOCK_MS, now);
                    let r = make_result(false, RateLimitReason::RateLimit, Some(OVERSIZE_BLOCK_MS));
                    assert(r == old(self).admission_result(client_ip, request_size, now, true, true));
                    assert(self.blocks() == old(self).admission_blocks(client_ip, request_size, now, true, true));
                    assert(old(self).buckets_after(self.buckets(), client_ip, request_size, now, true));
                    return r;
                }
            },
            None => {},
        }
        let global_ok = match &self.global_limiter {
            Some(bucket) => bucket.check(),
            None => {
                let (bucket, ok) = TokenBucket::new_taking_first(
                    self.config.requests_per_minute,
                    self.config.burst,
                );
                self.global_limiter = Some(bucket);
                ok
            },
        };
        if !global_ok {
            let r = self.decide_after_limits(client_ip, now, false, true);
            assert(r == old(self).admission_result(client_ip, request_size, now, false, true));
            assert(self.blocks() == old(self).admission_blocks(client_ip, request_size, now, false, true));
            assert(old(self).buckets_after(self.buckets(), client_ip, request_size, now, false));
            return r;
        }
        let per_ip_ok = self.check_per_ip_limit(client_ip);
        let r = self.decide_after_limits(client_ip, now, true, per_ip_ok);
        assert(r == old(self).admission_result(client_ip, request_size, now, true, per_ip_ok));
        assert(self.blocks() == old(self).admission_blocks(client_ip, request_size, now, true, per_ip_ok));
        assert(old(self).buckets_after(self.buckets(), client_ip, request_size, now, true));
        r
    }

    /// The tracker of `ip` as a connection event at `now` finds it.
    pub open spec fn tracker_before(&self, ip: u128, now: u64) -> TrackerView {
        if self.trackers().contains_key(ip) {
            self.trackers()[ip]
        } else {
            TrackerView { active: 0, last: now, times: Seq::empty() }
        }
    }

    /// The tracker of `ip` after a connection (`connected`) or a
    /// disconnection at `now`.
    pub open spec fn tracker_after(&self, ip: u128, connected: bool, now: u64) -> TrackerView {
        let t = self.tracker_before(ip, now);
        if connected {
            TrackerView { active: sat_inc(t.active), last: now, times: window_after(t.times, now) }
        } else {
            TrackerView { active: sat_dec(t.active), last: t.last, times: t.times }
        }
    }

    /// Whether the connection event is let through.
    pub open spec fn track_result(&self, ip: u128, connected: bool, now: u64) -> bool {
        let t = self.tracker_after(ip, connected, now);
        !self.ddos().enabled || !connected || (t.active <= self.ddos().max_connections_per_ip
            && t.times.len() <= self.ddos().connection_rate_limit)
    }

    /// The block records after the connection event.
    pub open spec fn track_blocks(&self, ip: u128, connected: bool, now: u64) -> Map<u128, BlockedClient> {
        let t = self.tracker_after(ip, connected, now);
        if !self.ddos().enabled || !connected {
            self.blocks()
        } else if t.active > self.ddos().max_connections_per_ip {
            self.blocks().insert(
                ip,
                next_block(self.blocks(), ip, now, BlockReason::TooManyConnections, CONNECTION_BLOCK_MS),
            )
        } else if t.times.len() > self.ddos().connection_rate_limit {
            self.blocks().insert(
                ip,
                next_block(self.blocks(), ip, now, BlockReason::DdosDetection, FLOOD_BLOCK_MS),
            )
        } else {
            self.blocks()
        }
    }

    /// The trackers after the connection event.
    pub open spec fn track_trackers(&self, ip: u128, connected: bool, now: u64) -> Map<u128, TrackerView> {
        if !self.ddos().enabled {
            self.trackers()
        } else {
            self.trackers().insert(ip, self.tracker_after(ip, connected, now))
        }
    }

    /// Records that `client_ip` opened (`connected`) or closed a connection
    /// at `now`. An opening over the connection ceiling, or over the
    /// connection rate within the window, blocks the address and is refused.
    pub fn track_connection(&mut self, client_ip: u128, connected: bool, now: u64) -> (r: bool)
        requires
            old(self).wf(),
        ensures
            final(self).wf(),
            r == old(self).track_result(client_ip, connected, now),
            final(self).blocks() == old(self).track_blocks(client_ip, connected, now),
            final(self).trackers() == old(self).track_trackers(client_ip, connected, now),
            final(self).buckets() == old(self).buckets(),
            final(self).global_fresh() == old(self).global_fresh(),
            final(self).rate_config() == old(self).rate_config(),
            final(self).ddos() == old(self).ddos(),
    {
        if !self.ddos_config.enabled {
            return true;
        }
        let ghost before = old(self).tracker_before(client_ip, now);
        let ghost after = old(self).tracker_after(client_ip, connected, now);
        let mut tracker = match self.connection_counts.remove(client_ip) {
            Some(t) => t,
            None => ConnectionTracker {
                active_connections: 0,
                last_connection: now,
                connection_rate: Vec::new(),
            },
        };
        assert(tracker@ == before);
        if connected {
            tracker.active_connections = tracker.active_connections.saturating_add(1);
            tracker.last_connection = now;
            let mut times = tracker.connection_rate;
            times.push(now);
            tracker.connection_rate = recent_times(&times, now);
        } else {
            tracker.active_connections = tracker.active_connections.saturating_sub(1);
        }
        assert(tracker@ == after);
        let active = tracker.active_connections;
        let rate_len = tracker.connection_rate.len();
        self.connection_counts.insert(client_ip, tracker);
        proof {
            assert(self.trackers() =~= old(self).trackers().insert(client_ip, after));
        }
        if connected {
            if active > self.ddos_config.max_connections_per_ip {
                self.block_ip(client_ip, BlockReason::TooManyConnections, CONNECTION_BLOCK_MS, now);
                return false;
            }
            if rate_len > self.ddos_config.connection_rate_limit as usize {
                self.block_ip(client_ip, BlockReason::DdosDetection, FLOOD_BLOCK_MS, now);
                return false;
            }
        }
        true
    }

    /// Purges block records that ran out by `now`, trackers idle for an
    /// hour with no open connection, and, above the cap, every per-address
    /// bucket (they are made again on demand).
    pub fn cleanup_expired(&mut self, now: u64)
        requires
            old(self).wf(),
        ensures
            final(self).wf(),
            final(self).blocks() == old(self).blocks().restrict(
                old(self).blocks().dom().filter(|k: u128| now < old(self).blocks()[k].blocked_until),
            ),
            final(self).trackers() == old(self).trackers().restrict(
                old(self).trackers().dom().filter(|k: u128| tracker_kept(old(self).trackers()[k], now)),
            ),
            final(self).buckets() == (if old(self).limited_ips().len() > MAX_TRACKED_BUCKETS {
                Map::<u128, TokenBucket>::empty()
            } else {
                old(self).buckets()
            }),
            final(self).global_fresh() == old(self).global_fresh(),
            final(self).rate_config() == old(self).rate_config(),
            final(self).ddos() == old(self).ddos(),
    {
        let keep_block = |_k: u128, b: &BlockedClient| -> (keep: bool)
            ensures
                keep == (now < b.blocked_until),
            { now < b.blocked_until };
        self.blocked_ips.retain(keep_block, Ghost(|k: u128, b: BlockedClient| now < b.blocked_until));
        let keep_tracker = |_k: u128, t: &ConnectionTracker| -> (keep: bool)
            ensures
                keep == tracker_kept(t@, now),
            {
                t.active_connections > 0 || now < t.last_connection || now - t.last_connection
                    < TRACKER_IDLE_MS
            };
        self.connection_counts.retain(keep_tracker, Ghost(|k: u128, t: ConnectionTracker| tracker_kept(t@, now)));
        proof {
            let tv = old(self).trackers();
            assert(self.trackers() =~= tv.restrict(tv.dom().filter(|k: u128| tracker_kept(tv[k], now))));
        }
        if self.per_ip_limiters.len() > MAX_TRACKED_BUCKETS {
            self.per_ip_limiters.clear();
            assert(self.buckets() =~= Map::<u128, TokenBucket>::empty());
        }
    }

    /// The block records in the order in which the controller holds them.
    pub closed spec fn block_entries(&self) -> Seq<(u128, BlockedClient)> {
        self.blocked_ips.items()
    }

    /// The connection trackers in the order in which the controller holds them.
    pub closed spec fn tracker_entries(&self) -> Seq<(u128, ConnectionTracker)> {
        self.connection_counts.items()
    }

    /// The entry sequences list the pairs of the maps, each address once.
    pub proof fn lemma_entries(&self)
        requires
            self.wf(),
        ensures
            forall|i: int, j: int|
                0 <= i < self.block_entries().len() && 0 <= j < self.block_entries().len() && i != j
                    ==> self.block_entries()[i].0 != self.block_entries()[j].0,
            forall|i: int| #![trigger self.block_entries()[i]]
                0 <= i < self.block_entries().len() ==> self.blocks().contains_key(self.block_entries()[i].0)
                    && self.blocks()[self.block_entries()[i].0] == self.block_entries()[i].1,
            forall|k: u128| #[trigger]
                self.blocks().contains_key(k) ==> exists|i: int|
                    0 <= i < self.block_entries().len() && self.block_entries()[i].0 == k,
            forall|i: int, j: int|
                0 <= i < self.tracker_entries().len() && 0 <= j < self.tracker_entries().len() && i != j
                    ==> self.tracker_entries()[i].0 != self.tracker_entries()[j].0,
            forall|i: int| #![trigger self.tracker_entries()[i]]
                0 <= i < self.tracker_entries().len() ==> self.trackers().contains_key(self.tracker_entries()[i].0)
                    && self.trackers()[self.tracker_entries()[i].0] == self.tracker_entries()[i].1@,
            forall|k: u128| #[trigger]
                self.trackers().contains_key(k) ==> exists|i: int|
                    0 <= i < self.tracker_entries().len() && self.tracker_entries()[i].0 == k,
    {
        self.blocked_ips.lemma_items();
        self.connection_counts.lemma_items();
        assert forall|k: u128| #[trigger] self.blocks().contains_key(k) implies exists|i: int|
            0 <= i < self.block_entries().len() && self.block_entries()[i].0 == k by {
            assert(self.blocked_ips@.contains_key(k));
            let i = choose|i: int|
                0 <= i < self.blocked_ips.items().len() && self.blocked_ips.items()[i].0 == k;
            assert(self.block_entries()[i].0 == k);
        }
        assert forall|k: u128| #[trigger] self.trackers().contains_key(k) implies exists|i: int|
            0 <= i < self.tracker_entries().len() && self.tracker_entries()[i].0 == k by {
            assert(self.connection_counts@.contains_key(k));
            let i = choose|i: int|
                0 <= i < self.connection_counts.items().len() && self.connection_counts.items()[i].0
                    == k;
            assert(self.tracker_entries()[i].0 == k);
        }
    }

    /// Counters and the list of block records, with the whole seconds left
    /// of each block at `now`.
    pub fn get_stats(&self, now: u64) -> (r: RateLimiterStats)
        requires
            self.wf(),
        ensures
            r.blocked_ips_count == self.blocks().dom().len(),
            r.tracked_ips_count == self.limited_ips().len(),
            r.active_connections_count == capped_total(active_total(self.tracker_entries())),
            r.blocked_ips@.len() == self.block_entries().len(),
            forall|i: int| #![trigger r.blocked_ips@[i]]
                0 <= i < r.blocked_ips@.len() ==> r.blocked_ips@[i] == block_info(
                    self.block_entries()[i],
                    now,
                ),
    {
        let blocked_ips_count = self.blocked_ips.len();
        let tracked_ips_count = self.per_ip_limiters.len();
        let mut total: u64 = 0;
        let mut i: usize = 0;
        let n = self.connection_counts.len();
        assert(active_total(self.tracker_entries().take(0)) == 0);
        while i < n
            invariant
                n == self.tracker_entries().len(),
                i <= n,
                active_total(self.tracker_entries().take(i as int)) >= 0,
                total == capped_total(active_total(self.tracker_entries().take(i as int))),
            decreases n - i,
        {
            let (_k, t) = self.connection_counts.entry(i);
            proof {
                let s = self.tracker_entries();
                assert(s.take(i as int + 1).drop_last() =~= s.take(i as int));
                assert(s.take(i as int + 1).last() == s[i as int]);
                assert(*t == s[i as int].1);
                assert(active_total(s.take(i as int + 1)) == active_total(s.take(i as int))
                    + t.active_connections);
            }
            total = total.saturating_add(t.active_connections as u64);
            i = i + 1;
        }
        proof {
            assert(self.tracker_entries().take(n as int) =~= self.tracker_entries());
        }
        let mut infos: Vec<BlockedIpInfo> = Vec::new();
        let m = self.blocked_ips.len();
        let mut j: usize = 0;
        while j < m
            invariant
                m == self.block_entries().len(),
                j <= m,
                infos@.len() == j,
                forall|q: int| #![trigger infos@[q]]
                    0 <= q < j ==> infos@[q] == block_info(self.block_entries()[q], now),
            decreases m - j,
        {
            let (ip, b) = self.blocked_ips.entry(j);
            let remaining_secs = if b.blocked_until > now {
                (b.blocked_until - now) / 1000
            } else {
                0
            };
            infos.push(
                BlockedIpInfo {
                    ip,
                    remaining_secs,
                    reason: b.reason,
                    block_count: b.block_count,
                },
            );
            j = j + 1;
        }
        RateLimiterStats {
            blocked_ips_count,
            tracked_ips_count,
            active_connections_count: total,
            blocked_ips: infos,
        }
    }

    /// Lifts a block of `ip` that is still running at `now`, telling whether
    /// there was one. Where there is none (no record, or one that ran out)
    /// nothing changes.
    pub fn unblock_ip(&mut self, ip: u128, now: u64) -> (r: bool)
        requires
            old(self).wf(),
        ensures
            final(self).wf(),
            r == old(self).block_active(ip, now),
            r ==> final(self).blocks() == old(self).blocks().remove(ip),
            final(self).trackers() == old(self).trackers(),
            final(self).buckets() == old(self).buckets(),
            final(self).global_fresh() == old(self).global_fresh(),
            final(self).rate_config() == old(self).rate_config(),
            final(self).ddos() == old(self).ddos(),
            !r ==> *final(self) == *old(self),
    {
        let active = match self.blocked_ips.get(ip) {
            Some(b) => now < b.blocked_until,
            None => false,
        };
        if active {
            self.blocked_ips.remove(ip);
        }
        active
    }
}

/// A whitelisted address is admitted whatever the buckets answer, and the
/// check leaves the state as it was, so any run of checks admits it.
pub proof fn lemma_whitelisted_always_admitted(
    rl: &RateLimiter,
    ip: u128,
    size: Option<usize>,
    now: u64,
    global_ok: bool,
    per_ip_ok: bool,
)
    requires
        rl.whitelisted(ip),
    ensures
        rl.admission_result(ip, size, now, global_ok, per_ip_ok).allowed,
        rl.admission_blocks(ip, size, now, global_ok, per_ip_ok) == rl.blocks(),
        !rl.reaches_buckets(ip, size, now),
{
}

/// With admission control on, a blacklisted address that is not also
/// whitelisted is refused as blacklisted whatever the state, and the check
/// changes nothing.
pub proof fn lemma_blacklisted_always_refused(
    rl: &RateLimiter,
    ip: u128,
    size: Option<usize>,
    now: u64,
    global_ok: bool,
    per_ip_ok: bool,
)
    requires
        rl.rate_config().enabled,
        !rl.whitelisted(ip),
        rl.blacklisted(ip),
    ensures
        rl.admission_result(ip, size, now, global_ok, per_ip_ok) == denied(
            RateLimitReason::Blacklisted,
            None,
        ),
        rl.admission_blocks(ip, size, now, global_ok, per_ip_ok) == rl.blocks(),
        !rl.reaches_buckets(ip, size, now),
{
}

/// A block made at `start` for `d` milliseconds refuses every check of the
/// address before `start + d`; from then on a check that passes the size
/// limit, the buckets and the connection ceiling is admitted again, and the
/// run-out record is purged by that check.
pub proof fn lemma_block_lasts_its_duration(
    rl: &RateLimiter,
    ip: u128,
    prior: Map<u128, BlockedClient>,
    reason: BlockReason,
    start: u64,
    d: u64,
    now: u64,
    size: Option<usize>,
    global_ok: bool,
    per_ip_ok: bool,
)
    requires
        rl.rate_config().enabled,
        !rl.whitelisted(ip),
        !rl.blacklisted(ip),
        rl.blocks().contains_key(ip),
        rl.blocks()[ip] == next_block(prior, ip, start, reason, d),
        start + d <= u64::MAX,
    ensures
        start <= now < start + d ==> rl.admission_result(ip, size, now, global_ok, per_ip_ok)
            == denied(RateLimitReason::Blocked, Some((start + d - now) as u64)),
        now >= start + d && !(size matches Some(s) && s > rl.rate_config().max_request_size)
            && global_ok && per_ip_ok && !(rl.ddos().enabled && rl.trackers().contains_key(ip)
            && rl.trackers()[ip].active > rl.ddos().max_connections_per_ip) ==> rl.admission_result(
            ip,
            size,
            now,
            global_ok,
            per_ip_ok,
        ) == admitted(RateLimitReason::Allowed) && !rl.admission_blocks(
            ip,
            size,
            now,
            global_ok,
            per_ip_ok,
        ).contains_key(ip),
{
}

/// A connection that takes the open connections of an address over the
/// ceiling is refused and blocks the address for ten minutes: every check
/// of the address in that time is refused as blocked, and none after it is.
pub proof fn lemma_connection_excess_blocks(
    before: &RateLimiter,
    after: &RateLimiter,
    ip: u128,
    now: u64,
    later: u64,
    size: Option<usize>,
    global_ok: bool,
    per_ip_ok: bool,
)
    requires
        before.ddos().enabled,
        before.tracker_after(ip, true, now).active > before.ddos().max_connections_per_ip,
        after.blocks() == before.track_blocks(ip, true, now),
        after.rate_config() == before.rate_config(),
        after.rate_config().enabled,
        !after.whitelisted(ip),
        !after.blacklisted(ip),
        now + CONNECTION_BLOCK_MS <= u64::MAX,
        now <= later,
    ensures
        !before.track_result(ip, true, now),
        after.blocks()[ip].reason == BlockReason::TooManyConnections,
        later < now + CONNECTION_BLOCK_MS ==> after.admission_result(
            ip,
            size,
            later,
            global_ok,
            per_ip_ok,
        ) == denied(RateLimitReason::Blocked, Some((now + CONNECTION_BLOCK_MS - later) as u64)),
        later >= now + CONNECTION_BLOCK_MS ==> after.admission_result(
            ip,
            size,
            later,
            global_ok,
            per_ip_ok,
        ).reason != RateLimitReason::Blocked,
{
}

/// The first check that reaches the buckets, while the global bucket is
/// unused and the address has no bucket yet, is admitted unless the
/// address is over the connection ceiling: both fresh buckets grant.
pub proof fn lemma_fresh_buckets_admit(
    rl: &RateLimiter,
    ip: u128,
    size: Option<usize>,
    now: u64,
    global_ok: bool,
    per_ip_ok: bool,
)
    requires
        rl.global_fresh() ==> global_ok,
        !rl.buckets().contains_key(ip) ==> per_ip_ok,
        rl.global_fresh(),
        !rl.buckets().contains_key(ip),
        rl.reaches_buckets(ip, size, now),
        !(rl.ddos().enabled && rl.trackers().contains_key(ip) && rl.trackers()[ip].active
            > rl.ddos().max_connections_per_ip),
    ensures
        rl.admission_result(ip, size, now, global_ok, per_ip_ok) == admitted(
            RateLimitReason::Allowed,
        ),
{
}

} // verus!
