//! The upstream manager: live state of each backend member, selection by
//! the configured balancing method, request accounting and the health
//! state machine. Probes and forwarding themselves are done by the caller,
//! which hands their outcomes back.

use vstd::prelude::*;
use crate::config::{LoadBalancingMethod, ProxyConfig, RouteConfig, UpstreamConfig};
use crate::text::{append_decimal, chars_equal, chars_of, decimal, has_prefix, starts_with_chars};
use vstd::string::StringExecFns;

verus! {

broadcast use vstd::string::group_string_axioms;

/// Live state of one backend member.
pub struct Upstream {
    pub config: UpstreamConfig,
    pub healthy: bool,
    pub active_connections: u64,
    pub total_requests: u64,
    pub last_health_check: u64,
    pub current_fails: usize,
}

/// The balancing method and its shared rotation counter.
pub struct LoadBalancer {
    pub method: LoadBalancingMethod,
    pub round_robin_counter: usize,
}

/// Faults of the upstream path.
#[derive(Clone, Copy, Debug, PartialEq, Eq, Structural)]
pub enum ProxyError {
    NoHealthyUpstream,
    ConnectionTimeout,
    ConnectionFailed,
    UpstreamUnavailable,
    BadRequest,
}

/// One member as reported by `get_stats`.
pub struct UpstreamStats {
    pub name: String,
    pub address: String,
    pub port: u16,
    pub healthy: bool,
    pub active_connections: u64,
    pub total_requests: u64,
    pub current_fails: usize,
}

/// Counters of the upstream manager.
pub struct ProxyStats {
    pub total_requests: u64,
    pub upstreams: Vec<UpstreamStats>,
}

/// The upstream manager.
pub struct ProxyManager {
    config: ProxyConfig,
    upstreams: Vec<Upstream>,
    load_balancer: LoadBalancer,
    request_counter: u64,
}

pub open spec fn wrap_inc_u64(x: u64) -> u64 {
    if x == u64::MAX {
        0
    } else {
        (x + 1) as u64
    }
}

pub open spec fn wrap_inc_usize(x: usize) -> usize {
    if x == usize::MAX {
        0
    } else {
        (x + 1) as usize
    }
}

/// The positions of the healthy members, in order.
pub open spec fn healthy_indices(s: Seq<Upstream>) -> Seq<int>
    decreases s.len(),
{
    if s.len() == 0 {
        Seq::empty()
    } else {
        let h = healthy_indices(s.drop_last());
        if s.last().healthy {
            h.push(s.len() - 1)
        } else {
            h
        }
    }
}

/// The position of the first member named `name`.
pub open spec fn first_named(s: Seq<Upstream>, name: Seq<char>) -> Option<int>
    decreases s.len(),
{
    if s.len() == 0 {
        None
    } else {
        match first_named(s.drop_last(), name) {
            Some(i) => Some(i),
            None => if s.last().config.name@ == name {
                Some(s.len() - 1)
            } else {
                None
            },
        }
    }
}

/// The position of the first smallest load.
pub open spec fn least_index(loads: Seq<u64>) -> int
    decreases loads.len(),
{
    if loads.len() <= 1 {
        0
    } else {
        let j = least_index(loads.drop_last());
        if loads.last() < loads[j] {
            loads.len() - 1
        } else {
            j
        }
    }
}

/// The sum of the first `i` weights.
pub open spec fn prefix_weight(ws: Seq<u32>, i: int) -> int
    decreases i,
{
    if i <= 0 {
        0
    } else {
        prefix_weight(ws, i - 1) + ws[i - 1]
    }
}

/// A total held at the largest `u64`.
pub open spec fn capped(n: int) -> u64 {
    if n > u64::MAX {
        u64::MAX
    } else {
        n as u64
    }
}

/// The weighted target drawn from `counter`: the counter modulo the total
/// weight (zero where the total is zero).
pub open spec fn weighted_target(ws: Seq<u32>, counter: usize) -> int {
    let total = capped(prefix_weight(ws, ws.len() as int));
    if total == 0 {
        0
    } else {
        counter as int % total as int
    }
}

/// Whether member `i` owns target `t`: `t` falls in its slice of the
/// running weight sums.
pub open spec fn owns_target(ws: Seq<u32>, i: int, t: int) -> bool {
    0 <= i < ws.len() && prefix_weight(ws, i) <= t < prefix_weight(ws, i + 1)
}

/// The choice among `n` healthy members that the method makes from the
/// counter and their loads and weights; `None` for the random method,
/// whose choice is any of them.
pub open spec fn balanced_choice(
    method: LoadBalancingMethod,
    counter: usize,
    loads: Seq<u64>,
    ws: Seq<u32>,
) -> Option<int> {
    match method {
        LoadBalancingMethod::RoundRobin => Some(counter as int % loads.len() as int),
        LoadBalancingMethod::IpHash => Some(counter as int % loads.len() as int),
        LoadBalancingMethod::LeastConnections => Some(least_index(loads)),
        LoadBalancingMethod::Random => None,
        LoadBalancingMethod::Weighted => if prefix_weight(ws, ws.len() as int) == 0 {
            Some(0)
        } else {
            Some(choose|i: int| owns_target(ws, i, weighted_target(ws, counter)))
        },
    }
}

/// Whether the method moves the rotation counter.
pub open spec fn uses_counter(method: LoadBalancingMethod) -> bool {
    method == LoadBalancingMethod::RoundRobin || method == LoadBalancingMethod::IpHash || method
        == LoadBalancingMethod::Weighted
}

/// A member after one health probe at `now` that succeeded (`ok`) or
/// failed: success clears the failures and makes it healthy; a failure
/// counts, and reaching the threshold makes it unhealthy.
pub open spec fn after_probe(u: Upstream, ok: bool, now: u64) -> Upstream {
    if ok {
        Upstream { healthy: true, current_fails: 0, last_health_check: now, ..u }
    } else {
        let fails = if u.current_fails == usize::MAX {
            u.current_fails
        } else {
            (u.current_fails + 1) as usize
        };
        Upstream {
            healthy: if fails >= u.config.max_fails {
                false
            } else {
                u.healthy
            },
            current_fails: fails,
            last_health_check: now,
            ..u
        }
    }
}

/// A member after `k` failed probes in a row.
pub open spec fn after_failures(u: Upstream, k: nat, now: u64) -> Upstream
    decreases k,
{
    if k == 0 {
        u
    } else {
        after_probe(after_failures(u, (k - 1) as nat, now), false, now)
    }
}

/// Whether configured route `rc` takes a request for `path` at `host`.
pub open spec fn route_config_matches(rc: RouteConfig, path: Seq<char>, host: Option<Seq<char>>) -> bool {
    &&& match rc.path {
        Some(p) => has_prefix(path, p@),
        None => true,
    }
    &&& match rc.host {
        Some(h) => host matches Some(hh) && h@ == hh,
        None => true,
    }
}

/// The number of selections among `k` consecutive counter values from `start`
/// that land on position `j` of `n` under rotation.
pub open spec fn rotation_hits(start: int, k: nat, n: int, j: int) -> nat
    decreases k,
{
    if k == 0 {
        0
    } else {
        rotation_hits(start, (k - 1) as nat, n, j) + if (start + k - 1) % n == j {
            1nat
        } else {
            0nat
        }
    }
}

/// A health probe that fails `max_fails` times in a row takes a healthy
/// member with no failures to unhealthy, and not before the last of them;
/// the next successful probe makes it healthy again.
pub proof fn lemma_health_transitions(u: Upstream, k: nat, now: u64)
    requires
        u.healthy,
        u.current_fails == 0,
        u.config.max_fails >= 1,
        k <= u.config.max_fails,
    ensures
        after_failures(u, k, now).config == u.config,
        after_failures(u, k, now).current_fails == k,
        after_failures(u, k, now).healthy == (k < u.config.max_fails),
        after_probe(after_failures(u, k, now), true, now).healthy,
        after_probe(after_failures(u, k, now), true, now).current_fails == 0,
    decreases k,
{
    if k > 0 {
        lemma_health_transitions(u, (k - 1) as nat, now);
    }
}

proof fn lemma_rotation_prefix(start: int, n: int, j: int, k: nat)
    requires
        n > 0,
        0 <= j < n,
        k <= n,
    ensures
        rotation_hits(start, k, n, j) == if (j - start) % n < k {
            1nat
        } else {
            0nat
        },
    decreases k,
{
    let t = (j - start) % n;
    if k > 0 {
        lemma_rotation_prefix(start, n, j, (k - 1) as nat);
        let x = k - 1;
        vstd::arithmetic::div_mod::lemma_mod_bound(j - start, n);
        vstd::arithmetic::div_mod::lemma_add_mod_noop_right(start, j - start, n);
        vstd::arithmetic::div_mod::lemma_small_mod(j as nat, n as nat);
        assert((start + t) % n == j);
        if x == t {
            assert((start + x) % n == j);
        } else if (start + x) % n == j {
            vstd::arithmetic::div_mod::lemma_mod_equivalence(start + x, start + t, n);
            assert((x - t) % n == 0);
            if x > t {
                vstd::arithmetic::div_mod::lemma_small_mod((x - t) as nat, n as nat);
            } else {
                vstd::arithmetic::div_mod::lemma_mod_add_multiples_vanish(x - t, n);
                vstd::arithmetic::div_mod::lemma_small_mod((n + (x - t)) as nat, n as nat);
            }
            assert(false);
        }
    }
}

proof fn lemma_rotation_split(start: int, a: nat, b: nat, n: int, j: int)
    requires
        n > 0,
    ensures
        rotation_hits(start, a + b, n, j) == rotation_hits(start, a, n, j) + rotation_hits(
            start + a,
            b,
            n,
            j,
        ),
    decreases b,
{
    if b > 0 {
        lemma_rotation_split(start, a, (b - 1) as nat, n, j);
        assert((a + b - 1) as nat == a + (b - 1) as nat);
        assert(start + (a + b) - 1 == (start + a) + b - 1);
    }
}

/// Round robin over `n` equal members: `m * n` consecutive selections give
/// each member exactly `m`.
pub proof fn lemma_round_robin_even(start: int, n: int, m: nat, j: int)
    requires
        n > 0,
        0 <= j < n,
    ensures
        rotation_hits(start, m * (n as nat), n, j) == m,
    decreases m,
{
    if m > 0 {
        lemma_round_robin_even(start, n, (m - 1) as nat, j);
        let prev = ((m - 1) as nat * (n as nat)) as nat;
        assert(m * (n as nat) == prev + n as nat) by (nonlinear_arith)
            requires
                prev == (m - 1) as nat * (n as nat),
                m > 0,
        ;
        lemma_rotation_split(start, prev, n as nat, n, j);
        lemma_rotation_prefix(start + prev, n, j, n as nat);
        vstd::arithmetic::div_mod::lemma_mod_bound(j - (start + prev), n);
        assert(rotation_hits(start + prev, n as nat, n, j) == 1);
        assert(rotation_hits(start, prev, n, j) == (m - 1) as nat);
        assert(rotation_hits(start, (prev + n as nat) as nat, n, j) == m);
    } else {
        assert(m * (n as nat) == 0) by (nonlinear_arith)
            requires
                m == 0,
        ;
    }
}

/// What `str::to_lowercase` makes of a string.
pub uninterp spec fn lower_of(s: Seq<char>) -> Seq<char>;

/// Relies on std's `str::to_lowercase`: the result depends on the
/// characters alone.
#[verifier::external_body]
fn lowercase(s: &str) -> (r: String)
    ensures
        r@ == lower_of(s@),
{
    s.to_lowercase()
}

/// The hop-by-hop header names, in lower case, that a proxy does not pass on.
pub open spec fn hop_by_hop_name(s: Seq<char>) -> bool {
    s == "connection"@ || s == "upgrade"@ || s == "proxy-authorization"@ || s
        == "proxy-authenticate"@ || s == "te"@ || s == "trailer"@ || s == "transfer-encoding"@
}

/// Whether an already lower-cased header name is hop-by-hop.
pub fn is_hop_by_hop_lowercase(name: &str) -> (r: bool)
    ensures
        r == hop_by_hop_name(name@),
{
    let n = chars_of(name);
    chars_equal(&n, &chars_of("connection")) || chars_equal(&n, &chars_of("upgrade"))
        || chars_equal(&n, &chars_of("proxy-authorization")) || chars_equal(
        &n,
        &chars_of("proxy-authenticate"),
    ) || chars_equal(&n, &chars_of("te")) || chars_equal(&n, &chars_of("trailer"))
        || chars_equal(&n, &chars_of("transfer-encoding"))
}

/// Whether a header name, in any case, is hop-by-hop.
pub fn is_hop_by_hop_header(name: &str) -> (r: bool)
    ensures
        r == hop_by_hop_name(lower_of(name@)),
{
    let lower = lowercase(name);
    is_hop_by_hop_lowercase(lower.as_str())
}

proof fn lemma_prefix_monotone(ws: Seq<u32>, a: int, b: int)
    requires
        0 <= a <= b,
    ensures
        prefix_weight(ws, a) <= prefix_weight(ws, b),
    decreases b - a,
{
    if a < b {
        lemma_prefix_monotone(ws, a, b - 1);
    }
}

proof fn lemma_owner_unique(ws: Seq<u32>, i: int, t: int)
    requires
        owns_target(ws, i, t),
    ensures
        forall|j: int| #[trigger] owns_target(ws, j, t) ==> j == i,
{
    assert forall|j: int| #[trigger] owns_target(ws, j, t) implies j == i by {
        if j < i {
            lemma_prefix_monotone(ws, j + 1, i);
        } else if j > i {
            lemma_prefix_monotone(ws, i + 1, j);
        }
    }
}

/// Relies on rand's `thread_rng` and `Rng::gen_range`: a value drawn from
/// `0..n`, which is not empty under the `requires`.
#[verifier::external_body]
fn random_below(n: usize) -> (r: usize)
    requires
        n > 0,
    ensures
        r < n,
{
    rand::Rng::gen_range(&mut rand::thread_rng(), 0..n)
}

fn copy_upstream_config(c: &UpstreamConfig) -> (r: UpstreamConfig)
    ensures
        r == *c,
{
    UpstreamConfig {
        name: c.name.clone(),
        address: c.address.clone(),
        port: c.port,
        weight: c.weight,
        max_fails: c.max_fails,
        enabled: c.enabled,
    }
}

impl LoadBalancer {
    /// Picks one of `loads.len()` healthy members, whose open connections
    /// are `loads` and weights `weights`, by the configured method.
    pub fn select(&mut self, loads: &Vec<u64>, weights: &Vec<u32>) -> (r: usize)
        requires
            loads@.len() > 0,
            loads@.len() == weights@.len(),
        ensures
            r < loads@.len(),
            final(self).method == old(self).method,
            final(self).round_robin_counter == (if uses_counter(old(self).method) {
                wrap_inc_usize(old(self).round_robin_counter)
            } else {
                old(self).round_robin_counter
            }),
            match balanced_choice(old(self).method, old(self).round_robin_counter, loads@, weights@) {
                Some(j) => r == j,
                None => true,
            },
    {
        let n = loads.len();
        match self.method {
            LoadBalancingMethod::RoundRobin | LoadBalancingMethod::IpHash => {
                let c = self.round_robin_counter;
                self.round_robin_counter = c.wrapping_add(1);
                c % n
            },
            LoadBalancingMethod::LeastConnections => {
                let mut best: usize = 0;
                let mut i: usize = 1;
                proof {
                    assert(loads@.take(1).len() == 1);
                }
                while i < n
                    invariant
                        n == loads@.len(),
                        1 <= i <= n,
                        best < i,
                        best == least_index(loads@.take(i as int)),
                    decreases n - i,
                {
                    proof {
                        let s = loads@.take(i as int + 1);
                        assert(s.drop_last() =~= loads@.take(i as int));
                        assert(s[best as int] == loads@[best as int]);
                        assert(s.last() == loads@[i as int]);
                    }
                    if loads[i] < loads[best] {
                        best = i;
                    }
                    i = i + 1;
                }
                proof {
                    assert(loads@.take(n as int) =~= loads@);
                }
                best
            },
            LoadBalancingMethod::Random => random_below(n),
            LoadBalancingMethod::Weighted => {
                let ghost ws = weights@;
                let mut total: u64 = 0;
                let mut i: usize = 0;
                while i < n
                    invariant
                        n == weights@.len(),
                        ws == weights@,
                        i <= n,
                        prefix_weight(ws, i as int) >= 0,
                        total == capped(prefix_weight(ws, i as int)),
                    decreases n - i,
                {
                    total = total.saturating_add(weights[i] as u64);
                    i = i + 1;
                }
                let c = self.round_robin_counter;
                self.round_robin_counter = c.wrapping_add(1);
                if total == 0 {
                    return 0;
                }
                let t = ((c as u128) % (total as u128)) as u64;
                let ghost tt = weighted_target(ws, c);
                assert(t == tt);
                let mut target: u64 = t;
                let mut k: usize = 0;
                while k < n
                    invariant
                        n == weights@.len(),
                        ws == weights@,
                        k <= n,
                        tt == t,
                        loads@.len() == n,
                        self.method == old(self).method,
                        self.method == LoadBalancingMethod::Weighted,
                        self.round_robin_counter == wrap_inc_usize(old(self).round_robin_counter),
                        tt == weighted_target(ws, old(self).round_robin_counter),
                        prefix_weight(ws, n as int) != 0,
                        prefix_weight(ws, k as int) <= t,
                        target == t - prefix_weight(ws, k as int),
                        t < prefix_weight(ws, n as int),
                    decreases n - k,
                {
                    let w = weights[k] as u64;
                    if target < w {
                        proof {
                            assert(owns_target(ws, k as int, tt));
                            lemma_owner_unique(ws, k as int, tt);
                        }
                        return k;
                    }
                    target = target - w;
                    k = k + 1;
                }
                0
            },
        }
    }
}

/// The open connections of the healthy members, in order.
pub open spec fn healthy_loads(s: Seq<Upstream>) -> Seq<u64> {
    healthy_indices(s).map_values(|i: int| s[i].active_connections)
}

/// The weights of the healthy members, in order.
pub open spec fn healthy_weights(s: Seq<Upstream>) -> Seq<u32> {
    healthy_indices(s).map_values(|i: int| s[i].config.weight)
}

/// Whether `name` asks for a member by name rather than for any member.
pub open spec fn is_pinning_name(name: Seq<char>) -> bool {
    name.len() > 0 && name != "*"@
}

proof fn lemma_healthy_indices_bounds(s: Seq<Upstream>)
    ensures
        forall|k: int|
            0 <= k < healthy_indices(s).len() ==> 0 <= #[trigger] healthy_indices(s)[k] < s.len()
                && s[healthy_indices(s)[k]].healthy,
    decreases s.len(),
{
    if s.len() > 0 {
        lemma_healthy_indices_bounds(s.drop_last());
        let h = healthy_indices(s.drop_last());
        assert forall|k: int|
            0 <= k < healthy_indices(s).len() implies 0 <= #[trigger] healthy_indices(s)[k] < s.len()
                && s[healthy_indices(s)[k]].healthy by {
            if k < h.len() {
                assert(healthy_indices(s)[k] == h[k]);
                assert(s.drop_last()[h[k]] == s[h[k]]);
            }
        }
    }
}

impl ProxyManager {
    pub closed spec fn upstreams(&self) -> Seq<Upstream> {
        self.upstreams@
    }

    pub closed spec fn proxy_config(&self) -> ProxyConfig {
        self.config
    }

    pub closed spec fn balancer(&self) -> LoadBalancer {
        self.load_balancer
    }

    pub closed spec fn request_total(&self) -> u64 {
        self.request_counter
    }

    /// Whether a selection for `name` returned `r` and left the rotation
    /// counter at `counter`, as `select_upstream` decides.
    pub open spec fn selection(&self, name: Seq<char>, r: Result<usize, ProxyError>, counter: usize) -> bool {
        let ups = self.upstreams();
        let h = healthy_indices(ups);
        let lb = self.balancer();
        let pinned = is_pinning_name(name) && (first_named(ups, name) matches Some(i)
            && ups[i].healthy);
        if pinned {
            r == Ok::<usize, ProxyError>(first_named(ups, name)->0 as usize) && counter
                == lb.round_robin_counter
        } else if h.len() == 0 {
            r == Err::<usize, ProxyError>(ProxyError::NoHealthyUpstream) && counter
                == lb.round_robin_counter
        } else {
            &&& counter == (if uses_counter(lb.method) {
                wrap_inc_usize(lb.round_robin_counter)
            } else {
                lb.round_robin_counter
            })
            &&& (r matches Ok(k) && exists|j: int|
                0 <= j < h.len() && k == h[j] && match balanced_choice(
                    lb.method,
                    lb.round_robin_counter,
                    healthy_loads(ups),
                    healthy_weights(ups),
                ) {
                    Some(c) => j == c,
                    None => true,
                })
        }
    }

    /// A manager over the configured members, all healthy with zero
    /// counters, last checked at `now`.
    pub fn new(config: ProxyConfig, now: u64) -> (r: Self)
        ensures
            r.proxy_config() == config,
            r.upstreams().len() == config.upstreams@.len(),
            forall|i: int| #![trigger r.upstreams()[i]]
                0 <= i < r.upstreams().len() ==> r.upstreams()[i] == (Upstream {
                    config: config.upstreams@[i],
                    healthy: true,
                    active_connections: 0,
                    total_requests: 0,
                    last_health_check: now,
                    current_fails: 0,
                }),
            r.balancer().method == config.load_balancing,
            r.balancer().round_robin_counter == 0,
            r.request_total() == 0,
    {
        let mut ups: Vec<Upstream> = Vec::new();
        let mut i: usize = 0;
        while i < config.upstreams.len()
            invariant
                i <= config.upstreams@.len(),
                ups@.len() == i,
                forall|j: int| #![trigger ups@[j]]
                    0 <= j < i ==> ups@[j] == (Upstream {
                        config: config.upstreams@[j],
                        healthy: true,
                        active_connections: 0,
                        total_requests: 0,
                        last_health_check: now,
                        current_fails: 0,
                    }),
            decreases config.upstreams@.len() - i,
        {
            let c = copy_upstream_config(&config.upstreams[i]);
            ups.push(
                Upstream {
                    config: c,
                    healthy: true,
                    active_connections: 0,
                    total_requests: 0,
                    last_health_check: now,
                    current_fails: 0,
                },
            );
            i = i + 1;
        }
        let method = config.load_balancing;
        ProxyManager {
            config,
            upstreams: ups,
            load_balancer: LoadBalancer { method, round_robin_counter: 0 },
            request_counter: 0,
        }
    }

    /// The members and their live state.
    pub fn upstream_list(&self) -> (r: &Vec<Upstream>)
        ensures
            r@ == self.upstreams(),
    {
        &self.upstreams
    }

    /// The configuration the manager was made from.
    pub fn config(&self) -> (r: &ProxyConfig)
        ensures
            *r == self.proxy_config(),
    {
        &self.config
    }

    /// The position of the first member named `wanted`.
    fn find_named(&self, wanted: &String) -> (r: Option<usize>)
        ensures
            r matches Some(i) ==> i < self.upstreams().len() && first_named(self.upstreams(), wanted@)
                == Some(i as int),
            r is None ==> first_named(self.upstreams(), wanted@) is None,
    {
        let ghost ups = self.upstreams@;
        let n = self.upstreams.len();
        let mut i: usize = 0;
        while i < n
            invariant
                n == ups.len(),
                ups == self.upstreams@,
                i <= n,
                first_named(ups.take(i as int), wanted@) is None,
            decreases n - i,
        {
            proof {
                assert(ups.take(i as int + 1).drop_last() =~= ups.take(i as int));
                assert(ups.take(i as int + 1).last() == ups[i as int]);
            }
            if self.upstreams[i].config.name == *wanted {
                proof {
                    lemma_first_named_prefix(ups, i as int + 1, wanted@);
                }
                return Some(i);
            }
            i = i + 1;
        }
        proof {
            assert(ups.take(n as int) =~= ups);
        }
        None
    }

    /// Chooses the member for a request to `upstream_name`: the healthy
    /// member of that name if there is one (an empty name or `*` names
    /// none), else one of the healthy members by the balancing method.
    pub fn select_upstream(&mut self, upstream_name: &str) -> (r: Result<usize, ProxyError>)
        ensures
            old(self).selection(upstream_name@, r, final(self).balancer().round_robin_counter),
            r matches Ok(i) ==> i < old(self).upstreams().len() && old(self).upstreams()[i as int].healthy,
            final(self).upstreams() == old(self).upstreams(),
            final(self).proxy_config() == old(self).proxy_config(),
            final(self).balancer().method == old(self).balancer().method,
            final(self).request_total() == old(self).request_total(),
    {
        let ghost ups = self.upstreams@;
        let n = self.upstreams.len();
        let name_chars = chars_of(upstream_name);
        let star = chars_of("*");
        if name_chars.len() > 0 && !chars_equal(&name_chars, &star) {
            let wanted = upstream_name.to_string();
            match self.find_named(&wanted) {
                Some(i) => {
                    if self.upstreams[i].healthy {
                        assert(is_pinning_name(upstream_name@));
                        assert(first_named(ups, upstream_name@) == Some(i as int));
                        return Ok(i);
                    }
                },
                None => {},
            }
        }
        let mut idx: Vec<usize> = Vec::new();
        let mut loads: Vec<u64> = Vec::new();
        let mut weights: Vec<u32> = Vec::new();
        let mut j: usize = 0;
        while j < n
            invariant
                n == ups.len(),
                ups == self.upstreams@,
                j <= n,
                idx@.len() == loads@.len(),
                idx@.len() == weights@.len(),
                idx@.map_values(|v: usize| v as int) == healthy_indices(ups.take(j as int)),
                forall|q: int| #![trigger idx@[q]]
                    0 <= q < idx@.len() ==> idx@[q] < n && loads@[q] == ups[idx@[q] as int].active_connections
                        && weights@[q] == ups[idx@[q] as int].config.weight,
            decreases n - j,
        {
            proof {
                assert(ups.take(j as int + 1).drop_last() =~= ups.take(j as int));
                assert(ups.take(j as int + 1).last() == ups[j as int]);
            }
            if self.upstreams[j].healthy {
                idx.push(j);
                loads.push(self.upstreams[j].active_connections);
                weights.push(self.upstreams[j].config.weight);
                proof {
                    assert(idx@.map_values(|v: usize| v as int) =~= healthy_indices(
                        ups.take(j as int + 1),
                    ));
                }
            }
            j = j + 1;
        }
        proof {
            assert(ups.take(n as int) =~= ups);
            lemma_healthy_indices_bounds(ups);
            let h = healthy_indices(ups);
            assert(h.len() == idx@.len());
            assert(loads@ =~= healthy_loads(ups));
            assert(weights@ =~= healthy_weights(ups));
        }
        if idx.len() == 0 {
            return Err(ProxyError::NoHealthyUpstream);
        }
        let ghost lb0 = self.load_balancer;
        let pick = self.load_balancer.select(&loads, &weights);
        let k = idx[pick];
        proof {
            let h = healthy_indices(ups);
            assert(h[pick as int] == k as int);
            assert(lb0 == old(self).balancer());
            assert(0 <= pick < h.len() && k == h[pick as int] && match balanced_choice(
                lb0.method,
                lb0.round_robin_counter,
                healthy_loads(ups),
                healthy_weights(ups),
            ) {
                Some(c) => pick == c,
                None => true,
            });
        }
        Ok(k)
    }

    /// Starts forwarding a request to `upstream_name`: selects the member
    /// and counts the request on the manager and on the member, whose
    /// open connections go up by one.
    pub fn begin_forward(&mut self, upstream_name: &str) -> (r: Result<usize, ProxyError>)
        ensures
            old(self).selection(upstream_name@, r, final(self).balancer().round_robin_counter),
            final(self).proxy_config() == old(self).proxy_config(),
            final(self).balancer().method == old(self).balancer().method,
            match r {
                Ok(i) => {
                    let u = old(self).upstreams()[i as int];
                    &&& i < old(self).upstreams().len()
                    &&& final(self).upstreams() == old(self).upstreams().update(
                        i as int,
                        (Upstream {
                            total_requests: wrap_inc_u64(u.total_requests),
                            active_connections: wrap_inc_u64(u.active_connections),
                            ..u
                        }),
                    )
                    &&& final(self).request_total() == wrap_inc_u64(old(self).request_total())
                },
                Err(_) => final(self).upstreams() == old(self).upstreams()
                    && final(self).request_total() == old(self).request_total(),
            },
    {
        let r = self.select_upstream(upstream_name);
        match r {
            Ok(i) => {
                self.request_counter = self.request_counter.wrapping_add(1);
                let ghost before = self.upstreams@;
                let mut u = self.upstreams.remove(i);
                u.total_requests = u.total_requests.wrapping_add(1);
                u.active_connections = u.active_connections.wrapping_add(1);
                self.upstreams.insert(i, u);
                proof {
                    assert(self.upstreams@ =~= before.update(i as int, u));
                }
            },
            Err(_) => {},
        }
        r
    }

    /// Ends a request forwarded to member `i`, whatever its outcome: the
    /// member's open connections go down by one, never below zero.
    pub fn end_forward(&mut self, i: usize)
        requires
            i < old(self).upstreams().len(),
        ensures
            final(self).upstreams() == old(self).upstreams().update(
                i as int,
                (Upstream {
                    active_connections: if old(self).upstreams()[i as int].active_connections == 0 {
                        0
                    } else {
                        (old(self).upstreams()[i as int].active_connections - 1) as u64
                    },
                    ..old(self).upstreams()[i as int]
                }),
            ),
            final(self).proxy_config() == old(self).proxy_config(),
            final(self).balancer() == old(self).balancer(),
            final(self).request_total() == old(self).request_total(),
    {
        let ghost before = self.upstreams@;
        let mut u = self.upstreams.remove(i);
        u.active_connections = u.active_connections.saturating_sub(1);
        self.upstreams.insert(i, u);
        proof {
            assert(self.upstreams@ =~= before.update(i as int, u));
        }
    }

    /// Applies the outcome of a health probe of member `i` at `now`.
    pub fn record_health_check(&mut self, i: usize, success: bool, now: u64)
        requires
            i < old(self).upstreams().len(),
        ensures
            final(self).upstreams() == old(self).upstreams().update(
                i as int,
                after_probe(old(self).upstreams()[i as int], success, now),
            ),
            final(self).proxy_config() == old(self).proxy_config(),
            final(self).balancer() == old(self).balancer(),
            final(self).request_total() == old(self).request_total(),
    {
        let ghost before = self.upstreams@;
        let mut u = self.upstreams.remove(i);
        if success {
            u.current_fails = 0;
            u.healthy = true;
        } else {
            u.current_fails = u.current_fails.saturating_add(1);
            if u.current_fails >= u.config.max_fails {
                u.healthy = false;
            }
        }
        u.last_health_check = now;
        self.upstreams.insert(i, u);
        proof {
            assert(self.upstreams@ =~= before.update(i as int, u));
        }
    }

    /// The request total and, per member, its name, address, health and
    /// counters.
    pub fn get_stats(&self) -> (r: ProxyStats)
        ensures
            r.total_requests == self.request_total(),
            r.upstreams@.len() == self.upstreams().len(),
            forall|i: int| #![trigger r.upstreams@[i]]
                0 <= i < r.upstreams@.len() ==> {
                    let u = self.upstreams()[i];
                    &&& r.upstreams@[i].name == u.config.name
                    &&& r.upstreams@[i].address == u.config.address
                    &&& r.upstreams@[i].port == u.config.port
                    &&& r.upstreams@[i].healthy == u.healthy
                    &&& r.upstreams@[i].active_connections == u.active_connections
                    &&& r.upstreams@[i].total_requests == u.total_requests
                    &&& r.upstreams@[i].current_fails == u.current_fails
                },
    {
        let mut out: Vec<UpstreamStats> = Vec::new();
        let mut i: usize = 0;
        while i < self.upstreams.len()
            invariant
                i <= self.upstreams@.len(),
                out@.len() == i,
                forall|q: int| #![trigger out@[q]]
                    0 <= q < i ==> {
                        let u = self.upstreams@[q];
                        &&& out@[q].name == u.config.name
                        &&& out@[q].address == u.config.address
                        &&& out@[q].port == u.config.port
                        &&& out@[q].healthy == u.healthy
                        &&& out@[q].active_connections == u.active_connections
                        &&& out@[q].total_requests == u.total_requests
                        &&& out@[q].current_fails == u.current_fails
                    },
            decreases self.upstreams@.len() - i,
        {
            let u = &self.upstreams[i];
            out.push(
                UpstreamStats {
                    name: u.config.name.clone(),
                    address: u.config.address.clone(),
                    port: u.config.port,
                    healthy: u.healthy,
                    active_connections: u.active_connections,
                    total_requests: u.total_requests,
                    current_fails: u.current_fails,
                },
            );
            i = i + 1;
        }
        ProxyStats { total_requests: self.request_counter, upstreams: out }
    }

    /// The first configured route whose path prefix opens `path` and whose
    /// host, if it has one, is `host`.
    pub fn find_matching_route(&self, path: &str, host: Option<&str>) -> (r: Option<&RouteConfig>)
        ensures
            match r {
                Some(rc) => exists|i: int|
                    0 <= i < self.proxy_config().routes@.len() && *rc
                        == self.proxy_config().routes@[i] && route_config_matches(
                        self.proxy_config().routes@[i],
                        path@,
                        crate::router::opt_view(host),
                    ) && forall|j: int|
                        0 <= j < i ==> !route_config_matches(
                            #[trigger] self.proxy_config().routes@[j],
                            path@,
                            crate::router::opt_view(host),
                        ),
                None => forall|i: int|
                    0 <= i < self.proxy_config().routes@.len() ==> !route_config_matches(
                        #[trigger] self.proxy_config().routes@[i],
                        path@,
                        crate::router::opt_view(host),
                    ),
            },
    {
        let p = chars_of(path);
        let hs: Option<String> = match host {
            Some(h) => Some(h.to_string()),
            None => None,
        };
        let routes = &self.config.routes;
        let mut i: usize = 0;
        while i < routes.len()
            invariant
                routes@ == self.proxy_config().routes@,
                i <= routes@.len(),
                p@ == path@,
                match hs {
                    Some(x) => crate::router::opt_view(host) == Some(x@),
                    None => crate::router::opt_view(host) is None,
                },
                forall|j: int|
                    0 <= j < i ==> !route_config_matches(
                        #[trigger] routes@[j],
                        path@,
                        crate::router::opt_view(host),
                    ),
            decreases routes@.len() - i,
        {
            let rc = &routes[i];
            let path_ok = match &rc.path {
                Some(rp) => {
                    let rpc = chars_of(rp.as_str());
                    starts_with_chars(&p, &rpc)
                },
                None => true,
            };
            let host_ok = match (&rc.host, &hs) {
                (Some(a), Some(b)) => *a == *b,
                (None, _) => true,
                _ => false,
            };
            if path_ok && host_ok {
                return Some(rc);
            }
            i = i + 1;
        }
        None
    }

    /// The address a request for `path` with `query` is sent to on member
    /// `i`: `http://`, the member's address, `:`, its port in decimal, the
    /// path, and `?` with the query where there is one.
    pub fn upstream_url(&self, i: usize, path: &str, query: Option<&str>) -> (r: String)
        requires
            i < self.upstreams().len(),
        ensures
            r@ == "http://"@ + self.upstreams()[i as int].config.address@ + ":"@ + decimal(
                self.upstreams()[i as int].config.port as nat,
            ) + path@ + match query {
                Some(q) => "?"@ + q@,
                None => Seq::<char>::empty(),
            },
    {
        let u = &self.upstreams[i];
        let mut url = "http://".to_string();
        url.append(u.config.address.as_str());
        url.append(":");
        append_decimal(&mut url, u.config.port);
        url.append(path);
        match query {
            Some(q) => {
                url.append("?");
                url.append(q);
            },
            None => {},
        }
        proof {
            let a = "http://"@ + u.config.address@ + ":"@ + decimal(u.config.port as nat) + path@;
            match query {
                Some(q) => assert(url@ =~= a + ("?"@ + q@)),
                None => assert(url@ =~= a + Seq::<char>::empty()),
            }
        }
        url
    }

    /// The member a proxied request for `path` at `host` goes to: that of
    /// the first configured route that takes the request, or else `routed`,
    /// the member that the routing rule names.
    pub fn resolve_upstream(&self, routed: &str, path: &str, host: Option<&str>) -> (r: String)
        ensures
            (forall|i: int|
                0 <= i < self.proxy_config().routes@.len() ==> !route_config_matches(
                    #[trigger] self.proxy_config().routes@[i],
                    path@,
                    crate::router::opt_view(host),
                )) ==> r@ == routed@,
            forall|i: int|
                0 <= i < self.proxy_config().routes@.len() && route_config_matches(
                    #[trigger] self.proxy_config().routes@[i],
                    path@,
                    crate::router::opt_view(host),
                ) && (forall|j: int|
                    0 <= j < i ==> !route_config_matches(
                        #[trigger] self.proxy_config().routes@[j],
                        path@,
                        crate::router::opt_view(host),
                    )) ==> r@ == self.proxy_config().routes@[i].upstream@,
    {
        match self.find_matching_route(path, host) {
            Some(rc) => {
                let r = rc.upstream.clone();
                proof {
                    let routes = self.proxy_config().routes@;
                    let h = crate::router::opt_view(host);
                    let i0 = choose|i0: int|
                        0 <= i0 < routes.len() && *rc == routes[i0] && route_config_matches(
                            routes[i0],
                            path@,
                            h,
                        ) && forall|j: int|
                            0 <= j < i0 ==> !route_config_matches(#[trigger] routes[j], path@, h);
                    assert forall|i: int|
                        0 <= i < routes.len() && route_config_matches(#[trigger] routes[i], path@, h)
                            && (forall|j: int|
                            0 <= j < i ==> !route_config_matches(#[trigger] routes[j], path@, h))
                            implies r@ == routes[i].upstream@ by {
                        if i < i0 {
                            assert(!route_config_matches(routes[i], path@, h));
                        } else if i0 < i {
                            assert(!route_config_matches(routes[i0], path@, h));
                        }
                    }
                }
                r
            },
            None => routed.to_string(),
        }
    }
}

proof fn lemma_first_named_prefix(s: Seq<Upstream>, k: int, name: Seq<char>)
    requires
        0 < k <= s.len(),
        first_named(s.take(k - 1), name) is None,
        s[k - 1].config.name@ == name,
    ensures
        first_named(s, name) == Some(k - 1),
    decreases s.len() - k,
{
    assert(s.take(k).drop_last() =~= s.take(k - 1));
    assert(s.take(k).last() == s[k - 1]);
    assert(first_named(s.take(k), name) == Some(k - 1));
    lemma_first_named_extend(s, k, name);
}

proof fn lemma_first_named_extend(s: Seq<Upstream>, k: int, name: Seq<char>)
    requires
        0 < k <= s.len(),
        first_named(s.take(k), name) is Some,
    ensures
        first_named(s, name) == first_named(s.take(k), name),
    decreases s.len() - k,
{
    if k < s.len() {
        assert(s.take(k + 1).drop_last() =~= s.take(k));
        lemma_first_named_extend(s, k + 1, name);
    } else {
        assert(s.take(k) =~= s);
    }
}

proof fn lemma_no_healthy_indices(s: Seq<Upstream>)
    requires
        forall|i: int| 0 <= i < s.len() ==> !(#[trigger] s[i]).healthy,
    ensures
        healthy_indices(s).len() == 0,
    decreases s.len(),
{
    if s.len() > 0 {
        let init = s.drop_last();
        assert forall|i: int| 0 <= i < init.len() implies !(#[trigger] init[i]).healthy by {
            assert(init[i] == s[i]);
        }
        lemma_no_healthy_indices(init);
        assert(!s[s.len() - 1].healthy);
    }
}

/// When every member is unhealthy, a selection fails with
/// `NoHealthyUpstream`, whatever name it asks for.
pub proof fn lemma_all_unhealthy_selects_nothing(
    m: &ProxyManager,
    name: Seq<char>,
    r: Result<usize, ProxyError>,
    counter: usize,
)
    requires
        forall|i: int| 0 <= i < m.upstreams().len() ==> !(#[trigger] m.upstreams()[i]).healthy,
        m.selection(name, r, counter),
    ensures
        r == Err::<usize, ProxyError>(ProxyError::NoHealthyUpstream),
{
    lemma_no_healthy_indices(m.upstreams());
    if let Some(i) = first_named(m.upstreams(), name) {
        lemma_first_named_in_range(m.upstreams(), name);
    }
}

proof fn lemma_first_named_in_range(s: Seq<Upstream>, name: Seq<char>)
    ensures
        first_named(s, name) matches Some(i) ==> 0 <= i < s.len(),
    decreases s.len(),
{
    if s.len() > 0 {
        lemma_first_named_in_range(s.drop_last(), name);
    }
}

} // verus!
