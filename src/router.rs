//! The route table: rules kept in descending priority, matched by method,
//! host and path pattern.

use vstd::prelude::*;
use crate::config::Config;
use crate::text::{chars_equal, chars_of};
use vstd::string::StringExecFns;

verus! {

broadcast use vstd::string::group_string_axioms;

/// Where a matched request goes.
pub enum RouteHandler {
    Proxy { upstream_name: String },
    Static,
    Health,
    Admin,
}

/// One routing rule. An empty method list admits every method.
pub struct Route {
    pub path_pattern: String,
    pub host_pattern: Option<String>,
    pub methods: Vec<String>,
    pub handler: RouteHandler,
    pub priority: u32,
}

/// A rule as `list_routes` reports it.
pub struct RouteInfo {
    pub path: String,
    pub host: Option<String>,
    pub methods: Vec<String>,
    pub handler_type: String,
    pub priority: u32,
}

/// The route table.
pub struct Router {
    routes: Vec<Route>,
}

/// The pieces of `s` between slashes, as `str::split('/')` gives them.
pub open spec fn split_slash(s: Seq<char>) -> Seq<Seq<char>>
    decreases s.len(),
{
    if s.len() == 0 {
        seq![Seq::<char>::empty()]
    } else {
        let init = split_slash(s.drop_last());
        if s.last() == '/' {
            init.push(Seq::<char>::empty())
        } else {
            init.update(init.len() - 1, init.last().push(s.last()))
        }
    }
}

/// Whether a pattern ends in `/*`.
pub open spec fn is_wildcard(p: Seq<char>) -> bool {
    p.len() >= 2 && p[p.len() - 2] == '/' && p[p.len() - 1] == '*'
}

/// A pattern segment that starts with `:` matches any segment; another
/// matches itself only.
pub open spec fn segment_matches(p: Seq<char>, q: Seq<char>) -> bool {
    (p.len() > 0 && p[0] == ':') || p == q
}

pub open spec fn segments_match(ps: Seq<Seq<char>>, qs: Seq<Seq<char>>) -> bool {
    ps.len() == qs.len() && forall|i: int| 0 <= i < ps.len() ==> segment_matches(ps[i], qs[i])
}

/// Whether path pattern `p` matches path `q`: equal, or `p` ends in `/*` and
/// `q` starts with what precedes it, or `p` holds a `:` and the two match
/// segment by segment.
pub open spec fn pattern_matches(p: Seq<char>, q: Seq<char>) -> bool {
    if p == q {
        true
    } else if is_wildcard(p) {
        q.len() >= p.len() - 2 && q.subrange(0, p.len() - 2) == p.subrange(0, p.len() - 2)
    } else if p.contains(':') {
        segments_match(split_slash(p), split_slash(q))
    } else {
        false
    }
}

pub open spec fn opt_view(h: Option<&str>) -> Option<Seq<char>> {
    match h {
        Some(s) => Some(s@),
        None => None,
    }
}

/// Whether `r` takes a request with method `m`, path `p` and host `h`.
pub open spec fn route_matches(r: Route, m: Seq<char>, p: Seq<char>, h: Option<Seq<char>>) -> bool {
    &&& (r.methods@.len() == 0 || exists|i: int| 0 <= i < r.methods@.len() && r.methods@[i]@ == m)
    &&& match r.host_pattern {
        Some(hp) => h matches Some(hh) && hp@ == hh,
        None => true,
    }
    &&& pattern_matches(r.path_pattern@, p)
}

/// Priorities never increase along the table.
pub open spec fn sorted_by_priority(s: Seq<Route>) -> bool {
    forall|i: int, j: int| 0 <= i < j < s.len() ==> s[i].priority >= s[j].priority
}

/// The label of a destination in route listings.
pub open spec fn handler_label(h: RouteHandler) -> Seq<char> {
    match h {
        RouteHandler::Proxy { upstream_name } => "proxy:"@ + upstream_name@,
        RouteHandler::Static => "static"@,
        RouteHandler::Health => "health"@,
        RouteHandler::Admin => "admin"@,
    }
}

/// The catch-all proxy rule made for member `u`.
pub open spec fn is_proxy_route_for(r: Route, u: crate::config::UpstreamConfig) -> bool {
    &&& r.path_pattern@ == "/*"@
    &&& r.host_pattern is None
    &&& r.methods@.len() == 0
    &&& r.handler == (RouteHandler::Proxy { upstream_name: u.name })
    &&& r.priority == 50
}

/// Whether `remove_route(path, host)` takes `r` out.
pub open spec fn removed_by(r: Route, path: Seq<char>, host: Option<Seq<char>>) -> bool {
    r.path_pattern@ == path && match (r.host_pattern, host) {
        (Some(a), Some(b)) => a@ == b,
        (None, None) => true,
        _ => false,
    }
}

/// The first rule that takes a request has the highest priority of all the
/// rules that take it, whatever order they were added in.
pub proof fn lemma_first_match_has_top_priority(
    routes: Seq<Route>,
    i: int,
    m: Seq<char>,
    p: Seq<char>,
    h: Option<Seq<char>>,
)
    requires
        sorted_by_priority(routes),
        0 <= i < routes.len(),
        route_matches(routes[i], m, p, h),
        forall|j: int| 0 <= j < i ==> !route_matches(routes[j], m, p, h),
    ensures
        forall|j: int|
            0 <= j < routes.len() && route_matches(routes[j], m, p, h) ==> routes[j].priority
                <= routes[i].priority,
{
}

proof fn lemma_split_nonempty(s: Seq<char>)
    ensures
        split_slash(s).len() >= 1,
    decreases s.len(),
{
    if s.len() > 0 {
        lemma_split_nonempty(s.drop_last());
    }
}

/// The pieces of `cs` between slashes.
fn split_segments(cs: &Vec<char>) -> (r: Vec<Vec<char>>)
    ensures
        r@.map_values(|v: Vec<char>| v@) == split_slash(cs@),
{
    let mut done: Vec<Vec<char>> = Vec::new();
    let mut cur: Vec<char> = Vec::new();
    let mut i: usize = 0;
    proof {
        assert(done@.map_values(|v: Vec<char>| v@).push(cur@) =~= split_slash(cs@.take(0)));
    }
    while i < cs.len()
        invariant
            i <= cs@.len(),
            done@.map_values(|v: Vec<char>| v@).push(cur@) == split_slash(cs@.take(i as int)),
        decreases cs@.len() - i,
    {
        let c = cs[i];
        proof {
            assert(cs@.take(i as int + 1).drop_last() =~= cs@.take(i as int));
            assert(cs@.take(i as int + 1).last() == c);
            lemma_split_nonempty(cs@.take(i as int));
        }
        if c == '/' {
            let finished = cur;
            done.push(finished);
            cur = Vec::new();
            proof {
                assert(done@.map_values(|v: Vec<char>| v@).push(cur@) =~= split_slash(
                    cs@.take(i as int + 1),
                ));
            }
        } else {
            cur.push(c);
            proof {
                assert(done@.map_values(|v: Vec<char>| v@).push(cur@) =~= split_slash(
                    cs@.take(i as int + 1),
                ));
            }
        }
        i = i + 1;
    }
    proof {
        assert(cs@.take(cs@.len() as int) =~= cs@);
    }
    done.push(cur);
    proof {
        assert(done@.map_values(|v: Vec<char>| v@) =~= split_slash(cs@));
    }
    done
}

fn has_colon(p: &Vec<char>) -> (r: bool)
    ensures
        r == p@.contains(':'),
{
    let mut i: usize = 0;
    while i < p.len()
        invariant
            i <= p@.len(),
            forall|j: int| 0 <= j < i ==> p@[j] != ':',
        decreases p@.len() - i,
    {
        if p[i] == ':' {
            assert(p@[i as int] == ':');
            return true;
        }
        i = i + 1;
    }
    false
}

/// Whether path pattern `p` matches path `q`.
fn pattern_matches_exec(p: &Vec<char>, q: &Vec<char>) -> (r: bool)
    ensures
        r == pattern_matches(p@, q@),
{
    if chars_equal(p, q) {
        return true;
    }
    let n = p.len();
    if n >= 2 && p[n - 2] == '/' && p[n - 1] == '*' {
        assert(is_wildcard(p@));
        let k = n - 2;
        if q.len() < k {
            assert(p@ != q@);
            assert(!pattern_matches(p@, q@));
            return false;
        }
        let mut i: usize = 0;
        while i < k
            invariant
                k == p@.len() - 2,
                k <= q@.len(),
                p@ != q@,
                is_wildcard(p@),
                i <= k,
                forall|j: int| 0 <= j < i ==> p@[j] == q@[j],
            decreases k - i,
        {
            if p[i] != q[i] {
                assert(q@.subrange(0, k as int)[i as int] != p@.subrange(0, k as int)[i as int]);
                return false;
            }
            i = i + 1;
        }
        assert(q@.subrange(0, k as int) =~= p@.subrange(0, k as int));
        return true;
    }
    if has_colon(p) {
        let ps = split_segments(p);
        let qs = split_segments(q);
        let ghost pv = ps@.map_values(|v: Vec<char>| v@);
        let ghost qv = qs@.map_values(|v: Vec<char>| v@);
        assert(!is_wildcard(p@));
        if ps.len() != qs.len() {
            assert(pv.len() != qv.len());
            return false;
        }
        let mut i: usize = 0;
        while i < ps.len()
            invariant
                pv == ps@.map_values(|v: Vec<char>| v@),
                qv == qs@.map_values(|v: Vec<char>| v@),
                pv == split_slash(p@),
                qv == split_slash(q@),
                p@ != q@,
                !is_wildcard(p@),
                p@.contains(':'),
                ps@.len() == qs@.len(),
                i <= ps@.len(),
                forall|j: int| 0 <= j < i ==> segment_matches(pv[j], qv[j]),
            decreases ps@.len() - i,
        {
            let seg = &ps[i];
            let wild = seg.len() > 0 && seg[0] == ':';
            if !wild && !chars_equal(seg, &qs[i]) {
                assert(pv[i as int] == ps@[i as int]@);
                assert(qv[i as int] == qs@[i as int]@);
                return false;
            }
            assert(pv[i as int] == ps@[i as int]@);
            assert(qv[i as int] == qs@[i as int]@);
            i = i + 1;
        }
        return true;
    }
    false
}

fn clone_strings(v: &Vec<String>) -> (r: Vec<String>)
    ensures
        r@ == v@,
{
    let mut out: Vec<String> = Vec::new();
    let mut i: usize = 0;
    while i < v.len()
        invariant
            i <= v@.len(),
            out@ == v@.subrange(0, i as int),
        decreases v@.len() - i,
    {
        out.push(v[i].clone());
        i = i + 1;
        assert(out@ =~= v@.subrange(0, i as int));
    }
    assert(out@ =~= v@);
    out
}

fn clone_opt(s: &Option<String>) -> (r: Option<String>)
    ensures
        r == *s,
{
    match s {
        Some(x) => Some(x.clone()),
        None => None,
    }
}

/// The label of a proxy destination: `proxy:` and the member name.
fn proxy_label(name: &String) -> (r: String)
    ensures
        r@ == "proxy:"@ + name@,
{
    let mut label = "proxy:".to_string();
    label.append(name.as_str());
    label
}

impl Router {
    pub closed spec fn routes(&self) -> Seq<Route> {
        self.routes@
    }

    pub open spec fn wf(&self) -> bool {
        sorted_by_priority(self.routes())
    }

    /// The table made from a configuration: the health route (priority 100),
    /// a catch-all proxy route per member when proxying is on (50), and the
    /// static route for GET and HEAD when static files are on (10).
    pub fn new(config: &Config) -> (r: Self)
        ensures
            r.wf(),
            r.routes().len() == 1 + (if config.proxy.enabled {
                config.proxy.upstreams@.len()
            } else {
                0
            }) + (if config.static_files.enabled {
                1int
            } else {
                0
            }),
            r.routes()[0].path_pattern@ == "/health"@,
            r.routes()[0].host_pattern is None,
            r.routes()[0].methods@.len() == 1,
            r.routes()[0].methods@[0]@ == "GET"@,
            r.routes()[0].handler is Health,
            r.routes()[0].priority == 100,
            config.proxy.enabled ==> forall|i: int|
                0 <= i < config.proxy.upstreams@.len() ==> is_proxy_route_for(
                    #[trigger] r.routes()[i + 1],
                    config.proxy.upstreams@[i],
                ),
            config.static_files.enabled ==> {
                let last = r.routes()[r.routes().len() - 1];
                &&& last.path_pattern@ == "/*"@
                &&& last.host_pattern is None
                &&& last.methods@.len() == 2
                &&& last.methods@[0]@ == "GET"@
                &&& last.methods@[1]@ == "HEAD"@
                &&& last.handler is Static
                &&& last.priority == 10
            },
    {
        let mut routes: Vec<Route> = Vec::new();
        let mut health_methods: Vec<String> = Vec::new();
        health_methods.push("GET".to_string());
        routes.push(
            Route {
                path_pattern: "/health".to_string(),
                host_pattern: None,
                methods: health_methods,
                handler: RouteHandler::Health,
                priority: 100,
            },
        );
        if config.proxy.enabled {
            let ups = &config.proxy.upstreams;
            let mut i: usize = 0;
            while i < ups.len()
                invariant
                    i <= ups@.len(),
                    routes@.len() == 1 + i,
                    sorted_by_priority(routes@),
                    forall|j: int| 0 <= j < routes@.len() ==> routes@[j].priority >= 50,
                    routes@[0].path_pattern@ == "/health"@,
                    routes@[0].host_pattern is None,
                    routes@[0].methods@.len() == 1,
                    routes@[0].methods@[0]@ == "GET"@,
                    routes@[0].handler is Health,
                    routes@[0].priority == 100,
                    forall|j: int|
                        0 <= j < i ==> is_proxy_route_for(#[trigger] routes@[j + 1], ups@[j]),
                decreases ups@.len() - i,
            {
                let name = ups[i].name.clone();
                let ghost prev = routes@;
                routes.push(
                    Route {
                        path_pattern: "/*".to_string(),
                        host_pattern: None,
                        methods: Vec::new(),
                        handler: RouteHandler::Proxy { upstream_name: name },
                        priority: 50,
                    },
                );
                proof {
                    assert(is_proxy_route_for(routes@[i + 1], ups@[i as int]));
                    assert forall|j: int| 0 <= j < i + 1 implies is_proxy_route_for(
                        #[trigger] routes@[j + 1],
                        ups@[j],
                    ) by {
                        if j < i {
                            assert(routes@[j + 1] == prev[j + 1]);
                        }
                    }
                }
                i = i + 1;
            }
        }
        if config.static_files.enabled {
            let ghost prev = routes@;
            let mut static_methods: Vec<String> = Vec::new();
            static_methods.push("GET".to_string());
            static_methods.push("HEAD".to_string());
            routes.push(
                Route {
                    path_pattern: "/*".to_string(),
                    host_pattern: None,
                    methods: static_methods,
                    handler: RouteHandler::Static,
                    priority: 10,
                },
            );
            proof {
                assert forall|j: int| 0 <= j < prev.len() implies routes@[j] == prev[j] by {}
            }
        }
        Router { routes }
    }

    fn route_matches_exec(
        route: &Route,
        method: &String,
        path: &Vec<char>,
        host: Option<&str>,
    ) -> (r: bool)
        ensures
            r == route_matches(*route, method@, path@, opt_view(host)),
    {
        if route.methods.len() > 0 {
            let mut found = false;
            let mut i: usize = 0;
            while i < route.methods.len()
                invariant
                    i <= route.methods@.len(),
                    found == exists|j: int| 0 <= j < i && route.methods@[j]@ == method@,
                decreases route.methods@.len() - i,
            {
                if route.methods[i] == *method {
                    found = true;
                }
                i = i + 1;
            }
            if !found {
                return false;
            }
        }
        match &route.host_pattern {
            Some(hp) => match host {
                Some(h) => {
                    let hs = h.to_string();
                    if *hp != hs {
                        return false;
                    }
                },
                None => {
                    return false;
                },
            },
            None => {},
        }
        let pat = chars_of(route.path_pattern.as_str());
        pattern_matches_exec(&pat, path)
    }

    /// The first rule, in priority order, that takes a request with this
    /// method, path and host; none where no rule does.
    pub fn route_request(&self, method: &str, path: &str, host: Option<&str>) -> (r: Option<&Route>)
        ensures
            match r {
                Some(rt) => exists|i: int|
                    0 <= i < self.routes().len() && *rt == self.routes()[i] && route_matches(
                        self.routes()[i],
                        method@,
                        path@,
                        opt_view(host),
                    ) && forall|j: int|
                        0 <= j < i ==> !route_matches(
                            #[trigger] self.routes()[j],
                            method@,
                            path@,
                            opt_view(host),
                        ),
                None => forall|i: int|
                    0 <= i < self.routes().len() ==> !route_matches(
                        #[trigger] self.routes()[i],
                        method@,
                        path@,
                        opt_view(host),
                    ),
            },
            self.wf() && r is Some ==> forall|j: int|
                0 <= j < self.routes().len() && route_matches(
                    #[trigger] self.routes()[j],
                    method@,
                    path@,
                    opt_view(host),
                ) ==> self.routes()[j].priority <= r->0.priority,
    {
        let m = method.to_string();
        let p = chars_of(path);
        let mut i: usize = 0;
        while i < self.routes.len()
            invariant
                i <= self.routes@.len(),
                m@ == method@,
                p@ == path@,
                forall|j: int|
                    0 <= j < i ==> !route_matches(
                        #[trigger] self.routes@[j],
                        method@,
                        path@,
                        opt_view(host),
                    ),
            decreases self.routes@.len() - i,
        {
            if Self::route_matches_exec(&self.routes[i], &m, &p, host) {
                proof {
                    if self.wf() {
                        lemma_first_match_has_top_priority(
                            self.routes@,
                            i as int,
                            method@,
                            path@,
                            opt_view(host),
                        );
                    }
                }
                return Some(&self.routes[i]);
            }
            i = i + 1;
        }
        None
    }

    /// Adds a proxy rule after every rule of equal or higher priority, which
    /// is where a stable re-sort by descending priority would put it.
    pub fn add_route(
        &mut self,
        path: String,
        host: Option<String>,
        methods: Vec<String>,
        upstream: String,
        priority: u32,
    )
        requires
            old(self).wf(),
        ensures
            final(self).wf(),
            exists|k: int|
                {
                    &&& 0 <= k <= old(self).routes().len()
                    &&& final(self).routes() == old(self).routes().insert(
                        k,
                        (Route {
                            path_pattern: path,
                            host_pattern: host,
                            methods,
                            handler: RouteHandler::Proxy { upstream_name: upstream },
                            priority,
                        }),
                    )
                    &&& forall|j: int| 0 <= j < k ==> old(self).routes()[j].priority >= priority
                    &&& forall|j: int|
                        k <= j < old(self).routes().len() ==> old(self).routes()[j].priority
                            < priority
                },
    {
        let mut k: usize = 0;
        while k < self.routes.len() && self.routes[k].priority >= priority
            invariant
                k <= self.routes@.len(),
                forall|j: int| 0 <= j < k ==> self.routes@[j].priority >= priority,
            decreases self.routes@.len() - k,
        {
            k = k + 1;
        }
        let route = Route {
            path_pattern: path,
            host_pattern: host,
            methods,
            handler: RouteHandler::Proxy { upstream_name: upstream },
            priority,
        };
        let ghost old_routes = self.routes@;
        proof {
            assert forall|j: int| k <= j < old_routes.len() implies old_routes[j].priority
                < priority by {
                assert(old_routes[k as int].priority < priority);
                if j > k {
                    assert(old_routes[k as int].priority >= old_routes[j].priority);
                }
            }
        }
        self.routes.insert(k, route);
        proof {
            let s = self.routes@;
            assert forall|a: int, b: int| 0 <= a < b < s.len() implies s[a].priority
                >= s[b].priority by {
                if b < k {
                } else if b == k {
                } else if a < k {
                    assert(s[a] == old_routes[a]);
                    assert(s[b] == old_routes[b - 1]);
                } else if a == k {
                    assert(s[b] == old_routes[b - 1]);
                } else {
                    assert(s[a] == old_routes[a - 1]);
                    assert(s[b] == old_routes[b - 1]);
                }
            }
        }
    }

    /// Drops every rule with this path pattern and this host pattern.
    pub fn remove_route(&mut self, path: &str, host: Option<&str>)
        requires
            old(self).wf(),
        ensures
            final(self).wf(),
            final(self).routes() == old(self).routes().filter(
                |r: Route| !removed_by(r, path@, opt_view(host)),
            ),
    {
        let ghost keep = |r: Route| !removed_by(r, path@, opt_view(host));
        let ghost s = self.routes@;
        let p = path.to_string();
        let hs: Option<String> = match host {
            Some(h) => Some(h.to_string()),
            None => None,
        };
        let mut rest: Vec<Route> = Vec::new();
        proof {
            assert(s.take(0) =~= Seq::<Route>::empty());
        }
        while self.routes.len() > 0
            invariant
                keep == (|r: Route| !removed_by(r, path@, opt_view(host))),
                sorted_by_priority(s),
                p@ == path@,
                match hs {
                    Some(x) => opt_view(host) == Some(x@),
                    None => opt_view(host) is None,
                },
                self.routes@.len() <= s.len(),
                self.routes@ == s.take(self.routes@.len() as int),
                rest@.reverse() == s.skip(self.routes@.len() as int).filter(keep),
            decreases self.routes@.len(),
        {
            let ghost n = self.routes@.len() as int;
            let route = self.routes.pop().unwrap();
            proof {
                assert(route == s[n - 1]);
                assert(self.routes@ =~= s.take(n - 1));
            }
            let same_host = match (&route.host_pattern, &hs) {
                (Some(a), Some(b)) => *a == *b,
                (None, None) => true,
                _ => false,
            };
            let drop = route.path_pattern == p && same_host;
            proof {
                assert(drop == removed_by(route, path@, opt_view(host)));
                s.skip(n).lemma_filter_prepend(route, keep);
                assert(s.skip(n - 1) =~= seq![route] + s.skip(n));
                assert(Seq::<Route>::empty() + s.skip(n).filter(keep) =~= s.skip(n).filter(keep));
            }
            if !drop {
                let ghost before = rest@;
                rest.push(route);
                proof {
                    assert(rest@.reverse() =~= seq![route] + before.reverse());
                }
            }
        }
        proof {
            assert(s.skip(0) =~= s);
        }
        let mut kept: Vec<Route> = Vec::new();
        while rest.len() > 0
            invariant
                kept@ + rest@.reverse() == s.filter(keep),
            decreases rest@.len(),
        {
            let ghost before = rest@;
            let route = rest.pop().unwrap();
            proof {
                assert(before.reverse() =~= seq![route] + rest@.reverse());
            }
            kept.push(route);
            proof {
                assert(kept@ + rest@.reverse() =~= s.filter(keep));
            }
        }
        proof {
            assert(kept@ =~= s.filter(keep));
            lemma_filter_sorted(s, keep);
        }
        self.routes = kept;
    }

    /// The rules in table order, each with a copy of its fields and the
    /// label of its destination.
    pub fn list_routes(&self) -> (r: Vec<RouteInfo>)
        ensures
            r@.len() == self.routes().len(),
            forall|i: int| #![trigger r@[i]]
                0 <= i < r@.len() ==> {
                    &&& r@[i].path == self.routes()[i].path_pattern
                    &&& r@[i].host == self.routes()[i].host_pattern
                    &&& r@[i].methods@ == self.routes()[i].methods@
                    &&& r@[i].handler_type@ == handler_label(self.routes()[i].handler)
                    &&& r@[i].priority == self.routes()[i].priority
                },
    {
        let mut out: Vec<RouteInfo> = Vec::new();
        let mut i: usize = 0;
        while i < self.routes.len()
            invariant
                i <= self.routes@.len(),
                out@.len() == i,
                forall|j: int| #![trigger out@[j]]
                    0 <= j < i ==> {
                        &&& out@[j].path == self.routes@[j].path_pattern
                        &&& out@[j].host == self.routes@[j].host_pattern
                        &&& out@[j].methods@ == self.routes@[j].methods@
                        &&& out@[j].handler_type@ == handler_label(self.routes@[j].handler)
                        &&& out@[j].priority == self.routes@[j].priority
                    },
            decreases self.routes@.len() - i,
        {
            let route = &self.routes[i];
            let handler_type = match &route.handler {
                RouteHandler::Proxy { upstream_name } => proxy_label(upstream_name),
                RouteHandler::Static => "static".to_string(),
                RouteHandler::Health => "health".to_string(),
                RouteHandler::Admin => "admin".to_string(),
            };
            out.push(
                RouteInfo {
                    path: route.path_pattern.clone(),
                    host: clone_opt(&route.host_pattern),
                    methods: clone_strings(&route.methods),
                    handler_type,
                    priority: route.priority,
                },
            );
            i = i + 1;
        }
        out
    }
}

proof fn lemma_filter_sorted(s: Seq<Route>, f: spec_fn(Route) -> bool)
    requires
        sorted_by_priority(s),
    ensures
        sorted_by_priority(s.filter(f)),
        forall|i: int| #![trigger s.filter(f)[i]]
            0 <= i < s.filter(f).len() ==> exists|j: int|
                0 <= j < s.len() && s.filter(f)[i] == s[j],
    decreases s.len(),
{
    reveal(Seq::filter);
    if s.len() > 0 {
        let init = s.drop_last();
        assert(sorted_by_priority(init));
        lemma_filter_sorted(init, f);
        let fi = init.filter(f);
        assert forall|i: int| 0 <= i < fi.len() implies fi[i].priority >= s.last().priority by {
            let j = choose|j: int| 0 <= j < init.len() && fi[i] == init[j];
            assert(init[j] == s[j]);
        }
        if f(s.last()) {
            assert forall|i: int| #![trigger s.filter(f)[i]] 0 <= i < s.filter(f).len() implies exists|j: int|
                0 <= j < s.len() && s.filter(f)[i] == s[j] by {
                if i < fi.len() {
                    let j = choose|j: int| 0 <= j < init.len() && fi[i] == init[j];
                    assert(s.filter(f)[i] == s[j]);
                } else {
                    assert(s.filter(f)[i] == s[s.len() - 1]);
                }
            }
        } else {
            assert forall|i: int| #![trigger s.filter(f)[i]] 0 <= i < s.filter(f).len() implies exists|j: int|
                0 <= j < s.len() && s.filter(f)[i] == s[j] by {
                let j = choose|j: int| 0 <= j < init.len() && fi[i] == init[j];
                assert(s.filter(f)[i] == s[j]);
            }
        }
    }
}

} // verus!
