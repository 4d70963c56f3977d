use wraith::config::Config;
use wraith::router::{RouteHandler, Router};

fn empty_router() -> Router {
    let mut config = Config::development();
    config.proxy.enabled = false;
    config.static_files.enabled = false;
    let mut router = Router::new(&config);
    router.remove_route("/health", None);
    router
}

fn upstream_of(router: &Router, method: &str, path: &str, host: Option<&str>) -> Option<String> {
    match router.route_request(method, path, host) {
        Some(route) => match &route.handler {
            RouteHandler::Proxy { upstream_name } => Some(upstream_name.clone()),
            RouteHandler::Static => Some("static".to_string()),
            RouteHandler::Health => Some("health".to_string()),
            RouteHandler::Admin => Some("admin".to_string()),
        },
        None => None,
    }
}

#[test]
fn development_table_has_three_routes_in_priority_order() {
    let router = Router::new(&Config::development());
    let routes = router.list_routes();
    assert_eq!(routes.len(), 3);
    assert_eq!(routes[0].path, "/health");
    assert_eq!(routes[0].handler_type, "health");
    assert_eq!(routes[0].methods, vec!["GET".to_string()]);
    assert_eq!(routes[0].priority, 100);
    assert_eq!(routes[1].path, "/*");
    assert_eq!(routes[1].handler_type, "proxy:example");
    assert_eq!(routes[1].priority, 50);
    assert!(routes[1].methods.is_empty());
    assert_eq!(routes[2].handler_type, "static");
    assert_eq!(routes[2].methods, vec!["GET".to_string(), "HEAD".to_string()]);
    assert_eq!(routes[2].priority, 10);
}

#[test]
fn health_route_wins_over_catch_all() {
    let router = Router::new(&Config::development());
    assert_eq!(upstream_of(&router, "GET", "/health", None), Some("health".to_string()));
    assert_eq!(upstream_of(&router, "POST", "/health", None), Some("example".to_string()));
    assert_eq!(upstream_of(&router, "GET", "/other", None), Some("example".to_string()));
}

#[test]
fn static_route_takes_get_and_head_only() {
    let mut config = Config::development();
    config.proxy.enabled = false;
    let router = Router::new(&config);
    assert_eq!(upstream_of(&router, "HEAD", "/index.html", None), Some("static".to_string()));
    assert_eq!(upstream_of(&router, "DELETE", "/index.html", None), None);
}

#[test]
fn higher_priority_matches_first_whatever_the_insertion_order() {
    let mut router = empty_router();
    router.add_route("/*".to_string(), None, vec![], "low".to_string(), 10);
    router.add_route("/api/*".to_string(), None, vec![], "mid".to_string(), 50);
    router.add_route("/api/v1".to_string(), None, vec![], "high".to_string(), 100);
    assert_eq!(upstream_of(&router, "GET", "/api/v1", None), Some("high".to_string()));
    assert_eq!(upstream_of(&router, "GET", "/api/v2", None), Some("mid".to_string()));
    assert_eq!(upstream_of(&router, "GET", "/else", None), Some("low".to_string()));
    let priorities: Vec<u32> = router.list_routes().iter().map(|r| r.priority).collect();
    assert_eq!(priorities, vec![100, 50, 10]);
}

#[test]
fn equal_priorities_keep_insertion_order() {
    let mut router = empty_router();
    router.add_route("/*".to_string(), None, vec![], "first".to_string(), 5);
    router.add_route("/*".to_string(), None, vec![], "second".to_string(), 5);
    assert_eq!(upstream_of(&router, "GET", "/x", None), Some("first".to_string()));
    let labels: Vec<String> = router.list_routes().into_iter().map(|r| r.handler_type).collect();
    assert_eq!(labels, vec!["proxy:first".to_string(), "proxy:second".to_string()]);
}

#[test]
fn parameter_segments_match_any_segment() {
    let mut router = empty_router();
    router.add_route("/users/:id/posts".to_string(), None, vec![], "users".to_string(), 1);
    assert_eq!(upstream_of(&router, "GET", "/users/42/posts", None), Some("users".to_string()));
    assert_eq!(upstream_of(&router, "GET", "/users/42/comments", None), None);
    assert_eq!(upstream_of(&router, "GET", "/users/42/posts/1", None), None);
    assert_eq!(upstream_of(&router, "GET", "/users/42", None), None);
}

#[test]
fn wildcard_needs_the_prefix() {
    let mut router = empty_router();
    router.add_route("/static/*".to_string(), None, vec![], "files".to_string(), 1);
    assert_eq!(upstream_of(&router, "GET", "/static/a/b.css", None), Some("files".to_string()));
    assert_eq!(upstream_of(&router, "GET", "/static", None), Some("files".to_string()));
    assert_eq!(upstream_of(&router, "GET", "/stat", None), None);
}

#[test]
fn exact_pattern_matches_only_itself() {
    let mut router = empty_router();
    router.add_route("/login".to_string(), None, vec![], "auth".to_string(), 1);
    assert_eq!(upstream_of(&router, "GET", "/login", None), Some("auth".to_string()));
    assert_eq!(upstream_of(&router, "GET", "/login/", None), None);
}

#[test]
fn host_and_methods_restrict_a_route() {
    let mut router = empty_router();
    router.add_route(
        "/*".to_string(),
        Some("api.example.com".to_string()),
        vec!["POST".to_string()],
        "api".to_string(),
        1,
    );
    assert_eq!(upstream_of(&router, "POST", "/x", Some("api.example.com")), Some("api".to_string()));
    assert_eq!(upstream_of(&router, "GET", "/x", Some("api.example.com")), None);
    assert_eq!(upstream_of(&router, "POST", "/x", Some("www.example.com")), None);
    assert_eq!(upstream_of(&router, "POST", "/x", None), None);
}

#[test]
fn remove_route_drops_matching_path_and_host() {
    let mut router = empty_router();
    router.add_route("/a".to_string(), None, vec![], "a".to_string(), 3);
    router.add_route("/a".to_string(), Some("h".to_string()), vec![], "ah".to_string(), 2);
    router.add_route("/b".to_string(), None, vec![], "b".to_string(), 1);
    router.remove_route("/a", None);
    let labels: Vec<String> = router.list_routes().into_iter().map(|r| r.handler_type).collect();
    assert_eq!(labels, vec!["proxy:ah".to_string(), "proxy:b".to_string()]);
    router.remove_route("/a", Some("h"));
    assert_eq!(router.list_routes().len(), 1);
    router.remove_route("/zzz", None);
    assert_eq!(router.list_routes().len(), 1);
}

#[test]
fn no_route_is_not_found() {
    let router = empty_router();
    assert!(router.route_request("GET", "/", None).is_none());
    assert!(router.list_routes().is_empty());
}
