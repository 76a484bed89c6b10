use std::collections::HashMap;

use route_rs::route_router::routekey::{Segment, Segments};
use route_rs::route_router::router::Router;

#[test]
fn test_test() {
    let registered = Segments(Vec::from_iter([Segment::Slash, Segment::Param("test".to_string())]));

    let req = Vec::from_iter([Segment::Slash, Segment::Exact("test".to_string())]);

    let result = registered.find(&req);

    let Some(testing) = result else {
        panic!();
    };

    let hash: HashMap<String, String> =
        HashMap::from_iter([("test".to_string(), "test".to_string())]);

    let got: HashMap<String, String> = testing.0.into_iter().collect();
    assert_eq!(got, hash);
}

#[test]
fn static_routes() {
    let test = "/test";

    let result = Segments::from(test);

    let expected_result = Vec::from_iter([Segment::Slash, Segment::Exact("test".to_string())]);

    assert_eq!(result.0, expected_result);
}

#[test]
fn dynamic_routes() {
    let test = "/test/:dynamic";

    let result = Segments::from(test);

    let expected_result = Vec::from_iter([
        Segment::Slash,
        Segment::Exact("test".to_string()),
        Segment::Slash,
        Segment::Param("dynamic".to_string()),
    ]);

    assert_eq!(result.0, expected_result);
}

#[test]
fn test() {
    let mut router = Router::default();

    let nice = "nice".to_string();

    router.at("/test", nice.clone());
    router.at("/test/:var/:fdshj", nice.clone());
    router.at("/test/:var", nice.clone());
    router.at("/test2", nice.clone());
}

#[test]
fn path_without_leading_slash_gets_one() {
    let result = Segments::from("ab");
    assert_eq!(result.0, vec![Segment::Slash, Segment::Exact("ab".to_string())]);
}

#[test]
fn one_letter_segment_takes_the_following_slash() {
    let result = Segments::from("/a/b");
    assert_eq!(result.0, vec![Segment::Slash, Segment::Exact("a/b".to_string())]);
}

#[test]
fn empty_path_has_no_segments() {
    let result = Segments::from("");
    assert_eq!(result.0, Vec::<Segment>::new());
}

#[test]
fn num_params_counts_parameters() {
    assert_eq!(Segments::from("/ab/:b/:c").num_params(), 2);
    assert_eq!(Segments::from("/abc").num_params(), 0);
}

#[test]
fn find_needs_equal_lengths() {
    let route = Segments::from("/test");
    let req = Segments::from("/test/more");
    assert!(route.find(&req.0).is_none());
}

#[test]
fn find_stops_at_first_mismatch() {
    let route = Segments::from("/ab/:x");
    let req = Segments::from("/cd/ef");
    let params = route.find(&req.0).unwrap();
    assert!(params.0.is_empty());
}

#[test]
fn router_finds_and_caches() {
    let mut router = Router::default();
    router.at("/user/:id", 1);
    router.at("/about", 2);
    let m = router.find("/user/42").unwrap();
    assert_eq!(*m.value, 1);
    assert_eq!(m.params.0, vec![("id".to_string(), "42".to_string())]);
    let m = router.find("/about").unwrap();
    assert_eq!(*m.value, 2);
    assert!(m.params.0.is_empty());
    // the second lookup answers from the cache, with the same route
    let m = router.find("/about").unwrap();
    assert_eq!(*m.value, 2);
    assert!(router.find("/xx/yy/zz").is_none());
}

#[test]
fn router_at_mut_changes_the_value() {
    let mut router = Router::default();
    router.at("/a", 1);
    {
        let m = router.at_mut("/zz").unwrap();
        *m.value = 5;
    }
    assert_eq!(*router.find("/a").unwrap().value, 5);
}

#[test]
fn routes_with_more_params_are_tried_first() {
    let mut router = Router::default();
    router.at("/st/atic", "static");
    router.at("/:a/:b", "params");
    // both routes have four segments; the one with more parameters wins
    let m = router.find("/st/atic").unwrap();
    assert_eq!(*m.value, "params");
}

use route_rs::route_http::method::HttpMethod;
use route_rs::route_router::node::Node;
use route_rs::route_router::{NoRouteFound, Route, RouterMount};

type PathRouter = route_rs::route_router::Router<&'static str>;

#[test]
fn path_router_finds_literal_routes() {
    let mut router = PathRouter::mount_root();
    router.route(HttpMethod::Get, "/users/list".to_string(), Route::new("list"));
    router.route(HttpMethod::Post, "/users/list".to_string(), Route::new("create"));
    let found = router.match_route(HttpMethod::Get, "/users/list").ok().unwrap();
    assert_eq!(found.route.handler, "list");
    assert!(found.variables.0.is_empty());
    let found = router.match_route(HttpMethod::Post, "/users/list").ok().unwrap();
    assert_eq!(found.route.handler, "create");
    assert!(router.match_route(HttpMethod::Delete, "/users/list").is_err());
    assert!(router.match_route(HttpMethod::Get, "/users").is_err());
}

#[test]
fn path_router_binds_variables() {
    let mut router = PathRouter::mount_root();
    router.route(HttpMethod::Get, "/users/{id}/posts".to_string(), Route::new("posts"));
    let found = router.match_route(HttpMethod::Get, "/users/42/posts").ok().unwrap();
    assert_eq!(found.route.handler, "posts");
    assert_eq!(found.variables.0, vec![("id".to_string(), "42".to_string())]);
}

#[test]
fn path_router_prefers_literal_children() {
    let mut router = PathRouter::mount_root();
    router.route(HttpMethod::Get, "/a/{x}".to_string(), Route::new("var"));
    router.route(HttpMethod::Get, "/a/fixed".to_string(), Route::new("fixed"));
    assert_eq!(router.match_route(HttpMethod::Get, "/a/fixed").ok().unwrap().route.handler, "fixed");
    assert_eq!(router.match_route(HttpMethod::Get, "/a/other").ok().unwrap().route.handler, "var");
}

#[test]
fn path_router_replaces_a_route() {
    let mut router = PathRouter::mount_root();
    router.route(HttpMethod::Get, "/x".to_string(), Route::new("old"));
    router.route(HttpMethod::Get, "/x".to_string(), Route::new("new"));
    assert_eq!(router.match_route(HttpMethod::Get, "/x").ok().unwrap().route.handler, "new");
}

#[test]
fn empty_router_matches_nothing() {
    let router = PathRouter::mount_root();
    assert_eq!(router.match_route(HttpMethod::Get, "/").err(), Some(NoRouteFound));
}

#[test]
fn mounted_router_strips_its_prefix() {
    let mut router = PathRouter::mount_at("/api/".to_string());
    router.route(HttpMethod::Get, "/items".to_string(), Route::new("items"));
    assert_eq!(router.match_route(HttpMethod::Get, "/api/items").ok().unwrap().route.handler, "items");
    assert!(router.match_route(HttpMethod::Get, "/items").is_err());
    // without a final `/` the prefix leaves an empty first part, which no route has
    let mut bare = PathRouter::mount_at("/api".to_string());
    bare.route(HttpMethod::Get, "/items".to_string(), Route::new("items"));
    assert!(bare.match_route(HttpMethod::Get, "/api/items").is_err());
    assert_eq!(RouterMount::Path("/api".to_string()).as_str(), "/api");
    assert_eq!(RouterMount::Root.as_str(), "/");
}

#[test]
fn empty_node_has_no_handler() {
    let node: Node<u8> = Node::new();
    assert!(node.at("").is_none());
    assert!(node.internal_at("").is_none());
}

#[test]
fn empty_node_gives_no_handler_to_change() {
    let mut node: Node<u8> = Node::new();
    assert!(node.at_mut("").is_none());
    assert!(node.at_mut("/a").is_none());
    assert!(node.at("/a").is_none());
}
