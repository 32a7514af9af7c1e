//! Registration and lookup behaviour of the route table and its trie.

use zap::pattern::Segment;
use zap::types::lookup_pair;
use zap::{ErrorKind, FieldIssue, RouteParams, RouteTable, RouteTableBuilder, ZapError};

fn param<'a>(params: &'a RouteParams, name: &str) -> &'a str {
    lookup_pair(&params.path_params, &name.to_string())
        .expect("parameter should be captured")
        .as_str()
}

#[test]
fn test_router_with_params() {
    let mut builder = RouteTableBuilder::new();

    let user_id = builder
        .register("GET", "/users/:id")
        .unwrap();
    let post_id = builder
        .register("GET", "/posts/:id/comments/:commentId")
        .unwrap();
    let wildcard = builder.register("GET", "/files/*").unwrap();
    let table = builder.freeze();

    let (handler_id, params) = table
        .lookup("GET", "/users/123")
        .expect("Should match user route");
    assert_eq!(handler_id, user_id);
    assert_eq!(param(&params, "id"), "123");

    let (handler_id, params) = table
        .lookup("GET", "/posts/456/comments/789")
        .expect("Should match post route");
    assert_eq!(handler_id, post_id);
    assert_eq!(param(&params, "id"), "456");
    assert_eq!(param(&params, "commentId"), "789");

    let (handler_id, params) = table
        .lookup("GET", "/files/path/to/file.txt")
        .expect("Should match wildcard route");
    assert_eq!(handler_id, wildcard);
    assert_eq!(param(&params, "*"), "path/to/file.txt");
}

#[test]
fn test_exact_static_match() {
    let mut builder = RouteTableBuilder::new();
    let root = builder.get("/").unwrap();
    let table = builder.freeze();

    let (handler_id, params) = table.lookup("GET", "/").unwrap();
    assert_eq!(handler_id, root);
    assert!(params.path_params.is_empty());
    assert!(params.query_params.is_empty());
}

#[test]
fn test_single_param() {
    let mut builder = RouteTableBuilder::new();
    let id = builder.get("/users/:id").unwrap();
    let table = builder.freeze();

    let (handler_id, params) = table.lookup("GET", "/users/123").unwrap();
    assert_eq!(handler_id, id);
    assert_eq!(params.path_params.len(), 1);
    assert_eq!(param(&params, "id"), "123");
}

#[test]
fn test_multi_param() {
    let mut builder = RouteTableBuilder::new();
    let id = builder.get("/posts/:id/comments/:commentId").unwrap();
    let table = builder.freeze();

    let (handler_id, params) = table.lookup("GET", "/posts/456/comments/789").unwrap();
    assert_eq!(handler_id, id);
    assert_eq!(param(&params, "id"), "456");
    assert_eq!(param(&params, "commentId"), "789");
}

#[test]
fn test_wildcard_capture() {
    let mut builder = RouteTableBuilder::new();
    let id = builder.get("/files/*").unwrap();
    let table = builder.freeze();

    let (handler_id, params) = table.lookup("GET", "/files/a/b/c.txt").unwrap();
    assert_eq!(handler_id, id);
    assert_eq!(param(&params, "*"), "a/b/c.txt");

    // The wildcard needs at least one remaining segment.
    assert!(table.lookup("GET", "/files").is_none());
}

#[test]
fn test_precedence() {
    let mut builder = RouteTableBuilder::new();
    let me = builder.get("/users/me").unwrap();
    let by_id = builder.get("/users/:id").unwrap();
    let table = builder.freeze();

    let (handler_id, params) = table.lookup("GET", "/users/me").unwrap();
    assert_eq!(handler_id, me);
    assert!(params.path_params.is_empty());

    let (handler_id, params) = table.lookup("GET", "/users/42").unwrap();
    assert_eq!(handler_id, by_id);
    assert_eq!(param(&params, "id"), "42");
}

#[test]
fn test_backtracking_precedence() {
    // A static subtree exists but has no terminal for the full path: the
    // lookup must fall back to the parameter route at the same node.
    let mut builder = RouteTableBuilder::new();
    let _deep = builder.get("/a/b/c").unwrap();
    let by_param = builder.get("/a/:x/d").unwrap();
    let table = builder.freeze();

    let (handler_id, params) = table.lookup("GET", "/a/b/d").unwrap();
    assert_eq!(handler_id, by_param);
    assert_eq!(param(&params, "x"), "b");
}

#[test]
fn test_pattern_conflict_rejected() {
    let mut builder = RouteTableBuilder::new();
    let first = builder.get("/a/:x").unwrap();

    let err = builder.get("/a/:y").unwrap_err();
    assert_eq!(err.kind, ErrorKind::InvalidRoutePattern);

    // The failed call left the table exactly as it was: the first route
    // is intact and the next registration gets the next identifier.
    let second = builder.get("/b").unwrap();
    assert_eq!(second, first + 1);

    let table = builder.freeze();
    let (handler_id, params) = table.lookup("GET", "/a/7").unwrap();
    assert_eq!(handler_id, first);
    assert_eq!(param(&params, "x"), "7");
}

#[test]
fn test_same_param_name_is_no_conflict() {
    let mut builder = RouteTableBuilder::new();
    let list = builder.get("/users/:id").unwrap();
    let posts = builder.get("/users/:id/posts").unwrap();
    let table = builder.freeze();

    assert_eq!(table.lookup("GET", "/users/9").unwrap().0, list);
    assert_eq!(table.lookup("GET", "/users/9/posts").unwrap().0, posts);
}

#[test]
fn test_nonfinal_wildcard_rejected() {
    let mut builder = RouteTableBuilder::new();
    let err = builder.get("/files/*/meta").unwrap_err();
    assert_eq!(err.kind, ErrorKind::InvalidRoutePattern);

    // The builder is untouched and keeps working.
    let id = builder.get("/files/*").unwrap();
    let table = builder.freeze();
    assert_eq!(table.lookup("GET", "/files/x").unwrap().0, id);
}

#[test]
fn test_overwrite_last_wins() {
    let mut builder = RouteTableBuilder::new();
    let first = builder.get("/dup").unwrap();
    let second = builder.get("/dup").unwrap();
    assert_ne!(first, second);

    let table = builder.freeze();
    assert_eq!(table.lookup("GET", "/dup").unwrap().0, second);
}

#[test]
fn test_method_isolation() {
    let mut builder = RouteTableBuilder::new();
    let get_id = builder.get("/x").unwrap();
    let post_id = builder.post("/x").unwrap();
    let table = builder.freeze();

    assert_eq!(table.lookup("GET", "/x").unwrap().0, get_id);
    assert_eq!(table.lookup("POST", "/x").unwrap().0, post_id);
    assert!(table.lookup("DELETE", "/x").is_none());
}

#[test]
fn test_unmatched_path_lookup() {
    let mut builder = RouteTableBuilder::new();
    builder.get("/known").unwrap();
    let table = builder.freeze();

    assert!(table.lookup("GET", "/unknown").is_none());
    assert!(table.lookup("GET", "/known/deeper").is_none());
}

#[test]
fn test_extra_slashes_are_ignored() {
    let mut builder = RouteTableBuilder::new();
    let id = builder.get("/users/:id").unwrap();
    let table = builder.freeze();

    let (handler_id, params) = table.lookup("GET", "//users//123/").unwrap();
    assert_eq!(handler_id, id);
    assert_eq!(param(&params, "id"), "123");
}

fn build_sample() -> RouteTable {
    let mut builder = RouteTableBuilder::new();
    builder.get("/users/me").unwrap();
    builder.get("/users/:id").unwrap();
    builder.get("/files/*").unwrap();
    builder.post("/users").unwrap();
    builder.freeze()
}

#[test]
fn test_lookup_idempotence() {
    // Two tables frozen from identical registration sequences, and
    // repeated lookups on one table, answer identically.
    let t1 = build_sample();
    let t2 = build_sample();
    let paths = ["/users/me", "/users/7", "/files/a/b", "/users", "/nope"];
    for path in paths.iter() {
        let a = t1.lookup("GET", path);
        let b = t2.lookup("GET", path);
        let c = t1.lookup("GET", path);
        match (a, b, c) {
            (None, None, None) => {}
            (Some(x), Some(y), Some(z)) => {
                assert_eq!(x.0, y.0);
                assert_eq!(x.0, z.0);
                assert_eq!(x.1.path_params, y.1.path_params);
                assert_eq!(x.1.path_params, z.1.path_params);
            }
            _ => panic!("lookups disagreed for {}", path),
        }
    }
}

#[test]
fn test_parse_pattern_segments() {
    let segs = zap::pattern::parse_pattern("/users/:id/*");
    assert_eq!(segs.len(), 3);
    assert!(matches!(&segs[0], Segment::Static { text } if text.as_str() == "users"));
    assert!(matches!(&segs[1], Segment::Param { name } if name.as_str() == "id"));
    assert!(matches!(&segs[2], Segment::Wildcard));
}

#[test]
fn test_query_string_parsing() {
    let pairs = zap::paths::parse_query("a=1&b=2&flag&c=x=y");
    assert_eq!(pairs.len(), 3);
    assert_eq!(pairs[0].0.as_str(), "a");
    assert_eq!(pairs[0].1.as_str(), "1");
    assert_eq!(pairs[1].0.as_str(), "b");
    assert_eq!(pairs[1].1.as_str(), "2");
    // A chunk without `=` is dropped; a second `=` belongs to the value.
    assert_eq!(pairs[2].0.as_str(), "c");
    assert_eq!(pairs[2].1.as_str(), "x=y");
}

#[test]
fn test_split_and_join() {
    let segs = zap::paths::split_str("/a//b/c/", '/');
    assert_eq!(segs.len(), 3);
    assert_eq!(segs[0].as_str(), "a");
    assert_eq!(segs[1].as_str(), "b");
    assert_eq!(segs[2].as_str(), "c");
    assert_eq!(zap::paths::join_from(&segs, 0).as_str(), "a/b/c");
    assert_eq!(zap::paths::join_from(&segs, 1).as_str(), "b/c");
    assert_eq!(zap::paths::join_from(&segs, 3).as_str(), "");
}

#[test]
fn test_error_constructors() {
    let e = ZapError::not_found("/missing");
    assert_eq!(e.kind, ErrorKind::RouteNotFound);
    assert_eq!(e.status_code(), 404);
    assert_eq!(e.message.as_str(), "/missing");
    assert!(e.details.is_none());

    assert_eq!(ZapError::bad_request("bad").status_code(), 400);
    assert_eq!(ZapError::middleware_error("mw").status_code(), 500);
    assert_eq!(ZapError::internal("oops").status_code(), 500);

    let details = vec![FieldIssue { field: "age".to_string(), message: "minimum".to_string() }];
    let v = ZapError::validation_error("invalid", Some(details));
    assert_eq!(v.kind, ErrorKind::ValidationError);
    assert_eq!(v.status_code(), 400);
    let issues = v.details.unwrap();
    assert_eq!(issues.len(), 1);
    assert_eq!(issues[0].field.as_str(), "age");
    assert_eq!(issues[0].message.as_str(), "minimum");
}

#[test]
fn test_error_describe() {
    let e = ZapError::not_found("/missing");
    assert_eq!(e.describe().as_str(), "route not found: /missing");
    let e = ZapError::internal("boom");
    assert_eq!(e.describe().as_str(), "internal error: boom");
}
