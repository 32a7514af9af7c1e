//! End-to-end dispatch behaviour: hooks, middleware ordering, handler
//! invocation and error recovery, driven through a test host that owns
//! the callbacks.

use std::collections::HashMap;

use zap::types::lookup_pair;
use zap::{
    CallbackHost, Dispatcher, HookPipeline, MiddlewareChain, MiddlewareDecision, Request,
    Response, RouteTableBuilder, ZapError,
};

type HandlerFn = Box<dyn Fn(&mut Vec<String>, Request) -> Result<Response, ZapError>>;
type PreFn = Box<dyn Fn(&mut Vec<String>, Request) -> Result<Request, ZapError>>;
type PostFn = Box<dyn Fn(&mut Vec<String>, Response) -> Result<Response, ZapError>>;
type ErrFn = Box<dyn Fn(&mut Vec<String>, ZapError) -> Result<Response, ZapError>>;
type EnterFn = Box<dyn Fn(&mut Vec<String>, Request) -> MiddlewareDecision>;
type ExitFn =
    Box<dyn Fn(&mut Vec<String>, Result<Response, ZapError>) -> Result<Response, ZapError>>;

struct TestHost {
    handlers: HashMap<u64, HandlerFn>,
    pre_hooks: HashMap<u64, PreFn>,
    post_hooks: HashMap<u64, PostFn>,
    error_hooks: HashMap<u64, ErrFn>,
    enters: HashMap<u64, EnterFn>,
    exits: HashMap<u64, ExitFn>,
    trace: Vec<String>,
}

impl TestHost {
    fn new() -> TestHost {
        TestHost {
            handlers: HashMap::new(),
            pre_hooks: HashMap::new(),
            post_hooks: HashMap::new(),
            error_hooks: HashMap::new(),
            enters: HashMap::new(),
            exits: HashMap::new(),
            trace: Vec::new(),
        }
    }
}

impl CallbackHost for TestHost {
    fn run_pre_routing(&mut self, hook: u64, request: Request) -> Result<Request, ZapError> {
        match self.pre_hooks.get(&hook) {
            Some(f) => f(&mut self.trace, request),
            None => Ok(request),
        }
    }

    fn enter_middleware(&mut self, middleware: u64, request: Request) -> MiddlewareDecision {
        match self.enters.get(&middleware) {
            Some(f) => f(&mut self.trace, request),
            None => MiddlewareDecision::Proceed { request },
        }
    }

    fn invoke_handler(&mut self, handler: u64, request: Request) -> Result<Response, ZapError> {
        match self.handlers.get(&handler) {
            Some(f) => f(&mut self.trace, request),
            None => Err(ZapError::internal("no such handler")),
        }
    }

    fn exit_middleware(
        &mut self,
        middleware: u64,
        outcome: Result<Response, ZapError>,
    ) -> Result<Response, ZapError> {
        match self.exits.get(&middleware) {
            Some(f) => f(&mut self.trace, outcome),
            None => outcome,
        }
    }

    fn run_post_handler(&mut self, hook: u64, response: Response) -> Result<Response, ZapError> {
        match self.post_hooks.get(&hook) {
            Some(f) => f(&mut self.trace, response),
            None => Ok(response),
        }
    }

    fn run_error_hook(&mut self, hook: u64, error: ZapError) -> Result<Response, ZapError> {
        match self.error_hooks.get(&hook) {
            Some(f) => f(&mut self.trace, error),
            None => Err(error),
        }
    }
}

fn body_content(resp: &Response) -> &str {
    resp.body.as_ref().map(|b| b.content.as_str()).unwrap_or("")
}

fn path_param(req: &Request, name: &str) -> String {
    lookup_pair(&req.params.path_params, &name.to_string())
        .map(|v| v.clone())
        .unwrap_or_default()
}

fn query_string(req: &Request) -> String {
    let mut out = String::new();
    for (k, v) in req.params.query_params.iter() {
        if !out.is_empty() {
            out.push('&');
        }
        out.push_str(k);
        out.push('=');
        out.push_str(v);
    }
    out
}

fn header<'a>(resp: &'a Response, name: &str) -> Option<&'a str> {
    resp.headers
        .iter()
        .find(|(k, _)| k == name)
        .map(|(_, v)| v.as_str())
}

#[test]
fn test_basic_routing() {
    let mut builder = RouteTableBuilder::new();
    let root = builder.get("/").unwrap();
    let create = builder.post("/users").unwrap();
    let dispatcher =
        Dispatcher::new(builder.freeze(), MiddlewareChain::new(), HookPipeline::new());

    let mut host = TestHost::new();
    host.handlers
        .insert(root, Box::new(|_, _| Ok(Response::text(200, "Hello, World!"))));
    host.handlers
        .insert(create, Box::new(|_, _| Ok(Response::text(200, "User created"))));

    let resp = dispatcher.dispatch(&mut host, Request::new("GET", "/"));
    assert_eq!(resp.status, 200);
    assert_eq!(body_content(&resp), "Hello, World!");

    let resp = dispatcher.dispatch(&mut host, Request::new("POST", "/users"));
    assert_eq!(resp.status, 200);
    assert_eq!(body_content(&resp), "User created");

    // An unregistered path converges to the default 404 response.
    let resp = dispatcher.dispatch(&mut host, Request::new("GET", "/nonexistent"));
    assert_eq!(resp.status, 404);
}

#[test]
fn test_path_parameters() {
    let mut builder = RouteTableBuilder::new();
    let id = builder.get("/users/:id").unwrap();
    let dispatcher =
        Dispatcher::new(builder.freeze(), MiddlewareChain::new(), HookPipeline::new());

    let mut host = TestHost::new();
    host.handlers.insert(
        id,
        Box::new(|_, req| Ok(Response::text(200, &format!("User ID: {}", path_param(&req, "id"))))),
    );

    let resp = dispatcher.dispatch(&mut host, Request::new("GET", "/users/123"));
    assert_eq!(resp.status, 200);
    assert_eq!(body_content(&resp), "User ID: 123");
}

#[test]
fn test_path_parameter_extraction() {
    let mut builder = RouteTableBuilder::new();
    let id = builder.get("/users/:id/posts/:post_id").unwrap();
    let dispatcher =
        Dispatcher::new(builder.freeze(), MiddlewareChain::new(), HookPipeline::new());

    let mut host = TestHost::new();
    host.handlers.insert(
        id,
        Box::new(|_, req| {
            Ok(Response::text(
                200,
                &format!("User {} Post {}", path_param(&req, "id"), path_param(&req, "post_id")),
            ))
        }),
    );

    let resp = dispatcher.dispatch(&mut host, Request::new("GET", "/users/123/posts/456"));
    assert_eq!(resp.status, 200);
    assert_eq!(body_content(&resp), "User 123 Post 456");
}

#[test]
fn test_query_parameter_handling() {
    let mut builder = RouteTableBuilder::new();
    let id = builder.get("/search").unwrap();
    let dispatcher =
        Dispatcher::new(builder.freeze(), MiddlewareChain::new(), HookPipeline::new());

    let mut host = TestHost::new();
    host.handlers.insert(
        id,
        Box::new(|_, req| Ok(Response::text(200, &format!("Query: {}", query_string(&req))))),
    );

    let resp = dispatcher.dispatch(&mut host, Request::new("GET", "/search?q=test&page=1"));
    assert_eq!(resp.status, 200);
    assert_eq!(body_content(&resp), "Query: q=test&page=1");
}

#[test]
fn test_mixed_parameters() {
    let mut builder = RouteTableBuilder::new();
    let id = builder.get("/users/:id").unwrap();
    let dispatcher =
        Dispatcher::new(builder.freeze(), MiddlewareChain::new(), HookPipeline::new());

    let mut host = TestHost::new();
    host.handlers.insert(
        id,
        Box::new(|_, req| {
            Ok(Response::text(
                200,
                &format!("User {} Query {}", path_param(&req, "id"), query_string(&req)),
            ))
        }),
    );

    let resp = dispatcher.dispatch(&mut host, Request::new("GET", "/users/123?role=admin"));
    assert_eq!(resp.status, 200);
    assert_eq!(body_content(&resp), "User 123 Query role=admin");
}

#[test]
fn test_optional_parameters() {
    let mut builder = RouteTableBuilder::new();
    let id = builder.get("/items").unwrap();
    let dispatcher =
        Dispatcher::new(builder.freeze(), MiddlewareChain::new(), HookPipeline::new());

    let mut host = TestHost::new();
    host.handlers.insert(
        id,
        Box::new(|_, req| {
            let q = query_string(&req);
            let shown = if q.is_empty() { "no params".to_string() } else { q };
            Ok(Response::text(200, &format!("Items with {}", shown)))
        }),
    );

    let resp = dispatcher.dispatch(&mut host, Request::new("GET", "/items"));
    assert_eq!(resp.status, 200);
    assert_eq!(body_content(&resp), "Items with no params");

    let resp = dispatcher.dispatch(&mut host, Request::new("GET", "/items?page=1&limit=10"));
    assert_eq!(resp.status, 200);
    assert_eq!(body_content(&resp), "Items with page=1&limit=10");
}

#[test]
fn test_invalid_parameters() {
    let mut builder = RouteTableBuilder::new();
    let id = builder.get("/users/:id").unwrap();
    let dispatcher =
        Dispatcher::new(builder.freeze(), MiddlewareChain::new(), HookPipeline::new());

    let mut host = TestHost::new();
    host.handlers.insert(
        id,
        Box::new(|_, req| {
            let user_id = path_param(&req, "id");
            if !user_id.chars().all(char::is_numeric) {
                return Err(ZapError::internal("User ID must be numeric"));
            }
            Ok(Response::text(200, &format!("Valid user {}", user_id)))
        }),
    );

    // Without error hooks the failure converges to the default response.
    let resp = dispatcher.dispatch(&mut host, Request::new("GET", "/users/abc"));
    assert_eq!(resp.status, 500);
    assert_eq!(body_content(&resp), "User ID must be numeric");

    let resp = dispatcher.dispatch(&mut host, Request::new("GET", "/users/123"));
    assert_eq!(resp.status, 200);
    assert_eq!(body_content(&resp), "Valid user 123");
}

#[test]
fn test_middleware_chain() {
    let mut builder = RouteTableBuilder::new();
    let id = builder.get("/test").unwrap();
    let mut chain = MiddlewareChain::new();
    let mw = chain.add().unwrap();
    let dispatcher = Dispatcher::new(builder.freeze(), chain, HookPipeline::new());

    let mut host = TestHost::new();
    host.handlers
        .insert(id, Box::new(|_, _| Ok(Response::text(200, "test"))));
    host.exits.insert(
        mw,
        Box::new(|_, outcome| {
            let mut resp = outcome?;
            resp.headers
                .push(("X-Custom-Header".to_string(), "test-value".to_string()));
            Ok(resp)
        }),
    );

    let resp = dispatcher.dispatch(&mut host, Request::new("GET", "/test"));
    assert_eq!(resp.status, 200);
    assert_eq!(header(&resp, "X-Custom-Header"), Some("test-value"));
}

#[test]
fn test_middleware_order() {
    let mut builder = RouteTableBuilder::new();
    let id = builder.get("/test").unwrap();
    let mut chain = MiddlewareChain::new();
    let first = chain.add().unwrap();
    let second = chain.add().unwrap();
    let dispatcher = Dispatcher::new(builder.freeze(), chain, HookPipeline::new());

    let mut host = TestHost::new();
    host.enters.insert(
        first,
        Box::new(|trace, request| {
            trace.push("first:start".to_string());
            MiddlewareDecision::Proceed { request }
        }),
    );
    host.exits.insert(
        first,
        Box::new(|trace, outcome| {
            trace.push("first:end".to_string());
            outcome
        }),
    );
    host.enters.insert(
        second,
        Box::new(|trace, request| {
            trace.push("second:start".to_string());
            MiddlewareDecision::Proceed { request }
        }),
    );
    host.exits.insert(
        second,
        Box::new(|trace, outcome| {
            trace.push("second:end".to_string());
            outcome
        }),
    );
    host.handlers.insert(
        id,
        Box::new(|trace, _| {
            trace.push("handler".to_string());
            Ok(Response::text(200, "ok"))
        }),
    );

    let resp = dispatcher.dispatch(&mut host, Request::new("GET", "/test"));
    assert_eq!(resp.status, 200);
    assert_eq!(
        host.trace,
        vec!["first:start", "second:start", "handler", "second:end", "first:end"]
    );
}

#[test]
fn test_middleware_short_circuit() {
    let mut builder = RouteTableBuilder::new();
    let id = builder.get("/test").unwrap();
    let mut chain = MiddlewareChain::new();
    let outer = chain.add().unwrap();
    let inner = chain.add().unwrap();
    let dispatcher = Dispatcher::new(builder.freeze(), chain, HookPipeline::new());

    let mut host = TestHost::new();
    host.enters.insert(
        outer,
        Box::new(|trace, request| {
            trace.push("outer:start".to_string());
            MiddlewareDecision::Proceed { request }
        }),
    );
    host.exits.insert(
        outer,
        Box::new(|trace, outcome| {
            trace.push("outer:end".to_string());
            outcome
        }),
    );
    host.enters.insert(
        inner,
        Box::new(|trace, _| {
            trace.push("inner:short-circuit".to_string());
            MiddlewareDecision::Resolve { outcome: Ok(Response::text(403, "stopped")) }
        }),
    );
    host.handlers.insert(
        id,
        Box::new(|trace, _| {
            trace.push("handler".to_string());
            Ok(Response::text(200, "ok"))
        }),
    );

    let resp = dispatcher.dispatch(&mut host, Request::new("GET", "/test"));
    // The handler never ran; the outer middleware still saw the outcome.
    assert_eq!(resp.status, 403);
    assert_eq!(body_content(&resp), "stopped");
    assert_eq!(host.trace, vec!["outer:start", "inner:short-circuit", "outer:end"]);
}

#[test]
fn test_hooks() {
    let mut builder = RouteTableBuilder::new();
    let id = builder.get("/hook-test").unwrap();
    let mut pipeline = HookPipeline::new();
    let pre = pipeline.add_pre_routing().unwrap();
    let post = pipeline.add_post_handler().unwrap();
    let dispatcher = Dispatcher::new(builder.freeze(), MiddlewareChain::new(), pipeline);

    let mut host = TestHost::new();
    host.pre_hooks.insert(
        pre,
        Box::new(|_, mut req| {
            req.headers
                .push(("X-Pre-Route".to_string(), "pre-route-value".to_string()));
            Ok(req)
        }),
    );
    host.post_hooks.insert(
        post,
        Box::new(|_, mut resp| {
            resp.headers
                .push(("X-Post-Handler".to_string(), "post-handler-value".to_string()));
            Ok(resp)
        }),
    );
    host.handlers.insert(
        id,
        Box::new(|_, req| {
            if req.headers.iter().any(|(k, _)| k == "X-Pre-Route") {
                Ok(Response::text(200, "hook test"))
            } else {
                Err(ZapError::internal("pre-routing hook not applied"))
            }
        }),
    );

    let resp = dispatcher.dispatch(&mut host, Request::new("GET", "/hook-test"));
    assert_eq!(resp.status, 200);
    assert_eq!(body_content(&resp), "hook test");
    assert_eq!(header(&resp, "X-Post-Handler"), Some("post-handler-value"));
}

#[test]
fn test_pre_routing_failure() {
    let mut builder = RouteTableBuilder::new();
    let id = builder.get("/guarded").unwrap();
    let mut pipeline = HookPipeline::new();
    let pre = pipeline.add_pre_routing().unwrap();
    let dispatcher = Dispatcher::new(builder.freeze(), MiddlewareChain::new(), pipeline);

    let mut host = TestHost::new();
    host.pre_hooks.insert(
        pre,
        Box::new(|_, _| Err(ZapError::validation_error("rejected before routing", None))),
    );
    host.handlers.insert(
        id,
        Box::new(|trace, _| {
            trace.push("handler".to_string());
            Ok(Response::text(200, "should not run"))
        }),
    );

    let resp = dispatcher.dispatch(&mut host, Request::new("GET", "/guarded"));
    assert_eq!(resp.status, 400);
    assert_eq!(body_content(&resp), "rejected before routing");
    assert!(host.trace.is_empty());
}

#[test]
fn test_error_handling() {
    let mut builder = RouteTableBuilder::new();
    let id = builder.get("/error").unwrap();
    let mut pipeline = HookPipeline::new();
    let hook = pipeline.add_error_hook().unwrap();
    let dispatcher = Dispatcher::new(builder.freeze(), MiddlewareChain::new(), pipeline);

    let mut host = TestHost::new();
    host.handlers
        .insert(id, Box::new(|_, _| Err(ZapError::internal("Test error"))));
    host.error_hooks.insert(
        hook,
        Box::new(|_, err| {
            let status = err.status_code();
            Ok(Response::text(status, &format!("Error handled: {}", err.message)))
        }),
    );

    let resp = dispatcher.dispatch(&mut host, Request::new("GET", "/error"));
    assert_eq!(resp.status, 500);
    assert!(body_content(&resp).contains("Test error"));
}

#[test]
fn test_error_hook_short_circuit() {
    let mut builder = RouteTableBuilder::new();
    let id = builder.get("/error").unwrap();
    let mut pipeline = HookPipeline::new();
    let failing = pipeline.add_error_hook().unwrap();
    let recovering = pipeline.add_error_hook().unwrap();
    let third = pipeline.add_error_hook().unwrap();
    let dispatcher = Dispatcher::new(builder.freeze(), MiddlewareChain::new(), pipeline);

    let mut host = TestHost::new();
    host.handlers
        .insert(id, Box::new(|_, _| Err(ZapError::internal("boom"))));
    host.error_hooks.insert(
        failing,
        Box::new(|trace, _| {
            trace.push("failing".to_string());
            Err(ZapError::internal("first hook failed"))
        }),
    );
    host.error_hooks.insert(
        recovering,
        Box::new(|trace, err| {
            trace.push("recovering".to_string());
            Ok(Response::text(200, &format!("recovered from {}", err.message)))
        }),
    );
    host.error_hooks.insert(
        third,
        Box::new(|trace, err| {
            trace.push("third".to_string());
            Err(err)
        }),
    );

    let resp = dispatcher.dispatch(&mut host, Request::new("GET", "/error"));
    // The second hook's response is returned; the first hook's failure is
    // not surfaced, and the third hook never runs.
    assert_eq!(resp.status, 200);
    assert_eq!(body_content(&resp), "recovered from first hook failed");
    assert_eq!(host.trace, vec!["failing", "recovering"]);
}

#[test]
fn test_unrecovered_error_uses_last_failure() {
    let mut builder = RouteTableBuilder::new();
    let id = builder.get("/error").unwrap();
    let mut pipeline = HookPipeline::new();
    let hook = pipeline.add_error_hook().unwrap();
    let dispatcher = Dispatcher::new(builder.freeze(), MiddlewareChain::new(), pipeline);

    let mut host = TestHost::new();
    host.handlers
        .insert(id, Box::new(|_, _| Err(ZapError::internal("original"))));
    host.error_hooks.insert(
        hook,
        Box::new(|_, _| Err(ZapError::validation_error("replacement", None))),
    );

    // The failing hook replaced the current error; its kind decides the
    // default status.
    let resp = dispatcher.dispatch(&mut host, Request::new("GET", "/error"));
    assert_eq!(resp.status, 400);
    assert_eq!(body_content(&resp), "replacement");
}

#[test]
fn test_not_found_skips_chain_and_handler() {
    let mut builder = RouteTableBuilder::new();
    builder.get("/present").unwrap();
    let mut chain = MiddlewareChain::new();
    let mw = chain.add().unwrap();
    let dispatcher = Dispatcher::new(builder.freeze(), chain, HookPipeline::new());

    let mut host = TestHost::new();
    host.enters.insert(
        mw,
        Box::new(|trace, request| {
            trace.push("middleware".to_string());
            MiddlewareDecision::Proceed { request }
        }),
    );

    let resp = dispatcher.dispatch(&mut host, Request::new("GET", "/absent"));
    assert_eq!(resp.status, 404);
    assert!(host.trace.is_empty());
}
