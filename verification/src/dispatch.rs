//! The dispatcher: a state machine over one request.
//!
//! The engine never calls a handler, middleware or hook itself — those are
//! callbacks of the embedding application, reached through the
//! [`CallbackHost`] trait.  Instead it answers, step by step, *which*
//! callback is to be invoked next and with what, and what to do with each
//! callback's result:
//!
//! 1. run the pre-routing hooks in order, each seeing the previous one's
//!    request; a failure skips to the error hooks;
//! 2. look the method and path up in the frozen route table; a miss
//!    becomes a route-not-found error; a match captures the path
//!    parameters and merges the query-string pairs beside them;
//! 3. enter the middleware chain front to back ("onion" order: the
//!    earliest-registered middleware sees the request first), then the
//!    handler, then unwind the chain back to front over the outcome;
//! 4. on success run the post-handler hooks in order and respond;
//! 5. on any failure run the error hooks in order: the first to succeed
//!    responds at once, a failing hook replaces the current error, and
//!    when none succeeds the error's kind decides a default response.
//!
//! Every transition is pinned by [`Dispatcher::step_rel`]; a whole
//! dispatch is a run of such transitions ([`Dispatcher::run_ok`]).  A
//! caller that stops stepping abandons the request, so cancellation needs
//! nothing from the engine.

use vstd::prelude::*;

use crate::error::{status_of_kind, ErrorKind, ZapError};
use crate::hooks::HookPipeline;
use crate::middleware::MiddlewareChain;
use crate::paths::{pair_views, parse_query, query_pairs, split_target};
use crate::table::{table_lookup, RouteTable};
use crate::types::{Request, Response, ResponseBody, RouteParams};

verus! {

/// What a middleware did when entered with a request.
pub enum MiddlewareDecision {
    /// It handed a (possibly transformed) request to the rest of the
    /// chain.
    Proceed { request: Request },
    /// It short-circuited: the rest of the chain never runs, and this is
    /// the outcome at its level.
    Resolve { outcome: Result<Response, ZapError> },
}

/// What the dispatcher asks the host to do next.
pub enum Action {
    CallPreRouting { hook: u64, request: Request },
    CallMiddleware { middleware: u64, request: Request },
    CallHandler { handler: u64, request: Request },
    CallMiddlewareExit { middleware: u64, outcome: Result<Response, ZapError> },
    CallPostHandler { hook: u64, response: Response },
    CallErrorHook { hook: u64, error: ZapError },
    /// The dispatch is finished: hand this response to the transport.
    Respond { response: Response },
}

/// What the host observed when it performed the requested action.
pub enum Event {
    PreRoutingReturned { result: Result<Request, ZapError> },
    MiddlewareReturned { decision: MiddlewareDecision },
    HandlerReturned { outcome: Result<Response, ZapError> },
    MiddlewareExitReturned { outcome: Result<Response, ZapError> },
    PostHandlerReturned { result: Result<Response, ZapError> },
    ErrorHookReturned { result: Result<Response, ZapError> },
}

/// Where a dispatch stands: which callback's result it is waiting for.
#[derive(Clone, Copy)]
pub enum DispatchState {
    AwaitingPreRouting { index: usize },
    AwaitingMiddleware { index: usize, handler: u64 },
    AwaitingHandler,
    AwaitingMiddlewareExit { index: usize },
    AwaitingPostHandler { index: usize },
    AwaitingErrorHook { index: usize },
    Responded,
}

/// The path part of a request target: everything before the first `?`.
pub open spec fn target_path(t: Seq<char>) -> Seq<char> {
    match crate::paths::find_first(t, '?') {
        Some(i) => t.take(i),
        None => t,
    }
}

/// The query part of a request target: everything after the first `?`,
/// empty when there is none.
pub open spec fn target_query(t: Seq<char>) -> Seq<char> {
    match crate::paths::find_first(t, '?') {
        Some(i) => t.skip(i + 1),
        None => Seq::empty(),
    }
}

/// The response synthesized when no error hook recovers: the error kind's
/// default status, no headers, and the error message as a plain-text body.
pub open spec fn is_default_response(resp: Response, e: ZapError) -> bool {
    &&& resp.status == status_of_kind(e.kind)
    &&& resp.headers@.len() == 0
    &&& resp.body matches Some(b) && b.content@ == e.message@ && b.type_@ == "text"@
}

/// The request handed past routing: the incoming request with the
/// captured path parameters and the parsed query parameters merged in,
/// everything else unchanged.
pub open spec fn routed_ok(req: Request, req2: Request, caps: Seq<(Seq<char>, Seq<char>)>) -> bool {
    &&& req2.method@ == req.method@
    &&& req2.path@ == req.path@
    &&& req2.headers@ == req.headers@
    &&& req2.body == req.body
    &&& pair_views(req2.params.path_params@) == caps
    &&& pair_views(req2.params.query_params@) == query_pairs(target_query(req.path@))
}

/// Each state awaits exactly one kind of action's result.
pub open spec fn action_fits(s: DispatchState, a: Action) -> bool {
    match s {
        DispatchState::AwaitingPreRouting { .. } => a is CallPreRouting,
        DispatchState::AwaitingMiddleware { .. } => a is CallMiddleware,
        DispatchState::AwaitingHandler => a is CallHandler,
        DispatchState::AwaitingMiddlewareExit { .. } => a is CallMiddlewareExit,
        DispatchState::AwaitingPostHandler { .. } => a is CallPostHandler,
        DispatchState::AwaitingErrorHook { .. } => a is CallErrorHook,
        DispatchState::Responded => a is Respond,
    }
}

/// Each state accepts exactly one kind of event.
pub open spec fn event_fits(s: DispatchState, e: Event) -> bool {
    match s {
        DispatchState::AwaitingPreRouting { .. } => e is PreRoutingReturned,
        DispatchState::AwaitingMiddleware { .. } => e is MiddlewareReturned,
        DispatchState::AwaitingHandler => e is HandlerReturned,
        DispatchState::AwaitingMiddlewareExit { .. } => e is MiddlewareExitReturned,
        DispatchState::AwaitingPostHandler { .. } => e is PostHandlerReturned,
        DispatchState::AwaitingErrorHook { .. } => e is ErrorHookReturned,
        DispatchState::Responded => false,
    }
}

/// The dispatch engine: the frozen route table, the middleware chain, and
/// the hook pipeline.  Immutable while serving; shared by reference across
/// concurrent dispatches, each of which carries its own state.
pub struct Dispatcher {
    pub table: RouteTable,
    pub middleware: MiddlewareChain,
    pub hooks: HookPipeline,
}

/// The embedding application's side of a dispatch: it owns the actual
/// handler, middleware and hook callbacks, keyed by the identifiers the
/// build phase handed out, and invokes one whenever the dispatcher asks.
/// Nothing is assumed about what a callback returns; the dispatcher's
/// guarantees hold for every implementation, and a callback may suspend
/// for as long as it likes before answering.
pub trait CallbackHost {
    /// Run a pre-routing hook over the request.
    fn run_pre_routing(&mut self, hook: u64, request: Request) -> Result<Request, ZapError>;

    /// Enter a middleware with the request and the rest of the chain as
    /// its continuation.
    fn enter_middleware(&mut self, middleware: u64, request: Request) -> MiddlewareDecision;

    /// Invoke the matched terminal handler.
    fn invoke_handler(&mut self, handler: u64, request: Request) -> Result<Response, ZapError>;

    /// Hand the inner chain's outcome back to a middleware that proceeded.
    fn exit_middleware(&mut self, middleware: u64, outcome: Result<Response, ZapError>) -> Result<
        Response,
        ZapError,
    >;

    /// Run a post-handler hook over the response.
    fn run_post_handler(&mut self, hook: u64, response: Response) -> Result<Response, ZapError>;

    /// Try to recover a response from the current error.
    fn run_error_hook(&mut self, hook: u64, error: ZapError) -> Result<Response, ZapError>;
}

impl Dispatcher {
    /// An engine over the given table, chain and pipeline.
    pub fn new(table: RouteTable, middleware: MiddlewareChain, hooks: HookPipeline) -> (d:
        Dispatcher)
        ensures
            d.table == table,
            d.middleware == middleware,
            d.hooks == hooks,
    {
        Dispatcher { table, middleware, hooks }
    }

    /// A state's indices stay inside the engine's lists.
    pub open spec fn state_wf(self, s: DispatchState) -> bool {
        match s {
            DispatchState::AwaitingPreRouting { index } => index < self.hooks.pre_routing@.len(),
            DispatchState::AwaitingMiddleware { index, .. } => index
                < self.middleware.entries@.len(),
            DispatchState::AwaitingHandler => true,
            DispatchState::AwaitingMiddlewareExit { index } => index
                < self.middleware.entries@.len(),
            DispatchState::AwaitingPostHandler { index } => index < self.hooks.post_handler@.len(),
            DispatchState::AwaitingErrorHook { index } => index < self.hooks.error_hooks@.len(),
            DispatchState::Responded => true,
        }
    }

    /// How many steps a dispatch can still take from this state: every
    /// transition strictly decreases it.
    pub open spec fn measure(self, s: DispatchState) -> int {
        let m = self.middleware.entries@.len() as int;
        let pre = self.hooks.pre_routing@.len() as int;
        let post = self.hooks.post_handler@.len() as int;
        let errn = self.hooks.error_hooks@.len() as int;
        match s {
            DispatchState::AwaitingPreRouting { index } => (pre - index) + 2 * m + post + errn + 6,
            DispatchState::AwaitingMiddleware { index, .. } => (m - index) + m + post + errn + 5,
            DispatchState::AwaitingHandler => m + post + errn + 4,
            DispatchState::AwaitingMiddlewareExit { index } => index + post + errn + 4,
            DispatchState::AwaitingPostHandler { index } => (post - index) + errn + 2,
            DispatchState::AwaitingErrorHook { index } => (errn - index) + 1,
            DispatchState::Responded => 0,
        }
    }

    /// Entering the error phase with error `e`: the first error hook is
    /// tried, or, with none registered, the default response is
    /// synthesized at once.
    pub open spec fn fail_rel(self, e: ZapError, r: (DispatchState, Action)) -> bool {
        if self.hooks.error_hooks@.len() > 0 {
            r.0 == (DispatchState::AwaitingErrorHook { index: 0 }) && r.1 == (Action::CallErrorHook {
                hook: self.hooks.error_hooks@[0],
                error: e,
            })
        } else {
            r.0 == DispatchState::Responded && (r.1 matches Action::Respond { response }
                && is_default_response(response, e))
        }
    }

    /// Delivering a successful chain outcome: the first post-handler hook
    /// is run, or, with none registered, the response goes out as is.
    pub open spec fn respond_rel(self, resp: Response, r: (DispatchState, Action)) -> bool {
        if self.hooks.post_handler@.len() > 0 {
            r.0 == (DispatchState::AwaitingPostHandler { index: 0 }) && r.1 == (
            Action::CallPostHandler { hook: self.hooks.post_handler@[0], response: resp })
        } else {
            r.0 == DispatchState::Responded && r.1 == (Action::Respond { response: resp })
        }
    }

    /// Unwinding the chain at `level` (the number of middlewares whose
    /// exits are still owed) with the inner outcome: the innermost owed
    /// middleware's exit is called next, and once none is owed the
    /// outcome leaves the chain — success to the post-handler hooks,
    /// failure to the error hooks.
    pub open spec fn unwind_rel(
        self,
        level: int,
        outcome: Result<Response, ZapError>,
        r: (DispatchState, Action),
    ) -> bool {
        if level == 0 {
            match outcome {
                Ok(resp) => self.respond_rel(resp, r),
                Err(e) => self.fail_rel(e, r),
            }
        } else {
            r.0 == (DispatchState::AwaitingMiddlewareExit { index: (level - 1) as usize }) && r.1
                == (Action::CallMiddlewareExit {
                middleware: self.middleware.entries@[level - 1],
                outcome: outcome,
            })
        }
    }

    /// Entering the chain around handler `h` with the routed request: the
    /// first middleware is entered, or, with none registered, the handler
    /// is invoked directly.
    pub open spec fn enter_chain_rel(
        self,
        h: u64,
        req2: Request,
        r: (DispatchState, Action),
    ) -> bool {
        if self.middleware.entries@.len() > 0 {
            r.0 == (DispatchState::AwaitingMiddleware { index: 0, handler: h }) && r.1 == (
            Action::CallMiddleware { middleware: self.middleware.entries@[0], request: req2 })
        } else {
            r.0 == DispatchState::AwaitingHandler && r.1 == (Action::CallHandler {
                handler: h,
                request: req2,
            })
        }
    }

    /// A matched route: the request gains its captured parameters and the
    /// chain is entered.
    pub open spec fn routed_to(
        self,
        req: Request,
        h: u64,
        caps: Seq<(Seq<char>, Seq<char>)>,
        req2: Request,
        r: (DispatchState, Action),
    ) -> bool {
        routed_ok(req, req2, caps) && self.enter_chain_rel(h, req2, r)
    }

    /// A missed route: a route-not-found error carrying the path enters
    /// the error phase.
    pub open spec fn not_found_fail(self, req: Request, e: ZapError, r: (DispatchState, Action)) -> bool {
        e.kind == ErrorKind::RouteNotFound && e.message@ == target_path(req.path@) && e.details
            is None && self.fail_rel(e, r)
    }

    /// Routing a pre-routed request: what the table lookup of its method
    /// and path part decides.
    #[verifier::opaque]
    pub open spec fn route_rel(self, req: Request, r: (DispatchState, Action)) -> bool {
        match table_lookup(self.table.entries@, req.method@, target_path(req.path@)) {
            Some(found) => exists|req2: Request| #[trigger] self.routed_to(
                req,
                found.0,
                found.1,
                req2,
                r,
            ),
            None => exists|e: ZapError| #[trigger] self.not_found_fail(req, e, r),
        }
    }

    /// The first transition of a dispatch: the first pre-routing hook is
    /// run, or, with none registered, the request is routed at once.
    pub open spec fn begin_rel(self, req: Request, r: (DispatchState, Action)) -> bool {
        if self.hooks.pre_routing@.len() > 0 {
            r.0 == (DispatchState::AwaitingPreRouting { index: 0 }) && r.1 == (
            Action::CallPreRouting { hook: self.hooks.pre_routing@[0], request: req })
        } else {
            self.route_rel(req, r)
        }
    }

    /// Every later transition of a dispatch, pinned case by case.
    pub open spec fn step_rel(self, s: DispatchState, e: Event, r: (DispatchState, Action)) -> bool {
        match s {
            DispatchState::AwaitingPreRouting { index } => match e {
                Event::PreRoutingReturned { result } => match result {
                    Ok(req2) => if index + 1 < self.hooks.pre_routing@.len() {
                        r.0 == (DispatchState::AwaitingPreRouting { index: (index + 1) as usize })
                            && r.1 == (Action::CallPreRouting {
                            hook: self.hooks.pre_routing@[index + 1],
                            request: req2,
                        })
                    } else {
                        self.route_rel(req2, r)
                    },
                    Err(err) => self.fail_rel(err, r),
                },
                _ => false,
            },
            DispatchState::AwaitingMiddleware { index, handler } => match e {
                Event::MiddlewareReturned { decision } => match decision {
                    MiddlewareDecision::Proceed { request } => if index + 1
                        < self.middleware.entries@.len() {
                        r.0 == (DispatchState::AwaitingMiddleware {
                            index: (index + 1) as usize,
                            handler,
                        }) && r.1 == (Action::CallMiddleware {
                            middleware: self.middleware.entries@[index + 1],
                            request: request,
                        })
                    } else {
                        r.0 == DispatchState::AwaitingHandler && r.1 == (Action::CallHandler {
                            handler,
                            request: request,
                        })
                    },
                    MiddlewareDecision::Resolve { outcome } => self.unwind_rel(
                        index as int,
                        outcome,
                        r,
                    ),
                },
                _ => false,
            },
            DispatchState::AwaitingHandler => match e {
                Event::HandlerReturned { outcome } => self.unwind_rel(
                    self.middleware.entries@.len() as int,
                    outcome,
                    r,
                ),
                _ => false,
            },
            DispatchState::AwaitingMiddlewareExit { index } => match e {
                Event::MiddlewareExitReturned { outcome } => self.unwind_rel(
                    index as int,
                    outcome,
                    r,
                ),
                _ => false,
            },
            DispatchState::AwaitingPostHandler { index } => match e {
                Event::PostHandlerReturned { result } => match result {
                    Ok(resp) => if index + 1 < self.hooks.post_handler@.len() {
                        r.0 == (DispatchState::AwaitingPostHandler { index: (index + 1) as usize })
                            && r.1 == (Action::CallPostHandler {
                            hook: self.hooks.post_handler@[index + 1],
                            response: resp,
                        })
                    } else {
                        r.0 == DispatchState::Responded && r.1 == (Action::Respond {
                            response: resp,
                        })
                    },
                    Err(err) => self.fail_rel(err, r),
                },
                _ => false,
            },
            DispatchState::AwaitingErrorHook { index } => match e {
                Event::ErrorHookReturned { result } => match result {
                    Ok(resp) => r.0 == DispatchState::Responded && r.1 == (Action::Respond {
                        response: resp,
                    }),
                    Err(err) => if index + 1 < self.hooks.error_hooks@.len() {
                        r.0 == (DispatchState::AwaitingErrorHook { index: (index + 1) as usize })
                            && r.1 == (Action::CallErrorHook {
                            hook: self.hooks.error_hooks@[index + 1],
                            error: err,
                        })
                    } else {
                        r.0 == DispatchState::Responded && (r.1 matches Action::Respond { response }
                            && is_default_response(response, err))
                    },
                },
                _ => false,
            },
            DispatchState::Responded => false,
        }
    }

    /// A valid (possibly unfinished) run: it starts with the begin
    /// transition and every later state and action follows from the
    /// previous state and the host's event by [`Dispatcher::step_rel`].
    pub open spec fn run_ok(
        self,
        request: Request,
        states: Seq<DispatchState>,
        actions: Seq<Action>,
        events: Seq<Event>,
    ) -> bool {
        &&& states.len() == actions.len()
        &&& states.len() == events.len() + 1
        &&& self.begin_rel(request, (states[0], actions[0]))
        &&& forall|i: int|
            #![trigger events[i]]
            0 <= i < events.len() ==> !(states[i] is Responded) && event_fits(states[i], events[i])
                && self.step_rel(states[i], events[i], (states[i + 1], actions[i + 1]))
    }


    /// One step along the chain's entering phase: while every middleware
    /// proceeds, the `t`-th state after entering the chain awaits the
    /// `t - k0`-th registered middleware, entered in registration order.
    #[verifier::rlimit(100)]
    proof fn lemma_enter_at(
        self,
        request: Request,
        states: Seq<DispatchState>,
        actions: Seq<Action>,
        events: Seq<Event>,
        k0: int,
        h: u64,
        t: int,
    )
        requires
            self.run_ok(request, states, actions, events),
            self.middleware.entries@.len() < usize::MAX,
            self.middleware.entries@.len() > 0,
            0 <= k0 <= t,
            t < k0 + self.middleware.entries@.len(),
            t <= events.len(),
            states[k0] == (DispatchState::AwaitingMiddleware { index: 0, handler: h }),
            forall|u: int|
                k0 <= u < t ==> (#[trigger] events[u]) matches Event::MiddlewareReturned {
                    decision: MiddlewareDecision::Proceed { .. },
                },
        ensures
            states[t] == (DispatchState::AwaitingMiddleware { index: (t - k0) as usize, handler: h }),
            t > k0 ==> (actions[t] matches Action::CallMiddleware { middleware, .. } && middleware
                == self.middleware.entries@[t - k0]),
        decreases t - k0,
    {
        if t > k0 {
            self.lemma_enter_at(request, states, actions, events, k0, h, t - 1);
            let e1 = events[t - 1];
            assert(self.step_rel(states[t - 1], events[t - 1], (states[t], actions[t])));
        }
    }

    /// One step along the chain's unwinding phase: the states after the
    /// handler await the middlewares' exits in reverse registration
    /// order.
    #[verifier::rlimit(100)]
    proof fn lemma_exit_at(
        self,
        request: Request,
        states: Seq<DispatchState>,
        actions: Seq<Action>,
        events: Seq<Event>,
        k0: int,
        h: u64,
        t: int,
    )
        requires
            self.run_ok(request, states, actions, events),
            self.middleware.entries@.len() < usize::MAX,
            self.middleware.entries@.len() > 0,
            0 <= k0,
            k0 + 2 * self.middleware.entries@.len() < events.len() + 1,
            k0 + self.middleware.entries@.len() < t,
            t <= k0 + 2 * self.middleware.entries@.len(),
            states[k0] == (DispatchState::AwaitingMiddleware { index: 0, handler: h }),
            forall|u: int|
                k0 <= u < k0 + self.middleware.entries@.len() ==> (#[trigger] events[u]) matches
                    Event::MiddlewareReturned { decision: MiddlewareDecision::Proceed { .. } },
            events[k0 + self.middleware.entries@.len()] is HandlerReturned,
            forall|u: int|
                k0 + self.middleware.entries@.len() < u < t ==> (#[trigger] events[u])
                    is MiddlewareExitReturned,
        ensures
            states[t] == (DispatchState::AwaitingMiddlewareExit {
                index: (k0 + 2 * self.middleware.entries@.len() - t) as usize,
            }),
            actions[t] matches Action::CallMiddlewareExit { middleware, .. } && middleware
                == self.middleware.entries@[k0 + 2 * self.middleware.entries@.len() - t],
        decreases t - k0,
    {
        let n = self.middleware.entries@.len() as int;
        if t == k0 + n + 1 {
            self.lemma_enter_at(request, states, actions, events, k0, h, k0 + n - 1);
            assert(self.step_rel(states[k0 + n - 1], events[k0 + n - 1], (
                states[k0 + n],
                actions[k0 + n],
            )));
            assert(states[k0 + n] is AwaitingHandler);
            assert(self.step_rel(states[k0 + n], events[k0 + n], (states[t], actions[t])));
        } else {
            self.lemma_exit_at(request, states, actions, events, k0, h, t - 1);
            assert(self.step_rel(states[t - 1], events[t - 1], (states[t], actions[t])));
        }
    }

    /// Middleware ordering ("onion" order): in any valid run that enters
    /// a non-empty chain and in which every middleware proceeds, the
    /// middlewares observe the request in registration order, then the
    /// handler is invoked once, then the middlewares observe the outcome
    /// in reverse registration order.  With middlewares `m1` then `m2`
    /// around handler `H` the observed trace is `m1, m2, H, m2, m1`.
    pub proof fn lemma_middleware_onion(
        self,
        request: Request,
        states: Seq<DispatchState>,
        actions: Seq<Action>,
        events: Seq<Event>,
        k0: int,
        h: u64,
    )
        requires
            self.run_ok(request, states, actions, events),
            self.middleware.entries@.len() < usize::MAX,
            self.middleware.entries@.len() > 0,
            0 <= k0,
            k0 + 2 * self.middleware.entries@.len() < events.len() + 1,
            states[k0] == (DispatchState::AwaitingMiddleware { index: 0, handler: h }),
            forall|u: int|
                k0 <= u < k0 + self.middleware.entries@.len() ==> (#[trigger] events[u]) matches
                    Event::MiddlewareReturned { decision: MiddlewareDecision::Proceed { .. } },
            events[k0 + self.middleware.entries@.len()] is HandlerReturned,
            forall|u: int|
                k0 + self.middleware.entries@.len() < u <= k0 + 2
                    * self.middleware.entries@.len() ==> (#[trigger] events[u])
                    is MiddlewareExitReturned,
        ensures
            forall|t: int|
                k0 <= t < k0 + self.middleware.entries@.len() ==> (#[trigger] states[t]) == (
                DispatchState::AwaitingMiddleware { index: (t - k0) as usize, handler: h }),
            forall|t: int|
                k0 < t < k0 + self.middleware.entries@.len() ==> ((#[trigger] actions[t]) matches
                    Action::CallMiddleware { middleware, .. } && middleware
                    == self.middleware.entries@[t - k0]),
            states[k0 + self.middleware.entries@.len()] is AwaitingHandler,
            actions[k0 + self.middleware.entries@.len()] matches Action::CallHandler {
                handler: hh,
                ..
            } && hh == h,
            forall|t: int|
                k0 + self.middleware.entries@.len() < t <= k0 + 2
                    * self.middleware.entries@.len() ==> (#[trigger] states[t]) == (
                DispatchState::AwaitingMiddlewareExit {
                    index: (k0 + 2 * self.middleware.entries@.len() - t) as usize,
                }),
            forall|t: int|
                k0 + self.middleware.entries@.len() < t <= k0 + 2
                    * self.middleware.entries@.len() ==> ((#[trigger] actions[t]) matches
                    Action::CallMiddlewareExit { middleware, .. } && middleware
                    == self.middleware.entries@[k0 + 2 * self.middleware.entries@.len() - t]),
    {
        let n = self.middleware.entries@.len() as int;
        assert forall|t: int| k0 <= t < k0 + n implies (#[trigger] states[t]) == (
        DispatchState::AwaitingMiddleware { index: (t - k0) as usize, handler: h }) by {
            self.lemma_enter_at(request, states, actions, events, k0, h, t);
        }
        assert forall|t: int| k0 < t < k0 + n implies ((#[trigger] actions[t]) matches
            Action::CallMiddleware { middleware, .. } && middleware
            == self.middleware.entries@[t - k0]) by {
            self.lemma_enter_at(request, states, actions, events, k0, h, t);
        }
        self.lemma_enter_at(request, states, actions, events, k0, h, k0 + n - 1);
        assert(self.step_rel(states[k0 + n - 1], events[k0 + n - 1], (
            states[k0 + n],
            actions[k0 + n],
        )));
        assert forall|t: int| k0 + n < t <= k0 + 2 * n implies (#[trigger] states[t]) == (
        DispatchState::AwaitingMiddlewareExit { index: (k0 + 2 * n - t) as usize }) by {
            self.lemma_exit_at(request, states, actions, events, k0, h, t);
        }
        assert forall|t: int| k0 + n < t <= k0 + 2 * n implies ((#[trigger] actions[t]) matches
            Action::CallMiddlewareExit { middleware, .. } && middleware
            == self.middleware.entries@[k0 + 2 * n - t]) by {
            self.lemma_exit_at(request, states, actions, events, k0, h, t);
        }
    }


    /// An unmatched path: when no pre-routing hooks are registered the
    /// first transition routes the request, and when additionally no
    /// error hooks are registered, a request whose method and path match
    /// no registered route is answered at once by the default
    /// route-not-found response: status 404 and the path as the message.
    pub proof fn lemma_unmatched_default_response(
        self,
        request: Request,
        r: (DispatchState, Action),
    )
        requires
            self.hooks.pre_routing@.len() == 0,
            self.hooks.error_hooks@.len() == 0,
            self.begin_rel(request, r),
            table_lookup(self.table.entries@, request.method@, target_path(request.path@))
                is None,
        ensures
            r.0 is Responded,
            r.1 matches Action::Respond { response } && response.status == 404 && (
            response.body matches Some(b) && b.content@ == target_path(request.path@)),
    {
        reveal(Dispatcher::route_rel);
        let e = choose|e: ZapError| #[trigger] self.not_found_fail(request, e, r);
        assert(self.not_found_fail(request, e, r));
    }

    /// The default response for an unrecovered error.
    fn default_response(error: &ZapError) -> (resp: Response)
        ensures
            is_default_response(resp, *error),
    {
        let status = error.status_code();
        Response {
            status,
            headers: Vec::new(),
            body: Some(
                ResponseBody { type_: "text".to_owned(), content: error.message.clone() },
            ),
        }
    }

    /// Enter the error phase with `error`.
    fn fail(&self, error: ZapError) -> (r: (DispatchState, Action))
        ensures
            self.fail_rel(error, r),
            self.state_wf(r.0),
            action_fits(r.0, r.1),
            (r.1 is Respond <==> r.0 is Responded),
            self.measure(r.0) <= self.hooks.error_hooks@.len() + 1,
    {
        if self.hooks.error_hooks.len() > 0 {
            let hook = self.hooks.error_hooks[0];
            (
                DispatchState::AwaitingErrorHook { index: 0 },
                Action::CallErrorHook { hook, error },
            )
        } else {
            let response = Dispatcher::default_response(&error);
            (DispatchState::Responded, Action::Respond { response })
        }
    }

    /// Deliver a successful chain outcome to the post-handler hooks.
    fn deliver(&self, response: Response) -> (r: (DispatchState, Action))
        ensures
            self.respond_rel(response, r),
            self.state_wf(r.0),
            action_fits(r.0, r.1),
            (r.1 is Respond <==> r.0 is Responded),
            self.measure(r.0) <= self.hooks.post_handler@.len() + self.hooks.error_hooks@.len()
                + 2,
    {
        if self.hooks.post_handler.len() > 0 {
            let hook = self.hooks.post_handler[0];
            (
                DispatchState::AwaitingPostHandler { index: 0 },
                Action::CallPostHandler { hook, response },
            )
        } else {
            (DispatchState::Responded, Action::Respond { response })
        }
    }

    /// Unwind the chain at `level` with the inner outcome.
    fn unwind(&self, level: usize, outcome: Result<Response, ZapError>) -> (r: (
        DispatchState,
        Action,
    ))
        requires
            level <= self.middleware.entries@.len(),
        ensures
            self.unwind_rel(level as int, outcome, r),
            self.state_wf(r.0),
            action_fits(r.0, r.1),
            (r.1 is Respond <==> r.0 is Responded),
            self.measure(r.0) <= level + self.hooks.post_handler@.len()
                + self.hooks.error_hooks@.len() + 3,
    {
        if level == 0 {
            match outcome {
                Ok(resp) => self.deliver(resp),
                Err(e) => self.fail(e),
            }
        } else {
            let middleware = self.middleware.entries[level - 1];
            (
                DispatchState::AwaitingMiddlewareExit { index: level - 1 },
                Action::CallMiddlewareExit { middleware, outcome },
            )
        }
    }

    /// Route a pre-routed request: split its target, look the path up,
    /// and either enter the chain with the parameters merged in or enter
    /// the error phase with a route-not-found error.
    fn do_route(&self, request: Request) -> (r: (DispatchState, Action))
        ensures
            self.route_rel(request, r),
            self.state_wf(r.0),
            action_fits(r.0, r.1),
            (r.1 is Respond <==> r.0 is Responded),
            self.measure(r.0) <= 2 * self.middleware.entries@.len()
                + self.hooks.post_handler@.len() + self.hooks.error_hooks@.len() + 5,
    {
        proof {
            reveal(Dispatcher::route_rel);
        }
        let ghost req0 = request;
        let (path_part, query_part) = split_target(request.path.as_str());
        proof {
            assert(path_part@ == target_path(req0.path@));
            assert(query_part@ =~= target_query(req0.path@));
        }
        match self.table.lookup(request.method.as_str(), path_part.as_str()) {
            Some((h, caps)) => {
                let qp = parse_query(query_part.as_str());
                let Request { method, path, headers, body, params: _ } = request;
                let req2 = Request {
                    method,
                    path,
                    headers,
                    body,
                    params: RouteParams { path_params: caps.path_params, query_params: qp },
                };
                let ghost req2g = req2;
                let ghost found = table_lookup(
                    self.table.entries@,
                    req0.method@,
                    target_path(req0.path@),
                )->Some_0;
                proof {
                    assert(routed_ok(req0, req2g, found.1));
                }
                if self.middleware.len() > 0 {
                    let middleware = self.middleware.entries[0];
                    let r = (
                        DispatchState::AwaitingMiddleware { index: 0, handler: h },
                        Action::CallMiddleware { middleware, request: req2 },
                    );
                    proof {
                        assert(self.routed_to(req0, found.0, found.1, req2g, r));
                    }
                    r
                } else {
                    let r = (
                        DispatchState::AwaitingHandler,
                        Action::CallHandler { handler: h, request: req2 },
                    );
                    proof {
                        assert(self.routed_to(req0, found.0, found.1, req2g, r));
                    }
                    r
                }
            },
            None => {
                let error = ZapError::not_found(path_part.as_str());
                let ghost eg = error;
                let r = self.fail(error);
                proof {
                    assert(self.not_found_fail(req0, eg, r));
                }
                r
            },
        }
    }

    /// Start dispatching a request: the first state and action.
    pub fn begin(&self, request: Request) -> (r: (DispatchState, Action))
        ensures
            self.begin_rel(request, r),
            self.state_wf(r.0),
            action_fits(r.0, r.1),
            (r.1 is Respond <==> r.0 is Responded),
    {
        if self.hooks.pre_routing.len() > 0 {
            let hook = self.hooks.pre_routing[0];
            (
                DispatchState::AwaitingPreRouting { index: 0 },
                Action::CallPreRouting { hook, request },
            )
        } else {
            self.do_route(request)
        }
    }

    /// Take one step: consume the event the host observed for the current
    /// state's action, and produce the next state and action.
    pub fn step(&self, state: DispatchState, event: Event) -> (r: (DispatchState, Action))
        requires
            self.state_wf(state),
            !(state is Responded),
            event_fits(state, event),
        ensures
            self.step_rel(state, event, r),
            self.state_wf(r.0),
            action_fits(r.0, r.1),
            (r.1 is Respond <==> r.0 is Responded),
            self.measure(r.0) < self.measure(state),
    {
        match state {
            DispatchState::AwaitingPreRouting { index } => match event {
                Event::PreRoutingReturned { result } => match result {
                    Ok(req2) => {
                        let n = self.hooks.pre_routing.len();
                        proof {
                            assert(index < n);
                        }
                        if index + 1 < n {
                            let hook = self.hooks.pre_routing[index + 1];
                            (
                                DispatchState::AwaitingPreRouting { index: index + 1 },
                                Action::CallPreRouting { hook, request: req2 },
                            )
                        } else {
                            self.do_route(req2)
                        }
                    },
                    Err(e) => self.fail(e),
                },
                _ => unreached(),
            },
            DispatchState::AwaitingMiddleware { index, handler } => match event {
                Event::MiddlewareReturned { decision } => match decision {
                    MiddlewareDecision::Proceed { request } => {
                        let n = self.middleware.len();
                        proof {
                            assert(index < n);
                        }
                        if index + 1 < n {
                            let middleware = self.middleware.entries[index + 1];
                            (
                                DispatchState::AwaitingMiddleware { index: index + 1, handler },
                                Action::CallMiddleware { middleware, request },
                            )
                        } else {
                            (
                                DispatchState::AwaitingHandler,
                                Action::CallHandler { handler, request },
                            )
                        }
                    },
                    MiddlewareDecision::Resolve { outcome } => self.unwind(index, outcome),
                },
                _ => unreached(),
            },
            DispatchState::AwaitingHandler => match event {
                Event::HandlerReturned { outcome } => self.unwind(self.middleware.len(), outcome),
                _ => unreached(),
            },
            DispatchState::AwaitingMiddlewareExit { index } => match event {
                Event::MiddlewareExitReturned { outcome } => self.unwind(index, outcome),
                _ => unreached(),
            },
            DispatchState::AwaitingPostHandler { index } => match event {
                Event::PostHandlerReturned { result } => match result {
                    Ok(resp) => {
                        let n = self.hooks.post_handler.len();
                        proof {
                            assert(index < n);
                        }
                        if index + 1 < n {
                            let hook = self.hooks.post_handler[index + 1];
                            (
                                DispatchState::AwaitingPostHandler { index: index + 1 },
                                Action::CallPostHandler { hook, response: resp },
                            )
                        } else {
                            (DispatchState::Responded, Action::Respond { response: resp })
                        }
                    },
                    Err(e) => self.fail(e),
                },
                _ => unreached(),
            },
            DispatchState::AwaitingErrorHook { index } => match event {
                Event::ErrorHookReturned { result } => match result {
                    Ok(resp) => (DispatchState::Responded, Action::Respond { response: resp }),
                    Err(e) => {
                        let n = self.hooks.error_hooks.len();
                        proof {
                            assert(index < n);
                        }
                        if index + 1 < n {
                            let hook = self.hooks.error_hooks[index + 1];
                            (
                                DispatchState::AwaitingErrorHook { index: index + 1 },
                                Action::CallErrorHook { hook, error: e },
                            )
                        } else {
                            let response = Dispatcher::default_response(&e);
                            (DispatchState::Responded, Action::Respond { response })
                        }
                    },
                },
                _ => unreached(),
            },
            DispatchState::Responded => unreached(),
        }
    }

    /// Dispatch a request to completion, letting `host` perform every
    /// callback, and return the response.  The result is always a
    /// response, never an unrecovered error, and the whole exchange is a
    /// valid run of the state machine ending in it.
    pub fn dispatch<H: CallbackHost>(&self, host: &mut H, request: Request) -> (resp: Response)
        ensures
            exists|states: Seq<DispatchState>, actions: Seq<Action>, events: Seq<Event>|
                #[trigger] self.run_ok(request, states, actions, events) && states.last()
                    is Responded && actions.last() == (Action::Respond { response: resp }),
    {
        let ghost req0 = request;
        let (s0, a0) = self.begin(request);
        let mut state = s0;
        let mut action = a0;
        let ghost mut states: Seq<DispatchState> = seq![s0];
        let ghost mut actions: Seq<Action> = seq![a0];
        let ghost mut events: Seq<Event> = Seq::empty();
        proof {
            assert(self.run_ok(req0, states, actions, events));
        }
        #[verifier::loop_isolation(false)]
        loop
            invariant
                self.state_wf(state),
                action_fits(state, action),
                (action is Respond <==> state is Responded),
                self.run_ok(req0, states, actions, events),
                states.len() > 0,
                states.last() == state,
                actions.last() == action,
            decreases self.measure(state),
        {
            let event = match action {
                Action::Respond { response } => {
                    proof {
                        assert(self.run_ok(req0, states, actions, events) && states.last()
                            is Responded && actions.last() == (Action::Respond {
                            response: response,
                        }));
                    }
                    return response;
                },
                Action::CallPreRouting { hook, request } => Event::PreRoutingReturned {
                    result: host.run_pre_routing(hook, request),
                },
                Action::CallMiddleware { middleware, request } => Event::MiddlewareReturned {
                    decision: host.enter_middleware(middleware, request),
                },
                Action::CallHandler { handler, request } => Event::HandlerReturned {
                    outcome: host.invoke_handler(handler, request),
                },
                Action::CallMiddlewareExit { middleware, outcome } => Event::MiddlewareExitReturned {
                    outcome: host.exit_middleware(middleware, outcome),
                },
                Action::CallPostHandler { hook, response } => Event::PostHandlerReturned {
                    result: host.run_post_handler(hook, response),
                },
                Action::CallErrorHook { hook, error } => Event::ErrorHookReturned {
                    result: host.run_error_hook(hook, error),
                },
            };
            let ghost eventg = event;
            let (s2, a2) = self.step(state, event);
            proof {
                let ghost states2 = states.push(s2);
                let ghost actions2 = actions.push(a2);
                let ghost events2 = events.push(eventg);
                assert(states2[states2.len() - 2] == state);
                assert(actions2[actions2.len() - 1] == a2);
                assert forall|i: int| 0 <= i < events2.len() implies !(
                (#[trigger] states2[i]) is Responded) && event_fits(states2[i], events2[i])
                    && self.step_rel(states2[i], events2[i], (states2[i + 1], actions2[i + 1])) by {
                    if i < events.len() {
                        assert(states2[i] == states[i]);
                        assert(events2[i] == events[i]);
                        assert(states2[i + 1] == states[i + 1]);
                        assert(actions2[i + 1] == actions[i + 1]);
                    } else {
                        assert(states2[i] == state);
                        assert(events2[i] == eventg);
                        assert(states2[i + 1] == s2);
                        assert(actions2[i + 1] == a2);
                    }
                }
                assert(states2[0] == states[0]);
                assert(actions2[0] == actions[0]);
                states = states2;
                actions = actions2;
                events = events2;
            }
            state = s2;
            action = a2;
        }
    }
}

} // verus!
