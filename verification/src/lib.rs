//! An embeddable HTTP request-dispatch engine.
//!
//! The crate holds a table of method + path patterns mapped to handler
//! identifiers, matches an incoming request's path against that table
//! (extracting named and wildcard parameters), and runs the matched handler
//! inside a composable middleware chain and an outer hook pipeline.  The
//! network transport and any cross-runtime marshaling of handler callbacks
//! are outside collaborators: handlers, middlewares and hooks are referred
//! to by numeric identifiers, and the embedding application invokes the
//! actual callbacks when the dispatcher asks for them.

pub mod dispatch;
pub mod error;
pub mod hooks;
pub mod middleware;
pub mod paths;
pub mod pattern;
pub mod table;
pub mod trie;
pub mod types;

pub use dispatch::{
    Action,
    CallbackHost,
    Dispatcher,
    DispatchState,
    Event,
    MiddlewareDecision,
};
pub use error::{ErrorKind, FieldIssue, ZapError};
pub use hooks::HookPipeline;
pub use middleware::MiddlewareChain;
pub use pattern::Segment;
pub use table::{RouteTable, RouteTableBuilder};
pub use trie::TrieNode;
pub use types::{Request, RequestContext, Response, ResponseBody, RouteParams};
