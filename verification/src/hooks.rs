//! The hook pipeline: three independent ordered lists of callbacks run
//! outside the middleware chain.
//!
//! Pre-routing hooks transform the request before the route lookup,
//! post-handler hooks transform the response after a successful chain, and
//! error hooks try to recover a response from an error.  Each list runs in
//! registration order; the dispatcher drives the actual calls.  Hooks are
//! referred to by the identifiers handed back at registration; the
//! embedding application keeps the callbacks under those identifiers.

use vstd::prelude::*;

use crate::error::{ErrorKind, ZapError};

verus! {

/// The three hook lists, and the next hook identifier to hand out.
pub struct HookPipeline {
    pub pre_routing: Vec<u64>,
    pub post_handler: Vec<u64>,
    pub error_hooks: Vec<u64>,
    pub next_id: u64,
}

impl HookPipeline {
    /// An empty pipeline; identifiers start at 1.
    pub fn new() -> (p: HookPipeline)
        ensures
            p.pre_routing@.len() == 0,
            p.post_handler@.len() == 0,
            p.error_hooks@.len() == 0,
            p.next_id == 1,
    {
        HookPipeline {
            pre_routing: Vec::new(),
            post_handler: Vec::new(),
            error_hooks: Vec::new(),
            next_id: 1,
        }
    }

    /// Append a pre-routing hook, allocating its identifier.
    pub fn add_pre_routing(&mut self) -> (r: Result<u64, ZapError>)
        ensures
            r is Err <==> old(self).next_id == u64::MAX,
            match r {
                Ok(id) => {
                    &&& id == old(self).next_id
                    &&& final(self).next_id == old(self).next_id + 1
                    &&& final(self).pre_routing@ == old(self).pre_routing@.push(id)
                    &&& final(self).post_handler == old(self).post_handler
                    &&& final(self).error_hooks == old(self).error_hooks
                },
                Err(e) => *final(self) == *old(self) && e.kind == ErrorKind::Internal,
            },
    {
        if self.next_id == u64::MAX {
            return Err(ZapError::internal("hook identifier space exhausted"));
        }
        let id = self.next_id;
        self.next_id = self.next_id + 1;
        self.pre_routing.push(id);
        Ok(id)
    }

    /// Append a post-handler hook, allocating its identifier.
    pub fn add_post_handler(&mut self) -> (r: Result<u64, ZapError>)
        ensures
            r is Err <==> old(self).next_id == u64::MAX,
            match r {
                Ok(id) => {
                    &&& id == old(self).next_id
                    &&& final(self).next_id == old(self).next_id + 1
                    &&& final(self).post_handler@ == old(self).post_handler@.push(id)
                    &&& final(self).pre_routing == old(self).pre_routing
                    &&& final(self).error_hooks == old(self).error_hooks
                },
                Err(e) => *final(self) == *old(self) && e.kind == ErrorKind::Internal,
            },
    {
        if self.next_id == u64::MAX {
            return Err(ZapError::internal("hook identifier space exhausted"));
        }
        let id = self.next_id;
        self.next_id = self.next_id + 1;
        self.post_handler.push(id);
        Ok(id)
    }

    /// Append an error hook, allocating its identifier.
    pub fn add_error_hook(&mut self) -> (r: Result<u64, ZapError>)
        ensures
            r is Err <==> old(self).next_id == u64::MAX,
            match r {
                Ok(id) => {
                    &&& id == old(self).next_id
                    &&& final(self).next_id == old(self).next_id + 1
                    &&& final(self).error_hooks@ == old(self).error_hooks@.push(id)
                    &&& final(self).pre_routing == old(self).pre_routing
                    &&& final(self).post_handler == old(self).post_handler
                },
                Err(e) => *final(self) == *old(self) && e.kind == ErrorKind::Internal,
            },
    {
        if self.next_id == u64::MAX {
            return Err(ZapError::internal("hook identifier space exhausted"));
        }
        let id = self.next_id;
        self.next_id = self.next_id + 1;
        self.error_hooks.push(id);
        Ok(id)
    }
}

} // verus!
