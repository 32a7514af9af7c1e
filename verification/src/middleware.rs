//! The middleware chain: the ordered list of wrappers composed around the
//! matched handler.
//!
//! A middleware is registered during the build phase and referred to by
//! the identifier handed back; the embedding application keeps the actual
//! callback under that identifier.  Registration order fully determines
//! execution order: the earliest-registered middleware is the outermost
//! wrapper — it sees the request first and the response last.  The
//! composition itself is performed by the dispatcher, which enters the
//! chain front to back and unwinds it back to front.

use vstd::prelude::*;

use crate::error::{ErrorKind, ZapError};

verus! {

/// The ordered middleware identifiers, and the next identifier to hand
/// out.
pub struct MiddlewareChain {
    pub entries: Vec<u64>,
    pub next_id: u64,
}

impl MiddlewareChain {
    /// An empty chain; identifiers start at 1.
    pub fn new() -> (c: MiddlewareChain)
        ensures
            c.entries@.len() == 0,
            c.next_id == 1,
    {
        MiddlewareChain { entries: Vec::new(), next_id: 1 }
    }

    /// Append a middleware to the chain, allocating its identifier.  Fails
    /// only when the identifier space is exhausted, leaving the chain as
    /// it was.
    pub fn add(&mut self) -> (r: Result<u64, ZapError>)
        ensures
            r is Err <==> old(self).next_id == u64::MAX,
            match r {
                Ok(id) => {
                    &&& id == old(self).next_id
                    &&& final(self).next_id == old(self).next_id + 1
                    &&& final(self).entries@ == old(self).entries@.push(id)
                },
                Err(e) => *final(self) == *old(self) && e.kind == ErrorKind::Internal,
            },
    {
        if self.next_id == u64::MAX {
            return Err(ZapError::internal("middleware identifier space exhausted"));
        }
        let id = self.next_id;
        self.next_id = self.next_id + 1;
        self.entries.push(id);
        Ok(id)
    }

    /// How many middlewares are registered.
    pub fn len(&self) -> (n: usize)
        ensures
            n == self.entries@.len(),
    {
        self.entries.len()
    }
}

} // verus!
