//! The structured values crossing the engine's boundary: requests,
//! responses, captured route parameters, and the per-request context.
//!
//! Mappings are held as ordered key/value pair lists; [`pair_value`] reads
//! the first binding of a key, and lists built by the engine bind each key
//! once.

use vstd::prelude::*;

use crate::paths::pair_views;

verus! {

/// The first value bound to `key`, if any.
pub open spec fn pair_value(pairs: Seq<(Seq<char>, Seq<char>)>, key: Seq<char>) -> Option<
    Seq<char>,
>
    decreases pairs.len(),
{
    if pairs.len() == 0 {
        None
    } else if pairs[0].0 == key {
        Some(pairs[0].1)
    } else {
        pair_value(pairs.drop_first(), key)
    }
}

/// Read the first value bound to `key` in a pair list.
pub fn lookup_pair<'a>(pairs: &'a Vec<(String, String)>, key: &String) -> (r: Option<&'a String>)
    ensures
        match r {
            Some(v) => pair_value(pair_views(pairs@), key@) == Some(v@),
            None => pair_value(pair_views(pairs@), key@) is None,
        },
{
    let mut j: usize = 0;
    proof {
        assert(pair_views(pairs@).skip(0) =~= pair_views(pairs@));
    }
    while j < pairs.len()
        invariant
            j <= pairs@.len(),
            pair_value(pair_views(pairs@).skip(j as int), key@) == pair_value(
                pair_views(pairs@),
                key@,
            ),
        decreases pairs@.len() - j,
    {
        proof {
            assert(pair_views(pairs@).len() == pairs@.len());
            assert(pair_views(pairs@).skip(j as int)[0] == (pairs@[j as int].0@, pairs@[
                j as int
            ].1@));
            assert(pair_views(pairs@).skip(j as int).drop_first() =~= pair_views(pairs@).skip(
                j as int + 1,
            ));
        }
        let entry = &pairs[j];
        if entry.0 == *key {
            return Some(&entry.1);
        }
        j = j + 1;
    }
    proof {
        assert(pair_views(pairs@).skip(pairs@.len() as int) =~= Seq::<
            (Seq<char>, Seq<char>),
        >::empty());
    }
    None
}

/// The parameter bindings produced by a successful match: path parameters
/// captured from the pattern, and query parameters parsed from the request
/// target, tracked separately so a handler can tell which is which.
pub struct RouteParams {
    pub path_params: Vec<(String, String)>,
    pub query_params: Vec<(String, String)>,
}

impl RouteParams {
    /// Empty bindings.
    pub fn new() -> (p: RouteParams)
        ensures
            p.path_params@.len() == 0,
            p.query_params@.len() == 0,
    {
        RouteParams { path_params: Vec::new(), query_params: Vec::new() }
    }
}

/// The tagged body of a response: its content together with how the
/// content is to be read (for instance plain text).
pub struct ResponseBody {
    pub type_: String,
    pub content: String,
}

/// A structured request handed to the engine by the transport.
pub struct Request {
    pub method: String,
    /// The request target: the path, optionally followed by `?` and a
    /// query string.
    pub path: String,
    pub headers: Vec<(String, String)>,
    pub body: Option<String>,
    /// Filled by the dispatcher after routing; empty before.
    pub params: RouteParams,
}

impl Request {
    /// A request with the given method and target and nothing else.
    pub fn new(method: &str, path: &str) -> (r: Request)
        ensures
            r.method@ == method@,
            r.path@ == path@,
            r.headers@.len() == 0,
            r.body is None,
            r.params.path_params@.len() == 0,
            r.params.query_params@.len() == 0,
    {
        Request {
            method: method.to_owned(),
            path: path.to_owned(),
            headers: Vec::new(),
            body: None,
            params: RouteParams::new(),
        }
    }
}

/// A structured response handed back to the transport.
pub struct Response {
    pub status: u16,
    pub headers: Vec<(String, String)>,
    pub body: Option<ResponseBody>,
}

impl Response {
    /// A response with the given status and a plain-text body.
    pub fn text(status: u16, content: &str) -> (r: Response)
        ensures
            r.status == status,
            r.headers@.len() == 0,
            r.body matches Some(b) && b.content@ == content@ && b.type_@ == "text"@,
    {
        Response {
            status,
            headers: Vec::new(),
            body: Some(ResponseBody { type_: "text".to_owned(), content: content.to_owned() }),
        }
    }
}

/// Request-scoped bookkeeping a host may thread through hooks and
/// handlers; the engine itself never reads it.
pub struct RequestContext {
    pub id: String,
    pub timestamp: i64,
    pub metadata: Vec<(String, String)>,
    pub state: Vec<(String, String)>,
}

impl RequestContext {
    /// A context with the given id and timestamp and no entries.
    pub fn new(id: &str, timestamp: i64) -> (c: RequestContext)
        ensures
            c.id@ == id@,
            c.timestamp == timestamp,
            c.metadata@.len() == 0,
            c.state@.len() == 0,
    {
        RequestContext { id: id.to_owned(), timestamp, metadata: Vec::new(), state: Vec::new() }
    }
}

} // verus!
