//! The route table: a trie per HTTP method, with a two-phase lifecycle.
//!
//! A [`RouteTableBuilder`] is filled by a single writer during start-up;
//! [`RouteTableBuilder::freeze`] then yields an immutable [`RouteTable`]
//! that is read concurrently for the life of the process.  Registration
//! allocates the route's identifier; the embedding application keeps the
//! actual handler callback under that identifier.

use vstd::prelude::*;

use crate::error::{ErrorKind, ZapError};
use crate::paths::{pair_views, segments_of, split_str};
use crate::pattern::{parse_pattern, pattern_of, pattern_ok, pattern_valid, seg_views, SegView};
use crate::trie::{
    captures_of,
    find_static,
    lemma_find_static_push,
    lemma_find_static_update,
    pattern_matches,
    static_index,
    statics_pattern,
    TrieNode,
};
use crate::types::RouteParams;

verus! {

/// The mutable build-phase table: one trie per method, and the next route
/// identifier to hand out.
pub struct RouteTableBuilder {
    pub entries: Vec<(String, TrieNode)>,
    pub next_id: u64,
}

/// The frozen, immutable table: shared read-only across concurrent
/// dispatches.
pub struct RouteTable {
    pub entries: Vec<(String, TrieNode)>,
}

/// Whether a table holds a route: under this method, this pattern, bound
/// to this route identifier.
pub open spec fn table_has_route(
    entries: Seq<(String, TrieNode)>,
    method: Seq<char>,
    pat: Seq<SegView>,
    h: u64,
) -> bool {
    match find_static(entries, method) {
        Some(t) => t.has_route(pat, h),
        None => false,
    }
}

/// Whether registering this pattern under this method would clash with an
/// already-registered parameter name.
pub open spec fn table_conflicts(
    entries: Seq<(String, TrieNode)>,
    method: Seq<char>,
    pat: Seq<SegView>,
) -> bool {
    match find_static(entries, method) {
        Some(t) => t.conflicts(pat),
        None => false,
    }
}

/// What a table lookup returns for this method and path.
pub open spec fn table_lookup(
    entries: Seq<(String, TrieNode)>,
    method: Seq<char>,
    path: Seq<char>,
) -> Option<(u64, Seq<(Seq<char>, Seq<char>)>)> {
    match find_static(entries, method) {
        Some(t) => t.lookup_spec(segments_of(path)),
        None => None,
    }
}

impl RouteTableBuilder {
    /// An empty builder; identifiers start at 1.
    pub fn new() -> (b: RouteTableBuilder)
        ensures
            b.entries@.len() == 0,
            b.next_id == 1,
    {
        RouteTableBuilder { entries: Vec::new(), next_id: 1 }
    }

    /// Register a route: parse the pattern, and bind it under the method
    /// to a freshly allocated route identifier.
    ///
    /// The call fails, leaving the builder exactly as it was, when the
    /// pattern holds a wildcard before its last segment, when a parameter
    /// segment clashes with an already-registered parameter name at the
    /// same position, or when the identifier space is exhausted.
    /// Registering an identical pattern twice overwrites the previous
    /// binding: the last registration wins.
    pub fn register(&mut self, method: &str, pattern: &str) -> (r: Result<u64, ZapError>)
        ensures
            r is Err <==> (!pattern_ok(pattern_of(pattern@)) || table_conflicts(
                old(self).entries@,
                method@,
                pattern_of(pattern@),
            ) || old(self).next_id == u64::MAX),
            match r {
                Ok(id) => {
                    &&& id == old(self).next_id
                    &&& final(self).next_id == old(self).next_id + 1
                    &&& forall|p2: Seq<SegView>, h2: u64|
                        #[trigger] table_has_route(final(self).entries@, method@, p2, h2) <==> (if p2
                            == pattern_of(pattern@) {
                            h2 == id
                        } else {
                            table_has_route(old(self).entries@, method@, p2, h2)
                        })
                    &&& forall|m2: Seq<char>, p2: Seq<SegView>, h2: u64|
                        m2 != method@ ==> (#[trigger] table_has_route(final(self).entries@, m2, p2, h2)
                            == table_has_route(old(self).entries@, m2, p2, h2))
                },
                Err(e) => {
                    &&& *final(self) == *old(self)
                    &&& e.kind == (if !pattern_ok(pattern_of(pattern@)) || table_conflicts(
                        old(self).entries@,
                        method@,
                        pattern_of(pattern@),
                    ) {
                        ErrorKind::InvalidRoutePattern
                    } else {
                        ErrorKind::Internal
                    })
                },
            },
    {
        let segs = parse_pattern(pattern);
        if !pattern_valid(&segs) {
            return Err(ZapError::bad_request("wildcard must be the final segment of a pattern"));
        }
        proof {
            assert(seg_views(segs@) == pattern_of(pattern@));
        }
        let method_key = method.to_owned();
        match static_index(&self.entries, &method_key) {
            Some(j) => {
                let conflict = self.entries[j].1.check_conflicts(&segs, 0);
                proof {
                    assert(seg_views(segs@).skip(0) =~= seg_views(segs@));
                }
                if conflict {
                    return Err(
                        ZapError::bad_request(
                            "a parameter with a different name is already registered here",
                        ),
                    );
                }
                if self.next_id == u64::MAX {
                    return Err(ZapError::internal("route identifier space exhausted"));
                }
                let id = self.next_id;
                self.next_id = self.next_id + 1;
                let ghost entries0 = self.entries@;
                let (key, trie) = self.entries.remove(j);
                let ghost keyg = key;
                let ghost trieg = trie;
                let trie2 = trie.with_route(&segs, 0, id);
                let ghost trie2g = trie2;
                self.entries.insert(j, (key, trie2));
                proof {
                    let e = (keyg, trie2g);
                    assert(self.entries@ =~= entries0.update(j as int, e));
                    lemma_find_static_update(entries0, j as int, e);
                    assert(keyg@ == method@);
                    let pat = pattern_of(pattern@);
                    assert forall|p2: Seq<SegView>, h2: u64|
                        #[trigger] table_has_route(self.entries@, method@, p2, h2) <==> (if p2
                            == pat {
                            h2 == id
                        } else {
                            table_has_route(entries0, method@, p2, h2)
                        }) by {
                        assert(find_static(self.entries@, method@) == Some(trie2g));
                        assert(find_static(entries0, method@) == Some(trieg));
                    }
                    assert forall|m2: Seq<char>, p2: Seq<SegView>, h2: u64|
                        m2 != method@ implies (#[trigger] table_has_route(self.entries@, m2, p2, h2)
                        == table_has_route(entries0, m2, p2, h2)) by {
                        assert(find_static(self.entries@, m2) == find_static(entries0, m2));
                    }
                }
                Ok(id)
            },
            None => {
                if self.next_id == u64::MAX {
                    return Err(ZapError::internal("route identifier space exhausted"));
                }
                let id = self.next_id;
                self.next_id = self.next_id + 1;
                let ghost entries0 = self.entries@;
                let fresh = TrieNode::empty();
                let ghost freshg = fresh;
                proof {
                    assert(!freshg.conflicts(seg_views(segs@))) by {
                        let pat = seg_views(segs@);
                        if pat.len() > 0 {
                            assert(freshg.statics@ =~= Seq::<(String, TrieNode)>::empty());
                            assert(!freshg.conflicts(pat));
                        }
                    }
                    assert(seg_views(segs@).skip(0) =~= seg_views(segs@));
                }
                let trie = fresh.with_route(&segs, 0, id);
                let ghost trieg = trie;
                self.entries.push((method_key, trie));
                proof {
                    let e = (self.entries@.last().0, trieg);
                    assert(self.entries@ =~= entries0.push(e));
                    assert(e.0@ == method@);
                    lemma_find_static_push(entries0, e);
                    let pat = pattern_of(pattern@);
                    assert forall|p2: Seq<SegView>, h2: u64|
                        #[trigger] table_has_route(self.entries@, method@, p2, h2) <==> (if p2
                            == pat {
                            h2 == id
                        } else {
                            table_has_route(entries0, method@, p2, h2)
                        }) by {
                        assert(find_static(entries0, method@) is None);
                        assert(find_static(self.entries@, method@) == Some(trieg));
                        assert(!freshg.has_route(p2, h2)) by {
                            if p2.len() > 0 {
                                assert(freshg.statics@ =~= Seq::<(String, TrieNode)>::empty());
                            }
                        }
                    }
                    assert forall|m2: Seq<char>, p2: Seq<SegView>, h2: u64|
                        m2 != method@ implies (#[trigger] table_has_route(self.entries@, m2, p2, h2)
                        == table_has_route(entries0, m2, p2, h2)) by {
                        assert(find_static(self.entries@, m2) == find_static(entries0, m2));
                    }
                }
                Ok(id)
            },
        }
    }


    /// Register a route under the `GET` method.
    pub fn get(&mut self, pattern: &str) -> (r: Result<u64, ZapError>)
        ensures
            r is Err <==> (!pattern_ok(pattern_of(pattern@)) || table_conflicts(
                old(self).entries@,
                "GET"@,
                pattern_of(pattern@),
            ) || old(self).next_id == u64::MAX),
            r matches Ok(id) ==> id == old(self).next_id && forall|p2: Seq<SegView>, h2: u64|
                #[trigger] table_has_route(final(self).entries@, "GET"@, p2, h2) <==> (if p2
                    == pattern_of(pattern@) {
                    h2 == id
                } else {
                    table_has_route(old(self).entries@, "GET"@, p2, h2)
                }),
            r is Err ==> *final(self) == *old(self),
    {
        self.register("GET", pattern)
    }

    /// Register a route under the `POST` method.
    pub fn post(&mut self, pattern: &str) -> (r: Result<u64, ZapError>)
        ensures
            r is Err <==> (!pattern_ok(pattern_of(pattern@)) || table_conflicts(
                old(self).entries@,
                "POST"@,
                pattern_of(pattern@),
            ) || old(self).next_id == u64::MAX),
            r matches Ok(id) ==> id == old(self).next_id && forall|p2: Seq<SegView>, h2: u64|
                #[trigger] table_has_route(final(self).entries@, "POST"@, p2, h2) <==> (if p2
                    == pattern_of(pattern@) {
                    h2 == id
                } else {
                    table_has_route(old(self).entries@, "POST"@, p2, h2)
                }),
            r is Err ==> *final(self) == *old(self),
    {
        self.register("POST", pattern)
    }

    /// Register a route under the `PUT` method.
    pub fn put(&mut self, pattern: &str) -> (r: Result<u64, ZapError>)
        ensures
            r is Err <==> (!pattern_ok(pattern_of(pattern@)) || table_conflicts(
                old(self).entries@,
                "PUT"@,
                pattern_of(pattern@),
            ) || old(self).next_id == u64::MAX),
            r matches Ok(id) ==> id == old(self).next_id && forall|p2: Seq<SegView>, h2: u64|
                #[trigger] table_has_route(final(self).entries@, "PUT"@, p2, h2) <==> (if p2
                    == pattern_of(pattern@) {
                    h2 == id
                } else {
                    table_has_route(old(self).entries@, "PUT"@, p2, h2)
                }),
            r is Err ==> *final(self) == *old(self),
    {
        self.register("PUT", pattern)
    }

    /// Register a route under the `DELETE` method.
    pub fn delete(&mut self, pattern: &str) -> (r: Result<u64, ZapError>)
        ensures
            r is Err <==> (!pattern_ok(pattern_of(pattern@)) || table_conflicts(
                old(self).entries@,
                "DELETE"@,
                pattern_of(pattern@),
            ) || old(self).next_id == u64::MAX),
            r matches Ok(id) ==> id == old(self).next_id && forall|p2: Seq<SegView>, h2: u64|
                #[trigger] table_has_route(final(self).entries@, "DELETE"@, p2, h2) <==> (if p2
                    == pattern_of(pattern@) {
                    h2 == id
                } else {
                    table_has_route(old(self).entries@, "DELETE"@, p2, h2)
                }),
            r is Err ==> *final(self) == *old(self),
    {
        self.register("DELETE", pattern)
    }

    /// Freeze the builder into an immutable table.
    pub fn freeze(self) -> (t: RouteTable)
        ensures
            t.entries == self.entries,
    {
        RouteTable { entries: self.entries }
    }
}

impl RouteTable {
    /// Look up a method and path, returning the matched route identifier
    /// and the captured path parameters; query parameters are left empty
    /// here and filled by the dispatcher.
    pub fn lookup(&self, method: &str, path: &str) -> (r: Option<(u64, RouteParams)>)
        ensures
            match r {
                Some(p) => table_lookup(self.entries@, method@, path@) == Some(
                    (p.0, pair_views(p.1.path_params@)),
                ) && p.1.query_params@.len() == 0,
                None => table_lookup(self.entries@, method@, path@) is None,
            },
    {
        let method_key = method.to_owned();
        match static_index(&self.entries, &method_key) {
            Some(j) => {
                let trie = &self.entries[j].1;
                let segs = split_str(path, '/');
                match trie.lookup_at(&segs, 0) {
                    Some((h, pairs)) => {
                        proof {
                            assert(crate::paths::views_of(segs@).skip(0) =~= segments_of(path@));
                        }
                        Some(
                            (
                                h,
                                RouteParams { path_params: pairs, query_params: Vec::new() },
                            ),
                        )
                    },
                    None => {
                        proof {
                            assert(crate::paths::views_of(segs@).skip(0) =~= segments_of(path@));
                        }
                        None
                    },
                }
            },
            None => None,
        }
    }
}

/// A table lookup is a pure function of the frozen table: tables with
/// equal entries answer every lookup identically.  Freezing one builder's
/// routes twice, or looking the same path up repeatedly, yields identical
/// results.
pub proof fn lemma_lookup_deterministic(
    t1: RouteTable,
    t2: RouteTable,
    method: Seq<char>,
    path: Seq<char>,
)
    requires
        t1.entries == t2.entries,
    ensures
        table_lookup(t1.entries@, method, path) == table_lookup(t2.entries@, method, path),
{
}

/// A successful lookup is justified by a registered route whose pattern
/// matches the path's segments; a failed lookup means no route registered
/// under the method matches them.  The dispatcher maps the latter to a
/// route-not-found error.
pub proof fn lemma_lookup_justified(t: RouteTable, method: Seq<char>, path: Seq<char>)
    ensures
        table_lookup(t.entries@, method, path) is Some ==> exists|pat: Seq<SegView>|
            #[trigger] table_has_route(
                t.entries@,
                method,
                pat,
                table_lookup(t.entries@, method, path)->Some_0.0,
            ) && pattern_matches(pat, segments_of(path)),
        table_lookup(t.entries@, method, path) is None ==> forall|pat: Seq<SegView>, h: u64|
            #[trigger] table_has_route(t.entries@, method, pat, h) ==> !pattern_matches(
                pat,
                segments_of(path),
            ),
{
    let segs = segments_of(path);
    match find_static(t.entries@, method) {
        Some(trie) => {
            trie.lemma_lookup_matches(segs);
            if table_lookup(t.entries@, method, path) is Some {
                let h0 = table_lookup(t.entries@, method, path)->Some_0.0;
                assert(h0 == trie.lookup_spec(segs)->Some_0.0);
                let pat = choose|pat: Seq<SegView>|
                    #[trigger] trie.has_route(pat, trie.lookup_spec(segs)->Some_0.0)
                        && pattern_matches(pat, segs);
                assert(table_has_route(t.entries@, method, pat, h0) && pattern_matches(pat, segs));
            } else {
                assert forall|pat: Seq<SegView>, h: u64|
                    #[trigger] table_has_route(t.entries@, method, pat, h) implies !pattern_matches(
                    pat,
                    segs,
                ) by {
                    assert(trie.has_route(pat, h));
                }
            }
        },
        None => {
            assert forall|pat: Seq<SegView>, h: u64|
                #[trigger] table_has_route(t.entries@, method, pat, h) implies !pattern_matches(
                pat,
                segs,
            ) by {
                assert(!table_has_route(t.entries@, method, pat, h));
            }
        },
    }
}

/// Static precedence: when a route whose pattern is exactly the path's
/// segments, all static, is registered under the method, the lookup
/// returns that route, with no captured parameters — no parameter or
/// wildcard route can shadow it.
pub proof fn lemma_static_route_wins(t: RouteTable, method: Seq<char>, path: Seq<char>, h: u64)
    requires
        table_has_route(t.entries@, method, statics_pattern(segments_of(path)), h),
    ensures
        table_lookup(t.entries@, method, path) == Some(
            (h, Seq::<(Seq<char>, Seq<char>)>::empty()),
        ),
{
    match find_static(t.entries@, method) {
        Some(trie) => {
            trie.lemma_static_route_wins(segments_of(path), h);
        },
        None => {},
    }
}

/// Match completeness for a single registered route: in a table whose
/// method trie holds exactly the route `pat` bound to `h`, the lookup of
/// any path the pattern matches returns `h` with exactly the pattern's
/// captures, and the lookup of any other path returns nothing.
pub proof fn lemma_single_route_lookup(
    t: RouteTable,
    method: Seq<char>,
    pat: Seq<SegView>,
    h: u64,
    path: Seq<char>,
)
    requires
        forall|p2: Seq<SegView>, h2: u64|
            #[trigger] table_has_route(t.entries@, method, p2, h2) <==> (p2 == pat && h2 == h),
    ensures
        pattern_matches(pat, segments_of(path)) ==> table_lookup(t.entries@, method, path) == Some(
            (h, captures_of(pat, segments_of(path))),
        ),
        !pattern_matches(pat, segments_of(path)) ==> table_lookup(t.entries@, method, path)
            is None,
{
    assert(table_has_route(t.entries@, method, pat, h));
    match find_static(t.entries@, method) {
        Some(trie) => {
            assert forall|p2: Seq<SegView>, h2: u64|
                #[trigger] trie.has_route(p2, h2) <==> (p2 == pat && h2 == h) by {
                assert(trie.has_route(p2, h2) == table_has_route(t.entries@, method, p2, h2));
            }
            trie.lemma_single_route_lookup(pat, h, segments_of(path));
        },
        None => {},
    }
}

} // verus!
