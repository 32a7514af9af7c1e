//! The route trie: a prefix tree of pattern segments.
//!
//! A node owns zero or more static children keyed by literal text, at most
//! one parameter child (with its captured name), at most one trailing
//! wildcard route, and an optional handler marking it as a route terminal.
//! Lookup descends the path's segments with fixed precedence at each node
//! — static, then parameter, then wildcard — and backtracks: a static
//! subtree that fails to produce a terminal match further down does not
//! hide a parameter or wildcard alternative at the same node.

use vstd::prelude::*;

use crate::paths::{join_from, joined, pair_views, views_of};
use crate::pattern::{pattern_ok, seg_views, SegView, Segment};

verus! {

/// The single parameter child of a node, with its captured name.
pub struct ParamChild {
    pub name: String,
    pub child: Box<TrieNode>,
}

/// One node of the route trie.
pub struct TrieNode {
    /// Static children, keyed by their literal segment text.
    pub statics: Vec<(String, TrieNode)>,
    /// The parameter child, if any.
    pub param: Option<ParamChild>,
    /// The handler of a trailing wildcard route ending here, if any.
    pub wildcard: Option<u64>,
    /// The handler of a route ending exactly here, if any.
    pub handler: Option<u64>,
}

/// The first entry with the given key, if any.
pub open spec fn find_static(entries: Seq<(String, TrieNode)>, key: Seq<char>) -> Option<TrieNode>
    decreases entries.len(),
{
    if entries.len() == 0 {
        None
    } else if entries[0].0@ == key {
        Some(entries[0].1)
    } else {
        find_static(entries.drop_first(), key)
    }
}

/// Appending an entry leaves every present key's find unchanged and makes
/// the new key found when it was absent.
pub proof fn lemma_find_static_push(entries: Seq<(String, TrieNode)>, e: (String, TrieNode))
    ensures
        forall|key: Seq<char>| #[trigger] find_static(entries.push(e), key) == match find_static(
            entries,
            key,
        ) {
            Some(c) => Some(c),
            None => if key == e.0@ {
                Some(e.1)
            } else {
                None
            },
        },
    decreases entries.len(),
{
    if entries.len() == 0 {
        assert forall|key: Seq<char>| #[trigger] find_static(entries.push(e), key) == match
            find_static(entries, key) {
            Some(c) => Some(c),
            None => if key == e.0@ {
                Some(e.1)
            } else {
                None
            },
        } by {
            assert(entries.push(e)[0] == e);
            assert(entries.push(e).drop_first() =~= Seq::<(String, TrieNode)>::empty());
            assert(find_static(Seq::<(String, TrieNode)>::empty(), key) is None);
        }
    } else {
        lemma_find_static_push(entries.drop_first(), e);
        assert forall|key: Seq<char>| #[trigger] find_static(entries.push(e), key) == match
            find_static(entries, key) {
            Some(c) => Some(c),
            None => if key == e.0@ {
                Some(e.1)
            } else {
                None
            },
        } by {
            assert(entries.push(e)[0] == entries[0]);
            assert(entries.push(e).drop_first() =~= entries.drop_first().push(e));
            let rest = entries.drop_first();
            if entries[0].0@ != key {
                assert(find_static(rest.push(e), key) == match find_static(rest, key) {
                    Some(c) => Some(c),
                    None => if key == e.0@ {
                        Some(e.1)
                    } else {
                        None
                    },
                });
            }
        }
    }
}

/// Replacing the first entry of a key leaves every other key's find
/// unchanged and makes that key find the replacement.
pub proof fn lemma_find_static_update(entries: Seq<(String, TrieNode)>, j: int, e: (String, TrieNode))
    requires
        0 <= j < entries.len(),
        forall|i: int| 0 <= i < j ==> (#[trigger] entries[i]).0@ != entries[j].0@,
        e.0@ == entries[j].0@,
    ensures
        forall|key: Seq<char>| #[trigger] find_static(entries.update(j, e), key) == if key
            == entries[j].0@ {
            Some(e.1)
        } else {
            find_static(entries, key)
        },
    decreases entries.len(),
{
    if j == 0 {
        assert forall|key: Seq<char>| #[trigger] find_static(entries.update(j, e), key) == if key
            == entries[j].0@ {
            Some(e.1)
        } else {
            find_static(entries, key)
        } by {
            assert(entries.update(0, e)[0] == e);
            assert(entries.update(0, e).drop_first() =~= entries.drop_first());
        }
    } else {
        lemma_find_static_update(entries.drop_first(), j - 1, e);
        assert forall|key: Seq<char>| #[trigger] find_static(entries.update(j, e), key) == if key
            == entries[j].0@ {
            Some(e.1)
        } else {
            find_static(entries, key)
        } by {
            assert(entries.update(j, e)[0] == entries[0]);
            assert(entries.update(j, e).drop_first() =~= entries.drop_first().update(j - 1, e));
            assert(entries[0].0@ != entries[j].0@);
            assert(entries.drop_first()[j - 1] == entries[j]);
            let rest = entries.drop_first();
            if entries[0].0@ != key {
                assert(find_static(rest.update(j - 1, e), key) == if key == rest[j - 1].0@ {
                    Some(e.1)
                } else {
                    find_static(rest, key)
                });
            }
        }
    }
}

/// The index of the first entry with the given key.
pub(crate) fn static_index(entries: &Vec<(String, TrieNode)>, key: &String) -> (r: Option<usize>)
    ensures
        match r {
            Some(j) => j < entries@.len() && entries@[j as int].0@ == key@ && find_static(
                entries@,
                key@,
            ) == Some(entries@[j as int].1) && forall|i: int|
                0 <= i < j ==> (#[trigger] entries@[i]).0@ != key@,
            None => find_static(entries@, key@) is None,
        },
{
    let mut j: usize = 0;
    proof {
        assert(entries@.skip(0) =~= entries@);
    }
    while j < entries.len()
        invariant
            j <= entries@.len(),
            find_static(entries@.skip(j as int), key@) == find_static(entries@, key@),
            forall|i: int| 0 <= i < j ==> (#[trigger] entries@[i]).0@ != key@,
        decreases entries@.len() - j,
    {
        proof {
            assert(entries@.skip(j as int)[0] == entries@[j as int]);
            assert(entries@.skip(j as int).drop_first() =~= entries@.skip(j as int + 1));
        }
        if entries[j].0 == *key {
            return Some(j);
        }
        j = j + 1;
    }
    proof {
        assert(entries@.skip(entries@.len() as int) =~= Seq::<(String, TrieNode)>::empty());
    }
    None
}

/// The name a wildcard capture is recorded under.
pub open spec fn wildcard_key() -> Seq<char> {
    seq!['*']
}

/// Whether a pattern matches a path's segments: position by position, a
/// static segment requires its exact text, a parameter matches any one
/// segment, and a trailing wildcard consumes the non-empty rest.
pub open spec fn pattern_matches(pat: Seq<SegView>, segs: Seq<Seq<char>>) -> bool
    decreases pat.len(),
{
    if pat.len() == 0 {
        segs.len() == 0
    } else {
        match pat[0] {
            SegView::Static { text } => segs.len() > 0 && segs[0] == text && pattern_matches(
                pat.drop_first(),
                segs.drop_first(),
            ),
            SegView::Param { name } => segs.len() > 0 && pattern_matches(
                pat.drop_first(),
                segs.drop_first(),
            ),
            SegView::Wildcard => pat.len() == 1 && segs.len() > 0,
        }
    }
}


/// The bindings a pattern captures from a path it matches: each parameter
/// name bound to its segment, and a trailing wildcard bound to the joined
/// remainder under [`wildcard_key`].
pub open spec fn captures_of(pat: Seq<SegView>, segs: Seq<Seq<char>>) -> Seq<
    (Seq<char>, Seq<char>),
>
    decreases pat.len(),
{
    if pat.len() == 0 {
        Seq::empty()
    } else {
        match pat[0] {
            SegView::Static { text } => captures_of(pat.drop_first(), segs.drop_first()),
            SegView::Param { name } => seq![(name, segs[0])] + captures_of(
                pat.drop_first(),
                segs.drop_first(),
            ),
            SegView::Wildcard => seq![(wildcard_key(), joined(segs))],
        }
    }
}

/// The all-static pattern whose segments are exactly these texts.
pub open spec fn statics_pattern(segs: Seq<Seq<char>>) -> Seq<SegView> {
    segs.map_values(|t: Seq<char>| SegView::Static { text: t })
}

impl TrieNode {
    /// Whether this subtree holds a route for exactly this pattern, bound
    /// to this handler.
    pub open spec fn has_route(self, pat: Seq<SegView>, h: u64) -> bool
        decreases pat.len(),
    {
        if pat.len() == 0 {
            self.handler == Some(h)
        } else {
            match pat[0] {
                SegView::Static { text } => match find_static(self.statics@, text) {
                    Some(child) => child.has_route(pat.drop_first(), h),
                    None => false,
                },
                SegView::Param { name } => match self.param {
                    Some(p) => p.name@ == name && p.child.has_route(pat.drop_first(), h),
                    None => false,
                },
                SegView::Wildcard => pat.len() == 1 && self.wildcard == Some(h),
            }
        }
    }

    /// Whether inserting this pattern would clash with the tree: somewhere
    /// along the pattern's spine a parameter child already exists under a
    /// different name.
    pub open spec fn conflicts(self, pat: Seq<SegView>) -> bool
        decreases pat.len(),
    {
        if pat.len() == 0 {
            false
        } else {
            match pat[0] {
                SegView::Static { text } => match find_static(self.statics@, text) {
                    Some(child) => child.conflicts(pat.drop_first()),
                    None => false,
                },
                SegView::Param { name } => match self.param {
                    Some(p) => p.name@ != name || p.child.conflicts(pat.drop_first()),
                    None => false,
                },
                SegView::Wildcard => false,
            }
        }
    }

    /// What looking up these path segments returns: the handler of the
    /// best match under static > parameter > wildcard precedence, with the
    /// captured parameters in order of capture.
    pub open spec fn lookup_spec(self, segs: Seq<Seq<char>>) -> Option<
        (u64, Seq<(Seq<char>, Seq<char>)>),
    >
        decreases segs.len(),
    {
        if segs.len() == 0 {
            match self.handler {
                Some(h) => Some((h, Seq::empty())),
                None => None,
            }
        } else {
            let static_try = match find_static(self.statics@, segs[0]) {
                Some(child) => child.lookup_spec(segs.drop_first()),
                None => None,
            };
            if static_try is Some {
                static_try
            } else {
                let param_try = match self.param {
                    Some(p) => match p.child.lookup_spec(segs.drop_first()) {
                        Some(r) => Some((r.0, seq![(p.name@, segs[0])] + r.1)),
                        None => None,
                    },
                    None => None,
                };
                if param_try is Some {
                    param_try
                } else {
                    match self.wildcard {
                        Some(h) => Some((h, seq![(wildcard_key(), joined(segs))])),
                        None => None,
                    }
                }
            }
        }
    }

    /// A node with no children and no routes.
    pub fn empty() -> (n: TrieNode)
        ensures
            n.statics@.len() == 0,
            n.param is None,
            n.wildcard is None,
            n.handler is None,
    {
        TrieNode { statics: Vec::new(), param: None, wildcard: None, handler: None }
    }

    /// The first static child with the given literal text.
    fn find_static_child(&self, key: &String) -> (r: Option<&TrieNode>)
        ensures
            match r {
                Some(c) => find_static(self.statics@, key@) == Some(*c),
                None => find_static(self.statics@, key@) is None,
            },
    {
        let mut j: usize = 0;
        proof {
            assert(self.statics@.skip(0) =~= self.statics@);
        }
        while j < self.statics.len()
            invariant
                j <= self.statics@.len(),
                find_static(self.statics@.skip(j as int), key@) == find_static(
                    self.statics@,
                    key@,
                ),
            decreases self.statics@.len() - j,
        {
            proof {
                assert(self.statics@.skip(j as int)[0] == self.statics@[j as int]);
                assert(self.statics@.skip(j as int).drop_first() =~= self.statics@.skip(
                    j as int + 1,
                ));
            }
            let entry = &self.statics[j];
            if entry.0 == *key {
                return Some(&entry.1);
            }
            j = j + 1;
        }
        proof {
            assert(self.statics@.skip(self.statics@.len() as int) =~= Seq::<
                (String, TrieNode),
            >::empty());
        }
        None
    }

    /// Check whether inserting the pattern's segments from `idx` on would
    /// clash with a parameter child registered under a different name.
    pub fn check_conflicts(&self, pat: &Vec<Segment>, idx: usize) -> (c: bool)
        requires
            idx <= pat@.len(),
        ensures
            c == self.conflicts(seg_views(pat@).skip(idx as int)),
        decreases pat@.len() - idx,
    {
        let ghost suffix = seg_views(pat@).skip(idx as int);
        if idx == pat.len() {
            proof {
                assert(seg_views(pat@).len() == pat@.len());
                assert(suffix =~= Seq::<SegView>::empty());
            }
            false
        } else {
            proof {
                assert(seg_views(pat@).len() == pat@.len());
                assert(suffix[0] == pat@[idx as int]@);
                assert(suffix.drop_first() =~= seg_views(pat@).skip(idx as int + 1));
            }
            match &pat[idx] {
                Segment::Static { text } => match self.find_static_child(text) {
                    Some(child) => child.check_conflicts(pat, idx + 1),
                    None => false,
                },
                Segment::Param { name } => match &self.param {
                    Some(p) => {
                        if p.name == *name {
                            p.child.check_conflicts(pat, idx + 1)
                        } else {
                            true
                        }
                    },
                    None => false,
                },
                Segment::Wildcard => false,
            }
        }
    }

    /// A fresh spine holding exactly one route: the pattern's segments
    /// from `idx` on, bound to handler `h`.
    pub fn route_chain(pat: &Vec<Segment>, idx: usize, h: u64) -> (n: TrieNode)
        requires
            idx <= pat@.len(),
            pattern_ok(seg_views(pat@).skip(idx as int)),
        ensures
            forall|p2: Seq<SegView>, h2: u64| #[trigger] n.has_route(p2, h2) <==> (p2 == seg_views(
                pat@,
            ).skip(idx as int) && h2 == h),
        decreases pat@.len() - idx,
    {
        let ghost suffix = seg_views(pat@).skip(idx as int);
        proof {
            assert(seg_views(pat@).len() == pat@.len());
        }
        if idx == pat.len() {
            let mut n = TrieNode::empty();
            n.handler = Some(h);
            proof {
                assert(suffix =~= Seq::<SegView>::empty());
                assert forall|p2: Seq<SegView>, h2: u64| #[trigger] n.has_route(p2, h2) <==> (p2
                    == suffix && h2 == h) by {
                    if p2.len() == 0 {
                        assert(p2 =~= suffix);
                    } else {
                        assert(n.statics@ =~= Seq::<(String, TrieNode)>::empty());
                        assert(!n.has_route(p2, h2));
                    }
                }
            }
            n
        } else {
            proof {
                assert(suffix[0] == pat@[idx as int]@);
                assert(suffix.drop_first() =~= seg_views(pat@).skip(idx as int + 1));
                assert(pattern_ok(suffix.drop_first())) by {
                    assert forall|i: int| 0 <= i < suffix.drop_first().len() - 1 implies !(
                    #[trigger] suffix.drop_first()[i] is Wildcard) by {
                        assert(suffix.drop_first()[i] == suffix[i + 1]);
                    }
                }
            }
            let ghost tail = seg_views(pat@).skip(idx as int + 1);
            match &pat[idx] {
                Segment::Wildcard => {
                    let mut n = TrieNode::empty();
                    n.wildcard = Some(h);
                    proof {
                        assert(suffix[0] is Wildcard);
                        if suffix.len() > 1 {
                            assert(!(suffix[0] is Wildcard));
                        }
                        assert(suffix.len() == 1);
                        assert(suffix[0] == SegView::Wildcard);
                        assert forall|p2: Seq<SegView>, h2: u64| #[trigger] n.has_route(p2, h2)
                            <==> (p2 == suffix && h2 == h) by {
                            assert(n.statics@ =~= Seq::<(String, TrieNode)>::empty());
                            if p2.len() == 1 && p2[0] is Wildcard {
                                assert(p2[0] == SegView::Wildcard);
                                assert(p2 =~= suffix);
                            } else {
                                assert(!n.has_route(p2, h2));
                                assert(p2 != suffix);
                            }
                        }
                    }
                    n
                },
                Segment::Param { name } => {
                    let child = TrieNode::route_chain(pat, idx + 1, h);
                    let ghost childv = child;
                    let n = TrieNode {
                        statics: Vec::new(),
                        param: Some(ParamChild { name: name.clone(), child: Box::new(child) }),
                        wildcard: None,
                        handler: None,
                    };
                    proof {
                        assert(suffix[0] == SegView::Param { name: name@ });
                        assert forall|p2: Seq<SegView>, h2: u64| #[trigger] n.has_route(p2, h2)
                            <==> (p2 == suffix && h2 == h) by {
                            assert(n.statics@ =~= Seq::<(String, TrieNode)>::empty());
                            if p2.len() > 0 {
                                match p2[0] {
                                    SegView::Param { name: n2 } => {
                                        if n2 == name@ && p2.drop_first() == tail && h2 == h {
                                            assert(p2[0] == suffix[0]);
                                            assert forall|i: int|
                                                0 < i < p2.len() implies p2[i] == suffix[i] by {
                                                assert(p2[i] == p2.drop_first()[i - 1]);
                                                assert(suffix[i] == suffix.drop_first()[i - 1]);
                                            }
                                            assert(p2 =~= suffix);
                                            assert(childv.has_route(tail, h));
                                            assert(n.has_route(p2, h2));
                                        }
                                    },
                                    _ => {},
                                }
                            }
                            if n.has_route(p2, h2) {
                                assert(p2.len() > 0);
                                match p2[0] {
                                    SegView::Param { name: n2 } => {
                                        assert(n2 == name@);
                                        assert(childv.has_route(p2.drop_first(), h2));
                                        assert(p2.drop_first() == tail && h2 == h);
                                        assert(p2 =~= suffix);
                                    },
                                    _ => {
                                        assert(false);
                                    },
                                }
                            }
                            if p2 == suffix && h2 == h {
                                assert(p2.len() > 0 && p2[0] == suffix[0]);
                                assert(p2.drop_first() =~= tail);
                            }
                        }
                    }
                    n
                },
                Segment::Static { text } => {
                    let child = TrieNode::route_chain(pat, idx + 1, h);
                    let ghost childv = child;
                    let mut statics: Vec<(String, TrieNode)> = Vec::new();
                    statics.push((text.clone(), child));
                    let n = TrieNode { statics, param: None, wildcard: None, handler: None };
                    proof {
                        assert(suffix[0] == SegView::Static { text: text@ });
                        assert(n.statics@.len() == 1);
                        assert(n.statics@[0].0@ == text@);
                        assert(n.statics@[0].1 == childv);
                        assert forall|p2: Seq<SegView>, h2: u64| #[trigger] n.has_route(p2, h2)
                            <==> (p2 == suffix && h2 == h) by {
                            assert(n.statics@.drop_first() =~= Seq::<(String, TrieNode)>::empty());
                            if p2.len() > 0 {
                                match p2[0] {
                                    SegView::Static { text: t2 } => {
                                        if t2 == text@ {
                                            assert(find_static(n.statics@, t2) == Some(childv));
                                            if p2.drop_first() == tail && h2 == h {
                                                assert(p2[0] == suffix[0]);
                                                assert forall|i: int|
                                                    0 < i < p2.len() implies p2[i] == suffix[i] by {
                                                    assert(p2[i] == p2.drop_first()[i - 1]);
                                                    assert(suffix[i] == suffix.drop_first()[i
                                                        - 1]);
                                                }
                                                assert(p2 =~= suffix);
                                                assert(childv.has_route(tail, h));
                                                assert(n.has_route(p2, h2));
                                            }
                                            if n.has_route(p2, h2) {
                                                assert(childv.has_route(p2.drop_first(), h2));
                                                assert(p2.drop_first() == tail && h2 == h);
                                                assert(p2 =~= suffix);
                                            }
                                            if p2 == suffix && h2 == h {
                                                assert(p2.drop_first() =~= tail);
                                            }
                                        } else {
                                            assert(find_static(
                                                Seq::<(String, TrieNode)>::empty(),
                                                t2,
                                            ) is None);
                                            assert(find_static(n.statics@, t2) is None);
                                            assert(!n.has_route(p2, h2));
                                            assert(p2[0] != suffix[0]);
                                        }
                                    },
                                    _ => {
                                        assert(!n.has_route(p2, h2));
                                        assert(p2 != suffix);
                                    },
                                }
                            } else {
                                assert(!n.has_route(p2, h2));
                                assert(p2 != suffix);
                            }
                        }
                    }
                    n
                },
            }
        }
    }

    /// The tree with one route added: the pattern's segments from `idx` on,
    /// bound to handler `h`.  Every other route is kept; a route already
    /// registered for exactly this pattern is overwritten.
    pub fn with_route(self, pat: &Vec<Segment>, idx: usize, h: u64) -> (r: TrieNode)
        requires
            idx <= pat@.len(),
            pattern_ok(seg_views(pat@).skip(idx as int)),
            !self.conflicts(seg_views(pat@).skip(idx as int)),
        ensures
            forall|p2: Seq<SegView>, h2: u64| #[trigger] r.has_route(p2, h2) <==> (if p2
                == seg_views(pat@).skip(idx as int) {
                h2 == h
            } else {
                self.has_route(p2, h2)
            }),
        decreases pat@.len() - idx,
    {
        let ghost suffix = seg_views(pat@).skip(idx as int);
        let ghost selfg = self;
        proof {
            assert(seg_views(pat@).len() == pat@.len());
        }
        if idx == pat.len() {
            let TrieNode { statics, param, wildcard, handler: _ } = self;
            let r = TrieNode { statics, param, wildcard, handler: Some(h) };
            proof {
                assert(suffix =~= Seq::<SegView>::empty());
                assert forall|p2: Seq<SegView>, h2: u64| #[trigger] r.has_route(p2, h2) <==> (if p2
                    == suffix {
                    h2 == h
                } else {
                    selfg.has_route(p2, h2)
                }) by {
                    if p2.len() == 0 {
                        assert(p2 =~= suffix);
                    } else {
                        assert(p2 != suffix);
                        assert(r.has_route(p2, h2) == selfg.has_route(p2, h2));
                    }
                }
            }
            return r;
        }
        proof {
            assert(suffix[0] == pat@[idx as int]@);
            assert(suffix.drop_first() =~= seg_views(pat@).skip(idx as int + 1));
            assert(pattern_ok(suffix.drop_first())) by {
                assert forall|i: int| 0 <= i < suffix.drop_first().len() - 1 implies !(
                #[trigger] suffix.drop_first()[i] is Wildcard) by {
                    assert(suffix.drop_first()[i] == suffix[i + 1]);
                }
            }
        }
        let ghost tail = seg_views(pat@).skip(idx as int + 1);
        match &pat[idx] {
            Segment::Wildcard => {
                let TrieNode { statics, param, wildcard: _, handler } = self;
                let r = TrieNode { statics, param, wildcard: Some(h), handler };
                proof {
                    assert(suffix[0] is Wildcard);
                    if suffix.len() > 1 {
                        assert(!(suffix[0] is Wildcard));
                    }
                    assert(suffix.len() == 1);
                    assert(suffix[0] == SegView::Wildcard);
                    assert forall|p2: Seq<SegView>, h2: u64| #[trigger] r.has_route(p2, h2) <==> (
                    if p2 == suffix {
                        h2 == h
                    } else {
                        selfg.has_route(p2, h2)
                    }) by {
                        if p2.len() == 0 {
                            assert(p2 != suffix);
                            assert(r.has_route(p2, h2) == selfg.has_route(p2, h2));
                        } else {
                            match p2[0] {
                                SegView::Wildcard => {
                                    if p2.len() == 1 {
                                        assert(p2[0] == SegView::Wildcard);
                                        assert(p2 =~= suffix);
                                    } else {
                                        assert(p2 != suffix);
                                        assert(!r.has_route(p2, h2));
                                        assert(!selfg.has_route(p2, h2));
                                    }
                                },
                                _ => {
                                    assert(p2[0] != suffix[0]);
                                    assert(r.has_route(p2, h2) == selfg.has_route(p2, h2));
                                },
                            }
                        }
                    }
                }
                r
            },
            Segment::Param { name } => {
                let TrieNode { statics, param, wildcard, handler } = self;
                proof {
                    assert(suffix[0] == SegView::Param { name: name@ });
                }
                let new_param = match param {
                    Some(p) => {
                        let ParamChild { name: pname, child } = p;
                        let ghost oldchild = *child;
                        proof {
                            assert(pname@ == name@);
                            assert(!oldchild.conflicts(tail));
                        }
                        let child2 = (*child).with_route(pat, idx + 1, h);
                        ParamChild { name: pname, child: Box::new(child2) }
                    },
                    None => {
                        let child = TrieNode::route_chain(pat, idx + 1, h);
                        ParamChild { name: name.clone(), child: Box::new(child) }
                    },
                };
                let r = TrieNode { statics, param: Some(new_param), wildcard, handler };
                proof {
                    let newchild = *r.param->Some_0.child;
                    assert(r.param->Some_0.name@ == name@);
                    assert forall|p2: Seq<SegView>, h2: u64| #[trigger] r.has_route(p2, h2) <==> (
                    if p2 == suffix {
                        h2 == h
                    } else {
                        selfg.has_route(p2, h2)
                    }) by {
                        if p2.len() == 0 {
                            assert(p2 != suffix);
                            assert(r.has_route(p2, h2) == selfg.has_route(p2, h2));
                        } else {
                            match p2[0] {
                                SegView::Param { name: n2 } => {
                                    if n2 == name@ {
                                        assert(p2[0] == suffix[0]);
                                        if p2.drop_first() == tail {
                                            assert forall|i: int|
                                                0 < i < p2.len() implies p2[i] == suffix[i] by {
                                                assert(p2[i] == p2.drop_first()[i - 1]);
                                                assert(suffix[i] == suffix.drop_first()[i - 1]);
                                            }
                                            assert(p2 =~= suffix);
                                            assert(r.has_route(p2, h2) == newchild.has_route(
                                                tail,
                                                h2,
                                            ));
                                            assert(newchild.has_route(tail, h2) <==> h2 == h);
                                        } else {
                                            assert(p2 != suffix);
                                            assert(r.has_route(p2, h2) == newchild.has_route(
                                                p2.drop_first(),
                                                h2,
                                            ));
                                            match selfg.param {
                                                Some(p) => {
                                                    assert(selfg.has_route(p2, h2)
                                                        == p.child.has_route(
                                                        p2.drop_first(),
                                                        h2,
                                                    ));
                                                },
                                                None => {
                                                    assert(!selfg.has_route(p2, h2));
                                                    assert(!newchild.has_route(
                                                        p2.drop_first(),
                                                        h2,
                                                    ));
                                                },
                                            }
                                        }
                                    } else {
                                        assert(p2[0] != suffix[0]);
                                        assert(p2 != suffix);
                                        assert(!r.has_route(p2, h2));
                                        match selfg.param {
                                            Some(p) => {
                                                assert(p.name@ == name@ && name@ != n2);
                                                assert(!selfg.has_route(p2, h2));
                                            },
                                            None => {
                                                assert(!selfg.has_route(p2, h2));
                                            },
                                        }
                                    }
                                },
                                _ => {
                                    assert(p2[0] != suffix[0]);
                                    assert(p2 != suffix);
                                    assert(r.has_route(p2, h2) == selfg.has_route(p2, h2));
                                },
                            }
                        }
                    }
                }
                r
            },
            Segment::Static { text } => {
                let TrieNode { mut statics, param, wildcard, handler } = self;
                proof {
                    assert(suffix[0] == SegView::Static { text: text@ });
                }
                match static_index(&statics, text) {
                    Some(j) => {
                        let (key, child) = statics.remove(j);
                        let ghost keyg = key;
                        let ghost oldchild = child;
                        proof {
                            assert(find_static(selfg.statics@, text@) == Some(oldchild));
                            assert(!oldchild.conflicts(tail));
                        }
                        let child2 = child.with_route(pat, idx + 1, h);
                        let ghost child2g = child2;
                        statics.insert(j, (key, child2));
                        let r = TrieNode { statics, param, wildcard, handler };
                        proof {
                            let ghost e = (keyg, child2g);
                            assert(r.statics@ =~= selfg.statics@.update(j as int, e));
                            lemma_find_static_update(selfg.statics@, j as int, e);
                            assert forall|p2: Seq<SegView>, h2: u64| #[trigger] r.has_route(
                                p2,
                                h2,
                            ) <==> (if p2 == suffix {
                                h2 == h
                            } else {
                                selfg.has_route(p2, h2)
                            }) by {
                                if p2.len() == 0 {
                                    assert(p2 != suffix);
                                    assert(r.has_route(p2, h2) == selfg.has_route(p2, h2));
                                } else {
                                    match p2[0] {
                                        SegView::Static { text: t2 } => {
                                            if t2 == text@ {
                                                assert(find_static(r.statics@, t2) == Some(
                                                    child2g,
                                                ));
                                                assert(p2[0] == suffix[0]);
                                                if p2.drop_first() == tail {
                                                    assert forall|i: int|
                                                        0 < i < p2.len() implies p2[i]
                                                        == suffix[i] by {
                                                        assert(p2[i] == p2.drop_first()[i - 1]);
                                                        assert(suffix[i] == suffix.drop_first()[i
                                                            - 1]);
                                                    }
                                                    assert(p2 =~= suffix);
                                                    assert(child2g.has_route(tail, h2) <==> h2
                                                        == h);
                                                } else {
                                                    assert(p2 != suffix);
                                                    assert(child2g.has_route(p2.drop_first(), h2)
                                                        == oldchild.has_route(
                                                        p2.drop_first(),
                                                        h2,
                                                    ));
                                                }
                                            } else {
                                                assert(p2[0] != suffix[0]);
                                                assert(p2 != suffix);
                                                assert(find_static(r.statics@, t2) == find_static(
                                                    selfg.statics@,
                                                    t2,
                                                ));
                                            }
                                        },
                                        _ => {
                                            assert(p2[0] != suffix[0]);
                                            assert(p2 != suffix);
                                            assert(r.has_route(p2, h2) == selfg.has_route(
                                                p2,
                                                h2,
                                            ));
                                        },
                                    }
                                }
                            }
                        }
                        r
                    },
                    None => {
                        let child = TrieNode::route_chain(pat, idx + 1, h);
                        let ghost childg = child;
                        statics.push((text.clone(), child));
                        let r = TrieNode { statics, param, wildcard, handler };
                        proof {
                            let ghost e = (r.statics@.last().0, childg);
                            assert(r.statics@ =~= selfg.statics@.push(e));
                            assert(e.0@ == text@);
                            lemma_find_static_push(selfg.statics@, e);
                            assert forall|p2: Seq<SegView>, h2: u64| #[trigger] r.has_route(
                                p2,
                                h2,
                            ) <==> (if p2 == suffix {
                                h2 == h
                            } else {
                                selfg.has_route(p2, h2)
                            }) by {
                                if p2.len() == 0 {
                                    assert(p2 != suffix);
                                    assert(r.has_route(p2, h2) == selfg.has_route(p2, h2));
                                } else {
                                    match p2[0] {
                                        SegView::Static { text: t2 } => {
                                            assert(find_static(r.statics@, t2) == match
                                                find_static(selfg.statics@, t2) {
                                                Some(c) => Some(c),
                                                None => if t2 == e.0@ {
                                                    Some(e.1)
                                                } else {
                                                    None
                                                },
                                            });
                                            if t2 == text@ {
                                                assert(p2[0] == suffix[0]);
                                                assert(find_static(selfg.statics@, t2) is None);
                                                assert(find_static(r.statics@, t2) == Some(
                                                    childg,
                                                ));
                                                assert(!selfg.has_route(p2, h2));
                                                if p2.drop_first() == tail {
                                                    assert forall|i: int|
                                                        0 < i < p2.len() implies p2[i]
                                                        == suffix[i] by {
                                                        assert(p2[i] == p2.drop_first()[i - 1]);
                                                        assert(suffix[i] == suffix.drop_first()[i
                                                            - 1]);
                                                    }
                                                    assert(p2 =~= suffix);
                                                    assert(childg.has_route(tail, h2) <==> h2
                                                        == h);
                                                } else {
                                                    assert(p2 != suffix);
                                                    assert(!childg.has_route(
                                                        p2.drop_first(),
                                                        h2,
                                                    ));
                                                }
                                            } else {
                                                assert(p2[0] != suffix[0]);
                                                assert(p2 != suffix);
                                                assert(find_static(r.statics@, t2) == find_static(
                                                    selfg.statics@,
                                                    t2,
                                                ));
                                            }
                                        },
                                        _ => {
                                            assert(p2[0] != suffix[0]);
                                            assert(p2 != suffix);
                                            assert(r.has_route(p2, h2) == selfg.has_route(
                                                p2,
                                                h2,
                                            ));
                                        },
                                    }
                                }
                            }
                        }
                        r
                    },
                }
            },
        }
    }

    /// A successful lookup is justified by some registered route whose
    /// pattern matches the path, and a failed lookup means no registered
    /// route's pattern matches the path.
    pub proof fn lemma_lookup_matches(self, segs: Seq<Seq<char>>)
        ensures
            self.lookup_spec(segs) is Some ==> exists|pat: Seq<SegView>|
                #[trigger] self.has_route(pat, self.lookup_spec(segs)->Some_0.0)
                    && pattern_matches(pat, segs),
            self.lookup_spec(segs) is None ==> forall|pat: Seq<SegView>, h: u64|
                #[trigger] self.has_route(pat, h) ==> !pattern_matches(pat, segs),
        decreases segs.len(),
    {
        if segs.len() == 0 {
            match self.handler {
                Some(h) => {
                    let pat = Seq::<SegView>::empty();
                    let h0 = self.lookup_spec(segs)->Some_0.0;
                    assert(h0 == h);
                    assert(self.has_route(pat, h0) && pattern_matches(pat, segs));
                },
                None => {
                    assert forall|pat: Seq<SegView>, h: u64|
                        #[trigger] self.has_route(pat, h) implies !pattern_matches(pat, segs) by {
                        if pat.len() == 0 {
                            assert(!self.has_route(pat, h));
                        } else {
                            assert(!pattern_matches(pat, segs));
                        }
                    }
                },
            }
            return;
        }
        let rest = segs.drop_first();
        match find_static(self.statics@, segs[0]) {
            Some(child) => {
                child.lemma_lookup_matches(rest);
            },
            None => {},
        }
        match self.param {
            Some(p) => {
                p.child.lemma_lookup_matches(rest);
            },
            None => {},
        }
        if self.lookup_spec(segs) is Some {
            let h0 = self.lookup_spec(segs)->Some_0.0;
            {
                match find_static(self.statics@, segs[0]) {
                    Some(child) => {
                        if child.lookup_spec(rest) is Some {
                            let inner = child.lookup_spec(rest)->Some_0;
                            let pat0 = choose|pat0: Seq<SegView>|
                                #[trigger] child.has_route(pat0, inner.0) && pattern_matches(
                                    pat0,
                                    rest,
                                );
                            let pat = seq![SegView::Static { text: segs[0] }] + pat0;
                            assert(pat[0] == SegView::Static { text: segs[0] });
                            assert(pat.drop_first() =~= pat0);
                            assert(h0 == inner.0);
                            assert(self.has_route(pat, h0) && pattern_matches(pat, segs));
                            return;
                        }
                    },
                    None => {},
                }
                match self.param {
                    Some(p) => {
                        if p.child.lookup_spec(rest) is Some {
                            let inner = p.child.lookup_spec(rest)->Some_0;
                            let pat0 = choose|pat0: Seq<SegView>|
                                #[trigger] p.child.has_route(pat0, inner.0) && pattern_matches(
                                    pat0,
                                    rest,
                                );
                            let pat = seq![SegView::Param { name: p.name@ }] + pat0;
                            assert(pat[0] == SegView::Param { name: p.name@ });
                            assert(pat.drop_first() =~= pat0);
                            assert(h0 == inner.0);
                            assert(self.has_route(pat, h0) && pattern_matches(pat, segs));
                            return;
                        }
                    },
                    None => {},
                }
                let pat = seq![SegView::Wildcard];
                assert(pat[0] == SegView::Wildcard);
                assert(self.wildcard == Some(h0));
                assert(self.has_route(pat, h0) && pattern_matches(pat, segs));
            }
        } else {
            {
                assert forall|pat: Seq<SegView>, h: u64|
                    #[trigger] self.has_route(pat, h) implies !pattern_matches(pat, segs) by {
                    if pat.len() == 0 {
                        assert(!pattern_matches(pat, segs));
                    } else {
                        match pat[0] {
                            SegView::Static { text } => {
                                if pattern_matches(pat, segs) {
                                    assert(segs[0] == text);
                                    match find_static(self.statics@, text) {
                                        Some(child) => {
                                            assert(child.has_route(pat.drop_first(), h));
                                            assert(child.lookup_spec(rest) is None);
                                            assert(!pattern_matches(pat.drop_first(), rest));
                                            assert(false);
                                        },
                                        None => {
                                            assert(!self.has_route(pat, h));
                                        },
                                    }
                                }
                            },
                            SegView::Param { name } => {
                                if pattern_matches(pat, segs) {
                                    match self.param {
                                        Some(p) => {
                                            assert(p.child.has_route(pat.drop_first(), h));
                                            assert(p.child.lookup_spec(rest) is None);
                                            assert(!pattern_matches(pat.drop_first(), rest));
                                            assert(false);
                                        },
                                        None => {
                                            assert(!self.has_route(pat, h));
                                        },
                                    }
                                }
                            },
                            SegView::Wildcard => {
                                if self.has_route(pat, h) {
                                    assert(self.wildcard == Some(h));
                                    assert(self.lookup_spec(segs) is Some);
                                    assert(false);
                                }
                            },
                        }
                    }
                }
            }
        }
    }


    /// A subtree holding no route answers no lookup.
    pub proof fn lemma_no_routes_no_match(self, segs: Seq<Seq<char>>)
        requires
            forall|p2: Seq<SegView>, h2: u64| !(#[trigger] self.has_route(p2, h2)),
        ensures
            self.lookup_spec(segs) is None,
    {
        self.lemma_lookup_matches(segs);
        if self.lookup_spec(segs) is Some {
            let h0 = self.lookup_spec(segs)->Some_0.0;
            let pat = choose|pat: Seq<SegView>|
                #[trigger] self.has_route(pat, h0) && pattern_matches(pat, segs);
            assert(!self.has_route(pat, h0));
        }
    }

    /// Match completeness for a single-route subtree: when this subtree
    /// holds exactly the route `pat` bound to `h`, a lookup returns `h`
    /// with exactly the pattern's captures for every path the pattern
    /// matches, and nothing for every other path.
    pub proof fn lemma_single_route_lookup(self, pat: Seq<SegView>, h: u64, segs: Seq<Seq<char>>)
        requires
            forall|p2: Seq<SegView>, h2: u64|
                #[trigger] self.has_route(p2, h2) <==> (p2 == pat && h2 == h),
        ensures
            pattern_matches(pat, segs) ==> self.lookup_spec(segs) == Some(
                (h, captures_of(pat, segs)),
            ),
            !pattern_matches(pat, segs) ==> self.lookup_spec(segs) is None,
        decreases pat.len(),
    {
        assert(self.has_route(pat, h));
        if !pattern_matches(pat, segs) {
            self.lemma_lookup_matches(segs);
            if self.lookup_spec(segs) is Some {
                let h0 = self.lookup_spec(segs)->Some_0.0;
                let p0 = choose|p0: Seq<SegView>|
                    #[trigger] self.has_route(p0, h0) && pattern_matches(p0, segs);
                assert(p0 == pat);
            }
            return;
        }
        if pat.len() == 0 {
            assert(segs.len() == 0);
            assert(self.handler == Some(h));
            assert(captures_of(pat, segs) =~= Seq::<(Seq<char>, Seq<char>)>::empty());
            return;
        }
        assert(segs.len() > 0);
        let rest_pat = pat.drop_first();
        let rest = segs.drop_first();
        match pat[0] {
            SegView::Static { text } => {
                assert(segs[0] == text);
                let child = find_static(self.statics@, text)->Some_0;
                assert(find_static(self.statics@, text) == Some(child));
                assert(child.has_route(rest_pat, h));
                assert forall|p2: Seq<SegView>, h2: u64|
                    #[trigger] child.has_route(p2, h2) <==> (p2 == rest_pat && h2 == h) by {
                    if child.has_route(p2, h2) {
                        let lifted = seq![pat[0]] + p2;
                        assert(lifted[0] == pat[0]);
                        assert(lifted.drop_first() =~= p2);
                        assert(self.has_route(lifted, h2));
                        assert(lifted == pat);
                        assert(p2 =~= rest_pat);
                    }
                    if p2 == rest_pat && h2 == h {
                        assert(child.has_route(rest_pat, h));
                    }
                }
                child.lemma_single_route_lookup(rest_pat, h, rest);
                assert(pattern_matches(rest_pat, rest));
                assert(captures_of(pat, segs) == captures_of(rest_pat, rest));
            },
            SegView::Param { name } => {
                match find_static(self.statics@, segs[0]) {
                    Some(sibling) => {
                        assert forall|p2: Seq<SegView>, h2: u64|
                            !(#[trigger] sibling.has_route(p2, h2)) by {
                            if sibling.has_route(p2, h2) {
                                let lifted = seq![SegView::Static { text: segs[0] }] + p2;
                                assert(lifted[0] == SegView::Static { text: segs[0] });
                                assert(lifted.drop_first() =~= p2);
                                assert(self.has_route(lifted, h2));
                                assert(lifted == pat);
                                assert(pat[0] == SegView::Static { text: segs[0] });
                            }
                        }
                        sibling.lemma_no_routes_no_match(rest);
                    },
                    None => {},
                }
                let p = self.param->Some_0;
                assert(self.param == Some(p));
                assert(p.name@ == name);
                assert(p.child.has_route(rest_pat, h));
                assert forall|p2: Seq<SegView>, h2: u64|
                    #[trigger] p.child.has_route(p2, h2) <==> (p2 == rest_pat && h2 == h) by {
                    if p.child.has_route(p2, h2) {
                        let lifted = seq![pat[0]] + p2;
                        assert(lifted[0] == pat[0]);
                        assert(lifted.drop_first() =~= p2);
                        assert(self.has_route(lifted, h2));
                        assert(lifted == pat);
                        assert(p2 =~= rest_pat);
                    }
                    if p2 == rest_pat && h2 == h {
                        assert(p.child.has_route(rest_pat, h));
                    }
                }
                p.child.lemma_single_route_lookup(rest_pat, h, rest);
                assert(pattern_matches(rest_pat, rest));
                assert(p.child.lookup_spec(rest) == Some((h, captures_of(rest_pat, rest))));
                assert(captures_of(pat, segs) == seq![(name, segs[0])] + captures_of(
                    rest_pat,
                    rest,
                ));
            },
            SegView::Wildcard => {
                assert(pat.len() == 1);
                assert(self.wildcard == Some(h));
                match find_static(self.statics@, segs[0]) {
                    Some(sibling) => {
                        assert forall|p2: Seq<SegView>, h2: u64|
                            !(#[trigger] sibling.has_route(p2, h2)) by {
                            if sibling.has_route(p2, h2) {
                                let lifted = seq![SegView::Static { text: segs[0] }] + p2;
                                assert(lifted[0] == SegView::Static { text: segs[0] });
                                assert(lifted.drop_first() =~= p2);
                                assert(self.has_route(lifted, h2));
                                assert(lifted == pat);
                                assert(pat[0] == SegView::Static { text: segs[0] });
                            }
                        }
                        sibling.lemma_no_routes_no_match(rest);
                    },
                    None => {},
                }
                match self.param {
                    Some(p) => {
                        assert forall|p2: Seq<SegView>, h2: u64|
                            !(#[trigger] p.child.has_route(p2, h2)) by {
                            if p.child.has_route(p2, h2) {
                                let lifted = seq![SegView::Param { name: p.name@ }] + p2;
                                assert(lifted[0] == SegView::Param { name: p.name@ });
                                assert(lifted.drop_first() =~= p2);
                                assert(self.has_route(lifted, h2));
                                assert(lifted == pat);
                                assert(pat[0] == SegView::Param { name: p.name@ });
                            }
                        }
                        p.child.lemma_no_routes_no_match(rest);
                    },
                    None => {},
                }
                assert(self.lookup_spec(segs) == Some(
                    (h, seq![(wildcard_key(), joined(segs))]),
                ));
            },
        }
    }

    /// Static precedence: a registered all-static route whose segments are
    /// exactly the path's segments always wins the lookup, with no
    /// captured parameters.
    pub proof fn lemma_static_route_wins(self, segs: Seq<Seq<char>>, h: u64)
        requires
            self.has_route(statics_pattern(segs), h),
        ensures
            self.lookup_spec(segs) == Some((h, Seq::<(Seq<char>, Seq<char>)>::empty())),
        decreases segs.len(),
    {
        let pat = statics_pattern(segs);
        assert(pat.len() == segs.len());
        if segs.len() == 0 {
            assert(pat =~= Seq::<SegView>::empty());
        } else {
            assert(pat[0] == SegView::Static { text: segs[0] });
            match find_static(self.statics@, segs[0]) {
                Some(child) => {
                    assert(pat.drop_first() =~= statics_pattern(segs.drop_first()));
                    assert(child.has_route(statics_pattern(segs.drop_first()), h));
                    child.lemma_static_route_wins(segs.drop_first(), h);
                },
                None => {
                    assert(!self.has_route(pat, h));
                },
            }
        }
    }

    /// Look up the path segments from index `idx` on, returning the
    /// matched handler and the captured parameters.
    pub fn lookup_at(&self, segs: &Vec<String>, idx: usize) -> (r: Option<
        (u64, Vec<(String, String)>),
    >)
        requires
            idx <= segs@.len(),
        ensures
            match r {
                Some(p) => self.lookup_spec(views_of(segs@).skip(idx as int)) == Some(
                    (p.0, pair_views(p.1@)),
                ),
                None => self.lookup_spec(views_of(segs@).skip(idx as int)) is None,
            },
        decreases segs@.len() - idx,
    {
        let ghost svs = views_of(segs@).skip(idx as int);
        if idx == segs.len() {
            proof {
                assert(svs =~= Seq::<Seq<char>>::empty());
            }
            match self.handler {
                Some(h) => {
                    let ps: Vec<(String, String)> = Vec::new();
                    proof {
                        assert(pair_views(ps@) =~= Seq::<(Seq<char>, Seq<char>)>::empty());
                    }
                    Some((h, ps))
                },
                None => None,
            }
        } else {
            proof {
                assert(views_of(segs@).len() == segs@.len());
                assert(svs[0] == segs@[idx as int]@);
                assert(svs.drop_first() =~= views_of(segs@).skip(idx as int + 1));
            }
            let seg = &segs[idx];
            if let Some(child) = self.find_static_child(seg) {
                if let Some(res) = child.lookup_at(segs, idx + 1) {
                    return Some(res);
                }
            }
            if let Some(p) = &self.param {
                if let Some(res) = p.child.lookup_at(segs, idx + 1) {
                    let (h, mut ps) = res;
                    let ghost inner = pair_views(ps@);
                    ps.insert(0, (p.name.clone(), segs[idx].clone()));
                    proof {
                        assert(pair_views(ps@) =~= seq![(p.name@, svs[0])] + inner);
                    }
                    return Some((h, ps));
                }
            }
            match self.wildcard {
                Some(h) => {
                    let capture = join_from(segs, idx);
                    let mut ps: Vec<(String, String)> = Vec::new();
                    let star: String = "*".to_owned();
                    proof {
                        reveal_strlit("*");
                        assert(star@ =~= wildcard_key());
                    }
                    ps.push((star, capture));
                    proof {
                        assert(pair_views(ps@) =~= seq![(wildcard_key(), joined(svs))]);
                    }
                    Some((h, ps))
                },
                None => None,
            }
        }
    }
}

} // verus!
