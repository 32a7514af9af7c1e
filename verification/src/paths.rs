//! Splitting and joining of paths, patterns and query strings.
//!
//! A path or pattern is read as its non-empty `/`-separated segments; a
//! query string as its `&`-separated `key=value` pairs.  The spec functions
//! here are the vocabulary every other contract of the crate speaks in.

use vstd::prelude::*;
use vstd::string::StrSliceExecFns;

verus! {

/// One step of splitting: walk `s`, collecting finished chunks into `acc`
/// and the characters of the current chunk into `cur`; empty chunks are
/// dropped.
pub open spec fn split_step(
    s: Seq<char>,
    sep: char,
    acc: Seq<Seq<char>>,
    cur: Seq<char>,
) -> Seq<Seq<char>>
    decreases s.len(),
{
    if s.len() == 0 {
        if cur.len() > 0 {
            acc.push(cur)
        } else {
            acc
        }
    } else if s[0] == sep {
        split_step(
            s.drop_first(),
            sep,
            if cur.len() > 0 {
                acc.push(cur)
            } else {
                acc
            },
            Seq::empty(),
        )
    } else {
        split_step(s.drop_first(), sep, acc, cur.push(s[0]))
    }
}

/// The non-empty chunks of `s` between occurrences of `sep`.
pub open spec fn split_nonempty(s: Seq<char>, sep: char) -> Seq<Seq<char>> {
    split_step(s, sep, Seq::empty(), Seq::empty())
}

/// The non-empty `/`-separated segments of a path or pattern.
pub open spec fn segments_of(s: Seq<char>) -> Seq<Seq<char>> {
    split_nonempty(s, '/')
}

/// The views of a vector of strings.
pub open spec fn views_of(v: Seq<String>) -> Seq<Seq<char>> {
    v.map_values(|x: String| x@)
}

/// The views of a vector of string pairs.
pub open spec fn pair_views(v: Seq<(String, String)>) -> Seq<(Seq<char>, Seq<char>)> {
    v.map_values(|p: (String, String)| (p.0@, p.1@))
}

/// Split `s` at `sep`, dropping empty chunks.
pub fn split_str(s: &str, sep: char) -> (segs: Vec<String>)
    ensures
        views_of(segs@) == split_nonempty(s@, sep),
{
    let n = s.unicode_len();
    let mut segs: Vec<String> = Vec::new();
    let mut start: usize = 0;
    let mut i: usize = 0;
    proof {
        assert(s@.skip(0) =~= s@);
        assert(views_of(segs@) =~= Seq::<Seq<char>>::empty());
        assert(s@.subrange(0, 0) =~= Seq::<char>::empty());
    }
    while i < n
        invariant
            start <= i <= n == s@.len(),
            split_step(s@.skip(i as int), sep, views_of(segs@), s@.subrange(start as int, i as int))
                == split_nonempty(s@, sep),
        decreases n - i,
    {
        let ghost prev = views_of(segs@);
        let ghost cur = s@.subrange(start as int, i as int);
        let c = s.get_char(i);
        proof {
            assert(s@.skip(i as int)[0] == s@[i as int]);
            assert(s@.skip(i as int).drop_first() =~= s@.skip(i as int + 1));
        }
        if c == sep {
            if start < i {
                let seg = s.substring_char(start, i).to_owned();
                segs.push(seg);
                proof {
                    assert(views_of(segs@) =~= prev.push(cur));
                }
            } else {
                proof {
                    assert(cur =~= Seq::<char>::empty());
                }
            }
            start = i + 1;
            proof {
                assert(s@.subrange(start as int, i as int + 1) =~= Seq::<char>::empty());
            }
        } else {
            proof {
                assert(s@.subrange(start as int, i as int + 1) =~= cur.push(s@[i as int]));
            }
        }
        i = i + 1;
    }
    proof {
        assert(s@.skip(n as int) =~= Seq::<char>::empty());
    }
    if start < n {
        let seg = s.substring_char(start, n).to_owned();
        let ghost prev = views_of(segs@);
        segs.push(seg);
        proof {
            assert(views_of(segs@) =~= prev.push(s@.subrange(start as int, n as int)));
        }
    } else {
        proof {
            assert(s@.subrange(start as int, n as int) =~= Seq::<char>::empty());
        }
    }
    segs
}

/// The segments joined by `/`, without leading or trailing separator.
pub open spec fn joined(segs: Seq<Seq<char>>) -> Seq<char>
    decreases segs.len(),
{
    if segs.len() == 0 {
        Seq::empty()
    } else if segs.len() == 1 {
        segs[0]
    } else {
        joined(segs.drop_last()).push('/') + segs.last()
    }
}

/// Join the segments from index `from` on with `/`.
pub fn join_from(segs: &Vec<String>, from: usize) -> (r: String)
    requires
        from <= segs@.len(),
    ensures
        r@ == joined(views_of(segs@).skip(from as int)),
{
    if from >= segs.len() {
        proof {
            assert(views_of(segs@).skip(from as int) =~= Seq::<Seq<char>>::empty());
        }
        return String::new();
    }
    let mut out = segs[from].clone();
    let mut j = from + 1;
    proof {
        assert(views_of(segs@).subrange(from as int, from as int + 1) =~= seq![segs@[from as int]@]);
    }
    while j < segs.len()
        invariant
            from < j <= segs.len(),
            out@ == joined(views_of(segs@).subrange(from as int, j as int)),
        decreases segs.len() - j,
    {
        let ghost prefix = views_of(segs@).subrange(from as int, j as int);
        out.append("/");
        out.append(segs[j].as_str());
        proof {
            reveal_strlit("/");
            let whole = views_of(segs@).subrange(from as int, j as int + 1);
            assert(whole.drop_last() =~= prefix);
            assert(whole.last() == segs@[j as int]@);
            assert(out@ =~= joined(prefix).push('/') + segs@[j as int]@);
        }
        j = j + 1;
    }
    proof {
        assert(views_of(segs@).subrange(from as int, segs@.len() as int) =~= views_of(segs@).skip(
            from as int,
        ));
    }
    out
}

/// The index of the first occurrence of `c` in `s`, if any.
pub open spec fn find_first(s: Seq<char>, c: char) -> Option<int>
    decreases s.len(),
{
    if s.len() == 0 {
        None
    } else if s[0] == c {
        Some(0)
    } else {
        match find_first(s.drop_first(), c) {
            Some(i) => Some(i + 1),
            None => None,
        }
    }
}

/// `find_first` finds the first occurrence: the character is there, and no
/// earlier position holds it; `None` means no position holds it.
pub proof fn lemma_find_first(s: Seq<char>, c: char)
    ensures
        match find_first(s, c) {
            Some(i) => 0 <= i < s.len() && s[i] == c && forall|j: int| 0 <= j < i ==> s[j] != c,
            None => forall|j: int| 0 <= j < s.len() ==> s[j] != c,
        },
    decreases s.len(),
{
    if s.len() != 0 && s[0] != c {
        lemma_find_first(s.drop_first(), c);
        match find_first(s.drop_first(), c) {
            Some(i0) => {
                assert(s.drop_first()[i0] == s[i0 + 1]);
                assert forall|j: int| 0 <= j < i0 + 1 implies s[j] != c by {
                    if j > 0 {
                        assert(s.drop_first()[j - 1] == s[j]);
                    }
                }
            },
            None => {
                assert forall|j: int| 0 <= j < s.len() implies s[j] != c by {
                    if j > 0 {
                        assert(s.drop_first()[j - 1] == s[j]);
                    }
                }
            },
        }
    }
}

/// Find the first occurrence of `c` in `s`.
pub fn find_char(s: &str, c: char) -> (r: Option<usize>)
    ensures
        match r {
            Some(i) => find_first(s@, c) == Some(i as int),
            None => find_first(s@, c) is None,
        },
{
    let n = s.unicode_len();
    let mut i: usize = 0;
    proof {
        assert(s@.skip(0) =~= s@);
    }
    while i < n
        invariant
            i <= n == s@.len(),
            match find_first(s@.skip(i as int), c) {
                Some(k) => find_first(s@, c) == Some(k + i),
                None => find_first(s@, c) is None,
            },
        decreases n - i,
    {
        proof {
            assert(s@.skip(i as int)[0] == s@[i as int]);
            assert(s@.skip(i as int).drop_first() =~= s@.skip(i as int + 1));
        }
        if s.get_char(i) == c {
            return Some(i);
        }
        i = i + 1;
    }
    proof {
        assert(s@.skip(n as int) =~= Seq::<char>::empty());
    }
    None
}

/// The `key=value` reading of one query chunk: the key is everything before
/// the first `=`, the value everything after it; a chunk without `=` is
/// dropped.
pub open spec fn pair_of(piece: Seq<char>) -> Option<(Seq<char>, Seq<char>)> {
    match find_first(piece, '=') {
        Some(i) => Some((piece.take(i), piece.skip(i + 1))),
        None => None,
    }
}

/// One step of collecting pairs: walk the chunks, appending the pair of
/// each chunk that has one.
pub open spec fn pairs_step(
    pieces: Seq<Seq<char>>,
    acc: Seq<(Seq<char>, Seq<char>)>,
) -> Seq<(Seq<char>, Seq<char>)>
    decreases pieces.len(),
{
    if pieces.len() == 0 {
        acc
    } else {
        pairs_step(
            pieces.drop_first(),
            match pair_of(pieces[0]) {
                Some(p) => acc.push(p),
                None => acc,
            },
        )
    }
}

/// The key/value pairs of a query string: `&`-separated chunks, each split
/// at its first `=`; chunks without `=` are dropped.
pub open spec fn query_pairs(q: Seq<char>) -> Seq<(Seq<char>, Seq<char>)> {
    pairs_step(split_nonempty(q, '&'), Seq::empty())
}

/// Parse a query string into its key/value pairs.
pub fn parse_query(q: &str) -> (ps: Vec<(String, String)>)
    ensures
        pair_views(ps@) == query_pairs(q@),
{
    let pieces = split_str(q, '&');
    let mut ps: Vec<(String, String)> = Vec::new();
    let mut k: usize = 0;
    proof {
        assert(views_of(pieces@).skip(0) =~= views_of(pieces@));
        assert(pair_views(ps@) =~= Seq::<(Seq<char>, Seq<char>)>::empty());
    }
    while k < pieces.len()
        invariant
            k <= pieces.len(),
            views_of(pieces@) == split_nonempty(q@, '&'),
            pairs_step(views_of(pieces@).skip(k as int), pair_views(ps@)) == query_pairs(q@),
        decreases pieces.len() - k,
    {
        let piece = &pieces[k];
        let ghost prev = pair_views(ps@);
        proof {
            assert(views_of(pieces@).skip(k as int)[0] == piece@);
            assert(views_of(pieces@).skip(k as int).drop_first() =~= views_of(pieces@).skip(
                k as int + 1,
            ));
        }
        match find_char(piece.as_str(), '=') {
            Some(i) => {
                proof {
                    lemma_find_first(piece@, '=');
                }
                let key = piece.substring_char(0, i).to_owned();
                let n = piece.unicode_len();
                let val = piece.substring_char(i + 1, n).to_owned();
                ps.push((key, val));
                proof {
                    assert(key@ =~= piece@.take(i as int));
                    assert(val@ =~= piece@.skip(i as int + 1));
                    assert(pair_views(ps@) =~= prev.push(
                        (piece@.take(i as int), piece@.skip(i as int + 1)),
                    ));
                }
            },
            None => {},
        }
        k = k + 1;
    }
    proof {
        assert(views_of(pieces@).skip(pieces@.len() as int) =~= Seq::<Seq<char>>::empty());
    }
    ps
}

/// Split a request target into its path part and its query part: everything
/// before the first `?`, and everything after it (empty when there is none).
pub fn split_target(target: &str) -> (r: (String, String))
    ensures
        match find_first(target@, '?') {
            Some(i) => r.0@ == target@.take(i) && r.1@ == target@.skip(i + 1),
            None => r.0@ == target@ && r.1@.len() == 0,
        },
{
    match find_char(target, '?') {
        Some(i) => {
            proof {
                lemma_find_first(target@, '?');
            }
            let n = target.unicode_len();
            let path = target.substring_char(0, i).to_owned();
            let query = target.substring_char(i + 1, n).to_owned();
            proof {
                assert(path@ =~= target@.take(i as int));
                assert(query@ =~= target@.skip(i as int + 1));
            }
            (path, query)
        },
        None => (target.to_owned(), String::new()),
    }
}

} // verus!
