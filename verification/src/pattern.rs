//! The segment model of route patterns.
//!
//! A pattern string is split on `/` (empty segments dropped); a segment
//! beginning with `:` names a captured parameter, a segment equal to `*` is
//! a wildcard, and any other segment matches exactly its literal text.  A
//! wildcard is only legal as the final segment of a pattern.

use vstd::prelude::*;
use vstd::string::StrSliceExecFns;

use crate::paths::{segments_of, split_str, views_of};

verus! {

/// One `/`-delimited unit of a route pattern.
#[derive(Clone, Debug)]
pub enum Segment {
    /// Matches exactly this literal text.
    Static { text: String },
    /// Matches any one segment, captured under this name.
    Param { name: String },
    /// Matches all remaining segments; legal only at the end of a pattern.
    Wildcard,
}

/// The mathematical reading of a [`Segment`].
#[verifier::ext_equal]
pub enum SegView {
    Static { text: Seq<char> },
    Param { name: Seq<char> },
    Wildcard,
}

impl View for Segment {
    type V = SegView;

    open spec fn view(&self) -> SegView {
        match self {
            Segment::Static { text } => SegView::Static { text: text@ },
            Segment::Param { name } => SegView::Param { name: name@ },
            Segment::Wildcard => SegView::Wildcard,
        }
    }
}

/// The views of a vector of segments.
pub open spec fn seg_views(v: Seq<Segment>) -> Seq<SegView> {
    v.map_values(|s: Segment| s@)
}

/// The reading of one segment text: `:name` captures a parameter, `*` is
/// the wildcard, anything else is literal.
pub open spec fn seg_of(text: Seq<char>) -> SegView {
    if text.len() > 0 && text[0] == ':' {
        SegView::Param { name: text.drop_first() }
    } else if text.len() == 1 && text[0] == '*' {
        SegView::Wildcard
    } else {
        SegView::Static { text }
    }
}

/// The readings of a sequence of segment texts.
pub open spec fn readings_of(texts: Seq<Seq<char>>) -> Seq<SegView> {
    texts.map_values(|t: Seq<char>| seg_of(t))
}

/// The pattern a path string denotes: the reading of each of its segments.
pub open spec fn pattern_of(s: Seq<char>) -> Seq<SegView> {
    readings_of(segments_of(s))
}

/// A pattern is well formed when no wildcard stands before its last
/// segment.
pub open spec fn pattern_ok(pat: Seq<SegView>) -> bool {
    forall|i: int| 0 <= i < pat.len() - 1 ==> !(#[trigger] pat[i] is Wildcard)
}

/// Parse a pattern string into its segments.
pub fn parse_pattern(pattern: &str) -> (segs: Vec<Segment>)
    ensures
        seg_views(segs@) == pattern_of(pattern@),
{
    let parts = split_str(pattern, '/');
    let mut segs: Vec<Segment> = Vec::new();
    let mut k: usize = 0;
    proof {
        assert(seg_views(segs@) =~= readings_of(views_of(parts@).take(0)));
    }
    while k < parts.len()
        invariant
            k <= parts.len(),
            views_of(parts@) == segments_of(pattern@),
            seg_views(segs@) == readings_of(views_of(parts@).take(k as int)),
        decreases parts.len() - k,
    {
        let part = &parts[k];
        let ghost prev = seg_views(segs@);
        let n = part.unicode_len();
        let seg = if n > 0 && part.get_char(0) == ':' {
            let name = part.substring_char(1, n).to_owned();
            proof {
                assert(name@ =~= part@.drop_first());
            }
            Segment::Param { name }
        } else if n == 1 && part.get_char(0) == '*' {
            Segment::Wildcard
        } else {
            Segment::Static { text: part.clone() }
        };
        let ghost segv = seg@;
        let ghost before = segs@;
        proof {
            assert(segv =~= seg_of(part@));
        }
        segs.push(seg);
        proof {
            let lhs = seg_views(segs@);
            let rhs = readings_of(views_of(parts@).take(k as int + 1));
            assert(seg_views(before).len() == before.len());
            assert(readings_of(views_of(parts@).take(k as int)).len() == k);
            assert(before.len() == k);
            assert(segs@.len() == before.len() + 1);
            assert(segs@[k as int]@ == segv);
            assert(lhs.len() == k + 1);
            assert(rhs.len() == k + 1);
            assert(lhs[k as int] == segv);
            assert(rhs[k as int] == seg_of(parts@[k as int]@));
            assert forall|i: int| 0 <= i < k implies lhs[i] == rhs[i] by {
                assert(lhs[i] == prev[i]);
                assert(prev[i] == seg_of(views_of(parts@).take(k as int)[i]));
            }
            assert(lhs =~= rhs);
        }
        k = k + 1;
    }
    proof {
        assert(views_of(parts@).take(parts@.len() as int) =~= views_of(parts@));
    }
    segs
}

/// Check that no wildcard stands before the last segment.
pub fn pattern_valid(segs: &Vec<Segment>) -> (ok: bool)
    ensures
        ok == pattern_ok(seg_views(segs@)),
{
    let mut k: usize = 0;
    let n = segs.len();
    while k < n
        invariant
            k <= n == segs@.len(),
            forall|i: int| 0 <= i < k && i < n - 1 ==> !(#[trigger] seg_views(segs@)[i]
                is Wildcard),
        decreases n - k,
    {
        if k + 1 < n {
            if let Segment::Wildcard = &segs[k] {
                assert(seg_views(segs@)[k as int] is Wildcard);
                return false;
            }
        }
        k = k + 1;
    }
    true
}

} // verus!
