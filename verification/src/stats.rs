//! Counting tracks, segments and points of a document.
//!
//! These totals are what the tool reports about a file; they are also
//! the quantities the merge operation preserves.

use vstd::prelude::*;

use crate::model::Document;
use crate::model::Segment;
use crate::model::Track;

verus! {

/// The number of segments over a run of tracks.
pub open spec fn segment_count(ts: Seq<Track>) -> int
    decreases ts.len(),
{
    if ts.len() == 0 {
        0
    } else {
        segment_count(ts.drop_last()) + ts.last().segments@.len()
    }
}

/// The number of points over a run of segments.
pub open spec fn points_in_segments(ss: Seq<Segment>) -> int
    decreases ss.len(),
{
    if ss.len() == 0 {
        0
    } else {
        points_in_segments(ss.drop_last()) + ss.last().points@.len()
    }
}

/// The number of points over a run of tracks.
pub open spec fn point_count(ts: Seq<Track>) -> int
    decreases ts.len(),
{
    if ts.len() == 0 {
        0
    } else {
        point_count(ts.drop_last()) + points_in_segments(ts.last().segments@)
    }
}

/// The number of segments over a run of documents.
pub open spec fn total_segment_count(docs: Seq<Document>) -> int
    decreases docs.len(),
{
    if docs.len() == 0 {
        0
    } else {
        total_segment_count(docs.drop_last()) + segment_count(docs.last().tracks@)
    }
}

/// A prefix never counts more segments than the whole run.
pub proof fn lemma_segment_count_prefix_le(ts: Seq<Track>, k: int)
    requires
        0 <= k <= ts.len(),
    ensures
        segment_count(ts.take(k)) <= segment_count(ts),
    decreases ts.len() - k,
{
    if k < ts.len() {
        assert(ts.take(k + 1).drop_last() =~= ts.take(k));
        assert(ts.take(k + 1).last() == ts[k]);
        lemma_segment_count_prefix_le(ts, k + 1);
    } else {
        assert(ts.take(k) =~= ts);
    }
}

/// A prefix never counts more points than the whole run of segments.
pub proof fn lemma_points_in_segments_prefix_le(ss: Seq<Segment>, k: int)
    requires
        0 <= k <= ss.len(),
    ensures
        points_in_segments(ss.take(k)) <= points_in_segments(ss),
    decreases ss.len() - k,
{
    if k < ss.len() {
        assert(ss.take(k + 1).drop_last() =~= ss.take(k));
        assert(ss.take(k + 1).last() == ss[k]);
        lemma_points_in_segments_prefix_le(ss, k + 1);
    } else {
        assert(ss.take(k) =~= ss);
    }
}

/// A prefix never counts more points than the whole run of tracks.
pub proof fn lemma_point_count_prefix_le(ts: Seq<Track>, k: int)
    requires
        0 <= k <= ts.len(),
    ensures
        point_count(ts.take(k)) <= point_count(ts),
    decreases ts.len() - k,
{
    if k < ts.len() {
        assert(ts.take(k + 1).drop_last() =~= ts.take(k));
        assert(ts.take(k + 1).last() == ts[k]);
        let ghost segs = ts[k].segments@;
        assert(points_in_segments(segs.take(segs.len() as int)) <= points_in_segments(segs)) by {
            lemma_points_in_segments_prefix_le(segs, segs.len() as int);
        }
        assert(points_in_segments(segs) >= 0) by {
            lemma_points_in_segments_nonneg(segs);
        }
        lemma_point_count_prefix_le(ts, k + 1);
    } else {
        assert(ts.take(k) =~= ts);
    }
}

/// Point totals are never negative.
pub proof fn lemma_points_in_segments_nonneg(ss: Seq<Segment>)
    ensures
        points_in_segments(ss) >= 0,
    decreases ss.len(),
{
    if ss.len() > 0 {
        lemma_points_in_segments_nonneg(ss.drop_last());
    }
}

/// Count the tracks, segments and points of a document.  The result is
/// absent exactly when one of the totals does not fit in `usize`.
#[verifier::loop_isolation(false)]
pub fn document_stats(doc: &Document) -> (r: Option<(usize, usize, usize)>)
    ensures
        r is Some <==> (segment_count(doc.tracks@) <= usize::MAX && point_count(doc.tracks@)
            <= usize::MAX),
        r matches Some(t) ==> {
            &&& t.0 == doc.tracks@.len()
            &&& t.1 == segment_count(doc.tracks@)
            &&& t.2 == point_count(doc.tracks@)
        },
{
    let track_count = doc.tracks.len();
    let mut seg_total: usize = 0;
    let mut pt_total: usize = 0;
    let mut i: usize = 0;
    proof {
        assert(doc.tracks@.take(0) =~= Seq::<Track>::empty());
    }
    while i < track_count
        invariant
            i <= doc.tracks@.len(),
            seg_total == segment_count(doc.tracks@.take(i as int)),
            pt_total == point_count(doc.tracks@.take(i as int)),
        decreases track_count - i,
    {
        let t = &doc.tracks[i];
        proof {
            assert(doc.tracks@.take(i as int + 1).drop_last() =~= doc.tracks@.take(i as int));
            assert(doc.tracks@.take(i as int + 1).last() == doc.tracks@[i as int]);
            lemma_segment_count_prefix_le(doc.tracks@, i as int + 1);
            lemma_point_count_prefix_le(doc.tracks@, i as int + 1);
            lemma_points_in_segments_nonneg(t.segments@);
        }
        seg_total = match seg_total.checked_add(t.segments.len()) {
            Some(s) => s,
            None => {
                return None;
            },
        };
        let mut j: usize = 0;
        let mut track_points: usize = 0;
        proof {
            assert(t.segments@.take(0) =~= Seq::<Segment>::empty());
        }
        while j < t.segments.len()
            invariant
                j <= t.segments@.len(),
                track_points == points_in_segments(t.segments@.take(j as int)),
            decreases t.segments@.len() - j,
        {
            proof {
                assert(t.segments@.take(j as int + 1).drop_last() =~= t.segments@.take(j as int));
                assert(t.segments@.take(j as int + 1).last() == t.segments@[j as int]);
                lemma_points_in_segments_prefix_le(t.segments@, j as int + 1);
            }
            track_points = match track_points.checked_add(t.segments[j].points.len()) {
                Some(s) => s,
                None => {
                    proof {
                        assert(points_in_segments(t.segments@) > usize::MAX);
                        assert(point_count(doc.tracks@.take(i as int + 1)) > usize::MAX);
                    }
                    return None;
                },
            };
            j = j + 1;
        }
        proof {
            assert(t.segments@.take(t.segments@.len() as int) =~= t.segments@);
        }
        pt_total = match pt_total.checked_add(track_points) {
            Some(s) => s,
            None => {
                proof {
                    assert(point_count(doc.tracks@.take(i as int + 1)) > usize::MAX);
                }
                return None;
            },
        };
        i = i + 1;
    }
    proof {
        assert(doc.tracks@.take(doc.tracks@.len() as int) =~= doc.tracks@);
    }
    Some((track_count, seg_total, pt_total))
}

} // verus!
