//! The document transform engine.
//!
//! Each operation is a pure function from documents to a document.  The
//! contracts speak of the geometry view defined in [`crate::model`]: the
//! points of a document, grouped by segment and by track.

use vstd::prelude::*;
use vstd::arithmetic::div_mod::lemma_basic_div;
use vstd::arithmetic::div_mod::lemma_fundamental_div_mod;
use vstd::arithmetic::div_mod::lemma_fundamental_div_mod_converse_div;
use vstd::arithmetic::div_mod::lemma_fundamental_div_mod_converse_mod;
use vstd::arithmetic::div_mod::lemma_mod_bound;
use vstd::arithmetic::div_mod::lemma_small_mod;

use crate::Action;
use crate::get_creator;
use crate::model::Document;
use crate::model::Segment;
use crate::model::Track;
use crate::model::Version;
use crate::model::doc_geometry;
use crate::model::segs_geometry;
use crate::model::track_geometry;
use crate::paths::action_label;
use crate::paths::spec_action_label;
use crate::validate::ToolError;
use crate::spec_creator;
use crate::stats::segment_count;
use crate::stats::total_segment_count;

verus! {

/// The geometry of one track after inversion: segments in reverse order,
/// each segment's points reversed.
pub open spec fn invert_track_geometry(t: Seq<Seq<gpx::Waypoint>>) -> Seq<Seq<gpx::Waypoint>> {
    t.reverse().map_values(|s: Seq<gpx::Waypoint>| s.reverse())
}

/// The geometry of a document after inversion: tracks in reverse order,
/// each track inverted.
pub open spec fn invert_geometry(g: Seq<Seq<Seq<gpx::Waypoint>>>) -> Seq<Seq<Seq<gpx::Waypoint>>> {
    g.reverse().map_values(|t: Seq<Seq<gpx::Waypoint>>| invert_track_geometry(t))
}

/// Reversing a sequence twice gives the sequence back.
pub proof fn lemma_reverse_involutive<A>(s: Seq<A>)
    ensures
        s.reverse().reverse() == s,
{
    assert(s.reverse().reverse() =~= s);
}

/// Inverting a track's geometry twice gives the geometry back.
pub proof fn lemma_invert_track_geometry_involutive(t: Seq<Seq<gpx::Waypoint>>)
    ensures
        invert_track_geometry(invert_track_geometry(t)) == t,
{
    let u = invert_track_geometry(t);
    assert(u.len() == t.len());
    assert forall|j: int| 0 <= j < t.len() implies invert_track_geometry(u)[j] == t[j] by {
        lemma_reverse_involutive(t[j]);
    }
    assert(invert_track_geometry(u) =~= t);
}

/// Inverting a document twice reconstructs the original point, segment
/// and track order.
pub proof fn lemma_invert_geometry_involutive(g: Seq<Seq<Seq<gpx::Waypoint>>>)
    ensures
        invert_geometry(invert_geometry(g)) == g,
{
    let h = invert_geometry(g);
    assert(h.len() == g.len());
    assert forall|i: int| 0 <= i < g.len() implies invert_geometry(h)[i] == g[i] by {
        lemma_invert_track_geometry_involutive(g[i]);
    }
    assert(invert_geometry(h) =~= g);
}

/// Inverting a document twice reconstructs the original geometry: when
/// `d1` is the inversion of `d0` and `d2` the inversion of `d1`, as
/// [`invert_document`] guarantees of its result, `d2` carries the points
/// of `d0` in their original segment and track order.  Only the name
/// suffix and the creator keep the marks of the two passes.
pub proof fn lemma_double_invert_restores_geometry(d0: Document, d1: Document, d2: Document)
    requires
        doc_geometry(d1) == invert_geometry(doc_geometry(d0)),
        doc_geometry(d2) == invert_geometry(doc_geometry(d1)),
    ensures
        doc_geometry(d2) == doc_geometry(d0),
{
    lemma_invert_geometry_involutive(doc_geometry(d0));
}

/// How a track's name changes when a transform labels it: a present name
/// gains the parenthesised label; an absent name stays absent.
pub open spec fn name_labelled(before: Option<String>, after: Option<String>, label: Seq<char>) -> bool {
    match (before, after) {
        (Option::None, Option::None) => true,
        (Option::Some(n), Option::Some(m)) => m@ == n@ + " ("@ + label + ")"@,
        _ => false,
    }
}

/// Append the parenthesised label to a present name.
fn label_name(name: Option<String>, label: &String) -> (r: Option<String>)
    ensures
        name_labelled(name, r, label@),
{
    match name {
        None => None,
        Some(n) => Some(n.concat(" (").concat(label.as_str()).concat(")")),
    }
}

/// How one track relates to its inversion: geometry inverted, name
/// labelled, every other field carried through.
pub open spec fn track_inverted(before: Track, after: Track, label: Seq<char>) -> bool {
    &&& name_labelled(before.name, after.name, label)
    &&& after.comment == before.comment
    &&& after.description == before.description
    &&& after.source == before.source
    &&& after.links@ == before.links@
    &&& after.type_ == before.type_
    &&& after.number == before.number
    &&& track_geometry(after) == invert_track_geometry(track_geometry(before))
}

/// Reverse the order of the points of one segment.
#[verifier::loop_isolation(false)]
fn reverse_segment(s: Segment) -> (r: Segment)
    ensures
        r.points@ == s.points@.reverse(),
{
    let mut pts = s.points;
    let ghost orig = pts@;
    let mut out: Vec<gpx::Waypoint> = Vec::new();
    proof {
        assert(pts@ =~= orig.take(pts@.len() as int));
        assert(out@ =~= orig.skip(orig.len() as int).reverse());
    }
    while pts.len() > 0
        invariant
            pts@.len() <= orig.len(),
            pts@ == orig.take(pts@.len() as int),
            out@ == orig.skip(pts@.len() as int).reverse(),
        decreases pts.len(),
    {
        let ghost m = pts@.len() as int;
        let x = pts.pop().unwrap();
        out.push(x);
        proof {
            assert(x == orig[m - 1]);
            assert(pts@ =~= orig.take(m - 1));
            assert(out@ =~= orig.skip(m - 1).reverse());
        }
    }
    proof {
        assert(orig.skip(0) =~= orig);
    }
    Segment { points: out }
}

/// Invert one track: reverse its segments and each segment's points,
/// and label its name.
#[verifier::loop_isolation(false)]
fn invert_track(t: Track, label: &String) -> (r: Track)
    ensures
        track_inverted(t, r, label@),
{
    let Track { name, comment, description, source, links, type_, number, segments } = t;
    let new_name = label_name(name, label);
    let mut src = segments;
    let ghost orig = src@;
    let mut out: Vec<Segment> = Vec::new();
    proof {
        assert(src@ =~= orig.take(src@.len() as int));
    }
    while src.len() > 0
        invariant
            src@.len() <= orig.len(),
            src@ == orig.take(src@.len() as int),
            out@.len() == orig.len() - src@.len(),
            forall|i: int|
                0 <= i < out@.len() ==> (#[trigger] out@[i]).points@ == orig[orig.len() - 1
                    - i].points@.reverse(),
        decreases src.len(),
    {
        let ghost m = src@.len() as int;
        let s = src.pop().unwrap();
        proof {
            assert(s == orig[m - 1]);
            assert(src@ =~= orig.take(m - 1));
        }
        let rs = reverse_segment(s);
        out.push(rs);
    }
    let r = Track { name: new_name, comment, description, source, links, type_, number, segments: out };
    proof {
        assert(track_geometry(r) =~= invert_track_geometry(track_geometry(t)));
    }
    r
}

/// How a document relates to its inversion: the tracks stand in reverse
/// order, each inverted and labelled `inverted`; the creator becomes this
/// tool; version, metadata, waypoints and routes carry through.
pub open spec fn doc_inverted(before: Document, after: Document) -> bool {
    &&& after.version == before.version
    &&& after.creator matches Some(c) && c@ == spec_creator()
    &&& after.metadata == before.metadata
    &&& after.waypoints@ == before.waypoints@
    &&& after.routes@ == before.routes@
    &&& after.tracks@.len() == before.tracks@.len()
    &&& forall|i: int|
        0 <= i < after.tracks@.len() ==> track_inverted(
            before.tracks@[before.tracks@.len() - 1 - i],
            #[trigger] after.tracks@[i],
            "inverted"@,
        )
}

/// Invert a document: reverse the order of its tracks, of each track's
/// segments, and of each segment's points; label each named track; set
/// the creator to this tool.
#[verifier::loop_isolation(false)]
pub fn invert_document(doc: Document) -> (r: Document)
    ensures
        doc_inverted(doc, r),
        doc_geometry(r) == invert_geometry(doc_geometry(doc)),
{
    let label = action_label(&Action::Invert);
    let Document { version, creator: _, metadata, waypoints, tracks, routes } = doc;
    let mut src = tracks;
    let ghost orig = src@;
    let mut out: Vec<Track> = Vec::new();
    proof {
        assert(src@ =~= orig.take(src@.len() as int));
    }
    while src.len() > 0
        invariant
            src@.len() <= orig.len(),
            src@ == orig.take(src@.len() as int),
            out@.len() == orig.len() - src@.len(),
            forall|i: int|
                0 <= i < out@.len() ==> track_inverted(
                    orig[orig.len() - 1 - i],
                    #[trigger] out@[i],
                    "inverted"@,
                ),
        decreases src.len(),
    {
        let ghost m = src@.len() as int;
        let t = src.pop().unwrap();
        proof {
            assert(t == orig[m - 1]);
            assert(src@ =~= orig.take(m - 1));
        }
        let it = invert_track(t, &label);
        out.push(it);
    }
    let r = Document {
        version,
        creator: Some(get_creator()),
        metadata,
        waypoints,
        tracks: out,
        routes,
    };
    proof {
        assert(doc_geometry(r) =~= invert_geometry(doc_geometry(doc)));
    }
    r
}


/// The segments of all tracks of a run of tracks, flattened in order.
pub open spec fn tracks_segments(ts: Seq<Track>) -> Seq<Seq<gpx::Waypoint>> {
    ts.map_values(|t: Track| track_geometry(t)).flatten()
}

/// The segments of all tracks of one document, flattened in order.
pub open spec fn doc_segments(d: Document) -> Seq<Seq<gpx::Waypoint>> {
    tracks_segments(d.tracks@)
}

/// The segments of a run of documents, flattened in input order.
pub open spec fn merged_segments(docs: Seq<Document>) -> Seq<Seq<gpx::Waypoint>> {
    docs.map_values(|d: Document| doc_segments(d)).flatten()
}

/// Move every segment of `from` onto the end of `segs`, keeping order.
#[verifier::loop_isolation(false)]
fn append_segments(segs: &mut Vec<Segment>, from: Vec<Segment>)
    ensures
        segs_geometry(final(segs)@) == segs_geometry(old(segs)@) + segs_geometry(from@),
{
    let mut src = from;
    let ghost orig = src@;
    let ghost base = segs_geometry(segs@);
    proof {
        assert(src@ =~= orig.skip(0));
        assert(segs_geometry(segs@) =~= base + segs_geometry(orig.take(0)));
    }
    while src.len() > 0
        invariant
            src@.len() <= orig.len(),
            src@ == orig.skip(orig.len() - src@.len()),
            segs_geometry(segs@) == base + segs_geometry(orig.take(orig.len() - src@.len())),
        decreases src.len(),
    {
        let ghost k = orig.len() - src@.len();
        let x = src.remove(0);
        proof {
            assert(x == orig[k]);
            assert(src@ =~= orig.skip(k + 1));
        }
        let ghost before = segs@;
        segs.push(x);
        proof {
            assert(segs_geometry(before.push(x)) =~= segs_geometry(before).push(x.points@));
            assert(orig.take(k + 1) =~= orig.take(k).push(orig[k]));
            assert(segs_geometry(orig.take(k).push(orig[k])) =~= segs_geometry(
                orig.take(k),
            ).push(orig[k].points@));
            assert(segs_geometry(segs@) =~= base + segs_geometry(orig.take(k + 1)));
        }
    }
    proof {
        assert(orig.take(orig.len() as int) =~= orig);
    }
}

/// Move every segment of every track of `tracks` onto the end of `segs`,
/// keeping order.
#[verifier::loop_isolation(false)]
fn append_track_segments(segs: &mut Vec<Segment>, tracks: Vec<Track>)
    ensures
        segs_geometry(final(segs)@) == segs_geometry(old(segs)@) + tracks_segments(tracks@),
{
    let mut src = tracks;
    let ghost orig = src@;
    let ghost base = segs_geometry(segs@);
    proof {
        assert(src@ =~= orig.skip(0));
        assert(orig.take(0).map_values(|t: Track| track_geometry(t)) =~= Seq::<
            Seq<Seq<gpx::Waypoint>>,
        >::empty());
        assert(segs_geometry(segs@) =~= base + tracks_segments(orig.take(0)));
    }
    while src.len() > 0
        invariant
            src@.len() <= orig.len(),
            src@ == orig.skip(orig.len() - src@.len()),
            segs_geometry(segs@) == base + tracks_segments(orig.take(orig.len() - src@.len())),
        decreases src.len(),
    {
        let ghost k = orig.len() - src@.len();
        let t = src.remove(0);
        proof {
            assert(t == orig[k]);
            assert(src@ =~= orig.skip(k + 1));
        }
        let Track {
            name: _,
            comment: _,
            description: _,
            source: _,
            links: _,
            type_: _,
            number: _,
            segments,
        } = t;
        append_segments(segs, segments);
        proof {
            let tg = |t: Track| track_geometry(t);
            assert(orig.take(k + 1) =~= orig.take(k).push(orig[k]));
            assert(orig.take(k + 1).map_values(tg) =~= orig.take(k).map_values(tg).push(
                track_geometry(orig[k]),
            ));
            orig.take(k).map_values(tg).lemma_flatten_push(track_geometry(orig[k]));
            assert(segs_geometry(segs@) =~= base + tracks_segments(orig.take(k + 1)));
        }
    }
    proof {
        assert(orig.take(orig.len() as int) =~= orig);
    }
}

/// How a run of documents relates to their merge: one synthetic track
/// holding the concatenated segments of every input, in input order;
/// fixed version; creator set to this tool; everything else dropped.
pub open spec fn doc_merged(docs: Seq<Document>, after: Document) -> bool {
    &&& after.version == Version::Gpx11
    &&& after.creator matches Some(c) && c@ == spec_creator()
    &&& after.metadata is None
    &&& after.waypoints@.len() == 0
    &&& after.routes@.len() == 0
    &&& after.tracks@.len() == 1
    &&& after.tracks@[0].name is None
    &&& after.tracks@[0].comment is None
    &&& after.tracks@[0].description is None
    &&& after.tracks@[0].source is None
    &&& after.tracks@[0].links@.len() == 0
    &&& after.tracks@[0].type_ is None
    &&& after.tracks@[0].number is None
    &&& track_geometry(after.tracks@[0]) == merged_segments(docs)
}

/// Merge documents: concatenate, in input order, the segments of every
/// track of every input into a single synthetic track.  Waypoints,
/// routes and per-track metadata are dropped; the result carries a fixed
/// version and this tool as creator.
#[verifier::loop_isolation(false)]
pub fn merge_documents(docs: Vec<Document>) -> (r: Document)
    ensures
        doc_merged(docs@, r),
{
    let mut rest = docs;
    let ghost all = rest@;
    let mut segs: Vec<Segment> = Vec::new();
    proof {
        assert(rest@ =~= all.skip(0));
        assert(all.take(0).map_values(|d: Document| doc_segments(d)) =~= Seq::<
            Seq<Seq<gpx::Waypoint>>,
        >::empty());
        assert(segs_geometry(segs@) =~= merged_segments(all.take(0)));
    }
    while rest.len() > 0
        invariant
            rest@.len() <= all.len(),
            rest@ == all.skip(all.len() - rest@.len()),
            segs_geometry(segs@) == merged_segments(all.take(all.len() - rest@.len())),
        decreases rest.len(),
    {
        let ghost k = all.len() - rest@.len();
        let d = rest.remove(0);
        proof {
            assert(d == all[k]);
            assert(rest@ =~= all.skip(k + 1));
        }
        let Document {
            version: _,
            creator: _,
            metadata: _,
            waypoints: _,
            tracks,
            routes: _,
        } = d;
        append_track_segments(&mut segs, tracks);
        proof {
            let ds = |d: Document| doc_segments(d);
            assert(all.take(k + 1) =~= all.take(k).push(all[k]));
            assert(all.take(k + 1).map_values(ds) =~= all.take(k).map_values(ds).push(
                doc_segments(all[k]),
            ));
            all.take(k).map_values(ds).lemma_flatten_push(doc_segments(all[k]));
            assert(segs_geometry(segs@) =~= merged_segments(all.take(k + 1)));
        }
    }
    proof {
        assert(all.take(all.len() as int) =~= all);
    }
    let track = Track {
        name: None,
        comment: None,
        description: None,
        source: None,
        links: Vec::new(),
        type_: None,
        number: None,
        segments: segs,
    };
    let mut tracks_out: Vec<Track> = Vec::new();
    tracks_out.push(track);
    Document {
        version: Version::Gpx11,
        creator: Some(get_creator()),
        metadata: None,
        waypoints: Vec::new(),
        tracks: tracks_out,
        routes: Vec::new(),
    }
}


/// Whether decimation by `factor` keeps the point at index `i` of a
/// segment of `len` points: every `factor`-th point, and always the
/// final one.
pub open spec fn keep_index(i: int, factor: int, len: int) -> bool {
    i % factor == 0 || i == len - 1
}

/// The points kept, among the first `n` of a segment, when decimating by
/// `factor`.
pub open spec fn decimated_prefix(ps: Seq<gpx::Waypoint>, factor: int, n: int) -> Seq<
    gpx::Waypoint,
>
    decreases n,
{
    if n <= 0 {
        Seq::empty()
    } else if keep_index(n - 1, factor, ps.len() as int) {
        decimated_prefix(ps, factor, n - 1).push(ps[n - 1])
    } else {
        decimated_prefix(ps, factor, n - 1)
    }
}

/// The points of a segment decimated by `factor`.
pub open spec fn decimated(ps: Seq<gpx::Waypoint>, factor: int) -> Seq<gpx::Waypoint> {
    decimated_prefix(ps, factor, ps.len() as int)
}

/// Keep every `factor`-th point of one segment, and its final point.
#[verifier::loop_isolation(false)]
fn decimate_segment(s: Segment, factor: u16) -> (r: Segment)
    requires
        factor >= 1,
    ensures
        r.points@ == decimated(s.points@, factor as int),
{
    let mut pts = s.points;
    let ghost orig = pts@;
    let n = pts.len();
    let mut out: Vec<gpx::Waypoint> = Vec::new();
    let mut i: usize = 0;
    proof {
        assert(pts@ =~= orig.skip(0));
    }
    while i < n
        invariant
            i <= n,
            pts@ == orig.skip(i as int),
            out@ == decimated_prefix(orig, factor as int, i as int),
        decreases n - i,
    {
        let x = pts.remove(0);
        proof {
            assert(x == orig[i as int]);
            assert(pts@ =~= orig.skip(i as int + 1));
        }
        if i % (factor as usize) == 0 || i == n - 1 {
            proof {
                assert(keep_index(i as int, factor as int, orig.len() as int));
            }
            out.push(x);
        } else {
            proof {
                assert(!keep_index(i as int, factor as int, orig.len() as int));
            }
        }
        i = i + 1;
    }
    Segment { points: out }
}

/// How one track relates to its decimation: every segment decimated by
/// the factor, name labelled, every other field carried through.
pub open spec fn track_decimated(before: Track, after: Track, factor: int, label: Seq<char>) -> bool {
    &&& name_labelled(before.name, after.name, label)
    &&& after.comment == before.comment
    &&& after.description == before.description
    &&& after.source == before.source
    &&& after.links@ == before.links@
    &&& after.type_ == before.type_
    &&& after.number == before.number
    &&& after.segments@.len() == before.segments@.len()
    &&& forall|j: int|
        0 <= j < after.segments@.len() ==> (#[trigger] after.segments@[j]).points@ == decimated(
            before.segments@[j].points@,
            factor,
        )
}

/// Decimate every segment of one track, and label its name.
#[verifier::loop_isolation(false)]
fn decimate_track(t: Track, factor: u16, label: &String) -> (r: Track)
    requires
        factor >= 1,
    ensures
        track_decimated(t, r, factor as int, label@),
{
    let Track { name, comment, description, source, links, type_, number, segments } = t;
    let new_name = label_name(name, label);
    let mut src = segments;
    let ghost orig = src@;
    let mut out: Vec<Segment> = Vec::new();
    proof {
        assert(src@ =~= orig.skip(0));
    }
    while src.len() > 0
        invariant
            src@.len() <= orig.len(),
            src@ == orig.skip(orig.len() - src@.len()),
            out@.len() == orig.len() - src@.len(),
            forall|j: int|
                0 <= j < out@.len() ==> (#[trigger] out@[j]).points@ == decimated(
                    orig[j].points@,
                    factor as int,
                ),
        decreases src.len(),
    {
        let ghost k = orig.len() - src@.len();
        let s = src.remove(0);
        proof {
            assert(s == orig[k]);
            assert(src@ =~= orig.skip(k + 1));
        }
        let ds = decimate_segment(s, factor);
        out.push(ds);
    }
    Track { name: new_name, comment, description, source, links, type_, number, segments: out }
}

/// How a document relates to its decimation: every track decimated in
/// place and labelled with the factor; the creator becomes this tool;
/// version, metadata, waypoints and routes carry through.
pub open spec fn doc_decimated(before: Document, after: Document, factor: u16) -> bool {
    &&& after.version == before.version
    &&& after.creator matches Some(c) && c@ == spec_creator()
    &&& after.metadata == before.metadata
    &&& after.waypoints@ == before.waypoints@
    &&& after.routes@ == before.routes@
    &&& after.tracks@.len() == before.tracks@.len()
    &&& forall|i: int|
        0 <= i < after.tracks@.len() ==> track_decimated(
            before.tracks@[i],
            #[trigger] after.tracks@[i],
            factor as int,
            spec_action_label(Action::Decimate(factor)),
        )
}

/// Decimate a document: in every segment of every track keep each point
/// whose index is a multiple of `factor`, and always the segment's final
/// point; label named tracks with the factor; set the creator to this
/// tool.  A factor below one is rejected.
#[verifier::loop_isolation(false)]
pub fn decimate_document(doc: Document, factor: u16) -> (r: Result<Document, ToolError>)
    ensures
        factor == 0 ==> r == Err::<Document, ToolError>(ToolError::InvalidFactor),
        factor >= 1 ==> (r matches Ok(out) && doc_decimated(doc, out, factor)),
{
    if factor == 0 {
        return Err(ToolError::InvalidFactor);
    }
    let label = action_label(&Action::Decimate(factor));
    let Document { version, creator: _, metadata, waypoints, tracks, routes } = doc;
    let mut src = tracks;
    let ghost orig = src@;
    let mut out: Vec<Track> = Vec::new();
    proof {
        assert(src@ =~= orig.skip(0));
    }
    while src.len() > 0
        invariant
            src@.len() <= orig.len(),
            src@ == orig.skip(orig.len() - src@.len()),
            out@.len() == orig.len() - src@.len(),
            forall|i: int|
                0 <= i < out@.len() ==> track_decimated(
                    orig[i],
                    #[trigger] out@[i],
                    factor as int,
                    spec_action_label(Action::Decimate(factor)),
                ),
        decreases src.len(),
    {
        let ghost k = orig.len() - src@.len();
        let t = src.remove(0);
        proof {
            assert(t == orig[k]);
            assert(src@ =~= orig.skip(k + 1));
        }
        let dt = decimate_track(t, factor, &label);
        out.push(dt);
    }
    Ok(
        Document {
            version,
            creator: Some(get_creator()),
            metadata,
            waypoints,
            tracks: out,
            routes,
        },
    )
}


/// The flattened segments of a run of tracks are as many as the tracks'
/// segment counts say.
pub proof fn lemma_tracks_segments_len(ts: Seq<Track>)
    ensures
        tracks_segments(ts).len() == segment_count(ts),
    decreases ts.len(),
{
    let tg = |t: Track| track_geometry(t);
    if ts.len() == 0 {
        assert(ts.map_values(tg) =~= Seq::<Seq<Seq<gpx::Waypoint>>>::empty());
    } else {
        lemma_tracks_segments_len(ts.drop_last());
        assert(ts =~= ts.drop_last().push(ts.last()));
        assert(ts.map_values(tg) =~= ts.drop_last().map_values(tg).push(
            track_geometry(ts.last()),
        ));
        ts.drop_last().map_values(tg).lemma_flatten_push(track_geometry(ts.last()));
    }
}

/// Merging preserves the total segment count: the single merged track
/// holds exactly as many segments as all the input documents together.
pub proof fn lemma_merge_preserves_segment_count(docs: Seq<Document>)
    ensures
        merged_segments(docs).len() == total_segment_count(docs),
    decreases docs.len(),
{
    let ds = |d: Document| doc_segments(d);
    if docs.len() == 0 {
        assert(docs.map_values(ds) =~= Seq::<Seq<Seq<gpx::Waypoint>>>::empty());
    } else {
        lemma_merge_preserves_segment_count(docs.drop_last());
        lemma_tracks_segments_len(docs.last().tracks@);
        assert(docs =~= docs.drop_last().push(docs.last()));
        assert(docs.map_values(ds) =~= docs.drop_last().map_values(ds).push(
            doc_segments(docs.last()),
        ));
        docs.drop_last().map_values(ds).lemma_flatten_push(doc_segments(docs.last()));
    }
}

/// Decimation never keeps more points than the segment had: among the
/// first `n` indices at most `n` are kept.
pub proof fn lemma_decimated_prefix_len(ps: Seq<gpx::Waypoint>, factor: int, n: int)
    requires
        0 <= n,
    ensures
        decimated_prefix(ps, factor, n).len() <= n,
    decreases n,
{
    if n > 0 {
        lemma_decimated_prefix_len(ps, factor, n - 1);
    }
}

/// A non-empty decimated segment starts with the original first point.
pub proof fn lemma_decimated_prefix_first(ps: Seq<gpx::Waypoint>, factor: int, n: int)
    requires
        factor >= 1,
        1 <= n <= ps.len(),
    ensures
        decimated_prefix(ps, factor, n).len() >= 1,
        decimated_prefix(ps, factor, n)[0] == ps[0],
    decreases n,
{
    if n == 1 {
        assert(keep_index(0, factor, ps.len() as int));
        assert(decimated_prefix(ps, factor, 0) =~= Seq::<gpx::Waypoint>::empty());
        assert(decimated_prefix(ps, factor, 1) =~= Seq::<gpx::Waypoint>::empty().push(ps[0]));
    } else {
        lemma_decimated_prefix_first(ps, factor, n - 1);
    }
}

/// A decimated segment is never longer than its original, and when the
/// original is non-empty it keeps both endpoints.
pub proof fn lemma_decimated_endpoints(ps: Seq<gpx::Waypoint>, factor: int)
    requires
        factor >= 1,
    ensures
        decimated(ps, factor).len() <= ps.len(),
        ps.len() > 0 ==> decimated(ps, factor).len() >= 1,
        ps.len() > 0 ==> decimated(ps, factor)[0] == ps[0],
        ps.len() > 0 ==> decimated(ps, factor).last() == ps.last(),
{
    lemma_decimated_prefix_len(ps, factor, ps.len() as int);
    if ps.len() > 0 {
        lemma_decimated_prefix_first(ps, factor, ps.len() as int);
        assert(keep_index(ps.len() - 1, factor, ps.len() as int));
    }
}

/// Decimating by factor one keeps every point: the point sequence is
/// unchanged.
pub proof fn lemma_decimate_factor_one_prefix(ps: Seq<gpx::Waypoint>, n: int)
    requires
        0 <= n <= ps.len(),
    ensures
        decimated_prefix(ps, 1, n) == ps.take(n),
    decreases n,
{
    if n == 0 {
        assert(decimated_prefix(ps, 1, 0) =~= ps.take(0));
    } else {
        lemma_decimate_factor_one_prefix(ps, n - 1);
        assert(keep_index(n - 1, 1, ps.len() as int));
        assert(ps.take(n) =~= ps.take(n - 1).push(ps[n - 1]));
    }
}

/// Decimating by factor one is the identity on point sequences.
pub proof fn lemma_decimate_factor_one(ps: Seq<gpx::Waypoint>)
    ensures
        decimated(ps, 1) == ps,
{
    lemma_decimate_factor_one_prefix(ps, ps.len() as int);
    assert(ps.take(ps.len() as int) =~= ps);
}

/// `a` is a subsequence of `b`: the values of `a` occur in `b` in the
/// same order.
pub open spec fn is_subsequence<A>(a: Seq<A>, b: Seq<A>) -> bool
    decreases b.len(),
{
    if a.len() == 0 {
        true
    } else if b.len() == 0 {
        false
    } else {
        (a[0] == b[0] && is_subsequence(a.drop_first(), b.drop_first())) || is_subsequence(
            a,
            b.drop_first(),
        )
    }
}

/// A subsequence stays one when the longer sequence grows at the end.
pub proof fn lemma_subsequence_push_right<A>(a: Seq<A>, b: Seq<A>, x: A)
    requires
        is_subsequence(a, b),
    ensures
        is_subsequence(a, b.push(x)),
    decreases b.len(),
{
    if a.len() > 0 && b.len() > 0 {
        assert(b.push(x).drop_first() =~= b.drop_first().push(x));
        if a[0] == b[0] && is_subsequence(a.drop_first(), b.drop_first()) {
            lemma_subsequence_push_right(a.drop_first(), b.drop_first(), x);
        } else {
            lemma_subsequence_push_right(a, b.drop_first(), x);
        }
    }
}

/// A one-element sequence holding `x` is a subsequence of anything that
/// ends in `x`.
pub proof fn lemma_subsequence_singleton<A>(b: Seq<A>, x: A)
    ensures
        is_subsequence(seq![x], b.push(x)),
    decreases b.len(),
{
    if b.len() == 0 {
        assert(b.push(x)[0] == x);
        assert(seq![x].drop_first() =~= Seq::<A>::empty());
        assert(b.push(x).drop_first() =~= Seq::<A>::empty());
        assert(is_subsequence(seq![x].drop_first(), b.push(x).drop_first()));
    } else {
        lemma_subsequence_singleton(b.drop_first(), x);
        assert(b.push(x).drop_first() =~= b.drop_first().push(x));
        assert(is_subsequence(seq![x], b.push(x).drop_first()));
    }
}

/// Extending a subsequence and its longer sequence by the same value
/// keeps the relation.
pub proof fn lemma_subsequence_push_both<A>(a: Seq<A>, b: Seq<A>, x: A)
    requires
        is_subsequence(a, b),
    ensures
        is_subsequence(a.push(x), b.push(x)),
    decreases b.len(),
{
    if a.len() == 0 {
        lemma_subsequence_singleton(b, x);
        assert(a.push(x) =~= seq![x]);
    } else if b.len() > 0 {
        assert(a.push(x).drop_first() =~= a.drop_first().push(x));
        assert(b.push(x).drop_first() =~= b.drop_first().push(x));
        if a[0] == b[0] && is_subsequence(a.drop_first(), b.drop_first()) {
            lemma_subsequence_push_both(a.drop_first(), b.drop_first(), x);
        } else {
            lemma_subsequence_push_both(a, b.drop_first(), x);
        }
    }
}

/// What decimation keeps among the first `n` indices is a subsequence of
/// those first `n` points.
pub proof fn lemma_decimated_prefix_subsequence(ps: Seq<gpx::Waypoint>, factor: int, n: int)
    requires
        0 <= n <= ps.len(),
    ensures
        is_subsequence(decimated_prefix(ps, factor, n), ps.take(n)),
    decreases n,
{
    if n == 0 {
        assert(ps.take(0) =~= Seq::<gpx::Waypoint>::empty());
    } else {
        lemma_decimated_prefix_subsequence(ps, factor, n - 1);
        assert(ps.take(n) =~= ps.take(n - 1).push(ps[n - 1]));
        if keep_index(n - 1, factor, ps.len() as int) {
            lemma_subsequence_push_both(decimated_prefix(ps, factor, n - 1), ps.take(n - 1), ps[n - 1]);
        } else {
            lemma_subsequence_push_right(decimated_prefix(ps, factor, n - 1), ps.take(n - 1), ps[n - 1]);
        }
    }
}

/// A decimated segment is a subsequence of the original segment.
pub proof fn lemma_decimated_subsequence(ps: Seq<gpx::Waypoint>, factor: int)
    ensures
        is_subsequence(decimated(ps, factor), ps),
{
    lemma_decimated_prefix_subsequence(ps, factor, ps.len() as int);
    assert(ps.take(ps.len() as int) =~= ps);
}


/// Stepping the bound up by one raises the quotient exactly when the new
/// index sits on the factor grid.
proof fn lemma_div_step(m: int, f: int)
    requires
        f >= 1,
        m >= 1,
    ensures
        m % f == 0 ==> m / f == (m - 1) / f + 1,
        m % f != 0 ==> m / f == (m - 1) / f,
{
    lemma_fundamental_div_mod(m - 1, f);
    lemma_mod_bound(m - 1, f);
    let q = (m - 1) / f;
    let r = (m - 1) % f;
    if r + 1 == f {
        assert(m == (q + 1) * f + 0) by (nonlinear_arith)
            requires
                m - 1 == f * q + r,
                r + 1 == f,
        ;
        lemma_fundamental_div_mod_converse_div(m, f, q + 1, 0);
        lemma_fundamental_div_mod_converse_mod(m, f, q + 1, 0);
    } else {
        assert(m == q * f + (r + 1)) by (nonlinear_arith)
            requires
                m - 1 == f * q + r,
        ;
        lemma_fundamental_div_mod_converse_div(m, f, q, r + 1);
        lemma_fundamental_div_mod_converse_mod(m, f, q, r + 1);
    }
}

/// Strictly below the final index, decimation keeps exactly the indices
/// on the factor grid: one point in `factor`, rounded up.
proof fn lemma_decimated_prefix_count(ps: Seq<gpx::Waypoint>, factor: int, n: int)
    requires
        factor >= 1,
        1 <= n < ps.len(),
    ensures
        decimated_prefix(ps, factor, n).len() == (n - 1) / factor + 1,
    decreases n,
{
    if n == 1 {
        lemma_basic_div(0, factor);
        lemma_small_mod(0, factor as nat);
        assert(keep_index(0, factor, ps.len() as int));
        assert(decimated_prefix(ps, factor, 0) =~= Seq::<gpx::Waypoint>::empty());
    } else {
        lemma_decimated_prefix_count(ps, factor, n - 1);
        lemma_div_step(n - 1, factor);
    }
}

/// How many points decimation keeps: one in `factor`, rounded up, plus
/// the final point when it does not itself sit on the factor grid.
pub proof fn lemma_decimated_count(ps: Seq<gpx::Waypoint>, factor: int)
    requires
        factor >= 1,
        ps.len() > 0,
    ensures
        decimated(ps, factor).len() == (ps.len() - 1) / factor + 1 + (
        if (ps.len() - 1) % factor == 0 {
            0int
        } else {
            1int
        }),
{
    let len = ps.len() as int;
    assert(keep_index(len - 1, factor, len));
    if len == 1 {
        lemma_basic_div(0, factor);
        lemma_small_mod(0, factor as nat);
        assert(decimated_prefix(ps, factor, 0) =~= Seq::<gpx::Waypoint>::empty());
    } else {
        lemma_decimated_prefix_count(ps, factor, len - 1);
        lemma_div_step(len - 1, factor);
    }
}

} // verus!
