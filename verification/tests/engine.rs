use merge_my_gpx::model::{Document, Segment, Track, Version};
use merge_my_gpx::stats::document_stats;
use merge_my_gpx::transform::{decimate_document, invert_document, merge_documents};
use merge_my_gpx::validate::ToolError;

fn wp(name: &str) -> gpx::Waypoint {
    let mut w = gpx::Waypoint::default();
    w.name = Some(name.to_string());
    w
}

fn seg(names: &[&str]) -> Segment {
    Segment { points: names.iter().map(|n| wp(n)).collect() }
}

fn track(name: Option<&str>, segs: Vec<Segment>) -> Track {
    Track {
        name: name.map(|n| n.to_string()),
        comment: None,
        description: None,
        source: None,
        links: Vec::new(),
        type_: None,
        number: None,
        segments: segs,
    }
}

fn doc(tracks: Vec<Track>) -> Document {
    Document {
        version: Version::Gpx11,
        creator: Some("someone else".to_string()),
        metadata: None,
        waypoints: Vec::new(),
        tracks,
        routes: Vec::new(),
    }
}

fn point_names(s: &Segment) -> Vec<String> {
    s.points.iter().map(|p| p.name.clone().unwrap()).collect()
}

#[test]
fn invert_reverses_tracks_segments_and_points() {
    let d = doc(vec![
        track(Some("one"), vec![seg(&["a", "b"]), seg(&["c"])]),
        track(Some("two"), vec![seg(&["d", "e", "f"])]),
    ]);
    let r = invert_document(d);
    assert_eq!(r.tracks.len(), 2);
    // track order reversed
    assert_eq!(r.tracks[0].name.as_deref(), Some("two (inverted)"));
    assert_eq!(r.tracks[1].name.as_deref(), Some("one (inverted)"));
    // points of the (single) segment of former track "two" reversed
    assert_eq!(point_names(&r.tracks[0].segments[0]), vec!["f", "e", "d"]);
    // segments of former track "one" reversed, and each segment's points
    assert_eq!(point_names(&r.tracks[1].segments[0]), vec!["c"]);
    assert_eq!(point_names(&r.tracks[1].segments[1]), vec!["b", "a"]);
    assert_eq!(r.creator.as_deref(), Some("merge_my_gpx v0.1.0"));
    assert_eq!(r.version, Version::Gpx11);
}

#[test]
fn invert_leaves_unnamed_tracks_unnamed() {
    let d = doc(vec![track(None, vec![seg(&["a"])])]);
    let r = invert_document(d);
    assert!(r.tracks[0].name.is_none());
}

#[test]
fn invert_twice_restores_geometry() {
    let build = || {
        doc(vec![
            track(Some("one"), vec![seg(&["a", "b"]), seg(&["c"])]),
            track(Some("two"), vec![seg(&["d", "e", "f"])]),
        ])
    };
    let twice = invert_document(invert_document(build()));
    let original = build();
    assert_eq!(twice.tracks.len(), original.tracks.len());
    for (t2, t0) in twice.tracks.iter().zip(original.tracks.iter()) {
        assert_eq!(t2.segments.len(), t0.segments.len());
        for (s2, s0) in t2.segments.iter().zip(t0.segments.iter()) {
            assert_eq!(point_names(s2), point_names(s0));
        }
        // the name suffix accumulates
        assert_eq!(
            t2.name.as_deref().unwrap(),
            format!("{} (inverted) (inverted)", t0.name.as_deref().unwrap())
        );
    }
}

#[test]
fn merge_concatenates_segments_in_input_order() {
    let d1 = doc(vec![
        track(Some("one"), vec![seg(&["a", "b"]), seg(&["c"])]),
        track(Some("two"), vec![seg(&["d"])]),
    ]);
    let d2 = doc(vec![track(Some("three"), vec![seg(&["e", "f"])])]);
    let r = merge_documents(vec![d1, d2]);
    assert_eq!(r.tracks.len(), 1);
    let t = &r.tracks[0];
    assert!(t.name.is_none());
    assert_eq!(t.segments.len(), 4);
    assert_eq!(point_names(&t.segments[0]), vec!["a", "b"]);
    assert_eq!(point_names(&t.segments[1]), vec!["c"]);
    assert_eq!(point_names(&t.segments[2]), vec!["d"]);
    assert_eq!(point_names(&t.segments[3]), vec!["e", "f"]);
    assert_eq!(r.creator.as_deref(), Some("merge_my_gpx v0.1.0"));
    assert_eq!(r.version, Version::Gpx11);
    assert!(r.metadata.is_none());
    assert!(r.waypoints.is_empty());
    assert!(r.routes.is_empty());
}

#[test]
fn merge_drops_waypoints_and_routes() {
    let mut d = doc(vec![track(Some("one"), vec![seg(&["a"])])]);
    d.waypoints.push(wp("stray"));
    d.routes.push(gpx::Route::default());
    d.metadata = Some(gpx::Metadata::default());
    let r = merge_documents(vec![d]);
    assert!(r.waypoints.is_empty());
    assert!(r.routes.is_empty());
    assert!(r.metadata.is_none());
}

#[test]
fn merge_of_nothing_is_one_empty_track() {
    let r = merge_documents(Vec::new());
    assert_eq!(r.tracks.len(), 1);
    assert!(r.tracks[0].segments.is_empty());
}

#[test]
fn decimate_keeps_every_third_point_and_the_last() {
    let d = doc(vec![track(
        Some("long"),
        vec![seg(&["p0", "p1", "p2", "p3", "p4", "p5", "p6", "p7", "p8", "p9"])],
    )]);
    let r = decimate_document(d, 3).unwrap();
    assert_eq!(point_names(&r.tracks[0].segments[0]), vec!["p0", "p3", "p6", "p9"]);
    assert_eq!(r.tracks[0].name.as_deref(), Some("long (decimated-by-3)"));
    assert_eq!(r.creator.as_deref(), Some("merge_my_gpx v0.1.0"));
}

#[test]
fn decimate_always_keeps_the_final_point() {
    let d = doc(vec![track(None, vec![seg(&["p0", "p1", "p2", "p3", "p4", "p5", "p6", "p7", "p8", "p9"])])]);
    let r = decimate_document(d, 4).unwrap();
    // indices 0, 4 and 8 by the factor, and 9 as the endpoint
    assert_eq!(point_names(&r.tracks[0].segments[0]), vec!["p0", "p4", "p8", "p9"]);
}

#[test]
fn decimate_factor_one_keeps_every_point() {
    let d = doc(vec![track(Some("t"), vec![seg(&["a", "b", "c"])])]);
    let r = decimate_document(d, 1).unwrap();
    assert_eq!(point_names(&r.tracks[0].segments[0]), vec!["a", "b", "c"]);
    // names and creator still change
    assert_eq!(r.tracks[0].name.as_deref(), Some("t (decimated-by-1)"));
    assert_eq!(r.creator.as_deref(), Some("merge_my_gpx v0.1.0"));
}

#[test]
fn decimate_rejects_factor_zero() {
    let d = doc(vec![track(Some("t"), vec![seg(&["a"])])]);
    let r = decimate_document(d, 0);
    assert!(matches!(r, Err(ToolError::InvalidFactor)));
}

#[test]
fn decimate_of_empty_segment_is_empty() {
    let d = doc(vec![track(None, vec![Segment { points: Vec::new() }])]);
    let r = decimate_document(d, 5).unwrap();
    assert!(r.tracks[0].segments[0].points.is_empty());
}

#[test]
fn stats_count_tracks_segments_and_points() {
    let d = doc(vec![
        track(Some("one"), vec![seg(&["a", "b"]), seg(&["c"])]),
        track(Some("two"), vec![seg(&["d", "e"])]),
    ]);
    let (tracks, segments, points) = document_stats(&d).unwrap();
    assert_eq!(tracks, 2);
    assert_eq!(segments, 3);
    assert_eq!(points, 5);
}

#[test]
fn stats_of_empty_document_are_zero() {
    let d = doc(Vec::new());
    assert_eq!(document_stats(&d).unwrap(), (0, 0, 0));
}
