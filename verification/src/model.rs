//! The in-memory model of a track-log document.
//!
//! A document owns an ordered sequence of tracks; a track owns an ordered
//! sequence of segments; a segment owns an ordered sequence of points.
//! The payload carried by a point, and the descriptive metadata, link and
//! route values, come from the `gpx` crate and are opaque here: the
//! engine reorders, concatenates and drops them but never looks inside.
//! The geometry of a document — its points, grouped by segment and by
//! track — is the `Seq`-of-`Seq`s view the transform contracts speak of.

use vstd::prelude::*;

verus! {

/// The `gpx` crate's point payload: a geographic sample with its optional
/// attributes.  Declared opaquely; the engine only moves such values.
#[verifier::external_type_specification]
#[verifier::external_body]
pub struct ExWaypoint(gpx::Waypoint);

/// The `gpx` crate's document metadata block.  Declared opaquely; the
/// engine copies or drops it whole.
#[verifier::external_type_specification]
#[verifier::external_body]
pub struct ExMetadata(gpx::Metadata);

/// The `gpx` crate's route type.  Declared opaquely; the engine carries
/// routes through or drops them, never reads them.
#[verifier::external_type_specification]
#[verifier::external_body]
pub struct ExRoute(gpx::Route);

/// The `gpx` crate's hyperlink type.  Declared opaquely; the engine
/// carries a track's links through unchanged.
#[verifier::external_type_specification]
#[verifier::external_body]
pub struct ExLink(gpx::Link);

/// The format version recorded in a document.
#[derive(Clone, Copy, Debug, PartialEq, Eq, Structural)]
pub enum Version {
    Unknown,
    Gpx10,
    Gpx11,
}

/// A contiguous ordered run of points within a track.
pub struct Segment {
    pub points: Vec<gpx::Waypoint>,
}

/// A named, ordered collection of segments representing one recorded
/// route.
pub struct Track {
    pub name: Option<String>,
    pub comment: Option<String>,
    pub description: Option<String>,
    pub source: Option<String>,
    pub links: Vec<gpx::Link>,
    pub type_: Option<String>,
    pub number: Option<u32>,
    pub segments: Vec<Segment>,
}

/// The full in-memory representation of one track-log file.
pub struct Document {
    pub version: Version,
    pub creator: Option<String>,
    pub metadata: Option<gpx::Metadata>,
    pub waypoints: Vec<gpx::Waypoint>,
    pub tracks: Vec<Track>,
    pub routes: Vec<gpx::Route>,
}

/// The geometry of a run of segments: each segment's points, in order.
pub open spec fn segs_geometry(ss: Seq<Segment>) -> Seq<Seq<gpx::Waypoint>> {
    ss.map_values(|s: Segment| s.points@)
}

/// The geometry of one track: its points, grouped by segment.
pub open spec fn track_geometry(t: Track) -> Seq<Seq<gpx::Waypoint>> {
    segs_geometry(t.segments@)
}

/// The geometry of a document: its points, grouped by segment and by
/// track.
pub open spec fn doc_geometry(d: Document) -> Seq<Seq<Seq<gpx::Waypoint>>> {
    d.tracks@.map_values(|t: Track| track_geometry(t))
}

} // verus!
