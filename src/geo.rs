//! The batch pipeline over activity records: track extraction for a batch,
//! the dominant-cluster centroid, and assembly into features.
use vstd::prelude::*;

use crate::cluster::{dominant_centroid, dominant_spec, mean_of, track_centroid, winning_cluster, ClusterLabel};
use crate::codec::Coordinate;
use crate::models::{
    carries_fields, extracted_track, properties_of, track_of, Activity, ActivityResponse,
    Properties,
};

verus! {

/// One map feature: a line through the track, if any, and the record's
/// descriptive fields.
#[derive(Debug, PartialEq)]
pub struct Feature {
    pub geometry: Option<Vec<Coordinate>>,
    pub properties: Properties,
}

/// The raw activities of `s` whose chosen track is well formed, in order.
pub open spec fn well_formed_responses(s: Seq<ActivityResponse>) -> Seq<ActivityResponse>
    decreases s.len(),
{
    if s.len() == 0 {
        Seq::empty()
    } else {
        let k = well_formed_responses(s.drop_last());
        if extracted_track(s.last().map) is Some {
            k.push(s.last())
        } else {
            k
        }
    }
}

/// `a` is the record extracted from `obj`.
pub open spec fn extracted_from(a: Activity, obj: ActivityResponse) -> bool {
    carries_fields(a, obj) && extracted_track(obj.map) == Some(track_of(a))
}

/// `f` is the feature of record `a`.
pub open spec fn feature_of(f: Feature, a: Activity) -> bool {
    &&& properties_of(f.properties, a)
    &&& match f.geometry {
        Some(v) => track_of(a) == Some(v@),
        None => track_of(a) is None,
    }
}

/// Builds the record of each raw activity, in order. An activity whose chosen
/// track is malformed is skipped, so that one bad record leaves the rest of
/// the batch intact.
pub fn decode_all(activities: Vec<ActivityResponse>) -> (r: Vec<Activity>)
    ensures
        r@.len() == well_formed_responses(activities@).len(),
        forall|i: int|
            0 <= i < r@.len() ==> extracted_from(#[trigger] r@[i], well_formed_responses(activities@)[i]),
{
    let ghost orig = activities@;
    let total = activities.len();
    let mut rest = activities;
    let mut out: Vec<Activity> = Vec::new();
    let mut done: usize = 0;
    while done < total
        invariant
            total == orig.len(),
            done <= total,
            rest@ == orig.subrange(done as int, total as int),
            out@.len() == well_formed_responses(orig.take(done as int)).len(),
            forall|i: int|
                0 <= i < out@.len() ==> extracted_from(
                    #[trigger] out@[i],
                    well_formed_responses(orig.take(done as int))[i],
                ),
        decreases total - done,
    {
        let obj = rest.remove(0);
        assert(orig.take(done + 1).drop_last() =~= orig.take(done as int));
        assert(orig.take(done + 1).last() == obj);
        match Activity::from_response(obj) {
            Ok(a) => {
                out.push(a);
            },
            Err(_) => {},
        }
        done = done + 1;
        assert(rest@ =~= orig.subrange(done as int, orig.len() as int));
    }
    assert(orig.take(orig.len() as int) =~= orig);
    out
}

/// One feature per record, in input order: the record's track as geometry
/// (none where it has no track) and its descriptive fields as properties.
pub fn to_geojson(activities: Vec<Activity>) -> (r: Vec<Feature>)
    ensures
        r@.len() == activities@.len(),
        forall|i: int| 0 <= i < r@.len() ==> feature_of(#[trigger] r@[i], activities@[i]),
{
    let ghost orig = activities@;
    let mut rest = activities;
    let mut out: Vec<Feature> = Vec::new();
    while rest.len() > 0
        invariant
            out@.len() + rest@.len() == orig.len(),
            rest@ == orig.subrange(out@.len() as int, orig.len() as int),
            forall|i: int| 0 <= i < out@.len() ==> feature_of(#[trigger] out@[i], orig[i]),
        decreases rest@.len(),
    {
        let a = rest.remove(0);
        let properties = a.to_properties();
        let f = Feature { geometry: a.linestring, properties };
        out.push(f);
        assert(rest@ =~= orig.subrange(out@.len() as int, orig.len() as int));
    }
    out
}

/// Neighbourhood radius of the clustering, in coordinate units: 0.1 degree,
/// measured in raw degrees rather than along the globe.
pub const CLUSTER_RADIUS: i32 = 10_000;

/// How many points, the point itself included, must lie within the radius
/// of a point for it to be a core point.
pub const MIN_POINTS: usize = 10;

/// The labels that DBSCAN gives `points` with radius `eps` and density
/// threshold `min_points`.
pub uninterp spec fn dbscan_labels(points: Seq<Coordinate>, eps: i32, min_points: usize) -> Seq<
    ClusterLabel,
>;

/// Relies on dbscan::Model::run with Euclidean distance: one label per point,
/// in input order, a function of the points and parameters alone; a point is
/// a core point only where at least `min_points` input points lie within
/// `eps` of it, so never where the input holds fewer points.
#[verifier::external_body]
fn classify(points: &Vec<Coordinate>, eps: i32, min_points: usize) -> (r: Vec<ClusterLabel>)
    ensures
        r@ == dbscan_labels(points@, eps, min_points),
        r@.len() == points@.len(),
        points@.len() < min_points ==> forall|k: int|
            0 <= k < r@.len() ==> !(#[trigger] r@[k] is Core),
{
    let rows: Vec<Vec<i32>> = points.iter().map(|p| vec![p.lon, p.lat]).collect();
    let labels = dbscan::Model::new(eps.into(), min_points).run(&rows);
    labels.into_iter().map(|c| match c {
        dbscan::Classification::Core(id) => ClusterLabel::Core(id),
        dbscan::Classification::Edge(id) => ClusterLabel::Border(id),
        dbscan::Classification::Noise => ClusterLabel::Noise,
    }).collect()
}

/// The centroid of a record's track; `None` where it has none or it is empty.
pub open spec fn record_centroid(a: Activity) -> Option<Coordinate> {
    match track_of(a) {
        Some(t) => mean_of(t),
        None => None,
    }
}

/// The centroids of the records of `acts` that have a non-empty track, in order.
pub open spec fn activity_centroids(acts: Seq<Activity>) -> Seq<Coordinate>
    decreases acts.len(),
{
    if acts.len() == 0 {
        Seq::empty()
    } else {
        let k = activity_centroids(acts.drop_last());
        match record_centroid(acts.last()) {
            Some(p) => k.push(p),
            None => k,
        }
    }
}

/// The result of the clustering pipeline on the records `acts`.
pub open spec fn useful_centroid_spec(acts: Seq<Activity>) -> Option<Coordinate> {
    let points = activity_centroids(acts);
    dominant_spec(points, dbscan_labels(points, CLUSTER_RADIUS, MIN_POINTS))
}

/// The centroid of each record with a non-empty track, in order.
pub fn centroids(activities: &[Activity]) -> (r: Vec<Coordinate>)
    ensures
        r@ == activity_centroids(activities@),
{
    let mut out: Vec<Coordinate> = Vec::new();
    let mut i: usize = 0;
    while i < activities.len()
        invariant
            i <= activities@.len(),
            out@ == activity_centroids(activities@.take(i as int)),
        decreases activities@.len() - i,
    {
        assert(activities@.take(i + 1).drop_last() =~= activities@.take(i as int));
        let c = match &activities[i].linestring {
            Some(t) => track_centroid(t.as_slice()),
            None => None,
        };
        if let Some(p) = c {
            out.push(p);
        }
        i = i + 1;
    }
    assert(activities@.take(i as int) =~= activities@);
    out
}

/// A representative point to centre a map on: the arithmetic centroid of
/// each record's track is taken, the centroids are clustered (radius
/// `CLUSTER_RADIUS`, density `MIN_POINTS`), and the result is the mean of the
/// core points of the cluster with the most core points. `None` where no
/// centroid is a core point, in particular where there are fewer than
/// `MIN_POINTS` centroids.
pub fn get_useful_centroid(activities: &[Activity]) -> (r: Option<Coordinate>)
    ensures
        r == useful_centroid_spec(activities@),
        activity_centroids(activities@).len() < MIN_POINTS ==> r is None,
{
    let points = centroids(activities);
    let labels = classify(&points, CLUSTER_RADIUS, MIN_POINTS);
    dominant_centroid(points.as_slice(), labels.as_slice())
}

/// The clustering is deterministic: records with the same sequence of track
/// centroids give the same winning cluster and the same centroid.
pub proof fn lemma_centroid_deterministic(a: Seq<Activity>, b: Seq<Activity>)
    requires
        activity_centroids(a) == activity_centroids(b),
    ensures
        winning_cluster(dbscan_labels(activity_centroids(a), CLUSTER_RADIUS, MIN_POINTS))
            == winning_cluster(dbscan_labels(activity_centroids(b), CLUSTER_RADIUS, MIN_POINTS)),
        useful_centroid_spec(a) == useful_centroid_spec(b),
{
}

} // verus!
