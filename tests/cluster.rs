use hexy::cluster::{dominant_centroid, track_centroid, ClusterLabel};
use hexy::codec::{encode_polyline, Coordinate};
use hexy::geo::{centroids, decode_all, get_useful_centroid, MIN_POINTS};
use hexy::models::{Activity, ActivityMap, ActivityResponse};

fn c(lon: i32, lat: i32) -> Coordinate {
    Coordinate { lon, lat }
}

fn activity(id: i64, track: Option<Vec<Coordinate>>) -> Activity {
    Activity {
        id,
        name: String::new(),
        distance: 0,
        moving_time: 0,
        elapsed_time: 0,
        start_date: 0,
        kudos_count: 0,
        average_speed: 0,
        sport_type: "Ride".to_string(),
        linestring: track,
    }
}

fn response(id: i64, track: &[Coordinate]) -> ActivityResponse {
    ActivityResponse {
        id,
        name: String::new(),
        distance: 0,
        moving_time: 0,
        elapsed_time: 0,
        start_date: 0,
        kudos_count: 0,
        average_speed: 0,
        sport_type: "Ride".to_string(),
        map: ActivityMap {
            polyline: None,
            summary_polyline: Some(String::from_utf8(encode_polyline(track)).unwrap()),
        },
    }
}

#[test]
fn track_centroid_is_the_mean() {
    assert_eq!(track_centroid(&[c(0, 0), c(0, 100), c(100, 100)]), Some(c(33, 66)));
    assert_eq!(track_centroid(&[c(7, -3)]), Some(c(7, -3)));
}

#[test]
fn track_centroid_rounds_down() {
    assert_eq!(track_centroid(&[c(-1, 1), c(0, 0)]), Some(c(-1, 0)));
}

#[test]
fn track_centroid_of_extremes() {
    let t = [c(i32::MAX, i32::MIN), c(i32::MAX, i32::MIN)];
    assert_eq!(track_centroid(&t), Some(c(i32::MAX, i32::MIN)));
}

#[test]
fn empty_track_has_no_centroid() {
    assert_eq!(track_centroid(&[]), None);
}

#[test]
fn dominant_cluster_tie_goes_to_smaller_id() {
    let points = [c(0, 0), c(10, 10), c(100, 100), c(200, 200), c(300, 300)];
    let labels = [
        ClusterLabel::Core(1),
        ClusterLabel::Core(0),
        ClusterLabel::Core(1),
        ClusterLabel::Core(0),
        ClusterLabel::Noise,
    ];
    assert_eq!(dominant_centroid(&points, &labels), Some(c(105, 105)));
}

#[test]
fn dominant_centroid_uses_core_points_only() {
    let points = [c(0, 0), c(10, 20), c(1000, 1000), c(5000, 5000), c(-40, -40)];
    let labels = [
        ClusterLabel::Core(2),
        ClusterLabel::Core(2),
        ClusterLabel::Core(0),
        ClusterLabel::Border(2),
        ClusterLabel::Noise,
    ];
    assert_eq!(dominant_centroid(&points, &labels), Some(c(5, 10)));
}

#[test]
fn no_core_point_means_no_centroid() {
    let points = [c(0, 0), c(1, 1)];
    let labels = [ClusterLabel::Noise, ClusterLabel::Border(0)];
    assert_eq!(dominant_centroid(&points, &labels), None);
    assert_eq!(dominant_centroid(&[], &[]), None);
}

#[test]
fn fewer_than_min_points_gives_none() {
    let acts: Vec<Activity> =
        (0..(MIN_POINTS as i64 - 1)).map(|i| activity(i, Some(vec![c(0, 0), c(2, 2)]))).collect();
    assert_eq!(get_useful_centroid(&acts), None);
}

#[test]
fn exactly_min_points_gives_a_centroid() {
    let acts: Vec<Activity> =
        (0..MIN_POINTS as i64).map(|i| activity(i, Some(vec![c(10, 20)]))).collect();
    assert_eq!(get_useful_centroid(&acts), Some(c(10, 20)));
}

#[test]
fn records_without_tracks_are_not_centroids() {
    let acts = vec![
        activity(1, None),
        activity(2, Some(vec![])),
        activity(3, Some(vec![c(2, 4), c(4, 8)])),
    ];
    assert_eq!(centroids(&acts), vec![c(3, 6)]);
}

#[test]
fn dense_group_wins_over_outlier() {
    let shapes = [
        vec![c(-100, -100), c(100, 100)],
        vec![c(0, 200), c(0, -100), c(30, 0)],
        vec![c(500, 500), c(-300, -300)],
    ];
    let mut batch: Vec<ActivityResponse> = Vec::new();
    for i in 0..12 {
        batch.push(response(i, &shapes[i as usize % 3]));
    }
    batch.push(response(99, &[c(5_000_000, 5_000_000), c(5_000_100, 5_000_100)]));
    let acts = decode_all(batch);
    assert_eq!(acts.len(), 13);
    let centre = get_useful_centroid(&acts).unwrap();
    assert!(centre.lon.abs() < 1_000 && centre.lat.abs() < 1_000);
}

#[test]
fn clustering_is_deterministic() {
    let mut acts: Vec<Activity> = Vec::new();
    for i in 0..15 {
        acts.push(activity(i, Some(vec![c(i as i32 * 100, 0), c(0, i as i32 * 50)])));
    }
    acts.push(activity(20, Some(vec![c(900_000, 900_000)])));
    let first = get_useful_centroid(&acts);
    let second = get_useful_centroid(&acts);
    assert!(first.is_some());
    assert_eq!(first, second);
}

#[test]
fn two_dense_groups_pick_the_larger() {
    let mut acts: Vec<Activity> = Vec::new();
    for i in 0..10 {
        acts.push(activity(i, Some(vec![c(0, i as i32)])));
    }
    for i in 0..14 {
        acts.push(activity(100 + i, Some(vec![c(3_000_000, 3_000_000 + i as i32)])));
    }
    let centre = get_useful_centroid(&acts).unwrap();
    assert_eq!(centre.lon, 3_000_000);
    assert!(centre.lat >= 3_000_000 && centre.lat < 3_000_014);
}
