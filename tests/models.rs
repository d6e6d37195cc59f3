use hexy::codec::{encode_polyline, Coordinate};
use hexy::error::Error;
use hexy::geo::{decode_all, to_geojson};
use hexy::models::{Activity, ActivityMap, ActivityResponse, Properties};
use hexy::strava::GrantType;

/// 1980-01-01T00:00:00Z.
const START_1980: i64 = 315532800;

fn c(lon: i32, lat: i32) -> Coordinate {
    Coordinate { lon, lat }
}

fn encoded(track: &[Coordinate]) -> String {
    String::from_utf8(encode_polyline(track)).unwrap()
}

fn response(id: i64, polyline: Option<String>, summary_polyline: Option<String>) -> ActivityResponse {
    ActivityResponse {
        id,
        name: format!("activity {}", id),
        distance: 1234.5f64.to_bits(),
        moving_time: 600,
        elapsed_time: 660,
        start_date: START_1980,
        kudos_count: 3,
        average_speed: 2.5f64.to_bits(),
        sport_type: "Run".to_string(),
        map: ActivityMap { polyline, summary_polyline },
    }
}

#[test]
fn activity_from_response() {
    let dt = START_1980;
    let want = Activity {
        id: 0,
        name: "".to_string(),
        distance: 0.0f64.to_bits(),
        moving_time: 0,
        elapsed_time: 0,
        start_date: dt,
        kudos_count: 0,
        average_speed: 0.0f64.to_bits(),
        sport_type: "Ride".to_string(),
        linestring: None,
    };
    let map = ActivityMap { polyline: None, summary_polyline: None };
    let res = ActivityResponse {
        id: 0,
        name: "".to_string(),
        distance: 0.0f64.to_bits(),
        moving_time: 0,
        elapsed_time: 0,
        start_date: dt,
        kudos_count: 0,
        average_speed: 0.0f64.to_bits(),
        sport_type: "Ride".to_string(),
        map,
    };
    let got = Activity::from_response(res);
    assert_eq!(Ok(want), got);
}

#[test]
fn full_resolution_track_is_preferred() {
    let full = vec![c(0, 0), c(10, 10), c(20, 20)];
    let summary = vec![c(0, 0), c(20, 20)];
    let a = Activity::from_response(response(1, Some(encoded(&full)), Some(encoded(&summary))))
        .unwrap();
    assert_eq!(a.linestring, Some(full));
}

#[test]
fn summary_track_is_the_fallback() {
    let summary = vec![c(0, 0), c(20, 20)];
    let a = Activity::from_response(response(2, None, Some(encoded(&summary)))).unwrap();
    assert_eq!(a.linestring, Some(summary));
}

#[test]
fn missing_tracks_give_no_track() {
    let a = Activity::from_response(response(3, None, None)).unwrap();
    assert_eq!(a.linestring, None);
    assert_eq!(a.id, 3);
    assert_eq!(a.name, "activity 3");
    assert_eq!(f64::from_bits(a.distance), 1234.5);
    assert_eq!(f64::from_bits(a.average_speed), 2.5);
}

#[test]
fn malformed_full_track_is_an_error_even_with_a_summary() {
    let summary = encoded(&[c(1, 1)]);
    let got = Activity::from_response(response(4, Some("_p~iF".to_string()), Some(summary)));
    assert_eq!(got, Err(Error::MalformedPolyline));
}

#[test]
fn decode_all_skips_malformed_records() {
    let good = encoded(&[c(5, 6)]);
    let batch = vec![
        response(1, Some(good.clone()), None),
        response(2, None, Some("~".to_string())),
        response(3, None, None),
        response(4, None, Some(good)),
    ];
    let acts = decode_all(batch);
    let ids: Vec<i64> = acts.iter().map(|a| a.id).collect();
    assert_eq!(ids, vec![1, 3, 4]);
    assert_eq!(acts[0].linestring, Some(vec![c(5, 6)]));
    assert_eq!(acts[1].linestring, None);
}

#[test]
fn record_without_track_gives_null_geometry_and_properties() {
    let acts = decode_all(vec![response(7, None, None), response(8, Some(encoded(&[c(1, 2), c(3, 4)])), None)]);
    let features = to_geojson(acts);
    assert_eq!(features.len(), 2);
    assert_eq!(features[0].geometry, None);
    assert_eq!(
        features[0].properties,
        Properties {
            id: 7,
            name: "activity 7".to_string(),
            distance: 1234.5f64.to_bits(),
            moving_time: 600,
            elapsed_time: 660,
            start_date: START_1980,
            kudos_count: 3,
            average_speed: 2.5f64.to_bits(),
            sport_type: "Run".to_string(),
        }
    );
    assert_eq!(features[1].geometry, Some(vec![c(1, 2), c(3, 4)]));
    assert_eq!(features[1].properties.id, 8);
}

#[test]
fn properties_leave_out_the_track() {
    let a = Activity::from_response(response(9, Some(encoded(&[c(1, 2)])), None)).unwrap();
    let p = a.to_properties();
    assert_eq!(p.id, 9);
    assert_eq!(p.sport_type, "Run");
    assert_eq!(p.start_date, START_1980);
}

#[test]
fn grant_type_parameters() {
    assert_eq!(GrantType::Auth.as_param(), "authorization_code");
    assert_eq!(GrantType::Refresh.as_param(), "refresh_token");
}
