use hexy::codec::{decode_bytes, decode_polyline, encode_polyline, Coordinate};
use hexy::error::Error;

fn c(lon: i32, lat: i32) -> Coordinate {
    Coordinate { lon, lat }
}

const KNOWN: &str = "_p~iF~ps|U_ulLnnqC_mqNvxq`@";

fn known_track() -> Vec<Coordinate> {
    vec![
        c(-12020000, 3850000),
        c(-12095000, 4070000),
        c(-12645300, 4325200),
    ]
}

#[test]
fn decode_known_polyline() {
    assert_eq!(decode_polyline(KNOWN), Ok(known_track()));
}

#[test]
fn decode_empty_polyline() {
    assert_eq!(decode_polyline(""), Ok(vec![]));
}

#[test]
fn decode_agrees_with_reference_decoder() {
    let reference = polyline::decode_polyline(KNOWN, 5).unwrap();
    let ours = decode_polyline(KNOWN).unwrap();
    assert_eq!(reference.0.len(), ours.len());
    for (r, o) in reference.0.iter().zip(ours.iter()) {
        assert!((r.x - o.lon as f64 / 1e5).abs() < 1e-9);
        assert!((r.y - o.lat as f64 / 1e5).abs() < 1e-9);
    }
}

#[test]
fn encode_known_track() {
    let bytes = encode_polyline(&known_track());
    assert_eq!(String::from_utf8(bytes).unwrap(), KNOWN);
}

#[test]
fn encode_agrees_with_reference_encoder() {
    let track = vec![c(0, 0), c(100, 0), c(100, 100), c(-5, -7), c(18000000, -9000000)];
    let ours = String::from_utf8(encode_polyline(&track)).unwrap();
    let decoded = polyline::decode_polyline(&ours, 5).unwrap();
    let reference = polyline::encode_coordinates(decoded, 5).unwrap();
    assert_eq!(ours, reference);
}

#[test]
fn round_trip_reproduces_track() {
    let track = vec![
        c(0, 0),
        c(1, -1),
        c(-12345678, 8765432),
        c(i32::MAX, i32::MIN),
        c(i32::MIN, i32::MAX),
        c(17999999, -8999999),
    ];
    let bytes = encode_polyline(&track);
    assert_eq!(decode_bytes(&bytes), Ok(track));
}

#[test]
fn round_trip_of_float_coordinates_within_rounding() {
    let degrees = [(2.0, 1.0), (4.123456, 3.654321), (-179.99999, 89.99999)];
    let track: Vec<Coordinate> = degrees
        .iter()
        .map(|&(x, y): &(f64, f64)| c((x * 1e5).round() as i32, (y * 1e5).round() as i32))
        .collect();
    let back = decode_bytes(&encode_polyline(&track)).unwrap();
    for (p, &(x, y)) in back.iter().zip(degrees.iter()) {
        assert!((p.lon as f64 / 1e5 - x).abs() <= 0.5e-5);
        assert!((p.lat as f64 / 1e5 - y).abs() <= 0.5e-5);
    }
}

#[test]
fn latitude_without_longitude_is_malformed() {
    assert_eq!(decode_polyline("_p~iF"), Err(Error::MalformedPolyline));
}

#[test]
fn unterminated_value_is_malformed() {
    assert_eq!(decode_polyline("_p~iF~ps|"), Err(Error::MalformedPolyline));
}

#[test]
fn byte_outside_alphabet_is_malformed() {
    assert_eq!(decode_polyline("??!?"), Err(Error::MalformedPolyline));
}

#[test]
fn overlong_value_is_malformed() {
    assert_eq!(decode_polyline("~~~~~~~??"), Err(Error::MalformedPolyline));
}

#[test]
fn accumulated_overflow_is_malformed() {
    // Each latitude delta is 2^31 - 1; the second one leaves the i32 range.
    let track = vec![c(0, i32::MAX)];
    let mut bytes = encode_polyline(&track);
    let again = bytes.clone();
    bytes.extend_from_slice(&again);
    assert_eq!(decode_bytes(&bytes), Err(Error::MalformedPolyline));
}
