//! Activity records: the raw payload of one activity, the record that the
//! pipeline works on, and the properties-only view of a record.
use vstd::prelude::*;
use vstd::utf8::encode_utf8;

use crate::codec::{decode_polyline, decode_spec, Coordinate};
use crate::error::Error;

verus! {

/// The encoded tracks that a raw activity may carry.
#[derive(Debug, PartialEq)]
pub struct ActivityMap {
    /// Full-resolution encoded track.
    pub polyline: Option<String>,
    /// Lower-resolution summary of the track.
    pub summary_polyline: Option<String>,
}

/// A raw activity as the activity service delivers it.
///
/// `distance` (meters) and `average_speed` (meters per second) hold the
/// IEEE-754 bit patterns of the service's floating-point values, carried
/// through untouched. `start_date` is in seconds since the Unix epoch.
#[derive(Debug, PartialEq)]
pub struct ActivityResponse {
    pub id: i64,
    pub name: String,
    pub distance: u64,
    pub moving_time: i64,
    pub elapsed_time: i64,
    pub start_date: i64,
    pub kudos_count: i32,
    pub average_speed: u64,
    pub sport_type: String,
    pub map: ActivityMap,
}

/// One activity with its decoded track, if it has one. The descriptive
/// fields are those of `ActivityResponse`.
#[derive(Debug, PartialEq)]
pub struct Activity {
    pub id: i64,
    pub name: String,
    pub distance: u64,
    pub moving_time: i64,
    pub elapsed_time: i64,
    pub start_date: i64,
    pub kudos_count: i32,
    pub average_speed: u64,
    pub sport_type: String,
    pub linestring: Option<Vec<Coordinate>>,
}

/// The descriptive fields of an activity, without its track.
#[derive(Debug, PartialEq)]
pub struct Properties {
    pub id: i64,
    pub name: String,
    pub distance: u64,
    pub moving_time: i64,
    pub elapsed_time: i64,
    pub start_date: i64,
    pub kudos_count: i32,
    pub average_speed: u64,
    pub sport_type: String,
}

/// The encoded track that extraction decodes: the full-resolution one where
/// present, else the summary.
pub open spec fn chosen_polyline(m: ActivityMap) -> Option<String> {
    if m.polyline is Some {
        m.polyline
    } else {
        m.summary_polyline
    }
}

/// The track extracted from `m`: `Some(None)` where it carries no encoded
/// track, `None` where the chosen one is malformed.
pub open spec fn extracted_track(m: ActivityMap) -> Option<Option<Seq<Coordinate>>> {
    match chosen_polyline(m) {
        None => Some(None),
        Some(p) => match decode_spec(encode_utf8(p@)) {
            None => None,
            Some(t) => Some(Some(t)),
        },
    }
}

/// The track of a record, as a sequence.
pub open spec fn track_of(a: Activity) -> Option<Seq<Coordinate>> {
    match a.linestring {
        Some(v) => Some(v@),
        None => None,
    }
}

/// `a` holds the descriptive fields of `obj`.
pub open spec fn carries_fields(a: Activity, obj: ActivityResponse) -> bool {
    &&& a.id == obj.id
    &&& a.name == obj.name
    &&& a.distance == obj.distance
    &&& a.moving_time == obj.moving_time
    &&& a.elapsed_time == obj.elapsed_time
    &&& a.start_date == obj.start_date
    &&& a.kudos_count == obj.kudos_count
    &&& a.average_speed == obj.average_speed
    &&& a.sport_type == obj.sport_type
}

/// `p` holds the descriptive fields of `a`.
pub open spec fn properties_of(p: Properties, a: Activity) -> bool {
    &&& p.id == a.id
    &&& p.name == a.name
    &&& p.distance == a.distance
    &&& p.moving_time == a.moving_time
    &&& p.elapsed_time == a.elapsed_time
    &&& p.start_date == a.start_date
    &&& p.kudos_count == a.kudos_count
    &&& p.average_speed == a.average_speed
    &&& p.sport_type == a.sport_type
}

impl Activity {
    /// Builds the record of a raw activity, decoding its full-resolution
    /// track, or its summary track where the former is absent. An activity
    /// with neither has no track; a malformed chosen track is an error.
    pub fn from_response(obj: ActivityResponse) -> (r: Result<Activity, Error>)
        ensures
            r is Ok <==> extracted_track(obj.map) is Some,
            match r {
                Ok(a) => carries_fields(a, obj) && extracted_track(obj.map) == Some(track_of(a)),
                Err(e) => e == Error::MalformedPolyline,
            },
            obj.map.polyline matches Some(p) ==> match decode_spec(encode_utf8(p@)) {
                Some(t) => r matches Ok(a) && track_of(a) == Some(t),
                None => r is Err,
            },
            obj.map.polyline is None && obj.map.summary_polyline is None ==> (r matches Ok(a)
                && a.linestring is None),
    {
        let poly = if obj.map.polyline.is_some() {
            obj.map.polyline
        } else {
            obj.map.summary_polyline
        };
        let linestring = match poly {
            None => None,
            Some(p) => match decode_polyline(p.as_str()) {
                Ok(t) => Some(t),
                Err(e) => return Err(e),
            },
        };
        Ok(
            Activity {
                id: obj.id,
                name: obj.name,
                distance: obj.distance,
                moving_time: obj.moving_time,
                elapsed_time: obj.elapsed_time,
                start_date: obj.start_date,
                kudos_count: obj.kudos_count,
                average_speed: obj.average_speed,
                sport_type: obj.sport_type,
                linestring,
            },
        )
    }

    /// The descriptive fields of this record, without its track.
    pub fn to_properties(&self) -> (r: Properties)
        ensures
            properties_of(r, *self),
    {
        Properties {
            id: self.id,
            name: self.name.clone(),
            distance: self.distance,
            moving_time: self.moving_time,
            elapsed_time: self.elapsed_time,
            start_date: self.start_date,
            kudos_count: self.kudos_count,
            average_speed: self.average_speed,
            sport_type: self.sport_type.clone(),
        }
    }
}

} // verus!
