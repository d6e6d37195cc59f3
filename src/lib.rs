//! # hexy
//!
//! Derives map-ready artifacts from the GPS traces of exercise activities:
//! a "home region" centroid found by density-based clustering of per-activity
//! centroids, and a canonical set of hexagonal spatial-index cells covering
//! every trace.
//!
//! Coordinates are held as fixed-point integers in units of 1e-5 degree, the
//! resolution of the polyline encoding used throughout.

pub mod codec;
pub mod error;
pub mod models;
pub mod geo;
pub mod cluster;
pub mod h3;
pub mod strava;
