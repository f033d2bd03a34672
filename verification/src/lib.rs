//! Splits the traces of a GPX-style container into bounded fragments.
//!
//! A source container holds routes or tracks, each an ordered sequence of
//! geographic waypoints.  A [`limit::Limit`] decides where such a sequence
//! must be cut: after a maximum number of points, after a maximum cumulative
//! geodesic length, or when the current segment passes near one of a set of
//! designated cut locations.  The [`split`] module walks the points of the
//! source traces, asks the limit after every point, and materializes one
//! trimmed trace per emitted fragment.

pub mod geo;
pub mod io;
pub mod laws;
pub mod limit;
pub mod split;
pub mod types;
