//! A verified scoring engine and Monte Carlo aggregation pipeline for darts.
//!
//! All geometry is carried out exactly, in fixed point: coordinates and radii
//! are integers in hundredths of a millimeter, ring membership is decided by
//! squared distances, and wedge membership by integer cross products against
//! fixed-point boundary rays. Throw generation draws from a Gaussian and so
//! lives with the unverified callers; everything that decides a score or
//! aggregates results is verified here.

pub mod board;
pub mod segment;
pub mod score;
pub mod sim;
pub mod rank;
