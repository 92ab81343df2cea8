//! A verified model of the aggregation and differential-privacy pipeline of a
//! three-party attribution protocol: oblivious bucket addressing, histogram
//! reduction, Binomial-noise calibration and application, and padding with
//! dummy rows.
pub mod field;
pub mod bucket;
pub mod aggregate;
pub mod calibration;
pub mod prss;
pub mod noise;
pub mod padding;
pub mod keygen;
pub mod messaging;
