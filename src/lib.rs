//! Decoding of a radio-control receiver's serial frame stream and the
//! calibration of its raw channels into control values.

pub mod rc;
pub mod sbus;
