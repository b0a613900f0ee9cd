//! Replay engine for recorded NMEA 0183 navigation logs.
//!
//! The library decodes a fixed subset of NMEA sentences (time, position,
//! course/speed, wind, depth), keeps a snapshot of the latest decoded
//! navigation values, and computes the sleep needed to replay a recording
//! at its original cadence.  All numeric navigation values are held as
//! fixed-point integers in micro-units (one millionth of a degree, knot or
//! meter), so that every decoding and pacing rule is stated and proved
//! exactly.  Reading the log file, reading the wall clock and the UDP
//! broadcast itself are left to the caller, which feeds lines and clock
//! readings in and performs the sends.

pub mod num;
pub mod split;
pub mod datetime;
pub mod decode;
pub mod state;
pub mod clock;
pub mod net;
pub mod player;
