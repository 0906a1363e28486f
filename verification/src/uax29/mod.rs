//! Unicode text segmentation (UAX #29).

pub mod word;
