//! Level content helpers.

pub mod visuals;
