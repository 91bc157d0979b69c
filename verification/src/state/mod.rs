//! State containers shared between solver runs.

pub mod shared;
