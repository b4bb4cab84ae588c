//! Synthesis of railway infrastructure from a raw network of track segments.
//!
//! The raw network is a list of [`model::Edge`]s that meet at nodes. Each node
//! is resolved into a buffer stop, a link between two track sections, or a
//! switch, by the number of edges that touch it and the number of pairs of
//! them that continue each other in a straight line.
pub mod adjacency;
pub mod branches;
pub mod classify;
pub mod geometry;
pub mod model;
pub mod model_config;
pub mod projects;
pub mod railjson;
pub mod synthesis;
pub mod theorems;
pub mod wiring;
