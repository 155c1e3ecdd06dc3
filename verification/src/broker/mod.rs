//! The broker: what a connection's frames do.

pub mod accept;
pub mod laws;
pub mod model;
pub mod service;
pub mod session;
pub mod startup;
pub mod writer;
