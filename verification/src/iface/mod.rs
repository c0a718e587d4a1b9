//! Network interfaces.
pub mod duty_laws;
pub mod egress_laws;
pub mod groups;
pub mod laws;
pub mod lemmas;
pub mod model;
pub mod multicast;
