//! The clusters that commission a node.

pub mod failsafe;
pub mod general_commissioning;
