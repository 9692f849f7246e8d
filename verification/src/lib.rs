//! Scaffold-to-spec clustering and Pinocchio program adaptation, verified with Verus.

pub mod cluster;
pub mod clustering;
mod outside;
pub mod pinocchio_adapt;
pub mod template;
pub mod text;
