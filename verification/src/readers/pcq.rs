//! Pfaff PCQ: the PCD layout (read by the PCD decoder).

pub use crate::readers::pcd::read;
