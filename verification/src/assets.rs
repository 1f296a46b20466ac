//! Data tables that the renderer draws from.
pub mod icons;
