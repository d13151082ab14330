//! Dragging files and tabs: what a drop may do, where it lands and what it leaves behind.
pub mod effects;
pub mod materialize;
pub mod outbound;
pub mod registration;
pub mod staging;
pub mod tab;
pub mod target;
