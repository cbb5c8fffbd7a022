//! Package inventory reconciliation and filtering.
//!
//! The library merges what a device reports about its packages with a
//! classification catalog into one row per package, derives the rows that a
//! filter selection makes visible, and settles remove and restore actions
//! once the device has confirmed them.

pub mod text;
pub mod model;
pub mod order;
pub mod catalog;
pub mod inventory;
pub mod selection;
pub mod dispatch;
pub mod list;
pub mod laws;
