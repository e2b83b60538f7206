//! Working state of an assignment problem: named categories with bounded
//! capacity, students with ordered preferences and exclusions, a
//! single-editor coordination flag, a gateway to an external matching
//! engine, and a persistence codec with a proved round trip.

pub mod codec;
pub mod editor;
pub mod gateway;
pub mod model;
pub mod prefs;
pub mod store;
