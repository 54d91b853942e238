//! Verified core of the handheld runtime: gamepad decoding, guided input collection, input
//! maps, shell boundary contracts, and the preference data layer.
pub mod input_collect;
pub mod input_decode;
pub mod input_map;
pub mod keyed;
pub mod ports;
pub mod prefs;
pub mod prefs_port;
pub mod prefsd;
pub mod render;
pub mod scene;
pub mod text;
