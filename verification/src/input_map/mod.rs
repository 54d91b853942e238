//! Effective input maps, transactional remapping and glyph resolution over a device's
//! shell-input contract. Policy and persistence logic live here; reading devices, parsing the
//! contract's JSON and touching the filesystem do not.
pub mod binding;
pub mod contract;
pub mod effective;
pub mod engine;
pub mod persist;
