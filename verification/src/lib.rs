//! Scans region archives for container items that carry one of a fixed set of
//! enchantments, and remembers the outcome per content fingerprint.

pub mod cache;
pub mod decode;
pub mod fingerprint;
pub mod matcher;
pub mod nbt;
pub mod pool;
pub mod record;
pub mod region;
pub mod scan;
