//! Writing disk images to removable drives.
pub mod aligned;
pub mod bplist;
pub mod bytes;
pub mod data_types;
pub mod decimal;
pub mod documents;
pub mod error;
pub mod flasher;
pub mod hashing;
pub mod linux;
pub mod macos;
pub mod markup;
pub mod memory;
pub mod oldstyle;
pub mod order;
pub mod paths;
pub mod runs;
pub mod text;
pub mod udisks;
pub mod utf16;
pub mod volumes;
pub mod watch;
pub mod windows;
pub mod world;
