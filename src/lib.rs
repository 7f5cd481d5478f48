//! Game-card ROM access for the DS slot: KEY1 key schedule and block cipher,
//! overlay-aware cartridge contents, the command state machine and the icon
//! decoder.
pub mod bytes;
pub mod contents;
pub mod icon;
pub mod key1;
pub mod normal;
pub mod secure;
