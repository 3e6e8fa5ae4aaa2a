//! A small driver for terminal-rendered interactive programs: a drift-free
//! periodic trigger, a frame pacer, a drag-aware input filter and the
//! decision core of two loop drivers.
pub mod event;
pub mod filter;
pub mod clock;
pub mod pace;
pub mod driver;
pub mod color;
