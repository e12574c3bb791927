//! A disk panel for a terminal dashboard: per-device I/O counters and
//! per-mount usage figures are joined by device name, differenced against the
//! previous poll, and laid out as a fixed-width table.

pub mod collect;
pub mod device;
pub mod filing;
pub mod frame;
pub mod interval;
pub mod laws;
pub mod listing;
pub mod partition;
pub mod render;
pub mod store;
pub mod text;
pub mod widget;
