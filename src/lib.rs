//! Incremental decoder for the FlySky FS-iA6B receiver's iBus channel stream.

pub mod drive;
pub mod fs_ia6b_driver;
pub mod laws;
mod nonblocking;
pub mod wire;
