//! Runtime support: hot-reload module manager, arena memory and FFI.
pub mod module;
pub mod memory;
pub mod ffi;
