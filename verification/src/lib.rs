pub mod adapter;
pub mod bytes;
pub mod interface;
pub mod ram;
pub mod syscall;
