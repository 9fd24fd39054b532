//! Verified core of a FAT-over-USB-mass-storage driver: the error code
//! namespace, the MBR parser, the single-block write-back cache that turns a
//! block device into a seekable byte stream, the handle registry, and the
//! decisions of the mount lifecycle.

pub mod error;
pub mod block;

pub mod offset_device;
pub mod mbr;
pub mod mount;
pub mod filesystem;
pub mod registry;
pub mod paths;
pub mod buffers;
pub mod usb;
