//! Storage and metadata core for firmware builds of a vintage set-top platform.
//!
//! The storage backends present raw ROM images, stripped chip pairs, compressed
//! hunk containers and NAND flash dumps as one logical byte stream; the build
//! metadata parser locates and checksums the builds inside that stream; the
//! serial identifier codec reads, checks and generates 8-byte box identifiers.
//! Files themselves are read and written by the caller: the backends hold the
//! bytes of an image and hand back the bytes to store.

pub mod buildio;
pub mod bytes;
pub mod romio;
pub mod diskio;
pub mod flashdiskio;
pub mod buildmeta;
pub mod ssid;
