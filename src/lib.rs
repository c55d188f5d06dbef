//! A minimal persistent filesystem engine over a flat, byte-addressable image.
//!
//! The image begins with a superblock that holds the allocator's state; every
//! other record is a node (fixed attributes, a length-prefixed name and, for
//! regular files, raw content) at a 512-byte aligned address. Directories are
//! rebuilt from the `first_child` / `next_sibling` links stored in each node.
pub mod codec;
pub mod disk;
pub mod error;
pub mod fs;
pub mod layout;
pub mod meta;
pub mod node;
pub mod util;
