//! Fixed-capacity pools of reference-counted kernel objects, and the kernel
//! structures built on them.

pub mod arena;
pub mod array_arena;
pub mod mru_arena;
pub mod inode;
pub mod directory;
pub mod vm;
pub mod path;
