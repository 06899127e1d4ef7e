//! Randomized Unix directory-tree fixtures.
//!
//! A [`DirBuilder`] consumes a finite stream of decision bytes and plans a
//! small tree of files, directories, special files and links; the plan's path
//! safety and link invariants are stated and proved here. A companion
//! snapshot normalizer turns a listing of an existing tree into a canonical,
//! comparable record sequence with densely remapped inode numbers.

pub mod draws;
pub mod order;
pub mod plan;
pub mod paths;
pub mod snapshot;
pub mod types;

pub use types::DirBuilder;
pub use types::FileInfo;
pub use types::FileType;
pub use types::GenError;
pub use types::Metadata;
