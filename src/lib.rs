pub mod bitmap;
pub mod context;
pub mod graph;
pub mod id;
pub mod laws;
pub mod lifecycle;
pub mod lists;
pub mod merge;
pub mod patch;
pub mod process;
pub mod state;
pub mod store;
pub mod universe;
pub mod version;

pub use context::Context;
pub use graph::GraphEvent;
pub use id::{AsBase64Url, FromBase64Url, IdError, Lid, Luid, Slid, Uuid, Vlid, NIL_UUID};
pub use lists::{Derivations, LuidList, UuidList};
pub use merge::MergeError;
pub use patch::{AdditionKind, ContextPatch, Patch, UuidSetPatch};
pub use process::process_patch;
pub use state::{StateError, TotalState};
pub use store::{patch_file_name, patch_uuid_from_file_name, CommitRefError, FileNameError};
pub use universe::{insert_uuid, lookup_uuid, new_universe, resolve_luid, Universe};
pub use version::Version;
