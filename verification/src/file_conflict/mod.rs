pub mod types;
pub mod dropbox;
pub mod wuala;
pub mod find;

pub use types::{Conflict, ConflictType, ConflictingFile};
pub use find::find;
