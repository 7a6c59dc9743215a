//! Core of a personal file-library tracker: a canonical, reversible path
//! codec, a dense identifier allocator backed by a growable bitmap, four
//! key/value translators composed into a storage facade, and an
//! invariant-enforcing library layer on top.

pub mod comps_appearance;
pub mod comps_interaction;
pub mod config;
pub mod entity_base;
pub mod id;
pub mod libentity;
pub mod library;
pub mod pcommand;
pub mod progress;
pub mod progress_update;
pub mod storage;
pub mod tag_edit;
pub mod wacommand;

pub use config::Config;
pub use entity_base::{EntityBase, EntityType, Tag};
pub use id::{ID, IDError};
pub use libentity::{LibEntity, LibEntityData};
pub use progress::Progress;
pub use progress_update::{ProgressUpdate, ProgressUpdateError};
