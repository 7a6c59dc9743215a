//! The entity aggregate, its mutators, and the remaining value types.

use popusk::config::Config;
use popusk::library::{Library, LibraryError};
use popusk::pcommand::{AddLibentityPCMD, ChangeProgressPCMD, ListMode, ListPCMD, StatusPCMD};
use popusk::storage::path_codec::PathIDTError;
use popusk::storage::{Storage, StorageError};
use popusk::wacommand::{InitWACMD, UpdateWAPCMD};
use popusk::{EntityType, LibEntity, LibEntityData, Progress, ProgressUpdate, ID};

fn sample_data() -> LibEntityData {
    LibEntityData {
        path: b"d/e.pdf".to_vec(),
        name: "e".to_string(),
        etype: EntityType::Document,
        tags: vec!["t1".to_string()],
        progress: Some(Progress::with_passed(1, 4)),
        description: None,
    }
}

#[test]
fn libentity_accessors_and_mutators() {
    let mut le = LibEntity::from_id_data(ID(5), sample_data());
    assert_eq!(le.id(), ID(5));
    assert_eq!(le.path(), &b"d/e.pdf".to_vec());
    assert_eq!(le.etype(), EntityType::Document);
    le.set_id(ID(6));
    assert_eq!(le.id(), ID(6));
    le.set_etype(EntityType::Regular);
    assert_eq!(le.etype(), EntityType::Regular);
    *le.name_mut() = "renamed".to_string();
    assert_eq!(le.name().as_str(), "renamed");
    le.tags_mut().push("t2".to_string());
    assert_eq!(le.tags(), &vec!["t1".to_string(), "t2".to_string()]);
    if let Some(p) = le.progress_mut() {
        p.forward_by(1);
    }
    assert_eq!(le.progress().unwrap().passed(), 2);
    assert!(le.description().is_none());
    assert!(le.description_mut().is_none());
}

#[test]
fn library_update_of_untracked_path_fails() {
    let mut lib = Library::new(Storage::new_empty());
    assert!(matches!(
        lib.update_libentity(sample_data()),
        Err(LibraryError::Storage(_))
    ));
}

#[test]
fn library_rejects_unencodable_paths() {
    let lib = Library::new(Storage::new_empty());
    assert!(matches!(
        lib.get_libentity(&b"/absolute".to_vec()),
        Err(LibraryError::Storage(StorageError::PathIDT(
            PathIDTError::UsingAbsolutePath(_)
        )))
    ));
}

#[test]
fn empty_store_lists_nothing() {
    let st = Storage::new_empty();
    assert!(st.keys_path().is_empty());
}

#[test]
fn config_holds_its_fields() {
    let c = Config::new(vec!["pdf".to_string()], vec!["viewer".to_string()]);
    assert_eq!(c.document_extension(), &vec!["pdf".to_string()]);
    assert_eq!(c.viewer(), &vec!["viewer".to_string()]);
}

#[test]
fn command_bundles_carry_their_arguments() {
    let add = AddLibentityPCMD::new(b"p".to_vec(), Some("n".to_string()), None, Some(3));
    assert_eq!(add.path, b"p".to_vec());
    assert_eq!(add.prog_ceil, Some(3));
    let ch = ChangeProgressPCMD::new(ID(1), ProgressUpdate::Increase(2));
    assert_eq!(ch.progress_update, ProgressUpdate::Increase(2));
    assert_eq!(ListPCMD::new(ListMode::wide(true)).mode, ListMode::Wide);
    assert_eq!(ListPCMD::new(ListMode::wide(false)).mode, ListMode::Narrow);
    assert_eq!(InitWACMD::new(), InitWACMD);
    assert_eq!(UpdateWAPCMD::new(), UpdateWAPCMD);
    let st = StatusPCMD::new(false, None);
    assert_eq!(st.ignore, vec!["".to_string()]);
    assert!(st.hide_hidden());
}
