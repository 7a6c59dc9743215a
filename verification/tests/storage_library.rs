//! The storage facade and the library layer: linking, identifier reuse, and
//! the cross-record invariants, end to end in memory.

use popusk::library::{Library, LibraryError};
use popusk::storage::path_codec::PathIDTError;
use popusk::storage::translator::TranslationError;
use popusk::storage::{Storage, StorageError};
use popusk::{EntityBase, EntityType, LibEntityData, Progress, ID};

fn base(id: ID, name: &str, etype: EntityType) -> EntityBase {
    EntityBase::new(id, name.to_string(), etype, vec![])
}

#[test]
fn storage_end_to_end_with_id_reuse() {
    let mut st = Storage::new_empty();
    let id = st.link_id_to_path(&b"notes/a.txt".to_vec()).unwrap();
    assert_eq!(id, ID(0));
    st.link_entitybase_to_id(id, base(id, "a", EntityType::Regular))
        .unwrap();
    let got = st.get_entitybase(id).unwrap();
    assert_eq!(got.name().as_str(), "a");
    assert_eq!(st.unlink_id_from_path(&b"notes/a.txt".to_vec()).unwrap(), ID(0));
    let id2 = st.link_id_to_path(&b"notes/b.txt".to_vec()).unwrap();
    assert_eq!(id2, ID(0));
}

#[test]
fn storage_get_id_cases() {
    let mut st = Storage::new_empty();
    st.link_id_to_path(&b"x".to_vec()).unwrap();
    assert_eq!(st.get_id(&b"x".to_vec()).unwrap(), Some(ID(0)));
    assert_eq!(st.get_id(&b"y".to_vec()).unwrap(), None);
    assert!(matches!(
        st.get_id(&b"/abs".to_vec()),
        Err(StorageError::PathIDT(PathIDTError::UsingAbsolutePath(_)))
    ));
}

#[test]
fn storage_duplicate_link_leaks_the_grabbed_id() {
    let mut st = Storage::new_empty();
    assert_eq!(st.link_id_to_path(&b"a".to_vec()).unwrap(), ID(0));
    assert!(matches!(
        st.link_id_to_path(&b"a".to_vec()),
        Err(StorageError::PathIDTranslation(TranslationError::AlreadyExists))
    ));
    // the identifier grabbed for the failed link is not returned
    assert_eq!(st.link_id_to_path(&b"b".to_vec()).unwrap(), ID(2));
}

#[test]
fn storage_progress_records() {
    let mut st = Storage::new_empty();
    let id = ID(7);
    assert!(matches!(
        st.update_progress(id, Progress::new(4)),
        Err(StorageError::IDProgressT(TranslationError::DoesNotExist))
    ));
    st.link_progress_to_id(id, Progress::with_passed(1, 4)).unwrap();
    assert!(matches!(
        st.link_progress_to_id(id, Progress::new(4)),
        Err(StorageError::IDProgressT(TranslationError::AlreadyExists))
    ));
    let prev = st.update_progress(id, Progress::with_passed(2, 4)).unwrap();
    assert_eq!(prev.passed(), 1);
    let removed = st.unlink_progress_from_id(id).unwrap();
    assert_eq!(removed.passed(), 2);
    assert!(st.get_progress(id).is_none());
}

#[test]
fn storage_description_records() {
    let mut st = Storage::new_empty();
    let id = ID(3);
    st.link_description_to_id(id, "a note".to_string()).unwrap();
    assert_eq!(st.get_description(id).unwrap().as_str(), "a note");
    assert_eq!(st.unlink_description_from_id(id).unwrap(), "a note");
    assert!(matches!(
        st.unlink_description_from_id(id),
        Err(StorageError::IDDescT(TranslationError::DoesNotExist))
    ));
}

#[test]
fn storage_raw_path_surface() {
    let mut st = Storage::new_empty();
    st.link_id_to_path_raw(&b"p".to_vec(), ID(9)).unwrap();
    assert_eq!(st.get_id(&b"p".to_vec()).unwrap(), Some(ID(9)));
    assert_eq!(st.unlink_id_from_path_raw(&b"p".to_vec()).unwrap(), ID(9));
    // the raw unlink does not release: a fresh link still starts at zero
    assert_eq!(st.link_id_to_path(&b"q".to_vec()).unwrap(), ID(0));
}

#[test]
fn storage_keys_path_lists_tracked_paths() {
    let mut st = Storage::new_empty();
    st.link_id_to_path(&b"a/b".to_vec()).unwrap();
    st.link_id_to_path(&b"c".to_vec()).unwrap();
    let mut listed: Vec<Vec<Vec<u8>>> =
        st.keys_path().into_iter().map(|p| p.components).collect();
    listed.sort();
    assert_eq!(
        listed,
        vec![
            vec![b"a".to_vec(), b"b".to_vec()],
            vec![b"c".to_vec()],
        ]
    );
}

fn document_data(path: &[u8], name: &str, passed: usize, ceiling: usize) -> LibEntityData {
    LibEntityData {
        path: path.to_vec(),
        name: name.to_string(),
        etype: EntityType::Document,
        tags: vec!["tag".to_string()],
        progress: Some(Progress::with_passed(passed, ceiling)),
        description: Some("desc".to_string()),
    }
}

#[test]
fn library_add_get_del_document() {
    let mut lib = Library::new(Storage::new_empty());
    lib.add_libentity(document_data(b"book.pdf", "book", 3, 5)).unwrap();

    let le = lib.get_libentity(&b"book.pdf".to_vec()).unwrap().unwrap();
    assert_eq!(le.id(), ID(0));
    assert_eq!(le.name().as_str(), "book");
    assert_eq!(le.etype(), EntityType::Document);
    assert_eq!(le.tags(), &vec!["tag".to_string()]);
    assert_eq!(le.progress().unwrap().passed(), 3);
    assert_eq!(le.progress().unwrap().ceiling(), 5);
    assert_eq!(le.description().unwrap().as_str(), "desc");

    let deleted = lib.del_libentity(&b"book.pdf".to_vec()).unwrap();
    assert_eq!(deleted.progress().unwrap().passed(), 3);
    assert_eq!(deleted.progress().unwrap().ceiling(), 5);
    assert_eq!(lib.get_progress(ID(0)).unwrap(), None);
    assert!(lib.get_libentity(&b"book.pdf".to_vec()).unwrap().is_none());
}

#[test]
fn library_never_writes_progress_for_a_section() {
    let mut lib = Library::new(Storage::new_empty());
    let data = LibEntityData {
        path: b"chapter".to_vec(),
        name: "chapter".to_string(),
        etype: EntityType::Section,
        tags: vec![],
        progress: Some(Progress::new(9)),
        description: None,
    };
    lib.add_libentity(data).unwrap();
    let id = lib.get_id(&b"chapter".to_vec()).unwrap().unwrap();
    assert_eq!(lib.get_progress(id).unwrap(), None);
    let le = lib.get_libentity(&b"chapter".to_vec()).unwrap().unwrap();
    assert!(le.progress().is_none());
}

#[test]
fn library_id_reuse_after_delete() {
    let mut lib = Library::new(Storage::new_empty());
    lib.add_libentity(document_data(b"a", "a", 0, 1)).unwrap();
    assert_eq!(lib.get_id(&b"a".to_vec()).unwrap(), Some(ID(0)));
    lib.del_libentity(&b"a".to_vec()).unwrap();
    lib.add_libentity(document_data(b"b", "b", 0, 1)).unwrap();
    assert_eq!(lib.get_id(&b"b".to_vec()).unwrap(), Some(ID(0)));
}

#[test]
fn library_update_replaces_in_place() {
    let mut lib = Library::new(Storage::new_empty());
    lib.add_libentity(document_data(b"a", "first", 1, 5)).unwrap();
    let old = lib.update_libentity(document_data(b"a", "second", 2, 5)).unwrap();
    assert_eq!(old.name().as_str(), "first");
    assert_eq!(old.progress().unwrap().passed(), 1);
    let now = lib.get_libentity(&b"a".to_vec()).unwrap().unwrap();
    assert_eq!(now.name().as_str(), "second");
    assert_eq!(now.progress().unwrap().passed(), 2);
}

#[test]
fn library_delete_of_untracked_path_fails() {
    let mut lib = Library::new(Storage::new_empty());
    assert!(matches!(
        lib.del_libentity(&b"missing".to_vec()),
        Err(LibraryError::Storage(StorageError::PathIDTranslation(
            TranslationError::DoesNotExist
        )))
    ));
}

#[test]
fn library_getters_by_id() {
    let mut lib = Library::new(Storage::new_empty());
    lib.add_libentity(document_data(b"x", "xname", 0, 2)).unwrap();
    assert_eq!(lib.get_name(ID(0)).unwrap(), Some("xname".to_string()));
    assert_eq!(lib.get_etype(ID(0)).unwrap(), Some(EntityType::Document));
    assert_eq!(lib.get_tags(ID(0)).unwrap(), Some(vec!["tag".to_string()]));
    assert_eq!(lib.get_description(ID(0)).unwrap(), Some("desc".to_string()));
    let b = lib.get_base(ID(0)).unwrap().unwrap();
    assert_eq!(b.name().as_str(), "xname");
    assert_eq!(lib.get_name(ID(55)).unwrap(), None);
}

#[test]
fn library_surfaces_inconsistency_as_an_error() {
    let mut lib = Library::new(Storage::new_empty());
    // bypass the invariant layer: a path link without an identity record
    lib.storage_mut().link_id_to_path(&b"ghost".to_vec()).unwrap();
    assert!(matches!(
        lib.get_libentity(&b"ghost".to_vec()),
        Err(LibraryError::CouldNotFindElement { .. })
    ));
}

#[test]
fn storage_entitybase_records() {
    let mut st = Storage::new_empty();
    let id = ID(4);
    assert!(matches!(
        st.unlink_entitybase_from_id(id),
        Err(StorageError::IDEntitybaseT(TranslationError::DoesNotExist))
    ));
    st.link_entitybase_to_id(id, base(id, "b", EntityType::Section))
        .unwrap();
    assert!(matches!(
        st.link_entitybase_to_id(id, base(id, "b", EntityType::Section)),
        Err(StorageError::IDEntitybaseT(TranslationError::AlreadyExists))
    ));
    let prev = st
        .update_entitybase(id, base(id, "c", EntityType::Regular))
        .unwrap();
    assert_eq!(prev.name().as_str(), "b");
    let removed = st.unlink_entitybase_from_id(id).unwrap();
    assert_eq!(removed.name().as_str(), "c");
}
