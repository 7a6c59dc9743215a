//! The invariant-enforcing layer: treats an entity as one unit across the
//! four underlying records and keeps the cross-record rules — every tracked
//! path resolves to an identity record, and a progress record exists exactly
//! for document-typed entities.

use vstd::prelude::*;

use crate::comps_interaction::libentity_has_progress;
use crate::entity_base::{clone_tags, EntityBase, EntityType, Tag};
use crate::id::ID;
use crate::libentity::{LibEntity, LibEntityData};
use crate::progress::Progress;
use crate::storage::path_codec::{clone_bytes, spec_path_encodable, spec_path_key};
use crate::storage::translator::TranslationError;
use crate::storage::{Storage, StorageError};

verus! {

/// How a library operation fails: the storage refused, or the records under
/// a tracked path are not consistent with one another.
#[derive(Debug, PartialEq, Eq)]
pub enum LibraryError {
    Storage(StorageError),
    CouldNotFindLibEntity { path: Vec<u8> },
    CouldNotFindElement { element: String, path: Vec<u8> },
    CouldNotFindElementWithID { element: String, id: ID },
}

/// Entity-level operations over a [`Storage`], each one treating the path
/// link, the identity record and the optional progress/description records
/// as one logical unit.
pub struct Library {
    storage: Storage,
}

impl Library {
    /// The underlying store, for contracts.
    pub closed spec fn spec_storage(self) -> Storage {
        self.storage
    }

    /// The cross-record invariant this layer maintains:
    /// tracked identifiers are allocated and pairwise distinct, every
    /// tracked identifier has an identity record and vice versa, a progress
    /// record exists exactly for documents and is well formed, and
    /// descriptions only attach to identifiers that have an identity record.
    pub open spec fn inv(self) -> bool {
        let st = self.spec_storage();
        &&& st.wf()
        &&& forall|k: Seq<u8>|
            #[trigger] st.spec_path_map().contains_key(k) ==> st.spec_allocated(
                st.spec_path_map()[k].0 as int,
            )
        &&& forall|k1: Seq<u8>, k2: Seq<u8>|
            st.spec_path_map().contains_key(k1) && st.spec_path_map().contains_key(k2) && k1 != k2
                ==> (#[trigger] st.spec_path_map()[k1]) != (#[trigger] st.spec_path_map()[k2])
        &&& forall|k: Seq<u8>|
            #[trigger] st.spec_path_map().contains_key(k) ==> st.spec_base_map().contains_key(
                st.spec_path_map()[k].0,
            )
        &&& forall|id: u64|
            #[trigger] st.spec_base_map().contains_key(id) ==> exists|k: Seq<u8>|
                #[trigger] st.spec_path_map().contains_key(k) && st.spec_path_map()[k].0 == id
        &&& forall|id: u64|
            #[trigger] st.spec_prog_map().contains_key(id) ==> st.spec_base_map().contains_key(id)
                && st.spec_base_map()[id].etype is Document
        &&& forall|id: u64|
            #[trigger] st.spec_base_map().contains_key(id) ==> (st.spec_base_map()[
                id
            ].etype is Document ==> st.spec_prog_map().contains_key(id))
        &&& forall|id: u64|
            #[trigger] st.spec_prog_map().contains_key(id) ==> st.spec_prog_map()[id].wf()
        &&& forall|id: u64|
            #[trigger] st.spec_desc_map().contains_key(id) ==> st.spec_base_map().contains_key(id)
    }

    pub fn new(storage: Storage) -> (r: Self)
        ensures
            r.spec_storage() == storage,
    {
        Library { storage }
    }

    /// The entity tracked under `path`, joined from all four records.
    /// An untracked path is `None`; a tracked path whose records are
    /// inconsistent (no identity record, or a document without progress) is
    /// an error, distinct from "not tracked".
    pub fn get_libentity(&self, path: &Vec<u8>) -> (r: Result<Option<LibEntity>, LibraryError>)
        requires
            self.spec_storage().wf(),
        ensures
            ({
                let st = self.spec_storage();
                let key = spec_path_key(path@);
                match r {
                    Ok(Some(le)) => {
                        let id = st.spec_path_map()[key];
                        let base = st.spec_base_map()[id.0];
                        &&& spec_path_encodable(path@)
                        &&& st.spec_path_map().contains_key(key)
                        &&& st.spec_base_map().contains_key(id.0)
                        &&& (base.etype is Document ==> st.spec_prog_map().contains_key(id.0))
                        &&& le@.id == id
                        &&& le@.data.path == path@
                        &&& le@.data.name == base@.name
                        &&& le@.data.etype == base.etype
                        &&& le@.data.tags == base@.tags
                        &&& le@.data.progress == (if base.etype is Document {
                            Some(st.spec_prog_map()[id.0])
                        } else {
                            Option::<Progress>::None
                        })
                        &&& le@.data.description == (if st.spec_desc_map().contains_key(id.0) {
                            Some(st.spec_desc_map()[id.0]@)
                        } else {
                            Option::<Seq<char>>::None
                        })
                    },
                    Ok(None) => spec_path_encodable(path@) && !st.spec_path_map().contains_key(
                        key,
                    ),
                    Err(LibraryError::Storage(StorageError::PathIDT(_))) => !spec_path_encodable(
                        path@,
                    ),
                    Err(LibraryError::CouldNotFindElement { element, path: p }) => {
                        &&& spec_path_encodable(path@)
                        &&& p@ == path@
                        &&& st.spec_path_map().contains_key(key)
                        &&& {
                            let id = st.spec_path_map()[key];
                            ||| !st.spec_base_map().contains_key(id.0)
                            ||| (st.spec_base_map().contains_key(id.0) && st.spec_base_map()[
                                id.0
                            ].etype is Document && !st.spec_prog_map().contains_key(id.0))
                        }
                    },
                    Err(_) => false,
                }
            }),
    {
        let id = match self.storage.get_id(path) {
            Ok(Some(id)) => id,
            Ok(None) => {
                return Ok(None);
            },
            Err(e) => {
                return Err(LibraryError::Storage(e));
            },
        };
        let base = match self.storage.get_entitybase(id) {
            Some(base) => base,
            None => {
                return Err(LibraryError::CouldNotFindElement {
                    element: "entitybase".to_owned(),
                    path: clone_bytes(path),
                });
            },
        };
        let etype = base.etype;
        let progress = if libentity_has_progress(etype) {
            match self.storage.get_progress(id) {
                Some(progress) => Some(progress),
                None => {
                    return Err(LibraryError::CouldNotFindElement {
                        element: "progress".to_owned(),
                        path: clone_bytes(path),
                    });
                },
            }
        } else {
            None
        };
        let description = match self.storage.get_description(id) {
            Some(d) => Some(d.clone()),
            None => None,
        };
        let libentity_data = LibEntityData {
            path: clone_bytes(path),
            name: base.name.clone(),
            etype,
            tags: clone_tags(&base.tags),
            progress,
            description,
        };
        Ok(Some(LibEntity::from_id_data(id, libentity_data)))
    }

    /// The identifier tracked under `path`, if any.
    pub fn get_id(&self, path: &Vec<u8>) -> (r: Result<Option<ID>, LibraryError>)
        requires
            self.spec_storage().wf(),
        ensures
            ({
                let st = self.spec_storage();
                match r {
                    Ok(Some(id)) => spec_path_encodable(path@) && st.spec_path_map().contains_key(
                        spec_path_key(path@),
                    ) && id == st.spec_path_map()[spec_path_key(path@)],
                    Ok(None) => spec_path_encodable(path@) && !st.spec_path_map().contains_key(
                        spec_path_key(path@),
                    ),
                    Err(LibraryError::Storage(StorageError::PathIDT(_))) => !spec_path_encodable(
                        path@,
                    ),
                    Err(_) => false,
                }
            }),
    {
        match self.storage.get_id(path) {
            Ok(v) => Ok(v),
            Err(e) => Err(LibraryError::Storage(e)),
        }
    }

    /// The identifier's progress record, if any.
    pub fn get_progress(&self, id: ID) -> (r: Result<Option<Progress>, LibraryError>)
        requires
            self.spec_storage().wf(),
        ensures
            ({
                let st = self.spec_storage();
                match r {
                    Ok(Some(p)) => st.spec_prog_map().contains_key(id.0) && p
                        == st.spec_prog_map()[id.0],
                    Ok(None) => !st.spec_prog_map().contains_key(id.0),
                    Err(_) => false,
                }
            }),
    {
        Ok(self.storage.get_progress(id))
    }

    /// The identifier's description, if any.
    pub fn get_description(&self, id: ID) -> (r: Result<Option<String>, LibraryError>)
        requires
            self.spec_storage().wf(),
        ensures
            ({
                let st = self.spec_storage();
                match r {
                    Ok(Some(d)) => st.spec_desc_map().contains_key(id.0) && d@
                        == st.spec_desc_map()[id.0]@,
                    Ok(None) => !st.spec_desc_map().contains_key(id.0),
                    Err(_) => false,
                }
            }),
    {
        match self.storage.get_description(id) {
            Some(d) => Ok(Some(d.clone())),
            None => Ok(None),
        }
    }

    /// The identifier's name, if it has an identity record.
    pub fn get_name(&self, id: ID) -> (r: Result<Option<String>, LibraryError>)
        requires
            self.spec_storage().wf(),
        ensures
            ({
                let st = self.spec_storage();
                match r {
                    Ok(Some(n)) => st.spec_base_map().contains_key(id.0) && n@
                        == st.spec_base_map()[id.0]@.name,
                    Ok(None) => !st.spec_base_map().contains_key(id.0),
                    Err(_) => false,
                }
            }),
    {
        match self.storage.get_entitybase(id) {
            Some(base) => Ok(Some(base.name.clone())),
            None => Ok(None),
        }
    }

    /// The identifier's entity type, if it has an identity record.
    pub fn get_etype(&self, id: ID) -> (r: Result<Option<EntityType>, LibraryError>)
        requires
            self.spec_storage().wf(),
        ensures
            ({
                let st = self.spec_storage();
                match r {
                    Ok(Some(t)) => st.spec_base_map().contains_key(id.0) && t
                        == st.spec_base_map()[id.0].etype,
                    Ok(None) => !st.spec_base_map().contains_key(id.0),
                    Err(_) => false,
                }
            }),
    {
        match self.storage.get_entitybase(id) {
            Some(base) => Ok(Some(base.etype)),
            None => Ok(None),
        }
    }

    /// The identifier's tags, if it has an identity record.
    pub fn get_tags(&self, id: ID) -> (r: Result<Option<Vec<Tag>>, LibraryError>)
        requires
            self.spec_storage().wf(),
        ensures
            ({
                let st = self.spec_storage();
                match r {
                    Ok(Some(tags)) => st.spec_base_map().contains_key(id.0) && tags.deep_view()
                        == st.spec_base_map()[id.0]@.tags,
                    Ok(None) => !st.spec_base_map().contains_key(id.0),
                    Err(_) => false,
                }
            }),
    {
        match self.storage.get_entitybase(id) {
            Some(base) => Ok(Some(clone_tags(&base.tags))),
            None => Ok(None),
        }
    }

    /// The identifier's whole identity record, if any.
    pub fn get_base(&self, id: ID) -> (r: Result<Option<EntityBase>, LibraryError>)
        requires
            self.spec_storage().wf(),
        ensures
            ({
                let st = self.spec_storage();
                match r {
                    Ok(Some(b)) => st.spec_base_map().contains_key(id.0) && b@
                        == st.spec_base_map()[id.0]@,
                    Ok(None) => !st.spec_base_map().contains_key(id.0),
                    Err(_) => false,
                }
            }),
    {
        match self.storage.get_entitybase(id) {
            Some(base) => Ok(Some(base.clone())),
            None => Ok(None),
        }
    }


    /// Tracks a new entity: allocates a path link, writes the identity
    /// record, and — for a document — its progress record, plus the optional
    /// description. A document must come with a progress record (caller
    /// contract); a progress value on a section or regular entity never
    /// creates a record. When the path is rejected or already tracked, the
    /// freshly allocated identifier stays out of the pool, as the storage
    /// surface documents.
    pub fn add_libentity(&mut self, libentity_data: LibEntityData) -> (r: Result<
        (),
        LibraryError,
    >)
        requires
            old(self).inv(),
            old(self).spec_storage().spec_can_allocate(),
            libentity_data.etype is Document ==> libentity_data.progress is Some,
            libentity_data.progress is Some ==> libentity_data.progress.unwrap().wf(),
        ensures
            final(self).inv(),
            ({
                let old_st = old(self).spec_storage();
                let st = final(self).spec_storage();
                let key = spec_path_key(libentity_data.path@);
                match r {
                    Ok(()) => spec_path_encodable(libentity_data.path@)
                        && !old_st.spec_path_map().contains_key(key) && (exists|idv: u64|
                        #![auto]
                        {
                            &&& !old_st.spec_allocated(idv as int)
                            &&& (forall|j: int| 0 <= j < idv ==> old_st.spec_allocated(j))
                            &&& (forall|j: int|
                                st.spec_allocated(j) == (old_st.spec_allocated(j) || j
                                    == idv as int))
                            &&& st.spec_path_map() == old_st.spec_path_map().insert(key, ID(idv))
                            &&& st.spec_base_map() == old_st.spec_base_map().insert(
                                idv,
                                EntityBase {
                                    id: ID(idv),
                                    name: libentity_data.name,
                                    etype: libentity_data.etype,
                                    tags: libentity_data.tags,
                                },
                            )
                            &&& st.spec_prog_map() == (if libentity_data.etype is Document {
                                old_st.spec_prog_map().insert(
                                    idv,
                                    libentity_data.progress.unwrap(),
                                )
                            } else {
                                old_st.spec_prog_map()
                            })
                            &&& st.spec_desc_map() == (match libentity_data.description {
                                Some(desc) => old_st.spec_desc_map().insert(idv, desc),
                                None => old_st.spec_desc_map(),
                            })
                        }),
                    Err(LibraryError::Storage(e)) => st.spec_path_map() == old_st.spec_path_map()
                        && st.spec_base_map() == old_st.spec_base_map() && st.spec_prog_map()
                        == old_st.spec_prog_map() && st.spec_desc_map() == old_st.spec_desc_map()
                        && (exists|g: u64|
                        #![auto]
                        !old_st.spec_allocated(g as int) && (forall|j: int|
                            0 <= j < g ==> old_st.spec_allocated(j)) && (forall|j: int|
                            st.spec_allocated(j) == (old_st.spec_allocated(j) || j == g as int)))
                        && match e {
                        StorageError::PathIDT(_) => !spec_path_encodable(libentity_data.path@),
                        StorageError::PathIDTranslation(te) => te
                            == TranslationError::AlreadyExists && spec_path_encodable(
                            libentity_data.path@,
                        ) && old_st.spec_path_map().contains_key(key),
                        _ => false,
                    },
                    Err(_) => false,
                }
            }),
    {
        let LibEntityData { path, name, etype, tags, progress, description } = libentity_data;

        let id = match self.storage.link_id_to_path(&path) {
            Ok(id) => id,
            Err(e) => {
                proof {
                    lemma_inv_after_leak(*old(self), *self);
                }
                return Err(LibraryError::Storage(e));
            },
        };
        proof {
            // the fresh identifier was free, so under the invariant it has
            // no identity, progress or description record
            lemma_fresh_id_unused(*old(self), id);
        }
        let base_res = self.storage.link_entitybase_to_id(
            id,
            EntityBase::new(id, name, etype, tags),
        );
        match base_res {
            Ok(()) => {},
            Err(e) => {
                proof {
                    assert(false);
                }
                return Err(LibraryError::Storage(e));
            },
        }
        if libentity_has_progress(etype) {
            match progress {
                Some(progress) => {
                    match self.storage.link_progress_to_id(id, progress) {
                        Ok(()) => {},
                        Err(e) => {
                            proof {
                                assert(false);
                            }
                            return Err(LibraryError::Storage(e));
                        },
                    }
                },
                None => {
                    proof {
                        assert(false);
                    }
                },
            }
        }
        match description {
            Some(description) => {
                match self.storage.link_description_to_id(id, description) {
                    Ok(()) => {},
                    Err(e) => {
                        proof {
                            assert(false);
                        }
                        return Err(LibraryError::Storage(e));
                    },
                }
            },
            None => {},
        }
        proof {
            lemma_inv_after_add(*old(self), *self, id, libentity_data);
        }
        Ok(())
    }

    /// Untracks the entity under `path`, removing the path link, the
    /// identity record, the progress record of a document, and any
    /// description, and returns the prior aggregate. The identifier goes
    /// back to the allocator for reuse.
    pub fn del_libentity(&mut self, path: &Vec<u8>) -> (r: Result<LibEntity, LibraryError>)
        requires
            old(self).inv(),
        ensures
            final(self).inv(),
            final(self).spec_storage().spec_can_allocate() == old(
                self,
            ).spec_storage().spec_can_allocate(),
            ({
                let old_st = old(self).spec_storage();
                let st = final(self).spec_storage();
                let key = spec_path_key(path@);
                match r {
                    Ok(le) => {
                        let oldid = old_st.spec_path_map()[key];
                        let base = old_st.spec_base_map()[oldid.0];
                        &&& spec_path_encodable(path@)
                        &&& old_st.spec_path_map().contains_key(key)
                        &&& le@.id == oldid
                        &&& le@.data.path == path@
                        &&& le@.data.name == base@.name
                        &&& le@.data.etype == base.etype
                        &&& le@.data.tags == base@.tags
                        &&& le@.data.progress == (if base.etype is Document {
                            Some(old_st.spec_prog_map()[oldid.0])
                        } else {
                            Option::<Progress>::None
                        })
                        &&& le@.data.description == (if old_st.spec_desc_map().contains_key(
                            oldid.0,
                        ) {
                            Some(old_st.spec_desc_map()[oldid.0]@)
                        } else {
                            Option::<Seq<char>>::None
                        })
                        &&& st.spec_path_map() == old_st.spec_path_map().remove(key)
                        &&& st.spec_base_map() == old_st.spec_base_map().remove(oldid.0)
                        &&& st.spec_prog_map() == (if base.etype is Document {
                            old_st.spec_prog_map().remove(oldid.0)
                        } else {
                            old_st.spec_prog_map()
                        })
                        &&& st.spec_desc_map() == (if old_st.spec_desc_map().contains_key(
                            oldid.0,
                        ) {
                            old_st.spec_desc_map().remove(oldid.0)
                        } else {
                            old_st.spec_desc_map()
                        })
                        &&& (forall|j: int|
                            st.spec_allocated(j) == (old_st.spec_allocated(j) && j
                                != oldid.0 as int))
                    },
                    Err(LibraryError::Storage(StorageError::PathIDT(_))) => !spec_path_encodable(
                        path@,
                    ) && *final(self) == *old(self),
                    Err(LibraryError::Storage(StorageError::PathIDTranslation(te))) => te
                        == TranslationError::DoesNotExist && spec_path_encodable(path@)
                        && !old_st.spec_path_map().contains_key(key) && *final(self) == *old(
                        self,
                    ),
                    Err(_) => false,
                }
            }),
    {
        let id = match self.storage.unlink_id_from_path(path) {
            Ok(id) => id,
            Err(e) => {
                return Err(LibraryError::Storage(e));
            },
        };
        proof {
            lemma_tracked_id_records(*old(self), id, spec_path_key(path@));
        }
        let base = match self.storage.unlink_entitybase_from_id(id) {
            Ok(base) => base,
            Err(e) => {
                proof {
                    assert(false);
                }
                return Err(LibraryError::Storage(e));
            },
        };
        let etype = base.etype;
        let progress = if libentity_has_progress(etype) {
            match self.storage.unlink_progress_from_id(id) {
                Ok(p) => Some(p),
                Err(e) => {
                    proof {
                        assert(false);
                    }
                    return Err(LibraryError::Storage(e));
                },
            }
        } else {
            None
        };
        let has_desc = match self.storage.get_description(id) {
            Some(_) => true,
            None => false,
        };
        let description = if has_desc {
            match self.storage.unlink_description_from_id(id) {
                Ok(d) => Some(d),
                Err(e) => {
                    proof {
                        assert(false);
                    }
                    return Err(LibraryError::Storage(e));
                },
            }
        } else {
            None
        };
        let (_, name, etype, tags) = base.destruct();
        let libentity_data = LibEntityData {
            path: clone_bytes(path),
            progress,
            description,
            name,
            etype,
            tags,
        };
        proof {
            lemma_inv_after_del(*old(self), *self, id, spec_path_key(path@));
        }
        Ok(LibEntity::from_id_data(id, libentity_data))
    }

    /// Replaces the entity under a path: deletes it and adds the new data
    /// under the same path, returning the old aggregate. The fresh link gets
    /// the lowest identifier free after the old one is released, which need
    /// not be the old identifier.
    pub fn update_libentity(&mut self, new_libentity_data: LibEntityData) -> (r: Result<
        LibEntity,
        LibraryError,
    >)
        requires
            old(self).inv(),
            old(self).spec_storage().spec_can_allocate(),
            new_libentity_data.etype is Document ==> new_libentity_data.progress is Some,
            new_libentity_data.progress is Some ==> new_libentity_data.progress.unwrap().wf(),
        ensures
            final(self).inv(),
            ({
                let old_st = old(self).spec_storage();
                let st = final(self).spec_storage();
                let key = spec_path_key(new_libentity_data.path@);
                match r {
                    Ok(le) => {
                        let oldid = old_st.spec_path_map()[key];
                        let base = old_st.spec_base_map()[oldid.0];
                        &&& spec_path_encodable(new_libentity_data.path@)
                        &&& old_st.spec_path_map().contains_key(key)
                        &&& le@.id == oldid
                        &&& le@.data.path == new_libentity_data.path@
                        &&& le@.data.name == base@.name
                        &&& le@.data.etype == base.etype
                        &&& le@.data.tags == base@.tags
                        &&& le@.data.progress == (if base.etype is Document {
                            Some(old_st.spec_prog_map()[oldid.0])
                        } else {
                            Option::<Progress>::None
                        })
                        &&& le@.data.description == (if old_st.spec_desc_map().contains_key(
                            oldid.0,
                        ) {
                            Some(old_st.spec_desc_map()[oldid.0]@)
                        } else {
                            Option::<Seq<char>>::None
                        })
                        &&& st.spec_path_map().contains_key(key)
                        &&& {
                            let newid = st.spec_path_map()[key];
                            &&& st.spec_path_map() == old_st.spec_path_map().remove(key).insert(
                                key,
                                newid,
                            )
                            &&& st.spec_base_map() == old_st.spec_base_map().remove(
                                oldid.0,
                            ).insert(
                                newid.0,
                                EntityBase {
                                    id: newid,
                                    name: new_libentity_data.name,
                                    etype: new_libentity_data.etype,
                                    tags: new_libentity_data.tags,
                                },
                            )
                            &&& (forall|j: int|
                                st.spec_allocated(j) == ((old_st.spec_allocated(j) && j
                                    != oldid.0 as int) || j == newid.0 as int))
                            &&& (forall|j: int|
                                0 <= j < newid.0 ==> old_st.spec_allocated(j) && j
                                    != oldid.0 as int)
                            &&& {
                                let progmid = if base.etype is Document {
                                    old_st.spec_prog_map().remove(oldid.0)
                                } else {
                                    old_st.spec_prog_map()
                                };
                                st.spec_prog_map() == (
                                if new_libentity_data.etype is Document {
                                    progmid.insert(
                                        newid.0,
                                        new_libentity_data.progress.unwrap(),
                                    )
                                } else {
                                    progmid
                                })
                            }
                            &&& {
                                let descmid = if old_st.spec_desc_map().contains_key(oldid.0) {
                                    old_st.spec_desc_map().remove(oldid.0)
                                } else {
                                    old_st.spec_desc_map()
                                };
                                st.spec_desc_map() == (match new_libentity_data.description {
                                    Some(d) => descmid.insert(newid.0, d),
                                    None => descmid,
                                })
                            }
                        }
                    },
                    Err(LibraryError::Storage(StorageError::PathIDT(_))) => !spec_path_encodable(
                        new_libentity_data.path@,
                    ) && *final(self) == *old(self),
                    Err(LibraryError::Storage(StorageError::PathIDTranslation(te))) => te
                        == TranslationError::DoesNotExist && spec_path_encodable(
                        new_libentity_data.path@,
                    ) && !old_st.spec_path_map().contains_key(key) && *final(self) == *old(self),
                    Err(_) => false,
                }
            }),
    {
        let old_libentity = match self.del_libentity(&new_libentity_data.path) {
            Ok(le) => le,
            Err(e) => {
                return Err(e);
            },
        };
        match self.add_libentity(new_libentity_data) {
            Ok(()) => {},
            Err(e) => {
                proof {
                    assert(false);
                }
                return Err(e);
            },
        }
        Ok(old_libentity)
    }

    /// The raw storage, bypassing this layer's invariants. Callers opt into
    /// the low-level surface explicitly.
    pub fn storage(&self) -> (r: &Storage)
        ensures
            *r == self.spec_storage(),
    {
        &self.storage
    }

    /// Mutable access to the raw storage, bypassing this layer's invariants.
    pub fn storage_mut(&mut self) -> (r: &mut Storage)
        ensures
            *r == old(self).spec_storage(),
            final(self).spec_storage() == *final(r),
    {
        &mut self.storage
    }
}


/// A failed path link leaves the maps alone and only widens the allocated
/// set, so the invariant survives the leaked identifier.
proof fn lemma_inv_after_leak(pre: Library, post: Library)
    requires
        pre.inv(),
        post.spec_storage().wf(),
        post.spec_storage().spec_path_map() == pre.spec_storage().spec_path_map(),
        post.spec_storage().spec_base_map() == pre.spec_storage().spec_base_map(),
        post.spec_storage().spec_prog_map() == pre.spec_storage().spec_prog_map(),
        post.spec_storage().spec_desc_map() == pre.spec_storage().spec_desc_map(),
        forall|j: int|
            pre.spec_storage().spec_allocated(j) ==> post.spec_storage().spec_allocated(j),
    ensures
        post.inv(),
{
    let ps = pre.spec_storage();
    let qs = post.spec_storage();
    assert forall|k: Seq<u8>| #[trigger] qs.spec_path_map().contains_key(k) implies qs.spec_allocated(
        qs.spec_path_map()[k].0 as int,
    ) by {
        assert(ps.spec_path_map().contains_key(k));
    }
}

/// A free identifier has no record of any kind and no path points at it.
proof fn lemma_fresh_id_unused(pre: Library, id: ID)
    requires
        pre.inv(),
        !pre.spec_storage().spec_allocated(id.0 as int),
    ensures
        !pre.spec_storage().spec_base_map().contains_key(id.0),
        !pre.spec_storage().spec_prog_map().contains_key(id.0),
        !pre.spec_storage().spec_desc_map().contains_key(id.0),
        forall|k: Seq<u8>|
            #[trigger] pre.spec_storage().spec_path_map().contains_key(k)
                ==> pre.spec_storage().spec_path_map()[k] != id,
{
    let st = pre.spec_storage();
    if st.spec_base_map().contains_key(id.0) {
        let k = choose|k: Seq<u8>|
            #[trigger] st.spec_path_map().contains_key(k) && st.spec_path_map()[k].0 == id.0;
        assert(st.spec_allocated(st.spec_path_map()[k].0 as int));
    }
    assert forall|k: Seq<u8>| #[trigger] st.spec_path_map().contains_key(k) implies st.spec_path_map()[
        k
    ] != id by {
        assert(st.spec_allocated(st.spec_path_map()[k].0 as int));
    }
}

/// Under the invariant, a tracked identifier has an identity record, and a
/// progress record exactly when it is a document.
proof fn lemma_tracked_id_records(pre: Library, id: ID, key: Seq<u8>)
    requires
        pre.inv(),
        pre.spec_storage().spec_path_map().contains_key(key),
        pre.spec_storage().spec_path_map()[key] == id,
    ensures
        pre.spec_storage().spec_base_map().contains_key(id.0),
        pre.spec_storage().spec_base_map()[id.0].etype is Document
            <==> pre.spec_storage().spec_prog_map().contains_key(id.0),
{
    let st = pre.spec_storage();
    assert(st.spec_base_map().contains_key(st.spec_path_map()[key].0));
}

/// Adding a complete entity under a fresh identifier keeps the invariant.
proof fn lemma_inv_after_add(pre: Library, post: Library, id: ID, data: LibEntityData)
    requires
        pre.inv(),
        post.spec_storage().wf(),
        !pre.spec_storage().spec_allocated(id.0 as int),
        spec_path_encodable(data.path@),
        !pre.spec_storage().spec_path_map().contains_key(spec_path_key(data.path@)),
        forall|j: int|
            post.spec_storage().spec_allocated(j) == (pre.spec_storage().spec_allocated(j) || j
                == id.0 as int),
        post.spec_storage().spec_path_map() == pre.spec_storage().spec_path_map().insert(
            spec_path_key(data.path@),
            id,
        ),
        post.spec_storage().spec_base_map() == pre.spec_storage().spec_base_map().insert(
            id.0,
            EntityBase { id, name: data.name, etype: data.etype, tags: data.tags },
        ),
        post.spec_storage().spec_prog_map() == (if data.etype is Document {
            pre.spec_storage().spec_prog_map().insert(id.0, data.progress.unwrap())
        } else {
            pre.spec_storage().spec_prog_map()
        }),
        data.etype is Document ==> data.progress is Some && data.progress.unwrap().wf(),
        post.spec_storage().spec_desc_map() == (match data.description {
            Some(d) => pre.spec_storage().spec_desc_map().insert(id.0, d),
            None => pre.spec_storage().spec_desc_map(),
        }),
    ensures
        post.inv(),
{
    let ps = pre.spec_storage();
    let qs = post.spec_storage();
    let key = spec_path_key(data.path@);
    lemma_fresh_id_unused(pre, id);
    assert forall|k: Seq<u8>| #[trigger] qs.spec_path_map().contains_key(k) implies qs.spec_allocated(
        qs.spec_path_map()[k].0 as int,
    ) && qs.spec_base_map().contains_key(qs.spec_path_map()[k].0) by {
        if k != key {
            assert(ps.spec_path_map().contains_key(k));
            assert(ps.spec_path_map()[k] != id);
        }
    }
    assert forall|k1: Seq<u8>, k2: Seq<u8>|
        qs.spec_path_map().contains_key(k1) && qs.spec_path_map().contains_key(k2) && k1
            != k2 implies (#[trigger] qs.spec_path_map()[k1]) != (#[trigger] qs.spec_path_map()[
        k2
    ]) by {
        if k1 != key && k2 != key {
            assert(ps.spec_path_map().contains_key(k1));
            assert(ps.spec_path_map().contains_key(k2));
        } else if k1 == key {
            assert(ps.spec_path_map().contains_key(k2));
            assert(ps.spec_path_map()[k2] != id);
        } else {
            assert(ps.spec_path_map().contains_key(k1));
            assert(ps.spec_path_map()[k1] != id);
        }
    }
    assert forall|p: u64| #[trigger] qs.spec_base_map().contains_key(p) implies exists|k: Seq<u8>|
        #[trigger] qs.spec_path_map().contains_key(k) && qs.spec_path_map()[k].0 == p by {
        if p == id.0 {
            assert(qs.spec_path_map().contains_key(key) && qs.spec_path_map()[key].0 == p);
        } else {
            assert(ps.spec_base_map().contains_key(p));
            let k = choose|k: Seq<u8>|
                #[trigger] ps.spec_path_map().contains_key(k) && ps.spec_path_map()[k].0 == p;
            assert(qs.spec_path_map().contains_key(k) && qs.spec_path_map()[k].0 == p);
        }
    }
    assert forall|p: u64| #[trigger] qs.spec_prog_map().contains_key(p) implies qs.spec_base_map().contains_key(
        p,
    ) && qs.spec_base_map()[p].etype is Document && qs.spec_prog_map()[p].wf() by {
        if p != id.0 {
            assert(ps.spec_prog_map().contains_key(p));
            assert(ps.spec_base_map().contains_key(p));
        }
    }
    assert forall|p: u64|
        #[trigger] qs.spec_base_map().contains_key(p) && qs.spec_base_map()[
            p
        ].etype is Document implies qs.spec_prog_map().contains_key(p) by {
        if p != id.0 {
            assert(ps.spec_base_map().contains_key(p));
        }
    }
    assert forall|p: u64| #[trigger] qs.spec_desc_map().contains_key(p) implies qs.spec_base_map().contains_key(
        p,
    ) by {
        if p != id.0 {
            assert(ps.spec_desc_map().contains_key(p));
        }
    }
}

/// Deleting an entity whole keeps the invariant.
proof fn lemma_inv_after_del(pre: Library, post: Library, id: ID, key: Seq<u8>)
    requires
        pre.inv(),
        post.spec_storage().wf(),
        pre.spec_storage().spec_path_map().contains_key(key),
        pre.spec_storage().spec_path_map()[key] == id,
        post.spec_storage().spec_path_map() == pre.spec_storage().spec_path_map().remove(key),
        post.spec_storage().spec_base_map() == pre.spec_storage().spec_base_map().remove(id.0),
        post.spec_storage().spec_prog_map() == (if pre.spec_storage().spec_base_map()[
            id.0
        ].etype is Document {
            pre.spec_storage().spec_prog_map().remove(id.0)
        } else {
            pre.spec_storage().spec_prog_map()
        }),
        post.spec_storage().spec_desc_map() == (if pre.spec_storage().spec_desc_map().contains_key(
            id.0,
        ) {
            pre.spec_storage().spec_desc_map().remove(id.0)
        } else {
            pre.spec_storage().spec_desc_map()
        }),
        forall|j: int|
            post.spec_storage().spec_allocated(j) == (pre.spec_storage().spec_allocated(j) && j
                != id.0 as int),
    ensures
        post.inv(),
{
    let ps = pre.spec_storage();
    let qs = post.spec_storage();
    assert forall|k: Seq<u8>| #[trigger] qs.spec_path_map().contains_key(k) implies qs.spec_allocated(
        qs.spec_path_map()[k].0 as int,
    ) && qs.spec_base_map().contains_key(qs.spec_path_map()[k].0) by {
        assert(ps.spec_path_map().contains_key(k));
        assert(k != key);
        assert(ps.spec_path_map()[k] != ps.spec_path_map()[key]);
        assert(ps.spec_path_map()[k].0 != id.0);
    }
    assert forall|p: u64| #[trigger] qs.spec_base_map().contains_key(p) implies exists|k: Seq<u8>|
        #[trigger] qs.spec_path_map().contains_key(k) && qs.spec_path_map()[k].0 == p by {
        assert(ps.spec_base_map().contains_key(p));
        assert(p != id.0);
        let k = choose|k: Seq<u8>|
            #[trigger] ps.spec_path_map().contains_key(k) && ps.spec_path_map()[k].0 == p;
        assert(k != key);
        assert(qs.spec_path_map().contains_key(k) && qs.spec_path_map()[k].0 == p);
    }
    assert forall|p: u64| #[trigger] qs.spec_prog_map().contains_key(p) implies qs.spec_base_map().contains_key(
        p,
    ) && qs.spec_base_map()[p].etype is Document && qs.spec_prog_map()[p].wf() by {
        assert(ps.spec_prog_map().contains_key(p));
        assert(p != id.0);
        assert(ps.spec_base_map().contains_key(p));
    }
    assert forall|p: u64|
        #[trigger] qs.spec_base_map().contains_key(p) && qs.spec_base_map()[
            p
        ].etype is Document implies qs.spec_prog_map().contains_key(p) by {
        assert(ps.spec_base_map().contains_key(p));
        assert(p != id.0);
        assert(ps.spec_prog_map().contains_key(p));
    }
    assert forall|p: u64| #[trigger] qs.spec_desc_map().contains_key(p) implies qs.spec_base_map().contains_key(
        p,
    ) by {
        assert(ps.spec_desc_map().contains_key(p));
        assert(p != id.0);
    }
}

} // verus!
