//! The storage facade: four translators (path to identifier, identifier to
//! identity record, progress record, description) and the identifier
//! allocator, composed over one working directory. This layer checks
//! nothing across records: it is the explicit low-level surface, and the
//! library layer on top enforces the cross-record invariants.

pub mod available_id_list;
pub mod path_codec;
pub mod translator;

use vstd::prelude::*;

use crate::entity_base::EntityBase;
use crate::id::{parse_u64_dec, spec_dec_digits, spec_dec_value, spec_parses_as_u64, ID, IDError};
use crate::progress::Progress;
use crate::storage::available_id_list::{spec_bit_set, AvailableIDList, BLOCK_SIZE, MAX_BYTES};
use crate::storage::path_codec::{
    deserialize_spf, spec_decode, spec_path_encodable, spec_path_key, standart_path_form,
    NormalizedPath, PathIDTError,
};
use crate::storage::translator::{TranslationError, Translations};

verus! {

/// Name of the working directory that holds every sub-store; the leading
/// dot keeps it hidden.
pub const DEFAULT_WORKING_DIR: &'static str = ".popusk";

/// The path-keyed store: encoded path to identifier.
pub type PathIdTranslator = Translations<Vec<u8>, ID>;

/// Identifier to identity record.
pub type IDEntitybaseTranslator = Translations<u64, EntityBase>;

/// Identifier to progress record.
pub type IDProgressTranslator = Translations<u64, Progress>;

/// Identifier to description.
pub type IDDescriptionTranslator = Translations<u64, String>;

/// The file name under which an identifier-keyed record is stored: the
/// identifier's decimal form.
pub fn filename_from_id(id: ID) -> (r: String)
    ensures
        r@ == spec_dec_digits(id.0 as nat),
{
    id.to_dec_string()
}

/// Reads an identifier back from such a file name.
pub fn id_from_filename(s: &str) -> (r: Result<ID, IDError>)
    ensures
        match r {
            Ok(id) => spec_parses_as_u64(s@) && id.0 == spec_dec_value(s@),
            Err(_) => !spec_parses_as_u64(s@),
        },
{
    match parse_u64_dec(s) {
        Ok(v) => Ok(ID(v)),
        Err(e) => Err(e),
    }
}

/// Which sub-store refused, and how.
#[derive(Debug, Clone, PartialEq, Eq)]
pub enum StorageError {
    /// The raw path has no storage key.
    PathIDT(PathIDTError),
    /// The path-to-identifier store refused.
    PathIDTranslation(TranslationError),
    /// The identity-record store refused.
    IDEntitybaseT(TranslationError),
    /// The progress store refused.
    IDProgressT(TranslationError),
    /// The description store refused.
    IDDescT(TranslationError),
}

/// Whether `p` is the decoded form of some key tracked by `m`.
pub open spec fn spec_is_decoded_tracked(m: Map<Seq<u8>, ID>, p: Seq<Seq<u8>>) -> bool {
    exists|k: Seq<u8>| #![auto] m.contains_key(k) && p == spec_decode(k)
}

/// The composed store. Mutations touch exactly the sub-store named; nothing
/// here keeps the four mappings consistent with one another.
pub struct Storage {
    path_id_translator: PathIdTranslator,
    id_entitybase_translator: IDEntitybaseTranslator,
    id_progress_translator: IDProgressTranslator,
    id_description_translator: IDDescriptionTranslator,
    ail: AvailableIDList,
}

impl Storage {
    pub closed spec fn spec_path_map(self) -> Map<Seq<u8>, ID> {
        self.path_id_translator.spec_map()
    }

    pub closed spec fn spec_base_map(self) -> Map<u64, EntityBase> {
        self.id_entitybase_translator.spec_map()
    }

    pub closed spec fn spec_prog_map(self) -> Map<u64, Progress> {
        self.id_progress_translator.spec_map()
    }

    pub closed spec fn spec_desc_map(self) -> Map<u64, String> {
        self.id_description_translator.spec_map()
    }

    /// Whether the allocator has `id` out.
    pub closed spec fn spec_allocated(self, id: int) -> bool {
        self.ail.spec_allocated(id)
    }

    pub closed spec fn wf(self) -> bool {
        &&& self.path_id_translator.wf()
        &&& self.id_entitybase_translator.wf()
        &&& self.id_progress_translator.wf()
        &&& self.id_description_translator.wf()
        &&& self.ail.wf()
    }

    /// The allocator still has room to grow by one block, so an allocation
    /// cannot run out of indexable bits.
    pub closed spec fn spec_can_allocate(self) -> bool {
        self.ail.spec_byte_count() + BLOCK_SIZE as int <= MAX_BYTES as int
    }

    /// A fresh, empty store.
    pub fn new_empty() -> (r: Self)
        ensures
            r.wf(),
            r.spec_can_allocate(),
            r.spec_path_map() == Map::<Seq<u8>, ID>::empty(),
            r.spec_base_map() == Map::<u64, EntityBase>::empty(),
            r.spec_prog_map() == Map::<u64, Progress>::empty(),
            r.spec_desc_map() == Map::<u64, String>::empty(),
            forall|j: int| !r.spec_allocated(j),
    {
        Storage {
            path_id_translator: Translations::new(),
            id_entitybase_translator: Translations::new(),
            id_progress_translator: Translations::new(),
            id_description_translator: Translations::new(),
            ail: AvailableIDList::new(),
        }
    }

    /// Reassembles a store from loaded sub-stores (the caller read them from
    /// a working directory).
    pub fn from_parts(
        path_id_translator: PathIdTranslator,
        id_entitybase_translator: IDEntitybaseTranslator,
        id_progress_translator: IDProgressTranslator,
        id_description_translator: IDDescriptionTranslator,
        ail: AvailableIDList,
    ) -> (r: Self)
        requires
            path_id_translator.wf(),
            id_entitybase_translator.wf(),
            id_progress_translator.wf(),
            id_description_translator.wf(),
            ail.wf(),
        ensures
            r.wf(),
            r.spec_path_map() == path_id_translator.spec_map(),
            r.spec_base_map() == id_entitybase_translator.spec_map(),
            r.spec_prog_map() == id_progress_translator.spec_map(),
            r.spec_desc_map() == id_description_translator.spec_map(),
            forall|j: int| r.spec_allocated(j) == ail.spec_allocated(j),
            ail.spec_byte_count() + BLOCK_SIZE as int <= MAX_BYTES as int
                ==> r.spec_can_allocate(),
    {
        Storage {
            path_id_translator,
            id_entitybase_translator,
            id_progress_translator,
            id_description_translator,
            ail,
        }
    }

    /// Allocates a fresh identifier (the lowest free one) and files the path
    /// under it. When encoding or the path store refuses, the identifier is
    /// already taken and is not returned to the allocator: that leak is part
    /// of this surface's contract.
    pub fn link_id_to_path(&mut self, path: &Vec<u8>) -> (r: Result<ID, StorageError>)
        requires
            old(self).wf(),
            old(self).spec_can_allocate(),
        ensures
            final(self).wf(),
            final(self).spec_base_map() == old(self).spec_base_map(),
            final(self).spec_prog_map() == old(self).spec_prog_map(),
            final(self).spec_desc_map() == old(self).spec_desc_map(),
            match r {
                Ok(id) => spec_path_encodable(path@) && !old(self).spec_path_map().contains_key(
                    spec_path_key(path@),
                ) && !old(self).spec_allocated(id.0 as int) && (forall|j: int|
                    0 <= j < id.0 ==> old(self).spec_allocated(j)) && (forall|j: int|
                    final(self).spec_allocated(j) == (old(self).spec_allocated(j) || j
                        == id.0 as int)) && final(self).spec_path_map() == old(self).spec_path_map().insert(spec_path_key(path@), id),
                Err(e) => final(self).spec_path_map() == old(self).spec_path_map() && (exists|
                    g: u64,
                |
                    #![auto]
                    !old(self).spec_allocated(g as int) && (forall|j: int|
                        0 <= j < g ==> old(self).spec_allocated(j)) && (forall|j: int|
                        final(self).spec_allocated(j) == (old(self).spec_allocated(j) || j
                            == g as int))) && match e {
                    StorageError::PathIDT(_) => !spec_path_encodable(path@),
                    StorageError::PathIDTranslation(te) => te == TranslationError::AlreadyExists
                        && spec_path_encodable(path@) && old(self).spec_path_map().contains_key(
                        spec_path_key(path@),
                    ),
                    _ => false,
                },
            },
    {
        let unique_id = self.ail.grab_id();
        let key = match standart_path_form(path) {
            Ok(k) => k,
            Err(e) => {
                proof {
                    let gw = unique_id.0;
                    assert(!old(self).spec_allocated(gw as int));
                    assert(forall|j: int| 0 <= j < gw ==> old(self).spec_allocated(j));
                    assert(forall|j: int|
                        self.spec_allocated(j) == (old(self).spec_allocated(j) || j == gw as int));
                }
                return Err(StorageError::PathIDT(e));
            },
        };
        match self.path_id_translator.add_translation(key, unique_id) {
            Ok(()) => Ok(unique_id),
            Err(te) => {
                proof {
                    let gw = unique_id.0;
                    assert(!old(self).spec_allocated(gw as int));
                    assert(forall|j: int| 0 <= j < gw ==> old(self).spec_allocated(j));
                    assert(forall|j: int|
                        self.spec_allocated(j) == (old(self).spec_allocated(j) || j == gw as int));
                }
                Err(StorageError::PathIDTranslation(te))
            },
        }
    }

    /// Unfiles the path and returns its identifier to the allocator.
    pub fn unlink_id_from_path(&mut self, path: &Vec<u8>) -> (r: Result<ID, StorageError>)
        requires
            old(self).wf(),
        ensures
            final(self).wf(),
            final(self).spec_base_map() == old(self).spec_base_map(),
            final(self).spec_prog_map() == old(self).spec_prog_map(),
            final(self).spec_desc_map() == old(self).spec_desc_map(),
            final(self).spec_can_allocate() == old(self).spec_can_allocate(),
            match r {
                Ok(id) => spec_path_encodable(path@) && old(self).spec_path_map().contains_key(
                    spec_path_key(path@),
                ) && id == old(self).spec_path_map()[spec_path_key(path@)] && final(self).spec_path_map() == old(self).spec_path_map().remove(spec_path_key(path@)) && (
                forall|j: int|
                    final(self).spec_allocated(j) == (old(self).spec_allocated(j) && j
                        != id.0 as int)),
                Err(e) => *final(self) == *old(self) && match e {
                    StorageError::PathIDT(_) => !spec_path_encodable(path@),
                    StorageError::PathIDTranslation(te) => te == TranslationError::DoesNotExist
                        && spec_path_encodable(path@) && !old(self).spec_path_map().contains_key(
                        spec_path_key(path@),
                    ),
                    _ => false,
                },
            },
    {
        let key = match standart_path_form(path) {
            Ok(k) => k,
            Err(e) => {
                return Err(StorageError::PathIDT(e));
            },
        };
        let id = match self.path_id_translator.del_translation(&key) {
            Ok(id) => id,
            Err(te) => {
                return Err(StorageError::PathIDTranslation(te));
            },
        };
        self.ail.release_id(id);
        Ok(id)
    }

    /// Files the path under a caller-chosen identifier, without consulting
    /// the allocator. Low-level: this can alias identifiers.
    pub fn link_id_to_path_raw(&mut self, path: &Vec<u8>, id: ID) -> (r: Result<
        (),
        StorageError,
    >)
        requires
            old(self).wf(),
        ensures
            final(self).wf(),
            final(self).spec_base_map() == old(self).spec_base_map(),
            final(self).spec_prog_map() == old(self).spec_prog_map(),
            final(self).spec_desc_map() == old(self).spec_desc_map(),
            forall|j: int| final(self).spec_allocated(j) == old(self).spec_allocated(j),
            final(self).spec_can_allocate() == old(self).spec_can_allocate(),
            match r {
                Ok(()) => spec_path_encodable(path@) && !old(self).spec_path_map().contains_key(
                    spec_path_key(path@),
                ) && final(self).spec_path_map() == old(self).spec_path_map().insert(
                    spec_path_key(path@),
                    id,
                ),
                Err(e) => final(self).spec_path_map() == old(self).spec_path_map() && match e {
                    StorageError::PathIDT(_) => !spec_path_encodable(path@),
                    StorageError::PathIDTranslation(te) => te == TranslationError::AlreadyExists
                        && spec_path_encodable(path@) && old(self).spec_path_map().contains_key(
                        spec_path_key(path@),
                    ),
                    _ => false,
                },
            },
    {
        let key = match standart_path_form(path) {
            Ok(k) => k,
            Err(e) => {
                return Err(StorageError::PathIDT(e));
            },
        };
        match self.path_id_translator.add_translation(key, id) {
            Ok(()) => Ok(()),
            Err(te) => Err(StorageError::PathIDTranslation(te)),
        }
    }

    /// Unfiles the path without returning its identifier to the allocator.
    /// Low-level: the identifier stays out until released by other means.
    pub fn unlink_id_from_path_raw(&mut self, path: &Vec<u8>) -> (r: Result<ID, StorageError>)
        requires
            old(self).wf(),
        ensures
            final(self).wf(),
            final(self).spec_base_map() == old(self).spec_base_map(),
            final(self).spec_prog_map() == old(self).spec_prog_map(),
            final(self).spec_desc_map() == old(self).spec_desc_map(),
            forall|j: int| final(self).spec_allocated(j) == old(self).spec_allocated(j),
            final(self).spec_can_allocate() == old(self).spec_can_allocate(),
            match r {
                Ok(id) => spec_path_encodable(path@) && old(self).spec_path_map().contains_key(
                    spec_path_key(path@),
                ) && id == old(self).spec_path_map()[spec_path_key(path@)] && final(self).spec_path_map() == old(self).spec_path_map().remove(spec_path_key(path@)),
                Err(e) => final(self).spec_path_map() == old(self).spec_path_map() && match e {
                    StorageError::PathIDT(_) => !spec_path_encodable(path@),
                    StorageError::PathIDTranslation(te) => te == TranslationError::DoesNotExist
                        && spec_path_encodable(path@) && !old(self).spec_path_map().contains_key(
                        spec_path_key(path@),
                    ),
                    _ => false,
                },
            },
    {
        let key = match standart_path_form(path) {
            Ok(k) => k,
            Err(e) => {
                return Err(StorageError::PathIDT(e));
            },
        };
        match self.path_id_translator.del_translation(&key) {
            Ok(id) => Ok(id),
            Err(te) => Err(StorageError::PathIDTranslation(te)),
        }
    }

    /// Attaches a progress record to the identifier; refuses to overwrite.
    pub fn link_progress_to_id(&mut self, id: ID, progress: Progress) -> (r: Result<
        (),
        StorageError,
    >)
        requires
            old(self).wf(),
        ensures
            final(self).wf(),
            final(self).spec_path_map() == old(self).spec_path_map(),
            final(self).spec_base_map() == old(self).spec_base_map(),
            final(self).spec_desc_map() == old(self).spec_desc_map(),
            forall|j: int| final(self).spec_allocated(j) == old(self).spec_allocated(j),
            final(self).spec_can_allocate() == old(self).spec_can_allocate(),
            match r {
                Ok(()) => !old(self).spec_prog_map().contains_key(id.0) && final(self).spec_prog_map() == old(self).spec_prog_map().insert(id.0, progress),
                Err(e) => e == StorageError::IDProgressT(TranslationError::AlreadyExists) && old(self).spec_prog_map().contains_key(id.0) && *final(self) == *old(self),
            },
    {
        match self.id_progress_translator.add_translation(id.0, progress) {
            Ok(()) => Ok(()),
            Err(te) => Err(StorageError::IDProgressT(te)),
        }
    }

    /// Detaches and returns the identifier's progress record.
    pub fn unlink_progress_from_id(&mut self, id: ID) -> (r: Result<Progress, StorageError>)
        requires
            old(self).wf(),
        ensures
            final(self).wf(),
            final(self).spec_path_map() == old(self).spec_path_map(),
            final(self).spec_base_map() == old(self).spec_base_map(),
            final(self).spec_desc_map() == old(self).spec_desc_map(),
            forall|j: int| final(self).spec_allocated(j) == old(self).spec_allocated(j),
            final(self).spec_can_allocate() == old(self).spec_can_allocate(),
            match r {
                Ok(p) => old(self).spec_prog_map().contains_key(id.0) && p == old(self).spec_prog_map()[id.0] && final(self).spec_prog_map() == old(self).spec_prog_map().remove(id.0),
                Err(e) => e == StorageError::IDProgressT(TranslationError::DoesNotExist) && !old(self).spec_prog_map().contains_key(id.0) && *final(self) == *old(self),
            },
    {
        match self.id_progress_translator.del_translation(&id.0) {
            Ok(p) => Ok(p),
            Err(te) => Err(StorageError::IDProgressT(te)),
        }
    }

    /// Overwrites the identifier's progress record, returning the previous
    /// one.
    pub fn update_progress(&mut self, id: ID, new_progress: Progress) -> (r: Result<
        Progress,
        StorageError,
    >)
        requires
            old(self).wf(),
        ensures
            final(self).wf(),
            final(self).spec_path_map() == old(self).spec_path_map(),
            final(self).spec_base_map() == old(self).spec_base_map(),
            final(self).spec_desc_map() == old(self).spec_desc_map(),
            forall|j: int| final(self).spec_allocated(j) == old(self).spec_allocated(j),
            final(self).spec_can_allocate() == old(self).spec_can_allocate(),
            match r {
                Ok(p) => old(self).spec_prog_map().contains_key(id.0) && p == old(self).spec_prog_map()[id.0] && final(self).spec_prog_map() == old(self).spec_prog_map().insert(id.0, new_progress),
                Err(e) => e == StorageError::IDProgressT(TranslationError::DoesNotExist) && !old(self).spec_prog_map().contains_key(id.0) && *final(self) == *old(self),
            },
    {
        match self.id_progress_translator.update_translation(&id.0, new_progress) {
            Ok(p) => Ok(p),
            Err(te) => Err(StorageError::IDProgressT(te)),
        }
    }

    /// Attaches the identity record to the identifier; refuses to overwrite.
    pub fn link_entitybase_to_id(&mut self, id: ID, entitybase: EntityBase) -> (r: Result<
        (),
        StorageError,
    >)
        requires
            old(self).wf(),
        ensures
            final(self).wf(),
            final(self).spec_path_map() == old(self).spec_path_map(),
            final(self).spec_prog_map() == old(self).spec_prog_map(),
            final(self).spec_desc_map() == old(self).spec_desc_map(),
            forall|j: int| final(self).spec_allocated(j) == old(self).spec_allocated(j),
            final(self).spec_can_allocate() == old(self).spec_can_allocate(),
            match r {
                Ok(()) => !old(self).spec_base_map().contains_key(id.0) && final(self).spec_base_map() == old(self).spec_base_map().insert(id.0, entitybase),
                Err(e) => e == StorageError::IDEntitybaseT(TranslationError::AlreadyExists)
                    && old(self).spec_base_map().contains_key(id.0) && *final(self) == *old(self),
            },
    {
        match self.id_entitybase_translator.add_translation(id.0, entitybase) {
            Ok(()) => Ok(()),
            Err(te) => Err(StorageError::IDEntitybaseT(te)),
        }
    }

    /// Detaches and returns the identifier's identity record.
    pub fn unlink_entitybase_from_id(&mut self, id: ID) -> (r: Result<EntityBase, StorageError>)
        requires
            old(self).wf(),
        ensures
            final(self).wf(),
            final(self).spec_path_map() == old(self).spec_path_map(),
            final(self).spec_prog_map() == old(self).spec_prog_map(),
            final(self).spec_desc_map() == old(self).spec_desc_map(),
            forall|j: int| final(self).spec_allocated(j) == old(self).spec_allocated(j),
            final(self).spec_can_allocate() == old(self).spec_can_allocate(),
            match r {
                Ok(b) => old(self).spec_base_map().contains_key(id.0) && b == old(self).spec_base_map()[id.0] && final(self).spec_base_map() == old(self).spec_base_map().remove(id.0),
                Err(e) => e == StorageError::IDEntitybaseT(TranslationError::DoesNotExist)
                    && !old(self).spec_base_map().contains_key(id.0) && *final(self) == *old(self),
            },
    {
        match self.id_entitybase_translator.del_translation(&id.0) {
            Ok(b) => Ok(b),
            Err(te) => Err(StorageError::IDEntitybaseT(te)),
        }
    }

    /// Overwrites the identifier's identity record, returning the previous
    /// one.
    pub fn update_entitybase(&mut self, id: ID, new_entitybase: EntityBase) -> (r: Result<
        EntityBase,
        StorageError,
    >)
        requires
            old(self).wf(),
        ensures
            final(self).wf(),
            final(self).spec_path_map() == old(self).spec_path_map(),
            final(self).spec_prog_map() == old(self).spec_prog_map(),
            final(self).spec_desc_map() == old(self).spec_desc_map(),
            forall|j: int| final(self).spec_allocated(j) == old(self).spec_allocated(j),
            final(self).spec_can_allocate() == old(self).spec_can_allocate(),
            match r {
                Ok(b) => old(self).spec_base_map().contains_key(id.0) && b == old(self).spec_base_map()[id.0] && final(self).spec_base_map() == old(self).spec_base_map().insert(id.0, new_entitybase),
                Err(e) => e == StorageError::IDEntitybaseT(TranslationError::DoesNotExist)
                    && !old(self).spec_base_map().contains_key(id.0) && *final(self) == *old(self),
            },
    {
        match self.id_entitybase_translator.update_translation(&id.0, new_entitybase) {
            Ok(b) => Ok(b),
            Err(te) => Err(StorageError::IDEntitybaseT(te)),
        }
    }

    /// Attaches a description to the identifier; refuses to overwrite.
    pub fn link_description_to_id(&mut self, id: ID, description: String) -> (r: Result<
        (),
        StorageError,
    >)
        requires
            old(self).wf(),
        ensures
            final(self).wf(),
            final(self).spec_path_map() == old(self).spec_path_map(),
            final(self).spec_base_map() == old(self).spec_base_map(),
            final(self).spec_prog_map() == old(self).spec_prog_map(),
            forall|j: int| final(self).spec_allocated(j) == old(self).spec_allocated(j),
            final(self).spec_can_allocate() == old(self).spec_can_allocate(),
            match r {
                Ok(()) => !old(self).spec_desc_map().contains_key(id.0) && final(self).spec_desc_map() == old(self).spec_desc_map().insert(id.0, description),
                Err(e) => e == StorageError::IDDescT(TranslationError::AlreadyExists) && old(self).spec_desc_map().contains_key(id.0) && *final(self) == *old(self),
            },
    {
        match self.id_description_translator.add_translation(id.0, description) {
            Ok(()) => Ok(()),
            Err(te) => Err(StorageError::IDDescT(te)),
        }
    }

    /// Detaches and returns the identifier's description.
    pub fn unlink_description_from_id(&mut self, id: ID) -> (r: Result<String, StorageError>)
        requires
            old(self).wf(),
        ensures
            final(self).wf(),
            final(self).spec_path_map() == old(self).spec_path_map(),
            final(self).spec_base_map() == old(self).spec_base_map(),
            final(self).spec_prog_map() == old(self).spec_prog_map(),
            forall|j: int| final(self).spec_allocated(j) == old(self).spec_allocated(j),
            final(self).spec_can_allocate() == old(self).spec_can_allocate(),
            match r {
                Ok(d) => old(self).spec_desc_map().contains_key(id.0) && d == old(self).spec_desc_map()[id.0] && final(self).spec_desc_map() == old(self).spec_desc_map().remove(id.0),
                Err(e) => e == StorageError::IDDescT(TranslationError::DoesNotExist) && !old(self).spec_desc_map().contains_key(id.0) && *final(self) == *old(self),
            },
    {
        match self.id_description_translator.del_translation(&id.0) {
            Ok(d) => Ok(d),
            Err(te) => Err(StorageError::IDDescT(te)),
        }
    }

    /// The identifier a path is filed under, if any; an unencodable path is
    /// an error, an untracked one is `None`.
    pub fn get_id(&self, path: &Vec<u8>) -> (r: Result<Option<ID>, StorageError>)
        requires
            self.wf(),
        ensures
            match r {
                Ok(Some(id)) => spec_path_encodable(path@) && self.spec_path_map().contains_key(
                    spec_path_key(path@),
                ) && id == self.spec_path_map()[spec_path_key(path@)],
                Ok(None) => spec_path_encodable(path@) && !self.spec_path_map().contains_key(
                    spec_path_key(path@),
                ),
                Err(StorageError::PathIDT(_)) => !spec_path_encodable(path@),
                Err(_) => false,
            },
    {
        let key = match standart_path_form(path) {
            Ok(k) => k,
            Err(e) => {
                return Err(StorageError::PathIDT(e));
            },
        };
        match self.path_id_translator.translate(&key) {
            Some(id) => Ok(Some(*id)),
            None => Ok(None),
        }
    }

    /// The identifier's progress record, if any.
    pub fn get_progress(&self, id: ID) -> (r: Option<Progress>)
        requires
            self.wf(),
        ensures
            match r {
                Some(p) => self.spec_prog_map().contains_key(id.0) && p == self.spec_prog_map()[
                    id.0
                ],
                None => !self.spec_prog_map().contains_key(id.0),
            },
    {
        match self.id_progress_translator.translate(&id.0) {
            Some(p) => Some(*p),
            None => None,
        }
    }

    /// The identifier's identity record, if any.
    pub fn get_entitybase(&self, id: ID) -> (r: Option<&EntityBase>)
        requires
            self.wf(),
        ensures
            match r {
                Some(b) => self.spec_base_map().contains_key(id.0) && *b == self.spec_base_map()[
                    id.0
                ],
                None => !self.spec_base_map().contains_key(id.0),
            },
    {
        self.id_entitybase_translator.translate(&id.0)
    }

    /// The identifier's description, if any.
    pub fn get_description(&self, id: ID) -> (r: Option<&String>)
        requires
            self.wf(),
        ensures
            match r {
                Some(d) => self.spec_desc_map().contains_key(id.0) && *d == self.spec_desc_map()[
                    id.0
                ],
                None => !self.spec_desc_map().contains_key(id.0),
            },
    {
        self.id_description_translator.translate(&id.0)
    }

    /// The path store itself, for persisting its records.
    pub fn path_id_translator(&self) -> (r: &PathIdTranslator)
        ensures
            r.spec_map() == self.spec_path_map(),
            self.wf() ==> r.wf(),
    {
        &self.path_id_translator
    }

    /// The identity-record store itself, for persisting its records.
    pub fn id_entitybase_translator(&self) -> (r: &IDEntitybaseTranslator)
        ensures
            r.spec_map() == self.spec_base_map(),
            self.wf() ==> r.wf(),
    {
        &self.id_entitybase_translator
    }

    /// The progress store itself, for persisting its records.
    pub fn id_progress_translator(&self) -> (r: &IDProgressTranslator)
        ensures
            r.spec_map() == self.spec_prog_map(),
            self.wf() ==> r.wf(),
    {
        &self.id_progress_translator
    }

    /// The description store itself, for persisting its records.
    pub fn id_description_translator(&self) -> (r: &IDDescriptionTranslator)
        ensures
            r.spec_map() == self.spec_desc_map(),
            self.wf() ==> r.wf(),
    {
        &self.id_description_translator
    }

    /// The allocator's raw bitmap, for persisting.
    pub fn allocator_bytes(&self) -> (r: &Vec<u8>)
        ensures
            forall|j: int|
                self.spec_allocated(j) == (0 <= j < 8 * (r@.len() as int) && spec_bit_set(
                    r@[j / 8],
                    (j % 8) as u8,
                )),
    {
        let r = self.ail.bytes();
        proof {
            assert(r@ == self.ail.spec_bytes());
            assert forall|j: int|
                self.spec_allocated(j) == (0 <= j < 8 * (r@.len() as int) && spec_bit_set(
                    r@[j / 8],
                    (j % 8) as u8,
                )) by {
                assert(self.spec_allocated(j) == self.ail.spec_allocated(j));
            }
        }
        r
    }

    /// Whether one more allocation is certain not to outgrow the bitmap's
    /// index range.
    pub fn can_allocate(&self) -> (r: bool)
        ensures
            r == self.spec_can_allocate(),
    {
        (self.ail.byte_count() as u64) <= MAX_BYTES - (BLOCK_SIZE as u64)
    }

    /// Every tracked path, decoded from its storage key, in unspecified
    /// order.
    pub fn keys_path(&self) -> (r: Vec<NormalizedPath>)
        requires
            self.wf(),
        ensures
            forall|k: Seq<u8>|
                self.spec_path_map().contains_key(k) ==> exists|i: int|
                    0 <= i < r@.len() && (#[trigger] r@[i])@ == spec_decode(k),
            forall|i: int|
                0 <= i < r@.len() ==> spec_is_decoded_tracked(
                    self.spec_path_map(),
                    #[trigger] r@[i]@,
                ),
    {
        let keys = self.path_id_translator.keys();
        let mut r: Vec<NormalizedPath> = Vec::new();
        let mut i: usize = 0;
        while i < keys.len()
            invariant
                0 <= i <= keys@.len(),
                r@.len() == i,
                forall|j: int| 0 <= j < i ==> (#[trigger] r@[j])@ == spec_decode(keys@[j]@),
                forall|k: Seq<u8>|
                    self.spec_path_map().contains_key(k) <==> exists|j: int|
                        0 <= j < keys@.len() && (#[trigger] keys@[j])@ == k,
            decreases keys@.len() - i,
        {
            r.push(deserialize_spf(&keys[i]));
            i = i + 1;
        }
        proof {
            assert forall|k: Seq<u8>|
                self.spec_path_map().contains_key(k) implies exists|i: int|
                0 <= i < r@.len() && (#[trigger] r@[i])@ == spec_decode(k) by {
                let w = choose|j: int| 0 <= j < keys@.len() && (#[trigger] keys@[j])@ == k;
                assert(r@[w]@ == spec_decode(k));
            }
            assert forall|i: int| 0 <= i < r@.len() implies spec_is_decoded_tracked(
                self.spec_path_map(),
                #[trigger] r@[i]@,
            ) by {
                let kv = keys@[i]@;
                assert((keys@[i])@ == kv);
                assert(exists|j: int| 0 <= j < keys@.len() && (#[trigger] keys@[j])@ == kv);
                assert(self.spec_path_map().contains_key(kv));
                assert(r@[i]@ == spec_decode(kv));
            }
        }
        r
    }
}

} // verus!
