//! The joined, read-only view of one tracked entity: path, identity record,
//! and the optional progress and description records.

use vstd::prelude::*;

use crate::entity_base::{EntityType, Tag};
use crate::id::ID;
use crate::progress::Progress;

verus! {

/// The mathematical shape of a [`LibEntityData`].
pub struct LibEntityDataView {
    pub path: Seq<u8>,
    pub name: Seq<char>,
    pub etype: EntityType,
    pub tags: Seq<Seq<char>>,
    pub progress: Option<Progress>,
    pub description: Option<Seq<char>>,
}

/// The mutable attributes of a library entity, keyed by its path.
#[derive(Debug)]
pub struct LibEntityData {
    pub path: Vec<u8>,
    pub name: String,
    pub etype: EntityType,
    pub tags: Vec<Tag>,
    pub progress: Option<Progress>,
    pub description: Option<String>,
}

impl View for LibEntityData {
    type V = LibEntityDataView;

    open spec fn view(&self) -> LibEntityDataView {
        LibEntityDataView {
            path: self.path@,
            name: self.name@,
            etype: self.etype,
            tags: self.tags.deep_view(),
            progress: self.progress,
            description: match self.description {
                Some(d) => Some(d@),
                None => None,
            },
        }
    }
}

/// Everything from [`LibEntityData`] plus the identifier it resolved to.
#[derive(Debug)]
pub struct LibEntity {
    pub id: ID,
    pub data: LibEntityData,
}

/// The mathematical shape of a [`LibEntity`].
pub struct LibEntityView {
    pub id: ID,
    pub data: LibEntityDataView,
}

impl View for LibEntity {
    type V = LibEntityView;

    open spec fn view(&self) -> LibEntityView {
        LibEntityView { id: self.id, data: self.data@ }
    }
}

impl LibEntity {
    pub fn from_id_data(id: ID, data: LibEntityData) -> (r: Self)
        ensures
            r@.id == id,
            r@.data == data@,
    {
        LibEntity { data, id }
    }

    pub fn path(&self) -> (r: &Vec<u8>)
        ensures
            r@ == self@.data.path,
    {
        &self.data.path
    }

    pub fn progress(&self) -> (r: Option<&Progress>)
        ensures
            match r {
                Some(p) => self@.data.progress == Some(*p),
                None => self@.data.progress is None,
            },
    {
        self.data.progress.as_ref()
    }

    pub fn description(&self) -> (r: Option<&String>)
        ensures
            match r {
                Some(d) => self@.data.description == Some(d@),
                None => self@.data.description is None,
            },
    {
        self.data.description.as_ref()
    }

    pub fn name(&self) -> (r: &String)
        ensures
            r@ == self@.data.name,
    {
        &self.data.name
    }

    pub fn id(&self) -> (r: ID)
        ensures
            r == self@.id,
    {
        self.id
    }

    pub fn etype(&self) -> (r: EntityType)
        ensures
            r == self@.data.etype,
    {
        self.data.etype
    }

    pub fn tags(&self) -> (r: &Vec<Tag>)
        ensures
            r.deep_view() == self@.data.tags,
    {
        &self.data.tags
    }

    pub fn progress_mut(&mut self) -> (r: Option<&mut Progress>)
        ensures
            match r {
                Some(p) => old(self)@.data.progress == Some(*p) && final(self)@.data
                    == (LibEntityDataView { progress: Some(*final(p)), ..old(self)@.data })
                    && final(self)@.id == old(self)@.id,
                None => old(self)@.data.progress is None && *final(self) == *old(self),
            },
    {
        self.data.progress.as_mut()
    }

    pub fn description_mut(&mut self) -> (r: Option<&mut String>)
        ensures
            match r {
                Some(d) => old(self)@.data.description == Some(d@) && final(self)@.data
                    == (LibEntityDataView {
                    description: Some(final(d)@),
                    ..old(self)@.data
                }) && final(self)@.id == old(self)@.id,
                None => old(self)@.data.description is None && *final(self) == *old(self),
            },
    {
        self.data.description.as_mut()
    }

    pub fn name_mut(&mut self) -> (r: &mut String)
        ensures
            r@ == old(self)@.data.name,
            final(self)@.data == (LibEntityDataView { name: final(r)@, ..old(self)@.data }),
            final(self)@.id == old(self)@.id,
    {
        &mut self.data.name
    }

    pub fn set_id(&mut self, new_id: ID)
        ensures
            final(self)@.id == new_id,
            final(self)@.data == old(self)@.data,
    {
        self.id = new_id;
    }

    pub fn set_etype(&mut self, new_etype: EntityType)
        ensures
            final(self)@.id == old(self)@.id,
            final(self)@.data == (LibEntityDataView { etype: new_etype, ..old(self)@.data }),
    {
        self.data.etype = new_etype;
    }

    pub fn tags_mut(&mut self) -> (r: &mut Vec<Tag>)
        ensures
            r@ == old(self).spec_tags(),
            final(self)@.data == (LibEntityDataView {
                tags: final(r).deep_view(),
                ..old(self)@.data
            }),
            final(self)@.id == old(self)@.id,
    {
        &mut self.data.tags
    }

    /// The raw tag vector, for contracts that need value-level equality.
    pub open spec fn spec_tags(&self) -> Seq<Tag> {
        self.data.tags@
    }
}

} // verus!
