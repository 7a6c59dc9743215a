//! The mandatory identity record of a tracked entity: name, classification
//! and tags.

use vstd::prelude::*;

use crate::id::ID;

verus! {

pub type Tag = String;

/// Classification of a tracked entity; `Document` is the one kind that
/// carries a progress record.
#[derive(Debug, Clone, Copy, Eq, PartialEq, Hash, Structural)]
pub enum EntityType {
    Section,
    Document,
    Regular,
}

/// The mathematical shape of an [`EntityBase`].
pub struct EntityBaseView {
    pub id: ID,
    pub name: Seq<char>,
    pub etype: EntityType,
    pub tags: Seq<Seq<char>>,
}

/// One identity record per identifier: name, type and tags.
#[derive(Debug)]
pub struct EntityBase {
    pub id: ID,
    pub name: String,
    pub etype: EntityType,
    pub tags: Vec<Tag>,
}

impl View for EntityBase {
    type V = EntityBaseView;

    open spec fn view(&self) -> EntityBaseView {
        EntityBaseView {
            id: self.id,
            name: self.name@,
            etype: self.etype,
            tags: self.tags.deep_view(),
        }
    }
}

/// Copies a tag list.
pub fn clone_tags(tags: &Vec<Tag>) -> (r: Vec<Tag>)
    ensures
        r@ == tags@,
        r.deep_view() == tags.deep_view(),
{
    let mut r: Vec<Tag> = Vec::new();
    let mut i: usize = 0;
    while i < tags.len()
        invariant
            0 <= i <= tags@.len(),
            r@ == tags@.take(i as int),
        decreases tags@.len() - i,
    {
        r.push(tags[i].clone());
        proof {
            assert(tags@.take(i as int + 1) =~= tags@.take(i as int).push(tags@[i as int]));
        }
        i = i + 1;
    }
    proof {
        assert(tags@.take(tags@.len() as int) =~= tags@);
        assert(r.deep_view() =~= tags.deep_view());
    }
    r
}

impl Clone for EntityBase {
    fn clone(&self) -> (res: Self)
        ensures
            res@ == self@,
    {
        EntityBase {
            id: self.id,
            name: self.name.clone(),
            etype: self.etype,
            tags: clone_tags(&self.tags),
        }
    }
}

impl EntityBase {
    pub fn new(id: ID, name: String, etype: EntityType, tags: Vec<Tag>) -> (r: EntityBase)
        ensures
            r == (EntityBase { id, name, etype, tags }),
    {
        EntityBase { id, name, etype, tags }
    }

    pub fn id(&self) -> (r: ID)
        ensures
            r == self.id,
    {
        self.id
    }

    pub fn name(&self) -> (r: &String)
        ensures
            r == &self.name,
    {
        &self.name
    }

    pub fn etype(&self) -> (r: EntityType)
        ensures
            r == self.etype,
    {
        self.etype
    }

    pub fn tags(&self) -> (r: &Vec<Tag>)
        ensures
            r == &self.tags,
    {
        &self.tags
    }

    pub fn name_mut(&mut self) -> (r: &mut String)
        ensures
            *r == old(self).name,
            final(self).id == old(self).id,
            final(self).etype == old(self).etype,
            final(self).tags == old(self).tags,
            final(self).name == *final(r),
    {
        &mut self.name
    }

    pub fn tags_mut(&mut self) -> (r: &mut Vec<Tag>)
        ensures
            *r == old(self).tags,
            final(self).id == old(self).id,
            final(self).etype == old(self).etype,
            final(self).name == old(self).name,
            final(self).tags == *final(r),
    {
        &mut self.tags
    }

    pub fn destruct(self) -> (r: (ID, String, EntityType, Vec<Tag>))
        ensures
            r.0 == self.id,
            r.1 == self.name,
            r.2 == self.etype,
            r.3 == self.tags,
    {
        let EntityBase { id, name, etype, tags } = self;
        (id, name, etype, tags)
    }
}

} // verus!
