//! How the record kinds relate to one another, free of any storage context.

use vstd::prelude::*;

use crate::entity_base::EntityType;

verus! {

/// Whether an entity of this type carries a progress record: documents do,
/// sections and regular files do not.
pub fn libentity_has_progress(etype: EntityType) -> (r: bool)
    ensures
        r == (etype is Document),
{
    match etype {
        EntityType::Document => true,
        _ => false,
    }
}

} // verus!
