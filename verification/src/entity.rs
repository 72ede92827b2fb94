//! Entity handles and the list of all live entities.
//!
//! An [`Entity`] is a plain location: which row of which table currently
//! holds it. There is no generation counter, so a handle captured before a
//! row-compacting removal may afterwards name a different logical entity;
//! callers that cache handles must refresh them from the relocation
//! information that removals return.

use vstd::prelude::*;

verus! {

/// A location handle: row `id` of table `table_id`.
#[derive(Debug, Clone, Copy, Hash, PartialEq, Eq, Structural)]
pub struct Entity {
    /// Which row of the owning table.
    pub id: usize,
    /// Which table of the store.
    pub table_id: usize,
}

impl Entity {
    pub fn new(id: usize, table_id: usize) -> (e: Entity)
        ensures
            e.id == id,
            e.table_id == table_id,
    {
        Entity { id, table_id }
    }
}

/// The ordered list of all entities handed out so far.
pub struct Entities {
    entity_vec: Vec<Entity>,
}

impl Entities {
    /// The handles in creation order.
    pub closed spec fn view(&self) -> Seq<Entity> {
        self.entity_vec@
    }

    pub fn new() -> (e: Entities)
        ensures
            e@ == Seq::<Entity>::empty(),
    {
        Entities { entity_vec: Vec::new() }
    }

    /// Records a new entity location and returns its index in this list.
    pub fn add_entity(&mut self, id: usize, table_id: usize) -> (index: usize)
        requires
            old(self)@.len() < usize::MAX,
        ensures
            final(self)@ == old(self)@.push(Entity { id, table_id }),
            index == old(self)@.len(),
    {
        self.entity_vec.push(Entity::new(id, table_id));
        self.entity_vec.len() - 1
    }

    pub fn get_entity(&self, index: usize) -> (e: Option<&Entity>)
        ensures
            match e {
                Some(entity) => index < self@.len() && *entity == self@[index as int],
                None => index >= self@.len(),
            },
    {
        self.entity_vec.get(index)
    }

    pub fn get_entity_mut(&mut self, index: usize) -> (e: Option<&mut Entity>)
        ensures
            match e {
                Some(entity) => {
                    &&& index < old(self)@.len()
                    &&& *entity == old(self)@[index as int]
                    &&& final(self)@ == old(self)@.update(index as int, *final(entity))
                },
                None => index >= old(self)@.len() && final(self)@ == old(self)@,
            },
    {
        if index < self.entity_vec.len() {
            Some(&mut self.entity_vec[index])
        } else {
            None
        }
    }
}

} // verus!
