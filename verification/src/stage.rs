//! The application shell around one store: the world plus the ordered
//! stages a driver loop runs systems in.

use vstd::prelude::*;

use crate::world::World;

verus! {

/// When in an application's life a group of systems runs.
pub enum Stage {
    Startup,
    Update,
    Shutdown,
    Custom(&'static str),
}

/// One application: a world and the order its stages run in.
pub struct App {
    world: World,
    stage_order: Vec<Stage>,
}

impl App {
    pub closed spec fn world_spec(&self) -> World {
        self.world
    }

    pub closed spec fn stages(&self) -> Seq<Stage> {
        self.stage_order@
    }

    /// An application around a fresh store, with no stages yet.
    pub fn new(world: World, stage_order: Vec<Stage>) -> (app: App)
        ensures
            app.world_spec() == world,
            app.stages() == stage_order@,
    {
        App { world, stage_order }
    }

    /// The store, for the driver loop.
    pub fn world_mut(&mut self) -> (world: &mut World)
        ensures
            *world == old(self).world_spec(),
            final(self).world_spec() == *final(world),
            final(self).stages() == old(self).stages(),
    {
        &mut self.world
    }
}

} // verus!
