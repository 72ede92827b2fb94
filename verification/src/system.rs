//! The system layer: binding a unit of user logic to the store.
//!
//! A system is a two-phase consumer. `initialize` runs once: it resolves
//! every declared parameter's state against the store, registering ids and
//! allocating private local state, and rejects conflicting access
//! declarations. `run` may then be called any number of times: it derives
//! the live parameter values from the already-built state, invokes the
//! user logic, and writes the mutable parameters back. Running before
//! initializing is excluded by contract, not guarded at runtime.
//!
//! Parameter kinds form a closed sum, [`param::SystemParam`]; n-ary
//! parameter lists are plain lists of that sum, mirroring how tuple
//! queries are lists of fetch units.

use vstd::prelude::*;

use crate::component::BITMASK_BLOCK_SIZE;
use crate::error::{AccessConflict, StorageFault};
use crate::query::AccessState;
use crate::world::World;

pub mod param;

use param::{SystemParam, SystemParamItem, SystemParamState};

verus! {

/// The most parameters one system, and the most fetch units one of its
/// queries, may declare.
pub const MAX_SYSTEM_PARAMS: usize = 64;

/// How many registrations one initialization may need, at most.
pub open spec fn registration_budget() -> int {
    MAX_SYSTEM_PARAMS as int * (MAX_SYSTEM_PARAMS as int + 1)
}

/// Two worlds of the same shape: everything but resource values and
/// column cell bytes agrees. What one `run` may change is exactly the
/// bytes behind its mutable parameter views.
pub open spec fn same_shape(pre: World, post: World) -> bool {
    &&& post.entities_spec() == pre.entities_spec()
    &&& post.components_spec() == pre.components_spec()
    &&& post.tables_spec() == pre.tables_spec()
    &&& post.channels() == pre.channels()
    &&& post.resources_spec().initialized_ids() == pre.resources_spec().initialized_ids()
    &&& forall|id: usize|
        #[trigger] post.resources_spec().has_column_spec(id) == pre.resources_spec().has_column_spec(
            id,
        )
    &&& forall|id: usize|
        #[trigger] crate::storage::resource_table::resource_size(post.resources_spec(), id)
            == crate::storage::resource_table::resource_size(pre.resources_spec(), id)
}

/// The wrapper handing a system's input value to its function, so that an
/// input is told apart from the trailing parameters.
pub struct In<Inp> {
    pub data: Inp,
}

/// What the user implements: a function over the resolved parameter
/// values. `param_spec` declares the parameters; `run` receives their
/// values, in declaration order, and may mutate the `Local` and `ResMut`
/// entries in place to have them written back.
pub trait SystemParamFunction {
    type FnIn;

    type FnOut;

    /// The declared parameter list. Bounded so one initialization cannot
    /// exhaust the id space.
    fn param_spec(&self) -> (params: Vec<SystemParam>)
        ensures
            param::params_wf(params@),
    ;

    /// The user logic itself. No contract: the protocol holds whatever it
    /// does to the handed-out values.
    fn run(&mut self, input: In<Self::FnIn>, params: &mut Vec<SystemParamItem>) -> Self::FnOut;
}

/// The two-phase consumer interface: initialize once, then run.
pub trait System {
    type SysIn;

    type SysOut;

    /// Whether `initialize` has completed on this system.
    spec fn ready(&self) -> bool;

    /// Whether the built state still fits `world`: its query states'
    /// matched tables still store the queried components.
    spec fn compatible(&self, world: World) -> bool;

    /// Whether every declared parameter can be derived from `world`: the
    /// required resources hold values and the required channels exist.
    spec fn runnable(&self, world: World) -> bool;

    /// Resolves every declared parameter against the store; a conflict
    /// within this system's own access declarations is rejected here.
    fn initialize(&mut self, world: &mut World) -> (result: Result<(), AccessConflict>)
        requires
            old(world).wf(),
            old(world).components_spec().descriptors_seq().len() + registration_budget()
                + BITMASK_BLOCK_SIZE < usize::MAX,
            old(world).channels().len() + registration_budget() <= usize::MAX,
        ensures
            final(world).wf(),
            final(world).entities_spec() == old(world).entities_spec(),
            final(world).tables_spec() == old(world).tables_spec(),
            result is Ok ==> final(self).ready() && final(self).compatible(*final(world)),
    ;

    /// Derives the live parameter values, invokes the logic, and writes
    /// the mutable parameters back. A missing declared resource is the
    /// reported lookup fault; the store keeps its shape either way.
    fn run(&mut self, world: &mut World, input: Self::SysIn) -> (output: Result<
        Self::SysOut,
        StorageFault,
    >)
        requires
            old(world).wf(),
            old(self).ready(),
            old(self).compatible(*old(world)),
        ensures
            final(world).wf(),
            same_shape(*old(world), *final(world)),
            final(self).ready(),
            final(self).compatible(*final(world)),
            output is Ok <==> old(self).runnable(*old(world)),
    ;
}

/// Wraps a value as a system.
pub trait IntoSystem {
    type Sys;

    fn system(self) -> Self::Sys;
}

/// The system a plain parameter function becomes: the function plus its
/// parameter states, absent until `initialize`.
pub struct FunctionSystem<F: SystemParamFunction> {
    sfunc: F,
    param_state: Option<Vec<SystemParamState>>,
}

impl<F: SystemParamFunction> IntoSystem for F {
    type Sys = FunctionSystem<F>;

    fn system(self) -> Self::Sys {
        FunctionSystem { sfunc: self, param_state: None }
    }
}

impl<F: SystemParamFunction> System for FunctionSystem<F> {
    type SysIn = <F as SystemParamFunction>::FnIn;

    type SysOut = <F as SystemParamFunction>::FnOut;

    closed spec fn ready(&self) -> bool {
        self.param_state is Some
    }

    closed spec fn compatible(&self, world: World) -> bool {
        match self.param_state {
            Some(states) => param::states_compatible(states@, world),
            None => true,
        }
    }

    closed spec fn runnable(&self, world: World) -> bool {
        match self.param_state {
            Some(states) => forall|u: int|
                0 <= u < states@.len() ==> param::state_resolvable(#[trigger] states@[u], world),
            None => true,
        }
    }

    fn initialize(&mut self, world: &mut World) -> (result: Result<(), AccessConflict>) {
        let params = self.sfunc.param_spec();
        let mut states: Vec<SystemParamState> = Vec::new();
        let mut access = AccessState::empty();
        let param_count = params.len();
        let mut j: usize = 0;
        while j < param_count
            invariant
                j <= param_count,
                param_count == params@.len(),
                param::params_wf(params@),
                world.wf(),
                world.entities_spec() == old(world).entities_spec(),
                world.tables_spec() == old(world).tables_spec(),
                world.components_spec().descriptors_seq().len() <= old(
                    world,
                ).components_spec().descriptors_seq().len() + j * (MAX_SYSTEM_PARAMS as int + 1),
                world.channels().len() <= old(world).channels().len() + j,
                old(world).components_spec().descriptors_seq().len() + registration_budget()
                    + BITMASK_BLOCK_SIZE < usize::MAX,
                old(world).channels().len() + registration_budget() <= usize::MAX,
                states@.len() == j,
                forall|u: int|
                    0 <= u < j ==> param::state_compatible(#[trigger] states@[u], *world),
            decreases param_count - j,
        {
            proof {
                assert((j + 1) * (MAX_SYSTEM_PARAMS as int + 1) <= MAX_SYSTEM_PARAMS as int * (
                MAX_SYSTEM_PARAMS as int + 1)) by (nonlinear_arith)
                    requires
                        0 <= j && j + 1 <= param_count,
                        param_count <= MAX_SYSTEM_PARAMS as int,
                ;
                assert(j * (MAX_SYSTEM_PARAMS as int + 1) + (MAX_SYSTEM_PARAMS as int + 1) == (j + 1)
                    * (MAX_SYSTEM_PARAMS as int + 1)) by (nonlinear_arith);
            }
            let ghost pre_world = *world;
            let state = match SystemParamState::init(world, &params[j], &mut access) {
                Ok(state) => state,
                Err(conflict) => {
                    return Err(conflict);
                },
            };
            proof {
                assert forall|u: int| 0 <= u < j + 1 implies param::state_compatible(
                    #[trigger] states@.push(state)[u],
                    *world,
                ) by {
                    if u < j {
                        assert(states@.push(state)[u] == states@[u]);
                        param::lemma_state_compatible_stable(states@[u], pre_world, *world);
                    } else {
                        assert(states@.push(state)[u] == state);
                    }
                }
            }
            states.push(state);
            j += 1;
        }
        self.param_state = Some(states);
        Ok(())
    }

    fn run(&mut self, world: &mut World, input: Self::SysIn) -> (output: Result<
        Self::SysOut,
        StorageFault,
    >) {
        let states = match &mut self.param_state {
            Some(states) => states,
            None => {
                proof {
                    assert(false);
                }
                return Err(StorageFault::ComponentNotRegistered);
            },
        };
        let mut items = match param::get_params(states, world) {
            Ok(items) => items,
            Err(fault) => {
                return Err(fault);
            },
        };
        let output = self.sfunc.run(In { data: input }, &mut items);
        param::apply_params(states, world, &items);
        Ok(output)
    }
}

} // verus!
