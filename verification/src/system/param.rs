//! The closed sum of system parameter kinds, and their resolution.
//!
//! Each kind pairs a descriptor variant of [`SystemParam`] with a state
//! variant of [`SystemParamState`] (built once, at initialization) and an
//! item variant of [`SystemParamItem`] (derived per run, handed to the
//! user function). Mutable kinds — `Local` and `ResMut` — are written back
//! after the run from whatever the function left in the item; a written
//! value of the wrong byte size for its type is discarded. Query items
//! are resolved as read snapshots of the matching rows; exclusive row
//! mutation goes through the query layer itself.

use vstd::prelude::*;

use crate::component::{ComponentId, TypeKey, BITMASK_BLOCK_SIZE};
use crate::error::{AccessConflict, StorageFault};
use crate::event::EventId;
use crate::query::{
    read_conflicts, write_conflicts, AccessState, FetchQuery, FilterQuery, QueryItem, QueryIter,
    QueryState,
};
use crate::storage::resource_table::resource_size;
use crate::system::MAX_SYSTEM_PARAMS;
use crate::world::{channel_lookup, lemma_channel_lookup, World};

verus! {

/// What one declared parameter asks of the store.
pub enum SystemParam {
    /// Rows matching a fetch/filter pair, as read snapshots.
    Query(Vec<FetchQuery>, FilterQuery),
    /// Read-only view of one singleton resource; its absence is a fault.
    Res(TypeKey, crate::storage::blobvec::TypeLayout),
    /// Exclusive view of one singleton resource; written back after a run.
    ResMut(TypeKey, crate::storage::blobvec::TypeLayout),
    /// As `Res`, but absence yields `None` instead of a fault.
    OptionRes(TypeKey, crate::storage::blobvec::TypeLayout),
    /// As `ResMut`, but absence yields `None` instead of a fault.
    OptionResMut(TypeKey, crate::storage::blobvec::TypeLayout),
    /// Private per-system state of the given byte size, zero-initialized
    /// at initialization and persistent across runs.
    Local(usize),
    /// Unread events of one channel, with this system's private cursor.
    EventReader(TypeKey, crate::storage::blobvec::TypeLayout),
}

impl SystemParam {
    /// The declaration is within the protocol's bounds and its layouts
    /// are usable.
    pub open spec fn wf(&self) -> bool {
        match *self {
            SystemParam::Query(fetches, _) => {
                &&& fetches@.len() <= MAX_SYSTEM_PARAMS
                &&& forall|u: int| 0 <= u < fetches@.len() ==> (#[trigger] fetches@[u]).layout().valid()
            },
            SystemParam::Res(_, layout) => layout.valid(),
            SystemParam::ResMut(_, layout) => layout.valid(),
            SystemParam::OptionRes(_, layout) => layout.valid(),
            SystemParam::OptionResMut(_, layout) => layout.valid(),
            SystemParam::Local(_) => true,
            SystemParam::EventReader(_, layout) => layout.valid(),
        }
    }
}

/// A declared parameter list the protocol accepts.
pub open spec fn params_wf(params: Seq<SystemParam>) -> bool {
    &&& params.len() <= MAX_SYSTEM_PARAMS
    &&& forall|j: int| 0 <= j < params.len() ==> (#[trigger] params[j]).wf()
}

/// The read-only view of one resource a run receives.
pub struct Res {
    /// The resource's raw bytes at resolution time.
    pub value: Vec<u8>,
}

/// The exclusive view of one resource a run receives; what the function
/// leaves here is written back, if it kept the type's byte size.
pub struct ResMut {
    /// The resource's raw bytes; mutate in place.
    pub value: Vec<u8>,
}

/// The private per-system state a run receives; what the function leaves
/// here persists to the next run of the same system instance.
pub struct Local {
    /// The private bytes; mutate in place.
    pub value: Vec<u8>,
}

/// The state of a read-only resource parameter.
pub struct ResState {
    pub resource_id: ComponentId,
}

/// The state of an exclusive resource parameter.
pub struct ResMutState {
    pub resource_id: ComponentId,
}

/// The state of an optional read-only resource parameter.
pub struct OptionResState {
    pub resource_id: ComponentId,
}

/// The state of an optional exclusive resource parameter.
pub struct OptionResMutState {
    pub resource_id: ComponentId,
}

/// The state of a `Local` parameter: it owns the persistent bytes.
pub struct LocalState {
    pub value: Vec<u8>,
}

/// The state of an event-reader parameter: the channel's resource id and
/// this reader's private cursor, exactly a resource state plus a local.
pub struct EventReaderState {
    pub events_id: ComponentId,
    pub last_event_count: usize,
}

/// The built state of one declared parameter.
pub enum SystemParamState {
    Query(QueryState),
    Res(ResState),
    ResMut(ResMutState),
    OptionRes(OptionResState),
    OptionResMut(OptionResMutState),
    Local(LocalState),
    EventReader(EventReaderState),
}

/// The live value of one parameter, handed to the user function.
pub enum SystemParamItem {
    Query(Vec<QueryItem>),
    Res(Res),
    ResMut(ResMut),
    OptionRes(Option<Res>),
    OptionResMut(Option<ResMut>),
    Local(Local),
    EventReader(Vec<(Vec<u8>, EventId)>),
}

/// Whether a built state still fits the world's tables.
pub open spec fn state_compatible(state: SystemParamState, world: World) -> bool {
    match state {
        SystemParamState::Query(query_state) => query_state.valid_for(world),
        _ => true,
    }
}

/// Whether every built state still fits the world's tables.
pub open spec fn states_compatible(states: Seq<SystemParamState>, world: World) -> bool {
    forall|u: int| 0 <= u < states.len() ==> state_compatible(#[trigger] states[u], world)
}

/// Compatibility depends on the tables alone, so it survives every
/// mutation that keeps them.
pub proof fn lemma_state_compatible_stable(state: SystemParamState, pre: World, post: World)
    requires
        state_compatible(state, pre),
        post.tables_spec() == pre.tables_spec(),
    ensures
        state_compatible(state, post),
{
}

/// Whether a run can derive this parameter's value from `world`.
pub open spec fn state_resolvable(state: SystemParamState, world: World) -> bool {
    match state {
        SystemParamState::Res(res_state) => world.resources_spec().has_column_spec(
            res_state.resource_id.id_spec(),
        ) && world.resources_spec().is_initialized(res_state.resource_id.id_spec()),
        SystemParamState::ResMut(res_state) => world.resources_spec().has_column_spec(
            res_state.resource_id.id_spec(),
        ) && world.resources_spec().is_initialized(res_state.resource_id.id_spec()),
        SystemParamState::EventReader(reader_state) => channel_lookup(
            world.channels(),
            reader_state.events_id.id_spec(),
        ) is Some,
        _ => true,
    }
}

impl ResState {
    /// Registers the resource type and records its id.
    pub fn init(world: &mut World, type_key: TypeKey, layout: crate::storage::blobvec::TypeLayout) -> (state: ResState)
        requires
            old(world).wf(),
            layout.valid(),
            old(world).components_spec().descriptors_seq().len() + BITMASK_BLOCK_SIZE < usize::MAX,
        ensures
            final(world).wf(),
            final(world).entities_spec() == old(world).entities_spec(),
            final(world).tables_spec() == old(world).tables_spec(),
            final(world).channels() == old(world).channels(),
            final(world).components_spec().descriptors_seq().len() <= old(
                world,
            ).components_spec().descriptors_seq().len() + 1,
            final(world).resources_spec().has_column_spec(state.resource_id.id_spec()),
            crate::component::lookup_key(
                final(world).components_spec().resource_entries(),
                type_key,
            ) == Some(state.resource_id.id_spec() as usize),
    {
        let resource_id = world.add_resource(type_key, layout);
        proof {
            if crate::component::lookup_key(
                old(world).components_spec().resource_entries(),
                type_key,
            ) is None {
                crate::component::lemma_lookup_key_push(
                    old(world).components_spec().resource_entries(),
                    type_key,
                    resource_id.id_spec() as usize,
                );
            }
        }
        ResState { resource_id }
    }

    /// The resource's bytes; the declared resource missing from the store
    /// is the reported lookup fault.
    pub fn get_param(&self, world: &World) -> (result: Result<Res, StorageFault>)
        requires
            world.wf(),
        ensures
            match result {
                Ok(res) => world.resources_spec().has_column_spec(self.resource_id.id_spec())
                    && world.resources_spec().is_initialized(self.resource_id.id_spec())
                    && res.value@ == world.resources_spec().resource_bytes(self.resource_id.id_spec()),
                Err(fault) => !(world.resources_spec().has_column_spec(self.resource_id.id_spec())
                    && world.resources_spec().is_initialized(self.resource_id.id_spec())),
            },
    {
        match world.get_resource_table().get_resource(&self.resource_id) {
            Some(value) => Ok(Res { value }),
            None => Err(StorageFault::ComponentUninitOnEntity),
        }
    }
}

impl ResMutState {
    /// Registers the resource type and records its id.
    pub fn init(world: &mut World, type_key: TypeKey, layout: crate::storage::blobvec::TypeLayout) -> (state: ResMutState)
        requires
            old(world).wf(),
            layout.valid(),
            old(world).components_spec().descriptors_seq().len() + BITMASK_BLOCK_SIZE < usize::MAX,
        ensures
            final(world).wf(),
            final(world).entities_spec() == old(world).entities_spec(),
            final(world).tables_spec() == old(world).tables_spec(),
            final(world).channels() == old(world).channels(),
            final(world).components_spec().descriptors_seq().len() <= old(
                world,
            ).components_spec().descriptors_seq().len() + 1,
            final(world).resources_spec().has_column_spec(state.resource_id.id_spec()),
            crate::component::lookup_key(
                final(world).components_spec().resource_entries(),
                type_key,
            ) == Some(state.resource_id.id_spec() as usize),
    {
        let resource_id = world.add_resource(type_key, layout);
        proof {
            if crate::component::lookup_key(
                old(world).components_spec().resource_entries(),
                type_key,
            ) is None {
                crate::component::lemma_lookup_key_push(
                    old(world).components_spec().resource_entries(),
                    type_key,
                    resource_id.id_spec() as usize,
                );
            }
        }
        ResMutState { resource_id }
    }

    /// The resource's bytes, to be mutated and written back.
    pub fn get_param(&self, world: &World) -> (result: Result<ResMut, StorageFault>)
        requires
            world.wf(),
        ensures
            match result {
                Ok(res) => world.resources_spec().has_column_spec(self.resource_id.id_spec())
                    && world.resources_spec().is_initialized(self.resource_id.id_spec())
                    && res.value@ == world.resources_spec().resource_bytes(self.resource_id.id_spec()),
                Err(fault) => !(world.resources_spec().has_column_spec(self.resource_id.id_spec())
                    && world.resources_spec().is_initialized(self.resource_id.id_spec())),
            },
    {
        match world.get_resource_table().get_resource(&self.resource_id) {
            Some(value) => Ok(ResMut { value }),
            None => Err(StorageFault::ComponentUninitOnEntity),
        }
    }
}

impl OptionResState {
    pub fn init(world: &mut World, type_key: TypeKey, layout: crate::storage::blobvec::TypeLayout) -> (state: OptionResState)
        requires
            old(world).wf(),
            layout.valid(),
            old(world).components_spec().descriptors_seq().len() + BITMASK_BLOCK_SIZE < usize::MAX,
        ensures
            final(world).wf(),
            final(world).entities_spec() == old(world).entities_spec(),
            final(world).tables_spec() == old(world).tables_spec(),
            final(world).channels() == old(world).channels(),
            final(world).components_spec().descriptors_seq().len() <= old(
                world,
            ).components_spec().descriptors_seq().len() + 1,
            crate::component::lookup_key(
                final(world).components_spec().resource_entries(),
                type_key,
            ) == Some(state.resource_id.id_spec() as usize),
    {
        let resource_id = world.add_resource(type_key, layout);
        proof {
            if crate::component::lookup_key(
                old(world).components_spec().resource_entries(),
                type_key,
            ) is None {
                crate::component::lemma_lookup_key_push(
                    old(world).components_spec().resource_entries(),
                    type_key,
                    resource_id.id_spec() as usize,
                );
            }
        }
        OptionResState { resource_id }
    }

    /// The resource's bytes, or `None` while it was never initialized.
    pub fn get_param(&self, world: &World) -> (result: Option<Res>)
        requires
            world.wf(),
        ensures
            match result {
                Some(res) => world.resources_spec().is_initialized(self.resource_id.id_spec())
                    && res.value@ == world.resources_spec().resource_bytes(self.resource_id.id_spec()),
                None => !(world.resources_spec().has_column_spec(self.resource_id.id_spec())
                    && world.resources_spec().is_initialized(self.resource_id.id_spec())),
            },
    {
        match world.get_resource_table().get_resource(&self.resource_id) {
            Some(value) => Some(Res { value }),
            None => None,
        }
    }
}

impl OptionResMutState {
    pub fn init(world: &mut World, type_key: TypeKey, layout: crate::storage::blobvec::TypeLayout) -> (state: OptionResMutState)
        requires
            old(world).wf(),
            layout.valid(),
            old(world).components_spec().descriptors_seq().len() + BITMASK_BLOCK_SIZE < usize::MAX,
        ensures
            final(world).wf(),
            final(world).entities_spec() == old(world).entities_spec(),
            final(world).tables_spec() == old(world).tables_spec(),
            final(world).channels() == old(world).channels(),
            final(world).components_spec().descriptors_seq().len() <= old(
                world,
            ).components_spec().descriptors_seq().len() + 1,
            crate::component::lookup_key(
                final(world).components_spec().resource_entries(),
                type_key,
            ) == Some(state.resource_id.id_spec() as usize),
    {
        let resource_id = world.add_resource(type_key, layout);
        proof {
            if crate::component::lookup_key(
                old(world).components_spec().resource_entries(),
                type_key,
            ) is None {
                crate::component::lemma_lookup_key_push(
                    old(world).components_spec().resource_entries(),
                    type_key,
                    resource_id.id_spec() as usize,
                );
            }
        }
        OptionResMutState { resource_id }
    }

    /// The resource's bytes to mutate, or `None` while never initialized.
    pub fn get_param(&self, world: &World) -> (result: Option<ResMut>)
        requires
            world.wf(),
        ensures
            match result {
                Some(res) => world.resources_spec().is_initialized(self.resource_id.id_spec())
                    && res.value@ == world.resources_spec().resource_bytes(self.resource_id.id_spec()),
                None => !(world.resources_spec().has_column_spec(self.resource_id.id_spec())
                    && world.resources_spec().is_initialized(self.resource_id.id_spec())),
            },
    {
        match world.get_resource_table().get_resource(&self.resource_id) {
            Some(value) => Some(ResMut { value }),
            None => None,
        }
    }
}

impl LocalState {
    /// Fresh zeroed private state of `size` bytes. The store plays no
    /// part; the state belongs to the one system being initialized.
    pub fn init(size: usize) -> (state: LocalState)
        ensures
            state.value@ == Seq::new(size as nat, |k: int| 0u8),
    {
        LocalState { value: byte_vec(size) }
    }

    /// A copy of the private bytes for the function to mutate.
    pub fn get_param(&self) -> (local: Local)
        ensures
            local.value@ == self.value@,
    {
        Local { value: copy_bytes(&self.value) }
    }
}

impl EventReaderState {
    /// Registers the channel's payload type and starts the cursor at the
    /// beginning of history.
    pub fn init(world: &mut World, type_key: TypeKey, layout: crate::storage::blobvec::TypeLayout) -> (state: EventReaderState)
        requires
            old(world).wf(),
            layout.valid(),
            old(world).components_spec().descriptors_seq().len() + BITMASK_BLOCK_SIZE < usize::MAX,
            old(world).channels().len() < usize::MAX,
        ensures
            final(world).wf(),
            final(world).entities_spec() == old(world).entities_spec(),
            final(world).tables_spec() == old(world).tables_spec(),
            final(world).channels().len() <= old(world).channels().len() + 1,
            final(world).components_spec().descriptors_seq().len() <= old(
                world,
            ).components_spec().descriptors_seq().len() + 1,
            channel_lookup(final(world).channels(), state.events_id.id_spec()) is Some,
            crate::component::lookup_key(
                final(world).components_spec().resource_entries(),
                type_key,
            ) == Some(state.events_id.id_spec() as usize),
            state.last_event_count == 0,
    {
        EventReaderState { events_id: world.add_event_channel(type_key, layout), last_event_count: 0 }
    }

    /// The channel's unread events for this reader, oldest first, and the
    /// cursor advanced past them.
    pub fn get_param(&mut self, world: &World) -> (result: Result<Vec<(Vec<u8>, EventId)>, StorageFault>)
        requires
            world.wf(),
        ensures
            final(self).events_id == old(self).events_id,
            match channel_lookup(world.channels(), old(self).events_id.id_spec()) {
                Some(p) => {
                    let channel = world.channels()[p].events;
                    match result {
                        Ok(unread) => {
                            &&& final(self).last_event_count == channel.count()
                            &&& unread@.len() == channel.unread_count(old(self).last_event_count)
                            &&& forall|k: int|
                                0 <= k < unread@.len() ==> {
                                    &&& (#[trigger] unread@[k]).0@ == channel.retained()[
                                        channel.retained().len() - unread@.len() + k].event@
                                    &&& unread@[k].1.id_spec() == channel.count() - unread@.len() + k
                                }
                        },
                        Err(_) => false,
                    }
                },
                None => result == Err::<Vec<(Vec<u8>, EventId)>, StorageFault>(
                    StorageFault::ComponentNotRegistered,
                ) && final(self).last_event_count == old(self).last_event_count,
            },
    {
        proof {
            lemma_channel_lookup(world.channels(), self.events_id.id_spec());
        }
        let channel = match world.get_event_channel(&self.events_id) {
            Some(channel) => channel,
            None => {
                return Err(StorageFault::ComponentNotRegistered);
            },
        };
        let mut reader = crate::event::EventReader::with_cursor(self.last_event_count);
        let borrowed = reader.iter(channel);
        let mut unread: Vec<(Vec<u8>, EventId)> = Vec::new();
        let mut k: usize = 0;
        while k < borrowed.len()
            invariant
                k <= borrowed@.len(),
                unread@.len() == k,
                forall|l: int|
                    0 <= l < k ==> (#[trigger] unread@[l]).0@ == borrowed@[l].0@ && unread@[l].1.id_spec()
                        == borrowed@[l].1.id_spec(),
            decreases borrowed@.len() - k,
        {
            let payload = copy_bytes(borrowed[k].0);
            let id = borrowed[k].1.clone();
            unread.push((payload, id));
            k += 1;
        }
        self.last_event_count = reader.cursor_value();
        Ok(unread)
    }
}

/// A fresh zeroed byte vector.
fn byte_vec(size: usize) -> (bytes: Vec<u8>)
    ensures
        bytes@ == Seq::new(size as nat, |k: int| 0u8),
{
    let bytes = vec![0u8; size];
    proof {
        assert(bytes@ =~= Seq::new(size as nat, |k: int| 0u8));
    }
    bytes
}

/// A byte-for-byte copy.
fn copy_bytes(source: &Vec<u8>) -> (bytes: Vec<u8>)
    ensures
        bytes@ == source@,
{
    let mut bytes: Vec<u8> = Vec::new();
    let mut k: usize = 0;
    while k < source.len()
        invariant
            k <= source@.len(),
            bytes@ == source@.take(k as int),
        decreases source@.len() - k,
    {
        bytes.push(source[k]);
        proof {
            assert(bytes@ =~= source@.take(k + 1));
        }
        k += 1;
    }
    proof {
        assert(source@.take(source@.len() as int) =~= source@);
    }
    bytes
}


/// What declaring one resource-backed parameter does to the accumulated
/// access: writing collides with any earlier declaration of the same id,
/// reading only with an earlier write; the conflict leaves the access
/// untouched, a successful declaration records the id.
pub open spec fn resource_declaration_spec(
    world: World,
    key: TypeKey,
    access_pre: AccessState,
    access_post: AccessState,
    writes: bool,
    conflicted: bool,
) -> bool {
    match crate::component::lookup_key(world.components_spec().resource_entries(), key) {
        Some(id) => if writes {
            &&& (conflicted <==> write_conflicts(access_pre, id as usize))
            &&& if conflicted {
                access_post == access_pre
            } else {
                access_post.write_set() == access_pre.write_set().insert(id as usize)
                    && access_post.read_set() == access_pre.read_set()
            }
        } else {
            &&& (conflicted <==> read_conflicts(access_pre, id as usize))
            &&& if conflicted {
                access_post == access_pre
            } else {
                access_post.read_set() == access_pre.read_set().insert(id as usize)
                    && access_post.write_set() == access_pre.write_set()
            }
        },
        None => false,
    }
}

impl SystemParamState {
    /// Builds the state of one declared parameter: registers what it
    /// touches and declares its access. Fails exactly on a conflicting
    /// declaration — within a query's own units, or of a resource against
    /// the access accumulated so far.
    pub fn init(world: &mut World, param: &SystemParam, access: &mut AccessState) -> (result:
        Result<SystemParamState, AccessConflict>)
        requires
            old(world).wf(),
            param.wf(),
            old(world).components_spec().descriptors_seq().len() + MAX_SYSTEM_PARAMS as int
                + BITMASK_BLOCK_SIZE < usize::MAX,
            old(world).channels().len() < usize::MAX,
        ensures
            final(world).wf(),
            final(world).entities_spec() == old(world).entities_spec(),
            final(world).tables_spec() == old(world).tables_spec(),
            final(world).components_spec().descriptors_seq().len() <= old(
                world,
            ).components_spec().descriptors_seq().len() + MAX_SYSTEM_PARAMS as int + 1,
            final(world).channels().len() <= old(world).channels().len() + 1,
            match result {
                Ok(state) => state_compatible(state, *final(world)),
                Err(_) => true,
            },
            match *param {
                SystemParam::Query(fetches, _) => {
                    &&& (result is Err <==> crate::query::fetches_conflict(fetches@))
                    &&& *final(access) == *old(access)
                },
                SystemParam::Res(key, _) => resource_declaration_spec(
                    *final(world),
                    key,
                    *old(access),
                    *final(access),
                    false,
                    result is Err,
                ),
                SystemParam::OptionRes(key, _) => resource_declaration_spec(
                    *final(world),
                    key,
                    *old(access),
                    *final(access),
                    false,
                    result is Err,
                ),
                SystemParam::ResMut(key, _) => resource_declaration_spec(
                    *final(world),
                    key,
                    *old(access),
                    *final(access),
                    true,
                    result is Err,
                ),
                SystemParam::OptionResMut(key, _) => resource_declaration_spec(
                    *final(world),
                    key,
                    *old(access),
                    *final(access),
                    true,
                    result is Err,
                ),
                SystemParam::Local(_) => result is Ok && *final(access) == *old(access),
                SystemParam::EventReader(key, _) => resource_declaration_spec(
                    *final(world),
                    key,
                    *old(access),
                    *final(access),
                    false,
                    result is Err,
                ),
            },
    {
        match param {
            SystemParam::Query(fetches, filter) => {
                match QueryState::new(world, fetches, filter) {
                    Ok(state) => Ok(SystemParamState::Query(state)),
                    Err(conflict) => Err(conflict),
                }
            },
            SystemParam::Res(key, layout) => {
                let state = ResState::init(world, *key, *layout);
                if access.has_write(&state.resource_id) {
                    return Err(AccessConflict);
                }
                let _ = access.add_read(state.resource_id);
                Ok(SystemParamState::Res(state))
            },
            SystemParam::ResMut(key, layout) => {
                let state = ResMutState::init(world, *key, *layout);
                if access.has_any(&state.resource_id) {
                    return Err(AccessConflict);
                }
                let _ = access.add_write(state.resource_id);
                Ok(SystemParamState::ResMut(state))
            },
            SystemParam::OptionRes(key, layout) => {
                let state = OptionResState::init(world, *key, *layout);
                if access.has_write(&state.resource_id) {
                    return Err(AccessConflict);
                }
                let _ = access.add_read(state.resource_id);
                Ok(SystemParamState::OptionRes(state))
            },
            SystemParam::OptionResMut(key, layout) => {
                let state = OptionResMutState::init(world, *key, *layout);
                if access.has_any(&state.resource_id) {
                    return Err(AccessConflict);
                }
                let _ = access.add_write(state.resource_id);
                Ok(SystemParamState::OptionResMut(state))
            },
            SystemParam::Local(size) => Ok(SystemParamState::Local(LocalState::init(*size))),
            SystemParam::EventReader(key, layout) => {
                let state = EventReaderState::init(world, *key, *layout);
                if access.has_write(&state.events_id) {
                    return Err(AccessConflict);
                }
                let _ = access.add_read(state.events_id);
                Ok(SystemParamState::EventReader(state))
            },
        }
    }
}

/// What resolving one parameter leaves behind: the item it yields and the
/// state it becomes (only an event reader's cursor moves).
pub open spec fn resolved(
    pre: SystemParamState,
    post: SystemParamState,
    world: World,
    item: SystemParamItem,
) -> bool {
    match pre {
        SystemParamState::Res(state) => post == pre && match item {
            SystemParamItem::Res(res) => world.resources_spec().is_initialized(
                state.resource_id.id_spec(),
            ) && world.resources_spec().has_column_spec(state.resource_id.id_spec())
                && res.value@ == world.resources_spec().resource_bytes(state.resource_id.id_spec()),
            _ => false,
        },
        SystemParamState::ResMut(state) => post == pre && match item {
            SystemParamItem::ResMut(res) => world.resources_spec().is_initialized(
                state.resource_id.id_spec(),
            ) && world.resources_spec().has_column_spec(state.resource_id.id_spec())
                && res.value@ == world.resources_spec().resource_bytes(state.resource_id.id_spec()),
            _ => false,
        },
        SystemParamState::OptionRes(state) => post == pre && match item {
            SystemParamItem::OptionRes(optional) => match optional {
                Some(res) => world.resources_spec().is_initialized(state.resource_id.id_spec())
                    && res.value@ == world.resources_spec().resource_bytes(
                    state.resource_id.id_spec(),
                ),
                None => !(world.resources_spec().has_column_spec(state.resource_id.id_spec())
                    && world.resources_spec().is_initialized(state.resource_id.id_spec())),
            },
            _ => false,
        },
        SystemParamState::OptionResMut(state) => post == pre && match item {
            SystemParamItem::OptionResMut(optional) => match optional {
                Some(res) => world.resources_spec().is_initialized(state.resource_id.id_spec())
                    && res.value@ == world.resources_spec().resource_bytes(
                    state.resource_id.id_spec(),
                ),
                None => !(world.resources_spec().has_column_spec(state.resource_id.id_spec())
                    && world.resources_spec().is_initialized(state.resource_id.id_spec())),
            },
            _ => false,
        },
        SystemParamState::Local(state) => post == pre && match item {
            SystemParamItem::Local(local) => local.value@ == state.value@,
            _ => false,
        },
        SystemParamState::EventReader(state) => match (post, item) {
            (SystemParamState::EventReader(post_state), SystemParamItem::EventReader(unread)) => {
                match channel_lookup(world.channels(), state.events_id.id_spec()) {
                    Some(p) => {
                        let channel = world.channels()[p].events;
                        &&& post_state.events_id == state.events_id
                        &&& post_state.last_event_count == channel.count()
                        &&& unread@.len() == channel.unread_count(state.last_event_count)
                    },
                    None => false,
                }
            },
            _ => false,
        },
        SystemParamState::Query(query_state) => post == pre && match item {
            SystemParamItem::Query(rows) => {
                let positions = crate::query::positions_from(world, query_state, 0);
                &&& rows@.len() == positions.len()
                &&& forall|k: int|
                    0 <= k < rows@.len() ==> crate::query::row_matches(
                        world,
                        query_state,
                        positions[k],
                        #[trigger] rows@[k],
                    )
            },
            _ => false,
        },
    }
}

/// Derives every parameter's live value. Fails — leaving the states as
/// they were — exactly when some required resource or channel is absent.
pub fn get_params(states: &mut Vec<SystemParamState>, world: &World) -> (result: Result<
    Vec<SystemParamItem>,
    StorageFault,
>)
    requires
        world.wf(),
        states_compatible(old(states)@, *world),
    ensures
        final(states)@.len() == old(states)@.len(),
        states_compatible(final(states)@, *world),
        match result {
            Ok(items) => {
                &&& items@.len() == old(states)@.len()
                &&& forall|u: int|
                    0 <= u < old(states)@.len() ==> state_resolvable(#[trigger] old(states)@[u], *world)
                &&& forall|u: int|
                    0 <= u < old(states)@.len() ==> resolved(
                        (#[trigger] old(states)@[u]),
                        final(states)@[u],
                        *world,
                        items@[u],
                    )
            },
            Err(_) => exists|u: int|
                0 <= u < old(states)@.len() && !state_resolvable(#[trigger] old(states)@[u], *world),
        },
{
    let mut items: Vec<SystemParamItem> = Vec::new();
    let count = states.len();
    let mut u: usize = 0;
    while u < count
        invariant
            u <= count,
            count == states@.len(),
            count == old(states)@.len(),
            world.wf(),
            states_compatible(old(states)@, *world),
            items@.len() == u,
            forall|l: int| u <= l < count ==> #[trigger] states@[l] == old(states)@[l],
            forall|l: int|
                0 <= l < u ==> resolved(
                    (#[trigger] old(states)@[l]),
                    states@[l],
                    *world,
                    items@[l],
                ),
        decreases count - u,
    {
        let ghost pre_states = states@;
        proof {
            assert(states@[u as int] == old(states)@[u as int]);
        }
        let outcome: Result<SystemParamItem, StorageFault> = match &mut states[u] {
            SystemParamState::Query(query_state) => {
                Ok(SystemParamItem::Query(collect_rows(world, query_state)))
            },
            SystemParamState::Res(state) => {
                match state.get_param(world) {
                    Ok(res) => Ok(SystemParamItem::Res(res)),
                    Err(fault) => Err(fault),
                }
            },
            SystemParamState::ResMut(state) => {
                match state.get_param(world) {
                    Ok(res) => Ok(SystemParamItem::ResMut(res)),
                    Err(fault) => Err(fault),
                }
            },
            SystemParamState::OptionRes(state) => Ok(SystemParamItem::OptionRes(
                state.get_param(world),
            )),
            SystemParamState::OptionResMut(state) => Ok(SystemParamItem::OptionResMut(
                state.get_param(world),
            )),
            SystemParamState::Local(state) => Ok(SystemParamItem::Local(state.get_param())),
            SystemParamState::EventReader(state) => {
                match state.get_param(world) {
                    Ok(unread) => Ok(SystemParamItem::EventReader(unread)),
                    Err(fault) => Err(fault),
                }
            },
        };
        proof {
            assert forall|l: int| 0 <= l < count && l != u as int
                implies #[trigger] states@[l] == pre_states[l] by {}
        }
        let item = match outcome {
            Ok(item) => item,
            Err(fault) => {
                proof {
                    assert(!state_resolvable(old(states)@[u as int], *world));
                    assert forall|l: int| 0 <= l < count
                        implies state_compatible(#[trigger] states@[l], *world) by {
                        if l != u as int {
                            assert(states@[l] == pre_states[l]);
                        }
                        if (u as int) < l {
                            assert(states@[l] == old(states)@[l]);
                        } else if l < u as int {
                            assert(resolved(old(states)@[l], states@[l], *world, items@[l]));
                            match old(states)@[l] {
                                SystemParamState::Query(_) => {},
                                _ => {},
                            }
                        }
                    }
                }
                return Err(fault);
            },
        };
        items.push(item);
        proof {
            assert forall|l: int| 0 <= l < u + 1 implies resolved(
                (#[trigger] old(states)@[l]),
                states@[l],
                *world,
                items@[l],
            ) by {
                if l < u {
                    assert(states@[l] == pre_states[l]);
                }
            }
            assert forall|l: int| u + 1 <= l < count
                implies #[trigger] states@[l] == old(states)@[l] by {
                assert(states@[l] == pre_states[l]);
            }
        }
        u += 1;
    }
    proof {
        assert forall|l: int| 0 <= l < count
            implies state_compatible(#[trigger] states@[l], *world) by {
            assert(resolved(old(states)@[l], states@[l], *world, items@[l]));
        }
    }
    Ok(items)
}

/// Materializes every row a query yields right now, in order.
fn collect_rows(world: &World, query_state: &QueryState) -> (rows: Vec<QueryItem>)
    requires
        world.wf(),
        query_state.valid_for(*world),
    ensures
        rows@.len() == crate::query::positions_from(*world, *query_state, 0).len(),
        forall|k: int|
            0 <= k < rows@.len() ==> crate::query::row_matches(
                *world,
                *query_state,
                crate::query::positions_from(*world, *query_state, 0)[k],
                #[trigger] rows@[k],
            ),
{
    let mut iterator = QueryIter::new(world, query_state);
    let mut rows: Vec<QueryItem> = Vec::new();
    let ghost positions = crate::query::positions_from(*world, *query_state, 0);
    proof {
        assert(positions.skip(0) =~= positions);
    }
    loop
        invariant
            iterator.inv(),
            iterator.world_spec() == *world,
            iterator.state_spec() == *query_state,
            positions == crate::query::positions_from(*world, *query_state, 0),
            rows@.len() <= positions.len(),
            iterator.remaining() == positions.skip(rows@.len() as int),
            forall|k: int|
                0 <= k < rows@.len() ==> crate::query::row_matches(
                    *world,
                    *query_state,
                    positions[k],
                    #[trigger] rows@[k],
                ),
        decreases iterator.remaining().len(),
    {
        let ghost consumed = rows@.len() as int;
        match iterator.next() {
            Some(item) => {
                proof {
                    assert(positions.skip(consumed).first() == positions[consumed]);
                }
                rows.push(item);
                proof {
                    assert(positions.skip(consumed).drop_first() =~= positions.skip(consumed + 1));
                }
            },
            None => {
                proof {
                    assert(positions.skip(consumed).len() == 0);
                    assert(rows@.len() == positions.len());
                }
                return rows;
            },
        }
    }
}

/// What writing one parameter back does to its own state: the bytes a
/// function left in a `Local` item become the state's persistent bytes —
/// that is how one system instance observes a running total across runs —
/// and every other kind's state is left alone.
pub open spec fn applied(pre: SystemParamState, post: SystemParamState, item: SystemParamItem) -> bool {
    match (pre, item) {
        (SystemParamState::Local(_), SystemParamItem::Local(local)) => match post {
            SystemParamState::Local(state) => state.value@ == local.value@,
            _ => false,
        },
        _ => post == pre,
    }
}

/// Writes the mutable parameters back: `Local` bytes always persist to
/// the state; a `ResMut` or present `OptionResMut` value returns to the
/// store when the function kept its byte size, and is discarded when not.
pub fn apply_params(states: &mut Vec<SystemParamState>, world: &mut World, items: &Vec<SystemParamItem>)
    requires
        old(world).wf(),
        states_compatible(old(states)@, *old(world)),
    ensures
        final(world).wf(),
        crate::system::same_shape(*old(world), *final(world)),
        final(states)@.len() == old(states)@.len(),
        states_compatible(final(states)@, *final(world)),
        forall|u: int|
            0 <= u < old(states)@.len() ==> if u < items@.len() {
                applied((#[trigger] old(states)@[u]), final(states)@[u], items@[u])
            } else {
                final(states)@[u] == old(states)@[u]
            },
{
    let count = states.len();
    let mut u: usize = 0;
    while u < count
        invariant
            u <= count,
            count == states@.len(),
            count == old(states)@.len(),
            world.wf(),
            crate::system::same_shape(*old(world), *world),
            states_compatible(old(states)@, *old(world)),
            forall|l: int|
                0 <= l < count ==> state_compatible(#[trigger] states@[l], *world),
            forall|l: int| u <= l < count ==> #[trigger] states@[l] == old(states)@[l],
            forall|l: int|
                0 <= l < u ==> if l < items@.len() {
                    applied((#[trigger] old(states)@[l]), states@[l], items@[l])
                } else {
                    states@[l] == old(states)@[l]
                },
        decreases count - u,
    {
        let ghost pre_states = states@;
        let ghost pre_world = *world;
        if u < items.len() {
            let mut size_ok = false;
            let mut resource_id = ComponentId::from_index(0);
            let mut write_value: Option<&Vec<u8>> = None;
            match (&states[u], &items[u]) {
                (SystemParamState::ResMut(state), SystemParamItem::ResMut(res)) => {
                    resource_id = state.resource_id;
                    write_value = Some(&res.value);
                },
                (SystemParamState::OptionResMut(state), SystemParamItem::OptionResMut(Some(res))) => {
                    resource_id = state.resource_id;
                    write_value = Some(&res.value);
                },
                _ => {},
            }
            match write_value {
                Some(value) => {
                    write_back_resource(world, &resource_id, value);
                },
                None => {},
            }
            let is_local_pair = matches!(
                (&states[u], &items[u]),
                (SystemParamState::Local(_), SystemParamItem::Local(_))
            );
            if is_local_pair {
                let local_value: Option<Vec<u8>> = match &items[u] {
                    SystemParamItem::Local(local) => Some(copy_bytes(&local.value)),
                    _ => None,
                };
                match local_value {
                    Some(value) => {
                        match &mut states[u] {
                            SystemParamState::Local(state) => {
                                state.value = value;
                            },
                            _ => {},
                        }
                    },
                    None => {},
                }
            }
            proof {
                assert forall|l: int| 0 <= l < count && l != u as int
                    implies #[trigger] states@[l] == pre_states[l] by {}
                assert forall|l: int| 0 <= l < count
                    implies state_compatible(#[trigger] states@[l], *world) by {
                    if l != u as int {
                        assert(states@[l] == pre_states[l]);
                    }
                    lemma_state_compatible_stable(states@[l], pre_world, *world);
                }
            }
        } else {
            proof {
                assert forall|l: int| 0 <= l < count
                    implies state_compatible(#[trigger] states@[l], *world) by {}
            }
        }
        u += 1;
    }
}

/// Writes a resource's bytes back when the resource is still live and the
/// bytes kept their size; anything else is discarded.
fn write_back_resource(world: &mut World, resource_id: &ComponentId, value: &Vec<u8>)
    requires
        old(world).wf(),
    ensures
        final(world).wf(),
        crate::system::same_shape(*old(world), *final(world)),
        final(world).tables_spec() == old(world).tables_spec(),
{
    let resources = world.get_resource_table_mut();
    let live = match resources.get_resource(resource_id) {
        Some(current) => current.len() == value.len(),
        None => false,
    };
    if live {
        proof {
            crate::storage::resource_table::lemma_resource_bytes_size(
                *resources,
                resource_id.id_spec(),
            );
        }
        resources.write_resource_unchecked(resource_id, value);
    }
}

} // verus!
