//! The store root: one value owning the entity list, the identity
//! registry, the resource table, all archetype tables, and the event
//! channels. One world is mutated and read by one driver loop per cycle.

use vstd::prelude::*;

use crate::component::{ComponentId, Components, TypeKey, BITMASK_BLOCK_SIZE};
use crate::entity::Entities;
use crate::error::StorageFault;
use crate::event::{EventInstance, Events};
use crate::storage::blobvec::TypeLayout;
use crate::storage::resource_table::ResourceTable;
use crate::storage::table::Tables;

verus! {

/// One event channel of the world: the channel of the resource identity
/// its payload type was registered under. Payloads are raw bytes, as in
/// the columns.
pub struct EventChannel {
    /// The resource identity of the channel's payload type.
    pub resource_id: usize,
    /// The double-buffered channel itself.
    pub events: Events<Vec<u8>>,
}

/// First channel registered for resource `id`.
pub open spec fn channel_lookup(channels: Seq<EventChannel>, id: usize) -> Option<int>
    decreases channels.len(),
{
    if channels.len() == 0 {
        None
    } else if channels.first().resource_id == id {
        Some(0)
    } else {
        match channel_lookup(channels.drop_first(), id) {
            Some(p) => Some(p + 1),
            None => None,
        }
    }
}

/// What a channel search answers about the channel list.
pub proof fn lemma_channel_lookup(channels: Seq<EventChannel>, id: usize)
    ensures
        match channel_lookup(channels, id) {
            Some(p) => 0 <= p < channels.len() && channels[p].resource_id == id,
            None => forall|j: int| 0 <= j < channels.len() ==> (#[trigger] channels[j]).resource_id != id,
        },
    decreases channels.len(),
{
    if channels.len() > 0 && channels.first().resource_id != id {
        lemma_channel_lookup(channels.drop_first(), id);
        if channel_lookup(channels, id) is None {
            assert forall|j: int| 0 <= j < channels.len()
                implies (#[trigger] channels[j]).resource_id != id by {
                if j > 0 {
                    assert(channels.drop_first()[j - 1] == channels[j]);
                }
            }
        }
    }
}

/// The whole store.
pub struct World {
    entities: Entities,
    components: Components,
    resources: ResourceTable,
    tables: Tables,
    events: Vec<EventChannel>,
}

impl World {
    pub closed spec fn entities_spec(&self) -> Entities {
        self.entities
    }

    pub closed spec fn components_spec(&self) -> Components {
        self.components
    }

    pub closed spec fn resources_spec(&self) -> ResourceTable {
        self.resources
    }

    pub closed spec fn tables_spec(&self) -> Tables {
        self.tables
    }

    pub closed spec fn channels(&self) -> Seq<EventChannel> {
        self.events@
    }

    /// Store soundness: each part is sound and every event channel is a
    /// sound channel of a distinct resource id.
    pub open spec fn wf(&self) -> bool {
        &&& self.components_spec().wf()
        &&& self.resources_spec().wf()
        &&& self.tables_spec().wf()
        &&& forall|j: int| 0 <= j < self.channels().len() ==> (#[trigger] self.channels()[j]).events.wf()
        &&& forall|j: int, l: int|
            0 <= j < self.channels().len() && 0 <= l < self.channels().len() && j != l ==> (
            #[trigger] self.channels()[j]).resource_id != (#[trigger] self.channels()[l]).resource_id
    }

    pub fn new() -> (world: World)
        ensures
            world.wf(),
            world.entities_spec()@ == Seq::<crate::entity::Entity>::empty(),
            world.components_spec().descriptors_seq() == Seq::<
                crate::component::ComponentDescriptor,
            >::empty(),
            world.tables_spec().tables_seq() == Seq::<crate::storage::table::Table>::empty(),
            world.channels() == Seq::<EventChannel>::empty(),
    {
        World {
            entities: Entities::new(),
            components: Components::new(),
            resources: ResourceTable::new(),
            tables: Tables::new(),
            events: Vec::new(),
        }
    }

    /// Registers a per-entity component type; idempotent per key.
    pub fn add_component(&mut self, type_key: TypeKey, layout: TypeLayout) -> (id: ComponentId)
        requires
            old(self).wf(),
            layout.valid(),
            old(self).components_spec().descriptors_seq().len() + BITMASK_BLOCK_SIZE < usize::MAX,
        ensures
            final(self).wf(),
            Components::register_spec(
                old(self).components_spec(),
                final(self).components_spec(),
                old(self).components_spec().component_entries(),
                final(self).components_spec().component_entries(),
                type_key,
                layout,
                id,
            ),
            final(self).components_spec().resource_entries() == old(
                self,
            ).components_spec().resource_entries(),
            final(self).entities_spec() == old(self).entities_spec(),
            final(self).resources_spec() == old(self).resources_spec(),
            final(self).tables_spec() == old(self).tables_spec(),
            final(self).channels() == old(self).channels(),
    {
        let id = self.components.add_component(type_key, layout);
        proof {
            lemma_channels_wf_preserved(*old(self), *self);
        }
        id
    }

    /// Registers a singleton resource type and its column on the resource
    /// table; idempotent per key.
    pub fn add_resource(&mut self, type_key: TypeKey, layout: TypeLayout) -> (id: ComponentId)
        requires
            old(self).wf(),
            layout.valid(),
            old(self).components_spec().descriptors_seq().len() + BITMASK_BLOCK_SIZE < usize::MAX,
        ensures
            final(self).wf(),
            Components::register_spec(
                old(self).components_spec(),
                final(self).components_spec(),
                old(self).components_spec().resource_entries(),
                final(self).components_spec().resource_entries(),
                type_key,
                layout,
                id,
            ),
            final(self).components_spec().component_entries() == old(
                self,
            ).components_spec().component_entries(),
            final(self).resources_spec().has_column_spec(id.id_spec()),
            forall|other: usize|
                old(self).resources_spec().has_column_spec(other) ==> final(self).resources_spec().has_column_spec(other) && final(self).resources_spec().resource_bytes(
                    other,
                ) == old(self).resources_spec().resource_bytes(other),
            final(self).resources_spec().initialized_ids() == old(
                self,
            ).resources_spec().initialized_ids(),
            final(self).entities_spec() == old(self).entities_spec(),
            final(self).tables_spec() == old(self).tables_spec(),
            final(self).channels() == old(self).channels(),
    {
        let id = self.components.add_resource(type_key, layout);
        let descriptor = crate::component::ComponentDescriptor::of(id, type_key, layout);
        self.resources.add_column(&descriptor);
        proof {
            lemma_channels_wf_preserved(*old(self), *self);
        }
        id
    }

    pub fn get_entities(&self) -> (entities: &Entities)
        ensures
            *entities == self.entities_spec(),
    {
        &self.entities
    }

    pub fn get_entities_mut(&mut self) -> (entities: &mut Entities)
        ensures
            *entities == old(self).entities_spec(),
            final(self).entities_spec() == *final(entities),
            final(self).components_spec() == old(self).components_spec(),
            final(self).resources_spec() == old(self).resources_spec(),
            final(self).tables_spec() == old(self).tables_spec(),
            final(self).channels() == old(self).channels(),
    {
        &mut self.entities
    }

    pub fn get_components(&self) -> (components: &Components)
        ensures
            *components == self.components_spec(),
    {
        &self.components
    }

    pub fn get_components_mut(&mut self) -> (components: &mut Components)
        ensures
            *components == old(self).components_spec(),
            final(self).components_spec() == *final(components),
            final(self).entities_spec() == old(self).entities_spec(),
            final(self).resources_spec() == old(self).resources_spec(),
            final(self).tables_spec() == old(self).tables_spec(),
            final(self).channels() == old(self).channels(),
    {
        &mut self.components
    }

    pub fn get_resource_table(&self) -> (resources: &ResourceTable)
        ensures
            *resources == self.resources_spec(),
    {
        &self.resources
    }

    pub fn get_resource_table_mut(&mut self) -> (resources: &mut ResourceTable)
        ensures
            *resources == old(self).resources_spec(),
            final(self).resources_spec() == *final(resources),
            final(self).entities_spec() == old(self).entities_spec(),
            final(self).components_spec() == old(self).components_spec(),
            final(self).tables_spec() == old(self).tables_spec(),
            final(self).channels() == old(self).channels(),
    {
        &mut self.resources
    }

    pub fn get_tables(&self) -> (tables: &Tables)
        ensures
            *tables == self.tables_spec(),
    {
        &self.tables
    }

    pub fn get_tables_mut(&mut self) -> (tables: &mut Tables)
        ensures
            *tables == old(self).tables_spec(),
            final(self).tables_spec() == *final(tables),
            final(self).entities_spec() == old(self).entities_spec(),
            final(self).components_spec() == old(self).components_spec(),
            final(self).resources_spec() == old(self).resources_spec(),
            final(self).channels() == old(self).channels(),
    {
        &mut self.tables
    }

    /// Registers the resource identity for an event payload type and opens
    /// its channel if this is the first sight of the key.
    pub fn add_event_channel(&mut self, type_key: TypeKey, layout: TypeLayout) -> (id: ComponentId)
        requires
            old(self).wf(),
            layout.valid(),
            old(self).components_spec().descriptors_seq().len() + BITMASK_BLOCK_SIZE < usize::MAX,
            old(self).channels().len() < usize::MAX,
        ensures
            final(self).wf(),
            final(self).components_spec().descriptors_seq().len() <= old(
                self,
            ).components_spec().descriptors_seq().len() + 1,
            channel_lookup(final(self).channels(), id.id_spec()) is Some,
            crate::component::lookup_key(
                final(self).components_spec().resource_entries(),
                type_key,
            ) == Some(id.id_spec() as usize),
            match channel_lookup(old(self).channels(), id.id_spec()) {
                Some(p) => final(self).channels() == old(self).channels(),
                None => {
                    &&& final(self).channels().len() == old(self).channels().len() + 1
                    &&& forall|j: int|
                        0 <= j < old(self).channels().len() ==> #[trigger] final(self).channels()[j]
                            == old(self).channels()[j]
                    &&& final(self).channels().last().resource_id == id.id_spec()
                    &&& final(self).channels().last().events.count() == 0
                    &&& final(self).channels().last().events.retained() == Seq::<
                        EventInstance<Vec<u8>>,
                    >::empty()
                },
            },
            final(self).entities_spec() == old(self).entities_spec(),
            final(self).tables_spec() == old(self).tables_spec(),
    {
        let id = self.add_resource(type_key, layout);
        proof {
            if crate::component::lookup_key(
                old(self).components_spec().resource_entries(),
                type_key,
            ) is None {
                crate::component::lemma_lookup_key_push(
                    old(self).components_spec().resource_entries(),
                    type_key,
                    id.id_spec() as usize,
                );
            }
            lemma_channel_lookup(self.events@, id.id_spec());
        }
        match self.find_channel(id.id()) {
            Some(_) => id,
            None => {
                self.events.push(EventChannel { resource_id: id.id(), events: Events::new() });
                proof {
                    lemma_channel_lookup_push(
                        old(self).channels(),
                        self.channels().last(),
                        id.id_spec(),
                    );
                    assert forall|j: int, l: int|
                        0 <= j < self.channels().len() && 0 <= l < self.channels().len() && j != l
                        implies (#[trigger] self.channels()[j]).resource_id != (
                        #[trigger] self.channels()[l]).resource_id by {
                        lemma_channel_lookup(old(self).channels(), id.id_spec());
                    }
                }
                id
            },
        }
    }

    /// Position of the channel for resource `id`.
    fn find_channel(&self, id: usize) -> (position: Option<usize>)
        ensures
            match position {
                Some(p) => channel_lookup(self.channels(), id) == Some(p as int),
                None => channel_lookup(self.channels(), id) is None,
            },
    {
        let mut j: usize = 0;
        proof {
            assert(self.channels().skip(0) =~= self.channels());
        }
        while j < self.events.len()
            invariant
                j <= self.channels().len(),
                match channel_lookup(self.channels().skip(j as int), id) {
                    Some(p) => channel_lookup(self.channels(), id) == Some(p + j),
                    None => channel_lookup(self.channels(), id) is None,
                },
                forall|l: int| 0 <= l < j ==> (#[trigger] self.channels()[l]).resource_id != id,
            decreases self.channels().len() - j,
        {
            let ghost rest = self.channels().skip(j as int);
            if self.events[j].resource_id == id {
                proof {
                    assert(rest.first() == self.channels()[j as int]);
                    reveal_with_fuel(channel_lookup, 2);
                }
                return Some(j);
            }
            j += 1;
            proof {
                assert(rest.first() == self.channels()[j - 1]);
                assert(rest.drop_first() =~= self.channels().skip(j as int));
                reveal_with_fuel(channel_lookup, 2);
            }
        }
        proof {
            assert(self.channels().skip(j as int) =~= Seq::<EventChannel>::empty());
            reveal_with_fuel(channel_lookup, 1);
        }
        None
    }

    /// The channel of resource `id`, for reading.
    pub fn get_event_channel(&self, id: &ComponentId) -> (channel: Option<&Events<Vec<u8>>>)
        ensures
            match channel_lookup(self.channels(), id.id_spec()) {
                Some(p) => channel is Some && *channel.unwrap() == self.channels()[p].events,
                None => channel is None,
            },
    {
        match self.find_channel(id.id()) {
            Some(p) => {
                proof {
                    lemma_channel_lookup(self.channels(), id.id_spec());
                }
                Some(&self.events[p].events)
            },
            None => None,
        }
    }

    /// Appends one event to the channel of resource `id`; the error names
    /// an unregistered channel.
    pub fn send_event(&mut self, id: &ComponentId, payload: Vec<u8>) -> (result: Result<
        usize,
        StorageFault,
    >)
        requires
            old(self).wf(),
            match channel_lookup(old(self).channels(), id.id_spec()) {
                Some(p) => old(self).channels()[p].events.count() < usize::MAX,
                None => true,
            },
        ensures
            final(self).wf(),
            final(self).entities_spec() == old(self).entities_spec(),
            final(self).components_spec() == old(self).components_spec(),
            final(self).resources_spec() == old(self).resources_spec(),
            final(self).tables_spec() == old(self).tables_spec(),
            match channel_lookup(old(self).channels(), id.id_spec()) {
                Some(p) => {
                    &&& result == Ok::<usize, StorageFault>(old(self).channels()[p].events.count())
                    &&& final(self).channels().len() == old(self).channels().len()
                    &&& forall|j: int|
                        0 <= j < old(self).channels().len() && j != p ==> #[trigger] final(self).channels()[j] == old(self).channels()[j]
                    &&& final(self).channels()[p].resource_id == id.id_spec()
                    &&& final(self).channels()[p].events.count() == old(self).channels()[p].events.count()
                        + 1
                    &&& final(self).channels()[p].events.retained().len() == old(
                        self,
                    ).channels()[p].events.retained().len() + 1
                    &&& forall|i: int|
                        0 <= i < old(self).channels()[p].events.retained().len() ==> #[trigger] final(self).channels()[p].events.retained()[i] == old(self).channels()[p].events.retained()[i]
                    &&& final(self).channels()[p].events.retained().last().id.id_spec() == old(
                        self,
                    ).channels()[p].events.count()
                    &&& final(self).channels()[p].events.retained().last().event == payload
                    &&& final(self).channels()[p].events.retained_start() == old(
                        self,
                    ).channels()[p].events.retained_start()
                    &&& final(self).channels()[p].events.active_start() == old(
                        self,
                    ).channels()[p].events.active_start()
                },
                None => result == Err::<usize, StorageFault>(StorageFault::ComponentNotRegistered)
                    && final(self).channels() == old(self).channels(),
            },
    {
        proof {
            lemma_channel_lookup(self.channels(), id.id_spec());
        }
        match self.find_channel(id.id()) {
            Some(p) => {
                let ghost pre = self.channels();
                proof {
                    assert(self.channels()[p as int].events.wf());
                }
                let event_id = self.events[p].events.send(payload);
                proof {
                    assert forall|j: int, l: int|
                        0 <= j < self.channels().len() && 0 <= l < self.channels().len() && j != l
                        implies (#[trigger] self.channels()[j]).resource_id != (
                        #[trigger] self.channels()[l]).resource_id by {
                        assert(self.channels()[j].resource_id == pre[j].resource_id);
                        assert(self.channels()[l].resource_id == pre[l].resource_id);
                    }
                    assert forall|j: int| 0 <= j < self.channels().len()
                        implies (#[trigger] self.channels()[j]).events.wf() by {
                        if j != p {
                            assert(self.channels()[j] == pre[j]);
                        }
                    }
                }
                Ok(event_id)
            },
            None => Err(StorageFault::ComponentNotRegistered),
        }
    }

    /// Rotates the buffers of every event channel; call once per cycle.
    pub fn update_events(&mut self)
        requires
            old(self).wf(),
        ensures
            final(self).wf(),
            final(self).entities_spec() == old(self).entities_spec(),
            final(self).components_spec() == old(self).components_spec(),
            final(self).resources_spec() == old(self).resources_spec(),
            final(self).tables_spec() == old(self).tables_spec(),
            final(self).channels().len() == old(self).channels().len(),
            forall|j: int|
                0 <= j < old(self).channels().len() ==> {
                    &&& (#[trigger] final(self).channels()[j]).resource_id == old(
                        self,
                    ).channels()[j].resource_id
                    &&& Events::update_spec(
                        old(self).channels()[j].events,
                        final(self).channels()[j].events,
                    )
                },
    {
        let count = self.events.len();
        let mut j: usize = 0;
        while j < count
            invariant
                j <= count,
                count == self.channels().len(),
                count == old(self).channels().len(),
                self.entities == old(self).entities,
                self.components == old(self).components,
                self.resources == old(self).resources,
                self.tables == old(self).tables,
                old(self).wf(),
                forall|l: int|
                    j <= l < count ==> #[trigger] self.channels()[l] == old(self).channels()[l],
                forall|l: int|
                    0 <= l < j ==> {
                        &&& (#[trigger] self.channels()[l]).events.wf()
                        &&& self.channels()[l].resource_id == old(self).channels()[l].resource_id
                        &&& Events::update_spec(old(self).channels()[l].events, self.channels()[l].events)
                    },
            decreases count - j,
        {
            let ghost pre = self.channels();
            proof {
                assert(self.channels()[j as int] == old(self).channels()[j as int]);
                assert(self.channels()[j as int].events.wf());
            }
            self.events[j].events.update();
            proof {
                assert forall|l: int| 0 <= l < j + 1 implies {
                    &&& (#[trigger] self.channels()[l]).events.wf()
                    &&& self.channels()[l].resource_id == old(self).channels()[l].resource_id
                    &&& Events::update_spec(old(self).channels()[l].events, self.channels()[l].events)
                } by {
                    if l < j {
                        assert(self.channels()[l] == pre[l]);
                    }
                }
                assert forall|l: int| j + 1 <= l < count
                    implies #[trigger] self.channels()[l] == old(self).channels()[l] by {
                    assert(self.channels()[l] == pre[l]);
                }
            }
            j += 1;
        }
        proof {
            assert forall|j: int, l: int|
                0 <= j < self.channels().len() && 0 <= l < self.channels().len() && j != l
                implies (#[trigger] self.channels()[j]).resource_id != (
                #[trigger] self.channels()[l]).resource_id by {
                assert(self.channels()[j].resource_id == old(self).channels()[j].resource_id);
                assert(self.channels()[l].resource_id == old(self).channels()[l].resource_id);
            }
        }
    }
}

/// Channel soundness carries over unchanged channel lists.
proof fn lemma_channels_wf_preserved(pre: World, post: World)
    requires
        pre.wf(),
        post.channels() == pre.channels(),
    ensures
        forall|j: int| 0 <= j < post.channels().len() ==> (#[trigger] post.channels()[j]).events.wf(),
        forall|j: int, l: int|
            0 <= j < post.channels().len() && 0 <= l < post.channels().len() && j != l ==> (
            #[trigger] post.channels()[j]).resource_id != (#[trigger] post.channels()[l]).resource_id,
{
    assert forall|j: int| 0 <= j < post.channels().len()
        implies (#[trigger] post.channels()[j]).events.wf() by {
        assert(post.channels()[j] == pre.channels()[j]);
    }
    assert forall|j: int, l: int|
        0 <= j < post.channels().len() && 0 <= l < post.channels().len() && j != l
        implies (#[trigger] post.channels()[j]).resource_id != (
        #[trigger] post.channels()[l]).resource_id by {
        assert(post.channels()[j] == pre.channels()[j]);
        assert(post.channels()[l] == pre.channels()[l]);
    }
}

/// A fresh channel id becomes findable once its channel is pushed.
proof fn lemma_channel_lookup_push(channels: Seq<EventChannel>, channel: EventChannel, id: usize)
    requires
        channel_lookup(channels, id) is None,
        channel.resource_id == id,
    ensures
        channel_lookup(channels.push(channel), id) == Some(channels.len() as int),
    decreases channels.len(),
{
    if channels.len() == 0 {
        assert(channels.push(channel).first() == channel);
        reveal_with_fuel(channel_lookup, 2);
    } else {
        assert(channels.push(channel).first() == channels.first());
        assert(channels.push(channel).drop_first() =~= channels.drop_first().push(channel));
        lemma_channel_lookup_push(channels.drop_first(), channel, id);
    }
}

} // verus!
