//! The identity registry, access rules, events, queries and systems.

use light::component::{ComponentDescriptor, ComponentId, Components, TypeKey};
use light::entity::Entity;
use light::event::{EventReader, Events};
use light::query::{AccessState, FetchQuery, FilterQuery, Query, QueryState, RefFetchState, RefMutFetchState};
use light::storage::blobvec::TypeLayout;
use light::system::param::{SystemParam, SystemParamItem};
use light::system::{In, IntoSystem, System, SystemParamFunction};
use light::world::World;

use std::ops::{BitAnd, BitOr};

use fixedbitset::FixedBitSet;

fn layout8() -> TypeLayout {
    TypeLayout::new(8, 8)
}

fn cell(value: u64) -> Vec<u8> {
    value.to_le_bytes().to_vec()
}

fn value_of(cell: &Vec<u8>) -> u64 {
    let mut bytes = [0u8; 8];
    bytes.copy_from_slice(&cell[..8]);
    u64::from_le_bytes(bytes)
}

#[test]
fn fixedbitset() {
    let mut b32 = FixedBitSet::with_capacity(32);
    let mut b64 = FixedBitSet::with_capacity(64);
    let b100 = FixedBitSet::with_capacity(100);

    b32.set(3, true);
    b64.set(40, true);

    let bor = (&b32).bitor(&b64);
    let band = (&b32).bitand(&b64);
    println!("b100:   {:?}", b100);
    println!("bor:    {:?}\n{}", bor, bor);
    println!("band:   {:?}\n{}", band, band);
}

#[test]
fn bitwise() {
    println!("{}", 1 << 4);
    assert_eq!(16, 1 << 4);
}

#[test]
fn registering_twice_answers_the_same_id() {
    let mut components = Components::new();
    let first = components.add_component(TypeKey(7), layout8());
    let second = components.add_component(TypeKey(7), TypeLayout::new(4, 4));
    assert_eq!(first.id(), second.id());

    let other = components.add_component(TypeKey(8), layout8());
    assert_ne!(first.id(), other.id());

    // Components and resources draw on disjoint id spaces.
    let resource = components.add_resource(TypeKey(7), layout8());
    assert_ne!(resource.id(), first.id());
    assert!(components.get_component(TypeKey(7)).is_some());
    assert!(components.get_component(TypeKey(9)).is_none());
    assert!(components.get_resource(TypeKey(7)).is_some());
}

#[test]
fn access_conflicts() {
    // write(X) then read(X) conflicts.
    let mut access = AccessState::empty();
    let x = ComponentId::from_index(1);
    let y = ComponentId::from_index(2);
    assert!(access.add_write(x));
    assert!(access.has_write(&x));
    assert!(access.has_any(&x));

    // read(X) twice does not conflict.
    let mut reads = AccessState::empty();
    assert!(reads.add_read(x));
    assert!(!reads.add_read(x));
    assert!(reads.has_read(&x));

    // write(X) then write(Y) with distinct ids does not conflict.
    assert!(!access.has_any(&y));
    assert!(access.add_write(y));
}

#[test]
fn declared_write_then_read_conflicts() {
    let x = ComponentId::from_index(1);
    let y = ComponentId::from_index(2);

    // write(X) then read(X) is a conflict.
    let mut access = AccessState::empty();
    assert!(RefMutFetchState { component_id: x }.update_access(&mut access).is_ok());
    assert!(RefFetchState { component_id: x }.update_access(&mut access).is_err());

    // read(X) then read(X) again is not.
    let mut reads = AccessState::empty();
    assert!(RefFetchState { component_id: x }.update_access(&mut reads).is_ok());
    assert!(RefFetchState { component_id: x }.update_access(&mut reads).is_ok());

    // write(X) then write(Y) with distinct components is not.
    let mut writes = AccessState::empty();
    assert!(RefMutFetchState { component_id: x }.update_access(&mut writes).is_ok());
    assert!(RefMutFetchState { component_id: y }.update_access(&mut writes).is_ok());
}

#[test]
fn query_construction_rejects_conflicts() {
    let mut world = World::new();
    let fetches = vec![
        FetchQuery::RefMut(TypeKey(1), layout8()),
        FetchQuery::Ref(TypeKey(1), layout8()),
    ];
    assert!(QueryState::new(&mut world, &fetches, &FilterQuery::Unit).is_err());

    let mut fresh = World::new();
    let fine = vec![
        FetchQuery::Ref(TypeKey(1), layout8()),
        FetchQuery::Ref(TypeKey(1), layout8()),
        FetchQuery::RefMut(TypeKey(2), layout8()),
    ];
    assert!(QueryState::new(&mut fresh, &fine, &FilterQuery::Unit).is_ok());
}

#[test]
fn query_yields_only_matching_tables_in_order() {
    let mut world = World::new();
    let position = world.add_component(TypeKey(1), layout8());
    let velocity = world.add_component(TypeKey(2), layout8());

    let with_both = world.get_tables_mut().get_or_create_table(&vec![
        ComponentDescriptor::of(position, TypeKey(1), layout8()),
        ComponentDescriptor::of(velocity, TypeKey(2), layout8()),
    ]);
    let missing_velocity = world.get_tables_mut().get_or_create_table(&vec![
        ComponentDescriptor::of(position, TypeKey(1), layout8()),
    ]);

    {
        let tables = world.get_tables_mut();
        let table = tables.get_table_mut(with_both).unwrap();
        for row in 0..3u64 {
            let r = table.add_row(Entity::new(row as usize, with_both));
            table.get_column_mut(&position).unwrap().init_unchecked(r, &cell(10 + row));
            table.get_column_mut(&velocity).unwrap().init_unchecked(r, &cell(20 + row));
        }
        let other = tables.get_table_mut(missing_velocity).unwrap();
        let r = other.add_row(Entity::new(9, missing_velocity));
        other.get_column_mut(&position).unwrap().init_unchecked(r, &cell(99));
    }

    let fetches = vec![
        FetchQuery::Ref(TypeKey(1), layout8()),
        FetchQuery::Ref(TypeKey(2), layout8()),
    ];
    let state = QueryState::new(&mut world, &fetches, &FilterQuery::Unit).unwrap();
    let query = Query::new(&world, &state);
    let mut rows = Vec::new();
    let mut iterator = query.iter();
    while let Some(item) = iterator.next() {
        rows.push((item.entity, value_of(&item.cells[0]), value_of(&item.cells[1])));
    }

    assert_eq!(rows.len(), 3);
    for (k, row) in rows.iter().enumerate() {
        assert_eq!(row.0, Entity::new(k, with_both));
        assert_eq!(row.1, 10 + k as u64);
        assert_eq!(row.2, 20 + k as u64);
    }
}

#[test]
fn query_state_is_blind_to_later_tables() {
    let mut world = World::new();
    let position = world.add_component(TypeKey(1), layout8());
    let fetches = vec![FetchQuery::Ref(TypeKey(1), layout8())];
    let state = QueryState::new(&mut world, &fetches, &FilterQuery::Unit).unwrap();

    // A matching table created after the state was built is invisible.
    let late = world.get_tables_mut().get_or_create_table(&vec![
        ComponentDescriptor::of(position, TypeKey(1), layout8()),
    ]);
    let table = world.get_tables_mut().get_table_mut(late).unwrap();
    let r = table.add_row(Entity::new(0, late));
    table.get_column_mut(&position).unwrap().init_unchecked(r, &cell(5));

    let query = Query::new(&world, &state);
    let mut iterator = query.iter();
    assert!(iterator.next().is_none());
}

#[test]
fn event_round_trip_and_retention_window() {
    let mut events: Events<u64> = Events::new();
    let mut reader = EventReader::new();

    let a = events.send(701);
    let b = events.send(702);
    assert_eq!(a, 0);
    assert_eq!(b, 1);
    events.update();

    // The reader observes both, in send order, exactly once.
    assert_eq!(events.event_reader_len(reader.cursor_value()), 2);
    let unread: Vec<(u64, usize)> = reader.iter(&events).into_iter().map(|(v, id)| (*v, id.id())).collect();
    assert_eq!(unread, vec![(701, 0), (702, 1)]);
    assert_eq!(reader.iter(&events).len(), 0);

    // One more update without reads: the first-cycle reader misses nothing
    // it already consumed, and the events stay for one full cycle.
    events.update();
    assert_eq!(reader.iter(&events).len(), 0);
}

#[test]
fn events_cleared_after_two_silent_updates() {
    let mut events: Events<u64> = Events::new();
    events.send(1);
    events.send(2);
    events.send(3);
    events.update();
    events.update();

    // A fresh reader slept through the retention window: zero recoverable.
    let mut reader = EventReader::new();
    assert_eq!(events.event_reader_len(0), 0);
    assert_eq!(reader.iter(&events).len(), 0);
}

struct CountingSystem;

impl SystemParamFunction for CountingSystem {
    type FnIn = ();

    type FnOut = u64;

    fn param_spec(&self) -> Vec<SystemParam> {
        vec![SystemParam::Local(8)]
    }

    fn run(&mut self, _input: In<()>, params: &mut Vec<SystemParamItem>) -> u64 {
        match &mut params[0] {
            SystemParamItem::Local(local) => {
                let current = value_of(&local.value) + 1;
                local.value = cell(current);
                current
            },
            _ => panic!("declared a single local parameter"),
        }
    }
}

#[test]
fn local_is_unique_per_system() {
    let mut world = World::new();
    let mut first = CountingSystem.system();
    let mut second = CountingSystem.system();
    first.initialize(&mut world).unwrap();
    second.initialize(&mut world).unwrap();

    // The same instance accumulates; the other instance is untouched.
    assert_eq!(first.run(&mut world, ()).unwrap(), 1);
    assert_eq!(first.run(&mut world, ()).unwrap(), 2);
    assert_eq!(second.run(&mut world, ()).unwrap(), 1);
    assert_eq!(first.run(&mut world, ()).unwrap(), 3);
}

struct ReadFps;

impl SystemParamFunction for ReadFps {
    type FnIn = ();

    type FnOut = u64;

    fn param_spec(&self) -> Vec<SystemParam> {
        vec![SystemParam::Res(TypeKey(40), TypeLayout::new(8, 8))]
    }

    fn run(&mut self, _input: In<()>, params: &mut Vec<SystemParamItem>) -> u64 {
        match &params[0] {
            SystemParamItem::Res(res) => value_of(&res.value),
            _ => panic!("declared a single resource parameter"),
        }
    }
}

#[test]
fn system_param_test() {
    let mut world = World::new();
    let fps = world.add_resource(TypeKey(40), layout8());
    world.get_resource_table_mut().init_resource_unchecked(&fps, &cell(60));

    let mut system = ReadFps.system();

    // Running an uninitialized resource reader is excluded; initialize,
    // then the declared resource is read live on every run.
    system.initialize(&mut world).unwrap();
    assert_eq!(system.run(&mut world, ()).unwrap(), 60);

    world.get_resource_table_mut().write_resource_unchecked(&fps, &cell(61));
    assert_eq!(system.run(&mut world, ()).unwrap(), 61);
}

#[test]
fn missing_resource_is_a_reported_fault() {
    let mut world = World::new();
    let mut system = ReadFps.system();
    system.initialize(&mut world).unwrap();
    assert!(system.run(&mut world, ()).is_err());
}

#[test]
fn resource_lifecycle() {
    let mut world = World::new();
    let fps = world.add_resource(TypeKey(40), layout8());

    assert!(world.get_resource_table().get_resource(&fps).is_none());
    world.get_resource_table_mut().init_resource_unchecked(&fps, &cell(60));
    assert_eq!(world.get_resource_table().get_resource(&fps).unwrap(), cell(60));

    world.get_resource_table_mut().remove_and_drop_unchecked(&fps);
    assert!(world.get_resource_table().get_resource(&fps).is_none());
}

#[test]
fn world_event_channels() {
    let mut world = World::new();
    let channel = world.add_event_channel(TypeKey(50), layout8());
    assert!(world.send_event(&channel, cell(5)).is_ok());
    let unregistered = ComponentId::from_index(999);
    assert!(world.send_event(&unregistered, cell(5)).is_err());

    world.update_events();
    let events = world.get_event_channel(&channel).unwrap();
    let mut reader = EventReader::new();
    let unread = reader.iter(events);
    assert_eq!(unread.len(), 1);
    assert_eq!(value_of(unread[0].0), 5);
}

#[test]
fn event_writer_reports_send_order() {
    let mut events: Events<u64> = Events::new();
    let mut writer = light::event::EventWriter::new();
    assert_eq!(writer.send(&mut events, 5), 0);
    assert_eq!(writer.send(&mut events, 6), 1);
    assert_eq!(events.event_reader_len(0), 2);

    events.clear();
    assert_eq!(events.event_reader_len(0), 0);
}

struct DrainChannel;

impl SystemParamFunction for DrainChannel {
    type FnIn = ();

    type FnOut = Vec<u64>;

    fn param_spec(&self) -> Vec<SystemParam> {
        vec![SystemParam::EventReader(TypeKey(60), TypeLayout::new(8, 8))]
    }

    fn run(&mut self, _input: In<()>, params: &mut Vec<SystemParamItem>) -> Vec<u64> {
        match &params[0] {
            SystemParamItem::EventReader(unread) => {
                unread.iter().map(|(payload, _)| value_of(payload)).collect()
            },
            _ => panic!("declared a single event reader"),
        }
    }
}

#[test]
fn event_reader_param_advances_its_own_cursor() {
    let mut world = World::new();
    let mut system = DrainChannel.system();
    system.initialize(&mut world).unwrap();

    let channel = world.add_event_channel(TypeKey(60), layout8());
    world.send_event(&channel, cell(41)).unwrap();
    world.send_event(&channel, cell(42)).unwrap();
    world.update_events();

    assert_eq!(system.run(&mut world, ()).unwrap(), vec![41, 42]);
    // The cursor is private to this system instance: nothing is left.
    assert_eq!(system.run(&mut world, ()).unwrap(), Vec::<u64>::new());
}
