//! The query engine: fetch/filter descriptors, the access-conflict
//! detector, and the lazy per-table/per-row iterator.
//!
//! A query is described by a list of [`FetchQuery`] units — read or write
//! access to one component type each — and a [`FilterQuery`]. Building a
//! [`QueryState`] registers the component types, accumulates the declared
//! access into an [`AccessState`] (rejecting read/write and write/write
//! overlap on one component id at construction, not at iteration), and
//! records the ordered list of tables whose columns satisfy every unit.
//! A table created after the state was built is invisible to it.
//!
//! Iteration walks the matched tables in that order and within one table
//! walks rows front to back, yielding each row's cells. The iterator
//! borrows the world, so the store cannot be structurally mutated while a
//! cursor is live.

use vstd::prelude::*;

use crate::component::{ComponentId, TypeKey, BITMASK_BLOCK_SIZE};
use crate::entity::Entity;
use crate::error::AccessConflict;
use crate::storage::blobvec::TypeLayout;
use crate::storage::table::{col_position, lemma_col_position, Table};
use crate::world::World;

verus! {

/// Accumulator of one query's or one system's declared component access.
pub struct AccessState {
    read: Vec<usize>,
    write: Vec<usize>,
}

/// Declaring a read of `id` conflicts with an already-declared write.
pub open spec fn read_conflicts(access: AccessState, id: usize) -> bool {
    access.write_set().contains(id)
}

/// Declaring a write of `id` conflicts with any earlier declaration of it.
pub open spec fn write_conflicts(access: AccessState, id: usize) -> bool {
    access.read_set().contains(id) || access.write_set().contains(id)
}

impl AccessState {
    /// The component ids declared for reading.
    pub closed spec fn read_set(&self) -> Set<usize> {
        self.read@.to_set()
    }

    /// The component ids declared for writing.
    pub closed spec fn write_set(&self) -> Set<usize> {
        self.write@.to_set()
    }

    pub fn empty() -> (access: AccessState)
        ensures
            access.read_set() == Set::<usize>::empty(),
            access.write_set() == Set::<usize>::empty(),
    {
        let access = AccessState { read: Vec::new(), write: Vec::new() };
        proof {
            assert(access.read@.to_set() =~= Set::<usize>::empty());
            assert(access.write@.to_set() =~= Set::<usize>::empty());
        }
        access
    }

    /// Declares a read; reports whether the id was new to the read set.
    pub fn add_read(&mut self, component_id: ComponentId) -> (inserted: bool)
        ensures
            inserted == !old(self).read_set().contains(component_id.id_spec()),
            final(self).read_set() == old(self).read_set().insert(component_id.id_spec()),
            final(self).write_set() == old(self).write_set(),
    {
        let id = component_id.id();
        if contains_id(&self.read, id) {
            proof {
                assert(self.read@.to_set() =~= old(self).read_set().insert(id));
            }
            false
        } else {
            self.read.push(id);
            proof {
                lemma_to_set_push(old(self).read@, id);
            }
            true
        }
    }

    /// Declares a write; reports whether the id was new to the write set.
    pub fn add_write(&mut self, component_id: ComponentId) -> (inserted: bool)
        ensures
            inserted == !old(self).write_set().contains(component_id.id_spec()),
            final(self).write_set() == old(self).write_set().insert(component_id.id_spec()),
            final(self).read_set() == old(self).read_set(),
    {
        let id = component_id.id();
        if contains_id(&self.write, id) {
            proof {
                assert(self.write@.to_set() =~= old(self).write_set().insert(id));
            }
            false
        } else {
            self.write.push(id);
            proof {
                lemma_to_set_push(old(self).write@, id);
            }
            true
        }
    }

    pub fn has_read(&self, component_id: &ComponentId) -> (declared: bool)
        ensures
            declared == self.read_set().contains(component_id.id_spec()),
    {
        contains_id(&self.read, component_id.id())
    }

    pub fn has_write(&self, component_id: &ComponentId) -> (declared: bool)
        ensures
            declared == self.write_set().contains(component_id.id_spec()),
    {
        contains_id(&self.write, component_id.id())
    }

    pub fn has_any(&self, component_id: &ComponentId) -> (declared: bool)
        ensures
            declared == (self.read_set().contains(component_id.id_spec()) || self.write_set().contains(
                component_id.id_spec(),
            )),
    {
        contains_id(&self.read, component_id.id()) || contains_id(&self.write, component_id.id())
    }
}

/// Law: the access-conflict rules. On a state where writing `x` was
/// allowed and was then declared: reading `x` is now a conflict; reading
/// `x` on a state that had only read it is no conflict; and writing a
/// different, undeclared `y` is no conflict.
pub proof fn lemma_access_conflict_rules(
    base: AccessState,
    after_write: AccessState,
    after_read: AccessState,
    x: usize,
    y: usize,
)
    requires
        !write_conflicts(base, x),
        after_write.read_set() == base.read_set(),
        after_write.write_set() == base.write_set().insert(x),
        !read_conflicts(base, x),
        after_read.read_set() == base.read_set().insert(x),
        after_read.write_set() == base.write_set(),
        x != y,
        !write_conflicts(base, y),
    ensures
        read_conflicts(after_write, x),
        !read_conflicts(after_read, x),
        !write_conflicts(after_write, y),
{
}

/// Whether `ids` holds `id`.
fn contains_id(ids: &Vec<usize>, id: usize) -> (found: bool)
    ensures
        found == ids@.to_set().contains(id),
{
    let mut j: usize = 0;
    while j < ids.len()
        invariant
            j <= ids@.len(),
            forall|l: int| 0 <= l < j ==> ids@[l] != id,
        decreases ids@.len() - j,
    {
        if ids[j] == id {
            assert(ids@.contains(id));
            return true;
        }
        j += 1;
    }
    proof {
        if ids@.contains(id) {
            let w = choose|w: int| 0 <= w < ids@.len() && ids@[w] == id;
        }
    }
    false
}

proof fn lemma_to_set_push(ids: Seq<usize>, id: usize)
    ensures
        ids.push(id).to_set() == ids.to_set().insert(id),
{
    assert(ids.push(id).to_set() =~= ids.to_set().insert(id)) by {
        assert forall|x: usize| ids.push(id).to_set().contains(x)
            implies ids.to_set().insert(id).contains(x) by {
            let w = choose|w: int| 0 <= w < ids.push(id).len() && ids.push(id)[w] == x;
            if w < ids.len() {
                assert(ids[w] == x);
                assert(ids.contains(x));
            }
        }
        assert forall|x: usize| ids.to_set().insert(id).contains(x)
            implies ids.push(id).to_set().contains(x) by {
            if x == id {
                assert(ids.push(id).last() == x);
                assert(ids.push(id).contains(x));
            } else {
                let w = choose|w: int| 0 <= w < ids.len() && ids[w] == x;
                assert(ids.push(id)[w] == x);
                assert(ids.push(id).contains(x));
            }
        }
    }
}

/// One requested unit of a query's data: read-only or mutable access to
/// one component type. Tuple queries are lists of these units.
pub enum FetchQuery {
    /// A shared view of one component type.
    Ref(TypeKey, TypeLayout),
    /// An exclusive view of one component type.
    RefMut(TypeKey, TypeLayout),
}

impl FetchQuery {
    /// The erased type token the unit asks for.
    pub open spec fn type_key(&self) -> TypeKey {
        match *self {
            FetchQuery::Ref(key, _) => key,
            FetchQuery::RefMut(key, _) => key,
        }
    }

    /// The layout of the asked-for component type.
    pub open spec fn layout(&self) -> TypeLayout {
        match *self {
            FetchQuery::Ref(_, layout) => layout,
            FetchQuery::RefMut(_, layout) => layout,
        }
    }

    /// Whether the unit declares write access.
    pub open spec fn is_write(&self) -> bool {
        self is RefMut
    }
}

/// Two units of one fetch list collide when they name the same component
/// type and at least one of them writes it.
pub open spec fn fetches_conflict(fetches: Seq<FetchQuery>) -> bool {
    exists|u: int, v: int|
        0 <= u < v < fetches.len() && (#[trigger] fetches[u]).type_key() == (
        #[trigger] fetches[v]).type_key() && (fetches[u].is_write() || fetches[v].is_write())
}

/// The initialized state of a read-only fetch unit: the component id the
/// store assigned to the requested type.
pub struct RefFetchState {
    pub component_id: ComponentId,
}

impl RefFetchState {
    /// Resolves the unit against the store, registering the type if new.
    pub fn init(world: &mut World, type_key: TypeKey, layout: TypeLayout) -> (state: RefFetchState)
        requires
            old(world).wf(),
            layout.valid(),
            old(world).components_spec().descriptors_seq().len() + BITMASK_BLOCK_SIZE < usize::MAX,
        ensures
            final(world).wf(),
            crate::component::Components::register_spec(
                old(world).components_spec(),
                final(world).components_spec(),
                old(world).components_spec().component_entries(),
                final(world).components_spec().component_entries(),
                type_key,
                layout,
                state.component_id,
            ),
            final(world).components_spec().resource_entries() == old(
                world,
            ).components_spec().resource_entries(),
            final(world).entities_spec() == old(world).entities_spec(),
            final(world).resources_spec() == old(world).resources_spec(),
            final(world).tables_spec() == old(world).tables_spec(),
            final(world).channels() == old(world).channels(),
    {
        RefFetchState { component_id: world.add_component(type_key, layout) }
    }

    /// Declares this unit's read into the accumulated access; a read of a
    /// component already declared written is the access-conflict fault.
    pub fn update_access(&self, access_state: &mut AccessState) -> (result: Result<(), AccessConflict>)
        ensures
            match result {
                Ok(()) => {
                    &&& !read_conflicts(*old(access_state), self.component_id.id_spec())
                    &&& final(access_state).read_set() == old(access_state).read_set().insert(
                        self.component_id.id_spec(),
                    )
                    &&& final(access_state).write_set() == old(access_state).write_set()
                },
                Err(_) => read_conflicts(*old(access_state), self.component_id.id_spec()) && *final(access_state) == *old(access_state),
            },
    {
        if access_state.has_write(&self.component_id) {
            return Err(AccessConflict);
        }
        let _ = access_state.add_read(self.component_id);
        Ok(())
    }

    /// Whether `table` stores the requested component at all.
    pub fn matches_table(&self, table: &Table) -> (matched: bool)
        ensures
            matched == table.has_column_spec(self.component_id.id_spec()),
    {
        table.get_column(&self.component_id).is_some()
    }
}

/// The initialized state of a mutable fetch unit.
pub struct RefMutFetchState {
    pub component_id: ComponentId,
}

impl RefMutFetchState {
    /// Resolves the unit against the store, registering the type if new.
    pub fn init(world: &mut World, type_key: TypeKey, layout: TypeLayout) -> (state: RefMutFetchState)
        requires
            old(world).wf(),
            layout.valid(),
            old(world).components_spec().descriptors_seq().len() + BITMASK_BLOCK_SIZE < usize::MAX,
        ensures
            final(world).wf(),
            crate::component::Components::register_spec(
                old(world).components_spec(),
                final(world).components_spec(),
                old(world).components_spec().component_entries(),
                final(world).components_spec().component_entries(),
                type_key,
                layout,
                state.component_id,
            ),
            final(world).components_spec().resource_entries() == old(
                world,
            ).components_spec().resource_entries(),
            final(world).entities_spec() == old(world).entities_spec(),
            final(world).resources_spec() == old(world).resources_spec(),
            final(world).tables_spec() == old(world).tables_spec(),
            final(world).channels() == old(world).channels(),
    {
        RefMutFetchState { component_id: world.add_component(type_key, layout) }
    }

    /// Declares this unit's write; any earlier declaration of the same
    /// component, read or write, is the access-conflict fault.
    pub fn update_access(&self, access_state: &mut AccessState) -> (result: Result<(), AccessConflict>)
        ensures
            match result {
                Ok(()) => {
                    &&& !write_conflicts(*old(access_state), self.component_id.id_spec())
                    &&& final(access_state).write_set() == old(access_state).write_set().insert(
                        self.component_id.id_spec(),
                    )
                    &&& final(access_state).read_set() == old(access_state).read_set()
                },
                Err(_) => write_conflicts(*old(access_state), self.component_id.id_spec()) && *final(access_state) == *old(access_state),
            },
    {
        if access_state.has_any(&self.component_id) {
            return Err(AccessConflict);
        }
        let _ = access_state.add_write(self.component_id);
        Ok(())
    }

    /// Whether `table` stores the requested component at all.
    pub fn matches_table(&self, table: &Table) -> (matched: bool)
        ensures
            matched == table.has_column_spec(self.component_id.id_spec()),
    {
        table.get_column(&self.component_id).is_some()
    }
}

/// The initialized state of one fetch unit.
pub enum FetchState {
    Ref(RefFetchState),
    RefMut(RefMutFetchState),
}

impl FetchState {
    /// The component id the unit resolved to.
    pub open spec fn component_id_spec(&self) -> usize {
        match *self {
            FetchState::Ref(state) => state.component_id.id_spec(),
            FetchState::RefMut(state) => state.component_id.id_spec(),
        }
    }

    /// Whether the unit writes.
    pub open spec fn is_write(&self) -> bool {
        self is RefMut
    }

    /// The component identity the unit resolved to, as a value.
    pub open spec fn component_id_spec_val(&self) -> ComponentId {
        match *self {
            FetchState::Ref(state) => state.component_id,
            FetchState::RefMut(state) => state.component_id,
        }
    }

    /// Resolves one requested unit against the store.
    pub fn init(world: &mut World, fetch: &FetchQuery) -> (state: FetchState)
        requires
            old(world).wf(),
            fetch.layout().valid(),
            old(world).components_spec().descriptors_seq().len() + BITMASK_BLOCK_SIZE < usize::MAX,
        ensures
            final(world).wf(),
            crate::component::Components::register_spec(
                old(world).components_spec(),
                final(world).components_spec(),
                old(world).components_spec().component_entries(),
                final(world).components_spec().component_entries(),
                fetch.type_key(),
                fetch.layout(),
                state.component_id_spec_val(),
            ),
            state.is_write() == fetch.is_write(),
            final(world).components_spec().resource_entries() == old(
                world,
            ).components_spec().resource_entries(),
            final(world).entities_spec() == old(world).entities_spec(),
            final(world).resources_spec() == old(world).resources_spec(),
            final(world).tables_spec() == old(world).tables_spec(),
            final(world).channels() == old(world).channels(),
    {
        match fetch {
            FetchQuery::Ref(key, layout) => FetchState::Ref(RefFetchState::init(world, *key, *layout)),
            FetchQuery::RefMut(key, layout) => FetchState::RefMut(
                RefMutFetchState::init(world, *key, *layout),
            ),
        }
    }

    /// Declares the unit's access; see the per-mode rules.
    pub fn update_access(&self, access_state: &mut AccessState) -> (result: Result<(), AccessConflict>)
        ensures
            match result {
                Ok(()) => if self.is_write() {
                    &&& !write_conflicts(*old(access_state), self.component_id_spec())
                    &&& final(access_state).write_set() == old(access_state).write_set().insert(
                        self.component_id_spec(),
                    )
                    &&& final(access_state).read_set() == old(access_state).read_set()
                } else {
                    &&& !read_conflicts(*old(access_state), self.component_id_spec())
                    &&& final(access_state).read_set() == old(access_state).read_set().insert(
                        self.component_id_spec(),
                    )
                    &&& final(access_state).write_set() == old(access_state).write_set()
                },
                Err(_) => {
                    &&& *final(access_state) == *old(access_state)
                    &&& if self.is_write() {
                        write_conflicts(*old(access_state), self.component_id_spec())
                    } else {
                        read_conflicts(*old(access_state), self.component_id_spec())
                    }
                },
            },
    {
        match self {
            FetchState::Ref(state) => state.update_access(access_state),
            FetchState::RefMut(state) => state.update_access(access_state),
        }
    }

    /// Whether `table` stores the unit's component.
    pub fn matches_table(&self, table: &Table) -> (matched: bool)
        ensures
            matched == table.has_column_spec(self.component_id_spec()),
    {
        match self {
            FetchState::Ref(state) => state.matches_table(table),
            FetchState::RefMut(state) => state.matches_table(table),
        }
    }

    /// The component id, as a value.
    pub fn component_id(&self) -> (id: ComponentId)
        ensures
            id.id_spec() == self.component_id_spec(),
    {
        match self {
            FetchState::Ref(state) => state.component_id,
            FetchState::RefMut(state) => state.component_id,
        }
    }
}

/// One requested filter term. The only term implemented today is the
/// always-true empty filter; conjunctions such as with/without follow the
/// same state/per-table-cursor shape as further variants.
pub enum FilterQuery {
    Unit,
}

/// The initialized state of the always-true filter.
pub struct UnitFilterState {
}

impl UnitFilterState {
    pub fn init(world: &mut World) -> (state: UnitFilterState)
        ensures
            *final(world) == *old(world),
    {
        UnitFilterState {  }
    }

    pub fn update_access(&self, _access_state: &mut AccessState) {
    }

    pub fn matches_table(&self, _table: &Table) -> (matched: bool)
        ensures
            matched,
    {
        true
    }
}

/// The initialized state of one filter.
pub enum FilterState {
    Unit(UnitFilterState),
}

impl FilterState {
    pub fn init(world: &mut World, filter: &FilterQuery) -> (state: FilterState)
        ensures
            *final(world) == *old(world),
    {
        match filter {
            FilterQuery::Unit => FilterState::Unit(UnitFilterState::init(world)),
        }
    }

    /// Whether `table` can contribute rows at all under this filter.
    pub fn matches_table(&self, table: &Table) -> (matched: bool)
        ensures
            matched,
    {
        match self {
            FilterState::Unit(state) => state.matches_table(table),
        }
    }
}

/// The per-table cursor of a read-only fetch unit: the position of the
/// unit's column within the table pointed at last.
pub struct RefFetch {
    pub column_position: usize,
}

impl RefFetch {
    pub fn new() -> (fetch: RefFetch) {
        RefFetch { column_position: 0 }
    }

    /// Points the cursor at `table`, capturing the unit's column position.
    pub fn set_table(&mut self, fetch_state: &RefFetchState, table: &Table)
        requires
            table.has_column_spec(fetch_state.component_id.id_spec()),
        ensures
            Some(final(self).column_position as int) == col_position(
                table.columns(),
                fetch_state.component_id.id_spec(),
            ),
    {
        let position = find_column_position(table, &fetch_state.component_id);
        self.column_position = position;
    }

    /// Reads the cursor's cell of one row, in place, with no further type
    /// or bounds checking beyond this contract.
    pub fn fetch_item_from_table(&self, table: &Table, row: usize) -> (cell: Vec<u8>)
        requires
            table.wf(),
            self.column_position < table.columns().len(),
            row < table.spec_len(),
        ensures
            cell@ == table.columns()[self.column_position as int].items()[row as int],
    {
        fetch_cell(table, self.column_position, row)
    }
}

/// The per-table cursor of a mutable fetch unit.
pub struct RefMutFetch {
    pub column_position: usize,
}

impl RefMutFetch {
    pub fn new() -> (fetch: RefMutFetch) {
        RefMutFetch { column_position: 0 }
    }

    /// Points the cursor at `table`, capturing the unit's column position.
    pub fn set_table(&mut self, fetch_state: &RefMutFetchState, table: &Table)
        requires
            table.has_column_spec(fetch_state.component_id.id_spec()),
        ensures
            Some(final(self).column_position as int) == col_position(
                table.columns(),
                fetch_state.component_id.id_spec(),
            ),
    {
        let position = find_column_position(table, &fetch_state.component_id);
        self.column_position = position;
    }

    /// Reads the cursor's cell of one row; a changed value goes back via
    /// `write_item_to_table`.
    pub fn fetch_item_from_table(&self, table: &Table, row: usize) -> (cell: Vec<u8>)
        requires
            table.wf(),
            self.column_position < table.columns().len(),
            row < table.spec_len(),
        ensures
            cell@ == table.columns()[self.column_position as int].items()[row as int],
    {
        fetch_cell(table, self.column_position, row)
    }

    /// Writes one row's cell in place: the erased value is mutated through
    /// the exclusive view, so no destructor runs.
    pub fn write_item_to_table(&self, table: &mut Table, row: usize, cell: &Vec<u8>)
        requires
            old(table).wf(),
            self.column_position < old(table).columns().len(),
            row < old(table).spec_len(),
            cell@.len() == old(table).columns()[self.column_position as int].item_size(),
        ensures
            final(table).wf(),
            final(table).entities_seq() == old(table).entities_seq(),
            final(table).columns().len() == old(table).columns().len(),
            forall|l: int|
                0 <= l < old(table).columns().len() && l != self.column_position ==> #[trigger] final(table).columns()[l] == old(table).columns()[l],
            final(table).columns()[self.column_position as int].items() == old(
                table,
            ).columns()[self.column_position as int].items().update(row as int, cell@),
            final(table).columns()[self.column_position as int].id_spec() == old(
                table,
            ).columns()[self.column_position as int].id_spec(),
            final(table).columns()[self.column_position as int].drop_count() == old(
                table,
            ).columns()[self.column_position as int].drop_count(),
    {
        write_cell_in_table(table, self.column_position, row, cell)
    }
}

/// Position of `component_id`'s column within `table`.
fn find_column_position(table: &Table, component_id: &ComponentId) -> (position: usize)
    requires
        table.has_column_spec(component_id.id_spec()),
    ensures
        Some(position as int) == col_position(table.columns(), component_id.id_spec()),
{
    proof {
        lemma_col_position(table.columns(), component_id.id_spec());
    }
    match table.find_column(component_id.id()) {
        Some(position) => position,
        None => {
            proof {
                assert(false);
            }
            0
        },
    }
}

/// Reads the cell at `(column position, row)` of a table.
fn fetch_cell(table: &Table, position: usize, row: usize) -> (cell: Vec<u8>)
    requires
        table.wf(),
        position < table.columns().len(),
        row < table.spec_len(),
    ensures
        cell@ == table.columns()[position as int].items()[row as int],
{
    let column = table.column_at(position);
    column.get_unchecked(row)
}

/// Overwrites the cell at `(column position, row)` of a table in place.
fn write_cell_in_table(table: &mut Table, position: usize, row: usize, cell: &Vec<u8>)
    requires
        old(table).wf(),
        position < old(table).columns().len(),
        row < old(table).spec_len(),
        cell@.len() == old(table).columns()[position as int].item_size(),
    ensures
        final(table).wf(),
        final(table).entities_seq() == old(table).entities_seq(),
        final(table).columns().len() == old(table).columns().len(),
        forall|l: int|
            0 <= l < old(table).columns().len() && l != position ==> #[trigger] final(table).columns()[l] == old(table).columns()[l],
        final(table).columns()[position as int].items() == old(table).columns()[position as int].items().update(
            row as int,
            cell@,
        ),
        final(table).columns()[position as int].id_spec() == old(table).columns()[position as int].id_spec(),
        final(table).columns()[position as int].drop_count() == old(
            table,
        ).columns()[position as int].drop_count(),
    {
        table.write_column_cell(position, row, cell)
    }


/// Two keys found in one sound key table at the same index are one key.
proof fn lemma_lookup_key_injective(
    components: crate::component::Components,
    key1: TypeKey,
    key2: TypeKey,
    index: usize,
)
    requires
        components.wf(),
        crate::component::lookup_key(components.component_entries(), key1) == Some(index),
        crate::component::lookup_key(components.component_entries(), key2) == Some(index),
    ensures
        key1 == key2,
{
    crate::component::lemma_lookup_key_entry(components.component_entries(), key1);
    crate::component::lemma_lookup_key_entry(components.component_entries(), key2);
    let j1 = choose|j: int|
        0 <= j < components.component_entries().len() && (#[trigger] components.component_entries()[j]).0
            == key1 && components.component_entries()[j].1 == index;
    let j2 = choose|j: int|
        0 <= j < components.component_entries().len() && (#[trigger] components.component_entries()[j]).0
            == key2 && components.component_entries()[j].1 == index;
    assert(components.descriptors_seq()[index as int].type_key == key1);
    assert(components.descriptors_seq()[index as int].type_key == key2);
}

/// The built-once bundle of one query: its units' states, the filter
/// state, and the ordered list of tables that matched when it was built.
pub struct QueryState {
    fetch_states: Vec<FetchState>,
    filter_state: FilterState,
    matched_table_ids: Vec<usize>,
}

impl QueryState {
    /// The initialized fetch units, in declaration order.
    pub closed spec fn fetch_states_seq(&self) -> Seq<FetchState> {
        self.fetch_states@
    }

    /// The ids of the tables that matched at construction, ascending.
    pub closed spec fn matched(&self) -> Seq<usize> {
        self.matched_table_ids@
    }

    /// Whether a table stores every component the units ask for.
    pub open spec fn states_match_table(&self, table: Table) -> bool {
        forall|u: int|
            0 <= u < self.fetch_states_seq().len() ==> table.has_column_spec(
                (#[trigger] self.fetch_states_seq()[u]).component_id_spec(),
            )
    }

    /// The matched list still fits `world`: ascending, every listed table
    /// exists and stores every queried component. This is all iteration
    /// needs; it survives tables created later, which stay invisible.
    pub open spec fn valid_for(&self, world: World) -> bool {
        &&& forall|k: int, l: int|
            0 <= k < l < self.matched().len() ==> self.matched()[k] < self.matched()[l]
        &&& forall|k: int|
            0 <= k < self.matched().len() ==> (#[trigger] self.matched()[k]) < world.tables_spec().tables_seq().len()
                && self.states_match_table(world.tables_spec().tables_seq()[self.matched()[k] as int])
    }

    /// The matched list covers every matching table of `world`: true of
    /// the world the state was built against, and of no table added since.
    pub open spec fn complete_for(&self, world: World) -> bool {
        forall|t: int|
            0 <= t < world.tables_spec().tables_seq().len() && self.states_match_table(
                world.tables_spec().tables_seq()[t],
            ) ==> self.matched().contains(t as usize)
    }

    /// Builds one query's state: registers every unit's component type,
    /// declares and checks the combined access, and records the matching
    /// tables. Fails — with the store registrations kept but no state —
    /// exactly when two units collide on one component type.
    pub fn new(world: &mut World, fetches: &Vec<FetchQuery>, filter: &FilterQuery) -> (result:
        Result<QueryState, AccessConflict>)
        requires
            old(world).wf(),
            forall|u: int| 0 <= u < fetches@.len() ==> (#[trigger] fetches@[u]).layout().valid(),
            old(world).components_spec().descriptors_seq().len() + fetches@.len()
                + BITMASK_BLOCK_SIZE < usize::MAX,
        ensures
            final(world).wf(),
            final(world).entities_spec() == old(world).entities_spec(),
            final(world).resources_spec() == old(world).resources_spec(),
            final(world).tables_spec() == old(world).tables_spec(),
            final(world).channels() == old(world).channels(),
            final(world).components_spec().resource_entries() == old(
                world,
            ).components_spec().resource_entries(),
            final(world).components_spec().descriptors_seq().len() <= old(
                world,
            ).components_spec().descriptors_seq().len() + fetches@.len(),
            match result {
                Ok(state) => {
                    &&& !fetches_conflict(fetches@)
                    &&& state.fetch_states_seq().len() == fetches@.len()
                    &&& forall|u: int|
                        0 <= u < fetches@.len() ==> (#[trigger] state.fetch_states_seq()[u]).is_write()
                            == fetches@[u].is_write()
                    &&& forall|u: int|
                        0 <= u < fetches@.len() ==> crate::component::lookup_key(
                            final(world).components_spec().component_entries(),
                            (#[trigger] fetches@[u]).type_key(),
                        ) == Some(state.fetch_states_seq()[u].component_id_spec() as usize)
                    &&& state.valid_for(*final(world))
                    &&& state.complete_for(*final(world))
                },
                Err(_) => fetches_conflict(fetches@),
            },
    {
        let mut fetch_states: Vec<FetchState> = Vec::new();
        let mut access = AccessState::empty();
        let fetch_count = fetches.len();
        let mut j: usize = 0;
        while j < fetch_count
            invariant
                j <= fetch_count,
                fetch_count == fetches@.len(),
                world.wf(),
                world.entities_spec() == old(world).entities_spec(),
                world.resources_spec() == old(world).resources_spec(),
                world.tables_spec() == old(world).tables_spec(),
                world.channels() == old(world).channels(),
                world.components_spec().resource_entries() == old(
                    world,
                ).components_spec().resource_entries(),
                world.components_spec().descriptors_seq().len() <= old(
                    world,
                ).components_spec().descriptors_seq().len() + j,
                old(world).components_spec().descriptors_seq().len() + fetches@.len()
                    + BITMASK_BLOCK_SIZE < usize::MAX,
                forall|u: int| 0 <= u < fetches@.len() ==> (#[trigger] fetches@[u]).layout().valid(),
                fetch_states@.len() == j,
                forall|u: int|
                    0 <= u < j ==> (#[trigger] fetch_states@[u]).is_write() == fetches@[u].is_write(),
                forall|u: int|
                    0 <= u < j ==> crate::component::lookup_key(
                        world.components_spec().component_entries(),
                        (#[trigger] fetches@[u]).type_key(),
                    ) == Some(fetch_states@[u].component_id_spec() as usize),
                forall|x: usize|
                    access.read_set().contains(x) <==> exists|u: int|
                        0 <= u < j && !(#[trigger] fetch_states@[u]).is_write()
                            && fetch_states@[u].component_id_spec() == x,
                forall|x: usize|
                    access.write_set().contains(x) <==> exists|u: int|
                        0 <= u < j && (#[trigger] fetch_states@[u]).is_write()
                            && fetch_states@[u].component_id_spec() == x,
                forall|v: int, u: int|
                    0 <= u < v < j ==> !((#[trigger] fetches@[u]).type_key() == (
                    #[trigger] fetches@[v]).type_key() && (fetches@[u].is_write()
                        || fetches@[v].is_write())),
            decreases fetch_count - j,
        {
            let ghost pre_world = *world;
            let ghost pre_access = access;
            let state = FetchState::init(world, &fetches[j]);
            proof {
                lemma_prior_lookups_stable(
                    pre_world.components_spec(),
                    world.components_spec(),
                    fetches@,
                    fetch_states@,
                    j as int,
                    fetches@[j as int].type_key(),
                );
                if crate::component::lookup_key(
                    pre_world.components_spec().component_entries(),
                    fetches@[j as int].type_key(),
                ) is None {
                    crate::component::lemma_lookup_key_push(
                        pre_world.components_spec().component_entries(),
                        fetches@[j as int].type_key(),
                        state.component_id_spec() as usize,
                    );
                }
                assert(crate::component::lookup_key(
                    world.components_spec().component_entries(),
                    fetches@[j as int].type_key(),
                ) == Some(state.component_id_spec() as usize));
            }
            let outcome = state.update_access(&mut access);
            match outcome {
                Ok(()) => {
                    let ghost pre_states = fetch_states@;
                    fetch_states.push(state);
                    proof {
                        let states = fetch_states@;
                        assert forall|x: usize|
                            access.read_set().contains(x) implies exists|u: int|
                                0 <= u < j + 1 && !(#[trigger] states[u]).is_write()
                                    && states[u].component_id_spec() == x by {
                            if state.is_write() || x != state.component_id_spec() {
                                assert(pre_access.read_set().contains(x));
                                let u = choose|u: int|
                                    0 <= u < j && !(#[trigger] pre_states[u]).is_write()
                                        && pre_states[u].component_id_spec() == x;
                                assert(states[u] == pre_states[u]);
                            } else {
                                assert(states[j as int] == state);
                            }
                        }
                        assert forall|x: usize|
                            (exists|u: int|
                                0 <= u < j + 1 && !(#[trigger] states[u]).is_write()
                                    && states[u].component_id_spec() == x)
                            implies access.read_set().contains(x) by {
                            let u = choose|u: int|
                                0 <= u < j + 1 && !(#[trigger] states[u]).is_write()
                                    && states[u].component_id_spec() == x;
                            if u < j {
                                assert(pre_states[u] == states[u]);
                                assert(pre_access.read_set().contains(x));
                            }
                        }
                        assert forall|x: usize|
                            access.write_set().contains(x) implies exists|u: int|
                                0 <= u < j + 1 && (#[trigger] states[u]).is_write()
                                    && states[u].component_id_spec() == x by {
                            if !state.is_write() || x != state.component_id_spec() {
                                assert(pre_access.write_set().contains(x));
                                let u = choose|u: int|
                                    0 <= u < j && (#[trigger] pre_states[u]).is_write()
                                        && pre_states[u].component_id_spec() == x;
                                assert(states[u] == pre_states[u]);
                            } else {
                                assert(states[j as int] == state);
                            }
                        }
                        assert forall|x: usize|
                            (exists|u: int|
                                0 <= u < j + 1 && (#[trigger] states[u]).is_write()
                                    && states[u].component_id_spec() == x)
                            implies access.write_set().contains(x) by {
                            let u = choose|u: int|
                                0 <= u < j + 1 && (#[trigger] states[u]).is_write()
                                    && states[u].component_id_spec() == x;
                            if u < j {
                                assert(pre_states[u] == states[u]);
                                assert(pre_access.write_set().contains(x));
                            }
                        }
                        assert forall|v: int, u: int| 0 <= u < v < j + 1
                            implies !((#[trigger] fetches@[u]).type_key() == (
                            #[trigger] fetches@[v]).type_key() && (fetches@[u].is_write()
                                || fetches@[v].is_write())) by {
                            if v == j && fetches@[u].type_key() == fetches@[j as int].type_key() {
                                assert(states[u] == pre_states[u]);
                                assert(crate::component::lookup_key(
                                    world.components_spec().component_entries(),
                                    fetches@[u].type_key(),
                                ) == Some(states[u].component_id_spec() as usize));
                                assert(states[u].component_id_spec() == state.component_id_spec());
                                if fetches@[u].is_write() {
                                    assert(pre_access.write_set().contains(
                                        state.component_id_spec(),
                                    ));
                                } else if fetches@[j as int].is_write() {
                                    assert(pre_access.read_set().contains(
                                        state.component_id_spec(),
                                    ));
                                }
                            }
                        }
                    }
                },
                Err(conflict) => {
                    proof {
                        let id = state.component_id_spec();
                        if state.is_write() {
                            if pre_access.read_set().contains(id) {
                                lemma_conflict_witness(
                                    *world,
                                    fetches@,
                                    fetch_states@,
                                    j as int,
                                    state,
                                    false,
                                );
                            } else {
                                lemma_conflict_witness(
                                    *world,
                                    fetches@,
                                    fetch_states@,
                                    j as int,
                                    state,
                                    true,
                                );
                            }
                        } else {
                            lemma_conflict_witness(
                                *world,
                                fetches@,
                                fetch_states@,
                                j as int,
                                state,
                                true,
                            );
                        }
                    }
                    return Err(conflict);
                },
            }
            j += 1;
        }

        let filter_state = FilterState::init(world, filter);

        let mut matched_table_ids: Vec<usize> = Vec::new();
        let table_count = world.get_tables().len();
        let mut t: usize = 0;
        while t < table_count
            invariant
                t <= table_count,
                world.wf(),
                world.components_spec().descriptors_seq().len() <= old(
                    world,
                ).components_spec().descriptors_seq().len() + fetches@.len(),
                world.entities_spec() == old(world).entities_spec(),
                world.resources_spec() == old(world).resources_spec(),
                world.tables_spec() == old(world).tables_spec(),
                world.channels() == old(world).channels(),
                world.components_spec().resource_entries() == old(
                    world,
                ).components_spec().resource_entries(),
                table_count == world.tables_spec().tables_seq().len(),
                fetch_states@.len() == fetches@.len(),
                forall|u: int|
                    0 <= u < fetches@.len() ==> (#[trigger] fetch_states@[u]).is_write()
                        == fetches@[u].is_write(),
                forall|u: int|
                    0 <= u < fetches@.len() ==> crate::component::lookup_key(
                        world.components_spec().component_entries(),
                        (#[trigger] fetches@[u]).type_key(),
                    ) == Some(fetch_states@[u].component_id_spec() as usize),
                forall|v: int, u: int|
                    0 <= u < v < fetches@.len() ==> !((#[trigger] fetches@[u]).type_key() == (
                    #[trigger] fetches@[v]).type_key() && (fetches@[u].is_write()
                        || fetches@[v].is_write())),
                forall|k: int, l: int|
                    0 <= k < l < matched_table_ids@.len() ==> matched_table_ids@[k]
                        < matched_table_ids@[l],
                forall|k: int|
                    0 <= k < matched_table_ids@.len() ==> (#[trigger] matched_table_ids@[k]) < t,
                forall|k: int|
                    0 <= k < matched_table_ids@.len() ==> states_match(
                        fetch_states@,
                        world.tables_spec().tables_seq()[matched_table_ids@[k] as int],
                    ),
                forall|q: int|
                    0 <= q < t && states_match(fetch_states@, world.tables_spec().tables_seq()[q])
                        ==> matched_table_ids@.contains(q as usize),
            decreases table_count - t,
        {
            let table = match world.get_tables().get_table(t) {
                Some(table) => table,
                None => {
                    proof {
                        assert(false);
                    }
                    return Err(AccessConflict);
                },
            };
            let matches = states_match_exec(&fetch_states, table) && filter_state.matches_table(table);
            let ghost pre_matched = matched_table_ids@;
            if matches {
                matched_table_ids.push(t);
            }
            proof {
                assert forall|q: int|
                    0 <= q < t + 1 && states_match(fetch_states@, world.tables_spec().tables_seq()[q])
                    implies matched_table_ids@.contains(q as usize) by {
                    if q < t {
                        assert(pre_matched.contains(q as usize));
                        let w = choose|w: int| 0 <= w < pre_matched.len() && pre_matched[w] == q as usize;
                        assert(matched_table_ids@[w] == q as usize);
                    } else {
                        assert(matched_table_ids@.last() == t);
                    }
                }
            }
            t += 1;
        }

        let state = QueryState { fetch_states, filter_state, matched_table_ids };
        proof {
            assert forall|tt: int|
                0 <= tt < world.tables_spec().tables_seq().len() && state.states_match_table(
                    world.tables_spec().tables_seq()[tt],
                ) implies state.matched().contains(tt as usize) by {
                assert(states_match(state.fetch_states_seq(), world.tables_spec().tables_seq()[tt]));
            }
        }
        Ok(state)
    }
}

/// Whether every unit's component has a column in `table`.
pub open spec fn states_match(states: Seq<FetchState>, table: Table) -> bool {
    forall|u: int|
        0 <= u < states.len() ==> table.has_column_spec(
            (#[trigger] states[u]).component_id_spec(),
        )
}

/// Exec check of `states_match`.
fn states_match_exec(states: &Vec<FetchState>, table: &Table) -> (matched: bool)
    ensures
        matched == states_match(states@, *table),
{
    let mut u: usize = 0;
    while u < states.len()
        invariant
            u <= states@.len(),
            forall|l: int|
                0 <= l < u ==> table.has_column_spec((#[trigger] states@[l]).component_id_spec()),
        decreases states@.len() - u,
    {
        if !states[u].matches_table(table) {
            return false;
        }
        u += 1;
    }
    true
}

/// Registering one more key leaves every earlier unit's lookup untouched.
proof fn lemma_prior_lookups_stable(
    pre: crate::component::Components,
    post: crate::component::Components,
    fetches: Seq<FetchQuery>,
    states: Seq<FetchState>,
    j: int,
    new_key: TypeKey,
)
    requires
        states.len() == j,
        0 <= j,
        forall|u: int|
            0 <= u < j ==> crate::component::lookup_key(
                pre.component_entries(),
                (#[trigger] fetches[u]).type_key(),
            ) == Some(states[u].component_id_spec() as usize),
        post.component_entries() == pre.component_entries() || (exists|index: usize|
            post.component_entries() == pre.component_entries().push((new_key, index))
                && crate::component::lookup_key(pre.component_entries(), new_key) is None),
    ensures
        forall|u: int|
            0 <= u < j ==> crate::component::lookup_key(
                post.component_entries(),
                (#[trigger] fetches[u]).type_key(),
            ) == Some(states[u].component_id_spec() as usize),
{
    if post.component_entries() != pre.component_entries() {
        let index = choose|index: usize|
            post.component_entries() == pre.component_entries().push((new_key, index))
                && crate::component::lookup_key(pre.component_entries(), new_key) is None;
        assert forall|u: int| 0 <= u < j implies crate::component::lookup_key(
            post.component_entries(),
            (#[trigger] fetches[u]).type_key(),
        ) == Some(states[u].component_id_spec() as usize) by {
            crate::component::lemma_lookup_key_push_other(
                pre.component_entries(),
                new_key,
                index,
                fetches[u].type_key(),
            );
        }
    }
}

/// An access conflict reported at unit `j` names a real collision in the
/// fetch list.
proof fn lemma_conflict_witness(
    world: World,
    fetches: Seq<FetchQuery>,
    states: Seq<FetchState>,
    j: int,
    state: FetchState,
    in_write_set: bool,
)
    requires
        world.wf(),
        0 <= j < fetches.len(),
        states.len() == j,
        state.is_write() == fetches[j].is_write(),
        crate::component::lookup_key(
            world.components_spec().component_entries(),
            fetches[j].type_key(),
        ) == Some(state.component_id_spec() as usize),
        forall|u: int|
            0 <= u < j ==> crate::component::lookup_key(
                world.components_spec().component_entries(),
                (#[trigger] fetches[u]).type_key(),
            ) == Some(states[u].component_id_spec() as usize),
        forall|u: int|
            0 <= u < j ==> (#[trigger] states[u]).is_write() == fetches[u].is_write(),
        exists|u: int|
            0 <= u < j && (#[trigger] states[u]).is_write() == in_write_set
                && states[u].component_id_spec() == state.component_id_spec(),
        in_write_set || state.is_write(),
    ensures
        fetches_conflict(fetches),
{
    let u = choose|u: int|
        0 <= u < j && (#[trigger] states[u]).is_write() == in_write_set
            && states[u].component_id_spec() == state.component_id_spec();
    lemma_lookup_key_injective(
        world.components_spec(),
        fetches[u].type_key(),
        fetches[j].type_key(),
        state.component_id_spec() as usize,
    );
    assert(fetches[u].type_key() == fetches[j].type_key());
    assert(fetches[u].is_write() || fetches[j].is_write());
}



/// One yielded row view: the owning entity and one cell per fetch unit,
/// in unit order.
pub struct QueryItem {
    /// The entity occupying the yielded row.
    pub entity: Entity,
    /// The raw bytes of each requested component at that row.
    pub cells: Vec<Vec<u8>>,
}

/// The handle a system receives: a live view binding one built state to
/// the current store.
pub struct Query<'w, 's> {
    world: &'w World,
    query_state: &'s QueryState,
}

impl<'w, 's> Query<'w, 's> {
    pub closed spec fn world_spec(&self) -> World {
        *self.world
    }

    pub closed spec fn state_spec(&self) -> QueryState {
        *self.query_state
    }

    pub fn new(world: &'w World, query_state: &'s QueryState) -> (query: Query<'w, 's>)
        ensures
            query.world_spec() == *world,
            query.state_spec() == *query_state,
    {
        Query { world, query_state }
    }

    /// A fresh iterator standing before the first matched row.
    pub fn iter(&self) -> (iterator: QueryIter<'w, 's>)
        requires
            self.world_spec().wf(),
            self.state_spec().valid_for(self.world_spec()),
        ensures
            iterator.inv(),
            iterator.world_spec() == self.world_spec(),
            iterator.state_spec() == self.state_spec(),
            iterator.remaining() == positions_from(self.world_spec(), self.state_spec(), 0),
    {
        QueryIter::new(self.world, self.query_state)
    }
}

/// The rows of table `t` of the world, as `(table, row)` positions.
pub open spec fn table_positions(world: World, t: int) -> Seq<(int, int)> {
    Seq::new(world.tables_spec().tables_seq()[t].spec_len(), |k: int| (t, k))
}

/// All positions a query yields from the matched table at index `ti` on:
/// table-then-row order.
pub open spec fn positions_from(world: World, state: QueryState, ti: int) -> Seq<(int, int)>
    decreases state.matched().len() - ti,
{
    if ti < 0 || ti >= state.matched().len() {
        Seq::empty()
    } else {
        table_positions(world, state.matched()[ti] as int) + positions_from(world, state, ti + 1)
    }
}

/// One yielded row view fits one `(table, row)` position: the entity at
/// that row, and per fetch unit the bytes of its column's cell there.
pub open spec fn row_matches(world: World, state: QueryState, position: (int, int), item: QueryItem) -> bool {
    let table = world.tables_spec().tables_seq()[position.0];
    &&& item.entity == table.entities_seq()[position.1]
    &&& item.cells@.len() == state.fetch_states_seq().len()
    &&& forall|u: int|
        0 <= u < item.cells@.len() ==> (#[trigger] item.cells@[u])@ == table.columns()[col_position(
            table.columns(),
            state.fetch_states_seq()[u].component_id_spec(),
        ).unwrap()].items()[position.1]
}

/// The lazy per-table/per-row iterator: walks the matched tables in
/// order, and each matched table's rows front to back, yielding the fetch
/// units' cells without re-checking types. It borrows the world, so the
/// store cannot be structurally mutated under a live cursor.
pub struct QueryIter<'w, 's> {
    world: &'w World,
    query_state: &'s QueryState,
    fetch: Vec<Fetch>,
    filter: Filter,
    current_table_index: usize,
    current_row: usize,
    current_table_len: usize,
}

/// The per-table cursor of one fetch unit.
pub enum Fetch {
    Ref(RefFetch),
    RefMut(RefMutFetch),
}

impl Fetch {
    /// The captured column position within the table pointed at last.
    pub open spec fn position_spec(&self) -> usize {
        match *self {
            Fetch::Ref(fetch) => fetch.column_position,
            Fetch::RefMut(fetch) => fetch.column_position,
        }
    }

    /// A cursor pointing nowhere yet.
    pub fn new(state: &FetchState) -> (fetch: Fetch) {
        match state {
            FetchState::Ref(_) => Fetch::Ref(RefFetch::new()),
            FetchState::RefMut(_) => Fetch::RefMut(RefMutFetch::new()),
        }
    }

    /// Points the cursor at `table`.
    pub fn set_table(&mut self, fetch_state: &FetchState, table: &Table)
        requires
            table.has_column_spec(fetch_state.component_id_spec()),
        ensures
            Some(final(self).position_spec() as int) == col_position(
                table.columns(),
                fetch_state.component_id_spec(),
            ),
    {
        let position = find_column_position(table, &fetch_state.component_id());
        match self {
            Fetch::Ref(fetch) => fetch.column_position = position,
            Fetch::RefMut(fetch) => fetch.column_position = position,
        }
    }

    /// Reads the cursor's cell of one row.
    pub fn fetch_item_from_table(&self, table: &Table, row: usize) -> (cell: Vec<u8>)
        requires
            table.wf(),
            self.position_spec() < table.columns().len(),
            row < table.spec_len(),
        ensures
            cell@ == table.columns()[self.position_spec() as int].items()[row as int],
    {
        match self {
            Fetch::Ref(fetch) => fetch.fetch_item_from_table(table, row),
            Fetch::RefMut(fetch) => fetch.fetch_item_from_table(table, row),
        }
    }
}

/// The per-table cursor of one filter; the unit filter accepts every row.
pub enum Filter {
    Unit(UnitFilter),
}

/// The cursor of the always-true filter.
pub struct UnitFilter {
}

impl UnitFilter {
    pub fn new() -> (filter: UnitFilter) {
        UnitFilter {  }
    }

    pub fn set_table(&mut self, _filter_state: &UnitFilterState, _table: &Table) {
    }

    pub fn matches(&self) -> (matched: bool)
        ensures
            matched,
    {
        true
    }
}

impl Filter {
    pub fn matches(&self) -> (matched: bool)
        ensures
            matched,
    {
        match self {
            Filter::Unit(filter) => filter.matches(),
        }
    }
}

impl<'w, 's> QueryIter<'w, 's> {
    pub closed spec fn world_spec(&self) -> World {
        *self.world
    }

    pub closed spec fn state_spec(&self) -> QueryState {
        *self.query_state
    }

    spec fn cti(&self) -> int {
        self.current_table_index as int
    }

    /// Whether a matched table is loaded with rows still to yield.
    pub closed spec fn table_loaded(&self) -> bool {
        self.current_row < self.current_table_len
    }

    /// The positions still to be yielded, in order.
    pub closed spec fn remaining(&self) -> Seq<(int, int)> {
        if self.table_loaded() {
            Seq::new(
                (self.current_table_len - self.current_row) as nat,
                |k: int| (self.state_spec().matched()[self.cti() - 1] as int, self.current_row + k),
            ) + positions_from(self.world_spec(), self.state_spec(), self.cti())
        } else {
            positions_from(self.world_spec(), self.state_spec(), self.cti())
        }
    }

    /// The iterator's soundness: the state matches the borrowed world and
    /// the cursors point at the loaded table's columns.
    pub closed spec fn inv(&self) -> bool {
        &&& self.world.wf()
        &&& self.query_state.valid_for(*self.world)
        &&& self.fetch@.len() == self.query_state.fetch_states_seq().len()
        &&& self.cti() <= self.state_spec().matched().len()
        &&& self.table_loaded() ==> {
            &&& 1 <= self.cti()
            &&& self.current_table_len == self.world.tables_spec().tables_seq()[self.state_spec().matched()[self.cti() - 1] as int].spec_len()
            &&& forall|u: int|
                0 <= u < self.fetch@.len() ==> Some((#[trigger] self.fetch@[u]).position_spec() as int)
                    == col_position(
                    self.world.tables_spec().tables_seq()[self.state_spec().matched()[self.cti() - 1] as int].columns(),
                    self.query_state.fetch_states_seq()[u].component_id_spec(),
                )
        }
    }

    /// A fresh iterator standing before the first matched row.
    pub fn new(world: &'w World, query_state: &'s QueryState) -> (iterator: QueryIter<'w, 's>)
        requires
            world.wf(),
            query_state.valid_for(*world),
        ensures
            iterator.inv(),
            iterator.world_spec() == *world,
            iterator.state_spec() == *query_state,
            iterator.remaining() == positions_from(*world, *query_state, 0),
    {
        let mut fetch: Vec<Fetch> = Vec::new();
        let mut u: usize = 0;
        let states_len = query_state.fetch_state_count();
        while u < states_len
            invariant
                u <= states_len,
                states_len == query_state.fetch_states_seq().len(),
                fetch@.len() == u,
            decreases states_len - u,
        {
            fetch.push(Fetch::new(query_state.fetch_state_at(u)));
            u += 1;
        }
        QueryIter {
            world,
            query_state,
            fetch,
            filter: Filter::Unit(UnitFilter::new()),
            current_table_index: 0,
            current_row: 0,
            current_table_len: 0,
        }
    }

    /// Yields the next matched row's view, or `None` when iteration is
    /// done. Rows come in table-then-row order; each call consumes the
    /// first remaining position.
    pub fn next(&mut self) -> (item: Option<QueryItem>)
        requires
            old(self).inv(),
        ensures
            final(self).inv(),
            final(self).world_spec() == old(self).world_spec(),
            final(self).state_spec() == old(self).state_spec(),
            match item {
                None => old(self).remaining().len() == 0 && final(self).remaining().len() == 0,
                Some(row_view) => {
                    &&& old(self).remaining().len() > 0
                    &&& final(self).remaining() == old(self).remaining().drop_first()
                    &&& row_matches(
                        old(self).world_spec(),
                        old(self).state_spec(),
                        old(self).remaining().first(),
                        row_view,
                    )
                },
            },
    {
        let world = self.world;
        let query_state = self.query_state;
        let ghost remaining0 = self.remaining();

        while self.current_row >= self.current_table_len
            invariant
                self.world == world,
                self.query_state == query_state,
                old(self).world == world,
                old(self).query_state == query_state,
                self.inv(),
                self.remaining() == remaining0,
                remaining0 == old(self).remaining(),
            decreases self.state_spec().matched().len() - self.cti() + 1,
        {
            let matched_count = query_state.matched_count();
            if self.current_table_index >= matched_count {
                proof {
                    reveal_with_fuel(positions_from, 1);
                }
                return None;
            }
            let table_id = query_state.matched_at(self.current_table_index);
            let table = match world.get_tables().get_table(table_id) {
                Some(table) => table,
                None => {
                    proof {
                        assert(false);
                    }
                    return None;
                },
            };
            let ghost pre = *self;
            self.current_table_index = self.current_table_index + 1;
            let states_len = query_state.fetch_state_count();
            let mut u: usize = 0;
            while u < states_len
                invariant
                    u <= states_len,
                    self.world == world,
                    self.query_state == query_state,
                    old(self).world == world,
                    old(self).query_state == query_state,
                    world.wf(),
                    query_state.valid_for(*world),
                    states_len == query_state.fetch_states_seq().len(),
                    self.fetch@.len() == states_len,
                    1 <= self.current_table_index as int <= query_state.matched().len(),
                    table_id == query_state.matched()[self.current_table_index as int - 1],
                    *table == world.tables_spec().tables_seq()[table_id as int],
                    self.current_table_index == pre.current_table_index + 1,
                    self.current_row == pre.current_row,
                    self.current_table_len == pre.current_table_len,
                    forall|l: int|
                        0 <= l < u ==> Some((#[trigger] self.fetch@[l]).position_spec() as int)
                            == col_position(
                            table.columns(),
                            query_state.fetch_states_seq()[l].component_id_spec(),
                        ),
                decreases states_len - u,
            {
                let ghost fetch_pre = self.fetch@;
                let state = query_state.fetch_state_at(u);
                proof {
                    assert(query_state.states_match_table(*table));
                }
                self.fetch[u].set_table(state, table);
                proof {
                    assert forall|l: int| 0 <= l < u + 1
                        implies Some((#[trigger] self.fetch@[l]).position_spec() as int)
                            == col_position(
                            table.columns(),
                            query_state.fetch_states_seq()[l].component_id_spec(),
                        ) by {
                        if l < u {
                            assert(self.fetch@[l] == fetch_pre[l]);
                        }
                    }
                }
                u += 1;
            }
            self.current_row = 0;
            self.current_table_len = table.len();
            proof {
                assert(self.remaining() =~= pre.remaining()) by {
                    reveal_with_fuel(positions_from, 2);
                    if self.table_loaded() {
                        assert(table_positions(*world, table_id as int) =~= Seq::new(
                            (self.current_table_len - self.current_row) as nat,
                            |k: int| (table_id as int, self.current_row + k),
                        ));
                    } else {
                        assert(table_positions(*world, table_id as int) =~= Seq::<(int, int)>::empty());
                    }
                }
            }
        }

        let ghost pre = *self;
        let table_id = query_state.matched_at(self.current_table_index - 1);
        let table = match world.get_tables().get_table(table_id) {
            Some(table) => table,
            None => {
                proof {
                    assert(false);
                }
                return None;
            },
        };
        if !self.filter.matches() {
            proof {
                assert(false);
            }
            return None;
        }
        let row = self.current_row;
        let states_len = query_state.fetch_state_count();
        let mut cells: Vec<Vec<u8>> = Vec::new();
        let mut u: usize = 0;
        proof {
            assert(world.tables_spec().wf());
            assert(world.tables_spec().tables_seq()[table_id as int].wf());
        }
        while u < states_len
            invariant
                u <= states_len,
                self.inv(),
                self.world == world,
                self.query_state == query_state,
                old(self).world == world,
                old(self).query_state == query_state,
                self.table_loaded(),
                states_len == query_state.fetch_states_seq().len(),
                row == self.current_row,
                1 <= self.cti() <= query_state.matched().len(),
                table_id == query_state.matched()[self.cti() - 1],
                *table == world.tables_spec().tables_seq()[table_id as int],
                table.wf(),
                row < table.spec_len(),
                cells@.len() == u,
                forall|l: int|
                    0 <= l < u ==> (#[trigger] cells@[l])@ == table.columns()[col_position(
                        table.columns(),
                        query_state.fetch_states_seq()[l].component_id_spec(),
                    ).unwrap()].items()[row as int],
            decreases states_len - u,
        {
            proof {
                lemma_col_position(
                    table.columns(),
                    query_state.fetch_states_seq()[u as int].component_id_spec(),
                );
            }
            let cell = self.fetch[u].fetch_item_from_table(table, row);
            cells.push(cell);
            u += 1;
        }
        let entity = table.entity_at(row);
        self.current_row = self.current_row + 1;
        proof {
            assert(final(self).remaining() =~= pre.remaining().drop_first()) by {
                reveal_with_fuel(positions_from, 2);
            }
            assert(pre.remaining().first() == (table_id as int, row as int));
        }
        Some(QueryItem { entity, cells })
    }
}

impl QueryState {
    /// Number of fetch units.
    pub fn fetch_state_count(&self) -> (count: usize)
        ensures
            count == self.fetch_states_seq().len(),
    {
        self.fetch_states.len()
    }

    /// One fetch unit's state.
    pub fn fetch_state_at(&self, u: usize) -> (state: &FetchState)
        requires
            u < self.fetch_states_seq().len(),
        ensures
            *state == self.fetch_states_seq()[u as int],
    {
        &self.fetch_states[u]
    }

    /// Number of matched tables.
    pub fn matched_count(&self) -> (count: usize)
        ensures
            count == self.matched().len(),
    {
        self.matched_table_ids.len()
    }

    /// The id of one matched table.
    pub fn matched_at(&self, k: usize) -> (table_id: usize)
        requires
            k < self.matched().len(),
        ensures
            table_id == self.matched()[k as int],
    {
        self.matched_table_ids[k]
    }
}


} // verus!
