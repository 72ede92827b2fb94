//! Tables (archetypes) of columns, and the registry of tables.
//!
//! One [`Table`] holds every entity of one archetype: a set of component
//! columns in lockstep with a row-to-entity list. Every column always has
//! exactly as many rows as the entity list; rows are dense and are
//! compacted immediately on removal by swapping the last row in.
//!
//! [`Tables`] owns all tables and resolves an archetype — a set of
//! component ids — to a table by a canonical signature: the strictly
//! sorted sequence of the ids, which two permutations of one set share.

use vstd::prelude::*;

use crate::component::{ComponentDescriptor, ComponentId};
use crate::entity::Entity;
use crate::storage::blobvec::BlobVec;

verus! {

/// One component type's data for every row of its owning table.
pub struct Column {
    component_id: ComponentId,
    column_data: BlobVec,
}

impl Column {
    /// The identity of the component type this column stores.
    pub closed spec fn id_spec(&self) -> usize {
        self.component_id.id_spec()
    }

    /// The stored cells, one byte sequence per row.
    pub open spec fn items(&self) -> Seq<Seq<u8>> {
        self.data_spec().items()
    }

    /// How often this column's destructor has been invoked.
    pub open spec fn drop_count(&self) -> u64 {
        self.data_spec().drop_count()
    }

    /// The size of one cell in bytes.
    pub open spec fn item_size(&self) -> int {
        self.data_spec().item_size()
    }

    pub closed spec fn data_spec(&self) -> BlobVec {
        self.column_data
    }

    /// The owning component's identity, as a value.
    pub fn component_id_value(&self) -> (id: ComponentId)
        ensures
            id.id_spec() == self.id_spec(),
    {
        self.component_id
    }

    pub open spec fn wf(&self) -> bool {
        self.data_spec().wf()
    }

    /// Every stored cell is exactly one item-size long.
    pub proof fn lemma_items_sizes(&self)
        requires
            self.wf(),
        ensures
            forall|i: int|
                0 <= i < self.items().len() ==> (#[trigger] self.items()[i]).len() == self.item_size(),
    {
        self.data_spec().lemma_items_sizes();
    }

    /// A fresh, empty column for the described component type.
    pub fn new(descriptor: &ComponentDescriptor) -> (column: Column)
        requires
            descriptor.layout.valid(),
        ensures
            column.wf(),
            column.id_spec() == descriptor.id.id_spec(),
            column.item_size() == descriptor.layout.size,
            column.items() == Seq::<Seq<u8>>::empty(),
            column.drop_count() == 0,
    {
        Column::with_capacity(descriptor, 0)
    }

    /// A fresh, empty column with room for `capacity` rows.
    pub fn with_capacity(descriptor: &ComponentDescriptor, capacity: usize) -> (column: Column)
        requires
            descriptor.layout.valid(),
            descriptor.layout.size * capacity <= usize::MAX,
        ensures
            column.wf(),
            column.id_spec() == descriptor.id.id_spec(),
            column.item_size() == descriptor.layout.size,
            column.items() == Seq::<Seq<u8>>::empty(),
            column.drop_count() == 0,
    {
        Column {
            component_id: descriptor.id,
            column_data: BlobVec::new(descriptor.layout, capacity),
        }
    }

    /// How many times this column's destructor has been invoked so far.
    pub fn drop_invocations(&self) -> (count: u64)
        ensures
            count == self.drop_count(),
    {
        self.column_data.drop_invocations()
    }

    /// Capacity in bytes.
    pub fn capacity(&self) -> (cap: usize)
        requires
            self.wf(),
        ensures
            cap == self.data_spec().spec_capacity(),
    {
        self.column_data.capacity()
    }

    /// Capacity in rows.
    pub fn item_capacity(&self) -> (cap: usize)
        requires
            self.wf(),
        ensures
            cap == (if self.item_size() == 0 {
                usize::MAX as int
            } else {
                self.data_spec().spec_capacity() / self.item_size()
            }),
    {
        self.column_data.item_capacity()
    }

    /// Used length in bytes.
    pub fn len(&self) -> (len: usize)
        requires
            self.wf(),
        ensures
            len == self.items().len() * self.item_size(),
    {
        self.column_data.len()
    }

    /// Number of rows.
    pub fn items_len(&self) -> (len: usize)
        ensures
            len == self.items().len(),
    {
        self.column_data.items_len()
    }

    /// Grows the column so at least `additional` more rows fit.
    pub fn reserve_exact(&mut self, additional: usize)
        requires
            old(self).wf(),
            old(self).items().len() + additional <= usize::MAX,
            (old(self).items().len() + additional) * old(self).item_size() <= usize::MAX,
        ensures
            final(self).wf(),
            final(self).id_spec() == old(self).id_spec(),
            final(self).item_size() == old(self).item_size(),
            final(self).items() == old(self).items(),
            final(self).drop_count() == old(self).drop_count(),
    {
        self.column_data.reserve_exact(additional)
    }

    /// Appends one uninitialized row and returns its index.
    pub fn push_uninit(&mut self) -> (index: usize)
        requires
            old(self).wf(),
            old(self).items().len() < usize::MAX,
            (old(self).items().len() + 1) * old(self).item_size() <= usize::MAX,
        ensures
            final(self).wf(),
            final(self).id_spec() == old(self).id_spec(),
            final(self).item_size() == old(self).item_size(),
            final(self).drop_count() == old(self).drop_count(),
            index == old(self).items().len(),
            final(self).items().len() == old(self).items().len() + 1,
            forall|i: int|
                0 <= i < old(self).items().len() ==> final(self).items()[i] == old(self).items()[i],
            final(self).items()[index as int].len() == final(self).item_size(),
    {
        self.column_data.push_uninit()
    }

    /// First write of a never-written row: no destructor is invoked.
    pub fn init_unchecked(&mut self, index: usize, value: &Vec<u8>)
        requires
            old(self).wf(),
            index < old(self).items().len(),
            value@.len() == old(self).item_size(),
        ensures
            final(self).wf(),
            final(self).id_spec() == old(self).id_spec(),
            final(self).item_size() == old(self).item_size(),
            final(self).items() == old(self).items().update(index as int, value@),
            final(self).drop_count() == old(self).drop_count(),
    {
        self.column_data.init_unchecked(index, value)
    }

    /// Replaces a live row, destructing the old value exactly once.
    pub fn replace_unchecked(&mut self, index: usize, value: &Vec<u8>)
        requires
            old(self).wf(),
            index < old(self).items().len(),
            value@.len() == old(self).item_size(),
            old(self).drop_count() < u64::MAX,
        ensures
            final(self).wf(),
            final(self).id_spec() == old(self).id_spec(),
            final(self).item_size() == old(self).item_size(),
            final(self).items() == old(self).items().update(index as int, value@),
            final(self).drop_count() == old(self).drop_count() + 1,
    {
        self.column_data.replace_unchecked(index, value)
    }

    /// Reads the raw bytes of one row.
    pub fn get_unchecked(&self, index: usize) -> (cell: Vec<u8>)
        requires
            self.wf(),
            index < self.items().len(),
        ensures
            cell@ == self.items()[index as int],
    {
        self.column_data.get_unchecked(index)
    }

    /// Swap-removes one row, handing its bytes to the caller; no destructor.
    pub fn swap_remove_and_forget_unchecked(&mut self, index: usize) -> (cell: Vec<u8>)
        requires
            old(self).wf(),
            index < old(self).items().len(),
        ensures
            final(self).wf(),
            final(self).id_spec() == old(self).id_spec(),
            final(self).item_size() == old(self).item_size(),
            cell@ == old(self).items()[index as int],
            final(self).items() == old(self).items().update(
                index as int,
                old(self).items().last(),
            ).drop_last(),
            final(self).drop_count() == old(self).drop_count(),
    {
        self.column_data.swap_remove_and_forget_unchecked(index)
    }

    /// Swap-removes one row and destructs its value exactly once.
    pub fn swap_remove_and_drop_unchecked(&mut self, index: usize)
        requires
            old(self).wf(),
            index < old(self).items().len(),
            old(self).drop_count() < u64::MAX,
        ensures
            final(self).wf(),
            final(self).id_spec() == old(self).id_spec(),
            final(self).item_size() == old(self).item_size(),
            final(self).items() == old(self).items().update(
                index as int,
                old(self).items().last(),
            ).drop_last(),
            final(self).drop_count() == old(self).drop_count() + 1,
    {
        self.column_data.swap_remove_and_drop_unchecked(index)
    }

    /// Destructs every row (once each) and empties the column.
    pub fn clear(&mut self)
        requires
            old(self).wf(),
            old(self).drop_count() + old(self).items().len() <= u64::MAX,
        ensures
            final(self).wf(),
            final(self).id_spec() == old(self).id_spec(),
            final(self).item_size() == old(self).item_size(),
            final(self).items() == Seq::<Seq<u8>>::empty(),
            final(self).drop_count() == old(self).drop_count() + old(self).items().len(),
    {
        self.column_data.clear()
    }
}

/// Position of the column for `id` within a column list, front to back.
pub open spec fn col_position(columns: Seq<Column>, id: usize) -> Option<int>
    decreases columns.len(),
{
    if columns.len() == 0 {
        None
    } else if columns.first().id_spec() == id {
        Some(0)
    } else {
        match col_position(columns.drop_first(), id) {
            Some(p) => Some(p + 1),
            None => None,
        }
    }
}

/// What a successful or failed column search means for the list itself.
pub proof fn lemma_col_position(columns: Seq<Column>, id: usize)
    ensures
        match col_position(columns, id) {
            Some(p) => 0 <= p < columns.len() && columns[p].id_spec() == id,
            None => forall|j: int| 0 <= j < columns.len() ==> (#[trigger] columns[j]).id_spec() != id,
        },
    decreases columns.len(),
{
    if columns.len() > 0 && columns.first().id_spec() != id {
        lemma_col_position(columns.drop_first(), id);
        match col_position(columns, id) {
            Some(p) => {},
            None => {
                assert forall|j: int| 0 <= j < columns.len() implies (#[trigger] columns[j]).id_spec()
                    != id by {
                    if j > 0 {
                        assert(columns.drop_first()[j - 1] == columns[j]);
                    }
                }
            },
        }
    }
}

/// What one cross-table row move reports: where the row landed in the
/// destination, and which entity was relocated into the vacated source row.
pub struct TableMoveResult {
    /// The row the moved entity now occupies in the destination table.
    pub moved_row: usize,
    /// The entity that now lives at the vacated source row, `None` when the
    /// moved row was the last one.
    pub swapped_entity: Option<Entity>,
}

/// Storage for all entities sharing one archetype: component columns in
/// lockstep with a row-to-entity list.
pub struct Table {
    components: Vec<Column>,
    entities: Vec<Entity>,
}

impl Table {
    /// The columns, in registration order.
    pub closed spec fn columns(&self) -> Seq<Column> {
        self.components@
    }

    /// The row-to-entity list.
    pub closed spec fn entities_seq(&self) -> Seq<Entity> {
        self.entities@
    }

    /// Number of rows.
    pub open spec fn spec_len(&self) -> nat {
        self.entities_seq().len()
    }

    /// Whether a column for component `id` exists.
    pub open spec fn has_column_spec(&self, id: usize) -> bool {
        col_position(self.columns(), id) is Some
    }

    /// Table soundness: every column is sound, holds exactly one row per
    /// entity, and no component id owns two columns.
    pub open spec fn wf(&self) -> bool {
        &&& forall|j: int| 0 <= j < self.columns().len() ==> (#[trigger] self.columns()[j]).wf()
        &&& forall|j: int|
            0 <= j < self.columns().len() ==> (#[trigger] self.columns()[j]).items().len()
                == self.spec_len()
        &&& forall|j: int, l: int|
            0 <= j < self.columns().len() && 0 <= l < self.columns().len() && j != l ==> (
            #[trigger] self.columns()[j]).id_spec() != (#[trigger] self.columns()[l]).id_spec()
    }

    pub fn new() -> (table: Table)
        ensures
            table.wf(),
            table.columns() == Seq::<Column>::empty(),
            table.entities_seq() == Seq::<Entity>::empty(),
    {
        Table { components: Vec::new(), entities: Vec::new() }
    }

    /// As `new`, with row storage preallocated.
    pub fn with_capacity(row_capacity: usize, column_capacity: usize) -> (table: Table)
        ensures
            table.wf(),
            table.columns() == Seq::<Column>::empty(),
            table.entities_seq() == Seq::<Entity>::empty(),
    {
        let _ = column_capacity;
        Table { components: Vec::with_capacity(row_capacity), entities: Vec::new() }
    }

    /// Number of rows.
    pub fn len(&self) -> (rows: usize)
        ensures
            rows == self.spec_len(),
    {
        self.entities.len()
    }

    /// Whether the table has no rows.
    pub fn is_empty(&self) -> (empty: bool)
        ensures
            empty == (self.spec_len() == 0),
    {
        self.entities.len() == 0
    }

    /// The entity occupying one row.
    pub fn entity_at(&self, row: usize) -> (entity: Entity)
        requires
            row < self.spec_len(),
        ensures
            entity == self.entities_seq()[row as int],
    {
        self.entities[row].clone()
    }

    /// Registers a column for the described component type, with one row
    /// per existing entity; a second registration of the same id is a no-op.
    pub fn add_column(&mut self, descriptor: &ComponentDescriptor)
        requires
            old(self).wf(),
            descriptor.layout.valid(),
            old(self).spec_len() * descriptor.layout.size <= usize::MAX,
            old(self).spec_len() < usize::MAX,
        ensures
            final(self).wf(),
            final(self).entities_seq() == old(self).entities_seq(),
            if old(self).has_column_spec(descriptor.id.id_spec()) {
                final(self).columns() == old(self).columns()
            } else {
                &&& final(self).columns().len() == old(self).columns().len() + 1
                &&& forall|j: int|
                    0 <= j < old(self).columns().len() ==> #[trigger] final(self).columns()[j]
                        == old(self).columns()[j]
                &&& final(self).columns().last().id_spec() == descriptor.id.id_spec()
                &&& final(self).columns().last().item_size() == descriptor.layout.size
                &&& final(self).columns().last().drop_count() == 0
            },
            final(self).has_column_spec(descriptor.id.id_spec()),
    {
        proof {
            lemma_col_position(self.columns(), descriptor.id.id_spec());
            let rows = old(self).spec_len() as int;
            let size = descriptor.layout.size as int;
            assert(size * rows == rows * size) by (nonlinear_arith);
        }
        if self.find_column(descriptor.id.id()).is_some() {
            return;
        }
        let mut column = Column::with_capacity(descriptor, self.entities.len());
        let rows = self.entities.len();
        let mut r: usize = 0;
        while r < rows
            invariant
                r <= rows,
                column.wf(),
                column.id_spec() == descriptor.id.id_spec(),
                column.item_size() == descriptor.layout.size,
                column.items().len() == r,
                column.drop_count() == 0,
                rows * descriptor.layout.size <= usize::MAX,
                rows < usize::MAX,
            decreases rows - r,
        {
            proof {
                assert((r + 1) * column.item_size() <= rows * column.item_size())
                    by (nonlinear_arith)
                    requires
                        0 <= column.item_size(),
                        r + 1 <= rows,
                ;
            }
            let _ = column.push_uninit();
            r += 1;
        }
        self.components.push(column);
        proof {
            lemma_col_position_push(old(self).columns(), self.columns().last(), descriptor.id.id_spec());
            assert forall|j: int, l: int|
                0 <= j < self.columns().len() && 0 <= l < self.columns().len() && j != l
                implies (#[trigger] self.columns()[j]).id_spec() != (#[trigger] self.columns()[l]).id_spec() by {
                lemma_col_position(old(self).columns(), descriptor.id.id_spec());
            }
        }
    }

    /// Appends one uninitialized row for `entity` into every column and the
    /// entity list, and returns the new row index.
    pub fn add_row(&mut self, entity: Entity) -> (row: usize)
        requires
            old(self).wf(),
            old(self).spec_len() < usize::MAX,
            forall|j: int|
                0 <= j < old(self).columns().len() ==> (old(self).spec_len() + 1) * (
                #[trigger] old(self).columns()[j]).item_size() <= usize::MAX,
        ensures
            final(self).wf(),
            row == old(self).spec_len(),
            final(self).entities_seq() == old(self).entities_seq().push(entity),
            final(self).columns().len() == old(self).columns().len(),
            forall|j: int|
                0 <= j < old(self).columns().len() ==> {
                    &&& (#[trigger] final(self).columns()[j]).id_spec() == old(self).columns()[j].id_spec()
                    &&& final(self).columns()[j].item_size() == old(self).columns()[j].item_size()
                    &&& final(self).columns()[j].drop_count() == old(self).columns()[j].drop_count()
                    &&& final(self).columns()[j].items().len() == old(self).spec_len() + 1
                    &&& forall|i: int|
                        0 <= i < old(self).spec_len() ==> final(self).columns()[j].items()[i]
                            == old(self).columns()[j].items()[i]
                },
    {
        let ghost orig = *self;
        let columns_len = self.components.len();
        let mut j: usize = 0;
        while j < columns_len
            invariant
                j <= columns_len,
                columns_len == self.columns().len(),
                columns_len == orig.columns().len(),
                self.entities_seq() == orig.entities_seq(),
                orig.wf(),
                orig == *old(self),
                orig.spec_len() < usize::MAX,
                forall|l: int|
                    0 <= l < columns_len ==> (orig.spec_len() + 1) * (
                    #[trigger] orig.columns()[l]).item_size() <= usize::MAX,
                forall|l: int|
                    j <= l < columns_len ==> #[trigger] self.columns()[l] == orig.columns()[l],
                forall|l: int|
                    0 <= l < j ==> {
                        &&& (#[trigger] self.columns()[l]).wf()
                        &&& self.columns()[l].id_spec() == orig.columns()[l].id_spec()
                        &&& self.columns()[l].item_size() == orig.columns()[l].item_size()
                        &&& self.columns()[l].drop_count() == orig.columns()[l].drop_count()
                        &&& self.columns()[l].items().len() == orig.spec_len() + 1
                        &&& forall|i: int|
                            0 <= i < orig.spec_len() ==> self.columns()[l].items()[i]
                                == orig.columns()[l].items()[i]
                    },
            decreases columns_len - j,
        {
            let ghost pre = self.columns();
            proof {
                assert(self.columns()[j as int] == orig.columns()[j as int]);
                assert(self.columns()[j as int].wf());
                assert(self.components@[j as int].wf());
            }
            let _ = self.components[j].push_uninit();
            proof {
                assert forall|l: int| 0 <= l < j + 1 implies {
                    &&& (#[trigger] self.columns()[l]).wf()
                    &&& self.columns()[l].id_spec() == orig.columns()[l].id_spec()
                    &&& self.columns()[l].item_size() == orig.columns()[l].item_size()
                    &&& self.columns()[l].drop_count() == orig.columns()[l].drop_count()
                    &&& self.columns()[l].items().len() == orig.spec_len() + 1
                    &&& forall|i: int|
                        0 <= i < orig.spec_len() ==> self.columns()[l].items()[i]
                            == orig.columns()[l].items()[i]
                } by {
                    if l < j {
                        assert(self.columns()[l] == pre[l]);
                    }
                }
                assert forall|l: int| j + 1 <= l < columns_len
                    implies #[trigger] self.columns()[l] == orig.columns()[l] by {
                    assert(self.columns()[l] == pre[l]);
                }
            }
            j += 1;
        }
        self.entities.push(entity);
        self.entities.len() - 1
    }

    /// Pre-grows every column and the entity list to a shared capacity for
    /// `additional` further rows, so the columns do not reallocate one by one.
    pub fn reserve_rows_exact(&mut self, additional: usize)
        requires
            old(self).wf(),
            old(self).spec_len() + additional <= usize::MAX,
            forall|j: int|
                0 <= j < old(self).columns().len() ==> (old(self).spec_len() + additional) * (
                #[trigger] old(self).columns()[j]).item_size() <= usize::MAX,
        ensures
            final(self).wf(),
            final(self).entities_seq() == old(self).entities_seq(),
            final(self).columns().len() == old(self).columns().len(),
            forall|j: int|
                0 <= j < old(self).columns().len() ==> {
                    &&& (#[trigger] final(self).columns()[j]).id_spec() == old(self).columns()[j].id_spec()
                    &&& final(self).columns()[j].item_size() == old(self).columns()[j].item_size()
                    &&& final(self).columns()[j].drop_count() == old(self).columns()[j].drop_count()
                    &&& final(self).columns()[j].items() == old(self).columns()[j].items()
                },
    {
        let ghost orig = *self;
        self.entities.reserve(additional);
        let columns_len = self.components.len();
        let mut j: usize = 0;
        while j < columns_len
            invariant
                j <= columns_len,
                columns_len == self.columns().len(),
                columns_len == orig.columns().len(),
                self.entities_seq() == orig.entities_seq(),
                orig.wf(),
                orig == *old(self),
                orig.spec_len() + additional <= usize::MAX,
                forall|l: int|
                    0 <= l < columns_len ==> (orig.spec_len() + additional) * (
                    #[trigger] orig.columns()[l]).item_size() <= usize::MAX,
                forall|l: int|
                    j <= l < columns_len ==> #[trigger] self.columns()[l] == orig.columns()[l],
                forall|l: int|
                    0 <= l < j ==> {
                        &&& (#[trigger] self.columns()[l]).wf()
                        &&& self.columns()[l].id_spec() == orig.columns()[l].id_spec()
                        &&& self.columns()[l].item_size() == orig.columns()[l].item_size()
                        &&& self.columns()[l].drop_count() == orig.columns()[l].drop_count()
                        &&& self.columns()[l].items() == orig.columns()[l].items()
                    },
            decreases columns_len - j,
        {
            let ghost pre = self.columns();
            proof {
                assert(self.columns()[j as int] == orig.columns()[j as int]);
                assert(self.columns()[j as int].wf());
            }
            self.components[j].reserve_exact(additional);
            proof {
                assert forall|l: int| 0 <= l < j + 1 implies {
                    &&& (#[trigger] self.columns()[l]).wf()
                    &&& self.columns()[l].id_spec() == orig.columns()[l].id_spec()
                    &&& self.columns()[l].item_size() == orig.columns()[l].item_size()
                    &&& self.columns()[l].drop_count() == orig.columns()[l].drop_count()
                    &&& self.columns()[l].items() == orig.columns()[l].items()
                } by {
                    if l < j {
                        assert(self.columns()[l] == pre[l]);
                    }
                }
                assert forall|l: int| j + 1 <= l < columns_len
                    implies #[trigger] self.columns()[l] == orig.columns()[l] by {
                    assert(self.columns()[l] == pre[l]);
                }
            }
            j += 1;
        }
    }

    /// Finds the position of the column for `component_id`.
    pub fn find_column(&self, component_id: usize) -> (position: Option<usize>)
        ensures
            match position {
                Some(p) => col_position(self.columns(), component_id) == Some(p as int),
                None => col_position(self.columns(), component_id) is None,
            },
    {
        let mut j: usize = 0;
        proof {
            lemma_col_position_skip(self.columns(), component_id);
        }
        while j < self.components.len()
            invariant
                j <= self.columns().len(),
                forall|l: int| 0 <= l < j ==> (#[trigger] self.columns()[l]).id_spec() != component_id,
                col_position_from(self.columns(), component_id, j as int) == col_position(
                    self.columns(),
                    component_id,
                ),
            decreases self.columns().len() - j,
        {
            if self.components[j].component_id.id() == component_id {
                proof {
                    assert(self.columns().skip(j as int).first() == self.columns()[j as int]);
                    reveal_with_fuel(col_position, 2);
                }
                return Some(j);
            }
            j += 1;
            proof {
                assert(self.columns().skip(j - 1).first() == self.columns()[j - 1]);
                assert(self.columns().skip(j - 1).drop_first() =~= self.columns().skip(j as int));
                reveal_with_fuel(col_position, 2);
            }
        }
        proof {
            assert(self.columns().skip(j as int) =~= Seq::<Column>::empty());
            reveal_with_fuel(col_position, 1);
        }
        None
    }

    /// The column storing `component_id`, if the table has one.
    pub fn get_column(&self, component_id: &ComponentId) -> (column: Option<&Column>)
        ensures
            match col_position(self.columns(), component_id.id_spec()) {
                Some(p) => {
                    &&& column is Some
                    &&& *column.unwrap() == self.columns()[p]
                    &&& column.unwrap().id_spec() == component_id.id_spec()
                },
                None => column is None,
            },
    {
        match self.find_column(component_id.id()) {
            Some(p) => {
                proof {
                    lemma_col_position(self.columns(), component_id.id_spec());
                }
                Some(&self.components[p])
            },
            None => None,
        }
    }

    /// Mutable access to the column storing `component_id`.
    pub fn get_column_mut(&mut self, component_id: &ComponentId) -> (column: Option<&mut Column>)
        ensures
            match col_position(old(self).columns(), component_id.id_spec()) {
                Some(p) => {
                    &&& column is Some
                    &&& *column.unwrap() == old(self).columns()[p]
                    &&& final(self).columns() == old(self).columns().update(
                        p,
                        *final(column.unwrap()),
                    )
                    &&& final(self).entities_seq() == old(self).entities_seq()
                },
                None => column is None && *final(self) == *old(self),
            },
    {
        match self.find_column(component_id.id()) {
            Some(p) => {
                proof {
                    lemma_col_position(old(self).columns(), component_id.id_spec());
                }
                Some(&mut self.components[p])
            },
            None => None,
        }
    }
}

/// `col_position` restricted to the columns from position `from` on.
pub open spec fn col_position_from(columns: Seq<Column>, id: usize, from: int) -> Option<int> {
    match col_position(columns.skip(from), id) {
        Some(p) => Some(p + from),
        None => None,
    }
}

proof fn lemma_col_position_skip(columns: Seq<Column>, id: usize)
    ensures
        col_position_from(columns, id, 0) == col_position(columns, id),
{
    assert(columns.skip(0) =~= columns);
}

impl Table {
    /// The column at one position of the column list.
    pub fn column_at(&self, position: usize) -> (column: &Column)
        requires
            position < self.columns().len(),
        ensures
            *column == self.columns()[position as int],
    {
        &self.components[position]
    }

    /// Overwrites one cell of one column in place, leaving every other
    /// column, the entity list and the drop counter alone. This is the
    /// write behind a mutable row view: the erased value is mutated, not
    /// replaced, so no destructor runs.
    pub fn write_column_cell(&mut self, position: usize, row: usize, cell: &Vec<u8>)
        requires
            old(self).wf(),
            position < old(self).columns().len(),
            row < old(self).spec_len(),
            cell@.len() == old(self).columns()[position as int].item_size(),
        ensures
            final(self).wf(),
            final(self).entities_seq() == old(self).entities_seq(),
            final(self).columns().len() == old(self).columns().len(),
            forall|l: int|
                0 <= l < old(self).columns().len() && l != position ==> #[trigger] final(self).columns()[l] == old(self).columns()[l],
            final(self).columns()[position as int].items() == old(
                self,
            ).columns()[position as int].items().update(row as int, cell@),
            final(self).columns()[position as int].id_spec() == old(
                self,
            ).columns()[position as int].id_spec(),
            final(self).columns()[position as int].item_size() == old(
                self,
            ).columns()[position as int].item_size(),
            final(self).columns()[position as int].drop_count() == old(
                self,
            ).columns()[position as int].drop_count(),
    {
        let ghost pre = self.columns();
        proof {
            assert(self.columns()[position as int].wf());
            assert(self.columns()[position as int].items().len() == self.spec_len());
        }
        self.components[position].init_unchecked(row, cell);
        proof {
            assert forall|l: int| 0 <= l < pre.len() && l != position
                implies #[trigger] self.columns()[l] == pre[l] by {}
            assert forall|j: int, l: int|
                0 <= j < self.columns().len() && 0 <= l < self.columns().len() && j != l
                implies (#[trigger] self.columns()[j]).id_spec() != (#[trigger] self.columns()[l]).id_spec() by {
                if j != position && l != position {
                    assert(self.columns()[j] == pre[j]);
                    assert(self.columns()[l] == pre[l]);
                } else if j == position {
                    assert(self.columns()[l] == pre[l]);
                } else {
                    assert(self.columns()[j] == pre[j]);
                }
            }
        }
    }

    /// Destroys every column's cell at `row` (one destructor invocation
    /// each) and compacts by swapping the last row in. Returns the entity
    /// that was relocated into the vacated row, `None` when the removed row
    /// was the last; the caller must refresh any cached handle of it.
    pub fn swap_remove_and_drop_unchecked(&mut self, row: usize) -> (swapped: Option<Entity>)
        requires
            old(self).wf(),
            row < old(self).spec_len(),
            forall|j: int|
                0 <= j < old(self).columns().len() ==> (#[trigger] old(self).columns()[j]).drop_count()
                    < u64::MAX,
        ensures
            final(self).wf(),
            final(self).entities_seq() == old(self).entities_seq().update(
                row as int,
                old(self).entities_seq().last(),
            ).drop_last(),
            final(self).columns().len() == old(self).columns().len(),
            forall|j: int|
                0 <= j < old(self).columns().len() ==> {
                    &&& (#[trigger] final(self).columns()[j]).id_spec() == old(self).columns()[j].id_spec()
                    &&& final(self).columns()[j].item_size() == old(self).columns()[j].item_size()
                    &&& final(self).columns()[j].items() == old(self).columns()[j].items().update(
                        row as int,
                        old(self).columns()[j].items().last(),
                    ).drop_last()
                    &&& final(self).columns()[j].drop_count() == old(self).columns()[j].drop_count() + 1
                },
            swapped == (if row + 1 == old(self).spec_len() {
                None::<Entity>
            } else {
                Some(old(self).entities_seq().last())
            }),
    {
        let ghost orig = *self;
        let columns_len = self.components.len();
        let mut j: usize = 0;
        while j < columns_len
            invariant
                j <= columns_len,
                columns_len == self.columns().len(),
                columns_len == orig.columns().len(),
                self.entities_seq() == orig.entities_seq(),
                orig.wf(),
                orig == *old(self),
                row < orig.spec_len(),
                forall|l: int|
                    0 <= l < columns_len ==> (#[trigger] orig.columns()[l]).drop_count() < u64::MAX,
                forall|l: int|
                    j <= l < columns_len ==> #[trigger] self.columns()[l] == orig.columns()[l],
                forall|l: int|
                    0 <= l < j ==> {
                        &&& (#[trigger] self.columns()[l]).wf()
                        &&& self.columns()[l].id_spec() == orig.columns()[l].id_spec()
                        &&& self.columns()[l].item_size() == orig.columns()[l].item_size()
                        &&& self.columns()[l].items() == orig.columns()[l].items().update(
                            row as int,
                            orig.columns()[l].items().last(),
                        ).drop_last()
                        &&& self.columns()[l].drop_count() == orig.columns()[l].drop_count() + 1
                    },
            decreases columns_len - j,
        {
            let ghost pre = self.columns();
            proof {
                assert(self.columns()[j as int] == orig.columns()[j as int]);
                assert(self.columns()[j as int].wf());
            }
            self.components[j].swap_remove_and_drop_unchecked(row);
            proof {
                assert forall|l: int| 0 <= l < j + 1 implies {
                    &&& (#[trigger] self.columns()[l]).wf()
                    &&& self.columns()[l].id_spec() == orig.columns()[l].id_spec()
                    &&& self.columns()[l].item_size() == orig.columns()[l].item_size()
                    &&& self.columns()[l].items() == orig.columns()[l].items().update(
                        row as int,
                        orig.columns()[l].items().last(),
                    ).drop_last()
                    &&& self.columns()[l].drop_count() == orig.columns()[l].drop_count() + 1
                } by {
                    if l < j {
                        assert(self.columns()[l] == pre[l]);
                    }
                }
                assert forall|l: int| j + 1 <= l < columns_len
                    implies #[trigger] self.columns()[l] == orig.columns()[l] by {
                    assert(self.columns()[l] == pre[l]);
                }
            }
            j += 1;
        }

        let is_last = row == self.entities.len() - 1;
        let _ = self.entities.swap_remove(row);
        if is_last {
            None
        } else {
            Some(self.entities[row])
        }
    }

    /// Moves row `row` into `dst_table`, whose columns must be a superset
    /// of this table's: nothing of the row is lost and no destructor runs.
    pub fn move_row_to_superset_unchecked(&mut self, row: usize, dst_table: &mut Table) -> (result:
        TableMoveResult)
        requires
            old(self).wf(),
            old(dst_table).wf(),
            row < old(self).spec_len(),
            old(dst_table).spec_len() < usize::MAX,
            forall|l: int|
                0 <= l < old(dst_table).columns().len() ==> (old(dst_table).spec_len() + 1) * (
                #[trigger] old(dst_table).columns()[l]).item_size() <= usize::MAX,
            forall|j: int|
                0 <= j < old(self).columns().len() ==> match col_position(
                    old(dst_table).columns(),
                    (#[trigger] old(self).columns()[j]).id_spec(),
                ) {
                    Some(p) => old(dst_table).columns()[p].item_size() == old(
                        self,
                    ).columns()[j].item_size(),
                    None => false,
                },
        ensures
            move_row_spec(*old(self), *final(self), *old(dst_table), *final(dst_table), row as int, false, result),
    {
        self.move_row_unchecked(row, dst_table, false)
    }

    /// Moves row `row` into `dst_table`; a column absent from the
    /// destination is abandoned without its destructor running. The caller
    /// must guarantee the abandoned values' resources are released some
    /// other way; `move_row_drop_missing_unchecked` is the safe default.
    pub fn move_row_forget_missing_unchecked(&mut self, row: usize, dst_table: &mut Table) -> (result:
        TableMoveResult)
        requires
            old(self).wf(),
            old(dst_table).wf(),
            row < old(self).spec_len(),
            old(dst_table).spec_len() < usize::MAX,
            forall|l: int|
                0 <= l < old(dst_table).columns().len() ==> (old(dst_table).spec_len() + 1) * (
                #[trigger] old(dst_table).columns()[l]).item_size() <= usize::MAX,
            forall|j: int|
                0 <= j < old(self).columns().len() ==> match col_position(
                    old(dst_table).columns(),
                    (#[trigger] old(self).columns()[j]).id_spec(),
                ) {
                    Some(p) => old(dst_table).columns()[p].item_size() == old(
                        self,
                    ).columns()[j].item_size(),
                    None => true,
                },
        ensures
            move_row_spec(*old(self), *final(self), *old(dst_table), *final(dst_table), row as int, false, result),
    {
        self.move_row_unchecked(row, dst_table, false)
    }

    /// Moves row `row` into `dst_table`; a column absent from the
    /// destination has its cell destructed (exactly once). The safe default
    /// of the three relocation policies.
    pub fn move_row_drop_missing_unchecked(&mut self, row: usize, dst_table: &mut Table) -> (result:
        TableMoveResult)
        requires
            old(self).wf(),
            old(dst_table).wf(),
            row < old(self).spec_len(),
            old(dst_table).spec_len() < usize::MAX,
            forall|l: int|
                0 <= l < old(dst_table).columns().len() ==> (old(dst_table).spec_len() + 1) * (
                #[trigger] old(dst_table).columns()[l]).item_size() <= usize::MAX,
            forall|j: int|
                0 <= j < old(self).columns().len() ==> match col_position(
                    old(dst_table).columns(),
                    (#[trigger] old(self).columns()[j]).id_spec(),
                ) {
                    Some(p) => old(dst_table).columns()[p].item_size() == old(
                        self,
                    ).columns()[j].item_size(),
                    None => old(self).columns()[j].drop_count() < u64::MAX,
                },
        ensures
            move_row_spec(*old(self), *final(self), *old(dst_table), *final(dst_table), row as int, true, result),
    {
        self.move_row_unchecked(row, dst_table, true)
    }

    /// The shared engine of the three relocation policies: always copies
    /// the common columns' raw bytes across, and treats a source column
    /// missing from the destination per `drop_missing`.
    fn move_row_unchecked(&mut self, row: usize, dst_table: &mut Table, drop_missing: bool) -> (result:
        TableMoveResult)
        requires
            old(self).wf(),
            old(dst_table).wf(),
            row < old(self).spec_len(),
            old(dst_table).spec_len() < usize::MAX,
            forall|l: int|
                0 <= l < old(dst_table).columns().len() ==> (old(dst_table).spec_len() + 1) * (
                #[trigger] old(dst_table).columns()[l]).item_size() <= usize::MAX,
            forall|j: int|
                0 <= j < old(self).columns().len() ==> match col_position(
                    old(dst_table).columns(),
                    (#[trigger] old(self).columns()[j]).id_spec(),
                ) {
                    Some(p) => old(dst_table).columns()[p].item_size() == old(
                        self,
                    ).columns()[j].item_size(),
                    None => drop_missing ==> old(self).columns()[j].drop_count() < u64::MAX,
                },
        ensures
            move_row_spec(*old(self), *final(self), *old(dst_table), *final(dst_table), row as int, drop_missing, result),
    {
        let ghost src_orig = *self;
        let ghost dst_orig = *dst_table;

        let is_last = row == self.entities.len() - 1;
        let moved_entity = self.entities.swap_remove(row);
        let moved_row = dst_table.add_row(moved_entity);
        let ghost dst_added = *dst_table;

        let columns_len = self.components.len();
        let mut j: usize = 0;
        while j < columns_len
            invariant
                j <= columns_len,
                columns_len == self.columns().len(),
                columns_len == src_orig.columns().len(),
                src_orig.wf(),
                dst_orig.wf(),
                row < src_orig.spec_len(),
                moved_row == dst_orig.spec_len(),
                dst_table.entities_seq() == dst_orig.entities_seq().push(
                    src_orig.entities_seq()[row as int],
                ),
                self.entities_seq() == src_orig.entities_seq().update(
                    row as int,
                    src_orig.entities_seq().last(),
                ).drop_last(),
                forall|l: int|
                    0 <= l < src_orig.columns().len() ==> match col_position(
                        dst_orig.columns(),
                        (#[trigger] src_orig.columns()[l]).id_spec(),
                    ) {
                        Some(p) => dst_orig.columns()[p].item_size() == src_orig.columns()[l].item_size(),
                        None => drop_missing ==> src_orig.columns()[l].drop_count() < u64::MAX,
                    },
                forall|l: int|
                    j <= l < columns_len ==> #[trigger] self.columns()[l] == src_orig.columns()[l],
                forall|l: int|
                    0 <= l < j ==> {
                        &&& (#[trigger] self.columns()[l]).wf()
                        &&& self.columns()[l].id_spec() == src_orig.columns()[l].id_spec()
                        &&& self.columns()[l].item_size() == src_orig.columns()[l].item_size()
                        &&& self.columns()[l].items() == src_orig.columns()[l].items().update(
                            row as int,
                            src_orig.columns()[l].items().last(),
                        ).drop_last()
                        &&& self.columns()[l].drop_count() == src_orig.columns()[l].drop_count() + (
                        if drop_missing && col_position(dst_orig.columns(), src_orig.columns()[l].id_spec()) is None {
                            1int
                        } else {
                            0int
                        })
                    },
                dst_table.columns().len() == dst_orig.columns().len(),
                forall|l: int|
                    0 <= l < dst_orig.columns().len() ==> {
                        &&& (#[trigger] dst_table.columns()[l]).wf()
                        &&& dst_table.columns()[l].id_spec() == dst_orig.columns()[l].id_spec()
                        &&& dst_table.columns()[l].item_size() == dst_orig.columns()[l].item_size()
                        &&& dst_table.columns()[l].drop_count() == dst_orig.columns()[l].drop_count()
                        &&& dst_table.columns()[l].items().len() == dst_orig.spec_len() + 1
                    },
                forall|l: int, i: int|
                    0 <= l < dst_orig.columns().len() && 0 <= i < dst_orig.spec_len()
                        ==> #[trigger] dst_table.columns()[l].items()[i]
                        == dst_orig.columns()[l].items()[i],
                forall|l: int|
                    0 <= l < dst_orig.columns().len() ==> match col_position(
                        src_orig.columns(),
                        (#[trigger] dst_table.columns()[l]).id_spec(),
                    ) {
                        Some(q) => 0 <= q < j ==> dst_table.columns()[l].items().last()
                            == src_orig.columns()[q].items()[row as int],
                        None => true,
                    },
            decreases columns_len - j,
        {
            let ghost src_pre = self.columns();
            let ghost dst_pre = dst_table.columns();
            proof {
                assert(self.columns()[j as int] == src_orig.columns()[j as int]);
                assert(self.columns()[j as int].wf());
                lemma_col_position_same_ids(dst_table.columns(), dst_orig.columns());
                lemma_col_position(dst_orig.columns(), src_orig.columns()[j as int].id_spec());
            }
            let component_id = self.components[j].component_id_value();
            match dst_table.get_column_mut(&component_id) {
                Some(dst_column) => {
                    let cell = self.components[j].swap_remove_and_forget_unchecked(row);
                    proof {
                        let source_column = src_orig.columns()[j as int];
                        source_column.lemma_items_sizes();
                    }
                    dst_column.init_unchecked(moved_row, &cell);
                },
                None => {
                    if drop_missing {
                        self.components[j].swap_remove_and_drop_unchecked(row);
                    } else {
                        let _ = self.components[j].swap_remove_and_forget_unchecked(row);
                    }
                },
            }
            proof {
                assert forall|l: int| 0 <= l < j + 1 implies {
                    &&& (#[trigger] self.columns()[l]).wf()
                    &&& self.columns()[l].id_spec() == src_orig.columns()[l].id_spec()
                    &&& self.columns()[l].item_size() == src_orig.columns()[l].item_size()
                    &&& self.columns()[l].items() == src_orig.columns()[l].items().update(
                        row as int,
                        src_orig.columns()[l].items().last(),
                    ).drop_last()
                    &&& self.columns()[l].drop_count() == src_orig.columns()[l].drop_count() + (
                    if drop_missing && col_position(dst_orig.columns(), src_orig.columns()[l].id_spec()) is None {
                        1int
                    } else {
                        0int
                    })
                } by {
                    if l < j {
                        assert(self.columns()[l] == src_pre[l]);
                    }
                }
                assert forall|l: int| j + 1 <= l < columns_len
                    implies #[trigger] self.columns()[l] == src_orig.columns()[l] by {
                    assert(self.columns()[l] == src_pre[l]);
                }
                assert forall|l: int| 0 <= l < dst_orig.columns().len() implies {
                    &&& (#[trigger] dst_table.columns()[l]).wf()
                    &&& dst_table.columns()[l].id_spec() == dst_orig.columns()[l].id_spec()
                    &&& dst_table.columns()[l].item_size() == dst_orig.columns()[l].item_size()
                    &&& dst_table.columns()[l].drop_count() == dst_orig.columns()[l].drop_count()
                    &&& dst_table.columns()[l].items().len() == dst_orig.spec_len() + 1
                    &&& forall|i: int|
                        0 <= i < dst_orig.spec_len() ==> #[trigger] dst_table.columns()[l].items()[i]
                            == dst_orig.columns()[l].items()[i]
                    &&& match col_position(src_orig.columns(), dst_table.columns()[l].id_spec()) {
                        Some(q) => 0 <= q < j + 1 ==> dst_table.columns()[l].items().last()
                            == src_orig.columns()[q].items()[row as int],
                        None => true,
                    }
                } by {
                    lemma_col_position(src_orig.columns(), dst_orig.columns()[l].id_spec());
                    match col_position(dst_pre, src_orig.columns()[j as int].id_spec()) {
                        Some(p) => {
                            if l != p {
                                assert(dst_table.columns()[l] == dst_pre[l]);
                            } else {
                                assert(dst_table.columns()[l].items() == dst_pre[l].items().update(
                                    moved_row as int,
                                    src_orig.columns()[j as int].items()[row as int],
                                ));
                            }
                        },
                        None => {
                            assert(dst_table.columns()[l] == dst_pre[l]);
                        },
                    }
                }
            }
            j += 1;
        }

        proof {
            assert forall|l: int| 0 <= l < dst_orig.columns().len() implies match col_position(
                src_orig.columns(),
                (#[trigger] dst_table.columns()[l]).id_spec(),
            ) {
                Some(q) => dst_table.columns()[l].items().last()
                    == src_orig.columns()[q].items()[row as int],
                None => true,
            } by {
                lemma_col_position(src_orig.columns(), dst_table.columns()[l].id_spec());
            }
        }
        TableMoveResult {
            moved_row,
            swapped_entity: if is_last {
                None
            } else {
                Some(self.entities[row])
            },
        }
    }

    /// Destructs every cell of the column for `component_id` (once each)
    /// and removes the column from the table.
    pub fn remove_column(&mut self, component_id: &ComponentId)
        requires
            old(self).wf(),
            old(self).has_column_spec(component_id.id_spec()),
            match col_position(old(self).columns(), component_id.id_spec()) {
                Some(p) => old(self).columns()[p].drop_count() + old(self).spec_len() <= u64::MAX,
                None => false,
            },
        ensures
            final(self).wf(),
            final(self).entities_seq() == old(self).entities_seq(),
            match col_position(old(self).columns(), component_id.id_spec()) {
                Some(p) => final(self).columns() == old(self).columns().remove(p),
                None => false,
            },
            !final(self).has_column_spec(component_id.id_spec()),
    {
        proof {
            lemma_col_position(self.columns(), component_id.id_spec());
        }
        let position = self.find_column(component_id.id()).unwrap();
        let ghost pre = self.columns();
        self.components[position].clear();
        proof {
            assert(self.columns() == pre.update(position as int, self.columns()[position as int]));
        }
        let ghost mid = self.columns();
        let _ = self.components.remove(position);
        proof {
            assert forall|l: int| 0 <= l < self.columns().len()
                implies #[trigger] self.columns()[l] == old(self).columns().remove(
                    col_position(old(self).columns(), component_id.id_spec()).unwrap(),
                )[l] by {
                if l < position {
                    assert(self.columns()[l] == mid[l]);
                } else {
                    assert(self.columns()[l] == mid[l + 1]);
                }
            }
            assert(final(self).columns() =~= old(self).columns().remove(position as int));
            lemma_col_position_remove_only(old(self).columns(), position as int, component_id.id_spec());
        }
    }
}

/// Law: the columns of a sound table are in lockstep with its entity
/// list — every column holds exactly one row per entity, always, so in
/// particular after `add_row` every column's row count equals the entity
/// list's length.
pub proof fn lemma_columns_in_lockstep(table: Table)
    requires
        table.wf(),
    ensures
        forall|j: int|
            0 <= j < table.columns().len() ==> (#[trigger] table.columns()[j]).items().len()
                == table.entities_seq().len(),
{
}

/// What one cross-table row move does to the two tables.
///
/// The source loses row `row` by swap-compaction; the destination gains one
/// row at the end holding the source row's bytes for every component the
/// two tables share. A source column missing from the destination is
/// destructed when `drop_missing` is set and silently abandoned otherwise;
/// a destination column missing from the source gains an uninitialized cell.
pub open spec fn move_row_spec(
    src_pre: Table,
    src_post: Table,
    dst_pre: Table,
    dst_post: Table,
    row: int,
    drop_missing: bool,
    result: TableMoveResult,
) -> bool {
    &&& src_post.wf()
    &&& dst_post.wf()
    &&& result.moved_row == dst_pre.spec_len()
    &&& src_post.entities_seq() == src_pre.entities_seq().update(
        row,
        src_pre.entities_seq().last(),
    ).drop_last()
    &&& dst_post.entities_seq() == dst_pre.entities_seq().push(src_pre.entities_seq()[row])
    &&& result.swapped_entity == (if row + 1 == src_pre.spec_len() {
        None::<Entity>
    } else {
        Some(src_pre.entities_seq().last())
    })
    &&& src_post.columns().len() == src_pre.columns().len()
    &&& forall|j: int|
        0 <= j < src_pre.columns().len() ==> {
            &&& (#[trigger] src_post.columns()[j]).id_spec() == src_pre.columns()[j].id_spec()
            &&& src_post.columns()[j].item_size() == src_pre.columns()[j].item_size()
            &&& src_post.columns()[j].items() == src_pre.columns()[j].items().update(
                row,
                src_pre.columns()[j].items().last(),
            ).drop_last()
            &&& src_post.columns()[j].drop_count() == src_pre.columns()[j].drop_count() + (
            if drop_missing && col_position(dst_pre.columns(), src_pre.columns()[j].id_spec()) is None {
                1int
            } else {
                0int
            })
        }
    &&& dst_post.columns().len() == dst_pre.columns().len()
    &&& forall|l: int|
        0 <= l < dst_pre.columns().len() ==> {
            &&& (#[trigger] dst_post.columns()[l]).id_spec() == dst_pre.columns()[l].id_spec()
            &&& dst_post.columns()[l].item_size() == dst_pre.columns()[l].item_size()
            &&& dst_post.columns()[l].drop_count() == dst_pre.columns()[l].drop_count()
            &&& dst_post.columns()[l].items().len() == dst_pre.spec_len() + 1
            &&& forall|i: int|
                0 <= i < dst_pre.spec_len() ==> dst_post.columns()[l].items()[i]
                    == dst_pre.columns()[l].items()[i]
            &&& match col_position(src_pre.columns(), dst_pre.columns()[l].id_spec()) {
                Some(q) => dst_post.columns()[l].items().last() == src_pre.columns()[q].items()[row],
                None => true,
            }
        }
}

/// Two column lists whose ids agree pointwise are searched identically.
pub proof fn lemma_col_position_same_ids(s1: Seq<Column>, s2: Seq<Column>)
    requires
        s1.len() == s2.len(),
        forall|l: int| 0 <= l < s1.len() ==> (#[trigger] s1[l]).id_spec() == s2[l].id_spec(),
    ensures
        forall|id: usize| #[trigger] col_position(s1, id) == col_position(s2, id),
    decreases s1.len(),
{
    if s1.len() > 0 {
        assert(s1[0].id_spec() == s2[0].id_spec());
        assert forall|l: int| 0 <= l < s1.drop_first().len()
            implies (#[trigger] s1.drop_first()[l]).id_spec() == s2.drop_first()[l].id_spec() by {
            assert(s1[l + 1].id_spec() == s2[l + 1].id_spec());
        }
        lemma_col_position_same_ids(s1.drop_first(), s2.drop_first());
        assert forall|id: usize| #[trigger] col_position(s1, id) == col_position(s2, id) by {
            assert(col_position(s1.drop_first(), id) == col_position(s2.drop_first(), id));
        }
    }
}

/// Removing the only column of an id makes that id unfindable.
proof fn lemma_col_position_remove_only(columns: Seq<Column>, position: int, id: usize)
    requires
        0 <= position < columns.len(),
        col_position(columns, id) == Some(position),
        forall|j: int, l: int|
            0 <= j < columns.len() && 0 <= l < columns.len() && j != l ==> (
            #[trigger] columns[j]).id_spec() != (#[trigger] columns[l]).id_spec(),
    ensures
        col_position(columns.remove(position), id) is None,
{
    lemma_col_position(columns, id);
    lemma_col_position_none(columns.remove(position), id);
}

/// A list none of whose columns carries `id` reports no position for it.
proof fn lemma_col_position_none(columns: Seq<Column>, id: usize)
    requires
        forall|j: int| 0 <= j < columns.len() ==> (#[trigger] columns[j]).id_spec() != id,
    ensures
        col_position(columns, id) is None,
    decreases columns.len(),
{
    if columns.len() > 0 {
        assert(columns[0].id_spec() != id);
        assert forall|j: int| 0 <= j < columns.drop_first().len()
            implies (#[trigger] columns.drop_first()[j]).id_spec() != id by {
            assert(columns[j + 1].id_spec() != id);
        }
        lemma_col_position_none(columns.drop_first(), id);
    }
}


/// A strictly ascending sequence: sortedness and uniqueness in one.
pub open spec fn strictly_sorted(ids: Seq<usize>) -> bool {
    forall|j: int, l: int| 0 <= j < l < ids.len() ==> ids[j] < ids[l]
}

/// Two strictly ascending sequences drawing on the same set of values are
/// the same sequence: a set of component ids has one canonical signature.
pub proof fn lemma_strictly_sorted_unique(s1: Seq<usize>, s2: Seq<usize>)
    requires
        strictly_sorted(s1),
        strictly_sorted(s2),
        s1.to_set() == s2.to_set(),
    ensures
        s1 == s2,
    decreases s1.len(),
{
    if s1.len() == 0 {
        if s2.len() > 0 {
            assert(s2.to_set().contains(s2[0]));
            assert(s1.contains(s2[0]));
        }
        assert(s1 =~= s2);
    } else if s2.len() == 0 {
        assert(s1.to_set().contains(s1[0]));
        assert(s2.contains(s1[0]));
    } else {
        assert(s1.to_set().contains(s1[0]));
        assert(s2.contains(s1[0]));
        let j1 = choose|j: int| 0 <= j < s2.len() && s2[j] == s1[0];
        assert(s2[0] <= s2[j1]);
        assert(s2.to_set().contains(s2[0]));
        assert(s1.contains(s2[0]));
        let j2 = choose|j: int| 0 <= j < s1.len() && s1[j] == s2[0];
        assert(s1[0] <= s1[j2]);
        assert(s1[0] == s2[0]);
        assert(s1.drop_first().to_set() =~= s1.to_set().remove(s1[0])) by {
            assert forall|x: usize| s1.drop_first().to_set().contains(x)
                implies s1.to_set().remove(s1[0]).contains(x) by {
                let j = choose|j: int| 0 <= j < s1.drop_first().len() && s1.drop_first()[j] == x;
                assert(s1[j + 1] == x);
                assert(s1[0] < s1[j + 1]);
            }
            assert forall|x: usize| s1.to_set().remove(s1[0]).contains(x)
                implies s1.drop_first().to_set().contains(x) by {
                let j = choose|j: int| 0 <= j < s1.len() && s1[j] == x;
                assert(j != 0);
                assert(s1.drop_first()[j - 1] == x);
                assert(s1.drop_first().contains(x));
            }
        }
        assert(s2.drop_first().to_set() =~= s2.to_set().remove(s2[0])) by {
            assert forall|x: usize| s2.drop_first().to_set().contains(x)
                implies s2.to_set().remove(s2[0]).contains(x) by {
                let j = choose|j: int| 0 <= j < s2.drop_first().len() && s2.drop_first()[j] == x;
                assert(s2[j + 1] == x);
                assert(s2[0] < s2[j + 1]);
            }
            assert forall|x: usize| s2.to_set().remove(s2[0]).contains(x)
                implies s2.drop_first().to_set().contains(x) by {
                let j = choose|j: int| 0 <= j < s2.len() && s2[j] == x;
                assert(j != 0);
                assert(s2.drop_first()[j - 1] == x);
                assert(s2.drop_first().contains(x));
            }
        }
        lemma_strictly_sorted_unique(s1.drop_first(), s2.drop_first());
        assert forall|i: int| 0 <= i < s1.len() implies s1[i] == s2[i] by {
            if i > 0 {
                assert(s1.drop_first()[i - 1] == s2.drop_first()[i - 1]);
            }
        }
        assert(s1 =~= s2);
    }
}

/// The canonical archetype signature of a list of component ids: the
/// strictly ascending sequence of exactly the ids in the list.
pub fn canonical_signature(ids: &Vec<usize>) -> (signature: Vec<usize>)
    ensures
        strictly_sorted(signature@),
        signature@.to_set() == ids@.to_set(),
{
    let mut signature: Vec<usize> = Vec::new();
    let mut j: usize = 0;
    while j < ids.len()
        invariant
            j <= ids@.len(),
            strictly_sorted(signature@),
            signature@.to_set() == ids@.take(j as int).to_set(),
        decreases ids@.len() - j,
    {
        let ghost pre = signature@;
        insert_sorted(&mut signature, ids[j]);
        proof {
            let taken = ids@.take(j + 1);
            let kept = ids@.take(j as int);
            assert(taken.to_set() =~= kept.to_set().insert(ids@[j as int])) by {
                assert forall|x: usize| taken.to_set().contains(x)
                    implies kept.to_set().insert(ids@[j as int]).contains(x) by {
                    let l = choose|l: int| 0 <= l < taken.len() && taken[l] == x;
                    if l < j {
                        assert(kept[l] == x);
                        assert(kept.contains(x));
                    }
                }
                assert forall|x: usize| kept.to_set().insert(ids@[j as int]).contains(x)
                    implies taken.to_set().contains(x) by {
                    if x == ids@[j as int] {
                        assert(taken[j as int] == x);
                        assert(taken.contains(x));
                    } else {
                        let l = choose|l: int| 0 <= l < kept.len() && kept[l] == x;
                        assert(taken[l] == x);
                        assert(taken.contains(x));
                    }
                }
            }
        }
        j += 1;
    }
    proof {
        assert(ids@.take(ids@.len() as int) =~= ids@);
    }
    signature
}

/// Inserts `id` into a strictly ascending list, keeping it strictly
/// ascending; a value already present is left alone.
fn insert_sorted(signature: &mut Vec<usize>, id: usize)
    requires
        strictly_sorted(old(signature)@),
    ensures
        strictly_sorted(final(signature)@),
        final(signature)@.to_set() == old(signature)@.to_set().insert(id),
{
    let mut position: usize = 0;
    while position < signature.len() && signature[position] < id
        invariant
            position <= signature@.len(),
            signature@ == old(signature)@,
            forall|l: int| 0 <= l < position ==> (#[trigger] signature@[l]) < id,
        decreases signature@.len() - position,
    {
        position += 1;
    }
    if position < signature.len() && signature[position] == id {
        proof {
            assert(signature@.to_set() =~= old(signature)@.to_set().insert(id)) by {
                assert(signature@[position as int] == id);
                assert(signature@.contains(id));
            }
        }
        return;
    }
    let ghost pre = signature@;
    signature.insert(position, id);
    proof {
        assert(forall|l: int| 0 <= l < position ==> #[trigger] signature@[l] == pre[l]);
        assert(signature@[position as int] == id);
        assert(forall|l: int|
            position < l < signature@.len() ==> #[trigger] signature@[l] == pre[l - 1]);
        assert forall|a: int, b: int| 0 <= a < b < signature@.len()
            implies signature@[a] < signature@[b] by {
            if b == position {
                assert(signature@[a] == pre[a]);
            } else if a == position {
                assert(signature@[b] == pre[b - 1]);
                assert(position < signature@.len());
                if position < pre.len() {
                    assert(!(pre[position as int] < id) && pre[position as int] != id);
                }
                assert(pre[position as int] <= pre[b - 1] || position as int == b - 1);
            } else if a < position && b > position {
                assert(signature@[a] == pre[a]);
                assert(signature@[b] == pre[b - 1]);
                if position < pre.len() {
                    assert(!(pre[position as int] < id) && pre[position as int] != id);
                }
            }
        }
        assert(signature@.to_set() =~= pre.to_set().insert(id)) by {
            assert forall|x: usize| signature@.to_set().contains(x)
                implies pre.to_set().insert(id).contains(x) by {
                let l = choose|l: int| 0 <= l < signature@.len() && signature@[l] == x;
                if l < position {
                    assert(pre[l] == x);
                    assert(pre.contains(x));
                } else if l > position {
                    assert(pre[l - 1] == x);
                    assert(pre.contains(x));
                }
            }
            assert forall|x: usize| pre.to_set().insert(id).contains(x)
                implies signature@.to_set().contains(x) by {
                if x == id {
                    assert(signature@[position as int] == x);
                    assert(signature@.contains(x));
                } else {
                    let l = choose|l: int| 0 <= l < pre.len() && pre[l] == x;
                    if l < position {
                        assert(signature@[l] == x);
                    } else {
                        assert(signature@[l + 1] == x);
                    }
                    assert(signature@.contains(x));
                }
            }
        }
    }
}

/// The dense ids of a descriptor list, in the order given.
pub open spec fn ids_of(descriptors: Seq<ComponentDescriptor>) -> Seq<usize> {
    Seq::new(descriptors.len(), |i: int| descriptors[i].id.id_spec())
}

/// First registered table whose archetype is exactly `idset`.
pub open spec fn sig_lookup(entries: Seq<(Vec<usize>, usize)>, idset: Set<usize>) -> Option<usize>
    decreases entries.len(),
{
    if entries.len() == 0 {
        None
    } else if entries.first().0@.to_set() == idset {
        Some(entries.first().1)
    } else {
        sig_lookup(entries.drop_first(), idset)
    }
}

/// The ordered collection of all tables, indexed by archetype signature.
pub struct Tables {
    tables_vec: Vec<Table>,
    ids: Vec<(Vec<usize>, usize)>,
}

impl Tables {
    /// All tables, in creation order.
    pub closed spec fn tables_seq(&self) -> Seq<Table> {
        self.tables_vec@
    }

    /// The signature index: canonical signature to table position.
    pub closed spec fn entries(&self) -> Seq<(Vec<usize>, usize)> {
        self.ids@
    }

    /// Registry soundness: every table is sound, every index entry names an
    /// existing table under a canonical signature, and no archetype is
    /// indexed twice.
    pub open spec fn wf(&self) -> bool {
        &&& forall|t: int| 0 <= t < self.tables_seq().len() ==> (#[trigger] self.tables_seq()[t]).wf()
        &&& forall|j: int|
            0 <= j < self.entries().len() ==> (#[trigger] self.entries()[j]).1 < self.tables_seq().len()
                && strictly_sorted(self.entries()[j].0@)
        &&& forall|j: int, l: int|
            0 <= j < self.entries().len() && 0 <= l < self.entries().len() && j != l ==> (
            #[trigger] self.entries()[j]).0@.to_set() != (#[trigger] self.entries()[l]).0@.to_set()
    }

    pub fn new() -> (tables: Tables)
        ensures
            tables.wf(),
            tables.tables_seq() == Seq::<Table>::empty(),
            tables.entries() == Seq::<(Vec<usize>, usize)>::empty(),
    {
        Tables { tables_vec: Vec::new(), ids: Vec::new() }
    }

    /// The table at one position of the collection.
    pub fn get_table(&self, table_id: usize) -> (table: Option<&Table>)
        ensures
            match table {
                Some(t) => table_id < self.tables_seq().len() && *t == self.tables_seq()[table_id as int],
                None => table_id >= self.tables_seq().len(),
            },
    {
        self.tables_vec.get(table_id)
    }

    /// Mutable access to the table at one position.
    pub fn get_table_mut(&mut self, table_id: usize) -> (table: Option<&mut Table>)
        ensures
            match table {
                Some(t) => {
                    &&& table_id < old(self).tables_seq().len()
                    &&& *t == old(self).tables_seq()[table_id as int]
                    &&& final(self).tables_seq() == old(self).tables_seq().update(
                        table_id as int,
                        *final(t),
                    )
                    &&& final(self).entries() == old(self).entries()
                },
                None => table_id >= old(self).tables_seq().len() && *final(self) == *old(self),
            },
    {
        if table_id < self.tables_vec.len() {
            Some(&mut self.tables_vec[table_id])
        } else {
            None
        }
    }

    /// Number of tables.
    pub fn len(&self) -> (count: usize)
        ensures
            count == self.tables_seq().len(),
    {
        self.tables_vec.len()
    }

    /// What resolving an archetype does: a known id set answers its
    /// recorded table unchanged; a fresh set is assigned a new, empty table
    /// holding one column per requested component, indexed under the set.
    pub open spec fn resolve_spec(
        pre: Tables,
        post: Tables,
        descriptors: Seq<ComponentDescriptor>,
        table_id: usize,
    ) -> bool {
        &&& sig_lookup(post.entries(), ids_of(descriptors).to_set()) == Some(table_id)
        &&& match sig_lookup(pre.entries(), ids_of(descriptors).to_set()) {
            Some(existing) => {
                &&& table_id == existing
                &&& post.tables_seq() == pre.tables_seq()
                &&& post.entries() == pre.entries()
            },
            None => {
                &&& table_id == pre.tables_seq().len()
                &&& post.tables_seq().len() == pre.tables_seq().len() + 1
                &&& forall|t: int|
                    0 <= t < pre.tables_seq().len() ==> #[trigger] post.tables_seq()[t]
                        == pre.tables_seq()[t]
                &&& post.tables_seq().last().spec_len() == 0
                &&& forall|j: int|
                    0 <= j < descriptors.len() ==> #[trigger] post.tables_seq().last().has_column_spec(
                        descriptors[j].id.id_spec(),
                    )
            },
        }
    }

    /// Resolves an archetype — a set of component descriptors — to the
    /// table that stores it, creating and indexing an empty table with the
    /// requested columns on first sight. Two requests for the same set of
    /// ids, in any order and with any duplications, answer the same table.
    pub fn get_or_create_table(&mut self, descriptors: &Vec<ComponentDescriptor>) -> (table_id: usize)
        requires
            old(self).wf(),
            old(self).tables_seq().len() < usize::MAX,
            forall|j: int|
                0 <= j < descriptors@.len() ==> (#[trigger] descriptors@[j]).layout.valid(),
        ensures
            final(self).wf(),
            Tables::resolve_spec(*old(self), *final(self), descriptors@, table_id),
            table_id < final(self).tables_seq().len(),
    {
        let mut requested: Vec<usize> = Vec::new();
        let mut j: usize = 0;
        while j < descriptors.len()
            invariant
                *self == *old(self),
                j <= descriptors@.len(),
                requested@ == ids_of(descriptors@).take(j as int),
            decreases descriptors@.len() - j,
        {
            requested.push(descriptors[j].id.id());
            proof {
                assert(requested@ =~= ids_of(descriptors@).take(j + 1));
            }
            j += 1;
        }
        proof {
            assert(requested@ =~= ids_of(descriptors@));
        }
        let signature = canonical_signature(&requested);

        let mut entry: usize = 0;
        proof {
            assert(self.ids@.skip(0) =~= self.ids@);
        }
        while entry < self.ids.len()
            invariant
                *self == *old(self),
                old(self).wf(),
                strictly_sorted(signature@),
                entry <= self.ids@.len(),
                signature@.to_set() == ids_of(descriptors@).to_set(),
                sig_lookup(self.ids@, ids_of(descriptors@).to_set()) == sig_lookup(
                    self.ids@.skip(entry as int),
                    ids_of(descriptors@).to_set(),
                ),
            decreases self.ids@.len() - entry,
        {
            let ghost rest = self.ids@.skip(entry as int);
            let hit = {
                let candidate = &self.ids[entry].0;
                candidate.len() == signature.len() && vecs_equal(candidate, &signature)
            };
            proof {
                assert(rest.first() == self.ids@[entry as int]);
                assert(old(self).entries()[entry as int] == self.ids@[entry as int]);
                if self.ids@[entry as int].0@ == signature@ {
                    assert(self.ids@[entry as int].0@.to_set() == ids_of(descriptors@).to_set());
                } else {
                    if self.ids@[entry as int].0@.to_set() == ids_of(descriptors@).to_set() {
                        lemma_strictly_sorted_unique(self.ids@[entry as int].0@, signature@);
                    }
                }
                reveal_with_fuel(sig_lookup, 2);
            }
            if hit {
                return self.ids[entry].1;
            }
            entry += 1;
            proof {
                assert(rest.drop_first() =~= self.ids@.skip(entry as int));
            }
        }
        proof {
            assert(self.ids@.skip(entry as int) =~= Seq::<(Vec<usize>, usize)>::empty());
            reveal_with_fuel(sig_lookup, 1);
        }

        let mut table = Table::new();
        let mut d: usize = 0;
        while d < descriptors.len()
            invariant
                *self == *old(self),
                old(self).wf(),
                old(self).tables_seq().len() < usize::MAX,
                strictly_sorted(signature@),
                signature@.to_set() == ids_of(descriptors@).to_set(),
                sig_lookup(self.ids@, ids_of(descriptors@).to_set()) is None,
                d <= descriptors@.len(),
                table.wf(),
                table.spec_len() == 0,
                table.entities_seq() == Seq::<Entity>::empty(),
                forall|l: int|
                    0 <= l < descriptors@.len() ==> (#[trigger] descriptors@[l]).layout.valid(),
                forall|l: int|
                    0 <= l < d ==> #[trigger] table.has_column_spec(descriptors@[l].id.id_spec()),
            decreases descriptors@.len() - d,
        {
            let ghost table_pre = table;
            let ghost pre_columns = table.columns();
            table.add_column(&descriptors[d]);
            proof {
                assert forall|l: int| 0 <= l < d + 1
                    implies #[trigger] table.has_column_spec(descriptors@[l].id.id_spec()) by {
                    if l < d {
                        assert(table_pre.has_column_spec(descriptors@[l].id.id_spec()));
                        lemma_col_position(pre_columns, descriptors@[l].id.id_spec());
                        if table.columns() == pre_columns {
                        } else {
                            lemma_col_position_extend(pre_columns, table.columns(), descriptors@[l].id.id_spec());
                        }
                    }
                }
            }
            d += 1;
        }

        let table_id = self.tables_vec.len();
        self.tables_vec.push(table);
        let ghost pre_entries = self.ids@;
        self.ids.push((signature, table_id));
        proof {
            lemma_sig_lookup_push(pre_entries, (signature, table_id), ids_of(descriptors@).to_set());
            lemma_sig_lookup_found(pre_entries, ids_of(descriptors@).to_set());
            assert forall|l: int| 0 <= l < self.entries().len()
                implies (#[trigger] self.entries()[l]).1 < self.tables_seq().len()
                    && strictly_sorted(self.entries()[l].0@) by {
                if l < pre_entries.len() {
                    assert(self.ids@[l] == pre_entries[l]);
                    assert(old(self).entries()[l] == pre_entries[l]);
                } else {
                    assert(self.ids@[l].1 == table_id);
                }
            }
            assert forall|a: int, b: int|
                0 <= a < self.ids@.len() && 0 <= b < self.ids@.len() && a != b
                implies (#[trigger] self.ids@[a]).0@.to_set() != (#[trigger] self.ids@[b]).0@.to_set() by {
                if a == self.ids@.len() - 1 && b != self.ids@.len() - 1 {
                    assert(self.ids@[b] == pre_entries[b]);
                    assert(self.ids@[a].0@ == signature@);
                    assert(pre_entries[b].0@.to_set() != ids_of(descriptors@).to_set());
                } else if b == self.ids@.len() - 1 && a != self.ids@.len() - 1 {
                    assert(self.ids@[a] == pre_entries[a]);
                    assert(self.ids@[b].0@ == signature@);
                    assert(pre_entries[a].0@.to_set() != ids_of(descriptors@).to_set());
                } else {
                    assert(self.ids@[a] == pre_entries[a]);
                    assert(self.ids@[b] == pre_entries[b]);
                    assert(old(self).entries()[a] == pre_entries[a]);
                    assert(old(self).entries()[b] == pre_entries[b]);
                }
            }
        }
        table_id
    }
}

/// Element-for-element equality of two id lists of equal length.
fn vecs_equal(left: &Vec<usize>, right: &Vec<usize>) -> (equal: bool)
    requires
        left@.len() == right@.len(),
    ensures
        equal == (left@ == right@),
{
    let mut j: usize = 0;
    while j < left.len()
        invariant
            j <= left@.len(),
            left@.len() == right@.len(),
            forall|l: int| 0 <= l < j ==> left@[l] == right@[l],
        decreases left@.len() - j,
    {
        if left[j] != right[j] {
            return false;
        }
        j += 1;
    }
    proof {
        assert(left@ =~= right@);
    }
    true
}

/// A fresh archetype becomes findable once pushed onto the index.
proof fn lemma_sig_lookup_push(entries: Seq<(Vec<usize>, usize)>, entry: (Vec<usize>, usize), idset: Set<usize>)
    requires
        sig_lookup(entries, idset) is None,
        entry.0@.to_set() == idset,
    ensures
        sig_lookup(entries.push(entry), idset) == Some(entry.1),
    decreases entries.len(),
{
    if entries.len() == 0 {
        assert(entries.push(entry).first() == entry);
        reveal_with_fuel(sig_lookup, 2);
    } else {
        assert(entries.push(entry).first() == entries.first());
        assert(entries.push(entry).drop_first() =~= entries.drop_first().push(entry));
        lemma_sig_lookup_push(entries.drop_first(), entry, idset);
    }
}

/// A failed signature lookup means no entry indexes the archetype.
proof fn lemma_sig_lookup_found(entries: Seq<(Vec<usize>, usize)>, idset: Set<usize>)
    requires
        sig_lookup(entries, idset) is None,
    ensures
        forall|l: int| 0 <= l < entries.len() ==> (#[trigger] entries[l]).0@.to_set() != idset,
    decreases entries.len(),
{
    if entries.len() > 0 {
        lemma_sig_lookup_found(entries.drop_first(), idset);
        assert forall|l: int| 0 <= l < entries.len()
            implies (#[trigger] entries[l]).0@.to_set() != idset by {
            if l > 0 {
                assert(entries.drop_first()[l - 1] == entries[l]);
            }
        }
    }
}

/// A column findable in a list stays findable when the list grows at the end.
proof fn lemma_col_position_extend(pre: Seq<Column>, post: Seq<Column>, id: usize)
    requires
        col_position(pre, id) is Some,
        post.len() == pre.len() + 1,
        forall|l: int| 0 <= l < pre.len() ==> #[trigger] post[l] == pre[l],
    ensures
        col_position(post, id) is Some,
    decreases pre.len(),
{
    lemma_col_position(pre, id);
    let p = col_position(pre, id).unwrap();
    lemma_col_position_some_of_member(post, id, p);
}

/// A list holding a column of `id` reports some position for it.
pub proof fn lemma_col_position_some_of_member(columns: Seq<Column>, id: usize, witness: int)
    requires
        0 <= witness < columns.len(),
        columns[witness].id_spec() == id,
    ensures
        col_position(columns, id) is Some,
    decreases columns.len(),
{
    if columns.first().id_spec() != id {
        assert(columns.drop_first()[witness - 1] == columns[witness]);
        lemma_col_position_some_of_member(columns.drop_first(), id, witness - 1);
    }
}

/// Law: the table registry's signatures are stable. Two resolutions of the
/// same set of component ids — in any insertion order, any duplication —
/// answer the same table id, whether or not a table had to be created.
pub proof fn lemma_signature_stable(
    t0: Tables,
    t1: Tables,
    t2: Tables,
    descriptors1: Seq<ComponentDescriptor>,
    descriptors2: Seq<ComponentDescriptor>,
    table_id1: usize,
    table_id2: usize,
)
    requires
        ids_of(descriptors1).to_set() == ids_of(descriptors2).to_set(),
        Tables::resolve_spec(t0, t1, descriptors1, table_id1),
        Tables::resolve_spec(t1, t2, descriptors2, table_id2),
    ensures
        table_id2 == table_id1,
{
}

/// Pushing a column for a fresh id makes it findable at the pushed position.
proof fn lemma_col_position_push(columns: Seq<Column>, column: Column, id: usize)
    requires
        col_position(columns, id) is None,
        column.id_spec() == id,
    ensures
        col_position(columns.push(column), id) == Some(columns.len() as int),
    decreases columns.len(),
{
    if columns.len() == 0 {
        assert(columns.push(column).first() == column);
        reveal_with_fuel(col_position, 2);
    } else {
        assert(columns.push(column).first() == columns.first());
        assert(columns.push(column).drop_first() =~= columns.drop_first().push(column));
        lemma_col_position_push(columns.drop_first(), column, id);
    }
}

} // verus!
