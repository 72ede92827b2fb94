//! The single-row table hosting singleton resources.
//!
//! Resources are treated as components of one implicit sentinel entity, so
//! the same column machinery stores both kinds of data. The table always
//! has exactly one row; per resource the table tracks whether that row's
//! cell currently holds a live value, since a raw cell cannot say so
//! itself. Removal destructs the value and compaction is a no-op.

use vstd::prelude::*;

use crate::component::{ComponentDescriptor, ComponentId};
use crate::entity::Entity;
use crate::storage::table::{col_position, lemma_col_position, Table};

verus! {

/// The single-row table of all singleton resources.
pub struct ResourceTable {
    entity_id: usize,
    table: Table,
    initialized: Vec<usize>,
}

impl ResourceTable {
    /// The sentinel entity every resource belongs to.
    pub fn global_entity() -> (entity: Entity)
        ensures
            entity.id == 0,
            entity.table_id == 0,
    {
        Entity { id: 0, table_id: 0 }
    }

    /// The backing single-row table.
    pub closed spec fn table_spec(&self) -> Table {
        self.table
    }

    /// The ids of the resources whose cell currently holds a live value.
    pub closed spec fn initialized_ids(&self) -> Seq<usize> {
        self.initialized@
    }

    /// Whether the resource `id` currently holds a live value.
    pub open spec fn is_initialized(&self, id: usize) -> bool {
        self.initialized_ids().contains(id)
    }

    /// The raw bytes the resource `id` currently holds.
    pub open spec fn resource_bytes(&self, id: usize) -> Seq<u8> {
        match col_position(self.table_spec().columns(), id) {
            Some(p) => self.table_spec().columns()[p].items()[0],
            None => Seq::empty(),
        }
    }

    /// Whether a column for resource `id` exists at all.
    pub open spec fn has_column_spec(&self, id: usize) -> bool {
        self.table_spec().has_column_spec(id)
    }

    /// Soundness: one row, sound table, and the initialized list names
    /// existing columns, each at most once.
    pub closed spec fn wf(&self) -> bool {
        &&& self.table.wf()
        &&& self.table.spec_len() == 1
        &&& self.entity_id == 0
        &&& forall|j: int|
            0 <= j < self.initialized@.len() ==> self.table.has_column_spec(
                #[trigger] self.initialized@[j],
            )
        &&& forall|j: int, l: int|
            0 <= j < self.initialized@.len() && 0 <= l < self.initialized@.len() && j != l
                ==> self.initialized@[j] != self.initialized@[l]
    }

    pub fn new() -> (resource_table: ResourceTable)
        ensures
            resource_table.wf(),
            resource_table.table_spec().columns() == Seq::<crate::storage::table::Column>::empty(),
            resource_table.initialized_ids() == Seq::<usize>::empty(),
    {
        let mut table = Table::new();
        let row = table.add_row(Self::global_entity());
        ResourceTable { entity_id: row, table, initialized: Vec::new() }
    }

    /// Registers a column for the described resource type, uninitialized;
    /// a second registration of the same id is a no-op.
    pub fn add_column(&mut self, descriptor: &ComponentDescriptor)
        requires
            old(self).wf(),
            descriptor.layout.valid(),
        ensures
            final(self).wf(),
            final(self).initialized_ids() == old(self).initialized_ids(),
            final(self).has_column_spec(descriptor.id.id_spec()),
            forall|id: usize|
                old(self).has_column_spec(id) ==> final(self).has_column_spec(id)
                    && final(self).resource_bytes(id) == old(self).resource_bytes(id),
            forall|id: usize|
                #[trigger] final(self).has_column_spec(id) ==> id == descriptor.id.id_spec()
                    || old(self).has_column_spec(id),
    {
        let ghost pre = self.table;
        self.table.add_column(descriptor);
        proof {
            lemma_col_position(pre.columns(), descriptor.id.id_spec());
            if !pre.has_column_spec(descriptor.id.id_spec()) {
                assert forall|id: usize|
                    pre.has_column_spec(id) implies self.table.has_column_spec(id)
                        && self.resource_bytes(id) == old(self).resource_bytes(id) by {
                    lemma_col_position(pre.columns(), id);
                    lemma_col_position_stable_under_extension(pre.columns(), self.table.columns(), id);
                    let pos = col_position(pre.columns(), id).unwrap();
                    assert(self.table.columns()[pos] == pre.columns()[pos]);
                }
                assert forall|id: usize| #[trigger] self.table.has_column_spec(id)
                    implies id == descriptor.id.id_spec() || pre.has_column_spec(id) by {
                    lemma_col_position(self.table.columns(), id);
                    let p = col_position(self.table.columns(), id).unwrap();
                    if p < pre.columns().len() {
                        crate::storage::table::lemma_col_position_some_of_member(pre.columns(), id, p);
                    }
                }
                assert forall|j: int| 0 <= j < self.initialized@.len()
                    implies self.table.has_column_spec(#[trigger] self.initialized@[j]) by {
                    lemma_col_position_stable_under_extension(
                        pre.columns(),
                        self.table.columns(),
                        self.initialized@[j],
                    );
                }
            }
        }
    }

    /// The bytes of resource `resource_id`, `None` while it was never
    /// initialized (or its column never registered).
    pub fn get_resource(&self, resource_id: &ComponentId) -> (bytes: Option<Vec<u8>>)
        requires
            self.wf(),
        ensures
            match bytes {
                Some(b) => self.has_column_spec(resource_id.id_spec()) && self.is_initialized(
                    resource_id.id_spec(),
                ) && b@ == self.resource_bytes(resource_id.id_spec()),
                None => !(self.has_column_spec(resource_id.id_spec()) && self.is_initialized(
                    resource_id.id_spec(),
                )),
            },
    {
        if !self.contains_initialized(resource_id.id()) {
            return None;
        }
        proof {
            lemma_col_position(self.table.columns(), resource_id.id_spec());
        }
        match self.table.get_column(resource_id) {
            Some(column) => {
                proof {
                    column.lemma_items_sizes();
                }
                Some(column.get_unchecked(self.entity_id))
            },
            None => None,
        }
    }

    /// As `get_resource`; the caller writes a changed value back through
    /// `write_resource_unchecked`.
    pub fn get_resource_mut(&mut self, resource_id: &ComponentId) -> (bytes: Option<Vec<u8>>)
        requires
            old(self).wf(),
        ensures
            *final(self) == *old(self),
            match bytes {
                Some(b) => old(self).has_column_spec(resource_id.id_spec()) && old(self).is_initialized(
                    resource_id.id_spec(),
                ) && b@ == old(self).resource_bytes(resource_id.id_spec()),
                None => !(old(self).has_column_spec(resource_id.id_spec()) && old(self).is_initialized(
                    resource_id.id_spec(),
                )),
            },
    {
        self.get_resource(resource_id)
    }

    /// First write of a never-initialized resource: copies the bytes in
    /// without any destructor running.
    pub fn init_resource_unchecked(&mut self, resource_id: &ComponentId, data: &Vec<u8>)
        requires
            old(self).wf(),
            old(self).has_column_spec(resource_id.id_spec()),
            !old(self).is_initialized(resource_id.id_spec()),
            data@.len() == resource_size(*old(self), resource_id.id_spec()),
        ensures
            final(self).wf(),
            final(self).is_initialized(resource_id.id_spec()),
            final(self).resource_bytes(resource_id.id_spec()) == data@,
            final(self).initialized_ids() == old(self).initialized_ids().push(resource_id.id_spec()),
            forall|id: usize|
                id != resource_id.id_spec() ==> #[trigger] final(self).resource_bytes(id) == old(
                    self,
                ).resource_bytes(id) && (final(self).is_initialized(id) == old(self).is_initialized(id)),
            forall|id: usize|
                #[trigger] final(self).has_column_spec(id) == old(self).has_column_spec(id),
    {
        proof {
            lemma_col_position(self.table.columns(), resource_id.id_spec());
        }
        let entity_id = self.entity_id;
        let ghost pre = *self;
        match self.table.get_column_mut(resource_id) {
            Some(column) => {
                proof {
                    column.lemma_items_sizes();
                }
                column.init_unchecked(entity_id, data);
            },
            None => {},
        }
        self.initialized.push(resource_id.id());
        proof {
            assert(self.initialized@[self.initialized@.len() - 1] == resource_id.id_spec());
            assert(self.initialized@.contains(resource_id.id_spec()));
            let p = col_position(pre.table.columns(), resource_id.id_spec()).unwrap();
            crate::storage::table::lemma_col_position_same_ids(self.table.columns(), pre.table.columns());
            assert forall|id: usize|
                id != resource_id.id_spec() implies #[trigger] self.resource_bytes(id) == old(
                    self,
                ).resource_bytes(id) && (self.is_initialized(id) == old(self).is_initialized(id)) by {
                lemma_col_position(pre.table.columns(), id);
                match col_position(pre.table.columns(), id) {
                    Some(q) => {
                        assert(q != p);
                        assert(self.table.columns()[q] == pre.table.columns()[q]);
                    },
                    None => {},
                }
                if self.initialized@.contains(id) {
                    let w = choose|w: int|
                        0 <= w < self.initialized@.len() && self.initialized@[w] == id;
                    assert(w < pre.initialized@.len());
                    assert(pre.initialized@[w] == id);
                    assert(pre.initialized@.contains(id));
                }
                if pre.initialized@.contains(id) {
                    let w = choose|w: int|
                        0 <= w < pre.initialized@.len() && pre.initialized@[w] == id;
                    assert(self.initialized@[w] == id);
                    assert(self.initialized@.contains(id));
                }
            }
            assert forall|j: int, l: int|
                0 <= j < self.initialized@.len() && 0 <= l < self.initialized@.len() && j != l
                implies self.initialized@[j] != self.initialized@[l] by {
                if j == self.initialized@.len() - 1 || l == self.initialized@.len() - 1 {
                    assert(!pre.initialized@.contains(resource_id.id_spec()));
                }
            }
        }
    }

    /// Overwrites a live resource's bytes in place: the write a caller of
    /// `get_resource_mut` performs through the handed-out access. No
    /// destructor runs; the erased value is mutated, not replaced.
    pub fn write_resource_unchecked(&mut self, resource_id: &ComponentId, data: &Vec<u8>)
        requires
            old(self).wf(),
            old(self).has_column_spec(resource_id.id_spec()),
            old(self).is_initialized(resource_id.id_spec()),
            data@.len() == resource_size(*old(self), resource_id.id_spec()),
        ensures
            final(self).wf(),
            final(self).initialized_ids() == old(self).initialized_ids(),
            final(self).resource_bytes(resource_id.id_spec()) == data@,
            forall|id: usize|
                #[trigger] resource_size(*final(self), id) == resource_size(*old(self), id),
            forall|id: usize|
                id != resource_id.id_spec() ==> #[trigger] final(self).resource_bytes(id) == old(
                    self,
                ).resource_bytes(id),
            forall|id: usize|
                #[trigger] final(self).has_column_spec(id) == old(self).has_column_spec(id),
    {
        proof {
            lemma_col_position(self.table.columns(), resource_id.id_spec());
        }
        let entity_id = self.entity_id;
        let ghost pre = *self;
        match self.table.get_column_mut(resource_id) {
            Some(column) => {
                proof {
                    column.lemma_items_sizes();
                }
                column.init_unchecked(entity_id, data);
            },
            None => {},
        }
        proof {
            let p = col_position(pre.table.columns(), resource_id.id_spec()).unwrap();
            crate::storage::table::lemma_col_position_same_ids(self.table.columns(), pre.table.columns());
            assert forall|id: usize|
                id != resource_id.id_spec() implies #[trigger] self.resource_bytes(id) == old(
                    self,
                ).resource_bytes(id) by {
                lemma_col_position(pre.table.columns(), id);
                match col_position(pre.table.columns(), id) {
                    Some(q) => {
                        assert(q != p);
                        assert(self.table.columns()[q] == pre.table.columns()[q]);
                    },
                    None => {},
                }
            }
            assert forall|id: usize|
                #[trigger] resource_size(*self, id) == resource_size(*old(self), id) by {
                lemma_col_position(pre.table.columns(), id);
                match col_position(pre.table.columns(), id) {
                    Some(q) => {
                        if q != p {
                            assert(self.table.columns()[q] == pre.table.columns()[q]);
                        }
                    },
                    None => {},
                }
            }
        }
    }

    /// Destructs a live resource's value (exactly once) and marks it
    /// uninitialized; the single row itself stays, so compaction is a no-op.
    pub fn remove_and_drop_unchecked(&mut self, resource_id: &ComponentId)
        requires
            old(self).wf(),
            old(self).has_column_spec(resource_id.id_spec()),
            old(self).is_initialized(resource_id.id_spec()),
            resource_drop_count(*old(self), resource_id.id_spec()) < u64::MAX,
        ensures
            final(self).wf(),
            !final(self).is_initialized(resource_id.id_spec()),
            resource_drop_count(*final(self), resource_id.id_spec()) == resource_drop_count(
                *old(self),
                resource_id.id_spec(),
            ) + 1,
            forall|id: usize|
                id != resource_id.id_spec() ==> final(self).is_initialized(id) == old(
                    self,
                ).is_initialized(id) && #[trigger] final(self).resource_bytes(id) == old(
                    self,
                ).resource_bytes(id),
            forall|id: usize|
                #[trigger] final(self).has_column_spec(id) == old(self).has_column_spec(id),
    {
        proof {
            lemma_col_position(self.table.columns(), resource_id.id_spec());
        }
        let entity_id = self.entity_id;
        let ghost pre = *self;
        match self.table.get_column_mut(resource_id) {
            Some(column) => {
                proof {
                    let p = col_position(pre.table.columns(), resource_id.id_spec()).unwrap();
                    assert(pre.table.columns()[p].wf());
                    assert(pre.table.columns()[p].items().len() == 1);
                }
                column.swap_remove_and_drop_unchecked(entity_id);
                proof {
                    let s = column.item_size();
                    let n = column.items().len() as int;
                    assert((n + 1) * s == s) by (nonlinear_arith)
                        requires
                            n == 0,
                    ;
                }
                let _ = column.push_uninit();
            },
            None => {},
        }
        proof {
            let p = col_position(pre.table.columns(), resource_id.id_spec()).unwrap();
            assert forall|l: int| 0 <= l < self.table.columns().len()
                implies (#[trigger] self.table.columns()[l]).wf() && self.table.columns()[l].items().len()
                    == self.table.spec_len() && self.table.columns()[l].id_spec()
                    == pre.table.columns()[l].id_spec() by {
                if l != p {
                    assert(self.table.columns()[l] == pre.table.columns()[l]);
                }
            }
        }
        self.remove_initialized(resource_id.id());
        proof {
            let p = col_position(pre.table.columns(), resource_id.id_spec()).unwrap();
            crate::storage::table::lemma_col_position_same_ids(self.table.columns(), pre.table.columns());
            assert forall|id: usize|
                id != resource_id.id_spec() implies self.is_initialized(id) == old(
                    self,
                ).is_initialized(id) && #[trigger] self.resource_bytes(id) == old(
                    self,
                ).resource_bytes(id) by {
                lemma_col_position(pre.table.columns(), id);
                match col_position(pre.table.columns(), id) {
                    Some(q) => {
                        assert(q != p);
                        assert(self.table.columns()[q] == pre.table.columns()[q]);
                    },
                    None => {},
                }
            }
            assert forall|j: int| 0 <= j < self.initialized@.len()
                implies self.table.has_column_spec(#[trigger] self.initialized@[j]) by {
                let x = self.initialized@[j];
                assert(self.initialized@.contains(x));
                assert(x != resource_id.id_spec());
                assert(pre.initialized@.contains(x));
                let w = choose|w: int|
                    0 <= w < pre.initialized@.len() && pre.initialized@[w] == x;
                assert(pre.table.has_column_spec(x));
            }
        }
    }

    /// Destructs whatever the column for `resource_id` holds and removes
    /// the column entirely.
    pub fn remove_column(&mut self, resource_id: &ComponentId)
        requires
            old(self).wf(),
            old(self).has_column_spec(resource_id.id_spec()),
            resource_drop_count(*old(self), resource_id.id_spec()) + 1 <= u64::MAX,
        ensures
            final(self).wf(),
            !final(self).has_column_spec(resource_id.id_spec()),
            !final(self).is_initialized(resource_id.id_spec()),
            forall|id: usize|
                id != resource_id.id_spec() ==> final(self).is_initialized(id) == old(
                    self,
                ).is_initialized(id) && #[trigger] final(self).resource_bytes(id) == old(
                    self,
                ).resource_bytes(id) && final(self).has_column_spec(id) == old(self).has_column_spec(id),
    {
        proof {
            lemma_col_position(self.table.columns(), resource_id.id_spec());
        }
        let ghost pre = *self;
        self.table.remove_column(resource_id);
        self.remove_initialized(resource_id.id());
        proof {
            let p = col_position(pre.table.columns(), resource_id.id_spec()).unwrap();
            assert forall|id: usize|
                id != resource_id.id_spec() implies self.is_initialized(id) == old(
                    self,
                ).is_initialized(id) && #[trigger] self.resource_bytes(id) == old(
                    self,
                ).resource_bytes(id) && self.has_column_spec(id) == old(self).has_column_spec(id) by {
                lemma_col_position_remove_other(pre.table.columns(), p, id);
            }
            assert forall|j: int| 0 <= j < self.initialized@.len()
                implies self.table.has_column_spec(#[trigger] self.initialized@[j]) by {
                let x = self.initialized@[j];
                assert(self.initialized@.contains(x));
                assert(x != resource_id.id_spec());
                assert(pre.initialized@.contains(x));
                let w = choose|w: int|
                    0 <= w < pre.initialized@.len() && pre.initialized@[w] == x;
                assert(pre.table.has_column_spec(x));
                lemma_col_position_remove_other(pre.table.columns(), p, x);
            }
        }
    }

    /// Whether `id` stands in the initialized list.
    fn contains_initialized(&self, id: usize) -> (found: bool)
        ensures
            found == self.initialized_ids().contains(id),
    {
        let mut j: usize = 0;
        while j < self.initialized.len()
            invariant
                j <= self.initialized@.len(),
                forall|l: int| 0 <= l < j ==> self.initialized@[l] != id,
            decreases self.initialized@.len() - j,
        {
            if self.initialized[j] == id {
                return true;
            }
            j += 1;
        }
        proof {
            if self.initialized@.contains(id) {
                let w = choose|w: int| 0 <= w < self.initialized@.len() && self.initialized@[w] == id;
            }
        }
        false
    }

    /// Drops `id` from the initialized list, by swap-removal.
    fn remove_initialized(&mut self, id: usize)
        requires
            forall|j: int, l: int|
                0 <= j < old(self).initialized@.len() && 0 <= l < old(self).initialized@.len() && j != l
                    ==> old(self).initialized@[j] != old(self).initialized@[l],
        ensures
            final(self).table == old(self).table,
            final(self).entity_id == old(self).entity_id,
            !final(self).initialized@.contains(id),
            forall|x: usize|
                x != id ==> final(self).initialized@.contains(x) == old(self).initialized@.contains(x),
            forall|j: int, l: int|
                0 <= j < final(self).initialized@.len() && 0 <= l < final(self).initialized@.len()
                    && j != l ==> final(self).initialized@[j] != final(self).initialized@[l],
    {
        let ghost pre = self.initialized@;
        let mut j: usize = 0;
        while j < self.initialized.len()
            invariant
                j <= self.initialized@.len(),
                self.initialized@ == pre,
                pre == old(self).initialized@,
                self.table == old(self).table,
                self.entity_id == old(self).entity_id,
                forall|a: int, b: int|
                    0 <= a < pre.len() && 0 <= b < pre.len() && a != b ==> pre[a] != pre[b],
                forall|l: int| 0 <= l < j ==> pre[l] != id,
            decreases self.initialized@.len() - j,
        {
            if self.initialized[j] == id {
                let _ = self.initialized.swap_remove(j);
                proof {
                    assert(pre[j as int] == id);
                    let post = self.initialized@;
                    assert(post == pre.update(j as int, pre.last()).drop_last());
                    assert forall|x: usize| x != id implies post.contains(x) == pre.contains(x) by {
                        if pre.contains(x) {
                            let w = choose|w: int| 0 <= w < pre.len() && pre[w] == x;
                            if w == j {
                                assert(false);
                            } else if w == pre.len() - 1 {
                                if w == j as int {
                                } else {
                                    assert(post[j as int] == x);
                                    assert(post.contains(x));
                                }
                            } else {
                                assert(post[w] == pre[w]);
                                assert(post.contains(x));
                            }
                        }
                        if post.contains(x) {
                            let w = choose|w: int| 0 <= w < post.len() && post[w] == x;
                            if w == j as int {
                                assert(pre[pre.len() - 1] == x);
                            } else {
                                assert(pre[w] == x);
                            }
                            assert(pre.contains(x));
                        }
                    }
                    assert forall|l: int| 0 <= l < self.initialized@.len()
                        implies self.initialized@[l] != id by {
                        if l == j as int {
                            assert(self.initialized@[l] == pre[pre.len() - 1]);
                        } else {
                            assert(self.initialized@[l] == pre[l]);
                        }
                    }
                    if self.initialized@.contains(id) {
                        let w = choose|w: int|
                            0 <= w < self.initialized@.len() && self.initialized@[w] == id;
                    }
                    assert forall|a: int, b: int|
                        0 <= a < self.initialized@.len() && 0 <= b < self.initialized@.len() && a != b
                        implies self.initialized@[a] != self.initialized@[b] by {
                        let post = self.initialized@;
                        let wa: int = if a == j as int { pre.len() - 1 } else { a };
                        let wb: int = if b == j as int { pre.len() - 1 } else { b };
                        assert(post[a] == pre[wa]);
                        assert(post[b] == pre[wb]);
                    }
                }
                return;
            }
            j += 1;
        }
        proof {
            if self.initialized@.contains(id) {
                let w = choose|w: int| 0 <= w < self.initialized@.len() && self.initialized@[w] == id;
            }
        }
    }
}

/// A live resource's bytes are exactly one cell of its column's type.
pub proof fn lemma_resource_bytes_size(resource_table: ResourceTable, id: usize)
    requires
        resource_table.wf(),
        resource_table.has_column_spec(id),
    ensures
        resource_table.resource_bytes(id).len() == resource_size(resource_table, id),
{
    lemma_col_position(resource_table.table_spec().columns(), id);
    let position = col_position(resource_table.table_spec().columns(), id).unwrap();
    let column = resource_table.table_spec().columns()[position];
    assert(column.wf());
    assert(column.items().len() == resource_table.table_spec().spec_len());
    column.lemma_items_sizes();
}

/// The cell size of the column for resource `id`, zero when absent.
pub open spec fn resource_size(resource_table: ResourceTable, id: usize) -> int {
    match col_position(resource_table.table_spec().columns(), id) {
        Some(p) => resource_table.table_spec().columns()[p].item_size(),
        None => 0,
    }
}

/// How often the destructor of resource `id`'s column has been invoked.
pub open spec fn resource_drop_count(resource_table: ResourceTable, id: usize) -> int {
    match col_position(resource_table.table_spec().columns(), id) {
        Some(p) => resource_table.table_spec().columns()[p].drop_count() as int,
        None => 0,
    }
}

/// A column list grown at the end keeps every earlier id findable, at the
/// same position and with the same column.
proof fn lemma_col_position_stable_under_extension(pre: Seq<crate::storage::table::Column>, post: Seq<crate::storage::table::Column>, id: usize)
    requires
        post.len() == pre.len() + 1,
        forall|l: int| 0 <= l < pre.len() ==> #[trigger] post[l] == pre[l],
        col_position(pre, id) is Some,
    ensures
        col_position(post, id) == col_position(pre, id),
    decreases pre.len(),
{
    if pre.len() > 0 {
        assert(post.first() == pre.first());
        if pre.first().id_spec() != id {
            assert forall|l: int| 0 <= l < pre.drop_first().len()
                implies #[trigger] post.drop_first()[l] == pre.drop_first()[l] by {
                assert(post[l + 1] == pre[l + 1]);
            }
            assert(post.drop_first().len() == pre.drop_first().len() + 1);
            lemma_col_position_stable_under_extension(pre.drop_first(), post.drop_first(), id);
        }
    }
}

/// Removing one column leaves every other id findable with the same column.
proof fn lemma_col_position_remove_other(columns: Seq<crate::storage::table::Column>, position: int, id: usize)
    requires
        0 <= position < columns.len(),
        forall|j: int, l: int|
            0 <= j < columns.len() && 0 <= l < columns.len() && j != l ==> (
            #[trigger] columns[j]).id_spec() != (#[trigger] columns[l]).id_spec(),
        columns[position].id_spec() != id,
    ensures
        match col_position(columns.remove(position), id) {
            Some(q) => col_position(columns, id) is Some && columns.remove(position)[q]
                == columns[col_position(columns, id).unwrap()],
            None => col_position(columns, id) is None,
        },
{
    lemma_col_position(columns, id);
    lemma_col_position(columns.remove(position), id);
    match col_position(columns.remove(position), id) {
        Some(q) => {
            let removed = columns.remove(position);
            assert(removed[q].id_spec() == id);
            let orig_index: int = if q < position {
                q
            } else {
                q + 1
            };
            assert(columns[orig_index] == removed[q]);
            crate::storage::table::lemma_col_position_some_of_member(columns, id, orig_index);
            let p0 = col_position(columns, id).unwrap();
            assert(columns[p0].id_spec() == id);
            assert(p0 == orig_index);
        },
        None => {
            match col_position(columns, id) {
                Some(p0) => {
                    assert(columns[p0].id_spec() == id);
                    assert(p0 != position);
                    let q: int = if p0 < position {
                        p0
                    } else {
                        p0 - 1
                    };
                    assert(columns.remove(position)[q] == columns[p0]);
                    crate::storage::table::lemma_col_position_some_of_member(
                        columns.remove(position),
                        id,
                        q,
                    );
                },
                None => {},
            }
        },
    }
}

} // verus!
