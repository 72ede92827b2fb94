//! The type-erased growable column buffer.
//!
//! A [`BlobVec`] stores the values of exactly one component type for every
//! row of its owning table, as raw bytes at `row * item_size` offsets:
//! logically a `Vec<T>` without a compile-time `T`. The erased type is
//! described by a [`TypeLayout`] handle fixed at construction.
//!
//! The per-type destructor of the erased type is abstracted as an
//! invocation counter, [`BlobVec::drop_count`]: every operation that the
//! engine must destruct a cell for (replace, swap-remove-and-drop, clear)
//! bumps the counter exactly once per destroyed cell, and operations that
//! must not (first initialization, swap-remove-and-forget) leave it alone.
//! A destructor has no further effect a byte-level model could observe.
//!
//! Zero-sized item types are a no-storage special case with unlimited
//! capacity, as the layout rules of such types demand.

use vstd::prelude::*;

verus! {

/// The erased-type handle: the memory layout of one item of the stored type.
#[derive(Debug, Clone, Copy, PartialEq, Eq, Structural)]
pub struct TypeLayout {
    /// Size of one item in bytes. May be zero.
    pub size: usize,
    /// Alignment of the item type in bytes. At least one.
    pub align: usize,
}

impl TypeLayout {
    /// A layout is usable when its alignment is positive and the size,
    /// rounded up to the alignment, still fits in a machine word.
    pub open spec fn valid(&self) -> bool {
        &&& 1 <= self.align
        &&& self.size + self.align <= usize::MAX
    }

    pub fn new(size: usize, align: usize) -> (layout: TypeLayout)
        requires
            1 <= align,
            size + align <= usize::MAX,
        ensures
            layout == (TypeLayout { size, align }),
            layout.valid(),
    {
        TypeLayout { size, align }
    }
}

/// Bytes a layout must be padded with so that a following item of the same
/// layout is aligned to `align`.
pub fn padding_needed_for(layout: &TypeLayout, align: usize) -> (pad: usize)
    requires
        1 <= align,
    ensures
        pad == (if layout.size as int % align as int == 0 {
            0int
        } else {
            align - layout.size as int % align as int
        }),
        (layout.size + pad) % align as int == 0,
{
    let rem = layout.size % align;
    proof {
        let s = layout.size as int;
        let a = align as int;
        vstd::arithmetic::div_mod::lemma_fundamental_div_mod(s, a);
        vstd::arithmetic::div_mod::lemma_mod_bound(s, a);
        if s % a != 0 {
            assert(s + (a - s % a) == (s / a + 1) * a) by (nonlinear_arith)
                requires
                    s == a * (s / a) + s % a,
            ;
            vstd::arithmetic::div_mod::lemma_mod_multiples_basic(s / a + 1, a);
        }
    }
    if rem == 0 {
        0
    } else {
        align - rem
    }
}

/// The layout of `n` items of `layout` laid out one after the other, and
/// the stride between two items; `None` when the total size would not fit
/// in a machine word.
pub fn repeat_layout(layout: &TypeLayout, n: usize) -> (result: Option<(TypeLayout, usize)>)
    requires
        layout.valid(),
    ensures
        match result {
            Some((arr, stride)) => {
                &&& stride == layout.size + (if layout.size as int % layout.align as int == 0 {
                    0int
                } else {
                    layout.align - layout.size as int % layout.align as int
                })
                &&& arr.size == stride * n
                &&& arr.align == layout.align
                &&& stride * n <= usize::MAX
            },
            None => true,
        },
{
    let pad = padding_needed_for(layout, layout.align);
    let padded_size = layout.size + pad;
    match padded_size.checked_mul(n) {
        Some(alloc_size) => Some((TypeLayout { size: alloc_size, align: layout.align }, padded_size)),
        None => None,
    }
}

/// The layout of an array of `n` items of `layout`; `None` on overflow.
pub fn array_layout(layout: &TypeLayout, n: usize) -> (result: Option<TypeLayout>)
    requires
        layout.valid(),
    ensures
        match result {
            Some(arr) => arr.align == layout.align && layout.size * n <= arr.size,
            None => true,
        },
{
    match repeat_layout(layout, n) {
        Some((arr_layout, stride)) => {
            proof {
                lemma_mul_monotone_nonneg(layout.size as int, stride as int, n as int);
            }
            Some(arr_layout)
        },
        None => None,
    }
}

/// The rows of a flat byte buffer, read as `rows` cells of `size` bytes each.
pub open spec fn cells(data: Seq<u8>, size: int, rows: int) -> Seq<Seq<u8>> {
    Seq::new(rows as nat, |i: int| data.subrange(i * size, i * size + size))
}

proof fn lemma_mul_monotone_nonneg(a: int, b: int, n: int)
    requires
        0 <= a <= b,
        0 <= n,
    ensures
        a * n <= b * n,
{
    assert(a * n <= b * n) by (nonlinear_arith)
        requires
            0 <= a <= b,
            0 <= n,
    ;
}

/// Cells drawn from two buffers that agree on the first `rows * size` bytes
/// are the same cells.
proof fn lemma_cells_agree(d1: Seq<u8>, d2: Seq<u8>, size: int, rows: int)
    requires
        0 <= size,
        0 <= rows,
        rows * size <= d1.len(),
        rows * size <= d2.len(),
        forall|m: int| 0 <= m < rows * size ==> d1[m] == d2[m],
    ensures
        cells(d1, size, rows) == cells(d2, size, rows),
{
    assert forall|i: int| 0 <= i < rows implies cells(d1, size, rows)[i] == cells(d2, size, rows)[i] by {
        assert(0 <= i * size && i * size + size <= rows * size) by (nonlinear_arith)
            requires
                0 <= i < rows,
                0 <= size,
        ;
        assert forall|m: int| i * size <= m < i * size + size implies d1[m] == d2[m] by {
            assert(0 <= m < rows * size);
        }
        assert(d1.subrange(i * size, i * size + size) =~= d2.subrange(i * size, i * size + size));
    }
    assert(cells(d1, size, rows) =~= cells(d2, size, rows));
}

/// Writing one cell of a buffer updates exactly that element of its cells.
proof fn lemma_cells_update(d1: Seq<u8>, d2: Seq<u8>, size: int, rows: int, index: int, value: Seq<u8>)
    requires
        0 <= size,
        0 <= index < rows,
        rows * size <= d1.len(),
        d2.len() == d1.len(),
        value.len() == size,
        forall|k: int| 0 <= k < size ==> d2[index * size + k] == value[k],
        forall|m: int| 0 <= m < d1.len() && !(index * size <= m < index * size + size) ==> d2[m] == d1[m],
    ensures
        cells(d2, size, rows) == cells(d1, size, rows).update(index, value),
{
    assert(0 <= index * size && index * size + size <= rows * size) by (nonlinear_arith)
        requires
            0 <= index < rows,
            0 <= size,
    ;
    assert forall|i: int| 0 <= i < rows implies cells(d2, size, rows)[i] == cells(d1, size, rows).update(
        index,
        value,
    )[i] by {
        assert(0 <= i * size && i * size + size <= rows * size) by (nonlinear_arith)
            requires
                0 <= i < rows,
                0 <= size,
        ;
        if i == index {
            assert(d2.subrange(i * size, i * size + size) =~= value);
        } else {
            assert(i * size + size <= index * size || index * size + size <= i * size)
                by (nonlinear_arith)
                requires
                    0 <= size,
                    0 <= i < rows,
                    0 <= index < rows,
                    i != index,
            ;
            assert forall|m: int| i * size <= m < i * size + size implies d2[m] == d1[m] by {
                assert(0 <= m < d1.len());
                assert(!(index * size <= m < index * size + size));
            }
            assert(d2.subrange(i * size, i * size + size) =~= d1.subrange(i * size, i * size + size));
        }
    }
    assert(cells(d2, size, rows) =~= cells(d1, size, rows).update(index, value));
}

/// Reads the `size` bytes of cell `index` out of a flat buffer.
fn read_cell(data: &Vec<u8>, size: usize, index: usize) -> (cell: Vec<u8>)
    requires
        index * size + size <= data@.len(),
    ensures
        cell@ == data@.subrange(index as int * size as int, index as int * size as int + size as int),
{
    let capacity = data.len();
    let base = index * size;
    let mut cell: Vec<u8> = Vec::new();
    let mut j: usize = 0;
    while j < size
        invariant
            j <= size,
            base == index * size,
            base + size <= capacity,
            capacity == data@.len(),
            cell@.len() == j,
            forall|k: int| 0 <= k < j ==> cell@[k] == data@[base + k],
        decreases size - j,
    {
        cell.push(data[base + j]);
        j += 1;
    }
    proof {
        assert(cell@ =~= data@.subrange(base as int, base as int + size as int));
    }
    cell
}

/// Overwrites the `size` bytes of cell `index` with `value`, leaving every
/// other byte of the buffer alone.
fn write_cell(data: &mut Vec<u8>, size: usize, index: usize, value: &Vec<u8>)
    requires
        index * size + size <= old(data)@.len(),
        value@.len() == size,
    ensures
        final(data)@.len() == old(data)@.len(),
        forall|k: int| 0 <= k < size ==> final(data)@[index as int * size as int + k] == value@[k],
        forall|m: int|
            0 <= m < old(data)@.len() && !(index as int * size as int <= m < index as int * size as int
                + size as int) ==> final(data)@[m] == old(data)@[m],
{
    let capacity = data.len();
    let base = index * size;
    let mut j: usize = 0;
    while j < size
        invariant
            j <= size,
            base == index * size,
            base + size <= capacity,
            capacity == data@.len(),
            data@.len() == old(data)@.len(),
            value@.len() == size,
            forall|k: int| 0 <= k < j ==> data@[base + k] == value@[k],
            forall|m: int|
                0 <= m < data@.len() && !(base <= m < base + size) ==> data@[m] == old(data)@[m],
        decreases size - j,
    {
        data.set(base + j, value[j]);
        j += 1;
    }
}

/// The type-erased column buffer: `rows` items of `item_layout.size` bytes
/// each, stored back to back in one flat allocation.
pub struct BlobVec {
    item_layout: TypeLayout,
    /// The flat backing storage; its length is the capacity in bytes.
    data: Vec<u8>,
    /// Number of initialized-slot rows currently in the buffer.
    rows: usize,
    /// The dedicated single-item scratch slot used by swap removal.
    swap_space: Vec<u8>,
    /// How many times the erased type's destructor has been invoked.
    drops: u64,
}

impl BlobVec {
    /// The erased-type handle this buffer was created with.
    pub closed spec fn layout(&self) -> TypeLayout {
        self.item_layout
    }

    /// The item size in bytes, as a mathematical integer.
    pub open spec fn item_size(&self) -> int {
        self.layout().size as int
    }

    /// The stored items: one byte sequence of length `item_size` per row.
    pub closed spec fn items(&self) -> Seq<Seq<u8>> {
        cells(self.data@, self.item_size(), self.rows as int)
    }

    /// How many times the per-type destructor has been invoked so far.
    pub closed spec fn drop_count(&self) -> u64 {
        self.drops
    }

    /// Capacity of the backing storage in bytes (unlimited for zero-sized types).
    pub closed spec fn spec_capacity(&self) -> int {
        if self.item_size() == 0 {
            usize::MAX as int
        } else {
            self.data@.len() as int
        }
    }

    /// Structural soundness: the rows fit the allocation and the scratch
    /// slot holds exactly one item.
    pub closed spec fn wf(&self) -> bool {
        &&& self.item_layout.valid()
        &&& self.rows * self.item_size() <= self.data@.len()
        &&& if self.item_size() == 0 {
            self.data@.len() == 0 && self.swap_space@.len() == 0
        } else {
            self.swap_space@.len() == self.item_size()
        }
    }

    /// Every stored item is exactly one item-size long.
    pub proof fn lemma_items_sizes(&self)
        requires
            self.wf(),
        ensures
            forall|i: int|
                0 <= i < self.items().len() ==> (#[trigger] self.items()[i]).len() == self.item_size(),
    {
        assert forall|i: int| 0 <= i < self.items().len()
            implies (#[trigger] self.items()[i]).len() == self.item_size() by {
            assert(0 <= i * self.item_size() && i * self.item_size() + self.item_size()
                <= self.rows as int * self.item_size()) by (nonlinear_arith)
                requires
                    0 <= i && i < self.rows as int,
                    0 <= self.item_size(),
            ;
        }
    }

    /// Creates a buffer for items of `item_layout`, with room for
    /// `capacity` items before the first regrowth.
    pub fn new(item_layout: TypeLayout, capacity: usize) -> (blobvec: BlobVec)
        requires
            item_layout.valid(),
            item_layout.size * capacity <= usize::MAX,
        ensures
            blobvec.wf(),
            blobvec.layout() == item_layout,
            blobvec.items() == Seq::<Seq<u8>>::empty(),
            blobvec.drop_count() == 0,
            capacity * item_layout.size <= blobvec.spec_capacity(),
    {
        proof {
            assert(capacity * item_layout.size == item_layout.size * capacity) by (nonlinear_arith);
        }
        if item_layout.size == 0 {
            let blobvec = BlobVec {
                item_layout,
                data: Vec::new(),
                rows: 0,
                swap_space: Vec::new(),
                drops: 0,
            };
            proof {
                assert(blobvec.items() =~= Seq::<Seq<u8>>::empty());
            }
            blobvec
        } else {
            let bytes = item_layout.size * capacity;
            let blobvec = BlobVec {
                item_layout,
                data: vec![0u8; bytes],
                rows: 0,
                swap_space: vec![0u8; item_layout.size],
                drops: 0,
            };
            proof {
                assert(blobvec.items() =~= Seq::<Seq<u8>>::empty());
            }
            blobvec
        }
    }

    /// How many times the per-type destructor has been invoked so far.
    pub fn drop_invocations(&self) -> (count: u64)
        ensures
            count == self.drop_count(),
    {
        self.drops
    }

    /// Capacity in bytes.
    pub fn capacity(&self) -> (cap: usize)
        requires
            self.wf(),
        ensures
            cap == self.spec_capacity(),
    {
        if self.item_layout.size == 0 {
            usize::MAX
        } else {
            self.data.len()
        }
    }

    /// Capacity in items.
    pub fn item_capacity(&self) -> (cap: usize)
        requires
            self.wf(),
        ensures
            cap == (if self.item_size() == 0 {
                usize::MAX as int
            } else {
                self.spec_capacity() / self.item_size()
            }),
    {
        if self.item_layout.size == 0 {
            usize::MAX
        } else {
            self.data.len() / self.item_layout.size
        }
    }

    /// Used length in bytes.
    pub fn len(&self) -> (len: usize)
        requires
            self.wf(),
        ensures
            len == self.items().len() * self.item_size(),
    {
        let cap = self.data.len();
        proof {
            if self.item_size() > 0 {
                lemma_mul_monotone_nonneg(0, self.rows as int, self.item_size());
                assert(self.rows * self.item_size() <= cap);
            }
        }
        self.rows * self.item_layout.size
    }

    /// Number of items.
    pub fn items_len(&self) -> (len: usize)
        ensures
            len == self.items().len(),
    {
        self.rows
    }

    /// Grows the backing storage so that at least `additional` more items
    /// fit beyond the rows already present.
    pub fn reserve_exact(&mut self, additional: usize)
        requires
            old(self).wf(),
            old(self).items().len() + additional <= usize::MAX,
            (old(self).items().len() + additional) * old(self).item_size() <= usize::MAX,
        ensures
            final(self).wf(),
            final(self).layout() == old(self).layout(),
            final(self).items() == old(self).items(),
            final(self).drop_count() == old(self).drop_count(),
            old(self).items().len() + additional <= (if final(self).item_size() == 0 {
                usize::MAX as int
            } else {
                final(self).spec_capacity() / final(self).item_size()
            }),
    {
        if self.item_layout.size == 0 {
            return;
        }
        proof {
            assert(self.rows + additional <= (self.rows + additional) * self.item_size())
                by (nonlinear_arith)
                requires
                    1 <= self.item_size(),
                    0 <= self.rows,
                    0 <= additional,
            ;
        }
        let target = self.rows + additional;
        self.grow_exact(target);
    }

    /// Regrows the allocation to hold at least `target_items` items.
    fn grow_exact(&mut self, target_items: usize)
        requires
            old(self).wf(),
            1 <= old(self).item_size(),
            target_items * old(self).item_size() <= usize::MAX,
            old(self).items().len() <= target_items,
        ensures
            final(self).wf(),
            final(self).layout() == old(self).layout(),
            final(self).items() == old(self).items(),
            final(self).drop_count() == old(self).drop_count(),
            target_items <= final(self).spec_capacity() / final(self).item_size(),
    {
        proof {
            assert(target_items * self.item_size() == self.item_size() * target_items)
                by (nonlinear_arith);
        }
        let needed: usize = target_items * self.item_layout.size;
        let ghost pre = self.data@;
        if self.data.len() < needed {
            self.data.resize(needed, 0u8);
            proof {
                assert(self.data@.subrange(0, pre.len() as int) =~= pre);
                assert(self.rows * self.item_size() <= pre.len());
                assert forall|m: int| 0 <= m < self.rows as int * self.item_size()
                    implies pre[m] == self.data@[m] by {
                    assert(self.data@[m] == self.data@.subrange(0, pre.len() as int)[m]);
                }
                lemma_cells_agree(pre, self.data@, self.item_size(), self.rows as int);
            }
        }
        proof {
            let s = self.item_size();
            assert(target_items as int * s == s * target_items as int) by (nonlinear_arith);
            vstd::arithmetic::div_mod::lemma_div_is_ordered(
                s * target_items as int,
                self.data@.len() as int,
                s,
            );
            vstd::arithmetic::div_mod::lemma_div_multiples_vanish(target_items as int, s);
        }
    }

    /// Appends one uninitialized row and returns its index. The new cell's
    /// bytes carry no meaning until `init_unchecked` writes them.
    pub fn push_uninit(&mut self) -> (index: usize)
        requires
            old(self).wf(),
            (old(self).items().len() + 1) * old(self).item_size() <= usize::MAX,
            old(self).items().len() < usize::MAX,
        ensures
            final(self).wf(),
            final(self).layout() == old(self).layout(),
            final(self).drop_count() == old(self).drop_count(),
            index == old(self).items().len(),
            final(self).items().len() == old(self).items().len() + 1,
            forall|i: int| 0 <= i < old(self).items().len() ==> final(self).items()[i] == old(self).items()[i],
            final(self).items()[index as int].len() == final(self).item_size(),
    {
        self.reserve_exact(1);
        let index = self.rows;
        let ghost pre = *self;
        self.rows = self.rows + 1;
        proof {
            if self.item_size() > 0 {
                let s = self.item_size();
                let cap = self.data@.len() as int;
                assert(self.rows as int <= cap / s);
                lemma_mul_monotone_nonneg(self.rows as int, cap / s, s);
                vstd::arithmetic::div_mod::lemma_fundamental_div_mod(cap, s);
                vstd::arithmetic::div_mod::lemma_mod_bound(cap, s);
                assert((cap / s) * s == s * (cap / s)) by (nonlinear_arith);
                assert(self.rows as int * s <= cap);
            }
            assert forall|i: int| 0 <= i < pre.items().len() implies self.items()[i] == pre.items()[i] by {}
            assert(0 <= index as int * self.item_size() && index as int * self.item_size()
                + self.item_size() <= self.rows as int * self.item_size()) by (nonlinear_arith)
                requires
                    0 <= index as int && (index as int) < self.rows as int,
                    0 <= self.item_size(),
            ;
        }
        index
    }

    /// First write of a never-before-written cell: copies the raw bytes in
    /// without invoking any destructor on what the cell held.
    pub fn init_unchecked(&mut self, index: usize, value: &Vec<u8>)
        requires
            old(self).wf(),
            index < old(self).items().len(),
            value@.len() == old(self).item_size(),
        ensures
            final(self).wf(),
            final(self).layout() == old(self).layout(),
            final(self).spec_capacity() == old(self).spec_capacity(),
            final(self).items() == old(self).items().update(index as int, value@),
            final(self).drop_count() == old(self).drop_count(),
    {
        proof {
            assert(index as int * self.item_size() + self.item_size() <= self.rows as int
                * self.item_size()) by (nonlinear_arith)
                requires
                    0 <= index as int && (index as int) < self.rows as int,
                    0 <= self.item_size(),
            ;
        }
        let ghost pre = self.data@;
        write_cell(&mut self.data, self.item_layout.size, index, value);
        proof {
            lemma_cells_update(pre, self.data@, self.item_size(), self.rows as int, index as int, value@);
        }
    }

    /// Replaces a live cell: invokes the destructor on the old value (one
    /// bump of the drop counter), then copies the new bytes in.
    pub fn replace_unchecked(&mut self, index: usize, value: &Vec<u8>)
        requires
            old(self).wf(),
            index < old(self).items().len(),
            value@.len() == old(self).item_size(),
            old(self).drop_count() < u64::MAX,
        ensures
            final(self).wf(),
            final(self).layout() == old(self).layout(),
            final(self).spec_capacity() == old(self).spec_capacity(),
            final(self).items() == old(self).items().update(index as int, value@),
            final(self).drop_count() == old(self).drop_count() + 1,
    {
        self.drops = self.drops + 1;
        self.init_unchecked(index, value);
    }

    /// Reads the raw bytes of one cell.
    pub fn get_unchecked(&self, index: usize) -> (cell: Vec<u8>)
        requires
            self.wf(),
            index < self.items().len(),
        ensures
            cell@ == self.items()[index as int],
    {
        proof {
            assert(index as int * self.item_size() + self.item_size() <= self.rows as int
                * self.item_size()) by (nonlinear_arith)
                requires
                    0 <= index as int && (index as int) < self.rows as int,
                    0 <= self.item_size(),
            ;
        }
        read_cell(&self.data, self.item_layout.size, index)
    }

    /// Removes cell `index` by moving it to the scratch slot, compacting
    /// the buffer by moving the last cell into the hole, and returning the
    /// removed bytes for the caller to take ownership of. No destructor runs.
    pub fn swap_remove_and_forget_unchecked(&mut self, index: usize) -> (cell: Vec<u8>)
        requires
            old(self).wf(),
            index < old(self).items().len(),
        ensures
            final(self).wf(),
            final(self).layout() == old(self).layout(),
            final(self).spec_capacity() == old(self).spec_capacity(),
            cell@ == old(self).items()[index as int],
            final(self).items() == old(self).items().update(
                index as int,
                old(self).items().last(),
            ).drop_last(),
            final(self).drop_count() == old(self).drop_count(),
    {
        proof {
            assert(index as int * self.item_size() + self.item_size() <= self.rows as int
                * self.item_size() && (self.rows as int - 1) * self.item_size() + self.item_size()
                <= self.rows as int * self.item_size()) by (nonlinear_arith)
                requires
                    0 <= index as int && (index as int) < self.rows as int,
                    0 <= self.item_size(),
            ;
        }
        let size = self.item_layout.size;
        let removed = read_cell(&self.data, size, index);
        if size > 0 {
            self.swap_space = read_cell(&self.data, size, index);
        }
        let last = self.rows - 1;
        let last_cell = read_cell(&self.data, size, last);
        let ghost pre = self.data@;
        write_cell(&mut self.data, size, index, &last_cell);
        proof {
            lemma_cells_update(pre, self.data@, self.item_size(), self.rows as int, index as int, last_cell@);
        }
        let ghost mid = *self;
        self.rows = last;
        proof {
            assert((self.rows as int) * self.item_size() <= (mid.rows as int) * self.item_size())
                by (nonlinear_arith)
                requires
                    0 <= self.item_size(),
                    self.rows as int <= mid.rows as int,
            ;
            assert(self.items() =~= mid.items().drop_last());
            assert(mid.items() == old(self).items().update(index as int, old(self).items().last()));
        }
        removed
    }

    /// Removes cell `index` as `swap_remove_and_forget_unchecked` does, then
    /// invokes the destructor on the extracted value.
    pub fn swap_remove_and_drop_unchecked(&mut self, index: usize)
        requires
            old(self).wf(),
            index < old(self).items().len(),
            old(self).drop_count() < u64::MAX,
        ensures
            final(self).wf(),
            final(self).layout() == old(self).layout(),
            final(self).spec_capacity() == old(self).spec_capacity(),
            final(self).items() == old(self).items().update(
                index as int,
                old(self).items().last(),
            ).drop_last(),
            final(self).drop_count() == old(self).drop_count() + 1,
    {
        let _ = self.swap_remove_and_forget_unchecked(index);
        self.drops = self.drops + 1;
    }

    /// Destructs every live cell (one drop-counter bump each) and empties
    /// the buffer without shrinking the allocation.
    pub fn clear(&mut self)
        requires
            old(self).wf(),
            old(self).drop_count() + old(self).items().len() <= u64::MAX,
        ensures
            final(self).wf(),
            final(self).layout() == old(self).layout(),
            final(self).spec_capacity() == old(self).spec_capacity(),
            final(self).items() == Seq::<Seq<u8>>::empty(),
            final(self).drop_count() == old(self).drop_count() + old(self).items().len(),
    {
        let len_save = self.rows;
        self.rows = 0;
        self.drops = self.drops + (len_save as u64);
        proof {
            assert(self.items() =~= Seq::<Seq<u8>>::empty());
        }
    }
}

} // verus!
