//! The component/resource identity registry.
//!
//! Every distinct data type handled by the store is named by a caller-chosen
//! [`TypeKey`], the erased runtime type token. Registering a key assigns it a
//! dense, stable [`ComponentId`] and records a [`ComponentDescriptor`]: the
//! key, the memory layout of one value, and a bit-group membership mask.
//! Registration is idempotent: a known key keeps its id. Components and
//! resources are registered into disjoint id spaces drawn from one counter.

use vstd::prelude::*;

use crate::storage::blobvec::TypeLayout;

verus! {

/// Marker for data stored once per entity. Any owned data type qualifies.
pub trait Component {

}

impl<T> Component for T {

}

/// Marker for singleton data attached to the store itself.
pub trait Resource {

}

impl<T> Resource for T {

}

/// The erased runtime type token: each distinct data type that callers
/// store must be given its own key, and the same type always the same key.
#[derive(Debug, Clone, Copy, Hash, PartialEq, Eq, Structural)]
pub struct TypeKey(pub u64);

/// Dense integer identity of one registered data type, unique within a run
/// and usable as a stable sort key for archetype signatures.
#[derive(Debug, Clone, Copy, Hash, PartialEq, Eq, PartialOrd, Ord, Structural)]
pub struct ComponentId(usize);

impl ComponentId {
    pub fn id(&self) -> (id: usize)
        ensures
            id == self.id_spec(),
    {
        self.0
    }

    pub closed spec fn id_spec(&self) -> usize {
        self.0
    }

    /// Identities are handed out by [`Components`]; this constructor exists
    /// for composing a store from parts and for tests.
    pub fn from_index(index: usize) -> (id: ComponentId)
        ensures
            id.id_spec() == index,
    {
        ComponentId(index)
    }
}

/// The number of bits one block of a descriptor's membership mask spans.
pub const BITMASK_BLOCK_SIZE: usize = 32;

/// The set of bits enabled in a `FixedBitSet`.
pub uninterp spec fn bits_of(bitset: fixedbitset::FixedBitSet) -> Set<usize>;

/// The number of bits a `FixedBitSet` was created to hold.
pub uninterp spec fn bit_len_of(bitset: fixedbitset::FixedBitSet) -> usize;

#[verifier::external_type_specification]
#[verifier::external_body]
pub struct ExFixedBitSet(fixedbitset::FixedBitSet);

/// Relies on `fixedbitset::FixedBitSet::with_capacity`: a fresh set holds
/// `bits` bits, all disabled.
#[verifier::external_body]
fn bitset_with_capacity(bits: usize) -> (bitset: fixedbitset::FixedBitSet)
    ensures
        bits_of(bitset) == Set::<usize>::empty(),
        bit_len_of(bitset) == bits,
{
    fixedbitset::FixedBitSet::with_capacity(bits)
}

/// Relies on `fixedbitset::FixedBitSet::set`: enables one bit below the
/// set's length (the call panics at or above it, so that is excluded here).
#[verifier::external_body]
fn bitset_enable(bitset: &mut fixedbitset::FixedBitSet, bit: usize)
    requires
        bit < bit_len_of(*old(bitset)),
    ensures
        bits_of(*final(bitset)) == bits_of(*old(bitset)).insert(bit),
        bit_len_of(*final(bitset)) == bit_len_of(*old(bitset)),
{
    bitset.set(bit, true)
}

/// Relies on `fixedbitset::FixedBitSet::contains`: reports whether a bit is
/// enabled, `false` for bits at or beyond the set's length.
#[verifier::external_body]
fn bitset_contains(bitset: &fixedbitset::FixedBitSet, bit: usize) -> (enabled: bool)
    ensures
        enabled == (bit < bit_len_of(*bitset) && bits_of(*bitset).contains(bit)),
{
    bitset.contains(bit)
}

/// Everything the store must know of one registered data type.
pub struct ComponentDescriptor {
    /// The dense identity the registry assigned.
    pub id: ComponentId,
    /// The erased runtime type token the type was registered under.
    pub type_key: TypeKey,
    /// Memory layout of one value of the type.
    pub layout: TypeLayout,
    /// Bit-group membership mask: exactly the bit `id` is enabled.
    pub bitmask: fixedbitset::FixedBitSet,
}

impl ComponentDescriptor {
    /// The mask marks exactly this descriptor's identity.
    pub open spec fn bitmask_wf(&self) -> bool {
        &&& bits_of(self.bitmask) == Set::<usize>::empty().insert(self.id.id_spec())
        &&& self.id.id_spec() < bit_len_of(self.bitmask)
    }

    /// Builds the descriptor of a type with layout `layout`, registered
    /// under `type_key` as `component_id`.
    pub fn of(component_id: ComponentId, type_key: TypeKey, layout: TypeLayout) -> (descriptor: ComponentDescriptor)
        requires
            component_id.id_spec() + BITMASK_BLOCK_SIZE <= usize::MAX,
        ensures
            descriptor.id == component_id,
            descriptor.type_key == type_key,
            descriptor.layout == layout,
            descriptor.bitmask_wf(),
    {
        let id = component_id.id();

        let blocks = id / BITMASK_BLOCK_SIZE + 1;
        proof {
            let b = BITMASK_BLOCK_SIZE as int;
            vstd::arithmetic::div_mod::lemma_fundamental_div_mod(id as int, b);
            vstd::arithmetic::div_mod::lemma_mod_bound(id as int, b);
            assert(blocks as int * b == b * (id as int / b) + b) by (nonlinear_arith)
                requires
                    blocks == id as int / b + 1,
            ;
        }
        let mut bitmask = bitset_with_capacity(blocks * BITMASK_BLOCK_SIZE);
        bitset_enable(&mut bitmask, id);

        ComponentDescriptor { id: component_id, type_key, layout, bitmask }
    }

    /// Whether this descriptor was registered under `type_key`.
    pub fn is_for(&self, type_key: TypeKey) -> (matches: bool)
        ensures
            matches == (self.type_key == type_key),
    {
        self.type_key == type_key
    }

    /// Whether the membership mask marks identity `bit`; exactly the
    /// descriptor's own id is marked.
    pub fn marks(&self, bit: usize) -> (marked: bool)
        requires
            self.bitmask_wf(),
        ensures
            marked == (bit == self.id.id_spec()),
    {
        bitset_contains(&self.bitmask, bit)
    }
}

/// First index registered under `key`, searching `entries` front to back.
pub open spec fn lookup_key(entries: Seq<(TypeKey, usize)>, key: TypeKey) -> Option<usize>
    decreases entries.len(),
{
    if entries.len() == 0 {
        None
    } else if entries.first().0 == key {
        Some(entries.first().1)
    } else {
        lookup_key(entries.drop_first(), key)
    }
}

/// The component/resource bookkeeper: resources are components of one
/// implicit global entity, so both share the descriptor list and the id
/// counter, but are indexed by disjoint key tables.
pub struct Components {
    descriptors: Vec<ComponentDescriptor>,
    indices: Vec<(TypeKey, usize)>,
    resource_indices: Vec<(TypeKey, usize)>,
}

impl Components {
    /// All registered descriptors, componenents and resources together,
    /// indexed by their dense ids.
    pub closed spec fn descriptors_seq(&self) -> Seq<ComponentDescriptor> {
        self.descriptors@
    }

    /// The component key table.
    pub closed spec fn component_entries(&self) -> Seq<(TypeKey, usize)> {
        self.indices@
    }

    /// The resource key table.
    pub closed spec fn resource_entries(&self) -> Seq<(TypeKey, usize)> {
        self.resource_indices@
    }

    /// One key table is sound: every entry names its own key's descriptor,
    /// and no key occurs twice.
    pub open spec fn entries_wf(&self, entries: Seq<(TypeKey, usize)>) -> bool {
        &&& forall|j: int|
            0 <= j < entries.len() ==> (#[trigger] entries[j]).1 < self.descriptors_seq().len()
                && self.descriptors_seq()[entries[j].1 as int].type_key == entries[j].0
        &&& forall|j: int, l: int|
            0 <= j < entries.len() && 0 <= l < entries.len() && j != l ==> (#[trigger] entries[j]).0
                != (#[trigger] entries[l]).0
    }

    /// Registry soundness: ids are dense (descriptor `i` carries id `i`),
    /// every descriptor is well formed, and both key tables are sound.
    pub open spec fn wf(&self) -> bool {
        &&& forall|i: int|
            0 <= i < self.descriptors_seq().len() ==> (#[trigger] self.descriptors_seq()[i]).id.id_spec()
                == i
        &&& forall|i: int|
            0 <= i < self.descriptors_seq().len() ==> (#[trigger] self.descriptors_seq()[i]).layout.valid()
        &&& forall|i: int|
            0 <= i < self.descriptors_seq().len() ==> (#[trigger] self.descriptors_seq()[i]).bitmask_wf()
        &&& self.entries_wf(self.component_entries())
        &&& self.entries_wf(self.resource_entries())
    }

    /// What one registration call does: a known key answers its recorded
    /// id and changes nothing; a fresh key is assigned the next dense id
    /// and a new descriptor of the given layout.
    pub open spec fn register_spec(
        pre: Components,
        post: Components,
        entries: Seq<(TypeKey, usize)>,
        post_entries: Seq<(TypeKey, usize)>,
        type_key: TypeKey,
        layout: TypeLayout,
        id: ComponentId,
    ) -> bool {
        match lookup_key(entries, type_key) {
            Some(index) => {
                &&& id.id_spec() == index
                &&& post.descriptors_seq() == pre.descriptors_seq()
                &&& post_entries == entries
            },
            None => {
                &&& id.id_spec() == pre.descriptors_seq().len()
                &&& post.descriptors_seq().len() == pre.descriptors_seq().len() + 1
                &&& forall|i: int|
                    0 <= i < pre.descriptors_seq().len() ==> #[trigger] post.descriptors_seq()[i]
                        == pre.descriptors_seq()[i]
                &&& post.descriptors_seq().last().id == id
                &&& post.descriptors_seq().last().type_key == type_key
                &&& post.descriptors_seq().last().layout == layout
                &&& post_entries == entries.push((type_key, id.id_spec() as usize))
            },
        }
    }

    pub fn new() -> (components: Components)
        ensures
            components.wf(),
            components.descriptors_seq() == Seq::<ComponentDescriptor>::empty(),
            components.component_entries() == Seq::<(TypeKey, usize)>::empty(),
            components.resource_entries() == Seq::<(TypeKey, usize)>::empty(),
    {
        Components { descriptors: Vec::new(), indices: Vec::new(), resource_indices: Vec::new() }
    }

    /// Looks a key up in one key table.
    fn find_entry(entries: &Vec<(TypeKey, usize)>, type_key: TypeKey) -> (found: Option<usize>)
        ensures
            found == lookup_key(entries@, type_key),
    {
        let mut j: usize = 0;
        proof {
            assert(entries@.skip(0) =~= entries@);
        }
        while j < entries.len()
            invariant
                j <= entries@.len(),
                forall|l: int| 0 <= l < j ==> (#[trigger] entries@[l]).0 != type_key,
                lookup_key(entries@, type_key) == lookup_key(entries@.skip(j as int), type_key),
            decreases entries@.len() - j,
        {
            let ghost rest = entries@.skip(j as int);
            if entries[j].0 == type_key {
                proof {
                    assert(rest.first() == entries@[j as int]);
                    reveal_with_fuel(lookup_key, 2);
                }
                return Some(entries[j].1);
            }
            j += 1;
            proof {
                assert(rest.first() == entries@[j - 1]);
                assert(rest.drop_first() =~= entries@.skip(j as int));
                reveal_with_fuel(lookup_key, 2);
            }
        }
        proof {
            assert(entries@.skip(j as int) =~= Seq::<(TypeKey, usize)>::empty());
            reveal_with_fuel(lookup_key, 1);
        }
        None
    }

    /// Registers a per-entity component type. Idempotent per key.
    pub fn add_component(&mut self, type_key: TypeKey, layout: TypeLayout) -> (id: ComponentId)
        requires
            old(self).wf(),
            layout.valid(),
            old(self).descriptors_seq().len() + BITMASK_BLOCK_SIZE < usize::MAX,
        ensures
            final(self).wf(),
            Components::register_spec(
                *old(self),
                *final(self),
                old(self).component_entries(),
                final(self).component_entries(),
                type_key,
                layout,
                id,
            ),
            final(self).resource_entries() == old(self).resource_entries(),
            id.id_spec() < final(self).descriptors_seq().len(),
            final(self).descriptors_seq()[id.id_spec() as int].type_key == type_key,
    {
        let found = Self::find_entry(&self.indices, type_key);
        proof {
            lemma_lookup_key_found(self.indices@, type_key);
        }
        match found {
            Some(index) => ComponentId(index),
            None => {
                let index = self.descriptors.len();
                let id = ComponentId(index);
                self.descriptors.push(ComponentDescriptor::of(id, type_key, layout));
                self.indices.push((type_key, index));
                proof {
                    lemma_lookup_key_found(old(self).indices@, type_key);
                    assert forall|j: int, l: int|
                        0 <= j < self.indices@.len() && 0 <= l < self.indices@.len() && j != l
                        implies (#[trigger] self.indices@[j]).0 != (#[trigger] self.indices@[l]).0 by {
                        if j == self.indices@.len() - 1 || l == self.indices@.len() - 1 {
                            lemma_lookup_key_some(old(self).indices@, type_key);
                        }
                    }
                }
                id
            },
        }
    }

    /// The descriptor of a registered component key, `None` for an unknown key.
    pub fn get_component(&self, type_key: TypeKey) -> (descriptor: Option<&ComponentDescriptor>)
        requires
            self.wf(),
        ensures
            match descriptor {
                Some(d) => {
                    &&& lookup_key(self.component_entries(), type_key) == Some(d.id.id_spec() as usize)
                    &&& d.type_key == type_key
                    &&& *d == self.descriptors_seq()[d.id.id_spec() as int]
                },
                None => lookup_key(self.component_entries(), type_key).is_none(),
            },
    {
        match Self::find_entry(&self.indices, type_key) {
            Some(index) => {
                proof {
                    lemma_lookup_key_found(self.indices@, type_key);
                }
                Some(&self.descriptors[index])
            },
            None => None,
        }
    }

    /// Registers a singleton resource type. Idempotent per key; draws ids
    /// from the same counter as components, so the id spaces are disjoint.
    pub fn add_resource(&mut self, type_key: TypeKey, layout: TypeLayout) -> (id: ComponentId)
        requires
            old(self).wf(),
            layout.valid(),
            old(self).descriptors_seq().len() + BITMASK_BLOCK_SIZE < usize::MAX,
        ensures
            final(self).wf(),
            Components::register_spec(
                *old(self),
                *final(self),
                old(self).resource_entries(),
                final(self).resource_entries(),
                type_key,
                layout,
                id,
            ),
            final(self).component_entries() == old(self).component_entries(),
            id.id_spec() < final(self).descriptors_seq().len(),
            final(self).descriptors_seq()[id.id_spec() as int].type_key == type_key,
    {
        let found = Self::find_entry(&self.resource_indices, type_key);
        proof {
            lemma_lookup_key_found(self.resource_indices@, type_key);
        }
        match found {
            Some(index) => ComponentId(index),
            None => {
                let index = self.descriptors.len();
                let id = ComponentId(index);
                self.descriptors.push(ComponentDescriptor::of(id, type_key, layout));
                self.resource_indices.push((type_key, index));
                proof {
                    lemma_lookup_key_found(old(self).resource_indices@, type_key);
                    assert forall|j: int, l: int|
                        0 <= j < self.resource_indices@.len() && 0 <= l < self.resource_indices@.len()
                            && j != l
                        implies (#[trigger] self.resource_indices@[j]).0
                            != (#[trigger] self.resource_indices@[l]).0 by {
                        if j == self.resource_indices@.len() - 1 || l == self.resource_indices@.len() - 1 {
                            lemma_lookup_key_some(old(self).resource_indices@, type_key);
                        }
                    }
                }
                id
            },
        }
    }

    /// The descriptor of a registered resource key, `None` for an unknown key.
    pub fn get_resource(&self, type_key: TypeKey) -> (descriptor: Option<&ComponentDescriptor>)
        requires
            self.wf(),
        ensures
            match descriptor {
                Some(d) => {
                    &&& lookup_key(self.resource_entries(), type_key) == Some(d.id.id_spec() as usize)
                    &&& d.type_key == type_key
                    &&& *d == self.descriptors_seq()[d.id.id_spec() as int]
                },
                None => lookup_key(self.resource_entries(), type_key).is_none(),
            },
    {
        match Self::find_entry(&self.resource_indices, type_key) {
            Some(index) => {
                proof {
                    lemma_lookup_key_found(self.resource_indices@, type_key);
                }
                Some(&self.descriptors[index])
            },
            None => None,
        }
    }
}

/// A successful lookup answers an entry of the table: some position holds
/// exactly the key and the answered index.
pub proof fn lemma_lookup_key_found(entries: Seq<(TypeKey, usize)>, key: TypeKey)
    ensures
        match lookup_key(entries, key) {
            Some(index) => exists|j: int|
                0 <= j < entries.len() && (#[trigger] entries[j]).0 == key && entries[j].1 == index,
            None => forall|j: int| 0 <= j < entries.len() ==> (#[trigger] entries[j]).0 != key,
        },
    decreases entries.len(),
{
    if entries.len() > 0 {
        if entries.first().0 == key {
            assert(entries[0].0 == key);
        } else {
            lemma_lookup_key_found(entries.drop_first(), key);
            match lookup_key(entries, key) {
                Some(index) => {
                    let j = choose|j: int|
                        0 <= j < entries.drop_first().len() && (#[trigger] entries.drop_first()[j]).0
                            == key && entries.drop_first()[j].1 == index;
                    assert(entries[j + 1].0 == key && entries[j + 1].1 == index);
                },
                None => {
                    assert forall|j: int| 0 <= j < entries.len() implies (#[trigger] entries[j]).0 != key by {
                        if j > 0 {
                            assert(entries.drop_first()[j - 1] == entries[j]);
                        }
                    }
                },
            }
        }
    }
}

/// A key that some entry of the table holds is found by lookup.
proof fn lemma_lookup_key_some(entries: Seq<(TypeKey, usize)>, key: TypeKey)
    requires
        lookup_key(entries, key).is_none(),
    ensures
        forall|j: int| 0 <= j < entries.len() ==> (#[trigger] entries[j]).0 != key,
{
    lemma_lookup_key_found(entries, key);
}

/// Law: registering the same component type twice answers the same
/// identity both times, and the registry is unchanged by the second call.
pub proof fn lemma_register_idempotent(
    c0: Components,
    c1: Components,
    c2: Components,
    type_key: TypeKey,
    layout1: TypeLayout,
    layout2: TypeLayout,
    id1: ComponentId,
    id2: ComponentId,
)
    requires
        Components::register_spec(
            c0,
            c1,
            c0.component_entries(),
            c1.component_entries(),
            type_key,
            layout1,
            id1,
        ),
        Components::register_spec(
            c1,
            c2,
            c1.component_entries(),
            c2.component_entries(),
            type_key,
            layout2,
            id2,
        ),
    ensures
        id2 == id1,
        c2.descriptors_seq() == c1.descriptors_seq(),
        c2.component_entries() == c1.component_entries(),
{
    match lookup_key(c0.component_entries(), type_key) {
        Some(index) => {},
        None => {
            lemma_lookup_key_push(c0.component_entries(), type_key, id1.id_spec() as usize);
        },
    }
    assert(id2.id_spec() == id1.id_spec());
    assert(id2 == id1);
}

/// Law: registering two distinct component types answers two distinct
/// identities, whether or not either was already known.
pub proof fn lemma_register_distinct(
    c0: Components,
    c1: Components,
    c2: Components,
    key1: TypeKey,
    key2: TypeKey,
    layout1: TypeLayout,
    layout2: TypeLayout,
    id1: ComponentId,
    id2: ComponentId,
)
    requires
        c0.wf(),
        c1.wf(),
        key1 != key2,
        Components::register_spec(
            c0,
            c1,
            c0.component_entries(),
            c1.component_entries(),
            key1,
            layout1,
            id1,
        ),
        Components::register_spec(
            c1,
            c2,
            c1.component_entries(),
            c2.component_entries(),
            key2,
            layout2,
            id2,
        ),
    ensures
        id1 != id2,
{
    lemma_lookup_key_found(c0.component_entries(), key1);
    lemma_lookup_key_found(c1.component_entries(), key2);
    match lookup_key(c0.component_entries(), key1) {
        Some(index1) => {
            assert(c0.descriptors_seq()[id1.id_spec() as int].type_key == key1);
            match lookup_key(c1.component_entries(), key2) {
                Some(index2) => {
                    assert(c1.descriptors_seq()[id2.id_spec() as int].type_key == key2);
                },
                None => {},
            }
        },
        None => {
            match lookup_key(c1.component_entries(), key2) {
                Some(index2) => {
                    assert(c1.descriptors_seq()[id2.id_spec() as int].type_key == key2);
                    assert(c1.descriptors_seq()[id1.id_spec() as int].type_key == key1);
                },
                None => {},
            }
        },
    }
}

/// Pushing a fresh key makes it found at the pushed index.
pub proof fn lemma_lookup_key_push(entries: Seq<(TypeKey, usize)>, key: TypeKey, index: usize)
    requires
        lookup_key(entries, key).is_none(),
    ensures
        lookup_key(entries.push((key, index)), key) == Some(index),
    decreases entries.len(),
{
    if entries.len() == 0 {
        assert(entries.push((key, index)).first() == (key, index));
        reveal_with_fuel(lookup_key, 2);
    } else {
        assert(entries.push((key, index)).first() == entries.first());
        assert(entries.push((key, index)).drop_first() =~= entries.drop_first().push((key, index)));
        lemma_lookup_key_push(entries.drop_first(), key, index);
    }
}


/// What a lookup answers, under the name query callers use.
pub proof fn lemma_lookup_key_entry(entries: Seq<(TypeKey, usize)>, key: TypeKey)
    ensures
        match lookup_key(entries, key) {
            Some(index) => exists|j: int|
                0 <= j < entries.len() && (#[trigger] entries[j]).0 == key && entries[j].1 == index,
            None => forall|j: int| 0 <= j < entries.len() ==> (#[trigger] entries[j]).0 != key,
        },
{
    lemma_lookup_key_found(entries, key);
}

/// Pushing one key's entry leaves every other key's lookup untouched.
pub proof fn lemma_lookup_key_push_other(
    entries: Seq<(TypeKey, usize)>,
    pushed_key: TypeKey,
    index: usize,
    key: TypeKey,
)
    requires
        key != pushed_key,
    ensures
        lookup_key(entries.push((pushed_key, index)), key) == lookup_key(entries, key),
    decreases entries.len(),
{
    if entries.len() == 0 {
        assert(entries.push((pushed_key, index)).first() == (pushed_key, index));
        reveal_with_fuel(lookup_key, 2);
    } else {
        assert(entries.push((pushed_key, index)).first() == entries.first());
        assert(entries.push((pushed_key, index)).drop_first() =~= entries.drop_first().push(
            (pushed_key, index),
        ));
        lemma_lookup_key_push_other(entries.drop_first(), pushed_key, index, key);
    }
}

} // verus!
