//! The prototype entity registry: one table of every entity, components
//! marked by single bits of a per-entity machine word.
//!
//! Component types are named by erased type keys and hold values of one
//! caller-chosen value type `V`; each registered type owns one bit and one
//! option column. An entity has a component exactly when its key word has
//! the component's bit, and the cell then holds the value.

use vstd::prelude::*;

use crate::legacy::error::EcsFault;

verus! {

/// Index of one entity in the prototype registry.
pub type EntityId = usize;

/// The per-entity component membership word.
pub type EntityKey = u64;

/// An entity of the prototype registry, by index.
pub struct Entity {
    pub entt_id: EntityId,
}

/// The prototype registry: per-type option columns in lockstep with the
/// entity key words.
pub struct EntityRegistry<V> {
    components: Vec<(u64, Vec<Option<V>>)>,
    entities: Vec<EntityKey>,
    cmp_bitmasks: Vec<(u64, u64)>,
}

/// Position of the entry for type key `key`, front to back.
pub open spec fn key_position<A>(entries: Seq<(u64, A)>, key: u64) -> Option<int>
    decreases entries.len(),
{
    if entries.len() == 0 {
        None
    } else if entries.first().0 == key {
        Some(0)
    } else {
        match key_position(entries.drop_first(), key) {
            Some(p) => Some(p + 1),
            None => None,
        }
    }
}

/// What a key search answers about the entry list.
pub proof fn lemma_key_position<A>(entries: Seq<(u64, A)>, key: u64)
    ensures
        match key_position(entries, key) {
            Some(p) => 0 <= p < entries.len() && entries[p].0 == key,
            None => forall|j: int| 0 <= j < entries.len() ==> (#[trigger] entries[j]).0 != key,
        },
    decreases entries.len(),
{
    if entries.len() > 0 && entries.first().0 != key {
        lemma_key_position(entries.drop_first(), key);
        if key_position(entries, key) is None {
            assert forall|j: int| 0 <= j < entries.len() implies (#[trigger] entries[j]).0 != key by {
                if j > 0 {
                    assert(entries.drop_first()[j - 1] == entries[j]);
                }
            }
        }
    }
}

/// The bit word of `key` in `masks`, zero when unregistered.
pub open spec fn mask_or_zero(masks: Seq<(u64, u64)>, key: u64) -> u64 {
    match key_position(masks, key) {
        Some(p) => masks[p].1,
        None => 0u64,
    }
}

/// The union of the bit words of the component keys of `components` from
/// position `from` on.
pub open spec fn spawn_mask<V>(masks: Seq<(u64, u64)>, components: Seq<(u64, V)>, from: int) -> u64
    decreases components.len() - from,
{
    if from < 0 || from >= components.len() {
        0u64
    } else {
        mask_or_zero(masks, components[from].0) | spawn_mask(masks, components, from + 1)
    }
}

/// Two entry lists with the same keys at the same positions are searched
/// identically.
pub proof fn lemma_key_position_same_keys<A>(s1: Seq<(u64, A)>, s2: Seq<(u64, A)>)
    requires
        s1.len() == s2.len(),
        forall|l: int| 0 <= l < s1.len() ==> (#[trigger] s1[l]).0 == s2[l].0,
    ensures
        forall|key: u64| #[trigger] key_position(s1, key) == key_position(s2, key),
    decreases s1.len(),
{
    if s1.len() > 0 {
        assert(s1[0].0 == s2[0].0);
        assert forall|l: int| 0 <= l < s1.drop_first().len()
            implies (#[trigger] s1.drop_first()[l]).0 == s2.drop_first()[l].0 by {
            assert(s1[l + 1].0 == s2[l + 1].0);
        }
        lemma_key_position_same_keys(s1.drop_first(), s2.drop_first());
        assert forall|key: u64| #[trigger] key_position(s1, key) == key_position(s2, key) by {
            assert(key_position(s1.drop_first(), key) == key_position(s2.drop_first(), key));
        }
    }
}

impl<V> EntityRegistry<V> {
    /// The per-type columns, in registration order.
    pub closed spec fn columns(&self) -> Seq<(u64, Seq<Option<V>>)> {
        Seq::new(self.components@.len(), |j: int| (self.components@[j].0, self.components@[j].1@))
    }

    /// The per-entity membership words.
    pub closed spec fn keys(&self) -> Seq<EntityKey> {
        self.entities@
    }

    /// The registered bitmasks, in registration order.
    pub closed spec fn bitmasks(&self) -> Seq<(u64, u64)> {
        self.cmp_bitmasks@
    }

    /// The bit word of type key `key`, if registered.
    pub open spec fn bitmask_of(&self, key: u64) -> Option<u64> {
        match key_position(self.bitmasks(), key) {
            Some(p) => Some(self.bitmasks()[p].1),
            None => None,
        }
    }

    /// The column of type key `key`, if registered.
    pub open spec fn column_of(&self, key: u64) -> Option<Seq<Option<V>>> {
        match key_position(self.columns(), key) {
            Some(p) => Some(self.columns()[p].1),
            None => None,
        }
    }

    /// Soundness: one column and one mask per registered key, columns in
    /// lockstep with the entity list.
    pub closed spec fn wf(&self) -> bool {
        &&& forall|j: int|
            0 <= j < self.components@.len() ==> (#[trigger] self.components@[j]).1@.len()
                == self.entities@.len()
        &&& self.cmp_bitmasks@.len() <= 64
    }

    pub fn new() -> (registry: EntityRegistry<V>)
        ensures
            registry.wf(),
            registry.columns() == Seq::<(u64, Seq<Option<V>>)>::empty(),
            registry.keys() == Seq::<EntityKey>::empty(),
            registry.bitmasks() == Seq::<(u64, u64)>::empty(),
    {
        let registry = EntityRegistry { components: Vec::new(), entities: Vec::new(), cmp_bitmasks: Vec::new() };
        proof {
            assert(registry.columns() =~= Seq::<(u64, Seq<Option<V>>)>::empty());
        }
        registry
    }

    /// Registers a component type under `type_key`: one empty cell per
    /// existing entity, and the next free bit.
    pub fn register_component(&mut self, type_key: u64)
        requires
            old(self).wf(),
            old(self).bitmasks().len() < 64,
        ensures
            final(self).wf(),
            final(self).keys() == old(self).keys(),
            final(self).bitmasks() == old(self).bitmasks().push(
                (type_key, (1u64 << old(self).bitmasks().len())),
            ),
            final(self).columns().len() == old(self).columns().len() + 1,
            forall|j: int|
                0 <= j < old(self).columns().len() ==> #[trigger] final(self).columns()[j] == old(
                    self,
                ).columns()[j],
            final(self).columns().last() == (
                type_key,
                Seq::new(old(self).keys().len() as nat, |e: int| None::<V>),
            ),
    {
        let ghost pre = self.columns();
        let mut column: Vec<Option<V>> = Vec::new();
        let rows = self.entities.len();
        let mut e: usize = 0;
        while e < rows
            invariant
                e <= rows,
                column@ =~= Seq::new(e as nat, |k: int| None::<V>),
            decreases rows - e,
        {
            column.push(None);
            proof {
                assert(column@ =~= Seq::new((e + 1) as nat, |k: int| None::<V>));
            }
            e += 1;
        }
        self.components.push((type_key, column));
        let bit_index = self.cmp_bitmasks.len() as u64;
        let bitmask = 1u64 << bit_index;
        self.cmp_bitmasks.push((type_key, bitmask));
        proof {
            assert forall|j: int| 0 <= j < pre.len()
                implies #[trigger] self.columns()[j] == pre[j] by {
                assert(self.components@[j] == old(self).components@[j]);
            }
            assert(self.columns().last() == (
                type_key,
                Seq::new(old(self).keys().len() as nat, |e: int| None::<V>),
            ));
        }
    }

    /// Adds one entity with no components yet, growing every column by an
    /// empty cell, and hands back a prototype to fill it.
    pub fn new_entity(&mut self) -> (prototype: EntityPrototype<V>)
        requires
            old(self).wf(),
            old(self).keys().len() < usize::MAX,
        ensures
            final(self).wf(),
            final(self).keys() == old(self).keys().push(0u64),
            final(self).bitmasks() == old(self).bitmasks(),
            final(self).columns().len() == old(self).columns().len(),
            forall|j: int|
                0 <= j < old(self).columns().len() ==> {
                    &&& (#[trigger] final(self).columns()[j]).0 == old(self).columns()[j].0
                    &&& final(self).columns()[j].1 == old(self).columns()[j].1.push(None::<V>)
                },
            prototype.entt_id_spec() == old(self).keys().len(),
            prototype.components_spec() == Seq::<(u64, V)>::empty(),
    {
        self.entities.push(0);
        let count = self.components.len();
        let mut j: usize = 0;
        while j < count
            invariant
                j <= count,
                count == self.components@.len(),
                count == old(self).components@.len(),
                self.entities@ == old(self).entities@.push(0u64),
                self.cmp_bitmasks@ == old(self).cmp_bitmasks@,
                forall|l: int|
                    j <= l < count ==> #[trigger] self.components@[l] == old(self).components@[l],
                forall|l: int|
                    0 <= l < j ==> {
                        &&& (#[trigger] self.components@[l]).0 == old(self).components@[l].0
                        &&& self.components@[l].1@ == old(self).components@[l].1@.push(None::<V>)
                    },
            decreases count - j,
        {
            let ghost pre = self.components@;
            self.components[j].1.push(None);
            proof {
                assert forall|l: int| 0 <= l < count && l != j
                    implies #[trigger] self.components@[l] == pre[l] by {}
            }
            j += 1;
        }
        let entt_id = self.entities.len() - 1;
        proof {
            assert(old(self).wf());
        }
        EntityPrototype { entt_id, components: Vec::new() }
    }

    /// Places a prototype's component values: each value goes to its
    /// column's cell for the entity, and the entity's key word gains the
    /// component's bit. Values of unregistered keys are ignored.
    pub fn spawn(&mut self, entt_id: EntityId, components: Vec<(u64, V)>)
        requires
            old(self).wf(),
            entt_id < old(self).keys().len(),
        ensures
            final(self).wf(),
            final(self).keys().len() == old(self).keys().len(),
            final(self).bitmasks() == old(self).bitmasks(),
            final(self).keys()[entt_id as int] == (old(self).keys()[entt_id as int] | spawn_mask(
                old(self).bitmasks(),
                components@,
                0,
            )),
            forall|e: int|
                0 <= e < old(self).keys().len() && e != entt_id ==> final(self).keys()[e] == old(
                    self,
                ).keys()[e],
            forall|i: int|
                0 <= i < components@.len() && old(self).bitmask_of((#[trigger] components@[i]).0) is Some
                    && key_position(old(self).columns(), components@[i].0) is Some && (forall|j: int|
                    0 <= j < i ==> (#[trigger] components@[j]).0 != components@[i].0) ==> match final(self).column_of(components@[i].0) {
                    Some(column) => column[entt_id as int] == Some(components@[i].1),
                    None => false,
                },
    {
        let mut rest = components;
        let ghost all = rest@;
        proof {
            assert(rest@ =~= all.take(rest@.len() as int));
            let start_key = self.keys()[entt_id as int];
            assert(start_key | 0u64 == start_key) by (bit_vector);
        }
        loop
            invariant
                self.wf(),
                entt_id < self.keys().len(),
                self.keys().len() == old(self).keys().len(),
                self.cmp_bitmasks@ == old(self).cmp_bitmasks@,
                all == components@,
                rest@ == all.take(rest@.len() as int),
                rest@.len() <= all.len(),
                self.keys()[entt_id as int] == (old(self).keys()[entt_id as int] | spawn_mask(
                    old(self).bitmasks(),
                    all,
                    rest@.len() as int,
                )),
                forall|e: int|
                    0 <= e < old(self).keys().len() && e != entt_id ==> self.keys()[e] == old(
                        self,
                    ).keys()[e],
                self.bitmasks() == old(self).bitmasks(),
                self.columns().len() == old(self).columns().len(),
                forall|c: int|
                    0 <= c < self.columns().len() ==> (#[trigger] self.columns()[c]).0 == old(
                        self,
                    ).columns()[c].0 && self.columns()[c].1.len() == old(self).columns()[c].1.len(),
                forall|i: int|
                    rest@.len() <= i < all.len() && old(self).bitmask_of((#[trigger] all[i]).0) is Some
                        && key_position(old(self).columns(), all[i].0) is Some && (forall|j: int|
                        rest@.len() <= j < i ==> (#[trigger] all[j]).0 != all[i].0) ==> match self.column_of(
                        all[i].0,
                    ) {
                        Some(column) => column[entt_id as int] == Some(all[i].1),
                        None => false,
                    },
            decreases rest@.len(),
        {
            let ghost pre_key = self.keys()[entt_id as int];
            let ghost pre_len = rest@.len() as int;
            let ghost pre_cols = self.columns();
            let next = rest.pop();
            match next {
                Some((type_key, value)) => {
                    proof {
                        assert(all.take(pre_len)[pre_len - 1] == all[pre_len - 1]);
                        assert(rest@ =~= all.take(pre_len - 1));
                    }
                    let outcome = self.replace_component_of_entity(type_key, entt_id, value);
                    proof {
                        let masks = old(self).bitmasks();
                        let step = mask_or_zero(masks, all[pre_len - 1].0);
                        lemma_key_position(masks, type_key);
                        match outcome {
                            Ok(_) => {
                                assert(self.keys()[entt_id as int] == (pre_key | step));
                            },
                            Err(_) => {
                                assert(step == 0u64);
                                assert(pre_key | 0u64 == pre_key) by (bit_vector);
                                assert(self.keys()[entt_id as int] == (pre_key | step));
                            },
                        }
                        let base = old(self).keys()[entt_id as int];
                        let accumulated = spawn_mask(masks, all, pre_len);
                        assert((base | accumulated) | step == base | (step | accumulated))
                            by (bit_vector);
                        assert(spawn_mask(masks, all, pre_len - 1) == (step | spawn_mask(
                            masks,
                            all,
                            pre_len,
                        )));

                        lemma_key_position_same_keys(pre_cols, old(self).columns());
                        lemma_key_position(pre_cols, type_key);
                        lemma_key_position(old(self).columns(), type_key);
                        assert forall|i: int|
                            pre_len - 1 <= i < all.len() && old(self).bitmask_of(
                                (#[trigger] all[i]).0,
                            ) is Some && key_position(old(self).columns(), all[i].0) is Some && (
                            forall|j: int|
                                pre_len - 1 <= j < i ==> (#[trigger] all[j]).0 != all[i].0)
                            implies match self.column_of(all[i].0) {
                                Some(column) => column[entt_id as int] == Some(all[i].1),
                                None => false,
                            } by {
                            lemma_key_position(old(self).columns(), all[i].0);
                            lemma_key_position(self.columns(), all[i].0);
                            lemma_key_position_same_keys(self.columns(), old(self).columns());
                            if i == pre_len - 1 {
                                assert(outcome is Ok);
                                let p = key_position(pre_cols, type_key).unwrap();
                            } else {
                                assert(all[pre_len - 1].0 != all[i].0);
                                let q = key_position(old(self).columns(), all[i].0).unwrap();
                                assert(pre_cols[q].0 == all[i].0);
                                match key_position(pre_cols, type_key) {
                                    Some(p) => {
                                        assert(pre_cols[p].0 == type_key);
                                        assert(p != q);
                                        assert(self.columns()[q] == pre_cols[q]);
                                    },
                                    None => {
                                        assert(self.columns()[q] == pre_cols[q]);
                                    },
                                }
                            }
                        }
                    }
                },
                None => {
                    return;
                },
            }
        }
    }

    /// The value of component `type_key` on an entity.
    pub fn get_component_of_entity(&self, type_key: u64, entt_id: EntityId) -> (result: Result<
        &V,
        EcsFault,
    >)
        requires
            self.wf(),
        ensures
            match result {
                Ok(value) => {
                    &&& entt_id < self.keys().len()
                    &&& self.bitmask_of(type_key) is Some
                    &&& match self.column_of(type_key) {
                        Some(column) => column[entt_id as int] == Some(*value),
                        None => false,
                    }
                },
                Err(fault) => match fault {
                    EcsFault::EntityNotCreated => entt_id >= self.keys().len(),
                    EcsFault::ComponentNotRegistered => entt_id < self.keys().len()
                        && self.bitmask_of(type_key) is None,
                    EcsFault::NoComponentOnEntity => entt_id < self.keys().len() && match self.bitmask_of(
                        type_key,
                    ) {
                        Some(mask) => self.keys()[entt_id as int] & mask != mask || match self.column_of(
                            type_key,
                        ) {
                            Some(column) => column[entt_id as int] is None,
                            None => true,
                        },
                        None => false,
                    },
                },
            },
    {
        if let Err(fault) = self.everything_ok(type_key, entt_id) {
            return Err(fault);
        }
        let position = match self.find_column(type_key) {
            Some(position) => position,
            None => {
                return Err(EcsFault::NoComponentOnEntity);
            },
        };
        if entt_id >= self.components[position].1.len() {
            return Err(EcsFault::NoComponentOnEntity);
        }
        proof {
            assert(self.columns()[position as int].1 == self.components@[position as int].1@);
        }
        match &self.components[position].1[entt_id] {
            Some(value) => Ok(value),
            None => Err(EcsFault::NoComponentOnEntity),
        }
    }

    /// Sets component `type_key` of an entity to `data`, marking the bit.
    pub fn replace_component_of_entity(&mut self, type_key: u64, entt_id: EntityId, data: V) -> (result:
        Result<(), EcsFault>)
        requires
            old(self).wf(),
        ensures
            final(self).wf(),
            final(self).keys().len() == old(self).keys().len(),
            final(self).bitmasks() == old(self).bitmasks(),
            match result {
                Ok(_) => {
                    &&& entt_id < old(self).keys().len()
                    &&& old(self).bitmask_of(type_key) is Some
                    &&& final(self).keys()[entt_id as int] == (old(self).keys()[entt_id as int]
                        | old(self).bitmask_of(type_key).unwrap())
                    &&& forall|e: int|
                        0 <= e < old(self).keys().len() && e != entt_id ==> final(self).keys()[e] == old(
                            self,
                        ).keys()[e]
                    &&& match key_position(old(self).columns(), type_key) {
                        Some(p) => {
                            &&& final(self).columns().len() == old(self).columns().len()
                            &&& forall|l: int|
                                0 <= l < old(self).columns().len() && l != p ==> #[trigger] final(self).columns()[l] == old(self).columns()[l]
                            &&& final(self).columns()[p].0 == old(self).columns()[p].0
                            &&& final(self).columns()[p].1 == old(self).columns()[p].1.update(
                                entt_id as int,
                                Some(data),
                            )
                        },
                        None => final(self).columns() == old(self).columns(),
                    }
                },
                Err(fault) => final(self).keys() == old(self).keys() && final(self).columns() == old(
                    self,
                ).columns() && match fault {
                    EcsFault::EntityNotCreated => entt_id >= old(self).keys().len(),
                    EcsFault::ComponentNotRegistered => entt_id < old(self).keys().len() && old(
                        self,
                    ).bitmask_of(type_key) is None,
                    EcsFault::NoComponentOnEntity => false,
                },
            },
    {
        if entt_id >= self.entities.len() {
            return Err(EcsFault::EntityNotCreated);
        }
        let bitmask = match self.find_bitmask(type_key) {
            Some(bitmask) => bitmask,
            None => {
                return Err(EcsFault::ComponentNotRegistered);
            },
        };

        let column_position = self.find_column(type_key);
        match column_position {
            Some(position) => {
                let ghost pre = self.components@;
                let ghost pre_columns = self.columns();
                let column = &mut self.components[position].1;
                proof {
                    assert(column@.len() == self.entities@.len());
                }
                column.set(entt_id, Some(data));
                proof {
                    assert forall|l: int|
                        0 <= l < self.components@.len() implies (#[trigger] self.components@[l]).1@.len()
                            == self.entities@.len() by {
                        if l != position {
                            assert(self.components@[l] == pre[l]);
                        }
                    }
                    assert forall|l: int|
                        0 <= l < pre_columns.len() && l != position
                        implies #[trigger] self.columns()[l] == pre_columns[l] by {
                        assert(self.components@[l] == pre[l]);
                    }
                    assert(self.columns()[position as int].1 =~= pre_columns[position as int].1.update(
                        entt_id as int,
                        Some(data),
                    ));
                }
            },
            None => {},
        }

        let keys = &mut self.entities;
        let current = keys[entt_id];
        keys.set(entt_id, current | bitmask);
        Ok(())
    }

    /// Unmarks component `type_key` of an entity and empties its cell.
    pub fn delete_component_of_entity(&mut self, type_key: u64, entt_id: EntityId) -> (result: Result<
        (),
        EcsFault,
    >)
        requires
            old(self).wf(),
        ensures
            final(self).wf(),
            final(self).keys().len() == old(self).keys().len(),
            final(self).bitmasks() == old(self).bitmasks(),
            match result {
                Ok(_) => {
                    &&& entt_id < old(self).keys().len()
                    &&& old(self).bitmask_of(type_key) is Some
                    &&& final(self).keys()[entt_id as int] == (old(self).keys()[entt_id as int] & !old(
                        self,
                    ).bitmask_of(type_key).unwrap())
                    &&& forall|e: int|
                        0 <= e < old(self).keys().len() && e != entt_id ==> final(self).keys()[e] == old(
                            self,
                        ).keys()[e]
                },
                Err(fault) => final(self).keys() == old(self).keys(),
            },
    {
        if entt_id >= self.entities.len() {
            return Err(EcsFault::EntityNotCreated);
        }
        let bitmask = match self.find_bitmask(type_key) {
            Some(bitmask) => bitmask,
            None => {
                return Err(EcsFault::ComponentNotRegistered);
            },
        };

        let column_position = self.find_column(type_key);
        match column_position {
            Some(position) => {
                let ghost pre = self.components@;
                let column = &mut self.components[position].1;
                if entt_id < column.len() {
                    column.set(entt_id, None);
                }
                proof {
                    assert forall|l: int|
                        0 <= l < self.components@.len() implies (#[trigger] self.components@[l]).1@.len()
                            == self.entities@.len() by {
                        if l != position {
                            assert(self.components@[l] == pre[l]);
                        }
                    }
                }
            },
            None => {},
        }

        let keys = &mut self.entities;
        let current = keys[entt_id];
        keys.set(entt_id, current & !bitmask);
        Ok(())
    }

    /// The bit word registered for `type_key`.
    pub fn get_bitmask(&self, type_key: u64) -> (result: Result<u64, EcsFault>)
        ensures
            match result {
                Ok(mask) => self.bitmask_of(type_key) == Some(mask),
                Err(fault) => self.bitmask_of(type_key) is None && fault
                    == EcsFault::ComponentNotRegistered,
            },
    {
        match self.find_bitmask(type_key) {
            Some(mask) => Ok(mask),
            None => Err(EcsFault::ComponentNotRegistered),
        }
    }

    /// The membership word of one entity.
    pub fn get_entity(&self, entt_id: EntityId) -> (result: Result<&EntityKey, EcsFault>)
        ensures
            match result {
                Ok(key) => entt_id < self.keys().len() && *key == self.keys()[entt_id as int],
                Err(fault) => entt_id >= self.keys().len() && fault == EcsFault::EntityNotCreated,
            },
    {
        if entt_id >= self.entities.len() {
            return Err(EcsFault::EntityNotCreated);
        }
        Ok(&self.entities[entt_id])
    }

    /// Whether an entity has the component of `type_key`.
    pub fn has_component(&self, type_key: u64, entt_id: EntityId) -> (result: Result<bool, EcsFault>)
        ensures
            match result {
                Ok(has) => {
                    &&& entt_id < self.keys().len()
                    &&& match self.bitmask_of(type_key) {
                        Some(mask) => has == (self.keys()[entt_id as int] & mask == mask),
                        None => false,
                    }
                },
                Err(fault) => match fault {
                    EcsFault::ComponentNotRegistered => self.bitmask_of(type_key) is None,
                    EcsFault::EntityNotCreated => self.bitmask_of(type_key) is Some && entt_id
                        >= self.keys().len(),
                    EcsFault::NoComponentOnEntity => false,
                },
            },
    {
        let bitmask = match self.find_bitmask(type_key) {
            Some(bitmask) => bitmask,
            None => {
                return Err(EcsFault::ComponentNotRegistered);
            },
        };
        self.has_component_util(entt_id, bitmask)
    }

    /// Whether an entity's word holds every bit of `bitmask`.
    fn has_component_util(&self, entt_id: EntityId, bitmask: u64) -> (result: Result<bool, EcsFault>)
        ensures
            match result {
                Ok(has) => entt_id < self.keys().len() && has == (self.keys()[entt_id as int] & bitmask
                    == bitmask),
                Err(fault) => entt_id >= self.keys().len() && fault == EcsFault::EntityNotCreated,
            },
    {
        if !self.contains_entity(entt_id) {
            return Err(EcsFault::EntityNotCreated);
        }
        Ok(self.entities[entt_id] & bitmask == bitmask)
    }

    /// Whether an entity of this index was created.
    pub fn contains_entity(&self, entt_id: EntityId) -> (contained: bool)
        ensures
            contained == (entt_id < self.keys().len()),
    {
        entt_id < self.entities.len()
    }

    /// Entity exists, component registered, entity has the component.
    fn everything_ok(&self, type_key: u64, entt_id: EntityId) -> (result: Result<(), EcsFault>)
        ensures
            match result {
                Ok(_) => {
                    &&& entt_id < self.keys().len()
                    &&& match self.bitmask_of(type_key) {
                        Some(mask) => self.keys()[entt_id as int] & mask == mask,
                        None => false,
                    }
                },
                Err(fault) => match fault {
                    EcsFault::EntityNotCreated => entt_id >= self.keys().len(),
                    EcsFault::ComponentNotRegistered => entt_id < self.keys().len()
                        && self.bitmask_of(type_key) is None,
                    EcsFault::NoComponentOnEntity => entt_id < self.keys().len() && match self.bitmask_of(
                        type_key,
                    ) {
                        Some(mask) => self.keys()[entt_id as int] & mask != mask,
                        None => false,
                    },
                },
            },
    {
        if !self.contains_entity(entt_id) {
            return Err(EcsFault::EntityNotCreated);
        }
        let present = match self.has_component(type_key, entt_id) {
            Ok(present) => present,
            Err(fault) => {
                return Err(fault);
            },
        };
        if !present {
            return Err(EcsFault::NoComponentOnEntity);
        }
        Ok(())
    }

    /// Position of the column registered for `type_key`.
    fn find_column(&self, type_key: u64) -> (position: Option<usize>)
        ensures
            match position {
                Some(p) => key_position(self.columns(), type_key) == Some(p as int) && p
                    < self.columns().len(),
                None => key_position(self.columns(), type_key) is None,
            },
    {
        let mut j: usize = 0;
        proof {
            assert(self.columns().skip(0) =~= self.columns());
        }
        while j < self.components.len()
            invariant
                j <= self.components@.len(),
                self.columns().len() == self.components@.len(),
                match key_position(self.columns().skip(j as int), type_key) {
                    Some(p) => key_position(self.columns(), type_key) == Some(p + j),
                    None => key_position(self.columns(), type_key) is None,
                },
                forall|l: int| 0 <= l < j ==> (#[trigger] self.columns()[l]).0 != type_key,
            decreases self.components@.len() - j,
        {
            let ghost rest = self.columns().skip(j as int);
            if self.components[j].0 == type_key {
                proof {
                    assert(rest.first() == self.columns()[j as int]);
                    reveal_with_fuel(key_position, 2);
                    lemma_key_position(self.columns(), type_key);
                }
                return Some(j);
            }
            j += 1;
            proof {
                assert(rest.first() == self.columns()[j - 1]);
                assert(rest.drop_first() =~= self.columns().skip(j as int));
                reveal_with_fuel(key_position, 2);
            }
        }
        proof {
            assert(self.columns().skip(j as int) =~= Seq::<(u64, Seq<Option<V>>)>::empty());
            reveal_with_fuel(key_position, 1);
        }
        None
    }

    /// The bit word registered for `type_key`.
    fn find_bitmask(&self, type_key: u64) -> (mask: Option<u64>)
        ensures
            mask == self.bitmask_of(type_key),
    {
        let mut j: usize = 0;
        proof {
            assert(self.bitmasks().skip(0) =~= self.bitmasks());
        }
        while j < self.cmp_bitmasks.len()
            invariant
                j <= self.bitmasks().len(),
                match key_position(self.bitmasks().skip(j as int), type_key) {
                    Some(p) => key_position(self.bitmasks(), type_key) == Some(p + j),
                    None => key_position(self.bitmasks(), type_key) is None,
                },
                forall|l: int| 0 <= l < j ==> (#[trigger] self.bitmasks()[l]).0 != type_key,
            decreases self.bitmasks().len() - j,
        {
            let ghost rest = self.bitmasks().skip(j as int);
            if self.cmp_bitmasks[j].0 == type_key {
                proof {
                    assert(rest.first() == self.bitmasks()[j as int]);
                    reveal_with_fuel(key_position, 2);
                    lemma_key_position(self.bitmasks(), type_key);
                }
                return Some(self.cmp_bitmasks[j].1);
            }
            j += 1;
            proof {
                assert(rest.first() == self.bitmasks()[j - 1]);
                assert(rest.drop_first() =~= self.bitmasks().skip(j as int));
                reveal_with_fuel(key_position, 2);
            }
        }
        proof {
            assert(self.bitmasks().skip(j as int) =~= Seq::<(u64, u64)>::empty());
            reveal_with_fuel(key_position, 1);
        }
        None
    }
}

/// A not-yet-spawned entity: its index and the components to place.
pub struct EntityPrototype<V> {
    entt_id: EntityId,
    components: Vec<(u64, V)>,
}

impl<V> EntityPrototype<V> {
    pub closed spec fn entt_id_spec(&self) -> EntityId {
        self.entt_id
    }

    pub closed spec fn components_spec(&self) -> Seq<(u64, V)> {
        self.components@
    }

    pub fn new(entt_id: EntityId) -> (prototype: EntityPrototype<V>)
        ensures
            prototype.entt_id_spec() == entt_id,
            prototype.components_spec() == Seq::<(u64, V)>::empty(),
    {
        EntityPrototype { entt_id, components: Vec::new() }
    }

    /// Adds one component value under its type key.
    pub fn with_component(self, type_key: u64, data: V) -> (prototype: EntityPrototype<V>)
        requires
            self.components_spec().len() < usize::MAX,
        ensures
            prototype.entt_id_spec() == self.entt_id_spec(),
            prototype.components_spec() == self.components_spec().push((type_key, data)),
    {
        let mut components = self.components;
        components.push((type_key, data));
        EntityPrototype { entt_id: self.entt_id, components }
    }

    /// Places the collected components into the registry and reports the
    /// entity's index.
    pub fn spawn(self, registry: &mut EntityRegistry<V>) -> (entt_id: EntityId)
        requires
            old(registry).wf(),
            self.entt_id_spec() < old(registry).keys().len(),
        ensures
            final(registry).wf(),
            final(registry).keys().len() == old(registry).keys().len(),
            final(registry).bitmasks() == old(registry).bitmasks(),
            entt_id == self.entt_id_spec(),
            final(registry).keys()[entt_id as int] == (old(registry).keys()[entt_id as int]
                | spawn_mask(old(registry).bitmasks(), self.components_spec(), 0)),
            forall|e: int|
                0 <= e < old(registry).keys().len() && e != entt_id ==> final(registry).keys()[e]
                    == old(registry).keys()[e],
            forall|i: int|
                0 <= i < self.components_spec().len() && old(registry).bitmask_of(
                    (#[trigger] self.components_spec()[i]).0,
                ) is Some && key_position(old(registry).columns(), self.components_spec()[i].0) is Some
                    && (forall|j: int|
                    0 <= j < i ==> (#[trigger] self.components_spec()[j]).0
                        != self.components_spec()[i].0) ==> match final(registry).column_of(
                    self.components_spec()[i].0,
                ) {
                    Some(column) => column[entt_id as int] == Some(self.components_spec()[i].1),
                    None => false,
                },
    {
        let entt_id = self.entt_id;
        registry.spawn(entt_id, self.components);
        entt_id
    }
}

} // verus!
