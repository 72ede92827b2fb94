//! The prototype resource registry: one value per erased type key, and
//! the read-only handle systems of the prototype received.

use vstd::prelude::*;

use crate::legacy::entity::{key_position, lemma_key_position};

verus! {

/// Singleton values keyed by erased type keys.
pub struct ResourceRegistry<V> {
    resources: Vec<(u64, V)>,
}

impl<V> ResourceRegistry<V> {
    /// The stored entries, in insertion order, first entry per key live.
    pub closed spec fn entries(&self) -> Seq<(u64, V)> {
        self.resources@
    }

    /// The live value of `type_key`.
    pub open spec fn value_of(&self, type_key: u64) -> Option<V> {
        match key_position(self.entries(), type_key) {
            Some(p) => Some(self.entries()[p].1),
            None => None,
        }
    }

    /// No key stored twice.
    pub closed spec fn wf(&self) -> bool {
        forall|j: int, l: int|
            0 <= j < l < self.resources@.len() ==> (#[trigger] self.resources@[j]).0 != (
            #[trigger] self.resources@[l]).0
    }

    pub fn new() -> (registry: ResourceRegistry<V>)
        ensures
            registry.wf(),
            registry.entries() == Seq::<(u64, V)>::empty(),
    {
        ResourceRegistry { resources: Vec::new() }
    }

    /// Stores `data` as the value of `type_key`, replacing what was there.
    pub fn save(&mut self, type_key: u64, data: V)
        requires
            old(self).wf(),
            old(self).entries().len() < usize::MAX,
        ensures
            final(self).wf(),
            final(self).value_of(type_key) == Some(data),
            forall|other: u64|
                other != type_key ==> #[trigger] final(self).value_of(other) == old(self).value_of(
                    other,
                ),
    {
        match self.find_key(type_key) {
            Some(position) => {
                let ghost pre = self.resources@;
                self.resources.set(position, (type_key, data));
                proof {
                    lemma_key_position(pre, type_key);
                    lemma_key_position_update(pre, self.resources@, position as int, type_key);
                    assert forall|other: u64|
                        other != type_key implies #[trigger] self.value_of(other) == old(
                            self,
                        ).value_of(other) by {
                        lemma_key_position(pre, other);
                        lemma_key_position_update_other(pre, self.resources@, position as int, other);
                        match key_position(pre, other) {
                            Some(p) => {
                                assert(pre[p].0 == other);
                                assert(p != position);
                                assert(self.resources@[p] == pre[p]);
                            },
                            None => {},
                        }
                    }
                }
            },
            None => {
                let ghost pre = self.resources@;
                self.resources.push((type_key, data));
                proof {
                    lemma_key_position_grown(pre, self.resources@, type_key);
                    assert(self.resources@[pre.len() as int].0 == type_key);
                    lemma_key_position(self.resources@, type_key);
                    let p = key_position(self.resources@, type_key).unwrap();
                    assert forall|j: int, l: int| 0 <= j < l < self.resources@.len()
                        implies (#[trigger] self.resources@[j]).0 != (
                        #[trigger] self.resources@[l]).0 by {
                        lemma_key_position(pre, self.resources@[j].0);
                        if l < pre.len() {
                            assert(self.resources@[j] == pre[j]);
                            assert(self.resources@[l] == pre[l]);
                        } else {
                            assert(self.resources@[j] == pre[j]);
                            if pre[j].0 == type_key {
                                lemma_key_position_member(pre, j);
                            }
                        }
                    }
                    if p < pre.len() {
                        assert(self.resources@[p] == pre[p]);
                        lemma_key_position_member(pre, p);
                    }
                    assert forall|other: u64|
                        other != type_key implies #[trigger] self.value_of(other) == old(
                            self,
                        ).value_of(other) by {
                        lemma_key_position_grown_other(pre, self.resources@, other);
                    }
                }
            },
        }
    }

    /// A shared view of the value of `type_key`.
    pub fn get_ref(&self, type_key: u64) -> (value: Option<&V>)
        ensures
            match value {
                Some(v) => self.value_of(type_key) == Some(*v),
                None => self.value_of(type_key) is None,
            },
    {
        match self.find_key(type_key) {
            Some(position) => {
                proof {
                    lemma_key_position(self.entries(), type_key);
                }
                Some(&self.resources[position].1)
            },
            None => None,
        }
    }

    /// An exclusive view of the value of `type_key`.
    pub fn get_mut(&mut self, type_key: u64) -> (value: Option<&mut V>)
        requires
            old(self).wf(),
        ensures
            final(self).wf(),
            match value {
                Some(v) => match key_position(old(self).entries(), type_key) {
                    Some(p) => {
                        &&& *v == old(self).entries()[p].1
                        &&& final(self).entries() == old(self).entries().update(
                            p,
                            (type_key, *final(v)),
                        )
                    },
                    None => false,
                },
                None => key_position(old(self).entries(), type_key) is None && final(self).entries()
                    == old(self).entries(),
            },
    {
        match self.find_key(type_key) {
            Some(position) => {
                proof {
                    lemma_key_position(self.entries(), type_key);
                }
                let entry = &mut self.resources[position];
                let value = &mut entry.1;
                proof {
                    assert(after_borrow(self).resources@ == old(self).resources@.update(
                        position as int,
                        (old(self).resources@[position as int].0, *final(value)),
                    ));
                    assert forall|j: int, l: int|
                        0 <= j < l < after_borrow(self).resources@.len()
                        implies (#[trigger] after_borrow(self).resources@[j]).0 != (
                        #[trigger] after_borrow(self).resources@[l]).0 by {
                        if j != position {
                            assert(after_borrow(self).resources@[j] == old(self).resources@[j]);
                        }
                        if l != position {
                            assert(after_borrow(self).resources@[l] == old(self).resources@[l]);
                        }
                    }
                }
                Some(value)
            },
            None => None,
        }
    }

    /// Forgets the value of `type_key`.
    pub fn delete(&mut self, type_key: u64)
        requires
            old(self).wf(),
        ensures
            final(self).wf(),
            final(self).value_of(type_key) is None,
            forall|other: u64|
                other != type_key ==> #[trigger] final(self).value_of(other) == old(self).value_of(
                    other,
                ),
    {
        match self.find_key(type_key) {
            Some(position) => {
                let ghost pre = self.resources@;
                proof {
                    lemma_key_position(pre, type_key);
                }
                let _ = self.resources.remove(position);
                proof {
                    lemma_key_position_removed(pre, self.resources@, position as int, type_key);
                }
            },
            None => {
                proof {
                    assert(final(self).value_of(type_key) is None);
                }
            },
        }
    }

    /// Position of the entry for `type_key`.
    fn find_key(&self, type_key: u64) -> (position: Option<usize>)
        ensures
            match position {
                Some(p) => key_position(self.entries(), type_key) == Some(p as int) && p
                    < self.entries().len(),
                None => key_position(self.entries(), type_key) is None,
            },
    {
        let mut j: usize = 0;
        proof {
            assert(self.entries().skip(0) =~= self.entries());
        }
        while j < self.resources.len()
            invariant
                j <= self.entries().len(),
                match key_position(self.entries().skip(j as int), type_key) {
                    Some(p) => key_position(self.entries(), type_key) == Some(p + j),
                    None => key_position(self.entries(), type_key) is None,
                },
                forall|l: int| 0 <= l < j ==> (#[trigger] self.entries()[l]).0 != type_key,
            decreases self.entries().len() - j,
        {
            let ghost rest = self.entries().skip(j as int);
            if self.resources[j].0 == type_key {
                proof {
                    assert(rest.first() == self.entries()[j as int]);
                    reveal_with_fuel(key_position, 2);
                    lemma_key_position(self.entries(), type_key);
                }
                return Some(j);
            }
            j += 1;
            proof {
                assert(rest.first() == self.entries()[j - 1]);
                assert(rest.drop_first() =~= self.entries().skip(j as int));
                reveal_with_fuel(key_position, 2);
            }
        }
        proof {
            assert(self.entries().skip(j as int) =~= Seq::<(u64, V)>::empty());
            reveal_with_fuel(key_position, 1);
        }
        None
    }
}

/// A key found at `witness` is found by the search.
proof fn lemma_key_position_member<A>(entries: Seq<(u64, A)>, witness: int)
    requires
        0 <= witness < entries.len(),
    ensures
        key_position(entries, entries[witness].0) is Some,
    decreases entries.len(),
{
    if entries.first().0 != entries[witness].0 {
        assert(entries.drop_first()[witness - 1] == entries[witness]);
        lemma_key_position_member(entries.drop_first(), witness - 1);
    }
}

/// Updating the found entry in place keeps it the found entry.
proof fn lemma_key_position_update<A>(pre: Seq<(u64, A)>, post: Seq<(u64, A)>, position: int, key: u64)
    requires
        0 <= position < pre.len(),
        key_position(pre, key) == Some(position),
        post == pre.update(position, (key, post[position].1)),
        post[position].0 == key,
    ensures
        key_position(post, key) == Some(position),
    decreases pre.len(),
{
    if position == 0 {
        assert(post.first().0 == key);
    } else {
        assert(post.first() == pre.first());
        assert(post.drop_first() =~= pre.drop_first().update(position - 1, post[position]));
        lemma_key_position_update(pre.drop_first(), post.drop_first(), position - 1, key);
    }
}

/// Updating one entry leaves every other key's search alone.
pub proof fn lemma_key_position_update_other<A>(pre: Seq<(u64, A)>, post: Seq<(u64, A)>, position: int, other: u64)
    requires
        0 <= position < pre.len(),
        post.len() == pre.len(),
        forall|l: int| 0 <= l < pre.len() && l != position ==> post[l] == pre[l],
        post[position].0 == pre[position].0,
    ensures
        key_position(post, other) == key_position(pre, other),
        match key_position(pre, other) {
            Some(p) => p != position ==> post[p] == pre[p],
            None => true,
        },
    decreases pre.len(),
{
    lemma_key_position(pre, other);
    if pre.len() > 0 {
        assert(post.first().0 == pre.first().0);
        if pre.first().0 != other {
            assert(post.drop_first().len() == pre.drop_first().len());
            if position == 0 {
                assert forall|l: int| 0 <= l < pre.drop_first().len()
                    implies post.drop_first()[l] == pre.drop_first()[l] by {
                    assert(post[l + 1] == pre[l + 1]);
                }
                lemma_key_position_same(pre.drop_first(), post.drop_first(), other);
            } else {
                assert forall|l: int|
                    0 <= l < pre.drop_first().len() && l != position - 1
                    implies post.drop_first()[l] == pre.drop_first()[l] by {
                    assert(post[l + 1] == pre[l + 1]);
                }
                assert(post.drop_first()[position - 1].0 == pre.drop_first()[position - 1].0);
                lemma_key_position_update_other(pre.drop_first(), post.drop_first(), position - 1, other);
            }
        }
    }
}

/// Equal lists search equally.
proof fn lemma_key_position_same<A>(pre: Seq<(u64, A)>, post: Seq<(u64, A)>, key: u64)
    requires
        post.len() == pre.len(),
        forall|l: int| 0 <= l < pre.len() ==> post[l] == pre[l],
    ensures
        key_position(post, key) == key_position(pre, key),
{
    assert(post =~= pre);
}

/// A list grown at the end keeps every earlier key found unchanged, and a
/// key absent before is found only at the new entry.
proof fn lemma_key_position_grown<A>(pre: Seq<(u64, A)>, post: Seq<(u64, A)>, key: u64)
    requires
        key_position(pre, key) is None,
        post.len() == pre.len() + 1,
        forall|l: int| 0 <= l < pre.len() ==> post[l] == pre[l],
        post.last().0 == key,
    ensures
        key_position(post, key) == Some(pre.len() as int),
    decreases pre.len(),
{
    if pre.len() == 0 {
        assert(post.first().0 == key);
    } else {
        assert(post.first() == pre.first());
        assert forall|l: int| 0 <= l < pre.drop_first().len()
            implies post.drop_first()[l] == pre.drop_first()[l] by {
            assert(post[l + 1] == pre[l + 1]);
        }
        assert(post.drop_first().len() == pre.drop_first().len() + 1);
        assert(post.drop_first().last() == post.last());
        lemma_key_position_grown(pre.drop_first(), post.drop_first(), key);
    }
}

/// A list grown at the end leaves other keys' searches alone.
proof fn lemma_key_position_grown_other<A>(pre: Seq<(u64, A)>, post: Seq<(u64, A)>, other: u64)
    requires
        post.len() == pre.len() + 1,
        forall|l: int| 0 <= l < pre.len() ==> post[l] == pre[l],
        post.last().0 != other,
    ensures
        key_position(post, other) == key_position(pre, other),
        match key_position(pre, other) {
            Some(p) => post[p] == pre[p],
            None => true,
        },
    decreases pre.len(),
{
    lemma_key_position(pre, other);
    if pre.len() == 0 {
        assert(post.first().0 != other);
        reveal_with_fuel(key_position, 2);
    } else {
        assert(post.first() == pre.first());
        if pre.first().0 != other {
            assert forall|l: int| 0 <= l < pre.drop_first().len()
                implies post.drop_first()[l] == pre.drop_first()[l] by {
                assert(post[l + 1] == pre[l + 1]);
            }
            assert(post.drop_first().len() == pre.drop_first().len() + 1);
            assert(post.drop_first().last() == post.last());
            lemma_key_position_grown_other(pre.drop_first(), post.drop_first(), other);
        }
    }
}

/// Removing the only entry of a key makes it unfindable and leaves other
/// keys' values alone.
proof fn lemma_key_position_removed<A>(pre: Seq<(u64, A)>, post: Seq<(u64, A)>, position: int, key: u64)
    requires
        0 <= position < pre.len(),
        key_position(pre, key) == Some(position),
        forall|j: int, l: int|
            0 <= j < l < pre.len() ==> (#[trigger] pre[j]).0 != (#[trigger] pre[l]).0,
        post == pre.remove(position),
    ensures
        key_position(post, key) is None,
        forall|j: int, l: int|
            0 <= j < l < post.len() ==> (#[trigger] post[j]).0 != (#[trigger] post[l]).0,
        forall|other: u64|
            other != key ==> match #[trigger] key_position(post, other) {
                Some(q) => key_position(pre, other) is Some && post[q] == pre[key_position(
                    pre,
                    other,
                ).unwrap()],
                None => key_position(pre, other) is None,
            },
{
    lemma_key_position(pre, key);
    assert forall|j: int, l: int| 0 <= j < l < post.len()
        implies (#[trigger] post[j]).0 != (#[trigger] post[l]).0 by {
        let wj: int = if j < position { j } else { j + 1 };
        let wl: int = if l < position { l } else { l + 1 };
        assert(post[j] == pre[wj]);
        assert(post[l] == pre[wl]);
    }
    lemma_key_position(post, key);
    match key_position(post, key) {
        Some(q) => {
            let wq: int = if q < position { q } else { q + 1 };
            assert(post[q] == pre[wq]);
            assert(pre[wq].0 == key);
            assert(pre[position].0 == key);
            assert(false);
        },
        None => {},
    }
    assert forall|other: u64| other != key implies match #[trigger] key_position(post, other) {
        Some(q) => key_position(pre, other) is Some && post[q] == pre[key_position(
            pre,
            other,
        ).unwrap()],
        None => key_position(pre, other) is None,
    } by {
        lemma_key_position(post, other);
        lemma_key_position(pre, other);
        match key_position(post, other) {
            Some(q) => {
                let wq: int = if q < position { q } else { q + 1 };
                assert(post[q] == pre[wq]);
                lemma_key_position_member(pre, wq);
                let p0 = key_position(pre, other).unwrap();
                assert(pre[p0].0 == other);
                assert(p0 == wq || pre[p0].0 == pre[wq].0);
                if p0 != wq {
                    assert(false);
                }
            },
            None => {
                match key_position(pre, other) {
                    Some(p0) => {
                        assert(pre[p0].0 == other);
                        assert(p0 != position);
                        let q: int = if p0 < position { p0 } else { p0 - 1 };
                        assert(post[q] == pre[p0]);
                        lemma_key_position_member(post, q);
                        assert(false);
                    },
                    None => {},
                }
            },
        }
    }
}

/// The read-only handle a system receives for one resource.
pub struct Res<'w, T> {
    val: &'w T,
}

impl<'w, T> Res<'w, T> {
    pub closed spec fn val_spec(&self) -> T {
        *self.val
    }

    pub fn new(val: &'w T) -> (res: Res<'w, T>)
        ensures
            res.val_spec() == *val,
    {
        Res { val }
    }

    /// The borrowed resource value.
    pub fn get(&self) -> (val: &'w T)
        ensures
            *val == self.val_spec(),
    {
        self.val
    }
}

/// Resolves a `Res` parameter from the prototype resource registry.
pub struct ResFetch {
}

impl ResFetch {
    /// The handle for the value of `type_key`, absent when never saved.
    pub fn get_param<'w, V>(registry: &'w ResourceRegistry<V>, type_key: u64) -> (param: Option<
        Res<'w, V>,
    >)
        ensures
            match param {
                Some(res) => registry.value_of(type_key) == Some(res.val_spec()),
                None => registry.value_of(type_key) is None,
            },
    {
        match registry.get_ref(type_key) {
            Some(value) => Some(Res::new(value)),
            None => None,
        }
    }
}

} // verus!
