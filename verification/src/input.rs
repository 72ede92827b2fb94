//! Bookkeeping of input key states: pressed, repeated, released.
//!
//! Keys are erased to plain codes ([`KeyCode`]); the embedding application
//! maps its physical and virtual key identities onto codes. A key pressed
//! while already pressed becomes repeated; releasing moves it to released;
//! `clear` and `forget` retire codes from the sets.

use vstd::prelude::*;

verus! {

/// The erased identity of one input key.
pub type KeyCode = u64;

/// The three state sets of the keyboard-like input device.
pub struct InputRegistry {
    pressed: Vec<KeyCode>,
    repeated: Vec<KeyCode>,
    released: Vec<KeyCode>,
}

impl InputRegistry {
    /// The keys currently pressed for the first time.
    pub closed spec fn pressed_set(&self) -> Set<KeyCode> {
        self.pressed@.to_set()
    }

    /// The keys held long enough to repeat.
    pub closed spec fn repeated_set(&self) -> Set<KeyCode> {
        self.repeated@.to_set()
    }

    /// The keys released and not yet cleared.
    pub closed spec fn released_set(&self) -> Set<KeyCode> {
        self.released@.to_set()
    }

    pub closed spec fn wf(&self) -> bool {
        &&& unique_codes(self.pressed@)
        &&& unique_codes(self.repeated@)
        &&& unique_codes(self.released@)
    }

    pub fn new() -> (registry: InputRegistry)
        ensures
            registry.wf(),
            registry.pressed_set() == Set::<KeyCode>::empty(),
            registry.repeated_set() == Set::<KeyCode>::empty(),
            registry.released_set() == Set::<KeyCode>::empty(),
    {
        let registry = InputRegistry { pressed: Vec::new(), repeated: Vec::new(), released: Vec::new() };
        proof {
            assert(registry.pressed@.to_set() =~= Set::<KeyCode>::empty());
            assert(registry.repeated@.to_set() =~= Set::<KeyCode>::empty());
            assert(registry.released@.to_set() =~= Set::<KeyCode>::empty());
        }
        registry
    }

    /// A first press records the key as pressed; pressing an
    /// already-pressed key turns it into a repeat.
    pub fn press(&mut self, input: KeyCode)
        requires
            old(self).wf(),
        ensures
            final(self).wf(),
            if old(self).pressed_set().contains(input) {
                &&& final(self).pressed_set() == old(self).pressed_set().remove(input)
                &&& final(self).repeated_set() == old(self).repeated_set().insert(input)
            } else {
                &&& final(self).pressed_set() == old(self).pressed_set().insert(input)
                &&& final(self).repeated_set() == old(self).repeated_set()
            },
            final(self).released_set() == old(self).released_set(),
    {
        if codes_contain(&self.pressed, input) {
            self.repeat(input);
        } else {
            codes_insert(&mut self.pressed, input);
        }
    }

    /// Marks the key repeated, no longer freshly pressed.
    pub fn repeat(&mut self, input: KeyCode)
        requires
            old(self).wf(),
        ensures
            final(self).wf(),
            final(self).pressed_set() == old(self).pressed_set().remove(input),
            final(self).repeated_set() == old(self).repeated_set().insert(input),
            final(self).released_set() == old(self).released_set(),
    {
        codes_remove(&mut self.pressed, input);
        codes_insert(&mut self.repeated, input);
    }

    /// Marks the key released, retiring press and repeat.
    pub fn release(&mut self, input: KeyCode)
        requires
            old(self).wf(),
        ensures
            final(self).wf(),
            final(self).pressed_set() == old(self).pressed_set().remove(input),
            final(self).repeated_set() == old(self).repeated_set().remove(input),
            final(self).released_set() == old(self).released_set().insert(input),
    {
        codes_remove(&mut self.pressed, input);
        codes_remove(&mut self.repeated, input);
        codes_insert(&mut self.released, input);
    }

    /// Retires the key from the pressed and released sets.
    pub fn clear(&mut self, input: KeyCode)
        requires
            old(self).wf(),
        ensures
            final(self).wf(),
            final(self).pressed_set() == old(self).pressed_set().remove(input),
            final(self).repeated_set() == old(self).repeated_set(),
            final(self).released_set() == old(self).released_set().remove(input),
    {
        codes_remove(&mut self.pressed, input);
        codes_remove(&mut self.released, input);
    }

    /// Retires the key from every set.
    pub fn forget(&mut self, input: KeyCode)
        requires
            old(self).wf(),
        ensures
            final(self).wf(),
            final(self).pressed_set() == old(self).pressed_set().remove(input),
            final(self).repeated_set() == old(self).repeated_set().remove(input),
            final(self).released_set() == old(self).released_set().remove(input),
    {
        codes_remove(&mut self.pressed, input);
        codes_remove(&mut self.repeated, input);
        codes_remove(&mut self.released, input);
    }

    pub fn is_pressed(&self, input: KeyCode) -> (pressed: bool)
        ensures
            pressed == self.pressed_set().contains(input),
    {
        codes_contain(&self.pressed, input)
    }

    pub fn is_repeated(&self, input: KeyCode) -> (repeated: bool)
        ensures
            repeated == self.repeated_set().contains(input),
    {
        codes_contain(&self.repeated, input)
    }

    pub fn is_released(&self, input: KeyCode) -> (released: bool)
        ensures
            released == self.released_set().contains(input),
    {
        codes_contain(&self.released, input)
    }
}

/// No code stands in the list twice.
pub open spec fn unique_codes(codes: Seq<KeyCode>) -> bool {
    forall|j: int, l: int| 0 <= j < l < codes.len() ==> codes[j] != codes[l]
}

/// Whether `codes` holds `code`.
fn codes_contain(codes: &Vec<KeyCode>, code: KeyCode) -> (found: bool)
    ensures
        found == codes@.to_set().contains(code),
{
    let mut j: usize = 0;
    while j < codes.len()
        invariant
            j <= codes@.len(),
            forall|l: int| 0 <= l < j ==> codes@[l] != code,
        decreases codes@.len() - j,
    {
        if codes[j] == code {
            assert(codes@.contains(code));
            return true;
        }
        j += 1;
    }
    proof {
        if codes@.contains(code) {
            let w = choose|w: int| 0 <= w < codes@.len() && codes@[w] == code;
        }
    }
    false
}

/// Adds `code` to the set, keeping uniqueness.
fn codes_insert(codes: &mut Vec<KeyCode>, code: KeyCode)
    requires
        unique_codes(old(codes)@),
    ensures
        unique_codes(final(codes)@),
        final(codes)@.to_set() == old(codes)@.to_set().insert(code),
{
    if codes_contain(codes, code) {
        proof {
            assert(codes@.to_set() =~= old(codes)@.to_set().insert(code));
        }
        return;
    }
    let ghost pre = codes@;
    codes.push(code);
    proof {
        assert forall|j: int, l: int| 0 <= j < l < codes@.len() implies codes@[j] != codes@[l] by {
            if l < pre.len() {
                assert(codes@[j] == pre[j] && codes@[l] == pre[l]);
            } else {
                assert(codes@[j] == pre[j]);
                if pre.to_set().contains(code) {
                }
                assert(!pre.contains(code));
            }
        }
        assert(codes@.to_set() =~= pre.to_set().insert(code)) by {
            assert forall|x: KeyCode| codes@.to_set().contains(x)
                implies pre.to_set().insert(code).contains(x) by {
                let w = choose|w: int| 0 <= w < codes@.len() && codes@[w] == x;
                if w < pre.len() {
                    assert(pre[w] == x);
                    assert(pre.contains(x));
                }
            }
            assert forall|x: KeyCode| pre.to_set().insert(code).contains(x)
                implies codes@.to_set().contains(x) by {
                if x == code {
                    assert(codes@.last() == x);
                } else {
                    let w = choose|w: int| 0 <= w < pre.len() && pre[w] == x;
                    assert(codes@[w] == x);
                }
                assert(codes@.contains(x));
            }
        }
    }
}

/// Drops `code` from the set, keeping uniqueness.
fn codes_remove(codes: &mut Vec<KeyCode>, code: KeyCode)
    requires
        unique_codes(old(codes)@),
    ensures
        unique_codes(final(codes)@),
        final(codes)@.to_set() == old(codes)@.to_set().remove(code),
{
    let ghost pre = codes@;
    let mut j: usize = 0;
    while j < codes.len()
        invariant
            j <= codes@.len(),
            codes@ == pre,
            pre == old(codes)@,
            unique_codes(pre),
            forall|l: int| 0 <= l < j ==> pre[l] != code,
        decreases codes@.len() - j,
    {
        if codes[j] == code {
            let _ = codes.swap_remove(j);
            proof {
                let post = codes@;
                assert(post == pre.update(j as int, pre.last()).drop_last());
                assert forall|a: int, b: int| 0 <= a < b < post.len()
                    implies post[a] != post[b] by {
                    let wa: int = if a == j as int { pre.len() - 1 } else { a };
                    let wb: int = if b == j as int { pre.len() - 1 } else { b };
                    assert(post[a] == pre[wa]);
                    assert(post[b] == pre[wb]);
                }
                assert(post.to_set() =~= pre.to_set().remove(code)) by {
                    assert(pre[j as int] == code);
                    assert forall|x: KeyCode| post.to_set().contains(x)
                        implies pre.to_set().remove(code).contains(x) by {
                        let w = choose|w: int| 0 <= w < post.len() && post[w] == x;
                        if w == j as int {
                            assert(pre[pre.len() - 1] == x);
                        } else {
                            assert(pre[w] == x);
                        }
                        assert(pre.contains(x));
                    }
                    assert forall|x: KeyCode| pre.to_set().remove(code).contains(x)
                        implies post.to_set().contains(x) by {
                        let w = choose|w: int| 0 <= w < pre.len() && pre[w] == x;
                        if w == j as int {
                            assert(false);
                        } else if w == pre.len() - 1 {
                            assert(post[j as int] == x);
                        } else {
                            assert(post[w] == x);
                        }
                        assert(post.contains(x));
                    }
                }
            }
            return;
        }
        j += 1;
    }
    proof {
        if codes@.contains(code) {
            let w = choose|w: int| 0 <= w < codes@.len() && codes@[w] == code;
        }
        assert(codes@.to_set() =~= old(codes)@.to_set().remove(code));
    }
}

} // verus!
