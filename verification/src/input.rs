//! The keyboard as the systems see it: which keys are down, and which
//! callbacks a key press calls for.

use vstd::prelude::*;

verus! {

/// The number of keys that are tracked; keys are numbered from 0.
pub const KEY_COUNT: usize = 168;

/// Bit `b` of `x` is set.
pub open spec fn bit_of(x: u8, b: u8) -> bool {
    (x >> b) & 1 == 1
}

/// The positions, among the first `k` callbacks, of those registered for
/// `key`, in registration order.
pub open spec fn registered_for<F>(callbacks: Seq<(usize, F)>, key: usize, k: int) -> Seq<usize>
    decreases k,
{
    if k <= 0 {
        Seq::empty()
    } else if callbacks[k - 1].0 == key {
        registered_for(callbacks, key, k - 1).push((k - 1) as usize)
    } else {
        registered_for(callbacks, key, k - 1)
    }
}

/// The state of the keys, one bit per key, and the callbacks registered for
/// key presses. The callbacks themselves are the host's to call.
pub struct InputHandler<F> {
    /// Key `k` is bit `k % 8` of byte `k / 8`: 0 is up, 1 is down.
    pub keys: [u8; 21],
    /// Each callback with the key it was registered for, in registration
    /// order.
    pub callbacks: Vec<(usize, F)>,
}

impl<F> InputHandler<F> {
    /// Key `key` is down.
    pub open spec fn down(&self, key: usize) -> bool {
        bit_of(self.keys@[(key / 8) as int], (key % 8) as u8)
    }

    /// Creates a handler with every key up and no callbacks.
    pub fn new() -> (handler: Self)
        ensures
            forall|key: usize| key < KEY_COUNT ==> !#[trigger] handler.down(key),
            handler.callbacks@.len() == 0,
    {
        let handler = InputHandler { keys: [0u8; 21], callbacks: Vec::new() };
        proof {
            assert forall|key: usize| key < KEY_COUNT implies !#[trigger] handler.down(key) by {
                let b = (key % 8) as u8;
                assert((0u8 >> b) & 1 == 0) by (bit_vector);
            }
        }
        handler
    }

    /// Whether key `key` is down.
    pub fn is_down(&self, key: usize) -> (down: bool)
        requires
            key < KEY_COUNT,
        ensures
            down == self.down(key),
    {
        let bit = (key % 8) as u8;
        let byte = self.keys[key / 8];
        proof {
            assert(((byte & (1u8 << bit)) != 0) == ((byte >> bit) & 1 == 1)) by (bit_vector)
                requires
                    bit < 8,
            ;
        }
        byte & (1u8 << bit) != 0
    }

    /// Registers `callback` for presses of `key`, after those registered
    /// before.
    pub fn register_callback(&mut self, key: usize, callback: F)
        ensures
            final(self).callbacks@ == old(self).callbacks@.push((key, callback)),
            final(self).keys == old(self).keys,
    {
        self.callbacks.push((key, callback));
    }

    /// Records that `key` went down (`pressed`) or up. Every other key stays
    /// as it was. On a press the result lists the callbacks to call: those
    /// registered for `key`, by position and in registration order. On a
    /// release it is empty.
    pub fn handle_key_press(&mut self, key: usize, pressed: bool) -> (due: Vec<usize>)
        requires
            key < KEY_COUNT,
        ensures
            final(self).down(key) == pressed,
            forall|other: usize|
                other < KEY_COUNT && other != key ==> #[trigger] final(self).down(other) == old(
                    self,
                ).down(other),
            final(self).callbacks == old(self).callbacks,
            due@ == if pressed {
                registered_for(old(self).callbacks@, key, old(self).callbacks@.len() as int)
            } else {
                Seq::<usize>::empty()
            },
    {
        let index = key / 8;
        let bit = (key % 8) as u8;
        let byte = self.keys[index];
        let changed = if pressed {
            byte | (1u8 << bit)
        } else {
            byte & !(1u8 << bit)
        };
        self.keys[index] = changed;
        proof {
            assert(bit_of(changed, bit) == pressed) by {
                assert(((byte | (1u8 << bit)) >> bit) & 1 == 1) by (bit_vector)
                    requires
                        bit < 8,
                ;
                assert(((byte & !(1u8 << bit)) >> bit) & 1 == 0) by (bit_vector)
                    requires
                        bit < 8,
                ;
            }
            assert forall|other: usize| other < KEY_COUNT && other != key implies #[trigger] self.down(
                other,
            ) == old(self).down(other) by {
                if other / 8 == index {
                    let c = (other % 8) as u8;
                    assert(c != bit);
                    assert(((byte | (1u8 << bit)) >> c) & 1 == (byte >> c) & 1) by (bit_vector)
                        requires
                            bit < 8,
                            c < 8,
                            c != bit,
                    ;
                    assert(((byte & !(1u8 << bit)) >> c) & 1 == (byte >> c) & 1) by (bit_vector)
                        requires
                            bit < 8,
                            c < 8,
                            c != bit,
                    ;
                }
            }
        }
        let mut due: Vec<usize> = Vec::new();
        if pressed {
            let mut p: usize = 0;
            while p < self.callbacks.len()
                invariant
                    p <= self.callbacks@.len(),
                    due@ == registered_for(self.callbacks@, key, p as int),
                decreases self.callbacks@.len() - p,
            {
                if self.callbacks[p].0 == key {
                    due.push(p);
                }
                p += 1;
            }
        }
        due
    }
}

} // verus!
