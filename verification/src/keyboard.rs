//! The 16-key input device as the CPU sees it: a bank of key-down flags that
//! the external driver updates between cycles.

use vstd::prelude::*;

verus! {

/// Number of keys on the hexadecimal keypad.
pub const KEY_COUNT: usize = 16;

/// Whether any key in `keys` is currently down.
pub open spec fn has_pressed(keys: Seq<bool>) -> bool {
    exists|k: int| 0 <= k < 16 && keys[k]
}

/// The lowest key index at or above `k` that is down, or 16 if none is.
pub open spec fn first_pressed_from(keys: Seq<bool>, k: int) -> int
    decreases 16 - k,
{
    if k < 0 || k >= 16 {
        16
    } else if keys[k] {
        k
    } else {
        first_pressed_from(keys, k + 1)
    }
}

/// The lowest key index that is down, or 16 if none is.
pub open spec fn first_pressed(keys: Seq<bool>) -> int {
    first_pressed_from(keys, 0)
}

/// When some key at or above `k` is down, the scan from `k` finds a down
/// key.
proof fn lemma_first_pressed_from(keys: Seq<bool>, k: int)
    requires
        0 <= k <= 16,
        exists|i: int| k <= i < 16 && keys[i],
    ensures
        k <= first_pressed_from(keys, k) < 16,
        keys[first_pressed_from(keys, k)],
    decreases 16 - k,
{
    if !keys[k] {
        let i = choose|i: int| k <= i < 16 && keys[i];
        assert(k + 1 <= i < 16 && keys[i]);
        lemma_first_pressed_from(keys, k + 1);
    }
}

/// When any key is down, `first_pressed` names a down key in range.
pub proof fn lemma_first_pressed(keys: Seq<bool>)
    requires
        has_pressed(keys),
    ensures
        0 <= first_pressed(keys) < 16,
        keys[first_pressed(keys)],
{
    lemma_first_pressed_from(keys, 0);
}

/// The key state bank. `keys[k]` is true iff key `k` (0x0..=0xF) is down.
pub struct Keyboard {
    pub keys: Vec<bool>,
}

impl View for Keyboard {
    type V = Seq<bool>;

    open spec fn view(&self) -> Seq<bool> {
        self.keys@
    }
}

impl Keyboard {
    /// There is always exactly one flag per key.
    pub open spec fn wf(&self) -> bool {
        self@.len() == 16
    }

    /// A fresh keyboard with every key up.
    pub fn new() -> (kb: Keyboard)
        ensures
            kb.wf(),
            forall|k: int| 0 <= k < 16 ==> !kb@[k],
    {
        let mut keys: Vec<bool> = Vec::new();
        let mut i: usize = 0;
        while i < KEY_COUNT
            invariant
                i <= 16,
                keys@.len() == i,
                forall|k: int| 0 <= k < i ==> !keys@[k],
            decreases 16 - i,
        {
            keys.push(false);
            i = i + 1;
        }
        Keyboard { keys }
    }

    /// Record that key `key` went down (`down == true`) or up.
    pub fn set_key(&mut self, key: usize, down: bool)
        requires
            old(self).wf(),
            key < 16,
        ensures
            final(self).wf(),
            final(self)@ == old(self)@.update(key as int, down),
    {
        self.keys.set(key, down);
    }

    /// Whether key `key` is currently down.
    pub fn is_pressed(&self, key: usize) -> (r: bool)
        requires
            self.wf(),
            key < 16,
        ensures
            r == self@[key as int],
    {
        self.keys[key]
    }

    /// The lowest key that is currently down, if any.
    pub fn first_pressed(&self) -> (r: Option<u8>)
        requires
            self.wf(),
        ensures
            match r {
                Some(k) => k == first_pressed(self@) && k < 16 && self@[k as int],
                None => !has_pressed(self@),
            },
    {
        let mut i: usize = 0;
        while i < KEY_COUNT
            invariant
                self.wf(),
                i <= 16,
                first_pressed(self@) == first_pressed_from(self@, i as int),
                forall|k: int| 0 <= k < i ==> !self@[k],
            decreases 16 - i,
        {
            if self.keys[i] {
                return Some(i as u8);
            }
            i = i + 1;
        }
        proof {
            assert(forall|k: int| 0 <= k < 16 ==> !self@[k]);
        }
        None
    }
}

} // verus!
