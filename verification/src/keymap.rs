//! The 16-key input latch.
//!
//! The machine's keypad has keys `0x0` through `0xF`. The host translates
//! its own key events onto that layout and feeds them in here; the engine
//! asks which keys are currently held and which key was pressed most
//! recently.

use vstd::prelude::*;

verus! {

/// Number of keys on the keypad.
pub const KEY_COUNT: usize = 16;

/// What the engine can observe of the input latch: which keys are held,
/// and the most recently pressed key, if any.
pub ghost struct KeyMapView {
    pub held: Seq<bool>,
    pub recent: Option<u8>,
}

impl KeyMapView {
    /// Whether the key with value `key` is currently held. Values outside
    /// the keypad are never held.
    pub open spec fn pressed(&self, key: u8) -> bool {
        key < 16 && self.held[key as int]
    }
}

/// The input latch: one flag per key, plus the most recently pressed key.
pub struct KeyMap {
    active: Vec<bool>,
    recent: Option<u8>,
}

impl View for KeyMap {
    type V = KeyMapView;

    closed spec fn view(&self) -> KeyMapView {
        KeyMapView { held: self.active@, recent: self.recent }
    }
}

impl KeyMap {
    /// One flag per key; a recorded key is always on the keypad.
    pub open spec fn wf(&self) -> bool {
        &&& self@.held.len() == KEY_COUNT
        &&& match self@.recent {
            Some(k) => k < 16,
            None => true,
        }
    }

    /// A latch with no key held and none pressed yet.
    pub fn new() -> (m: KeyMap)
        ensures
            m.wf(),
            m@.held == Seq::new(KEY_COUNT as nat, |i: int| false),
            m@.recent is None,
    {
        let mut active: Vec<bool> = Vec::new();
        let mut n: usize = 0;
        while n < KEY_COUNT
            invariant
                n <= KEY_COUNT,
                active@.len() == n,
                forall|i: int| 0 <= i < n ==> !active@[i],
            decreases KEY_COUNT - n,
        {
            active.push(false);
            n = n + 1;
        }
        proof {
            assert(active@ =~= Seq::new(KEY_COUNT as nat, |i: int| false));
        }
        KeyMap { active, recent: None }
    }

    /// Record that `key` went down: it is now held and is the most recent
    /// press. A value outside the keypad is ignored.
    pub fn add_key(&mut self, key: u8)
        requires
            old(self).wf(),
        ensures
            final(self).wf(),
            key < 16 ==> final(self)@.held == old(self)@.held.update(key as int, true)
                && final(self)@.recent == Some(key),
            key >= 16 ==> final(self)@ == old(self)@,
    {
        if key < 16 {
            self.active[key as usize] = true;
            self.recent = Some(key);
        }
    }

    /// Record that `key` came back up: it is no longer held. The most
    /// recent press is kept. A value outside the keypad is ignored.
    pub fn remove_key(&mut self, key: u8)
        requires
            old(self).wf(),
        ensures
            final(self).wf(),
            key < 16 ==> final(self)@.held == old(self)@.held.update(key as int, false),
            key >= 16 ==> final(self)@.held == old(self)@.held,
            final(self)@.recent == old(self)@.recent,
    {
        if key < 16 {
            self.active[key as usize] = false;
        }
    }

    /// Whether the key with value `key` is currently held.
    pub fn is_key_pressed(&self, key: u8) -> (held: bool)
        requires
            self.wf(),
        ensures
            held == self@.pressed(key),
    {
        if key < 16 {
            self.active[key as usize]
        } else {
            false
        }
    }

    /// The most recently pressed key, if any key was pressed since the
    /// latch was last cleared.
    pub fn most_recent_key(&self) -> (key: Option<u8>)
        requires
            self.wf(),
        ensures
            key == self@.recent,
    {
        self.recent
    }

    /// Forget all held keys and the most recent press.
    pub fn clear(&mut self)
        requires
            old(self).wf(),
        ensures
            final(self).wf(),
            final(self)@.held == Seq::new(KEY_COUNT as nat, |i: int| false),
            final(self)@.recent is None,
    {
        let mut n: usize = 0;
        while n < KEY_COUNT
            invariant
                n <= KEY_COUNT,
                self.wf(),
                forall|i: int| 0 <= i < n ==> !self@.held[i],
                self@.recent == old(self)@.recent,
            decreases KEY_COUNT - n,
        {
            self.active[n] = false;
            n = n + 1;
        }
        self.recent = None;
        proof {
            assert(self@.held =~= Seq::new(KEY_COUNT as nat, |i: int| false));
        }
    }
}

} // verus!
