use vstd::prelude::*;

verus! {

/// Number of keys on the input device.
pub const NUM_KEYS: usize = 16;

/// The input device as the interpreter sees it.
pub trait Keyboard {
    /// Which keys are held, indexed by key code.
    spec fn held(&self) -> Seq<bool>;

    /// Whether `key` is held; a code past the last key is never held.
    fn is_pressed(&self, key: u8) -> (r: bool)
        ensures
            r == key_held(self.held(), key),
    ;

    /// The lowest-numbered key that is held, if any.
    fn first_pressed_key(&self) -> (r: Option<u8>)
        ensures
            r == first_held(self.held()),
    ;
}

/// Whether the key with code `key` is among `keys` and held.
pub open spec fn key_held(keys: Seq<bool>, key: u8) -> bool {
    key < keys.len() && keys[key as int]
}

/// The lowest index at which `keys` holds `true`, if there is one.
pub open spec fn first_held(keys: Seq<bool>) -> Option<u8> {
    if exists|k: int| 0 <= k < keys.len() && keys[k] {
        let k = choose|k: int| 0 <= k < keys.len() && keys[k] && forall|j: int| 0 <= j < k ==> !keys[j];
        Some(k as u8)
    } else {
        None
    }
}

/// A keyboard that records which keys are held.
pub struct SimpleKeyboard {
    pressed_keys: [bool; NUM_KEYS],
}

impl SimpleKeyboard {
    pub closed spec fn view(&self) -> Seq<bool> {
        self.pressed_keys@
    }

    /// A keyboard with no key held.
    pub fn new() -> (r: Self)
        ensures
            r@ == Seq::new(NUM_KEYS as nat, |i: int| false),
    {
        let r = SimpleKeyboard { pressed_keys: [false; NUM_KEYS] };
        assert(r@ =~= Seq::new(NUM_KEYS as nat, |i: int| false));
        r
    }

    /// Marks `key` as held.
    pub fn press_key(&mut self, key: u8)
        requires
            key < NUM_KEYS,
        ensures
            final(self)@ == old(self)@.update(key as int, true),
    {
        self.pressed_keys[key as usize] = true;
    }

    /// Marks `key` as held; the same as `press_key`.
    pub fn down_key(&mut self, key: u8)
        requires
            key < NUM_KEYS,
        ensures
            final(self)@ == old(self)@.update(key as int, true),
    {
        self.press_key(key);
    }

    /// Marks `key` as released.
    pub fn release_key(&mut self, key: u8)
        requires
            key < NUM_KEYS,
        ensures
            final(self)@ == old(self)@.update(key as int, false),
    {
        self.pressed_keys[key as usize] = false;
    }
}

impl Keyboard for SimpleKeyboard {
    open spec fn held(&self) -> Seq<bool> {
        self@
    }

    fn is_pressed(&self, key: u8) -> (r: bool) {
        (key as usize) < NUM_KEYS && self.pressed_keys[key as usize]
    }

    fn first_pressed_key(&self) -> (r: Option<u8>) {
        let mut k: usize = 0;
        while k < NUM_KEYS
            invariant
                self@.len() == NUM_KEYS,
                k <= NUM_KEYS,
                forall|j: int| 0 <= j < k ==> !self@[j],
            decreases NUM_KEYS - k,
        {
            if self.pressed_keys[k] {
                assert(forall|j: int| 0 <= j < k as int ==> !self.held()[j]);
                return Some(k as u8);
            }
            k = k + 1;
        }
        None
    }
}

} // verus!
