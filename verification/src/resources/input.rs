//! The keys that are held down.

use crate::interpreter::text::same_text;
use vstd::prelude::*;

verus! {

#[derive(Debug, Hash, PartialEq, Eq, Structural, Clone, Copy)]
pub enum KeyCode {
    W,
    S,
    A,
    D,
    Z,
    X,
}

/// The key that a key name stands for, if it stands for one.
pub open spec fn key_of(value: Seq<char>) -> Option<KeyCode> {
    if value == "w"@ {
        Some(KeyCode::W)
    } else if value == "s"@ {
        Some(KeyCode::S)
    } else if value == "a"@ {
        Some(KeyCode::A)
    } else if value == "d"@ {
        Some(KeyCode::D)
    } else if value == "z"@ {
        Some(KeyCode::Z)
    } else if value == "x"@ {
        Some(KeyCode::X)
    } else {
        None
    }
}

impl KeyCode {
    /// The key that a key name of the page stands for, if it stands for one.
    pub fn new(value: &str) -> (r: Option<KeyCode>)
        ensures
            r == key_of(value@),
    {
        if same_text(value, "w") {
            Some(KeyCode::W)
        } else if same_text(value, "s") {
            Some(KeyCode::S)
        } else if same_text(value, "a") {
            Some(KeyCode::A)
        } else if same_text(value, "d") {
            Some(KeyCode::D)
        } else if same_text(value, "z") {
            Some(KeyCode::Z)
        } else if same_text(value, "x") {
            Some(KeyCode::X)
        } else {
            None
        }
    }
}

/// The set of keys that are held down. Its view is that set.
pub struct Input {
    pressed: Vec<KeyCode>,
}

impl View for Input {
    type V = Set<KeyCode>;

    closed spec fn view(&self) -> Set<KeyCode> {
        self.pressed@.to_set()
    }
}

impl Default for Input {
    fn default() -> (input: Self)
        ensures
            input@ == Set::<KeyCode>::empty(),
    {
        let input = Input { pressed: Vec::new() };
        assert(input.pressed@.to_set() =~= Set::<KeyCode>::empty());
        input
    }
}

impl Input {
    #[verifier::type_invariant]
    spec fn no_key_twice(self) -> bool {
        self.pressed@.no_duplicates()
    }

    fn find(&self, key_code: KeyCode) -> (r: Option<usize>)
        ensures
            match r {
                Some(i) => i < self.pressed.len() && self.pressed[i as int] == key_code,
                None => !self.pressed@.contains(key_code),
            },
    {
        let mut i: usize = 0;
        while i < self.pressed.len()
            invariant
                0 <= i <= self.pressed.len(),
                forall|k: int| 0 <= k < i ==> self.pressed[k] != key_code,
            decreases self.pressed.len() - i,
        {
            if self.pressed[i] == key_code {
                return Some(i);
            }
            i += 1;
        }
        None
    }

    /// Marks a key as held down.
    pub fn press(&mut self, key_code: KeyCode)
        ensures
            final(self)@ == old(self)@.insert(key_code),
    {
        proof {
            use_type_invariant(&*self);
        }
        match self.find(key_code) {
            Some(_) => {
                assert(self.pressed@.contains(key_code));
                assert(self.pressed@.to_set().insert(key_code) =~= self.pressed@.to_set());
            },
            None => {
                let ghost before = self.pressed@;
                let mut keys = self.pressed.clone();
                assert(keys@ =~= before);
                keys.push(key_code);
                proof {
                    assert(keys@ =~= before.push(key_code));
                    assert forall|a: int, b: int|
                        0 <= a < keys@.len() && 0 <= b < keys@.len() && a != b implies keys@[a]
                        != keys@[b] by {
                        if a < before.len() {
                            assert(before.contains(keys@[a]));
                        }
                        if b < before.len() {
                            assert(before.contains(keys@[b]));
                        }
                    }
                }
                self.pressed = keys;
                proof {
                    assert forall|k: KeyCode|
                        self.pressed@.to_set().contains(k) == before.to_set().insert(
                            key_code,
                        ).contains(k) by {
                        if self.pressed@.contains(k) {
                            let i = choose|i: int|
                                0 <= i < self.pressed@.len() && self.pressed@[i] == k;
                            if i < before.len() {
                                assert(before[i] == k);
                            }
                        }
                        if before.contains(k) {
                            let i = choose|i: int| 0 <= i < before.len() && before[i] == k;
                            assert(self.pressed@[i] == k);
                        }
                        if k == key_code {
                            assert(self.pressed@[before.len() as int] == k);
                        }
                    }
                    assert(self.pressed@.to_set() =~= before.to_set().insert(key_code));
                }
            },
        }
    }

    /// Whether a key is held down.
    pub fn pressed(&self, key_code: KeyCode) -> (r: bool)
        ensures
            r == self@.contains(key_code),
    {
        self.find(key_code).is_some()
    }

    /// Marks a key as let go.
    pub fn release(&mut self, key_code: KeyCode)
        ensures
            final(self)@ == old(self)@.remove(key_code),
    {
        proof {
            use_type_invariant(&*self);
        }
        match self.find(key_code) {
            Some(i) => {
                let ghost before = self.pressed@;
                let mut keys = self.pressed.clone();
                assert(keys@ =~= before);
                keys.remove(i);
                proof {
                    let after = keys@;
                    assert(after =~= before.remove(i as int));
                    assert forall|a: int, b: int|
                        0 <= a < after.len() && 0 <= b < after.len() && a != b implies after[a]
                        != after[b] by {
                        let a0 = if a < i { a } else { a + 1 };
                        let b0 = if b < i { b } else { b + 1 };
                        assert(after[a] == before[a0]);
                        assert(after[b] == before[b0]);
                    }
                    assert forall|k: KeyCode|
                        after.to_set().contains(k) == before.to_set().remove(key_code).contains(
                            k,
                        ) by {
                        if after.contains(k) {
                            let j = choose|j: int| 0 <= j < after.len() && after[j] == k;
                            let j0 = if j < i { j } else { j + 1 };
                            assert(before[j0] == k);
                        }
                        if before.contains(k) && k != key_code {
                            let j = choose|j: int| 0 <= j < before.len() && before[j] == k;
                            let j1 = if j < i { j } else { j - 1 };
                            assert(after[j1] == k);
                        }
                    }
                    assert(after.to_set() =~= before.to_set().remove(key_code));
                }
                self.pressed = keys;
            },
            None => {
                assert(self.pressed@.to_set().remove(key_code) =~= self.pressed@.to_set());
            },
        }
    }

    /// The keys that are held down, each once.
    pub fn get_pressed(&self) -> (keys: Vec<KeyCode>)
        ensures
            keys@.to_set() == self@,
            keys@.no_duplicates(),
    {
        proof {
            use_type_invariant(self);
        }
        let keys = self.pressed.clone();
        assert(keys@ =~= self.pressed@);
        keys
    }
}

} // verus!
