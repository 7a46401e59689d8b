//! The runtime store: the current value of each variable, kept as text.

use vstd::prelude::*;
use crate::interpreter::text::same_text;

verus! {

/// One variable and its current value.
pub struct Binding {
    pub name: String,
    pub value: String,
}

/// A flat mapping from variable names to values. There is one namespace:
/// a body of a clause or loop has no variables of its own.
pub struct Store {
    bindings: Vec<Binding>,
}

impl View for Store {
    type V = Map<Seq<char>, Seq<char>>;

    closed spec fn view(&self) -> Map<Seq<char>, Seq<char>> {
        Map::new(
            |name: Seq<char>|
                exists|i: int| 0 <= i < self.bindings.len() && self.bindings[i].name@ == name,
            |name: Seq<char>|
                self.bindings[choose|i: int|
                    0 <= i < self.bindings.len() && self.bindings[i].name@ == name].value@,
        )
    }
}

impl Store {
    /// No variable is bound twice.
    #[verifier::type_invariant]
    spec fn distinct(&self) -> bool {
        forall|i: int, j: int|
            0 <= i < j < self.bindings.len() ==> self.bindings[i].name@ != self.bindings[j].name@
    }

    /// The store in which no variable has a value.
    pub fn new() -> (store: Store)
        ensures
            store@ == Map::<Seq<char>, Seq<char>>::empty(),
    {
        let store = Store { bindings: Vec::new() };
        assert(store@ =~= Map::<Seq<char>, Seq<char>>::empty());
        store
    }

    /// The current value of `name`, where it has one.
    pub fn get(&self, name: &str) -> (found: Option<&String>)
        ensures
            found is Some == self@.contains_key(name@),
            found matches Some(value) ==> value@ == self@[name@],
    {
        proof {
            use_type_invariant(self);
        }
        match self.position_of(name) {
            Some(i) => Some(&self.bindings[i].value),
            None => None,
        }
    }

    /// Gives `name` the value `value`, in place of the value it had.
    pub fn set(&mut self, name: String, value: String)
        ensures
            final(self)@ == old(self)@.insert(name@, value@),
    {
        proof {
            use_type_invariant(&*self);
        }
        let ghost before = self.bindings@;
        let found = self.position_of(name.as_str());
        let mut bindings: Vec<Binding> = Vec::new();
        std::mem::swap(&mut bindings, &mut self.bindings);
        let ghost slot: int = match found {
            Some(i) => i as int,
            None => before.len() as int,
        };
        match found {
            Some(i) => {
                bindings.set(i, Binding { name: name, value: value });
            },
            None => {
                bindings.push(Binding { name: name, value: value });
            },
        }
        let ghost after = bindings@;
        assert(forall|k: int| 0 <= k < before.len() && k != slot ==> after[k] == before[k]);
        assert(after[slot].name@ == name@ && after[slot].value@ == value@);
        assert(forall|i: int, j: int|
            0 <= i < j < after.len() ==> after[i].name@ != after[j].name@);
        std::mem::swap(&mut bindings, &mut self.bindings);
        assert(self.bindings@ == after);
        assert forall|key: Seq<char>| #[trigger]
            self@.contains_key(key) == old(self)@.insert(name@, value@).contains_key(key) by {
            if old(self)@.contains_key(key) {
                let i = choose|i: int| 0 <= i < before.len() && before[i].name@ == key;
                assert(after[i].name@ == key);
            }
            if key == name@ {
                assert(after[slot].name@ == key);
            }
        }
        assert forall|key: Seq<char>| #[trigger]
            self@.contains_key(key) implies self@[key] == old(self)@.insert(name@, value@)[key] by {
            let i = choose|i: int| 0 <= i < after.len() && after[i].name@ == key;
            if key == name@ {
                assert(i == slot);
            } else {
                assert(i != slot);
                assert(before[i].name@ == key);
                let j = choose|j: int| 0 <= j < before.len() && before[j].name@ == key;
                assert(i == j);
            }
        }
        assert(self@ =~= old(self)@.insert(name@, value@));
    }

    /// Where `name` is bound.
    fn position_of(&self, name: &str) -> (found: Option<usize>)
        ensures
            found is Some == self@.contains_key(name@),
            found matches Some(i) ==> i < self.bindings.len() && self.bindings[i as int].name@
                == name@,
            found is None ==> forall|k: int|
                0 <= k < self.bindings.len() ==> self.bindings[k].name@ != name@,
    {
        let mut i: usize = 0;
        while i < self.bindings.len()
            invariant
                i <= self.bindings.len(),
                forall|k: int| 0 <= k < i ==> self.bindings[k].name@ != name@,
            decreases self.bindings.len() - i,
        {
            if same_text(self.bindings[i].name.as_str(), name) {
                return Some(i);
            }
            i += 1;
        }
        None
    }
}

} // verus!
