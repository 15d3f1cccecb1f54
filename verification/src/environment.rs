//! The variable environment: one flat name space, last write wins.

use vstd::prelude::*;

verus! {

/// One variable and its current value.
pub struct Binding {
    pub name: String,
    pub value: i32,
}

/// Index of the first binding at or after `from` that is named `name`.
pub open spec fn find_from(bindings: Seq<Binding>, name: Seq<char>, from: int) -> Option<int>
    decreases bindings.len() - from,
{
    if !(0 <= from < bindings.len()) {
        None
    } else if bindings[from].name@ == name {
        Some(from)
    } else {
        find_from(bindings, name, from + 1)
    }
}

/// The value bound to `name`, if any.
pub open spec fn lookup(bindings: Seq<Binding>, name: Seq<char>) -> Option<i32> {
    match find_from(bindings, name, 0) {
        Some(i) => Some(bindings[i].value),
        None => None,
    }
}

/// The map from names to values that a list of bindings stands for.
pub open spec fn bindings_map(bindings: Seq<Binding>) -> Map<Seq<char>, i32> {
    Map::new(
        |name: Seq<char>| lookup(bindings, name) is Some,
        |name: Seq<char>| lookup(bindings, name)->0,
    )
}

proof fn lemma_find_bounds(bindings: Seq<Binding>, name: Seq<char>, from: int)
    requires
        0 <= from,
    ensures
        find_from(bindings, name, from) matches Some(i) ==> from <= i < bindings.len()
            && bindings[i].name@ == name,
    decreases bindings.len() - from,
{
    if from < bindings.len() && bindings[from].name@ != name {
        lemma_find_bounds(bindings, name, from + 1);
    }
}

/// Replacing the value of the first binding of a name changes what that
/// name finds and nothing else.
proof fn lemma_find_after_set(
    before: Seq<Binding>,
    after: Seq<Binding>,
    at: int,
    other: Seq<char>,
    from: int,
)
    requires
        0 <= from,
        0 <= at < before.len(),
        after.len() == before.len(),
        after[at].name@ == before[at].name@,
        forall|j: int| 0 <= j < before.len() && j != at ==> after[j] == before[j],
    ensures
        find_from(after, other, from) == find_from(before, other, from),
    decreases before.len() - from,
{
    if from < before.len() && before[from].name@ != other {
        lemma_find_after_set(before, after, at, other, from + 1);
    }
}

/// Appending a binding changes what its name finds, where nothing was
/// found before, and nothing else.
proof fn lemma_find_after_push(before: Seq<Binding>, added: Binding, other: Seq<char>, from: int)
    requires
        0 <= from <= before.len(),
    ensures
        find_from(before.push(added), other, from) == match find_from(before, other, from) {
            Some(i) => Some(i),
            None => if added.name@ == other {
                Some(before.len() as int)
            } else {
                None
            },
        },
    decreases before.len() - from,
{
    let after = before.push(added);
    if from < before.len() {
        assert(after[from] == before[from]);
        if before[from].name@ != other {
            lemma_find_after_push(before, added, other, from + 1);
        }
    } else {
        assert(after[from] == added);
        assert(find_from(after, other, from + 1) is None);
    }
}

/// The variables of one run.
pub struct Environment {
    register: Vec<Binding>,
}

impl View for Environment {
    type V = Map<Seq<char>, i32>;

    closed spec fn view(&self) -> Map<Seq<char>, i32> {
        bindings_map(self.register@)
    }
}

impl Environment {
    /// An environment without variables.
    pub fn new() -> (env: Environment)
        ensures
            env@ == Map::<Seq<char>, i32>::empty(),
    {
        let env = Environment { register: Vec::new() };
        assert(env@ =~= Map::<Seq<char>, i32>::empty());
        env
    }

    /// Index of the binding named `name`, if there is one.
    fn position(&self, name: &String) -> (at: Option<usize>)
        ensures
            match at {
                Some(i) => find_from(self.register@, name@, 0) == Some(i as int) && i
                    < self.register.len(),
                None => find_from(self.register@, name@, 0) is None,
            },
    {
        let mut i: usize = 0;
        while i < self.register.len()
            invariant
                i <= self.register.len(),
                find_from(self.register@, name@, 0) == find_from(self.register@, name@, i as int),
            decreases self.register.len() - i,
        {
            if self.register[i].name == *name {
                return Some(i);
            }
            i += 1;
        }
        None
    }

    /// Binds `name` to `n`, in place of what it was bound to before.
    pub fn bind(&mut self, name: &String, n: i32)
        ensures
            final(self)@ == old(self)@.insert(name@, n),
    {
        let ghost before = self.register@;
        match self.position(name) {
            Some(i) => {
                let held = self.register[i].name.clone();
                self.register.set(i, Binding { name: held, value: n });
                proof {
                    let after = self.register@;
                    assert forall|other: Seq<char>| #[trigger]
                        find_from(after, other, 0) == find_from(before, other, 0) by {
                        lemma_find_after_set(before, after, i as int, other, 0);
                    }
                    assert forall|other: Seq<char>|
                        #[trigger] lookup(after, other) == (if other == name@ {
                            Some(n)
                        } else {
                            lookup(before, other)
                        }) by {
                        lemma_find_bounds(before, other, 0);
                        lemma_find_bounds(before, name@, 0);
                        assert(find_from(after, other, 0) == find_from(before, other, 0));
                    }
                    assert(bindings_map(after) =~= bindings_map(before).insert(name@, n));
                }
            },
            None => {
                let added = Binding { name: name.clone(), value: n };
                self.register.push(added);
                proof {
                    let after = self.register@;
                    assert forall|other: Seq<char>|
                        #[trigger] lookup(after, other) == (if other == name@ {
                            Some(n)
                        } else {
                            lookup(before, other)
                        }) by {
                        lemma_find_after_push(before, added, other, 0);
                        lemma_find_bounds(before, other, 0);
                        assert(after[before.len() as int] == added);
                        match find_from(before, other, 0) {
                            Some(i) => {
                                assert(after[i] == before[i]);
                            },
                            None => {},
                        }
                    }
                    assert(bindings_map(after) =~= bindings_map(before).insert(name@, n));
                }
            },
        }
    }

    /// The value bound to `name`, if any.
    pub fn value_of(&self, name: &String) -> (v: Option<i32>)
        ensures
            v == (if self@.contains_key(name@) {
                Some(self@[name@])
            } else {
                None
            }),
    {
        match self.position(name) {
            Some(i) => Some(self.register[i].value),
            None => None,
        }
    }

    /// Binds `name` to `n`, in place of what it was bound to before.
    pub fn define(&mut self, name: &str, n: i32)
        ensures
            final(self)@ == old(self)@.insert(name@, n),
    {
        let owned = name.to_owned();
        self.bind(&owned, n)
    }

    /// The value bound to `name`, if any.
    pub fn get(&self, name: &str) -> (v: Option<i32>)
        ensures
            v == (if self@.contains_key(name@) {
                Some(self@[name@])
            } else {
                None
            }),
    {
        let owned = name.to_owned();
        self.value_of(&owned)
    }
}

} // verus!
