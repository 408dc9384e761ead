//! An insertion-ordered table from text to text in which no name occurs twice.

use vstd::prelude::*;

verus! {

/// Whether `name` is the name of some entry of `s`.
pub open spec fn has_name(s: Seq<(Seq<char>, Seq<char>)>, name: Seq<char>) -> bool {
    exists|i: int| 0 <= i < s.len() && #[trigger] s[i].0 == name
}

/// The place of an entry of `s` named `name`.
pub open spec fn place_of(s: Seq<(Seq<char>, Seq<char>)>, name: Seq<char>) -> int {
    choose|i: int| 0 <= i < s.len() && #[trigger] s[i].0 == name
}

/// The value that `s` holds under `name`, if any.
pub open spec fn value_of(s: Seq<(Seq<char>, Seq<char>)>, name: Seq<char>) -> Option<Seq<char>> {
    if has_name(s, name) {
        Some(s[place_of(s, name)].1)
    } else {
        None
    }
}

/// `s` with `name` bound to `value`: an entry of that name is replaced where
/// it stands, a new name is added at the end.
pub open spec fn with_entry(
    s: Seq<(Seq<char>, Seq<char>)>,
    name: Seq<char>,
    value: Seq<char>,
) -> Seq<(Seq<char>, Seq<char>)> {
    if has_name(s, name) {
        s.update(place_of(s, name), (name, value))
    } else {
        s.push((name, value))
    }
}

/// No name occurs twice in `s`.
pub open spec fn distinct_names(s: Seq<(Seq<char>, Seq<char>)>) -> bool {
    forall|i: int, j: int|
        0 <= i < s.len() && 0 <= j < s.len() && #[trigger] s[i].0 == #[trigger] s[j].0 ==> i == j
}

/// A table from names to values that keeps the order in which names first came.
#[derive(Debug, Clone, PartialEq, Eq)]
pub struct Fields {
    names: Vec<String>,
    values: Vec<String>,
}

impl View for Fields {
    type V = Seq<(Seq<char>, Seq<char>)>;

    closed spec fn view(&self) -> Seq<(Seq<char>, Seq<char>)> {
        Seq::new(
            self.names@.len(),
            |i: int|
                (
                    self.names@[i]@,
                    if i < self.values@.len() {
                        self.values@[i]@
                    } else {
                        Seq::<char>::empty()
                    },
                ),
        )
    }
}

impl Fields {
    /// The invariant: one value per name, and no name twice.
    pub closed spec fn wf(&self) -> bool {
        &&& self.names@.len() == self.values@.len()
        &&& distinct_names(self@)
    }

    /// The empty table.
    pub fn new() -> (r: Fields)
        ensures
            r.wf(),
            r@ == Seq::<(Seq<char>, Seq<char>)>::empty(),
    {
        let r = Fields { names: Vec::new(), values: Vec::new() };
        proof {
            assert(r@ =~= Seq::<(Seq<char>, Seq<char>)>::empty());
        }
        r
    }

    /// The number of entries.
    pub fn len(&self) -> (r: usize)
        requires
            self.wf(),
        ensures
            r == self@.len(),
    {
        self.names.len()
    }

    fn find(&self, name: &String) -> (r: Option<usize>)
        requires
            self.wf(),
        ensures
            r is Some == has_name(self@, name@),
            r matches Some(i) ==> i < self@.len() && i as int == place_of(self@, name@)
                && self@[i as int].0 == name@,
    {
        let mut i: usize = 0;
        while i < self.names.len()
            invariant
                self.wf(),
                i <= self.names@.len(),
                forall|j: int| 0 <= j < i ==> (#[trigger] self@[j]).0 != name@,
            decreases self.names@.len() - i,
        {
            if self.names[i] == *name {
                proof {
                    assert(self@[i as int].0 == name@);
                    assert(has_name(self@, name@));
                }
                return Some(i);
            }
            i += 1;
        }
        None
    }

    /// The value bound to `name`, if there is one.
    pub fn get(&self, name: &str) -> (r: Option<&String>)
        requires
            self.wf(),
        ensures
            r is Some == has_name(self@, name@),
            r matches Some(v) ==> Some(v@) == value_of(self@, name@),
    {
        let key = name.to_owned();
        match self.find(&key) {
            Some(i) => Some(&self.values[i]),
            None => None,
        }
    }

    /// Whether `name` is bound.
    pub fn contains_key(&self, name: &str) -> (r: bool)
        requires
            self.wf(),
        ensures
            r == has_name(self@, name@),
    {
        let key = name.to_owned();
        self.find(&key).is_some()
    }

    /// Binds `name` to `value`; an earlier value of that name is replaced.
    pub fn insert(&mut self, name: String, value: String)
        requires
            old(self).wf(),
        ensures
            final(self).wf(),
            final(self)@ == with_entry(old(self)@, name@, value@),
    {
        match self.find(&name) {
            Some(i) => {
                self.values.set(i, value);
                proof {
                    assert(final(self)@ =~= with_entry(old(self)@, name@, value@));
                }
            },
            None => {
                self.names.push(name);
                self.values.push(value);
                proof {
                    assert(self@ =~= with_entry(old(self)@, name@, value@));
                }
            },
        }
    }

    /// The name of the entry at `i`.
    pub fn name_at(&self, i: usize) -> (r: &String)
        requires
            self.wf(),
            i < self@.len(),
        ensures
            r@ == self@[i as int].0,
    {
        &self.names[i]
    }

    /// The value of the entry at `i`.
    pub fn value_at(&self, i: usize) -> (r: &String)
        requires
            self.wf(),
            i < self@.len(),
        ensures
            r@ == self@[i as int].1,
    {
        &self.values[i]
    }
}

} // verus!
