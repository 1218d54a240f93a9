//! A table from names to values, kept in the order in which the names came.
use crate::footnotes::{distinct, known, lemma_number_at, stands_at};
use crate::text::same_str;
use vstd::prelude::*;
use vstd::string::*;

verus! {

/// A table from names to values. A name has one value: a new value for it
/// takes the place of the old one.
pub struct Table<V> {
    keys: Vec<String>,
    values: Vec<V>,
}

/// The place of `name` in `names`.
pub open spec fn place_of(names: Seq<Seq<char>>, name: Seq<char>) -> int {
    choose|i: int| stands_at(names, name, i)
}

impl<V> Table<V> {
    /// The names, in the order in which they came.
    pub closed spec fn names(&self) -> Seq<Seq<char>> {
        Seq::new(self.keys@.len(), |i: int| self.keys@[i]@)
    }

    /// The values, each at the place of its name.
    pub closed spec fn values(&self) -> Seq<V> {
        self.values@
    }

    /// Whether each name stands once, with one value.
    pub open spec fn wf(&self) -> bool {
        distinct(self.names()) && self.names().len() == self.values().len()
    }

    /// The value of each name.
    pub open spec fn view(&self) -> Map<Seq<char>, V> {
        Map::new(
            |name: Seq<char>| known(self.names(), name),
            |name: Seq<char>| self.values()[place_of(self.names(), name)],
        )
    }

    /// The empty table.
    pub fn new() -> (r: Self)
        ensures
            r.wf(),
            r@ == Map::<Seq<char>, V>::empty(),
    {
        let r = Table { keys: Vec::new(), values: Vec::new() };
        assert(r@ =~= Map::<Seq<char>, V>::empty()) by {
            assert forall|name: Seq<char>| !known(r.names(), name) by {
                assert forall|i: int| !stands_at(r.names(), name, i) by {}
            }
        }
        r
    }

    /// The place of `key`, if it has a value.
    fn find(&self, key: &str) -> (r: Option<usize>)
        requires
            self.wf(),
        ensures
            match r {
                Some(i) => stands_at(self.names(), key@, i as int) && known(self.names(), key@)
                    && place_of(self.names(), key@) == i,
                None => !known(self.names(), key@),
            },
    {
        let mut i: usize = 0;
        while i < self.keys.len()
            invariant
                self.wf(),
                0 <= i <= self.keys@.len(),
                forall|j: int| 0 <= j < i ==> !stands_at(self.names(), key@, j),
            decreases self.keys@.len() - i,
        {
            if same_str(self.keys[i].as_str(), key) {
                proof {
                    assert(stands_at(self.names(), key@, i as int));
                    lemma_number_at(self.names(), key@, i as int);
                }
                return Some(i);
            }
            i += 1;
        }
        None
    }

    /// The value of `key`, if it has one.
    pub fn get(&self, key: &str) -> (r: Option<&V>)
        requires
            self.wf(),
        ensures
            match r {
                Some(value) => self@.contains_key(key@) && *value == self@[key@],
                None => !self@.contains_key(key@),
            },
    {
        match self.find(key) {
            Some(i) => Some(&self.values[i]),
            None => None,
        }
    }

    /// Gives `key` the value `value`.
    pub fn insert(&mut self, key: String, value: V)
        requires
            old(self).wf(),
        ensures
            final(self).wf(),
            final(self)@ == old(self)@.insert(key@, value),
    {
        let ghost before = *self;
        match self.find(key.as_str()) {
            Some(i) => {
                self.values[i] = value;
                assert(self.names() == before.names());
                assert(self@ =~= before@.insert(key@, value)) by {
                    assert forall|name: Seq<char>| known(self.names(), name) implies #[trigger] self@[name]
                        == before@.insert(key@, value)[name] by {
                        let at = place_of(self.names(), name);
                        if name != key@ {
                            assert(at != i);
                        }
                    }
                }
            },
            None => {
                self.keys.push(key);
                self.values.push(value);
                let ghost last = before.names().len() as int;
                assert(self.names() =~= before.names().push(key@));
                assert(distinct(self.names())) by {
                    assert forall|i: int, j: int|
                        0 <= i < self.names().len() && 0 <= j < self.names().len() && i
                            != j implies self.names()[i] != self.names()[j] by {
                        if i < last && j < last {
                        } else if i < last {
                            assert(!stands_at(before.names(), key@, i));
                        } else {
                            assert(!stands_at(before.names(), key@, j));
                        }
                    }
                }
                assert(self@ =~= before@.insert(key@, value)) by {
                    assert(stands_at(self.names(), key@, last));
                    lemma_number_at(self.names(), key@, last);
                    assert forall|name: Seq<char>| #[trigger]
                        known(self.names(), name) == (name == key@ || known(
                            before.names(),
                            name,
                        )) by {
                        if known(before.names(), name) {
                            let at = place_of(before.names(), name);
                            assert(stands_at(self.names(), name, at));
                        }
                        if known(self.names(), name) && name != key@ {
                            let at = place_of(self.names(), name);
                            assert(stands_at(before.names(), name, at));
                        }
                    }
                    assert forall|name: Seq<char>|
                        known(before.names(), name) && name != key@ implies #[trigger] self@[name]
                        == before@[name] by {
                        let at = place_of(before.names(), name);
                        assert(stands_at(self.names(), name, at));
                        lemma_number_at(self.names(), name, at);
                    }
                }
            },
        }
    }
}

} // verus!
