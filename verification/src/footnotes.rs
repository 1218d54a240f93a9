//! The numbers of footnotes: each name gets the next number when it is first
//! seen, and keeps it.
use vstd::prelude::*;
use vstd::string::*;

verus! {

/// Whether no name occurs twice in `names`.
pub open spec fn distinct(names: Seq<Seq<char>>) -> bool {
    forall|i: int, j: int|
        0 <= i < names.len() && 0 <= j < names.len() && i != j ==> names[i] != names[j]
}

/// Whether `name` stands at place `i` of `names`.
pub open spec fn stands_at(names: Seq<Seq<char>>, name: Seq<char>, i: int) -> bool {
    0 <= i < names.len() && names[i] == name
}

/// Whether `name` has a number in `names`.
pub open spec fn known(names: Seq<Seq<char>>, name: Seq<char>) -> bool {
    exists|i: int| stands_at(names, name, i)
}

/// The number of `name`, given the names seen so far in the order in which
/// they were first seen: its place among them, counted from one, or the next
/// number where it has not been seen.
pub open spec fn footnote_number(names: Seq<Seq<char>>, name: Seq<char>) -> nat {
    if known(names, name) {
        (choose|i: int| stands_at(names, name, i)) as nat + 1
    } else {
        names.len() + 1
    }
}

/// The names seen once `name` has been seen, too.
pub open spec fn with_footnote(names: Seq<Seq<char>>, name: Seq<char>) -> Seq<Seq<char>> {
    if known(names, name) {
        names
    } else {
        names.push(name)
    }
}

/// A name that stands at place `i` of a list without repetition has the
/// number `i + 1`.
pub proof fn lemma_number_at(names: Seq<Seq<char>>, name: Seq<char>, i: int)
    requires
        distinct(names),
        stands_at(names, name, i),
    ensures
        known(names, name),
        footnote_number(names, name) == i + 1,
{
    let j = choose|j: int| stands_at(names, name, j);
    assert(i == j);
}

/// The first name seen gets the number 1.
pub proof fn lemma_first_footnote(name: Seq<char>)
    ensures
        footnote_number(Seq::empty(), name) == 1,
        with_footnote(Seq::empty(), name) == seq![name],
{
    assert(!known(Seq::empty(), name));
    assert(Seq::<Seq<char>>::empty().push(name) =~= seq![name]);
}

/// A second, different name gets the number 2.
pub proof fn lemma_second_footnote(first: Seq<char>, second: Seq<char>)
    requires
        first != second,
    ensures
        footnote_number(with_footnote(Seq::empty(), first), second) == 2,
{
    lemma_first_footnote(first);
    let names = seq![first];
    if known(names, second) {
        let i = choose|i: int| stands_at(names, second, i);
        assert(names[i] == first);
    }
}

/// Seeing a name keeps the list free of repetition, and gives the name the
/// number that it was promised.
pub proof fn lemma_footnote_assigned(names: Seq<Seq<char>>, name: Seq<char>)
    requires
        distinct(names),
    ensures
        distinct(with_footnote(names, name)),
        known(with_footnote(names, name), name),
        footnote_number(with_footnote(names, name), name) == footnote_number(names, name),
        names.len() <= with_footnote(names, name).len() <= names.len() + 1,
{
    let after = with_footnote(names, name);
    if known(names, name) {
    } else {
        assert forall|i: int, j: int|
            0 <= i < after.len() && 0 <= j < after.len() && i != j implies after[i] != after[j] by {
            if i < names.len() && j < names.len() {
            } else if i < names.len() {
                assert(!stands_at(names, name, i));
            } else {
                assert(!stands_at(names, name, j));
            }
        }
        assert(stands_at(after, name, names.len() as int));
        lemma_number_at(after, name, names.len() as int);
    }
}

/// A name that has a number keeps it, whatever name is seen next.
pub proof fn lemma_footnote_kept(names: Seq<Seq<char>>, name: Seq<char>, next: Seq<char>)
    requires
        distinct(names),
        known(names, name),
    ensures
        known(with_footnote(names, next), name),
        footnote_number(with_footnote(names, next), name) == footnote_number(names, name),
{
    let i = choose|i: int| stands_at(names, name, i);
    let after = with_footnote(names, next);
    lemma_footnote_assigned(names, next);
    assert(stands_at(after, name, i));
    lemma_number_at(after, name, i);
}

/// The footnote names seen so far, in the order in which they were first seen.
pub struct FootnoteNumbers {
    names: Vec<String>,
}

impl View for FootnoteNumbers {
    type V = Seq<Seq<char>>;

    closed spec fn view(&self) -> Seq<Seq<char>> {
        Seq::new(self.names@.len(), |i: int| self.names@[i]@)
    }
}

impl FootnoteNumbers {
    /// Whether no name is held twice.
    pub open spec fn wf(&self) -> bool {
        distinct(self@)
    }

    /// No name seen yet.
    pub fn new() -> (r: Self)
        ensures
            r@ == Seq::<Seq<char>>::empty(),
            r.wf(),
    {
        let r = FootnoteNumbers { names: Vec::new() };
        assert(r@ =~= Seq::<Seq<char>>::empty());
        r
    }

    /// How many names have a number.
    pub fn len(&self) -> (n: usize)
        ensures
            n == self@.len(),
    {
        self.names.len()
    }

    /// The number of `name`, which from now on counts as seen.
    pub fn number(&mut self, name: &String) -> (n: usize)
        requires
            old(self).wf(),
            old(self)@.len() < usize::MAX,
        ensures
            final(self).wf(),
            final(self)@ == with_footnote(old(self)@, name@),
            n == footnote_number(old(self)@, name@),
    {
        let mut i: usize = 0;
        while i < self.names.len()
            invariant
                *self == *old(self),
                self.wf(),
                self@.len() < usize::MAX,
                0 <= i <= self.names@.len(),
                forall|j: int| 0 <= j < i ==> !stands_at(self@, name@, j),
            decreases self.names@.len() - i,
        {
            if self.names[i] == *name {
                proof {
                    assert(stands_at(self@, name@, i as int));
                    lemma_number_at(self@, name@, i as int);
                }
                return i + 1;
            }
            i += 1;
        }
        proof {
            assert(!known(self@, name@));
            lemma_footnote_assigned(self@, name@);
        }
        self.names.push(name.clone());
        assert(self@ =~= old(self)@.push(name@));
        self.names.len()
    }
}

} // verus!
