//! Sets of names.

use vstd::prelude::*;
use vstd::string::*;
use crate::text::contains_name;
use crate::text::views;

verus! {

/// A finite set of names. It keeps each name once, in the order in which
/// the names were first put in.
#[derive(Debug)]
pub struct NameSet {
    items: Vec<String>,
}

impl View for NameSet {
    type V = Set<Seq<char>>;

    closed spec fn view(&self) -> Set<Seq<char>> {
        views(self.items@).to_set()
    }
}

impl NameSet {
    /// The names in the order in which they were first put in.
    pub closed spec fn order(&self) -> Seq<Seq<char>> {
        views(self.items@)
    }

    /// No name is kept twice.
    #[verifier::type_invariant]
    spec fn no_name_twice(&self) -> bool {
        views(self.items@).no_duplicates()
    }

    /// The names in order are the names of the set, each once.
    pub proof fn lemma_order(&self)
        ensures
            self.order().to_set() == self@,
    {
    }

    /// The empty set.
    pub fn new() -> (r: Self)
        ensures
            r@ == Set::<Seq<char>>::empty(),
            r.order() == Seq::<Seq<char>>::empty(),
    {
        let s = NameSet { items: Vec::new() };
        assert(views(s.items@) =~= Seq::empty());
        assert(s@ =~= Set::empty());
        s
    }

    /// Whether the name is in the set.
    pub fn contains(&self, name: &str) -> (r: bool)
        ensures
            r == self@.contains(name@),
    {
        contains_name(&self.items, name)
    }

    /// Puts a name into the set.
    pub fn insert(&mut self, name: String)
        ensures
            final(self)@ == old(self)@.insert(name@),
            final(self).order() == if old(self)@.contains(name@) {
                old(self).order()
            } else {
                old(self).order().push(name@)
            },
    {
        proof {
            use_type_invariant(&*self);
        }
        if !contains_name(&self.items, name.as_str()) {
            let ghost before = views(self.items@);
            let ghost n = name@;
            let mut items = crate::model::clone_strings(&self.items);
            items.push(name);
            assert(views(items@) =~= before.push(n));
            assert(before.push(n).no_duplicates()) by {
                assert forall|i: int, j: int|
                    0 <= i < before.len() + 1 && 0 <= j < before.len() + 1 && i
                        != j implies before.push(n)[i] != before.push(n)[j] by {
                    if i < before.len() && j < before.len() {
                    } else if i < before.len() {
                        assert(before.contains(before[i]));
                    } else {
                        assert(before.contains(before[j]));
                    }
                }
            }
            assert(before.push(n).to_set() =~= before.to_set().insert(n)) by {
                assert forall|x: Seq<char>| before.push(n).to_set().contains(x) implies before.to_set().insert(
                    n,
                ).contains(x) by {
                    let k = choose|k: int| 0 <= k < before.push(n).len() && before.push(n)[k] == x;
                    if k < before.len() {
                        assert(before[k] == x);
                    }
                }
                assert forall|x: Seq<char>| before.to_set().insert(n).contains(x) implies before.push(
                    n,
                ).to_set().contains(x) by {
                    if x == n {
                        assert(before.push(n)[before.len() as int] == n);
                    } else {
                        let k = choose|k: int| 0 <= k < before.len() && before[k] == x;
                        assert(before.push(n)[k] == x);
                    }
                }
            }
            *self = NameSet { items };
        } else {
            assert(self@.insert(name@) =~= self@);
        }
    }

    /// Whether the set has no name.
    pub fn is_empty(&self) -> (r: bool)
        ensures
            r == (self@ == Set::<Seq<char>>::empty()),
    {
        if self.items.len() == 0 {
            assert(views(self.items@) =~= Seq::empty());
            assert(self@ =~= Set::empty());
            true
        } else {
            assert(views(self.items@)[0] == self.items@[0]@);
            assert(self@.contains(views(self.items@)[0]));
            false
        }
    }

    /// How many names the set has.
    pub fn len(&self) -> (r: usize)
        ensures
            r == self@.len(),
            r == self.order().len(),
    {
        proof {
            use_type_invariant(self);
            views(self.items@).unique_seq_to_set();
        }
        self.items.len()
    }

    /// The name at place `i` of the order.
    pub fn get(&self, i: usize) -> (r: &str)
        requires
            i < self.order().len(),
        ensures
            r@ == self.order()[i as int],
            self@.contains(r@),
    {
        assert(views(self.items@)[i as int] == self.items@[i as int]@);
        self.items[i].as_str()
    }

    /// The names in the order in which they were first put in.
    pub fn to_vec(&self) -> (r: Vec<String>)
        ensures
            views(r@) == self.order(),
    {
        crate::model::clone_strings(&self.items)
    }
}

} // verus!
