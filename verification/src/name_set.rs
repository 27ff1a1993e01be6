//! Sets of names.

use vstd::prelude::*;

use crate::text::{contains_name, names_view};

verus! {

/// A set of names.
#[derive(Debug)]
pub struct NameSet {
    pub names: Vec<String>,
}

impl View for NameSet {
    type V = Set<Seq<char>>;

    open spec fn view(&self) -> Set<Seq<char>> {
        names_view(self.names@).to_set()
    }
}

impl NameSet {
    pub fn new() -> (s: NameSet)
        ensures
            s@ == Set::<Seq<char>>::empty(),
    {
        let s = NameSet { names: Vec::new() };
        assert(s@ =~= Set::<Seq<char>>::empty());
        s
    }

    pub fn contains(&self, name: &String) -> (r: bool)
        ensures
            r == self@.contains(name@),
    {
        contains_name(&self.names, name)
    }

    pub fn insert(&mut self, name: String)
        ensures
            final(self)@ == old(self)@.insert(name@),
    {
        let ghost before = names_view(self.names@);
        if contains_name(&self.names, &name) {
            assert(self@ =~= old(self)@.insert(name@));
        } else {
            self.names.push(name);
            proof {
                let after = names_view(self.names@);
                assert(after =~= before.push(name@));
                assert forall|n: Seq<char>| after.contains(n) <==> before.contains(n) || n
                    == name@ by {
                    if before.contains(n) {
                        let k = choose|k: int| 0 <= k < before.len() && before[k] == n;
                        assert(after[k] == n);
                    }
                    if n == name@ {
                        assert(after[before.len() as int] == n);
                    }
                }
                assert(self@ =~= old(self)@.insert(name@));
            }
        }
    }
}

} // verus!
