//! Lists of diagnostic messages.

use vstd::prelude::*;

use crate::text::names_view;

verus! {

/// Messages in the order in which they came up.
pub struct Messages {
    pub items: Vec<String>,
}

impl View for Messages {
    type V = Seq<Seq<char>>;

    open spec fn view(&self) -> Seq<Seq<char>> {
        names_view(self.items@)
    }
}

impl Messages {
    pub fn new() -> (m: Messages)
        ensures
            m@ == Seq::<Seq<char>>::empty(),
    {
        let m = Messages { items: Vec::new() };
        assert(m@ =~= Seq::<Seq<char>>::empty());
        m
    }

    pub fn push(&mut self, text: String)
        ensures
            final(self)@ == old(self)@.push(text@),
    {
        self.items.push(text);
        assert(self@ =~= old(self)@.push(text@));
    }
}

} // verus!
