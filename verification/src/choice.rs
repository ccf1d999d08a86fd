//! Texts that were chosen.

use vstd::prelude::*;
use crate::order::TextMap;

verus! {

/// A set of texts from which texts can be taken out again.
pub struct TextSet {
    marks: TextMap<bool>,
}

impl TextSet {
    pub closed spec fn wf(&self) -> bool {
        self.marks.wf()
    }

    /// The texts in the set.
    pub closed spec fn view(&self) -> Set<Seq<char>> {
        Set::new(|text: Seq<char>| self.marks@.dom().contains(text) && self.marks@[text])
    }

    /// A set without texts.
    pub fn new() -> (set: TextSet)
        ensures
            set.wf(),
            set@ == Set::<Seq<char>>::empty(),
    {
        let set = TextSet { marks: TextMap::new() };
        assert(set@ =~= Set::<Seq<char>>::empty());
        set
    }

    /// Whether a text is in the set.
    pub fn contains(&self, text: &str) -> (answer: bool)
        requires
            self.wf(),
        ensures
            answer == self@.contains(text@),
    {
        match self.marks.get(text) {
            Some(mark) => *mark,
            None => false,
        }
    }

    /// Puts a text into the set.
    pub fn insert(&mut self, text: String)
        requires
            old(self).wf(),
        ensures
            final(self).wf(),
            final(self)@ == old(self)@.insert(text@),
    {
        self.marks.insert(text, true);
        assert(self@ =~= old(self)@.insert(text@));
    }

    /// Takes a text out of the set.
    pub fn remove(&mut self, text: String)
        requires
            old(self).wf(),
        ensures
            final(self).wf(),
            final(self)@ == old(self)@.remove(text@),
    {
        self.marks.insert(text, false);
        assert(self@ =~= old(self)@.remove(text@));
    }
}

} // verus!
