//! The simulated memory that edges load from and store to: a store of
//! words, each at its address. A word that was never written is zero.

use crate::util::address::Address;
use std::collections::HashMap;
use vstd::prelude::*;

verus! {

broadcast use vstd::std_specs::hash::group_hash_axioms;

/// A store of words by address.
pub struct Memory {
    words: HashMap<usize, usize>,
}

impl View for Memory {
    type V = Map<usize, usize>;

    /// The words that were written, by address.
    closed spec fn view(&self) -> Map<usize, usize> {
        self.words@
    }
}

/// The word at `addr` in a store that holds `words`.
pub open spec fn spec_word_at(words: Map<usize, usize>, addr: usize) -> usize {
    if words.contains_key(addr) {
        words[addr]
    } else {
        0
    }
}

impl Memory {
    /// The word at `addr`.
    pub open spec fn word_at(&self, addr: usize) -> usize {
        spec_word_at(self@, addr)
    }

    /// A memory in which nothing was written.
    pub fn new() -> (m: Memory)
        ensures
            m@ == Map::<usize, usize>::empty(),
    {
        Memory { words: HashMap::new() }
    }

    /// The word at `addr`.
    pub fn load(&self, addr: Address) -> (word: usize)
        ensures
            word == self.word_at(addr.0),
    {
        match self.words.get(&addr.0) {
            Some(w) => *w,
            None => 0,
        }
    }

    /// Writes `word` at `addr`.
    pub fn store(&mut self, addr: Address, word: usize)
        ensures
            final(self)@ == old(self)@.insert(addr.0, word),
    {
        self.words.insert(addr.0, word);
    }
}

} // verus!
