//! The table of escape sequences: which character, written after the escape
//! marker, stands for which.

use std::collections::HashMap;
use vstd::prelude::*;
use vstd::std_specs::hash::*;
use vstd::utf8::*;

verus! {

broadcast use vstd::std_specs::hash::group_hash_axioms;

/// A mapping from trigger character to replacement character. It is kept in
/// a hash map keyed by the character's scalar value; its view is the mapping
/// itself.
#[derive(Debug)]
pub struct EscSeqMap {
    map: HashMap<u32, char>,
}

impl View for EscSeqMap {
    type V = Map<char, char>;

    closed spec fn view(&self) -> Map<char, char> {
        Map::new(|c: char| self.map@.contains_key(c as u32), |c: char| self.map@[c as u32])
    }
}

impl Clone for EscSeqMap {
    fn clone(&self) -> (r: Self)
        ensures
            r@ == self@,
    {
        EscSeqMap { map: self.map.clone() }
    }
}

impl EscSeqMap {
    /// A table without entries.
    pub fn new() -> (m: EscSeqMap)
        ensures
            m@ == Map::<char, char>::empty(),
    {
        let m = EscSeqMap { map: HashMap::new() };
        assert(m@ =~= Map::<char, char>::empty());
        m
    }

    /// Removes every entry.
    pub fn clear(&mut self)
        ensures
            final(self)@ == Map::<char, char>::empty(),
    {
        self.map.clear();
        assert(self@ =~= Map::<char, char>::empty());
    }

    /// Maps `find` to `replace`, replacing an earlier entry for `find`.
    pub fn set(&mut self, find: char, replace: char)
        ensures
            final(self)@ == old(self)@.insert(find, replace),
    {
        self.map.insert(find as u32, replace);
        proof {
            let want = old(self)@.insert(find, replace);
            assert(self.map@ == old(self).map@.insert(find as u32, replace));
            assert forall|c: char| #[trigger] self@.dom().contains(c) == want.dom().contains(c) by {
                char_u32_cast(c, c as u32);
                char_u32_cast(find, find as u32);
            }
            assert forall|c: char| #[trigger]
                self@.dom().contains(c) implies self@[c] == want[c] by {
                char_u32_cast(c, c as u32);
                char_u32_cast(find, find as u32);
            }
            assert(self@ =~= want);
        }
    }

    /// The replacement for `find`, if the table has one.
    pub fn get(&self, find: char) -> (r: Option<char>)
        ensures
            r == (if self@.contains_key(find) {
                Some(self@[find])
            } else {
                None
            }),
    {
        match self.map.get(&(find as u32)) {
            Some(c) => Some(*c),
            None => None,
        }
    }
}

/// The escape sequences known from the start: `n`, `t` and `r` for newline,
/// tab and carriage return, and each of the default structural characters
/// (backslash, space, double quote, round brackets) for itself.
pub open spec fn default_escapes() -> Map<char, char> {
    Map::<char, char>::empty().insert('n', '\n').insert('t', '\t').insert('r', '\r').insert(
        '\\',
        '\\',
    ).insert(' ', ' ').insert('"', '"').insert('(', '(').insert(')', ')')
}

} // verus!
