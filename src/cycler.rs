use std::collections::HashMap;
use vstd::arithmetic::div_mod::{lemma_add_mod_noop, lemma_mod_bound, lemma_small_mod};
use vstd::prelude::*;

use crate::table::ResponseTable;

verus! {

broadcast use vstd::std_specs::hash::group_hash_axioms;

/// The cursor of a PID that the cycler does not know was asked to advance.
#[derive(Debug, Clone, Copy, PartialEq, Eq, Structural)]
pub struct UnknownPid {
    pub pid: u8,
}

/// The position after `cursor` in a list of `len` responses, wrapping to the start.
pub open spec fn next_cursor(cursor: usize, len: usize) -> usize {
    ((cursor + 1) % (len as int)) as usize
}

/// `(cursor + 1) % len`, computed without overflow.
pub proof fn lemma_next_cursor(cursor: usize, len: usize)
    requires
        len > 0,
    ensures
        (((cursor % len) as int) + 1) % (len as int) == next_cursor(cursor, len),
        next_cursor(cursor, len) < len,
{
    let m = len as int;
    lemma_add_mod_noop(cursor as int, 1, m);
    lemma_mod_bound(cursor + 1, m);
    if len > 1 {
        lemma_small_mod(1, len as nat);
    } else {
        lemma_mod_bound(cursor as int, m);
        lemma_mod_bound((cursor as int) % m + 1, m);
    }
}

/// The per-PID cursors that round-robin through each PID's responses.
pub struct Cycler {
    cursors: HashMap<u8, usize>,
}

impl View for Cycler {
    type V = Map<u8, usize>;

    closed spec fn view(&self) -> Map<u8, usize> {
        self.cursors@
    }
}

impl Cycler {
    /// A cursor at zero for each PID of the table.
    pub fn new(table: &ResponseTable) -> (r: Cycler)
        ensures
            r@.dom() == table@.dom(),
            forall|p: u8| #[trigger] r@.contains_key(p) ==> r@[p] == 0,
    {
        let mut cursors: HashMap<u8, usize> = HashMap::new();
        let mut p: u16 = 0;
        while p < 256
            invariant
                p <= 256,
                forall|q: u8| #[trigger]
                    cursors@.contains_key(q) <==> (q < p && table@.contains_key(q)),
                forall|q: u8| #[trigger] cursors@.contains_key(q) ==> cursors@[q] == 0,
            decreases 256 - p,
        {
            let pid: u8 = p as u8;
            if table.contains(pid) {
                cursors.insert(pid, 0);
            }
            p += 1;
        }
        let r = Cycler { cursors };
        assert(r@.dom() =~= table@.dom());
        r
    }

    /// The cursor of `pid`, if the cycler knows it.
    pub fn cursor(&self, pid: u8) -> (r: Option<usize>)
        ensures
            r == (if self@.contains_key(pid) {
                Some(self@[pid])
            } else {
                None
            }),
    {
        match self.cursors.get(&pid) {
            Some(c) => Some(*c),
            None => None,
        }
    }

    /// Returns the cursor of `pid` and advances it by one, wrapping modulo
    /// `len`, the number of responses of the PID. Fails, leaving every cursor
    /// as it was, on a PID that the cycler was not created with.
    pub fn next_index(&mut self, pid: u8, len: usize) -> (r: Result<usize, UnknownPid>)
        requires
            len > 0,
        ensures
            old(self)@.contains_key(pid) ==> r == Ok::<usize, UnknownPid>(old(self)@[pid])
                && final(self)@ == old(self)@.insert(pid, next_cursor(old(self)@[pid], len)),
            !old(self)@.contains_key(pid) ==> r == Err::<usize, UnknownPid>(UnknownPid { pid })
                && final(self)@ == old(self)@,
    {
        let cur: usize = match self.cursors.get(&pid) {
            Some(c) => *c,
            None => {
                return Err(UnknownPid { pid });
            },
        };
        proof {
            lemma_next_cursor(cur, len);
        }
        let next: usize = (cur % len + 1) % len;
        self.cursors.insert(pid, next);
        Ok(cur)
    }
}

} // verus!
