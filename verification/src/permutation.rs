//! Stepping through all arrangements of a vector, one swap at a time
//! (Heap's algorithm with an explicit counter stack).
use vstd::prelude::*;

verus! {

use vstd::assert_multisets_equal;
use vstd::seq_lib::to_multiset_update;

/// An iterator over the arrangements of a vector: each step swaps two
/// entries, so the arrangement always keeps the original elements.
pub struct Permutation {
    stack: Vec<u32>,
    i: usize,
    permutation: Vec<u32>,
    first_run: bool,
}

impl Permutation {
    /// Counter soundness: one counter per element, each bounded by its
    /// position, cursor inside the stack.
    pub closed spec fn wf(&self) -> bool {
        &&& self.stack@.len() == self.permutation@.len()
        &&& self.stack@.len() <= u32::MAX
        &&& self.i <= self.stack@.len()
        &&& forall|k: int| 0 <= k < self.stack@.len() ==> #[trigger] self.stack@[k] <= k
    }

    /// The current arrangement.
    pub closed spec fn spec_perm(&self) -> Seq<u32> {
        self.permutation@
    }

    /// Whether the stepper has not stepped yet.
    pub closed spec fn spec_fresh(&self) -> bool {
        self.first_run
    }

    /// Starts stepping from the given arrangement.
    pub fn new(vector: Vec<u32>) -> (p: Permutation)
        requires
            vector@.len() <= u32::MAX,
        ensures
            p.wf(),
            p.spec_perm() == vector@,
            p.spec_fresh(),
    {
        let n = vector.len();
        let mut stack: Vec<u32> = Vec::new();
        while stack.len() < n
            invariant
                stack@.len() <= n,
                forall|k: int| 0 <= k < stack@.len() ==> #[trigger] stack@[k] == 0,
            decreases n - stack@.len(),
        {
            stack.push(0);
        }
        Permutation { stack, i: 0, permutation: vector, first_run: true }
    }

    /// Swaps two entries of the arrangement.
    fn swap(&mut self, a: usize, b: usize)
        requires
            old(self).wf(),
            a < old(self).spec_perm().len(),
            b < old(self).spec_perm().len(),
        ensures
            final(self).wf(),
            final(self).spec_perm() == old(self).spec_perm().update(
                a as int,
                old(self).spec_perm()[b as int],
            ).update(b as int, old(self).spec_perm()[a as int]),
            final(self).spec_perm().to_multiset() == old(self).spec_perm().to_multiset(),
            final(self).stack == old(self).stack,
            final(self).i == old(self).i,
            final(self).first_run == old(self).first_run,
    {
        let ghost s = self.permutation@;
        let tmp = self.permutation[a];
        let other = self.permutation[b];
        self.permutation[a] = other;
        self.permutation[b] = tmp;
        proof {
            to_multiset_update(s, a as int, s[b as int]);
            to_multiset_update(s.update(a as int, s[b as int]), b as int, s[a as int]);
            if a == b {
                assert(self.permutation@ =~= s);
            } else {
                assert(s.update(a as int, s[b as int])[b as int] == s[b as int]);
                assert(s.contains(s[a as int]));
                assert(s.contains(s[b as int]));
                vstd::seq_lib::to_multiset_contains(s, s[a as int]);
                vstd::seq_lib::to_multiset_contains(s, s[b as int]);
                assert_multisets_equal!(self.permutation@.to_multiset(), s.to_multiset());
            }
        }
    }

    /// Steps to the next arrangement; false once every arrangement has been
    /// produced. The arrangement always holds exactly the original elements,
    /// the first step yields the starting arrangement itself, and an
    /// exhausted stepper leaves the arrangement alone.
    pub fn next(&mut self) -> (more: bool)
        requires
            old(self).wf(),
        ensures
            final(self).wf(),
            final(self).spec_perm().len() == old(self).spec_perm().len(),
            final(self).spec_perm().to_multiset() == old(self).spec_perm().to_multiset(),
            old(self).spec_fresh() ==> more && final(self).spec_perm() == old(self).spec_perm(),
            !more ==> final(self).spec_perm() == old(self).spec_perm(),
    {
        if self.first_run {
            self.first_run = false;
            return true;
        }
        loop
            invariant
                self.wf(),
                self.permutation == old(self).permutation,
                !self.first_run,
                self.first_run == old(self).first_run,
            ensures
                self.wf(),
                self.permutation == old(self).permutation,
                self.i < self.stack@.len(),
                self.stack@[self.i as int] < self.i,
            decreases self.stack@.len() - self.i,
        {
            if self.i >= self.stack.len() {
                return false;
            }
            if self.stack[self.i] as usize >= self.i {
                let cursor = self.i;
                self.stack[cursor] = 0;
                self.i = self.i + 1;
            } else {
                break;
            }
        }
        if self.i % 2 == 0 {
            let cursor = self.i;
            self.swap(0, cursor);
        } else {
            let at = self.stack[self.i] as usize;
            let cursor = self.i;
            self.swap(at, cursor);
        }
        let cursor = self.i;
        let bumped = self.stack[cursor] + 1;
        self.stack[cursor] = bumped;
        self.i = 0;
        true
    }

    /// The current arrangement.
    pub fn perm(&self) -> (v: &Vec<u32>)
        ensures
            v@ == self.spec_perm(),
    {
        &self.permutation
    }
}

} // verus!
