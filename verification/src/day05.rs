//! Crate stacks and the crane moves between them.
use vstd::prelude::*;

verus! {

/// How many stacks a drawing may hold.
pub const STACKS_MAX: usize = 9;

/// A fixed board of crate stacks; the top of a stack is its last element.
pub struct Stacks(pub Vec<Vec<u8>>);

impl Stacks {
    /// The board always holds exactly `STACKS_MAX` stacks.
    pub open spec fn wf(&self) -> bool {
        self.0@.len() == STACKS_MAX
    }

    /// An empty board.
    pub fn new() -> (r: Stacks)
        ensures
            r.wf(),
            forall|i: int| 0 <= i < STACKS_MAX ==> (#[trigger] r.0@[i])@.len() == 0,
    {
        let mut v: Vec<Vec<u8>> = Vec::new();
        let mut i: usize = 0;
        while i < STACKS_MAX
            invariant
                i <= STACKS_MAX,
                v@.len() == i,
                forall|k: int| 0 <= k < i ==> (#[trigger] v@[k])@.len() == 0,
            decreases STACKS_MAX - i,
        {
            v.push(Vec::new());
            i = i + 1;
        }
        Stacks(v)
    }

    /// Reads one drawing line: every fourth byte (offset 1) is a crate label
    /// or a blank, and each label is pushed onto its stack.
    #[verifier::loop_isolation(false)]
    pub fn feed(&mut self, line: &[u8])
        requires
            old(self).wf(),
            line@.len() + 1 <= STACKS_MAX * 4,
        ensures
            final(self).wf(),
            forall|i: int|
                0 <= i < (line@.len() + 1) / 4 ==> (#[trigger] final(self).0@[i])@ == (if line@[i
                    * 4 + 1] != 32 {
                    old(self).0@[i]@.push(line@[i * 4 + 1])
                } else {
                    old(self).0@[i]@
                }),
            forall|i: int|
                (line@.len() + 1) / 4 <= i < STACKS_MAX ==> (#[trigger] final(self).0@[i])@ == old(
                    self,
                ).0@[i]@,
    {
        let stacks_on_line = (line.len() + 1) / 4;
        let mut i: usize = 0;
        while i < stacks_on_line
            invariant
                i <= stacks_on_line,
                self.wf(),
                forall|k: int|
                    0 <= k < i ==> (#[trigger] self.0@[k])@ == (if line@[k * 4 + 1] != 32 {
                        old(self).0@[k]@.push(line@[k * 4 + 1])
                    } else {
                        old(self).0@[k]@
                    }),
                forall|k: int| i <= k < STACKS_MAX ==> (#[trigger] self.0@[k])@ == old(self).0@[k]@,
            decreases stacks_on_line - i,
        {
            proof {
                vstd::arithmetic::div_mod::lemma_fundamental_div_mod(
                    line@.len() as int + 1,
                    4,
                );
                assert(i * 4 + 1 < line@.len()) by (nonlinear_arith)
                    requires
                        i < stacks_on_line,
                        stacks_on_line == (line@.len() + 1) / 4,
                        line@.len() + 1 == 4 * ((line@.len() + 1) / 4) + (line@.len() + 1) % 4,
                        0 <= (line@.len() + 1) % 4 < 4,
                ;
            }
            let ch = line[i * 4 + 1];
            if ch != 32 {
                let mut stack: Vec<u8> = Vec::new();
                core::mem::swap(&mut stack, &mut self.0[i]);
                stack.push(ch);
                core::mem::swap(&mut stack, &mut self.0[i]);
            }
            i = i + 1;
        }
    }

    /// Reverses every stack: the drawing is fed top-down, so this turns the
    /// board into bottom-up order.
    pub fn prepare(&mut self)
        requires
            old(self).wf(),
        ensures
            final(self).wf(),
            forall|i: int|
                0 <= i < STACKS_MAX ==> (#[trigger] final(self).0@[i])@ == old(
                    self,
                ).0@[i]@.reverse(),
    {
        let mut i: usize = 0;
        while i < STACKS_MAX
            invariant
                i <= STACKS_MAX,
                self.wf(),
                forall|k: int|
                    0 <= k < i ==> (#[trigger] self.0@[k])@ == old(self).0@[k]@.reverse(),
                forall|k: int| i <= k < STACKS_MAX ==> (#[trigger] self.0@[k])@ == old(self).0@[k]@,
            decreases STACKS_MAX - i,
        {
            let mut stack: Vec<u8> = Vec::new();
            core::mem::swap(&mut stack, &mut self.0[i]);
            let mut rev: Vec<u8> = Vec::new();
            let mut k = stack.len();
            while k > 0
                invariant
                    k <= stack@.len(),
                    rev@.len() == stack@.len() - k,
                    forall|k2: int|
                        0 <= k2 < rev@.len() ==> #[trigger] rev@[k2] == stack@[stack@.len() - 1
                            - k2],
                decreases k,
            {
                k = k - 1;
                rev.push(stack[k]);
            }
            proof {
                assert(rev@ =~= stack@.reverse());
            }
            let mut slot: Vec<u8> = rev;
            core::mem::swap(&mut slot, &mut self.0[i]);
            i = i + 1;
        }
    }

    /// Moves `count` crates one at a time from stack `from` to stack `to`:
    /// they arrive in reversed order.
    #[verifier::loop_isolation(false)]
    pub fn move_items_lifo(&mut self, count: usize, from: usize, to: usize)
        requires
            old(self).wf(),
            from < STACKS_MAX,
            to < STACKS_MAX,
            from != to,
            count <= old(self).0@[from as int]@.len(),
        ensures
            final(self).wf(),
            final(self).0@[from as int]@ == old(self).0@[from as int]@.take(
                old(self).0@[from as int]@.len() - count,
            ),
            final(self).0@[to as int]@ == old(self).0@[to as int]@ + old(
                self,
            ).0@[from as int]@.skip(old(self).0@[from as int]@.len() - count).reverse(),
            forall|i: int|
                0 <= i < STACKS_MAX && i != from && i != to ==> (#[trigger] final(self).0@[i])@
                    == old(self).0@[i]@,
    {
        let len = self.0[from].len();
        let ghost src = old(self).0@[from as int]@;
        let mut idx: usize = 0;
        while idx < count
            invariant
                idx <= count,
                self.wf(),
                self.0@[from as int]@ == src,
                self.0@[to as int]@.len() == old(self).0@[to as int]@.len() + idx,
                self.0@[to as int]@ == old(self).0@[to as int]@ + src.skip(
                    src.len() - idx,
                ).reverse(),
                forall|i: int|
                    0 <= i < STACKS_MAX && i != from && i != to ==> (#[trigger] self.0@[i])@
                        == old(self).0@[i]@,
            decreases count - idx,
        {
            let val = self.0[from][len - idx - 1];
            let mut stack: Vec<u8> = Vec::new();
            core::mem::swap(&mut stack, &mut self.0[to]);
            stack.push(val);
            core::mem::swap(&mut stack, &mut self.0[to]);
            proof {
                assert(self.0@[to as int]@ =~= old(self).0@[to as int]@ + src.skip(
                    src.len() - (idx + 1),
                ).reverse());
            }
            idx = idx + 1;
        }
        let mut stack: Vec<u8> = Vec::new();
        core::mem::swap(&mut stack, &mut self.0[from]);
        stack.truncate(len - count);
        core::mem::swap(&mut stack, &mut self.0[from]);
        proof {
            assert(self.0@[from as int]@ =~= src.take(src.len() - count));
        }
    }

    /// Moves `count` crates in one grab from stack `from` to stack `to`:
    /// they arrive in their original order.
    #[verifier::loop_isolation(false)]
    pub fn move_items_fifo(&mut self, count: usize, from: usize, to: usize)
        requires
            old(self).wf(),
            from < STACKS_MAX,
            to < STACKS_MAX,
            from != to,
            count <= old(self).0@[from as int]@.len(),
        ensures
            final(self).wf(),
            final(self).0@[from as int]@ == old(self).0@[from as int]@.take(
                old(self).0@[from as int]@.len() - count,
            ),
            final(self).0@[to as int]@ == old(self).0@[to as int]@ + old(
                self,
            ).0@[from as int]@.skip(old(self).0@[from as int]@.len() - count),
            forall|i: int|
                0 <= i < STACKS_MAX && i != from && i != to ==> (#[trigger] final(self).0@[i])@
                    == old(self).0@[i]@,
    {
        let len = self.0[from].len();
        let ghost src = old(self).0@[from as int]@;
        let mut idx: usize = 0;
        while idx < count
            invariant
                idx <= count,
                self.wf(),
                self.0@[from as int]@ == src,
                self.0@[to as int]@ == old(self).0@[to as int]@ + src.subrange(
                    src.len() - count,
                    src.len() - count + idx,
                ),
                forall|i: int|
                    0 <= i < STACKS_MAX && i != from && i != to ==> (#[trigger] self.0@[i])@
                        == old(self).0@[i]@,
            decreases count - idx,
        {
            let val = self.0[from][len - count + idx];
            let mut stack: Vec<u8> = Vec::new();
            core::mem::swap(&mut stack, &mut self.0[to]);
            stack.push(val);
            core::mem::swap(&mut stack, &mut self.0[to]);
            proof {
                assert(self.0@[to as int]@ =~= old(self).0@[to as int]@ + src.subrange(
                    src.len() - count,
                    src.len() - count + idx + 1,
                ));
            }
            idx = idx + 1;
        }
        let mut stack: Vec<u8> = Vec::new();
        core::mem::swap(&mut stack, &mut self.0[from]);
        stack.truncate(len - count);
        core::mem::swap(&mut stack, &mut self.0[from]);
        proof {
            assert(self.0@[from as int]@ =~= src.take(src.len() - count));
            assert(src.subrange(src.len() - count, src.len() as int) =~= src.skip(src.len() - count));
        }
    }

    /// The top crates of the non-empty stacks, left to right.
    pub open spec fn spec_tops(s: Seq<Vec<u8>>) -> Seq<u8>
        decreases s.len(),
    {
        if s.len() == 0 {
            Seq::empty()
        } else if s.last()@.len() == 0 {
            Self::spec_tops(s.drop_last())
        } else {
            Self::spec_tops(s.drop_last()).push(s.last()@.last())
        }
    }

    /// The top crates of the non-empty stacks, left to right.
    #[verifier::loop_isolation(false)]
    pub fn tops(&self) -> (r: Vec<u8>)
        requires
            self.wf(),
        ensures
            r@ == Self::spec_tops(self.0@),
    {
        let mut r: Vec<u8> = Vec::new();
        let mut i: usize = 0;
        proof {
            assert(self.0@.take(0) =~= Seq::<Vec<u8>>::empty());
        }
        while i < STACKS_MAX
            invariant
                i <= STACKS_MAX,
                r@ == Self::spec_tops(self.0@.take(i as int)),
            decreases STACKS_MAX - i,
        {
            proof {
                assert(self.0@.take(i + 1).drop_last() =~= self.0@.take(i as int));
                assert(self.0@.take(i + 1).last() == self.0@[i as int]);
            }
            let n = self.0[i].len();
            if n > 0 {
                let val = self.0[i][n - 1];
                r.push(val);
            }
            i = i + 1;
        }
        proof {
            assert(self.0@.take(STACKS_MAX as int) =~= self.0@);
        }
        r
    }
}

} // verus!
