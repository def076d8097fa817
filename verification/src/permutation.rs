//! Permutations of `0..count` produced one at a time by the iterative form
//! of Heap's algorithm.
use crate::vec_extensions::{copy_vec, lemma_swap_multiset};
use vstd::prelude::*;

verus! {

/// The sequence `0, 1, ..., n-1`.
pub open spec fn ident_seq(n: int) -> Seq<i32> {
    Seq::new(n as nat, |k: int| k as i32)
}

/// `s` holds exactly the values `0..n`, each once, in some order.
pub open spec fn is_permutation(s: Seq<i32>, n: int) -> bool {
    s.to_multiset() == ident_seq(n).to_multiset()
}

/// One probe of Heap's algorithm from stack position `i`: at the first
/// position whose counter is below it, two row entries are exchanged, the
/// counter steps, and the scan restarts at position one — that exchange
/// yields the next permutation.  Positions whose counters have caught up
/// are reset and skipped; running off the end means exhaustion.
pub open spec fn heap_step(items: Seq<i32>, stack: Seq<usize>, i: int) -> (
    Seq<i32>,
    Seq<usize>,
    int,
    bool,
)
    decreases stack.len() - i,
{
    if i < 0 || i >= stack.len() {
        (items, stack, i, false)
    } else if stack[i] < i {
        let x: int = if i % 2 == 0 {
            0
        } else {
            stack[i] as int
        };
        (
            items.update(x, items[i]).update(i, items[x]),
            stack.update(i, (stack[i] + 1) as usize),
            1,
            true,
        )
    } else {
        heap_step(items, stack.update(i, 0usize), i + 1)
    }
}

/// Steps through every permutation of `0..count`, then yields nothing.
pub struct PermutationIter {
    i: usize,
    items: Vec<i32>,
    stack: Vec<usize>,
}

impl PermutationIter {
    pub closed spec fn spec_i(self) -> int {
        self.i as int
    }

    pub closed spec fn spec_items(self) -> Seq<i32> {
        self.items@
    }

    pub closed spec fn spec_stack(self) -> Seq<usize> {
        self.stack@
    }

    /// The working row always holds a permutation of `0..count`.
    pub open spec fn wf(self) -> bool {
        &&& self.spec_stack().len() == self.spec_items().len()
        &&& is_permutation(self.spec_items(), self.spec_items().len() as int)
    }

    /// An iterator over the permutations of `0..count`, starting from the
    /// identity arrangement.
    pub fn new(count: usize) -> (r: PermutationIter)
        requires
            count <= 0x7fff_ffff,
        ensures
            r.wf(),
            r.spec_i() == 0,
            r.spec_items() == ident_seq(count as int),
            r.spec_items().len() == count,
            forall|j: int| 0 <= j < count ==> #[trigger] r.spec_stack()[j] == 0,
    {
        let mut stack: Vec<usize> = Vec::new();
        let mut items: Vec<i32> = Vec::new();
        let mut i: usize = 0;
        while i < count
            invariant
                count <= 0x7fff_ffff,
                i <= count,
                stack@.len() == i,
                items@.len() == i,
                forall|j: int| 0 <= j < i ==> #[trigger] stack@[j] == 0,
                items@ == ident_seq(i as int),
            decreases count - i,
        {
            stack.push(0);
            items.push(i as i32);
            proof {
                assert(items@ =~= ident_seq(i + 1));
            }
            i = i + 1;
        }
        let r = PermutationIter { i: 0, items, stack };
        proof {
            assert(is_permutation(r.spec_items(), count as int));
        }
        r
    }

    /// The next permutation: the current row first, then the row after each
    /// exchange of Heap's algorithm, exactly as `heap_step` describes, and
    /// `None` once all rows have been handed out.
    pub fn next(&mut self) -> (r: Option<Vec<i32>>)
        requires
            old(self).wf(),
        ensures
            final(self).wf(),
            final(self).spec_items().len() == old(self).spec_items().len(),
            r matches Some(v) ==> v@ == final(self).spec_items() && is_permutation(
                v@,
                old(self).spec_items().len() as int,
            ),
            old(self).spec_i() == 0 ==> (r matches Some(v) && v@ == old(self).spec_items()
                && final(self).spec_items() == old(self).spec_items() && final(self).spec_stack()
                == old(self).spec_stack() && final(self).spec_i() == 1),
            r is None ==> final(self).spec_items() == old(self).spec_items(),
            old(self).spec_i() >= 1 ==> ({
                let (items2, stack2, i2, yielded) = heap_step(
                    old(self).spec_items(),
                    old(self).spec_stack(),
                    old(self).spec_i(),
                );
                &&& final(self).spec_items() == items2
                &&& final(self).spec_stack() == stack2
                &&& final(self).spec_i() == i2
                &&& (yielded ==> (r matches Some(v) && v@ == items2))
                &&& (!yielded ==> r is None)
            }),
    {
        let ghost n = self.items@.len() as int;
        if self.i == 0 {
            self.i = self.i + 1;
            return Some(copy_vec(&self.items));
        }
        let ghost step_goal = heap_step(
            old(self).spec_items(),
            old(self).spec_stack(),
            old(self).spec_i(),
        );
        while self.i < self.stack.len()
            invariant
                self.stack@.len() == self.items@.len(),
                self.items@.len() == n,
                is_permutation(self.items@, n),
                self.items@ == old(self).spec_items(),
                self.i >= 1,
                old(self).spec_i() >= 1,
                step_goal == heap_step(
                    old(self).spec_items(),
                    old(self).spec_stack(),
                    old(self).spec_i(),
                ),
                step_goal == heap_step(self.items@, self.stack@, self.i as int),
            decreases self.stack@.len() - self.i,
        {
            if self.stack[self.i] < self.i {
                let y: usize = self.i;
                let x: usize = if y % 2 == 0 {
                    0
                } else {
                    self.stack[y]
                };
                let ghost before = self.items@;
                let a: i32 = self.items[x];
                let b: i32 = self.items[y];
                self.items[x] = b;
                self.items[y] = a;
                proof {
                    lemma_swap_multiset(before, x as int, y as int);
                    assert(self.items@ == before.update(x as int, before[y as int]).update(
                        y as int,
                        before[x as int],
                    ));
                }
                let ghost stack_before = self.stack@;
                let bump: usize = self.stack[y] + 1;
                self.stack[y] = bump;
                self.i = 1;
                proof {
                    assert(self.stack@ == stack_before.update(y as int, bump));
                    assert(step_goal == (self.items@, self.stack@, 1int, true));
                }
                return Some(copy_vec(&self.items));
            } else {
                let ghost stack_before = self.stack@;
                self.stack[self.i] = 0;
                proof {
                    assert(self.stack@ == stack_before.update(self.i as int, 0usize));
                    assert(step_goal == heap_step(self.items@, self.stack@, self.i + 1));
                }
                self.i = self.i + 1;
            }
        }
        proof {
            assert(step_goal == (self.items@, self.stack@, self.i as int, false));
        }
        None
    }
}

} // verus!
