//! Single-producer single-consumer FIFO queue for ready coroutines.
//!
//! Storage is organized in fixed-size blocks: a bulk pop hands out at most
//! the rest of the consumer's current block in one call, so one batch never
//! crosses a block boundary. The cross-thread machinery (atomic indices,
//! cache padding) belongs to the shell around this library; here is the
//! queue's content discipline, with the pop position kept to reproduce the
//! block-bounded batching exactly.
use vstd::prelude::*;

verus! {

/// Entries per block: a bulk pop returns at most this many.
pub const BLOCK_SIZE: usize = 256;

/// The queue: items in arrival order, plus the number of items popped so
/// far (the position inside the current block).
pub struct Queue<T> {
    items: Vec<T>,
    pop_index: u64,
}

impl<T> View for Queue<T> {
    type V = Seq<T>;

    closed spec fn view(&self) -> Seq<T> {
        self.items@
    }
}

/// How many items one bulk pop takes: all of them, capped by the request
/// (when it is nonzero) and by the rest of the current block.
pub open spec fn bulk_count(len: int, popped: u64, expect: int) -> int {
    let block_rest = BLOCK_SIZE - popped % (BLOCK_SIZE as u64);
    let want = if expect == 0 {
        len
    } else if expect < len {
        expect
    } else {
        len
    };
    if want < block_rest {
        want
    } else {
        block_rest
    }
}

impl<T> Queue<T> {
    /// How many items have been popped since the queue was created
    /// (modulo the index width).
    pub closed spec fn popped(&self) -> u64 {
        self.pop_index
    }

    /// An empty queue.
    pub fn new() -> (q: Queue<T>)
        ensures
            q@ == Seq::<T>::empty(),
            q.popped() == 0,
    {
        Queue { items: Vec::new(), pop_index: 0 }
    }

    /// Append a value at the tail.
    pub fn push(&mut self, v: T)
        ensures
            final(self)@ == old(self)@.push(v),
            final(self).popped() == old(self).popped(),
    {
        self.items.push(v);
    }

    /// The head value, if any, left in place.
    pub fn peek(&self) -> (r: Option<&T>)
        ensures
            match r {
                Some(v) => self@.len() > 0 && *v == self@[0],
                None => self@.len() == 0,
            },
    {
        if self.items.len() > 0 {
            Some(&self.items[0])
        } else {
            None
        }
    }

    /// Remove and return the head value, if any.
    pub fn pop(&mut self) -> (r: Option<T>)
        ensures
            match r {
                Some(v) => old(self)@.len() > 0 && v == old(self)@[0] && final(self)@ == old(
                    self,
                )@.skip(1) && final(self).popped() == vstd::wrapping::u64_specs::wrapping_add(
                    old(self).popped(),
                    1,
                ),
                None => old(self)@.len() == 0 && *final(self) == *old(self),
            },
    {
        if self.items.len() > 0 {
            let v = self.items.remove(0);
            self.pop_index = self.pop_index.wrapping_add(1);
            Some(v)
        } else {
            None
        }
    }

    /// How many items sit in the queue.
    pub fn size(&self) -> (r: usize)
        ensures
            r == self@.len(),
    {
        self.items.len()
    }

    /// Pop up to `expect` items (everything when `expect` is zero) into
    /// `vec`, never crossing the current block boundary; returns how many
    /// were moved.
    pub fn bulk_pop_expect(&mut self, expect: usize, vec: &mut Vec<T>) -> (r: usize)
        ensures
            r == bulk_count(old(self)@.len() as int, old(self).popped(), expect as int),
            final(vec)@ == old(vec)@ + old(self)@.take(r as int),
            final(self)@ == old(self)@.skip(r as int),
            final(self).popped() == vstd::wrapping::u64_specs::wrapping_add(
                old(self).popped(),
                r as u64,
            ),
    {
        let len = self.items.len();
        let block_rest = BLOCK_SIZE - (self.pop_index % (BLOCK_SIZE as u64)) as usize;
        let want = if expect == 0 {
            len
        } else if expect < len {
            expect
        } else {
            len
        };
        let count = if want < block_rest {
            want
        } else {
            block_rest
        };
        let ghost pre = self.items@;
        let ghost vec_pre = vec@;
        let mut moved: usize = 0;
        while moved < count
            invariant
                moved <= count,
                count <= pre.len(),
                self.items@ == pre.skip(moved as int),
                vec@ == vec_pre + pre.take(moved as int),
                self.popped() == old(self).popped(),
            decreases count - moved,
        {
            let v = self.items.remove(0);
            vec.push(v);
            proof {
                assert(pre.skip(moved as int).skip(1) =~= pre.skip(moved + 1));
                assert(pre.skip(moved as int)[0] == pre[moved as int]);
                assert(pre.take(moved + 1) =~= pre.take(moved as int).push(pre[moved as int]));
            }
            moved = moved + 1;
        }
        self.pop_index = self.pop_index.wrapping_add(count as u64);
        proof {
            // the count stays within one block, so the wrap of the pop
            // index cannot change it
            assert(count as u64 <= BLOCK_SIZE as u64);
        }
        count
    }

    /// Pop as much as one block boundary allows.
    pub fn bulk_pop(&mut self, vec: &mut Vec<T>) -> (r: usize)
        ensures
            r == bulk_count(old(self)@.len() as int, old(self).popped(), 0),
            final(vec)@ == old(vec)@ + old(self)@.take(r as int),
            final(self)@ == old(self)@.skip(r as int),
            final(self).popped() == vstd::wrapping::u64_specs::wrapping_add(
                old(self).popped(),
                r as u64,
            ),
    {
        self.bulk_pop_expect(0, vec)
    }
}

impl<T> Default for Queue<T> {
    fn default() -> (q: Queue<T>)
        ensures
            q@ == Seq::<T>::empty(),
            q.popped() == 0,
    {
        Queue::new()
    }
}

} // verus!
