use vstd::prelude::*;

verus! {

/// Hands out identifiers for agents and ports in increasing order.
pub struct IdAllocator {
    next_id: usize,
}

impl IdAllocator {
    /// The identifier that the next call of `create_id` returns.
    pub closed spec fn next(&self) -> nat {
        self.next_id as nat
    }

    /// How many identifiers are still available.
    pub closed spec fn remaining(&self) -> nat {
        (usize::MAX - self.next_id) as nat
    }

    pub fn new() -> (r: Self)
        ensures
            r.next() == 0,
    {
        Self::new_at(0)
    }

    pub fn new_at(next_id: usize) -> (r: Self)
        ensures
            r.next() == next_id,
    {
        Self { next_id }
    }

    /// Moves the counter; identifiers below `value` may be handed out again.
    pub fn set_next_id(&mut self, value: usize)
        ensures
            final(self).next() == value,
    {
        self.next_id = value;
    }

    pub fn peek_next(&self) -> (r: usize)
        ensures
            r == self.next(),
    {
        self.next_id
    }

    /// How many identifiers are still available.
    pub fn available(&self) -> (r: usize)
        ensures
            r == self.remaining(),
            r == usize::MAX - self.next(),
    {
        usize::MAX - self.next_id
    }

    /// Gets the next available identifier. Running out of identifiers is a
    /// caller error, excluded by the precondition.
    pub fn create_id(&mut self) -> (r: usize)
        requires
            old(self).remaining() >= 1,
        ensures
            r == old(self).next(),
            final(self).next() == old(self).next() + 1,
            final(self).remaining() == old(self).remaining() - 1,
    {
        let r = self.next_id;
        self.next_id = self.next_id + 1;
        r
    }

    /// Retires an identifier. Identifiers are never recycled, so this leaves
    /// the allocator as it is.
    pub fn retire_id(&self, id: usize) {
        let _ = id;
    }
}

} // verus!
