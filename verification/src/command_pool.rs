use vstd::prelude::*;

verus! {

/// Two command buffers used in turn: one records while the other is submitted.
pub struct CommandBufferPair<H: Copy> {
    command_buffers: [H; 2],
    current_cb: usize,
}

impl<H: Copy> CommandBufferPair<H> {
    #[verifier::type_invariant]
    spec fn current_is_valid(self) -> bool {
        self.current_cb < 2
    }

    /// The two buffers.
    pub closed spec fn buffers(&self) -> Seq<H> {
        self.command_buffers@
    }

    /// Which of the two buffers records now.
    pub closed spec fn current(&self) -> usize {
        self.current_cb
    }

    /// The pair with the first buffer recording; the caller begins recording into it.
    pub fn new(command_buffers: [H; 2]) -> (p: Self)
        ensures
            p.buffers() == command_buffers@,
            p.current() == 0,
    {
        CommandBufferPair { command_buffers, current_cb: 0 }
    }

    /// The buffer that records now.
    pub fn current_cb(&self) -> (cb: H)
        ensures
            self.current() < 2,
            cb == self.buffers()[self.current() as int],
    {
        proof {
            use_type_invariant(self);
        }
        self.command_buffers[self.current_cb]
    }

    /// Hands out the buffer that has been recording and makes the other one current; the
    /// caller begins recording into the new current buffer.
    pub fn swap_buffers(&mut self) -> (cb: H)
        ensures
            old(self).current() < 2,
            cb == old(self).buffers()[old(self).current() as int],
            final(self).current() == 1 - old(self).current(),
            final(self).buffers() == old(self).buffers(),
    {
        proof {
            use_type_invariant(&*self);
        }
        let current_cb = self.current_cb();
        self.current_cb = 1 - self.current_cb;
        current_cb
    }
}

} // verus!
