use vstd::prelude::*;

verus! {

/// Two buffers of which one is read while the other is written; `swap`
/// exchanges their roles.
pub struct DoubleBuffer<T: Clone> {
    buffer_a: T,
    buffer_b: T,
    swapped: bool,
}

impl<T: Clone> DoubleBuffer<T> {
    /// The buffer that is read.
    pub closed spec fn read(&self) -> T {
        if self.swapped {
            self.buffer_b
        } else {
            self.buffer_a
        }
    }

    /// The buffer that is written.
    pub closed spec fn write(&self) -> T {
        if self.swapped {
            self.buffer_a
        } else {
            self.buffer_b
        }
    }

    /// Whether the roles of the two buffers have been exchanged an odd number of times.
    pub closed spec fn is_swapped(&self) -> bool {
        self.swapped
    }

    /// A double buffer whose read buffer is `data` and whose write buffer is a clone of it.
    pub fn new(data: T) -> (r: DoubleBuffer<T>)
        ensures
            r.read() == data,
            cloned::<T>(data, r.write()),
            !r.is_swapped(),
    {
        let buffer_a = data;
        let buffer_b = buffer_a.clone();
        return Self { buffer_a, buffer_b, swapped: false };
    }

    /// Both buffers at once: the read buffer and, mutably, the write buffer.
    pub fn pick_read_and_write_buffer<'a>(&'a mut self) -> (r: (&'a T, &'a mut T))
        ensures
            *r.0 == old(self).read(),
            *r.1 == old(self).write(),
            final(self).read() == old(self).read(),
            final(self).write() == *final(r.1),
            final(self).is_swapped() == old(self).is_swapped(),
    {
        if self.swapped {
            (&self.buffer_b, &mut self.buffer_a)
        } else {
            (&self.buffer_a, &mut self.buffer_b)
        }
    }

    /// The buffer that is read.
    pub fn get_read_buffer(&self) -> (r: &T)
        ensures
            *r == self.read(),
    {
        if self.swapped {
            &self.buffer_b
        } else {
            &self.buffer_a
        }
    }

    /// Exchanges the roles of the two buffers.
    pub fn swap(&mut self)
        ensures
            final(self).read() == old(self).write(),
            final(self).write() == old(self).read(),
            final(self).is_swapped() == !old(self).is_swapped(),
    {
        self.swapped = !self.swapped;
    }
}

} // verus!
