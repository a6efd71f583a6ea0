use vstd::prelude::*;

verus! {

/// A stack that refuses to grow past the size it was created with.
pub struct Stack<T> {
    max_size: usize,
    items: Vec<T>,
}

impl<T> View for Stack<T> {
    type V = Seq<T>;

    closed spec fn view(&self) -> Seq<T> {
        self.items@
    }
}

impl<T> Stack<T> {
    /// The largest number of items the stack holds.
    pub closed spec fn capacity(&self) -> nat {
        self.max_size as nat
    }

    pub closed spec fn wf(&self) -> bool {
        self.items@.len() <= self.max_size
    }

    pub fn with_capacity(max_size: usize) -> (r: Self)
        ensures
            r.wf(),
            r@ == Seq::<T>::empty(),
            r.capacity() == max_size,
    {
        Self { max_size, items: Vec::with_capacity(max_size) }
    }

    pub fn pop(&mut self) -> (r: Option<T>)
        ensures
            old(self)@.len() == 0 ==> r.is_none() && final(self)@ == old(self)@,
            old(self)@.len() > 0 ==> r == Some(old(self)@.last()) && final(self)@
                == old(self)@.drop_last(),
            final(self).capacity() == old(self).capacity(),
            old(self).wf() ==> final(self).wf(),
    {
        self.items.pop()
    }

    /// Pushes `item` unless the stack is full; tells whether it was pushed.
    pub fn push(&mut self, item: T) -> (r: bool)
        requires
            old(self).wf(),
        ensures
            final(self).wf(),
            r == (old(self)@.len() < old(self).capacity()),
            r ==> final(self)@ == old(self)@.push(item),
            !r ==> final(self)@ == old(self)@,
            final(self).capacity() == old(self).capacity(),
    {
        if self.items.len() == self.max_size {
            return false;
        }
        self.items.push(item);
        true
    }

    pub fn size(&self) -> (r: usize)
        ensures
            r == self@.len(),
    {
        self.items.len()
    }

    pub fn peek(&self) -> (r: Option<&T>)
        ensures
            self@.len() == 0 ==> r.is_none(),
            self@.len() > 0 ==> r == Some(&self@.last()),
    {
        self.items.last()
    }
}

} // verus!
