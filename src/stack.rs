use vstd::prelude::*;

verus! {

/// A persistent stack of borrowed frames; the top is the last frame.
pub enum BindingStack<'a, T> {
    Empty,
    HasValue { value: &'a T, previous: &'a BindingStack<'a, T> },
}

impl<'a, T> BindingStack<'a, T> {
    /// The frames, bottom first.
    pub open spec fn frames(self) -> Seq<T>
        decreases self,
    {
        match self {
            BindingStack::Empty => Seq::empty(),
            BindingStack::HasValue { value, previous } => previous.frames().push(*value),
        }
    }

    /// Splits off the top frame.
    pub fn open(self) -> (r: (&'a T, Self))
        requires
            self.frames().len() > 0,
        ensures
            *r.0 == self.frames().last(),
            r.1.frames() == self.frames().drop_last(),
    {
        match self {
            BindingStack::Empty => vstd::pervasive::unreached(),
            BindingStack::HasValue { value, previous } => (value, *previous),
        }
    }

    /// A stack with `value` pushed on top of this one.
    pub fn add_value<'b>(&'b self, value: &'b T) -> (r: BindingStack<'b, T>)
        ensures
            r.frames() == self.frames().push(*value),
    {
        BindingStack::HasValue { value, previous: self }
    }
}

impl<'a, T> Clone for BindingStack<'a, T> {
    fn clone(&self) -> (r: Self)
        ensures
            r == *self,
    {
        match self {
            BindingStack::Empty => BindingStack::Empty,
            BindingStack::HasValue { value, previous } => BindingStack::HasValue { value, previous },
        }
    }
}

impl<'a, T> Copy for BindingStack<'a, T> {

}

impl<'a, T> BindingStack<'a, T> {
    /// The stack `index` frames down from this one.
    pub fn nth_upward(self, index: usize) -> (r: Self)
        requires
            index <= self.frames().len(),
        ensures
            r.frames() == self.frames().subrange(0, self.frames().len() - index),
    {
        let mut out = self;
        let mut i: usize = 0;
        while i < index
            invariant
                i <= index,
                index <= self.frames().len(),
                out.frames() == self.frames().subrange(0, self.frames().len() - i),
            decreases index - i,
        {
            out = out.open().1;
            i += 1;
        }
        out
    }
}

impl<'a, T> BindingStack<'a, T> {
    /// The frame `index` places below the top, if the stack is that deep.
    pub fn lookup(self, index: usize) -> (r: Option<&'a T>)
        ensures
            r is Some <==> index < self.frames().len(),
            r matches Some(t) ==> *t == self.frames()[self.frames().len() - 1 - index],
    {
        let mut out = self;
        let mut i: usize = 0;
        loop
            invariant
                i <= index,
                self.frames().len() >= i,
                out.frames() == self.frames().subrange(0, self.frames().len() - i),
            decreases index - i,
        {
            match out {
                BindingStack::Empty => {
                    assert(out.frames().len() == 0);
                    return None;
                },
                BindingStack::HasValue { value, previous } => {
                    assert(out.frames() == previous.frames().push(*value));
                    assert(out.frames().last() == self.frames()[self.frames().len() - 1 - i]);
                    assert(previous.frames() =~= self.frames().subrange(
                        0,
                        self.frames().len() - i - 1,
                    ));
                    if i == index {
                        return Some(value);
                    }
                    out = *previous;
                    i += 1;
                },
            }
        }
    }
}

} // verus!
