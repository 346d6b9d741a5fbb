use vstd::prelude::*;

verus! {

/// The last element of a non-empty vector.
pub fn last<T>(v: &Vec<T>) -> (r: &T)
    requires
        v@.len() >= 1,
    ensures
        r == v@.last(),
{
    &v[v.len() - 1]
}

/// A hierarchical stack of transforms mirroring scene nesting: entering a
/// child coordinate frame duplicates the top, leaving one discards it. The
/// stack always keeps at least its base element, so the root frame stays
/// addressable; a pop with only the base left is rejected as a no-op.
///
/// The element type is left generic: the scene composer instantiates it with
/// its 4x4 matrix, while every property of the stack discipline itself is
/// proved here once, for any element type.
pub struct TransformStack<T> {
    items: Vec<T>,
}

impl<T> View for TransformStack<T> {
    type V = Seq<T>;

    closed spec fn view(&self) -> Seq<T> {
        self.items@
    }
}

impl<T> TransformStack<T> {
    /// A transform stack is never empty: the base frame is always there.
    pub open spec fn wf(&self) -> bool {
        self@.len() >= 1
    }

    /// A fresh stack holding only the base frame.
    pub fn new(base: T) -> (s: TransformStack<T>)
        ensures
            s.wf(),
            s@ =~= seq![base],
    {
        let mut items = Vec::new();
        items.push(base);
        TransformStack { items }
    }

    /// How many frames are on the stack.
    pub fn depth(&self) -> (n: usize)
        ensures
            n == self@.len(),
    {
        self.items.len()
    }

    /// The current top of the stack.
    pub fn top(&self) -> (r: &T)
        requires
            self.wf(),
        ensures
            r == self@.last(),
    {
        last(&self.items)
    }

    /// Replace the top of the stack.
    pub fn set_top(&mut self, t: T)
        requires
            old(self).wf(),
        ensures
            final(self).wf(),
            final(self)@ == old(self)@.update(old(self)@.len() - 1, t),
    {
        let i = self.items.len() - 1;
        self.items[i] = t;
    }

    /// Enter a child coordinate frame: duplicate the current top onto the
    /// stack. Everything below the new top is untouched.
    pub fn push_dup(&mut self) where T: Clone
        requires
            old(self).wf(),
        ensures
            final(self).wf(),
            final(self)@.len() == old(self)@.len() + 1,
            final(self)@.subrange(0, old(self)@.len() as int) == old(self)@,
            cloned(old(self)@.last(), final(self)@.last()),
    {
        let top = self.items[self.items.len() - 1].clone();
        self.items.push(top);
        proof {
            assert(self@.subrange(0, old(self)@.len() as int) =~= old(self)@);
        }
    }

    /// Return to the parent coordinate frame: remove the top, handing it
    /// back. Popping with only the base frame left is rejected: the stack is
    /// unchanged and `None` comes back.
    pub fn pop(&mut self) -> (r: Option<T>)
        requires
            old(self).wf(),
        ensures
            final(self).wf(),
            old(self)@.len() >= 2 ==> r == Some(old(self)@.last()) && final(self)@ == old(
                self,
            )@.drop_last(),
            old(self)@.len() < 2 ==> r is None && final(self)@ == old(self)@,
    {
        if self.items.len() >= 2 {
            self.items.pop()
        } else {
            None
        }
    }
}

/// The stack contents after `n` single pops, each removing the top element.
pub open spec fn spec_pop_n<T>(s: Seq<T>, n: nat) -> Seq<T>
    decreases n,
{
    if n == 0 {
        s
    } else {
        spec_pop_n(s.drop_last(), (n - 1) as nat)
    }
}

/// Push/pop symmetry: whatever entries a run of pushes piled on top of a
/// stack, an equal number of pops restores the stack exactly as it was, top
/// element included. Each pop only ever removes the most recently pushed
/// entry, so the original frames are never disturbed.
pub proof fn lemma_push_pop_symmetry<T>(base: Seq<T>, pushed: Seq<T>)
    requires
        base.len() >= 1,
    ensures
        spec_pop_n(base + pushed, pushed.len()) == base,
    decreases pushed.len(),
{
    if pushed.len() == 0 {
        assert(base + pushed =~= base);
    } else {
        lemma_push_pop_symmetry(base, pushed.drop_last());
        assert((base + pushed).drop_last() =~= base + pushed.drop_last());
    }
}

} // verus!
