use vstd::prelude::*;

verus! {

/// A prepend-only list: a stack with no removal.
///
/// Elements are stored oldest first; the abstract view lists them from the
/// head (most recently prepended) toward the tail (oldest).
#[derive(Debug)]
pub struct LinkedList<T> {
    items: Vec<T>,
}

impl<T> View for LinkedList<T> {
    type V = Seq<T>;

    /// The elements from head to tail.
    closed spec fn view(&self) -> Seq<T> {
        let n = self.items@.len();
        Seq::new(n, |i: int| self.items@[n - 1 - i])
    }
}

impl<T> LinkedList<T> {
    /// An empty list.
    pub fn new() -> (r: Self)
        ensures
            r@ == Seq::<T>::empty(),
    {
        let r = LinkedList { items: Vec::new() };
        assert(r@ =~= Seq::<T>::empty());
        r
    }

    /// Prepends `value`: it becomes the new head.
    pub fn push_front(&mut self, value: T)
        ensures
            final(self)@ == seq![value] + old(self)@,
    {
        self.items.push(value);
        assert(self@ =~= seq![value] + old(self)@);
    }

    /// An iterator over the elements from head to tail.
    pub fn iter(&self) -> (r: Iter<'_, T>)
        ensures
            r.wf(),
            r@ == self@,
    {
        Iter { list: self, remaining: self.items.len() }
    }
}

/// An iterator over a `LinkedList`, from head to tail.
pub struct Iter<'a, T> {
    list: &'a LinkedList<T>,
    /// The number of elements not yet visited; they are the oldest ones.
    remaining: usize,
}

impl<'a, T> View for Iter<'a, T> {
    type V = Seq<T>;

    /// The elements not yet visited, in visiting order.
    closed spec fn view(&self) -> Seq<T> {
        let n = self.list@.len() as int;
        self.list@.subrange(n - self.remaining, n)
    }
}

impl<'a, T> Iter<'a, T> {
    /// Whether the iterator points into its list.
    pub closed spec fn wf(&self) -> bool {
        self.remaining <= self.list@.len()
    }

    /// The next element, or `None` once every element has been visited.
    pub fn next(&mut self) -> (r: Option<&'a T>)
        requires
            old(self).wf(),
        ensures
            final(self).wf(),
            old(self)@.len() == 0 ==> r.is_none() && final(self)@ == old(self)@,
            old(self)@.len() > 0 ==> r == Some(&old(self)@[0]) && final(self)@
                == old(self)@.drop_first(),
    {
        if self.remaining == 0 {
            None
        } else {
            self.remaining = self.remaining - 1;
            let list: &'a LinkedList<T> = self.list;
            let r = &list.items[self.remaining];
            assert(self@ =~= old(self)@.drop_first());
            Some(r)
        }
    }
}

} // verus!
