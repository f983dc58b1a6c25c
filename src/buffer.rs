use vstd::prelude::*;

verus! {

/// The capacity a buffer of capacity `cap` grows to: eight on the first
/// growth, then twice the previous capacity.
pub open spec fn grown_capacity(cap: nat) -> nat {
    if cap < 8 {
        8
    } else {
        2 * cap
    }
}

/// A capacity that the growth policy can reach from an empty buffer.
pub open spec fn reachable_capacity(cap: nat) -> bool
    decreases cap,
{
    if cap == 0 || cap == 8 {
        true
    } else if cap < 16 || cap % 2 != 0 {
        false
    } else {
        reachable_capacity((cap / 2) as nat)
    }
}

/// Relies on `Vec::reserve_exact`: it changes the allocation only, never the
/// elements.
#[verifier::external_body]
fn reserve_exact<T>(v: &mut Vec<T>, additional: usize)
    ensures
        final(v)@ == old(v)@,
{
    v.reserve_exact(additional)
}

/// A contiguous, owned sequence of elements with an explicit growth policy.
///
/// `cap` is the number of element slots the buffer has reserved; the backing
/// storage holds at least that many.
pub struct GrowableBuffer<T> {
    items: Vec<T>,
    cap: usize,
}

impl<T> View for GrowableBuffer<T> {
    type V = Seq<T>;

    closed spec fn view(&self) -> Seq<T> {
        self.items@
    }
}

impl<T> GrowableBuffer<T> {
    pub closed spec fn capacity(&self) -> nat {
        self.cap as nat
    }

    pub closed spec fn wf(&self) -> bool {
        &&& self.items@.len() <= self.cap
        &&& reachable_capacity(self.cap as nat)
    }

    /// An empty buffer that has not allocated yet.
    pub fn new() -> (r: Self)
        ensures
            r.wf(),
            r@ == Seq::<T>::empty(),
            r.capacity() == 0,
    {
        GrowableBuffer { items: Vec::new(), cap: 0 }
    }

    pub fn len(&self) -> (r: usize)
        ensures
            r == self@.len(),
    {
        self.items.len()
    }

    pub fn cap(&self) -> (r: usize)
        ensures
            r == self.capacity(),
    {
        self.cap
    }

    pub fn get(&self, i: usize) -> (r: &T)
        requires
            i < self@.len(),
        ensures
            *r == self@[i as int],
    {
        &self.items[i]
    }

    pub fn as_vec(&self) -> (r: &Vec<T>)
        ensures
            r@ == self@,
    {
        &self.items
    }

    /// Appends `item`, first growing the capacity when the buffer is full.
    pub fn push(&mut self, item: T)
        requires
            old(self).wf(),
            old(self)@.len() < usize::MAX / 2,
        ensures
            final(self).wf(),
            final(self)@ == old(self)@.push(item),
            final(self).capacity() >= old(self).capacity(),
            old(self)@.len() < old(self).capacity() ==> final(self).capacity()
                == old(self).capacity(),
            old(self)@.len() == old(self).capacity() ==> final(self).capacity() == grown_capacity(
                old(self).capacity(),
            ),
    {
        let len = self.items.len();
        if len == self.cap {
            let new_cap: usize = if self.cap < 8 {
                8
            } else {
                2 * self.cap
            };
            proof {
                if self.cap >= 8 {
                    assert(reachable_capacity(new_cap as nat)) by {
                        assert((new_cap as nat / 2) as nat == self.cap as nat);
                    }
                }
            }
            reserve_exact(&mut self.items, new_cap - len);
            self.cap = new_cap;
        }
        self.items.push(item);
    }

    /// Removes and returns the last element, or `None` when the buffer is
    /// empty. The capacity is kept.
    pub fn pop(&mut self) -> (r: Option<T>)
        requires
            old(self).wf(),
        ensures
            final(self).wf(),
            final(self).capacity() == old(self).capacity(),
            old(self)@.len() == 0 ==> r is None && final(self)@ == old(self)@,
            old(self)@.len() > 0 ==> r == Some(old(self)@.last()) && final(self)@
                == old(self)@.drop_last(),
    {
        self.items.pop()
    }
}

} // verus!
