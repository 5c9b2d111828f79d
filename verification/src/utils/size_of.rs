//! Sizes of trees, counted through all their allocations.

use vstd::prelude::*;

verus! {

/// Get the size of a structure, including all included allocations.  The
/// size of a `Vec` depends on the capacity that its allocator gave, so only
/// a lower bound of it is stated.
pub trait SizeOf {
    /// The bytes that the allocations of `self` take at least: what they
    /// would take were every buffer as long as its contents
    spec fn least_size(&self) -> nat;

    /// get the size of self
    fn size(&self) -> (res: usize)
        ensures
            res >= sat(self.least_size() as int),
    ;
}

/// Helper for pretty printing byte sizes
#[derive(Debug, Clone, Copy, PartialEq, Eq, Structural)]
pub struct Size(pub usize);

/// The capacity of a vector: `Vec::capacity`, which is never below its
/// length.
#[verifier::external_body]
fn vec_capacity<T>(v: &Vec<T>) -> (res: usize)
    ensures
        res >= v@.len(),
{
    v.capacity()
}

/// `x`, or `usize::MAX` when it is larger
pub open spec fn sat(x: int) -> int {
    if x > usize::MAX {
        usize::MAX as int
    } else {
        x
    }
}

/// The bytes that the elements of a list take in a buffer of its length
pub open spec fn least_buffer<T>(s: Seq<T>) -> nat {
    s.len() * vstd::layout::size_of::<T>()
}

/// Sum of two sizes, saturating at `usize::MAX`
pub fn add_size(a: usize, b: usize) -> (res: usize)
    ensures
        res == sat(a + b),
{
    a.saturating_add(b)
}

/// The bytes that the buffer of a vector takes: its capacity times the
/// size of an element, saturating at `usize::MAX`
pub fn buffer_size<T>(v: &Vec<T>) -> (res: usize)
    ensures
        res >= sat(least_buffer(v@) as int),
{
    let cap = vec_capacity(v);
    let elem = core::mem::size_of::<T>();
    match cap.checked_mul(elem) {
        Some(n) => {
            proof {
                vstd::arithmetic::mul::lemma_mul_inequality(
                    v@.len() as int,
                    cap as int,
                    elem as int,
                );
            }
            n
        },
        None => usize::MAX,
    }
}

/// What the items of a list hold, at least
pub open spec fn sum_least<T: SizeOf>(s: Seq<T>) -> nat
    decreases s.len(),
{
    if s.len() == 0 {
        0
    } else {
        sum_least(s.drop_last()) + s.last().least_size()
    }
}

impl<T: SizeOf> SizeOf for Vec<T> {
    open spec fn least_size(&self) -> nat {
        sum_least(self@) + least_buffer(self@)
    }

    fn size(&self) -> usize {
        let mut inner: usize = 0;
        let mut i: usize = 0;
        while i < self.len()
            invariant
                i <= self@.len(),
                inner >= sat(sum_least(self@.take(i as int)) as int),
            decreases self@.len() - i,
        {
            proof {
                assert(self@.take(i + 1).drop_last() =~= self@.take(i as int));
            }
            inner = add_size(inner, self[i].size());
            i = i + 1;
        }
        proof {
            assert(self@.take(i as int) =~= self@);
        }
        add_size(inner, buffer_size(self))
    }
}

impl<T: SizeOf> SizeOf for Option<T> {
    open spec fn least_size(&self) -> nat {
        match self {
            Some(t) => t.least_size(),
            None => 0,
        }
    }

    fn size(&self) -> usize {
        match self {
            Some(t) => t.size(),
            None => 0,
        }
    }
}

impl<A: SizeOf, B: SizeOf> SizeOf for (A, B) {
    open spec fn least_size(&self) -> nat {
        self.0.least_size() + self.1.least_size()
    }

    fn size(&self) -> usize {
        add_size(self.0.size(), self.1.size())
    }
}

impl<T: SizeOf> SizeOf for Box<T> {
    open spec fn least_size(&self) -> nat {
        vstd::layout::size_of::<T>() + (**self).least_size()
    }

    fn size(&self) -> usize {
        add_size(core::mem::size_of::<T>(), (**self).size())
    }
}

impl<T: SizeOf> SizeOf for &T {
    open spec fn least_size(&self) -> nat {
        (**self).least_size()
    }

    fn size(&self) -> usize {
        (**self).size()
    }
}

impl SizeOf for bool {
    open spec fn least_size(&self) -> nat {
        0
    }

    fn size(&self) -> (res: usize)
        ensures
            res == 0,
    {
        0
    }
}

impl SizeOf for u8 {
    open spec fn least_size(&self) -> nat {
        0
    }

    fn size(&self) -> (res: usize)
        ensures
            res == 0,
    {
        0
    }
}

impl SizeOf for usize {
    open spec fn least_size(&self) -> nat {
        0
    }

    fn size(&self) -> (res: usize)
        ensures
            res == 0,
    {
        0
    }
}

} // verus!
