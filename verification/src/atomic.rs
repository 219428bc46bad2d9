//! A single-slot atomic cell for a core without atomic instructions.
//!
//! On the target, every read-modify-write on an `Atomic<T>` is made
//! indivisible by running it with interrupts masked (a critical
//! section). The verified model takes the cell by exclusive borrow,
//! which gives the same indivisibility: no other observer can see an
//! intermediate state of a `&mut` operation.

use vstd::prelude::*;

verus! {

/// A single value made atomic by critical sections on the target.
#[derive(Debug)]
pub struct Atomic<T> {
    v: T,
}

pub type AtomicBool = Atomic<bool>;

/// What a `fetch_update` call reports, given the value before (`pre`)
/// and after (`post`) the call and its result `r`: on `Ok` the update
/// function chose the new value; on `Err` it declined and the cell is
/// untouched. Both sides return the prior value.
pub open spec fn fetch_update_result<T, F: Fn(T) -> Option<T>>(
    f: F,
    pre: T,
    post: T,
    r: Result<T, T>,
) -> bool {
    match r {
        Result::Ok(prev) => prev == pre && call_ensures(f, (pre,), Some(post)),
        Result::Err(prev) => prev == pre && post == pre && call_ensures(
            f,
            (pre,),
            Option::<T>::None,
        ),
    }
}

/// An update function that can only ever answer "no update" makes
/// `fetch_update` fail and leaves the cell unchanged.
pub proof fn lemma_fetch_update_noop<T, F: Fn(T) -> Option<T>>(
    f: F,
    pre: T,
    post: T,
    r: Result<T, T>,
)
    requires
        forall|x: T, y: Option<T>| call_ensures(f, (x,), y) ==> y is None,
        fetch_update_result(f, pre, post, r),
    ensures
        r == Result::<T, T>::Err(pre),
        post == pre,
{
}

impl<T: Copy> Atomic<T> {
    /// The value currently in the cell.
    pub closed spec fn value(self) -> T {
        self.v
    }

    pub fn new(v: T) -> (r: Self)
        ensures
            r.value() == v,
    {
        Atomic { v }
    }

    /// Direct access through an exclusive borrow; the target needs no
    /// critical section here because the borrow already excludes every
    /// other observer.
    pub fn get_mut(&mut self) -> (r: &mut T)
        ensures
            *r == old(self).value(),
            final(self).value() == *final(r),
    {
        &mut self.v
    }

    pub fn into_inner(self) -> (r: T)
        ensures
            r == self.value(),
    {
        self.v
    }

    pub fn load(&self) -> (r: T)
        ensures
            r == self.value(),
    {
        self.v
    }

    pub fn store(&mut self, v: T)
        ensures
            final(self).value() == v,
    {
        self.v = v;
    }

    pub fn swap(&mut self, v: T) -> (r: T)
        ensures
            final(self).value() == v,
            r == old(self).value(),
    {
        let old_v = self.v;
        self.v = v;
        old_v
    }
}

impl Atomic<u8> {
    /// Writes `new` and returns `Ok` with the prior value exactly when
    /// the prior value equals `current`; otherwise fails with the
    /// actual value, leaving the cell unchanged.
    pub fn compare_exchange(&mut self, current: u8, new: u8) -> (r: Result<u8, u8>)
        ensures
            old(self).value() == current ==> r == Result::<u8, u8>::Ok(current) && final(self).value() == new,
            old(self).value() != current ==> r == Result::<u8, u8>::Err(old(self).value()) && final(self).value() == old(self).value(),
    {
        let old_v = self.v;
        if old_v != current {
            Err(old_v)
        } else {
            self.v = new;
            Ok(current)
        }
    }

    pub fn fetch_add(&mut self, v: u8) -> (r: u8)
        requires
            old(self).value() + v <= u8::MAX,
        ensures
            r == old(self).value(),
            final(self).value() == old(self).value() + v,
    {
        let curr = self.v;
        self.v = curr + v;
        curr
    }

    pub fn fetch_sub(&mut self, v: u8) -> (r: u8)
        requires
            old(self).value() >= v,
        ensures
            r == old(self).value(),
            final(self).value() == old(self).value() - v,
    {
        let curr = self.v;
        self.v = curr - v;
        curr
    }

    pub fn fetch_and(&mut self, v: u8) -> (r: u8)
        ensures
            r == old(self).value(),
            final(self).value() == (old(self).value() & v),
    {
        let curr = self.v;
        self.v = curr & v;
        curr
    }

    pub fn fetch_nand(&mut self, v: u8) -> (r: u8)
        ensures
            r == old(self).value(),
            final(self).value() == !(old(self).value() & v),
    {
        let curr = self.v;
        self.v = !(curr & v);
        curr
    }

    pub fn fetch_or(&mut self, v: u8) -> (r: u8)
        ensures
            r == old(self).value(),
            final(self).value() == (old(self).value() | v),
    {
        let curr = self.v;
        self.v = curr | v;
        curr
    }

    pub fn fetch_xor(&mut self, v: u8) -> (r: u8)
        ensures
            r == old(self).value(),
            final(self).value() == (old(self).value() ^ v),
    {
        let curr = self.v;
        self.v = curr ^ v;
        curr
    }

    pub fn fetch_max(&mut self, v: u8) -> (r: u8)
        ensures
            r == old(self).value(),
            final(self).value() == if v > old(self).value() {
                v
            } else {
                old(self).value()
            },
    {
        let curr = self.v;
        self.v = if v > curr {
            v
        } else {
            curr
        };
        curr
    }

    pub fn fetch_min(&mut self, v: u8) -> (r: u8)
        ensures
            r == old(self).value(),
            final(self).value() == if v < old(self).value() {
                v
            } else {
                old(self).value()
            },
    {
        let curr = self.v;
        self.v = if v < curr {
            v
        } else {
            curr
        };
        curr
    }

    /// Loads the value, asks `f` for a replacement, and installs it
    /// with a compare-exchange. If `f` declines, fails at once without
    /// touching the cell.
    pub fn fetch_update<F: Fn(u8) -> Option<u8>>(&mut self, f: F) -> (r: Result<u8, u8>)
        requires
            call_requires(f, (old(self).value(),)),
        ensures
            fetch_update_result(f, old(self).value(), final(self).value(), r),
    {
        let curr = self.load();
        match f(curr) {
            None => Err(curr),
            Some(new) => {
                let exchanged = self.compare_exchange(curr, new);
                proof {
                    assert(exchanged is Ok);
                }
                Ok(curr)
            },
        }
    }
}

impl Atomic<u16> {
    /// Writes `new` and returns `Ok` with the prior value exactly when
    /// the prior value equals `current`; otherwise fails with the
    /// actual value, leaving the cell unchanged.
    pub fn compare_exchange(&mut self, current: u16, new: u16) -> (r: Result<u16, u16>)
        ensures
            old(self).value() == current ==> r == Result::<u16, u16>::Ok(current) && final(self).value() == new,
            old(self).value() != current ==> r == Result::<u16, u16>::Err(old(self).value())
                && final(self).value() == old(self).value(),
    {
        let old_v = self.v;
        if old_v != current {
            Err(old_v)
        } else {
            self.v = new;
            Ok(current)
        }
    }

    pub fn fetch_add(&mut self, v: u16) -> (r: u16)
        requires
            old(self).value() + v <= u16::MAX,
        ensures
            r == old(self).value(),
            final(self).value() == old(self).value() + v,
    {
        let curr = self.v;
        self.v = curr + v;
        curr
    }

    pub fn fetch_sub(&mut self, v: u16) -> (r: u16)
        requires
            old(self).value() >= v,
        ensures
            r == old(self).value(),
            final(self).value() == old(self).value() - v,
    {
        let curr = self.v;
        self.v = curr - v;
        curr
    }

    pub fn fetch_and(&mut self, v: u16) -> (r: u16)
        ensures
            r == old(self).value(),
            final(self).value() == (old(self).value() & v),
    {
        let curr = self.v;
        self.v = curr & v;
        curr
    }

    pub fn fetch_nand(&mut self, v: u16) -> (r: u16)
        ensures
            r == old(self).value(),
            final(self).value() == !(old(self).value() & v),
    {
        let curr = self.v;
        self.v = !(curr & v);
        curr
    }

    pub fn fetch_or(&mut self, v: u16) -> (r: u16)
        ensures
            r == old(self).value(),
            final(self).value() == (old(self).value() | v),
    {
        let curr = self.v;
        self.v = curr | v;
        curr
    }

    pub fn fetch_xor(&mut self, v: u16) -> (r: u16)
        ensures
            r == old(self).value(),
            final(self).value() == (old(self).value() ^ v),
    {
        let curr = self.v;
        self.v = curr ^ v;
        curr
    }

    pub fn fetch_max(&mut self, v: u16) -> (r: u16)
        ensures
            r == old(self).value(),
            final(self).value() == if v > old(self).value() {
                v
            } else {
                old(self).value()
            },
    {
        let curr = self.v;
        self.v = if v > curr {
            v
        } else {
            curr
        };
        curr
    }

    pub fn fetch_min(&mut self, v: u16) -> (r: u16)
        ensures
            r == old(self).value(),
            final(self).value() == if v < old(self).value() {
                v
            } else {
                old(self).value()
            },
    {
        let curr = self.v;
        self.v = if v < curr {
            v
        } else {
            curr
        };
        curr
    }

    /// Loads the value, asks `f` for a replacement, and installs it
    /// with a compare-exchange. If `f` declines, fails at once without
    /// touching the cell.
    pub fn fetch_update<F: Fn(u16) -> Option<u16>>(&mut self, f: F) -> (r: Result<u16, u16>)
        requires
            call_requires(f, (old(self).value(),)),
        ensures
            fetch_update_result(f, old(self).value(), final(self).value(), r),
    {
        let curr = self.load();
        match f(curr) {
            None => Err(curr),
            Some(new) => {
                let exchanged = self.compare_exchange(curr, new);
                proof {
                    assert(exchanged is Ok);
                }
                Ok(curr)
            },
        }
    }
}

} // verus!
