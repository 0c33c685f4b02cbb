use vstd::prelude::*;

verus! {

/// An integer type that can be compared, added and counted in.
pub trait Num: Sized {
    /// The value as a mathematical integer.
    spec fn value(&self) -> int;

    /// The least value of the type.
    spec fn least() -> int;

    /// The greatest value of the type.
    spec fn greatest() -> int;

    /// Every value lies between the least and the greatest.
    proof fn lemma_bounds(&self)
        ensures
            Self::least() <= self.value() <= Self::greatest(),
    ;

    /// -1, 0 or 1 as `self` is below, equal to or above `o`.
    fn cmp(&self, o: &Self) -> (r: isize)
        ensures
            r == (if self.value() < o.value() {
                -1int
            } else if self.value() > o.value() {
                1int
            } else {
                0int
            }),
    ;

    /// The sum, where it is a value of the type.
    fn add(&self, o: &Self) -> (r: Self)
        requires
            Self::least() <= self.value() + o.value() <= Self::greatest(),
        ensures
            r.value() == self.value() + o.value(),
    ;

    /// One.
    fn one() -> (r: Self)
        ensures
            r.value() == 1,
    ;
}

impl Num for isize {
    open spec fn value(&self) -> int {
        *self as int
    }

    open spec fn least() -> int {
        isize::MIN as int
    }

    open spec fn greatest() -> int {
        isize::MAX as int
    }

    proof fn lemma_bounds(&self) {
    }

    fn cmp(&self, o: &isize) -> (r: isize) {
        if *self < *o {
            -1
        } else if *self > *o {
            1
        } else {
            0
        }
    }

    fn add(&self, o: &isize) -> (r: isize) {
        *self + *o
    }

    fn one() -> (r: isize) {
        1
    }
}

impl Num for usize {
    open spec fn value(&self) -> int {
        *self as int
    }

    open spec fn least() -> int {
        0
    }

    open spec fn greatest() -> int {
        usize::MAX as int
    }

    proof fn lemma_bounds(&self) {
    }

    fn cmp(&self, o: &usize) -> (r: isize) {
        if *self < *o {
            -1
        } else if *self > *o {
            1
        } else {
            0
        }
    }

    fn add(&self, o: &usize) -> (r: usize) {
        *self + *o
    }

    fn one() -> (r: usize) {
        1
    }
}

impl Num for u32 {
    open spec fn value(&self) -> int {
        *self as int
    }

    open spec fn least() -> int {
        0
    }

    open spec fn greatest() -> int {
        u32::MAX as int
    }

    proof fn lemma_bounds(&self) {
    }

    fn cmp(&self, o: &u32) -> (r: isize) {
        if *self < *o {
            -1
        } else if *self > *o {
            1
        } else {
            0
        }
    }

    fn add(&self, o: &u32) -> (r: u32) {
        *self + *o
    }

    fn one() -> (r: u32) {
        1
    }
}

/// The values from a start up to, and without, a stop, one at a time.
pub struct Range<T> {
    state: T,
    stop: T,
}

impl<T: Num> Range<T> {
    /// The next value to hand out.
    pub closed spec fn current(&self) -> int {
        self.state.value()
    }

    /// The bound, which is never handed out.
    pub closed spec fn end(&self) -> int {
        self.stop.value()
    }
}

/// The values from `start` up to, and without, `stop`.
pub fn range<T: Num>(start: T, stop: T) -> (r: Range<T>)
    ensures
        r.current() == start.value(),
        r.end() == stop.value(),
{
    Range { state: start, stop }
}

impl<T: Num + Copy> Range<T> {
    /// Hands out the current value and moves past it, or `None` once the
    /// stop is reached.
    pub fn next(&mut self) -> (r: Option<T>)
        ensures
            old(self).current() < old(self).end() ==> r is Some && r->0.value()
                == old(self).current() && final(self).current() == old(self).current() + 1
                && final(self).end() == old(self).end(),
            old(self).current() >= old(self).end() ==> r is None && final(self).current()
                == old(self).current() && final(self).end() == old(self).end(),
    {
        if self.state.cmp(&self.stop) < 0 {
            let result = Some(self.state);
            proof {
                self.state.lemma_bounds();
                self.stop.lemma_bounds();
            }
            self.state = self.state.add(&T::one());
            result
        } else {
            None
        }
    }
}

} // verus!
