//! A dense vector that reads as zero past its end.
//!
//! Entries are scalars as the library carries them: the IEEE-754 binary64
//! bit pattern of each value. The all-zero pattern is `0.0`, the value that
//! missing positions take. Arithmetic on the values is done by the caller.
use vstd::prelude::*;

verus! {

/// A value as carried by the library: its binary64 bit pattern.
pub type Scalar = u64;

/// The scalar `0.0`.
pub const ZERO: Scalar = 0;

/// The order key of a scalar: an unsigned integer whose order is the
/// numeric order of the binary64 values (negative zero just below positive
/// zero, NaNs past the infinities).
pub open spec fn order_key_of(s: Scalar) -> u64 {
    if s >= 0x8000_0000_0000_0000 {
        (0xffff_ffff_ffff_ffff - s) as u64
    } else {
        (s + 0x8000_0000_0000_0000) as u64
    }
}

/// The order key of `s`, by which scores are ranked.
pub fn order_key(s: Scalar) -> (r: u64)
    ensures
        r == order_key_of(s),
{
    if s >= 0x8000_0000_0000_0000 {
        0xffff_ffff_ffff_ffff - s
    } else {
        s + 0x8000_0000_0000_0000
    }
}

/// The entry at `idx`, or zero past the end.
pub open spec fn element_at(s: Seq<Scalar>, idx: int) -> Scalar {
    if 0 <= idx < s.len() {
        s[idx]
    } else {
        ZERO
    }
}

/// `n` zeros.
pub open spec fn zeros(n: nat) -> Seq<Scalar> {
    Seq::new(n, |_i: int| ZERO)
}

#[derive(Debug, Clone, PartialEq, Eq)]
pub struct Vector {
    data: Vec<Scalar>,
}

impl View for Vector {
    type V = Seq<Scalar>;

    closed spec fn view(&self) -> Seq<Scalar> {
        self.data@
    }
}

impl Vector {
    pub fn empty() -> (r: Vector)
        ensures
            r@ == Seq::<Scalar>::empty(),
    {
        Vector { data: Vec::new() }
    }

    pub fn from_vec(data: Vec<Scalar>) -> (r: Vector)
        ensures
            r@ == data@,
    {
        Vector { data }
    }

    pub fn into_vec(self) -> (r: Vec<Scalar>)
        ensures
            r@ == self@,
    {
        self.data
    }

    pub fn len(&self) -> (r: usize)
        ensures
            r == self@.len(),
    {
        self.data.len()
    }

    /// The entry at `idx`, or zero if the vector is shorter.
    pub fn element(&self, idx: usize) -> (r: Scalar)
        ensures
            r == element_at(self@, idx as int),
    {
        if idx < self.data.len() {
            self.data[idx]
        } else {
            ZERO
        }
    }

    /// Extends the vector with zeros so that `idx` is in range; a vector
    /// that is long enough is left as it is.
    pub fn resize_to(&mut self, idx: usize)
        requires
            idx < usize::MAX,
        ensures
            idx < old(self)@.len() ==> final(self)@ == old(self)@,
            idx >= old(self)@.len() ==> final(self)@ == old(self)@ + zeros(
                (idx + 1 - old(self)@.len()) as nat,
            ),
    {
        if idx >= self.data.len() {
            let ghost start = self.data@;
            while self.data.len() <= idx
                invariant
                    idx < usize::MAX,
                    start.len() <= self.data@.len() <= idx + 1,
                    self.data@ == start + zeros((self.data@.len() - start.len()) as nat),
                decreases idx + 1 - self.data@.len(),
            {
                self.data.push(ZERO);
                assert(self.data@ =~= start + zeros((self.data@.len() - start.len()) as nat));
            }
        }
    }

    /// Sets the entry at `idx`, first extending the vector with zeros
    /// where it is too short.
    pub fn set_element(&mut self, idx: usize, value: Scalar)
        requires
            idx < usize::MAX,
        ensures
            final(self)@.len() == if idx < old(self)@.len() {
                old(self)@.len() as int
            } else {
                idx + 1
            },
            final(self)@[idx as int] == value,
            forall|i: int|
                0 <= i < final(self)@.len() && i != idx ==> final(self)@[i] == element_at(
                    old(self)@,
                    i,
                ),
    {
        self.resize_to(idx);
        self.data.set(idx, value);
    }

    /// The entries of this vector and `other` side by side, as far as the
    /// longer of the two reaches; the shorter one reads as zero past its end.
    pub fn combine(&self, other: &Vector) -> (r: Vec<(Scalar, Scalar)>)
        ensures
            r@.len() == if self@.len() >= other@.len() {
                self@.len()
            } else {
                other@.len()
            },
            forall|i: int|
                0 <= i < r@.len() ==> r@[i] == (element_at(self@, i), element_at(other@, i)),
    {
        let max = if self.data.len() >= other.data.len() {
            self.data.len()
        } else {
            other.data.len()
        };
        let mut r: Vec<(Scalar, Scalar)> = Vec::new();
        let mut i: usize = 0;
        while i < max
            invariant
                max == if self@.len() >= other@.len() {
                    self@.len()
                } else {
                    other@.len()
                },
                i <= max,
                r@.len() == i,
                forall|j: int|
                    0 <= j < i ==> r@[j] == (element_at(self@, j), element_at(other@, j)),
            decreases max - i,
        {
            r.push((self.element(i), other.element(i)));
            i = i + 1;
        }
        r
    }
}

} // verus!
