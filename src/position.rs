use vstd::prelude::*;

verus! {

/// A board coordinate: `.0` is the row, `.1` the column. Also used as a
/// movement delta.
#[allow(non_camel_case_types)]
#[derive(Debug, Default, Clone, Copy, PartialEq, Eq, Structural)]
pub struct point(pub i32, pub i32);

/// Whether an integer fits in an `i32`.
pub open spec fn fits_i32(v: int) -> bool {
    i32::MIN <= v <= i32::MAX
}

impl point {
    /// Whether the component-wise sum of `self` and `rhs` is representable.
    pub open spec fn can_add(self, rhs: point) -> bool {
        fits_i32(self.0 + rhs.0) && fits_i32(self.1 + rhs.1)
    }

    /// Component-wise sum.
    pub fn add(self, rhs: point) -> (r: point)
        requires
            self.can_add(rhs),
        ensures
            r.0 == self.0 + rhs.0,
            r.1 == self.1 + rhs.1,
    {
        point(self.0 + rhs.0, self.1 + rhs.1)
    }

    /// In-place component-wise sum.
    pub fn add_assign(&mut self, rhs: point)
        requires
            old(self).can_add(rhs),
        ensures
            final(self).0 == old(self).0 + rhs.0,
            final(self).1 == old(self).1 + rhs.1,
    {
        self.0 = self.0 + rhs.0;
        self.1 = self.1 + rhs.1;
    }
}

} // verus!
