//! A small two-component vector with componentwise arithmetic.

use vstd::prelude::*;

verus! {

/// A pair of like-typed components.
#[derive(Clone, Copy, Debug)]
pub struct V2<T> {
    pub x: T,
    pub y: T,
}

/// A vector of pixel-space (unsigned) components.
pub type V2u = V2<usize>;

impl<T> V2<T> {
    /// Builds a vector from a pair.
    pub fn from(item: (T, T)) -> (r: V2<T>)
        ensures
            r.x == item.0,
            r.y == item.1,
    {
        let (x, y) = item;
        V2 { x, y }
    }
}

impl V2<usize> {
    /// Componentwise sum.
    pub fn add(&self, rhs: &V2<usize>) -> (r: V2<usize>)
        requires
            self.x + rhs.x <= usize::MAX,
            self.y + rhs.y <= usize::MAX,
        ensures
            r.x == self.x + rhs.x,
            r.y == self.y + rhs.y,
    {
        V2 { x: self.x + rhs.x, y: self.y + rhs.y }
    }

    /// Componentwise difference.
    pub fn sub(&self, rhs: &V2<usize>) -> (r: V2<usize>)
        requires
            rhs.x <= self.x,
            rhs.y <= self.y,
        ensures
            r.x == self.x - rhs.x,
            r.y == self.y - rhs.y,
    {
        V2 { x: self.x - rhs.x, y: self.y - rhs.y }
    }

    /// Componentwise product.
    pub fn mul(&self, rhs: &V2<usize>) -> (r: V2<usize>)
        requires
            self.x * rhs.x <= usize::MAX,
            self.y * rhs.y <= usize::MAX,
        ensures
            r.x == self.x * rhs.x,
            r.y == self.y * rhs.y,
    {
        V2 { x: self.x * rhs.x, y: self.y * rhs.y }
    }

    /// Componentwise quotient (truncating).
    pub fn div(&self, rhs: &V2<usize>) -> (r: V2<usize>)
        requires
            rhs.x != 0,
            rhs.y != 0,
        ensures
            r.x == self.x as int / rhs.x as int,
            r.y == self.y as int / rhs.y as int,
    {
        V2 { x: self.x / rhs.x, y: self.y / rhs.y }
    }
}

} // verus!
