//! Shirt items of the catalogue message schema.

use vstd::prelude::*;

verus! {

/// Size of a shirt.
#[derive(Clone, Copy, Debug, PartialEq, Eq)]
pub enum ShirtSize {
    Small,
    Medium,
    Large,
}

impl ShirtSize {
    /// The number a size is stored as in a `Shirt`.
    pub open spec fn spec_code(self) -> i32 {
        match self {
            ShirtSize::Small => 0,
            ShirtSize::Medium => 1,
            ShirtSize::Large => 2,
        }
    }

    /// The number a size is stored as in a `Shirt`.
    pub fn code(&self) -> (c: i32)
        ensures
            c == self.spec_code(),
    {
        match self {
            ShirtSize::Small => 0,
            ShirtSize::Medium => 1,
            ShirtSize::Large => 2,
        }
    }
}

/// A shirt: its color, and its size stored as a number (0 small, 1 medium,
/// 2 large).
#[derive(Debug, PartialEq, Eq)]
pub struct Shirt {
    pub color: String,
    pub size: i32,
}

impl Shirt {
    /// A shirt with an empty color and the default (small) size.
    pub fn new() -> (s: Shirt)
        ensures
            s.color@ == Seq::<char>::empty(),
            s.size == ShirtSize::Small.spec_code(),
    {
        Shirt { color: String::new(), size: 0 }
    }

    /// Sets the size.
    pub fn set_size(&mut self, size: ShirtSize)
        ensures
            final(self).size == size.spec_code(),
            final(self).color == old(self).color,
    {
        self.size = size.code();
    }
}

/// Returns a large shirt of the specified color.
pub fn create_large_shirt(color: String) -> (s: Shirt)
    ensures
        s.color@ == color@,
        s.size == ShirtSize::Large.spec_code(),
{
    let mut shirt = Shirt::new();
    shirt.color = color;
    shirt.set_size(ShirtSize::Large);
    shirt
}

} // verus!
