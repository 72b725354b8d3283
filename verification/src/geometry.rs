//! Plain coordinates: addresses, sizes and regions.

use crate::text::{decimal, decimal_string};
use vstd::prelude::*;
use vstd::std_specs::convert::FromSpecImpl;
use vstd::string::StringExecFns;

verus! {

/// A two-dimensional integer coordinate: a pixel offset or a tile index.
#[derive(Clone, Copy, Debug, PartialEq, Eq, Structural)]
pub struct Address {
    pub x: u32,
    pub y: u32,
}

/// A width and a height, in pixels or in tiles.
#[derive(Clone, Copy, Debug, PartialEq, Eq, Structural)]
pub struct Size {
    pub h: u32,
    pub w: u32,
}

/// A rectangle of a slide: its origin in level-0 coordinates, the native
/// level it is read from, and its size in pixels of that level.
#[derive(Clone, Copy, Debug, PartialEq, Eq, Structural)]
pub struct Region {
    pub address: Address,
    pub level: usize,
    pub size: Size,
}

impl Address {
    /// The address written as `(x, y)`.
    pub open spec fn text(self) -> Seq<char> {
        "("@ + decimal(self.x as nat) + ", "@ + decimal(self.y as nat) + ")"@
    }

    /// Writes the address as `(x, y)`.
    pub fn to_text(&self) -> (out: String)
        ensures
            out@ == self.text(),
    {
        let x = decimal_string(self.x);
        let y = decimal_string(self.y);
        String::from_str("(").concat(x.as_str()).concat(", ").concat(y.as_str()).concat(")")
    }
}

impl From<(u32, u32)> for Address {
    fn from(address: (u32, u32)) -> (out: Self) {
        Address { x: address.0, y: address.1 }
    }
}

impl FromSpecImpl<(u32, u32)> for Address {
    open spec fn obeys_from_spec() -> bool {
        true
    }

    open spec fn from_spec(address: (u32, u32)) -> Self {
        Address { x: address.0, y: address.1 }
    }
}

impl From<(u32, u32)> for Size {
    fn from(size: (u32, u32)) -> (out: Self) {
        Size { w: size.0, h: size.1 }
    }
}

impl FromSpecImpl<(u32, u32)> for Size {
    open spec fn obeys_from_spec() -> bool {
        true
    }

    open spec fn from_spec(size: (u32, u32)) -> Self {
        Size { w: size.0, h: size.1 }
    }
}

} // verus!
