//! RGBA color tag carried by each body. The renderer reads it; the physics
//! never does.

use vstd::prelude::*;

verus! {

/// Color of a body, one byte per channel.
#[derive(Clone, Copy, PartialEq, Eq, Structural, Debug)]
pub struct PlanetColor {
    pub r: u8,
    pub g: u8,
    pub b: u8,
    pub a: u8,
}

impl PlanetColor {
    pub fn new(r: u8, g: u8, b: u8, a: u8) -> (c: PlanetColor)
        ensures
            c == (PlanetColor { r, g, b, a }),
    {
        PlanetColor { r, g, b, a }
    }

    pub fn white() -> (c: PlanetColor)
        ensures
            c == (PlanetColor { r: 255u8, g: 255u8, b: 255u8, a: 255u8 }),
    {
        Self::new(255, 255, 255, 255)
    }

    pub fn black() -> (c: PlanetColor)
        ensures
            c == (PlanetColor { r: 0u8, g: 0u8, b: 0u8, a: 255u8 }),
    {
        Self::new(0, 0, 0, 255)
    }

    pub fn red() -> (c: PlanetColor)
        ensures
            c == (PlanetColor { r: 255u8, g: 0u8, b: 0u8, a: 255u8 }),
    {
        Self::new(255, 0, 0, 255)
    }

    pub fn green() -> (c: PlanetColor)
        ensures
            c == (PlanetColor { r: 0u8, g: 255u8, b: 0u8, a: 255u8 }),
    {
        Self::new(0, 255, 0, 255)
    }

    pub fn blue() -> (c: PlanetColor)
        ensures
            c == (PlanetColor { r: 0u8, g: 0u8, b: 255u8, a: 255u8 }),
    {
        Self::new(0, 0, 255, 255)
    }
}

} // verus!
