//! Packed 24-bit color values, used by consumers that rasterize the
//! geometry this crate computes.
use vstd::prelude::*;

verus! {

/// A color packed as `0x00RRGGBB` in a 32-bit word.
#[derive(Clone, Copy, Debug, PartialEq, Eq, Structural)]
pub struct RGB(pub u32);

impl RGB {
    /// Packs the three channels, red in the highest of the three bytes.
    pub fn new(red: u8, green: u8, blue: u8) -> (r: RGB)
        ensures
            r.0 == ((red as u32) << 16) | ((green as u32) << 8) | (blue as u32),
    {
        RGB(((red as u32) << 16) | ((green as u32) << 8) | (blue as u32))
    }

    pub fn black() -> (r: RGB)
        ensures
            r.0 == 0,
    {
        RGB(0u32)
    }

    pub fn white() -> (r: RGB)
        ensures
            r.0 == 0xfffffff,
    {
        RGB(0xfffffff)
    }

    pub fn red() -> (r: RGB)
        ensures
            r.0 == 0xff0000,
    {
        proof {
            assert((255u32 << 16) | (0u32 << 8) | 0u32 == 0xff0000) by (bit_vector);
        }
        RGB::new(255, 0, 0)
    }

    pub fn green() -> (r: RGB)
        ensures
            r.0 == 0xff00,
    {
        proof {
            assert((0u32 << 16) | (255u32 << 8) | 0u32 == 0xff00) by (bit_vector);
        }
        RGB::new(0, 255, 0)
    }
}

} // verus!
