//! Small color helpers.

use vstd::prelude::*;
use crate::paint::channel;

verus! {

/// Splits an `0xAARRGGBB` word into its red, green, blue and alpha bytes, in that order.
pub fn color_taple(color: u32) -> (r: (u8, u8, u8, u8))
    ensures
        r == (channel(color, 16), channel(color, 8), channel(color, 0), channel(color, 24)),
{
    let alpha: u8 = ((color >> 24) & 0xff) as u8;
    let red: u8 = ((color >> 16) & 0xff) as u8;
    let green: u8 = ((color >> 8) & 0xff) as u8;
    let blue: u8 = ((color >> 0) & 0xff) as u8;
    (red, green, blue, alpha)
}

} // verus!
