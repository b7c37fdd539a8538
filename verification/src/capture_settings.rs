//! Catalog of the fixed screen regions that the control loop samples, one
//! per semantic indicator, each given as a display offset from the target
//! window's client-area origin.

use vstd::prelude::*;

verus! {

/// A capture rectangle `(left, top, width, height)` in screen coordinates,
/// built from the window's current client-area offset plus a fixed
/// per-indicator displacement. The layout is specific to one known UI
/// resolution, so widths and heights are constants.
#[derive(Clone, Copy, Debug)]
pub struct CapturePos {
    pub rect: (i32, i32, i32, i32),
}

impl CapturePos {
    /// Region of the "key ready" indicator.
    pub fn key_ready(offset_x: i32, offset_y: i32) -> (p: Self)
        requires
            offset_x + 158 <= i32::MAX,
            offset_y + 813 <= i32::MAX,
        ensures
            p.rect.0 == offset_x + 158,
            p.rect.1 == offset_y + 813,
            p.rect.2 == 21,
            p.rect.3 == 12,
    {
        Self { rect: (offset_x + 158, offset_y + 813, 21, 12) }
    }

    /// Region of the "energy is four bars" indicator.
    pub fn energy_four(offset_x: i32, offset_y: i32) -> (p: Self)
        requires
            offset_x + 169 <= i32::MAX,
            offset_y + 370 <= i32::MAX,
        ensures
            p.rect.0 == offset_x + 169,
            p.rect.1 == offset_y + 370,
            p.rect.2 == 40,
            p.rect.3 == 44,
    {
        Self { rect: (offset_x + 169, offset_y + 370, 40, 44) }
    }

    /// Region of the "energy is empty" indicator.
    pub fn energy_zero(offset_x: i32, offset_y: i32) -> (p: Self)
        requires
            offset_x + 169 <= i32::MAX,
            offset_y + 605 <= i32::MAX,
        ensures
            p.rect.0 == offset_x + 169,
            p.rect.1 == offset_y + 605,
            p.rect.2 == 40,
            p.rect.3 == 44,
    {
        Self { rect: (offset_x + 169, offset_y + 605, 40, 44) }
    }

    /// Region where the target-appeared banner shows.
    pub fn target(offset_x: i32, offset_y: i32) -> (p: Self)
        requires
            offset_x + 634 <= i32::MAX,
            offset_y + 490 <= i32::MAX,
        ensures
            p.rect.0 == offset_x + 634,
            p.rect.1 == offset_y + 490,
            p.rect.2 == 295,
            p.rect.3 == 50,
    {
        Self { rect: (offset_x + 634, offset_y + 490, 295, 50) }
    }

    /// Region scanned for the quick-time-event icon.
    pub fn qte(offset_x: i32, offset_y: i32) -> (p: Self)
        requires
            offset_x + 779 <= i32::MAX,
            offset_y + 382 <= i32::MAX,
        ensures
            p.rect.0 == offset_x + 779,
            p.rect.1 == offset_y + 382,
            p.rect.2 == 90,
            p.rect.3 == 110,
    {
        Self { rect: (offset_x + 779, offset_y + 382, 90, 110) }
    }

    /// Region of the bet-coin counter.
    pub fn coin_count(offset_x: i32, offset_y: i32) -> (p: Self)
        requires
            offset_x + 909 <= i32::MAX,
            offset_y + 845 <= i32::MAX,
        ensures
            p.rect.0 == offset_x + 909,
            p.rect.1 == offset_y + 845,
            p.rect.2 == 15,
            p.rect.3 == 15,
    {
        Self { rect: (offset_x + 909, offset_y + 845, 15, 15) }
    }
}

} // verus!
