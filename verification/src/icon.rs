use vstd::prelude::*;

verus! {

/// The side of the tray icon, in pixels.
pub const TRAY_ICON_SIDE: u32 = 32;

/// The red, green, blue and alpha bytes of the tray icon's colour.
pub open spec fn tray_color(k: int) -> u8 {
    if k == 0 {
        160
    } else if k == 1 {
        40
    } else if k == 2 {
        40
    } else {
        255
    }
}

/// The RGBA pixels of a square icon of one colour, row by row: every pixel is
/// `160, 40, 40, 255`.
pub fn tray_icon_rgba(side: u32) -> (r: Vec<u8>)
    requires
        side * side * 4 <= usize::MAX,
    ensures
        r@.len() == side * side * 4,
        forall|i: int| 0 <= i < r@.len() ==> #[trigger] r@[i] == tray_color(i % 4),
{
    let s = side as usize;
    assert(s * s <= side * side * 4) by (nonlinear_arith)
        requires
            s == side,
    ;
    let pixels = s * s;
    let mut r: Vec<u8> = Vec::new();
    let mut p: usize = 0;
    while p < pixels
        invariant
            pixels == side * side,
            pixels * 4 <= usize::MAX,
            p <= pixels,
            r@.len() == p * 4,
            forall|i: int| 0 <= i < r@.len() ==> #[trigger] r@[i] == tray_color(i % 4),
        decreases pixels - p,
    {
        let ghost before = r@;
        r.push(160u8);
        r.push(40u8);
        r.push(40u8);
        r.push(255u8);
        assert forall|i: int| 0 <= i < r@.len() implies #[trigger] r@[i] == tray_color(i % 4) by {
            if i >= before.len() {
                assert(i - p * 4 == i % 4) by (nonlinear_arith)
                    requires
                        p * 4 <= i < p * 4 + 4,
                ;
            } else {
                assert(r@[i] == before[i]);
            }
        }
        p = p + 1;
    }
    r
}

} // verus!
