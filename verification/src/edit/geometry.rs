//! Placing component-local points: quarter-turn rotation about the origin,
//! mirroring across the Y axis, then translation to the component's
//! location.
use vstd::prelude::*;

use crate::edit::types::Orientation;
use crate::types::{fits_i32, Coord, CoordPoint};

verus! {

/// A point turned counter-clockwise by `q` quarter turns about the origin.
pub open spec fn rotate_quarters(p: (int, int), q: int) -> (int, int) {
    if q == 1 {
        (-p.1, p.0)
    } else if q == 2 {
        (-p.0, -p.1)
    } else if q == 3 {
        (p.1, -p.0)
    } else {
        p
    }
}

/// A local point placed at `at` with the orientation: rotated, mirrored
/// when the orientation mirrors, then moved.
pub open spec fn to_absolute(local: (int, int), at: (int, int), o: Orientation) -> (int, int) {
    let r = rotate_quarters(local, o.spec_quarters());
    let m = if o.spec_mirrored() {
        (-r.0, r.1)
    } else {
        r
    };
    (m.0 + at.0, m.1 + at.1)
}

/// An absolute point back in the component's frame: moved, unmirrored,
/// turned back.
pub open spec fn to_local(abs: (int, int), at: (int, int), o: Orientation) -> (int, int) {
    let t = (abs.0 - at.0, abs.1 - at.1);
    let u = if o.spec_mirrored() {
        (-t.0, t.1)
    } else {
        t
    };
    rotate_quarters(u, (4 - o.spec_quarters()) % 4)
}

/// The coordinates of a point.
pub open spec fn pt(p: CoordPoint) -> (int, int) {
    (p.x.raw as int, p.y.raw as int)
}

/// Placing a local point and reading it back gives the point.
pub proof fn lemma_local_absolute_roundtrip(local: (int, int), at: (int, int), o: Orientation)
    ensures
        to_local(to_absolute(local, at, o), at, o) == local,
{
}

/// Reading an absolute point back and placing it again gives the point.
pub proof fn lemma_absolute_local_roundtrip(abs: (int, int), at: (int, int), o: Orientation)
    ensures
        to_absolute(to_local(abs, at, o), at, o) == abs,
{
}

/// Whether both coordinates fit an `i32`.
pub open spec fn fits_pt(p: (int, int)) -> bool {
    fits_i32(p.0) && fits_i32(p.1)
}

/// Turns `(x, y)` by `q` quarter turns in 64-bit arithmetic.
fn rotate_i64(x: i64, y: i64, q: u8) -> (r: (i64, i64))
    requires
        -0x1_0000_0000 <= x <= 0x1_0000_0000,
        -0x1_0000_0000 <= y <= 0x1_0000_0000,
    ensures
        (r.0 as int, r.1 as int) == rotate_quarters((x as int, y as int), q as int),
        -0x1_0000_0000 <= r.0 <= 0x1_0000_0000,
        -0x1_0000_0000 <= r.1 <= 0x1_0000_0000,
{
    if q == 1 {
        (-y, x)
    } else if q == 2 {
        (-x, -y)
    } else if q == 3 {
        (y, -x)
    } else {
        (x, y)
    }
}

/// Places a component-local point.
pub fn local_to_absolute(local: CoordPoint, at: CoordPoint, o: Orientation) -> (r: CoordPoint)
    requires
        fits_pt(to_absolute(pt(local), pt(at), o)),
    ensures
        pt(r) == to_absolute(pt(local), pt(at), o),
{
    let (rx, ry) = rotate_i64(local.x.raw as i64, local.y.raw as i64, o.quarter_turns());
    let mx = if o.is_mirrored() {
        -rx
    } else {
        rx
    };
    let x = mx + at.x.raw as i64;
    let y = ry + at.y.raw as i64;
    CoordPoint { x: Coord { raw: x as i32 }, y: Coord { raw: y as i32 } }
}

/// Reads an absolute point back in a component's frame.
pub fn absolute_to_local(abs: CoordPoint, at: CoordPoint, o: Orientation) -> (r: CoordPoint)
    requires
        fits_pt(to_local(pt(abs), pt(at), o)),
    ensures
        pt(r) == to_local(pt(abs), pt(at), o),
{
    let tx = abs.x.raw as i64 - at.x.raw as i64;
    let ty = abs.y.raw as i64 - at.y.raw as i64;
    let ux = if o.is_mirrored() {
        -tx
    } else {
        tx
    };
    let q = o.quarter_turns();
    let back: u8 = (4 - q) % 4;
    let (x, y) = rotate_i64(ux, ty, back);
    CoordPoint { x: Coord { raw: x as i32 }, y: Coord { raw: y as i32 } }
}

} // verus!
