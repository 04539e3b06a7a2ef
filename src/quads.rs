//! Index layout of the camera-facing quads.
//!
//! Each atom is drawn as a quad of four corners, stored one after another
//! in the vertex buffer (bottom left, bottom right, top right, top left).
//! A quad is split into two triangles that share its diagonal, which takes
//! six indices into the vertex buffer.
use vstd::prelude::*;

verus! {

/// Corners of one quad in the vertex buffer.
pub const CORNERS_PER_QUAD: u32 = 4;

/// Indices that draw one quad as two triangles.
pub const INDICES_PER_QUAD: usize = 6;

/// Corner of a quad that its `c`-th index names: the triangles are
/// (0, 1, 2) and (2, 3, 0).
pub open spec fn quad_corner(c: int) -> int {
    if c == 0 || c == 5 {
        0
    } else if c == 1 {
        1
    } else if c == 2 || c == 3 {
        2
    } else {
        3
    }
}

/// Element indices for `points` quads: the six indices of quad `p` come at
/// `6 * p` and name the corners of that quad, which start at `4 * p`.
pub fn quad_elements(points: usize) -> (elements: Vec<u32>)
    requires
        points * 6 <= usize::MAX,
        points * 4 <= u32::MAX + 1,
    ensures
        elements@.len() == points * 6,
        forall|p: int, c: int|
            0 <= p < points && 0 <= c < 6 ==> #[trigger] elements@[p * 6 + c] == p * 4
                + quad_corner(c),
{
    let mut elements: Vec<u32> = Vec::with_capacity(points * INDICES_PER_QUAD);
    let mut point: usize = 0;
    while point < points
        invariant
            point <= points,
            points * 4 <= u32::MAX + 1,
            elements@.len() == point * 6,
            forall|p: int, c: int|
                0 <= p < point && 0 <= c < 6 ==> #[trigger] elements@[p * 6 + c] == p * 4
                    + quad_corner(c),
        decreases points - point,
    {
        let base = point as u32 * CORNERS_PER_QUAD;
        let ghost prev = elements@;
        elements.push(base);
        elements.push(base + 1);
        elements.push(base + 2);
        elements.push(base + 2);
        elements.push(base + 3);
        elements.push(base);
        proof {
            assert forall|p: int, c: int|
                0 <= p < point + 1 && 0 <= c < 6 implies #[trigger] elements@[p * 6 + c] == p * 4
                + quad_corner(c) by {
                if p < point {
                    assert(p * 6 + c < point * 6) by (nonlinear_arith)
                        requires
                            p < point,
                            c < 6,
                    ;
                    assert(elements@[p * 6 + c] == prev[p * 6 + c]);
                }
            }
        }
        point = point + 1;
    }
    elements
}

} // verus!
