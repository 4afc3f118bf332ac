//! The triangulation of the filled ground under the terrain polyline.
//! Vertices `0..n` are the terrain points, `n..2n` their projections onto
//! the baseline; each terrain segment and its projection form a quad, split
//! into two triangles.

use vstd::prelude::*;

verus! {

/// The six indices of the quad under segment `i` of an `n`-point polyline.
pub open spec fn quad_indices(n: int, i: int) -> Seq<u32> {
    seq![i as u32, (n + i) as u32, (i + 1) as u32, (i + 1) as u32, (n + i) as u32, (n + i + 1) as u32]
}

/// The quad under segment `i` spans terrain points `i` and `i + 1` and their
/// projections `n + i` and `n + i + 1`: its first triangle is top-left,
/// bottom-left, top-right, its second top-right, bottom-left, bottom-right,
/// so the two share the diagonal; every index names a vertex, and the quad
/// shares its right edge with the next quad's left edge.
pub proof fn law_quad_indices(n: int, i: int)
    requires
        2 <= n,
        0 <= i < n - 1,
        2 * n - 1 <= u32::MAX,
    ensures
        quad_indices(n, i).len() == 6,
        quad_indices(n, i)[0] == i,
        quad_indices(n, i)[2] == quad_indices(n, i)[0] + 1,
        quad_indices(n, i)[1] == quad_indices(n, i)[0] + n,
        quad_indices(n, i)[5] == quad_indices(n, i)[2] + n,
        quad_indices(n, i)[3] == quad_indices(n, i)[2],
        quad_indices(n, i)[4] == quad_indices(n, i)[1],
        forall|j: int| 0 <= j < 6 ==> #[trigger] quad_indices(n, i)[j] < 2 * n,
        i + 1 < n - 1 ==> quad_indices(n, i + 1)[0] == quad_indices(n, i)[2]
            && quad_indices(n, i + 1)[1] == quad_indices(n, i)[5],
{
}

/// The triangle list for an `n`-point terrain polyline; empty when there is
/// no segment.
pub fn ground_indices(n: usize) -> (indices: Vec<u32>)
    requires
        n >= 2 ==> 6 * (n - 1) <= usize::MAX,
    ensures
        n < 2 ==> indices@.len() == 0,
        n >= 2 ==> indices@.len() == 6 * (n - 1),
        forall|i: int, j: int| 0 <= i < n - 1 && 0 <= j < 6 ==> #[trigger] indices@[6 * i + j] == quad_indices(n as int, i)[j],
        2 * n - 1 <= u32::MAX ==> forall|i: int| 0 <= i < n - 1 ==> {
            &&& #[trigger] indices@[6 * i] == i
            &&& indices@[6 * i + 1] == n + i
            &&& indices@[6 * i + 2] == i + 1
            &&& indices@[6 * i + 3] == i + 1
            &&& indices@[6 * i + 4] == n + i
            &&& indices@[6 * i + 5] == n + i + 1
        },
{
    if n < 2 {
        return Vec::new();
    }
    let mut indices: Vec<u32> = Vec::with_capacity(6 * (n - 1));
    let mut i: usize = 0;
    while i < n - 1
        invariant
            2 <= n,
            6 * (n - 1) <= usize::MAX,
            0 <= i <= n - 1,
            indices@.len() == 6 * i,
            forall|i2: int, j: int| 0 <= i2 < i && 0 <= j < 6 ==> #[trigger] indices@[6 * i2 + j] == quad_indices(n as int, i2)[j],
        decreases n - 1 - i,
    {
        let top_l = i as u32;
        let top_r = (i + 1) as u32;
        let bot_l = (n + i) as u32;
        let bot_r = (n + i + 1) as u32;
        let ghost prev = indices@;
        indices.push(top_l);
        indices.push(bot_l);
        indices.push(top_r);
        indices.push(top_r);
        indices.push(bot_l);
        indices.push(bot_r);
        proof {
            assert forall|i2: int, j: int| 0 <= i2 < i + 1 && 0 <= j < 6 implies #[trigger] indices@[6 * i2 + j] == quad_indices(n as int, i2)[j] by {
                if i2 < i {
                    assert(6 * i2 + j < 6 * i) by (nonlinear_arith)
                        requires
                            i2 < i,
                            j < 6,
                    ;
                    assert(indices@[6 * i2 + j] == prev[6 * i2 + j]);
                }
            }
        }
        i = i + 1;
    }
    proof {
        if 2 * n - 1 <= u32::MAX {
            assert forall|i: int| 0 <= i < n - 1 implies {
                &&& #[trigger] indices@[6 * i] == i
                &&& indices@[6 * i + 1] == n + i
                &&& indices@[6 * i + 2] == i + 1
                &&& indices@[6 * i + 3] == i + 1
                &&& indices@[6 * i + 4] == n + i
                &&& indices@[6 * i + 5] == n + i + 1
            } by {
                law_quad_indices(n as int, i);
                assert(indices@[6 * i + 0] == quad_indices(n as int, i)[0]);
                assert(indices@[6 * i + 1] == quad_indices(n as int, i)[1]);
                assert(indices@[6 * i + 2] == quad_indices(n as int, i)[2]);
                assert(indices@[6 * i + 3] == quad_indices(n as int, i)[3]);
                assert(indices@[6 * i + 4] == quad_indices(n as int, i)[4]);
                assert(indices@[6 * i + 5] == quad_indices(n as int, i)[5]);
            }
        }
    }
    indices
}

} // verus!
