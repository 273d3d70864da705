//! Fan triangulation of a convex polygon.

use vstd::prelude::*;
use crate::vertex::Vertex;

verus! {

/// The fan triangulation of a polygon: `N - 2` triangles, each anchored
/// at vertex 0. A polygon of fewer than 3 vertices yields no triangles.
pub open spec fn fan_spec(polygon: Seq<Vertex>) -> Seq<[Vertex; 3]> {
    if polygon.len() < 3 {
        Seq::empty()
    } else {
        Seq::new(
            (polygon.len() - 2) as nat,
            |i: int| [polygon[0], polygon[i + 1], polygon[i + 2]],
        )
    }
}

/// An N-vertex polygon with `N >= 3` triangulates into exactly `N - 2`
/// triangles; smaller polygons into none.
pub proof fn lemma_triangulation_count(polygon: Seq<Vertex>)
    ensures
        polygon.len() >= 3 ==> fan_spec(polygon).len() == polygon.len() - 2,
        polygon.len() < 3 ==> fan_spec(polygon).len() == 0,
{
}

/// Appends the fan triangulation of `polygon` to `triangles`.
pub fn triangulate_convex_polygon(polygon: &Vec<Vertex>, triangles: &mut Vec<[Vertex; 3]>)
    ensures
        final(triangles)@ == old(triangles)@ + fan_spec(polygon@),
{
    if polygon.len() < 3 {
        proof {
            assert(triangles@ =~= triangles@ + fan_spec(polygon@));
        }
        return ;
    }
    let v0: Vertex = polygon[0];
    let n: usize = polygon.len();
    let mut i: usize = 1;
    while i < n - 1
        invariant
            3 <= n == polygon.len(),
            1 <= i <= n - 1,
            v0 == polygon@[0],
            triangles@ == old(triangles)@ + fan_spec(polygon@).take(i - 1),
        decreases n - i,
    {
        triangles.push([v0, polygon[i], polygon[i + 1]]);
        proof {
            assert(fan_spec(polygon@).take(i as int) =~= fan_spec(polygon@).take(i - 1).push(
                [polygon@[0], polygon@[i as int], polygon@[i + 1]],
            ));
            assert(triangles@ =~= old(triangles)@ + fan_spec(polygon@).take(i as int));
        }
        i = i + 1;
    }
    proof {
        assert(fan_spec(polygon@).take(n - 2) =~= fan_spec(polygon@));
    }
}

} // verus!
