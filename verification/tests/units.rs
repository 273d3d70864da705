use rasterizer::camera::Camera;
use rasterizer::clip::clip_polygon_against_plane;
use rasterizer::fx::ONE;
use rasterizer::model::Model;
use rasterizer::rasterizer::Rasterizer;
use rasterizer::shader::{ShaderKind, SolidShader};
use rasterizer::mathutil::point_in_tri;
use rasterizer::plane::{build_frustum_planes, Plane};
use rasterizer::rng::SimpleRng;
use rasterizer::texture::Texture;
use rasterizer::transform::Transform;
use rasterizer::triangulate::triangulate_convex_polygon;
use rasterizer::vectors::{Vec2, Vec3};
use rasterizer::vertex::Vertex;

fn vert(x: i64, y: i64, z: i64) -> Vertex {
    Vertex {
        position: Vec3 { x, y, z },
        texcoord: Vec2 { x: 0, y: 0 },
        normal: Vec3 { x: 0, y: 0, z: ONE },
    }
}

/// The near plane used by the pipeline: inside means z <= -near.
fn near_plane() -> Plane {
    Plane { normal: Vec3 { x: 0, y: 0, z: -ONE }, d: -66 }
}

#[test]
fn clip_inside_keeps_polygon() {
    let input = vec![
        vert(-ONE, -ONE, -5 * ONE),
        vert(ONE, -ONE, -5 * ONE),
        vert(0, ONE, -5 * ONE),
    ];
    let mut output: Vec<Vertex> = Vec::new();
    clip_polygon_against_plane(&input, &mut output, &near_plane());
    assert_eq!(output.len(), 3);
    for i in 0..3 {
        assert_eq!(output[i].position, input[i].position);
        assert_eq!(output[i].texcoord, input[i].texcoord);
        assert_eq!(output[i].normal, input[i].normal);
    }
}

#[test]
fn clip_outside_empties_polygon() {
    // All three vertices behind the camera: outside the near plane.
    let input = vec![
        vert(-ONE, -ONE, 5 * ONE),
        vert(ONE, -ONE, 5 * ONE),
        vert(0, ONE, 5 * ONE),
    ];
    let mut output: Vec<Vertex> = Vec::new();
    clip_polygon_against_plane(&input, &mut output, &near_plane());
    assert_eq!(output.len(), 0);
    let mut triangles: Vec<[Vertex; 3]> = Vec::new();
    triangulate_convex_polygon(&output, &mut triangles);
    assert_eq!(triangles.len(), 0);
}

#[test]
fn clip_boundary_vertices_near_plane() {
    // One vertex behind the camera: the edge crossings land on the
    // plane up to the documented tolerance of 4 fixed-point units.
    let plane = near_plane();
    let input = vec![
        vert(-ONE, 0, -5 * ONE),
        vert(ONE, 0, -5 * ONE),
        vert(0, ONE, 3 * ONE),
    ];
    let mut output: Vec<Vertex> = Vec::new();
    clip_polygon_against_plane(&input, &mut output, &plane);
    assert_eq!(output.len(), 4);
    for v in &output {
        assert!(plane.distance(v.position) >= -4);
    }
}

#[test]
fn frustum_cull_keeps_survivors_near_all_planes() {
    // A triangle straddling the right side plane: every surviving
    // vertex stays within the documented 24 fixed-point units of all
    // six planes.
    let camera = Camera::new(ONE);
    let tri = vec![
        vert(ONE, 0, -5 * ONE),
        vert(10 * ONE, ONE, -5 * ONE),
        vert(10 * ONE, -ONE, -5 * ONE),
    ];
    let model = Model::new(
        tri.clone(),
        vec![0],
        Transform::new(),
        ShaderKind::Solid(SolidShader::new()),
    );
    let mut rasterizer = Rasterizer::new();
    let mut clipped: Vec<Vertex> = Vec::new();
    rasterizer.frustum_cull(&camera, &model, 64, 64, &tri[0], &tri[1], &tri[2], &mut clipped);
    assert!(clipped.len() >= 3);
    let planes = build_frustum_planes(ONE, ONE, 66, 40 * ONE);
    for v in &clipped {
        for plane in &planes {
            assert!(plane.distance(v.position) >= -24);
        }
    }
}

#[test]
fn clip_empty_input_stays_empty() {
    let input: Vec<Vertex> = Vec::new();
    let mut output: Vec<Vertex> = vec![vert(0, 0, -ONE)];
    clip_polygon_against_plane(&input, &mut output, &near_plane());
    assert_eq!(output.len(), 0);
}

#[test]
fn triangulation_counts() {
    // Convex polygons of 3 to 9 vertices yield exactly N - 2 fan
    // triangles.
    for n in 3..=9usize {
        let mut poly: Vec<Vertex> = Vec::new();
        for i in 0..n {
            // A convex chain: points on a wide arc.
            let x = (i as i64) * ONE;
            let y = (i as i64) * (i as i64) * 16;
            poly.push(vert(x, y, -5 * ONE));
        }
        let mut triangles: Vec<[Vertex; 3]> = Vec::new();
        triangulate_convex_polygon(&poly, &mut triangles);
        assert_eq!(triangles.len(), n - 2);
        for (i, t) in triangles.iter().enumerate() {
            assert_eq!(t[0].position, poly[0].position);
            assert_eq!(t[1].position, poly[i + 1].position);
            assert_eq!(t[2].position, poly[i + 2].position);
        }
    }
}

#[test]
fn triangulation_short_polygons() {
    for n in 0..3usize {
        let mut poly: Vec<Vertex> = Vec::new();
        for i in 0..n {
            poly.push(vert(i as i64, 0, -ONE));
        }
        let mut triangles: Vec<[Vertex; 3]> = Vec::new();
        triangulate_convex_polygon(&poly, &mut triangles);
        assert_eq!(triangles.len(), 0);
    }
}

fn fx_sin_cos(degrees: f64) -> (i64, i64) {
    let r = degrees.to_radians();
    (
        (r.sin() * 65536.0).round() as i64,
        (r.cos() * 65536.0).round() as i64,
    )
}

#[test]
fn transform_round_trip_within_tolerance() {
    let (ps, pc) = fx_sin_cos(20.0);
    let (ys, yc) = fx_sin_cos(30.0);
    let mut t = Transform::new();
    t.set_rotation(ps, pc, ys, yc);
    t.position = Vec3 { x: ONE, y: 2 * ONE, z: 3 * ONE };
    let p = Vec3 { x: 3 * ONE, y: -2 * ONE, z: 5 * ONE };
    let rt = t.to_local_point(t.to_world_point(p));
    // Rounded sines and cosines keep the basis orthonormal to within
    // a small Gram defect; the round trip stays within a small
    // fraction of a world unit (2000 fixed-point units is ~0.03).
    assert!((rt.x - p.x).abs() <= 2000);
    assert!((rt.y - p.y).abs() <= 2000);
    assert!((rt.z - p.z).abs() <= 2000);
}

#[test]
fn identity_round_trip_is_tight() {
    let t = Transform::new();
    let p = Vec3 { x: 12345, y: -54321, z: 7777777 };
    let rt = t.to_local_point(t.to_world_point(p));
    assert!((rt.x - p.x).abs() <= 5);
    assert!((rt.y - p.y).abs() <= 5);
    assert!((rt.z - p.z).abs() <= 5);
}

#[test]
fn frustum_planes_shape() {
    let planes = build_frustum_planes(ONE, ONE, 66, 40 * ONE);
    assert_eq!(planes[0].normal, Vec3 { x: 0, y: 0, z: -ONE });
    assert_eq!(planes[0].d, -66);
    assert_eq!(planes[1].normal, Vec3 { x: 0, y: 0, z: ONE });
    assert_eq!(planes[1].d, 40 * ONE);
    // Side normals are (+-1, 0, -1) and (0, +-1, -1) normalized to
    // unit length at scale ONE: length 65536*sqrt(2) floors to 92681,
    // and each component to +-ONE^2/92681 (floored).
    assert_eq!(planes[2].normal, Vec3 { x: -46342, y: 0, z: -46342 });
    assert_eq!(planes[3].normal, Vec3 { x: 46341, y: 0, z: -46342 });
    assert_eq!(planes[4].normal, Vec3 { x: 0, y: -46342, z: -46342 });
    assert_eq!(planes[5].normal, Vec3 { x: 0, y: 46341, z: -46342 });
    for i in 2..6 {
        assert_eq!(planes[i].d, 0);
        // Unit length at scale ONE, up to the flooring of sqrt and
        // of the components.
        let n = planes[i].normal;
        let sq = n.x * n.x + n.y * n.y + n.z * n.z;
        let unit = ONE * ONE;
        assert!((sq - unit).abs() < 3 * ONE);
    }
}

#[test]
fn plane_distance_formula() {
    let plane = Plane { normal: Vec3 { x: 0, y: 0, z: -ONE }, d: -66 };
    // distance = -z - near for the near plane, exactly.
    assert_eq!(plane.distance(Vec3 { x: 123, y: -99, z: -5 * ONE }), 5 * ONE - 66);
    assert_eq!(plane.distance(Vec3 { x: 0, y: 0, z: 66 }), -132);
}

#[test]
fn vector_algebra() {
    let a = Vec3 { x: ONE, y: 2 * ONE, z: -ONE };
    let b = Vec3 { x: 3 * ONE, y: -ONE, z: ONE };
    let s = a.add(b);
    assert_eq!(s, Vec3 { x: 4 * ONE, y: ONE, z: 0 });
    let d = a.sub(b);
    assert_eq!(d, Vec3 { x: -2 * ONE, y: 3 * ONE, z: -2 * ONE });
    // dot((1,2,-1),(3,-1,1)) = 3 - 2 - 1 = 0 in world units.
    assert_eq!(a.dot(b), 0);
    // cross((1,0,0),(0,1,0)) = (0,0,1).
    let x = Vec3 { x: ONE, y: 0, z: 0 };
    let y = Vec3 { x: 0, y: ONE, z: 0 };
    assert_eq!(x.cross(y), Vec3 { x: 0, y: 0, z: ONE });
    let half = a.scale(ONE / 2);
    assert_eq!(half, Vec3 { x: ONE / 2, y: ONE, z: -ONE / 2 });
}

#[test]
fn cross_antisymmetry() {
    // Reversing the operands negates the cross product exactly, even
    // where the rescale rounds: each pair below has a component whose
    // exact product difference is not a multiple of the scale.
    let pairs = [
        (Vec3 { x: 1, y: 0, z: 0 }, Vec3 { x: 1, y: 1, z: 0 }),
        (Vec3 { x: 3, y: -7, z: 11 }, Vec3 { x: -5, y: 13, z: 2 }),
        (Vec3 { x: ONE, y: 0, z: 0 }, Vec3 { x: 0, y: ONE, z: 0 }),
        (
            Vec3 { x: 12345, y: -54321, z: 999 },
            Vec3 { x: 777, y: 888, z: -333 },
        ),
        (Vec3 { x: ONE + 1, y: 5, z: -ONE }, Vec3 { x: -3, y: ONE - 1, z: 7 }),
    ];
    for (a, b) in pairs {
        let ab = a.cross(b);
        let ba = b.cross(a);
        assert_eq!(ab.x, -ba.x);
        assert_eq!(ab.y, -ba.y);
        assert_eq!(ab.z, -ba.z);
    }
}

#[test]
fn cross_is_nearly_perpendicular() {
    // The cross product's dot with either factor stays within
    // 3*m/ONE + 1 of zero, m the largest component magnitude.
    let a = Vec3 { x: 98304, y: -147456, z: 49152 };
    let b = Vec3 { x: 32768, y: 65536, z: -16384 };
    let c = a.cross(b);
    let tolerance = 3 * 147456 / ONE + 1;
    assert!(c.dot(a).abs() <= tolerance);
    assert!(c.dot(b).abs() <= tolerance);
    // Exact in the axis-aligned case.
    let x = Vec3 { x: ONE, y: 0, z: 0 };
    let y = Vec3 { x: 0, y: ONE, z: 0 };
    let z = x.cross(y);
    assert_eq!(z.dot(x), 0);
    assert_eq!(z.dot(y), 0);
}

#[test]
fn point_in_tri_both_windings() {
    let a = Vec2 { x: 0, y: 0 };
    let b = Vec2 { x: 10 * ONE, y: 0 };
    let c = Vec2 { x: 0, y: 10 * ONE };
    let inside = Vec2 { x: ONE, y: ONE };
    let outside = Vec2 { x: 9 * ONE, y: 9 * ONE };
    assert!(point_in_tri(a, b, c, inside));
    assert!(!point_in_tri(a, b, c, outside));
    // Reversed winding gives the same answers.
    assert!(point_in_tri(c, b, a, inside));
    assert!(!point_in_tri(c, b, a, outside));
    // A vertex counts as inside.
    assert!(point_in_tri(a, b, c, a));
}

#[test]
fn rng_lcg_sequence() {
    let mut rng = SimpleRng::new(1);
    let expected1 = 1u32.wrapping_mul(1103515245).wrapping_add(12345);
    assert_eq!(rng.next_u32(), expected1);
    let expected2 = expected1.wrapping_mul(1103515245).wrapping_add(12345);
    assert_eq!(rng.next_u32(), expected2);
}

#[test]
fn rng_ranges_and_colors() {
    let mut rng = SimpleRng::new(654);
    for _ in 0..100 {
        let v = rng.rand_range(10, 20);
        assert!(10 <= v && v <= 20);
    }
    let mut rng2 = SimpleRng::new(7);
    let c = rng2.random_argb();
    // Four byte-range draws packed as 0xAARRGGBB; recompute by hand.
    let mut state = 7u32;
    let mut draw = || {
        state = state.wrapping_mul(1103515245).wrapping_add(12345);
        state % 256
    };
    let a = draw() << 24;
    let r = draw() << 16;
    let g = draw() << 8;
    let b = draw();
    assert_eq!(c, a | r | g | b);
}

#[test]
fn rng_range_single_value() {
    let mut rng = SimpleRng::new(99);
    assert_eq!(rng.rand_range(42, 42), 42);
}

#[test]
fn texture_sampling() {
    // 2x2 texture, row 0 on top: red green / blue white.
    let tex = Texture::new(vec![0xFFFF0000, 0xFF00FF00, 0xFF0000FF, 0xFFFFFFFF], 2, 2);
    assert_eq!(tex.sample(0, 0), 0xFFFF0000);
    assert_eq!(tex.sample(ONE, 0), 0xFF00FF00);
    assert_eq!(tex.sample(0, ONE), 0xFF0000FF);
    assert_eq!(tex.sample(ONE, ONE), 0xFFFFFFFF);
    // Out-of-range coordinates clamp to the unit square.
    assert_eq!(tex.sample(-5 * ONE, -5 * ONE), 0xFFFF0000);
    assert_eq!(tex.sample(9 * ONE, 9 * ONE), 0xFFFFFFFF);
    // Nearest-texel rounding: just below the midpoint stays at texel
    // 0, just above rounds up.
    assert_eq!(tex.sample(ONE / 2 - 1, 0), 0xFFFF0000);
    assert_eq!(tex.sample(ONE / 2 + 1, 0), 0xFF00FF00);
}
