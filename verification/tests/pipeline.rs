use rasterizer::fx::ONE;
use rasterizer::setup::process_screen_tri;
use rasterizer::model::Model;
use rasterizer::rasterizer::Rasterizer;
use rasterizer::render_target::RenderTarget;
use rasterizer::scene::Scene;
use rasterizer::shader::{ShaderKind, SolidShader, TextureShader};
use rasterizer::texture::Texture;
use rasterizer::transform::Transform;
use rasterizer::vectors::{Vec2, Vec3};
use rasterizer::vertex::Vertex;

fn vert(x: i64, y: i64, z: i64) -> Vertex {
    Vertex {
        position: Vec3 { x, y, z },
        texcoord: Vec2 { x: 0, y: 0 },
        normal: Vec3 { x: 0, y: 0, z: ONE },
    }
}

fn solid_model(vertices: Vec<Vertex>) -> Model {
    Model::new(vertices, vec![0], Transform::new(), ShaderKind::Solid(SolidShader::new()))
}

/// A single-color 1x1 texture, so two models can be told apart.
fn flat_model(vertices: Vec<Vertex>, color: u32) -> Model {
    let tex = Texture::new(vec![color], 1, 1);
    Model::new(
        vertices,
        vec![0],
        Transform::new(),
        ShaderKind::Textured(TextureShader::new(tex)),
    )
}

/// The camera-space triangle whose projection on a 100x100 target with
/// a 90-degree camera lands at pixels (10,10), (90,10), (50,90), at
/// depth `-5 * scale` world units times the given factor.
fn landmark_triangle(scale: i64) -> Vec<Vertex> {
    // Counter-clockwise in screen space (screen y grows downward):
    // (10,10), (50,90), (90,10).
    vec![
        vert(-4 * ONE * scale, 4 * ONE * scale, -5 * ONE * scale),
        vert(0, -4 * ONE * scale, -5 * ONE * scale),
        vert(4 * ONE * scale, 4 * ONE * scale, -5 * ONE * scale),
    ]
}

#[test]
fn end_to_end_landmark_scene() {
    // Render target 100x100, one model = a single triangle whose
    // projection lands at (10,10), (90,10), (50,90), solid shader,
    // z = -5 (beyond near clip, within far clip 40).
    let mut scene = Scene::new();
    scene.load_model(solid_model(landmark_triangle(1)));
    let mut target = RenderTarget::new(100, 100);
    let mut rasterizer = Rasterizer::new();
    rasterizer.render(&mut target, &scene);
    assert_eq!(target.get_pixel(50, 50), 0xFFFFFFFF);
    assert_eq!(target.get_pixel(1, 1), 0x00000000);
    // The corners outside the triangle stay cleared too.
    assert_eq!(target.get_pixel(99, 99), 0x00000000);
    assert_eq!(target.get_pixel(0, 99), 0x00000000);
}

#[test]
fn backface_contributes_no_pixels() {
    // The same landmark triangle with its winding reversed: area <= 0
    // in screen space, so nothing is drawn anywhere.
    let tri = landmark_triangle(1);
    let reversed = vec![tri[2], tri[1], tri[0]];
    let mut scene = Scene::new();
    scene.load_model(solid_model(reversed));
    let mut target = RenderTarget::new(100, 100);
    let mut rasterizer = Rasterizer::new();
    rasterizer.render(&mut target, &scene);
    for y in 0..100 {
        for x in 0..100 {
            assert_eq!(target.get_pixel(x, y), 0x00000000);
        }
    }
}

#[test]
fn order_independence_of_overlapping_triangles() {
    // Two triangles with identical screen footprints at depths -5 and
    // -10; the nearer (red) one wins at every overlapping pixel, in
    // either draw order.
    let near = landmark_triangle(1);
    let far = landmark_triangle(2);

    let mut scene_a = Scene::new();
    scene_a.load_model(flat_model(near.clone(), 0xFFFF0000));
    scene_a.load_model(flat_model(far.clone(), 0xFF00FF00));
    let mut target_a = RenderTarget::new(100, 100);
    let mut raster_a = Rasterizer::new();
    raster_a.render(&mut target_a, &scene_a);

    let mut scene_b = Scene::new();
    scene_b.load_model(flat_model(far, 0xFF00FF00));
    scene_b.load_model(flat_model(near, 0xFFFF0000));
    let mut target_b = RenderTarget::new(100, 100);
    let mut raster_b = Rasterizer::new();
    raster_b.render(&mut target_b, &scene_b);

    assert_eq!(target_a.get_pixel(50, 50), 0xFFFF0000);
    for y in 0..100 {
        for x in 0..100 {
            assert_eq!(target_a.get_pixel(x, y), target_b.get_pixel(x, y));
        }
    }
}

#[test]
fn interpolation_recovers_vertex_texcoord() {
    // A triangle whose first vertex projects exactly onto the center
    // of pixel (10,10) (depth chosen so the projection is exact), with
    // corner texture coordinates mapping to different texels of a 2x2
    // texture. Sampling at that pixel returns the first corner's
    // texel.
    let z = -128000i64;
    // x = offset * (-z) / 12800 for a 100x100 target at 90 degrees.
    let v1 = Vertex {
        // pixel center (10,10): offset (-10112, -10112) sub-units
        position: Vec3 { x: -101120, y: 101120, z },
        texcoord: Vec2 { x: 0, y: 0 },
        normal: Vec3 { x: 0, y: 0, z: ONE },
    };
    let v2 = Vertex {
        // pixel center (50,90)
        position: Vec3 { x: 1280, y: -103680, z },
        texcoord: Vec2 { x: 0, y: ONE },
        normal: Vec3 { x: 0, y: 0, z: ONE },
    };
    let v3 = Vertex {
        // pixel center (90,10)
        position: Vec3 { x: 103680, y: 101120, z },
        texcoord: Vec2 { x: ONE, y: 0 },
        normal: Vec3 { x: 0, y: 0, z: ONE },
    };
    // 2x2 texture: red green / blue white.
    let tex = Texture::new(vec![0xFFFF0000, 0xFF00FF00, 0xFF0000FF, 0xFFFFFFFF], 2, 2);
    let model = Model::new(
        vec![v1, v2, v3],
        vec![0],
        Transform::new(),
        ShaderKind::Textured(TextureShader::new(tex)),
    );
    let mut scene = Scene::new();
    scene.load_model(model);
    let mut target = RenderTarget::new(100, 100);
    let mut rasterizer = Rasterizer::new();
    rasterizer.render(&mut target, &scene);
    // uv (0,0) at the vertex-centered pixel: the red texel.
    assert_eq!(target.get_pixel(10, 10), 0xFFFF0000);
}

#[test]
fn render_target_basics() {
    let mut target = RenderTarget::new(4, 3);
    assert_eq!(target.width, 4);
    assert_eq!(target.height, 3);
    assert_eq!(target.size, 12);
    for y in 0..3 {
        for x in 0..4 {
            assert_eq!(target.get_pixel(x, y), 0);
        }
    }
    for d in &target.depth_buffer {
        assert_eq!(*d, i64::MIN);
    }
    target.set_pixel(2, 1, 0xFFABCDEF);
    assert_eq!(target.get_pixel(2, 1), 0xFFABCDEF);
    assert_eq!(target.color_buffer[1 * 4 + 2], 0xFFABCDEF);
    assert_eq!(target.get_pixel(1, 1), 0);
    target.fill(7);
    for y in 0..3 {
        for x in 0..4 {
            assert_eq!(target.get_pixel(x, y), 7);
        }
    }
}

#[test]
fn scene_holds_models_in_order() {
    let mut scene = Scene::new();
    assert_eq!(scene.models.len(), 0);
    assert_eq!(scene.camera.tan_half_fov, ONE);
    scene.load_model(solid_model(landmark_triangle(1)));
    scene.load_model(solid_model(landmark_triangle(2)));
    assert_eq!(scene.models.len(), 2);
    assert_eq!(scene.models[0].vertices[0].position.z, -5 * ONE);
    assert_eq!(scene.models[1].vertices[0].position.z, -10 * ONE);
}

#[test]
fn fully_clipped_scene_draws_nothing() {
    // A triangle entirely beyond the far plane contributes zero
    // triangles and leaves the buffers cleared.
    let mut scene = Scene::new();
    scene.load_model(solid_model(vec![
        vert(-ONE, 0, -50 * ONE),
        vert(0, ONE, -50 * ONE),
        vert(ONE, 0, -50 * ONE),
    ]));
    let mut target = RenderTarget::new(64, 64);
    let mut rasterizer = Rasterizer::new();
    rasterizer.render(&mut target, &scene);
    for y in 0..64 {
        for x in 0..64 {
            assert_eq!(target.get_pixel(x, y), 0);
        }
    }
    for d in &target.depth_buffer {
        assert_eq!(*d, i64::MIN);
    }
}

#[test]
fn side_clipped_scene_draws_nothing() {
    // A triangle far beyond the right frustum plane (x much larger
    // than -z at a 90-degree camera) is fully discarded.
    let mut scene = Scene::new();
    scene.load_model(solid_model(vec![
        vert(49 * ONE, 0, -5 * ONE),
        vert(50 * ONE, ONE, -5 * ONE),
        vert(51 * ONE, 0, -5 * ONE),
    ]));
    let mut target = RenderTarget::new(64, 64);
    let mut rasterizer = Rasterizer::new();
    rasterizer.render(&mut target, &scene);
    for y in 0..64 {
        for x in 0..64 {
            assert_eq!(target.get_pixel(x, y), 0);
        }
    }
}

#[test]
fn wide_target_keeps_pixel_density() {
    // On a 200x100 target the pixel density still comes from the
    // height, so the landmark triangle keeps its size and shifts to
    // the wider center: corners (60,10), (100,90), (140,10). At row
    // 50 it spans columns 80..120.
    let mut scene = Scene::new();
    scene.load_model(solid_model(landmark_triangle(1)));
    let mut target = RenderTarget::new(200, 100);
    let mut rasterizer = Rasterizer::new();
    rasterizer.render(&mut target, &scene);
    assert_eq!(target.get_pixel(100, 50), 0xFFFFFFFF);
    assert_eq!(target.get_pixel(85, 50), 0xFFFFFFFF);
    // Left of the triangle: would be covered if the density were
    // (wrongly) scaled by the width.
    assert_eq!(target.get_pixel(70, 50), 0x00000000);
    assert_eq!(target.get_pixel(30, 50), 0x00000000);
    // Above the apex row.
    assert_eq!(target.get_pixel(100, 5), 0x00000000);
}

#[test]
fn depth_buffer_holds_interpolated_depth() {
    // The landmark triangle is flat at z = -5: the perspective-correct
    // depth at every covered pixel is 1/(1/z) with two fixed-point
    // roundings: 1/z rounds to -13107/65536, whose reciprocal rounds
    // to -327685/65536 (about -5.00008).
    let mut scene = Scene::new();
    scene.load_model(solid_model(landmark_triangle(1)));
    let mut target = RenderTarget::new(100, 100);
    let mut rasterizer = Rasterizer::new();
    rasterizer.render(&mut target, &scene);
    assert_eq!(target.depth_buffer[50 * 100 + 50], -327685);
    assert_eq!(target.depth_buffer[1 * 100 + 1], i64::MIN);
}

#[test]
fn triangle_setup_prepares_and_culls() {
    let tri = landmark_triangle(1);
    let some = process_screen_tri(&tri[0], &tri[1], &tri[2], 100, 100, ONE, 7);
    let t = some.expect("front face should survive setup");
    assert_eq!(t.model_index, 7);
    assert_eq!((t.min_x, t.max_x, t.min_y, t.max_y), (10, 90, 10, 90));
    // Corners in sub-pixel units (256 per pixel).
    assert_eq!((t.v1_2d.x, t.v1_2d.y), (10 * 256, 10 * 256));
    assert_eq!((t.v2_2d.x, t.v2_2d.y), (50 * 256, 90 * 256));
    assert_eq!((t.v3_2d.x, t.v3_2d.y), (90 * 256, 10 * 256));
    // Signed area of the screen triangle, exactly.
    assert_eq!(t.area, 20480 * 20480);
    assert_eq!(t.inv_z1, -13107);
    // The reversed winding is a backface: discarded.
    let none = process_screen_tri(&tri[2], &tri[1], &tri[0], 100, 100, ONE, 7);
    assert!(none.is_none());
}
