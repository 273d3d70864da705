use rasterizer::blit::scale_buffer;
use rasterizer::bmp::{decode_bitmap, BitmapError};
use rasterizer::fx::ONE;
use rasterizer::mesh::{resolve_face, triangulate_face, FaceCorner};
use rasterizer::vectors::{Vec2, Vec3};

/// A minimal valid 24-bit bitmap: 2x2 pixels, rows bottom-up with
/// 2-byte padding, pixel bytes in blue-green-red order.
fn tiny_bitmap() -> Vec<u8> {
    let mut d: Vec<u8> = Vec::new();
    // File header: "BM", file size (unused), reserved, data offset 54.
    d.extend_from_slice(b"BM");
    d.extend_from_slice(&70u32.to_le_bytes());
    d.extend_from_slice(&0u32.to_le_bytes());
    d.extend_from_slice(&54u32.to_le_bytes());
    // Info header: size 40, width 2, height 2, planes 1, bpp 24,
    // compression 0, then zeros.
    d.extend_from_slice(&40u32.to_le_bytes());
    d.extend_from_slice(&2i32.to_le_bytes());
    d.extend_from_slice(&2i32.to_le_bytes());
    d.extend_from_slice(&1u16.to_le_bytes());
    d.extend_from_slice(&24u16.to_le_bytes());
    d.extend_from_slice(&0u32.to_le_bytes());
    d.extend_from_slice(&[0u8; 20]);
    assert_eq!(d.len(), 54);
    // Bottom row: blue, green; then padding.
    d.extend_from_slice(&[255, 0, 0, 0, 255, 0, 0, 0]);
    // Top row: red, white; then padding.
    d.extend_from_slice(&[0, 0, 255, 255, 255, 255, 0, 0]);
    d
}

#[test]
fn bitmap_decodes_pixels() {
    let tex = decode_bitmap(&tiny_bitmap()).unwrap();
    assert_eq!(tex.width, 2);
    assert_eq!(tex.height, 2);
    // Row 0 of the texture is the top file row: red, white.
    assert_eq!(tex.data[0], 0xFFFF0000);
    assert_eq!(tex.data[1], 0xFFFFFFFF);
    // Row 1 is the bottom file row: blue, green.
    assert_eq!(tex.data[2], 0xFF0000FF);
    assert_eq!(tex.data[3], 0xFF00FF00);
}

#[test]
fn bitmap_error_variants() {
    // Too short for the file header.
    assert_eq!(decode_bitmap(&vec![66, 77]).unwrap_err(), BitmapError::Truncated);
    // Wrong signature.
    let mut bad_sig = tiny_bitmap();
    bad_sig[0] = 65;
    assert_eq!(decode_bitmap(&bad_sig).unwrap_err(), BitmapError::Signature);
    // Signature only, no info header.
    let short = tiny_bitmap()[..20].to_vec();
    assert_eq!(decode_bitmap(&short).unwrap_err(), BitmapError::Truncated);
    // Unsupported info header size.
    let mut bad_dib = tiny_bitmap();
    bad_dib[14] = 124;
    assert_eq!(decode_bitmap(&bad_dib).unwrap_err(), BitmapError::HeaderSize);
    // Unsupported bits per pixel.
    let mut bad_bpp = tiny_bitmap();
    bad_bpp[28] = 32;
    assert_eq!(decode_bitmap(&bad_bpp).unwrap_err(), BitmapError::BitsPerPixel);
    // Compressed data.
    let mut bad_comp = tiny_bitmap();
    bad_comp[30] = 1;
    assert_eq!(decode_bitmap(&bad_comp).unwrap_err(), BitmapError::Compression);
    // Pixel data missing.
    let cut = tiny_bitmap()[..60].to_vec();
    assert_eq!(decode_bitmap(&cut).unwrap_err(), BitmapError::Truncated);
}

#[test]
fn face_resolution_with_defaults() {
    let positions = vec![
        Vec3 { x: ONE, y: 0, z: 0 },
        Vec3 { x: 0, y: ONE, z: 0 },
        Vec3 { x: 0, y: 0, z: ONE },
    ];
    let texcoords = vec![Vec2 { x: ONE, y: ONE }];
    let normals = vec![Vec3 { x: 0, y: ONE, z: 0 }];
    let corners = vec![
        FaceCorner { position_index: 1, texcoord_index: Some(1), normal_index: Some(1) },
        FaceCorner { position_index: 2, texcoord_index: None, normal_index: Some(9) },
        FaceCorner { position_index: 3, texcoord_index: Some(7), normal_index: None },
    ];
    let face = resolve_face(&positions, &texcoords, &normals, &corners);
    assert_eq!(face.len(), 3);
    assert_eq!(face[0].position, positions[0]);
    assert_eq!(face[0].texcoord, texcoords[0]);
    assert_eq!(face[0].normal, normals[0]);
    // Absent or out-of-range attribute indices fall back to zero.
    assert_eq!(face[1].texcoord, Vec2 { x: 0, y: 0 });
    assert_eq!(face[1].normal, Vec3 { x: 0, y: 0, z: 0 });
    assert_eq!(face[2].texcoord, Vec2 { x: 0, y: 0 });
    assert_eq!(face[2].normal, Vec3 { x: 0, y: 0, z: 0 });
}

#[test]
fn face_triangulation_flattens_fans() {
    let positions: Vec<Vec3> =
        (0..5).map(|i| Vec3 { x: i * ONE, y: (i * i) * 16, z: 0 }).collect();
    let corners: Vec<FaceCorner> = (1..=5)
        .map(|i| FaceCorner { position_index: i, texcoord_index: None, normal_index: None })
        .collect();
    let texcoords: Vec<Vec2> = Vec::new();
    let normals: Vec<Vec3> = Vec::new();
    let face = resolve_face(&positions, &texcoords, &normals, &corners);
    let flat = triangulate_face(&face);
    // 5 corners, 3 triangles, anchored at corner 0.
    assert_eq!(flat.len(), 9);
    for t in 0..3 {
        assert_eq!(flat[3 * t].position, positions[0]);
        assert_eq!(flat[3 * t + 1].position, positions[t + 1]);
        assert_eq!(flat[3 * t + 2].position, positions[t + 2]);
    }
    // Fewer than three corners yield nothing.
    let short = triangulate_face(&face[..2].to_vec());
    assert_eq!(short.len(), 0);
}

#[test]
fn scale_buffer_copies_and_resamples() {
    // Equal sizes: a plain copy.
    let src = vec![1u32, 2, 3, 4];
    let mut dst = vec![0u32; 4];
    scale_buffer(&mut dst, 2, 2, &src, 2, 2);
    assert_eq!(dst, src);
    // Doubling each axis: every source pixel becomes a 2x2 block.
    let mut big = vec![0u32; 16];
    scale_buffer(&mut big, 4, 4, &src, 2, 2);
    assert_eq!(big, vec![1, 1, 2, 2, 1, 1, 2, 2, 3, 3, 4, 4, 3, 3, 4, 4]);
    // Empty source: the destination is untouched.
    let empty: Vec<u32> = Vec::new();
    let mut kept = vec![9u32; 4];
    scale_buffer(&mut kept, 2, 2, &empty, 0, 0);
    assert_eq!(kept, vec![9, 9, 9, 9]);
}

#[test]
fn normalize_scales_to_unit_length() {
    let v = Vec3 { x: 3 * ONE, y: 4 * ONE, z: 0 };
    let n = v.normalize();
    // (3,4,0)/5 = (0.6, 0.8, 0).
    assert_eq!(n.x, 3 * ONE / 5);
    assert_eq!(n.y, 4 * ONE / 5);
    assert_eq!(n.z, 0);
    let zero = Vec3 { x: 0, y: 0, z: 0 };
    assert_eq!(zero.normalize(), zero);
    // An already-unit vector keeps its direction and length.
    let unit = Vec3 { x: ONE, y: 0, z: 0 };
    assert_eq!(unit.normalize(), unit);
}
