//! Building a triangle list from indexed face data.
//!
//! A mesh file supplies positions, texture coordinates and normals as
//! separate tables, and faces as lists of 1-based index triples. Face
//! resolution looks the corners up (attribute indices that are absent
//! or out of range fall back to zero attributes), and fan
//! triangulation flattens each face into a triangle list.

use vstd::prelude::*;
use crate::vectors::{Vec2, Vec3};
use crate::vertex::Vertex;

verus! {

/// One corner of a face record: a 1-based position index and optional
/// 1-based attribute indices.
#[derive(Clone, Copy, PartialEq, Eq, Structural, Debug)]
pub struct FaceCorner {
    pub position_index: usize,
    pub texcoord_index: Option<usize>,
    pub normal_index: Option<usize>,
}

/// The vertex a corner resolves to: the indexed position, and the
/// indexed attributes where the index is present and in range, zero
/// attributes otherwise.
pub open spec fn resolve_corner_spec(
    positions: Seq<Vec3>,
    texcoords: Seq<Vec2>,
    normals: Seq<Vec3>,
    c: FaceCorner,
) -> Vertex {
    Vertex {
        position: positions[c.position_index - 1],
        texcoord: match c.texcoord_index {
            Option::Some(ti) => if 1 <= ti <= texcoords.len() {
                texcoords[ti - 1]
            } else {
                Vec2 { x: 0, y: 0 }
            },
            Option::None => Vec2 { x: 0, y: 0 },
        },
        normal: match c.normal_index {
            Option::Some(ni) => if 1 <= ni <= normals.len() {
                normals[ni - 1]
            } else {
                Vec3 { x: 0, y: 0, z: 0 }
            },
            Option::None => Vec3 { x: 0, y: 0, z: 0 },
        },
    }
}

/// Every corner's position index is 1-based and in range.
pub open spec fn corners_in_range(corners: Seq<FaceCorner>, n_positions: int) -> bool {
    forall|i: int|
        0 <= i < corners.len() ==> 1 <= (#[trigger] corners[i]).position_index <= n_positions
}

/// Resolves the corners of one face into vertices.
pub fn resolve_face(
    positions: &Vec<Vec3>,
    texcoords: &Vec<Vec2>,
    normals: &Vec<Vec3>,
    corners: &Vec<FaceCorner>,
) -> (r: Vec<Vertex>)
    requires
        corners_in_range(corners@, positions.len() as int),
    ensures
        r.len() == corners.len(),
        forall|i: int|
            0 <= i < corners.len() ==> r@[i] == resolve_corner_spec(
                positions@,
                texcoords@,
                normals@,
                corners@[i],
            ),
{
    let mut out: Vec<Vertex> = Vec::new();
    let n: usize = corners.len();
    let mut i: usize = 0;
    while i < n
        invariant
            n == corners.len(),
            0 <= i <= n,
            corners_in_range(corners@, positions.len() as int),
            out.len() == i,
            forall|j: int|
                0 <= j < i ==> out@[j] == resolve_corner_spec(
                    positions@,
                    texcoords@,
                    normals@,
                    corners@[j],
                ),
        decreases n - i,
    {
        let c: FaceCorner = corners[i];
        let position: Vec3 = positions[c.position_index - 1];
        let texcoord: Vec2 = match c.texcoord_index {
            Option::Some(ti) => if 1 <= ti && ti <= texcoords.len() {
                texcoords[ti - 1]
            } else {
                Vec2 { x: 0, y: 0 }
            },
            Option::None => Vec2 { x: 0, y: 0 },
        };
        let normal: Vec3 = match c.normal_index {
            Option::Some(ni) => if 1 <= ni && ni <= normals.len() {
                normals[ni - 1]
            } else {
                Vec3 { x: 0, y: 0, z: 0 }
            },
            Option::None => Vec3 { x: 0, y: 0, z: 0 },
        };
        out.push(Vertex { position, texcoord, normal });
        i = i + 1;
    }
    out
}

/// The flat fan triangulation of a face: `3 * (N - 2)` vertices,
/// every three consecutive ones a triangle anchored at vertex 0.
pub open spec fn fan_flat_spec(face: Seq<Vertex>) -> Seq<Vertex> {
    if face.len() < 3 {
        Seq::empty()
    } else {
        Seq::new(
            (3 * (face.len() - 2)) as nat,
            |i: int|
                if i % 3 == 0 {
                    face[0]
                } else if i % 3 == 1 {
                    face[i / 3 + 1]
                } else {
                    face[i / 3 + 2]
                },
        )
    }
}

/// Fan-triangulates one face into a flat triangle list.
pub fn triangulate_face(polygon: &Vec<Vertex>) -> (r: Vec<Vertex>)
    ensures
        r@ == fan_flat_spec(polygon@),
        r.len() % 3 == 0,
{
    let mut out: Vec<Vertex> = Vec::new();
    if polygon.len() < 3 {
        proof {
            assert(out@ =~= fan_flat_spec(polygon@));
        }
        return out;
    }
    let anchor: Vertex = polygon[0];
    let n: usize = polygon.len();
    let mut i: usize = 1;
    while i < n - 1
        invariant
            3 <= n == polygon.len(),
            1 <= i <= n - 1,
            anchor == polygon@[0],
            out.len() == 3 * (i - 1),
            out@ == fan_flat_spec(polygon@).take(3 * (i - 1)),
        decreases n - i,
    {
        out.push(anchor);
        out.push(polygon[i]);
        out.push(polygon[i + 1]);
        proof {
            assert(out@ =~= fan_flat_spec(polygon@).take(3 * (i as int - 1) + 3));
        }
        i = i + 1;
    }
    proof {
        assert(fan_flat_spec(polygon@).take(3 * (n - 2)) =~= fan_flat_spec(polygon@));
    }
    out
}

} // verus!
