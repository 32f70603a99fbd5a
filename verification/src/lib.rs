//! Wireframe rendering onto a grid of characters.
//!
//! Coordinates are fixed-point integers: one whole unit is [`vector::ONE`]
//! steps, so a screen position of two and a half cells is written `2500`.
//! Every rule of the library (clipping a segment against the two lower grid
//! boundaries, rounding it to cells, walking the cells it covers) is stated
//! over exact integer arithmetic.

pub mod arith;
pub mod char_buffer;
pub mod line;
pub mod prelude;
pub mod projection;
pub mod rendering;
pub mod trig;
pub mod vector;

pub use vector::{Vector2, Vector3};

use rendering::Mesh;
use vstd::prelude::*;

verus! {

/// The corner of the sample cube that is stored under `index`: the first
/// four indices go round the face at `z = 1`, the next four round the face
/// at `z = -1`, each starting at `x = 1, y = 1` and turning through
/// `x = -1, y = 1`.
pub open spec fn cube_corner(index: int) -> Vector3 {
    Vector3 {
        x: if index % 4 == 0 || index % 4 == 3 {
            1000
        } else {
            (-1000) as i32
        },
        y: if index % 4 == 0 || index % 4 == 1 {
            1000
        } else {
            (-1000) as i32
        },
        z: if index < 4 {
            1000
        } else {
            (-1000) as i32
        },
    }
}

/// The edges of the sample cube: round the first face, round the second,
/// then from each corner of the first to the one behind it.
pub open spec fn cube_edges() -> Seq<(usize, usize)> {
    seq![
        (0, 1),
        (1, 2),
        (2, 3),
        (3, 0),
        (4, 5),
        (5, 6),
        (6, 7),
        (7, 4),
        (0, 4),
        (1, 5),
        (2, 6),
        (3, 7),
    ]
}

/// A cube of side two about the origin: eight vertices under the indices
/// zero to seven and the twelve edges between them, not turned and at its
/// own size.
pub fn create_cube() -> (cube: Mesh)
    ensures
        cube.wf(),
        cube.entries@.len() == 8,
        forall|i: int| 0 <= i < 8 ==> #[trigger] cube.entries@[i] == (i as usize, cube_corner(i)),
        cube.vertices().dom() == Set::new(|k: usize| k < 8),
        forall|k: usize| k < 8 ==> #[trigger] cube.vertices()[k] == cube_corner(k as int),
        cube.edges@ == cube_edges(),
        cube.rotation == (Vector3 { x: 0, y: 0, z: 0 }),
        cube.scale == (Vector3 { x: 1000, y: 1000, z: 1000 }),
{
    let mut cube = Mesh::default();
    cube.insert_vertex(0, Vector3::new(1000, 1000, 1000));
    cube.insert_vertex(1, Vector3::new(-1000, 1000, 1000));
    cube.insert_vertex(2, Vector3::new(-1000, -1000, 1000));
    cube.insert_vertex(3, Vector3::new(1000, -1000, 1000));

    cube.add_edge((0, 1));
    cube.add_edge((1, 2));
    cube.add_edge((2, 3));
    cube.add_edge((3, 0));

    cube.insert_vertex(4, Vector3::new(1000, 1000, -1000));
    cube.insert_vertex(5, Vector3::new(-1000, 1000, -1000));
    cube.insert_vertex(6, Vector3::new(-1000, -1000, -1000));
    cube.insert_vertex(7, Vector3::new(1000, -1000, -1000));

    cube.add_edge((4, 5));
    cube.add_edge((5, 6));
    cube.add_edge((6, 7));
    cube.add_edge((7, 4));

    cube.add_edge((0, 4));
    cube.add_edge((1, 5));
    cube.add_edge((2, 6));
    cube.add_edge((3, 7));

    proof {
        assert(cube.edges@ =~= cube_edges());
        rendering::lemma_map_of(cube.entries@);
        assert(cube.vertices().dom() =~= Set::new(|k: usize| k < 8));
    }
    cube
}

} // verus!
