//! The layout of the window's box mesh: which corner of the box each vertex sits at and
//! which corner of the window texture it shows. The caller scales the corners by half the
//! window's width, height and depth to get the vertex positions.
use vstd::arithmetic::mul::lemma_mul_is_distributive_sub;
use vstd::prelude::*;

verus! {

/// A corner of the window's box: each coordinate is -1 or 1 (x to the right, y up, z to
/// the back; the front face is the one at z = -1).
#[derive(Clone, Copy, Debug, PartialEq, Eq)]
pub struct BoxCorner {
    pub x: i8,
    pub y: i8,
    pub z: i8,
}

/// A corner of the window texture: each coordinate is 0 or 1 (u to the right, v down).
#[derive(Clone, Copy, Debug, PartialEq, Eq)]
pub struct UvCorner {
    pub u: u8,
    pub v: u8,
}

/// The box corner at the top left of the front face.
pub open spec fn top_left_front() -> BoxCorner {
    BoxCorner { x: -1i8, y: 1, z: -1i8 }
}

/// The box corner at the top right of the front face.
pub open spec fn top_right_front() -> BoxCorner {
    BoxCorner { x: 1, y: 1, z: -1i8 }
}

/// The box corner at the bottom left of the front face.
pub open spec fn bottom_left_front() -> BoxCorner {
    BoxCorner { x: -1i8, y: -1i8, z: -1i8 }
}

/// The box corner at the bottom right of the front face.
pub open spec fn bottom_right_front() -> BoxCorner {
    BoxCorner { x: 1, y: -1i8, z: -1i8 }
}

/// The box corner at the top left of the back face.
pub open spec fn top_left_back() -> BoxCorner {
    BoxCorner { x: -1i8, y: 1, z: 1 }
}

/// The box corner at the top right of the back face.
pub open spec fn top_right_back() -> BoxCorner {
    BoxCorner { x: 1, y: 1, z: 1 }
}

/// The box corner at the bottom left of the back face.
pub open spec fn bottom_left_back() -> BoxCorner {
    BoxCorner { x: -1i8, y: -1i8, z: 1 }
}

/// The box corner at the bottom right of the back face.
pub open spec fn bottom_right_back() -> BoxCorner {
    BoxCorner { x: 1, y: -1i8, z: 1 }
}

/// The top right corner of the window texture.
pub open spec fn uv_top_right() -> UvCorner {
    UvCorner { u: 1, v: 0 }
}

/// The top left corner of the window texture.
pub open spec fn uv_top_left() -> UvCorner {
    UvCorner { u: 0, v: 0 }
}

/// The bottom right corner of the window texture.
pub open spec fn uv_bottom_right() -> UvCorner {
    UvCorner { u: 1, v: 1 }
}

/// The bottom left corner of the window texture.
pub open spec fn uv_bottom_left() -> UvCorner {
    UvCorner { u: 0, v: 1 }
}

/// The corners of the mesh's vertices, three per triangle, two triangles per face, the
/// faces in the order front, back, top, bottom, left, right.
pub open spec fn window_mesh_corner_seq() -> Seq<BoxCorner> {
    seq![
        // front
        top_left_front(),
        top_right_front(),
        bottom_left_front(),
        //
        bottom_left_front(),
        top_right_front(),
        bottom_right_front(),
        // back
        top_left_back(),
        bottom_left_back(),
        top_right_back(),
        //
        bottom_left_back(),
        bottom_right_back(),
        top_right_back(),
        // top
        top_left_back(),
        top_right_back(),
        top_left_front(),
        //
        top_right_back(),
        top_right_front(),
        top_left_front(),
        // bottom
        bottom_left_back(),
        bottom_left_front(),
        bottom_right_back(),
        //
        bottom_right_back(),
        bottom_left_front(),
        bottom_right_front(),
        // left
        top_left_back(),
        top_left_front(),
        bottom_left_back(),
        //
        bottom_left_back(),
        top_left_front(),
        bottom_left_front(),
        // right
        top_right_front(),
        top_right_back(),
        bottom_right_front(),
        //
        bottom_right_front(),
        top_right_back(),
        bottom_right_back(),
    ]
}

/// The texture corners of the mesh's vertices, in the order of the vertices.
pub open spec fn window_mesh_uv_seq() -> Seq<UvCorner> {
    seq![
        // front
        uv_top_left(),
        uv_top_right(),
        uv_bottom_left(),
        //
        uv_bottom_left(),
        uv_top_right(),
        uv_bottom_right(),
        // back
        uv_top_left(),
        uv_bottom_left(),
        uv_top_right(),
        //
        uv_bottom_left(),
        uv_bottom_right(),
        uv_top_right(),
        // top
        uv_top_left(),
        uv_top_right(),
        uv_top_left(),
        //
        uv_top_right(),
        uv_top_right(),
        uv_top_left(),
        // bottom
        uv_bottom_left(),
        uv_bottom_left(),
        uv_bottom_right(),
        //
        uv_bottom_right(),
        uv_bottom_left(),
        uv_bottom_right(),
        // left
        uv_top_left(),
        uv_top_left(),
        uv_bottom_left(),
        //
        uv_bottom_left(),
        uv_top_left(),
        uv_bottom_left(),
        // right
        uv_top_right(),
        uv_top_right(),
        uv_bottom_right(),
        //
        uv_bottom_right(),
        uv_top_right(),
        uv_bottom_right(),
    ]
}

/// The box corners of the window mesh's vertices.
pub fn window_mesh_positions() -> (r: Vec<BoxCorner>)
    ensures
        r@ == window_mesh_corner_seq(),
{
    let top_left_front = BoxCorner { x: -1i8, y: 1, z: -1i8 };
    let top_right_front = BoxCorner { x: 1, y: 1, z: -1i8 };
    let bottom_left_front = BoxCorner { x: -1i8, y: -1i8, z: -1i8 };
    let bottom_right_front = BoxCorner { x: 1, y: -1i8, z: -1i8 };
    let top_left_back = BoxCorner { x: -1i8, y: 1, z: 1 };
    let top_right_back = BoxCorner { x: 1, y: 1, z: 1 };
    let bottom_left_back = BoxCorner { x: -1i8, y: -1i8, z: 1 };
    let bottom_right_back = BoxCorner { x: 1, y: -1i8, z: 1 };
    let r = vec![
        // front
        top_left_front,
        top_right_front,
        bottom_left_front,
        //
        bottom_left_front,
        top_right_front,
        bottom_right_front,
        // back
        top_left_back,
        bottom_left_back,
        top_right_back,
        //
        bottom_left_back,
        bottom_right_back,
        top_right_back,
        // top
        top_left_back,
        top_right_back,
        top_left_front,
        //
        top_right_back,
        top_right_front,
        top_left_front,
        // bottom
        bottom_left_back,
        bottom_left_front,
        bottom_right_back,
        //
        bottom_right_back,
        bottom_left_front,
        bottom_right_front,
        // left
        top_left_back,
        top_left_front,
        bottom_left_back,
        //
        bottom_left_back,
        top_left_front,
        bottom_left_front,
        // right
        top_right_front,
        top_right_back,
        bottom_right_front,
        //
        bottom_right_front,
        top_right_back,
        bottom_right_back,
    ];
    assert(r@ =~= window_mesh_corner_seq());
    r
}

/// The texture corners of the window mesh's vertices.
pub fn window_mesh_uvs() -> (r: Vec<UvCorner>)
    ensures
        r@ == window_mesh_uv_seq(),
{
    let top_right = UvCorner { u: 1, v: 0 };
    let top_left = UvCorner { u: 0, v: 0 };
    let bottom_right = UvCorner { u: 1, v: 1 };
    let bottom_left = UvCorner { u: 0, v: 1 };
    let r = vec![
        // front
        top_left,
        top_right,
        bottom_left,
        //
        bottom_left,
        top_right,
        bottom_right,
        // back
        top_left,
        bottom_left,
        top_right,
        //
        bottom_left,
        bottom_right,
        top_right,
        // top
        top_left,
        top_right,
        top_left,
        //
        top_right,
        top_right,
        top_left,
        // bottom
        bottom_left,
        bottom_left,
        bottom_right,
        //
        bottom_right,
        bottom_left,
        bottom_right,
        // left
        top_left,
        top_left,
        bottom_left,
        //
        bottom_left,
        top_left,
        bottom_left,
        // right
        top_right,
        top_right,
        bottom_right,
        //
        bottom_right,
        top_right,
        bottom_right,
    ];
    assert(r@ =~= window_mesh_uv_seq());
    r
}

/// A corner as a vector of integers.
pub open spec fn coords(c: BoxCorner) -> (int, int, int) {
    (c.x as int, c.y as int, c.z as int)
}

/// The difference `a - b` of two vectors.
pub open spec fn minus(a: (int, int, int), b: (int, int, int)) -> (int, int, int) {
    (a.0 - b.0, a.1 - b.1, a.2 - b.2)
}

/// The cross product of two vectors.
pub open spec fn cross(a: (int, int, int), b: (int, int, int)) -> (int, int, int) {
    (a.1 * b.2 - a.2 * b.1, a.2 * b.0 - a.0 * b.2, a.0 * b.1 - a.1 * b.0)
}

/// How far the point `c` lies along the outward normal of face `f` (in the order front,
/// back, top, bottom, left, right): the face is where this is 1.
pub open spec fn outward_coord(c: (int, int, int), f: int) -> int {
    if f == 0 {
        -c.2
    } else if f == 1 {
        c.2
    } else if f == 2 {
        c.1
    } else if f == 3 {
        -c.1
    } else if f == 4 {
        -c.0
    } else {
        c.0
    }
}

/// The outward unit normal of face `f`, in the order front, back, top, bottom, left, right.
pub open spec fn face_normal(f: int) -> (int, int, int) {
    if f == 0 {
        (0, 0, -1)
    } else if f == 1 {
        (0, 0, 1)
    } else if f == 2 {
        (0, 1, 0)
    } else if f == 3 {
        (0, -1, 0)
    } else if f == 4 {
        (-1, 0, 0)
    } else {
        (1, 0, 0)
    }
}

/// The normal that the winding of triangle `t` (vertices `3t`, `3t + 1`, `3t + 2`) gives:
/// the cross product of its two edges from the first vertex.
pub open spec fn triangle_normal(s: Seq<BoxCorner>, t: int) -> (int, int, int) {
    let a = coords(s[3 * t]);
    cross(minus(coords(s[3 * t + 1]), a), minus(coords(s[3 * t + 2]), a))
}

proof fn lemma_cross_values(u: (int, int, int), v: (int, int, int), u0: int, u1: int, u2: int, v0: int, v1: int, v2: int)
    requires
        u == (u0, u1, u2),
        v == (v0, v1, v2),
    ensures
        cross(u, v) == (u1 * v2 - u2 * v1, u2 * v0 - u0 * v2, u0 * v1 - u1 * v0),
{
}

/// The mesh has twelve triangles, two per face: face `f` (in the order front, back, top,
/// bottom, left, right) is made of vertices `6f` to `6f + 5`, and triangle `2f + j` of the
/// three consecutive vertices from `6f + 3j`. Every vertex of a face's triangles lies on that
/// face, and the winding of every triangle faces outward (counter-clockwise seen from
/// outside), with a normal four times its face's outward unit normal.
pub proof fn law_mesh_triangles_face_outward()
    ensures
        window_mesh_corner_seq().len() == 36,
        forall|f: int, j: int|
            0 <= f < 6 && 0 <= j < 6 ==> outward_coord(
                coords(#[trigger] window_mesh_corner_seq()[6 * f + j]),
                f,
            ) == 1,
        forall|f: int, j: int|
            0 <= f < 6 && 0 <= j < 2 ==> #[trigger] triangle_normal(
                window_mesh_corner_seq(),
                2 * f + j,
            ) == (4 * face_normal(f).0, 4 * face_normal(f).1, 4 * face_normal(f).2),
{
    let s = window_mesh_corner_seq();
    assert forall|f: int, j: int| 0 <= f < 6 && 0 <= j < 6 implies outward_coord(
        coords(#[trigger] s[6 * f + j]),
        f,
    ) == 1 by {
        if f == 0 && j == 0 {
            assert(s[0] == top_left_front());
        } else if f == 0 && j == 1 {
            assert(s[1] == top_right_front());
        } else if f == 0 && j == 2 {
            assert(s[2] == bottom_left_front());
        } else if f == 0 && j == 3 {
            assert(s[3] == bottom_left_front());
        } else if f == 0 && j == 4 {
            assert(s[4] == top_right_front());
        } else if f == 0 && j == 5 {
            assert(s[5] == bottom_right_front());
        } else if f == 1 && j == 0 {
            assert(s[6] == top_left_back());
        } else if f == 1 && j == 1 {
            assert(s[7] == bottom_left_back());
        } else if f == 1 && j == 2 {
            assert(s[8] == top_right_back());
        } else if f == 1 && j == 3 {
            assert(s[9] == bottom_left_back());
        } else if f == 1 && j == 4 {
            assert(s[10] == bottom_right_back());
        } else if f == 1 && j == 5 {
            assert(s[11] == top_right_back());
        } else if f == 2 && j == 0 {
            assert(s[12] == top_left_back());
        } else if f == 2 && j == 1 {
            assert(s[13] == top_right_back());
        } else if f == 2 && j == 2 {
            assert(s[14] == top_left_front());
        } else if f == 2 && j == 3 {
            assert(s[15] == top_right_back());
        } else if f == 2 && j == 4 {
            assert(s[16] == top_right_front());
        } else if f == 2 && j == 5 {
            assert(s[17] == top_left_front());
        } else if f == 3 && j == 0 {
            assert(s[18] == bottom_left_back());
        } else if f == 3 && j == 1 {
            assert(s[19] == bottom_left_front());
        } else if f == 3 && j == 2 {
            assert(s[20] == bottom_right_back());
        } else if f == 3 && j == 3 {
            assert(s[21] == bottom_right_back());
        } else if f == 3 && j == 4 {
            assert(s[22] == bottom_left_front());
        } else if f == 3 && j == 5 {
            assert(s[23] == bottom_right_front());
        } else if f == 4 && j == 0 {
            assert(s[24] == top_left_back());
        } else if f == 4 && j == 1 {
            assert(s[25] == top_left_front());
        } else if f == 4 && j == 2 {
            assert(s[26] == bottom_left_back());
        } else if f == 4 && j == 3 {
            assert(s[27] == bottom_left_back());
        } else if f == 4 && j == 4 {
            assert(s[28] == top_left_front());
        } else if f == 4 && j == 5 {
            assert(s[29] == bottom_left_front());
        } else if f == 5 && j == 0 {
            assert(s[30] == top_right_front());
        } else if f == 5 && j == 1 {
            assert(s[31] == top_right_back());
        } else if f == 5 && j == 2 {
            assert(s[32] == bottom_right_front());
        } else if f == 5 && j == 3 {
            assert(s[33] == bottom_right_front());
        } else if f == 5 && j == 4 {
            assert(s[34] == top_right_back());
        } else if f == 5 && j == 5 {
            assert(s[35] == bottom_right_back());
        }
    }
    assert forall|f: int, j: int| 0 <= f < 6 && 0 <= j < 2 implies #[trigger] triangle_normal(
        s,
        2 * f + j,
    ) == (4 * face_normal(f).0, 4 * face_normal(f).1, 4 * face_normal(f).2) by {
        if f == 0 && j == 0 {
            assert(s[0] == top_left_front() && s[1] == top_right_front() && s[2] == bottom_left_front());
            lemma_cross_values(minus(coords(s[1]), coords(s[0])), minus(coords(s[2]), coords(s[0])), 2, 0, 0, 0, -2, 0);
        } else if f == 0 && j == 1 {
            assert(s[3] == bottom_left_front() && s[4] == top_right_front() && s[5] == bottom_right_front());
            lemma_cross_values(minus(coords(s[4]), coords(s[3])), minus(coords(s[5]), coords(s[3])), 2, 2, 0, 2, 0, 0);
        } else if f == 1 && j == 0 {
            assert(s[6] == top_left_back() && s[7] == bottom_left_back() && s[8] == top_right_back());
            lemma_cross_values(minus(coords(s[7]), coords(s[6])), minus(coords(s[8]), coords(s[6])), 0, -2, 0, 2, 0, 0);
        } else if f == 1 && j == 1 {
            assert(s[9] == bottom_left_back() && s[10] == bottom_right_back() && s[11] == top_right_back());
            lemma_cross_values(minus(coords(s[10]), coords(s[9])), minus(coords(s[11]), coords(s[9])), 2, 0, 0, 2, 2, 0);
        } else if f == 2 && j == 0 {
            assert(s[12] == top_left_back() && s[13] == top_right_back() && s[14] == top_left_front());
            lemma_cross_values(minus(coords(s[13]), coords(s[12])), minus(coords(s[14]), coords(s[12])), 2, 0, 0, 0, 0, -2);
        } else if f == 2 && j == 1 {
            assert(s[15] == top_right_back() && s[16] == top_right_front() && s[17] == top_left_front());
            lemma_cross_values(minus(coords(s[16]), coords(s[15])), minus(coords(s[17]), coords(s[15])), 0, 0, -2, -2, 0, -2);
        } else if f == 3 && j == 0 {
            assert(s[18] == bottom_left_back() && s[19] == bottom_left_front() && s[20] == bottom_right_back());
            lemma_cross_values(minus(coords(s[19]), coords(s[18])), minus(coords(s[20]), coords(s[18])), 0, 0, -2, 2, 0, 0);
        } else if f == 3 && j == 1 {
            assert(s[21] == bottom_right_back() && s[22] == bottom_left_front() && s[23] == bottom_right_front());
            lemma_cross_values(minus(coords(s[22]), coords(s[21])), minus(coords(s[23]), coords(s[21])), -2, 0, -2, 0, 0, -2);
        } else if f == 4 && j == 0 {
            assert(s[24] == top_left_back() && s[25] == top_left_front() && s[26] == bottom_left_back());
            lemma_cross_values(minus(coords(s[25]), coords(s[24])), minus(coords(s[26]), coords(s[24])), 0, 0, -2, 0, -2, 0);
        } else if f == 4 && j == 1 {
            assert(s[27] == bottom_left_back() && s[28] == top_left_front() && s[29] == bottom_left_front());
            lemma_cross_values(minus(coords(s[28]), coords(s[27])), minus(coords(s[29]), coords(s[27])), 0, 2, -2, 0, 0, -2);
        } else if f == 5 && j == 0 {
            assert(s[30] == top_right_front() && s[31] == top_right_back() && s[32] == bottom_right_front());
            lemma_cross_values(minus(coords(s[31]), coords(s[30])), minus(coords(s[32]), coords(s[30])), 0, 0, 2, 0, -2, 0);
        } else if f == 5 && j == 1 {
            assert(s[33] == bottom_right_front() && s[34] == top_right_back() && s[35] == bottom_right_back());
            lemma_cross_values(minus(coords(s[34]), coords(s[33])), minus(coords(s[35]), coords(s[33])), 0, 2, 2, 0, 0, 2);
        }
    }
}

/// `(x, y, z)` is a corner of the box that lies on face `f`.
pub open spec fn corner_on_face(f: int, x: i8, y: i8, z: i8) -> bool {
    &&& 0 <= f < 6
    &&& x == 1 || x == -1
    &&& y == 1 || y == -1
    &&& z == 1 || z == -1
    &&& outward_coord((x as int, y as int, z as int), f) == 1
}

/// One of the six vertices of face `f`'s two triangles sits at corner `(x, y, z)`.
pub open spec fn face_uses_corner(f: int, x: i8, y: i8, z: i8) -> bool {
    exists|k: int|
        6 * f <= k < 6 * f + 6 && #[trigger] window_mesh_corner_seq()[k] == (BoxCorner { x, y, z })
}

/// The two triangles of each face together use all four corners of that face.
pub proof fn law_mesh_faces_covered()
    ensures
        forall|f: int, x: i8, y: i8, z: i8|
            #[trigger] corner_on_face(f, x, y, z) ==> face_uses_corner(f, x, y, z),
{
    let s = window_mesh_corner_seq();
    assert forall|f: int, x: i8, y: i8, z: i8|
        #[trigger] corner_on_face(f, x, y, z) implies face_uses_corner(f, x, y, z) by {
        if f == 0 && x == -1 && y == 1 && z == -1 {
            assert(s[0] == top_left_front());
        } else if f == 0 && x == 1 && y == 1 && z == -1 {
            assert(s[1] == top_right_front());
        } else if f == 0 && x == -1 && y == -1 && z == -1 {
            assert(s[2] == bottom_left_front());
        } else if f == 0 && x == 1 && y == -1 && z == -1 {
            assert(s[5] == bottom_right_front());
        } else if f == 1 && x == -1 && y == 1 && z == 1 {
            assert(s[6] == top_left_back());
        } else if f == 1 && x == -1 && y == -1 && z == 1 {
            assert(s[7] == bottom_left_back());
        } else if f == 1 && x == 1 && y == 1 && z == 1 {
            assert(s[8] == top_right_back());
        } else if f == 1 && x == 1 && y == -1 && z == 1 {
            assert(s[10] == bottom_right_back());
        } else if f == 2 && x == -1 && y == 1 && z == 1 {
            assert(s[12] == top_left_back());
        } else if f == 2 && x == 1 && y == 1 && z == 1 {
            assert(s[13] == top_right_back());
        } else if f == 2 && x == -1 && y == 1 && z == -1 {
            assert(s[14] == top_left_front());
        } else if f == 2 && x == 1 && y == 1 && z == -1 {
            assert(s[16] == top_right_front());
        } else if f == 3 && x == -1 && y == -1 && z == 1 {
            assert(s[18] == bottom_left_back());
        } else if f == 3 && x == -1 && y == -1 && z == -1 {
            assert(s[19] == bottom_left_front());
        } else if f == 3 && x == 1 && y == -1 && z == 1 {
            assert(s[20] == bottom_right_back());
        } else if f == 3 && x == 1 && y == -1 && z == -1 {
            assert(s[23] == bottom_right_front());
        } else if f == 4 && x == -1 && y == 1 && z == 1 {
            assert(s[24] == top_left_back());
        } else if f == 4 && x == -1 && y == 1 && z == -1 {
            assert(s[25] == top_left_front());
        } else if f == 4 && x == -1 && y == -1 && z == 1 {
            assert(s[26] == bottom_left_back());
        } else if f == 4 && x == -1 && y == -1 && z == -1 {
            assert(s[29] == bottom_left_front());
        } else if f == 5 && x == 1 && y == 1 && z == -1 {
            assert(s[30] == top_right_front());
        } else if f == 5 && x == 1 && y == 1 && z == 1 {
            assert(s[31] == top_right_back());
        } else if f == 5 && x == 1 && y == -1 && z == -1 {
            assert(s[32] == bottom_right_front());
        } else if f == 5 && x == 1 && y == -1 && z == 1 {
            assert(s[35] == bottom_right_back());
        }
    }
}

/// Every vertex shows the texture corner that is its own corner seen from the front:
/// u goes from 0 at the left to 1 at the right, v from 0 at the top to 1 at the bottom.
pub proof fn law_mesh_uv_is_front_projection()
    ensures
        window_mesh_uv_seq().len() == window_mesh_corner_seq().len(),
        forall|k: int|
            0 <= k < 36 ==> (#[trigger] window_mesh_uv_seq()[k]).u == (
            window_mesh_corner_seq()[k].x + 1) / 2 && window_mesh_uv_seq()[k].v == (1
                - window_mesh_corner_seq()[k].y) / 2,
{
    let s = window_mesh_corner_seq();
    let u = window_mesh_uv_seq();
    assert forall|k: int| 0 <= k < 36 implies (#[trigger] u[k]).u == (s[k].x + 1) / 2 && u[k].v == (1
        - s[k].y) / 2 by {
        if k == 0 {
            assert(s[0] == top_left_front() && u[0] == uv_top_left());
        } else if k == 1 {
            assert(s[1] == top_right_front() && u[1] == uv_top_right());
        } else if k == 2 {
            assert(s[2] == bottom_left_front() && u[2] == uv_bottom_left());
        } else if k == 3 {
            assert(s[3] == bottom_left_front() && u[3] == uv_bottom_left());
        } else if k == 4 {
            assert(s[4] == top_right_front() && u[4] == uv_top_right());
        } else if k == 5 {
            assert(s[5] == bottom_right_front() && u[5] == uv_bottom_right());
        } else if k == 6 {
            assert(s[6] == top_left_back() && u[6] == uv_top_left());
        } else if k == 7 {
            assert(s[7] == bottom_left_back() && u[7] == uv_bottom_left());
        } else if k == 8 {
            assert(s[8] == top_right_back() && u[8] == uv_top_right());
        } else if k == 9 {
            assert(s[9] == bottom_left_back() && u[9] == uv_bottom_left());
        } else if k == 10 {
            assert(s[10] == bottom_right_back() && u[10] == uv_bottom_right());
        } else if k == 11 {
            assert(s[11] == top_right_back() && u[11] == uv_top_right());
        } else if k == 12 {
            assert(s[12] == top_left_back() && u[12] == uv_top_left());
        } else if k == 13 {
            assert(s[13] == top_right_back() && u[13] == uv_top_right());
        } else if k == 14 {
            assert(s[14] == top_left_front() && u[14] == uv_top_left());
        } else if k == 15 {
            assert(s[15] == top_right_back() && u[15] == uv_top_right());
        } else if k == 16 {
            assert(s[16] == top_right_front() && u[16] == uv_top_right());
        } else if k == 17 {
            assert(s[17] == top_left_front() && u[17] == uv_top_left());
        } else if k == 18 {
            assert(s[18] == bottom_left_back() && u[18] == uv_bottom_left());
        } else if k == 19 {
            assert(s[19] == bottom_left_front() && u[19] == uv_bottom_left());
        } else if k == 20 {
            assert(s[20] == bottom_right_back() && u[20] == uv_bottom_right());
        } else if k == 21 {
            assert(s[21] == bottom_right_back() && u[21] == uv_bottom_right());
        } else if k == 22 {
            assert(s[22] == bottom_left_front() && u[22] == uv_bottom_left());
        } else if k == 23 {
            assert(s[23] == bottom_right_front() && u[23] == uv_bottom_right());
        } else if k == 24 {
            assert(s[24] == top_left_back() && u[24] == uv_top_left());
        } else if k == 25 {
            assert(s[25] == top_left_front() && u[25] == uv_top_left());
        } else if k == 26 {
            assert(s[26] == bottom_left_back() && u[26] == uv_bottom_left());
        } else if k == 27 {
            assert(s[27] == bottom_left_back() && u[27] == uv_bottom_left());
        } else if k == 28 {
            assert(s[28] == top_left_front() && u[28] == uv_top_left());
        } else if k == 29 {
            assert(s[29] == bottom_left_front() && u[29] == uv_bottom_left());
        } else if k == 30 {
            assert(s[30] == top_right_front() && u[30] == uv_top_right());
        } else if k == 31 {
            assert(s[31] == top_right_back() && u[31] == uv_top_right());
        } else if k == 32 {
            assert(s[32] == bottom_right_front() && u[32] == uv_bottom_right());
        } else if k == 33 {
            assert(s[33] == bottom_right_front() && u[33] == uv_bottom_right());
        } else if k == 34 {
            assert(s[34] == top_right_back() && u[34] == uv_top_right());
        } else if k == 35 {
            assert(s[35] == bottom_right_back() && u[35] == uv_bottom_right());
        }
    }
}

proof fn lemma_scaled_minor(p: int, q: int, r: int, w: int, hp: int, hq: int)
    ensures
        (hp * p) * (hq * w) - (hq * q) * (hp * r) == hp * hq * (p * w - q * r),
{
    assert((hp * p) * (hq * w) == (hp * hq) * (p * w)) by (nonlinear_arith);
    assert((hq * q) * (hp * r) == (hp * hq) * (q * r)) by (nonlinear_arith);
    lemma_mul_is_distributive_sub(hp * hq, p * w, q * r);
}

/// Scaling the box by positive half extents keeps each triangle's winding: the normal of
/// the scaled triangle is the unscaled normal with each component multiplied by the
/// product of the other two scales, so it points the same way.
pub proof fn law_scaling_keeps_winding(
    a: (int, int, int),
    b: (int, int, int),
    c: (int, int, int),
    hx: int,
    hy: int,
    hz: int,
)
    requires
        hx > 0,
        hy > 0,
        hz > 0,
    ensures
        ({
            let n = cross(minus(b, a), minus(c, a));
            let sa = (hx * a.0, hy * a.1, hz * a.2);
            let sb = (hx * b.0, hy * b.1, hz * b.2);
            let sc = (hx * c.0, hy * c.1, hz * c.2);
            cross(minus(sb, sa), minus(sc, sa)) == (hy * hz * n.0, hx * hz * n.1, hx * hy * n.2)
        }),
{
    let u = minus(b, a);
    let v = minus(c, a);
    let sa = (hx * a.0, hy * a.1, hz * a.2);
    let sb = (hx * b.0, hy * b.1, hz * b.2);
    let sc = (hx * c.0, hy * c.1, hz * c.2);
    assert(minus(sb, sa) == (hx * u.0, hy * u.1, hz * u.2)) by (nonlinear_arith)
        requires
            u == minus(b, a),
            sa == (hx * a.0, hy * a.1, hz * a.2),
            sb == (hx * b.0, hy * b.1, hz * b.2),
    ;
    assert(minus(sc, sa) == (hx * v.0, hy * v.1, hz * v.2)) by (nonlinear_arith)
        requires
            v == minus(c, a),
            sa == (hx * a.0, hy * a.1, hz * a.2),
            sc == (hx * c.0, hy * c.1, hz * c.2),
    ;
    lemma_scaled_minor(u.1, u.2, v.1, v.2, hy, hz);
    lemma_scaled_minor(u.2, u.0, v.2, v.0, hz, hx);
    lemma_scaled_minor(u.0, u.1, v.0, v.1, hx, hy);
}

} // verus!
