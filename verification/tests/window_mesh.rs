use bevy_spatial_egui::window_mesh::{window_mesh_positions, window_mesh_uvs, BoxCorner, UvCorner};

fn v(c: BoxCorner) -> [i32; 3] {
    [c.x as i32, c.y as i32, c.z as i32]
}

fn cross(a: [i32; 3], b: [i32; 3]) -> [i32; 3] {
    [
        a[1] * b[2] - a[2] * b[1],
        a[2] * b[0] - a[0] * b[2],
        a[0] * b[1] - a[1] * b[0],
    ]
}

const NORMALS: [[i32; 3]; 6] = [[0, 0, -1], [0, 0, 1], [0, 1, 0], [0, -1, 0], [-1, 0, 0], [1, 0, 0]];

#[test]
fn mesh_has_thirty_six_vertices() {
    assert_eq!(window_mesh_positions().len(), 36);
    assert_eq!(window_mesh_uvs().len(), 36);
}

#[test]
fn first_front_triangle() {
    let p = window_mesh_positions();
    assert_eq!(p[0], BoxCorner { x: -1, y: 1, z: -1 });
    assert_eq!(p[1], BoxCorner { x: 1, y: 1, z: -1 });
    assert_eq!(p[2], BoxCorner { x: -1, y: -1, z: -1 });
    let u = window_mesh_uvs();
    assert_eq!(u[0], UvCorner { u: 0, v: 0 });
    assert_eq!(u[1], UvCorner { u: 1, v: 0 });
    assert_eq!(u[2], UvCorner { u: 0, v: 1 });
}

#[test]
fn every_triangle_faces_outward() {
    let p = window_mesh_positions();
    for t in 0..12 {
        let a = v(p[3 * t]);
        let b = v(p[3 * t + 1]);
        let c = v(p[3 * t + 2]);
        let n = cross(
            [b[0] - a[0], b[1] - a[1], b[2] - a[2]],
            [c[0] - a[0], c[1] - a[1], c[2] - a[2]],
        );
        let f = NORMALS[t / 2];
        assert_eq!(n, [4 * f[0], 4 * f[1], 4 * f[2]], "triangle {t}");
    }
}

#[test]
fn every_face_uses_its_four_corners() {
    let p = window_mesh_positions();
    for f in 0..6 {
        let mut seen: Vec<[i32; 3]> = Vec::new();
        for k in 6 * f..6 * f + 6 {
            let c = v(p[k]);
            let along = c[0] * NORMALS[f][0] + c[1] * NORMALS[f][1] + c[2] * NORMALS[f][2];
            assert_eq!(along, 1);
            if !seen.contains(&c) {
                seen.push(c);
            }
        }
        assert_eq!(seen.len(), 4, "face {f}");
    }
}

#[test]
fn uv_is_the_front_view_of_the_corner() {
    let p = window_mesh_positions();
    let u = window_mesh_uvs();
    for k in 0..36 {
        assert_eq!(u[k].u as i32, (p[k].x as i32 + 1) / 2);
        assert_eq!(u[k].v as i32, (1 - p[k].y as i32) / 2);
    }
}
