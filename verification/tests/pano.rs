//! Panoramas: layouts, windows, index buffers and the glasses that show them.

use viture_v2::pano::{
    anaglyph_mix, cube_faces, cube_place, cubemap_index_count, cubemap_indices, cubemap_mesh_size,
    cubemap_vertex_count, diagonal_for, index_count, known_models, model_for, screen_mesh_size,
    screen_place, screen_vertex_count, sphere_indices, sphere_indices_bounded, sphere_mesh_size,
    sphere_place, uv_window, vertex_count, AnaglyphPair, Bounds, CubePlace, Eye, Projection,
    ScreenPlace, SpherePlace, StereoLayout, PANEL_DIAGONAL_FOV_DEG, VERTEX_FLOATS,
};

const RINGS: u32 = 32;
const SECTORS: u32 = 64;

fn bounds(top: f32, bottom: f32, left: f32, right: f32) -> Bounds {
    Bounds {
        top: top.to_bits(),
        bottom: bottom.to_bits(),
        left: left.to_bits(),
        right: right.to_bits(),
    }
}

/// Weights and windows are given in halves.
fn halves<const N: usize>(h: [u8; N]) -> [f32; N] {
    h.map(|v| v as f32 / 2.0)
}

#[test]
fn indices_stay_in_range() {
    let mut idx = vec![0u16; index_count(RINGS, SECTORS)];
    let n = sphere_indices(RINGS, SECTORS, &mut idx).unwrap();
    let max = vertex_count(RINGS, SECTORS) as u16;
    assert!(idx[..n].iter().all(|&i| i < max));
}

#[test]
fn tessellation_is_validated() {
    let room = 1usize << 20;
    let mut idx = vec![0u16; 1 << 20];
    let full = Projection::Equirect360.bounds().unwrap();
    assert_eq!(sphere_mesh_size(1, 64, full, room), None, "one ring");
    assert_eq!(sphere_mesh_size(32, 2, full, room), None, "two sectors");
    assert_eq!(sphere_mesh_size(512, 512, full, room), None, "over 16-bit");
    assert_eq!(sphere_indices(512, 512, &mut idx), None, "over 16-bit");
    // Short output slices are rejected rather than half-filled.
    assert_eq!(sphere_mesh_size(RINGS, SECTORS, full, 4), None);
    let mut tiny_idx = [0u16; 4];
    assert_eq!(sphere_indices(RINGS, SECTORS, &mut tiny_idx), None);
    assert_eq!(tiny_idx, [0; 4]);
    // And the least that works, works.
    assert_eq!(sphere_mesh_size(2, 3, full, 12 * VERTEX_FLOATS), Some(12));
    assert_eq!(sphere_mesh_size(2, 3, full, 12 * VERTEX_FLOATS - 1), None);
    assert_eq!(sphere_indices(2, 3, &mut idx), Some(18));
}

#[test]
fn stereo_windows_split_the_frame_without_overlap() {
    let window = |layout, eye| halves(uv_window(layout, eye));
    assert_eq!(
        window(StereoLayout::Mono, Eye::Left),
        [1.0, 0.0, 1.0, 0.0]
    );
    assert_eq!(
        window(StereoLayout::Mono, Eye::Right),
        [1.0, 0.0, 1.0, 0.0]
    );

    // The left eye reads the top half of the image, which in bottom-up
    // texture space is the upper half of v.
    let [_, _, vs, vl] = window(StereoLayout::OverUnder, Eye::Left);
    let [_, _, _, vr] = window(StereoLayout::OverUnder, Eye::Right);
    assert_eq!((vs, vl, vr), (0.5, 0.5, 0.0));

    let [us, ul, _, _] = window(StereoLayout::SideBySide, Eye::Left);
    let [_, ur, _, _] = window(StereoLayout::SideBySide, Eye::Right);
    assert_eq!((us, ul, ur), (0.5, 0.0, 0.5));
}

#[test]
fn the_pro_2_is_the_one_that_was_actually_measured() {
    let pro2 = model_for(0x1301).expect("the Pro 2 should be known");
    assert_eq!(pro2.diagonal_fov_deg, PANEL_DIAGONAL_FOV_DEG);
    assert!(
        pro2.verified,
        "the Pro 2 is the model this was built against"
    );
    // And it is the only one, which is the honest state of affairs. If a
    // second becomes verified, that is a measurement somebody took and this
    // line should be updated deliberately rather than drift.
    assert_eq!(known_models().iter().filter(|m| m.verified).count(), 1);
}

#[test]
fn glasses_nobody_has_plugged_in_cannot_be_matched_by_accident() {
    // The unverified entries carry a product id of zero because nobody has
    // read theirs off a bus. Zero must never match, or an unrecognised pair
    // would silently be treated as whichever placeholder came first.
    assert_eq!(model_for(0), None);
    assert_eq!(model_for(0xFFFF), None);
    for model in known_models().iter().filter(|m| !m.verified) {
        assert_eq!(
            model.product_id, 0,
            "{} claims an id nobody read",
            model.name
        );
    }
}

/// The half of the answer that is looked up; the other half is the panel's shape.
#[test]
fn unknown_glasses_get_the_measured_angle() {
    assert_eq!(diagonal_for(0x1301), 50);
    assert_eq!(diagonal_for(0xBEEF), 50);
    let models = known_models();
    let beast = models.iter().find(|m| m.name.contains("Beast")).unwrap();
    assert!(beast.diagonal_fov_deg > 50);
    assert_eq!(beast.eye_height, 1200);
}

#[test]
fn the_named_projections_have_the_bounds_they_stand_for() {
    assert_eq!(Projection::Equirect360.bounds(), Some(Bounds::full()));
    assert_eq!(
        Projection::Equirect180.bounds(),
        Some(bounds(0.0, 0.0, 0.25, 0.25))
    );
    assert_eq!(Projection::Flat.bounds(), None);
    assert_eq!(Projection::Cubemap.bounds(), None);
    assert_eq!(Bounds::full(), bounds(0.0, 0.0, 0.0, 0.0));
}

#[test]
fn a_cropped_sphere_keeps_the_triangles_a_full_one_drops() {
    // The polar rows of a full sphere collapse to a point and half of each
    // cell is dropped. Crop the poles away and those rows are ordinary
    // quads; dropping them would leave a band of nothing top and bottom.
    let mut idx = vec![0u16; index_count(RINGS, SECTORS)];
    let full = sphere_indices_bounded(RINGS, SECTORS, Bounds::full(), &mut idx).unwrap();
    let cropped =
        sphere_indices_bounded(RINGS, SECTORS, bounds(0.05, 0.05, 0.0, 0.0), &mut idx).unwrap();
    assert_eq!(cropped, index_count(RINGS, SECTORS));
    assert_eq!(full, cropped - 6 * SECTORS as usize);

    // One pole cropped, one not.
    let half =
        sphere_indices_bounded(RINGS, SECTORS, bounds(0.05, 0.0, 0.0, 0.0), &mut idx).unwrap();
    assert_eq!(half, cropped - 3 * SECTORS as usize);
}

#[test]
fn bounds_that_leave_nothing_are_refused() {
    let room = vertex_count(RINGS, SECTORS) * VERTEX_FLOATS;
    for bad in [
        bounds(0.5, 0.5, 0.0, 0.0),
        bounds(0.0, 0.0, 0.9, 0.2),
        bounds(-0.1, 0.0, 0.0, 0.0),
        bounds(f32::NAN, 0.0, 0.0, 0.0),
    ] {
        assert!(!bad.is_usable(), "{bad:?} should be refused");
        assert_eq!(sphere_mesh_size(RINGS, SECTORS, bad, room), None);
        let mut idx = vec![0u16; index_count(RINGS, SECTORS)];
        assert_eq!(sphere_indices_bounded(RINGS, SECTORS, bad, &mut idx), None);
    }
    assert!(Bounds::full().is_usable());
    assert_eq!(
        sphere_mesh_size(RINGS, SECTORS, Bounds::full(), room),
        Some(vertex_count(RINGS, SECTORS))
    );
}

/// Whether bounds leave something, computed the plain way.
fn leaves_something(b: Bounds) -> bool {
    let [top, bottom, left, right] =
        [b.top, b.bottom, b.left, b.right].map(f32::from_bits);
    let finite = [top, bottom, left, right].iter().all(|v| v.is_finite() && *v >= 0.0);
    finite && top + bottom < 1.0 && left + right < 1.0
}

#[test]
fn bounds_are_judged_the_way_single_precision_judges_them() {
    let one = 1.0f32.to_bits();
    let half = 0.5f32.to_bits();
    let mut values = vec![
        0u32,
        1,
        2,
        0x8000_0000,
        0x8000_0001,
        0x007F_FFFF,
        0x0080_0000,
        f32::INFINITY.to_bits(),
        f32::NEG_INFINITY.to_bits(),
        f32::NAN.to_bits(),
        f32::MAX.to_bits(),
        0.1f32.to_bits(),
        0.9f32.to_bits(),
        0.25f32.to_bits(),
        0.75f32.to_bits(),
        1e-8f32.to_bits(),
        2.9802322e-8f32.to_bits(),
        5.9604645e-8f32.to_bits(),
    ];
    for d in 0..6u32 {
        values.extend_from_slice(&[one - d, one + d, half - d, half + d]);
        values.push(2.9802322e-8f32.to_bits() - d);
        values.push(5.9604645e-8f32.to_bits() + d);
    }
    for &a in &values {
        for &b in &values {
            for bounds in [
                Bounds { top: a, bottom: b, left: 0, right: 0 },
                Bounds { top: 0, bottom: 0, left: a, right: b },
            ] {
                assert_eq!(bounds.is_usable(), leaves_something(bounds), "{a:#x} + {b:#x}");
            }
        }
    }
    // Pairs whose exact sum lies within a few units of one.
    let mut seed = 3u64;
    for _ in 0..300_000 {
        seed = seed.wrapping_mul(6_364_136_223_846_793_005).wrapping_add(1_442_695_040_888_963_407);
        let a = f32::from_bits((seed >> 33) as u32 % one);
        let b = f32::from_bits((1.0 - a).to_bits().wrapping_add((seed >> 20) as u32 % 7).wrapping_sub(3));
        let near = bounds(a, b, 0.0, 0.0);
        assert_eq!(near.is_usable(), leaves_something(near), "{a} + {b}");
    }
}

#[test]
fn cube_indices_cover_every_face_and_stay_in_range() {
    for cells in [1u32, 4, 16] {
        let mut idx = vec![0u16; cubemap_index_count(cells)];
        assert_eq!(cubemap_indices(cells, &mut idx), Some(idx.len()));
        let limit = cubemap_vertex_count(cells) as u16;
        assert!(idx.iter().all(|&i| i < limit), "index out of range");
        let per_face = (cells as u16 + 1) * (cells as u16 + 1);
        for face in 0..6u16 {
            assert!(
                idx.iter().any(|&i| i / per_face == face),
                "face {face} has no triangles",
            );
        }
    }
}

/// A vertex of a face by its place in the grid, on a cube `2 * cells` across.
fn cube_vertex(face: usize, cells: i32, x: i32, y: i32) -> [i32; 3] {
    let f = cube_faces()[face];
    let mut p = [0i32; 3];
    for axis in 0..3 {
        p[axis] = f.centre[axis] as i32 * cells
            + f.right[axis] as i32 * (2 * x - cells)
            + f.up[axis] as i32 * (2 * y - cells);
    }
    p
}

#[test]
fn the_cube_faces_land_where_the_spec_packs_them() {
    // The 3x2 grid of layout 0: Right, Left, Up across the top row of the
    // image and Down, Front, Back across the bottom.
    for (face, name, dir, column, row) in [
        (0, "right", [1, 0, 0], 0, 0),
        (1, "left", [-1, 0, 0], 1, 0),
        (2, "up", [0, 1, 0], 2, 0),
        (3, "down", [0, -1, 0], 0, 1),
        (4, "front", [0, 0, -1], 1, 1),
        (5, "back", [0, 0, 1], 2, 1),
    ] {
        let f = cube_faces()[face];
        assert_eq!(f.centre, dir, "{name} centre");
        assert_eq!((f.column, f.row), (column, row), "{name}");
    }
}

#[test]
fn the_poles_are_oriented_the_way_a_tilted_head_expects() {
    // Tilt your head back to look at the ceiling and your up direction swings
    // from up towards forward, so the top of the ceiling image points forward;
    // look down and it swings backwards.
    // Top edge of the ceiling image, halfway along: forward.
    let top_of_ceiling = cube_vertex(2, 2, 1, 2);
    assert_eq!(top_of_ceiling, [0, 2, -2], "ceiling top is not forward");
    // Top edge of the floor image: backward.
    let top_of_floor = cube_vertex(3, 2, 1, 2);
    assert_eq!(top_of_floor, [0, -2, 2], "floor top is not backward");
    // And the ceiling's forward edge is the same place in the world as the
    // front wall's top edge, so the two pictures meet rather than overlap.
    let front_top = cube_vertex(4, 2, 1, 2);
    assert_eq!(
        front_top, top_of_ceiling,
        "ceiling and front wall do not meet"
    );
}

#[test]
fn every_cube_edge_is_shared_by_exactly_two_faces() {
    let cells = 2;
    let mut corners = std::collections::BTreeMap::new();
    for face in 0..6 {
        for (x, y) in [(0, 0), (cells, 0), (0, cells), (cells, cells)] {
            *corners.entry(cube_vertex(face, cells, x, y)).or_insert(0) += 1;
        }
    }
    assert_eq!(corners.len(), 8, "a cube has eight corners");
    for (corner, faces) in corners {
        assert_eq!(faces, 3, "corner {corner:?} is built by {faces} faces");
    }
}

#[test]
fn every_cube_triangle_faces_the_viewer_at_the_centre() {
    // The check is the sign of the triangle's normal against the direction to
    // it. Every face wound away from the middle would be culled.
    for cells in [1i32, 2, 5] {
        let mut idx = vec![0u16; cubemap_index_count(cells as u32)];
        cubemap_indices(cells as u32, &mut idx).unwrap();
        let stride = cells + 1;
        for (n, triangle) in idx.chunks(3).enumerate() {
            let p: Vec<[i32; 3]> = triangle
                .iter()
                .map(|&i| {
                    let i = i as i32;
                    let face = i / (stride * stride);
                    let place = i % (stride * stride);
                    cube_vertex(face as usize, cells, place % stride, place / stride)
                })
                .collect();
            let edge1 = [p[1][0] - p[0][0], p[1][1] - p[0][1], p[1][2] - p[0][2]];
            let edge2 = [p[2][0] - p[0][0], p[2][1] - p[0][1], p[2][2] - p[0][2]];
            let normal = [
                edge1[1] * edge2[2] - edge1[2] * edge2[1],
                edge1[2] * edge2[0] - edge1[0] * edge2[2],
                edge1[0] * edge2[1] - edge1[1] * edge2[0],
            ];
            let facing = normal[0] * p[0][0] + normal[1] * p[0][1] + normal[2] * p[0][2];
            assert!(facing < 0, "triangle {n} faces away from the centre ({facing})");
        }
    }
}

#[test]
fn a_cube_takes_as_much_as_it_announces() {
    assert_eq!((cubemap_vertex_count(2), cubemap_index_count(2)), (54, 144));
    assert_eq!(cubemap_mesh_size(2, 54 * VERTEX_FLOATS), Some(54));
    assert_eq!(cubemap_mesh_size(2, 54 * VERTEX_FLOATS - 1), None);
    assert_eq!(cubemap_mesh_size(0, 1 << 20), None, "no cells");
    let mut idx = vec![9u16; 143];
    assert_eq!(cubemap_indices(2, &mut idx), None);
    assert!(idx.iter().all(|&i| i == 9), "a short buffer was written to");
    assert_eq!(cubemap_indices(0, &mut idx), None);
}

#[test]
fn a_screen_takes_two_vertices_for_every_edge() {
    assert_eq!(screen_vertex_count(32), 66);
    assert_eq!(screen_mesh_size(32, 330), Some(66));
    assert_eq!(screen_mesh_size(32, 329), None);
    assert_eq!(screen_mesh_size(0, 330), None);
}

#[test]
fn the_packings_that_need_a_shader_say_so() {
    for layout in [
        StereoLayout::Mono,
        StereoLayout::OverUnder,
        StereoLayout::SideBySide,
    ] {
        assert!(layout.is_windowed(), "{layout:?}");
    }
    for layout in [StereoLayout::Anaglyph, StereoLayout::RowInterleaved] {
        assert!(!layout.is_windowed(), "{layout:?}");
        // Both eyes see the whole frame; the difference is per pixel.
        for eye in [Eye::Left, Eye::Right] {
            assert_eq!(halves(uv_window(layout, eye)), [1.0, 0.0, 1.0, 0.0]);
        }
    }
    assert_eq!(StereoLayout::from_raw(3), StereoLayout::Anaglyph);
    assert_eq!(StereoLayout::from_raw(4), StereoLayout::RowInterleaved);
}

#[test]
fn each_anaglyph_filter_takes_the_channels_the_other_leaves() {
    // The two eyes must not share a channel — that is the whole mechanism —
    // and each eye's weights must sum to one, or one eye comes out darker
    // than the other and the pair is unfusable.
    for pair in [
        AnaglyphPair::RedCyan,
        AnaglyphPair::GreenMagenta,
        AnaglyphPair::YellowBlue,
    ] {
        let left = halves(anaglyph_mix(pair, Eye::Left));
        let right = halves(anaglyph_mix(pair, Eye::Right));
        assert!(
            (left.iter().sum::<f32>() - 1.0).abs() < 1e-6,
            "{pair:?} left"
        );
        assert!(
            (right.iter().sum::<f32>() - 1.0).abs() < 1e-6,
            "{pair:?} right"
        );
        for channel in 0..3 {
            assert!(
                left[channel] == 0.0 || right[channel] == 0.0,
                "{pair:?} shares channel {channel}",
            );
        }
        // And between them they use all of it, or part of the picture is
        // being thrown away.
        for channel in 0..3 {
            assert!(
                left[channel] + right[channel] > 0.0,
                "{pair:?} drops {channel}"
            );
        }
        // The name is a claim about which eye is where, and it is the claim
        // that was wrong first time round: the left eye lives in the
        // channel the pair is named after.
        let named_channel = match pair {
            AnaglyphPair::RedCyan => 0,
            AnaglyphPair::GreenMagenta => 1,
            AnaglyphPair::YellowBlue => 0,
        };
        assert!(
            left[named_channel] > 0.0,
            "{pair:?}: the left eye is not in the channel the name gives it",
        );
    }
}

#[test]
fn raw_numbers_name_what_they_name() {
    let layouts = [
        StereoLayout::Mono,
        StereoLayout::OverUnder,
        StereoLayout::SideBySide,
        StereoLayout::Anaglyph,
        StereoLayout::RowInterleaved,
    ];
    for (raw, layout) in layouts.iter().enumerate() {
        assert_eq!(StereoLayout::from_raw(raw as u32), *layout);
    }
    assert_eq!(StereoLayout::from_raw(5), StereoLayout::Mono);
    assert_eq!(AnaglyphPair::from_raw(1), AnaglyphPair::GreenMagenta);
    assert_eq!(AnaglyphPair::from_raw(2), AnaglyphPair::YellowBlue);
    assert_eq!(AnaglyphPair::from_raw(9), AnaglyphPair::RedCyan);
    let projections = [
        (Projection::Equirect360, true),
        (Projection::Equirect180, true),
        (Projection::Flat, false),
        (Projection::Cubemap, true),
    ];
    for (raw, (projection, panoramic)) in projections.iter().enumerate() {
        assert_eq!(Projection::from_raw(raw as u32), *projection);
        assert_eq!(projection.is_panoramic(), *panoramic);
    }
}

/// Every triangle of a sphere is half of one cell, wound towards the centre, and no cell is missing.
#[test]
fn a_small_sphere_is_the_triangles_it_should_be() {
    let mut idx = vec![0u16; index_count(2, 3)];
    let n = sphere_indices_bounded(2, 3, bounds(0.1, 0.1, 0.0, 0.0), &mut idx).unwrap();
    assert_eq!(n, 36);
    let stride = 4u16;
    for (cell, six) in idx.chunks(6).enumerate() {
        let a = (cell as u16 / 3) * stride + cell as u16 % 3;
        let corners = [a, a + 1, a + stride, a + stride + 1];
        assert!(six.iter().all(|i| corners.contains(i)), "cell {cell}: {six:?}");
        assert!(corners.iter().all(|c| six.contains(c)), "cell {cell}: {six:?}");
    }
}

#[test]
fn a_spheres_vertices_run_from_the_top_down() {
    let mut k = 0;
    for ring in 0..=RINGS {
        for sector in 0..=SECTORS {
            assert_eq!(sphere_place(k, SECTORS), SpherePlace { ring, sector });
            k += 1;
        }
    }
    assert_eq!(k as usize, vertex_count(RINGS, SECTORS));
}

#[test]
fn a_cubes_vertices_run_face_by_face() {
    for cells in [1u32, 2, 7] {
        let mut k = 0;
        for face in 0..6 {
            for y in 0..=cells {
                for x in 0..=cells {
                    assert_eq!(cube_place(k, cells), CubePlace { face, x, y });
                    k += 1;
                }
            }
        }
        assert_eq!(k as usize, cubemap_vertex_count(cells));
    }
}

#[test]
fn a_screens_vertices_are_one_strip() {
    let segments = 24;
    let mut k = 0;
    for column in 0..=segments {
        for upper in [true, false] {
            assert_eq!(screen_place(k), ScreenPlace { column, upper });
            k += 1;
        }
    }
    assert_eq!(k, screen_vertex_count(segments as u32));
    // Counter-clockwise from in front, every other triangle with its first two corners exchanged.
    let at = |k: usize| {
        let p = screen_place(k);
        (p.column as i64, p.upper as i64)
    };
    for t in 0..k - 2 {
        let (a, b) = if t % 2 == 0 { (t, t + 1) } else { (t + 1, t) };
        let (a, b, c) = (at(a), at(b), at(t + 2));
        assert_eq!((b.0 - a.0) * (c.1 - a.1) - (b.1 - a.1) * (c.0 - a.0), 1);
    }
}
