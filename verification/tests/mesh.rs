//! Projection meshes as files carry them.

use viture_v2::mesh::{
    bit_width, parse_mesh, parse_meshes, parse_mshp, parse_projection, zigzag, BitReader,
    MAX_COORDINATES, MAX_INFLATED_BYTES, MAX_TRIANGLE_INDICES, MAX_VERTICES, TRIANGLES,
    TRIANGLE_FAN, TRIANGLE_STRIP, TYPE_DFL8, TYPE_MESH, TYPE_MSHP, TYPE_PROJ, TYPE_RAW, TYPE_YTMP,
};

/// Vertex components are carried as bit patterns.
fn floats(bits: &[u32]) -> Vec<f32> {
    bits.iter().map(|&b| f32::from_bits(b)).collect()
}

/// Builds a box: big-endian size, FourCC, payload.
fn boxed(kind: &[u8; 4], payload: &[u8]) -> Vec<u8> {
    let mut out = ((payload.len() + 8) as u32).to_be_bytes().to_vec();
    out.extend_from_slice(kind);
    out.extend_from_slice(payload);
    out
}

/// Most-significant-bit-first writer, the inverse of [`BitReader`].
#[derive(Default)]
struct BitWriter {
    bytes: Vec<u8>,
    bit: usize,
}

impl BitWriter {
    fn write(&mut self, value: u32, count: u32) {
        for i in (0..count).rev() {
            if self.bit % 8 == 0 {
                self.bytes.push(0);
            }
            let set = (value >> i) & 1 == 1;
            if set {
                let last = self.bytes.len() - 1;
                self.bytes[last] |= 1 << (7 - (self.bit % 8));
            }
            self.bit += 1;
        }
    }

    fn align(&mut self) {
        while self.bit % 8 != 0 {
            self.write(0, 1);
        }
    }
}

fn zigzag_encode(v: i32) -> u32 {
    ((v << 1) ^ (v >> 31)) as u32
}

/// A mesh with the given coordinate pool, vertices as five indices each, and
/// one sub-mesh listing `indices` into those vertices.
fn build_mesh(
    coordinates: &[f32],
    vertices: &[[u32; 5]],
    mode: u8,
    indices: &[u32],
) -> Vec<u8> {
    let mut payload = (coordinates.len() as u32).to_be_bytes().to_vec();
    for c in coordinates {
        payload.extend_from_slice(&c.to_bits().to_be_bytes());
    }
    payload.extend_from_slice(&(vertices.len() as u32).to_be_bytes());

    let coordinate_bits = bit_width(coordinates.len() as u32);
    let mut bits = BitWriter::default();
    let mut previous = [0i32; 5];
    for vertex in vertices {
        for (field, &index) in vertex.iter().enumerate() {
            bits.write(
                zigzag_encode(index as i32 - previous[field]),
                coordinate_bits,
            );
            previous[field] = index as i32;
        }
    }
    bits.align();
    bits.write(1, 32); // one sub-mesh
    bits.write(7, 8); // texture id, deliberately not zero
    bits.write(mode as u32, 8);
    bits.write(indices.len() as u32, 32);
    let vertex_bits = bit_width(vertices.len() as u32);
    let mut running = 0i32;
    for &index in indices {
        bits.write(zigzag_encode(index as i32 - running), vertex_bits);
        running = index as i32;
    }
    payload.extend_from_slice(&bits.bytes);
    boxed(b"mesh", &payload)
}

fn build_proj(mesh_boxes: &[Vec<u8>], deflate: bool) -> Vec<u8> {
    let mut meshes = Vec::new();
    for m in mesh_boxes {
        meshes.extend_from_slice(m);
    }
    let mut mshp = vec![0u8]; // version
    mshp.extend_from_slice(&[0; 7]); // flags + crc
    if deflate {
        mshp.extend_from_slice(b"dfl8");
        mshp.extend_from_slice(&miniz_oxide::deflate::compress_to_vec(&meshes, 6));
    } else {
        mshp.extend_from_slice(b"raw ");
        mshp.extend_from_slice(&meshes);
    }
    boxed(b"proj", &boxed(b"mshp", &mshp))
}

/// Two triangles' worth of a quad, as the file would store it.
fn sample() -> (Vec<f32>, Vec<[u32; 5]>, Vec<u32>) {
    // Coordinate pool: positions and texture coordinates share it.
    let coordinates = vec![-1.0f32, 1.0, 0.0, 0.5, -0.5];
    let vertices = vec![
        [0, 1, 2, 3, 4], // (-1,  1, 0) uv (0.5, -0.5)
        [1, 1, 2, 4, 3],
        [1, 0, 2, 3, 3],
    ];
    let indices = vec![0u32, 1, 2];
    (coordinates, vertices, indices)
}

#[test]
fn parses_a_raw_mesh() {
    let (coordinates, vertices, indices) = sample();
    let data = build_proj(
        &[build_mesh(
            &coordinates,
            &vertices,
            TRIANGLES,
            &indices,
        )],
        false,
    );
    let projection = parse_projection(&data).expect("raw mesh should parse");
    assert_eq!(projection.meshes.len(), 1);
    assert!(projection.single_mesh());

    let sub = &projection.meshes[0].submeshes[0];
    assert_eq!(sub.texture_id, 7);
    assert_eq!(sub.mode, TRIANGLES);
    assert_eq!(sub.vertex_count(), 3);
    // First vertex resolves its five indices through the coordinate pool.
    assert_eq!(floats(&sub.vertices[..5]), [-1.0, 1.0, 0.0, 0.5, -0.5]);
    // Third: indices [1, 0, 2, 3, 3].
    assert_eq!(floats(&sub.vertices[10..15]), [1.0, -1.0, 0.0, 0.5, 0.5]);
}

#[test]
fn parses_a_deflated_mesh() {
    // Real files are deflated; the raw path mostly exists for tests like the
    // one above.
    let (coordinates, vertices, indices) = sample();
    let data = build_proj(
        &[build_mesh(
            &coordinates,
            &vertices,
            TRIANGLE_STRIP,
            &indices,
        )],
        true,
    );
    let projection = parse_projection(&data).expect("deflated mesh should parse");
    let sub = &projection.meshes[0].submeshes[0];
    assert_eq!(sub.mode, TRIANGLE_STRIP);
    assert_eq!(sub.vertex_count(), 3);
}

#[test]
fn two_meshes_mean_one_per_eye() {
    let (coordinates, vertices, indices) = sample();
    let one = build_mesh(&coordinates, &vertices, TRIANGLES, &indices);
    let data = build_proj(&[one.clone(), one], false);
    let projection = parse_projection(&data).unwrap();
    assert_eq!(projection.meshes.len(), 2);
    assert!(!projection.single_mesh(), "two meshes are not shared");
}

#[test]
fn rejects_a_box_that_is_not_proj() {
    let data = boxed(b"equi", &[0; 16]);
    assert!(parse_projection(&data).is_none());
}

#[test]
fn rejects_a_truncated_mesh() {
    let (coordinates, vertices, indices) = sample();
    let data = build_proj(
        &[build_mesh(
            &coordinates,
            &vertices,
            TRIANGLES,
            &indices,
        )],
        false,
    );
    // Every prefix must fail cleanly. Half a projection renders as a torn
    // hole in the world, so there is no partial success to fall back on.
    for cut in 1..data.len() {
        let _ = parse_projection(&data[..cut]);
    }
    assert!(parse_projection(&data[..data.len() - 4]).is_none());
}

#[test]
fn rejects_absurd_counts() {
    // A coordinate count larger than any real mesh must be refused before it
    // becomes an allocation.
    let mut payload = (MAX_COORDINATES + 1).to_be_bytes().to_vec();
    payload.extend_from_slice(&[0; 16]);
    let data = build_proj(&[boxed(b"mesh", &payload)], false);
    assert!(parse_projection(&data).is_none());
}

#[test]
fn zigzag_round_trips() {
    for v in [-5000i32, -2, -1, 0, 1, 2, 5000] {
        assert_eq!(zigzag(zigzag_encode(v)), v, "value {v}");
    }
}

#[test]
fn bit_width_leaves_room_for_the_sign() {
    // The width has to hold a zigzagged delta, which is why the count is
    // doubled before the logarithm.
    assert_eq!(bit_width(1), 1);
    assert_eq!(bit_width(2), 2);
    assert_eq!(bit_width(3), 3);
    assert_eq!(bit_width(4), 3);
    assert_eq!(bit_width(5), 4);
}

#[test]
fn the_bit_reader_is_most_significant_first() {
    let mut writer = BitWriter::default();
    writer.write(0b101, 3);
    writer.write(0b1100, 4);
    let mut reader = BitReader::new(&writer.bytes, 0);
    assert_eq!(reader.read(3), Some(0b101));
    assert_eq!(reader.read(4), Some(0b1100));
}

#[test]
fn the_box_names_are_what_they_spell() {
    let spelled = |name: &[u8; 4]| u32::from_be_bytes(*name);
    assert_eq!(TYPE_PROJ, spelled(b"proj"));
    assert_eq!(TYPE_MSHP, spelled(b"mshp"));
    assert_eq!(TYPE_YTMP, spelled(b"ytmp"));
    assert_eq!(TYPE_MESH, spelled(b"mesh"));
    assert_eq!(TYPE_RAW, spelled(b"raw "));
    assert_eq!(TYPE_DFL8, spelled(b"dfl8"));
    assert_eq!(MAX_INFLATED_BYTES, 16 * 1024 * 1024);
}

#[test]
fn a_reader_runs_out_and_stays_there() {
    let data = [0b1010_0000u8, 0xFF];
    let mut reader = BitReader::new(&data, 0);
    assert_eq!(reader.read(0), Some(0));
    assert_eq!(reader.read(3), Some(0b101));
    reader.align_to_byte();
    assert_eq!(reader.read(4), Some(0xF));
    assert_eq!(reader.read(5), None);
    assert_eq!(reader.read(1), None);
    // Aligning a reader that is aligned does nothing.
    let mut reader = BitReader::new(&data, 1);
    reader.align_to_byte();
    assert_eq!(reader.read(8), Some(0xFF));
    // A reader past the end has nothing to give.
    assert_eq!(BitReader::new(&data, 9).read(1), None);
    // All thirty-two bits at once, across byte boundaries.
    let data = [0x01, 0x23, 0x45, 0x67, 0x89];
    let mut reader = BitReader::new(&data, 0);
    reader.read(4);
    assert_eq!(reader.read(32), Some(0x1234_5678));
}

#[test]
fn widths_and_zigzags_at_their_ends() {
    assert_eq!(bit_width(0), 0);
    assert_eq!(bit_width(1 << 30), 31);
    assert_eq!(bit_width(u32::MAX), 33);
    for (n, v) in [(0u32, 0i32), (1, -1), (2, 1), (3, -2), (4, 2)] {
        assert_eq!(zigzag(n), v);
    }
    assert_eq!(zigzag(u32::MAX), i32::MIN);
    assert_eq!(zigzag(u32::MAX - 1), i32::MAX);
    // Every step between two of `count` places fits the width.
    for count in 1..70u32 {
        for from in 0..count as i32 {
            for to in 0..count as i32 {
                let room = 1u64 << bit_width(count);
                assert!((zigzag_encode(to - from) as u64) < room, "{count}: {from} to {to}");
            }
        }
    }
}

/// Deflating changes nothing about the world that comes out.
#[test]
fn a_deflated_projection_is_the_raw_one() {
    let (coordinates, vertices, indices) = sample();
    let mesh = build_mesh(&coordinates, &vertices, TRIANGLE_FAN, &indices);
    let raw = parse_projection(&build_proj(&[mesh.clone()], false)).unwrap();
    let deflated = parse_projection(&build_proj(&[mesh], true)).unwrap();
    let (a, b) = (&raw.meshes[0].submeshes[0], &deflated.meshes[0].submeshes[0]);
    assert_eq!(a.vertices, b.vertices);
    assert_eq!((a.mode, a.texture_id), (b.mode, b.texture_id));
    assert_eq!(floats(&b.vertices[5..10]), [1.0, 1.0, 0.0, -0.5, 0.5]);
}

#[test]
fn what_does_not_inflate_is_no_projection() {
    let mut mshp = vec![0u8; 8];
    mshp.extend_from_slice(b"dfl8");
    mshp.extend_from_slice(&[0xFF; 20]);
    assert!(parse_mshp(&mshp).is_none());
    assert!(parse_mshp(&mshp[..12]).is_none());
    // A deflated payload that is longer than a mesh can be.
    let mut mshp = vec![0u8; 8];
    mshp.extend_from_slice(b"dfl8");
    let long = vec![0u8; MAX_INFLATED_BYTES + 1];
    mshp.extend_from_slice(&miniz_oxide::deflate::compress_to_vec(&long, 6));
    assert!(parse_mshp(&mshp).is_none());
}

#[test]
fn an_encoding_nobody_knows_is_refused() {
    let (coordinates, vertices, indices) = sample();
    let mesh = build_mesh(&coordinates, &vertices, TRIANGLES, &indices);
    let with = |version: u8, encoding: &[u8; 4]| {
        let mut mshp = vec![version, 0, 0, 0, 0, 0, 0, 0];
        mshp.extend_from_slice(encoding);
        mshp.extend_from_slice(&mesh);
        parse_mshp(&mshp).is_some()
    };
    assert!(with(0, b"raw "));
    assert!(!with(1, b"raw "));
    assert!(!with(0, b"lzma"));
}

#[test]
fn an_older_mesh_box_is_read_too() {
    let (coordinates, vertices, indices) = sample();
    let mesh = build_mesh(&coordinates, &vertices, TRIANGLES, &indices);
    let mut inner = vec![0u8; 8];
    inner.extend_from_slice(b"raw ");
    inner.extend_from_slice(&mesh);
    for name in [b"mshp", b"ytmp"] {
        let data = boxed(b"proj", &boxed(name, &inner));
        assert_eq!(parse_projection(&data).unwrap().meshes.len(), 1);
    }
    assert!(parse_projection(&boxed(b"proj", &boxed(b"equi", &inner))).is_none());
}

#[test]
fn an_index_that_leaves_the_pool_is_refused() {
    let (coordinates, vertices, indices) = sample();
    let good = build_mesh(&coordinates, &vertices, TRIANGLES, &indices);
    assert!(parse_mesh(&good[8..]).is_some());
    let bad_vertices = vec![[0, 1, 2, 3, 5]];
    let bad = build_mesh(&coordinates, &bad_vertices, TRIANGLES, &[0]);
    assert!(parse_mesh(&bad[8..]).is_none(), "a coordinate that is not there");
    let bad = build_mesh(&coordinates, &vertices, TRIANGLES, &[3]);
    assert!(parse_mesh(&bad[8..]).is_none(), "a vertex that is not there");
}

#[test]
fn counts_are_limited_before_anything_is_read() {
    let counts = |coordinates: u32, vertices: u32| {
        let mut data = coordinates.to_be_bytes().to_vec();
        for _ in 0..coordinates.min(MAX_COORDINATES) {
            data.extend_from_slice(&[0; 4]);
        }
        data.extend_from_slice(&vertices.to_be_bytes());
        data.extend_from_slice(&[0; 64]);
        data
    };
    assert!(parse_mesh(&counts(1, MAX_VERTICES + 1)).is_none());
    assert!(parse_mesh(&counts(MAX_COORDINATES + 1, 1)).is_none());
    assert_eq!((MAX_COORDINATES, MAX_VERTICES, MAX_TRIANGLE_INDICES), (10_000, 32_000, 128_000));
}

#[test]
fn runs_are_found_by_their_numbers() {
    let (coordinates, vertices, indices) = sample();
    let one = build_mesh(&coordinates, &vertices, TRIANGLES, &indices);
    let two = build_mesh(&coordinates, &vertices, TRIANGLE_STRIP, &indices);
    let data = build_proj(&[one, two], true);
    let projection = parse_projection(&data).unwrap();
    assert_eq!((projection.run_count(0), projection.run_count(1)), (1, 1));
    assert_eq!((projection.run_count(-5), projection.run_count(2)), (1, 0));
    assert_eq!(projection.run(0, 0).unwrap().mode, TRIANGLES);
    assert_eq!(projection.run(1, -1).unwrap().mode, TRIANGLE_STRIP);
    assert!(projection.run(0, 1).is_none());
    assert!(projection.run(2, 0).is_none());
}

#[test]
fn boxes_that_are_no_meshes_are_passed_over() {
    let (coordinates, vertices, indices) = sample();
    let mesh = build_mesh(&coordinates, &vertices, TRIANGLES, &indices);
    let mut data = boxed(b"free", &[1, 2, 3]);
    data.extend_from_slice(&mesh);
    assert_eq!(parse_meshes(&data).unwrap().len(), 1);
    assert!(parse_projection(&build_proj(&[], false)).is_none(), "no mesh at all");
}
