//! Mesh projections: the geometry a spherical video carries inside itself.
//!
//! Most 360° footage is equirectangular, and a sphere renders it. Fisheye rigs ship the mapping
//! as a triangle mesh instead, in an `sv3d`/`proj`/`mshp` box, as Google's Spherical Video V2
//! metadata defines it. A `mesh` box holds a pool of coordinates, then a vertex list that indexes
//! into it five values at a time (x, y, z, u, v), then one or more sub-meshes that index into
//! *those*. Both index lists are bit-packed to the width the counts need, zigzagged, and stored
//! as deltas. The whole payload may be raw or deflated.
//!
//! Coordinates are carried as the bit patterns of single-precision numbers.
use crate::text;
use vstd::arithmetic::power2::*;
use vstd::prelude::*;

verus! {

/// The 32-bit value of the four bytes at `at`, most significant first.
pub open spec fn be32_at(s: Seq<u8>, at: int) -> u32 {
    (0x100_0000 * s[at] + 0x1_0000 * s[at + 1] + 0x100 * s[at + 2] + s[at + 3]) as u32
}

fn read_be32(data: &[u8], at: usize) -> (v: u32)
    requires
        at + 4 <= data@.len(),
    ensures
        v == be32_at(data@, at as int),
{
    0x100_0000 * (data[at] as u32) + 0x1_0000 * (data[at + 1] as u32) + 0x100 * (data[at + 2] as u32)
        + data[at + 3] as u32
}

/// Bit number `i` of the data, counted from the most significant bit of the first byte.
pub open spec fn bit_at(data: Seq<u8>, i: int) -> nat {
    ((data[i / 8] >> ((7 - i % 8) as u8)) & 1) as nat
}

/// The number that `count` bits from bit `at` on write, most significant bit first.
pub open spec fn bits_value(data: Seq<u8>, at: int, count: nat) -> nat
    decreases count,
{
    if count == 0 {
        0
    } else {
        2 * bits_value(data, at, (count - 1) as nat) + bit_at(data, at + count - 1)
    }
}

/// A number of `count` bits stays below the power of two that needs one bit more.
pub proof fn bits_value_fits(data: Seq<u8>, at: int, count: nat)
    ensures
        bits_value(data, at, count) < pow2(count),
    decreases count,
{
    if count == 0 {
        lemma2_to64();
    } else {
        bits_value_fits(data, at, (count - 1) as nat);
        lemma_pow2_unfold(count);
        let i = at + count - 1;
        let byte = data[i / 8];
        let shift = (7 - i % 8) as u8;
        assert((byte >> shift) & 1 <= 1) by (bit_vector);
    }
}

/// The least number of bits that can tell `n` values apart.
pub open spec fn ceil_log2(n: nat) -> nat
    decreases n,
{
    if n <= 1 {
        0
    } else {
        1 + ceil_log2((n + 1) / 2)
    }
}

/// `ceil_log2` is the least exponent whose power of two reaches `n`.
pub proof fn ceil_log2_is_least(n: nat)
    ensures
        n <= pow2(ceil_log2(n)),
        n > 1 ==> pow2((ceil_log2(n) - 1) as nat) < n,
    decreases n,
{
    lemma2_to64();
    if n > 1 {
        let half = (n + 1) / 2;
        ceil_log2_is_least(half);
        lemma_pow2_unfold(ceil_log2(n));
        if half > 1 {
            lemma_pow2_unfold((ceil_log2(n) - 1) as nat);
        }
    }
}

/// Bits needed to index a pool of `count`, with room for a signed delta.
pub fn bit_width(count: u32) -> (width: u32)
    ensures
        width == ceil_log2(2 * count as nat),
        width <= 33,
{
    let mut left: u64 = 2 * count as u64;
    let mut width: u32 = 0;
    let ghost mut bound: nat = 0x2_0000_0000;
    proof {
        lemma2_to64();
        lemma_pow2_unfold(33);
    }
    while left > 1
        invariant
            left <= bound,
            bound == pow2((33 - width) as nat),
            width <= 33,
            width + ceil_log2(left as nat) == ceil_log2(2 * count as nat),
        decreases left,
    {
        proof {
            lemma2_to64();
            lemma_pow2_unfold((33 - width) as nat);
            bound = bound / 2;
        }
        left = (left + 1) / 2;
        width += 1;
    }
    width
}

/// The signed number that a zigzagged one stands for: small negatives stay small.
pub open spec fn zigzag_value(n: nat) -> int {
    if n % 2 == 0 {
        (n / 2) as int
    } else {
        -((n / 2) as int) - 1
    }
}

/// The zigzagged form of a signed number.
pub open spec fn zigzag_encoded(v: int) -> nat {
    if v >= 0 {
        (2 * v) as nat
    } else {
        (-2 * v - 1) as nat
    }
}

/// Undoes zigzag encoding, which maps signed values onto unsigned ones so that small negatives
/// stay small.
pub fn zigzag(n: u32) -> (v: i32)
    ensures
        v == zigzag_value(n as nat),
{
    if n % 2 == 0 {
        (n / 2) as i32
    } else {
        -((n / 2) as i32) - 1
    }
}

/// Zigzag encoding loses nothing, in either direction.
pub proof fn zigzag_reads_back(v: int, n: nat)
    ensures
        zigzag_value(zigzag_encoded(v)) == v,
        zigzag_encoded(zigzag_value(n)) == n,
{
}

/// The width of a pool's indices has room for the step from any index of the pool to any other.
pub proof fn the_width_has_room_for_every_step(count: u32, from: int, to: int)
    requires
        0 <= from < count,
        0 <= to < count,
    ensures
        zigzag_encoded(to - from) < pow2(ceil_log2(2 * count as nat)),
{
    ceil_log2_is_least(2 * count as nat);
}

/// Most-significant-bit-first bit reader, matching the format's packing.
pub struct BitReader<'a> {
    data: &'a [u8],
    byte: usize,
    offset: u8,
}

impl<'a> BitReader<'a> {
    /// The data that is read.
    pub closed spec fn bytes(&self) -> Seq<u8> {
        self.data@
    }

    /// The bit that is read next.
    pub closed spec fn position(&self) -> int {
        8 * self.byte + self.offset
    }

    /// What holds of every reader.
    pub closed spec fn wf(&self) -> bool {
        self.offset < 8
    }

    /// A reader that starts at a byte.
    pub fn new(data: &'a [u8], byte_offset: usize) -> (r: BitReader<'a>)
        ensures
            r.wf(),
            r.bytes() == data@,
            r.position() == 8 * byte_offset,
    {
        BitReader { data, byte: byte_offset, offset: 0 }
    }

    /// Reads up to 32 bits. `None` once the data runs out, and all that was left is consumed.
    pub fn read(&mut self, count: u32) -> (r: Option<u32>)
        requires
            old(self).wf(),
            count <= 32,
        ensures
            final(self).wf(),
            final(self).bytes() == old(self).bytes(),
            ({
                let at = old(self).position();
                let size = 8 * old(self).bytes().len();
                if count == 0 || at + count <= size {
                    &&& r matches Some(v) && v == bits_value(old(self).bytes(), at, count as nat)
                    &&& final(self).position() == at + count
                } else {
                    &&& r is None
                    &&& final(self).position() == (if at < size {
                        size as int
                    } else {
                        at
                    })
                }
            }),
    {
        let mut value: u32 = 0;
        let mut done: u32 = 0;
        while done < count
            invariant
                self.wf(),
                self.bytes() == old(self).bytes(),
                done <= count <= 32,
                self.position() == old(self).position() + done,
                done == 0 || self.position() <= 8 * self.bytes().len(),
                value == bits_value(self.bytes(), old(self).position(), done as nat),
            decreases count - done,
        {
            if self.byte >= self.data.len() {
                return None;
            }
            let byte: u8 = self.data[self.byte];
            let shift: u8 = 7 - self.offset;
            let bit: u8 = (byte >> shift) & 1;
            proof {
                let at = self.position();
                assert(at / 8 == self.byte && at % 8 == self.offset);
                assert((byte >> shift) & 1 <= 1) by (bit_vector);
                bits_value_fits(self.bytes(), old(self).position(), done as nat);
                lemma2_to64();
                if done < 31 {
                    lemma_pow2_strictly_increases(done as nat, 31);
                }
            }
            value = 2 * value + bit as u32;
            if self.offset == 7 {
                self.byte += 1;
                self.offset = 0;
            } else {
                self.offset += 1;
            }
            done += 1;
        }
        Some(value)
    }

    /// Skips to the next byte boundary.
    pub fn align_to_byte(&mut self)
        requires
            old(self).wf(),
            old(self).position() <= 8 * old(self).bytes().len(),
        ensures
            final(self).wf(),
            final(self).bytes() == old(self).bytes(),
            final(self).position() == (old(self).position() + 7) / 8 * 8,
    {
        if self.offset > 0 {
            assert(self.byte < self.data.len());
            self.byte += 1;
            self.offset = 0;
        }
    }
}

/// Floats of one vertex: `[x, y, z, u, v]`.
pub const VERTEX_FLOATS: usize = 5;

/// Bounds on a file's own numbers, so a corrupt one cannot ask for an arbitrary allocation.
pub const MAX_COORDINATES: u32 = 10_000;

/// See [`MAX_COORDINATES`].
pub const MAX_VERTICES: u32 = 32_000;

/// See [`MAX_COORDINATES`].
pub const MAX_TRIANGLE_INDICES: u32 = 128_000;

/// Ceiling on the inflated size of a deflated mesh, so a small box cannot expand into an
/// arbitrarily large allocation.
pub const MAX_INFLATED_BYTES: usize = 0x100_0000;

/// Triangle layouts of a sub-mesh, as the file numbers them.
pub const TRIANGLES: u8 = 0;

/// See [`TRIANGLES`].
pub const TRIANGLE_STRIP: u8 = 1;

/// See [`TRIANGLES`].
pub const TRIANGLE_FAN: u8 = 2;

/// One drawable run: interleaved `[x, y, z, u, v]` vertices, ready to upload.
pub struct SubMesh {
    pub texture_id: u8,
    pub mode: u8,
    /// Five bit patterns per vertex.
    pub vertices: Vec<u32>,
}

/// A drawable run, as a value.
pub struct Run {
    pub texture_id: u8,
    pub mode: u8,
    pub vertices: Seq<u32>,
}

impl View for SubMesh {
    type V = Run;

    open spec fn view(&self) -> Run {
        Run { texture_id: self.texture_id, mode: self.mode, vertices: self.vertices@ }
    }
}

impl SubMesh {
    /// How many vertices the run has.
    pub fn vertex_count(&self) -> (n: usize)
        ensures
            n == self@.vertices.len() / 5,
    {
        self.vertices.len() / VERTEX_FLOATS
    }
}

/// Everything one eye draws.
pub struct Mesh {
    pub submeshes: Vec<SubMesh>,
}

/// The runs of some sub-meshes.
pub open spec fn runs(submeshes: Seq<SubMesh>) -> Seq<Run> {
    submeshes.map_values(|s: SubMesh| s@)
}

impl View for Mesh {
    type V = Seq<Run>;

    open spec fn view(&self) -> Seq<Run> {
        runs(self.submeshes@)
    }
}

/// Number `t` of a chain of deltas of `width` bits from bit `at` on: it adds its delta to number
/// `t - stride`, and the first `stride` numbers are their deltas.
pub open spec fn chained(data: Seq<u8>, at: int, width: nat, stride: int, t: int) -> int
    decreases t,
{
    (if 0 < stride <= t {
        chained(data, at, width, stride, t - stride)
    } else {
        0
    }) + zigzag_value(bits_value(data, at + width * t, width))
}

/// What number `t` of a chain of deltas adds its delta to.
pub open spec fn carried(data: Seq<u8>, at: int, width: nat, stride: int, t: int) -> int {
    if 0 < stride <= t {
        chained(data, at, width, stride, t - stride)
    } else {
        0
    }
}

/// Whether a chain of `n` deltas lies within the data and all its numbers index a pool of
/// `count`.
pub open spec fn chain_fits(
    data: Seq<u8>,
    at: int,
    width: nat,
    stride: int,
    n: int,
    count: int,
) -> bool {
    &&& at + width * n <= 8 * data.len()
    &&& forall|t: int| 0 <= t < n ==> 0 <= #[trigger] chained(data, at, width, stride, t) < count
}

/// The run that starts at bit `at`, over a pool of vertices of five values each, and the bit
/// after it.
pub open spec fn run_at(data: Seq<u8>, at: int, pool: Seq<u32>) -> Option<(Run, int)> {
    let count = pool.len() as int / 5;
    let width = ceil_log2((2 * count) as nat);
    let n = bits_value(data, at + 16, 32);
    if at + 48 > 8 * data.len() || n == 0 || n > MAX_TRIANGLE_INDICES || !chain_fits(
        data,
        at + 48,
        width,
        1,
        n as int,
        count,
    ) {
        None
    } else {
        Some(
            (
                Run {
                    texture_id: bits_value(data, at, 8) as u8,
                    mode: bits_value(data, at + 8, 8) as u8,
                    vertices: Seq::new(
                        5 * n,
                        |i: int| pool[5 * chained(data, at + 48, width, 1, i / 5) + i % 5],
                    ),
                },
                at + 48 + width * n,
            ),
        )
    }
}

/// `n` runs from bit `at` on.
pub open spec fn runs_from(data: Seq<u8>, at: int, n: nat, pool: Seq<u32>) -> Option<Seq<Run>>
    decreases n,
{
    if n == 0 {
        Some(Seq::empty())
    } else {
        match run_at(data, at, pool) {
            None => None,
            Some((run, next)) => match runs_from(data, next, (n - 1) as nat, pool) {
                None => None,
                Some(rest) => Some(seq![run] + rest),
            },
        }
    }
}

/// The vertices of a mesh: each of the five fields of each vertex is an index into the pool of
/// coordinates, delta-coded against the previous vertex's value for the same field.
pub open spec fn vertices_of(data: Seq<u8>, count: int, vertex_count: int) -> Option<Seq<u32>> {
    let at = 8 * (8 + 4 * count);
    let width = ceil_log2((2 * count) as nat);
    if chain_fits(data, at, width, 5, 5 * vertex_count, count) {
        Some(
            Seq::new(
                (5 * vertex_count) as nat,
                |t: int| be32_at(data, 4 + 4 * chained(data, at, width, 5, t)),
            ),
        )
    } else {
        None
    }
}

/// The contents of a `mesh` box: the pool of coordinates, the vertices, and the runs over them.
pub open spec fn mesh_of(data: Seq<u8>) -> Option<Seq<Run>> {
    let count = be32_at(data, 0);
    let vertex_count = be32_at(data, 4 + 4 * count);
    let list = (8 * (8 + 4 * count) + ceil_log2(2 * count as nat) * (5 * vertex_count) + 7) / 8 * 8;
    let n = bits_value(data, list, 32);
    if data.len() < 4 || count == 0 || count > MAX_COORDINATES || data.len() < 8 + 4 * count
        || vertex_count == 0 || vertex_count > MAX_VERTICES {
        None
    } else {
        match vertices_of(data, count as int, vertex_count as int) {
            None => None,
            Some(pool) => if list + 32 > 8 * data.len() || n == 0 {
                None
            } else {
                runs_from(data, list + 32, n, pool)
            },
        }
    }
}

proof fn chain_step_fits(width: int, t: int, n: int)
    requires
        0 <= width,
        0 <= t < n,
    ensures
        width * t + width == width * (t + 1),
        width * (t + 1) <= width * n,
{
    assert(width * t + width == width * (t + 1) && width * (t + 1) <= width * n)
        by (nonlinear_arith)
        requires
            0 <= width,
            0 <= t < n,
    ;
}

/// Reads the vertices of a mesh through the pool of coordinates.
fn read_vertices(
    bits: &mut BitReader,
    coordinates: &Vec<u32>,
    vertex_count: u32,
    Ghost(data): Ghost<Seq<u8>>,
) -> (r: Option<Vec<u32>>)
    requires
        old(bits).wf(),
        old(bits).bytes() == data,
        0 < coordinates@.len() <= MAX_COORDINATES,
        0 < vertex_count <= MAX_VERTICES,
        old(bits).position() == 8 * (8 + 4 * coordinates@.len()),
        forall|i: int|
            0 <= i < coordinates@.len() ==> coordinates@[i] == be32_at(data, 4 + 4 * i),
    ensures
        final(bits).wf(),
        final(bits).bytes() == data,
        match r {
            Some(pool) => {
                &&& vertices_of(data, coordinates@.len() as int, vertex_count as int) == Some(pool@)
                &&& final(bits).position() == old(bits).position() + ceil_log2(
                    2 * coordinates@.len(),
                ) * (5 * vertex_count)
            },
            None => vertices_of(data, coordinates@.len() as int, vertex_count as int) is None,
        },
{
    let count: u32 = coordinates.len() as u32;
    let width: u32 = bit_width(count);
    let total: u32 = 5 * vertex_count;
    let ghost at = bits.position();
    let ghost w = width as nat;
    proof {
        ceil_log2_is_least(2 * count as nat);
        lemma2_to64();
        if width > 15 {
            if width > 16 {
                lemma_pow2_strictly_increases(15, (width - 1) as nat);
            }
        }
    }
    let mut pool: Vec<u32> = Vec::new();
    let mut running: [i64; 5] = [0; 5];
    let mut t: u32 = 0;
    let mut f: usize = 0;
    while t < total
        invariant
            bits.wf(),
            bits.bytes() == data,
            at == 8 * (8 + 4 * coordinates@.len()),
            bits.position() == at + w * t,
            0 < count == coordinates@.len() <= MAX_COORDINATES,
            0 < vertex_count <= MAX_VERTICES,
            total == 5 * vertex_count,
            w == width == ceil_log2(2 * count as nat),
            0 < width <= 15,
            t <= total,
            f == t % 5,
            forall|i: int|
                0 <= i < coordinates@.len() ==> coordinates@[i] == be32_at(data, 4 + 4 * i),
            at + w * t <= 8 * data.len() || t == 0,
            forall|i: int| 0 <= i < t ==> 0 <= #[trigger] chained(data, at, w, 5, i) < count,
            forall|g: int|
                #![trigger running@[g]]
                0 <= g < 5 ==> running@[g] == carried(
                    data,
                    at,
                    w,
                    5,
                    t + (if g >= f {
                        g - f
                    } else {
                        g - f + 5
                    }),
                ) && 0 <= running@[g] < count,
            pool@.len() == t,
            forall|i: int|
                0 <= i < t ==> #[trigger] pool@[i] == be32_at(
                    data,
                    4 + 4 * chained(data, at, w, 5, i),
                ),
        decreases total - t,
    {
        proof {
            chain_step_fits(w as int, t as int, total as int);
        }
        let delta: i64 = match bits.read(width) {
            Some(n) => zigzag(n) as i64,
            None => {
                assert(at + w * total > 8 * data.len());
                return None;
            },
        };
        let index: i64 = running[f] + delta;
        assert(index == chained(data, at, w, 5, t as int));
        if index < 0 || index >= count as i64 {
            return None;
        }
        pool.push(coordinates[index as usize]);
        running[f] = index;
        proof {
            assert(carried(data, at, w, 5, t + 5) == index);
        }
        t += 1;
        f = if f == 4 {
            0
        } else {
            f + 1
        };
    }
    proof {
        assert(pool@ =~= vertices_of(data, count as int, vertex_count as int)->Some_0);
    }
    Some(pool)
}

/// Reads one run over a pool of vertices.
fn read_run(bits: &mut BitReader, pool: &Vec<u32>, vertex_count: u32) -> (r: Option<SubMesh>)
    requires
        old(bits).wf(),
        0 < vertex_count <= MAX_VERTICES,
        pool@.len() == 5 * vertex_count,
    ensures
        final(bits).wf(),
        final(bits).bytes() == old(bits).bytes(),
        match r {
            Some(sub) => run_at(old(bits).bytes(), old(bits).position(), pool@) == Some(
                (sub@, final(bits).position()),
            ),
            None => run_at(old(bits).bytes(), old(bits).position(), pool@) is None,
        },
{
    let ghost data = bits.bytes();
    let ghost at = bits.position();
    let texture_id: u32 = match bits.read(8) {
        Some(v) => v,
        None => {
            return None;
        },
    };
    let mode: u32 = match bits.read(8) {
        Some(v) => v,
        None => {
            return None;
        },
    };
    let total: u32 = match bits.read(32) {
        Some(v) => v,
        None => {
            return None;
        },
    };
    if total == 0 || total > MAX_TRIANGLE_INDICES {
        return None;
    }
    let width: u32 = bit_width(vertex_count);
    let ghost w = width as nat;
    proof {
        ceil_log2_is_least(2 * vertex_count as nat);
        lemma2_to64();
        if width > 16 {
            lemma_pow2_strictly_increases(15, (width - 1) as nat);
            if width > 17 {
                lemma_pow2_strictly_increases(16, (width - 1) as nat);
            }
        }
        bits_value_fits(data, at, 8);
        bits_value_fits(data, at + 8, 8);
        assert(pool@.len() as int / 5 == vertex_count);
    }
    let mut vertices: Vec<u32> = Vec::new();
    let mut index: i64 = 0;
    let mut t: u32 = 0;
    while t < total
        invariant
            bits.wf(),
            bits.bytes() == data,
            data == old(bits).bytes(),
            at == old(bits).position(),
            total == bits_value(data, at + 16, 32),
            pool@.len() as int / 5 == vertex_count,
            bits.position() == at + 48 + w * t,
            0 < vertex_count <= MAX_VERTICES,
            pool@.len() == 5 * vertex_count,
            w == width == ceil_log2(2 * vertex_count as nat),
            0 < width <= 16,
            t <= total <= MAX_TRIANGLE_INDICES,
            at + 48 + w * t <= 8 * data.len(),
            0 <= index < vertex_count,
            index == carried(data, at + 48, w, 1, t as int),
            forall|i: int|
                0 <= i < t ==> 0 <= #[trigger] chained(data, at + 48, w, 1, i) < vertex_count,
            vertices@.len() == 5 * t,
            forall|i: int|
                0 <= i < 5 * t ==> #[trigger] vertices@[i] == pool@[5 * chained(
                    data,
                    at + 48,
                    w,
                    1,
                    i / 5,
                ) + i % 5],
        decreases total - t,
    {
        proof {
            chain_step_fits(w as int, t as int, total as int);
        }
        let delta: i64 = match bits.read(width) {
            Some(n) => zigzag(n) as i64,
            None => {
                return None;
            },
        };
        index = index + delta;
        assert(index == chained(data, at + 48, w, 1, t as int));
        if index < 0 || index >= vertex_count as i64 {
            return None;
        }
        let from: usize = 5 * (index as usize);
        let ghost before = vertices@;
        vertices.push(pool[from]);
        vertices.push(pool[from + 1]);
        vertices.push(pool[from + 2]);
        vertices.push(pool[from + 3]);
        vertices.push(pool[from + 4]);
        proof {
            assert forall|i: int| 0 <= i < 5 * (t + 1) implies #[trigger] vertices@[i] == pool@[5
                * chained(data, at + 48, w, 1, i / 5) + i % 5] by {
                if i < 5 * t {
                    assert(vertices@[i] == before[i]);
                } else {
                    assert(i / 5 == t);
                }
            }
        }
        t += 1;
    }
    let sub = SubMesh { texture_id: texture_id as u8, mode: mode as u8, vertices };
    proof {
        let run = run_at(data, at, pool@)->Some_0.0;
        assert(sub.vertices@ =~= run.vertices);
    }
    Some(sub)
}

/// Some runs that were read, then the ones that are still to come.
pub open spec fn runs_then(done: Seq<Run>, rest: Option<Seq<Run>>) -> Option<Seq<Run>> {
    match rest {
        Some(rest) => Some(done + rest),
        None => None,
    }
}

/// Parses the contents of a `mesh` box.
pub fn parse_mesh(data: &[u8]) -> (r: Option<Mesh>)
    ensures
        match r {
            Some(mesh) => mesh_of(data@) == Some(mesh@),
            None => mesh_of(data@) is None,
        },
{
    if data.len() < 4 {
        return None;
    }
    let count: u32 = read_be32(data, 0);
    if count == 0 || count > MAX_COORDINATES {
        return None;
    }
    if data.len() < 8 + 4 * count as usize {
        return None;
    }
    let mut coordinates: Vec<u32> = Vec::new();
    let mut i: u32 = 0;
    while i < count
        invariant
            i <= count <= MAX_COORDINATES,
            data@.len() >= 8 + 4 * count,
            coordinates@.len() == i,
            forall|k: int| 0 <= k < i ==> coordinates@[k] == be32_at(data@, 4 + 4 * k),
        decreases count - i,
    {
        coordinates.push(read_be32(data, 4 + 4 * i as usize));
        i += 1;
    }
    let vertex_count: u32 = read_be32(data, 4 + 4 * count as usize);
    if vertex_count == 0 || vertex_count > MAX_VERTICES {
        return None;
    }
    let mut bits = BitReader::new(data, 8 + 4 * count as usize);
    let pool = match read_vertices(&mut bits, &coordinates, vertex_count, Ghost(data@)) {
        Some(pool) => pool,
        None => {
            return None;
        },
    };
    bits.align_to_byte();
    let ghost list = bits.position();
    let total: u32 = match bits.read(32) {
        Some(v) => v,
        None => {
            return None;
        },
    };
    if total == 0 {
        return None;
    }
    let mut submeshes: Vec<SubMesh> = Vec::new();
    let mut done: u32 = 0;
    assert(runs(submeshes@) =~= Seq::<Run>::empty());
    assert(runs_then(runs(submeshes@), runs_from(data@, list + 32, total as nat, pool@))
        == runs_from(data@, list + 32, total as nat, pool@)) by {
        let all = runs_from(data@, list + 32, total as nat, pool@);
        if all is Some {
            assert(Seq::<Run>::empty() + all->Some_0 =~= all->Some_0);
        }
    }
    while done < total
        invariant
            bits.wf(),
            bits.bytes() == data@,
            0 < vertex_count <= MAX_VERTICES,
            pool@.len() == 5 * vertex_count,
            done <= total,
            mesh_of(data@) == runs_from(data@, list + 32, total as nat, pool@),
            runs_from(data@, list + 32, total as nat, pool@) == runs_then(
                runs(submeshes@),
                runs_from(data@, bits.position(), (total - done) as nat, pool@),
            ),
        decreases total - done,
    {
        let ghost at = bits.position();
        let ghost before = runs(submeshes@);
        match read_run(&mut bits, &pool, vertex_count) {
            Some(sub) => {
                submeshes.push(sub);
                proof {
                    assert(runs(submeshes@) =~= before.push(sub@));
                    let rest = runs_from(data@, bits.position(), (total - done - 1) as nat, pool@);
                    if rest is Some {
                        assert(before + (seq![sub@] + rest->Some_0) =~= before.push(sub@)
                            + rest->Some_0);
                    }
                }
            },
            None => {
                return None;
            },
        }
        done += 1;
    }
    proof {
        assert(runs(submeshes@) + Seq::<Run>::empty() =~= runs(submeshes@));
    }
    Some(Mesh { submeshes })
}

/// The meshes a `proj` box contains: one for monoscopic or a shared view, two when the file gives
/// each eye its own geometry.
pub struct Projection {
    pub meshes: Vec<Mesh>,
}

/// What some meshes draw.
pub open spec fn drawings(meshes: Seq<Mesh>) -> Seq<Seq<Run>> {
    meshes.map_values(|m: Mesh| m@)
}

impl View for Projection {
    type V = Seq<Seq<Run>>;

    open spec fn view(&self) -> Seq<Seq<Run>> {
        drawings(self.meshes@)
    }
}

impl Projection {
    /// Whether both eyes share one mesh, in which case the caller still has to split the frame by
    /// the stereo mode.
    pub fn single_mesh(&self) -> (b: bool)
        ensures
            b == (self@.len() == 1),
    {
        self.meshes.len() == 1
    }

    /// How many drawable runs one mesh has; none where there is no such mesh. A negative number
    /// stands for the first.
    pub fn run_count(&self, mesh: i32) -> (n: usize)
        ensures
            ({
                let m = at_least_zero(mesh);
                n == (if m < self@.len() {
                    self@[m].len()
                } else {
                    0
                })
            }),
    {
        let m: usize = if mesh < 0 {
            0
        } else {
            mesh as usize
        };
        if m < self.meshes.len() {
            self.meshes[m].submeshes.len()
        } else {
            0
        }
    }

    /// One drawable run of one mesh, where there is one. A negative number stands for the first.
    pub fn run(&self, mesh: i32, submesh: i32) -> (r: Option<&SubMesh>)
        ensures
            ({
                let m = at_least_zero(mesh);
                let s = at_least_zero(submesh);
                match r {
                    Some(run) => m < self@.len() && s < self@[m].len() && run@ == self@[m][s],
                    None => m >= self@.len() || s >= self@[m].len(),
                }
            }),
    {
        let m: usize = if mesh < 0 {
            0
        } else {
            mesh as usize
        };
        let s: usize = if submesh < 0 {
            0
        } else {
            submesh as usize
        };
        if m < self.meshes.len() && s < self.meshes[m].submeshes.len() {
            Some(&self.meshes[m].submeshes[s])
        } else {
            None
        }
    }
}

/// A number, or zero where it is negative.
pub open spec fn at_least_zero(n: i32) -> int {
    if n < 0 {
        0
    } else {
        n as int
    }
}

/// Box types, as big-endian FourCCs: `proj`.
pub const TYPE_PROJ: u32 = 0x7072_6f6a;

/// `mshp`.
pub const TYPE_MSHP: u32 = 0x6d73_6870;

/// `ytmp`.
pub const TYPE_YTMP: u32 = 0x7974_6d70;

/// `mesh`.
pub const TYPE_MESH: u32 = 0x6d65_7368;

/// `raw `.
pub const TYPE_RAW: u32 = 0x7261_7720;

/// `dfl8`.
pub const TYPE_DFL8: u32 = 0x6466_6c38;

/// Whether a whole box starts at `at`: its size covers its own header and stays in the data.
pub open spec fn is_box(data: Seq<u8>, at: int) -> bool {
    &&& at + 8 <= data.len()
    &&& 8 <= be32_at(data, at)
    &&& at + be32_at(data, at) <= data.len()
}

/// The type of the box at `at`.
pub open spec fn box_type(data: Seq<u8>, at: int) -> u32 {
    be32_at(data, at + 4)
}

/// Where the box at `at` ends.
pub open spec fn box_end(data: Seq<u8>, at: int) -> int {
    at + be32_at(data, at)
}

/// What the box at `at` holds behind its header.
pub open spec fn box_contents(data: Seq<u8>, at: int) -> Seq<u8> {
    data.subrange(at + 8, box_end(data, at))
}

/// The `mesh` boxes in a run of boxes that starts at `at`, in order. Fewer than eight bytes at the
/// end are no box.
pub open spec fn meshes_from(data: Seq<u8>, at: int) -> Option<Seq<Seq<Run>>>
    decreases data.len() - at,
{
    if at + 8 > data.len() {
        Some(Seq::empty())
    } else if !is_box(data, at) {
        None
    } else if box_type(data, at) != TYPE_MESH {
        meshes_from(data, box_end(data, at))
    } else {
        match (mesh_of(box_contents(data, at)), meshes_from(data, box_end(data, at))) {
            (Some(mesh), Some(rest)) => Some(seq![mesh] + rest),
            _ => None,
        }
    }
}

/// Some meshes that were read, then the ones that are still to come.
pub open spec fn meshes_then(done: Seq<Seq<Run>>, rest: Option<Seq<Seq<Run>>>) -> Option<
    Seq<Seq<Run>>,
> {
    match rest {
        Some(rest) => Some(done + rest),
        None => None,
    }
}

/// Parses a run of boxes, of which the `mesh` ones are collected in order.
pub fn parse_meshes(data: &[u8]) -> (r: Option<Vec<Mesh>>)
    ensures
        match r {
            Some(meshes) => meshes_from(data@, 0) == Some(drawings(meshes@)),
            None => meshes_from(data@, 0) is None,
        },
{
    let mut meshes: Vec<Mesh> = Vec::new();
    let mut at: usize = 0;
    assert(meshes_from(data@, 0) == meshes_then(drawings(meshes@), meshes_from(data@, 0))) by {
        assert(drawings(meshes@) =~= Seq::<Seq<Run>>::empty());
        let all = meshes_from(data@, 0);
        if all is Some {
            assert(Seq::<Seq<Run>>::empty() + all->Some_0 =~= all->Some_0);
        }
    }
    while data.len() - at >= 8
        invariant
            at <= data@.len(),
            meshes_from(data@, 0) == meshes_then(
                drawings(meshes@),
                meshes_from(data@, at as int),
            ),
        decreases data@.len() - at,
    {
        let size: usize = read_be32(data, at) as usize;
        let child_type: u32 = read_be32(data, at + 4);
        if size < 8 || size > data.len() - at {
            return None;
        }
        let end: usize = at + size;
        if child_type == TYPE_MESH {
            let ghost before = drawings(meshes@);
            match parse_mesh(vstd::slice::slice_subrange(data, at + 8, end)) {
                Some(mesh) => {
                    meshes.push(mesh);
                    proof {
                        assert(drawings(meshes@) =~= before.push(mesh@));
                        let rest = meshes_from(data@, end as int);
                        if rest is Some {
                            assert(before + (seq![mesh@] + rest->Some_0) =~= before.push(mesh@)
                                + rest->Some_0);
                        }
                    }
                },
                None => {
                    return None;
                },
            }
        }
        at = end;
    }
    assert(drawings(meshes@) + Seq::<Seq<Run>>::empty() =~= drawings(meshes@));
    Some(meshes)
}

/// What raw deflate data inflates to, or `None` where it is no such data or inflates to more than
/// `limit` bytes.
pub uninterp spec fn inflated(data: Seq<u8>, limit: usize) -> Option<Seq<u8>>;

/// Calls `miniz_oxide::inflate::decompress_to_vec_with_limit`, and drops its error.
///
/// Trusted: the outcome is a function of the data and the limit alone, and never exceeds the
/// limit. What bytes come out is not stated.
#[verifier::external_body]
fn inflate(data: &[u8], limit: usize) -> (r: Option<Vec<u8>>)
    ensures
        match r {
            Some(bytes) => inflated(data@, limit) == Some(bytes@) && bytes@.len() <= limit,
            None => inflated(data@, limit) is None,
        },
{
    miniz_oxide::inflate::decompress_to_vec_with_limit(data, limit).ok()
}

/// The contents of an `mshp` box: version 0, seven bytes of flags and checksum, the encoding, and
/// then mesh boxes, raw or deflated.
pub open spec fn mshp_of(data: Seq<u8>) -> Option<Seq<Seq<Run>>> {
    if data.len() < 12 || data[0] != 0 {
        None
    } else if be32_at(data, 8) == TYPE_RAW {
        meshes_from(data.skip(12), 0)
    } else if be32_at(data, 8) == TYPE_DFL8 {
        match inflated(data.skip(12), MAX_INFLATED_BYTES) {
            Some(bytes) => meshes_from(bytes, 0),
            None => None,
        }
    } else {
        None
    }
}

/// Parses the contents of an `mshp` box.
pub fn parse_mshp(data: &[u8]) -> (r: Option<Vec<Mesh>>)
    ensures
        match r {
            Some(meshes) => mshp_of(data@) == Some(drawings(meshes@)),
            None => mshp_of(data@) is None,
        },
{
    if data.len() < 12 || data[0] != 0 {
        return None;
    }
    let encoding: u32 = read_be32(data, 8);
    let rest = vstd::slice::slice_subrange(data, 12, data.len());
    assert(rest@ =~= data@.skip(12));
    if encoding == TYPE_RAW {
        parse_meshes(rest)
    } else if encoding == TYPE_DFL8 {
        match inflate(rest, MAX_INFLATED_BYTES) {
            Some(bytes) => parse_meshes(bytes.as_slice()),
            None => None,
        }
    } else {
        None
    }
}

/// The first mesh projection among the boxes from `at` on; one without a mesh is none.
pub open spec fn projection_from(data: Seq<u8>, at: int) -> Option<Seq<Seq<Run>>>
    decreases data.len() - at,
{
    if at + 8 > data.len() || !is_box(data, at) {
        None
    } else if box_type(data, at) == TYPE_MSHP || box_type(data, at) == TYPE_YTMP {
        match mshp_of(box_contents(data, at)) {
            Some(meshes) => if meshes.len() == 0 {
                None
            } else {
                Some(meshes)
            },
            None => None,
        }
    } else {
        projection_from(data, box_end(data, at))
    }
}

/// What a `proj` box projects. The box's own size field is not looked at.
pub open spec fn projection_of(data: Seq<u8>) -> Option<Seq<Seq<Run>>> {
    if data.len() < 8 || be32_at(data, 4) != TYPE_PROJ {
        None
    } else {
        projection_from(data, 8)
    }
}

/// Parses a `proj` box, header included.
///
/// Returns `None` for anything malformed rather than a partial mesh: half a projection renders as
/// a torn hole in the world, which is worse than falling back to a sphere.
pub fn parse_projection(data: &[u8]) -> (r: Option<Projection>)
    ensures
        match r {
            Some(projection) => projection_of(data@) == Some(projection@),
            None => projection_of(data@) is None,
        },
{
    if data.len() < 8 || read_be32(data, 4) != TYPE_PROJ {
        return None;
    }
    let mut at: usize = 8;
    while data.len() - at >= 8
        invariant
            8 <= at <= data@.len(),
            projection_of(data@) == projection_from(data@, at as int),
        decreases data@.len() - at,
    {
        let size: usize = read_be32(data, at) as usize;
        let child_type: u32 = read_be32(data, at + 4);
        if size < 8 || size > data.len() - at {
            return None;
        }
        let end: usize = at + size;
        if child_type == TYPE_MSHP || child_type == TYPE_YTMP {
            return match parse_mshp(vstd::slice::slice_subrange(data, at + 8, end)) {
                Some(meshes) => if meshes.len() == 0 {
                    None
                } else {
                    Some(Projection { meshes })
                },
                None => None,
            };
        }
        at = end;
    }
    None
}

/// A chain of deltas reads back what was packed into it: where every entry of the data holds the
/// zigzagged step from the number `stride` places before, the chain gives the numbers themselves.
pub proof fn packed_deltas_read_back(
    data: Seq<u8>,
    at: int,
    width: nat,
    stride: int,
    numbers: Seq<int>,
    t: int,
)
    requires
        0 < stride,
        0 <= t < numbers.len(),
        forall|i: int|
            #![trigger numbers[i]]
            0 <= i < numbers.len() ==> bits_value(data, at + width * i, width) == zigzag_encoded(
                numbers[i] - (if i >= stride {
                    numbers[i - stride]
                } else {
                    0
                }),
            ),
    ensures
        chained(data, at, width, stride, t) == numbers[t],
    decreases t,
{
    let before = if t >= stride {
        numbers[t - stride]
    } else {
        0
    };
    zigzag_reads_back(numbers[t] - before, 0);
    if t >= stride {
        packed_deltas_read_back(data, at, width, stride, numbers, t - stride);
    }
}

/// The binary digits of a number, the most significant one first.
pub open spec fn binary(n: nat, width: nat) -> Seq<bool>
    decreases width,
{
    if width == 0 {
        Seq::empty()
    } else {
        binary(n / 2, (width - 1) as nat).push(n % 2 == 1)
    }
}

/// A file as a run of bits: byte by byte, and of each the most significant bit first.
pub open spec fn file_bits(data: Seq<u8>) -> Seq<bool> {
    Seq::new(8 * data.len(), |i: int| data[i / 8] as nat / pow2((7 - i % 8) as nat) % 2 == 1)
}

/// Whether these bits stand in a file from bit `at` on.
pub open spec fn stands(data: Seq<u8>, at: int, bits: Seq<bool>) -> bool {
    &&& 0 <= at
    &&& at + bits.len() <= 8 * data.len()
    &&& forall|k: int| 0 <= k < bits.len() ==> #[trigger] bits[k] == file_bits(data)[at + k]
}

/// Words of 32 bits, one after the other.
pub open spec fn words(numbers: Seq<u32>) -> Seq<bool>
    decreases numbers.len(),
{
    if numbers.len() == 0 {
        Seq::empty()
    } else {
        words(numbers.drop_last()) + binary(numbers.last() as nat, 32)
    }
}

/// A list of numbers as it is packed: each as the zigzagged step from the one `stride` places before
/// it, or from zero where there is none.
pub open spec fn steps(numbers: Seq<int>, stride: int, width: nat) -> Seq<bool>
    decreases numbers.len(),
{
    if numbers.len() == 0 {
        Seq::empty()
    } else {
        let last = numbers.len() - 1;
        let from = if last >= stride {
            numbers[last - stride]
        } else {
            0
        };
        steps(numbers.drop_last(), stride, width) + binary(
            zigzag_encoded(numbers[last] - from),
            width,
        )
    }
}

/// One part of a shape: how it is drawn, and in which order its vertices come.
pub struct Part {
    pub texture_id: u8,
    pub mode: u8,
    pub order: Seq<int>,
}

/// A shape, before it is packed into a file: coordinates, vertices of five fields each that name a
/// coordinate, and parts that name vertices.
pub struct Shape {
    pub coordinates: Seq<u32>,
    pub fields: Seq<int>,
    pub parts: Seq<Part>,
}

impl Shape {
    /// How many vertices there are.
    pub open spec fn vertex_count(self) -> int {
        self.fields.len() as int / 5
    }

    /// Whether every number of the shape names something that is there, and none of its lists is
    /// empty or too long.
    pub open spec fn is_drawable(self) -> bool {
        &&& 0 < self.coordinates.len() <= 10_000
        &&& self.fields.len() % 5 == 0
        &&& 0 < self.vertex_count() <= 32_000
        &&& forall|i: int|
            0 <= i < self.fields.len() ==> 0 <= #[trigger] self.fields[i] < self.coordinates.len()
        &&& 0 < self.parts.len() <= u32::MAX
        &&& forall|k: int|
            0 <= k < self.parts.len() ==> part_is_drawable(
                #[trigger] self.parts[k],
                self.vertex_count(),
            )
    }
}

/// Whether every number of a part names a vertex, and it is neither empty nor too long.
pub open spec fn part_is_drawable(part: Part, vertices: int) -> bool {
    &&& 0 < part.order.len() <= 128_000
    &&& forall|t: int| 0 <= t < part.order.len() ==> 0 <= #[trigger] part.order[t] < vertices
}

/// A part as it is packed, where there are so many vertices.
pub open spec fn packed_part(part: Part, vertices: int) -> Seq<bool> {
    binary(part.texture_id as nat, 8) + binary(part.mode as nat, 8) + binary(part.order.len(), 32)
        + steps(part.order, 1, ceil_log2((2 * vertices) as nat))
}

/// Parts as they are packed, one after the other.
pub open spec fn packed_parts(parts: Seq<Part>, vertices: int) -> Seq<bool>
    decreases parts.len(),
{
    if parts.len() == 0 {
        Seq::empty()
    } else {
        packed_part(parts[0], vertices) + packed_parts(parts.skip(1), vertices)
    }
}

/// What a shape's file starts with: the coordinates, counted, and the vertices, counted.
pub open spec fn packed_head(shape: Shape) -> Seq<bool> {
    let width = ceil_log2(2 * shape.coordinates.len());
    binary(shape.coordinates.len(), 32) + words(shape.coordinates) + binary(
        shape.vertex_count() as nat,
        32,
    ) + steps(shape.fields, 5, width)
}

/// Whether a shape is packed into a file: first its coordinates and vertices, and from the next whole
/// byte on its parts, counted. What follows does not matter.
pub open spec fn is_packed(data: Seq<u8>, shape: Shape) -> bool {
    let list = (packed_head(shape).len() as int + 7) / 8 * 8;
    &&& stands(data, 0, packed_head(shape))
    &&& stands(
        data,
        list,
        binary(shape.parts.len(), 32) + packed_parts(shape.parts, shape.vertex_count()),
    )
}

/// Whether a run draws a part of a shape: vertex by vertex in the part's order, and of each vertex the
/// five coordinates that its fields name.
pub open spec fn draws(run: Run, shape: Shape, part: Part) -> bool {
    &&& run.texture_id == part.texture_id
    &&& run.mode == part.mode
    &&& run.vertices.len() == 5 * part.order.len()
    &&& forall|t: int, f: int|
        0 <= t < part.order.len() && 0 <= f < 5 ==> #[trigger] run.vertices[5 * t + f]
            == shape.coordinates[shape.fields[5 * part.order[t] + f]]
}

proof fn binary_is_long(n: nat, width: nat)
    ensures
        binary(n, width).len() == width,
    decreases width,
{
    if width > 0 {
        binary_is_long(n / 2, (width - 1) as nat);
    }
}

proof fn steps_are_long(numbers: Seq<int>, stride: int, width: nat)
    ensures
        steps(numbers, stride, width).len() == width * numbers.len(),
    decreases numbers.len(),
{
    if numbers.len() > 0 {
        let last = numbers.len() - 1;
        let from = if last >= stride {
            numbers[last - stride]
        } else {
            0
        };
        steps_are_long(numbers.drop_last(), stride, width);
        binary_is_long(zigzag_encoded(numbers[last] - from), width);
        assert(width * (numbers.len() - 1) + width == width * numbers.len()) by (nonlinear_arith);
    } else {
        assert(width * 0 == 0);
    }
}

proof fn words_are_long(numbers: Seq<u32>)
    ensures
        words(numbers).len() == 32 * numbers.len(),
    decreases numbers.len(),
{
    if numbers.len() > 0 {
        words_are_long(numbers.drop_last());
        binary_is_long(numbers.last() as nat, 32);
    }
}

proof fn both_stand(data: Seq<u8>, at: int, a: Seq<bool>, b: Seq<bool>)
    ensures
        stands(data, at, a + b) <==> stands(data, at, a) && stands(data, at + a.len(), b),
{
    let c = a + b;
    if stands(data, at, c) {
        assert forall|k: int| 0 <= k < a.len() implies #[trigger] a[k] == file_bits(data)[at + k] by {
            assert(c[k] == a[k]);
        }
        assert forall|k: int| 0 <= k < b.len() implies #[trigger] b[k] == file_bits(data)[at + a.len()
            + k] by {
            assert(c[a.len() + k] == b[k]);
        }
    }
}

proof fn a_bit_is_a_bit(data: Seq<u8>, i: int)
    requires
        0 <= i < 8 * data.len(),
    ensures
        bit_at(data, i) == (if file_bits(data)[i] {
            1nat
        } else {
            0nat
        }),
{
    let byte = data[i / 8];
    let shift = (7 - i % 8) as u8;
    vstd::bits::lemma_u8_shr_is_div(byte, shift);
    let moved = byte >> shift;
    assert(moved & 1 == moved % 2) by (bit_vector);
}

proof fn a_number_stands(data: Seq<u8>, at: int, n: nat, width: nat)
    requires
        stands(data, at, binary(n, width)),
        n < pow2(width),
    ensures
        bits_value(data, at, width) == n,
    decreases width,
{
    lemma2_to64();
    if width > 0 {
        let shorter = binary(n / 2, (width - 1) as nat);
        let bits = binary(n, width);
        binary_is_long(n / 2, (width - 1) as nat);
        lemma_pow2_unfold(width);
        assert forall|k: int| 0 <= k < shorter.len() implies #[trigger] shorter[k] == file_bits(
            data,
        )[at + k] by {
            assert(bits[k] == shorter[k]);
        }
        a_number_stands(data, at, n / 2, (width - 1) as nat);
        assert(bits[width - 1] == (n % 2 == 1));
        a_bit_is_a_bit(data, at + width - 1);
    }
}

proof fn a_step_stands(
    data: Seq<u8>,
    at: int,
    numbers: Seq<int>,
    stride: int,
    width: nat,
    count: u32,
    i: int,
)
    requires
        stands(data, at, steps(numbers, stride, width)),
        0 < stride,
        width == ceil_log2(2 * count as nat),
        forall|t: int| 0 <= t < numbers.len() ==> 0 <= #[trigger] numbers[t] < count,
        0 <= i < numbers.len(),
    ensures
        bits_value(data, at + width * i, width) == zigzag_encoded(
            numbers[i] - (if i >= stride {
                numbers[i - stride]
            } else {
                0
            }),
        ),
    decreases numbers.len(),
{
    let shorter = numbers.drop_last();
    let last = numbers.len() - 1;
    let from = if last >= stride {
        numbers[last - stride]
    } else {
        0
    };
    let bits = binary(zigzag_encoded(numbers[last] - from), width);
    both_stand(data, at, steps(shorter, stride, width), bits);
    steps_are_long(shorter, stride, width);
    if i == last {
        assert(0 <= numbers[last] < count);
        the_width_has_room_for_every_step(count, from, numbers[last]);
        a_number_stands(data, at + width * i, zigzag_encoded(numbers[last] - from), width);
    } else {
        assert(forall|t: int| 0 <= t < shorter.len() ==> #[trigger] shorter[t] == numbers[t]);
        a_step_stands(data, at, shorter, stride, width, count, i);
    }
}

proof fn a_chain_stands(
    data: Seq<u8>,
    at: int,
    numbers: Seq<int>,
    stride: int,
    width: nat,
    count: u32,
)
    requires
        stands(data, at, steps(numbers, stride, width)),
        0 < stride,
        width == ceil_log2(2 * count as nat),
        forall|t: int| 0 <= t < numbers.len() ==> 0 <= #[trigger] numbers[t] < count,
    ensures
        chain_fits(data, at, width, stride, numbers.len() as int, count as int),
        forall|t: int|
            0 <= t < numbers.len() ==> #[trigger] chained(data, at, width, stride, t) == numbers[t],
{
    steps_are_long(numbers, stride, width);
    assert forall|i: int| 0 <= i < numbers.len() implies bits_value(data, at + width * i, width)
        == zigzag_encoded(
        #[trigger] numbers[i] - (if i >= stride {
            numbers[i - stride]
        } else {
            0
        }),
    ) by {
        a_step_stands(data, at, numbers, stride, width, count, i);
    }
    assert forall|t: int| 0 <= t < numbers.len() implies #[trigger] chained(
        data,
        at,
        width,
        stride,
        t,
    ) == numbers[t] by {
        packed_deltas_read_back(data, at, width, stride, numbers, t);
    }
}

proof fn bits_join(data: Seq<u8>, at: int, a: nat, b: nat)
    ensures
        bits_value(data, at, a + b) == bits_value(data, at, a) * pow2(b) + bits_value(
            data,
            at + a,
            b,
        ),
    decreases b,
{
    lemma2_to64();
    let x = bits_value(data, at, a);
    if b == 0 {
        assert(x * 1 == x);
    } else {
        bits_join(data, at, a, (b - 1) as nat);
        lemma_pow2_unfold(b);
        let p = pow2((b - 1) as nat);
        assert(2 * (x * p) == x * (2 * p)) by (nonlinear_arith);
    }
}

/// Eight bits from a byte's first on are the byte, and 32 of them the number its four bytes write, most
/// significant byte first.
pub proof fn whole_bytes_are_numbers(data: Seq<u8>, i: int)
    ensures
        bits_value(data, 8 * i, 8) == data[i],
        bits_value(data, 8 * i, 32) == be32_at(data, i),
{
    byte_of_bits(data, i);
    byte_of_bits(data, i + 1);
    byte_of_bits(data, i + 2);
    byte_of_bits(data, i + 3);
    bits_join(data, 8 * i, 8, 8);
    bits_join(data, 8 * i, 16, 8);
    bits_join(data, 8 * i, 24, 8);
    lemma2_to64();
}

proof fn byte_of_bits(data: Seq<u8>, i: int)
    ensures
        bits_value(data, 8 * i, 8) == data[i],
{
    reveal_with_fuel(bits_value, 9);
    let b = data[i];
    assert forall|k: int| 0 <= k < 8 implies (8 * i + k) / 8 == i && #[trigger] ((8 * i + k) % 8)
        == k by {}
    assert(b == 128 * ((b >> 7u8) & 1) + 64 * ((b >> 6u8) & 1) + 32 * ((b >> 5u8) & 1) + 16 * ((b
        >> 4u8) & 1) + 8 * ((b >> 3u8) & 1) + 4 * ((b >> 2u8) & 1) + 2 * ((b >> 1u8) & 1) + ((b
        >> 0u8) & 1)) by (bit_vector);
    assert((8 * i + 0) / 8 == i && (8 * i + 1) / 8 == i && (8 * i + 2) / 8 == i && (8 * i + 3) / 8 == i
        && (8 * i + 4) / 8 == i && (8 * i + 5) / 8 == i && (8 * i + 6) / 8 == i && (8 * i + 7) / 8
        == i);
    assert((8 * i + 0) % 8 == 0 && (8 * i + 1) % 8 == 1 && (8 * i + 2) % 8 == 2 && (8 * i + 3) % 8 == 3
        && (8 * i + 4) % 8 == 4 && (8 * i + 5) % 8 == 5 && (8 * i + 6) % 8 == 6 && (8 * i + 7) % 8
        == 7);
}

proof fn a_word_stands(data: Seq<u8>, at: int, numbers: Seq<u32>, i: int)
    requires
        stands(data, at, words(numbers)),
        0 <= i < numbers.len(),
    ensures
        bits_value(data, at + 32 * i, 32) == numbers[i],
    decreases numbers.len(),
{
    let shorter = numbers.drop_last();
    both_stand(data, at, words(shorter), binary(numbers.last() as nat, 32));
    words_are_long(shorter);
    lemma2_to64();
    if i == numbers.len() - 1 {
        a_number_stands(data, at + 32 * i, numbers.last() as nat, 32);
    } else {
        a_word_stands(data, at, shorter, i);
    }
}

proof fn a_part_is_drawn(data: Seq<u8>, at: int, shape: Shape, pool: Seq<u32>, part: Part)
    requires
        shape.is_drawable(),
        pool.len() == shape.fields.len(),
        forall|i: int|
            0 <= i < pool.len() ==> #[trigger] pool[i] == shape.coordinates[shape.fields[i]],
        part_is_drawable(part, shape.vertex_count()),
        stands(data, at, packed_part(part, shape.vertex_count())),
    ensures
        run_at(data, at, pool) matches Some((run, next)) && draws(run, shape, part) && next == at
            + packed_part(part, shape.vertex_count()).len(),
{
    let vertices = shape.vertex_count();
    let width = ceil_log2((2 * vertices) as nat);
    let n = part.order.len();
    let a = binary(part.texture_id as nat, 8);
    let b = binary(part.mode as nat, 8);
    let c = binary(n, 32);
    let d = steps(part.order, 1, width);
    binary_is_long(part.texture_id as nat, 8);
    binary_is_long(part.mode as nat, 8);
    binary_is_long(n, 32);
    both_stand(data, at, a + b + c, d);
    both_stand(data, at, a + b, c);
    both_stand(data, at, a, b);
    lemma2_to64();
    a_number_stands(data, at, part.texture_id as nat, 8);
    a_number_stands(data, at + 8, part.mode as nat, 8);
    a_number_stands(data, at + 16, n, 32);
    a_chain_stands(data, at + 48, part.order, 1, width, vertices as u32);
    steps_are_long(part.order, 1, width);
    assert(pool.len() as int / 5 == vertices);
    let run = run_at(data, at, pool)->Some_0.0;
    assert forall|t: int, f: int| 0 <= t < n && 0 <= f < 5 implies #[trigger] run.vertices[5 * t + f]
        == shape.coordinates[shape.fields[5 * part.order[t] + f]] by {
        let i = 5 * t + f;
        assert(i / 5 == t && i % 5 == f);
        assert(chained(data, at + 48, width, 1, t) == part.order[t]);
        let from = 5 * part.order[t] + f;
        assert(0 <= from < pool.len());
        assert(pool[from] == shape.coordinates[shape.fields[from]]);
    }
}

proof fn parts_are_drawn(data: Seq<u8>, at: int, shape: Shape, pool: Seq<u32>, parts: Seq<Part>)
    requires
        shape.is_drawable(),
        pool.len() == shape.fields.len(),
        forall|i: int|
            0 <= i < pool.len() ==> #[trigger] pool[i] == shape.coordinates[shape.fields[i]],
        forall|k: int|
            0 <= k < parts.len() ==> part_is_drawable(#[trigger] parts[k], shape.vertex_count()),
        stands(data, at, packed_parts(parts, shape.vertex_count())),
    ensures
        runs_from(data, at, parts.len(), pool) matches Some(runs) && runs.len() == parts.len()
            && forall|k: int|
            0 <= k < parts.len() ==> draws(#[trigger] runs[k], shape, parts[k]),
    decreases parts.len(),
{
    if parts.len() > 0 {
        let vertices = shape.vertex_count();
        let rest = parts.skip(1);
        let first = packed_part(parts[0], vertices);
        both_stand(data, at, first, packed_parts(rest, vertices));
        a_part_is_drawn(data, at, shape, pool, parts[0]);
        assert(forall|k: int| 0 <= k < rest.len() ==> #[trigger] rest[k] == parts[k + 1]);
        parts_are_drawn(data, at + first.len(), shape, pool, rest);
        let later = runs_from(data, at + first.len(), rest.len(), pool)->Some_0;
        let runs = runs_from(data, at, parts.len(), pool)->Some_0;
        assert forall|k: int| 0 <= k < parts.len() implies draws(#[trigger] runs[k], shape, parts[k]) by {
            if k > 0 {
                assert(runs[k] == later[k - 1]);
                assert(rest[k - 1] == parts[k]);
            }
        }
    }
}

/// A shape that was packed into a file is drawn as it was: part by part, each with its texture and its
/// mode, its vertices in the part's order, and of each vertex the five coordinates it was made of.
pub proof fn a_packed_shape_is_drawn(data: Seq<u8>, shape: Shape)
    requires
        shape.is_drawable(),
        is_packed(data, shape),
    ensures
        mesh_of(data) matches Some(runs) && runs.len() == shape.parts.len() && forall|k: int|
            0 <= k < runs.len() ==> draws(#[trigger] runs[k], shape, shape.parts[k]),
{
    let count = shape.coordinates.len();
    let vertices = shape.vertex_count();
    let width = ceil_log2(2 * count);
    let a = binary(count, 32);
    let b = words(shape.coordinates);
    let c = binary(vertices as nat, 32);
    let d = steps(shape.fields, 5, width);
    binary_is_long(count, 32);
    binary_is_long(vertices as nat, 32);
    words_are_long(shape.coordinates);
    steps_are_long(shape.fields, 5, width);
    both_stand(data, 0, a + b + c, d);
    both_stand(data, 0, a + b, c);
    both_stand(data, 0, a, b);
    lemma2_to64();
    let words_end = 32 + 32 * count;
    let at = words_end + 32;
    a_number_stands(data, 0, count, 32);
    a_number_stands(data, words_end as int, vertices as nat, 32);
    whole_bytes_are_numbers(data, 0);
    whole_bytes_are_numbers(data, 4 + 4 * count as int);
    assert(8 * (4 + 4 * count) == words_end);
    assert(8 * (8 + 4 * count) == at);
    a_chain_stands(data, at as int, shape.fields, 5, width, count as u32);
    let pool = vertices_of(data, count as int, vertices)->Some_0;
    assert(shape.fields.len() == 5 * vertices);
    assert forall|i: int| 0 <= i < pool.len() implies #[trigger] pool[i]
        == shape.coordinates[shape.fields[i]] by {
        assert(chained(data, at as int, width, 5, i) == shape.fields[i]);
        let index = shape.fields[i];
        whole_bytes_are_numbers(data, 4 + 4 * index);
        a_word_stands(data, 32, shape.coordinates, index);
        assert(8 * (4 + 4 * index) == 32 + 32 * index);
    }
    let list = (packed_head(shape).len() as int + 7) / 8 * 8;
    let e = binary(shape.parts.len(), 32);
    binary_is_long(shape.parts.len(), 32);
    both_stand(data, list, e, packed_parts(shape.parts, vertices));
    a_number_stands(data, list, shape.parts.len(), 32);
    parts_are_drawn(data, list + 32, shape, pool, shape.parts);
}

proof fn what_is_read_stands(data: Seq<u8>, at: int, width: nat)
    requires
        0 <= at,
        at + width <= 8 * data.len(),
    ensures
        stands(data, at, binary(bits_value(data, at, width), width)),
    decreases width,
{
    let n = bits_value(data, at, width);
    binary_is_long(n, width);
    if width > 0 {
        let shorter = (width - 1) as nat;
        what_is_read_stands(data, at, shorter);
        a_bit_is_a_bit(data, at + width - 1);
        let front = binary(bits_value(data, at, shorter), shorter);
        binary_is_long(bits_value(data, at, shorter), shorter);
        assert(n / 2 == bits_value(data, at, shorter));
        assert forall|k: int| 0 <= k < width implies #[trigger] binary(n, width)[k] == file_bits(
            data,
        )[at + k] by {
            if k < width - 1 {
                assert(binary(n, width)[k] == front[k]);
            }
        }
    }
}

spec fn numbers_at(data: Seq<u8>, at: int, width: nat, stride: int, n: nat) -> Seq<int> {
    Seq::new(n, |t: int| chained(data, at, width, stride, t))
}

proof fn a_chain_is_steps(data: Seq<u8>, at: int, width: nat, stride: int, n: nat)
    requires
        0 <= at,
        0 < stride,
        at + width * n <= 8 * data.len(),
    ensures
        stands(data, at, steps(numbers_at(data, at, width, stride, n), stride, width)),
    decreases n,
{
    let numbers = numbers_at(data, at, width, stride, n);
    if n == 0 {
        assert(steps(numbers, stride, width) =~= Seq::<bool>::empty());
    } else {
        let m = (n - 1) as nat;
        assert(width * m + width == width * n) by (nonlinear_arith)
            requires
                m == n - 1,
        ;
        a_chain_is_steps(data, at, width, stride, m);
        let shorter = numbers_at(data, at, width, stride, m);
        assert(numbers.drop_last() =~= shorter);
        let from = if m >= stride {
            numbers[m - stride]
        } else {
            0
        };
        let read = bits_value(data, at + width * m, width);
        zigzag_reads_back(0, read);
        assert(numbers[m as int] - from == zigzag_value(read));
        what_is_read_stands(data, at + width * m, width);
        steps_are_long(shorter, stride, width);
        both_stand(data, at, steps(shorter, stride, width), binary(read, width));
    }
}

spec fn words_at(data: Seq<u8>, i: int, n: nat) -> Seq<u32> {
    Seq::new(n, |k: int| be32_at(data, i + 4 * k))
}

proof fn bytes_are_words(data: Seq<u8>, i: int, n: nat)
    requires
        0 <= i,
        i + 4 * n <= data.len(),
    ensures
        stands(data, 8 * i, words(words_at(data, i, n))),
    decreases n,
{
    let numbers = words_at(data, i, n);
    if n == 0 {
        assert(words(numbers) =~= Seq::<bool>::empty());
    } else {
        let m = (n - 1) as nat;
        bytes_are_words(data, i, m);
        let shorter = words_at(data, i, m);
        assert(numbers.drop_last() =~= shorter);
        words_are_long(shorter);
        whole_bytes_are_numbers(data, i + 4 * m);
        what_is_read_stands(data, 8 * (i + 4 * m), 32);
        both_stand(data, 8 * i, words(shorter), binary(numbers.last() as nat, 32));
    }
}

spec fn part_at(data: Seq<u8>, at: int, vertices: int) -> Part {
    Part {
        texture_id: bits_value(data, at, 8) as u8,
        mode: bits_value(data, at + 8, 8) as u8,
        order: numbers_at(
            data,
            at + 48,
            ceil_log2((2 * vertices) as nat),
            1,
            bits_value(data, at + 16, 32),
        ),
    }
}

spec fn parts_at(data: Seq<u8>, at: int, n: nat, pool: Seq<u32>) -> Seq<Part>
    decreases n,
{
    if n == 0 {
        Seq::empty()
    } else {
        seq![part_at(data, at, pool.len() as int / 5)] + parts_at(
            data,
            run_at(data, at, pool)->Some_0.1,
            (n - 1) as nat,
            pool,
        )
    }
}

proof fn a_run_is_a_part(data: Seq<u8>, at: int, pool: Seq<u32>)
    requires
        0 <= at,
        run_at(data, at, pool) is Some,
    ensures
        ({
            let vertices = pool.len() as int / 5;
            let part = part_at(data, at, vertices);
            &&& part_is_drawable(part, vertices)
            &&& stands(data, at, packed_part(part, vertices))
            &&& run_at(data, at, pool)->Some_0.1 == at + packed_part(part, vertices).len()
        }),
{
    let vertices = pool.len() as int / 5;
    let part = part_at(data, at, vertices);
    let width = ceil_log2((2 * vertices) as nat);
    let n = bits_value(data, at + 16, 32);
    let a = binary(part.texture_id as nat, 8);
    let b = binary(part.mode as nat, 8);
    let c = binary(n, 32);
    let d = steps(part.order, 1, width);
    lemma2_to64();
    bits_value_fits(data, at, 8);
    bits_value_fits(data, at + 8, 8);
    assert(0 <= width * n) by (nonlinear_arith)
        requires
            0 <= width,
            0 <= n,
    ;
    what_is_read_stands(data, at, 8);
    what_is_read_stands(data, at + 8, 8);
    what_is_read_stands(data, at + 16, 32);
    a_chain_is_steps(data, at + 48, width, 1, n);
    binary_is_long(part.texture_id as nat, 8);
    binary_is_long(part.mode as nat, 8);
    binary_is_long(n, 32);
    steps_are_long(part.order, 1, width);
    both_stand(data, at, a, b);
    both_stand(data, at, a + b, c);
    both_stand(data, at, a + b + c, d);
}

proof fn runs_are_parts(data: Seq<u8>, at: int, n: nat, pool: Seq<u32>)
    requires
        0 <= at <= 8 * data.len(),
        runs_from(data, at, n, pool) is Some,
    ensures
        ({
            let vertices = pool.len() as int / 5;
            let parts = parts_at(data, at, n, pool);
            &&& parts.len() == n
            &&& forall|k: int|
                0 <= k < n ==> part_is_drawable(#[trigger] parts[k], vertices)
            &&& stands(data, at, packed_parts(parts, vertices))
        }),
    decreases n,
{
    if n > 0 {
        let vertices = pool.len() as int / 5;
        let parts = parts_at(data, at, n, pool);
        a_run_is_a_part(data, at, pool);
        let first = part_at(data, at, vertices);
        let next = run_at(data, at, pool)->Some_0.1;
        runs_are_parts(data, next, (n - 1) as nat, pool);
        let rest = parts_at(data, next, (n - 1) as nat, pool);
        assert(parts.skip(1) =~= rest);
        both_stand(data, at, packed_part(first, vertices), packed_parts(rest, vertices));
        assert forall|k: int| 0 <= k < n implies part_is_drawable(#[trigger] parts[k], vertices) by {
            if k > 0 {
                assert(parts[k] == rest[k - 1]);
            }
        }
    }
}

/// Nothing else is drawn: whatever is accepted as a mesh is a shape packed into the file.
pub proof fn only_packed_shapes_are_drawn(data: Seq<u8>)
    requires
        mesh_of(data) is Some,
    ensures
        exists|shape: Shape| shape.is_drawable() && #[trigger] is_packed(data, shape),
{
    let count = be32_at(data, 0) as nat;
    let vertices = be32_at(data, 4 + 4 * count as int) as nat;
    let width = ceil_log2(2 * count);
    let at = 8 * (8 + 4 * count as int);
    let list = (at + width * (5 * vertices) + 7) / 8 * 8;
    let n = bits_value(data, list, 32);
    let pool = vertices_of(data, count as int, vertices as int)->Some_0;
    let shape = Shape {
        coordinates: words_at(data, 4, count),
        fields: numbers_at(data, at, width, 5, 5 * vertices),
        parts: parts_at(data, list + 32, n, pool),
    };
    assert(shape.vertex_count() == vertices);
    let a = binary(count, 32);
    let b = words(shape.coordinates);
    let c = binary(vertices, 32);
    let d = steps(shape.fields, 5, width);
    lemma2_to64();
    whole_bytes_are_numbers(data, 0);
    whole_bytes_are_numbers(data, 4 + 4 * count as int);
    what_is_read_stands(data, 0, 32);
    what_is_read_stands(data, 8 * (4 + 4 * count as int), 32);
    bytes_are_words(data, 4, count);
    a_chain_is_steps(data, at, width, 5, 5 * vertices);
    binary_is_long(count, 32);
    binary_is_long(vertices, 32);
    words_are_long(shape.coordinates);
    steps_are_long(shape.fields, 5, width);
    both_stand(data, 0, a, b);
    both_stand(data, 0, a + b, c);
    both_stand(data, 0, a + b + c, d);
    assert(packed_head(shape).len() == at + width * (5 * vertices));
    bits_value_fits(data, list, 32);
    assert(0 <= width * (5 * vertices)) by (nonlinear_arith)
        requires
            0 <= width,
            0 <= vertices,
    ;
    runs_are_parts(data, list + 32, n, pool);
    what_is_read_stands(data, list, 32);
    binary_is_long(n, 32);
    both_stand(data, list, binary(n, 32), packed_parts(shape.parts, vertices as int));
    assert(pool.len() as int / 5 == vertices);
    assert forall|i: int| 0 <= i < shape.fields.len() implies 0 <= #[trigger] shape.fields[i]
        < shape.coordinates.len() by {
        assert(0 <= chained(data, at, width, 5, i) < count);
    }
    assert(shape.is_drawable() && is_packed(data, shape));
}

/// A number in four bytes, most significant first.
pub open spec fn big_endian(n: nat) -> Seq<u8> {
    seq![
        (n / 0x100_0000 % 0x100) as u8,
        (n / 0x1_0000 % 0x100) as u8,
        (n / 0x100 % 0x100) as u8,
        (n % 0x100) as u8,
    ]
}

/// A box as it is written: its size, header included, then four letters, then what it holds.
pub open spec fn boxed(kind: Seq<u8>, contents: Seq<u8>) -> Seq<u8> {
    big_endian(8 + contents.len()) + kind + contents
}

/// A box before it is written: its four letters, and what it holds.
pub struct Parcel {
    pub kind: Seq<u8>,
    pub contents: Seq<u8>,
}

/// Whether a box can be written at all.
pub open spec fn is_parcel(p: Parcel) -> bool {
    p.kind.len() == 4 && p.contents.len() <= u32::MAX - 8
}

/// Boxes as they are written, one after the other.
pub open spec fn written(parcels: Seq<Parcel>) -> Seq<u8>
    decreases parcels.len(),
{
    if parcels.len() == 0 {
        Seq::empty()
    } else {
        boxed(parcels[0].kind, parcels[0].contents) + written(parcels.skip(1))
    }
}

/// The boxes of these that hold a mesh, in order.
pub open spec fn mesh_boxes(parcels: Seq<Parcel>) -> Seq<Seq<u8>>
    decreases parcels.len(),
{
    if parcels.len() == 0 {
        Seq::empty()
    } else if parcels[0].kind == text::ascii("mesh") {
        seq![parcels[0].contents] + mesh_boxes(parcels.skip(1))
    } else {
        mesh_boxes(parcels.skip(1))
    }
}

proof fn letters_are_types()
    ensures
        be32_at(text::ascii("proj"), 0) == TYPE_PROJ,
        be32_at(text::ascii("mshp"), 0) == TYPE_MSHP,
        be32_at(text::ascii("ytmp"), 0) == TYPE_YTMP,
        be32_at(text::ascii("mesh"), 0) == TYPE_MESH,
        be32_at(text::ascii("raw "), 0) == TYPE_RAW,
        be32_at(text::ascii("dfl8"), 0) == TYPE_DFL8,
        text::ascii("proj").len() == 4,
        text::ascii("mshp").len() == 4,
        text::ascii("ytmp").len() == 4,
        text::ascii("mesh").len() == 4,
        text::ascii("raw ").len() == 4,
        text::ascii("dfl8").len() == 4,
{
    reveal_strlit("proj");
    reveal_strlit("mshp");
    reveal_strlit("ytmp");
    reveal_strlit("mesh");
    reveal_strlit("raw ");
    reveal_strlit("dfl8");
}

proof fn letters_differ(a: Seq<u8>, b: Seq<u8>)
    requires
        a.len() == 4,
        b.len() == 4,
        be32_at(a, 0) == be32_at(b, 0),
    ensures
        a == b,
{
    assert(a[0] == b[0] && a[1] == b[1] && a[2] == b[2] && a[3] == b[3]);
    assert(a =~= b);
}

proof fn letters_tell(kind: Seq<u8>)
    requires
        kind.len() == 4,
    ensures
        be32_at(kind, 0) == TYPE_MESH <==> kind == text::ascii("mesh"),
        be32_at(kind, 0) == TYPE_MSHP <==> kind == text::ascii("mshp"),
        be32_at(kind, 0) == TYPE_YTMP <==> kind == text::ascii("ytmp"),
{
    letters_are_types();
    if be32_at(kind, 0) == TYPE_MESH {
        letters_differ(kind, text::ascii("mesh"));
    }
    if be32_at(kind, 0) == TYPE_MSHP {
        letters_differ(kind, text::ascii("mshp"));
    }
    if be32_at(kind, 0) == TYPE_YTMP {
        letters_differ(kind, text::ascii("ytmp"));
    }
}

#[verifier::spinoff_prover]
#[verifier::rlimit(40)]
proof fn a_written_box_is_there(data: Seq<u8>, front: Seq<u8>, p: Parcel, back: Seq<u8>)
    requires
        is_parcel(p),
        data == front + boxed(p.kind, p.contents) + back,
    ensures
        ({
            let at = front.len() as int;
            &&& is_box(data, at)
            &&& box_type(data, at) == be32_at(p.kind, 0)
            &&& box_end(data, at) == at + 8 + p.contents.len()
            &&& box_contents(data, at) == p.contents
        }),
{
    let at = front.len() as int;
    let size = 8 + p.contents.len();
    let b = boxed(p.kind, p.contents);
    assert(forall|i: int| 0 <= i < b.len() ==> data[at + i] == #[trigger] b[i]);
    assert(data[at] == b[0] && data[at + 1] == b[1] && data[at + 2] == b[2] && data[at + 3] == b[3]);
    assert(data[at + 4] == b[4] && data[at + 5] == b[5] && data[at + 6] == b[6] && data[at + 7]
        == b[7]);
    assert(0x100_0000 * (size / 0x100_0000 % 0x100) + 0x1_0000 * (size / 0x1_0000 % 0x100) + 0x100 * (
    size / 0x100 % 0x100) + size % 0x100 == size);
    assert(be32_at(data, at) == size);
    assert(box_contents(data, at) =~= p.contents);
}

proof fn joined_either_way(a: Seq<u8>, b: Seq<u8>, c: Seq<u8>, d: Seq<u8>)
    ensures
        a + (b + c) + d == a + b + (c + d),
        a + (b + c) + d == (a + b) + c + d,
{
    assert(a + (b + c) + d =~= a + b + (c + d));
    assert(a + (b + c) + d =~= (a + b) + c + d);
}

/// The meshes that some boxes hold, or none at all where one of them holds no mesh.
pub open spec fn all_meshes(boxes: Seq<Seq<u8>>) -> Option<Seq<Seq<Run>>>
    decreases boxes.len(),
{
    if boxes.len() == 0 {
        Some(Seq::empty())
    } else {
        match (mesh_of(boxes[0]), all_meshes(boxes.skip(1))) {
            (Some(mesh), Some(rest)) => Some(seq![mesh] + rest),
            _ => None,
        }
    }
}

proof fn a_mesh_box_is_next(data: Seq<u8>, at: int, boxes: Seq<Seq<u8>>, contents: Seq<u8>)
    requires
        is_box(data, at),
        box_type(data, at) == TYPE_MESH,
        box_contents(data, at) == contents,
        meshes_from(data, box_end(data, at)) == all_meshes(boxes),
    ensures
        meshes_from(data, at) == all_meshes(seq![contents] + boxes),
{
    assert((seq![contents] + boxes).skip(1) =~= boxes);
}

proof fn another_box_is_next(data: Seq<u8>, at: int)
    requires
        is_box(data, at),
        box_type(data, at) != TYPE_MESH,
    ensures
        meshes_from(data, at) == meshes_from(data, box_end(data, at)),
{
}

proof fn written_meshes_from(
    data: Seq<u8>,
    front: Seq<u8>,
    parcels: Seq<Parcel>,
    back: Seq<u8>,
)
    requires
        forall|i: int| 0 <= i < parcels.len() ==> is_parcel(#[trigger] parcels[i]),
        data == front + written(parcels) + back,
        back.len() < 8,
    ensures
        meshes_from(data, front.len() as int) == all_meshes(mesh_boxes(parcels)),
    decreases parcels.len(),
{
    let at = front.len() as int;
    if parcels.len() > 0 {
        let p = parcels[0];
        let rest = parcels.skip(1);
        let b = boxed(p.kind, p.contents);
        assert(is_parcel(p));
        letters_tell(p.kind);
        joined_either_way(front, b, written(rest), back);
        a_written_box_is_there(data, front, p, written(rest) + back);
        assert forall|i: int| 0 <= i < rest.len() implies is_parcel(#[trigger] rest[i]) by {
            assert(rest[i] == parcels[i + 1]);
        }
        assert((front + b).len() == box_end(data, at));
        written_meshes_from(data, front + b, rest, back);
        if p.kind == text::ascii("mesh") {
            a_mesh_box_is_next(data, at, mesh_boxes(rest), p.contents);
        } else {
            another_box_is_next(data, at);
        }
    }
}

/// The meshes of a run of boxes are those of its `mesh` boxes, all of them or none; other boxes are
/// passed over, and so are fewer than eight bytes at the end.
pub proof fn written_meshes_are_collected(parcels: Seq<Parcel>, back: Seq<u8>)
    requires
        forall|i: int| 0 <= i < parcels.len() ==> is_parcel(#[trigger] parcels[i]),
        back.len() < 8,
    ensures
        meshes_from(written(parcels) + back, 0) == all_meshes(mesh_boxes(parcels)),
{
    let none = Seq::<u8>::empty();
    assert(written(parcels) + back =~= none + written(parcels) + back);
    written_meshes_from(written(parcels) + back, none, parcels, back);
}

/// Meshes come in the order of their boxes, one for each, and a box that holds none spoils them all.
pub proof fn meshes_come_in_the_order_of_their_boxes(boxes: Seq<Seq<u8>>, i: int)
    requires
        0 <= i < boxes.len(),
    ensures
        mesh_of(boxes[i]) is None ==> all_meshes(boxes) is None,
        all_meshes(boxes) matches Some(meshes) ==> meshes.len() == boxes.len() && mesh_of(boxes[i])
            == Some(meshes[i]),
    decreases boxes.len(),
{
    let rest = boxes.skip(1);
    if i > 0 {
        meshes_come_in_the_order_of_their_boxes(rest, i - 1);
    } else if rest.len() > 0 {
        meshes_come_in_the_order_of_their_boxes(rest, 0);
    }
}

/// A payload of a projection as it is written: version zero, seven bytes that nobody reads, four letters
/// for the encoding, and the encoded boxes.
pub open spec fn payload(unread: Seq<u8>, encoding: Seq<u8>, boxes: Seq<u8>) -> Seq<u8> {
    seq![0u8] + unread + encoding + boxes
}

/// A payload holds the meshes of its boxes: of the very bytes where they are `raw `, and of what they
/// inflate to where they are `dfl8`. Any other encoding, or another version, is not read.
pub proof fn a_payload_holds_its_boxes(
    unread: Seq<u8>,
    encoding: Seq<u8>,
    boxes: Seq<u8>,
    version: u8,
)
    requires
        unread.len() == 7,
        encoding.len() == 4,
    ensures
        ({
            let data = payload(unread, encoding, boxes);
            &&& encoding == text::ascii("raw ") ==> mshp_of(data) == meshes_from(boxes, 0)
            &&& encoding == text::ascii("dfl8") ==> mshp_of(data) == (match inflated(
                boxes,
                0x100_0000,
            ) {
                Some(bytes) => meshes_from(bytes, 0),
                None => None,
            })
            &&& encoding != text::ascii("raw ") && encoding != text::ascii("dfl8") ==> mshp_of(data)
                is None
            &&& version != 0 ==> mshp_of(data.update(0, version)) is None
        }),
{
    letters_are_types();
    let data = payload(unread, encoding, boxes);
    assert(data.skip(12) =~= boxes);
    assert(data[8] == encoding[0] && data[9] == encoding[1] && data[10] == encoding[2] && data[11]
        == encoding[3]);
    assert(be32_at(data, 8) == be32_at(encoding, 0));
    if be32_at(encoding, 0) == TYPE_RAW {
        letters_differ(encoding, text::ascii("raw "));
    }
    if be32_at(encoding, 0) == TYPE_DFL8 {
        letters_differ(encoding, text::ascii("dfl8"));
    }
    assert(data.update(0, version)[0] == version);
}

/// Whether a box holds a projection's payload.
pub open spec fn is_payload_box(p: Parcel) -> bool {
    p.kind == text::ascii("mshp") || p.kind == text::ascii("ytmp")
}

proof fn a_later_box_projects(data: Seq<u8>, at: int)
    requires
        is_box(data, at),
        box_type(data, at) != TYPE_MSHP,
        box_type(data, at) != TYPE_YTMP,
    ensures
        projection_from(data, at) == projection_from(data, box_end(data, at)),
{
}

proof fn this_box_projects(data: Seq<u8>, at: int, contents: Seq<u8>)
    requires
        is_box(data, at),
        box_type(data, at) == TYPE_MSHP || box_type(data, at) == TYPE_YTMP,
        box_contents(data, at) == contents,
    ensures
        projection_from(data, at) == (match mshp_of(contents) {
            Some(meshes) if meshes.len() > 0 => Some(meshes),
            _ => None,
        }),
{
}

proof fn other_boxes_are_passed_over(
    data: Seq<u8>,
    front: Seq<u8>,
    parcels: Seq<Parcel>,
    last: Seq<u8>,
)
    requires
        forall|i: int|
            0 <= i < parcels.len() ==> is_parcel(#[trigger] parcels[i]) && !is_payload_box(parcels[i]),
        data == front + written(parcels) + last,
    ensures
        projection_from(data, front.len() as int) == projection_from(
            data,
            (front.len() + written(parcels).len()) as int,
        ),
    decreases parcels.len(),
{
    let at = front.len() as int;
    if parcels.len() > 0 {
        let q = parcels[0];
        let rest = parcels.skip(1);
        let b = boxed(q.kind, q.contents);
        assert(is_parcel(q) && !is_payload_box(q));
        letters_tell(q.kind);
        joined_either_way(front, b, written(rest), last);
        a_written_box_is_there(data, front, q, written(rest) + last);
        assert forall|i: int| 0 <= i < rest.len() implies is_parcel(#[trigger] rest[i])
            && !is_payload_box(rest[i]) by {
            assert(rest[i] == parcels[i + 1]);
        }
        a_later_box_projects(data, at);
        assert((front + b).len() == box_end(data, at));
        other_boxes_are_passed_over(data, front + b, rest, last);
        assert((front + b).len() + written(rest).len() == at + written(parcels).len());
    }
}

/// A projection is the first `mshp` or `ytmp` box in a `proj` box: whatever boxes come before it are
/// passed over, nothing after it is looked at, and without a mesh it is none.
pub proof fn a_written_projection_is_read(
    size: Seq<u8>,
    parcels: Seq<Parcel>,
    p: Parcel,
    back: Seq<u8>,
)
    requires
        size.len() == 4,
        forall|i: int|
            0 <= i < parcels.len() ==> is_parcel(#[trigger] parcels[i]) && !is_payload_box(parcels[i]),
        is_parcel(p),
        is_payload_box(p),
    ensures
        projection_of(
            size + text::ascii("proj") + written(parcels) + boxed(p.kind, p.contents) + back,
        ) == (match mshp_of(p.contents) {
            Some(meshes) if meshes.len() > 0 => Some(meshes),
            _ => None,
        }),
{
    letters_are_types();
    let front = size + text::ascii("proj");
    let data = front + written(parcels) + boxed(p.kind, p.contents) + back;
    assert(data[4] == text::ascii("proj")[0] && data[5] == text::ascii("proj")[1] && data[6]
        == text::ascii("proj")[2] && data[7] == text::ascii("proj")[3]);
    assert(be32_at(data, 4) == TYPE_PROJ);
    assert(data =~= front + written(parcels) + (boxed(p.kind, p.contents) + back));
    other_boxes_are_passed_over(data, front, parcels, boxed(p.kind, p.contents) + back);
    letters_tell(p.kind);
    a_written_box_is_there(data, front + written(parcels), p, back);
    this_box_projects(data, (front + written(parcels)).len() as int, p.contents);
}

/// What is not labelled `proj` projects nothing.
pub proof fn only_projections_are_read(data: Seq<u8>)
    requires
        projection_of(data) is Some,
    ensures
        data.len() >= 8,
        data.subrange(4, 8) == text::ascii("proj"),
{
    letters_are_types();
    let label = data.subrange(4, 8);
    assert(be32_at(label, 0) == be32_at(data, 4));
    letters_differ(label, text::ascii("proj"));
}

/// Whether every value of a run stands in a pool.
pub open spec fn drawn_from(run: Run, pool: Seq<u32>) -> bool {
    forall|i: int| 0 <= i < run.vertices.len() ==> pool.contains(#[trigger] run.vertices[i])
}

proof fn runs_are_drawn_from_the_pool(data: Seq<u8>, at: int, n: nat, pool: Seq<u32>, k: int)
    requires
        runs_from(data, at, n, pool) matches Some(runs) && 0 <= k < runs.len(),
    ensures
        runs_from(data, at, n, pool)->Some_0.len() == n,
        drawn_from(runs_from(data, at, n, pool)->Some_0[k], pool),
        runs_from(data, at, n, pool)->Some_0[k].vertices.len() % 5 == 0,
        0 < runs_from(data, at, n, pool)->Some_0[k].vertices.len() <= 5 * MAX_TRIANGLE_INDICES,
    decreases n,
{
    let (run, next) = run_at(data, at, pool)->Some_0;
    let rest = runs_from(data, next, (n - 1) as nat, pool)->Some_0;
    if k == 0 {
        let count = pool.len() as int / 5;
        let width = ceil_log2((2 * count) as nat);
        assert forall|i: int| 0 <= i < run.vertices.len() implies pool.contains(
            #[trigger] run.vertices[i],
        ) by {
            let index = chained(data, at + 48, width, 1, i / 5);
            assert(0 <= index < count);
            assert(run.vertices[i] == pool[5 * index + i % 5]);
        }
        if rest.len() > 0 {
            runs_are_drawn_from_the_pool(data, next, (n - 1) as nat, pool, 0);
        } else if n > 1 {
            assert(runs_from(data, next, (n - 1) as nat, pool)->Some_0.len() > 0);
        }
    } else {
        runs_are_drawn_from_the_pool(data, next, (n - 1) as nat, pool, k - 1);
    }
}

/// The coordinates of a `mesh` box.
pub open spec fn coordinates_of(data: Seq<u8>) -> Seq<u32> {
    Seq::new(be32_at(data, 0) as nat, |i: int| be32_at(data, 4 + 4 * i))
}

/// Nothing is drawn that the file does not hold: every value of every run of a parsed mesh is one
/// of the file's own coordinates, runs come in whole vertices, and none is empty or beyond the
/// limit.
pub proof fn a_mesh_draws_only_its_own_coordinates(data: Seq<u8>, k: int)
    requires
        mesh_of(data) matches Some(runs) && 0 <= k < runs.len(),
    ensures
        drawn_from(mesh_of(data)->Some_0[k], coordinates_of(data)),
        mesh_of(data)->Some_0[k].vertices.len() % 5 == 0,
        0 < mesh_of(data)->Some_0[k].vertices.len() <= 5 * MAX_TRIANGLE_INDICES,
{
    let count = be32_at(data, 0);
    let vertex_count = be32_at(data, 4 + 4 * count);
    let at = 8 * (8 + 4 * count);
    let width = ceil_log2(2 * count as nat);
    let list = (at + width * (5 * vertex_count) + 7) / 8 * 8;
    let n = bits_value(data, list, 32);
    let pool = vertices_of(data, count as int, vertex_count as int)->Some_0;
    runs_are_drawn_from_the_pool(data, list + 32, n, pool, k);
    let run = mesh_of(data)->Some_0[k];
    let coordinates = coordinates_of(data);
    assert forall|i: int| 0 <= i < run.vertices.len() implies coordinates.contains(
        #[trigger] run.vertices[i],
    ) by {
        let t = choose|t: int| 0 <= t < pool.len() && pool[t] == run.vertices[i];
        let index = chained(data, at, width, 5, t);
        assert(0 <= index < count);
        assert(coordinates[index] == pool[t]);
    }
}

/// A deflated payload projects what its inflated bytes project when they are stored raw.
pub proof fn deflated_projects_as_raw(deflated: Seq<u8>, raw: Seq<u8>, bytes: Seq<u8>)
    requires
        deflated.len() >= 12,
        raw.len() >= 12,
        deflated[0] == 0,
        raw[0] == 0,
        be32_at(deflated, 8) == TYPE_DFL8,
        be32_at(raw, 8) == TYPE_RAW,
        raw.skip(12) == bytes,
        inflated(deflated.skip(12), MAX_INFLATED_BYTES) == Some(bytes),
    ensures
        mshp_of(deflated) == mshp_of(raw),
{
}

/// Whatever is projected has at least one mesh to draw.
pub proof fn a_projection_has_a_mesh(data: Seq<u8>)
    requires
        projection_of(data) is Some,
    ensures
        projection_of(data)->Some_0.len() > 0,
{
    projection_from_has_a_mesh(data, 8);
}

proof fn projection_from_has_a_mesh(data: Seq<u8>, at: int)
    requires
        projection_from(data, at) is Some,
    ensures
        projection_from(data, at)->Some_0.len() > 0,
    decreases data.len() - at,
{
    if box_type(data, at) != TYPE_MSHP && box_type(data, at) != TYPE_YTMP {
        projection_from_has_a_mesh(data, box_end(data, at));
    }
}

} // verus!
