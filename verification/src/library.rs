//! Working out how a library's files are packed, a listing at a time.
//!
//! A media centre answers a browse with hundreds or thousands of entries, and each one has to be
//! turned into a geometry and a packing before anything can be drawn. The answer comes from two
//! places: what the catalogue says, which is authoritative when it says anything at all, and what
//! the name and the frame's shape suggest, which is a guess and is usually all there is.
use crate::pano;
use crate::text;
use vstd::prelude::*;
use vstd::string::*;

verus! {

/// Where a reading of a file came from.
#[derive(Clone, Copy, PartialEq, Eq, PartialOrd, Ord, Debug, Structural)]
pub enum Verdict {
    /// Inferred from the file name and the shape of the frame.
    Guessed,
    /// Read from a catalogue that scanned the file.
    Catalogued,
    /// Read from the file's own metadata.
    Declared,
    /// Chosen by the person looking at the result, who can see it.
    Chosen,
}

impl Verdict {
    /// The number that stands for the verdict, weakest to strongest.
    pub open spec fn rank(self) -> int {
        match self {
            Verdict::Guessed => 0,
            Verdict::Catalogued => 1,
            Verdict::Declared => 2,
            Verdict::Chosen => 3,
        }
    }
}

impl Default for Verdict {
    fn default() -> (v: Verdict)
        ensures
            v == Verdict::Guessed,
    {
        Verdict::Guessed
    }
}

/// How a file maps onto geometry, and how confidently that is known.
#[derive(Clone, Copy, PartialEq, Eq, Debug, Structural)]
pub struct Format {
    /// Where each eye's picture sits; [`crate::pano::StereoLayout`] as a raw value.
    pub packing: u32,
    /// How much world the picture covers; [`crate::pano::Projection`] as a raw value.
    pub projection: u32,
    /// Whether the eyes are the other way round from what the packing implies.
    pub swap_eyes: bool,
    /// [`crate::pano::AnaglyphPair`] as a raw value; only meaningful when the packing is anaglyph.
    pub anaglyph_pair: u32,
    /// Where the answer came from. Weakest to strongest, which is what decides who wins when two
    /// sources disagree.
    pub verdict: Verdict,
}

impl Default for Format {
    fn default() -> (f: Format)
        ensures
            f == (Format {
                packing: 0,
                projection: 0,
                swap_eyes: false,
                anaglyph_pair: 0,
                verdict: Verdict::Guessed,
            }),
    {
        Format {
            packing: 0,
            projection: 0,
            swap_eyes: false,
            anaglyph_pair: 0,
            verdict: Verdict::Guessed,
        }
    }
}

impl Format {
    /// The word that stands for a format: three bits of packing, three of projection, one for the
    /// swapped eyes, two of colours and two of verdict, from the least significant up.
    pub open spec fn word(self) -> u32 {
        (self.packing % 8 + 8 * (self.projection % 8) + 64 * (if self.swap_eyes {
            1int
        } else {
            0int
        }) + 128 * (self.anaglyph_pair % 4) + 512 * self.verdict.rank()) as u32
    }

    /// The format that a word stands for.
    pub open spec fn of_word(word: u32) -> Format {
        Format {
            packing: word % 8,
            projection: word / 8 % 8,
            swap_eyes: word / 64 % 2 == 1,
            anaglyph_pair: word / 128 % 4,
            verdict: match word / 512 % 4 {
                1 => Verdict::Catalogued,
                2 => Verdict::Declared,
                3 => Verdict::Chosen,
                _ => Verdict::Guessed,
            },
        }
    }

    /// Packs into one word, so a batch of answers is one buffer of them.
    pub fn pack(self) -> (word: u32)
        ensures
            word == self.word(),
    {
        let swap: u32 = if self.swap_eyes {
            1
        } else {
            0
        };
        let verdict: u32 = match self.verdict {
            Verdict::Guessed => 0,
            Verdict::Catalogued => 1,
            Verdict::Declared => 2,
            Verdict::Chosen => 3,
        };
        self.packing % 8 + 8 * (self.projection % 8) + 64 * swap + 128 * (self.anaglyph_pair % 4)
            + 512 * verdict
    }

    /// The inverse of [`Format::pack`].
    pub fn unpack(word: u32) -> (format: Format)
        ensures
            format == Format::of_word(word),
    {
        Format {
            packing: word % 8,
            projection: word / 8 % 8,
            swap_eyes: word / 64 % 2 == 1,
            anaglyph_pair: word / 128 % 4,
            verdict: match word / 512 % 4 {
                1 => Verdict::Catalogued,
                2 => Verdict::Declared,
                3 => Verdict::Chosen,
                _ => Verdict::Guessed,
            },
        }
    }

    /// Whether every field fits the bits it is given.
    pub open spec fn fits(self) -> bool {
        self.packing < 8 && self.projection < 8 && self.anaglyph_pair < 4
    }
}

/// Packing and unpacking a format is the identity, and a word uses eleven bits of thirty-two.
pub proof fn a_format_survives_its_word(f: Format)
    ensures
        f.fits() ==> Format::of_word(f.word()) == f,
        f.word() < 2048,
        Format::of_word(f.word()).fits(),
{
    let a = f.packing % 8;
    let b = f.projection % 8;
    let s = if f.swap_eyes {
        1u32
    } else {
        0u32
    };
    let p = f.anaglyph_pair % 4;
    let v = f.verdict.rank() as u32;
    let w = f.word();
    assert(w == a + 8 * b + 64 * s + 128 * p + 512 * v);
    assert(w < 2048 && w % 8 == a && w / 8 % 8 == b && w / 64 % 2 == s && w / 128 % 4 == p && w / 512
        % 4 == v) by (bit_vector)
        requires
            w == a + 8 * b + 64 * s + 128 * p + 512 * v,
            a < 8,
            b < 8,
            s < 2,
            p < 4,
            v < 4,
    ;
}

/// Unpacking and packing keeps the eleven bits that are used, so that bits added above them do not
/// disturb a reader of the ones below.
pub proof fn a_word_survives_its_format(word: u32)
    ensures
        Format::of_word(word).word() == word % 2048,
        Format::of_word(word).fits(),
{
    assert(word % 8 + 8 * (word / 8 % 8) + 64 * (word / 64 % 2) + 128 * (word / 128 % 4) + 512 * (word
        / 512 % 4) == word % 2048) by (bit_vector);
    let f = Format::of_word(word);
    assert(f.verdict.rank() == word / 512 % 4);
    assert(f.packing % 8 == word % 8 && f.projection % 8 == word / 8 % 8 && f.anaglyph_pair % 4 == word
        / 128 % 4);
}

/// Packings, as [`crate::pano::StereoLayout`] numbers them.
pub const MONO: u32 = 0;

/// See [`MONO`].
pub const OVER_UNDER: u32 = 1;

/// See [`MONO`].
pub const SIDE_BY_SIDE: u32 = 2;

/// See [`MONO`].
pub const ANAGLYPH: u32 = 3;

/// See [`MONO`].
pub const ROW_INTERLEAVED: u32 = 4;

/// Projections, as [`crate::pano::Projection`] numbers them.
pub const EQUIRECT_360: u32 = 0;

/// See [`EQUIRECT_360`].
pub const EQUIRECT_180: u32 = 1;

/// See [`EQUIRECT_360`].
pub const FLAT: u32 = 2;

/// Lower case, for ASCII, and identity for everything else.
pub open spec fn folded_byte(byte: u8) -> u8 {
    if 0x41 <= byte <= 0x5a {
        (byte + 0x20) as u8
    } else {
        byte
    }
}

/// A string in lower case, for ASCII.
pub open spec fn folded(s: Seq<u8>) -> Seq<u8> {
    s.map_values(|b: u8| folded_byte(b))
}

/// Lower case, for ASCII, and identity for everything else.
pub fn fold(byte: u8) -> (lowered: u8)
    ensures
        lowered == folded_byte(byte),
{
    if 0x41 <= byte && byte <= 0x5a {
        byte + 0x20
    } else {
        byte
    }
}

/// Which bit of a signature a byte claims. Letters, digits and the three punctuation marks that
/// appear in the markers get their own; everything else shares the last.
pub open spec fn bit_index(byte: u8) -> u64 {
    let lowered = folded_byte(byte);
    if 0x61 <= lowered <= 0x7a {
        (lowered - 0x61) as u64
    } else if 0x30 <= lowered <= 0x39 {
        (26 + lowered - 0x30) as u64
    } else if lowered == 0x5f {
        36
    } else if lowered == 0x2d {
        37
    } else if lowered == 0x2e {
        38
    } else {
        39
    }
}

/// The bits that the bytes of a string claim.
pub open spec fn claimed_bits(s: Seq<u8>) -> u64
    decreases s.len(),
{
    if s.len() == 0 {
        0
    } else {
        claimed_bits(s.drop_last()) | (1u64 << bit_index(s.last()))
    }
}

/// Whether a string with these bits could hold one with those: no bit is claimed there that is not
/// claimed here.
pub open spec fn may_hold(bits: u64, needle_bits: u64) -> bool {
    needle_bits & !bits == 0
}

/// A one-word summary of which characters a string contains.
///
/// A marker whose signature has a bit the name's does not **cannot** be in the name, so the
/// rejection is certain and the scan is skipped. The reverse is not certain, and a false positive
/// costs only the scan that would have happened anyway.
#[derive(Clone, Copy, PartialEq, Eq, Debug, Structural)]
pub struct Signature(u64);

impl Default for Signature {
    fn default() -> (s: Signature)
        ensures
            s.bits() == 0,
    {
        Signature(0)
    }
}

impl Signature {
    /// The bits that are claimed.
    pub closed spec fn bits(self) -> u64 {
        self.0
    }

    fn bit(byte: u8) -> (bit: u64)
        ensures
            bit == 1u64 << bit_index(byte),
    {
        let lowered: u8 = fold(byte);
        let index: u64 = if 0x61 <= lowered && lowered <= 0x7a {
            (lowered - 0x61) as u64
        } else if 0x30 <= lowered && lowered <= 0x39 {
            26 + (lowered - 0x30) as u64
        } else if lowered == 0x5f {
            36
        } else if lowered == 0x2d {
            37
        } else if lowered == 0x2e {
            38
        } else {
            39
        };
        1u64 << index
    }

    /// The signature of a string.
    pub fn of(bytes: &[u8]) -> (s: Signature)
        ensures
            s.bits() == claimed_bits(bytes@),
    {
        let mut mask: u64 = 0;
        let mut i: usize = 0;
        while i < bytes.len()
            invariant
                i <= bytes@.len(),
                mask == claimed_bits(bytes@.subrange(0, i as int)),
            decreases bytes@.len() - i,
        {
            mask = mask | Signature::bit(bytes[i]);
            i += 1;
            assert(bytes@.subrange(0, i as int).drop_last() =~= bytes@.subrange(0, i - 1));
        }
        assert(bytes@.subrange(0, i as int) =~= bytes@);
        Signature(mask)
    }

    /// Whether `needle` could possibly occur in a string with this signature.
    pub fn may_contain(self, needle: Signature) -> (b: bool)
        ensures
            b == may_hold(self.bits(), needle.bits()),
    {
        needle.0 & !self.0 == 0
    }
}

/// Whether a lower-case needle stands in the haystack at `start`, ignoring the haystack's case.
pub open spec fn stands_at(haystack: Seq<u8>, needle: Seq<u8>, start: int) -> bool {
    &&& 0 <= start
    &&& start + needle.len() <= haystack.len()
    &&& folded(haystack.subrange(start, start + needle.len())) == needle
}

/// Whether the haystack contains a lower-case needle, ignoring the haystack's case. Nothing
/// contains the empty needle.
pub open spec fn holds(haystack: Seq<u8>, needle: Seq<u8>) -> bool {
    needle.len() > 0 && exists|start: int| stands_at(haystack, needle, start)
}

/// Whether two strings are the same, ignoring the first one's case. `expected` must already be
/// lower case to be matched at all.
pub fn eq_fold(actual: &[u8], expected: &[u8]) -> (b: bool)
    ensures
        b == (folded(actual@) == expected@),
{
    if actual.len() != expected.len() {
        return false;
    }
    let mut i: usize = 0;
    while i < actual.len()
        invariant
            actual@.len() == expected@.len(),
            i <= actual@.len(),
            forall|k: int| 0 <= k < i ==> folded_byte(actual@[k]) == expected@[k],
        decreases actual@.len() - i,
    {
        if fold(actual[i]) != expected[i] {
            assert(folded(actual@)[i as int] != expected@[i as int]);
            return false;
        }
        i += 1;
    }
    assert(folded(actual@) =~= expected@);
    true
}

/// Whether `haystack` contains `needle`, comparing case-insensitively without folding either into
/// a new buffer.
///
/// `needle` must already be lower case, which every marker here is.
pub fn contains_fold(haystack: &[u8], needle: &[u8]) -> (b: bool)
    ensures
        b == holds(haystack@, needle@),
{
    if needle.len() == 0 || needle.len() > haystack.len() {
        return false;
    }
    let limit: usize = haystack.len() - needle.len();
    let mut start: usize = 0;
    loop
        invariant
            0 < needle@.len() <= haystack@.len(),
            limit == haystack@.len() - needle@.len(),
            start <= limit,
            forall|k: int| 0 <= k < start ==> !stands_at(haystack@, needle@, k),
        decreases limit - start,
    {
        if fold(haystack[start]) == needle[0] {
            let part = vstd::slice::slice_subrange(haystack, start, start + needle.len());
            if eq_fold(part, needle) {
                assert(stands_at(haystack@, needle@, start as int));
                return true;
            }
        } else {
            assert(folded(haystack@.subrange(start as int, start + needle@.len()))[0] != needle@[0]);
        }
        assert(!stands_at(haystack@, needle@, start as int));
        if start == limit {
            return false;
        }
        start += 1;
    }
}

proof fn every_byte_claims_its_bit(s: Seq<u8>, k: int)
    requires
        0 <= k < s.len(),
    ensures
        may_hold(claimed_bits(s), 1u64 << bit_index(s[k])),
    decreases s.len(),
{
    let before = claimed_bits(s.drop_last());
    let last = 1u64 << bit_index(s.last());
    let bit = 1u64 << bit_index(s[k]);
    if k == s.len() - 1 {
        assert(bit & !(before | bit) == 0) by (bit_vector);
    } else {
        every_byte_claims_its_bit(s.drop_last(), k);
        assert(bit & !before == 0 ==> bit & !(before | last) == 0) by (bit_vector);
    }
}

proof fn bits_of_all_bytes(s: Seq<u8>, bits: u64)
    requires
        forall|k: int| 0 <= k < s.len() ==> may_hold(bits, 1u64 << bit_index(#[trigger] s[k])),
    ensures
        may_hold(bits, claimed_bits(s)),
    decreases s.len(),
{
    if s.len() == 0 {
        assert(0u64 & !bits == 0) by (bit_vector);
    } else {
        let before = claimed_bits(s.drop_last());
        let last = 1u64 << bit_index(s.last());
        assert forall|k: int| 0 <= k < s.drop_last().len() implies may_hold(
            bits,
            1u64 << bit_index(#[trigger] s.drop_last()[k]),
        ) by {
            assert(s.drop_last()[k] == s[k]);
        }
        bits_of_all_bytes(s.drop_last(), bits);
        assert(before & !bits == 0 && last & !bits == 0 ==> (before | last) & !bits == 0)
            by (bit_vector);
    }
}

/// A signature never rejects a substring that is there.
pub proof fn a_signature_never_rejects_what_is_there(haystack: Seq<u8>, needle: Seq<u8>)
    requires
        holds(haystack, needle),
    ensures
        may_hold(claimed_bits(haystack), claimed_bits(needle)),
{
    let start = choose|start: int| stands_at(haystack, needle, start);
    let part = haystack.subrange(start, start + needle.len());
    assert forall|k: int| 0 <= k < needle.len() implies may_hold(
        claimed_bits(haystack),
        1u64 << bit_index(#[trigger] needle[k]),
    ) by {
        assert(folded(part)[k] == needle[k]);
        assert(part[k] == haystack[start + k]);
        every_byte_claims_its_bit(haystack, start + k);
    }
    bits_of_all_bytes(needle, claimed_bits(haystack));
}

/// A signature is its bits: two that claim the same are the same.
pub proof fn a_signature_is_its_bits(a: Signature, b: Signature)
    ensures
        a == b <==> a.bits() == b.bits(),
{
}

/// Names made of the same characters have the same signature, whatever their order, their case and how
/// often each occurs.
pub proof fn the_same_characters_sign_the_same(
    a: Seq<u8>,
    b: Seq<u8>,
    of_a: Signature,
    of_b: Signature,
)
    requires
        forall|k: int|
            0 <= k < a.len() ==> exists|j: int|
                0 <= j < b.len() && folded_byte(b[j]) == folded_byte(#[trigger] a[k]),
        forall|k: int|
            0 <= k < b.len() ==> exists|j: int|
                0 <= j < a.len() && folded_byte(a[j]) == folded_byte(#[trigger] b[k]),
        of_a.bits() == claimed_bits(a),
        of_b.bits() == claimed_bits(b),
    ensures
        of_a == of_b,
{
    let (x, y) = (claimed_bits(a), claimed_bits(b));
    assert forall|k: int| 0 <= k < a.len() implies may_hold(
        y,
        1u64 << bit_index(#[trigger] a[k]),
    ) by {
        let j = choose|j: int| 0 <= j < b.len() && folded_byte(b[j]) == folded_byte(a[k]);
        every_byte_claims_its_bit(b, j);
    }
    bits_of_all_bytes(a, y);
    assert forall|k: int| 0 <= k < b.len() implies may_hold(
        x,
        1u64 << bit_index(#[trigger] b[k]),
    ) by {
        let j = choose|j: int| 0 <= j < a.len() && folded_byte(a[j]) == folded_byte(b[k]);
        every_byte_claims_its_bit(a, j);
    }
    bits_of_all_bytes(b, x);
    assert(x & !y == 0 && y & !x == 0 ==> x == y) by (bit_vector);
}

/// A substring that means something, and the signature that lets it be skipped.
#[derive(Clone, Copy)]
pub struct Marker {
    pub needle: &'static [u8],
    pub signature: Signature,
}

impl Marker {
    /// Whether this is the marker for a needle.
    pub open spec fn marks(self, needle: Seq<u8>) -> bool {
        self.needle@ == needle && self.signature.bits() == claimed_bits(needle)
    }

    fn new(needle: &'static str) -> (m: Marker)
        requires
            is_ascii(needle),
        ensures
            m.marks(text::ascii(needle)),
    {
        let needle = text::ascii_bytes(needle);
        Marker { needle, signature: Signature::of(needle) }
    }
}

/// Whether some markers are the ones for some needles, in order.
pub open spec fn marks_all(markers: Seq<Marker>, needles: Seq<Seq<u8>>) -> bool {
    &&& markers.len() == needles.len()
    &&& forall|i: int| 0 <= i < needles.len() ==> (#[trigger] markers[i]).marks(needles[i])
}

/// What cameras and editors write into a name when the eyes are stacked.
pub open spec fn over_under_names() -> Seq<Seq<u8>> {
    seq![
        text::ascii("_tb"),
        text::ascii("-tb"),
        text::ascii("_ou"),
        text::ascii("-ou"),
        text::ascii("overunder"),
        text::ascii("over-under"),
        text::ascii("topbottom"),
        text::ascii("top-bottom"),
        text::ascii("3dv"),
    ]
}

/// What cameras and editors write into a name when the eyes are side by side.
pub open spec fn side_by_side_names() -> Seq<Seq<u8>> {
    seq![
        text::ascii("_sbs"),
        text::ascii("-sbs"),
        text::ascii("_lr"),
        text::ascii("-lr"),
        text::ascii("sidebyside"),
        text::ascii("side-by-side"),
        text::ascii("3dh"),
    ]
}

/// What stands in the name of a hemisphere.
pub open spec fn vr180_names() -> Seq<Seq<u8>> {
    seq![
        text::ascii("vr180"),
        text::ascii("_180"),
        text::ascii("-180"),
        text::ascii("180x180"),
        text::ascii("half-sphere"),
    ]
}

/// What stands in the name of a sphere.
pub open spec fn panorama_names() -> Seq<Seq<u8>> {
    seq![
        text::ascii("360"),
        text::ascii("equirect"),
        text::ascii("spherical"),
        text::ascii("_vr."),
        text::ascii("-vr."),
        text::ascii("insta360"),
        text::ascii("theta"),
    ]
}

/// The markers of stacked eyes.
pub fn over_under_markers() -> (m: [Marker; 9])
    ensures
        marks_all(m@, over_under_names()),
{
    proof {
        reveal_strlit("_tb");
        reveal_strlit("-tb");
        reveal_strlit("_ou");
        reveal_strlit("-ou");
        reveal_strlit("overunder");
        reveal_strlit("over-under");
        reveal_strlit("topbottom");
        reveal_strlit("top-bottom");
        reveal_strlit("3dv");
    }
    [
        Marker::new("_tb"),
        Marker::new("-tb"),
        Marker::new("_ou"),
        Marker::new("-ou"),
        Marker::new("overunder"),
        Marker::new("over-under"),
        Marker::new("topbottom"),
        Marker::new("top-bottom"),
        Marker::new("3dv"),
    ]
}

/// The markers of eyes side by side.
pub fn side_by_side_markers() -> (m: [Marker; 7])
    ensures
        marks_all(m@, side_by_side_names()),
{
    proof {
        reveal_strlit("_sbs");
        reveal_strlit("-sbs");
        reveal_strlit("_lr");
        reveal_strlit("-lr");
        reveal_strlit("sidebyside");
        reveal_strlit("side-by-side");
        reveal_strlit("3dh");
    }
    [
        Marker::new("_sbs"),
        Marker::new("-sbs"),
        Marker::new("_lr"),
        Marker::new("-lr"),
        Marker::new("sidebyside"),
        Marker::new("side-by-side"),
        Marker::new("3dh"),
    ]
}

/// The markers of a hemisphere.
pub fn vr180_markers() -> (m: [Marker; 5])
    ensures
        marks_all(m@, vr180_names()),
{
    proof {
        reveal_strlit("vr180");
        reveal_strlit("_180");
        reveal_strlit("-180");
        reveal_strlit("180x180");
        reveal_strlit("half-sphere");
    }
    [
        Marker::new("vr180"),
        Marker::new("_180"),
        Marker::new("-180"),
        Marker::new("180x180"),
        Marker::new("half-sphere"),
    ]
}

/// The markers of a sphere.
pub fn panorama_markers() -> (m: [Marker; 7])
    ensures
        marks_all(m@, panorama_names()),
{
    proof {
        reveal_strlit("360");
        reveal_strlit("equirect");
        reveal_strlit("spherical");
        reveal_strlit("_vr.");
        reveal_strlit("-vr.");
        reveal_strlit("insta360");
        reveal_strlit("theta");
    }
    [
        Marker::new("360"),
        Marker::new("equirect"),
        Marker::new("spherical"),
        Marker::new("_vr."),
        Marker::new("-vr."),
        Marker::new("insta360"),
        Marker::new("theta"),
    ]
}

/// Whether a needle is found in a name by way of a signature: the signature has to let it through,
/// and the name has to contain it.
pub open spec fn found(name: Seq<u8>, bits: u64, needle: Seq<u8>) -> bool {
    may_hold(bits, claimed_bits(needle)) && holds(name, needle)
}

/// Whether any of the needles is found in a name by way of a signature.
pub open spec fn found_any(name: Seq<u8>, bits: u64, needles: Seq<Seq<u8>>) -> bool {
    exists|i: int| 0 <= i < needles.len() && found(name, bits, #[trigger] needles[i])
}

/// By way of a name's own signature, exactly what the name contains is found.
pub proof fn a_names_own_signature_hides_nothing(name: Seq<u8>, needles: Seq<Seq<u8>>)
    ensures
        found_any(name, claimed_bits(name), needles) <==> exists|i: int|
            0 <= i < needles.len() && holds(name, #[trigger] needles[i]),
{
    assert forall|i: int| 0 <= i < needles.len() && holds(name, #[trigger] needles[i]) implies found(
        name,
        claimed_bits(name),
        needles[i],
    ) by {
        a_signature_never_rejects_what_is_there(name, needles[i]);
    }
}

/// Whether any marker in `markers` occurs in a name with this signature.
fn any_marker(
    name: &[u8],
    signature: Signature,
    markers: &[Marker],
    Ghost(needles): Ghost<Seq<Seq<u8>>>,
) -> (b: bool)
    requires
        marks_all(markers@, needles),
    ensures
        b == found_any(name@, signature.bits(), needles),
{
    let mut i: usize = 0;
    while i < markers.len()
        invariant
            marks_all(markers@, needles),
            i <= markers@.len(),
            forall|k: int|
                0 <= k < i ==> !found(name@, signature.bits(), #[trigger] needles[k]),
        decreases markers@.len() - i,
    {
        let marker = markers[i];
        assert(marker.marks(needles[i as int]));
        if signature.may_contain(marker.signature) && contains_fold(name, marker.needle) {
            assert(found(name@, signature.bits(), needles[i as int]));
            return true;
        }
        i += 1;
    }
    false
}

/// How far apart neighbouring whole single-precision numbers are around `n`: they keep 24
/// significant bits.
pub open spec fn single_step(n: int) -> int {
    if n < 0x100_0000 {
        1
    } else if n < 0x200_0000 {
        2
    } else if n < 0x400_0000 {
        4
    } else if n < 0x800_0000 {
        8
    } else if n < 0x1000_0000 {
        16
    } else if n < 0x2000_0000 {
        32
    } else if n < 0x4000_0000 {
        64
    } else if n < 0x8000_0000 {
        128
    } else {
        256
    }
}

/// `n` as the nearest single-precision number, which is whole too; a tie goes to the even one.
pub open spec fn as_single(n: u32) -> int {
    let step = single_step(n as int);
    let below = n as int / step;
    let rest = n as int % step;
    if 2 * rest < step || (2 * rest == step && below % 2 == 0) {
        step * below
    } else {
        step * (below + 1)
    }
}

/// Up to 24 bits, a number is its own nearest single-precision number.
pub proof fn small_numbers_are_exact(n: u32)
    requires
        n < 0x100_0000,
    ensures
        as_single(n) == n,
{
}

fn to_single(n: u32) -> (v: u64)
    ensures
        v == as_single(n),
        v <= 0x1_0000_0000,
        n > 0 ==> v > 0,
{
    let step: u64 = if n < 0x100_0000 {
        1
    } else if n < 0x200_0000 {
        2
    } else if n < 0x400_0000 {
        4
    } else if n < 0x800_0000 {
        8
    } else if n < 0x1000_0000 {
        16
    } else if n < 0x2000_0000 {
        32
    } else if n < 0x4000_0000 {
        64
    } else if n < 0x8000_0000 {
        128
    } else {
        256
    };
    let below: u64 = n as u64 / step;
    let rest: u64 = n as u64 % step;
    assert(step * below + rest == n && step * (below + 1) == step * below + step) by (nonlinear_arith)
        requires
            below == n as u64 / step,
            rest == n as u64 % step,
            step > 0,
    ;
    assert(0 <= step * below) by (nonlinear_arith)
        requires
            step > 0,
            below >= 0,
    ;
    if 2 * rest < step || (2 * rest == step && below % 2 == 0) {
        step * below
    } else {
        proof {
            if step == 256 {
                assert(256 * (below + 1) <= 0x1_0000_0000);
            }
        }
        step * (below + 1)
    }
}

/// Whether the single-precision quotient of two numbers is more than 2.9, wider than Ultra
/// Panavision: the exact quotient lies above the middle between the single-precision number
/// nearest to 2.9 and the one after it.
pub open spec fn wider_than_any_picture(num: int, den: int) -> bool {
    num * 0x80_0000 > den * 24_326_965
}

/// Whether the single-precision quotient of two numbers is within 0.06 of two: the exact quotient
/// lies between the middles below the least such number and above the greatest, both included
/// because a tie goes to the even one.
pub open spec fn about_two(num: int, den: int) -> bool {
    den * 32_547_799 <= num * 0x100_0000 && num * 0x80_0000 <= den * 17_280_533
}

/// Whether the single-precision quotient of two numbers is within 0.06 of one, as [`about_two`]
/// says it of two.
pub open spec fn about_one(num: int, den: int) -> bool {
    den * 31_541_167 <= num * 0x200_0000 && num * 0x100_0000 <= den * 17_783_849
}

/// Where each eye's image sits, from the name first and the frame's shape second.
pub open spec fn guessed_packing(name: Seq<u8>, bits: u64, width: u32, height: u32) -> u32 {
    if found_any(name, bits, over_under_names()) {
        OVER_UNDER
    } else if found_any(name, bits, side_by_side_names()) {
        SIDE_BY_SIDE
    } else if width == 0 || height == 0 {
        MONO
    } else if as_single(width) < as_single(height) {
        OVER_UNDER
    } else if wider_than_any_picture(as_single(width), as_single(height)) {
        SIDE_BY_SIDE
    } else {
        MONO
    }
}

/// The aspect of one eye's picture, as a numerator and a denominator.
pub open spec fn eye_aspect(packing: u32, width: u32, height: u32) -> (int, int) {
    if packing == OVER_UNDER || packing == ROW_INTERLEAVED {
        (2 * as_single(width), as_single(height))
    } else if packing == SIDE_BY_SIDE {
        (as_single(width), 2 * as_single(height))
    } else {
        (as_single(width), as_single(height))
    }
}

/// How much world the picture covers: a screen, a hemisphere or a sphere.
pub open spec fn guessed_projection(
    name: Seq<u8>,
    bits: u64,
    packing: u32,
    width: u32,
    height: u32,
) -> u32 {
    let (num, den) = eye_aspect(packing, width, height);
    if found_any(name, bits, vr180_names()) {
        EQUIRECT_180
    } else if found_any(name, bits, panorama_names()) {
        EQUIRECT_360
    } else if width == 0 || height == 0 {
        FLAT
    } else if about_two(num, den) {
        EQUIRECT_360
    } else if packing != MONO && about_one(num, den) {
        EQUIRECT_180
    } else {
        FLAT
    }
}

/// Where each eye's image sits, from the name first and the frame's shape second.
///
/// The name comes first because it is the only place anyone ever *states* the answer. The shape is
/// only consulted for frames an ordinary picture never takes: taller than wide, or wider than any
/// cinema format.
pub fn packing_for(name: &[u8], signature: Signature, width: u32, height: u32) -> (packing: u32)
    ensures
        packing == guessed_packing(name@, signature.bits(), width, height),
{
    let over_under = over_under_markers();
    if any_marker(name, signature, over_under.as_slice(), Ghost(over_under_names())) {
        return OVER_UNDER;
    }
    let side_by_side = side_by_side_markers();
    if any_marker(name, signature, side_by_side.as_slice(), Ghost(side_by_side_names())) {
        return SIDE_BY_SIDE;
    }
    if width == 0 || height == 0 {
        return MONO;
    }
    let w: u64 = to_single(width);
    let h: u64 = to_single(height);
    if w < h {
        OVER_UNDER
    } else if w * 0x80_0000 > h * 24_326_965 {
        SIDE_BY_SIDE
    } else {
        MONO
    }
}

/// How much world the picture covers: a screen, a hemisphere or a sphere.
///
/// The default is a screen: most video is an ordinary picture, so a panorama has to be *shown*,
/// by a name that says so or by a frame whose shape is characteristic. One eye's worth of a full
/// sphere is 2:1 almost exactly, and one eye's worth of a hemisphere is square. The square case
/// additionally requires a stereo packing.
pub fn projection_for(
    name: &[u8],
    signature: Signature,
    packing: u32,
    width: u32,
    height: u32,
) -> (projection: u32)
    ensures
        projection == guessed_projection(name@, signature.bits(), packing, width, height),
{
    let vr180 = vr180_markers();
    if any_marker(name, signature, vr180.as_slice(), Ghost(vr180_names())) {
        return EQUIRECT_180;
    }
    let panorama = panorama_markers();
    if any_marker(name, signature, panorama.as_slice(), Ghost(panorama_names())) {
        return EQUIRECT_360;
    }
    if width == 0 || height == 0 {
        return FLAT;
    }
    let w: u64 = to_single(width);
    let h: u64 = to_single(height);
    let mut num: u64 = w;
    let mut den: u64 = h;
    if packing == OVER_UNDER || packing == ROW_INTERLEAVED {
        num = 2 * w;
    } else if packing == SIDE_BY_SIDE {
        den = 2 * h;
    }
    if den * 32_547_799 <= num * 0x100_0000 && num * 0x80_0000 <= den * 17_280_533 {
        EQUIRECT_360
    } else if packing != MONO && den * 31_541_167 <= num * 0x200_0000 && num * 0x100_0000 <= den
        * 17_783_849 {
        EQUIRECT_180
    } else {
        FLAT
    }
}

/// Whether a byte is ASCII white space: space, tab, line feed, form feed or carriage return.
pub open spec fn is_blank(byte: u8) -> bool {
    byte == 0x20 || byte == 0x09 || byte == 0x0a || byte == 0x0c || byte == 0x0d
}

/// A string without the white space at its ends.
pub open spec fn trimmed(s: Seq<u8>) -> Seq<u8>
    decreases s.len(),
{
    if s.len() == 0 {
        s
    } else if is_blank(s[0]) {
        trimmed(s.skip(1))
    } else if is_blank(s.last()) {
        trimmed(s.drop_last())
    } else {
        s
    }
}

fn blank(byte: u8) -> (b: bool)
    ensures
        b == is_blank(byte),
{
    byte == 0x20 || byte == 0x09 || byte == 0x0a || byte == 0x0c || byte == 0x0d
}

/// Cuts the white space off both ends.
pub fn trim(bytes: &[u8]) -> (t: &[u8])
    ensures
        t@ == trimmed(bytes@),
{
    let mut start: usize = 0;
    assert(bytes@.skip(0) =~= bytes@);
    while start < bytes.len() && blank(bytes[start])
        invariant
            start <= bytes@.len(),
            trimmed(bytes@) == trimmed(bytes@.skip(start as int)),
        decreases bytes@.len() - start,
    {
        assert(bytes@.skip(start as int).skip(1) =~= bytes@.skip(start + 1));
        start += 1;
    }
    let mut end: usize = bytes.len();
    assert(bytes@.subrange(start as int, end as int) =~= bytes@.skip(start as int));
    while end > start && blank(bytes[end - 1])
        invariant
            start <= end <= bytes@.len(),
            start < bytes@.len() ==> !is_blank(bytes@[start as int]),
            trimmed(bytes@) == trimmed(bytes@.subrange(start as int, end as int)),
        decreases end - start,
    {
        assert(bytes@.subrange(start as int, end as int).drop_last() =~= bytes@.subrange(
            start as int,
            end - 1,
        ));
        end -= 1;
    }
    vstd::slice::slice_subrange(bytes, start, end)
}

/// The packing, the swap and the colours that a stereo mode in lower case and without surrounding
/// white space states.
pub open spec fn named_mode(mode: Seq<u8>) -> Option<(u32, bool, u32)> {
    if mode == text::ascii("mono") {
        Some((MONO, false, 0))
    } else if mode == text::ascii("left_right") || mode == text::ascii("lr") || mode == text::ascii("sbs") || mode
        == text::ascii("side_by_side") {
        Some((SIDE_BY_SIDE, false, 0))
    } else if mode == text::ascii("right_left") || mode == text::ascii("rl") {
        Some((SIDE_BY_SIDE, true, 0))
    } else if mode == text::ascii("top_bottom") || mode == text::ascii("tb") || mode == text::ascii("over_under") {
        Some((OVER_UNDER, false, 0))
    } else if mode == text::ascii("bottom_top") {
        Some((OVER_UNDER, true, 0))
    } else if mode == text::ascii("row_interleaved_lr") {
        Some((ROW_INTERLEAVED, false, 0))
    } else if mode == text::ascii("row_interleaved_rl") {
        Some((ROW_INTERLEAVED, true, 0))
    } else if mode == text::ascii("anaglyph_cyan_red") {
        Some((ANAGLYPH, false, 0))
    } else if mode == text::ascii("anaglyph_green_magenta") {
        Some((ANAGLYPH, false, 1))
    } else if mode == text::ascii("anaglyph_yellow_blue") {
        Some((ANAGLYPH, false, 2))
    } else {
        None
    }
}

/// What a catalogue's stereo mode states, or `None` when it states nothing usable.
pub open spec fn catalogued_mode(mode: Seq<u8>) -> Option<(u32, bool, u32)> {
    named_mode(folded(trimmed(mode)))
}

fn is_named(mode: &[u8], name: &'static str) -> (b: bool)
    requires
        is_ascii(name),
    ensures
        b == (folded(mode@) == text::ascii(name)),
{
    eq_fold(mode, text::ascii_bytes(name))
}

proof fn mode_names_are_ascii()
    ensures
        is_ascii("mono"),
        is_ascii("left_right"),
        is_ascii("lr"),
        is_ascii("sbs"),
        is_ascii("side_by_side"),
        is_ascii("right_left"),
        is_ascii("rl"),
        is_ascii("top_bottom"),
        is_ascii("tb"),
        is_ascii("over_under"),
        is_ascii("bottom_top"),
        is_ascii("row_interleaved_lr"),
        is_ascii("row_interleaved_rl"),
        is_ascii("anaglyph_cyan_red"),
        is_ascii("anaglyph_green_magenta"),
        is_ascii("anaglyph_yellow_blue"),
        text::ascii("mono").len() > 0,
        text::ascii("left_right").len() > 0,
        text::ascii("lr").len() > 0,
        text::ascii("sbs").len() > 0,
        text::ascii("side_by_side").len() > 0,
        text::ascii("right_left").len() > 0,
        text::ascii("rl").len() > 0,
        text::ascii("top_bottom").len() > 0,
        text::ascii("tb").len() > 0,
        text::ascii("over_under").len() > 0,
        text::ascii("bottom_top").len() > 0,
        text::ascii("row_interleaved_lr").len() > 0,
        text::ascii("row_interleaved_rl").len() > 0,
        text::ascii("anaglyph_cyan_red").len() > 0,
        text::ascii("anaglyph_green_magenta").len() > 0,
        text::ascii("anaglyph_yellow_blue").len() > 0,
{
    reveal_strlit("mono");
    reveal_strlit("left_right");
    reveal_strlit("lr");
    reveal_strlit("sbs");
    reveal_strlit("side_by_side");
    reveal_strlit("right_left");
    reveal_strlit("rl");
    reveal_strlit("top_bottom");
    reveal_strlit("tb");
    reveal_strlit("over_under");
    reveal_strlit("bottom_top");
    reveal_strlit("row_interleaved_lr");
    reveal_strlit("row_interleaved_rl");
    reveal_strlit("anaglyph_cyan_red");
    reveal_strlit("anaglyph_green_magenta");
    reveal_strlit("anaglyph_yellow_blue");
}

/// The packing a catalogue's stereo mode states, whether the eyes are swapped, and the colours, or
/// `None` when it states nothing usable.
///
/// The vocabulary is Kodi's, which is also Matroska's. An absent or empty mode is not a finding.
/// Checkerboard and column-interleaved are real and are not handled: they fall through to
/// inference. The `_rl` and `bottom_top` variants come back as their `lr` counterpart with the eyes
/// swapped.
pub fn packing_for_stereo_mode(mode: &[u8]) -> (r: Option<(u32, bool, u32)>)
    ensures
        r == catalogued_mode(mode@),
{
    let mode = trim(mode);
    proof {
        mode_names_are_ascii();
    }
    if mode.len() == 0 {
        return None;
    }
    if is_named(mode, "mono") {
        return Some((MONO, false, 0));
    }
    if is_named(mode, "left_right") || is_named(mode, "lr") || is_named(mode, "sbs") || is_named(
        mode,
        "side_by_side",
    ) {
        return Some((SIDE_BY_SIDE, false, 0));
    }
    if is_named(mode, "right_left") || is_named(mode, "rl") {
        return Some((SIDE_BY_SIDE, true, 0));
    }
    if is_named(mode, "top_bottom") || is_named(mode, "tb") || is_named(mode, "over_under") {
        return Some((OVER_UNDER, false, 0));
    }
    if is_named(mode, "bottom_top") {
        return Some((OVER_UNDER, true, 0));
    }
    if is_named(mode, "row_interleaved_lr") {
        return Some((ROW_INTERLEAVED, false, 0));
    }
    if is_named(mode, "row_interleaved_rl") {
        return Some((ROW_INTERLEAVED, true, 0));
    }
    // Matroska's "cyan/red" is red/cyan here: the label reads left-then-right but the pixels do
    // not agree with it, and the pixels win.
    if is_named(mode, "anaglyph_cyan_red") {
        return Some((ANAGLYPH, false, 0));
    }
    if is_named(mode, "anaglyph_green_magenta") {
        return Some((ANAGLYPH, false, 1));
    }
    if is_named(mode, "anaglyph_yellow_blue") {
        return Some((ANAGLYPH, false, 2));
    }
    None
}

/// A mode of nothing but white space is an absence and not a reading.
pub proof fn a_blank_mode_states_nothing(mode: Seq<u8>)
    requires
        forall|i: int| 0 <= i < mode.len() ==> is_blank(#[trigger] mode[i]),
    ensures
        catalogued_mode(mode) is None,
{
    nothing_is_left_of_blanks(mode);
    mode_names_are_ascii();
    assert(folded(trimmed(mode)).len() == 0);
}

proof fn nothing_is_left_of_blanks(s: Seq<u8>)
    requires
        forall|i: int| 0 <= i < s.len() ==> is_blank(#[trigger] s[i]),
    ensures
        trimmed(s).len() == 0,
    decreases s.len(),
{
    if s.len() > 0 {
        assert forall|i: int| 0 <= i < s.skip(1).len() implies is_blank(#[trigger] s.skip(1)[i]) by {
            assert(s.skip(1)[i] == s[i + 1]);
        }
        nothing_is_left_of_blanks(s.skip(1));
    }
}

/// Everything that is inferred of one entry.
pub open spec fn inferred(name: Seq<u8>, mode: Seq<u8>, width: u32, height: u32) -> Format {
    let bits = claimed_bits(name);
    match catalogued_mode(mode) {
        Some((packing, swap_eyes, anaglyph_pair)) => Format {
            packing,
            projection: guessed_projection(name, bits, packing, width, height),
            swap_eyes,
            anaglyph_pair,
            verdict: Verdict::Catalogued,
        },
        None => {
            let packing = guessed_packing(name, bits, width, height);
            Format {
                packing,
                projection: guessed_projection(name, bits, packing, width, height),
                swap_eyes: false,
                anaglyph_pair: 0,
                verdict: Verdict::Guessed,
            }
        },
    }
}

/// Everything known about one entry, read once.
///
/// Where the catalogue scanned the file, its packing beats the name. The projection is inferred
/// either way: no catalogue records it.
pub fn infer(name: &[u8], mode: &[u8], width: u32, height: u32) -> (format: Format)
    ensures
        format == inferred(name@, mode@, width, height),
{
    let signature = Signature::of(name);
    match packing_for_stereo_mode(mode) {
        Some((packing, swap_eyes, anaglyph_pair)) => Format {
            packing,
            projection: projection_for(name, signature, packing, width, height),
            swap_eyes,
            anaglyph_pair,
            verdict: Verdict::Catalogued,
        },
        None => {
            let packing: u32 = packing_for(name, signature, width, height);
            Format {
                packing,
                projection: projection_for(name, signature, packing, width, height),
                swap_eyes: false,
                anaglyph_pair: 0,
                verdict: Verdict::Guessed,
            }
        },
    }
}

/// Whatever is inferred fits its word, so a listing's words lose nothing.
pub proof fn inferred_formats_fit(name: Seq<u8>, mode: Seq<u8>, width: u32, height: u32)
    ensures
        inferred(name, mode, width, height).fits(),
        Format::of_word(inferred(name, mode, width, height).word()) == inferred(
            name,
            mode,
            width,
            height,
        ),
{
    a_format_survives_its_word(inferred(name, mode, width, height));
}

/// A stereo mode that the catalogue states outranks the name: the packing does not depend on what
/// the file is called.
pub proof fn the_catalogue_outranks_the_name(
    a: Seq<u8>,
    b: Seq<u8>,
    mode: Seq<u8>,
    width: u32,
    height: u32,
)
    requires
        catalogued_mode(mode) is Some,
    ensures
        inferred(a, mode, width, height).verdict == Verdict::Catalogued,
        inferred(a, mode, width, height).packing == inferred(b, mode, width, height).packing,
        inferred(a, mode, width, height).swap_eyes == inferred(b, mode, width, height).swap_eyes,
        inferred(a, mode, width, height).anaglyph_pair == inferred(
            b,
            mode,
            width,
            height,
        ).anaglyph_pair,
{
}

/// A name that states the packing outranks the frame's shape, where no catalogue states it.
pub proof fn a_name_outranks_the_shape(
    name: Seq<u8>,
    mode: Seq<u8>,
    i: int,
    width: u32,
    height: u32,
)
    requires
        catalogued_mode(mode) is None,
        0 <= i < over_under_names().len(),
        holds(name, over_under_names()[i]),
    ensures
        inferred(name, mode, width, height).packing == OVER_UNDER,
        inferred(name, mode, width, height).verdict == Verdict::Guessed,
{
    a_names_own_signature_hides_nothing(name, over_under_names());
}

/// Whether a byte is a letter or another character of a lower-case word, in either case.
pub open spec fn is_letter(byte: u8, c: char) -> bool {
    byte == c as int || (0x41 <= byte <= 0x5a && byte + 0x20 == c as int)
}

/// Whether some bytes spell a lower-case word, in any case.
pub open spec fn spells(s: Seq<u8>, word: Seq<char>) -> bool {
    s.len() == word.len() && forall|k: int|
        0 <= k < word.len() ==> is_letter(#[trigger] s[k], word[k])
}

/// Whether a name has a word somewhere in it, in any case.
pub open spec fn mentions(name: Seq<u8>, word: Seq<char>) -> bool {
    exists|at: int|
        0 <= at && at + word.len() <= name.len() && #[trigger] spells(
            name.subrange(at, at + word.len()),
            word,
        )
}

/// Whether a name says that the eyes are stacked.
pub open spec fn says_stacked(name: Seq<u8>) -> bool {
    ||| mentions(name, "_tb"@)
    ||| mentions(name, "-tb"@)
    ||| mentions(name, "_ou"@)
    ||| mentions(name, "-ou"@)
    ||| mentions(name, "overunder"@)
    ||| mentions(name, "over-under"@)
    ||| mentions(name, "topbottom"@)
    ||| mentions(name, "top-bottom"@)
    ||| mentions(name, "3dv"@)
}

/// Whether a name says that the eyes are side by side.
pub open spec fn says_beside(name: Seq<u8>) -> bool {
    ||| mentions(name, "_sbs"@)
    ||| mentions(name, "-sbs"@)
    ||| mentions(name, "_lr"@)
    ||| mentions(name, "-lr"@)
    ||| mentions(name, "sidebyside"@)
    ||| mentions(name, "side-by-side"@)
    ||| mentions(name, "3dh"@)
}

/// Whether a name says that the picture covers a hemisphere.
pub open spec fn says_hemisphere(name: Seq<u8>) -> bool {
    ||| mentions(name, "vr180"@)
    ||| mentions(name, "_180"@)
    ||| mentions(name, "-180"@)
    ||| mentions(name, "180x180"@)
    ||| mentions(name, "half-sphere"@)
}

/// Whether a name says that the picture covers a sphere.
pub open spec fn says_sphere(name: Seq<u8>) -> bool {
    ||| mentions(name, "360"@)
    ||| mentions(name, "equirect"@)
    ||| mentions(name, "spherical"@)
    ||| mentions(name, "_vr."@)
    ||| mentions(name, "-vr."@)
    ||| mentions(name, "insta360"@)
    ||| mentions(name, "theta"@)
}

spec fn is_lower_word(word: Seq<char>) -> bool {
    &&& word.len() > 0
    &&& forall|k: int| 0 <= k < word.len() ==> 0 <= (#[trigger] word[k]) as int <= 0x7f
    &&& forall|k: int|
        0 <= k < word.len() ==> !(0x41 <= (#[trigger] word[k]) as int && word[k] as int <= 0x5a)
}

proof fn spelling_is_folding(s: Seq<u8>, word: &str)
    requires
        is_lower_word(word@),
    ensures
        spells(s, word@) <==> folded(s) == text::ascii(word),
{
    let needle = text::ascii(word);
    if spells(s, word@) {
        assert forall|k: int| 0 <= k < s.len() implies folded(s)[k] == #[trigger] needle[k] by {
            assert(is_letter(s[k], word@[k]));
        }
        assert(folded(s) =~= needle);
    }
    if folded(s) == needle {
        assert(folded(s).len() == s.len() && needle.len() == word@.len());
        assert forall|k: int| 0 <= k < word@.len() implies is_letter(#[trigger] s[k], word@[k]) by {
            assert(folded(s)[k] == needle[k]);
            assert(0 <= word@[k] as int <= 0x7f);
            assert(folded(s)[k] == folded_byte(s[k]));
        }
    }
}

proof fn mentioning_is_holding(name: Seq<u8>, word: &str)
    requires
        is_lower_word(word@),
    ensures
        mentions(name, word@) <==> holds(name, text::ascii(word)),
{
    let needle = text::ascii(word);
    if mentions(name, word@) {
        let at = choose|at: int|
            0 <= at && at + word@.len() <= name.len() && #[trigger] spells(
                name.subrange(at, at + word@.len()),
                word@,
            );
        spelling_is_folding(name.subrange(at, at + word@.len()), word);
        assert(stands_at(name, needle, at));
    }
    if holds(name, needle) {
        let at = choose|start: int| stands_at(name, needle, start);
        spelling_is_folding(name.subrange(at, at + word@.len()), word);
        assert(spells(name.subrange(at, at + word@.len()), word@));
    }
}

proof fn stacked_names_are_found(name: Seq<u8>)
    ensures
        found_any(name, claimed_bits(name), over_under_names()) <==> says_stacked(name),
{
    reveal_strlit("_tb");
    reveal_strlit("-tb");
    reveal_strlit("_ou");
    reveal_strlit("-ou");
    reveal_strlit("overunder");
    reveal_strlit("over-under");
    reveal_strlit("topbottom");
    reveal_strlit("top-bottom");
    reveal_strlit("3dv");
    mentioning_is_holding(name, "_tb");
    mentioning_is_holding(name, "-tb");
    mentioning_is_holding(name, "_ou");
    mentioning_is_holding(name, "-ou");
    mentioning_is_holding(name, "overunder");
    mentioning_is_holding(name, "over-under");
    mentioning_is_holding(name, "topbottom");
    mentioning_is_holding(name, "top-bottom");
    mentioning_is_holding(name, "3dv");
    let needles = over_under_names();
    a_names_own_signature_hides_nothing(name, needles);
    assert(needles[0] == text::ascii("_tb") && needles[1] == text::ascii("-tb") && needles[2]
        == text::ascii("_ou") && needles[3] == text::ascii("-ou") && needles[4] == text::ascii(
        "overunder",
    ) && needles[5] == text::ascii("over-under") && needles[6] == text::ascii("topbottom")
        && needles[7] == text::ascii("top-bottom") && needles[8] == text::ascii("3dv"));
}

proof fn names_beside_are_found(name: Seq<u8>)
    ensures
        found_any(name, claimed_bits(name), side_by_side_names()) <==> says_beside(name),
{
    reveal_strlit("_sbs");
    reveal_strlit("-sbs");
    reveal_strlit("_lr");
    reveal_strlit("-lr");
    reveal_strlit("sidebyside");
    reveal_strlit("side-by-side");
    reveal_strlit("3dh");
    mentioning_is_holding(name, "_sbs");
    mentioning_is_holding(name, "-sbs");
    mentioning_is_holding(name, "_lr");
    mentioning_is_holding(name, "-lr");
    mentioning_is_holding(name, "sidebyside");
    mentioning_is_holding(name, "side-by-side");
    mentioning_is_holding(name, "3dh");
    let needles = side_by_side_names();
    a_names_own_signature_hides_nothing(name, needles);
    assert(needles[0] == text::ascii("_sbs") && needles[1] == text::ascii("-sbs") && needles[2]
        == text::ascii("_lr") && needles[3] == text::ascii("-lr") && needles[4] == text::ascii(
        "sidebyside",
    ) && needles[5] == text::ascii("side-by-side") && needles[6] == text::ascii("3dh"));
}

proof fn hemisphere_names_are_found(name: Seq<u8>)
    ensures
        found_any(name, claimed_bits(name), vr180_names()) <==> says_hemisphere(name),
{
    reveal_strlit("vr180");
    reveal_strlit("_180");
    reveal_strlit("-180");
    reveal_strlit("180x180");
    reveal_strlit("half-sphere");
    mentioning_is_holding(name, "vr180");
    mentioning_is_holding(name, "_180");
    mentioning_is_holding(name, "-180");
    mentioning_is_holding(name, "180x180");
    mentioning_is_holding(name, "half-sphere");
    let needles = vr180_names();
    a_names_own_signature_hides_nothing(name, needles);
    assert(needles[0] == text::ascii("vr180") && needles[1] == text::ascii("_180") && needles[2]
        == text::ascii("-180") && needles[3] == text::ascii("180x180") && needles[4] == text::ascii(
        "half-sphere",
    ));
}

proof fn sphere_names_are_found(name: Seq<u8>)
    ensures
        found_any(name, claimed_bits(name), panorama_names()) <==> says_sphere(name),
{
    reveal_strlit("360");
    reveal_strlit("equirect");
    reveal_strlit("spherical");
    reveal_strlit("_vr.");
    reveal_strlit("-vr.");
    reveal_strlit("insta360");
    reveal_strlit("theta");
    mentioning_is_holding(name, "360");
    mentioning_is_holding(name, "equirect");
    mentioning_is_holding(name, "spherical");
    mentioning_is_holding(name, "_vr.");
    mentioning_is_holding(name, "-vr.");
    mentioning_is_holding(name, "insta360");
    mentioning_is_holding(name, "theta");
    let needles = panorama_names();
    a_names_own_signature_hides_nothing(name, needles);
    assert(needles[0] == text::ascii("360") && needles[1] == text::ascii("equirect") && needles[2]
        == text::ascii("spherical") && needles[3] == text::ascii("_vr.") && needles[4] == text::ascii(
        "-vr.",
    ) && needles[5] == text::ascii("insta360") && needles[6] == text::ascii("theta"));
}

/// Where no catalogue states the packing, the name does, whatever the frame's size: a word for stacked
/// eyes stacks them, and otherwise a word for eyes side by side sets them side by side. Only a name
/// without either leaves it to the shape: a frame taller than wide holds stacked eyes, one wider than
/// any picture (2.9 to 1, up to single precision) eyes side by side, and any other one picture.
pub proof fn the_name_decides_the_packing(name: Seq<u8>, mode: Seq<u8>, width: u32, height: u32)
    requires
        catalogued_mode(mode) is None,
    ensures
        ({
            let layout = pano::StereoLayout::of_number(inferred(name, mode, width, height).packing);
            let known = 0 < width < 0x100_0000 && 0 < height < 0x100_0000;
            let silent = !says_stacked(name) && !says_beside(name);
            &&& says_stacked(name) ==> layout == pano::StereoLayout::OverUnder
            &&& !says_stacked(name) && says_beside(name) ==> layout == pano::StereoLayout::SideBySide
            &&& silent && (width == 0 || height == 0) ==> layout == pano::StereoLayout::Mono
            &&& silent && known && width < height ==> layout == pano::StereoLayout::OverUnder
            &&& silent && known && 1000 * width > 2901 * height ==> layout
                == pano::StereoLayout::SideBySide
            &&& silent && known && width >= height && 1000 * width < 2899 * height ==> layout
                == pano::StereoLayout::Mono
            &&& inferred(name, mode, width, height).packing <= 4
            &&& !inferred(name, mode, width, height).swap_eyes
            &&& inferred(name, mode, width, height).verdict == Verdict::Guessed
        }),
{
    stacked_names_are_found(name);
    names_beside_are_found(name);
}

/// How wide and how high one eye's picture is, in parts of the frame's pixels: stacking and interleaving
/// rows halve the height, and setting side by side halves the width.
pub open spec fn eye_size(layout: pano::StereoLayout, width: u32, height: u32) -> (int, int) {
    match layout {
        pano::StereoLayout::OverUnder | pano::StereoLayout::RowInterleaved => (
            2 * width as int,
            height as int,
        ),
        pano::StereoLayout::SideBySide => (width as int, 2 * height as int),
        _ => (width as int, height as int),
    }
}

/// How much world a picture covers is what the name says, whatever the frame's size: a hemisphere, or
/// else a sphere. Only a name without a word for either leaves it to the shape of one eye's picture:
/// two to one is a sphere, a square is a hemisphere where there are two eyes, and anything else is a
/// screen. Two to one and square are meant up to 0.06.
pub proof fn the_name_decides_the_projection(name: Seq<u8>, mode: Seq<u8>, width: u32, height: u32)
    ensures
        ({
            let format = inferred(name, mode, width, height);
            let layout = pano::StereoLayout::of_number(format.packing);
            let projection = pano::Projection::of_number(format.projection);
            let known = 0 < width < 0x100_0000 && 0 < height < 0x100_0000;
            let silent = !says_hemisphere(name) && !says_sphere(name);
            let (w, h) = eye_size(layout, width, height);
            let two = 19_401 * h <= 10_000 * w <= 20_599 * h;
            let not_two = 10_000 * w <= 19_399 * h || 10_000 * w >= 20_601 * h;
            let one = 9_401 * h <= 10_000 * w <= 10_599 * h;
            let not_one = 10_000 * w <= 9_399 * h || 10_000 * w >= 10_601 * h;
            let mono = layout == pano::StereoLayout::Mono;
            &&& format.projection <= 2
            &&& says_hemisphere(name) ==> projection == pano::Projection::Equirect180
            &&& !says_hemisphere(name) && says_sphere(name) ==> projection
                == pano::Projection::Equirect360
            &&& silent && (width == 0 || height == 0) ==> projection == pano::Projection::Flat
            &&& silent && known && two ==> projection == pano::Projection::Equirect360
            &&& silent && known && !mono && one ==> projection == pano::Projection::Equirect180
            &&& silent && known && not_two && (mono || not_one) ==> projection
                == pano::Projection::Flat
        }),
{
    hemisphere_names_are_found(name);
    sphere_names_are_found(name);
}

/// Whether a catalogue's mode is a word, in any case and with white space around it.
pub open spec fn states(mode: Seq<u8>, word: Seq<char>) -> bool {
    exists|from: int, to: int|
        {
            &&& 0 <= from <= to <= mode.len()
            &&& #[trigger] spells(mode.subrange(from, to), word)
            &&& forall|k: int|
                0 <= k < from || to <= k < mode.len() ==> ((#[trigger] mode[k]) == 0x20 || mode[k] == 0x09
                    || mode[k] == 0x0a || mode[k] == 0x0c || mode[k] == 0x0d)
        }
}

#[verifier::spinoff_prover]
#[verifier::rlimit(40)]
proof fn trimming_cuts_blanks(s: Seq<u8>) -> (r: (int, int))
    ensures
        0 <= r.0 <= r.1 <= s.len(),
        trimmed(s) == s.subrange(r.0, r.1),
        forall|k: int| 0 <= k < r.0 || r.1 <= k < s.len() ==> is_blank(#[trigger] s[k]),
    decreases s.len(),
{
    if s.len() == 0 {
        assert(s =~= s.subrange(0, 0));
        (0, 0)
    } else if is_blank(s[0]) {
        let t = s.skip(1);
        let r = trimming_cuts_blanks(t);
        assert(t.subrange(r.0, r.1) =~= s.subrange(r.0 + 1, r.1 + 1));
        assert forall|k: int| 0 <= k < r.0 + 1 || r.1 + 1 <= k < s.len() implies is_blank(
            #[trigger] s[k],
        ) by {
            if k > 0 {
                assert(t[k - 1] == s[k]);
            }
        }
        (r.0 + 1, r.1 + 1)
    } else if is_blank(s.last()) {
        let t = s.drop_last();
        let r = trimming_cuts_blanks(t);
        assert(t.subrange(r.0, r.1) =~= s.subrange(r.0, r.1));
        assert forall|k: int| 0 <= k < r.0 || r.1 <= k < s.len() implies is_blank(#[trigger] s[k]) by {
            if k < s.len() - 1 {
                assert(t[k] == s[k]);
            }
        }
        r
    } else {
        assert(s =~= s.subrange(0, s.len() as int));
        (0, s.len() as int)
    }
}

proof fn trimming_finds_the_word(s: Seq<u8>, from: int, to: int)
    requires
        0 <= from < to <= s.len(),
        forall|k: int| 0 <= k < from || to <= k < s.len() ==> is_blank(#[trigger] s[k]),
        !is_blank(s[from]),
        !is_blank(s[to - 1]),
    ensures
        trimmed(s) == s.subrange(from, to),
    decreases s.len(),
{
    if from > 0 {
        let t = s.skip(1);
        assert(is_blank(s[0]));
        assert forall|k: int| 0 <= k < from - 1 || to - 1 <= k < t.len() implies is_blank(
            #[trigger] t[k],
        ) by {
            assert(t[k] == s[k + 1]);
        }
        trimming_finds_the_word(t, from - 1, to - 1);
        assert(t.subrange(from - 1, to - 1) =~= s.subrange(from, to));
    } else if to < s.len() {
        let t = s.drop_last();
        assert(is_blank(s[s.len() - 1]));
        trimming_finds_the_word(t, from, to);
        assert(t.subrange(from, to) =~= s.subrange(from, to));
    } else {
        assert(s.subrange(from, to) =~= s);
    }
}

proof fn stating_is_naming(mode: Seq<u8>, word: &str)
    requires
        is_lower_word(word@),
        word@[0] as int > 0x20,
        word@.last() as int > 0x20,
    ensures
        states(mode, word@) <==> folded(trimmed(mode)) == text::ascii(word),
{
    let r = trimming_cuts_blanks(mode);
    spelling_is_folding(trimmed(mode), word);
    if folded(trimmed(mode)) == text::ascii(word) {
        assert(spells(mode.subrange(r.0, r.1), word@));
    }
    if states(mode, word@) {
        let (from, to) = choose|from: int, to: int|
            {
                &&& 0 <= from <= to <= mode.len()
                &&& #[trigger] spells(mode.subrange(from, to), word@)
                &&& forall|k: int|
                    0 <= k < from || to <= k < mode.len() ==> ((#[trigger] mode[k]) == 0x20 || mode[k]
                        == 0x09 || mode[k] == 0x0a || mode[k] == 0x0c || mode[k] == 0x0d)
            };
        let part = mode.subrange(from, to);
        assert(is_letter(part[0], word@[0]));
        assert(is_letter(part[part.len() - 1], word@[part.len() - 1]));
        assert(part[0] == mode[from] && part[part.len() - 1] == mode[to - 1]);
        trimming_finds_the_word(mode, from, to);
    }
}

/// What a catalogue's mode says of the eyes: where they are, whether they are exchanged, and in which
/// colours they come.
pub open spec fn stated_layout(mode: Seq<u8>) -> Option<(pano::StereoLayout, bool, pano::AnaglyphPair)> {
    let red_cyan = pano::AnaglyphPair::RedCyan;
    if states(mode, "mono"@) {
        Some((pano::StereoLayout::Mono, false, red_cyan))
    } else if states(mode, "left_right"@) || states(mode, "lr"@) || states(mode, "sbs"@) || states(
        mode,
        "side_by_side"@,
    ) {
        Some((pano::StereoLayout::SideBySide, false, red_cyan))
    } else if states(mode, "right_left"@) || states(mode, "rl"@) {
        Some((pano::StereoLayout::SideBySide, true, red_cyan))
    } else if states(mode, "top_bottom"@) || states(mode, "tb"@) || states(mode, "over_under"@) {
        Some((pano::StereoLayout::OverUnder, false, red_cyan))
    } else if states(mode, "bottom_top"@) {
        Some((pano::StereoLayout::OverUnder, true, red_cyan))
    } else if states(mode, "row_interleaved_lr"@) {
        Some((pano::StereoLayout::RowInterleaved, false, red_cyan))
    } else if states(mode, "row_interleaved_rl"@) {
        Some((pano::StereoLayout::RowInterleaved, true, red_cyan))
    } else if states(mode, "anaglyph_cyan_red"@) {
        Some((pano::StereoLayout::Anaglyph, false, red_cyan))
    } else if states(mode, "anaglyph_green_magenta"@) {
        Some((pano::StereoLayout::Anaglyph, false, pano::AnaglyphPair::GreenMagenta))
    } else if states(mode, "anaglyph_yellow_blue"@) {
        Some((pano::StereoLayout::Anaglyph, false, pano::AnaglyphPair::YellowBlue))
    } else {
        None
    }
}

proof fn what_is_stated_is_catalogued(mode: Seq<u8>)
    ensures
        catalogued_mode(mode) == (match stated_layout(mode) {
            Some((layout, swap, pair)) => Some((layout.number(), swap, pair.number())),
            None => None,
        }),
{
    let word = folded(trimmed(mode));
    assert(states(mode, "mono"@) == (word == text::ascii("mono"))) by {
        reveal_strlit("mono");
        stating_is_naming(mode, "mono");
    }
    assert(states(mode, "left_right"@) == (word == text::ascii("left_right"))) by {
        reveal_strlit("left_right");
        stating_is_naming(mode, "left_right");
    }
    assert(states(mode, "lr"@) == (word == text::ascii("lr"))) by {
        reveal_strlit("lr");
        stating_is_naming(mode, "lr");
    }
    assert(states(mode, "sbs"@) == (word == text::ascii("sbs"))) by {
        reveal_strlit("sbs");
        stating_is_naming(mode, "sbs");
    }
    assert(states(mode, "side_by_side"@) == (word == text::ascii("side_by_side"))) by {
        reveal_strlit("side_by_side");
        stating_is_naming(mode, "side_by_side");
    }
    assert(states(mode, "right_left"@) == (word == text::ascii("right_left"))) by {
        reveal_strlit("right_left");
        stating_is_naming(mode, "right_left");
    }
    assert(states(mode, "rl"@) == (word == text::ascii("rl"))) by {
        reveal_strlit("rl");
        stating_is_naming(mode, "rl");
    }
    assert(states(mode, "top_bottom"@) == (word == text::ascii("top_bottom"))) by {
        reveal_strlit("top_bottom");
        stating_is_naming(mode, "top_bottom");
    }
    assert(states(mode, "tb"@) == (word == text::ascii("tb"))) by {
        reveal_strlit("tb");
        stating_is_naming(mode, "tb");
    }
    assert(states(mode, "over_under"@) == (word == text::ascii("over_under"))) by {
        reveal_strlit("over_under");
        stating_is_naming(mode, "over_under");
    }
    assert(states(mode, "bottom_top"@) == (word == text::ascii("bottom_top"))) by {
        reveal_strlit("bottom_top");
        stating_is_naming(mode, "bottom_top");
    }
    assert(states(mode, "row_interleaved_lr"@) == (word == text::ascii("row_interleaved_lr"))) by {
        reveal_strlit("row_interleaved_lr");
        stating_is_naming(mode, "row_interleaved_lr");
    }
    assert(states(mode, "row_interleaved_rl"@) == (word == text::ascii("row_interleaved_rl"))) by {
        reveal_strlit("row_interleaved_rl");
        stating_is_naming(mode, "row_interleaved_rl");
    }
    assert(states(mode, "anaglyph_cyan_red"@) == (word == text::ascii("anaglyph_cyan_red"))) by {
        reveal_strlit("anaglyph_cyan_red");
        stating_is_naming(mode, "anaglyph_cyan_red");
    }
    assert(states(mode, "anaglyph_green_magenta"@) == (word == text::ascii("anaglyph_green_magenta"))) by {
        reveal_strlit("anaglyph_green_magenta");
        stating_is_naming(mode, "anaglyph_green_magenta");
    }
    assert(states(mode, "anaglyph_yellow_blue"@) == (word == text::ascii("anaglyph_yellow_blue"))) by {
        reveal_strlit("anaglyph_yellow_blue");
        stating_is_naming(mode, "anaglyph_yellow_blue");
    }
}

/// What a catalogue states is taken at its word, in any case and with white space around it, and counts
/// as catalogued; any other mode states nothing, and the reading is a guess.
pub proof fn the_catalogue_is_taken_at_its_word(
    name: Seq<u8>,
    mode: Seq<u8>,
    width: u32,
    height: u32,
)
    ensures
        ({
            let format = inferred(name, mode, width, height);
            match stated_layout(mode) {
                Some((layout, swap, pair)) => {
                    &&& pano::StereoLayout::of_number(format.packing) == layout
                    &&& format.packing <= 4
                    &&& format.swap_eyes == swap
                    &&& pano::AnaglyphPair::of_number(format.anaglyph_pair) == pair
                    &&& format.anaglyph_pair <= 2
                    &&& format.verdict == Verdict::Catalogued
                },
                None => catalogued_mode(mode) is None && format.verdict == Verdict::Guessed,
            }
        }),
{
    what_is_stated_is_catalogued(mode);
    if let Some((layout, swap, pair)) = stated_layout(mode) {
        pano::numbers_read_back(layout, pair, pano::Projection::Flat);
        assert(inferred(name, mode, width, height).packing == layout.number());
    }
}

/// A format's word is laid out from the least significant bit up: three bits of packing, three of
/// projection, one for the exchanged eyes, two of colours, and two for where it is known from, in the
/// order of how much that counts.
pub proof fn a_word_is_laid_out_from_the_bottom(f: Format)
    requires
        f.fits(),
    ensures
        f.word() as int == f.packing + 8 * f.projection + (if f.swap_eyes {
            64int
        } else {
            0
        }) + 128 * f.anaglyph_pair + (match f.verdict {
            Verdict::Guessed => 0int,
            Verdict::Catalogued => 512,
            Verdict::Declared => 1024,
            Verdict::Chosen => 1536,
        }),
{
}

/// A reversed mode is its counterpart with the eyes swapped, and nothing else about the file
/// changes.
pub proof fn reversed_modes_are_a_swap(name: Seq<u8>, width: u32, height: u32)
    ensures
        ({
            let lr = inferred(name, text::ascii("left_right"), width, height);
            inferred(name, text::ascii("right_left"), width, height) == (Format { swap_eyes: true, ..lr })
                && !lr.swap_eyes
        }),
        ({
            let tb = inferred(name, text::ascii("top_bottom"), width, height);
            inferred(name, text::ascii("bottom_top"), width, height) == (Format { swap_eyes: true, ..tb })
                && !tb.swap_eyes
        }),
        ({
            let lr = inferred(name, text::ascii("row_interleaved_lr"), width, height);
            inferred(name, text::ascii("row_interleaved_rl"), width, height) == (Format {
                swap_eyes: true,
                ..lr
            }) && !lr.swap_eyes
        }),
{
    reveal_strlit("mono");
    reveal_strlit("left_right");
    reveal_strlit("lr");
    reveal_strlit("sbs");
    reveal_strlit("side_by_side");
    reveal_strlit("right_left");
    reveal_strlit("rl");
    reveal_strlit("top_bottom");
    reveal_strlit("tb");
    reveal_strlit("over_under");
    reveal_strlit("bottom_top");
    reveal_strlit("row_interleaved_lr");
    reveal_strlit("row_interleaved_rl");
    let a = text::ascii("left_right");
    assert(folded(trimmed(a)) =~= a);
    let b = text::ascii("right_left");
    assert(folded(trimmed(b)) =~= b);
    assert(b[0] == 0x72 && text::ascii("mono")[0] == 0x6d && text::ascii("left_right")[0] == 0x6c);
    assert(b != text::ascii("mono") && b != text::ascii("left_right"));
    assert(text::ascii("lr").len() == 2 && text::ascii("sbs").len() == 3 && text::ascii("side_by_side").len() == 12);
    let c = text::ascii("top_bottom");
    assert(folded(trimmed(c)) =~= c);
    assert(c[0] == 0x74 && text::ascii("rl").len() == 2);
    assert(c != text::ascii("mono") && c != text::ascii("left_right") && c != text::ascii("right_left"));
    let d = text::ascii("bottom_top");
    assert(folded(trimmed(d)) =~= d);
    assert(d[0] == 0x62 && text::ascii("tb").len() == 2);
    assert(d != text::ascii("mono") && d != a && d != b && d != c);
    assert(text::ascii("over_under")[0] == 0x6f);
    assert(d != text::ascii("over_under"));
    let e = text::ascii("row_interleaved_lr");
    assert(folded(trimmed(e)) =~= e);
    let f = text::ascii("row_interleaved_rl");
    assert(folded(trimmed(f)) =~= f);
    assert(e[16] == 0x6c && f[16] == 0x72);
}

/// Words of description per entry in a batch: where its name and stereo mode are in the blob, and
/// how big its frame is.
pub const META_WORDS: usize = 6;

/// Whether a description's stretch lies within the blob.
pub open spec fn stretch_fits(blob: Seq<u8>, offset: u32, len: u32) -> bool {
    offset + len <= blob.len()
}

/// The bytes a description's stretch covers.
pub open spec fn stretch(blob: Seq<u8>, offset: u32, len: u32) -> Seq<u8> {
    blob.subrange(offset as int, offset + len)
}

/// Whether entry `i` is described, and its name and mode lie within the blob.
pub open spec fn is_readable(blob: Seq<u8>, meta: Seq<u32>, i: int) -> bool {
    &&& 6 * i + 6 <= meta.len()
    &&& stretch_fits(blob, meta[6 * i], meta[6 * i + 1])
    &&& stretch_fits(blob, meta[6 * i + 2], meta[6 * i + 3])
}

/// The word that stands for entry `i`.
pub open spec fn entry_word(blob: Seq<u8>, meta: Seq<u32>, i: int) -> u32 {
    inferred(
        stretch(blob, meta[6 * i], meta[6 * i + 1]),
        stretch(blob, meta[6 * i + 2], meta[6 * i + 3]),
        meta[6 * i + 4],
        meta[6 * i + 5],
    ).word()
}

/// The words of `n` entries from entry `base` on.
pub open spec fn entry_words(blob: Seq<u8>, meta: Seq<u32>, base: int, n: nat) -> Seq<u32> {
    Seq::new(n, |k: int| entry_word(blob, meta, base + k))
}

/// Whether a listing of `n` entries is described in full, and every one of them is readable.
pub open spec fn is_complete(blob: Seq<u8>, meta: Seq<u32>, n: nat) -> bool {
    &&& n <= meta.len() / 6
    &&& forall|i: int| 0 <= i < n ==> #[trigger] is_readable(blob, meta, i)
}

/// One entry's slice of the submission buffer.
pub struct Entry<'a> {
    pub name: &'a [u8],
    pub mode: &'a [u8],
    pub width: u32,
    pub height: u32,
}

fn slice_of<'a>(blob: &'a [u8], offset: u32, len: u32) -> (r: Option<&'a [u8]>)
    ensures
        match r {
            Some(part) => stretch_fits(blob@, offset, len) && part@ == stretch(blob@, offset, len),
            None => !stretch_fits(blob@, offset, len),
        },
{
    let start: usize = offset as usize;
    if start > blob.len() || len as usize > blob.len() - start {
        return None;
    }
    Some(vstd::slice::slice_subrange(blob, start, start + len as usize))
}

/// Reads the description of one entry.
pub fn entry<'a>(blob: &'a [u8], meta: &[u32], index: usize) -> (r: Option<Entry<'a>>)
    ensures
        match r {
            Some(e) => {
                let i = index as int;
                &&& is_readable(blob@, meta@, i)
                &&& e.name@ == stretch(blob@, meta@[6 * i], meta@[6 * i + 1])
                &&& e.mode@ == stretch(blob@, meta@[6 * i + 2], meta@[6 * i + 3])
                &&& e.width == meta@[6 * i + 4]
                &&& e.height == meta@[6 * i + 5]
            },
            None => !is_readable(blob@, meta@, index as int),
        },
{
    if index >= meta.len() / META_WORDS {
        return None;
    }
    let at: usize = META_WORDS * index;
    let name = match slice_of(blob, meta[at], meta[at + 1]) {
        Some(name) => name,
        None => {
            return None;
        },
    };
    let mode = match slice_of(blob, meta[at + 2], meta[at + 3]) {
        Some(mode) => mode,
        None => {
            return None;
        },
    };
    Some(Entry { name, mode, width: meta[at + 4], height: meta[at + 5] })
}

/// Reads consecutive entries of a listing, from entry `base` on, one for each word of `chunk`.
pub fn infer_chunk(blob: &[u8], meta: &[u32], base: usize, chunk: &mut [u32])
    requires
        forall|i: int|
            base <= i < base + old(chunk)@.len() ==> #[trigger] is_readable(blob@, meta@, i),
    ensures
        final(chunk)@ == entry_words(blob@, meta@, base as int, old(chunk)@.len()),
{
    let n: usize = chunk.len();
    let mut k: usize = 0;
    while k < n
        invariant
            k <= n,
            n == old(chunk)@.len(),
            chunk@.len() == n,
            forall|i: int| base <= i < base + n ==> #[trigger] is_readable(blob@, meta@, i),
            forall|j: int| 0 <= j < k ==> chunk@[j] == entry_word(blob@, meta@, base + j),
        decreases n - k,
    {
        assert(is_readable(blob@, meta@, base + k) && meta@.len() == meta.len());
        if let Some(e) = entry(blob, meta, base + k) {
            chunk[k] = infer(e.name, e.mode, e.width, e.height).pack();
        }
        k += 1;
    }
    assert(chunk@ =~= entry_words(blob@, meta@, base as int, old(chunk)@.len()));
}

/// Entries one thread claims at a time.
pub const CHUNK: usize = 64;

/// Reading a listing in parts gives, for each part, the words that reading it whole gives there:
/// it makes no difference how a listing is split, nor in what order the parts are read.
pub proof fn parts_read_what_the_whole_reads(
    blob: Seq<u8>,
    meta: Seq<u32>,
    count: nat,
    base: int,
    n: nat,
)
    requires
        0 <= base,
        base + n <= count,
    ensures
        entry_words(blob, meta, 0, count).subrange(base, base + n) == entry_words(
            blob,
            meta,
            base,
            n,
        ),
{
    assert(entry_words(blob, meta, 0, count).subrange(base, base + n) =~= entry_words(
        blob,
        meta,
        base,
        n,
    ));
}

/// How a batch should be split on this machine.
#[derive(Clone, Copy, PartialEq, Eq, Debug, Structural)]
pub struct Plan {
    /// Entries above which threading has been measured to win, or [`usize::MAX`] when it never
    /// does.
    pub threshold: usize,
    /// How many threads to use once it does.
    pub threads: usize,
}

impl Plan {
    /// What to do before anything has been measured, and if measuring fails: one thread, always.
    pub fn serial() -> (p: Plan)
        ensures
            p == (Plan { threshold: usize::MAX, threads: 1 }),
    {
        Plan { threshold: usize::MAX, threads: 1 }
    }

    /// Whether a batch of `count` entries is to be split.
    pub open spec fn divides(self, count: int) -> bool {
        count >= self.threshold && self.threads > 1
    }

    /// Whether a batch of `count` entries is to be split.
    pub fn splits(self, count: usize) -> (b: bool)
        ensures
            b == self.divides(count as int),
    {
        count >= self.threshold && self.threads > 1
    }
}

/// The plan for this machine, or [`Plan::serial`] until one has been measured.
pub fn plan(measured: Option<Plan>) -> (p: Plan)
    ensures
        p == (match measured {
            Some(m) => m,
            None => Plan { threshold: usize::MAX, threads: 1 },
        }),
{
    match measured {
        Some(m) => m,
        None => Plan::serial(),
    }
}

/// Smallest batch size the two paths are raced at.
pub const LOWER_RUNG: usize = 8192;

/// Largest batch size the two paths are raced at, deliberately past plausibility.
pub const UPPER_RUNG: usize = 32_768;

/// Settles the plan from a race: the threshold is the smallest size at which the threaded path was
/// **seen** to win. A path nobody has watched win does not get switched on, and one thread is not a
/// split.
pub fn settle(threads: usize, won_lower: bool, won_upper: bool) -> (p: Plan)
    ensures
        threads < 2 ==> p == (Plan { threshold: usize::MAX, threads: 1 }),
        threads >= 2 ==> p.threads == threads && p.threshold == (if won_lower {
            LOWER_RUNG
        } else if won_upper {
            UPPER_RUNG
        } else {
            usize::MAX
        }),
{
    if threads < 2 {
        return Plan::serial();
    }
    let threshold: usize = if won_lower {
        LOWER_RUNG
    } else if won_upper {
        UPPER_RUNG
    } else {
        usize::MAX
    };
    Plan { threshold, threads }
}

/// How many entries a batch for `out_len` words is going to be: one for each word, or none at all
/// where fewer are described, or the description of one of them points outside the blob.
pub fn readable_count(blob: &[u8], meta: &[u32], out_len: usize) -> (n: usize)
    ensures
        n == (if is_complete(blob@, meta@, out_len as nat) {
            out_len
        } else {
            0
        }),
{
    if meta.len() / META_WORDS < out_len {
        return 0;
    }
    let mut i: usize = 0;
    while i < out_len
        invariant
            i <= out_len <= meta@.len() / 6,
            forall|k: int| 0 <= k < i ==> #[trigger] is_readable(blob@, meta@, k),
        decreases out_len - i,
    {
        if entry(blob, meta, i).is_none() {
            assert(!is_readable(blob@, meta@, i as int));
            return 0;
        }
        i += 1;
    }
    out_len
}

/// Reads a listing from its first entry on, one entry for each word of `out`.
pub fn infer_serial(blob: &[u8], meta: &[u32], out: &mut [u32])
    requires
        forall|i: int| 0 <= i < old(out)@.len() ==> #[trigger] is_readable(blob@, meta@, i),
    ensures
        final(out)@ == entry_words(blob@, meta@, 0, old(out)@.len()),
{
    infer_chunk(blob, meta, 0, out);
}

/// Reads a listing from its first entry on, one entry for each word of `out`, in chunks of
/// [`CHUNK`] that are taken off the end one by one, the way workers claim them.
pub fn infer_chunked(blob: &[u8], meta: &[u32], out: &mut [u32])
    requires
        forall|i: int| 0 <= i < old(out)@.len() ==> #[trigger] is_readable(blob@, meta@, i),
    ensures
        final(out)@ == entry_words(blob@, meta@, 0, old(out)@.len()),
{
    let count: usize = out.len();
    let mut left: usize = count;
    while left > 0
        invariant
            left <= count,
            count == old(out)@.len(),
            out@.len() == count,
            forall|i: int| 0 <= i < count ==> #[trigger] is_readable(blob@, meta@, i),
            forall|k: int| left <= k < count ==> out@[k] == entry_word(blob@, meta@, k),
        decreases left,
    {
        let base: usize = (left - 1) / CHUNK * CHUNK;
        let (_, rest) = out.split_at_mut(base);
        let (chunk, _) = rest.split_at_mut(left - base);
        infer_chunk(blob, meta, base, chunk);
        left = base;
    }
    assert(out@ =~= entry_words(blob@, meta@, 0, count as nat));
}

/// Reads a whole listing under a plan of the caller's choosing.
///
/// `blob` holds every name and stereo mode end to end; `meta` describes each entry with
/// [`META_WORDS`] words; `out` receives one packed [`Format`] each. Returns how many were written,
/// which is `out.len()` unless the description is short or inconsistent, in which case nothing is
/// written at all: a partly-filled listing would be read as a complete one.
///
/// Both ways of going through the listing produce identical output.
pub fn infer_batch_using(plan: Plan, blob: &[u8], meta: &[u32], out: &mut [u32]) -> (n: usize)
    ensures
        is_complete(blob@, meta@, old(out)@.len()) ==> n == old(out)@.len() && final(out)@
            == entry_words(blob@, meta@, 0, old(out)@.len()),
        !is_complete(blob@, meta@, old(out)@.len()) ==> n == 0 && final(out)@ == old(out)@,
{
    let count: usize = readable_count(blob, meta, out.len());
    if count == 0 {
        assert(old(out)@.len() == 0 ==> out@ =~= entry_words(blob@, meta@, 0, 0));
        return 0;
    }
    if plan.splits(count) {
        infer_chunked(blob, meta, out);
    } else {
        infer_serial(blob, meta, out);
    }
    count
}

/// Reads a whole listing on one core, which is what happens until the machine has been measured.
pub fn infer_batch(blob: &[u8], meta: &[u32], out: &mut [u32]) -> (n: usize)
    ensures
        is_complete(blob@, meta@, old(out)@.len()) ==> n == old(out)@.len() && final(out)@
            == entry_words(blob@, meta@, 0, old(out)@.len()),
        !is_complete(blob@, meta@, old(out)@.len()) ==> n == 0 && final(out)@ == old(out)@,
{
    infer_batch_using(plan(None), blob, meta, out)
}

/// A description that is too short for the listing is not a complete one, so that nothing of it is
/// written: a partly-filled listing would be read as a complete one.
pub proof fn a_short_description_is_not_complete(blob: Seq<u8>, meta: Seq<u32>, n: nat)
    requires
        meta.len() / 6 < n,
    ensures
        !is_complete(blob, meta, n),
{
}

/// A batch reads the same as the entries read one at a time.
pub proof fn a_batch_reads_what_its_entries_read(blob: Seq<u8>, meta: Seq<u32>, n: nat, i: int)
    requires
        0 <= i < n,
    ensures
        Format::of_word(entry_words(blob, meta, 0, n)[i]) == inferred(
            stretch(blob, meta[6 * i], meta[6 * i + 1]),
            stretch(blob, meta[6 * i + 2], meta[6 * i + 3]),
            meta[6 * i + 4],
            meta[6 * i + 5],
        ),
{
    inferred_formats_fit(
        stretch(blob, meta[6 * i], meta[6 * i + 1]),
        stretch(blob, meta[6 * i + 2], meta[6 * i + 3]),
        meta[6 * i + 4],
        meta[6 * i + 5],
    );
}

/// What the names of a synthetic listing start with.
pub open spec fn sample_stem(i: int) -> Seq<u8> {
    if i % 4 == 0 {
        text::ascii("An Ordinary Film (2016) 2160p")
    } else if i % 4 == 1 {
        text::ascii("Holiday_TB.mkv")
    } else if i % 4 == 2 {
        text::ascii("climb_vr180_sbs.mp4")
    } else {
        text::ascii("The Longest Title Anyone Would Reasonably Give A File")
    }
}

/// The stereo modes of a synthetic listing.
pub open spec fn sample_mode(i: int) -> Seq<u8> {
    if i % 3 == 0 {
        Seq::empty()
    } else if i % 3 == 1 {
        text::ascii("mono")
    } else {
        text::ascii("left_right")
    }
}

/// The names of a synthetic listing: a serial number keeps any two from being the same bytes.
pub open spec fn sample_name(i: int) -> Seq<u8> {
    sample_stem(i) + text::decimal(i as nat)
}

/// The blob of the first `n` entries of a synthetic listing.
pub open spec fn sample_blob(n: int) -> Seq<u8>
    decreases n,
{
    if n <= 0 {
        Seq::empty()
    } else {
        sample_blob(n - 1) + sample_name(n - 1) + sample_mode(n - 1)
    }
}

/// The description of entry `i` of a synthetic listing.
pub open spec fn sample_entry(i: int) -> Seq<u32> {
    let at = sample_blob(i).len();
    let name = sample_name(i).len();
    seq![
        at as u32,
        name as u32,
        (at + name) as u32,
        sample_mode(i).len() as u32,
        3840,
        1920,
    ]
}

/// The descriptions of the first `n` entries of a synthetic listing.
pub open spec fn sample_meta(n: int) -> Seq<u32>
    decreases n,
{
    if n <= 0 {
        Seq::empty()
    } else {
        sample_meta(n - 1) + sample_entry(n - 1)
    }
}

/// The most entries a synthetic listing is built with: offsets into its blob take 32 bits.
pub const SAMPLE_MAX: usize = 0x300_0000;

proof fn sample_lengths(i: int)
    requires
        0 <= i < SAMPLE_MAX,
    ensures
        sample_stem(i).len() <= 53,
        sample_name(i).len() <= 61,
        sample_mode(i).len() <= 10,
{
    reveal_strlit("An Ordinary Film (2016) 2160p");
    reveal_strlit("Holiday_TB.mkv");
    reveal_strlit("climb_vr180_sbs.mp4");
    reveal_strlit("The Longest Title Anyone Would Reasonably Give A File");
    reveal_strlit("mono");
    reveal_strlit("left_right");
    text::decimal_is_short(i as nat);
}

proof fn sample_blob_fits(n: int)
    requires
        0 <= n <= SAMPLE_MAX,
    ensures
        sample_blob(n).len() <= 71 * n,
        sample_meta(n).len() == 6 * n,
    decreases n,
{
    if n > 0 {
        sample_blob_fits(n - 1);
        sample_lengths(n - 1);
    }
}

/// A synthetic listing of the shape a real one has: mostly ordinary names, a few marked up, every
/// one distinct. The blob comes first and the descriptions second.
pub fn calibration_sample(count: usize) -> (r: (Vec<u8>, Vec<u32>))
    requires
        count <= SAMPLE_MAX,
    ensures
        r.0@ == sample_blob(count as int),
        r.1@ == sample_meta(count as int),
{
    proof {
        reveal_strlit("An Ordinary Film (2016) 2160p");
        reveal_strlit("Holiday_TB.mkv");
        reveal_strlit("climb_vr180_sbs.mp4");
        reveal_strlit("The Longest Title Anyone Would Reasonably Give A File");
        mode_names_are_ascii();
    }
    let stems: [&'static [u8]; 4] = [
        text::ascii_bytes("An Ordinary Film (2016) 2160p"),
        text::ascii_bytes("Holiday_TB.mkv"),
        text::ascii_bytes("climb_vr180_sbs.mp4"),
        text::ascii_bytes("The Longest Title Anyone Would Reasonably Give A File"),
    ];
    let modes: [&'static [u8]; 2] = [text::ascii_bytes("mono"), text::ascii_bytes("left_right")];
    let mut blob: Vec<u8> = Vec::new();
    let mut meta: Vec<u32> = Vec::new();
    let mut i: usize = 0;
    while i < count
        invariant
            i <= count <= SAMPLE_MAX,
            blob@ == sample_blob(i as int),
            meta@ == sample_meta(i as int),
            forall|k: int| 0 <= k < 4 ==> #[trigger] stems@[k]@ == sample_stem(k),
            modes@[0]@ == text::ascii("mono"),
            modes@[1]@ == text::ascii("left_right"),
        decreases count - i,
    {
        proof {
            sample_blob_fits(i as int);
            sample_lengths(i as int);
            assert(stems@[(i % 4) as int]@ == sample_stem(i as int));
        }
        let name_offset: u32 = blob.len() as u32;
        crate::wire::push_all(&mut blob, stems[i % 4]);
        text::push_decimal(&mut blob, i);
        assert(blob@ =~= sample_blob(i as int) + sample_name(i as int));
        let mode_offset: u32 = blob.len() as u32;
        let mut mode_len: u32 = 0;
        if i % 3 != 0 {
            let mode: &'static [u8] = modes[i % 3 - 1];
            mode_len = mode.len() as u32;
            crate::wire::push_all(&mut blob, mode);
        }
        assert(blob@ =~= sample_blob(i + 1));
        meta.push(name_offset);
        meta.push(mode_offset - name_offset);
        meta.push(mode_offset);
        meta.push(mode_len);
        meta.push(3840);
        meta.push(1920);
        assert(meta@ =~= sample_meta(i + 1));
        i += 1;
    }
    (blob, meta)
}

proof fn sample_blob_grows(i: int, n: int)
    requires
        0 <= i <= n,
    ensures
        sample_blob(i).is_prefix_of(sample_blob(n)),
        sample_meta(i).is_prefix_of(sample_meta(n)),
    decreases n,
{
    if i < n {
        sample_blob_grows(i, n - 1);
        assert(sample_blob(n - 1).is_prefix_of(sample_blob(n))) by {
            assert(sample_blob(n).subrange(0, sample_blob(n - 1).len() as int) =~= sample_blob(
                n - 1,
            ));
        }
        assert(sample_meta(n - 1).is_prefix_of(sample_meta(n))) by {
            assert(sample_meta(n).subrange(0, sample_meta(n - 1).len() as int) =~= sample_meta(
                n - 1,
            ));
        }
        assert(sample_blob(i) =~= sample_blob(n).subrange(0, sample_blob(i).len() as int));
        assert(sample_meta(i) =~= sample_meta(n).subrange(0, sample_meta(i).len() as int));
    }
}

/// Every entry of a synthetic listing is readable, and what is read is its name and its mode.
pub proof fn the_sample_reads_back(n: int, i: int)
    requires
        0 <= i < n <= SAMPLE_MAX,
    ensures
        ({
            let blob = sample_blob(n);
            let meta = sample_meta(n);
            &&& is_readable(blob, meta, i)
            &&& stretch(blob, meta[6 * i], meta[6 * i + 1]) == sample_name(i)
            &&& stretch(blob, meta[6 * i + 2], meta[6 * i + 3]) == sample_mode(i)
        }),
{
    let blob = sample_blob(n);
    let meta = sample_meta(n);
    sample_blob_fits(n);
    sample_blob_fits(i);
    sample_blob_fits(i + 1);
    sample_lengths(i);
    sample_blob_grows(i + 1, n);
    let at = sample_blob(i).len();
    let name = sample_name(i).len();
    let mode = sample_mode(i).len();
    let part = sample_blob(i + 1);
    assert(part.len() == at + name + mode);
    assert forall|k: int| 0 <= k < part.len() implies blob[k] == #[trigger] part[k] by {
        assert(part[k] == blob.subrange(0, part.len() as int)[k]);
    }
    assert(sample_meta(i + 1) =~= sample_meta(i) + sample_entry(i));
    assert forall|k: int| 0 <= k < 6 implies meta[6 * i + k] == sample_entry(i)[k] by {
        assert(sample_meta(i + 1)[6 * i + k] == meta[6 * i + k]);
    }
    assert(meta[6 * i + 0] == sample_entry(i)[0]);
    assert(stretch(blob, meta[6 * i], meta[6 * i + 1]) =~= sample_name(i)) by {
        assert(part.subrange(at as int, (at + name) as int) =~= sample_name(i));
    }
    assert(stretch(blob, meta[6 * i + 2], meta[6 * i + 3]) =~= sample_mode(i)) by {
        assert(part.subrange((at + name) as int, part.len() as int) =~= sample_mode(i));
    }
}

/// No two names of a synthetic listing are the same, so nothing can be cached between entries.
pub proof fn sample_names_differ(i: int, j: int)
    requires
        0 <= i,
        0 <= j,
        i != j,
    ensures
        sample_name(i) != sample_name(j),
{
    reveal_strlit("An Ordinary Film (2016) 2160p");
    reveal_strlit("Holiday_TB.mkv");
    reveal_strlit("climb_vr180_sbs.mp4");
    reveal_strlit("The Longest Title Anyone Would Reasonably Give A File");
    let a = sample_name(i);
    let b = sample_name(j);
    if a == b {
        assert(a[0] == sample_stem(i)[0] && b[0] == sample_stem(j)[0]);
        assert(i % 4 == j % 4);
        let stem = sample_stem(i).len() as int;
        assert(a.skip(stem) =~= text::decimal(i as nat));
        assert(b.skip(stem) =~= text::decimal(j as nat));
        text::decimals_differ(i as nat, j as nat);
    }
}

/// A size is taken as the nearest number with 24 significant bits: where it needs more, it goes to a
/// multiple of the step that is left to it, by half a step at most, and from the middle to the
/// multiple that is even.
pub proof fn a_size_is_rounded_to_the_nearest(n: u32, step: int)
    requires
        step == 2 || step == 4 || step == 8 || step == 16 || step == 32 || step == 64 || step == 128
            || step == 256,
        0x80_0000 * step <= n < 0x100_0000 * step,
    ensures
        as_single(n) % step == 0,
        -step <= 2 * (as_single(n) - n) <= step,
        2 * (as_single(n) - n) == step || 2 * (n - as_single(n)) == step ==> as_single(n) / step % 2
            == 0,
{
    let below = n as int / step;
    let rest = n as int % step;
    assert(n == step * below + rest && 0 <= rest < step) by {
        vstd::arithmetic::div_mod::lemma_fundamental_div_mod(n as int, step);
    }
    assert(step * (below + 1) == step * below + step) by (nonlinear_arith);
    assert(single_step(n as int) == step);
    vstd::arithmetic::div_mod::lemma_div_multiples_vanish(below, step);
    vstd::arithmetic::div_mod::lemma_div_multiples_vanish(below + 1, step);
    vstd::arithmetic::div_mod::lemma_mod_multiples_basic(below, step);
    vstd::arithmetic::div_mod::lemma_mod_multiples_basic(below + 1, step);
    assert(step * below == below * step && step * (below + 1) == (below + 1) * step)
        by (nonlinear_arith);
}

/// A listing is read as it was laid out: where an entry's six words say where its name starts and how
/// long it is, the same of its mode, and then how wide and how high its frame is, its word stands for
/// what is inferred from just these.
pub proof fn a_listing_is_read_as_it_was_laid_out(
    before: Seq<u8>,
    name: Seq<u8>,
    between: Seq<u8>,
    mode: Seq<u8>,
    after: Seq<u8>,
    others: Seq<u32>,
    described: Seq<u32>,
    rest: Seq<u32>,
)
    requires
        others.len() % 6 == 0,
        described.len() == 6,
        described[0] == before.len(),
        described[1] == name.len(),
        described[2] == before.len() + name.len() + between.len(),
        described[3] == mode.len(),
    ensures
        ({
            let blob = before + name + between + mode + after;
            let meta = others + described + rest;
            let i = others.len() as int / 6;
            &&& is_readable(blob, meta, i)
            &&& Format::of_word(entry_word(blob, meta, i)) == inferred(
                name,
                mode,
                described[4],
                described[5],
            )
        }),
{
    let blob = before + name + between + mode + after;
    let meta = others + described + rest;
    let i = others.len() as int / 6;
    assert(6 * i == others.len());
    assert(meta[6 * i] == described[0] && meta[6 * i + 1] == described[1]);
    assert(meta[6 * i + 2] == described[2] && meta[6 * i + 3] == described[3]);
    assert(meta[6 * i + 4] == described[4] && meta[6 * i + 5] == described[5]);
    assert(stretch(blob, described[0], described[1]) =~= name);
    assert(stretch(blob, described[2], described[3]) =~= mode);
    inferred_formats_fit(name, mode, described[4], described[5]);
    a_format_survives_its_word(inferred(name, mode, described[4], described[5]));
}

/// A stretch that runs past the end of the blob is not read, however far past it.
pub proof fn nothing_is_read_past_the_end(blob: Seq<u8>, meta: Seq<u32>, i: int)
    requires
        is_readable(blob, meta, i),
        0 <= i,
    ensures
        meta.len() >= 6 * (i + 1),
        meta[6 * i] + meta[6 * i + 1] <= blob.len(),
        meta[6 * i + 2] + meta[6 * i + 3] <= blob.len(),
{
}

} // verus!
