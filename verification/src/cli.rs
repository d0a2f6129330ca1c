//! What the command line asks for, and what its reader and its consumer decide.
use crate::frame::{Error, Event, Pose, Rate, Raw};
use crate::text;
use vstd::prelude::*;

verus! {

/// What is asked for.
#[derive(Clone, Copy, Debug, PartialEq, Eq, Structural)]
pub enum Command {
    /// Check the syscall layer and the transports without a device.
    Probe,
    /// Show the device's facts.
    Info,
    /// Stream orientations.
    Pose,
    /// Stream raw readings.
    Raw,
    /// Point with the phone.
    Pointer,
    /// Something else.
    Unknown,
}

/// What a word asks for; without one, the device's facts.
pub open spec fn command_named(word: Option<Seq<char>>) -> Command {
    match word {
        None => Command::Info,
        Some(w) => if w == "probe"@ {
            Command::Probe
        } else if w == "info"@ {
            Command::Info
        } else if w == "pose"@ {
            Command::Pose
        } else if w == "raw"@ {
            Command::Raw
        } else if w == "pointer"@ {
            Command::Pointer
        } else {
            Command::Unknown
        },
    }
}

/// The characters of a word.
pub open spec fn word_of(arg: Option<&str>) -> Option<Seq<char>> {
    match arg {
        Some(w) => Some(w@),
        None => None,
    }
}

impl Command {
    /// What a word asks for; without one, the device's facts.
    pub fn of(arg: Option<&str>) -> (c: Command)
        ensures
            c == command_named(word_of(arg)),
    {
        match arg {
            None => Command::Info,
            Some(w) => if text::same(w, "probe") {
                Command::Probe
            } else if text::same(w, "info") {
                Command::Info
            } else if text::same(w, "pose") {
                Command::Pose
            } else if text::same(w, "raw") {
                Command::Raw
            } else if text::same(w, "pointer") {
                Command::Pointer
            } else {
                Command::Unknown
            },
        }
    }

    /// What is done with a descriptor that was handed over: orientations are streamed, unless the
    /// `VITURE_MODE` setting asks for pointing.
    pub fn of_setting(mode: Option<&str>) -> (c: Command)
        ensures
            c == (if word_of(mode) == Some("pointer"@) {
                Command::Pointer
            } else {
                Command::Pose
            }),
    {
        match mode {
            Some(w) => if text::same(w, "pointer") {
                Command::Pointer
            } else {
                Command::Pose
            },
            None => Command::Pose,
        }
    }
}

/// The way into the kernel.
#[derive(Clone, Copy, Debug, PartialEq, Eq, Structural)]
pub enum Backend {
    Hidraw,
    Usbfs,
    Uring,
}

/// The way into the kernel that a word names; io_uring is the one to try first.
pub open spec fn backend_named(word: Option<Seq<char>>) -> Backend {
    if word == Some("hidraw"@) {
        Backend::Hidraw
    } else if word == Some("usbfs"@) {
        Backend::Usbfs
    } else {
        Backend::Uring
    }
}

impl Backend {
    /// The way into the kernel that a word names; io_uring is the one to try first.
    pub fn of(arg: Option<&str>) -> (b: Backend)
        ensures
            b == backend_named(word_of(arg)),
    {
        match arg {
            None => Backend::Uring,
            Some(w) => if text::same(w, "hidraw") {
                Backend::Hidraw
            } else if text::same(w, "usbfs") {
                Backend::Usbfs
            } else {
                Backend::Uring
            },
        }
    }

    /// The way to try where this one is not allowed: io_uring is blocked in places where hidraw is
    /// not. A way that was asked for by name is not replaced.
    pub fn fallback(self) -> (b: Option<Backend>)
        ensures
            b == (if self == Backend::Uring {
                Some(Backend::Hidraw)
            } else {
                None
            }),
    {
        match self {
            Backend::Uring => Some(Backend::Hidraw),
            _ => None,
        }
    }
}

/// The rate that a word names; 120 Hz unless it names another.
pub open spec fn rate_named(word: Option<Seq<char>>) -> Rate {
    if word == Some("60"@) {
        Rate::Hz60
    } else if word == Some("90"@) {
        Rate::Hz90
    } else if word == Some("240"@) {
        Rate::Hz240
    } else if word == Some("500"@) {
        Rate::Hz500
    } else if word == Some("1000"@) {
        Rate::Hz1000
    } else {
        Rate::Hz120
    }
}

/// The rate that a word names; 120 Hz unless it names another.
pub fn rate_for(arg: Option<&str>) -> (rate: Rate)
    ensures
        rate == rate_named(word_of(arg)),
{
    match arg {
        None => Rate::Hz120,
        Some(w) => if text::same(w, "60") {
            Rate::Hz60
        } else if text::same(w, "90") {
            Rate::Hz90
        } else if text::same(w, "240") {
            Rate::Hz240
        } else if text::same(w, "500") {
            Rate::Hz500
        } else if text::same(w, "1000") {
            Rate::Hz1000
        } else {
            Rate::Hz120
        },
    }
}

/// What the reader thread puts into the ring.
#[derive(Clone, Copy, Debug, PartialEq, Eq)]
pub enum Sample {
    Pose(Pose),
    Raw(Raw),
}

/// What the reader does with an event.
#[derive(Clone, Copy, Debug)]
pub enum Feed {
    /// Put it into the ring.
    Keep(Sample),
    /// Nothing: it is of another kind.
    Skip,
    /// Wake the consumer: nothing has come for a while.
    Wake,
    /// Stop: reading failed.
    Stop(Error),
}

/// Decides what the reader does with an event.
pub fn feed(r: Result<Option<Event>, Error>) -> (f: Feed)
    ensures
        f == (match r {
            Ok(Some(Event::Pose(p))) => Feed::Keep(Sample::Pose(p)),
            Ok(Some(Event::Raw(p))) => Feed::Keep(Sample::Raw(p)),
            Ok(Some(Event::Other(_))) => Feed::Skip,
            Ok(None) => Feed::Wake,
            Err(e) => Feed::Stop(e),
        }),
{
    match r {
        Ok(Some(Event::Pose(p))) => Feed::Keep(Sample::Pose(p)),
        Ok(Some(Event::Raw(p))) => Feed::Keep(Sample::Raw(p)),
        Ok(Some(Event::Other(_))) => Feed::Skip,
        Ok(None) => Feed::Wake,
        Err(e) => Feed::Stop(e),
    }
}

/// Whether enough has piled up to wake the consumer.
pub fn wakes(queued: usize, coalesce: usize) -> (b: bool)
    ensures
        b == (queued >= coalesce),
{
    queued >= coalesce
}

/// What the consumer has collected so far.
#[derive(Clone, Copy, Debug, PartialEq, Eq, Structural)]
pub struct Tally {
    /// Samples.
    pub total: u64,
    /// Collections that brought something.
    pub batches: u64,
    /// The most samples that one collection brought.
    pub biggest: usize,
}

/// A count that stops at the top.
pub open spec fn counted(n: int) -> u64 {
    if n > u64::MAX {
        u64::MAX
    } else {
        n as u64
    }
}

impl Tally {
    /// The tally after one more collection, of `n` samples.
    pub open spec fn with(self, n: usize) -> Tally {
        Tally {
            total: counted(self.total + n),
            batches: counted(self.batches + 1),
            biggest: if n > self.biggest {
                n
            } else {
                self.biggest
            },
        }
    }

    /// Nothing yet.
    pub fn new() -> (t: Tally)
        ensures
            t == (Tally { total: 0, batches: 0, biggest: 0 }),
    {
        Tally { total: 0, batches: 0, biggest: 0 }
    }

    /// Takes note of a collection, and says whether it brought anything.
    pub fn note(&mut self, n: usize) -> (some: bool)
        ensures
            some == (n > 0),
            !some ==> *final(self) == *old(self),
            some ==> *final(self) == old(self).with(n),
    {
        if n == 0 {
            return false;
        }
        self.total = self.total.saturating_add(n as u64);
        self.batches = self.batches.saturating_add(1);
        if n > self.biggest {
            self.biggest = n;
        }
        true
    }
}

/// How often the newest sample of a stream is shown.
pub const SHOW_EVERY_NS: u64 = 1_000_000_000;

/// What the consumer of a stream does after it has collected what was there.
#[derive(Clone, Copy, Debug, PartialEq, Eq, Structural)]
pub enum Collected {
    /// Nothing was there: park until the reader wakes it.
    Park,
    /// Show the newest sample.
    Show,
    /// Go on collecting.
    GoOn,
}

/// The consumer of a stream.
#[derive(Clone, Copy, Debug, PartialEq, Eq, Structural)]
pub struct Consumer {
    pub tally: Tally,
    /// When a sample was last shown, counted from the start.
    pub shown_ns: u64,
}

/// Whether something that was last shown at one time is due again at another.
pub open spec fn is_due(shown_ns: u64, elapsed_ns: u64, every_ns: u64) -> bool {
    elapsed_ns - shown_ns >= every_ns
}

impl Consumer {
    /// A consumer that has collected nothing yet.
    pub fn new() -> (c: Consumer)
        ensures
            c == (Consumer { tally: Tally { total: 0, batches: 0, biggest: 0 }, shown_ns: 0 }),
    {
        Consumer { tally: Tally::new(), shown_ns: 0 }
    }

    /// Takes note of a collection of `n` samples at a time, and says what to do next.
    pub fn collected(&mut self, n: usize, elapsed_ns: u64) -> (next: Collected)
        ensures
            n == 0 ==> next == Collected::Park && *final(self) == *old(self),
            n > 0 ==> {
                let due = is_due(old(self).shown_ns, elapsed_ns, SHOW_EVERY_NS);
                &&& next == (if due {
                    Collected::Show
                } else {
                    Collected::GoOn
                })
                &&& final(self).tally == old(self).tally.with(n)
                &&& final(self).shown_ns == (if due {
                    elapsed_ns
                } else {
                    old(self).shown_ns
                })
            },
    {
        if !self.tally.note(n) {
            return Collected::Park;
        }
        if elapsed_ns.saturating_sub(self.shown_ns) >= SHOW_EVERY_NS {
            self.shown_ns = elapsed_ns;
            Collected::Show
        } else {
            Collected::GoOn
        }
    }
}

/// How long the pointer waits before it takes the present direction for the centre.
pub const CENTRE_AFTER_NS: u64 = 2_000_000_000;

/// How often the cursor is shown.
pub const CURSOR_EVERY_NS: u64 = 250_000_000;

/// The newest orientation among some samples, oldest first.
pub open spec fn newest_pose(samples: Seq<Sample>) -> Option<Pose>
    decreases samples.len(),
{
    if samples.len() == 0 {
        None
    } else {
        match samples.last() {
            Sample::Pose(p) => Some(p),
            Sample::Raw(_) => newest_pose(samples.drop_last()),
        }
    }
}

/// Pointing with the phone: where the head is, and whether the centre has been taken.
#[derive(Clone, Copy, Debug, PartialEq, Eq)]
pub struct Pointing {
    /// The head's newest orientation.
    pub head: Pose,
    /// How many samples have come with orientations among them.
    pub head_samples: u64,
    /// Whether the centre has been taken.
    pub centred: bool,
    /// When the cursor was last shown, counted from the start.
    pub shown_ns: u64,
}

/// What the pointer does next.
#[derive(Clone, Copy, Debug, PartialEq, Eq, Structural)]
pub struct PointerStep {
    /// Take the present direction for the centre.
    pub recentre: bool,
    /// Show the cursor.
    pub show: bool,
}

impl Pointing {
    /// A head that looks straight ahead, and no centre yet.
    pub fn new() -> (p: Pointing)
        ensures
            p.head.tick == 0,
            p.head.q@ == seq![crate::sim::ONE, 0u32, 0u32, 0u32],
            p.head_samples == 0,
            !p.centred,
            p.shown_ns == 0,
    {
        let q: [u32; 4] = [crate::sim::ONE, 0, 0, 0];
        assert(q@ =~= seq![crate::sim::ONE, 0u32, 0u32, 0u32]);
        Pointing { head: Pose { tick: 0, q }, head_samples: 0, centred: false, shown_ns: 0 }
    }

    /// Takes the samples that have come, oldest first, and says whether there was an orientation
    /// among them.
    pub fn collected(&mut self, samples: &[Sample]) -> (turned: bool)
        ensures
            turned == (newest_pose(samples@) is Some),
            final(self).centred == old(self).centred,
            final(self).shown_ns == old(self).shown_ns,
            match newest_pose(samples@) {
                Some(p) => final(self).head == p && final(self).head_samples == counted(
                    old(self).head_samples + samples@.len(),
                ),
                None => final(self).head == old(self).head && final(self).head_samples
                    == old(self).head_samples,
            },
    {
        let mut left: usize = samples.len();
        assert(samples@.take(left as int) =~= samples@);
        while left > 0
            invariant
                left <= samples@.len(),
                *self == *old(self),
                newest_pose(samples@.take(left as int)) == newest_pose(samples@),
            decreases left,
        {
            let ghost seen = samples@.take(left as int);
            assert(seen.last() == samples@[left - 1]);
            assert(seen.drop_last() =~= samples@.take(left - 1));
            left -= 1;
            if let Sample::Pose(p) = samples[left] {
                self.head = p;
                self.head_samples = self.head_samples.saturating_add(samples.len() as u64);
                return true;
            }
        }
        false
    }

    /// What to do at a time: the centre is taken once, after the wait, and as soon as the phone has
    /// said anything; from then on the cursor is shown now and then.
    pub fn next(&mut self, elapsed_ns: u64, phone_samples: u64) -> (step: PointerStep)
        ensures
            step.recentre == (!old(self).centred && elapsed_ns > CENTRE_AFTER_NS && phone_samples
                > 0),
            final(self).centred == (old(self).centred || step.recentre),
            step.show == (final(self).centred && is_due(
                old(self).shown_ns,
                elapsed_ns,
                CURSOR_EVERY_NS,
            )),
            final(self).shown_ns == (if step.show {
                elapsed_ns
            } else {
                old(self).shown_ns
            }),
            final(self).head == old(self).head,
            final(self).head_samples == old(self).head_samples,
    {
        let recentre: bool = !self.centred && elapsed_ns > CENTRE_AFTER_NS && phone_samples > 0;
        if recentre {
            self.centred = true;
        }
        let show: bool = self.centred && elapsed_ns.saturating_sub(self.shown_ns)
            >= CURSOR_EVERY_NS;
        if show {
            self.shown_ns = elapsed_ns;
        }
        PointerStep { recentre, show }
    }
}

proof fn spelt_alike(word: Seq<char>, bytes: Seq<u8>, other: Seq<char>, others: Seq<u8>)
    requires
        bytes.len() == word.len(),
        others.len() == other.len(),
        forall|i: int| 0 <= i < word.len() ==> (#[trigger] word[i]) as int == bytes[i],
        forall|i: int| 0 <= i < other.len() ==> (#[trigger] other[i]) as int == others[i],
    ensures
        bytes == others <==> word == other,
{
    if bytes == others {
        assert forall|i: int| 0 <= i < word.len() implies word[i] == other[i] by {
            assert(word[i] as int == other[i] as int);
        }
        assert(word =~= other);
    }
    if word == other {
        assert forall|i: int| 0 <= i < bytes.len() implies bytes[i] == others[i] by {
            assert(word[i] as int == bytes[i]);
            assert(other[i] as int == others[i]);
        }
        assert(bytes =~= others);
    }
}

/// A rate is named by its number in decimal digits, and any word that is the number of none gets 120
/// Hz, as no word does.
pub proof fn a_rate_is_named_by_its_number(word: Seq<char>, bytes: Seq<u8>)
    requires
        bytes.len() == word.len(),
        forall|i: int| 0 <= i < word.len() ==> (#[trigger] word[i]) as int == bytes[i],
    ensures
        forall|rate: Rate|
            bytes == text::decimal(rate.per_second() as nat) ==> #[trigger] rate_named(Some(word))
                == rate,
        (forall|rate: Rate| bytes != text::decimal(#[trigger] rate.per_second() as nat))
            ==> rate_named(Some(word)).per_second() == 120,
        rate_named(None).per_second() == 120,
{
    reveal_strlit("60");
    reveal_strlit("90");
    reveal_strlit("240");
    reveal_strlit("500");
    reveal_strlit("1000");
    reveal_with_fuel(text::decimal, 5);
    assert(text::decimal(60) =~= seq![0x36u8, 0x30u8]);
    assert(text::decimal(90) =~= seq![0x39u8, 0x30u8]);
    assert(text::decimal(120) =~= seq![0x31u8, 0x32u8, 0x30u8]);
    assert(text::decimal(240) =~= seq![0x32u8, 0x34u8, 0x30u8]);
    assert(text::decimal(500) =~= seq![0x35u8, 0x30u8, 0x30u8]);
    assert(text::decimal(1000) =~= seq![0x31u8, 0x30u8, 0x30u8, 0x30u8]);
    spelt_alike(word, bytes, "60"@, text::decimal(60));
    spelt_alike(word, bytes, "90"@, text::decimal(90));
    spelt_alike(word, bytes, "240"@, text::decimal(240));
    spelt_alike(word, bytes, "500"@, text::decimal(500));
    spelt_alike(word, bytes, "1000"@, text::decimal(1000));
    if forall|rate: Rate| bytes != text::decimal(#[trigger] rate.per_second() as nat) {
        assert(Rate::Hz60.per_second() == 60);
        assert(Rate::Hz90.per_second() == 90);
        assert(Rate::Hz240.per_second() == 240);
        assert(Rate::Hz500.per_second() == 500);
        assert(Rate::Hz1000.per_second() == 1000);
    }
}

/// The newest orientation is one of the samples, and nothing but raw readings came after it; there is
/// none only where every sample is a raw reading.
pub proof fn the_newest_orientation_is_the_last(samples: Seq<Sample>, i: int, p: Pose)
    ensures
        0 <= i < samples.len() && samples[i] == Sample::Pose(p) && (forall|j: int|
            i < j < samples.len() ==> (#[trigger] samples[j]) is Raw) ==> newest_pose(samples)
            == Some(p),
        newest_pose(samples) is None <==> forall|j: int|
            0 <= j < samples.len() ==> (#[trigger] samples[j]) is Raw,
    decreases samples.len(),
{
    if samples.len() > 0 {
        let shorter = samples.drop_last();
        the_newest_orientation_is_the_last(shorter, i, p);
        assert(samples.last() == samples[samples.len() - 1]);
        assert(forall|j: int| 0 <= j < shorter.len() ==> shorter[j] == samples[j]);
        if samples.last() is Raw && newest_pose(samples) is None {
            assert forall|j: int| 0 <= j < samples.len() implies (#[trigger] samples[j]) is Raw by {
                if j < shorter.len() {
                    assert(shorter[j] is Raw);
                }
            }
        }
    }
}

/// The tally after some collections that brought something, in order.
pub open spec fn tallied(counts: Seq<usize>) -> Tally
    decreases counts.len(),
{
    if counts.len() == 0 {
        Tally { total: 0, batches: 0, biggest: 0 }
    } else {
        tallied(counts.drop_last()).with(counts.last())
    }
}

/// The samples of some collections together.
pub open spec fn sum_of(counts: Seq<usize>) -> int
    decreases counts.len(),
{
    if counts.len() == 0 {
        0
    } else {
        sum_of(counts.drop_last()) + counts.last()
    }
}

proof fn a_sum_counts_up(counts: Seq<usize>)
    ensures
        0 <= sum_of(counts),
        counts.len() > 0 ==> sum_of(counts.drop_last()) <= sum_of(counts),
    decreases counts.len(),
{
    if counts.len() > 0 {
        a_sum_counts_up(counts.drop_last());
    }
}

/// The tally of a run is the number of its samples and of its collections, as long as they can be
/// counted, and the size of its biggest collection: one of them, and none is bigger.
pub proof fn a_tally_adds_up(counts: Seq<usize>)
    requires
        sum_of(counts) <= u64::MAX,
        counts.len() <= u64::MAX,
    ensures
        tallied(counts).total == sum_of(counts),
        tallied(counts).batches == counts.len(),
        forall|i: int| 0 <= i < counts.len() ==> (#[trigger] counts[i]) <= tallied(counts).biggest,
        counts.len() > 0 ==> counts.contains(tallied(counts).biggest),
    decreases counts.len(),
{
    if counts.len() > 0 {
        let shorter = counts.drop_last();
        a_sum_counts_up(counts);
        a_sum_counts_up(shorter);
        a_tally_adds_up(shorter);
        assert(counts.last() == counts[counts.len() - 1]);
        assert(forall|i: int| 0 <= i < shorter.len() ==> shorter[i] == counts[i]);
        assert forall|i: int| 0 <= i < counts.len() implies (#[trigger] counts[i])
            <= tallied(counts).biggest by {
            if i < shorter.len() {
                assert(shorter[i] <= tallied(shorter).biggest);
            }
        }
        if tallied(counts).biggest != counts.last() {
            if shorter.len() > 0 {
                let i = choose|i: int| 0 <= i < shorter.len() && shorter[i] == tallied(shorter).biggest;
                assert(counts[i] == tallied(counts).biggest);
            }
        }
    }
}

/// Something that is shown when it is due, and noted as shown at that time, is shown again only when
/// the whole span has passed, and then at once.
pub proof fn a_showing_is_due_after_its_span(shown_ns: u64, earlier_ns: u64, later_ns: u64, every_ns: u64)
    requires
        is_due(shown_ns, earlier_ns, every_ns),
    ensures
        earlier_ns >= shown_ns + every_ns,
        is_due(earlier_ns, later_ns, every_ns) <==> later_ns >= earlier_ns + every_ns,
{
}

/// A stream is shown once a second, and the cursor four times as often.
pub proof fn a_stream_is_shown_once_a_second(shown_ns: u64, elapsed_ns: u64)
    ensures
        is_due(shown_ns, elapsed_ns, SHOW_EVERY_NS) <==> elapsed_ns >= shown_ns + 1_000_000_000,
        is_due(shown_ns, elapsed_ns, CURSOR_EVERY_NS) <==> elapsed_ns >= shown_ns + 250_000_000,
        elapsed_ns > CENTRE_AFTER_NS <==> elapsed_ns > 2_000_000_000,
{
}

} // verus!
