//! The phone's orientation, as `termux-sensor` prints it.
//!
//! Termux:API prints one JSON object per sample over many lines, so it is enough to find `"values"`
//! and collect the numbers that follow, up to the closing bracket. That is robust against the exact
//! key name, which differs between devices.
use crate::text;
use vstd::prelude::*;

verus! {

/// A sample of the rotation vector: x, y and z, and w where the sensor gives it. Each is the bit
/// pattern of a single-precision number.
#[derive(Clone, Copy, Debug, PartialEq, Eq, Structural)]
pub struct Reading {
    pub x: u32,
    pub y: u32,
    pub z: u32,
    pub w: Option<u32>,
}

/// The sample that collected numbers make, where there are enough of them.
pub open spec fn reading_of(values: Seq<u32>) -> Option<Reading> {
    if values.len() < 3 {
        None
    } else {
        Some(
            Reading {
                x: values[0],
                y: values[1],
                z: values[2],
                w: if values.len() >= 4 {
                    Some(values[3])
                } else {
                    None
                },
            },
        )
    }
}

/// What a line is to the reader of samples.
#[derive(Clone, Copy, Debug, PartialEq, Eq, Structural)]
pub enum Line {
    /// It announces the numbers of a sample.
    Start,
    /// It closes them.
    End,
    /// Anything else.
    Inside,
}

/// What a line is: the announcement outranks the bracket.
pub open spec fn kind_of(line: Seq<u8>) -> Line {
    if text::occurs(line, text::ascii("\"values\"")) {
        Line::Start
    } else if text::occurs(line, seq![0x5du8]) {
        Line::End
    } else {
        Line::Inside
    }
}

/// What is being collected: nothing, or the numbers so far.
pub open spec fn collected_after(
    collecting: Option<Seq<u32>>,
    line: Seq<u8>,
    number: Option<u32>,
) -> Option<Seq<u32>> {
    match kind_of(line) {
        Line::Start => Some(Seq::empty()),
        Line::End => None,
        Line::Inside => match (collecting, number) {
            (Some(values), Some(v)) => Some(values.push(v)),
            _ => collecting,
        },
    }
}

/// The sample that a line completes, if it completes one.
pub open spec fn completed_by(collecting: Option<Seq<u32>>, line: Seq<u8>) -> Option<Reading> {
    match (kind_of(line), collecting) {
        (Line::End, Some(values)) => reading_of(values),
        _ => None,
    }
}

/// The reader of samples, between two lines.
pub struct SampleReader {
    collecting: bool,
    values: Vec<u32>,
}

impl View for SampleReader {
    type V = Option<Seq<u32>>;

    /// The numbers collected so far, where some are being collected.
    closed spec fn view(&self) -> Option<Seq<u32>> {
        if self.collecting {
            Some(self.values@)
        } else {
            None
        }
    }
}

impl SampleReader {
    /// A reader that has seen nothing yet.
    pub fn new() -> (r: SampleReader)
        ensures
            r@ is None,
    {
        SampleReader { collecting: false, values: Vec::new() }
    }

    /// Takes the next line, and the number it holds where it holds one, and returns the sample that
    /// it completes.
    pub fn feed(&mut self, line: &[u8], number: Option<u32>) -> (sample: Option<Reading>)
        ensures
            final(self)@ == collected_after(old(self)@, line@, number),
            sample == completed_by(old(self)@, line@),
    {
        proof {
            reveal_strlit("\"values\"");
        }
        if text::contains(line, text::ascii_bytes("\"values\"")) {
            self.collecting = true;
            self.values = Vec::new();
            assert(self.values@ =~= Seq::<u32>::empty());
            return None;
        }
        let bracket: [u8; 1] = [0x5d];
        assert(bracket@ =~= seq![0x5du8]);
        let closes: bool = text::contains(line, bracket.as_slice());
        if !self.collecting {
            return None;
        }
        if closes {
            self.collecting = false;
            if self.values.len() < 3 {
                return None;
            }
            let w: Option<u32> = if self.values.len() >= 4 {
                Some(self.values[3])
            } else {
                None
            };
            return Some(
                Reading { x: self.values[0], y: self.values[1], z: self.values[2], w },
            );
        }
        if let Some(v) = number {
            self.values.push(v);
        }
        None
    }
}

/// What is collected after a run of lines.
pub open spec fn collected_over(
    collecting: Option<Seq<u32>>,
    lines: Seq<(Seq<u8>, Option<u32>)>,
) -> Option<Seq<u32>>
    decreases lines.len(),
{
    if lines.len() == 0 {
        collecting
    } else {
        collected_after(
            collected_over(collecting, lines.drop_last()),
            lines.last().0,
            lines.last().1,
        )
    }
}

/// The numbers that some lines hold, in order.
pub open spec fn numbers_of(lines: Seq<(Seq<u8>, Option<u32>)>) -> Seq<u32>
    decreases lines.len(),
{
    if lines.len() == 0 {
        Seq::empty()
    } else {
        match lines.last().1 {
            Some(v) => numbers_of(lines.drop_last()).push(v),
            None => numbers_of(lines.drop_last()),
        }
    }
}

/// A sample is exactly the numbers between its announcement and its bracket, in order, whatever came
/// before the announcement.
pub proof fn a_sample_is_the_numbers_in_between(
    collecting: Option<Seq<u32>>,
    start: (Seq<u8>, Option<u32>),
    lines: Seq<(Seq<u8>, Option<u32>)>,
    end: Seq<u8>,
)
    requires
        kind_of(start.0) == Line::Start,
        forall|i: int| 0 <= i < lines.len() ==> kind_of((#[trigger] lines[i]).0) == Line::Inside,
        kind_of(end) == Line::End,
    ensures
        completed_by(
            collected_over(collected_after(collecting, start.0, start.1), lines),
            end,
        ) == reading_of(numbers_of(lines)),
{
    numbers_are_collected(lines);
}

proof fn numbers_are_collected(lines: Seq<(Seq<u8>, Option<u32>)>)
    requires
        forall|i: int| 0 <= i < lines.len() ==> kind_of((#[trigger] lines[i]).0) == Line::Inside,
    ensures
        collected_over(Some(Seq::empty()), lines) == Some(numbers_of(lines)),
    decreases lines.len(),
{
    if lines.len() > 0 {
        let shorter = lines.drop_last();
        assert forall|i: int| 0 <= i < shorter.len() implies kind_of((#[trigger] shorter[i]).0)
            == Line::Inside by {
            assert(shorter[i] == lines[i]);
        }
        numbers_are_collected(shorter);
        assert(kind_of(lines[lines.len() - 1].0) == Line::Inside);
    }
}

/// A line that holds the announcement in its quotes announces, whatever stands around it; without a
/// quote none does, and then a bracket closes, wherever it stands, and nothing else does.
pub proof fn lines_are_told_apart(before: Seq<u8>, after: Seq<u8>, line: Seq<u8>)
    ensures
        kind_of(before + text::ascii("\"values\"") + after) == Line::Start,
        !line.contains(0x22) && line.contains(0x5d) ==> kind_of(line) == Line::End,
        !line.contains(0x22) && !line.contains(0x5d) ==> kind_of(line) == Line::Inside,
        !line.contains(0x5d) ==> kind_of(line) != Line::End,
{
    reveal_strlit("\"values\"");
    let word = text::ascii("\"values\"");
    let whole = before + word + after;
    assert(whole.subrange(before.len() as int, before.len() as int + word.len()) =~= word);
    assert(text::occurs_at(whole, word, before.len() as int));
    if text::occurs(line, word) {
        let at = choose|at: int| text::occurs_at(line, word, at);
        assert(line.subrange(at, at + word.len())[0] == line[at]);
        assert(word[0] == 0x22);
        assert(line.contains(0x22));
    }
    if line.contains(0x5d) {
        let at = choose|at: int| 0 <= at < line.len() && line[at] == 0x5d;
        assert(line.subrange(at, at + 1) =~= seq![0x5du8]);
        assert(text::occurs_at(line, seq![0x5du8], at));
    }
    if text::occurs(line, seq![0x5du8]) {
        let at = choose|at: int| text::occurs_at(line, seq![0x5du8], at);
        assert(line.subrange(at, at + 1)[0] == line[at]);
        assert(line.contains(0x5d));
    }
}

/// Where nothing has been announced, nothing is collected and no line completes a sample; after a
/// bracket it is so again.
pub proof fn nothing_is_read_without_an_announcement(
    lines: Seq<(Seq<u8>, Option<u32>)>,
    end: Seq<u8>,
    collecting: Option<Seq<u32>>,
    number: Option<u32>,
)
    requires
        forall|i: int| 0 <= i < lines.len() ==> kind_of((#[trigger] lines[i]).0) != Line::Start,
    ensures
        collected_over(None, lines) is None,
        completed_by(collected_over(None, lines), end) is None,
        kind_of(end) == Line::End ==> collected_after(collecting, end, number) is None,
    decreases lines.len(),
{
    if lines.len() > 0 {
        let shorter = lines.drop_last();
        assert(forall|i: int| 0 <= i < shorter.len() ==> shorter[i] == lines[i]);
        nothing_is_read_without_an_announcement(shorter, end, collecting, number);
        assert(kind_of(lines[lines.len() - 1].0) != Line::Start);
    }
}

/// Three or more numbers make a sample of the first ones, in order, and fewer make none.
pub proof fn a_sample_takes_the_first_numbers(values: Seq<u32>)
    ensures
        reading_of(values) is Some <==> values.len() >= 3,
        reading_of(values) matches Some(r) ==> {
            &&& seq![r.x, r.y, r.z] == values.take(3)
            &&& r.w matches Some(w) ==> values.len() > 3 && seq![r.x, r.y, r.z, w] == values.take(4)
            &&& r.w is None ==> values.len() == 3
        },
{
}

} // verus!
