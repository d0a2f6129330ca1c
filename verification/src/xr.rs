//! The session behind a head-tracked desktop: opening the glasses, reading their stream, and leaving
//! them the way they were found.
use crate::device;
use crate::device::{Device, Transport};
use crate::frame;
use crate::frame::{Error, Event, Pose, Rate, Raw, Streams};
use crate::msg;
use crate::sim;
use crate::text;
use vstd::prelude::*;
use vstd::string::*;
use vstd::utf8::*;

verus! {

/// How many times to ask the device to start streaming before giving up.
pub const OPEN_ATTEMPTS: u32 = 5;

/// How many reads may fail in a row before the stream is called dead.
pub const MAX_CONSECUTIVE_ERRORS: u32 = 40;

/// How long one read waits for an event.
pub const POLL_NS: u64 = 50_000_000;

/// Whether an error means the device has gone, as opposed to a read having gone wrong: the
/// descriptor no longer refers to anything (ENOENT, EBADF, ENODEV, EPIPE, ESHUTDOWN).
pub open spec fn is_gone(error: Error) -> bool {
    error == Error::Io(Some(2)) || error == Error::Io(Some(9)) || error == Error::Io(Some(19))
        || error == Error::Io(Some(32)) || error == Error::Io(Some(108))
}

/// Whether an error means the device has gone, as opposed to a read having gone wrong.
///
/// Worth drawing precisely: wrong in one direction this ends a working session, wrong in the other
/// it spins forever on a device that is not there.
pub fn is_fatal(error: &Error) -> (fatal: bool)
    ensures
        fatal == is_gone(*error),
{
    match error {
        Error::Io(Some(code)) => *code == 2 || *code == 9 || *code == 19 || *code == 32 || *code
            == 108,
        _ => false,
    }
}

/// The number under which an error is recorded: the operating system's own, minus one where it gave
/// none, and minus two where the error is not the operating system's.
pub open spec fn recorded_code(error: Error) -> int {
    match error {
        Error::Io(Some(code)) => code as int,
        Error::Io(None) => -1,
        _ => -2,
    }
}

fn error_code(error: &Error) -> (code: i32)
    ensures
        code == recorded_code(*error),
{
    match error {
        Error::Io(Some(code)) => *code,
        Error::Io(None) => -1,
        _ => -2,
    }
}

/// The rate asked for by a number of samples per second; anything but 60, 90 and 240 gives 120.
pub fn rate_for_hz(hz: u32) -> (rate: Rate)
    ensures
        hz == 60 || hz == 90 || hz == 240 ==> rate.per_second() == hz,
        hz != 60 && hz != 90 && hz != 240 ==> rate == Rate::Hz120,
{
    match hz {
        60 => Rate::Hz60,
        90 => Rate::Hz90,
        240 => Rate::Hz240,
        _ => Rate::Hz120,
    }
}

/// The streams that are run: poses, unless a choice asks for raw readings or both.
pub open spec fn chosen_streams(choice: Option<Seq<char>>) -> Streams {
    if choice == Some("raw"@) {
        Streams(0x02)
    } else if choice == Some("both"@) {
        Streams(0x03)
    } else {
        Streams(0x01)
    }
}

/// The streams to run, from the value of the `VITURE_STREAMS` setting where it is set.
///
/// Poses only by default: asked for poses and raw readings together, the device says yes and then
/// sends nothing at all.
pub fn streams_for(choice: Option<&str>) -> (streams: Streams)
    ensures
        streams == chosen_streams(
            match choice {
                Some(text) => Some(text@),
                None => None,
            },
        ),
{
    match choice {
        Some(word) => {
            if text::same(word, "raw") {
                Streams::raw()
            } else if text::same(word, "both") {
                assert(1u8 | 2u8 == 3u8) by (bit_vector);
                Streams::pose().with(Streams::raw())
            } else {
                Streams::pose()
            }
        },
        None => Streams::pose(),
    }
}

/// Device facts read once while the command path is still free.
#[derive(Clone)]
pub struct DeviceInfo {
    pub firmware: String,
    pub brightness: i32,
    pub volume: i32,
    pub display_mode: i32,
    pub worn: bool,
}

impl Default for DeviceInfo {
    fn default() -> (info: DeviceInfo)
        ensures
            info.firmware@ == Seq::<char>::empty(),
            info.brightness == 0,
            info.volume == 0,
            info.display_mode == 0,
            !info.worn,
    {
        let firmware = String::new();
        assert(firmware@ =~= Seq::<char>::empty());
        DeviceInfo { firmware, brightness: 0, volume: 0, display_mode: 0, worn: false }
    }
}

/// A value the device was asked for, or minus one where it did not give it.
pub open spec fn value_or_none(r: Result<u8, Error>) -> int {
    match r {
        Ok(v) => v as int,
        Err(_) => -1,
    }
}

/// Whether a text is what the device answered, or `unknown` where it did not answer with one.
pub open spec fn is_text_or_unknown(text: Seq<char>, r: Result<Seq<u8>, Error>) -> bool {
    match r {
        Ok(bytes) => encode_utf8(text) == bytes,
        Err(_) => text == "unknown"@,
    }
}

/// How a device's facts were read: the transport after each of the first four questions, what the
/// buffer for the text held before and after, and what each of the five questions came out as.
pub struct Interview<T> {
    pub links: (T, T, T, T),
    pub buffer: (Seq<u8>, Seq<u8>),
    pub firmware: Result<Seq<u8>, Error>,
    pub brightness: Result<u8, Error>,
    pub volume: Result<u8, Error>,
    pub display_mode: Result<u8, Error>,
    pub worn: Result<u8, Error>,
}

/// Whether an interview took a transport from `before` to `after` and left these facts: the
/// firmware, the brightness, the volume, the display mode and whether the glasses are worn are asked
/// for in this order, and a question that fails does not keep the next from being asked.
pub open spec fn is_interview<T: Transport>(
    before: T,
    after: T,
    talk: Interview<T>,
    info: DeviceInfo,
) -> bool {
    &&& talk.buffer.0.len() == 64
    &&& device::asks_text(
        before,
        talk.links.0,
        msg::VERSION,
        talk.buffer.0,
        talk.buffer.1,
        talk.firmware,
    )
    &&& device::asks_byte(talk.links.0, talk.links.1, msg::BRIGHTNESS, talk.brightness)
    &&& device::asks_byte(talk.links.1, talk.links.2, msg::VOLUME, talk.volume)
    &&& device::asks_byte(talk.links.2, talk.links.3, msg::DISPLAY_MODE, talk.display_mode)
    &&& device::asks_byte(talk.links.3, after, msg::WEAR_STATUS, talk.worn)
    &&& is_text_or_unknown(info.firmware@, talk.firmware)
    &&& info.brightness == value_or_none(talk.brightness)
    &&& info.volume == value_or_none(talk.volume)
    &&& info.display_mode == value_or_none(talk.display_mode)
    &&& info.worn == (talk.worn matches Ok(v) && v != 0)
}

fn or_none(r: Result<u8, Error>) -> (v: i32)
    ensures
        v == value_or_none(r),
{
    match r {
        Ok(v) => v as i32,
        Err(_) => -1,
    }
}

/// Reads the static facts while nothing else is using the command path. A fact the device does not
/// give is `unknown`, minus one, or not worn.
pub fn read_info<T: Transport>(dev: &mut Device<T>) -> (info: DeviceInfo)
    ensures
        exists|talk: Interview<T>|
            #[trigger] is_interview(old(dev).link(), final(dev).link(), talk, info),
{
    let mut buf: [u8; 64] = [0; 64];
    let ghost room = buf@;
    let text = dev.firmware_version(&mut buf);
    let ghost first = device::text_bytes(text);
    let firmware: String = match text {
        Ok(text) => text.to_owned(),
        Err(_) => "unknown".to_owned(),
    };
    let ghost held = buf@;
    let ghost a = dev.link();
    let brightness = dev.brightness();
    let ghost b = dev.link();
    let volume = dev.volume();
    let ghost c = dev.link();
    let display_mode = dev.get_u8(msg::DISPLAY_MODE);
    let ghost d = dev.link();
    let worn = dev.get_u8(msg::WEAR_STATUS);
    let info = DeviceInfo {
        firmware,
        brightness: or_none(brightness),
        volume: or_none(volume),
        display_mode: or_none(display_mode),
        worn: match worn {
            Ok(v) => v != 0,
            Err(_) => false,
        },
    };
    proof {
        let talk = Interview {
            links: (a, b, c, d),
            buffer: (room, held),
            firmware: first,
            brightness,
            volume,
            display_mode,
            worn,
        };
        assert(is_interview(old(dev).link(), dev.link(), talk, info));
    }
    info
}

/// Whether these are the attempts to start the streams: `links` holds the transport before each and
/// after the last that failed, and `errors` why each of those failed. An error that means the device
/// has gone ends it at once, and so does the last attempt.
pub open spec fn is_start<T: Transport>(
    after: T,
    links: Seq<T>,
    errors: Seq<Error>,
    streams: Streams,
    rate: Rate,
    r: Result<(), Error>,
) -> bool {
    let payload = device::imu_payload(streams, rate);
    &&& links.len() == errors.len() + 1
    &&& forall|k: int|
        0 <= k < errors.len() ==> device::commands(
            links[k],
            links[k + 1],
            msg::IMU_CTRL,
            payload,
            Err(#[trigger] errors[k]),
        )
    &&& forall|k: int| 0 <= k < errors.len() - 1 ==> !is_gone(#[trigger] errors[k])
    &&& match r {
        Ok(_) => {
            &&& errors.len() < OPEN_ATTEMPTS
            &&& errors.len() > 0 ==> !is_gone(errors.last())
            &&& device::commands(links.last(), after, msg::IMU_CTRL, payload, Ok(()))
        },
        Err(e) => {
            &&& 0 < errors.len() <= OPEN_ATTEMPTS
            &&& e == errors.last()
            &&& is_gone(e) || errors.len() == OPEN_ATTEMPTS
            &&& after == links.last()
        },
    }
}

/// Starts the streams. This is the one step of opening that must succeed, so it is tried again:
/// the difference between "this device is not there" and "that read went wrong" is not visible in
/// one attempt.
pub fn start_streams<T: Transport>(dev: &mut Device<T>, streams: Streams, rate: Rate) -> (r: Result<
    (),
    Error,
>)
    ensures
        exists|links: Seq<T>, errors: Seq<Error>|
            links.len() > 0 && links[0] == old(dev).link() && #[trigger] is_start(
                final(dev).link(),
                links,
                errors,
                streams,
                rate,
                r,
            ),
{
    let ghost payload = device::imu_payload(streams, rate);
    let ghost mut links: Seq<T> = seq![dev.link()];
    let ghost mut errors: Seq<Error> = Seq::empty();
    let mut attempt: u32 = 0;
    loop
        invariant
            payload == device::imu_payload(streams, rate),
            attempt < OPEN_ATTEMPTS,
            errors.len() == attempt,
            links.len() == attempt + 1,
            links[0] == old(dev).link(),
            links.last() == dev.link(),
            forall|k: int| 0 <= k < errors.len() ==> !is_gone(#[trigger] errors[k]),
            forall|k: int|
                0 <= k < errors.len() ==> device::commands(
                    links[k],
                    links[k + 1],
                    msg::IMU_CTRL,
                    payload,
                    Err(#[trigger] errors[k]),
                ),
        decreases OPEN_ATTEMPTS - attempt,
    {
        match dev.set_imu(streams, rate) {
            Ok(_) => {
                assert(is_start(dev.link(), links, errors, streams, rate, Ok(())));
                return Ok(());
            },
            Err(e) => {
                proof {
                    let before = links;
                    let earlier = errors;
                    links = links.push(dev.link());
                    errors = errors.push(e);
                    assert forall|k: int| 0 <= k < errors.len() implies device::commands(
                        links[k],
                        links[k + 1],
                        msg::IMU_CTRL,
                        payload,
                        Err(#[trigger] errors[k]),
                    ) by {
                        if k < earlier.len() {
                            assert(errors[k] == earlier[k]);
                            assert(links[k] == before[k] && links[k + 1] == before[k + 1]);
                        }
                    }
                }
                attempt += 1;
                if is_fatal(&e) || attempt >= OPEN_ATTEMPTS {
                    assert(is_start(dev.link(), links, errors, streams, rate, Err(e)));
                    return Err(e);
                }
            },
        }
    }
}

/// Marks a pending display mode as carrying a request rather than being idle.
pub const PENDING_SET: u32 = 0x100;

/// The word that carries a request for a display mode from another thread to the reader.
pub fn pending_word(mode: u8) -> (word: u32)
    ensures
        word == PENDING_SET + mode,
{
    PENDING_SET + mode as u32
}

/// The display mode that a word carries, if it carries a request at all.
pub open spec fn requested_mode(word: u32) -> Option<u8> {
    if word / 0x100 % 2 == 1 {
        Some((word % 0x100) as u8)
    } else {
        None
    }
}

fn pending_mode(word: u32) -> (mode: Option<u8>)
    ensures
        mode == requested_mode(word),
{
    if word / 0x100 % 2 == 1 {
        Some((word % 0x100) as u8)
    } else {
        None
    }
}

/// A request reads back from its word, every mode included, and an idle word carries none.
pub proof fn a_request_reads_back(mode: u8)
    ensures
        requested_mode((PENDING_SET + mode) as u32) == Some(mode),
        requested_mode(0) is None,
{
}

/// The version of a set of words while it is being written: odd.
pub fn write_begins(version: u32) -> (v: u32)
    ensures
        v == (version + 1) % 0x1_0000_0000,
{
    version.wrapping_add(1)
}

/// The version of a set of words once it has been written: even again.
pub fn write_ends(version: u32) -> (v: u32)
    ensures
        v == (version + 2) % 0x1_0000_0000,
{
    version.wrapping_add(2)
}

/// Whether a read between two looks at the version saw the words whole: no write was in progress at
/// the first look, and none has begun since.
pub fn was_whole(before: u32, after: u32) -> (whole: bool)
    ensures
        whole == (before % 2 == 0 && after == before),
{
    before % 2 == 0 && after == before
}

/// How many times a reader retries before it takes what is there.
pub const LOAD_RETRIES: u32 = 8;

/// A read is taken for whole only where no write touched it: from an even version, a write in
/// progress shows as odd at the first look, and one that began after the first look as another
/// version at the second, however many writes follow it, up to the wrap of the counter.
pub proof fn a_write_in_between_is_seen(version: u32, writes: int)
    requires
        version % 2 == 0,
        0 < writes < 0x8000_0000,
    ensures
        (version + 1) % 0x1_0000_0000 % 2 == 1,
        (version + 2) % 0x1_0000_0000 % 2 == 0,
        (version + 2 * writes) % 0x1_0000_0000 != version,
        (version + 2 * writes - 1) % 0x1_0000_0000 != version,
{
}

/// What a session keeps between two reads.
#[derive(Clone, Copy, Debug, PartialEq, Eq, Structural)]
pub struct Session {
    /// The display mode the panel was found in, or minus one where it is not known.
    pub found_mode: i32,
    /// Whether the session has ever asked the panel for another mode, be it with success or not.
    pub strayed: bool,
    /// Errors since the last read that worked.
    pub consecutive_errors: u32,
}

/// What one read amounts to.
#[derive(Clone, Copy, Debug)]
pub enum Turn {
    /// A new orientation.
    Pose(Pose),
    /// New readings.
    Raw(Raw),
    /// An event of another kind.
    Other,
    /// Nothing came.
    Quiet,
    /// The read went wrong, and the session goes on; the number to record.
    Failed(i32),
    /// The session is over; the number to record.
    Over(i32),
}

/// Whether an error ends a session: the device has gone, or nothing has worked for too long.
pub open spec fn ends(session: Session, error: Error) -> bool {
    is_gone(error) || session.consecutive_errors + 1 >= MAX_CONSECUTIVE_ERRORS
}

/// The session after a read.
pub open spec fn session_after(session: Session, r: Result<Option<Event>, Error>) -> Session {
    match r {
        Ok(_) => Session { consecutive_errors: 0, ..session },
        Err(error) => if is_gone(error) {
            session
        } else {
            Session {
                consecutive_errors: (session.consecutive_errors + 1) as u32,
                ..session
            }
        },
    }
}

/// Whether a read amounts to a turn.
pub open spec fn amounts_to(session: Session, r: Result<Option<Event>, Error>, turn: Turn) -> bool {
    match r {
        Ok(Some(Event::Pose(p))) => turn == Turn::Pose(p),
        Ok(Some(Event::Raw(p))) => turn == Turn::Raw(p),
        Ok(Some(Event::Other(_))) => turn == Turn::Other,
        Ok(None) => turn == Turn::Quiet,
        Err(error) => match turn {
            Turn::Failed(code) => code == recorded_code(error) && !ends(session, error),
            Turn::Over(code) => code == recorded_code(error) && ends(session, error),
            _ => false,
        },
    }
}

impl Session {
    /// What holds while a session runs.
    pub open spec fn wf(self) -> bool {
        &&& self.consecutive_errors < MAX_CONSECUTIVE_ERRORS
        &&& -1 <= self.found_mode <= 0xff
    }

    /// A session on a panel that was found in a mode, or in an unknown one.
    pub fn new(found_mode: i32) -> (s: Session)
        requires
            -1 <= found_mode <= 0xff,
        ensures
            s == (Session { found_mode, strayed: false, consecutive_errors: 0 }),
            s.wf(),
    {
        Session { found_mode, strayed: false, consecutive_errors: 0 }
    }

    /// Takes note of a read, and says what it amounts to.
    ///
    /// A device that has gone is worth stopping for; a read that went wrong is not. Transient
    /// errors are counted and the count is cleared by the next success, so persistent failure still
    /// ends the session, on evidence rather than on suspicion.
    pub fn observe(&mut self, r: Result<Option<Event>, Error>) -> (turn: Turn)
        requires
            old(self).wf(),
        ensures
            *final(self) == session_after(*old(self), r),
            amounts_to(*old(self), r, turn),
            turn is Over || final(self).wf(),
    {
        match r {
            Ok(event) => {
                self.consecutive_errors = 0;
                match event {
                    Some(Event::Pose(p)) => Turn::Pose(p),
                    Some(Event::Raw(p)) => Turn::Raw(p),
                    Some(Event::Other(_)) => Turn::Other,
                    None => Turn::Quiet,
                }
            },
            Err(error) => {
                let code: i32 = error_code(&error);
                if is_fatal(&error) {
                    return Turn::Over(code);
                }
                self.consecutive_errors += 1;
                if self.consecutive_errors >= MAX_CONSECUTIVE_ERRORS {
                    Turn::Over(code)
                } else {
                    Turn::Failed(code)
                }
            },
        }
    }

    /// The mode to put the panel back into when the session ends: the one it was found in, where
    /// the session ever asked for another one. That it asked for the right one later on settles
    /// nothing, for the panel may have refused.
    pub open spec fn owed_mode(self) -> Option<u8> {
        if self.strayed && 0 <= self.found_mode <= 0xff {
            Some(self.found_mode as u8)
        } else {
            None
        }
    }

    /// The mode to put the panel back into when the session ends.
    pub fn closing_mode(&self) -> (mode: Option<u8>)
        ensures
            mode == self.owed_mode(),
    {
        if self.strayed && 0 <= self.found_mode && self.found_mode <= 0xff {
            Some(self.found_mode as u8)
        } else {
            None
        }
    }

    /// One round of the reader: sends a display-mode change that is waiting, which is only possible
    /// between two reads, and then reads the next event. A change that fails does not end the
    /// session.
    pub fn round<T: Transport>(
        &mut self,
        dev: &mut Device<T>,
        setter: u16,
        pending: u32,
    ) -> (turn: Turn)
        requires
            old(self).wf(),
        ensures
            exists|mid: T, r: Result<Option<Event>, Error>|
                {
                    &&& #[trigger] sends_pending(old(dev).link(), mid, setter, pending)
                    &&& #[trigger] reads_next(mid, final(dev).link(), r)
                    &&& *final(self) == session_after(after_pending(*old(self), pending), r)
                    &&& amounts_to(after_pending(*old(self), pending), r, turn)
                },
            turn is Over || final(self).wf(),
    {
        if let Some(mode) = pending_mode(pending) {
            let sent = dev.set_display_mode_raw(setter, mode);
            if mode as i32 != self.found_mode {
                self.strayed = true;
            }
            assert(device::commands(old(dev).link(), dev.link(), setter, device::mode_payload(mode), sent));
        }
        let ghost mid = dev.link();
        assert(sends_pending(old(dev).link(), mid, setter, pending));
        let r = dev.next_event(POLL_NS);
        assert(reads_next(mid, dev.link(), r));
        self.observe(r)
    }

    /// Ends a session: puts the panel back where the session changed it, and stops the streams. A
    /// session that left the panel alone does not speak to it. Failures are ignored: there is
    /// nobody left to act on them.
    pub fn close<T: Transport>(self, dev: &mut Device<T>, setter: u16)
        ensures
            exists|mid: T|
                {
                    &&& #[trigger] restores(old(dev).link(), mid, setter, self.owed_mode())
                    &&& stops(mid, final(dev).link())
                },
    {
        if let Some(mode) = self.closing_mode() {
            let put_back = dev.set_display_mode_raw(setter, mode);
            assert(device::commands(old(dev).link(), dev.link(), setter, device::mode_payload(mode), put_back));
        }
        let ghost mid = dev.link();
        assert(restores(old(dev).link(), mid, setter, self.owed_mode()));
        let stopped = dev.set_imu(Streams::off(), Rate::Hz120);
        assert(device::commands(
            mid,
            dev.link(),
            msg::IMU_CTRL,
            device::imu_payload(Streams(0x00), Rate::Hz120),
            stopped,
        ));
        assert(stops(mid, dev.link()));
    }
}

/// The session after a pending word was looked at.
pub open spec fn after_pending(session: Session, pending: u32) -> Session {
    match requested_mode(pending) {
        Some(mode) => Session {
            strayed: session.strayed || mode as int != session.found_mode,
            ..session
        },
        None => session,
    }
}

/// Whether the panel was asked for the mode that a pending word carries, if it carries one.
pub open spec fn sends_pending<T: Transport>(
    before: T,
    after: T,
    setter: u16,
    pending: u32,
) -> bool {
    restores(before, after, setter, requested_mode(pending))
}

/// Whether the panel was asked for a mode, if there is one to ask for; otherwise nothing was said.
pub open spec fn restores<T: Transport>(
    before: T,
    after: T,
    setter: u16,
    mode: Option<u8>,
) -> bool {
    match mode {
        Some(mode) => exists|r: Result<(), Error>|
            #[trigger] device::commands(before, after, setter, device::mode_payload(mode), r),
        None => after == before,
    }
}

/// Whether the streams were asked to stop.
pub open spec fn stops<T: Transport>(before: T, after: T) -> bool {
    exists|r: Result<(), Error>|
        #[trigger] device::commands(
            before,
            after,
            msg::IMU_CTRL,
            device::imu_payload(Streams(0x00), Rate::Hz120),
            r,
        )
}

/// Whether the next event was waited for, and read as `r`.
pub open spec fn reads_next<T: Transport>(
    before: T,
    after: T,
    r: Result<Option<Event>, Error>,
) -> bool {
    exists|got: Result<Seq<u8>, Error>|
        {
            &&& #[trigger] before.receives(POLL_NS, after, got)
            &&& match got {
                Ok(report) => frame::reads_as_event(report, r),
                Err(e) => r == Err::<Option<Event>, Error>(e),
            }
        }
}

/// A session after a run of reads, or `None` where one of them ended it.
pub open spec fn after_reads(
    session: Session,
    reads: Seq<Result<Option<Event>, Error>>,
) -> Option<Session>
    decreases reads.len(),
{
    if reads.len() == 0 {
        Some(session)
    } else {
        match after_reads(session, reads.drop_last()) {
            None => None,
            Some(s) => match reads.last() {
                Err(error) => if ends(s, error) {
                    None
                } else {
                    Some(session_after(s, reads.last()))
                },
                Ok(_) => Some(session_after(s, reads.last())),
            },
        }
    }
}

/// How many reads in a row failed at the end of a run.
pub open spec fn failures_at_the_end(reads: Seq<Result<Option<Event>, Error>>) -> int
    decreases reads.len(),
{
    if reads.len() == 0 || reads.last() is Ok {
        0
    } else {
        1 + failures_at_the_end(reads.drop_last())
    }
}

/// Flaky reads do not end a session: as long as the device has not gone, and fewer than
/// [`MAX_CONSECUTIVE_ERRORS`] reads failed in a row at any point, the session goes on, and has
/// counted the failures since the last success.
pub proof fn flaky_reads_do_not_end_a_session(
    session: Session,
    reads: Seq<Result<Option<Event>, Error>>,
)
    requires
        session.consecutive_errors == 0,
        forall|k: int|
            0 <= k < reads.len() ==> !((#[trigger] reads[k]) matches Err(e) && is_gone(e)),
        forall|k: int|
            0 <= k <= reads.len() ==> failures_at_the_end(#[trigger] reads.take(k))
                < MAX_CONSECUTIVE_ERRORS,
    ensures
        after_reads(session, reads) matches Some(s) && s.consecutive_errors == failures_at_the_end(
            reads,
        ) && s.strayed == session.strayed && s.found_mode == session.found_mode,
    decreases reads.len(),
{
    assert(reads.take(reads.len() as int) =~= reads);
    if reads.len() > 0 {
        let shorter = reads.drop_last();
        assert forall|k: int| 0 <= k < shorter.len() implies !((#[trigger] shorter[k]) matches Err(e)
            && is_gone(e)) by {
            assert(shorter[k] == reads[k]);
        }
        assert forall|k: int| 0 <= k <= shorter.len() implies failures_at_the_end(
            #[trigger] shorter.take(k),
        ) < MAX_CONSECUTIVE_ERRORS by {
            assert(shorter.take(k) =~= reads.take(k));
        }
        flaky_reads_do_not_end_a_session(session, shorter);
        assert(reads.last() == reads[reads.len() - 1]);
        failures_are_counted(shorter);
    }
}

proof fn failures_are_counted(reads: Seq<Result<Option<Event>, Error>>)
    ensures
        failures_at_the_end(reads) >= 0,
    decreases reads.len(),
{
    if reads.len() > 0 {
        failures_are_counted(reads.drop_last());
    }
}

/// Persistent failure ends a session: when as many reads in a row have failed as are put up with,
/// the session is over.
pub proof fn persistent_failure_ends_a_session(
    session: Session,
    reads: Seq<Result<Option<Event>, Error>>,
)
    requires
        session.consecutive_errors == 0,
        failures_at_the_end(reads) >= MAX_CONSECUTIVE_ERRORS,
    ensures
        after_reads(session, reads) is None,
{
    counted_failures(session, reads);
}

proof fn counted_failures(session: Session, reads: Seq<Result<Option<Event>, Error>>)
    requires
        session.consecutive_errors == 0,
    ensures
        after_reads(session, reads) matches Some(s) ==> s.consecutive_errors == failures_at_the_end(
            reads,
        ) && s.consecutive_errors < MAX_CONSECUTIVE_ERRORS,
    decreases reads.len(),
{
    if reads.len() > 0 {
        counted_failures(session, reads.drop_last());
    }
}

/// A device that has gone ends the session at once, whatever went before.
pub proof fn a_lost_device_ends_a_session(
    session: Session,
    reads: Seq<Result<Option<Event>, Error>>,
    error: Error,
)
    requires
        is_gone(error),
    ensures
        after_reads(session, reads.push(Err(error))) is None,
{
    let all = reads.push(Err::<Option<Event>, Error>(error));
    assert(all.drop_last() =~= reads);
}

/// Only a device that has gone ends a session at once, and that is one for which the operating system
/// says ENOENT, EBADF, ENODEV, EPIPE or ESHUTDOWN. Anything else (a frame that does not parse or whose
/// checksum is wrong, a status, a timeout, a reply that does not fit, any other error of the operating
/// system) is put up with until forty reads in a row have failed. What is recorded is the operating
/// system's number, minus one where it gave none, and minus two where it was not its error.
pub proof fn only_a_lost_device_ends_a_session_at_once(session: Session, error: Error, turn: Turn)
    requires
        session.wf(),
        amounts_to(session, Err(error), turn),
    ensures
        error matches Error::Io(Some(code)) ==> {
            let gone = code == 2 || code == 9 || code == 19 || code == 32 || code == 108;
            &&& gone ==> turn == Turn::Over(code)
            &&& !gone && session.consecutive_errors < 39 ==> turn == Turn::Failed(code)
            &&& !gone && session.consecutive_errors >= 39 ==> turn == Turn::Over(code)
        },
        error == Error::Io(None) && session.consecutive_errors < 39 ==> (turn matches Turn::Failed(code) && code
            == -1),
        error == Error::Io(None) && session.consecutive_errors >= 39 ==> (turn matches Turn::Over(code) && code
            == -1),
        error !is Io && session.consecutive_errors < 39 ==> (turn matches Turn::Failed(code) && code
            == -2),
        error !is Io && session.consecutive_errors >= 39 ==> (turn matches Turn::Over(code) && code
            == -2),
        turn is Failed ==> session_after(session, Err(error)) == (Session {
            consecutive_errors: (session.consecutive_errors + 1) as u32,
            ..session
        }),
{
}

/// A read that worked is handed on as what it was, and whatever it was, the failures before it are
/// forgotten.
pub proof fn a_read_that_worked_is_handed_on(session: Session, read: Option<Event>, turn: Turn)
    requires
        amounts_to(session, Ok(read), turn),
    ensures
        turn == (match read {
            None => Turn::Quiet,
            Some(Event::Pose(pose)) => Turn::Pose(pose),
            Some(Event::Raw(raw)) => Turn::Raw(raw),
            Some(Event::Other(_)) => Turn::Other,
        }),
        session_after(session, Ok(read)) == (Session { consecutive_errors: 0, ..session }),
{
}

/// Streams are asked for up to five times: an attempt that fails is followed by another one unless the
/// device has gone, and it is given up only then or after the fifth.
pub proof fn a_start_is_tried_five_times<T: Transport>(
    after: T,
    links: Seq<T>,
    errors: Seq<Error>,
    streams: Streams,
    rate: Rate,
    r: Result<(), Error>,
    k: int,
)
    requires
        is_start(after, links, errors, streams, rate, r),
        0 <= k < errors.len(),
    ensures
        errors.len() <= 5,
        r is Ok ==> errors.len() < 5,
        ({
            let code = errors[k]->Io_0->Some_0;
            let gone = errors[k] is Io && errors[k]->Io_0 is Some && (code == 2 || code == 9 || code
                == 19 || code == 32 || code == 108);
            &&& gone ==> k == errors.len() - 1 && r == Err::<(), Error>(errors[k])
            &&& !gone && k == errors.len() - 1 && k < 4 ==> r is Ok
            &&& k == 4 ==> r == Err::<(), Error>(errors[k])
        }),
{
    assert(errors.last() == errors[errors.len() - 1]);
    if k < errors.len() - 1 {
        assert(!is_gone(errors[k]));
    }
}

/// Poses run unless raw readings alone are asked for, and raw readings run where they are, alone or
/// with the poses; nothing else ever runs.
pub proof fn only_what_was_chosen_runs(choice: Option<Seq<char>>)
    ensures
        chosen_streams(choice).0 % 2 == 1 <==> choice != Some(seq!['r', 'a', 'w']),
        chosen_streams(choice).0 / 2 % 2 == 1 <==> choice == Some(seq!['r', 'a', 'w']) || choice
            == Some(seq!['b', 'o', 't', 'h']),
        chosen_streams(choice).0 < 4,
{
    reveal_strlit("raw");
    reveal_strlit("both");
    assert("raw"@ =~= seq!['r', 'a', 'w']);
    assert("both"@ =~= seq!['b', 'o', 't', 'h']);
    assert("raw"@.len() != "both"@.len());
}

/// Once a session has asked for another mode than the one it found, the found mode is owed until the
/// session ends, whatever is asked for after that and however the reads come out.
pub proof fn what_is_owed_stays_owed(
    session: Session,
    pending: u32,
    r: Result<Option<Event>, Error>,
)
    requires
        0 <= session.found_mode <= 0xff,
    ensures
        session_after(after_pending(session, pending), r).found_mode == session.found_mode,
        session_after(after_pending(session, pending), r).owed_mode() is Some <==> {
            ||| session.owed_mode() is Some
            ||| requested_mode(pending) matches Some(mode) && mode != session.found_mode
        },
        session.owed_mode() matches Some(mode) ==> mode == session.found_mode,
{
}

/// Whether the simulated panel is in the mode it was found in, as a session takes it to be that never
/// asked for another one.
pub open spec fn panel_is_known<J: sim::Trajectory>(session: Session, link: sim::Simulated<J>) -> bool {
    !session.strayed ==> link@.state.display_mode == session.found_mode
}

proof fn a_command_switches_the_panel<J: sim::Trajectory>(
    before: sim::Simulated<J>,
    after: sim::Simulated<J>,
    setter: u16,
    mode: Option<u8>,
)
    requires
        before@.setter == Some(setter),
        setter != msg::IMU_CTRL,
        restores(before, after, setter, mode),
    ensures
        after@.setter == before@.setter,
        after@.state.display_mode == (match mode {
            Some(mode) => mode,
            None => before@.state.display_mode,
        }),
        after@.state.streams == before@.state.streams,
        after@.sent == (match mode {
            Some(mode) => before@.sent.push((setter, device::mode_payload(mode))),
            None => before@.sent,
        }),
{
    if let Some(mode) = mode {
        let payload = device::mode_payload(mode);
        let r = choose|r: Result<(), Error>|
            #[trigger] device::commands(before, after, setter, payload, r);
        a_simulated_command_takes_its_effect(before, after, setter, payload, r);
    }
}

proof fn a_simulated_command_takes_its_effect<J: sim::Trajectory>(
    before: sim::Simulated<J>,
    after: sim::Simulated<J>,
    msg_id: u16,
    payload: Seq<u8>,
    r: Result<(), Error>,
)
    requires
        payload.len() <= 2,
        device::commands(before, after, msg_id, payload, r),
    ensures
        after@.state == sim::commanded_state(before@.state, before@.setter, msg_id, payload),
        after@.setter == before@.setter,
        after@.sent == before@.sent.push((msg_id, payload)),
{
    let outcome = match r {
        Ok(_) => Ok(
            choose|body: Seq<u8>|
                #[trigger] device::exchanges(
                    before,
                    after,
                    msg_id,
                    payload,
                    4,
                    device::REPLY_TIMEOUT_NS,
                    Ok(body),
                ),
        ),
        Err(e) => Err(e),
    };
    sim::a_request_takes_its_effect(
        before,
        after,
        msg_id,
        payload,
        4,
        device::REPLY_TIMEOUT_NS,
        outcome,
    );
}

/// A round of the reader keeps track of the panel: however the round came out, the panel is in the
/// mode that was asked for, or as it was; and it is in the mode it was found in where the session never
/// asked for another one.
pub proof fn a_round_keeps_track_of_the_panel<J: sim::Trajectory>(
    session: Session,
    before: sim::Simulated<J>,
    mid: sim::Simulated<J>,
    after: sim::Simulated<J>,
    setter: u16,
    pending: u32,
    r: Result<Option<Event>, Error>,
)
    requires
        before@.setter == Some(setter),
        setter != msg::IMU_CTRL,
        sends_pending(before, mid, setter, pending),
        reads_next(mid, after, r),
    ensures
        after@.state.display_mode == (match requested_mode(pending) {
            Some(mode) => mode,
            None => before@.state.display_mode,
        }),
        panel_is_known(session, before) ==> panel_is_known(
            session_after(after_pending(session, pending), r),
            after,
        ),
        after@.setter == Some(setter),
{
    a_command_switches_the_panel(before, mid, setter, requested_mode(pending));
    let got = choose|got: Result<Seq<u8>, Error>|
        {
            &&& #[trigger] mid.receives(POLL_NS, after, got)
            &&& match got {
                Ok(report) => frame::reads_as_event(report, r),
                Err(e) => r == Err::<Option<Event>, Error>(e),
            }
        };
    sim::listening_changes_nothing(mid@, after@, got);
}

/// Closing a session puts the panel back into the mode it was found in and stops the streams, even
/// where no answer comes in time; and a session that never asked for another mode says nothing but to
/// stop.
pub proof fn closing_puts_the_panel_back<J: sim::Trajectory>(
    session: Session,
    before: sim::Simulated<J>,
    mid: sim::Simulated<J>,
    after: sim::Simulated<J>,
    setter: u16,
)
    requires
        before@.setter == Some(setter),
        setter != msg::IMU_CTRL,
        0 <= session.found_mode <= 0xff,
        panel_is_known(session, before),
        restores(before, mid, setter, session.owed_mode()),
        stops(mid, after),
    ensures
        after@.state.display_mode == session.found_mode,
        after@.state.streams == Streams(0x00),
        !session.strayed ==> after@.sent == before@.sent.push(
            (msg::IMU_CTRL, device::imu_payload(Streams(0x00), Rate::Hz120)),
        ),
{
    a_command_switches_the_panel(before, mid, setter, session.owed_mode());
    let payload = device::imu_payload(Streams(0x00), Rate::Hz120);
    let r = choose|r: Result<(), Error>|
        #[trigger] device::commands(mid, after, msg::IMU_CTRL, payload, r);
    a_simulated_command_takes_its_effect(mid, after, msg::IMU_CTRL, payload, r);
}

/// Streams that were started run: a start that succeeds leaves the device with the streams that were
/// asked for, however many attempts it took.
pub proof fn started_streams_run<J: sim::Trajectory>(
    after: sim::Simulated<J>,
    links: Seq<sim::Simulated<J>>,
    errors: Seq<Error>,
    streams: Streams,
    rate: Rate,
)
    requires
        is_start(after, links, errors, streams, rate, Ok(())),
    ensures
        after@.state.streams == streams,
        rate.per_second() <= 240 ==> after@.state.rate == rate,
{
    a_simulated_command_takes_its_effect(
        links.last(),
        after,
        msg::IMU_CTRL,
        device::imu_payload(streams, rate),
        Ok(()),
    );
}

proof fn an_asked_byte_is_the_answer<J: sim::Trajectory>(
    before: sim::Simulated<J>,
    after: sim::Simulated<J>,
    msg_id: u16,
    value: u8,
    v: u8,
)
    requires
        before@.replies.len() == 0,
        msg_id != msg::IMU_CTRL,
        before@.setter != Some(msg_id),
        sim::answer_to(before@.state, before@.setter, msg_id) == sim::Answer::Value(value),
        device::asks_byte(before, after, msg_id, Ok(v)),
    ensures
        v == value,
        after@.replies.len() == 0,
        after@.state == before@.state,
        after@.setter == before@.setter,
{
    let none = Seq::<u8>::empty();
    let body = choose|body: Seq<u8>|
        {
            &&& #[trigger] device::exchanges(
                before,
                after,
                msg_id,
                none,
                4,
                device::REPLY_TIMEOUT_NS,
                Ok(body),
            )
            &&& body.len() > 0
            &&& v == body.last()
        };
    sim::a_request_comes_out_as_the_answer(
        before,
        after,
        msg_id,
        none,
        4,
        device::REPLY_TIMEOUT_NS,
        Ok(body),
    );
}

proof fn the_asked_version_is_the_answer<J: sim::Trajectory>(
    before: sim::Simulated<J>,
    after: sim::Simulated<J>,
    buffer: (Seq<u8>, Seq<u8>),
    text: Seq<u8>,
)
    requires
        before@.replies.len() == 0,
        before@.setter != Some(msg::VERSION),
        buffer.0.len() == 64,
        device::asks_text(before, after, msg::VERSION, buffer.0, buffer.1, Ok(text)),
    ensures
        text == sim::Answer::Version.body(),
        after@.replies.len() == 0,
        after@.state == before@.state,
        after@.setter == before@.setter,
{
    let none = Seq::<u8>::empty();
    let body = choose|body: Seq<u8>|
        {
            &&& #[trigger] device::exchanges(
                before,
                after,
                msg::VERSION,
                none,
                64,
                device::REPLY_TIMEOUT_NS,
                Ok(body),
            )
            &&& device::is_filled(buffer.0, buffer.1, body)
            &&& text == text::up_to_nul(body)
            &&& valid_utf8(text)
        };
    sim::a_request_comes_out_as_the_answer(
        before,
        after,
        msg::VERSION,
        none,
        64,
        device::REPLY_TIMEOUT_NS,
        Ok(body),
    );
    assert(body == sim::Answer::Version.body());
    text::up_to_nul_stops_at_the_first(body);
    assert(text =~= body);
}

/// The static facts read back: where every question is answered, what is known of the device is what
/// the device says of itself.
pub proof fn the_static_facts_read_back<J: sim::Trajectory>(
    before: sim::Simulated<J>,
    after: sim::Simulated<J>,
    talk: Interview<sim::Simulated<J>>,
    info: DeviceInfo,
)
    requires
        before@.replies.len() == 0,
        before@.setter matches Some(setter) ==> setter != msg::VERSION && setter != msg::BRIGHTNESS
            && setter != msg::VOLUME && setter != msg::DISPLAY_MODE && setter != msg::WEAR_STATUS,
        is_interview(before, after, talk, info),
        talk.firmware is Ok,
        talk.brightness is Ok,
        talk.volume is Ok,
        talk.display_mode is Ok,
        talk.worn is Ok,
    ensures
        encode_utf8(info.firmware@) == sim::Answer::Version.body(),
        info.brightness == before@.state.brightness,
        info.volume == before@.state.volume,
        info.display_mode == before@.state.display_mode,
        info.worn == before@.state.worn,
        after@.state == before@.state,
{
    the_asked_version_is_the_answer(before, talk.links.0, talk.buffer, talk.firmware->Ok_0);
    let state = before@.state;
    an_asked_byte_is_the_answer(
        talk.links.0,
        talk.links.1,
        msg::BRIGHTNESS,
        state.brightness,
        talk.brightness->Ok_0,
    );
    an_asked_byte_is_the_answer(
        talk.links.1,
        talk.links.2,
        msg::VOLUME,
        state.volume,
        talk.volume->Ok_0,
    );
    an_asked_byte_is_the_answer(
        talk.links.2,
        talk.links.3,
        msg::DISPLAY_MODE,
        state.display_mode,
        talk.display_mode->Ok_0,
    );
    an_asked_byte_is_the_answer(
        talk.links.3,
        after,
        msg::WEAR_STATUS,
        if state.worn {
            1
        } else {
            0
        },
        talk.worn->Ok_0,
    );
}

/// A session that has just read well outlives 39 reads that fail, and not a 40th, where the device has
/// not gone.
pub proof fn forty_failures_in_a_row_end_a_session(
    session: Session,
    reads: Seq<Result<Option<Event>, Error>>,
)
    requires
        session.consecutive_errors == 0,
        forall|k: int|
            0 <= k < reads.len() ==> ((#[trigger] reads[k]) matches Err(e) && !is_gone(e)),
    ensures
        after_reads(session, reads) is Some <==> reads.len() < 40,
{
    nothing_but_failures(session, reads);
}

proof fn nothing_but_failures(session: Session, reads: Seq<Result<Option<Event>, Error>>)
    requires
        session.consecutive_errors == 0,
        forall|k: int|
            0 <= k < reads.len() ==> ((#[trigger] reads[k]) matches Err(e) && !is_gone(e)),
    ensures
        after_reads(session, reads) is Some <==> reads.len() < 40,
        after_reads(session, reads) matches Some(s) ==> s.consecutive_errors == reads.len(),
    decreases reads.len(),
{
    if reads.len() > 0 {
        let shorter = reads.drop_last();
        assert forall|k: int| 0 <= k < shorter.len() implies ((#[trigger] shorter[k]) matches Err(
            e,
        ) && !is_gone(e)) by {
            assert(shorter[k] == reads[k]);
        }
        nothing_but_failures(session, shorter);
        assert(reads.last() == reads[reads.len() - 1]);
    }
}

} // verus!
