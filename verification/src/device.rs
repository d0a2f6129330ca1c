//! A device on top of any transport: requests and their replies, and the event stream.
use crate::clock;
use crate::frame;
use crate::frame::{build, parse, DisplayMode, Error, Event, Rate, Streams, FRAME_MAX, HEADER_LEN, RESPONSE_OFFSET};
use crate::msg;
use crate::text;
use vstd::prelude::*;
use vstd::string::*;

verus! {

/// What a receive delivered: the bytes of a report, or why there is none.
pub open spec fn delivered(buf: Seq<u8>, r: Result<usize, Error>) -> Result<Seq<u8>, Error> {
    match r {
        Ok(n) => Ok(buf.take(n as int)),
        Err(e) => Err(e),
    }
}

/// The error of a send that failed.
pub open spec fn failure(r: Result<(), Error>) -> Option<Error> {
    match r {
        Ok(_) => None,
        Err(e) => Some(e),
    }
}

/// Transport for 64-byte reports.
///
/// `recv` **waits** up to `timeout_ns`; `0` means "collect whatever is already there",
/// [`u64::MAX`] means "wait indefinitely". A return of `0` means timeout.
///
/// A transport says of itself, in two relations, what its calls can do; what is proved of a device
/// is stated over them. One that does not say promises nothing: whatever happens, its relations allow.
pub trait Transport: Sized {
    /// Whether handing over a frame can take this transport to `after`, and fail or not.
    open spec fn sends(self, frame: Seq<u8>, after: Self, failure: Option<Error>) -> bool {
        true
    }

    /// Whether waiting for a report can take this transport to `after` and deliver `got`. No bytes
    /// mean that the time ran out.
    open spec fn receives(self, timeout_ns: u64, after: Self, got: Result<Seq<u8>, Error>) -> bool {
        true
    }

    /// Hands over one frame.
    fn send(&mut self, frame: &[u8]) -> (r: Result<(), Error>)
        ensures
            old(self).sends(frame@, *final(self), failure(r)),
    ;

    /// Waits for one report, and returns how many bytes of `buf` it takes.
    fn recv(&mut self, buf: &mut [u8; FRAME_MAX], timeout_ns: u64) -> (r: Result<usize, Error>)
        ensures
            r matches Ok(n) ==> n <= FRAME_MAX,
            old(self).receives(timeout_ns, *final(self), delivered(final(buf)@, r)),
    ;
}

/// Default patience for command replies.
pub const REPLY_TIMEOUT_NS: u64 = 250_000_000;

/// One step of an exchange: the transport after it, and what it delivered.
pub struct Receipt<T> {
    pub link: T,
    pub got: Result<Seq<u8>, Error>,
}

/// What a delivery means to a request that waits for a reply under `want`: `None` where it goes on
/// waiting, and otherwise what the reply says. A failed receive ends the wait.
pub open spec fn reply_in(want: u16, got: Result<Seq<u8>, Error>) -> Option<
    Result<Seq<u8>, Error>,
> {
    match got {
        Err(e) => Some(Err(e)),
        Ok(report) => match frame::parsed(report) {
            Err(_) => None,
            Ok((msg_id, payload)) => if msg_id != want {
                None
            } else if payload.len() == 0 {
                Some(Err(Error::Malformed))
            } else if payload[0] != 0 {
                Some(Err(Error::Status(payload[0])))
            } else {
                Some(Ok(payload.skip(1)))
            },
        },
    }
}

/// What a reply comes out as where there is room for `capacity` bytes.
pub open spec fn fitted(reply: Result<Seq<u8>, Error>, capacity: nat) -> Result<Seq<u8>, Error> {
    match reply {
        Ok(body) => if body.len() > capacity {
            Err(Error::Overflow)
        } else {
            Ok(body)
        },
        Err(e) => Err(e),
    }
}

/// Whether step `k` of an exchange is a receive that starts where the step before it ended and waits
/// for what is left of the time, by the clock.
pub open spec fn is_receive<T: Transport>(
    start: std::time::Instant,
    run: Seq<Receipt<T>>,
    k: int,
    timeout_ns: u64,
) -> bool {
    exists|left: u64|
        {
            &&& 0 < left <= timeout_ns
            &&& clock::has_passed(start, (timeout_ns - left) as u64)
            &&& #[trigger] run[k - 1].link.receives(left, run[k].link, run[k].got)
        }
}

/// Whether the time of a request has run out by the clock.
pub open spec fn ran_out(start: std::time::Instant, timeout_ns: u64) -> bool {
    exists|elapsed: u64| elapsed >= timeout_ns && #[trigger] clock::has_passed(start, elapsed)
}

/// Whether a run of steps is an exchange that hands over `frame`, waits for a reply under `want`
/// and comes out as `outcome`: the frame is handed over first, and then reports are received, each
/// within what is left of the time from `start` on, until one of them settles the request or the
/// clock says that the time has run out. No more receives are made than 64 bits can count.
pub open spec fn is_exchange<T: Transport>(
    before: T,
    start: std::time::Instant,
    run: Seq<Receipt<T>>,
    frame: Seq<u8>,
    want: u16,
    capacity: nat,
    timeout_ns: u64,
    outcome: Result<Seq<u8>, Error>,
) -> bool {
    &&& run.len() > 0
    &&& match run[0].got {
        Err(e) => {
            &&& before.sends(frame, run[0].link, Some(e))
            &&& run.len() == 1
            &&& outcome == Err::<Seq<u8>, Error>(e)
        },
        Ok(_) => {
            &&& before.sends(frame, run[0].link, None)
            &&& clock::was_now(start)
            &&& forall|k: int|
                1 <= k < run.len() ==> #[trigger] is_receive(start, run, k, timeout_ns)
            &&& forall|k: int|
                1 <= k < run.len() - 1 ==> reply_in(want, (#[trigger] run[k]).got) is None
            &&& if run.len() == 1 || reply_in(want, run.last().got) is None {
                &&& outcome == Err::<Seq<u8>, Error>(Error::Timeout)
                &&& ran_out(start, timeout_ns) || run.len() > u64::MAX
            } else {
                outcome == fitted(reply_in(want, run.last().got)->Some_0, capacity)
            }
        },
    }
}

/// Whether a request can take a transport from `before` to `after` and come out as `outcome`: the
/// body of the reply without its status byte, or an error. A payload that fits no frame is refused
/// without a word to the transport.
pub open spec fn exchanges<T: Transport>(
    before: T,
    after: T,
    msg_id: u16,
    payload: Seq<u8>,
    capacity: nat,
    timeout_ns: u64,
    outcome: Result<Seq<u8>, Error>,
) -> bool {
    if HEADER_LEN + payload.len() > FRAME_MAX {
        after == before && outcome == Err::<Seq<u8>, Error>(Error::Overflow)
    } else {
        exists|start: std::time::Instant, run: Seq<Receipt<T>>|
            #[trigger] is_exchange(
                before,
                start,
                run,
                frame::frame_bytes(msg_id, payload),
                frame::reply_id(msg_id),
                capacity,
                timeout_ns,
                outcome,
            ) && after == run.last().link
    }
}

/// Looks for the reply to a request in a report. `None` where the report is not the reply, and
/// otherwise the body without its status byte, or the error that the reply amounts to.
pub fn reply_body<'a>(want: u16, report: &'a [u8]) -> (r: Option<Result<&'a [u8], Error>>)
    ensures
        match r {
            None => reply_in(want, Ok(report@)) is None,
            Some(Ok(body)) => reply_in(want, Ok(report@)) == Some(
                Ok::<Seq<u8>, Error>(body@),
            ),
            Some(Err(e)) => reply_in(want, Ok(report@)) == Some(Err::<Seq<u8>, Error>(e)),
        },
{
    let frame = match parse(report) {
        Ok(frame) => frame,
        Err(_) => {
            return None;
        },
    };
    if frame.msg_id != want {
        return None;
    }
    let payload = frame.payload;
    if payload.len() == 0 {
        return Some(Err(Error::Malformed));
    }
    if payload[0] != 0 {
        return Some(Err(Error::Status(payload[0])));
    }
    let body = vstd::slice::slice_subrange(payload, 1, payload.len());
    assert(body@ =~= payload@.skip(1));
    Some(Ok(body))
}

/// How much of a request's time is left after some of it has passed; `None` where it has run out.
pub fn time_left(timeout_ns: u64, elapsed_ns: u64) -> (left: Option<u64>)
    ensures
        left == (if elapsed_ns < timeout_ns {
            Some((timeout_ns - elapsed_ns) as u64)
        } else {
            None
        }),
{
    if elapsed_ns < timeout_ns {
        Some(timeout_ns - elapsed_ns)
    } else {
        None
    }
}

/// A device on top of any transport.
pub struct Device<T: Transport> {
    transport: T,
    rx: [u8; FRAME_MAX],
    tx: [u8; FRAME_MAX],
}

impl<T: Transport> Device<T> {
    /// The transport under the device.
    pub closed spec fn link(&self) -> T {
        self.transport
    }

    /// A device on top of a transport.
    pub fn new(transport: T) -> (d: Device<T>)
        ensures
            d.link() == transport,
    {
        Device { transport, rx: [0; 64], tx: [0; 64] }
    }

    /// The transport under the device.
    pub fn transport(&self) -> (t: &T)
        ensures
            *t == self.link(),
    {
        &self.transport
    }

    /// The transport under the device, to change.
    pub fn transport_mut(&mut self) -> (t: &mut T)
        ensures
            *t == old(self).link(),
            final(self).link() == *final(t),
    {
        &mut self.transport
    }

    /// Sends a frame and waits for its reply. IMU events arriving in between are skipped.
    ///
    /// Writes the payload **without** the leading status byte into `out`.
    pub fn request(
        &mut self,
        msg_id: u16,
        payload: &[u8],
        out: &mut [u8],
        timeout_ns: u64,
    ) -> (r: Result<usize, Error>)
        ensures
            final(out)@.len() == old(out)@.len(),
            match r {
                Ok(n) => {
                    &&& n <= old(out)@.len()
                    &&& exchanges(
                        old(self).link(),
                        final(self).link(),
                        msg_id,
                        payload@,
                        old(out)@.len(),
                        timeout_ns,
                        Ok(final(out)@.take(n as int)),
                    )
                    &&& final(out)@.skip(n as int) == old(out)@.skip(n as int)
                },
                Err(e) => {
                    &&& exchanges(
                        old(self).link(),
                        final(self).link(),
                        msg_id,
                        payload@,
                        old(out)@.len(),
                        timeout_ns,
                        Err(e),
                    )
                    &&& final(out)@ == old(out)@
                },
            },
    {
        let ghost before = self.transport;
        let ghost wire = frame::frame_bytes(msg_id, payload@);
        let ghost want_id = frame::reply_id(msg_id);
        let ghost capacity = out@.len();
        let frame = match build(&mut self.tx, msg_id, payload) {
            Ok(frame) => frame,
            Err(e) => {
                return Err(e);
            },
        };
        let sent = self.transport.send(frame);
        let ghost mut run: Seq<Receipt<T>> = seq![
            Receipt { link: self.transport, got: match sent {
                Ok(_) => Ok(Seq::<u8>::empty()),
                Err(e) => Err(e),
            } },
        ];
        if let Err(e) = sent {
            let ghost never = choose|start: std::time::Instant| clock::was_now(start);
            assert(is_exchange(before, never, run, wire, want_id, capacity, timeout_ns, Err(e)));
            return Err(e);
        }
        let want: u16 = msg_id.wrapping_add(RESPONSE_OFFSET);
        let start = std::time::Instant::now();
        // No clock runs for long enough to see the last of these.
        let mut passes: u64 = u64::MAX;
        while passes > 0
            invariant
                out@ == old(out)@,
                capacity == out@.len(),
                before == old(self).link(),
                HEADER_LEN + payload@.len() <= FRAME_MAX,
                wire == frame::frame_bytes(msg_id, payload@),
                want == want_id,
                want_id == frame::reply_id(msg_id),
                run.len() > 0,
                run.last().link == self.transport,
                run[0].got is Ok,
                before.sends(wire, run[0].link, None),
                clock::was_now(start),
                run.len() == 1 + u64::MAX - passes,
                forall|k: int|
                    1 <= k < run.len() ==> #[trigger] is_receive(start, run, k, timeout_ns),
                forall|k: int|
                    1 <= k < run.len() ==> reply_in(want_id, (#[trigger] run[k]).got) is None,
            decreases passes,
        {
            passes -= 1;
            let elapsed: u64 = clock::nanos_since(&start);
            let left: u64 = match time_left(timeout_ns, elapsed) {
                Some(left) => left,
                None => {
                    assert(clock::has_passed(start, elapsed));
                    assert(is_exchange(
                        before,
                        start,
                        run,
                        wire,
                        want_id,
                        capacity,
                        timeout_ns,
                        Err(Error::Timeout),
                    ));
                    return Err(Error::Timeout);
                },
            };
            let ghost prior = run;
            let ghost link = self.transport;
            let received = self.transport.recv(&mut self.rx, left);
            proof {
                let got = delivered(self.rx@, received);
                run = run.push(Receipt { link: self.transport, got });
                assert(run[run.len() - 2].link.receives(left, run.last().link, run.last().got));
                assert(elapsed == timeout_ns - left);
                assert forall|k: int| 1 <= k < run.len() implies #[trigger] is_receive(
                    start,
                    run,
                    k,
                    timeout_ns,
                ) by {
                    if k < prior.len() {
                        assert(is_receive(start, prior, k, timeout_ns));
                        assert(run[k] == prior[k] && run[k - 1] == prior[k - 1]);
                        let l = choose|l: u64|
                            {
                                &&& 0 < l <= timeout_ns
                                &&& clock::has_passed(start, (timeout_ns - l) as u64)
                                &&& #[trigger] prior[k - 1].link.receives(
                                    l,
                                    prior[k].link,
                                    prior[k].got,
                                )
                            };
                        assert(run[k - 1].link.receives(l, run[k].link, run[k].got));
                    }
                }
            }
            let n: usize = match received {
                Ok(n) => n,
                Err(e) => {
                    assert(is_exchange(
                        before,
                        start,
                        run,
                        wire,
                        want_id,
                        capacity,
                        timeout_ns,
                        Err(e),
                    ));
                    return Err(e);
                },
            };
            let report = vstd::slice::slice_subrange(self.rx.as_slice(), 0, n);
            assert(report@ =~= self.rx@.take(n as int));
            match reply_body(want, report) {
                None => {},
                Some(Err(e)) => {
                    assert(is_exchange(
                        before,
                        start,
                        run,
                        wire,
                        want_id,
                        capacity,
                        timeout_ns,
                        Err(e),
                    ));
                    return Err(e);
                },
                Some(Ok(body)) => {
                    if body.len() > out.len() {
                        assert(is_exchange(
                            before,
                            start,
                            run,
                            wire,
                            want_id,
                            capacity,
                            timeout_ns,
                            Err(Error::Overflow),
                        ));
                        return Err(Error::Overflow);
                    }
                    let len: usize = body.len();
                    let mut i: usize = 0;
                    while i < len
                        invariant
                            i <= len == body@.len(),
                            len <= out@.len() == old(out)@.len(),
                            forall|k: int| 0 <= k < i ==> out@[k] == body@[k],
                            forall|k: int| i <= k < out@.len() ==> out@[k] == old(out)@[k],
                        decreases len - i,
                    {
                        out[i] = body[i];
                        i += 1;
                    }
                    assert(out@.take(len as int) =~= body@);
                    assert(out@.skip(len as int) =~= old(out)@.skip(len as int));
                    assert(is_exchange(
                        before,
                        start,
                        run,
                        wire,
                        want_id,
                        capacity,
                        timeout_ns,
                        Ok(body@),
                    ));
                    return Ok(len);
                },
            }
        }
        assert(is_exchange(
            before,
            start,
            run,
            wire,
            want_id,
            capacity,
            timeout_ns,
            Err(Error::Timeout),
        ));
        Err(Error::Timeout)
    }
}

/// Whether a query whose reply is a single value byte can come out as `r`: the last byte of the
/// reply's body, which has room for four.
pub open spec fn asks_byte<T: Transport>(
    before: T,
    after: T,
    msg_id: u16,
    r: Result<u8, Error>,
) -> bool {
    let none = Seq::<u8>::empty();
    match r {
        Ok(value) => exists|body: Seq<u8>|
            {
                &&& #[trigger] exchanges(before, after, msg_id, none, 4, REPLY_TIMEOUT_NS, Ok(body))
                &&& body.len() > 0
                &&& value == body.last()
            },
        Err(e) => {
            ||| exchanges(before, after, msg_id, none, 4, REPLY_TIMEOUT_NS, Err(e))
            ||| e == Error::Malformed && exchanges(
                before,
                after,
                msg_id,
                none,
                4,
                REPLY_TIMEOUT_NS,
                Ok(none),
            )
        },
    }
}

/// Whether a body was written to the start of a buffer, and the rest of it left as it was.
pub open spec fn is_filled(before: Seq<u8>, after: Seq<u8>, body: Seq<u8>) -> bool {
    body.len() <= before.len() && after == body + before.skip(body.len() as int)
}

/// Whether a query whose reply is text can come out as the bytes of that text: the reply's body up
/// to its first NUL, where that is valid UTF-8. The body is written to a buffer, which goes from
/// `room` to `held`; a query that gets no body leaves it as it was.
pub open spec fn asks_text<T: Transport>(
    before: T,
    after: T,
    msg_id: u16,
    room: Seq<u8>,
    held: Seq<u8>,
    r: Result<Seq<u8>, Error>,
) -> bool {
    let none = Seq::<u8>::empty();
    match r {
        Ok(text) => exists|body: Seq<u8>|
            {
                &&& #[trigger] exchanges(
                    before,
                    after,
                    msg_id,
                    none,
                    room.len(),
                    REPLY_TIMEOUT_NS,
                    Ok(body),
                )
                &&& is_filled(room, held, body)
                &&& text == text::up_to_nul(body)
                &&& vstd::utf8::valid_utf8(text)
            },
        Err(e) => {
            ||| held == room && exchanges(
                before,
                after,
                msg_id,
                none,
                room.len(),
                REPLY_TIMEOUT_NS,
                Err(e),
            )
            ||| e == Error::Malformed && exists|body: Seq<u8>|
                {
                    &&& #[trigger] exchanges(
                        before,
                        after,
                        msg_id,
                        none,
                        room.len(),
                        REPLY_TIMEOUT_NS,
                        Ok(body),
                    )
                    &&& is_filled(room, held, body)
                    &&& !vstd::utf8::valid_utf8(text::up_to_nul(body))
                }
        },
    }
}

/// Whether a command whose reply matters only for its status can come out as `r`; a body of up to
/// four bytes is accepted and dropped.
pub open spec fn commands<T: Transport>(
    before: T,
    after: T,
    msg_id: u16,
    payload: Seq<u8>,
    r: Result<(), Error>,
) -> bool {
    match r {
        Ok(_) => exists|body: Seq<u8>|
            #[trigger] exchanges(
                before,
                after,
                msg_id,
                payload,
                4,
                REPLY_TIMEOUT_NS,
                Ok(body),
            ),
        Err(e) => exchanges(before, after, msg_id, payload, 4, REPLY_TIMEOUT_NS, Err(e)),
    }
}

/// The payload of the command that starts streams at a rate.
pub open spec fn imu_payload(streams: Streams, rate: Rate) -> Seq<u8> {
    seq![streams.0, rate.wire_code()]
}

/// The payload of the command that switches the panel to a mode.
pub open spec fn mode_payload(mode: u8) -> Seq<u8> {
    seq![mode]
}

/// The bytes of a text.
pub open spec fn text_bytes(r: Result<&str, Error>) -> Result<Seq<u8>, Error> {
    match r {
        Ok(text) => Ok(text.spec_bytes()),
        Err(e) => Err(e),
    }
}

impl<T: Transport> Device<T> {
    /// Query whose reply is a single value byte.
    pub fn get_u8(&mut self, msg_id: u16) -> (r: Result<u8, Error>)
        ensures
            asks_byte(old(self).link(), final(self).link(), msg_id, r),
    {
        let mut out: [u8; 4] = [0; 4];
        let none: [u8; 0] = [];
        assert(none@ =~= Seq::<u8>::empty());
        match self.request(msg_id, none.as_slice(), &mut out, REPLY_TIMEOUT_NS) {
            Ok(n) => {
                let ghost body = out@.take(n as int);
                if n < 1 {
                    assert(body =~= Seq::<u8>::empty());
                    return Err(Error::Malformed);
                }
                assert(out@[n - 1] == body.last());
                Ok(out[n - 1])
            },
            Err(e) => Err(e),
        }
    }

    /// Query whose reply is ASCII (version, serial number).
    pub fn get_ascii<'b>(&mut self, msg_id: u16, out: &'b mut [u8]) -> (r: Result<&'b str, Error>)
        ensures
            asks_text(
                old(self).link(),
                final(self).link(),
                msg_id,
                old(out)@,
                final(out)@,
                text_bytes(r),
            ),
    {
        let none: [u8; 0] = [];
        assert(none@ =~= Seq::<u8>::empty());
        match self.request(msg_id, none.as_slice(), out, REPLY_TIMEOUT_NS) {
            Ok(n) => {
                assert(out@ =~= out@.take(n as int) + out@.skip(n as int));
                let body = vstd::slice::slice_subrange(out, 0, n);
                assert(body@ =~= out@.take(n as int));
                let text = text::before_nul(body);
                match core::str::from_utf8(text) {
                    Ok(text) => Ok(text),
                    Err(_) => Err(Error::Malformed),
                }
            },
            Err(e) => Err(e),
        }
    }

    /// The firmware version.
    pub fn firmware_version<'b>(&mut self, out: &'b mut [u8]) -> (r: Result<&'b str, Error>)
        ensures
            asks_text(
                old(self).link(),
                final(self).link(),
                msg::VERSION,
                old(out)@,
                final(out)@,
                text_bytes(r),
            ),
    {
        self.get_ascii(msg::VERSION, out)
    }

    /// The serial number.
    pub fn serial<'b>(&mut self, out: &'b mut [u8]) -> (r: Result<&'b str, Error>)
        ensures
            asks_text(
                old(self).link(),
                final(self).link(),
                msg::SERIAL,
                old(out)@,
                final(out)@,
                text_bytes(r),
            ),
    {
        self.get_ascii(msg::SERIAL, out)
    }

    /// The brightness level.
    pub fn brightness(&mut self) -> (r: Result<u8, Error>)
        ensures
            asks_byte(old(self).link(), final(self).link(), msg::BRIGHTNESS, r),
    {
        self.get_u8(msg::BRIGHTNESS)
    }

    /// The volume level.
    pub fn volume(&mut self) -> (r: Result<u8, Error>)
        ensures
            asks_byte(old(self).link(), final(self).link(), msg::VOLUME, r),
    {
        self.get_u8(msg::VOLUME)
    }

    /// The display duty cycle in percent.
    pub fn duty_cycle(&mut self) -> (r: Result<u8, Error>)
        ensures
            asks_byte(old(self).link(), final(self).link(), msg::DUTY_CYCLE, r),
    {
        self.get_u8(msg::DUTY_CYCLE)
    }

    /// `true` if the glasses are being worn.
    pub fn worn(&mut self) -> (r: Result<bool, Error>)
        ensures
            match r {
                Ok(worn) => exists|v: u8|
                    #[trigger] asks_byte(
                        old(self).link(),
                        final(self).link(),
                        msg::WEAR_STATUS,
                        Ok(v),
                    ) && worn == (v != 0),
                Err(e) => asks_byte(
                    old(self).link(),
                    final(self).link(),
                    msg::WEAR_STATUS,
                    Err(e),
                ),
            },
    {
        match self.get_u8(msg::WEAR_STATUS) {
            Ok(v) => Ok(v != 0),
            Err(e) => Err(e),
        }
    }

    /// The mode the panel is in.
    pub fn display_mode(&mut self) -> (r: Result<DisplayMode, Error>)
        ensures
            match r {
                Ok(mode) => exists|v: u8|
                    #[trigger] asks_byte(
                        old(self).link(),
                        final(self).link(),
                        msg::DISPLAY_MODE,
                        Ok(v),
                    ) && mode == DisplayMode::of_raw(v),
                Err(e) => asks_byte(
                    old(self).link(),
                    final(self).link(),
                    msg::DISPLAY_MODE,
                    Err(e),
                ),
            },
    {
        match self.get_u8(msg::DISPLAY_MODE) {
            Ok(v) => Ok(DisplayMode::from_raw(v)),
            Err(e) => Err(e),
        }
    }

    /// Sends a command whose reply matters only for its status.
    fn command(&mut self, msg_id: u16, payload: &[u8]) -> (r: Result<(), Error>)
        ensures
            commands(old(self).link(), final(self).link(), msg_id, payload@, r),
    {
        let mut out: [u8; 4] = [0; 4];
        match self.request(msg_id, payload, &mut out, REPLY_TIMEOUT_NS) {
            Ok(_) => Ok(()),
            Err(e) => Err(e),
        }
    }

    /// Starts or stops the IMU streams. One command, no handshake.
    pub fn set_imu(&mut self, streams: Streams, rate: Rate) -> (r: Result<(), Error>)
        ensures
            commands(
                old(self).link(),
                final(self).link(),
                msg::IMU_CTRL,
                imu_payload(streams, rate),
                r,
            ),
    {
        let payload: [u8; 2] = [streams.0, rate.code()];
        assert(payload@ =~= imu_payload(streams, rate));
        self.command(msg::IMU_CTRL, payload.as_slice())
    }

    /// Switches the panel to a mode. `setter` is the MsgID under which the glasses take it, which
    /// differs from the one that reads the mode back.
    pub fn set_display_mode_raw(&mut self, setter: u16, mode: u8) -> (r: Result<(), Error>)
        ensures
            commands(old(self).link(), final(self).link(), setter, mode_payload(mode), r),
    {
        let payload: [u8; 1] = [mode];
        assert(payload@ =~= mode_payload(mode));
        self.command(setter, payload.as_slice())
    }

    /// Waits up to `timeout_ns` for the next event. `Ok(None)` means timeout.
    pub fn next_event(&mut self, timeout_ns: u64) -> (r: Result<Option<Event>, Error>)
        ensures
            exists|got: Result<Seq<u8>, Error>|
                {
                    &&& #[trigger] old(self).link().receives(timeout_ns, final(self).link(), got)
                    &&& match got {
                        Ok(report) => frame::reads_as_event(report, r),
                        Err(e) => r == Err::<Option<Event>, Error>(e),
                    }
                },
    {
        let received = self.transport.recv(&mut self.rx, timeout_ns);
        let ghost got = delivered(self.rx@, received);
        assert(old(self).link().receives(timeout_ns, self.link(), got));
        match received {
            Ok(n) => {
                let report = vstd::slice::slice_subrange(self.rx.as_slice(), 0, n);
                assert(report@ =~= self.rx@.take(n as int));
                Event::read(report)
            },
            Err(e) => Err(e),
        }
    }
}

/// A report under any other MsgID is skipped: an event that arrives in between does not settle a
/// request.
pub proof fn other_reports_are_skipped(want: u16, msg_id: u16, payload: Seq<u8>, tail: Seq<u8>)
    requires
        msg_id != want,
        HEADER_LEN + payload.len() <= FRAME_MAX,
    ensures
        reply_in(want, Ok(frame::frame_bytes(msg_id, payload) + tail)) is None,
{
    frame::a_built_frame_reads_back(msg_id, payload, tail);
}

/// A reply of status zero settles a request with its body; the status byte is cut off.
pub proof fn a_reply_gives_its_body(want: u16, body: Seq<u8>, tail: Seq<u8>)
    requires
        HEADER_LEN + 1 + body.len() <= FRAME_MAX,
    ensures
        reply_in(want, Ok(frame::frame_bytes(want, seq![0u8] + body) + tail)) == Some(
            Ok::<Seq<u8>, Error>(body),
        ),
{
    let payload = seq![0u8] + body;
    frame::a_built_frame_reads_back(want, payload, tail);
    assert(payload.skip(1) =~= body);
}

/// A reply of any other status refuses the request with that status, whatever follows it.
pub proof fn a_refusal_gives_its_status(want: u16, status: u8, body: Seq<u8>, tail: Seq<u8>)
    requires
        status != 0,
        HEADER_LEN + 1 + body.len() <= FRAME_MAX,
    ensures
        reply_in(want, Ok(frame::frame_bytes(want, seq![status] + body) + tail)) == Some(
            Err::<Seq<u8>, Error>(Error::Status(status)),
        ),
{
    frame::a_built_frame_reads_back(want, seq![status] + body, tail);
}

/// A report that is no frame is skipped too, and so is a wait that ran out, which delivers nothing.
pub proof fn noise_is_skipped(want: u16, report: Seq<u8>)
    requires
        frame::parsed(report) is Err,
    ensures
        reply_in(want, Ok(report)) is None,
        reply_in(want, Ok(Seq::<u8>::empty())) is None,
{
}

/// A request that nothing answers times out, and not before the clock says that its time has passed;
/// where it has no time at all, nothing is received. (More receives than 64 bits can count would end
/// it too.)
pub proof fn an_unanswered_request_times_out<T: Transport>(
    before: T,
    start: std::time::Instant,
    run: Seq<Receipt<T>>,
    frame: Seq<u8>,
    want: u16,
    capacity: nat,
    timeout_ns: u64,
    outcome: Result<Seq<u8>, Error>,
)
    requires
        is_exchange(before, start, run, frame, want, capacity, timeout_ns, outcome),
        run[0].got is Ok,
        forall|k: int| 1 <= k < run.len() ==> reply_in(want, (#[trigger] run[k]).got) is None,
    ensures
        outcome == Err::<Seq<u8>, Error>(Error::Timeout),
        clock::was_now(start),
        ran_out(start, timeout_ns) || run.len() > u64::MAX,
        timeout_ns == 0 ==> run.len() == 1,
{
    if run.len() > 1 {
        assert(is_receive(start, run, 1, timeout_ns));
    }
}

/// A request times out only where nothing answered it and the clock says that its time has passed,
/// unless the transport itself reports a timeout.
pub proof fn a_timeout_comes_when_the_time_has_passed<T: Transport>(
    before: T,
    start: std::time::Instant,
    run: Seq<Receipt<T>>,
    frame: Seq<u8>,
    want: u16,
    capacity: nat,
    timeout_ns: u64,
)
    requires
        is_exchange(
            before,
            start,
            run,
            frame,
            want,
            capacity,
            timeout_ns,
            Err(Error::Timeout),
        ),
        forall|k: int|
            0 <= k < run.len() ==> (#[trigger] run[k]).got != Err::<Seq<u8>, Error>(Error::Timeout),
    ensures
        forall|k: int| 1 <= k < run.len() ==> reply_in(want, (#[trigger] run[k]).got) is None,
        ran_out(start, timeout_ns) || run.len() > u64::MAX,
{
    assert(run[0].got is Ok);
    if run.len() > 1 {
        assert(run.last() == run[run.len() - 1]);
    }
}

/// A reply that says nothing at all, not even how the command went, is malformed.
pub proof fn a_reply_without_a_status_is_malformed(want: u16, tail: Seq<u8>)
    ensures
        reply_in(want, Ok(frame::frame_bytes(want, Seq::empty()) + tail)) == Some(
            Err::<Seq<u8>, Error>(Error::Malformed),
        ),
{
    frame::a_built_frame_reads_back(want, Seq::empty(), tail);
}

/// A receive that fails settles the request with its own error, whatever was waited for.
pub proof fn a_failed_receive_ends_the_wait(want: u16, error: Error)
    ensures
        reply_in(want, Err(error)) == Some(Err::<Seq<u8>, Error>(error)),
{
}

/// A reply comes out whole or not at all: never longer than the room for it, and never cut short.
pub proof fn a_reply_comes_out_whole(reply: Result<Seq<u8>, Error>, capacity: nat)
    ensures
        fitted(reply, capacity) is Ok ==> fitted(reply, capacity) == reply && reply->Ok_0.len()
            <= capacity,
        reply is Ok && fitted(reply, capacity) is Err ==> reply->Ok_0.len() > capacity && fitted(
            reply,
            capacity,
        ) == Err::<Seq<u8>, Error>(Error::Overflow),
        reply is Err ==> fitted(reply, capacity) == reply,
{
}

/// Every query and every command waits for its reply for a quarter of a second: what it comes out as is
/// what a request with that much time can come out as.
pub proof fn a_reply_is_waited_for_a_quarter_of_a_second<T: Transport>(
    before: T,
    after: T,
    msg_id: u16,
    payload: Seq<u8>,
    value: Result<u8, Error>,
    done: Result<(), Error>,
)
    ensures
        asks_byte(before, after, msg_id, value) ==> exists|outcome: Result<Seq<u8>, Error>|
            {
                &&& #[trigger] exchanges(
                    before,
                    after,
                    msg_id,
                    Seq::empty(),
                    4,
                    250_000_000,
                    outcome,
                )
                &&& value matches Ok(v) ==> (outcome matches Ok(body) && body.len() > 0 && body.last()
                    == v)
                &&& outcome is Err ==> value is Err && value->Err_0 == outcome->Err_0
            },
        commands(before, after, msg_id, payload, done) ==> exists|outcome: Result<Seq<u8>, Error>|
            {
                &&& #[trigger] exchanges(before, after, msg_id, payload, 4, 250_000_000, outcome)
                &&& done is Ok <==> outcome is Ok
                &&& done is Err ==> done->Err_0 == outcome->Err_0
            },
{
    let none = Seq::<u8>::empty();
    if asks_byte(before, after, msg_id, value) {
        match value {
            Ok(v) => {
                let body = choose|body: Seq<u8>|
                    {
                        &&& #[trigger] exchanges(
                            before,
                            after,
                            msg_id,
                            none,
                            4,
                            REPLY_TIMEOUT_NS,
                            Ok(body),
                        )
                        &&& body.len() > 0
                        &&& v == body.last()
                    };
                assert(exchanges(before, after, msg_id, none, 4, 250_000_000, Ok(body)));
            },
            Err(e) => {
                if exchanges(before, after, msg_id, none, 4, 250_000_000, Err(e)) {
                } else {
                    assert(exchanges(before, after, msg_id, none, 4, 250_000_000, Ok(none)));
                }
            },
        }
    }
    if commands(before, after, msg_id, payload, done) {
        match done {
            Ok(_) => {
                let body = choose|body: Seq<u8>|
                    #[trigger] exchanges(
                        before,
                        after,
                        msg_id,
                        payload,
                        4,
                        REPLY_TIMEOUT_NS,
                        Ok(body),
                    );
                assert(exchanges(before, after, msg_id, payload, 4, 250_000_000, Ok(body)));
            },
            Err(e) => {
                assert(exchanges(before, after, msg_id, payload, 4, 250_000_000, Err(e)));
            },
        }
    }
}

} // verus!
