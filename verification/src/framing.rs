//! Length-prefixed envelope framing for the uplink protocol.
//!
//! The wire format of a frame is `[4-byte u32 BE length] + [payload]`.
//! [`FramedStream`] keeps the receive state of one stream, so that
//! [`FramedStream::try_recv`] resumes a partially-read frame across polling
//! iterations without losing bytes, and [`FrameWriter`] keeps what of a frame is
//! still to be written. Neither reads nor writes: they say which read or write
//! comes next and take its result.

use crate::text::{contains, decimal, decimal_text, occurs_in};
use vstd::prelude::*;

verus! {

/// Read timeout of the underlying stream in milliseconds, applied when
/// [`FramedStream::try_recv`] runs for the first time.
pub const POLL_TIMEOUT_MS: u64 = 50;

/// Per-frame payload cap. A larger frame is a protocol violation and is
/// reported as a transport error.
pub const MAX_FRAME_BYTES: usize = 10 * 1024 * 1024;

/// Errors of [`FramedStream::try_recv`] and [`FrameWriter::write_all`].
#[derive(Debug, PartialEq, Eq)]
pub enum FramedError {
    /// Peer disconnected cleanly (EOF) or mid-frame.
    Closed,
    /// Transport error (timeout, protocol violation).
    Io(String),
}

/// A [`FramedError`] with its text as a character sequence.
pub enum Fault {
    /// See [`FramedError::Closed`].
    Closed,
    /// See [`FramedError::Io`].
    Io(Seq<char>),
}

impl View for FramedError {
    type V = Fault;

    open spec fn view(&self) -> Fault {
        match *self {
            FramedError::Closed => Fault::Closed,
            FramedError::Io(text) => Fault::Io(text@),
        }
    }
}

impl FramedError {
    /// The error as a text.
    pub fn message(&self) -> (r: String)
        ensures
            r@ == (match self@ {
                Fault::Closed => "stream closed"@,
                Fault::Io(text) => text,
            }),
    {
        match self {
            FramedError::Closed => "stream closed".to_owned(),
            FramedError::Io(text) => text.clone(),
        }
    }
}

/// The four bytes of `n`, most significant first.
pub open spec fn be_bytes(n: nat) -> Seq<u8> {
    seq![
        (n / 0x100_0000 % 0x100) as u8,
        (n / 0x1_0000 % 0x100) as u8,
        (n / 0x100 % 0x100) as u8,
        (n % 0x100) as u8,
    ]
}

/// The number that the first four bytes make, most significant first.
pub open spec fn be_value(bytes: Seq<u8>) -> nat {
    (bytes[0] * 0x100_0000 + bytes[1] * 0x1_0000 + bytes[2] * 0x100 + bytes[3]) as nat
}

/// A frame on the wire: the length prefix and the payload.
pub open spec fn frame(data: Seq<u8>) -> Seq<u8> {
    be_bytes(data.len()) + data
}

/// Frames on the wire, one after the other.
pub open spec fn stream_of(frames: Seq<Seq<u8>>) -> Seq<u8>
    decreases frames.len(),
{
    if frames.len() == 0 {
        seq![]
    } else {
        stream_of(frames.drop_last()) + frame(frames.last())
    }
}

/// `bytes` begin with a length prefix over the cap.
pub open spec fn oversized(bytes: Seq<u8>) -> bool {
    bytes.len() >= 4 && be_value(bytes) > MAX_FRAME_BYTES
}

/// `bytes` are what has arrived of a frame that is not complete: part of the
/// prefix, or the prefix and part of the payload. A prefix over the cap stays as
/// it is.
pub open spec fn partial(bytes: Seq<u8>) -> bool {
    ||| bytes.len() < 4
    ||| oversized(bytes) && bytes.len() == 4
    ||| !oversized(bytes) && bytes.len() < 4 + be_value(bytes)
}

/// How many bytes the next read asks for: the rest of the prefix, or the rest of
/// the payload. After a prefix over the cap it is none.
pub open spec fn wanted(bytes: Seq<u8>) -> nat {
    if bytes.len() < 4 {
        (4 - bytes.len()) as nat
    } else if oversized(bytes) {
        0
    } else {
        (4 + be_value(bytes) - bytes.len()) as nat
    }
}

/// The text of the error about a frame over the cap.
pub open spec fn too_large(len: nat) -> Seq<char> {
    "frame too large: "@ + decimal(len) + " bytes (max "@ + decimal(MAX_FRAME_BYTES as nat) + ")"@
}

/// The error text of a read that found no data in time.
pub open spec fn says_would_block(text: Seq<char>) -> bool {
    occurs_in("would block"@, text)
}

/// What happened since the last step of a receive.
pub enum RecvEvent {
    /// A receive begins.
    Start,
    /// The read timeout is installed.
    TimeoutInstalled,
    /// The read timeout could not be installed, with the error's text.
    TimeoutFailed(String),
    /// The read returned these bytes; none where the peer disconnected.
    Chunk(Vec<u8>),
    /// The read failed, with the error's text.
    ReadFailed(String),
}

/// What a receive does next.
pub enum RecvStep {
    /// Install the read timeout of [`POLL_TIMEOUT_MS`] on the stream.
    InstallTimeout,
    /// Read up to this many bytes.
    Read(u32),
    /// Return: a full frame, `None` where there is no progress beyond a partial
    /// read, or an error.
    Done(Result<Option<Vec<u8>>, FramedError>),
}

/// A [`RecvEvent`] over plain values.
pub enum Arrival {
    /// See [`RecvEvent::Start`].
    Start,
    /// See [`RecvEvent::TimeoutInstalled`].
    TimeoutInstalled,
    /// See [`RecvEvent::TimeoutFailed`].
    TimeoutFailed(Seq<char>),
    /// See [`RecvEvent::Chunk`].
    Chunk(Seq<u8>),
    /// See [`RecvEvent::ReadFailed`].
    ReadFailed(Seq<char>),
}

/// A [`RecvStep`] over plain values.
pub enum Step {
    /// See [`RecvStep::InstallTimeout`].
    InstallTimeout,
    /// See [`RecvStep::Read`].
    Read(nat),
    /// Return a full frame.
    Frame(Seq<u8>),
    /// Return without a frame.
    Idle,
    /// Return an error.
    Failed(Fault),
}

impl View for RecvEvent {
    type V = Arrival;

    open spec fn view(&self) -> Arrival {
        match *self {
            RecvEvent::Start => Arrival::Start,
            RecvEvent::TimeoutInstalled => Arrival::TimeoutInstalled,
            RecvEvent::TimeoutFailed(text) => Arrival::TimeoutFailed(text@),
            RecvEvent::Chunk(bytes) => Arrival::Chunk(bytes@),
            RecvEvent::ReadFailed(text) => Arrival::ReadFailed(text@),
        }
    }
}

impl View for RecvStep {
    type V = Step;

    open spec fn view(&self) -> Step {
        match *self {
            RecvStep::InstallTimeout => Step::InstallTimeout,
            RecvStep::Read(n) => Step::Read(n as nat),
            RecvStep::Done(Ok(Some(bytes))) => Step::Frame(bytes@),
            RecvStep::Done(Ok(None)) => Step::Idle,
            RecvStep::Done(Err(error)) => Step::Failed(error@),
        }
    }
}

/// The receive side of a stream: the bytes that have arrived of the current
/// frame, and whether the read timeout is installed.
pub struct Receiving {
    /// The bytes of the current frame so far, prefix included.
    pub pending: Seq<u8>,
    /// Whether the read timeout is installed.
    pub timeout_installed: bool,
}

impl Receiving {
    /// The event can happen in this state: a timeout is installed once, reads
    /// come after it, and a read returns no more than it was asked for.
    pub open spec fn expects(self, event: Arrival) -> bool {
        match event {
            Arrival::Start => true,
            Arrival::TimeoutInstalled => !self.timeout_installed,
            Arrival::TimeoutFailed(_) => !self.timeout_installed,
            Arrival::Chunk(bytes) => self.timeout_installed && bytes.len() <= wanted(self.pending),
            Arrival::ReadFailed(_) => self.timeout_installed,
        }
    }

    /// The state after an event, and what comes next.
    pub open spec fn step(self, event: Arrival) -> (Receiving, Step) {
        match event {
            Arrival::Start => (
                self,
                if self.timeout_installed {
                    Step::Read(wanted(self.pending))
                } else {
                    Step::InstallTimeout
                },
            ),
            Arrival::TimeoutInstalled => (
                Receiving { timeout_installed: true, ..self },
                Step::Read(wanted(self.pending)),
            ),
            Arrival::TimeoutFailed(text) => (
                self,
                Step::Failed(Fault::Io("set_read_timeout: "@ + text)),
            ),
            Arrival::Chunk(bytes) => if bytes.len() == 0 {
                (self, Step::Failed(Fault::Closed))
            } else {
                let (pending, step) = feed(self.pending, bytes);
                (Receiving { pending, ..self }, step)
            },
            Arrival::ReadFailed(text) => (
                self,
                if says_would_block(text) {
                    Step::Idle
                } else {
                    Step::Failed(Fault::Io(text))
                },
            ),
        }
    }
}

/// What a chunk that arrives after `pending` makes of it.
pub open spec fn feed(pending: Seq<u8>, chunk: Seq<u8>) -> (Seq<u8>, Step) {
    let bytes = pending + chunk;
    if oversized(bytes) {
        (bytes, Step::Failed(Fault::Io(too_large(be_value(bytes)))))
    } else if partial(bytes) {
        (bytes, Step::Read(wanted(bytes)))
    } else {
        (seq![], Step::Frame(bytes.skip(4)))
    }
}

/// Receive state for a single stream's incoming frames.
#[allow(inconsistent_fields)]
pub enum RxState {
    /// Accumulating the 4-byte length prefix.
    Length { buf: [u8; 4], filled: usize },
    /// Accumulating the payload of declared length.
    Payload { len: usize, buf: Vec<u8> },
}

impl View for RxState {
    type V = Seq<u8>;

    /// The bytes that have arrived of the current frame, prefix included.
    open spec fn view(&self) -> Seq<u8> {
        match *self {
            RxState::Length { buf, filled } => buf@.take(filled as int),
            RxState::Payload { len, buf } => be_bytes(len as nat) + buf@,
        }
    }
}

impl RxState {
    /// The state stands for part of a frame. A full prefix is kept as a prefix
    /// only where it is over the cap.
    pub open spec fn wf(self) -> bool {
        match self {
            RxState::Length { buf, filled } => filled < 4 || (filled == 4 && oversized(buf@)),
            RxState::Payload { len, buf } => buf@.len() < len <= MAX_FRAME_BYTES,
        }
    }

    /// Nothing has arrived.
    pub fn new() -> (r: Self)
        ensures
            r.wf(),
            r@ == Seq::<u8>::empty(),
    {
        let state = RxState::Length { buf: [0u8; 4], filled: 0 };
        assert(state@ =~= Seq::<u8>::empty());
        state
    }

    /// How many bytes the next read asks for.
    pub fn want(&self) -> (r: u32)
        requires
            self.wf(),
        ensures
            r == wanted(self@),
    {
        match self {
            RxState::Length { buf, filled } => {
                proof {
                    if *filled == 4 {
                        assert(buf@.take(4) =~= buf@);
                    }
                }
                (4 - *filled) as u32
            },
            RxState::Payload { len, buf } => {
                proof {
                    be_round_trip(*len as nat);
                    let bytes = be_bytes(*len as nat) + buf@;
                    assert(be_value(bytes) == be_value(be_bytes(*len as nat)));
                }
                (*len - buf.len()) as u32
            },
        }
    }

    /// Take in a chunk that a read of [`RxState::want`] bytes returned.
    pub fn feed(self, chunk: Vec<u8>) -> (r: (RxState, RecvStep))
        requires
            self.wf(),
            0 < chunk@.len() <= wanted(self@),
        ensures
            r.0.wf(),
            (r.0@, r.1@) == feed(self@, chunk@),
    {
        let ghost all = self@ + chunk@;
        match self {
            RxState::Length { buf, filled } => {
                proof {
                    if filled == 4 {
                        assert(buf@.take(4) =~= buf@);
                    }
                }
                let mut prefix: [u8; 4] = buf;
                let mut i: usize = 0;
                while i < chunk.len()
                    invariant
                        i <= chunk.len(),
                        filled + chunk@.len() <= 4,
                        prefix@.take(filled + i) == buf@.take(filled as int) + chunk@.take(
                            i as int,
                        ),
                    decreases chunk.len() - i,
                {
                    let ghost before = prefix@;
                    prefix[filled + i] = chunk[i];
                    proof {
                        assert(prefix@.take(filled + i + 1) =~= before.take(filled + i).push(
                            chunk@[i as int],
                        ));
                        assert(chunk@.take(i + 1) =~= chunk@.take(i as int).push(chunk@[i as int]));
                        assert(buf@.take(filled as int) + chunk@.take(i + 1) =~= (buf@.take(
                            filled as int,
                        ) + chunk@.take(i as int)).push(chunk@[i as int]));
                    }
                    i += 1;
                }
                let filled: usize = filled + chunk.len();
                proof {
                    assert(chunk@.take(chunk@.len() as int) =~= chunk@);
                    assert(prefix@.take(filled as int) == all);
                }
                if filled < 4 {
                    let state = RxState::Length { buf: prefix, filled };
                    let want = state.want();
                    return (state, RecvStep::Read(want));
                }
                assert(prefix@.take(4) =~= prefix@);
                let len = be_decode(&prefix);
                if len > MAX_FRAME_BYTES {
                    let text = too_large_text(len);
                    return (
                        RxState::Length { buf: prefix, filled },
                        RecvStep::Done(Err(FramedError::Io(text))),
                    );
                }
                proof {
                    be_round_trip_back(prefix@);
                }
                let empty: Vec<u8> = Vec::new();
                if len == 0 {
                    assert(all.skip(4) =~= empty@);
                    return (RxState::new(), RecvStep::Done(Ok(Some(empty))));
                }
                let state = RxState::Payload { len, buf: empty };
                assert(state@ =~= all);
                let want = state.want();
                (state, RecvStep::Read(want))
            },
            RxState::Payload { len, buf } => {
                let mut buf: Vec<u8> = buf;
                let mut chunk: Vec<u8> = chunk;
                let ghost prefix = be_bytes(len as nat);
                proof {
                    be_round_trip(len as nat);
                    assert(be_value(prefix + buf@) == be_value(prefix));
                }
                buf.append(&mut chunk);
                proof {
                    assert(all =~= prefix + buf@);
                    assert(be_value(all) == be_value(prefix));
                }
                if buf.len() == len {
                    assert(all.skip(4) =~= buf@);
                    return (RxState::new(), RecvStep::Done(Ok(Some(buf))));
                }
                let state = RxState::Payload { len, buf };
                let want = state.want();
                (state, RecvStep::Read(want))
            },
        }
    }
}

/// A stream handle with the receive state needed to reassemble frames across
/// polling iterations. The handle is of any type `H`; nothing here uses it.
pub struct FramedStream<H> {
    pub handle: H,
    pub rx: RxState,
    /// Whether the read timeout has been installed on this stream. Done on the
    /// first receive, to spare streams that are only used to send.
    pub poll_timeout_installed: bool,
}

impl<H> View for FramedStream<H> {
    type V = Receiving;

    open spec fn view(&self) -> Receiving {
        Receiving { pending: self.rx@, timeout_installed: self.poll_timeout_installed }
    }
}

impl<H> FramedStream<H> {
    /// The receive state stands for part of a frame.
    pub open spec fn wf(self) -> bool {
        self.rx.wf()
    }

    /// A stream on which nothing has arrived.
    pub fn new(handle: H) -> (r: Self)
        ensures
            r.wf(),
            r.handle == handle,
            r@ == (Receiving { pending: Seq::empty(), timeout_installed: false }),
    {
        FramedStream { handle, rx: RxState::new(), poll_timeout_installed: false }
    }

    /// Whether the event can happen now; see [`FramedStream::try_recv`].
    pub fn is_expected(&self, event: &RecvEvent) -> (r: bool)
        requires
            self.wf(),
        ensures
            r == self@.expects(event@),
    {
        match event {
            RecvEvent::Start => true,
            RecvEvent::TimeoutInstalled => !self.poll_timeout_installed,
            RecvEvent::TimeoutFailed(_) => !self.poll_timeout_installed,
            RecvEvent::Chunk(bytes) => self.poll_timeout_installed && bytes.len()
                <= self.rx.want() as usize,
            RecvEvent::ReadFailed(_) => self.poll_timeout_installed,
        }
    }

    /// Advance a receive by one event and say what comes next: install the read
    /// timeout, read, or return.
    ///
    /// - `Done(Ok(Some(frame)))`: a full frame is ready; the state resets for
    ///   the next frame.
    /// - `Done(Ok(None))`: no progress beyond a partial read; start again later.
    /// - `Done(Err(Closed))`: the peer disconnected.
    /// - `Done(Err(Io(text)))`: transport-level error.
    pub fn try_recv(&mut self, event: RecvEvent) -> (r: RecvStep)
        requires
            old(self).wf(),
            old(self)@.expects(event@),
        ensures
            final(self).wf(),
            final(self).handle == old(self).handle,
            (final(self)@, r@) == old(self)@.step(event@),
    {
        match event {
            RecvEvent::Start => {
                if self.poll_timeout_installed {
                    RecvStep::Read(self.rx.want())
                } else {
                    RecvStep::InstallTimeout
                }
            },
            RecvEvent::TimeoutInstalled => {
                self.poll_timeout_installed = true;
                RecvStep::Read(self.rx.want())
            },
            RecvEvent::TimeoutFailed(text) => {
                let message = "set_read_timeout: ".to_owned().concat(text.as_str());
                RecvStep::Done(Err(FramedError::Io(message)))
            },
            RecvEvent::Chunk(bytes) => {
                if bytes.len() == 0 {
                    return RecvStep::Done(Err(FramedError::Closed));
                }
                let mut rx = RxState::new();
                std::mem::swap(&mut rx, &mut self.rx);
                let (state, step) = rx.feed(bytes);
                self.rx = state;
                step
            },
            RecvEvent::ReadFailed(text) => {
                if would_block(text.as_str()) {
                    RecvStep::Done(Ok(None))
                } else {
                    RecvStep::Done(Err(FramedError::Io(text)))
                }
            },
        }
    }
}

/// What happened since the last step of a write.
pub enum WriteEvent {
    /// The write begins.
    Start,
    /// This many of the offered bytes were written.
    Wrote(u32),
    /// The write failed, with the error's text.
    Failed(String),
}

/// What a write does next.
pub enum WriteStep {
    /// Write the bytes that [`FrameWriter::offered`] gives, or some of them.
    Write,
    /// Return.
    Done(Result<(), FramedError>),
}

/// A [`WriteEvent`] over plain values.
pub enum Progress {
    /// See [`WriteEvent::Start`].
    Start,
    /// See [`WriteEvent::Wrote`].
    Wrote(nat),
    /// See [`WriteEvent::Failed`].
    Failed(Seq<char>),
}

/// A [`WriteStep`] over plain values.
pub enum Next {
    /// See [`WriteStep::Write`].
    Write,
    /// Return: all is written.
    Finished,
    /// Return an error.
    Failed(Fault),
}

impl View for WriteEvent {
    type V = Progress;

    open spec fn view(&self) -> Progress {
        match *self {
            WriteEvent::Start => Progress::Start,
            WriteEvent::Wrote(n) => Progress::Wrote(n as nat),
            WriteEvent::Failed(text) => Progress::Failed(text@),
        }
    }
}

impl View for WriteStep {
    type V = Next;

    open spec fn view(&self) -> Next {
        match *self {
            WriteStep::Write => Next::Write,
            WriteStep::Done(Ok(_)) => Next::Finished,
            WriteStep::Done(Err(error)) => Next::Failed(error@),
        }
    }
}

/// The send side of one frame: what of the frame is still to be written, and how
/// long its payload is.
pub struct Writing {
    /// The bytes that are still to be written.
    pub rest: Seq<u8>,
    /// The length of the payload.
    pub body: nat,
}

impl Writing {
    /// A frame of which nothing is written.
    pub open spec fn start(data: Seq<u8>) -> Writing {
        Writing { rest: frame(data), body: data.len() }
    }

    /// The bytes that the next write offers: the rest of the prefix while there
    /// is any, then the rest of the payload.
    pub open spec fn offered(self) -> Seq<u8> {
        if self.rest.len() > self.body {
            self.rest.take(self.rest.len() - self.body)
        } else {
            self.rest
        }
    }

    /// The event can happen in this state: a write is made only while bytes are
    /// left, and takes no more than it was offered.
    pub open spec fn expects(self, event: Progress) -> bool {
        match event {
            Progress::Start => true,
            Progress::Wrote(n) => self.rest.len() > 0 && n <= self.offered().len(),
            Progress::Failed(_) => self.rest.len() > 0,
        }
    }

    /// What comes next where no error occurred.
    pub open spec fn next(self) -> Next {
        if self.rest.len() > 0 {
            Next::Write
        } else {
            Next::Finished
        }
    }

    /// The state after an event, and what comes next.
    pub open spec fn step(self, event: Progress) -> (Writing, Next) {
        match event {
            Progress::Start => (self, self.next()),
            Progress::Wrote(n) => if n == 0 {
                (self, Next::Failed(Fault::Closed))
            } else {
                let after = Writing { rest: self.rest.skip(n as int), ..self };
                (after, after.next())
            },
            Progress::Failed(text) => (self, Next::Failed(Fault::Io(text))),
        }
    }
}

/// What of one frame is still to be written.
pub struct FrameWriter<'a> {
    pub prefix: [u8; 4],
    pub prefix_sent: usize,
    pub data: &'a [u8],
    pub data_sent: usize,
}

impl<'a> View for FrameWriter<'a> {
    type V = Writing;

    open spec fn view(&self) -> Writing {
        Writing {
            rest: self.prefix@.skip(self.prefix_sent as int) + self.data@.skip(
                self.data_sent as int,
            ),
            body: self.data@.len(),
        }
    }
}

impl<'a> FrameWriter<'a> {
    /// The payload begins after the prefix.
    pub open spec fn wf(self) -> bool {
        &&& self.prefix_sent <= 4
        &&& self.data_sent <= self.data@.len()
        &&& self.prefix_sent < 4 ==> self.data_sent == 0
    }

    /// The bytes that the next write offers.
    pub fn offered(&self) -> (r: &[u8])
        requires
            self.wf(),
        ensures
            r@ == self@.offered(),
    {
        if self.prefix_sent < 4 {
            let part = vstd::slice::slice_subrange(
                vstd::array::array_as_slice(&self.prefix),
                self.prefix_sent,
                4,
            );
            assert(part@ =~= self@.offered());
            part
        } else {
            let part = vstd::slice::slice_subrange(self.data, self.data_sent, self.data.len());
            assert(part@ =~= self@.offered());
            part
        }
    }

    /// Whether the event can happen now; see [`FrameWriter::write_all`].
    pub fn is_expected(&self, event: &WriteEvent) -> (r: bool)
        requires
            self.wf(),
        ensures
            r == self@.expects(event@),
    {
        match event {
            WriteEvent::Start => true,
            WriteEvent::Wrote(n) => !self.is_finished() && *n as usize <= self.offered().len(),
            WriteEvent::Failed(_) => !self.is_finished(),
        }
    }

    /// Whether all is written.
    pub fn is_finished(&self) -> (r: bool)
        requires
            self.wf(),
        ensures
            r == (self@.rest.len() == 0),
    {
        self.prefix_sent == 4 && self.data_sent == self.data.len()
    }

    /// Advance a write by one event and say what comes next. A write may take
    /// fewer bytes than it was offered; the frame is offered again until it is
    /// drained, and a write that takes nothing means that the peer is gone.
    pub fn write_all(&mut self, event: WriteEvent) -> (r: WriteStep)
        requires
            old(self).wf(),
            old(self)@.expects(event@),
        ensures
            final(self).wf(),
            (final(self)@, r@) == old(self)@.step(event@),
    {
        match event {
            WriteEvent::Start => {},
            WriteEvent::Wrote(n) => {
                if n == 0 {
                    return WriteStep::Done(Err(FramedError::Closed));
                }
                let ghost before = self@;
                if self.prefix_sent < 4 {
                    self.prefix_sent = self.prefix_sent + n as usize;
                } else {
                    assert(self@.offered().len() == self.data.len() - self.data_sent);
                    self.data_sent = self.data_sent + n as usize;
                }
                assert(self@.rest =~= before.rest.skip(n as int));
            },
            WriteEvent::Failed(text) => {
                return WriteStep::Done(Err(FramedError::Io(text)));
            },
        }
        if self.is_finished() {
            WriteStep::Done(Ok(()))
        } else {
            WriteStep::Write
        }
    }
}

impl<H> FramedStream<H> {
    /// Begin to send one frame: the writer holds the length prefix and the data.
    /// Fails where the length does not fit the prefix.
    pub fn send<'a>(&self, data: &'a [u8]) -> (r: Result<FrameWriter<'a>, FramedError>)
        ensures
            match r {
                Ok(writer) => data@.len() <= u32::MAX && writer.wf() && writer@ == Writing::start(
                    data@,
                ),
                Err(error) => data@.len() > u32::MAX && error@ == Fault::Io(
                    "frame too large for u32 length prefix"@,
                ),
            },
    {
        let len: u64 = data.len() as u64;
        if len > u32::MAX as u64 {
            return Err(
                FramedError::Io("frame too large for u32 length prefix".to_owned()),
            );
        }
        let prefix = be_encode(len as u32);
        let writer = FrameWriter { prefix, prefix_sent: 0, data, data_sent: 0 };
        assert(writer@.rest =~= frame(data@));
        Ok(writer)
    }
}

/// Detect the host's `"would block"` sentinel in the text of an error.
pub fn would_block(text: &str) -> (r: bool)
    ensures
        r == says_would_block(text@),
{
    contains(text, "would block")
}

/// The number that four bytes make, most significant first.
fn be_decode(bytes: &[u8; 4]) -> (r: usize)
    ensures
        r == be_value(bytes@),
{
    bytes[0] as usize * 0x100_0000 + bytes[1] as usize * 0x1_0000 + bytes[2] as usize * 0x100
        + bytes[3] as usize
}

/// The four bytes of a number, most significant first.
fn be_encode(n: u32) -> (r: [u8; 4])
    ensures
        r@ == be_bytes(n as nat),
{
    let bytes: [u8; 4] = [
        (n / 0x100_0000 % 0x100) as u8,
        (n / 0x1_0000 % 0x100) as u8,
        (n / 0x100 % 0x100) as u8,
        (n % 0x100) as u8,
    ];
    assert(bytes@ =~= be_bytes(n as nat));
    bytes
}

/// The error text about a frame over the cap.
fn too_large_text(len: usize) -> (r: String)
    ensures
        r@ == too_large(len as nat),
{
    let len_text = decimal_text(len);
    let max_text = decimal_text(MAX_FRAME_BYTES);
    "frame too large: ".to_owned().concat(len_text.as_str()).concat(" bytes (max ").concat(
        max_text.as_str(),
    ).concat(")")
}

/// Encoding a number in four bytes and decoding them gives it back.
proof fn be_round_trip(n: nat)
    requires
        n <= u32::MAX,
    ensures
        be_bytes(n).len() == 4,
        be_value(be_bytes(n)) == n,
{
}

/// Decoding four bytes and encoding the number gives them back.
proof fn be_round_trip_back(bytes: Seq<u8>)
    requires
        bytes.len() == 4,
    ensures
        be_bytes(be_value(bytes)) == bytes,
{
    let (a, b, c, d) = (bytes[0] as int, bytes[1] as int, bytes[2] as int, bytes[3] as int);
    let n = be_value(bytes) as int;
    let low = c * 0x100 + d;
    assert(n == (a * 0x1_0000 + b * 0x100 + c) * 0x100 + d);
    assert(n % 0x100 == d && n / 0x100 == a * 0x1_0000 + b * 0x100 + c);
    assert((n / 0x100) % 0x100 == c);
    assert(n == (a * 0x100 + b) * 0x1_0000 + low);
    assert(n / 0x1_0000 == a * 0x100 + b);
    assert((n / 0x1_0000) % 0x100 == b);
    assert(n / 0x100_0000 == a);
    assert(be_bytes(be_value(bytes)) =~= bytes);
}

/// What has been received after a list of chunks: the frames that were
/// completed, and the bytes of the current frame.
pub struct Received {
    /// The completed frames, in order.
    pub frames: Seq<Seq<u8>>,
    /// The bytes of the current frame so far.
    pub pending: Seq<u8>,
}

impl Received {
    /// With one more chunk.
    pub open spec fn and(self, chunk: Seq<u8>) -> Received {
        let (pending, step) = feed(self.pending, chunk);
        Received {
            frames: match step {
                Step::Frame(data) => self.frames.push(data),
                _ => self.frames,
            },
            pending,
        }
    }
}

/// What has been received after `chunks`, starting with nothing.
pub open spec fn received(chunks: Seq<Seq<u8>>) -> Received
    decreases chunks.len(),
{
    if chunks.len() == 0 {
        Received { frames: seq![], pending: seq![] }
    } else {
        received(chunks.drop_last()).and(chunks.last())
    }
}

/// The chunks are such as reads return: none is empty, and none holds more than
/// its read asked for.
pub open spec fn orderly(chunks: Seq<Seq<u8>>) -> bool
    decreases chunks.len(),
{
    chunks.len() == 0 || {
        &&& orderly(chunks.drop_last())
        &&& 0 < chunks.last().len() <= wanted(received(chunks.drop_last()).pending)
    }
}

/// The bytes of the chunks, one after the other.
pub open spec fn joined(chunks: Seq<Seq<u8>>) -> Seq<u8>
    decreases chunks.len(),
{
    if chunks.len() == 0 {
        seq![]
    } else {
        joined(chunks.drop_last()) + chunks.last()
    }
}

/// Every frame is within the cap.
pub open spec fn within_cap(frames: Seq<Seq<u8>>) -> bool {
    forall|i: int| 0 <= i < frames.len() ==> (#[trigger] frames[i]).len() <= MAX_FRAME_BYTES
}

/// A chunk that a read can return leaves part of a frame, and completes a frame
/// exactly when all its bytes are there.
proof fn feed_splits(pending: Seq<u8>, chunk: Seq<u8>)
    requires
        partial(pending),
        0 < chunk.len() <= wanted(pending),
    ensures
        partial(feed(pending, chunk).0),
        match feed(pending, chunk).1 {
            Step::Frame(data) => {
                &&& data.len() <= MAX_FRAME_BYTES
                &&& feed(pending, chunk).0.len() == 0
                &&& pending + chunk == frame(data)
            },
            _ => feed(pending, chunk).0 == pending + chunk,
        },
{
    let bytes = pending + chunk;
    if pending.len() >= 4 {
        assert(be_value(bytes) == be_value(pending));
    }
    if bytes.len() >= 4 && !oversized(bytes) && !partial(bytes) {
        assert(bytes.len() == 4 + be_value(bytes));
        be_round_trip_back(bytes.take(4));
        assert(be_value(bytes.take(4)) == be_value(bytes));
        assert(bytes =~= frame(bytes.skip(4)));
    }
}

/// No byte is lost: the completed frames, written out, followed by the bytes of
/// the current frame are the bytes that arrived, however they were cut into
/// chunks. What is kept is always part of one frame, and every completed frame is
/// within the cap.
pub proof fn no_byte_is_lost(chunks: Seq<Seq<u8>>)
    requires
        orderly(chunks),
    ensures
        stream_of(received(chunks).frames) + received(chunks).pending == joined(chunks),
        partial(received(chunks).pending),
        within_cap(received(chunks).frames),
    decreases chunks.len(),
{
    if chunks.len() > 0 {
        no_byte_is_lost(chunks.drop_last());
        let old = received(chunks.drop_last());
        let new = received(chunks);
        let chunk = chunks.last();
        feed_splits(old.pending, chunk);
        match feed(old.pending, chunk).1 {
            Step::Frame(data) => {
                assert(new.frames.drop_last() =~= old.frames);
                assert(stream_of(new.frames) == stream_of(old.frames) + frame(data));
            },
            _ => {},
        }
        assert(stream_of(new.frames) + new.pending =~= (stream_of(old.frames) + old.pending)
            + chunk);
    } else {
        assert(stream_of(received(chunks).frames) + received(chunks).pending =~= joined(chunks));
    }
}

/// Adding a frame in front of a stream.
proof fn stream_from_front(frames: Seq<Seq<u8>>)
    requires
        frames.len() > 0,
    ensures
        stream_of(frames) == frame(frames[0]) + stream_of(frames.drop_first()),
    decreases frames.len(),
{
    if frames.len() == 1 {
        assert(frames.drop_last() =~= seq![]);
        assert(frames.drop_first() =~= seq![]);
        assert(stream_of(frames) =~= frame(frames[0]) + stream_of(frames.drop_first()));
    } else {
        stream_from_front(frames.drop_last());
        let rest = frames.drop_first();
        assert(frames.drop_last().drop_first() =~= rest.drop_last());
        assert(rest.last() == frames.last());
        assert(stream_of(frames) =~= frame(frames[0]) + stream_of(rest));
    }
}

/// A frame at the front of some bytes announces its length.
proof fn front_announces_length(data: Seq<u8>, rest: Seq<u8>)
    requires
        data.len() <= MAX_FRAME_BYTES,
    ensures
        (frame(data) + rest).len() == 4 + data.len() + rest.len(),
        be_value(frame(data) + rest) == data.len(),
{
    let prefix = be_bytes(data.len());
    let bytes = frame(data) + rest;
    be_round_trip(data.len());
    assert(bytes[0] == prefix[0] && bytes[1] == prefix[1] && bytes[2] == prefix[2] && bytes[3]
        == prefix[3]);
}

/// Some bytes begin with at most one frame.
proof fn one_frame_at_the_front(a: Seq<u8>, a_rest: Seq<u8>, b: Seq<u8>, b_rest: Seq<u8>)
    requires
        a.len() <= MAX_FRAME_BYTES,
        b.len() <= MAX_FRAME_BYTES,
        frame(a) + a_rest == frame(b) + b_rest,
    ensures
        a == b,
        a_rest == b_rest,
{
    front_announces_length(a, a_rest);
    front_announces_length(b, b_rest);
    let whole = frame(a) + a_rest;
    let n = 4 + a.len() as int;
    assert(a =~= whole.subrange(4, n));
    assert(b =~= whole.subrange(4, n));
    assert(a_rest =~= whole.skip(n));
    assert(b_rest =~= whole.skip(n));
}

/// Part of a frame does not begin with a whole one.
proof fn part_holds_no_frame(pending: Seq<u8>, data: Seq<u8>, rest: Seq<u8>)
    requires
        partial(pending),
        data.len() <= MAX_FRAME_BYTES,
    ensures
        pending != frame(data) + rest,
{
    front_announces_length(data, rest);
}

/// A byte stream is cut into frames in one way only.
proof fn one_way_to_cut(frames: Seq<Seq<u8>>, pending: Seq<u8>, sent: Seq<Seq<u8>>)
    requires
        within_cap(frames),
        within_cap(sent),
        partial(pending),
        stream_of(frames) + pending == stream_of(sent),
    ensures
        frames == sent,
        pending.len() == 0,
    decreases sent.len(),
{
    if frames.len() == 0 {
        assert(stream_of(frames) + pending =~= pending);
        if sent.len() > 0 {
            stream_from_front(sent);
            part_holds_no_frame(pending, sent[0], stream_of(sent.drop_first()));
        }
        assert(frames =~= sent);
    } else {
        stream_from_front(frames);
        let head = frames[0];
        let tail = stream_of(frames.drop_first()) + pending;
        assert(stream_of(frames) + pending =~= frame(head) + tail);
        front_announces_length(head, tail);
        assert(sent.len() > 0);
        stream_from_front(sent);
        one_frame_at_the_front(head, tail, sent[0], stream_of(sent.drop_first()));
        one_way_to_cut(frames.drop_first(), pending, sent.drop_first());
        assert(frames =~= seq![head] + frames.drop_first());
        assert(sent =~= seq![head] + sent.drop_first());
    }
}

/// What is sent is received: if the bytes that arrive are those of a list of
/// frames within the cap, exactly those frames come out, in order, and nothing
/// is left over, however reads cut the bytes into chunks.
pub proof fn sent_is_received(sent: Seq<Seq<u8>>, chunks: Seq<Seq<u8>>)
    requires
        within_cap(sent),
        orderly(chunks),
        joined(chunks) == stream_of(sent),
    ensures
        received(chunks).frames == sent,
        received(chunks).pending.len() == 0,
{
    no_byte_is_lost(chunks);
    one_way_to_cut(received(chunks).frames, received(chunks).pending, sent);
}

/// After a length prefix over the cap, no receive returns a frame any more and
/// nothing more is taken in.
pub proof fn oversized_ends_the_stream(state: Receiving, event: Arrival)
    requires
        oversized(state.pending),
        state.expects(event),
    ensures
        state.step(event).1 !is Frame,
        state.step(event).0.pending == state.pending,
{
}

/// Only bytes that arrive change what is kept of the current frame: a receive
/// that finds no data, fails or sees the end of the stream can be resumed where it
/// stood.
pub proof fn only_bytes_change_the_frame(state: Receiving, event: Arrival)
    requires
        event matches Arrival::Chunk(bytes) ==> bytes.len() == 0,
    ensures
        state.step(event).0.pending == state.pending,
{
}

/// What a stream has received after a list of events: its state, the frames that
/// were returned and the errors that were returned.
pub struct Heard {
    /// The receive side of the stream.
    pub state: Receiving,
    /// The frames that were returned, in order.
    pub frames: Seq<Seq<u8>>,
    /// The errors that were returned, in order.
    pub faults: Seq<Fault>,
}

impl Heard {
    /// A stream on which nothing has happened.
    pub open spec fn start() -> Heard {
        Heard {
            state: Receiving { pending: seq![], timeout_installed: false },
            frames: seq![],
            faults: seq![],
        }
    }

    /// With one more event.
    pub open spec fn and(self, event: Arrival) -> Heard {
        let (state, step) = self.state.step(event);
        Heard {
            state,
            frames: match step {
                Step::Frame(data) => self.frames.push(data),
                _ => self.frames,
            },
            faults: match step {
                Step::Failed(fault) => self.faults.push(fault),
                _ => self.faults,
            },
        }
    }
}

/// What a stream has received after `events`.
pub open spec fn heard(events: Seq<Arrival>) -> Heard
    decreases events.len(),
{
    if events.len() == 0 {
        Heard::start()
    } else {
        heard(events.drop_last()).and(events.last())
    }
}

/// Each of the events can happen where it comes.
pub open spec fn in_turn(events: Seq<Arrival>) -> bool
    decreases events.len(),
{
    events.len() == 0 || {
        &&& in_turn(events.drop_last())
        &&& heard(events.drop_last()).state.expects(events.last())
    }
}

/// The bytes that arrive with the events.
pub open spec fn bytes_in(events: Seq<Arrival>) -> Seq<u8>
    decreases events.len(),
{
    if events.len() == 0 {
        seq![]
    } else {
        match events.last() {
            Arrival::Chunk(bytes) => bytes_in(events.drop_last()) + bytes,
            _ => bytes_in(events.drop_last()),
        }
    }
}

/// The event is no failure of the stream: bytes, a read that found no data in
/// time, or one that only starts a receive or readies the stream.
pub open spec fn harmless(event: Arrival) -> bool {
    match event {
        Arrival::Start => true,
        Arrival::TimeoutInstalled => true,
        Arrival::TimeoutFailed(_) => false,
        Arrival::Chunk(bytes) => bytes.len() > 0,
        Arrival::ReadFailed(text) => says_would_block(text),
    }
}

/// The chunks that the events bring, without the empty ones.
spec fn chunks_in(events: Seq<Arrival>) -> Seq<Seq<u8>>
    decreases events.len(),
{
    if events.len() == 0 {
        seq![]
    } else {
        match events.last() {
            Arrival::Chunk(bytes) if bytes.len() > 0 => chunks_in(events.drop_last()).push(bytes),
            _ => chunks_in(events.drop_last()),
        }
    }
}

/// What is heard is what the chunks alone make.
proof fn heard_by_chunks(events: Seq<Arrival>)
    requires
        in_turn(events),
    ensures
        orderly(chunks_in(events)),
        joined(chunks_in(events)) == bytes_in(events),
        heard(events).frames == received(chunks_in(events)).frames,
        heard(events).state.pending == received(chunks_in(events)).pending,
    decreases events.len(),
{
    if events.len() > 0 {
        let before = events.drop_last();
        heard_by_chunks(before);
        match events.last() {
            Arrival::Chunk(bytes) => {
                if bytes.len() > 0 {
                    assert(chunks_in(events).drop_last() =~= chunks_in(before));
                } else {
                    assert(bytes_in(before) + bytes =~= bytes_in(before));
                }
            },
            _ => {},
        }
    }
}

/// Where no event is a failure, an error means that the current frame is over
/// the cap.
proof fn only_oversized_fails(events: Seq<Arrival>)
    requires
        in_turn(events),
        forall|k: int| 0 <= k < events.len() ==> harmless(#[trigger] events[k]),
    ensures
        heard(events).faults.len() > 0 ==> oversized(heard(events).state.pending),
    decreases events.len(),
{
    if events.len() > 0 {
        let before = events.drop_last();
        assert forall|k: int| 0 <= k < before.len() implies harmless(#[trigger] before[k]) by {
            assert(before[k] == events[k]);
        }
        only_oversized_fails(before);
        assert(harmless(events[events.len() - 1]));
        if oversized(heard(before).state.pending) {
            oversized_ends_the_stream(heard(before).state, events.last());
        }
    }
}

/// What is sent is received, over whole receives: if the bytes that arrive are
/// those of a list of frames within the cap, exactly those frames are returned, in
/// order, and nothing is left over, whatever receives that found no data or failed
/// came between the bytes. Where no event is a failure of the stream, no receive
/// returns an error.
pub proof fn sent_is_received_over_events(sent: Seq<Seq<u8>>, events: Seq<Arrival>)
    requires
        within_cap(sent),
        in_turn(events),
        bytes_in(events) == stream_of(sent),
    ensures
        heard(events).frames == sent,
        heard(events).state.pending.len() == 0,
        (forall|k: int| 0 <= k < events.len() ==> harmless(#[trigger] events[k])) ==> heard(
            events,
        ).faults.len() == 0,
{
    heard_by_chunks(events);
    sent_is_received(sent, chunks_in(events));
    if forall|k: int| 0 <= k < events.len() ==> harmless(#[trigger] events[k]) {
        only_oversized_fails(events);
    }
}

/// A send after `counts` partial writes: what they have written and what is
/// left.
pub open spec fn written(data: Seq<u8>, counts: Seq<nat>) -> (Seq<u8>, Writing)
    decreases counts.len(),
{
    if counts.len() == 0 {
        (seq![], Writing::start(data))
    } else {
        let (out, state) = written(data, counts.drop_last());
        let n = counts.last();
        (out + state.offered().take(n as int), state.step(Progress::Wrote(n)).0)
    }
}

/// Each of the writes took some of what it was offered.
pub open spec fn proper_writes(data: Seq<u8>, counts: Seq<nat>) -> bool
    decreases counts.len(),
{
    counts.len() == 0 || {
        &&& proper_writes(data, counts.drop_last())
        &&& counts.last() > 0
        &&& written(data, counts.drop_last()).1.expects(Progress::Wrote(counts.last()))
    }
}

/// A send writes exactly the frame: what partial writes have written, followed
/// by what is left, is the frame, and the send finishes exactly when nothing is
/// left.
pub proof fn send_writes_the_frame(data: Seq<u8>, counts: Seq<nat>)
    requires
        proper_writes(data, counts),
    ensures
        written(data, counts).0 + written(data, counts).1.rest == frame(data),
        written(data, counts).1.next() is Finished <==> written(data, counts).0 == frame(data),
    decreases counts.len(),
{
    if counts.len() > 0 {
        send_writes_the_frame(data, counts.drop_last());
        let (out, state) = written(data, counts.drop_last());
        let n = counts.last() as int;
        assert(state.offered().take(n) =~= state.rest.take(n));
        assert(out + state.offered().take(n) + state.rest.skip(n) =~= out + state.rest);
    } else {
        assert(written(data, counts).0 + written(data, counts).1.rest =~= frame(data));
    }
    let (out, state) = written(data, counts);
    if state.rest.len() == 0 {
        assert(out =~= out + state.rest);
    } else {
        assert(out.len() < frame(data).len());
    }
}

/// The prefix is big-endian: its four bytes, weighted by 2^24, 2^16, 2^8 and 1,
/// add up to the length, in what is written and in what is read.
pub proof fn prefix_is_big_endian(n: nat, bytes: Seq<u8>)
    requires
        n <= u32::MAX,
        bytes.len() >= 4,
    ensures
        be_bytes(n).len() == 4,
        be_bytes(n)[0] * 0x100_0000 + be_bytes(n)[1] * 0x1_0000 + be_bytes(n)[2] * 0x100
            + be_bytes(n)[3] == n,
        be_value(bytes) == bytes[0] * 0x100_0000 + bytes[1] * 0x1_0000 + bytes[2] * 0x100
            + bytes[3],
{
    be_round_trip(n);
}

/// A frame on the wire is four bytes that add up, big-endian, to the length of the
/// payload, and then the payload; a stream of frames is one after the other.
pub proof fn what_a_frame_is(data: Seq<u8>, frames: Seq<Seq<u8>>)
    requires
        data.len() <= u32::MAX,
    ensures
        frame(data).len() == 4 + data.len(),
        frame(data)[0] * 0x100_0000 + frame(data)[1] * 0x1_0000 + frame(data)[2] * 0x100 + frame(
            data,
        )[3] == data.len(),
        frame(data).skip(4) == data,
        stream_of(seq![]) == Seq::<u8>::empty(),
        stream_of(frames.push(data)) == stream_of(frames) + frame(data),
{
    prefix_is_big_endian(data.len(), be_bytes(data.len()));
    assert(frame(data).skip(4) =~= data);
    assert(frames.push(data).drop_last() =~= frames);
}

/// A send begins with the whole frame to be written: four bytes that add up,
/// big-endian, to the length of the payload, and then the payload.
pub proof fn what_a_send_writes(data: Seq<u8>)
    requires
        data.len() <= u32::MAX,
    ensures
        ({
            let rest = Writing::start(data).rest;
            &&& rest.len() == 4 + data.len()
            &&& rest[0] * 0x100_0000 + rest[1] * 0x1_0000 + rest[2] * 0x100 + rest[3] == data.len()
            &&& rest.skip(4) == data
            &&& Writing::start(data).body == data.len()
        }),
{
    what_a_frame_is(data, seq![]);
}

/// A write is offered what comes next of the frame: the rest of the prefix, as
/// long as more than the payload is left, and then the rest of the payload. While
/// anything is left, something is offered.
pub proof fn what_a_write_is_offered(state: Writing)
    ensures
        state.rest.len() > state.body ==> state.offered() == state.rest.subrange(
            0,
            state.rest.len() - state.body,
        ),
        state.rest.len() <= state.body ==> state.offered() == state.rest,
        state.rest.len() > 0 ==> state.offered().len() > 0,
{
    if state.rest.len() > state.body {
        assert(state.offered() =~= state.rest.subrange(0, state.rest.len() - state.body));
    }
}

/// What a write comes to: the bytes that it took are off the frame, and the rest
/// is written next; with nothing left the send is finished. A write that took
/// nothing means that the peer is gone, and a failed one is reported with its text;
/// neither changes what is left.
pub proof fn what_a_write_comes_to(state: Writing, n: nat, text: Seq<char>)
    ensures
        state.step(Progress::Start).0 == state,
        state.rest.len() > 0 ==> state.step(Progress::Start).1 == Next::Write,
        state.rest.len() == 0 ==> state.step(Progress::Start).1 == Next::Finished,
        state.step(Progress::Wrote(0)) == (state, Next::Failed(Fault::Closed)),
        0 < n <= state.rest.len() ==> {
            let after = state.step(Progress::Wrote(n)).0;
            &&& state.rest == state.rest.subrange(0, n as int) + after.rest
            &&& after.body == state.body
            &&& after.rest.len() > 0 ==> state.step(Progress::Wrote(n)).1 == Next::Write
            &&& after.rest.len() == 0 ==> state.step(Progress::Wrote(n)).1 == Next::Finished
        },
        state.step(Progress::Failed(text)) == (state, Next::Failed(Fault::Io(text))),
{
    if 0 < n <= state.rest.len() {
        let after = state.step(Progress::Wrote(n)).0;
        assert(state.rest =~= state.rest.subrange(0, n as int) + after.rest);
    }
}

/// Which answers a write can bring: to begin is always possible; while bytes are
/// left, a write may take any part of what it is offered, or fail.
pub proof fn what_a_write_can_bring(state: Writing, n: nat, text: Seq<char>)
    ensures
        state.expects(Progress::Start),
        state.expects(Progress::Wrote(n)) <==> state.rest.len() > 0 && n
            <= state.offered().len(),
        state.expects(Progress::Failed(text)) <==> state.rest.len() > 0,
{
}

/// What a receive asks for: the read timeout where it is not installed, and else
/// exactly what is missing. Before the four bytes of the prefix are there, that is
/// the rest of them, and then the rest of the length that they announce. Nothing is
/// asked for after a prefix that announces more than 10 MiB.
pub proof fn what_a_receive_asks_for(state: Receiving)
    ensures
        state.step(Arrival::Start).0 == state,
        !state.timeout_installed ==> state.step(Arrival::Start).1 == Step::InstallTimeout,
        ({
            let had = state.pending;
            let announced = had[0] * 0x100_0000 + had[1] * 0x1_0000 + had[2] * 0x100 + had[3];
            let missing = if had.len() < 4 {
                4 - had.len()
            } else if announced > 10 * 1024 * 1024 {
                0
            } else {
                4 + announced - had.len()
            };
            missing >= 0 ==> {
                &&& state.timeout_installed ==> state.step(Arrival::Start).1 == Step::Read(
                    missing as nat,
                )
                &&& state.step(Arrival::TimeoutInstalled).1 == Step::Read(missing as nat)
            }
        }),
        state.step(Arrival::TimeoutInstalled).0 == (Receiving {
            pending: state.pending,
            timeout_installed: true,
        }),
{
}

/// What a chunk does: it is added to what has arrived. While the prefix or the
/// payload is not complete, the rest is read next; the complete payload is
/// returned and the next frame begins; a prefix that announces more than 10 MiB is
/// an error that names both numbers.
pub proof fn what_a_chunk_does(state: Receiving, chunk: Seq<u8>)
    requires
        chunk.len() > 0,
    ensures
        ({
            let has = state.pending + chunk;
            let announced = has[0] * 0x100_0000 + has[1] * 0x1_0000 + has[2] * 0x100 + has[3];
            let (after, step) = state.step(Arrival::Chunk(chunk));
            &&& after.timeout_installed == state.timeout_installed
            &&& has.len() < 4 ==> after.pending == has && step == Step::Read(
                (4 - has.len()) as nat,
            )
            &&& has.len() >= 4 && announced > 10 * 1024 * 1024 ==> after.pending == has && step
                == Step::Failed(
                Fault::Io(
                    "frame too large: "@ + decimal(announced as nat) + " bytes (max "@ + decimal(
                        10 * 1024 * 1024,
                    ) + ")"@,
                ),
            )
            &&& has.len() >= 4 && announced <= 10 * 1024 * 1024 && has.len() < 4 + announced
                ==> after.pending == has && step == Step::Read(
                (4 + announced - has.len()) as nat,
            )
            &&& has.len() == 4 + announced && announced <= 10 * 1024 * 1024
                ==> after.pending.len() == 0 && step == Step::Frame(
                has.subrange(4, has.len() as int),
            )
        }),
{
    let has = state.pending + chunk;
    assert(has.len() >= 4 ==> has.skip(4) =~= has.subrange(4, has.len() as int));
}

/// How a receive ends without a chunk: an empty read means that the peer is gone;
/// a read that failed with a text that holds `would block` means that there is
/// nothing yet; any other failure is reported with its text. What has arrived is
/// kept.
pub proof fn how_a_receive_ends_without_bytes(state: Receiving, text: Seq<char>)
    ensures
        state.step(Arrival::Chunk(seq![])) == (state, Step::Failed(Fault::Closed)),
        (exists|before: Seq<char>, after: Seq<char>|
            text == #[trigger] (before + "would block"@ + after)) ==> state.step(
            Arrival::ReadFailed(text),
        ) == (state, Step::Idle),
        !(exists|before: Seq<char>, after: Seq<char>|
            text == #[trigger] (before + "would block"@ + after)) ==> state.step(
            Arrival::ReadFailed(text),
        ) == (state, Step::Failed(Fault::Io(text))),
        state.step(Arrival::TimeoutFailed(text)) == (
            state,
            Step::Failed(Fault::Io("set_read_timeout: "@ + text)),
        ),
        says_would_block(text) <==> exists|before: Seq<char>, after: Seq<char>|
            text == #[trigger] (before + "would block"@ + after),
{
    crate::text::occurrence_splits_the_text("would block"@, text);
}

/// Which answers a receive can bring: to begin is always possible; the timeout is
/// installed, or fails to be, only where it is not; and reads come after it, with
/// no more bytes than are missing.
pub proof fn what_a_receive_can_bring(state: Receiving, chunk: Seq<u8>, text: Seq<char>)
    ensures
        state.expects(Arrival::Start),
        state.expects(Arrival::TimeoutInstalled) <==> !state.timeout_installed,
        state.expects(Arrival::TimeoutFailed(text)) <==> !state.timeout_installed,
        state.expects(Arrival::ReadFailed(text)) <==> state.timeout_installed,
        state.expects(Arrival::Chunk(chunk)) <==> state.timeout_installed && (
        state.step(Arrival::Start).1 matches Step::Read(asked) && chunk.len() <= asked),
{
}

/// The cap of a frame is 10 MiB and the read timeout 50 milliseconds.
pub proof fn limits_of_a_receive()
    ensures
        MAX_FRAME_BYTES == 10 * 1024 * 1024,
        POLL_TIMEOUT_MS == 50,
{
}

/// Events, steps and errors are known by their kind, their bytes and their texts.
pub proof fn frame_events_keep_their_values(
    event: RecvEvent,
    step: RecvStep,
    error: FramedError,
    bytes: Vec<u8>,
    text: String,
    n: u32,
)
    ensures
        error == FramedError::Closed ==> error@ == Fault::Closed,
        error == FramedError::Io(text) ==> error@ == Fault::Io(text@),
        event == RecvEvent::Start ==> event@ == Arrival::Start,
        event == RecvEvent::TimeoutInstalled ==> event@ == Arrival::TimeoutInstalled,
        event == RecvEvent::TimeoutFailed(text) ==> event@ == Arrival::TimeoutFailed(text@),
        event == RecvEvent::Chunk(bytes) ==> event@ == Arrival::Chunk(bytes@),
        event == RecvEvent::ReadFailed(text) ==> event@ == Arrival::ReadFailed(text@),
        step == RecvStep::InstallTimeout ==> step@ == Step::InstallTimeout,
        step == RecvStep::Read(n) ==> step@ == Step::Read(n as nat),
        step == RecvStep::Done(Ok(Some(bytes))) ==> step@ == Step::Frame(bytes@),
        step == RecvStep::Done(Ok(None)) ==> step@ == Step::Idle,
        step == RecvStep::Done(Err(error)) ==> step@ == Step::Failed(error@),
{
}

/// Events and steps of a write are known by their kind, their count and their text.
pub proof fn write_events_keep_their_values(
    event: WriteEvent,
    step: WriteStep,
    error: FramedError,
    text: String,
    n: u32,
)
    ensures
        event == WriteEvent::Start ==> event@ == Progress::Start,
        event == WriteEvent::Wrote(n) ==> event@ == Progress::Wrote(n as nat),
        event == WriteEvent::Failed(text) ==> event@ == Progress::Failed(text@),
        step == WriteStep::Write ==> step@ == Next::Write,
        step == WriteStep::Done(Ok(())) ==> step@ == Next::Finished,
        step == WriteStep::Done(Err(error)) ==> step@ == Next::Failed(error@),
{
}

} // verus!
