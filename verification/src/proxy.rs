//! The bridge's proxy: lines from the host to the daemon, across reconnects.

use crate::json::{json_text, response_line, JsonView, ObjectBuilder};
use crate::tenacity::{TenaciousOutcome, CONNECT_BACKOFF_FLOOR};
use vstd::prelude::*;
use vstd::utf8::{encode_utf8, valid_utf8};

verus! {

/// The line break.
pub const NEWLINE: u8 = 10;

/// The connection to the daemon, as the two directions of the proxy share it.
#[derive(Clone, Copy)]
pub struct SocketSlot {
    /// There is a socket to write to.
    pub writer: bool,
    /// How often the connection was replaced.
    pub generation: u64,
    /// The proxy is over.
    pub done: bool,
    /// The daemon is not known to be lost.
    pub healthy: bool,
}

/// What the writing direction does with its line.
#[derive(Clone, Copy, Debug, PartialEq, Eq, Structural)]
pub enum WriterTurn {
    /// End.
    Stop,
    /// Wait for the connection to change.
    Wait,
    /// Write to the socket of this generation.
    Write(u64),
}

/// What the writing direction does after a write that failed.
#[derive(Clone, Copy, Debug, PartialEq, Eq, Structural)]
pub enum RetryTurn {
    /// End.
    Stop,
    /// Wait for the connection to change.
    Wait,
    /// Write the same line again.
    Retry,
}

/// What the reading direction does.
#[derive(Clone, Copy, Debug, PartialEq, Eq, Structural)]
pub enum ReaderTurn {
    /// End without an error.
    Stop,
    /// Reconnect.
    Reconnect,
    /// Read on from the new socket.
    Resume,
}

impl SocketSlot {
    /// What the writing direction does.
    pub open spec fn turn(self) -> WriterTurn {
        if self.done {
            WriterTurn::Stop
        } else if !self.healthy || !self.writer {
            WriterTurn::Wait
        } else {
            WriterTurn::Write(self.generation)
        }
    }

    /// What the writing direction does after its write to the socket of
    /// `failed` failed.
    pub open spec fn turn_after(self, failed: u64) -> RetryTurn {
        if self.done {
            RetryTurn::Stop
        } else if self.generation <= failed {
            RetryTurn::Wait
        } else {
            RetryTurn::Retry
        }
    }

    /// After the proxy ended.
    pub open spec fn ended(self) -> SocketSlot {
        SocketSlot { done: true, writer: false, ..self }
    }

    /// After the daemon was lost.
    pub open spec fn lost(self) -> SocketSlot {
        if self.done {
            self
        } else {
            SocketSlot { healthy: false, ..self }
        }
    }

    /// After a new connection was made.
    pub open spec fn replaced(self) -> SocketSlot {
        if self.done {
            self
        } else {
            SocketSlot {
                writer: true,
                generation: (self.generation + 1) as u64,
                healthy: true,
                ..self
            }
        }
    }

    /// A fresh connection.
    pub fn new() -> (r: SocketSlot)
        ensures
            r == (SocketSlot { writer: true, generation: 0, done: false, healthy: true }),
    {
        SocketSlot { writer: true, generation: 0, done: false, healthy: true }
    }

    /// What the writing direction does with its line.
    pub fn writer_turn(&self) -> (r: WriterTurn)
        ensures
            r == self.turn(),
    {
        if self.done {
            WriterTurn::Stop
        } else if !self.healthy || !self.writer {
            WriterTurn::Wait
        } else {
            WriterTurn::Write(self.generation)
        }
    }

    /// What the writing direction does after a write that failed.
    pub fn write_failed(&self, failed: u64) -> (r: RetryTurn)
        ensures
            r == self.turn_after(failed),
    {
        if self.done {
            RetryTurn::Stop
        } else if self.generation <= failed {
            RetryTurn::Wait
        } else {
            RetryTurn::Retry
        }
    }

    /// The host closed its side: the proxy is over. Returns whether there is a
    /// socket whose writing side is to be shut down.
    pub fn stdin_closed(&mut self) -> (r: bool)
        ensures
            *final(self) == old(self).ended(),
            r == old(self).writer,
    {
        let taken = self.writer;
        self.done = true;
        self.writer = false;
        taken
    }

    /// The proxy is over: the marker says to quit, or the host is gone.
    pub fn quit(&mut self)
        ensures
            *final(self) == old(self).ended(),
    {
        self.done = true;
        self.writer = false;
    }

    /// The daemon is gone: an end of file and a failed read alike.
    pub fn daemon_lost(&mut self) -> (r: ReaderTurn)
        ensures
            *final(self) == old(self).lost(),
            r == if old(self).done {
                ReaderTurn::Stop
            } else {
                ReaderTurn::Reconnect
            },
    {
        if self.done {
            return ReaderTurn::Stop;
        }
        self.healthy = false;
        ReaderTurn::Reconnect
    }

    /// A new connection was made.
    pub fn reconnected(&mut self) -> (r: ReaderTurn)
        requires
            !old(self).done ==> old(self).generation < u64::MAX,
        ensures
            *final(self) == old(self).replaced(),
            r == if old(self).done {
                ReaderTurn::Stop
            } else {
                ReaderTurn::Resume
            },
    {
        if self.done {
            return ReaderTurn::Stop;
        }
        self.writer = true;
        self.generation = self.generation + 1;
        self.healthy = true;
        ReaderTurn::Resume
    }
}

/// Nothing is written while the daemon is known to be lost or the proxy is over.
pub proof fn law_no_write_into_a_lost_daemon(s: SocketSlot)
    ensures
        s.turn() is Write ==> s.healthy && s.writer && !s.done,
        !s.done ==> s.lost().turn() is Wait,
        !s.done ==> s.lost().lost() == s.lost(),
{
}

/// A line whose write failed is written again exactly when the connection has
/// been replaced since.
pub proof fn law_failed_lines_are_retried(s: SocketSlot, failed: u64)
    requires
        s.turn() == WriterTurn::Write(failed),
        failed < u64::MAX,
    ensures
        s.turn_after(failed) is Wait,
        s.lost().turn_after(failed) is Wait,
        s.lost().replaced().turn_after(failed) is Retry,
        s.lost().replaced().turn() == WriterTurn::Write((failed + 1) as u64),
{
}

/// An end is final: nothing that happens later revives the proxy.
pub proof fn law_the_end_is_final(s: SocketSlot, failed: u64)
    requires
        s.done,
    ensures
        s.turn() is Stop,
        s.turn_after(failed) is Stop,
        s.lost() == s,
        s.replaced() == s,
        s.ended().done,
{
}

/// What a reconnect comes to.
#[derive(Clone, Copy, Debug, PartialEq, Eq, Structural)]
pub enum ReconnectStep {
    /// The connection is there, and the daemon has seen the first exchange again.
    Reconnected,
    /// The host closed its side.
    StdinClosed,
    /// The marker says to quit.
    QuitRequested,
    /// The daemon died in the exchange: sleep, then try again.
    Again(u64),
}

/// One round of a reconnect: how the wait for a daemon ended, and whether the
/// first exchange could be replayed on the connection.
pub fn reconnect_daemon<T>(outcome: &TenaciousOutcome<T>, replayed: bool) -> (r: ReconnectStep)
    ensures
        r == match outcome {
            TenaciousOutcome::Connected(_) => if replayed {
                ReconnectStep::Reconnected
            } else {
                ReconnectStep::Again(CONNECT_BACKOFF_FLOOR)
            },
            TenaciousOutcome::StdinClosed => ReconnectStep::StdinClosed,
            TenaciousOutcome::QuitRequested => ReconnectStep::QuitRequested,
        },
{
    match outcome {
        TenaciousOutcome::Connected(_) => if replayed {
            ReconnectStep::Reconnected
        } else {
            ReconnectStep::Again(CONNECT_BACKOFF_FLOOR)
        },
        TenaciousOutcome::StdinClosed => ReconnectStep::StdinClosed,
        TenaciousOutcome::QuitRequested => ReconnectStep::QuitRequested,
    }
}

/// Where the direction from the host to the daemon stands.
#[derive(Clone, Copy, Debug, PartialEq, Eq, Structural)]
pub enum HostPhase {
    /// A line is being read.
    Reading,
    /// A line waits to be written.
    Holding,
    /// A line is being written to the socket of this generation.
    Writing(u64),
    /// The write of a line to the socket of this generation failed.
    Failed(u64),
    /// The direction has ended.
    Over,
}

/// What the direction from the host to the daemon hears.
#[derive(Clone, Copy, Debug, PartialEq, Eq, Structural)]
pub enum HostEvent {
    /// A line was read.
    Line,
    /// The host closed its side, or reading from it failed.
    Closed,
    /// The connection may have changed, or its socket could not be had.
    Changed,
    /// The line was written.
    Written,
    /// The write failed.
    WriteFailed,
}

/// What the direction from the host to the daemon does.
#[derive(Clone, Copy, Debug, PartialEq, Eq, Structural)]
pub enum HostAction {
    /// Read a line.
    ReadLine,
    /// Wait until the connection changes.
    Wait,
    /// Write the line to the socket of this generation.
    Write(u64),
    /// End; shut down the socket's writing side where there is a socket.
    Hangup { socket: bool },
    /// End.
    Stop,
}

impl HostPhase {
    /// The event is one that the direction is waiting for.
    pub open spec fn expects(self, event: HostEvent) -> bool {
        match self {
            HostPhase::Reading => event is Line || event is Closed,
            HostPhase::Holding => event is Changed,
            HostPhase::Writing(_) => event is Written || event is WriteFailed || event is Changed,
            HostPhase::Failed(_) => event is Changed,
            HostPhase::Over => false,
        }
    }

    /// A line is at hand.
    pub open spec fn holds_line(self) -> bool {
        self is Holding || self is Writing || self is Failed
    }
}

/// What becomes of a line that waits to be written.
pub open spec fn offer_line(s: SocketSlot) -> (HostPhase, HostAction) {
    match s.turn() {
        WriterTurn::Stop => (HostPhase::Over, HostAction::Stop),
        WriterTurn::Wait => (HostPhase::Holding, HostAction::Wait),
        WriterTurn::Write(g) => (HostPhase::Writing(g), HostAction::Write(g)),
    }
}

/// What becomes of a line whose write to the socket of `failed` failed.
pub open spec fn offer_again(s: SocketSlot, failed: u64) -> (HostPhase, HostAction) {
    match s.turn_after(failed) {
        RetryTurn::Stop => (HostPhase::Over, HostAction::Stop),
        RetryTurn::Wait => (HostPhase::Failed(failed), HostAction::Wait),
        RetryTurn::Retry => offer_line(s),
    }
}

/// The direction from the host to the daemon after an event.
pub open spec fn host_next(phase: HostPhase, s: SocketSlot, event: HostEvent) -> (
    HostPhase,
    HostAction,
) {
    match (phase, event) {
        (HostPhase::Reading, HostEvent::Closed) => (
            HostPhase::Over,
            HostAction::Hangup { socket: s.writer },
        ),
        (HostPhase::Writing(_), HostEvent::Written) => (HostPhase::Reading, HostAction::ReadLine),
        (HostPhase::Writing(g), HostEvent::WriteFailed) => offer_again(s, g),
        (HostPhase::Failed(g), _) => offer_again(s, g),
        _ => offer_line(s),
    }
}

fn next_offer(slot: &SocketSlot) -> (r: (HostPhase, HostAction))
    ensures
        r == offer_line(*slot),
{
    match slot.writer_turn() {
        WriterTurn::Stop => (HostPhase::Over, HostAction::Stop),
        WriterTurn::Wait => (HostPhase::Holding, HostAction::Wait),
        WriterTurn::Write(g) => (HostPhase::Writing(g), HostAction::Write(g)),
    }
}

fn next_retry(slot: &SocketSlot, failed: u64) -> (r: (HostPhase, HostAction))
    ensures
        r == offer_again(*slot, failed),
{
    match slot.write_failed(failed) {
        RetryTurn::Stop => (HostPhase::Over, HostAction::Stop),
        RetryTurn::Wait => (HostPhase::Failed(failed), HostAction::Wait),
        RetryTurn::Retry => next_offer(slot),
    }
}

/// One step of the direction from the host to the daemon. A line is kept until
/// it is written, across as many connections as it takes.
pub fn host_step(phase: &mut HostPhase, slot: &mut SocketSlot, event: HostEvent) -> (r: HostAction)
    requires
        old(phase).expects(event),
    ensures
        (*final(phase), r) == host_next(*old(phase), *old(slot), event),
        *final(slot) == if event is Closed {
            old(slot).ended()
        } else {
            *old(slot)
        },
{
    let (next, action) = match (*phase, event) {
        (HostPhase::Reading, HostEvent::Closed) => {
            let socket = slot.stdin_closed();
            (HostPhase::Over, HostAction::Hangup { socket })
        },
        (HostPhase::Writing(_), HostEvent::Written) => (HostPhase::Reading, HostAction::ReadLine),
        (HostPhase::Writing(g), HostEvent::WriteFailed) => next_retry(slot, g),
        (HostPhase::Failed(g), _) => next_retry(slot, g),
        _ => next_offer(slot),
    };
    *phase = next;
    action
}

/// No line is dropped by a reconnect: the next line is read only once this one
/// was written, and this one is given up only where the proxy is over.
pub proof fn law_lines_survive_reconnects(phase: HostPhase, s: SocketSlot, event: HostEvent)
    requires
        phase.expects(event),
        phase.holds_line(),
    ensures
        host_next(phase, s, event).1 is ReadLine <==> event is Written,
        !(event is Written) && !s.done ==> host_next(phase, s, event).0.holds_line(),
        host_next(phase, s, event).0 is Over ==> s.done,
        host_next(phase, s, event).1 is Write ==> s.healthy && s.writer && !s.done,
{
}

/// Where the direction from the daemon to the host stands.
#[derive(Clone, Copy, Debug, PartialEq, Eq, Structural)]
pub enum DaemonPhase {
    /// The daemon's bytes are being read.
    Reading,
    /// The bytes are being passed on.
    Forwarding,
    /// The connection is being made anew.
    Reconnecting,
    /// The direction has ended.
    Over,
}

/// What the direction from the daemon to the host hears.
#[derive(Clone, Copy, Debug, PartialEq, Eq, Structural)]
pub enum DaemonEvent {
    /// Bytes were read.
    Bytes,
    /// The end of the stream was read, or reading failed.
    Lost,
    /// The bytes were passed on.
    Forwarded,
    /// They could not be passed on.
    ForwardFailed,
    /// A new connection stands.
    Reconnected,
    /// A new connection stands, but it cannot be written to.
    Unusable,
    /// The host closed its side meanwhile.
    StdinClosed,
    /// The marker said to quit.
    QuitRequested,
}

/// What the direction from the daemon to the host does.
#[derive(Clone, Copy, Debug, PartialEq, Eq, Structural)]
pub enum DaemonAction {
    /// Read from the daemon.
    Read,
    /// Pass the bytes on to the host.
    Forward,
    /// Make the connection anew.
    Reconnect,
    /// Read from the new socket.
    Resume,
    /// End the session.
    Finish,
    /// End the session with the error.
    Fail,
}

impl DaemonPhase {
    /// The event is one that the direction is waiting for.
    pub open spec fn expects(self, event: DaemonEvent) -> bool {
        match self {
            DaemonPhase::Reading => event is Bytes || event is Lost,
            DaemonPhase::Forwarding => event is Forwarded || event is ForwardFailed,
            DaemonPhase::Reconnecting => event is Reconnected || event is Unusable
                || event is StdinClosed || event is QuitRequested,
            DaemonPhase::Over => false,
        }
    }
}

/// The direction from the daemon to the host after an event, and the connection.
pub open spec fn daemon_next(s: SocketSlot, event: DaemonEvent) -> (
    DaemonPhase,
    SocketSlot,
    DaemonAction,
) {
    match event {
        DaemonEvent::Bytes => (DaemonPhase::Forwarding, s, DaemonAction::Forward),
        DaemonEvent::Forwarded => (DaemonPhase::Reading, s, DaemonAction::Read),
        DaemonEvent::ForwardFailed => (DaemonPhase::Over, s.ended(), DaemonAction::Finish),
        DaemonEvent::Lost => if s.done {
            (DaemonPhase::Over, s, DaemonAction::Finish)
        } else {
            (DaemonPhase::Reconnecting, s.lost(), DaemonAction::Reconnect)
        },
        DaemonEvent::Reconnected => if s.done {
            (DaemonPhase::Over, s, DaemonAction::Finish)
        } else {
            (DaemonPhase::Reading, s.replaced(), DaemonAction::Resume)
        },
        DaemonEvent::Unusable => (DaemonPhase::Over, s, DaemonAction::Fail),
        DaemonEvent::StdinClosed => (DaemonPhase::Over, s.ended(), DaemonAction::Finish),
        DaemonEvent::QuitRequested => (DaemonPhase::Over, s.ended(), DaemonAction::Finish),
    }
}

/// The proxy fails over a connection that cannot be used and over nothing else: a
/// host that went, at either end, ends it in good order, and nothing is written or
/// made anew after that.
pub proof fn law_only_an_unusable_connection_fails(s: SocketSlot, event: DaemonEvent)
    ensures
        daemon_next(s, event).2 is Fail <==> event is Unusable,
        event is ForwardFailed || event is StdinClosed || event is QuitRequested ==> {
            let (phase, after, action) = daemon_next(s, event);
            &&& phase is Over
            &&& action is Finish
            &&& after.done
            &&& after.turn() is Stop
        },
        s.done ==> daemon_next(s, DaemonEvent::Lost) == (DaemonPhase::Over, s, DaemonAction::Finish),
{
}

/// One step of the direction from the daemon to the host.
pub fn proxy_with_reconnect(phase: &mut DaemonPhase, slot: &mut SocketSlot, event: DaemonEvent) -> (r:
    DaemonAction)
    requires
        old(phase).expects(event),
        event is Reconnected && !old(slot).done ==> old(slot).generation < u64::MAX,
    ensures
        (*final(phase), *final(slot), r) == daemon_next(*old(slot), event),
{
    match event {
        DaemonEvent::Bytes => {
            *phase = DaemonPhase::Forwarding;
            DaemonAction::Forward
        },
        DaemonEvent::Forwarded => {
            *phase = DaemonPhase::Reading;
            DaemonAction::Read
        },
        DaemonEvent::Lost => match slot.daemon_lost() {
            ReaderTurn::Reconnect => {
                *phase = DaemonPhase::Reconnecting;
                DaemonAction::Reconnect
            },
            _ => {
                *phase = DaemonPhase::Over;
                DaemonAction::Finish
            },
        },
        DaemonEvent::Reconnected => match slot.reconnected() {
            ReaderTurn::Resume => {
                *phase = DaemonPhase::Reading;
                DaemonAction::Resume
            },
            _ => {
                *phase = DaemonPhase::Over;
                DaemonAction::Finish
            },
        },
        DaemonEvent::ForwardFailed => {
            slot.quit();
            *phase = DaemonPhase::Over;
            DaemonAction::Finish
        },
        DaemonEvent::Unusable => {
            *phase = DaemonPhase::Over;
            DaemonAction::Fail
        },
        DaemonEvent::StdinClosed => {
            slot.quit();
            *phase = DaemonPhase::Over;
            DaemonAction::Finish
        },
        DaemonEvent::QuitRequested => {
            slot.quit();
            *phase = DaemonPhase::Over;
            DaemonAction::Finish
        },
    }
}

/// A lost daemon is no end: as long as the host is there and nothing said to
/// quit, the daemon is waited for, and while it is lost nothing is written to it.
pub proof fn law_a_lost_daemon_is_waited_for(s: SocketSlot)
    requires
        !s.done,
        s.generation < u64::MAX,
    ensures
        ({
            let (phase, lost, action) = daemon_next(s, DaemonEvent::Lost);
            let (again, back, resumed) = daemon_next(lost, DaemonEvent::Reconnected);
            &&& action is Reconnect && phase is Reconnecting
            &&& lost.turn() is Wait
            &&& resumed is Resume && again is Reading
            &&& back.turn() == WriterTurn::Write((s.generation + 1) as u64)
        }),
{
}

/// The lines of a byte stream, each with its line break, and what is left behind
/// the last one.
pub open spec fn split_lines(input: Seq<u8>) -> (Seq<Seq<u8>>, Seq<u8>)
    decreases input.len(),
{
    if input.len() == 0 {
        (Seq::empty(), Seq::empty())
    } else {
        let (lines, rest) = split_lines(input.drop_last());
        let next = rest.push(input.last());
        if input.last() == NEWLINE {
            (lines.push(next), Seq::empty())
        } else {
            (lines, next)
        }
    }
}

/// The lines one after the other.
pub open spec fn all_bytes(lines: Seq<Seq<u8>>) -> Seq<u8>
    decreases lines.len(),
{
    if lines.len() == 0 {
        Seq::empty()
    } else {
        all_bytes(lines.drop_last()) + lines.last()
    }
}

/// Cutting a stream into lines loses no byte and adds none.
pub proof fn law_lines_keep_every_byte(input: Seq<u8>)
    ensures
        all_bytes(split_lines(input).0) + split_lines(input).1 == input,
        !split_lines(input).1.contains(NEWLINE),
    decreases input.len(),
{
    if input.len() > 0 {
        law_lines_keep_every_byte(input.drop_last());
        let (lines, rest) = split_lines(input.drop_last());
        let next = rest.push(input.last());
        assert(input =~= input.drop_last().push(input.last()));
        if input.last() == NEWLINE {
            assert(lines.push(next).drop_last() =~= lines);
            assert(all_bytes(lines.push(next)) + Seq::<u8>::empty() =~= (all_bytes(lines)
                + rest).push(input.last()));
        } else {
            assert(all_bytes(lines) + next =~= (all_bytes(lines) + rest).push(input.last()));
            assert forall|i: int| 0 <= i < next.len() implies next[i] != NEWLINE by {
                if i < rest.len() {
                    assert(rest.contains(rest[i]));
                }
            }
        }
    }
}

/// Collects the bytes of a line.
pub struct LineReader {
    bytes: Vec<u8>,
}

impl View for LineReader {
    type V = Seq<u8>;

    closed spec fn view(&self) -> Seq<u8> {
        self.bytes@
    }
}

impl LineReader {
    /// Nothing has been read.
    pub fn new() -> (r: LineReader)
        ensures
            r@ == Seq::<u8>::empty(),
    {
        LineReader { bytes: Vec::new() }
    }

    /// Takes one byte; returns the line that it completes.
    pub fn push(&mut self, byte: u8) -> (r: Option<Vec<u8>>)
        ensures
            if byte == NEWLINE {
                r matches Some(line) && line@ == old(self)@.push(byte) && final(self)@ == Seq::<
                    u8,
                >::empty()
            } else {
                r is None && final(self)@ == old(self)@.push(byte)
            },
    {
        self.bytes.push(byte);
        if byte != NEWLINE {
            return None;
        }
        let mut line: Vec<u8> = Vec::new();
        line.append(&mut self.bytes);
        Some(line)
    }
}

/// One more byte of a stream: what [`LineReader::push`] returns and keeps is what
/// cutting the longer stream into lines gives.
pub proof fn law_pushing_bytes_cuts_lines(input: Seq<u8>, byte: u8)
    ensures
        split_lines(input.push(byte)) == if byte == NEWLINE {
            (
                split_lines(input).0.push(split_lines(input).1.push(byte)),
                Seq::<u8>::empty(),
            )
        } else {
            (split_lines(input).0, split_lines(input).1.push(byte))
        },
{
    assert(input.push(byte).drop_last() =~= input);
}

/// `String::from_utf8`: the text with these bytes, or nothing where they are not
/// valid UTF-8.
#[verifier::external_body]
fn string_from_utf8(bytes: Vec<u8>) -> (r: Option<String>)
    ensures
        match r {
            Some(s) => encode_utf8(s@) == bytes@,
            None => !valid_utf8(bytes@),
        },
{
    String::from_utf8(bytes).ok()
}

/// A line that is not valid UTF-8.
#[derive(Debug)]
pub struct NotUtf8;

/// The text of a line.
pub fn read_json_line(line: Vec<u8>) -> (r: Result<String, NotUtf8>)
    ensures
        match r {
            Ok(s) => encode_utf8(s@) == line@,
            Err(_) => !valid_utf8(line@),
        },
{
    match string_from_utf8(line) {
        Some(s) => Ok(s),
        None => Err(NotUtf8),
    }
}

/// The notification in which a bridge tells the daemon its version.
pub fn bridge_hello_line(method: &str, version: &str) -> (r: String)
    ensures
        r@ == json_text(
            JsonView::Object(
                map![
                    "jsonrpc"@ => JsonView::Text("2.0"@),
                    "method"@ => JsonView::Text(method@),
                    "params"@ => JsonView::Object(
                        map!["bridgeVersion"@ => JsonView::Text(version@)],
                    ),
                ],
            ),
        ) + "\n"@,
{
    let params = ObjectBuilder::new().text("bridgeVersion", version).finish();
    let hello = ObjectBuilder::new().text("jsonrpc", "2.0").text("method", method).put(
        "params",
        params,
    ).finish();
    response_line(&hello)
}

} // verus!
