//! The bridge: waiting for a number to dial, keeping the modem's clock going
//! while a call is set up, and the course of a session.

use crate::dial_string::{
    after_prefix, all_dialable, law_prefix_taken_off, DialError, DialString,
};
use crate::net::SocketAddr;
use crate::numeral::{decimal, decimal_string};
use crate::responses::lemma_blank_trimmed;
use crate::sip::{Call, CallState};
use crate::text::{
    begins_with, blank, chars_of, from_utf8_lossy, starts_with, string_of, trim, trimmed, utf8_lossy,
};
use vstd::prelude::*;
use vstd::slice::slice_subrange;
use vstd::utf8::encode_utf8;

verus! {

broadcast use vstd::string::group_string_axioms;

/// The longest line that is taken from the modem, in bytes. A longer one is
/// garbled and discarded.
pub const LINE_BUF_LIMIT: usize = 256;

/// How many calls one bridge places.
pub const CALLS_LIMIT: u32 = 1000;

/// How long to wait for a number before saying that the bridge still waits, in
/// seconds.
pub const DIAL_WAIT_HEARTBEAT_SECS: u64 = 60;

/// The bytes of 20 ms of silence: 160 samples of two bytes at 8 kHz.
pub const SILENCE_FRAME_BYTES: usize = 320;

/// How often silence is written to an idle modem, in milliseconds.
pub const SILENCE_INTERVAL_MS: u64 = 20;

/// How many events the setup of a call may take.
pub const DRAIN_ITERATIONS_LIMIT: u32 = 500;

/// How many bytes are read from the modem at once during the setup of a call.
pub const DRAIN_READ_SIZE: usize = 2048;

/// The synchronization source of the bridge's RTP stream: `SLMD` in ASCII.
pub const RTP_SSRC: u32 = 0x534C4D44;

/// The byte that tells the modem that the bridge is ready: `R` in ASCII.
pub const READY_BYTE: u8 = 82;

/// How often to look for the answer to a call with early media, in milliseconds.
pub const ANSWER_POLL_INTERVAL_MS: u64 = 50;

// --- Waiting for a number to dial ---

/// The byte that ends a line.
pub const LINE_FEED: u8 = 10;

/// The number that a line of text asks to dial.
pub open spec fn dial_request(text: Seq<char>) -> Option<Seq<char>> {
    let number = trimmed(text.skip(5));
    if begins_with(text, "DIAL:"@) && number.len() > 0 {
        Some(number)
    } else {
        None
    }
}

/// Reads the number that a line of text asks to dial.
pub fn read_dial_request(text: &str) -> (r: Option<String>)
    ensures
        match r {
            Some(number) => dial_request(text@) == Some(number@),
            None => dial_request(text@) is None,
        },
{
    proof {
        reveal_strlit("DIAL:");
    }
    let chars = chars_of(text);
    if !starts_with(chars.as_slice(), chars_of("DIAL:").as_slice()) {
        return None;
    }
    let number = trim(slice_subrange(chars.as_slice(), 5, chars.len()));
    if number.len() == 0 {
        None
    } else {
        Some(string_of(number))
    }
}

/// The line that the modem has not finished yet: its bytes so far, or that it has
/// grown too long, in which case no byte of it is kept.
pub struct LineModel {
    pub bytes: Seq<u8>,
    pub garbled: bool,
}

impl LineModel {
    /// A line of which nothing has been read.
    pub open spec fn fresh() -> LineModel {
        LineModel { bytes: Seq::empty(), garbled: false }
    }

    /// Whether no more bytes are kept than a line may have, and none of a line
    /// that is too long.
    pub open spec fn well_formed(self) -> bool {
        self.bytes.len() <= LINE_BUF_LIMIT && (self.garbled ==> self.bytes.len() == 0)
    }

    /// The line with one more byte. A line that grows too long is discarded.
    pub open spec fn extended(self, b: u8) -> LineModel {
        if self.garbled || self.bytes.len() >= LINE_BUF_LIMIT {
            LineModel { bytes: Seq::empty(), garbled: true }
        } else {
            LineModel { bytes: self.bytes.push(b), garbled: false }
        }
    }

    /// The number that the line asks to dial when it ends. A line that is too
    /// long asks for none.
    pub open spec fn number(self) -> Option<Seq<char>> {
        if self.garbled {
            None
        } else {
            dial_request(utf8_lossy(self.bytes))
        }
    }
}

/// What the bytes read after the unfinished line `line` make of it, and the
/// first number that they ask to dial. Bytes after such a number are dropped.
pub open spec fn scan(line: LineModel, bytes: Seq<u8>) -> (LineModel, Option<Seq<char>>)
    decreases bytes.len(),
{
    if bytes.len() == 0 {
        (line, None)
    } else if bytes[0] == LINE_FEED {
        match line.number() {
            Some(number) => (line, Some(number)),
            None => scan(LineModel::fresh(), bytes.skip(1)),
        }
    } else {
        scan(line.extended(bytes[0]), bytes.skip(1))
    }
}

/// What happens while the bridge waits for a number.
pub enum DialEvent<'a> {
    /// Bytes were read from the modem; none means that it closed the socket.
    Read(&'a [u8]),
    /// The modem could not be read.
    ReadFailed,
    /// It is time for a frame of silence.
    SilenceDue,
    /// Silence could not be written.
    SilenceFailed,
    /// It is time to say that the bridge still waits.
    HeartbeatDue,
}

/// What to do while the bridge waits for a number.
#[derive(Debug)]
pub enum DialAction {
    /// Wait on.
    Wait,
    /// Dial this number.
    Dial(String),
    /// The modem is gone.
    Closed,
    /// Write a frame of silence, and wait on.
    WriteSilence,
    /// Say that the bridge still waits, and wait on.
    Heartbeat,
}

/// What to do while the bridge waits for a number, with texts as sequences.
pub enum DialMove {
    Wait,
    Dial(Seq<char>),
    Closed,
    WriteSilence,
    Heartbeat,
}

impl View for DialAction {
    type V = DialMove;

    open spec fn view(&self) -> DialMove {
        match self {
            DialAction::Wait => DialMove::Wait,
            DialAction::Dial(number) => DialMove::Dial(number@),
            DialAction::Closed => DialMove::Closed,
            DialAction::WriteSilence => DialMove::WriteSilence,
            DialAction::Heartbeat => DialMove::Heartbeat,
        }
    }
}

/// What the bridge does with an event while it waits for a number, with the
/// unfinished line `line`.
pub open spec fn dial_step(line: LineModel, event: DialEvent) -> (LineModel, DialMove) {
    match event {
        DialEvent::Read(bytes) => if bytes@.len() == 0 {
            (line, DialMove::Closed)
        } else {
            match scan(line, bytes@) {
                (rest, Some(number)) => (rest, DialMove::Dial(number)),
                (rest, None) => (rest, DialMove::Wait),
            }
        },
        DialEvent::ReadFailed => (line, DialMove::Closed),
        DialEvent::SilenceDue => (line, DialMove::WriteSilence),
        DialEvent::SilenceFailed => (line, DialMove::Closed),
        DialEvent::HeartbeatDue => (line, DialMove::Heartbeat),
    }
}

/// The wait for a number to dial.
pub struct DialWait {
    /// The bytes of the line that the modem has not finished yet.
    pub line_buf: Vec<u8>,
    /// Whether that line has grown too long. Its bytes are then dropped up to its
    /// end.
    pub garbled: bool,
}

impl View for DialWait {
    type V = LineModel;

    open spec fn view(&self) -> LineModel {
        LineModel { bytes: self.line_buf@, garbled: self.garbled }
    }
}

impl DialWait {
    /// A wait that has read nothing yet.
    pub fn new() -> (r: DialWait)
        ensures
            r@ == LineModel::fresh(),
            r@.well_formed(),
    {
        let r = DialWait { line_buf: Vec::with_capacity(LINE_BUF_LIMIT), garbled: false };
        assert(r.line_buf@ =~= Seq::empty());
        r
    }

    /// Takes one more byte of the unfinished line.
    fn extend(&mut self, b: u8)
        requires
            old(self)@.well_formed(),
        ensures
            final(self)@ == old(self)@.extended(b),
            final(self)@.well_formed(),
    {
        if self.garbled || self.line_buf.len() >= LINE_BUF_LIMIT {
            self.line_buf.clear();
            self.garbled = true;
            assert(self.line_buf@ =~= Seq::empty());
        } else {
            self.line_buf.push(b);
        }
    }

    /// Takes bytes from the modem, up to the first number that they ask to dial.
    pub fn scan(&mut self, bytes: &[u8]) -> (r: Option<String>)
        requires
            old(self)@.well_formed(),
        ensures
            final(self)@ == scan(old(self)@, bytes@).0,
            final(self)@.well_formed(),
            match r {
                Some(number) => scan(old(self)@, bytes@).1 == Some(number@),
                None => scan(old(self)@, bytes@).1 is None,
            },
    {
        let ghost start = self@;
        assert(bytes@.skip(0) =~= bytes@);
        let mut i: usize = 0;
        while i < bytes.len()
            invariant
                i <= bytes@.len(),
                start == old(self)@,
                self@.well_formed(),
                scan(start, bytes@) == scan(self@, bytes@.skip(i as int)),
            decreases bytes@.len() - i,
        {
            let b: u8 = bytes[i];
            assert(bytes@.skip(i as int).skip(1) =~= bytes@.skip(i + 1));
            if b == LINE_FEED {
                if !self.garbled {
                    let text = from_utf8_lossy(self.line_buf.as_slice());
                    if let Some(number) = read_dial_request(text.as_str()) {
                        return Some(number);
                    }
                }
                self.line_buf.clear();
                self.garbled = false;
                assert(self.line_buf@ =~= Seq::empty());
            } else {
                self.extend(b);
            }
            i += 1;
        }
        None
    }

    /// Handles an event while the bridge waits for a number.
    pub fn on_event(&mut self, event: DialEvent) -> (action: DialAction)
        requires
            old(self)@.well_formed(),
        ensures
            (final(self)@, action@) == dial_step(old(self)@, event),
            final(self)@.well_formed(),
    {
        match event {
            DialEvent::Read(bytes) => {
                if bytes.len() == 0 {
                    return DialAction::Closed;
                }
                match self.scan(bytes) {
                    Some(number) => DialAction::Dial(number),
                    None => DialAction::Wait,
                }
            },
            DialEvent::ReadFailed => DialAction::Closed,
            DialEvent::SilenceDue => DialAction::WriteSilence,
            DialEvent::SilenceFailed => DialAction::Closed,
            DialEvent::HeartbeatDue => DialAction::Heartbeat,
        }
    }
}

// --- While a call is set up ---

/// The wait for a call to be set up, during which the modem's audio is read and
/// dropped, and silence is written to it.
pub struct Drain {
    pub drained_bytes: u64,
    pub iterations: u32,
}

/// What happens while a call is set up.
#[derive(Debug, Clone, Copy, PartialEq, Eq, Structural)]
pub enum DrainEvent {
    /// The setup has come to an end.
    SetupDone,
    /// So many bytes were read from the modem; none means that it closed the
    /// socket.
    Read(usize),
    /// The modem could not be read.
    ReadFailed,
    /// It is time for a frame of silence.
    SilenceDue,
    /// The frame of silence that was due could not be written.
    SilenceFailed,
}

/// What to do while a call is set up.
#[derive(Debug, Clone, Copy, PartialEq, Eq, Structural)]
pub enum DrainAction {
    /// Wait on.
    Wait,
    /// Go on with the outcome of the setup.
    Finish,
    /// Write a frame of silence, and wait on.
    WriteSilence,
    /// The setup is given up.
    Fail(DrainError),
}

/// Why the setup of a call was given up.
#[derive(Debug, Clone, Copy, PartialEq, Eq, Structural)]
pub enum DrainError {
    Closed,
    ReadFailed,
    SilenceFailed,
}

impl DrainError {
    /// The error in words. `detail` is what the socket reported.
    pub open spec fn text(self, detail: Seq<char>) -> Seq<char> {
        match self {
            DrainError::Closed => "slmodemd closed socket during SIP setup"@,
            DrainError::ReadFailed => "slmodemd read error during SIP setup: "@ + detail,
            DrainError::SilenceFailed => "failed to write silence during SIP setup: "@ + detail,
        }
    }

    /// The error in words. `detail` is what the socket reported.
    pub fn message(&self, detail: &str) -> (r: String)
        ensures
            r@ == self.text(detail@),
    {
        match self {
            DrainError::Closed => String::from_str("slmodemd closed socket during SIP setup"),
            DrainError::ReadFailed => {
                let mut r = String::from_str("slmodemd read error during SIP setup: ");
                r.append(detail);
                r
            },
            DrainError::SilenceFailed => {
                let mut r = String::from_str("failed to write silence during SIP setup: ");
                r.append(detail);
                r
            },
        }
    }
}

/// What an event makes of the wait for a call to be set up, and what to do then. A
/// failure to write the silence that was due belongs to the event before it and is
/// not counted.
pub open spec fn drain_step(drain: Drain, event: DrainEvent) -> (Drain, DrainAction) {
    let counted = Drain { iterations: (drain.iterations + 1) as u32, ..drain };
    match event {
        DrainEvent::SetupDone => (counted, DrainAction::Finish),
        DrainEvent::Read(n) => (
            Drain { drained_bytes: (drain.drained_bytes + n) as u64, ..counted },
            if n == 0 {
                DrainAction::Fail(DrainError::Closed)
            } else {
                DrainAction::Wait
            },
        ),
        DrainEvent::ReadFailed => (counted, DrainAction::Fail(DrainError::ReadFailed)),
        DrainEvent::SilenceDue => (counted, DrainAction::WriteSilence),
        DrainEvent::SilenceFailed => (drain, DrainAction::Fail(DrainError::SilenceFailed)),
    }
}

impl Drain {
    /// Whether the counters agree: no event brought more bytes than one read
    /// takes.
    pub open spec fn well_formed(self) -> bool {
        &&& self.iterations <= DRAIN_ITERATIONS_LIMIT
        &&& self.drained_bytes <= self.iterations * DRAIN_READ_SIZE
    }

    /// A wait at its beginning.
    pub fn new() -> (r: Drain)
        ensures
            r == (Drain { drained_bytes: 0, iterations: 0 }),
            r.well_formed(),
    {
        Drain { drained_bytes: 0, iterations: 0 }
    }

    /// Handles an event while a call is set up. A failure to write the silence
    /// that was due belongs to the event before it and is not counted.
    pub fn on_event(&mut self, event: DrainEvent) -> (action: DrainAction)
        requires
            old(self).well_formed(),
            event is SilenceFailed || old(self).iterations < DRAIN_ITERATIONS_LIMIT,
            match event {
                DrainEvent::Read(n) => n <= DRAIN_READ_SIZE,
                _ => true,
            },
        ensures
            final(self).well_formed(),
            final(self).iterations == old(self).iterations + (if event is SilenceFailed {
                0int
            } else {
                1
            }),
            final(self).drained_bytes == old(self).drained_bytes + (match event {
                DrainEvent::Read(n) => n as int,
                _ => 0,
            }),
            action == (match event {
                DrainEvent::SetupDone => DrainAction::Finish,
                DrainEvent::Read(0) => DrainAction::Fail(DrainError::Closed),
                DrainEvent::Read(_) => DrainAction::Wait,
                DrainEvent::ReadFailed => DrainAction::Fail(DrainError::ReadFailed),
                DrainEvent::SilenceDue => DrainAction::WriteSilence,
                DrainEvent::SilenceFailed => DrainAction::Fail(DrainError::SilenceFailed),
            }),
            (*final(self), action) == drain_step(*old(self), event),
    {
        let counted = match event {
            DrainEvent::SilenceFailed => false,
            _ => true,
        };
        if counted {
            self.iterations = self.iterations + 1;
        }
        match event {
            DrainEvent::SetupDone => DrainAction::Finish,
            DrainEvent::Read(n) => {
                if n == 0 {
                    return DrainAction::Fail(DrainError::Closed);
                }
                self.drained_bytes = self.drained_bytes + n as u64;
                DrainAction::Wait
            },
            DrainEvent::ReadFailed => DrainAction::Fail(DrainError::ReadFailed),
            DrainEvent::SilenceDue => DrainAction::WriteSilence,
            DrainEvent::SilenceFailed => DrainAction::Fail(DrainError::SilenceFailed),
        }
    }
}

// --- The course of a session ---

/// Where the bridge stands.
#[derive(Debug, Clone, Copy, PartialEq, Eq, Structural)]
pub enum Stage {
    /// It registers with the trunk. The modem is kept waiting.
    Registering,
    /// It waits for a number to dial.
    Waiting,
    /// It sets up a call.
    Originating,
    /// It relays media.
    MediaActive,
    /// It is done.
    Finished,
}

/// The bridge.
pub struct Bridge {
    pub stage: Stage,
    pub calls_count: u32,
}

/// What happens to the bridge.
pub enum BridgeEvent<'a> {
    /// The trunk has accepted the registration.
    Registered,
    /// The bridge could not register.
    RegistrationFailed,
    /// The modem closed its socket while the bridge waited.
    ModemClosed,
    /// The modem asks to dial this.
    Dialed(&'a str),
    /// The call could not be set up.
    SetupFailed,
    /// The call is set up: it is answered, or has early media.
    CallReady(&'a Call),
    /// The relay came to its end.
    RelayDone,
    /// The relay failed.
    RelayFailed,
}

/// What the bridge does.
#[derive(Debug)]
pub enum BridgeAction {
    /// Write the ready byte to the modem, and wait for a number to dial.
    SignalReady,
    /// End with the error of the registration. The modem is not told that the
    /// bridge is ready.
    Fail,
    /// Wait for a number to dial.
    Wait,
    /// The modem is gone: end without an error.
    Stop,
    /// What the modem asked to dial is no number: wait for another.
    Refuse(DialError),
    /// Set up a call to this number.
    Originate(DialString),
    /// The call has no media endpoint: send BYE, and wait for a number.
    HangUp,
    /// Relay media with this endpoint, after sending ACK where `ack` holds.
    /// Where it does not, the answer is still to come.
    Relay { remote_rtp: SocketAddr, ack: bool },
    /// Send BYE, and end with the error of the relay.
    Abort,
}

/// What the bridge does, with texts as sequences. A refusal names what cannot be
/// dialled, if anything was given.
pub enum BridgeMove {
    SignalReady,
    Fail,
    Wait,
    Stop,
    Refuse(Option<Seq<char>>),
    Originate(Seq<char>),
    HangUp,
    Relay { remote_rtp: SocketAddr, ack: bool },
    Abort,
}

impl View for BridgeAction {
    type V = BridgeMove;

    open spec fn view(&self) -> BridgeMove {
        match self {
            BridgeAction::SignalReady => BridgeMove::SignalReady,
            BridgeAction::Fail => BridgeMove::Fail,
            BridgeAction::Wait => BridgeMove::Wait,
            BridgeAction::Stop => BridgeMove::Stop,
            BridgeAction::Refuse(DialError::Empty) => BridgeMove::Refuse(None),
            BridgeAction::Refuse(DialError::Unsupported(text)) => BridgeMove::Refuse(Some(text@)),
            BridgeAction::Originate(dial) => BridgeMove::Originate(dial@),
            BridgeAction::HangUp => BridgeMove::HangUp,
            BridgeAction::Relay { remote_rtp, ack } => BridgeMove::Relay {
                remote_rtp: *remote_rtp,
                ack: *ack,
            },
            BridgeAction::Abort => BridgeMove::Abort,
        }
    }
}

/// Whether an event can happen at a stage.
pub open spec fn expected(stage: Stage, event: BridgeEvent) -> bool {
    match event {
        BridgeEvent::Registered => stage is Registering,
        BridgeEvent::RegistrationFailed => stage is Registering,
        BridgeEvent::ModemClosed => stage is Waiting,
        BridgeEvent::Dialed(_) => stage is Waiting,
        BridgeEvent::SetupFailed => stage is Originating,
        BridgeEvent::CallReady(_) => stage is Originating,
        BridgeEvent::RelayDone => stage is MediaActive,
        BridgeEvent::RelayFailed => stage is MediaActive,
    }
}

/// What an event makes of the bridge, and what the bridge then does.
pub open spec fn bridge_step(event: BridgeEvent) -> (Stage, BridgeMove) {
    match event {
        BridgeEvent::Registered => (Stage::Waiting, BridgeMove::SignalReady),
        BridgeEvent::RegistrationFailed => (Stage::Finished, BridgeMove::Fail),
        BridgeEvent::ModemClosed => (Stage::Finished, BridgeMove::Stop),
        BridgeEvent::Dialed(text) => {
            let number = after_prefix(text@);
            if number.len() == 0 {
                (Stage::Waiting, BridgeMove::Refuse(None))
            } else if !all_dialable(number) {
                (Stage::Waiting, BridgeMove::Refuse(Some(number)))
            } else {
                (Stage::Originating, BridgeMove::Originate(number))
            }
        },
        BridgeEvent::SetupFailed => (Stage::Waiting, BridgeMove::Wait),
        BridgeEvent::CallReady(call) => match call.remote_rtp {
            Some(remote_rtp) => (
                Stage::MediaActive,
                BridgeMove::Relay { remote_rtp, ack: call.state is Answered },
            ),
            None => (Stage::Waiting, BridgeMove::HangUp),
        },
        BridgeEvent::RelayDone => (Stage::Waiting, BridgeMove::HangUp),
        BridgeEvent::RelayFailed => (Stage::Finished, BridgeMove::Abort),
    }
}

impl Bridge {
    /// A bridge at its beginning.
    pub fn new() -> (r: Bridge)
        ensures
            r == (Bridge { stage: Stage::Registering, calls_count: 0 }),
    {
        Bridge { stage: Stage::Registering, calls_count: 0 }
    }

    /// Handles what happens to the bridge. Requests to dial are counted, whether
    /// a call comes of them or not.
    pub fn on_event(&mut self, event: BridgeEvent) -> (action: BridgeAction)
        requires
            expected(old(self).stage, event),
            old(self).stage is Waiting ==> old(self).calls_count < CALLS_LIMIT,
        ensures
            (final(self).stage, action@) == bridge_step(event),
            final(self).calls_count == old(self).calls_count + (if event is Dialed {
                1int
            } else {
                0
            }),
            action matches BridgeAction::Originate(dial) ==> dial@.len() > 0,
    {
        match event {
            BridgeEvent::Registered => {
                self.stage = Stage::Waiting;
                BridgeAction::SignalReady
            },
            BridgeEvent::RegistrationFailed => {
                self.stage = Stage::Finished;
                BridgeAction::Fail
            },
            BridgeEvent::ModemClosed => {
                self.stage = Stage::Finished;
                BridgeAction::Stop
            },
            BridgeEvent::Dialed(text) => {
                self.calls_count = self.calls_count + 1;
                match DialString::parse(text) {
                    Ok(dial) => {
                        self.stage = Stage::Originating;
                        BridgeAction::Originate(dial)
                    },
                    Err(e) => BridgeAction::Refuse(e),
                }
            },
            BridgeEvent::SetupFailed => {
                self.stage = Stage::Waiting;
                BridgeAction::Wait
            },
            BridgeEvent::CallReady(call) => match call.remote_rtp {
                Some(remote_rtp) => {
                    self.stage = Stage::MediaActive;
                    BridgeAction::Relay { remote_rtp, ack: call.state == CallState::Answered }
                },
                None => {
                    self.stage = Stage::Waiting;
                    BridgeAction::HangUp
                },
            },
            BridgeEvent::RelayDone => {
                self.stage = Stage::Waiting;
                BridgeAction::HangUp
            },
            BridgeEvent::RelayFailed => {
                self.stage = Stage::Finished;
                BridgeAction::Abort
            },
        }
    }
}

// --- Addresses ---

/// Where the trunk is reached.
pub open spec fn server_text(domain: Seq<char>) -> Seq<char> {
    domain + ":5060"@
}

/// What a socket is bound to.
pub open spec fn bind_text(addr: Seq<char>, port: nat) -> Seq<char> {
    addr + ":"@ + decimal(port)
}

/// Where the trunk is reached: its domain and the SIP port.
pub fn server_address(domain: &str) -> (r: String)
    ensures
        r@ == domain@ + ":5060"@,
        r@ == server_text(domain@),
{
    let mut r = String::from_str(domain);
    r.append(":5060");
    r
}

/// What a socket is bound to: an address and a port, or any port for port 0.
pub fn bind_address(addr: &str, port: u16) -> (r: String)
    ensures
        r@ == addr@ + ":"@ + decimal(port as nat),
        r@ == bind_text(addr@, port as nat),
{
    let mut r = String::from_str(addr);
    r.append(":");
    r.append(decimal_string(port as u128).as_str());
    r
}

// --- Laws ---

/// Waiting does not depend on how the modem's bytes are split into reads:
/// reading `a` and then, if it asks for no number, `b`, is reading `a + b`.
pub proof fn law_scan_across_reads(line: LineModel, a: Seq<u8>, b: Seq<u8>)
    ensures
        scan(line, a + b) == (if scan(line, a).1 is Some {
            scan(line, a)
        } else {
            scan(scan(line, a).0, b)
        }),
    decreases a.len(),
{
    let both = a + b;
    if a.len() == 0 {
        assert(both =~= b);
    } else {
        assert(both.skip(1) =~= a.skip(1) + b);
        if a[0] == LINE_FEED {
            law_scan_across_reads(LineModel::fresh(), a.skip(1), b);
        } else {
            law_scan_across_reads(line.extended(a[0]), a.skip(1), b);
        }
    }
}

/// However much the modem sends, no more than one line is kept.
pub proof fn law_line_bounded(line: LineModel, bytes: Seq<u8>)
    requires
        line.well_formed(),
    ensures
        scan(line, bytes).0.well_formed(),
    decreases bytes.len(),
{
    if bytes.len() > 0 {
        law_line_bounded(line.extended(bytes[0]), bytes.skip(1));
        law_line_bounded(LineModel::fresh(), bytes.skip(1));
    }
}

/// Bytes without a line feed are kept as long as they fit, and discarded where
/// they do not.
proof fn lemma_scan_line(line: LineModel, bytes: Seq<u8>)
    requires
        line.well_formed(),
        forall|i: int| 0 <= i < bytes.len() ==> #[trigger] bytes[i] != LINE_FEED,
    ensures
        scan(line, bytes) == (
            if line.garbled || line.bytes.len() + bytes.len() > LINE_BUF_LIMIT {
                LineModel { bytes: Seq::empty(), garbled: true }
            } else {
                LineModel { bytes: line.bytes + bytes, garbled: false }
            },
            None::<Seq<char>>,
        ),
    decreases bytes.len(),
{
    if bytes.len() == 0 {
        assert(line.bytes + bytes =~= line.bytes);
        assert(line.garbled ==> line.bytes =~= Seq::empty());
    } else {
        let rest = bytes.skip(1);
        assert(bytes[0] != LINE_FEED);
        assert forall|i: int| 0 <= i < rest.len() implies #[trigger] rest[i] != LINE_FEED by {
            assert(rest[i] == bytes[i + 1]);
        }
        lemma_scan_line(line.extended(bytes[0]), rest);
        assert(line.bytes.push(bytes[0]) + rest =~= line.bytes + bytes);
    }
}

/// A line that is too long is discarded whole: nothing is dialled from it,
/// whatever it holds, and what comes after it is read as if it had not been
/// there.
pub proof fn law_long_line_discarded(bytes: Seq<u8>, more: Seq<u8>)
    requires
        bytes.len() > LINE_BUF_LIMIT,
        !bytes.contains(LINE_FEED),
    ensures
        scan(LineModel::fresh(), bytes.push(LINE_FEED)) == (LineModel::fresh(), None::<Seq<char>>),
        scan(LineModel::fresh(), bytes.push(LINE_FEED) + more) == scan(LineModel::fresh(), more),
{
    let tail = seq![LINE_FEED];
    assert forall|i: int| 0 <= i < bytes.len() implies #[trigger] bytes[i] != LINE_FEED by {
        assert(bytes.contains(bytes[i]));
    }
    lemma_scan_line(LineModel::fresh(), bytes);
    law_scan_across_reads(LineModel::fresh(), bytes, tail);
    assert(bytes.push(LINE_FEED) =~= bytes + tail);
    assert(tail[0] == LINE_FEED);
    assert(tail.skip(1) =~= Seq::empty());
    assert(scan(LineModel::fresh(), tail.skip(1)) == (LineModel::fresh(), None::<Seq<char>>));
    law_scan_across_reads(LineModel::fresh(), bytes.push(LINE_FEED), more);
}

/// The line `DIAL:` with a number after it is a request to dial that number,
/// as long as it fits into the buffer and the number is not blank: what comes
/// out is the number without the white space around it.
pub proof fn law_dial_line_recognized(number: Seq<char>, more: Seq<u8>)
    requires
        trimmed(number).len() > 0,
        encode_utf8("DIAL:"@ + number).len() <= LINE_BUF_LIMIT,
        !encode_utf8("DIAL:"@ + number).contains(LINE_FEED),
    ensures
        scan(LineModel::fresh(), encode_utf8("DIAL:"@ + number).push(LINE_FEED) + more).1 == Some(
            trimmed(number),
        ),
{
    reveal_strlit("DIAL:");
    let text = "DIAL:"@ + number;
    assert(text.skip(5) =~= number);
    assert(text.take(5) =~= "DIAL:"@);
    let bytes = encode_utf8(text);
    vstd::utf8::encode_utf8_valid_utf8(text);
    vstd::utf8::encode_utf8_decode_utf8(text);
    let all = bytes.push(LINE_FEED) + more;
    let tail = seq![LINE_FEED] + more;
    assert forall|i: int| 0 <= i < bytes.len() implies #[trigger] bytes[i] != LINE_FEED by {
        assert(bytes.contains(bytes[i]));
    }
    lemma_scan_line(LineModel::fresh(), bytes);
    law_scan_across_reads(LineModel::fresh(), bytes, tail);
    assert(all =~= bytes + tail);
    assert(Seq::empty() + bytes =~= bytes);
    assert(tail[0] == LINE_FEED);
}

/// A session ends with BYE: whatever happens to a call whose media is relayed,
/// the bridge hangs up, and then waits for the next number or ends.
pub proof fn law_relayed_call_ended(event: BridgeEvent)
    requires
        expected(Stage::MediaActive, event),
    ensures
        ({
            let (stage, action) = bridge_step(event);
            (action is HangUp && stage is Waiting) || (action is Abort && stage is Finished)
        }),
{
}

/// The modem is told that the bridge is ready once the trunk has accepted the
/// registration, and never otherwise: a bridge that begins leaves its first stage
/// by signalling ready or by ending, and no later event signals ready.
pub proof fn law_ready_after_registration(stage: Stage, event: BridgeEvent)
    requires
        expected(stage, event),
    ensures
        bridge_step(event).1 is SignalReady <==> event is Registered,
        event is Registered ==> stage is Registering,
        stage is Registering ==> {
            ||| event is Registered && bridge_step(event).0 is Waiting
            ||| bridge_step(event) == (Stage::Finished, BridgeMove::Fail)
        },
        !(bridge_step(event).0 is Registering),
{
}

/// The modem's socket is kept open over failures of a call: only a failed
/// registration, a closed socket or a failed relay ends the bridge.
pub proof fn law_bridge_survives(event: BridgeEvent)
    requires
        !(event is RegistrationFailed),
        !(event is ModemClosed),
        !(event is RelayFailed),
    ensures
        !(bridge_step(event).0 is Finished),
{
}

/// A line asks to dial what follows `DIAL:`, without the white space around it,
/// where that is not blank. No other line does.
pub proof fn law_dial_request(text: Seq<char>, number: Seq<char>)
    ensures
        dial_request(seq!['D', 'I', 'A', 'L', ':'] + number) == (if blank(number) {
            None
        } else {
            Some(trimmed(number))
        }),
        !(text.len() >= 5 && text.take(5) == seq!['D', 'I', 'A', 'L', ':']) ==> dial_request(text)
            is None,
{
    reveal_strlit("DIAL:");
    let mark = seq!['D', 'I', 'A', 'L', ':'];
    assert("DIAL:"@ =~= mark);
    let line = mark + number;
    assert(line.take(5) =~= mark);
    assert(line.skip(5) =~= number);
    lemma_blank_trimmed(number);
}

/// A line is kept up to 256 bytes, and dropped from the first byte beyond them.
pub proof fn law_line_kept(bytes: Seq<u8>)
    requires
        !bytes.contains(10),
    ensures
        scan(LineModel::fresh(), bytes) == (
            if bytes.len() <= 256 {
                LineModel { bytes, garbled: false }
            } else {
                LineModel { bytes: Seq::empty(), garbled: true }
            },
            None::<Seq<char>>,
        ),
{
    assert forall|i: int| 0 <= i < bytes.len() implies #[trigger] bytes[i] != LINE_FEED by {
        assert(bytes.contains(bytes[i]));
    }
    lemma_scan_line(LineModel::fresh(), bytes);
    assert(Seq::empty() + bytes =~= bytes);
}

/// A line that asks to dial nothing is passed over, and the next is read as if it
/// came first; a line that asks for a number ends the wait with it.
pub proof fn law_lines_one_by_one(bytes: Seq<u8>, more: Seq<u8>)
    requires
        !bytes.contains(10),
        bytes.len() <= 256,
    ensures
        dial_request(utf8_lossy(bytes)) is None ==> scan(
            LineModel::fresh(),
            bytes + seq![10u8] + more,
        ) == scan(LineModel::fresh(), more),
        dial_request(utf8_lossy(bytes)) matches Some(number) ==> scan(
            LineModel::fresh(),
            bytes + seq![10u8] + more,
        ).1 == Some(number),
{
    let tail = seq![10u8] + more;
    law_line_kept(bytes);
    law_scan_across_reads(LineModel::fresh(), bytes, tail);
    assert(bytes + seq![10u8] + more =~= bytes + tail);
    assert(tail[0] == LINE_FEED);
    assert(tail.skip(1) =~= more);
}

/// While the bridge waits for a number, it writes silence and says that it is
/// there when it is time to, dials what it is asked to, and takes a closed or
/// broken socket for the end.
pub proof fn law_dial_wait(line: LineModel, bytes: &[u8])
    ensures
        bytes@.len() == 0 ==> dial_step(line, DialEvent::Read(bytes)) == (line, DialMove::Closed),
        bytes@.len() > 0 ==> {
            let (rest, action) = dial_step(line, DialEvent::Read(bytes));
            &&& rest == scan(line, bytes@).0
            &&& action == (match scan(line, bytes@).1 {
                Some(number) => DialMove::Dial(number),
                None => DialMove::Wait,
            })
        },
        dial_step(line, DialEvent::ReadFailed) == (line, DialMove::Closed),
        dial_step(line, DialEvent::SilenceDue) == (line, DialMove::WriteSilence),
        dial_step(line, DialEvent::SilenceFailed) == (line, DialMove::Closed),
        dial_step(line, DialEvent::HeartbeatDue) == (line, DialMove::Heartbeat),
{
}

/// While a call is set up, what the modem sends is counted and dropped, silence is
/// written when it is due, and a closed or broken socket ends the setup with an
/// error of its own; the end of the setup ends the wait.
pub proof fn law_drain(drain: Drain, n: usize)
    requires
        drain.iterations < 500,
        drain.drained_bytes + n <= u64::MAX,
    ensures
        ({
            let read = drain_step(drain, DrainEvent::Read(n));
            &&& read.0.drained_bytes == drain.drained_bytes + n
            &&& read.0.iterations == drain.iterations + 1
            &&& n > 0 ==> read.1 is Wait
            &&& n == 0 ==> read.1 == DrainAction::Fail(DrainError::Closed)
        }),
        ({
            let done = drain_step(drain, DrainEvent::SetupDone);
            let broken = drain_step(drain, DrainEvent::ReadFailed);
            let due = drain_step(drain, DrainEvent::SilenceDue);
            &&& done.1 is Finish
            &&& broken.1 == DrainAction::Fail(DrainError::ReadFailed)
            &&& due.1 is WriteSilence
            &&& done.0 == broken.0 && broken.0 == due.0
            &&& due.0.iterations == drain.iterations + 1
            &&& due.0.drained_bytes == drain.drained_bytes
        }),
        drain_step(drain, DrainEvent::SilenceFailed) == (
            drain,
            DrainAction::Fail(DrainError::SilenceFailed),
        ),
{
}

/// A request to dial is refused where nothing, or something that cannot be
/// dialled, follows the letters that choose tone or pulse; otherwise a call is
/// placed to exactly what follows them.
pub proof fn law_dialed(text: &str, prefix: Seq<char>, number: Seq<char>)
    requires
        text@ == prefix + number,
        forall|i: int|
            0 <= i < prefix.len() ==> #[trigger] prefix[i] == 'T' || prefix[i] == 't' || prefix[i]
                == 'P' || prefix[i] == 'p',
        number.len() > 0 ==> number[0] != 'T' && number[0] != 't' && number[0] != 'P' && number[0]
            != 'p',
    ensures
        bridge_step(BridgeEvent::Dialed(text)) == (if number.len() == 0 {
            (Stage::Waiting, BridgeMove::Refuse(None))
        } else if all_dialable(number) {
            (Stage::Originating, BridgeMove::Originate(number))
        } else {
            (Stage::Waiting, BridgeMove::Refuse(Some(number)))
        }),
{
    law_prefix_taken_off(prefix, number);
}

/// A call that is set up is relayed with the endpoint that it names, and the
/// answer is acknowledged where it has come; a call without one is hung up.
pub proof fn law_call_ready(call: &Call)
    ensures
        bridge_step(BridgeEvent::CallReady(call)) == (match call.remote_rtp {
            Some(remote_rtp) => (
                Stage::MediaActive,
                BridgeMove::Relay { remote_rtp, ack: call.state == CallState::Answered },
            ),
            None => (Stage::Waiting, BridgeMove::HangUp),
        }),
{
}

/// How a session goes on: a call that cannot be set up lets the bridge wait for
/// the next number; the end of a relay hangs up and lets it wait, a broken relay
/// hangs up and ends it; a modem that is gone while the bridge waits ends it
/// without an error.
pub proof fn law_session_goes_on()
    ensures
        bridge_step(BridgeEvent::SetupFailed) == (Stage::Waiting, BridgeMove::Wait),
        bridge_step(BridgeEvent::RelayDone) == (Stage::Waiting, BridgeMove::HangUp),
        bridge_step(BridgeEvent::RelayFailed) == (Stage::Finished, BridgeMove::Abort),
        bridge_step(BridgeEvent::ModemClosed) == (Stage::Finished, BridgeMove::Stop),
        bridge_step(BridgeEvent::Registered) == (Stage::Waiting, BridgeMove::SignalReady),
        bridge_step(BridgeEvent::RegistrationFailed) == (Stage::Finished, BridgeMove::Fail),
{
}

/// At every stage but the last, and only there, something can happen: a bridge
/// that registers succeeds or fails, one that waits is asked to dial or loses the
/// modem, one that originates gets its call or not, and one that relays ends its
/// relay.
pub proof fn law_events_expected(stage: Stage, text: &str, call: &Call)
    ensures
        expected(stage, BridgeEvent::Registered) <==> stage is Registering,
        expected(stage, BridgeEvent::RegistrationFailed) <==> stage is Registering,
        expected(stage, BridgeEvent::ModemClosed) <==> stage is Waiting,
        expected(stage, BridgeEvent::Dialed(text)) <==> stage is Waiting,
        expected(stage, BridgeEvent::SetupFailed) <==> stage is Originating,
        expected(stage, BridgeEvent::CallReady(call)) <==> stage is Originating,
        expected(stage, BridgeEvent::RelayDone) <==> stage is MediaActive,
        expected(stage, BridgeEvent::RelayFailed) <==> stage is MediaActive,
{
}

/// Addresses are written as the host, a colon and the port; the trunk is reached
/// at port 5060.
pub proof fn law_addresses(host: Seq<char>, port: nat)
    ensures
        server_text(host) == host + seq![':'] + decimal(5060),
        bind_text(host, port) == host + seq![':'] + decimal(port),
{
    reveal_strlit(":5060");
    reveal_strlit(":");
    reveal_with_fuel(decimal, 4);
    assert(":5060"@ =~= seq![':'] + decimal(5060));
    assert(":"@ =~= seq![':']);
    assert(server_text(host) =~= host + seq![':'] + decimal(5060));
}

/// The sizes and pauses of a session. A frame of silence lasts from one to the
/// next, at 8000 samples of two bytes a second; the bytes that mark the stream and
/// the modem's readiness are letters.
pub proof fn law_pace()
    ensures
        1000 * SILENCE_FRAME_BYTES == 2 * 8000 * SILENCE_INTERVAL_MS,
        SILENCE_INTERVAL_MS == 20,
        ANSWER_POLL_INTERVAL_MS == 50,
        DIAL_WAIT_HEARTBEAT_SECS == 60,
        CALLS_LIMIT == 1000,
        DRAIN_ITERATIONS_LIMIT == 500,
        READY_BYTE as int == 'R' as int,
        RTP_SSRC as int == (('S' as int * 256 + 'L' as int) * 256 + 'M' as int) * 256 + 'D' as int,
{
}

/// A failed read or write is told with what the socket reported.
pub proof fn law_detail_told(a: Seq<char>, b: Seq<char>)
    ensures
        exists|p: Seq<char>|
            DrainError::ReadFailed.text(a) == #[trigger] (p + a) && DrainError::ReadFailed.text(b)
                == #[trigger] (p + b),
        exists|p: Seq<char>|
            DrainError::SilenceFailed.text(a) == #[trigger] (p + a)
                && DrainError::SilenceFailed.text(b) == #[trigger] (p + b),
        DrainError::Closed.text(a) == DrainError::Closed.text(b),
{
    let p = "slmodemd read error during SIP setup: "@;
    assert(DrainError::ReadFailed.text(a) == p + a);
    assert(DrainError::ReadFailed.text(b) == p + b);
    let p = "failed to write silence during SIP setup: "@;
    assert(DrainError::SilenceFailed.text(a) == p + a);
    assert(DrainError::SilenceFailed.text(b) == p + b);
}

} // verus!
