//! The session with one sensor.
//!
//! A session holds what the driver knows between two transfers: the frame
//! buffer, how far the search for the frame start has come, the speed last
//! reported, and whether the session was closed. It never performs a
//! transfer. It says what the transport is to do next, and takes the bytes
//! that came back:
//!
//! * `start` and `close` hand out the control byte to send;
//! * `read` begins a frame and asks for the first byte;
//! * `receive` takes the bytes asked for, and either asks for more or hands
//!   out the decoded scan.

use vstd::prelude::*;
use crate::frame::{
    decode, decoded, frame_rpms, header_valid, lemma_last_valid_packet, FRAME_LEN,
};
use crate::reading::LaserReading;
use crate::sync::{lemma_state_after_step, state_after, synchronized_after, SyncState};

verus! {

/// The byte that makes the sensor spin and stream: ASCII `b`.
pub const START_BYTE: u8 = 0x62;

/// The byte that stops the sensor: ASCII `e`.
pub const STOP_BYTE: u8 = 0x65;

/// Number of bytes of a frame that follow its two marker bytes.
pub const PAYLOAD_LEN: usize = 2518;

/// The error of every read on a session that was closed.
#[derive(Debug, Clone, Copy, PartialEq, Eq)]
pub struct DriverClosed;

/// What a read has come to.
#[derive(Debug)]
pub enum ReadStep {
    /// The transport is to deliver exactly this many bytes, which go to
    /// `LFCDLaser::receive`.
    Fetch(usize),
    /// A whole frame was read: here is its scan.
    Frame(LaserReading),
}

/// The session with one sensor.
pub struct LFCDLaser {
    port: String,
    baud_rate: u32,
    shutting_down: bool,
    motor_speed: u16,
    rpms: u16,
    sync: SyncState,
    buff: [u8; FRAME_LEN],
}

/// What a session holds, as plain values.
#[verifier::ext_equal]
pub struct LaserView {
    /// Name of the serial port that the session was made for.
    pub port: Seq<char>,
    /// Baud rate that the session was made for.
    pub baud_rate: u32,
    /// Whether the session was closed.
    pub closed: bool,
    /// The motor speed that was set.
    pub speed: u16,
    /// The rotation speed that the sensor last reported.
    pub rpms: u16,
    /// How far the search for the frame start has come.
    pub sync: SyncState,
    /// The frame buffer.
    pub frame: Seq<u8>,
}

impl LaserView {
    /// What every session keeps: a buffer of one frame, which holds the
    /// marker bytes that the synchronizer has accepted.
    pub open spec fn wf(self) -> bool {
        &&& self.frame.len() == 2520
        &&& self.sync == SyncState::SeekSecondMarker ==> self.frame[0] == 0xFA
        &&& self.sync == SyncState::Synchronized ==> self.frame[0] == 0xFA && self.frame[1] == 0xA0
    }

    /// The number of bytes that the session takes next: one while it looks
    /// for the markers, then the rest of the frame at once.
    pub open spec fn wanted(self) -> nat {
        if self.sync == SyncState::Synchronized {
            2518
        } else {
            1
        }
    }

    /// The control byte that `start` hands out: none once closed.
    pub open spec fn start_byte(self) -> Option<u8> {
        if self.closed {
            None
        } else {
            Some(0x62u8)
        }
    }

    /// The control byte that `close` hands out: the stop byte, once.
    pub open spec fn stop_byte(self) -> Option<u8> {
        if self.closed {
            None
        } else {
            Some(0x65u8)
        }
    }

    /// The session after `close`.
    pub open spec fn after_close(self) -> LaserView {
        LaserView { closed: true, ..self }
    }

    /// The number of bytes that `read` asks for: none once closed.
    pub open spec fn read_request(self) -> Option<nat> {
        if self.closed {
            None
        } else {
            Some(1)
        }
    }

    /// The session after `read`: the search for the markers starts afresh.
    pub open spec fn after_read(self) -> LaserView {
        if self.closed {
            self
        } else {
            LaserView { sync: SyncState::SeekFirstMarker, ..self }
        }
    }

    /// The frame buffer after `receive`: a byte of the search goes to its
    /// position, the rest of the frame behind the two markers.
    pub open spec fn frame_after_receive(self, bytes: Seq<u8>) -> Seq<u8> {
        match self.sync {
            SyncState::SeekFirstMarker => self.frame.update(0, bytes[0]),
            SyncState::SeekSecondMarker => self.frame.update(1, bytes[0]),
            SyncState::Synchronized => self.frame.take(2) + bytes,
        }
    }

    /// The session after `receive`.
    pub open spec fn after_receive(self, bytes: Seq<u8>) -> LaserView {
        if self.closed {
            self
        } else {
            let frame = self.frame_after_receive(bytes);
            match self.sync {
                SyncState::Synchronized => LaserView {
                    sync: SyncState::SeekFirstMarker,
                    frame: frame,
                    rpms: match frame_rpms(frame) {
                        Some(rpms) => rpms,
                        None => self.rpms,
                    },
                    ..self
                },
                _ => LaserView { sync: self.sync.next(bytes[0]), frame: frame, ..self },
            }
        }
    }

    /// The session after it has received the first `n` bytes of `stream`,
    /// one at a time.
    pub open spec fn after_bytes(self, stream: Seq<u8>, n: int) -> LaserView
        decreases n,
    {
        if n <= 0 {
            self
        } else {
            self.after_bytes(stream, n - 1).after_receive(seq![stream[n - 1]])
        }
    }
}

impl View for LFCDLaser {
    type V = LaserView;

    closed spec fn view(&self) -> LaserView {
        LaserView {
            port: self.port@,
            baud_rate: self.baud_rate,
            closed: self.shutting_down,
            speed: self.motor_speed,
            rpms: self.rpms,
            sync: self.sync,
            frame: self.buff@,
        }
    }
}

impl LFCDLaser {
    #[verifier::type_invariant]
    spec fn inv(self) -> bool {
        self@.wf()
    }

    /// A session for the sensor on `port`: open, with a zeroed frame buffer,
    /// no speed known yet, and the search for the markers at its start.
    pub fn new(port: String, baud_rate: u32) -> (laser: Self)
        ensures
            laser@ == (LaserView {
                port: port@,
                baud_rate: baud_rate,
                closed: false,
                speed: 0,
                rpms: 0,
                sync: SyncState::SeekFirstMarker,
                frame: Seq::new(2520, |i: int| 0u8),
            }),
            laser@.wf(),
    {
        Self {
            port,
            baud_rate,
            shutting_down: false,
            motor_speed: 0,
            rpms: 0,
            sync: SyncState::SeekFirstMarker,
            buff: [0u8; FRAME_LEN],
        }
    }

    /// Closes the session, for good. The first call hands out the stop byte,
    /// which the caller sends without minding whether that fails; any later
    /// call hands out nothing.
    pub fn close(&mut self) -> (byte: Option<u8>)
        ensures
            byte == old(self)@.stop_byte(),
            final(self)@ == old(self)@.after_close(),
            final(self)@.wf(),
    {
        proof {
            use_type_invariant(&*self);
        }
        if self.shutting_down {
            None
        } else {
            self.shutting_down = true;
            Some(STOP_BYTE)
        }
    }

    /// Hands out the start byte, which the caller sends before the first
    /// read. A closed session hands out nothing and stays closed.
    pub fn start(&mut self) -> (byte: Option<u8>)
        ensures
            byte == old(self)@.start_byte(),
            final(self)@ == old(self)@,
            final(self)@.wf(),
    {
        proof {
            use_type_invariant(&*self);
        }
        if self.shutting_down {
            None
        } else {
            Some(START_BYTE)
        }
    }

    /// Whether the session was closed.
    pub fn is_closed(&self) -> (closed: bool)
        ensures
            closed == self@.closed,
    {
        self.shutting_down
    }

    /// The motor speed that was set: zero, as nothing sets it.
    pub fn speed(&self) -> (speed: u16)
        ensures
            speed == self@.speed,
    {
        self.motor_speed
    }

    /// The baud rate that the session was made for.
    pub fn baud_rate(&self) -> (baud_rate: u32)
        ensures
            baud_rate == self@.baud_rate,
    {
        self.baud_rate
    }

    /// The name of the serial port that the session was made for.
    pub fn port(&self) -> (port: String)
        ensures
            port@ == self@.port,
    {
        self.port.clone()
    }

    /// The rotation speed that the sensor last reported.
    pub fn rpms(&self) -> (rpms: u16)
        ensures
            rpms == self@.rpms,
    {
        self.rpms
    }

    /// The number of bytes that `receive` takes next: one while the session
    /// looks for the markers, then the 2518 that complete the frame.
    pub fn wanted(&self) -> (len: usize)
        ensures
            len == self@.wanted(),
    {
        match self.sync {
            SyncState::Synchronized => PAYLOAD_LEN,
            _ => 1,
        }
    }

    /// Begins the read of one frame: the search for the markers starts
    /// afresh, and the session asks for the first byte. A closed session
    /// fails at once and asks for nothing.
    pub fn read(&mut self) -> (step: Result<ReadStep, DriverClosed>)
        ensures
            final(self)@ == old(self)@.after_read(),
            final(self)@.wf(),
            match step {
                Ok(ReadStep::Fetch(n)) => old(self)@.read_request() == Some(n as nat),
                Ok(ReadStep::Frame(_)) => false,
                Err(_) => old(self)@.read_request() is None,
            },
    {
        proof {
            use_type_invariant(&*self);
        }
        if self.shutting_down {
            return Err(DriverClosed);
        }
        self.sync = SyncState::SeekFirstMarker;
        Ok(ReadStep::Fetch(1))
    }

    /// Takes the bytes that the last step asked for.
    ///
    /// While the session looks for the markers, the byte goes to its place
    /// in the frame buffer and through the synchronizer, and the session
    /// asks for what comes next: one more byte, or the remaining 2518 bytes
    /// once both markers were seen. Those complete the frame: it is decoded,
    /// the speed it reports is kept, and the scan is handed out. A closed
    /// session fails and keeps its state.
    pub fn receive(&mut self, bytes: &[u8]) -> (step: Result<ReadStep, DriverClosed>)
        requires
            bytes@.len() == old(self)@.wanted(),
        ensures
            final(self)@ == old(self)@.after_receive(bytes@),
            final(self)@.wf(),
            match step {
                Ok(ReadStep::Fetch(n)) => {
                    &&& !old(self)@.closed
                    &&& old(self)@.sync != SyncState::Synchronized
                    &&& n == final(self)@.wanted()
                },
                Ok(ReadStep::Frame(scan)) => {
                    &&& !old(self)@.closed
                    &&& old(self)@.sync == SyncState::Synchronized
                    &&& scan@ == decoded(final(self)@.frame)
                },
                Err(_) => old(self)@.closed,
            },
    {
        proof {
            use_type_invariant(&*self);
        }
        if self.shutting_down {
            return Err(DriverClosed);
        }
        match self.sync {
            SyncState::Synchronized => {
                let mut i: usize = 0;
                while i < PAYLOAD_LEN
                    invariant
                        i <= 2518,
                        bytes@.len() == 2518,
                        self.buff@.len() == 2520,
                        self.buff@[0] == 0xFA,
                        self.buff@[1] == 0xA0,
                        forall|j: int| 0 <= j < i ==> self.buff@[2 + j] == bytes@[j],
                        self.sync == SyncState::Synchronized,
                        self.shutting_down == old(self).shutting_down,
                        self.port == old(self).port,
                        self.baud_rate == old(self).baud_rate,
                        self.motor_speed == old(self).motor_speed,
                        self.rpms == old(self).rpms,
                    decreases 2518 - i,
                {
                    self.buff[2 + i] = bytes[i];
                    i += 1;
                }
                assert(self.buff@ =~= old(self)@.frame_after_receive(bytes@));
                self.sync = SyncState::SeekFirstMarker;
                let mut rpms = self.rpms;
                let scan = decode(&self.buff, &mut rpms);
                self.rpms = rpms;
                Ok(ReadStep::Frame(scan))
            },
            state => {
                let byte = bytes[0];
                self.buff[state.position()] = byte;
                self.sync = state.step(byte);
                Ok(ReadStep::Fetch(self.wanted()))
            },
        }
    }
}

/// A closed session stays closed whatever is done with it: it hands out no
/// control byte, asks for no transfer, and keeps its state.
pub proof fn lemma_closed_is_terminal(session: LaserView, bytes: Seq<u8>)
    requires
        session.closed,
    ensures
        session.start_byte() is None,
        session.stop_byte() is None,
        session.read_request() is None,
        session.after_close() == session,
        session.after_read() == session,
        session.after_receive(bytes) == session,
{
}

/// After `close`, a read fails without asking the transport for anything.
pub proof fn lemma_read_after_close(session: LaserView)
    ensures
        session.after_close().closed,
        session.after_close().read_request() is None,
        session.after_close().after_read() == session.after_close(),
{
}

/// The frame that a session decodes starts with the two marker bytes, and
/// the payload follows them. So its first packet is always valid: the six
/// degrees from 354 to 359 come from the stream, and the speed that the
/// session keeps is that of the frame.
pub proof fn lemma_frame_starts_with_markers(session: LaserView, payload: Seq<u8>)
    requires
        session.wf(),
        !session.closed,
        session.sync == SyncState::Synchronized,
        payload.len() == 2518,
    ensures
        session.after_receive(payload).frame == seq![0xFAu8, 0xA0u8] + payload,
        header_valid(session.after_receive(payload).frame, 0),
        session.after_receive(payload).rpms == decoded(session.after_receive(payload).frame).rpms,
{
    let frame = session.frame_after_receive(payload);
    assert(frame =~= seq![0xFAu8, 0xA0u8] + payload);
    lemma_last_valid_packet(frame, 60);
}

/// A read looks for the frame start as the synchronizer does: while the
/// first `n` bytes of the stream have not synchronized it, the session has
/// taken them one by one, stands where the synchronizer stands, and has
/// changed nothing but its frame buffer.
pub proof fn lemma_read_follows_synchronizer(session: LaserView, stream: Seq<u8>, n: int)
    requires
        session.wf(),
        !session.closed,
        0 <= n <= stream.len(),
        forall|m: int| 0 <= m < n ==> state_after(stream, m) != SyncState::Synchronized,
    ensures
        session.after_read().after_bytes(stream, n) == (LaserView {
            sync: state_after(stream, n),
            frame: session.after_read().after_bytes(stream, n).frame,
            ..session
        }),
        session.after_read().after_bytes(stream, n).wf(),
    decreases n,
{
    if n <= 0 {
        assert(stream.take(0).len() == 0);
    } else {
        lemma_read_follows_synchronizer(session, stream, n - 1);
        lemma_state_after_step(stream, n);
    }
}

/// A read takes one frame, and the bytes of no other: where the
/// synchronizer commits after `n` bytes of the stream, the session has then
/// asked for these `n` bytes one by one and asks for 2518 more. With them
/// the frame is the two markers and that payload, the speed kept is the one
/// that the frame reports, and the session is ready for the next read.
pub proof fn lemma_read_takes_one_frame(
    session: LaserView,
    stream: Seq<u8>,
    n: int,
    payload: Seq<u8>,
)
    requires
        session.wf(),
        !session.closed,
        synchronized_after(stream, n),
        payload.len() == 2518,
    ensures
        forall|m: int|
            0 <= m < n ==> (#[trigger] session.after_read().after_bytes(stream, m)).wanted() == 1,
        session.after_read().after_bytes(stream, n).wanted() == 2518,
        session.after_read().after_bytes(stream, n).after_receive(payload) == (LaserView {
            sync: SyncState::SeekFirstMarker,
            frame: seq![0xFAu8, 0xA0u8] + payload,
            rpms: decoded(seq![0xFAu8, 0xA0u8] + payload).rpms,
            ..session
        }),
{
    assert forall|m: int| 0 <= m < n implies (#[trigger] session.after_read().after_bytes(
        stream,
        m,
    )).wanted() == 1 by {
        lemma_read_follows_synchronizer(session, stream, m);
    }
    lemma_read_follows_synchronizer(session, stream, n);
    lemma_frame_starts_with_markers(session.after_read().after_bytes(stream, n), payload);
}

} // verus!
