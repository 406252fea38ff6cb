//! The decisions of one connection attempt to a peer, as a state machine:
//! the caller performs each action (connect, send, read, close) and hands
//! back what happened.
use vstd::prelude::*;

use crate::bytes::bytes_eq;
use crate::handshake::{decode_frame, frame_len, protocol_name, Handshake, HandshakeView};

verus! {

/// Why an attempt ended without a usable connection.
#[derive(Debug, Clone, Copy, PartialEq, Eq, Structural)]
pub enum PeerFault {
    /// The connection could not be opened.
    ConnectFailed,
    /// Our handshake could not be sent.
    SendFailed,
    /// Reading the peer's handshake failed.
    ReadFailed,
    /// The peer closed the connection before its handshake was complete.
    Truncated,
    /// The peer's handshake carries another info hash.
    InfoHashMismatch,
    /// The peer's handshake carries another peer id than the tracker gave.
    PeerIdMismatch,
}

impl PeerFault {
    /// Whether the fault is a rejection of a handshake that did arrive.
    pub fn is_rejection(&self) -> (r: bool)
        ensures
            r == (*self == PeerFault::InfoHashMismatch || *self == PeerFault::PeerIdMismatch),
    {
        match self {
            PeerFault::InfoHashMismatch => true,
            PeerFault::PeerIdMismatch => true,
            _ => false,
        }
    }
}

/// Where an attempt stands. A received handshake is validated in the step
/// that completes it, so the attempt goes from `HandshakeSent` straight to
/// one of the two final states.
#[derive(Debug, Clone, Copy, PartialEq, Eq, Structural)]
pub enum PeerState {
    Disconnected,
    Connecting,
    HandshakeSent,
    /// Final: the connection is open and the peer is the one expected.
    Validated,
    /// Final: the attempt failed for the reason held.
    Rejected(PeerFault),
}

/// What happened since the last action.
#[derive(Debug)]
pub enum PeerEvent {
    /// Begin the attempt.
    Start,
    Connected,
    ConnectFailed,
    Sent,
    SendFailed,
    /// Bytes read from the peer; empty when the peer closed the connection.
    Received(Vec<u8>),
    ReadFailed,
}

/// What the caller does next.
#[derive(Debug, PartialEq, Eq)]
pub enum PeerAction {
    /// Open a connection to the peer.
    Connect,
    /// Send these bytes, before reading anything.
    Send(Vec<u8>),
    /// Read at most this many bytes.
    Read(usize),
    /// Close the connection: the attempt failed.
    Close,
    /// The connection is validated: hand it over.
    HandOver,
    /// Nothing to do.
    Nothing,
}

/// The handshake this client sends for `info_hash` and `peer_id`.
pub open spec fn local_handshake(info_hash: Seq<u8>, peer_id: Seq<u8>) -> HandshakeView {
    HandshakeView {
        protocol_string_length: 19,
        protocol: protocol_name(),
        reserved: Seq::new(8, |i: int| 0u8),
        info_hash,
        peer_id,
    }
}

/// What a received handshake must satisfy: the info hash must be the expected
/// one, and so must the peer id when one is expected.
pub open spec fn validation(info_hash: Seq<u8>, expected_peer_id: Seq<u8>, h: HandshakeView) -> Result<
    (),
    PeerFault,
> {
    if h.info_hash != info_hash {
        Err(PeerFault::InfoHashMismatch)
    } else if expected_peer_id.len() > 0 && h.peer_id != expected_peer_id {
        Err(PeerFault::PeerIdMismatch)
    } else {
        Ok(())
    }
}

/// Bytes that the frame at the front of `buf` needs in all: one for the
/// length prefix until it is there.
pub open spec fn frame_need(buf: Seq<u8>) -> int {
    if buf.len() == 0 {
        1
    } else {
        frame_len(buf[0])
    }
}

/// Holds a received handshake against the expected info hash and peer id.
pub fn validate_handshake(info_hash: &[u8], expected_peer_id: &[u8], received: &Handshake) -> (r:
    Result<(), PeerFault>)
    ensures
        r == validation(info_hash@, expected_peer_id@, received@),
{
    if !bytes_eq(received.info_hash.as_slice(), info_hash) {
        return Err(PeerFault::InfoHashMismatch);
    }
    if expected_peer_id.len() > 0 && !bytes_eq(received.peer_id.as_slice(), expected_peer_id) {
        return Err(PeerFault::PeerIdMismatch);
    }
    Ok(())
}

/// One connection attempt to one peer.
#[derive(Debug)]
pub struct PeerSession {
    state: PeerState,
    info_hash: Vec<u8>,
    local_peer_id: Vec<u8>,
    expected_peer_id: Vec<u8>,
    received: Vec<u8>,
}

impl PeerSession {
    /// While our handshake is out, the bytes kept never hold a whole frame:
    /// a whole frame ends the attempt.
    #[verifier::type_invariant]
    spec fn inv(&self) -> bool {
        self.state is HandshakeSent ==> decode_frame(self.received@) is None
    }

    pub closed spec fn spec_state(&self) -> PeerState {
        self.state
    }

    pub closed spec fn spec_info_hash(&self) -> Seq<u8> {
        self.info_hash@
    }

    pub closed spec fn spec_local_peer_id(&self) -> Seq<u8> {
        self.local_peer_id@
    }

    pub closed spec fn spec_expected_peer_id(&self) -> Seq<u8> {
        self.expected_peer_id@
    }

    /// The bytes of the peer's handshake read so far.
    pub closed spec fn spec_received(&self) -> Seq<u8> {
        self.received@
    }

    /// An attempt for the torrent `info_hash`, as `local_peer_id`, to a peer
    /// that the tracker listed with `expected_peer_id` (empty if none).
    pub fn new(info_hash: &Vec<u8>, local_peer_id: &Vec<u8>, expected_peer_id: &Vec<u8>) -> (s:
        PeerSession)
        ensures
            s.spec_state() == PeerState::Disconnected,
            s.spec_info_hash() == info_hash@,
            s.spec_local_peer_id() == local_peer_id@,
            s.spec_expected_peer_id() == expected_peer_id@,
            s.spec_received().len() == 0,
    {
        PeerSession {
            state: PeerState::Disconnected,
            info_hash: info_hash.clone(),
            local_peer_id: local_peer_id.clone(),
            expected_peer_id: expected_peer_id.clone(),
            received: Vec::new(),
        }
    }

    /// Where the attempt stands.
    pub fn state(&self) -> (r: PeerState)
        ensures
            r == self.spec_state(),
    {
        self.state
    }

    /// Whether the attempt has ended, validated or rejected.
    pub fn is_finished(&self) -> (r: bool)
        ensures
            r == (self.spec_state() is Validated || self.spec_state() is Rejected),
    {
        match self.state {
            PeerState::Validated => true,
            PeerState::Rejected(_) => true,
            _ => false,
        }
    }

    /// Advances the attempt by one event and says what to do next. Events
    /// that do not fit the current state change nothing; a final state is
    /// never left.
    pub fn step(&mut self, event: PeerEvent) -> (action: PeerAction)
        ensures
            final(self).spec_info_hash() == old(self).spec_info_hash(),
            final(self).spec_local_peer_id() == old(self).spec_local_peer_id(),
            final(self).spec_expected_peer_id() == old(self).spec_expected_peer_id(),
            match (old(self).spec_state(), event) {
                (PeerState::Disconnected, PeerEvent::Start) => {
                    &&& final(self).spec_state() == PeerState::Connecting
                    &&& action == PeerAction::Connect
                },
                (PeerState::Connecting, PeerEvent::Connected) => {
                    &&& final(self).spec_state() == PeerState::HandshakeSent
                    &&& final(self).spec_received().len() == 0
                    &&& action matches PeerAction::Send(b) && b@ == local_handshake(
                        old(self).spec_info_hash(),
                        old(self).spec_local_peer_id(),
                    ).encoded()
                },
                (PeerState::Connecting, PeerEvent::ConnectFailed) => {
                    &&& final(self).spec_state() == PeerState::Rejected(PeerFault::ConnectFailed)
                    &&& action == PeerAction::Nothing
                },
                (PeerState::HandshakeSent, PeerEvent::Sent) => {
                    &&& final(self).spec_state() == PeerState::HandshakeSent
                    &&& final(self).spec_received() == old(self).spec_received()
                    &&& action == PeerAction::Read(
                        (frame_need(old(self).spec_received()) - old(self).spec_received().len()) as usize,
                    )
                },
                (PeerState::HandshakeSent, PeerEvent::SendFailed) => {
                    &&& final(self).spec_state() == PeerState::Rejected(PeerFault::SendFailed)
                    &&& action == PeerAction::Close
                },
                (PeerState::HandshakeSent, PeerEvent::ReadFailed) => {
                    &&& final(self).spec_state() == PeerState::Rejected(PeerFault::ReadFailed)
                    &&& action == PeerAction::Close
                },
                (PeerState::HandshakeSent, PeerEvent::Received(chunk)) => {
                    let buf = old(self).spec_received() + chunk@;
                    if chunk@.len() == 0 {
                        &&& final(self).spec_state() == PeerState::Rejected(PeerFault::Truncated)
                        &&& action == PeerAction::Close
                    } else {
                        match decode_frame(buf) {
                            None => {
                                &&& final(self).spec_state() == PeerState::HandshakeSent
                                &&& final(self).spec_received() == buf
                                &&& action == PeerAction::Read((frame_need(buf) - buf.len()) as usize)
                            },
                            Some(h) => match validation(
                                old(self).spec_info_hash(),
                                old(self).spec_expected_peer_id(),
                                h,
                            ) {
                                Ok(_) => {
                                    &&& final(self).spec_state() == PeerState::Validated
                                    &&& action == PeerAction::HandOver
                                },
                                Err(f) => {
                                    &&& final(self).spec_state() == PeerState::Rejected(f)
                                    &&& action == PeerAction::Close
                                },
                            },
                        }
                    }
                },
                _ => {
                    &&& final(self).spec_state() == old(self).spec_state()
                    &&& final(self).spec_received() == old(self).spec_received()
                    &&& action == PeerAction::Nothing
                },
            },
    {
        proof {
            use_type_invariant(&*self);
        }
        match (self.state, event) {
            (PeerState::Disconnected, PeerEvent::Start) => {
                self.state = PeerState::Connecting;
                PeerAction::Connect
            },
            (PeerState::Connecting, PeerEvent::Connected) => {
                let hs = Handshake::new(&self.info_hash, &self.local_peer_id);
                let bytes = hs.to_bytes();
                self.received = Vec::new();
                self.state = PeerState::HandshakeSent;
                PeerAction::Send(bytes)
            },
            (PeerState::Connecting, PeerEvent::ConnectFailed) => {
                self.state = PeerState::Rejected(PeerFault::ConnectFailed);
                PeerAction::Nothing
            },
            (PeerState::HandshakeSent, PeerEvent::Sent) => PeerAction::Read(self.missing()),
            (PeerState::HandshakeSent, PeerEvent::SendFailed) => {
                self.state = PeerState::Rejected(PeerFault::SendFailed);
                PeerAction::Close
            },
            (PeerState::HandshakeSent, PeerEvent::ReadFailed) => {
                self.state = PeerState::Rejected(PeerFault::ReadFailed);
                PeerAction::Close
            },
            (PeerState::HandshakeSent, PeerEvent::Received(chunk)) => {
                if chunk.len() == 0 {
                    self.state = PeerState::Rejected(PeerFault::Truncated);
                    return PeerAction::Close;
                }
                let mut buf = self.received.clone();
                crate::bytes::push_range(&mut buf, chunk.as_slice(), 0, chunk.len());
                proof {
                    assert(chunk@.subrange(0, chunk@.len() as int) =~= chunk@);
                }
                match Handshake::from_bytes(buf.as_slice()) {
                    Err(_) => {
                        self.received = buf;
                        PeerAction::Read(self.missing())
                    },
                    Ok(h) => {
                        match validate_handshake(
                            self.info_hash.as_slice(),
                            self.expected_peer_id.as_slice(),
                            &h,
                        ) {
                            Ok(()) => {
                                self.state = PeerState::Validated;
                                PeerAction::HandOver
                            },
                            Err(f) => {
                                self.state = PeerState::Rejected(f);
                                PeerAction::Close
                            },
                        }
                    },
                }
            },
            _ => PeerAction::Nothing,
        }
    }

    /// Bytes still missing from the peer's frame.
    fn missing(&self) -> (r: usize)
        requires
            decode_frame(self.received@) is None,
        ensures
            r == frame_need(self.received@) - self.received@.len(),
    {
        if self.received.len() == 0 {
            1
        } else {
            1 + self.received[0] as usize + 48 - self.received.len()
        }
    }
}

} // verus!
