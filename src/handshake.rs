//! The peer handshake frame: `len | protocol | reserved | info_hash | peer_id`.
use vstd::prelude::*;

use crate::bytes::{copy_range, push_range};

verus! {

/// Length of the protocol name sent by this client.
pub const PROTOCOL_NAME_LEN: u8 = 19;

/// Length of an info hash and of a peer id.
pub const ID_LEN: usize = 20;

/// Length of the reserved field.
pub const RESERVED_LEN: usize = 8;

/// The opening message that two peers exchange before anything else.
#[derive(Debug)]
pub struct Handshake {
    pub protocol_string_length: u8,
    pub protocol: Vec<u8>,
    pub reserved: [u8; 8],
    pub info_hash: Vec<u8>,
    pub peer_id: Vec<u8>,
}

/// The fields of a handshake as mathematical sequences.
pub struct HandshakeView {
    pub protocol_string_length: u8,
    pub protocol: Seq<u8>,
    pub reserved: Seq<u8>,
    pub info_hash: Seq<u8>,
    pub peer_id: Seq<u8>,
}

/// The buffer handed to `Handshake::from_bytes` is shorter than the frame
/// that its length prefix announces.
#[derive(Debug, PartialEq, Eq, Structural)]
pub struct HandshakeDecodeError {
    /// Bytes the frame needs (1 when not even the prefix is there).
    pub needed: usize,
    /// Bytes that were supplied.
    pub available: usize,
}

impl View for Handshake {
    type V = HandshakeView;

    open spec fn view(&self) -> HandshakeView {
        HandshakeView {
            protocol_string_length: self.protocol_string_length,
            protocol: self.protocol@,
            reserved: self.reserved@,
            info_hash: self.info_hash@,
            peer_id: self.peer_id@,
        }
    }
}

/// The canonical protocol name, "BitTorrent protocol".
pub open spec fn protocol_name() -> Seq<u8> {
    seq![
        66u8, 105u8, 116u8, 84u8, 111u8, 114u8, 114u8, 101u8, 110u8, 116u8, 32u8,
        112u8, 114u8, 111u8, 116u8, 111u8, 99u8, 111u8, 108u8,
    ]
}

impl HandshakeView {
    /// A handshake whose fields have the lengths that the frame layout fixes.
    pub open spec fn valid(self) -> bool {
        &&& self.protocol.len() == self.protocol_string_length as nat
        &&& self.reserved.len() == RESERVED_LEN
        &&& self.info_hash.len() == ID_LEN
        &&& self.peer_id.len() == ID_LEN
    }

    /// The wire form: the fields concatenated in frame order.
    pub open spec fn encoded(self) -> Seq<u8> {
        seq![self.protocol_string_length] + self.protocol + self.reserved + self.info_hash
            + self.peer_id
    }
}

/// Number of bytes of the frame whose first byte is `prefix`.
pub open spec fn frame_len(prefix: u8) -> int {
    1 + prefix + 48
}

/// The handshake at the front of `b`, if `b` holds a whole frame.
/// Bytes after the frame are not part of it.
pub open spec fn decode_frame(b: Seq<u8>) -> Option<HandshakeView> {
    if b.len() == 0 || b.len() < frame_len(b[0]) {
        None
    } else {
        let n = b[0] as int;
        Some(
            HandshakeView {
                protocol_string_length: b[0],
                protocol: b.subrange(1, 1 + n),
                reserved: b.subrange(1 + n, 9 + n),
                info_hash: b.subrange(9 + n, 29 + n),
                peer_id: b.subrange(29 + n, 49 + n),
            },
        )
    }
}

/// Decoding the encoding of a valid handshake gives the handshake back.
pub proof fn lemma_handshake_round_trip(h: HandshakeView)
    requires
        h.valid(),
    ensures
        h.encoded().len() == frame_len(h.protocol_string_length),
        decode_frame(h.encoded()) == Some(h),
{
    let b = h.encoded();
    let n = h.protocol_string_length as int;
    assert(b[0] == h.protocol_string_length);
    assert(b.subrange(1, 1 + n) =~= h.protocol);
    assert(b.subrange(1 + n, 9 + n) =~= h.reserved);
    assert(b.subrange(9 + n, 29 + n) =~= h.info_hash);
    assert(b.subrange(29 + n, 49 + n) =~= h.peer_id);
}

impl Handshake {
    /// The handshake this client sends: the canonical protocol name, a zero
    /// reserved field, and the given info hash and peer id.
    pub fn new(info_hash: &Vec<u8>, peer_id: &Vec<u8>) -> (h: Handshake)
        ensures
            h@.protocol_string_length == PROTOCOL_NAME_LEN,
            h@.protocol == protocol_name(),
            h@.reserved == Seq::new(8, |i: int| 0u8),
            h@.info_hash == info_hash@,
            h@.peer_id == peer_id@,
            info_hash@.len() == ID_LEN && peer_id@.len() == ID_LEN ==> h@.valid(),
    {
        let protocol: Vec<u8> = vec![
            66u8, 105u8, 116u8, 84u8, 111u8, 114u8, 114u8, 101u8, 110u8, 116u8, 32u8,
            112u8, 114u8, 111u8, 116u8, 111u8, 99u8, 111u8, 108u8,
        ];
        let h = Handshake {
            protocol_string_length: PROTOCOL_NAME_LEN,
            protocol,
            reserved: [0u8; 8],
            info_hash: info_hash.clone(),
            peer_id: peer_id.clone(),
        };
        assert(h@.protocol =~= protocol_name());
        assert(h@.reserved =~= Seq::new(8, |i: int| 0u8));
        h
    }

    /// The wire form of this handshake.
    pub fn to_bytes(&self) -> (r: Vec<u8>)
        ensures
            r@ == self@.encoded(),
    {
        let mut data: Vec<u8> = Vec::new();
        data.push(self.protocol_string_length);
        push_range(&mut data, self.protocol.as_slice(), 0, self.protocol.len());
        push_range(&mut data, self.reserved.as_slice(), 0, RESERVED_LEN);
        push_range(&mut data, self.info_hash.as_slice(), 0, self.info_hash.len());
        push_range(&mut data, self.peer_id.as_slice(), 0, self.peer_id.len());
        assert(self.protocol@.subrange(0, self.protocol@.len() as int) =~= self.protocol@);
        assert(self.reserved@.subrange(0, 8) =~= self.reserved@);
        assert(self.info_hash@.subrange(0, self.info_hash@.len() as int) =~= self.info_hash@);
        assert(self.peer_id@.subrange(0, self.peer_id@.len() as int) =~= self.peer_id@);
        assert(data@ =~= self@.encoded());
        data
    }

    /// Reads the handshake at the front of `data`, driven by its length
    /// prefix; fails when `data` is shorter than the frame.
    pub fn from_bytes(data: &[u8]) -> (r: Result<Handshake, HandshakeDecodeError>)
        ensures
            match r {
                Ok(h) => decode_frame(data@) == Some(h@),
                Err(e) => {
                    &&& decode_frame(data@) is None
                    &&& e.available == data@.len()
                    &&& e.needed == (if data@.len() == 0 { 1 } else { frame_len(data@[0]) })
                },
            },
    {
        if data.len() == 0 {
            return Err(HandshakeDecodeError { needed: 1, available: 0 });
        }
        let n = data[0] as usize;
        let needed = 1 + n + 48;
        if data.len() < needed {
            return Err(HandshakeDecodeError { needed, available: data.len() });
        }
        let protocol = copy_range(data, 1, 1 + n);
        let reserved: [u8; 8] = [
            data[1 + n],
            data[2 + n],
            data[3 + n],
            data[4 + n],
            data[5 + n],
            data[6 + n],
            data[7 + n],
            data[8 + n],
        ];
        let info_hash = copy_range(data, 9 + n, 29 + n);
        let peer_id = copy_range(data, 29 + n, 49 + n);
        let h = Handshake { protocol_string_length: data[0], protocol, reserved, info_hash, peer_id };
        assert(h@.reserved =~= data@.subrange(1 + n, 9 + n));
        Ok(h)
    }
}

} // verus!
