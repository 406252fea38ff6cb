//! Bootstrap phase of a BitTorrent client: the torrent descriptor, its info
//! hash, the tracker announce, the two peer-list formats and the peer
//! handshake, each with the contract that its behaviour is proved against.

pub mod bencode;
mod bytes;
pub mod connector;
pub mod handshake;
pub mod info;
pub mod metainfo;
pub mod peer;
pub mod peer_id;
pub mod text;
pub mod tracker;

pub use bencode::Bencode;
pub use connector::{PeerAction, PeerEvent, PeerFault, PeerSession, PeerState};
pub use handshake::{Handshake, HandshakeDecodeError, HandshakeView};
pub use info::{ContentIdentifier, DescriptorError, File, Info};
pub use metainfo::MetaInfo;
pub use peer::Peer;
pub use peer_id::generate_peer_id;
pub use tracker::{TrackerError, TrackerResponse};
