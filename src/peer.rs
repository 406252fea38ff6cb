//! Peers as the tracker lists them, and the compact peer-list format.
use vstd::prelude::*;

use crate::text::{ascii_chars, ascii_string, decimal, is_ascii_bytes, lemma_decimal_ascii, push_decimal};

verus! {

/// A peer that the tracker handed out.
#[derive(Debug)]
pub struct Peer {
    /// The peer's id; empty when the tracker did not give one.
    pub id: Vec<u8>,
    /// The peer's address as text.
    pub ip: String,
    pub port: u16,
}

/// A peer as plain values.
pub struct PeerView {
    pub id: Seq<u8>,
    pub ip: Seq<char>,
    pub port: u16,
}

impl View for Peer {
    type V = PeerView;

    open spec fn view(&self) -> PeerView {
        PeerView { id: self.id@, ip: self.ip@, port: self.port }
    }
}

/// Bytes in one entry of a compact peer list.
pub const COMPACT_PEER_LEN: usize = 6;

/// Dotted-decimal text of the four address bytes at the front of `a`.
pub open spec fn dotted_quad(a: Seq<u8>) -> Seq<u8> {
    decimal(a[0] as nat) + seq![46u8] + decimal(a[1] as nat) + seq![46u8] + decimal(a[2] as nat)
        + seq![46u8] + decimal(a[3] as nat)
}

/// The port held big-endian in two bytes.
pub open spec fn be_port(hi: u8, lo: u8) -> u16 {
    (hi as int * 256 + lo as int) as u16
}

/// The peer held in the six bytes at `6 * k` of a compact list.
pub open spec fn compact_peer(raw: Seq<u8>, k: int) -> PeerView {
    let e = raw.subrange(6 * k, 6 * k + 6);
    PeerView { id: Seq::empty(), ip: ascii_chars(dotted_quad(e)), port: be_port(e[4], e[5]) }
}

/// `ps` is the compact list `raw` decoded: one peer per six bytes, in order.
pub open spec fn compact_peers(raw: Seq<u8>, ps: Seq<PeerView>) -> bool {
    &&& raw.len() % 6 == 0
    &&& ps.len() == raw.len() / 6
    &&& forall|k: int| 0 <= k < ps.len() ==> #[trigger] ps[k] == compact_peer(raw, k)
}

/// The text of `host:port`.
pub open spec fn address_of(p: PeerView) -> Seq<char> {
    p.ip + ascii_chars(seq![58u8] + decimal(p.port as nat))
}

impl Peer {
    /// `ip:port`, the address to connect to.
    pub fn address(&self) -> (r: String)
        ensures
            r@ == address_of(self@),
    {
        let mut suffix: Vec<u8> = Vec::new();
        suffix.push(58u8);
        push_decimal(&mut suffix, self.port as u64);
        proof {
            lemma_decimal_ascii(self.port as nat);
            assert(suffix@ =~= seq![58u8] + decimal(self.port as nat));
        }
        let tail = ascii_string(suffix);
        let mut r = self.ip.clone();
        r.append(tail.as_str());
        r
    }
}

/// Text of the address in `raw[at..at + 4]`.
fn dotted_quad_string(raw: &[u8], at: usize) -> (r: String)
    requires
        at + 4 <= raw@.len(),
    ensures
        r@ == ascii_chars(dotted_quad(raw@.subrange(at as int, at + 4))),
{
    let ghost a = raw@.subrange(at as int, at + 4);
    let mut text: Vec<u8> = Vec::new();
    push_decimal(&mut text, raw[at] as u64);
    text.push(46u8);
    push_decimal(&mut text, raw[at + 1] as u64);
    text.push(46u8);
    push_decimal(&mut text, raw[at + 2] as u64);
    text.push(46u8);
    push_decimal(&mut text, raw[at + 3] as u64);
    proof {
        assert(text@ =~= dotted_quad(a));
        lemma_decimal_ascii(a[0] as nat);
        lemma_decimal_ascii(a[1] as nat);
        lemma_decimal_ascii(a[2] as nat);
        lemma_decimal_ascii(a[3] as nat);
        assert(is_ascii_bytes(text@));
    }
    ascii_string(text)
}

/// Decodes a compact peer list: each six bytes are an IPv4 address and a
/// big-endian port, and no peer id. `None` when the length is not a
/// multiple of six: nothing is dropped or truncated.
pub fn decode_compact_peers(raw: &[u8]) -> (r: Option<Vec<Peer>>)
    ensures
        r is Some <==> raw@.len() % 6 == 0,
        r matches Some(ps) ==> compact_peers(raw@, ps@.map_values(|p: Peer| p@)),
{
    if raw.len() % COMPACT_PEER_LEN != 0 {
        return None;
    }
    let len = raw.len();
    let count = len / COMPACT_PEER_LEN;
    let mut peers: Vec<Peer> = Vec::new();
    let mut k: usize = 0;
    while k < count
        invariant
            len == raw@.len(),
            raw@.len() % 6 == 0,
            count == raw@.len() / 6,
            k <= count,
            peers@.len() == k,
            forall|j: int| 0 <= j < k ==> #[trigger] peers@[j]@ == compact_peer(raw@, j),
        decreases count - k,
    {
        assert(6 * k + 6 <= raw@.len()) by (nonlinear_arith)
            requires
                k < count,
                count == raw@.len() / 6,
        ;
        let at: usize = 6 * k;
        let ip = dotted_quad_string(raw, at);
        let port: u16 = (raw[at + 4] as u16) * 256 + raw[at + 5] as u16;
        let p = Peer { id: Vec::new(), ip, port };
        proof {
            let e = raw@.subrange(6 * k, 6 * k + 6);
            assert(e.subrange(0, 4) =~= raw@.subrange(at as int, at + 4));
            assert(p@.id =~= Seq::<u8>::empty());
            assert(p@ == compact_peer(raw@, k as int));
        }
        peers.push(p);
        k = k + 1;
    }
    proof {
        let v = peers@.map_values(|p: Peer| p@);
        assert forall|j: int| 0 <= j < v.len() implies #[trigger] v[j] == compact_peer(raw@, j) by {
            assert(v[j] == peers@[j]@);
        }
    }
    Some(peers)
}

} // verus!
