//! The tracker's answer to an announce: its fields, and the peer list in
//! either of its two wire shapes.
use vstd::prelude::*;

use crate::bencode::{
    canonical_digits, decode, dict_get, digits_value, enc, is_digit, lemma_digits_value_prefix, lookup,
    nesting_within, Bencode, MAX_DEPTH,
};
use crate::info::{ContentIdentifier, DescriptorError};
use crate::metainfo::{bytes_of, http_scheme, opt_owned, text_of, tracker_url_with, MetaInfo};
use crate::peer::{compact_peers, decode_compact_peers, Peer, PeerView};
use crate::text::utf8_text;

verus! {

/// Why an announce failed.
#[derive(Debug, PartialEq, Eq)]
pub enum TrackerError {
    /// The tracker URL (held here) does not use HTTP or HTTPS.
    UnsupportedProtocol(String),
    /// The tracker could not be reached or did not answer.
    Transport(String),
    /// The tracker answered with this failure reason.
    Failure(String),
    /// The answer is not a well-formed tracker response.
    MalformedResponse,
    /// The compact peer list is not a whole number of six-byte entries.
    MalformedPeers,
    /// The request could not be built from the descriptor.
    Descriptor(DescriptorError),
}

impl TrackerError {
    /// The errors in what the tracker sent back, as opposed to reaching it.
    pub fn is_protocol_error(&self) -> (r: bool)
        ensures
            r == (self is Failure || self is MalformedResponse || self is MalformedPeers),
    {
        match self {
            TrackerError::Failure(_) => true,
            TrackerError::MalformedResponse => true,
            TrackerError::MalformedPeers => true,
            _ => false,
        }
    }
}

/// The views of a list of peers.
pub open spec fn peers_view(ps: Seq<Peer>) -> Seq<PeerView> {
    ps.map_values(|p: Peer| p@)
}

pub open spec fn key_peer_id() -> Seq<u8> {
    seq![112u8, 101u8, 101u8, 114u8, 32u8, 105u8, 100u8]
}

pub open spec fn key_ip() -> Seq<u8> {
    seq![105u8, 112u8]
}

pub open spec fn key_port() -> Seq<u8> {
    seq![112u8, 111u8, 114u8, 116u8]
}

/// A port written as canonical decimal text.
pub open spec fn port_text_value(s: Seq<u8>) -> Option<u16> {
    if canonical_digits(s) && digits_value(s) <= 65535 {
        Some(digits_value(s) as u16)
    } else {
        None
    }
}

/// A port given as decimal text or as an integer.
pub open spec fn port_of(v: Option<Bencode>) -> Option<u16> {
    match v {
        Some(Bencode::Int(n)) => if 0 <= n <= 65535 {
            Some(n as u16)
        } else {
            None
        },
        Some(Bencode::Bytes(b)) => port_text_value(b@),
        _ => None,
    }
}

/// A peer dictionary: `peer id`, `ip` and `port`.
pub open spec fn peer_of(v: Bencode) -> Option<PeerView> {
    match v {
        Bencode::Dict(e) => {
            let id = bytes_of(lookup(e@, key_peer_id()));
            let ip = text_of(lookup(e@, key_ip()));
            let port = port_of(lookup(e@, key_port()));
            if id is Some && ip is Some && port is Some {
                Some(PeerView { id: id->0, ip: ip->0, port: port->0 })
            } else {
                None
            }
        },
        _ => None,
    }
}

/// A list of peer dictionaries: the dictionary model of a peer list.
pub open spec fn dict_peers_of(v: Bencode) -> Option<Seq<PeerView>> {
    match v {
        Bencode::List(items) => if forall|i: int|
            0 <= i < items@.len() ==> #[trigger] peer_of(items@[i]) is Some {
            Some(Seq::new(items@.len(), |i: int| peer_of(items@[i])->0))
        } else {
            None
        },
        _ => None,
    }
}

/// `ps` is what the raw peer bytes `raw` hold, in the dictionary model or
/// in the compact model.
pub open spec fn peers_decoded(raw: Seq<u8>, ps: Seq<PeerView>) -> bool {
    ||| exists|v: Bencode| enc(v) == raw && #[trigger] dict_peers_of(v) == Some(ps)
    ||| compact_peers(raw, ps)
}

/// Reads a port written as decimal text.
fn parse_port_text(b: &[u8]) -> (r: Option<u16>)
    ensures
        r == port_text_value(b@),
{
    let len = b.len();
    if len == 0 || (len > 1 && b[0] == 48) {
        return None;
    }
    let mut n: u32 = 0;
    let mut i: usize = 0;
    while i < len
        invariant
            len == b@.len(),
            len >= 1,
            len > 1 ==> b@[0] != 48u8,
            i <= len,
            n <= 65535,
            n == digits_value(b@.subrange(0, i as int)),
            forall|k: int| 0 <= k < i ==> is_digit(#[trigger] b@[k]),
        decreases len - i,
    {
        if b[i] < 48 || b[i] > 57 {
            assert(!is_digit(b@[i as int]));
            return None;
        }
        assert(b@.subrange(0, i + 1).drop_last() =~= b@.subrange(0, i as int));
        n = n * 10 + (b[i] - 48) as u32;
        i = i + 1;
        if n > 65535 {
            proof {
                if canonical_digits(b@) {
                    lemma_digits_value_prefix(b@, i as int);
                }
            }
            return None;
        }
    }
    assert(b@.subrange(0, len as int) =~= b@);
    Some(n as u16)
}

fn get_port(v: Option<&Bencode>) -> (r: Option<u16>)
    ensures
        r == port_of(opt_owned(v)),
{
    match v {
        Some(Bencode::Int(n)) => {
            if 0 <= *n && *n <= 65535 {
                Some(*n as u16)
            } else {
                None
            }
        },
        Some(Bencode::Bytes(b)) => parse_port_text(b.as_slice()),
        _ => None,
    }
}

fn key_vec(k: u8) -> (r: Vec<u8>)
    requires
        k < 3,
    ensures
        k == 0 ==> r@ == key_peer_id(),
        k == 1 ==> r@ == key_ip(),
        k == 2 ==> r@ == key_port(),
{
    let r = if k == 0 {
        vec![112u8, 101u8, 101u8, 114u8, 32u8, 105u8, 100u8]
    } else if k == 1 {
        vec![105u8, 112u8]
    } else {
        vec![112u8, 111u8, 114u8, 116u8]
    };
    assert(k == 0 ==> r@ =~= key_peer_id());
    assert(k == 1 ==> r@ =~= key_ip());
    assert(k == 2 ==> r@ =~= key_port());
    r
}

fn get_peer(v: &Bencode) -> (r: Option<Peer>)
    ensures
        match r {
            Some(p) => peer_of(*v) == Some(p@),
            None => peer_of(*v) is None,
        },
{
    match v {
        Bencode::Dict(e) => {
            let id = match dict_get(e, key_vec(0).as_slice()) {
                Some(Bencode::Bytes(b)) => Some(b.clone()),
                _ => None,
            };
            let ip = match dict_get(e, key_vec(1).as_slice()) {
                Some(Bencode::Bytes(b)) => utf8_text(b),
                _ => None,
            };
            let port = get_port(dict_get(e, key_vec(2).as_slice()));
            match (id, ip, port) {
                (Some(id), Some(ip), Some(port)) => Some(Peer { id, ip, port }),
                _ => None,
            }
        },
        _ => None,
    }
}

/// Reads a peer list in the dictionary model from a decoded value.
pub fn peers_from_value(v: &Bencode) -> (r: Option<Vec<Peer>>)
    ensures
        match r {
            Some(ps) => dict_peers_of(*v) == Some(peers_view(ps@)),
            None => dict_peers_of(*v) is None,
        },
{
    match v {
        Bencode::List(items) => {
            let mut out: Vec<Peer> = Vec::new();
            let mut i: usize = 0;
            while i < items.len()
                invariant
                    i <= items@.len(),
                    out@.len() == i,
                    *v == Bencode::List(*items),
                    forall|j: int| 0 <= j < i ==> peer_of(#[trigger] items@[j]) == Some(out@[j]@),
                decreases items@.len() - i,
            {
                match get_peer(&items[i]) {
                    Some(p) => {
                        out.push(p);
                    },
                    None => {
                        assert(peer_of(items@[i as int]) is None);
                        return None;
                    },
                }
                i = i + 1;
            }
            assert(peers_view(out@) =~= Seq::new(items@.len(), |i: int| peer_of(items@[i])->0));
            Some(out)
        },
        _ => None,
    }
}

/// Reads raw peer bytes as a bencoded list of peer dictionaries.
pub fn decode_dict_peers(raw: &[u8]) -> (r: Option<Vec<Peer>>)
    ensures
        r matches Some(ps) ==> exists|v: Bencode|
            enc(v) == raw@ && #[trigger] dict_peers_of(v) == Some(peers_view(ps@)),
        r is None ==> {
            ||| !exists|v: Bencode| #[trigger] enc(v) == raw@ && nesting_within(v, MAX_DEPTH as nat)
            ||| exists|v: Bencode| #[trigger] enc(v) == raw@ && dict_peers_of(v) is None
        },
{
    match decode(raw) {
        Some(v) => peers_from_value(&v),
        None => None,
    }
}

/// Decodes the raw peer bytes of a tracker response: as a bencoded list of
/// peer dictionaries when they parse as one, else as a compact list. A
/// compact list whose length is not a multiple of six is an error, never a
/// partial list.
pub fn decode_peers(raw: &[u8]) -> (r: Result<Vec<Peer>, TrackerError>)
    ensures
        r matches Ok(ps) ==> peers_decoded(raw@, peers_view(ps@)),
        r matches Err(e) ==> e == TrackerError::MalformedPeers && raw@.len() % 6 != 0,
        raw@.len() % 6 == 0 ==> r is Ok,
{
    match decode_dict_peers(raw) {
        Some(ps) => {
            return Ok(ps);
        },
        None => {},
    }
    match decode_compact_peers(raw) {
        Some(ps) => Ok(ps),
        None => Err(TrackerError::MalformedPeers),
    }
}

} // verus!

verus! {

/// The tracker's answer to an announce.
#[derive(Debug)]
pub struct TrackerResponse {
    /// Always absent in a response that was accepted: a failure reason
    /// makes the announce fail instead.
    pub failure_reason: Option<String>,
    pub warning_message: Option<String>,
    /// Seconds to wait between announces.
    pub interval: i64,
    pub min_interval: Option<i64>,
    pub tracker_id: Option<String>,
    /// Number of seeders.
    pub complete: i64,
    /// Number of leechers.
    pub incomplete: i64,
    pub peers: Vec<Peer>,
}

pub open spec fn key_failure_reason() -> Seq<u8> {
    seq![102u8, 97u8, 105u8, 108u8, 117u8, 114u8, 101u8, 32u8, 114u8, 101u8, 97u8, 115u8, 111u8, 110u8]
}

pub open spec fn key_warning_message() -> Seq<u8> {
    seq![119u8, 97u8, 114u8, 110u8, 105u8, 110u8, 103u8, 32u8, 109u8, 101u8, 115u8, 115u8, 97u8, 103u8, 101u8]
}

pub open spec fn key_interval() -> Seq<u8> {
    seq![105u8, 110u8, 116u8, 101u8, 114u8, 118u8, 97u8, 108u8]
}

pub open spec fn key_min_interval() -> Seq<u8> {
    seq![109u8, 105u8, 110u8, 32u8, 105u8, 110u8, 116u8, 101u8, 114u8, 118u8, 97u8, 108u8]
}

pub open spec fn key_tracker_id() -> Seq<u8> {
    seq![116u8, 114u8, 97u8, 99u8, 107u8, 101u8, 114u8, 32u8, 105u8, 100u8]
}

pub open spec fn key_complete() -> Seq<u8> {
    seq![99u8, 111u8, 109u8, 112u8, 108u8, 101u8, 116u8, 101u8]
}

pub open spec fn key_incomplete() -> Seq<u8> {
    seq![105u8, 110u8, 99u8, 111u8, 109u8, 112u8, 108u8, 101u8, 116u8, 101u8]
}

pub open spec fn key_peers() -> Seq<u8> {
    seq![112u8, 101u8, 101u8, 114u8, 115u8]
}

/// An optional text field: absent, or a byte string holding UTF-8.
/// `None` when it is present with another shape.
pub open spec fn opt_text_field(v: Option<Bencode>) -> Option<Option<Seq<char>>> {
    match v {
        None => Some(None),
        Some(x) => match text_of(Some(x)) {
            Some(t) => Some(Some(t)),
            None => None,
        },
    }
}

/// An optional integer field. `None` when it is present and not an integer.
pub open spec fn opt_int_field(v: Option<Bencode>) -> Option<Option<i64>> {
    match v {
        None => Some(None),
        Some(Bencode::Int(n)) => Some(Some(n)),
        _ => None,
    }
}

/// An integer field that is 0 when absent. `None` when it is present and
/// not an integer.
pub open spec fn int_or_zero(v: Option<Bencode>) -> Option<i64> {
    match v {
        None => Some(0),
        Some(Bencode::Int(n)) => Some(n),
        _ => None,
    }
}

pub open spec fn opt_string_view(s: Option<String>) -> Option<Seq<char>> {
    match s {
        Some(x) => Some(x@),
        None => None,
    }
}

/// The peers of a response: none when the key is absent, the raw bytes of
/// a byte string decoded by either model, or a list of peer dictionaries.
pub open spec fn peers_field(v: Option<Bencode>, ps: Seq<PeerView>) -> bool {
    match v {
        None => ps.len() == 0,
        Some(Bencode::Bytes(raw)) => peers_decoded(raw@, ps),
        Some(Bencode::List(items)) => dict_peers_of(Bencode::List(items)) == Some(ps),
        _ => false,
    }
}

/// A peers value of the wrong shape: neither a byte string nor a list of
/// peer dictionaries.
pub open spec fn peers_malformed(v: Option<Bencode>) -> bool {
    match v {
        None => false,
        Some(Bencode::Bytes(_)) => false,
        Some(Bencode::List(items)) => dict_peers_of(Bencode::List(items)) is None,
        _ => true,
    }
}

/// The entries hold a field of the wrong shape: a failure reason that is
/// not text, or, without a failure reason, any other known field.
pub open spec fn response_malformed(e: Seq<(Vec<u8>, Bencode)>) -> bool {
    if lookup(e, key_failure_reason()) is Some {
        text_of(lookup(e, key_failure_reason())) is None
    } else {
        ||| opt_text_field(lookup(e, key_warning_message())) is None
        ||| int_or_zero(lookup(e, key_interval())) is None
        ||| opt_int_field(lookup(e, key_min_interval())) is None
        ||| opt_text_field(lookup(e, key_tracker_id())) is None
        ||| int_or_zero(lookup(e, key_complete())) is None
        ||| int_or_zero(lookup(e, key_incomplete())) is None
        ||| peers_malformed(lookup(e, key_peers()))
    }
}

/// `r` is the response that the dictionary entries `e` describe.
pub open spec fn response_matches(e: Seq<(Vec<u8>, Bencode)>, r: TrackerResponse) -> bool {
    &&& lookup(e, key_failure_reason()) is None
    &&& r.failure_reason is None
    &&& opt_text_field(lookup(e, key_warning_message())) == Some(opt_string_view(r.warning_message))
    &&& int_or_zero(lookup(e, key_interval())) == Some(r.interval)
    &&& opt_int_field(lookup(e, key_min_interval())) == Some(r.min_interval)
    &&& opt_text_field(lookup(e, key_tracker_id())) == Some(opt_string_view(r.tracker_id))
    &&& int_or_zero(lookup(e, key_complete())) == Some(r.complete)
    &&& int_or_zero(lookup(e, key_incomplete())) == Some(r.incomplete)
    &&& peers_field(lookup(e, key_peers()), peers_view(r.peers@))
}

fn response_key(k: u8) -> (r: Vec<u8>)
    requires
        k < 8,
    ensures
        k == 0 ==> r@ == key_failure_reason(),
        k == 1 ==> r@ == key_warning_message(),
        k == 2 ==> r@ == key_interval(),
        k == 3 ==> r@ == key_min_interval(),
        k == 4 ==> r@ == key_tracker_id(),
        k == 5 ==> r@ == key_complete(),
        k == 6 ==> r@ == key_incomplete(),
        k == 7 ==> r@ == key_peers(),
{
    let r = if k == 0 {
        vec![102u8, 97u8, 105u8, 108u8, 117u8, 114u8, 101u8, 32u8, 114u8, 101u8, 97u8, 115u8, 111u8, 110u8]
    } else if k == 1 {
        vec![119u8, 97u8, 114u8, 110u8, 105u8, 110u8, 103u8, 32u8, 109u8, 101u8, 115u8, 115u8, 97u8, 103u8, 101u8]
    } else if k == 2 {
        vec![105u8, 110u8, 116u8, 101u8, 114u8, 118u8, 97u8, 108u8]
    } else if k == 3 {
        vec![109u8, 105u8, 110u8, 32u8, 105u8, 110u8, 116u8, 101u8, 114u8, 118u8, 97u8, 108u8]
    } else if k == 4 {
        vec![116u8, 114u8, 97u8, 99u8, 107u8, 101u8, 114u8, 32u8, 105u8, 100u8]
    } else if k == 5 {
        vec![99u8, 111u8, 109u8, 112u8, 108u8, 101u8, 116u8, 101u8]
    } else if k == 6 {
        vec![105u8, 110u8, 99u8, 111u8, 109u8, 112u8, 108u8, 101u8, 116u8, 101u8]
    } else {
        vec![112u8, 101u8, 101u8, 114u8, 115u8]
    };
    assert(k == 0 ==> r@ =~= key_failure_reason());
    assert(k == 1 ==> r@ =~= key_warning_message());
    assert(k == 2 ==> r@ =~= key_interval());
    assert(k == 3 ==> r@ =~= key_min_interval());
    assert(k == 4 ==> r@ =~= key_tracker_id());
    assert(k == 5 ==> r@ =~= key_complete());
    assert(k == 6 ==> r@ =~= key_incomplete());
    assert(k == 7 ==> r@ =~= key_peers());
    r
}

fn get_opt_text(v: Option<&Bencode>) -> (r: Option<Option<String>>)
    ensures
        match r {
            Some(s) => opt_text_field(opt_owned(v)) == Some(opt_string_view(s)),
            None => opt_text_field(opt_owned(v)) is None,
        },
{
    match v {
        None => Some(None),
        Some(Bencode::Bytes(b)) => match utf8_text(b) {
            Some(s) => Some(Some(s)),
            None => None,
        },
        _ => None,
    }
}

fn get_opt_int(v: Option<&Bencode>) -> (r: Option<Option<i64>>)
    ensures
        r == opt_int_field(opt_owned(v)),
{
    match v {
        None => Some(None),
        Some(Bencode::Int(n)) => Some(Some(*n)),
        _ => None,
    }
}

fn get_peers_field(v: Option<&Bencode>) -> (r: Result<Vec<Peer>, TrackerError>)
    ensures
        match r {
            Ok(ps) => peers_field(opt_owned(v), peers_view(ps@)),
            Err(TrackerError::MalformedPeers) => (bytes_of(opt_owned(v)) matches Some(raw) && raw.len() % 6 != 0),
            Err(TrackerError::MalformedResponse) => peers_malformed(opt_owned(v)),
            Err(_) => false,
        },
{
    match v {
        None => {
            let ps: Vec<Peer> = Vec::new();
            assert(peers_view(ps@) =~= Seq::<PeerView>::empty());
            Ok(ps)
        },
        Some(Bencode::Bytes(raw)) => decode_peers(raw.as_slice()),
        Some(Bencode::List(items)) => match peers_from_value(v.unwrap()) {
            Some(ps) => Ok(ps),
            None => Err(TrackerError::MalformedResponse),
        },
        _ => Err(TrackerError::MalformedResponse),
    }
}

impl TrackerResponse {
    /// Reads a response from the entries of its dictionary. A failure
    /// reason, when the tracker gives one, is the error.
    pub fn from_entries(e: &Vec<(Vec<u8>, Bencode)>) -> (r: Result<TrackerResponse, TrackerError>)
        ensures
            match r {
                Ok(resp) => response_matches(e@, resp),
                Err(TrackerError::Failure(reason)) => text_of(lookup(e@, key_failure_reason()))
                    == Some(reason@),
                Err(TrackerError::MalformedPeers) => {
                    &&& lookup(e@, key_failure_reason()) is None
                    &&& (bytes_of(lookup(e@, key_peers())) matches Some(raw) && raw.len() % 6 != 0)
                },
                Err(TrackerError::MalformedResponse) => response_malformed(e@),
                Err(_) => false,
            },
    {
        match dict_get(e, response_key(0).as_slice()) {
            Some(Bencode::Bytes(b)) => {
                return match utf8_text(b) {
                    Some(reason) => Err(TrackerError::Failure(reason)),
                    None => Err(TrackerError::MalformedResponse),
                };
            },
            Some(_) => {
                return Err(TrackerError::MalformedResponse);
            },
            None => {},
        }
        let warning_message = match get_opt_text(dict_get(e, response_key(1).as_slice())) {
            Some(w) => w,
            None => {
                return Err(TrackerError::MalformedResponse);
            },
        };
        let interval = match get_opt_int(dict_get(e, response_key(2).as_slice())) {
            Some(Some(n)) => n,
            Some(None) => 0,
            None => {
                return Err(TrackerError::MalformedResponse);
            },
        };
        let min_interval = match get_opt_int(dict_get(e, response_key(3).as_slice())) {
            Some(m) => m,
            None => {
                return Err(TrackerError::MalformedResponse);
            },
        };
        let tracker_id = match get_opt_text(dict_get(e, response_key(4).as_slice())) {
            Some(t) => t,
            None => {
                return Err(TrackerError::MalformedResponse);
            },
        };
        let complete = match get_opt_int(dict_get(e, response_key(5).as_slice())) {
            Some(Some(n)) => n,
            Some(None) => 0,
            None => {
                return Err(TrackerError::MalformedResponse);
            },
        };
        let incomplete = match get_opt_int(dict_get(e, response_key(6).as_slice())) {
            Some(Some(n)) => n,
            Some(None) => 0,
            None => {
                return Err(TrackerError::MalformedResponse);
            },
        };
        let peers = match get_peers_field(dict_get(e, response_key(7).as_slice())) {
            Ok(ps) => ps,
            Err(err) => {
                return Err(err);
            },
        };
        Ok(
            TrackerResponse {
                failure_reason: None,
                warning_message,
                interval,
                min_interval,
                tracker_id,
                complete,
                incomplete,
                peers,
            },
        )
    }

    /// Reads a response from the body that the tracker sent back.
    pub fn from_bencode(body: &[u8]) -> (r: Result<TrackerResponse, TrackerError>)
        ensures
            match r {
                Ok(resp) => exists|e: Vec<(Vec<u8>, Bencode)>|
                    #[trigger] enc(Bencode::Dict(e)) == body@ && response_matches(e@, resp),
                Err(TrackerError::Failure(reason)) => exists|e: Vec<(Vec<u8>, Bencode)>|
                    #[trigger] enc(Bencode::Dict(e)) == body@ && text_of(
                        lookup(e@, key_failure_reason()),
                    ) == Some(reason@),
                Err(TrackerError::MalformedPeers) => exists|e: Vec<(Vec<u8>, Bencode)>|
                    #[trigger] enc(Bencode::Dict(e)) == body@ && lookup(e@, key_failure_reason())
                        is None && (bytes_of(lookup(e@, key_peers())) matches Some(raw) && raw.len() % 6
                        != 0),
                Err(TrackerError::MalformedResponse) => {
                    ||| !exists|v: Bencode| #[trigger] enc(v) == body@ && nesting_within(v, MAX_DEPTH as nat)
                    ||| exists|v: Bencode| #[trigger] enc(v) == body@ && !(v is Dict)
                    ||| exists|e: Vec<(Vec<u8>, Bencode)>|
                        #[trigger] enc(Bencode::Dict(e)) == body@ && response_malformed(e@)
                },
                Err(_) => false,
            },
    {
        match decode(body) {
            Some(Bencode::Dict(e)) => {
                let r = TrackerResponse::from_entries(&e);
                assert(enc(Bencode::Dict(e)) == body@);
                r
            },
            _ => Err(TrackerError::MalformedResponse),
        }
    }
}

impl MetaInfo {
    /// The URL to announce to, with the content identifier `id` computed
    /// once by `Info::content_id`: refused unless the tracker speaks HTTP or
    /// HTTPS, and unless the size of the content can be told.
    pub fn announce_request(&self, id: &ContentIdentifier, peer_id: &Vec<u8>) -> (r: Result<String, TrackerError>)
        ensures
            !http_scheme(self.announce@) ==> (r matches Err(TrackerError::UnsupportedProtocol(u))
                && u@ == self.announce@),
            http_scheme(self.announce@) ==> match tracker_url_with(self@, id.bytes(), peer_id@) {
                Ok(url) => r matches Ok(s) && s@ == url,
                Err(e) => r == Err::<String, TrackerError>(TrackerError::Descriptor(e)),
            },
    {
        if !crate::metainfo::is_http_tracker(&self.announce) {
            return Err(TrackerError::UnsupportedProtocol(self.announce.clone()));
        }
        match self.tracker_url_for(id, peer_id) {
            Ok(url) => Ok(url),
            Err(e) => Err(TrackerError::Descriptor(e)),
        }
    }
}

} // verus!
