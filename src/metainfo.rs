//! The torrent descriptor: the tracker URL and the info section, read from
//! its bencoded form, and the tracker announce URL built from it.
use vstd::prelude::*;
use vstd::utf8::*;

use crate::bencode::{decode, dict_get, enc, lookup, nesting_within, Bencode, MAX_DEPTH};
use crate::info::{
    files_view, info_hash, ContentIdentifier, key_files, key_length, key_name, key_path, key_piece_length, key_pieces,
    total_size, DescriptorError, File, FileView, Info, InfoView,
};
use crate::text::{ascii_chars, decimal, decimal_string, percent_encoded, utf8_text};

verus! {

/// A torrent descriptor.
#[derive(Debug)]
pub struct MetaInfo {
    /// The tracker URL.
    pub announce: String,
    /// The torrent's metadata.
    pub info: Info,
}

pub struct MetaInfoView {
    pub announce: Seq<char>,
    pub info: InfoView,
}

impl View for MetaInfo {
    type V = MetaInfoView;

    open spec fn view(&self) -> MetaInfoView {
        MetaInfoView { announce: self.announce@, info: self.info@ }
    }
}

pub open spec fn key_announce() -> Seq<u8> {
    seq![97u8, 110u8, 110u8, 111u8, 117u8, 110u8, 99u8, 101u8]
}

pub open spec fn key_info() -> Seq<u8> {
    seq![105u8, 110u8, 102u8, 111u8]
}

/// The text held by a byte string, when it is valid UTF-8.
pub open spec fn text_of(v: Option<Bencode>) -> Option<Seq<char>> {
    match v {
        Some(Bencode::Bytes(b)) => if valid_utf8(b@) {
            Some(decode_utf8(b@))
        } else {
            None
        },
        _ => None,
    }
}

/// The bytes of a byte string.
pub open spec fn bytes_of(v: Option<Bencode>) -> Option<Seq<u8>> {
    match v {
        Some(Bencode::Bytes(b)) => Some(b@),
        _ => None,
    }
}

/// A non-negative integer that fits a `usize`.
pub open spec fn usize_of(v: Option<Bencode>) -> Option<usize> {
    match v {
        Some(Bencode::Int(n)) => if 0 <= n <= usize::MAX {
            Some(n as usize)
        } else {
            None
        },
        _ => None,
    }
}

/// A non-empty list of path segments.
pub open spec fn path_of(v: Option<Bencode>) -> Option<Seq<Seq<char>>> {
    match v {
        Some(Bencode::List(items)) => if items@.len() > 0 && forall|i: int|
            0 <= i < items@.len() ==> #[trigger] text_of(Some(items@[i])) is Some {
            Some(Seq::new(items@.len(), |i: int| text_of(Some(items@[i]))->0))
        } else {
            None
        },
        _ => None,
    }
}

/// A file dictionary: `length` and `path`.
pub open spec fn file_of(v: Bencode) -> Option<FileView> {
    match v {
        Bencode::Dict(e) => {
            let length = usize_of(lookup(e@, key_length()));
            let path = path_of(lookup(e@, key_path()));
            if length is Some && path is Some {
                Some(FileView { length: length->0, path: path->0 })
            } else {
                None
            }
        },
        _ => None,
    }
}

/// A list of file dictionaries.
pub open spec fn files_of(v: Option<Bencode>) -> Option<Seq<FileView>> {
    match v {
        Some(Bencode::List(items)) => if forall|i: int|
            0 <= i < items@.len() ==> #[trigger] file_of(items@[i]) is Some {
            Some(Seq::new(items@.len(), |i: int| file_of(items@[i])->0))
        } else {
            None
        },
        _ => None,
    }
}

/// The info section that an info dictionary describes, or why it is refused.
pub open spec fn info_of(v: Bencode) -> Result<InfoView, DescriptorError> {
    match v {
        Bencode::Dict(e) => {
            let name = text_of(lookup(e@, key_name()));
            let piece_length = usize_of(lookup(e@, key_piece_length()));
            let pieces = bytes_of(lookup(e@, key_pieces()));
            let length = lookup(e@, key_length());
            let files = lookup(e@, key_files());
            if name is None || piece_length is None || piece_length->0 == 0 || pieces is None {
                Err(DescriptorError::BadField)
            } else if pieces->0.len() % 20 != 0 {
                Err(DescriptorError::PiecesLength)
            } else if length is Some && files is Some {
                Err(DescriptorError::LengthAndFiles)
            } else if length is None && files is None {
                Err(DescriptorError::NoLengthOrFiles)
            } else if length is Some && usize_of(length) is None {
                Err(DescriptorError::BadField)
            } else if files is Some && files_of(files) is None {
                Err(DescriptorError::BadField)
            } else {
                Ok(
                    InfoView {
                        name: name->0,
                        piece_length: piece_length->0,
                        pieces: pieces->0,
                        length: usize_of(length),
                        files: files_of(files),
                    },
                )
            }
        },
        _ => Err(DescriptorError::BadField),
    }
}

/// The descriptor that a top-level dictionary describes, or why it is refused.
pub open spec fn metainfo_of(v: Bencode) -> Result<MetaInfoView, DescriptorError> {
    match v {
        Bencode::Dict(e) => {
            let announce = text_of(lookup(e@, key_announce()));
            let info = lookup(e@, key_info());
            if announce is None || info is None {
                Err(DescriptorError::BadField)
            } else {
                match info_of(info->0) {
                    Ok(i) => Ok(MetaInfoView { announce: announce->0, info: i }),
                    Err(err) => Err(err),
                }
            }
        },
        _ => Err(DescriptorError::BadField),
    }
}

fn key_bytes(k: u8) -> (r: Vec<u8>)
    requires
        k < 8,
    ensures
        k == 0 ==> r@ == key_announce(),
        k == 1 ==> r@ == key_info(),
        k == 2 ==> r@ == key_name(),
        k == 3 ==> r@ == key_piece_length(),
        k == 4 ==> r@ == key_pieces(),
        k == 5 ==> r@ == key_length(),
        k == 6 ==> r@ == key_files(),
        k == 7 ==> r@ == key_path(),
{
    let r = if k == 0 {
        vec![97u8, 110u8, 110u8, 111u8, 117u8, 110u8, 99u8, 101u8]
    } else if k == 1 {
        vec![105u8, 110u8, 102u8, 111u8]
    } else if k == 2 {
        vec![110u8, 97u8, 109u8, 101u8]
    } else if k == 3 {
        vec![112u8, 105u8, 101u8, 99u8, 101u8, 32u8, 108u8, 101u8, 110u8, 103u8, 116u8, 104u8]
    } else if k == 4 {
        vec![112u8, 105u8, 101u8, 99u8, 101u8, 115u8]
    } else if k == 5 {
        vec![108u8, 101u8, 110u8, 103u8, 116u8, 104u8]
    } else if k == 6 {
        vec![102u8, 105u8, 108u8, 101u8, 115u8]
    } else {
        vec![112u8, 97u8, 116u8, 104u8]
    };
    assert(k == 0 ==> r@ =~= key_announce());
    assert(k == 1 ==> r@ =~= key_info());
    assert(k == 2 ==> r@ =~= key_name());
    assert(k == 3 ==> r@ =~= key_piece_length());
    assert(k == 4 ==> r@ =~= key_pieces());
    assert(k == 5 ==> r@ =~= key_length());
    assert(k == 6 ==> r@ =~= key_files());
    assert(k == 7 ==> r@ =~= key_path());
    r
}

fn get_text(v: Option<&Bencode>) -> (r: Option<String>)
    ensures
        match r {
            Some(s) => text_of(opt_owned(v)) == Some(s@),
            None => text_of(opt_owned(v)) is None,
        },
{
    match v {
        Some(Bencode::Bytes(b)) => utf8_text(b),
        _ => None,
    }
}

fn get_usize(v: Option<&Bencode>) -> (r: Option<usize>)
    ensures
        r == usize_of(opt_owned(v)),
{
    match v {
        Some(Bencode::Int(n)) => {
            if *n >= 0 && (*n as u64) <= (usize::MAX as u64) {
                Some(*n as usize)
            } else {
                None
            }
        },
        _ => None,
    }
}

/// The value behind an optional reference.
pub open spec fn opt_owned(v: Option<&Bencode>) -> Option<Bencode> {
    match v {
        Some(x) => Some(*x),
        None => None,
    }
}

fn get_path(v: Option<&Bencode>) -> (r: Option<Vec<String>>)
    ensures
        match r {
            Some(p) => path_of(opt_owned(v)) == Some(p@.map_values(|s: String| s@)),
            None => path_of(opt_owned(v)) is None,
        },
{
    match v {
        Some(Bencode::List(items)) => {
            if items.len() == 0 {
                return None;
            }
            let mut out: Vec<String> = Vec::new();
            let mut i: usize = 0;
            while i < items.len()
                invariant
                    i <= items@.len(),
                    out@.len() == i,
                    items@.len() > 0,
                    opt_owned(v) == Some(Bencode::List(*items)),
                    forall|j: int| 0 <= j < i ==> text_of(Some(#[trigger] items@[j])) == Some(out@[j]@),
                decreases items@.len() - i,
            {
                match &items[i] {
                    Bencode::Bytes(b) => {
                        match utf8_text(b) {
                            Some(s) => {
                                out.push(s);
                            },
                            None => {
                                assert(text_of(Some(items@[i as int])) is None);
                                return None;
                            },
                        }
                    },
                    _ => {
                        assert(text_of(Some(items@[i as int])) is None);
                        return None;
                    },
                }
                i = i + 1;
            }
            assert(out@.map_values(|s: String| s@) =~= Seq::new(
                items@.len(),
                |i: int| text_of(Some(items@[i]))->0,
            ));
            Some(out)
        },
        _ => None,
    }
}

fn get_file(v: &Bencode) -> (r: Option<File>)
    ensures
        match r {
            Some(f) => file_of(*v) == Some(f@),
            None => file_of(*v) is None,
        },
{
    match v {
        Bencode::Dict(e) => {
            let length = get_usize(dict_get(e, key_bytes(5).as_slice()));
            let path = get_path(dict_get(e, key_bytes(7).as_slice()));
            match (length, path) {
                (Some(length), Some(path)) => Some(File { length, path }),
                _ => None,
            }
        },
        _ => None,
    }
}

fn get_files(v: Option<&Bencode>) -> (r: Option<Vec<File>>)
    ensures
        match r {
            Some(fs) => files_of(opt_owned(v)) == Some(files_view(fs@)),
            None => files_of(opt_owned(v)) is None,
        },
{
    match v {
        Some(Bencode::List(items)) => {
            let mut out: Vec<File> = Vec::new();
            let mut i: usize = 0;
            while i < items.len()
                invariant
                    i <= items@.len(),
                    out@.len() == i,
                    opt_owned(v) == Some(Bencode::List(*items)),
                    forall|j: int| 0 <= j < i ==> file_of(#[trigger] items@[j]) == Some(out@[j]@),
                decreases items@.len() - i,
            {
                match get_file(&items[i]) {
                    Some(f) => {
                        out.push(f);
                    },
                    None => {
                        assert(file_of(items@[i as int]) is None);
                        return None;
                    },
                }
                i = i + 1;
            }
            assert(files_view(out@) =~= Seq::new(items@.len(), |i: int| file_of(items@[i])->0));
            Some(out)
        },
        _ => None,
    }
}

impl Info {
    /// Reads an info section from its dictionary.
    pub fn from_bencode(v: &Bencode) -> (r: Result<Info, DescriptorError>)
        ensures
            match r {
                Ok(i) => info_of(*v) == Ok::<InfoView, DescriptorError>(i@),
                Err(e) => info_of(*v) == Err::<InfoView, DescriptorError>(e),
            },
    {
        match v {
            Bencode::Dict(e) => {
                let name = get_text(dict_get(e, key_bytes(2).as_slice()));
                let piece_length = get_usize(dict_get(e, key_bytes(3).as_slice()));
                let pieces = match dict_get(e, key_bytes(4).as_slice()) {
                    Some(Bencode::Bytes(b)) => Some(b.clone()),
                    _ => None,
                };
                let length = dict_get(e, key_bytes(5).as_slice());
                let files = dict_get(e, key_bytes(6).as_slice());
                match (name, piece_length, pieces) {
                    (Some(name), Some(piece_length), Some(pieces)) => {
                        if piece_length == 0 {
                            return Err(DescriptorError::BadField);
                        }
                        if pieces.len() % 20 != 0 {
                            return Err(DescriptorError::PiecesLength);
                        }
                        if length.is_some() && files.is_some() {
                            return Err(DescriptorError::LengthAndFiles);
                        }
                        if length.is_none() && files.is_none() {
                            return Err(DescriptorError::NoLengthOrFiles);
                        }
                        let length_value = get_usize(length);
                        if length.is_some() && length_value.is_none() {
                            return Err(DescriptorError::BadField);
                        }
                        let files_value = get_files(files);
                        if files.is_some() && files_value.is_none() {
                            return Err(DescriptorError::BadField);
                        }
                        let info = Info {
                            name,
                            piece_length,
                            pieces,
                            length: length_value,
                            files: files_value,
                        };
                        Ok(info)
                    },
                    _ => Err(DescriptorError::BadField),
                }
            },
            _ => Err(DescriptorError::BadField),
        }
    }
}

impl MetaInfo {
    /// Reads a descriptor from a decoded top-level value.
    pub fn from_value(v: &Bencode) -> (r: Result<MetaInfo, DescriptorError>)
        ensures
            match r {
                Ok(m) => metainfo_of(*v) == Ok::<MetaInfoView, DescriptorError>(m@),
                Err(e) => metainfo_of(*v) == Err::<MetaInfoView, DescriptorError>(e),
            },
    {
        match v {
            Bencode::Dict(e) => {
                let announce = get_text(dict_get(e, key_bytes(0).as_slice()));
                let info = dict_get(e, key_bytes(1).as_slice());
                match (announce, info) {
                    (Some(announce), Some(info)) => {
                        match Info::from_bencode(info) {
                            Ok(info) => Ok(MetaInfo { announce, info }),
                            Err(err) => Err(err),
                        }
                    },
                    _ => Err(DescriptorError::BadField),
                }
            },
            _ => Err(DescriptorError::BadField),
        }
    }

    /// Reads a descriptor from the bytes of a torrent file.
    pub fn from_bytes(bytes: &[u8]) -> (r: Result<MetaInfo, DescriptorError>)
        ensures
            r matches Ok(m) ==> exists|v: Bencode|
                enc(v) == bytes@ && #[trigger] metainfo_of(v) == Ok::<MetaInfoView, DescriptorError>(m@),
            r matches Err(e) ==> e == DescriptorError::Malformed || exists|v: Bencode|
                enc(v) == bytes@ && #[trigger] metainfo_of(v) == Err::<MetaInfoView, DescriptorError>(e),
            r == Err::<MetaInfo, DescriptorError>(DescriptorError::Malformed) ==> !exists|v: Bencode|
                #[trigger] enc(v) == bytes@ && nesting_within(v, MAX_DEPTH as nat),
    {
        match decode(bytes) {
            Some(v) => MetaInfo::from_value(&v),
            None => Err(DescriptorError::Malformed),
        }
    }
}

} // verus!

verus! {

/// Port announced to the tracker by default.
pub const DEFAULT_PORT: u16 = 6881;

/// The announce URL: the tracker URL, then the query with the info hash and
/// the peer id percent-encoded byte by byte, and the numbers in decimal.
pub open spec fn announce_url(
    announce: Seq<char>,
    info_hash: Seq<u8>,
    peer_id: Seq<u8>,
    port: u16,
    uploaded: u64,
    downloaded: u64,
    compact: bool,
    left: u64,
) -> Seq<char> {
    announce + "?info_hash="@ + ascii_chars(percent_encoded(info_hash)) + "&peer_id="@
        + ascii_chars(percent_encoded(peer_id)) + "&port="@ + ascii_chars(decimal(port as nat))
        + "&uploaded="@ + ascii_chars(decimal(uploaded as nat)) + "&downloaded="@ + ascii_chars(
        decimal(downloaded as nat),
    ) + "&compact="@ + (if compact {
        "1"@
    } else {
        "0"@
    }) + "&left="@ + ascii_chars(decimal(left as nat))
}

/// Builds the announce URL for `announce` with the given parameters; the
/// info hash goes in as the identifier's own `%XX` rendering.
pub fn build_announce_url(
    announce: &String,
    info_hash: &ContentIdentifier,
    peer_id: &[u8],
    port: u16,
    uploaded: u64,
    downloaded: u64,
    compact: bool,
    left: u64,
) -> (r: String)
    ensures
        r@ == announce_url(announce@, info_hash.bytes(), peer_id@, port, uploaded, downloaded, compact, left),
{
    proof {
        crate::text::lemma_percent_encoded_ascii(peer_id@);
    }
    let mut url = announce.clone();
    url.append("?info_hash=");
    url.append(info_hash.url_encoded().as_str());
    url.append("&peer_id=");
    url.append(crate::text::ascii_string(crate::text::percent_encode(peer_id)).as_str());
    url.append("&port=");
    url.append(decimal_string(port as u64).as_str());
    url.append("&uploaded=");
    url.append(decimal_string(uploaded).as_str());
    url.append("&downloaded=");
    url.append(decimal_string(downloaded).as_str());
    url.append("&compact=");
    if compact {
        url.append("1");
    } else {
        url.append("0");
    }
    url.append("&left=");
    url.append(decimal_string(left).as_str());
    url
}

/// The tracker URL starts with the scheme `http:` or `https:`.
pub open spec fn http_scheme(s: Seq<char>) -> bool {
    ||| (s.len() >= 5 && s.subrange(0, 5) == seq!['h', 't', 't', 'p', ':'])
    ||| (s.len() >= 6 && s.subrange(0, 6) == seq!['h', 't', 't', 'p', 's', ':'])
}

/// Whether the tracker URL uses HTTP or HTTPS, the only tracker protocols
/// this client speaks.
pub fn is_http_tracker(announce: &String) -> (r: bool)
    ensures
        r == http_scheme(announce@),
{
    let s = announce.as_str();
    let n = s.unicode_len();
    if n < 5 {
        return false;
    }
    let c0 = s.get_char(0);
    let c1 = s.get_char(1);
    let c2 = s.get_char(2);
    let c3 = s.get_char(3);
    let c4 = s.get_char(4);
    if c0 != 'h' || c1 != 't' || c2 != 't' || c3 != 'p' {
        assert(!(announce@.subrange(0, 5) =~= seq!['h', 't', 't', 'p', ':']) && (announce@.len() >= 6
            ==> !(announce@.subrange(0, 6) =~= seq!['h', 't', 't', 'p', 's', ':'])));
        return false;
    }
    if c4 == ':' {
        assert(announce@.subrange(0, 5) =~= seq!['h', 't', 't', 'p', ':']);
        return true;
    }
    if c4 != 's' || n < 6 {
        assert(!(announce@.subrange(0, 5) =~= seq!['h', 't', 't', 'p', ':']) && (announce@.len() >= 6
            ==> !(announce@.subrange(0, 6) =~= seq!['h', 't', 't', 'p', 's', ':'])));
        return false;
    }
    let c5 = s.get_char(5);
    if c5 == ':' {
        assert(announce@.subrange(0, 6) =~= seq!['h', 't', 't', 'p', 's', ':']);
        true
    } else {
        assert(!(announce@.subrange(0, 5) =~= seq!['h', 't', 't', 'p', ':']) && !(announce@.subrange(
            0,
            6,
        ) =~= seq!['h', 't', 't', 'p', 's', ':']));
        false
    }
}

/// The announce URL for a descriptor, the info hash `id` and a peer id:
/// port 6881, nothing uploaded or downloaded yet, compact peer list asked
/// for, and the whole content left; an error when the size of the content
/// cannot be told.
pub open spec fn tracker_url_with(m: MetaInfoView, id: Seq<u8>, peer_id: Seq<u8>) -> Result<Seq<char>, DescriptorError> {
    match total_size(m.info) {
        Ok(n) => if n <= usize::MAX {
            Ok(announce_url(m.announce, id, peer_id, DEFAULT_PORT, 0, 0, true, n as u64))
        } else {
            Err(DescriptorError::SizeOverflow)
        },
        Err(e) => Err(e),
    }
}

/// The announce URL for a descriptor with its own info hash.
pub open spec fn tracker_url_of(m: MetaInfoView, peer_id: Seq<u8>) -> Result<Seq<char>, DescriptorError> {
    tracker_url_with(m, info_hash(m.info), peer_id)
}

impl MetaInfo {
    /// The announce URL for this torrent, given its content identifier
    /// computed once by `Info::content_id`, and `peer_id`.
    pub fn tracker_url_for(&self, id: &ContentIdentifier, peer_id: &Vec<u8>) -> (r: Result<String, DescriptorError>)
        ensures
            match tracker_url_with(self@, id.bytes(), peer_id@) {
                Ok(u) => r matches Ok(s) && s@ == u,
                Err(e) => r == Err::<String, DescriptorError>(e),
            },
    {
        let left = match self.info.size() {
            Ok(n) => n,
            Err(e) => {
                return Err(e);
            },
        };
        Ok(build_announce_url(&self.announce, id, peer_id.as_slice(), DEFAULT_PORT, 0, 0, true, left as u64))
    }

    /// The announce URL for this torrent and `peer_id`.
    pub fn build_tracker_url(&self, peer_id: &Vec<u8>) -> (r: Result<String, DescriptorError>)
        ensures
            match tracker_url_of(self@, peer_id@) {
                Ok(u) => r matches Ok(s) && s@ == u,
                Err(e) => r == Err::<String, DescriptorError>(e),
            },
    {
        let id = self.info.content_id();
        self.tracker_url_for(&id, peer_id)
    }
}

} // verus!

verus! {

/// However a descriptor orders the entries of its info dictionary, each key
/// once, the info section read from it is the same, and so is its info
/// hash.
pub proof fn lemma_info_entry_order(a: Vec<(Vec<u8>, Bencode)>, b: Vec<(Vec<u8>, Bencode)>)
    requires
        a@.to_multiset() == b@.to_multiset(),
        crate::bencode::distinct_keys(a@),
        crate::bencode::distinct_keys(b@),
    ensures
        info_of(Bencode::Dict(a)) == info_of(Bencode::Dict(b)),
        info_of(Bencode::Dict(a)) matches Ok(i) ==> info_of(Bencode::Dict(b)) matches Ok(j)
            && info_hash(i) == info_hash(j),
{
    crate::bencode::lemma_lookup_order_independent(a@, b@, key_name());
    crate::bencode::lemma_lookup_order_independent(a@, b@, key_piece_length());
    crate::bencode::lemma_lookup_order_independent(a@, b@, key_pieces());
    crate::bencode::lemma_lookup_order_independent(a@, b@, key_length());
    crate::bencode::lemma_lookup_order_independent(a@, b@, key_files());
}

} // verus!
