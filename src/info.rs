//! The `info` section of a torrent descriptor, its size, its canonical
//! bencoding and the info hash computed from it.
use vstd::prelude::*;
use vstd::utf8::*;

use crate::bencode::{enc_bytes, push_enc_bytes};
use crate::text::{ascii_chars, ascii_string, decimal, lemma_percent_encoded_ascii, percent_encode, percent_encoded, push_decimal};

verus! {

/// One file of a multi-file torrent.
#[derive(Debug)]
pub struct File {
    /// Length of the file in bytes.
    pub length: usize,
    /// Directory names, then the file name.
    pub path: Vec<String>,
}

pub struct FileView {
    pub length: usize,
    pub path: Seq<Seq<char>>,
}

impl View for File {
    type V = FileView;

    open spec fn view(&self) -> FileView {
        FileView { length: self.length, path: self.path@.map_values(|s: String| s@) }
    }
}

/// The metadata of a torrent: its name, how it is cut into pieces, the
/// hashes of the pieces, and either one length or a list of files.
#[derive(Debug)]
pub struct Info {
    /// Suggested name of the file or directory.
    pub name: String,
    /// Bytes in each piece.
    pub piece_length: usize,
    /// Concatenated 20-byte SHA-1 hashes of the pieces.
    pub pieces: Vec<u8>,
    /// Length of the single file; absent when `files` is present.
    pub length: Option<usize>,
    /// The files of a multi-file torrent; absent when `length` is present.
    pub files: Option<Vec<File>>,
}

pub struct InfoView {
    pub name: Seq<char>,
    pub piece_length: usize,
    pub pieces: Seq<u8>,
    pub length: Option<usize>,
    pub files: Option<Seq<FileView>>,
}

pub open spec fn files_view(fs: Seq<File>) -> Seq<FileView> {
    fs.map_values(|f: File| f@)
}

impl View for Info {
    type V = InfoView;

    open spec fn view(&self) -> InfoView {
        InfoView {
            name: self.name@,
            piece_length: self.piece_length,
            pieces: self.pieces@,
            length: self.length,
            files: match self.files {
                Some(fs) => Some(files_view(fs@)),
                None => None,
            },
        }
    }
}

/// Why a torrent descriptor was refused.
#[derive(Debug, PartialEq, Eq, Structural)]
pub enum DescriptorError {
    /// The bytes are not one bencoded value.
    Malformed,
    /// A required key is absent, or a value has the wrong type or range.
    BadField,
    /// `pieces` is not a whole number of 20-byte hashes.
    PiecesLength,
    /// Both `length` and `files` are present.
    LengthAndFiles,
    /// Neither `length` nor `files` is present.
    NoLengthOrFiles,
    /// The total size does not fit a `usize`.
    SizeOverflow,
}

/// Sum of the file lengths.
pub open spec fn files_total(fs: Seq<FileView>) -> nat
    decreases fs.len(),
{
    if fs.len() == 0 {
        0
    } else {
        files_total(fs.drop_last()) + fs.last().length as nat
    }
}

/// The size of the content: `length` when it alone is present, the sum of
/// the file lengths when `files` alone is present, an error otherwise.
pub open spec fn total_size(i: InfoView) -> Result<nat, DescriptorError> {
    match (i.length, i.files) {
        (Some(_), Some(_)) => Err(DescriptorError::LengthAndFiles),
        (None, None) => Err(DescriptorError::NoLengthOrFiles),
        (Some(n), None) => Ok(n as nat),
        (None, Some(fs)) => Ok(files_total(fs)),
    }
}

pub open spec fn key_files() -> Seq<u8> {
    seq![102u8, 105u8, 108u8, 101u8, 115u8]
}

pub open spec fn key_length() -> Seq<u8> {
    seq![108u8, 101u8, 110u8, 103u8, 116u8, 104u8]
}

pub open spec fn key_name() -> Seq<u8> {
    seq![110u8, 97u8, 109u8, 101u8]
}

pub open spec fn key_piece_length() -> Seq<u8> {
    seq![112u8, 105u8, 101u8, 99u8, 101u8, 32u8, 108u8, 101u8, 110u8, 103u8, 116u8, 104u8]
}

pub open spec fn key_pieces() -> Seq<u8> {
    seq![112u8, 105u8, 101u8, 99u8, 101u8, 115u8]
}

pub open spec fn key_path() -> Seq<u8> {
    seq![112u8, 97u8, 116u8, 104u8]
}

/// `a` sorts before `b` byte by byte: a proper prefix, or smaller at the
/// first byte where they differ.
pub open spec fn bytes_lt(a: Seq<u8>, b: Seq<u8>) -> bool {
    exists|k: int|
        0 <= k <= a.len() && k <= b.len() && #[trigger] a.subrange(0, k) == b.subrange(0, k) && (
        (k == a.len() && k < b.len()) || (k < a.len() && k < b.len() && a[k] < b[k]))
}

/// The keys of the info dictionary, in the order the encoding emits them.
pub open spec fn info_keys() -> Seq<Seq<u8>> {
    seq![key_files(), key_length(), key_name(), key_piece_length(), key_pieces()]
}

/// The keys of a file dictionary, in the order the encoding emits them.
pub open spec fn file_keys() -> Seq<Seq<u8>> {
    seq![key_length(), key_path()]
}

/// `i e` around the decimal digits of `n`.
pub open spec fn int_enc(n: nat) -> Seq<u8> {
    seq![105u8] + decimal(n) + seq![101u8]
}

/// A list of strings, each as its UTF-8 bytes.
pub open spec fn strings_enc(s: Seq<Seq<char>>) -> Seq<u8>
    decreases s.len(),
{
    if s.len() == 0 {
        Seq::empty()
    } else {
        strings_enc(s.drop_last()) + enc_bytes(encode_utf8(s.last()))
    }
}

/// A file as a dictionary with sorted keys.
pub open spec fn file_enc(f: FileView) -> Seq<u8> {
    seq![100u8] + enc_bytes(key_length()) + int_enc(f.length as nat) + enc_bytes(key_path())
        + seq![108u8] + strings_enc(f.path) + seq![101u8] + seq![101u8]
}

pub open spec fn files_enc(fs: Seq<FileView>) -> Seq<u8>
    decreases fs.len(),
{
    if fs.len() == 0 {
        Seq::empty()
    } else {
        files_enc(fs.drop_last()) + file_enc(fs.last())
    }
}

/// The `files` entry, when there is one.
pub open spec fn files_part(i: InfoView) -> Seq<u8> {
    match i.files {
        Some(fs) => enc_bytes(key_files()) + seq![108u8] + files_enc(fs) + seq![101u8],
        None => Seq::empty(),
    }
}

/// The `length` entry, when there is one.
pub open spec fn length_part(i: InfoView) -> Seq<u8> {
    match i.length {
        Some(n) => enc_bytes(key_length()) + int_enc(n as nat),
        None => Seq::empty(),
    }
}

/// The `name`, `piece length` and `pieces` entries and the closing `e`.
pub open spec fn tail_part(i: InfoView) -> Seq<u8> {
    enc_bytes(key_name()) + enc_bytes(encode_utf8(i.name)) + enc_bytes(key_piece_length())
        + int_enc(i.piece_length as nat) + enc_bytes(key_pieces()) + enc_bytes(i.pieces)
        + seq![101u8]
}

/// The canonical bencoding of the info dictionary: keys in ascending byte
/// order (`files`, `length`, `name`, `piece length`, `pieces`), absent
/// optional keys left out.
pub open spec fn info_bencoded(i: InfoView) -> Seq<u8> {
    seq![100u8] + files_part(i) + length_part(i) + tail_part(i)
}

/// The SHA-1 digest of a byte sequence.
pub uninterp spec fn sha1_digest(data: Seq<u8>) -> Seq<u8>;

/// Relies on `sha1::Sha1::digest` (the `Digest` trait): the SHA-1 digest of
/// the bytes, whose output size is 20 bytes.
#[verifier::external_body]
fn sha1(data: &[u8]) -> (r: Vec<u8>)
    ensures
        r@ == sha1_digest(data@),
        r@.len() == 20,
{
    <sha1::Sha1 as sha1::Digest>::digest(data).to_vec()
}

/// The info hash of an info section: SHA-1 of its canonical bencoding.
pub open spec fn info_hash(i: InfoView) -> Seq<u8> {
    sha1_digest(info_bencoded(i))
}

/// The keys that the canonical encoding emits stand in strictly ascending
/// byte order, in the info dictionary and in each file dictionary.
pub proof fn lemma_canonical_key_order()
    ensures
        forall|a: int, b: int|
            0 <= a < b < info_keys().len() ==> bytes_lt(#[trigger] info_keys()[a], #[trigger] info_keys()[b]),
        forall|a: int, b: int|
            0 <= a < b < file_keys().len() ==> bytes_lt(#[trigger] file_keys()[a], #[trigger] file_keys()[b]),
{
    let k = info_keys();
    assert(k[0].subrange(0, 0) =~= k[1].subrange(0, 0));
    assert(k[0].subrange(0, 0) =~= k[2].subrange(0, 0));
    assert(k[0].subrange(0, 0) =~= k[3].subrange(0, 0));
    assert(k[0].subrange(0, 0) =~= k[4].subrange(0, 0));
    assert(k[1].subrange(0, 0) =~= k[2].subrange(0, 0));
    assert(k[1].subrange(0, 0) =~= k[3].subrange(0, 0));
    assert(k[1].subrange(0, 0) =~= k[4].subrange(0, 0));
    assert(k[2].subrange(0, 0) =~= k[3].subrange(0, 0));
    assert(k[2].subrange(0, 0) =~= k[4].subrange(0, 0));
    assert(k[3].subrange(0, 5) =~= k[4].subrange(0, 5));
    assert(bytes_lt(k[0], k[1]));
    assert(bytes_lt(k[0], k[2]));
    assert(bytes_lt(k[0], k[3]));
    assert(bytes_lt(k[0], k[4]));
    assert(bytes_lt(k[1], k[2]));
    assert(bytes_lt(k[1], k[3]));
    assert(bytes_lt(k[1], k[4]));
    assert(bytes_lt(k[2], k[3]));
    assert(bytes_lt(k[2], k[4]));
    assert(bytes_lt(k[3], k[4]));
    let f = file_keys();
    assert(f[0].subrange(0, 0) =~= f[1].subrange(0, 0));
    assert(bytes_lt(f[0], f[1]));
}

/// The info hash is a function of the info section's fields alone: equal
/// sections give equal hashes, however the descriptor laid them out.
pub proof fn lemma_info_hash_deterministic(a: InfoView, b: InfoView)
    requires
        a == b,
    ensures
        info_hash(a) == info_hash(b),
{
}

/// The 20-byte identifier of a torrent and its two renderings.
#[derive(Debug)]
pub struct ContentIdentifier {
    raw: Vec<u8>,
}

impl ContentIdentifier {
    pub closed spec fn bytes(&self) -> Seq<u8> {
        self.raw@
    }

    /// The 20 raw bytes, as the handshake carries them.
    pub fn raw(&self) -> (r: Vec<u8>)
        ensures
            r@ == self.bytes(),
    {
        self.raw.clone()
    }

    /// Every byte as `%XX`, as a tracker query carries it.
    pub fn url_encoded(&self) -> (r: String)
        ensures
            r@ == ascii_chars(percent_encoded(self.bytes())),
    {
        let e = percent_encode(self.raw.as_slice());
        proof {
            lemma_percent_encoded_ascii(self.raw@);
        }
        ascii_string(e)
    }
}

fn key_bytes_files() -> (r: Vec<u8>)
    ensures
        r@ == key_files(),
{
    let r = vec![102u8, 105u8, 108u8, 101u8, 115u8];
    assert(r@ =~= key_files());
    r
}

fn key_bytes_length() -> (r: Vec<u8>)
    ensures
        r@ == key_length(),
{
    let r = vec![108u8, 101u8, 110u8, 103u8, 116u8, 104u8];
    assert(r@ =~= key_length());
    r
}

fn key_bytes_name() -> (r: Vec<u8>)
    ensures
        r@ == key_name(),
{
    let r = vec![110u8, 97u8, 109u8, 101u8];
    assert(r@ =~= key_name());
    r
}

fn key_bytes_piece_length() -> (r: Vec<u8>)
    ensures
        r@ == key_piece_length(),
{
    let r = vec![112u8, 105u8, 101u8, 99u8, 101u8, 32u8, 108u8, 101u8, 110u8, 103u8, 116u8, 104u8];
    assert(r@ =~= key_piece_length());
    r
}

fn key_bytes_pieces() -> (r: Vec<u8>)
    ensures
        r@ == key_pieces(),
{
    let r = vec![112u8, 105u8, 101u8, 99u8, 101u8, 115u8];
    assert(r@ =~= key_pieces());
    r
}

fn key_bytes_path() -> (r: Vec<u8>)
    ensures
        r@ == key_path(),
{
    let r = vec![112u8, 97u8, 116u8, 104u8];
    assert(r@ =~= key_path());
    r
}

fn push_int_enc(out: &mut Vec<u8>, n: usize)
    ensures
        final(out)@ == old(out)@ + int_enc(n as nat),
{
    let ghost init = out@;
    out.push(105u8);
    push_decimal(out, n as u64);
    out.push(101u8);
    assert(out@ =~= init + int_enc(n as nat));
}

fn push_string_enc(out: &mut Vec<u8>, s: &String)
    ensures
        final(out)@ == old(out)@ + enc_bytes(encode_utf8(s@)),
{
    push_enc_bytes(out, s.as_str().as_bytes());
}

fn push_file_enc(out: &mut Vec<u8>, f: &File)
    ensures
        final(out)@ == old(out)@ + file_enc(f@),
{
    let ghost init = out@;
    out.push(100u8);
    push_enc_bytes(out, key_bytes_length().as_slice());
    push_int_enc(out, f.length);
    push_enc_bytes(out, key_bytes_path().as_slice());
    out.push(108u8);
    let ghost mid = out@;
    let mut i: usize = 0;
    while i < f.path.len()
        invariant
            i <= f.path@.len(),
            out@ == mid + strings_enc(f@.path.subrange(0, i as int)),
        decreases f.path@.len() - i,
    {
        push_string_enc(out, &f.path[i]);
        i = i + 1;
        assert(f@.path.subrange(0, i as int).drop_last() =~= f@.path.subrange(0, i - 1));
        assert(out@ =~= mid + strings_enc(f@.path.subrange(0, i as int)));
    }
    out.push(101u8);
    out.push(101u8);
    assert(f@.path.subrange(0, f.path@.len() as int) =~= f@.path);
    assert(out@ =~= init + file_enc(f@));
}

fn push_files_part(out: &mut Vec<u8>, files: &Option<Vec<File>>)
    ensures
        final(out)@ == old(out)@ + match *files {
            Some(fs) => enc_bytes(key_files()) + seq![108u8] + files_enc(files_view(fs@)) + seq![101u8],
            None => Seq::empty(),
        },
{
    let ghost init = out@;
    match files {
        Some(fs) => {
            push_enc_bytes(out, key_bytes_files().as_slice());
            out.push(108u8);
            let ghost mid = out@;
            let mut i: usize = 0;
            while i < fs.len()
                invariant
                    i <= fs@.len(),
                    out@ == mid + files_enc(files_view(fs@).subrange(0, i as int)),
                decreases fs@.len() - i,
            {
                push_file_enc(out, &fs[i]);
                i = i + 1;
                assert(files_view(fs@).subrange(0, i as int).drop_last() =~= files_view(
                    fs@,
                ).subrange(0, i - 1));
                assert(out@ =~= mid + files_enc(files_view(fs@).subrange(0, i as int)));
            }
            out.push(101u8);
            assert(files_view(fs@).subrange(0, fs@.len() as int) =~= files_view(fs@));
            assert(out@ =~= init + (enc_bytes(key_files()) + seq![108u8] + files_enc(files_view(fs@)) + seq![101u8]));
        },
        None => {
            assert(out@ =~= init + Seq::<u8>::empty());
        },
    }
}

fn push_length_part(out: &mut Vec<u8>, length: Option<usize>)
    ensures
        final(out)@ == old(out)@ + match length {
            Some(n) => enc_bytes(key_length()) + int_enc(n as nat),
            None => Seq::empty(),
        },
{
    let ghost init = out@;
    match length {
        Some(n) => {
            push_enc_bytes(out, key_bytes_length().as_slice());
            push_int_enc(out, n);
            assert(out@ =~= init + (enc_bytes(key_length()) + int_enc(n as nat)));
        },
        None => {
            assert(out@ =~= init + Seq::<u8>::empty());
        },
    }
}

impl Info {
    /// The canonical bencoding of this info section.
    pub fn bencode(&self) -> (r: Vec<u8>)
        ensures
            r@ == info_bencoded(self@),
    {
        let mut out: Vec<u8> = Vec::new();
        out.push(100u8);
        push_files_part(&mut out, &self.files);
        push_length_part(&mut out, self.length);
        push_enc_bytes(&mut out, key_bytes_name().as_slice());
        push_string_enc(&mut out, &self.name);
        push_enc_bytes(&mut out, key_bytes_piece_length().as_slice());
        push_int_enc(&mut out, self.piece_length);
        push_enc_bytes(&mut out, key_bytes_pieces().as_slice());
        push_enc_bytes(&mut out, self.pieces.as_slice());
        out.push(101u8);
        assert(out@ =~= seq![100u8] + files_part(self@) + length_part(self@) + tail_part(self@));
        out
    }

    /// The content identifier: SHA-1 of the canonical bencoding.
    pub fn content_id(&self) -> (r: ContentIdentifier)
        ensures
            r.bytes() == info_hash(self@),
            r.bytes().len() == 20,
    {
        let encoded = self.bencode();
        ContentIdentifier { raw: sha1(encoded.as_slice()) }
    }

    /// The 20 raw bytes of the info hash.
    pub fn hash(&self) -> (r: Vec<u8>)
        ensures
            r@ == info_hash(self@),
            r@.len() == 20,
    {
        self.content_id().raw()
    }

    /// The info hash with every byte as `%XX`, derived from the same raw
    /// value as `hash`.
    pub fn hash_encoded(&self) -> (r: String)
        ensures
            r@ == ascii_chars(percent_encoded(info_hash(self@))),
    {
        self.content_id().url_encoded()
    }

    /// Total size of the content in bytes.
    pub fn size(&self) -> (r: Result<usize, DescriptorError>)
        ensures
            match total_size(self@) {
                Ok(n) => if n <= usize::MAX {
                    r == Ok::<usize, DescriptorError>(n as usize)
                } else {
                    r == Err::<usize, DescriptorError>(DescriptorError::SizeOverflow)
                },
                Err(e) => r == Err::<usize, DescriptorError>(e),
            },
    {
        match (&self.length, &self.files) {
            (Some(_), Some(_)) => Err(DescriptorError::LengthAndFiles),
            (None, None) => Err(DescriptorError::NoLengthOrFiles),
            (Some(n), None) => Ok(*n),
            (None, Some(fs)) => {
                let ghost v = files_view(fs@);
                assert(self@.files == Some(v));
                let mut sum: usize = 0;
                let mut i: usize = 0;
                while i < fs.len()
                    invariant
                        i <= fs@.len(),
                        v == files_view(fs@),
                        self@.files == Some(v),
                        self.length is None,
                        sum == files_total(v.subrange(0, i as int)),
                    decreases fs@.len() - i,
                {
                    assert(v.subrange(0, i + 1).drop_last() =~= v.subrange(0, i as int));
                    let len = fs[i].length;
                    assert(v[i as int].length == len);
                    assert(v.subrange(0, i + 1).last() == v[i as int]);
                    if sum > usize::MAX - len {
                        proof {
                            lemma_files_total_prefix(v, i + 1);
                        }
                        return Err(DescriptorError::SizeOverflow);
                    }
                    sum = sum + len;
                    i = i + 1;
                }
                assert(v.subrange(0, fs@.len() as int) =~= v);
                Ok(sum)
            },
        }
    }
}

/// A prefix of the files never adds up to more than all of them.
proof fn lemma_files_total_prefix(fs: Seq<FileView>, n: int)
    requires
        0 <= n <= fs.len(),
    ensures
        files_total(fs.subrange(0, n)) <= files_total(fs),
    decreases fs.len() - n,
{
    if n < fs.len() {
        lemma_files_total_prefix(fs, n + 1);
        assert(fs.subrange(0, n + 1).drop_last() =~= fs.subrange(0, n));
    } else {
        assert(fs.subrange(0, n) =~= fs);
    }
}

} // verus!
