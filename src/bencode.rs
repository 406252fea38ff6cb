//! Bencode, the encoding of torrent descriptors and tracker responses:
//! integers `i<n>e`, byte strings `<len>:<bytes>`, lists `l...e` and
//! dictionaries `d...e` of byte-string keys and values.
use vstd::prelude::*;

use crate::text::{decimal, digit, push_decimal};

verus! {

broadcast use vstd::std_specs::vec::group_vec_axioms;

/// A bencoded value.
#[derive(Debug)]
pub enum Bencode {
    Int(i64),
    Bytes(Vec<u8>),
    List(Vec<Bencode>),
    /// Entries in the order in which they stand.
    Dict(Vec<(Vec<u8>, Bencode)>),
}

/// Deepest nesting of lists and dictionaries that the decoder accepts.
pub const MAX_DEPTH: usize = 64;

pub open spec fn is_digit(c: u8) -> bool {
    48 <= c <= 57
}

/// The encoding of a byte string: its length in decimal, `:`, the bytes.
pub open spec fn enc_bytes(s: Seq<u8>) -> Seq<u8> {
    decimal(s.len()) + seq![58u8] + s
}

/// The text of an integer: an optional `-`, then decimal digits.
pub open spec fn int_text(n: int) -> Seq<u8> {
    if n < 0 {
        seq![45u8] + decimal((-n) as nat)
    } else {
        decimal(n as nat)
    }
}

/// The encoding of a value.
pub open spec fn enc(v: Bencode) -> Seq<u8>
    decreases v,
{
    match v {
        Bencode::Int(n) => seq![105u8] + int_text(n as int) + seq![101u8],
        Bencode::Bytes(b) => enc_bytes(b@),
        Bencode::List(items) => seq![108u8] + enc_items(items@) + seq![101u8],
        Bencode::Dict(entries) => seq![100u8] + enc_entries(entries@) + seq![101u8],
    }
}

/// The encodings of list items, one after the other.
pub open spec fn enc_items(s: Seq<Bencode>) -> Seq<u8>
    decreases s,
{
    if s.len() == 0 {
        Seq::empty()
    } else {
        enc_items(s.drop_last()) + enc(s.last())
    }
}

/// The encodings of dictionary entries, key before value.
pub open spec fn enc_entries(s: Seq<(Vec<u8>, Bencode)>) -> Seq<u8>
    decreases s,
{
    if s.len() == 0 {
        Seq::empty()
    } else {
        enc_entries(s.drop_last()) + enc_bytes(s.last().0@) + enc(s.last().1)
    }
}

/// The value of a run of decimal digits.
pub open spec fn digits_value(s: Seq<u8>) -> nat
    decreases s.len(),
{
    if s.len() == 0 {
        0
    } else {
        10 * digits_value(s.drop_last()) + (s.last() - 48) as nat
    }
}

/// Decimal digits without a superfluous leading zero.
pub open spec fn canonical_digits(s: Seq<u8>) -> bool {
    &&& s.len() >= 1
    &&& forall|i: int| 0 <= i < s.len() ==> is_digit(#[trigger] s[i])
    &&& (s.len() == 1 || s[0] != 48u8)
}

proof fn lemma_canonical_digits(s: Seq<u8>)
    requires
        canonical_digits(s),
    ensures
        decimal(digits_value(s)) == s,
        s[0] != 48u8 ==> digits_value(s) >= 1,
    decreases s.len(),
{
    if s.len() == 1 {
        assert(s.drop_last() =~= Seq::<u8>::empty());
        let v = digits_value(s);
        assert(is_digit(s[0]));
        assert(digits_value(s.drop_last()) == 0);
        assert(s.last() == s[0]);
        assert(v == (s[0] - 48) as nat);
        assert(v < 10);
        assert(decimal(v) == seq![digit(v as int)]);
        assert(digit(v as int) == s[0]);
        assert(decimal(digits_value(s)) =~= s);
    } else {
        let p = s.drop_last();
        assert(p[0] == s[0]);
        assert(forall|i: int| 0 <= i < p.len() ==> is_digit(#[trigger] p[i])) by {
            assert(forall|i: int| 0 <= i < p.len() ==> p[i] == s[i]);
        }
        lemma_canonical_digits(p);
        let m = digits_value(p);
        let d = (s.last() - 48) as nat;
        let v = digits_value(s);
        assert(v == 10 * m + d);
        assert(v / 10 == m && v % 10 == d) by (nonlinear_arith)
            requires
                v == 10 * m + d,
                d < 10,
        ;
        assert(decimal(v) =~= s);
    }
}

/// How deep lists and dictionaries nest in `v`: at most `d` levels.
pub open spec fn nesting_within(v: Bencode, d: nat) -> bool
    decreases v,
{
    match v {
        Bencode::Int(_) => true,
        Bencode::Bytes(_) => true,
        Bencode::List(items) => d > 0 && items_within(items@, (d - 1) as nat),
        Bencode::Dict(entries) => d > 0 && entries_within(entries@, (d - 1) as nat),
    }
}

pub open spec fn items_within(s: Seq<Bencode>, d: nat) -> bool
    decreases s,
{
    if s.len() == 0 {
        true
    } else {
        items_within(s.drop_last(), d) && nesting_within(s.last(), d)
    }
}

pub open spec fn entries_within(s: Seq<(Vec<u8>, Bencode)>, d: nat) -> bool
    decreases s,
{
    if s.len() == 0 {
        true
    } else {
        entries_within(s.drop_last(), d) && nesting_within(s.last().1, d)
    }
}

/// `v`'s encoding stands in `b` at `pos`.
pub open spec fn value_at(b: Seq<u8>, pos: int, v: Bencode) -> bool {
    &&& 0 <= pos
    &&& pos + enc(v).len() <= b.len()
    &&& b.subrange(pos, pos + enc(v).len()) == enc(v)
}

/// The decimal digits of `m` stand in `b` at `pos`, followed by a
/// non-digit, and `m` is at most `max`.
pub open spec fn natural_at(b: Seq<u8>, pos: int, m: nat, max: int) -> bool {
    &&& 0 <= pos
    &&& m <= max
    &&& pos + decimal(m).len() < b.len()
    &&& b.subrange(pos, pos + decimal(m).len()) == decimal(m)
    &&& !is_digit(b[pos + decimal(m).len()])
}

proof fn lemma_decimal_canonical(n: nat)
    ensures
        canonical_digits(decimal(n)),
        digits_value(decimal(n)) == n,
        decimal(n)[0] == 48u8 ==> n == 0,
    decreases n,
{
    let s = decimal(n);
    if n < 10 {
        assert(s.drop_last() =~= Seq::<u8>::empty());
        assert(digits_value(s.drop_last()) == 0);
    } else {
        lemma_decimal_canonical(n / 10);
        let p = decimal(n / 10);
        assert(s.drop_last() =~= p);
        assert(s[0] == p[0]);
        assert(forall|i: int| 0 <= i < p.len() ==> s[i] == p[i]);
        assert(n == 10 * (n / 10) + n % 10);
    }
}

pub(crate) proof fn lemma_digits_value_prefix(s: Seq<u8>, i: int)
    requires
        0 <= i <= s.len(),
        forall|k: int| 0 <= k < s.len() ==> is_digit(#[trigger] s[k]),
    ensures
        digits_value(s.subrange(0, i)) <= digits_value(s),
    decreases s.len() - i,
{
    if i < s.len() {
        let p = s.drop_last();
        assert(forall|k: int| 0 <= k < p.len() ==> p[k] == s[k]);
        lemma_digits_value_prefix(p, i);
        assert(p.subrange(0, i) =~= s.subrange(0, i));
    } else {
        assert(s.subrange(0, i) =~= s);
    }
}

proof fn lemma_enc_first_byte(v: Bencode)
    ensures
        enc(v).len() >= 2,
        v is Int ==> enc(v)[0] == 105u8,
        v is Bytes ==> is_digit(enc(v)[0]),
        v is List ==> enc(v)[0] == 108u8,
        v is Dict ==> enc(v)[0] == 100u8,
{
    match v {
        Bencode::Bytes(b) => {
            lemma_enc_bytes_first(b@);
        },
        Bencode::Int(n) => {
            lemma_decimal_canonical(if n < 0 { (-n) as nat } else { n as nat });
        },
        _ => {},
    }
}

proof fn lemma_enc_bytes_first(s: Seq<u8>)
    ensures
        enc_bytes(s).len() >= 2,
        is_digit(enc_bytes(s)[0]),
{
    lemma_decimal_canonical(s.len());
}

proof fn lemma_enc_items_prefix(ts: Seq<Bencode>, j: int)
    requires
        0 <= j <= ts.len(),
    ensures
        enc_items(ts.take(j)).len() <= enc_items(ts).len(),
        enc_items(ts).subrange(0, enc_items(ts.take(j)).len() as int) == enc_items(ts.take(j)),
    decreases ts.len(),
{
    if j == ts.len() {
        assert(ts.take(j) =~= ts);
    } else {
        let p = ts.drop_last();
        assert(p.take(j) =~= ts.take(j));
        lemma_enc_items_prefix(p, j);
        assert(enc_items(ts).subrange(0, enc_items(ts.take(j)).len() as int) =~= enc_items(
            p,
        ).subrange(0, enc_items(ts.take(j)).len() as int));
    }
}

proof fn lemma_enc_entries_prefix(es: Seq<(Vec<u8>, Bencode)>, j: int)
    requires
        0 <= j <= es.len(),
    ensures
        enc_entries(es.take(j)).len() <= enc_entries(es).len(),
        enc_entries(es).subrange(0, enc_entries(es.take(j)).len() as int) == enc_entries(es.take(j)),
    decreases es.len(),
{
    if j == es.len() {
        assert(es.take(j) =~= es);
    } else {
        let p = es.drop_last();
        assert(p.take(j) =~= es.take(j));
        lemma_enc_entries_prefix(p, j);
        assert(enc_entries(es).subrange(0, enc_entries(es.take(j)).len() as int) =~= enc_entries(
            p,
        ).subrange(0, enc_entries(es.take(j)).len() as int));
    }
}

proof fn lemma_items_within(s: Seq<Bencode>, d: nat, k: int)
    requires
        items_within(s, d),
        0 <= k < s.len(),
    ensures
        nesting_within(s[k], d),
    decreases s.len(),
{
    if k < s.len() - 1 {
        lemma_items_within(s.drop_last(), d, k);
    }
}

proof fn lemma_entries_within(s: Seq<(Vec<u8>, Bencode)>, d: nat, k: int)
    requires
        entries_within(s, d),
        0 <= k < s.len(),
    ensures
        nesting_within(s[k].1, d),
    decreases s.len(),
{
    if k < s.len() - 1 {
        lemma_entries_within(s.drop_last(), d, k);
    }
}

/// Reads canonical decimal digits at `pos`, up to the first non-digit.
pub(crate) fn parse_natural(b: &[u8], pos: usize, max: u64, Ghost(target): Ghost<Option<nat>>) -> (r:
    Option<(u64, usize)>)
    requires
        pos <= b@.len(),
        target matches Some(m) ==> natural_at(b@, pos as int, m, max as int),
    ensures
        r matches Some((n, end)) ==> {
            &&& pos < end <= b@.len()
            &&& n <= max
            &&& b@.subrange(pos as int, end as int) == decimal(n as nat)
        },
        target matches Some(m) ==> r == Some((m as u64, (pos + decimal(m).len()) as usize)),
{
    proof {
        if let Some(m) = target {
            lemma_decimal_canonical(m);
            assert forall|k: int| 0 <= k < decimal(m).len() implies b@[pos + k] == #[trigger] decimal(
                m,
            )[k] by {
                assert(b@.subrange(pos as int, pos + decimal(m).len())[k] == b@[pos + k]);
            }
        }
    }
    let len = b.len();
    let mut i: usize = pos;
    let mut n: u64 = 0;
    while i < len && 48 <= b[i] && b[i] <= 57
        invariant
            len == b@.len(),
            pos <= i <= len,
            n <= max,
            n == digits_value(b@.subrange(pos as int, i as int)),
            forall|k: int| pos <= k < i ==> is_digit(#[trigger] b@[k]),
            i > pos + 1 ==> b@[pos as int] != 48u8,
            target matches Some(m) ==> {
                &&& natural_at(b@, pos as int, m, max as int)
                &&& canonical_digits(decimal(m))
                &&& digits_value(decimal(m)) == m
                &&& (decimal(m)[0] == 48u8 ==> m == 0)
                &&& (forall|k: int| 0 <= k < decimal(m).len() ==> b@[pos + k] == #[trigger] decimal(m)[k])
                &&& i <= pos + decimal(m).len()
            },
        decreases len - i,
    {
        if i > pos && b[pos] == 48 {
            proof {
                if let Some(m) = target {
                    assert(b@[pos as int] == decimal(m)[0]);
                }
            }
            return None;
        }
        let d = (b[i] - 48) as u64;
        proof {
            assert(b@.subrange(pos as int, i + 1).drop_last() =~= b@.subrange(pos as int, i as int));
            assert(digits_value(b@.subrange(pos as int, i + 1)) == 10 * n + d);
        }
        if d > max || n > (max - d) / 10 {
            proof {
                assert(10 * n + d > max) by (nonlinear_arith)
                    requires
                        d > max || n > (max - d) / 10,
                        d <= 9,
                ;
                if let Some(m) = target {
                    let dm = decimal(m);
                    assert(i < pos + dm.len());
                    assert(dm.subrange(0, i + 1 - pos) =~= b@.subrange(pos as int, i + 1));
                    lemma_digits_value_prefix(dm, i + 1 - pos);
                }
            }
            return None;
        }
        proof {
            assert(10 * n + d <= max) by (nonlinear_arith)
                requires
                    n <= (max - d) / 10,
                    d <= max,
            ;
        }
        n = 10 * n + d;
        i = i + 1;
    }
    if i == pos {
        return None;
    }
    proof {
        let s = b@.subrange(pos as int, i as int);
        assert(forall|k: int| 0 <= k < s.len() ==> is_digit(#[trigger] s[k])) by {
            assert(forall|k: int| 0 <= k < s.len() ==> s[k] == b@[pos + k]);
        }
        lemma_canonical_digits(s);
        if let Some(m) = target {
            if i < pos + decimal(m).len() {
                assert(is_digit(decimal(m)[i - pos]));
            }
            assert(i == pos + decimal(m).len());
            assert(s =~= decimal(m));
        }
    }
    Some((n, i))
}

/// Reads a byte string `<len>:<bytes>` at `pos`.
fn parse_bytes(b: &[u8], pos: usize, Ghost(target): Ghost<Option<Seq<u8>>>) -> (r: Option<(Vec<u8>, usize)>)
    requires
        pos <= b@.len(),
        target matches Some(s) ==> pos + enc_bytes(s).len() <= b@.len() && b@.subrange(
            pos as int,
            pos + enc_bytes(s).len(),
        ) == enc_bytes(s),
    ensures
        r matches Some((s, end)) ==> {
            &&& pos < end <= b@.len()
            &&& b@.subrange(pos as int, end as int) == enc_bytes(s@)
        },
        target matches Some(s) ==> (r matches Some((x, end)) && x@ == s && end == pos + enc_bytes(
            s,
        ).len()),
{
    let len = b.len();
    let ghost count: Option<nat> = match target {
        Some(s) => Some(s.len()),
        None => None,
    };
    proof {
        if let Some(s) = target {
            let e = enc_bytes(s);
            let l: int = decimal(s.len()).len() as int;
            assert(b@.subrange(pos as int, pos + l) =~= e.subrange(0, l as int));
            assert(e.subrange(0, l as int) =~= decimal(s.len()));
            assert(b@[pos + l] == e[l as int]);
        }
    }
    match parse_natural(b, pos, len as u64, Ghost(count)) {
        None => None,
        Some((n, colon)) => {
            if colon >= len || b[colon] != 58 {
                return None;
            }
            let n = n as usize;
            if n > len - colon - 1 {
                return None;
            }
            let start = colon + 1;
            let s = crate::bytes::copy_range(b, start, start + n);
            proof {
                assert(b@.subrange(pos as int, (start + n) as int) =~= b@.subrange(
                    pos as int,
                    colon as int,
                ) + seq![58u8] + s@);
                if let Some(t) = target {
                    let l: int = decimal(t.len()).len() as int;
                    assert(s@ =~= b@.subrange(pos + l + 1, pos + l + 1 + t.len()));
                    assert(b@.subrange(pos + l + 1, pos + l + 1 + t.len()) =~= enc_bytes(t).subrange(
                        l + 1,
                        l + 1 + t.len() as int,
                    ));
                    assert(s@ =~= t);
                }
            }
            Some((s, start + n))
        },
    }
}

/// Reads an integer `i<n>e` at `pos`; `n` is canonical and fits an `i64`.
fn parse_int(b: &[u8], pos: usize, Ghost(target): Ghost<Option<i64>>) -> (r: Option<(i64, usize)>)
    requires
        pos < b@.len(),
        b@[pos as int] == 105u8,
        target matches Some(t) ==> value_at(b@, pos as int, Bencode::Int(t)),
    ensures
        r matches Some((n, end)) ==> {
            &&& pos < end <= b@.len()
            &&& b@.subrange(pos as int, end as int) == enc(Bencode::Int(n))
        },
        target matches Some(t) ==> (r matches Some((n, end)) && n == t && end == pos + enc(
            Bencode::Int(t),
        ).len()),
{
    let len = b.len();
    let ghost magnitude: Option<nat> = match target {
        Some(t) => Some(if t < 0 { (-t) as nat } else { t as nat }),
        None => None,
    };
    proof {
        if let Some(t) = target {
            let e = enc(Bencode::Int(t));
            let m = magnitude->0;
            lemma_decimal_canonical(m);
            let off: int = if t < 0 { 2 } else { 1 };
            let l: int = decimal(m).len() as int;
            assert forall|k: int| 0 <= k < e.len() implies b@[pos + k] == #[trigger] e[k] by {
                assert(b@.subrange(pos as int, pos + e.len())[k] == b@[pos + k]);
            }
            assert(b@[pos + 1] == e[1]);
            if t < 0 {
                assert(e =~= seq![105u8] + (seq![45u8] + decimal(m)) + seq![101u8]);
            } else {
                assert(e =~= seq![105u8] + decimal(m) + seq![101u8]);
            }
            assert(e.subrange(off, off + l) =~= decimal(m));
            assert(b@.subrange(pos + off, pos + off + l) =~= e.subrange(off, off + l));
            assert(b@.subrange(pos + off, pos + off + l) =~= decimal(m));
            assert(b@[pos + off + l] == e[off + l]);
        }
    }
    let negative = pos + 1 < len && b[pos + 1] == 45;
    let start = if negative { pos + 2 } else { pos + 1 };
    let max: u64 = if negative { (i64::MAX as u64) + 1 } else { i64::MAX as u64 };
    proof {
        if let Some(t) = target {
            let m = magnitude->0;
            assert(t < 0 <==> negative) by {
                if t >= 0 {
                    assert(is_digit(decimal(m)[0]));
                }
            }
        }
    }
    match parse_natural(b, start, max, Ghost(magnitude)) {
        None => None,
        Some((m, end)) => {
            if end >= len || b[end] != 101 || (negative && m == 0) {
                return None;
            }
            let n: i64 = if negative {
                if m == (i64::MAX as u64) + 1 {
                    i64::MIN
                } else {
                    -(m as i64)
                }
            } else {
                m as i64
            };
            proof {
                let t = b@.subrange(pos as int, end + 1);
                if negative {
                    assert(-(n as int) == m as int);
                    assert(t =~= seq![105u8] + (seq![45u8] + decimal(m as nat)) + seq![101u8]);
                } else {
                    assert(t =~= seq![105u8] + decimal(m as nat) + seq![101u8]);
                }
            }
            Some((n, end + 1))
        },
    }
}

/// Reads the value at `pos`, with at most `depth` levels of nesting.
fn parse_at(b: &[u8], pos: usize, depth: usize, Ghost(target): Ghost<Option<Bencode>>) -> (r: Option<
    (Bencode, usize),
>)
    requires
        pos <= b@.len(),
        target matches Some(t) ==> value_at(b@, pos as int, t) && nesting_within(t, depth as nat),
    ensures
        r matches Some((v, end)) ==> {
            &&& pos < end <= b@.len()
            &&& b@.subrange(pos as int, end as int) == enc(v)
        },
        target matches Some(t) ==> (r matches Some((_, end)) && end == pos + enc(t).len()),
    decreases b@.len() - pos,
{
    proof {
        if let Some(t) = target {
            lemma_enc_first_byte(t);
            assert(b@[pos as int] == b@.subrange(pos as int, pos + enc(t).len())[0]);
        }
    }
    let len = b.len();
    if pos >= len {
        return None;
    }
    let c = b[pos];
    if c == 105 {
        let ghost t_int: Option<i64> = match target {
            Some(Bencode::Int(n)) => Some(n),
            _ => None,
        };
        match parse_int(b, pos, Ghost(t_int)) {
            Some((n, end)) => Some((Bencode::Int(n), end)),
            None => None,
        }
    } else if 48 <= c && c <= 57 {
        let ghost t_bytes: Option<Seq<u8>> = match target {
            Some(Bencode::Bytes(s)) => Some(s@),
            _ => None,
        };
        match parse_bytes(b, pos, Ghost(t_bytes)) {
            Some((s, end)) => Some((Bencode::Bytes(s), end)),
            None => None,
        }
    } else if c == 108 && depth > 0 {
        let ghost ts: Seq<Bencode> = match target {
            Some(Bencode::List(items)) => items@,
            _ => Seq::empty(),
        };
        let ghost has_target = target is Some;
        proof {
            if has_target {
                assert(target == Some(Bencode::List(target->0->List_0)));
                assert(b@.subrange(pos + 1, pos + 1 + enc_items(ts).len()) =~= b@.subrange(
                    pos as int,
                    pos + enc(target->0).len(),
                ).subrange(1, 1 + enc_items(ts).len() as int));
                assert(b@[pos + 1 + enc_items(ts).len()] == enc(target->0)[1 + enc_items(ts).len() as int]);
                assert(ts.take(0) =~= Seq::<Bencode>::empty());
            }
        }
        let mut items: Vec<Bencode> = Vec::new();
        let mut at: usize = pos + 1;
        loop
            invariant
                len == b@.len(),
                pos < at <= len,
                depth > 0,
                b@[pos as int] == 108u8,
                b@.subrange(pos + 1, at as int) == enc_items(items@),
                has_target == target is Some,
                has_target ==> {
                    &&& items@.len() <= ts.len()
                    &&& at == pos + 1 + enc_items(ts.take(items@.len() as int)).len()
                    &&& pos + 1 + enc_items(ts).len() < len
                    &&& b@.subrange(pos + 1, pos + 1 + enc_items(ts).len()) == enc_items(ts)
                    &&& b@[pos + 1 + enc_items(ts).len()] == 101u8
                    &&& items_within(ts, (depth - 1) as nat)
                },
                target matches Some(t) ==> enc(t).len() == 2 + enc_items(ts).len(),
            decreases len - at,
        {
            let ghost k = items@.len() as int;
            proof {
                if has_target {
                    lemma_enc_items_prefix(ts, k);
                    if k < ts.len() {
                        lemma_enc_items_prefix(ts, k + 1);
                        assert(ts.take(k + 1).drop_last() =~= ts.take(k));
                        assert(ts.take(k + 1).last() == ts[k]);
                        let before: int = enc_items(ts.take(k)).len() as int;
                        let item = enc(ts[k]);
                        assert(enc_items(ts.take(k + 1)) == enc_items(ts.take(k)) + item);
                        assert(b@.subrange(at as int, at + item.len()) =~= enc_items(ts).subrange(
                            before,
                            before + item.len(),
                        ));
                        assert(enc_items(ts).subrange(before, before + item.len()) =~= enc_items(
                            ts.take(k + 1),
                        ).subrange(before, before + item.len()));
                        assert(enc_items(ts.take(k + 1)).subrange(before, before + item.len()) =~= item);
                        assert(b@.subrange(at as int, at + item.len()) =~= item);
                        lemma_enc_first_byte(ts[k]);
                        assert(b@.subrange(at as int, at + item.len())[0] == b@[at as int]);
                        assert(b@[at as int] == item[0]);
                        lemma_items_within(ts, (depth - 1) as nat, k);
                    } else {
                        assert(ts.take(k) =~= ts);
                    }
                }
            }
            if at >= len {
                return None;
            }
            if b[at] == 101 {
                let v = Bencode::List(items);
                proof {
                    assert(b@.subrange(pos as int, at + 1) =~= seq![108u8] + b@.subrange(
                        pos + 1,
                        at as int,
                    ) + seq![101u8]);
                }
                return Some((v, at + 1));
            }
            let ghost next: Option<Bencode> = if has_target && k < ts.len() {
                Some(ts[k])
            } else {
                None
            };
            match parse_at(b, at, depth - 1, Ghost(next)) {
                None => {
                    return None;
                },
                Some((v, end)) => {
                    let ghost old_items = items@;
                    items.push(v);
                    proof {
                        assert(items@.drop_last() =~= old_items);
                        assert(b@.subrange(pos + 1, end as int) =~= b@.subrange(pos + 1, at as int)
                            + b@.subrange(at as int, end as int));
                    }
                    at = end;
                },
            }
        }
    } else if c == 100 && depth > 0 {
        let ghost es: Seq<(Vec<u8>, Bencode)> = match target {
            Some(Bencode::Dict(entries)) => entries@,
            _ => Seq::empty(),
        };
        let ghost has_target = target is Some;
        proof {
            if has_target {
                assert(target == Some(Bencode::Dict(target->0->Dict_0)));
                assert(b@.subrange(pos + 1, pos + 1 + enc_entries(es).len()) =~= b@.subrange(
                    pos as int,
                    pos + enc(target->0).len(),
                ).subrange(1, 1 + enc_entries(es).len() as int));
                assert(b@[pos + 1 + enc_entries(es).len()] == enc(target->0)[1 + enc_entries(es).len() as int]);
                assert(es.take(0) =~= Seq::<(Vec<u8>, Bencode)>::empty());
            }
        }
        let mut entries: Vec<(Vec<u8>, Bencode)> = Vec::new();
        let mut at: usize = pos + 1;
        loop
            invariant
                len == b@.len(),
                pos < at <= len,
                depth > 0,
                b@[pos as int] == 100u8,
                b@.subrange(pos + 1, at as int) == enc_entries(entries@),
                has_target == target is Some,
                has_target ==> {
                    &&& entries@.len() <= es.len()
                    &&& at == pos + 1 + enc_entries(es.take(entries@.len() as int)).len()
                    &&& pos + 1 + enc_entries(es).len() < len
                    &&& b@.subrange(pos + 1, pos + 1 + enc_entries(es).len()) == enc_entries(es)
                    &&& b@[pos + 1 + enc_entries(es).len()] == 101u8
                    &&& entries_within(es, (depth - 1) as nat)
                },
                target matches Some(t) ==> enc(t).len() == 2 + enc_entries(es).len(),
            decreases len - at,
        {
            let ghost k = entries@.len() as int;
            proof {
                if has_target {
                    lemma_enc_entries_prefix(es, k);
                    if k < es.len() {
                        lemma_enc_entries_prefix(es, k + 1);
                        assert(es.take(k + 1).drop_last() =~= es.take(k));
                        assert(es.take(k + 1).last() == es[k]);
                        let before: int = enc_entries(es.take(k)).len() as int;
                        let key = enc_bytes(es[k].0@);
                        let val = enc(es[k].1);
                        assert(enc_entries(es.take(k + 1)) == enc_entries(es.take(k)) + key + val);
                        assert(b@.subrange(at as int, at + key.len() + val.len()) =~= enc_entries(
                            es,
                        ).subrange(before, before + key.len() + val.len()));
                        assert(enc_entries(es).subrange(before, before + key.len() + val.len())
                            =~= enc_entries(es.take(k + 1)).subrange(
                            before,
                            before + key.len() + val.len(),
                        ));
                        assert(enc_entries(es.take(k + 1)).subrange(
                            before,
                            before + key.len() + val.len(),
                        ) =~= key + val);
                        let whole = b@.subrange(at as int, at + key.len() + val.len());
                        assert(whole =~= key + val);
                        assert(b@.subrange(at as int, at + key.len()) =~= whole.subrange(0, key.len() as int));
                        assert(b@.subrange(at as int, at + key.len()) =~= key);
                        assert(b@.subrange(at + key.len(), at + key.len() + val.len()) =~= whole.subrange(
                            key.len() as int,
                            key.len() + val.len() as int,
                        ));
                        assert(b@.subrange(at + key.len(), at + key.len() + val.len()) =~= val);
                        assert(b@.subrange(at as int, at + key.len())[0] == b@[at as int]);
                        lemma_enc_bytes_first(es[k].0@);
                        assert(b@[at as int] == key[0]);
                        lemma_entries_within(es, (depth - 1) as nat, k);
                    } else {
                        assert(es.take(k) =~= es);
                    }
                }
            }
            if at >= len {
                return None;
            }
            if b[at] == 101 {
                let v = Bencode::Dict(entries);
                proof {
                    assert(b@.subrange(pos as int, at + 1) =~= seq![100u8] + b@.subrange(
                        pos + 1,
                        at as int,
                    ) + seq![101u8]);
                }
                return Some((v, at + 1));
            }
            let ghost next_key: Option<Seq<u8>> = if has_target && k < es.len() {
                Some(es[k].0@)
            } else {
                None
            };
            match parse_bytes(b, at, Ghost(next_key)) {
                None => {
                    return None;
                },
                Some((key, key_end)) => {
                    let ghost next_value: Option<Bencode> = if has_target && k < es.len() {
                        Some(es[k].1)
                    } else {
                        None
                    };
                    match parse_at(b, key_end, depth - 1, Ghost(next_value)) {
                        None => {
                            return None;
                        },
                        Some((v, end)) => {
                            let ghost old_entries = entries@;
                            entries.push((key, v));
                            proof {
                                assert(entries@.drop_last() =~= old_entries);
                                assert(b@.subrange(pos + 1, end as int) =~= b@.subrange(
                                    pos + 1,
                                    at as int,
                                ) + b@.subrange(at as int, key_end as int) + b@.subrange(
                                    key_end as int,
                                    end as int,
                                ));
                            }
                            at = end;
                        },
                    }
                },
            }
        }
    } else {
        None
    }
}

/// Decodes `b` as exactly one bencoded value. Every encoding of a value
/// that nests lists and dictionaries at most `MAX_DEPTH` deep is decoded.
pub fn decode(b: &[u8]) -> (r: Option<Bencode>)
    ensures
        r matches Some(v) ==> enc(v) == b@,
        (exists|v: Bencode| #[trigger] enc(v) == b@ && nesting_within(v, MAX_DEPTH as nat)) ==> r is Some,
{
    let ghost target: Option<Bencode> = if exists|v: Bencode| #[trigger] enc(v) == b@ && nesting_within(
        v,
        MAX_DEPTH as nat,
    ) {
        Some(choose|v: Bencode| #[trigger] enc(v) == b@ && nesting_within(v, MAX_DEPTH as nat))
    } else {
        None
    };
    proof {
        if let Some(t) = target {
            assert(b@.subrange(0, enc(t).len() as int) =~= b@);
        }
    }
    match parse_at(b, 0, MAX_DEPTH, Ghost(target)) {
        Some((v, end)) => {
            if end == b.len() {
                assert(b@.subrange(0, end as int) =~= b@);
                Some(v)
            } else {
                None
            }
        },
        None => None,
    }
}

/// Appends the encoding of a byte string.
pub fn push_enc_bytes(out: &mut Vec<u8>, s: &[u8])
    ensures
        final(out)@ == old(out)@ + enc_bytes(s@),
{
    let ghost init = out@;
    push_decimal(out, s.len() as u64);
    out.push(58u8);
    crate::bytes::push_range(out, s, 0, s.len());
    assert(s@.subrange(0, s@.len() as int) =~= s@);
    assert(out@ =~= init + enc_bytes(s@));
}

/// Appends the encoding of `v`.
pub fn push_enc(out: &mut Vec<u8>, v: &Bencode)
    ensures
        final(out)@ == old(out)@ + enc(*v),
    decreases v,
{
    let ghost init = out@;
    match v {
        Bencode::Int(n) => {
            out.push(105u8);
            if *n < 0 {
                out.push(45u8);
                let m: u64 = if *n == i64::MIN {
                    (i64::MAX as u64) + 1
                } else {
                    (-*n) as u64
                };
                push_decimal(out, m);
            } else {
                push_decimal(out, *n as u64);
            }
            out.push(101u8);
            assert(out@ =~= init + enc(*v));
        },
        Bencode::Bytes(s) => {
            push_enc_bytes(out, s.as_slice());
        },
        Bencode::List(items) => {
            out.push(108u8);
            let mut i: usize = 0;
            while i < items.len()
                invariant
                    i <= items@.len(),
                    *v == Bencode::List(*items),
                    out@ == init + seq![108u8] + enc_items(items@.subrange(0, i as int)),
                decreases items@.len() - i,
            {
                assert(decreases_to!(*v => (*v)->List_0));
                assert(decreases_to!(*items => items[i as int]));
                push_enc(out, &items[i]);
                i = i + 1;
                assert(items@.subrange(0, i as int).drop_last() =~= items@.subrange(0, i - 1));
                assert(out@ =~= init + seq![108u8] + enc_items(items@.subrange(0, i as int)));
            }
            out.push(101u8);
            assert(items@.subrange(0, items@.len() as int) =~= items@);
            assert(out@ =~= init + enc(*v));
        },
        Bencode::Dict(entries) => {
            out.push(100u8);
            let mut i: usize = 0;
            while i < entries.len()
                invariant
                    i <= entries@.len(),
                    *v == Bencode::Dict(*entries),
                    out@ == init + seq![100u8] + enc_entries(entries@.subrange(0, i as int)),
                decreases entries@.len() - i,
            {
                let entry = &entries[i];
                push_enc_bytes(out, entry.0.as_slice());
                assert(decreases_to!(*v => (*v)->Dict_0));
                assert(decreases_to!(*entries => entries[i as int]));
                assert(decreases_to!(entries[i as int] => entries[i as int].1));
                push_enc(out, &entry.1);
                i = i + 1;
                assert(entries@.subrange(0, i as int).drop_last() =~= entries@.subrange(0, i - 1));
                assert(out@ =~= init + seq![100u8] + enc_entries(entries@.subrange(0, i as int)));
            }
            out.push(101u8);
            assert(entries@.subrange(0, entries@.len() as int) =~= entries@);
            assert(out@ =~= init + enc(*v));
        },
    }
}

/// The encoding of `v`.
pub fn encode(v: &Bencode) -> (r: Vec<u8>)
    ensures
        r@ == enc(*v),
{
    let mut out: Vec<u8> = Vec::new();
    push_enc(&mut out, v);
    assert(out@ =~= enc(*v));
    out
}

} // verus!

verus! {

/// The value of the first entry whose key is `key`.
pub open spec fn lookup(entries: Seq<(Vec<u8>, Bencode)>, key: Seq<u8>) -> Option<Bencode>
    decreases entries.len(),
{
    if entries.len() == 0 {
        None
    } else if entries[0].0@ == key {
        Some(entries[0].1)
    } else {
        lookup(entries.drop_first(), key)
    }
}

/// The value of the first entry whose key is `key`.
pub fn dict_get<'a>(entries: &'a Vec<(Vec<u8>, Bencode)>, key: &[u8]) -> (r: Option<&'a Bencode>)
    ensures
        match r {
            Some(x) => lookup(entries@, key@) == Some(*x),
            None => lookup(entries@, key@) is None,
        },
{
    let mut i: usize = 0;
    assert(entries@.subrange(0, entries@.len() as int) =~= entries@);
    while i < entries.len()
        invariant
            i <= entries@.len(),
            lookup(entries@, key@) == lookup(entries@.subrange(i as int, entries@.len() as int), key@),
        decreases entries@.len() - i,
    {
        let ghost rest = entries@.subrange(i as int, entries@.len() as int);
        if crate::bytes::bytes_eq(entries[i].0.as_slice(), key) {
            assert(rest[0] == entries@[i as int]);
            return Some(&entries[i].1);
        }
        assert(rest.drop_first() =~= entries@.subrange(i + 1, entries@.len() as int));
        i = i + 1;
    }
    None
}

} // verus!

verus! {

/// No key occurs twice among the entries.
pub open spec fn distinct_keys(s: Seq<(Vec<u8>, Bencode)>) -> bool {
    forall|i: int, j: int| 0 <= i < j < s.len() ==> s[i].0@ != s[j].0@
}

proof fn lemma_lookup_entry(s: Seq<(Vec<u8>, Bencode)>, key: Seq<u8>)
    requires
        distinct_keys(s),
    ensures
        forall|i: int| 0 <= i < s.len() && s[i].0@ == key ==> lookup(s, key) == Some(s[i].1),
        lookup(s, key) is None ==> forall|i: int| 0 <= i < s.len() ==> s[i].0@ != key,
        lookup(s, key) is Some ==> exists|i: int| 0 <= i < s.len() && s[i].0@ == key,
    decreases s.len(),
{
    if s.len() > 0 {
        let t = s.drop_first();
        assert(distinct_keys(t)) by {
            assert forall|i: int, j: int| 0 <= i < j < t.len() implies t[i].0@ != t[j].0@ by {
                assert(t[i] == s[i + 1] && t[j] == s[j + 1]);
            }
        }
        lemma_lookup_entry(t, key);
        assert forall|i: int| 0 <= i < s.len() && s[i].0@ == key implies lookup(s, key) == Some(
            s[i].1,
        ) by {
            if i > 0 {
                assert(s[0].0@ != s[i].0@);
                assert(t[i - 1] == s[i]);
            }
        }
        assert forall|i: int| 0 <= i < s.len() && lookup(s, key) is None implies s[i].0@ != key by {
            if i > 0 {
                assert(t[i - 1] == s[i]);
            }
        }
        if lookup(s, key) is Some && s[0].0@ != key {
            let k = choose|k: int| 0 <= k < t.len() && t[k].0@ == key;
            assert(s[k + 1] == t[k]);
        }
    }
}

/// In dictionaries whose entries are the same up to order, each key
/// appearing once, every key looks up the same value.
pub proof fn lemma_lookup_order_independent(a: Seq<(Vec<u8>, Bencode)>, b: Seq<(Vec<u8>, Bencode)>, key: Seq<u8>)
    requires
        a.to_multiset() == b.to_multiset(),
        distinct_keys(a),
        distinct_keys(b),
    ensures
        lookup(a, key) == lookup(b, key),
{
    broadcast use vstd::seq_lib::group_to_multiset_ensures;

    lemma_lookup_entry(a, key);
    lemma_lookup_entry(b, key);
    if lookup(a, key) is Some {
        let i = choose|i: int| 0 <= i < a.len() && a[i].0@ == key;
        assert(a.contains(a[i]));
        assert(a.to_multiset().count(a[i]) > 0);
        assert(b.to_multiset().count(a[i]) > 0);
        assert(b.contains(a[i]));
        let j = choose|j: int| 0 <= j < b.len() && b[j] == a[i];
        assert(b[j].0@ == key);
    } else if lookup(b, key) is Some {
        let j = choose|j: int| 0 <= j < b.len() && b[j].0@ == key;
        assert(b.contains(b[j]));
        assert(b.to_multiset().count(b[j]) > 0);
        assert(a.to_multiset().count(b[j]) > 0);
        assert(a.contains(b[j]));
        let i = choose|i: int| 0 <= i < a.len() && a[i] == b[j];
        assert(a[i].0@ == key);
    }
}

} // verus!
