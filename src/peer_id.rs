//! This client's peer id: a fixed client prefix and random alphanumerics.
use vstd::prelude::*;

verus! {

/// Length of the random part of a peer id.
pub const PEER_ID_RANDOM_LEN: usize = 12;

/// `A-Z`, `a-z` or `0-9`.
pub open spec fn is_alphanumeric(c: u8) -> bool {
    (48 <= c <= 57) || (65 <= c <= 90) || (97 <= c <= 122)
}

/// The client prefix `-CN0000-`: client code and version.
pub open spec fn peer_id_prefix() -> Seq<u8> {
    seq![45u8, 67u8, 78u8, 48u8, 48u8, 48u8, 48u8, 45u8]
}

/// Relies on rand 0.8: `thread_rng().sample_iter(Alphanumeric)` yields
/// bytes drawn from `A-Z`, `a-z` and `0-9`, and `take(n)` keeps `n` of them.
#[verifier::external_body]
fn random_alphanumeric(n: usize) -> (r: Vec<u8>)
    ensures
        r@.len() == n,
        forall|i: int| 0 <= i < n ==> is_alphanumeric(#[trigger] r@[i]),
{
    rand::Rng::sample_iter(rand::thread_rng(), rand::distributions::Alphanumeric).take(n).collect()
}

/// The peer id made of the client prefix and `suffix`.
pub fn peer_id_from_suffix(suffix: &[u8]) -> (r: Vec<u8>)
    ensures
        r@ == peer_id_prefix() + suffix@,
{
    let mut r: Vec<u8> = vec![45u8, 67u8, 78u8, 48u8, 48u8, 48u8, 48u8, 45u8];
    crate::bytes::push_range(&mut r, suffix, 0, suffix.len());
    assert(suffix@.subrange(0, suffix@.len() as int) =~= suffix@);
    assert(r@ =~= peer_id_prefix() + suffix@);
    r
}

/// A fresh 20-byte peer id: the client prefix, then 12 random
/// alphanumerics.
pub fn generate_peer_id() -> (r: Vec<u8>)
    ensures
        r@.len() == 20,
        r@.subrange(0, 8) == peer_id_prefix(),
        forall|i: int| 8 <= i < 20 ==> is_alphanumeric(#[trigger] r@[i]),
{
    let suffix = random_alphanumeric(PEER_ID_RANDOM_LEN);
    let r = peer_id_from_suffix(suffix.as_slice());
    assert(r@.subrange(0, 8) =~= peer_id_prefix());
    assert(forall|i: int| 8 <= i < 20 ==> r@[i] == suffix@[i - 8]);
    r
}

} // verus!
