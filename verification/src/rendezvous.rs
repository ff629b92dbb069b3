//! Rendezvous over Tor: from the stream key two peers share, each derives
//! the onion service it hosts and the one it connects to.
use crate::text::{chars_of, string_from_chars};
use crate::tor::{decimal, decimal_chars, ONION_SERVICE_PORT};
use crate::transport::Role;
use vstd::prelude::*;

verus! {

/// The first `len` bytes of the key stream of `key`, as
/// `bramble_crypto::stream` writes them into a zeroed buffer.
pub uninterp spec fn keystream(key: Seq<u8>, len: nat) -> Seq<u8>;

/// Calls `bramble_crypto::stream` on a 64-byte zeroed buffer. The contract
/// claims only that the bytes written are a function of the key.
#[verifier::external_body]
fn stream_64(key: &[u8; 32]) -> (out: [u8; 64])
    ensures
        out@ == keystream(key@, 64),
{
    let mut out = [0u8; 64];
    bramble_crypto::stream(&bramble_crypto::SymmetricKey::from(*key), &mut out);
    out
}

/// The 64 bytes of an ed25519 expanded secret key derived from a 32-byte
/// seed, as `ed25519_dalek::ExpandedSecretKey::from` computes it.
pub uninterp spec fn expanded_secret_key(seed: Seq<u8>) -> Seq<u8>;

/// Calls `ed25519_dalek::SecretKey::from_bytes` on the seed, which accepts
/// any 32 bytes, then `ExpandedSecretKey::from` and `to_bytes`. The contract
/// claims only that the result is a function of the seed.
#[verifier::external_body]
fn expand_secret(seed: &[u8; 32]) -> (secret: [u8; 64])
    ensures
        secret@ == expanded_secret_key(seed@),
{
    let key = ed25519_dalek::SecretKey::from_bytes(&seed[..]).unwrap();
    ed25519_dalek::ExpandedSecretKey::from(&key).to_bytes()
}

/// The onion address, without `.onion`, of the service hosted with an
/// expanded secret key, as torut computes it.
pub uninterp spec fn onion_address(secret: Seq<u8>) -> Seq<char>;

/// Calls `torut::onion::TorSecretKeyV3::public`, then `get_onion_address`
/// and `get_address_without_dot_onion`. `public` accepts any 64 bytes. The
/// contract claims only that the result is a function of the secret key.
#[verifier::external_body]
fn onion_address_of(secret: &[u8; 64]) -> (addr: String)
    ensures
        addr@ == onion_address(secret@),
{
    torut::onion::TorSecretKeyV3::from(*secret).public().get_onion_address().get_address_without_dot_onion()
}

/// The seeds of the two onion services: Alice's from the first half of the
/// key material, Bob's from the second. Ours, then the peer's.
pub open spec fn seeds_for(material: Seq<u8>, role: Role) -> (Seq<u8>, Seq<u8>) {
    let alice = material.subrange(0, 32);
    let bob = material.subrange(32, 64);
    match role {
        Role::Alice => (alice, bob),
        Role::Bob => (bob, alice),
    }
}

/// Splits 64 bytes of key material into our seed and the peer's seed.
pub fn endpoint_seeds(material: &[u8; 64], role: Role) -> (seeds: ([u8; 32], [u8; 32]))
    ensures
        (seeds.0@, seeds.1@) == seeds_for(material@, role),
{
    let mut alice = [0u8; 32];
    let mut bob = [0u8; 32];
    for i in 0..32
        invariant
            material@.len() == 64,
            alice@.len() == 32,
            bob@.len() == 32,
            forall|j: int| 0 <= j < i ==> alice@[j] == material@[j],
            forall|j: int| 0 <= j < i ==> bob@[j] == material@[j + 32],
    {
        alice[i] = material[i];
        bob[i] = material[i + 32];
    }
    assert(alice@ =~= material@.subrange(0, 32));
    assert(bob@ =~= material@.subrange(32, 64));
    match role {
        Role::Alice => (alice, bob),
        Role::Bob => (bob, alice),
    }
}

/// What a rendezvous needs: the secret key of the onion service we host, and
/// the address of the peer's one.
#[derive(Debug, PartialEq, Eq)]
pub struct EndpointPlan {
    pub our_secret: [u8; 64],
    pub peer_address: String,
}

/// The secret key of the service hosted by the peer in `role`.
pub open spec fn hosted_secret(stream_key: Seq<u8>, role: Role) -> Seq<u8> {
    expanded_secret_key(seeds_for(keystream(stream_key, 64), role).0)
}

/// The secret key of the service that the peer in `role` connects to.
pub open spec fn sought_secret(stream_key: Seq<u8>, role: Role) -> Seq<u8> {
    expanded_secret_key(seeds_for(keystream(stream_key, 64), role).1)
}

/// Derives both endpoints of a rendezvous from the shared stream key.
pub fn prepare_endpoints(stream_key: &[u8; 32], role: Role) -> (plan: EndpointPlan)
    ensures
        plan.our_secret@ == hosted_secret(stream_key@, role),
        plan.peer_address@ == onion_address(sought_secret(stream_key@, role)),
{
    let material = stream_64(stream_key);
    let (ours, theirs) = endpoint_seeds(&material, role);
    let our_secret = expand_secret(&ours);
    let peer_secret = expand_secret(&theirs);
    let peer_address = onion_address_of(&peer_secret);
    EndpointPlan { our_secret, peer_address }
}

/// The address given to the SOCKS proxy to reach an onion service on the
/// rendezvous port.
pub open spec fn connect_target_text(address: Seq<char>) -> Seq<char> {
    address + ".onion:"@ + decimal(ONION_SERVICE_PORT as nat)
}

/// The address given to the SOCKS proxy to reach the peer's onion service.
pub fn connect_target(address: &String) -> (target: String)
    ensures
        target@ == connect_target_text(address@),
{
    let mut v = chars_of(address.as_str());
    let ghost start = v@;
    let suffix = chars_of(".onion:");
    let port = decimal_chars(ONION_SERVICE_PORT as u64);
    let mut k: usize = 0;
    while k < suffix.len()
        invariant
            0 <= k <= suffix.len(),
            v@ == start + suffix@.take(k as int),
        decreases suffix.len() - k,
    {
        v.push(suffix[k]);
        k = k + 1;
    }
    assert(suffix@.take(suffix.len() as int) == suffix@);
    let ghost mid = v@;
    let mut k: usize = 0;
    while k < port.len()
        invariant
            0 <= k <= port.len(),
            v@ == mid + port@.take(k as int),
        decreases port.len() - k,
    {
        v.push(port[k]);
        k = k + 1;
    }
    assert(port@.take(port.len() as int) == port@);
    string_from_chars(&v)
}

/// The two peers of a rendezvous meet: each connects to exactly the onion
/// service that the other hosts.
pub proof fn law_peers_meet(stream_key: Seq<u8>)
    ensures
        sought_secret(stream_key, Role::Alice) == hosted_secret(stream_key, Role::Bob),
        sought_secret(stream_key, Role::Bob) == hosted_secret(stream_key, Role::Alice),
{
}

/// Each peer's seed is one whole half of the key material, byte for byte:
/// Alice hosts with the first 32 bytes and seeks the last 32, Bob the
/// reverse. So the service Alice hosts comes from the first half of the key
/// stream, and the one Bob hosts from the second.
pub proof fn law_seeds_are_halves(material: Seq<u8>, stream_key: Seq<u8>)
    requires
        material.len() == 64,
    ensures
        seeds_for(material, Role::Alice).0.len() == 32,
        seeds_for(material, Role::Alice).1.len() == 32,
        forall|j: int| 0 <= j < 32 ==> #[trigger] seeds_for(material, Role::Alice).0[j] == material[j],
        forall|j: int| 0 <= j < 32 ==> #[trigger] seeds_for(material, Role::Alice).1[j] == material[j + 32],
        seeds_for(material, Role::Bob) == (seeds_for(material, Role::Alice).1, seeds_for(material, Role::Alice).0),
        hosted_secret(stream_key, Role::Alice) == expanded_secret_key(keystream(stream_key, 64).subrange(0, 32)),
        hosted_secret(stream_key, Role::Bob) == expanded_secret_key(keystream(stream_key, 64).subrange(32, 64)),
{
}

} // verus!
