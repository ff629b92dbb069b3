use storm::rendezvous::{connect_target, endpoint_seeds, prepare_endpoints};
use storm::transport::Role;

fn address_of(secret: [u8; 64]) -> String {
    torut::onion::TorSecretKeyV3::from(secret)
        .public()
        .get_onion_address()
        .get_address_without_dot_onion()
}

#[test]
fn seeds_split_by_role() {
    let mut m = [0u8; 64];
    for (i, b) in m.iter_mut().enumerate() {
        *b = i as u8;
    }
    let (ours, theirs) = endpoint_seeds(&m, Role::Alice);
    assert_eq!(ours[0], 0);
    assert_eq!(theirs[0], 32);
    let (ours_b, theirs_b) = endpoint_seeds(&m, Role::Bob);
    assert_eq!(ours_b, theirs);
    assert_eq!(theirs_b, ours);
}

#[test]
fn peers_meet_at_each_others_service() {
    let key = [42u8; 32];
    let alice = prepare_endpoints(&key, Role::Alice);
    let bob = prepare_endpoints(&key, Role::Bob);
    assert_ne!(alice.our_secret, bob.our_secret);
    assert_eq!(alice.peer_address, address_of(bob.our_secret));
    assert_eq!(bob.peer_address, address_of(alice.our_secret));
    assert_eq!(alice.peer_address.len(), 56);
}

#[test]
fn secret_depends_on_key() {
    let a = prepare_endpoints(&[1u8; 32], Role::Alice);
    let b = prepare_endpoints(&[2u8; 32], Role::Alice);
    assert_ne!(a.our_secret, b.our_secret);
    assert_ne!(a.peer_address, b.peer_address);
}

#[test]
fn proxy_target() {
    assert_eq!(connect_target(&"abc".to_string()), "abc.onion:1917");
    assert_eq!(connect_target(&String::new()), ".onion:1917");
}
