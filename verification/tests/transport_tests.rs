use storm::transport::{
    get_role, prepare_transport, profile_key, transport_plan, try_prepare_transport, DeviceKeys,
    Role, StreamCounters, TransportPlan,
};

fn key(first: u8) -> [u8; 32] {
    let mut k = [7u8; 32];
    k[0] = first;
    k
}

#[test]
fn role_follows_key_order() {
    let a = key(1);
    let b = key(2);
    assert_eq!(get_role(&a, &b), Role::Alice);
    assert_eq!(get_role(&b, &a), Role::Bob);
}

#[test]
fn role_decided_by_first_differing_byte() {
    let mut a = [0u8; 32];
    let mut b = [0u8; 32];
    a[31] = 5;
    b[31] = 4;
    a[10] = 1;
    b[10] = 2;
    assert_eq!(get_role(&a, &b), Role::Alice);
    assert_eq!(get_role(&b, &a), Role::Bob);
}

#[test]
fn same_key_plays_bob() {
    let a = key(9);
    assert_eq!(get_role(&a, &a), Role::Bob);
}

#[test]
fn stream_numbers_count_up_per_peer() {
    let mut c = StreamCounters::new();
    let p = key(1);
    let q = key(2);
    assert_eq!(c.next_stream_number(&p), 0);
    assert_eq!(c.next_stream_number(&p), 1);
    assert_eq!(c.next_stream_number(&q), 0);
    assert_eq!(c.next_stream_number(&p), 2);
    assert_eq!(c.next_stream_number(&q), 1);
}

fn public_of(secret: [u8; 32]) -> [u8; 32] {
    let pair: bramble_crypto::KeyPair = bramble_crypto::SecretKey::from(secret).into();
    let mut out = [0u8; 32];
    out.copy_from_slice(pair.public().as_ref());
    out
}

#[test]
fn both_peers_agree_on_the_root_key() {
    let sa = [3u8; 32];
    let sb = [5u8; 32];
    let ka = DeviceKeys::from_secret(sa);
    let kb = DeviceKeys::from_secret(sb);
    let pb = kb.public();
    let mut ca = StreamCounters::new();
    let mut cb = StreamCounters::new();
    let plan_a: TransportPlan = prepare_transport(&mut ca, &ka, &pb);
    let plan_b: TransportPlan = try_prepare_transport(&mut cb, &kb, &ka.public()).unwrap();
    assert_eq!(plan_a.root_key, plan_b.root_key);
    assert_ne!(plan_a.root_key, sa);
    assert_ne!(plan_a.root_key, pb);
    assert_ne!(plan_a.role, plan_b.role);
    assert_eq!(plan_a.stream_number, 0);
    assert_eq!(plan_a.role, get_role(&ka.public(), &pb));
    let again = prepare_transport(&mut ca, &ka, &pb);
    assert_eq!(again.stream_number, 1);
    assert_eq!(again.root_key, plan_a.root_key);
}

#[test]
fn failed_agreement_gives_no_plan_and_takes_no_number() {
    let ka = DeviceKeys::from_secret([3u8; 32]);
    let zero = [0u8; 32];
    let mut c = StreamCounters::new();
    assert_eq!(try_prepare_transport(&mut c, &ka, &zero), None);
    assert_eq!(c.next_stream_number(&zero), 0);
}

#[test]
fn plan_from_root_key() {
    let mut c = StreamCounters::new();
    let us = key(2);
    let them = key(1);
    let plan = transport_plan(&mut c, [8u8; 32], &us, &them);
    assert_eq!(plan, TransportPlan { root_key: [8u8; 32], role: Role::Bob, stream_number: 0 });
    let plan = transport_plan(&mut c, [8u8; 32], &us, &them);
    assert_eq!(plan.stream_number, 1);
}

#[test]
fn device_keys_derive_the_public_key() {
    let keys = DeviceKeys::from_secret([3u8; 32]);
    assert_eq!(keys.secret(), [3u8; 32]);
    assert_eq!(keys.public(), public_of([3u8; 32]));
    assert_ne!(keys.public(), [3u8; 32]);
    let stored = profile_key(Some([4u8; 32]));
    assert_eq!(stored.secret(), [4u8; 32]);
    assert_eq!(stored.public(), public_of([4u8; 32]));
    let fresh = profile_key(None);
    assert_eq!(fresh.public(), public_of(fresh.secret()));
    let other = DeviceKeys::generate();
    assert_ne!(other.secret(), fresh.secret());
}
