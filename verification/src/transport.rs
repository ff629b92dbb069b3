//! Roles and stream numbers of the transport connections between two peers.
use vstd::prelude::*;

verus! {

/// The role a peer plays in a protocol run with another peer.
#[derive(Debug, PartialEq, Eq, Clone, Copy)]
pub enum Role {
    Alice,
    Bob,
}

/// `a` orders before `b` byte by byte, a proper prefix ordering first.
pub open spec fn bytes_less(a: Seq<u8>, b: Seq<u8>) -> bool {
    ||| exists|i: int|
        0 <= i < a.len() && i < b.len() && a.take(i) == b.take(i) && #[trigger] a[i] < b[i]
    ||| (a.len() < b.len() && a == b.take(a.len() as int))
}

/// The role taken towards a peer: Alice when our key orders first, else Bob.
pub open spec fn role_for(us: Seq<u8>, them: Seq<u8>) -> Role {
    if bytes_less(us, them) {
        Role::Alice
    } else {
        Role::Bob
    }
}

/// Picks our role towards `them` by comparing public keys byte by byte.
pub fn get_role(us: &[u8; 32], them: &[u8; 32]) -> (role: Role)
    ensures
        role == role_for(us@, them@),
{
    let mut i: usize = 0;
    while i < 32
        invariant
            0 <= i <= 32,
            us@.len() == 32,
            them@.len() == 32,
            forall|j: int| 0 <= j < i ==> us@[j] == them@[j],
        decreases 32 - i,
    {
        if us[i] != them[i] {
            let less = us[i] < them[i];
            proof {
                assert(us@.take(i as int) =~= them@.take(i as int));
                if !less {
                    assert forall|k: int|
                        0 <= k < us@.len() && k < them@.len() && us@.take(k) == them@.take(
                            k,
                        ) implies !(#[trigger] us@[k] < them@[k]) by {
                        if k < i {
                        } else if k > i {
                            assert(us@.take(k)[i as int] == them@.take(k)[i as int]);
                        }
                    }
                }
            }
            if less {
                return Role::Alice;
            } else {
                return Role::Bob;
            }
        }
        i = i + 1;
    }
    proof {
        assert(us@ =~= them@);
        assert forall|k: int|
            0 <= k < us@.len() && k < them@.len() && us@.take(k) == them@.take(k) implies !(
            #[trigger] us@[k] < them@[k]) by {
        }
    }
    Role::Bob
}

proof fn lemma_first_difference(a: Seq<u8>, b: Seq<u8>) -> (i: int)
    requires
        a.len() == b.len(),
        a != b,
    ensures
        0 <= i < a.len(),
        a.take(i) == b.take(i),
        a[i] != b[i],
    decreases a.len(),
{
    if a.len() == 0 {
        assert(a =~= b);
    }
    if a[0] != b[0] {
        assert(a.take(0) =~= b.take(0));
        0
    } else {
        if a.drop_first() == b.drop_first() {
            assert(a =~= b) by {
                assert forall|k: int| 0 <= k < a.len() implies a[k] == b[k] by {
                    if k > 0 {
                        assert(a[k] == a.drop_first()[k - 1]);
                        assert(b[k] == b.drop_first()[k - 1]);
                    }
                }
            }
        }
        let j = lemma_first_difference(a.drop_first(), b.drop_first());
        assert(a.take(j + 1) =~= b.take(j + 1)) by {
            assert forall|k: int| 0 <= k < j + 1 implies #[trigger] a.take(j + 1)[k] == b.take(j + 1)[k] by {
                if k > 0 {
                    assert(a.drop_first().take(j)[k - 1] == b.drop_first().take(j)[k - 1]);
                }
            }
        }
        assert(a[j + 1] == a.drop_first()[j]);
        assert(b[j + 1] == b.drop_first()[j]);
        j + 1
    }
}

/// Two peers with different keys always take opposite roles towards each
/// other, so that exactly one of them plays Alice.
pub proof fn law_roles_are_opposite(a: [u8; 32], b: [u8; 32])
    requires
        a != b,
    ensures
        role_for(a@, b@) != role_for(b@, a@),
{
    assert(a@.len() == 32 && b@.len() == 32);
    if a@ == b@ {
        assert(a == b) by {
            assert forall|k: int| 0 <= k < 32 implies a[k] == b[k] by {
                assert(a@[k] == b@[k]);
            }
        }
    }
    let i = lemma_first_difference(a@, b@);
    if a@[i] < b@[i] {
        assert(bytes_less(a@, b@));
        assert forall|k: int|
            0 <= k < b@.len() && k < a@.len() && b@.take(k) == a@.take(k) implies !(
            #[trigger] b@[k] < a@[k]) by {
            if k < i {
                assert(b@.take(i)[k] == a@.take(i)[k]);
            } else if k > i {
                assert(b@.take(k)[i] == a@.take(k)[i]);
            }
        }
    } else {
        assert(bytes_less(b@, a@));
        assert(b@.take(i) == a@.take(i));
        assert forall|k: int|
            0 <= k < a@.len() && k < b@.len() && a@.take(k) == b@.take(k) implies !(
            #[trigger] a@[k] < b@[k]) by {
            if k < i {
                assert(b@.take(i)[k] == a@.take(i)[k]);
            } else if k > i {
                assert(b@.take(k)[i] == a@.take(k)[i]);
            }
        }
    }
}

/// A peer facing its own key plays Bob.
pub proof fn law_same_key_is_bob(a: [u8; 32])
    ensures
        role_for(a@, a@) == Role::Bob,
{
    assert forall|k: int|
        0 <= k < a@.len() && k < a@.len() && a@.take(k) == a@.take(k) implies !(
        #[trigger] a@[k] < a@[k]) by {
    }
}


/// Roles follow the order of the keys as unsigned bytes: at the first byte
/// where the two keys differ, the key with the smaller byte (0 to 255)
/// plays Alice and the other plays Bob.
pub proof fn law_role_by_first_differing_byte(us: [u8; 32], them: [u8; 32], i: int)
    requires
        0 <= i < 32,
        forall|j: int| 0 <= j < i ==> us[j] == them[j],
        us[i] != them[i],
    ensures
        (role_for(us@, them@) == Role::Alice) <==> (us[i] as int) < (them[i] as int),
{
    assert(us@.len() == 32 && them@.len() == 32);
    assert(us@.take(i) =~= them@.take(i)) by {
        assert forall|j: int| 0 <= j < i implies us@.take(i)[j] == them@.take(i)[j] by {
            assert(us@[j] == us[j] && them@[j] == them[j]);
        }
    }
    assert(us@[i] == us[i] && them@[i] == them[i]);
    if us[i] < them[i] {
        assert(bytes_less(us@, them@));
    } else {
        assert forall|k: int|
            0 <= k < us@.len() && k < them@.len() && us@.take(k) == them@.take(k) implies !(
            #[trigger] us@[k] < them@[k]) by {
            if k < i {
                assert(us@[k] == us[k] && them@[k] == them[k]);
            } else if k > i {
                assert(us@.take(k)[i] == them@.take(k)[i]);
            }
        }
    }
}

/// Whether two keys are the same.
pub fn same_key(a: &[u8; 32], b: &[u8; 32]) -> (r: bool)
    ensures
        r == (a@ == b@),
        r == (*a == *b),
{
    let mut i: usize = 0;
    while i < 32
        invariant
            0 <= i <= 32,
            a@.len() == 32,
            b@.len() == 32,
            forall|j: int| 0 <= j < i ==> a@[j] == b@[j],
        decreases 32 - i,
    {
        if a[i] != b[i] {
            return false;
        }
        i = i + 1;
    }
    assert(a@ =~= b@);
    assert(*a == *b) by {
        assert forall|i: int| 0 <= i < 32 implies a[i] == b[i] by {
            assert(a@[i] == b@[i]);
        }
    }
    true
}

/// The stream number counter of each peer, from a list of (key, counter) entries.
pub open spec fn counters_map(entries: Seq<([u8; 32], u64)>) -> Map<Seq<u8>, u64>
    decreases entries.len(),
{
    if entries.len() == 0 {
        Map::empty()
    } else {
        counters_map(entries.drop_last()).insert(entries.last().0@, entries.last().1)
    }
}

/// No key occurs in two entries.
pub open spec fn keys_distinct(entries: Seq<([u8; 32], u64)>) -> bool {
    forall|i: int, j: int|
        0 <= i < j < entries.len() ==> #[trigger] entries[i].0@ != #[trigger] entries[j].0@
}

/// The stream number the next connection to `peer` uses, and the counters
/// after it: 0 for a first connection, else one more than the last one.
pub open spec fn next_stream(counters: Map<Seq<u8>, u64>, peer: Seq<u8>) -> (Map<Seq<u8>, u64>, u64) {
    let n: u64 = if counters.contains_key(peer) {
        (counters[peer] + 1) as u64
    } else {
        0
    };
    (counters.insert(peer, n), n)
}

proof fn lemma_counters_lookup(entries: Seq<([u8; 32], u64)>, i: int)
    requires
        keys_distinct(entries),
        0 <= i < entries.len(),
    ensures
        counters_map(entries).contains_key(entries[i].0@),
        counters_map(entries)[entries[i].0@] == entries[i].1,
    decreases entries.len(),
{
    let last = entries.len() - 1;
    if i < last {
        let init = entries.drop_last();
        assert(init[i] == entries[i]);
        assert(keys_distinct(init)) by {
            assert forall|a: int, b: int| 0 <= a < b < init.len() implies #[trigger] init[a].0@
                != #[trigger] init[b].0@ by {
                assert(init[a] == entries[a] && init[b] == entries[b]);
            }
        }
        lemma_counters_lookup(init, i);
        assert(entries[i].0@ != entries[last].0@);
    }
}

proof fn lemma_counters_absent(entries: Seq<([u8; 32], u64)>, key: Seq<u8>)
    requires
        forall|i: int| 0 <= i < entries.len() ==> #[trigger] entries[i].0@ != key,
    ensures
        !counters_map(entries).contains_key(key),
    decreases entries.len(),
{
    if entries.len() > 0 {
        let init = entries.drop_last();
        assert forall|i: int| 0 <= i < init.len() implies #[trigger] init[i].0@ != key by {
            assert(init[i] == entries[i]);
        }
        lemma_counters_absent(init, key);
        assert(entries[entries.len() - 1].0@ != key);
    }
}

proof fn lemma_counters_update(entries: Seq<([u8; 32], u64)>, i: int, n: u64)
    requires
        keys_distinct(entries),
        0 <= i < entries.len(),
    ensures
        counters_map(entries.update(i, (entries[i].0, n))) == counters_map(entries).insert(
            entries[i].0@,
            n,
        ),
    decreases entries.len(),
{
    let updated = entries.update(i, (entries[i].0, n));
    let last = entries.len() - 1;
    let init = entries.drop_last();
    assert(keys_distinct(init)) by {
        assert forall|a: int, b: int| 0 <= a < b < init.len() implies #[trigger] init[a].0@
            != #[trigger] init[b].0@ by {
            assert(init[a] == entries[a] && init[b] == entries[b]);
        }
    }
    if i == last {
        assert(updated.drop_last() =~= init);
        assert(counters_map(updated) =~= counters_map(entries).insert(entries[i].0@, n));
    } else {
        assert(init[i] == entries[i]);
        lemma_counters_update(init, i, n);
        assert(updated.drop_last() =~= init.update(i, (entries[i].0, n)));
        assert(entries[i].0@ != entries[last].0@);
        assert(counters_map(updated) =~= counters_map(entries).insert(entries[i].0@, n));
    }
}

/// How many transport streams have been opened to each peer.
///
/// The counters are a list of (key, counter) entries with distinct keys, in
/// place of a `HashMap`: vstd specifies `HashMap` only for key types with a
/// key model, and 32-byte keys have none, so nothing could be proved of such
/// a map.
pub struct StreamCounters {
    entries: Vec<([u8; 32], u64)>,
}

impl View for StreamCounters {
    type V = Map<Seq<u8>, u64>;

    closed spec fn view(&self) -> Map<Seq<u8>, u64> {
        counters_map(self.entries@)
    }
}

impl StreamCounters {
    /// The counters are well formed.
    pub closed spec fn wf(&self) -> bool {
        keys_distinct(self.entries@)
    }

    /// No stream opened yet.
    pub fn new() -> (c: Self)
        ensures
            c.wf(),
            c@ == Map::<Seq<u8>, u64>::empty(),
    {
        StreamCounters { entries: Vec::new() }
    }

    /// The stream number for the next connection to `peer`, which is recorded.
    pub fn next_stream_number(&mut self, peer: &[u8; 32]) -> (n: u64)
        requires
            old(self).wf(),
            old(self)@.contains_key(peer@) ==> old(self)@[peer@] < u64::MAX,
        ensures
            final(self).wf(),
            (final(self)@, n) == next_stream(old(self)@, peer@),
    {
        let len = self.entries.len();
        let mut i: usize = 0;
        while i < len
            invariant
                0 <= i <= len == self.entries@.len(),
                self.entries@ == old(self).entries@,
                keys_distinct(self.entries@),
                old(self)@.contains_key(peer@) ==> old(self)@[peer@] < u64::MAX,
                forall|j: int| 0 <= j < i ==> #[trigger] self.entries@[j].0@ != peer@,
            decreases len - i,
        {
            if same_key(&self.entries[i].0, peer) {
                proof {
                    lemma_counters_lookup(self.entries@, i as int);
                }
                let n = self.entries[i].1 + 1;
                let key = self.entries[i].0;
                proof {
                    lemma_counters_update(self.entries@, i as int, n);
                }
                self.entries.set(i, (key, n));
                proof {
                    assert forall|a: int, b: int| 0 <= a < b < self.entries@.len() implies
                        #[trigger] self.entries@[a].0@ != #[trigger] self.entries@[b].0@ by {
                        assert(self.entries@[a].0 == old(self).entries@[a].0);
                        assert(self.entries@[b].0 == old(self).entries@[b].0);
                    }
                }
                return n;
            }
            i = i + 1;
        }
        proof {
            lemma_counters_absent(self.entries@, peer@);
        }
        self.entries.push((*peer, 0));
        proof {
            assert(self.entries@.drop_last() =~= old(self).entries@);
        }
        0
    }
}

/// The label under which the root key of a transport is agreed.
pub const ROOT_KEY_LABEL: &'static str = "org.briarproject.bramble.transport.agreement/ROOT_KEY";

/// The key agreed by `bramble_crypto::kex` under `label` from our secret key
/// and the peer's public key, with no further messages; none when the
/// agreement fails.
pub uninterp spec fn key_agreement(label: Seq<char>, our_secret: Seq<u8>, their_public: Seq<u8>) -> Option<Seq<u8>>;

#[verifier::external_type_specification]
#[verifier::external_body]
pub struct ExBrambleError(bramble_common::Error);

/// Calls `bramble_crypto::kex` with no messages. The contract claims only
/// that the outcome is a function of the label and the two keys: a 32-byte
/// key, or an error. When the crate reports an error is not stated.
#[verifier::external_body]
fn key_exchange(label: &'static str, our_secret: &[u8; 32], their_public: &[u8; 32]) -> (key: Result<[u8; 32], bramble_common::Error>)
    ensures
        match key {
            Ok(k) => key_agreement(label@, our_secret@, their_public@) == Some(k@),
            Err(_) => key_agreement(label@, our_secret@, their_public@) is None,
        },
{
    let secret = bramble_crypto::SecretKey::from(*our_secret);
    let public = bramble_crypto::PublicKey::from(*their_public);
    match bramble_crypto::kex(label.as_bytes(), &secret, &public, &[]) {
        Ok(k) => {
            let mut out = [0u8; 32];
            out.copy_from_slice(k.as_ref());
            Ok(out)
        },
        Err(e) => Err(e),
    }
}

/// What a transport connection to a peer is built from.
#[derive(Debug, PartialEq, Eq, Clone, Copy)]
pub struct TransportPlan {
    pub root_key: [u8; 32],
    pub role: Role,
    pub stream_number: u64,
}

/// Plans a transport connection to `peer` once the key agreement has given
/// `root_key`: picks our role and takes the next stream number.
pub fn transport_plan(
    counters: &mut StreamCounters,
    root_key: [u8; 32],
    our_public: &[u8; 32],
    peer: &[u8; 32],
) -> (plan: TransportPlan)
    requires
        old(counters).wf(),
        old(counters)@.contains_key(peer@) ==> old(counters)@[peer@] < u64::MAX,
    ensures
        final(counters).wf(),
        final(counters)@ == next_stream(old(counters)@, peer@).0,
        plan == (TransportPlan {
            root_key,
            role: role_for(our_public@, peer@),
            stream_number: next_stream(old(counters)@, peer@).1,
        }),
{
    let stream_number = counters.next_stream_number(peer);
    TransportPlan { root_key, role: get_role(our_public, peer), stream_number }
}

/// The public key that belongs to a secret key, as `bramble_crypto` derives
/// it (X25519).
pub uninterp spec fn public_key_of(secret: Seq<u8>) -> Seq<u8>;

/// Calls `bramble_crypto::KeyPair::from` on the secret key and reads its
/// public part. The contract claims only that the public key is a function
/// of the secret key.
#[verifier::external_body]
fn derive_public(secret: &[u8; 32]) -> (public: [u8; 32])
    ensures
        public@ == public_key_of(secret@),
{
    let pair: bramble_crypto::KeyPair = bramble_crypto::SecretKey::from(*secret).into();
    let mut out = [0u8; 32];
    out.copy_from_slice(pair.public().as_ref());
    out
}

/// Calls `bramble_crypto::KeyPair::generate` with the thread's random
/// generator. The secret key is random; as the crate's source shows, the
/// public key is derived from it as `KeyPair::from` derives it.
#[verifier::external_body]
fn generate_key_pair() -> (pair: ([u8; 32], [u8; 32]))
    ensures
        pair.1@ == public_key_of(pair.0@),
{
    let pair = bramble_crypto::KeyPair::generate(&mut rand::thread_rng());
    let mut secret = [0u8; 32];
    let mut public = [0u8; 32];
    secret.copy_from_slice(pair.secret().as_ref());
    public.copy_from_slice(pair.public().as_ref());
    (secret, public)
}

/// A device's key pair: a secret key and the public key derived from it.
pub struct DeviceKeys {
    secret: [u8; 32],
    public: [u8; 32],
}

impl View for DeviceKeys {
    type V = Seq<u8>;

    /// The secret key, which determines the pair.
    closed spec fn view(&self) -> Seq<u8> {
        self.secret@
    }
}

impl DeviceKeys {
    /// The public key is the one derived from the secret key.
    #[verifier::type_invariant]
    spec fn public_matches(&self) -> bool {
        self.public@ == public_key_of(self.secret@)
    }

    /// The key pair of a stored secret key.
    pub fn from_secret(secret: [u8; 32]) -> (keys: Self)
        ensures
            keys@ == secret@,
    {
        let public = derive_public(&secret);
        DeviceKeys { secret, public }
    }

    /// A new random key pair.
    pub fn generate() -> (keys: Self) {
        let (secret, public) = generate_key_pair();
        DeviceKeys { secret, public }
    }

    /// The secret key.
    pub fn secret(&self) -> (s: [u8; 32])
        ensures
            s@ == self@,
    {
        self.secret
    }

    /// The public key.
    pub fn public(&self) -> (p: [u8; 32])
        ensures
            p@ == public_key_of(self@),
    {
        proof {
            use_type_invariant(self);
        }
        self.public
    }
}

/// The key pair of a profile: derived from the stored secret key, or a new
/// random one when none is stored.
pub fn profile_key(stored: Option<[u8; 32]>) -> (keys: DeviceKeys)
    ensures
        stored matches Some(s) ==> keys@ == s@,
{
    match stored {
        Some(s) => DeviceKeys::from_secret(s),
        None => DeviceKeys::generate(),
    }
}

/// Prepares a transport connection to `peer`: agrees the root key, picks our
/// role and takes the next stream number. The key agreement must succeed.
pub fn prepare_transport(counters: &mut StreamCounters, keys: &DeviceKeys, peer: &[u8; 32]) -> (plan: TransportPlan)
    requires
        old(counters).wf(),
        old(counters)@.contains_key(peer@) ==> old(counters)@[peer@] < u64::MAX,
        key_agreement(ROOT_KEY_LABEL@, keys@, peer@) is Some,
    ensures
        final(counters).wf(),
        final(counters)@ == next_stream(old(counters)@, peer@).0,
        plan.root_key@ == key_agreement(ROOT_KEY_LABEL@, keys@, peer@)->0,
        plan.role == role_for(public_key_of(keys@), peer@),
        plan.stream_number == next_stream(old(counters)@, peer@).1,
{
    let secret = keys.secret();
    match key_exchange(ROOT_KEY_LABEL, &secret, peer) {
        Ok(k) => transport_plan(counters, k, &keys.public(), peer),
        Err(_) => vstd::pervasive::unreached(),
    }
}

/// Prepares a transport connection to `peer` when the key agreement
/// succeeds, as `prepare_transport` does; when it fails, there is no plan and
/// no stream number is taken.
pub fn try_prepare_transport(counters: &mut StreamCounters, keys: &DeviceKeys, peer: &[u8; 32]) -> (plan: Option<TransportPlan>)
    requires
        old(counters).wf(),
        old(counters)@.contains_key(peer@) ==> old(counters)@[peer@] < u64::MAX,
    ensures
        final(counters).wf(),
        match key_agreement(ROOT_KEY_LABEL@, keys@, peer@) {
            Some(k) => plan matches Some(p) && p.root_key@ == k && p.role == role_for(
                public_key_of(keys@),
                peer@,
            ) && p.stream_number == next_stream(old(counters)@, peer@).1 && final(counters)@
                == next_stream(old(counters)@, peer@).0,
            None => plan is None && final(counters)@ == old(counters)@,
        },
{
    let secret = keys.secret();
    match key_exchange(ROOT_KEY_LABEL, &secret, peer) {
        Ok(_) => Some(prepare_transport(counters, keys, peer)),
        Err(_) => None,
    }
}

/// The first connection to a peer uses stream 0, and each later one the next
/// number.
pub proof fn law_stream_numbers_count_up(counters: Map<Seq<u8>, u64>, peer: Seq<u8>)
    requires
        counters.contains_key(peer) ==> counters[peer] < u64::MAX - 1,
    ensures
        !counters.contains_key(peer) ==> next_stream(counters, peer).1 == 0,
        next_stream(next_stream(counters, peer).0, peer).1 == next_stream(counters, peer).1 + 1,
{
}

/// Opening a stream to one peer leaves the counters of all other peers as
/// they were.
pub proof fn law_other_peers_unchanged(counters: Map<Seq<u8>, u64>, peer: Seq<u8>, other: Seq<u8>)
    requires
        peer != other,
    ensures
        next_stream(counters, peer).0.contains_key(other) == counters.contains_key(other),
        counters.contains_key(other) ==> next_stream(counters, peer).0[other] == counters[other],
{
}

} // verus!
