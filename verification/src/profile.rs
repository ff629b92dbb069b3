//! The in-memory side of a user profile: the message groups, the contacts,
//! and which groups are shared with which contacts. The database that stores
//! them is kept by the caller.
use bimap::BiHashMap;
use bisetmap::BisetMap;
use std::collections::hash_map::RandomState;
use std::hash::Hash;
use vstd::prelude::*;

verus! {

#[verifier::external_type_specification]
#[verifier::external_body]
#[verifier::reject_recursive_types(L)]
#[verifier::reject_recursive_types(R)]
#[verifier::reject_recursive_types(LS)]
#[verifier::reject_recursive_types(RS)]
pub struct ExBiHashMap<L, R, LS, RS>(BiHashMap<L, R, LS, RS>);

#[verifier::external_type_specification]
#[verifier::external_body]
#[verifier::reject_recursive_types(L)]
#[verifier::reject_recursive_types(R)]
pub struct ExBisetMap<L: Eq + Hash + Clone, R: Eq + Hash + Clone>(BisetMap<L, R>);

/// The (name, identifier) pairs that a bimap of groups holds.
pub uninterp spec fn group_pairs(m: BiHashMap<String, [u8; 32], RandomState, RandomState>) -> Set<(Seq<char>, [u8; 32])>;

/// The (contact key, group name) pairs that a bisetmap of shared groups holds.
pub uninterp spec fn sharing_pairs(m: BisetMap<[u8; 32], String>) -> Set<([u8; 32], Seq<char>)>;

/// Calls `bimap::BiHashMap::new`: the new bimap holds no pair.
#[verifier::external_body]
fn groups_new() -> (m: BiHashMap<String, [u8; 32], RandomState, RandomState>)
    ensures
        group_pairs(m) == Set::<(Seq<char>, [u8; 32])>::empty(),
{
    BiHashMap::new()
}

/// Calls `bimap::BiHashMap::insert`: as its documentation shows, any pair
/// with the same name or the same identifier is removed, then the new pair
/// is added.
#[verifier::external_body]
fn groups_insert(m: &mut BiHashMap<String, [u8; 32], RandomState, RandomState>, name: String, id: [u8; 32])
    ensures
        group_pairs(*final(m)) == group_pairs(*old(m)).filter(
            |p: (Seq<char>, [u8; 32])| p.0 != name@ && p.1 != id,
        ).insert((name@, id)),
{
    m.insert(name, id);
}

/// Calls `bimap::BiHashMap::contains_left`: whether some pair has this name.
#[verifier::external_body]
fn groups_contains_name(m: &BiHashMap<String, [u8; 32], RandomState, RandomState>, name: &String) -> (b: bool)
    ensures
        b == exists|id: [u8; 32]| group_pairs(*m).contains((name@, id)),
{
    m.contains_left(name)
}

/// Calls `bisetmap::BisetMap::new`: the new map holds no pair.
#[verifier::external_body]
fn sharing_new() -> (m: BisetMap<[u8; 32], String>)
    ensures
        sharing_pairs(m) == Set::<([u8; 32], Seq<char>)>::empty(),
{
    BisetMap::new()
}

/// Calls `bisetmap::BisetMap::insert`: the pair is added; a pair already
/// there stays once.
#[verifier::external_body]
fn sharing_insert(m: &mut BisetMap<[u8; 32], String>, key: [u8; 32], group: String)
    ensures
        sharing_pairs(*final(m)) == sharing_pairs(*old(m)).insert((key, group@)),
{
    m.insert(key, group);
}

/// Calls `bisetmap::BisetMap::contains`: whether the pair is held.
#[verifier::external_body]
fn sharing_contains(m: &BisetMap<[u8; 32], String>, key: &[u8; 32], group: &String) -> (b: bool)
    ensures
        b == sharing_pairs(*m).contains((*key, group@)),
{
    m.contains(key, group)
}

/// The contacts of a list of (name, key) entries, each name once.
pub open spec fn contacts_map(entries: Seq<(String, [u8; 32])>) -> Map<Seq<char>, [u8; 32]>
    decreases entries.len(),
{
    if entries.len() == 0 {
        Map::empty()
    } else {
        contacts_map(entries.drop_last()).insert(entries.last().0@, entries.last().1)
    }
}

/// No contact name occurs in two entries.
pub open spec fn names_distinct(entries: Seq<(String, [u8; 32])>) -> bool {
    forall|i: int, j: int|
        0 <= i < j < entries.len() ==> #[trigger] entries[i].0@ != #[trigger] entries[j].0@
}

proof fn lemma_contacts_lookup(entries: Seq<(String, [u8; 32])>, i: int)
    requires
        names_distinct(entries),
        0 <= i < entries.len(),
    ensures
        contacts_map(entries).contains_key(entries[i].0@),
        contacts_map(entries)[entries[i].0@] == entries[i].1,
    decreases entries.len(),
{
    let last = entries.len() - 1;
    if i < last {
        let init = entries.drop_last();
        assert(init[i] == entries[i]);
        assert(names_distinct(init)) by {
            assert forall|a: int, b: int| 0 <= a < b < init.len() implies #[trigger] init[a].0@
                != #[trigger] init[b].0@ by {
                assert(init[a] == entries[a] && init[b] == entries[b]);
            }
        }
        lemma_contacts_lookup(init, i);
        assert(entries[i].0@ != entries[last].0@);
    }
}

proof fn lemma_contacts_absent(entries: Seq<(String, [u8; 32])>, name: Seq<char>)
    requires
        forall|i: int| 0 <= i < entries.len() ==> #[trigger] entries[i].0@ != name,
    ensures
        !contacts_map(entries).contains_key(name),
    decreases entries.len(),
{
    if entries.len() > 0 {
        let init = entries.drop_last();
        assert forall|i: int| 0 <= i < init.len() implies #[trigger] init[i].0@ != name by {
            assert(init[i] == entries[i]);
        }
        lemma_contacts_absent(init, name);
        assert(entries[entries.len() - 1].0@ != name);
    }
}

proof fn lemma_contacts_update(entries: Seq<(String, [u8; 32])>, i: int, key: [u8; 32])
    requires
        names_distinct(entries),
        0 <= i < entries.len(),
    ensures
        contacts_map(entries.update(i, (entries[i].0, key))) == contacts_map(entries).insert(
            entries[i].0@,
            key,
        ),
    decreases entries.len(),
{
    let updated = entries.update(i, (entries[i].0, key));
    let last = entries.len() - 1;
    let init = entries.drop_last();
    assert(names_distinct(init)) by {
        assert forall|a: int, b: int| 0 <= a < b < init.len() implies #[trigger] init[a].0@
            != #[trigger] init[b].0@ by {
            assert(init[a] == entries[a] && init[b] == entries[b]);
        }
    }
    if i == last {
        assert(updated.drop_last() =~= init);
        assert(contacts_map(updated) =~= contacts_map(entries).insert(entries[i].0@, key));
    } else {
        assert(init[i] == entries[i]);
        lemma_contacts_update(init, i, key);
        assert(updated.drop_last() =~= init.update(i, (entries[i].0, key)));
        assert(entries[i].0@ != entries[last].0@);
        assert(contacts_map(updated) =~= contacts_map(entries).insert(entries[i].0@, key));
    }
}

/// The mathematical content of a profile.
pub struct ProfileModel {
    /// The groups: (name, identifier) pairs, each name and each identifier once.
    pub groups: Set<(Seq<char>, [u8; 32])>,
    /// The contacts: each name with its public key.
    pub peers: Map<Seq<char>, [u8; 32]>,
    /// Which groups are shared with which contacts: (key, group name) pairs.
    pub sharing: Set<([u8; 32], Seq<char>)>,
}

/// The groups after adding a group, the way a bimap adds a pair.
pub open spec fn groups_after_add(groups: Set<(Seq<char>, [u8; 32])>, name: Seq<char>, id: [u8; 32]) -> Set<(Seq<char>, [u8; 32])> {
    groups.filter(|p: (Seq<char>, [u8; 32])| p.0 != name && p.1 != id).insert((name, id))
}

/// Whether a group of this name exists.
pub open spec fn has_group_named(groups: Set<(Seq<char>, [u8; 32])>, name: Seq<char>) -> bool {
    exists|id: [u8; 32]| groups.contains((name, id))
}

/// The in-memory side of a user profile.
///
/// The contacts are a list of (name, key) entries with distinct names, in
/// place of a `HashMap`: vstd specifies `HashMap` only for key types with a
/// key model, and `String` has none, so nothing could be proved of a map
/// keyed by name.
pub struct ProfileState {
    groups: BiHashMap<String, [u8; 32], RandomState, RandomState>,
    peer_groups: BisetMap<[u8; 32], String>,
    peers: Vec<(String, [u8; 32])>,
}

impl View for ProfileState {
    type V = ProfileModel;

    closed spec fn view(&self) -> ProfileModel {
        ProfileModel {
            groups: group_pairs(self.groups),
            peers: contacts_map(self.peers@),
            sharing: sharing_pairs(self.peer_groups),
        }
    }
}

impl ProfileState {
    /// The profile's lists are well formed.
    pub closed spec fn wf(&self) -> bool {
        names_distinct(self.peers@)
    }

    /// An empty profile.
    pub fn new() -> (p: Self)
        ensures
            p.wf(),
            p@.groups == Set::<(Seq<char>, [u8; 32])>::empty(),
            p@.peers == Map::<Seq<char>, [u8; 32]>::empty(),
            p@.sharing == Set::<([u8; 32], Seq<char>)>::empty(),
    {
        ProfileState { groups: groups_new(), peer_groups: sharing_new(), peers: Vec::new() }
    }

    /// The groups, for listing.
    pub fn groups(&self) -> (g: &BiHashMap<String, [u8; 32], RandomState, RandomState>)
        ensures
            group_pairs(*g) == self@.groups,
    {
        &self.groups
    }

    /// The contacts, for listing.
    pub fn peers(&self) -> (p: &Vec<(String, [u8; 32])>)
        requires
            self.wf(),
        ensures
            contacts_map(p@) == self@.peers,
            names_distinct(p@),
    {
        &self.peers
    }

    fn find_peer(&self, name: &String) -> (r: Option<usize>)
        ensures
            match r {
                Some(i) => i < self.peers@.len() && self.peers@[i as int].0@ == name@,
                None => forall|i: int| 0 <= i < self.peers@.len() ==> #[trigger] self.peers@[i].0@ != name@,
            },
    {
        let mut i: usize = 0;
        while i < self.peers.len()
            invariant
                0 <= i <= self.peers@.len(),
                forall|j: int| 0 <= j < i ==> #[trigger] self.peers@[j].0@ != name@,
            decreases self.peers@.len() - i,
        {
            if self.peers[i].0 == *name {
                return Some(i);
            }
            i = i + 1;
        }
        None
    }

    /// Records a contact under `name`, replacing any contact of that name.
    pub fn add_peer(&mut self, name: &String, key: [u8; 32])
        requires
            old(self).wf(),
        ensures
            final(self).wf(),
            final(self)@.peers == old(self)@.peers.insert(name@, key),
            final(self)@.groups == old(self)@.groups,
            final(self)@.sharing == old(self)@.sharing,
    {
        match self.find_peer(name) {
            Some(i) => {
                let entry_name = self.peers[i].0.clone();
                proof {
                    lemma_contacts_update(self.peers@, i as int, key);
                }
                self.peers.set(i, (entry_name, key));
                proof {
                    assert(self.peers@ =~= old(self).peers@.update(i as int, (old(self).peers@[i as int].0, key)));
                    assert forall|a: int, b: int| 0 <= a < b < self.peers@.len() implies
                        #[trigger] self.peers@[a].0@ != #[trigger] self.peers@[b].0@ by {
                        assert(self.peers@[a].0@ == old(self).peers@[a].0@);
                        assert(self.peers@[b].0@ == old(self).peers@[b].0@);
                    }
                }
            },
            None => {
                proof {
                    lemma_contacts_absent(self.peers@, name@);
                }
                self.peers.push((name.clone(), key));
                proof {
                    assert(self.peers@.drop_last() =~= old(self).peers@);
                }
            },
        }
    }

    /// The key of the contact called `name`, if there is one.
    pub fn peer_key(&self, name: &String) -> (key: Option<[u8; 32]>)
        requires
            self.wf(),
        ensures
            match key {
                Some(k) => self@.peers.contains_key(name@) && self@.peers[name@] == k,
                None => !self@.peers.contains_key(name@),
            },
    {
        match self.find_peer(name) {
            Some(i) => {
                proof {
                    lemma_contacts_lookup(self.peers@, i as int);
                }
                Some(self.peers[i].1)
            },
            None => {
                proof {
                    lemma_contacts_absent(self.peers@, name@);
                }
                None
            },
        }
    }

    /// Records the group `group` with identifier `id`; a group of the same
    /// name, or with the same identifier, is replaced.
    pub fn add_group(&mut self, group: &String, id: &[u8; 32])
        requires
            old(self).wf(),
        ensures
            final(self).wf(),
            final(self)@.groups == groups_after_add(old(self)@.groups, group@, *id),
            final(self)@.peers == old(self)@.peers,
            final(self)@.sharing == old(self)@.sharing,
    {
        groups_insert(&mut self.groups, group.clone(), *id);
    }

    /// Whether a group called `name` exists.
    pub fn has_group(&self, name: &String) -> (b: bool)
        ensures
            b == has_group_named(self@.groups, name@),
    {
        groups_contains_name(&self.groups, name)
    }

    /// Records that group `group` is shared with the contact of key `peer`.
    pub fn add_peer_to_group(&mut self, peer: [u8; 32], group: &String)
        requires
            old(self).wf(),
        ensures
            final(self).wf(),
            final(self)@.sharing == old(self)@.sharing.insert((peer, group@)),
            final(self)@.groups == old(self)@.groups,
            final(self)@.peers == old(self)@.peers,
    {
        sharing_insert(&mut self.peer_groups, peer, group.clone());
    }

    /// Whether group `group` is shared with the contact of key `peer`.
    pub fn is_sharing(&self, peer: &[u8; 32], group: &String) -> (b: bool)
        ensures
            b == self@.sharing.contains((*peer, group@)),
    {
        sharing_contains(&self.peer_groups, peer, group)
    }
}

/// The model of a list of (text, key) rows.
pub open spec fn named_rows(rows: Seq<(String, [u8; 32])>) -> Seq<(Seq<char>, [u8; 32])> {
    rows.map_values(|r: (String, [u8; 32])| (r.0@, r.1))
}

/// The model of a list of (key, text) rows.
pub open spec fn keyed_rows(rows: Seq<([u8; 32], String)>) -> Seq<([u8; 32], Seq<char>)> {
    rows.map_values(|r: ([u8; 32], String)| (r.0, r.1@))
}

/// The groups after adding the rows one by one.
pub open spec fn groups_from_rows(start: Set<(Seq<char>, [u8; 32])>, rows: Seq<(Seq<char>, [u8; 32])>) -> Set<(Seq<char>, [u8; 32])>
    decreases rows.len(),
{
    if rows.len() == 0 {
        start
    } else {
        groups_after_add(groups_from_rows(start, rows.drop_last()), rows.last().0, rows.last().1)
    }
}

/// The contacts after adding the rows one by one, a later row replacing an
/// earlier one of the same name.
pub open spec fn peers_from_rows(start: Map<Seq<char>, [u8; 32]>, rows: Seq<(Seq<char>, [u8; 32])>) -> Map<Seq<char>, [u8; 32]>
    decreases rows.len(),
{
    if rows.len() == 0 {
        start
    } else {
        peers_from_rows(start, rows.drop_last()).insert(rows.last().0, rows.last().1)
    }
}

impl ProfileState {
    /// A profile holding the stored groups, contacts and shared groups, each
    /// list taken in order.
    pub fn from_rows(
        groups: &Vec<(String, [u8; 32])>,
        peers: &Vec<(String, [u8; 32])>,
        sharing: &Vec<([u8; 32], String)>,
    ) -> (p: Self)
        ensures
            p.wf(),
            p@.groups == groups_from_rows(Set::empty(), named_rows(groups@)),
            p@.peers == peers_from_rows(Map::empty(), named_rows(peers@)),
            p@.sharing == keyed_rows(sharing@).to_set(),
    {
        let mut p = ProfileState::new();
        for i in 0..groups.len()
            invariant
                p.wf(),
                p@.groups == groups_from_rows(Set::empty(), named_rows(groups@.take(i as int))),
                p@.peers == Map::<Seq<char>, [u8; 32]>::empty(),
                p@.sharing == Set::<([u8; 32], Seq<char>)>::empty(),
        {
            p.add_group(&groups[i].0, &groups[i].1);
            assert(named_rows(groups@.take(i + 1)).drop_last() =~= named_rows(groups@.take(i as int)));
        }
        assert(groups@.take(groups.len() as int) == groups@);
        for i in 0..peers.len()
            invariant
                p.wf(),
                p@.groups == groups_from_rows(Set::empty(), named_rows(groups@)),
                p@.peers == peers_from_rows(Map::empty(), named_rows(peers@.take(i as int))),
                p@.sharing == Set::<([u8; 32], Seq<char>)>::empty(),
        {
            p.add_peer(&peers[i].0, peers[i].1);
            assert(named_rows(peers@.take(i + 1)).drop_last() =~= named_rows(peers@.take(i as int)));
        }
        assert(peers@.take(peers.len() as int) == peers@);
        for i in 0..sharing.len()
            invariant
                p.wf(),
                p@.groups == groups_from_rows(Set::empty(), named_rows(groups@)),
                p@.peers == peers_from_rows(Map::empty(), named_rows(peers@)),
                p@.sharing == keyed_rows(sharing@.take(i as int)).to_set(),
        {
            p.add_peer_to_group(sharing[i].0, &sharing[i].1);
            proof {
                let before = keyed_rows(sharing@.take(i as int));
                let after = keyed_rows(sharing@.take(i + 1));
                assert(after =~= before.push((sharing@[i as int].0, sharing@[i as int].1@)));
                assert(after.to_set() =~= before.to_set().insert((sharing@[i as int].0, sharing@[i as int].1@))) by {
                    assert forall|x: ([u8; 32], Seq<char>)| after.to_set().contains(x) implies before.to_set().insert((sharing@[i as int].0, sharing@[i as int].1@)).contains(x) by {
                        let k = choose|k: int| 0 <= k < after.len() && after[k] == x;
                        if k < before.len() {
                            assert(before[k] == x);
                        }
                    }
                    assert forall|x: ([u8; 32], Seq<char>)| before.to_set().insert((sharing@[i as int].0, sharing@[i as int].1@)).contains(x) implies after.to_set().contains(x) by {
                        if before.to_set().contains(x) {
                            let k = choose|k: int| 0 <= k < before.len() && before[k] == x;
                            assert(after[k] == x);
                        } else {
                            assert(after[before.len() as int] == x);
                        }
                    }
                }
            }
        }
        assert(sharing@.take(sharing.len() as int) == sharing@);
        p
    }
}

/// After a group is added, it exists, and every other group that shares
/// neither its name nor its identifier is still there.
pub proof fn law_added_group_exists(groups: Set<(Seq<char>, [u8; 32])>, name: Seq<char>, id: [u8; 32], other: (Seq<char>, [u8; 32]))
    requires
        other.0 != name,
        other.1 != id,
    ensures
        has_group_named(groups_after_add(groups, name, id), name),
        groups_after_add(groups, name, id).contains(other) == groups.contains(other),
{
    assert(groups_after_add(groups, name, id).contains((name, id)));
}

/// Group names and identifiers stay one-to-one: adding a group never leaves
/// two groups with the same name or the same identifier.
pub proof fn law_groups_stay_one_to_one(groups: Set<(Seq<char>, [u8; 32])>, name: Seq<char>, id: [u8; 32])
    requires
        forall|p: (Seq<char>, [u8; 32]), q: (Seq<char>, [u8; 32])|
            groups.contains(p) && groups.contains(q) && (p.0 == q.0 || p.1 == q.1) ==> p == q,
    ensures
        forall|p: (Seq<char>, [u8; 32]), q: (Seq<char>, [u8; 32])|
            groups_after_add(groups, name, id).contains(p) && groups_after_add(groups, name, id).contains(q)
                && (p.0 == q.0 || p.1 == q.1) ==> p == q,
{
}

} // verus!
