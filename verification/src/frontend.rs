//! The entry points that the mobile front end calls, over a registry of the
//! accounts on this device: an account is created with a user name and a
//! password, logging in with them gives the account's data, and an account's
//! groups can be read back.
use crate::text::chars_of;
use vstd::prelude::*;

verus! {

/// One account: its credentials and the names of its groups.
pub struct AccountRecord {
    pub username: String,
    pub password: String,
    pub groups: Vec<String>,
}

/// The model of an account.
pub struct AccountModel {
    pub username: Seq<char>,
    pub password: Seq<char>,
    pub groups: Seq<Seq<char>>,
}

/// The model of a list of names.
pub open spec fn names_view(names: Seq<String>) -> Seq<Seq<char>> {
    names.map_values(|s: String| s@)
}

impl View for AccountRecord {
    type V = AccountModel;

    open spec fn view(&self) -> AccountModel {
        AccountModel {
            username: self.username@,
            password: self.password@,
            groups: names_view(self.groups@),
        }
    }
}

/// What logging in gives: the account's alias (its number), its user name
/// and its groups.
#[derive(Debug, PartialEq, Eq)]
pub struct AccountData {
    pub alias: u16,
    pub username: String,
    pub groups: Vec<String>,
}

/// The accounts of this device, numbered in the order they were created.
pub struct Backend {
    accounts: Vec<AccountRecord>,
}

impl View for Backend {
    type V = Seq<AccountModel>;

    closed spec fn view(&self) -> Seq<AccountModel> {
        self.accounts@.map_values(|a: AccountRecord| a@)
    }
}

/// Account `i` has these credentials.
pub open spec fn credentials_match(a: AccountModel, username: Seq<char>, password: Seq<char>) -> bool {
    a.username == username && a.password == password
}

/// `i` is the first account with these credentials.
pub open spec fn is_first_match(accounts: Seq<AccountModel>, username: Seq<char>, password: Seq<char>, i: int) -> bool {
    &&& 0 <= i < accounts.len()
    &&& credentials_match(accounts[i], username, password)
    &&& forall|j: int| 0 <= j < i ==> !credentials_match(#[trigger] accounts[j], username, password)
}

/// The account that logging in with these credentials reaches: the first
/// one created with them, if any.
pub open spec fn login_target(accounts: Seq<AccountModel>, username: Seq<char>, password: Seq<char>) -> Option<int> {
    if exists|i: int| 0 <= i < accounts.len() && credentials_match(accounts[i], username, password) {
        Some(choose|i: int| is_first_match(accounts, username, password, i))
    } else {
        None
    }
}

/// The model of the data of account `i`.
pub open spec fn account_data(accounts: Seq<AccountModel>, i: int) -> (int, Seq<char>, Seq<Seq<char>>) {
    (i, accounts[i].username, accounts[i].groups)
}

fn copy_names(names: &Vec<String>) -> (r: Vec<String>)
    ensures
        names_view(r@) == names_view(names@),
{
    let mut r: Vec<String> = Vec::new();
    for i in 0..names.len()
        invariant
            names_view(r@) == names_view(names@.take(i as int)),
    {
        r.push(names[i].clone());
        assert(names_view(names@.take(i + 1)) =~= names_view(names@.take(i as int)).push(
            names@[i as int]@,
        ));
        assert(names_view(r@) =~= names_view(names@.take(i as int)).push(names@[i as int]@));
    }
    assert(names@.take(names.len() as int) == names@);
    r
}

impl Backend {
    /// Aliases are 16-bit numbers, so there are at most that many accounts.
    #[verifier::type_invariant]
    spec fn aliases_fit(&self) -> bool {
        self.accounts.len() <= u16::MAX
    }

    /// No account yet.
    pub fn new() -> (b: Self)
        ensures
            b@ == Seq::<AccountModel>::empty(),
    {
        let b = Backend { accounts: Vec::new() };
        assert(b@ =~= Seq::<AccountModel>::empty());
        b
    }

    /// Adds a group to account `alias`; an unknown alias is left alone.
    pub fn create_group(&mut self, alias: u16, name: String)
        ensures
            alias < old(self)@.len() ==> final(self)@ == old(self)@.update(
                alias as int,
                AccountModel { groups: old(self)@[alias as int].groups.push(name@), ..old(self)@[alias as int] },
            ),
            alias >= old(self)@.len() ==> final(self)@ == old(self)@,
    {
        proof {
            use_type_invariant(&*self);
        }
        if (alias as usize) < self.accounts.len() {
            let i = alias as usize;
            let mut accounts: Vec<AccountRecord> = Vec::new();
            std::mem::swap(&mut accounts, &mut self.accounts);
            let mut record = accounts.remove(i);
            record.groups.push(name);
            accounts.insert(i, record);
            self.accounts = accounts;
            proof {
                let expected = old(self)@.update(
                    i as int,
                    AccountModel { groups: old(self)@[i as int].groups.push(name@), ..old(self)@[i as int] },
                );
                assert(names_view(record.groups@) =~= old(self)@[i as int].groups.push(name@));
                assert forall|k: int| 0 <= k < expected.len() implies self@[k] == expected[k] by {
                    if k < i {
                        assert(self.accounts@[k] == old(self).accounts@[k]);
                    } else if k > i {
                        assert(self.accounts@[k] == old(self).accounts@[k]);
                    }
                }
                assert(self@ =~= expected);
            }
        }
    }
}

/// Logging in with the credentials of a newly created account reaches that
/// account, when no earlier account has the same credentials.
pub proof fn law_login_finds_created_account(accounts: Seq<AccountModel>, username: Seq<char>, password: Seq<char>)
    requires
        forall|j: int| 0 <= j < accounts.len() ==> !credentials_match(#[trigger] accounts[j], username, password),
    ensures
        ({
            let after = accounts.push(AccountModel { username, password, groups: Seq::empty() });
            login_target(after, username, password) == Some(accounts.len() as int)
                && account_data(after, accounts.len() as int) == (accounts.len() as int, username, Seq::<Seq<char>>::empty())
        }),
{
    let after = accounts.push(AccountModel { username, password, groups: Seq::empty() });
    let n = accounts.len() as int;
    assert(credentials_match(after[n], username, password));
    assert forall|j: int| 0 <= j < n implies !credentials_match(#[trigger] after[j], username, password) by {
        assert(after[j] == accounts[j]);
    }
    assert(is_first_match(after, username, password, n));
    let c = choose|c: int| is_first_match(after, username, password, c);
    assert(c == n) by {
        if c < n {
            assert(after[c] == accounts[c]);
        }
    }
}

/// The start request; there is nothing to start.
pub fn start() {
}

/// Creates an account with these credentials and no group. Its alias, the
/// result, is its number: one more than the last account's.
pub fn createAccount(backend: &mut Backend, username: String, password: String) -> (alias: u16)
    requires
        old(backend)@.len() < u16::MAX,
    ensures
        alias == old(backend)@.len(),
        final(backend)@ == old(backend)@.push(
            AccountModel { username: username@, password: password@, groups: Seq::empty() },
        ),
{
    proof {
        use_type_invariant(&*backend);
    }
    let alias = backend.accounts.len() as u16;
    let record = AccountRecord { username, password, groups: Vec::new() };
    proof {
        assert(names_view(record.groups@) =~= Seq::<Seq<char>>::empty());
    }
    let mut accounts: Vec<AccountRecord> = Vec::new();
    std::mem::swap(&mut accounts, &mut backend.accounts);
    accounts.push(record);
    backend.accounts = accounts;
    assert(backend@ =~= old(backend)@.push(record@));
    alias
}

/// The new-alias request; there is nothing to do.
pub fn createAlias() {
}

/// Logs in: the data of the first account created with these credentials,
/// or none when there is no such account.
pub fn login(backend: &Backend, username: String, password: String) -> (data: Option<AccountData>)
    ensures
        match login_target(backend@, username@, password@) {
            Some(i) => data matches Some(d) && (d.alias as int, d.username@, names_view(d.groups@))
                == account_data(backend@, i),
            None => data is None,
        },
{
    proof {
        use_type_invariant(backend);
    }
    let n = backend.accounts.len();
    let mut i: usize = 0;
    while i < n
        invariant
            0 <= i <= n == backend.accounts@.len() == backend@.len(),
            n <= u16::MAX,
            forall|j: int| 0 <= j < i ==> !credentials_match(#[trigger] backend@[j], username@, password@),
        decreases n - i,
    {
        let a = &backend.accounts[i];
        if a.username == username && a.password == password {
            proof {
                assert(backend@[i as int] == a@);
                assert(is_first_match(backend@, username@, password@, i as int));
                let c = choose|c: int| is_first_match(backend@, username@, password@, c);
                assert(c == i) by {
                    if c < i {
                    }
                    if c > i {
                        assert(!credentials_match(backend@[i as int], username@, password@));
                    }
                }
            }
            let groups = copy_names(&a.groups);
            return Some(AccountData { alias: i as u16, username: a.username.clone(), groups });
        }
        proof {
            assert(backend@[i as int] == a@);
        }
        i = i + 1;
    }
    None
}

/// The names of the groups of account `alias`, or none when there is no such
/// account.
pub fn getGroups(backend: &Backend, alias: u16) -> (groups: Option<Vec<String>>)
    ensures
        alias < backend@.len() ==> (groups matches Some(g) && names_view(g@) == backend@[alias as int].groups),
        alias >= backend@.len() ==> groups is None,
{
    if (alias as usize) < backend.accounts.len() {
        let a = &backend.accounts[alias as usize];
        proof {
            assert(backend@[alias as int] == a@);
        }
        Some(copy_names(&a.groups))
    } else {
        None
    }
}

/// The request for a group's messages; there is nothing to do.
pub fn getGroupMessages(group: u16) {
}

/// The request to send a message to a group; there is nothing to do.
pub fn sendGroupMessage(group: u16, msg: String) {
}

/// The request to change a group's settings; there is nothing to do.
pub fn setGroupSettings(group: u16, msg: String) {
}

} // verus!
