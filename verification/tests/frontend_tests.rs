use storm::frontend::{
    createAccount, createAlias, getGroupMessages, getGroups, login, sendGroupMessage,
    setGroupSettings, start, AccountData, Backend,
};
use storm::stub::{Message, MessageDestiny, Peer, Stub};

fn s(x: &str) -> String {
    x.to_string()
}

#[test]
fn requests_without_work_are_accepted() {
    start();
    createAlias();
    getGroupMessages(4);
    sendGroupMessage(5, s("m"));
    setGroupSettings(6, s("s"));
}

#[test]
fn accounts_are_numbered_in_creation_order() {
    let mut b = Backend::new();
    assert_eq!(createAccount(&mut b, s("alice"), s("pw")), 0);
    assert_eq!(createAccount(&mut b, s("bob"), s("pw2")), 1);
    assert_eq!(createAccount(&mut b, s("alice"), s("pw")), 2);
}

#[test]
fn login_gives_the_account_data() {
    let mut b = Backend::new();
    createAccount(&mut b, s("alice"), s("pw"));
    let bob = createAccount(&mut b, s("bob"), s("pw2"));
    b.create_group(bob, s("family"));
    assert_eq!(
        login(&b, s("bob"), s("pw2")),
        Some(AccountData { alias: 1, username: s("bob"), groups: vec![s("family")] })
    );
    assert_eq!(
        login(&b, s("alice"), s("pw")),
        Some(AccountData { alias: 0, username: s("alice"), groups: vec![] })
    );
    assert_eq!(login(&b, s("bob"), s("pw")), None);
    assert_eq!(login(&b, s("carol"), s("pw")), None);
}

#[test]
fn login_reaches_the_first_matching_account() {
    let mut b = Backend::new();
    createAccount(&mut b, s("x"), s("y"));
    createAccount(&mut b, s("x"), s("y"));
    assert_eq!(login(&b, s("x"), s("y")).unwrap().alias, 0);
}

#[test]
fn groups_of_an_alias() {
    let mut b = Backend::new();
    let a = createAccount(&mut b, s("alice"), s("pw"));
    assert_eq!(getGroups(&b, a), Some(vec![]));
    b.create_group(a, s("g1"));
    b.create_group(a, s("g2"));
    b.create_group(7, s("nowhere"));
    assert_eq!(getGroups(&b, a), Some(vec![s("g1"), s("g2")]));
    assert_eq!(getGroups(&b, 7), None);
}

#[test]
fn stub_client_accepts_everything() {
    let stub = Stub {};
    let msg = Message {};
    assert!(stub.parse_dependencies(&msg).is_empty());
    assert!(stub.get_will_share_group(&Peer { key: [0u8; 32] }, &[1u8; 32]));
    assert!(stub.validate(&msg));
    assert_eq!(stub.get_message_destiny(&msg), MessageDestiny {});
    assert_eq!(stub.get_next_message(), Message {});
    stub.deliver(&msg);
}
