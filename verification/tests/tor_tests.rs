use storm::tor::{
    add_onion_command, auth_command, classify_output, decimal_chars, reply_ok, tor_flags,
    TorConfigFlag, TorOutput, TorStatus,
};

#[test]
fn bootstrap_line_means_started() {
    assert_eq!(
        TorOutput::process_output("Nov 01 12:00 [notice] Bootstrapped 100% (done): Done"),
        TorOutput::Started
    );
    assert_eq!(
        TorOutput::process_output("Bootstrapped 90% (ap_handshake_done)"),
        TorOutput::NoChange
    );
    assert_eq!(TorOutput::process_output(""), TorOutput::NoChange);
}

#[test]
fn output_is_read_line_by_line() {
    let text = "a\r\nBootstrapped 100% (done): Done\n\nlast\r";
    assert_eq!(
        classify_output(text),
        vec![TorOutput::NoChange, TorOutput::Started, TorOutput::NoChange, TorOutput::NoChange]
    );
    assert_eq!(classify_output("one\n"), vec![TorOutput::NoChange]);
    assert_eq!(classify_output(""), Vec::<TorOutput>::new());
}

#[test]
fn status_follows_output() {
    let mut s = TorStatus::new();
    assert!(!s.poll_started(&vec![TorOutput::NoChange, TorOutput::Error]));
    assert!(s.error && !s.finished);
    assert!(s.poll_started(&vec![TorOutput::Started]));
    s.process_output(&vec![TorOutput::Failed]);
    assert!(s.started && s.finished && s.error);
    let mut t = TorStatus::new();
    t.apply(TorOutput::Exited);
    assert!(t.finished && !t.error && !t.started);
}

#[test]
fn decimal_digits() {
    let s: String = decimal_chars(0).into_iter().collect();
    assert_eq!(s, "0");
    let s: String = decimal_chars(1917).into_iter().collect();
    assert_eq!(s, "1917");
    let s: String = decimal_chars(u64::MAX).into_iter().collect();
    assert_eq!(s, u64::MAX.to_string());
}

#[test]
fn tor_configuration() {
    let flags = tor_flags(&vec![8004, 8005], 4242);
    assert_eq!(
        flags,
        vec![
            TorConfigFlag::DataDirectory("/tmp/tor-rust".to_string()),
            TorConfigFlag::SocksPort(19050),
            TorConfigFlag::ControlPort(4242),
            TorConfigFlag::ControlPortWriteToFile("control".to_string()),
            TorConfigFlag::HiddenServiceDir("hidden_services/0".to_string()),
            TorConfigFlag::HiddenServiceVersion3,
            TorConfigFlag::HiddenServicePort(8004),
            TorConfigFlag::HiddenServiceDir("hidden_services/1".to_string()),
            TorConfigFlag::HiddenServiceVersion3,
            TorConfigFlag::HiddenServicePort(8005),
        ]
    );
    assert_eq!(tor_flags(&vec![], 1).len(), 4);
}

#[test]
fn control_commands() {
    assert_eq!(auth_command(), "AUTHENTICATE \r\n");
    let expected = format!(
        "ADD_ONION ED25519-V3:{} Flags=DiscardPK Port=1917,127.0.0.1:5000 \r\n",
        "A".repeat(86) + "=="
    );
    assert_eq!(add_onion_command(&[0u8; 64], 5000), expected);
    let cmd = add_onion_command(&[255u8; 64], 65535);
    let expected = format!(
        "ADD_ONION ED25519-V3:{}/w== Flags=DiscardPK Port=1917,127.0.0.1:65535 \r\n",
        "/".repeat(84)
    );
    assert_eq!(cmd, expected);
    let mut key = [0u8; 64];
    key[0] = 0x4d;
    key[1] = 0x61;
    key[2] = 0x6e;
    assert!(add_onion_command(&key, 1).starts_with("ADD_ONION ED25519-V3:TWFuAAAA"));
}

#[test]
fn replies() {
    assert!(reply_ok("250 OK\r\n"));
    assert!(reply_ok("250-ServiceID=abc\r\n250 OK\r\n"));
    assert!(!reply_ok("515 Authentication failed\r\n"));
    assert!(!reply_ok("250 O"));
}
