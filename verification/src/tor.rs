//! Tor: reading its progress from its output, the options it is started
//! with, and the commands sent on its control port.
use crate::text::{chars_of, contains_chars, contains_text, string_from_chars};
use vstd::prelude::*;

verus! {

/// The port on which the local Tor proxy accepts SOCKS connections.
pub const SOCKS_PORT: u16 = 19050;

/// The port that the onion services of the rendezvous listen on.
pub const ONION_SERVICE_PORT: u16 = 1917;

/// What one line of Tor's output says about its state.
#[derive(Debug, PartialEq, Eq, Clone, Copy)]
pub enum TorOutput {
    NoChange,
    Started,
    Failed,
    Error,
    Exited,
}

/// The line that Tor prints once it has fully bootstrapped.
pub open spec fn bootstrapped_marker() -> Seq<char> {
    "Bootstrapped 100% (done): Done"@
}

/// What a line of output means: Tor has started once the bootstrap is done.
pub open spec fn output_meaning(line: Seq<char>) -> TorOutput {
    if contains_text(line, bootstrapped_marker()) {
        TorOutput::Started
    } else {
        TorOutput::NoChange
    }
}

/// Tor counts as started only once its output reports the bootstrap as
/// complete: a line means `Started` exactly when it contains the text
/// "Bootstrapped 100% (done): Done"; any other line, such as one reporting
/// partial progress, means no change.
pub proof fn law_started_only_when_fully_bootstrapped(line: Seq<char>)
    ensures
        (output_meaning(line) == TorOutput::Started) <==> contains_text(line, "Bootstrapped 100% (done): Done"@),
        !contains_text(line, "Bootstrapped 100% (done): Done"@) ==> output_meaning(line) == TorOutput::NoChange,
{
}

fn line_meaning(text: &Vec<char>) -> (out: TorOutput)
    ensures
        out == output_meaning(text@),
{
    let marker = chars_of("Bootstrapped 100% (done): Done");
    if contains_chars(text, &marker) {
        TorOutput::Started
    } else {
        TorOutput::NoChange
    }
}

impl TorOutput {
    /// Reads one line of Tor's output.
    pub fn process_output(line: &str) -> (out: TorOutput)
        ensures
            out == output_meaning(line@),
    {
        line_meaning(&chars_of(line))
    }
}

/// The position of the first line feed in `s`, or its length when there is none.
pub open spec fn line_end(s: Seq<char>) -> nat
    decreases s.len(),
{
    if s.len() == 0 {
        0
    } else if s[0] == '\n' {
        0
    } else {
        1 + line_end(s.drop_first())
    }
}

pub proof fn lemma_line_end_bound(s: Seq<char>)
    ensures
        line_end(s) <= s.len(),
    decreases s.len(),
{
    if s.len() > 0 && s[0] != '\n' {
        lemma_line_end_bound(s.drop_first());
    }
}

proof fn lemma_line_end_at(s: Seq<char>, k: int)
    requires
        0 <= k <= s.len(),
        forall|j: int| 0 <= j < k ==> s[j] != '\n',
        k == s.len() || s[k] == '\n',
    ensures
        line_end(s) == k,
    decreases k,
{
    if k > 0 {
        let t = s.drop_first();
        assert forall|j: int| 0 <= j < k - 1 implies t[j] != '\n' by {
            assert(t[j] == s[j + 1]);
        }
        if k < s.len() {
            assert(t[k - 1] == s[k]);
        }
        lemma_line_end_at(t, k - 1);
    }
}

/// A line without the carriage return that ends it, if any.
pub open spec fn strip_cr(line: Seq<char>) -> Seq<char> {
    if line.len() > 0 && line.last() == '\r' {
        line.drop_last()
    } else {
        line
    }
}

/// The lines of a text, as `str::lines` splits it: at each line feed, a
/// carriage return before it dropped; a final line feed ends the last line
/// and starts no new one.
pub open spec fn text_lines(s: Seq<char>) -> Seq<Seq<char>>
    decreases s.len(),
{
    if s.len() == 0 {
        seq![]
    } else {
        let e = line_end(s);
        proof {
            lemma_line_end_bound(s);
        }
        if e == s.len() {
            seq![s]
        } else {
            seq![strip_cr(s.take(e as int))] + text_lines(s.skip(e as int + 1))
        }
    }
}

/// What each line of a piece of Tor's output means, in order.
pub open spec fn output_meanings(s: Seq<char>) -> Seq<TorOutput> {
    text_lines(s).map_values(|l: Seq<char>| output_meaning(l))
}

/// Reads a piece of Tor's output line by line.
pub fn classify_output(text: &str) -> (outs: Vec<TorOutput>)
    ensures
        outs@ == output_meanings(text@),
{
    let s = chars_of(text);
    let n = s.len();
    let mut outs: Vec<TorOutput> = Vec::new();
    let mut start: usize = 0;
    assert(s@.skip(0) =~= s@);
    assert(outs@ + output_meanings(s@) =~= output_meanings(s@));
    while start < n
        invariant
            0 <= start <= n == s@.len(),
            outs@ + text_lines(s@.skip(start as int)).map_values(|l: Seq<char>| output_meaning(l))
                == output_meanings(s@),
        decreases n - start,
    {
        let mut k: usize = start;
        while k < n && s[k] != '\n'
            invariant
                start <= k <= n == s@.len(),
                forall|j: int| start <= j < k ==> s@[j] != '\n',
            decreases n - k,
        {
            k = k + 1;
        }
        let ghost rest = s@.skip(start as int);
        proof {
            assert forall|j: int| 0 <= j < k - start implies rest[j] != '\n' by {
                assert(rest[j] == s@[start + j]);
            }
            if k < n {
                assert(rest[k - start] == s@[k as int]);
            }
            lemma_line_end_at(rest, k - start);
        }
        let mut end: usize = k;
        if end > start && s[end - 1] == '\r' && k < n {
            end = end - 1;
        }
        let line = crate::text::sub_chars(&s, start, end);
        outs.push(line_meaning(&line));
        proof {
            let tl = |l: Seq<char>| output_meaning(l);
            if k == n {
                assert(rest.take((k - start) as int) =~= rest);
                assert(line@ =~= rest);
                assert(text_lines(rest) == seq![rest]);
                assert(s@.skip(n as int) =~= Seq::<char>::empty());
            } else {
                assert(rest.take((k - start) as int) =~= s@.subrange(start as int, k as int));
                assert(line@ =~= strip_cr(rest.take((k - start) as int)));
                assert(rest.skip(k - start + 1) =~= s@.skip(k + 1));
                assert(text_lines(rest) == seq![strip_cr(rest.take((k - start) as int))] + text_lines(
                    s@.skip(k + 1),
                ));
            }
        }
        if k < n {
            start = k + 1;
        } else {
            start = n;
        }
    }
    proof {
        assert(s@.skip(n as int) =~= Seq::<char>::empty());
    }
    outs
}

/// What is known of a Tor instance from its output so far.
#[derive(Debug, PartialEq, Eq, Clone, Copy)]
pub struct TorStatus {
    pub started: bool,
    pub finished: bool,
    pub error: bool,
}

/// The status after one more piece of output.
pub open spec fn status_after(s: TorStatus, change: TorOutput) -> TorStatus {
    match change {
        TorOutput::NoChange => s,
        TorOutput::Started => TorStatus { started: true, ..s },
        TorOutput::Failed => TorStatus { error: true, finished: true, ..s },
        TorOutput::Error => TorStatus { error: true, ..s },
        TorOutput::Exited => TorStatus { finished: true, ..s },
    }
}

/// The status after a sequence of output, taken in order.
pub open spec fn status_after_all(s: TorStatus, changes: Seq<TorOutput>) -> TorStatus
    decreases changes.len(),
{
    if changes.len() == 0 {
        s
    } else {
        status_after(status_after_all(s, changes.drop_last()), changes.last())
    }
}

impl TorStatus {
    /// Nothing known yet: not started, not finished, no error.
    pub fn new() -> (s: Self)
        ensures
            !s.started && !s.finished && !s.error,
    {
        TorStatus { started: false, finished: false, error: false }
    }

    /// Takes one piece of output into account.
    pub fn apply(&mut self, change: TorOutput)
        ensures
            *final(self) == status_after(*old(self), change),
    {
        match change {
            TorOutput::NoChange => {},
            TorOutput::Started => self.started = true,
            TorOutput::Failed => {
                self.error = true;
                self.finished = true;
            },
            TorOutput::Error => self.error = true,
            TorOutput::Exited => self.finished = true,
        }
    }

    /// Takes the output gathered since the last call into account, in order.
    pub fn process_output(&mut self, changes: &Vec<TorOutput>)
        ensures
            *final(self) == status_after_all(*old(self), changes@),
    {
        for i in 0..changes.len()
            invariant
                *self == status_after_all(*old(self), changes@.take(i as int)),
        {
            self.apply(changes[i]);
            assert(changes@.take(i + 1).drop_last() == changes@.take(i as int));
        }
        assert(changes@.take(changes.len() as int) == changes@);
    }

    /// Whether waiting for the start is over after the new output: it is once
    /// Tor has started.
    pub fn poll_started(&mut self, changes: &Vec<TorOutput>) -> (ready: bool)
        ensures
            *final(self) == status_after_all(*old(self), changes@),
            ready == final(self).started,
    {
        self.process_output(changes);
        self.started
    }
}

/// What Tor has reported is never taken back: once started, finished or in
/// error, it stays so whatever output follows.
pub proof fn law_status_is_monotone(s: TorStatus, changes: Seq<TorOutput>)
    ensures
        s.started ==> status_after_all(s, changes).started,
        s.finished ==> status_after_all(s, changes).finished,
        s.error ==> status_after_all(s, changes).error,
    decreases changes.len(),
{
    if changes.len() > 0 {
        law_status_is_monotone(s, changes.drop_last());
    }
}

/// Tor is started exactly when some output so far reported the start.
pub proof fn law_started_iff_reported(changes: Seq<TorOutput>)
    ensures
        status_after_all(TorStatus { started: false, finished: false, error: false }, changes).started
            <==> exists|i: int| 0 <= i < changes.len() && changes[i] == TorOutput::Started,
    decreases changes.len(),
{
    if changes.len() > 0 {
        let init = changes.drop_last();
        law_started_iff_reported(init);
        if exists|i: int| 0 <= i < init.len() && init[i] == TorOutput::Started {
            let i = choose|i: int| 0 <= i < init.len() && init[i] == TorOutput::Started;
            assert(changes[i] == TorOutput::Started);
        }
        if exists|i: int| 0 <= i < changes.len() && changes[i] == TorOutput::Started {
            let i = choose|i: int| 0 <= i < changes.len() && changes[i] == TorOutput::Started;
            if i < changes.len() - 1 {
                assert(init[i] == TorOutput::Started);
            }
        }
    }
}

/// The decimal digits of a number, most significant first.
pub open spec fn decimal(n: nat) -> Seq<char>
    decreases n,
{
    if n < 10 {
        seq![digit_char(n)]
    } else {
        decimal(n / 10).push(digit_char(n % 10))
    }
}

/// The character of a decimal digit.
pub open spec fn digit_char(d: nat) -> char {
    (('0' as u32) + d) as char
}

fn digit(d: u64) -> (c: char)
    requires
        d < 10,
    ensures
        c == digit_char(d as nat),
{
    let b: u8 = (d as u8) + 48;
    b as char
}

/// The decimal digits of a number.
pub fn decimal_chars(n: u64) -> (v: Vec<char>)
    ensures
        v@ == decimal(n as nat),
    decreases n,
{
    if n < 10 {
        let mut v: Vec<char> = Vec::new();
        v.push(digit(n));
        assert(v@ =~= seq![digit_char(n as nat)]);
        v
    } else {
        let mut v = decimal_chars(n / 10);
        v.push(digit(n % 10));
        v
    }
}

fn push_all(v: &mut Vec<char>, w: &Vec<char>)
    ensures
        final(v)@ == old(v)@ + w@,
{
    let mut k: usize = 0;
    while k < w.len()
        invariant
            0 <= k <= w.len(),
            v@ == old(v)@ + w@.take(k as int),
        decreases w.len() - k,
    {
        v.push(w[k]);
        k = k + 1;
    }
    assert(w@.take(w.len() as int) == w@);
}

/// One option of the Tor configuration.
#[derive(Debug, PartialEq, Eq)]
pub enum TorConfigFlag {
    DataDirectory(String),
    SocksPort(u16),
    ControlPort(u16),
    ControlPortWriteToFile(String),
    HiddenServiceDir(String),
    HiddenServiceVersion3,
    /// An onion service on this port, forwarded to the same local port.
    HiddenServicePort(u16),
}

/// The model of a configuration option.
pub enum TorConfigModel {
    DataDirectory(Seq<char>),
    SocksPort(u16),
    ControlPort(u16),
    ControlPortWriteToFile(Seq<char>),
    HiddenServiceDir(Seq<char>),
    HiddenServiceVersion3,
    HiddenServicePort(u16),
}

impl View for TorConfigFlag {
    type V = TorConfigModel;

    open spec fn view(&self) -> TorConfigModel {
        match self {
            TorConfigFlag::DataDirectory(s) => TorConfigModel::DataDirectory(s@),
            TorConfigFlag::SocksPort(p) => TorConfigModel::SocksPort(*p),
            TorConfigFlag::ControlPort(p) => TorConfigModel::ControlPort(*p),
            TorConfigFlag::ControlPortWriteToFile(s) => TorConfigModel::ControlPortWriteToFile(s@),
            TorConfigFlag::HiddenServiceDir(s) => TorConfigModel::HiddenServiceDir(s@),
            TorConfigFlag::HiddenServiceVersion3 => TorConfigModel::HiddenServiceVersion3,
            TorConfigFlag::HiddenServicePort(p) => TorConfigModel::HiddenServicePort(*p),
        }
    }
}

/// The three options that declare the `i`-th onion service, on `port`.
pub open spec fn service_options(i: nat, port: u16) -> Seq<TorConfigModel> {
    seq![
        TorConfigModel::HiddenServiceDir("hidden_services/"@ + decimal(i)),
        TorConfigModel::HiddenServiceVersion3,
        TorConfigModel::HiddenServicePort(port),
    ]
}

/// The options of the onion services, in order.
pub open spec fn services_options(services: Seq<u16>) -> Seq<TorConfigModel>
    decreases services.len(),
{
    if services.len() == 0 {
        seq![]
    } else {
        services_options(services.drop_last()) + service_options(
            (services.len() - 1) as nat,
            services.last(),
        )
    }
}

/// The whole configuration a Tor instance is started with.
pub open spec fn tor_config(services: Seq<u16>, control_port: u16) -> Seq<TorConfigModel> {
    seq![
        TorConfigModel::DataDirectory("/tmp/tor-rust"@),
        TorConfigModel::SocksPort(SOCKS_PORT),
        TorConfigModel::ControlPort(control_port),
        TorConfigModel::ControlPortWriteToFile("control"@),
    ] + services_options(services)
}

/// The configuration of a Tor instance with the given onion service ports and
/// control port.
pub fn tor_flags(services: &Vec<u16>, control_port: u16) -> (flags: Vec<TorConfigFlag>)
    requires
        services.len() < u64::MAX,
    ensures
        flags@.map_values(|f: TorConfigFlag| f@) == tor_config(services@, control_port),
{
    let mut flags: Vec<TorConfigFlag> = Vec::new();
    flags.push(TorConfigFlag::DataDirectory("/tmp/tor-rust".to_owned()));
    flags.push(TorConfigFlag::SocksPort(SOCKS_PORT));
    flags.push(TorConfigFlag::ControlPort(control_port));
    flags.push(TorConfigFlag::ControlPortWriteToFile("control".to_owned()));
    let ghost head = flags@.map_values(|f: TorConfigFlag| f@);
    assert(head =~= seq![
        TorConfigModel::DataDirectory("/tmp/tor-rust"@),
        TorConfigModel::SocksPort(SOCKS_PORT),
        TorConfigModel::ControlPort(control_port),
        TorConfigModel::ControlPortWriteToFile("control"@),
    ]);
    let mut count: u64 = 0;
    for k in 0..services.len()
        invariant
            count == k,
            services.len() < u64::MAX,
            flags@.map_values(|f: TorConfigFlag| f@) == head + services_options(
                services@.take(k as int),
            ),
    {
        let mut dir = chars_of("hidden_services/");
        let digits = decimal_chars(count);
        push_all(&mut dir, &digits);
        let ghost before = flags@;
        flags.push(TorConfigFlag::HiddenServiceDir(string_from_chars(&dir)));
        flags.push(TorConfigFlag::HiddenServiceVersion3);
        flags.push(TorConfigFlag::HiddenServicePort(services[k]));
        proof {
            let t = services@.take(k + 1);
            assert(t.drop_last() == services@.take(k as int));
            assert(t.last() == services@[k as int]);
            assert(flags@.map_values(|f: TorConfigFlag| f@) =~= before.map_values(
                |f: TorConfigFlag| f@,
            ) + service_options(k as nat, services@[k as int]));
        }
        count = count + 1;
    }
    assert(services@.take(services.len() as int) == services@);
    flags
}

/// The command that authenticates on the control port.
pub open spec fn auth_command_text() -> Seq<char> {
    "AUTHENTICATE \r\n"@
}

/// The command that authenticates on the control port.
pub fn auth_command() -> (cmd: String)
    ensures
        cmd@ == auth_command_text(),
{
    "AUTHENTICATE \r\n".to_owned()
}

/// Whether a control port reply reports success.
pub open spec fn reply_is_ok(reply: Seq<char>) -> bool {
    contains_text(reply, "250 OK"@)
}

/// Whether a control port reply reports success.
pub fn reply_ok(reply: &str) -> (ok: bool)
    ensures
        ok == reply_is_ok(reply@),
{
    let text = chars_of(reply);
    let marker = chars_of("250 OK");
    contains_chars(&text, &marker)
}

/// The character of a base64 digit in the standard alphabet: `A`-`Z`,
/// `a`-`z`, `0`-`9`, `+`, `/`.
pub open spec fn base64_digit(v: int) -> char {
    if v < 26 {
        (0x41 + v) as char
    } else if v < 52 {
        (0x61 + v - 26) as char
    } else if v < 62 {
        (0x30 + v - 52) as char
    } else if v == 62 {
        '+'
    } else {
        '/'
    }
}

/// The byte at position `i`, or 0 past the end.
pub open spec fn byte_or_zero(bytes: Seq<u8>, i: int) -> int {
    if i < bytes.len() {
        bytes[i] as int
    } else {
        0
    }
}

/// The standard base64 encoding with padding: each group of three bytes,
/// read as a 24-bit number, gives four digits of six bits, high bits first;
/// a last group of one or two bytes gives two or three digits, then `=` to
/// make four.
pub open spec fn base64_encoding(bytes: Seq<u8>) -> Seq<char> {
    Seq::new(
        (4 * ((bytes.len() + 2) / 3)) as nat,
        |i: int|
            {
                let g = 3 * (i / 4);
                let k = i % 4;
                let present = bytes.len() - g;
                let v = byte_or_zero(bytes, g) * 65536 + byte_or_zero(bytes, g + 1) * 256
                    + byte_or_zero(bytes, g + 2);
                if k > present {
                    '='
                } else if k == 0 {
                    base64_digit(v / 262144)
                } else if k == 1 {
                    base64_digit((v / 4096) % 64)
                } else if k == 2 {
                    base64_digit((v / 64) % 64)
                } else {
                    base64_digit(v % 64)
                }
            },
    )
}

/// Calls `base64::encode`, which uses the standard alphabet with padding
/// (`base64::STANDARD`), as the crate's source shows.
#[verifier::external_body]
fn base64_encode(bytes: &[u8; 64]) -> (s: String)
    ensures
        s@ == base64_encoding(bytes@),
{
    base64::encode(&bytes[..])
}

/// The command that creates an onion service with the given expanded secret
/// key, serving the onion port from a local port.
pub open spec fn add_onion_text(key_base64: Seq<char>, port: u16) -> Seq<char> {
    "ADD_ONION ED25519-V3:"@ + key_base64 + " Flags=DiscardPK "@ + "Port="@ + decimal(
        ONION_SERVICE_PORT as nat,
    ) + ","@ + "127.0.0.1"@ + ":"@ + decimal(port as nat) + " \r\n"@
}

/// The command that creates an onion service whose key is given in base64,
/// serving the onion port from local port `port`.
pub fn add_onion_command_for(key_base64: &String, port: u16) -> (cmd: String)
    ensures
        cmd@ == add_onion_text(key_base64@, port),
{
    let mut v = chars_of("ADD_ONION ED25519-V3:");
    push_all(&mut v, &chars_of(key_base64.as_str()));
    push_all(&mut v, &chars_of(" Flags=DiscardPK "));
    push_all(&mut v, &chars_of("Port="));
    push_all(&mut v, &decimal_chars(ONION_SERVICE_PORT as u64));
    push_all(&mut v, &chars_of(","));
    push_all(&mut v, &chars_of("127.0.0.1"));
    push_all(&mut v, &chars_of(":"));
    push_all(&mut v, &decimal_chars(port as u64));
    push_all(&mut v, &chars_of(" \r\n"));
    string_from_chars(&v)
}

/// The command that creates an onion service with the given expanded secret
/// key, serving the onion port from local port `port`.
pub fn add_onion_command(secret: &[u8; 64], port: u16) -> (cmd: String)
    ensures
        cmd@ == add_onion_text(base64_encoding(secret@), port),
{
    let key = base64_encode(secret);
    add_onion_command_for(&key, port)
}

} // verus!
