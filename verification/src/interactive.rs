//! The control shell's commands: reading a line, and deciding what a
//! command does.

use vstd::prelude::*;
use vstd::slice::slice_subrange;
use vstd::string::{StringExecFns, StringSliceAdditionalSpecFns};

use crate::cli::Cli;
use crate::p2p::database::{PeerDatabase, PeerInfo, PeerRecord};
use crate::p2p::text::{bytes_eq, decimal_string, decimal_text, spec_utf8_lossy, utf8_lossy};

verus! {

/// A command of the control shell.
#[derive(Debug, Clone, PartialEq, Eq)]
pub enum Command {
    Start,
    Stop,
    Status,
    Config,
    SetHost(String),
    SetPort(u16),
    ListPeers,
    Crawl,
    Dns,
    Help,
    Exit,
    Clear,
    Unknown,
}

/// A command as a mathematical value.
pub ghost enum CommandLine {
    Start,
    Stop,
    Status,
    Config,
    SetHost(Seq<char>),
    SetPort(u16),
    ListPeers,
    Crawl,
    Dns,
    Help,
    Exit,
    Clear,
    Unknown,
}

impl View for Command {
    type V = CommandLine;

    open spec fn view(&self) -> CommandLine {
        match self {
            Command::Start => CommandLine::Start,
            Command::Stop => CommandLine::Stop,
            Command::Status => CommandLine::Status,
            Command::Config => CommandLine::Config,
            Command::SetHost(host) => CommandLine::SetHost(host@),
            Command::SetPort(port) => CommandLine::SetPort(*port),
            Command::ListPeers => CommandLine::ListPeers,
            Command::Crawl => CommandLine::Crawl,
            Command::Dns => CommandLine::Dns,
            Command::Help => CommandLine::Help,
            Command::Exit => CommandLine::Exit,
            Command::Clear => CommandLine::Clear,
            Command::Unknown => CommandLine::Unknown,
        }
    }
}

/// How many bytes the white-space character that starts at `i` takes in
/// UTF-8 text; 0 where none starts. White space is what Unicode calls so:
/// U+0009 to U+000D, U+0020, U+0085, U+00A0, U+1680, U+2000 to U+200A,
/// U+2028, U+2029, U+202F, U+205F and U+3000.
pub open spec fn space_width(b: Seq<u8>, i: int) -> int {
    if i < 0 || i >= b.len() {
        0
    } else if b[i] == 0x20 || 0x09 <= b[i] <= 0x0D {
        1
    } else if i + 1 < b.len() && b[i] == 0xC2 && (b[i + 1] == 0x85 || b[i + 1] == 0xA0) {
        2
    } else if i + 2 < b.len() && b[i] == 0xE1 && b[i + 1] == 0x9A && b[i + 2] == 0x80 {
        3
    } else if i + 2 < b.len() && b[i] == 0xE2 && b[i + 1] == 0x80 && (0x80 <= b[i + 2] <= 0x8A
        || b[i + 2] == 0xA8 || b[i + 2] == 0xA9 || b[i + 2] == 0xAF) {
        3
    } else if i + 2 < b.len() && b[i] == 0xE2 && b[i + 1] == 0x81 && b[i + 2] == 0x9F {
        3
    } else if i + 2 < b.len() && b[i] == 0xE3 && b[i + 1] == 0x80 && b[i + 2] == 0x80 {
        3
    } else {
        0
    }
}

/// The first place at or after `from` where no white space starts.
pub open spec fn skip_spaces(b: Seq<u8>, from: int) -> int
    decreases b.len() - from,
{
    if space_width(b, from) > 0 {
        skip_spaces(b, from + space_width(b, from))
    } else {
        from
    }
}

/// The first place at or after `from` where white space starts or the text
/// ends.
pub open spec fn word_end(b: Seq<u8>, from: int) -> int
    decreases b.len() - from,
{
    if from < 0 || from >= b.len() || space_width(b, from) > 0 {
        from
    } else {
        word_end(b, from + 1)
    }
}

/// Whether every byte is an ASCII digit.
pub open spec fn all_digits(d: Seq<u8>) -> bool {
    forall|i: int| 0 <= i < d.len() ==> 0x30 <= #[trigger] d[i] <= 0x39
}

/// The number that decimal digits spell.
pub open spec fn digits_value(d: Seq<u8>) -> nat
    decreases d.len(),
{
    if d.len() == 0 {
        0
    } else {
        10 * digits_value(d.drop_last()) + (d.last() - 0x30) as nat
    }
}

/// The port that a word spells: decimal digits, after a plus sign or not,
/// for a number up to 65535. `None` for any other word.
pub open spec fn parsed_port(word: Seq<u8>) -> Option<u16> {
    let digits = if word.len() > 0 && word[0] == 0x2B {
        word.drop_first()
    } else {
        word
    };
    if digits.len() == 0 || !all_digits(digits) || digits_value(digits) > 0xFFFF {
        None
    } else {
        Some(digits_value(digits) as u16)
    }
}

/// The command that a line spells. The line's first word names the command;
/// `sethost` and `setport` take the second word, and are unknown without a
/// second word or with one that is no port.
pub open spec fn parsed_command(line: Seq<u8>) -> CommandLine {
    let start = skip_spaces(line, 0);
    let end = word_end(line, start);
    let word = line.subrange(start, end);
    let start2 = skip_spaces(line, end);
    let end2 = word_end(line, start2);
    let second = line.subrange(start2, end2);
    if word == "start".spec_bytes() {
        CommandLine::Start
    } else if word == "stop".spec_bytes() {
        CommandLine::Stop
    } else if word == "status".spec_bytes() {
        CommandLine::Status
    } else if word == "config".spec_bytes() {
        CommandLine::Config
    } else if word == "sethost".spec_bytes() {
        if second.len() > 0 {
            CommandLine::SetHost(spec_utf8_lossy(second))
        } else {
            CommandLine::Unknown
        }
    } else if word == "setport".spec_bytes() {
        match parsed_port(second) {
            Some(port) => CommandLine::SetPort(port),
            None => CommandLine::Unknown,
        }
    } else if word == "peers".spec_bytes() {
        CommandLine::ListPeers
    } else if word == "crawl".spec_bytes() {
        CommandLine::Crawl
    } else if word == "dns".spec_bytes() {
        CommandLine::Dns
    } else if word == "help".spec_bytes() {
        CommandLine::Help
    } else if word == "exit".spec_bytes() || word == "quit".spec_bytes() {
        CommandLine::Exit
    } else if word == "clear".spec_bytes() {
        CommandLine::Clear
    } else {
        CommandLine::Unknown
    }
}

/// How many bytes the white-space character that starts at `i` takes.
fn space_width_at(b: &[u8], i: usize) -> (w: usize)
    requires
        i <= b@.len(),
    ensures
        w == space_width(b@, i as int),
        i + w <= b@.len(),
{
    let len: usize = b.len();
    if i >= len {
        return 0;
    }
    let c: u8 = b[i];
    if c == 0x20 || (0x09 <= c && c <= 0x0D) {
        return 1;
    }
    if len - i >= 2 && c == 0xC2 && (b[i + 1] == 0x85 || b[i + 1] == 0xA0) {
        return 2;
    }
    if len - i >= 3 {
        let d: u8 = b[i + 1];
        let e: u8 = b[i + 2];
        if c == 0xE1 && d == 0x9A && e == 0x80 {
            return 3;
        }
        if c == 0xE2 && d == 0x80 && ((0x80 <= e && e <= 0x8A) || e == 0xA8 || e == 0xA9 || e
            == 0xAF) {
            return 3;
        }
        if c == 0xE2 && d == 0x81 && e == 0x9F {
            return 3;
        }
        if c == 0xE3 && d == 0x80 && e == 0x80 {
            return 3;
        }
    }
    0
}

/// The next word at or after `from`: where it starts and where it ends.
fn next_word(b: &[u8], from: usize) -> (r: (usize, usize))
    requires
        from <= b@.len(),
    ensures
        r.0 == skip_spaces(b@, from as int),
        r.1 == word_end(b@, r.0 as int),
        from <= r.0 <= r.1 <= b@.len(),
{
    let len: usize = b.len();
    let mut start: usize = from;
    let mut w: usize = space_width_at(b, start);
    while w > 0
        invariant
            from <= start <= len,
            len == b@.len(),
            w == space_width(b@, start as int),
            start + w <= len,
            skip_spaces(b@, from as int) == skip_spaces(b@, start as int),
        decreases len - start,
    {
        start = start + w;
        w = space_width_at(b, start);
    }
    let mut end: usize = start;
    while end < len && space_width_at(b, end) == 0
        invariant
            start <= end <= len,
            len == b@.len(),
            word_end(b@, start as int) == word_end(b@, end as int),
        decreases len - end,
    {
        end += 1;
    }
    (start, end)
}

/// Reads a port.
fn parse_port(word: &[u8]) -> (port: Option<u16>)
    ensures
        port == parsed_port(word@),
{
    let len: usize = word.len();
    let first: usize = if len > 0 && word[0] == 0x2B {
        1
    } else {
        0
    };
    let ghost digits = if word@.len() > 0 && word@[0] == 0x2B {
        word@.drop_first()
    } else {
        word@
    };
    assert(digits =~= word@.subrange(first as int, len as int));
    if first == len {
        return None;
    }
    let mut value: u32 = 0;
    let mut i: usize = first;
    assert(digits.take(0) =~= Seq::<u8>::empty());
    while i < len
        invariant
            first <= i <= len,
            len == word@.len(),
            digits == word@.subrange(first as int, len as int),
            digits == (if word@.len() > 0 && word@[0] == 0x2B {
                word@.drop_first()
            } else {
                word@
            }),
            all_digits(digits.take(i - first)),
            value == digits_value(digits.take(i - first)),
            value <= 0xFFFF,
        decreases len - i,
    {
        let c: u8 = word[i];
        assert(digits[i - first] == c);
        assert(digits.take(i - first + 1).drop_last() =~= digits.take(i - first));
        if c < 0x30 || c > 0x39 {
            assert(!all_digits(digits));
            return None;
        }
        value = 10 * value + (c - 0x30) as u32;
        if value > 0xFFFF {
            proof {
                lemma_digits_grow(digits, i - first + 1);
            }
            return None;
        }
        i += 1;
    }
    assert(digits.take(len - first) =~= digits);
    Some(value as u16)
}

/// The number that digits spell is no less than the number that the first
/// of them spell.
pub proof fn lemma_digits_grow(d: Seq<u8>, k: int)
    requires
        0 <= k <= d.len(),
    ensures
        digits_value(d.take(k)) <= digits_value(d) || !all_digits(d),
    decreases d.len() - k,
{
    if k < d.len() {
        lemma_digits_grow(d, k + 1);
        assert(d.take(k + 1).drop_last() =~= d.take(k));
        if all_digits(d) {
            assert(d.take(k + 1).last() == d[k]);
            assert(0x30 <= d[k]);
        }
    } else {
        assert(d.take(k) =~= d);
    }
}

impl Command {
    /// Reads a command from a line of input.
    pub fn from_str(input: &str) -> (command: Command)
        ensures
            command@ == parsed_command(input.spec_bytes()),
    {
        let line: &[u8] = input.as_bytes();
        let (start, end) = next_word(line, 0);
        let (start2, end2) = next_word(line, end);
        let word: &[u8] = slice_subrange(line, start, end);
        let second: &[u8] = slice_subrange(line, start2, end2);
        if bytes_eq(word, "start".as_bytes()) {
            Command::Start
        } else if bytes_eq(word, "stop".as_bytes()) {
            Command::Stop
        } else if bytes_eq(word, "status".as_bytes()) {
            Command::Status
        } else if bytes_eq(word, "config".as_bytes()) {
            Command::Config
        } else if bytes_eq(word, "sethost".as_bytes()) {
            if second.len() > 0 {
                Command::SetHost(utf8_lossy(second))
            } else {
                Command::Unknown
            }
        } else if bytes_eq(word, "setport".as_bytes()) {
            match parse_port(second) {
                Some(port) => Command::SetPort(port),
                None => Command::Unknown,
            }
        } else if bytes_eq(word, "peers".as_bytes()) {
            Command::ListPeers
        } else if bytes_eq(word, "crawl".as_bytes()) {
            Command::Crawl
        } else if bytes_eq(word, "dns".as_bytes()) {
            Command::Dns
        } else if bytes_eq(word, "help".as_bytes()) {
            Command::Help
        } else if bytes_eq(word, "exit".as_bytes()) || bytes_eq(word, "quit".as_bytes()) {
            Command::Exit
        } else if bytes_eq(word, "clear".as_bytes()) {
            Command::Clear
        } else {
            Command::Unknown
        }
    }
}

/// What the shell does for a command.
#[derive(Debug, Clone, Copy, PartialEq, Eq, Structural)]
pub enum ControlAction {
    ShowHelp,
    /// Connect and start a session.
    StartClient,
    /// Say that the client is running already.
    AlreadyRunning,
    /// Stop the session.
    StopClient,
    /// Say that no client is running.
    NotRunning,
    ShowStatus,
    ShowConfig,
    /// Say that the host was set.
    HostUpdated,
    /// Say that the port was set.
    PortUpdated,
    ListPeers,
    RunCrawler,
    /// Start the DNS seed responder on a snapshot of the client's peers.
    StartDns,
    /// Say that the responder is running already.
    DnsAlreadyRunning,
    /// Say that the responder needs a running client.
    DnsNeedsClient,
    ClearScreen,
    /// Leave the shell, after stopping the client if one is running.
    Exit { stop_client: bool },
    /// Say that the command is not known.
    UnknownCommand,
}

/// The control shell: the configuration, and what is running.
#[derive(Debug)]
pub struct InteractiveCli {
    pub config: Cli,
    /// Whether the shell goes on reading commands.
    pub running: bool,
    /// Whether a client is running.
    pub client_active: bool,
    /// Whether the DNS seed responder is running.
    pub dns_active: bool,
}

/// The shell's state as a mathematical value: what the commands read and
/// change.
pub ghost struct ShellState {
    pub host: Seq<char>,
    pub port: u16,
    pub running: bool,
    pub client_active: bool,
    pub dns_active: bool,
}

impl View for InteractiveCli {
    type V = ShellState;

    open spec fn view(&self) -> ShellState {
        ShellState {
            host: self.config.host@,
            port: self.config.port,
            running: self.running,
            client_active: self.client_active,
            dns_active: self.dns_active,
        }
    }
}

/// What a command does to the shell, and what the shell does for it.
pub open spec fn commanded(s: ShellState, command: CommandLine) -> (ShellState, ControlAction) {
    match command {
        CommandLine::Help => (s, ControlAction::ShowHelp),
        CommandLine::Start => if s.client_active {
            (s, ControlAction::AlreadyRunning)
        } else {
            (s, ControlAction::StartClient)
        },
        CommandLine::Stop => if s.client_active {
            (ShellState { client_active: false, ..s }, ControlAction::StopClient)
        } else {
            (s, ControlAction::NotRunning)
        },
        CommandLine::Status => (s, ControlAction::ShowStatus),
        CommandLine::Config => (s, ControlAction::ShowConfig),
        CommandLine::SetHost(host) => (ShellState { host, ..s }, ControlAction::HostUpdated),
        CommandLine::SetPort(port) => (ShellState { port, ..s }, ControlAction::PortUpdated),
        CommandLine::ListPeers => (s, ControlAction::ListPeers),
        CommandLine::Crawl => (s, ControlAction::RunCrawler),
        CommandLine::Dns => if s.dns_active {
            (s, ControlAction::DnsAlreadyRunning)
        } else if !s.client_active {
            (s, ControlAction::DnsNeedsClient)
        } else {
            (ShellState { dns_active: true, ..s }, ControlAction::StartDns)
        },
        CommandLine::Clear => (s, ControlAction::ClearScreen),
        CommandLine::Exit => (
            ShellState { running: false, client_active: false, ..s },
            ControlAction::Exit { stop_client: s.client_active },
        ),
        CommandLine::Unknown => (s, ControlAction::UnknownCommand),
    }
}

impl InteractiveCli {
    /// What of the configuration no command changes.
    pub open spec fn fixed_config(self) -> (
        Seq<char>,
        usize,
        Option<Seq<char>>,
        bool,
        u64,
        u64,
        bool,
        u32,
    ) {
        (
            self.config.verbosity@,
            self.config.threads,
            match self.config.logfile {
                Some(path) => Some(path@),
                None => None,
            },
            self.config.verbose,
            self.config.max_messages,
            self.config.timeout,
            self.config.discover_peers,
            self.config.protocol_version,
        )
    }

    /// A shell that reads commands, with nothing running yet.
    pub fn new(config: Cli) -> (shell: InteractiveCli)
        ensures
            shell.config == config,
            shell.running,
            !shell.client_active,
            !shell.dns_active,
    {
        InteractiveCli { config, running: true, client_active: false, dns_active: false }
    }

    /// Decides what the shell does for `command`, and applies what the
    /// command changes of the shell itself.
    pub fn handle_command(&mut self, command: Command) -> (action: ControlAction)
        ensures
            final(self)@ == commanded(old(self)@, command@).0,
            action == commanded(old(self)@, command@).1,
            final(self).fixed_config() == old(self).fixed_config(),
    {
        match command {
            Command::Help => ControlAction::ShowHelp,
            Command::Start => {
                if self.client_active {
                    ControlAction::AlreadyRunning
                } else {
                    ControlAction::StartClient
                }
            },
            Command::Stop => {
                if self.client_active {
                    self.client_active = false;
                    ControlAction::StopClient
                } else {
                    ControlAction::NotRunning
                }
            },
            Command::Status => ControlAction::ShowStatus,
            Command::Config => ControlAction::ShowConfig,
            Command::SetHost(host) => {
                self.config.host = host;
                ControlAction::HostUpdated
            },
            Command::SetPort(port) => {
                self.config.port = port;
                ControlAction::PortUpdated
            },
            Command::ListPeers => ControlAction::ListPeers,
            Command::Crawl => ControlAction::RunCrawler,
            Command::Dns => {
                if self.dns_active {
                    ControlAction::DnsAlreadyRunning
                } else if !self.client_active {
                    ControlAction::DnsNeedsClient
                } else {
                    self.dns_active = true;
                    ControlAction::StartDns
                }
            },
            Command::Clear => ControlAction::ClearScreen,
            Command::Exit => {
                let stop_client: bool = self.client_active;
                self.client_active = false;
                self.running = false;
                ControlAction::Exit { stop_client }
            },
            Command::Unknown => ControlAction::UnknownCommand,
        }
    }
}

/// The text that `{:?}` gives for `chrono::DateTime::from_timestamp(secs, 0)`:
/// the time in UTC that lies `secs` seconds after the Unix epoch, or `None`
/// where that is out of range.
pub uninterp spec fn spec_timestamp_text(secs: i64) -> Seq<char>;

/// Calls `chrono::DateTime::from_timestamp` with no nanoseconds and formats
/// what it returns with `{:?}`. The contract only gives the text its name:
/// it is a function of the seconds alone.
#[verifier::external_body]
fn timestamp_text(secs: i64) -> (text: String)
    ensures
        text@ == spec_timestamp_text(secs),
{
    format!("{:?}", chrono::DateTime::from_timestamp(secs, 0))
}

/// The signed number with the same 64-bit pattern as `ts`.
pub open spec fn signed_seconds(ts: u64) -> i64 {
    if ts <= i64::MAX {
        ts as i64
    } else {
        (ts - 0x1_0000_0000_0000_0000) as i64
    }
}

/// When a peer was last seen, as the listing shows it, given the text of
/// the time.
pub open spec fn contact_text(stamp: Option<Seq<char>>) -> Seq<char> {
    match stamp {
        None => "None"@,
        Some(text) => "Some("@ + text + ")"@,
    }
}

/// The line of a peer in the listing, given the text of its endpoint and of
/// the time when it was last seen.
pub open spec fn peer_line_text(endpoint: Seq<char>, stamp: Option<Seq<char>>) -> Seq<char> {
    "   "@ + endpoint + " (último contato: "@ + contact_text(stamp) + ")"@
}

/// The line of a record in the listing.
pub open spec fn record_line(record: PeerRecord) -> Seq<char> {
    peer_line_text(
        record.address.text(),
        match record.last_seen {
            None => None,
            Some(ts) => Some(spec_timestamp_text(signed_seconds(ts))),
        },
    )
}

/// The listing of the known peers: their number, then one line for each.
pub open spec fn listing_text(records: Seq<PeerRecord>) -> Seq<Seq<char>> {
    seq!["📡 Peers conhecidos: "@ + decimal_text(records.len())] + Seq::new(
        records.len(),
        |i: int| record_line(records[i]),
    )
}

/// Writes the line of a peer in the listing, given the text of its endpoint
/// and of the time when it was last seen.
pub fn format_peer_line(endpoint: &str, stamp: Option<&str>) -> (line: String)
    ensures
        line@ == peer_line_text(
            endpoint@,
            match stamp {
                None => None,
                Some(text) => Some(text@),
            },
        ),
{
    let mut line: String = "   ".to_owned();
    line.append(endpoint);
    line.append(" (último contato: ");
    match stamp {
        None => {
            line.append("None");
        },
        Some(text) => {
            line.append("Some(");
            line.append(text);
            line.append(")");
        },
    }
    line.append(")");
    line
}

/// Writes the line of a record in the listing.
pub fn peer_line(info: &PeerInfo) -> (line: String)
    ensures
        line@ == record_line(info@),
{
    let endpoint: String = info.address.to_text();
    match info.last_seen {
        None => format_peer_line(endpoint.as_str(), None),
        Some(ts) => {
            let secs: i64 = if ts <= 0x7FFF_FFFF_FFFF_FFFF {
                ts as i64
            } else {
                -((u64::MAX - ts) as i64) - 1
            };
            let stamp: String = timestamp_text(secs);
            format_peer_line(endpoint.as_str(), Some(stamp.as_str()))
        },
    }
}

/// Writes the listing of the known peers.
pub fn list_peers(db: &PeerDatabase) -> (lines: Vec<String>)
    ensures
        lines.deep_view() == listing_text(db@),
{
    let records: &Vec<PeerInfo> = db.records();
    let n: usize = records.len();
    let mut head: String = "📡 Peers conhecidos: ".to_owned();
    head.append(decimal_string(n as u64).as_str());
    let mut lines: Vec<String> = Vec::new();
    lines.push(head);
    let mut i: usize = 0;
    while i < n
        invariant
            i <= n,
            n == records@.len(),
            records.deep_view() == db@,
            lines@.len() == i + 1,
            lines@[0]@ == "📡 Peers conhecidos: "@ + decimal_text(n as nat),
            forall|j: int| 0 <= j < i ==> (#[trigger] lines@[j + 1])@ == record_line(db@[j]),
        decreases n - i,
    {
        assert(records.deep_view()[i as int] == records@[i as int]@);
        lines.push(peer_line(&records[i]));
        i += 1;
    }
    proof {
        let want = listing_text(db@);
        assert(want.len() == n + 1);
        assert forall|k: int| 0 <= k < n + 1 implies #[trigger] lines.deep_view()[k]
            == want[k] by {
            assert(lines.deep_view()[k] == lines@[k]@);
            if k > 0 {
                assert(lines@[(k - 1) + 1]@ == record_line(db@[k - 1]));
            }
        }
        assert(lines.deep_view() =~= want);
    }
    lines
}

} // verus!
