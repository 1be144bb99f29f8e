//! The client's configuration.

use vstd::prelude::*;
use vstd::string::StringExecFns;

use crate::p2p::text::{decimal_string, decimal_text};

verus! {

/// The configuration of the client.
#[derive(Debug, Clone)]
pub struct Cli {
    /// The name of the node to connect to.
    pub host: String,
    /// The least level that is logged: trace, debug, info, warn or error.
    pub verbosity: String,
    /// The port of the node to connect to.
    pub port: u16,
    /// The number of crawling threads.
    pub threads: usize,
    /// The file that the log goes to.
    pub logfile: Option<String>,
    /// Whether output is verbose.
    pub verbose: bool,
    /// After how many frames a session ends.
    pub max_messages: u64,
    /// How long an attempt to connect may take, in seconds.
    pub timeout: u64,
    /// Whether the session asks its peer for addresses.
    pub discover_peers: bool,
    /// The protocol version to announce.
    pub protocol_version: u32,
}

/// `true` or `false`.
pub open spec fn bool_text(b: bool) -> Seq<char> {
    if b {
        "true"@
    } else {
        "false"@
    }
}

impl Cli {
    /// The node to connect to, as `host:port`.
    pub open spec fn socket_text(self) -> Seq<char> {
        self.host@ + ":"@ + decimal_text(self.port as nat)
    }

    /// The lines that show the configuration.
    pub open spec fn config_text(self) -> Seq<Seq<char>> {
        seq![
            "🔧 Configuration:"@,
            "   Host: "@ + self.host@,
            "   Port: "@ + decimal_text(self.port as nat),
            "   Socket: "@ + self.socket_text(),
            "   Threads: "@ + decimal_text(self.threads as nat) + " (stubbed)"@,
            "   Max messages: "@ + decimal_text(self.max_messages as nat),
            "   Timeout: "@ + decimal_text(self.timeout as nat) + "s"@,
            "   Protocol version: "@ + decimal_text(self.protocol_version as nat),
            "   Verbose: "@ + bool_text(self.verbose),
            "   Discover peers: "@ + bool_text(self.discover_peers),
            match self.logfile {
                Some(path) => "   Log file: "@ + path@ + " (stubbed)"@,
                None => "   Log file: None"@,
            },
            ""@,
        ]
    }

    /// The node to connect to, as `host:port`.
    pub fn socket_addr(&self) -> (text: String)
        ensures
            text@ == self.socket_text(),
    {
        let mut text: String = self.host.clone();
        text.append(":");
        text.append(decimal_string(self.port as u64).as_str());
        text
    }

    /// The lines that show the configuration.
    pub fn config_lines(&self) -> (lines: Vec<String>)
        ensures
            lines.deep_view() == self.config_text(),
    {
        let mut lines: Vec<String> = Vec::new();
        lines.push("🔧 Configuration:".to_owned());
        lines.push(labelled("   Host: ", self.host.as_str(), ""));
        lines.push(labelled("   Port: ", decimal_string(self.port as u64).as_str(), ""));
        lines.push(labelled("   Socket: ", self.socket_addr().as_str(), ""));
        lines.push(
            labelled("   Threads: ", decimal_string(self.threads as u64).as_str(), " (stubbed)"),
        );
        lines.push(labelled("   Max messages: ", decimal_string(self.max_messages).as_str(), ""));
        lines.push(labelled("   Timeout: ", decimal_string(self.timeout).as_str(), "s"));
        lines.push(
            labelled(
                "   Protocol version: ",
                decimal_string(self.protocol_version as u64).as_str(),
                "",
            ),
        );
        lines.push(labelled("   Verbose: ", bool_str(self.verbose), ""));
        lines.push(labelled("   Discover peers: ", bool_str(self.discover_peers), ""));
        match &self.logfile {
            Some(path) => {
                lines.push(labelled("   Log file: ", path.as_str(), " (stubbed)"));
            },
            None => {
                lines.push("   Log file: None".to_owned());
            },
        }
        lines.push("".to_owned());
        proof {
            reveal_strlit("");
            assert(lines.deep_view() =~= self.config_text());
        }
        lines
    }
}

/// `true` or `false`.
fn bool_str(b: bool) -> (text: &'static str)
    ensures
        text@ == bool_text(b),
{
    if b {
        "true"
    } else {
        "false"
    }
}

/// `before`, `value` and `after`, one after the other.
fn labelled(before: &str, value: &str, after: &str) -> (text: String)
    ensures
        text@ == before@ + value@ + after@,
{
    let mut text: String = before.to_owned();
    text.append(value);
    text.append(after);
    text
}

impl Default for Cli {
    /// The configuration of a client that was told nothing.
    fn default() -> (cli: Cli)
        ensures
            cli.host@ == "seed.bitcoin.sipa.be"@,
            cli.verbosity@ == "info"@,
            cli.port == 8333,
            cli.threads == 1,
            cli.logfile is None,
            !cli.verbose,
            cli.max_messages == 500_000,
            cli.timeout == 10,
            !cli.discover_peers,
            cli.protocol_version == 70015,
    {
        Cli {
            host: "seed.bitcoin.sipa.be".to_owned(),
            verbosity: "info".to_owned(),
            port: 8333,
            threads: 1,
            logfile: None,
            verbose: false,
            max_messages: 500_000,
            timeout: 10,
            discover_peers: false,
            protocol_version: 70015,
        }
    }
}

} // verus!
