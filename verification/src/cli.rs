//! Command-line options of the debugger.

use vstd::prelude::*;
use crate::text::{hash_from_hex, parse_b256};

verus! {

/// Output format for the CLI.
#[derive(Debug, Clone, Copy, PartialEq, Eq)]
pub enum OutputFormat {
    /// Human-readable stack trace (default, LLM-friendly).
    Trace,
    /// Machine-readable JSON.
    Json,
    /// Interactive TUI debugger.
    Interactive,
}

impl Default for OutputFormat {
    fn default() -> (r: Self)
        ensures
            r == OutputFormat::Trace,
    {
        OutputFormat::Trace
    }
}

/// Modern Solidity transaction debugger options.
#[derive(Debug)]
pub struct Cli {
    /// The transaction hash to debug.
    pub tx_hash: String,
    /// RPC endpoint URL (from `--rpc-url` or the `ETH_RPC_URL` variable).
    pub rpc_url: Option<String>,
    /// Foundry project directory (defaults to CWD if foundry.toml is present).
    pub project_dir: Option<String>,
    /// Output format.
    pub output: OutputFormat,
    /// Skip replaying preceding transactions in the block.
    pub quick: bool,
    /// Etherscan API key for fetching verified contract sources.
    pub etherscan_key: Option<String>,
    /// Chain identifier (e.g., "mainnet", "polygon", "arbitrum").
    pub chain: Option<String>,
    /// Output verbosity, the number of `-v` flags (`-v`: addresses and gas,
    /// `-vv`: selectors and full addresses).
    pub verbose: u8,
}

/// The RPC endpoint used when none is given.
pub open spec fn default_rpc_url() -> Seq<char> {
    "http://localhost:8545"@
}

impl Cli {
    /// Resolve the RPC URL from CLI args or defaults: the given URL, else
    /// `http://localhost:8545`.
    pub fn resolve_rpc_url(&self) -> (r: String)
        ensures
            r@ == match self.rpc_url {
                Some(url) => url@,
                None => default_rpc_url(),
            },
    {
        match &self.rpc_url {
            Some(url) => url.clone(),
            None => "http://localhost:8545".to_owned(),
        }
    }
}

/// The message given for a transaction hash that does not parse.
pub open spec fn invalid_hash_message(text: Seq<char>) -> Seq<char> {
    "Invalid transaction hash: '"@ + text + "'. Expected a 0x-prefixed 32-byte hex string."@
}

/// Parses the transaction hash given on the command line: its 32 bytes when
/// it is 64 hexadecimal digits (with or without `0x`), else the message that
/// names the text.
pub fn parse_tx_hash(text: &str) -> (r: Result<[u8; 32], String>)
    ensures
        match r {
            Ok(h) => hash_from_hex(text@) == Some(h@),
            Err(msg) => hash_from_hex(text@) is None && msg@ == invalid_hash_message(text@),
        },
{
    match parse_b256(text) {
        Some(h) => Ok(h),
        None => {
            let mut msg = String::new();
            msg.append("Invalid transaction hash: '");
            msg.append(text);
            msg.append("'. Expected a 0x-prefixed 32-byte hex string.");
            assert(msg@ =~= invalid_hash_message(text@));
            Err(msg)
        },
    }
}

} // verus!
