use soldebug::cli::{parse_tx_hash, Cli, OutputFormat};

fn cli(rpc_url: Option<&str>) -> Cli {
    Cli {
        tx_hash: "0xabc".to_string(),
        rpc_url: rpc_url.map(|s| s.to_string()),
        project_dir: None,
        output: OutputFormat::default(),
        quick: false,
        etherscan_key: None,
        chain: None,
        verbose: 0,
    }
}

#[test]
fn rpc_url_given_is_used() {
    assert_eq!(cli(Some("https://sepolia.example/v3/key")).resolve_rpc_url(), "https://sepolia.example/v3/key");
}

#[test]
fn rpc_url_defaults_to_localhost() {
    assert_eq!(cli(None).resolve_rpc_url(), "http://localhost:8545");
}

#[test]
fn output_defaults_to_trace() {
    assert_eq!(OutputFormat::default(), OutputFormat::Trace);
}

const HASH_HEX: &str = "5c504ed432cb51138bcf09aa5e8a410dd4a1e204ef84bfed1be16dfba1b22060";

fn hash_bytes() -> [u8; 32] {
    let mut out = [0u8; 32];
    for (i, b) in out.iter_mut().enumerate() {
        *b = u8::from_str_radix(&HASH_HEX[2 * i..2 * i + 2], 16).unwrap();
    }
    out
}

#[test]
fn tx_hash_with_prefix_parses() {
    let text = format!("0x{HASH_HEX}");
    assert_eq!(parse_tx_hash(&text), Ok(hash_bytes()));
    assert_eq!(parse_tx_hash(&text).unwrap()[0], 0x5c);
    assert_eq!(parse_tx_hash(&text).unwrap()[31], 0x60);
}

#[test]
fn tx_hash_without_prefix_or_in_upper_case_parses() {
    assert_eq!(parse_tx_hash(HASH_HEX), Ok(hash_bytes()));
    let upper = format!("0X{}", HASH_HEX.to_uppercase());
    assert_eq!(parse_tx_hash(&upper), Ok(hash_bytes()));
}

#[test]
fn tx_hash_too_short_is_refused_with_message() {
    assert_eq!(
        parse_tx_hash("0x1234"),
        Err("Invalid transaction hash: '0x1234'. Expected a 0x-prefixed 32-byte hex string.".to_string())
    );
}

#[test]
fn tx_hash_with_non_hex_digit_is_refused() {
    let text = format!("0x{}g", &HASH_HEX[..63]);
    assert_eq!(
        parse_tx_hash(&text),
        Err(format!("Invalid transaction hash: '{text}'. Expected a 0x-prefixed 32-byte hex string."))
    );
}
