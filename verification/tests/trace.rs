use soldebug::trace_fmt::{format_address, format_trace, format_trace_plain, format_trace_with, render_trace, write_frame, ansi, plain};
use soldebug::types::{DebugSession, FrameKind, SourceLoc, StackFrame};

fn frame(name: Option<&str>, func: Option<&str>, kind: FrameKind, success: bool) -> StackFrame {
    StackFrame {
        address: [0u8; 20],
        contract_name: name.map(|s| s.to_string()),
        function_name: func.map(|s| s.to_string()),
        selector: None,
        function_args: Vec::new(),
        return_value: None,
        source_location: None,
        depth: 0,
        kind,
        success,
        revert_reason: None,
        gas_used: 0,
        children: Vec::new(),
    }
}

fn hash(first: u8, last: u8) -> [u8; 32] {
    let mut h = [0u8; 32];
    h[0] = first;
    h[31] = last;
    h
}

fn session(success: bool, gas: u64, frames: Vec<StackFrame>, reason: Option<&str>) -> DebugSession {
    let mut h = hash(0x8e, 0x32);
    h[1] = 0x32;
    h[2] = 0x3a;
    h[29] = 0xe9;
    h[30] = 0x01;
    DebugSession {
        tx_hash: h,
        success,
        gas_used: gas,
        revert_reason: reason.map(|s| s.to_string()),
        call_stack: frames,
        traces: None,
    }
}

#[test]
fn address_is_shortened() {
    let mut a = [0u8; 20];
    a[0] = 0xda;
    a[1] = 0x8f;
    a[18] = 0x3b;
    a[19] = 0x21;
    assert_eq!(format_address(a), "0xda8f...3b21");
    assert_eq!(format_address([0u8; 20]), "0x0000...0000");
}

#[test]
fn successful_transfer_trace() {
    let mut f = frame(Some("TestToken"), Some("transfer"), FrameKind::Call, true);
    f.function_args = vec![
        ("arg0".to_string(), "0x000...dEaD".to_string()),
        ("arg1".to_string(), "1000000000000000000000".to_string()),
    ];
    let s = session(true, 51_900, vec![f], None);
    assert_eq!(
        format_trace_plain(&s, 0),
        "Transaction 0x8e323a...e90132 SUCCESS (gas: 51.9K)\n\nCall Stack:\n  TestToken.transfer(arg0=0x000...dEaD, arg1=1000000000000000000000)\n"
    );
}

#[test]
fn reverting_mint_trace() {
    let mut f = frame(Some("TestToken"), Some("mint"), FrameKind::Call, false);
    f.function_args = vec![("arg0".to_string(), "0xdEadDEAD".to_string()), ("arg1".to_string(), "9".to_string())];
    f.revert_reason = Some("MaxSupplyExceeded(9, 5)".to_string());
    let s = session(false, 29_834, vec![f], Some("MaxSupplyExceeded(9, 5)"));
    assert_eq!(
        format_trace_plain(&s, 0),
        "Transaction 0x8e323a...e90132 REVERTED (gas: 29.8K)\n\nCall Stack:\n  TestToken.mint(arg0=0xdEadDEAD, arg1=9) <- REVERT\n      REVERT: MaxSupplyExceeded(9, 5)\n\nRevert Reason: MaxSupplyExceeded(9, 5)\n"
    );
}

#[test]
fn nested_calls_mark_only_the_failing_leaf() {
    let mut leaf = frame(None, None, FrameKind::DelegateCall, false);
    leaf.address[0] = 0xbc;
    leaf.address[1] = 0xe1;
    leaf.address[18] = 0x42;
    leaf.address[19] = 0x62;
    leaf.revert_reason = Some("call to non-contract address".to_string());
    let ok_call = frame(Some("ERC20"), Some("balanceOf"), FrameKind::StaticCall, true);
    let create = frame(Some("Factory"), Some("deploy"), FrameKind::Create2, true);
    let mut root = frame(Some("ERC1967Proxy"), Some("fallback"), FrameKind::Call, false);
    root.revert_reason = Some("outer".to_string());
    root.function_args = vec![(String::new(), "7".to_string())];
    root.source_location = Some(SourceLoc {
        file: "src/Proxy.sol".to_string(),
        line: 12,
        column: 5,
        source_snippet: None,
    });
    root.children = vec![ok_call, create, leaf];
    let s = session(false, 421_000, vec![root], None);
    assert_eq!(
        format_trace_plain(&s, 0),
        "Transaction 0x8e323a...e90132 REVERTED (gas: 421.0K)\n\nCall Stack:\n  ERC1967Proxy.fallback(7)\n      at src/Proxy.sol:12:5\n  +-- [staticcall] ERC20.balanceOf()\n  +-- [create] Factory.deploy()\n  +-- [delegatecall] 0xbce1...4262.???() <- REVERT\n        REVERT: call to non-contract address\n"
    );
}

#[test]
fn empty_call_stack() {
    let s = session(true, 21_000, Vec::new(), None);
    assert_eq!(
        format_trace_plain(&s, 0),
        "Transaction 0x8e323a...e90132 SUCCESS (gas: 21.0K)\n\n  (no call trace available)\n"
    );
}

#[test]
fn colour_wraps_pieces_in_escape_sequences() {
    let s = session(true, 500, vec![frame(Some("A"), Some("f"), FrameKind::Call, true)], None);
    let coloured = render_trace(&s, &ansi(), 0);
    assert_eq!(
        coloured,
        "Transaction \u{1b}[1m0x8e323a...e90132\u{1b}[0m \u{1b}[1;32mSUCCESS\u{1b}[0m (gas: 500)\n\n\u{1b}[1mCall Stack:\u{1b}[0m\n  \u{1b}[36mA\u{1b}[0m.\u{1b}[33mf\u{1b}[0m()\n"
    );
    assert_eq!(render_trace(&s, &plain(), 0), format_trace_plain(&s, 0));
}

#[test]
fn trace_follows_global_painting_switch() {
    let s = session(true, 500, vec![frame(Some("A"), Some("f"), FrameKind::Call, true)], None);
    yansi::disable();
    assert_eq!(format_trace(&s, 0), format_trace_plain(&s, 0));
    yansi::enable();
    assert_eq!(format_trace(&s, 0), render_trace(&s, &ansi(), 0));
}

fn verbose_session() -> DebugSession {
    let mut leaf = frame(Some("Token"), Some("transfer"), FrameKind::Call, false);
    leaf.address[0] = 0xda;
    leaf.address[1] = 0x8f;
    leaf.address[19] = 0x21;
    leaf.gas_used = 29_834;
    leaf.selector = Some("0xa9059cbb".to_string());
    let mut root = frame(Some("Router"), None, FrameKind::Call, false);
    root.gas_used = 1_500_000;
    root.children = vec![leaf];
    session(false, 1_500_000, vec![root], None)
}

#[test]
fn verbosity_one_adds_short_address_and_gas() {
    assert_eq!(
        format_trace_plain(&verbose_session(), 1),
        "Transaction 0x8e323a...e90132 REVERTED (gas: 1.50M)\n\nCall Stack:\n  Router.???() [0x0000...0000 | gas: 1.50M]\n  +-- Token.transfer() [0xda8f...0021 | gas: 29.8K] <- REVERT\n"
    );
}

#[test]
fn verbosity_two_adds_full_address_and_selector() {
    assert_eq!(
        format_trace_plain(&verbose_session(), 2),
        "Transaction 0x8e323a...e90132 REVERTED (gas: 1.50M)\n\nCall Stack:\n  Router.???() [0x0000000000000000000000000000000000000000 | gas: 1.50M]\n  +-- Token.transfer() [0xda8f000000000000000000000000000000000021 | gas: 29.8K | selector: 0xa9059cbb] <- REVERT\n"
    );
    assert_eq!(format_trace_plain(&verbose_session(), 7), format_trace_plain(&verbose_session(), 2));
}

#[test]
fn verbosity_zero_adds_nothing() {
    assert_eq!(
        format_trace_plain(&verbose_session(), 0),
        "Transaction 0x8e323a...e90132 REVERTED (gas: 1.50M)\n\nCall Stack:\n  Router.???()\n  +-- Token.transfer() <- REVERT\n"
    );
}

fn strip_escapes(s: &str) -> String {
    let mut out = String::new();
    let mut in_seq = false;
    for c in s.chars() {
        if in_seq {
            in_seq = c != 'm';
        } else if c == '\u{1b}' {
            in_seq = true;
        } else {
            out.push(c);
        }
    }
    out
}

#[test]
fn coloured_trace_without_escapes_is_the_plain_trace() {
    let mut s = verbose_session();
    s.revert_reason = Some("Boom()".to_string());
    s.call_stack[0].children[0].revert_reason = Some("Boom()".to_string());
    for v in 0..3u8 {
        let coloured = render_trace(&s, &ansi(), v);
        assert!(coloured.contains('\u{1b}'));
        assert_eq!(strip_escapes(&coloured), format_trace_plain(&s, v));
    }
}

#[test]
fn painting_flag_chooses_the_palette() {
    let s = verbose_session();
    assert_eq!(format_trace_with(&s, false, 1), format_trace_plain(&s, 1));
    assert_eq!(format_trace_with(&s, true, 1), render_trace(&s, &ansi(), 1));
    assert_ne!(format_trace_with(&s, true, 1), format_trace_with(&s, false, 1));
}

#[test]
fn frame_writer_appends_own_lines_then_children() {
    let mut child = frame(Some("B"), Some("g"), FrameKind::StaticCall, true);
    child.function_args = vec![(String::new(), "1".to_string())];
    let mut root = frame(Some("A"), Some("f"), FrameKind::Call, true);
    root.children = vec![child];
    let mut out = "x\n".to_string();
    write_frame(&mut out, &root, 1, true, &plain(), 0);
    assert_eq!(out, "x\n  A.f()\n  +-- [staticcall] B.g(1)\n");
}
