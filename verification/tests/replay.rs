use soldebug::replay::{aborts_replay, code_addresses, progress_due, target_position, PrecedingOutcome};
use soldebug::source::artifact_identity;
use soldebug::types::{CallKind, CallTrace, CallTraceNode, FrameKind};

fn node(address: u8, caller: u8) -> CallTraceNode {
    let mut a = [0u8; 20];
    a[0] = address;
    let mut c = [0u8; 20];
    c[0] = caller;
    CallTraceNode {
        trace: CallTrace {
            address: a,
            caller: c,
            kind: CallKind::Call,
            success: true,
            gas_used: 0,
            data: Vec::new(),
            output: Vec::new(),
            decoded: None,
        },
        children: Vec::new(),
    }
}

#[test]
fn target_position_counts_preceding_transactions() {
    let txs = vec![[1u8; 32], [2u8; 32], [3u8; 32]];
    assert_eq!(target_position(&txs, &[3u8; 32]), 2);
    assert_eq!(target_position(&txs, &[1u8; 32]), 0);
    assert_eq!(target_position(&txs, &[9u8; 32]), 3);
}

#[test]
fn progress_every_tenth_when_many() {
    assert!(progress_due(9, 11));
    assert!(!progress_due(9, 10));
    assert!(!progress_due(10, 40));
    assert!(progress_due(19, 40));
}

#[test]
fn code_is_collected_once_per_nonzero_address() {
    let nodes = vec![node(1, 0), node(2, 1), node(1, 2), node(3, 3)];
    let addrs: Vec<u8> = code_addresses(&nodes).iter().map(|a| a[0]).collect();
    assert_eq!(addrs, vec![1, 2, 3]);
}

#[test]
fn artifacts_are_named_after_file_and_directory() {
    let (c, s) = artifact_identity("out/Token.sol/Token.json");
    assert_eq!((c.as_str(), s.as_str()), ("Token", "Token.sol"));
    let (c, s) = artifact_identity("Token.json");
    assert_eq!((c.as_str(), s.as_str()), ("Token", "Unknown.sol"));
    let (c, s) = artifact_identity("/");
    assert_eq!((c.as_str(), s.as_str()), ("Unknown", "Unknown.sol"));
}

#[test]
fn call_kinds_map_to_frame_kinds() {
    assert_eq!(FrameKind::from(CallKind::Call), FrameKind::Call);
    assert_eq!(FrameKind::from(CallKind::StaticCall), FrameKind::StaticCall);
    assert_eq!(FrameKind::from(CallKind::DelegateCall), FrameKind::DelegateCall);
    assert_eq!(FrameKind::from(CallKind::Create), FrameKind::Create);
    assert_eq!(FrameKind::from(CallKind::Create2), FrameKind::Create2);
    assert_eq!(FrameKind::from(CallKind::CallCode), FrameKind::Call);
    assert_eq!(FrameKind::from(CallKind::AuthCall), FrameKind::Call);
}

#[test]
fn quick_hint_only_above_fifty() {
    assert!(!soldebug::replay::quick_hint_due(50));
    assert!(soldebug::replay::quick_hint_due(51));
    assert!(!soldebug::replay::quick_hint_due(0));
}

#[test]
fn only_failed_creations_abort_the_replay() {
    assert!(aborts_replay(true, PrecedingOutcome::Failed));
    assert!(!aborts_replay(true, PrecedingOutcome::Reverted));
    assert!(!aborts_replay(true, PrecedingOutcome::Completed));
    assert!(!aborts_replay(false, PrecedingOutcome::Failed));
}
