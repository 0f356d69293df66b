use soldebug::decode::{build_session, build_stack_frames, extract_revert_reason, function_name_of, node_to_frame, traces_in_order};
use soldebug::identify::{address_tally, function_selector, identify_by_abi_selectors, KnownContract};
use soldebug::types::{CallKind, CallTrace, CallTraceNode, DecodedCallData, DecodedCallTrace, FrameKind, StackFrame};

fn addr(b: u8) -> [u8; 20] {
    let mut a = [0u8; 20];
    a[19] = b;
    a
}

fn call(address: [u8; 20], data: Vec<u8>, success: bool, children: Vec<usize>) -> CallTraceNode {
    CallTraceNode {
        trace: CallTrace {
            address,
            caller: addr(0xca),
            kind: CallKind::Call,
            success,
            gas_used: 100,
            data,
            output: Vec::new(),
            decoded: None,
        },
        children,
    }
}

fn decoded(label: &str, signature: &str, args: &[&str], ret: Option<&str>) -> Option<DecodedCallTrace> {
    Some(DecodedCallTrace {
        label: Some(label.to_string()),
        call_data: Some(DecodedCallData {
            signature: signature.to_string(),
            args: args.iter().map(|s| s.to_string()).collect(),
        }),
        return_data: ret.map(|s| s.to_string()),
    })
}

fn selector_bytes(sig: &str) -> Vec<u8> {
    function_selector(sig).to_be_bytes().to_vec()
}

#[test]
fn selector_of_transfer() {
    assert_eq!(function_selector("transfer(address,uint256)"), 0xa9059cbb);
    assert_eq!(function_selector("balanceOf(address)"), 0x70a08231);
}

#[test]
fn function_name_is_cut_at_the_parenthesis() {
    assert_eq!(function_name_of("transfer(address,uint256)"), "transfer");
    assert_eq!(function_name_of("fallback"), "fallback");
    assert_eq!(function_name_of("()"), "");
}

#[test]
fn frames_mirror_the_arena() {
    let mut root = call(addr(1), vec![0xa9, 0x05, 0x9c, 0xbb, 0x01], true, vec![1, 7, 2]);
    root.trace.decoded = decoded("Token", "transfer(address,uint256)", &["0xdead", "5"], Some("true"));
    let mut child = call(addr(2), vec![0x01, 0x02], false, vec![]);
    child.trace.kind = CallKind::DelegateCall;
    child.trace.output = vec![0x08, 0xc3];
    let mut grandchild_sibling = call(addr(3), vec![], false, vec![]);
    grandchild_sibling.trace.kind = CallKind::CallCode;
    grandchild_sibling.trace.decoded = Some(DecodedCallTrace { label: None, call_data: None, return_data: Some("Boom()".to_string()) });
    let traces = vec![vec![root, child, grandchild_sibling], Vec::new()];
    let frames = build_stack_frames(&traces);
    assert_eq!(frames.len(), 1);
    let f = &frames[0];
    assert_eq!(f.contract_name.as_deref(), Some("Token"));
    assert_eq!(f.function_name.as_deref(), Some("transfer"));
    assert_eq!(f.selector.as_deref(), Some("0xa9059cbb"));
    assert_eq!(
        f.function_args,
        vec![("arg0".to_string(), "0xdead".to_string()), ("arg1".to_string(), "5".to_string())]
    );
    assert_eq!(f.return_value.as_deref(), Some("true"));
    assert_eq!(f.revert_reason, None);
    assert_eq!(f.depth, 0);
    assert_eq!(f.kind, FrameKind::Call);
    assert_eq!(f.children.len(), 2);
    let c = &f.children[0];
    assert_eq!(c.depth, 1);
    assert_eq!(c.kind, FrameKind::DelegateCall);
    assert_eq!(c.selector, None);
    assert_eq!(c.revert_reason.as_deref(), Some("0x08c3"));
    assert_eq!(c.contract_name, None);
    let d = &f.children[1];
    assert_eq!(d.kind, FrameKind::Call);
    assert_eq!(d.revert_reason.as_deref(), Some("Boom()"));
    assert_eq!(d.return_value, None);
}

fn leaf(success: bool, reason: Option<&str>, children: Vec<StackFrame>) -> StackFrame {
    StackFrame {
        address: [0u8; 20],
        contract_name: None,
        function_name: None,
        selector: None,
        function_args: Vec::new(),
        return_value: None,
        source_location: None,
        depth: 0,
        kind: FrameKind::Call,
        success,
        revert_reason: reason.map(|s| s.to_string()),
        gas_used: 0,
        children,
    }
}

#[test]
fn revert_reason_comes_from_the_deepest_failure() {
    let inner = leaf(false, Some("inner"), vec![]);
    let middle = leaf(false, Some("middle"), vec![leaf(true, None, vec![]), inner]);
    let frames = vec![leaf(true, None, vec![leaf(false, Some("hidden"), vec![])]), leaf(false, Some("outer"), vec![middle])];
    assert_eq!(extract_revert_reason(&frames).as_deref(), Some("inner"));
    let no_inner = vec![leaf(false, Some("outer"), vec![leaf(false, None, vec![])])];
    assert_eq!(extract_revert_reason(&no_inner).as_deref(), Some("outer"));
    assert_eq!(extract_revert_reason(&vec![leaf(true, Some("x"), vec![])]), None);
    assert_eq!(extract_revert_reason(&Vec::new()), None);
}

#[test]
fn session_takes_the_revert_reason_only_when_failed() {
    let mut root = call(addr(1), vec![], false, vec![]);
    root.trace.output = vec![0xff];
    let s = build_session([7u8; 32], false, 29_834, vec![vec![root]]);
    assert_eq!(s.revert_reason.as_deref(), Some("0xff"));
    assert_eq!(s.gas_used, 29_834);
    assert!(!s.success);
    assert_eq!(s.call_stack.len(), 1);
    let ok = build_session([7u8; 32], true, 5, vec![vec![call(addr(1), vec![], true, vec![])]]);
    assert_eq!(ok.revert_reason, None);
    assert!(ok.traces.is_some());
}

fn known(name: &str, sigs: &[&str]) -> KnownContract {
    KnownContract { name: name.to_string(), function_signatures: sigs.iter().map(|s| s.to_string()).collect() }
}

#[test]
fn proxy_is_identified_by_its_selectors() {
    let proxy = addr(0x10);
    let other = addr(0x20);
    let arena = vec![
        call(proxy, selector_bytes("mint(address,uint256)"), true, vec![1, 2, 3, 4]),
        call(proxy, selector_bytes("burn(uint256)"), true, vec![]),
        call(other, selector_bytes("mint(address,uint256)"), true, vec![]),
        call([0u8; 20], selector_bytes("mint(address,uint256)"), true, vec![]),
        call(addr(0x30), vec![0x01, 0x02, 0x03], true, vec![]),
    ];
    let contracts = vec![
        known("Minter", &["mint(address,uint256)"]),
        known("Token", &["mint(address,uint256)", "burn(uint256)"]),
        known("Unrelated", &["transfer(address,uint256)"]),
    ];
    let found = identify_by_abi_selectors(&vec![other], &vec![arena], &contracts);
    // The proxy: both candidates have `mint`, only `Token` also has `burn`.
    assert_eq!(found, vec![(proxy, 1)]);
}

#[test]
fn single_candidate_and_ties() {
    let a = addr(0x10);
    let b = addr(0x11);
    let arena = vec![
        call(a, selector_bytes("ping()"), true, vec![]),
        call(b, selector_bytes("pong()"), true, vec![]),
        call(b, selector_bytes("pong()"), true, vec![]),
    ];
    let contracts = vec![known("First", &["pong()"]), known("Pinger", &["ping()"]), known("Second", &["pong()"])];
    let found = identify_by_abi_selectors(&Vec::new(), &vec![arena], &contracts);
    assert_eq!(found, vec![(a, 1), (b, 0)]);
}

#[test]
fn arenas_in_call_order_are_accepted() {
    let arena = vec![call(addr(1), vec![], true, vec![1, 9]), call(addr(2), vec![], true, vec![])];
    assert!(traces_in_order(&vec![arena, Vec::new()]));
    assert!(traces_in_order(&Vec::new()));
}

#[test]
fn arena_with_a_backward_child_is_refused() {
    let ordered = vec![call(addr(1), vec![], true, vec![1])];
    let backward = vec![call(addr(1), vec![], true, vec![1]), call(addr(2), vec![], true, vec![0])];
    assert!(!traces_in_order(&vec![ordered, backward]));
    let self_loop = vec![call(addr(1), vec![], true, vec![0])];
    assert!(!traces_in_order(&vec![self_loop]));
}

#[test]
fn selector_is_the_big_endian_head_of_the_digest() {
    let mut digest = [0u8; 32];
    digest[0] = 0xa9;
    digest[1] = 0x05;
    digest[2] = 0x9c;
    digest[3] = 0xbb;
    digest[4] = 0xff;
    assert_eq!(soldebug::identify::selector_from_digest(&digest), 0xa9059cbb);
}

#[test]
fn address_tally_counts_distinct_called_addresses() {
    let arena = vec![
        call(addr(1), vec![], true, vec![1, 2, 3]),
        call(addr(2), vec![], true, vec![]),
        call(addr(1), vec![], true, vec![]),
        call([0u8; 20], vec![], true, vec![]),
    ];
    let other = vec![call(addr(3), vec![], true, vec![])];
    assert_eq!(address_tally(&vec![addr(2)], &vec![arena, other]), (3, 2));
    assert_eq!(address_tally(&Vec::new(), &Vec::new()), (0, 0));
}

#[test]
fn node_frame_keeps_depth_and_in_arena_children() {
    let arena = vec![
        call(addr(1), vec![], true, vec![2, 9]),
        call(addr(2), vec![], true, vec![]),
        call(addr(3), vec![], false, vec![]),
    ];
    let f = node_to_frame(&arena, 0, 4);
    assert_eq!(f.depth, 4);
    assert_eq!(f.children.len(), 1);
    assert_eq!(f.children[0].address, addr(3));
    assert_eq!(f.children[0].depth, 5);
    assert!(!f.children[0].success);
}
