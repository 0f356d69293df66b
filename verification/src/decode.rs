//! Trace decoding: from the decoded call trace arenas to the tree of stack
//! frames, the session's revert reason, and the identification of contracts
//! by the function selectors in their call data.

use vstd::prelude::*;
use crate::text::{decimal, hex_encode, hex_lower, push_char, push_decimal};
use crate::types::{
    frame_height, forest_height, frame_kind_of, lemma_child_lower, lemma_forest_height_bounds,
    CallTrace, CallTraceNode, DebugSession, FrameKind, StackFrame,
};

verus! {

/// The text of an optional string.
pub open spec fn opt_text(o: Option<String>) -> Option<Seq<char>> {
    match o {
        Some(s) => Some(s@),
        None => None,
    }
}

/// The function name part of a signature: the characters before the first
/// `(` (all of them when there is none), e.g. `transfer` for
/// `transfer(address,uint256)`.
pub open spec fn name_part(sig: Seq<char>) -> Seq<char>
    decreases sig.len(),
{
    if sig.len() == 0 || sig[0] == '(' {
        Seq::empty()
    } else {
        seq![sig[0]] + name_part(sig.drop_first())
    }
}

/// Parse the function name from a signature (`transfer(address,uint256)` ->
/// `transfer`).
pub fn function_name_of(signature: &str) -> (r: String)
    ensures
        r@ == name_part(signature@),
{
    let n = signature.unicode_len();
    let mut i: usize = 0;
    assert(signature@.skip(0) =~= signature@);
    assert(signature@.take(0) =~= Seq::<char>::empty());
    while i < n && signature.get_char(i) != '('
        invariant
            i <= n,
            n == signature@.len(),
            name_part(signature@) == signature@.take(i as int) + name_part(signature@.skip(i as int)),
        decreases n - i,
    {
        proof {
            let rest = signature@.skip(i as int);
            assert(rest.drop_first() =~= signature@.skip(i + 1));
            assert(signature@.take(i + 1) =~= signature@.take(i as int) + seq![rest[0]]);
        }
        i = i + 1;
    }
    assert(name_part(signature@.skip(i as int)) =~= Seq::<char>::empty());
    assert(signature@.subrange(0, i as int) =~= signature@.take(i as int));
    signature.substring_char(0, i).to_owned()
}

fn clone_text(o: &Option<String>) -> (r: Option<String>)
    ensures
        opt_text(r) == opt_text(*o),
{
    match o {
        Some(s) => Some(s.clone()),
        None => None,
    }
}

/// `out` names the arguments `arg0`, `arg1`, ... in order and keeps their
/// values.
pub open spec fn args_numbered(out: Seq<(String, String)>, args: Seq<String>) -> bool {
    &&& out.len() == args.len()
    &&& forall|i: int|
        0 <= i < out.len() ==> (#[trigger] out[i]).0@ == "arg"@ + decimal(i as nat) && out[i].1@
            == args[i]@
}

fn numbered_args(args: &Vec<String>) -> (r: Vec<(String, String)>)
    ensures
        args_numbered(r@, args@),
{
    let mut r: Vec<(String, String)> = Vec::new();
    let mut i: usize = 0;
    while i < args.len()
        invariant
            i <= args@.len(),
            args_numbered(r@, args@.take(i as int)),
        decreases args.len() - i,
    {
        let mut name = String::new();
        name.append("arg");
        push_decimal(&mut name, i as u128);
        r.push((name, args[i].clone()));
        i = i + 1;
    }
    assert(args@.take(args@.len() as int) =~= args@);
    r
}

/// The decoded contract label of a call.
pub open spec fn decoded_label(t: CallTrace) -> Option<Seq<char>> {
    match t.decoded {
        Some(d) => opt_text(d.label),
        None => None,
    }
}

/// The decoded function name of a call.
pub open spec fn decoded_function_name(t: CallTrace) -> Option<Seq<char>> {
    match t.decoded {
        Some(d) => match d.call_data {
            Some(cd) => Some(name_part(cd.signature@)),
            None => None,
        },
        None => None,
    }
}

/// The decoded argument values of a call (none when the call data was not
/// decoded).
pub open spec fn decoded_args(t: CallTrace) -> Seq<String> {
    match t.decoded {
        Some(d) => match d.call_data {
            Some(cd) => cd.args@,
            None => Seq::empty(),
        },
        None => Seq::empty(),
    }
}

/// The decoded return value of a successful call.
pub open spec fn return_text(t: CallTrace) -> Option<Seq<char>> {
    if t.success {
        match t.decoded {
            Some(d) => opt_text(d.return_data),
            None => None,
        }
    } else {
        None
    }
}

/// The revert reason of a failed call: its decoded return data when it was
/// decoded, else its raw output as `0x`-prefixed hexadecimal when there is
/// any.
pub open spec fn revert_text(t: CallTrace) -> Option<Seq<char>> {
    if t.success {
        None
    } else {
        match t.decoded {
            Some(d) => opt_text(d.return_data),
            None => if t.output@.len() > 0 {
                Some(seq!['0', 'x'] + hex_lower(t.output@))
            } else {
                None
            },
        }
    }
}

/// The 4-byte function selector of the call data as `0x`-prefixed
/// hexadecimal, when the call data has at least four bytes.
pub open spec fn selector_text(t: CallTrace) -> Option<Seq<char>> {
    if t.data@.len() >= 4 {
        Some(seq!['0', 'x'] + hex_lower(t.data@.subrange(0, 4)))
    } else {
        None
    }
}

/// The frame's own fields are those of the traced call at call depth `depth`.
pub open spec fn frame_fields(f: StackFrame, t: CallTrace, depth: int) -> bool {
    &&& f.address == t.address
    &&& opt_text(f.contract_name) == decoded_label(t)
    &&& opt_text(f.function_name) == decoded_function_name(t)
    &&& opt_text(f.selector) == selector_text(t)
    &&& args_numbered(f.function_args@, decoded_args(t))
    &&& opt_text(f.return_value) == return_text(t)
    &&& f.source_location.is_none()
    &&& f.depth == depth
    &&& f.kind == frame_kind_of(t.kind)
    &&& f.success == t.success
    &&& opt_text(f.revert_reason) == revert_text(t)
    &&& f.gas_used == t.gas_used
}

/// Whether `c` is the index of a node of the arena.
pub open spec fn in_arena(nodes: Seq<CallTraceNode>, c: usize) -> bool {
    c < nodes.len()
}

/// Membership in the arena, as a predicate on indices.
pub open spec fn arena_pred(nodes: Seq<CallTraceNode>) -> spec_fn(usize) -> bool {
    |c: usize| in_arena(nodes, c)
}

/// The children of node `idx` that lie in the arena, in order.
pub open spec fn arena_children(nodes: Seq<CallTraceNode>, idx: int) -> Seq<usize> {
    nodes[idx].children@.filter(arena_pred(nodes))
}

/// In a trace arena a call is recorded before the calls it makes: every child
/// index that lies in the arena is greater than its parent's.
pub open spec fn arena_ordered(nodes: Seq<CallTraceNode>) -> bool {
    forall|i: int, j: int|
        0 <= i < nodes.len() && 0 <= j < nodes[i].children@.len() && #[trigger] nodes[i].children@[j]
            < nodes.len() ==> nodes[i].children@[j] > i
}

/// `f` is the frame of node `idx` at depth `depth`, with one child frame for
/// each of the node's children that lies in the arena, in order, one level
/// deeper.
pub open spec fn frame_of(f: StackFrame, nodes: Seq<CallTraceNode>, idx: int, depth: int) -> bool
    decreases nodes.len() - idx,
{
    &&& 0 <= idx < nodes.len()
    &&& frame_fields(f, nodes[idx].trace, depth)
    &&& f.children@.len() == arena_children(nodes, idx).len()
    &&& forall|k: int|
        0 <= k < arena_children(nodes, idx).len() ==> idx < #[trigger] arena_children(nodes, idx)[k]
            < nodes.len()
    &&& forall|k: int|
        #![trigger f.children@[k]]
        0 <= k < f.children@.len() ==> (idx < arena_children(nodes, idx)[k] < nodes.len() ==> frame_of(
            f.children@[k],
            nodes,
            arena_children(nodes, idx)[k] as int,
            depth + 1,
        ))
}

fn prefixed_hex(bytes: &[u8]) -> (r: String)
    ensures
        r@ == seq!['0', 'x'] + hex_lower(bytes@),
{
    let mut s = String::new();
    push_char(&mut s, '0');
    push_char(&mut s, 'x');
    let h = hex_encode(bytes);
    s.append(h.as_str());
    s
}

fn selector_of_call(t: &CallTrace) -> (r: Option<String>)
    ensures
        opt_text(r) == selector_text(*t),
{
    if t.data.len() >= 4 {
        let sel = vec![t.data[0], t.data[1], t.data[2], t.data[3]];
        assert(sel@ =~= t.data@.subrange(0, 4));
        Some(prefixed_hex(sel.as_slice()))
    } else {
        None
    }
}

fn revert_of_call(t: &CallTrace) -> (r: Option<String>)
    ensures
        opt_text(r) == revert_text(*t),
{
    if t.success {
        None
    } else {
        match &t.decoded {
            Some(decoded) => clone_text(&decoded.return_data),
            None => if t.output.len() > 0 {
                Some(prefixed_hex(t.output.as_slice()))
            } else {
                None
            },
        }
    }
}

proof fn lemma_arena_children_step(nodes: Seq<CallTraceNode>, idx: int, j: int)
    requires
        0 <= idx < nodes.len(),
        0 <= j < nodes[idx].children@.len(),
    ensures
        nodes[idx].children@.take(j + 1).filter(arena_pred(nodes)) == if in_arena(
            nodes,
            nodes[idx].children@[j],
        ) {
            nodes[idx].children@.take(j).filter(arena_pred(nodes)).push(nodes[idx].children@[j])
        } else {
            nodes[idx].children@.take(j).filter(arena_pred(nodes))
        },
{
    let t = nodes[idx].children@.take(j + 1);
    assert(t.drop_last() =~= nodes[idx].children@.take(j));
    reveal(Seq::filter);
}

/// Convert node `idx` of an arena into a `StackFrame`, recursively
/// processing the children that lie in the arena.
pub fn node_to_frame(nodes: &Vec<CallTraceNode>, idx: usize, depth: usize) -> (f: StackFrame)
    requires
        idx < nodes@.len(),
        arena_ordered(nodes@),
        depth + (nodes@.len() - idx) <= usize::MAX,
    ensures
        frame_of(f, nodes@, idx as int, depth as int),
    decreases nodes@.len() - idx,
{
    let node = &nodes[idx];
    let trace = &node.trace;
    let (contract_name, function_name, function_args, return_value) = match &trace.decoded {
        Some(decoded) => {
            let label = clone_text(&decoded.label);
            let (fname, fargs) = match &decoded.call_data {
                Some(call_data) => (
                    Some(function_name_of(call_data.signature.as_str())),
                    numbered_args(&call_data.args),
                ),
                None => (None, Vec::new()),
            };
            let ret = if trace.success {
                clone_text(&decoded.return_data)
            } else {
                None
            };
            (label, fname, fargs, ret)
        },
        None => (None, None, Vec::new(), None),
    };

    // Build children recursively using the children indices.
    let ghost pred = arena_pred(nodes@);
    let mut children: Vec<StackFrame> = Vec::new();
    let mut j: usize = 0;
    let ghost mut done: Seq<usize> = Seq::empty();
    assert(node.children@.take(0) =~= Seq::<usize>::empty());
    assert(Seq::<usize>::empty().filter(pred) =~= Seq::<usize>::empty()) by {
        reveal(Seq::filter);
    }
    while j < node.children.len()
        invariant
            idx < nodes@.len(),
            node == nodes@[idx as int],
            pred == arena_pred(nodes@),
            arena_ordered(nodes@),
            depth + (nodes@.len() - idx) <= usize::MAX,
            j <= node.children@.len(),
            done == node.children@.take(j as int).filter(pred),
            children@.len() == done.len(),
            forall|k: int| 0 <= k < done.len() ==> idx < #[trigger] done[k] < nodes@.len(),
            forall|k: int|
                #![trigger children@[k]]
                0 <= k < children@.len() ==> frame_of(children@[k], nodes@, done[k] as int, depth + 1),
        decreases node.children.len() - j,
    {
        let c = node.children[j];
        proof {
            lemma_arena_children_step(nodes@, idx as int, j as int);
        }
        let ghost old_children = children@;
        let ghost prev = done;
        let ghost next = node.children@.take(j + 1).filter(pred);
        if c < nodes.len() {
            assert(c > idx);
            let child = node_to_frame(nodes, c, depth + 1);
            children.push(child);
            assert(next == prev.push(c));
            assert(children@ == old_children.push(child));
            assert forall|k: int| 0 <= k < children@.len() implies frame_of(
                #[trigger] children@[k], nodes@, next[k] as int, depth + 1) by {
                if k < old_children.len() {
                    assert(children@[k] == old_children[k]);
                    assert(next[k] == prev[k]);
                }
            }
            assert forall|k: int| 0 <= k < next.len() implies idx < #[trigger] next[k] < nodes@.len() by {
                if k < prev.len() {
                    assert(next[k] == prev[k]);
                }
            }
        } else {
            assert(next == prev);
        }
        j = j + 1;
        proof {
            done = next;
        }
    }
    assert(node.children@.take(node.children@.len() as int) =~= node.children@);
    let f = StackFrame {
        address: trace.address,
        contract_name,
        function_name,
        selector: selector_of_call(trace),
        function_args,
        return_value,
        source_location: None,
        depth,
        kind: FrameKind::from(trace.kind),
        success: trace.success,
        revert_reason: revert_of_call(trace),
        gas_used: trace.gas_used,
        children,
    };
    assert(f.children@.len() == arena_children(nodes@, idx as int).len());
    assert(frame_fields(f, nodes@[idx as int].trace, depth as int));
    f
}

/// An arena with at least one node.
pub open spec fn has_root() -> spec_fn(Vec<CallTraceNode>) -> bool {
    |a: Vec<CallTraceNode>| a@.len() > 0
}

/// The arenas that have a root call, in order.
pub open spec fn rooted_arenas(traces: Seq<Vec<CallTraceNode>>) -> Seq<Vec<CallTraceNode>> {
    traces.filter(has_root())
}

/// Every arena of the traces is ordered.
pub open spec fn traces_ordered(traces: Seq<Vec<CallTraceNode>>) -> bool {
    forall|a: int| 0 <= a < traces.len() ==> arena_ordered(#[trigger] traces[a]@)
}

/// `frames` has one frame per arena with a root call, in order: the frame of
/// that root at depth 0.
pub open spec fn stack_of(frames: Seq<StackFrame>, traces: Seq<Vec<CallTraceNode>>) -> bool {
    &&& frames.len() == rooted_arenas(traces).len()
    &&& forall|k: int|
        #![trigger frames[k]]
        0 <= k < frames.len() ==> frame_of(frames[k], rooted_arenas(traces)[k]@, 0, 0)
}

fn arena_in_order(nodes: &Vec<CallTraceNode>) -> (r: bool)
    ensures
        r == arena_ordered(nodes@),
{
    let mut i: usize = 0;
    while i < nodes.len()
        invariant
            i <= nodes@.len(),
            forall|p: int, k: int|
                0 <= p < i && 0 <= k < nodes@[p].children@.len() && #[trigger] nodes@[p].children@[k]
                    < nodes@.len() ==> nodes@[p].children@[k] > p,
        decreases nodes.len() - i,
    {
        let cs = &nodes[i].children;
        let mut j: usize = 0;
        while j < cs.len()
            invariant
                i < nodes@.len(),
                *cs == nodes@[i as int].children,
                j <= cs@.len(),
                forall|p: int, k: int|
                    0 <= p < i && 0 <= k < nodes@[p].children@.len() && #[trigger] nodes@[p].children@[k]
                        < nodes@.len() ==> nodes@[p].children@[k] > p,
                forall|k: int| 0 <= k < j && #[trigger] cs@[k] < nodes@.len() ==> cs@[k] > i,
            decreases cs.len() - j,
        {
            let c = cs[j];
            if c < nodes.len() && c <= i {
                assert(nodes@[i as int].children@[j as int] == c);
                return false;
            }
            j = j + 1;
        }
        i = i + 1;
    }
    true
}

/// Whether every arena of the traces is ordered: the condition on which
/// `build_stack_frames` and `build_session` are defined.
pub fn traces_in_order(traces: &Vec<Vec<CallTraceNode>>) -> (r: bool)
    ensures
        r == traces_ordered(traces@),
{
    let mut a: usize = 0;
    while a < traces.len()
        invariant
            a <= traces@.len(),
            forall|b: int| 0 <= b < a ==> arena_ordered(#[trigger] traces@[b]@),
        decreases traces.len() - a,
    {
        if !arena_in_order(&traces[a]) {
            return false;
        }
        a = a + 1;
    }
    true
}

/// Walk the trace arenas and build a tree of `StackFrame`s from the root
/// call of each.
pub fn build_stack_frames(traces: &Vec<Vec<CallTraceNode>>) -> (frames: Vec<StackFrame>)
    requires
        traces_ordered(traces@),
    ensures
        stack_of(frames@, traces@),
{
    let mut frames: Vec<StackFrame> = Vec::new();
    let ghost mut done: Seq<Vec<CallTraceNode>> = Seq::empty();
    let mut a: usize = 0;
    assert(traces@.take(0) =~= Seq::<Vec<CallTraceNode>>::empty());
    assert(Seq::<Vec<CallTraceNode>>::empty().filter(has_root()) =~= Seq::<Vec<CallTraceNode>>::empty()) by {
        reveal(Seq::filter);
    }
    while a < traces.len()
        invariant
            a <= traces@.len(),
            traces_ordered(traces@),
            done == traces@.take(a as int).filter(has_root()),
            frames@.len() == done.len(),
            forall|k: int|
                #![trigger frames@[k]]
                0 <= k < frames@.len() ==> frame_of(frames@[k], done[k]@, 0, 0),
        decreases traces.len() - a,
    {
        let ghost next = traces@.take(a + 1).filter(has_root());
        proof {
            assert(traces@.take(a + 1).drop_last() =~= traces@.take(a as int));
            reveal(Seq::filter);
        }
        let ghost old_frames = frames@;
        let arena = &traces[a];
        if arena.len() > 0 {
            assert(arena_ordered(traces@[a as int]@));
            let f = node_to_frame(arena, 0, 0);
            frames.push(f);
            assert(next == done.push(*arena));
            assert forall|k: int| 0 <= k < frames@.len() implies frame_of(
                #[trigger] frames@[k], next[k]@, 0, 0) by {
                if k < old_frames.len() {
                    assert(frames@[k] == old_frames[k]);
                }
            }
        } else {
            assert(next == done);
        }
        a = a + 1;
        proof {
            done = next;
        }
    }
    assert(traces@.take(traces@.len() as int) =~= traces@);
    frames
}

/// The revert reason of the deepest failing frame: going through the frames
/// in order, for the first failed one that yields a reason, the reason of
/// its children if they yield one, else its own.
pub open spec fn deepest_revert(frames: Seq<StackFrame>) -> Option<Seq<char>>
    decreases frames,
{
    if frames.len() == 0 {
        None
    } else {
        let f = frames[0];
        let rest = deepest_revert(frames.drop_first());
        if !f.success {
            match deepest_revert(f.children@) {
                Some(r) => Some(r),
                None => match f.revert_reason {
                    Some(r) => Some(r@),
                    None => rest,
                },
            }
        } else {
            rest
        }
    }
}

/// Extract the revert reason from the deepest failing frame.
pub fn extract_revert_reason(frames: &Vec<StackFrame>) -> (r: Option<String>)
    ensures
        opt_text(r) == deepest_revert(frames@),
    decreases forest_height(frames@),
{
    let mut i: usize = 0;
    assert(frames@.skip(0) =~= frames@);
    while i < frames.len()
        invariant
            i <= frames@.len(),
            deepest_revert(frames@) == deepest_revert(frames@.skip(i as int)),
        decreases frames.len() - i,
    {
        let frame = &frames[i];
        proof {
            let rest = frames@.skip(i as int);
            assert(rest[0] == frames@[i as int]);
            assert(rest.drop_first() =~= frames@.skip(i + 1));
        }
        if !frame.success {
            proof {
                lemma_forest_height_bounds(frames@, i as int);
            }
            // Try children first (deepest cause).
            match extract_revert_reason(&frame.children) {
                Some(reason) => {
                    return Some(reason);
                },
                None => {},
            }
            // Fall back to this frame's revert reason.
            match &frame.revert_reason {
                Some(reason) => {
                    return Some(reason.clone());
                },
                None => {},
            }
        }
        i = i + 1;
    }
    assert(frames@.skip(i as int) =~= Seq::<StackFrame>::empty());
    None
}

/// The decoded session of a transaction: its hash, status and gas, the
/// stack of frames built from the trace arenas, the revert reason of the
/// deepest failing frame when the transaction failed, and the arenas
/// themselves.
pub fn build_session(tx_hash: [u8; 32], success: bool, gas_used: u64, traces: Vec<Vec<CallTraceNode>>) -> (s: DebugSession)
    requires
        traces_ordered(traces@),
    ensures
        s.tx_hash == tx_hash,
        s.success == success,
        s.gas_used == gas_used,
        stack_of(s.call_stack@, traces@),
        opt_text(s.revert_reason) == if success {
            None
        } else {
            deepest_revert(s.call_stack@)
        },
        s.traces == Some(traces),
{
    let call_stack = build_stack_frames(&traces);
    let revert_reason = if !success {
        extract_revert_reason(&call_stack)
    } else {
        None
    };
    DebugSession { tx_hash, success, gas_used, revert_reason, call_stack, traces: Some(traces) }
}

/// Every frame in the tree of `f` sits at its nesting level: `f` at
/// `depth`, its children one deeper, and so on.
pub open spec fn depths_from(f: StackFrame, depth: int) -> bool
    decreases f,
{
    &&& f.depth == depth
    &&& forall|k: int|
        0 <= k < f.children@.len() ==> depths_from(#[trigger] f.children@[k], depth + 1)
}

proof fn lemma_frame_depths(f: StackFrame, nodes: Seq<CallTraceNode>, idx: int, depth: int)
    requires
        frame_of(f, nodes, idx, depth),
    ensures
        depths_from(f, depth),
    decreases nodes.len() - idx,
{
    assert forall|k: int| 0 <= k < f.children@.len() implies depths_from(#[trigger] f.children@[k], depth + 1) by {
        let c = arena_children(nodes, idx)[k];
        assert(idx < c < nodes.len());
        lemma_frame_depths(f.children@[k], nodes, c as int, depth + 1);
    }
}

/// Call depth (0 = top-level): in the stack built from trace arenas, every
/// top-level frame has depth 0 and every child frame the depth of its parent
/// plus one.
pub proof fn lemma_stack_depths(frames: Seq<StackFrame>, traces: Seq<Vec<CallTraceNode>>)
    requires
        stack_of(frames, traces),
    ensures
        forall|k: int| 0 <= k < frames.len() ==> depths_from(#[trigger] frames[k], 0),
{
    assert forall|k: int| 0 <= k < frames.len() implies depths_from(#[trigger] frames[k], 0) by {
        lemma_frame_depths(frames[k], rooted_arenas(traces)[k]@, 0, 0);
    }
}

/// In the tree of `f`, a successful call has no revert reason and a failed
/// call has no return value.
pub open spec fn outcomes_consistent(f: StackFrame) -> bool
    decreases f,
{
    &&& (f.success ==> f.revert_reason.is_none())
    &&& (!f.success ==> f.return_value.is_none())
    &&& forall|k: int| 0 <= k < f.children@.len() ==> outcomes_consistent(#[trigger] f.children@[k])
}

proof fn lemma_frame_outcomes(f: StackFrame, nodes: Seq<CallTraceNode>, idx: int, depth: int)
    requires
        frame_of(f, nodes, idx, depth),
    ensures
        outcomes_consistent(f),
    decreases nodes.len() - idx,
{
    assert forall|k: int| 0 <= k < f.children@.len() implies outcomes_consistent(#[trigger] f.children@[k]) by {
        let c = arena_children(nodes, idx)[k];
        assert(idx < c < nodes.len());
        lemma_frame_outcomes(f.children@[k], nodes, c as int, depth + 1);
    }
}

/// A frame carries a return value only when its call succeeded and a
/// revert reason only when it reverted, throughout the built stack.
pub proof fn lemma_stack_outcomes(frames: Seq<StackFrame>, traces: Seq<Vec<CallTraceNode>>)
    requires
        stack_of(frames, traces),
    ensures
        forall|k: int| 0 <= k < frames.len() ==> outcomes_consistent(#[trigger] frames[k]),
{
    assert forall|k: int| 0 <= k < frames.len() implies outcomes_consistent(#[trigger] frames[k]) by {
        lemma_frame_outcomes(frames[k], rooted_arenas(traces)[k]@, 0, 0);
    }
}

/// Whether some failed frame in the trees of `frames` has revert reason `r`.
pub open spec fn failed_with_reason(frames: Seq<StackFrame>, r: Seq<char>) -> bool
    decreases frames,
{
    if frames.len() == 0 {
        false
    } else {
        (!frames[0].success && opt_text(frames[0].revert_reason) == Some(r))
            || failed_with_reason(frames[0].children@, r) || failed_with_reason(frames.drop_first(), r)
    }
}

/// The revert reason extracted from a stack is the revert reason of one of
/// its failed frames.
pub proof fn lemma_revert_reason_sound(frames: Seq<StackFrame>)
    ensures
        deepest_revert(frames) matches Some(r) ==> failed_with_reason(frames, r),
    decreases frames,
{
    if frames.len() > 0 {
        lemma_revert_reason_sound(frames[0].children@);
        lemma_revert_reason_sound(frames.drop_first());
    }
}

/// Whenever a top-level call failed with a revert reason, some revert
/// reason is extracted.
pub proof fn lemma_revert_reason_found(frames: Seq<StackFrame>, i: int)
    requires
        0 <= i < frames.len(),
        !frames[i].success,
        frames[i].revert_reason.is_some(),
    ensures
        deepest_revert(frames).is_some(),
    decreases frames.len(),
{
    if i > 0 {
        lemma_revert_reason_found(frames.drop_first(), i - 1);
    }
}

/// Each frame carries the data of the traced call it was built from, not
/// that of another node: its address, kind, success flag and gas are those
/// of node `idx`, at depth `depth`; each child frame carries those of the
/// arena node it stands for (a child index of node `idx` inside the arena,
/// in order), one level deeper.
pub proof fn lemma_frame_carries_its_call(f: StackFrame, nodes: Seq<CallTraceNode>, idx: int, depth: int)
    requires
        frame_of(f, nodes, idx, depth),
    ensures
        f.address == nodes[idx].trace.address,
        f.gas_used == nodes[idx].trace.gas_used,
        f.success == nodes[idx].trace.success,
        f.kind == frame_kind_of(nodes[idx].trace.kind),
        f.depth == depth,
        f.children@.len() == nodes[idx].children@.filter(|c: usize| c < nodes.len()).len(),
        forall|k: int|
            #![trigger f.children@[k]]
            0 <= k < f.children@.len() ==> {
                let c = nodes[idx].children@.filter(|c: usize| c < nodes.len())[k] as int;
                &&& idx < c < nodes.len()
                &&& f.children@[k].address == nodes[c].trace.address
                &&& f.children@[k].gas_used == nodes[c].trace.gas_used
                &&& f.children@[k].success == nodes[c].trace.success
                &&& f.children@[k].depth == depth + 1
            },
{
    let a = arena_children(nodes, idx);
    assert(a =~= nodes[idx].children@.filter(|c: usize| c < nodes.len())) by {
        assert(arena_pred(nodes) =~= (|c: usize| c < nodes.len()));
    }
    assert forall|k: int| #![trigger f.children@[k]] 0 <= k < f.children@.len() implies {
        let c = a[k] as int;
        &&& f.children@[k].address == nodes[c].trace.address
        &&& f.children@[k].gas_used == nodes[c].trace.gas_used
        &&& f.children@[k].success == nodes[c].trace.success
        &&& f.children@[k].depth == depth + 1
    } by {
        assert(idx < a[k] < nodes.len());
        assert(frame_of(f.children@[k], nodes, a[k] as int, depth + 1));
    }
}

/// The top-level frames carry the data of the root calls of their arenas:
/// each arena with a root call gives one frame, in order, whose address,
/// success flag and gas are those of the arena's first node, at depth 0.
pub proof fn lemma_stack_carries_roots(frames: Seq<StackFrame>, traces: Seq<Vec<CallTraceNode>>)
    requires
        stack_of(frames, traces),
    ensures
        frames.len() == traces.filter(|a: Vec<CallTraceNode>| a@.len() > 0).len(),
        forall|k: int|
            #![trigger frames[k]]
            0 <= k < frames.len() ==> {
                let root = traces.filter(|a: Vec<CallTraceNode>| a@.len() > 0)[k]@[0].trace;
                &&& frames[k].address == root.address
                &&& frames[k].gas_used == root.gas_used
                &&& frames[k].success == root.success
                &&& frames[k].depth == 0
            },
{
    assert(rooted_arenas(traces) =~= traces.filter(|a: Vec<CallTraceNode>| a@.len() > 0)) by {
        assert(has_root() =~= (|a: Vec<CallTraceNode>| a@.len() > 0));
    }
    assert forall|k: int| #![trigger frames[k]] 0 <= k < frames.len() implies {
        let root = rooted_arenas(traces)[k]@[0].trace;
        &&& frames[k].address == root.address
        &&& frames[k].gas_used == root.gas_used
        &&& frames[k].success == root.success
        &&& frames[k].depth == 0
    } by {
        lemma_frame_carries_its_call(frames[k], rooted_arenas(traces)[k]@, 0, 0);
    }
}

} // verus!
