//! Data model of a debug session: call frames, their kinds and locations.

use vstd::prelude::*;

verus! {

/// Kind of an EVM call as the tracer records it.
#[derive(Debug, Clone, Copy, PartialEq, Eq)]
pub enum CallKind {
    Call,
    StaticCall,
    CallCode,
    DelegateCall,
    AuthCall,
    Create,
    Create2,
}

/// Kind of call frame.
#[derive(Debug, Clone, Copy, PartialEq, Eq)]
pub enum FrameKind {
    Call,
    DelegateCall,
    StaticCall,
    Create,
    Create2,
}

/// The frame kind that a traced call kind is shown as: the kinds without a
/// frame kind of their own are shown as plain calls.
pub open spec fn frame_kind_of(kind: CallKind) -> FrameKind {
    match kind {
        CallKind::Call => FrameKind::Call,
        CallKind::DelegateCall => FrameKind::DelegateCall,
        CallKind::StaticCall => FrameKind::StaticCall,
        CallKind::Create => FrameKind::Create,
        CallKind::Create2 => FrameKind::Create2,
        _ => FrameKind::Call,
    }
}

impl From<CallKind> for FrameKind {
    fn from(kind: CallKind) -> (r: Self) {
        match kind {
            CallKind::Call => FrameKind::Call,
            CallKind::DelegateCall => FrameKind::DelegateCall,
            CallKind::StaticCall => FrameKind::StaticCall,
            CallKind::Create => FrameKind::Create,
            CallKind::Create2 => FrameKind::Create2,
            _ => FrameKind::Call,
        }
    }
}

impl vstd::std_specs::convert::FromSpecImpl<CallKind> for FrameKind {
    open spec fn obeys_from_spec() -> bool {
        true
    }

    open spec fn from_spec(v: CallKind) -> FrameKind {
        frame_kind_of(v)
    }
}

/// Source code location.
#[derive(Debug, Clone)]
pub struct SourceLoc {
    /// File path (relative to project root).
    pub file: String,
    /// Line number (1-indexed).
    pub line: usize,
    /// Column number (1-indexed).
    pub column: usize,
    /// A few lines of source context around the location.
    pub source_snippet: Option<String>,
}

/// A single frame in the call stack.
#[derive(Debug)]
pub struct StackFrame {
    /// Contract address being called.
    pub address: [u8; 20],
    /// Identified contract name (e.g., "ERC20").
    pub contract_name: Option<String>,
    /// Function name (e.g., "transferFrom").
    pub function_name: Option<String>,
    /// Raw 4-byte function selector (e.g., "0x70a08231").
    /// Present when calldata >= 4 bytes, regardless of whether decoding succeeded.
    pub selector: Option<String>,
    /// Decoded function arguments as (name, value) pairs.
    pub function_args: Vec<(String, String)>,
    /// Return value (decoded).
    pub return_value: Option<String>,
    /// Source code location.
    pub source_location: Option<SourceLoc>,
    /// Call depth (0 = top-level).
    pub depth: usize,
    /// Type of call.
    pub kind: FrameKind,
    /// Whether this call succeeded.
    pub success: bool,
    /// Revert reason if this call reverted.
    pub revert_reason: Option<String>,
    /// Gas used by this call.
    pub gas_used: u64,
    /// Child calls.
    pub children: Vec<StackFrame>,
}

/// Number of levels of the frame tree rooted at `f` (a leaf has height 1).
pub open spec fn frame_height(f: StackFrame) -> nat
    decreases f,
{
    1 + forest_height(f.children@)
}

/// The greatest height among the frames of `cs` (0 when there are none).
pub open spec fn forest_height(cs: Seq<StackFrame>) -> nat
    decreases cs,
{
    if cs.len() == 0 {
        0
    } else {
        let a = forest_height(cs.drop_last());
        let b = frame_height(cs.last());
        if a >= b { a } else { b }
    }
}

/// Every frame of a forest is at most as high as the forest.
pub proof fn lemma_forest_height_bounds(cs: Seq<StackFrame>, i: int)
    requires
        0 <= i < cs.len(),
    ensures
        frame_height(cs[i]) <= forest_height(cs),
    decreases cs.len(),
{
    if i < cs.len() - 1 {
        lemma_forest_height_bounds(cs.drop_last(), i);
    }
}

/// A child frame is lower than its parent.
pub proof fn lemma_child_lower(f: StackFrame, i: int)
    requires
        0 <= i < f.children@.len(),
    ensures
        frame_height(f.children@[i]) < frame_height(f),
{
    lemma_forest_height_bounds(f.children@, i);
}

/// Decoded call data of a traced call: the function signature and the
/// arguments as text.
#[derive(Debug)]
pub struct DecodedCallData {
    /// e.g. `transfer(address,uint256)`.
    pub signature: String,
    pub args: Vec<String>,
}

/// What the decoder made of a traced call.
#[derive(Debug)]
pub struct DecodedCallTrace {
    /// Name of the identified contract.
    pub label: Option<String>,
    pub call_data: Option<DecodedCallData>,
    /// Decoded return data (or revert data of a failed call).
    pub return_data: Option<String>,
}

/// One traced call.
#[derive(Debug)]
pub struct CallTrace {
    /// Address being called.
    pub address: [u8; 20],
    /// Address making the call.
    pub caller: [u8; 20],
    pub kind: CallKind,
    pub success: bool,
    pub gas_used: u64,
    /// Call data.
    pub data: Vec<u8>,
    /// Return (or revert) data.
    pub output: Vec<u8>,
    pub decoded: Option<DecodedCallTrace>,
}

/// A call in a trace arena, with the arena indices of the calls it made.
#[derive(Debug)]
pub struct CallTraceNode {
    pub trace: CallTrace,
    pub children: Vec<usize>,
}

/// Complete debug session for a transaction.
#[derive(Debug)]
pub struct DebugSession {
    /// Transaction hash.
    pub tx_hash: [u8; 32],
    /// Whether the transaction succeeded.
    pub success: bool,
    /// Gas used by the transaction.
    pub gas_used: u64,
    /// Revert reason (if any).
    pub revert_reason: Option<String>,
    /// Structured call stack (tree of frames).
    pub call_stack: Vec<StackFrame>,
    /// Raw trace arenas the call stack was built from.
    pub traces: Option<Vec<Vec<CallTraceNode>>>,
}

} // verus!
