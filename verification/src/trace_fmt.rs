//! Human-readable trace output: a call tree with one line per call, the
//! source location and revert reason under it, and a header and summary.
//! The same text comes out with or without terminal colours; colours only
//! wrap some pieces in escape sequences.

use vstd::prelude::*;
use crate::gas::{format_gas, gas_text};
use crate::text::{decimal, hex_encode, hex_lower, push_char, push_decimal, push_indent, repeat};
use crate::types::{forest_height, frame_height, lemma_child_lower, DebugSession, FrameKind, StackFrame};

verus! {

/// The escape sequences that colour one kind of piece: written before and
/// after it.
pub struct Paint {
    pub prefix: String,
    pub suffix: String,
}

/// Prefixes and suffixes of the five coloured pieces of a trace.
pub struct Palette {
    /// Transaction hash and section titles (bold).
    pub emphasis: Paint,
    /// `SUCCESS` (green, bold).
    pub success: Paint,
    /// `REVERTED`, `REVERT:` and `Revert Reason:` (red, bold).
    pub failure: Paint,
    /// Contract names (cyan).
    pub contract: Paint,
    /// Function names (yellow).
    pub function: Paint,
}

/// A palette as prefix/suffix character sequences.
pub struct PaletteView {
    pub emphasis: (Seq<char>, Seq<char>),
    pub success: (Seq<char>, Seq<char>),
    pub failure: (Seq<char>, Seq<char>),
    pub contract: (Seq<char>, Seq<char>),
    pub function: (Seq<char>, Seq<char>),
}

impl View for Paint {
    type V = (Seq<char>, Seq<char>);

    open spec fn view(&self) -> (Seq<char>, Seq<char>) {
        (self.prefix@, self.suffix@)
    }
}

impl View for Palette {
    type V = PaletteView;

    open spec fn view(&self) -> PaletteView {
        PaletteView {
            emphasis: self.emphasis@,
            success: self.success@,
            failure: self.failure@,
            contract: self.contract@,
            function: self.function@,
        }
    }
}

/// No colours: every prefix and suffix is empty.
pub open spec fn plain_palette() -> PaletteView {
    PaletteView {
        emphasis: (Seq::empty(), Seq::empty()),
        success: (Seq::empty(), Seq::empty()),
        failure: (Seq::empty(), Seq::empty()),
        contract: (Seq::empty(), Seq::empty()),
        function: (Seq::empty(), Seq::empty()),
    }
}

/// `text` between the paint's prefix and suffix.
pub open spec fn painted(p: (Seq<char>, Seq<char>), text: Seq<char>) -> Seq<char> {
    p.0 + text + p.1
}

/// How an address is shown when its contract is unknown: `0x`, the first
/// four and the last four hexadecimal digits, with `...` between.
#[verifier::opaque]
pub open spec fn address_text(addr: Seq<u8>) -> Seq<char> {
    let h = seq!['0', 'x'] + hex_lower(addr);
    if h.len() > 12 {
        h.subrange(0, 6) + "..."@ + h.subrange(h.len() - 4, h.len() as int)
    } else {
        h
    }
}

/// The shortened transaction hash of the header: `0x`, the first six and the
/// last six hexadecimal digits, with `...` between.
pub open spec fn tx_short_text(hash: Seq<u8>) -> Seq<char> {
    let h = hex_lower(hash);
    seq!['0', 'x'] + h.subrange(0, 6) + "..."@ + h.subrange(58, 64)
}

/// The marker before the contract of a call of the given kind.
pub open spec fn kind_marker(kind: FrameKind) -> Seq<char> {
    match kind {
        FrameKind::DelegateCall => "[delegatecall] "@,
        FrameKind::StaticCall => "[staticcall] "@,
        FrameKind::Create => "[create] "@,
        FrameKind::Create2 => "[create] "@,
        FrameKind::Call => Seq::empty(),
    }
}

/// One argument: `value` when it has no name, else `name=value`.
pub open spec fn arg_text(arg: (String, String)) -> Seq<char> {
    if arg.0@.len() == 0 {
        arg.1@
    } else {
        arg.0@ + seq!['='] + arg.1@
    }
}

/// The arguments, separated by `, `.
pub open spec fn args_text(args: Seq<(String, String)>) -> Seq<char>
    decreases args.len(),
{
    if args.len() == 0 {
        Seq::empty()
    } else if args.len() == 1 {
        arg_text(args[0])
    } else {
        args_text(args.drop_last()) + ", "@ + arg_text(args.last())
    }
}

/// Whether some direct child call of `f` failed.
pub open spec fn some_child_failed(f: StackFrame) -> bool {
    exists|i: int| 0 <= i < f.children@.len() && !(#[trigger] f.children@[i]).success
}

/// What a line starts with: the indentation of a top-level call, or that of
/// the parent level followed by the branch `+-- `.
pub open spec fn line_start(indent: nat, is_root: bool) -> Seq<char> {
    if is_root {
        repeat(seq![' ', ' '], indent)
    } else {
        repeat(seq![' ', ' '], (indent - 1) as nat) + "+-- "@
    }
}

/// The full address: `0x` and the lower-case hexadecimal digits of its
/// twenty bytes.
pub open spec fn full_address_text(addr: Seq<u8>) -> Seq<char> {
    seq!['0', 'x'] + hex_lower(addr)
}

/// The details that verbosity adds after a call: nothing at level 0; from
/// level 1 ` [address | gas: G]` with the shortened address and the call's
/// gas; from level 2 the full address instead, and ` | selector: S` before
/// the `]` when the frame has a selector.
pub open spec fn details_text(f: StackFrame, verbose: u8) -> Seq<char> {
    if verbose == 0 {
        Seq::empty()
    } else {
        let addr = if verbose >= 2 {
            full_address_text(f.address@)
        } else {
            address_text(f.address@)
        };
        let sel = if verbose >= 2 {
            match f.selector {
                Some(sel) => " | selector: "@ + sel@,
                None => Seq::empty(),
            }
        } else {
            Seq::empty()
        };
        " ["@ + addr + " | gas: "@ + gas_text(f.gas_used as nat) + sel + seq![']']
    }
}

/// The call line: `Contract.function(args)`, with the kind marker before it,
/// the details of the verbosity level after it, and ` <- REVERT` at the end
/// when the call failed and none of its children did (so the marker sits
/// where the failure started).
pub open spec fn call_line(f: StackFrame, indent: nat, is_root: bool, pal: PaletteView, verbose: u8) -> Seq<char> {
    call_head(f, indent, is_root, pal) + details_text(f, verbose) + revert_marker(f) + seq!['\n']
}

/// The start of the call line: indentation, kind marker and
/// `Contract.function(args)`.
pub open spec fn call_head(f: StackFrame, indent: nat, is_root: bool, pal: PaletteView) -> Seq<char> {
    line_start(indent, is_root) + kind_marker(f.kind) + painted(pal.contract, contract_label(f))
        + seq!['.'] + painted(pal.function, function_label(f)) + seq!['('] + args_text(
        f.function_args@,
    ) + seq![')']
}

/// The contract's name, or its shortened address when it is unknown.
pub open spec fn contract_label(f: StackFrame) -> Seq<char> {
    match f.contract_name {
        Some(name) => name@,
        None => address_text(f.address@),
    }
}

/// The function's name, or `???` when it is unknown.
pub open spec fn function_label(f: StackFrame) -> Seq<char> {
    match f.function_name {
        Some(name) => name@,
        None => "???"@,
    }
}

/// ` <- REVERT` for a failed call none of whose children failed.
pub open spec fn revert_marker(f: StackFrame) -> Seq<char> {
    if f.success || some_child_failed(f) {
        Seq::empty()
    } else {
        " <- REVERT"@
    }
}

/// The source location line, when the frame has a location.
pub open spec fn location_line(f: StackFrame, indent: nat) -> Seq<char> {
    match f.source_location {
        Some(loc) => repeat(seq![' ', ' '], indent) + "    at "@ + loc.file@ + seq![':']
            + decimal(loc.line as nat) + seq![':'] + decimal(loc.column as nat) + seq!['\n'],
        None => Seq::empty(),
    }
}

/// The revert reason line: only for a failed call none of whose children
/// failed, and only when it has a reason.
pub open spec fn revert_line(f: StackFrame, indent: nat, pal: PaletteView) -> Seq<char> {
    if !f.success && !some_child_failed(f) {
        match f.revert_reason {
            Some(reason) => repeat(seq![' ', ' '], indent) + "    "@
                + painted(pal.failure, "REVERT:"@) + seq![' '] + reason@ + seq!['\n'],
            None => Seq::empty(),
        }
    } else {
        Seq::empty()
    }
}

/// The text of a frame and, one level deeper, of all its descendants.
pub open spec fn frame_text(f: StackFrame, indent: nat, is_root: bool, pal: PaletteView, verbose: u8) -> Seq<char>
    decreases f,
{
    call_line(f, indent, is_root, pal, verbose) + location_line(f, indent) + revert_line(f, indent, pal)
        + forest_text(f.children@, indent + 1, false, pal, verbose)
}

/// The texts of the frames one after the other.
pub open spec fn forest_text(cs: Seq<StackFrame>, indent: nat, is_root: bool, pal: PaletteView, verbose: u8) -> Seq<char>
    decreases cs,
{
    if cs.len() == 0 {
        Seq::empty()
    } else {
        forest_text(cs.drop_last(), indent, is_root, pal, verbose) + frame_text(cs.last(), indent, is_root, pal, verbose)
    }
}

/// `Debug` formatting of an `alloy_primitives::Address`: `0x` and the
/// lower-case hexadecimal digits of its twenty bytes.
#[verifier::external_body]
fn address_debug_text(addr: [u8; 20]) -> (r: String)
    ensures
        r@ == seq!['0', 'x'] + hex_lower(addr@),
{
    format!("{:?}", alloy_primitives::Address::from(addr))
}

/// `LowerHex` formatting (`{:x}`) of an `alloy_primitives::B256`: the
/// lower-case hexadecimal digits of its 32 bytes, without prefix.
#[verifier::external_body]
fn b256_lower_hex(hash: [u8; 32]) -> (r: String)
    ensures
        r@ == hex_lower(hash@),
{
    format!("{:x}", alloy_primitives::B256::from(hash))
}

/// Shortened address: `0x` and the first and last four hexadecimal digits
/// (e.g. `0xda8f...3b21`).
pub fn format_address(addr: [u8; 20]) -> (r: String)
    ensures
        r@ == address_text(addr@),
{
    let hex = address_debug_text(addr);
    let n = hex.as_str().unicode_len();
    proof {
        reveal(address_text);
    }
    if n > 12 {
        let mut out = String::new();
        out.append(hex.as_str().substring_char(0, 6));
        out.append("...");
        out.append(hex.as_str().substring_char(n - 4, n));
        out
    } else {
        hex
    }
}

fn append_painted(out: &mut String, paint: &Paint, text: &str)
    ensures
        final(out)@ == old(out)@ + painted(paint@, text@),
{
    out.append(paint.prefix.as_str());
    out.append(text);
    out.append(paint.suffix.as_str());
    assert(final(out)@ =~= old(out)@ + painted(paint@, text@));
}

fn append_args(out: &mut String, args: &Vec<(String, String)>)
    ensures
        final(out)@ == old(out)@ + args_text(args@),
{
    let mut i: usize = 0;
    while i < args.len()
        invariant
            i <= args@.len(),
            out@ == old(out)@ + args_text(args@.take(i as int)),
        decreases args.len() - i,
    {
        let ghost before = out@;
        if i > 0 {
            out.append(", ");
        }
        let arg = &args[i];
        if arg.0.as_str().is_empty() {
            out.append(arg.1.as_str());
        } else {
            out.append(arg.0.as_str());
            push_char(out, '=');
            out.append(arg.1.as_str());
        }
        proof {
            let t = args@.take(i + 1);
            assert(t.drop_last() =~= args@.take(i as int));
            assert(t.last() == args@[i as int]);
            if i == 0 {
                assert(args_text(t) == arg_text(t[0]));
            }
            assert(out@ =~= old(out)@ + args_text(t));
        }
        i = i + 1;
    }
    assert(args@.take(args@.len() as int) =~= args@);
}

fn child_failed(frame: &StackFrame) -> (r: bool)
    ensures
        r == some_child_failed(*frame),
{
    let mut i: usize = 0;
    while i < frame.children.len()
        invariant
            i <= frame.children@.len(),
            forall|j: int| 0 <= j < i ==> (#[trigger] frame.children@[j]).success,
        decreases frame.children.len() - i,
    {
        if !frame.children[i].success {
            return true;
        }
        i = i + 1;
    }
    false
}

fn write_labels(out: &mut String, frame: &StackFrame, pal: &Palette)
    ensures
        final(out)@ == old(out)@ + painted(pal@.contract, contract_label(*frame)) + seq!['.']
            + painted(pal@.function, function_label(*frame)),
{
    let ghost after_kind = out@;
    match &frame.contract_name {
        Some(name) => append_painted(out, &pal.contract, name.as_str()),
        None => {
            let addr = format_address(frame.address);
            append_painted(out, &pal.contract, addr.as_str());
        },
    }
    let ghost after_contract = out@;
    assert(after_contract == after_kind + painted(pal@.contract, contract_label(*frame)));
    push_char(out, '.');
    match &frame.function_name {
        Some(name) => append_painted(out, &pal.function, name.as_str()),
        None => append_painted(out, &pal.function, "???"),
    }
    assert(final(out)@ =~= after_contract + seq!['.'] + painted(pal@.function, function_label(*frame)));
}

fn write_details(out: &mut String, frame: &StackFrame, verbose: u8)
    ensures
        final(out)@ == old(out)@ + details_text(*frame, verbose),
{
    if verbose > 0 {
        out.append(" [");
        if verbose >= 2 {
            let addr = address_debug_text(frame.address);
            out.append(addr.as_str());
        } else {
            let addr = format_address(frame.address);
            out.append(addr.as_str());
        }
        out.append(" | gas: ");
        let gas = format_gas(frame.gas_used);
        out.append(gas.as_str());
        if verbose >= 2 {
            match &frame.selector {
                Some(sel) => {
                    out.append(" | selector: ");
                    out.append(sel.as_str());
                },
                None => {},
            }
        }
        push_char(out, ']');
    }
    assert(final(out)@ =~= old(out)@ + details_text(*frame, verbose));
}

fn write_call_head(out: &mut String, frame: &StackFrame, indent: usize, is_root: bool, pal: &Palette)
    requires
        is_root || indent >= 1,
    ensures
        final(out)@ == old(out)@ + call_head(*frame, indent as nat, is_root, pal@),
{
    if is_root {
        push_indent(out, indent);
    } else {
        push_indent(out, indent - 1);
        out.append("+-- ");
    }
    let ghost after_start = out@;
    assert(after_start =~= old(out)@ + line_start(indent as nat, is_root));
    match frame.kind {
        FrameKind::DelegateCall => out.append("[delegatecall] "),
        FrameKind::StaticCall => out.append("[staticcall] "),
        FrameKind::Create => out.append("[create] "),
        FrameKind::Create2 => out.append("[create] "),
        FrameKind::Call => {},
    }
    let ghost after_kind = out@;
    assert(after_kind =~= after_start + kind_marker(frame.kind));
    write_labels(out, frame, pal);
    let ghost after_function = out@;
    assert(after_function =~= after_kind + painted(pal@.contract, contract_label(*frame)) + seq!['.']
        + painted(pal@.function, function_label(*frame)));
    push_char(out, '(');
    append_args(out, &frame.function_args);
    push_char(out, ')');
    assert(final(out)@ =~= old(out)@ + call_head(*frame, indent as nat, is_root, pal@));
}

fn write_call_line(out: &mut String, frame: &StackFrame, indent: usize, is_root: bool, pal: &Palette, verbose: u8)
    requires
        is_root || indent >= 1,
    ensures
        final(out)@ == old(out)@ + call_line(*frame, indent as nat, is_root, pal@, verbose),
{
    write_call_head(out, frame, indent, is_root, pal);
    let ghost after_head = out@;
    write_details(out, frame, verbose);
    let ghost after_details = out@;
    let failed_child = child_failed(frame);
    if !frame.success && !failed_child {
        out.append(" <- REVERT");
    }
    assert(out@ =~= after_details + revert_marker(*frame));
    push_char(out, '\n');
    assert(final(out)@ =~= old(out)@ + call_line(*frame, indent as nat, is_root, pal@, verbose));
}

fn write_location_line(out: &mut String, frame: &StackFrame, indent: usize)
    ensures
        final(out)@ == old(out)@ + location_line(*frame, indent as nat),
{
    match &frame.source_location {
        Some(loc) => {
            push_indent(out, indent);
            out.append("    at ");
            out.append(loc.file.as_str());
            push_char(out, ':');
            push_decimal(out, loc.line as u128);
            push_char(out, ':');
            push_decimal(out, loc.column as u128);
            push_char(out, '\n');
        },
        None => {},
    }
    assert(final(out)@ =~= old(out)@ + location_line(*frame, indent as nat));
}

fn write_revert_line(out: &mut String, frame: &StackFrame, indent: usize, pal: &Palette)
    ensures
        final(out)@ == old(out)@ + revert_line(*frame, indent as nat, pal@),
{
    let failed_child = child_failed(frame);
    if !frame.success && !failed_child {
        match &frame.revert_reason {
            Some(reason) => {
                push_indent(out, indent);
                out.append("    ");
                append_painted(out, &pal.failure, "REVERT:");
                push_char(out, ' ');
                out.append(reason.as_str());
                push_char(out, '\n');
            },
            None => {},
        }
    }
    assert(final(out)@ =~= old(out)@ + revert_line(*frame, indent as nat, pal@));
}

/// Appends the text of `frame` and, one level deeper, of the calls under
/// it: its call line, its location line and its revert line, then each
/// child's text in order.
pub fn write_frame(out: &mut String, frame: &StackFrame, indent: usize, is_root: bool, pal: &Palette, verbose: u8)
    requires
        is_root || indent >= 1,
        indent + frame_height(*frame) <= usize::MAX,
    ensures
        final(out)@ == old(out)@ + frame_text(*frame, indent as nat, is_root, pal@, verbose),
    decreases frame_height(*frame),
{
    write_call_line(out, frame, indent, is_root, pal, verbose);
    write_location_line(out, frame, indent);
    write_revert_line(out, frame, indent, pal);
    let ghost after_lines = out@;
    let mut i: usize = 0;
    while i < frame.children.len()
        invariant
            i <= frame.children@.len(),
            indent + frame_height(*frame) <= usize::MAX,
            out@ == after_lines + forest_text(frame.children@.take(i as int), indent as nat + 1, false, pal@, verbose),
        decreases frame.children.len() - i,
    {
        proof {
            lemma_child_lower(*frame, i as int);
        }
        write_frame(out, &frame.children[i], indent + 1, false, pal, verbose);
        proof {
            let t = frame.children@.take(i + 1);
            assert(t.drop_last() =~= frame.children@.take(i as int));
            assert(t.last() == frame.children@[i as int]);
        }
        i = i + 1;
    }
    assert(frame.children@.take(frame.children@.len() as int) =~= frame.children@);
    assert(final(out)@ =~= old(out)@ + frame_text(*frame, indent as nat, is_root, pal@, verbose));
}

/// The header line and the blank line after it.
pub open spec fn header_text(s: DebugSession, pal: PaletteView) -> Seq<char> {
    let status = if s.success {
        painted(pal.success, "SUCCESS"@)
    } else {
        painted(pal.failure, "REVERTED"@)
    };
    "Transaction "@ + painted(pal.emphasis, tx_short_text(s.tx_hash@)) + seq![' '] + status
        + " (gas: "@ + gas_text(s.gas_used as nat) + seq![')', '\n', '\n']
}

/// The call stack section: a note when there is no call, else the title and
/// the frames, each top-level call at indentation one.
pub open spec fn stack_text(s: DebugSession, pal: PaletteView, verbose: u8) -> Seq<char> {
    if s.call_stack@.len() == 0 {
        "  (no call trace available)\n"@
    } else {
        painted(pal.emphasis, "Call Stack:"@) + seq!['\n'] + forest_text(s.call_stack@, 1, true, pal, verbose)
    }
}

/// The closing summary with the transaction's revert reason, if it has one.
pub open spec fn summary_text(s: DebugSession, pal: PaletteView) -> Seq<char> {
    match s.revert_reason {
        Some(reason) => seq!['\n'] + painted(pal.failure, "Revert Reason:"@) + seq![' '] + reason@
            + seq!['\n'],
        None => Seq::empty(),
    }
}

/// The whole trace of a session at the given verbosity level.
pub open spec fn trace_text(s: DebugSession, pal: PaletteView, verbose: u8) -> Seq<char> {
    header_text(s, pal) + stack_text(s, pal, verbose) + summary_text(s, pal)
}

fn write_header(out: &mut String, session: &DebugSession, pal: &Palette)
    ensures
        final(out)@ == old(out)@ + header_text(*session, pal@),
{
    out.append("Transaction ");
    let hex = b256_lower_hex(session.tx_hash);
    let mut short = String::new();
    push_char(&mut short, '0');
    push_char(&mut short, 'x');
    short.append(hex.as_str().substring_char(0, 6));
    short.append("...");
    short.append(hex.as_str().substring_char(58, 64));
    assert(short@ =~= tx_short_text(session.tx_hash@));
    append_painted(out, &pal.emphasis, short.as_str());
    push_char(out, ' ');
    if session.success {
        append_painted(out, &pal.success, "SUCCESS");
    } else {
        append_painted(out, &pal.failure, "REVERTED");
    }
    out.append(" (gas: ");
    let gas = format_gas(session.gas_used);
    out.append(gas.as_str());
    push_char(out, ')');
    push_char(out, '\n');
    push_char(out, '\n');
    assert(final(out)@ =~= old(out)@ + header_text(*session, pal@));
}

fn write_stack(out: &mut String, session: &DebugSession, pal: &Palette, verbose: u8)
    requires
        forest_height(session.call_stack@) < usize::MAX,
    ensures
        final(out)@ == old(out)@ + stack_text(*session, pal@, verbose),
{
    if session.call_stack.len() == 0 {
        out.append("  (no call trace available)\n");
    } else {
        append_painted(out, &pal.emphasis, "Call Stack:");
        push_char(out, '\n');
        let ghost start = out@;
        let mut i: usize = 0;
        while i < session.call_stack.len()
            invariant
                i <= session.call_stack@.len(),
                forest_height(session.call_stack@) < usize::MAX,
                out@ == start + forest_text(session.call_stack@.take(i as int), 1, true, pal@, verbose),
            decreases session.call_stack.len() - i,
        {
            proof {
                crate::types::lemma_forest_height_bounds(session.call_stack@, i as int);
            }
            write_frame(out, &session.call_stack[i], 1, true, pal, verbose);
            proof {
                let t = session.call_stack@.take(i + 1);
                assert(t.drop_last() =~= session.call_stack@.take(i as int));
                assert(t.last() == session.call_stack@[i as int]);
            }
            i = i + 1;
        }
        assert(session.call_stack@.take(session.call_stack@.len() as int) =~= session.call_stack@);
    }
    assert(final(out)@ =~= old(out)@ + stack_text(*session, pal@, verbose));
}

fn write_summary(out: &mut String, session: &DebugSession, pal: &Palette)
    ensures
        final(out)@ == old(out)@ + summary_text(*session, pal@),
{
    match &session.revert_reason {
        Some(reason) => {
            push_char(out, '\n');
            append_painted(out, &pal.failure, "Revert Reason:");
            push_char(out, ' ');
            out.append(reason.as_str());
            push_char(out, '\n');
        },
        None => {},
    }
    assert(final(out)@ =~= old(out)@ + summary_text(*session, pal@));
}

/// Renders a session with the given colours at the given verbosity: the
/// header with the shortened transaction hash, status and gas, the call tree
/// (with each call's address, gas and selector as the level asks), and the
/// revert reason.
pub fn render_trace(session: &DebugSession, pal: &Palette, verbose: u8) -> (r: String)
    requires
        forest_height(session.call_stack@) < usize::MAX,
    ensures
        r@ == trace_text(*session, pal@, verbose),
{
    let mut out = String::new();
    write_header(&mut out, session, pal);
    write_stack(&mut out, session, pal, verbose);
    write_summary(&mut out, session, pal);
    assert(out@ =~= trace_text(*session, pal@, verbose));
    out
}

/// The colours of the trace: bold, green and bold, red and bold, cyan and
/// yellow.
#[derive(Clone, Copy)]
pub enum TextStyle {
    Bold,
    GreenBold,
    RedBold,
    Cyan,
    Yellow,
}

/// The ANSI sequence that starts a piece in the given style.
pub open spec fn ansi_prefix(style: TextStyle) -> Seq<char> {
    match style {
        TextStyle::Bold => "\u{1b}[1m"@,
        TextStyle::GreenBold => "\u{1b}[1;32m"@,
        TextStyle::RedBold => "\u{1b}[1;31m"@,
        TextStyle::Cyan => "\u{1b}[36m"@,
        TextStyle::Yellow => "\u{1b}[33m"@,
    }
}

/// The ANSI sequence that resets all styles.
pub open spec fn ansi_reset() -> Seq<char> {
    "\u{1b}[0m"@
}

/// The palette of a terminal with colours.
pub open spec fn ansi_palette() -> PaletteView {
    PaletteView {
        emphasis: (ansi_prefix(TextStyle::Bold), ansi_reset()),
        success: (ansi_prefix(TextStyle::GreenBold), ansi_reset()),
        failure: (ansi_prefix(TextStyle::RedBold), ansi_reset()),
        contract: (ansi_prefix(TextStyle::Cyan), ansi_reset()),
        function: (ansi_prefix(TextStyle::Yellow), ansi_reset()),
    }
}

/// `yansi::Style::prefix` of the style: `ESC [`, the attribute and colour
/// codes joined by `;` (bold is 1, red 31, green 32, yellow 33, cyan 36),
/// and `m`.
#[verifier::external_body]
fn style_prefix(style: TextStyle) -> (r: String)
    ensures
        r@ == ansi_prefix(style),
{
    let style = match style {
        TextStyle::Bold => yansi::Style::new().bold(),
        TextStyle::GreenBold => yansi::Style::new().green().bold(),
        TextStyle::RedBold => yansi::Style::new().red().bold(),
        TextStyle::Cyan => yansi::Style::new().cyan(),
        TextStyle::Yellow => yansi::Style::new().yellow(),
    };
    style.prefix().into_owned()
}

/// `yansi::Style::suffix` of the style: the reset sequence `ESC [0m` (the
/// styles here have neither the `linger` nor the `clear` quirk and are not
/// the default style).
#[verifier::external_body]
fn style_suffix(style: TextStyle) -> (r: String)
    ensures
        r@ == ansi_reset(),
{
    let style = match style {
        TextStyle::Bold => yansi::Style::new().bold(),
        TextStyle::GreenBold => yansi::Style::new().green().bold(),
        TextStyle::RedBold => yansi::Style::new().red().bold(),
        TextStyle::Cyan => yansi::Style::new().cyan(),
        TextStyle::Yellow => yansi::Style::new().yellow(),
    };
    style.suffix().into_owned()
}

/// `yansi::is_enabled`: whether painting is globally enabled (it is by
/// default; `yansi::disable` turns it off). Process state: nothing is stated.
#[verifier::external_body]
fn painting_enabled() -> bool {
    yansi::is_enabled()
}

fn style_paint(style: TextStyle) -> (p: Paint)
    ensures
        p@ == (ansi_prefix(style), ansi_reset()),
{
    Paint { prefix: style_prefix(style), suffix: style_suffix(style) }
}

fn no_paint() -> (p: Paint)
    ensures
        p@ == (Seq::<char>::empty(), Seq::<char>::empty()),
{
    Paint { prefix: String::new(), suffix: String::new() }
}

/// The palette without colours.
pub fn plain() -> (pal: Palette)
    ensures
        pal@ == plain_palette(),
{
    Palette {
        emphasis: no_paint(),
        success: no_paint(),
        failure: no_paint(),
        contract: no_paint(),
        function: no_paint(),
    }
}

/// The palette of a colour terminal, as `yansi` writes its styles.
pub fn ansi() -> (pal: Palette)
    ensures
        pal@ == ansi_palette(),
{
    Palette {
        emphasis: style_paint(TextStyle::Bold),
        success: style_paint(TextStyle::GreenBold),
        failure: style_paint(TextStyle::RedBold),
        contract: style_paint(TextStyle::Cyan),
        function: style_paint(TextStyle::Yellow),
    }
}

/// Format a `DebugSession` as a human-readable stack trace at verbosity
/// `verbose` (`-v`: each call's address and gas; `-vv`: its selector and
/// full address), in colour when `yansi` painting is enabled: it is
/// `format_trace_with` with yansi's global painting switch, which is process
/// state; whichever way the switch stands, the text is that of the plain
/// trace or that of the colour trace.
pub fn format_trace(session: &DebugSession, verbose: u8) -> (r: String)
    requires
        forest_height(session.call_stack@) < usize::MAX,
    ensures
        r@ == trace_text(*session, plain_palette(), verbose) || r@ == trace_text(
            *session,
            ansi_palette(),
            verbose,
        ),
{
    format_trace_with(session, painting_enabled(), verbose)
}

/// Format a `DebugSession` at verbosity `verbose`, in colour when `painted`
/// holds (the colour trace) and as plain text when it does not.
pub fn format_trace_with(session: &DebugSession, painted: bool, verbose: u8) -> (r: String)
    requires
        forest_height(session.call_stack@) < usize::MAX,
    ensures
        r@ == trace_text(
            *session,
            if painted {
                ansi_palette()
            } else {
                plain_palette()
            },
            verbose,
        ),
{
    let pal = if painted {
        ansi()
    } else {
        plain()
    };
    render_trace(session, &pal, verbose)
}

/// Format a `DebugSession` as plain text (no ANSI colors) at verbosity
/// `verbose`.
pub fn format_trace_plain(session: &DebugSession, verbose: u8) -> (r: String)
    requires
        forest_height(session.call_stack@) < usize::MAX,
    ensures
        r@ == trace_text(*session, plain_palette(), verbose),
{
    render_trace(session, &plain(), verbose)
}

/// Where the failure is marked: a failed call none of whose direct children
/// failed ends its call line with ` <- REVERT` and, when it has a revert
/// reason, is followed by a `REVERT:` line with that reason, however many
/// successful children it has; a call that succeeded, or one with a failed
/// direct child, has neither.
pub proof fn lemma_revert_marking(f: StackFrame, indent: nat, is_root: bool, pal: PaletteView, verbose: u8)
    ensures
        (!f.success && forall|k: int| 0 <= k < f.children@.len() ==> (#[trigger] f.children@[k]).success) ==> {
            &&& call_line(f, indent, is_root, pal, verbose) == call_head(f, indent, is_root, pal) + details_text(
                f,
                verbose,
            ) + " <- REVERT"@ + seq!['\n']
            &&& revert_line(f, indent, pal) == match f.revert_reason {
                Some(r) => repeat(seq![' ', ' '], indent) + "    "@ + painted(pal.failure, "REVERT:"@) + seq![' ']
                    + r@ + seq!['\n'],
                None => Seq::empty(),
            }
        },
        (f.success || exists|k: int| 0 <= k < f.children@.len() && !(#[trigger] f.children@[k]).success) ==> {
            &&& call_line(f, indent, is_root, pal, verbose) == call_head(f, indent, is_root, pal) + details_text(
                f,
                verbose,
            ) + seq!['\n']
            &&& revert_line(f, indent, pal) == Seq::<char>::empty()
        },
{
    assert(call_head(f, indent, is_root, pal) + details_text(f, verbose) + Seq::<char>::empty() + seq!['\n']
        =~= call_head(f, indent, is_root, pal) + details_text(f, verbose) + seq!['\n']);
}

} // verus!
