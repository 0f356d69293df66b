//! Terminal escape sequences: what is left of a text once its ANSI
//! sequences (`ESC`, parameters, `m`) are taken out, and the law that the
//! plain trace is the coloured trace without them.

use vstd::prelude::*;
use crate::gas::{gas_text, one_decimal, two_decimals};
use crate::text::{decimal, hex_lower, repeat};
use crate::trace_fmt::{
    address_text, ansi_palette, ansi_prefix, ansi_reset, args_text, call_head, call_line, contract_label,
    details_text, forest_text, frame_text, full_address_text, function_label, header_text, kind_marker,
    line_start, location_line, painted, plain_palette, revert_line, revert_marker, stack_text, summary_text,
    trace_text, tx_short_text, TextStyle,
};
use crate::types::{DebugSession, StackFrame};

verus! {

/// The escape character that opens an ANSI sequence.
pub open spec fn esc() -> char {
    '\u{1b}'
}

/// `s` holds no escape character.
pub open spec fn no_escape(s: Seq<char>) -> bool {
    forall|i: int| 0 <= i < s.len() ==> s[i] != esc()
}

/// Whether the reader is inside an escape sequence after character `c`,
/// given whether it was before: an escape character opens a sequence and
/// `m` closes it.
pub open spec fn next_state(in_seq: bool, c: char) -> bool {
    if in_seq {
        c != 'm'
    } else {
        c == esc()
    }
}

/// The characters of `s` outside escape sequences, reading from the state
/// `in_seq`.
pub open spec fn strip_from(s: Seq<char>, in_seq: bool) -> Seq<char>
    decreases s.len(),
{
    if s.len() == 0 {
        Seq::empty()
    } else {
        let rest = strip_from(s.drop_first(), next_state(in_seq, s[0]));
        if in_seq || s[0] == esc() {
            rest
        } else {
            seq![s[0]] + rest
        }
    }
}

/// Whether the reader is inside an escape sequence after reading `s` from
/// the state `in_seq`.
pub open spec fn ends_in_seq(s: Seq<char>, in_seq: bool) -> bool
    decreases s.len(),
{
    if s.len() == 0 {
        in_seq
    } else {
        ends_in_seq(s.drop_first(), next_state(in_seq, s[0]))
    }
}

/// `s` without its ANSI escape sequences.
pub open spec fn strip_ansi(s: Seq<char>) -> Seq<char> {
    strip_from(s, false)
}

/// Stripping `x` gives `y`, and `x` does not end inside an escape sequence.
pub open spec fn strips_to(x: Seq<char>, y: Seq<char>) -> bool {
    strip_from(x, false) == y && !ends_in_seq(x, false)
}

/// One complete escape sequence: the escape character, parameters without
/// `m`, and the closing `m`.
pub open spec fn is_escape(s: Seq<char>) -> bool {
    &&& s.len() >= 2
    &&& s[0] == esc()
    &&& s[s.len() - 1] == 'm'
    &&& forall|i: int| 1 <= i < s.len() - 1 ==> s[i] != 'm'
}

proof fn lemma_strip_concat(a: Seq<char>, b: Seq<char>, st: bool)
    ensures
        strip_from(a + b, st) == strip_from(a, st) + strip_from(b, ends_in_seq(a, st)),
        ends_in_seq(a + b, st) == ends_in_seq(b, ends_in_seq(a, st)),
    decreases a.len(),
{
    if a.len() == 0 {
        assert(a + b =~= b);
        assert(strip_from(a, st) + strip_from(b, st) =~= strip_from(b, st));
    } else {
        let ab = a + b;
        assert(ab.drop_first() =~= a.drop_first() + b);
        assert(ab[0] == a[0]);
        let n = next_state(st, a[0]);
        lemma_strip_concat(a.drop_first(), b, n);
        if !(st || a[0] == esc()) {
            assert(seq![a[0]] + (strip_from(a.drop_first(), n) + strip_from(b, ends_in_seq(a, st))) =~= (seq![
                a[0],
            ] + strip_from(a.drop_first(), n)) + strip_from(b, ends_in_seq(a, st)));
        }
    }
}

/// Stripping goes piece by piece.
proof fn lemma_strips_concat(a1: Seq<char>, b1: Seq<char>, a2: Seq<char>, b2: Seq<char>)
    requires
        strips_to(a1, b1),
        strips_to(a2, b2),
    ensures
        strips_to(a1 + a2, b1 + b2),
{
    lemma_strip_concat(a1, a2, false);
}

/// Text without escape characters is left as it is.
proof fn lemma_plain_strips(t: Seq<char>)
    requires
        no_escape(t),
    ensures
        strips_to(t, t),
    decreases t.len(),
{
    if t.len() > 0 {
        assert(no_escape(t.drop_first())) by {
            assert forall|i: int| 0 <= i < t.drop_first().len() implies t.drop_first()[i] != esc() by {
                assert(t.drop_first()[i] == t[i + 1]);
            }
        }
        lemma_plain_strips(t.drop_first());
        assert(t[0] != esc());
        assert(!next_state(false, t[0]));
        assert(seq![t[0]] + t.drop_first() =~= t);
    } else {
        assert(t =~= Seq::<char>::empty());
    }
}

proof fn lemma_sequence_tail(s: Seq<char>)
    requires
        s.len() >= 1,
        s[s.len() - 1] == 'm',
        forall|i: int| 0 <= i < s.len() - 1 ==> s[i] != 'm',
    ensures
        strip_from(s, true) == Seq::<char>::empty(),
        !ends_in_seq(s, true),
    decreases s.len(),
{
    if s.len() == 1 {
        let d = s.drop_first();
        assert(d =~= Seq::<char>::empty());
        assert(!next_state(true, s[0]));
        assert(strip_from(d, false) == Seq::<char>::empty());
        assert(!ends_in_seq(d, false));
    } else {
        let d = s.drop_first();
        assert(s[0] != 'm');
        assert(next_state(true, s[0]));
        assert forall|i: int| 0 <= i < d.len() - 1 implies d[i] != 'm' by {
            assert(d[i] == s[i + 1]);
        }
        assert(d[d.len() - 1] == s[s.len() - 1]);
        lemma_sequence_tail(d);
    }
}

/// A complete escape sequence strips to nothing.
proof fn lemma_escape_strips(s: Seq<char>)
    requires
        is_escape(s),
    ensures
        strips_to(s, Seq::empty()),
{
    let d = s.drop_first();
    assert forall|i: int| 0 <= i < d.len() - 1 implies d[i] != 'm' by {
        assert(d[i] == s[i + 1]);
    }
    assert(d[d.len() - 1] == s[s.len() - 1]);
    lemma_sequence_tail(d);
}

/// The sequences of the colour palette are complete escape sequences.
proof fn lemma_ansi_sequences()
    ensures
        is_escape(ansi_prefix(TextStyle::Bold)),
        is_escape(ansi_prefix(TextStyle::GreenBold)),
        is_escape(ansi_prefix(TextStyle::RedBold)),
        is_escape(ansi_prefix(TextStyle::Cyan)),
        is_escape(ansi_prefix(TextStyle::Yellow)),
        is_escape(ansi_reset()),
{
    reveal_strlit("\u{1b}[1m");
    reveal_strlit("\u{1b}[1;32m");
    reveal_strlit("\u{1b}[1;31m");
    reveal_strlit("\u{1b}[36m");
    reveal_strlit("\u{1b}[33m");
    reveal_strlit("\u{1b}[0m");
}

/// A piece painted with a colour of the palette strips to the same piece
/// painted without colour.
proof fn lemma_painted_strips(p: (Seq<char>, Seq<char>), t: Seq<char>)
    requires
        is_escape(p.0),
        is_escape(p.1),
        no_escape(t),
    ensures
        strips_to(painted(p, t), painted((Seq::empty(), Seq::empty()), t)),
{
    lemma_escape_strips(p.0);
    lemma_escape_strips(p.1);
    lemma_plain_strips(t);
    lemma_strips_concat(p.0, Seq::empty(), t, t);
    lemma_strips_concat(p.0 + t, Seq::empty() + t, p.1, Seq::empty());
    assert(Seq::<char>::empty() + t + Seq::<char>::empty() =~= t);
    assert(Seq::<char>::empty() + t =~= t);
}

/// Appending text without escape characters keeps a stripping relation.
proof fn lemma_then_plain(a: Seq<char>, b: Seq<char>, t: Seq<char>)
    requires
        strips_to(a, b),
        no_escape(t),
    ensures
        strips_to(a + t, b + t),
{
    lemma_plain_strips(t);
    lemma_strips_concat(a, b, t, t);
}

/// Appending a painted piece keeps a stripping relation, the coloured side
/// with its escape sequences and the plain side without.
proof fn lemma_then_painted(a: Seq<char>, b: Seq<char>, p: (Seq<char>, Seq<char>), t: Seq<char>)
    requires
        strips_to(a, b),
        is_escape(p.0),
        is_escape(p.1),
        no_escape(t),
    ensures
        strips_to(a + painted(p, t), b + painted((Seq::empty(), Seq::empty()), t)),
{
    lemma_painted_strips(p, t);
    lemma_strips_concat(a, b, painted(p, t), painted((Seq::empty(), Seq::empty()), t));
}

proof fn lemma_concat_free(a: Seq<char>, b: Seq<char>)
    requires
        no_escape(a),
        no_escape(b),
    ensures
        no_escape(a + b),
{
    assert forall|i: int| 0 <= i < (a + b).len() implies (a + b)[i] != esc() by {
        if i < a.len() {
            assert((a + b)[i] == a[i]);
        } else {
            assert((a + b)[i] == b[i - a.len()]);
        }
    }
}

proof fn lemma_subrange_free(s: Seq<char>, i: int, j: int)
    requires
        no_escape(s),
        0 <= i <= j <= s.len(),
    ensures
        no_escape(s.subrange(i, j)),
{
    assert forall|k: int| 0 <= k < s.subrange(i, j).len() implies s.subrange(i, j)[k] != esc() by {
        assert(s.subrange(i, j)[k] == s[i + k]);
    }
}

proof fn lemma_repeat_free(unit: Seq<char>, n: nat)
    requires
        no_escape(unit),
    ensures
        no_escape(repeat(unit, n)),
    decreases n,
{
    if n > 0 {
        lemma_repeat_free(unit, (n - 1) as nat);
        lemma_concat_free(repeat(unit, (n - 1) as nat), unit);
    }
}

proof fn lemma_decimal_free(n: nat)
    ensures
        no_escape(decimal(n)),
    decreases n,
{
    if n >= 10 {
        lemma_decimal_free(n / 10);
        let d = decimal(n / 10);
        assert forall|i: int| 0 <= i < decimal(n).len() implies decimal(n)[i] != esc() by {
            if i < d.len() {
                assert(decimal(n)[i] == d[i]);
            }
        }
    }
}

proof fn lemma_gas_free(g: nat)
    ensures
        no_escape(gas_text(g)),
{
    assert forall|d: nat| #[trigger] no_escape(one_decimal(d)) by {
        lemma_decimal_free(d / 10);
        lemma_concat_free(decimal(d / 10), seq!['.', crate::text::decimal_digit(d % 10)]);
    }
    assert forall|d: nat| #[trigger] no_escape(two_decimals(d)) by {
        lemma_decimal_free(d / 100);
        lemma_concat_free(
            decimal(d / 100),
            seq!['.', crate::text::decimal_digit((d % 100) / 10), crate::text::decimal_digit(d % 10)],
        );
    }
    assert forall|x: Seq<char>, c: char| no_escape(x) && c != esc() implies #[trigger] no_escape(x + seq![c]) by {
        lemma_concat_free(x, seq![c]);
    }
    lemma_decimal_free(g);
}

proof fn lemma_address_free(addr: Seq<u8>)
    ensures
        no_escape(address_text(addr)),
        no_escape(full_address_text(addr)),
{
    reveal(address_text);
    reveal_strlit("...");
    let h = seq!['0', 'x'] + hex_lower(addr);
    lemma_concat_free(seq!['0', 'x'], hex_lower(addr));
    if h.len() > 12 {
        lemma_subrange_free(h, 0, 6);
        lemma_subrange_free(h, h.len() - 4, h.len() as int);
        lemma_concat_free(h.subrange(0, 6), "..."@);
        lemma_concat_free(h.subrange(0, 6) + "..."@, h.subrange(h.len() - 4, h.len() as int));
    }
}

proof fn lemma_tx_short_free(hash: Seq<u8>)
    requires
        hash.len() == 32,
    ensures
        no_escape(tx_short_text(hash)),
{
    reveal_strlit("...");
    let h = hex_lower(hash);
    lemma_subrange_free(h, 0, 6);
    lemma_subrange_free(h, 58, 64);
    lemma_concat_free(seq!['0', 'x'], h.subrange(0, 6));
    lemma_concat_free(seq!['0', 'x'] + h.subrange(0, 6), "..."@);
    lemma_concat_free(seq!['0', 'x'] + h.subrange(0, 6) + "..."@, h.subrange(58, 64));
}

/// The fixed words of the trace hold no escape character.
proof fn lemma_words_free()
    ensures
        no_escape("Transaction "@),
        no_escape(" (gas: "@),
        no_escape("  (no call trace available)\n"@),
        no_escape("Call Stack:"@),
        no_escape("SUCCESS"@),
        no_escape("REVERTED"@),
        no_escape("REVERT:"@),
        no_escape("Revert Reason:"@),
        no_escape("+-- "@),
        no_escape("[delegatecall] "@),
        no_escape("[staticcall] "@),
        no_escape("[create] "@),
        no_escape("???"@),
        no_escape(", "@),
        no_escape("    at "@),
        no_escape("    "@),
        no_escape(" <- REVERT"@),
        no_escape(" ["@),
        no_escape(" | gas: "@),
        no_escape(" | selector: "@),
{
    reveal_strlit("Transaction ");
    reveal_strlit(" (gas: ");
    reveal_strlit("  (no call trace available)\n");
    reveal_strlit("Call Stack:");
    reveal_strlit("SUCCESS");
    reveal_strlit("REVERTED");
    reveal_strlit("REVERT:");
    reveal_strlit("Revert Reason:");
    reveal_strlit("+-- ");
    reveal_strlit("[delegatecall] ");
    reveal_strlit("[staticcall] ");
    reveal_strlit("[create] ");
    reveal_strlit("???");
    reveal_strlit(", ");
    reveal_strlit("    at ");
    reveal_strlit("    ");
    reveal_strlit(" <- REVERT");
    reveal_strlit(" [");
    reveal_strlit(" | gas: ");
    reveal_strlit(" | selector: ");
}

/// An optional text holds no escape character.
pub open spec fn opt_free(t: Option<String>) -> bool {
    match t {
        Some(x) => no_escape(x@),
        None => true,
    }
}

/// The texts that a frame itself carries (names, arguments, selector,
/// revert reason, source file) hold no escape character.
pub open spec fn own_texts_free(f: StackFrame) -> bool {
    &&& opt_free(f.contract_name)
    &&& opt_free(f.function_name)
    &&& opt_free(f.selector)
    &&& opt_free(f.revert_reason)
    &&& forall|k: int|
        0 <= k < f.function_args@.len() ==> no_escape((#[trigger] f.function_args@[k]).0@) && no_escape(
            f.function_args@[k].1@,
        )
    &&& match f.source_location {
        Some(loc) => no_escape(loc.file@),
        None => true,
    }
}

/// No text carried by `f` or by any frame under it holds an escape
/// character.
pub open spec fn frame_free_of_escapes(f: StackFrame) -> bool
    decreases f,
{
    &&& own_texts_free(f)
    &&& forall|k: int| 0 <= k < f.children@.len() ==> frame_free_of_escapes(#[trigger] f.children@[k])
}

/// No text carried by the session (its revert reason and its frames) holds
/// an escape character.
pub open spec fn session_free_of_escapes(s: DebugSession) -> bool {
    &&& opt_free(s.revert_reason)
    &&& forall|k: int| 0 <= k < s.call_stack@.len() ==> frame_free_of_escapes(#[trigger] s.call_stack@[k])
}

proof fn lemma_args_free(args: Seq<(String, String)>)
    requires
        forall|k: int| 0 <= k < args.len() ==> no_escape((#[trigger] args[k]).0@) && no_escape(args[k].1@),
    ensures
        no_escape(args_text(args)),
    decreases args.len(),
{
    if args.len() == 1 {
        let a = args[0];
        lemma_concat_free(a.0@, seq!['=']);
        lemma_concat_free(a.0@ + seq!['='], a.1@);
    } else if args.len() > 1 {
        lemma_words_free();
        let a = args.last();
        assert(no_escape(a.0@) && no_escape(a.1@)) by {
            assert(a == args[args.len() - 1]);
        }
        lemma_args_free(args.drop_last());
        lemma_concat_free(a.0@, seq!['=']);
        lemma_concat_free(a.0@ + seq!['='], a.1@);
        lemma_concat_free(args_text(args.drop_last()), ", "@);
        lemma_concat_free(args_text(args.drop_last()) + ", "@, crate::trace_fmt::arg_text(a));
    }
}

proof fn lemma_head_strips(f: StackFrame, indent: nat, is_root: bool)
    requires
        own_texts_free(f),
    ensures
        strips_to(call_head(f, indent, is_root, ansi_palette()), call_head(f, indent, is_root, plain_palette())),
{
    let a = ansi_palette();
    lemma_ansi_sequences();
    lemma_words_free();
    lemma_repeat_free(seq![' ', ' '], indent);
    lemma_repeat_free(seq![' ', ' '], (indent - 1) as nat);
    lemma_concat_free(repeat(seq![' ', ' '], (indent - 1) as nat), "+-- "@);
    let start = line_start(indent, is_root) + kind_marker(f.kind);
    lemma_concat_free(line_start(indent, is_root), kind_marker(f.kind));
    lemma_plain_strips(start);
    lemma_address_free(f.address@);
    lemma_then_painted(start, start, a.contract, contract_label(f));
    let c = painted((Seq::empty(), Seq::empty()), contract_label(f));
    lemma_then_plain(start + painted(a.contract, contract_label(f)), start + c, seq!['.']);
    lemma_then_painted(
        start + painted(a.contract, contract_label(f)) + seq!['.'],
        start + c + seq!['.'],
        a.function,
        function_label(f),
    );
    let fnp = painted((Seq::empty(), Seq::empty()), function_label(f));
    lemma_args_free(f.function_args@);
    lemma_concat_free(seq!['('], args_text(f.function_args@));
    lemma_concat_free(seq!['('] + args_text(f.function_args@), seq![')']);
    let tail = seq!['('] + args_text(f.function_args@) + seq![')'];
    lemma_then_plain(
        start + painted(a.contract, contract_label(f)) + seq!['.'] + painted(a.function, function_label(f)),
        start + c + seq!['.'] + fnp,
        tail,
    );
    assert(call_head(f, indent, is_root, a) =~= start + painted(a.contract, contract_label(f)) + seq!['.']
        + painted(a.function, function_label(f)) + tail);
    assert(call_head(f, indent, is_root, plain_palette()) =~= start + c + seq!['.'] + fnp + tail);
}

proof fn lemma_details_free(f: StackFrame, verbose: u8)
    requires
        own_texts_free(f),
    ensures
        no_escape(details_text(f, verbose)),
{
    if verbose > 0 {
        lemma_words_free();
        lemma_address_free(f.address@);
        lemma_gas_free(f.gas_used as nat);
        let addr = if verbose >= 2 {
            full_address_text(f.address@)
        } else {
            address_text(f.address@)
        };
        let sel = if verbose >= 2 {
            match f.selector {
                Some(sel) => " | selector: "@ + sel@,
                None => Seq::empty(),
            }
        } else {
            Seq::empty()
        };
        match f.selector {
            Some(x) => lemma_concat_free(" | selector: "@, x@),
            None => {},
        }
        assert(no_escape(sel));
        lemma_concat_free(" ["@, addr);
        lemma_concat_free(" ["@ + addr, " | gas: "@);
        lemma_concat_free(" ["@ + addr + " | gas: "@, gas_text(f.gas_used as nat));
        lemma_concat_free(" ["@ + addr + " | gas: "@ + gas_text(f.gas_used as nat), sel);
        lemma_concat_free(" ["@ + addr + " | gas: "@ + gas_text(f.gas_used as nat) + sel, seq![']']);
    }
}

proof fn lemma_line_strips(f: StackFrame, indent: nat, is_root: bool, verbose: u8)
    requires
        own_texts_free(f),
    ensures
        strips_to(call_line(f, indent, is_root, ansi_palette(), verbose), call_line(f, indent, is_root, plain_palette(), verbose)),
{
    lemma_words_free();
    lemma_head_strips(f, indent, is_root);
    lemma_details_free(f, verbose);
    let ha = call_head(f, indent, is_root, ansi_palette());
    let hp = call_head(f, indent, is_root, plain_palette());
    lemma_then_plain(ha, hp, details_text(f, verbose));
    lemma_then_plain(ha + details_text(f, verbose), hp + details_text(f, verbose), revert_marker(f));
    lemma_then_plain(
        ha + details_text(f, verbose) + revert_marker(f),
        hp + details_text(f, verbose) + revert_marker(f),
        seq!['\n'],
    );
}

proof fn lemma_location_free(f: StackFrame, indent: nat)
    requires
        own_texts_free(f),
    ensures
        no_escape(location_line(f, indent)),
{
    match f.source_location {
        Some(loc) => {
            lemma_words_free();
            lemma_repeat_free(seq![' ', ' '], indent);
            lemma_decimal_free(loc.line as nat);
            lemma_decimal_free(loc.column as nat);
            let r = repeat(seq![' ', ' '], indent);
            lemma_concat_free(r, "    at "@);
            lemma_concat_free(r + "    at "@, loc.file@);
            lemma_concat_free(r + "    at "@ + loc.file@, seq![':']);
            lemma_concat_free(r + "    at "@ + loc.file@ + seq![':'], decimal(loc.line as nat));
            lemma_concat_free(r + "    at "@ + loc.file@ + seq![':'] + decimal(loc.line as nat), seq![':']);
            lemma_concat_free(
                r + "    at "@ + loc.file@ + seq![':'] + decimal(loc.line as nat) + seq![':'],
                decimal(loc.column as nat),
            );
            lemma_concat_free(
                r + "    at "@ + loc.file@ + seq![':'] + decimal(loc.line as nat) + seq![':'] + decimal(
                    loc.column as nat,
                ),
                seq!['\n'],
            );
        },
        None => {},
    }
}

proof fn lemma_revert_line_strips(f: StackFrame, indent: nat)
    requires
        own_texts_free(f),
    ensures
        strips_to(revert_line(f, indent, ansi_palette()), revert_line(f, indent, plain_palette())),
{
    lemma_plain_strips(Seq::empty());
    if !f.success && !crate::trace_fmt::some_child_failed(f) {
        match f.revert_reason {
            Some(reason) => {
                lemma_ansi_sequences();
                lemma_words_free();
                lemma_repeat_free(seq![' ', ' '], indent);
                let r = repeat(seq![' ', ' '], indent) + "    "@;
                lemma_concat_free(repeat(seq![' ', ' '], indent), "    "@);
                lemma_plain_strips(r);
                let a = ansi_palette();
                lemma_then_painted(r, r, a.failure, "REVERT:"@);
                let p = painted((Seq::empty(), Seq::empty()), "REVERT:"@);
                lemma_then_plain(r + painted(a.failure, "REVERT:"@), r + p, seq![' ']);
                lemma_then_plain(r + painted(a.failure, "REVERT:"@) + seq![' '], r + p + seq![' '], reason@);
                lemma_then_plain(
                    r + painted(a.failure, "REVERT:"@) + seq![' '] + reason@,
                    r + p + seq![' '] + reason@,
                    seq!['\n'],
                );
            },
            None => {},
        }
    }
}

proof fn lemma_frame_strips(f: StackFrame, indent: nat, is_root: bool, verbose: u8)
    requires
        frame_free_of_escapes(f),
    ensures
        strips_to(
            frame_text(f, indent, is_root, ansi_palette(), verbose),
            frame_text(f, indent, is_root, plain_palette(), verbose),
        ),
    decreases f,
{
    let a = ansi_palette();
    let p = plain_palette();
    lemma_line_strips(f, indent, is_root, verbose);
    lemma_location_free(f, indent);
    lemma_then_plain(call_line(f, indent, is_root, a, verbose), call_line(f, indent, is_root, p, verbose), location_line(f, indent));
    lemma_revert_line_strips(f, indent);
    lemma_strips_concat(
        call_line(f, indent, is_root, a, verbose) + location_line(f, indent),
        call_line(f, indent, is_root, p, verbose) + location_line(f, indent),
        revert_line(f, indent, a),
        revert_line(f, indent, p),
    );
    lemma_forest_strips(f.children@, indent + 1, false, verbose);
    lemma_strips_concat(
        call_line(f, indent, is_root, a, verbose) + location_line(f, indent) + revert_line(f, indent, a),
        call_line(f, indent, is_root, p, verbose) + location_line(f, indent) + revert_line(f, indent, p),
        forest_text(f.children@, indent + 1, false, a, verbose),
        forest_text(f.children@, indent + 1, false, p, verbose),
    );
}

proof fn lemma_forest_strips(cs: Seq<StackFrame>, indent: nat, is_root: bool, verbose: u8)
    requires
        forall|k: int| 0 <= k < cs.len() ==> frame_free_of_escapes(#[trigger] cs[k]),
    ensures
        strips_to(
            forest_text(cs, indent, is_root, ansi_palette(), verbose),
            forest_text(cs, indent, is_root, plain_palette(), verbose),
        ),
    decreases cs,
{
    if cs.len() == 0 {
        lemma_plain_strips(Seq::empty());
    } else {
        assert(frame_free_of_escapes(cs[cs.len() - 1]));
        lemma_forest_strips(cs.drop_last(), indent, is_root, verbose);
        lemma_frame_strips(cs.last(), indent, is_root, verbose);
        lemma_strips_concat(
            forest_text(cs.drop_last(), indent, is_root, ansi_palette(), verbose),
            forest_text(cs.drop_last(), indent, is_root, plain_palette(), verbose),
            frame_text(cs.last(), indent, is_root, ansi_palette(), verbose),
            frame_text(cs.last(), indent, is_root, plain_palette(), verbose),
        );
    }
}

/// The plain text of a frame (and of the calls under it) is its coloured
/// text with the ANSI escape sequences taken out, when the frame's own
/// texts hold no escape character.
pub proof fn lemma_plain_frame_is_stripped(f: StackFrame, indent: nat, is_root: bool, verbose: u8)
    requires
        frame_free_of_escapes(f),
    ensures
        strip_ansi(frame_text(f, indent, is_root, ansi_palette(), verbose)) == frame_text(
            f,
            indent,
            is_root,
            plain_palette(),
            verbose,
        ),
{
    lemma_frame_strips(f, indent, is_root, verbose);
}

proof fn lemma_header_strips(s: DebugSession)
    ensures
        strips_to(header_text(s, ansi_palette()), header_text(s, plain_palette())),
{
    let a = ansi_palette();
    let e = painted((Seq::<char>::empty(), Seq::<char>::empty()), tx_short_text(s.tx_hash@));
    lemma_ansi_sequences();
    lemma_words_free();
    lemma_tx_short_free(s.tx_hash@);
    lemma_gas_free(s.gas_used as nat);
    lemma_plain_strips("Transaction "@);
    lemma_then_painted("Transaction "@, "Transaction "@, a.emphasis, tx_short_text(s.tx_hash@));
    let x = "Transaction "@ + painted(a.emphasis, tx_short_text(s.tx_hash@));
    let y = "Transaction "@ + e;
    lemma_then_plain(x, y, seq![' ']);
    let (sa, sp) = if s.success {
        lemma_then_painted(x + seq![' '], y + seq![' '], a.success, "SUCCESS"@);
        (painted(a.success, "SUCCESS"@), painted((Seq::<char>::empty(), Seq::<char>::empty()), "SUCCESS"@))
    } else {
        lemma_then_painted(x + seq![' '], y + seq![' '], a.failure, "REVERTED"@);
        (painted(a.failure, "REVERTED"@), painted((Seq::<char>::empty(), Seq::<char>::empty()), "REVERTED"@))
    };
    lemma_then_plain(x + seq![' '] + sa, y + seq![' '] + sp, " (gas: "@);
    lemma_then_plain(x + seq![' '] + sa + " (gas: "@, y + seq![' '] + sp + " (gas: "@, gas_text(s.gas_used as nat));
    lemma_then_plain(
        x + seq![' '] + sa + " (gas: "@ + gas_text(s.gas_used as nat),
        y + seq![' '] + sp + " (gas: "@ + gas_text(s.gas_used as nat),
        seq![')', '\n', '\n'],
    );
}

proof fn lemma_stack_strips(s: DebugSession, verbose: u8)
    requires
        session_free_of_escapes(s),
    ensures
        strips_to(stack_text(s, ansi_palette(), verbose), stack_text(s, plain_palette(), verbose)),
{
    lemma_words_free();
    if s.call_stack@.len() == 0 {
        lemma_plain_strips("  (no call trace available)\n"@);
    } else {
        let a = ansi_palette();
        lemma_ansi_sequences();
        lemma_plain_strips(Seq::empty());
        lemma_then_painted(Seq::empty(), Seq::empty(), a.emphasis, "Call Stack:"@);
        assert(Seq::<char>::empty() + painted(a.emphasis, "Call Stack:"@) =~= painted(a.emphasis, "Call Stack:"@));
        let p = painted((Seq::<char>::empty(), Seq::<char>::empty()), "Call Stack:"@);
        assert(Seq::<char>::empty() + p =~= p);
        lemma_then_plain(painted(a.emphasis, "Call Stack:"@), p, seq!['\n']);
        lemma_forest_strips(s.call_stack@, 1, true, verbose);
        lemma_strips_concat(
            painted(a.emphasis, "Call Stack:"@) + seq!['\n'],
            p + seq!['\n'],
            forest_text(s.call_stack@, 1, true, a, verbose),
            forest_text(s.call_stack@, 1, true, plain_palette(), verbose),
        );
    }
}

proof fn lemma_summary_strips(s: DebugSession)
    requires
        opt_free(s.revert_reason),
    ensures
        strips_to(summary_text(s, ansi_palette()), summary_text(s, plain_palette())),
{
    match s.revert_reason {
        Some(reason) => {
            let a = ansi_palette();
            lemma_ansi_sequences();
            lemma_words_free();
            lemma_plain_strips(seq!['\n']);
            lemma_then_painted(seq!['\n'], seq!['\n'], a.failure, "Revert Reason:"@);
            let p = painted((Seq::<char>::empty(), Seq::<char>::empty()), "Revert Reason:"@);
            let x = seq!['\n'] + painted(a.failure, "Revert Reason:"@);
            lemma_then_plain(x, seq!['\n'] + p, seq![' ']);
            lemma_then_plain(x + seq![' '], seq!['\n'] + p + seq![' '], reason@);
            lemma_then_plain(x + seq![' '] + reason@, seq!['\n'] + p + seq![' '] + reason@, seq!['\n']);
        },
        None => {
            lemma_plain_strips(Seq::empty());
        },
    }
}

/// The plain trace is the coloured trace with its ANSI escape sequences
/// taken out, at every verbosity level, when no text carried by the session
/// (names, arguments, selectors, revert reasons, source files) holds an
/// escape character itself.
pub proof fn lemma_plain_trace_is_stripped(s: DebugSession, verbose: u8)
    requires
        session_free_of_escapes(s),
    ensures
        strip_ansi(trace_text(s, ansi_palette(), verbose)) == trace_text(s, plain_palette(), verbose),
{
    lemma_header_strips(s);
    lemma_stack_strips(s, verbose);
    lemma_summary_strips(s);
    lemma_strips_concat(
        header_text(s, ansi_palette()),
        header_text(s, plain_palette()),
        stack_text(s, ansi_palette(), verbose),
        stack_text(s, plain_palette(), verbose),
    );
    lemma_strips_concat(
        header_text(s, ansi_palette()) + stack_text(s, ansi_palette(), verbose),
        header_text(s, plain_palette()) + stack_text(s, plain_palette(), verbose),
        summary_text(s, ansi_palette()),
        summary_text(s, plain_palette()),
    );
}

} // verus!
