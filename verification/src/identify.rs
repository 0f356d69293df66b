//! Identification of contracts by function selectors: an address whose
//! bytecode matched no known artifact (a proxy, say) is given the known
//! contract whose ABI has the selector of a call made to it, preferring the
//! ABI that covers the most distinct selectors used at that address.

use vstd::prelude::*;
use vstd::utf8::encode_utf8;
use crate::replay::{distinct_nonzero, note_address};
use crate::types::{CallTrace, CallTraceNode};

verus! {

broadcast use vstd::set::group_set_axioms, vstd::seq_lib::group_seq_properties;

/// A contract of the project: its name and the signatures of the functions
/// of its ABI (e.g. `transfer(address,uint256)`), in ABI order.
pub struct KnownContract {
    pub name: String,
    pub function_signatures: Vec<String>,
}

/// The Keccak-256 digest of `data`.
pub uninterp spec fn keccak256_digest(data: Seq<u8>) -> Seq<u8>;

/// `alloy_primitives::keccak256`: the 32-byte Keccak-256 digest of `data`.
#[verifier::external_body]
fn keccak256(data: &[u8]) -> (r: [u8; 32])
    ensures
        r@ == keccak256_digest(data@),
{
    alloy_primitives::keccak256(data).0
}

/// The first four bytes of `b` as a big-endian number.
pub open spec fn word(b: Seq<u8>) -> u32 {
    (b[0] as int * 0x100_0000 + b[1] as int * 0x1_0000 + b[2] as int * 0x100 + b[3] as int) as u32
}

/// The selector of a function signature: the first four bytes of the
/// Keccak-256 digest of its UTF-8 encoding.
pub open spec fn selector_of(signature: Seq<char>) -> u32 {
    word(keccak256_digest(encode_utf8(signature)))
}

/// The selector in the call data of a call (its first four bytes).
pub open spec fn call_selector(t: CallTrace) -> u32 {
    word(t.data@)
}

fn word_of(b0: u8, b1: u8, b2: u8, b3: u8) -> (r: u32)
    ensures
        r == word(seq![b0, b1, b2, b3]),
{
    (b0 as u32) * 0x100_0000 + (b1 as u32) * 0x1_0000 + (b2 as u32) * 0x100 + (b3 as u32)
}

/// The selector that a Keccak-256 digest gives: its first four bytes as a
/// big-endian number.
pub fn selector_from_digest(digest: &[u8; 32]) -> (r: u32)
    ensures
        r == word(digest@),
        r as int == digest@[0] as int * 0x100_0000 + digest@[1] as int * 0x1_0000 + digest@[2] as int * 0x100
            + digest@[3] as int,
{
    let r = word_of(digest[0], digest[1], digest[2], digest[3]);
    assert(word(seq![digest[0], digest[1], digest[2], digest[3]]) == word(digest@));
    r
}

/// The 4-byte selector of a function signature, as a big-endian number
/// (`transfer(address,uint256)` -> `0xa9059cbb`).
pub fn function_selector(signature: &str) -> (r: u32)
    ensures
        r == selector_of(signature@),
{
    let h = keccak256(signature.as_bytes());
    selector_from_digest(&h)
}

/// The selectors of the functions of an ABI.
pub open spec fn abi_selectors(signatures: Seq<String>) -> Set<u32> {
    Set::new(|s: u32| exists|f: int| 0 <= f < signatures.len() && selector_of(#[trigger] signatures[f]@) == s)
}

/// `table` holds, for each known contract, the selectors of its functions in
/// order.
pub open spec fn selector_table(table: Seq<Vec<u32>>, known: Seq<KnownContract>) -> bool {
    &&& table.len() == known.len()
    &&& forall|k: int|
        #![trigger table[k]]
        0 <= k < table.len() ==> table[k]@.len() == known[k].function_signatures@.len() && forall|f: int|
            0 <= f < table[k]@.len() ==> #[trigger] table[k]@[f] == selector_of(
                known[k].function_signatures@[f]@,
            )
}

fn selectors_of(signatures: &Vec<String>) -> (r: Vec<u32>)
    ensures
        r@.len() == signatures@.len(),
        forall|f: int| 0 <= f < r@.len() ==> #[trigger] r@[f] == selector_of(signatures@[f]@),
{
    let mut r: Vec<u32> = Vec::new();
    let mut f: usize = 0;
    while f < signatures.len()
        invariant
            f <= signatures@.len(),
            r@.len() == f,
            forall|g: int| 0 <= g < f ==> #[trigger] r@[g] == selector_of(signatures@[g]@),
        decreases signatures.len() - f,
    {
        r.push(function_selector(signatures[f].as_str()));
        f = f + 1;
    }
    r
}

fn build_selector_table(known: &Vec<KnownContract>) -> (t: Vec<Vec<u32>>)
    ensures
        selector_table(t@, known@),
{
    let mut t: Vec<Vec<u32>> = Vec::new();
    let mut k: usize = 0;
    while k < known.len()
        invariant
            k <= known@.len(),
            t@.len() == k,
            forall|j: int|
                #![trigger t@[j]]
                0 <= j < k ==> t@[j]@.len() == known@[j].function_signatures@.len() && forall|f: int|
                    0 <= f < t@[j]@.len() ==> #[trigger] t@[j]@[f] == selector_of(
                        known@[j].function_signatures@[f]@,
                    ),
        decreases known.len() - k,
    {
        let row = selectors_of(&known[k].function_signatures);
        t.push(row);
        k = k + 1;
    }
    t
}

/// A row of the table holds exactly the selectors of the contract's ABI.
proof fn lemma_row_selectors(row: Seq<u32>, signatures: Seq<String>)
    requires
        row.len() == signatures.len(),
        forall|f: int| 0 <= f < row.len() ==> #[trigger] row[f] == selector_of(signatures[f]@),
    ensures
        row.to_set() == abi_selectors(signatures),
{
    assert forall|s: u32| row.to_set().contains(s) <==> abi_selectors(signatures).contains(s) by {
        if row.to_set().contains(s) {
            let f = choose|f: int| 0 <= f < row.len() && row[f] == s;
            assert(selector_of(signatures[f]@) == s);
        }
        if abi_selectors(signatures).contains(s) {
            let f = choose|f: int| 0 <= f < signatures.len() && selector_of(#[trigger] signatures[f]@) == s;
            assert(row[f] == s);
        }
    }
    assert(row.to_set() =~= abi_selectors(signatures));
}

/// The calls of the arena, in arena order.
pub open spec fn arena_calls(arena: Seq<CallTraceNode>) -> Seq<CallTrace> {
    arena.map_values(|n: CallTraceNode| n.trace)
}

/// All calls of all arenas, arena after arena.
pub open spec fn flat_calls(traces: Seq<Vec<CallTraceNode>>) -> Seq<CallTrace>
    decreases traces.len(),
{
    if traces.len() == 0 {
        Seq::empty()
    } else {
        flat_calls(traces.drop_last()) + arena_calls(traces.last()@)
    }
}

/// The calls behind a sequence of references.
pub open spec fn deref_calls(calls: Seq<&CallTrace>) -> Seq<CallTrace> {
    calls.map_values(|c: &CallTrace| *c)
}

fn flatten<'a>(traces: &'a Vec<Vec<CallTraceNode>>) -> (calls: Vec<&'a CallTrace>)
    ensures
        deref_calls(calls@) == flat_calls(traces@),
{
    let mut calls: Vec<&'a CallTrace> = Vec::new();
    let mut a: usize = 0;
    assert(traces@.take(0) =~= Seq::<Vec<CallTraceNode>>::empty());
    assert(deref_calls(calls@) =~= flat_calls(traces@.take(0)));
    while a < traces.len()
        invariant
            a <= traces@.len(),
            deref_calls(calls@) == flat_calls(traces@.take(a as int)),
        decreases traces.len() - a,
    {
        let arena = &traces[a];
        let ghost start = deref_calls(calls@);
        let mut n: usize = 0;
        while n < arena.len()
            invariant
                n <= arena@.len(),
                deref_calls(calls@) == start + arena_calls(arena@.take(n as int)),
            decreases arena.len() - n,
        {
            let ghost before = calls@;
            calls.push(&arena[n].trace);
            proof {
                assert(deref_calls(calls@) =~= deref_calls(before).push(arena@[n as int].trace));
                assert(arena_calls(arena@.take(n + 1)) =~= arena_calls(arena@.take(n as int)).push(
                    arena@[n as int].trace,
                ));
            }
            n = n + 1;
            assert(deref_calls(calls@) =~= start + arena_calls(arena@.take(n as int)));
        }
        proof {
            assert(arena@.take(arena@.len() as int) =~= arena@);
            assert(traces@.take(a + 1).drop_last() =~= traces@.take(a as int));
        }
        a = a + 1;
    }
    assert(traces@.take(traces@.len() as int) =~= traces@);
    calls
}

pub(crate) fn same_address(a: &[u8; 20], b: &[u8; 20]) -> (r: bool)
    ensures
        r == (a@ == b@),
{
    let mut i: usize = 0;
    while i < 20
        invariant
            i <= 20,
            forall|j: int| 0 <= j < i ==> a@[j] == b@[j],
        decreases 20 - i,
    {
        if a[i] != b[i] {
            return false;
        }
        i = i + 1;
    }
    assert(a@ =~= b@);
    true
}

/// An address of twenty zero bytes.
pub open spec fn is_zero_address(a: Seq<u8>) -> bool {
    forall|i: int| 0 <= i < a.len() ==> a[i] == 0
}

pub(crate) fn is_zero(a: &[u8; 20]) -> (r: bool)
    ensures
        r == is_zero_address(a@),
{
    let mut i: usize = 0;
    while i < 20
        invariant
            i <= 20,
            forall|j: int| 0 <= j < i ==> a@[j] == 0,
        decreases 20 - i,
    {
        if a[i] != 0 {
            return false;
        }
        i = i + 1;
    }
    true
}

/// The distinct selectors of the calls made to `addr` with at least four
/// bytes of call data.
pub open spec fn selectors_used_at(calls: Seq<CallTrace>, addr: Seq<u8>) -> Set<u32> {
    Set::new(
        |s: u32|
            exists|i: int|
                0 <= i < calls.len() && (#[trigger] calls[i]).address@ == addr && calls[i].data@.len() >= 4
                    && call_selector(calls[i]) == s,
    )
}

fn contains_word(v: &Vec<u32>, x: u32) -> (r: bool)
    ensures
        r == v@.contains(x),
{
    let mut i: usize = 0;
    while i < v.len()
        invariant
            i <= v@.len(),
            forall|j: int| 0 <= j < i ==> v@[j] != x,
        decreases v.len() - i,
    {
        if v[i] == x {
            return true;
        }
        i = i + 1;
    }
    false
}

fn selectors_at(calls: &Vec<&CallTrace>, addr: &[u8; 20]) -> (used: Vec<u32>)
    ensures
        used@.no_duplicates(),
        used@.to_set() == selectors_used_at(deref_calls(calls@), addr@),
{
    let ghost all = deref_calls(calls@);
    let mut used: Vec<u32> = Vec::new();
    let mut i: usize = 0;
    assert(used@.to_set() =~= selectors_used_at(all.take(0), addr@));
    while i < calls.len()
        invariant
            i <= calls@.len(),
            all == deref_calls(calls@),
            used@.no_duplicates(),
            used@.to_set() == selectors_used_at(all.take(i as int), addr@),
        decreases calls.len() - i,
    {
        let t = calls[i];
        let ghost before = used@;
        if same_address(&t.address, addr) && t.data.len() >= 4 {
            let s = word_of(t.data[0], t.data[1], t.data[2], t.data[3]);
            assert(s == call_selector(*t));
            if !contains_word(&used, s) {
                used.push(s);
            }
        }
        proof {
            let prev = all.take(i as int);
            let next = all.take(i + 1);
            assert(next[i as int] == *t);
            assert forall|s: u32| used@.to_set().contains(s) <==> selectors_used_at(next, addr@).contains(s) by {
                if selectors_used_at(next, addr@).contains(s) {
                    let j = choose|j: int|
                        0 <= j < next.len() && (#[trigger] next[j]).address@ == addr@ && next[j].data@.len() >= 4
                            && call_selector(next[j]) == s;
                    if j < i {
                        assert(prev[j] == next[j]);
                        assert(selectors_used_at(prev, addr@).contains(s));
                        assert(before.contains(s));
                    }
                }
                if before.contains(s) {
                    assert(selectors_used_at(prev, addr@).contains(s));
                    let j = choose|j: int|
                        0 <= j < prev.len() && (#[trigger] prev[j]).address@ == addr@ && prev[j].data@.len() >= 4
                            && call_selector(prev[j]) == s;
                    assert(next[j] == prev[j]);
                }
            }
            assert(used@.to_set() =~= selectors_used_at(next, addr@));
        }
        i = i + 1;
    }
    assert(all.take(calls@.len() as int) =~= all);
    used
}

/// Whether the ABI of known contract `k` has a function with selector `sel`.
pub open spec fn has_selector(known: Seq<KnownContract>, k: int, sel: u32) -> bool {
    abi_selectors(known[k].function_signatures@).contains(sel)
}

/// How many distinct selectors used at `addr` the ABI of contract `k` has.
pub open spec fn abi_score(calls: Seq<CallTrace>, addr: Seq<u8>, known: Seq<KnownContract>, k: int) -> nat {
    selectors_used_at(calls, addr).intersect(abi_selectors(known[k].function_signatures@)).len()
}

/// Contract `k` is the best match for a call with selector `sel` at `addr`:
/// its ABI has the selector, no other such contract scores higher, and the
/// ones before it score lower.
pub open spec fn is_best_match(
    calls: Seq<CallTrace>,
    addr: Seq<u8>,
    known: Seq<KnownContract>,
    sel: u32,
    k: int,
) -> bool {
    &&& 0 <= k < known.len()
    &&& has_selector(known, k, sel)
    &&& forall|j: int|
        0 <= j < known.len() && #[trigger] has_selector(known, j, sel) ==> abi_score(calls, addr, known, j)
            <= abi_score(calls, addr, known, k)
    &&& forall|j: int|
        0 <= j < k && #[trigger] has_selector(known, j, sel) ==> abi_score(calls, addr, known, j) < abi_score(
            calls,
            addr,
            known,
            k,
        )
}

/// The best matching contract, if any contract's ABI has the selector.
pub open spec fn best_match(calls: Seq<CallTrace>, addr: Seq<u8>, known: Seq<KnownContract>, sel: u32) -> Option<nat> {
    if exists|k: int| is_best_match(calls, addr, known, sel, k) {
        Some((choose|k: int| is_best_match(calls, addr, known, sel, k)) as nat)
    } else {
        None
    }
}

/// There is at most one best match.
proof fn lemma_best_match_unique(calls: Seq<CallTrace>, addr: Seq<u8>, known: Seq<KnownContract>, sel: u32, k: int)
    requires
        is_best_match(calls, addr, known, sel, k),
    ensures
        best_match(calls, addr, known, sel) == Some(k as nat),
{
    let c = choose|c: int| is_best_match(calls, addr, known, sel, c);
    assert(is_best_match(calls, addr, known, sel, c));
    if c < k {
        assert(has_selector(known, c, sel));
    } else if k < c {
        assert(has_selector(known, k, sel));
    }
}

fn count_shared(used: &Vec<u32>, row: &Vec<u32>) -> (r: usize)
    requires
        used@.no_duplicates(),
    ensures
        r == used@.to_set().intersect(row@.to_set()).len(),
{
    broadcast use vstd::seq_lib::seq_to_set_is_finite;
    let mut c: usize = 0;
    let mut i: usize = 0;
    assert(used@.take(0).to_set().intersect(row@.to_set()) =~= Set::<u32>::empty());
    while i < used.len()
        invariant
            i <= used@.len(),
            used@.no_duplicates(),
            c <= i,
            c == used@.take(i as int).to_set().intersect(row@.to_set()).len(),
        decreases used.len() - i,
    {
        let u = used[i];
        let ghost prev = used@.take(i as int);
        let ghost before = prev.to_set().intersect(row@.to_set());
        proof {
            assert(used@.take(i + 1) =~= prev.push(u));
            prev.lemma_push_to_set_commute(u);
            assert(!prev.contains(u)) by {
                if prev.contains(u) {
                    let j = choose|j: int| 0 <= j < prev.len() && prev[j] == u;
                    assert(used@[j] == used@[i as int]);
                }
            }
        }
        if contains_word(row, u) {
            proof {
                assert(used@.take(i + 1).to_set().intersect(row@.to_set()) =~= before.insert(u));
            }
            c = c + 1;
        } else {
            assert(used@.take(i + 1).to_set().intersect(row@.to_set()) =~= before);
        }
        i = i + 1;
    }
    assert(used@.take(used@.len() as int) =~= used@);
    c
}

fn candidates(table: &Vec<Vec<u32>>, known: &Vec<KnownContract>, sel: u32) -> (cands: Vec<usize>)
    requires
        selector_table(table@, known@),
    ensures
        forall|i: int| 0 <= i < cands@.len() ==> #[trigger] cands@[i] < known@.len() && has_selector(known@, cands@[i] as int, sel),
        forall|j: int| 0 <= j < known@.len() && #[trigger] has_selector(known@, j, sel) ==> cands@.contains(j as usize),
        forall|a: int, b: int| 0 <= a < b < cands@.len() ==> cands@[a] < cands@[b],
{
    let mut cands: Vec<usize> = Vec::new();
    let mut k: usize = 0;
    while k < table.len()
        invariant
            k <= table@.len(),
            selector_table(table@, known@),
            forall|i: int| 0 <= i < cands@.len() ==> #[trigger] cands@[i] < k && has_selector(known@, cands@[i] as int, sel),
            forall|j: int| 0 <= j < k && #[trigger] has_selector(known@, j, sel) ==> cands@.contains(j as usize),
            forall|a: int, b: int| 0 <= a < b < cands@.len() ==> cands@[a] < cands@[b],
        decreases table.len() - k,
    {
        proof {
            lemma_row_selectors(table@[k as int]@, known@[k as int].function_signatures@);
        }
        let ghost start = cands@;
        if contains_word(&table[k], sel) {
            cands.push(k);
            assert(cands@[cands@.len() - 1] == k);
        }
        proof {
            assert forall|j: int| 0 <= j < k + 1 && #[trigger] has_selector(known@, j, sel) implies cands@.contains(j as usize) by {
                if j < k {
                    assert(start.contains(j as usize));
                    let i = choose|i: int| 0 <= i < start.len() && start[i] == j as usize;
                    assert(cands@[i] == j as usize);
                } else {
                    assert(table@[k as int]@.to_set().contains(sel));
                    assert(cands@[cands@.len() - 1] == k);
                }
            }
        }
        k = k + 1;
    }
    cands
}

/// No known contract's ABI has the selector.
pub open spec fn no_candidate(known: Seq<KnownContract>, sel: u32) -> bool {
    forall|k: int| 0 <= k < known.len() ==> !#[trigger] has_selector(known, k, sel)
}

/// Contract `k` is the only known contract whose ABI has the selector.
pub open spec fn sole_candidate(known: Seq<KnownContract>, sel: u32, k: int) -> bool {
    &&& 0 <= k < known.len()
    &&& has_selector(known, k, sel)
    &&& forall|j: int| 0 <= j < known.len() && #[trigger] has_selector(known, j, sel) ==> j == k
}

/// The score of a contract whose ABI has the selector `sel` is at least one
/// when `sel` is used at the address.
proof fn lemma_used_selector_scores(used: Seq<u32>, calls: Seq<CallTrace>, addr: Seq<u8>, known: Seq<KnownContract>, sel: u32, k: int)
    requires
        used.to_set() == selectors_used_at(calls, addr),
        selectors_used_at(calls, addr).contains(sel),
        0 <= k < known.len(),
        has_selector(known, k, sel),
    ensures
        abi_score(calls, addr, known, k) >= 1,
{
    let inter = selectors_used_at(calls, addr).intersect(abi_selectors(known[k].function_signatures@));
    vstd::seq_lib::seq_to_set_is_finite(used);
    assert(inter.contains(sel));
    if inter.len() == 0 {
        inter.lemma_len0_is_empty();
    }
}

/// Given the contracts whose ABI has selector `sel`, picks the one that
/// identifies `addr`: the only such contract, whatever the calls; when there
/// are several, the first of those that cover the most distinct selectors
/// used at `addr`, provided that it covers at least one.
fn find_best_abi_match(
    calls: &Vec<&CallTrace>,
    addr: &[u8; 20],
    table: &Vec<Vec<u32>>,
    known: &Vec<KnownContract>,
    sel: u32,
) -> (r: Option<usize>)
    requires
        selector_table(table@, known@),
    ensures
        match r {
            Some(k) => is_best_match(deref_calls(calls@), addr@, known@, sel, k as int) && (sole_candidate(
                known@,
                sel,
                k as int,
            ) || abi_score(deref_calls(calls@), addr@, known@, k as int) > 0),
            None => no_candidate(known@, sel) || ((forall|k: int| !#[trigger] sole_candidate(known@, sel, k))
                && forall|j: int|
                0 <= j < known@.len() && #[trigger] has_selector(known@, j, sel) ==> abi_score(
                    deref_calls(calls@),
                    addr@,
                    known@,
                    j,
                ) == 0),
        },
        r is None && selectors_used_at(deref_calls(calls@), addr@).contains(sel) ==> no_candidate(known@, sel),
{
    let ghost all = deref_calls(calls@);
    let cands = candidates(table, known, sel);
    if cands.len() == 0 {
        assert forall|k: int| 0 <= k < known@.len() implies !#[trigger] has_selector(known@, k, sel) by {
            if has_selector(known@, k, sel) {
                assert(cands@.contains(k as usize));
            }
        }
        return None;
    }
    if cands.len() == 1 {
        let c = cands[0];
        proof {
            assert forall|j: int| 0 <= j < known@.len() && #[trigger] has_selector(known@, j, sel) implies j == c by {
                assert(cands@.contains(j as usize));
                let a = choose|a: int| 0 <= a < cands@.len() && cands@[a] == j as usize;
                assert(a == 0);
                assert(j < known.len());
                assert((j as usize) as int == j);
            }
            assert(sole_candidate(known@, sel, c as int));
        }
        return Some(c);
    }
    // Score each candidate by how many distinct selectors used at this
    // address its ABI covers; keep the first with the highest score.
    let used = selectors_at(calls, addr);
    let mut best_score: usize = 0;
    let mut best: Option<usize> = None;
    let mut i: usize = 0;
    while i < cands.len()
        invariant
            i <= cands@.len(),
            all == deref_calls(calls@),
            selector_table(table@, known@),
            used@.no_duplicates(),
            used@.to_set() == selectors_used_at(all, addr@),
            forall|a: int| 0 <= a < cands@.len() ==> #[trigger] cands@[a] < known@.len() && has_selector(known@, cands@[a] as int, sel),
            forall|a: int, b: int| 0 <= a < b < cands@.len() ==> cands@[a] < cands@[b],
            forall|j: int| 0 <= j < known@.len() && #[trigger] has_selector(known@, j, sel) ==> cands@.contains(j as usize),
            match best {
                Some(b) => {
                    &&& b < known@.len()
                    &&& has_selector(known@, b as int, sel)
                    &&& best_score == abi_score(all, addr@, known@, b as int)
                    &&& best_score > 0
                    &&& exists|a: int| 0 <= a < i && cands@[a] == b
                    &&& forall|a: int| 0 <= a < i ==> abi_score(all, addr@, known@, #[trigger] cands@[a] as int) <= best_score
                    &&& forall|a: int| 0 <= a < i && #[trigger] cands@[a] < b ==> abi_score(all, addr@, known@, cands@[a] as int) < best_score
                },
                None => {
                    &&& best_score == 0
                    &&& forall|a: int| 0 <= a < i ==> abi_score(all, addr@, known@, #[trigger] cands@[a] as int) == 0
                },
            },
        decreases cands.len() - i,
    {
        let c = cands[i];
        proof {
            lemma_row_selectors(table@[c as int]@, known@[c as int].function_signatures@);
            vstd::seq_lib::seq_to_set_is_finite(used@);
        }
        let score = count_shared(&used, &table[c]);
        assert(score == abi_score(all, addr@, known@, c as int));
        if score > best_score {
            best_score = score;
            best = Some(c);
        } else {
            proof {
                if best.is_some() {
                    let b = best.unwrap();
                    let a0 = choose|a: int| 0 <= a < i && cands@[a] == b;
                    assert(cands@[a0] < cands@[i as int]);
                }
            }
        }
        i = i + 1;
    }
    match best {
        None => {
            proof {
                assert forall|j: int| 0 <= j < known@.len() && #[trigger] has_selector(known@, j, sel) implies abi_score(all, addr@, known@, j) == 0 by {
                    assert(cands@.contains(j as usize));
                    let a = choose|a: int| 0 <= a < cands@.len() && cands@[a] == j as usize;
                    assert(j < known.len());
                    assert(cands@[a] as int == j);
                }
                assert forall|k: int| !#[trigger] sole_candidate(known@, sel, k) by {
                    if sole_candidate(known@, sel, k) {
                        assert(has_selector(known@, cands@[0] as int, sel));
                        assert(has_selector(known@, cands@[1] as int, sel));
                        assert(cands@[0] < cands@[1]);
                    }
                }
                if selectors_used_at(all, addr@).contains(sel) {
                    lemma_used_selector_scores(used@, all, addr@, known@, sel, cands@[0] as int);
                }
            }
            None
        },
        Some(b) => {
            proof {
                assert forall|j: int| 0 <= j < known@.len() && #[trigger] has_selector(known@, j, sel) implies abi_score(all, addr@, known@, j) <= abi_score(all, addr@, known@, b as int) by {
                    assert(cands@.contains(j as usize));
                    let a = choose|a: int| 0 <= a < cands@.len() && cands@[a] == j as usize;
                    assert(j < known.len());
                    assert(cands@[a] as int == j);
                    assert(abi_score(all, addr@, known@, cands@[a] as int) <= best_score);
                }
                assert forall|j: int| 0 <= j < b && #[trigger] has_selector(known@, j, sel) implies abi_score(all, addr@, known@, j) < abi_score(all, addr@, known@, b as int) by {
                    assert(cands@.contains(j as usize));
                    let a = choose|a: int| 0 <= a < cands@.len() && cands@[a] == j as usize;
                    assert(j < known.len());
                    assert(cands@[a] as int == j);
                    assert(cands@[a] < b);
                }
            }
            Some(b)
        },
    }
}

/// The addresses as byte sequences.
pub open spec fn address_views(a: Seq<[u8; 20]>) -> Seq<Seq<u8>> {
    a.map_values(|x: [u8; 20]| x@)
}

/// The identifications as (address bytes, contract index).
pub open spec fn found_views(f: Seq<([u8; 20], usize)>) -> Seq<(Seq<u8>, nat)> {
    f.map_values(|p: ([u8; 20], usize)| (p.0@, p.1 as nat))
}

/// One call of the walk: a call to a non-zero address that is not yet
/// identified, with a selector in its call data, identifies the address as
/// the best matching contract for that selector, if there is one.
pub open spec fn identify_step(
    calls: Seq<CallTrace>,
    known: Seq<KnownContract>,
    state: (Seq<Seq<u8>>, Seq<(Seq<u8>, nat)>),
    t: CallTrace,
) -> (Seq<Seq<u8>>, Seq<(Seq<u8>, nat)>) {
    if is_zero_address(t.address@) || state.0.contains(t.address@) || t.data@.len() < 4 {
        state
    } else {
        match best_match(calls, t.address@, known, call_selector(t)) {
            Some(k) => (state.0.push(t.address@), state.1.push((t.address@, k))),
            None => state,
        }
    }
}

/// The identified addresses and the new identifications after the walk
/// has gone through the first `n` calls.
pub open spec fn identify_upto(
    calls: Seq<CallTrace>,
    known: Seq<KnownContract>,
    identified: Seq<Seq<u8>>,
    n: nat,
) -> (Seq<Seq<u8>>, Seq<(Seq<u8>, nat)>)
    decreases n,
{
    if n == 0 {
        (identified, Seq::empty())
    } else {
        identify_step(calls, known, identify_upto(calls, known, identified, (n - 1) as nat), calls[n - 1])
    }
}

pub(crate) fn contains_address(ids: &Vec<[u8; 20]>, a: &[u8; 20]) -> (r: bool)
    ensures
        r == address_views(ids@).contains(a@),
{
    let mut i: usize = 0;
    while i < ids.len()
        invariant
            i <= ids@.len(),
            forall|j: int| 0 <= j < i ==> ids@[j]@ != a@,
        decreases ids.len() - i,
    {
        if same_address(&ids[i], a) {
            assert(address_views(ids@)[i as int] == a@);
            return true;
        }
        i = i + 1;
    }
    proof {
        if address_views(ids@).contains(a@) {
            let j = choose|j: int| 0 <= j < address_views(ids@).len() && address_views(ids@)[j] == a@;
            assert(ids@[j]@ == a@);
        }
    }
    false
}

/// Fallback identification: match unidentified addresses by comparing the
/// function selectors in their call data against known contract ABIs.
///
/// Goes through the calls of all arenas in order; each call to a non-zero
/// address that is neither in `identified` nor identified earlier in the
/// walk, with at least four bytes of call data, identifies its address as
/// the contract whose ABI has the call's selector and covers the most
/// distinct selectors used at that address (the first such contract on a
/// tie). Returns the new identifications in order, as (address, index in
/// `known`).
pub fn identify_by_abi_selectors(
    identified: &Vec<[u8; 20]>,
    traces: &Vec<Vec<CallTraceNode>>,
    known: &Vec<KnownContract>,
) -> (found: Vec<([u8; 20], usize)>)
    ensures
        found_views(found@) == identify_upto(
            flat_calls(traces@),
            known@,
            address_views(identified@),
            flat_calls(traces@).len(),
        ).1,
{
    let table = build_selector_table(known);
    let calls = flatten(traces);
    let ghost all = deref_calls(calls@);
    let mut ids: Vec<[u8; 20]> = Vec::new();
    let mut j: usize = 0;
    while j < identified.len()
        invariant
            j <= identified@.len(),
            ids@ == identified@.take(j as int),
        decreases identified.len() - j,
    {
        ids.push(identified[j]);
        j = j + 1;
        assert(ids@ =~= identified@.take(j as int));
    }
    assert(identified@.take(identified@.len() as int) =~= identified@);
    let mut found: Vec<([u8; 20], usize)> = Vec::new();
    let mut i: usize = 0;
    assert(found_views(found@) =~= Seq::<(Seq<u8>, nat)>::empty());
    while i < calls.len()
        invariant
            i <= calls@.len(),
            all == deref_calls(calls@),
            all.len() == calls@.len(),
            selector_table(table@, known@),
            (address_views(ids@), found_views(found@)) == identify_upto(all, known@, address_views(identified@), i as nat),
        decreases calls.len() - i,
    {
        let t = calls[i];
        assert(all[i as int] == *t);
        let ghost state = (address_views(ids@), found_views(found@));
        if is_zero(&t.address) || contains_address(&ids, &t.address) || t.data.len() < 4 {
        } else {
            let sel = word_of(t.data[0], t.data[1], t.data[2], t.data[3]);
            assert(sel == call_selector(*t));
            assert(selectors_used_at(all, t.address@).contains(sel)) by {
                assert(all[i as int].address@ == t.address@);
            }
            match find_best_abi_match(&calls, &t.address, &table, known, sel) {
                Some(k) => {
                    proof {
                        lemma_best_match_unique(all, t.address@, known@, sel, k as int);
                    }
                    ids.push(t.address);
                    found.push((t.address, k));
                    assert(address_views(ids@) =~= state.0.push(t.address@));
                    assert(found_views(found@) =~= state.1.push((t.address@, k as nat)));
                },
                None => {
                    assert forall|k: int| !is_best_match(all, t.address@, known@, sel, k) by {
                        if is_best_match(all, t.address@, known@, sel, k) {
                            assert(has_selector(known@, k, sel));
                        }
                    }
                },
            }
        }
        i = i + 1;
    }
    found
}

/// Every identification `(a, k)` of `found` is of a non-zero address that
/// is not among `identified` and not identified twice, some call made to
/// it carries a selector that contract `k`'s ABI has, and `k` is the best
/// match for that selector there.
pub open spec fn identifications_sound(
    calls: Seq<CallTrace>,
    known: Seq<KnownContract>,
    identified: Seq<Seq<u8>>,
    found: Seq<(Seq<u8>, nat)>,
) -> bool {
    &&& forall|i: int|
        0 <= i < found.len() ==> !is_zero_address((#[trigger] found[i]).0) && !identified.contains(found[i].0)
    &&& forall|i: int, j: int| 0 <= i < j < found.len() ==> (#[trigger] found[i]).0 != (#[trigger] found[j]).0
    &&& forall|i: int|
        #![trigger found[i]]
        0 <= i < found.len() ==> exists|c: int|
            0 <= c < calls.len() && (#[trigger] calls[c]).address@ == found[i].0 && calls[c].data@.len() >= 4
                && is_best_match(calls, found[i].0, known, call_selector(calls[c]), found[i].1 as int)
}

proof fn lemma_identify_upto_sound(
    calls: Seq<CallTrace>,
    known: Seq<KnownContract>,
    identified: Seq<Seq<u8>>,
    n: nat,
)
    requires
        n <= calls.len(),
    ensures
        identify_upto(calls, known, identified, n).0 == identified + identify_upto(
            calls,
            known,
            identified,
            n,
        ).1.map_values(|p: (Seq<u8>, nat)| p.0),
        identifications_sound(calls, known, identified, identify_upto(calls, known, identified, n).1),
    decreases n,
{
    if n > 0 {
        lemma_identify_upto_sound(calls, known, identified, (n - 1) as nat);
        let prev = identify_upto(calls, known, identified, (n - 1) as nat);
        let t = calls[n - 1];
        let ids = prev.0;
        let found = prev.1;
        if !(is_zero_address(t.address@) || ids.contains(t.address@) || t.data@.len() < 4) {
            let sel = call_selector(t);
            match best_match(calls, t.address@, known, sel) {
                Some(k) => {
                    let c = choose|k: int| is_best_match(calls, t.address@, known, sel, k);
                    assert(is_best_match(calls, t.address@, known, sel, c));
                    let nf = found.push((t.address@, k));
                    assert(nf.map_values(|p: (Seq<u8>, nat)| p.0) =~= found.map_values(
                        |p: (Seq<u8>, nat)| p.0,
                    ).push(t.address@));
                    assert(ids.push(t.address@) =~= identified + nf.map_values(|p: (Seq<u8>, nat)| p.0));
                    assert forall|i: int| 0 <= i < nf.len() implies !is_zero_address((#[trigger] nf[i]).0)
                        && !identified.contains(nf[i].0) by {
                        if i < found.len() {
                            assert(nf[i] == found[i]);
                        } else {
                            if identified.contains(t.address@) {
                                let j = choose|j: int| 0 <= j < identified.len() && identified[j] == t.address@;
                                assert(ids[j] == t.address@);
                            }
                        }
                    }
                    assert forall|i: int, j: int| 0 <= i < j < nf.len() implies (#[trigger] nf[i]).0 != (
                    #[trigger] nf[j]).0 by {
                        if j < found.len() {
                            assert(nf[i] == found[i] && nf[j] == found[j]);
                        } else {
                            assert(nf[i] == found[i]);
                            assert(ids[identified.len() + i] == found[i].0);
                        }
                    }
                    assert forall|i: int| #![trigger nf[i]] 0 <= i < nf.len() implies exists|c: int|
                        0 <= c < calls.len() && (#[trigger] calls[c]).address@ == nf[i].0 && calls[c].data@.len()
                            >= 4 && is_best_match(calls, nf[i].0, known, call_selector(calls[c]), nf[i].1 as int) by {
                        if i < found.len() {
                            assert(nf[i] == found[i]);
                        } else {
                            assert(calls[n - 1] == t);
                        }
                    }
                },
                None => {},
            }
        }
    }
}

/// The contracts identified by selector are sound: each new
/// identification is of a non-zero address that was not identified before
/// and is not identified twice, and names the contract whose ABI best
/// matches the selector of a call made to that address.
pub proof fn lemma_identifications_sound(
    traces: Seq<Vec<CallTraceNode>>,
    known: Seq<KnownContract>,
    identified: Seq<Seq<u8>>,
)
    ensures
        identifications_sound(
            flat_calls(traces),
            known,
            identified,
            identify_upto(flat_calls(traces), known, identified, flat_calls(traces).len()).1,
        ),
{
    lemma_identify_upto_sound(flat_calls(traces), known, identified, flat_calls(traces).len());
}

/// The called address of each call, as bytes.
pub open spec fn called_addresses(calls: Seq<CallTrace>) -> Seq<Seq<u8>> {
    calls.map_values(|t: CallTrace| t.address@)
}

/// The distinct non-zero addresses that the calls of the traces go to, in
/// order of their first call.
pub open spec fn distinct_called(traces: Seq<Vec<CallTraceNode>>) -> Seq<Seq<u8>> {
    distinct_nonzero(called_addresses(flat_calls(traces)))
}

/// The addresses of `addrs` that are not among `identified`, in order.
pub open spec fn unidentified_among(addrs: Seq<Seq<u8>>, identified: Seq<Seq<u8>>) -> Seq<Seq<u8>> {
    addrs.filter(|a: Seq<u8>| !identified.contains(a))
}

/// How many distinct non-zero addresses the calls of the traces go to, and
/// how many of those are not among `identified`.
pub fn address_tally(identified: &Vec<[u8; 20]>, traces: &Vec<Vec<CallTraceNode>>) -> (r: (usize, usize))
    ensures
        r.0 == distinct_called(traces@).len(),
        r.1 == unidentified_among(distinct_called(traces@), address_views(identified@)).len(),
{
    let calls = flatten(traces);
    let ghost all = called_addresses(deref_calls(calls@));
    let mut seen: Vec<[u8; 20]> = Vec::new();
    let mut i: usize = 0;
    assert(all.take(0) =~= Seq::<Seq<u8>>::empty());
    assert(address_views(seen@) =~= distinct_nonzero(all.take(0)));
    while i < calls.len()
        invariant
            i <= calls@.len(),
            all == called_addresses(deref_calls(calls@)),
            address_views(seen@) == distinct_nonzero(all.take(i as int)),
        decreases calls.len() - i,
    {
        let a = calls[i].address;
        proof {
            assert(all.take(i + 1).drop_last() =~= all.take(i as int));
            assert(all.take(i + 1).last() == a@);
        }
        note_address(&mut seen, a);
        i = i + 1;
    }
    assert(all.take(calls@.len() as int) =~= all);
    let ghost ids = address_views(identified@);
    let ghost pred = |x: Seq<u8>| !ids.contains(x);
    let ghost sv = address_views(seen@);
    let mut missing: usize = 0;
    let mut j: usize = 0;
    assert(sv.take(0) =~= Seq::<Seq<u8>>::empty());
    assert(Seq::<Seq<u8>>::empty().filter(pred) =~= Seq::<Seq<u8>>::empty()) by {
        reveal(Seq::filter);
    }
    while j < seen.len()
        invariant
            j <= seen@.len(),
            sv == address_views(seen@),
            ids == address_views(identified@),
            pred == (|x: Seq<u8>| !ids.contains(x)),
            missing == sv.take(j as int).filter(pred).len(),
            missing <= j,
        decreases seen.len() - j,
    {
        proof {
            let t = sv.take(j + 1);
            assert(t.drop_last() =~= sv.take(j as int));
            assert(t.last() == seen@[j as int]@);
            reveal(Seq::filter);
        }
        if !contains_address(identified, &seen[j]) {
            missing = missing + 1;
        }
        j = j + 1;
    }
    assert(sv.take(seen@.len() as int) =~= sv);
    (seen.len(), missing)
}

/// Which selectors count as used at an address: none without calls; a
/// call to the address with at least four bytes of call data adds its
/// selector; any other call (to another address, or with shorter data)
/// adds nothing.
pub proof fn lemma_selectors_used_at_grow(calls: Seq<CallTrace>, t: CallTrace, addr: Seq<u8>)
    ensures
        selectors_used_at(Seq::empty(), addr) == Set::<u32>::empty(),
        t.address@ == addr && t.data@.len() >= 4 ==> selectors_used_at(calls.push(t), addr) == selectors_used_at(
            calls,
            addr,
        ).insert(word(t.data@)),
        !(t.address@ == addr && t.data@.len() >= 4) ==> selectors_used_at(calls.push(t), addr)
            == selectors_used_at(calls, addr),
{
    assert(selectors_used_at(Seq::empty(), addr) =~= Set::<u32>::empty());
    let n = calls.push(t);
    assert(n[calls.len() as int] == t);
    assert forall|s: u32| #[trigger] selectors_used_at(n, addr).contains(s) == (selectors_used_at(calls, addr).contains(s) || (t.address@ == addr && t.data@.len() >= 4 && word(t.data@) == s)) by {
        if selectors_used_at(n, addr).contains(s) {
            let i = choose|i: int| 0 <= i < n.len() && (#[trigger] n[i]).address@ == addr && n[i].data@.len() >= 4 && call_selector(n[i]) == s;
            if i < calls.len() {
                assert(n[i] == calls[i]);
            }
        }
        if selectors_used_at(calls, addr).contains(s) {
            let i = choose|i: int| 0 <= i < calls.len() && (#[trigger] calls[i]).address@ == addr && calls[i].data@.len() >= 4 && call_selector(calls[i]) == s;
            assert(n[i] == calls[i]);
        }
    }
    if t.address@ == addr && t.data@.len() >= 4 {
        assert(selectors_used_at(n, addr) =~= selectors_used_at(calls, addr).insert(word(t.data@)));
    } else {
        assert(selectors_used_at(n, addr) =~= selectors_used_at(calls, addr));
    }
}

/// Calls to other addresses do not count: adding a call to an address
/// other than `addr` changes no contract's score at `addr`, nor which
/// contract best matches a selector there.
pub proof fn lemma_other_calls_do_not_count(
    calls: Seq<CallTrace>,
    t: CallTrace,
    addr: Seq<u8>,
    known: Seq<KnownContract>,
    sel: u32,
)
    requires
        t.address@ != addr,
    ensures
        forall|k: int| #[trigger] abi_score(calls.push(t), addr, known, k) == abi_score(calls, addr, known, k),
        best_match(calls.push(t), addr, known, sel) == best_match(calls, addr, known, sel),
{
    lemma_selectors_used_at_grow(calls, t, addr);
    assert forall|k: int| #[trigger] abi_score(calls.push(t), addr, known, k) == abi_score(calls, addr, known, k) by {}
    assert forall|k: int| #[trigger] is_best_match(calls.push(t), addr, known, sel, k) == is_best_match(calls, addr, known, sel, k) by {}
    if exists|k: int| is_best_match(calls, addr, known, sel, k) {
        let k = choose|k: int| is_best_match(calls, addr, known, sel, k);
        lemma_best_match_unique(calls, addr, known, sel, k);
        lemma_best_match_unique(calls.push(t), addr, known, sel, k);
    } else {
        assert(!exists|k: int| is_best_match(calls.push(t), addr, known, sel, k));
    }
}

} // verus!
