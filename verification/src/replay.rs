//! Decisions of the transaction replay: how many transactions of the block
//! precede the target, when to report progress, and which addresses' code to
//! collect after the run. The replay itself (RPC, forked state, EVM) is done
//! by the caller.

use vstd::prelude::*;
use crate::identify::{address_views, contains_address, is_zero, is_zero_address};
use crate::types::CallTraceNode;

verus! {

/// Result of replaying a transaction.
pub struct ReplayResult {
    /// Whether the transaction succeeded.
    pub success: bool,
    /// Collected trace arenas.
    pub traces: Option<Vec<Vec<CallTraceNode>>>,
    /// Gas used.
    pub gas_used: u64,
    /// Bytecodes at addresses involved in the trace.
    pub contracts_bytecode: Vec<([u8; 20], Vec<u8>)>,
}

fn same_hash(a: &[u8; 32], b: &[u8; 32]) -> (r: bool)
    ensures
        r == (a@ == b@),
{
    let mut i: usize = 0;
    while i < 32
        invariant
            i <= 32,
            forall|j: int| 0 <= j < i ==> a@[j] == b@[j],
        decreases 32 - i,
    {
        if a[i] != b[i] {
            return false;
        }
        i = i + 1;
    }
    assert(a@ =~= b@);
    true
}

/// Position of the target transaction in the block, or the number of the
/// block's transactions when it is not among them: the number of
/// transactions replayed before it.
pub fn target_position(block_txs: &Vec<[u8; 32]>, target: &[u8; 32]) -> (r: usize)
    ensures
        r <= block_txs@.len(),
        forall|i: int| 0 <= i < r ==> (#[trigger] block_txs@[i])@ != target@,
        r < block_txs@.len() ==> block_txs@[r as int]@ == target@,
{
    let mut i: usize = 0;
    while i < block_txs.len()
        invariant
            i <= block_txs@.len(),
            forall|j: int| 0 <= j < i ==> (#[trigger] block_txs@[j])@ != target@,
        decreases block_txs.len() - i,
    {
        if same_hash(&block_txs[i], target) {
            return i;
        }
        i = i + 1;
    }
    i
}

/// Whether to report progress after replaying the preceding transaction
/// at `idx` (0-based): every tenth one, when more than ten precede.
pub fn progress_due(idx: usize, tx_position: usize) -> (r: bool)
    requires
        idx < tx_position,
    ensures
        r == (tx_position > 10 && (idx + 1) % 10 == 0),
{
    tx_position > 10 && (idx + 1) % 10 == 0
}

/// Whether to suggest `--quick`: when more than fifty transactions precede
/// the target in its block.
pub fn quick_hint_due(tx_position: usize) -> (r: bool)
    ensures
        r == (tx_position > 50),
{
    tx_position > 50
}

/// How replaying a preceding transaction of the block ended.
#[derive(Debug, Clone, Copy, PartialEq, Eq)]
pub enum PrecedingOutcome {
    /// It ran to the end.
    Completed,
    /// The EVM reverted it (an execution error of the transaction itself).
    Reverted,
    /// The executor failed for another reason (state access, setup).
    Failed,
}

/// Whether the replay stops with an error after a preceding transaction:
/// only when a contract creation failed for a reason other than its own
/// revert; the outcomes of calls are ignored.
pub fn aborts_replay(is_create: bool, outcome: PrecedingOutcome) -> (r: bool)
    ensures
        r == (is_create && outcome == PrecedingOutcome::Failed),
{
    is_create && match outcome {
        PrecedingOutcome::Failed => true,
        _ => false,
    }
}

/// The addresses of a call: the one called, then the caller.
pub open spec fn call_addresses(nodes: Seq<CallTraceNode>) -> Seq<Seq<u8>>
    decreases nodes.len(),
{
    if nodes.len() == 0 {
        Seq::empty()
    } else {
        call_addresses(nodes.drop_last()) + seq![nodes.last().trace.address@, nodes.last().trace.caller@]
    }
}

/// The non-zero addresses of `all`, each once, in order of first
/// occurrence.
pub open spec fn distinct_nonzero(all: Seq<Seq<u8>>) -> Seq<Seq<u8>>
    decreases all.len(),
{
    if all.len() == 0 {
        Seq::empty()
    } else {
        let d = distinct_nonzero(all.drop_last());
        let x = all.last();
        if is_zero_address(x) || d.contains(x) {
            d
        } else {
            d.push(x)
        }
    }
}

pub(crate) fn note_address(out: &mut Vec<[u8; 20]>, a: [u8; 20])
    ensures
        address_views(final(out)@) == if is_zero_address(a@) || address_views(old(out)@).contains(a@) {
            address_views(old(out)@)
        } else {
            address_views(old(out)@).push(a@)
        },
{
    if !is_zero(&a) && !contains_address(out, &a) {
        out.push(a);
        assert(address_views(out@) =~= address_views(old(out)@).push(a@));
    }
}

/// The addresses whose code is collected after the run: the called
/// address and the caller of each call, in arena order, without the zero
/// address and without repeats.
pub fn code_addresses(nodes: &Vec<CallTraceNode>) -> (r: Vec<[u8; 20]>)
    ensures
        address_views(r@) == distinct_nonzero(call_addresses(nodes@)),
{
    let mut r: Vec<[u8; 20]> = Vec::new();
    let mut i: usize = 0;
    assert(nodes@.take(0) =~= Seq::<CallTraceNode>::empty());
    assert(address_views(r@) =~= distinct_nonzero(call_addresses(nodes@.take(0))));
    while i < nodes.len()
        invariant
            i <= nodes@.len(),
            address_views(r@) == distinct_nonzero(call_addresses(nodes@.take(i as int))),
        decreases nodes.len() - i,
    {
        let t = &nodes[i].trace;
        let ghost prev = call_addresses(nodes@.take(i as int));
        proof {
            assert(nodes@.take(i + 1).drop_last() =~= nodes@.take(i as int));
            let both = call_addresses(nodes@.take(i + 1));
            assert(both == prev + seq![t.address@, t.caller@]);
            assert(both.drop_last() =~= prev.push(t.address@));
            assert(both.drop_last().drop_last() =~= prev);
        }
        note_address(&mut r, t.address);
        note_address(&mut r, t.caller);
        proof {
            let one = prev.push(t.address@);
            let two = one.push(t.caller@);
            assert(one.drop_last() =~= prev);
            assert(two.drop_last() =~= one);
            assert(call_addresses(nodes@.take(i + 1)) =~= two);
            assert(distinct_nonzero(one) == if is_zero_address(t.address@) || distinct_nonzero(prev).contains(
                t.address@,
            ) {
                distinct_nonzero(prev)
            } else {
                distinct_nonzero(prev).push(t.address@)
            });
        }
        i = i + 1;
    }
    assert(nodes@.take(nodes@.len() as int) =~= nodes@);
    r
}

proof fn lemma_distinct_nonzero_members(all: Seq<Seq<u8>>)
    ensures
        forall|x: Seq<u8>| #[trigger] distinct_nonzero(all).contains(x) == (all.contains(x) && !is_zero_address(x)),
        distinct_nonzero(all).no_duplicates(),
    decreases all.len(),
{
    if all.len() > 0 {
        let prev = all.drop_last();
        lemma_distinct_nonzero_members(prev);
        assert(all =~= prev.push(all.last()));
        assert forall|x: Seq<u8>| #[trigger] all.contains(x) == (prev.contains(x) || x == all.last()) by {
            if all.contains(x) {
                let j = choose|j: int| 0 <= j < all.len() && all[j] == x;
                if j < prev.len() {
                    assert(prev[j] == x);
                }
            }
            if prev.contains(x) {
                let j = choose|j: int| 0 <= j < prev.len() && prev[j] == x;
                assert(all[j] == x);
            }
            if x == all.last() {
                assert(all[all.len() - 1] == x);
            }
        }
        let d = distinct_nonzero(prev);
        let l = all.last();
        if !(is_zero_address(l) || d.contains(l)) {
            let e = d.push(l);
            assert forall|x: Seq<u8>| #[trigger] e.contains(x) == (d.contains(x) || x == l) by {
                if e.contains(x) {
                    let j = choose|j: int| 0 <= j < e.len() && e[j] == x;
                    if j < d.len() {
                        assert(d[j] == x);
                    }
                }
                if d.contains(x) {
                    let j = choose|j: int| 0 <= j < d.len() && d[j] == x;
                    assert(e[j] == x);
                }
                if x == l {
                    assert(e[d.len() as int] == x);
                }
            }
            assert forall|a: int, b: int| 0 <= a < b < e.len() implies e[a] != e[b] by {
                if b == d.len() {
                    assert(e[a] == d[a]);
                    assert(d.contains(d[a]));
                } else {
                    assert(e[a] == d[a] && e[b] == d[b]);
                }
            }
        }
    } else {
        assert(distinct_nonzero(all) =~= Seq::<Seq<u8>>::empty());
    }
}

proof fn lemma_call_addresses_members(nodes: Seq<CallTraceNode>)
    ensures
        forall|x: Seq<u8>| #[trigger] call_addresses(nodes).contains(x) == exists|i: int|
            0 <= i < nodes.len() && ((#[trigger] nodes[i]).trace.address@ == x || nodes[i].trace.caller@ == x),
    decreases nodes.len(),
{
    if nodes.len() > 0 {
        let prev = nodes.drop_last();
        let t = nodes.last().trace;
        lemma_call_addresses_members(prev);
        let c = call_addresses(nodes);
        let p = call_addresses(prev);
        assert(c == p + seq![t.address@, t.caller@]);
        assert forall|x: Seq<u8>| #[trigger] c.contains(x) == exists|i: int|
            0 <= i < nodes.len() && ((#[trigger] nodes[i]).trace.address@ == x || nodes[i].trace.caller@ == x) by {
            if c.contains(x) {
                let j = choose|j: int| 0 <= j < c.len() && c[j] == x;
                if j < p.len() {
                    assert(p[j] == x);
                    assert(p.contains(x));
                    let i = choose|i: int| 0 <= i < prev.len() && ((#[trigger] prev[i]).trace.address@ == x || prev[i].trace.caller@ == x);
                    assert(nodes[i] == prev[i]);
                } else {
                    assert(nodes[nodes.len() - 1].trace == t);
                }
            }
            if exists|i: int| 0 <= i < nodes.len() && ((#[trigger] nodes[i]).trace.address@ == x || nodes[i].trace.caller@ == x) {
                let i = choose|i: int| 0 <= i < nodes.len() && ((#[trigger] nodes[i]).trace.address@ == x || nodes[i].trace.caller@ == x);
                if i < prev.len() {
                    assert(prev[i] == nodes[i]);
                    assert(p.contains(x));
                    let j = choose|j: int| 0 <= j < p.len() && p[j] == x;
                    assert(c[j] == x);
                } else {
                    assert(nodes[i].trace == t);
                    if t.address@ == x {
                        assert(c[p.len() as int] == x);
                    } else {
                        assert(c[p.len() as int + 1] == x);
                    }
                }
            }
        }
    } else {
        assert(call_addresses(nodes) =~= Seq::<Seq<u8>>::empty());
    }
}

/// The code collected after the run covers the whole arena: every
/// non-zero address that a call goes to and every non-zero caller is among
/// the code addresses; each code address is one of these, non-zero, and
/// listed once.
pub proof fn lemma_code_addresses_cover(nodes: Seq<CallTraceNode>)
    ensures
        forall|i: int|
            0 <= i < nodes.len() && !is_zero_address((#[trigger] nodes[i]).trace.address@) ==> distinct_nonzero(
                call_addresses(nodes),
            ).contains(nodes[i].trace.address@),
        forall|i: int|
            0 <= i < nodes.len() && !is_zero_address((#[trigger] nodes[i]).trace.caller@) ==> distinct_nonzero(
                call_addresses(nodes),
            ).contains(nodes[i].trace.caller@),
        forall|x: Seq<u8>|
            #[trigger] distinct_nonzero(call_addresses(nodes)).contains(x) ==> !is_zero_address(x) && exists|i: int|
                0 <= i < nodes.len() && ((#[trigger] nodes[i]).trace.address@ == x || nodes[i].trace.caller@ == x),
        distinct_nonzero(call_addresses(nodes)).no_duplicates(),
{
    lemma_call_addresses_members(nodes);
    lemma_distinct_nonzero_members(call_addresses(nodes));
    assert forall|i: int|
        0 <= i < nodes.len() && !is_zero_address((#[trigger] nodes[i]).trace.address@) implies distinct_nonzero(
            call_addresses(nodes),
        ).contains(nodes[i].trace.address@) by {
        assert(call_addresses(nodes).contains(nodes[i].trace.address@));
    }
    assert forall|i: int|
        0 <= i < nodes.len() && !is_zero_address((#[trigger] nodes[i]).trace.caller@) implies distinct_nonzero(
            call_addresses(nodes),
        ).contains(nodes[i].trace.caller@) by {
        assert(call_addresses(nodes).contains(nodes[i].trace.caller@));
    }
}

} // verus!
