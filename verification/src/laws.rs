//! The consistency laws the builder guarantees, stated once over every
//! well-formed builder state and proved from the invariants the
//! primitives maintain.

use crate::access_log::reads_ok;
use crate::circuit_input_builder::call_window_ok;
use crate::circuit_input_builder::calls_of_txs;
use crate::circuit_input_builder::tx_call_ok;
use crate::circuit_input_builder::Call;
use crate::circuit_input_builder::CircuitInputBuilder;
use crate::circuit_input_builder::Transaction;
use crate::operation::interval_multiset;
use crate::operation::lemma_interval_multiset_count;
use crate::word::zero_word;
use vstd::prelude::*;

verus! {

/// The calls of the builder's transaction number `t`, where `t` equal
/// to the number of finished transactions means the one in progress.
pub open spec fn calls_of_tx_at(b: CircuitInputBuilder, t: int) -> Seq<Call> {
    if t < b.block.txs@.len() {
        b.block.txs@[t].calls@
    } else {
        b.tx.calls@
    }
}

/// The position of transaction `t`'s call `i` within the flattened call
/// list of all transactions.
proof fn lemma_call_position(txs: Seq<Transaction>, t: int, i: int) -> (pos: int)
    requires
        0 <= t < txs.len(),
        0 <= i < txs[t].calls@.len(),
    ensures
        0 <= pos < calls_of_txs(txs).len(),
        calls_of_txs(txs)[pos] == txs[t].calls@[i],
    decreases txs.len(),
{
    if t == txs.len() - 1 {
        calls_of_txs(txs.drop_last()).len() as int + i
    } else {
        lemma_call_position(txs.drop_last(), t, i)
    }
}

/// Where a call of transaction `t` stands in `b.all_calls()`.
proof fn lemma_call_in_all(b: CircuitInputBuilder, t: int, i: int) -> (pos: int)
    requires
        0 <= t <= b.block.txs@.len(),
        0 <= i < calls_of_tx_at(b, t).len(),
    ensures
        0 <= pos < b.all_calls().len(),
        b.all_calls()[pos] == calls_of_tx_at(b, t)[i],
{
    if t < b.block.txs@.len() {
        lemma_call_position(b.block.txs@, t, i)
    } else {
        calls_of_txs(b.block.txs@).len() as int + i
    }
}

/// Sequence contiguity: in every well-formed builder state the multiset
/// of sequence numbers across all containers is exactly
/// `{0, 1, ..., counter-1}`: each number below the counter occurs
/// exactly once, and nothing else occurs at all.
pub proof fn lemma_sequence_contiguity(b: CircuitInputBuilder)
    requires
        b.wf(),
    ensures
        b.block.container.all_rwcs() == interval_multiset(b.block.container.counter as int),
        forall|x: usize|
            #[trigger] b.block.container.all_rwcs().count(x) == if (x as int)
                < b.block.container.counter as int {
                1int
            } else {
                0int
            },
{
    assert forall|x: usize|
        #[trigger] b.block.container.all_rwcs().count(x) == if (x as int)
            < b.block.container.counter as int {
            1int
        } else {
            0int
        } by {
        lemma_interval_multiset_count(b.block.container.counter as int, x);
    }
}

/// Read consistency: in every well-formed builder state, every recorded
/// READ in every container equals the value of the most recent prior
/// WRITE to the same resource key, or the key's defined initial value
/// (the zero word) if no prior WRITE exists.
pub proof fn lemma_read_consistency(b: CircuitInputBuilder)
    requires
        b.wf(),
    ensures
        reads_ok(b.block.container.stack_log(), zero_word()),
        reads_ok(b.block.container.call_context_log(), zero_word()),
{
}

/// Failure containment: completing a call touches no other frame. In
/// every well-formed builder state the calls on the call stack are
/// exactly the active calls, so when a failed instruction completes its
/// frame as a failure, every enclosing call, still on the stack, stays
/// active.
pub proof fn lemma_active_calls_are_the_stack(b: CircuitInputBuilder, k: int, i: int)
    requires
        b.wf(),
        0 <= k < b.call_stack@.len(),
        0 <= i < b.tx.calls@.len(),
    ensures
        b.tx.calls@[b.call_stack@[k].call_index as int].status is Active,
        b.tx.calls@[i].status is Active ==> b.on_stack(i),
{
    assert(b.frame_at_ok(k));
}

/// Call nesting: every non-root call runs exactly one level deeper than
/// its parent, was entered strictly after it, completes no later than
/// it, and every operation keyed by the child lies strictly after the
/// parent's entry and, once the parent completed, strictly before the
/// parent's exit.
pub proof fn lemma_call_nesting(b: CircuitInputBuilder, t: int, i: int)
    requires
        b.wf(),
        0 <= t <= b.block.txs@.len(),
        0 <= i < calls_of_tx_at(b, t).len(),
        calls_of_tx_at(b, t)[i].parent is Some,
    ensures
        ({
            let calls = calls_of_tx_at(b, t);
            let j = calls[i].parent->0 as int;
            &&& 0 <= j < i
            &&& calls[j].depth + 1 == calls[i].depth
            &&& calls[j].rwc_start < calls[i].rwc_start
            &&& (calls[j].status is Completed ==> calls[i].status is Completed
                && calls[i].rwc_end <= calls[j].rwc_end)
            &&& forall|k: int|
                0 <= k < b.block.container.stack@.len() && (
                #[trigger] b.block.container.stack@[k]).op.call_id == calls[i].call_id
                    ==> calls[j].rwc_start < b.block.container.stack@[k].rwc && (calls[j].status
                    is Completed ==> b.block.container.stack@[k].rwc < calls[j].rwc_end)
            &&& forall|k: int|
                0 <= k < b.block.container.call_context@.len() && (
                #[trigger] b.block.container.call_context@[k]).op.call_id == calls[i].call_id
                    ==> calls[j].rwc_start < b.block.container.call_context@[k].rwc && (
                calls[j].status is Completed
                    ==> b.block.container.call_context@[k].rwc < calls[j].rwc_end)
        }),
{
    let calls = calls_of_tx_at(b, t);
    let j = calls[i].parent->0 as int;
    if t < b.block.txs@.len() {
        assert(tx_call_ok(calls, i));
        assert(tx_call_ok(calls, j));
    } else {
        assert(tx_call_ok(calls, i));
        assert(tx_call_ok(calls, j));
    }
    let pos = lemma_call_in_all(b, t, i);
    assert(b.all_calls()[pos] == calls[i]);
    // every operation of the child lies inside the child's own window,
    // which nests strictly inside the parent's
    assert forall|k: int|
        0 <= k < b.block.container.stack@.len() && (
        #[trigger] b.block.container.stack@[k]).op.call_id == calls[i].call_id implies calls[j].rwc_start
        < b.block.container.stack@[k].rwc && (calls[j].status is Completed
        ==> b.block.container.stack@[k].rwc < calls[j].rwc_end) by {
        assert(call_window_ok(calls[i], b.block.container.stack@[k].rwc as int));
    }
    assert forall|k: int|
        0 <= k < b.block.container.call_context@.len() && (
        #[trigger] b.block.container.call_context@[k]).op.call_id == calls[i].call_id implies calls[j].rwc_start
        < b.block.container.call_context@[k].rwc && (calls[j].status is Completed
        ==> b.block.container.call_context@[k].rwc < calls[j].rwc_end) by {
        assert(call_window_ok(calls[i], b.block.container.call_context@[k].rwc as int));
    }
}

} // verus!
