//! The circuit input state: the mutable builder context threaded through
//! every opcode handler, the call / transaction / block aggregation, and
//! the read/write primitives handlers use to emit operations.

use crate::access_log::last_write;
use crate::access_log::lemma_last_write_push;
use crate::access_log::lemma_reads_ok_push;
use crate::access_log::reads_ok;
use crate::access_log::Access;
use crate::error::Error;
use crate::error::ExecError;
use crate::operation::CallContextField;
use crate::operation::CallContextOp;
use crate::operation::OperationRef;
use crate::operation::StackAddress;
use crate::operation::StackOp;
use crate::operation::Target;
use crate::operation::RW;
use crate::trace::OpcodeId;
use crate::trace::TraceStep;
use crate::word::zero_word;
use crate::word::Address;
use crate::word::Word;
use vstd::prelude::*;

verus! {

/// How a call frame was entered.
#[derive(Clone, Copy, Debug, Hash, PartialEq, Eq, Structural)]
pub enum CallKind {
    Call,
    StaticCall,
    DelegateCall,
    Create,
}

/// The lifecycle of a call frame. A frame is `Active` from creation
/// until the trace signals its completion; the success flag of
/// `Completed`, once set, never changes.
#[derive(Clone, Copy, Debug, PartialEq, Eq, Structural)]
pub enum CallStatus {
    Active,
    Completed(bool),
}

/// One virtual-machine call frame. Owned by the builder's call stack
/// while active; retained read-only afterward in the transaction's call
/// list.
#[derive(Clone, Copy, Debug)]
pub struct Call {
    /// Unique within the block, assigned monotonically.
    pub call_id: u64,
    /// The address that entered this frame.
    pub caller_address: Address,
    /// The address whose code this frame runs.
    pub address: Address,
    pub kind: CallKind,
    /// Root frames run at depth 1; a child runs at its parent's depth
    /// plus one.
    pub depth: u64,
    pub is_static: bool,
    pub status: CallStatus,
    /// The sequence counter when the frame was entered.
    pub rwc_start: usize,
    /// The sequence counter when the frame completed; meaningful only
    /// once `status` is `Completed`.
    pub rwc_end: usize,
    /// Index of the parent call within the same transaction's call list;
    /// `None` exactly for the root call.
    pub parent: Option<usize>,
}

/// The field values the circuit reads from a call context, each derived
/// from the call frame alone.
pub open spec fn ctx_word(c: Call, f: CallContextField) -> Word {
    match f {
        CallContextField::CallerAddress => c.caller_address.word(),
        CallContextField::CalleeAddress => c.address.word(),
        CallContextField::IsStatic => Word {
            hi: 0,
            lo: if c.is_static {
                1
            } else {
                0
            },
        },
        CallContextField::Depth => Word { hi: 0, lo: c.depth as u128 },
    }
}

/// Executable twin of [`ctx_word`].
pub fn ctx_value(c: &Call, f: CallContextField) -> (r: Word)
    ensures
        r == ctx_word(*c, f),
{
    match f {
        CallContextField::CallerAddress => c.caller_address.to_word(),
        CallContextField::CalleeAddress => c.address.to_word(),
        CallContextField::IsStatic => Word {
            hi: 0,
            lo: if c.is_static {
                1
            } else {
                0
            },
        },
        CallContextField::Depth => Word { hi: 0, lo: c.depth as u128 },
    }
}

/// The builder's working state for one active call frame: the index of
/// its call, the derived operand stack, and the previous step of the
/// frame, used to validate that the program counter advances
/// consistently.
#[derive(Clone, Debug)]
pub struct Frame {
    /// Index of the owning call in the current transaction's call list.
    pub call_index: usize,
    /// The derived operand stack; the top element is last.
    pub stack: Vec<Word>,
    pub has_prev: bool,
    pub prev_pc: u64,
    pub prev_op: OpcodeId,
}

/// What an execution step witnessed.
#[derive(Clone, Copy, Debug, PartialEq, Eq, Structural)]
pub enum ExecState {
    /// The bookkeeping step that opens a transaction's root call.
    BeginTx,
    /// One replayed instruction.
    Op(OpcodeId),
}

/// One record per replayed instruction: program counter, opcode, gas,
/// depth, owning call, error status, and the ordered back-references
/// into the operation containers for every operation the step emitted.
#[derive(Clone, Debug, PartialEq, Eq)]
pub struct ExecStep {
    pub exec_state: ExecState,
    pub pc: u64,
    pub gas: u64,
    pub depth: u64,
    pub call_id: u64,
    pub error: Option<ExecError>,
    pub bus_mapping_instance: Vec<OperationRef>,
}

/// One transaction: its fields, its calls in creation order (the root
/// call first), and its execution steps in trace order.
#[derive(Clone, Debug)]
pub struct Transaction {
    pub from: Address,
    pub to: Address,
    pub value: Word,
    pub nonce: u64,
    pub gas: u64,
    pub calls: Vec<Call>,
    pub steps: Vec<ExecStep>,
}

impl Transaction {
    /// The calls of the transaction, the root call first.
    pub fn calls(&self) -> (r: &Vec<Call>)
        ensures
            r == &self.calls,
    {
        &self.calls
    }

    /// The execution steps of the transaction, in trace order.
    pub fn steps(&self) -> (r: &Vec<ExecStep>)
        ensures
            r == &self.steps,
    {
        &self.steps
    }
}

/// One block: its fields, its transactions, and the union of all
/// operation containers, sharing one sequence-number space.
#[derive(Clone, Debug)]
pub struct Block {
    pub number: u64,
    pub timestamp: u64,
    pub base_fee: Word,
    pub txs: Vec<Transaction>,
    pub container: crate::operation::OperationContainer,
}

impl Block {
    /// The completed transactions of the block.
    pub fn txs(&self) -> (r: &Vec<Transaction>)
        ensures
            r == &self.txs,
    {
        &self.txs
    }
}

/// The calls of a sequence of transactions, flattened in order.
pub open spec fn calls_of_txs(txs: Seq<Transaction>) -> Seq<Call>
    decreases txs.len(),
{
    if txs.len() == 0 {
        Seq::empty()
    } else {
        calls_of_txs(txs.drop_last()) + txs.last().calls@
    }
}

pub proof fn lemma_calls_of_txs_push(txs: Seq<Transaction>, t: Transaction)
    ensures
        calls_of_txs(txs.push(t)) == calls_of_txs(txs) + t.calls@,
{
    assert(txs.push(t).drop_last() =~= txs);
    assert(txs.push(t).last() == t);
}

/// Call `i` of a transaction's call list is well placed: exactly the
/// first call is the root at depth 1; every other call points at an
/// earlier parent, runs one level deeper, was entered after its parent,
/// and completes before it.
pub open spec fn tx_call_ok(calls: Seq<Call>, i: int) -> bool {
    &&& 1 <= calls[i].depth <= 1024
    &&& (calls[i].status is Completed ==> calls[i].rwc_start <= calls[i].rwc_end)
    &&& match calls[i].parent {
        None => i == 0 && calls[i].depth == 1,
        Some(j) => {
            &&& i > 0
            &&& 0 <= (j as int) < i
            &&& calls[j as int].depth + 1 == calls[i].depth
            &&& calls[j as int].rwc_start < calls[i].rwc_start
            &&& (calls[j as int].status is Completed ==> calls[i].status is Completed
                && calls[i].rwc_end <= calls[j as int].rwc_end)
        },
    }
}

pub open spec fn tx_calls_ok(calls: Seq<Call>) -> bool {
    forall|i: int| 0 <= i < calls.len() ==> #[trigger] tx_call_ok(calls, i)
}

/// All calls of a transaction have completed.
pub open spec fn tx_done(calls: Seq<Call>) -> bool {
    forall|i: int| 0 <= i < calls.len() ==> (#[trigger] calls[i]).status is Completed
}

/// An operation stamped `rwc` lies inside the lifetime of call `c`: at
/// or after the frame's entry, and before its exit once the frame
/// completed.
pub open spec fn call_window_ok(c: Call, rwc: int) -> bool {
    &&& c.rwc_start <= rwc
    &&& (c.status is Completed ==> rwc < c.rwc_end)
}


/// What every opcode handler leaves untouched, on success and failure
/// alike: the transaction record, the finished transactions, the block
/// fields, the lifecycle flags, the counters of ids, and the shape of
/// the call stack (at most the top frame's bookkeeping changes).
pub open spec fn handler_frame(post: CircuitInputBuilder, pre: CircuitInputBuilder) -> bool {
    &&& post.tx == pre.tx
    &&& post.block.txs == pre.block.txs
    &&& post.block.number == pre.block.number
    &&& post.block.timestamp == pre.block.timestamp
    &&& post.block.base_fee == pre.block.base_fee
    &&& post.in_tx == pre.in_tx
    &&& post.call_id_counter == pre.call_id_counter
    &&& post.check_stack == pre.check_stack
    &&& post.call_stack@.len() == pre.call_stack@.len()
    &&& pre.has_active() ==> post.call_stack@ == pre.call_stack@.update(
        pre.call_stack@.len() - 1,
        post.call_stack@.last(),
    ) && post.cur_frame().call_index == pre.cur_frame().call_index
    &&& !pre.has_active() ==> post.call_stack == pre.call_stack
}

/// The top frame's bookkeeping exactly after a step for `ts` was
/// recorded: the step becomes the frame's previous step.
pub open spec fn stepped_frame(post: CircuitInputBuilder, ts: TraceStep) -> bool {
    &&& post.cur_frame().has_prev
    &&& post.cur_frame().prev_pc == ts.pc
    &&& post.cur_frame().prev_op == ts.op
}

/// A step record mirrors its trace step: same opcode, program counter,
/// gas and depth.
pub open spec fn step_mirrors(st: ExecStep, ts: TraceStep) -> bool {
    &&& st.exec_state == ExecState::Op(ts.op)
    &&& st.pc == ts.pc
    &&& st.gas == ts.gas
    &&& st.depth == ts.depth
}

/// The record a handler returns for trace step `ts` of call `c`.
pub open spec fn step_record_ok(st: ExecStep, ts: TraceStep, c: Call) -> bool {
    &&& step_mirrors(st, ts)
    &&& st.call_id == c.call_id
}

/// The four back-references a freshly opened call's bookkeeping step
/// carries, pointing at its context WRITEs.
pub open spec fn ctx_setup_refs(ctx_len: int) -> Seq<OperationRef> {
    Seq::empty().push(
        OperationRef { target: Target::CallContext, index: ctx_len as usize },
    ).push(OperationRef { target: Target::CallContext, index: (ctx_len + 1) as usize }).push(
        OperationRef { target: Target::CallContext, index: (ctx_len + 2) as usize },
    ).push(OperationRef { target: Target::CallContext, index: (ctx_len + 3) as usize })
}

/// The call-context container after the four WRITEs that establish a
/// fresh call's context fields, in order: caller address, callee
/// address, static flag, depth.
pub open spec fn ctx_setup_entries(
    log: Seq<crate::operation::Operation<CallContextOp>>,
    counter: int,
    c: Call,
) -> Seq<crate::operation::Operation<CallContextOp>> {
    log.push(
        crate::operation::Operation {
            rwc: counter as usize,
            rw: RW::WRITE,
            op: CallContextOp {
                call_id: c.call_id,
                field: CallContextField::CallerAddress,
                value: ctx_word(c, CallContextField::CallerAddress),
            },
        },
    ).push(
        crate::operation::Operation {
            rwc: (counter + 1) as usize,
            rw: RW::WRITE,
            op: CallContextOp {
                call_id: c.call_id,
                field: CallContextField::CalleeAddress,
                value: ctx_word(c, CallContextField::CalleeAddress),
            },
        },
    ).push(
        crate::operation::Operation {
            rwc: (counter + 2) as usize,
            rw: RW::WRITE,
            op: CallContextOp {
                call_id: c.call_id,
                field: CallContextField::IsStatic,
                value: ctx_word(c, CallContextField::IsStatic),
            },
        },
    ).push(
        crate::operation::Operation {
            rwc: (counter + 3) as usize,
            rw: RW::WRITE,
            op: CallContextOp {
                call_id: c.call_id,
                field: CallContextField::Depth,
                value: ctx_word(c, CallContextField::Depth),
            },
        },
    )
}

/// The current call of `pre` stands completed in `post` with the given
/// success flag: it left the call stack, its exit sequence number was
/// stamped, and no other call or field changed.
pub open spec fn completed_current(
    post: CircuitInputBuilder,
    pre: CircuitInputBuilder,
    success: bool,
) -> bool {
    &&& post.call_stack@ == pre.call_stack@.drop_last()
    &&& post.tx.calls@ == pre.tx.calls@.update(
        pre.cur_call_index(),
        post.tx.calls@[pre.cur_call_index()],
    )
    &&& post.tx.calls@[pre.cur_call_index()].status == CallStatus::Completed(success)
    &&& post.tx.calls@[pre.cur_call_index()].call_id == pre.cur_call().call_id
    &&& post.tx.calls@[pre.cur_call_index()].depth == pre.cur_call().depth
    &&& post.tx.calls@[pre.cur_call_index()].parent == pre.cur_call().parent
    &&& post.tx.calls@[pre.cur_call_index()].caller_address == pre.cur_call().caller_address
    &&& post.tx.calls@[pre.cur_call_index()].address == pre.cur_call().address
    &&& post.tx.calls@[pre.cur_call_index()].kind == pre.cur_call().kind
    &&& post.tx.calls@[pre.cur_call_index()].is_static == pre.cur_call().is_static
    &&& post.tx.calls@[pre.cur_call_index()].rwc_start == pre.cur_call().rwc_start
    &&& post.tx.calls@[pre.cur_call_index()].rwc_end == post.block.container.counter
}

/// The circuit input state: the mutable builder context. It owns the
/// block under construction, the transaction being replayed, the active
/// call stack with each frame's derived state, and the counters every
/// handler draws from.
#[derive(Clone, Debug)]
pub struct CircuitInputBuilder {
    pub block: Block,
    /// The transaction currently being replayed; empty between
    /// transactions.
    pub tx: Transaction,
    pub in_tx: bool,
    /// The active frames, innermost last; each holds the index of its
    /// call in `tx.calls`.
    pub call_stack: Vec<Frame>,
    /// The next call id to assign; call ids are unique within the block.
    pub call_id_counter: u64,
    /// When enabled, handlers cross-check derived values against the
    /// observed post-state the trace reports.
    pub check_stack: bool,
}

impl CircuitInputBuilder {
    /// Every call created so far, over finished transactions and the
    /// current one.
    pub open spec fn all_calls(self) -> Seq<Call> {
        calls_of_txs(self.block.txs@) + self.tx.calls@
    }

    pub open spec fn has_active(self) -> bool {
        self.call_stack@.len() > 0
    }

    pub open spec fn cur_frame(self) -> Frame {
        self.call_stack@.last()
    }

    pub open spec fn cur_call_index(self) -> int {
        self.call_stack@.last().call_index as int
    }

    pub open spec fn cur_call(self) -> Call {
        self.tx.calls@[self.cur_call_index()]
    }

    /// The containers are well formed, their logs read-consistent
    /// against the all-zero initial state, and every recorded call id
    /// was actually assigned.
    pub open spec fn container_ok(self) -> bool {
        let ct = self.block.container;
        &&& ct.wf()
        &&& reads_ok(ct.stack_log(), zero_word())
        &&& reads_ok(ct.call_context_log(), zero_word())
        &&& forall|i: int|
            0 <= i < ct.stack@.len() ==> (#[trigger] ct.stack@[i]).op.call_id
                < self.call_id_counter
        &&& forall|i: int|
            0 <= i < ct.call_context@.len() ==> (#[trigger] ct.call_context@[i]).op.call_id
                < self.call_id_counter
    }

    /// Call ids are assigned from the monotone counter and never repeat.
    pub open spec fn ids_ok(self) -> bool {
        let ac = self.all_calls();
        &&& forall|i: int| 0 <= i < ac.len() ==> (#[trigger] ac[i]).call_id < self.call_id_counter
        &&& forall|i: int, j: int| 0 <= i < j < ac.len() ==> ac[i].call_id != ac[j].call_id
    }

    /// Per-transaction call-tree shape, for every finished transaction
    /// and the current one; finished transactions are fully completed.
    pub open spec fn txs_ok(self) -> bool {
        &&& forall|t: int|
            0 <= t < self.block.txs@.len() ==> tx_calls_ok((#[trigger] self.block.txs@[t]).calls@)
                && tx_done(self.block.txs@[t].calls@)
        &&& tx_calls_ok(self.tx.calls@)
    }

    /// Every recorded operation lies inside the lifetime window of the
    /// call it is keyed by, and no call's window reaches past the
    /// sequence counter.
    pub open spec fn windows_ok(self) -> bool {
        let ac = self.all_calls();
        let ct = self.block.container;
        &&& forall|i: int, k: int|
            0 <= i < ac.len() && 0 <= k < ct.stack@.len() && (#[trigger] ct.stack@[k]).op.call_id
                == (#[trigger] ac[i]).call_id ==> call_window_ok(ac[i], ct.stack@[k].rwc as int)
        &&& forall|i: int, k: int|
            0 <= i < ac.len() && 0 <= k < ct.call_context@.len() && (
            #[trigger] ct.call_context@[k]).op.call_id == (#[trigger] ac[i]).call_id
                ==> call_window_ok(ac[i], ct.call_context@[k].rwc as int)
        &&& forall|i: int|
            0 <= i < ac.len() ==> (#[trigger] ac[i]).rwc_start <= ct.counter && (ac[i].status
                is Completed ==> ac[i].rwc_end <= ct.counter) && (ac[i].status is Active
                ==> ac[i].rwc_start < ct.counter)
    }

    /// The frame at stack position `k` is sound: it points at an active
    /// call of the current transaction, and the stack positions mirror
    /// the parent chain.
    pub open spec fn frame_at_ok(self, k: int) -> bool {
        let cs = self.call_stack@;
        let calls = self.tx.calls@;
        &&& cs[k].call_index < calls.len()
        &&& calls[cs[k].call_index as int].status is Active
        &&& if k == 0 {
            calls[cs[k].call_index as int].parent is None
        } else {
            cs[k - 1].call_index < cs[k].call_index && calls[cs[k].call_index as int].parent
                == Some(cs[k - 1].call_index)
        }
    }

    /// Call index `i` appears on the call stack.
    pub open spec fn on_stack(self, i: int) -> bool {
        exists|k: int|
            0 <= k < self.call_stack@.len() && (#[trigger] self.call_stack@[k]).call_index == i
    }

    /// The call stack holds strictly nested, currently active calls of
    /// the current transaction, and every active call is on it.
    pub open spec fn frames_ok(self) -> bool {
        let cs = self.call_stack@;
        let calls = self.tx.calls@;
        &&& forall|k: int| 0 <= k < cs.len() ==> #[trigger] self.frame_at_ok(k)
        &&& forall|i: int|
            0 <= i < calls.len() && (#[trigger] calls[i]).status is Active ==> self.on_stack(i)
        &&& cs.len() > 0 ==> self.in_tx
        &&& !self.in_tx ==> self.tx.calls@.len() == 0 && self.tx.steps@.len() == 0
    }

    /// The derived state of the frame at stack position `k` agrees with
    /// the containers: each derived stack slot is the current value of
    /// its slot key, and every context field of the call reads back as
    /// the value derived from the call itself.
    pub open spec fn frame_linked(self, k: int) -> bool {
        let f = self.call_stack@[k];
        let c = self.tx.calls@[f.call_index as int];
        let ct = self.block.container;
        &&& f.stack@.len() <= 1024
        &&& forall|s: int|
            0 <= s < f.stack@.len() ==> last_write(ct.stack_log(), (c.call_id, (1023 - s) as usize))
                == Some(f.stack@[s])
        &&& forall|f2: CallContextField|
            last_write(ct.call_context_log(), (c.call_id, f2)) == Some(ctx_word(c, f2))
    }

    pub open spec fn frames_linked(self) -> bool {
        forall|k: int| 0 <= k < self.call_stack@.len() ==> #[trigger] self.frame_linked(k)
    }

    /// The builder invariant: established by the constructor, preserved
    /// by every primitive, and the source of every consistency property
    /// the circuit relies on.
    pub open spec fn wf(self) -> bool {
        &&& self.container_ok()
        &&& self.ids_ok()
        &&& self.txs_ok()
        &&& self.windows_ok()
        &&& self.frames_ok()
        &&& self.frames_linked()
    }

    /// The position of current-transaction call `i` within `all_calls`.
    pub proof fn lemma_cur_call_in_all(self, i: int)
        requires
            0 <= i < self.tx.calls@.len(),
        ensures
            self.all_calls().len() == calls_of_txs(self.block.txs@).len() + self.tx.calls@.len(),
            self.all_calls()[calls_of_txs(self.block.txs@).len() + i] == self.tx.calls@[i],
    {
    }

    /// Distinct calls of the current transaction carry distinct ids,
    /// each below the id counter.
    pub proof fn lemma_cur_ids(self, i: int, j: int)
        requires
            self.ids_ok(),
            0 <= i < self.tx.calls@.len(),
            0 <= j < self.tx.calls@.len(),
        ensures
            self.tx.calls@[i].call_id < self.call_id_counter,
            i != j ==> self.tx.calls@[i].call_id != self.tx.calls@[j].call_id,
    {
        let base = calls_of_txs(self.block.txs@).len() as int;
        self.lemma_cur_call_in_all(i);
        self.lemma_cur_call_in_all(j);
        assert(self.all_calls()[base + i].call_id < self.call_id_counter);
        if i < j {
            assert(self.all_calls()[base + i].call_id != self.all_calls()[base + j].call_id);
        } else if j < i {
            assert(self.all_calls()[base + j].call_id != self.all_calls()[base + i].call_id);
        }
    }

    /// Stack positions carry strictly increasing call indices.
    pub proof fn lemma_stack_order(self, k1: int, k2: int)
        requires
            forall|k: int| 0 <= k < self.call_stack@.len() ==> #[trigger] self.frame_at_ok(k),
            0 <= k1 < k2 < self.call_stack@.len(),
        ensures
            self.call_stack@[k1].call_index < self.call_stack@[k2].call_index,
        decreases k2 - k1,
    {
        assert(self.frame_at_ok(k2));
        if k1 < k2 - 1 {
            self.lemma_stack_order(k1, k2 - 1);
        }
    }

    /// A fresh builder for one block, with an empty container and no
    /// transaction in progress. `check_stack` enables cross-checking
    /// derived values against the trace's observed post-state.
    pub fn new(number: u64, timestamp: u64, base_fee: Word, check_stack: bool) -> (r:
        CircuitInputBuilder)
        ensures
            r.wf(),
            r.block.number == number,
            r.block.timestamp == timestamp,
            r.block.base_fee == base_fee,
            r.block.txs@.len() == 0,
            r.block.container.counter == 0,
            r.check_stack == check_stack,
            !r.in_tx,
            r.call_id_counter == 1,
    {
        let r = CircuitInputBuilder {
            block: Block {
                number,
                timestamp,
                base_fee,
                txs: Vec::new(),
                container: crate::operation::OperationContainer::new(),
            },
            tx: Transaction {
                from: Address { hi: 0, lo: 0 },
                to: Address { hi: 0, lo: 0 },
                value: Word::zero(),
                nonce: 0,
                gas: 0,
                calls: Vec::new(),
                steps: Vec::new(),
            },
            in_tx: false,
            call_stack: Vec::new(),
            call_id_counter: 1,
            check_stack,
        };
        proof {
            assert(r.all_calls() =~= Seq::<Call>::empty());
            assert(r.block.container.stack_log() =~= Seq::<Access<(u64, usize), Word>>::empty());
            assert(r.block.container.call_context_log() =~= Seq::<
                Access<(u64, CallContextField), Word>,
            >::empty());
        }
        r
    }

    /// The current (innermost) call frame; `NoActiveCall` when invoked
    /// outside any call.
    pub fn call(&self) -> (r: Result<&Call, Error>)
        requires
            self.wf(),
        ensures
            match r {
                Ok(c) => self.has_active() && *c == self.cur_call(),
                Err(e) => e == Error::NoActiveCall && !self.has_active(),
            },
    {
        if self.call_stack.len() == 0 {
            Err(Error::NoActiveCall)
        } else {
            let f = &self.call_stack[self.call_stack.len() - 1];
            proof {
                assert(self.frame_at_ok(self.call_stack@.len() - 1));
            }
            Ok(&self.tx.calls[f.call_index])
        }
    }

    /// Everything the context accessors leave untouched.
    pub open spec fn ctx_access_frame(self, pre: Self) -> bool {
        &&& self.tx == pre.tx
        &&& self.call_stack == pre.call_stack
        &&& self.block.txs == pre.block.txs
        &&& self.block.number == pre.block.number
        &&& self.block.timestamp == pre.block.timestamp
        &&& self.block.base_fee == pre.block.base_fee
        &&& self.block.container.stack == pre.block.container.stack
        &&& self.in_tx == pre.in_tx
        &&& self.call_id_counter == pre.call_id_counter
        &&& self.check_stack == pre.check_stack
    }

    /// Shared proof that appending one call-context operation for the
    /// current call, with the value derived from the call itself,
    /// preserves the builder invariant.
    proof fn lemma_ctx_append_wf(pre: Self, post: Self, rw: RW, field: CallContextField, value: Word)
        requires
            pre.wf(),
            pre.has_active(),
            post.ctx_access_frame(pre),
            pre.block.container.counter < usize::MAX,
            value == ctx_word(pre.cur_call(), field),
            post.block.container.call_context@ == pre.block.container.call_context@.push(
                crate::operation::Operation {
                    rwc: pre.block.container.counter,
                    rw,
                    op: CallContextOp { call_id: pre.cur_call().call_id, field, value },
                },
            ),
            post.block.container.counter == pre.block.container.counter + 1,
            post.block.container.wf(),
        ensures
            post.wf(),
    {
        let ct0 = pre.block.container;
        let ct1 = post.block.container;
        let cur = pre.cur_call();
        let kt = pre.call_stack@.len() - 1;
        let acc = Access::<(u64, CallContextField), Word> {
            rw,
            key: (cur.call_id, field),
            value,
        };
        assert(pre.frame_at_ok(kt));
        assert(pre.frame_linked(kt));
        let idx = pre.cur_call_index();
        assert(ct1.call_context_log() =~= ct0.call_context_log().push(acc));
        assert(ct1.stack_log() =~= ct0.stack_log());
        assert(post.all_calls() =~= pre.all_calls());
        // read consistency
        assert(last_write(ct0.call_context_log(), (cur.call_id, field)) == Some(
            ctx_word(cur, field),
        ));
        lemma_reads_ok_push(ct0.call_context_log(), acc, zero_word());
        // id bound on the new entry
        pre.lemma_cur_ids(idx, idx);
        assert(post.container_ok());
        assert(post.ids_ok());
        assert(post.txs_ok());
        // windows
        let ac = post.all_calls();
        let base = calls_of_txs(pre.block.txs@).len() as int;
        pre.lemma_cur_call_in_all(idx);
        assert forall|i: int|
            0 <= i < ac.len() && (#[trigger] ac[i]).call_id == cur.call_id implies call_window_ok(
            ac[i],
            ct0.counter as int,
        ) by {
            if i != base + idx {
                if i < base + idx {
                    assert(ac[i].call_id != ac[base + idx].call_id);
                } else {
                    assert(ac[base + idx].call_id != ac[i].call_id);
                }
            } else {
                assert(ac[i] == cur);
                assert(pre.windows_ok());
            }
        }
        assert(post.windows_ok());
        // frames
        assert forall|k: int| 0 <= k < post.call_stack@.len() implies #[trigger] post.frame_at_ok(
            k,
        ) by {
            assert(pre.frame_at_ok(k));
        }
        assert forall|i: int|
            0 <= i < post.tx.calls@.len() && (#[trigger] post.tx.calls@[i]).status
                is Active implies post.on_stack(i) by {
            assert(pre.on_stack(i));
            let k0 = choose|k: int|
                0 <= k < pre.call_stack@.len() && (#[trigger] pre.call_stack@[k]).call_index == i;
            assert(0 <= k0 < post.call_stack@.len() && post.call_stack@[k0].call_index == i);
        }
        assert(post.frames_ok());
        assert forall|k: int| 0 <= k < post.call_stack@.len() implies #[trigger] post.frame_linked(
            k,
        ) by {
            assert(pre.frame_linked(k));
            assert(pre.frame_at_ok(k));
            let f = post.call_stack@[k];
            let c = post.tx.calls@[f.call_index as int];
            assert forall|f2: CallContextField|
                last_write(ct1.call_context_log(), (c.call_id, f2)) == Some(ctx_word(c, f2)) by {
                lemma_last_write_push(ct0.call_context_log(), acc, (c.call_id, f2));
                if (c.call_id, f2) == (cur.call_id, field) {
                    if k != kt {
                        pre.lemma_stack_order(k, kt);
                        pre.lemma_cur_ids(f.call_index as int, idx);
                        assert(false);
                    } else {
                        assert(c == cur);
                    }
                }
            }
        }
        assert(post.frames_linked());
    }

    /// Record a READ of one call-context field of the call `call_id`,
    /// which must be the current call. The handler supplies the value it
    /// derived from the call itself; a mismatch against the builder's
    /// own derivation is a consistency violation caught at append time.
    pub fn call_context_read(
        &mut self,
        step: &mut ExecStep,
        call_id: u64,
        field: CallContextField,
        value: Word,
    ) -> (r: Result<(), Error>)
        requires
            old(self).wf(),
        ensures
            final(self).wf(),
            final(self).ctx_access_frame(*old(self)),
            final(step).exec_state == old(step).exec_state,
            final(step).pc == old(step).pc,
            final(step).gas == old(step).gas,
            final(step).depth == old(step).depth,
            final(step).call_id == old(step).call_id,
            final(step).error == old(step).error,
            match r {
                Ok(u) => {
                    &&& old(self).has_active()
                    &&& call_id == old(self).cur_call().call_id
                    &&& value == ctx_word(old(self).cur_call(), field)
                    &&& old(self).block.container.counter < usize::MAX
                    &&& final(self).block.container.call_context@ == old(
                        self,
                    ).block.container.call_context@.push(
                        crate::operation::Operation {
                            rwc: old(self).block.container.counter,
                            rw: RW::READ,
                            op: CallContextOp { call_id, field, value },
                        },
                    )
                    &&& final(self).block.container.counter == old(self).block.container.counter
                        + 1
                    &&& final(step).bus_mapping_instance@ == old(step).bus_mapping_instance@.push(
                        OperationRef {
                            target: Target::CallContext,
                            index: old(self).block.container.call_context@.len() as usize,
                        },
                    )
                },
                Err(e) => {
                    &&& *final(self) == *old(self)
                    &&& *final(step) == *old(step)
                    &&& if !old(self).has_active() {
                        e == Error::NoActiveCall
                    } else if call_id != old(self).cur_call().call_id || value != ctx_word(
                        old(self).cur_call(),
                        field,
                    ) {
                        e == Error::InconsistentValue
                    } else {
                        e == Error::CounterOverflow && old(self).block.container.counter
                            == usize::MAX
                    }
                },
            },
    {
        if self.call_stack.len() == 0 {
            return Err(Error::NoActiveCall);
        }
        let fi = self.call_stack.len() - 1;
        proof {
            assert(self.frame_at_ok(fi as int));
        }
        let ci = self.call_stack[fi].call_index;
        let derived = ctx_value(&self.tx.calls[ci], field);
        if call_id != self.tx.calls[ci].call_id || value != derived {
            return Err(Error::InconsistentValue);
        }
        if self.block.container.counter == usize::MAX {
            return Err(Error::CounterOverflow);
        }
        let ghost pre = *self;
        let op_index = self.block.container.append_call_context(
            RW::READ,
            CallContextOp { call_id, field, value },
        );
        step.bus_mapping_instance.push(OperationRef { target: Target::CallContext, index: op_index });
        proof {
            Self::lemma_ctx_append_wf(pre, *self, RW::READ, field, value);
        }
        Ok(())
    }

    /// Record a WRITE of one call-context field of the call `call_id`,
    /// which must be the current call; the written value must again be
    /// the one derived from the call itself, so the field's current
    /// value never drifts from the frame.
    pub fn call_context_write(
        &mut self,
        step: &mut ExecStep,
        call_id: u64,
        field: CallContextField,
        value: Word,
    ) -> (r: Result<(), Error>)
        requires
            old(self).wf(),
        ensures
            final(self).wf(),
            final(self).ctx_access_frame(*old(self)),
            final(step).exec_state == old(step).exec_state,
            final(step).pc == old(step).pc,
            final(step).gas == old(step).gas,
            final(step).depth == old(step).depth,
            final(step).call_id == old(step).call_id,
            final(step).error == old(step).error,
            match r {
                Ok(u) => {
                    &&& old(self).has_active()
                    &&& call_id == old(self).cur_call().call_id
                    &&& value == ctx_word(old(self).cur_call(), field)
                    &&& old(self).block.container.counter < usize::MAX
                    &&& final(self).block.container.call_context@ == old(
                        self,
                    ).block.container.call_context@.push(
                        crate::operation::Operation {
                            rwc: old(self).block.container.counter,
                            rw: RW::WRITE,
                            op: CallContextOp { call_id, field, value },
                        },
                    )
                    &&& final(self).block.container.counter == old(self).block.container.counter
                        + 1
                    &&& final(step).bus_mapping_instance@ == old(step).bus_mapping_instance@.push(
                        OperationRef {
                            target: Target::CallContext,
                            index: old(self).block.container.call_context@.len() as usize,
                        },
                    )
                },
                Err(e) => {
                    &&& *final(self) == *old(self)
                    &&& *final(step) == *old(step)
                    &&& if !old(self).has_active() {
                        e == Error::NoActiveCall
                    } else if call_id != old(self).cur_call().call_id || value != ctx_word(
                        old(self).cur_call(),
                        field,
                    ) {
                        e == Error::InconsistentValue
                    } else {
                        e == Error::CounterOverflow && old(self).block.container.counter
                            == usize::MAX
                    }
                },
            },
    {
        if self.call_stack.len() == 0 {
            return Err(Error::NoActiveCall);
        }
        let fi = self.call_stack.len() - 1;
        proof {
            assert(self.frame_at_ok(fi as int));
        }
        let ci = self.call_stack[fi].call_index;
        let derived = ctx_value(&self.tx.calls[ci], field);
        if call_id != self.tx.calls[ci].call_id || value != derived {
            return Err(Error::InconsistentValue);
        }
        if self.block.container.counter == usize::MAX {
            return Err(Error::CounterOverflow);
        }
        let ghost pre = *self;
        let op_index = self.block.container.append_call_context(
            RW::WRITE,
            CallContextOp { call_id, field, value },
        );
        step.bus_mapping_instance.push(OperationRef { target: Target::CallContext, index: op_index });
        proof {
            Self::lemma_ctx_append_wf(pre, *self, RW::WRITE, field, value);
        }
        Ok(())
    }

    /// Everything the stack accessors leave untouched besides the top
    /// frame and the stack container.
    pub open spec fn stack_access_frame(self, pre: Self) -> bool {
        &&& self.tx == pre.tx
        &&& self.block.txs == pre.block.txs
        &&& self.block.number == pre.block.number
        &&& self.block.timestamp == pre.block.timestamp
        &&& self.block.base_fee == pre.block.base_fee
        &&& self.block.container.call_context == pre.block.container.call_context
        &&& self.in_tx == pre.in_tx
        &&& self.call_id_counter == pre.call_id_counter
        &&& self.check_stack == pre.check_stack
        &&& self.call_stack@.len() == pre.call_stack@.len()
        &&& self.call_stack@ == pre.call_stack@.update(
            pre.call_stack@.len() - 1,
            self.call_stack@.last(),
        )
        &&& self.cur_frame().call_index == pre.cur_frame().call_index
        &&& self.cur_frame().has_prev == pre.cur_frame().has_prev
        &&& self.cur_frame().prev_pc == pre.cur_frame().prev_pc
        &&& self.cur_frame().prev_op == pre.cur_frame().prev_op
    }

    /// Shared proof that appending one stack operation for the current
    /// call preserves the builder invariant: a WRITE of the next free
    /// slot together with a derived-stack push, or a READ of the top
    /// slot's current value together with a derived-stack pop.
    proof fn lemma_stack_append_wf(pre: Self, post: Self, rw: RW, value: Word)
        requires
            pre.wf(),
            pre.has_active(),
            post.stack_access_frame(pre),
            pre.block.container.counter < usize::MAX,
            rw == RW::WRITE ==> pre.cur_frame().stack@.len() < 1024 && post.cur_frame().stack@
                == pre.cur_frame().stack@.push(value),
            rw == RW::READ ==> pre.cur_frame().stack@.len() > 0 && value
                == pre.cur_frame().stack@.last() && post.cur_frame().stack@
                == pre.cur_frame().stack@.drop_last(),
            post.block.container.stack@ == pre.block.container.stack@.push(
                crate::operation::Operation {
                    rwc: pre.block.container.counter,
                    rw,
                    op: StackOp {
                        call_id: pre.cur_call().call_id,
                        address: StackAddress(
                            if rw == RW::WRITE {
                                (1023 - pre.cur_frame().stack@.len()) as usize
                            } else {
                                (1024 - pre.cur_frame().stack@.len()) as usize
                            },
                        ),
                        value,
                    },
                },
            ),
            post.block.container.counter == pre.block.container.counter + 1,
            post.block.container.wf(),
        ensures
            post.wf(),
    {
        let ct0 = pre.block.container;
        let ct1 = post.block.container;
        let cur = pre.cur_call();
        let kt = pre.call_stack@.len() - 1;
        let sa: usize = if rw == RW::WRITE {
            (1023 - pre.cur_frame().stack@.len()) as usize
        } else {
            (1024 - pre.cur_frame().stack@.len()) as usize
        };
        let acc = Access::<(u64, usize), Word> { rw, key: (cur.call_id, sa), value };
        assert(pre.frame_at_ok(kt));
        assert(pre.frame_linked(kt));
        let idx = pre.cur_call_index();
        assert(ct1.stack_log() =~= ct0.stack_log().push(acc));
        assert(ct1.call_context_log() =~= ct0.call_context_log());
        assert(post.all_calls() =~= pre.all_calls());
        // read consistency: a READ pops the top slot, whose current
        // value the frame mirrors.
        if rw == RW::READ {
            let s = pre.cur_frame().stack@.len() - 1;
            assert(last_write(ct0.stack_log(), (cur.call_id, (1023 - s) as usize)) == Some(
                pre.cur_frame().stack@[s],
            ));
            assert((1023 - s) as usize == sa);
        }
        lemma_reads_ok_push(ct0.stack_log(), acc, zero_word());
        pre.lemma_cur_ids(idx, idx);
        assert(post.container_ok());
        assert(post.ids_ok());
        assert(post.txs_ok());
        // windows
        let ac = post.all_calls();
        let base = calls_of_txs(pre.block.txs@).len() as int;
        pre.lemma_cur_call_in_all(idx);
        assert forall|i: int|
            0 <= i < ac.len() && (#[trigger] ac[i]).call_id == cur.call_id implies call_window_ok(
            ac[i],
            ct0.counter as int,
        ) by {
            if i != base + idx {
                if i < base + idx {
                    assert(ac[i].call_id != ac[base + idx].call_id);
                } else {
                    assert(ac[base + idx].call_id != ac[i].call_id);
                }
            } else {
                assert(ac[i] == cur);
                assert(pre.windows_ok());
            }
        }
        assert(post.windows_ok());
        // frames
        assert forall|k: int| 0 <= k < post.call_stack@.len() implies #[trigger] post.frame_at_ok(
            k,
        ) by {
            assert(pre.frame_at_ok(k));
            if k > 0 {
                assert(pre.frame_at_ok(k - 1));
            }
        }
        assert forall|i: int|
            0 <= i < post.tx.calls@.len() && (#[trigger] post.tx.calls@[i]).status
                is Active implies post.on_stack(i) by {
            assert(pre.on_stack(i));
            let k0 = choose|k: int|
                0 <= k < pre.call_stack@.len() && (#[trigger] pre.call_stack@[k]).call_index == i;
            assert(0 <= k0 < post.call_stack@.len() && post.call_stack@[k0].call_index == i);
        }
        assert(post.frames_ok());
        assert forall|k: int| 0 <= k < post.call_stack@.len() implies #[trigger] post.frame_linked(
            k,
        ) by {
            assert(pre.frame_linked(k));
            assert(pre.frame_at_ok(k));
            let f = post.call_stack@[k];
            let c = post.tx.calls@[f.call_index as int];
            if k != kt {
                assert(f == pre.call_stack@[k]);
                assert forall|s: int| 0 <= s < f.stack@.len() implies last_write(
                    ct1.stack_log(),
                    (c.call_id, (1023 - s) as usize),
                ) == Some(f.stack@[s]) by {
                    lemma_last_write_push(ct0.stack_log(), acc, (c.call_id, (1023 - s) as usize));
                    if c.call_id == cur.call_id {
                        pre.lemma_stack_order(k, kt);
                        pre.lemma_cur_ids(f.call_index as int, idx);
                        assert(false);
                    }
                }
            } else {
                assert forall|s: int| 0 <= s < f.stack@.len() implies last_write(
                    ct1.stack_log(),
                    (c.call_id, (1023 - s) as usize),
                ) == Some(f.stack@[s]) by {
                    lemma_last_write_push(ct0.stack_log(), acc, (c.call_id, (1023 - s) as usize));
                    if rw == RW::WRITE {
                        if s == f.stack@.len() - 1 {
                            assert((1023 - s) as usize == sa);
                            assert(f.stack@[s] == value);
                        } else {
                            assert((1023 - s) as usize != sa);
                            assert(f.stack@[s] == pre.call_stack@[kt].stack@[s]);
                        }
                    } else {
                        assert(f.stack@[s] == pre.call_stack@[kt].stack@[s]);
                    }
                }
            }
        }
        assert(post.frames_linked());
    }

    /// Push `value` onto the current call's operand stack, recording a
    /// WRITE of the post-push top-of-stack slot. Fails with
    /// `StackOverflow` when the 1024-slot bound would be exceeded.
    pub fn stack_push(&mut self, step: &mut ExecStep, value: Word) -> (r: Result<(), Error>)
        requires
            old(self).wf(),
        ensures
            final(self).wf(),
            final(step).exec_state == old(step).exec_state,
            final(step).pc == old(step).pc,
            final(step).gas == old(step).gas,
            final(step).depth == old(step).depth,
            final(step).call_id == old(step).call_id,
            final(step).error == old(step).error,
            match r {
                Ok(u) => {
                    &&& old(self).has_active()
                    &&& old(self).cur_frame().stack@.len() < 1024
                    &&& old(self).block.container.counter < usize::MAX
                    &&& final(self).stack_access_frame(*old(self))
                    &&& final(self).cur_frame().stack@ == old(self).cur_frame().stack@.push(value)
                    &&& final(self).block.container.stack@ == old(
                        self,
                    ).block.container.stack@.push(
                        crate::operation::Operation {
                            rwc: old(self).block.container.counter,
                            rw: RW::WRITE,
                            op: StackOp {
                                call_id: old(self).cur_call().call_id,
                                address: StackAddress(
                                    (1023 - old(self).cur_frame().stack@.len()) as usize,
                                ),
                                value,
                            },
                        },
                    )
                    &&& final(self).block.container.counter == old(self).block.container.counter
                        + 1
                    &&& final(step).bus_mapping_instance@ == old(step).bus_mapping_instance@.push(
                        OperationRef {
                            target: Target::Stack,
                            index: old(self).block.container.stack@.len() as usize,
                        },
                    )
                },
                Err(e) => {
                    &&& *final(self) == *old(self)
                    &&& *final(step) == *old(step)
                    &&& if !old(self).has_active() {
                        e == Error::NoActiveCall
                    } else if old(self).cur_frame().stack@.len() >= 1024 {
                        e == Error::Execution(ExecError::StackOverflow)
                    } else {
                        e == Error::CounterOverflow && old(self).block.container.counter
                            == usize::MAX
                    }
                },
            },
    {
        if self.call_stack.len() == 0 {
            return Err(Error::NoActiveCall);
        }
        let fi = self.call_stack.len() - 1;
        proof {
            assert(self.frame_at_ok(fi as int));
        }
        if self.call_stack[fi].stack.len() >= 1024 {
            return Err(Error::Execution(ExecError::StackOverflow));
        }
        if self.block.container.counter == usize::MAX {
            return Err(Error::CounterOverflow);
        }
        let ghost pre = *self;
        let mut f = match self.call_stack.pop() {
            Some(f) => f,
            None => {
                return Err(Error::NoActiveCall);
            },
        };
        let sp = f.stack.len();
        let addr: usize = 1023 - sp;
        let call_id = self.tx.calls[f.call_index].call_id;
        let op_index = self.block.container.append_stack(
            RW::WRITE,
            StackOp { call_id, address: StackAddress(addr), value },
        );
        f.stack.push(value);
        self.call_stack.push(f);
        step.bus_mapping_instance.push(OperationRef { target: Target::Stack, index: op_index });
        proof {
            assert(self.call_stack@ =~= pre.call_stack@.update(fi as int, self.call_stack@.last()));
            Self::lemma_stack_append_wf(pre, *self, RW::WRITE, value);
        }
        Ok(())
    }

    /// Pop the current call's operand stack, recording a READ of the
    /// pre-pop top-of-stack slot with its current value. Fails with
    /// `StackUnderflow` on an empty stack.
    pub fn stack_pop(&mut self, step: &mut ExecStep) -> (r: Result<Word, Error>)
        requires
            old(self).wf(),
        ensures
            final(self).wf(),
            final(step).exec_state == old(step).exec_state,
            final(step).pc == old(step).pc,
            final(step).gas == old(step).gas,
            final(step).depth == old(step).depth,
            final(step).call_id == old(step).call_id,
            final(step).error == old(step).error,
            match r {
                Ok(value) => {
                    &&& old(self).has_active()
                    &&& old(self).cur_frame().stack@.len() > 0
                    &&& old(self).block.container.counter < usize::MAX
                    &&& value == old(self).cur_frame().stack@.last()
                    &&& final(self).stack_access_frame(*old(self))
                    &&& final(self).cur_frame().stack@ == old(self).cur_frame().stack@.drop_last()
                    &&& final(self).block.container.stack@ == old(
                        self,
                    ).block.container.stack@.push(
                        crate::operation::Operation {
                            rwc: old(self).block.container.counter,
                            rw: RW::READ,
                            op: StackOp {
                                call_id: old(self).cur_call().call_id,
                                address: StackAddress(
                                    (1024 - old(self).cur_frame().stack@.len()) as usize,
                                ),
                                value,
                            },
                        },
                    )
                    &&& final(self).block.container.counter == old(self).block.container.counter
                        + 1
                    &&& final(step).bus_mapping_instance@ == old(step).bus_mapping_instance@.push(
                        OperationRef {
                            target: Target::Stack,
                            index: old(self).block.container.stack@.len() as usize,
                        },
                    )
                },
                Err(e) => {
                    &&& *final(self) == *old(self)
                    &&& *final(step) == *old(step)
                    &&& if !old(self).has_active() {
                        e == Error::NoActiveCall
                    } else if old(self).cur_frame().stack@.len() == 0 {
                        e == Error::Execution(ExecError::StackUnderflow)
                    } else {
                        e == Error::CounterOverflow && old(self).block.container.counter
                            == usize::MAX
                    }
                },
            },
    {
        if self.call_stack.len() == 0 {
            return Err(Error::NoActiveCall);
        }
        let fi = self.call_stack.len() - 1;
        proof {
            assert(self.frame_at_ok(fi as int));
        }
        if self.call_stack[fi].stack.len() == 0 {
            return Err(Error::Execution(ExecError::StackUnderflow));
        }
        if self.block.container.counter == usize::MAX {
            return Err(Error::CounterOverflow);
        }
        let ghost pre = *self;
        let mut f = match self.call_stack.pop() {
            Some(f) => f,
            None => {
                return Err(Error::NoActiveCall);
            },
        };
        let sp = f.stack.len();
        let value = match f.stack.pop() {
            Some(v) => v,
            None => {
                return Err(Error::Execution(ExecError::StackUnderflow));
            },
        };
        proof {
            assert(pre.frame_linked(fi as int));
        }
        let addr: usize = 1024 - sp;
        let call_id = self.tx.calls[f.call_index].call_id;
        let op_index = self.block.container.append_stack(
            RW::READ,
            StackOp { call_id, address: StackAddress(addr), value },
        );
        self.call_stack.push(f);
        step.bus_mapping_instance.push(OperationRef { target: Target::Stack, index: op_index });
        proof {
            assert(self.call_stack@ =~= pre.call_stack@.update(fi as int, self.call_stack@.last()));
            Self::lemma_stack_append_wf(pre, *self, RW::READ, value);
        }
        Ok(value)
    }

    /// Whether a trace step is consistent with the current call: it
    /// runs at the call's depth, and for a sequentially executed
    /// predecessor the program counter advances by exactly the
    /// predecessor's instruction width.
    pub open spec fn step_valid(self, ts: TraceStep) -> bool {
        &&& self.has_active()
        &&& ts.depth == self.cur_call().depth
        &&& (self.cur_frame().has_prev && !self.cur_frame().prev_op.spec_is_jump() ==> ts.pc
            == self.cur_frame().prev_pc + self.cur_frame().prev_op.spec_width())
    }

    /// Start recording a new execution step for trace step `ts`,
    /// validating it against the current call's program position.
    pub fn new_step(&mut self, ts: &TraceStep) -> (r: Result<ExecStep, Error>)
        requires
            old(self).wf(),
        ensures
            final(self).wf(),
            final(self).block == old(self).block,
            final(self).tx == old(self).tx,
            final(self).in_tx == old(self).in_tx,
            final(self).call_id_counter == old(self).call_id_counter,
            final(self).check_stack == old(self).check_stack,
            match r {
                Ok(step) => {
                    &&& old(self).step_valid(*ts)
                    &&& step.exec_state == ExecState::Op(ts.op)
                    &&& step.pc == ts.pc
                    &&& step.gas == ts.gas
                    &&& step.depth == ts.depth
                    &&& step.call_id == old(self).cur_call().call_id
                    &&& step.error is None
                    &&& step.bus_mapping_instance@.len() == 0
                    &&& final(self).call_stack@ == old(self).call_stack@.update(
                        old(self).call_stack@.len() - 1,
                        final(self).cur_frame(),
                    )
                    &&& final(self).cur_frame().call_index == old(self).cur_frame().call_index
                    &&& final(self).cur_frame().stack@ == old(self).cur_frame().stack@
                    &&& final(self).cur_frame().has_prev
                    &&& final(self).cur_frame().prev_pc == ts.pc
                    &&& final(self).cur_frame().prev_op == ts.op
                },
                Err(e) => {
                    &&& *final(self) == *old(self)
                    &&& if !old(self).has_active() {
                        e == Error::NoActiveCall
                    } else {
                        e == Error::InvalidTraceStep && !old(self).step_valid(*ts)
                    }
                },
            },
    {
        if self.call_stack.len() == 0 {
            return Err(Error::NoActiveCall);
        }
        let fi = self.call_stack.len() - 1;
        proof {
            assert(self.frame_at_ok(fi as int));
        }
        let ci = self.call_stack[fi].call_index;
        if ts.depth != self.tx.calls[ci].depth {
            return Err(Error::InvalidTraceStep);
        }
        if self.call_stack[fi].has_prev && !self.call_stack[fi].prev_op.is_jump() {
            let ppc = self.call_stack[fi].prev_pc;
            let w = self.call_stack[fi].prev_op.width();
            if ppc > u64::MAX - w || ts.pc != ppc + w {
                return Err(Error::InvalidTraceStep);
            }
        }
        let ghost pre = *self;
        let mut f = match self.call_stack.pop() {
            Some(f) => f,
            None => {
                return Err(Error::NoActiveCall);
            },
        };
        let call_id = self.tx.calls[f.call_index].call_id;
        f.has_prev = true;
        f.prev_pc = ts.pc;
        f.prev_op = ts.op;
        self.call_stack.push(f);
        let step = ExecStep {
            exec_state: ExecState::Op(ts.op),
            pc: ts.pc,
            gas: ts.gas,
            depth: ts.depth,
            call_id,
            error: None,
            bus_mapping_instance: Vec::new(),
        };
        proof {
            assert(self.call_stack@ =~= pre.call_stack@.update(fi as int, self.call_stack@.last()));
            let post = *self;
            assert forall|k: int|
                0 <= k < post.call_stack@.len() implies #[trigger] post.frame_at_ok(k) by {
                assert(pre.frame_at_ok(k));
                if k > 0 {
                    assert(pre.frame_at_ok(k - 1));
                }
            }
            assert forall|i: int|
                0 <= i < post.tx.calls@.len() && (#[trigger] post.tx.calls@[i]).status
                    is Active implies post.on_stack(i) by {
                assert(pre.on_stack(i));
                let k0 = choose|k: int|
                    0 <= k < pre.call_stack@.len() && (#[trigger] pre.call_stack@[k]).call_index
                        == i;
                assert(0 <= k0 < post.call_stack@.len() && post.call_stack@[k0].call_index == i);
            }
            assert(post.frames_ok());
            assert forall|k: int|
                0 <= k < post.call_stack@.len() implies #[trigger] post.frame_linked(k) by {
                assert(pre.frame_linked(k));
            }
            assert(post.frames_linked());
            assert(post.windows_ok()) by {
                assert(post.all_calls() =~= pre.all_calls());
            }
            assert(post.ids_ok()) by {
                assert(post.all_calls() =~= pre.all_calls());
            }
        }
        Ok(step)
    }

    /// Open a new call frame for `new_call`: append it to the call list,
    /// push its frame, draw its id, and record the four call-context
    /// WRITEs that establish the frame's derived context fields.
    fn push_call_frame(&mut self, step: &mut ExecStep, new_call: Call) -> (r: ())
        requires
            old(self).wf(),
            old(self).in_tx,
            old(self).block.container.counter + 4 <= usize::MAX,
            old(self).call_id_counter < u64::MAX,
            new_call.call_id == old(self).call_id_counter,
            new_call.status is Active,
            new_call.rwc_start == old(self).block.container.counter,
            1 <= new_call.depth <= 1024,
            match new_call.parent {
                None => old(self).call_stack@.len() == 0 && old(self).tx.calls@.len() == 0
                    && new_call.depth == 1,
                Some(j) => {
                    &&& old(self).has_active()
                    &&& (j as int) == old(self).cur_call_index()
                    &&& (j as int) < old(self).tx.calls@.len()
                    &&& new_call.depth == old(self).cur_call().depth + 1
                },
            },
        ensures
            final(self).wf(),
            final(self).in_tx,
            final(self).block.txs == old(self).block.txs,
            final(self).block.number == old(self).block.number,
            final(self).block.timestamp == old(self).block.timestamp,
            final(self).block.base_fee == old(self).block.base_fee,
            final(self).block.container.stack == old(self).block.container.stack,
            final(self).tx.from == old(self).tx.from,
            final(self).tx.to == old(self).tx.to,
            final(self).tx.value == old(self).tx.value,
            final(self).tx.nonce == old(self).tx.nonce,
            final(self).tx.gas == old(self).tx.gas,
            final(self).tx.steps == old(self).tx.steps,
            final(self).check_stack == old(self).check_stack,
            final(self).call_id_counter == old(self).call_id_counter + 1,
            final(self).tx.calls@ == old(self).tx.calls@.push(new_call),
            final(self).call_stack@.len() == old(self).call_stack@.len() + 1,
            final(self).call_stack@ == old(self).call_stack@.push(final(self).cur_frame()),
            final(self).cur_frame().call_index == old(self).tx.calls@.len(),
            final(self).cur_frame().stack@.len() == 0,
            !final(self).cur_frame().has_prev,
            final(self).block.container.counter == old(self).block.container.counter + 4,
            final(self).block.container.call_context@ == old(
                self,
            ).block.container.call_context@.push(
                crate::operation::Operation {
                    rwc: old(self).block.container.counter,
                    rw: RW::WRITE,
                    op: CallContextOp {
                        call_id: new_call.call_id,
                        field: CallContextField::CallerAddress,
                        value: ctx_word(new_call, CallContextField::CallerAddress),
                    },
                },
            ).push(
                crate::operation::Operation {
                    rwc: (old(self).block.container.counter + 1) as usize,
                    rw: RW::WRITE,
                    op: CallContextOp {
                        call_id: new_call.call_id,
                        field: CallContextField::CalleeAddress,
                        value: ctx_word(new_call, CallContextField::CalleeAddress),
                    },
                },
            ).push(
                crate::operation::Operation {
                    rwc: (old(self).block.container.counter + 2) as usize,
                    rw: RW::WRITE,
                    op: CallContextOp {
                        call_id: new_call.call_id,
                        field: CallContextField::IsStatic,
                        value: ctx_word(new_call, CallContextField::IsStatic),
                    },
                },
            ).push(
                crate::operation::Operation {
                    rwc: (old(self).block.container.counter + 3) as usize,
                    rw: RW::WRITE,
                    op: CallContextOp {
                        call_id: new_call.call_id,
                        field: CallContextField::Depth,
                        value: ctx_word(new_call, CallContextField::Depth),
                    },
                },
            ),
            final(step).exec_state == old(step).exec_state,
            final(step).pc == old(step).pc,
            final(step).gas == old(step).gas,
            final(step).depth == old(step).depth,
            final(step).call_id == old(step).call_id,
            final(step).error == old(step).error,
            final(step).bus_mapping_instance@ == old(step).bus_mapping_instance@.push(
                OperationRef {
                    target: Target::CallContext,
                    index: old(self).block.container.call_context@.len() as usize,
                },
            ).push(
                OperationRef {
                    target: Target::CallContext,
                    index: (old(self).block.container.call_context@.len() + 1) as usize,
                },
            ).push(
                OperationRef {
                    target: Target::CallContext,
                    index: (old(self).block.container.call_context@.len() + 2) as usize,
                },
            ).push(
                OperationRef {
                    target: Target::CallContext,
                    index: (old(self).block.container.call_context@.len() + 3) as usize,
                },
            ),
    {
        let ghost pre = *self;
        let new_index = self.tx.calls.len();
        self.tx.calls.push(new_call);
        self.call_stack.push(
            Frame {
                call_index: new_index,
                stack: Vec::new(),
                has_prev: false,
                prev_pc: 0,
                prev_op: crate::trace::OpcodeId::STOP,
            },
        );
        self.call_id_counter = self.call_id_counter + 1;
        let id = new_call.call_id;
        let v1 = ctx_value(&new_call, CallContextField::CallerAddress);
        let v2 = ctx_value(&new_call, CallContextField::CalleeAddress);
        let v3 = ctx_value(&new_call, CallContextField::IsStatic);
        let v4 = ctx_value(&new_call, CallContextField::Depth);
        let i1 = self.block.container.append_call_context(
            RW::WRITE,
            CallContextOp { call_id: id, field: CallContextField::CallerAddress, value: v1 },
        );
        let i2 = self.block.container.append_call_context(
            RW::WRITE,
            CallContextOp { call_id: id, field: CallContextField::CalleeAddress, value: v2 },
        );
        let i3 = self.block.container.append_call_context(
            RW::WRITE,
            CallContextOp { call_id: id, field: CallContextField::IsStatic, value: v3 },
        );
        let i4 = self.block.container.append_call_context(
            RW::WRITE,
            CallContextOp { call_id: id, field: CallContextField::Depth, value: v4 },
        );
        step.bus_mapping_instance.push(OperationRef { target: Target::CallContext, index: i1 });
        step.bus_mapping_instance.push(OperationRef { target: Target::CallContext, index: i2 });
        step.bus_mapping_instance.push(OperationRef { target: Target::CallContext, index: i3 });
        step.bus_mapping_instance.push(OperationRef { target: Target::CallContext, index: i4 });
        proof {
            let post = *self;
            let ct0 = pre.block.container;
            let ct1 = post.block.container;
            let log0 = ct0.call_context_log();
            let a1 = Access::<(u64, CallContextField), Word> {
                rw: RW::WRITE,
                key: (id, CallContextField::CallerAddress),
                value: ctx_word(new_call, CallContextField::CallerAddress),
            };
            let a2 = Access::<(u64, CallContextField), Word> {
                rw: RW::WRITE,
                key: (id, CallContextField::CalleeAddress),
                value: ctx_word(new_call, CallContextField::CalleeAddress),
            };
            let a3 = Access::<(u64, CallContextField), Word> {
                rw: RW::WRITE,
                key: (id, CallContextField::IsStatic),
                value: ctx_word(new_call, CallContextField::IsStatic),
            };
            let a4 = Access::<(u64, CallContextField), Word> {
                rw: RW::WRITE,
                key: (id, CallContextField::Depth),
                value: ctx_word(new_call, CallContextField::Depth),
            };
            let log4 = log0.push(a1).push(a2).push(a3).push(a4);
            assert(ct1.call_context_log() =~= log4);
            assert(ct1.stack_log() =~= ct0.stack_log());
            assert(post.all_calls() =~= pre.all_calls().push(new_call));
            let ac0 = pre.all_calls();
            let ac1 = post.all_calls();
            let nn = ac0.len() as int;
            // read consistency: four WRITE appends
            lemma_reads_ok_push(log0, a1, zero_word());
            lemma_reads_ok_push(log0.push(a1), a2, zero_word());
            lemma_reads_ok_push(log0.push(a1).push(a2), a3, zero_word());
            lemma_reads_ok_push(log0.push(a1).push(a2).push(a3), a4, zero_word());
            assert(post.container_ok());
            assert(post.ids_ok());
            // call-tree shape
            assert forall|i: int| 0 <= i < post.tx.calls@.len() implies #[trigger] tx_call_ok(
                post.tx.calls@,
                i,
            ) by {
                if i < pre.tx.calls@.len() {
                    assert(tx_call_ok(pre.tx.calls@, i));
                } else {
                    match new_call.parent {
                        None => {},
                        Some(j) => {
                            let kt = pre.call_stack@.len() - 1;
                            assert(pre.frame_at_ok(kt));
                            assert(pre.windows_ok());
                            pre.lemma_cur_call_in_all(j as int);
                            assert(pre.cur_call().status is Active);
                            assert(pre.cur_call().rwc_start < ct0.counter);
                        },
                    }
                }
            }
            assert(post.txs_ok());
            // windows: old entries never carry the fresh id; the four new
            // entries lie in the new call's window.
            assert forall|i: int, k: int|
                0 <= i < ac1.len() && 0 <= k < ct1.call_context@.len() && (
                #[trigger] ct1.call_context@[k]).op.call_id == (#[trigger] ac1[i]).call_id
                    implies call_window_ok(ac1[i], ct1.call_context@[k].rwc as int) by {
                if i < nn && k < ct0.call_context@.len() {
                    assert(pre.windows_ok());
                    assert(ac0[i] == ac1[i]);
                } else if i < nn {
                    // a new entry with an old call's id is impossible
                    assert(ac0[i].call_id < pre.call_id_counter);
                    assert(ct1.call_context@[k].op.call_id == id);
                    assert(false);
                } else if k < ct0.call_context@.len() {
                    // an old entry with the fresh id is impossible
                    assert(ct0.call_context@[k].op.call_id < pre.call_id_counter);
                    assert(false);
                } else {
                    assert(ac1[i] == new_call);
                    assert(ct1.call_context@[k].rwc >= new_call.rwc_start);
                }
            }
            assert forall|i: int, k: int|
                0 <= i < ac1.len() && 0 <= k < ct1.stack@.len() && (#[trigger] ct1.stack@[k]).op.call_id
                    == (#[trigger] ac1[i]).call_id implies call_window_ok(
                ac1[i],
                ct1.stack@[k].rwc as int,
            ) by {
                if i < nn {
                    assert(pre.windows_ok());
                    assert(ac0[i] == ac1[i]);
                } else {
                    assert(ct1.stack@[k].op.call_id < pre.call_id_counter);
                    assert(false);
                }
            }
            assert(post.windows_ok());
            // frames
            let kt1 = post.call_stack@.len() - 1;
            assert forall|k: int|
                0 <= k < post.call_stack@.len() implies #[trigger] post.frame_at_ok(k) by {
                if k < kt1 {
                    assert(pre.frame_at_ok(k));
                    if k > 0 {
                        assert(pre.frame_at_ok(k - 1));
                    }
                } else {
                    if kt1 > 0 {
                        assert(pre.frame_at_ok(kt1 - 1));
                    }
                }
            }
            assert forall|i: int|
                0 <= i < post.tx.calls@.len() && (#[trigger] post.tx.calls@[i]).status
                    is Active implies post.on_stack(i) by {
                if i < pre.tx.calls@.len() {
                    assert(pre.on_stack(i));
                    let k0 = choose|k: int|
                        0 <= k < pre.call_stack@.len() && (#[trigger] pre.call_stack@[k]).call_index
                            == i;
                    assert(post.call_stack@[k0].call_index == i);
                } else {
                    assert(post.call_stack@[kt1].call_index == i);
                }
            }
            assert(post.frames_ok());
            // frame linkage: old frames' calls have older ids, so the four
            // pushes leave their context reads untouched; the new frame's
            // fields were just written.
            assert forall|k: int|
                0 <= k < post.call_stack@.len() implies #[trigger] post.frame_linked(k) by {
                let f = post.call_stack@[k];
                let c = post.tx.calls@[f.call_index as int];
                if k < kt1 {
                    assert(pre.frame_linked(k));
                    assert(pre.frame_at_ok(k));
                    pre.lemma_cur_ids(f.call_index as int, f.call_index as int);
                    assert(c.call_id != id);
                    assert forall|f2: CallContextField|
                        last_write(ct1.call_context_log(), (c.call_id, f2)) == Some(
                            ctx_word(c, f2),
                        ) by {
                        lemma_last_write_push(log0, a1, (c.call_id, f2));
                        lemma_last_write_push(log0.push(a1), a2, (c.call_id, f2));
                        lemma_last_write_push(log0.push(a1).push(a2), a3, (c.call_id, f2));
                        lemma_last_write_push(
                            log0.push(a1).push(a2).push(a3),
                            a4,
                            (c.call_id, f2),
                        );
                    }
                } else {
                    assert(c == new_call);
                    assert forall|f2: CallContextField|
                        last_write(ct1.call_context_log(), (c.call_id, f2)) == Some(
                            ctx_word(c, f2),
                        ) by {
                        lemma_last_write_push(log0, a1, (c.call_id, f2));
                        lemma_last_write_push(log0.push(a1), a2, (c.call_id, f2));
                        lemma_last_write_push(log0.push(a1).push(a2), a3, (c.call_id, f2));
                        lemma_last_write_push(
                            log0.push(a1).push(a2).push(a3),
                            a4,
                            (c.call_id, f2),
                        );
                    }
                }
            }
            assert(post.frames_linked());
        }
    }

    /// Begin replaying a new transaction: record its fields, open its
    /// root call at depth 1, and emit the bookkeeping step that carries
    /// the root call's context writes.
    pub fn begin_tx(
        &mut self,
        from: Address,
        to: Address,
        value: Word,
        nonce: u64,
        gas: u64,
    ) -> (r: Result<(), Error>)
        requires
            old(self).wf(),
            !old(self).in_tx,
        ensures
            final(self).wf(),
            final(self).block.txs == old(self).block.txs,
            final(self).block.number == old(self).block.number,
            final(self).block.timestamp == old(self).block.timestamp,
            final(self).block.base_fee == old(self).block.base_fee,
            final(self).check_stack == old(self).check_stack,
            match r {
                Ok(u) => {
                    &&& final(self).in_tx
                    &&& final(self).tx.from == from
                    &&& final(self).tx.to == to
                    &&& final(self).tx.value == value
                    &&& final(self).tx.nonce == nonce
                    &&& final(self).tx.gas == gas
                    &&& final(self).tx.calls@.len() == 1
                    &&& final(self).tx.calls@[0].call_id == old(self).call_id_counter
                    &&& final(self).tx.calls@[0].caller_address == from
                    &&& final(self).tx.calls@[0].address == to
                    &&& final(self).tx.calls@[0].kind == CallKind::Call
                    &&& !final(self).tx.calls@[0].is_static
                    &&& final(self).tx.calls@[0].depth == 1
                    &&& final(self).tx.calls@[0].status is Active
                    &&& final(self).tx.calls@[0].rwc_start == old(self).block.container.counter
                    &&& final(self).tx.calls@[0].parent is None
                    &&& final(self).call_stack@.len() == 1
                    &&& final(self).cur_frame().call_index == 0
                    &&& final(self).cur_frame().stack@.len() == 0
                    &&& !final(self).cur_frame().has_prev
                    &&& final(self).tx.steps@.len() == 1
                    &&& final(self).tx.steps@[0].exec_state == ExecState::BeginTx
                    &&& final(self).tx.steps@[0].error is None
                    &&& final(self).tx.steps@[0].pc == 0
                    &&& final(self).tx.steps@[0].gas == gas
                    &&& final(self).tx.steps@[0].depth == 1
                    &&& final(self).tx.steps@[0].call_id == old(self).call_id_counter
                    &&& final(self).tx.steps@[0].bus_mapping_instance@ == ctx_setup_refs(
                        old(self).block.container.call_context@.len() as int,
                    )
                    &&& final(self).block.container.call_context@ == ctx_setup_entries(
                        old(self).block.container.call_context@,
                        old(self).block.container.counter as int,
                        final(self).tx.calls@[0],
                    )
                    &&& final(self).block.container.counter == old(self).block.container.counter
                        + 4
                    &&& final(self).block.container.stack == old(self).block.container.stack
                    &&& final(self).call_id_counter == old(self).call_id_counter + 1
                },
                Err(e) => e == Error::CounterOverflow && (old(self).call_id_counter == u64::MAX
                    || old(self).block.container.counter > usize::MAX - 4),
            },
    {
        if self.call_id_counter == u64::MAX {
            return Err(Error::CounterOverflow);
        }
        if self.block.container.counter > usize::MAX - 4 {
            return Err(Error::CounterOverflow);
        }
        let call_id = self.call_id_counter;
        let rwc_start = self.block.container.counter;
        self.tx = Transaction {
            from,
            to,
            value,
            nonce,
            gas,
            calls: Vec::new(),
            steps: Vec::new(),
        };
        self.in_tx = true;
        let new_call = Call {
            call_id,
            caller_address: from,
            address: to,
            kind: CallKind::Call,
            depth: 1,
            is_static: false,
            status: CallStatus::Active,
            rwc_start,
            rwc_end: 0,
            parent: None,
        };
        let mut step = ExecStep {
            exec_state: ExecState::BeginTx,
            pc: 0,
            gas,
            depth: 1,
            call_id,
            error: None,
            bus_mapping_instance: Vec::new(),
        };
        proof {
            let mid = *self;
            assert(mid.all_calls() =~= old(self).all_calls());
            assert(mid.container_ok());
            assert(mid.ids_ok());
            assert(tx_calls_ok(mid.tx.calls@));
            assert(mid.txs_ok());
            assert(mid.windows_ok());
            assert forall|k: int|
                0 <= k < mid.call_stack@.len() implies #[trigger] mid.frame_at_ok(k) by {}
            assert(mid.frames_ok());
            assert(mid.frames_linked());
        }
        self.push_call_frame(&mut step, new_call);
        let ghost mid2 = *self;
        self.tx.steps.push(step);
        proof {
            let post = *self;
            assert(post.all_calls() =~= mid2.all_calls());
            assert(post.container_ok());
            assert(post.ids_ok());
            assert(post.txs_ok());
            assert(post.windows_ok());
            assert(post.frames_ok()) by {
                assert forall|k: int|
                    0 <= k < post.call_stack@.len() implies #[trigger] post.frame_at_ok(k) by {
                    assert(mid2.frame_at_ok(k));
                }
                assert forall|i: int|
                    0 <= i < post.tx.calls@.len() && (#[trigger] post.tx.calls@[i]).status
                        is Active implies post.on_stack(i) by {
                    assert(post.call_stack@[0].call_index == i);
                }
            }
            assert(post.frames_linked()) by {
                assert forall|k: int|
                    0 <= k < post.call_stack@.len() implies #[trigger] post.frame_linked(k) by {
                    assert(mid2.frame_linked(k));
                }
            }
        }
        Ok(())
    }

    /// Open a nested call below the current one: the callee runs one
    /// level deeper, its caller is the current call's callee, and its
    /// context writes attach to the given step. Fails with the
    /// execution-level `Depth` error at the architectural depth limit.
    pub fn begin_call(
        &mut self,
        step: &mut ExecStep,
        address: Address,
        kind: CallKind,
        is_static: bool,
    ) -> (r: Result<(), Error>)
        requires
            old(self).wf(),
        ensures
            final(self).wf(),
            final(self).block.txs == old(self).block.txs,
            final(self).block.number == old(self).block.number,
            final(self).block.timestamp == old(self).block.timestamp,
            final(self).block.base_fee == old(self).block.base_fee,
            final(self).check_stack == old(self).check_stack,
            match r {
                Ok(u) => {
                    &&& old(self).has_active()
                    &&& final(self).in_tx
                    &&& final(self).tx.calls@ == old(self).tx.calls@.push(
                        final(self).tx.calls@.last(),
                    )
                    &&& final(self).tx.calls@.last().call_id == old(self).call_id_counter
                    &&& final(self).tx.calls@.last().caller_address == old(
                        self,
                    ).cur_call().address
                    &&& final(self).tx.calls@.last().address == address
                    &&& final(self).tx.calls@.last().kind == kind
                    &&& final(self).tx.calls@.last().is_static == is_static
                    &&& final(self).tx.calls@.last().depth == old(self).cur_call().depth + 1
                    &&& final(self).tx.calls@.last().status is Active
                    &&& final(self).tx.calls@.last().rwc_start == old(self).block.container.counter
                    &&& final(self).tx.calls@.last().parent == Some(
                        old(self).cur_call_index() as usize,
                    )
                    &&& final(self).call_stack@.len() == old(self).call_stack@.len() + 1
                    &&& final(self).cur_frame().call_index == old(self).tx.calls@.len()
                    &&& final(self).cur_frame().stack@.len() == 0
                    &&& !final(self).cur_frame().has_prev
                    &&& final(self).tx.steps == old(self).tx.steps
                    &&& final(self).block.container.call_context@ == ctx_setup_entries(
                        old(self).block.container.call_context@,
                        old(self).block.container.counter as int,
                        final(self).tx.calls@.last(),
                    )
                    &&& final(step).bus_mapping_instance@ == old(
                        step,
                    ).bus_mapping_instance@ + ctx_setup_refs(
                        old(self).block.container.call_context@.len() as int,
                    )
                    &&& final(self).block.container.counter == old(self).block.container.counter
                        + 4
                    &&& final(self).block.container.stack == old(self).block.container.stack
                    &&& final(self).call_id_counter == old(self).call_id_counter + 1
                },
                Err(e) => {
                    &&& *final(self) == *old(self)
                    &&& *final(step) == *old(step)
                    &&& if !old(self).has_active() {
                        e == Error::NoActiveCall
                    } else if old(self).cur_call().depth >= 1024 {
                        e == Error::Execution(ExecError::Depth)
                    } else {
                        e == Error::CounterOverflow && (old(self).call_id_counter == u64::MAX
                            || old(self).block.container.counter > usize::MAX - 4)
                    }
                },
            },
    {
        if self.call_stack.len() == 0 {
            return Err(Error::NoActiveCall);
        }
        let fi = self.call_stack.len() - 1;
        proof {
            assert(self.frame_at_ok(fi as int));
        }
        let ci = self.call_stack[fi].call_index;
        if self.tx.calls[ci].depth >= 1024 {
            return Err(Error::Execution(ExecError::Depth));
        }
        if self.call_id_counter == u64::MAX {
            return Err(Error::CounterOverflow);
        }
        if self.block.container.counter > usize::MAX - 4 {
            return Err(Error::CounterOverflow);
        }
        let parent = &self.tx.calls[ci];
        let new_call = Call {
            call_id: self.call_id_counter,
            caller_address: parent.address,
            address,
            kind,
            depth: parent.depth + 1,
            is_static,
            status: CallStatus::Active,
            rwc_start: self.block.container.counter,
            rwc_end: 0,
            parent: Some(ci),
        };
        self.push_call_frame(step, new_call);
        Ok(())
    }

    /// Complete the current call with the given success flag, stamp its
    /// exit sequence number, and resume its parent (if any) as the
    /// current call. Terminal states are never re-entered.
    pub fn end_call(&mut self, success: bool) -> (r: Result<(), Error>)
        requires
            old(self).wf(),
        ensures
            final(self).wf(),
            final(self).block.txs == old(self).block.txs,
            final(self).block.container == old(self).block.container,
            final(self).tx.steps == old(self).tx.steps,
            final(self).tx.from == old(self).tx.from,
            final(self).tx.to == old(self).tx.to,
            final(self).tx.value == old(self).tx.value,
            final(self).tx.nonce == old(self).tx.nonce,
            final(self).tx.gas == old(self).tx.gas,
            final(self).block.number == old(self).block.number,
            final(self).block.timestamp == old(self).block.timestamp,
            final(self).block.base_fee == old(self).block.base_fee,
            final(self).in_tx == old(self).in_tx,
            final(self).call_id_counter == old(self).call_id_counter,
            final(self).check_stack == old(self).check_stack,
            match r {
                Ok(u) => {
                    &&& old(self).has_active()
                    &&& final(self).call_stack@ == old(self).call_stack@.drop_last()
                    &&& final(self).tx.calls@ == old(self).tx.calls@.update(
                        old(self).cur_call_index(),
                        final(self).tx.calls@[old(self).cur_call_index()],
                    )
                    &&& final(self).tx.calls@[old(self).cur_call_index()].status
                        == CallStatus::Completed(success)
                    &&& final(self).tx.calls@[old(self).cur_call_index()].rwc_end == old(
                        self,
                    ).block.container.counter
                    &&& final(self).tx.calls@[old(self).cur_call_index()].call_id == old(
                        self,
                    ).cur_call().call_id
                    &&& final(self).tx.calls@[old(self).cur_call_index()].depth == old(
                        self,
                    ).cur_call().depth
                    &&& final(self).tx.calls@[old(self).cur_call_index()].parent == old(
                        self,
                    ).cur_call().parent
                    &&& final(self).tx.calls@[old(self).cur_call_index()].caller_address == old(
                        self,
                    ).cur_call().caller_address
                    &&& final(self).tx.calls@[old(self).cur_call_index()].address == old(
                        self,
                    ).cur_call().address
                    &&& final(self).tx.calls@[old(self).cur_call_index()].kind == old(
                        self,
                    ).cur_call().kind
                    &&& final(self).tx.calls@[old(self).cur_call_index()].is_static == old(
                        self,
                    ).cur_call().is_static
                    &&& final(self).tx.calls@[old(self).cur_call_index()].rwc_start == old(
                        self,
                    ).cur_call().rwc_start
                },
                Err(e) => {
                    &&& *final(self) == *old(self)
                    &&& e == Error::NoActiveCall
                    &&& !old(self).has_active()
                },
            },
    {
        if self.call_stack.len() == 0 {
            return Err(Error::NoActiveCall);
        }
        let ghost pre = *self;
        let kt = self.call_stack.len() - 1;
        proof {
            assert(self.frame_at_ok(kt as int));
        }
        let f = match self.call_stack.pop() {
            Some(f) => f,
            None => {
                return Err(Error::NoActiveCall);
            },
        };
        let ci = f.call_index;
        let mut c = self.tx.calls[ci];
        c.status = CallStatus::Completed(success);
        c.rwc_end = self.block.container.counter;
        let cm = &mut self.tx.calls[ci];
        *cm = c;
        proof {
            let post = *self;
            let idx = ci as int;
            assert(post.tx.calls@ =~= pre.tx.calls@.update(idx, c));
            assert(post.call_stack@ =~= pre.call_stack@.drop_last());
            assert(post.all_calls() =~= pre.all_calls().update(
                calls_of_txs(pre.block.txs@).len() + idx,
                c,
            ));
            let ac0 = pre.all_calls();
            let ac1 = post.all_calls();
            let gidx = calls_of_txs(pre.block.txs@).len() as int + idx;
            assert(post.container_ok());
            assert forall|i: int|
                0 <= i < ac1.len() implies (#[trigger] ac1[i]).call_id < post.call_id_counter by {
                assert(ac0[i].call_id < pre.call_id_counter);
                assert(ac1[i].call_id == ac0[i].call_id);
            }
            assert forall|i: int, j: int| 0 <= i < j < ac1.len() implies ac1[i].call_id
                != ac1[j].call_id by {
                assert(ac0[i].call_id != ac0[j].call_id);
                assert(ac1[i].call_id == ac0[i].call_id && ac1[j].call_id == ac0[j].call_id);
            }
            assert(post.ids_ok());
            // children of the completed call are themselves completed:
            // an active child would sit above the popped top of the stack.
            assert forall|i: int|
                0 <= i < pre.tx.calls@.len() && pre.tx.calls@[i].parent == Some(ci) implies (
            #[trigger] pre.tx.calls@[i]).status is Completed by {
                if pre.tx.calls@[i].status is Active {
                    assert(pre.on_stack(i));
                    let k0 = choose|k: int|
                        0 <= k < pre.call_stack@.len() && (#[trigger] pre.call_stack@[k]).call_index
                            == i;
                    assert(pre.frame_at_ok(k0));
                    if k0 == 0 {
                        assert(false);
                    } else {
                        assert(pre.call_stack@[k0 - 1].call_index == ci);
                        if k0 - 1 < kt as int {
                            pre.lemma_stack_order(k0 - 1, kt as int);
                            assert(false);
                        } else {
                            assert(k0 == kt as int + 1);
                            assert(false);
                        }
                    }
                }
            }
            assert forall|i: int| 0 <= i < post.tx.calls@.len() implies #[trigger] tx_call_ok(
                post.tx.calls@,
                i,
            ) by {
                assert(tx_call_ok(pre.tx.calls@, i));
                assert(pre.windows_ok());
                pre.lemma_cur_call_in_all(i);
                assert(ac0[calls_of_txs(pre.block.txs@).len() + i] == pre.tx.calls@[i]);
                pre.lemma_cur_call_in_all(idx);
                assert(ac0[gidx] == pre.tx.calls@[idx]);
                if i == idx {
                    match c.parent {
                        None => {},
                        Some(j) => {
                            // the parent resumes as active, so its
                            // completion clause stays vacuous
                            if kt as int == 0 {
                                assert(false);
                            } else {
                                assert(pre.frame_at_ok(kt as int));
                                assert(pre.frame_at_ok(kt as int - 1));
                                assert((j as int) != idx);
                            }
                        },
                    }
                } else {
                    match post.tx.calls@[i].parent {
                        None => {},
                        Some(j) => {
                            if (j as int) == idx {
                                assert(pre.tx.calls@[i].status is Completed);
                            }
                        },
                    }
                }
            }
            assert(post.txs_ok());
            // windows: the completed call's entries all lie below the
            // counter, which is its new exit stamp.
            assert forall|i: int, k: int|
                0 <= i < ac1.len() && 0 <= k < post.block.container.stack@.len() && (
                #[trigger] post.block.container.stack@[k]).op.call_id == (
                #[trigger] ac1[i]).call_id implies call_window_ok(
                ac1[i],
                post.block.container.stack@[k].rwc as int,
            ) by {
                assert(pre.windows_ok());
                assert(ac0[i].call_id == ac1[i].call_id);
            }
            assert forall|i: int, k: int|
                0 <= i < ac1.len() && 0 <= k < post.block.container.call_context@.len() && (
                #[trigger] post.block.container.call_context@[k]).op.call_id == (
                #[trigger] ac1[i]).call_id implies call_window_ok(
                ac1[i],
                post.block.container.call_context@[k].rwc as int,
            ) by {
                assert(pre.windows_ok());
                assert(ac0[i].call_id == ac1[i].call_id);
            }
            assert(post.windows_ok());
            // frames
            assert forall|k: int|
                0 <= k < post.call_stack@.len() implies #[trigger] post.frame_at_ok(k) by {
                assert(pre.frame_at_ok(k));
                if k > 0 {
                    assert(pre.frame_at_ok(k - 1));
                }
                assert(post.call_stack@[k].call_index != ci) by {
                    pre.lemma_stack_order(k, kt as int);
                }
                if k > 0 {
                    assert(post.call_stack@[k - 1].call_index != ci) by {
                        pre.lemma_stack_order(k - 1, kt as int);
                    }
                }
            }
            assert forall|i: int|
                0 <= i < post.tx.calls@.len() && (#[trigger] post.tx.calls@[i]).status
                    is Active implies post.on_stack(i) by {
                assert(pre.tx.calls@[i].status is Active);
                assert(pre.on_stack(i));
                let k0 = choose|k: int|
                    0 <= k < pre.call_stack@.len() && (#[trigger] pre.call_stack@[k]).call_index
                        == i;
                if k0 == kt as int {
                    assert(false);
                } else {
                    assert(post.call_stack@[k0].call_index == i);
                }
            }
            assert(post.frames_ok());
            assert forall|k: int|
                0 <= k < post.call_stack@.len() implies #[trigger] post.frame_linked(k) by {
                assert(pre.frame_linked(k));
                assert(pre.frame_at_ok(k));
                assert(post.call_stack@[k].call_index != ci) by {
                    pre.lemma_stack_order(k, kt as int);
                }
            }
            assert(post.frames_linked());
        }
        Ok(())
    }

    /// Finish the current transaction: every call must have completed.
    /// The transaction moves, immutable from now on, into the block.
    pub fn end_tx(&mut self) -> (r: Result<(), Error>)
        requires
            old(self).wf(),
        ensures
            final(self).wf(),
            final(self).block.container == old(self).block.container,
            final(self).block.number == old(self).block.number,
            final(self).block.timestamp == old(self).block.timestamp,
            final(self).block.base_fee == old(self).block.base_fee,
            final(self).call_id_counter == old(self).call_id_counter,
            final(self).check_stack == old(self).check_stack,
            match r {
                Ok(u) => {
                    &&& old(self).in_tx
                    &&& !old(self).has_active()
                    &&& !final(self).in_tx
                    &&& final(self).block.txs@.len() == old(self).block.txs@.len() + 1
                    &&& final(self).block.txs@ == old(self).block.txs@.push(
                        final(self).block.txs@.last(),
                    )
                    &&& final(self).block.txs@.last().calls@ == old(self).tx.calls@
                    &&& final(self).block.txs@.last().steps@ == old(self).tx.steps@
                    &&& final(self).block.txs@.last().from == old(self).tx.from
                    &&& final(self).block.txs@.last().to == old(self).tx.to
                    &&& final(self).block.txs@.last().value == old(self).tx.value
                    &&& final(self).block.txs@.last().nonce == old(self).tx.nonce
                    &&& final(self).block.txs@.last().gas == old(self).tx.gas
                },
                Err(e) => {
                    &&& *final(self) == *old(self)
                    &&& e == Error::InvalidTraceStep
                    &&& (!old(self).in_tx || old(self).has_active())
                },
            },
    {
        if !self.in_tx {
            return Err(Error::InvalidTraceStep);
        }
        if self.call_stack.len() > 0 {
            return Err(Error::InvalidTraceStep);
        }
        let ghost pre = *self;
        let calls = self.tx.calls.split_off(0);
        let steps = self.tx.steps.split_off(0);
        let done = Transaction {
            from: self.tx.from,
            to: self.tx.to,
            value: self.tx.value,
            nonce: self.tx.nonce,
            gas: self.tx.gas,
            calls,
            steps,
        };
        self.block.txs.push(done);
        self.in_tx = false;
        proof {
            assert(self.tx.calls@ =~= Seq::<Call>::empty());
            assert(self.tx.steps@ =~= Seq::<ExecStep>::empty());
            assert(self.block.txs@.last().calls@ =~= pre.tx.calls@);
            assert(self.block.txs@.last().steps@ =~= pre.tx.steps@);
        }
        proof {
            let post = *self;
            lemma_calls_of_txs_push(pre.block.txs@, post.block.txs@.last());
            assert(post.all_calls() =~= pre.all_calls());
            assert(post.container_ok());
            assert(post.ids_ok());
            assert(tx_done(post.block.txs@.last().calls@)) by {
                assert forall|i: int|
                    0 <= i < pre.tx.calls@.len() implies (#[trigger] pre.tx.calls@[i]).status
                        is Completed by {
                    if pre.tx.calls@[i].status is Active {
                        assert(pre.on_stack(i));
                        let k0 = choose|k: int|
                            0 <= k < pre.call_stack@.len() && (
                            #[trigger] pre.call_stack@[k]).call_index == i;
                        assert(false);
                    }
                }
            }
            assert(post.txs_ok()) by {
                assert(tx_calls_ok(post.tx.calls@));
                assert forall|t: int| 0 <= t < post.block.txs@.len() implies tx_calls_ok(
                    (#[trigger] post.block.txs@[t]).calls@,
                ) && tx_done(post.block.txs@[t].calls@) by {
                    if t < pre.block.txs@.len() {
                        assert(tx_calls_ok(pre.block.txs@[t].calls@));
                        assert(tx_done(pre.block.txs@[t].calls@));
                    } else {
                        assert(post.block.txs@[t] == post.block.txs@.last());
                        assert(tx_calls_ok(pre.tx.calls@));
                    }
                }
            }
            assert(post.windows_ok());
            assert(post.frames_ok());
            assert(post.frames_linked());
        }
        Ok(())
    }
}

/// One transaction's slice of the input trace: the transaction fields
/// the builder needs, and its ordered trace steps.
#[derive(Clone, Debug)]
pub struct TxTrace {
    pub from: Address,
    pub to: Address,
    pub value: Word,
    pub nonce: u64,
    pub gas: u64,
    pub steps: Vec<TraceStep>,
}

/// The archived transaction record the builder produces for one
/// transaction's trace: the fields carry over, and beyond the opening
/// bookkeeping step each trace step has exactly one step record
/// mirroring it, in order.
pub open spec fn tx_mirrors_trace(tr: Transaction, t: TxTrace) -> bool {
    &&& tr.from == t.from
    &&& tr.to == t.to
    &&& tr.value == t.value
    &&& tr.nonce == t.nonce
    &&& tr.gas == t.gas
    &&& tr.steps@.len() == t.steps@.len() + 1
    &&& tr.steps@[0].exec_state == ExecState::BeginTx
    &&& forall|j: int|
        0 <= j < t.steps@.len() ==> step_mirrors(#[trigger] tr.steps@[j + 1], t.steps@[j])
}

/// The worked example's trace shape: a root call running CALLER then
/// STOP, with consistent program counters and depth; in cross-check
/// mode the observed post-state reports the sender on top of the stack.
/// On such a trace the builder owes success.
pub open spec fn caller_stop_shape(t: TxTrace, check: bool) -> bool {
    &&& t.steps@.len() == 2
    &&& t.steps@[0].op == OpcodeId::CALLER
    &&& t.steps@[0].pc == 0
    &&& t.steps@[0].depth == 1
    &&& t.steps@[1].op == OpcodeId::STOP
    &&& t.steps@[1].pc == 1
    &&& t.steps@[1].depth == 1
    &&& (check ==> t.steps@[1].stack@.len() > 0 && t.steps@[1].stack@.last() == t.from.word())
}

impl CircuitInputBuilder {
    /// Replay one trace step of the current transaction: dispatch to
    /// the opcode's handler, append the step records it produced, and
    /// drive the call state machine. A step that recorded an
    /// execution-level error completes its call as a failure and leaves
    /// the parent call active; a STOP completes it as a success.
    #[verifier::rlimit(100)]
    pub fn handle_step(&mut self, t: &TxTrace, at: usize) -> (r: Result<(), Error>)
        requires
            old(self).wf(),
            old(self).in_tx,
            at < t.steps@.len(),
        ensures
            final(self).wf(),
            final(self).in_tx,
            final(self).block.txs == old(self).block.txs,
            final(self).block.number == old(self).block.number,
            final(self).block.timestamp == old(self).block.timestamp,
            final(self).block.base_fee == old(self).block.base_fee,
            final(self).call_id_counter == old(self).call_id_counter,
            final(self).check_stack == old(self).check_stack,
            final(self).tx.from == old(self).tx.from,
            final(self).tx.to == old(self).tx.to,
            final(self).tx.value == old(self).tx.value,
            final(self).tx.nonce == old(self).tx.nonce,
            final(self).tx.gas == old(self).tx.gas,
            match r {
                Ok(u) => {
                    &&& old(self).has_active()
                    &&& final(self).tx.steps@ == old(self).tx.steps@.push(
                        final(self).tx.steps@.last(),
                    )
                    &&& step_record_ok(
                        final(self).tx.steps@.last(),
                        t.steps@[at as int],
                        old(self).cur_call(),
                    )
                    &&& match final(self).tx.steps@.last().error {
                        Some(e2) => {
                            &&& t.steps@[at as int].op != OpcodeId::STOP
                            &&& (t.steps@[at as int].op == OpcodeId::CALLER ==> e2
                                == ExecError::StackOverflow && old(self).cur_frame().stack@.len()
                                >= 1024)
                            &&& (t.steps@[at as int].op == OpcodeId::POP ==> e2
                                == ExecError::StackUnderflow && old(self).cur_frame().stack@.len()
                                == 0)
                            &&& completed_current(*final(self), *old(self), false)
                        },
                        None => {
                            if t.steps@[at as int].op == OpcodeId::STOP {
                                &&& completed_current(*final(self), *old(self), true)
                                &&& final(self).block.container == old(self).block.container
                            } else {
                                &&& final(self).tx.calls == old(self).tx.calls
                                &&& final(self).call_stack@.len() == old(self).call_stack@.len()
                                &&& final(self).cur_frame().call_index == old(
                                    self,
                                ).cur_frame().call_index
                                &&& stepped_frame(*final(self), t.steps@[at as int])
                                &&& (t.steps@[at as int].op == OpcodeId::CALLER ==> {
                                    &&& final(self).block.container.counter == old(
                                        self,
                                    ).block.container.counter + 2
                                    &&& final(self).block.container.call_context@ == old(
                                        self,
                                    ).block.container.call_context@.push(
                                        crate::operation::Operation {
                                            rwc: old(self).block.container.counter,
                                            rw: RW::READ,
                                            op: CallContextOp {
                                                call_id: old(self).cur_call().call_id,
                                                field: CallContextField::CallerAddress,
                                                value: old(self).cur_call().caller_address.word(),
                                            },
                                        },
                                    )
                                    &&& final(self).block.container.stack@ == old(
                                        self,
                                    ).block.container.stack@.push(
                                        crate::operation::Operation {
                                            rwc: (old(self).block.container.counter + 1) as usize,
                                            rw: RW::WRITE,
                                            op: StackOp {
                                                call_id: old(self).cur_call().call_id,
                                                address: StackAddress(
                                                    (1023 - old(
                                                        self,
                                                    ).cur_frame().stack@.len()) as usize,
                                                ),
                                                value: old(self).cur_call().caller_address.word(),
                                            },
                                        },
                                    )
                                    &&& final(self).tx.steps@.last().bus_mapping_instance@
                                        == Seq::empty().push(
                                        OperationRef {
                                            target: Target::CallContext,
                                            index: old(
                                                self,
                                            ).block.container.call_context@.len() as usize,
                                        },
                                    ).push(
                                        OperationRef {
                                            target: Target::Stack,
                                            index: old(self).block.container.stack@.len() as usize,
                                        },
                                    )
                                })
                            }
                        },
                    }
                },
                Err(e) => {
                    &&& !(e is Execution)
                    &&& {
                        ||| !old(self).step_valid(t.steps@[at as int])
                        ||| (t.steps@[at as int].op == OpcodeId::CALLER && (old(
                            self,
                        ).block.container.counter + 2 > usize::MAX || (old(self).check_stack
                            && !crate::opcodes::caller_lookahead_ok(
                            *old(self),
                            t.steps@,
                            at as int,
                        ))))
                        ||| (t.steps@[at as int].op == OpcodeId::POP && old(
                            self,
                        ).block.container.counter == usize::MAX)
                    }
                },
            },
    {
        let op = t.steps[at].op;
        let mut v = match crate::opcodes::gen_associated_ops(op, self, &t.steps, at) {
            Ok(v) => v,
            Err(e) => {
                return Err(e);
            },
        };
        let step = match v.pop() {
            Some(s) => s,
            None => {
                return Err(Error::InvalidTraceStep);
            },
        };
        let failed = match step.error {
            Some(u) => true,
            None => false,
        };
        let ghost mid = *self;
        self.tx.steps.push(step);
        proof {
            assert(self.tx.steps@ =~= old(self).tx.steps@.push(self.tx.steps@.last()));
            if old(self).has_active() {
                assert(mid.call_stack@.drop_last() =~= old(self).call_stack@.drop_last());
            }
        }
        proof {
            let post = *self;
            assert(post.all_calls() =~= mid.all_calls());
            assert(post.container_ok());
            assert(post.ids_ok());
            assert(post.txs_ok());
            assert(post.windows_ok());
            assert(post.frames_ok()) by {
                assert forall|k: int|
                    0 <= k < post.call_stack@.len() implies #[trigger] post.frame_at_ok(k) by {
                    assert(mid.frame_at_ok(k));
                }
                assert forall|i: int|
                    0 <= i < post.tx.calls@.len() && (#[trigger] post.tx.calls@[i]).status
                        is Active implies post.on_stack(i) by {
                    assert(mid.on_stack(i));
                    let k0 = choose|k: int|
                        0 <= k < mid.call_stack@.len() && (#[trigger] mid.call_stack@[k]).call_index
                            == i;
                    assert(post.call_stack@[k0].call_index == i);
                }
            }
            assert(post.frames_linked()) by {
                assert forall|k: int|
                    0 <= k < post.call_stack@.len() implies #[trigger] post.frame_linked(k) by {
                    assert(mid.frame_linked(k));
                }
            }
        }
        if failed {
            match self.end_call(false) {
                Ok(u) => Ok(()),
                Err(e) => Err(e),
            }
        } else if matches!(op, OpcodeId::STOP) {
            match self.end_call(true) {
                Ok(u) => Ok(()),
                Err(e) => Err(e),
            }
        } else {
            Ok(())
        }
    }

    /// Replay one transaction's trace: open the transaction and its
    /// root call, replay every step in program order, and close the
    /// transaction. A trace that ends while a call is still active is
    /// inconsistent and fails the build. On the worked example's trace
    /// shape, success is owed, and the two operations of the CALLER
    /// step are pinned exactly.
    #[verifier::rlimit(100)]
    pub fn handle_tx(&mut self, t: &TxTrace) -> (r: Result<(), Error>)
        requires
            old(self).wf(),
            !old(self).in_tx,
        ensures
            final(self).wf(),
            final(self).block.number == old(self).block.number,
            final(self).block.timestamp == old(self).block.timestamp,
            final(self).block.base_fee == old(self).block.base_fee,
            final(self).check_stack == old(self).check_stack,
            r is Ok ==> {
                &&& !final(self).in_tx
                &&& final(self).block.txs@ == old(self).block.txs@.push(
                    final(self).block.txs@.last(),
                )
                &&& final(self).block.txs@.len() == old(self).block.txs@.len() + 1
                &&& tx_mirrors_trace(final(self).block.txs@.last(), *t)
            },
            (caller_stop_shape(*t, old(self).check_stack) && old(self).block.container.counter + 6
                <= usize::MAX && old(self).call_id_counter < u64::MAX) ==> {
                &&& r is Ok
                &&& final(self).block.container.counter == old(self).block.container.counter + 6
                &&& final(self).call_id_counter == old(self).call_id_counter + 1
                &&& final(self).block.txs@.last().calls@.len() == 1
                &&& final(self).block.txs@.last().calls@[0].call_id == old(self).call_id_counter
                &&& final(self).block.txs@.last().calls@[0].caller_address == t.from
                &&& final(self).block.txs@.last().calls@[0].status == CallStatus::Completed(true)
                &&& final(self).block.txs@.last().steps@.len() == 3
                &&& final(self).block.txs@.last().steps@[1].error is None
                &&& final(self).block.txs@.last().steps@[1].bus_mapping_instance@
                    == Seq::empty().push(
                    OperationRef {
                        target: Target::CallContext,
                        index: (old(self).block.container.call_context@.len() + 4) as usize,
                    },
                ).push(
                    OperationRef {
                        target: Target::Stack,
                        index: old(self).block.container.stack@.len() as usize,
                    },
                )
                &&& final(self).block.container.call_context@ == ctx_setup_entries(
                    old(self).block.container.call_context@,
                    old(self).block.container.counter as int,
                    final(self).block.txs@.last().calls@[0],
                ).push(
                    crate::operation::Operation {
                        rwc: (old(self).block.container.counter + 4) as usize,
                        rw: RW::READ,
                        op: CallContextOp {
                            call_id: old(self).call_id_counter,
                            field: CallContextField::CallerAddress,
                            value: t.from.word(),
                        },
                    },
                )
                &&& final(self).block.container.stack@ == old(self).block.container.stack@.push(
                    crate::operation::Operation {
                        rwc: (old(self).block.container.counter + 5) as usize,
                        rw: RW::WRITE,
                        op: StackOp {
                            call_id: old(self).call_id_counter,
                            address: StackAddress(1023),
                            value: t.from.word(),
                        },
                    },
                )
            },
    {
        let ghost orig = *self;
        let ghost shaped = caller_stop_shape(*t, orig.check_stack) && orig.block.container.counter
            + 6 <= usize::MAX && orig.call_id_counter < u64::MAX;
        match self.begin_tx(t.from, t.to, t.value, t.nonce, t.gas) {
            Ok(u) => {},
            Err(e) => {
                proof {
                    if shaped {
                        assert(false);
                    }
                }
                return Err(e);
            },
        }
        let n = t.steps.len();
        let mut i: usize = 0;
        while i < n
            invariant
                orig == *old(self),
                shaped == (caller_stop_shape(*t, orig.check_stack)
                    && orig.block.container.counter + 6 <= usize::MAX && orig.call_id_counter
                    < u64::MAX),
                i <= n,
                n == t.steps@.len(),
                self.wf(),
                self.in_tx,
                self.block.txs@ == orig.block.txs@,
                self.block.number == orig.block.number,
                self.block.timestamp == orig.block.timestamp,
                self.block.base_fee == orig.block.base_fee,
                self.check_stack == orig.check_stack,
                self.call_id_counter == orig.call_id_counter + 1,
                self.tx.from == t.from,
                self.tx.to == t.to,
                self.tx.value == t.value,
                self.tx.nonce == t.nonce,
                self.tx.gas == t.gas,
                self.tx.steps@.len() == 1 + i,
                self.tx.steps@[0].exec_state == ExecState::BeginTx,
                forall|j: int|
                    0 <= j < i ==> step_mirrors(#[trigger] self.tx.steps@[j + 1], t.steps@[j]),
                shaped ==> {
                    &&& if i == 0 {
                        &&& self.call_stack@.len() == 1
                        &&& !self.cur_frame().has_prev
                        &&& self.cur_frame().stack@.len() == 0
                        &&& self.cur_call().depth == 1
                        &&& self.cur_call().call_id == orig.call_id_counter
                        &&& self.cur_call().caller_address == t.from
                        &&& self.block.container.counter == orig.block.container.counter + 4
                        &&& self.block.container.call_context@ == ctx_setup_entries(
                            orig.block.container.call_context@,
                            orig.block.container.counter as int,
                            self.tx.calls@[0],
                        )
                        &&& self.block.container.stack@ == orig.block.container.stack@
                        &&& self.tx.calls@.len() == 1
                        &&& self.tx.calls@[0] == self.cur_call()
                    } else if i == 1 {
                        &&& self.call_stack@.len() == 1
                        &&& self.cur_frame().has_prev
                        &&& self.cur_frame().prev_pc == 0
                        &&& self.cur_frame().prev_op == OpcodeId::CALLER
                        &&& self.cur_call().depth == 1
                        &&& self.tx.calls@.len() == 1
                        &&& self.tx.calls@[0] == self.cur_call()
                        &&& self.tx.calls@[0].call_id == orig.call_id_counter
                        &&& self.tx.calls@[0].caller_address == t.from
                        &&& self.block.container.counter == orig.block.container.counter + 6
                        &&& self.block.container.call_context@ == ctx_setup_entries(
                            orig.block.container.call_context@,
                            orig.block.container.counter as int,
                            self.tx.calls@[0],
                        ).push(
                            crate::operation::Operation {
                                rwc: (orig.block.container.counter + 4) as usize,
                                rw: RW::READ,
                                op: CallContextOp {
                                    call_id: orig.call_id_counter,
                                    field: CallContextField::CallerAddress,
                                    value: t.from.word(),
                                },
                            },
                        )
                        &&& self.block.container.stack@ == orig.block.container.stack@.push(
                            crate::operation::Operation {
                                rwc: (orig.block.container.counter + 5) as usize,
                                rw: RW::WRITE,
                                op: StackOp {
                                    call_id: orig.call_id_counter,
                                    address: StackAddress(1023),
                                    value: t.from.word(),
                                },
                            },
                        )
                        &&& self.tx.steps@[1].error is None
                        &&& self.tx.steps@[1].bus_mapping_instance@ == Seq::empty().push(
                            OperationRef {
                                target: Target::CallContext,
                                index: (orig.block.container.call_context@.len() + 4) as usize,
                            },
                        ).push(
                            OperationRef {
                                target: Target::Stack,
                                index: orig.block.container.stack@.len() as usize,
                            },
                        )
                    } else {
                        &&& self.call_stack@.len() == 0
                        &&& self.tx.calls@.len() == 1
                        &&& self.tx.calls@[0].call_id == orig.call_id_counter
                        &&& self.tx.calls@[0].caller_address == t.from
                        &&& self.tx.calls@[0].status == CallStatus::Completed(true)
                        &&& self.block.container.counter == orig.block.container.counter + 6
                        &&& self.block.container.call_context@ == ctx_setup_entries(
                            orig.block.container.call_context@,
                            orig.block.container.counter as int,
                            self.tx.calls@[0],
                        ).push(
                            crate::operation::Operation {
                                rwc: (orig.block.container.counter + 4) as usize,
                                rw: RW::READ,
                                op: CallContextOp {
                                    call_id: orig.call_id_counter,
                                    field: CallContextField::CallerAddress,
                                    value: t.from.word(),
                                },
                            },
                        )
                        &&& self.block.container.stack@ == orig.block.container.stack@.push(
                            crate::operation::Operation {
                                rwc: (orig.block.container.counter + 5) as usize,
                                rw: RW::WRITE,
                                op: StackOp {
                                    call_id: orig.call_id_counter,
                                    address: StackAddress(1023),
                                    value: t.from.word(),
                                },
                            },
                        )
                        &&& self.tx.steps@[1].error is None
                        &&& self.tx.steps@[1].bus_mapping_instance@ == Seq::empty().push(
                            OperationRef {
                                target: Target::CallContext,
                                index: (orig.block.container.call_context@.len() + 4) as usize,
                            },
                        ).push(
                            OperationRef {
                                target: Target::Stack,
                                index: orig.block.container.stack@.len() as usize,
                            },
                        )
                    }
                },
            decreases n - i,
        {
            let ghost before = *self;
            match self.handle_step(t, i) {
                Ok(u) => {},
                Err(e) => {
                    proof {
                        if shaped {
                            assert(before.step_valid(t.steps@[i as int]));
                            assert(false);
                        }
                    }
                    return Err(e);
                },
            }
            proof {
                assert forall|j: int|
                    0 <= j < i + 1 implies step_mirrors(
                    #[trigger] self.tx.steps@[j + 1],
                    t.steps@[j],
                ) by {
                    if j < i {
                        assert(step_mirrors(before.tx.steps@[j + 1], t.steps@[j]));
                    }
                }
                if shaped {
                    if i == 0 {
                        assert(before.frame_at_ok(0));
                        assert(before.cur_frame().call_index == 0);
                        assert(self.tx.steps@.last().error is None);
                        assert(self.tx.steps@[1] == self.tx.steps@.last());
                        assert(self.call_stack@.len() == 1);
                        assert(self.cur_frame().has_prev);
                        assert(self.tx.calls@.len() == 1);
                        assert(self.cur_frame().call_index == 0);
                        assert(self.tx.calls@[0] == self.cur_call());
                        assert(self.tx.calls@[0].call_id == orig.call_id_counter);
                        assert(self.block.container.counter == orig.block.container.counter + 6);
                        assert(before.block.container.call_context@.len()
                            == orig.block.container.call_context@.len() + 4);
                        assert(before.block.container.stack@.len()
                            == orig.block.container.stack@.len());
                        assert(self.block.container.call_context@ == ctx_setup_entries(
                            orig.block.container.call_context@,
                            orig.block.container.counter as int,
                            self.tx.calls@[0],
                        ).push(
                            crate::operation::Operation {
                                rwc: (orig.block.container.counter + 4) as usize,
                                rw: RW::READ,
                                op: CallContextOp {
                                    call_id: orig.call_id_counter,
                                    field: CallContextField::CallerAddress,
                                    value: t.from.word(),
                                },
                            },
                        ));
                        assert(self.block.container.stack@ == orig.block.container.stack@.push(
                            crate::operation::Operation {
                                rwc: (orig.block.container.counter + 5) as usize,
                                rw: RW::WRITE,
                                op: StackOp {
                                    call_id: orig.call_id_counter,
                                    address: StackAddress(1023),
                                    value: t.from.word(),
                                },
                            },
                        ));
                        assert(self.tx.steps@[1].bus_mapping_instance@ == Seq::empty().push(
                            OperationRef {
                                target: Target::CallContext,
                                index: (orig.block.container.call_context@.len() + 4) as usize,
                            },
                        ).push(
                            OperationRef {
                                target: Target::Stack,
                                index: orig.block.container.stack@.len() as usize,
                            },
                        ));
                    } else if i == 1 {
                        assert(before.frame_at_ok(0));
                        assert(before.cur_call_index() == 0);
                        assert(self.tx.steps@.last().error is None);
                        assert(self.tx.steps@[1] == before.tx.steps@[1]);
                        assert(self.tx.calls@ =~= before.tx.calls@.update(
                            0,
                            self.tx.calls@[0],
                        ));
                        assert(self.call_stack@.len() == 0);
                        assert(self.tx.calls@.len() == 1);
                        assert(self.tx.calls@[0].call_id == orig.call_id_counter);
                        assert(self.tx.calls@[0].caller_address == t.from);
                        assert(self.tx.calls@[0].status == CallStatus::Completed(true));
                        assert(self.block.container.counter == orig.block.container.counter + 6);
                        assert(self.block.container.stack@ == before.block.container.stack@);
                        assert(self.block.container.call_context@
                            == before.block.container.call_context@);
                    }
                }
            }
            i = i + 1;
        }
        match self.end_tx() {
            Ok(u) => {},
            Err(e) => {
                proof {
                    if shaped {
                        assert(false);
                    }
                }
                return Err(e);
            },
        }
        Ok(())
    }

    /// Replay a whole block's trace, one transaction at a time, in
    /// order. On success the block holds, behind any transactions
    /// already built, one completed transaction per input transaction,
    /// each mirroring its trace. On a block of worked-example traces
    /// success is owed, and for a single such transaction the recorded
    /// operations are pinned exactly.
    #[verifier::rlimit(100)]
    pub fn handle_block(&mut self, txs: &Vec<TxTrace>) -> (r: Result<(), Error>)
        requires
            old(self).wf(),
            !old(self).in_tx,
        ensures
            final(self).wf(),
            final(self).block.number == old(self).block.number,
            final(self).block.timestamp == old(self).block.timestamp,
            final(self).block.base_fee == old(self).block.base_fee,
            final(self).check_stack == old(self).check_stack,
            r is Ok ==> {
                &&& !final(self).in_tx
                &&& final(self).block.txs@.len() == old(self).block.txs@.len() + txs@.len()
                &&& forall|j: int|
                    0 <= j < old(self).block.txs@.len() ==> final(self).block.txs@[j] == old(
                        self,
                    ).block.txs@[j]
                &&& forall|j: int|
                    0 <= j < txs@.len() ==> tx_mirrors_trace(
                        #[trigger] final(self).block.txs@[old(self).block.txs@.len() + j],
                        txs@[j],
                    )
            },
            ({
                &&& forall|j: int|
                    0 <= j < txs@.len() ==> caller_stop_shape(
                        #[trigger] txs@[j],
                        old(self).check_stack,
                    )
                &&& old(self).block.container.counter + 6 * txs@.len() <= usize::MAX
                &&& old(self).call_id_counter + txs@.len() <= u64::MAX
            }) ==> r is Ok,
            (txs@.len() == 1 && caller_stop_shape(txs@[0], old(self).check_stack) && old(
                self,
            ).block.container.counter + 6 <= usize::MAX && old(self).call_id_counter
                < u64::MAX) ==> {
                &&& r is Ok
                &&& final(self).block.txs@.last().calls@.len() == 1
                &&& final(self).block.txs@.last().calls@[0].call_id == old(self).call_id_counter
                &&& final(self).block.txs@.last().calls@[0].caller_address == txs@[0].from
                &&& final(self).block.txs@.last().calls@[0].status == CallStatus::Completed(true)
                &&& final(self).block.txs@.last().steps@.len() == 3
                &&& final(self).block.txs@.last().steps@[1].error is None
                &&& final(self).block.txs@.last().steps@[1].bus_mapping_instance@
                    == Seq::empty().push(
                    OperationRef {
                        target: Target::CallContext,
                        index: (old(self).block.container.call_context@.len() + 4) as usize,
                    },
                ).push(
                    OperationRef {
                        target: Target::Stack,
                        index: old(self).block.container.stack@.len() as usize,
                    },
                )
                &&& final(self).block.container.call_context@ == ctx_setup_entries(
                    old(self).block.container.call_context@,
                    old(self).block.container.counter as int,
                    final(self).block.txs@.last().calls@[0],
                ).push(
                    crate::operation::Operation {
                        rwc: (old(self).block.container.counter + 4) as usize,
                        rw: RW::READ,
                        op: CallContextOp {
                            call_id: old(self).call_id_counter,
                            field: CallContextField::CallerAddress,
                            value: txs@[0].from.word(),
                        },
                    },
                )
                &&& final(self).block.container.stack@ == old(self).block.container.stack@.push(
                    crate::operation::Operation {
                        rwc: (old(self).block.container.counter + 5) as usize,
                        rw: RW::WRITE,
                        op: StackOp {
                            call_id: old(self).call_id_counter,
                            address: StackAddress(1023),
                            value: txs@[0].from.word(),
                        },
                    },
                )
            },
    {
        let ghost orig = *self;
        let ghost allshaped = (forall|j: int|
            0 <= j < txs@.len() ==> caller_stop_shape(#[trigger] txs@[j], orig.check_stack))
            && orig.block.container.counter + 6 * txs@.len() <= usize::MAX
            && orig.call_id_counter + txs@.len() <= u64::MAX;
        let ghost oneshaped = txs@.len() == 1 && caller_stop_shape(txs@[0], orig.check_stack)
            && orig.block.container.counter + 6 <= usize::MAX && orig.call_id_counter < u64::MAX;
        let n = txs.len();
        let mut i: usize = 0;
        while i < n
            invariant
                orig == *old(self),
                allshaped == ((forall|j: int|
                    0 <= j < txs@.len() ==> caller_stop_shape(#[trigger] txs@[j], orig.check_stack))
                    && orig.block.container.counter + 6 * txs@.len() <= usize::MAX
                    && orig.call_id_counter + txs@.len() <= u64::MAX),
                oneshaped == (txs@.len() == 1 && caller_stop_shape(txs@[0], orig.check_stack)
                    && orig.block.container.counter + 6 <= usize::MAX && orig.call_id_counter
                    < u64::MAX),
                i <= n,
                n == txs@.len(),
                self.wf(),
                !self.in_tx,
                self.block.number == orig.block.number,
                self.block.timestamp == orig.block.timestamp,
                self.block.base_fee == orig.block.base_fee,
                self.check_stack == orig.check_stack,
                self.block.txs@.len() == orig.block.txs@.len() + i,
                forall|j: int|
                    0 <= j < orig.block.txs@.len() ==> self.block.txs@[j] == orig.block.txs@[j],
                forall|j: int|
                    0 <= j < i ==> tx_mirrors_trace(
                        #[trigger] self.block.txs@[orig.block.txs@.len() + j],
                        txs@[j],
                    ),
                allshaped ==> self.block.container.counter == orig.block.container.counter + 6 * i
                    && self.call_id_counter == orig.call_id_counter + i,
                oneshaped && i == 0 ==> *self == orig,
                oneshaped && i == 1 ==> {
                    &&& self.block.txs@.last().calls@.len() == 1
                    &&& self.block.txs@.last().calls@[0].call_id == orig.call_id_counter
                    &&& self.block.txs@.last().calls@[0].caller_address == txs@[0].from
                    &&& self.block.txs@.last().calls@[0].status == CallStatus::Completed(true)
                    &&& self.block.txs@.last().steps@.len() == 3
                    &&& self.block.txs@.last().steps@[1].error is None
                    &&& self.block.txs@.last().steps@[1].bus_mapping_instance@
                        == Seq::empty().push(
                        OperationRef {
                            target: Target::CallContext,
                            index: (orig.block.container.call_context@.len() + 4) as usize,
                        },
                    ).push(
                        OperationRef {
                            target: Target::Stack,
                            index: orig.block.container.stack@.len() as usize,
                        },
                    )
                    &&& self.block.container.call_context@ == ctx_setup_entries(
                        orig.block.container.call_context@,
                        orig.block.container.counter as int,
                        self.block.txs@.last().calls@[0],
                    ).push(
                        crate::operation::Operation {
                            rwc: (orig.block.container.counter + 4) as usize,
                            rw: RW::READ,
                            op: CallContextOp {
                                call_id: orig.call_id_counter,
                                field: CallContextField::CallerAddress,
                                value: txs@[0].from.word(),
                            },
                        },
                    )
                    &&& self.block.container.stack@ == orig.block.container.stack@.push(
                        crate::operation::Operation {
                            rwc: (orig.block.container.counter + 5) as usize,
                            rw: RW::WRITE,
                            op: StackOp {
                                call_id: orig.call_id_counter,
                                address: StackAddress(1023),
                                value: txs@[0].from.word(),
                            },
                        },
                    )
                },
            decreases n - i,
        {
            let ghost before = *self;
            match self.handle_tx(&txs[i]) {
                Ok(u) => {},
                Err(e) => {
                    proof {
                        if allshaped {
                            assert(caller_stop_shape(txs@[i as int], before.check_stack));
                            assert(before.block.container.counter + 6 <= usize::MAX);
                            assert(false);
                        }
                    }
                    return Err(e);
                },
            }
            proof {
                assert forall|j: int|
                    0 <= j < i + 1 implies tx_mirrors_trace(
                    #[trigger] self.block.txs@[orig.block.txs@.len() + j],
                    txs@[j],
                ) by {
                    if j < i {
                        assert(tx_mirrors_trace(
                            before.block.txs@[orig.block.txs@.len() + j],
                            txs@[j],
                        ));
                    } else {
                        assert(self.block.txs@.last() == self.block.txs@[orig.block.txs@.len()
                            + j]);
                    }
                }
            }
            i = i + 1;
        }
        Ok(())
    }
}

} // verus!

