//! Typed operations and the per-resource-kind append-only containers.
//!
//! Every append draws the next number from one block-wide sequence
//! counter, so the multiset of sequence numbers across all containers is
//! always the contiguous range `{0, 1, ..., counter-1}`.

use crate::access_log::Access;
use crate::word::Word;
use vstd::multiset::Multiset;
use vstd::prelude::*;

verus! {

/// Whether an operation reads or writes its resource.
#[allow(non_camel_case_types)]
#[derive(Clone, Copy, Debug, Hash, PartialEq, Eq, Structural)]
pub enum RW {
    READ,
    WRITE,
}

/// The call-context fields a handler may record accesses to. Each is
/// derived from the owning call frame and is fixed for the frame's
/// lifetime.
#[derive(Clone, Copy, Debug, Hash, PartialEq, Eq, Structural)]
pub enum CallContextField {
    CallerAddress,
    CalleeAddress,
    IsStatic,
    Depth,
}

/// An offset into the 1024-slot operand stack; slot 1023 is the bottom
/// and the stack grows toward slot 0.
#[derive(Clone, Copy, Debug, Hash, PartialEq, Eq, Structural)]
pub struct StackAddress(pub usize);

impl From<usize> for StackAddress {
    fn from(offset: usize) -> (r: StackAddress) {
        StackAddress(offset)
    }
}

impl vstd::std_specs::convert::FromSpecImpl<usize> for StackAddress {
    open spec fn obeys_from_spec() -> bool {
        true
    }

    open spec fn from_spec(offset: usize) -> StackAddress {
        StackAddress(offset)
    }
}

/// One access to an operand-stack slot, keyed by call id and stack offset.
#[derive(Clone, Copy, Debug, Hash, PartialEq, Eq, Structural)]
pub struct StackOp {
    pub call_id: u64,
    pub address: StackAddress,
    pub value: Word,
}

impl StackOp {
    pub fn new(call_id: u64, address: StackAddress, value: Word) -> (r: StackOp)
        ensures
            r == (StackOp { call_id, address, value }),
    {
        StackOp { call_id, address, value }
    }
}

/// One access to a call-context field, keyed by call id and field tag.
#[derive(Clone, Copy, Debug, Hash, PartialEq, Eq, Structural)]
pub struct CallContextOp {
    pub call_id: u64,
    pub field: CallContextField,
    pub value: Word,
}

impl CallContextOp {
    pub fn new(call_id: u64, field: CallContextField, value: Word) -> (r: CallContextOp)
        ensures
            r == (CallContextOp { call_id, field, value }),
    {
        CallContextOp { call_id, field, value }
    }
}

/// A container entry: a typed operation stamped with its block-wide
/// sequence number and its read/write flag.
#[derive(Clone, Copy, Debug, PartialEq, Eq, Structural)]
pub struct Operation<T> {
    pub rwc: usize,
    pub rw: RW,
    pub op: T,
}

impl<T> Operation<T> {
    /// The read/write flag of the entry.
    pub fn rw(&self) -> (r: RW)
        ensures
            r == self.rw,
    {
        self.rw
    }

    /// The block-wide sequence number of the entry.
    pub fn rwc(&self) -> (r: usize)
        ensures
            r == self.rwc,
    {
        self.rwc
    }

    /// The typed operation itself.
    pub fn op(&self) -> (r: &T)
        ensures
            r == &self.op,
    {
        &self.op
    }
}

/// Which container a step's back-reference points into.
#[derive(Clone, Copy, Debug, Hash, PartialEq, Eq, Structural)]
pub enum Target {
    Stack,
    CallContext,
}

/// A back-reference from an execution step into one container: the
/// container kind and the stable index `append` returned.
#[derive(Clone, Copy, Debug, Hash, PartialEq, Eq, Structural)]
pub struct OperationRef {
    pub target: Target,
    pub index: usize,
}

impl OperationRef {
    pub fn new(target: Target, index: usize) -> (r: OperationRef)
        ensures
            r == (OperationRef { target, index }),
    {
        OperationRef { target, index }
    }

    /// The index into the referenced container.
    pub fn as_usize(&self) -> (r: usize)
        ensures
            r == self.index,
    {
        self.index
    }
}

/// The multiset of sequence numbers stamped on a container's entries.
pub open spec fn rwc_multiset<T>(s: Seq<Operation<T>>) -> Multiset<usize>
    decreases s.len(),
{
    if s.len() == 0 {
        Multiset::empty()
    } else {
        rwc_multiset(s.drop_last()).insert(s.last().rwc)
    }
}

/// The multiset `{0, 1, ..., n-1}`.
pub open spec fn interval_multiset(n: int) -> Multiset<usize>
    decreases n,
{
    if n <= 0 {
        Multiset::empty()
    } else {
        interval_multiset(n - 1).insert((n - 1) as usize)
    }
}

pub proof fn lemma_rwc_multiset_push<T>(s: Seq<Operation<T>>, o: Operation<T>)
    ensures
        rwc_multiset(s.push(o)) == rwc_multiset(s).insert(o.rwc),
{
    assert(s.push(o).drop_last() =~= s);
    assert(s.push(o).last() == o);
}

/// `{0, ..., n-1}` holds each number below `n` exactly once and nothing
/// else: the contiguity the circuit checks for.
pub proof fn lemma_interval_multiset_count(n: int, x: usize)
    requires
        0 <= n <= usize::MAX as int + 1,
    ensures
        interval_multiset(n).count(x) == if (x as int) < n {
            1int
        } else {
            0int
        },
    decreases n,
{
    if n > 0 {
        lemma_interval_multiset_count(n - 1, x);
    }
}

/// The append-only operation containers, one per resource kind, sharing
/// one block-wide sequence counter. `counter` is the single source of
/// sequence numbers: every append stamps the current counter value and
/// advances it.
#[derive(Clone, Debug)]
pub struct OperationContainer {
    pub counter: usize,
    pub stack: Vec<Operation<StackOp>>,
    pub call_context: Vec<Operation<CallContextOp>>,
}

impl OperationContainer {
    /// The stack log abstracted to keyed accesses; the key is the pair
    /// (call id, stack offset).
    pub open spec fn stack_log(self) -> Seq<Access<(u64, usize), Word>> {
        self.stack@.map(
            |i: int, o: Operation<StackOp>|
                Access { rw: o.rw, key: (o.op.call_id, o.op.address.0), value: o.op.value },
        )
    }

    /// The call-context log abstracted to keyed accesses; the key is the
    /// pair (call id, field tag).
    pub open spec fn call_context_log(self) -> Seq<Access<(u64, CallContextField), Word>> {
        self.call_context@.map(
            |i: int, o: Operation<CallContextOp>|
                Access { rw: o.rw, key: (o.op.call_id, o.op.field), value: o.op.value },
        )
    }

    /// All sequence numbers drawn so far, over every container.
    pub open spec fn all_rwcs(self) -> Multiset<usize> {
        rwc_multiset(self.stack@).add(rwc_multiset(self.call_context@))
    }

    /// Container well-formedness: the sequence numbers across all
    /// containers are exactly `{0, ..., counter-1}`, and each container
    /// is sorted by sequence number with every stamp below the counter.
    pub open spec fn wf(self) -> bool {
        &&& self.all_rwcs() == interval_multiset(self.counter as int)
        &&& forall|i: int| 0 <= i < self.stack@.len() ==> (#[trigger] self.stack@[i]).rwc
            < self.counter
        &&& forall|i: int|
            0 <= i < self.call_context@.len() ==> (#[trigger] self.call_context@[i]).rwc
                < self.counter
        &&& forall|i: int, j: int|
            0 <= i < j < self.stack@.len() ==> self.stack@[i].rwc < self.stack@[j].rwc
        &&& forall|i: int, j: int|
            0 <= i < j < self.call_context@.len() ==> self.call_context@[i].rwc
                < self.call_context@[j].rwc
    }

    /// An empty container with the sequence counter at zero.
    pub fn new() -> (r: OperationContainer)
        ensures
            r.counter == 0,
            r.stack@ =~= Seq::<Operation<StackOp>>::empty(),
            r.call_context@ =~= Seq::<Operation<CallContextOp>>::empty(),
            r.wf(),
    {
        let r = OperationContainer { counter: 0, stack: Vec::new(), call_context: Vec::new() };
        proof {
            assert(r.all_rwcs() =~= interval_multiset(0));
        }
        r
    }

    /// Append one stack operation, drawing the next sequence number.
    /// Returns the stable index of the new entry.
    pub fn append_stack(&mut self, rw: RW, op: StackOp) -> (idx: usize)
        requires
            old(self).wf(),
            old(self).counter < usize::MAX,
        ensures
            final(self).wf(),
            idx == old(self).stack@.len(),
            final(self).counter == old(self).counter + 1,
            final(self).stack@ == old(self).stack@.push(
                Operation { rwc: old(self).counter, rw, op },
            ),
            final(self).call_context == old(self).call_context,
    {
        let idx = self.stack.len();
        let entry = Operation { rwc: self.counter, rw, op };
        self.stack.push(entry);
        self.counter = self.counter + 1;
        proof {
            lemma_rwc_multiset_push(old(self).stack@, entry);
            assert(self.all_rwcs() =~= old(self).all_rwcs().insert(old(self).counter));
        }
        idx
    }

    /// Append one call-context operation, drawing the next sequence
    /// number. Returns the stable index of the new entry.
    pub fn append_call_context(&mut self, rw: RW, op: CallContextOp) -> (idx: usize)
        requires
            old(self).wf(),
            old(self).counter < usize::MAX,
        ensures
            final(self).wf(),
            idx == old(self).call_context@.len(),
            final(self).counter == old(self).counter + 1,
            final(self).call_context@ == old(self).call_context@.push(
                Operation { rwc: old(self).counter, rw, op },
            ),
            final(self).stack == old(self).stack,
    {
        let idx = self.call_context.len();
        let entry = Operation { rwc: self.counter, rw, op };
        self.call_context.push(entry);
        self.counter = self.counter + 1;
        proof {
            lemma_rwc_multiset_push(old(self).call_context@, entry);
            assert(self.all_rwcs() =~= old(self).all_rwcs().insert(old(self).counter));
        }
        idx
    }

}

} // verus!
