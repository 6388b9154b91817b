//! The opcode handler contract and its worked-example implementations.
//!
//! A handler is given the builder state and the trace window starting at
//! the current step; it emits the instruction's operations in the exact
//! order the circuit expects and returns the step records produced.
//! Execution-level failures are recorded on the step, not raised: a
//! failed instruction still terminates its call frame in a well-defined
//! way. Dispatch is a closed match over the opcode id; the remaining
//! opcodes plug in as further arms of the same shape.
//!
//! Each handler's whole behaviour is one named postcondition predicate
//! (`caller_post`, `stop_post`, `pop_post`), which the dispatch
//! forwards, so a caller of the dispatch knows per opcode exactly what
//! was appended, what the step record holds, and on which inputs the
//! handler fails.

use crate::circuit_input_builder::handler_frame;
use crate::circuit_input_builder::step_record_ok;
use crate::circuit_input_builder::stepped_frame;
use crate::circuit_input_builder::CircuitInputBuilder;
use crate::circuit_input_builder::ExecStep;
use crate::error::Error;
use crate::error::ExecError;
use crate::operation::CallContextField;
use crate::operation::CallContextOp;
use crate::operation::OperationRef;
use crate::operation::StackAddress;
use crate::operation::StackOp;
use crate::operation::Target;
use crate::operation::RW;
use crate::trace::OpcodeId;
use crate::trace::TraceStep;
use vstd::prelude::*;

verus! {

/// The cross-check datum the CALLER handler consults in check mode: the
/// next trace step exists and reports the caller address on top of the
/// observed stack.
pub open spec fn caller_lookahead_ok(
    pre: CircuitInputBuilder,
    trace: Seq<TraceStep>,
    at: int,
) -> bool {
    &&& at + 1 < trace.len()
    &&& trace[at + 1].stack@.len() > 0
    &&& trace[at + 1].stack@.last() == pre.cur_call().caller_address.word()
}

/// Everything the CALLER handler does, as a relation between the state
/// before (`pre`), the state after (`post`) and the result. On success
/// the step carries exactly two operations, in order: a READ of the
/// current call's caller-address context field, then a WRITE of the
/// post-push top-of-stack slot, both with the caller address as value;
/// a stack overflow is recorded on the step with the READ already
/// appended; failure is possible only for the listed reasons, each with
/// its exact final state.
pub open spec fn caller_post(
    pre: CircuitInputBuilder,
    post: CircuitInputBuilder,
    trace: Seq<TraceStep>,
    at: int,
    r: Result<Vec<ExecStep>, Error>,
) -> bool {
    &&& post.wf()
    &&& handler_frame(post, pre)
    &&& match r {
        Ok(v) => {
            &&& v@.len() == 1
            &&& pre.step_valid(trace[at])
            &&& step_record_ok(v@[0], trace[at], pre.cur_call())
            &&& stepped_frame(post, trace[at])
            &&& pre.check_stack ==> caller_lookahead_ok(pre, trace, at)
            &&& match v@[0].error {
                None => {
                    &&& pre.cur_frame().stack@.len() < 1024
                    &&& pre.block.container.counter + 2 <= usize::MAX
                    &&& post.block.container.call_context@
                        == pre.block.container.call_context@.push(
                        crate::operation::Operation {
                            rwc: pre.block.container.counter,
                            rw: RW::READ,
                            op: CallContextOp {
                                call_id: pre.cur_call().call_id,
                                field: CallContextField::CallerAddress,
                                value: pre.cur_call().caller_address.word(),
                            },
                        },
                    )
                    &&& post.block.container.stack@ == pre.block.container.stack@.push(
                        crate::operation::Operation {
                            rwc: (pre.block.container.counter + 1) as usize,
                            rw: RW::WRITE,
                            op: StackOp {
                                call_id: pre.cur_call().call_id,
                                address: StackAddress(
                                    (1023 - pre.cur_frame().stack@.len()) as usize,
                                ),
                                value: pre.cur_call().caller_address.word(),
                            },
                        },
                    )
                    &&& post.block.container.counter == pre.block.container.counter + 2
                    &&& v@[0].bus_mapping_instance@ == Seq::empty().push(
                        OperationRef {
                            target: Target::CallContext,
                            index: pre.block.container.call_context@.len() as usize,
                        },
                    ).push(
                        OperationRef {
                            target: Target::Stack,
                            index: pre.block.container.stack@.len() as usize,
                        },
                    )
                    &&& post.cur_frame().stack@ == pre.cur_frame().stack@.push(
                        pre.cur_call().caller_address.word(),
                    )
                },
                Some(e) => {
                    &&& e == ExecError::StackOverflow
                    &&& pre.cur_frame().stack@.len() >= 1024
                    &&& pre.block.container.counter < usize::MAX
                    &&& post.block.container.call_context@
                        == pre.block.container.call_context@.push(
                        crate::operation::Operation {
                            rwc: pre.block.container.counter,
                            rw: RW::READ,
                            op: CallContextOp {
                                call_id: pre.cur_call().call_id,
                                field: CallContextField::CallerAddress,
                                value: pre.cur_call().caller_address.word(),
                            },
                        },
                    )
                    &&& post.block.container.stack == pre.block.container.stack
                    &&& post.block.container.counter == pre.block.container.counter + 1
                    &&& v@[0].bus_mapping_instance@ == Seq::empty().push(
                        OperationRef {
                            target: Target::CallContext,
                            index: pre.block.container.call_context@.len() as usize,
                        },
                    )
                    &&& post.cur_frame().stack@ == pre.cur_frame().stack@
                },
            }
        },
        Err(e) => {
            &&& !(e is Execution)
            &&& if !pre.has_active() {
                e == Error::NoActiveCall && post == pre
            } else if !pre.step_valid(trace[at]) {
                e == Error::InvalidTraceStep && post == pre
            } else if pre.check_stack && !caller_lookahead_ok(pre, trace, at) {
                &&& e == Error::InvalidTraceStep
                &&& stepped_frame(post, trace[at])
                &&& post.cur_frame().stack@ == pre.cur_frame().stack@
                &&& post.block.container == pre.block.container
            } else if pre.block.container.counter == usize::MAX {
                &&& e == Error::CounterOverflow
                &&& stepped_frame(post, trace[at])
                &&& post.cur_frame().stack@ == pre.cur_frame().stack@
                &&& post.block.container == pre.block.container
            } else {
                &&& e == Error::CounterOverflow
                &&& pre.block.container.counter == usize::MAX - 1
                &&& stepped_frame(post, trace[at])
                &&& post.cur_frame().stack@ == pre.cur_frame().stack@
                &&& post.block.container.stack == pre.block.container.stack
                &&& post.block.container.counter == usize::MAX
            }
        },
    }
}

/// Everything the STOP handler does: it validates the step and returns
/// its record, touching no container; completing the call is the
/// driver's part of the state machine.
pub open spec fn stop_post(
    pre: CircuitInputBuilder,
    post: CircuitInputBuilder,
    trace: Seq<TraceStep>,
    at: int,
    r: Result<Vec<ExecStep>, Error>,
) -> bool {
    &&& post.wf()
    &&& handler_frame(post, pre)
    &&& post.block.container == pre.block.container
    &&& match r {
        Ok(v) => {
            &&& v@.len() == 1
            &&& pre.step_valid(trace[at])
            &&& step_record_ok(v@[0], trace[at], pre.cur_call())
            &&& v@[0].error is None
            &&& v@[0].bus_mapping_instance@.len() == 0
            &&& stepped_frame(post, trace[at])
            &&& post.cur_frame().stack@ == pre.cur_frame().stack@
        },
        Err(e) => {
            &&& post == pre
            &&& if !pre.has_active() {
                e == Error::NoActiveCall
            } else {
                e == Error::InvalidTraceStep && !pre.step_valid(trace[at])
            }
        },
    }
}

/// Everything the POP handler does. On success the step carries exactly
/// one operation: a READ of the pre-pop top-of-stack slot with its
/// current value, and the derived stack loses its top; an underflow is
/// recorded on the step with nothing appended.
pub open spec fn pop_post(
    pre: CircuitInputBuilder,
    post: CircuitInputBuilder,
    trace: Seq<TraceStep>,
    at: int,
    r: Result<Vec<ExecStep>, Error>,
) -> bool {
    &&& post.wf()
    &&& handler_frame(post, pre)
    &&& post.block.container.call_context == pre.block.container.call_context
    &&& match r {
        Ok(v) => {
            &&& v@.len() == 1
            &&& pre.step_valid(trace[at])
            &&& step_record_ok(v@[0], trace[at], pre.cur_call())
            &&& stepped_frame(post, trace[at])
            &&& match v@[0].error {
                None => {
                    &&& pre.cur_frame().stack@.len() > 0
                    &&& pre.block.container.counter < usize::MAX
                    &&& post.block.container.stack@ == pre.block.container.stack@.push(
                        crate::operation::Operation {
                            rwc: pre.block.container.counter,
                            rw: RW::READ,
                            op: StackOp {
                                call_id: pre.cur_call().call_id,
                                address: StackAddress(
                                    (1024 - pre.cur_frame().stack@.len()) as usize,
                                ),
                                value: pre.cur_frame().stack@.last(),
                            },
                        },
                    )
                    &&& post.block.container.counter == pre.block.container.counter + 1
                    &&& v@[0].bus_mapping_instance@ == Seq::empty().push(
                        OperationRef {
                            target: Target::Stack,
                            index: pre.block.container.stack@.len() as usize,
                        },
                    )
                    &&& post.cur_frame().stack@ == pre.cur_frame().stack@.drop_last()
                },
                Some(e) => {
                    &&& e == ExecError::StackUnderflow
                    &&& pre.cur_frame().stack@.len() == 0
                    &&& post.block.container == pre.block.container
                    &&& v@[0].bus_mapping_instance@.len() == 0
                    &&& post.cur_frame().stack@ == pre.cur_frame().stack@
                },
            }
        },
        Err(e) => {
            &&& !(e is Execution)
            &&& if !pre.has_active() {
                e == Error::NoActiveCall && post == pre
            } else if !pre.step_valid(trace[at]) {
                e == Error::InvalidTraceStep && post == pre
            } else {
                &&& e == Error::CounterOverflow
                &&& pre.block.container.counter == usize::MAX
                &&& stepped_frame(post, trace[at])
                &&& post.cur_frame().stack@ == pre.cur_frame().stack@
                &&& post.block.container == pre.block.container
            }
        },
    }
}

/// Handler for the "who is my caller" instruction: one call-context READ
/// of the caller address, then one stack WRITE pushing that address.
pub struct Caller;

impl Caller {
    /// Replay one CALLER step; see [`caller_post`] for the full
    /// behaviour.
    #[verifier::rlimit(60)]
    pub fn gen_associated_ops(
        state: &mut CircuitInputBuilder,
        trace: &Vec<TraceStep>,
        at: usize,
    ) -> (r: Result<Vec<ExecStep>, Error>)
        requires
            old(state).wf(),
            at < trace@.len(),
        ensures
            caller_post(*old(state), *final(state), trace@, at as int, r),
    {
        let ts = &trace[at];
        let mut step = match state.new_step(ts) {
            Ok(s) => s,
            Err(e) => {
                proof {
                    if old(state).has_active() {
                        assert(state.call_stack@ =~= old(state).call_stack@.update(
                            old(state).call_stack@.len() - 1,
                            state.call_stack@.last(),
                        ));
                    }
                }
                return Err(e);
            },
        };
        let ghost refs0 = step.bus_mapping_instance@;
        proof {
            assert(refs0 =~= Seq::empty());
        }
        let (call_id, caller_address) = match state.call() {
            Ok(c) => (c.call_id, c.caller_address),
            Err(e) => {
                proof {
                    if old(state).has_active() {
                        assert(state.call_stack@ =~= old(state).call_stack@.update(
                            old(state).call_stack@.len() - 1,
                            state.call_stack@.last(),
                        ));
                    }
                }
                return Err(e);
            },
        };
        let caller_word = caller_address.to_word();
        // optional cross-check against the trace's observed post-state:
        // the next step's stack top must be the value about to be pushed
        if state.check_stack {
            if at >= trace.len() - 1 {
                proof {
                    assert(state.call_stack@ =~= old(state).call_stack@.update(
                        old(state).call_stack@.len() - 1,
                        state.call_stack@.last(),
                    ));
                }
                return Err(Error::InvalidTraceStep);
            }
            let next = &trace[at + 1];
            if next.stack.len() == 0 {
                proof {
                    assert(state.call_stack@ =~= old(state).call_stack@.update(
                        old(state).call_stack@.len() - 1,
                        state.call_stack@.last(),
                    ));
                }
                return Err(Error::InvalidTraceStep);
            }
            let top = next.stack[next.stack.len() - 1];
            if top != caller_word {
                proof {
                    assert(state.call_stack@ =~= old(state).call_stack@.update(
                        old(state).call_stack@.len() - 1,
                        state.call_stack@.last(),
                    ));
                }
                return Err(Error::InvalidTraceStep);
            }
        }
        // call-context READ of the caller address, derived from the call
        match state.call_context_read(
            &mut step,
            call_id,
            CallContextField::CallerAddress,
            caller_word,
        ) {
            Ok(u) => {},
            Err(e) => {
                proof {
                    if old(state).has_active() {
                        assert(state.call_stack@ =~= old(state).call_stack@.update(
                            old(state).call_stack@.len() - 1,
                            state.call_stack@.last(),
                        ));
                    }
                }
                return Err(e);
            },
        }
        // stack WRITE of the caller address
        match state.stack_push(&mut step, caller_word) {
            Ok(u) => {},
            Err(Error::Execution(e)) => {
                step.error = Some(e);
                proof {
                    if old(state).has_active() {
                        assert(state.call_stack@ =~= old(state).call_stack@.update(
                            old(state).call_stack@.len() - 1,
                            state.call_stack@.last(),
                        ));
                    }
                }
                let mut v = Vec::new();
                v.push(step);
                return Ok(v);
            },
            Err(e) => {
                proof {
                    if old(state).has_active() {
                        assert(state.call_stack@ =~= old(state).call_stack@.update(
                            old(state).call_stack@.len() - 1,
                            state.call_stack@.last(),
                        ));
                    }
                }
                return Err(e);
            },
        }
        proof {
            if old(state).has_active() {
                assert(state.call_stack@ =~= old(state).call_stack@.update(
                    old(state).call_stack@.len() - 1,
                    state.call_stack@.last(),
                ));
            }
        }
        let mut v = Vec::new();
        v.push(step);
        Ok(v)
    }
}

/// Handler for the instruction that ends a call successfully. It emits
/// no operations; the builder's call state machine completes the frame.
pub struct Stop;

impl Stop {
    /// Replay one STOP step; see [`stop_post`] for the full behaviour.
    pub fn gen_associated_ops(
        state: &mut CircuitInputBuilder,
        trace: &Vec<TraceStep>,
        at: usize,
    ) -> (r: Result<Vec<ExecStep>, Error>)
        requires
            old(state).wf(),
            at < trace@.len(),
        ensures
            stop_post(*old(state), *final(state), trace@, at as int, r),
    {
        let ts = &trace[at];
        let step = match state.new_step(ts) {
            Ok(s) => s,
            Err(e) => {
                proof {
                    if old(state).has_active() {
                        assert(state.call_stack@ =~= old(state).call_stack@.update(
                            old(state).call_stack@.len() - 1,
                            state.call_stack@.last(),
                        ));
                    }
                }
                return Err(e);
            },
        };
        proof {
            if old(state).has_active() {
                assert(state.call_stack@ =~= old(state).call_stack@.update(
                    old(state).call_stack@.len() - 1,
                    state.call_stack@.last(),
                ));
            }
        }
        let mut v = Vec::new();
        v.push(step);
        Ok(v)
    }
}

/// Handler for the instruction that discards the top of the stack: one
/// stack READ of the pre-pop top-of-stack slot.
pub struct Pop;

impl Pop {
    /// Replay one POP step; see [`pop_post`] for the full behaviour.
    pub fn gen_associated_ops(
        state: &mut CircuitInputBuilder,
        trace: &Vec<TraceStep>,
        at: usize,
    ) -> (r: Result<Vec<ExecStep>, Error>)
        requires
            old(state).wf(),
            at < trace@.len(),
        ensures
            pop_post(*old(state), *final(state), trace@, at as int, r),
    {
        let ts = &trace[at];
        let mut step = match state.new_step(ts) {
            Ok(s) => s,
            Err(e) => {
                proof {
                    if old(state).has_active() {
                        assert(state.call_stack@ =~= old(state).call_stack@.update(
                            old(state).call_stack@.len() - 1,
                            state.call_stack@.last(),
                        ));
                    }
                }
                return Err(e);
            },
        };
        let ghost refs0 = step.bus_mapping_instance@;
        proof {
            assert(refs0 =~= Seq::empty());
        }
        match state.stack_pop(&mut step) {
            Ok(value) => {},
            Err(Error::Execution(e)) => {
                step.error = Some(e);
                proof {
                    if old(state).has_active() {
                        assert(state.call_stack@ =~= old(state).call_stack@.update(
                            old(state).call_stack@.len() - 1,
                            state.call_stack@.last(),
                        ));
                    }
                }
                let mut v = Vec::new();
                v.push(step);
                return Ok(v);
            },
            Err(e) => {
                proof {
                    if old(state).has_active() {
                        assert(state.call_stack@ =~= old(state).call_stack@.update(
                            old(state).call_stack@.len() - 1,
                            state.call_stack@.last(),
                        ));
                    }
                }
                return Err(e);
            },
        }
        proof {
            if old(state).has_active() {
                assert(state.call_stack@ =~= old(state).call_stack@.update(
                    old(state).call_stack@.len() - 1,
                    state.call_stack@.last(),
                ));
            }
        }
        let mut v = Vec::new();
        v.push(step);
        Ok(v)
    }
}

/// The dispatch table of the handler contract: one arm per opcode id,
/// each forwarding its handler's full postcondition.
pub fn gen_associated_ops(
    op: OpcodeId,
    state: &mut CircuitInputBuilder,
    trace: &Vec<TraceStep>,
    at: usize,
) -> (r: Result<Vec<ExecStep>, Error>)
    requires
        old(state).wf(),
        at < trace@.len(),
    ensures
        final(state).wf(),
        handler_frame(*final(state), *old(state)),
        op == OpcodeId::CALLER ==> caller_post(*old(state), *final(state), trace@, at as int, r),
        op == OpcodeId::STOP ==> stop_post(*old(state), *final(state), trace@, at as int, r),
        op == OpcodeId::POP ==> pop_post(*old(state), *final(state), trace@, at as int, r),
{
    match op {
        OpcodeId::CALLER => Caller::gen_associated_ops(state, trace, at),
        OpcodeId::STOP => Stop::gen_associated_ops(state, trace, at),
        OpcodeId::POP => Pop::gen_associated_ops(state, trace, at),
    }
}

} // verus!
