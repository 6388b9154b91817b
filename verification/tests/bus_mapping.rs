use bus_mapping::circuit_input_builder::CallKind;
use bus_mapping::circuit_input_builder::CallStatus;
use bus_mapping::circuit_input_builder::CircuitInputBuilder;
use bus_mapping::circuit_input_builder::ExecState;
use bus_mapping::circuit_input_builder::ExecStep;
use bus_mapping::circuit_input_builder::TxTrace;
use bus_mapping::error::Error;
use bus_mapping::error::ExecError;
use bus_mapping::operation::CallContextField;
use bus_mapping::operation::CallContextOp;
use bus_mapping::operation::StackAddress;
use bus_mapping::operation::StackOp;
use bus_mapping::operation::RW;
use bus_mapping::trace::OpcodeId;
use bus_mapping::trace::TraceStep;
use bus_mapping::word::Address;
use bus_mapping::word::Word;

fn addr(hi: u32, lo: u128) -> Address {
    Address { hi, lo }
}

fn caller_stop_trace(from: Address, to: Address) -> TxTrace {
    let steps = vec![
        TraceStep { pc: 0, op: OpcodeId::CALLER, gas: 100000, depth: 1, stack: vec![] },
        TraceStep { pc: 1, op: OpcodeId::STOP, gas: 99998, depth: 1, stack: vec![from.to_word()] },
    ];
    TxTrace { from, to, value: Word::zero(), nonce: 0, gas: 100000, steps }
}

#[test]
fn caller_opcode_impl() {
    // a transaction from account 1 to account 0, whose code is CALLER; STOP
    let from = addr(0, 1);
    let to = addr(0, 0);
    let block_trace = vec![caller_stop_trace(from, to)];

    let mut builder = CircuitInputBuilder::new(0xcafe, 0, Word::zero(), true);
    builder.handle_block(&block_trace).unwrap();

    let step = builder.block.txs()[0]
        .steps()
        .iter()
        .find(|step| step.exec_state == ExecState::Op(OpcodeId::CALLER))
        .unwrap();

    let call_id = builder.block.txs()[0].calls()[0].call_id;
    let caller_address = from.to_word();
    assert_eq!(
        {
            let operation =
                &builder.block.container.call_context[step.bus_mapping_instance[0].as_usize()];
            (operation.rw(), operation.op())
        },
        (
            RW::READ,
            &CallContextOp {
                call_id,
                field: CallContextField::CallerAddress,
                value: caller_address,
            }
        )
    );
    assert_eq!(
        {
            let operation = &builder.block.container.stack[step.bus_mapping_instance[1].as_usize()];
            (operation.rw(), operation.op())
        },
        (RW::WRITE, &StackOp::new(1, StackAddress::from(1023), caller_address))
    );
}

#[test]
fn caller_emits_context_read_then_stack_write() {
    // 0xAA..AA calls into 0xBB..BB, which runs CALLER; STOP
    let from = addr(0xAAAAAAAA, 0xAAAAAAAA_AAAAAAAA_AAAAAAAA_AAAAAAAA);
    let to = addr(0xBBBBBBBB, 0xBBBBBBBB_BBBBBBBB_BBBBBBBB_BBBBBBBB);
    let mut builder = CircuitInputBuilder::new(1, 0, Word::zero(), false);
    builder.handle_block(&vec![caller_stop_trace(from, to)]).unwrap();

    let step = builder.block.txs()[0]
        .steps()
        .iter()
        .find(|step| step.exec_state == ExecState::Op(OpcodeId::CALLER))
        .unwrap();
    assert_eq!(step.error, None);
    assert_eq!(step.bus_mapping_instance.len(), 2);
    let read = &builder.block.container.call_context[step.bus_mapping_instance[0].as_usize()];
    let write = &builder.block.container.stack[step.bus_mapping_instance[1].as_usize()];
    assert_eq!(read.rw(), RW::READ);
    assert_eq!(read.op().field, CallContextField::CallerAddress);
    assert_eq!(read.op().value, from.to_word());
    assert_eq!(write.rw(), RW::WRITE);
    assert_eq!(write.op().address, StackAddress(1023));
    assert_eq!(write.op().value, from.to_word());
    // the read comes first in the block-wide order
    assert!(read.rwc() < write.rwc());
}

#[test]
fn stop_completes_root_call_successfully() {
    let from = addr(0, 7);
    let to = addr(0, 9);
    let mut builder = CircuitInputBuilder::new(1, 0, Word::zero(), false);
    builder.handle_block(&vec![caller_stop_trace(from, to)]).unwrap();
    let calls = builder.block.txs()[0].calls();
    assert_eq!(calls.len(), 1);
    assert_eq!(calls[0].status, CallStatus::Completed(true));
}

#[test]
fn stack_underflow_fails_nested_call_and_leaves_parent_active() {
    let from = addr(0, 1);
    let to = addr(0, 2);
    let inner = addr(0, 3);
    let mut b = CircuitInputBuilder::new(1, 0, Word::zero(), false);
    b.begin_tx(from, to, Word::zero(), 0, 1000).unwrap();
    let mut call_step = ExecStep {
        exec_state: ExecState::Op(OpcodeId::CALLER),
        pc: 0,
        gas: 1000,
        depth: 1,
        call_id: 1,
        error: None,
        bus_mapping_instance: vec![],
    };
    b.begin_call(&mut call_step, inner, CallKind::Call, false).unwrap();
    let ops_before = b.block.container.stack.len();

    // the child's first step pops an empty stack
    let t = TxTrace {
        from,
        to,
        value: Word::zero(),
        nonce: 0,
        gas: 1000,
        steps: vec![TraceStep { pc: 0, op: OpcodeId::POP, gas: 10, depth: 2, stack: vec![] }],
    };
    b.handle_step(&t, 0).unwrap();

    assert_eq!(b.tx.calls()[1].status, CallStatus::Completed(false));
    assert_eq!(b.tx.calls()[0].status, CallStatus::Active);
    // no operations were appended for the failed call beyond the failure
    assert_eq!(b.block.container.stack.len(), ops_before);
    let failed_step = b.tx.steps().last().unwrap();
    assert_eq!(failed_step.error, Some(ExecError::StackUnderflow));
}

#[test]
fn sequence_numbers_are_contiguous() {
    let mut builder = CircuitInputBuilder::new(1, 0, Word::zero(), false);
    builder.handle_block(&vec![caller_stop_trace(addr(0, 1), addr(0, 2))]).unwrap();
    let c = &builder.block.container;
    let mut seen = vec![false; c.counter];
    for op in c.stack.iter() {
        assert!(op.rwc() < c.counter);
        assert!(!seen[op.rwc()]);
        seen[op.rwc()] = true;
    }
    for op in c.call_context.iter() {
        assert!(op.rwc() < c.counter);
        assert!(!seen[op.rwc()]);
        seen[op.rwc()] = true;
    }
    for s in seen.iter() {
        assert!(*s);
    }
}

#[test]
fn reads_equal_most_recent_prior_write() {
    let mut builder = CircuitInputBuilder::new(1, 0, Word::zero(), false);
    builder.handle_block(&vec![caller_stop_trace(addr(0, 5), addr(0, 6))]).unwrap();
    let ctx = &builder.block.container.call_context;
    let mut found_read = false;
    for i in 0..ctx.len() {
        if ctx[i].rw() == RW::READ {
            found_read = true;
            let key = (ctx[i].op().call_id, ctx[i].op().field);
            let mut last = None;
            for j in 0..i {
                if ctx[j].rw() == RW::WRITE && (ctx[j].op().call_id, ctx[j].op().field) == key {
                    last = Some(ctx[j].op().value);
                }
            }
            assert_eq!(Some(ctx[i].op().value), last);
        }
    }
    assert!(found_read);
}

#[test]
fn idempotent_replay_builds_identical_containers() {
    let trace = vec![caller_stop_trace(addr(0, 11), addr(0, 12))];
    let mut b1 = CircuitInputBuilder::new(3, 99, Word::zero(), false);
    let mut b2 = CircuitInputBuilder::new(3, 99, Word::zero(), false);
    b1.handle_block(&trace).unwrap();
    b2.handle_block(&trace).unwrap();
    assert_eq!(b1.block.container.counter, b2.block.container.counter);
    assert_eq!(b1.block.container.stack, b2.block.container.stack);
    assert_eq!(b1.block.container.call_context, b2.block.container.call_context);
    assert_eq!(b1.block.txs()[0].steps(), b2.block.txs()[0].steps());
}

#[test]
fn inconsistent_program_counter_is_rejected() {
    let from = addr(0, 1);
    let steps = vec![
        TraceStep { pc: 0, op: OpcodeId::CALLER, gas: 100, depth: 1, stack: vec![] },
        TraceStep { pc: 5, op: OpcodeId::STOP, gas: 98, depth: 1, stack: vec![from.to_word()] },
    ];
    let t = TxTrace { from, to: addr(0, 2), value: Word::zero(), nonce: 0, gas: 100, steps };
    let mut b = CircuitInputBuilder::new(1, 0, Word::zero(), false);
    assert_eq!(b.handle_block(&vec![t]), Err(Error::InvalidTraceStep));
}

#[test]
fn depth_mismatch_is_rejected() {
    let from = addr(0, 1);
    let steps = vec![TraceStep { pc: 0, op: OpcodeId::CALLER, gas: 100, depth: 2, stack: vec![] }];
    let t = TxTrace { from, to: addr(0, 2), value: Word::zero(), nonce: 0, gas: 100, steps };
    let mut b = CircuitInputBuilder::new(1, 0, Word::zero(), false);
    assert_eq!(b.handle_block(&vec![t]), Err(Error::InvalidTraceStep));
}

#[test]
fn observed_stack_mismatch_is_rejected_in_check_mode() {
    let from = addr(0, 1);
    let bad = addr(0, 999);
    let steps = vec![
        TraceStep { pc: 0, op: OpcodeId::CALLER, gas: 100, depth: 1, stack: vec![] },
        TraceStep { pc: 1, op: OpcodeId::STOP, gas: 98, depth: 1, stack: vec![bad.to_word()] },
    ];
    let t = TxTrace { from, to: addr(0, 2), value: Word::zero(), nonce: 0, gas: 100, steps };
    let mut checked = CircuitInputBuilder::new(1, 0, Word::zero(), true);
    assert_eq!(checked.handle_block(&vec![t.clone()]), Err(Error::InvalidTraceStep));
    // with the cross-check disabled the same trace replays fine
    let mut unchecked = CircuitInputBuilder::new(1, 0, Word::zero(), false);
    assert_eq!(unchecked.handle_block(&vec![t]), Ok(()));
}

#[test]
fn stack_overflow_completes_call_as_failure() {
    // 1025 consecutive CALLER steps: the 1025th push exceeds the stack
    let from = addr(0, 1);
    let mut steps = Vec::new();
    for i in 0..1025u64 {
        steps.push(TraceStep { pc: i, op: OpcodeId::CALLER, gas: 100, depth: 1, stack: vec![] });
    }
    let t = TxTrace { from, to: addr(0, 2), value: Word::zero(), nonce: 0, gas: 100, steps };
    let mut b = CircuitInputBuilder::new(1, 0, Word::zero(), false);
    b.handle_block(&vec![t]).unwrap();
    let tx = &b.block.txs()[0];
    assert_eq!(tx.calls()[0].status, CallStatus::Completed(false));
    let last = tx.steps().last().unwrap();
    assert_eq!(last.error, Some(ExecError::StackOverflow));
    // exactly 1024 stack writes made it into the container
    assert_eq!(b.block.container.stack.len(), 1024);
}

#[test]
fn no_active_call_outside_any_frame() {
    let b = CircuitInputBuilder::new(1, 0, Word::zero(), false);
    assert!(matches!(b.call(), Err(Error::NoActiveCall)));
}

#[test]
fn nested_call_depth_and_windows() {
    let from = addr(0, 1);
    let to = addr(0, 2);
    let inner = addr(0, 3);
    let mut b = CircuitInputBuilder::new(1, 0, Word::zero(), false);
    b.begin_tx(from, to, Word::zero(), 0, 1000).unwrap();
    let mut call_step = ExecStep {
        exec_state: ExecState::Op(OpcodeId::CALLER),
        pc: 0,
        gas: 1000,
        depth: 1,
        call_id: 1,
        error: None,
        bus_mapping_instance: vec![],
    };
    b.begin_call(&mut call_step, inner, CallKind::Call, false).unwrap();
    let calls = b.tx.calls();
    assert_eq!(calls[1].depth, calls[0].depth + 1);
    assert_eq!(calls[1].parent, Some(0));
    assert_eq!(calls[1].caller_address, to);
    assert!(calls[0].rwc_start < calls[1].rwc_start);
}
