use lovem::assembler::assemble;
use lovem::op;
use lovem::vm::{RuntimeError, VM};
use lovem::Pgm;

fn raw(text: Vec<u8>, vars: u8) -> Pgm {
    Pgm {
        name: String::from("raw"),
        text,
        vars,
        exports: Vec::new(),
    }
}

#[test]
fn vm_new_is_clean() {
    let vm = VM::new(100);
    assert_eq!(vm.stack.len(), 0);
    assert_eq!(vm.pc, 0);
    assert_eq!(vm.fb, 0);
    assert_eq!(vm.op_cnt, 0);
    assert_eq!(vm.watermark, 0);
    assert_eq!(vm.instruction_limit, 0);
    assert_eq!(vm.stack_size, 100);
    assert!(vm.rstack.is_empty());
    assert!(vm.output.is_empty());
}

#[test]
fn run_small_program() {
    // assembled and executed: 5 + 3 leaves a single cell holding 8
    let pgm = assemble("t", "push_u8 5\npush_u8 3\nadd\nfin").unwrap();
    let mut vm = VM::new(100);
    assert_eq!(vm.run(&pgm), Ok(()));
    assert_eq!(vm.stack, vec![8]);
}

#[test]
fn run_stack_machine_arithmetic() {
    // 5 * (7 - 11) + (13 + 17) = 10
    let pgm = raw(
        vec![
            op::PUSH_U8,
            5,
            op::PUSH_U8,
            7,
            op::PUSH_U8,
            11,
            op::SUB,
            op::MUL,
            op::PUSH_U8,
            13,
            op::PUSH_U8,
            17,
            op::ADD,
            op::ADD,
            op::POP,
            op::FIN,
        ],
        0,
    );
    let mut vm = VM::new(100);
    assert_eq!(vm.run(&pgm), Ok(()));
    assert!(vm.stack.is_empty());
    assert_eq!(vm.op_cnt, 11);
    assert_eq!(vm.watermark, 3);
}

#[test]
fn div_by_zero_fails() {
    let pgm = raw(vec![op::PUSH_U8, 4, op::PUSH_U8, 0, op::DIV, op::FIN], 0);
    let mut vm = VM::new(100);
    assert_eq!(vm.run(&pgm), Err(RuntimeError::DivisionByZero));
}

#[test]
fn mod_by_zero_fails() {
    let pgm = raw(vec![op::PUSH_U8, 4, op::PUSH_U8, 0, op::MOD, op::FIN], 0);
    let mut vm = VM::new(100);
    assert_eq!(vm.run(&pgm), Err(RuntimeError::DivisionByZero));
    // both operands were consumed before the failure
    assert!(vm.stack.is_empty());
}

#[test]
fn division_truncates_toward_zero() {
    // (0 - 7) / 2 == -3
    let pgm = raw(
        vec![
            op::PUSH_U8,
            0,
            op::PUSH_U8,
            7,
            op::SUB,
            op::PUSH_U8,
            2,
            op::DIV,
            op::FIN,
        ],
        0,
    );
    let mut vm = VM::new(100);
    assert_eq!(vm.run(&pgm), Ok(()));
    assert_eq!(vm.stack, vec![-3]);
}

#[test]
fn modulo_keeps_dividend_sign() {
    // (0 - 7) % 2 == -1
    let pgm = raw(
        vec![
            op::PUSH_U8,
            0,
            op::PUSH_U8,
            7,
            op::SUB,
            op::PUSH_U8,
            2,
            op::MOD,
            op::FIN,
        ],
        0,
    );
    let mut vm = VM::new(100);
    assert_eq!(vm.run(&pgm), Ok(()));
    assert_eq!(vm.stack, vec![-1]);
}

#[test]
fn multiplication_wraps() {
    // 255 ** 9 overflows a 64-bit cell and wraps
    let mut text = Vec::new();
    for _ in 0..9 {
        text.push(op::PUSH_U8);
        text.push(255);
    }
    for _ in 0..8 {
        text.push(op::MUL);
    }
    text.push(op::FIN);
    let pgm = raw(text, 0);
    let mut vm = VM::new(100);
    assert_eq!(vm.run(&pgm), Ok(()));
    let mut expected: i64 = 1;
    for _ in 0..9 {
        expected = expected.wrapping_mul(255);
    }
    assert_eq!(vm.stack, vec![expected]);
}

#[test]
fn pop_on_empty_underflows() {
    let pgm = raw(vec![op::ADD, op::FIN], 0);
    let mut vm = VM::new(100);
    assert_eq!(vm.run(&pgm), Err(RuntimeError::StackUnderflow));
    assert!(vm.stack.is_empty());
}

#[test]
fn pop_below_frame_base_underflows() {
    // one global below the frame base: the stack is not empty, but
    // popping into the global region is refused and changes nothing
    let pgm = assemble("t", "var g\npop\nfin").unwrap();
    let mut vm = VM::new(100);
    assert_eq!(vm.run(&pgm), Err(RuntimeError::StackUnderflow));
    assert_eq!(vm.stack, vec![0]);
    assert_eq!(vm.fb, 1);
}

#[test]
fn push_at_capacity_overflows() {
    let pgm = raw(
        vec![op::PUSH_U8, 1, op::PUSH_U8, 2, op::PUSH_U8, 3, op::FIN],
        0,
    );
    let mut vm = VM::new(2);
    assert_eq!(vm.run(&pgm), Err(RuntimeError::StackOverflow));
    // the failing push left the stack unchanged
    assert_eq!(vm.stack, vec![1, 2]);
}

#[test]
fn globals_overflow_stack() {
    let pgm = raw(vec![op::FIN], 5);
    let mut vm = VM::new(3);
    assert_eq!(vm.run(&pgm), Err(RuntimeError::StackOverflow));
}

#[test]
fn load_store_globals() {
    let pgm = assemble("t", "var a, b\npush_u8 3\nstore b\nload b\nout\nfin").unwrap();
    let mut vm = VM::new(100);
    assert_eq!(vm.run(&pgm), Ok(()));
    assert_eq!(vm.stack, vec![0, 3]);
    assert_eq!(vm.output, vec![3]);
}

#[test]
fn invalid_global_index_fails() {
    let pgm = raw(vec![op::LOAD, 5, op::FIN], 0);
    let mut vm = VM::new(100);
    assert_eq!(vm.run(&pgm), Err(RuntimeError::InvalidVariable));
}

#[test]
fn unknown_opcode_fails() {
    let pgm = raw(vec![0x77], 0);
    let mut vm = VM::new(100);
    assert_eq!(vm.run(&pgm), Err(RuntimeError::UnknownOpcode(0x77)));
}

#[test]
fn missing_terminator_fails() {
    let pgm = raw(vec![op::NOP], 0);
    let mut vm = VM::new(100);
    assert_eq!(vm.run(&pgm), Err(RuntimeError::EndOfProgram));
}

#[test]
fn jump_outside_program_fails() {
    let pgm = raw(vec![op::GOTO, 0x00, 0x10, op::FIN], 0);
    let mut vm = VM::new(100);
    assert_eq!(vm.run(&pgm), Err(RuntimeError::InvalidJump));
}

#[test]
fn endless_loop_overflows_stack() {
    // push and jump back, forever: the value stack fills up
    let pgm = raw(vec![op::PUSH_U8, 123, op::GOTO, 0xff, 0xfb, op::FIN], 0);
    let mut vm = VM::new(4);
    assert_eq!(vm.run(&pgm), Err(RuntimeError::StackOverflow));
    assert_eq!(vm.stack, vec![123, 123, 123, 123]);
}

#[test]
fn instruction_limit_stops_execution() {
    let pgm = raw(vec![op::PUSH_U8, 123, op::GOTO, 0xff, 0xfb, op::FIN], 0);
    let mut vm = VM::new(100);
    vm.instruction_limit = 5;
    assert_eq!(vm.run(&pgm), Err(RuntimeError::InstructionLimitExceeded));
    assert_eq!(vm.op_cnt, 5);
}

#[test]
fn call_and_ret() {
    let pgm = assemble("t", "call f\nfin\nf():\npush_u8 9\nret").unwrap();
    let mut vm = VM::new(100);
    assert_eq!(vm.run(&pgm), Ok(()));
    assert_eq!(vm.stack, vec![9]);
    assert!(vm.rstack.is_empty());
}

#[test]
fn ret_without_call_underflows() {
    let pgm = raw(vec![op::RET, op::FIN], 0);
    let mut vm = VM::new(100);
    assert_eq!(vm.run(&pgm), Err(RuntimeError::StackUnderflow));
}

#[test]
fn branches_take_and_fall_through() {
    // a loop counting down from 3, recording each value
    let src = "push_u8 3\nloop:\ndup\nout\npush_u8 1\nsub\ndup\nifgt loop\nfin";
    let pgm = assemble("t", src).unwrap();
    let mut vm = VM::new(100);
    assert_eq!(vm.run(&pgm), Ok(()));
    assert_eq!(vm.output, vec![3, 2, 1]);
    assert_eq!(vm.stack, vec![0]);
}

#[test]
fn conditional_branch_conditions() {
    // ifeq taken on zero, not taken on one
    let src = "push_u8 0\nifeq yes\npush_u8 0\nout\nfin\nyes:\npush_u8 1\nout\nfin";
    let pgm = assemble("t", src).unwrap();
    let mut vm = VM::new(100);
    assert_eq!(vm.run(&pgm), Ok(()));
    assert_eq!(vm.output, vec![1]);

    let src = "push_u8 1\nifeq yes\npush_u8 0\nout\nfin\nyes:\npush_u8 1\nout\nfin";
    let pgm = assemble("t", src).unwrap();
    assert_eq!(vm.run(&pgm), Ok(()));
    assert_eq!(vm.output, vec![0]);

    // iflt taken on a negative value
    let src = "push_u8 0\npush_u8 1\nsub\niflt yes\npush_u8 0\nout\nfin\nyes:\npush_u8 1\nout\nfin";
    let pgm = assemble("t", src).unwrap();
    assert_eq!(vm.run(&pgm), Ok(()));
    assert_eq!(vm.output, vec![1]);

    // ifle taken on zero, ifge taken on zero, ifne not taken on zero
    let src = "push_u8 0\nifle yes\npush_u8 0\nout\nfin\nyes:\npush_u8 1\nout\nfin";
    let pgm = assemble("t", src).unwrap();
    assert_eq!(vm.run(&pgm), Ok(()));
    assert_eq!(vm.output, vec![1]);
    let src = "push_u8 0\nifge yes\npush_u8 0\nout\nfin\nyes:\npush_u8 1\nout\nfin";
    let pgm = assemble("t", src).unwrap();
    assert_eq!(vm.run(&pgm), Ok(()));
    assert_eq!(vm.output, vec![1]);
    let src = "push_u8 0\nifne yes\npush_u8 0\nout\nfin\nyes:\npush_u8 1\nout\nfin";
    let pgm = assemble("t", src).unwrap();
    assert_eq!(vm.run(&pgm), Ok(()));
    assert_eq!(vm.output, vec![0]);
}

#[test]
fn dup_duplicates() {
    let pgm = raw(vec![op::PUSH_U8, 1, op::DUP, op::ADD, op::FIN], 0);
    let mut vm = VM::new(100);
    assert_eq!(vm.run(&pgm), Ok(()));
    assert_eq!(vm.stack, vec![2]);
}

#[test]
fn reruns_are_identical() {
    // one immutable program, two independently constructed machines:
    // identical outcomes, and a rerun on the same machine leaks nothing
    let src = "push_u8 3\nloop:\ndup\nout\npush_u8 1\nsub\ndup\nifgt loop\nfin";
    let pgm = assemble("t", src).unwrap();
    let mut vm1 = VM::new(64);
    let mut vm2 = VM::new(64);
    let r1 = vm1.run(&pgm);
    let r2 = vm2.run(&pgm);
    assert_eq!(r1, r2);
    assert_eq!(vm1.stack, vm2.stack);
    assert_eq!(vm1.output, vm2.output);
    assert_eq!(vm1.op_cnt, vm2.op_cnt);
    assert_eq!(vm1.pc, vm2.pc);
    assert_eq!(vm1.watermark, vm2.watermark);
    let r3 = vm1.run(&pgm);
    assert_eq!(r3, r2);
    assert_eq!(vm1.stack, vm2.stack);
    assert_eq!(vm1.output, vm2.output);
}

#[test]
fn every_byte_is_handled_or_unknown() {
    // every opcode outside the dispatch table is rejected as
    // UnknownOpcode; every opcode inside it does something else
    let known = [
        op::NOP,
        op::POP,
        op::PUSH_U8,
        op::DUP,
        op::STORE,
        op::LOAD,
        op::OUT,
        op::ADD,
        op::SUB,
        op::MUL,
        op::DIV,
        op::MOD,
        op::GOTO,
        op::IFEQ,
        op::IFNE,
        op::IFLT,
        op::IFLE,
        op::IFGT,
        op::IFGE,
        op::CALL,
        op::RET,
        op::FIN,
    ];
    for b in 0..=255u8 {
        let pgm = raw(vec![b], 0);
        let mut vm = VM::new(8);
        let r = vm.run(&pgm);
        if known.contains(&b) {
            assert_ne!(r, Err(RuntimeError::UnknownOpcode(b)), "opcode {:#04x}", b);
        } else {
            assert_eq!(r, Err(RuntimeError::UnknownOpcode(b)), "opcode {:#04x}", b);
        }
    }
}

#[test]
fn truncated_operand_fails() {
    let pgm = raw(vec![op::GOTO, 0x00], 0);
    let mut vm = VM::new(100);
    assert_eq!(vm.run(&pgm), Err(RuntimeError::EndOfProgram));
    let pgm = raw(vec![op::PUSH_U8], 0);
    assert_eq!(vm.run(&pgm), Err(RuntimeError::EndOfProgram));
}
