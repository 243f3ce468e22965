//! The virtual machine: a fetch-decode-execute loop over the bytecode
//! of a [`crate::pgm::Pgm`].
//!
//! The semantics of execution is given by the spec functions
//! [`step`] and [`run_steps`]: a deterministic small-step interpreter
//! over the abstract machine state [`VmState`]. The executable machine
//! is proved to implement exactly that interpreter.

use vstd::prelude::*;
use crate::op;
use crate::pgm::Pgm;

verus! {

/// An error that happens during execution of a program inside the VM.
#[derive(Debug, Clone, Copy, PartialEq, Eq, Structural)]
pub enum RuntimeError {
    EndOfProgram,
    UnknownOpcode(u8),
    StackUnderflow,
    StackOverflow,
    DivisionByZero,
    InvalidJump,
    InstructionLimitExceeded,
    InvalidVariable,
}

/// The abstract state of the machine: value stack, return-address
/// stack, program counter, frame base, instruction counter, peak stack
/// depth, and the log of values written by the `out` instruction.
pub struct VmState {
    pub stack: Seq<i64>,
    pub rstack: Seq<int>,
    pub pc: int,
    pub fb: int,
    pub op_cnt: int,
    pub watermark: int,
    pub output: Seq<i64>,
}

/// The outcome of one abstract step (or of a whole run): still
/// running, terminated normally, or failed with a runtime error.
pub enum StepRes {
    Next(VmState),
    Done(VmState),
    Fail(VmState, RuntimeError),
}

/// Truncating 64-bit division as the machine performs it: division by
/// the wrapped minimum stays at the minimum.
pub open spec fn vm_div(a: i64, b: i64) -> i64 {
    match a.checked_div(b) {
        Some(v) => v,
        None => i64::MIN,
    }
}

/// Truncating 64-bit remainder as the machine performs it.
pub open spec fn vm_rem(a: i64, b: i64) -> i64 {
    match a.checked_rem(b) {
        Some(v) => v,
        None => 0,
    }
}

/// Wrapping 64-bit addition.
pub open spec fn vm_add(a: i64, b: i64) -> i64 {
    vstd::wrapping::i64_specs::wrapping_add(a, b)
}

/// Wrapping 64-bit subtraction.
pub open spec fn vm_sub(a: i64, b: i64) -> i64 {
    vstd::wrapping::i64_specs::wrapping_sub(a, b)
}

/// Wrapping 64-bit multiplication.
pub open spec fn vm_mul(a: i64, b: i64) -> i64 {
    vstd::wrapping::i64_specs::wrapping_mul(a, b)
}

/// Whether a value may be popped: the stack must be strictly above the
/// frame base, so the global-variable region is never consumed.
pub open spec fn can_pop(s: VmState) -> bool {
    s.stack.len() > s.fb
}

/// The state after popping one value.
pub open spec fn popped(s: VmState) -> VmState {
    VmState { stack: s.stack.drop_last(), ..s }
}

/// The state after pushing `v` (the capacity check is the caller's).
pub open spec fn pushed(s: VmState, v: i64) -> VmState {
    VmState {
        stack: s.stack.push(v),
        watermark: if s.watermark >= s.stack.len() + 1 {
            s.watermark
        } else {
            s.stack.len() as int + 1
        },
        ..s
    }
}

/// Pushing, guarded by the stack capacity `cap`.
pub open spec fn push_step(s: VmState, cap: int, v: i64) -> StepRes {
    if s.stack.len() < cap {
        StepRes::Next(pushed(s, v))
    } else {
        StepRes::Fail(s, RuntimeError::StackOverflow)
    }
}

/// A relative jump from `s.pc` by `d`: the target must lie inside the
/// program.
pub open spec fn jump_step(prog: Seq<u8>, s: VmState, d: int) -> StepRes {
    if 0 <= s.pc + d < prog.len() {
        StepRes::Next(VmState { pc: s.pc + d, ..s })
    } else {
        StepRes::Fail(s, RuntimeError::InvalidJump)
    }
}

/// A conditional branch: fetch a 16-bit displacement, pop the tested
/// value, and jump if `cond` holds of it.
pub open spec fn branch_step(prog: Seq<u8>, s: VmState, cond: spec_fn(i64) -> bool) -> StepRes {
    if s.pc >= prog.len() {
        StepRes::Fail(s, RuntimeError::EndOfProgram)
    } else if s.pc + 1 >= prog.len() {
        StepRes::Fail(VmState { pc: s.pc + 1, ..s }, RuntimeError::EndOfProgram)
    } else {
        let d = op::decode_i16(prog[s.pc], prog[s.pc + 1]);
        let s1 = VmState { pc: s.pc + 2, ..s };
        if !can_pop(s1) {
            StepRes::Fail(s1, RuntimeError::StackUnderflow)
        } else {
            let v = s1.stack.last();
            let s2 = popped(s1);
            if cond(v) {
                jump_step(prog, s2, d)
            } else {
                StepRes::Next(s2)
            }
        }
    }
}

/// A binary arithmetic instruction: pop `b`, pop `a`, push `f(a, b)`.
pub open spec fn binop_step(s: VmState, cap: int, f: spec_fn(i64, i64) -> i64) -> StepRes {
    if !can_pop(s) {
        StepRes::Fail(s, RuntimeError::StackUnderflow)
    } else {
        let b = s.stack.last();
        let s1 = popped(s);
        if !can_pop(s1) {
            StepRes::Fail(s1, RuntimeError::StackUnderflow)
        } else {
            let a = s1.stack.last();
            let s2 = popped(s1);
            push_step(s2, cap, f(a, b))
        }
    }
}

/// The effect of one decoded instruction on the state `s`, in which
/// the opcode at `s.pc - 1` has already been fetched and counted.
pub open spec fn step_op(prog: Seq<u8>, vars: int, cap: int, opcode: u8, s: VmState) -> StepRes {
    if opcode == op::NOP {
        StepRes::Next(s)
    } else if opcode == op::POP {
        if can_pop(s) {
            StepRes::Next(popped(s))
        } else {
            StepRes::Fail(s, RuntimeError::StackUnderflow)
        }
    } else if opcode == op::DUP {
        if !can_pop(s) {
            StepRes::Fail(s, RuntimeError::StackUnderflow)
        } else {
            let v = s.stack.last();
            match push_step(popped(s), cap, v) {
                StepRes::Next(s1) => push_step(s1, cap, v),
                r => r,
            }
        }
    } else if opcode == op::OUT {
        if can_pop(s) {
            StepRes::Next(VmState { output: s.output.push(s.stack.last()), ..popped(s) })
        } else {
            StepRes::Fail(s, RuntimeError::StackUnderflow)
        }
    } else if opcode == op::PUSH_U8 {
        if s.pc >= prog.len() {
            StepRes::Fail(s, RuntimeError::EndOfProgram)
        } else {
            push_step(VmState { pc: s.pc + 1, ..s }, cap, prog[s.pc] as i64)
        }
    } else if opcode == op::ADD {
        binop_step(s, cap, |a: i64, b: i64| vm_add(a, b))
    } else if opcode == op::SUB {
        binop_step(s, cap, |a: i64, b: i64| vm_sub(a, b))
    } else if opcode == op::MUL {
        binop_step(s, cap, |a: i64, b: i64| vm_mul(a, b))
    } else if opcode == op::DIV || opcode == op::MOD {
        if !can_pop(s) {
            StepRes::Fail(s, RuntimeError::StackUnderflow)
        } else {
            let b = s.stack.last();
            let s1 = popped(s);
            if !can_pop(s1) {
                StepRes::Fail(s1, RuntimeError::StackUnderflow)
            } else {
                let a = s1.stack.last();
                let s2 = popped(s1);
                if b == 0 {
                    StepRes::Fail(s2, RuntimeError::DivisionByZero)
                } else if opcode == op::DIV {
                    push_step(s2, cap, vm_div(a, b))
                } else {
                    push_step(s2, cap, vm_rem(a, b))
                }
            }
        }
    } else if opcode == op::GOTO {
        if s.pc >= prog.len() {
            StepRes::Fail(s, RuntimeError::EndOfProgram)
        } else if s.pc + 1 >= prog.len() {
            StepRes::Fail(VmState { pc: s.pc + 1, ..s }, RuntimeError::EndOfProgram)
        } else {
            let d = op::decode_i16(prog[s.pc], prog[s.pc + 1]);
            jump_step(prog, VmState { pc: s.pc + 2, ..s }, d)
        }
    } else if opcode == op::IFEQ {
        branch_step(prog, s, |v: i64| v == 0)
    } else if opcode == op::IFNE {
        branch_step(prog, s, |v: i64| v != 0)
    } else if opcode == op::IFLT {
        branch_step(prog, s, |v: i64| v < 0)
    } else if opcode == op::IFLE {
        branch_step(prog, s, |v: i64| v <= 0)
    } else if opcode == op::IFGT {
        branch_step(prog, s, |v: i64| v > 0)
    } else if opcode == op::IFGE {
        branch_step(prog, s, |v: i64| v >= 0)
    } else if opcode == op::STORE {
        if s.pc >= prog.len() {
            StepRes::Fail(s, RuntimeError::EndOfProgram)
        } else {
            let idx = prog[s.pc] as int;
            let s1 = VmState { pc: s.pc + 1, ..s };
            if idx >= vars {
                StepRes::Fail(s1, RuntimeError::InvalidVariable)
            } else if !can_pop(s1) {
                StepRes::Fail(s1, RuntimeError::StackUnderflow)
            } else {
                let v = s1.stack.last();
                let s2 = popped(s1);
                StepRes::Next(VmState { stack: s2.stack.update(idx, v), ..s2 })
            }
        }
    } else if opcode == op::LOAD {
        if s.pc >= prog.len() {
            StepRes::Fail(s, RuntimeError::EndOfProgram)
        } else {
            let idx = prog[s.pc] as int;
            let s1 = VmState { pc: s.pc + 1, ..s };
            if idx >= vars {
                StepRes::Fail(s1, RuntimeError::InvalidVariable)
            } else {
                push_step(s1, cap, s1.stack[idx])
            }
        }
    } else if opcode == op::CALL {
        if s.pc >= prog.len() {
            StepRes::Fail(s, RuntimeError::EndOfProgram)
        } else if s.pc + 1 >= prog.len() {
            StepRes::Fail(VmState { pc: s.pc + 1, ..s }, RuntimeError::EndOfProgram)
        } else {
            let d = op::decode_i16(prog[s.pc], prog[s.pc + 1]);
            let s1 = VmState { pc: s.pc + 2, ..s };
            if 0 <= s1.pc + d < prog.len() {
                StepRes::Next(
                    VmState { pc: s1.pc + d, rstack: s1.rstack.push(s1.pc), ..s1 },
                )
            } else {
                StepRes::Fail(s1, RuntimeError::InvalidJump)
            }
        }
    } else if opcode == op::RET {
        if s.rstack.len() == 0 {
            StepRes::Fail(s, RuntimeError::StackUnderflow)
        } else {
            StepRes::Next(
                VmState { pc: s.rstack.last(), rstack: s.rstack.drop_last(), ..s },
            )
        }
    } else {
        StepRes::Fail(s, RuntimeError::UnknownOpcode(opcode))
    }
}

/// One full iteration of the execution loop: fetch the opcode, enforce
/// the instruction ceiling, count the instruction, stop on the
/// terminator, otherwise dispatch.
pub open spec fn step(prog: Seq<u8>, vars: int, cap: int, ceiling: int, s: VmState) -> StepRes {
    if !(0 <= s.pc < prog.len()) {
        StepRes::Fail(s, RuntimeError::EndOfProgram)
    } else {
        let opcode = prog[s.pc];
        let s1 = VmState { pc: s.pc + 1, ..s };
        if s.op_cnt >= ceiling {
            StepRes::Fail(s1, RuntimeError::InstructionLimitExceeded)
        } else {
            let s2 = VmState { op_cnt: s1.op_cnt + 1, ..s1 };
            if opcode == op::FIN {
                StepRes::Done(s2)
            } else {
                step_op(prog, vars, cap, opcode, s2)
            }
        }
    }
}

/// Iterated stepping: runs until termination, failure, or `fuel`
/// iterations have passed (in which case the machine is still running).
pub open spec fn run_steps(
    prog: Seq<u8>,
    vars: int,
    cap: int,
    ceiling: int,
    s: VmState,
    fuel: nat,
) -> StepRes
    decreases fuel,
{
    if fuel == 0 {
        StepRes::Next(s)
    } else {
        match step(prog, vars, cap, ceiling, s) {
            StepRes::Next(s2) => run_steps(prog, vars, cap, ceiling, s2, (fuel - 1) as nat),
            r => r,
        }
    }
}

/// The instruction ceiling of a run: an `instruction_limit` of 0 means
/// no caller-imposed bound, leaving only the counter's own range.
pub open spec fn ceiling_of(limit: int) -> int {
    if limit == 0 {
        usize::MAX as int
    } else {
        limit
    }
}

/// The clean start state of a run: `vars` zeroed global slots below
/// the frame base, everything else empty.
pub open spec fn init_state(vars: int) -> VmState {
    VmState {
        stack: Seq::new(vars as nat, |i: int| 0i64),
        rstack: Seq::empty(),
        pc: 0,
        fb: vars,
        op_cnt: 0,
        watermark: vars,
        output: Seq::empty(),
    }
}

/// The state left behind when the global slots alone overflow the
/// stack: `cap` zeros were pushed, then the next push failed.
pub open spec fn globals_overflow_state(cap: int) -> VmState {
    VmState {
        stack: Seq::new(cap as nat, |i: int| 0i64),
        rstack: Seq::empty(),
        pc: 0,
        fb: 0,
        op_cnt: 0,
        watermark: cap,
        output: Seq::empty(),
    }
}

/// The complete outcome of `run` as a function of the program text,
/// its global count, the stack capacity and the instruction limit.
/// Execution is deterministic: the outcome depends on nothing else.
pub open spec fn run_outcome(prog: Seq<u8>, vars: int, cap: int, limit: int) -> StepRes {
    if vars > cap {
        StepRes::Fail(globals_overflow_state(cap), RuntimeError::StackOverflow)
    } else {
        run_steps(prog, vars, cap, ceiling_of(limit), init_state(vars), (ceiling_of(limit)
            + 1) as nat)
    }
}

/// Well-formedness of a machine state with respect to a program, its
/// global count and the stack capacity.
pub open spec fn vm_inv(s: VmState, prog: Seq<u8>, vars: int, cap: int) -> bool {
    &&& s.stack.len() <= cap
    &&& 0 <= s.fb
    &&& vars == s.fb
    &&& s.fb <= s.stack.len()
    &&& 0 <= s.pc <= prog.len()
    &&& 0 <= s.op_cnt
    &&& 0 <= s.watermark <= cap
    &&& forall|i: int| 0 <= i < s.rstack.len() ==> 0 <= #[trigger] s.rstack[i] <= prog.len()
}

/// The virtual machine itself.
///
/// Holds the state during execution of programs.
#[derive(Debug)]
pub struct VM {
    /// Value stack holding values during execution.
    pub stack: Vec<i64>,
    /// Program counter (PC).
    ///
    /// Points to instruction in bytecode that is to be executed next.
    pub pc: usize,
    /// Frame base register.
    ///
    /// Pointer to the bottom of the stack for the current frame; the
    /// global-variable slots live below it.
    pub fb: usize,
    /// Operation counter.
    ///
    /// Lets us know how "long" the execution took.
    pub op_cnt: usize,
    /// Maximal length the stack ever had during execution.
    pub watermark: usize,
    /// Maximal number of instructions that are allowed for execution
    /// (0 for unlimited).
    pub instruction_limit: usize,
    /// Fixed capacity of the value stack, set at construction.
    pub stack_size: usize,
    /// Return-address stack, independent of the value stack.
    pub rstack: Vec<usize>,
    /// Values recorded by the `out` instruction, in execution order.
    pub output: Vec<i64>,
}

impl View for VM {
    type V = VmState;

    open spec fn view(&self) -> VmState {
        VmState {
            stack: self.stack@,
            rstack: self.rstack@.map_values(|x: usize| x as int),
            pc: self.pc as int,
            fb: self.fb as int,
            op_cnt: self.op_cnt as int,
            watermark: self.watermark as int,
            output: self.output@,
        }
    }
}

impl VM {
    /// Creates a machine with an empty state and the given value-stack
    /// capacity.
    pub fn new(stack_size: usize) -> (vm: VM)
        ensures
            vm@ == init_state(0),
            vm.stack_size == stack_size,
            vm.instruction_limit == 0,
    {
        let vm = VM {
            stack: Vec::new(),
            pc: 0,
            fb: 0,
            op_cnt: 0,
            watermark: 0,
            instruction_limit: 0,
            stack_size,
            rstack: Vec::new(),
            output: Vec::new(),
        };
        proof {
            assert(vm@.stack =~= init_state(0).stack);
            assert(vm@.rstack =~= init_state(0).rstack);
            assert(vm@.output =~= init_state(0).output);
        }
        vm
    }

    /// Tries and pops a value from value stack, respecting frame base.
    fn pop(&mut self) -> (r: Result<i64, RuntimeError>)
        ensures
            match r {
                Ok(v) => can_pop(old(self)@) && v == old(self)@.stack.last() && final(self)@
                    == popped(old(self)@),
                Err(e) => e == RuntimeError::StackUnderflow && !can_pop(old(self)@)
                    && final(self)@ == old(self)@,
            },
            final(self).stack_size == old(self).stack_size,
            final(self).instruction_limit == old(self).instruction_limit,
    {
        if self.stack.len() > self.fb {
            let v = self.stack.pop().unwrap();
            Ok(v)
        } else {
            Err(RuntimeError::StackUnderflow)
        }
    }

    /// Tries and pushes a value to value stack, respecting stack size.
    fn push(&mut self, v: i64) -> (r: Result<(), RuntimeError>)
        ensures
            push_step(old(self)@, old(self).stack_size as int, v) == match r {
                Ok(()) => StepRes::Next(final(self)@),
                Err(e) => StepRes::Fail(final(self)@, e),
            },
            r is Err ==> final(self)@ == old(self)@,
            final(self).stack_size == old(self).stack_size,
            final(self).instruction_limit == old(self).instruction_limit,
    {
        if self.stack.len() < self.stack_size {
            self.stack.push(v);
            if self.watermark < self.stack.len() {
                self.watermark = self.stack.len();
            }
            Ok(())
        } else {
            Err(RuntimeError::StackOverflow)
        }
    }

    /// Reads the next byte from the bytecode, increases the program
    /// counter, and returns the byte.
    fn fetch_u8(&mut self, pgm: &Pgm) -> (r: Result<u8, RuntimeError>)
        requires
            old(self)@.pc <= pgm.text@.len(),
        ensures
            match r {
                Ok(b) => old(self)@.pc < pgm.text@.len() && b == pgm.text@[old(self)@.pc]
                    && final(self)@ == (VmState { pc: old(self)@.pc + 1, ..old(self)@ }),
                Err(e) => e == RuntimeError::EndOfProgram && old(self)@.pc >= pgm.text@.len()
                    && final(self)@ == old(self)@,
            },
            final(self).stack_size == old(self).stack_size,
            final(self).instruction_limit == old(self).instruction_limit,
    {
        if self.pc < pgm.text.len() {
            let b = pgm.text[self.pc];
            self.pc = self.pc + 1;
            Ok(b)
        } else {
            Err(RuntimeError::EndOfProgram)
        }
    }

    /// Reads the next byte as a signed value.
    fn fetch_i8(&mut self, pgm: &Pgm) -> (r: Result<i8, RuntimeError>)
        requires
            old(self)@.pc <= pgm.text@.len(),
        ensures
            match r {
                Ok(b) => old(self)@.pc < pgm.text@.len() && b as int == (
                if pgm.text@[old(self)@.pc] < 128 {
                    pgm.text@[old(self)@.pc] as int
                } else {
                    pgm.text@[old(self)@.pc] - 256
                }) && final(self)@ == (VmState { pc: old(self)@.pc + 1, ..old(self)@ }),
                Err(e) => e == RuntimeError::EndOfProgram && old(self)@.pc >= pgm.text@.len()
                    && final(self)@ == old(self)@,
            },
            final(self).stack_size == old(self).stack_size,
            final(self).instruction_limit == old(self).instruction_limit,
    {
        match self.fetch_u8(pgm) {
            Ok(b) => {
                if b < 128 {
                    Ok(b as i8)
                } else {
                    Ok(((b - 128) as i8) + i8::MIN)
                }
            },
            Err(e) => Err(e),
        }
    }

    /// Reads the next two bytes as a big-endian signed 16-bit value.
    fn fetch_i16(&mut self, pgm: &Pgm) -> (r: Result<i16, RuntimeError>)
        requires
            old(self)@.pc <= pgm.text@.len(),
        ensures
            match r {
                Ok(d) => old(self)@.pc + 1 < pgm.text@.len() && d as int == op::decode_i16(
                    pgm.text@[old(self)@.pc],
                    pgm.text@[old(self)@.pc + 1],
                ) && final(self)@ == (VmState { pc: old(self)@.pc + 2, ..old(self)@ }),
                Err(e) => e == RuntimeError::EndOfProgram && (if old(self)@.pc >= pgm.text@.len() {
                    final(self)@ == old(self)@
                } else {
                    old(self)@.pc + 1 >= pgm.text@.len() && final(self)@ == (VmState {
                        pc: old(self)@.pc + 1,
                        ..old(self)@
                    })
                }),
            },
            final(self).stack_size == old(self).stack_size,
            final(self).instruction_limit == old(self).instruction_limit,
    {
        let hi = match self.fetch_i8(pgm) {
            Ok(b) => b,
            Err(e) => {
                return Err(e);
            },
        };
        let lo = match self.fetch_u8(pgm) {
            Ok(b) => b,
            Err(e) => {
                return Err(e);
            },
        };
        let d: i32 = (hi as i32) * 256 + (lo as i32);
        Ok(d as i16)
    }

    /// Executes a checked relative jump; runtime error if the jump
    /// leaves the program.
    fn relative_jump(&mut self, pgm: &Pgm, delta: i16) -> (r: Result<(), RuntimeError>)
        requires
            0 <= old(self)@.pc <= pgm.text@.len(),
        ensures
            jump_step(pgm.text@, old(self)@, delta as int) == match r {
                Ok(()) => StepRes::Next(final(self)@),
                Err(e) => StepRes::Fail(final(self)@, e),
            },
            r is Err ==> final(self)@ == old(self)@,
            final(self).stack_size == old(self).stack_size,
            final(self).instruction_limit == old(self).instruction_limit,
    {
        if delta < 0 {
            let d = (-(delta as i32)) as usize;
            if self.pc >= d {
                self.pc = self.pc - d;
                Ok(())
            } else {
                Err(RuntimeError::InvalidJump)
            }
        } else {
            let d = delta as usize;
            if self.pc < pgm.text.len() && d < pgm.text.len() - self.pc {
                self.pc = self.pc + d;
                Ok(())
            } else {
                Err(RuntimeError::InvalidJump)
            }
        }
    }

    /// Executes an instruction, using the opcode passed.
    ///
    /// This might load more data from the program (opargs) and
    /// manipulate the stack (push, pop).
    fn execute_op(&mut self, pgm: &Pgm, opcode: u8) -> (r: Result<(), RuntimeError>)
        requires
            vm_inv(old(self)@, pgm.text@, pgm.vars as int, old(self).stack_size as int),
        ensures
            step_op(pgm.text@, pgm.vars as int, old(self).stack_size as int, opcode, old(self)@)
                == (match r {
                Ok(()) => StepRes::Next(final(self)@),
                Err(e) => StepRes::Fail(final(self)@, e),
            }),
            final(self).stack_size == old(self).stack_size,
            final(self).instruction_limit == old(self).instruction_limit,
    {
        if opcode == op::NOP {
            // do nothing
            Ok(())
        } else if opcode == op::POP {
            match self.pop() {
                Ok(_) => Ok(()),
                Err(e) => Err(e),
            }
        } else if opcode == op::DUP {
            let v = match self.pop() {
                Ok(v) => v,
                Err(e) => {
                    return Err(e);
                },
            };
            match self.push(v) {
                Ok(()) => (),
                Err(e) => {
                    return Err(e);
                },
            }
            self.push(v)
        } else if opcode == op::OUT {
            let v = match self.pop() {
                Ok(v) => v,
                Err(e) => {
                    return Err(e);
                },
            };
            self.output.push(v);
            Ok(())
        } else if opcode == op::PUSH_U8 {
            let v = match self.fetch_u8(pgm) {
                Ok(v) => v,
                Err(e) => {
                    return Err(e);
                },
            };
            self.push(v as i64)
        } else if opcode == op::ADD {
            let b = match self.pop() {
                Ok(v) => v,
                Err(e) => {
                    return Err(e);
                },
            };
            let a = match self.pop() {
                Ok(v) => v,
                Err(e) => {
                    return Err(e);
                },
            };
            self.push(a.wrapping_add(b))
        } else if opcode == op::SUB {
            let b = match self.pop() {
                Ok(v) => v,
                Err(e) => {
                    return Err(e);
                },
            };
            let a = match self.pop() {
                Ok(v) => v,
                Err(e) => {
                    return Err(e);
                },
            };
            self.push(a.wrapping_sub(b))
        } else if opcode == op::MUL {
            let b = match self.pop() {
                Ok(v) => v,
                Err(e) => {
                    return Err(e);
                },
            };
            let a = match self.pop() {
                Ok(v) => v,
                Err(e) => {
                    return Err(e);
                },
            };
            self.push(a.wrapping_mul(b))
        } else if opcode == op::DIV {
            let b = match self.pop() {
                Ok(v) => v,
                Err(e) => {
                    return Err(e);
                },
            };
            let a = match self.pop() {
                Ok(v) => v,
                Err(e) => {
                    return Err(e);
                },
            };
            if b == 0 {
                Err(RuntimeError::DivisionByZero)
            } else {
                let q = match a.checked_div(b) {
                    Some(v) => v,
                    None => i64::MIN,
                };
                self.push(q)
            }
        } else if opcode == op::MOD {
            let b = match self.pop() {
                Ok(v) => v,
                Err(e) => {
                    return Err(e);
                },
            };
            let a = match self.pop() {
                Ok(v) => v,
                Err(e) => {
                    return Err(e);
                },
            };
            if b == 0 {
                Err(RuntimeError::DivisionByZero)
            } else {
                let q = match a.checked_rem(b) {
                    Some(v) => v,
                    None => 0,
                };
                self.push(q)
            }
        } else if opcode == op::GOTO {
            let d = match self.fetch_i16(pgm) {
                Ok(d) => d,
                Err(e) => {
                    return Err(e);
                },
            };
            self.relative_jump(pgm, d)
        } else if opcode == op::IFEQ {
            let d = match self.fetch_i16(pgm) {
                Ok(d) => d,
                Err(e) => {
                    return Err(e);
                },
            };
            let v = match self.pop() {
                Ok(v) => v,
                Err(e) => {
                    return Err(e);
                },
            };
            if v == 0 {
                self.relative_jump(pgm, d)
            } else {
                Ok(())
            }
        } else if opcode == op::IFNE {
            let d = match self.fetch_i16(pgm) {
                Ok(d) => d,
                Err(e) => {
                    return Err(e);
                },
            };
            let v = match self.pop() {
                Ok(v) => v,
                Err(e) => {
                    return Err(e);
                },
            };
            if v != 0 {
                self.relative_jump(pgm, d)
            } else {
                Ok(())
            }
        } else if opcode == op::IFLT {
            let d = match self.fetch_i16(pgm) {
                Ok(d) => d,
                Err(e) => {
                    return Err(e);
                },
            };
            let v = match self.pop() {
                Ok(v) => v,
                Err(e) => {
                    return Err(e);
                },
            };
            if v < 0 {
                self.relative_jump(pgm, d)
            } else {
                Ok(())
            }
        } else if opcode == op::IFLE {
            let d = match self.fetch_i16(pgm) {
                Ok(d) => d,
                Err(e) => {
                    return Err(e);
                },
            };
            let v = match self.pop() {
                Ok(v) => v,
                Err(e) => {
                    return Err(e);
                },
            };
            if v <= 0 {
                self.relative_jump(pgm, d)
            } else {
                Ok(())
            }
        } else if opcode == op::IFGT {
            let d = match self.fetch_i16(pgm) {
                Ok(d) => d,
                Err(e) => {
                    return Err(e);
                },
            };
            let v = match self.pop() {
                Ok(v) => v,
                Err(e) => {
                    return Err(e);
                },
            };
            if v > 0 {
                self.relative_jump(pgm, d)
            } else {
                Ok(())
            }
        } else if opcode == op::IFGE {
            let d = match self.fetch_i16(pgm) {
                Ok(d) => d,
                Err(e) => {
                    return Err(e);
                },
            };
            let v = match self.pop() {
                Ok(v) => v,
                Err(e) => {
                    return Err(e);
                },
            };
            if v >= 0 {
                self.relative_jump(pgm, d)
            } else {
                Ok(())
            }
        } else if opcode == op::STORE {
            let idx = match self.fetch_u8(pgm) {
                Ok(b) => b,
                Err(e) => {
                    return Err(e);
                },
            };
            if idx >= pgm.vars {
                Err(RuntimeError::InvalidVariable)
            } else {
                let v = match self.pop() {
                    Ok(v) => v,
                    Err(e) => {
                        return Err(e);
                    },
                };
                self.stack[idx as usize] = v;
                Ok(())
            }
        } else if opcode == op::LOAD {
            let idx = match self.fetch_u8(pgm) {
                Ok(b) => b,
                Err(e) => {
                    return Err(e);
                },
            };
            if idx >= pgm.vars {
                Err(RuntimeError::InvalidVariable)
            } else {
                let v = self.stack[idx as usize];
                self.push(v)
            }
        } else if opcode == op::CALL {
            let d = match self.fetch_i16(pgm) {
                Ok(d) => d,
                Err(e) => {
                    return Err(e);
                },
            };
            let ret = self.pc;
            match self.relative_jump(pgm, d) {
                Ok(()) => {
                    let ghost mid = self@;
                    self.rstack.push(ret);
                    proof {
                        assert(self@.rstack =~= mid.rstack.push(ret as int));
                    }
                    Ok(())
                },
                Err(e) => Err(e),
            }
        } else if opcode == op::RET {
            if self.rstack.len() == 0 {
                proof {
                    assert(self@.rstack.len() == 0);
                }
                Err(RuntimeError::StackUnderflow)
            } else {
                let ghost pre = self@;
                let ret = self.rstack.pop().unwrap();
                self.pc = ret;
                proof {
                    assert(ret as int == pre.rstack.last());
                    assert(self@.rstack =~= pre.rstack.drop_last());
                }
                Ok(())
            }
        } else {
            Err(RuntimeError::UnknownOpcode(opcode))
        }
    }

    /// Executes a program (encoded in bytecode).
    ///
    /// The machine is reset to a clean start state, the global slots
    /// are zeroed, and the program is interpreted until it terminates,
    /// fails, or exhausts the instruction ceiling. The outcome and the
    /// final state are exactly [`run_outcome`] of the program text,
    /// its global count, the stack capacity and the instruction limit:
    /// execution is deterministic and leaks no state between runs.
    pub fn run(&mut self, pgm: &Pgm) -> (r: Result<(), RuntimeError>)
        ensures
            final(self).stack_size == old(self).stack_size,
            final(self).instruction_limit == old(self).instruction_limit,
            run_outcome(
                pgm.text@,
                pgm.vars as int,
                old(self).stack_size as int,
                old(self).instruction_limit as int,
            ) == (match r {
                Ok(()) => StepRes::Done(final(self)@),
                Err(e) => StepRes::Fail(final(self)@, e),
            }),
    {
        // initialise the VM to be in a clean start state:
        self.stack.clear();
        self.rstack.clear();
        self.output.clear();
        self.pc = 0;
        self.op_cnt = 0;
        self.watermark = 0;
        self.fb = 0;
        // create global variables in stack:
        let vars = pgm.vars;
        let mut n: usize = 0;
        while n < vars as usize
            invariant
                vars == pgm.vars,
                0 <= n <= vars,
                n <= self.stack_size,
                self@.stack.len() == n,
                forall|i: int| 0 <= i < n ==> self@.stack[i] == 0i64,
                self@.rstack.len() == 0,
                self@.output.len() == 0,
                self@.pc == 0,
                self@.fb == 0,
                self@.op_cnt == 0,
                self@.watermark == n,
                self.stack_size == old(self).stack_size,
                self.instruction_limit == old(self).instruction_limit,
            decreases vars - n,
        {
            match self.push(0) {
                Ok(()) => {},
                Err(e) => {
                    proof {
                        let cap = self.stack_size as int;
                        assert(push_step(self@, cap, 0i64) == StepRes::Fail(self@, e));
                        assert(!(self@.stack.len() < cap));
                        assert(n == self.stack_size);
                        assert(pgm.vars as int > cap);
                        assert(self@.stack =~= globals_overflow_state(cap).stack);
                        assert(self@.rstack =~= globals_overflow_state(cap).rstack);
                        assert(self@.output =~= globals_overflow_state(cap).output);
                        assert(self@ == globals_overflow_state(cap));
                        assert(e == RuntimeError::StackOverflow);
                        assert(run_outcome(
                            pgm.text@,
                            pgm.vars as int,
                            cap,
                            old(self).instruction_limit as int,
                        ) == StepRes::Fail(globals_overflow_state(cap), RuntimeError::StackOverflow));
                    }
                    return Err(e);
                },
            }
            n = n + 1;
        }
        self.fb = vars as usize;

        let ghost prog = pgm.text@;
        let ghost gvars = pgm.vars as int;
        let ghost cap = self.stack_size as int;
        let ghost ceiling = ceiling_of(self.instruction_limit as int);
        let ghost fuel0 = (ceiling + 1) as nat;
        proof {
            assert(self@.stack =~= init_state(gvars).stack);
            assert(self@.rstack =~= init_state(gvars).rstack);
            assert(self@.output =~= init_state(gvars).output);
            assert(self@ == init_state(gvars));
            assert(run_steps(prog, gvars, cap, ceiling, init_state(gvars), fuel0) == run_steps(
                prog,
                gvars,
                cap,
                ceiling,
                self@,
                (ceiling + 1 - self@.op_cnt) as nat,
            ));
        }
        // Loop going through the whole program, one instruction at a time.
        loop
            invariant
                vm_inv(self@, prog, gvars, cap),
                0 <= self@.op_cnt <= ceiling,
                prog == pgm.text@,
                gvars == pgm.vars as int,
                cap == self.stack_size as int,
                ceiling == ceiling_of(self.instruction_limit as int),
                fuel0 == (ceiling + 1) as nat,
                self.stack_size == old(self).stack_size,
                self.instruction_limit == old(self).instruction_limit,
                run_steps(prog, gvars, cap, ceiling, init_state(gvars), fuel0) == run_steps(
                    prog,
                    gvars,
                    cap,
                    ceiling,
                    self@,
                    (ceiling + 1 - self@.op_cnt) as nat,
                ),
            decreases ceiling - self@.op_cnt,
        {
            let ghost s0 = self@;
            let ghost k = (ceiling + 1 - s0.op_cnt) as nat;
            proof {
                assert(k >= 1);
            }
            // Fetch next opcode from program (increases program counter):
            let opcode = match self.fetch_u8(pgm) {
                Ok(b) => b,
                Err(e) => {
                    proof {
                        assert(step(prog, gvars, cap, ceiling, s0) == StepRes::Fail(
                            s0,
                            RuntimeError::EndOfProgram,
                        ));
                        assert(run_steps(prog, gvars, cap, ceiling, s0, k) == StepRes::Fail(
                            s0,
                            RuntimeError::EndOfProgram,
                        ));
                    }
                    return Err(e);
                },
            };
            // Limit execution by number of instructions that will be executed:
            let ceil_exec = if self.instruction_limit == 0 {
                usize::MAX
            } else {
                self.instruction_limit
            };
            if self.op_cnt >= ceil_exec {
                proof {
                    assert(step(prog, gvars, cap, ceiling, s0) == StepRes::Fail(
                        self@,
                        RuntimeError::InstructionLimitExceeded,
                    ));
                    assert(run_steps(prog, gvars, cap, ceiling, s0, k) == StepRes::Fail(
                        self@,
                        RuntimeError::InstructionLimitExceeded,
                    ));
                }
                return Err(RuntimeError::InstructionLimitExceeded);
            }
            // We count the number of instructions we execute:
            self.op_cnt = self.op_cnt + 1;
            // If we are done, stop execution:
            if opcode == op::FIN {
                proof {
                    assert(step(prog, gvars, cap, ceiling, s0) == StepRes::Done(self@));
                    assert(run_steps(prog, gvars, cap, ceiling, s0, k) == StepRes::Done(self@));
                }
                return Ok(());
            }
            // Execute the current instruction (with the opcode we loaded already):
            let ghost s2 = self@;
            proof {
                assert(step(prog, gvars, cap, ceiling, s0) == step_op(
                    prog,
                    gvars,
                    cap,
                    opcode,
                    s2,
                ));
                assert(vm_inv(s2, prog, gvars, cap));
            }
            match self.execute_op(pgm, opcode) {
                Ok(()) => {
                    proof {
                        assert(step(prog, gvars, cap, ceiling, s0) == StepRes::Next(self@));
                        assert(run_steps(prog, gvars, cap, ceiling, s0, k) == run_steps(
                            prog,
                            gvars,
                            cap,
                            ceiling,
                            self@,
                            (k - 1) as nat,
                        ));
                        lemma_step_op_inv(prog, gvars, cap, opcode, s2);
                    }
                },
                Err(e) => {
                    proof {
                        assert(step(prog, gvars, cap, ceiling, s0) == StepRes::Fail(self@, e));
                        assert(run_steps(prog, gvars, cap, ceiling, s0, k) == StepRes::Fail(
                            self@,
                            e,
                        ));
                    }
                    return Err(e);
                },
            }
        }
    }
}


/// A step from a well-formed state leads to a well-formed state.
proof fn lemma_step_op_inv(prog: Seq<u8>, vars: int, cap: int, opcode: u8, s: VmState)
    requires
        vm_inv(s, prog, vars, cap),
    ensures
        (match step_op(prog, vars, cap, opcode, s) {
            StepRes::Next(s2) => vm_inv(s2, prog, vars, cap),
            _ => true,
        }),
{
    let r = step_op(prog, vars, cap, opcode, s);
    if opcode == op::NOP {
    } else if opcode == op::POP {
    } else if opcode == op::DUP {
    } else if opcode == op::OUT {
    } else if opcode == op::PUSH_U8 {
    } else if opcode == op::LOAD {
    } else if opcode == op::STORE {
    } else if opcode == op::ADD {
    } else if opcode == op::SUB {
    } else if opcode == op::MUL {
    } else if opcode == op::DIV {
    } else if opcode == op::MOD {
    } else if opcode == op::GOTO {
    } else if opcode == op::RET {
    } else if opcode == op::CALL {
        if s.pc + 1 < prog.len() {
            let s1 = VmState { pc: s.pc + 2, ..s };
            let d = op::decode_i16(prog[s.pc], prog[s.pc + 1]);
            if 0 <= s1.pc + d < prog.len() {
                let s2 = VmState { pc: s1.pc + d, rstack: s1.rstack.push(s1.pc), ..s1 };
                assert(forall|i: int|
                    0 <= i < s2.rstack.len() ==> 0 <= #[trigger] s2.rstack[i] <= prog.len());
            }
        }
    } else if opcode == op::IFEQ {
    } else if opcode == op::IFNE {
    } else if opcode == op::IFLT {
    } else if opcode == op::IFLE {
    } else if opcode == op::IFGT {
    } else if opcode == op::IFGE {
    } else {
    }
}

/// Law: the dispatch table agrees with the operand-length table: a
/// successful step on an opcode that transfers no control advances
/// the program counter by exactly its fixed operand length.
pub proof fn lemma_operand_width_agrees(prog: Seq<u8>, vars: int, cap: int, opcode: u8, s: VmState)
    requires
        opcode != op::GOTO && opcode != op::IFEQ && opcode != op::IFNE && opcode != op::IFLT
            && opcode != op::IFLE && opcode != op::IFGT && opcode != op::IFGE && opcode
            != op::CALL && opcode != op::RET,
    ensures
        (match step_op(prog, vars, cap, opcode, s) {
            StepRes::Next(s2) => s2.pc == s.pc + op::oparg_len(opcode),
            _ => true,
        }),
{
    let r = step_op(prog, vars, cap, opcode, s);
    if opcode == op::NOP {
    } else if opcode == op::POP {
    } else if opcode == op::DUP {
    } else if opcode == op::OUT {
    } else if opcode == op::PUSH_U8 {
    } else if opcode == op::LOAD {
    } else if opcode == op::STORE {
    } else if opcode == op::ADD || opcode == op::SUB || opcode == op::MUL {
    } else if opcode == op::DIV || opcode == op::MOD {
    } else {
    }
}

/// Law: when the divisor on top of the stack is zero, divide and
/// modulo fail with `DivisionByZero` — for every dividend, never a
/// wrapped result and never a panic.
pub proof fn lemma_division_by_zero(prog: Seq<u8>, vars: int, cap: int, opcode: u8, s: VmState)
    requires
        opcode == op::DIV || opcode == op::MOD,
        can_pop(s),
        can_pop(popped(s)),
        s.stack.last() == 0i64,
    ensures
        step_op(prog, vars, cap, opcode, s) == StepRes::Fail(
            popped(popped(s)),
            RuntimeError::DivisionByZero,
        ),
{
}

/// Law: popping with the stack exactly at the frame base fails with
/// `StackUnderflow` and leaves the state unchanged.
pub proof fn lemma_pop_underflow(prog: Seq<u8>, vars: int, cap: int, s: VmState)
    requires
        s.stack.len() == s.fb,
    ensures
        step_op(prog, vars, cap, op::POP, s) == StepRes::Fail(s, RuntimeError::StackUnderflow),
{
}

/// Law: pushing with the stack at capacity fails with `StackOverflow`
/// and leaves the state unchanged.
pub proof fn lemma_push_overflow(s: VmState, cap: int, v: i64)
    requires
        s.stack.len() == cap,
    ensures
        push_step(s, cap, v) == StepRes::Fail(s, RuntimeError::StackOverflow),
{
}

/// Law: running one immutable program on two machines built with the
/// same stack capacity and instruction limit yields identical
/// outcomes — the outcome is a function of the program and those two
/// numbers alone, so no state leaks between runs or instances.
pub proof fn lemma_rerun_identical(
    prog: Seq<u8>,
    vars: int,
    cap: int,
    limit: int,
    o1: StepRes,
    o2: StepRes,
)
    requires
        o1 == run_outcome(prog, vars, cap, limit),
        o2 == run_outcome(prog, vars, cap, limit),
    ensures
        o1 == o2,
{
}

} // verus!
