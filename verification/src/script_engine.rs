//! Sandboxed gameplay scripting: a gas-metered stack virtual machine whose only contact with the
//! world is a host syscall interface.
use vstd::prelude::*;

verus! {

/// Maximum operand stack depth.
pub const VM_STACK_CAPACITY: usize = 128;

/// Number of variable registers.
pub const VM_VARS_CAPACITY: usize = 32;

/// Default gas allocation per execution.
pub const DEFAULT_GAS_LIMIT: u64 = 10_000;

/// Bytecode instructions.
#[derive(Debug, Clone, Copy, PartialEq, Eq, Structural)]
pub enum OpCode {
    /// Pushes a constant.
    Push(i64),
    /// Discards the top value.
    Pop,
    /// Duplicates the top value.
    Dup,
    /// Swaps the top two values.
    Swap,
    /// `b + a`, saturating.
    Add,
    /// `b - a`, saturating.
    Sub,
    /// `b * a`, saturating.
    Mul,
    /// `b / a`, truncating; the one overflowing quotient gives 0.
    Div,
    /// `b % a`; the one overflowing remainder gives 0.
    Mod,
    /// 1 if `b == a` else 0.
    Eq,
    /// 1 if `b != a` else 0.
    Neq,
    /// 1 if `b < a` else 0.
    Lt,
    /// 1 if `b <= a` else 0.
    Lte,
    /// 1 if `b > a` else 0.
    Gt,
    /// 1 if `b >= a` else 0.
    Gte,
    /// Unconditional jump.
    Jump(usize),
    /// Pops a condition and jumps when it is non-zero.
    JumpIfTrue(usize),
    /// Pops a condition and jumps when it is zero.
    JumpIfFalse(usize),
    /// Pushes a variable register.
    LoadVar(u16),
    /// Pops into a variable register.
    StoreVar(u16),
    /// Pops an argument, invokes the host syscall, pushes its return value.
    CallSyscall(u16),
    /// Stops, returning the top value (0 on an empty stack).
    Halt,
}

/// Execution errors.
#[derive(Debug, Clone, Copy, PartialEq, Eq, Structural)]
pub enum VmError {
    /// The gas limit ran out.
    GasExhausted,
    /// The operand stack is full.
    StackOverflow,
    /// An operand was popped from an empty stack.
    StackUnderflow,
    /// Division or remainder by zero.
    DivisionByZero,
    /// A jump target lies outside the bytecode.
    InvalidJumpTarget,
    /// A variable index lies outside the registers.
    InvalidVariableIndex,
    /// The host refused a syscall with this code.
    SyscallFailed(u16),
    /// The program ran past its last instruction.
    UnexpectedEndOfBytecode,
}

/// Host interface through which scripts reach authoritative world systems.
pub trait HostEnvironment {
    /// Syscalls the host has received, in order: `(syscall_id, argument)`. Hosts verified here
    /// define it; the default describes none.
    open spec fn calls(&self) -> Seq<(u16, i64)> {
        Seq::empty()
    }

    /// Replies the host has given, in the order of `calls`.
    open spec fn answers(&self) -> Seq<Result<i64, u16>> {
        Seq::empty()
    }

    /// Handles syscall `syscall_id` with argument `arg`; the call and its reply are recorded.
    fn handle_syscall(&mut self, syscall_id: u16, arg: i64) -> (r: Result<i64, u16>)
        ensures
            final(self).calls() == old(self).calls().push((syscall_id, arg)),
            final(self).answers() == old(self).answers().push(r),
    ;
}

/// Reply of the logging host for syscall `id`.
pub open spec fn configured_reply(responses: [i64; 16], id: u16) -> Result<i64, u16> {
    Ok(if id < 16 { responses@[id as int] } else { 0 })
}

/// Host that logs every syscall and answers from a table of configured responses.
#[derive(Debug, Default)]
pub struct MockHostEnvironment {
    /// Calls received, in order: `(syscall_id, argument)`.
    pub invocations: Vec<(u16, i64)>,
    /// Response of syscalls 0 to 15; other syscalls answer 0.
    pub responses: [i64; 16],
}

impl HostEnvironment for MockHostEnvironment {
    open spec fn calls(&self) -> Seq<(u16, i64)> {
        self.invocations@
    }

    open spec fn answers(&self) -> Seq<Result<i64, u16>> {
        self.invocations@.map_values(|c: (u16, i64)| configured_reply(self.responses, c.0))
    }

    /// Logs the call and answers the configured response.
    fn handle_syscall(&mut self, syscall_id: u16, arg: i64) -> (r: Result<i64, u16>)
        ensures
            final(self).invocations@ == old(self).invocations@.push((syscall_id, arg)),
            final(self).responses == old(self).responses,
            r == Ok::<i64, u16>(
                if syscall_id < 16 {
                    old(self).responses@[syscall_id as int]
                } else {
                    0
                },
            ),
    {
        self.invocations.push((syscall_id, arg));
        assert(self.invocations@.map_values(|c: (u16, i64)| configured_reply(self.responses, c.0))
            =~= old(self).invocations@.map_values(
            |c: (u16, i64)| configured_reply(self.responses, c.0),
        ).push(configured_reply(self.responses, syscall_id)));
        if (syscall_id as usize) < 16 {
            Ok(self.responses[syscall_id as usize])
        } else {
            Ok(0)
        }
    }
}

/// Quest objective state.
#[derive(Debug, Clone, Copy, PartialEq, Eq)]
pub enum QuestStatus {
    /// Not accepted.
    Unassigned,
    /// Active with objective counts.
    Active {
        /// Objective completion counts.
        progress: [u32; 4],
    },
    /// Turned in.
    Completed,
    /// Abandoned or failed.
    Failed,
}

// ---------------------------------------------------------------------------------------------
// Reference semantics
// ---------------------------------------------------------------------------------------------

/// Abstract machine state: operand stack (bottom first), registers, program counter, gas.
pub struct VmState {
    /// Operand stack, bottom first.
    pub stack: Seq<i64>,
    /// Variable registers.
    pub vars: Seq<i64>,
    /// Index of the next instruction.
    pub pc: int,
    /// Remaining gas.
    pub gas: nat,
}

/// Outcome of one instruction: continue in a new state, or stop with a result.
pub enum VmStep {
    /// Execution continues.
    Continue(VmState),
    /// Execution stops.
    Finished(Result<i64, VmError>),
}

/// The state at the start of an execution with `max_gas`.
pub open spec fn initial_vm_state(max_gas: u64) -> VmState {
    VmState { stack: Seq::empty(), vars: Seq::new(32, |i: int| 0i64), pc: 0, gas: max_gas as nat }
}

/// `x` clamped to the `i64` range.
pub open spec fn saturate_i64(x: int) -> i64 {
    if x > i64::MAX {
        i64::MAX
    } else if x < i64::MIN {
        i64::MIN
    } else {
        x as i64
    }
}

/// Result of a binary instruction on `b` (second) and `a` (top); `None` for division by zero.
pub open spec fn binary_result(op: OpCode, b: i64, a: i64) -> Option<i64> {
    match op {
        OpCode::Add => Some(saturate_i64(b + a)),
        OpCode::Sub => Some(saturate_i64(b - a)),
        OpCode::Mul => Some(saturate_i64(b * a)),
        OpCode::Div => if a == 0 {
            None
        } else {
            Some(
                match b.checked_div(a) {
                    Some(v) => v,
                    None => 0i64,
                },
            )
        },
        OpCode::Mod => if a == 0 {
            None
        } else {
            Some(
                match b.checked_rem(a) {
                    Some(v) => v,
                    None => 0i64,
                },
            )
        },
        OpCode::Eq => Some(if b == a { 1i64 } else { 0i64 }),
        OpCode::Neq => Some(if b != a { 1i64 } else { 0i64 }),
        OpCode::Lt => Some(if b < a { 1i64 } else { 0i64 }),
        OpCode::Lte => Some(if b <= a { 1i64 } else { 0i64 }),
        OpCode::Gt => Some(if b > a { 1i64 } else { 0i64 }),
        _ => Some(if b >= a { 1i64 } else { 0i64 }),
    }
}

/// Whether an instruction pops two operands and pushes one result.
pub open spec fn is_binary(op: OpCode) -> bool {
    match op {
        OpCode::Add | OpCode::Sub | OpCode::Mul | OpCode::Div | OpCode::Mod | OpCode::Eq
        | OpCode::Neq | OpCode::Lt | OpCode::Lte | OpCode::Gt | OpCode::Gte => true,
        _ => false,
    }
}

/// Effect of one instruction other than a syscall, in a program of `code_len` instructions.
pub open spec fn instr_step(code_len: int, op: OpCode, s: VmState) -> VmStep {
    let st = s.stack;
    let n = st.len();
    if is_binary(op) {
        if n < 2 {
            VmStep::Finished(Err(VmError::StackUnderflow))
        } else {
            match binary_result(op, st[n - 2], st[n - 1]) {
                Some(v) => VmStep::Continue(
                    VmState { stack: st.take(n - 2).push(v), pc: s.pc + 1, ..s },
                ),
                None => VmStep::Finished(Err(VmError::DivisionByZero)),
            }
        }
    } else {
        match op {
            OpCode::Push(v) => if n >= 128 {
                VmStep::Finished(Err(VmError::StackOverflow))
            } else {
                VmStep::Continue(VmState { stack: st.push(v), pc: s.pc + 1, ..s })
            },
            OpCode::Pop => if n == 0 {
                VmStep::Finished(Err(VmError::StackUnderflow))
            } else {
                VmStep::Continue(VmState { stack: st.drop_last(), pc: s.pc + 1, ..s })
            },
            OpCode::Dup => if n == 0 {
                VmStep::Finished(Err(VmError::StackUnderflow))
            } else if n >= 128 {
                VmStep::Finished(Err(VmError::StackOverflow))
            } else {
                VmStep::Continue(VmState { stack: st.push(st.last()), pc: s.pc + 1, ..s })
            },
            OpCode::Swap => if n < 2 {
                VmStep::Finished(Err(VmError::StackUnderflow))
            } else {
                VmStep::Continue(
                    VmState {
                        stack: st.take(n - 2).push(st[n - 1]).push(st[n - 2]),
                        pc: s.pc + 1,
                        ..s
                    },
                )
            },
            OpCode::Jump(t) => if t >= code_len {
                VmStep::Finished(Err(VmError::InvalidJumpTarget))
            } else {
                VmStep::Continue(VmState { pc: t as int, ..s })
            },
            OpCode::JumpIfTrue(t) => if t >= code_len {
                VmStep::Finished(Err(VmError::InvalidJumpTarget))
            } else if n == 0 {
                VmStep::Finished(Err(VmError::StackUnderflow))
            } else {
                VmStep::Continue(
                    VmState {
                        stack: st.drop_last(),
                        pc: if st.last() != 0 { t as int } else { s.pc + 1 },
                        ..s
                    },
                )
            },
            OpCode::JumpIfFalse(t) => if t >= code_len {
                VmStep::Finished(Err(VmError::InvalidJumpTarget))
            } else if n == 0 {
                VmStep::Finished(Err(VmError::StackUnderflow))
            } else {
                VmStep::Continue(
                    VmState {
                        stack: st.drop_last(),
                        pc: if st.last() == 0 { t as int } else { s.pc + 1 },
                        ..s
                    },
                )
            },
            OpCode::LoadVar(i) => if i >= 32 {
                VmStep::Finished(Err(VmError::InvalidVariableIndex))
            } else if n >= 128 {
                VmStep::Finished(Err(VmError::StackOverflow))
            } else {
                VmStep::Continue(VmState { stack: st.push(s.vars[i as int]), pc: s.pc + 1, ..s })
            },
            OpCode::StoreVar(i) => if i >= 32 {
                VmStep::Finished(Err(VmError::InvalidVariableIndex))
            } else if n == 0 {
                VmStep::Finished(Err(VmError::StackUnderflow))
            } else {
                VmStep::Continue(
                    VmState {
                        stack: st.drop_last(),
                        vars: s.vars.update(i as int, st.last()),
                        pc: s.pc + 1,
                        ..s
                    },
                )
            },
            OpCode::Halt => VmStep::Finished(Ok(if n == 0 { 0i64 } else { st.last() })),
            _ => VmStep::Finished(Err(VmError::UnexpectedEndOfBytecode)),
        }
    }
}

/// Result of running `code` from `s` when the host answers successive syscalls with `replies`
/// (a syscall beyond the given replies is answered `Ok(0)`). Each instruction costs one gas.
pub open spec fn vm_run(code: Seq<OpCode>, s: VmState, replies: Seq<Result<i64, u16>>) -> Result<
    i64,
    VmError,
>
    decreases s.gas,
{
    if !(0 <= s.pc < code.len()) {
        Err(VmError::UnexpectedEndOfBytecode)
    } else if s.gas == 0 {
        Err(VmError::GasExhausted)
    } else {
        let g = (s.gas - 1) as nat;
        match code[s.pc] {
            OpCode::CallSyscall(id) => if s.stack.len() == 0 {
                Err(VmError::StackUnderflow)
            } else {
                let reply = if replies.len() > 0 { replies[0] } else { Ok(0i64) };
                match reply {
                    Err(c) => Err(VmError::SyscallFailed(c)),
                    Ok(ret) => vm_run(
                        code,
                        VmState {
                            stack: s.stack.drop_last().push(ret),
                            vars: s.vars,
                            pc: s.pc + 1,
                            gas: g,
                        },
                        replies.drop_first(),
                    ),
                }
            },
            op => match instr_step(code.len() as int, op, s) {
                VmStep::Continue(n) => vm_run(
                    code,
                    VmState { stack: n.stack, vars: n.vars, pc: n.pc, gas: g },
                    replies,
                ),
                VmStep::Finished(r) => r,
            },
        }
    }
}

/// Syscalls, `(syscall_id, argument)` in order, that running `code` from `s` hands to the host
/// when it answers successive syscalls with `replies`; it follows `vm_run` step by step.
pub open spec fn vm_syscalls(code: Seq<OpCode>, s: VmState, replies: Seq<Result<i64, u16>>) -> Seq<
    (u16, i64),
>
    decreases s.gas,
{
    if !(0 <= s.pc < code.len()) || s.gas == 0 {
        Seq::empty()
    } else {
        let g = (s.gas - 1) as nat;
        match code[s.pc] {
            OpCode::CallSyscall(id) => if s.stack.len() == 0 {
                Seq::empty()
            } else {
                let reply = if replies.len() > 0 { replies[0] } else { Ok(0i64) };
                seq![(id, s.stack.last())] + match reply {
                    Err(_) => Seq::empty(),
                    Ok(ret) => vm_syscalls(
                        code,
                        VmState {
                            stack: s.stack.drop_last().push(ret),
                            vars: s.vars,
                            pc: s.pc + 1,
                            gas: g,
                        },
                        replies.drop_first(),
                    ),
                }
            },
            op => match instr_step(code.len() as int, op, s) {
                VmStep::Continue(n) => vm_syscalls(
                    code,
                    VmState { stack: n.stack, vars: n.vars, pc: n.pc, gas: g },
                    replies,
                ),
                VmStep::Finished(_) => Seq::empty(),
            },
        }
    }
}

/// Argument that the syscall about to run at `s` receives: the top of the stack.
pub open spec fn syscall_argument(s: VmState) -> i64 {
    s.stack.last()
}

// ---------------------------------------------------------------------------------------------
// Machine
// ---------------------------------------------------------------------------------------------

/// Control flow after one instruction.
enum Flow {
    Next(usize),
    Done(Result<i64, VmError>),
}

/// Sandboxed bytecode virtual machine.
#[derive(Debug)]
pub struct ScriptVm {
    stack: [i64; 128],
    stack_ptr: usize,
    vars: [i64; 32],
    gas_remaining: u64,
}

impl Default for ScriptVm {
    /// An empty machine with no gas.
    fn default() -> (vm: Self)
        ensures
            vm.wf(),
            vm.operand_stack() == Seq::<i64>::empty(),
            vm.registers() == Seq::new(32, |i: int| 0i64),
            vm.gas() == 0,
    {
        let vm = ScriptVm { stack: [0; 128], stack_ptr: 0, vars: [0; 32], gas_remaining: 0 };
        assert(vm.vars@ =~= Seq::new(32, |i: int| 0i64));
        assert(vm.stack@.take(0) =~= Seq::<i64>::empty());
        vm
    }
}

impl ScriptVm {
    /// The operand stack, bottom first.
    pub closed spec fn operand_stack(&self) -> Seq<i64> {
        self.stack@.take(self.stack_ptr as int)
    }

    /// The variable registers.
    pub closed spec fn registers(&self) -> Seq<i64> {
        self.vars@
    }

    /// Remaining gas.
    pub closed spec fn gas(&self) -> u64 {
        self.gas_remaining
    }

    /// The stack pointer stays within the stack.
    pub closed spec fn wf(&self) -> bool {
        self.stack_ptr <= 128
    }

    /// The abstract state of the machine at program counter `pc`.
    pub open spec fn state_at(&self, pc: int) -> VmState {
        VmState {
            stack: self.operand_stack(),
            vars: self.registers(),
            pc,
            gas: self.gas() as nat,
        }
    }

    /// An empty machine with no gas.
    pub fn new() -> (vm: Self)
        ensures
            vm.wf(),
            vm.operand_stack() == Seq::<i64>::empty(),
            vm.registers() == Seq::new(32, |i: int| 0i64),
            vm.gas() == 0,
    {
        ScriptVm::default()
    }

    /// Clears the stack, zeroes the registers and drops all gas.
    pub fn reset(&mut self)
        ensures
            final(self).wf(),
            final(self).operand_stack() == Seq::<i64>::empty(),
            final(self).registers() == Seq::new(32, |i: int| 0i64),
            final(self).gas() == 0,
    {
        self.stack_ptr = 0;
        let mut i: usize = 0;
        while i < 32
            invariant
                i <= 32,
                self.stack_ptr == 0,
                forall|j: int| 0 <= j < i ==> #[trigger] self.vars@[j] == 0,
            decreases 32 - i,
        {
            self.vars[i] = 0;
            i = i + 1;
        }
        self.gas_remaining = 0;
        assert(self.vars@ =~= Seq::new(32, |i: int| 0i64));
        assert(self.stack@.take(0) =~= Seq::<i64>::empty());
    }

    fn push(&mut self, val: i64) -> (r: Result<(), VmError>)
        requires
            old(self).wf(),
        ensures
            final(self).wf(),
            final(self).registers() == old(self).registers(),
            final(self).gas() == old(self).gas(),
            old(self).operand_stack().len() >= 128 ==> r == Err::<(), VmError>(
                VmError::StackOverflow,
            ) && final(self).operand_stack() == old(self).operand_stack(),
            old(self).operand_stack().len() < 128 ==> r is Ok && final(self).operand_stack()
                == old(self).operand_stack().push(val),
    {
        if self.stack_ptr >= VM_STACK_CAPACITY {
            return Err(VmError::StackOverflow);
        }
        let ghost before = self.operand_stack();
        self.stack[self.stack_ptr] = val;
        self.stack_ptr = self.stack_ptr + 1;
        assert(self.operand_stack() =~= before.push(val));
        Ok(())
    }

    fn pop(&mut self) -> (r: Result<i64, VmError>)
        requires
            old(self).wf(),
        ensures
            final(self).wf(),
            final(self).registers() == old(self).registers(),
            final(self).gas() == old(self).gas(),
            old(self).operand_stack().len() == 0 ==> r == Err::<i64, VmError>(
                VmError::StackUnderflow,
            ) && final(self).operand_stack() == old(self).operand_stack(),
            old(self).operand_stack().len() > 0 ==> r == Ok::<i64, VmError>(
                old(self).operand_stack().last(),
            ) && final(self).operand_stack() == old(self).operand_stack().drop_last(),
    {
        if self.stack_ptr == 0 {
            return Err(VmError::StackUnderflow);
        }
        let ghost before = self.operand_stack();
        self.stack_ptr = self.stack_ptr - 1;
        assert(self.operand_stack() =~= before.drop_last());
        Ok(self.stack[self.stack_ptr])
    }

    /// Completes a syscall with the host's reply: a refusal with code `c` is
    /// `SyscallFailed(c)`; a value is pushed as the syscall's result.
    pub fn complete_syscall(&mut self, reply: Result<i64, u16>) -> (r: Result<(), VmError>)
        requires
            old(self).wf(),
        ensures
            final(self).wf(),
            final(self).registers() == old(self).registers(),
            final(self).gas() == old(self).gas(),
            match reply {
                Err(c) => r == Err::<(), VmError>(VmError::SyscallFailed(c))
                    && final(self).operand_stack() == old(self).operand_stack(),
                Ok(v) => if old(self).operand_stack().len() >= 128 {
                    r == Err::<(), VmError>(VmError::StackOverflow)
                        && final(self).operand_stack() == old(self).operand_stack()
                } else {
                    r is Ok && final(self).operand_stack() == old(self).operand_stack().push(v)
                },
            },
    {
        match reply {
            Ok(ret) => self.push(ret),
            Err(code) => Err(VmError::SyscallFailed(code)),
        }
    }

    /// Executes one instruction other than a syscall at `pc`.
    fn run_instr(&mut self, op: OpCode, pc: usize, code_len: usize) -> (f: Flow)
        requires
            old(self).wf(),
            pc < code_len,
            !(op is CallSyscall),
        ensures
            final(self).wf(),
            final(self).gas() == old(self).gas(),
            match instr_step(code_len as int, op, old(self).state_at(pc as int)) {
                VmStep::Continue(n) => f == Flow::Next(n.pc as usize) && n.pc == f->Next_0
                    && final(self).operand_stack() == n.stack && final(self).registers() == n.vars,
                VmStep::Finished(res) => f == Flow::Done(res),
            },
    {
        let ghost s = self.state_at(pc as int);
        match op {
            OpCode::Push(val) => {
                match self.push(val) {
                    Ok(()) => Flow::Next(pc + 1),
                    Err(e) => Flow::Done(Err(e)),
                }
            },
            OpCode::Pop => {
                match self.pop() {
                    Ok(_) => Flow::Next(pc + 1),
                    Err(e) => Flow::Done(Err(e)),
                }
            },
            OpCode::Dup => {
                let top = match self.pop() {
                    Ok(v) => v,
                    Err(e) => {
                        return Flow::Done(Err(e));
                    },
                };
                match self.push(top) {
                    Ok(()) => {},
                    Err(e) => {
                        return Flow::Done(Err(e));
                    },
                }
                match self.push(top) {
                    Ok(()) => Flow::Next(pc + 1),
                    Err(e) => Flow::Done(Err(e)),
                }
            },
            OpCode::Swap => {
                let a = match self.pop() {
                    Ok(v) => v,
                    Err(e) => {
                        return Flow::Done(Err(e));
                    },
                };
                let b = match self.pop() {
                    Ok(v) => v,
                    Err(e) => {
                        return Flow::Done(Err(e));
                    },
                };
                let _ = self.push(a);
                let _ = self.push(b);
                assert(self.operand_stack() =~= s.stack.take(s.stack.len() - 2).push(a).push(b));
                Flow::Next(pc + 1)
            },
            OpCode::Jump(target) => {
                if target >= code_len {
                    return Flow::Done(Err(VmError::InvalidJumpTarget));
                }
                Flow::Next(target)
            },
            OpCode::JumpIfTrue(target) => {
                if target >= code_len {
                    return Flow::Done(Err(VmError::InvalidJumpTarget));
                }
                let cond = match self.pop() {
                    Ok(v) => v,
                    Err(e) => {
                        return Flow::Done(Err(e));
                    },
                };
                if cond != 0 {
                    Flow::Next(target)
                } else {
                    Flow::Next(pc + 1)
                }
            },
            OpCode::JumpIfFalse(target) => {
                if target >= code_len {
                    return Flow::Done(Err(VmError::InvalidJumpTarget));
                }
                let cond = match self.pop() {
                    Ok(v) => v,
                    Err(e) => {
                        return Flow::Done(Err(e));
                    },
                };
                if cond == 0 {
                    Flow::Next(target)
                } else {
                    Flow::Next(pc + 1)
                }
            },
            OpCode::LoadVar(idx) => {
                if idx as usize >= VM_VARS_CAPACITY {
                    return Flow::Done(Err(VmError::InvalidVariableIndex));
                }
                let v = self.vars[idx as usize];
                match self.push(v) {
                    Ok(()) => Flow::Next(pc + 1),
                    Err(e) => Flow::Done(Err(e)),
                }
            },
            OpCode::StoreVar(idx) => {
                if idx as usize >= VM_VARS_CAPACITY {
                    return Flow::Done(Err(VmError::InvalidVariableIndex));
                }
                let val = match self.pop() {
                    Ok(v) => v,
                    Err(e) => {
                        return Flow::Done(Err(e));
                    },
                };
                let ghost st = self.operand_stack();
                self.vars[idx as usize] = val;
                assert(self.operand_stack() =~= st);
                Flow::Next(pc + 1)
            },
            OpCode::Halt => {
                let ret = match self.pop() {
                    Ok(v) => v,
                    Err(_) => 0,
                };
                Flow::Done(Ok(ret))
            },
            OpCode::CallSyscall(_) => Flow::Done(Err(VmError::UnexpectedEndOfBytecode)),
            _ => {
                let a = match self.pop() {
                    Ok(v) => v,
                    Err(e) => {
                        return Flow::Done(Err(e));
                    },
                };
                let b = match self.pop() {
                    Ok(v) => v,
                    Err(e) => {
                        return Flow::Done(Err(e));
                    },
                };
                let v = match binary_op(op, b, a) {
                    Some(v) => v,
                    None => {
                        return Flow::Done(Err(VmError::DivisionByZero));
                    },
                };
                let _ = self.push(v);
                assert(self.operand_stack() =~= s.stack.take(s.stack.len() - 2).push(v));
                Flow::Next(pc + 1)
            },
        }
    }

    /// Runs `bytecode` from a reset machine with `max_gas`, one gas per instruction, calling
    /// `host` once for each syscall reached, with the popped argument. The host receives exactly
    /// the syscalls the reference semantics makes, and the result is the reference semantics
    /// `vm_run` for the replies the host actually gave.
    #[verifier::loop_isolation(false)]
    pub fn execute<H: HostEnvironment>(&mut self, bytecode: &[OpCode], max_gas: u64, host: &mut H) -> (r: Result<
        i64,
        VmError,
    >)
        ensures
            exists|replies: Seq<Result<i64, u16>>|
                {
                    &&& final(host).answers() == old(host).answers() + replies
                    &&& r == vm_run(bytecode@, initial_vm_state(max_gas), replies)
                    &&& final(host).calls() == old(host).calls() + vm_syscalls(
                        bytecode@,
                        initial_vm_state(max_gas),
                        replies,
                    )
                },
    {
        self.reset();
        self.gas_remaining = max_gas;
        let ghost init = initial_vm_state(max_gas);
        let ghost mut given: Seq<Result<i64, u16>> = Seq::empty();
        let ghost mut made: Seq<(u16, i64)> = Seq::empty();
        assert(host.calls() =~= old(host).calls() + made);
        assert(host.answers() =~= old(host).answers() + given);
        let n = bytecode.len();
        let mut pc: usize = 0;
        assert(self.state_at(0) == init);
        while pc < n
            invariant
                self.wf(),
                n == bytecode@.len(),
                forall|rest: Seq<Result<i64, u16>>|
                    vm_run(bytecode@, init, given + rest) == #[trigger] vm_run(
                        bytecode@,
                        self.state_at(pc as int),
                        rest,
                    ),
                forall|rest: Seq<Result<i64, u16>>|
                    vm_syscalls(bytecode@, init, given + rest) == made + #[trigger] vm_syscalls(
                        bytecode@,
                        self.state_at(pc as int),
                        rest,
                    ),
                host.calls() == old(host).calls() + made,
                host.answers() == old(host).answers() + given,
            decreases self.gas(), n - pc,
        {
            let ghost cur = self.state_at(pc as int);
            if self.gas_remaining == 0 {
                proof {
                    let e = Seq::<Result<i64, u16>>::empty();
                    assert(vm_run(bytecode@, cur, e) == Err::<i64, VmError>(VmError::GasExhausted));
                    assert(vm_syscalls(bytecode@, cur, e) =~= Seq::<(u16, i64)>::empty());
                    assert(given + e =~= given);
                    assert(made + Seq::<(u16, i64)>::empty() =~= made);
                    assert(vm_run(bytecode@, init, given) == Err::<i64, VmError>(VmError::GasExhausted));
                    assert(vm_syscalls(bytecode@, init, given) == made);
                }
                return Err(VmError::GasExhausted);
            }
            self.gas_remaining = self.gas_remaining - 1;
            let op = bytecode[pc];
            match op {
                OpCode::CallSyscall(syscall_id) => {
                    let arg = match self.pop() {
                        Ok(v) => v,
                        Err(e) => {
                            proof {
                                let e0 = Seq::<Result<i64, u16>>::empty();
                                assert(vm_run(bytecode@, cur, e0) == Err::<i64, VmError>(e));
                                assert(vm_syscalls(bytecode@, cur, e0) =~= Seq::<(u16, i64)>::empty());
                                assert(given + e0 =~= given);
                                assert(made + Seq::<(u16, i64)>::empty() =~= made);
                                assert(vm_run(bytecode@, init, given) == Err::<i64, VmError>(e));
                                assert(vm_syscalls(bytecode@, init, given) == made);
                            }
                            return Err(e);
                        },
                    };
                    let reply = host.handle_syscall(syscall_id, arg);
                    let ghost one = seq![reply];
                    let ghost call = seq![(syscall_id, arg)];
                    proof {
                        assert(host.calls() =~= old(host).calls() + (made + call));
                        assert(host.answers() =~= old(host).answers() + (given + one));
                    }
                    match self.complete_syscall(reply) {
                        Ok(()) => {},
                        Err(e) => {
                            proof {
                                assert(one.drop_first() =~= Seq::<Result<i64, u16>>::empty());
                                assert(vm_run(bytecode@, cur, one) == Err::<i64, VmError>(e));
                                assert(vm_run(bytecode@, init, given + one) == Err::<i64, VmError>(e));
                                assert(vm_syscalls(bytecode@, cur, one) =~= call);
                                assert((given + one) + Seq::<Result<i64, u16>>::empty() =~= given + one);
                                assert(vm_syscalls(bytecode@, init, given + (one + Seq::<Result<i64, u16>>::empty())) == made + call);
                                assert(given + (one + Seq::<Result<i64, u16>>::empty()) =~= given + one);
                            }
                            return Err(e);
                        },
                    }
                    proof {
                        let next = self.state_at(pc + 1);
                        assert forall|rest: Seq<Result<i64, u16>>|
                            vm_run(bytecode@, init, (given + one) + rest) == #[trigger] vm_run(
                                bytecode@,
                                next,
                                rest,
                            ) by {
                            assert((given + one) + rest =~= given + (one + rest));
                            assert((one + rest).drop_first() =~= rest);
                            assert((one + rest)[0] == reply);
                            assert(vm_run(bytecode@, cur, one + rest) == vm_run(bytecode@, next, rest));
                        }
                        assert forall|rest: Seq<Result<i64, u16>>|
                            vm_syscalls(bytecode@, init, (given + one) + rest) == (made + call)
                                + #[trigger] vm_syscalls(bytecode@, next, rest) by {
                            assert((given + one) + rest =~= given + (one + rest));
                            assert((one + rest).drop_first() =~= rest);
                            assert((one + rest)[0] == reply);
                            assert(vm_syscalls(bytecode@, cur, one + rest) == call + vm_syscalls(
                                bytecode@,
                                next,
                                rest,
                            ));
                            assert(made + (call + vm_syscalls(bytecode@, next, rest)) =~= (made
                                + call) + vm_syscalls(bytecode@, next, rest));
                        }
                        given = given + one;
                        made = made + call;
                    }
                    pc = pc + 1;
                },
                _ => {
                    match self.run_instr(op, pc, n) {
                        Flow::Next(next) => {
                            proof {
                                let ns = self.state_at(next as int);
                                assert forall|rest: Seq<Result<i64, u16>>|
                                    vm_run(bytecode@, init, given + rest) == #[trigger] vm_run(
                                        bytecode@,
                                        ns,
                                        rest,
                                    ) by {
                                    assert(vm_run(bytecode@, cur, rest) == vm_run(bytecode@, ns, rest));
                                }
                                assert forall|rest: Seq<Result<i64, u16>>|
                                    vm_syscalls(bytecode@, init, given + rest) == made
                                        + #[trigger] vm_syscalls(bytecode@, ns, rest) by {
                                    assert(vm_syscalls(bytecode@, cur, rest) == vm_syscalls(
                                        bytecode@,
                                        ns,
                                        rest,
                                    ));
                                }
                            }
                            pc = next;
                        },
                        Flow::Done(res) => {
                            proof {
                                let e = Seq::<Result<i64, u16>>::empty();
                                assert(vm_run(bytecode@, cur, e) == res);
                                assert(vm_syscalls(bytecode@, cur, e) =~= Seq::<(u16, i64)>::empty());
                                assert(given + e =~= given);
                                assert(made + Seq::<(u16, i64)>::empty() =~= made);
                                assert(vm_run(bytecode@, init, given) == res);
                                assert(vm_syscalls(bytecode@, init, given) == made);
                            }
                            return res;
                        },
                    }
                },
            }
        }
        proof {
            let e = Seq::<Result<i64, u16>>::empty();
            assert(vm_run(bytecode@, self.state_at(pc as int), e) == Err::<i64, VmError>(
                VmError::UnexpectedEndOfBytecode,
            ));
            assert(vm_syscalls(bytecode@, self.state_at(pc as int), e) =~= Seq::<(u16, i64)>::empty());
            assert(given + e =~= given);
            assert(made + Seq::<(u16, i64)>::empty() =~= made);
            assert(vm_run(bytecode@, init, given) == Err::<i64, VmError>(
                VmError::UnexpectedEndOfBytecode,
            ));
            assert(vm_syscalls(bytecode@, init, given) == made);
        }
        Err(VmError::UnexpectedEndOfBytecode)
    }
}

/// `b op a` for a binary instruction, `None` for division or remainder by zero.
fn binary_op(op: OpCode, b: i64, a: i64) -> (r: Option<i64>)
    requires
        is_binary(op),
    ensures
        r == binary_result(op, b, a),
{
    match op {
        OpCode::Add => Some(
            match b.checked_add(a) {
                Some(v) => v,
                None => if a > 0 {
                    i64::MAX
                } else {
                    i64::MIN
                },
            },
        ),
        OpCode::Sub => Some(
            match b.checked_sub(a) {
                Some(v) => v,
                None => if a < 0 {
                    i64::MAX
                } else {
                    i64::MIN
                },
            },
        ),
        OpCode::Mul => Some(
            match b.checked_mul(a) {
                Some(v) => v,
                None => {
                    if (a > 0) == (b > 0) {
                        assert(b * a >= 0) by (nonlinear_arith)
                            requires
                                (a > 0) == (b > 0),
                        ;
                        i64::MAX
                    } else {
                        assert(b * a <= 0) by (nonlinear_arith)
                            requires
                                (a > 0) != (b > 0),
                        ;
                        i64::MIN
                    }
                },
            },
        ),
        OpCode::Div => {
            if a == 0 {
                None
            } else {
                Some(
                    match b.checked_div(a) {
                        Some(v) => v,
                        None => 0,
                    },
                )
            }
        },
        OpCode::Mod => {
            if a == 0 {
                None
            } else {
                Some(
                    match b.checked_rem(a) {
                        Some(v) => v,
                        None => 0,
                    },
                )
            }
        },
        OpCode::Eq => Some(if b == a { 1 } else { 0 }),
        OpCode::Neq => Some(if b != a { 1 } else { 0 }),
        OpCode::Lt => Some(if b < a { 1 } else { 0 }),
        OpCode::Lte => Some(if b <= a { 1 } else { 0 }),
        OpCode::Gt => Some(if b > a { 1 } else { 0 }),
        _ => Some(if b >= a { 1 } else { 0 }),
    }
}

/// The program makes no syscall.
pub open spec fn syscall_free(code: Seq<OpCode>) -> bool {
    forall|i: int| 0 <= i < code.len() ==> !(#[trigger] code[i] is CallSyscall)
}

/// A program that makes no syscall computes the same result whatever the host would answer.
pub proof fn lemma_syscall_free_ignores_host(
    code: Seq<OpCode>,
    s: VmState,
    replies1: Seq<Result<i64, u16>>,
    replies2: Seq<Result<i64, u16>>,
)
    requires
        syscall_free(code),
    ensures
        vm_run(code, s, replies1) == vm_run(code, s, replies2),
    decreases s.gas,
{
    if 0 <= s.pc < code.len() && s.gas > 0 {
        assert(!(code[s.pc] is CallSyscall));
        let g = (s.gas - 1) as nat;
        match instr_step(code.len() as int, code[s.pc], s) {
            VmStep::Continue(n) => {
                lemma_syscall_free_ignores_host(
                    code,
                    VmState { stack: n.stack, vars: n.vars, pc: n.pc, gas: g },
                    replies1,
                    replies2,
                );
            },
            VmStep::Finished(_) => {},
        }
    }
}

/// Gas bounds every run: a program that only jumps back to itself ends with `GasExhausted`
/// whatever its gas.
pub proof fn lemma_self_jump_exhausts_gas(gas: nat, replies: Seq<Result<i64, u16>>)
    ensures
        vm_run(
            seq![OpCode::Jump(0)],
            VmState { stack: Seq::empty(), vars: Seq::new(32, |i: int| 0i64), pc: 0, gas },
            replies,
        ) == Err::<i64, VmError>(VmError::GasExhausted),
    decreases gas,
{
    if gas > 0 {
        lemma_self_jump_exhausts_gas((gas - 1) as nat, replies);
    }
}


/// Comparisons take the second operand against the top one: running `Push(b), Push(a), op,
/// Halt` returns 1 when `b op a` holds and 0 otherwise, for every comparison, and `Lt` is the
/// negation of `Gte` (likewise `Gt` of `Lte`, and `Eq` of `Neq`).
pub proof fn lemma_comparisons_order_operands(b: i64, a: i64, gas: u64, replies: Seq<Result<i64, u16>>)
    requires
        gas >= 4,
    ensures
        vm_run(seq![OpCode::Push(b), OpCode::Push(a), OpCode::Lt, OpCode::Halt], initial_vm_state(gas), replies)
            == Ok::<i64, VmError>(if b < a { 1 } else { 0 }),
        vm_run(seq![OpCode::Push(b), OpCode::Push(a), OpCode::Lte, OpCode::Halt], initial_vm_state(gas), replies)
            == Ok::<i64, VmError>(if b <= a { 1 } else { 0 }),
        vm_run(seq![OpCode::Push(b), OpCode::Push(a), OpCode::Gt, OpCode::Halt], initial_vm_state(gas), replies)
            == Ok::<i64, VmError>(if b > a { 1 } else { 0 }),
        vm_run(seq![OpCode::Push(b), OpCode::Push(a), OpCode::Gte, OpCode::Halt], initial_vm_state(gas), replies)
            == Ok::<i64, VmError>(if b >= a { 1 } else { 0 }),
        vm_run(seq![OpCode::Push(b), OpCode::Push(a), OpCode::Eq, OpCode::Halt], initial_vm_state(gas), replies)
            == Ok::<i64, VmError>(if b == a { 1 } else { 0 }),
        vm_run(seq![OpCode::Push(b), OpCode::Push(a), OpCode::Neq, OpCode::Halt], initial_vm_state(gas), replies)
            == Ok::<i64, VmError>(if b != a { 1 } else { 0 }),
{
    lemma_push_push_binary_halt(OpCode::Lt, b, a, gas, replies);
    lemma_push_push_binary_halt(OpCode::Lte, b, a, gas, replies);
    lemma_push_push_binary_halt(OpCode::Gt, b, a, gas, replies);
    lemma_push_push_binary_halt(OpCode::Gte, b, a, gas, replies);
    lemma_push_push_binary_halt(OpCode::Eq, b, a, gas, replies);
    lemma_push_push_binary_halt(OpCode::Neq, b, a, gas, replies);
}

/// `Push(b), Push(a), op, Halt` returns what `op` gives on `b` and `a`.
proof fn lemma_push_push_binary_halt(op: OpCode, b: i64, a: i64, gas: u64, replies: Seq<Result<i64, u16>>)
    requires
        gas >= 4,
        is_binary(op),
        binary_result(op, b, a) is Some,
    ensures
        vm_run(seq![OpCode::Push(b), OpCode::Push(a), op, OpCode::Halt], initial_vm_state(gas), replies)
            == Ok::<i64, VmError>(binary_result(op, b, a)->0),
{
    reveal_with_fuel(vm_run, 5);
    let s0 = initial_vm_state(gas);
    let s2 = VmState { stack: seq![b, a], vars: s0.vars, pc: 2, gas: (gas - 2) as nat };
    assert(s0.stack.push(b).push(a) =~= seq![b, a]);
    assert(s2.stack.take(0).push(binary_result(op, b, a)->0) =~= seq![binary_result(op, b, a)->0]);
}


/// Arithmetic takes the second operand against the top one: `Push(b), Push(a), op, Halt`
/// returns `b + a`, `b - a` and `b * a`, each clamped to the `i64` range.
pub proof fn lemma_arithmetic_order_operands(b: i64, a: i64, gas: u64, replies: Seq<Result<i64, u16>>)
    requires
        gas >= 4,
    ensures
        vm_run(seq![OpCode::Push(b), OpCode::Push(a), OpCode::Add, OpCode::Halt], initial_vm_state(gas), replies)
            == Ok::<i64, VmError>(if b + a > i64::MAX { i64::MAX } else if b + a < i64::MIN { i64::MIN } else { (b + a) as i64 }),
        vm_run(seq![OpCode::Push(b), OpCode::Push(a), OpCode::Sub, OpCode::Halt], initial_vm_state(gas), replies)
            == Ok::<i64, VmError>(if b - a > i64::MAX { i64::MAX } else if b - a < i64::MIN { i64::MIN } else { (b - a) as i64 }),
        vm_run(seq![OpCode::Push(b), OpCode::Push(a), OpCode::Mul, OpCode::Halt], initial_vm_state(gas), replies)
            == Ok::<i64, VmError>(if b * a > i64::MAX { i64::MAX } else if b * a < i64::MIN { i64::MIN } else { (b * a) as i64 }),
{
    lemma_push_push_binary_halt(OpCode::Add, b, a, gas, replies);
    lemma_push_push_binary_halt(OpCode::Sub, b, a, gas, replies);
    lemma_push_push_binary_halt(OpCode::Mul, b, a, gas, replies);
}

} // verus!
