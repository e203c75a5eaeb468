use eidolon::script_engine::{HostEnvironment, MockHostEnvironment, OpCode, ScriptVm, VmError};

#[test]
fn test_arithmetic_computation() {
    let mut vm = ScriptVm::new();
    let mut host = MockHostEnvironment::default();

    let bytecode = [
        OpCode::Push(10),
        OpCode::Push(20),
        OpCode::Add,
        OpCode::Push(3),
        OpCode::Mul,
        OpCode::Push(5),
        OpCode::Sub,
        OpCode::Halt,
    ];

    let res = vm.execute(&bytecode, 100, &mut host).unwrap();
    assert_eq!(res, 85);
}

#[test]
fn test_gas_exhaustion_infinite_loop() {
    let mut vm = ScriptVm::new();
    let mut host = MockHostEnvironment::default();
    let bytecode = [OpCode::Jump(0)];
    let err = vm.execute(&bytecode, 50, &mut host);
    assert_eq!(err, Err(VmError::GasExhausted));
}

#[test]
fn test_host_syscall_and_conditional_branching() {
    let mut vm = ScriptVm::new();
    let mut host = MockHostEnvironment::default();
    host.responses[1] = 10;

    let bytecode = [
        OpCode::Push(0),
        OpCode::CallSyscall(1),
        OpCode::Push(10),
        OpCode::Gte,
        OpCode::JumpIfFalse(7),
        OpCode::Push(500),
        OpCode::CallSyscall(2),
        OpCode::Halt,
        OpCode::Push(0),
        OpCode::Halt,
    ];

    let res = vm.execute(&bytecode, 100, &mut host).unwrap();
    assert_eq!(host.invocations.len(), 2);
    assert_eq!(host.invocations[0], (1, 0));
    assert_eq!(host.invocations[1], (2, 500));
    assert_eq!(res, 0);
}

#[test]
fn test_division_by_zero_safety() {
    let mut vm = ScriptVm::new();
    let mut host = MockHostEnvironment::default();
    let bytecode = [OpCode::Push(10), OpCode::Push(0), OpCode::Div, OpCode::Halt];
    let err = vm.execute(&bytecode, 100, &mut host);
    assert_eq!(err, Err(VmError::DivisionByZero));
}

fn run(code: &[OpCode]) -> Result<i64, VmError> {
    let mut vm = ScriptVm::new();
    let mut host = MockHostEnvironment::default();
    vm.execute(code, 1000, &mut host)
}

#[test]
fn vm_saturates_and_truncates() {
    assert_eq!(run(&[OpCode::Push(i64::MAX), OpCode::Push(1), OpCode::Add, OpCode::Halt]), Ok(i64::MAX));
    assert_eq!(run(&[OpCode::Push(i64::MIN), OpCode::Push(1), OpCode::Sub, OpCode::Halt]), Ok(i64::MIN));
    assert_eq!(run(&[OpCode::Push(i64::MAX), OpCode::Push(-2), OpCode::Mul, OpCode::Halt]), Ok(i64::MIN));
    assert_eq!(run(&[OpCode::Push(-7), OpCode::Push(2), OpCode::Div, OpCode::Halt]), Ok(-3));
    assert_eq!(run(&[OpCode::Push(-7), OpCode::Push(2), OpCode::Mod, OpCode::Halt]), Ok(-1));
    assert_eq!(run(&[OpCode::Push(i64::MIN), OpCode::Push(-1), OpCode::Div, OpCode::Halt]), Ok(0));
    assert_eq!(run(&[OpCode::Push(i64::MIN), OpCode::Push(-1), OpCode::Mod, OpCode::Halt]), Ok(0));
    assert_eq!(run(&[OpCode::Push(5), OpCode::Push(0), OpCode::Mod]), Err(VmError::DivisionByZero));
}

#[test]
fn vm_stack_registers_and_errors() {
    assert_eq!(run(&[OpCode::Halt]), Ok(0));
    assert_eq!(run(&[OpCode::Pop]), Err(VmError::StackUnderflow));
    assert_eq!(run(&[OpCode::Push(1), OpCode::Add]), Err(VmError::StackUnderflow));
    assert_eq!(run(&[OpCode::Push(1)]), Err(VmError::UnexpectedEndOfBytecode));
    assert_eq!(run(&[OpCode::Jump(5)]), Err(VmError::InvalidJumpTarget));
    assert_eq!(run(&[OpCode::LoadVar(32)]), Err(VmError::InvalidVariableIndex));
    assert_eq!(
        run(&[OpCode::Push(4), OpCode::Push(9), OpCode::Swap, OpCode::Sub, OpCode::Halt]),
        Ok(5)
    );
    assert_eq!(
        run(&[OpCode::Push(6), OpCode::StoreVar(3), OpCode::LoadVar(3), OpCode::Dup, OpCode::Mul, OpCode::Halt]),
        Ok(36)
    );
    let overflow: Vec<OpCode> = core::iter::repeat(OpCode::Push(1)).take(129).collect();
    assert_eq!(run(&overflow), Err(VmError::StackOverflow));
    assert_eq!(run(&[OpCode::Push(1), OpCode::JumpIfTrue(3), OpCode::Halt, OpCode::Push(7), OpCode::Halt]), Ok(7));
    assert_eq!(run(&[OpCode::CallSyscall(0)]), Err(VmError::StackUnderflow));
}

struct RefusingHost;

impl HostEnvironment for RefusingHost {
    fn handle_syscall(&mut self, _syscall_id: u16, _arg: i64) -> Result<i64, u16> {
        Err(42)
    }
}

#[test]
fn vm_reports_host_refusal() {
    let mut vm = ScriptVm::new();
    let mut host = RefusingHost;
    let code = [OpCode::Push(1), OpCode::CallSyscall(3), OpCode::Halt];
    assert_eq!(vm.execute(&code, 10, &mut host), Err(VmError::SyscallFailed(42)));
}

#[test]
fn vm_gas_counts_instructions() {
    let code = [OpCode::Push(1), OpCode::Push(2), OpCode::Add, OpCode::Halt];
    let mut vm = ScriptVm::new();
    let mut host = MockHostEnvironment::default();
    assert_eq!(vm.execute(&code, 3, &mut host), Err(VmError::GasExhausted));
    assert_eq!(vm.execute(&code, 4, &mut host), Ok(3));
}
