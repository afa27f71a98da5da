//! The machine as mathematics: the state that execution acts on, what each
//! instruction does to it, and what a run with a bounded number of steps yields.
use vstd::prelude::*;

use crate::bbq::Function;
use crate::opcodes::{Argument, CmpBinOpType, IntBinOpType, OpCode};
use crate::registers::{RegisterCounts, RegisterType};
use crate::values::{bool_value, BoolValue, FunctionValue, IntValue};

verus! {

/// Why execution stopped abnormally.
#[derive(Clone, Copy, Debug, PartialEq, Eq)]
pub enum VmError {
    /// An instruction without semantics: `Return`, which delivers no value.
    NotImplemented,
    /// A register operand, an argument or a return target beyond the end of its bank.
    RegisterOutOfRange,
    /// An index beyond the end of the constant pool.
    ConstantOutOfRange,
    /// An index beyond the end of the global pool.
    GlobalOutOfRange,
    /// `Call` on a function register that holds no function.
    EmptyFunctionRegister,
    /// The step budget ran out while frames were still running.
    StepLimitReached,
}

/// The contents of one register bank.
pub struct BankState<'a> {
    pub ints: Seq<IntValue>,
    pub bools: Seq<BoolValue>,
    pub funcs: Seq<Option<FunctionValue<'a>>>,
}

/// One activation: its registers, the function it runs, the offset of the next
/// instruction, and the caller's integer register that receives its return value.
pub struct FrameState<'a> {
    pub locals: BankState<'a>,
    pub function: &'a Function,
    pub ip: usize,
    pub return_to_index: usize,
}

/// The mutable part of the machine: the call stack, bottom first, and the result
/// slot that the last frame's return fills.
pub struct MachineState<'a> {
    pub frames: Seq<FrameState<'a>>,
    pub return_value: IntValue,
}

/// The read-only pools of a program.
pub struct Pools<'a> {
    pub constants: Seq<IntValue>,
    pub globals: Seq<FunctionValue<'a>>,
}

/// A bank of the given shape with every integer 0, every boolean false and every
/// function register empty.
pub open spec fn fresh_bank<'a>(counts: RegisterCounts) -> BankState<'a> {
    BankState {
        ints: Seq::new(counts.ints as nat, |i: int| IntValue { value: 0 }),
        bools: Seq::new(counts.bools as nat, |i: int| BoolValue { value: false }),
        funcs: Seq::new(counts.funcs as nat, |i: int| None),
    }
}

/// The source indices of the arguments of kind `kind`, in argument order.
pub open spec fn kind_sources(args: Seq<Argument>, kind: RegisterType) -> Seq<usize>
    decreases args.len(),
{
    if args.len() == 0 {
        Seq::empty()
    } else {
        let before = kind_sources(args.drop_last(), kind);
        if args.last().typ == kind {
            before.push(args.last().index)
        } else {
            before
        }
    }
}

/// `dst` with its k-th register replaced by `src[sources[k]]` for each k.
pub open spec fn copy_into<T>(src: Seq<T>, dst: Seq<T>, sources: Seq<usize>) -> Seq<T> {
    Seq::new(dst.len(), |k: int| if k < sources.len() { src[sources[k] as int] } else { dst[k] })
}

/// Every source index lies within `src`, and `dst` has room for them all.
pub open spec fn sources_fit<T>(src: Seq<T>, dst: Seq<T>, sources: Seq<usize>) -> bool {
    &&& sources.len() <= dst.len()
    &&& forall|k: int| 0 <= k < sources.len() ==> sources[k] < src.len()
}

/// The sources of a prefix of the arguments are a prefix of the sources of all of them.
pub proof fn lemma_kind_sources_prefix(args: Seq<Argument>, j: int, kind: RegisterType)
    requires
        0 <= j <= args.len(),
    ensures
        kind_sources(args.subrange(0, j), kind).len() <= kind_sources(args, kind).len(),
        forall|k: int|
            0 <= k < kind_sources(args.subrange(0, j), kind).len() ==> #[trigger] kind_sources(args, kind)[k]
                == kind_sources(args.subrange(0, j), kind)[k],
    decreases args.len(),
{
    if j == args.len() {
        assert(args.subrange(0, j) =~= args);
    } else {
        let shorter = args.drop_last();
        assert(args.subrange(0, j) =~= shorter.subrange(0, j));
        lemma_kind_sources_prefix(shorter, j, kind);
    }
}

/// Taking one more argument extends the sources of its kind by its index.
pub proof fn lemma_kind_sources_next(args: Seq<Argument>, i: int, kind: RegisterType)
    requires
        0 <= i < args.len(),
    ensures
        kind_sources(args.subrange(0, i + 1), kind) == if args[i].typ == kind {
            kind_sources(args.subrange(0, i), kind).push(args[i].index)
        } else {
            kind_sources(args.subrange(0, i), kind)
        },
{
    assert(args.subrange(0, i + 1).drop_last() =~= args.subrange(0, i));
}

impl<'a> BankState<'a> {
    pub open spec fn set_int(self, i: usize, v: IntValue) -> BankState<'a> {
        BankState { ints: self.ints.update(i as int, v), bools: self.bools, funcs: self.funcs }
    }

    pub open spec fn set_bool(self, i: usize, v: BoolValue) -> BankState<'a> {
        BankState { ints: self.ints, bools: self.bools.update(i as int, v), funcs: self.funcs }
    }

    pub open spec fn set_func(self, i: usize, v: Option<FunctionValue<'a>>) -> BankState<'a> {
        BankState { ints: self.ints, bools: self.bools, funcs: self.funcs.update(i as int, v) }
    }

    /// Each argument can be read from this bank and written into `dst` under the
    /// calling convention.
    pub open spec fn arguments_fit(self, dst: BankState<'a>, args: Seq<Argument>) -> bool {
        &&& sources_fit(self.ints, dst.ints, kind_sources(args, RegisterType::Int))
        &&& sources_fit(self.bools, dst.bools, kind_sources(args, RegisterType::Bool))
        &&& sources_fit(self.funcs, dst.funcs, kind_sources(args, RegisterType::Func))
    }

    /// The calling convention: the k-th argument of each kind, read from this bank,
    /// lands at index k of that kind's bank in `dst`; the rest of `dst` is kept.
    pub open spec fn copy_arguments(self, dst: BankState<'a>, args: Seq<Argument>) -> BankState<'a> {
        BankState {
            ints: copy_into(self.ints, dst.ints, kind_sources(args, RegisterType::Int)),
            bools: copy_into(self.bools, dst.bools, kind_sources(args, RegisterType::Bool)),
            funcs: copy_into(self.funcs, dst.funcs, kind_sources(args, RegisterType::Func)),
        }
    }
}

impl<'a> FrameState<'a> {
    pub open spec fn with_ip(self, ip: usize) -> FrameState<'a> {
        FrameState {
            locals: self.locals,
            function: self.function,
            ip,
            return_to_index: self.return_to_index,
        }
    }

    pub open spec fn with_locals(self, locals: BankState<'a>) -> FrameState<'a> {
        FrameState {
            locals,
            function: self.function,
            ip: self.ip,
            return_to_index: self.return_to_index,
        }
    }

    /// The frame that a call of `function` with `locals` starts with.
    pub open spec fn entry(function: &'a Function, locals: BankState<'a>, return_to_index: usize) -> FrameState<'a> {
        FrameState { locals, function, ip: 0, return_to_index }
    }
}

impl<'a> MachineState<'a> {
    pub open spec fn depth(self) -> nat {
        self.frames.len()
    }

    /// The running frame.
    pub open spec fn top(self) -> FrameState<'a> {
        self.frames.last()
    }

    pub open spec fn with_top(self, frame: FrameState<'a>) -> MachineState<'a> {
        MachineState {
            frames: self.frames.update(self.frames.len() - 1, frame),
            return_value: self.return_value,
        }
    }

    pub open spec fn with_top_locals(self, locals: BankState<'a>) -> MachineState<'a> {
        self.with_top(self.top().with_locals(locals))
    }

    /// Nothing is left to run: the stack is empty, or the running frame's `ip` has
    /// reached the end of its code.
    pub open spec fn is_stopped(self) -> bool {
        self.frames.len() == 0 || self.top().ip >= self.top().function.code.len()
    }

    /// The instruction at the running frame's `ip`.
    pub open spec fn current_op(self) -> OpCode {
        self.top().function.code@[self.top().ip as int]
    }

    /// The state after fetching: the running frame's `ip` moved one past the instruction.
    pub open spec fn fetched(self) -> MachineState<'a> {
        self.with_top(self.top().with_ip((self.top().ip + 1) as usize))
    }
}

/// `ReturnValue { index }`: pop the running frame and hand `ints[index]` to the
/// caller's receiving register, or to the result slot when no caller is left.
pub open spec fn spec_return_value<'a>(m: MachineState<'a>, index: usize) -> Result<MachineState<'a>, VmError> {
    let callee = m.top();
    let rest = m.frames.drop_last();
    if index >= callee.locals.ints.len() {
        Err(VmError::RegisterOutOfRange)
    } else if rest.len() == 0 {
        Ok(MachineState { frames: rest, return_value: callee.locals.ints[index as int] })
    } else if callee.return_to_index >= rest.last().locals.ints.len() {
        Err(VmError::RegisterOutOfRange)
    } else {
        let caller = rest.last();
        let v = callee.locals.ints[index as int];
        Ok(
            MachineState {
                frames: rest.update(rest.len() - 1, caller.with_locals(caller.locals.set_int(callee.return_to_index, v))),
                return_value: m.return_value,
            },
        )
    }
}

/// `Jump { target }`.
pub open spec fn spec_jump<'a>(m: MachineState<'a>, target: usize) -> MachineState<'a> {
    m.with_top(m.top().with_ip(target))
}

/// `JumpIfFalse { condition, target }`.
pub open spec fn spec_jump_if_false<'a>(m: MachineState<'a>, condition: usize, target: usize) -> Result<MachineState<'a>, VmError> {
    let bools = m.top().locals.bools;
    if condition >= bools.len() {
        Err(VmError::RegisterOutOfRange)
    } else if !bools[condition as int].value {
        Ok(spec_jump(m, target))
    } else {
        Ok(m)
    }
}

/// The integer-valued binary instructions.
pub open spec fn spec_int_arithmetic<'a>(
    m: MachineState<'a>,
    typ: IntBinOpType,
    left_operand: usize,
    right_operand: usize,
    result: usize,
) -> Result<MachineState<'a>, VmError> {
    let bank = m.top().locals;
    let ints = bank.ints;
    if left_operand >= ints.len() || right_operand >= ints.len() || result >= ints.len() {
        Err(VmError::RegisterOutOfRange)
    } else {
        let v = typ.spec_apply(ints[left_operand as int], ints[right_operand as int]);
        Ok(m.with_top_locals(bank.set_int(result, v)))
    }
}

/// The comparisons, which write a boolean register.
pub open spec fn spec_int_compare<'a>(
    m: MachineState<'a>,
    typ: CmpBinOpType,
    left_operand: usize,
    right_operand: usize,
    result: usize,
) -> Result<MachineState<'a>, VmError> {
    let bank = m.top().locals;
    let ints = bank.ints;
    if left_operand >= ints.len() || right_operand >= ints.len() || result >= bank.bools.len() {
        Err(VmError::RegisterOutOfRange)
    } else {
        let v = typ.spec_apply(ints[left_operand as int], ints[right_operand as int]);
        Ok(m.with_top_locals(bank.set_bool(result, v)))
    }
}

/// `IntMove { from, to }`.
pub open spec fn spec_int_move<'a>(m: MachineState<'a>, from: usize, to: usize) -> Result<MachineState<'a>, VmError> {
    let bank = m.top().locals;
    if from >= bank.ints.len() || to >= bank.ints.len() {
        Err(VmError::RegisterOutOfRange)
    } else {
        Ok(m.with_top_locals(bank.set_int(to, bank.ints[from as int])))
    }
}

/// `IntConstantLoad { index, target }`.
pub open spec fn spec_int_const_load<'a>(
    pools: Pools<'a>,
    m: MachineState<'a>,
    index: usize,
    target: usize,
) -> Result<MachineState<'a>, VmError> {
    let bank = m.top().locals;
    if index >= pools.constants.len() {
        Err(VmError::ConstantOutOfRange)
    } else if target >= bank.ints.len() {
        Err(VmError::RegisterOutOfRange)
    } else {
        Ok(m.with_top_locals(bank.set_int(target, pools.constants[index as int])))
    }
}

/// `True { index }` and `False { index }`.
pub open spec fn spec_bool_load<'a>(m: MachineState<'a>, index: usize, b: bool) -> Result<MachineState<'a>, VmError> {
    let bank = m.top().locals;
    if index >= bank.bools.len() {
        Err(VmError::RegisterOutOfRange)
    } else {
        Ok(m.with_top_locals(bank.set_bool(index, bool_value(b))))
    }
}

/// `GlobalFuncLoad { index, result }`.
pub open spec fn spec_global_func_load<'a>(
    pools: Pools<'a>,
    m: MachineState<'a>,
    index: usize,
    result: usize,
) -> Result<MachineState<'a>, VmError> {
    let bank = m.top().locals;
    if index >= pools.globals.len() {
        Err(VmError::GlobalOutOfRange)
    } else if result >= bank.funcs.len() {
        Err(VmError::RegisterOutOfRange)
    } else {
        Ok(m.with_top_locals(bank.set_func(result, Some(pools.globals[index as int]))))
    }
}

/// Pushing a frame for `function`: fresh registers, filled with `arguments` read
/// from the running frame.
pub open spec fn spec_push_frame<'a>(
    m: MachineState<'a>,
    function: &'a Function,
    arguments: Seq<Argument>,
    result: usize,
) -> Result<MachineState<'a>, VmError> {
    let caller = m.top().locals;
    let fresh = fresh_bank(function.local_count);
    if !caller.arguments_fit(fresh, arguments) {
        Err(VmError::RegisterOutOfRange)
    } else {
        let callee = FrameState::entry(function, caller.copy_arguments(fresh, arguments), result);
        Ok(MachineState { frames: m.frames.push(callee), return_value: m.return_value })
    }
}

/// `Call { func_index, arguments, result }`.
pub open spec fn spec_call<'a>(
    m: MachineState<'a>,
    func_index: usize,
    arguments: Seq<Argument>,
    result: usize,
) -> Result<MachineState<'a>, VmError> {
    let funcs = m.top().locals.funcs;
    if func_index >= funcs.len() {
        Err(VmError::RegisterOutOfRange)
    } else {
        match funcs[func_index as int] {
            None => Err(VmError::EmptyFunctionRegister),
            Some(f) => spec_push_frame(m, f.function, arguments, result),
        }
    }
}

impl OpCode {
    /// What the instruction does to a machine whose running frame executes it
    /// (its `ip` already past the instruction).
    pub open spec fn spec_execute<'a>(&self, pools: Pools<'a>, m: MachineState<'a>) -> Result<MachineState<'a>, VmError> {
        match self {
            OpCode::Return => Err(VmError::NotImplemented),
            OpCode::ReturnValue { index } => spec_return_value(m, *index),
            OpCode::Jump { target } => Ok(spec_jump(m, *target)),
            OpCode::JumpIfFalse { condition, target } => spec_jump_if_false(m, *condition, *target),
            OpCode::IntIntBinOp { typ, left_operand, right_operand, result } => spec_int_arithmetic(
                m,
                *typ,
                *left_operand,
                *right_operand,
                *result,
            ),
            OpCode::IntBoolBinOp { typ, left_operand, right_operand, result } => spec_int_compare(
                m,
                *typ,
                *left_operand,
                *right_operand,
                *result,
            ),
            OpCode::IntMove { from, to } => spec_int_move(m, *from, *to),
            OpCode::IntConstantLoad { index, target } => spec_int_const_load(pools, m, *index, *target),
            OpCode::GlobalFuncLoad { index, result } => spec_global_func_load(pools, m, *index, *result),
            OpCode::Call { func_index, arguments, result } => spec_call(m, *func_index, arguments@, *result),
            OpCode::True { index } => spec_bool_load(m, *index, true),
            OpCode::False { index } => spec_bool_load(m, *index, false),
        }
    }
}

/// One step of a machine that is not stopped: fetch, move `ip` on, execute.
pub open spec fn step<'a>(pools: Pools<'a>, m: MachineState<'a>) -> Result<MachineState<'a>, VmError> {
    m.current_op().spec_execute(pools, m.fetched())
}

/// Running for at most `fuel` steps: the state reached, and `Ok` when the machine
/// stopped by itself. On a fault the state is the one in which the faulting
/// instruction was fetched.
pub open spec fn run_spec<'a>(pools: Pools<'a>, m: MachineState<'a>, fuel: nat) -> (MachineState<'a>, Result<(), VmError>)
    decreases fuel,
{
    if m.is_stopped() {
        (m, Ok(()))
    } else if fuel == 0 {
        (m, Err(VmError::StepLimitReached))
    } else {
        match step(pools, m) {
            Ok(next) => run_spec(pools, next, (fuel - 1) as nat),
            Err(e) => (m.fetched(), Err(e)),
        }
    }
}

/// The state after `k` steps, each taken from a machine that is not stopped and
/// without a fault; `None` where that cannot be done.
pub open spec fn steps<'a>(pools: Pools<'a>, m: MachineState<'a>, k: nat) -> Option<MachineState<'a>>
    decreases k,
{
    if k == 0 {
        Some(m)
    } else if m.is_stopped() {
        None
    } else {
        match step(pools, m) {
            Ok(next) => steps(pools, next, (k - 1) as nat),
            Err(_) => None,
        }
    }
}

/// Steps compose: `a + b` steps are `a` steps followed by `b`.
pub proof fn lemma_steps_add<'a>(pools: Pools<'a>, m: MachineState<'a>, a: nat, b: nat)
    requires
        steps(pools, m, a) is Some,
    ensures
        steps(pools, m, a + b) == steps(pools, steps(pools, m, a)->Some_0, b),
    decreases a,
{
    if a > 0 {
        lemma_steps_add(pools, step(pools, m)->Ok_0, (a - 1) as nat, b);
        assert((a - 1) as nat + b == (a + b - 1) as nat);
    }
}

/// One more step after `k` steps.
pub proof fn lemma_steps_last<'a>(pools: Pools<'a>, m: MachineState<'a>, k: nat)
    requires
        steps(pools, m, k + 1) is Some,
    ensures
        steps(pools, m, k) is Some,
        !(steps(pools, m, k)->Some_0).is_stopped(),
        step(pools, steps(pools, m, k)->Some_0) is Ok,
        steps(pools, m, k + 1) == Some(step(pools, steps(pools, m, k)->Some_0)->Ok_0),
    decreases k,
{
    let next = step(pools, m)->Ok_0;
    if k > 0 {
        lemma_steps_last(pools, next, (k - 1) as nat);
        assert((k - 1) as nat + 1 == k);
    } else {
        assert(steps(pools, next, 0) == Some(next));
    }
}

/// A run that can take `k` steps takes them first.
pub proof fn lemma_run_after_steps<'a>(pools: Pools<'a>, m: MachineState<'a>, k: nat, fuel: nat)
    requires
        steps(pools, m, k) is Some,
        k <= fuel,
    ensures
        run_spec(pools, m, fuel) == run_spec(pools, steps(pools, m, k)->Some_0, (fuel - k) as nat),
    decreases k,
{
    if k > 0 {
        lemma_run_after_steps(pools, step(pools, m)->Ok_0, (k - 1) as nat, (fuel - 1) as nat);
    }
}

/// The state in which `function` starts with `argument` in integer register 0.
pub open spec fn entry_state<'a>(m: MachineState<'a>, function: &'a Function, argument: IntValue) -> MachineState<'a> {
    let locals = fresh_bank(function.local_count).set_int(0, argument);
    MachineState { frames: m.frames.push(FrameState::entry(function, locals, 0)), return_value: m.return_value }
}

/// The number of steps an invocation may take.
pub open spec fn step_budget() -> nat {
    u64::MAX as nat
}

/// Invoking `function` on `argument`: the state left behind and what is returned.
pub open spec fn invoke_spec<'a>(pools: Pools<'a>, m: MachineState<'a>, function: &'a Function, argument: IntValue) -> (
    MachineState<'a>,
    Result<IntValue, VmError>,
) {
    if function.local_count.ints == 0 {
        (m, Err(VmError::RegisterOutOfRange))
    } else {
        let (end, status) = run_spec(pools, entry_state(m, function, argument), step_budget());
        (
            end,
            match status {
                Ok(()) => Ok(end.return_value),
                Err(e) => Err(e),
            },
        )
    }
}

/// `r` and `after` are what `expected` prescribes for a state `before`; on an
/// error the state is left as it was.
pub open spec fn outcome_is<'a>(
    r: Result<(), VmError>,
    before: MachineState<'a>,
    after: MachineState<'a>,
    expected: Result<MachineState<'a>, VmError>,
) -> bool {
    match expected {
        Ok(next) => r == Ok::<(), VmError>(()) && after == next,
        Err(e) => r == Err::<(), VmError>(e) && after == before,
    }
}

} // verus!
