use vstd::prelude::*;

use crate::bbq::Function;
use crate::opcodes::{Argument, CmpBinOpType, IntBinOpType};
use crate::registers::{RegisterCounts, RegisterType};
use crate::semantics::{
    fresh_bank, invoke_spec, kind_sources, lemma_kind_sources_next, lemma_kind_sources_prefix, outcome_is, run_spec,
    sources_fit, spec_bool_load, spec_call, spec_global_func_load, spec_int_arithmetic, spec_int_compare,
    spec_int_const_load, spec_int_move, spec_jump, spec_jump_if_false, spec_push_frame, spec_return_value,
    BankState, FrameState, MachineState, Pools, VmError,
};
use crate::values::{BoolValue, FunctionValue, IntValue};

verus! {

/// The registers of one frame: one bank per kind, sized by the function's local count.
pub struct Registers<'a> {
    pub ints: Vec<IntValue>,
    pub bools: Vec<BoolValue>,
    pub funcs: Vec<Option<FunctionValue<'a>>>,
}

/// One activation of a function.
pub struct CallFrame<'a> {
    pub locals: Registers<'a>,
    pub function: &'a Function,
    pub ip: usize,
    pub return_to_index: usize,
}

/// The engine: the program's pools, the call stack, and the result of the last
/// frame to return.
pub struct VM<'a> {
    pub globals: Vec<FunctionValue<'a>>,
    pub constants: Vec<IntValue>,
    pub call_stack: Vec<CallFrame<'a>>,
    /// Kept for hosts that track a position of their own; execution never reads it.
    pub current_index: usize,
    pub return_value: IntValue,
}

impl<'a> View for Registers<'a> {
    type V = BankState<'a>;

    open spec fn view(&self) -> BankState<'a> {
        BankState { ints: self.ints@, bools: self.bools@, funcs: self.funcs@ }
    }
}

impl<'a> View for CallFrame<'a> {
    type V = FrameState<'a>;

    open spec fn view(&self) -> FrameState<'a> {
        FrameState {
            locals: self.locals@,
            function: self.function,
            ip: self.ip,
            return_to_index: self.return_to_index,
        }
    }
}

/// The states of a stack of frames, bottom first.
pub open spec fn frame_states<'a>(stack: Seq<CallFrame<'a>>) -> Seq<FrameState<'a>> {
    Seq::new(stack.len(), |i: int| stack[i]@)
}

impl<'a> View for VM<'a> {
    type V = MachineState<'a>;

    open spec fn view(&self) -> MachineState<'a> {
        MachineState { frames: frame_states(self.call_stack@), return_value: self.return_value }
    }
}

proof fn lemma_frame_states_update<'a>(stack: Seq<CallFrame<'a>>, i: int, f: CallFrame<'a>)
    requires
        0 <= i < stack.len(),
    ensures
        frame_states(stack.update(i, f)) == frame_states(stack).update(i, f@),
{
    assert(frame_states(stack.update(i, f)) =~= frame_states(stack).update(i, f@));
}

proof fn lemma_frame_states_push<'a>(stack: Seq<CallFrame<'a>>, f: CallFrame<'a>)
    ensures
        frame_states(stack.push(f)) == frame_states(stack).push(f@),
{
    assert(frame_states(stack.push(f)) =~= frame_states(stack).push(f@));
}

proof fn lemma_frame_states_drop_last<'a>(stack: Seq<CallFrame<'a>>)
    requires
        stack.len() > 0,
    ensures
        frame_states(stack.drop_last()) == frame_states(stack).drop_last(),
{
    assert(frame_states(stack.drop_last()) =~= frame_states(stack).drop_last());
}

impl<'a> Registers<'a> {
    /// Registers shaped by `function`'s local count: integers 0, booleans false,
    /// function registers empty.
    pub fn new(function: &'a Function) -> (r: Registers<'a>)
        ensures
            r@ == fresh_bank::<'a>(function.local_count),
    {
        let ints = vec![IntValue { value: 0 }; function.local_count.ints];
        let bools = vec![BoolValue { value: false }; function.local_count.bools];
        let funcs: Vec<Option<FunctionValue<'a>>> = vec![None; function.local_count.funcs];
        let r = Registers { ints, bools, funcs };
        assert(r@.ints =~= fresh_bank::<'a>(function.local_count).ints);
        assert(r@.bools =~= fresh_bank::<'a>(function.local_count).bools);
        assert(r@.funcs =~= fresh_bank::<'a>(function.local_count).funcs);
        r
    }
}

/// An argument that cannot be read, or that finds no room in the target bank,
/// makes the whole argument list misfit.
proof fn lemma_argument_misfit<T>(src: Seq<T>, dst: Seq<T>, args: Seq<Argument>, i: int)
    requires
        0 <= i < args.len(),
        args[i].index >= src.len() || kind_sources(args.subrange(0, i), args[i].typ).len() >= dst.len(),
    ensures
        !sources_fit(src, dst, kind_sources(args, args[i].typ)),
{
    let kind = args[i].typ;
    lemma_kind_sources_next(args, i, kind);
    lemma_kind_sources_prefix(args, i + 1, kind);
    let c = kind_sources(args.subrange(0, i), kind).len() as int;
    assert(kind_sources(args.subrange(0, i + 1), kind)[c] == args[i].index);
    assert(kind_sources(args, kind)[c] == args[i].index);
}

impl<'a> Registers<'a> {
    /// Copies `arguments`, read from these registers, into `target_registers` under
    /// the calling convention: the k-th argument of each kind goes to index k of
    /// that kind's bank. Fails when an argument lies outside these registers or
    /// `target_registers` has too few of its kind.
    pub fn copy_arguments_to(&self, target_registers: &mut Registers<'a>, arguments: &[Argument]) -> (r: Result<
        (),
        VmError,
    >)
        ensures
            r is Ok <==> self@.arguments_fit(old(target_registers)@, arguments@),
            r is Ok ==> final(target_registers)@ == self@.copy_arguments(old(target_registers)@, arguments@),
            r is Err ==> r == Err::<(), VmError>(VmError::RegisterOutOfRange),
    {
        let ghost src = self@;
        let ghost dst = target_registers@;
        let ghost args = arguments@;
        let mut reg_counts = RegisterCounts { ints: 0, bools: 0, funcs: 0 };
        let mut i: usize = 0;
        proof {
            assert(args.subrange(0, 0) =~= Seq::<Argument>::empty());
            assert(src.copy_arguments(dst, args.subrange(0, 0)).ints =~= dst.ints);
            assert(src.copy_arguments(dst, args.subrange(0, 0)).bools =~= dst.bools);
            assert(src.copy_arguments(dst, args.subrange(0, 0)).funcs =~= dst.funcs);
        }
        while i < arguments.len()
            invariant
                0 <= i <= args.len(),
                args == arguments@,
                src == self@,
                dst == old(target_registers)@,
                src.arguments_fit(dst, args.subrange(0, i as int)),
                target_registers@ == src.copy_arguments(dst, args.subrange(0, i as int)),
                forall|k: RegisterType| #[trigger]
                    reg_counts.count(k) == kind_sources(args.subrange(0, i as int), k).len(),
            decreases args.len() - i,
        {
            let argument = arguments[i];
            proof {
                lemma_kind_sources_next(args, i as int, RegisterType::Int);
                lemma_kind_sources_next(args, i as int, RegisterType::Bool);
                lemma_kind_sources_next(args, i as int, RegisterType::Func);
                lemma_kind_sources_prefix(args, i + 1, argument.typ);
                assert(reg_counts.count(RegisterType::Int) == kind_sources(args.subrange(0, i as int), RegisterType::Int).len());
                assert(reg_counts.count(RegisterType::Bool) == kind_sources(args.subrange(0, i as int), RegisterType::Bool).len());
                assert(reg_counts.count(RegisterType::Func) == kind_sources(args.subrange(0, i as int), RegisterType::Func).len());
            }
            match argument.typ {
                RegisterType::Int => {
                    if argument.index >= self.ints.len() || reg_counts.ints >= target_registers.ints.len() {
                        proof {
                            lemma_argument_misfit(src.ints, dst.ints, args, i as int);
                        }
                        return Err(VmError::RegisterOutOfRange);
                    }
                    let slot = reg_counts.next_index(RegisterType::Int);
                    target_registers.ints[slot] = self.ints[argument.index];
                },
                RegisterType::Bool => {
                    if argument.index >= self.bools.len() || reg_counts.bools >= target_registers.bools.len() {
                        proof {
                            lemma_argument_misfit(src.bools, dst.bools, args, i as int);
                        }
                        return Err(VmError::RegisterOutOfRange);
                    }
                    let slot = reg_counts.next_index(RegisterType::Bool);
                    target_registers.bools[slot] = self.bools[argument.index];
                },
                RegisterType::Func => {
                    if argument.index >= self.funcs.len() || reg_counts.funcs >= target_registers.funcs.len() {
                        proof {
                            lemma_argument_misfit(src.funcs, dst.funcs, args, i as int);
                        }
                        return Err(VmError::RegisterOutOfRange);
                    }
                    let slot = reg_counts.next_index(RegisterType::Func);
                    target_registers.funcs[slot] = self.funcs[argument.index];
                },
            }
            proof {
                let before = args.subrange(0, i as int);
                let after = args.subrange(0, i + 1);
                assert(target_registers@.ints =~= src.copy_arguments(dst, after).ints);
                assert(target_registers@.bools =~= src.copy_arguments(dst, after).bools);
                assert(target_registers@.funcs =~= src.copy_arguments(dst, after).funcs);
            }
            i = i + 1;
        }
        proof {
            assert(args.subrange(0, args.len() as int) =~= args);
        }
        Ok(())
    }
}

impl<'a> CallFrame<'a> {
    /// A frame about to run `function` from its first instruction.
    pub fn new(function: &'a Function, locals: Registers<'a>, return_to_index: usize) -> (r: CallFrame<'a>)
        ensures
            r@ == FrameState::entry(function, locals@, return_to_index),
    {
        CallFrame { function, locals, return_to_index, ip: 0 }
    }
}

impl<'a> VM<'a> {
    /// The constant and global pools.
    pub open spec fn pools(&self) -> Pools<'a> {
        Pools { constants: self.constants@, globals: self.globals@ }
    }

    /// The running frame.
    pub(crate) fn call_frame(&mut self) -> (frame: &mut CallFrame<'a>)
        requires
            old(self).call_stack.len() > 0,
        ensures
            *frame == old(self).call_stack@.last(),
            final(self).call_stack@ == old(self).call_stack@.update(
                old(self).call_stack.len() - 1,
                *final(frame),
            ),
            final(self).constants == old(self).constants,
            final(self).globals == old(self).globals,
            final(self).return_value == old(self).return_value,
            final(self).current_index == old(self).current_index,
    {
        let size = self.call_stack.len() - 1;
        &mut self.call_stack[size]
    }

    /// Replaces the running frame's `ip`.
    pub(crate) fn set_ip(&mut self, ip: usize)
        requires
            old(self).call_stack.len() > 0,
        ensures
            final(self)@ == old(self)@.with_top(old(self)@.top().with_ip(ip)),
            final(self).pools() == old(self).pools(),
    {
        let ghost stack = self.call_stack@;
        self.call_frame().ip = ip;
        proof {
            lemma_frame_states_update(stack, stack.len() - 1, self.call_stack@.last());
        }
    }

    /// Writes integer register `index` of the running frame.
    fn set_int(&mut self, index: usize, value: IntValue)
        requires
            old(self).call_stack.len() > 0,
            index < old(self)@.top().locals.ints.len(),
        ensures
            final(self)@ == old(self)@.with_top_locals(old(self)@.top().locals.set_int(index, value)),
            final(self).pools() == old(self).pools(),
    {
        let ghost stack = self.call_stack@;
        self.call_frame().locals.ints[index] = value;
        proof {
            lemma_frame_states_update(stack, stack.len() - 1, self.call_stack@.last());
        }
    }

    /// Writes boolean register `index` of the running frame.
    fn set_bool(&mut self, index: usize, value: BoolValue)
        requires
            old(self).call_stack.len() > 0,
            index < old(self)@.top().locals.bools.len(),
        ensures
            final(self)@ == old(self)@.with_top_locals(old(self)@.top().locals.set_bool(index, value)),
            final(self).pools() == old(self).pools(),
    {
        let ghost stack = self.call_stack@;
        self.call_frame().locals.bools[index] = value;
        proof {
            lemma_frame_states_update(stack, stack.len() - 1, self.call_stack@.last());
        }
    }

    /// Pushes a frame for `function`, its registers filled with `arguments` read from
    /// the running frame; its return value will go to `result_index`.
    pub(crate) fn push_call_frame(&mut self, function: &'a Function, arguments: &[Argument], result_index: usize) -> (r:
        Result<(), VmError>)
        requires
            old(self).call_stack.len() > 0,
        ensures
            outcome_is(r, old(self)@, final(self)@, spec_push_frame(old(self)@, function, arguments@, result_index)),
            final(self).pools() == old(self).pools(),
    {
        let ghost stack = self.call_stack@;
        let mut locals = Registers::new(function);
        let top = self.call_stack.len() - 1;
        let copied = self.call_stack[top].locals.copy_arguments_to(&mut locals, arguments);
        if copied.is_err() {
            return Err(VmError::RegisterOutOfRange);
        }
        let frame = CallFrame::new(function, locals, result_index);
        let ghost pushed = frame;
        self.call_stack.push(frame);
        proof {
            lemma_frame_states_push(stack, pushed);
        }
        Ok(())
    }

    /// Pops the running frame and delivers its integer register `return_value_index`
    /// to the caller, or to `return_value` when it was the last frame.
    pub(crate) fn pop_call_frame(&mut self, return_value_index: usize) -> (r: Result<(), VmError>)
        requires
            old(self).call_stack.len() > 0,
        ensures
            outcome_is(r, old(self)@, final(self)@, spec_return_value(old(self)@, return_value_index)),
            final(self).pools() == old(self).pools(),
    {
        let ghost stack = self.call_stack@;
        let n = self.call_stack.len();
        let callee = &self.call_stack[n - 1];
        if return_value_index >= callee.locals.ints.len() {
            return Err(VmError::RegisterOutOfRange);
        }
        let return_value = callee.locals.ints[return_value_index];
        let return_to_index = callee.return_to_index;
        if n > 1 && return_to_index >= self.call_stack[n - 2].locals.ints.len() {
            return Err(VmError::RegisterOutOfRange);
        }
        self.call_stack.pop();
        proof {
            lemma_frame_states_drop_last(stack);
        }
        if self.call_stack.len() == 0 {
            self.return_value = return_value;
            return Ok(());
        }
        self.set_int(return_to_index, return_value);
        Ok(())
    }

    /// `ReturnValue { index }`.
    pub(crate) fn opcode_return_value(&mut self, index: usize) -> (r: Result<(), VmError>)
        requires
            old(self).call_stack.len() > 0,
        ensures
            outcome_is(r, old(self)@, final(self)@, spec_return_value(old(self)@, index)),
            final(self).pools() == old(self).pools(),
    {
        self.pop_call_frame(index)
    }

    /// `Jump { target }`.
    pub(crate) fn opcode_jump(&mut self, target: usize)
        requires
            old(self).call_stack.len() > 0,
        ensures
            final(self)@ == spec_jump(old(self)@, target),
            final(self).pools() == old(self).pools(),
    {
        self.set_ip(target);
    }

    /// `JumpIfFalse { condition, target }`: jumps when the boolean register is false.
    pub(crate) fn opcode_jump_if_false(&mut self, condition: usize, target: usize) -> (r: Result<(), VmError>)
        requires
            old(self).call_stack.len() > 0,
        ensures
            outcome_is(r, old(self)@, final(self)@, spec_jump_if_false(old(self)@, condition, target)),
            final(self).pools() == old(self).pools(),
    {
        let top = self.call_stack.len() - 1;
        let bools = &self.call_stack[top].locals.bools;
        if condition >= bools.len() {
            return Err(VmError::RegisterOutOfRange);
        }
        if !bools[condition].value {
            self.set_ip(target);
        }
        Ok(())
    }

    /// `IntIntBinOp`: integer register `result` gets the wrapping sum, difference or product.
    pub(crate) fn opcode_int_arithmetic(
        &mut self,
        typ: IntBinOpType,
        left_operand: usize,
        right_operand: usize,
        result: usize,
    ) -> (r: Result<(), VmError>)
        requires
            old(self).call_stack.len() > 0,
        ensures
            outcome_is(
                r,
                old(self)@,
                final(self)@,
                spec_int_arithmetic(old(self)@, typ, left_operand, right_operand, result),
            ),
            final(self).pools() == old(self).pools(),
    {
        let top = self.call_stack.len() - 1;
        let ints = &self.call_stack[top].locals.ints;
        if left_operand >= ints.len() || right_operand >= ints.len() || result >= ints.len() {
            return Err(VmError::RegisterOutOfRange);
        }
        let value = typ.apply(&ints[left_operand], &ints[right_operand]);
        self.set_int(result, value);
        Ok(())
    }

    /// `IntBoolBinOp`: boolean register `result` gets the comparison of two integer registers.
    pub(crate) fn opcode_int_compare(
        &mut self,
        typ: CmpBinOpType,
        left_operand: usize,
        right_operand: usize,
        result: usize,
    ) -> (r: Result<(), VmError>)
        requires
            old(self).call_stack.len() > 0,
        ensures
            outcome_is(
                r,
                old(self)@,
                final(self)@,
                spec_int_compare(old(self)@, typ, left_operand, right_operand, result),
            ),
            final(self).pools() == old(self).pools(),
    {
        let top = self.call_stack.len() - 1;
        let locals = &self.call_stack[top].locals;
        if left_operand >= locals.ints.len() || right_operand >= locals.ints.len() || result
            >= locals.bools.len() {
            return Err(VmError::RegisterOutOfRange);
        }
        let value = typ.apply(&locals.ints[left_operand], &locals.ints[right_operand]);
        self.set_bool(result, value);
        Ok(())
    }

    /// `IntMove { from, to }`.
    pub(crate) fn opcode_int_move(&mut self, from: usize, to: usize) -> (r: Result<(), VmError>)
        requires
            old(self).call_stack.len() > 0,
        ensures
            outcome_is(r, old(self)@, final(self)@, spec_int_move(old(self)@, from, to)),
            final(self).pools() == old(self).pools(),
    {
        let top = self.call_stack.len() - 1;
        let ints = &self.call_stack[top].locals.ints;
        if from >= ints.len() || to >= ints.len() {
            return Err(VmError::RegisterOutOfRange);
        }
        let value = ints[from];
        self.set_int(to, value);
        Ok(())
    }

    /// `IntConstantLoad { index, target }`: copies a constant of the pool into a register.
    pub(crate) fn opcode_int_const_load(&mut self, index: usize, target: usize) -> (r: Result<(), VmError>)
        requires
            old(self).call_stack.len() > 0,
        ensures
            outcome_is(r, old(self)@, final(self)@, spec_int_const_load(old(self).pools(), old(self)@, index, target)),
            final(self).pools() == old(self).pools(),
    {
        if index >= self.constants.len() {
            return Err(VmError::ConstantOutOfRange);
        }
        let constant = self.constants[index];
        let top = self.call_stack.len() - 1;
        if target >= self.call_stack[top].locals.ints.len() {
            return Err(VmError::RegisterOutOfRange);
        }
        self.set_int(target, constant);
        Ok(())
    }

    /// `True { index }`.
    pub(crate) fn opcode_true(&mut self, index: usize) -> (r: Result<(), VmError>)
        requires
            old(self).call_stack.len() > 0,
        ensures
            outcome_is(r, old(self)@, final(self)@, spec_bool_load(old(self)@, index, true)),
            final(self).pools() == old(self).pools(),
    {
        let top = self.call_stack.len() - 1;
        if index >= self.call_stack[top].locals.bools.len() {
            return Err(VmError::RegisterOutOfRange);
        }
        self.set_bool(index, BoolValue { value: true });
        Ok(())
    }

    /// `False { index }`.
    pub(crate) fn opcode_false(&mut self, index: usize) -> (r: Result<(), VmError>)
        requires
            old(self).call_stack.len() > 0,
        ensures
            outcome_is(r, old(self)@, final(self)@, spec_bool_load(old(self)@, index, false)),
            final(self).pools() == old(self).pools(),
    {
        let top = self.call_stack.len() - 1;
        if index >= self.call_stack[top].locals.bools.len() {
            return Err(VmError::RegisterOutOfRange);
        }
        self.set_bool(index, BoolValue { value: false });
        Ok(())
    }

    /// `GlobalFuncLoad { index, result }`: puts a global function handle into a function register.
    pub(crate) fn opcode_global_func_load(&mut self, index: usize, result: usize) -> (r: Result<(), VmError>)
        requires
            old(self).call_stack.len() > 0,
        ensures
            outcome_is(r, old(self)@, final(self)@, spec_global_func_load(old(self).pools(), old(self)@, index, result)),
            final(self).pools() == old(self).pools(),
    {
        if index >= self.globals.len() {
            return Err(VmError::GlobalOutOfRange);
        }
        let value = self.globals[index];
        let top = self.call_stack.len() - 1;
        if result >= self.call_stack[top].locals.funcs.len() {
            return Err(VmError::RegisterOutOfRange);
        }
        let ghost stack = self.call_stack@;
        self.call_frame().locals.funcs[result] = Some(value);
        proof {
            lemma_frame_states_update(stack, stack.len() - 1, self.call_stack@.last());
        }
        Ok(())
    }

    /// `Call { func_index, arguments, result }`: pushes a frame for the function held in
    /// function register `func_index`.
    pub(crate) fn opcode_call(&mut self, func_index: usize, arguments: &[Argument], result: usize) -> (r: Result<
        (),
        VmError,
    >)
        requires
            old(self).call_stack.len() > 0,
        ensures
            outcome_is(r, old(self)@, final(self)@, spec_call(old(self)@, func_index, arguments@, result)),
            final(self).pools() == old(self).pools(),
    {
        let top = self.call_stack.len() - 1;
        let funcs = &self.call_stack[top].locals.funcs;
        if func_index >= funcs.len() {
            return Err(VmError::RegisterOutOfRange);
        }
        match funcs[func_index] {
            None => Err(VmError::EmptyFunctionRegister),
            Some(value) => self.push_call_frame(value.function, arguments, result),
        }
    }
}

impl<'a> VM<'a> {
    /// Runs the dispatch loop for at most `steps` instructions: while a frame is
    /// running and its `ip` is within its code, fetch the instruction, move `ip` past
    /// it, and execute it. `Ok` once the stack is empty or the running frame has run
    /// off the end of its code.
    pub fn run(&mut self, steps: u64) -> (r: Result<(), VmError>)
        ensures
            (final(self)@, r) == run_spec(old(self).pools(), old(self)@, steps as nat),
            final(self).pools() == old(self).pools(),
    {
        let mut remaining = steps;
        loop
            invariant
                self.pools() == old(self).pools(),
                run_spec(self.pools(), self@, remaining as nat) == run_spec(old(self).pools(), old(self)@, steps as nat),
            decreases remaining,
        {
            if self.call_stack.len() == 0 {
                return Ok(());
            }
            let top = self.call_stack.len() - 1;
            let function = self.call_stack[top].function;
            let ip = self.call_stack[top].ip;
            if ip >= function.code.len() {
                return Ok(());
            }
            if remaining == 0 {
                return Err(VmError::StepLimitReached);
            }
            self.set_ip(ip + 1);
            remaining = remaining - 1;
            let executed = function.code[ip].execute(self);
            if executed.is_err() {
                return executed;
            }
        }
    }

    /// Runs `function` on `argument`: a frame with fresh registers and `argument` in
    /// integer register 0 is pushed and run until the stack empties; the value the
    /// last frame returned is the result. Fails when the function has no integer
    /// register, or with the fault that stopped the run. The run may take up to
    /// `u64::MAX` steps.
    pub fn invoke(&mut self, function: &'a Function, argument: IntValue) -> (r: Result<IntValue, VmError>)
        ensures
            (final(self)@, r) == invoke_spec(old(self).pools(), old(self)@, function, argument),
            final(self).pools() == old(self).pools(),
    {
        let mut locals = Registers::new(function);
        if locals.ints.len() == 0 {
            return Err(VmError::RegisterOutOfRange);
        }
        locals.ints[0] = argument;
        let frame = CallFrame::new(function, locals, 0);
        let ghost stack = self.call_stack@;
        let ghost pushed = frame;
        self.call_stack.push(frame);
        proof {
            lemma_frame_states_push(stack, pushed);
        }
        match self.run(u64::MAX) {
            Ok(()) => Ok(self.return_value),
            Err(e) => Err(e),
        }
    }
}

} // verus!
