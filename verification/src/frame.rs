//! The execution frame: operand stack, block stack, instruction pointer, and
//! the dispatch loop with its block machine and exception unwinder.

use vstd::prelude::*;
use crate::bytecode::{
    CodeObject, Instruction, Label, NameScope, Constant, BinaryOperator, UnaryOperator,
    ComparisonOperator, CallType, ConversionFlag, FunctionOpArg, Location,
};
use crate::scope::Scope;
use crate::value::{
    Value, Obj, ExcKind, FnData, BuiltinKind, val_wf, val_eq, vals_wf, obj_wf, assoc_get, seq_contains,
    scope_entries_wf, lemma_val_wf_mono, lemma_vals_wf_mono, value_eq,
};
use crate::vm::{
    Vm, FuncArgs, heap_extended, heap_same_except, regs_logs_unchanged, vm_unchanged, is_exc,
    is_exc_kind, is_ctx, fresh_exc, fresh_exc_msg, spec_boolval, spec_elements,
    spec_iter, spec_binop, spec_compare, spec_unop, spec_membership, spec_getattr,
    OpOut, norm_index,
};

verus! {

/// The type of a control-flow block on the block stack.
#[derive(Debug)]
pub enum BlockType {
    Loop { start: Label, end: Label },
    TryExcept { handler: Label },
    With { end: Label, context_manager: Value },
    ExceptHandler,
}

/// A block: its type together with the operand-stack height at entry.
#[derive(Debug)]
pub struct Block {
    /// The type of block.
    pub typ: BlockType,
    /// The level of the value stack when the block was entered.
    pub level: usize,
}

impl Clone for BlockType {
    fn clone(&self) -> (res: Self)
        ensures
            res == *self,
    {
        match self {
            BlockType::Loop { start, end } => BlockType::Loop { start: *start, end: *end },
            BlockType::TryExcept { handler } => BlockType::TryExcept { handler: *handler },
            BlockType::With { end, context_manager } => BlockType::With {
                end: *end,
                context_manager: context_manager.clone(),
            },
            BlockType::ExceptHandler => BlockType::ExceptHandler,
        }
    }
}

impl Clone for Block {
    fn clone(&self) -> (res: Self)
        ensures
            res == *self,
    {
        Block { typ: self.typ.clone(), level: self.level }
    }
}

/// Running a frame ends in one of these.
#[derive(Debug, PartialEq, Eq)]
pub enum ExecutionResult {
    Return(Value),
    Yield(Value),
}

/// A corrupt-code or corrupt-state condition on which dispatch aborts
/// instead of raising a catchable exception.
#[derive(Clone, Copy, PartialEq, Eq, Structural, Debug)]
pub enum FatalReason {
    StackUnderflow,
    BadRotation,
    MissingLabel,
    BadInstructionPointer,
    NoBlock,
    ExpectedWithBlock,
    ExpectedExceptHandler,
    ExceptionRegisterEmpty,
    NotInLoop,
    ExitErrorInContinue,
    RaiseArgcInvalid,
    InPlaceSubscript,
    BadSliceArity,
    StepBudgetExhausted,
    BadOperandType,
    BlockStackCorrupt,
}

/// What interrupts straight-line dispatch: a raised exception value, or a
/// fatal interpreter-bug state.
#[derive(Debug)]
pub enum Raised {
    Exception(Value),
    Fatal(FatalReason),
}

/// A single instruction's outcome: continue, a terminal result, or a raise.
pub type FrameResult = Result<Option<ExecutionResult>, Raised>;

/// What `run` and `throw` surface when the frame does not finish normally.
#[derive(Debug, PartialEq, Eq)]
pub enum FrameError {
    Uncaught(Value),
    Fatal(FatalReason),
}

/// How many `ExceptHandler` blocks the block stack holds.
pub open spec fn num_handlers(s: Seq<Block>) -> int
    decreases s.len(),
{
    if s.len() == 0 {
        0
    } else {
        num_handlers(s.drop_last()) + if s.last().typ is ExceptHandler {
            1int
        } else {
            0int
        }
    }
}

/// How many `With` blocks the block stack holds.
pub open spec fn num_withs(s: Seq<Block>) -> int
    decreases s.len(),
{
    if s.len() == 0 {
        0
    } else {
        num_withs(s.drop_last()) + if s.last().typ is With {
            1int
        } else {
            0int
        }
    }
}

pub proof fn lemma_counts_push(s: Seq<Block>, b: Block)
    ensures
        num_handlers(s.push(b)) == num_handlers(s) + if b.typ is ExceptHandler {
            1int
        } else {
            0int
        },
        num_withs(s.push(b)) == num_withs(s) + if b.typ is With {
            1int
        } else {
            0int
        },
{
    assert(s.push(b).drop_last() =~= s);
    assert(s.push(b).last() == b);
}

pub proof fn lemma_counts_nonneg(s: Seq<Block>)
    ensures
        num_handlers(s) >= 0,
        num_withs(s) >= 0,
    decreases s.len(),
{
    if s.len() > 0 {
        lemma_counts_nonneg(s.drop_last());
    }
}

/// Every `With` block holds a reference to a context manager.
pub open spec fn blocks_wf(s: Seq<Block>, h: Seq<Obj>) -> bool {
    forall|i: int|
        0 <= i < s.len() ==> match (#[trigger] s[i]).typ {
            BlockType::With { context_manager, .. } => is_ctx(h, context_manager),
            _ => true,
        }
}

pub proof fn lemma_blocks_wf_extend(s: Seq<Block>, h0: Seq<Obj>, h1: Seq<Obj>)
    requires
        blocks_wf(s, h0),
        heap_extended(h0, h1),
    ensures
        blocks_wf(s, h1),
{
}

/// A heap change that leaves every context-manager slot in place preserves
/// the block stack's well-formedness.
pub proof fn lemma_blocks_wf_same_except(s: Seq<Block>, h0: Seq<Obj>, h1: Seq<Obj>, i: int)
    requires
        blocks_wf(s, h0),
        heap_same_except(h0, h1, i),
        0 <= i < h0.len() ==> !(h0[i] matches Obj::CtxManager(_)) || h1[i] == h0[i],
    ensures
        blocks_wf(s, h1),
{
}


/// Truncate an operand stack to a block's recorded level, as `pop_block`
/// does: a no-op when the stack is already at or below the level.
pub open spec fn level_trunc(stack: Seq<Value>, level: int) -> Seq<Value> {
    if level <= stack.len() {
        stack.take(level)
    } else {
        stack
    }
}

/// The operand stack left after popping every given block, innermost first.
pub open spec fn trunc_all(stack: Seq<Value>, blocks: Seq<Block>) -> Seq<Value>
    decreases blocks.len(),
{
    if blocks.len() == 0 {
        stack
    } else {
        trunc_all(level_trunc(stack, blocks.last().level as int), blocks.drop_last())
    }
}

/// Whether `v` references a context manager whose `__exit__` raises.
pub open spec fn cm_exit_raises(h: Seq<Obj>, v: Value) -> bool {
    match v {
        Value::Ref(i) => i < h.len() && (match h[i as int] {
            Obj::CtxManager(c) => c.exit_raises is Some,
            _ => false,
        }),
        _ => false,
    }
}

/// Whether `v` references a context manager whose `__exit__` returns a
/// truthy value (the suppression signal).
pub open spec fn cm_exit_truthy(h: Seq<Obj>, v: Value) -> bool {
    match v {
        Value::Ref(i) => i < h.len() && (match h[i as int] {
            Obj::CtxManager(c) => spec_boolval(h, c.exit_value),
            _ => false,
        }),
        _ => false,
    }
}

/// No context manager held by a `With` block on this stack raises from its
/// `__exit__`.
pub open spec fn no_exit_raises(blocks: Seq<Block>, h: Seq<Obj>) -> bool {
    forall|i: int|
        0 <= i < blocks.len() ==> match (#[trigger] blocks[i]).typ {
            BlockType::With { context_manager, .. } => !cm_exit_raises(h, context_manager),
            _ => true,
        }
}

/// The `__exit__(None, None, None)` record a popped block contributes.
pub open spec fn none_exit_call(b: Block) -> Seq<crate::vm::ExitCall> {
    match b.typ {
        BlockType::With { context_manager, .. } => match context_manager {
            Value::Ref(i) => seq![
                crate::vm::ExitCall {
                    cm: i,
                    exc_type: Value::PyNone,
                    exc_val: Value::PyNone,
                    exc_tb: Value::PyNone,
                },
            ],
            _ => Seq::<crate::vm::ExitCall>::empty(),
        },
        _ => Seq::<crate::vm::ExitCall>::empty(),
    }
}

/// The `__exit__(None, None, None)` records of a no-exception unwind over
/// these blocks, innermost first.
pub open spec fn none_exit_calls(blocks: Seq<Block>) -> Seq<crate::vm::ExitCall>
    decreases blocks.len(),
{
    if blocks.len() == 0 {
        Seq::<crate::vm::ExitCall>::empty()
    } else {
        none_exit_call(blocks.last()) + none_exit_calls(blocks.drop_last())
    }
}

/// Whether some `Loop` block is on the stack.
pub open spec fn has_loop(blocks: Seq<Block>) -> bool
    decreases blocks.len(),
{
    if blocks.len() == 0 {
        false
    } else if blocks.last().typ is Loop {
        true
    } else {
        has_loop(blocks.drop_last())
    }
}

/// The block stack cut back to (and including) the innermost `Loop` block.
pub open spec fn loop_prefix(blocks: Seq<Block>) -> Seq<Block>
    decreases blocks.len(),
{
    if blocks.len() == 0 {
        blocks
    } else if blocks.last().typ is Loop {
        blocks
    } else {
        loop_prefix(blocks.drop_last())
    }
}

/// Unfold a no-exception unwind at the outermost (deepest) block.
pub proof fn lemma_none_calls_front(s: Seq<Block>)
    requires
        s.len() > 0,
    ensures
        none_exit_calls(s) == none_exit_calls(s.skip(1)) + none_exit_call(s[0]),
    decreases s.len(),
{
    if s.len() == 1 {
        assert(s.drop_last() =~= s.skip(1));
        assert(none_exit_calls(s) =~= none_exit_calls(s.skip(1)) + none_exit_call(s[0]));
    } else {
        lemma_none_calls_front(s.drop_last());
        assert(s.drop_last().skip(1) =~= s.skip(1).drop_last());
        assert(s.skip(1).last() == s.last());
        assert(none_exit_call(s.last()) + (none_exit_calls(s.skip(1).drop_last())
            + none_exit_call(s[0])) =~= (none_exit_call(s.last()) + none_exit_calls(
            s.skip(1).drop_last(),
        )) + none_exit_call(s[0]));
    }
}

/// Unfold an iterated level truncation at the outermost (deepest) block.
pub proof fn lemma_trunc_all_front(stack: Seq<Value>, s: Seq<Block>)
    requires
        s.len() > 0,
    ensures
        trunc_all(stack, s) == level_trunc(trunc_all(stack, s.skip(1)), s[0].level as int),
    decreases s.len(),
{
    if s.len() == 1 {
        assert(s.drop_last() =~= s.skip(1));
        assert(trunc_all(stack, s) == trunc_all(
            level_trunc(stack, s.last().level as int),
            s.drop_last(),
        ));
        assert(trunc_all(stack, s.skip(1)) == stack);
        assert(trunc_all(level_trunc(stack, s.last().level as int), s.drop_last())
            == level_trunc(stack, s.last().level as int));
        assert(trunc_all(stack, s) == level_trunc(trunc_all(stack, s.skip(1)), s[0].level as int));
    } else {
        lemma_trunc_all_front(level_trunc(stack, s.last().level as int), s.drop_last());
        assert(s.drop_last().skip(1) =~= s.skip(1).drop_last());
        assert(s.skip(1).last() == s.last());
        assert(trunc_all(stack, s) == trunc_all(
            level_trunc(stack, s.last().level as int),
            s.drop_last(),
        ));
        assert(trunc_all(stack, s.skip(1)) == trunc_all(
            level_trunc(stack, s.skip(1).last().level as int),
            s.skip(1).drop_last(),
        ));
        assert(level_trunc(stack, s.skip(1).last().level as int) == level_trunc(
            stack,
            s.last().level as int,
        ));
        assert(s.drop_last()[0] == s[0]);
        assert(trunc_all(level_trunc(stack, s.last().level as int), s.drop_last())
            == level_trunc(
            trunc_all(
                level_trunc(stack, s.last().level as int),
                s.drop_last().skip(1),
            ),
            s[0].level as int,
        ));
        assert(trunc_all(
            level_trunc(stack, s.last().level as int),
            s.drop_last().skip(1),
        ) == trunc_all(level_trunc(stack, s.last().level as int), s.skip(1).drop_last()));
    }
}

/// Unfold the block counts at the outermost (deepest) block.
pub proof fn lemma_counts_front(s: Seq<Block>)
    requires
        s.len() > 0,
    ensures
        num_handlers(s) == num_handlers(s.skip(1)) + if s[0].typ is ExceptHandler {
            1int
        } else {
            0int
        },
        num_withs(s) == num_withs(s.skip(1)) + if s[0].typ is With {
            1int
        } else {
            0int
        },
    decreases s.len(),
{
    if s.len() == 1 {
        assert(s.drop_last() =~= s.skip(1));
        lemma_counts_nonneg(s.skip(1));
    } else {
        lemma_counts_front(s.drop_last());
        assert(s.drop_last().skip(1) =~= s.skip(1).drop_last());
        assert(s.skip(1).last() == s.last());
    }
}

/// Where the exception unwinder stops on this block stack.
pub enum UnwindOutcome {
    /// A `TryExcept` at this index catches; dispatch resumes at `handler`.
    CaughtAt { index: int, handler: Label },
    /// A `With` at this index suppresses; dispatch resumes at `end`.
    SuppressedAt { index: int, end: Label },
    /// No block handles; the exception escapes the frame.
    Escaped,
}

/// The §-style walk of the exception unwinder, read off the block stack and
/// the recorded context-manager behavior: the nearest try block catches, a
/// truthy non-raising `__exit__` suppresses, everything else is popped.
pub open spec fn unwind_decision(blocks: Seq<Block>, h: Seq<Obj>) -> UnwindOutcome
    decreases blocks.len(),
{
    if blocks.len() == 0 {
        UnwindOutcome::Escaped
    } else {
        match blocks.last().typ {
            BlockType::TryExcept { handler } => UnwindOutcome::CaughtAt {
                index: blocks.len() - 1,
                handler,
            },
            BlockType::With { end, context_manager } => if !cm_exit_raises(h, context_manager)
                && cm_exit_truthy(h, context_manager) {
                UnwindOutcome::SuppressedAt { index: blocks.len() - 1, end }
            } else {
                unwind_decision(blocks.drop_last(), h)
            },
            _ => unwind_decision(blocks.drop_last(), h),
        }
    }
}

/// Boolean coercion only reads the referenced object, so it is stable under
/// heap growth.
pub proof fn lemma_boolval_extend(h0: Seq<Obj>, h1: Seq<Obj>, v: Value)
    requires
        heap_extended(h0, h1),
        val_wf(v, h0.len()),
    ensures
        spec_boolval(h1, v) == spec_boolval(h0, v),
{
}

/// The unwind decision and the raising/truthiness of the held managers only
/// read objects the blocks reference, so they are stable under heap growth.
pub proof fn lemma_unwind_specs_extend(blocks: Seq<Block>, h0: Seq<Obj>, h1: Seq<Obj>)
    requires
        heap_extended(h0, h1),
        blocks_wf(blocks, h0),
        crate::value::heap_wf(h0),
    ensures
        unwind_decision(blocks, h1) == unwind_decision(blocks, h0),
        no_exit_raises(blocks, h1) == no_exit_raises(blocks, h0),
    decreases blocks.len(),
{
    assert forall|i: int| 0 <= i < blocks.len() implies (match (#[trigger] blocks[i]).typ {
        BlockType::With { context_manager, .. } => cm_exit_raises(h1, context_manager)
            == cm_exit_raises(h0, context_manager) && cm_exit_truthy(h1, context_manager)
            == cm_exit_truthy(h0, context_manager),
        _ => true,
    }) by {
        match blocks[i].typ {
            BlockType::With { context_manager, .. } => {
                match context_manager {
                    Value::Ref(ci) => {
                        if ci < h0.len() {
                            assert(h1[ci as int] == h0[ci as int]);
                            assert(obj_wf(h0[ci as int], h0.len()));
                            match h0[ci as int] {
                                Obj::CtxManager(c) => {
                                    lemma_boolval_extend(h0, h1, c.exit_value);
                                },
                                _ => {},
                            }
                        }
                    },
                    _ => {},
                }
            },
            _ => {},
        }
    }
    if blocks.len() > 0 {
        assert forall|i: int| 0 <= i < blocks.drop_last().len() implies (
        #[trigger] blocks.drop_last()[i]) == blocks[i] by {}
        lemma_unwind_specs_extend(blocks.drop_last(), h0, h1);
    }
}

/// A frame's heap-referencing parts stay well formed when the heap grows.
pub proof fn lemma_frame_wf_grow(f: Frame, vm0: Vm, vm1: Vm)
    requires
        vals_wf(f.stack@, vm0.hlen()),
        blocks_wf(f.blocks@, vm0.heap@),
        scope_entries_wf(f.scope, vm0.hlen()),
        heap_extended(vm0.heap@, vm1.heap@),
    ensures
        vals_wf(f.stack@, vm1.hlen()),
        blocks_wf(f.blocks@, vm1.heap@),
        scope_entries_wf(f.scope, vm1.hlen()),
{
    lemma_vals_wf_mono(f.stack@, vm0.hlen(), vm1.hlen());
    crate::value::lemma_scope_wf_mono(f.scope, vm0.hlen(), vm1.hlen());
    lemma_blocks_wf_extend(f.blocks@, vm0.heap@, vm1.heap@);
}

/// The code object is internally consistent: one source location per
/// instruction.
pub open spec fn code_wf(c: CodeObject) -> bool {
    c.locations@.len() == c.instructions@.len()
}

/// A frame execution state for one invocation of a code object.
#[derive(Debug)]
pub struct Frame {
    pub code: CodeObject,
    /// The main data stack of the stack machine.
    pub stack: Vec<Value>,
    /// Block frames, for controlling loops and exceptions.
    pub blocks: Vec<Block>,
    /// Variables.
    pub scope: Scope,
    /// Index of the next instruction to run.
    pub lasti: usize,
}

impl Frame {
    /// Everything the frame holds points into the machine's heap, and there
    /// is one register for every live `ExceptHandler` block.
    pub open spec fn wf(&self, vm: Vm) -> bool {
        &&& vals_wf(self.stack@, vm.hlen())
        &&& blocks_wf(self.blocks@, vm.heap@)
        &&& scope_entries_wf(self.scope, vm.hlen())
        &&& code_wf(self.code)
        &&& num_handlers(self.blocks@) <= vm.exc_registers@.len()
        &&& vm.wf()
    }

    /// The frame's code never changes and the machine's heap and module table
    /// only evolve monotonically under any frame step.
    pub open spec fn step_basics(pre_f: Frame, pre_vm: Vm, post_f: Frame, post_vm: Vm) -> bool {
        &&& post_f.code == pre_f.code
        &&& pre_vm.hlen() <= post_vm.hlen()
        &&& post_vm.modules@ == pre_vm.modules@
    }

    /// The pairing discipline: every `ExceptHandler` block owns exactly one
    /// pushed exception register, registers below the owned ones are never
    /// touched, and every `With` block owns exactly one pending
    /// `__exit__` for a logged `__enter__`.
    pub open spec fn step_account(pre_f: Frame, pre_vm: Vm, post_f: Frame, post_vm: Vm) -> bool {
        &&& post_vm.exc_registers@.len() - num_handlers(post_f.blocks@) == pre_vm.exc_registers@.len()
            - num_handlers(pre_f.blocks@)
        &&& post_vm.exc_registers@.take(
            pre_vm.exc_registers@.len() - num_handlers(pre_f.blocks@),
        ) == pre_vm.exc_registers@.take(
            pre_vm.exc_registers@.len() - num_handlers(pre_f.blocks@),
        )
        &&& post_vm.enter_log@.len() - post_vm.exit_log@.len() - num_withs(post_f.blocks@)
            == pre_vm.enter_log@.len() - pre_vm.exit_log@.len() - num_withs(pre_f.blocks@)
    }

    /// A new frame: empty stacks, pointer at zero, borrowing the scope.
    pub fn new(code: CodeObject, scope: Scope) -> (r: Frame)
        requires
            code_wf(code),
        ensures
            r.code == code,
            r.scope == scope,
            r.stack@.len() == 0,
            r.blocks@.len() == 0,
            r.lasti == 0,
    {
        Frame { code, stack: Vec::new(), blocks: Vec::new(), scope, lasti: 0 }
    }

    /// Fetch the instruction under the pointer and advance the pointer.
    pub fn fetch_instruction(&mut self) -> (r: &Instruction)
        requires
            old(self).lasti < old(self).code.instructions@.len(),
        ensures
            r == &old(self).code.instructions@[old(self).lasti as int],
            final(self).lasti == old(self).lasti + 1,
            final(self).code == old(self).code,
            final(self).stack@ == old(self).stack@,
            final(self).blocks@ == old(self).blocks@,
            final(self).scope == old(self).scope,
    {
        let n = self.code.instructions.len();
        let i = self.lasti;
        assert(i < n);
        self.lasti = i + 1;
        &self.code.instructions[i]
    }

    /// The source location of the instruction under the pointer.
    pub fn get_lineno(&self) -> (r: Location)
        requires
            self.lasti < self.code.locations@.len(),
        ensures
            r == self.code.locations@[self.lasti as int],
    {
        self.code.locations[self.lasti]
    }

    /// Push a value onto the operand stack.
    pub fn push_value(&mut self, obj: Value)
        ensures
            final(self).stack@ == old(self).stack@.push(obj),
            final(self).code == old(self).code,
            final(self).blocks@ == old(self).blocks@,
            final(self).scope == old(self).scope,
            final(self).lasti == old(self).lasti,
    {
        self.stack.push(obj);
    }

    /// Pop the operand stack; `None` marks the underflow that dispatch
    /// treats as corrupt code.
    fn pop_value(&mut self) -> (r: Option<Value>)
        ensures
            final(self).code == old(self).code,
            final(self).blocks@ == old(self).blocks@,
            final(self).scope == old(self).scope,
            final(self).lasti == old(self).lasti,
            old(self).stack@.len() > 0 ==> r == Option::Some(old(self).stack@.last())
                && final(self).stack@ == old(self).stack@.drop_last(),
            old(self).stack@.len() == 0 ==> r is None && final(self).stack@ == old(self).stack@,
    {
        self.stack.pop()
    }

    /// Pop the top `count` values, preserving their stack order.
    fn pop_multiple(&mut self, count: usize) -> (r: Option<Vec<Value>>)
        ensures
            final(self).code == old(self).code,
            final(self).blocks@ == old(self).blocks@,
            final(self).scope == old(self).scope,
            final(self).lasti == old(self).lasti,
            old(self).stack@.len() >= count ==> (match r {
                Option::Some(vs) => vs@ == old(self).stack@.skip(
                    old(self).stack@.len() - count as int,
                ) && final(self).stack@ == old(self).stack@.take(
                    old(self).stack@.len() - count as int,
                ),
                Option::None => false,
            }),
            old(self).stack@.len() < count ==> r is None && final(self).stack@ == old(self).stack@,
    {
        let n = self.stack.len();
        if n < count {
            return Option::None;
        }
        let mut out: Vec<Value> = Vec::new();
        let base = n - count;
        let mut k = base;
        while k < n
            invariant
                base <= k <= n,
                base == n - count,
                count <= n,
                n == self.stack@.len(),
                self.stack@ == old(self).stack@,
                out@.len() == k - base,
                forall|j: int| 0 <= j < out@.len() ==> #[trigger] out@[j] == self.stack@[base + j],
            decreases n - k,
        {
            out.push(self.stack[k].clone());
            k = k + 1;
        }
        self.stack.truncate(n - count);
        proof {
            assert(out@ =~= old(self).stack@.skip(old(self).stack@.len() - count as int));
            assert(final(self).stack@ =~= old(self).stack@.take(
                old(self).stack@.len() - count as int,
            ));
        }
        Option::Some(out)
    }

    /// A copy of the top of the stack.
    fn last_value(&self) -> (r: Option<Value>)
        ensures
            self.stack@.len() > 0 ==> r == Option::Some(self.stack@.last()),
            self.stack@.len() == 0 ==> r is None,
    {
        if self.stack.len() > 0 {
            Option::Some(self.stack[self.stack.len() - 1].clone())
        } else {
            Option::None
        }
    }

    /// A copy of the value `depth` slots below the top (not counting the top).
    fn nth_value(&self, depth: usize) -> (r: Option<Value>)
        ensures
            self.stack@.len() > depth ==> r == Option::Some(
                self.stack@[self.stack@.len() - depth - 1],
            ),
            self.stack@.len() <= depth ==> r is None,
    {
        if self.stack.len() > depth {
            Option::Some(self.stack[self.stack.len() - depth - 1].clone())
        } else {
            Option::None
        }
    }

    /// Push a block recording the current stack height.
    fn push_block(&mut self, typ: BlockType)
        ensures
            final(self).blocks@ == old(self).blocks@.push(
                Block { typ, level: old(self).stack@.len() as usize },
            ),
            final(self).code == old(self).code,
            final(self).stack@ == old(self).stack@,
            final(self).scope == old(self).scope,
            final(self).lasti == old(self).lasti,
    {
        let level = self.stack.len();
        self.blocks.push(Block { typ, level });
    }

    /// Pop the top block and truncate the operand stack to its recorded
    /// level — the mechanism that restores stack balance on block exit.
    fn pop_block(&mut self) -> (r: Option<Block>)
        ensures
            final(self).code == old(self).code,
            final(self).scope == old(self).scope,
            final(self).lasti == old(self).lasti,
            old(self).blocks@.len() == 0 ==> r is None && final(self).blocks@ == old(self).blocks@
                && final(self).stack@ == old(self).stack@,
            old(self).blocks@.len() > 0 ==> {
                &&& r == Option::Some(old(self).blocks@.last())
                &&& final(self).blocks@ == old(self).blocks@.drop_last()
                &&& final(self).stack@ == (if old(self).blocks@.last().level as int
                    <= old(self).stack@.len() {
                    old(self).stack@.take(old(self).blocks@.last().level as int)
                } else {
                    old(self).stack@
                })
            },
    {
        match self.blocks.pop() {
            Option::Some(block) => {
                let ghost pre_stack = self.stack@;
                self.stack.truncate(block.level);
                proof {
                    if block.level as int <= pre_stack.len() {
                        assert(self.stack@ =~= pre_stack.take(block.level as int));
                    }
                }
                Option::Some(block)
            },
            Option::None => Option::None,
        }
    }

    /// A copy of the innermost block.
    fn current_block(&self) -> (r: Option<Block>)
        ensures
            self.blocks@.len() > 0 ==> r == Option::Some(self.blocks@.last()),
            self.blocks@.len() == 0 ==> r is None,
    {
        if self.blocks.len() > 0 {
            Option::Some(self.blocks[self.blocks.len() - 1].clone())
        } else {
            Option::None
        }
    }

    /// Reassign the pointer to a label's target; an unknown label marks
    /// corrupt code.
    fn jump(&mut self, label: Label) -> (r: Result<(), Raised>)
        ensures
            final(self).code == old(self).code,
            final(self).stack@ == old(self).stack@,
            final(self).blocks@ == old(self).blocks@,
            final(self).scope == old(self).scope,
            match old(self).code.spec_target(label) {
                Option::Some(t) => r is Ok && final(self).lasti == t,
                Option::None => (r matches Result::Err(Raised::Fatal(FatalReason::MissingLabel)))
                    && final(self).lasti == old(self).lasti,
            },
    {
        match self.code.label_target(label) {
            Option::Some(t) => {
                self.lasti = t;
                Result::Ok(())
            },
            Option::None => Result::Err(Raised::Fatal(FatalReason::MissingLabel)),
        }
    }
}


/// What a name load resolves to under each scope variant.
pub open spec fn spec_scope_load(s: Scope, k: NameScope, name: Seq<char>) -> Option<Value> {
    match k {
        NameScope::Local => match assoc_get(s.locals@, name) {
            Option::Some(v) => Option::Some(v),
            Option::None => assoc_get(s.globals@, name),
        },
        NameScope::Global => assoc_get(s.globals@, name),
        NameScope::NonLocal => assoc_get(s.cells@, name),
    }
}

/// Flatten a sequence of iterables into one element sequence; `None` when
/// some value is not a container.
pub open spec fn flatten_elems(h: Seq<Obj>, vals: Seq<Value>) -> Option<Seq<Value>>
    decreases vals.len(),
{
    if vals.len() == 0 {
        Option::Some(Seq::<Value>::empty())
    } else {
        match spec_elements(h, vals[0]) {
            Option::Some(s) => match flatten_elems(h, vals.skip(1)) {
                Option::Some(rest) => Option::Some(s + rest),
                Option::None => Option::None,
            },
            Option::None => Option::None,
        }
    }
}

impl Frame {
    /// Load a name in the requested scope variant and push it; an unbound
    /// name raises *name-undefined*.
    fn load_name(&mut self, vm: &mut Vm, name: &String, name_scope: NameScope) -> (r: FrameResult)
        requires
            old(self).wf(*old(vm)),
        ensures
            !(r matches Result::Ok(Option::Some(_))),
            final(self).wf(*final(vm)),
            final(self).code == old(self).code,
            final(self).blocks@ == old(self).blocks@,
            final(self).lasti == old(self).lasti,
            final(self).scope == old(self).scope,
            match spec_scope_load(old(self).scope, name_scope, name@) {
                Option::Some(v) => r == FrameResult::Ok(Option::<ExecutionResult>::None) && final(self).stack@ == old(self).stack@.push(v) && vm_unchanged(*old(vm), *final(vm)),
                Option::None => (r matches Result::Err(Raised::Exception(e)) && fresh_exc(
                    *old(vm),
                    *final(vm),
                    e,
                    ExcKind::NameError,
                )) && final(self).stack@ == old(self).stack@,
            },
    {
        proof {
            crate::value::lemma_assoc_get_wf(self.scope.locals@, name@, vm.hlen());
            crate::value::lemma_assoc_get_wf(self.scope.globals@, name@, vm.hlen());
            crate::value::lemma_assoc_get_wf(self.scope.cells@, name@, vm.hlen());
        }
        let optional_value = match name_scope {
            NameScope::Global => self.scope.load_global(name),
            NameScope::NonLocal => self.scope.load_cell(name),
            NameScope::Local => self.scope.load_name(name),
        };
        match optional_value {
            Option::Some(value) => {
                self.push_value(value);
                Result::Ok(Option::None)
            },
            Option::None => {
                let e = vm.new_exc(ExcKind::NameError, "name is not defined");
                proof {
                    lemma_frame_wf_grow(*self, *old(vm), *vm);
                }
                Result::Err(Raised::Exception(e))
            },
        }
    }

    /// Pop a value and bind it under the requested scope variant.
    fn store_name(&mut self, vm: &mut Vm, name: &String, name_scope: NameScope) -> (r: FrameResult)
        requires
            old(self).wf(*old(vm)),
        ensures
            !(r matches Result::Ok(Option::Some(_))),
            final(self).wf(*final(vm)),
            final(self).code == old(self).code,
            final(self).blocks@ == old(self).blocks@,
            final(self).lasti == old(self).lasti,
            old(self).stack@.len() == 0 ==> r == FrameResult::Err(
                Raised::Fatal(FatalReason::StackUnderflow),
            ) && final(self).stack@ == old(self).stack@ && final(self).scope == old(self).scope
                && *final(vm) == *old(vm),
            old(self).stack@.len() > 0 ==> {
                &&& r == FrameResult::Ok(Option::<ExecutionResult>::None)
                &&& final(self).stack@ == old(self).stack@.drop_last()
                &&& vm_unchanged(*old(vm), *final(vm))
                &&& match name_scope {
                    NameScope::Local => final(self).scope.locals@ == crate::value::assoc_set(
                        old(self).scope.locals@,
                        *name,
                        old(self).stack@.last(),
                    ) && final(self).scope.globals@ == old(self).scope.globals@ && final(self).scope.cells@ == old(self).scope.cells@,
                    NameScope::Global => final(self).scope.globals@ == crate::value::assoc_set(
                        old(self).scope.globals@,
                        *name,
                        old(self).stack@.last(),
                    ) && final(self).scope.locals@ == old(self).scope.locals@ && final(self).scope.cells@ == old(self).scope.cells@,
                    NameScope::NonLocal => final(self).scope.cells@ == crate::value::assoc_set(
                        old(self).scope.cells@,
                        *name,
                        old(self).stack@.last(),
                    ) && final(self).scope.locals@ == old(self).scope.locals@ && final(self).scope.globals@ == old(self).scope.globals@,
                }
            },
    {
        let obj = match self.pop_value() {
            Option::Some(v) => v,
            Option::None => {
                return Result::Err(Raised::Fatal(FatalReason::StackUnderflow));
            },
        };
        proof {
            crate::value::lemma_assoc_set_wf(self.scope.locals@, *name, obj, vm.hlen());
            crate::value::lemma_assoc_set_wf(self.scope.globals@, *name, obj, vm.hlen());
            crate::value::lemma_assoc_set_wf(self.scope.cells@, *name, obj, vm.hlen());
        }
        match name_scope {
            NameScope::Global => self.scope.store_global(name, obj),
            NameScope::NonLocal => self.scope.store_cell(name, obj),
            NameScope::Local => self.scope.store_name(name, obj),
        }
        Result::Ok(Option::None)
    }

    /// Unbind a local name; an absent binding raises *name-undefined*.
    fn delete_name(&mut self, vm: &mut Vm, name: &String) -> (r: FrameResult)
        requires
            old(self).wf(*old(vm)),
        ensures
            !(r matches Result::Ok(Option::Some(_))),
            final(self).wf(*final(vm)),
            final(self).code == old(self).code,
            final(self).blocks@ == old(self).blocks@,
            final(self).lasti == old(self).lasti,
            final(self).stack@ == old(self).stack@,
            final(self).scope.locals@ == crate::value::assoc_remove(
                old(self).scope.locals@,
                name@,
            ),
            final(self).scope.globals@ == old(self).scope.globals@,
            final(self).scope.cells@ == old(self).scope.cells@,
            match assoc_get(old(self).scope.locals@, name@) {
                Option::Some(_) => r == FrameResult::Ok(Option::<ExecutionResult>::None)
                    && vm_unchanged(*old(vm), *final(vm)),
                Option::None => r matches Result::Err(Raised::Exception(e)) && fresh_exc(
                    *old(vm),
                    *final(vm),
                    e,
                    ExcKind::NameError,
                ),
            },
    {
        proof {
            crate::value::lemma_assoc_remove_wf(self.scope.locals@, name@, vm.hlen());
        }
        if self.scope.delete_name(name) {
            Result::Ok(Option::None)
        } else {
            let e = vm.new_exc(ExcKind::NameError, "name is not defined");
            proof {
                lemma_frame_wf_grow(*self, *old(vm), *vm);
            }
            Result::Err(Raised::Exception(e))
        }
    }

    /// Pop the parent and push the attribute read from it.
    fn load_attr(&mut self, vm: &mut Vm, attr_name: &String) -> (r: FrameResult)
        requires
            old(self).wf(*old(vm)),
        ensures
            !(r matches Result::Ok(Option::Some(_))),
            final(self).wf(*final(vm)),
            final(self).code == old(self).code,
            final(self).blocks@ == old(self).blocks@,
            final(self).lasti == old(self).lasti,
            final(self).scope == old(self).scope,
            old(self).stack@.len() == 0 ==> r == FrameResult::Err(
                Raised::Fatal(FatalReason::StackUnderflow),
            ) && final(self).stack@ == old(self).stack@ && final(self).scope == old(self).scope
                && *final(vm) == *old(vm),
            old(self).stack@.len() > 0 ==> match spec_getattr(
                old(vm).heap@,
                old(self).stack@.last(),
                attr_name@,
            ) {
                Option::Some(v) => r == FrameResult::Ok(Option::<ExecutionResult>::None) && final(self).stack@ == old(self).stack@.drop_last().push(v) && vm_unchanged(
                    *old(vm),
                    *final(vm),
                ),
                Option::None => (r matches Result::Err(Raised::Exception(e)) && fresh_exc(
                    *old(vm),
                    *final(vm),
                    e,
                    ExcKind::AttributeError,
                )) && final(self).stack@ == old(self).stack@.drop_last(),
            },
    {
        let parent = match self.pop_value() {
            Option::Some(v) => v,
            Option::None => {
                return Result::Err(Raised::Fatal(FatalReason::StackUnderflow));
            },
        };
        match vm.get_attribute(&parent, attr_name) {
            Result::Ok(obj) => {
                self.push_value(obj);
                Result::Ok(Option::None)
            },
            Result::Err(e) => {
                proof {
                    lemma_frame_wf_grow(*self, *old(vm), *vm);
                }
                Result::Err(Raised::Exception(e))
            },
        }
    }

    /// Pop the parent, then the value below it, and write the attribute.
    fn store_attr(&mut self, vm: &mut Vm, attr_name: &String) -> (r: FrameResult)
        requires
            old(self).wf(*old(vm)),
        ensures
            !(r matches Result::Ok(Option::Some(_))),
            final(self).wf(*final(vm)),
            final(self).code == old(self).code,
            final(self).blocks@ == old(self).blocks@,
            final(self).lasti == old(self).lasti,
            final(self).scope == old(self).scope,
            old(self).stack@.len() < 2 ==> r == FrameResult::Err(
                Raised::Fatal(FatalReason::StackUnderflow),
            ) && *final(vm) == *old(vm),
            old(self).stack@.len() >= 2 ==> {
                &&& final(self).stack@ == old(self).stack@.drop_last().drop_last()
                &&& match r {
                    Result::Ok(o) => o is None && crate::vm::set_attr_post(
                        *old(vm),
                        *final(vm),
                        old(self).stack@.last(),
                        *attr_name,
                        old(self).stack@[old(self).stack@.len() - 2],
                        Result::Ok(()),
                    ),
                    Result::Err(Raised::Exception(e)) => crate::vm::set_attr_post(
                        *old(vm),
                        *final(vm),
                        old(self).stack@.last(),
                        *attr_name,
                        old(self).stack@[old(self).stack@.len() - 2],
                        Result::Err(e),
                    ),
                    _ => false,
                }
            },
    {
        let parent = match self.pop_value() {
            Option::Some(v) => v,
            Option::None => {
                return Result::Err(Raised::Fatal(FatalReason::StackUnderflow));
            },
        };
        let value = match self.pop_value() {
            Option::Some(v) => v,
            Option::None => {
                return Result::Err(Raised::Fatal(FatalReason::StackUnderflow));
            },
        };
        let res = vm.set_attr(&parent, attr_name, value);
        proof {
            lemma_frame_wf_grow_or_slot(*self, *old(vm), *vm);
        }
        match res {
            Result::Ok(()) => Result::Ok(Option::None),
            Result::Err(e) => Result::Err(Raised::Exception(e)),
        }
    }

    /// Pop the parent and delete the attribute.
    fn delete_attr(&mut self, vm: &mut Vm, attr_name: &String) -> (r: FrameResult)
        requires
            old(self).wf(*old(vm)),
        ensures
            !(r matches Result::Ok(Option::Some(_))),
            final(self).wf(*final(vm)),
            final(self).code == old(self).code,
            final(self).blocks@ == old(self).blocks@,
            final(self).lasti == old(self).lasti,
            final(self).scope == old(self).scope,
            old(self).stack@.len() == 0 ==> r == FrameResult::Err(
                Raised::Fatal(FatalReason::StackUnderflow),
            ) && *final(vm) == *old(vm),
            old(self).stack@.len() > 0 ==> {
                &&& final(self).stack@ == old(self).stack@.drop_last()
                &&& heap_extended(old(vm).heap@, final(vm).heap@) || final(vm).heap@.len() == old(vm).heap@.len()
                &&& regs_logs_unchanged(*old(vm), *final(vm))
                &&& (r == FrameResult::Ok(Option::<ExecutionResult>::None) || (
                r matches Result::Err(Raised::Exception(_))))
            },
    {
        let parent = match self.pop_value() {
            Option::Some(v) => v,
            Option::None => {
                return Result::Err(Raised::Fatal(FatalReason::StackUnderflow));
            },
        };
        let res = vm.del_attr(&parent, attr_name);
        proof {
            lemma_frame_wf_grow_or_slot(*self, *old(vm), *vm);
        }
        match res {
            Result::Ok(()) => Result::Ok(Option::None),
            Result::Err(e) => Result::Err(Raised::Exception(e)),
        }
    }
}

/// As `lemma_frame_wf_grow`, but also covering a heap step that rewrote one
/// non-context-manager slot in place (the shape every mutating machine
/// operation has).
pub proof fn lemma_frame_wf_grow_or_slot(f: Frame, vm0: Vm, vm1: Vm)
    requires
        vals_wf(f.stack@, vm0.hlen()),
        blocks_wf(f.blocks@, vm0.heap@),
        scope_entries_wf(f.scope, vm0.hlen()),
        heap_extended(vm0.heap@, vm1.heap@) || exists|i: int|
            0 <= i < vm0.heap@.len() && #[trigger] heap_same_except(vm0.heap@, vm1.heap@, i) && !(
            vm0.heap@[i] matches Obj::CtxManager(_)),
    ensures
        vals_wf(f.stack@, vm1.hlen()),
        blocks_wf(f.blocks@, vm1.heap@),
        scope_entries_wf(f.scope, vm1.hlen()),
{
    if heap_extended(vm0.heap@, vm1.heap@) {
        lemma_frame_wf_grow(f, vm0, vm1);
    } else {
        let i = choose|i: int|
            0 <= i < vm0.heap@.len() && #[trigger] heap_same_except(vm0.heap@, vm1.heap@, i) && !(
            vm0.heap@[i] matches Obj::CtxManager(_));
        lemma_blocks_wf_same_except(f.blocks@, vm0.heap@, vm1.heap@, i);
    }
}


impl Frame {
    /// Pop `index`, `container`, `value` and perform `container[index] = value`.
    fn execute_store_subscript(&mut self, vm: &mut Vm) -> (r: FrameResult)
        requires
            old(self).wf(*old(vm)),
        ensures
            !(r matches Result::Ok(Option::Some(_))),
            final(self).wf(*final(vm)),
            final(self).code == old(self).code,
            final(self).blocks@ == old(self).blocks@,
            final(self).lasti == old(self).lasti,
            final(self).scope == old(self).scope,
            old(self).stack@.len() < 3 ==> r == FrameResult::Err(
                Raised::Fatal(FatalReason::StackUnderflow),
            ) && *final(vm) == *old(vm),
            old(self).stack@.len() >= 3 ==> {
                &&& final(self).stack@ == old(self).stack@.take(old(self).stack@.len() - 3)
                &&& match r {
                    Result::Ok(o) => o is None && crate::vm::set_item_post(
                        *old(vm),
                        *final(vm),
                        old(self).stack@[old(self).stack@.len() - 2],
                        old(self).stack@.last(),
                        old(self).stack@[old(self).stack@.len() - 3],
                        Result::Ok(()),
                    ),
                    Result::Err(Raised::Exception(e)) => crate::vm::set_item_post(
                        *old(vm),
                        *final(vm),
                        old(self).stack@[old(self).stack@.len() - 2],
                        old(self).stack@.last(),
                        old(self).stack@[old(self).stack@.len() - 3],
                        Result::Err(e),
                    ),
                    _ => false,
                }
            },
    {
        let idx = match self.pop_value() {
            Option::Some(v) => v,
            Option::None => {
                return Result::Err(Raised::Fatal(FatalReason::StackUnderflow));
            },
        };
        let obj = match self.pop_value() {
            Option::Some(v) => v,
            Option::None => {
                return Result::Err(Raised::Fatal(FatalReason::StackUnderflow));
            },
        };
        let value = match self.pop_value() {
            Option::Some(v) => v,
            Option::None => {
                return Result::Err(Raised::Fatal(FatalReason::StackUnderflow));
            },
        };
        proof {
            assert(self.stack@ =~= old(self).stack@.take(old(self).stack@.len() - 3));
        }
        let res = vm.set_item(&obj, &idx, value);
        proof {
            lemma_frame_wf_grow_or_slot(*self, *old(vm), *vm);
        }
        match res {
            Result::Ok(()) => Result::Ok(Option::None),
            Result::Err(e) => Result::Err(Raised::Exception(e)),
        }
    }

    /// Pop `index`, then `container`, and delete `container[index]`.
    fn execute_delete_subscript(&mut self, vm: &mut Vm) -> (r: FrameResult)
        requires
            old(self).wf(*old(vm)),
        ensures
            !(r matches Result::Ok(Option::Some(_))),
            final(self).wf(*final(vm)),
            final(self).code == old(self).code,
            final(self).blocks@ == old(self).blocks@,
            final(self).lasti == old(self).lasti,
            final(self).scope == old(self).scope,
            old(self).stack@.len() < 2 ==> r == FrameResult::Err(
                Raised::Fatal(FatalReason::StackUnderflow),
            ) && *final(vm) == *old(vm),
            old(self).stack@.len() >= 2 ==> {
                &&& final(self).stack@ == old(self).stack@.take(old(self).stack@.len() - 2)
                &&& match r {
                    Result::Ok(o) => o is None && crate::vm::del_item_post(
                        *old(vm),
                        *final(vm),
                        old(self).stack@[old(self).stack@.len() - 2],
                        old(self).stack@.last(),
                        Result::Ok(()),
                    ),
                    Result::Err(Raised::Exception(e)) => crate::vm::del_item_post(
                        *old(vm),
                        *final(vm),
                        old(self).stack@[old(self).stack@.len() - 2],
                        old(self).stack@.last(),
                        Result::Err(e),
                    ),
                    _ => false,
                }
            },
    {
        let idx = match self.pop_value() {
            Option::Some(v) => v,
            Option::None => {
                return Result::Err(Raised::Fatal(FatalReason::StackUnderflow));
            },
        };
        let obj = match self.pop_value() {
            Option::Some(v) => v,
            Option::None => {
                return Result::Err(Raised::Fatal(FatalReason::StackUnderflow));
            },
        };
        proof {
            assert(self.stack@ =~= old(self).stack@.take(old(self).stack@.len() - 2));
        }
        let res = vm.del_item(&obj, &idx);
        proof {
            lemma_frame_wf_grow_or_slot(*self, *old(vm), *vm);
        }
        match res {
            Result::Ok(()) => Result::Ok(Option::None),
            Result::Err(e) => Result::Err(Raised::Exception(e)),
        }
    }

    /// Pop `b`, then `a`, dispatch the operator, and push the result. The
    /// in-place variants fall back to the plain table in this host.
    fn execute_binop(&mut self, vm: &mut Vm, op: BinaryOperator, inplace: bool) -> (r: FrameResult)
        requires
            old(self).wf(*old(vm)),
        ensures
            !(r matches Result::Ok(Option::Some(_))),
            heap_extended(old(vm).heap@, final(vm).heap@),
            final(vm).modules@ == old(vm).modules@,
            final(vm).exc_registers@ == old(vm).exc_registers@,
            final(vm).enter_log@ == old(vm).enter_log@,
            final(vm).exit_log@ == old(vm).exit_log@,
            final(self).wf(*final(vm)),
            final(self).code == old(self).code,
            final(self).blocks@ == old(self).blocks@,
            final(self).lasti == old(self).lasti,
            final(self).scope == old(self).scope,
            old(self).stack@.len() < 2 ==> r == FrameResult::Err(
                Raised::Fatal(FatalReason::StackUnderflow),
            ) && *final(vm) == *old(vm),
            inplace && op == BinaryOperator::Subscript && old(self).stack@.len() >= 2 ==> r
                == FrameResult::Err(Raised::Fatal(FatalReason::InPlaceSubscript)),
            old(self).stack@.len() >= 2 && !(inplace && op == BinaryOperator::Subscript) ==> {
                &&& match spec_binop(
                    old(vm).heap@,
                    op,
                    old(self).stack@[old(self).stack@.len() - 2],
                    old(self).stack@.last(),
                ) {
                    OpOut::Fail(k) => (r matches Result::Err(Raised::Exception(e)) && fresh_exc(
                        *old(vm),
                        *final(vm),
                        e,
                        k,
                    )) && final(self).stack@ == old(self).stack@.take(
                        old(self).stack@.len() - 2,
                    ),
                    out => r == FrameResult::Ok(Option::<ExecutionResult>::None) && final(self).stack@.len() == old(self).stack@.len() - 1 && final(self).stack@.take(
                        old(self).stack@.len() - 2,
                    ) == old(self).stack@.take(old(self).stack@.len() - 2) && (match out {
                        OpOut::Push(v) => final(self).stack@.last() == v && vm_unchanged(
                            *old(vm),
                            *final(vm),
                        ),
                        OpOut::NewStr(sq) => (match final(self).stack@.last() {
                            Value::Str(st) => st@ == sq,
                            _ => false,
                        }) && vm_unchanged(*old(vm), *final(vm)),
                        OpOut::NewList(sq) => match final(self).stack@.last() {
                            Value::Ref(k) => k < final(vm).hlen() && (match final(vm).heap@[k as int] {
                                Obj::List(l) => l@ == sq,
                                _ => false,
                            }),
                            _ => false,
                        },
                        OpOut::NewTuple(sq) => match final(self).stack@.last() {
                            Value::Ref(k) => k < final(vm).hlen() && (match final(vm).heap@[k as int] {
                                Obj::Tuple(t) => t@ == sq,
                                _ => false,
                            }),
                            _ => false,
                        },
                        OpOut::Fail(_) => false,
                    })
                }
            },
    {
        let b_ref = match self.pop_value() {
            Option::Some(v) => v,
            Option::None => {
                return Result::Err(Raised::Fatal(FatalReason::StackUnderflow));
            },
        };
        let a_ref = match self.pop_value() {
            Option::Some(v) => v,
            Option::None => {
                return Result::Err(Raised::Fatal(FatalReason::StackUnderflow));
            },
        };
        if inplace {
            match op {
                BinaryOperator::Subscript => {
                    return Result::Err(Raised::Fatal(FatalReason::InPlaceSubscript));
                },
                _ => {},
            }
        }
        proof {
            assert(self.stack@ =~= old(self).stack@.take(old(self).stack@.len() - 2));
        }
        let res = vm.binop(op, &a_ref, &b_ref);
        proof {
            lemma_frame_wf_grow(*self, *old(vm), *vm);
        }
        match res {
            Result::Ok(value) => {
                self.push_value(value);
                proof {
                    assert(self.stack@.take(old(self).stack@.len() - 2)
                        =~= old(self).stack@.take(old(self).stack@.len() - 2));
                }
                Result::Ok(Option::None)
            },
            Result::Err(e) => Result::Err(Raised::Exception(e)),
        }
    }

    /// Pop `a` and push the unary operator's result; `not` goes through
    /// boolean coercion.
    fn execute_unop(&mut self, vm: &mut Vm, op: UnaryOperator) -> (r: FrameResult)
        requires
            old(self).wf(*old(vm)),
        ensures
            !(r matches Result::Ok(Option::Some(_))),
            heap_extended(old(vm).heap@, final(vm).heap@),
            final(vm).modules@ == old(vm).modules@,
            final(vm).exc_registers@ == old(vm).exc_registers@,
            final(vm).enter_log@ == old(vm).enter_log@,
            final(vm).exit_log@ == old(vm).exit_log@,
            final(self).wf(*final(vm)),
            final(self).code == old(self).code,
            final(self).blocks@ == old(self).blocks@,
            final(self).lasti == old(self).lasti,
            final(self).scope == old(self).scope,
            old(self).stack@.len() == 0 ==> r == FrameResult::Err(
                Raised::Fatal(FatalReason::StackUnderflow),
            ) && *final(vm) == *old(vm),
            old(self).stack@.len() > 0 && op == UnaryOperator::Not ==> r == FrameResult::Ok(
                Option::<ExecutionResult>::None,
            ) && final(self).stack@ == old(self).stack@.drop_last().push(
                Value::Bool(!spec_boolval(old(vm).heap@, old(self).stack@.last())),
            ) && vm_unchanged(*old(vm), *final(vm)),
            old(self).stack@.len() > 0 && op != UnaryOperator::Not ==> match spec_unop(
                op,
                old(self).stack@.last(),
            ) {
                OpOut::Push(v) => r == FrameResult::Ok(Option::<ExecutionResult>::None) && final(self).stack@ == old(self).stack@.drop_last().push(v) && vm_unchanged(
                    *old(vm),
                    *final(vm),
                ),
                OpOut::Fail(k) => (r matches Result::Err(Raised::Exception(e)) && fresh_exc(
                    *old(vm),
                    *final(vm),
                    e,
                    k,
                )) && final(self).stack@ == old(self).stack@.drop_last(),
                _ => true,
            },
    {
        let a = match self.pop_value() {
            Option::Some(v) => v,
            Option::None => {
                return Result::Err(Raised::Fatal(FatalReason::StackUnderflow));
            },
        };
        match op {
            UnaryOperator::Not => {
                let value = vm.boolval(&a);
                self.push_value(Value::Bool(!value));
                Result::Ok(Option::None)
            },
            _ => {
                let res = vm.unop(op, &a);
                proof {
                    lemma_frame_wf_grow(*self, *old(vm), *vm);
                }
                match res {
                    Result::Ok(value) => {
                        self.push_value(value);
                        Result::Ok(Option::None)
                    },
                    Result::Err(e) => Result::Err(Raised::Exception(e)),
                }
            },
        }
    }

    /// Pop `b`, then `a`, and push the comparison's result.
    fn execute_compare(&mut self, vm: &mut Vm, op: ComparisonOperator) -> (r: FrameResult)
        requires
            old(self).wf(*old(vm)),
        ensures
            !(r matches Result::Ok(Option::Some(_))),
            heap_extended(old(vm).heap@, final(vm).heap@),
            final(vm).modules@ == old(vm).modules@,
            final(vm).exc_registers@ == old(vm).exc_registers@,
            final(vm).enter_log@ == old(vm).enter_log@,
            final(vm).exit_log@ == old(vm).exit_log@,
            final(self).wf(*final(vm)),
            final(self).code == old(self).code,
            final(self).blocks@ == old(self).blocks@,
            final(self).lasti == old(self).lasti,
            final(self).scope == old(self).scope,
            old(self).stack@.len() < 2 ==> r == FrameResult::Err(
                Raised::Fatal(FatalReason::StackUnderflow),
            ) && *final(vm) == *old(vm),
            old(self).stack@.len() >= 2 ==> match spec_compare(
                old(vm).heap@,
                op,
                old(self).stack@[old(self).stack@.len() - 2],
                old(self).stack@.last(),
            ) {
                OpOut::Push(v) => r == FrameResult::Ok(Option::<ExecutionResult>::None) && final(self).stack@ == old(self).stack@.take(old(self).stack@.len() - 2).push(v)
                    && vm_unchanged(*old(vm), *final(vm)),
                OpOut::Fail(k) => (r matches Result::Err(Raised::Exception(e)) && fresh_exc(
                    *old(vm),
                    *final(vm),
                    e,
                    k,
                )) && final(self).stack@ == old(self).stack@.take(old(self).stack@.len() - 2),
                _ => true,
            },
    {
        let b = match self.pop_value() {
            Option::Some(v) => v,
            Option::None => {
                return Result::Err(Raised::Fatal(FatalReason::StackUnderflow));
            },
        };
        let a = match self.pop_value() {
            Option::Some(v) => v,
            Option::None => {
                return Result::Err(Raised::Fatal(FatalReason::StackUnderflow));
            },
        };
        proof {
            assert(self.stack@ =~= old(self).stack@.take(old(self).stack@.len() - 2));
        }
        match op {
            ComparisonOperator::Is => {
                let value = Value::Bool(value_eq(&a, &b));
                self.push_value(value);
                Result::Ok(Option::None)
            },
            ComparisonOperator::IsNot => {
                let value = Value::Bool(!value_eq(&a, &b));
                self.push_value(value);
                Result::Ok(Option::None)
            },
            _ => {
                let res = vm.compare(op, &a, &b);
                proof {
                    lemma_frame_wf_grow(*self, *old(vm), *vm);
                }
                match res {
                    Result::Ok(value) => {
                        self.push_value(value);
                        Result::Ok(Option::None)
                    },
                    Result::Err(e) => Result::Err(Raised::Exception(e)),
                }
            },
        }
    }
}


impl Frame {
    /// Pop `size` values; with `unpack`, each is a container whose elements
    /// are concatenated in order.
    fn get_elements(&mut self, vm: &mut Vm, size: usize, unpack: bool) -> (r: Result<
        Vec<Value>,
        Raised,
    >)
        requires
            old(self).wf(*old(vm)),
        ensures
            final(self).wf(*final(vm)),
            final(self).code == old(self).code,
            final(self).blocks@ == old(self).blocks@,
            final(self).lasti == old(self).lasti,
            final(self).scope == old(self).scope,
            heap_extended(old(vm).heap@, final(vm).heap@),
            regs_logs_unchanged(*old(vm), *final(vm)),
            old(self).stack@.len() < size ==> r == Result::<Vec<Value>, Raised>::Err(
                Raised::Fatal(FatalReason::StackUnderflow),
            ) && *final(vm) == *old(vm) && final(self).stack@ == old(self).stack@,
            old(self).stack@.len() >= size ==> {
                &&& final(self).stack@ == old(self).stack@.take(old(self).stack@.len() - size)
                &&& if !unpack {
                    r matches Result::Ok(vs) && vs@ == old(self).stack@.skip(
                        old(self).stack@.len() - size,
                    ) && vm_unchanged(*old(vm), *final(vm))
                } else {
                    match flatten_elems(
                        old(vm).heap@,
                        old(self).stack@.skip(old(self).stack@.len() - size),
                    ) {
                        Option::Some(s) => (r matches Result::Ok(vs) && vs@ == s) && vm_unchanged(
                            *old(vm),
                            *final(vm),
                        ),
                        Option::None => r matches Result::Err(Raised::Exception(_)),
                    }
                }
            },
            r matches Result::Ok(vs) ==> vals_wf(vs@, final(vm).hlen()),
    {
        let elements = match self.pop_multiple(size) {
            Option::Some(vs) => vs,
            Option::None => {
                return Result::Err(Raised::Fatal(FatalReason::StackUnderflow));
            },
        };
        proof {
            assert(vals_wf(elements@, vm.hlen()));
        }
        if !unpack {
            return Result::Ok(elements);
        }
        let ghost whole = elements@;
        let mut result: Vec<Value> = Vec::new();
        let mut i: usize = 0;
        proof {
            assert(whole.skip(0) =~= whole);
        }
        while i < elements.len()
            invariant
                unpack,
                i <= elements.len(),
                old(self).stack@.len() >= size,
                whole == old(self).stack@.skip(old(self).stack@.len() - size),
                elements@ == whole,
                self.wf(*vm),
                *vm == *old(vm),
                self.stack@ == old(self).stack@.take(old(self).stack@.len() - size),
                self.code == old(self).code,
                self.blocks@ == old(self).blocks@,
                self.lasti == old(self).lasti,
                self.scope == old(self).scope,
                vals_wf(whole, vm.hlen()),
                vals_wf(result@, vm.hlen()),
                match flatten_elems(vm.heap@, whole.skip(i as int)) {
                    Option::Some(rest) => flatten_elems(vm.heap@, whole) == Option::Some(
                        result@ + rest,
                    ),
                    Option::None => flatten_elems(vm.heap@, whole) is None,
                },
            decreases elements.len() - i,
        {
            proof {
                assert(whole.skip(i as int)[0] == whole[i as int]);
                assert(whole.skip(i as int).skip(1) =~= whole.skip(i + 1));
            }
            let mut part = match vm.extract_elements(&elements[i]) {
                Result::Ok(p) => p,
                Result::Err(e) => {
                    proof {
                        lemma_frame_wf_grow(*self, *old(vm), *vm);
                        assert(spec_elements(old(vm).heap@, whole[i as int]) is None);
                        assert(flatten_elems(old(vm).heap@, whole.skip(i as int)) is None);
                        assert(flatten_elems(old(vm).heap@, whole) is None);
                    }
                    return Result::Err(Raised::Exception(e));
                },
            };
            proof {
                assert(obj_wf(
                    vm.heap@[(match elements@[i as int] {
                        Value::Ref(k) => k as int,
                        _ => 0,
                    })],
                    vm.hlen(),
                ));
                assert(vals_wf(part@, vm.hlen()));
            }
            let ghost pre_result = result@;
            result.append(&mut part);
            proof {
                assert forall|j: int| 0 <= j < result@.len() implies val_wf(
                    #[trigger] result@[j],
                    vm.hlen(),
                ) by {}
            }
            i = i + 1;
        }
        proof {
            assert(whole.skip(i as int).len() == 0);
            assert(result@ + Seq::<Value>::empty() =~= result@);
        }
        Result::Ok(result)
    }

    /// Pop a value and normalize it to an exception instance: an instance is
    /// accepted, a class is instantiated with no arguments, `None` is
    /// accepted when allowed; anything else is a *type-error*.
    fn get_exception(&mut self, vm: &mut Vm, none_allowed: bool) -> (r: Result<Value, Raised>)
        requires
            old(self).wf(*old(vm)),
        ensures
            final(self).wf(*final(vm)),
            final(self).code == old(self).code,
            final(self).blocks@ == old(self).blocks@,
            final(self).lasti == old(self).lasti,
            final(self).scope == old(self).scope,
            old(self).stack@.len() == 0 ==> r == Result::<Value, Raised>::Err(
                Raised::Fatal(FatalReason::StackUnderflow),
            ) && *final(vm) == *old(vm),
            old(self).stack@.len() > 0 ==> {
                &&& final(self).stack@ == old(self).stack@.drop_last()
                &&& {
                    let v = old(self).stack@.last();
                    if none_allowed && v == Value::PyNone {
                        r == Result::<Value, Raised>::Ok(Value::PyNone) && vm_unchanged(
                            *old(vm),
                            *final(vm),
                        )
                    } else if is_exc(old(vm).heap@, v) {
                        r == Result::<Value, Raised>::Ok(v) && vm_unchanged(*old(vm), *final(vm))
                    } else {
                        match v {
                            Value::Ref(ci) => if ci < old(vm).hlen() && (old(vm).heap@[ci as int]
                                matches Obj::ExcClass(_)) {
                                match old(vm).heap@[ci as int] {
                                    Obj::ExcClass(k) => r matches Result::Ok(e) && fresh_exc_msg(
                                        *old(vm),
                                        *final(vm),
                                        e,
                                        k,
                                        Seq::<char>::empty(),
                                    ),
                                    _ => false,
                                }
                            } else {
                                r matches Result::Err(Raised::Exception(e)) && fresh_exc(
                                    *old(vm),
                                    *final(vm),
                                    e,
                                    ExcKind::TypeError,
                                )
                            },
                            _ => r matches Result::Err(Raised::Exception(e)) && fresh_exc(
                                *old(vm),
                                *final(vm),
                                e,
                                ExcKind::TypeError,
                            ),
                        }
                    }
                }
            },
            r matches Result::Ok(v) ==> val_wf(v, final(vm).hlen()) && (v == Value::PyNone
                || is_exc(final(vm).heap@, v)),
    {
        let exception = match self.pop_value() {
            Option::Some(v) => v,
            Option::None => {
                return Result::Err(Raised::Fatal(FatalReason::StackUnderflow));
            },
        };
        proof {
            assert(old(self).stack@.last() == old(self).stack@[old(self).stack@.len() - 1]);
            assert(val_wf(exception, vm.hlen()));
        }
        if none_allowed {
            match &exception {
                Value::PyNone => {
                    return Result::Ok(Value::PyNone);
                },
                _ => {},
            }
        }
        match vm.exc_ref_kind(&exception) {
            Option::Some(_) => {
                return Result::Ok(exception);
            },
            Option::None => {},
        }
        match vm.exc_class_ref_kind(&exception) {
            Option::Some(k) => {
                let e = vm.new_empty_exception(k);
                proof {
                    lemma_frame_wf_grow(*self, *old(vm), *vm);
                }
                Result::Ok(e)
            },
            Option::None => {
                let e = vm.new_exc(ExcKind::TypeError, "exceptions must derive from BaseException");
                proof {
                    lemma_frame_wf_grow(*self, *old(vm), *vm);
                }
                Result::Err(Raised::Exception(e))
            },
        }
    }

    /// Invoke `__exit__(None, None, None)` for a normal block exit.
    fn call_context_manager_exit_no_exception(&self, vm: &mut Vm, context_manager: &Value) -> (r:
        Result<Value, Value>)
        requires
            old(vm).wf(),
        ensures
            final(vm).wf(),
            crate::vm::ctx_exit_post(
                *old(vm),
                *final(vm),
                *context_manager,
                Value::PyNone,
                Value::PyNone,
                Value::PyNone,
                r,
            ),
            r matches Result::Ok(v) ==> val_wf(v, final(vm).hlen()),
    {
        vm.ctx_exit(context_manager, Value::PyNone, Value::PyNone, Value::PyNone)
    }

    /// Invoke `__exit__(type(exc), exc, None)` while unwinding an exception:
    /// a fresh class object for the exception's kind is allocated and handed
    /// as the first argument, the call is logged, and the manager's recorded
    /// behavior decides between the returned value and a raised error.
    fn call_context_manager_exit(&self, vm: &mut Vm, context_manager: &Value, exc: &Value) -> (r:
        Result<Value, Value>)
        requires
            old(vm).wf(),
            is_exc(old(vm).heap@, *exc),
            is_ctx(old(vm).heap@, *context_manager),
        ensures
            final(vm).wf(),
            heap_extended(old(vm).heap@, final(vm).heap@),
            final(vm).enter_log@ == old(vm).enter_log@,
            final(vm).exc_registers@ == old(vm).exc_registers@,
            final(vm).modules@ == old(vm).modules@,
            final(vm).printed@ == old(vm).printed@,
            old(vm).hlen() < final(vm).hlen(),
            old(vm).hlen() + 1 <= usize::MAX,
            final(vm).heap@[old(vm).hlen() as int] == Obj::ExcClass(
                exc_kind_of(old(vm).heap@, *exc),
            ),
            match *context_manager {
                Value::Ref(i) => {
                    &&& final(vm).exit_log@ == old(vm).exit_log@.push(
                        crate::vm::ExitCall {
                            cm: i,
                            exc_type: Value::Ref(old(vm).hlen() as usize),
                            exc_val: *exc,
                            exc_tb: Value::PyNone,
                        },
                    )
                    &&& match old(vm).heap@[i as int] {
                        Obj::CtxManager(c) => match c.exit_raises {
                            Option::Some(k) => r matches Result::Err(e) && is_exc_kind(
                                final(vm).heap@,
                                e,
                                k,
                            ) && val_wf(e, final(vm).hlen()),
                            Option::None => final(vm).heap@ == old(vm).heap@.push(
                                Obj::ExcClass(exc_kind_of(old(vm).heap@, *exc)),
                            ) && r == Result::<Value, Value>::Ok(c.exit_value),
                        },
                        _ => false,
                    }
                },
                _ => false,
            },
            r matches Result::Ok(v) ==> val_wf(v, final(vm).hlen()),
    {
        let kind = match vm.exc_ref_kind(exc) {
            Option::Some(k) => k,
            Option::None => {
                proof {
                    assert(false);
                }
                ExcKind::TypeError
            },
        };
        let exc_type = vm.new_exc_class(kind);
        let ghost pre2 = *vm;
        proof {
            assert(is_ctx(vm.heap@, *context_manager));
        }
        let r = vm.ctx_exit(context_manager, exc_type, exc.clone(), Value::PyNone);
        proof {
            assert(crate::vm::ctx_exit_post(
                pre2,
                *vm,
                *context_manager,
                Value::Ref(old(vm).hlen() as usize),
                *exc,
                Value::PyNone,
                r,
            ));
            match *context_manager {
                Value::Ref(i) => {
                    assert(pre2.heap@[i as int] == old(vm).heap@[i as int]);
                },
                _ => {},
            }
        }
        r
    }
}

/// The kind of the exception instance `v` references.
pub open spec fn exc_kind_of(h: Seq<Obj>, v: Value) -> ExcKind {
    match v {
        Value::Ref(i) => match h[i as int] {
            Obj::Exc(e) => e.kind,
            _ => ExcKind::TypeError,
        },
        _ => ExcKind::TypeError,
    }
}


/// The module name an `Import` resolves: the given name, or empty.
pub open spec fn import_name_view(m: Option<String>) -> Seq<char> {
    match m {
        Option::Some(n) => n@,
        Option::None => Seq::<char>::empty(),
    }
}

/// Copy module attributes whose names do not start with an underscore into
/// the local bindings, in order.
pub open spec fn import_star_fold(
    locals: Seq<(String, Value)>,
    attrs: Seq<(String, Value)>,
) -> Seq<(String, Value)>
    decreases attrs.len(),
{
    if attrs.len() == 0 {
        locals
    } else {
        let l2 = if attrs[0].0@.len() > 0 && attrs[0].0@[0] == '_' {
            locals
        } else {
            crate::value::assoc_set(locals, attrs[0].0, attrs[0].1)
        };
        import_star_fold(l2, attrs.skip(1))
    }
}

proof fn lemma_import_star_fold_wf(
    locals: Seq<(String, Value)>,
    attrs: Seq<(String, Value)>,
    hlen: nat,
)
    requires
        crate::value::named_wf(locals, hlen),
        crate::value::named_wf(attrs, hlen),
    ensures
        crate::value::named_wf(import_star_fold(locals, attrs), hlen),
    decreases attrs.len(),
{
    if attrs.len() > 0 {
        let l2 = if attrs[0].0@.len() > 0 && attrs[0].0@[0] == '_' {
            locals
        } else {
            crate::value::assoc_set(locals, attrs[0].0, attrs[0].1)
        };
        if !(attrs[0].0@.len() > 0 && attrs[0].0@[0] == '_') {
            crate::value::lemma_assoc_set_wf(locals, attrs[0].0, attrs[0].1, hlen);
        }
        assert forall|i: int| 0 <= i < attrs.skip(1).len() implies val_wf(
            (#[trigger] attrs.skip(1)[i]).1,
            hlen,
        ) by {
            assert(attrs.skip(1)[i] == attrs[i + 1]);
        }
        lemma_import_star_fold_wf(l2, attrs.skip(1), hlen);
    }
}

/// How many optional operands a `MakeFunction` pops besides the name and
/// the code object.
pub open spec fn mk_extras(flags: FunctionOpArg) -> int {
    (if flags.has_defaults {
        1int
    } else {
        0int
    }) + (if flags.has_kw_only_defaults {
        1int
    } else {
        0int
    }) + (if flags.has_annotations {
        1int
    } else {
        0int
    })
}

impl Frame {
    /// Build a function object from the popped qualified name, code object,
    /// and optional defaults, capturing the current scope, and push it: the
    /// function holds the code reference, a capture of the current scope,
    /// the flag-selected defaults, and the four dunder attributes, with
    /// `__name__` the trailing dot-free segment of the qualified name. On a
    /// well-shaped stack success is owed.
    fn execute_make_function(&mut self, vm: &mut Vm, flags: FunctionOpArg) -> (r: FrameResult)
        requires
            old(self).wf(*old(vm)),
        ensures
            !(r matches Result::Ok(Option::Some(_))),
            heap_extended(old(vm).heap@, final(vm).heap@),
            final(vm).modules@ == old(vm).modules@,
            final(vm).exc_registers@ == old(vm).exc_registers@,
            final(vm).enter_log@ == old(vm).enter_log@,
            final(vm).exit_log@ == old(vm).exit_log@,
            final(self).wf(*final(vm)),
            final(self).code == old(self).code,
            final(self).blocks@ == old(self).blocks@,
            final(self).lasti == old(self).lasti,
            final(self).scope == old(self).scope,
            old(self).stack@.len() >= 2 + mk_extras(flags) && (old(self).stack@.last()
                matches Value::Str(_)) && (match old(self).stack@[old(self).stack@.len() - 2] {
                Value::Ref(ci) => ci < old(vm).hlen() && (old(vm).heap@[ci as int]
                    matches Obj::Code(_)),
                _ => false,
            }) ==> r == FrameResult::Ok(Option::<ExecutionResult>::None),
            r == FrameResult::Ok(Option::<ExecutionResult>::None) ==> {
                &&& old(self).stack@.len() >= 2 + mk_extras(flags)
                &&& final(self).stack@.len() == old(self).stack@.len() - 1 - mk_extras(flags)
                &&& final(self).stack@.take(final(self).stack@.len() - 1) == old(self).stack@.take(
                    final(self).stack@.len() - 1,
                )
                &&& (match final(self).stack@.last() {
                    Value::Ref(k) => k < final(vm).hlen() && (match final(vm).heap@[k as int] {
                        Obj::Function(f) => {
                            &&& f.code == old(self).stack@[old(self).stack@.len() - 2]
                            &&& f.captured.locals@ == old(self).scope.locals@
                            &&& f.captured.globals@ == old(self).scope.globals@
                            &&& f.captured.cells@ == old(self).scope.cells@
                            &&& f.defaults == (if flags.has_defaults {
                                Option::Some(
                                    old(self).stack@[old(self).stack@.len() - 2 - mk_extras(
                                        flags,
                                    )],
                                )
                            } else {
                                Option::<Value>::None
                            })
                            &&& f.kw_only_defaults == (if flags.has_kw_only_defaults {
                                Option::Some(
                                    old(self).stack@[old(self).stack@.len() - 3 - (
                                    if flags.has_annotations {
                                        1int
                                    } else {
                                        0int
                                    })],
                                )
                            } else {
                                Option::<Value>::None
                            })
                            &&& assoc_get(f.attrs@, "__qualname__"@) == Option::Some(
                                old(self).stack@.last(),
                            )
                            &&& assoc_get(f.attrs@, "__annotations__"@) == Option::Some(
                                if flags.has_annotations {
                                    old(self).stack@[old(self).stack@.len() - 3]
                                } else {
                                    Value::PyNone
                                },
                            )
                            &&& assoc_get(f.attrs@, "__module__"@) == Option::Some(
                                match assoc_get(old(self).scope.globals@, "__name__"@) {
                                    Option::Some(m) => m,
                                    Option::None => Value::PyNone,
                                },
                            )
                            &&& (match old(self).stack@.last() {
                                Value::Str(q) => match assoc_get(f.attrs@, "__name__"@) {
                                    Option::Some(Value::Str(nm)) => exists|cut: int|
                                        0 <= cut <= q@.len() && (cut == 0 || q@[cut - 1] == '.')
                                            && (forall|m: int|
                                            cut <= m < q@.len() ==> #[trigger] q@[m] != '.')
                                            && nm@ == q@.skip(cut),
                                    _ => false,
                                },
                                _ => false,
                            })
                        },
                        _ => false,
                    }),
                    _ => false,
                })
                &&& heap_extended(old(vm).heap@, final(vm).heap@)
                &&& regs_logs_unchanged(*old(vm), *final(vm))
            },
            !(r == FrameResult::Ok(Option::<ExecutionResult>::None)) ==> (r matches Result::Err(
                Raised::Fatal(_),
            )),
    {
        let qualified_name = match self.pop_value() {
            Option::Some(Value::Str(s)) => s,
            Option::Some(_) => {
                return Result::Err(Raised::Fatal(FatalReason::BadOperandType));
            },
            Option::None => {
                return Result::Err(Raised::Fatal(FatalReason::StackUnderflow));
            },
        };
        let code_obj = match self.pop_value() {
            Option::Some(v) => v,
            Option::None => {
                return Result::Err(Raised::Fatal(FatalReason::StackUnderflow));
            },
        };
        let code_ok = match &code_obj {
            Value::Ref(i) => *i < vm.heap.len() && matches!(&vm.heap[*i], Obj::Code(_)),
            _ => false,
        };
        if !code_ok {
            return Result::Err(Raised::Fatal(FatalReason::BadOperandType));
        }
        let annotations: Option<Value> = if flags.has_annotations {
            match self.pop_value() {
                Option::Some(v) => Option::Some(v),
                Option::None => {
                    return Result::Err(Raised::Fatal(FatalReason::StackUnderflow));
                },
            }
        } else {
            Option::None
        };
        let kw_only_defaults: Option<Value> = if flags.has_kw_only_defaults {
            match self.pop_value() {
                Option::Some(v) => Option::Some(v),
                Option::None => {
                    return Result::Err(Raised::Fatal(FatalReason::StackUnderflow));
                },
            }
        } else {
            Option::None
        };
        let defaults: Option<Value> = if flags.has_defaults {
            match self.pop_value() {
                Option::Some(v) => Option::Some(v),
                Option::None => {
                    return Result::Err(Raised::Fatal(FatalReason::StackUnderflow));
                },
            }
        } else {
            Option::None
        };
        let scope = self.scope.clone();
        let data = FnData {
            code: code_obj,
            captured: scope,
            defaults,
            kw_only_defaults,
            attrs: Vec::new(),
        };
        let ghost data0 = data;
        let func_obj = vm.new_function(data);
        let ghost kf = old(vm).hlen();
        proof {
            lemma_frame_wf_grow(*self, *old(vm), *vm);
            assert(vm.heap@[kf as int] == Obj::Function(data0));
        }
        // The trailing dotted segment of the qualified name becomes __name__.
        let qlen = qualified_name.as_str().unicode_len();
        let mut cut: usize = 0;
        let mut j: usize = 0;
        while j < qlen
            invariant
                cut <= j <= qlen,
                qlen == qualified_name@.len(),
                cut == 0 || qualified_name@[cut - 1] == '.',
                forall|m: int| cut <= m < j ==> #[trigger] qualified_name@[m] != '.',
            decreases qlen - j,
        {
            if qualified_name.as_str().get_char(j) == '.' {
                cut = j + 1;
            }
            j = j + 1;
        }
        let ghost cut0 = cut as int;
        let name_part = qualified_name.as_str().substring_char(cut, qlen).to_owned();
        proof {
            assert(name_part@ =~= qualified_name@.skip(cut0));
        }
        let ghost nm0 = name_part;
        let ghost q0 = qualified_name;
        let k1 = String::from_str("__name__");
        let k2 = String::from_str("__qualname__");
        let k3 = String::from_str("__module__");
        let k4 = String::from_str("__annotations__");
        let ghost vm1 = *vm;
        let r1 = vm.set_attr(&func_obj, &k1, Value::Str(name_part));
        proof {
            lemma_frame_wf_grow_or_slot(*self, vm1, *vm);
        }
        let ghost vm2 = *vm;
        let r2 = vm.set_attr(&func_obj, &k2, Value::Str(qualified_name));
        proof {
            lemma_frame_wf_grow_or_slot(*self, vm2, *vm);
        }
        proof {
            crate::value::lemma_assoc_get_wf(self.scope.globals@, "__name__"@, vm.hlen());
        }
        let module = match crate::scope::entries_get(&self.scope.globals, &k1) {
            Option::Some(m) => m,
            Option::None => Value::PyNone,
        };
        let ghost mod0 = module;
        let ghost vm3 = *vm;
        let r3 = vm.set_attr(&func_obj, &k3, module);
        proof {
            lemma_frame_wf_grow_or_slot(*self, vm3, *vm);
        }
        let annotations_value = match annotations {
            Option::Some(v) => v,
            Option::None => Value::PyNone,
        };
        let ghost ann0 = annotations_value;
        let ghost vm4 = *vm;
        let r4 = vm.set_attr(&func_obj, &k4, annotations_value);
        proof {
            lemma_frame_wf_grow_or_slot(*self, vm4, *vm);
        }
        match (r1, r2, r3, r4) {
            (Result::Ok(()), Result::Ok(()), Result::Ok(()), Result::Ok(())) => {},
            _ => {
                proof {
                    assert(false);
                }
                return Result::Err(Raised::Fatal(FatalReason::BadOperandType));
            },
        }
        proof {
            reveal_strlit("__name__");
            reveal_strlit("__qualname__");
            reveal_strlit("__module__");
            reveal_strlit("__annotations__");
            assert(k1@ == "__name__"@ && k2@ == "__qualname__"@ && k3@ == "__module__"@ && k4@
                == "__annotations__"@);
            assert("__name__"@.len() == 8 && "__qualname__"@.len() == 12 && "__module__"@.len()
                == 10 && "__annotations__"@.len() == 15);
            match (vm2.heap@[kf as int], vm3.heap@[kf as int], vm4.heap@[kf as int], vm.heap@[
                kf as int]) {
                (Obj::Function(f1), Obj::Function(f2), Obj::Function(f3), Obj::Function(f4)) => {
                    assert(f1.attrs@ == crate::value::assoc_set(
                        data0.attrs@,
                        k1,
                        Value::Str(nm0),
                    ));
                    assert(f2.attrs@ == crate::value::assoc_set(f1.attrs@, k2, Value::Str(q0)));
                    assert(f3.attrs@ == crate::value::assoc_set(f2.attrs@, k3, mod0));
                    assert(f4.attrs@ == crate::value::assoc_set(f3.attrs@, k4, ann0));
                    crate::value::lemma_assoc_set_get(f3.attrs@, k4, ann0, "__annotations__"@);
                    crate::value::lemma_assoc_set_get(f3.attrs@, k4, ann0, "__module__"@);
                    crate::value::lemma_assoc_set_get(f2.attrs@, k3, mod0, "__module__"@);
                    crate::value::lemma_assoc_set_get(f3.attrs@, k4, ann0, "__qualname__"@);
                    crate::value::lemma_assoc_set_get(f2.attrs@, k3, mod0, "__qualname__"@);
                    crate::value::lemma_assoc_set_get(
                        f1.attrs@,
                        k2,
                        Value::Str(q0),
                        "__qualname__"@,
                    );
                    crate::value::lemma_assoc_set_get(f3.attrs@, k4, ann0, "__name__"@);
                    crate::value::lemma_assoc_set_get(f2.attrs@, k3, mod0, "__name__"@);
                    crate::value::lemma_assoc_set_get(
                        f1.attrs@,
                        k2,
                        Value::Str(q0),
                        "__name__"@,
                    );
                    crate::value::lemma_assoc_set_get(
                        data0.attrs@,
                        k1,
                        Value::Str(nm0),
                        "__name__"@,
                    );
                },
                _ => {
                    assert(false);
                },
            }
        }
        self.push_value(func_obj);
        proof {
            assert(self.stack@.take(self.stack@.len() - 1) =~= old(self).stack@.take(
                self.stack@.len() - 1,
            ));
            match old(self).stack@.last() {
                Value::Str(q) => {
                    assert(0 <= cut0 <= q@.len() && (cut0 == 0 || q@[cut0 - 1] == '.') && (
                    forall|m: int| cut0 <= m < q@.len() ==> #[trigger] q@[m] != '.') && nm0@
                        == q@.skip(cut0));
                },
                _ => {
                    assert(false);
                },
            }
        }
        Result::Ok(Option::None)
    }

    /// Resolve a module import and push the module object.
    fn import(
        &mut self,
        vm: &mut Vm,
        module: &Option<String>,
        symbols: &Vec<String>,
        level: usize,
    ) -> (r: FrameResult)
        requires
            old(self).wf(*old(vm)),
        ensures
            !(r matches Result::Ok(Option::Some(_))),
            final(self).wf(*final(vm)),
            final(self).code == old(self).code,
            final(self).blocks@ == old(self).blocks@,
            final(self).lasti == old(self).lasti,
            final(self).scope == old(self).scope,
            heap_extended(old(vm).heap@, final(vm).heap@),
            regs_logs_unchanged(*old(vm), *final(vm)),
            match assoc_get(old(vm).modules@, import_name_view(*module)) {
                Option::Some(m) => r == FrameResult::Ok(Option::<ExecutionResult>::None) && final(self).stack@ == old(self).stack@.push(m),
                Option::None => (r matches Result::Err(Raised::Exception(e)) && is_exc_kind(
                    final(vm).heap@,
                    e,
                    ExcKind::ImportError,
                )) && final(self).stack@ == old(self).stack@,
            },
    {
        let name: String = match module {
            Option::Some(n) => n.clone(),
            Option::None => String::new(),
        };
        // The from-list is materialized as a tuple of symbol strings, as the
        // import protocol expects.
        let mut from_list: Vec<Value> = Vec::new();
        let mut i: usize = 0;
        while i < symbols.len()
            invariant
                vals_wf(from_list@, vm.hlen()),
            decreases symbols.len() - i,
        {
            from_list.push(Value::Str(symbols[i].clone()));
            i = i + 1;
        }
        let tuple_ref = vm.alloc_obj(Obj::Tuple(from_list));
        proof {
            lemma_frame_wf_grow(*self, *old(vm), *vm);
        }
        let ghost vm1 = *vm;
        let res = vm.import(&name, &tuple_ref, level);
        proof {
            lemma_frame_wf_grow(*self, vm1, *vm);
        }
        match res {
            Result::Ok(module_obj) => {
                self.push_value(module_obj);
                Result::Ok(Option::None)
            },
            Result::Err(e) => Result::Err(Raised::Exception(e)),
        }
    }

    /// Read a symbol from the module on top of the stack; a missing symbol
    /// is an *import-error*.
    fn import_from(&mut self, vm: &mut Vm, name: &String) -> (r: FrameResult)
        requires
            old(self).wf(*old(vm)),
        ensures
            !(r matches Result::Ok(Option::Some(_))),
            heap_extended(old(vm).heap@, final(vm).heap@),
            regs_logs_unchanged(*old(vm), *final(vm)),
            final(self).wf(*final(vm)),
            final(self).code == old(self).code,
            final(self).blocks@ == old(self).blocks@,
            final(self).lasti == old(self).lasti,
            final(self).scope == old(self).scope,
            old(self).stack@.len() == 0 ==> r == FrameResult::Err(
                Raised::Fatal(FatalReason::StackUnderflow),
            ) && *final(vm) == *old(vm),
            old(self).stack@.len() > 0 ==> match spec_getattr(
                old(vm).heap@,
                old(self).stack@.last(),
                name@,
            ) {
                Option::Some(v) => r == FrameResult::Ok(Option::<ExecutionResult>::None) && final(self).stack@ == old(self).stack@.push(v) && vm_unchanged(*old(vm), *final(vm)),
                Option::None => (r matches Result::Err(Raised::Exception(e)) && is_exc_kind(
                    final(vm).heap@,
                    e,
                    ExcKind::ImportError,
                )) && final(self).stack@ == old(self).stack@,
            },
    {
        let module = match self.last_value() {
            Option::Some(v) => v,
            Option::None => {
                return Result::Err(Raised::Fatal(FatalReason::StackUnderflow));
            },
        };
        proof {
            assert(old(self).stack@.last() == old(self).stack@[old(self).stack@.len() - 1]);
            assert(val_wf(module, vm.hlen()));
        }
        let ghost vm0 = *vm;
        match vm.get_attribute(&module, name) {
            Result::Ok(obj) => {
                self.push_value(obj);
                Result::Ok(Option::None)
            },
            Result::Err(_) => {
                // Any failure reading the symbol surfaces as an import error.
                let ghost vm1 = *vm;
                let e = vm.new_exc(ExcKind::ImportError, "cannot import name");
                proof {
                    lemma_frame_wf_grow(*self, vm0, *vm);
                }
                Result::Err(Raised::Exception(e))
            },
        }
    }

    /// Pop a module and copy each of its public attributes into the local
    /// bindings.
    fn import_star(&mut self, vm: &mut Vm) -> (r: FrameResult)
        requires
            old(self).wf(*old(vm)),
        ensures
            !(r matches Result::Ok(Option::Some(_))),
            final(self).wf(*final(vm)),
            final(self).code == old(self).code,
            final(self).blocks@ == old(self).blocks@,
            final(self).lasti == old(self).lasti,
            final(self).scope.globals@ == old(self).scope.globals@,
            final(self).scope.cells@ == old(self).scope.cells@,
            old(self).stack@.len() == 0 ==> r == FrameResult::Err(
                Raised::Fatal(FatalReason::StackUnderflow),
            ) && *final(vm) == *old(vm) && final(self).scope.locals@ == old(self).scope.locals@,
            old(self).stack@.len() > 0 ==> {
                &&& final(self).stack@ == old(self).stack@.drop_last()
                &&& r == FrameResult::Ok(Option::<ExecutionResult>::None)
                &&& vm_unchanged(*old(vm), *final(vm))
                &&& match old(self).stack@.last() {
                    Value::Ref(i) => if i < old(vm).hlen() {
                        match old(vm).heap@[i as int] {
                            Obj::Module { attrs } => final(self).scope.locals@ == import_star_fold(
                                old(self).scope.locals@,
                                attrs@,
                            ),
                            _ => final(self).scope.locals@ == old(self).scope.locals@,
                        }
                    } else {
                        final(self).scope.locals@ == old(self).scope.locals@
                    },
                    _ => final(self).scope.locals@ == old(self).scope.locals@,
                }
            },
    {
        let module = match self.pop_value() {
            Option::Some(v) => v,
            Option::None => {
                return Result::Err(Raised::Fatal(FatalReason::StackUnderflow));
            },
        };
        match &module {
            Value::Ref(mi) => {
                if *mi < vm.heap.len() {
                    proof {
                        assert(obj_wf(vm.heap@[*mi as int], vm.hlen()));
                    }
                    match &vm.heap[*mi] {
                        Obj::Module { attrs } => {
                            let ghost whole = attrs@;
                            let mut j: usize = 0;
                            proof {
                                assert(whole.skip(0) =~= whole);
                            }
                            while j < attrs.len()
                                invariant
                                    j <= attrs.len(),
                                    attrs@ == whole,
                                    crate::value::named_wf(whole, vm.hlen()),
                                    crate::value::named_wf(self.scope.locals@, vm.hlen()),
                                    import_star_fold(old(self).scope.locals@, whole)
                                        == import_star_fold(
                                        self.scope.locals@,
                                        whole.skip(j as int),
                                    ),
                                    self.scope.globals@ == old(self).scope.globals@,
                                    self.scope.cells@ == old(self).scope.cells@,
                                    vals_wf(self.stack@, vm.hlen()),
                                    code_wf(self.code),
                                    num_handlers(self.blocks@) <= vm.exc_registers@.len(),
                                    self.code == old(self).code,
                                    self.lasti == old(self).lasti,
                                    self.stack@ == old(self).stack@.drop_last(),
                                    self.blocks@ == old(self).blocks@,
                                    blocks_wf(self.blocks@, vm.heap@),
                                    *vm == *old(vm),
                                decreases attrs.len() - j,
                            {
                                proof {
                                    assert(whole.skip(j as int)[0] == whole[j as int]);
                                    assert(whole.skip(j as int).skip(1) =~= whole.skip(j + 1));
                                }
                                let (k, v) = &attrs[j];
                                let klen = k.as_str().unicode_len();
                                let private = klen > 0 && k.as_str().get_char(0) == '_';
                                if !private {
                                    proof {
                                        crate::value::lemma_assoc_set_wf(
                                            self.scope.locals@,
                                            *k,
                                            *v,
                                            vm.hlen(),
                                        );
                                    }
                                    crate::scope::entries_set(
                                        &mut self.scope.locals,
                                        k,
                                        v.clone(),
                                    );
                                }
                                j = j + 1;
                            }
                            proof {
                                assert(whole.skip(j as int).len() == 0);
                            }
                        },
                        _ => {},
                    }
                }
            },
            _ => {},
        }
        Result::Ok(Option::None)
    }
}


impl Frame {
    /// Unwind every remaining block, as `ReturnValue` demands: loop and
    /// try blocks are discarded, `With` blocks get their no-exception
    /// `__exit__`, handler blocks release the exception register. When no
    /// held manager raises, success is owed, with one
    /// `__exit__(None, None, None)` record per `With` block innermost-first,
    /// one register released per handler block, and the stack truncated
    /// through every recorded level. An error from an `__exit__` supersedes
    /// the return and stops the walk: the blocks below the raising `With`
    /// remain, their exit actions and register releases unperformed.
    fn unwind_blocks(&mut self, vm: &mut Vm) -> (r: Result<(), Raised>)
        requires
            old(self).wf(*old(vm)),
        ensures
            final(self).wf(*final(vm)),
            Frame::step_basics(*old(self), *old(vm), *final(self), *final(vm)),
            Frame::step_account(*old(self), *old(vm), *final(self), *final(vm)),
            final(self).lasti == old(self).lasti,
            final(self).scope == old(self).scope,
            heap_extended(old(vm).heap@, final(vm).heap@),
            no_exit_raises(old(self).blocks@, old(vm).heap@) ==> r is Ok,
            final(vm).exit_log@ == old(vm).exit_log@ + none_exit_calls(
                old(self).blocks@.skip(final(self).blocks@.len() as int),
            ),
            final(self).stack@ == trunc_all(
                old(self).stack@,
                old(self).blocks@.skip(final(self).blocks@.len() as int),
            ),
            final(vm).exc_registers@ == old(vm).exc_registers@.take(
                old(vm).exc_registers@.len() - num_handlers(
                    old(self).blocks@.skip(final(self).blocks@.len() as int),
                ),
            ),
            final(self).blocks@ == old(self).blocks@.take(final(self).blocks@.len() as int),
            r is Ok ==> final(self).blocks@.len() == 0,
            r matches Result::Err(e) ==> {
                &&& (e matches Raised::Exception(x) && is_exc(final(vm).heap@, x) && val_wf(
                    x,
                    final(vm).hlen(),
                ))
                &&& final(self).blocks@.len() < old(self).blocks@.len()
                &&& (match old(self).blocks@[final(self).blocks@.len() as int].typ {
                    BlockType::With { context_manager, .. } => cm_exit_raises(
                        old(vm).heap@,
                        context_manager,
                    ),
                    _ => false,
                })
                &&& !no_exit_raises(old(self).blocks@, old(vm).heap@)
            },
    {
        proof {
            assert(old(self).blocks@.skip(old(self).blocks@.len() as int) =~= Seq::<
                Block,
            >::empty());
        }
        while self.blocks.len() > 0
            invariant
                self.wf(*vm),
                Frame::step_basics(*old(self), *old(vm), *self, *vm),
                Frame::step_account(*old(self), *old(vm), *self, *vm),
                self.lasti == old(self).lasti,
                self.scope == old(self).scope,
                heap_extended(old(vm).heap@, vm.heap@),
                blocks_wf(old(self).blocks@, old(vm).heap@),
                self.blocks@.len() <= old(self).blocks@.len(),
                self.blocks@ == old(self).blocks@.take(self.blocks@.len() as int),
                vm.exit_log@ == old(vm).exit_log@ + none_exit_calls(
                    old(self).blocks@.skip(self.blocks@.len() as int),
                ),
                self.stack@ == trunc_all(
                    old(self).stack@,
                    old(self).blocks@.skip(self.blocks@.len() as int),
                ),
                num_handlers(old(self).blocks@.skip(self.blocks@.len() as int)) <= old(
                    vm,
                ).exc_registers@.len(),
                vm.exc_registers@ == old(vm).exc_registers@.take(
                    old(vm).exc_registers@.len() - num_handlers(
                        old(self).blocks@.skip(self.blocks@.len() as int),
                    ),
                ),
            decreases self.blocks@.len(),
        {
            let ghost pre_f = *self;
            let ghost pre_vm = *vm;
            let ghost pre_suffix = old(self).blocks@.skip(pre_f.blocks@.len() as int);
            let block = match self.pop_block() {
                Option::Some(b) => b,
                Option::None => {
                    proof {
                        assert(false);
                    }
                    return Result::Ok(());
                },
            };
            proof {
                assert(pre_f.blocks@.drop_last().push(pre_f.blocks@.last()) =~= pre_f.blocks@);
                lemma_counts_push(pre_f.blocks@.drop_last(), pre_f.blocks@.last());
                assert(blocks_wf(pre_f.blocks@, vm.heap@));
                assert(pre_f.blocks@[pre_f.blocks@.len() - 1] == block);
                assert(old(self).blocks@.take(pre_f.blocks@.len() as int).drop_last()
                    =~= old(self).blocks@.take(pre_f.blocks@.len() - 1));
                assert(self.blocks@ =~= old(self).blocks@.take(self.blocks@.len() as int));
                assert(old(self).blocks@[pre_f.blocks@.len() - 1] == block);
                let new_suffix = old(self).blocks@.skip(self.blocks@.len() as int);
                assert(new_suffix.skip(1) =~= pre_suffix);
                assert(new_suffix[0] == block);
                lemma_counts_front(new_suffix);
                lemma_none_calls_front(new_suffix);
                lemma_trunc_all_front(old(self).stack@, new_suffix);
                assert(self.stack@ == level_trunc(pre_f.stack@, block.level as int));
            }
            match block.typ {
                BlockType::Loop { .. } => {},
                BlockType::TryExcept { .. } => {},
                BlockType::With { context_manager, .. } => {
                    let ghost mid_vm = *vm;
                    let res = self.call_context_manager_exit_no_exception(vm, &context_manager);
                    proof {
                        lemma_frame_wf_grow(*self, mid_vm, *vm);
                        lemma_counts_nonneg(self.blocks@);
                        match context_manager {
                            Value::Ref(ci) => {
                                assert(is_ctx(old(vm).heap@, context_manager));
                                assert(ci < old(vm).heap@.len());
                                assert(mid_vm.heap@[ci as int] == old(vm).heap@[ci as int]);
                            },
                            _ => {
                                assert(false);
                            },
                        }
                    }
                    match res {
                        Result::Ok(_) => {},
                        Result::Err(exc) => {
                            proof {
                                assert(cm_exit_raises(old(vm).heap@, context_manager));
                                assert(match old(self).blocks@[pre_f.blocks@.len() - 1].typ {
                                    BlockType::With { context_manager: c2, .. } => c2
                                        == context_manager,
                                    _ => false,
                                });
                                assert(!no_exit_raises(old(self).blocks@, old(vm).heap@));
                            }
                            return Result::Err(Raised::Exception(exc));
                        },
                    }
                },
                BlockType::ExceptHandler => {
                    proof {
                        lemma_counts_nonneg(self.blocks@);
                        lemma_counts_nonneg(pre_suffix);
                        assert(num_handlers(pre_f.blocks@) >= 1);
                    }
                    let popped = vm.pop_exception();
                    proof {
                        assert(popped is Some);
                        assert(vm.exc_registers@ =~= pre_vm.exc_registers@.drop_last());
                        assert(pre_vm.exc_registers@.len() >= 1);
                        assert(old(vm).exc_registers@.len() - num_handlers(pre_suffix) >= 1);
                        assert(old(vm).exc_registers@.take(
                            old(vm).exc_registers@.len() - num_handlers(pre_suffix),
                        ).drop_last() =~= old(vm).exc_registers@.take(
                            old(vm).exc_registers@.len() - num_handlers(pre_suffix) - 1,
                        ));
                        assert(vm.exc_registers@.take(
                            old(vm).exc_registers@.len() - num_handlers(old(self).blocks@),
                        ) =~= pre_vm.exc_registers@.take(
                            old(vm).exc_registers@.len() - num_handlers(old(self).blocks@),
                        ));
                    }
                },
            }
        }
        Result::Ok(())
    }

    /// Unwind to the innermost `Loop` block without popping it, performing
    /// `With` exits and releasing handler registers on the way. When a loop
    /// block exists and no held manager raises, success is owed: the blocks
    /// above the loop are popped with a `__exit__(None, None, None)` record
    /// per `With`, and the stack is truncated through their recorded levels.
    fn unwind_loop(&mut self, vm: &mut Vm) -> (r: Result<Block, Raised>)
        requires
            old(self).wf(*old(vm)),
        ensures
            final(self).wf(*final(vm)),
            Frame::step_basics(*old(self), *old(vm), *final(self), *final(vm)),
            final(self).lasti == old(self).lasti,
            final(self).scope == old(self).scope,
            heap_extended(old(vm).heap@, final(vm).heap@),
            !(r matches Result::Err(Raised::Fatal(_))) ==> Frame::step_account(
                *old(self),
                *old(vm),
                *final(self),
                *final(vm),
            ),
            has_loop(old(self).blocks@) && no_exit_raises(old(self).blocks@, old(vm).heap@)
                ==> r is Ok,
            !has_loop(old(self).blocks@) && no_exit_raises(old(self).blocks@, old(vm).heap@)
                ==> r == Result::<Block, Raised>::Err(Raised::Fatal(FatalReason::NotInLoop)),
            r matches Result::Ok(b) ==> {
                &&& final(self).blocks@ == loop_prefix(old(self).blocks@)
                &&& final(self).blocks@.len() > 0
                &&& final(self).blocks@.last() == b
                &&& (b.typ matches BlockType::Loop { .. })
                &&& final(vm).exit_log@ == old(vm).exit_log@ + none_exit_calls(
                    old(self).blocks@.skip(loop_prefix(old(self).blocks@).len() as int),
                )
                &&& final(self).stack@ == trunc_all(
                    old(self).stack@,
                    old(self).blocks@.skip(loop_prefix(old(self).blocks@).len() as int),
                )
            },
            r matches Result::Err(e) ==> (e matches Raised::Exception(x) && is_exc(
                final(vm).heap@,
                x,
            ) && val_wf(x, final(vm).hlen()) && !no_exit_raises(
                old(self).blocks@,
                old(vm).heap@,
            )) || e == Raised::Fatal(FatalReason::NotInLoop),
    {
        loop
            invariant
                self.wf(*vm),
                Frame::step_basics(*old(self), *old(vm), *self, *vm),
                Frame::step_account(*old(self), *old(vm), *self, *vm),
                self.lasti == old(self).lasti,
                self.scope == old(self).scope,
                heap_extended(old(vm).heap@, vm.heap@),
                blocks_wf(old(self).blocks@, old(vm).heap@),
                self.blocks@.len() <= old(self).blocks@.len(),
                self.blocks@ == old(self).blocks@.take(self.blocks@.len() as int),
                loop_prefix(old(self).blocks@) == loop_prefix(self.blocks@),
                has_loop(old(self).blocks@) == has_loop(self.blocks@),
                vm.exit_log@ == old(vm).exit_log@ + none_exit_calls(
                    old(self).blocks@.skip(self.blocks@.len() as int),
                ),
                self.stack@ == trunc_all(
                    old(self).stack@,
                    old(self).blocks@.skip(self.blocks@.len() as int),
                ),
            decreases self.blocks@.len(),
        {
            proof {
                assert(old(self).blocks@.skip(old(self).blocks@.len() as int) =~= Seq::<
                    Block,
                >::empty());
            }
            let is_loop = match self.current_block() {
                Option::Some(b) => match b.typ {
                    BlockType::Loop { .. } => true,
                    _ => false,
                },
                Option::None => {
                    return Result::Err(Raised::Fatal(FatalReason::NotInLoop));
                },
            };
            if is_loop {
                let b = match self.current_block() {
                    Option::Some(b) => b,
                    Option::None => {
                        proof {
                            assert(false);
                        }
                        return Result::Err(Raised::Fatal(FatalReason::NotInLoop));
                    },
                };
                proof {
                    assert(loop_prefix(self.blocks@) =~= self.blocks@);
                }
                return Result::Ok(b);
            }
            let ghost pre_f = *self;
            let ghost pre_vm = *vm;
            let ghost pre_suffix = old(self).blocks@.skip(pre_f.blocks@.len() as int);
            let block = match self.pop_block() {
                Option::Some(b) => b,
                Option::None => {
                    proof {
                        assert(false);
                    }
                    return Result::Err(Raised::Fatal(FatalReason::NotInLoop));
                },
            };
            proof {
                assert(pre_f.blocks@.drop_last().push(pre_f.blocks@.last()) =~= pre_f.blocks@);
                lemma_counts_push(pre_f.blocks@.drop_last(), pre_f.blocks@.last());
                assert(blocks_wf(pre_f.blocks@, vm.heap@));
                assert(pre_f.blocks@[pre_f.blocks@.len() - 1] == block);
                assert(old(self).blocks@.take(pre_f.blocks@.len() as int).drop_last()
                    =~= old(self).blocks@.take(pre_f.blocks@.len() - 1));
                assert(self.blocks@ =~= old(self).blocks@.take(self.blocks@.len() as int));
                assert(old(self).blocks@[pre_f.blocks@.len() - 1] == block);
                let new_suffix = old(self).blocks@.skip(self.blocks@.len() as int);
                assert(new_suffix.skip(1) =~= pre_suffix);
                assert(new_suffix[0] == block);
                lemma_none_calls_front(new_suffix);
                lemma_trunc_all_front(old(self).stack@, new_suffix);
                assert(self.stack@ == level_trunc(pre_f.stack@, block.level as int));
            }
            match block.typ {
                BlockType::Loop { .. } => {
                    proof {
                        assert(false);
                    }
                },
                BlockType::TryExcept { .. } => {
                    proof {
                        assert(vm.exit_log@ =~= old(vm).exit_log@ + none_exit_calls(
                            old(self).blocks@.skip(self.blocks@.len() as int),
                        ));
                    }
                },
                BlockType::With { context_manager, .. } => {
                    let ghost mid_vm = *vm;
                    let res = self.call_context_manager_exit_no_exception(vm, &context_manager);
                    proof {
                        lemma_frame_wf_grow(*self, mid_vm, *vm);
                        lemma_counts_nonneg(self.blocks@);
                        match context_manager {
                            Value::Ref(ci) => {
                                assert(is_ctx(old(vm).heap@, context_manager));
                                assert(ci < old(vm).heap@.len());
                                assert(mid_vm.heap@[ci as int] == old(vm).heap@[ci as int]);
                                assert(vm.exit_log@ =~= (old(vm).exit_log@ + none_exit_calls(
                                    pre_suffix,
                                )) + none_exit_call(block));
                                assert(vm.exit_log@ =~= old(vm).exit_log@ + (none_exit_calls(
                                    pre_suffix,
                                ) + none_exit_call(block)));
                            },
                            _ => {
                                assert(false);
                            },
                        }
                    }
                    match res {
                        Result::Ok(_) => {},
                        Result::Err(exc) => {
                            proof {
                                assert(cm_exit_raises(old(vm).heap@, context_manager));
                                assert(match old(self).blocks@[pre_f.blocks@.len() - 1].typ {
                                    BlockType::With { context_manager: c2, .. } => c2
                                        == context_manager,
                                    _ => false,
                                });
                                assert(!no_exit_raises(old(self).blocks@, old(vm).heap@));
                            }
                            return Result::Err(Raised::Exception(exc));
                        },
                    }
                },
                BlockType::ExceptHandler => {
                    proof {
                        lemma_counts_nonneg(self.blocks@);
                        assert(num_handlers(pre_f.blocks@) >= 1);
                        assert(vm.exit_log@ =~= old(vm).exit_log@ + none_exit_calls(
                            old(self).blocks@.skip(self.blocks@.len() as int),
                        ));
                    }
                    let popped = vm.pop_exception();
                    proof {
                        assert(popped is Some);
                        assert(vm.exc_registers@ =~= pre_vm.exc_registers@.drop_last());
                        assert(vm.exc_registers@.take(
                            old(vm).exc_registers@.len() - num_handlers(old(self).blocks@),
                        ) =~= pre_vm.exc_registers@.take(
                            old(vm).exc_registers@.len() - num_handlers(old(self).blocks@),
                        ));
                    }
                },
            }
        }
    }

    /// Walk the block stack with a raised exception: a try block becomes a
    /// handler entry, a `With` block gets `__exit__(type(exc), exc, None)`
    /// and may suppress or replace the exception, loop blocks are discarded,
    /// handler blocks release the register. The outcome follows
    /// `unwind_decision` exactly: handler entry with the handler block pushed
    /// at the try level and the exception on the stack and in the register,
    /// suppression resuming at the `With` end label, or escape with the
    /// frame's blocks exhausted.
    fn unwind_exception(&mut self, vm: &mut Vm, exception: Value) -> (r: Result<
        Option<Value>,
        Raised,
    >)
        requires
            old(self).wf(*old(vm)),
            val_wf(exception, old(vm).hlen()),
            is_exc(old(vm).heap@, exception),
        ensures
            final(self).wf(*final(vm)),
            Frame::step_basics(*old(self), *old(vm), *final(self), *final(vm)),
            final(self).scope == old(self).scope,
            heap_extended(old(vm).heap@, final(vm).heap@),
            !(r matches Result::Err(Raised::Fatal(_))) ==> Frame::step_account(
                *old(self),
                *old(vm),
                *final(self),
                *final(vm),
            ),
            match unwind_decision(old(self).blocks@, old(vm).heap@) {
                UnwindOutcome::CaughtAt { index, handler } => match old(self).code.spec_target(
                    handler,
                ) {
                    Option::Some(t) => {
                        &&& r == Result::<Option<Value>, Raised>::Ok(Option::<Value>::None)
                        &&& final(self).lasti == t
                        &&& final(self).blocks@ == old(self).blocks@.take(index).push(
                            Block {
                                typ: BlockType::ExceptHandler,
                                level: (final(self).stack@.len() - 1) as usize,
                            },
                        )
                        &&& final(self).stack@.len() > 0
                        &&& is_exc(final(vm).heap@, final(self).stack@.last())
                        &&& final(self).stack@ == level_trunc(
                            trunc_all(old(self).stack@, old(self).blocks@.skip(index + 1)),
                            old(self).blocks@[index].level as int,
                        ).push(final(self).stack@.last())
                        &&& final(vm).exc_registers@ == old(vm).exc_registers@.take(
                            old(vm).exc_registers@.len() - num_handlers(
                                old(self).blocks@.skip(index + 1),
                            ),
                        ).push(final(self).stack@.last())
                        &&& final(vm).exit_log@.len() == old(vm).exit_log@.len() + num_withs(
                            old(self).blocks@.skip(index + 1),
                        )
                        &&& (no_exit_raises(old(self).blocks@, old(vm).heap@) ==> final(self).stack@.last() == exception)
                    },
                    Option::None => r == Result::<Option<Value>, Raised>::Err(
                        Raised::Fatal(FatalReason::MissingLabel),
                    ),
                },
                UnwindOutcome::SuppressedAt { index, end } => match old(self).code.spec_target(
                    end,
                ) {
                    Option::Some(t) => {
                        &&& r == Result::<Option<Value>, Raised>::Ok(Option::<Value>::None)
                        &&& final(self).lasti == t
                        &&& final(self).blocks@ == old(self).blocks@.take(index)
                        &&& final(self).stack@ == trunc_all(
                            old(self).stack@,
                            old(self).blocks@.skip(index),
                        )
                        &&& final(vm).exit_log@.len() == old(vm).exit_log@.len() + num_withs(
                            old(self).blocks@.skip(index),
                        )
                    },
                    Option::None => r == Result::<Option<Value>, Raised>::Err(
                        Raised::Fatal(FatalReason::MissingLabel),
                    ),
                },
                UnwindOutcome::Escaped => {
                    &&& (r matches Result::Ok(o) && o matches Option::Some(_))
                    &&& final(self).blocks@.len() == 0
                    &&& final(vm).exit_log@.len() == old(vm).exit_log@.len() + num_withs(
                        old(self).blocks@,
                    )
                    &&& (no_exit_raises(old(self).blocks@, old(vm).heap@) ==> r
                        == Result::<Option<Value>, Raised>::Ok(Option::Some(exception)))
                },
            },
            // Every __exit__ of this walk is handed the exception current at
            // its call; the first one gets the original, with a class object
            // of its kind and no traceback argument.
            final(vm).exit_log@.len() > old(vm).exit_log@.len() ==> {
                &&& final(vm).exit_log@[old(vm).exit_log@.len() as int].exc_val == exception
                &&& final(vm).exit_log@[old(vm).exit_log@.len() as int].exc_tb == Value::PyNone
                &&& match final(vm).exit_log@[old(vm).exit_log@.len() as int].exc_type {
                    Value::Ref(t) => t < final(vm).hlen() && final(vm).heap@[t as int]
                        == Obj::ExcClass(exc_kind_of(old(vm).heap@, exception)),
                    _ => false,
                }
            },
            r matches Result::Ok(o) ==> (match o {
                Option::Some(e) => final(self).blocks@.len() == 0 && is_exc(final(vm).heap@, e)
                    && val_wf(e, final(vm).hlen()),
                Option::None => true,
            }),
            r matches Result::Err(e) ==> e == Raised::Fatal(FatalReason::MissingLabel),
    {
        let ghost ex0 = exception;
        let mut exc = exception;
        while self.blocks.len() > 0
            invariant
                self.wf(*vm),
                Frame::step_basics(*old(self), *old(vm), *self, *vm),
                Frame::step_account(*old(self), *old(vm), *self, *vm),
                self.scope == old(self).scope,
                val_wf(exc, vm.hlen()),
                is_exc(vm.heap@, exc),
                heap_extended(old(vm).heap@, vm.heap@),
                crate::value::heap_wf(old(vm).heap@),
                blocks_wf(old(self).blocks@, old(vm).heap@),
                is_exc(old(vm).heap@, exception),
                ex0 == exception,
                self.blocks@.len() <= old(self).blocks@.len(),
                self.blocks@ == old(self).blocks@.take(self.blocks@.len() as int),
                unwind_decision(self.blocks@, vm.heap@) == unwind_decision(
                    old(self).blocks@,
                    old(vm).heap@,
                ),
                vm.exit_log@.len() == old(vm).exit_log@.len() + num_withs(
                    old(self).blocks@.skip(self.blocks@.len() as int),
                ),
                self.stack@ == trunc_all(
                    old(self).stack@,
                    old(self).blocks@.skip(self.blocks@.len() as int),
                ),
                num_handlers(old(self).blocks@.skip(self.blocks@.len() as int)) <= old(vm).exc_registers@.len(),
                vm.exc_registers@ == old(vm).exc_registers@.take(
                    old(vm).exc_registers@.len() - num_handlers(
                        old(self).blocks@.skip(self.blocks@.len() as int),
                    ),
                ),
                num_withs(old(self).blocks@.skip(self.blocks@.len() as int)) == 0 ==> exc
                    == exception,
                no_exit_raises(old(self).blocks@, old(vm).heap@) ==> exc == exception,
                vm.exit_log@.len() > old(vm).exit_log@.len() ==> {
                    &&& vm.exit_log@[old(vm).exit_log@.len() as int].exc_val == exception
                    &&& vm.exit_log@[old(vm).exit_log@.len() as int].exc_tb == Value::PyNone
                    &&& match vm.exit_log@[old(vm).exit_log@.len() as int].exc_type {
                        Value::Ref(t) => t < vm.hlen() && vm.heap@[t as int] == Obj::ExcClass(
                            exc_kind_of(old(vm).heap@, exception),
                        ),
                        _ => false,
                    }
                },
            decreases self.blocks@.len(),
        {
            proof {
                assert(old(self).blocks@.skip(old(self).blocks@.len() as int) =~= Seq::<
                    Block,
                >::empty());
            }
            let ghost pre_f = *self;
            let ghost pre_vm = *vm;
            let ghost pre_suffix = old(self).blocks@.skip(pre_f.blocks@.len() as int);
            let block = match self.pop_block() {
                Option::Some(b) => b,
                Option::None => {
                    proof {
                        assert(false);
                    }
                    return Result::Ok(Option::None);
                },
            };
            proof {
                assert(pre_f.blocks@.drop_last().push(pre_f.blocks@.last()) =~= pre_f.blocks@);
                lemma_counts_push(pre_f.blocks@.drop_last(), pre_f.blocks@.last());
                assert(blocks_wf(pre_f.blocks@, vm.heap@));
                assert(pre_f.blocks@[pre_f.blocks@.len() - 1] == block);
                assert(old(self).blocks@.take(pre_f.blocks@.len() as int).drop_last()
                    =~= old(self).blocks@.take(pre_f.blocks@.len() - 1));
                assert(self.blocks@ =~= old(self).blocks@.take(self.blocks@.len() as int));
                assert(old(self).blocks@[pre_f.blocks@.len() - 1] == block);
                let new_suffix = old(self).blocks@.skip(self.blocks@.len() as int);
                assert(new_suffix.skip(1) =~= pre_suffix);
                assert(new_suffix[0] == block);
                lemma_counts_front(new_suffix);
                lemma_trunc_all_front(old(self).stack@, new_suffix);
                assert(self.stack@ == level_trunc(pre_f.stack@, block.level as int));
            }
            match block.typ {
                BlockType::TryExcept { handler } => {
                    let ghost mid_f = *self;
                    self.push_block(BlockType::ExceptHandler);
                    self.push_value(exc.clone());
                    vm.push_exception(exc.clone());
                    proof {
                        lemma_counts_push(
                            mid_f.blocks@,
                            Block {
                                typ: BlockType::ExceptHandler,
                                level: mid_f.stack@.len() as usize,
                            },
                        );
                        lemma_counts_nonneg(mid_f.blocks@);
                        assert(vm.exc_registers@.take(
                            old(vm).exc_registers@.len() - num_handlers(old(self).blocks@),
                        ) =~= pre_vm.exc_registers@.take(
                            old(vm).exc_registers@.len() - num_handlers(old(self).blocks@),
                        ));
                        assert(mid_f.blocks@ =~= old(self).blocks@.take(
                            pre_f.blocks@.len() - 1,
                        ));
                        assert(mid_f.stack@.len() as usize as int == mid_f.stack@.len());
                    }
                    match self.jump(handler) {
                        Result::Ok(()) => {},
                        Result::Err(f) => {
                            return Result::Err(f);
                        },
                    }
                    return Result::Ok(Option::None);
                },
                BlockType::With { end, context_manager } => {
                    let ghost mid_vm = *vm;
                    proof {
                        match context_manager {
                            Value::Ref(ci) => {
                                assert(is_ctx(old(vm).heap@, context_manager));
                                assert(ci < old(vm).heap@.len());
                                assert(mid_vm.heap@[ci as int] == old(vm).heap@[ci as int]);
                            },
                            _ => {
                                assert(false);
                            },
                        }
                    }
                    let res = self.call_context_manager_exit(vm, &context_manager, &exc);
                    proof {
                        lemma_frame_wf_grow(*self, mid_vm, *vm);
                        lemma_counts_nonneg(self.blocks@);
                        lemma_unwind_specs_extend(self.blocks@, mid_vm.heap@, vm.heap@);
                        if vm.exit_log@.len() > old(vm).exit_log@.len() + 1 {
                        }
                        assert(vm.exit_log@.len() == mid_vm.exit_log@.len() + 1);
                        lemma_counts_nonneg(pre_suffix);
                        if mid_vm.exit_log@.len() == old(vm).exit_log@.len() {
                            assert(num_withs(pre_suffix) == 0);
                            assert(exc == exception);
                            assert(vm.exit_log@[old(vm).exit_log@.len() as int]
                                == vm.exit_log@.last());
                            assert(vm.exit_log@.last().exc_val == exception);
                            assert(vm.exit_log@.last().exc_tb == Value::PyNone);
                            assert(vm.exit_log@.last().exc_type == Value::Ref(
                                mid_vm.hlen() as usize,
                            ));
                            assert(vm.heap@[mid_vm.hlen() as int] == Obj::ExcClass(
                                exc_kind_of(mid_vm.heap@, exception),
                            ));
                            match ex0 {
                                Value::Ref(ei) => {
                                    assert(mid_vm.heap@[ei as int] == old(vm).heap@[ei as int]);
                                    assert(exc_kind_of(mid_vm.heap@, ex0) == exc_kind_of(
                                        old(vm).heap@,
                                        ex0,
                                    ));
                                },
                                _ => {
                                    assert(false);
                                },
                            }
                        } else {
                            assert(vm.exit_log@[old(vm).exit_log@.len() as int]
                                == mid_vm.exit_log@[old(vm).exit_log@.len() as int]);
                            match mid_vm.exit_log@[old(vm).exit_log@.len() as int].exc_type {
                                Value::Ref(t) => {
                                    assert(vm.heap@[t as int] == mid_vm.heap@[t as int]);
                                },
                                _ => {
                                    assert(false);
                                },
                            }
                        }
                    }
                    match res {
                        Result::Ok(exit_result_obj) => {
                            let suppress = vm.boolval(&exit_result_obj);
                            proof {
                                match context_manager {
                                    Value::Ref(ci) => {
                                        assert(vm.heap@[ci as int] == old(vm).heap@[ci as int]);
                                        assert(!cm_exit_raises(old(vm).heap@, context_manager));
                                        match old(vm).heap@[ci as int] {
                                            Obj::CtxManager(c) => {
                                                lemma_boolval_extend(
                                                    old(vm).heap@,
                                                    vm.heap@,
                                                    c.exit_value,
                                                );
                                                assert(suppress == cm_exit_truthy(
                                                    old(vm).heap@,
                                                    context_manager,
                                                ));
                                            },
                                            _ => {},
                                        }
                                    },
                                    _ => {},
                                }
                            }
                            if suppress {
                                match self.jump(end) {
                                    Result::Ok(()) => {},
                                    Result::Err(f) => {
                                        return Result::Err(f);
                                    },
                                }
                                return Result::Ok(Option::None);
                            }
                        },
                        Result::Err(exit_exc) => {
                            // The error raised by `__exit__` replaces the
                            // exception and unwinding continues.
                            proof {
                                assert(cm_exit_raises(old(vm).heap@, context_manager));
                            }
                            exc = exit_exc;
                        },
                    }
                },
                BlockType::Loop { .. } => {},
                BlockType::ExceptHandler => {
                    proof {
                        lemma_counts_nonneg(self.blocks@);
                        assert(num_handlers(pre_f.blocks@) >= 1);
                    }
                    let popped = vm.pop_exception();
                    proof {
                        assert(popped is Some);
                        assert(vm.exc_registers@ =~= pre_vm.exc_registers@.drop_last());
                        lemma_counts_nonneg(pre_suffix);
                        assert(pre_vm.exc_registers@ == old(vm).exc_registers@.take(
                            old(vm).exc_registers@.len() - num_handlers(pre_suffix),
                        ));
                        assert(pre_vm.exc_registers@.len() >= 1);
                        assert(old(vm).exc_registers@.len() - num_handlers(pre_suffix) >= 1);
                        assert(old(vm).exc_registers@.take(
                            old(vm).exc_registers@.len() - num_handlers(pre_suffix),
                        ).drop_last() =~= old(vm).exc_registers@.take(
                            old(vm).exc_registers@.len() - num_handlers(pre_suffix) - 1,
                        ));
                        assert(vm.exc_registers@ =~= old(vm).exc_registers@.take(
                            old(vm).exc_registers@.len() - num_handlers(
                                old(self).blocks@.skip(self.blocks@.len() as int),
                            ),
                        ));
                        assert(vm.exc_registers@.take(
                            old(vm).exc_registers@.len() - num_handlers(old(self).blocks@),
                        ) =~= pre_vm.exc_registers@.take(
                            old(vm).exc_registers@.len() - num_handlers(old(self).blocks@),
                        ));
                    }
                },
            }
        }
        Result::Ok(Option::Some(exc))
    }
}


/// The opcodes the data dispatcher owns: stack and name movement,
/// containers, attributes, subscripts, and the operator families.
pub open spec fn data_opcode(ins: Instruction) -> bool {
    match ins {
        Instruction::LoadConst { .. } => true,
        Instruction::Import { .. } => true,
        Instruction::ImportStar => true,
        Instruction::ImportFrom { .. } => true,
        Instruction::LoadName { .. } => true,
        Instruction::StoreName { .. } => true,
        Instruction::DeleteName { .. } => true,
        Instruction::StoreSubscript => true,
        Instruction::DeleteSubscript => true,
        Instruction::Pop => true,
        Instruction::Duplicate => true,
        Instruction::Rotate { .. } => true,
        Instruction::Reverse { .. } => true,
        Instruction::BuildString { .. } => true,
        Instruction::BuildList { .. } => true,
        Instruction::BuildTuple { .. } => true,
        Instruction::BuildSet { .. } => true,
        Instruction::BuildMap { .. } => true,
        Instruction::BuildSlice { .. } => true,
        Instruction::ListAppend { .. } => true,
        Instruction::SetAdd { .. } => true,
        Instruction::MapAdd { .. } => true,
        Instruction::BinaryOperation { .. } => true,
        Instruction::LoadAttr { .. } => true,
        Instruction::StoreAttr { .. } => true,
        Instruction::DeleteAttr { .. } => true,
        Instruction::UnaryOperation { .. } => true,
        Instruction::CompareOperation { .. } => true,
        _ => false,
    }
}

/// Opcodes that never reassign the instruction pointer.
pub open spec fn non_jumping(ins: Instruction) -> bool {
    match ins {
        Instruction::Jump { .. } => false,
        Instruction::JumpIfTrue { .. } => false,
        Instruction::JumpIfFalse { .. } => false,
        Instruction::JumpIfTrueOrPop { .. } => false,
        Instruction::JumpIfFalseOrPop { .. } => false,
        Instruction::ForIter { .. } => false,
        Instruction::Break => false,
        Instruction::Continue => false,
        Instruction::YieldFrom => false,
        Instruction::ReturnValue => false,
        Instruction::YieldValue => false,
        _ => true,
    }
}

/// The statically declared operand-stack delta of an opcode: pushes minus
/// pops, where both are fixed by the instruction alone.
pub open spec fn declared_delta(ins: Instruction) -> Option<int> {
    match ins {
        Instruction::LoadConst { .. } => Option::Some(1int),
        Instruction::Import { .. } => Option::Some(1int),
        Instruction::ImportFrom { .. } => Option::Some(1int),
        Instruction::ImportStar => Option::Some(-1int),
        Instruction::LoadName { .. } => Option::Some(1int),
        Instruction::StoreName { .. } => Option::Some(-1int),
        Instruction::DeleteName { .. } => Option::Some(0int),
        Instruction::StoreSubscript => Option::Some(-3int),
        Instruction::DeleteSubscript => Option::Some(-2int),
        Instruction::StoreAttr { .. } => Option::Some(-2int),
        Instruction::DeleteAttr { .. } => Option::Some(-1int),
        Instruction::LoadAttr { .. } => Option::Some(0int),
        Instruction::UnaryOperation { .. } => Option::Some(0int),
        Instruction::BinaryOperation { .. } => Option::Some(-1int),
        Instruction::CompareOperation { .. } => Option::Some(-1int),
        Instruction::Pop => Option::Some(-1int),
        Instruction::Rotate { .. } => Option::Some(0int),
        Instruction::Duplicate => Option::Some(1int),
        Instruction::GetIter => Option::Some(0int),
        Instruction::Pass => Option::Some(0int),
        Instruction::Jump { .. } => Option::Some(0int),
        Instruction::JumpIfTrue { .. } => Option::Some(-1int),
        Instruction::JumpIfFalse { .. } => Option::Some(-1int),
        Instruction::MakeFunction { flags } => Option::Some(
            -((if flags.has_defaults {
                1int
            } else {
                0int
            }) + (if flags.has_kw_only_defaults {
                1int
            } else {
                0int
            }) + (if flags.has_annotations {
                1int
            } else {
                0int
            }) + 1),
        ),
        Instruction::CallFunction { typ } => match typ {
            CallType::Positional(n) => Option::Some(-(n as int)),
            CallType::Keyword(n) => Option::Some(-(n as int) - 1),
            CallType::Ex(has_kwargs) => Option::Some(
                if has_kwargs {
                    -2int
                } else {
                    -1int
                },
            ),
        },
        Instruction::SetupLoop { .. } => Option::Some(0int),
        Instruction::SetupExcept { .. } => Option::Some(0int),
        Instruction::SetupWith { .. } => Option::Some(0int),
        Instruction::Raise { .. } => Option::None,
        Instruction::BuildString { size } => Option::Some(1 - size as int),
        Instruction::BuildTuple { size, unpack } => if unpack {
            Option::None
        } else {
            Option::Some(1 - size as int)
        },
        Instruction::BuildList { size, unpack } => if unpack {
            Option::None
        } else {
            Option::Some(1 - size as int)
        },
        Instruction::BuildSet { size, unpack } => if unpack {
            Option::None
        } else {
            Option::Some(1 - size as int)
        },
        Instruction::BuildMap { size, unpack } => if unpack {
            Option::Some(1 - size as int)
        } else {
            Option::Some(1 - 2 * (size as int))
        },
        Instruction::BuildSlice { size } => Option::Some(1 - size as int),
        Instruction::ListAppend { .. } => Option::Some(-1int),
        Instruction::SetAdd { .. } => Option::Some(-1int),
        Instruction::MapAdd { .. } => Option::Some(-2int),
        Instruction::PrintExpr => Option::Some(-1int),
        Instruction::LoadBuildClass => Option::Some(1int),
        Instruction::UnpackSequence { size } => Option::Some(size as int - 1),
        Instruction::UnpackEx { before, after } => Option::Some(before as int + after as int),
        Instruction::FormatValue { .. } => Option::Some(0int),
        Instruction::Reverse { .. } => Option::Some(0int),
        _ => Option::None,
    }
}


/// A sequence reversed.
pub open spec fn rev_seq(s: Seq<Value>) -> Seq<Value> {
    Seq::new(s.len(), |i: int| s[s.len() - 1 - i])
}

/// The concatenation of a sequence of string values, when all are strings.
pub open spec fn concat_strs(s: Seq<Value>) -> Option<Seq<char>>
    decreases s.len(),
{
    if s.len() == 0 {
        Option::Some(Seq::<char>::empty())
    } else {
        match s[0] {
            Value::Str(st) => match concat_strs(s.skip(1)) {
                Option::Some(rest) => Option::Some(st@ + rest),
                Option::None => Option::None,
            },
            _ => Option::None,
        }
    }
}

/// Concatenate string values in order; `None` when one is not a string.
fn concat_str_values(vals: &Vec<Value>) -> (r: Option<String>)
    ensures
        r matches Option::Some(st) ==> concat_strs(vals@) == Option::Some(st@),
        r is None ==> concat_strs(vals@) is None,
{
    let ghost whole = vals@;
    let mut out = String::new();
    let mut i: usize = 0;
    proof {
        assert(whole.skip(0) =~= whole);
    }
    while i < vals.len()
        invariant
            i <= vals.len(),
            vals@ == whole,
            match concat_strs(whole.skip(i as int)) {
                Option::Some(rest) => concat_strs(whole) == Option::Some(out@ + rest),
                Option::None => concat_strs(whole) is None,
            },
        decreases vals.len() - i,
    {
        proof {
            assert(whole.skip(i as int)[0] == whole[i as int]);
            assert(whole.skip(i as int).skip(1) =~= whole.skip(i + 1));
        }
        match &vals[i] {
            Value::Str(st) => {
                out.append(st.as_str());
            },
            _ => {
                return Option::None;
            },
        }
        i = i + 1;
    }
    proof {
        assert(whole.skip(i as int).len() == 0);
        assert(out@ + Seq::<char>::empty() =~= out@);
    }
    Option::Some(out)
}

impl Frame {
    /// Push the given values in reverse order, so the first ends on top.
    fn push_reversed(&mut self, values: Vec<Value>)
        ensures
            final(self).stack@ == old(self).stack@ + rev_seq(values@),
            final(self).code == old(self).code,
            final(self).blocks@ == old(self).blocks@,
            final(self).scope == old(self).scope,
            final(self).lasti == old(self).lasti,
    {
        let n = values.len();
        let mut k: usize = 0;
        while k < n
            invariant
                k <= n,
                n == values@.len(),
                self.code == old(self).code,
                self.blocks@ == old(self).blocks@,
                self.scope == old(self).scope,
                self.lasti == old(self).lasti,
                self.stack@.len() == old(self).stack@.len() + k,
                self.stack@.take(old(self).stack@.len() as int) == old(self).stack@,
                forall|j: int|
                    0 <= j < k ==> #[trigger] self.stack@[old(self).stack@.len() + j] == values@[n
                        - 1 - j],
            decreases n - k,
        {
            self.push_value(values[n - 1 - k].clone());
            k = k + 1;
        }
        proof {
            let ghost base = old(self).stack@.len() as int;
            let ghost target = old(self).stack@ + rev_seq(values@);
            assert forall|j: int| 0 <= j < self.stack@.len() implies self.stack@[j] == target[j] by {
                if j < base {
                    assert(self.stack@.take(base)[j] == self.stack@[j]);
                    assert(target[j] == old(self).stack@[j]);
                } else {
                    assert(self.stack@[base + (j - base)] == values@[values@.len() - 1 - (j
                        - base)]);
                    assert(rev_seq(values@)[j - base] == values@[values@.len() - 1 - (j - base)]);
                    assert(target[j] == rev_seq(values@)[j - base]);
                }
            }
            assert(self.stack@ =~= target);
        }
    }
}


/// Copy dictionary entries.
fn clone_pairs(src: &Vec<(Value, Value)>) -> (r: Vec<(Value, Value)>)
    ensures
        r@ == src@,
{
    let mut out: Vec<(Value, Value)> = Vec::new();
    let mut i: usize = 0;
    while i < src.len()
        invariant
            i <= src.len(),
            out@ =~= src@.subrange(0, i as int),
        decreases src.len() - i,
    {
        let (k, v) = &src[i];
        out.push((k.clone(), v.clone()));
        i = i + 1;
    }
    assert(out@ =~= src@);
    out
}

/// Drop duplicate elements under `val_eq`, keeping first occurrences.
fn dedup_values(elements: &Vec<Value>, Ghost(hlen): Ghost<nat>) -> (r: Vec<Value>)
    requires
        vals_wf(elements@, hlen),
    ensures
        crate::value::set_elems_unique(r@),
        vals_wf(r@, hlen),
{
    let mut out: Vec<Value> = Vec::new();
    let mut i: usize = 0;
    while i < elements.len()
        invariant
            i <= elements.len(),
            vals_wf(elements@, hlen),
            crate::value::set_elems_unique(out@),
            vals_wf(out@, hlen),
        decreases elements.len() - i,
    {
        if !crate::value::values_contain(&out, &elements[i]) {
            let ghost pre = out@;
            out.push(elements[i].clone());
            proof {
                assert forall|m: int, n: int| 0 <= m < n < out@.len() implies !val_eq(
                    out@[m],
                    out@[n],
                ) by {
                    if n == out@.len() - 1 {
                        assert(!seq_contains(pre, out@[n]));
                    }
                }
                assert forall|j: int| 0 <= j < out@.len() implies val_wf(
                    #[trigger] out@[j],
                    hlen,
                ) by {
                    if j == out@.len() - 1 {
                        assert(val_wf(elements@[i as int], hlen));
                    } else {
                        assert(out@[j] == pre[j]);
                    }
                }
            }
        }
        i = i + 1;
    }
    out
}

/// Build dictionary entries from a flat `[k0, v0, k1, v1, ...]` vector,
/// later keys overriding earlier ones in place.
fn merge_flat_pairs(flat: &Vec<Value>, Ghost(hlen): Ghost<nat>) -> (r: Vec<(Value, Value)>)
    requires
        flat@.len() % 2 == 0,
        vals_wf(flat@, hlen),
    ensures
        crate::value::dict_keys_unique(r@),
        crate::value::pairs_wf(r@, hlen),
{
    let mut out: Vec<(Value, Value)> = Vec::new();
    let mut i: usize = 0;
    while i < flat.len()
        invariant
            i % 2 == 0,
            i <= flat@.len(),
            flat@.len() % 2 == 0,
            vals_wf(flat@, hlen),
            crate::value::dict_keys_unique(out@),
            crate::value::pairs_wf(out@, hlen),
        decreases flat.len() - i,
    {
        proof {
            assert(i + 1 < flat@.len());
        }
        let k = flat[i].clone();
        let v = flat[i + 1].clone();
        proof {
            crate::value::lemma_dict_set_wf(out@, k, v, hlen);
        }
        crate::value::dict_entries_set(&mut out, &k, v);
        i = i + 2;
    }
    out
}

/// Merge another dictionary's entries on top of accumulated ones.
fn merge_dict_entries(
    out: &mut Vec<(Value, Value)>,
    src: &Vec<(Value, Value)>,
    Ghost(hlen): Ghost<nat>,
)
    requires
        crate::value::dict_keys_unique(old(out)@),
        crate::value::pairs_wf(old(out)@, hlen),
        crate::value::pairs_wf(src@, hlen),
    ensures
        crate::value::dict_keys_unique(final(out)@),
        crate::value::pairs_wf(final(out)@, hlen),
{
    let mut i: usize = 0;
    while i < src.len()
        invariant
            crate::value::pairs_wf(src@, hlen),
            crate::value::dict_keys_unique(out@),
            crate::value::pairs_wf(out@, hlen),
        decreases src.len() - i,
    {
        let (k, v) = &src[i];
        proof {
            assert(val_wf(src@[i as int].0, hlen) && val_wf(src@[i as int].1, hlen));
            crate::value::lemma_dict_set_wf(out@, *k, *v, hlen);
        }
        crate::value::dict_entries_set(out, k, v.clone());
        i = i + 1;
    }
}

/// Align keyword names with trailing argument values.
fn zip_kwargs(names: &Vec<Value>, vals: &Vec<Value>, Ghost(hlen): Ghost<nat>) -> (r: Option<
    Vec<(String, Value)>,
>)
    requires
        names@.len() == vals@.len(),
        vals_wf(vals@, hlen),
    ensures
        r matches Option::Some(kw) ==> crate::value::named_wf(kw@, hlen),
{
    let mut out: Vec<(String, Value)> = Vec::new();
    let mut i: usize = 0;
    while i < names.len()
        invariant
            i <= names.len(),
            names@.len() == vals@.len(),
            vals_wf(vals@, hlen),
            crate::value::named_wf(out@, hlen),
        decreases names.len() - i,
    {
        match &names[i] {
            Value::Str(s) => {
                let ghost pre = out@;
                out.push((s.clone(), vals[i].clone()));
                proof {
                    assert forall|j: int| 0 <= j < out@.len() implies val_wf(
                        (#[trigger] out@[j]).1,
                        hlen,
                    ) by {
                        if j == out@.len() - 1 {
                            assert(val_wf(vals@[i as int], hlen));
                        } else {
                            assert(out@[j] == pre[j]);
                        }
                    }
                }
            },
            _ => {
                return Option::None;
            },
        }
        i = i + 1;
    }
    Option::Some(out)
}


/// Keyword entries from dictionary pairs; `None` when a key is not a string.
fn dict_pairs_to_kwargs(pairs: &Vec<(Value, Value)>, Ghost(hlen): Ghost<nat>) -> (r: Option<
    Vec<(String, Value)>,
>)
    requires
        crate::value::pairs_wf(pairs@, hlen),
    ensures
        r matches Option::Some(kw) ==> crate::value::named_wf(kw@, hlen),
{
    let mut out: Vec<(String, Value)> = Vec::new();
    let mut i: usize = 0;
    while i < pairs.len()
        invariant
            i <= pairs.len(),
            crate::value::pairs_wf(pairs@, hlen),
            crate::value::named_wf(out@, hlen),
        decreases pairs.len() - i,
    {
        let (k, v) = &pairs[i];
        match k {
            Value::Str(s) => {
                let ghost pre = out@;
                out.push((s.clone(), v.clone()));
                proof {
                    assert forall|j: int| 0 <= j < out@.len() implies val_wf(
                        (#[trigger] out@[j]).1,
                        hlen,
                    ) by {
                        if j == out@.len() - 1 {
                            assert(val_wf(pairs@[i as int].1, hlen));
                        } else {
                            assert(out@[j] == pre[j]);
                        }
                    }
                }
            },
            _ => {
                return Option::None;
            },
        }
        i = i + 1;
    }
    Option::Some(out)
}

/// The instruction under the frame's pointer.
pub open spec fn at_ins(f: Frame) -> Instruction {
    f.code.instructions@[f.lasti as int]
}

/// Copy a vector of strings.
fn clone_strings(src: &Vec<String>) -> (r: Vec<String>)
    ensures
        r@ == src@,
{
    let mut out: Vec<String> = Vec::new();
    let mut i: usize = 0;
    while i < src.len()
        invariant
            i <= src.len(),
            out@ =~= src@.subrange(0, i as int),
        decreases src.len() - i,
    {
        out.push(src[i].clone());
        i = i + 1;
    }
    assert(out@ =~= src@);
    out
}


/// What an explicit raise records as `__context__`: the active exception,
/// or none.
pub open spec fn raise_context(vm: Vm) -> Value {
    if vm.exc_registers@.len() > 0 {
        vm.exc_registers@.last()
    } else {
        Value::PyNone
    }
}

/// The raised exception carries the given `__cause__` and `__context__`.
pub open spec fn raised_marks(h: Seq<Obj>, e: Value, cause: Value, context: Value) -> bool {
    match e {
        Value::Ref(ei) => ei < h.len() && (match h[ei as int] {
            Obj::Exc(d) => d.cause == cause && d.context == context,
            _ => false,
        }),
        _ => false,
    }
}

impl Frame {
    /// The `Raise` executor: normalize operands, mark cause and context, and
    /// signal the exception.
    fn execute_raise(&mut self, vm: &mut Vm, argc: usize) -> (r: FrameResult)
        requires
            old(self).wf(*old(vm)),
        ensures
            old(vm).hlen() <= final(vm).hlen(),
            final(vm).modules@ == old(vm).modules@,
            final(vm).exc_registers@ == old(vm).exc_registers@,
            final(vm).enter_log@ == old(vm).enter_log@,
            final(vm).exit_log@ == old(vm).exit_log@,
            final(self).wf(*final(vm)),
            Frame::step_basics(*old(self), *old(vm), *final(self), *final(vm)),
            final(self).blocks@ == old(self).blocks@,
            final(self).lasti == old(self).lasti,
            final(self).scope == old(self).scope,
            regs_logs_unchanged(*old(vm), *final(vm)),
            argc == 0 ==> final(self).stack@ == old(self).stack@,
            argc == 0 && old(vm).exc_registers@.len() == 0 ==> (r matches Result::Err(
                Raised::Exception(e),
            ) && crate::vm::fresh_exc_msg(
                *old(vm),
                *final(vm),
                e,
                ExcKind::RuntimeError,
                "No active exception to reraise"@,
            )),
            argc == 1 && old(self).stack@.len() > 0 ==> match old(self).stack@.last() {
                Value::Ref(ci) => if ci < old(vm).hlen() {
                    match old(vm).heap@[ci as int] {
                        Obj::ExcClass(k) => r matches Result::Err(Raised::Exception(e))
                            && is_exc_kind(final(vm).heap@, e, k) && raised_marks(
                            final(vm).heap@,
                            e,
                            Value::PyNone,
                            raise_context(*old(vm)),
                        ),
                        _ => true,
                    }
                } else {
                    true
                },
                _ => true,
            },
            argc == 1 && old(self).stack@.len() > 0 && is_exc(
                old(vm).heap@,
                old(self).stack@.last(),
            ) ==> r == FrameResult::Err(Raised::Exception(old(self).stack@.last()))
                && raised_marks(
                final(vm).heap@,
                old(self).stack@.last(),
                Value::PyNone,
                raise_context(*old(vm)),
            ),
            argc == 2 && old(self).stack@.len() >= 2 && is_exc(
                old(vm).heap@,
                old(self).stack@[old(self).stack@.len() - 2],
            ) && (old(self).stack@.last() == Value::PyNone || is_exc(
                old(vm).heap@,
                old(self).stack@.last(),
            )) ==> r == FrameResult::Err(
                Raised::Exception(old(self).stack@[old(self).stack@.len() - 2]),
            ) && raised_marks(
                final(vm).heap@,
                old(self).stack@[old(self).stack@.len() - 2],
                old(self).stack@.last(),
                raise_context(*old(vm)),
            ),
            !(r matches Result::Err(Raised::Fatal(_))) ==> !(r is Ok),
    {
        if argc > 2 {
                    // The three-argument form is deliberately unimplemented.
                    return Result::Err(Raised::Fatal(FatalReason::RaiseArgcInvalid));
                }
                let cause = if argc == 2 {
                    match self.get_exception(vm, true) {
                        Result::Ok(v) => v,
                        Result::Err(e) => {
                            return Result::Err(e);
                        },
                    }
                } else {
                    Value::PyNone
                };
                let ghost vm_a = *vm;
                let exception = if argc == 0 {
                    match vm.current_exception() {
                        Option::Some(exc) => exc,
                        Option::None => {
                            let e = vm.new_exc(
                                ExcKind::RuntimeError,
                                "No active exception to reraise",
                            );
                            proof {
                                lemma_frame_wf_grow(*self, vm_a, *vm);
                            }
                            return Result::Err(Raised::Exception(e));
                        },
                    }
                } else {
                    match self.get_exception(vm, false) {
                        Result::Ok(v) => v,
                        Result::Err(e) => {
                            return Result::Err(e);
                        },
                    }
                };
                let context = if argc == 0 {
                    Value::PyNone
                } else {
                    match vm.current_exception() {
                        Option::Some(exc) => exc,
                        Option::None => Value::PyNone,
                    }
                };
                let ghost cause0 = cause;
                let ghost context0 = context;
                let ghost vm_b = *vm;
                match vm.set_attr(&exception, &String::from_str("__cause__"), cause) {
                    Result::Ok(()) => {},
                    Result::Err(e) => {
                        proof {
                            lemma_frame_wf_grow_or_slot(*self, vm_b, *vm);
                        }
                        return Result::Err(Raised::Exception(e));
                    },
                }
                proof {
                    lemma_frame_wf_grow_or_slot(*self, vm_b, *vm);
                }
                let ghost vm_c = *vm;
                match vm.set_attr(&exception, &String::from_str("__context__"), context) {
                    Result::Ok(()) => {},
                    Result::Err(e) => {
                        proof {
                            lemma_frame_wf_grow_or_slot(*self, vm_c, *vm);
                        }
                        return Result::Err(Raised::Exception(e));
                    },
                }
                proof {
                    lemma_frame_wf_grow_or_slot(*self, vm_c, *vm);
                    match exception {
                        Value::Ref(ei) => {
                            if ei < vm_b.heap@.len() {
                                match vm_b.heap@[ei as int] {
                                    Obj::Exc(d0) => {
                                        reveal_strlit("__cause__");
                                        reveal_strlit("__context__");
                                        assert("__cause__"@.len() == 9);
                                        assert("__context__"@.len() == 11);
                                        match vm_c.heap@[ei as int] {
                                            Obj::Exc(d1) => {
                                                assert(d1.cause == cause0);
                                                match vm.heap@[ei as int] {
                                                    Obj::Exc(d2) => {
                                                        assert(d2.context == context0);
                                                        assert(d2.cause == cause0);
                                                        assert(d2.kind == d0.kind);
                                                    },
                                                    _ => {
                                                        assert(false);
                                                    },
                                                }
                                            },
                                            _ => {
                                                assert(false);
                                            },
                                        }
                                    },
                                    _ => {},
                                }
                            }
                        },
                        _ => {},
                    }
                }
                Result::Err(Raised::Exception(exception))
    }

}

impl Frame {
    /// `CallFunction`: gather arguments per call layout, pop the callable,
    /// invoke it, and push the result.
    fn execute_call_function(&mut self, vm: &mut Vm, typ: CallType) -> (r: FrameResult)
        requires
            old(self).wf(*old(vm)),
        ensures
            !(r matches Result::Ok(Option::Some(_))),
            heap_extended(old(vm).heap@, final(vm).heap@),
            final(vm).modules@ == old(vm).modules@,
            final(vm).exc_registers@ == old(vm).exc_registers@,
            final(vm).enter_log@ == old(vm).enter_log@,
            final(vm).exit_log@ == old(vm).exit_log@,
            final(self).wf(*final(vm)),
            Frame::step_basics(*old(self), *old(vm), *final(self), *final(vm)),
            final(self).blocks@ == old(self).blocks@,
            final(self).lasti == old(self).lasti,
            final(self).scope == old(self).scope,
            final(vm).exc_registers@ == old(vm).exc_registers@,
            final(vm).enter_log@ == old(vm).enter_log@,
            final(vm).exit_log@ == old(vm).exit_log@,
            r == FrameResult::Ok(Option::<ExecutionResult>::None) ==> match typ {
                CallType::Positional(n) => final(self).stack@.len() == old(self).stack@.len() - (
                n as int),
                CallType::Keyword(n) => final(self).stack@.len() == old(self).stack@.len() - (
                n as int) - 1,
                CallType::Ex(has_kwargs) => final(self).stack@.len() == old(self).stack@.len() - (
                if has_kwargs {
                    2int
                } else {
                    1int
                }),
            },
    {
        let args: FuncArgs = match typ {
                    CallType::Positional(count) => {
                        let pos = match self.pop_multiple(count) {
                            Option::Some(vs) => vs,
                            Option::None => {
                                return Result::Err(Raised::Fatal(FatalReason::StackUnderflow));
                            },
                        };
                        FuncArgs { args: pos, kwargs: Vec::new() }
                    },
                    CallType::Keyword(count) => {
                        let kwarg_names = match self.pop_value() {
                            Option::Some(v) => v,
                            Option::None => {
                                return Result::Err(Raised::Fatal(FatalReason::StackUnderflow));
                            },
                        };
                        let mut pos = match self.pop_multiple(count) {
                            Option::Some(vs) => vs,
                            Option::None => {
                                return Result::Err(Raised::Fatal(FatalReason::StackUnderflow));
                            },
                        };
                        let names = match vm.extract_elements(&kwarg_names) {
                            Result::Ok(ns) => ns,
                            Result::Err(e) => {
                                proof {
                                    lemma_frame_wf_grow(*self, *old(vm), *vm);
                                }
                                return Result::Err(Raised::Exception(e));
                            },
                        };
                        proof {
                            lemma_frame_wf_grow(*self, *old(vm), *vm);
                        }
                        if names.len() > pos.len() {
                            return Result::Err(Raised::Fatal(FatalReason::BadOperandType));
                        }
                        let tail = pos.split_off(pos.len() - names.len());
                        let kwargs = match zip_kwargs(&names, &tail, Ghost(vm.hlen())) {
                            Option::Some(kw) => kw,
                            Option::None => {
                                return Result::Err(Raised::Fatal(FatalReason::BadOperandType));
                            },
                        };
                        FuncArgs { args: pos, kwargs }
                    },
                    CallType::Ex(has_kwargs) => {
                        let kwargs: Vec<(String, Value)> = if has_kwargs {
                            let kw_dict = match self.pop_value() {
                                Option::Some(v) => v,
                                Option::None => {
                                    return Result::Err(
                                        Raised::Fatal(FatalReason::StackUnderflow),
                                    );
                                },
                            };
                            let pairs: Vec<(Value, Value)> = match &kw_dict {
                                Value::Ref(di) => {
                                    if *di < vm.heap.len() {
                                        proof {
                                            assert(obj_wf(vm.heap@[*di as int], vm.hlen()));
                                        }
                                        match &vm.heap[*di] {
                                            Obj::Dict(d) => clone_pairs(d),
                                            _ => {
                                                return Result::Err(
                                                    Raised::Fatal(FatalReason::BadOperandType),
                                                );
                                            },
                                        }
                                    } else {
                                        return Result::Err(
                                            Raised::Fatal(FatalReason::BadOperandType),
                                        );
                                    }
                                },
                                _ => {
                                    return Result::Err(
                                        Raised::Fatal(FatalReason::BadOperandType),
                                    );
                                },
                            };
                            match dict_pairs_to_kwargs(&pairs, Ghost(vm.hlen())) {
                                Option::Some(kw) => kw,
                                Option::None => {
                                    return Result::Err(
                                        Raised::Fatal(FatalReason::BadOperandType),
                                    );
                                },
                            }
                        } else {
                            Vec::new()
                        };
                        let args_obj = match self.pop_value() {
                            Option::Some(v) => v,
                            Option::None => {
                                return Result::Err(Raised::Fatal(FatalReason::StackUnderflow));
                            },
                        };
                        let pos = match vm.extract_elements(&args_obj) {
                            Result::Ok(vs) => vs,
                            Result::Err(e) => {
                                proof {
                                    lemma_frame_wf_grow(*self, *old(vm), *vm);
                                }
                                return Result::Err(Raised::Exception(e));
                            },
                        };
                        FuncArgs { args: pos, kwargs }
                    },
                };
                let func_ref = match self.pop_value() {
                    Option::Some(v) => v,
                    Option::None => {
                        return Result::Err(Raised::Fatal(FatalReason::StackUnderflow));
                    },
                };
                let ghost vm_call = *vm;
                let res = vm.invoke(&func_ref, args);
                proof {
                    lemma_frame_wf_grow(*self, vm_call, *vm);
                }
                match res {
                    Result::Ok(value) => {
                        self.push_value(value);
                        Result::Ok(Option::None)
                    },
                    Result::Err(e) => Result::Err(Raised::Exception(e)),
                }
    }

    /// `BuildMap`: build a dictionary from popped pairs, or merge popped
    /// dictionaries when unpacking; later keys override earlier ones.
    fn execute_build_map(&mut self, vm: &mut Vm, size: usize, unpack: bool) -> (r: FrameResult)
        requires
            old(self).wf(*old(vm)),
        ensures
            !(r matches Result::Ok(Option::Some(_))),
            heap_extended(old(vm).heap@, final(vm).heap@),
            final(vm).modules@ == old(vm).modules@,
            final(vm).exc_registers@ == old(vm).exc_registers@,
            final(vm).enter_log@ == old(vm).enter_log@,
            final(vm).exit_log@ == old(vm).exit_log@,
            final(self).wf(*final(vm)),
            Frame::step_basics(*old(self), *old(vm), *final(self), *final(vm)),
            final(self).blocks@ == old(self).blocks@,
            final(self).lasti == old(self).lasti,
            final(self).scope == old(self).scope,
            regs_logs_unchanged(*old(vm), *final(vm)),
            r == FrameResult::Ok(Option::<ExecutionResult>::None) ==> final(self).stack@.len()
                == old(self).stack@.len() + 1 - (if unpack {
                size as int
            } else {
                2 * (size as int)
            }) && (match final(self).stack@.last() {
                Value::Ref(k) => k < final(vm).hlen() && (final(vm).heap@[k as int]
                    matches Obj::Dict(_)),
                _ => false,
            }),
    {
        if !unpack {
                    if size > self.stack.len() / 2 {
                        return Result::Err(Raised::Fatal(FatalReason::StackUnderflow));
                    }
                    let flat = match self.pop_multiple(2 * size) {
                        Option::Some(vs) => vs,
                        Option::None => {
                            return Result::Err(Raised::Fatal(FatalReason::StackUnderflow));
                        },
                    };
                    if flat.len() % 2 != 0 {
                        return Result::Err(Raised::Fatal(FatalReason::StackUnderflow));
                    }
                    proof {
                        assert(vals_wf(flat@, vm.hlen()));
                    }
                    let entries = merge_flat_pairs(&flat, Ghost(vm.hlen()));
                    proof {
                        assert forall|j: int| 0 <= j < entries@.len() implies val_wf(
                            (#[trigger] entries@[j]).0,
                            vm.hlen() + 1,
                        ) && val_wf(entries@[j].1, vm.hlen() + 1) by {
                            lemma_val_wf_mono(entries@[j].0, vm.hlen(), vm.hlen() + 1);
                            lemma_val_wf_mono(entries@[j].1, vm.hlen(), vm.hlen() + 1);
                        }
                    }
                    let ghost mid_vm = *vm;
                    let map_obj = vm.alloc_obj(Obj::Dict(entries));
                    proof {
                        lemma_frame_wf_grow(*self, mid_vm, *vm);
                    }
                    self.push_value(map_obj);
                    Result::Ok(Option::None)
                } else {
                    let dicts = match self.pop_multiple(size) {
                        Option::Some(vs) => vs,
                        Option::None => {
                            return Result::Err(Raised::Fatal(FatalReason::StackUnderflow));
                        },
                    };
                    let mut acc: Vec<(Value, Value)> = Vec::new();
                    let mut k: usize = 0;
                    while k < dicts.len()
                        invariant
                            vals_wf(dicts@, vm.hlen()),
                            crate::value::dict_keys_unique(acc@),
                            crate::value::pairs_wf(acc@, vm.hlen()),
                            self.wf(*vm),
                            *vm == *old(vm),
                            self.code == old(self).code,
                            self.lasti == old(self).lasti,
                            self.blocks@ == old(self).blocks@,
                            self.scope == old(self).scope,
                        decreases dicts.len() - k,
                    {
                        let src: Vec<(Value, Value)> = match &dicts[k] {
                            Value::Ref(di) => {
                                if *di < vm.heap.len() {
                                    proof {
                                        assert(obj_wf(vm.heap@[*di as int], vm.hlen()));
                                    }
                                    match &vm.heap[*di] {
                                        Obj::Dict(d) => clone_pairs(d),
                                        _ => {
                                            return Result::Err(
                                                Raised::Fatal(FatalReason::BadOperandType),
                                            );
                                        },
                                    }
                                } else {
                                    return Result::Err(
                                        Raised::Fatal(FatalReason::BadOperandType),
                                    );
                                }
                            },
                            _ => {
                                return Result::Err(Raised::Fatal(FatalReason::BadOperandType));
                            },
                        };
                        merge_dict_entries(&mut acc, &src, Ghost(vm.hlen()));
                        k = k + 1;
                    }
                    proof {
                        assert forall|j: int| 0 <= j < acc@.len() implies val_wf(
                            (#[trigger] acc@[j]).0,
                            vm.hlen() + 1,
                        ) && val_wf(acc@[j].1, vm.hlen() + 1) by {
                            lemma_val_wf_mono(acc@[j].0, vm.hlen(), vm.hlen() + 1);
                            lemma_val_wf_mono(acc@[j].1, vm.hlen(), vm.hlen() + 1);
                        }
                    }
                    let ghost mid_vm = *vm;
                    let map_obj = vm.alloc_obj(Obj::Dict(acc));
                    proof {
                        lemma_frame_wf_grow(*self, mid_vm, *vm);
                    }
                    self.push_value(map_obj);
                    Result::Ok(Option::None)
                }
    }

    /// `UnpackSequence`: the popped iterable must have exactly `size`
    /// elements, pushed in reverse; otherwise *value-error*.
    fn execute_unpack_sequence(&mut self, vm: &mut Vm, size: usize) -> (r: FrameResult)
        requires
            old(self).wf(*old(vm)),
        ensures
            !(r matches Result::Ok(Option::Some(_))),
            heap_extended(old(vm).heap@, final(vm).heap@),
            final(vm).modules@ == old(vm).modules@,
            final(vm).exc_registers@ == old(vm).exc_registers@,
            final(vm).enter_log@ == old(vm).enter_log@,
            final(vm).exit_log@ == old(vm).exit_log@,
            final(self).wf(*final(vm)),
            Frame::step_basics(*old(self), *old(vm), *final(self), *final(vm)),
            final(self).blocks@ == old(self).blocks@,
            final(self).lasti == old(self).lasti,
            final(self).scope == old(self).scope,
            regs_logs_unchanged(*old(vm), *final(vm)),
            old(self).stack@.len() == 0 ==> r == FrameResult::Err(
                Raised::Fatal(FatalReason::StackUnderflow),
            ),
            old(self).stack@.len() > 0 ==> match spec_elements(
                old(vm).heap@,
                old(self).stack@.last(),
            ) {
                Option::Some(s) => if s.len() == size {
                    r == FrameResult::Ok(Option::<ExecutionResult>::None) && final(self).stack@.len() == old(self).stack@.len() - 1 + size && (forall|k: int|
                        0 <= k < size ==> #[trigger] final(self).stack@[old(self).stack@.len() - 1
                            + k] == s[size - 1 - k])
                } else {
                    (r matches Result::Err(Raised::Exception(e)) && is_exc_kind(
                        final(vm).heap@,
                        e,
                        ExcKind::ValueError,
                    )) && final(self).stack@ == old(self).stack@.drop_last()
                },
                Option::None => (r matches Result::Err(Raised::Exception(_))) && final(self).stack@ == old(self).stack@.drop_last(),
            },
    {
        proof {
            if old(self).stack@.len() > 0 {
                assert(old(self).stack@.last() == old(self).stack@[old(self).stack@.len() - 1]);
            }
        }
        let value = match self.pop_value() {
                    Option::Some(v) => v,
                    Option::None => {
                        return Result::Err(Raised::Fatal(FatalReason::StackUnderflow));
                    },
                };
                let elements = match vm.extract_elements(&value) {
                    Result::Ok(vs) => vs,
                    Result::Err(e) => {
                        proof {
                            lemma_frame_wf_grow(*self, *old(vm), *vm);
                        }
                        return Result::Err(Raised::Exception(e));
                    },
                };
                if elements.len() != size {
                    let ghost vm1 = *vm;
                    let e = vm.new_exc(ExcKind::ValueError, "Wrong number of values to unpack");
                    proof {
                        lemma_frame_wf_grow(*self, vm1, *vm);
                    }
                    return Result::Err(Raised::Exception(e));
                }
                self.push_reversed(elements);
                Result::Ok(Option::None)
    }

    /// `UnpackEx`: at least `before + after` elements are required; the
    /// middle is packed into a fresh list between the two reversed runs.
    fn execute_unpack_ex(&mut self, vm: &mut Vm, before: usize, after: usize) -> (r: FrameResult)
        requires
            old(self).wf(*old(vm)),
        ensures
            !(r matches Result::Ok(Option::Some(_))),
            heap_extended(old(vm).heap@, final(vm).heap@),
            final(vm).modules@ == old(vm).modules@,
            final(vm).exc_registers@ == old(vm).exc_registers@,
            final(vm).enter_log@ == old(vm).enter_log@,
            final(vm).exit_log@ == old(vm).exit_log@,
            final(self).wf(*final(vm)),
            Frame::step_basics(*old(self), *old(vm), *final(self), *final(vm)),
            final(self).blocks@ == old(self).blocks@,
            final(self).lasti == old(self).lasti,
            final(self).scope == old(self).scope,
            regs_logs_unchanged(*old(vm), *final(vm)),
            old(self).stack@.len() == 0 ==> r == FrameResult::Err(
                Raised::Fatal(FatalReason::StackUnderflow),
            ),
            old(self).stack@.len() > 0 ==> match spec_elements(
                old(vm).heap@,
                old(self).stack@.last(),
            ) {
                Option::Some(s) => if s.len() >= before + after {
                    r == FrameResult::Ok(Option::<ExecutionResult>::None) && final(self).stack@.len() == old(self).stack@.len() + before + after && (match final(self).stack@[old(self).stack@.len() - 1 + after] {
                        Value::Ref(li) => li < final(vm).hlen() && (match final(vm).heap@[li as int] {
                            Obj::List(l) => l@ == s.subrange(before as int, s.len() - after as int),
                            _ => false,
                        }),
                        _ => false,
                    }) && (forall|j: int|
                        0 <= j < after ==> #[trigger] final(self).stack@[old(self).stack@.len() - 1
                            + j] == s[s.len() - 1 - j]) && (forall|j: int|
                        0 <= j < before ==> #[trigger] final(self).stack@[old(self).stack@.len()
                            + after + j] == s[before - 1 - j])
                } else {
                    (r matches Result::Err(Raised::Exception(e)) && is_exc_kind(
                        final(vm).heap@,
                        e,
                        ExcKind::ValueError,
                    )) && final(self).stack@ == old(self).stack@.drop_last()
                },
                Option::None => (r matches Result::Err(Raised::Exception(_))) && final(self).stack@ == old(self).stack@.drop_last(),
            },
    {
        proof {
            if old(self).stack@.len() > 0 {
                assert(old(self).stack@.last() == old(self).stack@[old(self).stack@.len() - 1]);
            }
        }
        let value = match self.pop_value() {
                    Option::Some(v) => v,
                    Option::None => {
                        return Result::Err(Raised::Fatal(FatalReason::StackUnderflow));
                    },
                };
                let mut elements = match vm.extract_elements(&value) {
                    Result::Ok(vs) => vs,
                    Result::Err(e) => {
                        proof {
                            lemma_frame_wf_grow(*self, *old(vm), *vm);
                        }
                        return Result::Err(Raised::Exception(e));
                    },
                };
                if elements.len() < before || elements.len() - before < after {
                    let ghost vm1 = *vm;
                    let e = vm.new_exc(ExcKind::ValueError, "Not enough values to unpack");
                    proof {
                        lemma_frame_wf_grow(*self, vm1, *vm);
                    }
                    return Result::Err(Raised::Exception(e));
                }
                let tail = elements.split_off(elements.len() - after);
                let middle = elements.split_off(before);
                self.push_reversed(tail);
                proof {
                    lemma_vals_wf_mono(middle@, vm.hlen(), vm.hlen() + 1);
                }
                let ghost vm_mid = *vm;
                let t = vm.alloc_obj(Obj::List(middle));
                proof {
                    lemma_frame_wf_grow(*self, vm_mid, *vm);
                }
                self.push_value(t);
                self.push_reversed(elements);
                Result::Ok(Option::None)
    }

}


/// The instruction at index `i` of a frame's code.
pub open spec fn ins_of(f: Frame, i: int) -> Instruction {
    f.code.instructions@[i]
}

/// The per-instruction guarantees of one dispatch step, stated against the
/// pre-state (with `i` the index of the executed instruction): declared stack
/// arity on success, pointer progress, block-exit discipline, the raise
/// rules, unpack arity, and the per-opcode effects of the control and block
/// opcodes.
pub open spec fn dispatch_post(
    pre_f: Frame,
    pre_vm: Vm,
    post_f: Frame,
    post_vm: Vm,
    i: int,
    r: FrameResult,
) -> bool {
    &&& (r == FrameResult::Ok(Option::<ExecutionResult>::None) && non_jumping(ins_of(pre_f, i))
        ==> post_f.lasti == i + 1)
    &&& (r == FrameResult::Ok(Option::<ExecutionResult>::None) ==> match declared_delta(
        ins_of(pre_f, i),
    ) {
        Option::Some(d) => post_f.stack@.len() == pre_f.stack@.len() + d,
        Option::None => true,
    })
    &&& (r matches Result::Ok(o) && (o matches Option::Some(er) && er
        matches ExecutionResult::Return(_)) ==> post_f.blocks@.len() == 0)
    &&& match ins_of(pre_f, i) {
        Instruction::Jump { target } => match pre_f.code.spec_target(target) {
            Option::Some(t) => r == FrameResult::Ok(Option::<ExecutionResult>::None)
                && post_f.lasti == t && post_f.stack@ == pre_f.stack@ && post_f.blocks@
                == pre_f.blocks@,
            Option::None => r == FrameResult::Err(Raised::Fatal(FatalReason::MissingLabel)),
        },
        Instruction::JumpIfTrue { target } => {
            &&& (pre_f.stack@.len() == 0 ==> r == FrameResult::Err(
                Raised::Fatal(FatalReason::StackUnderflow),
            ))
            &&& (pre_f.stack@.len() > 0 ==> (if spec_boolval(pre_vm.heap@, pre_f.stack@.last()) {
                match pre_f.code.spec_target(target) {
                    Option::Some(t) => r == FrameResult::Ok(Option::<ExecutionResult>::None)
                        && post_f.lasti == t && post_f.stack@ == pre_f.stack@.drop_last(),
                    Option::None => r == FrameResult::Err(
                        Raised::Fatal(FatalReason::MissingLabel),
                    ),
                }
            } else {
                r == FrameResult::Ok(Option::<ExecutionResult>::None) && post_f.lasti == i + 1
                    && post_f.stack@ == pre_f.stack@.drop_last()
            }))
        },
        Instruction::JumpIfFalse { target } => {
            &&& (pre_f.stack@.len() == 0 ==> r == FrameResult::Err(
                Raised::Fatal(FatalReason::StackUnderflow),
            ))
            &&& (pre_f.stack@.len() > 0 ==> (if !spec_boolval(pre_vm.heap@, pre_f.stack@.last()) {
                match pre_f.code.spec_target(target) {
                    Option::Some(t) => r == FrameResult::Ok(Option::<ExecutionResult>::None)
                        && post_f.lasti == t && post_f.stack@ == pre_f.stack@.drop_last(),
                    Option::None => r == FrameResult::Err(
                        Raised::Fatal(FatalReason::MissingLabel),
                    ),
                }
            } else {
                r == FrameResult::Ok(Option::<ExecutionResult>::None) && post_f.lasti == i + 1
                    && post_f.stack@ == pre_f.stack@.drop_last()
            }))
        },
        Instruction::JumpIfTrueOrPop { target } => {
            &&& (pre_f.stack@.len() == 0 ==> r == FrameResult::Err(
                Raised::Fatal(FatalReason::StackUnderflow),
            ))
            &&& (pre_f.stack@.len() > 0 ==> (if spec_boolval(pre_vm.heap@, pre_f.stack@.last()) {
                match pre_f.code.spec_target(target) {
                    Option::Some(t) => r == FrameResult::Ok(Option::<ExecutionResult>::None)
                        && post_f.lasti == t && post_f.stack@ == pre_f.stack@,
                    Option::None => r == FrameResult::Err(
                        Raised::Fatal(FatalReason::MissingLabel),
                    ),
                }
            } else {
                r == FrameResult::Ok(Option::<ExecutionResult>::None) && post_f.lasti == i + 1
                    && post_f.stack@ == pre_f.stack@.drop_last()
            }))
        },
        Instruction::JumpIfFalseOrPop { target } => {
            &&& (pre_f.stack@.len() == 0 ==> r == FrameResult::Err(
                Raised::Fatal(FatalReason::StackUnderflow),
            ))
            &&& (pre_f.stack@.len() > 0 ==> (if !spec_boolval(pre_vm.heap@, pre_f.stack@.last()) {
                match pre_f.code.spec_target(target) {
                    Option::Some(t) => r == FrameResult::Ok(Option::<ExecutionResult>::None)
                        && post_f.lasti == t && post_f.stack@ == pre_f.stack@,
                    Option::None => r == FrameResult::Err(
                        Raised::Fatal(FatalReason::MissingLabel),
                    ),
                }
            } else {
                r == FrameResult::Ok(Option::<ExecutionResult>::None) && post_f.lasti == i + 1
                    && post_f.stack@ == pre_f.stack@.drop_last()
            }))
        },
        Instruction::ForIter { target } => {
            &&& (pre_f.stack@.len() == 0 ==> r == FrameResult::Err(
                Raised::Fatal(FatalReason::StackUnderflow),
            ))
            &&& (pre_f.stack@.len() > 0 ==> match spec_iter(pre_vm.heap@, pre_f.stack@.last()) {
                Option::Some((items, pos)) => if pos < items.len() {
                    r == FrameResult::Ok(Option::<ExecutionResult>::None) && post_f.lasti == i + 1
                        && post_f.stack@ == pre_f.stack@.push(items[pos as int])
                } else {
                    match pre_f.code.spec_target(target) {
                        Option::Some(t) => r == FrameResult::Ok(Option::<ExecutionResult>::None)
                            && post_f.lasti == t && post_f.stack@ == pre_f.stack@.drop_last(),
                        Option::None => r == FrameResult::Err(
                            Raised::Fatal(FatalReason::MissingLabel),
                        ),
                    }
                },
                Option::None => (r matches Result::Err(Raised::Exception(_))) && post_f.stack@
                    == pre_f.stack@.drop_last(),
            })
        },
        Instruction::ReturnValue => {
            &&& (pre_f.stack@.len() == 0 ==> r == FrameResult::Err(
                Raised::Fatal(FatalReason::StackUnderflow),
            ))
            &&& (pre_f.stack@.len() > 0 ==> {
                &&& (r matches Result::Ok(o) ==> o == Option::Some(
                    ExecutionResult::Return(pre_f.stack@.last()),
                ) && post_f.blocks@.len() == 0 && post_vm.exit_log@ == pre_vm.exit_log@
                    + none_exit_calls(pre_f.blocks@) && post_f.stack@ == trunc_all(
                    pre_f.stack@.drop_last(),
                    pre_f.blocks@,
                ))
                &&& (no_exit_raises(pre_f.blocks@, pre_vm.heap@) ==> r is Ok)
                &&& (r matches Result::Err(e) ==> (e matches Raised::Exception(_))
                    && !no_exit_raises(pre_f.blocks@, pre_vm.heap@))
            })
        },
        Instruction::YieldValue => {
            &&& (pre_f.stack@.len() == 0 ==> r == FrameResult::Err(
                Raised::Fatal(FatalReason::StackUnderflow),
            ))
            &&& (pre_f.stack@.len() > 0 ==> r == FrameResult::Ok(
                Option::Some(ExecutionResult::Yield(pre_f.stack@.last())),
            ) && post_f.stack@ == pre_f.stack@.drop_last() && post_f.blocks@ == pre_f.blocks@)
        },
        Instruction::YieldFrom => {
            &&& (pre_f.stack@.len() < 2 ==> r == FrameResult::Err(
                Raised::Fatal(FatalReason::StackUnderflow),
            ))
            &&& (pre_f.stack@.len() >= 2 ==> match spec_iter(
                pre_vm.heap@,
                pre_f.stack@[pre_f.stack@.len() - 2],
            ) {
                Option::Some((items, pos)) => if pos < items.len() {
                    r == FrameResult::Ok(
                        Option::Some(ExecutionResult::Yield(items[pos as int])),
                    ) && post_f.lasti == i && post_f.stack@ == pre_f.stack@.drop_last()
                } else {
                    r == FrameResult::Ok(Option::<ExecutionResult>::None) && post_f.lasti == i + 1
                        && post_f.stack@ == pre_f.stack@.drop_last()
                },
                Option::None => (r matches Result::Err(Raised::Exception(_))) && post_f.stack@
                    == pre_f.stack@.drop_last(),
            })
        },
        Instruction::CleanupWith { end } => {
            &&& (pre_f.blocks@.len() == 0 ==> r == FrameResult::Err(
                Raised::Fatal(FatalReason::NoBlock),
            ))
            &&& (pre_f.blocks@.len() > 0 ==> match pre_f.blocks@.last().typ {
                BlockType::With { end: e2, context_manager } => if e2 == end {
                    &&& post_f.blocks@ == pre_f.blocks@.drop_last()
                    &&& post_f.stack@ == level_trunc(
                        pre_f.stack@,
                        pre_f.blocks@.last().level as int,
                    )
                    &&& post_vm.exit_log@ == pre_vm.exit_log@ + none_exit_call(
                        pre_f.blocks@.last(),
                    )
                    &&& (!cm_exit_raises(pre_vm.heap@, context_manager) ==> r == FrameResult::Ok(
                        Option::<ExecutionResult>::None,
                    ))
                    &&& (r matches Result::Err(e) ==> (e matches Raised::Exception(_))
                        && cm_exit_raises(pre_vm.heap@, context_manager))
                } else {
                    r == FrameResult::Err(Raised::Fatal(FatalReason::ExpectedWithBlock))
                },
                _ => r == FrameResult::Err(Raised::Fatal(FatalReason::ExpectedWithBlock)),
            })
        },
        Instruction::PopBlock => {
            &&& (pre_f.blocks@.len() == 0 ==> r == FrameResult::Err(
                Raised::Fatal(FatalReason::NoBlock),
            ))
            &&& (pre_f.blocks@.len() > 0 ==> match pre_f.blocks@.last().typ {
                BlockType::Loop { .. } => r == FrameResult::Ok(Option::<ExecutionResult>::None)
                    && post_f.blocks@ == pre_f.blocks@.drop_last() && post_f.stack@ == level_trunc(
                    pre_f.stack@,
                    pre_f.blocks@.last().level as int,
                ),
                BlockType::TryExcept { .. } => r == FrameResult::Ok(
                    Option::<ExecutionResult>::None,
                ) && post_f.blocks@ == pre_f.blocks@.drop_last() && post_f.stack@ == level_trunc(
                    pre_f.stack@,
                    pre_f.blocks@.last().level as int,
                ),
                _ => r == FrameResult::Err(Raised::Fatal(FatalReason::BlockStackCorrupt)),
            })
        },
        Instruction::PopException => {
            &&& (pre_f.blocks@.len() == 0 ==> r == FrameResult::Err(
                Raised::Fatal(FatalReason::NoBlock),
            ))
            &&& (pre_f.blocks@.len() > 0 ==> match pre_f.blocks@.last().typ {
                BlockType::ExceptHandler => {
                    &&& r == FrameResult::Ok(Option::<ExecutionResult>::None)
                    &&& post_f.blocks@ == pre_f.blocks@.drop_last()
                    &&& post_f.stack@ == level_trunc(
                        pre_f.stack@,
                        pre_f.blocks@.last().level as int,
                    )
                    &&& post_vm.exc_registers@ == pre_vm.exc_registers@.drop_last()
                },
                _ => r == FrameResult::Err(Raised::Fatal(FatalReason::ExpectedExceptHandler)),
            })
        },
        Instruction::Raise { argc } => {
            &&& post_f.blocks@ == pre_f.blocks@
            &&& (argc == 0 ==> post_f.stack@ == pre_f.stack@)
            &&& (argc == 0 && pre_vm.exc_registers@.len() == 0 ==> (r matches Result::Err(
                Raised::Exception(e),
            ) && crate::vm::fresh_exc_msg(
                pre_vm,
                post_vm,
                e,
                ExcKind::RuntimeError,
                "No active exception to reraise"@,
            )))
            &&& (argc == 1 && pre_f.stack@.len() > 0 ==> match pre_f.stack@.last() {
                Value::Ref(ci) => if ci < pre_vm.hlen() {
                    match pre_vm.heap@[ci as int] {
                        Obj::ExcClass(k) => r matches Result::Err(Raised::Exception(e))
                            && is_exc_kind(post_vm.heap@, e, k),
                        _ => true,
                    }
                } else {
                    true
                },
                _ => true,
            })
        },
        Instruction::UnpackSequence { size } => {
            &&& (pre_f.stack@.len() == 0 ==> r == FrameResult::Err(
                Raised::Fatal(FatalReason::StackUnderflow),
            ))
            &&& (pre_f.stack@.len() > 0 ==> match spec_elements(
                pre_vm.heap@,
                pre_f.stack@.last(),
            ) {
                Option::Some(s) => if s.len() == size {
                    r == FrameResult::Ok(Option::<ExecutionResult>::None) && post_f.stack@.len()
                        == pre_f.stack@.len() - 1 + size && (forall|k: int|
                        0 <= k < size ==> #[trigger] post_f.stack@[pre_f.stack@.len() - 1 + k]
                            == s[size - 1 - k])
                } else {
                    (r matches Result::Err(Raised::Exception(e)) && is_exc_kind(
                        post_vm.heap@,
                        e,
                        ExcKind::ValueError,
                    )) && post_f.stack@ == pre_f.stack@.drop_last()
                },
                Option::None => (r matches Result::Err(Raised::Exception(_))) && post_f.stack@
                    == pre_f.stack@.drop_last(),
            })
        },
        Instruction::UnpackEx { before, after } => {
            &&& (pre_f.stack@.len() == 0 ==> r == FrameResult::Err(
                Raised::Fatal(FatalReason::StackUnderflow),
            ))
            &&& (pre_f.stack@.len() > 0 ==> match spec_elements(
                pre_vm.heap@,
                pre_f.stack@.last(),
            ) {
                Option::Some(s) => if s.len() >= before + after {
                    r == FrameResult::Ok(Option::<ExecutionResult>::None) && post_f.stack@.len()
                        == pre_f.stack@.len() + before + after && (match post_f.stack@[
                        pre_f.stack@.len() - 1 + after] {
                        Value::Ref(li) => li < post_vm.hlen() && (match post_vm.heap@[li as int] {
                            Obj::List(l) => l@ == s.subrange(before as int, s.len() - after as int),
                            _ => false,
                        }),
                        _ => false,
                    }) && (forall|j: int|
                        0 <= j < after ==> #[trigger] post_f.stack@[pre_f.stack@.len() - 1 + j]
                            == s[s.len() - 1 - j]) && (forall|j: int|
                        0 <= j < before ==> #[trigger] post_f.stack@[pre_f.stack@.len() + after
                            + j] == s[before - 1 - j])
                } else {
                    (r matches Result::Err(Raised::Exception(e)) && is_exc_kind(
                        post_vm.heap@,
                        e,
                        ExcKind::ValueError,
                    )) && post_f.stack@ == pre_f.stack@.drop_last()
                },
                Option::None => (r matches Result::Err(Raised::Exception(_))) && post_f.stack@
                    == pre_f.stack@.drop_last(),
            })
        },
        Instruction::LoadConst { value } => {
            &&& r == FrameResult::Ok(Option::<ExecutionResult>::None)
            &&& post_f.blocks@ == pre_f.blocks@
            &&& post_f.stack@.len() == pre_f.stack@.len() + 1
            &&& match crate::vm::const_scalar(value) {
                Option::Some(v) => post_f.stack@ == pre_f.stack@.push(v),
                Option::None => post_f.stack@.take(pre_f.stack@.len() as int) == pre_f.stack@ && (
                match post_f.stack@.last() {
                    Value::Ref(k) => k < post_vm.hlen() && (post_vm.heap@[k as int]
                        matches Obj::Tuple(_)),
                    _ => false,
                }),
            }
        },
        Instruction::LoadName { name, scope } => match spec_scope_load(pre_f.scope, scope, name@) {
            Option::Some(v) => r == FrameResult::Ok(Option::<ExecutionResult>::None)
                && post_f.stack@ == pre_f.stack@.push(v) && post_f.scope == pre_f.scope
                && post_f.blocks@ == pre_f.blocks@,
            Option::None => (r matches Result::Err(Raised::Exception(e)) && is_exc_kind(
                post_vm.heap@,
                e,
                ExcKind::NameError,
            )) && post_f.stack@ == pre_f.stack@,
        },
        Instruction::StoreName { name, scope } => {
            &&& (pre_f.stack@.len() == 0 ==> r == FrameResult::Err(
                Raised::Fatal(FatalReason::StackUnderflow),
            ))
            &&& (pre_f.stack@.len() > 0 ==> r == FrameResult::Ok(Option::<ExecutionResult>::None)
                && post_f.stack@ == pre_f.stack@.drop_last() && (match scope {
                NameScope::Local => post_f.scope.locals@ == crate::value::assoc_set(
                    pre_f.scope.locals@,
                    name,
                    pre_f.stack@.last(),
                ) && post_f.scope.globals@ == pre_f.scope.globals@ && post_f.scope.cells@
                    == pre_f.scope.cells@,
                NameScope::Global => post_f.scope.globals@ == crate::value::assoc_set(
                    pre_f.scope.globals@,
                    name,
                    pre_f.stack@.last(),
                ) && post_f.scope.locals@ == pre_f.scope.locals@ && post_f.scope.cells@
                    == pre_f.scope.cells@,
                NameScope::NonLocal => post_f.scope.cells@ == crate::value::assoc_set(
                    pre_f.scope.cells@,
                    name,
                    pre_f.stack@.last(),
                ) && post_f.scope.locals@ == pre_f.scope.locals@ && post_f.scope.globals@
                    == pre_f.scope.globals@,
            }))
        },
        Instruction::DeleteName { name } => {
            &&& post_f.stack@ == pre_f.stack@
            &&& post_f.scope.locals@ == crate::value::assoc_remove(pre_f.scope.locals@, name@)
            &&& post_f.scope.globals@ == pre_f.scope.globals@
            &&& post_f.scope.cells@ == pre_f.scope.cells@
            &&& match assoc_get(pre_f.scope.locals@, name@) {
                Option::Some(_) => r == FrameResult::Ok(Option::<ExecutionResult>::None),
                Option::None => r matches Result::Err(Raised::Exception(e)) && is_exc_kind(
                    post_vm.heap@,
                    e,
                    ExcKind::NameError,
                ),
            }
        },
        Instruction::BinaryOperation { op, inplace } => {
            &&& (pre_f.stack@.len() < 2 ==> r == FrameResult::Err(
                Raised::Fatal(FatalReason::StackUnderflow),
            ))
            &&& (inplace && op == BinaryOperator::Subscript && pre_f.stack@.len() >= 2 ==> r
                == FrameResult::Err(Raised::Fatal(FatalReason::InPlaceSubscript)))
            &&& (pre_f.stack@.len() >= 2 && !(inplace && op == BinaryOperator::Subscript)
                ==> match spec_binop(
                pre_vm.heap@,
                op,
                pre_f.stack@[pre_f.stack@.len() - 2],
                pre_f.stack@.last(),
            ) {
                OpOut::Push(v) => r == FrameResult::Ok(Option::<ExecutionResult>::None)
                    && post_f.stack@.len() == pre_f.stack@.len() - 1 && post_f.stack@.take(
                    pre_f.stack@.len() - 2,
                ) == pre_f.stack@.take(pre_f.stack@.len() - 2) && post_f.stack@.last() == v,
                OpOut::NewStr(sq) => r == FrameResult::Ok(Option::<ExecutionResult>::None)
                    && post_f.stack@.len() == pre_f.stack@.len() - 1 && post_f.stack@.take(
                    pre_f.stack@.len() - 2,
                ) == pre_f.stack@.take(pre_f.stack@.len() - 2) && (match post_f.stack@.last() {
                    Value::Str(st) => st@ == sq,
                    _ => false,
                }),
                OpOut::NewList(sq) => r == FrameResult::Ok(Option::<ExecutionResult>::None)
                    && post_f.stack@.len() == pre_f.stack@.len() - 1 && post_f.stack@.take(
                    pre_f.stack@.len() - 2,
                ) == pre_f.stack@.take(pre_f.stack@.len() - 2) && (match post_f.stack@.last() {
                    Value::Ref(k) => k < post_vm.hlen() && (match post_vm.heap@[k as int] {
                        Obj::List(l) => l@ == sq,
                        _ => false,
                    }),
                    _ => false,
                }),
                OpOut::NewTuple(sq) => r == FrameResult::Ok(Option::<ExecutionResult>::None)
                    && post_f.stack@.len() == pre_f.stack@.len() - 1 && post_f.stack@.take(
                    pre_f.stack@.len() - 2,
                ) == pre_f.stack@.take(pre_f.stack@.len() - 2) && (match post_f.stack@.last() {
                    Value::Ref(k) => k < post_vm.hlen() && (match post_vm.heap@[k as int] {
                        Obj::Tuple(t) => t@ == sq,
                        _ => false,
                    }),
                    _ => false,
                }),
                OpOut::Fail(k) => (r matches Result::Err(Raised::Exception(e)) && is_exc_kind(
                    post_vm.heap@,
                    e,
                    k,
                )) && post_f.stack@ == pre_f.stack@.take(pre_f.stack@.len() - 2),
            })
        },
        Instruction::UnaryOperation { op } => {
            &&& (pre_f.stack@.len() == 0 ==> r == FrameResult::Err(
                Raised::Fatal(FatalReason::StackUnderflow),
            ))
            &&& (pre_f.stack@.len() > 0 && op == UnaryOperator::Not ==> r == FrameResult::Ok(
                Option::<ExecutionResult>::None,
            ) && post_f.stack@ == pre_f.stack@.drop_last().push(
                Value::Bool(!spec_boolval(pre_vm.heap@, pre_f.stack@.last())),
            ))
            &&& (pre_f.stack@.len() > 0 && op != UnaryOperator::Not ==> match spec_unop(
                op,
                pre_f.stack@.last(),
            ) {
                OpOut::Push(v) => r == FrameResult::Ok(Option::<ExecutionResult>::None)
                    && post_f.stack@ == pre_f.stack@.drop_last().push(v),
                OpOut::Fail(k) => (r matches Result::Err(Raised::Exception(e)) && is_exc_kind(
                    post_vm.heap@,
                    e,
                    k,
                )) && post_f.stack@ == pre_f.stack@.drop_last(),
                _ => true,
            })
        },
        Instruction::CompareOperation { op } => {
            &&& (pre_f.stack@.len() < 2 ==> r == FrameResult::Err(
                Raised::Fatal(FatalReason::StackUnderflow),
            ))
            &&& (pre_f.stack@.len() >= 2 ==> match spec_compare(
                pre_vm.heap@,
                op,
                pre_f.stack@[pre_f.stack@.len() - 2],
                pre_f.stack@.last(),
            ) {
                OpOut::Push(v) => r == FrameResult::Ok(Option::<ExecutionResult>::None)
                    && post_f.stack@ == pre_f.stack@.take(pre_f.stack@.len() - 2).push(v),
                OpOut::Fail(k) => (r matches Result::Err(Raised::Exception(e)) && is_exc_kind(
                    post_vm.heap@,
                    e,
                    k,
                )) && post_f.stack@ == pre_f.stack@.take(pre_f.stack@.len() - 2),
                _ => true,
            })
        },
        Instruction::BuildString { size } => {
            &&& (pre_f.stack@.len() < size ==> r == FrameResult::Err(
                Raised::Fatal(FatalReason::StackUnderflow),
            ))
            &&& (pre_f.stack@.len() >= size ==> match concat_strs(
                pre_f.stack@.skip(pre_f.stack@.len() - size),
            ) {
                Option::Some(cs) => r == FrameResult::Ok(Option::<ExecutionResult>::None)
                    && post_f.stack@.len() == pre_f.stack@.len() - size + 1 && post_f.stack@.take(
                    pre_f.stack@.len() - size,
                ) == pre_f.stack@.take(pre_f.stack@.len() - size) && (match post_f.stack@.last() {
                    Value::Str(st) => st@ == cs,
                    _ => false,
                }),
                Option::None => r == FrameResult::Err(Raised::Fatal(FatalReason::BadOperandType)),
            })
        },
        Instruction::BuildList { size, unpack } => {
            &&& (pre_f.stack@.len() < size ==> r == FrameResult::Err(
                Raised::Fatal(FatalReason::StackUnderflow),
            ))
            &&& (pre_f.stack@.len() >= size ==> match (if unpack {
                flatten_elems(pre_vm.heap@, pre_f.stack@.skip(pre_f.stack@.len() - size))
            } else {
                Option::Some(pre_f.stack@.skip(pre_f.stack@.len() - size))
            }) {
                Option::Some(es) => r == FrameResult::Ok(Option::<ExecutionResult>::None)
                    && post_f.stack@.len() == pre_f.stack@.len() - size + 1 && post_f.stack@.take(
                    pre_f.stack@.len() - size,
                ) == pre_f.stack@.take(pre_f.stack@.len() - size) && (match post_f.stack@.last() {
                    Value::Ref(k) => k < post_vm.hlen() && (match post_vm.heap@[k as int] {
                        Obj::List(l) => l@ == es,
                        _ => false,
                    }),
                    _ => false,
                }),
                Option::None => r matches Result::Err(Raised::Exception(_)),
            })
        },
        Instruction::BuildTuple { size, unpack } => {
            &&& (pre_f.stack@.len() < size ==> r == FrameResult::Err(
                Raised::Fatal(FatalReason::StackUnderflow),
            ))
            &&& (pre_f.stack@.len() >= size ==> match (if unpack {
                flatten_elems(pre_vm.heap@, pre_f.stack@.skip(pre_f.stack@.len() - size))
            } else {
                Option::Some(pre_f.stack@.skip(pre_f.stack@.len() - size))
            }) {
                Option::Some(es) => r == FrameResult::Ok(Option::<ExecutionResult>::None)
                    && post_f.stack@.len() == pre_f.stack@.len() - size + 1 && post_f.stack@.take(
                    pre_f.stack@.len() - size,
                ) == pre_f.stack@.take(pre_f.stack@.len() - size) && (match post_f.stack@.last() {
                    Value::Ref(k) => k < post_vm.hlen() && (match post_vm.heap@[k as int] {
                        Obj::Tuple(t) => t@ == es,
                        _ => false,
                    }),
                    _ => false,
                }),
                Option::None => r matches Result::Err(Raised::Exception(_)),
            })
        },
        Instruction::BuildSet { size, unpack } => r == FrameResult::Ok(
            Option::<ExecutionResult>::None,
        ) ==> match post_f.stack@.last() {
            Value::Ref(k) => k < post_vm.hlen() && (post_vm.heap@[k as int]
                matches Obj::SetObj(_)),
            _ => false,
        },
        Instruction::BuildMap { size, unpack } => r == FrameResult::Ok(
            Option::<ExecutionResult>::None,
        ) ==> match post_f.stack@.last() {
            Value::Ref(k) => k < post_vm.hlen() && (post_vm.heap@[k as int] matches Obj::Dict(_)),
            _ => false,
        },
        Instruction::SetupLoop { start, end } => r == FrameResult::Ok(
            Option::<ExecutionResult>::None,
        ) && post_f.stack@ == pre_f.stack@ && post_f.blocks@ == pre_f.blocks@.push(
            Block {
                typ: BlockType::Loop { start, end },
                level: pre_f.stack@.len() as usize,
            },
        ),
        Instruction::SetupExcept { handler } => r == FrameResult::Ok(
            Option::<ExecutionResult>::None,
        ) && post_f.stack@ == pre_f.stack@ && post_f.blocks@ == pre_f.blocks@.push(
            Block {
                typ: BlockType::TryExcept { handler },
                level: pre_f.stack@.len() as usize,
            },
        ),
        Instruction::SetupWith { end } => {
            &&& (pre_f.stack@.len() == 0 ==> r == FrameResult::Err(
                Raised::Fatal(FatalReason::StackUnderflow),
            ))
            &&& (pre_f.stack@.len() > 0 ==> match pre_f.stack@.last() {
                Value::Ref(ci) => if ci < pre_vm.hlen() {
                    match pre_vm.heap@[ci as int] {
                        Obj::CtxManager(c) => {
                            &&& r == FrameResult::Ok(Option::<ExecutionResult>::None)
                            &&& post_f.blocks@ == pre_f.blocks@.push(
                                Block {
                                    typ: BlockType::With {
                                        end,
                                        context_manager: pre_f.stack@.last(),
                                    },
                                    level: (pre_f.stack@.len() - 1) as usize,
                                },
                            )
                            &&& post_f.stack@ == pre_f.stack@.drop_last().push(c.enter_value)
                            &&& post_vm.enter_log@ == pre_vm.enter_log@.push(ci)
                        },
                        _ => (r matches Result::Err(Raised::Exception(e)) && is_exc_kind(
                            post_vm.heap@,
                            e,
                            ExcKind::TypeError,
                        )) && post_f.stack@ == pre_f.stack@.drop_last(),
                    }
                } else {
                    (r matches Result::Err(Raised::Exception(e)) && is_exc_kind(
                        post_vm.heap@,
                        e,
                        ExcKind::TypeError,
                    )) && post_f.stack@ == pre_f.stack@.drop_last()
                },
                _ => (r matches Result::Err(Raised::Exception(e)) && is_exc_kind(
                    post_vm.heap@,
                    e,
                    ExcKind::TypeError,
                )) && post_f.stack@ == pre_f.stack@.drop_last(),
            })
        },
        Instruction::Break => {
            &&& (has_loop(pre_f.blocks@) && no_exit_raises(pre_f.blocks@, pre_vm.heap@)
                ==> match loop_prefix(pre_f.blocks@).last().typ {
                BlockType::Loop { end, .. } => match pre_f.code.spec_target(end) {
                    Option::Some(t) => r == FrameResult::Ok(Option::<ExecutionResult>::None)
                        && post_f.lasti == t && post_f.blocks@ == loop_prefix(
                        pre_f.blocks@,
                    ).drop_last(),
                    Option::None => r == FrameResult::Err(
                        Raised::Fatal(FatalReason::MissingLabel),
                    ),
                },
                _ => false,
            })
            &&& (!has_loop(pre_f.blocks@) && no_exit_raises(pre_f.blocks@, pre_vm.heap@) ==> r
                == FrameResult::Err(Raised::Fatal(FatalReason::NotInLoop)))
        },
        Instruction::Continue => {
            &&& (has_loop(pre_f.blocks@) && no_exit_raises(pre_f.blocks@, pre_vm.heap@)
                ==> match loop_prefix(pre_f.blocks@).last().typ {
                BlockType::Loop { start, .. } => match pre_f.code.spec_target(start) {
                    Option::Some(t) => r == FrameResult::Ok(Option::<ExecutionResult>::None)
                        && post_f.lasti == t && post_f.blocks@ == loop_prefix(pre_f.blocks@),
                    Option::None => r == FrameResult::Err(
                        Raised::Fatal(FatalReason::MissingLabel),
                    ),
                },
                _ => false,
            })
            &&& (!has_loop(pre_f.blocks@) && no_exit_raises(pre_f.blocks@, pre_vm.heap@) ==> r
                == FrameResult::Err(Raised::Fatal(FatalReason::NotInLoop)))
        },
        _ => true,
    }
}

impl Frame {
    /// Dispatch the data-movement, name, container, and operator opcodes;
    /// `None` hands the instruction to the control-flow dispatcher.
    #[verifier::rlimit(100)]
    #[verifier::spinoff_prover]
    fn dispatch_data(&mut self, vm: &mut Vm, i: usize) -> (ropt: Option<FrameResult>)
        requires
            old(self).wf(*old(vm)),
            0 <= i < old(self).code.instructions@.len(),
            old(self).lasti == i + 1,
        ensures
            final(self).wf(*final(vm)),
            Frame::step_basics(*old(self), *old(vm), *final(self), *final(vm)),
            ropt is None ==> *final(self) == *old(self) && *final(vm) == *old(vm)
                && !data_opcode(old(self).code.instructions@[i as int]),
            ropt matches Option::Some(r) ==> {
                &&& (!(r matches Result::Err(Raised::Fatal(_))) ==> Frame::step_account(
                    *old(self),
                    *old(vm),
                    *final(self),
                    *final(vm),
                ))
                &&& dispatch_post(*old(self), *old(vm), *final(self), *final(vm), i as int, r)
            },
    {
        let r: FrameResult = match &self.code.instructions[i] {

            Instruction::LoadConst { value } => {
                let obj = vm.unwrap_constant(value);
                proof {
                    lemma_frame_wf_grow(*self, *old(vm), *vm);
                }
                self.push_value(obj);
                proof {
                    assert(self.stack@.take(old(self).stack@.len() as int)
                        =~= old(self).stack@);
                }
                Result::Ok(Option::None)
            },
            Instruction::Import { name, symbols, level } => {
                let n = match name {
                    Option::Some(s) => Option::Some(s.clone()),
                    Option::None => Option::<String>::None,
                };
                let syms = clone_strings(symbols);
                let lv = *level;
                self.import(vm, &n, &syms, lv)
            },
            Instruction::ImportStar => self.import_star(vm),
            Instruction::ImportFrom { name } => {
                let n = name.clone();
                self.import_from(vm, &n)
            },
            Instruction::LoadName { name, scope } => {
                let n = name.clone();
                let sc = *scope;
                self.load_name(vm, &n, sc)
            },
            Instruction::StoreName { name, scope } => {
                let n = name.clone();
                let sc = *scope;
                self.store_name(vm, &n, sc)
            },
            Instruction::DeleteName { name } => {
                let n = name.clone();
                self.delete_name(vm, &n)
            },
            Instruction::StoreSubscript => self.execute_store_subscript(vm),
            Instruction::DeleteSubscript => self.execute_delete_subscript(vm),
            Instruction::Pop => {
                match self.pop_value() {
                    Option::Some(_) => Result::Ok(Option::None),
                    Option::None => Result::Err(Raised::Fatal(FatalReason::StackUnderflow)),
                }
            },
            Instruction::Duplicate => {
                match self.pop_value() {
                    Option::Some(value) => {
                        self.push_value(value.clone());
                        self.push_value(value);
                        Result::Ok(Option::None)
                    },
                    Option::None => Result::Err(Raised::Fatal(FatalReason::StackUnderflow)),
                }
            },
            Instruction::Rotate { amount } => {
                let amount = *amount;
                if amount < 2 {
                    return Option::Some(Result::Err(Raised::Fatal(FatalReason::BadRotation)));
                }
                let n = self.stack.len();
                if n < amount {
                    return Option::Some(Result::Err(Raised::Fatal(FatalReason::StackUnderflow)));
                }
                let top = self.stack.remove(n - 1);
                self.stack.insert(n - amount, top);
                Result::Ok(Option::None)
            },
            Instruction::Reverse { amount } => {
                let amount = *amount;
                match self.pop_multiple(amount) {
                    Option::Some(values) => {
                        self.push_reversed(values);
                        Result::Ok(Option::None)
                    },
                    Option::None => Result::Err(Raised::Fatal(FatalReason::StackUnderflow)),
                }
            },
            Instruction::BuildString { size } => {
                let size = *size;
                match self.pop_multiple(size) {
                    Option::Some(values) => {
                        match concat_str_values(&values) {
                            Option::Some(s) => {
                                self.push_value(Value::Str(s));
                                proof {
                                    assert(self.stack@.take(self.stack@.len() - 1)
                                        =~= old(self).stack@.take(self.stack@.len() - 1));
                                }
                                Result::Ok(Option::None)
                            },
                            Option::None => Result::Err(
                                Raised::Fatal(FatalReason::BadOperandType),
                            ),
                        }
                    },
                    Option::None => Result::Err(Raised::Fatal(FatalReason::StackUnderflow)),
                }
            },
            Instruction::BuildList { size, unpack } => {
                let size = *size;
                let unpack = *unpack;
                let elements = match self.get_elements(vm, size, unpack) {
                    Result::Ok(vs) => vs,
                    Result::Err(e) => {
                        return Option::Some(Result::Err(e));
                    },
                };
                proof {
                    lemma_vals_wf_mono(elements@, vm.hlen(), vm.hlen() + 1);
                }
                let ghost mid_vm = *vm;
                let list_obj = vm.alloc_obj(Obj::List(elements));
                proof {
                    lemma_frame_wf_grow(*self, mid_vm, *vm);
                }
                self.push_value(list_obj);
                proof {
                    assert(self.stack@.take(self.stack@.len() - 1) =~= old(self).stack@.take(
                        self.stack@.len() - 1,
                    ));
                }
                Result::Ok(Option::None)
            },
            Instruction::BuildTuple { size, unpack } => {
                let size = *size;
                let unpack = *unpack;
                let elements = match self.get_elements(vm, size, unpack) {
                    Result::Ok(vs) => vs,
                    Result::Err(e) => {
                        return Option::Some(Result::Err(e));
                    },
                };
                proof {
                    lemma_vals_wf_mono(elements@, vm.hlen(), vm.hlen() + 1);
                }
                let ghost mid_vm = *vm;
                let tup_obj = vm.alloc_obj(Obj::Tuple(elements));
                proof {
                    lemma_frame_wf_grow(*self, mid_vm, *vm);
                }
                self.push_value(tup_obj);
                proof {
                    assert(self.stack@.take(self.stack@.len() - 1) =~= old(self).stack@.take(
                        self.stack@.len() - 1,
                    ));
                }
                Result::Ok(Option::None)
            },
            Instruction::BuildSet { size, unpack } => {
                let size = *size;
                let unpack = *unpack;
                let elements = match self.get_elements(vm, size, unpack) {
                    Result::Ok(vs) => vs,
                    Result::Err(e) => {
                        return Option::Some(Result::Err(e));
                    },
                };
                let distinct = dedup_values(&elements, Ghost(vm.hlen()));
                proof {
                    lemma_vals_wf_mono(distinct@, vm.hlen(), vm.hlen() + 1);
                }
                let ghost mid_vm = *vm;
                let set_obj = vm.alloc_obj(Obj::SetObj(distinct));
                proof {
                    lemma_frame_wf_grow(*self, mid_vm, *vm);
                }
                self.push_value(set_obj);
                proof {
                    assert(self.stack@.take(self.stack@.len() - 1) =~= old(self).stack@.take(
                        self.stack@.len() - 1,
                    ));
                }
                Result::Ok(Option::None)
            },
            Instruction::BuildMap { size, unpack } => {
                let size = *size;
                let unpack = *unpack;
                self.execute_build_map(vm, size, unpack)
            },
            Instruction::BuildSlice { size } => {
                let size = *size;
                if size != 2 && size != 3 {
                    return Option::Some(Result::Err(Raised::Fatal(FatalReason::BadSliceArity)));
                }
                let step: Option<Value> = if size == 3 {
                    match self.pop_value() {
                        Option::Some(v) => Option::Some(v),
                        Option::None => {
                            return Option::Some(Result::Err(Raised::Fatal(FatalReason::StackUnderflow)));
                        },
                    }
                } else {
                    Option::None
                };
                let stop = match self.pop_value() {
                    Option::Some(v) => v,
                    Option::None => {
                        return Option::Some(Result::Err(Raised::Fatal(FatalReason::StackUnderflow)));
                    },
                };
                let start = match self.pop_value() {
                    Option::Some(v) => v,
                    Option::None => {
                        return Option::Some(Result::Err(Raised::Fatal(FatalReason::StackUnderflow)));
                    },
                };
                let ghost mid_vm = *vm;
                let obj = vm.alloc_obj(Obj::Slice { start, stop, step });
                proof {
                    lemma_frame_wf_grow(*self, mid_vm, *vm);
                }
                self.push_value(obj);
                Result::Ok(Option::None)
            },
            Instruction::ListAppend { i: depth } => {
                let depth = *depth;
                let list_obj = match self.nth_value(depth) {
                    Option::Some(v) => v,
                    Option::None => {
                        return Option::Some(Result::Err(Raised::Fatal(FatalReason::StackUnderflow)));
                    },
                };
                let item = match self.pop_value() {
                    Option::Some(v) => v,
                    Option::None => {
                        return Option::Some(Result::Err(Raised::Fatal(FatalReason::StackUnderflow)));
                    },
                };
                let res = vm.list_append(&list_obj, item);
                proof {
                    lemma_frame_wf_grow_or_slot(*self, *old(vm), *vm);
                }
                match res {
                    Result::Ok(()) => Result::Ok(Option::None),
                    Result::Err(e) => Result::Err(Raised::Exception(e)),
                }
            },
            Instruction::SetAdd { i: depth } => {
                let depth = *depth;
                let set_obj = match self.nth_value(depth) {
                    Option::Some(v) => v,
                    Option::None => {
                        return Option::Some(Result::Err(Raised::Fatal(FatalReason::StackUnderflow)));
                    },
                };
                let item = match self.pop_value() {
                    Option::Some(v) => v,
                    Option::None => {
                        return Option::Some(Result::Err(Raised::Fatal(FatalReason::StackUnderflow)));
                    },
                };
                let res = vm.set_add(&set_obj, item);
                proof {
                    lemma_frame_wf_grow_or_slot(*self, *old(vm), *vm);
                }
                match res {
                    Result::Ok(()) => Result::Ok(Option::None),
                    Result::Err(e) => Result::Err(Raised::Exception(e)),
                }
            },
            Instruction::MapAdd { i: depth } => {
                let depth = *depth;
                let d1 = match depth.checked_add(1) {
                    Option::Some(x) => x,
                    Option::None => {
                        return Option::Some(Result::Err(Raised::Fatal(FatalReason::StackUnderflow)));
                    },
                };
                let dict_obj = match self.nth_value(d1) {
                    Option::Some(v) => v,
                    Option::None => {
                        return Option::Some(Result::Err(Raised::Fatal(FatalReason::StackUnderflow)));
                    },
                };
                let value = match self.pop_value() {
                    Option::Some(v) => v,
                    Option::None => {
                        return Option::Some(Result::Err(Raised::Fatal(FatalReason::StackUnderflow)));
                    },
                };
                let key = match self.pop_value() {
                    Option::Some(v) => v,
                    Option::None => {
                        return Option::Some(Result::Err(Raised::Fatal(FatalReason::StackUnderflow)));
                    },
                };
                let res = vm.set_item(&dict_obj, &key, value);
                proof {
                    lemma_frame_wf_grow_or_slot(*self, *old(vm), *vm);
                }
                match res {
                    Result::Ok(()) => Result::Ok(Option::None),
                    Result::Err(e) => Result::Err(Raised::Exception(e)),
                }
            },
            Instruction::BinaryOperation { op, inplace } => {
                let op = *op;
                let inplace = *inplace;
                self.execute_binop(vm, op, inplace)
            },
            Instruction::LoadAttr { name } => {
                let n = name.clone();
                self.load_attr(vm, &n)
            },
            Instruction::StoreAttr { name } => {
                let n = name.clone();
                self.store_attr(vm, &n)
            },
            Instruction::DeleteAttr { name } => {
                let n = name.clone();
                self.delete_attr(vm, &n)
            },
            Instruction::UnaryOperation { op } => {
                let op = *op;
                self.execute_unop(vm, op)
            },
            Instruction::CompareOperation { op } => {
                let op = *op;
                self.execute_compare(vm, op)
            },
            _ => {
                return Option::None;
            },
        };
        Option::Some(r)
    }

    /// Dispatch the control-flow, block, call, and raise opcodes.
    #[verifier::rlimit(100)]
    #[verifier::spinoff_prover]
    fn dispatch_control(&mut self, vm: &mut Vm, i: usize) -> (r: FrameResult)
        requires
            old(self).wf(*old(vm)),
            0 <= i < old(self).code.instructions@.len(),
            old(self).lasti == i + 1,
            !data_opcode(old(self).code.instructions@[i as int]),
        ensures
            final(self).wf(*final(vm)),
            Frame::step_basics(*old(self), *old(vm), *final(self), *final(vm)),
            !(r matches Result::Err(Raised::Fatal(_))) ==> Frame::step_account(
                *old(self),
                *old(vm),
                *final(self),
                *final(vm),
            ),
            dispatch_post(*old(self), *old(vm), *final(self), *final(vm), i as int, r),
    {
        match &self.code.instructions[i] {
            Instruction::ReturnValue => {
                let value = match self.pop_value() {
                    Option::Some(v) => v,
                    Option::None => {
                        return Result::Err(Raised::Fatal(FatalReason::StackUnderflow));
                    },
                };
                let ghost mid_f = *self;
                match self.unwind_blocks(vm) {
                    Result::Ok(()) => {
                        proof {
                            assert(mid_f.blocks@.skip(0) =~= mid_f.blocks@);
                        }
                        Result::Ok(Option::Some(ExecutionResult::Return(value)))
                    },
                    Result::Err(e) => Result::Err(e),
                }
            },
            Instruction::YieldValue => {
                match self.pop_value() {
                    Option::Some(value) => Result::Ok(
                        Option::Some(ExecutionResult::Yield(value)),
                    ),
                    Option::None => Result::Err(Raised::Fatal(FatalReason::StackUnderflow)),
                }
            },
            Instruction::YieldFrom => {
                // The sent-in value is popped and discarded; the delegate
                // iterator stays on the stack.
                match self.pop_value() {
                    Option::Some(_) => {},
                    Option::None => {
                        return Result::Err(Raised::Fatal(FatalReason::StackUnderflow));
                    },
                }
                let top_of_stack = match self.last_value() {
                    Option::Some(v) => v,
                    Option::None => {
                        return Result::Err(Raised::Fatal(FatalReason::StackUnderflow));
                    },
                };
                proof {
                    assert(self.stack@.last() == self.stack@[self.stack@.len() - 1]);
                }
                let next_obj = match vm.get_next_object(&top_of_stack) {
                    Result::Ok(o) => o,
                    Result::Err(e) => {
                        proof {
                            lemma_frame_wf_grow_or_slot(*self, *old(vm), *vm);
                        }
                        return Result::Err(Raised::Exception(e));
                    },
                };
                proof {
                    lemma_frame_wf_grow_or_slot(*self, *old(vm), *vm);
                }
                match next_obj {
                    Option::Some(value) => {
                        // Rewind so re-entry retries this same instruction.
                        self.lasti = self.lasti - 1;
                        Result::Ok(Option::Some(ExecutionResult::Yield(value)))
                    },
                    Option::None => Result::Ok(Option::None),
                }
            },
            Instruction::SetupLoop { start, end } => {
                let start = *start;
                let end = *end;
                let ghost pre_blocks = self.blocks@;
                self.push_block(BlockType::Loop { start, end });
                proof {
                    lemma_counts_push(
                        pre_blocks,
                        Block {
                            typ: BlockType::Loop { start, end },
                            level: old(self).stack@.len() as usize,
                        },
                    );
                }
                Result::Ok(Option::None)
            },
            Instruction::SetupExcept { handler } => {
                let handler = *handler;
                let ghost pre_blocks = self.blocks@;
                self.push_block(BlockType::TryExcept { handler });
                proof {
                    lemma_counts_push(
                        pre_blocks,
                        Block {
                            typ: BlockType::TryExcept { handler },
                            level: old(self).stack@.len() as usize,
                        },
                    );
                }
                Result::Ok(Option::None)
            },
            Instruction::SetupWith { end } => {
                let end = *end;
                let context_manager = match self.pop_value() {
                    Option::Some(v) => v,
                    Option::None => {
                        return Result::Err(Raised::Fatal(FatalReason::StackUnderflow));
                    },
                };
                let obj = match vm.ctx_enter(&context_manager) {
                    Result::Ok(o) => o,
                    Result::Err(e) => {
                        proof {
                            lemma_frame_wf_grow(*self, *old(vm), *vm);
                        }
                        return Result::Err(Raised::Exception(e));
                    },
                };
                let ghost pre_blocks = self.blocks@;
                let ghost level = self.stack@.len();
                self.push_block(
                    BlockType::With { end, context_manager: context_manager.clone() },
                );
                proof {
                    lemma_counts_push(
                        pre_blocks,
                        Block {
                            typ: BlockType::With { end, context_manager },
                            level: level as usize,
                        },
                    );
                }
                self.push_value(obj);
                Result::Ok(Option::None)
            },
            Instruction::CleanupWith { end: end1 } => {
                let end1 = *end1;
                let matching = match self.current_block() {
                    Option::Some(b) => match b.typ {
                        BlockType::With { end: end2, .. } => end1 == end2,
                        _ => false,
                    },
                    Option::None => {
                        return Result::Err(Raised::Fatal(FatalReason::NoBlock));
                    },
                };
                if !matching {
                    return Result::Err(Raised::Fatal(FatalReason::ExpectedWithBlock));
                }
                let ghost pre_f = *self;
                let block = match self.pop_block() {
                    Option::Some(b) => b,
                    Option::None => {
                        proof {
                            assert(false);
                        }
                        return Result::Err(Raised::Fatal(FatalReason::NoBlock));
                    },
                };
                proof {
                    assert(pre_f.blocks@.drop_last().push(pre_f.blocks@.last())
                        =~= pre_f.blocks@);
                    lemma_counts_push(pre_f.blocks@.drop_last(), pre_f.blocks@.last());
                    assert(blocks_wf(pre_f.blocks@, vm.heap@));
                    assert(pre_f.blocks@[pre_f.blocks@.len() - 1] == block);
                }
                match block.typ {
                    BlockType::With { context_manager, .. } => {
                        let ghost mid_vm = *vm;
                        let res = self.call_context_manager_exit_no_exception(
                            vm,
                            &context_manager,
                        );
                        proof {
                            lemma_frame_wf_grow(*self, mid_vm, *vm);
                            lemma_counts_nonneg(self.blocks@);
                            match context_manager {
                                Value::Ref(ci) => {
                                    assert(mid_vm.heap@[ci as int] == old(vm).heap@[ci as int]);
                                    assert(vm.exit_log@ =~= old(vm).exit_log@ + none_exit_call(
                                        old(self).blocks@.last(),
                                    ));
                                },
                                _ => {
                                    assert(false);
                                },
                            }
                        }
                        match res {
                            Result::Ok(_) => Result::Ok(Option::None),
                            Result::Err(exc) => Result::Err(Raised::Exception(exc)),
                        }
                    },
                    _ => {
                        proof {
                            assert(false);
                        }
                        Result::Err(Raised::Fatal(FatalReason::ExpectedWithBlock))
                    },
                }
            },
            Instruction::PopBlock => {
                // Popping a pending With or handler block here would skip its
                // exit action and break the pairing discipline; the compiler
                // never emits that, so it marks corrupt code.
                let droppable = match self.current_block() {
                    Option::Some(b) => match b.typ {
                        BlockType::Loop { .. } => true,
                        BlockType::TryExcept { .. } => true,
                        _ => false,
                    },
                    Option::None => {
                        return Result::Err(Raised::Fatal(FatalReason::NoBlock));
                    },
                };
                if !droppable {
                    return Result::Err(Raised::Fatal(FatalReason::BlockStackCorrupt));
                }
                let ghost pre_f = *self;
                match self.pop_block() {
                    Option::Some(_) => {},
                    Option::None => {
                        proof {
                            assert(false);
                        }
                    },
                }
                proof {
                    assert(pre_f.blocks@.drop_last().push(pre_f.blocks@.last())
                        =~= pre_f.blocks@);
                    lemma_counts_push(pre_f.blocks@.drop_last(), pre_f.blocks@.last());
                }
                Result::Ok(Option::None)
            },
            Instruction::GetIter => {
                let iterated_obj = match self.pop_value() {
                    Option::Some(v) => v,
                    Option::None => {
                        return Result::Err(Raised::Fatal(FatalReason::StackUnderflow));
                    },
                };
                proof {
                    assert(old(self).stack@.last() == old(self).stack@[old(self).stack@.len()
                        - 1]);
                }
                let res = vm.get_iter(&iterated_obj);
                proof {
                    lemma_frame_wf_grow(*self, *old(vm), *vm);
                }
                match res {
                    Result::Ok(iter_obj) => {
                        self.push_value(iter_obj);
                        Result::Ok(Option::None)
                    },
                    Result::Err(e) => Result::Err(Raised::Exception(e)),
                }
            },
            Instruction::ForIter { target } => {
                let target = *target;
                let top_of_stack = match self.last_value() {
                    Option::Some(v) => v,
                    Option::None => {
                        return Result::Err(Raised::Fatal(FatalReason::StackUnderflow));
                    },
                };
                proof {
                    assert(self.stack@.last() == self.stack@[self.stack@.len() - 1]);
                }
                let next_obj = vm.get_next_object(&top_of_stack);
                proof {
                    lemma_frame_wf_grow_or_slot(*self, *old(vm), *vm);
                }
                match next_obj {
                    Result::Ok(Option::Some(value)) => {
                        self.push_value(value);
                        Result::Ok(Option::None)
                    },
                    Result::Ok(Option::None) => {
                        match self.pop_value() {
                            Option::Some(_) => {},
                            Option::None => {
                                proof {
                                    assert(false);
                                }
                            },
                        }
                        match self.jump(target) {
                            Result::Ok(()) => Result::Ok(Option::None),
                            Result::Err(f) => Result::Err(f),
                        }
                    },
                    Result::Err(next_error) => {
                        match self.pop_value() {
                            Option::Some(_) => {},
                            Option::None => {
                                proof {
                                    assert(false);
                                }
                            },
                        }
                        Result::Err(Raised::Exception(next_error))
                    },
                }
            },
            Instruction::Jump { target } => {
                let target = *target;
                match self.jump(target) {
                    Result::Ok(()) => Result::Ok(Option::None),
                    Result::Err(f) => Result::Err(f),
                }
            },
            Instruction::JumpIfTrue { target } => {
                let target = *target;
                let obj = match self.pop_value() {
                    Option::Some(v) => v,
                    Option::None => {
                        return Result::Err(Raised::Fatal(FatalReason::StackUnderflow));
                    },
                };
                let value = vm.boolval(&obj);
                if value {
                    match self.jump(target) {
                        Result::Ok(()) => Result::Ok(Option::None),
                        Result::Err(f) => Result::Err(f),
                    }
                } else {
                    Result::Ok(Option::None)
                }
            },
            Instruction::JumpIfFalse { target } => {
                let target = *target;
                let obj = match self.pop_value() {
                    Option::Some(v) => v,
                    Option::None => {
                        return Result::Err(Raised::Fatal(FatalReason::StackUnderflow));
                    },
                };
                let value = vm.boolval(&obj);
                if !value {
                    match self.jump(target) {
                        Result::Ok(()) => Result::Ok(Option::None),
                        Result::Err(f) => Result::Err(f),
                    }
                } else {
                    Result::Ok(Option::None)
                }
            },
            Instruction::JumpIfTrueOrPop { target } => {
                let target = *target;
                let obj = match self.last_value() {
                    Option::Some(v) => v,
                    Option::None => {
                        return Result::Err(Raised::Fatal(FatalReason::StackUnderflow));
                    },
                };
                let value = vm.boolval(&obj);
                if value {
                    match self.jump(target) {
                        Result::Ok(()) => Result::Ok(Option::None),
                        Result::Err(f) => Result::Err(f),
                    }
                } else {
                    match self.pop_value() {
                        Option::Some(_) => Result::Ok(Option::None),
                        Option::None => Result::Err(Raised::Fatal(FatalReason::StackUnderflow)),
                    }
                }
            },
            Instruction::JumpIfFalseOrPop { target } => {
                let target = *target;
                let obj = match self.last_value() {
                    Option::Some(v) => v,
                    Option::None => {
                        return Result::Err(Raised::Fatal(FatalReason::StackUnderflow));
                    },
                };
                let value = vm.boolval(&obj);
                if !value {
                    match self.jump(target) {
                        Result::Ok(()) => Result::Ok(Option::None),
                        Result::Err(f) => Result::Err(f),
                    }
                } else {
                    match self.pop_value() {
                        Option::Some(_) => Result::Ok(Option::None),
                        Option::None => Result::Err(Raised::Fatal(FatalReason::StackUnderflow)),
                    }
                }
            },
            Instruction::Break => {
                let block = match self.unwind_loop(vm) {
                    Result::Ok(b) => b,
                    Result::Err(e) => {
                        return Result::Err(e);
                    },
                };
                match block.typ {
                    BlockType::Loop { end, .. } => {
                        let ghost pre_f = *self;
                        match self.pop_block() {
                            Option::Some(_) => {},
                            Option::None => {
                                proof {
                                    assert(false);
                                }
                            },
                        }
                        proof {
                            assert(pre_f.blocks@.drop_last().push(pre_f.blocks@.last())
                                =~= pre_f.blocks@);
                            lemma_counts_push(pre_f.blocks@.drop_last(), pre_f.blocks@.last());
                        }
                        match self.jump(end) {
                            Result::Ok(()) => Result::Ok(Option::None),
                            Result::Err(f) => Result::Err(f),
                        }
                    },
                    _ => {
                        proof {
                            assert(false);
                        }
                        Result::Err(Raised::Fatal(FatalReason::NotInLoop))
                    },
                }
            },
            Instruction::Continue => {
                let block = match self.unwind_loop(vm) {
                    Result::Ok(b) => b,
                    Result::Err(Raised::Exception(_)) => {
                        // No handler can run between here and the loop head,
                        // so an `__exit__` error on the way is fatal.
                        return Result::Err(Raised::Fatal(FatalReason::ExitErrorInContinue));
                    },
                    Result::Err(f) => {
                        return Result::Err(f);
                    },
                };
                match block.typ {
                    BlockType::Loop { start, .. } => {
                        match self.jump(start) {
                            Result::Ok(()) => Result::Ok(Option::None),
                            Result::Err(f) => Result::Err(f),
                        }
                    },
                    _ => {
                        proof {
                            assert(false);
                        }
                        Result::Err(Raised::Fatal(FatalReason::NotInLoop))
                    },
                }
            },
            Instruction::Pass => Result::Ok(Option::None),
            Instruction::Raise { argc } => {
                let argc = *argc;
                self.execute_raise(vm, argc)
            },
            Instruction::PrintExpr => {
                let expr = match self.pop_value() {
                    Option::Some(v) => v,
                    Option::None => {
                        return Result::Err(Raised::Fatal(FatalReason::StackUnderflow));
                    },
                };
                if !value_eq(&expr, &Value::PyNone) {
                    let repr = match vm.to_repr(&expr) {
                        Result::Ok(st) => st,
                        Result::Err(e) => {
                            proof {
                                lemma_frame_wf_grow(*self, *old(vm), *vm);
                            }
                            return Result::Err(Raised::Exception(e));
                        },
                    };
                    vm.display(repr);
                }
                Result::Ok(Option::None)
            },
            Instruction::LoadBuildClass => {
                let ghost vm0 = *vm;
                let builder = vm.alloc_obj(Obj::Builtin(BuiltinKind::BuildClass));
                proof {
                    lemma_frame_wf_grow(*self, vm0, *vm);
                }
                self.push_value(builder);
                Result::Ok(Option::None)
            },
            Instruction::MakeFunction { flags } => {
                let flags = *flags;
                self.execute_make_function(vm, flags)
            },
            Instruction::CallFunction { typ } => {
                let typ = *typ;
                self.execute_call_function(vm, typ)
            },
            Instruction::UnpackSequence { size } => {
                let size = *size;
                self.execute_unpack_sequence(vm, size)
            },
            Instruction::UnpackEx { before, after } => {
                let before = *before;
                let after = *after;
                self.execute_unpack_ex(vm, before, after)
            },
            Instruction::Unpack => {
                let value = match self.pop_value() {
                    Option::Some(v) => v,
                    Option::None => {
                        return Result::Err(Raised::Fatal(FatalReason::StackUnderflow));
                    },
                };
                let elements = match vm.extract_elements(&value) {
                    Result::Ok(vs) => vs,
                    Result::Err(e) => {
                        proof {
                            lemma_frame_wf_grow(*self, *old(vm), *vm);
                        }
                        return Result::Err(Raised::Exception(e));
                    },
                };
                self.push_reversed(elements);
                Result::Ok(Option::None)
            },
            Instruction::FormatValue { conversion, spec } => {
                let conversion = *conversion;
                let fspec = spec.clone();
                let popped = match self.pop_value() {
                    Option::Some(v) => v,
                    Option::None => {
                        return Result::Err(Raised::Fatal(FatalReason::StackUnderflow));
                    },
                };
                let value = match conversion {
                    Option::Some(ConversionFlag::Str) => {
                        match vm.to_str(&popped) {
                            Result::Ok(st) => Value::Str(st),
                            Result::Err(e) => {
                                proof {
                                    lemma_frame_wf_grow(*self, *old(vm), *vm);
                                }
                                return Result::Err(Raised::Exception(e));
                            },
                        }
                    },
                    Option::Some(ConversionFlag::Repr) => {
                        match vm.to_repr(&popped) {
                            Result::Ok(st) => Value::Str(st),
                            Result::Err(e) => {
                                proof {
                                    lemma_frame_wf_grow(*self, *old(vm), *vm);
                                }
                                return Result::Err(Raised::Exception(e));
                            },
                        }
                    },
                    Option::Some(ConversionFlag::Ascii) => popped,
                    Option::None => popped,
                };
                let ghost vm_f = *vm;
                let res = vm.format_value(&value, &fspec);
                proof {
                    lemma_frame_wf_grow(*self, vm_f, *vm);
                }
                match res {
                    Result::Ok(formatted) => {
                        self.push_value(formatted);
                        Result::Ok(Option::None)
                    },
                    Result::Err(e) => Result::Err(Raised::Exception(e)),
                }
            },
            Instruction::PopException => {
                let is_handler = match self.current_block() {
                    Option::Some(b) => matches!(b.typ, BlockType::ExceptHandler),
                    Option::None => {
                        return Result::Err(Raised::Fatal(FatalReason::NoBlock));
                    },
                };
                if !is_handler {
                    return Result::Err(Raised::Fatal(FatalReason::ExpectedExceptHandler));
                }
                let ghost pre_f = *self;
                let ghost pre_vm = *vm;
                match self.pop_block() {
                    Option::Some(_) => {},
                    Option::None => {
                        proof {
                            assert(false);
                        }
                    },
                }
                proof {
                    assert(pre_f.blocks@.drop_last().push(pre_f.blocks@.last())
                        =~= pre_f.blocks@);
                    lemma_counts_push(pre_f.blocks@.drop_last(), pre_f.blocks@.last());
                    lemma_counts_nonneg(self.blocks@);
                    assert(num_handlers(pre_f.blocks@) >= 1);
                }
                let popped = vm.pop_exception();
                proof {
                    assert(popped is Some);
                    assert(vm.exc_registers@ =~= pre_vm.exc_registers@.drop_last());
                    assert(vm.exc_registers@.take(
                        old(vm).exc_registers@.len() - num_handlers(old(self).blocks@),
                    ) =~= pre_vm.exc_registers@.take(
                        old(vm).exc_registers@.len() - num_handlers(old(self).blocks@),
                    ));
                }
                Result::Ok(Option::None)
            },            _ => {
                proof {
                    assert(false);
                }
                Result::Err(Raised::Fatal(FatalReason::BadOperandType))
            },
        }
    }

    /// Fetch and execute a single instruction: the heart of the dispatch
    /// loop. `Ok(None)` continues, `Ok(Some(..))` ends the frame, and an
    /// error enters the unwinder in `run`.
    pub fn execute_instruction(&mut self, vm: &mut Vm) -> (r: FrameResult)
        requires
            old(self).wf(*old(vm)),
        ensures
            final(self).wf(*final(vm)),
            Frame::step_basics(*old(self), *old(vm), *final(self), *final(vm)),
            !(r matches Result::Err(Raised::Fatal(_))) ==> Frame::step_account(
                *old(self),
                *old(vm),
                *final(self),
                *final(vm),
            ),
            old(self).lasti >= old(self).code.instructions@.len() ==> r == FrameResult::Err(
                Raised::Fatal(FatalReason::BadInstructionPointer),
            ) && *final(self) == *old(self) && *final(vm) == *old(vm),
            old(self).lasti < old(self).code.instructions@.len() ==> dispatch_post(
                *old(self),
                *old(vm),
                *final(self),
                *final(vm),
                old(self).lasti as int,
                r,
            ),
    {
        if self.lasti >= self.code.instructions.len() {
            return Result::Err(Raised::Fatal(FatalReason::BadInstructionPointer));
        }
        let i = self.lasti;
        self.lasti = i + 1;
        match self.dispatch_data(vm, i) {
            Option::Some(r) => r,
            Option::None => self.dispatch_control(vm, i),
        }
    }
}



/// The frame's next instruction immediately ends it with `Return`: a bare
/// `ReturnValue` over a nonempty stack with no blocks left to unwind.
pub open spec fn immediate_return(f: Frame) -> bool {
    &&& f.lasti < f.code.instructions@.len()
    &&& ins_of(f, f.lasti as int) == Instruction::ReturnValue
    &&& f.blocks@.len() == 0
    &&& f.stack@.len() > 0
}

/// The frame's next instruction immediately suspends it with `Yield`.
pub open spec fn immediate_yield(f: Frame) -> bool {
    &&& f.lasti < f.code.instructions@.len()
    &&& ins_of(f, f.lasti as int) == Instruction::YieldValue
    &&& f.stack@.len() > 0
}

/// The frame's next instruction is a bare re-raise with no active exception
/// and no block to catch it: the run must surface a runtime-error annotated
/// with this instruction's row.
pub open spec fn immediate_bare_reraise(f: Frame, vm: Vm) -> bool {
    &&& f.lasti < f.code.instructions@.len()
    &&& (ins_of(f, f.lasti as int) matches Instruction::Raise { argc } && argc == 0)
    &&& vm.exc_registers@.len() == 0
    &&& f.blocks@.len() == 0
}

/// The traceback annotation run appends on a raise at instruction `i`: a
/// fresh `(source-path, row, owning-name)` record.
pub open spec fn traceback_record(h: Seq<Obj>, v: Value, code: CodeObject, i: int) -> bool {
    match v {
        Value::Ref(t) => t < h.len() && (match h[t as int] {
            Obj::Tuple(tp) => {
                &&& tp@.len() == 3
                &&& (tp@[0] matches Value::Str(p) && p@ == code.source_path@)
                &&& tp@[1] == Value::Int(code.locations@[i].row as i64)
                &&& (tp@[2] matches Value::Str(n) && n@ == code.obj_name@)
            },
            _ => false,
        }),
        _ => false,
    }
}

impl Frame {
    /// Drive the frame until a terminal outcome: execute instructions,
    /// annotate and unwind raised exceptions, and surface `Return`, `Yield`,
    /// an uncaught exception, or a fatal interpreter-bug state. Entering and
    /// leaving with an empty block stack, a `Return` or an uncaught error
    /// restores the machine's exception registers exactly and balances every
    /// `__enter__` with exactly one `__exit__`.
    pub fn run(&mut self, vm: &mut Vm) -> (r: Result<ExecutionResult, FrameError>)
        requires
            old(self).wf(*old(vm)),
        ensures
            final(self).wf(*final(vm)),
            Frame::step_basics(*old(self), *old(vm), *final(self), *final(vm)),
            !(r matches Result::Err(FrameError::Fatal(_))) ==> Frame::step_account(
                *old(self),
                *old(vm),
                *final(self),
                *final(vm),
            ),
            (r matches Result::Ok(ExecutionResult::Return(_)) || r matches Result::Err(
                FrameError::Uncaught(_),
            )) ==> final(self).blocks@.len() == 0,
            r matches Result::Err(FrameError::Uncaught(e)) ==> is_exc(final(vm).heap@, e),
            old(self).blocks@.len() == 0 && (r matches Result::Ok(ExecutionResult::Return(_))
                || r matches Result::Err(FrameError::Uncaught(_))) ==> {
                &&& final(vm).exc_registers@ == old(vm).exc_registers@
                &&& final(vm).enter_log@.len() - old(vm).enter_log@.len() == final(vm).exit_log@.len() - old(vm).exit_log@.len()
            },
            immediate_return(*old(self)) ==> r == Result::<ExecutionResult, FrameError>::Ok(
                ExecutionResult::Return(old(self).stack@.last()),
            ),
            immediate_yield(*old(self)) ==> r == Result::<ExecutionResult, FrameError>::Ok(
                ExecutionResult::Yield(old(self).stack@.last()),
            ),
            immediate_bare_reraise(*old(self), *old(vm)) ==> match r {
                Result::Err(FrameError::Uncaught(e)) => match e {
                    Value::Ref(ei) => ei < final(vm).hlen() && (match final(vm).heap@[ei as int] {
                        Obj::Exc(d) => d.kind == ExcKind::RuntimeError && (match d.traceback {
                            Value::Ref(ti) => ti < final(vm).hlen() && (match final(vm).heap@[
                                ti as int] {
                                Obj::List(l) => l@.len() == 1 && traceback_record(
                                    final(vm).heap@,
                                    l@[0],
                                    old(self).code,
                                    old(self).lasti as int,
                                ),
                                _ => false,
                            }),
                            _ => false,
                        }),
                        _ => false,
                    }),
                    _ => false,
                },
                _ => false,
            },
    {
        // Termination must be witnessed, so dispatch carries a step budget
        // far beyond any feasible execution; exhausting it is reported as the
        // corrupt-code state.
        let mut fuel: u64 = u64::MAX;
        loop
            invariant
                self.wf(*vm),
                Frame::step_basics(*old(self), *old(vm), *self, *vm),
                Frame::step_account(*old(self), *old(vm), *self, *vm),
                immediate_return(*old(self)) || immediate_yield(*old(self))
                    || immediate_bare_reraise(*old(self), *old(vm)) ==> fuel == u64::MAX && *self
                    == *old(self) && *vm == *old(vm),
            decreases fuel,
        {
            if fuel == 0 {
                return Result::Err(FrameError::Fatal(FatalReason::StepBudgetExhausted));
            }
            fuel = fuel - 1;
            // Record the source location of the instruction about to run,
            // before the fetch advances the pointer; a raise is annotated
            // with this row.
            let lineno: usize = if self.lasti < self.code.locations.len() {
                self.get_lineno().row()
            } else {
                0
            };
            let ghost pre_step_lasti = self.lasti;
            let result = self.execute_instruction(vm);
            match result {
                Result::Ok(Option::None) => {},
                Result::Ok(Option::Some(value)) => {
                    proof {
                        if self.blocks@.len() == 0 && old(self).blocks@.len() == 0 {
                            lemma_counts_nonneg(self.blocks@);
                            assert(vm.exc_registers@ =~= vm.exc_registers@.take(
                                old(vm).exc_registers@.len() as int,
                            ));
                            assert(old(vm).exc_registers@ =~= old(vm).exc_registers@.take(
                                old(vm).exc_registers@.len() as int,
                            ));
                        }
                    }
                    return Result::Ok(value);
                },
                Result::Err(Raised::Fatal(f)) => {
                    return Result::Err(FrameError::Fatal(f));
                },
                Result::Err(Raised::Exception(exception)) => {
                    // Annotate the traceback with the raise location, then
                    // unwind; a malformed traceback surfaces its own error.
                    let is_exc_val = match vm.exc_ref_kind(&exception) {
                        Option::Some(_) => true,
                        Option::None => false,
                    };
                    if !is_exc_val {
                        return Result::Err(FrameError::Fatal(FatalReason::BadOperandType));
                    }
                    let ghost vm_tb = *vm;
                    let traceback = match vm.get_attribute(
                        &exception,
                        &String::from_str("__traceback__"),
                    ) {
                        Result::Ok(tb) => tb,
                        Result::Err(_) => {
                            proof {
                                assert(false);
                            }
                            Value::PyNone
                        },
                    };
                    let mut entry: Vec<Value> = Vec::new();
                    entry.push(Value::Str(self.code.source_path.clone()));
                    entry.push(Value::Int(lineno as i64));
                    entry.push(Value::Str(self.code.obj_name.clone()));
                    let ghost vm_t2 = *vm;
                    let raise_location = vm.alloc_obj(Obj::Tuple(entry));
                    proof {
                        lemma_frame_wf_grow(*self, vm_t2, *vm);
                        lemma_val_wf_mono(exception, vm_t2.hlen(), vm.hlen());
                        lemma_val_wf_mono(traceback, vm_t2.hlen(), vm.hlen());
                    }
                    let ghost vm_t3 = *vm;
                    match vm.list_append(&traceback, raise_location) {
                        Result::Ok(()) => {
                            proof {
                                lemma_frame_wf_grow_or_slot(*self, vm_t3, *vm);
                            }
                        },
                        Result::Err(_) => {
                            // A raised value whose traceback slot is not an
                            // appendable list marks a corrupt object state.
                            proof {
                                lemma_frame_wf_grow_or_slot(*self, vm_t3, *vm);
                            }
                            return Result::Err(FrameError::Fatal(FatalReason::BadOperandType));
                        },
                    }
                    proof {
                        assert(is_exc(vm.heap@, exception));
                    }
                    match self.unwind_exception(vm, exception) {
                        Result::Ok(Option::None) => {},
                        Result::Ok(Option::Some(uncaught)) => {
                            proof {
                                if old(self).blocks@.len() == 0 {
                                    lemma_counts_nonneg(self.blocks@);
                                    assert(vm.exc_registers@ =~= vm.exc_registers@.take(
                                        old(vm).exc_registers@.len() as int,
                                    ));
                                    assert(old(vm).exc_registers@ =~= old(vm).exc_registers@.take(old(vm).exc_registers@.len() as int));
                                }
                            }
                            return Result::Err(FrameError::Uncaught(uncaught));
                        },
                        Result::Err(Raised::Fatal(f)) => {
                            return Result::Err(FrameError::Fatal(f));
                        },
                        Result::Err(Raised::Exception(_)) => {
                            proof {
                                assert(false);
                            }
                            return Result::Err(FrameError::Fatal(FatalReason::BadOperandType));
                        },
                    }
                },
            }
        }
    }

    /// Deliver an injected exception: unwind it against the block stack, and
    /// resume dispatch only if a handler caught it. With no handler and no
    /// raising `__exit__` on the way, the injected exception itself escapes,
    /// after one logged `__exit__` per `With` block.
    pub fn throw(&mut self, vm: &mut Vm, exception: Value) -> (r: Result<
        ExecutionResult,
        FrameError,
    >)
        requires
            old(self).wf(*old(vm)),
            val_wf(exception, old(vm).hlen()),
            is_exc(old(vm).heap@, exception),
        ensures
            final(self).wf(*final(vm)),
            Frame::step_basics(*old(self), *old(vm), *final(self), *final(vm)),
            !(r matches Result::Err(FrameError::Fatal(_))) ==> Frame::step_account(
                *old(self),
                *old(vm),
                *final(self),
                *final(vm),
            ),
            unwind_decision(old(self).blocks@, old(vm).heap@) is Escaped && no_exit_raises(
                old(self).blocks@,
                old(vm).heap@,
            ) ==> r == Result::<ExecutionResult, FrameError>::Err(
                FrameError::Uncaught(exception),
            ) && final(vm).exit_log@.len() == old(vm).exit_log@.len() + num_withs(
                old(self).blocks@,
            ),
            r matches Result::Err(FrameError::Uncaught(e)) ==> is_exc(final(vm).heap@, e)
                && final(self).blocks@.len() == 0,
    {
        match self.unwind_exception(vm, exception) {
            Result::Ok(Option::None) => self.run(vm),
            Result::Ok(Option::Some(uncaught)) => Result::Err(FrameError::Uncaught(uncaught)),
            Result::Err(Raised::Fatal(f)) => Result::Err(FrameError::Fatal(f)),
            Result::Err(Raised::Exception(_)) => {
                proof {
                    assert(false);
                }
                Result::Err(FrameError::Fatal(FatalReason::BadOperandType))
            },
        }
    }
}


/// A one-line rendering of a value: scalars by their text, heap values by
/// their object index.
pub open spec fn brief_of(v: Value) -> Seq<char> {
    match v {
        Value::PyNone => "None"@,
        Value::Bool(b) => if b {
            "True"@
        } else {
            "False"@
        },
        Value::Int(i) => crate::value::int_seq(i as int),
        Value::Str(s) => "'"@ + s@ + "'"@,
        Value::Ref(k) => "<object "@ + crate::value::dec_seq(k as nat) + ">"@,
    }
}

/// The kind word of a block.
pub open spec fn block_kind_text(b: Block) -> Seq<char> {
    match b.typ {
        BlockType::Loop { .. } => "Loop"@,
        BlockType::TryExcept { .. } => "TryExcept"@,
        BlockType::With { .. } => "With"@,
        BlockType::ExceptHandler => "ExceptHandler"@,
    }
}

/// One indented line per stack value.
pub open spec fn stack_lines(s: Seq<Value>) -> Seq<char>
    decreases s.len(),
{
    if s.len() == 0 {
        Seq::<char>::empty()
    } else {
        "\n  > "@ + brief_of(s[0]) + stack_lines(s.skip(1))
    }
}

/// One indented line per block, with its kind and recorded level.
pub open spec fn block_lines(s: Seq<Block>) -> Seq<char>
    decreases s.len(),
{
    if s.len() == 0 {
        Seq::<char>::empty()
    } else {
        "\n  > "@ + block_kind_text(s[0]) + " at level "@ + crate::value::dec_seq(
            s[0].level as nat,
        ) + block_lines(s.skip(1))
    }
}

/// One indented line per local binding.
pub open spec fn local_lines(s: Seq<(String, Value)>) -> Seq<char>
    decreases s.len(),
{
    if s.len() == 0 {
        Seq::<char>::empty()
    } else {
        "\n  "@ + s[0].0@ + " = "@ + brief_of(s[0].1) + local_lines(s.skip(1))
    }
}

/// The full debug rendering of a frame: its stack, blocks, and locals.
pub open spec fn frame_debug_view(f: Frame) -> Seq<char> {
    "stack:"@ + stack_lines(f.stack@) + "\nblocks:"@ + block_lines(f.blocks@) + "\nlocals:"@
        + local_lines(f.scope.locals@) + "\n"@
}

/// Render one value.
fn value_brief(v: &Value) -> (r: String)
    ensures
        r@ == brief_of(*v),
{
    match v {
        Value::PyNone => String::from_str("None"),
        Value::Bool(b) => if *b {
            String::from_str("True")
        } else {
            String::from_str("False")
        },
        Value::Int(i) => crate::value::int_to_string(*i),
        Value::Str(s) => {
            let out = String::from_str("'").concat(s.as_str()).concat("'");
            out
        },
        Value::Ref(k) => {
            let idx = crate::value::usize_to_string(*k);
            let out = String::from_str("<object ").concat(idx.as_str()).concat(">");
            out
        },
    }
}

impl Frame {
    /// A multi-line rendering of the frame's operand stack, block stack, and
    /// local bindings, for introspection.
    pub fn debug_string(&self) -> (r: String)
        ensures
            r@ == frame_debug_view(*self),
    {
        let mut out = String::from_str("stack:");
        let mut i: usize = 0;
        proof {
            assert(self.stack@.skip(0) =~= self.stack@);
        }
        while i < self.stack.len()
            invariant
                i <= self.stack@.len(),
                out@ + stack_lines(self.stack@.skip(i as int)) == "stack:"@ + stack_lines(
                    self.stack@,
                ),
            decreases self.stack@.len() - i,
        {
            proof {
                assert(self.stack@.skip(i as int)[0] == self.stack@[i as int]);
                assert(self.stack@.skip(i as int).skip(1) =~= self.stack@.skip(i + 1));
            }
            let b = value_brief(&self.stack[i]);
            out.append("\n  > ");
            out.append(b.as_str());
            i = i + 1;
        }
        proof {
            assert(self.stack@.skip(i as int).len() == 0);
            assert(out@ + Seq::<char>::empty() =~= out@);
        }
        out.append("\nblocks:");
        let ghost mid1 = out@;
        let mut j: usize = 0;
        proof {
            assert(self.blocks@.skip(0) =~= self.blocks@);
        }
        while j < self.blocks.len()
            invariant
                j <= self.blocks@.len(),
                out@ + block_lines(self.blocks@.skip(j as int)) == mid1 + block_lines(
                    self.blocks@,
                ),
            decreases self.blocks@.len() - j,
        {
            proof {
                assert(self.blocks@.skip(j as int)[0] == self.blocks@[j as int]);
                assert(self.blocks@.skip(j as int).skip(1) =~= self.blocks@.skip(j + 1));
            }
            let kind: &str = match &self.blocks[j].typ {
                BlockType::Loop { .. } => "Loop",
                BlockType::TryExcept { .. } => "TryExcept",
                BlockType::With { .. } => "With",
                BlockType::ExceptHandler => "ExceptHandler",
            };
            let lvl = crate::value::usize_to_string(self.blocks[j].level);
            out.append("\n  > ");
            out.append(kind);
            out.append(" at level ");
            out.append(lvl.as_str());
            j = j + 1;
        }
        proof {
            assert(self.blocks@.skip(j as int).len() == 0);
            assert(out@ + Seq::<char>::empty() =~= out@);
        }
        out.append("\nlocals:");
        let ghost mid2 = out@;
        let mut m: usize = 0;
        proof {
            assert(self.scope.locals@.skip(0) =~= self.scope.locals@);
        }
        while m < self.scope.locals.len()
            invariant
                m <= self.scope.locals@.len(),
                out@ + local_lines(self.scope.locals@.skip(m as int)) == mid2 + local_lines(
                    self.scope.locals@,
                ),
            decreases self.scope.locals@.len() - m,
        {
            proof {
                assert(self.scope.locals@.skip(m as int)[0] == self.scope.locals@[m as int]);
                assert(self.scope.locals@.skip(m as int).skip(1) =~= self.scope.locals@.skip(
                    m + 1,
                ));
            }
            let (nm, v) = &self.scope.locals[m];
            let b = value_brief(v);
            out.append("\n  ");
            out.append(nm.as_str());
            out.append(" = ");
            out.append(b.as_str());
            m = m + 1;
        }
        proof {
            assert(self.scope.locals@.skip(m as int).len() == 0);
            assert(out@ + Seq::<char>::empty() =~= out@);
        }
        out.append("\n");
        out
    }
}

} // verus!
