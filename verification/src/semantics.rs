use vstd::prelude::*;

use crate::bytecode::ByteCode;
use crate::error::VmError;

verus! {

/// The mathematical state of the machine: the (fixed) program, the program
/// counter, the operand stack, and the variable store.
///
/// The variable store is a pair of equally long sequences: `names[k]` is the
/// name bound to slot `k`, and `locals[k]` is that slot's current value.
/// Slots are allocated in first-store order and never freed, so the store is
/// append-only; a name appears at most once.
#[verifier::ext_equal]
pub ghost struct AbsState {
    pub program: Seq<ByteCode>,
    pub pc: nat,
    pub stack: Seq<usize>,
    pub names: Seq<char>,
    pub locals: Seq<usize>,
}

impl AbsState {
    /// Well-formedness: one value per slot, and no name is bound twice.
    pub open spec fn wf(self) -> bool {
        &&& self.names.len() == self.locals.len()
        &&& forall|i: int, j: int|
            0 <= i < j < self.names.len() ==> self.names[i] != self.names[j]
    }

    /// The state in which a run of `program` begins.
    pub open spec fn init(program: Seq<ByteCode>) -> AbsState {
        AbsState {
            program,
            pc: 0,
            stack: Seq::empty(),
            names: Seq::empty(),
            locals: Seq::empty(),
        }
    }
}

/// The slot bound to `c` among `names[i..]`, or `-1` if there is none.
pub open spec fn slot_from(names: Seq<char>, c: char, i: int) -> int
    decreases names.len() - i,
    when 0 <= i <= names.len()
{
    if i >= names.len() {
        -1
    } else if names[i] == c {
        i
    } else {
        slot_from(names, c, i + 1)
    }
}

/// The slot bound to `c`, or `-1` if `c` was never stored.
pub open spec fn slot_of(names: Seq<char>, c: char) -> int {
    slot_from(names, c, 0)
}

pub proof fn lemma_slot_from(names: Seq<char>, c: char, i: int)
    requires
        0 <= i <= names.len(),
    ensures
        slot_from(names, c, i) == -1 ==> forall|j: int|
            i <= j < names.len() ==> names[j] != c,
        slot_from(names, c, i) != -1 ==> i <= slot_from(names, c, i) < names.len()
            && names[slot_from(names, c, i)] == c,
    decreases names.len() - i,
{
    if i < names.len() && names[i] != c {
        lemma_slot_from(names, c, i + 1);
    }
}

pub proof fn lemma_slot_of(names: Seq<char>, c: char)
    ensures
        slot_of(names, c) == -1 ==> forall|j: int| 0 <= j < names.len() ==> names[j] != c,
        slot_of(names, c) != -1 ==> 0 <= slot_of(names, c) < names.len()
            && names[slot_of(names, c)] == c,
{
    lemma_slot_from(names, c, 0);
}

/// What executing the single instruction at `s.pc` does.
pub ghost enum StepRes {
    /// Execution continues in the given state.
    Next(AbsState),
    /// `ReturnValue` executed: the machine halts with this final value.
    Returned(usize, AbsState),
    /// A runtime precondition was violated; the state is left untouched.
    Failed(VmError),
    /// The arithmetic result does not fit in `usize` (including subtraction
    /// below zero).  Such a step has no defined result: runs are only
    /// specified for programs that stay in range.
    Overflow,
}

/// The small-step semantics: the meaning of the instruction `s.program[s.pc]`
/// in state `s`.  Only meaningful while `s.pc < s.program.len()`.
///
/// The binary operators pop two operands and treat the earlier-pushed one as
/// the left-hand side: with `a` pushed before `b`, `Subtract` computes
/// `a - b` and `Divide` computes `a / b`.  A loop's target index is checked
/// only when the branch is actually taken.
pub open spec fn step_spec(s: AbsState) -> StepRes
    recommends
        s.pc < s.program.len(),
{
    match s.program[s.pc as int] {
        ByteCode::LoadVal(n) => StepRes::Next(
            AbsState { pc: s.pc + 1, stack: s.stack.push(n), ..s },
        ),
        ByteCode::WriteVar(c) => {
            if s.stack.len() == 0 {
                StepRes::Failed(VmError::EmptyStack)
            } else {
                let v = s.stack.last();
                let rest = s.stack.drop_last();
                let k = slot_of(s.names, c);
                if k >= 0 {
                    StepRes::Next(
                        AbsState {
                            pc: s.pc + 1,
                            stack: rest,
                            locals: s.locals.update(k, v),
                            ..s
                        },
                    )
                } else {
                    StepRes::Next(
                        AbsState {
                            pc: s.pc + 1,
                            stack: rest,
                            names: s.names.push(c),
                            locals: s.locals.push(v),
                            ..s
                        },
                    )
                }
            }
        },
        ByteCode::ReadVar(c) => {
            let k = slot_of(s.names, c);
            if k < 0 {
                StepRes::Failed(VmError::UnboundVariable)
            } else {
                StepRes::Next(
                    AbsState { pc: s.pc + 1, stack: s.stack.push(s.locals[k]), ..s },
                )
            }
        },
        ByteCode::Add => {
            if s.stack.len() < 2 {
                StepRes::Failed(VmError::EmptyStack)
            } else {
                let a = s.stack[s.stack.len() - 2];
                let b = s.stack.last();
                if a + b > usize::MAX {
                    StepRes::Overflow
                } else {
                    StepRes::Next(arith_next(s, (a + b) as usize))
                }
            }
        },
        ByteCode::Subtract => {
            if s.stack.len() < 2 {
                StepRes::Failed(VmError::EmptyStack)
            } else {
                let a = s.stack[s.stack.len() - 2];
                let b = s.stack.last();
                if a < b {
                    StepRes::Overflow
                } else {
                    StepRes::Next(arith_next(s, (a - b) as usize))
                }
            }
        },
        ByteCode::Multiply => {
            if s.stack.len() < 2 {
                StepRes::Failed(VmError::EmptyStack)
            } else {
                let a = s.stack[s.stack.len() - 2];
                let b = s.stack.last();
                if a * b > usize::MAX {
                    StepRes::Overflow
                } else {
                    StepRes::Next(arith_next(s, (a * b) as usize))
                }
            }
        },
        ByteCode::Divide => {
            if s.stack.len() < 2 {
                StepRes::Failed(VmError::EmptyStack)
            } else {
                let a = s.stack[s.stack.len() - 2];
                let b = s.stack.last();
                if b == 0 {
                    StepRes::Failed(VmError::DivideByZero)
                } else {
                    StepRes::Next(arith_next(s, ((a as int) / (b as int)) as usize))
                }
            }
        },
        ByteCode::DoWhileLt(c1, c2, target) => {
            let k1 = slot_of(s.names, c1);
            let k2 = slot_of(s.names, c2);
            if k1 < 0 || k2 < 0 {
                StepRes::Failed(VmError::UnboundVariable)
            } else if s.locals[k1] < s.locals[k2] {
                if target >= s.program.len() {
                    StepRes::Failed(VmError::OutOfRangeTarget)
                } else {
                    StepRes::Next(AbsState { pc: target as nat, ..s })
                }
            } else {
                StepRes::Next(AbsState { pc: s.pc + 1, ..s })
            }
        },
        ByteCode::ReturnValue => {
            if s.stack.len() == 0 {
                StepRes::Failed(VmError::EmptyStack)
            } else {
                StepRes::Returned(
                    s.stack.last(),
                    AbsState { pc: s.pc + 1, stack: s.stack.drop_last(), ..s },
                )
            }
        },
    }
}

/// The state after a successful binary operator: both operands replaced by
/// the result, program counter advanced.
pub open spec fn arith_next(s: AbsState, result: usize) -> AbsState
    recommends
        s.stack.len() >= 2,
{
    AbsState {
        pc: s.pc + 1,
        stack: s.stack.drop_last().drop_last().push(result),
        ..s
    }
}

/// The outcome of running at most `fuel` instructions.
pub ghost enum RunRes {
    /// The step budget ran out with execution still in progress.
    Running(AbsState),
    /// Normal termination: `Some(v)` when `ReturnValue` reported `v`,
    /// `None` when the program counter ran past the end of the program.
    Halted(Option<usize>, AbsState),
    /// A runtime error, together with the index of the instruction at which
    /// it arose and the state at that moment.
    Aborted(VmError, nat, AbsState),
    /// An arithmetic result left the `usize` range at the given instruction
    /// index; the run has no defined result from here on.
    OverflowAt(nat),
}

/// The big-step semantics: iterate `step_spec` from `s` for at most `fuel`
/// instructions.
pub open spec fn run_spec(s: AbsState, fuel: nat) -> RunRes
    decreases fuel,
{
    if s.pc >= s.program.len() {
        RunRes::Halted(None, s)
    } else if fuel == 0 {
        RunRes::Running(s)
    } else {
        match step_spec(s) {
            StepRes::Next(s2) => run_spec(s2, (fuel - 1) as nat),
            StepRes::Returned(v, s2) => RunRes::Halted(Some(v), s2),
            StepRes::Failed(e) => RunRes::Aborted(e, s.pc, s),
            StepRes::Overflow => RunRes::OverflowAt(s.pc),
        }
    }
}

/// Running for `n + m` steps is running for `n` steps and then, from wherever
/// that left the machine, for `m` more.
pub proof fn lemma_run_spec_extend(s: AbsState, n: nat, m: nat)
    requires
        run_spec(s, n) is Running,
    ensures
        run_spec(s, n + m) == run_spec(run_spec(s, n)->Running_0, m),
    decreases n,
{
    if s.pc < s.program.len() && n > 0 {
        match step_spec(s) {
            StepRes::Next(s2) => {
                lemma_run_spec_extend(s2, (n - 1) as nat, m);
            },
            _ => {},
        }
    }
}

/// A terminal outcome is stable: once a run has halted or failed within some
/// step budget, every larger budget reports the same outcome.
pub proof fn lemma_run_spec_monotone(s: AbsState, n: nat, m: nat)
    requires
        n <= m,
        !(run_spec(s, n) is Running),
    ensures
        run_spec(s, m) == run_spec(s, n),
    decreases n,
{
    if s.pc < s.program.len() && n > 0 {
        match step_spec(s) {
            StepRes::Next(s2) => {
                lemma_run_spec_monotone(s2, (n - 1) as nat, (m - 1) as nat);
            },
            _ => {},
        }
    }
}

/// Each step keeps the state well formed and never touches the program:
/// in particular a freshly allocated slot gets a name that was not bound
/// before, so names stay unique.
pub proof fn lemma_step_wf(s: AbsState)
    requires
        s.wf(),
        s.pc < s.program.len(),
    ensures
        step_spec(s) matches StepRes::Next(s2) ==> s2.wf() && s2.program == s.program,
        step_spec(s) matches StepRes::Returned(v, s2) ==> s2.wf() && s2.program == s.program,
{
    match s.program[s.pc as int] {
        ByteCode::WriteVar(c) => {
            lemma_slot_of(s.names, c);
        },
        ByteCode::ReadVar(c) => {
            lemma_slot_of(s.names, c);
        },
        _ => {},
    }
}

} // verus!
