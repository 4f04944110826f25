use vstd::prelude::*;

use crate::bytecode::ByteCode;
use crate::error::VmError;
use crate::semantics::{
    lemma_slot_of, lemma_step_wf, run_spec, slot_of, step_spec, AbsState, RunRes, StepRes,
};

verus! {

/// What a single [`Interpreter::step`] call reports.
#[derive(Clone, Copy, Debug, PartialEq, Eq, Structural)]
pub enum StepStatus {
    /// The instruction executed; the machine is ready for the next one.
    Continue,
    /// `ReturnValue` executed: the machine halted with this final value.
    Returned(usize),
    /// A runtime error; the state is exactly as it was before the step.
    Aborted(VmError),
}

/// What a whole [`Interpreter::run`] call reports.
#[derive(Clone, Copy, Debug, PartialEq, Eq, Structural)]
pub enum RunStatus {
    /// `ReturnValue` executed: the program's final value.
    Returned(usize),
    /// The program counter ran past the end of the program; there is no
    /// final value.
    Finished,
    /// The step budget was exhausted before the program ended; calling
    /// `run` again resumes where this left off.
    OutOfSteps,
    /// A runtime error, with the index of the instruction that caused it.
    Aborted(VmError, usize),
}

/// Pop the top element of a stack, or report `EmptyStack` and leave the
/// stack untouched.
pub fn pop_from_stack(stack: &mut Vec<usize>) -> (r: Result<usize, VmError>)
    ensures
        match r {
            Ok(v) => old(stack)@.len() > 0 && v == old(stack)@.last()
                && final(stack)@ == old(stack)@.drop_last(),
            Err(e) => e == VmError::EmptyStack && old(stack)@.len() == 0
                && final(stack)@ == old(stack)@,
        },
{
    match stack.pop() {
        Some(num) => Ok(num),
        None => Err(VmError::EmptyStack),
    }
}

/// The slot index bound to `c`, scanning the binding table in slot order.
fn find_slot(names: &Vec<char>, c: char) -> (r: Option<usize>)
    ensures
        match r {
            Some(k) => slot_of(names@, c) == k as int,
            None => slot_of(names@, c) == -1,
        },
{
    let mut j: usize = 0;
    while j < names.len()
        invariant
            j <= names@.len(),
            slot_of(names@, c) == crate::semantics::slot_from(names@, c, j as int),
        decreases names@.len() - j,
    {
        if names[j] == c {
            return Some(j);
        }
        j = j + 1;
    }
    None
}

/// One virtual machine instance: a fixed program together with the runtime
/// state it owns exclusively — program counter, operand stack, and the
/// variable store (binding table plus local storage).
pub struct Interpreter {
    program: Vec<ByteCode>,
    program_counter: usize,
    op_stack: Vec<usize>,
    var_names: Vec<char>,
    local_stack: Vec<usize>,
}

impl View for Interpreter {
    type V = AbsState;

    closed spec fn view(&self) -> AbsState {
        AbsState {
            program: self.program@,
            pc: self.program_counter as nat,
            stack: self.op_stack@,
            names: self.var_names@,
            locals: self.local_stack@,
        }
    }
}

impl Interpreter {
    /// The interpreter's internal invariant: the abstract state is well
    /// formed (equally long name and value columns, no duplicate names).
    pub open spec fn wf(&self) -> bool {
        self@.wf()
    }

    /// A machine ready to run `program` from instruction 0 with an empty
    /// operand stack and no variables bound.
    pub fn new(program: Vec<ByteCode>) -> (r: Interpreter)
        ensures
            r@ == AbsState::init(program@),
            r.wf(),
    {
        let r = Interpreter {
            program,
            program_counter: 0,
            op_stack: Vec::new(),
            var_names: Vec::new(),
            local_stack: Vec::new(),
        };
        proof {
            assert(r@ =~= AbsState::init(r.program@));
        }
        r
    }

    /// Execute the single instruction at the current program counter.
    ///
    /// The result and the new state are exactly those of the small-step
    /// semantics [`step_spec`]; on an error the state is left untouched.
    pub fn step(&mut self) -> (r: StepStatus)
        requires
            old(self).wf(),
            old(self)@.pc < old(self)@.program.len(),
            !(step_spec(old(self)@) is Overflow),
        ensures
            final(self).wf(),
            final(self)@.program == old(self)@.program,
            match r {
                StepStatus::Continue => step_spec(old(self)@) == StepRes::Next(final(self)@),
                StepStatus::Returned(v) => step_spec(old(self)@) == StepRes::Returned(
                    v,
                    final(self)@,
                ),
                StepStatus::Aborted(e) => step_spec(old(self)@) == StepRes::Failed(e)
                    && final(self)@ == old(self)@,
            },
    {
        proof {
            lemma_step_wf(old(self)@);
        }
        let prog_len = self.program.len();
        let instr = self.program[self.program_counter];
        match instr {
            ByteCode::LoadVal(num) => {
                self.op_stack.push(num);
                self.program_counter = self.program_counter + 1;
                StepStatus::Continue
            },
            ByteCode::WriteVar(var_name) => {
                match pop_from_stack(&mut self.op_stack) {
                    Ok(val) => {
                        match find_slot(&self.var_names, var_name) {
                            Some(index) => {
                                proof {
                                    lemma_slot_of(old(self)@.names, var_name);
                                }
                                self.local_stack[index] = val;
                            },
                            None => {
                                self.local_stack.push(val);
                                self.var_names.push(var_name);
                            },
                        }
                        self.program_counter = self.program_counter + 1;
                        StepStatus::Continue
                    },
                    Err(e) => StepStatus::Aborted(e),
                }
            },
            ByteCode::ReadVar(var_name) => {
                match find_slot(&self.var_names, var_name) {
                    Some(index) => {
                        proof {
                            lemma_slot_of(old(self)@.names, var_name);
                        }
                        let value = self.local_stack[index];
                        self.op_stack.push(value);
                        self.program_counter = self.program_counter + 1;
                        StepStatus::Continue
                    },
                    None => StepStatus::Aborted(VmError::UnboundVariable),
                }
            },
            ByteCode::Add => {
                let len = self.op_stack.len();
                if len < 2 {
                    StepStatus::Aborted(VmError::EmptyStack)
                } else {
                    let a = self.op_stack[len - 2];
                    let b = self.op_stack[len - 1];
                    self.op_stack.truncate(len - 2);
                    self.op_stack.push(a + b);
                    self.program_counter = self.program_counter + 1;
                    proof {
                        assert(self@.stack =~= old(self)@.stack.drop_last().drop_last().push(
                            (a + b) as usize,
                        ));
                    }
                    StepStatus::Continue
                }
            },
            ByteCode::Subtract => {
                let len = self.op_stack.len();
                if len < 2 {
                    StepStatus::Aborted(VmError::EmptyStack)
                } else {
                    let a = self.op_stack[len - 2];
                    let b = self.op_stack[len - 1];
                    self.op_stack.truncate(len - 2);
                    self.op_stack.push(a - b);
                    self.program_counter = self.program_counter + 1;
                    proof {
                        assert(self@.stack =~= old(self)@.stack.drop_last().drop_last().push(
                            (a - b) as usize,
                        ));
                    }
                    StepStatus::Continue
                }
            },
            ByteCode::Multiply => {
                let len = self.op_stack.len();
                if len < 2 {
                    StepStatus::Aborted(VmError::EmptyStack)
                } else {
                    let a = self.op_stack[len - 2];
                    let b = self.op_stack[len - 1];
                    self.op_stack.truncate(len - 2);
                    self.op_stack.push(a * b);
                    self.program_counter = self.program_counter + 1;
                    proof {
                        assert(self@.stack =~= old(self)@.stack.drop_last().drop_last().push(
                            (a * b) as usize,
                        ));
                    }
                    StepStatus::Continue
                }
            },
            ByteCode::Divide => {
                let len = self.op_stack.len();
                if len < 2 {
                    StepStatus::Aborted(VmError::EmptyStack)
                } else {
                    let a = self.op_stack[len - 2];
                    let b = self.op_stack[len - 1];
                    if b == 0 {
                        StepStatus::Aborted(VmError::DivideByZero)
                    } else {
                        self.op_stack.truncate(len - 2);
                        self.op_stack.push(a / b);
                        self.program_counter = self.program_counter + 1;
                        proof {
                            assert(self@.stack =~= old(self)@.stack.drop_last().drop_last().push(
                                (a / b) as usize,
                            ));
                        }
                        StepStatus::Continue
                    }
                }
            },
            ByteCode::DoWhileLt(var1, var2, loop_target) => {
                let index1 = match find_slot(&self.var_names, var1) {
                    Some(index) => index,
                    None => {
                        return StepStatus::Aborted(VmError::UnboundVariable);
                    },
                };
                let index2 = match find_slot(&self.var_names, var2) {
                    Some(index) => index,
                    None => {
                        return StepStatus::Aborted(VmError::UnboundVariable);
                    },
                };
                proof {
                    lemma_slot_of(old(self)@.names, var1);
                    lemma_slot_of(old(self)@.names, var2);
                }
                let counter_val = self.local_stack[index1];
                let max_val = self.local_stack[index2];
                if counter_val < max_val {
                    if loop_target >= prog_len {
                        StepStatus::Aborted(VmError::OutOfRangeTarget)
                    } else {
                        self.program_counter = loop_target;
                        StepStatus::Continue
                    }
                } else {
                    self.program_counter = self.program_counter + 1;
                    StepStatus::Continue
                }
            },
            ByteCode::ReturnValue => {
                match pop_from_stack(&mut self.op_stack) {
                    Ok(final_num) => {
                        self.program_counter = self.program_counter + 1;
                        StepStatus::Returned(final_num)
                    },
                    Err(e) => StepStatus::Aborted(e),
                }
            },
        }
    }

    /// Execute at most `max_steps` instructions, starting at the current
    /// program counter.
    ///
    /// The result is exactly the outcome of the big-step semantics
    /// [`run_spec`] with `max_steps` as the fuel.  The caller must pick a
    /// budget within which no arithmetic result leaves the `usize` range;
    /// an `OutOfSteps` result leaves the machine ready to be resumed by a
    /// further `run` call ([`crate::semantics::lemma_run_spec_extend`]
    /// relates the resumed run to a single larger budget, and
    /// [`crate::semantics::lemma_run_spec_monotone`] says that a decided
    /// outcome never changes under a larger budget).
    #[verifier::loop_isolation(false)]
    pub fn run(&mut self, max_steps: usize) -> (r: RunStatus)
        requires
            old(self).wf(),
            !(run_spec(old(self)@, max_steps as nat) is OverflowAt),
        ensures
            final(self).wf(),
            final(self)@.program == old(self)@.program,
            match r {
                RunStatus::Returned(v) => run_spec(old(self)@, max_steps as nat)
                    == RunRes::Halted(Some(v), final(self)@),
                RunStatus::Finished => run_spec(old(self)@, max_steps as nat)
                    == RunRes::Halted(None, final(self)@),
                RunStatus::OutOfSteps => run_spec(old(self)@, max_steps as nat)
                    == RunRes::Running(final(self)@),
                RunStatus::Aborted(e, i) => run_spec(old(self)@, max_steps as nat)
                    == RunRes::Aborted(e, i as nat, final(self)@),
            },
    {
        let ghost s0 = self@;
        let mut steps: usize = 0;
        while steps < max_steps
            invariant
                self.wf(),
                steps <= max_steps,
                self@.program == s0.program,
                !(run_spec(s0, max_steps as nat) is OverflowAt),
                run_spec(s0, max_steps as nat) == run_spec(
                    self@,
                    (max_steps - steps) as nat,
                ),
            decreases max_steps - steps,
        {
            if self.program_counter >= self.program.len() {
                return RunStatus::Finished;
            }
            proof {
                // With fuel left and the counter in range, the overall
                // outcome is decided by the next small step; since the whole
                // run is overflow-free, so is this step.
                assert(run_spec(self@, (max_steps - steps) as nat) == match step_spec(self@) {
                    StepRes::Next(s2) => run_spec(s2, (max_steps - steps - 1) as nat),
                    StepRes::Returned(v, s2) => RunRes::Halted(Some(v), s2),
                    StepRes::Failed(e) => RunRes::Aborted(e, self@.pc, self@),
                    StepRes::Overflow => RunRes::OverflowAt(self@.pc),
                });
            }
            match self.step() {
                StepStatus::Continue => {
                    steps = steps + 1;
                },
                StepStatus::Returned(v) => {
                    return RunStatus::Returned(v);
                },
                StepStatus::Aborted(e) => {
                    return RunStatus::Aborted(e, self.program_counter);
                },
            }
        }
        if self.program_counter < self.program.len() {
            RunStatus::OutOfSteps
        } else {
            RunStatus::Finished
        }
    }

    /// The index of the next instruction to execute.
    pub fn pc(&self) -> (r: usize)
        ensures
            r == self@.pc,
    {
        self.program_counter
    }

    /// How many instructions the program holds.
    pub fn program_len(&self) -> (r: usize)
        ensures
            r == self@.program.len(),
    {
        self.program.len()
    }

    /// The operand stack, bottom first.
    pub fn stack_contents(&self) -> (r: &Vec<usize>)
        ensures
            r@ == self@.stack,
    {
        &self.op_stack
    }

    /// The local storage slots, in allocation order.
    pub fn locals_contents(&self) -> (r: &Vec<usize>)
        ensures
            r@ == self@.locals,
    {
        &self.local_stack
    }

    /// The variable names, in slot order.
    pub fn names_contents(&self) -> (r: &Vec<char>)
        ensures
            r@ == self@.names,
    {
        &self.var_names
    }
}

} // verus!
