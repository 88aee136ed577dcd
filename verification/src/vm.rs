//! The virtual machine: a fetch-decode-execute loop over the flat
//! instruction encoding, an operand stack, and the 26 integer globals.
//!
//! The mathematical semantics of the machine is the small-step function
//! [`step`]; iterating it gives [`run_n`].  The executable interpreter
//! [`VM::run`] is proved to realize exactly that semantics.

use vstd::prelude::*;

use crate::codegen::Insn;

verus! {

/// A runtime fault.  For instruction lists produced by the code
/// generator from a well-formed program these never occur; reaching one
/// indicates a defect in the instruction stream handed to the machine.
#[derive(Debug, Clone, Copy, PartialEq, Eq, Structural)]
pub enum VmFault {
    /// An instruction needed more operand-stack values than were present.
    StackUnderflow,
    /// A `Fetch`/`Store` address was outside the 26 globals.
    GlobalOutOfRange,
    /// The program counter left the instruction list, an operand slot
    /// was reached as an opcode, or an operand slot was missing or of
    /// the wrong payload kind.
    BadInstruction,
    /// An addition or subtraction left the machine integer range.
    Overflow,
    /// The run was still going after `u64::MAX` small steps.  The
    /// machine executes at most that many instructions per run, so that
    /// every run ends; a program that needs more is reported here
    /// instead of being executed further.
    StepLimit,
}

/// The mathematical state of the machine: program counter, operand
/// stack (top is the last element), and the global store.
pub struct VmState {
    pub pc: int,
    pub stack: Seq<isize>,
    pub globals: Seq<isize>,
}

/// The outcome of one (or several chained) small steps.
pub enum VmStep {
    /// Execution continues in this state.
    Next(VmState),
    /// `Halt` was executed in this state.
    Halted(VmState),
    /// A runtime fault, with the state in which it was detected.
    Fault(VmState, VmFault),
}

/// The `Address` payload at slot `p`, if slot `p` exists and holds one.
pub open spec fn addr_at(code: Seq<Insn>, p: int) -> Option<usize> {
    if 0 <= p < code.len() {
        match code[p] {
            Insn::Address(a) => Some(a),
            _ => None,
        }
    } else {
        None
    }
}

/// The `Integer` payload at slot `p`, if slot `p` exists and holds one.
pub open spec fn int_at(code: Seq<Insn>, p: int) -> Option<isize> {
    if 0 <= p < code.len() {
        match code[p] {
            Insn::Integer(v) => Some(v),
            _ => None,
        }
    } else {
        None
    }
}

/// The small-step semantics of the machine: execute the instruction at
/// `s.pc`.  Arithmetic that leaves the machine integer range is a
/// fault; every other transition is as in the instruction table.
#[verifier::opaque]
pub open spec fn step(code: Seq<Insn>, s: VmState) -> VmStep {
    if !(0 <= s.pc < code.len()) {
        VmStep::Fault(s, VmFault::BadInstruction)
    } else {
        match code[s.pc] {
            Insn::Integer(_) | Insn::Address(_) => VmStep::Fault(s, VmFault::BadInstruction),
            Insn::Halt => VmStep::Halted(
                VmState { pc: s.pc + 1, stack: s.stack, globals: s.globals },
            ),
            Insn::Fetch => match addr_at(code, s.pc + 1) {
                None => VmStep::Fault(s, VmFault::BadInstruction),
                Some(a) => if (a as int) < s.globals.len() {
                    VmStep::Next(
                        VmState {
                            pc: s.pc + 2,
                            stack: s.stack.push(s.globals[a as int]),
                            globals: s.globals,
                        },
                    )
                } else {
                    VmStep::Fault(s, VmFault::GlobalOutOfRange)
                },
            },
            Insn::Store => match addr_at(code, s.pc + 1) {
                None => VmStep::Fault(s, VmFault::BadInstruction),
                Some(a) => if (a as int) >= s.globals.len() {
                    VmStep::Fault(s, VmFault::GlobalOutOfRange)
                } else if s.stack.len() == 0 {
                    VmStep::Fault(s, VmFault::StackUnderflow)
                } else {
                    VmStep::Next(
                        VmState {
                            pc: s.pc + 2,
                            stack: s.stack,
                            globals: s.globals.update(a as int, s.stack.last()),
                        },
                    )
                },
            },
            Insn::Push => match int_at(code, s.pc + 1) {
                None => VmStep::Fault(s, VmFault::BadInstruction),
                Some(v) => VmStep::Next(
                    VmState { pc: s.pc + 2, stack: s.stack.push(v), globals: s.globals },
                ),
            },
            Insn::Pop => if s.stack.len() == 0 {
                VmStep::Fault(s, VmFault::StackUnderflow)
            } else {
                VmStep::Next(
                    VmState { pc: s.pc + 1, stack: s.stack.drop_last(), globals: s.globals },
                )
            },
            Insn::Add => if s.stack.len() < 2 {
                VmStep::Fault(s, VmFault::StackUnderflow)
            } else {
                let b = s.stack.last();
                let a = s.stack[s.stack.len() - 2];
                if a + b < isize::MIN || a + b > isize::MAX {
                    VmStep::Fault(s, VmFault::Overflow)
                } else {
                    VmStep::Next(
                        VmState {
                            pc: s.pc + 1,
                            stack: s.stack.drop_last().drop_last().push((a + b) as isize),
                            globals: s.globals,
                        },
                    )
                }
            },
            Insn::Sub => if s.stack.len() < 2 {
                VmStep::Fault(s, VmFault::StackUnderflow)
            } else {
                let b = s.stack.last();
                let a = s.stack[s.stack.len() - 2];
                if a - b < isize::MIN || a - b > isize::MAX {
                    VmStep::Fault(s, VmFault::Overflow)
                } else {
                    VmStep::Next(
                        VmState {
                            pc: s.pc + 1,
                            stack: s.stack.drop_last().drop_last().push((a - b) as isize),
                            globals: s.globals,
                        },
                    )
                }
            },
            Insn::Lt => if s.stack.len() < 2 {
                VmStep::Fault(s, VmFault::StackUnderflow)
            } else {
                let b = s.stack.last();
                let a = s.stack[s.stack.len() - 2];
                VmStep::Next(
                    VmState {
                        pc: s.pc + 1,
                        stack: s.stack.drop_last().drop_last().push(
                            if a < b {
                                1isize
                            } else {
                                0isize
                            },
                        ),
                        globals: s.globals,
                    },
                )
            },
            Insn::Jmp => match addr_at(code, s.pc + 1) {
                None => VmStep::Fault(s, VmFault::BadInstruction),
                Some(t) => VmStep::Next(
                    VmState { pc: t as int, stack: s.stack, globals: s.globals },
                ),
            },
            Insn::Jz => match addr_at(code, s.pc + 1) {
                None => VmStep::Fault(s, VmFault::BadInstruction),
                Some(t) => if s.stack.len() == 0 {
                    VmStep::Fault(s, VmFault::StackUnderflow)
                } else {
                    VmStep::Next(
                        VmState {
                            pc: if s.stack.last() == 0isize {
                                t as int
                            } else {
                                s.pc + 2
                            },
                            stack: s.stack.drop_last(),
                            globals: s.globals,
                        },
                    )
                },
            },
            Insn::Jnz => match addr_at(code, s.pc + 1) {
                None => VmStep::Fault(s, VmFault::BadInstruction),
                Some(t) => if s.stack.len() == 0 {
                    VmStep::Fault(s, VmFault::StackUnderflow)
                } else {
                    VmStep::Next(
                        VmState {
                            pc: if s.stack.last() != 0isize {
                                t as int
                            } else {
                                s.pc + 2
                            },
                            stack: s.stack.drop_last(),
                            globals: s.globals,
                        },
                    )
                },
            },
        }
    }
}

/// The state the machine is in before its first step of a run: program
/// counter at slot zero, empty operand stack, and the persisted globals.
pub open spec fn init_state(globals: Seq<isize>) -> VmState {
    VmState { pc: 0, stack: Seq::empty(), globals }
}

/// `n` small steps from `s0`.  `Halted` and `Fault` are absorbing.
pub open spec fn run_n(code: Seq<Insn>, s0: VmState, n: nat) -> VmStep
    decreases n,
{
    if n == 0 {
        VmStep::Next(s0)
    } else {
        match run_n(code, s0, (n - 1) as nat) {
            VmStep::Next(s) => step(code, s),
            done => done,
        }
    }
}

/// Unfolding `run_n` by one step at the end of the chain.
pub proof fn lemma_run_n_step(code: Seq<Insn>, s0: VmState, n: nat, s: VmState)
    requires
        run_n(code, s0, n) == VmStep::Next(s),
    ensures
        run_n(code, s0, n + 1) == step(code, s),
{
}

/// Some number of steps from the initial state with globals `g0`
/// executes `Halt`, with `g1` as the globals of the halted state.
pub open spec fn reaches_halt(code: Seq<Insn>, g0: Seq<isize>, g1: Seq<isize>) -> bool {
    exists|n: nat|
        #[trigger] run_n(code, init_state(g0), n) matches VmStep::Halted(h) && h.globals == g1
}

/// Some number of steps from the initial state with globals `g0`
/// reaches fault `f`, with `g1` as the globals of the faulting state.
pub open spec fn reaches_fault(code: Seq<Insn>, g0: Seq<isize>, f: VmFault, g1: Seq<isize>) -> bool {
    exists|n: nat|
        #[trigger] run_n(code, init_state(g0), n) matches VmStep::Fault(s, f2) && f2 == f
            && s.globals == g1
}

pub proof fn lemma_reach_halt(code: Seq<Insn>, g0: Seq<isize>, n: nat, h: VmState)
    requires
        run_n(code, init_state(g0), n) == VmStep::Halted(h),
    ensures
        reaches_halt(code, g0, h.globals),
{
}

/// The small-step function reports real machine faults only; the step
/// budget of `VM::run` is not among them.
pub proof fn lemma_step_fault_kind(code: Seq<Insn>, s: VmState)
    ensures
        !(step(code, s) matches VmStep::Fault(s2, VmFault::StepLimit)),
{
    reveal(step);
}

pub proof fn lemma_reach_fault(code: Seq<Insn>, g0: Seq<isize>, n: nat, s: VmState, f: VmFault)
    requires
        run_n(code, init_state(g0), n) == VmStep::Fault(s, f),
    ensures
        reaches_fault(code, g0, f, s.globals),
{
}

/// The nonzero globals from slot `i` on, each as its letter (`a` for
/// slot 0) paired with its value, in ascending slot order.
pub open spec fn spec_report(globals: Seq<isize>, i: int) -> Seq<(char, isize)>
    decreases globals.len() - i,
{
    if 0 <= i < globals.len() {
        let rest = spec_report(globals, i + 1);
        if globals[i] != 0isize {
            seq![(((97 + i) as u8) as char, globals[i])] + rest
        } else {
            rest
        }
    } else {
        Seq::empty()
    }
}

/// The virtual machine: the persistent global store together with the
/// transient per-run state (instruction list, program counter, operand
/// stack).  The globals persist across `run` invocations on the same
/// instance; the instruction list and the operand stack do not.
pub struct VM {
    /// The 26 integer globals, indexed 0..26 by letter (`a` is 0).
    pub globals: Vec<isize>,
    /// The instruction list of the current (or last) run.
    pub code: Vec<Insn>,
    /// The program counter: an index into `code`.
    pub pc: usize,
    /// The operand stack; the top is the last element.
    pub stack: Vec<isize>,
    /// Whether runs record which slots they execute.
    pub tracing: bool,
    /// The slots executed while tracing was on.
    pub trace: Vec<usize>,
}

impl VM {
    /// The global store always holds exactly 26 slots.
    pub open spec fn wf(self) -> bool {
        self.globals@.len() == 26
    }

    /// The machine's current mathematical state.
    pub open spec fn st(self) -> VmState {
        VmState { pc: self.pc as int, stack: self.stack@, globals: self.globals@ }
    }

    pub open spec fn is_tracing(self) -> bool {
        self.tracing
    }

    /// A fresh machine: all 26 globals zero, tracing off.
    pub fn new() -> (vm: VM)
        ensures
            vm.wf(),
            forall|i: int| 0 <= i < 26 ==> vm.globals@[i] == 0isize,
            !vm.is_tracing(),
    {
        let mut globals: Vec<isize> = Vec::new();
        let mut k: usize = 0;
        while k < 26
            invariant
                k <= 26,
                globals@.len() == k,
                forall|i: int| 0 <= i < k ==> globals@[i] == 0isize,
            decreases 26 - k,
        {
            globals.push(0);
            k += 1;
        }
        VM {
            globals,
            code: Vec::new(),
            pc: 0,
            stack: Vec::new(),
            tracing: false,
            trace: Vec::new(),
        }
    }

    /// Record, in subsequent runs, the slot index of every instruction
    /// executed; the recording is read back with [`VM::trace`].
    pub fn trace_on(&mut self)
        ensures
            final(self).is_tracing(),
            final(self).globals@ == old(self).globals@,
    {
        self.tracing = true;
    }

    /// The slot indices of the instructions executed while tracing.
    pub fn trace(&self) -> &Vec<usize> {
        &self.trace
    }

    /// Every global with a nonzero value, as a `(letter, value)` pair,
    /// in ascending alphabetical order of the letter; globals left at
    /// zero are not reported.
    pub fn nonzero_globals(&self) -> (r: Vec<(char, isize)>)
        requires
            self.wf(),
        ensures
            r@ == spec_report(self.globals@, 0),
    {
        let ghost g = self.globals@;
        let mut out: Vec<(char, isize)> = Vec::new();
        let mut k: usize = 0;
        proof {
            assert(out@ + spec_report(g, 0) =~= spec_report(g, 0));
        }
        while k < self.globals.len()
            invariant
                self.globals@ == g,
                g.len() == 26,
                k <= 26,
                spec_report(g, 0) == out@ + spec_report(g, k as int),
            decreases 26 - k,
        {
            let v = self.globals[k];
            if v != 0 {
                let letter = (97u8 + k as u8) as char;
                let ghost out0 = out@;
                out.push((letter, v));
                proof {
                    assert(out@ =~= out0 + seq![(letter, v)]);
                    assert(out0 + (seq![(letter, v)] + spec_report(g, k + 1)) =~= (out0 + seq![
                        (letter, v),
                    ]) + spec_report(g, k + 1));
                }
            }
            k = k + 1;
        }
        proof {
            assert(out@ + spec_report(g, 26) =~= out@);
        }
        out
    }

    /// Read the `Integer` operand at the current slot and advance past it.
    fn get_const(&mut self) -> (r: Result<isize, VmFault>)
        ensures
            final(self).code@ == old(self).code@,
            final(self).stack@ == old(self).stack@,
            final(self).globals@ == old(self).globals@,
            final(self).tracing == old(self).tracing,
            match r {
                Ok(v) => int_at(old(self).code@, old(self).pc as int) == Some(v)
                    && final(self).pc == old(self).pc + 1,
                Err(f) => f == VmFault::BadInstruction
                    && int_at(old(self).code@, old(self).pc as int) is None
                    && final(self).pc == old(self).pc,
            },
    {
        if self.pc < self.code.len() {
            match self.code[self.pc] {
                Insn::Integer(v) => {
                    self.pc = self.pc + 1;
                    Ok(v)
                },
                _ => Err(VmFault::BadInstruction),
            }
        } else {
            Err(VmFault::BadInstruction)
        }
    }

    /// Read the `Address` operand at the current slot and advance past it.
    fn get_address(&mut self) -> (r: Result<usize, VmFault>)
        ensures
            final(self).code@ == old(self).code@,
            final(self).stack@ == old(self).stack@,
            final(self).globals@ == old(self).globals@,
            final(self).tracing == old(self).tracing,
            match r {
                Ok(a) => addr_at(old(self).code@, old(self).pc as int) == Some(a)
                    && final(self).pc == old(self).pc + 1,
                Err(f) => f == VmFault::BadInstruction
                    && addr_at(old(self).code@, old(self).pc as int) is None
                    && final(self).pc == old(self).pc,
            },
    {
        if self.pc < self.code.len() {
            match self.code[self.pc] {
                Insn::Address(a) => {
                    self.pc = self.pc + 1;
                    Ok(a)
                },
                _ => Err(VmFault::BadInstruction),
            }
        } else {
            Err(VmFault::BadInstruction)
        }
    }

    /// The value on top of the operand stack, left in place.
    fn top(&self) -> (r: isize)
        requires
            self.stack@.len() > 0,
        ensures
            r == self.stack@.last(),
    {
        self.stack[self.stack.len() - 1]
    }

    /// Execute the single instruction at the current program counter,
    /// realizing exactly one small step of the semantics.
    #[verifier::rlimit(100)]
    #[verifier::spinoff_prover]
    fn step_once(&mut self) -> (r: StepRes)
        ensures
            final(self).code@ == old(self).code@,
            final(self).globals@.len() == old(self).globals@.len(),
            final(self).tracing == old(self).tracing,
            match r {
                StepRes::Cont => step(old(self).code@, old(self).st()) == VmStep::Next(
                    final(self).st(),
                ),
                StepRes::Done => step(old(self).code@, old(self).st()) == VmStep::Halted(
                    VmState {
                        pc: old(self).st().pc + 1,
                        stack: old(self).st().stack,
                        globals: old(self).st().globals,
                    },
                ) && final(self).globals@ == old(self).globals@,
                StepRes::Fail(f) => step(old(self).code@, old(self).st()) == VmStep::Fault(
                    old(self).st(),
                    f,
                ) && final(self).globals@ == old(self).globals@,
            },
    {
        let ghost c: Seq<Insn> = self.code@;
        let ghost pre = self.st();
        if self.tracing {
            self.trace.push(self.pc);
        }
        if self.pc >= self.code.len() {
            proof {
                reveal(step);
                assert(step(c, pre) == VmStep::Fault(pre, VmFault::BadInstruction));
            }
            return StepRes::Fail(VmFault::BadInstruction);
        }
        let insn = self.code[self.pc];
        self.pc = self.pc + 1;
        match insn {
            Insn::Integer(_) | Insn::Address(_) => {
                proof {
                    reveal(step);
                    assert(step(c, pre) == VmStep::Fault(pre, VmFault::BadInstruction));
                }
                StepRes::Fail(VmFault::BadInstruction)
            },
            Insn::Halt => {
                proof {
                    reveal(step);
                    assert(step(c, pre) == VmStep::Halted(
                        VmState { pc: pre.pc + 1, stack: pre.stack, globals: pre.globals },
                    ));
                }
                StepRes::Done
            },
            Insn::Fetch => {
                match self.get_address() {
                    Err(f) => {
                        proof {
                            reveal(step);
                            assert(step(c, pre) == VmStep::Fault(pre, VmFault::BadInstruction));
                        }
                        StepRes::Fail(f)
                    },
                    Ok(a) => {
                        if a < self.globals.len() {
                            let v = self.globals[a];
                            self.stack.push(v);
                            proof {
                                reveal(step);
                                assert(step(c, pre) == VmStep::Next(self.st()));
                            }
                            StepRes::Cont
                        } else {
                            proof {
                                reveal(step);
                                assert(step(c, pre) == VmStep::Fault(
                                    pre,
                                    VmFault::GlobalOutOfRange,
                                ));
                            }
                            StepRes::Fail(VmFault::GlobalOutOfRange)
                        }
                    },
                }
            },
            Insn::Store => {
                match self.get_address() {
                    Err(f) => {
                        proof {
                            reveal(step);
                            assert(step(c, pre) == VmStep::Fault(pre, VmFault::BadInstruction));
                        }
                        StepRes::Fail(f)
                    },
                    Ok(a) => {
                        if a >= self.globals.len() {
                            proof {
                                reveal(step);
                                assert(step(c, pre) == VmStep::Fault(
                                    pre,
                                    VmFault::GlobalOutOfRange,
                                ));
                            }
                            StepRes::Fail(VmFault::GlobalOutOfRange)
                        } else if self.stack.len() == 0 {
                            proof {
                                reveal(step);
                                assert(step(c, pre) == VmStep::Fault(
                                    pre,
                                    VmFault::StackUnderflow,
                                ));
                            }
                            StepRes::Fail(VmFault::StackUnderflow)
                        } else {
                            let v = self.top();
                            self.globals.set(a, v);
                            proof {
                                reveal(step);
                                assert(step(c, pre) == VmStep::Next(self.st()));
                            }
                            StepRes::Cont
                        }
                    },
                }
            },
            Insn::Push => {
                match self.get_const() {
                    Err(f) => {
                        proof {
                            reveal(step);
                            assert(step(c, pre) == VmStep::Fault(pre, VmFault::BadInstruction));
                        }
                        StepRes::Fail(f)
                    },
                    Ok(v) => {
                        self.stack.push(v);
                        proof {
                            reveal(step);
                            assert(step(c, pre) == VmStep::Next(self.st()));
                        }
                        StepRes::Cont
                    },
                }
            },
            Insn::Pop => {
                match self.stack.pop() {
                    None => {
                        proof {
                            reveal(step);
                            assert(step(c, pre) == VmStep::Fault(pre, VmFault::StackUnderflow));
                        }
                        StepRes::Fail(VmFault::StackUnderflow)
                    },
                    Some(_) => {
                        proof {
                            reveal(step);
                            assert(self.stack@ =~= pre.stack.drop_last());
                            assert(step(c, pre) == VmStep::Next(self.st()));
                        }
                        StepRes::Cont
                    },
                }
            },
            Insn::Add => {
                if self.stack.len() < 2 {
                    proof {
                        reveal(step);
                        assert(step(c, pre) == VmStep::Fault(pre, VmFault::StackUnderflow));
                    }
                    return StepRes::Fail(VmFault::StackUnderflow);
                }
                let b = self.stack.pop().unwrap();
                let a = self.stack.pop().unwrap();
                let wide: i128 = a as i128 + b as i128;
                if wide < isize::MIN as i128 || wide > isize::MAX as i128 {
                    proof {
                        reveal(step);
                        assert(step(c, pre) == VmStep::Fault(pre, VmFault::Overflow));
                    }
                    return StepRes::Fail(VmFault::Overflow);
                }
                self.stack.push(wide as isize);
                proof {
                    reveal(step);
                    assert(self.stack@ =~= pre.stack.drop_last().drop_last().push(
                        (a + b) as isize,
                    ));
                    assert(step(c, pre) == VmStep::Next(self.st()));
                }
                StepRes::Cont
            },
            Insn::Sub => {
                if self.stack.len() < 2 {
                    proof {
                        reveal(step);
                        assert(step(c, pre) == VmStep::Fault(pre, VmFault::StackUnderflow));
                    }
                    return StepRes::Fail(VmFault::StackUnderflow);
                }
                let b = self.stack.pop().unwrap();
                let a = self.stack.pop().unwrap();
                let wide: i128 = a as i128 - b as i128;
                if wide < isize::MIN as i128 || wide > isize::MAX as i128 {
                    proof {
                        reveal(step);
                        assert(step(c, pre) == VmStep::Fault(pre, VmFault::Overflow));
                    }
                    return StepRes::Fail(VmFault::Overflow);
                }
                self.stack.push(wide as isize);
                proof {
                    reveal(step);
                    assert(self.stack@ =~= pre.stack.drop_last().drop_last().push(
                        (a - b) as isize,
                    ));
                    assert(step(c, pre) == VmStep::Next(self.st()));
                }
                StepRes::Cont
            },
            Insn::Lt => {
                if self.stack.len() < 2 {
                    proof {
                        reveal(step);
                        assert(step(c, pre) == VmStep::Fault(pre, VmFault::StackUnderflow));
                    }
                    return StepRes::Fail(VmFault::StackUnderflow);
                }
                let b = self.stack.pop().unwrap();
                let a = self.stack.pop().unwrap();
                let v: isize = if a < b {
                    1
                } else {
                    0
                };
                self.stack.push(v);
                proof {
                    reveal(step);
                    assert(self.stack@ =~= pre.stack.drop_last().drop_last().push(v));
                    assert(step(c, pre) == VmStep::Next(self.st()));
                }
                StepRes::Cont
            },
            Insn::Jmp => {
                match self.get_address() {
                    Err(f) => {
                        proof {
                            reveal(step);
                            assert(step(c, pre) == VmStep::Fault(pre, VmFault::BadInstruction));
                        }
                        StepRes::Fail(f)
                    },
                    Ok(t) => {
                        self.pc = t;
                        proof {
                            reveal(step);
                            assert(step(c, pre) == VmStep::Next(self.st()));
                        }
                        StepRes::Cont
                    },
                }
            },
            Insn::Jz => {
                match self.get_address() {
                    Err(f) => {
                        proof {
                            reveal(step);
                            assert(step(c, pre) == VmStep::Fault(pre, VmFault::BadInstruction));
                        }
                        StepRes::Fail(f)
                    },
                    Ok(t) => {
                        match self.stack.pop() {
                            None => {
                                proof {
                                    reveal(step);
                                    assert(step(c, pre) == VmStep::Fault(
                                        pre,
                                        VmFault::StackUnderflow,
                                    ));
                                }
                                StepRes::Fail(VmFault::StackUnderflow)
                            },
                            Some(v) => {
                                if v == 0 {
                                    self.pc = t;
                                }
                                proof {
                                    reveal(step);
                                    assert(self.stack@ =~= pre.stack.drop_last());
                                    assert(step(c, pre) == VmStep::Next(self.st()));
                                }
                                StepRes::Cont
                            },
                        }
                    },
                }
            },
            Insn::Jnz => {
                match self.get_address() {
                    Err(f) => {
                        proof {
                            reveal(step);
                            assert(step(c, pre) == VmStep::Fault(pre, VmFault::BadInstruction));
                        }
                        StepRes::Fail(f)
                    },
                    Ok(t) => {
                        match self.stack.pop() {
                            None => {
                                proof {
                                    reveal(step);
                                    assert(step(c, pre) == VmStep::Fault(
                                        pre,
                                        VmFault::StackUnderflow,
                                    ));
                                }
                                StepRes::Fail(VmFault::StackUnderflow)
                            },
                            Some(v) => {
                                if v != 0 {
                                    self.pc = t;
                                }
                                proof {
                                    reveal(step);
                                    assert(self.stack@ =~= pre.stack.drop_last());
                                    assert(step(c, pre) == VmStep::Next(self.st()));
                                }
                                StepRes::Cont
                            },
                        }
                    },
                }
            },
        }
    }

    /// Execute `code` against the persistent global store, starting
    /// with an empty operand stack at slot zero.
    ///
    /// The result is exactly what iterating the small-step semantics
    /// from the initial state gives: on `Ok` some number of steps
    /// reaches `Halt` and the globals are those of the halted state; on
    /// a fault, some number of steps reaches that fault.  Arithmetic
    /// overflow is a fault rather than a silent wrap.  A run that is
    /// still going after `u64::MAX` steps ends in `StepLimit`.
    pub fn run(&mut self, code: Vec<Insn>) -> (r: Result<(), VmFault>)
        requires
            old(self).wf(),
        ensures
            final(self).wf(),
            final(self).is_tracing() == old(self).is_tracing(),
            match r {
                Ok(()) => reaches_halt(code@, old(self).globals@, final(self).globals@),
                Err(f) => if f == VmFault::StepLimit {
                    run_n(code@, init_state(old(self).globals@), u64::MAX as nat) matches VmStep::Next(s)
                        && s.globals == final(self).globals@
                } else {
                    reaches_fault(code@, old(self).globals@, f, final(self).globals@)
                },
            },
    {
        let ghost c: Seq<Insn> = code@;
        let ghost g0: Seq<isize> = self.globals@;
        let ghost s0 = init_state(g0);
        self.code = code;
        self.pc = 0;
        self.stack = Vec::new();
        let ghost mut n: nat = 0;
        let mut budget: u64 = u64::MAX;
        proof {
            assert(run_n(c, s0, 0) == VmStep::Next(self.st()));
        }
        loop
            invariant
                self.wf(),
                c == code@,
                self.code@ == c,
                self.tracing == old(self).tracing,
                g0 == old(self).globals@,
                s0 == init_state(g0),
                run_n(c, s0, n) == VmStep::Next(self.st()),
                n + budget == u64::MAX as nat,
            decreases budget,
        {
            if budget == 0 {
                return Err(VmFault::StepLimit);
            }
            budget = budget - 1;
            let ghost pre = self.st();
            match self.step_once() {
                StepRes::Cont => {
                    proof {
                        lemma_run_n_step(c, s0, n, pre);
                        n = n + 1;
                    }
                },
                StepRes::Done => {
                    proof {
                        lemma_run_n_step(c, s0, n, pre);
                        n = n + 1;
                        lemma_reach_halt(
                            c,
                            g0,
                            n,
                            VmState { pc: pre.pc + 1, stack: pre.stack, globals: pre.globals },
                        );
                    }
                    return Ok(());
                },
                StepRes::Fail(f) => {
                    proof {
                        lemma_run_n_step(c, s0, n, pre);
                        n = n + 1;
                        lemma_step_fault_kind(c, pre);
                        lemma_reach_fault(c, g0, n, pre, f);
                    }
                    return Err(f);
                },
            }
        }
    }
}

/// What a single executed instruction did: continue, halt, or fault.
enum StepRes {
    Cont,
    Done,
    Fail(VmFault),
}

} // verus!
