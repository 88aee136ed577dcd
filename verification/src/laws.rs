//! Laws of the pipeline, stated and proved over the stage
//! specifications: a run's outcome is unique, so re-running is
//! idempotent; a single assignment compiles to the expected slot and
//! round-trips its value; generated code satisfies the jump-target
//! invariant and never makes the machine read an operand slot as an
//! opcode; and the run report lists exactly the nonzero globals in
//! ascending letter order.

use vstd::prelude::*;

use crate::codegen::CodegenError;
use crate::codegen::Insn;
use crate::codegen::code_wf;
use crate::codegen::insn_size;
use crate::codegen::is_start;
use crate::codegen::lemma_compile_wf;
use crate::codegen::wf_insn_at;
use crate::codegen::spec_cg;
use crate::codegen::spec_compile;
use crate::codegen::spec_global;
use crate::parser::Ast;
use crate::vm::VmFault;
use crate::vm::VmState;
use crate::vm::VmStep;
use crate::vm::init_state;
use crate::vm::spec_report;
use crate::vm::lemma_reach_halt;
use crate::vm::reaches_halt;
use crate::vm::run_n;
use crate::vm::step;

verus! {

/// Once a run has halted or faulted, taking more steps changes nothing.
pub proof fn lemma_done_absorbing(code: Seq<Insn>, s0: VmState, n: nat, m: nat)
    requires
        n <= m,
        !(run_n(code, s0, n) matches VmStep::Next(_)),
    ensures
        run_n(code, s0, m) == run_n(code, s0, n),
    decreases m - n,
{
    if m > n {
        lemma_done_absorbing(code, s0, n, (m - 1) as nat);
    }
}

/// A run's outcome is unique: any two step counts at which the same
/// code from the same state is done — halted or faulted — agree on
/// that whole outcome.
pub proof fn lemma_outcome_unique(code: Seq<Insn>, s0: VmState, n: nat, m: nat)
    requires
        !(run_n(code, s0, n) matches VmStep::Next(_)),
        !(run_n(code, s0, m) matches VmStep::Next(_)),
    ensures
        run_n(code, s0, n) == run_n(code, s0, m),
{
    if n <= m {
        lemma_done_absorbing(code, s0, n, m);
    } else {
        lemma_done_absorbing(code, s0, m, n);
    }
}

/// Re-running is deterministic: two runs of the same instruction list
/// from the same starting globals that both halt end with the same
/// globals.  With a freshly zeroed store this is the idempotence of
/// running a freshly generated instruction list twice.
pub proof fn lemma_rerun_identical(code: Seq<Insn>, g0: Seq<isize>, g1: Seq<isize>, g2: Seq<isize>)
    requires
        reaches_halt(code, g0, g1),
        reaches_halt(code, g0, g2),
    ensures
        g1 == g2,
{
    let s0 = init_state(g0);
    let n = choose|n: nat|
        #[trigger] run_n(code, s0, n) matches VmStep::Halted(h) && h.globals == g1;
    let m = choose|m: nat|
        #[trigger] run_n(code, s0, m) matches VmStep::Halted(h) && h.globals == g2;
    lemma_outcome_unique(code, s0, n, m);
}

/// The instruction list that the assignment program `v = N;` compiles
/// to: push the constant, store it at the slot of `v`, pop the
/// assignment's value, halt.
pub open spec fn assign_code(v: char, n: isize) -> Seq<Insn> {
    seq![
        Insn::Push,
        Insn::Integer(n),
        Insn::Store,
        Insn::Address((v as u32 - 'a' as u32) as usize),
        Insn::Pop,
        Insn::Halt,
    ]
}

/// Compiling the assignment program `v = N;` yields exactly
/// [`assign_code`]: the `Store` address is the distance of the letter
/// `v` from `a`.
#[verifier::rlimit(100)]
#[verifier::spinoff_prover]
proof fn lemma_assign_compile(v: char, n: isize)
    requires
        'a' <= v && v <= 'z',
    ensures
        spec_compile(
            Ast::Prog(
                Box::new(
                    Ast::Expr(
                        Box::new(
                            Ast::Assign(Box::new(Ast::Var(seq![v])), Box::new(Ast::Cst(n))),
                        ),
                    ),
                ),
            ),
        ) == Ok::<Seq<Insn>, CodegenError>(assign_code(v, n)),
{
    reveal(spec_cg);
    let idx = v as u32 - 'a' as u32;
    let code = assign_code(v, n);
    let empty = Seq::<Insn>::empty();
    assert(spec_global(seq![v]) == Ok::<usize, CodegenError>(idx as usize));
    let c1 = empty.push(Insn::Push).push(Insn::Integer(n));
    let c2 = c1.push(Insn::Store).push(Insn::Address(idx as usize));
    let c3 = c2.push(Insn::Pop);
    let c4 = c3.push(Insn::Halt);
    assert(spec_cg(Ast::Cst(n), empty) == Ok::<Seq<Insn>, CodegenError>(c1));
    assert(spec_cg(
        Ast::Assign(Box::new(Ast::Var(seq![v])), Box::new(Ast::Cst(n))),
        empty,
    ) == Ok::<Seq<Insn>, CodegenError>(c2));
    assert(spec_cg(
        Ast::Expr(
            Box::new(Ast::Assign(Box::new(Ast::Var(seq![v])), Box::new(Ast::Cst(n)))),
        ),
        empty,
    ) == Ok::<Seq<Insn>, CodegenError>(c3));
    assert(c4 =~= code);
}

/// Running [`assign_code`] from any globals halts, with `N` stored in
/// the slot of `v` and every other slot unchanged.
proof fn lemma_assign_run(v: char, n: isize, g: Seq<isize>)
    requires
        'a' <= v && v <= 'z',
        g.len() == 26,
    ensures
        reaches_halt(assign_code(v, n), g, g.update((v as u32 - 'a' as u32) as int, n)),
{
    reveal(step);
    let idx = v as u32 - 'a' as u32;
    let code = assign_code(v, n);
    let s0 = init_state(g);
    let g2 = g.update(idx as int, n);
    let st1 = VmState { pc: 2, stack: seq![n], globals: g };
    let st2 = VmState { pc: 4, stack: seq![n], globals: g2 };
    let st3 = VmState { pc: 5, stack: Seq::empty(), globals: g2 };
    let st4 = VmState { pc: 6, stack: Seq::empty(), globals: g2 };
    assert(Seq::<isize>::empty().push(n) =~= seq![n]);
    assert(seq![n].drop_last() =~= Seq::<isize>::empty());
    assert(step(code, s0) == VmStep::Next(st1));
    assert(step(code, st1) == VmStep::Next(st2));
    assert(step(code, st2) == VmStep::Next(st3));
    assert(step(code, st3) == VmStep::Halted(st4));
    assert(run_n(code, s0, 0) == VmStep::Next(s0));
    assert(run_n(code, s0, 1) == VmStep::Next(st1));
    assert(run_n(code, s0, 2) == VmStep::Next(st2));
    assert(run_n(code, s0, 3) == VmStep::Next(st3));
    assert(run_n(code, s0, 4) == VmStep::Halted(st4));
    lemma_reach_halt(code, g, 4, st4);
}

/// The `Store` address of a variable is the distance of its letter
/// from `a`, and the round trip holds: compiling `v = N;` and running
/// it from any globals halts with `N` stored in the slot of `v` and
/// every other slot unchanged.
pub proof fn lemma_assign_round_trip(v: char, n: isize, g: Seq<isize>)
    requires
        'a' <= v && v <= 'z',
        g.len() == 26,
    ensures
        ({
            let ast = Ast::Prog(
                Box::new(
                    Ast::Expr(
                        Box::new(
                            Ast::Assign(Box::new(Ast::Var(seq![v])), Box::new(Ast::Cst(n))),
                        ),
                    ),
                ),
            );
            let idx = v as u32 - 'a' as u32;
            &&& spec_compile(ast) == Ok::<Seq<Insn>, CodegenError>(assign_code(v, n))
            &&& reaches_halt(assign_code(v, n), g, g.update(idx as int, n))
            &&& g.update(idx as int, n)[idx as int] == n
        }),
{
    lemma_assign_compile(v, n);
    lemma_assign_run(v, n, g);
}

/// Every state a run of well-formed code goes through is about to
/// execute an opcode slot: the program counter is an instruction
/// start inside the list, never an operand slot, and the global store
/// keeps its 26 slots.  The only faults such a run can reach are
/// stack underflow and arithmetic overflow.
#[verifier::rlimit(100)]
#[verifier::spinoff_prover]
proof fn lemma_wf_steps_ok(code: Seq<Insn>, g0: Seq<isize>, n: nat)
    requires
        code_wf(code),
        g0.len() == 26,
    ensures
        match run_n(code, init_state(g0), n) {
            VmStep::Next(s) => is_start(code, s.pc) && 0 <= s.pc < code.len() && s.globals.len()
                == 26,
            VmStep::Fault(_, f) => f == VmFault::StackUnderflow || f == VmFault::Overflow,
            VmStep::Halted(_) => true,
        },
    decreases n,
{
    reveal(step);
    if n > 0 {
        lemma_wf_steps_ok(code, g0, (n - 1) as nat);
        match run_n(code, init_state(g0), (n - 1) as nat) {
            VmStep::Next(s) => {
                assert(wf_insn_at(code, s.pc));
                if insn_size(code[s.pc]) == 1 {
                    assert(is_start(code, s.pc + 1));
                } else {
                    assert(is_start(code, s.pc + 2));
                }
            },
            _ => {},
        }
    }
}

/// The jump-target invariant of generated programs: compiled code is
/// well formed, and running it — whatever the starting globals and for
/// however many steps — never reaches the machine's "operand slot read
/// as an opcode" fault, nor an out-of-range global address.
pub proof fn lemma_generated_code_runs_clean(prog: Ast, code: Seq<Insn>, g0: Seq<isize>, n: nat)
    requires
        prog is Prog,
        spec_compile(prog) == Ok::<Seq<Insn>, CodegenError>(code),
        g0.len() == 26,
    ensures
        code_wf(code),
        !(run_n(code, init_state(g0), n) matches VmStep::Fault(_, VmFault::BadInstruction)),
        !(run_n(code, init_state(g0), n) matches VmStep::Fault(_, VmFault::GlobalOutOfRange)),
{
    lemma_compile_wf(prog);
    lemma_wf_steps_ok(code, g0, n);
}

/// What the run report means: every entry is a letter `a`..`z` paired
/// with the nonzero value its global slot holds, the entries come in
/// ascending letter order, and every nonzero global from slot `i` on
/// has its entry.  Globals left at zero produce no entry.
pub proof fn lemma_report_meaning(g: Seq<isize>, i: int)
    requires
        g.len() == 26,
        0 <= i <= 26,
    ensures
        ({
            let r = spec_report(g, i);
            &&& forall|k: int| 0 <= k < r.len() ==> ('a' <= #[trigger] r[k].0 <= 'z'
                && i <= r[k].0 as u32 - 97 < 26 && g[r[k].0 as u32 - 97] == r[k].1
                && r[k].1 != 0isize)
            &&& forall|k: int| 0 <= k < r.len() - 1 ==> (#[trigger] r[k].0 as u32) < (r[k
                + 1].0 as u32)
            &&& forall|j: int| i <= j < 26 && g[j] != 0isize ==> #[trigger] r.contains(
                (((97 + j) as u8) as char, g[j]),
            )
        }),
    decreases 26 - i,
{
    let r = spec_report(g, i);
    if i < 26 {
        lemma_report_meaning(g, i + 1);
        let rest = spec_report(g, i + 1);
        if g[i] != 0isize {
            let head = (((97 + i) as u8) as char, g[i]);
            assert(r == seq![head] + rest);
            assert(r[0] == head);
            assert(head.0 as u32 == 97 + i);
            assert forall|j: int| i <= j < 26 && g[j] != 0isize implies #[trigger] r.contains(
                (((97 + j) as u8) as char, g[j]),
            ) by {
                if j == i {
                    assert(r[0] == (((97 + j) as u8) as char, g[j]));
                } else {
                    let e = (((97 + j) as u8) as char, g[j]);
                    assert(rest.contains(e));
                    let k = choose|k: int| 0 <= k < rest.len() && rest[k] == e;
                    assert(r[k + 1] == e);
                }
            }
        } else {
            assert(r == rest);
            assert forall|j: int| i <= j < 26 && g[j] != 0isize implies #[trigger] r.contains(
                (((97 + j) as u8) as char, g[j]),
            ) by {
                if j > i {
                    assert(rest.contains((((97 + j) as u8) as char, g[j])));
                }
            }
        }
    }
}

} // verus!
