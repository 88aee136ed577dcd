//! Code generation: from a parsed program to a flat instruction list.

use vstd::prelude::*;

use crate::parser::Ast;
use crate::parser::node_view;
use crate::parser::Node;

verus! {

/// `Insn` models the instructions of the virtual machine.
///
/// The encoding is variable width: `Push`, `Fetch`, `Store`, `Jz`,
/// `Jnz` and `Jmp` each occupy two slots, the opcode itself followed by
/// one operand slot, which is a pure payload entry `Integer(_)` (for
/// `Push`) or `Address(_)` (for the others).  All remaining opcodes
/// occupy a single slot.  Branch targets are absolute indices into the
/// instruction list.
#[derive(Debug, Clone, Copy, PartialEq, Eq, Structural)]
pub enum Insn {
    Fetch,
    Store,
    Push,
    Pop,
    Add,
    Sub,
    Lt,
    Jz,
    Jnz,
    Jmp,
    Halt,
    Integer(isize),
    Address(usize),
}

/// Number of slots an instruction occupies: the opcode slot plus one
/// operand slot for the opcodes that carry an inline operand.
pub open spec fn insn_size(i: Insn) -> int {
    match i {
        Insn::Push | Insn::Fetch | Insn::Store | Insn::Jz | Insn::Jnz | Insn::Jmp => 2,
        _ => 1,
    }
}

/// A code-generation failure.  These correspond to the structural
/// violations that the language rejects at this stage.
#[derive(Debug, Clone, Copy, PartialEq, Eq, Structural)]
pub enum CodegenError {
    /// The left-hand side of an assignment was not a variable reference.
    ExpectedVariable,
    /// A variable name other than a single lowercase letter `a`..`z`
    /// was used as a storage location.
    UnsupportedVariable,
    /// The instruction list outgrew the address space.
    CodeTooLong,
}

/// The global-store slot of a variable name: `0` for `a` through `25`
/// for `z`; any other name is unsupported.
pub open spec fn spec_global(name: Seq<char>) -> Result<usize, CodegenError> {
    if name.len() == 1 && 'a' <= name[0] && name[0] <= 'z' {
        Ok((name[0] as u32 - 'a' as u32) as usize)
    } else {
        Err(CodegenError::UnsupportedVariable)
    }
}

/// The code generator as a mathematical function: the instruction list
/// that compiling node `n` appends after the already-emitted `code`.
///
/// Branch holes are reserved as `Address(0)` slots and patched by
/// position once the target is known, exactly as the generator works.
#[verifier::opaque]
pub open spec fn spec_cg(n: Ast, code: Seq<Insn>) -> Result<Seq<Insn>, CodegenError>
    decreases n,
{
    match n {
        Ast::Add(a, b) => match spec_cg(*a, code) {
            Err(e) => Err(e),
            Ok(c1) => match spec_cg(*b, c1) {
                Err(e) => Err(e),
                Ok(c2) => Ok(c2.push(Insn::Add)),
            },
        },
        Ast::Sub(a, b) => match spec_cg(*a, code) {
            Err(e) => Err(e),
            Ok(c1) => match spec_cg(*b, c1) {
                Err(e) => Err(e),
                Ok(c2) => Ok(c2.push(Insn::Sub)),
            },
        },
        Ast::Lt(a, b) => match spec_cg(*a, code) {
            Err(e) => Err(e),
            Ok(c1) => match spec_cg(*b, c1) {
                Err(e) => Err(e),
                Ok(c2) => Ok(c2.push(Insn::Lt)),
            },
        },
        Ast::If1(test, then) => match spec_cg(*test, code) {
            Err(e) => Err(e),
            Ok(c1) => {
                let c2 = c1.push(Insn::Jz).push(Insn::Address(0));
                match spec_cg(*then, c2) {
                    Err(e) => Err(e),
                    Ok(c3) => if c3.len() <= usize::MAX {
                        Ok(c3.update(c1.len() as int + 1, Insn::Address(c3.len() as usize)))
                    } else {
                        Err(CodegenError::CodeTooLong)
                    },
                }
            },
        },
        Ast::If2(test, then, els) => match spec_cg(*test, code) {
            Err(e) => Err(e),
            Ok(c1) => {
                let c2 = c1.push(Insn::Jz).push(Insn::Address(0));
                match spec_cg(*then, c2) {
                    Err(e) => Err(e),
                    Ok(c3) => {
                        let c4 = c3.push(Insn::Jmp).push(Insn::Address(0));
                        if c4.len() <= usize::MAX {
                            let c5 = c4.update(c1.len() as int + 1, Insn::Address(c4.len() as usize));
                            match spec_cg(*els, c5) {
                                Err(e) => Err(e),
                                Ok(c6) => if c6.len() <= usize::MAX {
                                    Ok(
                                        c6.update(
                                            c3.len() as int + 1,
                                            Insn::Address(c6.len() as usize),
                                        ),
                                    )
                                } else {
                                    Err(CodegenError::CodeTooLong)
                                },
                            }
                        } else {
                            Err(CodegenError::CodeTooLong)
                        }
                    },
                }
            },
        },
        Ast::While(test, body) => if code.len() <= usize::MAX {
            match spec_cg(*test, code) {
                Err(e) => Err(e),
                Ok(c1) => {
                    let c2 = c1.push(Insn::Jz).push(Insn::Address(0));
                    match spec_cg(*body, c2) {
                        Err(e) => Err(e),
                        Ok(c3) => {
                            let c4 = c3.push(Insn::Jmp).push(
                                Insn::Address(code.len() as usize),
                            );
                            if c4.len() <= usize::MAX {
                                Ok(c4.update(c1.len() as int + 1, Insn::Address(c4.len() as usize)))
                            } else {
                                Err(CodegenError::CodeTooLong)
                            }
                        },
                    }
                },
            }
        } else {
            Err(CodegenError::CodeTooLong)
        },
        Ast::Do(body, test) => if code.len() <= usize::MAX {
            match spec_cg(*body, code) {
                Err(e) => Err(e),
                Ok(c1) => match spec_cg(*test, c1) {
                    Err(e) => Err(e),
                    Ok(c2) => Ok(
                        c2.push(Insn::Jnz).push(Insn::Address(code.len() as usize)),
                    ),
                },
            }
        } else {
            Err(CodegenError::CodeTooLong)
        },
        Ast::Prog(body) => match spec_cg(*body, code) {
            Err(e) => Err(e),
            Ok(c1) => Ok(c1.push(Insn::Halt)),
        },
        Ast::Expr(body) => match spec_cg(*body, code) {
            Err(e) => Err(e),
            Ok(c1) => Ok(c1.push(Insn::Pop)),
        },
        Ast::Assign(var, expr) => match spec_cg(*expr, code) {
            Err(e) => Err(e),
            Ok(c1) => match *var {
                Ast::Var(v) => match spec_global(v) {
                    Err(e) => Err(e),
                    Ok(idx) => Ok(c1.push(Insn::Store).push(Insn::Address(idx))),
                },
                _ => Err(CodegenError::ExpectedVariable),
            },
        },
        Ast::Cst(val) => Ok(code.push(Insn::Push).push(Insn::Integer(val))),
        Ast::Var(v) => match spec_global(v) {
            Err(e) => Err(e),
            Ok(idx) => Ok(code.push(Insn::Fetch).push(Insn::Address(idx))),
        },
        Ast::Sequence(a, b) => match spec_cg(*a, code) {
            Err(e) => Err(e),
            Ok(c1) => spec_cg(*b, c1),
        },
        Ast::Empty => Ok(code),
    }
}

/// What compiling a whole tree from an empty list yields.
pub open spec fn spec_compile(n: Ast) -> Result<Seq<Insn>, CodegenError> {
    spec_cg(n, Seq::empty())
}

/// Take a parsed tree and compile it to instructions.
pub fn compile(ast: Node) -> (r: Result<Vec<Insn>, CodegenError>)
    ensures
        match r {
            Ok(code) => spec_compile(ast@) == Ok::<Seq<Insn>, CodegenError>(code@),
            Err(e) => spec_compile(ast@) == Err::<Seq<Insn>, CodegenError>(e),
        },
{
    let mut cg = Codegen { code: Vec::new() };
    match cg.compile(ast) {
        Ok(()) => Ok(cg.code),
        Err(e) => Err(e),
    }
}

/// The generator: traverses the tree and appends to `code`.
struct Codegen {
    code: Vec<Insn>,
}

impl Codegen {
    /// The global-store slot of variable `v`, per [`spec_global`].
    fn global(&self, v: &str) -> (r: Result<usize, CodegenError>)
        ensures
            r == spec_global(v@),
    {
        if v.unicode_len() == 1 {
            let c = v.get_char(0);
            if 'a' <= c && c <= 'z' {
                Ok((c as u32 - 'a' as u32) as usize)
            } else {
                Err(CodegenError::UnsupportedVariable)
            }
        } else {
            Err(CodegenError::UnsupportedVariable)
        }
    }

    /// The position one past the last emitted instruction.
    fn here(&self) -> (r: usize)
        ensures
            r == self.code@.len(),
    {
        self.code.len()
    }

    /// Reserve an operand slot for a branch target not yet known,
    /// returning its position for a later [`Codegen::fix`].
    fn hole(&mut self) -> (r: usize)
        ensures
            final(self).code@ == old(self).code@.push(Insn::Address(0)),
            r == old(self).code@.len(),
    {
        let p = self.here();
        self.code.push(Insn::Address(0));
        p
    }

    /// Patch the reserved slot `hole` to the branch target `target`.
    fn fix(&mut self, hole: usize, target: usize)
        requires
            hole < old(self).code@.len(),
        ensures
            final(self).code@ == old(self).code@.update(hole as int, Insn::Address(target)),
    {
        self.code.set(hole, Insn::Address(target));
    }

    /// Emit the instructions for `n` after the code already emitted,
    /// realizing exactly [`spec_cg`].
    #[verifier::rlimit(100)]
    #[verifier::spinoff_prover]
    fn compile(&mut self, n: Node) -> (r: Result<(), CodegenError>)
        ensures
            match r {
                Ok(()) => spec_cg(n@, old(self).code@) == Ok::<Seq<Insn>, CodegenError>(
                    final(self).code@,
                ) && final(self).code@.len() >= old(self).code@.len(),
                Err(e) => spec_cg(n@, old(self).code@) == Err::<Seq<Insn>, CodegenError>(e),
            },
        decreases n, 1int,
    {
        match n {
            Node::Add(a, b) => {
                proof {
                    reveal(spec_cg);
                    reveal(crate::parser::node_view);
                }
                match self.compile(*a) {
                    Err(e) => return Err(e),
                    Ok(()) => {},
                }
                match self.compile(*b) {
                    Err(e) => return Err(e),
                    Ok(()) => {},
                }
                self.code.push(Insn::Add);
                return Ok(());
            },
            Node::Sub(a, b) => {
                proof {
                    reveal(spec_cg);
                    reveal(crate::parser::node_view);
                }
                match self.compile(*a) {
                    Err(e) => return Err(e),
                    Ok(()) => {},
                }
                match self.compile(*b) {
                    Err(e) => return Err(e),
                    Ok(()) => {},
                }
                self.code.push(Insn::Sub);
                return Ok(());
            },
            Node::Lt(a, b) => {
                proof {
                    reveal(spec_cg);
                    reveal(crate::parser::node_view);
                }
                match self.compile(*a) {
                    Err(e) => return Err(e),
                    Ok(()) => {},
                }
                match self.compile(*b) {
                    Err(e) => return Err(e),
                    Ok(()) => {},
                }
                self.code.push(Insn::Lt);
                return Ok(());
            },
            Node::Assign(var, expr) => {
                proof {
                    reveal(spec_cg);
                    reveal(crate::parser::node_view);
                }
                match self.compile(*expr) {
                    Err(e) => return Err(e),
                    Ok(()) => {},
                }
                self.code.push(Insn::Store);
                match *var {
                    Node::Var(v) => {
                        proof {
                            assert(node_view(Node::Var(v)) == Ast::Var(v@));
                        }
                        match self.global(&v) {
                            Err(e) => Err(e),
                            Ok(idx) => {
                                self.code.push(Insn::Address(idx));
                                return Ok(());
                            },
                        }
                    },
                    other => {
                        proof {
                            crate::parser::lemma_node_view_var(other);
                        }
                        Err(CodegenError::ExpectedVariable)
                    },
                }
            },
            Node::Cst(val) => {
                proof {
                    reveal(spec_cg);
                    reveal(crate::parser::node_view);
                }
                self.code.push(Insn::Push);
                self.code.push(Insn::Integer(val));
                return Ok(());
            },
            Node::Var(v) => {
                proof {
                    reveal(spec_cg);
                    reveal(crate::parser::node_view);
                }
                match self.global(&v) {
                    Err(e) => Err(e),
                    Ok(idx) => {
                        self.code.push(Insn::Fetch);
                        self.code.push(Insn::Address(idx));
                        return Ok(());
                    },
                }
            },
            Node::Expr(body) => {
                proof {
                    reveal(spec_cg);
                    reveal(crate::parser::node_view);
                }
                match self.compile(*body) {
                    Err(e) => return Err(e),
                    Ok(()) => {},
                }
                self.code.push(Insn::Pop);
                return Ok(());
            },
            other => self.compile_flow(other),
        }
    }

    /// The statement-level half of [`Codegen::compile`]: the control
    /// structures, statement sequencing, and the program wrapper.
    #[verifier::rlimit(100)]
    #[verifier::spinoff_prover]
    fn compile_flow(&mut self, n: Node) -> (r: Result<(), CodegenError>)
        requires
            n is If1 || n is If2 || n is While || n is Do || n is Prog || n is Sequence
                || n is Empty,
        ensures
            match r {
                Ok(()) => spec_cg(n@, old(self).code@) == Ok::<Seq<Insn>, CodegenError>(
                    final(self).code@,
                ) && final(self).code@.len() >= old(self).code@.len(),
                Err(e) => spec_cg(n@, old(self).code@) == Err::<Seq<Insn>, CodegenError>(e),
            },
        decreases n, 0int,
    {
        match n {
            Node::If1(test, then) => {
                proof {
                    reveal(spec_cg);
                    reveal(crate::parser::node_view);
                }
                match self.compile(*test) {
                    Err(e) => return Err(e),
                    Ok(()) => {},
                }
                self.code.push(Insn::Jz);
                let jz = self.hole();
                match self.compile(*then) {
                    Err(e) => return Err(e),
                    Ok(()) => {},
                }
                let target = self.here();
                self.fix(jz, target);
                return Ok(());
            },
            Node::If2(test, then, els) => {
                proof {
                    reveal(spec_cg);
                    reveal(crate::parser::node_view);
                }
                match self.compile(*test) {
                    Err(e) => return Err(e),
                    Ok(()) => {},
                }
                self.code.push(Insn::Jz);
                let jz = self.hole();
                match self.compile(*then) {
                    Err(e) => return Err(e),
                    Ok(()) => {},
                }
                self.code.push(Insn::Jmp);
                let jmp = self.hole();
                let after_then = self.here();
                self.fix(jz, after_then);
                match self.compile(*els) {
                    Err(e) => return Err(e),
                    Ok(()) => {},
                }
                let after_els = self.here();
                self.fix(jmp, after_els);
                return Ok(());
            },
            Node::While(test, body) => {
                proof {
                    reveal(spec_cg);
                    reveal(crate::parser::node_view);
                }
                let l_restart = self.here();
                match self.compile(*test) {
                    Err(e) => return Err(e),
                    Ok(()) => {},
                }
                self.code.push(Insn::Jz);
                let jz = self.hole();
                match self.compile(*body) {
                    Err(e) => return Err(e),
                    Ok(()) => {},
                }
                let ghost c3 = self.code@;
                self.code.push(Insn::Jmp);
                let jmp = self.hole();
                self.fix(jmp, l_restart);
                proof {
                    assert(self.code@ =~= c3.push(Insn::Jmp).push(Insn::Address(l_restart)));
                }
                let after = self.here();
                self.fix(jz, after);
                return Ok(());
            },
            Node::Do(body, test) => {
                proof {
                    reveal(spec_cg);
                    reveal(crate::parser::node_view);
                }
                let l_restart = self.here();
                match self.compile(*body) {
                    Err(e) => return Err(e),
                    Ok(()) => {},
                }
                match self.compile(*test) {
                    Err(e) => return Err(e),
                    Ok(()) => {},
                }
                self.code.push(Insn::Jnz);
                self.code.push(Insn::Address(l_restart));
                return Ok(());
            },
            Node::Prog(body) => {
                proof {
                    reveal(spec_cg);
                    reveal(crate::parser::node_view);
                }
                match self.compile(*body) {
                    Err(e) => return Err(e),
                    Ok(()) => {},
                }
                self.code.push(Insn::Halt);
                return Ok(());
            },
            Node::Sequence(a, b) => {
                proof {
                    reveal(spec_cg);
                    reveal(crate::parser::node_view);
                }
                match self.compile(*a) {
                    Err(e) => return Err(e),
                    Ok(()) => {},
                }
                return self.compile(*b);
            },
            Node::Empty => {
                proof {
                    reveal(spec_cg);
                    reveal(crate::parser::node_view);
                }
                return Ok(());
            },
            _ => {
                // Unreachable: the precondition admits only the
                // statement-level constructors matched above.
                proof {
                    assert(false);
                }
                Err(CodegenError::ExpectedVariable)
            },
        }
    }
}

/// `p` is the start of an instruction slot: the walk from slot 0,
/// taking one or two slots per instruction, reaches `p`.  The list
/// length itself is a start exactly when the walk tiles the whole
/// list.
pub open spec fn is_start(code: Seq<Insn>, p: int) -> bool
    decreases p,
{
    if p < 0 {
        false
    } else if p == 0 {
        true
    } else {
        let one = p - 1 < code.len() && is_start(code, p - 1) && insn_size(code[p - 1]) == 1;
        let two = if p >= 2 {
            p - 2 < code.len() && is_start(code, p - 2) && insn_size(code[p - 2]) == 2
        } else {
            false
        };
        one || two
    }
}

/// What may stand at instruction start `p` while generation is still
/// under way: never a bare payload, each operand-carrying opcode is
/// followed by its payload slot, global addresses are in range, and
/// every branch target is an instruction start no farther than the
/// (provisional) end of the list.
pub open spec fn gen_insn_ok(code: Seq<Insn>, p: int) -> bool {
    match code[p] {
        Insn::Integer(_) | Insn::Address(_) => false,
        Insn::Push => p + 1 < code.len() && code[p + 1] is Integer,
        Insn::Fetch | Insn::Store => p + 1 < code.len() && match code[p + 1] {
            Insn::Address(a) => a < 26,
            _ => false,
        },
        Insn::Jz | Insn::Jnz | Insn::Jmp => p + 1 < code.len() && match code[p + 1] {
            Insn::Address(t) => t <= code.len() && is_start(code, t as int),
            _ => false,
        },
        _ => true,
    }
}

/// Well-formedness of the growing instruction list: the walk tiles it
/// exactly and every start is acceptable mid-generation.
pub open spec fn gen_wf(code: Seq<Insn>) -> bool {
    &&& is_start(code, code.len() as int)
    &&& forall|p: int|
        0 <= p < code.len() && #[trigger] is_start(code, p) ==> gen_insn_ok(code, p)
}

/// What must stand at instruction start `p` of a finished program:
/// as in [`gen_insn_ok`], but branch targets lie strictly inside the
/// list and execution cannot fall off the end.
pub open spec fn wf_insn_at(code: Seq<Insn>, p: int) -> bool {
    match code[p] {
        Insn::Integer(_) | Insn::Address(_) => false,
        Insn::Push => p + 2 < code.len() && code[p + 1] is Integer,
        Insn::Fetch | Insn::Store => p + 2 < code.len() && match code[p + 1] {
            Insn::Address(a) => a < 26,
            _ => false,
        },
        Insn::Jmp => p + 1 < code.len() && match code[p + 1] {
            Insn::Address(t) => t < code.len() && is_start(code, t as int),
            _ => false,
        },
        Insn::Jz | Insn::Jnz => p + 2 < code.len() && match code[p + 1] {
            Insn::Address(t) => t < code.len() && is_start(code, t as int),
            _ => false,
        },
        Insn::Halt => true,
        _ => p + 1 < code.len(),
    }
}

/// The jump-target invariant of a finished instruction list: the
/// two-slot walk tiles it exactly, every reachable branch target is
/// the index of an opcode slot, never an operand slot, and every
/// instruction that continues has somewhere to continue to.
pub open spec fn code_wf(code: Seq<Insn>) -> bool {
    &&& code.len() > 0
    &&& is_start(code, code.len() as int)
    &&& forall|p: int|
        0 <= p < code.len() && #[trigger] is_start(code, p) ==> wf_insn_at(code, p)
}

/// Appending a slot changes no start at or below the old end.
pub proof fn lemma_is_start_push(code: Seq<Insn>, x: Insn, p: int)
    requires
        p <= code.len(),
    ensures
        is_start(code.push(x), p) == is_start(code, p),
    decreases p,
{
    if p > 0 {
        lemma_is_start_push(code, x, p - 1);
        if p >= 2 {
            lemma_is_start_push(code, x, p - 2);
        }
    }
}

/// Overwriting a slot that is not a start changes no start at all.
pub proof fn lemma_is_start_update(code: Seq<Insn>, h: int, x: Insn, p: int)
    requires
        0 <= h < code.len(),
        !is_start(code, h),
    ensures
        is_start(code.update(h, x), p) == is_start(code, p),
    decreases p,
{
    if p > 0 {
        lemma_is_start_update(code, h, x, p - 1);
        if p >= 2 {
            lemma_is_start_update(code, h, x, p - 2);
        }
    }
}

/// The generated list below `base` is kept: same slots, same starts.
pub open spec fn keeps_below(c1: Seq<Insn>, c2: Seq<Insn>, base: int) -> bool {
    &&& c2.len() >= c1.len()
    &&& forall|p: int| 0 <= p < base ==> c2[p] == c1[p]
    &&& forall|p: int| 0 <= p <= base ==> is_start(c2, p) == is_start(c1, p)
}

pub proof fn lemma_keeps_trans(c1: Seq<Insn>, c2: Seq<Insn>, c3: Seq<Insn>, base: int)
    requires
        keeps_below(c1, c2, base),
        keeps_below(c2, c3, base),
    ensures
        keeps_below(c1, c3, base),
{
}

pub proof fn lemma_keeps_mono(c1: Seq<Insn>, c2: Seq<Insn>, base: int, lower: int)
    requires
        keeps_below(c1, c2, base),
        lower <= base,
    ensures
        keeps_below(c1, c2, lower),
{
}

pub proof fn lemma_keeps_push(c: Seq<Insn>, x: Insn)
    ensures
        keeps_below(c, c.push(x), c.len() as int),
{
    assert forall|p: int| 0 <= p <= c.len() implies is_start(c.push(x), p) == is_start(c, p) by {
        lemma_is_start_push(c, x, p);
    }
}

pub proof fn lemma_keeps_update(c: Seq<Insn>, h: int, x: Insn)
    requires
        0 <= h < c.len(),
        !is_start(c, h),
    ensures
        keeps_below(c, c.update(h, x), h),
{
    assert forall|p: int| 0 <= p <= h implies is_start(c.update(h, x), p) == is_start(c, p) by {
        lemma_is_start_update(c, h, x, p);
    }
}

/// Appending a plain one-slot opcode preserves well-formedness.
pub proof fn lemma_gen_push1(code: Seq<Insn>, op: Insn)
    requires
        gen_wf(code),
        insn_size(op) == 1,
        !(op is Integer),
        !(op is Address),
    ensures
        gen_wf(code.push(op)),
{
    let c2 = code.push(op);
    assert forall|p: int| p <= code.len() implies is_start(c2, p) == is_start(code, p) by {
        if p >= 0 {
            lemma_is_start_push(code, op, p);
        }
    }
    assert(is_start(c2, c2.len() as int));
    assert forall|p: int| 0 <= p < c2.len() && #[trigger] is_start(c2, p) implies gen_insn_ok(
        c2,
        p,
    ) by {
        if p < code.len() {
            assert(is_start(code, p));
            assert(gen_insn_ok(code, p));
            match code[p] {
                Insn::Jz | Insn::Jnz | Insn::Jmp => {
                    match code[p + 1] {
                        Insn::Address(t) => {
                            lemma_is_start_push(code, op, t as int);
                        },
                        _ => {},
                    }
                },
                _ => {},
            }
        }
    }
}

/// Appending an operand-carrying opcode with an acceptable payload
/// preserves well-formedness.
pub proof fn lemma_gen_push2(code: Seq<Insn>, op: Insn, payload: Insn)
    requires
        gen_wf(code),
        insn_size(op) == 2,
        !(op is Integer),
        !(op is Address),
        op is Push ==> payload is Integer,
        (op is Fetch || op is Store) ==> (payload matches Insn::Address(a) && a < 26),
        (op is Jz || op is Jnz || op is Jmp) ==> (payload matches Insn::Address(t) && t
            <= code.len() && is_start(code, t as int)),
    ensures
        gen_wf(code.push(op).push(payload)),
{
    let c1 = code.push(op);
    let c2 = c1.push(payload);
    assert forall|p: int| p <= code.len() implies is_start(c2, p) == is_start(code, p) by {
        if p >= 0 {
            lemma_is_start_push(code, op, p);
            lemma_is_start_push(c1, payload, p);
        }
    }
    assert(is_start(c2, code.len() as int));
    assert(is_start(c2, c2.len() as int));
    assert forall|p: int| 0 <= p < c2.len() && #[trigger] is_start(c2, p) implies gen_insn_ok(
        c2,
        p,
    ) by {
        if p < code.len() {
            assert(is_start(code, p));
            assert(gen_insn_ok(code, p));
            match code[p] {
                Insn::Jz | Insn::Jnz | Insn::Jmp => {
                    match code[p + 1] {
                        Insn::Address(t) => {
                            lemma_is_start_push(code, op, t as int);
                            lemma_is_start_push(c1, payload, t as int);
                        },
                        _ => {},
                    }
                },
                _ => {},
            }
        } else if p == code.len() {
            if op is Jz || op is Jnz || op is Jmp {
                match payload {
                    Insn::Address(t) => {
                        lemma_is_start_push(code, op, t as int);
                        lemma_is_start_push(c1, payload, t as int);
                    },
                    _ => {},
                }
            }
        } else {
            // The payload slot is not a start: its opcode occupies
            // both slots, and no instruction can end exactly at the
            // old list end while needing an operand beyond it.
            assert(p == code.len() + 1);
            if code.len() >= 1 {
                lemma_is_start_push(code, op, code.len() - 1);
                lemma_is_start_push(c1, payload, code.len() - 1);
                if is_start(code, code.len() - 1) {
                    assert(gen_insn_ok(code, code.len() - 1));
                }
            }
            assert(c2[code.len() as int] == op);
            assert(false);
        }
    }
}

/// Patching the operand slot of a branch to a start preserves
/// well-formedness.
pub proof fn lemma_gen_patch(code: Seq<Insn>, j: int, t: usize)
    requires
        gen_wf(code),
        0 <= j,
        j + 1 < code.len(),
        is_start(code, j),
        code[j] is Jz || code[j] is Jnz || code[j] is Jmp,
        t <= code.len(),
        is_start(code, t as int),
    ensures
        gen_wf(code.update(j + 1, Insn::Address(t))),
        keeps_below(code, code.update(j + 1, Insn::Address(t)), j + 1),
{
    let h = j + 1;
    assert(gen_insn_ok(code, j));
    assert(!is_start(code, h)) by {
        if is_start(code, h) {
            assert(gen_insn_ok(code, h));
        }
    }
    let c2 = code.update(h, Insn::Address(t));
    assert forall|p: int| is_start(c2, p) == is_start(code, p) by {
        lemma_is_start_update(code, h, Insn::Address(t), p);
    }
    lemma_keeps_update(code, h, Insn::Address(t));
    assert forall|p: int| 0 <= p < c2.len() && #[trigger] is_start(c2, p) implies gen_insn_ok(
        c2,
        p,
    ) by {
        assert(is_start(code, p));
        assert(gen_insn_ok(code, p));
        if p != j {
            assert(p != h);
            assert(c2[p] == code[p]);
            match code[p] {
                Insn::Push | Insn::Fetch | Insn::Store | Insn::Jz | Insn::Jnz | Insn::Jmp => {
                    assert(p + 1 != h) by {
                        if p + 1 == h {
                            assert(p == j);
                        }
                    }
                    assert(c2[p + 1] == code[p + 1]);
                },
                _ => {},
            }
        }
    }
}

/// Compiling any node onto a well-formed list yields a well-formed
/// list that keeps everything already emitted, starts included.
pub open spec fn cg_ok(n: Ast, code: Seq<Insn>) -> bool {
    match spec_cg(n, code) {
        Ok(c2) => gen_wf(c2) && keeps_below(code, c2, code.len() as int),
        Err(_) => true,
    }
}

/// The code generator preserves well-formedness: every branch target
/// it emits or patches is an instruction start.
#[verifier::rlimit(100)]
#[verifier::spinoff_prover]
pub proof fn lemma_cg_wf(n: Ast, code: Seq<Insn>)
    requires
        gen_wf(code),
    ensures
        cg_ok(n, code),
    decreases n,
{
    reveal(spec_cg);
    let base = code.len() as int;
    match n {
        Ast::Add(a, b) => {
            lemma_cg_wf(*a, code);
            match spec_cg(*a, code) {
                Err(_) => {},
                Ok(c1) => {
                    lemma_cg_wf(*b, c1);
                    match spec_cg(*b, c1) {
                        Err(_) => {},
                        Ok(c2) => {
                            lemma_gen_push1(c2, Insn::Add);
                            lemma_keeps_push(c2, Insn::Add);
                            lemma_keeps_mono(c1, c2, c1.len() as int, base);
                            lemma_keeps_trans(code, c1, c2, base);
                            lemma_keeps_mono(c2, c2.push(Insn::Add), c2.len() as int, base);
                            lemma_keeps_trans(code, c2, c2.push(Insn::Add), base);
                        },
                    }
                },
            }
        },
        Ast::Sub(a, b) => {
            lemma_cg_wf(*a, code);
            match spec_cg(*a, code) {
                Err(_) => {},
                Ok(c1) => {
                    lemma_cg_wf(*b, c1);
                    match spec_cg(*b, c1) {
                        Err(_) => {},
                        Ok(c2) => {
                            lemma_gen_push1(c2, Insn::Sub);
                            lemma_keeps_push(c2, Insn::Sub);
                            lemma_keeps_mono(c1, c2, c1.len() as int, base);
                            lemma_keeps_trans(code, c1, c2, base);
                            lemma_keeps_mono(c2, c2.push(Insn::Sub), c2.len() as int, base);
                            lemma_keeps_trans(code, c2, c2.push(Insn::Sub), base);
                        },
                    }
                },
            }
        },
        Ast::Lt(a, b) => {
            lemma_cg_wf(*a, code);
            match spec_cg(*a, code) {
                Err(_) => {},
                Ok(c1) => {
                    lemma_cg_wf(*b, c1);
                    match spec_cg(*b, c1) {
                        Err(_) => {},
                        Ok(c2) => {
                            lemma_gen_push1(c2, Insn::Lt);
                            lemma_keeps_push(c2, Insn::Lt);
                            lemma_keeps_mono(c1, c2, c1.len() as int, base);
                            lemma_keeps_trans(code, c1, c2, base);
                            lemma_keeps_mono(c2, c2.push(Insn::Lt), c2.len() as int, base);
                            lemma_keeps_trans(code, c2, c2.push(Insn::Lt), base);
                        },
                    }
                },
            }
        },
        Ast::Cst(v) => {
            lemma_gen_push2(code, Insn::Push, Insn::Integer(v));
            let c1 = code.push(Insn::Push);
            lemma_keeps_push(code, Insn::Push);
            lemma_keeps_push(c1, Insn::Integer(v));
            lemma_keeps_mono(c1, c1.push(Insn::Integer(v)), c1.len() as int, base);
            lemma_keeps_trans(code, c1, c1.push(Insn::Integer(v)), base);
        },
        Ast::Var(v) => {
            match spec_global(v) {
                Err(_) => {},
                Ok(idx) => {
                    lemma_gen_push2(code, Insn::Fetch, Insn::Address(idx));
                    let c1 = code.push(Insn::Fetch);
                    lemma_keeps_push(code, Insn::Fetch);
                    lemma_keeps_push(c1, Insn::Address(idx));
                    lemma_keeps_mono(c1, c1.push(Insn::Address(idx)), c1.len() as int, base);
                    lemma_keeps_trans(code, c1, c1.push(Insn::Address(idx)), base);
                },
            }
        },
        Ast::Assign(var, expr) => {
            lemma_cg_wf(*expr, code);
            match spec_cg(*expr, code) {
                Err(_) => {},
                Ok(c1) => {
                    match *var {
                        Ast::Var(v) => {
                            match spec_global(v) {
                                Err(_) => {},
                                Ok(idx) => {
                                    lemma_gen_push2(c1, Insn::Store, Insn::Address(idx));
                                    let c1a = c1.push(Insn::Store);
                                    lemma_keeps_push(c1, Insn::Store);
                                    lemma_keeps_push(c1a, Insn::Address(idx));
                                    lemma_keeps_mono(c1, c1a, c1.len() as int, base);
                                    lemma_keeps_mono(
                                        c1a,
                                        c1a.push(Insn::Address(idx)),
                                        c1a.len() as int,
                                        base,
                                    );
                                    lemma_keeps_trans(code, c1, c1a, base);
                                    lemma_keeps_trans(code, c1a, c1a.push(Insn::Address(idx)), base);
                                },
                            }
                        },
                        _ => {},
                    }
                },
            }
        },
        Ast::Expr(body) => {
            lemma_cg_wf(*body, code);
            match spec_cg(*body, code) {
                Err(_) => {},
                Ok(c1) => {
                    lemma_gen_push1(c1, Insn::Pop);
                    lemma_keeps_push(c1, Insn::Pop);
                    lemma_keeps_mono(c1, c1.push(Insn::Pop), c1.len() as int, base);
                    lemma_keeps_trans(code, c1, c1.push(Insn::Pop), base);
                },
            }
        },
        Ast::Prog(body) => {
            lemma_cg_wf(*body, code);
            match spec_cg(*body, code) {
                Err(_) => {},
                Ok(c1) => {
                    lemma_gen_push1(c1, Insn::Halt);
                    lemma_keeps_push(c1, Insn::Halt);
                    lemma_keeps_mono(c1, c1.push(Insn::Halt), c1.len() as int, base);
                    lemma_keeps_trans(code, c1, c1.push(Insn::Halt), base);
                },
            }
        },
        Ast::Sequence(a, b) => {
            lemma_cg_wf(*a, code);
            match spec_cg(*a, code) {
                Err(_) => {},
                Ok(c1) => {
                    lemma_cg_wf(*b, c1);
                    match spec_cg(*b, c1) {
                        Err(_) => {},
                        Ok(c2) => {
                            lemma_keeps_mono(c1, c2, c1.len() as int, base);
                            lemma_keeps_trans(code, c1, c2, base);
                        },
                    }
                },
            }
        },
        Ast::Empty => {},
        Ast::If1(test, then) => {
            lemma_cg_wf(*test, code);
            match spec_cg(*test, code) {
                Err(_) => {},
                Ok(c1) => {
                    lemma_gen_push2(c1, Insn::Jz, Insn::Address(0));
                    let c1a = c1.push(Insn::Jz);
                    let c2 = c1a.push(Insn::Address(0));
                    lemma_keeps_push(c1, Insn::Jz);
                    lemma_keeps_push(c1a, Insn::Address(0));
                    lemma_keeps_mono(c1a, c2, c1a.len() as int, c1.len() as int);
                    lemma_keeps_trans(c1, c1a, c2, c1.len() as int);
                    lemma_cg_wf(*then, c2);
                    match spec_cg(*then, c2) {
                        Err(_) => {},
                        Ok(c3) => {
                            if c3.len() <= usize::MAX {
                                let j = c1.len() as int;
                                lemma_keeps_mono(c2, c3, c2.len() as int, j + 1);
                                lemma_keeps_trans(c1, c2, c3, c1.len() as int);
                                assert(is_start(c3, j));
                                assert(c3[j] == Insn::Jz);
                                lemma_gen_patch(c3, j, c3.len() as usize);
                                let c4 = c3.update(j + 1, Insn::Address(c3.len() as usize));
                                lemma_keeps_mono(c3, c4, j + 1, base);
                                lemma_keeps_mono(c1, c3, c1.len() as int, base);
                                lemma_keeps_mono(code, c1, base, base);
                                lemma_keeps_trans(code, c1, c3, base);
                                lemma_keeps_trans(code, c3, c4, base);
                            }
                        },
                    }
                },
            }
        },
        Ast::If2(test, then, els) => {
            lemma_cg_wf(*test, code);
            match spec_cg(*test, code) {
                Err(_) => {},
                Ok(c1) => {
                    lemma_gen_push2(c1, Insn::Jz, Insn::Address(0));
                    let c1a = c1.push(Insn::Jz);
                    let c2 = c1a.push(Insn::Address(0));
                    lemma_keeps_push(c1, Insn::Jz);
                    lemma_keeps_push(c1a, Insn::Address(0));
                    lemma_keeps_trans(c1, c1a, c2, c1.len() as int);
                    lemma_cg_wf(*then, c2);
                    match spec_cg(*then, c2) {
                        Err(_) => {},
                        Ok(c3) => {
                            lemma_gen_push2(c3, Insn::Jmp, Insn::Address(0));
                            let c3a = c3.push(Insn::Jmp);
                            let c4 = c3a.push(Insn::Address(0));
                            lemma_keeps_push(c3, Insn::Jmp);
                            lemma_keeps_push(c3a, Insn::Address(0));
                            lemma_keeps_trans(c3, c3a, c4, c3.len() as int);
                            if c4.len() <= usize::MAX {
                                let j1 = c1.len() as int;
                                lemma_keeps_mono(c2, c3, c2.len() as int, j1 + 1);
                                lemma_keeps_trans(c1, c2, c3, c1.len() as int);
                                lemma_keeps_mono(c2, c3, c2.len() as int, c1.len() as int);
                                lemma_keeps_mono(c3, c4, c3.len() as int, c1.len() as int);
                                lemma_keeps_trans(c1, c3, c4, c1.len() as int);
                                assert(is_start(c4, j1));
                                assert(c4[j1] == Insn::Jz);
                                lemma_gen_patch(c4, j1, c4.len() as usize);
                                let c5 = c4.update(j1 + 1, Insn::Address(c4.len() as usize));
                                lemma_cg_wf(*els, c5);
                                match spec_cg(*els, c5) {
                                    Err(_) => {},
                                    Ok(c6) => {
                                        if c6.len() <= usize::MAX {
                                            let j2 = c3.len() as int;
                                            lemma_keeps_mono(c4, c5, j1 + 1, base);
                                            lemma_keeps_mono(c5, c6, c5.len() as int, j2 + 1);
                                            // the second hole is still the Jmp operand
                                            lemma_keeps_mono(c3, c4, c3.len() as int, j2);
                                            lemma_keeps_mono(c4, c5, j1 + 1, 0);
                                            assert(c5[j2] == Insn::Jmp) by {
                                                assert(c4[j2] == Insn::Jmp);
                                                assert(j2 != j1 + 1);
                                            }
                                            assert(is_start(c5, j2)) by {
                                                assert(is_start(c3, j2));
                                                assert(is_start(c4, j2) == is_start(c3, j2));
                                                lemma_is_start_update(
                                                    c4,
                                                    j1 + 1,
                                                    Insn::Address(c4.len() as usize),
                                                    j2,
                                                );
                                            }
                                            assert(c6[j2] == Insn::Jmp);
                                            assert(is_start(c6, j2));
                                            lemma_gen_patch(c6, j2, c6.len() as usize);
                                            let c7 = c6.update(
                                                j2 + 1,
                                                Insn::Address(c6.len() as usize),
                                            );
                                            lemma_keeps_mono(c6, c7, j2 + 1, base);
                                            lemma_keeps_mono(code, c1, base, base);
                                            lemma_keeps_mono(c1, c4, c1.len() as int, base);
                                            lemma_keeps_trans(code, c1, c4, base);
                                            lemma_keeps_mono(c4, c5, j1 + 1, base);
                                            lemma_keeps_trans(code, c4, c5, base);
                                            lemma_keeps_mono(c5, c6, c5.len() as int, base);
                                            lemma_keeps_trans(code, c5, c6, base);
                                            lemma_keeps_trans(code, c6, c7, base);
                                        }
                                    },
                                }
                            }
                        },
                    }
                },
            }
        },
        Ast::While(test, body) => {
            if code.len() <= usize::MAX {
                lemma_cg_wf(*test, code);
                match spec_cg(*test, code) {
                    Err(_) => {},
                    Ok(c1) => {
                        lemma_gen_push2(c1, Insn::Jz, Insn::Address(0));
                        let c1a = c1.push(Insn::Jz);
                        let c2 = c1a.push(Insn::Address(0));
                        lemma_keeps_push(c1, Insn::Jz);
                        lemma_keeps_push(c1a, Insn::Address(0));
                        lemma_keeps_trans(c1, c1a, c2, c1.len() as int);
                        lemma_cg_wf(*body, c2);
                        match spec_cg(*body, c2) {
                            Err(_) => {},
                            Ok(c3) => {
                                let j = c1.len() as int;
                                lemma_keeps_mono(c2, c3, c2.len() as int, j + 1);
                                lemma_keeps_trans(c1, c2, c3, c1.len() as int);
                                lemma_keeps_mono(code, c1, base, base);
                                lemma_keeps_mono(c1, c3, c1.len() as int, base);
                                lemma_keeps_trans(code, c1, c3, base);
                                assert(is_start(c3, base));
                                lemma_gen_push2(
                                    c3,
                                    Insn::Jmp,
                                    Insn::Address(code.len() as usize),
                                );
                                let c3a = c3.push(Insn::Jmp);
                                let c4 = c3a.push(Insn::Address(code.len() as usize));
                                lemma_keeps_push(c3, Insn::Jmp);
                                lemma_keeps_push(c3a, Insn::Address(code.len() as usize));
                                lemma_keeps_trans(c3, c3a, c4, c3.len() as int);
                                if c4.len() <= usize::MAX {
                                    lemma_keeps_mono(c2, c3, c2.len() as int, c1.len() as int);
                                    lemma_keeps_mono(c3, c4, c3.len() as int, c1.len() as int);
                                    lemma_keeps_trans(c1, c3, c4, c1.len() as int);
                                    assert(is_start(c4, j));
                                    assert(c4[j] == Insn::Jz);
                                    lemma_gen_patch(c4, j, c4.len() as usize);
                                    let c5 = c4.update(j + 1, Insn::Address(c4.len() as usize));
                                    lemma_keeps_mono(c4, c5, j + 1, base);
                                    lemma_keeps_mono(c3, c4, c3.len() as int, base);
                                    lemma_keeps_trans(code, c3, c4, base);
                                    lemma_keeps_trans(code, c4, c5, base);
                                }
                            },
                        }
                    },
                }
            }
        },
        Ast::Do(body, test) => {
            if code.len() <= usize::MAX {
                lemma_cg_wf(*body, code);
                match spec_cg(*body, code) {
                    Err(_) => {},
                    Ok(c1) => {
                        lemma_cg_wf(*test, c1);
                        match spec_cg(*test, c1) {
                            Err(_) => {},
                            Ok(c2) => {
                                lemma_keeps_mono(c1, c2, c1.len() as int, base);
                                lemma_keeps_trans(code, c1, c2, base);
                                assert(is_start(c2, base));
                                lemma_gen_push2(
                                    c2,
                                    Insn::Jnz,
                                    Insn::Address(code.len() as usize),
                                );
                                let c2a = c2.push(Insn::Jnz);
                                let c3 = c2a.push(Insn::Address(code.len() as usize));
                                lemma_keeps_push(c2, Insn::Jnz);
                                lemma_keeps_push(c2a, Insn::Address(code.len() as usize));
                                lemma_keeps_mono(c2a, c3, c2a.len() as int, base);
                                lemma_keeps_mono(c2, c2a, c2.len() as int, base);
                                lemma_keeps_trans(code, c2, c2a, base);
                                lemma_keeps_trans(code, c2a, c3, base);
                            },
                        }
                    },
                }
            }
        },
    }
}

/// The instruction list of a whole program is well formed: this is the
/// jump-target invariant of the code generator.
#[verifier::rlimit(60)]
#[verifier::spinoff_prover]
pub proof fn lemma_compile_wf(prog: Ast)
    requires
        prog is Prog,
    ensures
        spec_compile(prog) matches Ok(c) ==> code_wf(c),
{
    reveal(spec_cg);
    match prog {
        Ast::Prog(body) => {
            let empty = Seq::<Insn>::empty();
            assert(gen_wf(empty));
            lemma_cg_wf(*body, empty);
            match spec_cg(*body, empty) {
                Err(_) => {},
                Ok(c1) => {
                    lemma_gen_push1(c1, Insn::Halt);
                    let c = c1.push(Insn::Halt);
                    assert forall|p: int|
                        0 <= p < c.len() && #[trigger] is_start(c, p) implies wf_insn_at(
                        c,
                        p,
                    ) by {
                        lemma_is_start_push(c1, Insn::Halt, p);
                        if p < c1.len() {
                            assert(is_start(c1, p));
                            assert(gen_insn_ok(c1, p));
                            match c1[p] {
                                Insn::Jz | Insn::Jnz | Insn::Jmp => {
                                    match c1[p + 1] {
                                        Insn::Address(t) => {
                                            lemma_is_start_push(c1, Insn::Halt, t as int);
                                        },
                                        _ => {},
                                    }
                                },
                                _ => {},
                            }
                        }
                    }
                },
            }
        },
        _ => {},
    }
}

} // verus!
