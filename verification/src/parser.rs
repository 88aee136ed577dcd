//! The parser: classic recursive descent over the token stream, one
//! token of lookahead, building the abstract syntax tree.

use vstd::prelude::*;

use crate::lexer::ErrorKind;
use crate::lexer::SourcePosition;
use crate::lexer::SyntaxError;
use crate::lexer::Tok;
use crate::lexer::Token;
use crate::lexer::lemma_toks_view_index;
use crate::lexer::spec_tokens_of;
use crate::lexer::tokenize;
use crate::lexer::toks_view;

verus! {

/// The abstract syntax tree.  Everything — expressions, statements and
/// the program — is bundled in one node type.
#[derive(Debug, PartialEq)]
pub enum Node {
    /// A reference to the named variable.
    Var(String),
    /// An integer constant.
    Cst(isize),
    /// An addition expression.
    Add(Box<Node>, Box<Node>),
    /// A subtraction expression.
    Sub(Box<Node>, Box<Node>),
    /// A less-than comparison expression.
    Lt(Box<Node>, Box<Node>),
    /// An assignment expression; the first child must be `Var(_)`,
    /// which the code generator enforces.
    Assign(Box<Node>, Box<Node>),
    /// An `if` statement with no `else` part: test, then-branch.
    If1(Box<Node>, Box<Node>),
    /// An `if` statement with an `else` part: test, then, else.
    If2(Box<Node>, Box<Node>, Box<Node>),
    /// A `while` statement: test, body.
    While(Box<Node>, Box<Node>),
    /// A `do`-`while` statement: body, test.
    Do(Box<Node>, Box<Node>),
    /// The empty statement.
    Empty,
    /// Two statements in order.
    Sequence(Box<Node>, Box<Node>),
    /// An expression used as a statement, its value discarded.
    Expr(Box<Node>),
    /// The top-level program wrapping the single top-level statement.
    Prog(Box<Node>),
}

/// The mathematical shape of a [`Node`]: the same tree with the
/// variable name as a character sequence.
pub enum Ast {
    Var(Seq<char>),
    Cst(isize),
    Add(Box<Ast>, Box<Ast>),
    Sub(Box<Ast>, Box<Ast>),
    Lt(Box<Ast>, Box<Ast>),
    Assign(Box<Ast>, Box<Ast>),
    If1(Box<Ast>, Box<Ast>),
    If2(Box<Ast>, Box<Ast>, Box<Ast>),
    While(Box<Ast>, Box<Ast>),
    Do(Box<Ast>, Box<Ast>),
    Empty,
    Sequence(Box<Ast>, Box<Ast>),
    Expr(Box<Ast>),
    Prog(Box<Ast>),
}

/// The [`Ast`] a [`Node`] stands for.
#[verifier::opaque]
pub open spec fn node_view(n: Node) -> Ast
    decreases n,
{
    match n {
        Node::Var(s) => Ast::Var(s@),
        Node::Cst(v) => Ast::Cst(v),
        Node::Add(a, b) => Ast::Add(Box::new(node_view(*a)), Box::new(node_view(*b))),
        Node::Sub(a, b) => Ast::Sub(Box::new(node_view(*a)), Box::new(node_view(*b))),
        Node::Lt(a, b) => Ast::Lt(Box::new(node_view(*a)), Box::new(node_view(*b))),
        Node::Assign(a, b) => Ast::Assign(Box::new(node_view(*a)), Box::new(node_view(*b))),
        Node::If1(a, b) => Ast::If1(Box::new(node_view(*a)), Box::new(node_view(*b))),
        Node::If2(a, b, c) => Ast::If2(
            Box::new(node_view(*a)),
            Box::new(node_view(*b)),
            Box::new(node_view(*c)),
        ),
        Node::While(a, b) => Ast::While(Box::new(node_view(*a)), Box::new(node_view(*b))),
        Node::Do(a, b) => Ast::Do(Box::new(node_view(*a)), Box::new(node_view(*b))),
        Node::Empty => Ast::Empty,
        Node::Sequence(a, b) => Ast::Sequence(Box::new(node_view(*a)), Box::new(node_view(*b))),
        Node::Expr(a) => Ast::Expr(Box::new(node_view(*a))),
        Node::Prog(a) => Ast::Prog(Box::new(node_view(*a))),
    }
}

/// A node views to a variable reference exactly when it is one.
pub proof fn lemma_node_view_var(n: Node)
    ensures
        (node_view(n) is Var) <==> (n is Var),
{
    reveal(node_view);
    match n {
        Node::Var(_) => {
            assert(node_view(n) is Var);
        },
        Node::Cst(_) => {
            assert(!(node_view(n) is Var));
        },
        Node::Add(_, _) => {
            assert(!(node_view(n) is Var));
        },
        Node::Sub(_, _) => {
            assert(!(node_view(n) is Var));
        },
        Node::Lt(_, _) => {
            assert(!(node_view(n) is Var));
        },
        Node::Assign(_, _) => {
            assert(!(node_view(n) is Var));
        },
        Node::If1(_, _) => {
            assert(!(node_view(n) is Var));
        },
        Node::If2(_, _, _) => {
            assert(!(node_view(n) is Var));
        },
        Node::While(_, _) => {
            assert(!(node_view(n) is Var));
        },
        Node::Do(_, _) => {
            assert(!(node_view(n) is Var));
        },
        Node::Empty => {
            assert(!(node_view(n) is Var));
        },
        Node::Sequence(_, _) => {
            assert(!(node_view(n) is Var));
        },
        Node::Expr(_) => {
            assert(!(node_view(n) is Var));
        },
        Node::Prog(_) => {
            assert(!(node_view(n) is Var));
        },
    }
}

impl View for Node {
    type V = Ast;

    open spec fn view(&self) -> Ast {
        node_view(*self)
    }
}

/// What a grammar production yields: the tree it built and the index
/// of the next unconsumed token, or the syntax error that was found.
pub enum PRes {
    POk(Ast, int),
    PFail(SyntaxError),
}

/// The token at index `i`, with `Eoi` past the end of the sequence.
pub open spec fn tok_at(toks: Seq<(SourcePosition, Tok)>, i: int) -> Tok {
    if 0 <= i < toks.len() {
        toks[i].1
    } else {
        Tok::Eoi
    }
}

/// The position of the token at index `i`.
pub open spec fn pos_at(toks: Seq<(SourcePosition, Tok)>, i: int) -> SourcePosition {
    if 0 <= i < toks.len() {
        toks[i].0
    } else {
        SourcePosition { line: 0, col: 0 }
    }
}

/// The error a production reports when its well-foundedness guard
/// fails; every production consumes at least one token on success, so
/// the guards never fail and this error is never actually produced.
pub open spec fn guard_fail(toks: Seq<(SourcePosition, Tok)>, i: int) -> PRes {
    PRes::PFail(SyntaxError { pos: pos_at(toks, i), kind: ErrorKind::UnexpectedEnd })
}

/// `<term> ::= <id> | <int> | <paren_expr>`
pub open spec fn p_term(toks: Seq<(SourcePosition, Tok)>, i: int) -> PRes
    decreases toks.len() - i, 1int,
{
    match tok_at(toks, i) {
        Tok::Id(name) => PRes::POk(Ast::Var(name), i + 1),
        Tok::Int(v) => PRes::POk(Ast::Cst(v), i + 1),
        _ => p_paren(toks, i),
    }
}

/// `<paren_expr> ::= "(" <expr> ")"`
pub open spec fn p_paren(toks: Seq<(SourcePosition, Tok)>, i: int) -> PRes
    decreases toks.len() - i, 0int,
{
    if tok_at(toks, i) is Lpar {
        match p_expr(toks, i + 1) {
            PRes::PFail(e) => PRes::PFail(e),
            PRes::POk(x, j) => if tok_at(toks, j) is Rpar {
                PRes::POk(x, j + 1)
            } else {
                PRes::PFail(SyntaxError { pos: pos_at(toks, j), kind: ErrorKind::ExpectedRparen })
            },
        }
    } else {
        PRes::PFail(SyntaxError { pos: pos_at(toks, i), kind: ErrorKind::ExpectedLparen })
    }
}

/// The left-associative tail of a sum: `{("+" | "-") <term>}` applied
/// to the sum `acc` parsed so far.
pub open spec fn p_sum_tail(toks: Seq<(SourcePosition, Tok)>, i: int, acc: Ast) -> PRes
    decreases toks.len() - i, 3int,
{
    if tok_at(toks, i) is Plus {
        match p_term(toks, i + 1) {
            PRes::PFail(e) => PRes::PFail(e),
            PRes::POk(t, j) => if i < j && j <= toks.len() {
                p_sum_tail(toks, j, Ast::Add(Box::new(acc), Box::new(t)))
            } else {
                guard_fail(toks, i)
            },
        }
    } else if tok_at(toks, i) is Minus {
        match p_term(toks, i + 1) {
            PRes::PFail(e) => PRes::PFail(e),
            PRes::POk(t, j) => if i < j && j <= toks.len() {
                p_sum_tail(toks, j, Ast::Sub(Box::new(acc), Box::new(t)))
            } else {
                guard_fail(toks, i)
            },
        }
    } else {
        PRes::POk(acc, i)
    }
}

/// `<sum> ::= <term> {("+" | "-") <term>}`, left-associative.
pub open spec fn p_sum(toks: Seq<(SourcePosition, Tok)>, i: int) -> PRes
    decreases toks.len() - i, 2int,
{
    match p_term(toks, i) {
        PRes::PFail(e) => PRes::PFail(e),
        PRes::POk(t, j) => if i < j && j <= toks.len() {
            p_sum_tail(toks, j, t)
        } else {
            guard_fail(toks, i)
        },
    }
}

/// `<cond> ::= <sum> ["<" <sum>]`
pub open spec fn p_cond(toks: Seq<(SourcePosition, Tok)>, i: int) -> PRes
    decreases toks.len() - i, 4int,
{
    match p_sum(toks, i) {
        PRes::PFail(e) => PRes::PFail(e),
        PRes::POk(l, j) => if tok_at(toks, j) is Less {
            if i < j && j + 1 <= toks.len() {
                match p_sum(toks, j + 1) {
                    PRes::PFail(e) => PRes::PFail(e),
                    PRes::POk(r2, k) => PRes::POk(Ast::Lt(Box::new(l), Box::new(r2)), k),
                }
            } else {
                guard_fail(toks, i)
            }
        } else {
            PRes::POk(l, j)
        },
    }
}

/// `<expr> ::= <cond> | <id> "=" <expr>`.  Whether an `=` may follow is
/// decided by the lookahead token being an identifier before descending,
/// not by inspecting the parsed node.
pub open spec fn p_expr(toks: Seq<(SourcePosition, Tok)>, i: int) -> PRes
    decreases toks.len() - i, 5int,
{
    if !(tok_at(toks, i) is Id) {
        p_cond(toks, i)
    } else {
        match p_cond(toks, i) {
            PRes::PFail(e) => PRes::PFail(e),
            PRes::POk(t, j) => if tok_at(toks, j) is Equal {
                if i < j && j + 1 <= toks.len() {
                    match p_expr(toks, j + 1) {
                        PRes::PFail(e) => PRes::PFail(e),
                        PRes::POk(rhs, k) => PRes::POk(
                            Ast::Assign(Box::new(t), Box::new(rhs)),
                            k,
                        ),
                    }
                } else {
                    guard_fail(toks, i)
                }
            } else {
                PRes::POk(t, j)
            },
        }
    }
}

/// `<statement>`: the conditionals, loops, braced statement list,
/// expression statement, and the empty statement.
pub open spec fn p_statement(toks: Seq<(SourcePosition, Tok)>, i: int) -> PRes
    decreases toks.len() - i, 6int,
{
    match tok_at(toks, i) {
        Tok::IfSym => match p_paren(toks, i + 1) {
            PRes::PFail(e) => PRes::PFail(e),
            PRes::POk(cond, j) => if i < j && j <= toks.len() {
                match p_statement(toks, j) {
                    PRes::PFail(e) => PRes::PFail(e),
                    PRes::POk(then, k) => if tok_at(toks, k) is ElseSym {
                        if i < k && k + 1 <= toks.len() {
                            match p_statement(toks, k + 1) {
                                PRes::PFail(e) => PRes::PFail(e),
                                PRes::POk(els, m) => PRes::POk(
                                    Ast::If2(Box::new(cond), Box::new(then), Box::new(els)),
                                    m,
                                ),
                            }
                        } else {
                            guard_fail(toks, i)
                        }
                    } else {
                        PRes::POk(Ast::If1(Box::new(cond), Box::new(then)), k)
                    },
                }
            } else {
                guard_fail(toks, i)
            },
        },
        Tok::WhileSym => match p_paren(toks, i + 1) {
            PRes::PFail(e) => PRes::PFail(e),
            PRes::POk(cond, j) => if i < j && j <= toks.len() {
                match p_statement(toks, j) {
                    PRes::PFail(e) => PRes::PFail(e),
                    PRes::POk(body, k) => PRes::POk(
                        Ast::While(Box::new(cond), Box::new(body)),
                        k,
                    ),
                }
            } else {
                guard_fail(toks, i)
            },
        },
        Tok::DoSym => match p_statement(toks, i + 1) {
            PRes::PFail(e) => PRes::PFail(e),
            PRes::POk(body, j) => if tok_at(toks, j) is WhileSym {
                if i < j && j + 1 <= toks.len() {
                    match p_paren(toks, j + 1) {
                        PRes::PFail(e) => PRes::PFail(e),
                        PRes::POk(cond, k) => if tok_at(toks, k) is Semi {
                            PRes::POk(Ast::Do(Box::new(body), Box::new(cond)), k + 1)
                        } else {
                            PRes::PFail(
                                SyntaxError { pos: pos_at(toks, k), kind: ErrorKind::ExpectedSemi },
                            )
                        },
                    }
                } else {
                    guard_fail(toks, i)
                }
            } else {
                PRes::PFail(SyntaxError { pos: pos_at(toks, j), kind: ErrorKind::ExpectedWhile })
            },
        },
        Tok::Semi => PRes::POk(Ast::Empty, i + 1),
        Tok::Lbra => match p_statement(toks, i + 1) {
            PRes::PFail(e) => PRes::PFail(e),
            PRes::POk(st1, j) => if i < j && j <= toks.len() {
                p_block_tail(toks, j, st1)
            } else {
                guard_fail(toks, i)
            },
        },
        _ => match p_expr(toks, i) {
            PRes::PFail(e) => PRes::PFail(e),
            PRes::POk(x, j) => if tok_at(toks, j) is Semi {
                PRes::POk(Ast::Expr(Box::new(x)), j + 1)
            } else {
                PRes::PFail(SyntaxError { pos: pos_at(toks, j), kind: ErrorKind::ExpectedSemi })
            },
        },
    }
}

/// The statements of a braced block after the first, chained pairwise
/// and left-associatively onto `acc`, up to the closing `}`.
pub open spec fn p_block_tail(toks: Seq<(SourcePosition, Tok)>, i: int, acc: Ast) -> PRes
    decreases toks.len() - i, 7int,
{
    if tok_at(toks, i) is Rbra {
        PRes::POk(acc, i + 1)
    } else {
        match p_statement(toks, i) {
            PRes::PFail(e) => PRes::PFail(e),
            PRes::POk(st2, j) => if i < j && j <= toks.len() {
                p_block_tail(toks, j, Ast::Sequence(Box::new(acc), Box::new(st2)))
            } else {
                guard_fail(toks, i)
            },
        }
    }
}

/// `<program> ::= <statement>`, with nothing but `Eoi` after it.
pub open spec fn p_program(toks: Seq<(SourcePosition, Tok)>, i: int) -> PRes
    decreases toks.len() - i, 8int,
{
    match p_statement(toks, i) {
        PRes::PFail(e) => PRes::PFail(e),
        PRes::POk(st1, j) => if tok_at(toks, j) is Eoi {
            PRes::POk(Ast::Prog(Box::new(st1)), j)
        } else {
            PRes::PFail(SyntaxError { pos: pos_at(toks, j), kind: ErrorKind::UnexpectedEnd })
        },
    }
}

/// The `Parser` holds the token sequence and the index of the next
/// unconsumed token (one token of lookahead).
pub struct Parser {
    /// The tokens, ending with `Eoi`.
    pub toks: Vec<(SourcePosition, Token)>,
    /// The index of the lookahead token.
    pub idx: usize,
}

/// The main entry point to the parser: the tree of the given program
/// text, or the first lexical or syntax error in it.
pub fn parse(src: &str) -> (r: Result<Node, SyntaxError>)
    ensures
        match spec_tokens_of(src@) {
            Err(le) => r matches Err(e) && e == le,
            Ok(toks) => match p_program(toks, 0) {
                PRes::POk(ast, _) => r matches Ok(node) && node@ == ast,
                PRes::PFail(pe) => r matches Err(e) && e == pe,
            },
        },
{
    match Parser::new(src) {
        Err(e) => Err(e),
        Ok(mut p) => p.program(),
    }
}

impl Parser {
    /// The index never leaves the token sequence.
    pub open spec fn wf(self) -> bool {
        self.idx <= self.toks@.len()
    }

    /// The mathematical token sequence.
    pub open spec fn tv(self) -> Seq<(SourcePosition, Tok)> {
        toks_view(self.toks@)
    }

    /// Tokenize `src` and stand ready at its first token.
    pub fn new(src: &str) -> (r: Result<Parser, SyntaxError>)
        ensures
            match r {
                Ok(p) => spec_tokens_of(src@) == Ok::<Seq<(SourcePosition, Tok)>, SyntaxError>(
                    p.tv(),
                ) && p.idx == 0 && p.wf(),
                Err(e) => spec_tokens_of(src@) == Err::<
                    Seq<(SourcePosition, Tok)>,
                    SyntaxError,
                >(e),
            },
    {
        match tokenize(src) {
            Err(e) => Err(e),
            Ok(toks) => Ok(Parser { toks, idx: 0 }),
        }
    }

    /// The position of the lookahead token, for error reporting.
    fn cur_pos(&self) -> (p: SourcePosition)
        requires
            self.wf(),
        ensures
            p == pos_at(self.tv(), self.idx as int),
    {
        proof {
            lemma_toks_view_index(self.toks@, self.idx as int);
        }
        if self.idx < self.toks.len() {
            self.toks[self.idx].0
        } else {
            SourcePosition { line: 0, col: 0 }
        }
    }

    /// Parser for `<term> ::= <id> | <int> | <paren_expr>`.
    pub fn term(&mut self) -> (r: Result<Node, SyntaxError>)
        requires
            old(self).wf(),
        ensures
            final(self).wf(),
            final(self).toks@ == old(self).toks@,
            match r {
                Ok(node) => p_term(old(self).tv(), old(self).idx as int) == PRes::POk(
                    node@,
                    final(self).idx as int,
                ) && old(self).idx < final(self).idx,
                Err(e) => p_term(old(self).tv(), old(self).idx as int) == PRes::PFail(e),
            },
        decreases self.toks@.len() - self.idx, 1int,
    {
        proof {
            reveal(node_view);
            lemma_toks_view_index(self.toks@, self.idx as int);
        }
        if self.idx < self.toks.len() {
            match &self.toks[self.idx].1 {
                Token::Id(name) => {
                    let s = name.clone();
                    self.idx = self.idx + 1;
                    return Ok(Node::Var(s));
                },
                Token::Int(v) => {
                    let val = *v;
                    self.idx = self.idx + 1;
                    return Ok(Node::Cst(val));
                },
                _ => {},
            }
        }
        self.paren_expr()
    }

    /// Parser for `<paren_expr> ::= "(" <expr> ")"`.
    pub fn paren_expr(&mut self) -> (r: Result<Node, SyntaxError>)
        requires
            old(self).wf(),
        ensures
            final(self).wf(),
            final(self).toks@ == old(self).toks@,
            match r {
                Ok(node) => p_paren(old(self).tv(), old(self).idx as int) == PRes::POk(
                    node@,
                    final(self).idx as int,
                ) && old(self).idx < final(self).idx,
                Err(e) => p_paren(old(self).tv(), old(self).idx as int) == PRes::PFail(e),
            },
        decreases self.toks@.len() - self.idx, 0int,
    {
        proof {
            reveal(node_view);
            lemma_toks_view_index(self.toks@, self.idx as int);
        }
        if !(self.idx < self.toks.len() && matches!(&self.toks[self.idx].1, Token::Lpar)) {
            return Err(SyntaxError { pos: self.cur_pos(), kind: ErrorKind::ExpectedLparen });
        }
        self.idx = self.idx + 1;
        let x = match self.expr() {
            Err(e) => return Err(e),
            Ok(x) => x,
        };
        proof {
            lemma_toks_view_index(self.toks@, self.idx as int);
        }
        if !(self.idx < self.toks.len() && matches!(&self.toks[self.idx].1, Token::Rpar)) {
            return Err(SyntaxError { pos: self.cur_pos(), kind: ErrorKind::ExpectedRparen });
        }
        self.idx = self.idx + 1;
        Ok(x)
    }

    /// Parser for `<sum> ::= <term> {("+" | "-") <term>}`.
    pub fn sum(&mut self) -> (r: Result<Node, SyntaxError>)
        requires
            old(self).wf(),
        ensures
            final(self).wf(),
            final(self).toks@ == old(self).toks@,
            match r {
                Ok(node) => p_sum(old(self).tv(), old(self).idx as int) == PRes::POk(
                    node@,
                    final(self).idx as int,
                ) && old(self).idx < final(self).idx,
                Err(e) => p_sum(old(self).tv(), old(self).idx as int) == PRes::PFail(e),
            },
        decreases self.toks@.len() - self.idx, 2int,
    {
        let ghost t0 = self.tv();
        let ghost i0 = self.idx as int;
        proof {
            lemma_toks_view_index(self.toks@, self.idx as int);
        }
        let mut t = match self.term() {
            Err(e) => return Err(e),
            Ok(t) => t,
        };
        loop
            invariant
                self.wf(),
                self.toks@ == old(self).toks@,
                t0 == toks_view(old(self).toks@),
                t0.len() == self.toks@.len(),
                i0 == old(self).idx as int,
                i0 < self.idx,
                p_sum(t0, i0) == p_sum_tail(t0, self.idx as int, t@),
            decreases t0.len() - self.idx,
        {
            proof {
                reveal(node_view);
                lemma_toks_view_index(self.toks@, self.idx as int);
            }
            if self.idx < self.toks.len() && matches!(&self.toks[self.idx].1, Token::Plus) {
                self.idx = self.idx + 1;
                let t2 = match self.term() {
                    Err(e) => return Err(e),
                    Ok(x) => x,
                };
                t = Node::Add(Box::new(t), Box::new(t2));
            } else if self.idx < self.toks.len() && matches!(
                &self.toks[self.idx].1,
                Token::Minus,
            ) {
                self.idx = self.idx + 1;
                let t2 = match self.term() {
                    Err(e) => return Err(e),
                    Ok(x) => x,
                };
                t = Node::Sub(Box::new(t), Box::new(t2));
            } else {
                return Ok(t);
            }
        }
    }

    /// Parser for `<cond> ::= <sum> ["<" <sum>]`.
    pub fn cond(&mut self) -> (r: Result<Node, SyntaxError>)
        requires
            old(self).wf(),
        ensures
            final(self).wf(),
            final(self).toks@ == old(self).toks@,
            match r {
                Ok(node) => p_cond(old(self).tv(), old(self).idx as int) == PRes::POk(
                    node@,
                    final(self).idx as int,
                ) && old(self).idx < final(self).idx,
                Err(e) => p_cond(old(self).tv(), old(self).idx as int) == PRes::PFail(e),
            },
        decreases self.toks@.len() - self.idx, 4int,
    {
        proof {
            reveal(node_view);
        }
        let l = match self.sum() {
            Err(e) => return Err(e),
            Ok(l) => l,
        };
        proof {
            lemma_toks_view_index(self.toks@, self.idx as int);
        }
        if self.idx < self.toks.len() && matches!(&self.toks[self.idx].1, Token::Less) {
            self.idx = self.idx + 1;
            let r2 = match self.sum() {
                Err(e) => return Err(e),
                Ok(x) => x,
            };
            Ok(Node::Lt(Box::new(l), Box::new(r2)))
        } else {
            Ok(l)
        }
    }

    /// Parser for `<expr> ::= <cond> | <id> "=" <expr>`.  Whether the
    /// assignment production applies is decided by the lookahead token
    /// being an identifier, before descending.
    pub fn expr(&mut self) -> (r: Result<Node, SyntaxError>)
        requires
            old(self).wf(),
        ensures
            final(self).wf(),
            final(self).toks@ == old(self).toks@,
            match r {
                Ok(node) => p_expr(old(self).tv(), old(self).idx as int) == PRes::POk(
                    node@,
                    final(self).idx as int,
                ) && old(self).idx < final(self).idx,
                Err(e) => p_expr(old(self).tv(), old(self).idx as int) == PRes::PFail(e),
            },
        decreases self.toks@.len() - self.idx, 5int,
    {
        proof {
            reveal(node_view);
            lemma_toks_view_index(self.toks@, self.idx as int);
        }
        if !(self.idx < self.toks.len() && matches!(&self.toks[self.idx].1, Token::Id(_))) {
            return self.cond();
        }
        let t = match self.cond() {
            Err(e) => return Err(e),
            Ok(t) => t,
        };
        proof {
            lemma_toks_view_index(self.toks@, self.idx as int);
        }
        if self.idx < self.toks.len() && matches!(&self.toks[self.idx].1, Token::Equal) {
            self.idx = self.idx + 1;
            let rhs = match self.expr() {
                Err(e) => return Err(e),
                Ok(x) => x,
            };
            Ok(Node::Assign(Box::new(t), Box::new(rhs)))
        } else {
            Ok(t)
        }
    }

    /// Parser for `<statement>`.
    #[verifier::rlimit(100)]
    #[verifier::spinoff_prover]
    pub fn statement(&mut self) -> (r: Result<Node, SyntaxError>)
        requires
            old(self).wf(),
        ensures
            final(self).wf(),
            final(self).toks@ == old(self).toks@,
            match r {
                Ok(node) => p_statement(old(self).tv(), old(self).idx as int) == PRes::POk(
                    node@,
                    final(self).idx as int,
                ) && old(self).idx < final(self).idx,
                Err(e) => p_statement(old(self).tv(), old(self).idx as int) == PRes::PFail(e),
            },
        decreases self.toks@.len() - self.idx, 6int,
    {
        let ghost t0 = self.tv();
        let ghost i0 = self.idx as int;
        proof {
            reveal(node_view);
            lemma_toks_view_index(self.toks@, self.idx as int);
        }
        if self.idx < self.toks.len() && matches!(&self.toks[self.idx].1, Token::IfSym) {
            self.idx = self.idx + 1;
            let cond = match self.paren_expr() {
                Err(e) => return Err(e),
                Ok(c) => c,
            };
            let then = match self.statement() {
                Err(e) => return Err(e),
                Ok(s) => s,
            };
            proof {
                lemma_toks_view_index(self.toks@, self.idx as int);
            }
            if self.idx < self.toks.len() && matches!(&self.toks[self.idx].1, Token::ElseSym) {
                self.idx = self.idx + 1;
                let els = match self.statement() {
                    Err(e) => return Err(e),
                    Ok(s) => s,
                };
                Ok(Node::If2(Box::new(cond), Box::new(then), Box::new(els)))
            } else {
                Ok(Node::If1(Box::new(cond), Box::new(then)))
            }
        } else if self.idx < self.toks.len() && matches!(&self.toks[self.idx].1, Token::WhileSym) {
            self.idx = self.idx + 1;
            let cond = match self.paren_expr() {
                Err(e) => return Err(e),
                Ok(c) => c,
            };
            let body = match self.statement() {
                Err(e) => return Err(e),
                Ok(s) => s,
            };
            Ok(Node::While(Box::new(cond), Box::new(body)))
        } else if self.idx < self.toks.len() && matches!(&self.toks[self.idx].1, Token::DoSym) {
            self.idx = self.idx + 1;
            let body = match self.statement() {
                Err(e) => return Err(e),
                Ok(s) => s,
            };
            proof {
                lemma_toks_view_index(self.toks@, self.idx as int);
            }
            if !(self.idx < self.toks.len() && matches!(&self.toks[self.idx].1, Token::WhileSym)) {
                return Err(SyntaxError { pos: self.cur_pos(), kind: ErrorKind::ExpectedWhile });
            }
            self.idx = self.idx + 1;
            let cond = match self.paren_expr() {
                Err(e) => return Err(e),
                Ok(c) => c,
            };
            proof {
                lemma_toks_view_index(self.toks@, self.idx as int);
            }
            if !(self.idx < self.toks.len() && matches!(&self.toks[self.idx].1, Token::Semi)) {
                return Err(SyntaxError { pos: self.cur_pos(), kind: ErrorKind::ExpectedSemi });
            }
            self.idx = self.idx + 1;
            Ok(Node::Do(Box::new(body), Box::new(cond)))
        } else if self.idx < self.toks.len() && matches!(&self.toks[self.idx].1, Token::Semi) {
            self.idx = self.idx + 1;
            Ok(Node::Empty)
        } else if self.idx < self.toks.len() && matches!(&self.toks[self.idx].1, Token::Lbra) {
            self.idx = self.idx + 1;
            let mut x = match self.statement() {
                Err(e) => return Err(e),
                Ok(s) => s,
            };
            loop
                invariant
                    self.wf(),
                    self.toks@ == old(self).toks@,
                    t0 == toks_view(old(self).toks@),
                    t0.len() == self.toks@.len(),
                    i0 == old(self).idx as int,
                    i0 < self.idx,
                    p_statement(t0, i0) == p_block_tail(t0, self.idx as int, x@),
                decreases t0.len() - self.idx,
            {
                proof {
                    reveal(node_view);
                    lemma_toks_view_index(self.toks@, self.idx as int);
                }
                if self.idx < self.toks.len() && matches!(&self.toks[self.idx].1, Token::Rbra) {
                    self.idx = self.idx + 1;
                    return Ok(x);
                }
                let st2 = match self.statement() {
                    Err(e) => return Err(e),
                    Ok(s) => s,
                };
                x = Node::Sequence(Box::new(x), Box::new(st2));
            }
        } else {
            let x = match self.expr() {
                Err(e) => return Err(e),
                Ok(x) => x,
            };
            proof {
                lemma_toks_view_index(self.toks@, self.idx as int);
            }
            if !(self.idx < self.toks.len() && matches!(&self.toks[self.idx].1, Token::Semi)) {
                return Err(SyntaxError { pos: self.cur_pos(), kind: ErrorKind::ExpectedSemi });
            }
            self.idx = self.idx + 1;
            Ok(Node::Expr(Box::new(x)))
        }
    }

    /// Parser for `<program> ::= <statement>`, which the whole input
    /// must consist of.
    pub fn program(&mut self) -> (r: Result<Node, SyntaxError>)
        requires
            old(self).wf(),
        ensures
            final(self).wf(),
            final(self).toks@ == old(self).toks@,
            match r {
                Ok(node) => p_program(old(self).tv(), old(self).idx as int) == PRes::POk(
                    node@,
                    final(self).idx as int,
                ),
                Err(e) => p_program(old(self).tv(), old(self).idx as int) == PRes::PFail(e),
            },
    {
        proof {
            reveal(node_view);
        }
        let st1 = match self.statement() {
            Err(e) => return Err(e),
            Ok(s) => s,
        };
        proof {
            lemma_toks_view_index(self.toks@, self.idx as int);
        }
        if self.idx >= self.toks.len() || matches!(&self.toks[self.idx].1, Token::Eoi) {
            Ok(Node::Prog(Box::new(st1)))
        } else {
            Err(SyntaxError { pos: self.cur_pos(), kind: ErrorKind::UnexpectedEnd })
        }
    }
}

} // verus!
