//! Three-address code: operand addresses, instructions, the per-function id
//! generator, and lowering of whole functions and programs.

use vstd::prelude::*;

use crate::ast;
use crate::ast::{expr_allocs, func_view, lower_expr, prog_view, stmt_view, stmts_view, ExprV, StmtV};
use crate::text::{dec_chars, str_eq, u64_to_string};

verus! {

/// An operand of a TAC instruction: a literal constant or a virtual variable.
#[derive(Debug, Clone, Copy, PartialEq, Eq, Structural)]
pub enum Address {
    Constant(u64),
    Variable(u64),
}

/// One TAC instruction. `Add` and `Subtract` accumulate in place: the first
/// operand is both a source and the destination.
#[derive(Debug, Clone, Copy, PartialEq, Eq, Structural)]
pub enum Line {
    /// A += B
    Add(Address, Address),
    /// A -= B
    Subtract(Address, Address),
    /// Return A
    Return(Address),
    /// Move A into B
    Move(Address, Address),
}

/// A fault of the backend: lowering or emission.
#[derive(Debug, Clone, Copy, PartialEq, Eq, Structural)]
pub enum CompileError {
    /// An AST node kind that lowering does not support yet.
    UnsupportedConstruct,
    /// Two functions of one program share a name.
    DuplicateFunctionName,
    /// The physical register pool is exhausted and there is no spill path.
    OutOfRegisters,
    /// A variable address reached emission that lowering never produced.
    /// The allocator binds any id on first reference, so this is never
    /// raised here; it stands for internal-consistency faults of extensions.
    UnresolvedReference,
}

/// The canonical text of an address: `$N` for a constant, `%N` for a
/// virtual variable.
pub open spec fn addr_chars(a: Address) -> Seq<char> {
    match a {
        Address::Constant(value) => seq!['$'] + dec_chars(value as nat),
        Address::Variable(id) => seq!['%'] + dec_chars(id as nat),
    }
}

/// The canonical text of one instruction, one line each.
pub open spec fn line_chars(l: Line) -> Seq<char> {
    match l {
        Line::Add(a, b) => "add "@ + addr_chars(a) + ", "@ + addr_chars(b) + "\n"@,
        Line::Subtract(a, b) => "subtract "@ + addr_chars(a) + ", "@ + addr_chars(b) + "\n"@,
        Line::Return(a) => "return "@ + addr_chars(a) + "\n"@,
        Line::Move(a, b) => "move "@ + addr_chars(a) + ", "@ + addr_chars(b) + "\n"@,
    }
}

/// The canonical text of an instruction sequence, in order.
pub open spec fn lines_chars(ls: Seq<Line>) -> Seq<char>
    decreases ls.len(),
{
    if ls.len() == 0 {
        Seq::empty()
    } else {
        lines_chars(ls.drop_last()) + line_chars(ls.last())
    }
}

impl Address {
    /// The canonical TAC text form of this address.
    pub fn to_text(&self) -> (s: String)
        ensures
            s@ == addr_chars(*self),
    {
        proof {
            reveal_strlit("$");
            reveal_strlit("%");
        }
        match self {
            Address::Constant(value) => {
                let mut s = String::new();
                s.append("$");
                let num = u64_to_string(*value);
                s.append(num.as_str());
                proof {
                    assert(s@ =~= addr_chars(*self));
                }
                s
            },
            Address::Variable(id) => {
                let mut s = String::new();
                s.append("%");
                let num = u64_to_string(*id);
                s.append(num.as_str());
                proof {
                    assert(s@ =~= addr_chars(*self));
                }
                s
            },
        }
    }
}

impl Line {
    /// The canonical TAC text form of this instruction, newline-terminated.
    pub fn to_text(&self) -> (s: String)
        ensures
            s@ == line_chars(*self),
    {
        match self {
            Line::Add(a, b) => {
                let mut s = String::new();
                s.append("add ");
                s.append(a.to_text().as_str());
                s.append(", ");
                s.append(b.to_text().as_str());
                s.append("\n");
                proof {
                    assert(s@ =~= line_chars(*self));
                }
                s
            },
            Line::Subtract(a, b) => {
                let mut s = String::new();
                s.append("subtract ");
                s.append(a.to_text().as_str());
                s.append(", ");
                s.append(b.to_text().as_str());
                s.append("\n");
                proof {
                    assert(s@ =~= line_chars(*self));
                }
                s
            },
            Line::Return(a) => {
                let mut s = String::new();
                s.append("return ");
                s.append(a.to_text().as_str());
                s.append("\n");
                proof {
                    assert(s@ =~= line_chars(*self));
                }
                s
            },
            Line::Move(a, b) => {
                let mut s = String::new();
                s.append("move ");
                s.append(a.to_text().as_str());
                s.append(", ");
                s.append(b.to_text().as_str());
                s.append("\n");
                proof {
                    assert(s@ =~= line_chars(*self));
                }
                s
            },
        }
    }
}

/// Per-function monotonic id generators for virtual variables and jump
/// labels. The two counters are independent and both start at zero; each
/// call issues the current value and advances, so every issued id is
/// strictly greater than all earlier ids of the same generator.
#[derive(Debug, Clone, Copy, PartialEq, Eq, Structural)]
pub struct Scope {
    var_counter: u64,
    jump_counter: u64,
}

impl Scope {
    /// The id the variable generator will issue next.
    pub closed spec fn next_var(&self) -> u64 {
        self.var_counter
    }

    /// The id the jump generator will issue next.
    pub closed spec fn next_jump(&self) -> u64 {
        self.jump_counter
    }

    pub fn new() -> (s: Scope)
        ensures
            s.next_var() == 0,
            s.next_jump() == 0,
    {
        Scope { var_counter: 0, jump_counter: 0 }
    }

    /// Issues a fresh virtual variable id, strictly greater than every id
    /// this generator issued before.
    pub fn var_label(&mut self) -> (id: u64)
        requires
            old(self).next_var() < u64::MAX,
        ensures
            id == old(self).next_var(),
            final(self).next_var() == old(self).next_var() + 1,
            final(self).next_jump() == old(self).next_jump(),
    {
        let id = self.var_counter;
        self.var_counter = self.var_counter + 1;
        id
    }

    /// Issues a fresh jump label id, strictly greater than every id this
    /// generator issued before. Reserved for control-flow extensions.
    pub fn jump_label(&mut self) -> (id: u64)
        requires
            old(self).next_jump() < u64::MAX,
        ensures
            id == old(self).next_jump(),
            final(self).next_jump() == old(self).next_jump() + 1,
            final(self).next_var() == old(self).next_var(),
    {
        let id = self.jump_counter;
        self.jump_counter = self.jump_counter + 1;
        id
    }
}

/// Lowers one expression with an explicit placement request; `target` names
/// the virtual variable the caller would like the result placed in, and
/// with `strict_target` the returned address is always `Variable(target)`.
fn compile_expression(
    expression: &ast::Expression,
    scope: &mut Scope,
    target: u64,
    strict_target: bool,
) -> (r: Result<(Vec<Line>, Address), CompileError>)
    requires
        old(scope).next_var() + expr_allocs(ast::expr_view(*expression)) <= u64::MAX,
    ensures
        final(scope).next_jump() == old(scope).next_jump(),
        old(scope).next_var() <= final(scope).next_var(),
        final(scope).next_var() <= old(scope).next_var() + expr_allocs(
            ast::expr_view(*expression),
        ),
        ({
            let sr = lower_expr(
                ast::expr_view(*expression),
                old(scope).next_var() as nat,
                target,
                strict_target,
            );
            match r {
                Ok(p) => sr matches Ok((sl, sa, sn)) && p.0@ == sl && p.1 == sa
                    && final(scope).next_var() == sn,
                Err(e) => sr matches Err(se) && e == se,
            }
        }),
{
    expression.compile_tac(scope, target, strict_target)
}

/// How many virtual variable ids lowering a statement issues, at most.
pub open spec fn stmt_allocs(s: StmtV) -> nat {
    match s {
        StmtV::RETURN(e) => 1 + expr_allocs(e),
        _ => 0,
    }
}

/// How many virtual variable ids lowering a statement sequence issues, at
/// most.
pub open spec fn stmts_allocs(ss: Seq<StmtV>) -> nat
    decreases ss.len(),
{
    if ss.len() == 0 {
        0
    } else {
        stmt_allocs(ss[0]) + stmts_allocs(ss.drop_first())
    }
}

/// Computes `expr_allocs` of an expression's view with checked
/// arithmetic; nothing when the count does not fit in a `u64`.
fn expr_allocs_exec(e: &ast::Expression) -> (r: Option<u64>)
    ensures
        match r {
            Some(n) => n as nat == expr_allocs(ast::expr_view(*e)),
            None => expr_allocs(ast::expr_view(*e)) > u64::MAX,
        },
    decreases *e,
{
    match e {
        ast::Expression::Const(_) => Some(0),
        ast::Expression::UnOp(_) => Some(0),
        ast::Expression::Assign(_) => Some(0),
        ast::Expression::BinOp(b) => {
            let left = match expr_allocs_exec(&b.value_a) {
                Some(n) => n,
                None => {
                    return None;
                },
            };
            let right = match expr_allocs_exec(&b.value_b) {
                Some(n) => n,
                None => {
                    return None;
                },
            };
            match left.checked_add(1) {
                Some(partial) => partial.checked_add(right),
                None => None,
            }
        },
    }
}

/// Computes how many virtual variable ids lowering the statements issues,
/// at most; nothing when the count does not fit in a `u64`. A caller can
/// test this before `Function::from_ast`, whose contract asks that the
/// count stays within the id space.
pub fn statements_allocs(statements: &Vec<ast::Statement>) -> (r: Option<u64>)
    ensures
        match r {
            Some(n) => n as nat == stmts_allocs(stmts_view(statements@)),
            None => stmts_allocs(stmts_view(statements@)) > u64::MAX,
        },
{
    let ghost sv = stmts_view(statements@);
    let mut total: u64 = 0;
    let n = statements.len();
    let mut i: usize = 0;
    proof {
        assert(sv.skip(0) =~= sv);
    }
    #[verifier::loop_isolation(false)]
    while i < n
        invariant
            0 <= i <= n,
            n == statements@.len(),
            sv == stmts_view(statements@),
            total as nat + stmts_allocs(sv.skip(i as int)) == stmts_allocs(sv),
        decreases n - i,
    {
        proof {
            lemma_stmts_allocs_split(sv, i as int);
            assert(sv[i as int] == stmt_view(statements@[i as int]));
        }
        let step: u64 = match &statements[i] {
            ast::Statement::RETURN(e) => {
                let inner = match expr_allocs_exec(e) {
                    Some(c) => c,
                    None => {
                        return None;
                    },
                };
                match inner.checked_add(1) {
                    Some(c) => c,
                    None => {
                        return None;
                    },
                }
            },
            _ => 0,
        };
        total = match total.checked_add(step) {
            Some(t) => t,
            None => {
                return None;
            },
        };
        i = i + 1;
    }
    proof {
        assert(sv.skip(n as int) =~= Seq::<StmtV>::empty());
    }
    Some(total)
}

/// Lowering one statement: a `return e` issues a fresh id, lowers `e` into
/// it non-strictly, and appends a `Return` of the result address; every
/// other statement kind is an unsupported construct.
pub open spec fn lower_statement(s: StmtV, next: nat) -> Result<(Seq<Line>, nat), CompileError> {
    match s {
        StmtV::RETURN(e) => {
            let target = next as u64;
            match lower_expr(e, next + 1, target, false) {
                Err(er) => Err(er),
                Ok((lines, addr, n2)) => Ok((lines.push(Line::Return(addr)), n2)),
            }
        },
        _ => Err(CompileError::UnsupportedConstruct),
    }
}

/// Lowering a statement sequence in source order, threading the id
/// generator through; the first fault stops the whole sequence.
pub open spec fn lower_statements(ss: Seq<StmtV>, next: nat) -> Result<
    (Seq<Line>, nat),
    CompileError,
>
    decreases ss.len(),
{
    if ss.len() == 0 {
        Ok((Seq::empty(), next))
    } else {
        match lower_statements(ss.drop_last(), next) {
            Err(e) => Err(e),
            Ok((done, n1)) => match lower_statement(ss.last(), n1) {
                Err(e) => Err(e),
                Ok((lines, n2)) => Ok((done + lines, n2)),
            },
        }
    }
}

/// Splitting an alloc count at a prefix.
proof fn lemma_stmts_allocs_split(ss: Seq<StmtV>, i: int)
    requires
        0 <= i < ss.len(),
    ensures
        stmts_allocs(ss.skip(i)) == stmt_allocs(ss[i]) + stmts_allocs(ss.skip(i + 1)),
{
    assert(ss.skip(i).len() > 0);
    assert(ss.skip(i)[0] == ss[i]);
    assert(ss.skip(i).drop_first() =~= ss.skip(i + 1));
}

/// On success, lowering a statement advances the id generator by at most
/// `stmt_allocs(s)`, and by at least one.
proof fn lemma_lower_statement_next(s: StmtV, next: nat)
    ensures
        lower_statement(s, next) matches Ok((l, n2)) ==> next < n2 <= next + stmt_allocs(s),
{
    match s {
        StmtV::RETURN(e) => {
            ast::lemma_lower_expr_next(e, next + 1, next as u64, false);
        },
        _ => {},
    }
}

/// A fault in a prefix of a statement sequence is the fault of the whole
/// sequence.
proof fn lemma_stmts_err_extends(ss: Seq<StmtV>, next: nat, i: int)
    requires
        0 <= i <= ss.len(),
        lower_statements(ss.take(i), next) is Err,
    ensures
        lower_statements(ss, next) == lower_statements(ss.take(i), next),
    decreases ss.len() - i,
{
    if i == ss.len() {
        assert(ss.take(i) =~= ss);
    } else {
        assert(ss.take(i + 1).drop_last() =~= ss.take(i));
        lemma_stmts_err_extends(ss, next, i + 1);
    }
}

/// Whether an address names only issued variables: a constant always
/// does, a variable only when its id lies below `bound`.
pub open spec fn addr_ids_below(a: Address, bound: nat) -> bool {
    match a {
        Address::Constant(_) => true,
        Address::Variable(id) => (id as nat) < bound,
    }
}

/// Whether every operand of an instruction names only issued variables.
pub open spec fn line_ids_below(l: Line, bound: nat) -> bool {
    match l {
        Line::Add(a, b) => addr_ids_below(a, bound) && addr_ids_below(b, bound),
        Line::Subtract(a, b) => addr_ids_below(a, bound) && addr_ids_below(b, bound),
        Line::Return(a) => addr_ids_below(a, bound),
        Line::Move(a, b) => addr_ids_below(a, bound) && addr_ids_below(b, bound),
    }
}

/// Whether every instruction of a body names only issued variables.
pub open spec fn lines_ids_below(ls: Seq<Line>, bound: nat) -> bool {
    forall|i: int| 0 <= i < ls.len() ==> line_ids_below(#[trigger] ls[i], bound)
}

proof fn lemma_lines_ids_below_mono(ls: Seq<Line>, m1: nat, m2: nat)
    requires
        lines_ids_below(ls, m1),
        m1 <= m2,
    ensures
        lines_ids_below(ls, m2),
{
    assert forall|i: int| 0 <= i < ls.len() implies line_ids_below(#[trigger] ls[i], m2) by {
        assert(line_ids_below(ls[i], m1));
    }
}

proof fn lemma_lower_expr_ids(e: ExprV, next: nat, target: u64, strict: bool)
    requires
        (target as nat) < next,
    ensures
        lower_expr(e, next, target, strict) matches Ok((l, a, n2)) ==> lines_ids_below(l, n2)
            && addr_ids_below(a, n2),
    decreases e,
{
    ast::lemma_lower_expr_next(e, next, target, strict);
    match e {
        ExprV::BinOp(oper, a, b) => {
            if oper == crate::ast::BinOpType::Add || oper == crate::ast::BinOpType::Subtract {
                lemma_lower_expr_ids(*a, next, target, true);
                ast::lemma_lower_expr_next(*a, next, target, true);
                match lower_expr(*a, next, target, true) {
                    Err(_) => {},
                    Ok((la, aa, n1)) => {
                        let fresh = n1 as u64;
                        lemma_lower_expr_ids(*b, n1 + 1, fresh, false);
                        ast::lemma_lower_expr_next(*b, n1 + 1, fresh, false);
                        match lower_expr(*b, n1 + 1, fresh, false) {
                            Err(_) => {},
                            Ok((lb, ab, n2)) => {
                                lemma_lines_ids_below_mono(la, n1, n2);
                                let op_line = if oper == crate::ast::BinOpType::Add {
                                    Line::Add(Address::Variable(target), ab)
                                } else {
                                    Line::Subtract(Address::Variable(target), ab)
                                };
                                let whole = la + lb + seq![op_line];
                                assert forall|i: int|
                                    0 <= i < whole.len() implies line_ids_below(
                                    #[trigger] whole[i],
                                    n2,
                                ) by {
                                    if i < la.len() {
                                        assert(whole[i] == la[i]);
                                    } else if i < la.len() + lb.len() {
                                        assert(whole[i] == lb[i - la.len()]);
                                    } else {
                                        assert(whole[i] == op_line);
                                    }
                                }
                            },
                        }
                    },
                }
            }
        },
        _ => {},
    }
}

proof fn lemma_lower_statement_ids(s: StmtV, next: nat)
    ensures
        lower_statement(s, next) matches Ok((l, n2)) ==> lines_ids_below(l, n2),
{
    match s {
        StmtV::RETURN(e) => {
            let target = next as u64;
            lemma_lower_expr_ids(e, next + 1, target, false);
            match lower_expr(e, next + 1, target, false) {
                Err(_) => {},
                Ok((lines, addr, n2)) => {
                    let whole = lines.push(Line::Return(addr));
                    assert forall|i: int|
                        0 <= i < whole.len() implies line_ids_below(#[trigger] whole[i], n2) by {
                        if i < lines.len() {
                            assert(whole[i] == lines[i]);
                        } else {
                            assert(whole[i] == Line::Return(addr));
                        }
                    }
                },
            }
        },
        _ => {},
    }
}

/// Every variable address a lowered body names was issued by the
/// function's id generator: its id lies below the generator's final
/// value. An emitter over such a body can therefore never meet a
/// variable id that lowering did not produce.
pub proof fn lemma_lowered_ids_issued(ss: Seq<StmtV>, next: nat)
    ensures
        lower_statements(ss, next) matches Ok((l, n2)) ==> lines_ids_below(l, n2),
    decreases ss.len(),
{
    if ss.len() > 0 {
        lemma_lowered_ids_issued(ss.drop_last(), next);
        match lower_statements(ss.drop_last(), next) {
            Err(_) => {},
            Ok((done, n1)) => {
                lemma_lower_statement_ids(ss.last(), n1);
                lemma_lower_statement_next(ss.last(), n1);
                match lower_statement(ss.last(), n1) {
                    Err(_) => {},
                    Ok((lines, n2)) => {
                        lemma_lines_ids_below_mono(done, n1, n2);
                        let whole = done + lines;
                        assert forall|i: int|
                            0 <= i < whole.len() implies line_ids_below(#[trigger] whole[i], n2) by {
                            if i < done.len() {
                                assert(whole[i] == done[i]);
                            } else {
                                assert(whole[i] == lines[i - done.len()]);
                            }
                        }
                    },
                }
            },
        }
    }
}

/// A lowered function: its TAC body and the id generator that produced it.
#[derive(Debug)]
pub struct Function {
    pub body: Vec<Line>,
    pub scope: Scope,
}

impl Function {
    /// The id generator as lowering left it.
    pub open spec fn spec_scope(&self) -> Scope {
        self.scope
    }

    /// The lowered body, as a sequence of instructions.
    pub open spec fn spec_body(&self) -> Seq<Line> {
        self.body@
    }

    /// Lowers a function body: iterates the statements in source order,
    /// accumulating the produced instructions. The result is pinned by
    /// `lower_statements` on the statements' view, with the generator
    /// starting at zero.
    pub fn from_ast(ast: Vec<ast::Statement>) -> (r: Result<Function, CompileError>)
        requires
            stmts_allocs(stmts_view(ast@)) <= u64::MAX,
        ensures
            match r {
                Ok(f) => lower_statements(stmts_view(ast@), 0) matches Ok((ls, n))
                    && f.spec_body() == ls && f.spec_scope().next_var() == n
                    && f.spec_scope().next_jump() == 0,
                Err(e) => lower_statements(stmts_view(ast@), 0) matches Err(se) && se == e,
            },
    {
        let ghost sv = stmts_view(ast@);
        let mut func = Function { body: Vec::new(), scope: Scope::new() };
        proof {
            assert(sv.take(0) =~= Seq::<StmtV>::empty());
            assert(sv.skip(0) =~= sv);
            assert(func.body@ =~= Seq::<Line>::empty());
        }
        let n = ast.len();
        let mut i: usize = 0;
        while i < n
            invariant
                0 <= i <= n,
                n == ast.len(),
                sv == stmts_view(ast@),
                sv.len() == n,
                lower_statements(sv.take(i as int), 0) == Ok::<(Seq<Line>, nat), CompileError>(
                    (func.body@, func.scope.next_var() as nat),
                ),
                func.scope.next_jump() == 0,
                func.scope.next_var() + stmts_allocs(sv.skip(i as int)) <= u64::MAX,
            decreases n - i,
        {
            proof {
                lemma_stmts_allocs_split(sv, i as int);
                assert(sv[i as int] == stmt_view(ast@[i as int]));
            }
            let ghost n1 = func.scope.next_var() as nat;
            let stmt = &ast[i];
            match stmt {
                ast::Statement::RETURN(expression) => {
                    let var = func.scope.var_label();
                    let lowered = compile_expression(expression, &mut func.scope, var, false);
                    match lowered {
                        Err(e) => {
                            proof {
                                assert(sv.take(i as int + 1).drop_last() =~= sv.take(i as int));
                                assert(sv.take(i as int + 1).last() == sv[i as int]);
                                assert(lower_statements(sv.take(i as int + 1), 0) is Err);
                                lemma_stmts_err_extends(sv, 0, i as int + 1);
                            }
                            return Err(e);
                        },
                        Ok((mut lines, addr)) => {
                            let ghost prev_body = func.body@;
                            let ghost expr_lines = lines@;
                            func.body.append(&mut lines);
                            func.body.push(Line::Return(addr));
                            proof {
                                assert(sv.take(i as int + 1).drop_last() =~= sv.take(i as int));
                                assert(sv.take(i as int + 1).last() == sv[i as int]);
                                lemma_lower_statement_next(sv[i as int], n1);
                                assert(func.body@ =~= prev_body + expr_lines.push(
                                    Line::Return(addr),
                                ));
                            }
                        },
                    }
                },
                _ => {
                    proof {
                        assert(sv.take(i as int + 1).drop_last() =~= sv.take(i as int));
                        assert(sv.take(i as int + 1).last() == sv[i as int]);
                        assert(lower_statements(sv.take(i as int + 1), 0) is Err);
                        lemma_stmts_err_extends(sv, 0, i as int + 1);
                    }
                    return Err(CompileError::UnsupportedConstruct);
                },
            }
            i = i + 1;
        }
        proof {
            assert(sv.take(n as int) =~= sv);
        }
        Ok(func)
    }

    /// The canonical TAC text of the body, one instruction per line.
    pub fn to_text(&self) -> (s: String)
        ensures
            s@ == lines_chars(self.spec_body()),
    {
        let mut s = String::new();
        let n = self.body.len();
        let mut i: usize = 0;
        proof {
            assert(self.body@.take(0) =~= Seq::<Line>::empty());
        }
        while i < n
            invariant
                0 <= i <= n,
                n == self.body@.len(),
                s@ == lines_chars(self.body@.take(i as int)),
            decreases n - i,
        {
            let line_text = self.body[i].to_text();
            s.append(line_text.as_str());
            proof {
                assert(self.body@.take(i as int + 1).drop_last() =~= self.body@.take(i as int));
            }
            i = i + 1;
        }
        proof {
            assert(self.body@.take(n as int) =~= self.body@);
        }
        s
    }
}

/// Lowering a program: every function independently, each with a fresh id
/// generator, into a name-keyed map that keeps declaration order; a name
/// already taken by an earlier function is a fault.
pub open spec fn lower_functions(fs: Seq<(Seq<char>, Seq<StmtV>)>) -> Result<
    Seq<(Seq<char>, Seq<Line>, nat)>,
    CompileError,
>
    decreases fs.len(),
{
    if fs.len() == 0 {
        Ok(Seq::empty())
    } else {
        match lower_functions(fs.drop_last()) {
            Err(e) => Err(e),
            Ok(done) => {
                let name = fs.last().0;
                if exists|j: int| 0 <= j < done.len() && (#[trigger] done[j]).0 == name {
                    Err(CompileError::DuplicateFunctionName)
                } else {
                    match lower_statements(fs.last().1, 0) {
                        Err(e) => Err(e),
                        Ok((lines, n)) => Ok(done.push((name, lines, n))),
                    }
                }
            },
        }
    }
}

/// A fault in a prefix of a function sequence is the fault of the whole
/// sequence.
proof fn lemma_funcs_err_extends(fs: Seq<(Seq<char>, Seq<StmtV>)>, i: int)
    requires
        0 <= i <= fs.len(),
        lower_functions(fs.take(i)) is Err,
    ensures
        lower_functions(fs) == lower_functions(fs.take(i)),
    decreases fs.len() - i,
{
    if i == fs.len() {
        assert(fs.take(i) =~= fs);
    } else {
        assert(fs.take(i + 1).drop_last() =~= fs.take(i));
        lemma_funcs_err_extends(fs, i + 1);
    }
}

/// The model of a lowered program's function list: for each entry its
/// name, its body, and the final value of its id generator.
pub open spec fn funcs_model(s: Seq<(String, Function)>) -> Seq<(Seq<char>, Seq<Line>, nat)> {
    s.map(
        |i: int, nf: (String, Function)|
            (nf.0@, nf.1.spec_body(), nf.1.spec_scope().next_var() as nat),
    )
}

/// A lowered program: its functions under their names, in declaration
/// order, so that emission over this map is deterministic.
#[derive(Debug)]
pub struct Program {
    pub functions: Vec<(String, Function)>,
}

impl Program {
    /// Lowers every function of a source program, in declaration order.
    /// The result is pinned by `lower_functions` on the program's view; a
    /// repeated function name is a `DuplicateFunctionName` fault.
    pub fn from_ast(ast: ast::Program) -> (r: Result<Program, CompileError>)
        requires
            forall|i: int|
                0 <= i < prog_view(ast).len() ==> stmts_allocs((#[trigger] prog_view(ast)[i]).1)
                    <= u64::MAX,
        ensures
            match r {
                Ok(p) => lower_functions(prog_view(ast)) matches Ok(m) && funcs_model(p.functions@)
                    == m && forall|i: int|
                    0 <= i < p.functions@.len() ==> (#[trigger] p.functions@[i]).1.spec_scope().next_jump()
                        == 0,
                Err(e) => lower_functions(prog_view(ast)) matches Err(se) && se == e,
            },
    {
        let ghost pv = prog_view(ast);
        let mut functions = ast.functions;
        let mut out: Vec<(String, Function)> = Vec::new();
        proof {
            assert(pv.take(0) =~= Seq::<(Seq<char>, Seq<StmtV>)>::empty());
            assert(funcs_model(out@) =~= Seq::<(Seq<char>, Seq<Line>, nat)>::empty());
        }
        #[verifier::loop_isolation(false)]
        while functions.len() > 0
            invariant
                out@.len() + functions@.len() == pv.len(),
                forall|k: int|
                    0 <= k < functions@.len() ==> func_view(#[trigger] functions@[k]) == pv[out@.len()
                        + k],
                forall|i: int|
                    0 <= i < pv.len() ==> stmts_allocs((#[trigger] pv[i]).1) <= u64::MAX,
                lower_functions(pv.take(out@.len() as int)) == Ok::<
                    Seq<(Seq<char>, Seq<Line>, nat)>,
                    CompileError,
                >(funcs_model(out@)),
                forall|j: int|
                    0 <= j < out@.len() ==> (#[trigger] out@[j]).1.spec_scope().next_jump() == 0,
            decreases functions@.len(),
        {
            let ghost i = out@.len() as int;
            let f = functions.remove(0);
            proof {
                assert(func_view(f) == pv[i]);
                assert(pv.take(i + 1).drop_last() =~= pv.take(i));
                assert(pv.take(i + 1).last() == pv[i]);
            }
            let mut dup = false;
            let m = out.len();
            let mut j: usize = 0;
            while j < m
                invariant
                    0 <= j <= m,
                    m == out@.len(),
                    dup == exists|k: int| 0 <= k < j && (#[trigger] out@[k]).0@ == f.name@,
                decreases m - j,
            {
                if str_eq(out[j].0.as_str(), f.name.as_str()) {
                    dup = true;
                }
                j = j + 1;
            }
            if dup {
                proof {
                    let k = choose|k: int| 0 <= k < out@.len() && (#[trigger] out@[k]).0@
                        == f.name@;
                    assert((funcs_model(out@)[k]).0 == f.name@);
                    assert(exists|j: int|
                        0 <= j < funcs_model(out@).len() && (#[trigger] funcs_model(out@)[j]).0
                            == f.name@);
                    assert(lower_functions(pv.take(i + 1)) == Err::<
                        Seq<(Seq<char>, Seq<Line>, nat)>,
                        CompileError,
                    >(CompileError::DuplicateFunctionName));
                    lemma_funcs_err_extends(pv, i + 1);
                }
                return Err(CompileError::DuplicateFunctionName);
            }
            proof {
                assert forall|k: int| 0 <= k < funcs_model(out@).len() implies (#[trigger] funcs_model(
                    out@,
                )[k]).0 != f.name@ by {
                    assert((funcs_model(out@)[k]).0 == out@[k].0@);
                    assert(out@[k].0@ != f.name@);
                };
            }
            match Function::from_ast(f.body) {
                Err(e) => {
                    proof {
                        lemma_funcs_err_extends(pv, i + 1);
                    }
                    return Err(e);
                },
                Ok(lowered) => {
                    let ghost prev_out = out@;
                    out.push((f.name, lowered));
                    proof {
                        assert(funcs_model(out@) =~= funcs_model(prev_out).push(
                            (
                                f.name@,
                                lowered.spec_body(),
                                lowered.spec_scope().next_var() as nat,
                            ),
                        ));
                    }
                },
            }
        }
        proof {
            assert(pv.take(out@.len() as int) =~= pv);
        }
        Ok(Program { functions: out })
    }

    /// The canonical TAC text of the whole program: each function under a
    /// `Function <name>:` heading, in declaration order.
    pub fn to_text(&self) -> (s: String)
        ensures
            s@ == program_tac_chars(
                self.functions@.map(|i: int, nf: (String, Function)| (nf.0@, nf.1.spec_body())),
            ),
    {
        proof {
            reveal_strlit("Function ");
            reveal_strlit(":\n");
            reveal_strlit("\n");
        }
        let ghost m = self.functions@.map(
            |i: int, nf: (String, Function)| (nf.0@, nf.1.spec_body()),
        );
        let mut s = String::new();
        let n = self.functions.len();
        let mut i: usize = 0;
        proof {
            assert(m.take(0) =~= Seq::<(Seq<char>, Seq<Line>)>::empty());
            assert(s@ =~= program_tac_chars(m.take(0)));
        }
        while i < n
            invariant
                0 <= i <= n,
                n == self.functions@.len(),
                m == self.functions@.map(
                    |i: int, nf: (String, Function)| (nf.0@, nf.1.spec_body()),
                ),
                s@ == program_tac_chars(m.take(i as int)),
            decreases n - i,
        {
            s.append("Function ");
            s.append(self.functions[i].0.as_str());
            s.append(":\n");
            let body_text = self.functions[i].1.to_text();
            s.append(body_text.as_str());
            s.append("\n");
            proof {
                assert(m.take(i as int + 1).drop_last() =~= m.take(i as int));
                assert(m.take(i as int + 1).last() == m[i as int]);
                assert(s@ =~= program_tac_chars(m.take(i as int + 1)));
            }
            i = i + 1;
        }
        proof {
            assert(m.take(n as int) =~= m);
        }
        s
    }
}

/// The canonical TAC text of a program model: for each function a
/// `Function <name>:` heading, its instructions, and a blank line.
pub open spec fn program_tac_chars(m: Seq<(Seq<char>, Seq<Line>)>) -> Seq<char>
    decreases m.len(),
{
    if m.len() == 0 {
        Seq::empty()
    } else {
        program_tac_chars(m.drop_last()) + "Function "@ + m.last().0 + ":\n"@ + lines_chars(
            m.last().1,
        ) + "\n"@
    }
}

} // verus!
