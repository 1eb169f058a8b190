//! The abstract syntax tree of the expression language, its mathematical
//! view, and the lowering of expressions into three-address code under the
//! target / strict-target placement protocol.

use vstd::prelude::*;

use crate::parser::ParseError;
use crate::tac::{Address, CompileError, Line, Scope};
use crate::text::{dec_chars, indent_chars, make_indent, str_eq, u64_to_string};

verus! {

/// A unary operator of the source language.
#[derive(Debug, Clone, Copy, PartialEq, Eq, Structural)]
pub enum UnOpType {
    /// -
    Negate,
    /// ~
    Complement,
    /// !
    Not,
}

/// The source spelling of a unary operator.
pub open spec fn un_op_chars(t: UnOpType) -> Seq<char> {
    match t {
        UnOpType::Negate => "-"@,
        UnOpType::Complement => "~"@,
        UnOpType::Not => "!"@,
    }
}

/// The unary operator a spelling denotes, if any.
pub open spec fn un_op_from_chars(s: Seq<char>) -> Option<UnOpType> {
    if s == "-"@ {
        Some(UnOpType::Negate)
    } else if s == "~"@ {
        Some(UnOpType::Complement)
    } else if s == "!"@ {
        Some(UnOpType::Not)
    } else {
        None
    }
}

impl UnOpType {
    pub fn from_str(oper: &str) -> (r: Result<UnOpType, ParseError>)
        ensures
            match r {
                Ok(t) => un_op_from_chars(oper@) == Some(t),
                Err(_) => un_op_from_chars(oper@) is None,
            },
    {
        if str_eq(oper, "-") {
            Ok(UnOpType::Negate)
        } else if str_eq(oper, "~") {
            Ok(UnOpType::Complement)
        } else if str_eq(oper, "!") {
            Ok(UnOpType::Not)
        } else {
            let mut msg = String::new();
            msg.append("Unknown operation: ");
            msg.append(oper);
            Err(ParseError::new(msg.as_str()))
        }
    }

    /// The operator's source spelling.
    pub fn as_str(&self) -> (r: &'static str)
        ensures
            r@ == un_op_chars(*self),
    {
        match self {
            UnOpType::Negate => "-",
            UnOpType::Complement => "~",
            UnOpType::Not => "!",
        }
    }
}

/// A binary operator of the source language.
#[derive(Debug, Clone, Copy, PartialEq, Eq, Structural)]
pub enum BinOpType {
    /// ||
    BitwiseOr,
    /// &&
    BitWiseAnd,
    /// !=
    NotEqual,
    /// ==
    Equal,
    /// <
    LessThan,
    /// >
    GreaterThan,
    /// <=
    LessThanOrEq,
    /// >=
    GreaterThanOrEq,
    /// +
    Add,
    /// -
    Subtract,
}

/// The source spelling of a binary operator.
pub open spec fn bin_op_chars(t: BinOpType) -> Seq<char> {
    match t {
        BinOpType::BitwiseOr => "||"@,
        BinOpType::BitWiseAnd => "&&"@,
        BinOpType::NotEqual => "!="@,
        BinOpType::Equal => "=="@,
        BinOpType::LessThan => "<"@,
        BinOpType::GreaterThan => ">"@,
        BinOpType::LessThanOrEq => "<="@,
        BinOpType::GreaterThanOrEq => ">="@,
        BinOpType::Add => "+"@,
        BinOpType::Subtract => "-"@,
    }
}

/// The binary operator a spelling denotes, if any.
pub open spec fn bin_op_from_chars(s: Seq<char>) -> Option<BinOpType> {
    if s == "||"@ {
        Some(BinOpType::BitwiseOr)
    } else if s == "&&"@ {
        Some(BinOpType::BitWiseAnd)
    } else if s == "!="@ {
        Some(BinOpType::NotEqual)
    } else if s == "=="@ {
        Some(BinOpType::Equal)
    } else if s == "<"@ {
        Some(BinOpType::LessThan)
    } else if s == ">"@ {
        Some(BinOpType::GreaterThan)
    } else if s == "<="@ {
        Some(BinOpType::LessThanOrEq)
    } else if s == ">="@ {
        Some(BinOpType::GreaterThanOrEq)
    } else if s == "+"@ {
        Some(BinOpType::Add)
    } else if s == "-"@ {
        Some(BinOpType::Subtract)
    } else {
        None
    }
}

impl BinOpType {
    pub fn from_str(oper: &str) -> (r: Result<BinOpType, ParseError>)
        ensures
            match r {
                Ok(t) => bin_op_from_chars(oper@) == Some(t),
                Err(_) => bin_op_from_chars(oper@) is None,
            },
    {
        if str_eq(oper, "||") {
            Ok(BinOpType::BitwiseOr)
        } else if str_eq(oper, "&&") {
            Ok(BinOpType::BitWiseAnd)
        } else if str_eq(oper, "!=") {
            Ok(BinOpType::NotEqual)
        } else if str_eq(oper, "==") {
            Ok(BinOpType::Equal)
        } else if str_eq(oper, "<") {
            Ok(BinOpType::LessThan)
        } else if str_eq(oper, ">") {
            Ok(BinOpType::GreaterThan)
        } else if str_eq(oper, "<=") {
            Ok(BinOpType::LessThanOrEq)
        } else if str_eq(oper, ">=") {
            Ok(BinOpType::GreaterThanOrEq)
        } else if str_eq(oper, "+") {
            Ok(BinOpType::Add)
        } else if str_eq(oper, "-") {
            Ok(BinOpType::Subtract)
        } else {
            let mut msg = String::new();
            msg.append("Unknown operation: ");
            msg.append(oper);
            Err(ParseError::new(msg.as_str()))
        }
    }

    /// The operator's source spelling.
    pub fn as_str(&self) -> (r: &'static str)
        ensures
            r@ == bin_op_chars(*self),
    {
        match self {
            BinOpType::BitwiseOr => "||",
            BinOpType::BitWiseAnd => "&&",
            BinOpType::NotEqual => "!=",
            BinOpType::Equal => "==",
            BinOpType::LessThan => "<",
            BinOpType::GreaterThan => ">",
            BinOpType::LessThanOrEq => "<=",
            BinOpType::GreaterThanOrEq => ">=",
            BinOpType::Add => "+",
            BinOpType::Subtract => "-",
        }
    }
}

/// A literal integer constant.
#[derive(Debug)]
pub struct Const {
    pub value: u64,
}

/// A unary operation applied to a sub-expression.
#[derive(Debug)]
pub struct UnOp {
    pub value: Box<Expression>,
    pub oper: UnOpType,
}

/// A binary operation on two sub-expressions.
#[derive(Debug)]
pub struct BinOp {
    pub value_a: Box<Expression>,
    pub value_b: Box<Expression>,
    pub oper: BinOpType,
}

/// An assignment of an expression to a named source variable.
#[derive(Debug)]
pub struct Assign {
    pub var_name: String,
    pub expression: Box<Expression>,
}

/// An expression node: one tagged variant per node kind, dispatched by an
/// exhaustive match in lowering.
#[derive(Debug)]
pub enum Expression {
    Const(Const),
    UnOp(UnOp),
    BinOp(BinOp),
    Assign(Assign),
}

/// A statement of a function body.
#[derive(Debug)]
pub enum Statement {
    DECLARE,
    RETURN(Expression),
    EXPRESSION,
}

/// A named source function.
#[derive(Debug)]
pub struct Function {
    pub name: String,
    pub body: Vec<Statement>,
}

/// A whole source program: its functions in declaration order.
#[derive(Debug)]
pub struct Program {
    pub functions: Vec<Function>,
}

/// The mathematical view of an expression.
pub enum ExprV {
    Const(u64),
    UnOp(UnOpType, Box<ExprV>),
    BinOp(BinOpType, Box<ExprV>, Box<ExprV>),
    Assign(Seq<char>, Box<ExprV>),
}

/// The mathematical view of a statement.
pub enum StmtV {
    DECLARE,
    RETURN(ExprV),
    EXPRESSION,
}

/// The view of an expression node.
pub open spec fn expr_view(e: Expression) -> ExprV
    decreases e,
{
    match e {
        Expression::Const(c) => ExprV::Const(c.value),
        Expression::UnOp(u) => ExprV::UnOp(u.oper, Box::new(expr_view(*u.value))),
        Expression::BinOp(b) => ExprV::BinOp(
            b.oper,
            Box::new(expr_view(*b.value_a)),
            Box::new(expr_view(*b.value_b)),
        ),
        Expression::Assign(a) => ExprV::Assign(a.var_name@, Box::new(expr_view(*a.expression))),
    }
}

/// The view of a statement.
pub open spec fn stmt_view(s: Statement) -> StmtV {
    match s {
        Statement::DECLARE => StmtV::DECLARE,
        Statement::RETURN(e) => StmtV::RETURN(expr_view(e)),
        Statement::EXPRESSION => StmtV::EXPRESSION,
    }
}

/// The view of a statement sequence.
pub open spec fn stmts_view(ss: Seq<Statement>) -> Seq<StmtV> {
    ss.map(|i: int, s: Statement| stmt_view(s))
}

/// The view of a source function: its name and its statements.
pub open spec fn func_view(f: Function) -> (Seq<char>, Seq<StmtV>) {
    (f.name@, stmts_view(f.body@))
}

/// The view of a source program: its functions in declaration order.
pub open spec fn prog_view(p: Program) -> Seq<(Seq<char>, Seq<StmtV>)> {
    p.functions@.map(|i: int, f: Function| func_view(f))
}

/// How many virtual variable ids lowering an expression issues, at most.
pub open spec fn expr_allocs(e: ExprV) -> nat
    decreases e,
{
    match e {
        ExprV::Const(_) => 0,
        ExprV::UnOp(_, _) => 0,
        ExprV::BinOp(_, a, b) => expr_allocs(*a) + 1 + expr_allocs(*b),
        ExprV::Assign(_, _) => 0,
    }
}

/// Lowering an expression into TAC, as a function of the expression, the
/// variable generator's next id, and the placement request. Returns the
/// emitted instructions, the result address, and the generator's next id
/// afterwards.
///
/// With `strict` the result is always `Variable(target)`; without it a bare
/// constant is returned as a `Constant` address and no instruction is
/// emitted. A binary `+`/`-` lowers its left operand into `target`
/// strictly, issues a fresh id, lowers its right operand into that id
/// non-strictly, and accumulates the right address onto `Variable(target)`
/// in place. Every other operator, and unary and assignment nodes, are
/// unsupported constructs.
pub open spec fn lower_expr(e: ExprV, next: nat, target: u64, strict: bool) -> Result<
    (Seq<Line>, Address, nat),
    CompileError,
>
    decreases e,
{
    match e {
        ExprV::Const(value) => {
            if strict {
                Ok(
                    (
                        seq![Line::Move(Address::Constant(value), Address::Variable(target))],
                        Address::Variable(target),
                        next,
                    ),
                )
            } else {
                Ok((Seq::empty(), Address::Constant(value), next))
            }
        },
        ExprV::UnOp(_, _) => Err(CompileError::UnsupportedConstruct),
        ExprV::BinOp(oper, a, b) => {
            if oper == BinOpType::Add || oper == BinOpType::Subtract {
                match lower_expr(*a, next, target, true) {
                    Err(e) => Err(e),
                    Ok((lines_a, _addr_a, n1)) => {
                        let fresh = n1 as u64;
                        match lower_expr(*b, n1 + 1, fresh, false) {
                            Err(e) => Err(e),
                            Ok((lines_b, addr_b, n2)) => {
                                let op_line = if oper == BinOpType::Add {
                                    Line::Add(Address::Variable(target), addr_b)
                                } else {
                                    Line::Subtract(Address::Variable(target), addr_b)
                                };
                                Ok(
                                    (
                                        lines_a + lines_b + seq![op_line],
                                        Address::Variable(target),
                                        n2,
                                    ),
                                )
                            },
                        }
                    },
                }
            } else {
                Err(CompileError::UnsupportedConstruct)
            }
        },
        ExprV::Assign(_, _) => Err(CompileError::UnsupportedConstruct),
    }
}

/// The placement protocol, strict half: under a strict request a
/// successful lowering always leaves its result addressable as
/// `Variable(target)`.
pub proof fn lemma_strict_target_placement(e: ExprV, next: nat, target: u64)
    ensures
        lower_expr(e, next, target, true) matches Ok((l, a, n)) ==> a == Address::Variable(target),
{
}

/// The placement protocol, lenient half: without a strict request a
/// successful lowering returns either `Variable(target)` or a bare
/// constant address, never some other variable.
pub proof fn lemma_lenient_target_placement(e: ExprV, next: nat, target: u64)
    ensures
        lower_expr(e, next, target, false) matches Ok((l, a, n)) ==> (a == Address::Variable(
            target,
        ) || a is Constant),
{
}

/// On success, lowering advances the id generator by at most
/// `expr_allocs(e)`, and never moves it backwards.
pub proof fn lemma_lower_expr_next(e: ExprV, next: nat, target: u64, strict: bool)
    ensures
        lower_expr(e, next, target, strict) matches Ok((l, a, n2)) ==> next <= n2 <= next
            + expr_allocs(e),
    decreases e,
{
    match e {
        ExprV::BinOp(oper, a, b) => {
            lemma_lower_expr_next(*a, next, target, true);
            match lower_expr(*a, next, target, true) {
                Ok((la, aa, n1)) => {
                    lemma_lower_expr_next(*b, n1 + 1, n1 as u64, false);
                },
                Err(_) => {},
            }
        },
        _ => {},
    }
}

impl Const {
    /// Lowers a literal constant: a strict request materializes the value
    /// into the target variable with one `Move`; otherwise the constant's
    /// own address is returned and nothing is emitted.
    #[allow(unused_variables)]
    pub fn compile_tac(&self, scope: &mut Scope, target: u64, strict_target: bool) -> (r: (
        Vec<Line>,
        Address,
    ))
        ensures
            *final(scope) == *old(scope),
            ({
                let sr = lower_expr(
                    ExprV::Const(self.value),
                    old(scope).next_var() as nat,
                    target,
                    strict_target,
                );
                sr matches Ok((sl, sa, sn)) && r.0@ == sl && r.1 == sa && final(scope).next_var()
                    == sn
            }),
    {
        if strict_target {
            let mut lines: Vec<Line> = Vec::new();
            lines.push(Line::Move(Address::Constant(self.value), Address::Variable(target)));
            proof {
                assert(lines@ =~= seq![
                    Line::Move(Address::Constant(self.value), Address::Variable(target)),
                ]);
            }
            (lines, Address::Variable(target))
        } else {
            let lines: Vec<Line> = Vec::new();
            proof {
                assert(lines@ =~= Seq::<Line>::empty());
            }
            (lines, Address::Constant(self.value))
        }
    }
}

impl UnOp {
    /// Unary operators are not representable by the two accumulate
    /// instructions alone; lowering them is an open extension point and
    /// reports an unsupported construct.
    #[allow(unused_variables)]
    pub fn compile_tac(&self, scope: &mut Scope, target: u64, strict_target: bool) -> (r: Result<
        (Vec<Line>, Address),
        CompileError,
    >)
        ensures
            *final(scope) == *old(scope),
            r matches Err(e) && e == CompileError::UnsupportedConstruct,
    {
        Err(CompileError::UnsupportedConstruct)
    }
}

impl Assign {
    /// Assignment needs a name-to-id table the minimal `Scope` does not
    /// carry yet; lowering it reports an unsupported construct.
    #[allow(unused_variables)]
    pub fn compile_tac(&self, scope: &mut Scope, target: u64, strict_target: bool) -> (r: Result<
        (Vec<Line>, Address),
        CompileError,
    >)
        ensures
            *final(scope) == *old(scope),
            r matches Err(e) && e == CompileError::UnsupportedConstruct,
    {
        Err(CompileError::UnsupportedConstruct)
    }
}

impl BinOp {
    /// Lowers a binary operation per the placement protocol: the left
    /// operand strictly into `target`, a fresh id for the right operand's
    /// non-strict target, then one in-place accumulate instruction.
    pub fn compile_tac(&self, scope: &mut Scope, target: u64, strict_target: bool) -> (r: Result<
        (Vec<Line>, Address),
        CompileError,
    >)
        requires
            old(scope).next_var() + expr_allocs(expr_view_binop(*self)) <= u64::MAX,
        ensures
            final(scope).next_jump() == old(scope).next_jump(),
            old(scope).next_var() <= final(scope).next_var(),
            final(scope).next_var() <= old(scope).next_var() + expr_allocs(expr_view_binop(*self)),
            ({
                let sr = lower_expr(
                    expr_view_binop(*self),
                    old(scope).next_var() as nat,
                    target,
                    strict_target,
                );
                match r {
                    Ok(p) => sr matches Ok((sl, sa, sn)) && p.0@ == sl && p.1 == sa
                        && final(scope).next_var() == sn,
                    Err(e) => sr matches Err(se) && e == se,
                }
            }),
        decreases *self,
    {
        let is_add = match self.oper {
            BinOpType::Add => true,
            BinOpType::Subtract => false,
            _ => {
                return Err(CompileError::UnsupportedConstruct);
            },
        };
        proof {
            lemma_lower_expr_next(
                expr_view(*self.value_a),
                old(scope).next_var() as nat,
                target,
                true,
            );
        }
        let mut lines = match self.value_a.compile_tac(scope, target, true) {
            Err(e) => {
                return Err(e);
            },
            Ok((lines_a, _addr_a)) => lines_a,
        };
        let fresh = scope.var_label();
        proof {
            lemma_lower_expr_next(
                expr_view(*self.value_b),
                scope.next_var() as nat,
                fresh,
                false,
            );
        }
        let addr_b = match self.value_b.compile_tac(scope, fresh, false) {
            Err(e) => {
                return Err(e);
            },
            Ok((mut lines_b, addr_b)) => {
                lines.append(&mut lines_b);
                addr_b
            },
        };
        let op_line = if is_add {
            Line::Add(Address::Variable(target), addr_b)
        } else {
            Line::Subtract(Address::Variable(target), addr_b)
        };
        lines.push(op_line);
        proof {
            let sr = lower_expr(
                expr_view_binop(*self),
                old(scope).next_var() as nat,
                target,
                strict_target,
            );
            assert(sr matches Ok((sl, sa, sn)) && lines@ =~= sl);
        }
        Ok((lines, Address::Variable(target)))
    }
}

/// The view of a binary node as an expression.
pub open spec fn expr_view_binop(b: BinOp) -> ExprV {
    ExprV::BinOp(b.oper, Box::new(expr_view(*b.value_a)), Box::new(expr_view(*b.value_b)))
}

impl Expression {
    /// Lowers this expression into TAC: dispatches on the node kind. The
    /// result is pinned by `lower_expr` on the node's view.
    pub fn compile_tac(&self, scope: &mut Scope, target: u64, strict_target: bool) -> (r: Result<
        (Vec<Line>, Address),
        CompileError,
    >)
        requires
            old(scope).next_var() + expr_allocs(expr_view(*self)) <= u64::MAX,
        ensures
            final(scope).next_jump() == old(scope).next_jump(),
            old(scope).next_var() <= final(scope).next_var(),
            final(scope).next_var() <= old(scope).next_var() + expr_allocs(expr_view(*self)),
            ({
                let sr = lower_expr(
                    expr_view(*self),
                    old(scope).next_var() as nat,
                    target,
                    strict_target,
                );
                match r {
                    Ok(p) => sr matches Ok((sl, sa, sn)) && p.0@ == sl && p.1 == sa
                        && final(scope).next_var() == sn,
                    Err(e) => sr matches Err(se) && e == se,
                }
            }),
        decreases *self,
    {
        match self {
            Expression::Const(c) => {
                let (lines, addr) = c.compile_tac(scope, target, strict_target);
                Ok((lines, addr))
            },
            Expression::UnOp(u) => u.compile_tac(scope, target, strict_target),
            Expression::BinOp(b) => b.compile_tac(scope, target, strict_target),
            Expression::Assign(a) => a.compile_tac(scope, target, strict_target),
        }
    }
}

/// The larger of two naturals.
pub open spec fn nat_max(a: nat, b: nat) -> nat {
    if a > b {
        a
    } else {
        b
    }
}

/// The height of an expression tree.
pub open spec fn expr_depth(e: Expression) -> nat
    decreases e,
{
    match e {
        Expression::Const(_) => 1,
        Expression::UnOp(u) => 1 + expr_depth(*u.value),
        Expression::BinOp(b) => 1 + nat_max(expr_depth(*b.value_a), expr_depth(*b.value_b)),
        Expression::Assign(a) => 1 + expr_depth(*a.expression),
    }
}

/// The height of a statement.
pub open spec fn stmt_depth(s: Statement) -> nat {
    match s {
        Statement::RETURN(e) => 1 + expr_depth(e),
        _ => 1,
    }
}

/// The height of the deepest statement of a sequence.
pub open spec fn stmts_depth(ss: Seq<Statement>) -> nat
    decreases ss.len(),
{
    if ss.len() == 0 {
        0
    } else {
        nat_max(stmt_depth(ss[0]), stmts_depth(ss.drop_first()))
    }
}

/// The height of a source function.
pub open spec fn ast_func_depth(f: Function) -> nat {
    1 + stmts_depth(f.body@)
}

/// The height of the deepest function of a sequence.
pub open spec fn funcs_depth(fs: Seq<Function>) -> nat
    decreases fs.len(),
{
    if fs.len() == 0 {
        0
    } else {
        nat_max(ast_func_depth(fs[0]), funcs_depth(fs.drop_first()))
    }
}

/// The height of a source program.
pub open spec fn ast_prog_depth(p: Program) -> nat {
    1 + funcs_depth(p.functions@)
}

proof fn lemma_stmts_depth_bound(ss: Seq<Statement>, i: int)
    requires
        0 <= i < ss.len(),
    ensures
        stmt_depth(ss[i]) <= stmts_depth(ss),
    decreases ss.len(),
{
    if i > 0 {
        lemma_stmts_depth_bound(ss.drop_first(), i - 1);
        assert(ss.drop_first()[i - 1] == ss[i]);
    }
}

proof fn lemma_funcs_depth_bound(fs: Seq<Function>, i: int)
    requires
        0 <= i < fs.len(),
    ensures
        ast_func_depth(fs[i]) <= funcs_depth(fs),
    decreases fs.len(),
{
    if i > 0 {
        lemma_funcs_depth_bound(fs.drop_first(), i - 1);
        assert(fs.drop_first()[i - 1] == fs[i]);
    }
}

/// The pretty text of an expression, indented `indent` levels by `del`:
/// one heading line per node, children two levels deeper (one for an
/// assignment's right-hand side).
pub open spec fn pretty_expr_at(e: Expression, indent: nat, del: Seq<char>) -> Seq<char>
    decreases e,
{
    let prefix = indent_chars(indent, del);
    match e {
        Expression::Const(c) => prefix + "Const "@ + dec_chars(c.value as nat) + "\n"@,
        Expression::UnOp(u) => prefix + "UnOp "@ + un_op_chars(u.oper) + "\n"@ + prefix + del
            + "Value:"@ + "\n"@ + pretty_expr_at(*u.value, indent + 2, del),
        Expression::BinOp(b) => prefix + "BinOp '"@ + bin_op_chars(b.oper) + "'"@ + "\n"@ + prefix
            + del + "ValueA:"@ + "\n"@ + pretty_expr_at(*b.value_a, indent + 2, del) + prefix + del
            + "ValueB:"@ + "\n"@ + pretty_expr_at(*b.value_b, indent + 2, del),
        Expression::Assign(a) => prefix + "Assign"@ + "\n"@ + prefix + del + "Var: "@ + a.var_name@
            + "\n"@ + pretty_expr_at(*a.expression, indent + 1, del),
    }
}

/// The pretty text of a statement.
pub open spec fn pretty_stmt_at(s: Statement, indent: nat, del: Seq<char>) -> Seq<char> {
    let prefix = indent_chars(indent, del);
    match s {
        Statement::RETURN(e) => prefix + "RETURN Statement with value:"@ + "\n"@ + pretty_expr_at(
            e,
            indent + 1,
            del,
        ),
        _ => prefix + "Other Statement"@ + "\n"@,
    }
}

/// The pretty text of a statement sequence, in order.
pub open spec fn pretty_stmts_at(ss: Seq<Statement>, indent: nat, del: Seq<char>) -> Seq<char>
    decreases ss.len(),
{
    if ss.len() == 0 {
        Seq::empty()
    } else {
        pretty_stmts_at(ss.drop_last(), indent, del) + pretty_stmt_at(ss.last(), indent, del)
    }
}

/// The pretty text of a source function.
pub open spec fn pretty_func_at(f: Function, indent: nat, del: Seq<char>) -> Seq<char> {
    let prefix = indent_chars(indent, del);
    prefix + "Function"@ + "\n"@ + prefix + del + "Name: "@ + f.name@ + "\n"@ + prefix + del
        + "Body: "@ + "\n"@ + pretty_stmts_at(f.body@, indent + 2, del)
}

/// The pretty text of a function sequence, in order.
pub open spec fn pretty_funcs_at(fs: Seq<Function>, indent: nat, del: Seq<char>) -> Seq<char>
    decreases fs.len(),
{
    if fs.len() == 0 {
        Seq::empty()
    } else {
        pretty_funcs_at(fs.drop_last(), indent, del) + pretty_func_at(fs.last(), indent, del)
    }
}

/// The pretty text of a source program.
pub open spec fn pretty_prog_at(p: Program, indent: nat, del: Seq<char>) -> Seq<char> {
    let prefix = indent_chars(indent, del);
    prefix + "Program"@ + "\n"@ + prefix + del + "Functions: "@ + "\n"@ + pretty_funcs_at(
        p.functions@,
        indent + 2,
        del,
    )
}

/// Pretty printing of AST nodes: each node renders as an indented text
/// block whose exact contents the node's `pretty_spec` pins down.
pub trait Type {
    /// The node's rendered text at the given indentation.
    spec fn pretty_spec(&self, indent: nat, del: Seq<char>) -> Seq<char>;

    /// Whether rendering at this indentation stays within machine bounds:
    /// the indentation counter must not overflow while descending.
    spec fn pretty_ok(&self, indent: nat) -> bool;

    /// Renders the node, indented `indent` levels by `del`.
    fn pretty_print_at(&self, indent: u64, del: &str) -> (r: String)
        requires
            self.pretty_ok(indent as nat),
        ensures
            r@ == self.pretty_spec(indent as nat, del@),
    ;

    /// Renders the node from the margin with a three-space delimiter.
    fn pretty_print(&self) -> (r: String)
        requires
            self.pretty_ok(0),
        ensures
            r@ == self.pretty_spec(0, "   "@),
    {
        self.pretty_print_at(0, "   ")
    }
}

/// Renders one expression, indented `indent` levels by `del`.
fn pretty_expr_print(e: &Expression, indent: u64, del: &str) -> (r: String)
    requires
        indent as nat + 2 * expr_depth(*e) <= u64::MAX,
    ensures
        r@ == pretty_expr_at(*e, indent as nat, del@),
    decreases *e,
{
    let prefix = make_indent(indent, del);
    match e {
        Expression::Const(c) => {
            let mut s = prefix;
            s.append("Const ");
            let num = u64_to_string(c.value);
            s.append(num.as_str());
            s.append("\n");
            proof {
                assert(s@ =~= pretty_expr_at(*e, indent as nat, del@));
            }
            s
        },
        Expression::UnOp(u) => {
            let mut s = String::new();
            s.append(prefix.as_str());
            s.append("UnOp ");
            s.append(u.oper.as_str());
            s.append("\n");
            s.append(prefix.as_str());
            s.append(del);
            s.append("Value:");
            s.append("\n");
            let inner = pretty_expr_print(&u.value, indent + 2, del);
            s.append(inner.as_str());
            proof {
                assert(s@ =~= pretty_expr_at(*e, indent as nat, del@));
            }
            s
        },
        Expression::BinOp(b) => {
            let mut s = String::new();
            s.append(prefix.as_str());
            s.append("BinOp '");
            s.append(b.oper.as_str());
            s.append("'");
            s.append("\n");
            s.append(prefix.as_str());
            s.append(del);
            s.append("ValueA:");
            s.append("\n");
            let left = pretty_expr_print(&b.value_a, indent + 2, del);
            s.append(left.as_str());
            s.append(prefix.as_str());
            s.append(del);
            s.append("ValueB:");
            s.append("\n");
            let right = pretty_expr_print(&b.value_b, indent + 2, del);
            s.append(right.as_str());
            proof {
                assert(s@ =~= pretty_expr_at(*e, indent as nat, del@));
            }
            s
        },
        Expression::Assign(a) => {
            let mut s = String::new();
            s.append(prefix.as_str());
            s.append("Assign");
            s.append("\n");
            s.append(prefix.as_str());
            s.append(del);
            s.append("Var: ");
            s.append(a.var_name.as_str());
            s.append("\n");
            let inner = pretty_expr_print(&a.expression, indent + 1, del);
            s.append(inner.as_str());
            proof {
                assert(s@ =~= pretty_expr_at(*e, indent as nat, del@));
            }
            s
        },
    }
}

/// Renders one statement, indented `indent` levels by `del`.
fn pretty_stmt_print(st: &Statement, indent: u64, del: &str) -> (r: String)
    requires
        indent as nat + 2 * stmt_depth(*st) <= u64::MAX,
    ensures
        r@ == pretty_stmt_at(*st, indent as nat, del@),
{
    match st {
        Statement::RETURN(e) => {
            let mut s = make_indent(indent, del);
            s.append("RETURN Statement with value:");
            s.append("\n");
            let inner = pretty_expr_print(e, indent + 1, del);
            s.append(inner.as_str());
            proof {
                assert(s@ =~= pretty_stmt_at(*st, indent as nat, del@));
            }
            s
        },
        _ => {
            let mut s = make_indent(indent, del);
            s.append("Other Statement");
            s.append("\n");
            proof {
                assert(s@ =~= pretty_stmt_at(*st, indent as nat, del@));
            }
            s
        },
    }
}

/// Renders one source function, indented `indent` levels by `del`.
fn pretty_func_print(f: &Function, indent: u64, del: &str) -> (r: String)
    requires
        indent as nat + 2 * (1 + stmts_depth(f.body@)) <= u64::MAX,
    ensures
        r@ == pretty_func_at(Function { name: f.name, body: f.body }, indent as nat, del@),
{
    let prefix = make_indent(indent, del);
    let mut s = String::new();
    s.append(prefix.as_str());
    s.append("Function");
    s.append("\n");
    s.append(prefix.as_str());
    s.append(del);
    s.append("Name: ");
    s.append(f.name.as_str());
    s.append("\n");
    s.append(prefix.as_str());
    s.append(del);
    s.append("Body: ");
    s.append("\n");
    let ghost header = s@;
    let n = f.body.len();
    let mut i: usize = 0;
    proof {
        assert(f.body@.take(0) =~= Seq::<Statement>::empty());
        assert(s@ =~= header + pretty_stmts_at(f.body@.take(0), indent as nat + 2, del@));
    }
    #[verifier::loop_isolation(false)]
    while i < n
        invariant
            0 <= i <= n,
            n == f.body@.len(),
            s@ == header + pretty_stmts_at(f.body@.take(i as int), indent as nat + 2, del@),
        decreases n - i,
    {
        proof {
            lemma_stmts_depth_bound(f.body@, i as int);
            assert(f.body@.take(i as int + 1).drop_last() =~= f.body@.take(i as int));
        }
        let line = pretty_stmt_print(&f.body[i], indent + 2, del);
        s.append(line.as_str());
        i = i + 1;
    }
    proof {
        assert(f.body@.take(n as int) =~= f.body@);
        assert(s@ =~= pretty_func_at(
            Function { name: f.name, body: f.body },
            indent as nat,
            del@,
        ));
    }
    s
}

impl Type for Const {
    open spec fn pretty_spec(&self, indent: nat, del: Seq<char>) -> Seq<char> {
        pretty_expr_at(Expression::Const(Const { value: self.value }), indent, del)
    }

    open spec fn pretty_ok(&self, indent: nat) -> bool {
        indent + 2 <= u64::MAX
    }

    fn pretty_print_at(&self, indent: u64, del: &str) -> (r: String) {
        let mut s = make_indent(indent, del);
        s.append("Const ");
        let num = u64_to_string(self.value);
        s.append(num.as_str());
        s.append("\n");
        proof {
            assert(s@ =~= self.pretty_spec(indent as nat, del@));
        }
        s
    }
}

impl Type for UnOp {
    open spec fn pretty_spec(&self, indent: nat, del: Seq<char>) -> Seq<char> {
        pretty_expr_at(
            Expression::UnOp(UnOp { value: self.value, oper: self.oper }),
            indent,
            del,
        )
    }

    open spec fn pretty_ok(&self, indent: nat) -> bool {
        indent + 2 * (1 + expr_depth(*self.value)) <= u64::MAX
    }

    fn pretty_print_at(&self, indent: u64, del: &str) -> (r: String) {
        let prefix = make_indent(indent, del);
        let mut s = String::new();
        s.append(prefix.as_str());
        s.append("UnOp ");
        s.append(self.oper.as_str());
        s.append("\n");
        s.append(prefix.as_str());
        s.append(del);
        s.append("Value:");
        s.append("\n");
        let inner = pretty_expr_print(&self.value, indent + 2, del);
        s.append(inner.as_str());
        proof {
            assert(s@ =~= self.pretty_spec(indent as nat, del@));
        }
        s
    }
}

impl Type for BinOp {
    open spec fn pretty_spec(&self, indent: nat, del: Seq<char>) -> Seq<char> {
        pretty_expr_at(
            Expression::BinOp(
                BinOp { value_a: self.value_a, value_b: self.value_b, oper: self.oper },
            ),
            indent,
            del,
        )
    }

    open spec fn pretty_ok(&self, indent: nat) -> bool {
        indent + 2 * (1 + nat_max(expr_depth(*self.value_a), expr_depth(*self.value_b)))
            <= u64::MAX
    }

    fn pretty_print_at(&self, indent: u64, del: &str) -> (r: String) {
        let prefix = make_indent(indent, del);
        let mut s = String::new();
        s.append(prefix.as_str());
        s.append("BinOp '");
        s.append(self.oper.as_str());
        s.append("'");
        s.append("\n");
        s.append(prefix.as_str());
        s.append(del);
        s.append("ValueA:");
        s.append("\n");
        let left = pretty_expr_print(&self.value_a, indent + 2, del);
        s.append(left.as_str());
        s.append(prefix.as_str());
        s.append(del);
        s.append("ValueB:");
        s.append("\n");
        let right = pretty_expr_print(&self.value_b, indent + 2, del);
        s.append(right.as_str());
        proof {
            assert(s@ =~= self.pretty_spec(indent as nat, del@));
        }
        s
    }
}

impl Type for Assign {
    open spec fn pretty_spec(&self, indent: nat, del: Seq<char>) -> Seq<char> {
        pretty_expr_at(
            Expression::Assign(
                Assign { var_name: self.var_name, expression: self.expression },
            ),
            indent,
            del,
        )
    }

    open spec fn pretty_ok(&self, indent: nat) -> bool {
        indent + 2 * (1 + expr_depth(*self.expression)) <= u64::MAX
    }

    fn pretty_print_at(&self, indent: u64, del: &str) -> (r: String) {
        let prefix = make_indent(indent, del);
        let mut s = String::new();
        s.append(prefix.as_str());
        s.append("Assign");
        s.append("\n");
        s.append(prefix.as_str());
        s.append(del);
        s.append("Var: ");
        s.append(self.var_name.as_str());
        s.append("\n");
        let inner = pretty_expr_print(&self.expression, indent + 1, del);
        s.append(inner.as_str());
        proof {
            assert(s@ =~= self.pretty_spec(indent as nat, del@));
        }
        s
    }
}

impl Type for Expression {
    open spec fn pretty_spec(&self, indent: nat, del: Seq<char>) -> Seq<char> {
        pretty_expr_at(*self, indent, del)
    }

    open spec fn pretty_ok(&self, indent: nat) -> bool {
        indent + 2 * expr_depth(*self) <= u64::MAX
    }

    fn pretty_print_at(&self, indent: u64, del: &str) -> (r: String) {
        pretty_expr_print(self, indent, del)
    }
}

impl Type for Statement {
    open spec fn pretty_spec(&self, indent: nat, del: Seq<char>) -> Seq<char> {
        pretty_stmt_at(*self, indent, del)
    }

    open spec fn pretty_ok(&self, indent: nat) -> bool {
        indent + 2 * stmt_depth(*self) <= u64::MAX
    }

    fn pretty_print_at(&self, indent: u64, del: &str) -> (r: String) {
        pretty_stmt_print(self, indent, del)
    }
}

impl Type for Function {
    open spec fn pretty_spec(&self, indent: nat, del: Seq<char>) -> Seq<char> {
        pretty_func_at(Function { name: self.name, body: self.body }, indent, del)
    }

    open spec fn pretty_ok(&self, indent: nat) -> bool {
        indent + 2 * (1 + stmts_depth(self.body@)) <= u64::MAX
    }

    fn pretty_print_at(&self, indent: u64, del: &str) -> (r: String) {
        pretty_func_print(self, indent, del)
    }
}

impl Type for Program {
    open spec fn pretty_spec(&self, indent: nat, del: Seq<char>) -> Seq<char> {
        pretty_prog_at(Program { functions: self.functions }, indent, del)
    }

    open spec fn pretty_ok(&self, indent: nat) -> bool {
        indent + 2 * (2 + funcs_depth(self.functions@)) <= u64::MAX
    }

    fn pretty_print_at(&self, indent: u64, del: &str) -> (r: String) {
        let prefix = make_indent(indent, del);
        let mut s = String::new();
        s.append(prefix.as_str());
        s.append("Program");
        s.append("\n");
        s.append(prefix.as_str());
        s.append(del);
        s.append("Functions: ");
        s.append("\n");
        let ghost header = s@;
        let n = self.functions.len();
        let mut i: usize = 0;
        proof {
            assert(self.functions@.take(0) =~= Seq::<Function>::empty());
            assert(s@ =~= header + pretty_funcs_at(
                self.functions@.take(0),
                indent as nat + 2,
                del@,
            ));
        }
        #[verifier::loop_isolation(false)]
        while i < n
            invariant
                0 <= i <= n,
                n == self.functions@.len(),
                s@ == header + pretty_funcs_at(
                    self.functions@.take(i as int),
                    indent as nat + 2,
                    del@,
                ),
            decreases n - i,
        {
            proof {
                lemma_funcs_depth_bound(self.functions@, i as int);
                assert(self.functions@.take(i as int + 1).drop_last() =~= self.functions@.take(
                    i as int,
                ));
            }
            let block = pretty_func_print(&self.functions[i], indent + 2, del);
            s.append(block.as_str());
            i = i + 1;
        }
        proof {
            assert(self.functions@.take(n as int) =~= self.functions@);
            assert(s@ =~= self.pretty_spec(indent as nat, del@));
        }
        s
    }
}

} // verus!
