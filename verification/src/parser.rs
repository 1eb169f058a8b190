//! Recursive-descent parser with precedence climbing: turns the lexer's
//! token stream into the AST of `ast`. Six operator levels, lowest
//! precedence first, with `*` and `/` recognized by the table but rejected
//! as operators of the expression language.

use std::collections::VecDeque;

use vstd::prelude::*;

use crate::ast;
use crate::ast::{
    bin_op_from_chars, expr_view, func_view, stmt_view, stmts_view, un_op_from_chars, Assign,
    BinOp, BinOpType, Const, ExprV, Expression, Statement, StmtV, UnOp, UnOpType,
};
use crate::lexer::{tokens_view, Token, TokenType, TokenV};
use crate::text::{dec_value_opt, parse_u64, str_eq};

verus! {

/// How many operator precedence levels the climber distinguishes.
pub const OP_LEN: i64 = 6;

/// A fault of the front end: the token stream does not form a program.
#[derive(Debug)]
pub struct ParseError {
    text: String,
}

impl ParseError {
    /// The error's message.
    pub closed spec fn spec_text(&self) -> Seq<char> {
        self.text@
    }

    pub fn new(msg: &str) -> (e: ParseError)
        ensures
            e.spec_text() == msg@,
    {
        ParseError { text: msg.to_owned() }
    }

    /// The error's message.
    pub fn message(&self) -> (r: &str)
        ensures
            r@ == self.spec_text(),
    {
        self.text.as_str()
    }
}

/// The operator spellings of one precedence level, lowest first.
pub open spec fn op_at_level(s: Seq<char>, depth: int) -> bool {
    if depth == 0 {
        s == "||"@
    } else if depth == 1 {
        s == "&&"@
    } else if depth == 2 {
        s == "!="@ || s == "=="@
    } else if depth == 3 {
        s == "<"@ || s == ">"@ || s == "<="@ || s == ">="@
    } else if depth == 4 {
        s == "+"@ || s == "-"@
    } else {
        s == "*"@ || s == "/"@
    }
}

fn is_op_at_level(s: &str, depth: i64) -> (b: bool)
    requires
        0 <= depth < 6,
    ensures
        b == op_at_level(s@, depth as int),
{
    if depth == 0 {
        str_eq(s, "||")
    } else if depth == 1 {
        str_eq(s, "&&")
    } else if depth == 2 {
        str_eq(s, "!=") || str_eq(s, "==")
    } else if depth == 3 {
        str_eq(s, "<") || str_eq(s, ">") || str_eq(s, "<=") || str_eq(s, ">=")
    } else if depth == 4 {
        str_eq(s, "+") || str_eq(s, "-")
    } else {
        str_eq(s, "*") || str_eq(s, "/")
    }
}

/// Parsing a factor: an integer literal, or a unary operator applied to a
/// factor. Bracketed expressions and identifiers are recognized token
/// kinds the minimal grammar does not support yet.
pub open spec fn parse_factor_spec(t: Seq<TokenV>) -> Option<(ExprV, Seq<TokenV>)>
    decreases t.len(),
{
    if t.len() == 0 {
        None
    } else {
        let tok = t[0];
        let rest = t.skip(1);
        match tok.0 {
            TokenType::INT => match dec_value_opt(tok.1) {
                Some(v) => Some((ExprV::Const(v), rest)),
                None => None,
            },
            TokenType::OPER => match un_op_from_chars(tok.1) {
                None => None,
                Some(op) => match parse_factor_spec(rest) {
                    None => None,
                    Some((inner, rest2)) => Some((ExprV::UnOp(op, Box::new(inner)), rest2)),
                },
            },
            _ => None,
        }
    }
}

/// Parsing the operator chain of one precedence level: as long as the next
/// token is an operator of this level, parse the right operand at the same
/// level and fold it into the accumulated left operand.
pub open spec fn parse_binchain_spec(acc: ExprV, t: Seq<TokenV>, depth: int) -> Option<
    (ExprV, Seq<TokenV>),
>
    decreases t.len(), 6 - depth, 0int,
{
    if t.len() > 0 && t[0].0 == TokenType::OPER && op_at_level(t[0].1, depth) {
        match bin_op_from_chars(t[0].1) {
            None => None,
            Some(op) => match parse_exp_nassign_spec(t.skip(1), depth) {
                None => None,
                Some((rhs, rest2)) => {
                    if rest2.len() < t.len() {
                        parse_binchain_spec(
                            ExprV::BinOp(op, Box::new(acc), Box::new(rhs)),
                            rest2,
                            depth,
                        )
                    } else {
                        None
                    }
                },
            },
        }
    } else {
        Some((acc, t))
    }
}

/// Parsing a non-assignment expression at one precedence level: the first
/// term comes from the next level (or a factor at the deepest level), then
/// the level's operator chain.
pub open spec fn parse_exp_nassign_spec(t: Seq<TokenV>, depth: int) -> Option<
    (ExprV, Seq<TokenV>),
>
    decreases t.len(), 6 - depth, 1int,
{
    let first = if depth + 1 < 6 {
        parse_exp_nassign_spec(t, depth + 1)
    } else {
        parse_factor_spec(t)
    };
    match first {
        None => None,
        Some((term, rest)) => {
            if rest.len() <= t.len() {
                parse_binchain_spec(term, rest, depth)
            } else {
                None
            }
        },
    }
}

/// Parsing an expression: `name = e` when an `=` follows the first token,
/// otherwise a non-assignment expression from the lowest level.
pub open spec fn parse_exp_spec(t: Seq<TokenV>) -> Option<(ExprV, Seq<TokenV>)> {
    if t.len() > 1 && t[1].1 == "="@ {
        if !(t[0].0 == TokenType::IDENT) {
            None
        } else {
            match parse_exp_nassign_spec(t.skip(2), 0) {
                None => None,
                Some((e, rest)) => Some((ExprV::Assign(t[0].1, Box::new(e)), rest)),
            }
        }
    } else {
        parse_exp_nassign_spec(t, 0)
    }
}

/// Parsing one statement: only `return e ;` is supported.
pub open spec fn parse_statement_spec(t: Seq<TokenV>) -> Option<(StmtV, Seq<TokenV>)> {
    if t.len() == 0 {
        None
    } else if t[0].1 == "return"@ {
        match parse_exp_spec(t.skip(1)) {
            None => None,
            Some((e, rest)) => {
                if rest.len() > 0 && rest[0].0 == TokenType::SEMICOLON {
                    Some((StmtV::RETURN(e), rest.skip(1)))
                } else {
                    None
                }
            },
        }
    } else {
        None
    }
}

/// Parsing a function body: statements until the closing brace, which is
/// left in the stream.
pub open spec fn parse_body_spec(t: Seq<TokenV>) -> Option<(Seq<StmtV>, Seq<TokenV>)>
    decreases t.len(),
{
    if t.len() == 0 {
        None
    } else if t[0].1 == "}"@ {
        Some((Seq::empty(), t))
    } else {
        match parse_statement_spec(t) {
            None => None,
            Some((s, rest)) => {
                if rest.len() < t.len() {
                    match parse_body_spec(rest) {
                        None => None,
                        Some((ss, rest2)) => Some((seq![s] + ss, rest2)),
                    }
                } else {
                    None
                }
            },
        }
    }
}

/// Parsing a program: zero or more functions, each of the fixed shape
/// `int main ( ) { <body> }`.
pub open spec fn parse_funcs_spec(t: Seq<TokenV>) -> Option<Seq<(Seq<char>, Seq<StmtV>)>>
    decreases t.len(),
{
    if t.len() == 0 {
        Some(Seq::empty())
    } else if t.len() < 5 {
        None
    } else if !(t[0].1 == "int"@) {
        None
    } else if !(t[1].0 == TokenType::IDENT) {
        None
    } else if !(t[1].1 == "main"@) {
        None
    } else if !(t[2].1 == "("@) {
        None
    } else if !(t[3].1 == ")"@) {
        None
    } else if !(t[4].1 == "{"@) {
        None
    } else {
        match parse_body_spec(t.skip(5)) {
            None => None,
            Some((body, rest)) => {
                if 0 < rest.len() && rest.len() < t.len() {
                    match parse_funcs_spec(rest.skip(1)) {
                        None => None,
                        Some(fs) => Some(seq![(t[1].1, body)] + fs),
                    }
                } else {
                    None
                }
            },
        }
    }
}

/// A parsed factor consumes at least one token.
proof fn lemma_factor_consumes(t: Seq<TokenV>)
    ensures
        parse_factor_spec(t) matches Some((e, r)) ==> r.len() < t.len(),
    decreases t.len(),
{
    if t.len() > 0 {
        lemma_factor_consumes(t.skip(1));
    }
}

/// A parsed operator chain consumes no tokens beyond its input.
proof fn lemma_chain_bound(acc: ExprV, t: Seq<TokenV>, depth: int)
    ensures
        parse_binchain_spec(acc, t, depth) matches Some((e, r)) ==> r.len() <= t.len(),
    decreases t.len(), 6 - depth, 0int,
{
    if t.len() > 0 && t[0].0 == TokenType::OPER && op_at_level(t[0].1, depth) {
        match bin_op_from_chars(t[0].1) {
            None => {},
            Some(op) => {
                lemma_nassign_consumes(t.skip(1), depth);
                match parse_exp_nassign_spec(t.skip(1), depth) {
                    None => {},
                    Some((rhs, rest2)) => {
                        if rest2.len() < t.len() {
                            lemma_chain_bound(
                                ExprV::BinOp(op, Box::new(acc), Box::new(rhs)),
                                rest2,
                                depth,
                            );
                        }
                    },
                }
            },
        }
    }
}

/// A parsed non-assignment expression consumes at least one token.
proof fn lemma_nassign_consumes(t: Seq<TokenV>, depth: int)
    ensures
        parse_exp_nassign_spec(t, depth) matches Some((e, r)) ==> r.len() < t.len(),
    decreases t.len(), 6 - depth, 1int,
{
    if depth + 1 < 6 {
        lemma_nassign_consumes(t, depth + 1);
    } else {
        lemma_factor_consumes(t);
    }
    let first = if depth + 1 < 6 {
        parse_exp_nassign_spec(t, depth + 1)
    } else {
        parse_factor_spec(t)
    };
    match first {
        None => {},
        Some((term, rest)) => {
            if rest.len() <= t.len() {
                lemma_chain_bound(term, rest, depth);
            }
        },
    }
}

/// A parsed expression consumes at least one token.
proof fn lemma_exp_consumes(t: Seq<TokenV>)
    ensures
        parse_exp_spec(t) matches Some((e, r)) ==> r.len() < t.len(),
{
    lemma_nassign_consumes(t, 0);
    if t.len() > 1 && t[1].1 == "="@ {
        lemma_nassign_consumes(t.skip(2), 0);
    }
}

/// A parsed statement consumes at least one token.
proof fn lemma_statement_consumes(t: Seq<TokenV>)
    ensures
        parse_statement_spec(t) matches Some((s, r)) ==> r.len() < t.len(),
{
    if t.len() > 0 {
        lemma_exp_consumes(t.skip(1));
    }
}

/// A parsed function body consumes no tokens beyond its input.
proof fn lemma_body_bound(t: Seq<TokenV>)
    ensures
        parse_body_spec(t) matches Some((ss, r)) ==> 0 < r.len() <= t.len(),
    decreases t.len(),
{
    if t.len() == 0 {
    } else if t[0].1 == "}"@ {
    } else {
        lemma_statement_consumes(t);
        match parse_statement_spec(t) {
            None => {},
            Some((s, rest)) => {
                if rest.len() < t.len() {
                    lemma_body_bound(rest);
                }
            },
        }
    }
}

/// Parses one factor off the front of the stream. The result is pinned by
/// `parse_factor_spec` on the stream's view: it succeeds with exactly the
/// expression the grammar gives, and fails exactly when the grammar
/// rejects the stream.
pub fn parse_factor(tokens: &mut VecDeque<Token>) -> (r: Result<Expression, ParseError>)
    ensures
        match r {
            Ok(e) => parse_factor_spec(tokens_view(old(tokens)@)) matches Some((ev, rest))
                && expr_view(e) == ev && tokens_view(final(tokens)@) == rest,
            Err(_) => parse_factor_spec(tokens_view(old(tokens)@)) is None,
        },
    decreases tokens@.len(),
{
    let ghost tv = tokens_view(old(tokens)@);
    let next_token = match tokens.pop_front() {
        Some(t) => t,
        None => {
            return Err(ParseError::new("Wrong token in factor"));
        },
    };
    proof {
        assert(tv[0] == next_token@);
        assert(tokens_view(tokens@) =~= tv.skip(1));
    }
    match *next_token.token_type() {
        TokenType::INT => match parse_u64(next_token.text()) {
            Some(v) => Ok(Expression::Const(Const { value: v })),
            None => Err(ParseError::new("Invalid integer constant")),
        },
        TokenType::OPER => {
            let oper = match UnOpType::from_str(next_token.text()) {
                Ok(op) => op,
                Err(_) => {
                    let mut msg = String::new();
                    msg.append("Invalid unary operator: ");
                    msg.append(next_token.text());
                    return Err(ParseError::new(msg.as_str()));
                },
            };
            let inner = match parse_factor(tokens) {
                Ok(e) => e,
                Err(e) => {
                    return Err(e);
                },
            };
            Ok(Expression::UnOp(UnOp { value: Box::new(inner), oper }))
        },
        _ => Err(ParseError::new("Wrong token in factor")),
    }
}

/// Parses a non-assignment expression at the given precedence level. The
/// result is pinned by `parse_exp_nassign_spec` on the stream's view.
pub fn parse_exp_nassign(tokens: &mut VecDeque<Token>, depth: i64) -> (r: Result<
    Expression,
    ParseError,
>)
    requires
        0 <= depth < 6,
    ensures
        match r {
            Ok(e) => parse_exp_nassign_spec(tokens_view(old(tokens)@), depth as int) matches Some(
                (ev, rest),
            ) && expr_view(e) == ev && tokens_view(final(tokens)@) == rest,
            Err(_) => parse_exp_nassign_spec(tokens_view(old(tokens)@), depth as int) is None,
        },
    decreases tokens@.len(), 6 - depth,
{
    let ghost tv = tokens_view(old(tokens)@);
    let mut term = if depth + 1 < OP_LEN {
        match parse_exp_nassign(tokens, depth + 1) {
            Ok(e) => e,
            Err(e) => {
                return Err(e);
            },
        }
    } else {
        match parse_factor(tokens) {
            Ok(e) => e,
            Err(e) => {
                return Err(e);
            },
        }
    };
    proof {
        if depth + 1 < 6 {
            lemma_nassign_consumes(tv, depth as int + 1);
        } else {
            lemma_factor_consumes(tv);
        }
        assert(parse_exp_nassign_spec(tv, depth as int) == parse_binchain_spec(
            expr_view(term),
            tokens_view(tokens@),
            depth as int,
        ));
    }
    loop
        invariant
            0 <= depth < 6,
            tv == tokens_view(old(tokens)@),
            tokens@.len() < old(tokens)@.len(),
            parse_exp_nassign_spec(tv, depth as int) == parse_binchain_spec(
                expr_view(term),
                tokens_view(tokens@),
                depth as int,
            ),
        ensures
            parse_exp_nassign_spec(tv, depth as int) == Some(
                (expr_view(term), tokens_view(tokens@)),
            ),
        decreases tokens@.len(),
    {
        let ghost cur = tokens_view(tokens@);
        let chain_on = if tokens.len() == 0 {
            false
        } else {
            let t0 = &tokens[0];
            match *t0.token_type() {
                TokenType::OPER => is_op_at_level(t0.text(), depth),
                _ => false,
            }
        };
        if !chain_on {
            proof {
                assert(parse_binchain_spec(expr_view(term), cur, depth as int) == Some(
                    (expr_view(term), cur),
                ));
            }
            break ;
        }
        let oper_token = match tokens.pop_front() {
            Some(t) => t,
            None => unreached(),
        };
        proof {
            assert(cur[0] == oper_token@);
            assert(tokens_view(tokens@) =~= cur.skip(1));
        }
        let oper = match BinOpType::from_str(oper_token.text()) {
            Ok(op) => op,
            Err(_) => {
                return Err(ParseError::new("Invalid binary operator: "));
            },
        };
        let next_term = match parse_exp_nassign(tokens, depth) {
            Ok(e) => e,
            Err(e) => {
                return Err(e);
            },
        };
        proof {
            lemma_nassign_consumes(cur.skip(1), depth as int);
        }
        term = Expression::BinOp(
            BinOp { value_a: Box::new(term), value_b: Box::new(next_term), oper },
        );
    }
    Ok(term)
}

/// Parses an expression: an assignment when an `=` follows the first
/// token, otherwise a non-assignment expression. The result is pinned by
/// `parse_exp_spec` on the stream's view.
pub fn parse_exp(tokens: &mut VecDeque<Token>) -> (r: Result<Expression, ParseError>)
    ensures
        match r {
            Ok(e) => parse_exp_spec(tokens_view(old(tokens)@)) matches Some((ev, rest))
                && expr_view(e) == ev && tokens_view(final(tokens)@) == rest,
            Err(_) => parse_exp_spec(tokens_view(old(tokens)@)) is None,
        },
{
    let ghost tv = tokens_view(old(tokens)@);
    let is_assign = if tokens.len() > 1 {
        str_eq(tokens[1].text(), "=")
    } else {
        false
    };
    if is_assign {
        let ident_ok = match *tokens[0].token_type() {
            TokenType::IDENT => true,
            _ => false,
        };
        if !ident_ok {
            return Err(ParseError::new("Assignment must name a variable"));
        }
        let name_token = match tokens.pop_front() {
            Some(t) => t,
            None => unreached(),
        };
        let var_name = name_token.text().to_owned();
        let _ = tokens.pop_front();
        proof {
            assert(tv[0] == name_token@);
            assert(tokens_view(tokens@) =~= tv.skip(2));
        }
        let exp = match parse_exp_nassign(tokens, 0) {
            Ok(e) => e,
            Err(e) => {
                return Err(e);
            },
        };
        Ok(Expression::Assign(Assign { var_name, expression: Box::new(exp) }))
    } else {
        parse_exp_nassign(tokens, 0)
    }
}

/// Parses one statement: only `return e ;`. The result is pinned by
/// `parse_statement_spec` on the stream's view.
pub fn parse_statement(tokens: &mut VecDeque<Token>) -> (r: Result<Statement, ParseError>)
    ensures
        match r {
            Ok(st) => parse_statement_spec(tokens_view(old(tokens)@)) matches Some((sv, rest))
                && stmt_view(st) == sv && tokens_view(final(tokens)@) == rest,
            Err(_) => parse_statement_spec(tokens_view(old(tokens)@)) is None,
        },
{
    let ghost tv = tokens_view(old(tokens)@);
    if tokens.len() == 0 {
        return Err(ParseError::new("Something went wrong"));
    }
    let is_return = str_eq(tokens[0].text(), "return");
    if !is_return {
        return Err(ParseError::new("Something went wrong"));
    }
    let _ = tokens.pop_front();
    proof {
        assert(tokens_view(tokens@) =~= tv.skip(1));
    }
    let exp = match parse_exp(tokens) {
        Ok(e) => e,
        Err(e) => {
            return Err(e);
        },
    };
    if tokens.len() == 0 {
        return Err(ParseError::new("Statement must end semicolon"));
    }
    let semi_ok = match *tokens[0].token_type() {
        TokenType::SEMICOLON => true,
        _ => false,
    };
    if !semi_ok {
        return Err(ParseError::new("Statement must end semicolon"));
    }
    let ghost before_semi = tokens_view(tokens@);
    let _ = tokens.pop_front();
    proof {
        assert(tokens_view(tokens@) =~= before_semi.skip(1));
    }
    Ok(Statement::RETURN(exp))
}

/// Parses a whole program: functions of the fixed shape
/// `int main ( ) { <body> }` until the stream is empty. The result is
/// pinned by `parse_funcs_spec` on the stream's view.
pub fn parse_program(tokens: VecDeque<Token>) -> (r: Result<ast::Program, ParseError>)
    ensures
        match r {
            Ok(p) => parse_funcs_spec(tokens_view(tokens@)) matches Some(fs)
                && crate::ast::prog_view(p) == fs,
            Err(_) => parse_funcs_spec(tokens_view(tokens@)) is None,
        },
{
    let ghost orig = tokens_view(tokens@);
    let mut tokens = tokens;
    let mut functions: Vec<ast::Function> = Vec::new();
    proof {
        assert(functions@.map(|i: int, f: ast::Function| func_view(f)) =~= Seq::<
            (Seq<char>, Seq<StmtV>),
        >::empty());
    }
    #[verifier::loop_isolation(false)]
    while tokens.len() > 0
        invariant
            parse_funcs_spec(orig) == (match parse_funcs_spec(tokens_view(tokens@)) {
                None => None::<Seq<(Seq<char>, Seq<StmtV>)>>,
                Some(fs) => Some(
                    functions@.map(|i: int, f: ast::Function| func_view(f)) + fs,
                ),
            }),
        decreases tokens@.len(),
    {
        let ghost cur = tokens_view(tokens@);
        if tokens.len() < 5 {
            return Err(ParseError::new("Incomplete function header"));
        }
        if !str_eq(tokens[0].text(), "int") {
            return Err(ParseError::new("First token must be int"));
        }
        let name_ok = match *tokens[1].token_type() {
            TokenType::IDENT => true,
            _ => false,
        };
        if !name_ok {
            return Err(ParseError::new("Function name not supplied"));
        }
        let fname = tokens[1].text().to_owned();
        if !str_eq(fname.as_str(), "main") {
            return Err(ParseError::new("Function name must be main"));
        }
        if !str_eq(tokens[2].text(), "(") {
            return Err(ParseError::new("Must have '(' after argument"));
        }
        if !str_eq(tokens[3].text(), ")") {
            return Err(ParseError::new("Function cannot have arguments"));
        }
        if !str_eq(tokens[4].text(), "{") {
            return Err(ParseError::new("Function cannot have arguments"));
        }
        proof {
            assert(cur[0] == tokens@[0]@);
            assert(cur[1] == tokens@[1]@);
            assert(cur[2] == tokens@[2]@);
            assert(cur[3] == tokens@[3]@);
            assert(cur[4] == tokens@[4]@);
            assert(cur[1].1 == fname@);
        }
        tokens = tokens.split_off(5);
        proof {
            assert(tokens_view(tokens@) =~= cur.skip(5));
        }
        let ghost body_entry = tokens_view(tokens@);
        proof {
            if parse_body_spec(body_entry) is None {
                assert(parse_funcs_spec(cur) is None);
            }
        }
        let mut fbody: Vec<Statement> = Vec::new();
        let mut pending: Option<ParseError> = None;
        proof {
            assert(stmts_view(fbody@) =~= Seq::<StmtV>::empty());
        }
        loop
            invariant_except_break
                pending is None,
                parse_body_spec(body_entry) == (match parse_body_spec(tokens_view(tokens@)) {
                    None => None::<(Seq<StmtV>, Seq<TokenV>)>,
                    Some((ss, rest)) => Some((stmts_view(fbody@) + ss, rest)),
                }),
                tokens@.len() <= body_entry.len(),
            ensures
                match pending {
                    None => parse_body_spec(body_entry) == Some(
                        (stmts_view(fbody@), tokens_view(tokens@)),
                    ) && tokens@.len() <= body_entry.len() && tokens@.len() > 0
                        && tokens@[0]@.1 == "}"@,
                    Some(_) => parse_body_spec(body_entry) is None,
                },
            decreases tokens@.len(),
        {
            if tokens.len() == 0 {
                pending = Some(ParseError::new("Function body is not closed"));
                break ;
            }
            if str_eq(tokens[0].text(), "}") {
                proof {
                    assert(parse_body_spec(tokens_view(tokens@)) == Some(
                        (Seq::<StmtV>::empty(), tokens_view(tokens@)),
                    ));
                    assert(stmts_view(fbody@) + Seq::<StmtV>::empty() =~= stmts_view(fbody@));
                }
                break ;
            }
            let ghost inner_cur = tokens_view(tokens@);
            let statement = match parse_statement(&mut tokens) {
                Ok(s) => s,
                Err(e) => {
                    pending = Some(e);
                    break ;
                },
            };
            proof {
                lemma_statement_consumes(inner_cur);
            }
            let ghost prev_body = fbody@;
            fbody.push(statement);
            proof {
                assert(stmts_view(fbody@) =~= stmts_view(prev_body).push(stmt_view(statement)));
                match parse_body_spec(tokens_view(tokens@)) {
                    None => {},
                    Some((ss, rest)) => {
                        assert(stmts_view(fbody@) + ss =~= stmts_view(prev_body) + (seq![
                            stmt_view(statement),
                        ] + ss));
                    },
                }
            }
        }
        match pending {
            Some(e) => {
                return Err(e);
            },
            None => {},
        }
        proof {
            lemma_body_bound(body_entry);
        }
        let ghost after_body = tokens_view(tokens@);
        let _ = tokens.pop_front();
        proof {
            assert(tokens_view(tokens@) =~= after_body.skip(1));
        }
        let func = ast::Function { name: fname, body: fbody };
        let ghost prev_funcs = functions@;
        functions.push(func);
        proof {
            assert(functions@.map(|i: int, f: ast::Function| func_view(f)) =~= prev_funcs.map(
                |i: int, f: ast::Function| func_view(f),
            ).push(func_view(func)));
            match parse_funcs_spec(tokens_view(tokens@)) {
                None => {},
                Some(fs) => {
                    assert(functions@.map(|i: int, f: ast::Function| func_view(f)) + fs
                        =~= prev_funcs.map(|i: int, f: ast::Function| func_view(f)) + (seq![
                        func_view(func),
                    ] + fs));
                },
            }
        }
    }
    proof {
        assert(parse_funcs_spec(tokens_view(tokens@)) == Some(
            Seq::<(Seq<char>, Seq<StmtV>)>::empty(),
        ));
        assert(functions@.map(|i: int, f: ast::Function| func_view(f)) + Seq::<
            (Seq<char>, Seq<StmtV>),
        >::empty() =~= functions@.map(|i: int, f: ast::Function| func_view(f)));
    }
    let program = ast::Program { functions };
    proof {
        assert(crate::ast::prog_view(program) =~= program.functions@.map(
            |i: int, f: ast::Function| func_view(f),
        ));
    }
    Ok(program)
}

} // verus!
