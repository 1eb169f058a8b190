use std::collections::VecDeque;

use minicc::ast::{BinOpType, Expression, Statement, Type, UnOpType};
use minicc::lexer::{lex, TokenType};
use minicc::parser::{parse_exp, parse_factor, parse_program, parse_statement};
use minicc::text::{parse_u64, str_eq, u64_to_string};

fn kinds_and_texts(src: &str) -> Vec<(TokenType, String)> {
    lex(src)
        .unwrap()
        .iter()
        .map(|t| (*t.token_type(), t.text().to_string()))
        .collect()
}

#[test]
fn lex_simple_program() {
    let tokens = kinds_and_texts("int main() {\n    return 2 + 2;\n}");
    let expected = vec![
        (TokenType::IDENT, "int".to_string()),
        (TokenType::IDENT, "main".to_string()),
        (TokenType::PARENTH, "(".to_string()),
        (TokenType::PARENTH, ")".to_string()),
        (TokenType::PARENTH, "{".to_string()),
        (TokenType::IDENT, "return".to_string()),
        (TokenType::INT, "2".to_string()),
        (TokenType::OPER, "+".to_string()),
        (TokenType::INT, "2".to_string()),
        (TokenType::SEMICOLON, ";".to_string()),
        (TokenType::PARENTH, "}".to_string()),
    ];
    assert_eq!(tokens, expected);
}

#[test]
fn lex_identifier_and_integer_runs_are_maximal() {
    let tokens = kinds_and_texts("abc1_x 12345");
    assert_eq!(
        tokens,
        vec![
            (TokenType::IDENT, "abc1_x".to_string()),
            (TokenType::INT, "12345".to_string()),
        ]
    );
}

#[test]
fn lex_two_char_operators() {
    let tokens = kinds_and_texts("a && b || c == d");
    let texts: Vec<String> = tokens.iter().map(|(_, t)| t.clone()).collect();
    assert_eq!(texts, vec!["a", "&&", "b", "||", "c", "==", "d"]);
    assert_eq!(tokens[1].0, TokenType::OPER);
    assert_eq!(tokens[3].0, TokenType::OPER);
    assert_eq!(tokens[5].0, TokenType::OPER);
}

#[test]
fn lex_priority_splits_compound_comparisons() {
    // The single-character forms win: `<=`, `>=` and `!=` come out as two
    // tokens each, `==` as one.
    let texts: Vec<String> =
        kinds_and_texts("a <= b >= c != d").iter().map(|(_, t)| t.clone()).collect();
    assert_eq!(texts, vec!["a", "<", "=", "b", ">", "=", "c", "!", "=", "d"]);
}

#[test]
fn lex_rejects_stray_ampersand() {
    assert!(lex("a & b").is_err());
    assert!(lex("@").is_err());
    let err = lex("2 + \u{7}").unwrap_err();
    assert!(err.message().starts_with("Unknown token at '"));
}

#[test]
fn lex_empty_and_whitespace_only() {
    assert!(lex("").unwrap().is_empty());
    assert!(lex(" \n\t ").unwrap().is_empty());
}

#[test]
fn parse_factor_reads_constants_and_unary_chains() {
    let mut tokens = VecDeque::from(lex("42 rest").unwrap());
    let expr = parse_factor(&mut tokens).unwrap();
    match expr {
        Expression::Const(c) => assert_eq!(c.value, 42),
        _ => panic!("expected a constant"),
    }
    assert_eq!(tokens.len(), 1);

    let mut tokens = VecDeque::from(lex("-~1").unwrap());
    let expr = parse_factor(&mut tokens).unwrap();
    match expr {
        Expression::UnOp(u) => {
            assert_eq!(u.oper, UnOpType::Negate);
            match *u.value {
                Expression::UnOp(inner) => assert_eq!(inner.oper, UnOpType::Complement),
                _ => panic!("expected a nested unary node"),
            }
        },
        _ => panic!("expected a unary node"),
    }
}

#[test]
fn parse_factor_rejects_oversized_integer() {
    let mut tokens = VecDeque::from(lex("18446744073709551615").unwrap());
    assert!(parse_factor(&mut tokens).is_ok());
    let mut tokens = VecDeque::from(lex("18446744073709551616").unwrap());
    let err = parse_factor(&mut tokens).unwrap_err();
    assert_eq!(err.message(), "Invalid integer constant");
}

#[test]
fn parse_exp_builds_left_leaning_sums() {
    // The climber recurses at the same level for the right operand, so
    // `1 + 2 - 3` parses right-leaning: BinOp(+, 1, BinOp(-, 2, 3)).
    let mut tokens = VecDeque::from(lex("1 + 2 - 3;").unwrap());
    let expr = parse_exp(&mut tokens).unwrap();
    match expr {
        Expression::BinOp(b) => {
            assert_eq!(b.oper, BinOpType::Add);
            match (*b.value_a, *b.value_b) {
                (Expression::Const(l), Expression::BinOp(r)) => {
                    assert_eq!(l.value, 1);
                    assert_eq!(r.oper, BinOpType::Subtract);
                },
                _ => panic!("unexpected tree shape"),
            }
        },
        _ => panic!("expected a binary node"),
    }
}

#[test]
fn parse_exp_rejects_star_operator() {
    let mut tokens = VecDeque::from(lex("1 * 2;").unwrap());
    let err = parse_exp(&mut tokens).unwrap_err();
    assert_eq!(err.message(), "Invalid binary operator: ");
}

#[test]
fn parse_exp_reads_assignment() {
    let mut tokens = VecDeque::from(lex("x = 3;").unwrap());
    let expr = parse_exp(&mut tokens).unwrap();
    match expr {
        Expression::Assign(a) => {
            assert_eq!(a.var_name, "x");
            match *a.expression {
                Expression::Const(c) => assert_eq!(c.value, 3),
                _ => panic!("expected a constant"),
            }
        },
        _ => panic!("expected an assignment"),
    }
}

#[test]
fn parse_statement_requires_semicolon() {
    let mut tokens = VecDeque::from(lex("return 1").unwrap());
    let err = parse_statement(&mut tokens).unwrap_err();
    assert_eq!(err.message(), "Statement must end semicolon");

    let mut tokens = VecDeque::from(lex("return 1;").unwrap());
    let stmt = parse_statement(&mut tokens).unwrap();
    assert!(matches!(stmt, Statement::RETURN(_)));
    assert_eq!(tokens.len(), 0);
}

#[test]
fn parse_program_accepts_main() {
    let tokens = VecDeque::from(lex("int main() { return 3; }").unwrap());
    let program = parse_program(tokens).unwrap();
    assert_eq!(program.functions.len(), 1);
    assert_eq!(program.functions[0].name, "main");
    assert_eq!(program.functions[0].body.len(), 1);
}

#[test]
fn parse_program_rejects_bad_headers() {
    let tokens = VecDeque::from(lex("float main() { return 3; }").unwrap());
    assert_eq!(parse_program(tokens).unwrap_err().message(), "First token must be int");

    let tokens = VecDeque::from(lex("int other() { return 3; }").unwrap());
    assert_eq!(parse_program(tokens).unwrap_err().message(), "Function name must be main");

    let tokens = VecDeque::from(lex("int main( { return 3; }").unwrap());
    assert!(parse_program(tokens).is_err());

    let tokens = VecDeque::from(lex("int main() { return 3;").unwrap());
    assert!(parse_program(tokens).is_err());

    let tokens = VecDeque::from(lex("int").unwrap());
    assert!(parse_program(tokens).is_err());
}

#[test]
fn parse_program_accepts_empty_stream() {
    let tokens = VecDeque::from(lex("").unwrap());
    let program = parse_program(tokens).unwrap();
    assert!(program.functions.is_empty());
}

#[test]
fn un_op_type_from_str_covers_all_spellings() {
    assert_eq!(UnOpType::from_str("-").unwrap(), UnOpType::Negate);
    assert_eq!(UnOpType::from_str("~").unwrap(), UnOpType::Complement);
    assert_eq!(UnOpType::from_str("!").unwrap(), UnOpType::Not);
    let err = UnOpType::from_str("+").unwrap_err();
    assert_eq!(err.message(), "Unknown operation: +");
    assert_eq!(UnOpType::Negate.as_str(), "-");
    assert_eq!(UnOpType::Complement.as_str(), "~");
    assert_eq!(UnOpType::Not.as_str(), "!");
}

#[test]
fn bin_op_type_from_str_covers_all_spellings() {
    let cases = [
        ("||", BinOpType::BitwiseOr),
        ("&&", BinOpType::BitWiseAnd),
        ("!=", BinOpType::NotEqual),
        ("==", BinOpType::Equal),
        ("<", BinOpType::LessThan),
        (">", BinOpType::GreaterThan),
        ("<=", BinOpType::LessThanOrEq),
        (">=", BinOpType::GreaterThanOrEq),
        ("+", BinOpType::Add),
        ("-", BinOpType::Subtract),
    ];
    for (text, oper) in cases {
        assert_eq!(BinOpType::from_str(text).unwrap(), oper);
        assert_eq!(oper.as_str(), text);
    }
    let err = BinOpType::from_str("*").unwrap_err();
    assert_eq!(err.message(), "Unknown operation: *");
}

#[test]
fn text_utilities_round_numbers_and_compare() {
    assert_eq!(u64_to_string(0), "0");
    assert_eq!(u64_to_string(7), "7");
    assert_eq!(u64_to_string(1234567890), "1234567890");
    assert_eq!(u64_to_string(u64::MAX), "18446744073709551615");
    assert_eq!(parse_u64("0"), Some(0));
    assert_eq!(parse_u64("18446744073709551615"), Some(u64::MAX));
    assert_eq!(parse_u64("18446744073709551616"), None);
    assert_eq!(parse_u64(""), None);
    assert_eq!(parse_u64("12a"), None);
    assert_eq!(parse_u64("+12"), None);
    assert!(str_eq("abc", "abc"));
    assert!(!str_eq("abc", "abd"));
    assert!(!str_eq("abc", "ab"));
}

#[test]
fn pretty_print_renders_indented_tree() {
    let tokens = VecDeque::from(lex("int main() { return 2 + 2; }").unwrap());
    let program = parse_program(tokens).unwrap();
    let expected = [
        "Program\n",
        "   Functions: \n",
        "      Function\n",
        "         Name: main\n",
        "         Body: \n",
        "            RETURN Statement with value:\n",
        "               BinOp '+'\n",
        "                  ValueA:\n",
        "                     Const 2\n",
        "                  ValueB:\n",
        "                     Const 2\n",
    ]
    .concat();
    assert_eq!(program.pretty_print(), expected);
}

#[test]
fn pretty_print_statement_kinds() {
    let mut tokens = VecDeque::from(lex("return -1;").unwrap());
    let stmt = parse_statement(&mut tokens).unwrap();
    let expected = [
        "RETURN Statement with value:\n",
        "   UnOp -\n",
        "      Value:\n",
        "         Const 1\n",
    ]
    .concat();
    assert_eq!(stmt.pretty_print(), expected);
}
