use std::collections::VecDeque;

use minicc::emit::{Dialect, Register, RegisterSet, GCC};
use minicc::lexer::lex;
use minicc::parser::parse_program;
use minicc::tac::{Address, Line, Program};

fn registers() -> Vec<Register> {
    vec![
        Register { name: "rax".to_string() },
        Register { name: "rcx".to_string() },
        Register { name: "rdx".to_string() },
    ]
}

#[test]
fn end_to_end_return_sum() {
    let source = "\nint main() {\n    return 2 + 2;\n}\n";
    let tokens = lex(source).unwrap();
    let parsed = parse_program(VecDeque::from(tokens)).unwrap();
    let tac = Program::from_ast(parsed).unwrap();

    assert_eq!(tac.functions.len(), 1);
    assert_eq!(tac.functions[0].0, "main");
    assert_eq!(
        tac.functions[0].1.body,
        vec![
            Line::Move(Address::Constant(2), Address::Variable(0)),
            Line::Add(Address::Variable(0), Address::Constant(2)),
            Line::Return(Address::Variable(0)),
        ]
    );
    assert_eq!(
        tac.to_text(),
        "Function main:\nmove $2, %0\nadd %0, $2\nreturn %0\n\n"
    );

    let mut gcc = GCC::new(RegisterSet::new(&registers()));
    let text = gcc.compile_program(&tac).unwrap();
    assert_eq!(
        text,
        ".global main\nmain:\nmov rdx, 2\nadd rdx, 2\nmov rax, rdx\nret\n"
    );
}

#[test]
fn end_to_end_constant_return_skips_move() {
    let source = "int main() { return 5; }";
    let tokens = lex(source).unwrap();
    let parsed = parse_program(VecDeque::from(tokens)).unwrap();
    let tac = Program::from_ast(parsed).unwrap();
    assert_eq!(tac.functions[0].1.body, vec![Line::Return(Address::Constant(5))]);

    let mut gcc = GCC::new(RegisterSet::new(&registers()));
    let text = gcc.compile_program(&tac).unwrap();
    assert_eq!(text, ".global main\nmain:\nmov rax, 5\nret\n");
}

#[test]
fn end_to_end_rendering_is_deterministic() {
    let source = "int main() { return 1 + 2 - 3 + 4; }";
    let tokens = lex(source).unwrap();
    let parsed = parse_program(VecDeque::from(tokens)).unwrap();
    let tac = Program::from_ast(parsed).unwrap();

    let mut first_gcc = GCC::new(RegisterSet::new(&registers()));
    let first = first_gcc.compile_program(&tac).unwrap();
    let mut second_gcc = GCC::new(RegisterSet::new(&registers()));
    let second = second_gcc.compile_program(&tac).unwrap();
    assert_eq!(first, second);
}

#[test]
fn end_to_end_duplicate_main_is_rejected() {
    let source = "int main() { return 1; } int main() { return 2; }";
    let tokens = lex(source).unwrap();
    let parsed = parse_program(VecDeque::from(tokens)).unwrap();
    let err = Program::from_ast(parsed).unwrap_err();
    assert_eq!(err, minicc::tac::CompileError::DuplicateFunctionName);
}
