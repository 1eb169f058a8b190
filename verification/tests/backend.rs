use minicc::ast::{BinOp, BinOpType, Const, Expression, Statement, UnOp, UnOpType};
use minicc::emit::{Dialect, Register, RegisterSet, GCC};
use minicc::tac::{statements_allocs, Address, CompileError, Function, Line, Program, Scope};

fn pool(names: &[&str]) -> Vec<Register> {
    names.iter().map(|n| Register { name: (*n).to_string() }).collect()
}

#[test]
fn scope_counters_are_monotonic_and_independent() {
    let mut scope = Scope::new();
    assert_eq!(scope.var_label(), 0);
    assert_eq!(scope.var_label(), 1);
    assert_eq!(scope.var_label(), 2);
    assert_eq!(scope.jump_label(), 0);
    assert_eq!(scope.jump_label(), 1);
    assert_eq!(scope.var_label(), 3);
}

#[test]
fn constant_return_emits_single_return() {
    let ast = vec![Statement::RETURN(Expression::Const(Const { value: 5 }))];
    let func = Function::from_ast(ast).unwrap();
    assert_eq!(func.body, vec![Line::Return(Address::Constant(5))]);
}

#[test]
fn binary_add_lowers_in_place() {
    let expr = Expression::BinOp(BinOp {
        value_a: Box::new(Expression::Const(Const { value: 1 })),
        value_b: Box::new(Expression::Const(Const { value: 2 })),
        oper: BinOpType::Add,
    });
    let func = Function::from_ast(vec![Statement::RETURN(expr)]).unwrap();
    assert_eq!(
        func.body,
        vec![
            Line::Move(Address::Constant(1), Address::Variable(0)),
            Line::Add(Address::Variable(0), Address::Constant(2)),
            Line::Return(Address::Variable(0)),
        ]
    );
}

#[test]
fn binary_subtract_lowers_in_place() {
    let expr = Expression::BinOp(BinOp {
        value_a: Box::new(Expression::Const(Const { value: 9 })),
        value_b: Box::new(Expression::Const(Const { value: 4 })),
        oper: BinOpType::Subtract,
    });
    let func = Function::from_ast(vec![Statement::RETURN(expr)]).unwrap();
    assert_eq!(
        func.body,
        vec![
            Line::Move(Address::Constant(9), Address::Variable(0)),
            Line::Subtract(Address::Variable(0), Address::Constant(4)),
            Line::Return(Address::Variable(0)),
        ]
    );
}

#[test]
fn nested_addition_uses_fresh_variables() {
    // return (1 + 2) + (3 + 4);
    let left = Expression::BinOp(BinOp {
        value_a: Box::new(Expression::Const(Const { value: 1 })),
        value_b: Box::new(Expression::Const(Const { value: 2 })),
        oper: BinOpType::Add,
    });
    let right = Expression::BinOp(BinOp {
        value_a: Box::new(Expression::Const(Const { value: 3 })),
        value_b: Box::new(Expression::Const(Const { value: 4 })),
        oper: BinOpType::Add,
    });
    let expr = Expression::BinOp(BinOp {
        value_a: Box::new(left),
        value_b: Box::new(right),
        oper: BinOpType::Add,
    });
    let func = Function::from_ast(vec![Statement::RETURN(expr)]).unwrap();
    assert_eq!(
        func.body,
        vec![
            Line::Move(Address::Constant(1), Address::Variable(0)),
            Line::Add(Address::Variable(0), Address::Constant(2)),
            Line::Move(Address::Constant(3), Address::Variable(2)),
            Line::Add(Address::Variable(2), Address::Constant(4)),
            Line::Add(Address::Variable(0), Address::Variable(2)),
            Line::Return(Address::Variable(0)),
        ]
    );
}

#[test]
fn unary_lowering_is_unsupported() {
    let expr = Expression::UnOp(UnOp {
        value: Box::new(Expression::Const(Const { value: 1 })),
        oper: UnOpType::Negate,
    });
    let err = Function::from_ast(vec![Statement::RETURN(expr)]).unwrap_err();
    assert_eq!(err, CompileError::UnsupportedConstruct);
}

#[test]
fn relational_operator_is_unsupported() {
    let expr = Expression::BinOp(BinOp {
        value_a: Box::new(Expression::Const(Const { value: 1 })),
        value_b: Box::new(Expression::Const(Const { value: 2 })),
        oper: BinOpType::LessThan,
    });
    let err = Function::from_ast(vec![Statement::RETURN(expr)]).unwrap_err();
    assert_eq!(err, CompileError::UnsupportedConstruct);
}

#[test]
fn declare_statement_is_unsupported() {
    let err = Function::from_ast(vec![Statement::DECLARE]).unwrap_err();
    assert_eq!(err, CompileError::UnsupportedConstruct);
}

#[test]
fn duplicate_function_name_is_rejected() {
    let ast = minicc::ast::Program {
        functions: vec![
            minicc::ast::Function { name: "main".to_string(), body: vec![] },
            minicc::ast::Function { name: "main".to_string(), body: vec![] },
        ],
    };
    let err = Program::from_ast(ast).unwrap_err();
    assert_eq!(err, CompileError::DuplicateFunctionName);
}

#[test]
fn address_text_forms() {
    assert_eq!(Address::Constant(5).to_text(), "$5");
    assert_eq!(Address::Variable(3).to_text(), "%3");
    assert_eq!(Address::Constant(0).to_text(), "$0");
    assert_eq!(Address::Constant(u64::MAX).to_text(), "$18446744073709551615");
    assert_eq!(Address::Constant(1234567890).to_text(), "$1234567890");
}

#[test]
fn line_text_forms() {
    let a = Address::Variable(0);
    let b = Address::Constant(2);
    assert_eq!(Line::Add(a, b).to_text(), "add %0, $2\n");
    assert_eq!(Line::Subtract(a, b).to_text(), "subtract %0, $2\n");
    assert_eq!(Line::Move(b, a).to_text(), "move $2, %0\n");
    assert_eq!(Line::Return(a).to_text(), "return %0\n");
}

#[test]
fn program_text_form() {
    let ast = minicc::ast::Program {
        functions: vec![minicc::ast::Function {
            name: "main".to_string(),
            body: vec![Statement::RETURN(Expression::Const(Const { value: 7 }))],
        }],
    };
    let program = Program::from_ast(ast).unwrap();
    assert_eq!(program.to_text(), "Function main:\nreturn $7\n\n");
}

#[test]
fn allocator_binds_distinct_registers() {
    let mut rs = RegisterSet::new(&pool(&["rax", "rcx", "rdx"]));
    let a = rs.add_register(1).unwrap();
    let b = rs.add_register(2).unwrap();
    assert_ne!(a.name, b.name);
}

#[test]
fn allocator_pops_highest_index_first() {
    let mut rs = RegisterSet::new(&pool(&["rax", "rcx", "rdx"]));
    assert_eq!(rs.add_register(7).unwrap().name, "rdx");
    assert_eq!(rs.add_register(8).unwrap().name, "rcx");
    assert_eq!(rs.add_register(9).unwrap().name, "rax");
}

#[test]
fn resolve_is_idempotent() {
    let mut rs = RegisterSet::new(&pool(&["rax", "rcx", "rdx"]));
    let first = rs.get_register(5).unwrap();
    let second = rs.get_register(5).unwrap();
    let third = rs.get_register(5).unwrap();
    assert_eq!(first.name, second.name);
    assert_eq!(second.name, third.name);
}

#[test]
fn exhausted_pool_fails_next_bind() {
    let mut rs = RegisterSet::new(&pool(&["rax", "rcx", "rdx"]));
    assert!(rs.add_register(1).is_some());
    assert!(rs.add_register(2).is_some());
    assert!(rs.add_register(3).is_some());
    assert!(rs.add_register(4).is_none());
    assert!(rs.get_register(4).is_none());
}

#[test]
fn released_register_is_reused_first() {
    let mut rs = RegisterSet::new(&pool(&["rax", "rcx", "rdx"]));
    let a = rs.add_register(1).unwrap();
    let _b = rs.add_register(2).unwrap();
    rs.free_register(1);
    let c = rs.add_register(3).unwrap();
    assert_eq!(a.name, c.name);
}

#[test]
fn render_address_resolves_on_first_reference() {
    let mut gcc = GCC::new(RegisterSet::new(&pool(&["rax", "rcx", "rdx"])));
    assert_eq!(gcc.compile_address(&Address::Constant(2)).unwrap(), "2");
    assert_eq!(gcc.compile_address(&Address::Variable(0)).unwrap(), "rdx");
    assert_eq!(gcc.compile_address(&Address::Variable(0)).unwrap(), "rdx");
    assert_eq!(gcc.compile_address(&Address::Variable(1)).unwrap(), "rcx");
}

#[test]
fn render_line_forms() {
    let mut gcc = GCC::new(RegisterSet::new(&pool(&["rax", "rcx", "rdx"])));
    let text = gcc
        .compile_line(&Line::Move(Address::Constant(2), Address::Variable(0)))
        .unwrap();
    assert_eq!(text, "mov rdx, 2\n");
    let text = gcc
        .compile_line(&Line::Add(Address::Variable(0), Address::Constant(2)))
        .unwrap();
    assert_eq!(text, "add rdx, 2\n");
    let text = gcc
        .compile_line(&Line::Subtract(Address::Variable(0), Address::Constant(1)))
        .unwrap();
    assert_eq!(text, "sub rdx, 1\n");
    let text = gcc.compile_line(&Line::Return(Address::Variable(0))).unwrap();
    assert_eq!(text, "mov rax, rdx\nret\n");
}

#[test]
fn emission_fails_when_pool_is_exhausted() {
    // return (1 + 2) + (3 + 4); needs two live registers.
    let left = Expression::BinOp(BinOp {
        value_a: Box::new(Expression::Const(Const { value: 1 })),
        value_b: Box::new(Expression::Const(Const { value: 2 })),
        oper: BinOpType::Add,
    });
    let right = Expression::BinOp(BinOp {
        value_a: Box::new(Expression::Const(Const { value: 3 })),
        value_b: Box::new(Expression::Const(Const { value: 4 })),
        oper: BinOpType::Add,
    });
    let expr = Expression::BinOp(BinOp {
        value_a: Box::new(left),
        value_b: Box::new(right),
        oper: BinOpType::Add,
    });
    let ast = minicc::ast::Program {
        functions: vec![minicc::ast::Function {
            name: "main".to_string(),
            body: vec![Statement::RETURN(expr)],
        }],
    };
    let program = Program::from_ast(ast).unwrap();
    let mut gcc = GCC::new(RegisterSet::new(&pool(&["rax"])));
    let err = gcc.compile_program(&program).unwrap_err();
    assert_eq!(err, CompileError::OutOfRegisters);
    let mut gcc = GCC::new(RegisterSet::new(&pool(&["rax", "rcx"])));
    assert!(gcc.compile_program(&program).is_ok());
}

#[test]
fn rendering_same_program_twice_is_deterministic() {
    let ast = minicc::ast::Program {
        functions: vec![minicc::ast::Function {
            name: "main".to_string(),
            body: vec![Statement::RETURN(Expression::BinOp(BinOp {
                value_a: Box::new(Expression::Const(Const { value: 2 })),
                value_b: Box::new(Expression::Const(Const { value: 2 })),
                oper: BinOpType::Add,
            }))],
        }],
    };
    let program = Program::from_ast(ast).unwrap();
    let registers = pool(&["rax", "rcx", "rdx"]);
    let mut first_gcc = GCC::new(RegisterSet::new(&registers));
    let first = first_gcc.compile_program(&program).unwrap();
    let mut second_gcc = GCC::new(RegisterSet::new(&registers));
    let second = second_gcc.compile_program(&program).unwrap();
    assert_eq!(first, second);
}

#[test]
fn empty_function_body_renders_label_only() {
    let ast = minicc::ast::Program {
        functions: vec![minicc::ast::Function { name: "main".to_string(), body: vec![] }],
    };
    let program = Program::from_ast(ast).unwrap();
    assert!(program.functions[0].1.body.is_empty());
    assert_eq!(program.to_text(), "Function main:\n\n");
    let mut gcc = GCC::new(RegisterSet::new(&pool(&["rax"])));
    assert_eq!(gcc.compile_program(&program).unwrap(), ".global main\nmain:\n");
}

#[test]
fn largest_constant_lowers_and_renders() {
    let ast = vec![Statement::RETURN(Expression::Const(Const { value: u64::MAX }))];
    let func = Function::from_ast(ast).unwrap();
    assert_eq!(func.body, vec![Line::Return(Address::Constant(u64::MAX))]);
    let mut gcc = GCC::new(RegisterSet::new(&pool(&["rax"])));
    let text = gcc.compile_line(&func.body[0]).unwrap();
    assert_eq!(text, "mov rax, 18446744073709551615\nret\n");
}

#[test]
fn statements_allocs_counts_lowering_ids() {
    let body = vec![Statement::RETURN(Expression::BinOp(BinOp {
        value_a: Box::new(Expression::Const(Const { value: 1 })),
        value_b: Box::new(Expression::Const(Const { value: 2 })),
        oper: BinOpType::Add,
    }))];
    // one id for the return slot, one for the right operand's target
    assert_eq!(statements_allocs(&body), Some(2));
    assert_eq!(statements_allocs(&vec![]), Some(0));
    assert_eq!(statements_allocs(&vec![Statement::DECLARE]), Some(0));
}
