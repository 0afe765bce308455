use calc_lang::ast::parser::ASTNode;
use calc_lang::error::RuntimeError;
use calc_lang::interpreter::arithmetic::{apply_assignment, apply_binary, apply_unary, divide, modulo};
use calc_lang::interpreter::{ControlFlow, Interpreter};
use calc_lang::ast::parser::{AssignmentKind, Operator};
use calc_lang::vm::symbol::{DataType, Register, Scope, Symbol};
use calc_lang::vm::{MEM_SIZE, REGISTER_COUNT, VM};

fn symbol(name: &str, address: usize, mutable: bool) -> Symbol {
    Symbol { name: name.to_string(), address, mutable }
}

#[test]
fn a_fresh_runtime_is_empty() {
    let vm = VM::new();
    assert_eq!(vm.memory.len(), MEM_SIZE);
    assert!(vm.memory.iter().all(|cell| cell.is_null()));
    assert_eq!(vm.registers.len(), REGISTER_COUNT);
    assert!(vm.registers.iter().all(|register| register.address == MEM_SIZE - 1));
    assert_eq!(vm.scopes, vec![Scope::new(None)]);
    assert_eq!(vm.get_free_address_index(), Some(0));
    assert!(vm.in_use(MEM_SIZE - 1));
    assert!(!vm.in_use(0));
}

#[test]
fn a_register_holds_the_address_it_was_made_with() {
    assert_eq!(Register::new(17).address, 17);
}

#[test]
fn a_register_shows_what_it_points_at() {
    let function = DataType::Function(
        vec!["n".to_string()],
        vec![ASTNode::Break {}],
        Scope { symbols: vec![symbol("k", 0, false)], parent: None },
    );
    let memory = vec![DataType::Number(5), DataType::Null(), function];
    assert_eq!(Register::new(0).get_value(&memory), Some(DataType::Number(5)));
    assert_eq!(Register::new(1).get_value(&memory), None);
    assert_eq!(Register::new(3).get_value(&memory), None);
    match Register::new(2).get_value(&memory) {
        Some(DataType::Function(params, body, captured)) => {
            assert!(params.is_empty());
            assert!(body.is_empty());
            assert_eq!(captured, Scope::new(None));
        },
        other => panic!("{:?}", other),
    }
}

#[test]
fn values_know_their_kind() {
    assert!(DataType::Null().is_null());
    assert!(!DataType::Null().is_number());
    assert!(DataType::Number(0).is_number());
    assert!(!DataType::Number(0).is_null());
    let function = DataType::Function(vec![], vec![], Scope::new(None));
    assert!(!function.is_null());
    assert!(!function.is_number());
}

#[test]
fn a_function_equals_nothing() {
    let function = DataType::Function(vec![], vec![], Scope::new(None));
    assert!(function != function.clone());
    assert!(function != DataType::Null());
    assert!(DataType::Number(3) == DataType::Number(3));
    assert!(DataType::Number(3) != DataType::Number(4));
    assert!(DataType::Null() == DataType::Null());
    assert!(DataType::Null() != DataType::Number(0));
}

#[test]
fn a_copy_of_a_function_holds_what_the_function_holds() {
    let scope = Scope { symbols: vec![symbol("k", 4, true)], parent: None };
    let body = vec![ASTNode::Return { expr: Box::new(ASTNode::Identifier("k".to_string())) }];
    let function = DataType::Function(vec!["n".to_string()], body.clone(), scope.clone());
    match function.clone() {
        DataType::Function(params, copied, captured) => {
            assert_eq!(params, vec!["n".to_string()]);
            assert_eq!(copied, body);
            assert_eq!(captured, scope);
        },
        other => panic!("{:?}", other),
    }
    assert!(function.holds(4));
    assert!(!function.holds(5));
    assert!(!DataType::Number(4).holds(4));
}

#[test]
fn truth_is_everything_but_zero_and_null() {
    let vm = VM::new();
    assert!(vm.truthy_check(DataType::Number(1)));
    assert!(vm.truthy_check(DataType::Number(-1)));
    assert!(!vm.truthy_check(DataType::Number(0)));
    assert!(!vm.truthy_check(DataType::Null()));
    assert!(vm.truthy_check(DataType::Function(vec![], vec![], Scope::new(None))));
}

#[test]
fn allocation_takes_the_first_free_cell() {
    let mut vm = VM::new();
    assert_eq!(vm.add_to_memory(DataType::Number(5)), Ok(0));
    assert_eq!(vm.get_from_memory(0), Ok(DataType::Number(5)));
    assert_eq!(vm.declare_variable_from_memory("five".to_string(), 0, false), Ok(()));
    assert_eq!(vm.add_to_memory(DataType::Number(5)), Ok(1));
    assert_eq!(vm.add_to_memory(DataType::Number(6)), Ok(1));
    assert_eq!(vm.get_from_memory(1), Ok(DataType::Number(6)));
    assert_eq!(vm.get_from_memory(0), Ok(DataType::Number(5)));
}

#[test]
fn storing_uses_an_equal_cell_again() {
    let mut vm = VM::new();
    assert_eq!(vm.get_or_add_to_memory(DataType::Null()), Ok(0));
    assert_eq!(vm.get_or_add_to_memory(DataType::Number(5)), Ok(0));
    assert_eq!(vm.get_or_add_to_memory(DataType::Number(5)), Ok(0));
    assert_eq!(vm.get_or_add_to_memory(DataType::Null()), Ok(1));
    assert_eq!(vm.declare_variable_from_memory("five".to_string(), 0, false), Ok(()));
    assert_eq!(vm.get_or_add_to_memory(DataType::Number(6)), Ok(1));
    assert_eq!(vm.get_or_add_to_memory(DataType::Number(5)), Ok(0));
    let function = DataType::Function(vec![], vec![], Scope::new(None));
    assert_eq!(vm.get_or_add_to_memory(function.clone()), Ok(1));
    assert_eq!(vm.declare_variable_from_memory("f".to_string(), 1, false), Ok(()));
    assert_eq!(vm.get_or_add_to_memory(function), Ok(2));
}

#[test]
fn reading_outside_the_arena_is_an_error() {
    let mut vm = VM::new();
    assert_eq!(vm.get_from_memory(MEM_SIZE - 1), Ok(DataType::Null()));
    assert_eq!(vm.get_from_memory(MEM_SIZE), Err(RuntimeError::AddressOutOfBounds(MEM_SIZE)));
    assert_eq!(vm.declare_variable_from_memory("lost".to_string(), 5000, true), Ok(()));
    assert_eq!(vm.get_variable_address("lost"), Ok(5000));
    assert_eq!(vm.get_variable("lost"), Err(RuntimeError::AddressOutOfBounds(5000)));
}

#[test]
fn registers_point_at_what_was_loaded() {
    let mut vm = VM::new();
    assert_eq!(vm.get_register_value(3), DataType::Null());
    assert_eq!(vm.get_register_address(3), MEM_SIZE - 1);
    assert_eq!(vm.load_value_into_register(3, DataType::Number(7)), Ok(()));
    assert_eq!(vm.get_register_value(3), DataType::Number(7));
    assert_eq!(vm.get_register_address(3), 0);
    assert_eq!(vm.get_register_address_index(3), 0);
    assert_eq!(vm.get_register_address(2), MEM_SIZE - 1);
    assert!(vm.in_use(0));
    assert_eq!(vm.load_value_into_register(3, DataType::Number(8)), Ok(()));
    assert_eq!(vm.get_register_address(3), 1);
    assert!(!vm.in_use(0));
}

#[test]
fn variables_are_declared_read_and_rebound() {
    let mut vm = VM::new();
    assert_eq!(vm.declare_variable("x".to_string(), DataType::Number(1), true), Ok(()));
    assert_eq!(vm.declare_variable("y".to_string(), DataType::Number(1), false), Ok(()));
    assert_eq!(vm.get_variable("x"), Ok(DataType::Number(1)));
    assert_eq!(vm.get_variable_address("x"), vm.get_variable_address("y"));
    assert_eq!(vm.get_variable_base("y"), Ok(&symbol("y", 0, false)));
    let two = vm.get_or_add_to_memory(DataType::Number(2)).unwrap();
    assert_eq!(vm.set_variable_address("x", two), Ok(()));
    assert_eq!(vm.get_variable("x"), Ok(DataType::Number(2)));
    assert_eq!(vm.get_variable("y"), Ok(DataType::Number(1)));
    assert_eq!(vm.get_from_memory(0), Ok(DataType::Number(1)));
    assert_eq!(
        vm.set_variable_address("y", two),
        Err(RuntimeError::ImmutableAssignment("y".to_string()))
    );
    assert_eq!(
        vm.set_variable_address("z", two),
        Err(RuntimeError::UndeclaredVariable("z".to_string()))
    );
    assert_eq!(vm.get_variable("z"), Err(RuntimeError::UndeclaredVariable("z".to_string())));
    assert_eq!(
        vm.get_variable_address("z"),
        Err(RuntimeError::UndeclaredVariable("z".to_string()))
    );
    assert_eq!(
        vm.declare_variable("x".to_string(), DataType::Number(3), true),
        Err(RuntimeError::DuplicateDeclaration("x".to_string()))
    );
    assert_eq!(vm.get_variable("x"), Ok(DataType::Number(2)));
}

#[test]
fn scopes_open_and_close() {
    let mut vm = VM::new();
    assert_eq!(vm.declare_variable("x".to_string(), DataType::Number(1), true), Ok(()));
    vm.push_scope();
    assert_eq!(vm.scopes.len(), 1);
    assert_eq!(vm.get_variable("x"), Ok(DataType::Number(1)));
    assert_eq!(vm.declare_variable("x".to_string(), DataType::Number(2), false), Ok(()));
    assert_eq!(vm.declare_variable("y".to_string(), DataType::Number(3), false), Ok(()));
    assert_eq!(vm.get_variable("x"), Ok(DataType::Number(2)));
    vm.pop_scope();
    assert_eq!(vm.get_variable("x"), Ok(DataType::Number(1)));
    assert_eq!(vm.get_variable("y"), Err(RuntimeError::UndeclaredVariable("y".to_string())));
    vm.pop_scope();
    assert_eq!(vm.get_variable("x"), Ok(DataType::Number(1)));
    assert_eq!(vm.scopes.len(), 1);
}

#[test]
fn rebinding_reaches_through_inner_scopes() {
    let mut vm = VM::new();
    assert_eq!(vm.declare_variable("x".to_string(), DataType::Number(1), true), Ok(()));
    vm.push_scope();
    vm.push_scope();
    let nine = vm.get_or_add_to_memory(DataType::Number(9)).unwrap();
    assert_eq!(vm.set_variable_address("x", nine), Ok(()));
    vm.pop_scope();
    vm.pop_scope();
    assert_eq!(vm.get_variable("x"), Ok(DataType::Number(9)));
}

#[test]
fn a_call_chain_hides_the_chain_of_the_caller() {
    let mut vm = VM::new();
    assert_eq!(vm.declare_variable("x".to_string(), DataType::Number(1), true), Ok(()));
    let captured = Scope { symbols: vec![symbol("k", 0, false)], parent: None };
    vm.enter_function(captured);
    assert_eq!(vm.scopes.len(), 2);
    assert_eq!(vm.get_variable("k"), Ok(DataType::Number(1)));
    assert_eq!(vm.get_variable("x"), Err(RuntimeError::UndeclaredVariable("x".to_string())));
    assert!(vm.in_use(0));
    vm.leave_function();
    assert_eq!(vm.scopes.len(), 1);
    assert_eq!(vm.get_variable("x"), Ok(DataType::Number(1)));
    vm.leave_function();
    assert_eq!(vm.scopes.len(), 1);
}

#[test]
fn a_function_captures_what_it_can_see_and_itself() {
    let mut vm = VM::new();
    assert_eq!(vm.declare_variable("k".to_string(), DataType::Number(10), false), Ok(()));
    vm.push_scope();
    assert_eq!(vm.declare_variable("k".to_string(), DataType::Number(20), false), Ok(()));
    assert_eq!(vm.declare_variable("m".to_string(), DataType::Number(30), false), Ok(()));
    let body = vec![ASTNode::Return { expr: Box::new(ASTNode::Identifier("k".to_string())) }];
    assert_eq!(vm.declare_function("f".to_string(), vec!["n".to_string()], body.clone()), Ok(()));
    match vm.get_function("f") {
        Ok((params, instructions, captured)) => {
            assert_eq!(params, vec!["n".to_string()]);
            assert_eq!(instructions, body);
            assert!(captured.parent.is_none());
            assert_eq!(
                captured.symbols,
                vec![symbol("k", 1, false), symbol("m", 2, false), symbol("f", 3, false)]
            );
        },
        Err(error) => panic!("{:?}", error),
    }
    assert_eq!(vm.get_variable_address("f"), Ok(3));
    assert_eq!(vm.get_function("k"), Err(RuntimeError::NotCallable("k".to_string())));
    assert_eq!(vm.get_function("g"), Err(RuntimeError::UndeclaredVariable("g".to_string())));
    assert_eq!(
        vm.declare_function("f".to_string(), vec![], vec![]),
        Err(RuntimeError::DuplicateDeclaration("f".to_string()))
    );
    vm.pop_scope();
    assert!(vm.in_use(3));
    assert!(vm.in_use(1));
    assert_eq!(vm.get_function("f"), Err(RuntimeError::UndeclaredVariable("f".to_string())));
}

#[test]
fn a_capture_is_a_snapshot() {
    let mut vm = VM::new();
    assert_eq!(vm.declare_variable("k".to_string(), DataType::Number(10), true), Ok(()));
    vm.push_scope();
    assert_eq!(vm.declare_variable("m".to_string(), DataType::Number(30), false), Ok(()));
    let captured = vm.capture();
    assert_eq!(
        captured,
        Scope { symbols: vec![symbol("m", 1, false), symbol("k", 0, true)], parent: None }
    );
    let other = vm.get_or_add_to_memory(DataType::Number(11)).unwrap();
    assert_eq!(vm.set_variable_address("k", other), Ok(()));
    assert_eq!(captured.lookup(&"k".to_string()), Some(&symbol("k", 0, true)));
    assert_eq!(vm.get_variable_address("k"), Ok(other));
}

#[test]
fn a_scope_resolves_names_innermost_first() {
    let outer = Scope { symbols: vec![symbol("a", 1, true), symbol("b", 2, false)], parent: None };
    let mut inner = Scope::new(Some(outer));
    assert!(inner.symbols.is_empty());
    assert_eq!(inner.declare("a".to_string(), 3, false), Ok(()));
    assert_eq!(
        inner.declare("a".to_string(), 4, false),
        Err(RuntimeError::DuplicateDeclaration("a".to_string()))
    );
    assert_eq!(inner.lookup(&"a".to_string()), Some(&symbol("a", 3, false)));
    assert_eq!(inner.lookup(&"b".to_string()), Some(&symbol("b", 2, false)));
    assert_eq!(inner.lookup(&"c".to_string()), None);
    assert!(inner.holds(1));
    assert!(inner.holds(3));
    assert!(!inner.holds(4));
    assert_eq!(
        inner.get_all_symbols(),
        vec![symbol("a", 3, false), symbol("b", 2, false)]
    );
    assert_eq!(
        inner.rebind(&"a".to_string(), 9),
        Err(RuntimeError::ImmutableAssignment("a".to_string()))
    );
    assert_eq!(
        inner.rebind(&"b".to_string(), 9),
        Err(RuntimeError::ImmutableAssignment("b".to_string()))
    );
    assert_eq!(
        inner.rebind(&"c".to_string(), 9),
        Err(RuntimeError::UndeclaredVariable("c".to_string()))
    );
    let mut other = Scope::new(Some(Scope { symbols: vec![symbol("a", 1, true)], parent: None }));
    assert_eq!(other.rebind(&"a".to_string(), 9), Ok(()));
    assert_eq!(other.lookup(&"a".to_string()), Some(&symbol("a", 9, true)));
    assert_eq!(other.clone(), other);
}

#[test]
fn operators_work_on_numbers() {
    let three = DataType::Number(3);
    let four = DataType::Number(4);
    assert_eq!(apply_binary(Operator::Add, &three, &four), Ok(DataType::Number(7)));
    assert_eq!(apply_binary(Operator::Sub, &three, &four), Ok(DataType::Number(-1)));
    assert_eq!(apply_binary(Operator::Mul, &three, &four), Ok(DataType::Number(12)));
    assert_eq!(apply_binary(Operator::Div, &four, &three), Ok(DataType::Number(1)));
    assert_eq!(apply_binary(Operator::Mod, &four, &three), Ok(DataType::Number(1)));
    assert_eq!(apply_binary(Operator::Lt, &three, &four), Ok(DataType::Number(1)));
    assert_eq!(apply_binary(Operator::Not, &three, &four), Err(RuntimeError::TypeMismatch));
    assert_eq!(apply_binary(Operator::Neg, &three, &four), Err(RuntimeError::TypeMismatch));
    assert_eq!(
        apply_binary(Operator::Add, &three, &DataType::Null()),
        Err(RuntimeError::TypeMismatch)
    );
    assert_eq!(apply_unary(Operator::Neg, &three), Ok(DataType::Number(-3)));
    assert_eq!(apply_unary(Operator::Not, &three), Ok(DataType::Number(0)));
    assert_eq!(apply_unary(Operator::Not, &DataType::Null()), Ok(DataType::Number(1)));
    assert_eq!(apply_unary(Operator::Add, &three), Err(RuntimeError::TypeMismatch));
    assert_eq!(apply_unary(Operator::Neg, &DataType::Null()), Err(RuntimeError::TypeMismatch));
    assert_eq!(
        apply_assignment(AssignmentKind::Assign, &three, DataType::Null()),
        Ok(DataType::Null())
    );
    assert_eq!(
        apply_assignment(AssignmentKind::Sub, &three, DataType::Number(5)),
        Ok(DataType::Number(-2))
    );
    assert_eq!(divide(-9, 2), -4);
    assert_eq!(divide(i32::MIN, -1), i32::MIN);
    assert_eq!(modulo(-9, 2), -1);
    assert_eq!(modulo(9, -2), 1);
    assert_eq!(modulo(i32::MIN, -1), 0);
}

#[test]
fn statements_and_expressions_can_be_run_one_by_one() {
    let mut interpreter = Interpreter::new();
    let declaration = ASTNode::VariableDeclaration {
        mutable: true,
        name: "x".to_string(),
        value: Box::new(ASTNode::Number(4)),
    };
    assert_eq!(interpreter.match_node(&declaration, 10), Ok(ControlFlow::Normal));
    let sum = ASTNode::BinaryOp {
        left: Box::new(ASTNode::Identifier("x".to_string())),
        op: Operator::Add,
        right: Box::new(ASTNode::Number(1)),
    };
    assert_eq!(interpreter.compute_expr(&sum, 10), Ok(DataType::Number(5)));
    assert_eq!(interpreter.match_node(&sum, 10), Ok(ControlFlow::Normal));
    assert_eq!(interpreter.compute_expr(&declaration, 10), Err(RuntimeError::TypeMismatch));
    assert_eq!(interpreter.match_node(&ASTNode::Break {}, 10), Ok(ControlFlow::BreakRequested));
    assert_eq!(
        interpreter.match_node(&ASTNode::Continue {}, 10),
        Ok(ControlFlow::ContinueRequested)
    );
    assert_eq!(
        interpreter.match_node(&ASTNode::Return { expr: Box::new(sum.clone()) }, 10),
        Ok(ControlFlow::Returned(DataType::Number(5)))
    );
    let misplaced = ASTNode::BinaryOp {
        left: Box::new(ASTNode::Number(1)),
        op: Operator::Not,
        right: Box::new(ASTNode::Number(1)),
    };
    assert_eq!(interpreter.compute_expr(&misplaced, 10), Err(RuntimeError::TypeMismatch));
    let misplaced = ASTNode::UnaryOp { op: Operator::Add, expr: Box::new(ASTNode::Number(1)) };
    assert_eq!(interpreter.compute_expr(&misplaced, 10), Err(RuntimeError::TypeMismatch));
    assert_eq!(
        interpreter.compute_args(&vec![sum.clone(), ASTNode::Number(9)], 10),
        Ok(vec![DataType::Number(5), DataType::Number(9)])
    );
    assert_eq!(
        interpreter.interpret_statements(&vec![declaration.clone()], 10),
        Err(RuntimeError::DuplicateDeclaration("x".to_string()))
    );
    assert_eq!(interpreter.interpret_block(&vec![declaration], 10), Ok(ControlFlow::Normal));
    assert_eq!(interpreter.interpret_loop(&sum, 10), Ok(ControlFlow::Normal));
    assert_eq!(interpreter.interpret_branches(&sum, 0, 10), Ok(ControlFlow::Normal));
}

#[test]
fn calls_may_nest_as_deep_as_the_default_allows() {
    let mut interpreter = Interpreter::new();
    let program = calc_lang::ast::parse(
        "fun down(n) { if n == 0 { return 0 } return down(n - 1) + 1 } return down(199)",
    )
    .unwrap();
    assert_eq!(interpreter.interpret(program), Ok(Some(DataType::Number(199))));
    let program = calc_lang::ast::parse("return down(200)").unwrap();
    assert_eq!(interpreter.interpret(program), Err(RuntimeError::CallDepthExceeded));
}
