use calc_lang::ast::parse;
use calc_lang::error::RuntimeError;
use calc_lang::interpreter::Interpreter;
use calc_lang::vm::symbol::DataType;

fn run(interpreter: &mut Interpreter, source: &str) -> Result<Option<DataType>, RuntimeError> {
    let program = parse(source).expect("the program parses");
    interpreter.interpret(program)
}

fn value_of(source: &str) -> Result<Option<DataType>, RuntimeError> {
    let mut interpreter = Interpreter::new();
    run(&mut interpreter, source)
}

fn number(interpreter: &Interpreter, name: &str) -> i32 {
    match interpreter.vm().get_variable(name) {
        Ok(DataType::Number(n)) => n,
        other => panic!("{} is {:?}", name, other),
    }
}

#[test]
fn multiplication_binds_tighter_than_addition() {
    assert_eq!(value_of("return 2 + 2 * 3"), Ok(Some(DataType::Number(8))));
    assert_eq!(value_of("return (2 + 2) * 3"), Ok(Some(DataType::Number(12))));
    assert_eq!(value_of("return 2 * 3 + 2"), Ok(Some(DataType::Number(8))));
}

#[test]
fn modulo_gives_the_remainder() {
    assert_eq!(value_of("return 7 % 3"), Ok(Some(DataType::Number(1))));
}

#[test]
fn division_by_zero_is_an_error() {
    assert_eq!(value_of("return 5 / 0"), Err(RuntimeError::DivisionByZero));
    assert_eq!(value_of("return 5 % 0"), Err(RuntimeError::ModuloByZero));
    assert_eq!(value_of("mut x = 5; x /= 0"), Err(RuntimeError::DivisionByZero));
    assert_eq!(value_of("mut x = 5; x %= 0"), Err(RuntimeError::ModuloByZero));
}

#[test]
fn division_rounds_toward_zero() {
    assert_eq!(value_of("return 7 / 2"), Ok(Some(DataType::Number(3))));
    assert_eq!(value_of("return (0 - 7) / 2"), Ok(Some(DataType::Number(-3))));
    assert_eq!(value_of("return 7 / (0 - 2)"), Ok(Some(DataType::Number(-3))));
    assert_eq!(value_of("return (0 - 7) / (0 - 2)"), Ok(Some(DataType::Number(3))));
    assert_eq!(value_of("return (0 - 7) % 2"), Ok(Some(DataType::Number(-1))));
    assert_eq!(value_of("return 7 % (0 - 2)"), Ok(Some(DataType::Number(1))));
}

#[test]
fn arithmetic_wraps_round() {
    assert_eq!(value_of("return 2147483647 + 1"), Ok(Some(DataType::Number(i32::MIN))));
    assert_eq!(value_of("return 0 - 2147483647 - 2"), Ok(Some(DataType::Number(i32::MAX))));
    assert_eq!(value_of("return 65536 * 65536"), Ok(Some(DataType::Number(0))));
    assert_eq!(value_of("return 65537 * 65537"), Ok(Some(DataType::Number(131073))));
    assert_eq!(
        value_of("return (0 - 2147483647 - 1) / (0 - 1)"),
        Ok(Some(DataType::Number(i32::MIN)))
    );
    assert_eq!(value_of("return (0 - 2147483647 - 1) % (0 - 1)"), Ok(Some(DataType::Number(0))));
    assert_eq!(value_of("return -(0 - 2147483647 - 1)"), Ok(Some(DataType::Number(i32::MIN))));
}

#[test]
fn comparisons_give_one_or_zero() {
    assert_eq!(value_of("return 1 < 2"), Ok(Some(DataType::Number(1))));
    assert_eq!(value_of("return 2 < 1"), Ok(Some(DataType::Number(0))));
    assert_eq!(value_of("return 2 <= 2"), Ok(Some(DataType::Number(1))));
    assert_eq!(value_of("return 2 > 2"), Ok(Some(DataType::Number(0))));
    assert_eq!(value_of("return 2 >= 2"), Ok(Some(DataType::Number(1))));
    assert_eq!(value_of("return 3 == 3"), Ok(Some(DataType::Number(1))));
    assert_eq!(value_of("return 3 ~= 3"), Ok(Some(DataType::Number(0))));
    assert_eq!(value_of("return 3 ~= 4"), Ok(Some(DataType::Number(1))));
}

#[test]
fn logic_looks_at_truth_not_at_bits() {
    assert_eq!(value_of("return 1 & 2"), Ok(Some(DataType::Number(1))));
    assert_eq!(value_of("return 1 & 0"), Ok(Some(DataType::Number(0))));
    assert_eq!(value_of("return 0 | 4"), Ok(Some(DataType::Number(1))));
    assert_eq!(value_of("return 0 | 0"), Ok(Some(DataType::Number(0))));
    assert_eq!(value_of("return ~0"), Ok(Some(DataType::Number(1))));
    assert_eq!(value_of("return ~7"), Ok(Some(DataType::Number(0))));
    assert_eq!(value_of("return -7"), Ok(Some(DataType::Number(-7))));
}

#[test]
fn logic_evaluates_both_operands() {
    assert_eq!(value_of("return 0 & (1 / 0)"), Err(RuntimeError::DivisionByZero));
    assert_eq!(value_of("return 1 | (1 / 0)"), Err(RuntimeError::DivisionByZero));
}

#[test]
fn operands_must_be_numbers() {
    assert_eq!(value_of("fun f() { return 1 } return f + 1"), Err(RuntimeError::TypeMismatch));
    assert_eq!(value_of("fun f() { } return 1 + f()"), Err(RuntimeError::TypeMismatch));
    assert_eq!(value_of("fun f() { } return -f"), Err(RuntimeError::TypeMismatch));
    assert_eq!(value_of("fun f() { } mut x = f() x += 1"), Err(RuntimeError::TypeMismatch));
}

#[test]
fn not_takes_any_value_as_a_truth() {
    assert_eq!(value_of("fun f() { } return ~f"), Ok(Some(DataType::Number(0))));
    assert_eq!(value_of("fun f() { } return ~f()"), Ok(Some(DataType::Number(1))));
}

#[test]
fn immutable_variable_cannot_be_assigned() {
    assert_eq!(
        value_of("var x = 1; x = 2"),
        Err(RuntimeError::ImmutableAssignment("x".to_string()))
    );
}

#[test]
fn mutable_variable_can_be_assigned() {
    assert_eq!(value_of("mut x = 1; x = 2; return x == 2"), Ok(Some(DataType::Number(1))));
    assert_eq!(value_of("mut x = 1; x = 2; return x"), Ok(Some(DataType::Number(2))));
}

#[test]
fn compound_assignments_combine_with_the_current_value() {
    assert_eq!(value_of("mut x = 10; x += 5; return x"), Ok(Some(DataType::Number(15))));
    assert_eq!(value_of("mut x = 10; x -= 5; return x"), Ok(Some(DataType::Number(5))));
    assert_eq!(value_of("mut x = 10; x *= 5; return x"), Ok(Some(DataType::Number(50))));
    assert_eq!(value_of("mut x = 10; x /= 4; return x"), Ok(Some(DataType::Number(2))));
    assert_eq!(value_of("mut x = 10; x %= 4; return x"), Ok(Some(DataType::Number(2))));
}

#[test]
fn undeclared_names_are_errors() {
    assert_eq!(value_of("return y"), Err(RuntimeError::UndeclaredVariable("y".to_string())));
    assert_eq!(value_of("y = 1"), Err(RuntimeError::UndeclaredVariable("y".to_string())));
    assert_eq!(value_of("y(1)"), Err(RuntimeError::UndeclaredVariable("y".to_string())));
}

#[test]
fn a_name_is_declared_once_in_a_scope() {
    assert_eq!(
        value_of("var x = 1; var x = 2"),
        Err(RuntimeError::DuplicateDeclaration("x".to_string()))
    );
    assert_eq!(
        value_of("var f = 1; fun f() { }"),
        Err(RuntimeError::DuplicateDeclaration("f".to_string()))
    );
    assert_eq!(
        value_of("fun f(a, a) { } f(1, 2)"),
        Err(RuntimeError::DuplicateDeclaration("a".to_string()))
    );
}

#[test]
fn an_inner_scope_may_shadow_an_outer_name() {
    let source = "var x = 1; mut seen = 0; if 1 { var x = 2; seen = x } return seen * 10 + x";
    assert_eq!(value_of(source), Ok(Some(DataType::Number(21))));
}

#[test]
fn a_name_declared_in_an_if_body_ends_with_it() {
    assert_eq!(
        value_of("if 1 { var inner = 5 } return inner"),
        Err(RuntimeError::UndeclaredVariable("inner".to_string()))
    );
    assert_eq!(
        value_of("if 0 { } else { var inner = 5 } return inner"),
        Err(RuntimeError::UndeclaredVariable("inner".to_string()))
    );
    assert_eq!(
        value_of("if 0 { } elseif 1 { var inner = 5 } return inner"),
        Err(RuntimeError::UndeclaredVariable("inner".to_string()))
    );
}

#[test]
fn a_name_declared_in_a_while_body_ends_with_it() {
    assert_eq!(
        value_of("mut i = 0; while i < 2 { var inner = i; i += 1 } return inner"),
        Err(RuntimeError::UndeclaredVariable("inner".to_string()))
    );
}

#[test]
fn a_failing_block_still_closes_its_scope() {
    let mut interpreter = Interpreter::new();
    assert_eq!(
        run(&mut interpreter, "var outer = 1; if 1 { var inner = 2; inner = 3 }"),
        Err(RuntimeError::ImmutableAssignment("inner".to_string()))
    );
    assert_eq!(
        run(&mut interpreter, "return inner"),
        Err(RuntimeError::UndeclaredVariable("inner".to_string()))
    );
    assert_eq!(run(&mut interpreter, "return outer"), Ok(Some(DataType::Number(1))));
    assert_eq!(interpreter.vm().scopes.len(), 1);
    assert!(interpreter.vm().scopes[0].parent.is_none());
}

#[test]
fn a_closure_adds_what_it_captured() {
    let source = "var k = 10; fun addK(n) { return n + k }; return addK(5) == 15";
    assert_eq!(value_of(source), Ok(Some(DataType::Number(1))));
    let source = "var k = 10; fun addK(n) { return n + k }; return addK(5)";
    assert_eq!(value_of(source), Ok(Some(DataType::Number(15))));
}

#[test]
fn a_closure_reads_the_scope_it_was_declared_in() {
    let mut interpreter = Interpreter::new();
    let source = "mut k = 10; fun addK(n) { return n + k } return addK(5)";
    assert_eq!(run(&mut interpreter, source), Ok(Some(DataType::Number(15))));
    assert_eq!(run(&mut interpreter, "k = 100; return addK(5)"), Ok(Some(DataType::Number(15))));
    assert_eq!(number(&interpreter, "k"), 100);
}

#[test]
fn a_closure_ignores_the_scope_of_its_caller() {
    let source = "var k = 10; fun addK(n) { return n + k } \
                  fun caller() { var k = 1000; return addK(5) } return caller()";
    assert_eq!(value_of(source), Ok(Some(DataType::Number(15))));
}

#[test]
fn a_call_cannot_rebind_the_names_of_the_declaring_scope() {
    let source = "mut k = 1; fun bump() { k = k + 1; return k } var seen = bump(); \
                  return seen * 10 + k";
    assert_eq!(value_of(source), Ok(Some(DataType::Number(21))));
}

#[test]
fn recursion_finds_the_function_by_its_own_name() {
    let source = "fun f(n) { if n <= 1 { return n } return f(n-1) + f(n-2) } return f(10)";
    assert_eq!(value_of(source), Ok(Some(DataType::Number(55))));
}

#[test]
fn a_function_that_runs_off_its_end_gives_null() {
    match value_of("fun f() { var x = 1 } return f()") {
        Ok(Some(value)) => assert!(value.is_null()),
        other => panic!("{:?}", other),
    }
}

#[test]
fn a_return_ends_the_call_from_inside_loops_and_branches() {
    let source = "fun first(n) { mut i = 0; while 1 { if i * i >= n { return i } i += 1 } } \
                  return first(50)";
    assert_eq!(value_of(source), Ok(Some(DataType::Number(8))));
}

#[test]
fn break_in_a_nested_if_ends_the_loop_once() {
    let source = "mut i = 0; mut rounds = 0; \
                  while i < 10 { rounds += 1; if i == 3 { break } i += 1 } \
                  return rounds * 100 + i";
    assert_eq!(value_of(source), Ok(Some(DataType::Number(403))));
}

#[test]
fn break_ends_only_the_innermost_loop() {
    let source = "mut outer = 0; mut total = 0; \
                  while outer < 3 { mut inner = 0; \
                    while 1 { if inner == 2 { break } inner += 1; total += 1 } \
                    outer += 1 } \
                  return total * 10 + outer";
    assert_eq!(value_of(source), Ok(Some(DataType::Number(63))));
}

#[test]
fn continue_skips_the_rest_of_the_round_only() {
    let source = "mut i = 0; mut sum = 0; \
                  while i < 5 { i += 1; if i == 3 { continue } sum += i } \
                  return sum * 10 + i";
    assert_eq!(value_of(source), Ok(Some(DataType::Number(125))));
}

#[test]
fn a_stray_break_ends_the_group_without_a_value() {
    let mut interpreter = Interpreter::new();
    assert_eq!(run(&mut interpreter, "mut x = 1; break; x = 2"), Ok(None));
    assert_eq!(number(&interpreter, "x"), 1);
    assert_eq!(value_of("fun f() { break; return 1 } return f() == 0"), Err(RuntimeError::TypeMismatch));
}

#[test]
fn elseif_branches_are_tried_in_order() {
    let source = "fun pick(n) { if n == 1 { return 10 } elseif n == 2 { return 20 } \
                  elseif n == 3 { return 30 } else { return 40 } } \
                  return pick(1) + pick(2) * 100 + pick(3) * 10000 + pick(9) * 1000000";
    assert_eq!(value_of(source), Ok(Some(DataType::Number(40302010))));
}

#[test]
fn a_call_checks_its_callee_and_its_arguments() {
    assert_eq!(value_of("var x = 1; x(2)"), Err(RuntimeError::NotCallable("x".to_string())));
    assert_eq!(value_of("fun f(a) { } f(1, 2)"), Err(RuntimeError::ArityMismatch(1, 2)));
    assert_eq!(value_of("fun f(a, b) { } f()"), Err(RuntimeError::ArityMismatch(2, 0)));
}

#[test]
fn more_arguments_than_registers_are_passed_in_order() {
    let source = "fun f(a, b, c, d, e, f, g, h, i, j) { \
                    return a + b * 2 + c * 3 + d * 4 + e * 5 + f * 6 + g * 7 + h * 8 + i * 9 + j * 10 } \
                  return f(1, 1, 1, 1, 1, 1, 1, 1, 100, 1000)";
    assert_eq!(value_of(source), Ok(Some(DataType::Number(36 + 900 + 10000))));
}

#[test]
fn a_function_can_be_passed_and_called() {
    let source = "fun twice(n) { return n * 2 } fun apply(g, n) { return g(n) } \
                  return apply(twice, 21)";
    assert_eq!(value_of(source), Ok(Some(DataType::Number(42))));
}

#[test]
fn calls_nest_only_so_deep() {
    let mut interpreter = Interpreter::with_limits(5, 100);
    let source = "fun down(n) { if n == 0 { return 0 } return down(n - 1) + 1 } return down(4)";
    assert_eq!(run(&mut interpreter, source), Ok(Some(DataType::Number(4))));
    assert_eq!(run(&mut interpreter, "return down(5)"), Err(RuntimeError::CallDepthExceeded));
    assert_eq!(interpreter.vm().scopes.len(), 1);
    assert_eq!(run(&mut interpreter, "return down(3)"), Ok(Some(DataType::Number(3))));
}

#[test]
fn a_loop_runs_only_so_many_rounds() {
    let mut interpreter = Interpreter::with_limits(5, 3);
    assert_eq!(
        run(&mut interpreter, "mut i = 0; while i < 3 { i += 1 } return i"),
        Ok(Some(DataType::Number(3)))
    );
    assert_eq!(
        run(&mut interpreter, "mut j = 0; while j < 4 { j += 1 }"),
        Err(RuntimeError::IterationLimitExceeded)
    );
    assert_eq!(number(&interpreter, "j"), 3);
    assert_eq!(
        run(&mut interpreter, "mut a = 0; mut n = 0; while a < 3 { mut b = 0; \
                               while b < 3 { b += 1; n += 1 } a += 1 } return n"),
        Ok(Some(DataType::Number(9)))
    );
}

#[test]
fn wider_bounds_change_no_result() {
    let source = "fun f(n) { if n <= 1 { return n } return f(n-1) + f(n-2) } \
                  mut i = 0; mut sum = 0; while i < 10 { sum += f(i); out sum; i += 1 } \
                  return sum";
    let mut narrow = Interpreter::with_limits(10, 10);
    let mut wide = Interpreter::with_limits(100, 1000);
    let mut default = Interpreter::new();
    let first = run(&mut narrow, source);
    assert_eq!(first, Ok(Some(DataType::Number(88))));
    assert_eq!(run(&mut wide, source), first);
    assert_eq!(run(&mut default, source), first);
    assert_eq!(narrow.output(), wide.output());
    assert_eq!(narrow.output(), default.output());
    assert_eq!(narrow.vm().scopes, wide.vm().scopes);
}

#[test]
fn output_is_kept_in_order() {
    let mut interpreter = Interpreter::new();
    assert_eq!(run(&mut interpreter, "out 1 + 1; mut i = 0; while i < 3 { out i; i += 1 }"), Ok(None));
    assert_eq!(
        interpreter.output(),
        &vec![DataType::Number(2), DataType::Number(0), DataType::Number(1), DataType::Number(2)]
    );
    assert_eq!(run(&mut interpreter, "out 9"), Ok(None));
    assert_eq!(interpreter.output().len(), 5);
}

#[test]
fn a_failure_keeps_what_was_done_before_it() {
    let mut interpreter = Interpreter::new();
    assert_eq!(
        run(&mut interpreter, "mut a = 1; a = 2; var b = a / 0; a = 3"),
        Err(RuntimeError::DivisionByZero)
    );
    assert_eq!(number(&interpreter, "a"), 2);
    assert_eq!(
        run(&mut interpreter, "return b"),
        Err(RuntimeError::UndeclaredVariable("b".to_string()))
    );
}

#[test]
fn bindings_live_on_between_groups() {
    let mut interpreter = Interpreter::new();
    assert_eq!(run(&mut interpreter, "mut total = 1; fun add(n) { return n + 1 }"), Ok(None));
    assert_eq!(run(&mut interpreter, "total = add(total)"), Ok(None));
    assert_eq!(run(&mut interpreter, "return total"), Ok(Some(DataType::Number(2))));
}

#[test]
fn the_same_program_runs_the_same_on_every_fresh_runtime() {
    let source = "mut i = 0; mut sum = 0; fun sq(n) { return n * n } \
                  while i < 20 { sum += sq(i); out sum; i += 1 } return sum";
    let mut one = Interpreter::new();
    let mut other = Interpreter::new();
    let first = run(&mut one, source);
    let second = run(&mut other, source);
    assert_eq!(first, Ok(Some(DataType::Number(2470))));
    assert_eq!(first, second);
    assert_eq!(one.output(), other.output());
    assert_eq!(one.vm().scopes, other.vm().scopes);
    assert_eq!(one.vm().registers, other.vm().registers);
    for address in 0..calc_lang::vm::MEM_SIZE {
        match (one.vm().get_from_memory(address), other.vm().get_from_memory(address)) {
            (Ok(DataType::Function(p, b, s)), Ok(DataType::Function(q, c, t))) => {
                assert_eq!(p, q);
                assert_eq!(b, c);
                assert_eq!(s, t);
            },
            (a, b) => assert_eq!(a, b),
        }
    }
}

#[test]
fn equal_numbers_share_a_cell_and_nobody_notices() {
    let mut interpreter = Interpreter::new();
    assert_eq!(run(&mut interpreter, "mut a = 2 + 3; mut b = 10 / 2; var c = 5"), Ok(None));
    let a = interpreter.vm().get_variable_address("a").unwrap();
    let b = interpreter.vm().get_variable_address("b").unwrap();
    let c = interpreter.vm().get_variable_address("c").unwrap();
    assert_eq!(a, b);
    assert_eq!(a, c);
    assert_eq!(run(&mut interpreter, "a = a + 1"), Ok(None));
    assert_eq!(number(&interpreter, "a"), 6);
    assert_eq!(number(&interpreter, "b"), 5);
    assert_eq!(number(&interpreter, "c"), 5);
    assert_ne!(interpreter.vm().get_variable_address("a").unwrap(), b);
    assert_eq!(interpreter.vm().get_variable_address("b").unwrap(), b);
}

#[test]
fn cells_are_used_again_once_nothing_points_at_them() {
    let mut interpreter = Interpreter::new();
    let source = "mut i = 0; while i < 5000 { i += 1 } return i";
    assert_eq!(run(&mut interpreter, source), Ok(Some(DataType::Number(5000))));
}

#[test]
fn the_arena_runs_out_when_every_cell_is_pointed_at() {
    let mut interpreter = Interpreter::new();
    let mut source = String::new();
    for i in 0..1022 {
        source.push_str(&format!("var v{} = {}\n", i, i + 1));
    }
    assert_eq!(run(&mut interpreter, &source), Ok(None));
    assert_eq!(run(&mut interpreter, "mut last = 5000"), Ok(None));
    assert_eq!(run(&mut interpreter, "var too_many = 6000"), Err(RuntimeError::OutOfMemory));
    assert_eq!(run(&mut interpreter, "var shared = 7"), Ok(None));
    assert_eq!(run(&mut interpreter, "fun f() { }"), Err(RuntimeError::OutOfMemory));
    assert_eq!(run(&mut interpreter, "last = 7"), Ok(None));
    assert_eq!(run(&mut interpreter, "var fits_again = 6000"), Ok(None));
    assert_eq!(
        interpreter.vm().get_variable_address("fits_again"),
        Ok(calc_lang::vm::MEM_SIZE - 2)
    );
}
