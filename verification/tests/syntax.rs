use calc_lang::ast::lexer::{tokenize, Token};
use calc_lang::ast::parser::{parse, parse_expr, precedence, ASTNode, AssignmentKind, Operator};
use calc_lang::error::SyntaxError;
use calc_lang::repl::count_nesting;
use calc_lang::solve::{find_vars, get_known_values};
use calc_lang::vm::symbol::DataType;
use calc_lang::vm::VM;

fn keyword(word: &str) -> Token {
    Token::Keyword(word.to_string())
}

fn identifier(word: &str) -> Token {
    Token::Identifier(word.to_string())
}

fn operator(text: &str) -> Token {
    Token::Operator(text.to_string())
}

fn assigner(text: &str) -> Token {
    Token::Assigner(text.to_string())
}

fn name(word: &str) -> Box<ASTNode> {
    Box::new(ASTNode::Identifier(word.to_string()))
}

fn number(value: i32) -> Box<ASTNode> {
    Box::new(ASTNode::Number(value))
}

fn binary(left: Box<ASTNode>, op: Operator, right: Box<ASTNode>) -> Box<ASTNode> {
    Box::new(ASTNode::BinaryOp { left, op, right })
}

fn tree(source: &str) -> Result<Vec<ASTNode>, SyntaxError> {
    calc_lang::ast::parse(source)
}

fn expression(source: &str) -> ASTNode {
    let tokens = tokenize(source).unwrap();
    let (node, next) = parse_expr(&tokens, 0, 0).unwrap();
    assert_eq!(next, tokens.len());
    node
}

#[test]
fn words_numbers_and_signs_become_tokens() {
    assert_eq!(
        tokenize("var x1 = 42;\nmut _y=x1+7"),
        Ok(vec![
            keyword("var"),
            identifier("x1"),
            assigner("="),
            Token::Number(42),
            keyword("mut"),
            identifier("_y"),
            assigner("="),
            identifier("x1"),
            operator("+"),
            Token::Number(7),
        ])
    );
}

#[test]
fn every_keyword_is_known() {
    for word in
        ["var", "mut", "if", "else", "elseif", "while", "break", "continue", "fun", "return", "out"]
    {
        assert_eq!(tokenize(word), Ok(vec![keyword(word)]));
    }
    assert_eq!(tokenize("variable iff"), Ok(vec![identifier("variable"), identifier("iff")]));
}

#[test]
fn operators_take_a_following_equals_sign() {
    assert_eq!(
        tokenize("a += 1 -= *= /= %= = == <= >= ~= < > ~ & | &= |="),
        Ok(vec![
            identifier("a"),
            assigner("+="),
            Token::Number(1),
            assigner("-="),
            assigner("*="),
            assigner("/="),
            assigner("%="),
            assigner("="),
            operator("=="),
            operator("<="),
            operator(">="),
            operator("~="),
            operator("<"),
            operator(">"),
            operator("~"),
            operator("&"),
            operator("|"),
            operator("&="),
            operator("|="),
        ])
    );
    assert_eq!(tokenize("==="), Ok(vec![operator("=="), assigner("=")]));
}

#[test]
fn symbols_stand_alone() {
    assert_eq!(
        tokenize("f(a,b){}!"),
        Ok(vec![
            identifier("f"),
            Token::Symbol('('),
            identifier("a"),
            Token::Symbol(','),
            identifier("b"),
            Token::Symbol(')'),
            Token::Symbol('{'),
            Token::Symbol('}'),
            Token::Symbol('!'),
        ])
    );
}

#[test]
fn comments_are_skipped() {
    assert_eq!(tokenize("1 # two three\n4"), Ok(vec![Token::Number(1), Token::Number(4)]));
    assert_eq!(tokenize("1 # to the end"), Ok(vec![Token::Number(1)]));
    assert_eq!(tokenize("1 #[[ two\n] three ]] 4"), Ok(vec![Token::Number(1), Token::Number(4)]));
    assert_eq!(tokenize("1 #[ two ]] 4"), Ok(vec![Token::Number(1), Token::Number(4)]));
    assert_eq!(tokenize("1 #[[ never closed ] 4"), Ok(vec![Token::Number(1)]));
    assert_eq!(tokenize("1 #[[ @ \u{e9} ]]"), Ok(vec![Token::Number(1)]));
    assert_eq!(tokenize("#"), Ok(vec![]));
    assert_eq!(tokenize(""), Ok(vec![]));
}

#[test]
fn numbers_must_fit_thirty_two_bits() {
    assert_eq!(tokenize("2147483647"), Ok(vec![Token::Number(i32::MAX)]));
    assert_eq!(tokenize("0002147483647"), Ok(vec![Token::Number(i32::MAX)]));
    assert_eq!(tokenize("2147483648"), Err(SyntaxError::NumberOutOfRange));
    assert_eq!(tokenize("99999999999999999999999999"), Err(SyntaxError::NumberOutOfRange));
    assert_eq!(tokenize("12ab"), Ok(vec![Token::Number(12), identifier("ab")]));
}

#[test]
fn other_characters_are_refused() {
    assert_eq!(tokenize("a @ b"), Err(SyntaxError::UnexpectedCharacter('@')));
    assert_eq!(tokenize("a\rb"), Err(SyntaxError::UnexpectedCharacter('\r')));
    assert_eq!(tokenize("\u{e9}t\u{e9}"), Err(SyntaxError::UnexpectedCharacter('\u{e9}')));
    assert_eq!(tokenize("a ] b"), Err(SyntaxError::UnexpectedCharacter(']')));
}

#[test]
fn a_word_goes_on_with_any_letter_or_number() {
    assert_eq!(tokenize("caf\u{e9}9_x y"), Ok(vec![identifier("caf\u{e9}9_x"), identifier("y")]));
    assert_eq!(tokenize("a-b"), Ok(vec![identifier("a"), operator("-"), identifier("b")]));
    assert_eq!(tokenize("a.b"), Err(SyntaxError::UnexpectedCharacter('.')));
}

#[test]
fn tighter_operators_are_applied_first() {
    assert_eq!(
        expression("2 + 2 * 3"),
        *binary(number(2), Operator::Add, binary(number(2), Operator::Mul, number(3)))
    );
    assert_eq!(
        expression("2 * 2 + 3"),
        *binary(binary(number(2), Operator::Mul, number(2)), Operator::Add, number(3))
    );
    assert_eq!(
        expression("a | b & c == d < e + f * g"),
        *binary(
            name("a"),
            Operator::Or,
            binary(
                name("b"),
                Operator::And,
                binary(
                    name("c"),
                    Operator::Eq,
                    binary(
                        name("d"),
                        Operator::Lt,
                        binary(name("e"), Operator::Add, binary(name("f"), Operator::Mul, name("g")))
                    )
                )
            )
        )
    );
}

#[test]
fn equal_operators_group_to_the_left() {
    assert_eq!(
        expression("10 - 4 - 3"),
        *binary(binary(number(10), Operator::Sub, number(4)), Operator::Sub, number(3))
    );
    assert_eq!(
        expression("10 / 4 % 3"),
        *binary(binary(number(10), Operator::Div, number(4)), Operator::Mod, number(3))
    );
}

#[test]
fn unary_operators_bind_tightest() {
    assert_eq!(
        expression("-a * b"),
        *binary(
            Box::new(ASTNode::UnaryOp { op: Operator::Neg, expr: name("a") }),
            Operator::Mul,
            name("b")
        )
    );
    assert_eq!(
        expression("~-a"),
        ASTNode::UnaryOp {
            op: Operator::Not,
            expr: Box::new(ASTNode::UnaryOp { op: Operator::Neg, expr: name("a") })
        }
    );
}

#[test]
fn parentheses_group() {
    assert_eq!(
        expression("(2 + 2) * 3"),
        *binary(binary(number(2), Operator::Add, number(2)), Operator::Mul, number(3))
    );
    assert_eq!(expression("((7))"), ASTNode::Number(7));
}

#[test]
fn calls_take_expressions_as_arguments() {
    assert_eq!(
        expression("f(1, g(x, 2) + 3, (4))"),
        ASTNode::FunctionCall {
            name: "f".to_string(),
            args: vec![
                ASTNode::Number(1),
                *binary(
                    Box::new(ASTNode::FunctionCall {
                        name: "g".to_string(),
                        args: vec![ASTNode::Identifier("x".to_string()), ASTNode::Number(2)]
                    }),
                    Operator::Add,
                    number(3)
                ),
                ASTNode::Number(4),
            ]
        }
    );
    assert_eq!(expression("f()"), ASTNode::FunctionCall { name: "f".to_string(), args: vec![] });
}

#[test]
fn binding_powers_are_ordered() {
    assert_eq!(precedence(&Operator::Or), 1);
    assert_eq!(precedence(&Operator::And), 2);
    assert_eq!(precedence(&Operator::Eq), 3);
    assert_eq!(precedence(&Operator::Ne), 3);
    assert_eq!(precedence(&Operator::Lt), 4);
    assert_eq!(precedence(&Operator::Ge), 4);
    assert_eq!(precedence(&Operator::Add), 5);
    assert_eq!(precedence(&Operator::Sub), 5);
    assert_eq!(precedence(&Operator::Mul), 6);
    assert_eq!(precedence(&Operator::Mod), 6);
    assert_eq!(precedence(&Operator::Neg), 7);
    assert_eq!(precedence(&Operator::Not), 7);
}

#[test]
fn declarations_and_assignments_are_statements() {
    assert_eq!(
        tree("var a = 1 mut b = a var c c += 2 c = 3"),
        Ok(vec![
            ASTNode::VariableDeclaration { mutable: false, name: "a".to_string(), value: number(1) },
            ASTNode::VariableDeclaration { mutable: true, name: "b".to_string(), value: name("a") },
            ASTNode::VariableDeclaration { mutable: false, name: "c".to_string(), value: number(0) },
            ASTNode::Assignment {
                name: "c".to_string(),
                kind: AssignmentKind::Add,
                value: number(2)
            },
            ASTNode::Assignment {
                name: "c".to_string(),
                kind: AssignmentKind::Assign,
                value: number(3)
            },
        ])
    );
}

#[test]
fn every_assigner_has_its_kind() {
    let kinds = [
        ("-=", AssignmentKind::Sub),
        ("*=", AssignmentKind::Mul),
        ("/=", AssignmentKind::Div),
        ("%=", AssignmentKind::Mod),
    ];
    for (text, kind) in kinds {
        assert_eq!(
            parse(vec![identifier("x"), assigner(text), Token::Number(1)]),
            Ok(vec![ASTNode::Assignment { name: "x".to_string(), kind, value: number(1) }])
        );
    }
    assert_eq!(
        parse(vec![identifier("x"), assigner("^="), Token::Number(1)]),
        Err(SyntaxError::UnexpectedAssignmentOperator)
    );
}

#[test]
fn functions_are_declared_with_parameters_and_a_body() {
    assert_eq!(
        tree("fun add(a, b) { return a + b } fun nothing() { } fun bare { break }"),
        Ok(vec![
            ASTNode::FunctionDeclaration {
                name: "add".to_string(),
                params: vec!["a".to_string(), "b".to_string()],
                body: vec![ASTNode::Return { expr: binary(name("a"), Operator::Add, name("b")) }],
            },
            ASTNode::FunctionDeclaration {
                name: "nothing".to_string(),
                params: vec![],
                body: vec![]
            },
            ASTNode::FunctionDeclaration {
                name: "bare".to_string(),
                params: vec![],
                body: vec![ASTNode::Break {}]
            },
        ])
    );
}

#[test]
fn blocks_nest() {
    assert_eq!(
        tree("while a { if b { break } elseif c { continue } elseif d { } else { out 1 } f(2) }"),
        Ok(vec![ASTNode::WhileStatement {
            condition: name("a"),
            body: vec![
                ASTNode::IfStatement {
                    condition: name("b"),
                    body: vec![ASTNode::Break {}],
                    else_body: vec![ASTNode::Output { expr: number(1) }],
                    else_ifs: vec![(name("c"), vec![ASTNode::Continue {}]), (name("d"), vec![])],
                },
                ASTNode::FunctionCall { name: "f".to_string(), args: vec![ASTNode::Number(2)] },
            ],
        }])
    );
}

#[test]
fn a_keyword_that_starts_nothing_is_passed_over() {
    assert_eq!(tree("else break elseif"), Ok(vec![ASTNode::Break {}]));
}

#[test]
fn what_is_no_program_is_refused() {
    assert_eq!(tree("x"), Err(SyntaxError::UnexpectedIdentifier("x".to_string())));
    assert_eq!(tree("x y"), Err(SyntaxError::UnexpectedIdentifier("x".to_string())));
    assert_eq!(tree("1 + 2"), Err(SyntaxError::UnexpectedStatement));
    assert_eq!(tree("}"), Err(SyntaxError::UnexpectedStatement));
    assert_eq!(tree("return"), Err(SyntaxError::UnexpectedToken));
    assert_eq!(tree("return )"), Err(SyntaxError::UnexpectedToken));
    assert_eq!(tree("return if"), Err(SyntaxError::UnexpectedToken));
    assert_eq!(tree("return * 2"), Err(SyntaxError::UnexpectedOperator));
    assert_eq!(tree("return 1 ~ 2"), Err(SyntaxError::UnexpectedOperator));
    assert_eq!(tree("return 1 &= 2"), Err(SyntaxError::UnexpectedOperator));
    assert_eq!(tree("return (1 + 2"), Err(SyntaxError::ExpectedClosingParenthesis));
    assert_eq!(tree("return (1 2)"), Err(SyntaxError::ExpectedClosingParenthesis));
    assert_eq!(tree("f(1 2)"), Err(SyntaxError::ExpectedClosingParenthesis));
    assert_eq!(tree("f(1"), Err(SyntaxError::ExpectedClosingParenthesis));
    assert_eq!(tree("f(1,)"), Err(SyntaxError::ExpectedExpression));
    assert_eq!(tree("f(,1)"), Err(SyntaxError::ExpectedExpression));
    assert_eq!(tree("f("), Err(SyntaxError::UnexpectedToken));
    assert_eq!(tree("var 1"), Err(SyntaxError::ExpectedIdentifier));
    assert_eq!(tree("var"), Err(SyntaxError::ExpectedIdentifier));
    assert_eq!(tree("fun 1"), Err(SyntaxError::ExpectedIdentifier));
    assert_eq!(tree("fun"), Err(SyntaxError::ExpectedIdentifier));
    assert_eq!(tree("var x += 1"), Err(SyntaxError::UnexpectedAssignmentInDeclaration));
    assert_eq!(tree("mut x"), Err(SyntaxError::ExpectedAssignmentInDeclaration));
    assert_eq!(tree("fun f(a b) { }"), Err(SyntaxError::ExpectedCommaOrParenthesis));
    assert_eq!(tree("fun f(a"), Err(SyntaxError::ExpectedCommaOrParenthesis));
    assert_eq!(tree("fun f(a)"), Err(SyntaxError::ExpectedCodeBlock));
    assert_eq!(tree("fun f(a) { break"), Err(SyntaxError::ExpectedCodeBlock));
    assert_eq!(tree("if x break"), Err(SyntaxError::ExpectedCodeBlock));
    assert_eq!(tree("if x { } else break"), Err(SyntaxError::ExpectedCodeBlock));
    assert_eq!(tree("while x"), Err(SyntaxError::ExpectedCodeBlock));
    assert_eq!(tree("while { }"), Err(SyntaxError::UnexpectedToken));
    assert_eq!(tree("x = @"), Err(SyntaxError::UnexpectedCharacter('@')));
}

#[test]
fn the_variables_of_a_tree_are_found_in_order() {
    let program = tree(
        "x = a + b * a; if c { out d } elseif e { f(g, -h) } else { return i } \
         while j { var k = l } fun m(n) { o = p }",
    )
    .unwrap();
    let mut found = vec![];
    for node in &program {
        found.extend(find_vars(node));
    }
    let expected: Vec<String> =
        ["a", "b", "a", "c", "d", "e", "g", "h", "i", "j", "l", "p"].iter().map(|s| s.to_string()).collect();
    assert_eq!(found, expected);
    assert_eq!(find_vars(&ASTNode::Number(1)), Vec::<String>::new());
    assert_eq!(find_vars(&ASTNode::Break {}), Vec::<String>::new());
}

#[test]
fn known_values_are_the_numbers_among_the_variables() {
    let mut vm = VM::new();
    vm.declare_variable("a".to_string(), DataType::Number(4), false).unwrap();
    vm.declare_variable("n".to_string(), DataType::Null(), false).unwrap();
    vm.declare_function("f".to_string(), vec![], vec![]).unwrap();
    vm.declare_variable("b".to_string(), DataType::Number(-2), true).unwrap();
    let vars: Vec<String> =
        ["b", "missing", "f", "a", "n", "b"].iter().map(|s| s.to_string()).collect();
    assert_eq!(
        get_known_values(&vars, &vm),
        vec![("b".to_string(), -2), ("a".to_string(), 4), ("b".to_string(), -2)]
    );
}

#[test]
fn nesting_counts_open_brackets() {
    assert_eq!(count_nesting(""), 0);
    assert_eq!(count_nesting("if x {"), 1);
    assert_eq!(count_nesting("if x { f(("), 3);
    assert_eq!(count_nesting("if x { f([1]) }"), 0);
    assert_eq!(count_nesting("} )"), -2);
    assert_eq!(count_nesting("fun f() {\nwhile 1 {\n"), 2);
}
