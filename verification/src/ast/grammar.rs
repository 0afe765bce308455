//! The grammar: what tree a list of tokens stands for.
//!
//! Every function here reads tokens from an index on and gives what it read
//! together with the index of the first token it left.

use super::lexer::Lexeme;
use super::parser::{AssignmentKind, Node, Operator};
use crate::error::SyntaxFailure;
use vstd::prelude::*;

verus! {

/// How tightly an operator binds; a higher number binds tighter.
pub open spec fn binding_power(op: Operator) -> int {
    match op {
        Operator::Or => 1,
        Operator::And => 2,
        Operator::Eq | Operator::Ne => 3,
        Operator::Lt | Operator::Le | Operator::Gt | Operator::Ge => 4,
        Operator::Add | Operator::Sub => 5,
        Operator::Mul | Operator::Div | Operator::Mod => 6,
        Operator::Neg | Operator::Not => 7,
    }
}

/// The binary operator that a text writes.
pub open spec fn binary_operator(text: Seq<char>) -> Option<Operator> {
    if text == "+"@ {
        Some(Operator::Add)
    } else if text == "-"@ {
        Some(Operator::Sub)
    } else if text == "*"@ {
        Some(Operator::Mul)
    } else if text == "/"@ {
        Some(Operator::Div)
    } else if text == "%"@ {
        Some(Operator::Mod)
    } else if text == "&"@ {
        Some(Operator::And)
    } else if text == "|"@ {
        Some(Operator::Or)
    } else if text == "<"@ {
        Some(Operator::Lt)
    } else if text == "<="@ {
        Some(Operator::Le)
    } else if text == ">"@ {
        Some(Operator::Gt)
    } else if text == ">="@ {
        Some(Operator::Ge)
    } else if text == "=="@ {
        Some(Operator::Eq)
    } else if text == "~="@ {
        Some(Operator::Ne)
    } else {
        None
    }
}

/// The unary operator that a text writes.
pub open spec fn unary_operator(text: Seq<char>) -> Option<Operator> {
    if text == "-"@ {
        Some(Operator::Neg)
    } else if text == "~"@ {
        Some(Operator::Not)
    } else {
        None
    }
}

/// The kind of assignment that an assigner writes.
pub open spec fn assignment_kind(text: Seq<char>) -> Option<AssignmentKind> {
    if text == "="@ {
        Some(AssignmentKind::Assign)
    } else if text == "+="@ {
        Some(AssignmentKind::Add)
    } else if text == "-="@ {
        Some(AssignmentKind::Sub)
    } else if text == "*="@ {
        Some(AssignmentKind::Mul)
    } else if text == "/="@ {
        Some(AssignmentKind::Div)
    } else if text == "%="@ {
        Some(AssignmentKind::Mod)
    } else {
        None
    }
}

/// Something read, and the index of the first token after it.
pub type Read<T> = Result<(T, int), SyntaxFailure>;

/// The number of tokens from `from` on.
pub open spec fn remaining(tokens: Seq<Lexeme>, from: int) -> nat {
    if 0 <= from <= tokens.len() {
        (tokens.len() - from) as nat
    } else {
        0
    }
}

/// Whether the token at `at` is the symbol `c`.
pub open spec fn symbol_at(tokens: Seq<Lexeme>, at: int, c: char) -> bool {
    0 <= at < tokens.len() && tokens[at] == Lexeme::Symbol(c)
}

/// Whether the token at `at` is the keyword `word`.
pub open spec fn keyword_at(tokens: Seq<Lexeme>, at: int, word: Seq<char>) -> bool {
    0 <= at < tokens.len() && tokens[at] == Lexeme::Keyword(word)
}

/// What was read from the token at `from` on, if there is such a token and
/// the reading ends after it. Everything that the grammar reads does, so
/// this changes nothing that was read: see [`lemma_statement_moves_on`] and
/// the lemmas beside it.
pub open spec fn onward<T>(tokens: Seq<Lexeme>, from: int, read: Read<T>) -> Read<T> {
    match read {
        Ok((_, next)) => if 0 <= from < tokens.len() && from < next {
            read
        } else {
            Err(SyntaxFailure::UnexpectedToken)
        },
        Err(_) => read,
    }
}

/// An expression in which no operator binds less tightly than `least`: an
/// operand, then operators and operands as long as they bind tightly enough.
/// Operators of one binding power group to the left.
pub open spec fn expression(tokens: Seq<Lexeme>, from: int, least: int) -> Read<Node>
    decreases remaining(tokens, from), 2nat,
{
    match onward(tokens, from, operand(tokens, from)) {
        Ok((left, next)) => operators(tokens, next, left, least),
        Err(failure) => Err(failure),
    }
}

/// An operand: a number, a name, a call, an expression in parentheses, or a
/// unary operator with its operand.
pub open spec fn operand(tokens: Seq<Lexeme>, from: int) -> Read<Node>
    decreases remaining(tokens, from), 1nat,
{
    if from < 0 || from >= tokens.len() {
        Err(SyntaxFailure::UnexpectedToken)
    } else {
        match tokens[from] {
            Lexeme::Number(value) => Ok((Node::Number(value), from + 1)),
            Lexeme::Identifier(name) => if symbol_at(tokens, from + 1, '(') {
                call(tokens, from + 2, name)
            } else {
                Ok((Node::Identifier(name), from + 1))
            },
            Lexeme::Symbol(c) => if c == '(' {
                match expression(tokens, from + 1, 0) {
                    Ok((inner, next)) => if symbol_at(tokens, next, ')') {
                        Ok((inner, next + 1))
                    } else {
                        Err(SyntaxFailure::ExpectedClosingParenthesis)
                    },
                    Err(failure) => Err(failure),
                }
            } else {
                Err(SyntaxFailure::UnexpectedToken)
            },
            Lexeme::Operator(text) => match unary_operator(text) {
                Some(op) => match expression(tokens, from + 1, binding_power(op)) {
                    Ok((inner, next)) => Ok((Node::UnaryOp { op, expr: Box::new(inner) }, next)),
                    Err(failure) => Err(failure),
                },
                None => Err(SyntaxFailure::UnexpectedOperator),
            },
            _ => Err(SyntaxFailure::UnexpectedToken),
        }
    }
}

/// The operators that follow the operand `left`, with their operands.
pub open spec fn operators(tokens: Seq<Lexeme>, from: int, left: Node, least: int) -> Read<Node>
    decreases remaining(tokens, from), 3nat,
{
    if from < 0 || from >= tokens.len() {
        Ok((left, from))
    } else {
        match tokens[from] {
            Lexeme::Operator(text) => match binary_operator(text) {
                Some(op) => if binding_power(op) < least {
                    Ok((left, from))
                } else {
                    match onward(
                        tokens,
                        from,
                        expression(tokens, from + 1, binding_power(op) + 1),
                    ) {
                        Ok((right, next)) => operators(
                            tokens,
                            next,
                            Node::BinaryOp { left: Box::new(left), op, right: Box::new(right) },
                            least,
                        ),
                        Err(failure) => Err(failure),
                    }
                },
                None => Err(SyntaxFailure::UnexpectedOperator),
            },
            _ => Ok((left, from)),
        }
    }
}

/// A call of `name`, read from after its opening parenthesis: arguments
/// separated by commas, then the closing parenthesis.
pub open spec fn call(tokens: Seq<Lexeme>, from: int, name: Seq<char>) -> Read<Node>
    decreases remaining(tokens, from), 5nat,
{
    if symbol_at(tokens, from, ')') {
        Ok((Node::FunctionCall { name, args: Seq::empty() }, from + 1))
    } else {
        match arguments(tokens, from, Seq::empty()) {
            Ok((args, next)) => Ok((Node::FunctionCall { name, args }, next)),
            Err(failure) => Err(failure),
        }
    }
}

/// The arguments of a call from `from` on, after those in `before`, up to
/// and with the closing parenthesis.
pub open spec fn arguments(tokens: Seq<Lexeme>, from: int, before: Seq<Node>) -> Read<Seq<Node>>
    decreases remaining(tokens, from), 4nat,
{
    if symbol_at(tokens, from, ',') || symbol_at(tokens, from, ')') {
        Err(SyntaxFailure::ExpectedExpression)
    } else {
        match onward(tokens, from, expression(tokens, from, 0)) {
            Ok((argument, next)) => if symbol_at(tokens, next, ',') {
                arguments(tokens, next + 1, before.push(argument))
            } else if symbol_at(tokens, next, ')') {
                Ok((before.push(argument), next + 1))
            } else {
                Err(SyntaxFailure::ExpectedClosingParenthesis)
            },
            Err(failure) => Err(failure),
        }
    }
}

/// The parameters of a function from `from` on, after those in `before`:
/// names, each followed by a comma or by the closing parenthesis. A token
/// that is no name ends the list and is read with it.
pub open spec fn parameters(tokens: Seq<Lexeme>, from: int, before: Seq<Seq<char>>) -> Read<
    Seq<Seq<char>>,
>
    decreases remaining(tokens, from),
{
    if from < 0 || from >= tokens.len() {
        Ok((before, from))
    } else {
        match tokens[from] {
            Lexeme::Identifier(name) => if symbol_at(tokens, from + 1, ',') {
                parameters(tokens, from + 2, before.push(name))
            } else if symbol_at(tokens, from + 1, ')') {
                Ok((before.push(name), from + 2))
            } else {
                Err(SyntaxFailure::ExpectedCommaOrParenthesis)
            },
            _ => Ok((before, from + 1)),
        }
    }
}

/// A block, read from its opening brace: the statements up to the closing
/// brace that matches it.
pub open spec fn block(tokens: Seq<Lexeme>, from: int) -> Read<Seq<Node>>
    decreases remaining(tokens, from), 8nat,
{
    if symbol_at(tokens, from, '{') {
        statements(tokens, from + 1, Seq::empty(), true)
    } else {
        Err(SyntaxFailure::ExpectedCodeBlock)
    }
}

/// The statements from `from` on, after those in `before`: up to the end of
/// the tokens, or inside a block up to and with its closing brace.
pub open spec fn statements(
    tokens: Seq<Lexeme>,
    from: int,
    before: Seq<Node>,
    inside: bool,
) -> Read<Seq<Node>>
    decreases remaining(tokens, from), 7nat,
{
    if from < 0 || from >= tokens.len() {
        if inside {
            Err(SyntaxFailure::ExpectedCodeBlock)
        } else {
            Ok((before, from))
        }
    } else if inside && symbol_at(tokens, from, '}') {
        Ok((before, from + 1))
    } else {
        match onward(tokens, from, statement(tokens, from)) {
            Ok((read, next)) => statements(
                tokens,
                next,
                match read {
                    Some(node) => before.push(node),
                    None => before,
                },
                inside,
            ),
            Err(failure) => Err(failure),
        }
    }
}

/// The `elseif` branches and the `else` body that follow the body of an `if`,
/// after the branches in `before`.
pub open spec fn alternatives(
    tokens: Seq<Lexeme>,
    from: int,
    before: Seq<(Node, Seq<Node>)>,
) -> Read<(Seq<(Node, Seq<Node>)>, Seq<Node>)>
    decreases remaining(tokens, from), 10nat,
{
    if keyword_at(tokens, from, "elseif"@) {
        match onward(tokens, from, guarded(tokens, from + 1)) {
            Ok(((condition, body), next)) => alternatives(
                tokens,
                next,
                before.push((condition, body)),
            ),
            Err(failure) => Err(failure),
        }
    } else if keyword_at(tokens, from, "else"@) {
        match block(tokens, from + 1) {
            Ok((body, next)) => Ok(((before, body), next)),
            Err(failure) => Err(failure),
        }
    } else {
        Ok(((before, Seq::empty()), from))
    }
}

/// The declaration of the variable named at `from`, which follows `var` or
/// `mut`.
pub open spec fn declaration(tokens: Seq<Lexeme>, from: int, mutable: bool) -> Read<Option<Node>>
    decreases remaining(tokens, from), 5nat,
{
    if from < 0 || from >= tokens.len() {
        Err(SyntaxFailure::ExpectedIdentifier)
    } else {
        match tokens[from] {
            Lexeme::Identifier(name) => if from + 1 < tokens.len() && tokens[from
                + 1] is Assigner {
                if tokens[from + 1]->Assigner_0 == "="@ {
                    match expression(tokens, from + 2, 0) {
                        Ok((value, next)) => Ok(
                            (
                                Some(
                                    Node::VariableDeclaration {
                                        mutable,
                                        name,
                                        value: Box::new(value),
                                    },
                                ),
                                next,
                            ),
                        ),
                        Err(failure) => Err(failure),
                    }
                } else {
                    Err(SyntaxFailure::UnexpectedAssignmentInDeclaration)
                }
            } else if mutable {
                Err(SyntaxFailure::ExpectedAssignmentInDeclaration)
            } else {
                Ok(
                    (
                        Some(
                            Node::VariableDeclaration {
                                mutable,
                                name,
                                value: Box::new(Node::Number(0)),
                            },
                        ),
                        from + 1,
                    ),
                )
            },
            _ => Err(SyntaxFailure::ExpectedIdentifier),
        }
    }
}

/// The declaration of the function named at `from`, which follows `fun`.
pub open spec fn function(tokens: Seq<Lexeme>, from: int) -> Read<Option<Node>>
    decreases remaining(tokens, from), 9nat,
{
    if from < 0 || from >= tokens.len() {
        Err(SyntaxFailure::ExpectedIdentifier)
    } else {
        match tokens[from] {
            Lexeme::Identifier(name) => {
                let listed = if symbol_at(tokens, from + 1, '(') {
                    onward(tokens, from, parameters(tokens, from + 2, Seq::empty()))
                } else {
                    Ok((Seq::empty(), from + 1))
                };
                match listed {
                    Ok((params, then)) => match block(tokens, then) {
                        Ok((body, next)) => Ok(
                            (Some(Node::FunctionDeclaration { name, params, body }), next),
                        ),
                        Err(failure) => Err(failure),
                    },
                    Err(failure) => Err(failure),
                }
            },
            _ => Err(SyntaxFailure::ExpectedIdentifier),
        }
    }
}

/// What follows a keyword that starts a statement with a condition: the
/// condition and the block it guards.
pub open spec fn guarded(tokens: Seq<Lexeme>, from: int) -> Read<(Node, Seq<Node>)>
    decreases remaining(tokens, from), 9nat,
{
    match onward(tokens, from, expression(tokens, from, 0)) {
        Ok((condition, then)) => match block(tokens, then) {
            Ok((body, next)) => Ok(((condition, body), next)),
            Err(failure) => Err(failure),
        },
        Err(failure) => Err(failure),
    }
}

/// One statement. A keyword that starts no statement is passed over.
pub open spec fn statement(tokens: Seq<Lexeme>, from: int) -> Read<Option<Node>>
    decreases remaining(tokens, from), 6nat,
{
    if from < 0 || from >= tokens.len() {
        Err(SyntaxFailure::UnexpectedStatement)
    } else {
        match tokens[from] {
            Lexeme::Identifier(name) => if from + 1 < tokens.len() && tokens[from
                + 1] is Assigner {
                match assignment_kind(tokens[from + 1]->Assigner_0) {
                    Some(kind) => match expression(tokens, from + 2, 0) {
                        Ok((value, next)) => Ok(
                            (Some(Node::Assignment { name, kind, value: Box::new(value) }), next),
                        ),
                        Err(failure) => Err(failure),
                    },
                    None => Err(SyntaxFailure::UnexpectedAssignmentOperator),
                }
            } else if symbol_at(tokens, from + 1, '(') {
                match call(tokens, from + 2, name) {
                    Ok((node, next)) => Ok((Some(node), next)),
                    Err(failure) => Err(failure),
                }
            } else {
                Err(SyntaxFailure::UnexpectedIdentifier(name))
            },
            Lexeme::Keyword(word) => if word == "var"@ {
                declaration(tokens, from + 1, false)
            } else if word == "mut"@ {
                declaration(tokens, from + 1, true)
            } else if word == "fun"@ {
                function(tokens, from + 1)
            } else if word == "if"@ {
                match onward(tokens, from, guarded(tokens, from + 1)) {
                    Ok(((condition, body), then)) => match alternatives(
                        tokens,
                        then,
                        Seq::empty(),
                    ) {
                        Ok(((else_ifs, else_body), next)) => Ok(
                            (
                                Some(
                                    Node::IfStatement {
                                        condition: Box::new(condition),
                                        body,
                                        else_body,
                                        else_ifs,
                                    },
                                ),
                                next,
                            ),
                        ),
                        Err(failure) => Err(failure),
                    },
                    Err(failure) => Err(failure),
                }
            } else if word == "while"@ {
                match guarded(tokens, from + 1) {
                    Ok(((condition, body), next)) => Ok(
                        (Some(Node::WhileStatement { condition: Box::new(condition), body }), next),
                    ),
                    Err(failure) => Err(failure),
                }
            } else if word == "break"@ {
                Ok((Some(Node::Break), from + 1))
            } else if word == "continue"@ {
                Ok((Some(Node::Continue), from + 1))
            } else if word == "return"@ {
                match expression(tokens, from + 1, 0) {
                    Ok((value, next)) => Ok((Some(Node::Return { expr: Box::new(value) }), next)),
                    Err(failure) => Err(failure),
                }
            } else if word == "out"@ {
                match expression(tokens, from + 1, 0) {
                    Ok((value, next)) => Ok((Some(Node::Output { expr: Box::new(value) }), next)),
                    Err(failure) => Err(failure),
                }
            } else {
                Ok((None, from + 1))
            },
            _ => Err(SyntaxFailure::UnexpectedStatement),
        }
    }
}

/// The program that a list of tokens stands for.
pub open spec fn program(tokens: Seq<Lexeme>) -> Result<Seq<Node>, SyntaxFailure> {
    match statements(tokens, 0, Seq::empty(), false) {
        Ok((nodes, _)) => Ok(nodes),
        Err(failure) => Err(failure),
    }
}

/// Whether something read from `from` on ended after it and inside the
/// tokens.
pub open spec fn moves_on<T>(tokens: Seq<Lexeme>, from: int, read: Read<T>) -> bool {
    match read {
        Ok((_, next)) => from < next <= tokens.len(),
        Err(_) => true,
    }
}

/// Whether something read from `from` on ended at or after it and inside
/// the tokens.
pub open spec fn stays_in<T>(tokens: Seq<Lexeme>, from: int, read: Read<T>) -> bool {
    match read {
        Ok((_, next)) => from <= next <= tokens.len(),
        Err(_) => true,
    }
}

/// An expression that was read holds at least one token.
pub proof fn lemma_expression_moves_on(tokens: Seq<Lexeme>, from: int, least: int)
    requires
        0 <= from,
    ensures
        moves_on(tokens, from, expression(tokens, from, least)),
    decreases remaining(tokens, from), 2nat,
{
    lemma_operand_moves_on(tokens, from);
    match onward(tokens, from, operand(tokens, from)) {
        Ok((left, next)) => {
            lemma_operators_stay_in(tokens, next, left, least);
        },
        Err(_) => {},
    }
}

/// An operand that was read holds at least one token.
pub proof fn lemma_operand_moves_on(tokens: Seq<Lexeme>, from: int)
    requires
        0 <= from,
    ensures
        moves_on(tokens, from, operand(tokens, from)),
    decreases remaining(tokens, from), 1nat,
{
    if from < tokens.len() {
        match tokens[from] {
            Lexeme::Identifier(name) => {
                if symbol_at(tokens, from + 1, '(') {
                    lemma_call_moves_on(tokens, from + 2, name);
                }
            },
            Lexeme::Symbol(c) => {
                if c == '(' {
                    lemma_expression_moves_on(tokens, from + 1, 0);
                }
            },
            Lexeme::Operator(text) => {
                match unary_operator(text) {
                    Some(op) => {
                        lemma_expression_moves_on(tokens, from + 1, binding_power(op));
                    },
                    None => {},
                }
            },
            _ => {},
        }
    }
}

/// The operators read after an operand end inside the tokens.
pub proof fn lemma_operators_stay_in(tokens: Seq<Lexeme>, from: int, left: Node, least: int)
    requires
        0 <= from <= tokens.len(),
    ensures
        stays_in(tokens, from, operators(tokens, from, left, least)),
    decreases remaining(tokens, from), 3nat,
{
    if from < tokens.len() {
        match tokens[from] {
            Lexeme::Operator(text) => {
                match binary_operator(text) {
                    Some(op) => {
                        if binding_power(op) >= least {
                            lemma_expression_moves_on(tokens, from + 1, binding_power(op) + 1);
                            match onward(
                                tokens,
                                from,
                                expression(tokens, from + 1, binding_power(op) + 1),
                            ) {
                                Ok((right, next)) => {
                                    lemma_operators_stay_in(
                                        tokens,
                                        next,
                                        Node::BinaryOp {
                                            left: Box::new(left),
                                            op,
                                            right: Box::new(right),
                                        },
                                        least,
                                    );
                                },
                                Err(_) => {},
                            }
                        }
                    },
                    None => {},
                }
            },
            _ => {},
        }
    }
}

/// A call that was read ends with its closing parenthesis.
pub proof fn lemma_call_moves_on(tokens: Seq<Lexeme>, from: int, name: Seq<char>)
    requires
        0 <= from,
    ensures
        moves_on(tokens, from, call(tokens, from, name)),
    decreases remaining(tokens, from), 5nat,
{
    if !symbol_at(tokens, from, ')') {
        lemma_arguments_move_on(tokens, from, Seq::empty());
    }
}

/// Arguments that were read end with the closing parenthesis.
pub proof fn lemma_arguments_move_on(tokens: Seq<Lexeme>, from: int, before: Seq<Node>)
    requires
        0 <= from,
    ensures
        moves_on(tokens, from, arguments(tokens, from, before)),
    decreases remaining(tokens, from), 4nat,
{
    if !(symbol_at(tokens, from, ',') || symbol_at(tokens, from, ')')) {
        lemma_expression_moves_on(tokens, from, 0);
        match onward(tokens, from, expression(tokens, from, 0)) {
            Ok((argument, next)) => {
                if symbol_at(tokens, next, ',') {
                    lemma_arguments_move_on(tokens, next + 1, before.push(argument));
                }
            },
            Err(_) => {},
        }
    }
}

/// Parameters that were read end inside the tokens.
pub proof fn lemma_parameters_stay_in(tokens: Seq<Lexeme>, from: int, before: Seq<Seq<char>>)
    requires
        0 <= from <= tokens.len(),
    ensures
        stays_in(tokens, from, parameters(tokens, from, before)),
    decreases remaining(tokens, from),
{
    if from < tokens.len() {
        match tokens[from] {
            Lexeme::Identifier(name) => {
                if symbol_at(tokens, from + 1, ',') {
                    lemma_parameters_stay_in(tokens, from + 2, before.push(name));
                }
            },
            _ => {},
        }
    }
}

/// A block that was read ends with its closing brace.
pub proof fn lemma_block_moves_on(tokens: Seq<Lexeme>, from: int)
    requires
        0 <= from,
    ensures
        moves_on(tokens, from, block(tokens, from)),
    decreases remaining(tokens, from), 8nat,
{
    if symbol_at(tokens, from, '{') {
        lemma_statements_stay_in(tokens, from + 1, Seq::empty(), true);
    }
}

/// Statements that were read end inside the tokens; those of a block end
/// with its closing brace.
pub proof fn lemma_statements_stay_in(
    tokens: Seq<Lexeme>,
    from: int,
    before: Seq<Node>,
    inside: bool,
)
    requires
        0 <= from <= tokens.len(),
    ensures
        stays_in(tokens, from, statements(tokens, from, before, inside)),
        inside ==> moves_on(tokens, from, statements(tokens, from, before, inside)),
    decreases remaining(tokens, from), 7nat,
{
    if from < tokens.len() && !(inside && symbol_at(tokens, from, '}')) {
        lemma_statement_moves_on(tokens, from);
        match onward(tokens, from, statement(tokens, from)) {
            Ok((read, next)) => {
                lemma_statements_stay_in(
                    tokens,
                    next,
                    match read {
                        Some(node) => before.push(node),
                        None => before,
                    },
                    inside,
                );
            },
            Err(_) => {},
        }
    }
}

/// A condition with its block, once read, ends with the closing brace.
pub proof fn lemma_guarded_moves_on(tokens: Seq<Lexeme>, from: int)
    requires
        0 <= from,
    ensures
        moves_on(tokens, from, guarded(tokens, from)),
    decreases remaining(tokens, from), 9nat,
{
    lemma_expression_moves_on(tokens, from, 0);
    match onward(tokens, from, expression(tokens, from, 0)) {
        Ok((condition, then)) => {
            lemma_block_moves_on(tokens, then);
        },
        Err(_) => {},
    }
}

/// The branches read after the body of an `if` end inside the tokens.
pub proof fn lemma_alternatives_stay_in(
    tokens: Seq<Lexeme>,
    from: int,
    before: Seq<(Node, Seq<Node>)>,
)
    requires
        0 <= from <= tokens.len(),
    ensures
        stays_in(tokens, from, alternatives(tokens, from, before)),
    decreases remaining(tokens, from), 10nat,
{
    if keyword_at(tokens, from, "elseif"@) {
        lemma_guarded_moves_on(tokens, from + 1);
        match onward(tokens, from, guarded(tokens, from + 1)) {
            Ok(((condition, body), next)) => {
                lemma_alternatives_stay_in(tokens, next, before.push((condition, body)));
            },
            Err(_) => {},
        }
    } else if keyword_at(tokens, from, "else"@) {
        lemma_block_moves_on(tokens, from + 1);
    }
}

/// A declaration of a variable that was read holds at least its name.
pub proof fn lemma_declaration_moves_on(tokens: Seq<Lexeme>, from: int, mutable: bool)
    requires
        0 <= from,
    ensures
        moves_on(tokens, from, declaration(tokens, from, mutable)),
    decreases remaining(tokens, from), 5nat,
{
    if from < tokens.len() {
        lemma_expression_moves_on(tokens, from + 2, 0);
    }
}

/// A declaration of a function that was read ends with the closing brace of
/// its body.
pub proof fn lemma_function_moves_on(tokens: Seq<Lexeme>, from: int)
    requires
        0 <= from,
    ensures
        moves_on(tokens, from, function(tokens, from)),
    decreases remaining(tokens, from), 9nat,
{
    if from < tokens.len() {
        if symbol_at(tokens, from + 1, '(') {
            lemma_parameters_stay_in(tokens, from + 2, Seq::empty());
            match onward(tokens, from, parameters(tokens, from + 2, Seq::empty())) {
                Ok((params, then)) => {
                    lemma_block_moves_on(tokens, then);
                },
                Err(_) => {},
            }
        } else {
            lemma_block_moves_on(tokens, from + 1);
        }
    }
}

/// A statement that was read holds at least one token. So does everything
/// else that the grammar reads between two statements: `onward` never turns
/// something that was read into a failure.
pub proof fn lemma_statement_moves_on(tokens: Seq<Lexeme>, from: int)
    requires
        0 <= from,
    ensures
        moves_on(tokens, from, statement(tokens, from)),
        onward(tokens, from, statement(tokens, from)) == statement(tokens, from),
    decreases remaining(tokens, from), 6nat,
{
    if from < tokens.len() {
        match tokens[from] {
            Lexeme::Identifier(name) => {
                if from + 1 < tokens.len() && tokens[from + 1] is Assigner {
                    lemma_expression_moves_on(tokens, from + 2, 0);
                } else if symbol_at(tokens, from + 1, '(') {
                    lemma_call_moves_on(tokens, from + 2, name);
                }
            },
            Lexeme::Keyword(word) => {
                if word == "var"@ {
                    lemma_declaration_moves_on(tokens, from + 1, false);
                } else if word == "mut"@ {
                    lemma_declaration_moves_on(tokens, from + 1, true);
                } else if word == "fun"@ {
                    lemma_function_moves_on(tokens, from + 1);
                } else if word == "if"@ {
                    lemma_guarded_moves_on(tokens, from + 1);
                    match onward(tokens, from, guarded(tokens, from + 1)) {
                        Ok(((condition, body), then)) => {
                            lemma_alternatives_stay_in(tokens, then, Seq::empty());
                        },
                        Err(_) => {},
                    }
                } else if word == "while"@ {
                    lemma_guarded_moves_on(tokens, from + 1);
                } else if word == "return"@ {
                    lemma_expression_moves_on(tokens, from + 1, 0);
                } else if word == "out"@ {
                    lemma_expression_moves_on(tokens, from + 1, 0);
                }
            },
            _ => {},
        }
    }
}

} // verus!
