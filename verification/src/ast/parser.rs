//! The tree a program is parsed into, its mathematical model, and the parser.

use super::grammar;
use super::lexer::{lexemes, Token};
use crate::error::{SyntaxError, SyntaxFailure};
use vstd::prelude::*;

verus! {

/// The flavour of an assignment statement.
#[derive(Clone, Copy, Debug, PartialEq, Eq)]
pub enum AssignmentKind {
    Assign,
    Add,
    Sub,
    Mul,
    Div,
    Mod,
}

/// The operators of the language, binary and unary.
#[derive(Clone, Copy, Debug, PartialEq, Eq)]
pub enum Operator {
    Add,
    Sub,
    Mul,
    Div,
    Mod,
    And,
    Or,
    Not,
    Eq,
    Ne,
    Lt,
    Le,
    Gt,
    Ge,
    Neg,
}

/// One node of the syntax tree.
#[derive(Debug, PartialEq)]
pub enum ASTNode {
    /// A variable or function name.
    Identifier(String),
    /// An integer literal.
    Number(i32),
    /// An operation on two operands.
    BinaryOp { left: Box<ASTNode>, op: Operator, right: Box<ASTNode> },
    /// An operation on one operand.
    UnaryOp { op: Operator, expr: Box<ASTNode> },
    /// `var name = value` or `mut name = value`.
    VariableDeclaration { mutable: bool, name: String, value: Box<ASTNode> },
    /// `name = value`, `name += value` and the like.
    Assignment { name: String, kind: AssignmentKind, value: Box<ASTNode> },
    /// `fun name(params) { body }`.
    FunctionDeclaration { name: String, params: Vec<String>, body: Vec<ASTNode> },
    /// `name(args)`.
    FunctionCall { name: String, args: Vec<ASTNode> },
    /// `if condition { body } elseif .. { .. } else { else_body }`.
    IfStatement {
        condition: Box<ASTNode>,
        body: Vec<ASTNode>,
        else_body: Vec<ASTNode>,
        else_ifs: Vec<(Box<ASTNode>, Vec<ASTNode>)>,
    },
    /// `while condition { body }`.
    WhileStatement { condition: Box<ASTNode>, body: Vec<ASTNode> },
    Break {},
    Continue {},
    Return { expr: Box<ASTNode> },
    Output { expr: Box<ASTNode> },
}

/// The mathematical content of an [`ASTNode`]: names are character sequences,
/// lists are sequences.
pub ghost enum Node {
    Identifier(Seq<char>),
    Number(i32),
    BinaryOp { left: Box<Node>, op: Operator, right: Box<Node> },
    UnaryOp { op: Operator, expr: Box<Node> },
    VariableDeclaration { mutable: bool, name: Seq<char>, value: Box<Node> },
    Assignment { name: Seq<char>, kind: AssignmentKind, value: Box<Node> },
    FunctionDeclaration { name: Seq<char>, params: Seq<Seq<char>>, body: Seq<Node> },
    FunctionCall { name: Seq<char>, args: Seq<Node> },
    IfStatement {
        condition: Box<Node>,
        body: Seq<Node>,
        else_body: Seq<Node>,
        else_ifs: Seq<(Node, Seq<Node>)>,
    },
    WhileStatement { condition: Box<Node>, body: Seq<Node> },
    Break,
    Continue,
    Return { expr: Box<Node> },
    Output { expr: Box<Node> },
}

/// The names of a list of strings.
pub open spec fn names_model(names: Seq<String>) -> Seq<Seq<char>> {
    Seq::new(names.len(), |i: int| names[i]@)
}

/// The model of each node of a list, in order.
pub open spec fn nodes_model(nodes: Seq<ASTNode>) -> Seq<Node>
    decreases nodes,
{
    Seq::new(
        nodes.len(),
        |i: int|
            if 0 <= i < nodes.len() {
                node_model(nodes[i])
            } else {
                Node::Break
            },
    )
}

/// The model of each `elseif` branch of a list, in order.
pub open spec fn branches_model(branches: Seq<(Box<ASTNode>, Vec<ASTNode>)>) -> Seq<
    (Node, Seq<Node>),
>
    decreases branches,
{
    Seq::new(
        branches.len(),
        |i: int|
            if 0 <= i < branches.len() {
                (node_model(*branches[i].0), nodes_model(branches[i].1@))
            } else {
                (Node::Break, Seq::empty())
            },
    )
}

/// The model of one node.
pub open spec fn node_model(node: ASTNode) -> Node
    decreases node,
{
    match node {
        ASTNode::Identifier(name) => Node::Identifier(name@),
        ASTNode::Number(value) => Node::Number(value),
        ASTNode::BinaryOp { left, op, right } => Node::BinaryOp {
            left: Box::new(node_model(*left)),
            op,
            right: Box::new(node_model(*right)),
        },
        ASTNode::UnaryOp { op, expr } => Node::UnaryOp { op, expr: Box::new(node_model(*expr)) },
        ASTNode::VariableDeclaration { mutable, name, value } => Node::VariableDeclaration {
            mutable,
            name: name@,
            value: Box::new(node_model(*value)),
        },
        ASTNode::Assignment { name, kind, value } => Node::Assignment {
            name: name@,
            kind,
            value: Box::new(node_model(*value)),
        },
        ASTNode::FunctionDeclaration { name, params, body } => Node::FunctionDeclaration {
            name: name@,
            params: names_model(params@),
            body: nodes_model(body@),
        },
        ASTNode::FunctionCall { name, args } => Node::FunctionCall {
            name: name@,
            args: nodes_model(args@),
        },
        ASTNode::IfStatement { condition, body, else_body, else_ifs } => Node::IfStatement {
            condition: Box::new(node_model(*condition)),
            body: nodes_model(body@),
            else_body: nodes_model(else_body@),
            else_ifs: branches_model(else_ifs@),
        },
        ASTNode::WhileStatement { condition, body } => Node::WhileStatement {
            condition: Box::new(node_model(*condition)),
            body: nodes_model(body@),
        },
        ASTNode::Break {  } => Node::Break,
        ASTNode::Continue {  } => Node::Continue,
        ASTNode::Return { expr } => Node::Return { expr: Box::new(node_model(*expr)) },
        ASTNode::Output { expr } => Node::Output { expr: Box::new(node_model(*expr)) },
    }
}

impl View for ASTNode {
    type V = Node;

    open spec fn view(&self) -> Node {
        node_model(*self)
    }
}

/// A copy of a list of names.
pub fn duplicate_names(names: &Vec<String>) -> (copy: Vec<String>)
    ensures
        names_model(copy@) == names_model(names@),
{
    let mut copy: Vec<String> = Vec::new();
    let mut i: usize = 0;
    while i < names.len()
        invariant
            i <= names.len(),
            copy.len() == i,
            forall|k: int| 0 <= k < i ==> copy@[k]@ == names@[k]@,
        decreases names.len() - i,
    {
        copy.push(names[i].clone());
        i += 1;
    }
    assert(names_model(copy@) =~= names_model(names@));
    copy
}

/// A copy of a list of nodes.
pub fn duplicate_nodes(nodes: &Vec<ASTNode>) -> (copy: Vec<ASTNode>)
    ensures
        nodes_model(copy@) == nodes_model(nodes@),
    decreases nodes,
{
    let mut copy: Vec<ASTNode> = Vec::new();
    let mut i: usize = 0;
    while i < nodes.len()
        invariant
            i <= nodes.len(),
            copy.len() == i,
            forall|k: int| 0 <= k < i ==> copy@[k]@ == nodes@[k]@,
        decreases nodes.len() - i,
    {
        copy.push(nodes[i].duplicate());
        i += 1;
    }
    assert(nodes_model(copy@) =~= nodes_model(nodes@));
    copy
}

/// A copy of a list of `elseif` branches.
pub fn duplicate_branches(branches: &Vec<(Box<ASTNode>, Vec<ASTNode>)>) -> (copy: Vec<
    (Box<ASTNode>, Vec<ASTNode>),
>)
    ensures
        branches_model(copy@) == branches_model(branches@),
    decreases branches,
{
    let mut copy: Vec<(Box<ASTNode>, Vec<ASTNode>)> = Vec::new();
    let mut i: usize = 0;
    while i < branches.len()
        invariant
            i <= branches.len(),
            copy.len() == i,
            forall|k: int|
                0 <= k < i ==> (*copy@[k].0)@ == (*branches@[k].0)@ && nodes_model(copy@[k].1@)
                    == nodes_model(branches@[k].1@),
        decreases branches.len() - i,
    {
        let condition = branches[i].0.duplicate();
        let body = duplicate_nodes(&branches[i].1);
        copy.push((Box::new(condition), body));
        i += 1;
    }
    assert(branches_model(copy@) =~= branches_model(branches@));
    copy
}

impl ASTNode {
    /// A copy of the node and of everything below it.
    pub fn duplicate(&self) -> (copy: ASTNode)
        ensures
            copy@ == self@,
        decreases self,
    {
        match self {
            ASTNode::Identifier(name) => ASTNode::Identifier(name.clone()),
            ASTNode::Number(value) => ASTNode::Number(*value),
            ASTNode::BinaryOp { left, op, right } => ASTNode::BinaryOp {
                left: Box::new(left.duplicate()),
                op: *op,
                right: Box::new(right.duplicate()),
            },
            ASTNode::UnaryOp { op, expr } => ASTNode::UnaryOp {
                op: *op,
                expr: Box::new(expr.duplicate()),
            },
            ASTNode::VariableDeclaration { mutable, name, value } => ASTNode::VariableDeclaration {
                mutable: *mutable,
                name: name.clone(),
                value: Box::new(value.duplicate()),
            },
            ASTNode::Assignment { name, kind, value } => ASTNode::Assignment {
                name: name.clone(),
                kind: *kind,
                value: Box::new(value.duplicate()),
            },
            ASTNode::FunctionDeclaration { name, params, body } => ASTNode::FunctionDeclaration {
                name: name.clone(),
                params: duplicate_names(params),
                body: duplicate_nodes(body),
            },
            ASTNode::FunctionCall { name, args } => ASTNode::FunctionCall {
                name: name.clone(),
                args: duplicate_nodes(args),
            },
            ASTNode::IfStatement { condition, body, else_body, else_ifs } => ASTNode::IfStatement {
                condition: Box::new(condition.duplicate()),
                body: duplicate_nodes(body),
                else_body: duplicate_nodes(else_body),
                else_ifs: duplicate_branches(else_ifs),
            },
            ASTNode::WhileStatement { condition, body } => ASTNode::WhileStatement {
                condition: Box::new(condition.duplicate()),
                body: duplicate_nodes(body),
            },
            ASTNode::Break {  } => ASTNode::Break {  },
            ASTNode::Continue {  } => ASTNode::Continue {  },
            ASTNode::Return { expr } => ASTNode::Return { expr: Box::new(expr.duplicate()) },
            ASTNode::Output { expr } => ASTNode::Output { expr: Box::new(expr.duplicate()) },
        }
    }
}

impl Clone for ASTNode {
    fn clone(&self) -> (copy: ASTNode)
        ensures
            copy@ == self@,
    {
        self.duplicate()
    }
}

/// How tightly an operator binds; a higher number binds tighter.
pub fn precedence(op: &Operator) -> (power: i32)
    ensures
        power == grammar::binding_power(*op),
        1 <= power <= 7,
{
    match op {
        Operator::Or => 1,
        Operator::And => 2,
        Operator::Eq | Operator::Ne => 3,
        Operator::Lt | Operator::Le | Operator::Gt | Operator::Ge => 4,
        Operator::Add | Operator::Sub => 5,
        Operator::Mul | Operator::Div | Operator::Mod => 6,
        Operator::Neg | Operator::Not => 7,
    }
}

/// Whether the text is the literal.
fn is_text(text: &String, literal: &str) -> (same: bool)
    ensures
        same == (text@ == literal@),
{
    *text == literal.to_owned()
}

/// The binary operator that a text writes.
fn binary_operator(text: &String) -> (op: Option<Operator>)
    ensures
        op == grammar::binary_operator(text@),
{
    if is_text(text, "+") {
        Some(Operator::Add)
    } else if is_text(text, "-") {
        Some(Operator::Sub)
    } else if is_text(text, "*") {
        Some(Operator::Mul)
    } else if is_text(text, "/") {
        Some(Operator::Div)
    } else if is_text(text, "%") {
        Some(Operator::Mod)
    } else if is_text(text, "&") {
        Some(Operator::And)
    } else if is_text(text, "|") {
        Some(Operator::Or)
    } else if is_text(text, "<") {
        Some(Operator::Lt)
    } else if is_text(text, "<=") {
        Some(Operator::Le)
    } else if is_text(text, ">") {
        Some(Operator::Gt)
    } else if is_text(text, ">=") {
        Some(Operator::Ge)
    } else if is_text(text, "==") {
        Some(Operator::Eq)
    } else if is_text(text, "~=") {
        Some(Operator::Ne)
    } else {
        None
    }
}

/// The unary operator that a text writes.
fn unary_operator(text: &String) -> (op: Option<Operator>)
    ensures
        op == grammar::unary_operator(text@),
{
    if is_text(text, "-") {
        Some(Operator::Neg)
    } else if is_text(text, "~") {
        Some(Operator::Not)
    } else {
        None
    }
}

/// The kind of assignment that an assigner writes.
fn assignment_kind(text: &String) -> (kind: Option<AssignmentKind>)
    ensures
        kind == grammar::assignment_kind(text@),
{
    if is_text(text, "=") {
        Some(AssignmentKind::Assign)
    } else if is_text(text, "+=") {
        Some(AssignmentKind::Add)
    } else if is_text(text, "-=") {
        Some(AssignmentKind::Sub)
    } else if is_text(text, "*=") {
        Some(AssignmentKind::Mul)
    } else if is_text(text, "/=") {
        Some(AssignmentKind::Div)
    } else if is_text(text, "%=") {
        Some(AssignmentKind::Mod)
    } else {
        None
    }
}

/// Whether the token at `at` is the symbol `c`.
fn symbol_at(tokens: &Vec<Token>, at: usize, c: char) -> (found: bool)
    ensures
        found == grammar::symbol_at(lexemes(tokens@), at as int, c),
{
    if at < tokens.len() {
        match &tokens[at] {
            Token::Symbol(symbol) => *symbol == c,
            _ => false,
        }
    } else {
        false
    }
}

/// Whether the token at `at` is the keyword `word`.
fn keyword_at(tokens: &Vec<Token>, at: usize, word: &str) -> (found: bool)
    ensures
        found == grammar::keyword_at(lexemes(tokens@), at as int, word@),
{
    if at < tokens.len() {
        match &tokens[at] {
            Token::Keyword(keyword) => is_text(keyword, word),
            _ => false,
        }
    } else {
        false
    }
}

/// The model of a node that was read.
pub open spec fn node_read(outcome: Result<(ASTNode, usize), SyntaxError>) -> grammar::Read<Node> {
    match outcome {
        Ok((node, next)) => Ok((node@, next as int)),
        Err(error) => Err(error@),
    }
}

/// The model of a statement that was read.
pub open spec fn statement_read(outcome: Result<(Option<ASTNode>, usize), SyntaxError>)
    -> grammar::Read<Option<Node>> {
    match outcome {
        Ok((Some(node), next)) => Ok((Some(node@), next as int)),
        Ok((None, next)) => Ok((None, next as int)),
        Err(error) => Err(error@),
    }
}

/// The model of a list of nodes that was read.
pub open spec fn nodes_read(outcome: Result<(Vec<ASTNode>, usize), SyntaxError>) -> grammar::Read<
    Seq<Node>,
> {
    match outcome {
        Ok((nodes, next)) => Ok((nodes_model(nodes@), next as int)),
        Err(error) => Err(error@),
    }
}

/// The model of a list of names that was read.
pub open spec fn names_read(outcome: Result<(Vec<String>, usize), SyntaxError>) -> grammar::Read<
    Seq<Seq<char>>,
> {
    match outcome {
        Ok((names, next)) => Ok((names_model(names@), next as int)),
        Err(error) => Err(error@),
    }
}

/// The model of a condition and the block it guards, as read.
pub open spec fn guarded_read(outcome: Result<((ASTNode, Vec<ASTNode>), usize), SyntaxError>)
    -> grammar::Read<(Node, Seq<Node>)> {
    match outcome {
        Ok(((condition, body), next)) => Ok(((condition@, nodes_model(body@)), next as int)),
        Err(error) => Err(error@),
    }
}

/// The model of the branches that follow the body of an `if`, as read.
pub open spec fn alternatives_read(
    outcome: Result<((Vec<(Box<ASTNode>, Vec<ASTNode>)>, Vec<ASTNode>), usize), SyntaxError>,
) -> grammar::Read<(Seq<(Node, Seq<Node>)>, Seq<Node>)> {
    match outcome {
        Ok(((else_ifs, else_body), next)) => Ok(
            ((branches_model(else_ifs@), nodes_model(else_body@)), next as int),
        ),
        Err(error) => Err(error@),
    }
}

/// The model of the outcome of parsing a program.
pub open spec fn program_outcome(outcome: Result<Vec<ASTNode>, SyntaxError>) -> Result<
    Seq<Node>,
    SyntaxFailure,
> {
    match outcome {
        Ok(nodes) => Ok(nodes_model(nodes@)),
        Err(error) => Err(error@),
    }
}

/// Whether something read from `from` on ended after it and inside the
/// tokens.
pub open spec fn moved_on<T>(outcome: Result<(T, usize), SyntaxError>, from: usize, len: nat)
    -> bool {
    match outcome {
        Ok((_, next)) => from < next <= len,
        Err(_) => true,
    }
}

/// Reads an operand: a number, a name, a call, an expression in parentheses,
/// or a unary operator with its operand.
pub fn parse_operand(tokens: &Vec<Token>, from: usize) -> (outcome: Result<
    (ASTNode, usize),
    SyntaxError,
>)
    ensures
        node_read(outcome) == grammar::operand(lexemes(tokens@), from as int),
        moved_on(outcome, from, tokens@.len()),
    decreases tokens.len() - from, 1nat,
{
    if from >= tokens.len() {
        return Err(SyntaxError::UnexpectedToken);
    }
    match &tokens[from] {
        Token::Number(value) => Ok((ASTNode::Number(*value), from + 1)),
        Token::Identifier(name) => {
            if symbol_at(tokens, from + 1, '(') {
                parse_fn_call(name.clone(), tokens, from + 2)
            } else {
                Ok((ASTNode::Identifier(name.clone()), from + 1))
            }
        },
        Token::Symbol(c) => {
            if *c == '(' {
                parse_parantheses(tokens, from + 1)
            } else {
                Err(SyntaxError::UnexpectedToken)
            }
        },
        Token::Operator(text) => match unary_operator(text) {
            Some(op) => match parse_expr(tokens, from + 1, precedence(&op)) {
                Ok((inner, next)) => Ok((ASTNode::UnaryOp { op, expr: Box::new(inner) }, next)),
                Err(error) => Err(error),
            },
            None => Err(SyntaxError::UnexpectedOperator),
        },
        _ => Err(SyntaxError::UnexpectedToken),
    }
}

/// Reads an expression in parentheses from after the opening one.
fn parse_parantheses(tokens: &Vec<Token>, from: usize) -> (outcome: Result<
    (ASTNode, usize),
    SyntaxError,
>)
    requires
        0 < from <= tokens.len(),
    ensures
        node_read(outcome) == match grammar::expression(lexemes(tokens@), from as int, 0) {
            Ok((inner, next)) => if grammar::symbol_at(lexemes(tokens@), next, ')') {
                Ok((inner, next + 1))
            } else {
                Err(SyntaxFailure::ExpectedClosingParenthesis)
            },
            Err(failure) => Err(failure),
        },
        moved_on(outcome, from, tokens@.len()),
    decreases tokens.len() - from, 3nat,
{
    match parse_expr(tokens, from, 0) {
        Ok((inner, next)) => {
            if symbol_at(tokens, next, ')') {
                Ok((inner, next + 1))
            } else {
                Err(SyntaxError::ExpectedClosingParenthesis)
            }
        },
        Err(error) => Err(error),
    }
}

/// Reads an expression in which no operator binds less tightly than
/// `min_prec`.
pub fn parse_expr(tokens: &Vec<Token>, from: usize, min_prec: i32) -> (outcome: Result<
    (ASTNode, usize),
    SyntaxError,
>)
    ensures
        node_read(outcome) == grammar::expression(lexemes(tokens@), from as int, min_prec as int),
        moved_on(outcome, from, tokens@.len()),
    decreases tokens.len() - from, 2nat,
{
    let (first, after) = match parse_operand(tokens, from) {
        Ok(read) => read,
        Err(error) => {
            return Err(error);
        },
    };
    let mut left = first;
    let mut at = after;
    loop
        invariant
            from < at <= tokens.len(),
            grammar::expression(lexemes(tokens@), from as int, min_prec as int)
                == grammar::operators(lexemes(tokens@), at as int, left@, min_prec as int),
        decreases tokens.len() - at,
    {
        if at >= tokens.len() {
            return Ok((left, at));
        }
        match &tokens[at] {
            Token::Operator(text) => match binary_operator(text) {
                Some(op) => {
                    let power = precedence(&op);
                    if power < min_prec {
                        return Ok((left, at));
                    }
                    match parse_expr(tokens, at + 1, power + 1) {
                        Ok((right, next)) => {
                            left =
                            ASTNode::BinaryOp { left: Box::new(left), op, right: Box::new(right) };
                            at = next;
                        },
                        Err(error) => {
                            return Err(error);
                        },
                    }
                },
                None => {
                    return Err(SyntaxError::UnexpectedOperator);
                },
            },
            _ => {
                return Ok((left, at));
            },
        }
    }
}

/// Reads the call of `name` from after its opening parenthesis.
fn parse_fn_call(name: String, tokens: &Vec<Token>, from: usize) -> (outcome: Result<
    (ASTNode, usize),
    SyntaxError,
>)
    requires
        1 < from <= tokens.len(),
    ensures
        node_read(outcome) == grammar::call(lexemes(tokens@), from as int, name@),
        moved_on(outcome, from, tokens@.len()),
    decreases tokens.len() - from, 5nat,
{
    let mut args: Vec<ASTNode> = Vec::new();
    if symbol_at(tokens, from, ')') {
        assert(nodes_model(args@) =~= Seq::empty());
        return Ok((ASTNode::FunctionCall { name, args }, from + 1));
    }
    let mut at = from;
    assert(nodes_model(args@) =~= Seq::empty());
    loop
        invariant
            from <= at <= tokens.len(),
            !grammar::symbol_at(lexemes(tokens@), from as int, ')'),
            grammar::arguments(lexemes(tokens@), from as int, Seq::empty()) == grammar::arguments(
                lexemes(tokens@),
                at as int,
                nodes_model(args@),
            ),
        decreases tokens.len() - at,
    {
        if symbol_at(tokens, at, ',') || symbol_at(tokens, at, ')') {
            return Err(SyntaxError::ExpectedExpression);
        }
        let ghost before = nodes_model(args@);
        match parse_expr(tokens, at, 0) {
            Ok((argument, next)) => {
                args.push(argument);
                assert(nodes_model(args@) =~= before.push(argument@));
                if symbol_at(tokens, next, ',') {
                    at = next + 1;
                } else if symbol_at(tokens, next, ')') {
                    return Ok((ASTNode::FunctionCall { name, args }, next + 1));
                } else {
                    return Err(SyntaxError::ExpectedClosingParenthesis);
                }
            },
            Err(error) => {
                return Err(error);
            },
        }
    }
}

/// Reads the parameters of a function from after the opening parenthesis.
fn parse_parameters(tokens: &Vec<Token>, from: usize) -> (outcome: Result<
    (Vec<String>, usize),
    SyntaxError,
>)
    requires
        from <= tokens.len(),
    ensures
        names_read(outcome) == grammar::parameters(lexemes(tokens@), from as int, Seq::empty()),
        match outcome {
            Ok((_, next)) => from <= next <= tokens.len(),
            Err(_) => true,
        },
{
    let mut params: Vec<String> = Vec::new();
    let mut at = from;
    assert(names_model(params@) =~= Seq::empty());
    loop
        invariant
            from <= at <= tokens.len(),
            grammar::parameters(lexemes(tokens@), from as int, Seq::empty())
                == grammar::parameters(lexemes(tokens@), at as int, names_model(params@)),
        decreases tokens.len() - at,
    {
        if at >= tokens.len() {
            return Ok((params, at));
        }
        let ghost before = names_model(params@);
        match &tokens[at] {
            Token::Identifier(name) => {
                params.push(name.clone());
                assert(names_model(params@) =~= before.push(name@));
                if symbol_at(tokens, at + 1, ',') {
                    at = at + 2;
                } else if symbol_at(tokens, at + 1, ')') {
                    return Ok((params, at + 2));
                } else {
                    return Err(SyntaxError::ExpectedCommaOrParenthesis);
                }
            },
            _ => {
                return Ok((params, at + 1));
            },
        }
    }
}

/// Reads a block from its opening brace up to and with the closing brace
/// that matches it.
pub fn parse_body(tokens: &Vec<Token>, from: usize) -> (outcome: Result<
    (Vec<ASTNode>, usize),
    SyntaxError,
>)
    ensures
        nodes_read(outcome) == grammar::block(lexemes(tokens@), from as int),
        moved_on(outcome, from, tokens@.len()),
    decreases tokens.len() - from, 8nat,
{
    if symbol_at(tokens, from, '{') {
        match parse_statements(tokens, from + 1, true) {
            Ok((nodes, next)) => Ok((nodes, next)),
            Err(error) => Err(error),
        }
    } else {
        Err(SyntaxError::ExpectedCodeBlock)
    }
}

/// Reads statements up to the end of the tokens or, inside a block, up to
/// and with its closing brace.
fn parse_statements(tokens: &Vec<Token>, from: usize, inside: bool) -> (outcome: Result<
    (Vec<ASTNode>, usize),
    SyntaxError,
>)
    requires
        from <= tokens.len(),
    ensures
        nodes_read(outcome) == grammar::statements(
            lexemes(tokens@),
            from as int,
            Seq::empty(),
            inside,
        ),
        match outcome {
            Ok((_, next)) => from <= next <= tokens.len() && (inside ==> from < next),
            Err(_) => true,
        },
    decreases tokens.len() - from, 7nat,
{
    let mut nodes: Vec<ASTNode> = Vec::new();
    let mut at = from;
    assert(nodes_model(nodes@) =~= Seq::empty());
    loop
        invariant
            from <= at <= tokens.len(),
            grammar::statements(lexemes(tokens@), from as int, Seq::empty(), inside)
                == grammar::statements(lexemes(tokens@), at as int, nodes_model(nodes@), inside),
        decreases tokens.len() - at,
    {
        if at >= tokens.len() {
            if inside {
                return Err(SyntaxError::ExpectedCodeBlock);
            } else {
                return Ok((nodes, at));
            }
        }
        if inside && symbol_at(tokens, at, '}') {
            return Ok((nodes, at + 1));
        }
        let ghost before = nodes_model(nodes@);
        match parse_statement(tokens, at) {
            Ok((Some(node), next)) => {
                nodes.push(node);
                assert(nodes_model(nodes@) =~= before.push(node@));
                at = next;
            },
            Ok((None, next)) => {
                at = next;
            },
            Err(error) => {
                return Err(error);
            },
        }
    }
}

/// Reads a condition and the block it guards.
pub fn parse_guarded(tokens: &Vec<Token>, from: usize) -> (outcome: Result<
    ((ASTNode, Vec<ASTNode>), usize),
    SyntaxError,
>)
    ensures
        guarded_read(outcome) == grammar::guarded(lexemes(tokens@), from as int),
        moved_on(outcome, from, tokens@.len()),
    decreases tokens.len() - from, 9nat,
{
    match parse_expr(tokens, from, 0) {
        Ok((condition, then)) => match parse_body(tokens, then) {
            Ok((body, next)) => Ok(((condition, body), next)),
            Err(error) => Err(error),
        },
        Err(error) => Err(error),
    }
}

/// Reads the `elseif` branches and the `else` body that follow the body of
/// an `if`.
fn parse_alternatives(tokens: &Vec<Token>, from: usize) -> (outcome: Result<
    ((Vec<(Box<ASTNode>, Vec<ASTNode>)>, Vec<ASTNode>), usize),
    SyntaxError,
>)
    requires
        from <= tokens.len(),
    ensures
        alternatives_read(outcome) == grammar::alternatives(
            lexemes(tokens@),
            from as int,
            Seq::empty(),
        ),
        match outcome {
            Ok((_, next)) => from <= next <= tokens.len(),
            Err(_) => true,
        },
    decreases tokens.len() - from, 10nat,
{
    let mut else_ifs: Vec<(Box<ASTNode>, Vec<ASTNode>)> = Vec::new();
    let mut at = from;
    assert(branches_model(else_ifs@) =~= Seq::empty());
    loop
        invariant
            from <= at <= tokens.len(),
            grammar::alternatives(lexemes(tokens@), from as int, Seq::empty())
                == grammar::alternatives(lexemes(tokens@), at as int, branches_model(else_ifs@)),
        decreases tokens.len() - at,
    {
        if keyword_at(tokens, at, "elseif") {
            let ghost before = branches_model(else_ifs@);
            match parse_guarded(tokens, at + 1) {
                Ok(((condition, body), next)) => {
                    else_ifs.push((Box::new(condition), body));
                    assert(branches_model(else_ifs@) =~= before.push(
                        (condition@, nodes_model(body@)),
                    ));
                    at = next;
                },
                Err(error) => {
                    return Err(error);
                },
            }
        } else if keyword_at(tokens, at, "else") {
            match parse_body(tokens, at + 1) {
                Ok((else_body, next)) => {
                    return Ok(((else_ifs, else_body), next));
                },
                Err(error) => {
                    return Err(error);
                },
            }
        } else {
            let else_body: Vec<ASTNode> = Vec::new();
            assert(nodes_model(else_body@) =~= Seq::empty());
            return Ok(((else_ifs, else_body), at));
        }
    }
}

/// Reads the declaration of the variable named at `from`.
fn parse_declaration(tokens: &Vec<Token>, from: usize, mutable: bool) -> (outcome: Result<
    (Option<ASTNode>, usize),
    SyntaxError,
>)
    requires
        0 < from <= tokens.len(),
    ensures
        statement_read(outcome) == grammar::declaration(lexemes(tokens@), from as int, mutable),
        moved_on(outcome, from, tokens@.len()),
    decreases tokens.len() - from, 5nat,
{
    if from >= tokens.len() {
        return Err(SyntaxError::ExpectedIdentifier);
    }
    match &tokens[from] {
        Token::Identifier(name) => {
            if from + 1 < tokens.len() {
                assert(lexemes(tokens@)[from + 1] == tokens@[from + 1]@);
                match &tokens[from + 1] {
                    Token::Assigner(op) => {
                        if is_text(op, "=") {
                            return match parse_expr(tokens, from + 2, 0) {
                                Ok((value, next)) => Ok(
                                    (
                                        Some(
                                            ASTNode::VariableDeclaration {
                                                mutable,
                                                name: name.clone(),
                                                value: Box::new(value),
                                            },
                                        ),
                                        next,
                                    ),
                                ),
                                Err(error) => Err(error),
                            };
                        } else {
                            return Err(SyntaxError::UnexpectedAssignmentInDeclaration);
                        }
                    },
                    _ => {},
                }
            }
            if mutable {
                Err(SyntaxError::ExpectedAssignmentInDeclaration)
            } else {
                assert(ASTNode::Number(0)@ == Node::Number(0));
                Ok(
                    (
                        Some(
                            ASTNode::VariableDeclaration {
                                mutable,
                                name: name.clone(),
                                value: Box::new(ASTNode::Number(0)),
                            },
                        ),
                        from + 1,
                    ),
                )
            }
        },
        _ => Err(SyntaxError::ExpectedIdentifier),
    }
}

/// Reads the declaration of the function named at `from`.
fn parse_function(tokens: &Vec<Token>, from: usize) -> (outcome: Result<
    (Option<ASTNode>, usize),
    SyntaxError,
>)
    requires
        0 < from <= tokens.len(),
    ensures
        statement_read(outcome) == grammar::function(lexemes(tokens@), from as int),
        moved_on(outcome, from, tokens@.len()),
    decreases tokens.len() - from, 9nat,
{
    if from >= tokens.len() {
        return Err(SyntaxError::ExpectedIdentifier);
    }
    match &tokens[from] {
        Token::Identifier(name) => {
            let (params, then) = if symbol_at(tokens, from + 1, '(') {
                match parse_parameters(tokens, from + 2) {
                    Ok(listed) => listed,
                    Err(error) => {
                        return Err(error);
                    },
                }
            } else {
                let none: Vec<String> = Vec::new();
                assert(names_model(none@) =~= Seq::empty());
                (none, from + 1)
            };
            match parse_body(tokens, then) {
                Ok((body, next)) => Ok(
                    (Some(ASTNode::FunctionDeclaration { name: name.clone(), params, body }), next),
                ),
                Err(error) => Err(error),
            }
        },
        _ => Err(SyntaxError::ExpectedIdentifier),
    }
}

/// Reads one statement. A keyword that starts no statement is passed over.
pub fn parse_statement(tokens: &Vec<Token>, from: usize) -> (outcome: Result<
    (Option<ASTNode>, usize),
    SyntaxError,
>)
    ensures
        statement_read(outcome) == grammar::statement(lexemes(tokens@), from as int),
        moved_on(outcome, from, tokens@.len()),
    decreases tokens.len() - from, 6nat,
{
    if from >= tokens.len() {
        return Err(SyntaxError::UnexpectedStatement);
    }
    match &tokens[from] {
        Token::Identifier(name) => {
            if from + 1 < tokens.len() {
                assert(lexemes(tokens@)[from + 1] == tokens@[from + 1]@);
                match &tokens[from + 1] {
                    Token::Assigner(op) => {
                        return match assignment_kind(op) {
                            Some(kind) => match parse_expr(tokens, from + 2, 0) {
                                Ok((value, next)) => Ok(
                                    (
                                        Some(
                                            ASTNode::Assignment {
                                                name: name.clone(),
                                                kind,
                                                value: Box::new(value),
                                            },
                                        ),
                                        next,
                                    ),
                                ),
                                Err(error) => Err(error),
                            },
                            None => Err(SyntaxError::UnexpectedAssignmentOperator),
                        };
                    },
                    _ => {},
                }
            }
            if symbol_at(tokens, from + 1, '(') {
                match parse_fn_call(name.clone(), tokens, from + 2) {
                    Ok((node, next)) => Ok((Some(node), next)),
                    Err(error) => Err(error),
                }
            } else {
                Err(SyntaxError::UnexpectedIdentifier(name.clone()))
            }
        },
        Token::Keyword(word) => {
            if is_text(word, "var") {
                parse_declaration(tokens, from + 1, false)
            } else if is_text(word, "mut") {
                parse_declaration(tokens, from + 1, true)
            } else if is_text(word, "fun") {
                parse_function(tokens, from + 1)
            } else if is_text(word, "if") {
                match parse_guarded(tokens, from + 1) {
                    Ok(((condition, body), then)) => match parse_alternatives(tokens, then) {
                        Ok(((else_ifs, else_body), next)) => Ok(
                            (
                                Some(
                                    ASTNode::IfStatement {
                                        condition: Box::new(condition),
                                        body,
                                        else_body,
                                        else_ifs,
                                    },
                                ),
                                next,
                            ),
                        ),
                        Err(error) => Err(error),
                    },
                    Err(error) => Err(error),
                }
            } else if is_text(word, "while") {
                match parse_guarded(tokens, from + 1) {
                    Ok(((condition, body), next)) => Ok(
                        (
                            Some(ASTNode::WhileStatement { condition: Box::new(condition), body }),
                            next,
                        ),
                    ),
                    Err(error) => Err(error),
                }
            } else if is_text(word, "break") {
                Ok((Some(ASTNode::Break {  }), from + 1))
            } else if is_text(word, "continue") {
                Ok((Some(ASTNode::Continue {  }), from + 1))
            } else if is_text(word, "return") {
                match parse_expr(tokens, from + 1, 0) {
                    Ok((value, next)) => Ok(
                        (Some(ASTNode::Return { expr: Box::new(value) }), next),
                    ),
                    Err(error) => Err(error),
                }
            } else if is_text(word, "out") {
                match parse_expr(tokens, from + 1, 0) {
                    Ok((value, next)) => Ok(
                        (Some(ASTNode::Output { expr: Box::new(value) }), next),
                    ),
                    Err(error) => Err(error),
                }
            } else {
                Ok((None, from + 1))
            }
        },
        _ => Err(SyntaxError::UnexpectedStatement),
    }
}

/// Parses a list of tokens into a program.
pub fn parse(tokens: Vec<Token>) -> (outcome: Result<Vec<ASTNode>, SyntaxError>)
    ensures
        program_outcome(outcome) == grammar::program(lexemes(tokens@)),
{
    match parse_statements(&tokens, 0, false) {
        Ok((nodes, _)) => Ok(nodes),
        Err(error) => Err(error),
    }
}

} // verus!
