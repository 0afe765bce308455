//! What an equation solver needs to know of a syntax tree.

use crate::ast::parser::{branches_model, names_model, nodes_model, ASTNode, Node};
use crate::vm::symbol::{DataType, Value};
use crate::vm::{Machine, VM};
use vstd::prelude::*;

verus! {

/// The names that the identifiers in a tree carry, in the order in which
/// they stand in the text, each as often as it occurs.
pub open spec fn variables(node: Node) -> Seq<Seq<char>>
    decreases node,
{
    match node {
        Node::Identifier(name) => seq![name],
        Node::Number(_) => Seq::empty(),
        Node::BinaryOp { left, op, right } => variables(*left) + variables(*right),
        Node::UnaryOp { op, expr } => variables(*expr),
        Node::VariableDeclaration { mutable, name, value } => variables(*value),
        Node::Assignment { name, kind, value } => variables(*value),
        Node::FunctionDeclaration { name, params, body } => variables_in(body, body.len() as int),
        Node::FunctionCall { name, args } => variables_in(args, args.len() as int),
        Node::IfStatement { condition, body, else_body, else_ifs } => variables(*condition)
            + variables_in(body, body.len() as int) + variables_in_branches(
            else_ifs,
            else_ifs.len() as int,
        ) + variables_in(else_body, else_body.len() as int),
        Node::WhileStatement { condition, body } => variables(*condition) + variables_in(
            body,
            body.len() as int,
        ),
        Node::Break => Seq::empty(),
        Node::Continue => Seq::empty(),
        Node::Return { expr } => variables(*expr),
        Node::Output { expr } => variables(*expr),
    }
}

/// The names in the first `upto` trees of a list.
pub open spec fn variables_in(nodes: Seq<Node>, upto: int) -> Seq<Seq<char>>
    decreases nodes, upto,
{
    if upto <= 0 || upto > nodes.len() {
        Seq::empty()
    } else {
        variables_in(nodes, upto - 1) + variables(nodes[upto - 1])
    }
}

/// The names in the first `upto` branches of a list: for each branch those
/// of its condition, then those of its body.
pub open spec fn variables_in_branches(branches: Seq<(Node, Seq<Node>)>, upto: int) -> Seq<
    Seq<char>,
>
    decreases branches, upto,
{
    if upto <= 0 || upto > branches.len() {
        Seq::empty()
    } else {
        variables_in_branches(branches, upto - 1) + variables(branches[upto - 1].0) + variables_in(
            branches[upto - 1].1,
            branches[upto - 1].1.len() as int,
        )
    }
}

/// Moves the names of `more` to the end of `names`.
fn append(names: &mut Vec<String>, more: Vec<String>)
    ensures
        names_model(final(names)@) == names_model(old(names)@) + names_model(more@),
{
    let mut more = more;
    let ghost before = names_model(names@);
    let ghost added = names_model(more@);
    names.append(&mut more);
    assert(names_model(names@) =~= before + added);
}

/// The names in a list of trees.
fn find_vars_in(nodes: &Vec<ASTNode>) -> (vars: Vec<String>)
    ensures
        names_model(vars@) == variables_in(nodes_model(nodes@), nodes.len() as int),
    decreases nodes,
{
    let mut vars: Vec<String> = Vec::new();
    let mut i: usize = 0;
    assert(names_model(vars@) =~= Seq::empty());
    while i < nodes.len()
        invariant
            i <= nodes.len(),
            names_model(vars@) == variables_in(nodes_model(nodes@), i as int),
        decreases nodes.len() - i,
    {
        let found = find_vars(&nodes[i]);
        append(&mut vars, found);
        i += 1;
    }
    vars
}

/// The names in a list of branches.
fn find_vars_in_branches(branches: &Vec<(Box<ASTNode>, Vec<ASTNode>)>) -> (vars: Vec<String>)
    ensures
        names_model(vars@) == variables_in_branches(
            branches_model(branches@),
            branches.len() as int,
        ),
    decreases branches,
{
    let mut vars: Vec<String> = Vec::new();
    let mut i: usize = 0;
    assert(names_model(vars@) =~= Seq::empty());
    while i < branches.len()
        invariant
            i <= branches.len(),
            names_model(vars@) == variables_in_branches(branches_model(branches@), i as int),
        decreases branches.len() - i,
    {
        let in_condition = find_vars(&branches[i].0);
        let in_body = find_vars_in(&branches[i].1);
        append(&mut vars, in_condition);
        append(&mut vars, in_body);
        i += 1;
    }
    vars
}

/// The names of the variables that a tree mentions, in the order of the
/// text, each as often as it is mentioned.
pub fn find_vars(ast: &ASTNode) -> (vars: Vec<String>)
    ensures
        names_model(vars@) == variables(ast@),
    decreases ast,
{
    let mut vars: Vec<String> = Vec::new();
    assert(names_model(vars@) =~= Seq::empty());
    match ast {
        ASTNode::Identifier(name) => {
            vars.push(name.clone());
            assert(names_model(vars@) =~= seq![name@]);
        },
        ASTNode::Number(_) => {},
        ASTNode::BinaryOp { left, op, right } => {
            append(&mut vars, find_vars(left));
            append(&mut vars, find_vars(right));
        },
        ASTNode::UnaryOp { op, expr } => {
            append(&mut vars, find_vars(expr));
        },
        ASTNode::VariableDeclaration { mutable, name, value } => {
            append(&mut vars, find_vars(value));
        },
        ASTNode::Assignment { name, kind, value } => {
            append(&mut vars, find_vars(value));
        },
        ASTNode::FunctionDeclaration { name, params, body } => {
            append(&mut vars, find_vars_in(body));
        },
        ASTNode::FunctionCall { name, args } => {
            append(&mut vars, find_vars_in(args));
        },
        ASTNode::IfStatement { condition, body, else_body, else_ifs } => {
            append(&mut vars, find_vars(condition));
            append(&mut vars, find_vars_in(body));
            append(&mut vars, find_vars_in_branches(else_ifs));
            append(&mut vars, find_vars_in(else_body));
        },
        ASTNode::WhileStatement { condition, body } => {
            append(&mut vars, find_vars(condition));
            append(&mut vars, find_vars_in(body));
        },
        ASTNode::Break {  } => {},
        ASTNode::Continue {  } => {},
        ASTNode::Return { expr } => {
            append(&mut vars, find_vars(expr));
        },
        ASTNode::Output { expr } => {
            append(&mut vars, find_vars(expr));
        },
    }
    vars
}

/// Those of the first `upto` names that stand for a number, each with its
/// number, in order.
pub open spec fn known(names: Seq<Seq<char>>, machine: Machine, upto: int) -> Seq<
    (Seq<char>, i32),
>
    decreases upto,
{
    if upto <= 0 || upto > names.len() {
        Seq::empty()
    } else {
        let before = known(names, machine, upto - 1);
        match machine.variable(names[upto - 1]) {
            Ok(Value::Number(n)) => before.push((names[upto - 1], n)),
            _ => before,
        }
    }
}

/// The names and numbers of a list of pairs, in order.
pub open spec fn pairs_model(pairs: Seq<(String, i32)>) -> Seq<(Seq<char>, i32)> {
    Seq::new(pairs.len(), |i: int| (pairs[i].0@, pairs[i].1))
}

/// The variables among `vars` that stand for a number in `vm`, each with its
/// number, in the order of `vars`. A name that is not bound, or is bound to
/// a function or to null, is left out.
pub fn get_known_values(vars: &Vec<String>, vm: &VM) -> (values: Vec<(String, i32)>)
    requires
        vm.wf(),
    ensures
        pairs_model(values@) == known(names_model(vars@), vm@, vars.len() as int),
{
    let mut values: Vec<(String, i32)> = Vec::new();
    let mut i: usize = 0;
    assert(pairs_model(values@) =~= Seq::empty());
    while i < vars.len()
        invariant
            i <= vars.len(),
            vm.wf(),
            pairs_model(values@) == known(names_model(vars@), vm@, i as int),
        decreases vars.len() - i,
    {
        let ghost before = pairs_model(values@);
        match vm.get_variable(vars[i].as_str()) {
            Ok(DataType::Number(n)) => {
                values.push((vars[i].clone(), n));
                assert(pairs_model(values@) =~= before.push((vars@[i as int]@, n)));
            },
            _ => {},
        }
        i += 1;
    }
    values
}

} // verus!
