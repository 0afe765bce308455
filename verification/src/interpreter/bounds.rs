//! The bounds on depth and rounds change nothing but what they cut short: a
//! run that ends within its bounds ends the same way within any wider ones.

use super::semantics::{
    enter_call, evaluate, evaluate_all, execute, run, run_block, run_branches, run_loop,
    run_statements, Flow, Session,
};
use crate::ast::parser::Node;
use crate::error::Failure;
use crate::vm::symbol::Value;
use crate::vm::Machine;
use vstd::prelude::*;

verus! {

/// Whether the outcome is of a run that a bound did not cut short.
pub open spec fn within_bounds<T>(outcome: Result<T, Failure>) -> bool {
    match outcome {
        Ok(_) => true,
        Err(failure) => !(failure is CallDepthExceeded) && !(failure is IterationLimitExceeded),
    }
}

/// A call that starts within one depth starts the same way within any
/// greater one.
proof fn lemma_enter_call_widens(
    machine: Machine,
    name: Seq<char>,
    arguments: Seq<Value>,
    depth: nat,
    wider: nat,
)
    requires
        depth <= wider,
        within_bounds(enter_call(machine, name, arguments, depth).1),
    ensures
        enter_call(machine, name, arguments, wider) == enter_call(machine, name, arguments, depth),
        enter_call(machine, name, arguments, depth).1 is Ok ==> depth > 0,
{
}

/// An expression whose evaluation no bound cut short has the same value,
/// and leaves the same state, within any wider bounds.
pub proof fn lemma_evaluate_widens(
    s: Session,
    e: Node,
    depth: nat,
    rounds: nat,
    deeper: nat,
    longer: nat,
)
    requires
        depth <= deeper,
        rounds <= longer,
        within_bounds(evaluate(s, e, depth, rounds).1),
    ensures
        evaluate(s, e, deeper, longer) == evaluate(s, e, depth, rounds),
    decreases depth, e, 1nat, 0nat,
{
    match e {
        Node::BinaryOp { left, op, right } => {
            lemma_evaluate_widens(s, *left, depth, rounds, deeper, longer);
            let (s1, l) = evaluate(s, *left, depth, rounds);
            if l is Ok {
                lemma_evaluate_widens(s1, *right, depth, rounds, deeper, longer);
            }
        },
        Node::UnaryOp { op, expr } => {
            lemma_evaluate_widens(s, *expr, depth, rounds, deeper, longer);
        },
        Node::FunctionCall { name, args } => {
            lemma_evaluate_all_widens(s, args, 0, Seq::empty(), depth, rounds, deeper, longer);
            let (s1, values) = evaluate_all(s, args, 0, Seq::empty(), depth, rounds);
            match values {
                Ok(arguments) => {
                    lemma_enter_call_widens(s1.vm, name, arguments, depth, deeper);
                    let (entered, body) = enter_call(s1.vm, name, arguments, depth);
                    match body {
                        Ok(statements) => {
                            lemma_run_statements_widens(
                                s1.with_vm(entered),
                                statements,
                                0,
                                (depth - 1) as nat,
                                rounds,
                                (deeper - 1) as nat,
                                longer,
                            );
                        },
                        Err(_) => {},
                    }
                },
                Err(_) => {},
            }
        },
        _ => {},
    }
}

/// A list of expressions whose evaluation no bound cut short has the same
/// values within any wider bounds.
proof fn lemma_evaluate_all_widens(
    s: Session,
    args: Seq<Node>,
    from: int,
    before: Seq<Value>,
    depth: nat,
    rounds: nat,
    deeper: nat,
    longer: nat,
)
    requires
        depth <= deeper,
        rounds <= longer,
        within_bounds(evaluate_all(s, args, from, before, depth, rounds).1),
    ensures
        evaluate_all(s, args, from, before, deeper, longer) == evaluate_all(
            s,
            args,
            from,
            before,
            depth,
            rounds,
        ),
    decreases depth, args, 0nat, args.len() - from,
{
    if 0 <= from < args.len() {
        lemma_evaluate_widens(s, args[from], depth, rounds, deeper, longer);
        let (s1, v) = evaluate(s, args[from], depth, rounds);
        match v {
            Ok(value) => {
                lemma_evaluate_all_widens(
                    s1,
                    args,
                    from + 1,
                    before.push(value),
                    depth,
                    rounds,
                    deeper,
                    longer,
                );
            },
            Err(_) => {},
        }
    }
}

/// A statement that no bound cut short has the same effect, and ends the
/// same way, within any wider bounds.
pub proof fn lemma_execute_widens(
    s: Session,
    n: Node,
    depth: nat,
    rounds: nat,
    deeper: nat,
    longer: nat,
)
    requires
        depth <= deeper,
        rounds <= longer,
        within_bounds(execute(s, n, depth, rounds).1),
    ensures
        execute(s, n, deeper, longer) == execute(s, n, depth, rounds),
    decreases depth, n, 2nat, 0nat,
{
    match n {
        Node::VariableDeclaration { mutable, name, value } => {
            lemma_evaluate_widens(s, *value, depth, rounds, deeper, longer);
        },
        Node::Assignment { name, kind, value } => {
            lemma_evaluate_widens(s, *value, depth, rounds, deeper, longer);
        },
        Node::FunctionDeclaration { name, params, body } => {},
        Node::Return { expr } => {
            lemma_evaluate_widens(s, *expr, depth, rounds, deeper, longer);
        },
        Node::IfStatement { condition, body, else_body, else_ifs } => {
            lemma_evaluate_widens(s, *condition, depth, rounds, deeper, longer);
            let (s1, c) = evaluate(s, *condition, depth, rounds);
            match c {
                Ok(x) => {
                    if x.truthy() {
                        lemma_run_block_widens(s1, body, depth, rounds, deeper, longer);
                    } else {
                        lemma_run_branches_widens(s1, n, 0, depth, rounds, deeper, longer);
                    }
                },
                Err(_) => {},
            }
        },
        Node::WhileStatement { condition, body } => {
            lemma_run_loop_widens(s, n, rounds, longer, depth, rounds, deeper, longer);
        },
        Node::Break => {},
        Node::Continue => {},
        Node::Output { expr } => {
            lemma_evaluate_widens(s, *expr, depth, rounds, deeper, longer);
        },
        _ => {
            lemma_evaluate_widens(s, n, depth, rounds, deeper, longer);
        },
    }
}

/// A list of statements that no bound cut short runs the same way within
/// any wider bounds.
proof fn lemma_run_statements_widens(
    s: Session,
    body: Seq<Node>,
    from: int,
    depth: nat,
    rounds: nat,
    deeper: nat,
    longer: nat,
)
    requires
        depth <= deeper,
        rounds <= longer,
        within_bounds(run_statements(s, body, from, depth, rounds).1),
    ensures
        run_statements(s, body, from, deeper, longer) == run_statements(
            s,
            body,
            from,
            depth,
            rounds,
        ),
    decreases depth, body, 0nat, body.len() - from,
{
    if 0 <= from < body.len() {
        lemma_execute_widens(s, body[from], depth, rounds, deeper, longer);
        let (s1, flow) = execute(s, body[from], depth, rounds);
        match flow {
            Ok(Flow::Normal) => {
                lemma_run_statements_widens(s1, body, from + 1, depth, rounds, deeper, longer);
            },
            _ => {},
        }
    }
}

/// A block that no bound cut short runs the same way within any wider
/// bounds.
proof fn lemma_run_block_widens(
    s: Session,
    body: Seq<Node>,
    depth: nat,
    rounds: nat,
    deeper: nat,
    longer: nat,
)
    requires
        depth <= deeper,
        rounds <= longer,
        within_bounds(run_block(s, body, depth, rounds).1),
    ensures
        run_block(s, body, deeper, longer) == run_block(s, body, depth, rounds),
    decreases depth, body, 1nat, 0nat,
{
    lemma_run_statements_widens(s.with_vm(s.vm.push_scope()), body, 0, depth, rounds, deeper, longer);
}

/// The branches of an `if` that no bound cut short run the same way within
/// any wider bounds.
proof fn lemma_run_branches_widens(
    s: Session,
    n: Node,
    from: int,
    depth: nat,
    rounds: nat,
    deeper: nat,
    longer: nat,
)
    requires
        depth <= deeper,
        rounds <= longer,
        within_bounds(run_branches(s, n, from, depth, rounds).1),
    ensures
        run_branches(s, n, from, deeper, longer) == run_branches(s, n, from, depth, rounds),
    decreases depth, n, 0nat, (if n is IfStatement {
        n->else_ifs.len() - from
    } else {
        0
    }),
{
    match n {
        Node::IfStatement { condition, body, else_body, else_ifs } => {
            if from < 0 || from >= else_ifs.len() {
                lemma_run_block_widens(s, else_body, depth, rounds, deeper, longer);
            } else {
                lemma_evaluate_widens(s, else_ifs[from].0, depth, rounds, deeper, longer);
                let (s1, c) = evaluate(s, else_ifs[from].0, depth, rounds);
                match c {
                    Ok(x) => {
                        if x.truthy() {
                            lemma_run_block_widens(
                                s1,
                                else_ifs[from].1,
                                depth,
                                rounds,
                                deeper,
                                longer,
                            );
                        } else {
                            lemma_run_branches_widens(
                                s1,
                                n,
                                from + 1,
                                depth,
                                rounds,
                                deeper,
                                longer,
                            );
                        }
                    },
                    Err(_) => {},
                }
            }
        },
        _ => {},
    }
}

/// A loop that no bound cut short runs the same way within any wider
/// bounds, with as many rounds left or more.
proof fn lemma_run_loop_widens(
    s: Session,
    n: Node,
    left: nat,
    more: nat,
    depth: nat,
    rounds: nat,
    deeper: nat,
    longer: nat,
)
    requires
        depth <= deeper,
        rounds <= longer,
        left <= more,
        within_bounds(run_loop(s, n, left, depth, rounds).1),
    ensures
        run_loop(s, n, more, deeper, longer) == run_loop(s, n, left, depth, rounds),
    decreases depth, n, 0nat, left,
{
    match n {
        Node::WhileStatement { condition, body } => {
            lemma_evaluate_widens(s, *condition, depth, rounds, deeper, longer);
            let (s1, c) = evaluate(s, *condition, depth, rounds);
            match c {
                Ok(x) => {
                    if x.truthy() && left != 0 {
                        lemma_run_block_widens(s1, body, depth, rounds, deeper, longer);
                        let (s2, flow) = run_block(s1, body, depth, rounds);
                        match flow {
                            Ok(Flow::Normal) | Ok(Flow::ContinueRequested) => {
                                lemma_run_loop_widens(
                                    s2,
                                    n,
                                    (left - 1) as nat,
                                    (more - 1) as nat,
                                    depth,
                                    rounds,
                                    deeper,
                                    longer,
                                );
                            },
                            _ => {},
                        }
                    }
                },
                Err(_) => {},
            }
        },
        _ => {},
    }
}

/// The bounds change nothing but what they cut short: a group of statements
/// that ends within its bounds, with a result or with a failure of the
/// program's own, ends in the same state with the same outcome within any
/// wider bounds.
pub proof fn lemma_run_widens(
    s: Session,
    program: Seq<Node>,
    depth: nat,
    rounds: nat,
    deeper: nat,
    longer: nat,
)
    requires
        depth <= deeper,
        rounds <= longer,
        within_bounds(run(s, program, depth, rounds).1),
    ensures
        run(s, program, deeper, longer) == run(s, program, depth, rounds),
{
    lemma_run_statements_widens(s, program, 0, depth, rounds, deeper, longer);
}

} // verus!
