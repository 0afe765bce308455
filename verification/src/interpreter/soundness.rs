//! Programs keep the state sound: they never lead out of the arena, never
//! declare a name twice in a scope, and never keep a number in two cells.

use super::semantics::{
    assign, bind_parameters, enter_call, evaluate, evaluate_all, execute, run, run_block,
    run_branches, run_loop, run_statements, Flow, Session,
};
use crate::ast::parser::{AssignmentKind, Node};
use crate::error::Failure;
use crate::vm::properties::{
    lemma_declare_at_is_sound, lemma_declare_function_is_sound, lemma_load_register_is_sound,
    lemma_rebind_is_sound, lemma_scopes_are_sound, lemma_store_is_sound,
    lemma_variable_is_sound,
};
use crate::vm::symbol::{Frame, Value};
use crate::vm::{Machine, MEM_SIZE, REGISTER_COUNT};
use vstd::prelude::*;

verus! {

/// Whether a value, or the failure in its place, is one that a sound state
/// gives: a valid value, or a failure other than an address out of bounds.
pub open spec fn sound_value(outcome: Result<Value, Failure>) -> bool {
    match outcome {
        Ok(value) => value.valid(MEM_SIZE as nat),
        Err(failure) => !(failure is AddressOutOfBounds),
    }
}

/// Whether every value of a list is valid.
pub open spec fn sound_values(list: Seq<Value>) -> bool {
    forall|i: int| 0 <= i < list.len() ==> (#[trigger] list[i]).valid(MEM_SIZE as nat)
}

/// Whether the end of a statement is one that a sound state gives.
pub open spec fn sound_flow(outcome: Result<Flow, Failure>) -> bool {
    match outcome {
        Ok(Flow::Returned(value)) => value.valid(MEM_SIZE as nat),
        Ok(_) => true,
        Err(failure) => !(failure is AddressOutOfBounds),
    }
}

/// An assignment keeps the state sound.
proof fn lemma_assign_is_sound(
    machine: Machine,
    name: Seq<char>,
    kind: AssignmentKind,
    value: Value,
)
    requires
        machine.sound(),
        value.valid(MEM_SIZE as nat),
    ensures
        assign(machine, name, kind, value).0.sound(),
        match assign(machine, name, kind, value).1 {
            Ok(_) => true,
            Err(failure) => !(failure is AddressOutOfBounds),
        },
{
    lemma_variable_is_sound(machine, name);
    match machine.variable(name) {
        Ok(current) => match super::semantics::assigned(kind, current, value) {
            Ok(updated) => {
                lemma_store_is_sound(machine, updated);
                let (stored, address) = machine.store(updated);
                match address {
                    Ok(a) => {
                        lemma_rebind_is_sound(stored, name, a);
                    },
                    Err(_) => {},
                }
            },
            Err(_) => {},
        },
        Err(_) => {},
    }
}

/// Binding parameters to valid arguments keeps the state sound.
proof fn lemma_bind_parameters_is_sound(
    machine: Machine,
    params: Seq<Seq<char>>,
    arguments: Seq<Value>,
    from: int,
)
    requires
        machine.sound(),
        sound_values(arguments),
        params.len() == arguments.len(),
    ensures
        bind_parameters(machine, params, arguments, from).0.sound(),
        match bind_parameters(machine, params, arguments, from).1 {
            Ok(_) => true,
            Err(failure) => !(failure is AddressOutOfBounds),
        },
    decreases params.len() - from,
{
    if 0 <= from < params.len() {
        let register = from % (REGISTER_COUNT as int);
        lemma_load_register_is_sound(machine, register, arguments[from]);
        let (loaded, outcome) = machine.load_register(register, arguments[from]);
        match outcome {
            Ok(_) => {
                assert(loaded.registers[register] < MEM_SIZE);
                lemma_declare_at_is_sound(loaded, params[from], loaded.registers[register], false);
                match loaded.declare_at(params[from], loaded.registers[register], false) {
                    Ok(bound) => {
                        lemma_bind_parameters_is_sound(bound, params, arguments, from + 1);
                    },
                    Err(_) => {},
                }
            },
            Err(_) => {},
        }
    }
}

/// The start of a call with valid arguments keeps the state sound.
pub proof fn lemma_enter_call_is_sound(
    machine: Machine,
    name: Seq<char>,
    arguments: Seq<Value>,
    depth: nat,
)
    requires
        machine.sound(),
        sound_values(arguments),
    ensures
        enter_call(machine, name, arguments, depth).0.sound(),
        match enter_call(machine, name, arguments, depth).1 {
            Ok(_) => true,
            Err(failure) => !(failure is AddressOutOfBounds),
        },
{
    lemma_variable_is_sound(machine, name);
    match machine.function(name) {
        Ok((params, body, captured)) => {
            if params.len() == arguments.len() && depth != 0 {
                lemma_scopes_are_sound(machine, captured);
                let started = machine.enter(captured);
                lemma_bind_parameters_is_sound(started, params, arguments, 0);
                let (bound, outcome) = bind_parameters(started, params, arguments, 0);
                lemma_scopes_are_sound(bound, captured);
            }
        },
        Err(_) => {},
    }
}

/// An expression evaluated in a sound state leaves a sound state, and gives
/// a valid value or a failure other than an address out of bounds.
pub proof fn lemma_evaluate_is_sound(s: Session, e: Node, depth: nat, rounds: nat)
    requires
        s.vm.sound(),
    ensures
        evaluate(s, e, depth, rounds).0.vm.sound(),
        sound_value(evaluate(s, e, depth, rounds).1),
    decreases depth, e, 1nat, 0nat,
{
    match e {
        Node::Identifier(name) => {
            lemma_variable_is_sound(s.vm, name);
        },
        Node::BinaryOp { left, op, right } => {
            lemma_evaluate_is_sound(s, *left, depth, rounds);
            let (s1, l) = evaluate(s, *left, depth, rounds);
            if l is Ok {
                lemma_evaluate_is_sound(s1, *right, depth, rounds);
            }
        },
        Node::UnaryOp { op, expr } => {
            lemma_evaluate_is_sound(s, *expr, depth, rounds);
        },
        Node::FunctionCall { name, args } => {
            lemma_evaluate_all_is_sound(s, args, 0, Seq::empty(), depth, rounds);
            let (s1, values) = evaluate_all(s, args, 0, Seq::empty(), depth, rounds);
            match values {
                Ok(arguments) => {
                    lemma_enter_call_is_sound(s1.vm, name, arguments, depth);
                    let (entered, body) = enter_call(s1.vm, name, arguments, depth);
                    match body {
                        Ok(statements) => {
                            lemma_run_statements_is_sound(
                                s1.with_vm(entered),
                                statements,
                                0,
                                (depth - 1) as nat,
                                rounds,
                            );
                            let (s2, flow) = run_statements(
                                s1.with_vm(entered),
                                statements,
                                0,
                                (depth - 1) as nat,
                                rounds,
                            );
                            lemma_scopes_are_sound(s2.vm, Frame::empty(None));
                        },
                        Err(_) => {},
                    }
                },
                Err(_) => {},
            }
        },
        _ => {},
    }
}

/// A list of expressions evaluated in a sound state leaves a sound state
/// and gives valid values.
pub proof fn lemma_evaluate_all_is_sound(
    s: Session,
    args: Seq<Node>,
    from: int,
    before: Seq<Value>,
    depth: nat,
    rounds: nat,
)
    requires
        s.vm.sound(),
        sound_values(before),
    ensures
        evaluate_all(s, args, from, before, depth, rounds).0.vm.sound(),
        match evaluate_all(s, args, from, before, depth, rounds).1 {
            Ok(values) => sound_values(values),
            Err(failure) => !(failure is AddressOutOfBounds),
        },
    decreases depth, args, 0nat, args.len() - from,
{
    if 0 <= from < args.len() {
        lemma_evaluate_is_sound(s, args[from], depth, rounds);
        let (s1, v) = evaluate(s, args[from], depth, rounds);
        match v {
            Ok(value) => {
                lemma_evaluate_all_is_sound(s1, args, from + 1, before.push(value), depth, rounds);
            },
            Err(_) => {},
        }
    }
}

/// A statement run in a sound state leaves a sound state, and fails with no
/// address out of bounds.
pub proof fn lemma_execute_is_sound(s: Session, n: Node, depth: nat, rounds: nat)
    requires
        s.vm.sound(),
    ensures
        execute(s, n, depth, rounds).0.vm.sound(),
        sound_flow(execute(s, n, depth, rounds).1),
    decreases depth, n, 2nat, 0nat,
{
    match n {
        Node::VariableDeclaration { mutable, name, value } => {
            lemma_evaluate_is_sound(s, *value, depth, rounds);
            let (s1, v) = evaluate(s, *value, depth, rounds);
            match v {
                Ok(x) => {
                    lemma_store_is_sound(s1.vm, x);
                    let (stored, address) = s1.vm.store(x);
                    match address {
                        Ok(a) => {
                            lemma_declare_at_is_sound(stored, name, a, mutable);
                        },
                        Err(_) => {},
                    }
                },
                Err(_) => {},
            }
        },
        Node::Assignment { name, kind, value } => {
            lemma_evaluate_is_sound(s, *value, depth, rounds);
            let (s1, v) = evaluate(s, *value, depth, rounds);
            match v {
                Ok(x) => {
                    lemma_assign_is_sound(s1.vm, name, kind, x);
                },
                Err(_) => {},
            }
        },
        Node::FunctionDeclaration { name, params, body } => {
            lemma_declare_function_is_sound(s.vm, name, params, body);
        },
        Node::Return { expr } => {
            lemma_evaluate_is_sound(s, *expr, depth, rounds);
        },
        Node::IfStatement { condition, body, else_body, else_ifs } => {
            lemma_evaluate_is_sound(s, *condition, depth, rounds);
            let (s1, c) = evaluate(s, *condition, depth, rounds);
            match c {
                Ok(x) => {
                    if x.truthy() {
                        lemma_run_block_is_sound(s1, body, depth, rounds);
                    } else {
                        lemma_run_branches_is_sound(s1, n, 0, depth, rounds);
                    }
                },
                Err(_) => {},
            }
        },
        Node::WhileStatement { condition, body } => {
            lemma_run_loop_is_sound(s, n, rounds, depth, rounds);
        },
        Node::Break => {},
        Node::Continue => {},
        Node::Output { expr } => {
            lemma_evaluate_is_sound(s, *expr, depth, rounds);
        },
        _ => {
            lemma_evaluate_is_sound(s, n, depth, rounds);
        },
    }
}

/// A list of statements run in a sound state leaves a sound state.
proof fn lemma_run_statements_is_sound(
    s: Session,
    body: Seq<Node>,
    from: int,
    depth: nat,
    rounds: nat,
)
    requires
        s.vm.sound(),
    ensures
        run_statements(s, body, from, depth, rounds).0.vm.sound(),
        sound_flow(run_statements(s, body, from, depth, rounds).1),
    decreases depth, body, 0nat, body.len() - from,
{
    if 0 <= from < body.len() {
        lemma_execute_is_sound(s, body[from], depth, rounds);
        let (s1, flow) = execute(s, body[from], depth, rounds);
        match flow {
            Ok(Flow::Normal) => {
                lemma_run_statements_is_sound(s1, body, from + 1, depth, rounds);
            },
            _ => {},
        }
    }
}

/// A block run in a sound state leaves a sound state.
pub(crate) proof fn lemma_run_block_is_sound(s: Session, body: Seq<Node>, depth: nat, rounds: nat)
    requires
        s.vm.sound(),
    ensures
        run_block(s, body, depth, rounds).0.vm.sound(),
        sound_flow(run_block(s, body, depth, rounds).1),
    decreases depth, body, 1nat, 0nat,
{
    lemma_scopes_are_sound(s.vm, Frame::empty(None));
    let opened = s.with_vm(s.vm.push_scope());
    lemma_run_statements_is_sound(opened, body, 0, depth, rounds);
    lemma_scopes_are_sound(run_statements(opened, body, 0, depth, rounds).0.vm, Frame::empty(None));
}

/// The branches of an `if` run in a sound state leave a sound state.
proof fn lemma_run_branches_is_sound(s: Session, n: Node, from: int, depth: nat, rounds: nat)
    requires
        s.vm.sound(),
    ensures
        run_branches(s, n, from, depth, rounds).0.vm.sound(),
        sound_flow(run_branches(s, n, from, depth, rounds).1),
    decreases depth, n, 0nat, (if n is IfStatement {
        n->else_ifs.len() - from
    } else {
        0
    }),
{
    match n {
        Node::IfStatement { condition, body, else_body, else_ifs } => {
            if from < 0 || from >= else_ifs.len() {
                lemma_run_block_is_sound(s, else_body, depth, rounds);
            } else {
                lemma_evaluate_is_sound(s, else_ifs[from].0, depth, rounds);
                let (s1, c) = evaluate(s, else_ifs[from].0, depth, rounds);
                match c {
                    Ok(x) => {
                        if x.truthy() {
                            lemma_run_block_is_sound(s1, else_ifs[from].1, depth, rounds);
                        } else {
                            lemma_run_branches_is_sound(s1, n, from + 1, depth, rounds);
                        }
                    },
                    Err(_) => {},
                }
            }
        },
        _ => {},
    }
}

/// A loop run in a sound state leaves a sound state.
proof fn lemma_run_loop_is_sound(s: Session, n: Node, left: nat, depth: nat, rounds: nat)
    requires
        s.vm.sound(),
    ensures
        run_loop(s, n, left, depth, rounds).0.vm.sound(),
        sound_flow(run_loop(s, n, left, depth, rounds).1),
    decreases depth, n, 0nat, left,
{
    match n {
        Node::WhileStatement { condition, body } => {
            lemma_evaluate_is_sound(s, *condition, depth, rounds);
            let (s1, c) = evaluate(s, *condition, depth, rounds);
            match c {
                Ok(x) => {
                    if x.truthy() && left != 0 {
                        lemma_run_block_is_sound(s1, body, depth, rounds);
                        let (s2, flow) = run_block(s1, body, depth, rounds);
                        match flow {
                            Ok(Flow::Normal) | Ok(Flow::ContinueRequested) => {
                                lemma_run_loop_is_sound(s2, n, (left - 1) as nat, depth, rounds);
                            },
                            _ => {},
                        }
                    }
                },
                Err(_) => {},
            }
        },
        _ => {},
    }
}

/// Programs keep the state sound. A group of statements run in a sound
/// state, and so in a fresh one, leaves a sound state: every symbol points
/// at a cell, no scope declares a name twice, and no number sits in two
/// cells. It never fails with an address out of bounds.
pub proof fn lemma_run_is_sound(s: Session, program: Seq<Node>, depth: nat, rounds: nat)
    requires
        s.vm.sound(),
    ensures
        run(s, program, depth, rounds).0.vm.sound(),
        match run(s, program, depth, rounds).1 {
            Ok(Some(value)) => value.valid(MEM_SIZE as nat),
            Ok(None) => true,
            Err(failure) => !(failure is AddressOutOfBounds),
        },
{
    lemma_run_statements_is_sound(s, program, 0, depth, rounds);
}

} // verus!
