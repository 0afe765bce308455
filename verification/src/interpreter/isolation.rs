//! What runs in a call stays in the call: it reaches neither the names of
//! the caller nor the cells they are bound to.

use super::scoping::{
    lemma_bind_parameters_keeps_chains, lemma_declare_grows, lemma_enter_call_suspends,
    lemma_evaluate_all_keeps_scopes, lemma_evaluate_keeps_scopes, lemma_execute_keeps_chains,
    lemma_rebind_keeps_names, lemma_run_block_keeps_names, lemma_run_statements_keeps_chains,
};
use super::semantics::{
    assign, bind_parameters, enter_call, evaluate, evaluate_all, execute, run_block,
    run_branches, run_loop, run_statements, Flow, Session,
};
use super::soundness::{
    lemma_enter_call_is_sound, lemma_evaluate_all_is_sound, lemma_evaluate_is_sound,
    lemma_execute_is_sound, lemma_run_block_is_sound, sound_values,
};
use crate::ast::parser::{AssignmentKind, Node};
use crate::vm::properties::{
    lemma_declare_at_is_private, lemma_declare_at_is_sound, lemma_first_free_is_free,
    lemma_load_register_is_sound, lemma_lookup_is_held, lemma_rebind_is_private,
    lemma_scopes_are_sound, lemma_store_is_private, lemma_store_is_sound,
    lemma_store_keeps_variables, lemma_variable_is_sound,
};
use crate::vm::symbol::{Frame, Value};
use crate::vm::{Machine, MEM_SIZE, REGISTER_COUNT};
use vstd::prelude::*;

verus! {

/// Whether one of the first `count` chains points at the cell.
pub open spec fn held_below(machine: Machine, count: int, address: usize) -> bool {
    exists|j: int|
        0 <= j < count && j < machine.scopes.len() && (#[trigger] machine.scopes[j]).holds(address)
}

/// Whether the first `count` chains of `before` stand untouched in `after`,
/// and every cell that one of them points at holds what it held.
pub open spec fn guards(before: Machine, after: Machine, count: int) -> bool {
    &&& 0 <= count <= before.scopes.len()
    &&& count <= after.scopes.len()
    &&& after.memory.len() == before.memory.len()
    &&& forall|j: int| 0 <= j < count ==> #[trigger] after.scopes[j] == before.scopes[j]
    &&& forall|address: usize|
        address < before.memory.len() && #[trigger] held_below(before, count, address)
            ==> after.memory[address as int] == before.memory[address as int]
}

/// A state guards its own chains.
proof fn lemma_guards_reflexive(machine: Machine, count: int)
    requires
        0 <= count <= machine.scopes.len(),
    ensures
        guards(machine, machine, count),
{
}

/// Guarding, step after step, guards.
proof fn lemma_guards_transitive(first: Machine, middle: Machine, last: Machine, count: int)
    requires
        guards(first, middle, count),
        guards(middle, last, count),
    ensures
        guards(first, last, count),
{
    assert forall|address: usize|
        address < first.memory.len() && #[trigger] held_below(
            first,
            count,
            address,
        ) implies last.memory[address as int] == first.memory[address as int] by {
        let j = choose|j: int|
            0 <= j < count && j < first.scopes.len() && (#[trigger] first.scopes[j]).holds(address);
        assert(middle.scopes[j] == first.scopes[j]);
        assert(held_below(middle, count, address));
    }
}

/// Whatever leaves the chains alone and writes only cells that nothing
/// points at guards every chain.
proof fn lemma_private_write_guards(before: Machine, after: Machine, count: int)
    requires
        0 <= count <= before.scopes.len(),
        after.scopes == before.scopes,
        after.memory.len() == before.memory.len(),
        forall|c: int|
            0 <= c < before.memory.len() && before.in_use(c as usize)
                ==> #[trigger] after.memory[c] == before.memory[c],
    ensures
        guards(before, after, count),
{
    assert forall|address: usize|
        address < before.memory.len() && #[trigger] held_below(
            before,
            count,
            address,
        ) implies after.memory[address as int] == before.memory[address as int] by {
        let j = choose|j: int|
            0 <= j < count && j < before.scopes.len() && (#[trigger] before.scopes[j]).holds(
                address,
            );
        assert(before.in_use(address));
    }
}

/// Whatever touches the active chain alone, and no cell, guards every
/// suspended chain.
proof fn lemma_active_change_guards(before: Machine, after: Machine, count: int)
    requires
        0 <= count < before.scopes.len(),
        after.scopes.len() == before.scopes.len(),
        after.scopes.drop_last() == before.scopes.drop_last(),
        after.memory == before.memory,
    ensures
        guards(before, after, count),
{
    assert forall|j: int| 0 <= j < count implies #[trigger] after.scopes[j] == before.scopes[j] by {
        assert(after.scopes.drop_last()[j] == after.scopes[j]);
        assert(before.scopes.drop_last()[j] == before.scopes[j]);
    }
}

/// Storing a value guards every chain.
proof fn lemma_store_guards(machine: Machine, value: Value, count: int)
    requires
        machine.sound(),
        0 <= count <= machine.scopes.len(),
    ensures
        guards(machine, machine.store(value).0, count),
{
    lemma_store_is_private(machine, value);
    lemma_private_write_guards(machine, machine.store(value).0, count);
}

/// An assignment guards every suspended chain.
proof fn lemma_assign_guards(
    machine: Machine,
    name: Seq<char>,
    kind: AssignmentKind,
    value: Value,
    count: int,
)
    requires
        machine.sound(),
        value.valid(MEM_SIZE as nat),
        0 <= count < machine.scopes.len(),
    ensures
        guards(machine, assign(machine, name, kind, value).0, count),
{
    lemma_guards_reflexive(machine, count);
    lemma_variable_is_sound(machine, name);
    match machine.variable(name) {
        Ok(current) => match super::semantics::assigned(kind, current, value) {
            Ok(updated) => {
                lemma_store_guards(machine, updated, count);
                lemma_store_is_sound(machine, updated);
                let (stored, address) = machine.store(updated);
                match address {
                    Ok(a) => {
                        lemma_rebind_keeps_names(stored, name, a);
                        match stored.rebind(name, a) {
                            Ok(rebound) => {
                                lemma_active_change_guards(stored, rebound, count);
                                lemma_guards_transitive(machine, stored, rebound, count);
                            },
                            Err(_) => {},
                        }
                    },
                    Err(_) => {},
                }
            },
            Err(_) => {},
        },
        Err(_) => {},
    }
}

/// A declaration guards every suspended chain.
proof fn lemma_declare_guards(
    machine: Machine,
    name: Seq<char>,
    value: Value,
    mutable: bool,
    count: int,
)
    requires
        machine.sound(),
        0 <= count < machine.scopes.len(),
    ensures
        guards(machine, machine.declare(name, value, mutable).0, count),
{
    lemma_store_guards(machine, value, count);
    lemma_store_is_private(machine, value);
    let (stored, address) = machine.store(value);
    match address {
        Ok(a) => {
            lemma_declare_grows(stored, name, a, mutable);
            match stored.declare_at(name, a, mutable) {
                Ok(declared) => {
                    lemma_active_change_guards(stored, declared, count);
                    lemma_guards_transitive(machine, stored, declared, count);
                },
                Err(_) => {},
            }
        },
        Err(_) => {},
    }
}

/// The declaration of a function guards every suspended chain.
proof fn lemma_declare_function_guards(
    machine: Machine,
    name: Seq<char>,
    params: Seq<Seq<char>>,
    body: Seq<Node>,
    count: int,
)
    requires
        machine.sound(),
        0 <= count < machine.scopes.len(),
    ensures
        guards(machine, machine.declare_function(name, params, body).0, count),
{
    let (declared, outcome) = machine.declare_function(name, params, body);
    if outcome is Ok {
        lemma_first_free_is_free(machine, 0);
        let a = machine.first_free(0)->Some_0;
        assert forall|address: usize|
            address < machine.memory.len() && #[trigger] held_below(
                machine,
                count,
                address,
            ) implies declared.memory[address as int] == machine.memory[address as int] by {
            let j = choose|j: int|
                0 <= j < count && j < machine.scopes.len() && (#[trigger] machine.scopes[j]).holds(
                    address,
                );
            assert(machine.in_use(address));
        }
    }
}

/// Binding parameters guards every suspended chain.
proof fn lemma_bind_parameters_guards(
    machine: Machine,
    params: Seq<Seq<char>>,
    arguments: Seq<Value>,
    from: int,
    count: int,
)
    requires
        machine.sound(),
        sound_values(arguments),
        params.len() == arguments.len(),
        0 <= count < machine.scopes.len(),
    ensures
        guards(machine, bind_parameters(machine, params, arguments, from).0, count),
    decreases params.len() - from,
{
    lemma_guards_reflexive(machine, count);
    if 0 <= from < params.len() {
        let register = from % (REGISTER_COUNT as int);
        lemma_store_is_private(machine, arguments[from]);
        let (loaded, outcome) = machine.load_register(register, arguments[from]);
        lemma_private_write_guards(machine, loaded, count);
        lemma_load_register_is_sound(machine, register, arguments[from]);
        match outcome {
            Ok(_) => {
                assert(loaded.registers[register] < MEM_SIZE);
                lemma_declare_grows(loaded, params[from], loaded.registers[register], false);
                lemma_declare_at_is_sound(loaded, params[from], loaded.registers[register], false);
                match loaded.declare_at(params[from], loaded.registers[register], false) {
                    Ok(bound) => {
                        lemma_active_change_guards(loaded, bound, count);
                        lemma_guards_transitive(machine, loaded, bound, count);
                        lemma_bind_parameters_guards(bound, params, arguments, from + 1, count);
                        lemma_guards_transitive(
                            machine,
                            bound,
                            bind_parameters(bound, params, arguments, from + 1).0,
                            count,
                        );
                    },
                    Err(_) => {},
                }
            },
            Err(_) => {},
        }
    }
}

/// A call that starts leaves every chain of the caller, and every cell they
/// point at, as it was.
proof fn lemma_enter_call_guards(
    machine: Machine,
    name: Seq<char>,
    arguments: Seq<Value>,
    depth: nat,
    count: int,
)
    requires
        machine.sound(),
        sound_values(arguments),
        0 <= count <= machine.scopes.len(),
    ensures
        guards(machine, enter_call(machine, name, arguments, depth).0, count),
{
    lemma_guards_reflexive(machine, count);
    lemma_variable_is_sound(machine, name);
    match machine.function(name) {
        Ok((params, body, captured)) => {
            if params.len() == arguments.len() && depth != 0 {
                lemma_scopes_are_sound(machine, captured);
                let started = machine.enter(captured);
                assert(guards(machine, started, count)) by {
                    assert forall|address: usize|
                        address < machine.memory.len() && #[trigger] held_below(
                            machine,
                            count,
                            address,
                        ) implies started.memory[address as int]
                        == machine.memory[address as int] by {}
                }
                lemma_bind_parameters_guards(started, params, arguments, 0, count);
                let (bound, outcome) = bind_parameters(started, params, arguments, 0);
                lemma_guards_transitive(machine, started, bound, count);
                lemma_bind_parameters_keeps_chains(started, params, arguments, 0);
                if outcome is Err {
                    let left = bound.leave();
                    assert(guards(bound, left, count)) by {
                        assert forall|address: usize|
                            address < bound.memory.len() && #[trigger] held_below(
                                bound,
                                count,
                                address,
                            ) implies left.memory[address as int]
                            == bound.memory[address as int] by {}
                    }
                    lemma_guards_transitive(machine, bound, left, count);
                }
            }
        },
        Err(_) => {},
    }
}

/// Whatever an expression does, to every chain of scopes and to every cell
/// that one of the first `count` of them points at, is undone or was never
/// done: a call works on a chain of its own and writes only cells that
/// nothing points at.
pub proof fn lemma_evaluate_guards(s: Session, e: Node, depth: nat, rounds: nat, count: int)
    requires
        s.vm.sound(),
        0 <= count <= s.vm.scopes.len(),
    ensures
        guards(s.vm, evaluate(s, e, depth, rounds).0.vm, count),
    decreases depth, e, 1nat, 0nat,
{
    lemma_guards_reflexive(s.vm, count);
    match e {
        Node::BinaryOp { left, op, right } => {
            lemma_evaluate_guards(s, *left, depth, rounds, count);
            lemma_evaluate_is_sound(s, *left, depth, rounds);
            lemma_evaluate_keeps_scopes(s, *left, depth, rounds);
            let (s1, l) = evaluate(s, *left, depth, rounds);
            if l is Ok {
                lemma_evaluate_guards(s1, *right, depth, rounds, count);
                lemma_guards_transitive(
                    s.vm,
                    s1.vm,
                    evaluate(s1, *right, depth, rounds).0.vm,
                    count,
                );
            }
        },
        Node::UnaryOp { op, expr } => {
            lemma_evaluate_guards(s, *expr, depth, rounds, count);
        },
        Node::FunctionCall { name, args } => {
            lemma_evaluate_all_guards(s, args, 0, Seq::empty(), depth, rounds, count);
            lemma_evaluate_all_is_sound(s, args, 0, Seq::empty(), depth, rounds);
            lemma_evaluate_all_keeps_scopes(s, args, 0, Seq::empty(), depth, rounds);
            let (s1, values) = evaluate_all(s, args, 0, Seq::empty(), depth, rounds);
            match values {
                Ok(arguments) => {
                    lemma_enter_call_guards(s1.vm, name, arguments, depth, count);
                    lemma_enter_call_is_sound(s1.vm, name, arguments, depth);
                    lemma_enter_call_suspends(s1.vm, name, arguments, depth);
                    let (entered, body) = enter_call(s1.vm, name, arguments, depth);
                    lemma_guards_transitive(s.vm, s1.vm, entered, count);
                    match body {
                        Ok(statements) => {
                            let start = s1.with_vm(entered);
                            lemma_run_statements_guards(
                                start,
                                statements,
                                0,
                                (depth - 1) as nat,
                                rounds,
                                count,
                            );
                            lemma_run_statements_keeps_chains(
                                start,
                                statements,
                                0,
                                (depth - 1) as nat,
                                rounds,
                            );
                            let (s2, flow) = run_statements(
                                start,
                                statements,
                                0,
                                (depth - 1) as nat,
                                rounds,
                            );
                            lemma_guards_transitive(s.vm, entered, s2.vm, count);
                            let left = s2.vm.leave();
                            assert(guards(s2.vm, left, count)) by {
                                assert forall|address: usize|
                                    address < s2.vm.memory.len() && #[trigger] held_below(
                                        s2.vm,
                                        count,
                                        address,
                                    ) implies left.memory[address as int]
                                    == s2.vm.memory[address as int] by {}
                            }
                            lemma_guards_transitive(s.vm, s2.vm, left, count);
                        },
                        Err(_) => {},
                    }
                },
                Err(_) => {},
            }
        },
        _ => {},
    }
}

/// A list of expressions guards every chain.
proof fn lemma_evaluate_all_guards(
    s: Session,
    args: Seq<Node>,
    from: int,
    before: Seq<Value>,
    depth: nat,
    rounds: nat,
    count: int,
)
    requires
        s.vm.sound(),
        0 <= count <= s.vm.scopes.len(),
    ensures
        guards(s.vm, evaluate_all(s, args, from, before, depth, rounds).0.vm, count),
    decreases depth, args, 0nat, args.len() - from,
{
    lemma_guards_reflexive(s.vm, count);
    if 0 <= from < args.len() {
        lemma_evaluate_guards(s, args[from], depth, rounds, count);
        lemma_evaluate_is_sound(s, args[from], depth, rounds);
        lemma_evaluate_keeps_scopes(s, args[from], depth, rounds);
        let (s1, v) = evaluate(s, args[from], depth, rounds);
        match v {
            Ok(value) => {
                lemma_evaluate_all_guards(
                    s1,
                    args,
                    from + 1,
                    before.push(value),
                    depth,
                    rounds,
                    count,
                );
                lemma_guards_transitive(
                    s.vm,
                    s1.vm,
                    evaluate_all(s1, args, from + 1, before.push(value), depth, rounds).0.vm,
                    count,
                );
            },
            Err(_) => {},
        }
    }
}

/// A statement leaves every suspended chain, and every cell that a
/// suspended chain points at, as it was.
pub proof fn lemma_execute_guards(s: Session, n: Node, depth: nat, rounds: nat, count: int)
    requires
        s.vm.sound(),
        0 <= count < s.vm.scopes.len(),
    ensures
        guards(s.vm, execute(s, n, depth, rounds).0.vm, count),
    decreases depth, n, 2nat, 0nat,
{
    lemma_guards_reflexive(s.vm, count);
    match n {
        Node::VariableDeclaration { mutable, name, value } => {
            lemma_evaluate_guards(s, *value, depth, rounds, count);
            lemma_evaluate_is_sound(s, *value, depth, rounds);
            lemma_evaluate_keeps_scopes(s, *value, depth, rounds);
            let (s1, v) = evaluate(s, *value, depth, rounds);
            match v {
                Ok(x) => {
                    lemma_declare_guards(s1.vm, name, x, mutable, count);
                    lemma_guards_transitive(s.vm, s1.vm, s1.vm.declare(name, x, mutable).0, count);
                },
                Err(_) => {},
            }
        },
        Node::Assignment { name, kind, value } => {
            lemma_evaluate_guards(s, *value, depth, rounds, count);
            lemma_evaluate_is_sound(s, *value, depth, rounds);
            lemma_evaluate_keeps_scopes(s, *value, depth, rounds);
            let (s1, v) = evaluate(s, *value, depth, rounds);
            match v {
                Ok(x) => {
                    lemma_assign_guards(s1.vm, name, kind, x, count);
                    lemma_guards_transitive(s.vm, s1.vm, assign(s1.vm, name, kind, x).0, count);
                },
                Err(_) => {},
            }
        },
        Node::FunctionDeclaration { name, params, body } => {
            lemma_declare_function_guards(s.vm, name, params, body, count);
        },
        Node::Return { expr } => {
            lemma_evaluate_guards(s, *expr, depth, rounds, count);
        },
        Node::IfStatement { condition, body, else_body, else_ifs } => {
            lemma_evaluate_guards(s, *condition, depth, rounds, count);
            lemma_evaluate_is_sound(s, *condition, depth, rounds);
            lemma_evaluate_keeps_scopes(s, *condition, depth, rounds);
            let (s1, c) = evaluate(s, *condition, depth, rounds);
            match c {
                Ok(x) => {
                    if x.truthy() {
                        lemma_run_block_guards(s1, body, depth, rounds, count);
                    } else {
                        lemma_run_branches_guards(s1, n, 0, depth, rounds, count);
                    }
                    lemma_guards_transitive(s.vm, s1.vm, execute(s, n, depth, rounds).0.vm, count);
                },
                Err(_) => {},
            }
        },
        Node::WhileStatement { condition, body } => {
            lemma_run_loop_guards(s, n, rounds, depth, rounds, count);
        },
        Node::Break => {},
        Node::Continue => {},
        Node::Output { expr } => {
            lemma_evaluate_guards(s, *expr, depth, rounds, count);
        },
        _ => {
            lemma_evaluate_guards(s, n, depth, rounds, count);
        },
    }
}

/// A list of statements guards every suspended chain.
proof fn lemma_run_statements_guards(
    s: Session,
    body: Seq<Node>,
    from: int,
    depth: nat,
    rounds: nat,
    count: int,
)
    requires
        s.vm.sound(),
        0 <= count < s.vm.scopes.len(),
    ensures
        guards(s.vm, run_statements(s, body, from, depth, rounds).0.vm, count),
    decreases depth, body, 0nat, body.len() - from,
{
    lemma_guards_reflexive(s.vm, count);
    if 0 <= from < body.len() {
        lemma_execute_guards(s, body[from], depth, rounds, count);
        lemma_execute_is_sound(s, body[from], depth, rounds);
        lemma_execute_keeps_chains(s, body[from], depth, rounds);
        let (s1, flow) = execute(s, body[from], depth, rounds);
        match flow {
            Ok(Flow::Normal) => {
                lemma_run_statements_guards(s1, body, from + 1, depth, rounds, count);
                lemma_guards_transitive(
                    s.vm,
                    s1.vm,
                    run_statements(s1, body, from + 1, depth, rounds).0.vm,
                    count,
                );
            },
            _ => {},
        }
    }
}

/// A block guards every suspended chain.
proof fn lemma_run_block_guards(s: Session, body: Seq<Node>, depth: nat, rounds: nat, count: int)
    requires
        s.vm.sound(),
        0 <= count < s.vm.scopes.len(),
    ensures
        guards(s.vm, run_block(s, body, depth, rounds).0.vm, count),
    decreases depth, body, 1nat, 0nat,
{
    lemma_scopes_are_sound(s.vm, Frame::empty(None));
    let opened = s.with_vm(s.vm.push_scope());
    assert(opened.vm.scopes.drop_last() =~= s.vm.scopes.drop_last());
    lemma_active_change_guards(s.vm, opened.vm, count);
    lemma_run_statements_guards(opened, body, 0, depth, rounds, count);
    lemma_run_statements_keeps_chains(opened, body, 0, depth, rounds);
    let inside = run_statements(opened, body, 0, depth, rounds).0.vm;
    lemma_guards_transitive(s.vm, opened.vm, inside, count);
    let closed = inside.pop_scope();
    assert(closed.scopes.drop_last() =~= inside.scopes.drop_last());
    lemma_active_change_guards(inside, closed, count);
    lemma_guards_transitive(s.vm, inside, closed, count);
}

/// The branches of an `if` guard every suspended chain.
proof fn lemma_run_branches_guards(
    s: Session,
    n: Node,
    from: int,
    depth: nat,
    rounds: nat,
    count: int,
)
    requires
        s.vm.sound(),
        0 <= count < s.vm.scopes.len(),
    ensures
        guards(s.vm, run_branches(s, n, from, depth, rounds).0.vm, count),
    decreases depth, n, 0nat, (if n is IfStatement {
        n->else_ifs.len() - from
    } else {
        0
    }),
{
    lemma_guards_reflexive(s.vm, count);
    match n {
        Node::IfStatement { condition, body, else_body, else_ifs } => {
            if from < 0 || from >= else_ifs.len() {
                lemma_run_block_guards(s, else_body, depth, rounds, count);
            } else {
                lemma_evaluate_guards(s, else_ifs[from].0, depth, rounds, count);
                lemma_evaluate_is_sound(s, else_ifs[from].0, depth, rounds);
                lemma_evaluate_keeps_scopes(s, else_ifs[from].0, depth, rounds);
                let (s1, c) = evaluate(s, else_ifs[from].0, depth, rounds);
                match c {
                    Ok(x) => {
                        if x.truthy() {
                            lemma_run_block_guards(s1, else_ifs[from].1, depth, rounds, count);
                        } else {
                            lemma_run_branches_guards(s1, n, from + 1, depth, rounds, count);
                        }
                        lemma_guards_transitive(
                            s.vm,
                            s1.vm,
                            run_branches(s, n, from, depth, rounds).0.vm,
                            count,
                        );
                    },
                    Err(_) => {},
                }
            }
        },
        _ => {},
    }
}

/// A loop guards every suspended chain.
proof fn lemma_run_loop_guards(
    s: Session,
    n: Node,
    left: nat,
    depth: nat,
    rounds: nat,
    count: int,
)
    requires
        s.vm.sound(),
        0 <= count < s.vm.scopes.len(),
    ensures
        guards(s.vm, run_loop(s, n, left, depth, rounds).0.vm, count),
    decreases depth, n, 0nat, left,
{
    lemma_guards_reflexive(s.vm, count);
    match n {
        Node::WhileStatement { condition, body } => {
            lemma_evaluate_guards(s, *condition, depth, rounds, count);
            lemma_evaluate_is_sound(s, *condition, depth, rounds);
            lemma_evaluate_keeps_scopes(s, *condition, depth, rounds);
            let (s1, c) = evaluate(s, *condition, depth, rounds);
            match c {
                Ok(x) => {
                    if x.truthy() && left != 0 {
                        lemma_run_block_guards(s1, body, depth, rounds, count);
                        lemma_run_block_is_sound(s1, body, depth, rounds);
                        lemma_run_block_keeps_names(s1, body, depth, rounds);
                        let (s2, flow) = run_block(s1, body, depth, rounds);
                        lemma_guards_transitive(s.vm, s1.vm, s2.vm, count);
                        match flow {
                            Ok(Flow::Normal) | Ok(Flow::ContinueRequested) => {
                                lemma_run_loop_guards(
                                    s2,
                                    n,
                                    (left - 1) as nat,
                                    depth,
                                    rounds,
                                    count,
                                );
                                lemma_guards_transitive(
                                    s.vm,
                                    s2.vm,
                                    run_loop(s2, n, (left - 1) as nat, depth, rounds).0.vm,
                                    count,
                                );
                            },
                            _ => {},
                        }
                    }
                },
                Err(_) => {},
            }
        },
        _ => {},
    }
}

/// An assignment changes what no other name stands for, whether or not the
/// two names shared a cell.
pub proof fn lemma_assign_is_private(
    machine: Machine,
    name: Seq<char>,
    kind: AssignmentKind,
    value: Value,
    other: Seq<char>,
)
    requires
        machine.sound(),
        other != name,
    ensures
        assign(machine, name, kind, value).0.variable(other) == machine.variable(other),
{
    match machine.variable(name) {
        Ok(current) => match super::semantics::assigned(kind, current, value) {
            Ok(updated) => {
                lemma_store_keeps_variables(machine, updated, other);
                let (stored, address) = machine.store(updated);
                match address {
                    Ok(a) => {
                        lemma_rebind_is_private(stored, name, a, other);
                    },
                    Err(_) => {},
                }
            },
            Err(_) => {},
        },
        Err(_) => {},
    }
}

/// A declaration changes what no other name stands for.
pub proof fn lemma_declare_is_private(
    machine: Machine,
    name: Seq<char>,
    value: Value,
    mutable: bool,
    other: Seq<char>,
)
    requires
        machine.sound(),
        other != name,
    ensures
        machine.declare(name, value, mutable).0.variable(other) == machine.variable(other),
{
    lemma_store_keeps_variables(machine, value, other);
    let (stored, address) = machine.store(value);
    match address {
        Ok(a) => {
            lemma_declare_at_is_private(stored, name, a, mutable, other);
        },
        Err(_) => {},
    }
}

/// An expression changes what no name stands for. Whatever it calls runs on
/// a chain of its own, under the scope that the callee captured, and can
/// neither rebind a name of the caller nor write a cell that a name of the
/// caller is bound to.
pub proof fn lemma_evaluate_keeps_variables(
    s: Session,
    e: Node,
    depth: nat,
    rounds: nat,
    name: Seq<char>,
)
    requires
        s.vm.sound(),
    ensures
        evaluate(s, e, depth, rounds).0.vm.variable(name) == s.vm.variable(name),
{
    let after = evaluate(s, e, depth, rounds).0.vm;
    let count = s.vm.scopes.len() as int;
    lemma_evaluate_guards(s, e, depth, rounds, count);
    lemma_evaluate_keeps_scopes(s, e, depth, rounds);
    lemma_lookup_is_held(s.vm.active(), name);
    match s.vm.active().lookup(name) {
        Some(binding) => {
            if binding.address < s.vm.memory.len() {
                assert(s.vm.scopes[count - 1].holds(binding.address));
                assert(held_below(s.vm, count, binding.address));
            }
        },
        None => {},
    }
}

} // verus!
