//! Scopes end with their blocks and calls, whatever happens inside.

use super::semantics::{
    assign, bind_parameters, enter_call, evaluate, evaluate_all, execute, run, run_block,
    run_branches, run_loop, run_statements, Flow, Session,
};
use crate::ast::parser::{AssignmentKind, Node};
use crate::vm::properties::lemma_first_named;
use crate::vm::symbol::{first_named, Binding, Frame, Value};
use crate::vm::{Machine, REGISTER_COUNT};
use vstd::prelude::*;

verus! {

/// A chain with the addresses forgotten: which names are declared in which
/// scope, and which of them are mutable.
pub open spec fn outline(chain: Frame) -> Frame
    decreases chain,
{
    Frame {
        symbols: Seq::new(
            chain.symbols.len(),
            |i: int| Binding { address: 0, ..chain.symbols[i] },
        ),
        parent: match chain.parent {
            Some(parent) => Some(Box::new(outline(*parent))),
            None => None,
        },
    }
}

/// Whether `now` is `before` with, at most, bindings pointed elsewhere and
/// names declared in the innermost scope after those it had.
pub open spec fn grown_from(now: Frame, before: Frame) -> bool {
    &&& before.symbols.len() <= now.symbols.len()
    &&& outline(now).symbols.take(before.symbols.len() as int) == outline(before).symbols
    &&& outline(now).parent == outline(before).parent
}

/// Whether `after` has the chains of `before`, the suspended ones untouched
/// and the active one grown.
pub open spec fn keeps_chains(before: Machine, after: Machine) -> bool {
    &&& before.scopes.len() >= 1
    &&& after.scopes.len() == before.scopes.len()
    &&& after.scopes.drop_last() == before.scopes.drop_last()
    &&& grown_from(after.active(), before.active())
}

/// Whether `after` has the chains of `before`, the suspended ones untouched
/// and the active one with the very names it had.
pub open spec fn keeps_names(before: Machine, after: Machine) -> bool {
    &&& before.scopes.len() >= 1
    &&& after.scopes.len() == before.scopes.len()
    &&& after.scopes.drop_last() == before.scopes.drop_last()
    &&& outline(after.active()) == outline(before.active())
}

/// A chain has grown from itself.
proof fn lemma_grown_reflexive(chain: Frame)
    ensures
        grown_from(chain, chain),
{
    assert(outline(chain).symbols.take(chain.symbols.len() as int) =~= outline(chain).symbols);
}

/// A chain with the names of another has grown from it.
proof fn lemma_same_outline_is_grown(now: Frame, before: Frame)
    requires
        outline(now) == outline(before),
    ensures
        grown_from(now, before),
{
    assert(outline(now).symbols.len() == now.symbols.len());
    assert(outline(before).symbols.len() == before.symbols.len());
    assert(outline(now).symbols.take(before.symbols.len() as int) =~= outline(before).symbols);
}

/// What has grown from something grown has grown from where that began.
proof fn lemma_grown_transitive(last: Frame, middle: Frame, first: Frame)
    requires
        grown_from(last, middle),
        grown_from(middle, first),
    ensures
        grown_from(last, first),
{
    let n = first.symbols.len() as int;
    let m = middle.symbols.len() as int;
    assert forall|i: int| 0 <= i < n implies outline(last).symbols.take(n)[i] == outline(
        first,
    ).symbols[i] by {
        assert(outline(last).symbols.take(m)[i] == outline(middle).symbols[i]);
        assert(outline(middle).symbols.take(n)[i] == outline(first).symbols[i]);
    }
    assert(outline(last).symbols.take(n) =~= outline(first).symbols);
}

/// Keeping the chains, step after step, keeps them.
proof fn lemma_keeps_chains_transitive(first: Machine, middle: Machine, last: Machine)
    requires
        keeps_chains(first, middle),
        keeps_chains(middle, last),
    ensures
        keeps_chains(first, last),
{
    lemma_grown_transitive(last.active(), middle.active(), first.active());
}

/// What leaves every chain as it is keeps the chains and the names.
proof fn lemma_same_scopes_keep(before: Machine, after: Machine)
    requires
        before.scopes.len() >= 1,
        after.scopes == before.scopes,
    ensures
        keeps_chains(before, after),
        keeps_names(before, after),
{
    lemma_grown_reflexive(before.active());
}

/// What keeps the names keeps the chains.
proof fn lemma_keeps_names_is_keeps_chains(before: Machine, after: Machine)
    requires
        keeps_names(before, after),
    ensures
        keeps_chains(before, after),
{
    lemma_same_outline_is_grown(after.active(), before.active());
}

/// A declaration adds one name at the end of the innermost scope.
pub(crate) proof fn lemma_declare_grows(
    machine: Machine,
    name: Seq<char>,
    address: usize,
    mutable: bool,
)
    requires
        machine.scopes.len() >= 1,
    ensures
        match machine.declare_at(name, address, mutable) {
            Ok(declared) => keeps_chains(machine, declared) && declared.memory == machine.memory
                && declared.registers == machine.registers,
            Err(_) => true,
        },
{
    match machine.declare_at(name, address, mutable) {
        Ok(declared) => {
            let before = machine.active();
            let now = declared.active();
            assert(now.symbols == before.symbols.push(Binding { name, address, mutable }));
            assert(outline(now).symbols.take(before.symbols.len() as int) =~= outline(
                before,
            ).symbols);
            assert(declared.scopes.drop_last() =~= machine.scopes.drop_last());
        },
        Err(_) => {},
    }
}

/// Rebinding changes no name and no mutability.
proof fn lemma_frame_rebind_outline(chain: Frame, name: Seq<char>, address: usize)
    ensures
        match chain.rebind(name, address) {
            Ok(rebound) => outline(rebound) == outline(chain),
            Err(_) => true,
        },
    decreases chain,
{
    lemma_first_named(chain.symbols, name, 0);
    match first_named(chain.symbols, name, 0) {
        Some(i) => {
            if chain.symbols[i].mutable {
                let rebound = chain.rebind(name, address)->Ok_0;
                assert(outline(rebound).symbols =~= outline(chain).symbols);
            }
        },
        None => match chain.parent {
            Some(parent) => {
                lemma_frame_rebind_outline(*parent, name, address);
            },
            None => {},
        },
    }
}

/// Binding a name to another cell keeps the names.
pub(crate) proof fn lemma_rebind_keeps_names(machine: Machine, name: Seq<char>, address: usize)
    requires
        machine.scopes.len() >= 1,
    ensures
        match machine.rebind(name, address) {
            Ok(rebound) => keeps_names(machine, rebound),
            Err(_) => true,
        },
{
    lemma_frame_rebind_outline(machine.active(), name, address);
    match machine.rebind(name, address) {
        Ok(rebound) => {
            assert(rebound.scopes.drop_last() =~= machine.scopes.drop_last());
        },
        Err(_) => {},
    }
}

/// An assignment keeps the names.
proof fn lemma_assign_keeps_names(
    machine: Machine,
    name: Seq<char>,
    kind: AssignmentKind,
    value: Value,
)
    requires
        machine.scopes.len() >= 1,
    ensures
        keeps_names(machine, assign(machine, name, kind, value).0),
{
    lemma_same_scopes_keep(machine, machine);
    match machine.variable(name) {
        Ok(current) => match super::semantics::assigned(kind, current, value) {
            Ok(updated) => {
                let (stored, address) = machine.store(updated);
                lemma_same_scopes_keep(machine, stored);
                match address {
                    Ok(a) => {
                        lemma_rebind_keeps_names(stored, name, a);
                    },
                    Err(_) => {},
                }
            },
            Err(_) => {},
        },
        Err(_) => {},
    }
}

/// The declaration of a function adds one name at the end of the innermost
/// scope.
proof fn lemma_declare_function_grows(
    machine: Machine,
    name: Seq<char>,
    params: Seq<Seq<char>>,
    body: Seq<Node>,
)
    requires
        machine.scopes.len() >= 1,
    ensures
        keeps_chains(machine, machine.declare_function(name, params, body).0),
{
    let (declared, outcome) = machine.declare_function(name, params, body);
    if outcome is Ok {
        let before = machine.active();
        let now = declared.active();
        assert(outline(now).symbols.take(before.symbols.len() as int) =~= outline(
            before,
        ).symbols);
        assert(declared.scopes.drop_last() =~= machine.scopes.drop_last());
    } else {
        lemma_same_scopes_keep(machine, machine);
    }
}

/// Binding parameters touches the chain of the call alone.
pub(crate) proof fn lemma_bind_parameters_keeps_chains(
    machine: Machine,
    params: Seq<Seq<char>>,
    arguments: Seq<Value>,
    from: int,
)
    requires
        machine.scopes.len() >= 1,
    ensures
        keeps_chains(machine, bind_parameters(machine, params, arguments, from).0),
    decreases params.len() - from,
{
    if from < 0 || from >= params.len() {
        lemma_same_scopes_keep(machine, machine);
    } else {
        let register = from % (REGISTER_COUNT as int);
        let (loaded, outcome) = machine.load_register(register, arguments[from]);
        lemma_same_scopes_keep(machine, loaded);
        match outcome {
            Ok(_) => {
                lemma_declare_grows(loaded, params[from], loaded.registers[register], false);
                match loaded.declare_at(params[from], loaded.registers[register], false) {
                    Ok(bound) => {
                        lemma_bind_parameters_keeps_chains(bound, params, arguments, from + 1);
                        lemma_keeps_chains_transitive(machine, loaded, bound);
                        lemma_keeps_chains_transitive(
                            machine,
                            bound,
                            bind_parameters(bound, params, arguments, from + 1).0,
                        );
                    },
                    Err(_) => {},
                }
            },
            Err(_) => {},
        }
    }
}

/// A call that starts suspends the caller's chains as they are; one that
/// fails to start leaves them as the only ones.
pub(crate) proof fn lemma_enter_call_suspends(
    machine: Machine,
    name: Seq<char>,
    arguments: Seq<Value>,
    depth: nat,
)
    requires
        machine.scopes.len() >= 1,
    ensures
        ({
            let (entered, body) = enter_call(machine, name, arguments, depth);
            match body {
                Ok(_) => entered.scopes.len() == machine.scopes.len() + 1
                    && entered.scopes.drop_last() == machine.scopes,
                Err(_) => entered.scopes == machine.scopes,
            }
        }),
{
    match machine.function(name) {
        Ok((params, body, captured)) => {
            if params.len() == arguments.len() && depth != 0 {
                let started = machine.enter(captured);
                assert(started.scopes.drop_last() =~= machine.scopes);
                lemma_bind_parameters_keeps_chains(started, params, arguments, 0);
                let (bound, outcome) = bind_parameters(started, params, arguments, 0);
                if outcome is Err {
                    assert(bound.leave().scopes == bound.scopes.drop_last());
                }
            }
        },
        Err(_) => {},
    }
}

/// Opening a scope, running statements that keep the chains, and closing the
/// scope gives back the names there were.
proof fn lemma_scope_closes(before: Machine, inside: Machine)
    requires
        before.scopes.len() >= 1,
        keeps_chains(before.push_scope(), inside),
    ensures
        keeps_names(before, inside.pop_scope()),
{
    let opened = before.push_scope();
    assert(opened.scopes.drop_last() =~= before.scopes.drop_last());
    assert(opened.active() == Frame::empty(Some(before.active())));
    assert(outline(opened.active()).parent == Some(Box::new(outline(before.active()))));
    assert(inside.active().parent is Some);
    let closed = inside.pop_scope();
    assert(closed.scopes.drop_last() =~= inside.scopes.drop_last());
    assert(closed.active() == *inside.active().parent->Some_0);
}

/// An expression leaves every chain of scopes exactly as it found it. The
/// chain that a call runs in is gone when the call is over, however it ended,
/// and the caller's chain is the active one again.
pub proof fn lemma_evaluate_keeps_scopes(s: Session, e: Node, depth: nat, rounds: nat)
    requires
        s.vm.scopes.len() >= 1,
    ensures
        evaluate(s, e, depth, rounds).0.vm.scopes == s.vm.scopes,
    decreases depth, e, 1nat, 0nat,
{
    match e {
        Node::BinaryOp { left, op, right } => {
            lemma_evaluate_keeps_scopes(s, *left, depth, rounds);
            let (s1, l) = evaluate(s, *left, depth, rounds);
            if l is Ok {
                lemma_evaluate_keeps_scopes(s1, *right, depth, rounds);
            }
        },
        Node::UnaryOp { op, expr } => {
            lemma_evaluate_keeps_scopes(s, *expr, depth, rounds);
        },
        Node::FunctionCall { name, args } => {
            lemma_evaluate_all_keeps_scopes(s, args, 0, Seq::empty(), depth, rounds);
            let (s1, values) = evaluate_all(s, args, 0, Seq::empty(), depth, rounds);
            match values {
                Ok(arguments) => {
                    lemma_enter_call_suspends(s1.vm, name, arguments, depth);
                    let (entered, body) = enter_call(s1.vm, name, arguments, depth);
                    match body {
                        Ok(statements) => {
                            lemma_run_statements_keeps_chains(
                                s1.with_vm(entered),
                                statements,
                                0,
                                (depth - 1) as nat,
                                rounds,
                            );
                        },
                        Err(_) => {},
                    }
                },
                Err(_) => {},
            }
        },
        _ => {},
    }
}

/// A list of expressions leaves every chain exactly as it found it.
pub(crate) proof fn lemma_evaluate_all_keeps_scopes(
    s: Session,
    args: Seq<Node>,
    from: int,
    before: Seq<Value>,
    depth: nat,
    rounds: nat,
)
    requires
        s.vm.scopes.len() >= 1,
    ensures
        evaluate_all(s, args, from, before, depth, rounds).0.vm.scopes == s.vm.scopes,
    decreases depth, args, 0nat, args.len() - from,
{
    if 0 <= from < args.len() {
        lemma_evaluate_keeps_scopes(s, args[from], depth, rounds);
        let (s1, v) = evaluate(s, args[from], depth, rounds);
        match v {
            Ok(value) => {
                lemma_evaluate_all_keeps_scopes(
                    s1,
                    args,
                    from + 1,
                    before.push(value),
                    depth,
                    rounds,
                );
            },
            Err(_) => {},
        }
    }
}

/// A statement leaves the suspended chains untouched and takes no name away
/// from the active one: it may only declare names in the innermost scope and
/// point bindings elsewhere. An `if` and a `while` declare nothing that
/// outlives them: what their bodies declared is gone when they are over,
/// however they ended.
pub proof fn lemma_execute_keeps_chains(s: Session, n: Node, depth: nat, rounds: nat)
    requires
        s.vm.scopes.len() >= 1,
    ensures
        keeps_chains(s.vm, execute(s, n, depth, rounds).0.vm),
        n is IfStatement || n is WhileStatement ==> keeps_names(
            s.vm,
            execute(s, n, depth, rounds).0.vm,
        ),
    decreases depth, n, 2nat, 0nat,
{
    match n {
        Node::VariableDeclaration { mutable, name, value } => {
            lemma_evaluate_keeps_scopes(s, *value, depth, rounds);
            let (s1, v) = evaluate(s, *value, depth, rounds);
            lemma_same_scopes_keep(s.vm, s1.vm);
            match v {
                Ok(x) => {
                    let (stored, address) = s1.vm.store(x);
                    lemma_same_scopes_keep(s.vm, stored);
                    match address {
                        Ok(a) => {
                            lemma_declare_grows(stored, name, a, mutable);
                            if stored.declare_at(name, a, mutable) is Ok {
                                lemma_keeps_chains_transitive(
                                    s.vm,
                                    stored,
                                    stored.declare_at(name, a, mutable)->Ok_0,
                                );
                            }
                        },
                        Err(_) => {},
                    }
                },
                Err(_) => {},
            }
        },
        Node::Assignment { name, kind, value } => {
            lemma_evaluate_keeps_scopes(s, *value, depth, rounds);
            let (s1, v) = evaluate(s, *value, depth, rounds);
            lemma_same_scopes_keep(s.vm, s1.vm);
            match v {
                Ok(x) => {
                    lemma_assign_keeps_names(s1.vm, name, kind, x);
                    lemma_keeps_names_is_keeps_chains(s1.vm, assign(s1.vm, name, kind, x).0);
                    lemma_keeps_chains_transitive(s.vm, s1.vm, assign(s1.vm, name, kind, x).0);
                },
                Err(_) => {},
            }
        },
        Node::FunctionDeclaration { name, params, body } => {
            lemma_declare_function_grows(s.vm, name, params, body);
        },
        Node::Return { expr } => {
            lemma_evaluate_keeps_scopes(s, *expr, depth, rounds);
            lemma_same_scopes_keep(s.vm, evaluate(s, *expr, depth, rounds).0.vm);
        },
        Node::IfStatement { condition, body, else_body, else_ifs } => {
            lemma_evaluate_keeps_scopes(s, *condition, depth, rounds);
            let (s1, c) = evaluate(s, *condition, depth, rounds);
            lemma_same_scopes_keep(s.vm, s1.vm);
            match c {
                Ok(x) => {
                    if x.truthy() {
                        lemma_run_block_keeps_names(s1, body, depth, rounds);
                    } else {
                        lemma_run_branches_keeps_names(s1, n, 0, depth, rounds);
                    }
                    let after = execute(s, n, depth, rounds).0.vm;
                    lemma_keeps_names_is_keeps_chains(s.vm, after);
                },
                Err(_) => {},
            }
        },
        Node::WhileStatement { condition, body } => {
            lemma_run_loop_keeps_names(s, n, rounds, depth, rounds);
            lemma_keeps_names_is_keeps_chains(s.vm, execute(s, n, depth, rounds).0.vm);
        },
        Node::Break => {
            lemma_same_scopes_keep(s.vm, s.vm);
        },
        Node::Continue => {
            lemma_same_scopes_keep(s.vm, s.vm);
        },
        Node::Output { expr } => {
            lemma_evaluate_keeps_scopes(s, *expr, depth, rounds);
            lemma_same_scopes_keep(s.vm, evaluate(s, *expr, depth, rounds).0.vm);
        },
        _ => {
            lemma_evaluate_keeps_scopes(s, n, depth, rounds);
            lemma_same_scopes_keep(s.vm, evaluate(s, n, depth, rounds).0.vm);
        },
    }
}

/// A list of statements keeps the chains.
pub(crate) proof fn lemma_run_statements_keeps_chains(
    s: Session,
    body: Seq<Node>,
    from: int,
    depth: nat,
    rounds: nat,
)
    requires
        s.vm.scopes.len() >= 1,
    ensures
        keeps_chains(s.vm, run_statements(s, body, from, depth, rounds).0.vm),
    decreases depth, body, 0nat, body.len() - from,
{
    if 0 <= from < body.len() {
        lemma_execute_keeps_chains(s, body[from], depth, rounds);
        let (s1, flow) = execute(s, body[from], depth, rounds);
        match flow {
            Ok(Flow::Normal) => {
                lemma_run_statements_keeps_chains(s1, body, from + 1, depth, rounds);
                lemma_keeps_chains_transitive(
                    s.vm,
                    s1.vm,
                    run_statements(s1, body, from + 1, depth, rounds).0.vm,
                );
            },
            _ => {},
        }
    } else {
        lemma_same_scopes_keep(s.vm, s.vm);
    }
}

/// A block keeps the names: what it declared is gone with its scope.
pub(crate) proof fn lemma_run_block_keeps_names(
    s: Session,
    body: Seq<Node>,
    depth: nat,
    rounds: nat,
)
    requires
        s.vm.scopes.len() >= 1,
    ensures
        keeps_names(s.vm, run_block(s, body, depth, rounds).0.vm),
    decreases depth, body, 1nat, 0nat,
{
    let opened = s.with_vm(s.vm.push_scope());
    lemma_run_statements_keeps_chains(opened, body, 0, depth, rounds);
    lemma_scope_closes(s.vm, run_statements(opened, body, 0, depth, rounds).0.vm);
}

/// The branches of an `if` keep the names.
proof fn lemma_run_branches_keeps_names(s: Session, n: Node, from: int, depth: nat, rounds: nat)
    requires
        s.vm.scopes.len() >= 1,
    ensures
        keeps_names(s.vm, run_branches(s, n, from, depth, rounds).0.vm),
    decreases depth, n, 0nat, (if n is IfStatement {
        n->else_ifs.len() - from
    } else {
        0
    }),
{
    lemma_same_scopes_keep(s.vm, s.vm);
    match n {
        Node::IfStatement { condition, body, else_body, else_ifs } => {
            if from < 0 || from >= else_ifs.len() {
                lemma_run_block_keeps_names(s, else_body, depth, rounds);
            } else {
                lemma_evaluate_keeps_scopes(s, else_ifs[from].0, depth, rounds);
                let (s1, c) = evaluate(s, else_ifs[from].0, depth, rounds);
                lemma_same_scopes_keep(s.vm, s1.vm);
                match c {
                    Ok(x) => {
                        if x.truthy() {
                            lemma_run_block_keeps_names(s1, else_ifs[from].1, depth, rounds);
                        } else {
                            lemma_run_branches_keeps_names(s1, n, from + 1, depth, rounds);
                        }
                    },
                    Err(_) => {},
                }
            }
        },
        _ => {},
    }
}

/// A loop keeps the names.
proof fn lemma_run_loop_keeps_names(s: Session, n: Node, left: nat, depth: nat, rounds: nat)
    requires
        s.vm.scopes.len() >= 1,
    ensures
        keeps_names(s.vm, run_loop(s, n, left, depth, rounds).0.vm),
    decreases depth, n, 0nat, left,
{
    lemma_same_scopes_keep(s.vm, s.vm);
    match n {
        Node::WhileStatement { condition, body } => {
            lemma_evaluate_keeps_scopes(s, *condition, depth, rounds);
            let (s1, c) = evaluate(s, *condition, depth, rounds);
            lemma_same_scopes_keep(s.vm, s1.vm);
            match c {
                Ok(x) => {
                    if x.truthy() && left != 0 {
                        lemma_run_block_keeps_names(s1, body, depth, rounds);
                        let (s2, flow) = run_block(s1, body, depth, rounds);
                        match flow {
                            Ok(Flow::Normal) | Ok(Flow::ContinueRequested) => {
                                lemma_run_loop_keeps_names(
                                    s2,
                                    n,
                                    (left - 1) as nat,
                                    depth,
                                    rounds,
                                );
                            },
                            _ => {},
                        }
                    }
                },
                Err(_) => {},
            }
        },
        _ => {},
    }
}

/// Whether a name is bound depends on the names of a chain alone.
proof fn lemma_outline_decides_lookup(one: Frame, other: Frame, name: Seq<char>)
    requires
        outline(one) == outline(other),
    ensures
        one.lookup(name) is Some <==> other.lookup(name) is Some,
        one.lookup(name) is Some ==> one.lookup(name)->Some_0.mutable == other.lookup(
            name,
        )->Some_0.mutable,
    decreases one,
{
    lemma_first_named(one.symbols, name, 0);
    lemma_first_named(other.symbols, name, 0);
    assert(one.symbols.len() == outline(one).symbols.len());
    assert(other.symbols.len() == outline(other).symbols.len());
    assert forall|j: int| 0 <= j < one.symbols.len() implies (#[trigger] one.symbols[j]).name
        == other.symbols[j].name && one.symbols[j].mutable == other.symbols[j].mutable by {
        assert(outline(one).symbols[j] == Binding { address: 0, ..one.symbols[j] });
        assert(outline(other).symbols[j] == Binding { address: 0, ..other.symbols[j] });
    }
    match first_named(one.symbols, name, 0) {
        Some(i) => {
            assert(other.symbols[i].name == name);
            let k = first_named(other.symbols, name, 0)->Some_0;
            assert(one.symbols[k].name == other.symbols[k].name);
        },
        None => {
            if first_named(other.symbols, name, 0) is Some {
                let k = first_named(other.symbols, name, 0)->Some_0;
                assert(one.symbols[k].name == other.symbols[k].name);
            }
            match one.parent {
                Some(parent) => {
                    lemma_outline_decides_lookup(*parent, *other.parent->Some_0, name);
                },
                None => {},
            }
        },
    }
}

/// A name declared in the body of an `if` or a `while` cannot be reached once
/// the statement is over: the names that resolve after it are those that
/// resolved before it, with the mutability they had. This holds however the
/// statement ended: normally, by `return`, or with a failure.
pub proof fn lemma_block_names_end_with_block(
    s: Session,
    n: Node,
    depth: nat,
    rounds: nat,
    name: Seq<char>,
)
    requires
        s.vm.scopes.len() >= 1,
        n is IfStatement || n is WhileStatement,
    ensures
        ({
            let after = execute(s, n, depth, rounds).0.vm;
            &&& after.lookup(name) is Ok <==> s.vm.lookup(name) is Ok
            &&& after.lookup(name) is Ok ==> after.lookup(name)->Ok_0.mutable == s.vm.lookup(
                name,
            )->Ok_0.mutable
        }),
{
    lemma_execute_keeps_chains(s, n, depth, rounds);
    let after = execute(s, n, depth, rounds).0.vm;
    lemma_outline_decides_lookup(after.active(), s.vm.active(), name);
}

/// A group of top-level statements leaves one chain per call in progress,
/// as it found them, whatever it ran and however it ended; names it declared
/// at the top level stay, and no name that resolved before is lost.
pub proof fn lemma_run_keeps_chains(s: Session, program: Seq<Node>, depth: nat, rounds: nat)
    requires
        s.vm.scopes.len() >= 1,
    ensures
        keeps_chains(s.vm, run(s, program, depth, rounds).0.vm),
{
    lemma_run_statements_keeps_chains(s, program, 0, depth, rounds);
}

} // verus!
