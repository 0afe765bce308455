//! What a program means: the evaluator as a mathematical function from a
//! state and a syntax tree to the next state and an outcome.
//!
//! Two bounds make the function total. `depth` is the number of calls that
//! may still be nested inside one another; `rounds` is the number of times
//! the body of any one loop may run.

use crate::ast::parser::{AssignmentKind, Node, Operator};
use crate::error::Failure;
use crate::vm::symbol::Value;
use crate::vm::{Machine, REGISTER_COUNT};
use vstd::prelude::*;

verus! {

/// How the evaluation of a statement ended.
pub ghost enum Flow {
    /// The statement ran to its end.
    Normal,
    /// A `return` was met; the enclosing call ends with this value.
    Returned(Value),
    /// A `break` was met; the enclosing loop ends.
    BreakRequested,
    /// A `continue` was met; the enclosing loop goes on to its next round.
    ContinueRequested,
}

/// The state a program runs in: the machine, and the values printed so far.
pub ghost struct Session {
    pub vm: Machine,
    pub output: Seq<Value>,
}

impl Session {
    /// The state before anything ran.
    pub open spec fn fresh() -> Session {
        Session { vm: Machine::fresh(), output: Seq::empty() }
    }

    /// The session with `vm` in place of its machine.
    pub open spec fn with_vm(self, vm: Machine) -> Session {
        Session { vm, ..self }
    }
}

/// The 32-bit two's complement integer that is congruent to `x`.
pub open spec fn wrap(x: int) -> i32 {
    let r = x % 0x1_0000_0000;
    if r > i32::MAX {
        (r - 0x1_0000_0000) as i32
    } else {
        r as i32
    }
}

/// The distance of `x` from zero.
pub open spec fn magnitude(x: int) -> int {
    if x < 0 {
        -x
    } else {
        x
    }
}

/// `a` divided by `b`, rounded toward zero.
pub open spec fn quotient(a: int, b: int) -> int
    recommends
        b != 0,
{
    if (a < 0) == (b < 0) {
        magnitude(a) / magnitude(b)
    } else {
        -(magnitude(a) / magnitude(b))
    }
}

/// What is left of `a` after division by `b`; it has the sign of `a`.
pub open spec fn remainder(a: int, b: int) -> int
    recommends
        b != 0,
{
    if a < 0 {
        -(magnitude(a) % magnitude(b))
    } else {
        magnitude(a) % magnitude(b)
    }
}

/// The number that stands for a truth value: one for true, zero for false.
pub open spec fn flag(truth: bool) -> Value {
    Value::Number(
        if truth {
            1
        } else {
            0
        },
    )
}

/// A binary operator applied to two numbers. Arithmetic wraps round; the
/// logical operators look at both operands as truth values.
pub open spec fn arithmetic(op: Operator, a: i32, b: i32) -> Result<Value, Failure> {
    match op {
        Operator::Add => Ok(Value::Number(wrap(a + b))),
        Operator::Sub => Ok(Value::Number(wrap(a - b))),
        Operator::Mul => Ok(Value::Number(wrap(a * b))),
        Operator::Div => if b == 0 {
            Err(Failure::DivisionByZero)
        } else {
            Ok(Value::Number(wrap(quotient(a as int, b as int))))
        },
        Operator::Mod => if b == 0 {
            Err(Failure::ModuloByZero)
        } else {
            Ok(Value::Number(wrap(remainder(a as int, b as int))))
        },
        Operator::And => Ok(flag(a != 0 && b != 0)),
        Operator::Or => Ok(flag(a != 0 || b != 0)),
        Operator::Eq => Ok(flag(a == b)),
        Operator::Ne => Ok(flag(a != b)),
        Operator::Lt => Ok(flag(a < b)),
        Operator::Le => Ok(flag(a <= b)),
        Operator::Gt => Ok(flag(a > b)),
        Operator::Ge => Ok(flag(a >= b)),
        Operator::Not => Err(Failure::TypeMismatch),
        Operator::Neg => Err(Failure::TypeMismatch),
    }
}

/// A binary operator applied to two values: both must be numbers.
pub open spec fn binary(op: Operator, left: Value, right: Value) -> Result<Value, Failure> {
    match (left, right) {
        (Value::Number(a), Value::Number(b)) => arithmetic(op, a, b),
        _ => Err(Failure::TypeMismatch),
    }
}

/// A unary operator applied to a value. `Not` takes any value as a truth
/// value; `Neg` takes a number.
pub open spec fn unary(op: Operator, operand: Value) -> Result<Value, Failure> {
    match op {
        Operator::Not => Ok(flag(!operand.truthy())),
        Operator::Neg => match operand {
            Value::Number(n) => Ok(Value::Number(wrap(-n))),
            _ => Err(Failure::TypeMismatch),
        },
        _ => Err(Failure::TypeMismatch),
    }
}

/// The operator that a compound assignment applies, if it applies one.
pub open spec fn operator_of(kind: AssignmentKind) -> Option<Operator> {
    match kind {
        AssignmentKind::Assign => None,
        AssignmentKind::Add => Some(Operator::Add),
        AssignmentKind::Sub => Some(Operator::Sub),
        AssignmentKind::Mul => Some(Operator::Mul),
        AssignmentKind::Div => Some(Operator::Div),
        AssignmentKind::Mod => Some(Operator::Mod),
    }
}

/// The value an assignment of `kind` gives a variable that holds `current`.
pub open spec fn assigned(kind: AssignmentKind, current: Value, value: Value) -> Result<
    Value,
    Failure,
> {
    match operator_of(kind) {
        Some(op) => binary(op, current, value),
        None => Ok(value),
    }
}

/// An assignment to `name`: the new value is worked out from the current
/// one, stored, and the name bound to its cell. The cell that the name was
/// bound to is not written. The value stays stored when the name turns out
/// to be immutable.
pub open spec fn assign(vm: Machine, name: Seq<char>, kind: AssignmentKind, value: Value) -> (
    Machine,
    Result<(), Failure>,
) {
    match vm.variable(name) {
        Ok(current) => match assigned(kind, current, value) {
            Ok(updated) => {
                let (stored, address) = vm.store(updated);
                match address {
                    Ok(a) => match stored.rebind(name, a) {
                        Ok(rebound) => (rebound, Ok(())),
                        Err(failure) => (stored, Err(failure)),
                    },
                    Err(failure) => (stored, Err(failure)),
                }
            },
            Err(failure) => (vm, Err(failure)),
        },
        Err(failure) => (vm, Err(failure)),
    }
}

/// Binds the parameters from `from` on to the arguments, in the innermost
/// active scope: each argument is loaded into a register, the registers
/// taken in turn, and the parameter bound, immutably, to the cell the
/// register then points at.
pub open spec fn bind_parameters(
    vm: Machine,
    params: Seq<Seq<char>>,
    arguments: Seq<Value>,
    from: int,
) -> (Machine, Result<(), Failure>)
    decreases params.len() - from,
{
    if from < 0 || from >= params.len() {
        (vm, Ok(()))
    } else {
        let register = from % (REGISTER_COUNT as int);
        let (loaded, outcome) = vm.load_register(register, arguments[from]);
        match outcome {
            Ok(_) => match loaded.declare_at(params[from], loaded.registers[register], false) {
                Ok(bound) => bind_parameters(bound, params, arguments, from + 1),
                Err(failure) => (loaded, Err(failure)),
            },
            Err(failure) => (loaded, Err(failure)),
        }
    }
}

/// The start of a call of `name` with `arguments`, with `depth` calls still
/// allowed: the callee is resolved, the number of arguments checked, and a
/// chain started whose parent is the scope the function captured, never the
/// caller's chain, with the parameters bound in it. Gives the body to run;
/// when it fails, the caller's chain is the active one again.
pub open spec fn enter_call(vm: Machine, name: Seq<char>, arguments: Seq<Value>, depth: nat) -> (
    Machine,
    Result<Seq<Node>, Failure>,
) {
    match vm.function(name) {
        Ok((params, body, captured)) => if params.len() != arguments.len() {
            (vm, Err(Failure::ArityMismatch(params.len(), arguments.len())))
        } else if depth == 0 {
            (vm, Err(Failure::CallDepthExceeded))
        } else {
            let (bound, outcome) = bind_parameters(vm.enter(captured), params, arguments, 0);
            match outcome {
                Ok(_) => (bound, Ok(body)),
                Err(failure) => (bound.leave(), Err(failure)),
            }
        },
        Err(failure) => (vm, Err(failure)),
    }
}

/// The value of a call whose body ended in `flow`: the value returned, or
/// null when the body ended without one, because it ran off its end or a
/// `break` or `continue` outside any loop ended it.
pub open spec fn call_value(flow: Result<Flow, Failure>) -> Result<Value, Failure> {
    match flow {
        Ok(Flow::Returned(value)) => Ok(value),
        Ok(_) => Ok(Value::Null),
        Err(failure) => Err(failure),
    }
}

/// The outcome of a statement that is over once its work succeeded.
pub open spec fn done(outcome: Result<(), Failure>) -> Result<Flow, Failure> {
    match outcome {
        Ok(_) => Ok(Flow::Normal),
        Err(failure) => Err(failure),
    }
}

/// The value of an expression, and the state it leaves.
///
/// A number is itself, a name what it stands for. A binary operation
/// evaluates its left operand, then its right one, and applies the operator;
/// a unary operation evaluates its operand and applies the operator. A call
/// evaluates its arguments from left to right, starts the call, runs the
/// body with one call fewer allowed to nest, and ends the call however the
/// body ended. The first failure ends the evaluation. A node that is no
/// expression is a type mismatch.
pub open spec fn evaluate(s: Session, e: Node, depth: nat, rounds: nat) -> (
    Session,
    Result<Value, Failure>,
)
    decreases depth, e, 1nat, 0nat,
{
    match e {
        Node::Number(n) => (s, Ok(Value::Number(n))),
        Node::Identifier(name) => (s, s.vm.variable(name)),
        Node::BinaryOp { left, op, right } => {
            let (s1, l) = evaluate(s, *left, depth, rounds);
            match l {
                Ok(a) => {
                    let (s2, r) = evaluate(s1, *right, depth, rounds);
                    match r {
                        Ok(b) => (s2, binary(op, a, b)),
                        Err(failure) => (s2, Err(failure)),
                    }
                },
                Err(failure) => (s1, Err(failure)),
            }
        },
        Node::UnaryOp { op, expr } => {
            let (s1, v) = evaluate(s, *expr, depth, rounds);
            match v {
                Ok(operand) => (s1, unary(op, operand)),
                Err(failure) => (s1, Err(failure)),
            }
        },
        Node::FunctionCall { name, args } => {
            let (s1, values) = evaluate_all(s, args, 0, Seq::empty(), depth, rounds);
            match values {
                Ok(arguments) => {
                    let (entered, body) = enter_call(s1.vm, name, arguments, depth);
                    match body {
                        Ok(statements) => {
                            let (s2, flow) = run_statements(
                                s1.with_vm(entered),
                                statements,
                                0,
                                (depth - 1) as nat,
                                rounds,
                            );
                            (s2.with_vm(s2.vm.leave()), call_value(flow))
                        },
                        Err(failure) => (s1.with_vm(entered), Err(failure)),
                    }
                },
                Err(failure) => (s1, Err(failure)),
            }
        },
        _ => (s, Err(Failure::TypeMismatch)),
    }
}

/// The values of the expressions from `from` on, left to right, after those
/// in `before`.
pub open spec fn evaluate_all(
    s: Session,
    args: Seq<Node>,
    from: int,
    before: Seq<Value>,
    depth: nat,
    rounds: nat,
) -> (Session, Result<Seq<Value>, Failure>)
    decreases depth, args, 0nat, args.len() - from,
{
    if from < 0 || from >= args.len() {
        (s, Ok(before))
    } else {
        let (s1, v) = evaluate(s, args[from], depth, rounds);
        match v {
            Ok(value) => evaluate_all(s1, args, from + 1, before.push(value), depth, rounds),
            Err(failure) => (s1, Err(failure)),
        }
    }
}

/// The effect of a statement, and how it ended.
///
/// A declaration evaluates its value, stores it and declares the name in the
/// innermost scope. An assignment evaluates its value, works out the new
/// value from the current one, stores it and rebinds the name. A function
/// declaration captures the active chain. A `return` evaluates its value and
/// ends with it; `break` and `continue` end with their requests. An `if`
/// evaluates its condition and runs its body, or else the first `elseif`
/// branch whose condition holds, or else the `else` body, each in a scope of
/// its own. A `while` runs as [`run_loop`] says. An `out` evaluates its value
/// and adds it to the output. An expression in the place of a statement is
/// evaluated and its value dropped.
pub open spec fn execute(s: Session, n: Node, depth: nat, rounds: nat) -> (
    Session,
    Result<Flow, Failure>,
)
    decreases depth, n, 2nat, 0nat,
{
    match n {
        Node::VariableDeclaration { mutable, name, value } => {
            let (s1, v) = evaluate(s, *value, depth, rounds);
            match v {
                Ok(x) => {
                    let (vm, outcome) = s1.vm.declare(name, x, mutable);
                    (s1.with_vm(vm), done(outcome))
                },
                Err(failure) => (s1, Err(failure)),
            }
        },
        Node::Assignment { name, kind, value } => {
            let (s1, v) = evaluate(s, *value, depth, rounds);
            match v {
                Ok(x) => {
                    let (vm, outcome) = assign(s1.vm, name, kind, x);
                    (s1.with_vm(vm), done(outcome))
                },
                Err(failure) => (s1, Err(failure)),
            }
        },
        Node::FunctionDeclaration { name, params, body } => {
            let (vm, outcome) = s.vm.declare_function(name, params, body);
            (s.with_vm(vm), done(outcome))
        },
        Node::Return { expr } => {
            let (s1, v) = evaluate(s, *expr, depth, rounds);
            match v {
                Ok(x) => (s1, Ok(Flow::Returned(x))),
                Err(failure) => (s1, Err(failure)),
            }
        },
        Node::IfStatement { condition, body, else_body, else_ifs } => {
            let (s1, c) = evaluate(s, *condition, depth, rounds);
            match c {
                Ok(x) => if x.truthy() {
                    run_block(s1, body, depth, rounds)
                } else {
                    run_branches(s1, n, 0, depth, rounds)
                },
                Err(failure) => (s1, Err(failure)),
            }
        },
        Node::WhileStatement { condition, body } => run_loop(s, n, rounds, depth, rounds),
        Node::Break => (s, Ok(Flow::BreakRequested)),
        Node::Continue => (s, Ok(Flow::ContinueRequested)),
        Node::Output { expr } => {
            let (s1, v) = evaluate(s, *expr, depth, rounds);
            match v {
                Ok(x) => (Session { output: s1.output.push(x), ..s1 }, Ok(Flow::Normal)),
                Err(failure) => (s1, Err(failure)),
            }
        },
        _ => {
            let (s1, v) = evaluate(s, n, depth, rounds);
            match v {
                Ok(_) => (s1, Ok(Flow::Normal)),
                Err(failure) => (s1, Err(failure)),
            }
        },
    }
}

/// The statements from `from` on, in order, in the scope that is active. The
/// first that fails or does not end normally ends the run.
pub open spec fn run_statements(
    s: Session,
    body: Seq<Node>,
    from: int,
    depth: nat,
    rounds: nat,
) -> (Session, Result<Flow, Failure>)
    decreases depth, body, 0nat, body.len() - from,
{
    if from < 0 || from >= body.len() {
        (s, Ok(Flow::Normal))
    } else {
        let (s1, flow) = execute(s, body[from], depth, rounds);
        match flow {
            Ok(Flow::Normal) => run_statements(s1, body, from + 1, depth, rounds),
            _ => (s1, flow),
        }
    }
}

/// The statements in a scope of their own, opened before the first and closed
/// after the last, however the run ends.
pub open spec fn run_block(s: Session, body: Seq<Node>, depth: nat, rounds: nat) -> (
    Session,
    Result<Flow, Failure>,
)
    decreases depth, body, 1nat, 0nat,
{
    let (s1, flow) = run_statements(s.with_vm(s.vm.push_scope()), body, 0, depth, rounds);
    (s1.with_vm(s1.vm.pop_scope()), flow)
}

/// The `elseif` branches of the `if` statement `n` from `from` on, then its
/// `else` body: the body of the first branch whose condition holds runs, or
/// the `else` body if there is none.
pub open spec fn run_branches(s: Session, n: Node, from: int, depth: nat, rounds: nat) -> (
    Session,
    Result<Flow, Failure>,
)
    decreases depth, n, 0nat, (if n is IfStatement {
        n->else_ifs.len() - from
    } else {
        0
    }),
{
    match n {
        Node::IfStatement { condition, body, else_body, else_ifs } => {
            if from < 0 || from >= else_ifs.len() {
                run_block(s, else_body, depth, rounds)
            } else {
                let (s1, c) = evaluate(s, else_ifs[from].0, depth, rounds);
                match c {
                    Ok(x) => if x.truthy() {
                        run_block(s1, else_ifs[from].1, depth, rounds)
                    } else {
                        run_branches(s1, n, from + 1, depth, rounds)
                    },
                    Err(failure) => (s1, Err(failure)),
                }
            }
        },
        _ => (s, Ok(Flow::Normal)),
    }
}

/// The `while` statement `n` with `left` rounds still allowed: as long as the
/// condition holds the body runs, each round in a scope of its own. A `break`
/// ends the loop, a `continue` the round; a `return` or a failure passes
/// through.
pub open spec fn run_loop(s: Session, n: Node, left: nat, depth: nat, rounds: nat) -> (
    Session,
    Result<Flow, Failure>,
)
    decreases depth, n, 0nat, left,
{
    match n {
        Node::WhileStatement { condition, body } => {
            let (s1, c) = evaluate(s, *condition, depth, rounds);
            match c {
                Ok(x) => if !x.truthy() {
                    (s1, Ok(Flow::Normal))
                } else if left == 0 {
                    (s1, Err(Failure::IterationLimitExceeded))
                } else {
                    let (s2, flow) = run_block(s1, body, depth, rounds);
                    match flow {
                        Ok(Flow::Normal) | Ok(Flow::ContinueRequested) => run_loop(
                            s2,
                            n,
                            (left - 1) as nat,
                            depth,
                            rounds,
                        ),
                        Ok(Flow::BreakRequested) => (s2, Ok(Flow::Normal)),
                        _ => (s2, flow),
                    }
                },
                Err(failure) => (s1, Err(failure)),
            }
        },
        _ => (s, Ok(Flow::Normal)),
    }
}

/// What a group of top-level statements hands back: the value of the
/// `return` that ended it, if one did.
pub open spec fn result_of(flow: Result<Flow, Failure>) -> Result<Option<Value>, Failure> {
    match flow {
        Ok(Flow::Returned(value)) => Ok(Some(value)),
        Ok(_) => Ok(None),
        Err(failure) => Err(failure),
    }
}

/// A group of top-level statements run against `s`, in the scope that is
/// active. A failure ends the group where it occurs: what was done before it
/// stays done.
pub open spec fn run(s: Session, program: Seq<Node>, depth: nat, rounds: nat) -> (
    Session,
    Result<Option<Value>, Failure>,
) {
    let (s1, flow) = run_statements(s, program, 0, depth, rounds);
    (s1, result_of(flow))
}

} // verus!
