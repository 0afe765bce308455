//! The evaluator: it walks a syntax tree and runs it against a [`VM`].
//!
//! Expressions give values, statements give a [`ControlFlow`]. Every function
//! here does exactly what [`semantics`] says the program means.

pub mod arithmetic;
pub mod bounds;
pub mod control;
pub mod isolation;
pub mod scoping;
pub mod semantics;
pub mod soundness;

use crate::ast::parser::{
    branches_model, duplicate_names, duplicate_nodes, names_model, nodes_model, ASTNode,
    AssignmentKind, Node,
};
use crate::error::{Failure, RuntimeError};
use crate::vm::symbol::{DataType, Value};
use crate::vm::properties::{lemma_fresh_is_sound, lemma_scopes_are_sound};
use scoping::{keeps_chains, lemma_run_keeps_chains};
use crate::vm::symbol::Frame;
use crate::vm::{values, REGISTER_COUNT, VM};
use arithmetic::{apply_assignment, apply_binary, apply_unary, value_outcome};
use soundness::{
    lemma_enter_call_is_sound, lemma_evaluate_all_is_sound, lemma_evaluate_is_sound,
    lemma_execute_is_sound, lemma_run_is_sound, sound_flow, sound_value,
};
use semantics::{Flow, Session};
use vstd::prelude::*;

verus! {

/// The number of calls that may be nested inside one another in an
/// interpreter made by [`Interpreter::new`]. The evaluator calls itself for
/// every call of the program, so this bounds the stack it takes.
pub const DEFAULT_DEPTH: usize = 200;

/// The number of times the body of any one loop may run in an interpreter
/// made by [`Interpreter::new`]: as many as the machine can count.
pub const DEFAULT_ROUNDS: usize = usize::MAX;

/// How the evaluation of a statement ended.
#[derive(Debug, PartialEq)]
pub enum ControlFlow {
    /// The statement ran to its end.
    Normal,
    /// A `return` was met; the enclosing call ends with this value.
    Returned(DataType),
    /// A `break` was met; the enclosing loop ends.
    BreakRequested,
    /// A `continue` was met; the enclosing loop goes on to its next round.
    ContinueRequested,
}

impl View for ControlFlow {
    type V = Flow;

    open spec fn view(&self) -> Flow {
        match *self {
            ControlFlow::Normal => Flow::Normal,
            ControlFlow::Returned(value) => Flow::Returned(value@),
            ControlFlow::BreakRequested => Flow::BreakRequested,
            ControlFlow::ContinueRequested => Flow::ContinueRequested,
        }
    }
}

/// The model of the outcome of an operation that only succeeds or fails.
pub open spec fn unit_outcome(outcome: Result<(), RuntimeError>) -> Result<(), Failure> {
    match outcome {
        Ok(_) => Ok(()),
        Err(error) => Err(error@),
    }
}

/// The model of the outcome of a statement.
pub open spec fn flow_outcome(outcome: Result<ControlFlow, RuntimeError>) -> Result<Flow, Failure> {
    match outcome {
        Ok(flow) => Ok(flow@),
        Err(error) => Err(error@),
    }
}

/// The model of the outcome of a list of expressions.
pub open spec fn values_outcome(outcome: Result<Vec<DataType>, RuntimeError>) -> Result<
    Seq<Value>,
    Failure,
> {
    match outcome {
        Ok(list) => Ok(values(list@)),
        Err(error) => Err(error@),
    }
}

/// The model of the outcome of the start of a call.
pub open spec fn body_outcome(outcome: Result<Vec<ASTNode>, RuntimeError>) -> Result<
    Seq<Node>,
    Failure,
> {
    match outcome {
        Ok(body) => Ok(nodes_model(body@)),
        Err(error) => Err(error@),
    }
}

/// The model of the outcome of a group of top-level statements.
pub open spec fn result_outcome(outcome: Result<Option<DataType>, RuntimeError>) -> Result<
    Option<Value>,
    Failure,
> {
    match outcome {
        Ok(Some(value)) => Ok(Some(value@)),
        Ok(None) => Ok(None),
        Err(error) => Err(error@),
    }
}

/// Assigns to `name`: works out the new value from the current one, stores it
/// and binds the name to its cell.
pub fn assign(vm: &mut VM, name: &String, kind: AssignmentKind, value: DataType) -> (outcome:
    Result<(), RuntimeError>)
    requires
        old(vm).wf(),
    ensures
        final(vm).wf(),
        semantics::assign(old(vm)@, name@, kind, value@) == (final(vm)@, unit_outcome(outcome)),
{
    match vm.get_variable(name.as_str()) {
        Ok(current) => match apply_assignment(kind, &current, value) {
            Ok(updated) => match vm.get_or_add_to_memory(updated) {
                Ok(address) => vm.set_variable_address(name.as_str(), address),
                Err(error) => Err(error),
            },
            Err(error) => Err(error),
        },
        Err(error) => Err(error),
    }
}

/// Binds each parameter to the argument in its place, in the innermost active
/// scope. Argument `i` travels through register `i` modulo
/// [`REGISTER_COUNT`].
fn bind_parameters(vm: &mut VM, params: &Vec<String>, arguments: &Vec<DataType>) -> (outcome:
    Result<(), RuntimeError>)
    requires
        old(vm).wf(),
        params.len() == arguments.len(),
    ensures
        final(vm).wf(),
        semantics::bind_parameters(old(vm)@, names_model(params@), values(arguments@), 0) == (
            final(vm)@,
            unit_outcome(outcome),
        ),
{
    let mut i: usize = 0;
    while i < params.len()
        invariant
            i <= params.len(),
            params.len() == arguments.len(),
            vm.wf(),
            semantics::bind_parameters(old(vm)@, names_model(params@), values(arguments@), 0)
                == semantics::bind_parameters(
                vm@,
                names_model(params@),
                values(arguments@),
                i as int,
            ),
        decreases params.len() - i,
    {
        let register = i % REGISTER_COUNT;
        match vm.load_value_into_register(register, arguments[i].duplicate()) {
            Ok(_) => {
                let address = vm.get_register_address(register);
                match vm.declare_variable_from_memory(params[i].clone(), address, false) {
                    Ok(_) => {},
                    Err(error) => {
                        return Err(error);
                    },
                }
            },
            Err(error) => {
                return Err(error);
            },
        }
        i += 1;
    }
    Ok(())
}

/// Starts a call of `name`: resolves the callee, checks the number of
/// arguments and the depth, starts the chain of the call under the scope the
/// function captured, and binds the parameters. Gives the body to run.
pub fn enter_call(vm: &mut VM, name: &String, arguments: Vec<DataType>, depth: usize) -> (outcome:
    Result<Vec<ASTNode>, RuntimeError>)
    requires
        old(vm).wf(),
    ensures
        final(vm).wf(),
        semantics::enter_call(old(vm)@, name@, values(arguments@), depth as nat) == (
            final(vm)@,
            body_outcome(outcome),
        ),
{
    match vm.get_function(name.as_str()) {
        Ok((params, body, captured)) => {
            if params.len() != arguments.len() {
                return Err(RuntimeError::ArityMismatch(params.len(), arguments.len()));
            }
            if depth == 0 {
                return Err(RuntimeError::CallDepthExceeded);
            }
            vm.enter_function(captured);
            match bind_parameters(vm, &params, &arguments) {
                Ok(_) => Ok(body),
                Err(error) => {
                    vm.leave_function();
                    Err(error)
                },
            }
        },
        Err(error) => Err(error),
    }
}

/// An evaluator with the runtime it runs programs against. The runtime and
/// what was printed live on from one group of statements to the next.
#[derive(Debug)]
pub struct Interpreter {
    vm: VM,
    output: Vec<DataType>,
    depth: usize,
    rounds: usize,
}

impl View for Interpreter {
    type V = Session;

    closed spec fn view(&self) -> Session {
        Session { vm: self.vm@, output: values(self.output@) }
    }
}

impl Interpreter {
    /// Whether the runtime is in a state that programs keep: see
    /// [`Machine::sound`](crate::vm::Machine::sound).
    pub closed spec fn wf(&self) -> bool {
        self.vm@.sound()
    }

    /// The number of calls that may be nested inside one another.
    pub closed spec fn depth_limit(&self) -> nat {
        self.depth as nat
    }

    /// The number of times the body of any one loop may run.
    pub closed spec fn round_limit(&self) -> nat {
        self.rounds as nat
    }

    /// An interpreter over a fresh runtime, with the default limits.
    pub fn new() -> (interpreter: Interpreter)
        ensures
            interpreter.wf(),
            interpreter@ == Session::fresh(),
            interpreter.depth_limit() == DEFAULT_DEPTH,
            interpreter.round_limit() == DEFAULT_ROUNDS,
    {
        Interpreter::with_limits(DEFAULT_DEPTH, DEFAULT_ROUNDS)
    }

    /// An interpreter over a fresh runtime that lets `depth` calls nest and
    /// the body of a loop run `rounds` times.
    pub fn with_limits(depth: usize, rounds: usize) -> (interpreter: Interpreter)
        ensures
            interpreter.wf(),
            interpreter@ == Session::fresh(),
            interpreter.depth_limit() == depth,
            interpreter.round_limit() == rounds,
    {
        let interpreter = Interpreter { vm: VM::new(), output: Vec::new(), depth, rounds };
        assert(interpreter@.output =~= Seq::empty());
        proof {
            lemma_fresh_is_sound();
        }
        interpreter
    }

    /// The runtime.
    pub fn vm(&self) -> (vm: &VM)
        requires
            self.wf(),
        ensures
            vm.wf(),
            vm@.sound(),
            vm@ == self@.vm,
    {
        &self.vm
    }

    /// The values printed so far, oldest first.
    pub fn output(&self) -> (printed: &Vec<DataType>)
        ensures
            values(printed@) == self@.output,
    {
        &self.output
    }

    /// The value of an expression, with `depth` calls still allowed to nest.
    pub fn compute_expr(&mut self, expr: &ASTNode, depth: usize) -> (outcome: Result<
        DataType,
        RuntimeError,
    >)
        requires
            old(self).wf(),
        ensures
            final(self).wf(),
            final(self).depth_limit() == old(self).depth_limit(),
            final(self).round_limit() == old(self).round_limit(),
            semantics::evaluate(old(self)@, expr@, depth as nat, old(self).round_limit()) == (
                final(self)@,
                value_outcome(outcome),
            ),
            sound_value(value_outcome(outcome)),
        decreases depth, expr, 1nat, 0nat,
    {
        proof {
            lemma_evaluate_is_sound(self@, expr@, depth as nat, self.round_limit());
        }
        match expr {
            ASTNode::Number(n) => Ok(DataType::Number(*n)),
            ASTNode::Identifier(name) => self.vm.get_variable(name.as_str()),
            ASTNode::BinaryOp { left, op, right } => {
                match self.compute_expr(left, depth) {
                    Ok(a) => match self.compute_expr(right, depth) {
                        Ok(b) => apply_binary(*op, &a, &b),
                        Err(error) => Err(error),
                    },
                    Err(error) => Err(error),
                }
            },
            ASTNode::UnaryOp { op, expr } => {
                match self.compute_expr(expr, depth) {
                    Ok(operand) => apply_unary(*op, &operand),
                    Err(error) => Err(error),
                }
            },
            ASTNode::FunctionCall { name, args } => {
                proof {
                    lemma_evaluate_all_is_sound(
                        self@,
                        nodes_model(args@),
                        0,
                        Seq::empty(),
                        depth as nat,
                        self.round_limit(),
                    );
                }
                match self.compute_args(args, depth) {
                    Ok(arguments) => {
                        proof {
                            lemma_enter_call_is_sound(
                                self.vm@,
                                name@,
                                values(arguments@),
                                depth as nat,
                            );
                        }
                        match enter_call(&mut self.vm, name, arguments, depth) {
                        Ok(body) => {
                            let flow = self.interpret_statements(&body, depth - 1);
                            self.vm.leave_function();
                            match flow {
                                Ok(ControlFlow::Returned(value)) => Ok(value),
                                Ok(_) => Ok(DataType::Null()),
                                Err(error) => Err(error),
                            }
                        },
                        Err(error) => Err(error),
                    }
                    },
                    Err(error) => Err(error),
                }
            },
            _ => Err(RuntimeError::TypeMismatch),
        }
    }

    /// The values of a list of expressions, left to right.
    pub fn compute_args(&mut self, args: &Vec<ASTNode>, depth: usize) -> (outcome: Result<
        Vec<DataType>,
        RuntimeError,
    >)
        requires
            old(self).wf(),
        ensures
            final(self).wf(),
            final(self).depth_limit() == old(self).depth_limit(),
            final(self).round_limit() == old(self).round_limit(),
            semantics::evaluate_all(
                old(self)@,
                nodes_model(args@),
                0,
                Seq::empty(),
                depth as nat,
                old(self).round_limit(),
            ) == (final(self)@, values_outcome(outcome)),
        decreases depth, args, 0nat, 0nat,
    {
        let mut done: Vec<DataType> = Vec::new();
        let mut i: usize = 0;
        assert(values(done@) =~= Seq::empty());
        proof {
            lemma_evaluate_all_is_sound(
                self@,
                nodes_model(args@),
                0,
                Seq::empty(),
                depth as nat,
                self.round_limit(),
            );
        }
        while i < args.len()
            invariant
                i <= args.len(),
                self.wf(),
                self.depth_limit() == old(self).depth_limit(),
                self.round_limit() == old(self).round_limit(),
                semantics::evaluate_all(
                    old(self)@,
                    nodes_model(args@),
                    0,
                    Seq::empty(),
                    depth as nat,
                    old(self).round_limit(),
                ) == semantics::evaluate_all(
                    self@,
                    nodes_model(args@),
                    i as int,
                    values(done@),
                    depth as nat,
                    old(self).round_limit(),
                ),
            decreases args.len() - i,
        {
            let ghost before = values(done@);
            match self.compute_expr(&args[i], depth) {
                Ok(value) => {
                    done.push(value);
                    assert(values(done@) =~= before.push(value@));
                },
                Err(error) => {
                    return Err(error);
                },
            }
            i += 1;
        }
        Ok(done)
    }

    /// The effect of a statement, with `depth` calls still allowed to nest.
    pub fn match_node(&mut self, node: &ASTNode, depth: usize) -> (outcome: Result<
        ControlFlow,
        RuntimeError,
    >)
        requires
            old(self).wf(),
        ensures
            final(self).wf(),
            final(self).depth_limit() == old(self).depth_limit(),
            final(self).round_limit() == old(self).round_limit(),
            semantics::execute(old(self)@, node@, depth as nat, old(self).round_limit()) == (
                final(self)@,
                flow_outcome(outcome),
            ),
            sound_flow(flow_outcome(outcome)),
        decreases depth, node, 2nat, 0nat,
    {
        proof {
            lemma_execute_is_sound(self@, node@, depth as nat, self.round_limit());
        }
        match node {
            ASTNode::VariableDeclaration { mutable, name, value } => {
                match self.compute_expr(value, depth) {
                    Ok(x) => match self.vm.declare_variable(name.clone(), x, *mutable) {
                        Ok(_) => Ok(ControlFlow::Normal),
                        Err(error) => Err(error),
                    },
                    Err(error) => Err(error),
                }
            },
            ASTNode::Assignment { name, kind, value } => {
                match self.compute_expr(value, depth) {
                    Ok(x) => match assign(&mut self.vm, name, *kind, x) {
                        Ok(_) => Ok(ControlFlow::Normal),
                        Err(error) => Err(error),
                    },
                    Err(error) => Err(error),
                }
            },
            ASTNode::FunctionDeclaration { name, params, body } => {
                match self.vm.declare_function(
                    name.clone(),
                    duplicate_names(params),
                    duplicate_nodes(body),
                ) {
                    Ok(_) => Ok(ControlFlow::Normal),
                    Err(error) => Err(error),
                }
            },
            ASTNode::Return { expr } => {
                match self.compute_expr(expr, depth) {
                    Ok(x) => Ok(ControlFlow::Returned(x)),
                    Err(error) => Err(error),
                }
            },
            ASTNode::IfStatement { condition, body, else_body, else_ifs } => {
                match self.compute_expr(condition, depth) {
                    Ok(x) => if self.vm.truthy_check(x) {
                        self.interpret_block(body, depth)
                    } else {
                        self.interpret_branches(node, 0, depth)
                    },
                    Err(error) => Err(error),
                }
            },
            ASTNode::WhileStatement { condition, body } => self.interpret_loop(node, depth),
            ASTNode::Break {  } => Ok(ControlFlow::BreakRequested),
            ASTNode::Continue {  } => Ok(ControlFlow::ContinueRequested),
            ASTNode::Output { expr } => {
                match self.compute_expr(expr, depth) {
                    Ok(x) => {
                        let ghost printed = values(self.output@);
                        self.output.push(x);
                        assert(values(self.output@) =~= printed.push(x@));
                        Ok(ControlFlow::Normal)
                    },
                    Err(error) => Err(error),
                }
            },
            _ => {
                match self.compute_expr(node, depth) {
                    Ok(_) => Ok(ControlFlow::Normal),
                    Err(error) => Err(error),
                }
            },
        }
    }

    /// Runs the statements in order, in the scope that is active, up to the
    /// first that fails or does not end normally.
    pub fn interpret_statements(&mut self, body: &Vec<ASTNode>, depth: usize) -> (outcome: Result<
        ControlFlow,
        RuntimeError,
    >)
        requires
            old(self).wf(),
        ensures
            final(self).wf(),
            final(self).depth_limit() == old(self).depth_limit(),
            final(self).round_limit() == old(self).round_limit(),
            semantics::run_statements(
                old(self)@,
                nodes_model(body@),
                0,
                depth as nat,
                old(self).round_limit(),
            ) == (final(self)@, flow_outcome(outcome)),
        decreases depth, body, 0nat, 0nat,
    {
        let mut i: usize = 0;
        while i < body.len()
            invariant
                i <= body.len(),
                self.wf(),
                self.depth_limit() == old(self).depth_limit(),
                self.round_limit() == old(self).round_limit(),
                semantics::run_statements(
                    old(self)@,
                    nodes_model(body@),
                    0,
                    depth as nat,
                    old(self).round_limit(),
                ) == semantics::run_statements(
                    self@,
                    nodes_model(body@),
                    i as int,
                    depth as nat,
                    old(self).round_limit(),
                ),
            decreases body.len() - i,
        {
            match self.match_node(&body[i], depth) {
                Ok(ControlFlow::Normal) => {},
                other => {
                    return other;
                },
            }
            i += 1;
        }
        Ok(ControlFlow::Normal)
    }

    /// Runs the statements in a scope of their own, which is closed again
    /// however the run ends.
    pub fn interpret_block(&mut self, body: &Vec<ASTNode>, depth: usize) -> (outcome: Result<
        ControlFlow,
        RuntimeError,
    >)
        requires
            old(self).wf(),
        ensures
            final(self).wf(),
            final(self).depth_limit() == old(self).depth_limit(),
            final(self).round_limit() == old(self).round_limit(),
            semantics::run_block(
                old(self)@,
                nodes_model(body@),
                depth as nat,
                old(self).round_limit(),
            ) == (final(self)@, flow_outcome(outcome)),
        decreases depth, body, 1nat, 0nat,
    {
        proof {
            lemma_scopes_are_sound(self.vm@, Frame::empty(None));
        }
        self.vm.push_scope();
        let outcome = self.interpret_statements(body, depth);
        proof {
            lemma_scopes_are_sound(self.vm@, Frame::empty(None));
        }
        self.vm.pop_scope();
        outcome
    }

    /// Runs what an `if` statement whose condition failed has left: the
    /// `elseif` branches from `from` on, then the `else` body.
    pub fn interpret_branches(&mut self, node: &ASTNode, from: usize, depth: usize) -> (outcome:
        Result<ControlFlow, RuntimeError>)
        requires
            old(self).wf(),
        ensures
            final(self).wf(),
            final(self).depth_limit() == old(self).depth_limit(),
            final(self).round_limit() == old(self).round_limit(),
            semantics::run_branches(
                old(self)@,
                node@,
                from as int,
                depth as nat,
                old(self).round_limit(),
            ) == (final(self)@, flow_outcome(outcome)),
        decreases depth, node, 0nat, (if let ASTNode::IfStatement { else_ifs, .. } = node {
            else_ifs.len() - from
        } else {
            0
        }),
    {
        match node {
            ASTNode::IfStatement { condition, body, else_body, else_ifs } => {
                if from >= else_ifs.len() {
                    assert(node@->IfStatement_else_ifs == branches_model(else_ifs@));
                    assert(semantics::run_branches(
                        old(self)@,
                        node@,
                        from as int,
                        depth as nat,
                        old(self).round_limit(),
                    ) == semantics::run_block(
                        old(self)@,
                        nodes_model(else_body@),
                        depth as nat,
                        old(self).round_limit(),
                    ));
                    self.interpret_block(else_body, depth)
                } else {
                    assert(branches_model(else_ifs@)[from as int] == (
                        (*else_ifs@[from as int].0)@,
                        nodes_model(else_ifs@[from as int].1@),
                    ));
                    match self.compute_expr(&else_ifs[from].0, depth) {
                        Ok(x) => if self.vm.truthy_check(x) {
                            self.interpret_block(&else_ifs[from].1, depth)
                        } else {
                            self.interpret_branches(node, from + 1, depth)
                        },
                        Err(error) => Err(error),
                    }
                }
            },
            _ => Ok(ControlFlow::Normal),
        }
    }

    /// Whether the condition of the `while` statement `node` holds.
    fn loop_condition(&mut self, node: &ASTNode, depth: usize) -> (outcome: Result<
        bool,
        RuntimeError,
    >)
        requires
            old(self).wf(),
            node is WhileStatement,
        ensures
            final(self).wf(),
            final(self).depth_limit() == old(self).depth_limit(),
            final(self).round_limit() == old(self).round_limit(),
            ({
                let (s, c) = semantics::evaluate(
                    old(self)@,
                    *node@->WhileStatement_condition,
                    depth as nat,
                    old(self).round_limit(),
                );
                &&& s == final(self)@
                &&& match outcome {
                    Ok(holds) => c is Ok && holds == c->Ok_0.truthy(),
                    Err(error) => c == Err::<Value, Failure>(error@),
                }
            }),
        decreases depth, node, 0nat, 0nat,
    {
        match node {
            ASTNode::WhileStatement { condition, body } => {
                match self.compute_expr(condition, depth) {
                    Ok(x) => Ok(self.vm.truthy_check(x)),
                    Err(error) => Err(error),
                }
            },
            _ => Ok(false),
        }
    }

    /// One round of the body of the `while` statement `node`.
    fn loop_body(&mut self, node: &ASTNode, depth: usize) -> (outcome: Result<
        ControlFlow,
        RuntimeError,
    >)
        requires
            old(self).wf(),
            node is WhileStatement,
        ensures
            final(self).wf(),
            final(self).depth_limit() == old(self).depth_limit(),
            final(self).round_limit() == old(self).round_limit(),
            semantics::run_block(
                old(self)@,
                node@->WhileStatement_body,
                depth as nat,
                old(self).round_limit(),
            ) == (final(self)@, flow_outcome(outcome)),
        decreases depth, node, 0nat, 0nat,
    {
        match node {
            ASTNode::WhileStatement { condition, body } => self.interpret_block(body, depth),
            _ => Ok(ControlFlow::Normal),
        }
    }

    /// Runs the `while` statement `node`.
    pub fn interpret_loop(&mut self, node: &ASTNode, depth: usize) -> (outcome: Result<
        ControlFlow,
        RuntimeError,
    >)
        requires
            old(self).wf(),
        ensures
            final(self).wf(),
            final(self).depth_limit() == old(self).depth_limit(),
            final(self).round_limit() == old(self).round_limit(),
            semantics::run_loop(
                old(self)@,
                node@,
                old(self).round_limit(),
                depth as nat,
                old(self).round_limit(),
            ) == (final(self)@, flow_outcome(outcome)),
        decreases depth, node, 0nat, 1nat,
    {
        if !is_while(node) {
            return Ok(ControlFlow::Normal);
        }
        let mut left: usize = self.rounds;
        loop
            invariant
                node is WhileStatement,
                self.wf(),
                self.depth_limit() == old(self).depth_limit(),
                self.round_limit() == old(self).round_limit(),
                semantics::run_loop(
                    old(self)@,
                    node@,
                    old(self).round_limit(),
                    depth as nat,
                    old(self).round_limit(),
                ) == semantics::run_loop(
                    self@,
                    node@,
                    left as nat,
                    depth as nat,
                    old(self).round_limit(),
                ),
            decreases left,
        {
            match self.loop_condition(node, depth) {
                Ok(holds) => {
                    if !holds {
                        return Ok(ControlFlow::Normal);
                    }
                    if left == 0 {
                        return Err(RuntimeError::IterationLimitExceeded);
                    }
                    match self.loop_body(node, depth) {
                        Ok(ControlFlow::Normal) => {},
                        Ok(ControlFlow::ContinueRequested) => {},
                        Ok(ControlFlow::BreakRequested) => {
                            return Ok(ControlFlow::Normal);
                        },
                        other => {
                            return other;
                        },
                    }
                    left -= 1;
                },
                Err(error) => {
                    return Err(error);
                },
            }
        }
    }

    /// Runs a group of top-level statements against the runtime. A `return`
    /// ends the group and hands back its value. A failure ends the group too:
    /// what ran before it stays done, the rest does not run, and the scopes
    /// and chains opened by the group are closed, so that the names that
    /// resolved before the group still do. No program fails with an address
    /// out of bounds.
    pub fn interpret(&mut self, ast: Vec<ASTNode>) -> (outcome: Result<
        Option<DataType>,
        RuntimeError,
    >)
        requires
            old(self).wf(),
        ensures
            final(self).wf(),
            final(self).depth_limit() == old(self).depth_limit(),
            final(self).round_limit() == old(self).round_limit(),
            semantics::run(
                old(self)@,
                nodes_model(ast@),
                old(self).depth_limit(),
                old(self).round_limit(),
            ) == (final(self)@, result_outcome(outcome)),
            match outcome {
                Err(RuntimeError::AddressOutOfBounds(_)) => false,
                _ => true,
            },
            keeps_chains(old(self)@.vm, final(self)@.vm),
    {
        let depth = self.depth;
        proof {
            lemma_run_is_sound(
                self@,
                nodes_model(ast@),
                self.depth_limit(),
                self.round_limit(),
            );
            lemma_run_keeps_chains(
                self@,
                nodes_model(ast@),
                self.depth_limit(),
                self.round_limit(),
            );
        }
        match self.interpret_statements(&ast, depth) {
            Ok(ControlFlow::Returned(value)) => Ok(Some(value)),
            Ok(_) => Ok(None),
            Err(error) => Err(error),
        }
    }
}

/// Whether the node is a `while` statement.
pub fn is_while(node: &ASTNode) -> (holds: bool)
    ensures
        holds == (node is WhileStatement),
        holds == (node@ is WhileStatement),
{
    match node {
        ASTNode::WhileStatement { .. } => true,
        _ => false,
    }
}

} // verus!
