//! How `break`, `continue` and `return` travel, and that a run is a
//! function of its start alone.

use super::semantics::{
    evaluate, execute, run, run_block, run_loop, run_statements, Flow, Session,
};
use crate::ast::parser::Node;
use crate::error::Failure;
use vstd::prelude::*;

verus! {

/// A statement that does not end normally ends the list it stands in: the
/// statements after it do not run, and the list ends as the statement did.
/// So a `break`, a `continue` or a `return` skips the rest of its block.
pub proof fn lemma_signal_skips_the_rest(
    s: Session,
    body: Seq<Node>,
    from: int,
    depth: nat,
    rounds: nat,
)
    requires
        0 <= from < body.len(),
        execute(s, body[from], depth, rounds).1 != Ok::<Flow, Failure>(Flow::Normal),
    ensures
        run_statements(s, body, from, depth, rounds) == execute(s, body[from], depth, rounds),
{
}

/// An `if` statement whose condition holds ends as its body ended: a
/// `break` or a `continue` inside it reaches the loop around it, a `return`
/// the call.
pub proof fn lemma_if_passes_signals_on(s: Session, n: Node, depth: nat, rounds: nat)
    requires
        n is IfStatement,
        evaluate(s, *n->IfStatement_condition, depth, rounds).1 is Ok,
        evaluate(s, *n->IfStatement_condition, depth, rounds).1->Ok_0.truthy(),
    ensures
        execute(s, n, depth, rounds) == run_block(
            evaluate(s, *n->IfStatement_condition, depth, rounds).0,
            n->IfStatement_body,
            depth,
            rounds,
        ),
{
}

/// A block ends as the statements in it ended.
pub proof fn lemma_block_passes_signals_on(s: Session, body: Seq<Node>, depth: nat, rounds: nat)
    ensures
        run_block(s, body, depth, rounds).1 == run_statements(
            s.with_vm(s.vm.push_scope()),
            body,
            0,
            depth,
            rounds,
        ).1,
{
}

/// A block without statements changes nothing: the scope it opens is closed
/// again. So an `if` none of whose conditions holds, and which has no `else`,
/// does no more than evaluate its conditions.
pub proof fn lemma_empty_block_changes_nothing(s: Session, depth: nat, rounds: nat)
    requires
        s.vm.scopes.len() >= 1,
    ensures
        run_block(s, Seq::empty(), depth, rounds) == (s, Ok::<Flow, Failure>(Flow::Normal)),
{
    let opened = s.vm.push_scope();
    let closed = opened.pop_scope();
    assert(closed.scopes =~= s.vm.scopes);
}

/// The state and the outcome of one round of the loop `n` started in `s`,
/// where the condition holds: those of the body, run after the condition.
pub open spec fn round(s: Session, n: Node, depth: nat, rounds: nat) -> (
    Session,
    Result<Flow, Failure>,
) {
    run_block(
        evaluate(s, *n->WhileStatement_condition, depth, rounds).0,
        n->WhileStatement_body,
        depth,
        rounds,
    )
}

/// Whether the condition of the loop `n` holds in `s`.
pub open spec fn goes_on(s: Session, n: Node, depth: nat, rounds: nat) -> bool {
    &&& n is WhileStatement
    &&& evaluate(s, *n->WhileStatement_condition, depth, rounds).1 is Ok
    &&& evaluate(s, *n->WhileStatement_condition, depth, rounds).1->Ok_0.truthy()
}

/// A `break` ends the loop exactly once: the round in which the body asks
/// for it is the last, the condition is not evaluated again, and the loop
/// itself ends normally, so that a loop around it goes on.
pub proof fn lemma_break_ends_the_loop(s: Session, n: Node, left: nat, depth: nat, rounds: nat)
    requires
        goes_on(s, n, depth, rounds),
        left > 0,
        round(s, n, depth, rounds).1 == Ok::<Flow, Failure>(Flow::BreakRequested),
    ensures
        run_loop(s, n, left, depth, rounds) == (
            round(s, n, depth, rounds).0,
            Ok::<Flow, Failure>(Flow::Normal),
        ),
{
}

/// A `continue` skips the rest of the round and nothing else: the loop goes
/// on exactly as it does after a round that ran to its end.
pub proof fn lemma_continue_ends_the_round(
    s: Session,
    n: Node,
    left: nat,
    depth: nat,
    rounds: nat,
)
    requires
        goes_on(s, n, depth, rounds),
        left > 0,
        round(s, n, depth, rounds).1 == Ok::<Flow, Failure>(Flow::ContinueRequested) || round(
            s,
            n,
            depth,
            rounds,
        ).1 == Ok::<Flow, Failure>(Flow::Normal),
    ensures
        run_loop(s, n, left, depth, rounds) == run_loop(
            round(s, n, depth, rounds).0,
            n,
            (left - 1) as nat,
            depth,
            rounds,
        ),
{
}

/// A `return` or a failure in the body ends the loop and passes through it.
pub proof fn lemma_return_passes_through_the_loop(
    s: Session,
    n: Node,
    left: nat,
    depth: nat,
    rounds: nat,
)
    requires
        goes_on(s, n, depth, rounds),
        left > 0,
        round(s, n, depth, rounds).1 is Err || round(s, n, depth, rounds).1->Ok_0 is Returned,
    ensures
        run_loop(s, n, left, depth, rounds) == round(s, n, depth, rounds),
{
}

/// A run is a function of the state it starts in and of the program, and of
/// nothing else: nothing outlives the construction of a runtime. Two
/// runtimes in the same state, and so any two fresh ones, end the same
/// program in the same state, with the same output and the same result.
pub proof fn lemma_run_is_deterministic(
    one: Session,
    other: Session,
    program: Seq<Node>,
    depth: nat,
    rounds: nat,
)
    requires
        one == other,
    ensures
        run(one, program, depth, rounds) == run(other, program, depth, rounds),
{
}

} // verus!
