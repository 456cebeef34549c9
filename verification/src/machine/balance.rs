//! The two stacks stay in step: every task finds its operands.
//!
//! Each task takes a fixed number of values off and leaves a fixed number
//! behind. A state is balanced if, taken from the top, every task that is
//! left finds the values that it needs, and the last one leaves exactly one
//! value, the result of the run. A run begins balanced and stays so, so the
//! machine never has to make up an operand.

use vstd::prelude::*;
use crate::expr::SpecExpr;
use crate::function::SpecFunction;
use crate::literal::SpecLiteral;
use crate::machine::{SpecInterpreter, SpecSignal, SpecTask, boundary, evaluations, plan};
use crate::stmt::SpecStmt;

verus! {

/// The height of the values at which the call that is under way began: the
/// height that the topmost boundary holds, or 0 outside any call.
pub open spec fn floor(tasks: Seq<SpecTask>) -> int
    decreases tasks.len(),
{
    if tasks.len() == 0 {
        0
    } else {
        match tasks.last() {
            SpecTask::Boundary(_, height) => height as int,
            _ => floor(tasks.drop_last()),
        }
    }
}

/// How many values a task takes for operands.
pub open spec fn operands(task: SpecTask) -> int {
    match task {
        SpecTask::Execute(_) | SpecTask::Evaluate(_) | SpecTask::Leave(_) | SpecTask::Boundary(
            _,
            _,
        ) => 0,
        SpecTask::Binary(_) => 2,
        SpecTask::Invoke(_, count) => count as int + 1,
        _ => 1,
    }
}

/// The height of the values once a task that found `height` values is done
/// with all that it leads to.
pub open spec fn after(task: SpecTask, height: int) -> int {
    match task {
        SpecTask::Execute(_) | SpecTask::Evaluate(_) | SpecTask::Leave(_) | SpecTask::Boundary(
            _,
            _,
        ) => height + 1,
        SpecTask::Discard | SpecTask::Binary(_) => height - 1,
        SpecTask::Invoke(_, count) => height - count,
        _ => height,
    }
}

/// Whether a task that stands on top of `rest` can be carried out with
/// `height` values: its operands are there; where it may start a statement
/// or an expression, the values of the call under way are all below; and a
/// boundary finds the height that it was set up with.
pub open spec fn ready(task: SpecTask, rest: Seq<SpecTask>, height: int) -> bool {
    &&& height >= operands(task)
    &&& match task {
        SpecTask::Execute(_) | SpecTask::Evaluate(_) => floor(rest) <= height,
        SpecTask::Branch(_, _) | SpecTask::Loop(_, _) | SpecTask::Return | SpecTask::Logical(
            _,
            _,
        ) => floor(rest) <= height - 1,
        SpecTask::Boundary(_, set) => height == set,
        _ => true,
    }
}

/// Whether the tasks, carried out from the top with `height` values to
/// begin with, each find what they need and leave one value at the end.
pub open spec fn settles(tasks: Seq<SpecTask>, height: int) -> bool
    decreases tasks.len(),
{
    if tasks.len() == 0 {
        height == 1
    } else {
        ready(tasks.last(), tasks.drop_last(), height) && settles(
            tasks.drop_last(),
            after(tasks.last(), height),
        )
    }
}

/// Whether the tasks of a state settle with its values. A state that waits
/// counts the value that it waits for.
pub open spec fn balanced(state: SpecInterpreter) -> bool {
    settles(
        state.tasks,
        state.values.len() + if state.waiting {
            1int
        } else {
            0int
        },
    )
}

/// What it takes for one more task to settle.
proof fn lemma_push(rest: Seq<SpecTask>, task: SpecTask, height: int)
    ensures
        settles(rest.push(task), height) == (ready(task, rest, height) && settles(
            rest,
            after(task, height),
        )),
        floor(rest.push(task)) == match task {
            SpecTask::Boundary(_, set) => set as int,
            _ => floor(rest),
        },
{
    assert(rest.push(task).drop_last() =~= rest);
    assert(rest.push(task).last() == task);
}

/// Statements scheduled in a row settle where the tasks below them do.
proof fn lemma_plan(rest: Seq<SpecTask>, statements: Seq<SpecStmt>, height: int)
    requires
        0 <= height,
        floor(rest) <= height,
        settles(rest, height),
    ensures
        settles(rest + plan(statements), height),
        floor(rest + plan(statements)) == floor(rest),
    decreases statements.len(),
{
    if statements.len() == 0 {
        assert(rest + plan(statements) =~= rest);
    } else {
        let last = statements.last();
        let first = rest.push(SpecTask::Discard);
        let second = first.push(SpecTask::Execute(last));
        lemma_push(rest, SpecTask::Discard, height + 1);
        lemma_push(first, SpecTask::Execute(last), height);
        lemma_plan(second, statements.drop_last(), height);
        assert(rest + plan(statements) =~= second + plan(statements.drop_last()));
    }
}

/// Expressions scheduled in a row settle where the tasks below them settle
/// with one more value for each.
proof fn lemma_evaluations(rest: Seq<SpecTask>, exprs: Seq<SpecExpr>, height: int)
    requires
        0 <= height,
        floor(rest) <= height,
        settles(rest, height + exprs.len()),
    ensures
        settles(rest + evaluations(exprs), height),
        floor(rest + evaluations(exprs)) == floor(rest),
    decreases exprs.len(),
{
    if exprs.len() == 0 {
        assert(rest + evaluations(exprs) =~= rest);
    } else {
        let last = exprs.last();
        let first = rest.push(SpecTask::Evaluate(last));
        lemma_push(rest, SpecTask::Evaluate(last), height + exprs.len() - 1);
        assert(exprs.drop_last().len() == exprs.len() - 1);
        lemma_evaluations(first, exprs.drop_last(), height);
        assert(rest + evaluations(exprs) =~= first + evaluations(exprs.drop_last()));
    }
}

/// Where the tasks settle and a boundary is among them, the tasks below the
/// topmost boundary settle with the height that it holds and one value
/// more, and that height is the floor.
proof fn lemma_unwind(tasks: Seq<SpecTask>, height: int)
    requires
        settles(tasks, height),
        boundary(tasks) >= 0,
    ensures
        0 <= boundary(tasks) < tasks.len(),
        tasks[boundary(tasks)] is Boundary,
        floor(tasks) == tasks[boundary(tasks)]->Boundary_1,
        settles(tasks.take(boundary(tasks)), tasks[boundary(tasks)]->Boundary_1 as int + 1),
    decreases tasks.len(),
{
    if tasks.len() > 0 {
        let rest = tasks.drop_last();
        if tasks.last() is Boundary {
            assert(tasks.take(tasks.len() - 1) =~= rest);
        } else {
            lemma_unwind(rest, after(tasks.last(), height));
            assert(tasks.take(boundary(rest)) =~= rest.take(boundary(rest)));
        }
    }
}

/// Where no boundary is among the tasks, the search for one says so.
proof fn lemma_no_boundary(tasks: Seq<SpecTask>)
    ensures
        boundary(tasks) < tasks.len(),
        boundary(tasks) >= 0 ==> tasks[boundary(tasks)] is Boundary,
    decreases tasks.len(),
{
    if tasks.len() > 0 && !(tasks.last() is Boundary) {
        lemma_no_boundary(tasks.drop_last());
    }
}

/// A run begins balanced.
pub proof fn lemma_begin_balanced(state: SpecInterpreter, task: SpecTask)
    requires
        task is Execute || task is Evaluate,
    ensures
        balanced(state.begin(task)),
{
    let tasks = state.begin(task).tasks;
    lemma_push(Seq::empty(), task, 0);
    assert(tasks =~= Seq::<SpecTask>::empty().push(task));
    assert(settles(Seq::<SpecTask>::empty(), 1));
}

/// The answer of the host keeps a waiting state balanced.
pub proof fn lemma_resume_balanced(state: SpecInterpreter, answer: SpecLiteral)
    requires
        balanced(state),
    ensures
        balanced(state.resume(answer)),
{
}

/// In a balanced state the next task finds its operands, and a state
/// without a task holds exactly one value, the result.
pub proof fn lemma_operands_present(state: SpecInterpreter)
    requires
        balanced(state),
        !state.waiting,
    ensures
        state.tasks.len() == 0 ==> state.values.len() == 1,
        state.tasks.len() > 0 ==> state.values.len() >= operands(state.tasks.last()),
{
}

/// Starting a statement keeps the state balanced.
proof fn lemma_execute(state: SpecInterpreter, statement: SpecStmt)
    requires
        !state.waiting,
        floor(state.tasks) <= state.values.len(),
        settles(state.tasks, state.values.len() as int + 1),
    ensures
        balanced(state.execute(statement).state),
{
    reveal(SpecInterpreter::execute);
    let rest = state.tasks;
    let height = state.values.len() as int;
    match statement {
        SpecStmt::Print(value) => {
            lemma_push(rest, SpecTask::Print, height + 1);
            lemma_push(rest.push(SpecTask::Print), SpecTask::Evaluate(value), height);
        },
        SpecStmt::Expression(value) => {
            lemma_push(rest, SpecTask::Evaluate(value), height);
        },
        SpecStmt::Var(name, initializer) => {
            match initializer {
                Some(value) => {
                    lemma_push(rest, SpecTask::Define(name), height + 1);
                    lemma_push(rest.push(SpecTask::Define(name)), SpecTask::Evaluate(value), height);
                },
                None => {},
            }
        },
        SpecStmt::Block(statements) => {
            lemma_push(rest, SpecTask::Leave(state.scope), height);
            lemma_plan(rest.push(SpecTask::Leave(state.scope)), statements, height);
        },
        SpecStmt::If(test, first, second) => {
            let branch = SpecTask::Branch(
                *first,
                match second {
                    Some(other) => Some(*other),
                    None => None,
                },
            );
            lemma_push(rest, branch, height + 1);
            lemma_push(rest.push(branch), SpecTask::Evaluate(test), height);
        },
        SpecStmt::While(test, body) => {
            lemma_push(rest, SpecTask::Loop(test, *body), height + 1);
            lemma_push(rest.push(SpecTask::Loop(test, *body)), SpecTask::Evaluate(test), height);
        },
        SpecStmt::Function(_, _, _) => {},
        SpecStmt::Return(_, value) => {
            lemma_push(rest, SpecTask::Return, height + 1);
            match value {
                Some(found) => {
                    lemma_push(rest.push(SpecTask::Return), SpecTask::Evaluate(found), height);
                },
                None => {},
            }
        },
    }
}

/// Starting an expression keeps the state balanced, unless the run ends.
proof fn lemma_evaluate(state: SpecInterpreter, expr: SpecExpr)
    requires
        !state.waiting,
        floor(state.tasks) <= state.values.len(),
        settles(state.tasks, state.values.len() as int + 1),
    ensures
        state.evaluate(expr).signal is Done || balanced(state.evaluate(expr).state),
{
    reveal(SpecInterpreter::evaluate);
    let rest = state.tasks;
    let height = state.values.len() as int;
    match expr {
        SpecExpr::Literal(_) => {},
        SpecExpr::Grouping(inner) => {
            lemma_push(rest, SpecTask::Evaluate(*inner), height);
        },
        SpecExpr::Unary(operator, operand) => {
            lemma_push(rest, SpecTask::Unary(operator), height + 1);
            lemma_push(rest.push(SpecTask::Unary(operator)), SpecTask::Evaluate(*operand), height);
        },
        SpecExpr::Binary(left, operator, right) => {
            let first = rest.push(SpecTask::Binary(operator));
            let second = first.push(SpecTask::Evaluate(*right));
            lemma_push(rest, SpecTask::Binary(operator), height + 2);
            lemma_push(first, SpecTask::Evaluate(*right), height + 1);
            lemma_push(second, SpecTask::Evaluate(*left), height);
        },
        SpecExpr::Var(_) => {},
        SpecExpr::Assign(name, value) => {
            lemma_push(rest, SpecTask::Assign(name), height + 1);
            lemma_push(rest.push(SpecTask::Assign(name)), SpecTask::Evaluate(*value), height);
        },
        SpecExpr::Logical(left, operator, right) => {
            let first = rest.push(SpecTask::Logical(operator, *right));
            lemma_push(rest, SpecTask::Logical(operator, *right), height + 1);
            lemma_push(first, SpecTask::Evaluate(*left), height);
        },
        SpecExpr::Call(callee, paren, arguments) => {
            let first = rest.push(SpecTask::Invoke(paren, arguments.len()));
            lemma_push(rest, SpecTask::Invoke(paren, arguments.len()), height + 1 + arguments.len());
            lemma_evaluations(first, arguments, height + 1);
            let second = first + evaluations(arguments);
            lemma_push(second, SpecTask::Evaluate(*callee), height);
            assert(second.push(SpecTask::Evaluate(*callee)) =~= first + evaluations(arguments)
                + seq![SpecTask::Evaluate(*callee)]);
        },
    }
}

/// Taking a branch or going round a loop keeps the state balanced.
proof fn lemma_control(state: SpecInterpreter)
    requires
        !state.waiting,
        state.values.len() >= 1,
        floor(state.tasks) <= state.values.len() - 1,
        settles(state.tasks, state.values.len() as int),
    ensures
        forall|first: SpecStmt, second: Option<SpecStmt>| balanced(#[trigger] state.branch(first, second).state),
        forall|test: SpecExpr, body: SpecStmt| balanced(#[trigger] state.repeat(test, body).state),
        forall|operator: crate::token::SpecToken, right: SpecExpr| balanced(#[trigger] state.logical(operator, right).state),
{
    reveal(SpecInterpreter::branch);
    reveal(SpecInterpreter::repeat);
    reveal(SpecInterpreter::logical);
    let rest = state.tasks;
    let height = state.values.len() as int;
    assert forall|first: SpecStmt, second: Option<SpecStmt>| balanced(#[trigger] state.branch(first, second).state) by {
        lemma_push(rest, SpecTask::Execute(first), height - 1);
        match second {
            Some(other) => {
                lemma_push(rest, SpecTask::Execute(other), height - 1);
            },
            None => {},
        }
    }
    assert forall|test: SpecExpr, body: SpecStmt| balanced(#[trigger] state.repeat(test, body).state) by {
        let one = rest.push(SpecTask::Loop(test, body));
        let two = one.push(SpecTask::Evaluate(test));
        let three = two.push(SpecTask::Discard);
        lemma_push(rest, SpecTask::Loop(test, body), height);
        lemma_push(one, SpecTask::Evaluate(test), height - 1);
        lemma_push(two, SpecTask::Discard, height);
        lemma_push(three, SpecTask::Execute(body), height - 1);
    }
    assert forall|operator: crate::token::SpecToken, right: SpecExpr| balanced(#[trigger] state.logical(operator, right).state) by {
        lemma_push(rest, SpecTask::Evaluate(right), height - 1);
    }
}

/// A return keeps the state balanced, unless it ends the run.
proof fn lemma_return(state: SpecInterpreter)
    requires
        !state.waiting,
        state.values.len() >= 1,
        floor(state.tasks) <= state.values.len() - 1,
        settles(state.tasks, state.values.len() as int),
    ensures
        state.unwind().signal is Done || balanced(state.unwind().state),
{
    reveal(SpecInterpreter::unwind);
    lemma_no_boundary(state.tasks);
    if boundary(state.tasks) >= 0 {
        lemma_unwind(state.tasks, state.values.len() as int);
    }
}

/// A call keeps the state balanced, unless it ends the run.
proof fn lemma_invoke(state: SpecInterpreter, paren: crate::token::SpecToken, count: nat)
    requires
        !state.waiting,
        state.values.len() >= count + 1,
        settles(state.tasks, state.values.len() - count),
    ensures
        state.invoke(paren, count).signal is Done || balanced(state.invoke(paren, count).state),
{
    reveal(SpecInterpreter::invoke);
    reveal(SpecInterpreter::apply);
    reveal(SpecInterpreter::call);
    let height = state.values.len() as int;
    let base = SpecInterpreter { values: state.values.take(height - count - 1), ..state };
    let callee = state.values[height - count - 1];
    let arguments = state.values.subrange(height - count, height);
    match callee {
        SpecLiteral::Function(function) => {
            match function {
                SpecFunction::Lox { body, .. } => {
                    let set = SpecTask::Boundary(state.scope, base.values.len());
                    lemma_push(state.tasks, set, height - count - 1);
                    lemma_plan(state.tasks.push(set), body, height - count - 1);
                },
                SpecFunction::Native { .. } => {},
            }
        },
        _ => {},
    }
}

/// The operators keep the state balanced, unless the run ends.
proof fn lemma_operators(state: SpecInterpreter, operator: crate::token::SpecToken)
    requires
        !state.waiting,
    ensures
        state.values.len() >= 1 && settles(state.tasks, state.values.len() as int) ==> (
        state.unary(operator).signal is Done || balanced(state.unary(operator).state)) && (
        state.assign(operator).signal is Done || balanced(state.assign(operator).state)),
        state.values.len() >= 2 && settles(state.tasks, state.values.len() - 1) ==> (
        state.binary(operator).signal is Done || balanced(state.binary(operator).state)),
{
    reveal(SpecInterpreter::unary);
    reveal(SpecInterpreter::assign);
    reveal(SpecInterpreter::binary);
}

/// A step keeps a balanced state balanced, unless it ends the run. So from
/// the beginning of a run to its end no task lacks an operand.
pub proof fn lemma_step_balanced(state: SpecInterpreter)
    requires
        balanced(state),
    ensures
        state.step().signal is Done || balanced(state.step().state),
{
    if !state.waiting && state.tasks.len() > 0 {
        let next = SpecInterpreter { tasks: state.tasks.drop_last(), ..state };
        match state.tasks.last() {
            SpecTask::Execute(statement) => {
                lemma_execute(next, statement);
            },
            SpecTask::Evaluate(expr) => {
                lemma_evaluate(next, expr);
            },
            SpecTask::Branch(_, _) | SpecTask::Loop(_, _) | SpecTask::Logical(_, _) => {
                lemma_control(next);
            },
            SpecTask::Return => {
                lemma_return(next);
            },
            SpecTask::Invoke(paren, count) => {
                lemma_invoke(next, paren, count);
            },
            SpecTask::Assign(operator) => {
                lemma_operators(next, operator);
            },
            SpecTask::Unary(operator) => {
                lemma_operators(next, operator);
            },
            SpecTask::Binary(operator) => {
                lemma_operators(next, operator);
            },
            _ => {},
        }
    }
}

/// A run keeps a balanced state balanced, unless it ends.
pub proof fn lemma_run_balanced(state: SpecInterpreter, budget: nat)
    requires
        balanced(state),
    ensures
        state.run(budget).signal is Done || balanced(state.run(budget).state),
    decreases budget,
{
    if budget > 0 {
        lemma_step_balanced(state);
        if state.step().signal is Continue {
            lemma_run_balanced(state.step().state, (budget - 1) as nat);
        }
    }
}

} // verus!
