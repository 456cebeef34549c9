//! The interpreter: the machine of [`crate::machine`], executable.
//!
//! The host starts a run with [`Interpreter::execute`] or
//! [`Interpreter::evaluate`] and then calls [`Interpreter::run`] until it
//! returns [`Signal::Done`]. In between the interpreter may ask for a value
//! to be printed, for arithmetic on two numbers or for a call of a host
//! function; the host hands the answer to [`Interpreter::resume`].

use vstd::prelude::*;
use crate::environment::Environment;
use crate::errors::{DetailedErrorType, LoxError, SpecError};
use crate::expr::{Expr, SpecExpr, exprs_model, exprs_well_formed};
use crate::function::{Function, SpecFunction};
use crate::literal::{Literal, SpecLiteral, copy_values, values_model, values_well_formed};
use crate::machine::{
    Arithmetic,
    Outcome,
    SpecInterpreter,
    SpecSignal,
    SpecTask,
    tasks_well_formed,
};
use crate::machine;
use crate::machine::balance::{
    balanced,
    lemma_begin_balanced,
    lemma_resume_balanced,
    lemma_run_balanced,
    lemma_step_balanced,
};
use crate::number;
use crate::stmt::{SpecStmt, Stmt, all_well_formed, copy_stmts, stmts_model};
use crate::token::{SpecToken, Token, TokenType, tokens_model};

verus! {

/// A unit of work that is left to do.
#[derive(Debug)]
pub enum Task {
    Execute(Stmt),
    Evaluate(Expr),
    Discard,
    Print,
    Define(Token),
    Branch(Stmt, Option<Stmt>),
    Loop(Expr, Stmt),
    Leave(usize),
    Return,
    Boundary(usize, usize),
    Assign(Token),
    Unary(Token),
    Binary(Token),
    Logical(Token, Expr),
    Invoke(Token, usize),
}

impl View for Task {
    type V = SpecTask;

    open spec fn view(&self) -> SpecTask {
        match self {
            Task::Execute(statement) => SpecTask::Execute(statement@),
            Task::Evaluate(expr) => SpecTask::Evaluate(expr@),
            Task::Discard => SpecTask::Discard,
            Task::Print => SpecTask::Print,
            Task::Define(name) => SpecTask::Define(name@),
            Task::Branch(first, second) => SpecTask::Branch(
                first@,
                match second {
                    Some(other) => Some(other@),
                    None => None,
                },
            ),
            Task::Loop(test, body) => SpecTask::Loop(test@, body@),
            Task::Leave(scope) => SpecTask::Leave(*scope),
            Task::Return => SpecTask::Return,
            Task::Boundary(scope, height) => SpecTask::Boundary(*scope, *height as nat),
            Task::Assign(name) => SpecTask::Assign(name@),
            Task::Unary(operator) => SpecTask::Unary(operator@),
            Task::Binary(operator) => SpecTask::Binary(operator@),
            Task::Logical(operator, right) => SpecTask::Logical(operator@, right@),
            Task::Invoke(paren, count) => SpecTask::Invoke(paren@, *count as nat),
        }
    }
}

/// The models of a vector of tasks, in order.
pub open spec fn tasks_model(tasks: Vec<Task>) -> Seq<SpecTask> {
    Seq::new(tasks@.len(), |i: int| tasks[i]@)
}

/// What a step tells the host.
#[derive(Debug)]
pub enum Signal {
    /// There is more to do: step again.
    Continue,
    /// The interpreter waits for an answer to its last request.
    Waiting,
    /// The value is to be printed; then step again.
    Print(Literal),
    /// The two numbers are to be added, subtracted, multiplied or divided as
    /// doubles, and the result handed to [`Interpreter::resume`].
    Arithmetic(Arithmetic, u64, u64),
    /// The host function of this name is to be called with the arguments,
    /// and the result handed to [`Interpreter::resume`].
    Native(String, Vec<Literal>),
    /// The run is over.
    Done(Result<Literal, LoxError>),
}

impl View for Signal {
    type V = SpecSignal;

    open spec fn view(&self) -> SpecSignal {
        match self {
            Signal::Continue => SpecSignal::Continue,
            Signal::Waiting => SpecSignal::Waiting,
            Signal::Print(value) => SpecSignal::Print(value@),
            Signal::Arithmetic(operation, left, right) => SpecSignal::Arithmetic(
                *operation,
                *left,
                *right,
            ),
            Signal::Native(name, arguments) => SpecSignal::Native(name@, values_model(*arguments)),
            Signal::Done(Ok(value)) => SpecSignal::Done(Ok(value@)),
            Signal::Done(Err(error)) => SpecSignal::Done(Err(error@)),
        }
    }
}

/// The interpreter.
pub struct Interpreter {
    environment: Environment,
    scope: usize,
    tasks: Vec<Task>,
    values: Vec<Literal>,
    waiting: bool,
}

impl View for Interpreter {
    type V = SpecInterpreter;

    closed spec fn view(&self) -> SpecInterpreter {
        SpecInterpreter {
            scopes: self.environment@,
            scope: self.scope,
            tasks: tasks_model(self.tasks),
            values: values_model(self.values),
            waiting: self.waiting,
        }
    }
}

/// The outcome that a state and a signal make.
pub open spec fn outcome(state: SpecInterpreter, signal: Signal) -> Outcome {
    Outcome { state, signal: signal@ }
}

impl Interpreter {
    /// The scopes are sound and the state is well formed.
    pub closed spec fn well_formed(&self) -> bool {
        self.environment.well_formed() && self@.well_formed()
    }

    /// What holds of the model of a well-formed interpreter.
    pub proof fn lemma_well_formed(&self)
        requires
            self.well_formed(),
        ensures
            self@.well_formed(),
    {
    }

    /// Pushes a value.
    fn push(&mut self, value: Literal)
        requires
            old(self).well_formed(),
            value@.well_formed(),
        ensures
            final(self).well_formed(),
            final(self)@ == old(self)@.push(value@),
    {
        self.values.push(value);
        proof {
            let before = values_model(old(self).values);
            let after = values_model(self.values);
            assert(after =~= before.push(value@));
            assert forall|i: int| 0 <= i < after.len() implies (#[trigger] after[i]).well_formed() by {
                if i < before.len() {
                    assert(before[i].well_formed());
                }
            }
        }
    }

    /// Takes the topmost value off; `nil` where there is none.
    fn pop(&mut self) -> (r: Literal)
        requires
            old(self).well_formed(),
        ensures
            final(self).well_formed(),
            final(self)@ == old(self)@.popped(),
            r@ == old(self)@.top(),
            r@.well_formed(),
    {
        let ghost before = values_model(self.values);
        match self.values.pop() {
            Some(value) => {
                proof {
                    let after = values_model(self.values);
                    assert(after =~= before.drop_last());
                    assert(value@ == before.last());
                    assert(before[before.len() - 1].well_formed());
                    assert forall|i: int| 0 <= i < after.len() implies (
                    #[trigger] after[i]).well_formed() by {
                        assert(before[i].well_formed());
                    }
                }
                value
            },
            None => {
                assert(values_model(self.values) =~= before);
                Literal::plain(Literal::Nil)
            },
        }
    }

    /// A copy of the topmost value; `nil` where there is none.
    fn top(&self) -> (r: Literal)
        requires
            self.well_formed(),
        ensures
            r@ == self@.top(),
            r@.well_formed(),
    {
        let count = self.values.len();
        if count > 0 {
            let value = self.values[count - 1].copy();
            proof {
                let all = values_model(self.values);
                assert(value@ == all.last());
                assert(all[all.len() - 1].well_formed());
            }
            value
        } else {
            Literal::plain(Literal::Nil)
        }
    }

    /// Puts a task on top of the work that is left.
    fn schedule(&mut self, task: Task)
        requires
            old(self).well_formed(),
            task@.well_formed(old(self)@.scopes.len()),
        ensures
            final(self).well_formed(),
            final(self)@ == old(self)@.schedule(task@),
    {
        self.tasks.push(task);
        proof {
            let before = tasks_model(old(self).tasks);
            let after = tasks_model(self.tasks);
            let count = self@.scopes.len();
            assert(after =~= before.push(task@));
            assert forall|i: int| 0 <= i < after.len() implies (#[trigger] after[i]).well_formed(
                count,
            ) by {
                if i < before.len() {
                    assert(before[i].well_formed(count));
                }
            }
        }
    }

    /// Drops all work and all values and goes back to the global scope.
    fn come_to_rest(&mut self)
        requires
            old(self).well_formed(),
        ensures
            final(self).well_formed(),
            final(self)@ == old(self)@.rest(),
    {
        self.tasks.clear();
        self.values.clear();
        self.scope = 0;
        self.waiting = false;
        proof {
            self.environment.lemma_well_formed();
            assert(tasks_model(self.tasks) =~= Seq::empty());
            assert(values_model(self.values) =~= Seq::empty());
        }
    }

    /// Ends the run with an error.
    fn fail(&mut self, error: LoxError) -> (r: Signal)
        requires
            old(self).well_formed(),
        ensures
            final(self).well_formed(),
            outcome(final(self)@, r) == old(self)@.fail(error@),
    {
        self.come_to_rest();
        Signal::Done(Err(error))
    }

    /// Ends the run with a value.
    fn finish(&mut self, value: Literal) -> (r: Signal)
        requires
            old(self).well_formed(),
        ensures
            final(self).well_formed(),
            outcome(final(self)@, r) == old(self)@.finish(value@),
    {
        self.come_to_rest();
        Signal::Done(Ok(value))
    }

    /// Binds a name in the current scope.
    fn define_here(&mut self, name: &Token, value: Literal)
        requires
            old(self).well_formed(),
            value@.well_formed(),
        ensures
            final(self).well_formed(),
            final(self)@ == old(self)@.with_scopes(
                crate::environment::defined(
                    old(self)@.scopes,
                    old(self)@.scope as int,
                    name@.lexeme,
                    value@,
                ),
            ),
    {
        proof {
            machine::lemma_defined_well_formed(
                self@.scopes,
                self@.scope as int,
                name@.lexeme,
                value@,
            );
        }
        self.environment.define(self.scope, name.lexeme.as_str(), value);
        proof {
            self.environment.lemma_well_formed();
        }
    }

    /// Opens a scope inside `parent` and makes it the current one.
    fn enter(&mut self, parent: usize)
        requires
            old(self).well_formed(),
            parent < old(self)@.scopes.len(),
        ensures
            final(self).well_formed(),
            final(self)@ == (SpecInterpreter {
                scopes: crate::environment::enclosed(old(self)@.scopes, parent),
                scope: old(self)@.scopes.len() as usize,
                ..old(self)@
            }),
            final(self)@.scope == old(self)@.scopes.len(),
    {
        proof {
            machine::lemma_enclosed_well_formed(self@.scopes, parent);
            machine::lemma_tasks_among_more(
                self@.tasks,
                self@.scopes.len(),
                self@.scopes.len() + 1,
            );
        }
        self.scope = self.environment.enclose(parent);
        proof {
            self.environment.lemma_well_formed();
        }
    }

    /// Schedules statements to run in order, the result of each dropped.
    fn schedule_all(&mut self, statements: Vec<Stmt>)
        requires
            old(self).well_formed(),
            all_well_formed(stmts_model(statements)),
        ensures
            final(self).well_formed(),
            final(self)@ == (SpecInterpreter {
                tasks: old(self)@.tasks + machine::plan(stmts_model(statements)),
                ..old(self)@
            }),
    {
        let mut rest = statements;
        let ghost target = self@.tasks + machine::plan(stmts_model(statements));
        while rest.len() > 0
            invariant
                self.well_formed(),
                all_well_formed(stmts_model(rest)),
                self@ == (SpecInterpreter { tasks: self@.tasks, ..old(self)@ }),
                self@.tasks + machine::plan(stmts_model(rest)) == target,
            decreases rest.len(),
        {
            let ghost before = stmts_model(rest);
            let ghost tasks = self@.tasks;
            let statement = rest.pop().unwrap();
            proof {
                assert(stmts_model(rest) =~= before.drop_last());
                assert(statement@ == before.last());
                assert(before[before.len() - 1].well_formed());
                assert forall|i: int| 0 <= i < stmts_model(rest).len() implies (
                #[trigger] stmts_model(rest)[i]).well_formed() by {
                    assert(before[i].well_formed());
                }
            }
            self.schedule(Task::Discard);
            self.schedule(Task::Execute(statement));
            assert(self@.tasks + machine::plan(stmts_model(rest)) =~= tasks + machine::plan(before));
        }
        assert(self@.tasks + machine::plan(stmts_model(rest)) =~= self@.tasks);
    }

    /// Schedules expressions to be evaluated in order.
    fn schedule_evaluations(&mut self, exprs: Vec<Expr>)
        requires
            old(self).well_formed(),
            exprs_well_formed(exprs_model(exprs)),
        ensures
            final(self).well_formed(),
            final(self)@ == (SpecInterpreter {
                tasks: old(self)@.tasks + machine::evaluations(exprs_model(exprs)),
                ..old(self)@
            }),
    {
        let mut rest = exprs;
        let ghost target = self@.tasks + machine::evaluations(exprs_model(exprs));
        while rest.len() > 0
            invariant
                self.well_formed(),
                exprs_well_formed(exprs_model(rest)),
                self@ == (SpecInterpreter { tasks: self@.tasks, ..old(self)@ }),
                self@.tasks + machine::evaluations(exprs_model(rest)) == target,
            decreases rest.len(),
        {
            let ghost before = exprs_model(rest);
            let ghost tasks = self@.tasks;
            let expr = rest.pop().unwrap();
            proof {
                assert(exprs_model(rest) =~= before.drop_last());
                assert(expr@ == before.last());
                assert(before[before.len() - 1].well_formed());
                assert forall|i: int| 0 <= i < exprs_model(rest).len() implies (
                #[trigger] exprs_model(rest)[i]).well_formed() by {
                    assert(before[i].well_formed());
                }
            }
            self.schedule(Task::Evaluate(expr));
            assert(self@.tasks + machine::evaluations(exprs_model(rest)) =~= tasks
                + machine::evaluations(before));
        }
        assert(self@.tasks + machine::evaluations(exprs_model(rest)) =~= self@.tasks);
    }

    /// Starts the execution of a statement.
    fn start_statement(&mut self, statement: Stmt) -> (r: Signal)
        requires
            old(self).well_formed(),
            statement@.well_formed(),
        ensures
            final(self).well_formed(),
            outcome(final(self)@, r) == old(self)@.execute(statement@),
    {
        proof {
            reveal(SpecInterpreter::execute);
        }
        match statement {
            Stmt::Print(value) => {
                self.schedule(Task::Print);
                self.schedule(Task::Evaluate(value));
            },
            Stmt::Expression(value) => {
                self.schedule(Task::Evaluate(value));
            },
            Stmt::Var(name, initializer) => match initializer {
                Some(value) => {
                    self.schedule(Task::Define(name));
                    self.schedule(Task::Evaluate(value));
                },
                None => {
                    self.define_here(&name, Literal::plain(Literal::Nil));
                    self.push(Literal::plain(Literal::Nil));
                },
            },
            Stmt::Block(statements) => {
                let outer = self.scope;
                self.enter(outer);
                self.schedule(Task::Leave(outer));
                self.schedule_all(statements);
            },
            Stmt::If(test, first, second) => {
                let other = match second {
                    Some(branch) => Some(*branch),
                    None => None,
                };
                self.schedule(Task::Branch(*first, other));
                self.schedule(Task::Evaluate(test));
            },
            Stmt::While(test, body) => {
                let again = test.copy();
                self.schedule(Task::Loop(again, *body));
                self.schedule(Task::Evaluate(test));
            },
            Stmt::Function(name, params, body) => {
                let function = Function::Lox {
                    arity: params.len(),
                    params: Box::new(params),
                    body: Box::new(body),
                    closure: self.scope,
                };
                assert(function@ == (SpecFunction::Lox {
                    arity: tokens_model(params).len() as usize,
                    params: tokens_model(params),
                    body: stmts_model(body),
                    closure: self.scope,
                }));
                assert(function@.well_formed());
                let value = Literal::Function(function);
                assert(value@ == SpecLiteral::Function(function@));
                assert(value@.well_formed());
                self.define_here(&name, value);
                self.push(Literal::plain(Literal::Nil));
            },
            Stmt::Return(_, value) => match value {
                Some(found) => {
                    self.schedule(Task::Return);
                    self.schedule(Task::Evaluate(found));
                },
                None => {
                    self.push(Literal::plain(Literal::Nil));
                    self.schedule(Task::Return);
                },
            },
        }
        Signal::Continue
    }

    /// Starts the evaluation of an expression.
    fn start_expression(&mut self, expr: Expr) -> (r: Signal)
        requires
            old(self).well_formed(),
            expr@.well_formed(),
        ensures
            final(self).well_formed(),
            outcome(final(self)@, r) == old(self)@.evaluate(expr@),
    {
        proof {
            reveal(SpecInterpreter::evaluate);
        }
        match expr {
            Expr::Literal(value) => {
                self.push(value);
            },
            Expr::Grouping(inner) => {
                self.schedule(Task::Evaluate(*inner));
            },
            Expr::Unary(operator, operand) => {
                self.schedule(Task::Unary(operator));
                self.schedule(Task::Evaluate(*operand));
            },
            Expr::Binary(left, operator, right) => {
                self.schedule(Task::Binary(operator));
                self.schedule(Task::Evaluate(*right));
                self.schedule(Task::Evaluate(*left));
            },
            Expr::Var(name) => {
                proof {
                    machine::lemma_fetched_well_formed(
                        self@.scopes,
                        self@.scope as int,
                        name@.lexeme,
                    );
                }
                match self.environment.fetch(self.scope, name.lexeme.as_str()) {
                    Some(value) => {
                        self.push(value);
                    },
                    None => {
                        return self.fail(
                            LoxError::runtime(&name, DetailedErrorType::UndeclaredIdentifier),
                        );
                    },
                }
            },
            Expr::Assign(name, value) => {
                self.schedule(Task::Assign(name));
                self.schedule(Task::Evaluate(*value));
            },
            Expr::Logical(left, operator, right) => {
                self.schedule(Task::Logical(operator, *right));
                self.schedule(Task::Evaluate(*left));
            },
            Expr::Call(callee, paren, arguments) => {
                let ghost before = self@.tasks;
                let count = arguments.len();
                self.schedule(Task::Invoke(paren, count));
                self.schedule_evaluations(arguments);
                self.schedule(Task::Evaluate(*callee));
                assert(self@.tasks =~= before.push(SpecTask::Invoke(paren@, count as nat))
                    + machine::evaluations(exprs_model(arguments)) + seq![
                    SpecTask::Evaluate(callee@),
                ]);
            },
        }
        Signal::Continue
    }

    /// Applies a prefix operator to the topmost value.
    fn apply_unary(&mut self, operator: Token) -> (r: Signal)
        requires
            old(self).well_formed(),
            operator@.kind.is_unary_operator(),
        ensures
            final(self).well_formed(),
            outcome(final(self)@, r) == old(self)@.unary(operator@),
    {
        proof {
            reveal(SpecInterpreter::unary);
        }
        let ghost before = self@;
        let operand = self.pop();
        if matches!(operator.token_type, TokenType::Minus) {
            match operand {
                Literal::Number(bits) => {
                    self.push(Literal::plain(Literal::Number(number::negate(bits))));
                    Signal::Continue
                },
                _ => {
                    let r = self.fail(LoxError::runtime(&operator, DetailedErrorType::ExpectedNumber));
                    assert(self@ == before.rest());
                    r
                },
            }
        } else {
            self.push(Literal::plain(Literal::Boolean(!operand.is_truthy())));
            Signal::Continue
        }
    }

    /// Decides `and` and `or` on the topmost value.
    fn apply_logical(&mut self, operator: Token, right: Expr) -> (r: Signal)
        requires
            old(self).well_formed(),
            right@.well_formed(),
        ensures
            final(self).well_formed(),
            outcome(final(self)@, r) == old(self)@.logical(operator@, right@),
    {
        proof {
            reveal(SpecInterpreter::logical);
        }
        let value = self.top();
        let is_or = matches!(operator.token_type, TokenType::Or);
        if is_or != value.is_truthy() {
            self.pop();
            self.schedule(Task::Evaluate(right));
        }
        Signal::Continue
    }

    /// Assigns the topmost value to a name.
    fn apply_assign(&mut self, name: Token) -> (r: Signal)
        requires
            old(self).well_formed(),
        ensures
            final(self).well_formed(),
            outcome(final(self)@, r) == old(self)@.assign(name@),
    {
        proof {
            reveal(SpecInterpreter::assign);
        }
        let ghost before = self@;
        let value = self.top();
        proof {
            crate::environment::lemma_resolve_bounds(
                before.scopes,
                before.scope as int,
                name@.lexeme,
            );
            if crate::environment::resolve(before.scopes, before.scope as int, name@.lexeme)
                is Some {
                machine::lemma_defined_well_formed(
                    before.scopes,
                    crate::environment::resolve(
                        before.scopes,
                        before.scope as int,
                        name@.lexeme,
                    )->Some_0,
                    name@.lexeme,
                    value@,
                );
            }
        }
        if self.environment.assign(self.scope, name.lexeme.as_str(), value) {
            proof {
                self.environment.lemma_well_formed();
            }
            Signal::Continue
        } else {
            let r = self.fail(LoxError::runtime(&name, DetailedErrorType::UndeclaredIdentifier));
            assert(self@ == before.rest());
            r
        }
    }

    /// Takes one branch of an `if`.
    fn branch(&mut self, first: Stmt, second: Option<Stmt>) -> (r: Signal)
        requires
            old(self).well_formed(),
            first@.well_formed(),
            second matches Some(other) ==> other@.well_formed(),
        ensures
            final(self).well_formed(),
            outcome(final(self)@, r) == old(self)@.branch(
                first@,
                match second {
                    Some(other) => Some(other@),
                    None => None,
                },
            ),
    {
        proof {
            reveal(SpecInterpreter::branch);
        }
        let test = self.pop();
        if test.is_truthy() {
            self.schedule(Task::Execute(first));
        } else {
            match second {
                Some(other) => {
                    self.schedule(Task::Execute(other));
                },
                None => {
                    self.push(Literal::plain(Literal::Nil));
                },
            }
        }
        Signal::Continue
    }

    /// Goes round a `while` loop once more, or ends it.
    fn repeat(&mut self, test: Expr, body: Stmt) -> (r: Signal)
        requires
            old(self).well_formed(),
            test@.well_formed(),
            body@.well_formed(),
        ensures
            final(self).well_formed(),
            outcome(final(self)@, r) == old(self)@.repeat(test@, body@),
    {
        proof {
            reveal(SpecInterpreter::repeat);
        }
        let value = self.pop();
        if value.is_truthy() {
            let again = test.copy();
            let once_more = body.copy();
            self.schedule(Task::Loop(again, once_more));
            self.schedule(Task::Evaluate(test));
            self.schedule(Task::Discard);
            self.schedule(Task::Execute(body));
        } else {
            self.push(Literal::plain(Literal::Nil));
        }
        Signal::Continue
    }

    /// Begins to wait for an answer of the host.
    fn wait(&mut self)
        requires
            old(self).well_formed(),
        ensures
            final(self).well_formed(),
            final(self)@ == (SpecInterpreter { waiting: true, ..old(self)@ }),
    {
        self.waiting = true;
    }

    /// Applies an infix operator to the two topmost values.
    fn apply_binary(&mut self, operator: Token) -> (r: Signal)
        requires
            old(self).well_formed(),
            operator@.kind.is_binary_operator(),
        ensures
            final(self).well_formed(),
            outcome(final(self)@, r) == old(self)@.binary(operator@),
    {
        proof {
            reveal(SpecInterpreter::binary);
        }
        let ghost before = self@;
        let right = self.pop();
        let left = self.pop();
        assert(self@.rest() == before.rest());
        let mismatch = LoxError::runtime(&operator, DetailedErrorType::ExpectedNumber);
        match &operator.token_type {
            TokenType::Plus | TokenType::Minus | TokenType::Star | TokenType::Slash => {
                match (left, right) {
                    (Literal::Number(a), Literal::Number(b)) => {
                        self.wait();
                        Signal::Arithmetic(operation(&operator.token_type), a, b)
                    },
                    (Literal::String(a), Literal::String(b)) => {
                        if matches!(operator.token_type, TokenType::Plus) {
                            let mut joined = a;
                            joined.append(b.as_str());
                            self.push(Literal::plain(Literal::String(joined)));
                            Signal::Continue
                        } else {
                            self.fail(mismatch)
                        }
                    },
                    _ => self.fail(mismatch),
                }
            },
            TokenType::Less | TokenType::LessEqual | TokenType::Greater
            | TokenType::GreaterEqual => {
                match (left, right) {
                    (Literal::Number(a), Literal::Number(b)) => {
                        let result = compare(&operator.token_type, a, b);
                        self.push(Literal::plain(Literal::Boolean(result)));
                        Signal::Continue
                    },
                    _ => self.fail(mismatch),
                }
            },
            TokenType::EqualEqual => {
                let result = left == right;
                self.push(Literal::plain(Literal::Boolean(result)));
                Signal::Continue
            },
            _ => {
                let result = left == right;
                self.push(Literal::plain(Literal::Boolean(!result)));
                Signal::Continue
            },
        }
    }

    /// Returns the topmost value from the call that is under way.
    fn unwind(&mut self) -> (r: Signal)
        requires
            old(self).well_formed(),
        ensures
            final(self).well_formed(),
            outcome(final(self)@, r) == old(self)@.unwind(),
    {
        proof {
            reveal(SpecInterpreter::unwind);
        }
        let ghost before = self@;
        let value = self.pop();
        let ghost below = self@.values;
        loop
            invariant
                before == old(self)@,
                self.well_formed(),
                value@ == before.top(),
                value@.well_formed(),
                self@ == (SpecInterpreter { tasks: self@.tasks, values: below, ..before }),
                below == before.popped().values,
                self@.tasks == before.tasks.take(self@.tasks.len() as int),
                self@.tasks.len() <= before.tasks.len(),
                machine::boundary(self@.tasks) == machine::boundary(before.tasks),
            decreases self@.tasks.len(),
        {
            proof {
                reveal(SpecInterpreter::unwind);
            }
            let ghost tasks = self@.tasks;
            match self.pop_task() {
                None => {
                    assert(machine::boundary(tasks) == -1);
                    let r = self.finish(value);
                    assert(self@ == before.rest());
                    return r;
                },
                Some(Task::Boundary(scope, height)) => {
                    proof {
                        assert(tasks.last() == SpecTask::Boundary(scope, height as nat));
                        assert(machine::boundary(tasks) == tasks.len() - 1);
                        assert(before.tasks[tasks.len() - 1] == tasks.last());
                        assert(self@.tasks =~= before.tasks.take(tasks.len() - 1));
                    }
                    self.leave(scope);
                    self.cut(height);
                    self.push(value);
                    return Signal::Continue;
                },
                Some(_) => {
                    proof {
                        assert(!(tasks.last() is Boundary));
                        assert(machine::boundary(tasks) == machine::boundary(tasks.drop_last()));
                        assert(self@.tasks =~= before.tasks.take(self@.tasks.len() as int));
                    }
                },
            }
        }
    }

    /// Takes the topmost task off, if there is one.
    fn pop_task(&mut self) -> (r: Option<Task>)
        requires
            old(self).well_formed(),
        ensures
            final(self).well_formed(),
            match r {
                Some(task) => old(self)@.tasks.len() > 0 && task@ == old(self)@.tasks.last()
                    && final(self)@ == (SpecInterpreter {
                    tasks: old(self)@.tasks.drop_last(),
                    ..old(self)@
                }) && task@.well_formed(old(self)@.scopes.len()),
                None => old(self)@.tasks.len() == 0 && final(self)@ == old(self)@,
            },
    {
        let ghost before = tasks_model(self.tasks);
        let ghost count = self@.scopes.len();
        match self.tasks.pop() {
            Some(task) => {
                proof {
                    let after = tasks_model(self.tasks);
                    assert(after =~= before.drop_last());
                    assert(task@ == before.last());
                    assert(before[before.len() - 1].well_formed(count));
                    assert forall|i: int| 0 <= i < after.len() implies (
                    #[trigger] after[i]).well_formed(count) by {
                        assert(before[i].well_formed(count));
                    }
                }
                Some(task)
            },
            None => {
                assert(tasks_model(self.tasks) =~= before);
                None
            },
        }
    }

    /// Makes an older scope the current one.
    fn leave(&mut self, scope: usize)
        requires
            old(self).well_formed(),
            scope < old(self)@.scopes.len(),
        ensures
            final(self).well_formed(),
            final(self)@ == (SpecInterpreter { scope, ..old(self)@ }),
    {
        self.scope = scope;
    }

    /// Drops the values above the given height.
    fn cut(&mut self, height: usize)
        requires
            old(self).well_formed(),
        ensures
            final(self).well_formed(),
            final(self)@ == (SpecInterpreter {
                values: if height <= old(self)@.values.len() {
                    old(self)@.values.take(height as int)
                } else {
                    old(self)@.values
                },
                ..old(self)@
            }),
    {
        let ghost before = values_model(self.values);
        self.values.truncate(height);
        proof {
            let after = values_model(self.values);
            if height <= before.len() {
                assert(after =~= before.take(height as int));
            } else {
                assert(after =~= before);
            }
            assert forall|i: int| 0 <= i < after.len() implies (#[trigger] after[i]).well_formed() by {
                assert(before[i].well_formed());
            }
        }
    }

    /// Takes the topmost `count` values and the value below them off.
    fn split(&mut self, count: usize) -> (r: (Literal, Vec<Literal>))
        requires
            old(self).well_formed(),
            count < old(self)@.values.len(),
        ensures
            final(self).well_formed(),
            final(self)@ == (SpecInterpreter {
                values: old(self)@.values.take(old(self)@.values.len() - count - 1),
                ..old(self)@
            }),
            r.0@ == old(self)@.values[old(self)@.values.len() - count - 1],
            values_model(r.1) == old(self)@.values.subrange(
                old(self)@.values.len() - count,
                old(self)@.values.len() as int,
            ),
            r.0@.well_formed(),
            values_well_formed(values_model(r.1)),
    {
        let ghost before = values_model(self.values);
        let height = self.values.len();
        let arguments = self.values.split_off(height - count);
        let callee = self.values.pop().unwrap();
        proof {
            let after = values_model(self.values);
            let taken = values_model(arguments);
            assert(after =~= before.take(height - count - 1));
            assert(taken =~= before.subrange(height - count, height as int));
            assert(callee@ == before[height - count - 1]);
            assert(before[height - count - 1].well_formed());
            assert forall|i: int| 0 <= i < after.len() implies (#[trigger] after[i]).well_formed() by {
                assert(before[i].well_formed());
            }
            assert forall|i: int| 0 <= i < taken.len() implies (#[trigger] taken[i]).well_formed() by {
                assert(before[height - count + i].well_formed());
            }
        }
        (callee, arguments)
    }

    /// Calls a value with arguments.
    fn apply(&mut self, callee: Literal, arguments: Vec<Literal>, paren: Token) -> (r: Signal)
        requires
            old(self).well_formed(),
            callee@.well_formed(),
            values_well_formed(values_model(arguments)),
        ensures
            final(self).well_formed(),
            outcome(final(self)@, r) == old(self)@.apply(
                callee@,
                values_model(arguments),
                paren@,
            ),
    {
        proof {
            reveal(SpecInterpreter::apply);
        }
        match callee {
            Literal::Function(function) => {
                assert(callee@ == SpecLiteral::Function(function@));
                assert(function@.well_formed());
                let known = match &function {
                    Function::Lox { closure, .. } => *closure < self.environment.len(),
                    Function::Native { .. } => true,
                };
                if !known {
                    self.fail(LoxError::runtime(&paren, DetailedErrorType::NotCallable))
                } else if function.arity() != arguments.len() {
                    self.fail(LoxError::runtime(&paren, DetailedErrorType::InvalidArity))
                } else {
                    function.call(self, &arguments)
                }
            },
            _ => self.fail(LoxError::runtime(&paren, DetailedErrorType::NotCallable)),
        }
    }

    /// Calls the value that lies below `count` arguments with them.
    fn invoke(&mut self, paren: Token, count: usize) -> (r: Signal)
        requires
            old(self).well_formed(),
        ensures
            final(self).well_formed(),
            outcome(final(self)@, r) == old(self)@.invoke(paren@, count as nat),
    {
        proof {
            reveal(SpecInterpreter::invoke);
        }
        if self.values.len() <= count {
            return self.fail(LoxError::runtime(&paren, DetailedErrorType::NotCallable));
        }
        let (callee, arguments) = self.split(count);
        self.apply(callee, arguments, paren)
    }

    /// Binds each parameter to its argument in the current scope.
    fn bind(&mut self, params: &Vec<Token>, arguments: &Vec<Literal>)
        requires
            old(self).well_formed(),
            values_well_formed(values_model(*arguments)),
            params.len() == arguments.len(),
        ensures
            final(self).well_formed(),
            final(self)@ == old(self)@.with_scopes(
                machine::bind(
                    old(self)@.scopes,
                    old(self)@.scope as int,
                    tokens_model(*params),
                    values_model(*arguments),
                    params.len() as int,
                ),
            ),
            final(self)@.scopes.len() == old(self)@.scopes.len(),
    {
        let ghost before = self@;
        let mut i: usize = 0;
        while i < params.len()
            invariant
                i <= params.len(),
                params.len() == arguments.len(),
                self.well_formed(),
                values_well_formed(values_model(*arguments)),
                self@.scopes.len() == before.scopes.len(),
                self@ == before.with_scopes(
                    machine::bind(
                        before.scopes,
                        before.scope as int,
                        tokens_model(*params),
                        values_model(*arguments),
                        i as int,
                    ),
                ),
            decreases params.len() - i,
        {
            let value = arguments[i].copy();
            assert(values_model(*arguments)[i as int].well_formed());
            assert(tokens_model(*params)[i as int] == params[i as int]@);
            self.define_here(&params[i], value);
            i += 1;
        }
    }

    /// Schedules the body of a declared function in a new scope inside the
    /// scope of its declaration.
    fn call_declared(
        &mut self,
        params: &Vec<Token>,
        body: &Vec<Stmt>,
        closure: usize,
        arguments: &Vec<Literal>,
    )
        requires
            old(self).well_formed(),
            values_well_formed(values_model(*arguments)),
            all_well_formed(stmts_model(*body)),
            params.len() == arguments.len(),
            closure < old(self)@.scopes.len(),
        ensures
            final(self).well_formed(),
            final(self)@ == (SpecInterpreter {
                scopes: machine::bind(
                    crate::environment::enclosed(old(self)@.scopes, closure),
                    old(self)@.scopes.len() as int,
                    tokens_model(*params),
                    values_model(*arguments),
                    params.len() as int,
                ),
                scope: old(self)@.scopes.len() as usize,
                tasks: old(self)@.tasks.push(
                    SpecTask::Boundary(old(self)@.scope, old(self)@.values.len()),
                ) + machine::plan(stmts_model(*body)),
                ..old(self)@
            }),
    {
        let caller = self.scope;
        let height = self.values.len();
        assert(height == self@.values.len());
        let ghost before = self@;
        self.enter(closure);
        self.bind(params, arguments);
        self.schedule(Task::Boundary(caller, height));
        self.schedule_all(copy_stmts(body));
        assert(self@.tasks =~= before.tasks.push(SpecTask::Boundary(caller, height as nat))
            + machine::plan(stmts_model(*body)));
    }

    /// An interpreter at rest, whose global scope holds the host function
    /// `clock`.
    pub fn new() -> (r: Self)
        ensures
            r.well_formed(),
            r@ == SpecInterpreter::initial(),
    {
        let mut environment = Environment::new();
        let clock = Function::Native { arity: 0, name: String::from_str("clock") };
        assert(clock@ == (SpecFunction::Native { arity: 0, name: "clock"@ }));
        assert(clock@.well_formed());
        let value = Literal::Function(clock);
        assert(value@ == SpecLiteral::Function(clock@));
        assert(value@.well_formed());
        let ghost empty = environment@;
        environment.define(0, "clock", value);
        let r = Interpreter {
            environment,
            scope: 0,
            tasks: Vec::new(),
            values: Vec::new(),
            waiting: false,
        };
        proof {
            r.environment.lemma_well_formed();
            assert(tasks_model(r.tasks) =~= Seq::empty());
            assert(values_model(r.values) =~= Seq::empty());
            assert(crate::environment::holds_well_formed(empty)) by {
                assert forall|i: int, name: Seq<char>|
                    0 <= i < empty.len() && (#[trigger] empty[i].values.contains_key(
                        name,
                    )) implies empty[i].values[name].well_formed() by {}
            }
            machine::lemma_defined_well_formed(empty, 0, "clock"@, value@);
        }
        r
    }

    /// Whether the interpreter waits for an answer.
    pub fn is_waiting(&self) -> (r: bool)
        ensures
            r == self@.waiting,
    {
        self.waiting
    }

    /// Begins to execute a statement. Whatever was left of an earlier run is
    /// dropped. The run itself is made by [`Interpreter::run`].
    pub fn execute(&mut self, stmt: &Stmt)
        requires
            old(self).well_formed(),
            stmt@.well_formed(),
        ensures
            final(self).well_formed(),
            final(self)@ == old(self)@.begin(SpecTask::Execute(stmt@)),
            balanced(final(self)@),
    {
        proof {
            lemma_begin_balanced(self@, SpecTask::Execute(stmt@));
        }
        self.come_to_rest();
        self.schedule(Task::Execute(stmt.copy()));
    }

    /// Begins to evaluate an expression. Whatever was left of an earlier run
    /// is dropped. The run itself is made by [`Interpreter::run`].
    pub fn evaluate(&mut self, expr: &Expr)
        requires
            old(self).well_formed(),
            expr@.well_formed(),
        ensures
            final(self).well_formed(),
            final(self)@ == old(self)@.begin(SpecTask::Evaluate(expr@)),
            balanced(final(self)@),
    {
        proof {
            lemma_begin_balanced(self@, SpecTask::Evaluate(expr@));
        }
        self.come_to_rest();
        self.schedule(Task::Evaluate(expr.copy()));
    }

    /// Takes the host's answer to the last request and says whether it was
    /// taken: an interpreter that does not wait takes none.
    pub fn resume(&mut self, answer: Literal) -> (r: bool)
        requires
            old(self).well_formed(),
            answer@.well_formed(),
        ensures
            final(self).well_formed(),
            r == old(self)@.waiting,
            final(self)@ == old(self)@.resume(answer@),
            balanced(old(self)@) ==> balanced(final(self)@),
    {
        proof {
            if balanced(self@) {
                lemma_resume_balanced(self@, answer@);
            }
        }
        if self.waiting {
            self.push(answer);
            self.waiting = false;
            true
        } else {
            false
        }
    }

    /// One step of the machine.
    pub fn step(&mut self) -> (r: Signal)
        requires
            old(self).well_formed(),
        ensures
            final(self).well_formed(),
            outcome(final(self)@, r) == old(self)@.step(),
            balanced(old(self)@) ==> r is Done || balanced(final(self)@),
    {
        proof {
            if balanced(self@) {
                lemma_step_balanced(self@);
            }
        }
        if self.waiting {
            return Signal::Waiting;
        }
        match self.pop_task() {
            None => {
                let value = self.pop();
                let r = self.finish(value);
                assert(self@ == old(self)@.rest());
                r
            },
            Some(task) => match task {
                Task::Execute(statement) => self.start_statement(statement),
                Task::Evaluate(expr) => self.start_expression(expr),
                Task::Discard => {
                    self.pop();
                    Signal::Continue
                },
                Task::Print => {
                    let value = self.pop();
                    self.push(Literal::plain(Literal::Nil));
                    Signal::Print(value)
                },
                Task::Define(name) => {
                    let value = self.pop();
                    self.define_here(&name, value);
                    self.push(Literal::plain(Literal::Nil));
                    Signal::Continue
                },
                Task::Branch(first, second) => self.branch(first, second),
                Task::Loop(test, body) => self.repeat(test, body),
                Task::Leave(scope) => {
                    self.leave(scope);
                    self.push(Literal::plain(Literal::Nil));
                    Signal::Continue
                },
                Task::Return => self.unwind(),
                Task::Boundary(scope, _) => {
                    self.leave(scope);
                    self.push(Literal::plain(Literal::Nil));
                    Signal::Continue
                },
                Task::Assign(name) => self.apply_assign(name),
                Task::Unary(operator) => self.apply_unary(operator),
                Task::Binary(operator) => self.apply_binary(operator),
                Task::Logical(operator, right) => self.apply_logical(operator, right),
                Task::Invoke(paren, count) => self.invoke(paren, count),
            },
        }
    }

    /// Steps until a step returns a signal other than [`Signal::Continue`],
    /// but no more than `budget` times.
    pub fn run(&mut self, budget: usize) -> (r: Signal)
        requires
            old(self).well_formed(),
        ensures
            final(self).well_formed(),
            outcome(final(self)@, r) == old(self)@.run(budget as nat),
            balanced(old(self)@) ==> r is Done || balanced(final(self)@),
    {
        proof {
            if balanced(self@) {
                lemma_run_balanced(self@, budget as nat);
            }
        }
        let mut left: usize = budget;
        while left > 0
            invariant
                self.well_formed(),
                self@.run(left as nat) == old(self)@.run(budget as nat),
                balanced(old(self)@) ==> old(self)@.run(budget as nat).signal is Done || balanced(
                    old(self)@.run(budget as nat).state,
                ),
            decreases left,
        {
            let ghost before = self@;
            let signal = self.step();
            match signal {
                Signal::Continue => {},
                _ => {
                    return signal;
                },
            }
            left -= 1;
        }
        Signal::Continue
    }
}

/// The operation that an arithmetic operator stands for.
fn operation(kind: &TokenType) -> (r: Arithmetic)
    requires
        kind@.is_arithmetic_operator(),
    ensures
        r == machine::operation(kind@),
{
    match kind {
        TokenType::Plus => Arithmetic::Add,
        TokenType::Minus => Arithmetic::Subtract,
        TokenType::Star => Arithmetic::Multiply,
        _ => Arithmetic::Divide,
    }
}

/// Compares two numbers.
fn compare(kind: &TokenType, left: u64, right: u64) -> (r: bool)
    requires
        kind@.is_comparison_operator(),
    ensures
        r == machine::compared(kind@, left, right),
{
    match kind {
        TokenType::Less => number::check_less(left, right),
        TokenType::LessEqual => number::check_less(left, right) || number::check_equal(left, right),
        TokenType::Greater => number::check_less(right, left),
        _ => number::check_less(right, left) || number::check_equal(left, right),
    }
}

impl Function {
    /// Calls the function with exactly as many arguments as it takes. A host
    /// function is asked of the host; the body of a declared function is
    /// scheduled in a new scope inside the scope of its declaration, which
    /// must exist.
    pub fn call(&self, interpreter: &mut Interpreter, arguments: &Vec<Literal>) -> (r: Signal)
        requires
            old(interpreter).well_formed(),
            self@.well_formed(),
            values_well_formed(values_model(*arguments)),
            self@.arity() == arguments@.len(),
            self@ matches SpecFunction::Lox { closure, .. } ==> closure < old(
                interpreter,
            )@.scopes.len(),
        ensures
            final(interpreter).well_formed(),
            outcome(final(interpreter)@, r) == old(interpreter)@.call(
                self@,
                values_model(*arguments),
            ),
    {
        proof {
            reveal(SpecInterpreter::call);
        }
        match self {
            Function::Native { name, .. } => {
                interpreter.wait();
                Signal::Native(name.clone(), copy_values(arguments))
            },
            Function::Lox { params, body, closure, .. } => {
                interpreter.call_declared(params, body, *closure, arguments);
                Signal::Continue
            },
        }
    }
}

} // verus!
