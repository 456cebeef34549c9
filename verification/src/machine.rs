//! The evaluator as a machine: its states, and the step from one state to the
//! next.
//!
//! A state holds the scopes, the work that is left as a stack of tasks, and
//! the values computed so far as a second stack. One step takes the topmost
//! task and carries it out. A task that needs its operands scheduled them
//! before itself, so it finds them on top of the values. What the machine
//! cannot do itself it asks of its host by the signal that a step returns.

use vstd::prelude::*;
use crate::environment::{SpecScope, assigned, defined, enclosed, fetched, holds_well_formed, nested, resolve};
use crate::errors::{DetailedErrorType, SpecError};
use crate::expr::{SpecExpr, exprs_well_formed};
use crate::function::SpecFunction;
use crate::literal::{SpecLiteral, values_well_formed};
use crate::number;
use crate::stmt::{SpecStmt, all_well_formed};
use crate::token::{Kind, SpecToken};

pub mod balance;

verus! {

/// The operations on numbers that the machine leaves to its host.
#[derive(Clone, Copy, Debug, PartialEq, Eq, Structural)]
pub enum Arithmetic {
    Add,
    Subtract,
    Multiply,
    Divide,
}

/// Model of a task.
pub enum SpecTask {
    /// Execute a statement; its result is pushed.
    Execute(SpecStmt),
    /// Evaluate an expression; its value is pushed.
    Evaluate(SpecExpr),
    /// Drop the topmost value.
    Discard,
    /// Print the topmost value.
    Print,
    /// Bind the name to the topmost value in the current scope.
    Define(SpecToken),
    /// Execute the first statement if the topmost value is truthy, else the
    /// second, if there is one.
    Branch(SpecStmt, Option<SpecStmt>),
    /// Run the body and test the condition again if the topmost value is
    /// truthy.
    Loop(SpecExpr, SpecStmt),
    /// Leave a block for the scope around it.
    Leave(usize),
    /// Return the topmost value from the function that is being called.
    Return,
    /// The end of a function's body: go back to the caller's scope. The
    /// second number is the height of the values when the call began.
    Boundary(usize, nat),
    /// Assign the topmost value to the name.
    Assign(SpecToken),
    /// Apply a prefix operator to the topmost value.
    Unary(SpecToken),
    /// Apply an infix operator to the two topmost values.
    Binary(SpecToken),
    /// Keep the topmost value as the result of `and` or `or`, or drop it and
    /// evaluate the right operand.
    Logical(SpecToken, SpecExpr),
    /// Call the value below the given number of arguments with them.
    Invoke(SpecToken, nat),
}

/// Model of a signal: what a step tells the host.
pub enum SpecSignal {
    /// There is more to do.
    Continue,
    /// The machine waits for an answer.
    Waiting,
    /// The value is to be printed.
    Print(SpecLiteral),
    /// The host is to compute on two numbers and answer with the result.
    Arithmetic(Arithmetic, u64, u64),
    /// The host is to call its function of this name and answer with the
    /// result.
    Native(Seq<char>, Seq<SpecLiteral>),
    /// The run is over, with a value or an error.
    Done(Result<SpecLiteral, SpecError>),
}

/// Model of the interpreter.
pub struct SpecInterpreter {
    /// All scopes opened so far; scope 0 is the global one.
    pub scopes: Seq<SpecScope>,
    /// The current scope.
    pub scope: usize,
    /// The work that is left; the last task is done next.
    pub tasks: Seq<SpecTask>,
    /// The values computed so far; the last is the topmost.
    pub values: Seq<SpecLiteral>,
    /// The machine has asked its host for a value and waits for it.
    pub waiting: bool,
}

/// A state and the signal that led to it.
pub struct Outcome {
    pub state: SpecInterpreter,
    pub signal: SpecSignal,
}

/// The tasks that run statements in order and drop the result of each: the
/// first statement is on top.
pub open spec fn plan(statements: Seq<SpecStmt>) -> Seq<SpecTask>
    decreases statements.len(),
{
    if statements.len() == 0 {
        Seq::empty()
    } else {
        seq![SpecTask::Discard, SpecTask::Execute(statements.last())] + plan(
            statements.drop_last(),
        )
    }
}

/// The tasks that evaluate expressions in order: the first expression is on
/// top.
pub open spec fn evaluations(exprs: Seq<SpecExpr>) -> Seq<SpecTask>
    decreases exprs.len(),
{
    if exprs.len() == 0 {
        Seq::empty()
    } else {
        seq![SpecTask::Evaluate(exprs.last())] + evaluations(exprs.drop_last())
    }
}

/// The scopes after each of the first `count` parameters was bound to its
/// argument in `scope`.
pub open spec fn bind(
    scopes: Seq<SpecScope>,
    scope: int,
    params: Seq<SpecToken>,
    arguments: Seq<SpecLiteral>,
    count: int,
) -> Seq<SpecScope>
    decreases count,
{
    if count <= 0 {
        scopes
    } else {
        defined(
            bind(scopes, scope, params, arguments, count - 1),
            scope,
            params[count - 1].lexeme,
            arguments[count - 1],
        )
    }
}

/// The position of the topmost boundary among the tasks, or -1.
pub open spec fn boundary(tasks: Seq<SpecTask>) -> int
    decreases tasks.len(),
{
    if tasks.len() == 0 {
        -1
    } else if tasks.last() is Boundary {
        tasks.len() - 1
    } else {
        boundary(tasks.drop_last())
    }
}

/// The operation that an arithmetic operator stands for.
pub open spec fn operation(kind: Kind) -> Arithmetic {
    match kind {
        Kind::Plus => Arithmetic::Add,
        Kind::Minus => Arithmetic::Subtract,
        Kind::Star => Arithmetic::Multiply,
        _ => Arithmetic::Divide,
    }
}

/// What a comparison of two numbers gives.
pub open spec fn compared(kind: Kind, left: u64, right: u64) -> bool {
    match kind {
        Kind::Less => number::less(left, right),
        Kind::LessEqual => number::less(left, right) || number::equal(left, right),
        Kind::Greater => number::less(right, left),
        _ => number::less(right, left) || number::equal(left, right),
    }
}

impl SpecTask {
    /// The syntax that the task holds is well formed, and the scope that it
    /// names exists among `count` scopes.
    pub open spec fn well_formed(self, count: nat) -> bool {
        match self {
            SpecTask::Execute(statement) => statement.well_formed(),
            SpecTask::Evaluate(expr) => expr.well_formed(),
            SpecTask::Branch(first, second) => first.well_formed() && match second {
                Some(other) => other.well_formed(),
                None => true,
            },
            SpecTask::Loop(test, body) => test.well_formed() && body.well_formed(),
            SpecTask::Leave(scope) => scope < count,
            SpecTask::Boundary(scope, _) => scope < count,
            SpecTask::Logical(_, right) => right.well_formed(),
            SpecTask::Unary(operator) => operator.kind.is_unary_operator(),
            SpecTask::Binary(operator) => operator.kind.is_binary_operator(),
            _ => true,
        }
    }
}

/// Whether every task of a sequence is well formed among `count` scopes.
pub open spec fn tasks_well_formed(tasks: Seq<SpecTask>, count: nat) -> bool {
    forall|i: int| 0 <= i < tasks.len() ==> (#[trigger] tasks[i]).well_formed(count)
}

impl SpecInterpreter {
    /// The current scope exists, the scopes are nested, and everything that
    /// the state holds is well formed.
    pub open spec fn well_formed(self) -> bool {
        &&& self.scope < self.scopes.len()
        &&& nested(self.scopes)
        &&& holds_well_formed(self.scopes)
        &&& values_well_formed(self.values)
        &&& tasks_well_formed(self.tasks, self.scopes.len())
    }

    /// The topmost value; `nil` where there is none.
    pub open spec fn top(self) -> SpecLiteral {
        if self.values.len() > 0 {
            self.values.last()
        } else {
            SpecLiteral::Nil
        }
    }

    /// The state without the topmost value.
    pub open spec fn popped(self) -> SpecInterpreter {
        if self.values.len() > 0 {
            SpecInterpreter { values: self.values.drop_last(), ..self }
        } else {
            self
        }
    }

    /// The state with one more value.
    pub open spec fn push(self, value: SpecLiteral) -> SpecInterpreter {
        SpecInterpreter { values: self.values.push(value), ..self }
    }

    /// The state with one more task.
    pub open spec fn schedule(self, task: SpecTask) -> SpecInterpreter {
        SpecInterpreter { tasks: self.tasks.push(task), ..self }
    }

    /// The state with `bindings` for scopes.
    pub open spec fn with_scopes(self, scopes: Seq<SpecScope>) -> SpecInterpreter {
        SpecInterpreter { scopes, ..self }
    }

    /// The state goes on.
    pub open spec fn onward(self) -> Outcome {
        Outcome { state: self, signal: SpecSignal::Continue }
    }

    /// The state at rest: no task, no value, the global scope current.
    pub open spec fn rest(self) -> SpecInterpreter {
        SpecInterpreter {
            scope: 0,
            tasks: Seq::empty(),
            values: Seq::empty(),
            waiting: false,
            ..self
        }
    }

    /// The run ends with an error: the machine comes to rest.
    pub open spec fn fail(self, error: SpecError) -> Outcome {
        Outcome { state: self.rest(), signal: SpecSignal::Done(Err(error)) }
    }

    /// The run ends with a value: the machine comes to rest.
    pub open spec fn finish(self, value: SpecLiteral) -> Outcome {
        Outcome { state: self.rest(), signal: SpecSignal::Done(Ok(value)) }
    }

    /// The state in which a run of the given task begins: whatever was left
    /// of an earlier run is dropped.
    pub open spec fn begin(self, task: SpecTask) -> SpecInterpreter {
        self.rest().schedule(task)
    }

    /// The state in which a new interpreter is: the global scope alone, in
    /// which `clock` names the host function of that name, which takes no
    /// argument.
    pub open spec fn initial() -> SpecInterpreter {
        SpecInterpreter {
            scopes: defined(
                seq![SpecScope { values: Map::empty(), enclosing: None }],
                0,
                "clock"@,
                SpecLiteral::Function(SpecFunction::Native { arity: 0, name: "clock"@ }),
            ),
            scope: 0,
            tasks: Seq::empty(),
            values: Seq::empty(),
            waiting: false,
        }
    }

    /// The state after the host's answer was taken. A machine that does not
    /// wait takes none.
    pub open spec fn resume(self, answer: SpecLiteral) -> SpecInterpreter {
        if self.waiting {
            SpecInterpreter { waiting: false, ..self.push(answer) }
        } else {
            self
        }
    }

    /// Starts the execution of a statement.
    #[verifier::opaque]
    pub open spec fn execute(self, statement: SpecStmt) -> Outcome {
        match statement {
            SpecStmt::Print(value) => self.schedule(SpecTask::Print).schedule(
                SpecTask::Evaluate(value),
            ).onward(),
            SpecStmt::Expression(value) => self.schedule(SpecTask::Evaluate(value)).onward(),
            SpecStmt::Var(name, initializer) => match initializer {
                Some(value) => self.schedule(SpecTask::Define(name)).schedule(
                    SpecTask::Evaluate(value),
                ).onward(),
                None => self.with_scopes(
                    defined(self.scopes, self.scope as int, name.lexeme, SpecLiteral::Nil),
                ).push(SpecLiteral::Nil).onward(),
            },
            SpecStmt::Block(statements) => (SpecInterpreter {
                scopes: enclosed(self.scopes, self.scope),
                scope: self.scopes.len() as usize,
                tasks: self.tasks.push(SpecTask::Leave(self.scope)) + plan(statements),
                ..self
            }).onward(),
            SpecStmt::If(test, first, second) => self.schedule(
                SpecTask::Branch(
                    *first,
                    match second {
                        Some(other) => Some(*other),
                        None => None,
                    },
                ),
            ).schedule(SpecTask::Evaluate(test)).onward(),
            SpecStmt::While(test, body) => self.schedule(SpecTask::Loop(test, *body)).schedule(
                SpecTask::Evaluate(test),
            ).onward(),
            SpecStmt::Function(name, params, body) => self.with_scopes(
                defined(
                    self.scopes,
                    self.scope as int,
                    name.lexeme,
                    SpecLiteral::Function(
                        SpecFunction::Lox {
                            arity: params.len() as usize,
                            params,
                            body,
                            closure: self.scope,
                        },
                    ),
                ),
            ).push(SpecLiteral::Nil).onward(),
            SpecStmt::Return(_, value) => match value {
                Some(found) => self.schedule(SpecTask::Return).schedule(
                    SpecTask::Evaluate(found),
                ).onward(),
                None => self.push(SpecLiteral::Nil).schedule(SpecTask::Return).onward(),
            },
        }
    }

    /// Starts the evaluation of an expression.
    #[verifier::opaque]
    pub open spec fn evaluate(self, expr: SpecExpr) -> Outcome {
        match expr {
            SpecExpr::Literal(value) => self.push(value).onward(),
            SpecExpr::Grouping(inner) => self.schedule(SpecTask::Evaluate(*inner)).onward(),
            SpecExpr::Unary(operator, operand) => self.schedule(SpecTask::Unary(operator)).schedule(
                SpecTask::Evaluate(*operand),
            ).onward(),
            SpecExpr::Binary(left, operator, right) => self.schedule(
                SpecTask::Binary(operator),
            ).schedule(SpecTask::Evaluate(*right)).schedule(SpecTask::Evaluate(*left)).onward(),
            SpecExpr::Var(name) => match fetched(self.scopes, self.scope as int, name.lexeme) {
                Some(value) => self.push(value).onward(),
                None => self.fail(SpecError::runtime(name, DetailedErrorType::UndeclaredIdentifier)),
            },
            SpecExpr::Assign(name, value) => self.schedule(SpecTask::Assign(name)).schedule(
                SpecTask::Evaluate(*value),
            ).onward(),
            SpecExpr::Logical(left, operator, right) => self.schedule(
                SpecTask::Logical(operator, *right),
            ).schedule(SpecTask::Evaluate(*left)).onward(),
            SpecExpr::Call(callee, paren, arguments) => (SpecInterpreter {
                tasks: self.tasks.push(SpecTask::Invoke(paren, arguments.len()))
                    + evaluations(arguments) + seq![SpecTask::Evaluate(*callee)],
                ..self
            }).onward(),
        }
    }

    /// Applies a prefix operator to the topmost value: `-` negates a number
    /// and fails on anything else, `!` gives whether the value is falsy.
    #[verifier::opaque]
    pub open spec fn unary(self, operator: SpecToken) -> Outcome {
        let operand = self.top();
        if operator.kind is Minus {
            match operand {
                SpecLiteral::Number(bits) => self.popped().push(
                    SpecLiteral::Number(number::negated(bits)),
                ).onward(),
                _ => self.fail(SpecError::runtime(operator, DetailedErrorType::ExpectedNumber)),
            }
        } else {
            self.popped().push(SpecLiteral::Boolean(!operand.is_truthy())).onward()
        }
    }

    /// Applies an infix operator to the two topmost values, the left operand
    /// below the right one. `+` joins two strings. Arithmetic on two numbers
    /// is asked of the host; comparison of two numbers is decided here; both
    /// fail on anything else. `==` and `!=` take any two values.
    #[verifier::opaque]
    pub open spec fn binary(self, operator: SpecToken) -> Outcome {
        let right = self.top();
        let left = self.popped().top();
        let base = self.popped().popped();
        let kind = operator.kind;
        let mismatch = self.fail(SpecError::runtime(operator, DetailedErrorType::ExpectedNumber));
        if kind is Plus && left is String && right is String {
            base.push(SpecLiteral::String(left->String_0 + right->String_0)).onward()
        } else if kind.is_arithmetic_operator() {
            match (left, right) {
                (SpecLiteral::Number(a), SpecLiteral::Number(b)) => Outcome {
                    state: SpecInterpreter { waiting: true, ..base },
                    signal: SpecSignal::Arithmetic(operation(kind), a, b),
                },
                _ => mismatch,
            }
        } else if kind.is_comparison_operator() {
            match (left, right) {
                (SpecLiteral::Number(a), SpecLiteral::Number(b)) => base.push(
                    SpecLiteral::Boolean(compared(kind, a, b)),
                ).onward(),
                _ => mismatch,
            }
        } else if kind is EqualEqual {
            base.push(SpecLiteral::Boolean(left.equals(right))).onward()
        } else {
            base.push(SpecLiteral::Boolean(!left.equals(right))).onward()
        }
    }

    /// Decides `and` and `or` on the topmost value, the left operand: where
    /// it settles the result it stays as the result, else it is dropped and
    /// the right operand is evaluated.
    #[verifier::opaque]
    pub open spec fn logical(self, operator: SpecToken, right: SpecExpr) -> Outcome {
        if (operator.kind is Or) == self.top().is_truthy() {
            self.onward()
        } else {
            self.popped().schedule(SpecTask::Evaluate(right)).onward()
        }
    }

    /// Assigns the topmost value, which stays as the value of the
    /// assignment, or fails if the name is not bound.
    #[verifier::opaque]
    pub open spec fn assign(self, name: SpecToken) -> Outcome {
        if resolve(self.scopes, self.scope as int, name.lexeme) is Some {
            self.with_scopes(
                assigned(self.scopes, self.scope as int, name.lexeme, self.top()),
            ).onward()
        } else {
            self.fail(SpecError::runtime(name, DetailedErrorType::UndeclaredIdentifier))
        }
    }

    /// Takes one branch of an `if` by the topmost value. Without a branch to
    /// take the statement gives `nil`.
    #[verifier::opaque]
    pub open spec fn branch(self, first: SpecStmt, second: Option<SpecStmt>) -> Outcome {
        let base = self.popped();
        if self.top().is_truthy() {
            base.schedule(SpecTask::Execute(first)).onward()
        } else {
            match second {
                Some(other) => base.schedule(SpecTask::Execute(other)).onward(),
                None => base.push(SpecLiteral::Nil).onward(),
            }
        }
    }

    /// Goes round a `while` loop once more if the topmost value is truthy;
    /// else the loop ends and gives `nil`.
    #[verifier::opaque]
    pub open spec fn repeat(self, test: SpecExpr, body: SpecStmt) -> Outcome {
        let base = self.popped();
        if self.top().is_truthy() {
            base.schedule(SpecTask::Loop(test, body)).schedule(SpecTask::Evaluate(test)).schedule(
                SpecTask::Discard,
            ).schedule(SpecTask::Execute(body)).onward()
        } else {
            base.push(SpecLiteral::Nil).onward()
        }
    }

    /// Returns the topmost value: every task down to the topmost boundary is
    /// dropped, the caller's scope and values come back, and the value is
    /// pushed. Outside any call the run ends with the value.
    #[verifier::opaque]
    pub open spec fn unwind(self) -> Outcome {
        let value = self.top();
        let below = self.popped().values;
        let at = boundary(self.tasks);
        if 0 <= at < self.tasks.len() && self.tasks[at] is Boundary {
            let height = self.tasks[at]->Boundary_1;
            let kept = if height <= below.len() {
                below.take(height as int)
            } else {
                below
            };
            (SpecInterpreter {
                scope: self.tasks[at]->Boundary_0,
                tasks: self.tasks.take(at),
                values: kept.push(value),
                ..self
            }).onward()
        } else {
            self.finish(value)
        }
    }

    /// Calls a function that takes exactly these arguments. A host function
    /// is asked of the host. For a declared function a scope is opened inside
    /// the scope of its declaration, the parameters are bound to the
    /// arguments there, and the body is scheduled above a boundary.
    #[verifier::opaque]
    pub open spec fn call(self, function: SpecFunction, arguments: Seq<SpecLiteral>) -> Outcome {
        match function {
            SpecFunction::Native { name, .. } => Outcome {
                state: SpecInterpreter { waiting: true, ..self },
                signal: SpecSignal::Native(name, arguments),
            },
            SpecFunction::Lox { params, body, closure, .. } => (SpecInterpreter {
                scopes: bind(
                    enclosed(self.scopes, closure),
                    self.scopes.len() as int,
                    params,
                    arguments,
                    params.len() as int,
                ),
                scope: self.scopes.len() as usize,
                tasks: self.tasks.push(
                    SpecTask::Boundary(self.scope, self.values.len()),
                ) + plan(body),
                ..self
            }).onward(),
        }
    }

    /// Calls a value with arguments. The value must be a function, the scope
    /// of its declaration must exist, and it must take as many arguments as
    /// there are.
    #[verifier::opaque]
    pub open spec fn apply(
        self,
        callee: SpecLiteral,
        arguments: Seq<SpecLiteral>,
        paren: SpecToken,
    ) -> Outcome {
        match callee {
            SpecLiteral::Function(function) => {
                if function matches SpecFunction::Lox { closure, .. } && closure
                    >= self.scopes.len() {
                    self.fail(SpecError::runtime(paren, DetailedErrorType::NotCallable))
                } else if function.arity() != arguments.len() {
                    self.fail(SpecError::runtime(paren, DetailedErrorType::InvalidArity))
                } else {
                    self.call(function, arguments)
                }
            },
            _ => self.fail(SpecError::runtime(paren, DetailedErrorType::NotCallable)),
        }
    }

    /// Calls the value that lies below `count` arguments on top of the
    /// values, with them.
    #[verifier::opaque]
    pub open spec fn invoke(self, paren: SpecToken, count: nat) -> Outcome {
        let height = self.values.len();
        if height <= count {
            self.fail(SpecError::runtime(paren, DetailedErrorType::NotCallable))
        } else {
            (SpecInterpreter { values: self.values.take(height - count - 1), ..self }).apply(
                self.values[height - count - 1],
                self.values.subrange(height - count, height as int),
                paren,
            )
        }
    }

    /// One step: the topmost task is taken off and carried out. A machine
    /// that waits does nothing; one without a task ends its run with the
    /// topmost value.
    pub open spec fn step(self) -> Outcome {
        if self.waiting {
            Outcome { state: self, signal: SpecSignal::Waiting }
        } else if self.tasks.len() == 0 {
            self.finish(self.top())
        } else {
            let next = SpecInterpreter { tasks: self.tasks.drop_last(), ..self };
            match self.tasks.last() {
                SpecTask::Execute(statement) => next.execute(statement),
                SpecTask::Evaluate(expr) => next.evaluate(expr),
                SpecTask::Discard => next.popped().onward(),
                SpecTask::Print => Outcome {
                    state: next.popped().push(SpecLiteral::Nil),
                    signal: SpecSignal::Print(next.top()),
                },
                SpecTask::Define(name) => next.popped().with_scopes(
                    defined(next.scopes, next.scope as int, name.lexeme, next.top()),
                ).push(SpecLiteral::Nil).onward(),
                SpecTask::Branch(first, second) => next.branch(first, second),
                SpecTask::Loop(test, body) => next.repeat(test, body),
                SpecTask::Leave(scope) => (SpecInterpreter { scope, ..next }).push(
                    SpecLiteral::Nil,
                ).onward(),
                SpecTask::Return => next.unwind(),
                SpecTask::Boundary(scope, _) => (SpecInterpreter { scope, ..next }).push(
                    SpecLiteral::Nil,
                ).onward(),
                SpecTask::Assign(name) => next.assign(name),
                SpecTask::Unary(operator) => next.unary(operator),
                SpecTask::Binary(operator) => next.binary(operator),
                SpecTask::Logical(operator, right) => next.logical(operator, right),
                SpecTask::Invoke(paren, count) => next.invoke(paren, count),
            }
        }
    }

    /// Up to `budget` steps, ending early at the first signal other than
    /// [`SpecSignal::Continue`].
    pub open spec fn run(self, budget: nat) -> Outcome
        decreases budget,
    {
        if budget == 0 {
            self.onward()
        } else {
            let one = self.step();
            if one.signal is Continue {
                one.state.run((budget - 1) as nat)
            } else {
                one
            }
        }
    }
}

/// Binding a well-formed value keeps every bound value well formed.
pub proof fn lemma_defined_well_formed(
    scopes: Seq<SpecScope>,
    scope: int,
    name: Seq<char>,
    value: SpecLiteral,
)
    requires
        holds_well_formed(scopes),
        value.well_formed(),
        0 <= scope < scopes.len(),
    ensures
        holds_well_formed(defined(scopes, scope, name, value)),
        defined(scopes, scope, name, value).len() == scopes.len(),
{
    let after = defined(scopes, scope, name, value);
    assert forall|i: int, other: Seq<char>|
        0 <= i < after.len() && (#[trigger] after[i].values.contains_key(other)) implies after[i].values[other].well_formed() by {
        if i == scope && other == name {
        } else {
            assert(scopes[i].values.contains_key(other));
        }
    }
}

/// Opening a scope keeps every bound value well formed.
pub proof fn lemma_enclosed_well_formed(scopes: Seq<SpecScope>, parent: usize)
    requires
        holds_well_formed(scopes),
    ensures
        holds_well_formed(enclosed(scopes, parent)),
{
    let after = enclosed(scopes, parent);
    assert forall|i: int, other: Seq<char>|
        0 <= i < after.len() && (#[trigger] after[i].values.contains_key(other)) implies after[i].values[other].well_formed() by {
        if i < scopes.len() {
            assert(scopes[i].values.contains_key(other));
        }
    }
}

/// What a lookup finds among well-formed values is well formed.
pub proof fn lemma_fetched_well_formed(scopes: Seq<SpecScope>, scope: int, name: Seq<char>)
    requires
        holds_well_formed(scopes),
    ensures
        fetched(scopes, scope, name) matches Some(value) ==> value.well_formed(),
{
    crate::environment::lemma_resolve_bounds(scopes, scope, name);
    if resolve(scopes, scope, name) is Some {
        let found = resolve(scopes, scope, name)->Some_0;
        assert(scopes[found].values.contains_key(name));
    }
}

/// Tasks that are well formed among some scopes stay so among more.
pub proof fn lemma_tasks_among_more(tasks: Seq<SpecTask>, count: nat, more: nat)
    requires
        tasks_well_formed(tasks, count),
        count <= more,
    ensures
        tasks_well_formed(tasks, more),
{
    assert forall|i: int| 0 <= i < tasks.len() implies (#[trigger] tasks[i]).well_formed(more) by {
        assert(tasks[i].well_formed(count));
    }
}

/// Whenever a run ends, with a value or with an error, the machine is at
/// rest: the global scope is current again and nothing is left of the run.
/// An error is a runtime error on the line of its token; a `return` never
/// ends a run as an error.
pub proof fn lemma_done_at_rest(state: SpecInterpreter)
    ensures
        state.step().signal is Done ==> state.step().state == state.rest(),
        state.step().signal matches SpecSignal::Done(Err(error)) ==> error.kind is RuntimeError
            && error.line == error.token.line,
{
    reveal(SpecInterpreter::execute);
    reveal(SpecInterpreter::evaluate);
    reveal(SpecInterpreter::unary);
    reveal(SpecInterpreter::binary);
    reveal(SpecInterpreter::logical);
    reveal(SpecInterpreter::assign);
    reveal(SpecInterpreter::branch);
    reveal(SpecInterpreter::repeat);
    reveal(SpecInterpreter::unwind);
    reveal(SpecInterpreter::call);
    reveal(SpecInterpreter::apply);
    reveal(SpecInterpreter::invoke);
}

/// Reading a name that no scope binds ends the run with the error that the
/// name is not declared, at that name. So does assigning to it.
pub proof fn lemma_unbound_name(state: SpecInterpreter, name: SpecToken)
    requires
        resolve(state.scopes, state.scope as int, name.lexeme) is None,
    ensures
        state.evaluate(SpecExpr::Var(name)) == state.fail(
            SpecError::runtime(name, DetailedErrorType::UndeclaredIdentifier),
        ),
        state.assign(name) == state.fail(
            SpecError::runtime(name, DetailedErrorType::UndeclaredIdentifier),
        ),
{
    reveal(SpecInterpreter::evaluate);
    reveal(SpecInterpreter::assign);
}

/// Calling a value that is no function ends the run with the error that it
/// cannot be called; calling a function with another number of arguments
/// than it takes ends it with the error of the wrong arity. Both name the
/// closing parenthesis of the call.
pub proof fn lemma_bad_call(
    state: SpecInterpreter,
    callee: SpecLiteral,
    arguments: Seq<SpecLiteral>,
    paren: SpecToken,
)
    ensures
        !(callee is Function) ==> state.apply(callee, arguments, paren) == state.fail(
            SpecError::runtime(paren, DetailedErrorType::NotCallable),
        ),
        callee matches SpecLiteral::Function(function) && function.arity() != arguments.len()
            && (function matches SpecFunction::Lox { closure, .. } ==> closure
            < state.scopes.len()) ==> state.apply(callee, arguments, paren) == state.fail(
            SpecError::runtime(paren, DetailedErrorType::InvalidArity),
        ),
{
    reveal(SpecInterpreter::apply);
}

/// A call of a declared function runs in a scope of its own that lies
/// inside the scope of the declaration, whatever scope the caller is in,
/// and comes back to the caller's scope at the boundary.
pub proof fn lemma_call_is_lexical(
    state: SpecInterpreter,
    function: SpecFunction,
    arguments: Seq<SpecLiteral>,
)
    requires
        function is Lox,
    ensures
        ({
            let after = state.call(function, arguments).state;
            &&& after.scope == state.scopes.len() as usize
            &&& after.scopes.len() == state.scopes.len() + 1
            &&& after.scopes[state.scopes.len() as int].enclosing == Some(function->closure)
            &&& after.tasks.len() > state.tasks.len()
            &&& after.tasks[state.tasks.len() as int] == SpecTask::Boundary(
                state.scope,
                state.values.len(),
            )
        }),
{
    reveal(SpecInterpreter::call);
    let opened = enclosed(state.scopes, function->closure);
    lemma_bind_keeps(
        opened,
        state.scopes.len() as int,
        function->params,
        arguments,
        function->params.len() as int,
    );
}

/// Binding parameters in a scope changes neither the number of scopes nor
/// what any scope lies in.
pub proof fn lemma_bind_keeps(
    scopes: Seq<SpecScope>,
    scope: int,
    params: Seq<SpecToken>,
    arguments: Seq<SpecLiteral>,
    count: int,
)
    requires
        0 <= scope < scopes.len(),
    ensures
        bind(scopes, scope, params, arguments, count).len() == scopes.len(),
        forall|i: int|
            0 <= i < scopes.len() ==> (#[trigger] bind(
                scopes,
                scope,
                params,
                arguments,
                count,
            )[i]).enclosing == scopes[i].enclosing,
    decreases count,
{
    if count > 0 {
        lemma_bind_keeps(scopes, scope, params, arguments, count - 1);
    }
}

/// Whether every scope of `before` is still there in `after`, at its place
/// and inside the scope that it lay in.
pub open spec fn persists(before: Seq<SpecScope>, after: Seq<SpecScope>) -> bool {
    &&& before.len() <= after.len()
    &&& forall|i: int| 0 <= i < before.len() ==> (#[trigger] after[i]).enclosing == before[i].enclosing
}

/// No step removes a scope or moves it: a scope that a closure holds on to
/// is there for as long as the interpreter is.
pub proof fn lemma_scopes_persist(state: SpecInterpreter)
    requires
        state.scope < state.scopes.len(),
    ensures
        persists(state.scopes, state.step().state.scopes),
{
    reveal(SpecInterpreter::execute);
    reveal(SpecInterpreter::evaluate);
    reveal(SpecInterpreter::unary);
    reveal(SpecInterpreter::binary);
    reveal(SpecInterpreter::logical);
    reveal(SpecInterpreter::assign);
    reveal(SpecInterpreter::branch);
    reveal(SpecInterpreter::repeat);
    reveal(SpecInterpreter::unwind);
    reveal(SpecInterpreter::call);
    reveal(SpecInterpreter::apply);
    reveal(SpecInterpreter::invoke);
    if !state.waiting && state.tasks.len() > 0 {
        match state.tasks.last() {
            SpecTask::Assign(name) => {
                crate::environment::lemma_resolve_bounds(
                    state.scopes,
                    state.scope as int,
                    name.lexeme,
                );
            },
            SpecTask::Invoke(_, count) => {
                let height = state.values.len();
                if height > count {
                    match state.values[height - count - 1] {
                        SpecLiteral::Function(function) => {
                            match function {
                                SpecFunction::Lox { params, closure, .. } => {
                                    let opened = enclosed(state.scopes, closure);
                                    lemma_bind_keeps(
                                        opened,
                                        state.scopes.len() as int,
                                        params,
                                        state.values.subrange(height - count, height as int),
                                        params.len() as int,
                                    );
                                },
                                _ => {},
                            }
                        },
                        _ => {},
                    }
                }
            },
            _ => {},
        }
    }
}

/// The declaration of a function binds its name, in the scope of the
/// declaration, to a function that holds on to that scope.
pub proof fn lemma_declaration_captures(
    state: SpecInterpreter,
    name: SpecToken,
    params: Seq<SpecToken>,
    body: Seq<SpecStmt>,
)
    requires
        state.scope < state.scopes.len(),
    ensures
        fetched(
            state.execute(SpecStmt::Function(name, params, body)).state.scopes,
            state.scope as int,
            name.lexeme,
        ) == Some(
            SpecLiteral::Function(
                SpecFunction::Lox {
                    arity: params.len() as usize,
                    params,
                    body,
                    closure: state.scope,
                },
            ),
        ),
{
    reveal(SpecInterpreter::execute);
}

} // verus!
