//! What a program means: each statement as a function on the variables and
//! on the lines that were read and written.

use crate::error::Diagnostic;
use crate::interpreter::types::Value;
use crate::parser::expressions::{
    SpecIdentifier, SpecNumber, SpecNumberKind, SpecStatement, SpecStatementKind, SpecText,
    SpecTextKind,
};
use crate::text::without_terminator;
use vstd::prelude::*;

verus! {

/// The variables: one flat mapping from names to values.
pub type Environment = Map<Seq<char>, Value>;

/// The error for a variable that no statement has set, at the place `at`.
pub open spec fn unset(at: SpecIdentifier, name: Seq<char>) -> Diagnostic {
    Diagnostic {
        line: at.line,
        start: at.start,
        end: at.end,
        msg: "Variable "@ + name + " not set!"@,
    }
}

/// The value of a variable, which must have been set.
pub open spec fn lookup(env: Environment, at: SpecIdentifier, name: Seq<char>) -> Result<
    Value,
    Diagnostic,
> {
    if env.contains_key(name) {
        Ok(env[name])
    } else {
        Err(unset(at, name))
    }
}

/// The 64-bit two's complement number that an integer wraps around to.
pub open spec fn wrap(v: int) -> i64 {
    let r = v % 0x1_0000_0000_0000_0000;
    if r > i64::MAX {
        (r - 0x1_0000_0000_0000_0000) as i64
    } else {
        r as i64
    }
}

/// The quotient rounded towards zero. The divisor is not zero.
pub open spec fn truncated_quotient(x: int, y: int) -> int {
    if x >= 0 && y > 0 {
        x / y
    } else if x < 0 && y < 0 {
        (-x) / (-y)
    } else if x < 0 {
        -((-x) / y)
    } else {
        -(x / (-y))
    }
}

/// Both results, or the first error: the left side is evaluated first.
pub open spec fn both<T>(left: Result<T, Diagnostic>, right: Result<T, Diagnostic>) -> Result<
    (T, T),
    Diagnostic,
> {
    match left {
        Err(d) => Err(d),
        Ok(x) => match right {
            Err(d) => Err(d),
            Ok(y) => Ok((x, y)),
        },
    }
}

/// The value of a number expression in a statement on line `line`.
///
/// Sums, differences and products wrap around. A quotient rounds towards
/// zero, and wraps around in the one case where it does not fit; a division
/// by zero is an error at the place of the division.
pub open spec fn eval_number(env: Environment, line: int, e: SpecNumber) -> Result<
    i64,
    Diagnostic,
>
    decreases e,
{
    match e.expression {
        SpecNumberKind::Value(v) => Ok(v),
        SpecNumberKind::Identifier(id) => match lookup(env, id, id.var_name) {
            Err(d) => Err(d),
            Ok(value) => match value.as_number() {
                Some(v) => Ok(v),
                None => Err(
                    Diagnostic {
                        line,
                        start: id.start,
                        end: id.end,
                        msg: "Could not convert Text variable "@ + id.var_name
                            + " to number!"@,
                    },
                ),
            },
        },
        SpecNumberKind::Add(a, b) => match both(
            eval_number(env, line, *a),
            eval_number(env, line, *b),
        ) {
            Err(d) => Err(d),
            Ok((x, y)) => Ok(wrap(x + y)),
        },
        SpecNumberKind::Sub(a, b) => match both(
            eval_number(env, line, *a),
            eval_number(env, line, *b),
        ) {
            Err(d) => Err(d),
            Ok((x, y)) => Ok(wrap(x - y)),
        },
        SpecNumberKind::Mult(a, b) => match both(
            eval_number(env, line, *a),
            eval_number(env, line, *b),
        ) {
            Err(d) => Err(d),
            Ok((x, y)) => Ok(wrap(x * y)),
        },
        SpecNumberKind::Div(a, b) => match both(
            eval_number(env, line, *a),
            eval_number(env, line, *b),
        ) {
            Err(d) => Err(d),
            Ok((x, y)) => if y == 0 {
                Err(
                    Diagnostic {
                        line: e.line,
                        start: e.start,
                        end: e.end,
                        msg: "Division by zero!"@,
                    },
                )
            } else {
                Ok(wrap(truncated_quotient(x as int, y as int)))
            },
        },
    }
}

/// Whether a text ends in the character that delimits a variable reference.
pub open spec fn ends_with_dollar(s: Seq<char>) -> bool {
    s.len() > 0 && s.last() == '$'
}

/// Two texts side by side: glued together if `glue` holds, and with one space
/// between them if not.
pub open spec fn join(left: Seq<char>, right: Seq<char>, glue: bool) -> Seq<char> {
    if glue {
        left + right
    } else {
        left + seq![' '] + right
    }
}

/// The value of a text expression.
///
/// The two sides of a concatenation are glued together if either side is a
/// variable reference, or starts with one, or if the text of the left side ends
/// in `$`. Otherwise they are two words, and a space goes between them.
pub open spec fn eval_text(env: Environment, e: SpecText) -> Result<Seq<char>, Diagnostic>
    decreases e,
{
    match e.expression {
        SpecTextKind::Value(s) => Ok(s),
        SpecTextKind::Identifier(id) => match lookup(env, id, id.var_name) {
            Err(d) => Err(d),
            Ok(value) => Ok(value.render()),
        },
        SpecTextKind::Concat(a, b) => match both(eval_text(env, *a), eval_text(env, *b)) {
            Err(d) => Err(d),
            Ok((left, right)) => Ok(
                join(
                    left,
                    right,
                    a.expression.is_identifier() || b.expression.is_identifier()
                        || ends_with_dollar(left),
                ),
            ),
        },
    }
}

/// The variables after a line was read for `Input`: the variable holds the
/// line without its terminator, and keeps what else the line ended in. A line
/// that could not be read is an error at the place of the statement.
pub open spec fn store_input(
    env: Environment,
    statement: SpecStatement,
    name: Seq<char>,
    line: Option<Seq<char>>,
) -> Result<Environment, Diagnostic> {
    match line {
        Some(s) => Ok(env.insert(name, Value::Text(without_terminator(s)))),
        None => Err(
            Diagnostic {
                line: statement.line,
                start: statement.start,
                end: statement.end,
                msg: "Error while reading input!"@,
            },
        ),
    }
}

/// What a run has reached: the variables, the lines of input that are still
/// unread, and the lines that were written.
pub struct State {
    pub env: Environment,
    pub unread: Seq<Seq<char>>,
    pub written: Seq<Seq<char>>,
}

/// The state after one statement, or the error that it fails with.
///
/// An assignment evaluates its expression and binds the name, whatever it held
/// before. `Input` takes the next unread line; that none is left is a failed
/// read. `Output` writes the value of the variable as one line.
pub open spec fn execute(state: State, statement: SpecStatement) -> Result<State, Diagnostic> {
    match statement.expression {
        SpecStatementKind::TextAssignment(id, value) => match eval_text(state.env, value) {
            Err(d) => Err(d),
            Ok(s) => Ok(State { env: state.env.insert(id.var_name, Value::Text(s)), ..state }),
        },
        SpecStatementKind::NumberAssignment(id, value) => match eval_number(
            state.env,
            statement.line,
            value,
        ) {
            Err(d) => Err(d),
            Ok(v) => Ok(State { env: state.env.insert(id.var_name, Value::Number(v)), ..state }),
        },
        SpecStatementKind::InputStatement(id) => match store_input(
            state.env,
            statement,
            id.var_name,
            if state.unread.len() > 0 {
                Some(state.unread[0])
            } else {
                None
            },
        ) {
            Err(d) => Err(d),
            Ok(env) => Ok(State { env, unread: state.unread.drop_first(), ..state }),
        },
        SpecStatementKind::OutputStatement(id) => match lookup(state.env, id, id.var_name) {
            Err(d) => Err(d),
            Ok(value) => Ok(State { written: state.written.push(value.render()), ..state }),
        },
    }
}

/// A state cut down to what one statement can see of it: the variables, the
/// line that is next to be read, if `line` holds one, and nothing written yet.
pub open spec fn seen_by_statement(state: State, line: Option<Seq<char>>) -> State {
    State {
        env: state.env,
        unread: match line {
            Some(s) => seq![s],
            None => Seq::empty(),
        },
        written: Seq::empty(),
    }
}

/// A statement sees no more of the state than that: given the line that is
/// next to be read, where it reads one, it fails as it fails on the whole
/// state, and it changes the variables alike. What it writes comes behind
/// what was written before, and the line it reads is the only one it takes.
pub proof fn lemma_execute_is_local(
    state: State,
    statement: SpecStatement,
    line: Option<Seq<char>>,
)
    requires
        statement.expression is InputStatement ==> line == if state.unread.len() > 0 {
            Some(state.unread[0])
        } else {
            None
        },
    ensures
        match execute(seen_by_statement(state, line), statement) {
            Ok(next) => execute(state, statement) == Ok::<State, Diagnostic>(
                State {
                    env: next.env,
                    unread: if statement.expression is InputStatement {
                        state.unread.drop_first()
                    } else {
                        state.unread
                    },
                    written: state.written + next.written,
                },
            ),
            Err(d) => execute(state, statement) == Err::<State, Diagnostic>(d),
        },
{
    match statement.expression {
        SpecStatementKind::OutputStatement(id) => {
            if let Ok(value) = lookup(state.env, id, id.var_name) {
                assert(state.written + Seq::<Seq<char>>::empty().push(value.render())
                    =~= state.written.push(value.render()));
            }
        },
        _ => {
            assert(state.written + Seq::<Seq<char>>::empty() =~= state.written);
        },
    }
}

/// How a run ended: the state that it reached, the number of statements that
/// it executed, and the error that stopped it, if one did.
pub struct Outcome {
    pub state: State,
    pub executed: nat,
    pub error: Option<Diagnostic>,
}

/// The statements one after the other, from the first on. The first one that
/// fails stops the run, and leaves the state as it found it.
pub open spec fn run_spec(state: State, statements: Seq<SpecStatement>) -> Outcome
    decreases statements.len(),
{
    if statements.len() == 0 {
        Outcome { state, executed: 0, error: None }
    } else {
        match execute(state, statements[0]) {
            Err(d) => Outcome { state, executed: 0, error: Some(d) },
            Ok(next) => {
                let rest = run_spec(next, statements.drop_first());
                Outcome { state: rest.state, executed: rest.executed + 1, error: rest.error }
            },
        }
    }
}

} // verus!
