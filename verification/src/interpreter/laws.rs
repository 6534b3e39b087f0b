//! What holds of every run.

use crate::error::Diagnostic;
use crate::interpreter::interpreter::Interpreter;
use crate::interpreter::semantics::{
    eval_number, eval_text, execute, run_spec, Environment, Outcome, State,
};
use crate::interpreter::types::Value;
use crate::parser::expressions::{
    SpecNumber, SpecNumberKind, SpecStatement, SpecStatementKind, SpecText, SpecTextKind,
};
use crate::text::lemma_parse_render;
use vstd::prelude::*;

verus! {

/// The state that a run has reached when it has executed the first `k` statements.
pub open spec fn state_after(state: State, statements: Seq<SpecStatement>, k: int) -> State {
    run_spec(state, statements.take(k)).state
}

/// Whether the statement at index `k` takes the state after `k` statements to
/// the state after `k + 1`.
pub open spec fn steps(state: State, statements: Seq<SpecStatement>, k: int) -> bool {
    execute(state_after(state, statements, k), statements[k]) == Ok::<State, Diagnostic>(
        state_after(state, statements, k + 1),
    )
}

/// Whether a name is bound in both environments or in neither, and to the
/// same value.
pub open spec fn unchanged(before: Environment, after: Environment, name: Seq<char>) -> bool {
    before.contains_key(name) == after.contains_key(name) && (before.contains_key(name)
        ==> before[name] == after[name])
}

/// Whether a statement binds the name.
pub open spec fn assigns(statement: SpecStatement, name: Seq<char>) -> bool {
    match statement.expression {
        SpecStatementKind::TextAssignment(id, _) => id.var_name == name,
        SpecStatementKind::NumberAssignment(id, _) => id.var_name == name,
        SpecStatementKind::InputStatement(id) => id.var_name == name,
        SpecStatementKind::OutputStatement(_) => false,
    }
}

/// The number of `Output` statements in a program.
pub open spec fn outputs(statements: Seq<SpecStatement>) -> nat
    decreases statements.len(),
{
    if statements.len() == 0 {
        0
    } else {
        outputs(statements.drop_last()) + if statements.last().expression is OutputStatement {
            1nat
        } else {
            0nat
        }
    }
}

/// A run that has ended, taken one statement further: a run that failed stays
/// as it is, and one that did not executes the statement.
pub open spec fn continued(run: Outcome, statement: SpecStatement) -> Outcome {
    if run.error is Some {
        run
    } else {
        match execute(run.state, statement) {
            Ok(next) => Outcome { state: next, executed: run.executed + 1, error: None },
            Err(d) => Outcome { state: run.state, executed: run.executed, error: Some(d) },
        }
    }
}

/// Running a program with one more statement at its end is running the
/// program and then, if it did not fail, the statement.
pub proof fn lemma_run_push(state: State, statements: Seq<SpecStatement>, last: SpecStatement)
    ensures
        run_spec(state, statements.push(last)) == continued(run_spec(state, statements), last),
    decreases statements.len(),
{
    let longer = statements.push(last);
    reveal_with_fuel(run_spec, 2);
    if statements.len() == 0 {
        assert(longer.drop_first() =~= Seq::<SpecStatement>::empty());
        assert(longer[0] == last);
    } else {
        assert(longer[0] == statements[0]);
        assert(longer.drop_first() =~= statements.drop_first().push(last));
        match execute(state, statements[0]) {
            Ok(next) => {
                lemma_run_push(next, statements.drop_first(), last);
            },
            Err(_) => {},
        }
    }
}

/// A run stops at its first failure: it has executed all statements if and
/// only if none failed, and otherwise the statement behind those that it
/// executed is the one that failed, in the state that the run ended in.
pub proof fn law_run_stops_at_first_failure(state: State, statements: Seq<SpecStatement>)
    ensures
        run_spec(state, statements).executed <= statements.len(),
        run_spec(state, statements).error is None <==> run_spec(state, statements).executed
            == statements.len(),
        run_spec(state, statements).error matches Some(d) ==> execute(
            run_spec(state, statements).state,
            statements[run_spec(state, statements).executed as int],
        ) == Err::<State, _>(d),
        run_spec(state, statements).state == state_after(
            state,
            statements,
            run_spec(state, statements).executed as int,
        ),
    decreases statements.len(),
{
    if statements.len() == 0 {
        assert(statements.take(0) =~= statements);
    } else {
        match execute(state, statements[0]) {
            Ok(next) => {
                let rest = statements.drop_first();
                law_run_stops_at_first_failure(next, rest);
                let k = run_spec(next, rest).executed as int;
                assert(statements.take(k + 1).drop_first() =~= rest.take(k));
                assert(statements.take(k + 1)[0] == statements[0]);
                if k < rest.len() {
                    assert(rest[k] == statements[k + 1]);
                }
            },
            Err(_) => {
                assert(statements.take(0) =~= Seq::<SpecStatement>::empty());
            },
        }
    }
}

/// A program without `Input` that runs to its end executes each of its
/// statements once, in the order of the source, and does nothing else: the
/// statement at index k takes the state after k statements to the state after k + 1,
/// no line of input is taken, one line is written for each `Output`, and a
/// variable that no statement binds is as it was.
pub proof fn law_run_executes_every_statement(state: State, statements: Seq<SpecStatement>)
    requires
        forall|i: int| 0 <= i < statements.len() ==> !(statements[i].expression is InputStatement),
        run_spec(state, statements).error is None,
    ensures
        run_spec(state, statements).executed == statements.len(),
        state_after(state, statements, 0) == state,
        state_after(state, statements, statements.len() as int) == run_spec(
            state,
            statements,
        ).state,
        forall|k: int| 0 <= k < statements.len() ==> #[trigger] steps(state, statements, k),
        run_spec(state, statements).state.unread == state.unread,
        run_spec(state, statements).state.written.len() == state.written.len() + outputs(
            statements,
        ),
        forall|name: Seq<char>|
            (forall|i: int| 0 <= i < statements.len() ==> !assigns(statements[i], name)) ==> (
            unchanged(state.env, run_spec(state, statements).state.env, name)),
{
    law_run_stops_at_first_failure(state, statements);
    assert(statements.take(0) =~= Seq::<SpecStatement>::empty());
    assert(statements.take(statements.len() as int) =~= statements);
    assert forall|k: int| 0 <= k < statements.len() implies #[trigger] steps(
        state,
        statements,
        k,
    ) by {
        lemma_prefix_runs(state, statements, k + 1);
        lemma_prefix_runs(state, statements, k);
        assert(statements.take(k + 1) =~= statements.take(k).push(statements[k]));
        lemma_run_push(state, statements.take(k), statements[k]);
    }
    lemma_run_effects(state, statements);
}

/// Where a program runs to its end, each of its prefixes does.
pub proof fn lemma_prefix_runs(state: State, statements: Seq<SpecStatement>, k: int)
    requires
        0 <= k <= statements.len(),
        run_spec(state, statements).error is None,
    ensures
        run_spec(state, statements.take(k)).error is None,
    decreases statements.len() - k,
{
    if k == statements.len() {
        assert(statements.take(k) =~= statements);
    } else {
        lemma_prefix_runs(state, statements, k + 1);
        assert(statements.take(k + 1) =~= statements.take(k).push(statements[k]));
        lemma_run_push(state, statements.take(k), statements[k]);
    }
}

/// What a program without `Input` changes, whether it runs to its end or
/// fails: it takes no line of input, it writes one line for each `Output` that
/// it executes, and it leaves a variable that no statement binds as it was.
pub proof fn lemma_run_effects(state: State, statements: Seq<SpecStatement>)
    requires
        forall|i: int| 0 <= i < statements.len() ==> !(statements[i].expression is InputStatement),
    ensures
        run_spec(state, statements).state.unread == state.unread,
        run_spec(state, statements).state.written.len() == state.written.len() + outputs(
            statements.take(run_spec(state, statements).executed as int),
        ),
        run_spec(state, statements).error is None ==> run_spec(
            state,
            statements,
        ).state.written.len() == state.written.len() + outputs(statements),
        forall|name: Seq<char>|
            (forall|i: int| 0 <= i < statements.len() ==> !assigns(statements[i], name)) ==> (
            unchanged(state.env, run_spec(state, statements).state.env, name)),
    decreases statements.len(),
{
    law_run_stops_at_first_failure(state, statements);
    if statements.len() == 0 {
        assert(statements.take(0) =~= statements);
    } else {
        let front = statements.drop_last();
        let last = statements.last();
        assert(statements =~= front.push(last));
        lemma_run_push(state, front, last);
        lemma_run_effects(state, front);
        law_run_stops_at_first_failure(state, front);
        let before = run_spec(state, front);
        let whole = run_spec(state, statements);
        let k = before.executed as int;
        if before.error is Some {
            assert(statements.take(k) =~= front.take(k));
        } else {
            assert(front.take(k) =~= front);
            match execute(before.state, last) {
                Ok(next) => {
                    assert(statements.take(k + 1) =~= statements);
                },
                Err(_) => {
                    assert(statements.take(k) =~= front);
                },
            }
        }
        assert forall|name: Seq<char>|
            (forall|i: int| 0 <= i < statements.len() ==> !assigns(statements[i], name)) implies (
            unchanged(state.env, whole.state.env, name)) by {
            assert forall|i: int| 0 <= i < front.len() implies !assigns(front[i], name) by {
                assert(front[i] == statements[i]);
            }
            assert(!assigns(statements[statements.len() - 1], name));
            assert(!(statements[statements.len() - 1].expression is InputStatement));
            assert(unchanged(state.env, before.state.env, name));
        }
        if whole.error is None {
            assert(statements.take(statements.len() as int) =~= statements);
        }
    }
}

/// Whether `start..end` is the range of a number expression, of one of the
/// expressions that it is made of, or of a variable reference in it.
pub open spec fn number_has_span(e: SpecNumber, start: int, end: int) -> bool
    decreases e,
{
    ||| e.start == start && e.end == end
    ||| match e.expression {
        SpecNumberKind::Value(_) => false,
        SpecNumberKind::Identifier(id) => id.start == start && id.end == end,
        SpecNumberKind::Add(a, b) => number_has_span(*a, start, end) || number_has_span(
            *b,
            start,
            end,
        ),
        SpecNumberKind::Sub(a, b) => number_has_span(*a, start, end) || number_has_span(
            *b,
            start,
            end,
        ),
        SpecNumberKind::Mult(a, b) => number_has_span(*a, start, end) || number_has_span(
            *b,
            start,
            end,
        ),
        SpecNumberKind::Div(a, b) => number_has_span(*a, start, end) || number_has_span(
            *b,
            start,
            end,
        ),
    }
}

/// Whether `start..end` is the range of a text expression, of one of the
/// expressions that it is made of, or of a variable reference in it.
pub open spec fn text_has_span(e: SpecText, start: int, end: int) -> bool
    decreases e,
{
    ||| e.start == start && e.end == end
    ||| match e.expression {
        SpecTextKind::Value(_) => false,
        SpecTextKind::Identifier(id) => id.start == start && id.end == end,
        SpecTextKind::Concat(a, b) => text_has_span(*a, start, end) || text_has_span(
            *b,
            start,
            end,
        ),
    }
}

/// Whether `start..end` is the range of a statement, of the name in it, or of
/// an expression in it.
pub open spec fn statement_has_span(statement: SpecStatement, start: int, end: int) -> bool {
    ||| statement.start == start && statement.end == end
    ||| match statement.expression {
        SpecStatementKind::TextAssignment(_, value) => text_has_span(value, start, end),
        SpecStatementKind::NumberAssignment(_, value) => number_has_span(value, start, end),
        SpecStatementKind::InputStatement(_) => false,
        SpecStatementKind::OutputStatement(id) => id.start == start && id.end == end,
    }
}

/// A number expression that fails to evaluate fails at a range of its own:
/// at a variable reference that has no number to give, or at a division by
/// zero.
pub proof fn law_number_error_in_expression(env: Environment, line: int, e: SpecNumber)
    ensures
        eval_number(env, line, e) matches Err(d) ==> number_has_span(e, d.start, d.end),
    decreases e,
{
    match e.expression {
        SpecNumberKind::Value(_) => {},
        SpecNumberKind::Identifier(_) => {},
        SpecNumberKind::Add(a, b) => {
            law_number_error_in_expression(env, line, *a);
            law_number_error_in_expression(env, line, *b);
        },
        SpecNumberKind::Sub(a, b) => {
            law_number_error_in_expression(env, line, *a);
            law_number_error_in_expression(env, line, *b);
        },
        SpecNumberKind::Mult(a, b) => {
            law_number_error_in_expression(env, line, *a);
            law_number_error_in_expression(env, line, *b);
        },
        SpecNumberKind::Div(a, b) => {
            law_number_error_in_expression(env, line, *a);
            law_number_error_in_expression(env, line, *b);
        },
    }
}

/// A text expression that fails to evaluate fails at a variable reference in
/// it, and only because the variable is not set.
pub proof fn law_text_error_in_expression(env: Environment, e: SpecText)
    ensures
        eval_text(env, e) matches Err(d) ==> text_has_span(e, d.start, d.end),
    decreases e,
{
    match e.expression {
        SpecTextKind::Value(_) => {},
        SpecTextKind::Identifier(_) => {},
        SpecTextKind::Concat(a, b) => {
            law_text_error_in_expression(env, *a);
            law_text_error_in_expression(env, *b);
        },
    }
}

/// A run that fails points into the statement that failed: the error has
/// the range of that statement, of its name or of an expression in it.
pub proof fn law_run_error_in_statement(state: State, statements: Seq<SpecStatement>)
    ensures
        run_spec(state, statements).error matches Some(d) ==> run_spec(state, statements).executed
            < statements.len() && statement_has_span(
            statements[run_spec(state, statements).executed as int],
            d.start,
            d.end,
        ),
{
    law_run_stops_at_first_failure(state, statements);
    let run = run_spec(state, statements);
    if let Some(d) = run.error {
        let failed = statements[run.executed as int];
        match failed.expression {
            SpecStatementKind::TextAssignment(_, value) => {
                law_text_error_in_expression(run.state.env, value);
            },
            SpecStatementKind::NumberAssignment(_, value) => {
                law_number_error_in_expression(run.state.env, failed.line, value);
            },
            SpecStatementKind::InputStatement(_) => {},
            SpecStatementKind::OutputStatement(_) => {},
        }
    }
}

/// A number that was written out as text reads back as the same number: a
/// text variable that holds what `Output` writes for a number coerces to that
/// number.
pub proof fn law_written_number_reads_back(v: i64)
    ensures
        Value::Text(Value::Number(v).render()).as_number() == Some(v),
{
    lemma_parse_render(v);
}

/// No statement unsets a variable: a name that is bound when a run starts is
/// bound when it ends, and so is each name that a statement of the run bound.
pub proof fn law_run_never_removes(state: State, statements: Seq<SpecStatement>, name: Seq<char>)
    ensures
        state.env.contains_key(name) ==> run_spec(state, statements).state.env.contains_key(name),
        forall|k: int|
            0 <= k < run_spec(state, statements).executed && k < statements.len() && assigns(
                #[trigger] statements[k],
                name,
            ) ==> run_spec(state, statements).state.env.contains_key(name),
    decreases statements.len(),
{
    law_run_stops_at_first_failure(state, statements);
    if statements.len() > 0 {
        match execute(state, statements[0]) {
            Ok(next) => {
                let rest = statements.drop_first();
                law_run_never_removes(next, rest, name);
                law_run_stops_at_first_failure(next, rest);
                assert forall|k: int|
                    0 <= k < run_spec(state, statements).executed && k < statements.len()
                        && assigns(#[trigger] statements[k], name) implies run_spec(
                    state,
                    statements,
                ).state.env.contains_key(name) by {
                    if k > 0 {
                        assert(rest[k - 1] == statements[k]);
                    }
                }
            },
            Err(_) => {},
        }
    }
}

/// Running the same statements twice, each time from an interpreter in which
/// no variable is set and against the same lines of input, ends in the same
/// way both times: the same lines written, the same variables, the same error
/// or none.
pub proof fn law_replay_gives_identical_output(
    first: Interpreter,
    second: Interpreter,
    statements: Seq<SpecStatement>,
    input: Seq<Seq<char>>,
)
    requires
        first@ == Map::<Seq<char>, Value>::empty(),
        second@ == Map::<Seq<char>, Value>::empty(),
    ensures
        run_spec(State { env: first@, unread: input, written: Seq::empty() }, statements)
            == run_spec(State { env: second@, unread: input, written: Seq::empty() }, statements),
{
}

} // verus!
