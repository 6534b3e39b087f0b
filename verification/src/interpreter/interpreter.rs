use crate::error::CodeError;
use crate::interpreter::semantics::{
    ends_with_dollar, eval_number, eval_text, execute, join, lemma_execute_is_local, lookup,
    run_spec, store_input, truncated_quotient, wrap, Environment, State,
};
use crate::interpreter::types::{RuntimeTypes, Value};
use crate::parser::expressions::{
    statement_views, Expression, ExpressionTypes, IdentifierExpression, NumberExpression,
    NumberExpressionTypes, TextExpression, TextExpressionTypes,
};
use crate::text::{concat3, strip_line_end};
use vstd::hash_map::StringHashMap;
use vstd::prelude::*;
use vstd::string::*;

verus! {

/// The lines of a vector as sequences of characters.
pub open spec fn lines(v: Seq<String>) -> Seq<Seq<char>> {
    v.map_values(|s: String| s@)
}

/// The sum of two numbers, wrapping around.
pub fn wrapping_sum(x: i64, y: i64) -> (r: i64)
    ensures
        r == wrap(x + y),
{
    x.wrapping_add(y)
}

/// The difference of two numbers, wrapping around.
pub fn wrapping_difference(x: i64, y: i64) -> (r: i64)
    ensures
        r == wrap(x - y),
{
    x.wrapping_sub(y)
}

/// The product of two numbers, wrapping around.
pub fn wrapping_product(x: i64, y: i64) -> (r: i64)
    ensures
        r == wrap(x * y),
{
    x.wrapping_mul(y)
}

/// The quotient of two numbers, rounded towards zero, or nothing for a
/// divisor of zero. The one quotient that does not fit wraps around.
pub fn wrapping_quotient(x: i64, y: i64) -> (r: Option<i64>)
    ensures
        r == if y == 0 {
            None
        } else {
            Some(wrap(truncated_quotient(x as int, y as int)))
        },
{
    if y == 0 {
        None
    } else {
        match x.checked_div(y) {
            Some(q) => Some(q),
            None => {
                assert(x == i64::MIN && y == -1) by (nonlinear_arith)
                    requires
                        y != 0,
                        i64::MIN <= x <= i64::MAX,
                        i64::MIN <= y <= i64::MAX,
                        truncated_quotient(x as int, y as int) < i64::MIN || truncated_quotient(
                            x as int,
                            y as int,
                        ) > i64::MAX,
                ;
                Some(i64::MIN)
            },
        }
    }
}

/// Whether a text ends in `$`.
pub fn has_dollar_at_end(s: &str) -> (r: bool)
    ensures
        r == ends_with_dollar(s@),
{
    let n: usize = s.unicode_len();
    n > 0 && s.get_char(n - 1) == '$'
}

/// Two texts side by side, glued together or with a space between them.
pub fn join_texts(left: String, right: &str, glue: bool) -> (r: String)
    ensures
        r@ == join(left@, right@, glue),
{
    let mut r = left;
    if !glue {
        proof {
            reveal_strlit(" ");
        }
        r.append(" ");
        assert(" "@ =~= seq![' ']);
    }
    r.append(right);
    r
}

/// Whether a statement reads a line of input, which the host has to have
/// ready when the statement is executed.
pub fn reads_input(statement: &Expression) -> (r: bool)
    ensures
        r == (statement@.expression is InputStatement),
{
    match statement.get_expression() {
        ExpressionTypes::InputStatement(_) => true,
        _ => false,
    }
}

/// The variables of a running program.
pub struct Interpreter {
    variables: StringHashMap<RuntimeTypes>,
}

impl View for Interpreter {
    type V = Environment;

    /// The names that are set, each with its value.
    closed spec fn view(&self) -> Environment {
        self.variables@.map_values(|v: RuntimeTypes| v@)
    }
}

impl Interpreter {
    /// An interpreter in which no variable is set.
    pub fn new() -> (r: Self)
        ensures
            r@ == Map::<Seq<char>, Value>::empty(),
    {
        let r = Interpreter { variables: StringHashMap::new() };
        assert(r@ =~= Map::<Seq<char>, Value>::empty());
        r
    }

    /// Executes the statements in order against the lines of `input`, and
    /// appends each line that is written to `output`. The first statement that
    /// fails ends the run.
    pub fn run(
        &mut self,
        parsed_expressions: Vec<Expression>,
        input: &Vec<String>,
        output: &mut Vec<String>,
    ) -> (r: Result<(), CodeError>)
        ensures
            ({
                let outcome = run_spec(
                    State {
                        env: old(self)@,
                        unread: lines(input@),
                        written: lines(old(output)@),
                    },
                    statement_views(parsed_expressions@),
                );
                &&& final(self)@ == outcome.state.env
                &&& lines(final(output)@) == outcome.state.written
                &&& match r {
                    Ok(()) => outcome.error is None,
                    Err(e) => outcome.error == Some(e@),
                }
            }),
    {
        let ghost statements = statement_views(parsed_expressions@);
        let ghost start = State {
            env: self@,
            unread: lines(input@),
            written: lines(output@),
        };
        let mut i: usize = 0;
        let mut next: usize = 0;
        assert(statements.skip(0) =~= statements);
        assert(lines(input@).skip(0) =~= lines(input@));
        while i < parsed_expressions.len()
            invariant
                statements == statement_views(parsed_expressions@),
                start == (State {
                    env: old(self)@,
                    unread: lines(input@),
                    written: lines(old(output)@),
                }),
                i <= parsed_expressions@.len(),
                next <= input@.len(),
                ({
                    let here = run_spec(
                        State {
                            env: self@,
                            unread: lines(input@).skip(next as int),
                            written: lines(output@),
                        },
                        statements.skip(i as int),
                    );
                    let whole = run_spec(start, statements);
                    whole.state == here.state && whole.error == here.error
                }),
            decreases parsed_expressions@.len() - i,
        {
            let expression = &parsed_expressions[i];
            let ghost state = State {
                env: self@,
                unread: lines(input@).skip(next as int),
                written: lines(output@),
            };
            let ghost rest = statements.skip(i as int);
            assert(rest[0] == expression@);
            assert(rest.drop_first() =~= statements.skip(i + 1));
            let reads = reads_input(expression);
            let line = if reads && next < input.len() {
                Some(input[next].clone())
            } else {
                None
            };
            let ghost given: Option<Seq<char>> = if reads && next < input@.len() {
                Some(input@[next as int]@)
            } else {
                None
            };
            proof {
                assert(state.unread.len() > 0 ==> state.unread[0] == input@[next as int]@);
                lemma_execute_is_local(state, expression@, given);
            }
            match self.step(expression, line) {
                Err(e) => {
                    return Err(e);
                },
                Ok(written) => {
                    if reads {
                        assert(state.unread.drop_first() =~= lines(input@).skip(next + 1));
                        next = next + 1;
                    }
                    match written {
                        Some(text) => {
                            assert(lines(output@.push(text)) =~= lines(output@).push(text@));
                            assert(lines(output@) + seq![text@] =~= lines(output@).push(text@));
                            output.push(text);
                        },
                        None => {
                            assert(state.written + Seq::<Seq<char>>::empty() =~= state.written);
                        },
                    }
                },
            }
            i = i + 1;
        }
        Ok(())
    }

    /// Executes one statement. For an `Input` statement, `line` is the line
    /// that the host read for it, or `None` if the read failed; for any other
    /// statement it is not looked at. What comes back is the line that the
    /// statement writes, if it writes one.
    pub fn step(&mut self, statement: &Expression, line: Option<String>) -> (r: Result<
        Option<String>,
        CodeError,
    >)
        ensures
            match execute(
                State {
                    env: old(self)@,
                    unread: match line {
                        Some(s) => seq![s@],
                        None => Seq::empty(),
                    },
                    written: Seq::empty(),
                },
                statement@,
            ) {
                Ok(next) => r matches Ok(w) && final(self)@ == next.env && match w {
                    Some(l) => next.written == seq![l@],
                    None => next.written.len() == 0,
                },
                Err(d) => r matches Err(e) && e@ == d && final(self)@ == old(self)@,
            },
    {
        match statement.get_expression() {
            ExpressionTypes::TextAssignment(var_expr, value) => {
                self.assign_string(statement, var_expr, value)?;
                Ok(None)
            },
            ExpressionTypes::NumberAssignment(var_expr, value) => {
                self.assign_number(statement, var_expr, value)?;
                Ok(None)
            },
            ExpressionTypes::InputStatement(var_expr) => {
                self.input(var_expr, statement, line)?;
                Ok(None)
            },
            ExpressionTypes::OutputStatement(var_expr) => {
                let text = self.output(var_expr)?;
                assert(Seq::<Seq<char>>::empty().push(text@) =~= seq![text@]);
                Ok(Some(text))
            },
        }
    }

    /// Stores the line that the host read for an `Input` statement, without
    /// its terminator. `None` stands for a read that failed.
    pub fn input(
        &mut self,
        var_expr: &IdentifierExpression,
        expr: &Expression,
        line: Option<String>,
    ) -> (r: Result<(), CodeError>)
        ensures
            match store_input(
                old(self)@,
                expr@,
                var_expr@.var_name,
                match line {
                    Some(s) => Some(s@),
                    None => None,
                },
            ) {
                Ok(env) => r is Ok && final(self)@ == env,
                Err(d) => r matches Err(e) && e@ == d && final(self)@ == old(self)@,
            },
    {
        match line {
            Some(input_string) => {
                self.set_var(
                    &var_expr.var_name,
                    RuntimeTypes::String(strip_line_end(input_string.as_str())),
                );
                Ok(())
            },
            None => Err(
                CodeError::new(expr.line, expr.start, expr.end, "Error while reading input!"),
            ),
        }
    }

    /// The line that an `Output` statement writes: the value of the variable
    /// as text.
    pub fn output(&mut self, var_expr: &IdentifierExpression) -> (r: Result<String, CodeError>)
        ensures
            final(self)@ == old(self)@,
            match lookup(old(self)@, var_expr@, var_expr@.var_name) {
                Ok(value) => r matches Ok(line) && line@ == value.render(),
                Err(d) => r matches Err(e) && e@ == d,
            },
    {
        let val = self.get_var(var_expr, &var_expr.var_name)?;
        match val.as_string() {
            Some(text) => Ok(text),
            None => Err(
                CodeError::new(
                    var_expr.line,
                    var_expr.start,
                    var_expr.end,
                    concat3(
                        "Could not print variable ",
                        var_expr.var_name.as_str(),
                        " as text!",
                    ).as_str(),
                ),
            ),
        }
    }

    /// Binds a name to a value, whatever it held before.
    pub fn set_var(&mut self, var_name: &String, value: RuntimeTypes)
        ensures
            final(self)@ == old(self)@.insert(var_name@, value@),
    {
        self.variables.insert(var_name.clone(), value);
        assert(self@ =~= old(self)@.insert(var_name@, value@));
    }

    /// The value of a variable, or the error, at the place `expr`, that it is
    /// not set.
    pub fn get_var(&self, expr: &IdentifierExpression, var_name: &String) -> (r: Result<
        RuntimeTypes,
        CodeError,
    >)
        ensures
            match lookup(self@, expr@, var_name@) {
                Ok(value) => r matches Ok(found) && found@ == value,
                Err(d) => r matches Err(e) && e@ == d,
            },
    {
        match self.variables.get(var_name.as_str()) {
            Some(value) => Ok(value.clone()),
            None => Err(
                CodeError::new(
                    expr.line,
                    expr.start,
                    expr.end,
                    concat3("Variable ", var_name.as_str(), " not set!").as_str(),
                ),
            ),
        }
    }

    /// The value of a number expression that stands in the statement `expr`.
    pub fn eval_number_expression(&self, expr: &Expression, n_expr: &NumberExpression) -> (r:
        Result<i64, CodeError>)
        ensures
            match eval_number(self@, expr@.line, n_expr@) {
                Ok(v) => r == Ok::<i64, CodeError>(v),
                Err(d) => r matches Err(e) && e@ == d,
            },
        decreases n_expr,
    {
        match n_expr.get_expression() {
            NumberExpressionTypes::Value(value) => Ok(*value),
            NumberExpressionTypes::Identifier(var_expr) => {
                match self.get_var(var_expr, &var_expr.var_name)?.as_number() {
                    Some(value) => Ok(value),
                    None => Err(
                        CodeError::new(
                            expr.line,
                            var_expr.start,
                            var_expr.end,
                            concat3(
                                "Could not convert Text variable ",
                                var_expr.var_name.as_str(),
                                " to number!",
                            ).as_str(),
                        ),
                    ),
                }
            },
            NumberExpressionTypes::Add(val1, val2) => {
                let x = self.eval_number_expression(expr, val1)?;
                let y = self.eval_number_expression(expr, val2)?;
                Ok(wrapping_sum(x, y))
            },
            NumberExpressionTypes::Sub(val1, val2) => {
                let x = self.eval_number_expression(expr, val1)?;
                let y = self.eval_number_expression(expr, val2)?;
                Ok(wrapping_difference(x, y))
            },
            NumberExpressionTypes::Mult(val1, val2) => {
                let x = self.eval_number_expression(expr, val1)?;
                let y = self.eval_number_expression(expr, val2)?;
                Ok(wrapping_product(x, y))
            },
            NumberExpressionTypes::Div(val1, val2) => {
                let x = self.eval_number_expression(expr, val1)?;
                let y = self.eval_number_expression(expr, val2)?;
                match wrapping_quotient(x, y) {
                    Some(q) => Ok(q),
                    None => Err(
                        CodeError::new(n_expr.line, n_expr.start, n_expr.end, "Division by zero!"),
                    ),
                }
            },
        }
    }

    /// The value of a text expression.
    pub fn eval_string_expression(&mut self, expr: &Expression, t_expr: &TextExpression) -> (r:
        Result<String, CodeError>)
        ensures
            final(self)@ == old(self)@,
            match eval_text(old(self)@, t_expr@) {
                Ok(s) => r matches Ok(found) && found@ == s,
                Err(d) => r matches Err(e) && e@ == d,
            },
        decreases t_expr,
    {
        match t_expr.get_expression() {
            TextExpressionTypes::Concat(expr1, expr2) => {
                let eval_expr1 = self.eval_string_expression(expr, expr1)?;
                let eval_expr2 = self.eval_string_expression(expr, expr2)?;
                let glue = expr1.get_expression().is_identifier()
                    || expr2.get_expression().is_identifier() || has_dollar_at_end(
                    eval_expr1.as_str(),
                );
                Ok(join_texts(eval_expr1, eval_expr2.as_str(), glue))
            },
            TextExpressionTypes::Value(value) => Ok(value.clone()),
            TextExpressionTypes::Identifier(var_expr) => {
                match self.get_var(var_expr, &var_expr.var_name)?.as_string() {
                    Some(string) => Ok(string),
                    None => Err(
                        CodeError::new(
                            t_expr.line,
                            t_expr.start,
                            t_expr.end,
                            concat3(
                                "Could not convert variable ",
                                var_expr.var_name.as_str(),
                                " to string!",
                            ).as_str(),
                        ),
                    ),
                }
            },
        }
    }

    /// Evaluates a number expression and binds the name to its value.
    pub fn assign_number(
        &mut self,
        expr: &Expression,
        var_expr: &IdentifierExpression,
        n_expr: &NumberExpression,
    ) -> (r: Result<(), CodeError>)
        ensures
            match eval_number(old(self)@, expr@.line, n_expr@) {
                Ok(v) => r is Ok && final(self)@ == old(self)@.insert(
                    var_expr@.var_name,
                    Value::Number(v),
                ),
                Err(d) => r matches Err(e) && e@ == d && final(self)@ == old(self)@,
            },
    {
        let value = self.eval_number_expression(expr, n_expr)?;
        self.set_var(&var_expr.var_name, RuntimeTypes::Number(value));
        Ok(())
    }

    /// Evaluates a text expression and binds the name to its value.
    pub fn assign_string(
        &mut self,
        expr: &Expression,
        var_expr: &IdentifierExpression,
        s_expr: &TextExpression,
    ) -> (r: Result<(), CodeError>)
        ensures
            match eval_text(old(self)@, s_expr@) {
                Ok(s) => r is Ok && final(self)@ == old(self)@.insert(
                    var_expr@.var_name,
                    Value::Text(s),
                ),
                Err(d) => r matches Err(e) && e@ == d && final(self)@ == old(self)@,
            },
    {
        let value = self.eval_string_expression(expr, s_expr)?;
        self.set_var(&var_expr.var_name, RuntimeTypes::String(value));
        Ok(())
    }
}

} // verus!
