//! The evaluator: a stack machine that takes the tokens of a program from the
//! last to the first.

use vstd::prelude::*;
use vstd::string::StringExecFns;
use crate::decimal::format_integer;
use crate::token::{without_grouping, Error, Instruction, Token, TokenView};
use crate::value::{Value, ValueView};

verus! {

/// What one token does to the stack.
pub enum Step {
    /// Evaluation goes on with `stack`, after printing `line` if there is
    /// one.
    Next { stack: Seq<ValueView>, line: Option<Seq<char>> },
    /// Evaluation ends with an error.
    Fail(Error),
    /// The token has no defined effect: `add` or `concat` lacks an operand,
    /// or a sum is more or less than an `i64` holds.
    Fault,
}

/// The effect of `token` on `stack`, whose top is its last element.
///
/// A parenthesis does nothing and a literal is pushed. `print` pops a value
/// and prints it, and fails on an empty stack. `add` and `concat` pop a first
/// operand, then a second one, and push their sum, or the first string
/// followed by the second; an operand of the wrong kind fails as soon as it
/// is popped. As the tokens of a program are taken from the last to the
/// first, the operand popped first is the one written first.
pub open spec fn step(stack: Seq<ValueView>, token: TokenView) -> Step {
    match token {
        TokenView::LParen | TokenView::RParen => Step::Next { stack, line: None },
        TokenView::Integer(i) => Step::Next {
            stack: stack.push(ValueView::Integer(i)),
            line: None,
        },
        TokenView::String(s) => Step::Next { stack: stack.push(ValueView::String(s)), line: None },
        TokenView::Instruction(Instruction::Print) => {
            if stack.len() == 0 {
                Step::Fail(Error::EvaluationError)
            } else {
                Step::Next { stack: stack.drop_last(), line: Some(stack.last().text()) }
            }
        },
        TokenView::Instruction(Instruction::Add) => {
            if stack.len() == 0 {
                Step::Fault
            } else if let ValueView::Integer(first) = stack.last() {
                if stack.len() == 1 {
                    Step::Fault
                } else if let ValueView::Integer(second) = stack[stack.len() - 2] {
                    if i64::MIN <= first + second <= i64::MAX {
                        Step::Next {
                            stack: stack.take(stack.len() - 2).push(
                                ValueView::Integer((first + second) as i64),
                            ),
                            line: None,
                        }
                    } else {
                        Step::Fault
                    }
                } else {
                    Step::Fail(Error::MismatchedTypes)
                }
            } else {
                Step::Fail(Error::MismatchedTypes)
            }
        },
        TokenView::Instruction(Instruction::Concat) => {
            if stack.len() == 0 {
                Step::Fault
            } else if let ValueView::String(first) = stack.last() {
                if stack.len() == 1 {
                    Step::Fault
                } else if let ValueView::String(second) = stack[stack.len() - 2] {
                    Step::Next {
                        stack: stack.take(stack.len() - 2).push(ValueView::String(first + second)),
                        line: None,
                    }
                } else {
                    Step::Fail(Error::MismatchedTypes)
                }
            } else {
                Step::Fail(Error::MismatchedTypes)
            }
        },
    }
}

/// How an evaluation ended.
pub enum End {
    /// Every token was taken.
    Finished,
    /// A token failed with this error, and the tokens before it were not
    /// taken.
    Failed(Error),
    /// A token had no defined effect.
    Fault,
}

/// An evaluation: the lines that it printed, in the order in which it
/// printed them, and how it ended.
pub struct Run {
    pub output: Seq<Seq<char>>,
    pub end: End,
}

impl Run {
    /// This evaluation, after `lines` were printed before it began.
    pub open spec fn after(self, lines: Seq<Seq<char>>) -> Run {
        Run { output: lines + self.output, end: self.end }
    }
}

/// The lines of one step: the line that it printed, or none.
pub open spec fn printed(line: Option<Seq<char>>) -> Seq<Seq<char>> {
    match line {
        Some(text) => seq![text],
        None => Seq::empty(),
    }
}

/// The evaluation of `tokens` on `stack`: the last token first, and so on
/// towards the first token, up to the first token that fails or has no
/// defined effect.
pub open spec fn run_from(stack: Seq<ValueView>, tokens: Seq<TokenView>) -> Run
    decreases tokens.len(),
{
    if tokens.len() == 0 {
        Run { output: Seq::empty(), end: End::Finished }
    } else {
        match step(stack, tokens.last()) {
            Step::Next { stack: next, line } => run_from(next, tokens.drop_last()).after(
                printed(line),
            ),
            Step::Fail(e) => Run { output: Seq::empty(), end: End::Failed(e) },
            Step::Fault => Run { output: Seq::empty(), end: End::Fault },
        }
    }
}

/// The evaluation of the program `tokens`, which begins on an empty stack.
pub open spec fn run(tokens: Seq<TokenView>) -> Run {
    run_from(Seq::empty(), tokens)
}

/// Lines printed before an evaluation count as if it had printed them first.
pub proof fn lemma_after_both(run: Run, first: Seq<Seq<char>>, second: Seq<Seq<char>>)
    ensures
        run.after(second).after(first) == run.after(first + second),
{
    assert(first + (second + run.output) =~= (first + second) + run.output);
}

/// Parentheses do not change an evaluation: a program and the same program
/// without its parentheses print the same lines and end in the same way.
pub proof fn lemma_grouping_is_inert(stack: Seq<ValueView>, tokens: Seq<TokenView>)
    ensures
        run_from(stack, without_grouping(tokens)) == run_from(stack, tokens),
    decreases tokens.len(),
{
    reveal(Seq::filter);
    if tokens.len() > 0 {
        let last = tokens.last();
        let front = tokens.drop_last();
        if last.is_grouping() {
            lemma_grouping_is_inert(stack, front);
            let rest = run_from(stack, front);
        } else {
            let kept = without_grouping(tokens);
            assert(kept.drop_last() =~= without_grouping(front));
            if let Step::Next { stack: next, line } = step(stack, last) {
                lemma_grouping_is_inert(next, front);
            }
        }
    }
}

/// Programs that are the same but for their parentheses print the same
/// lines and end in the same way.
pub proof fn lemma_same_but_for_grouping(first: Seq<TokenView>, second: Seq<TokenView>)
    requires
        without_grouping(first) == without_grouping(second),
    ensures
        run(first) == run(second),
{
    lemma_grouping_is_inert(Seq::empty(), first);
    lemma_grouping_is_inert(Seq::empty(), second);
}

/// Takes `token` on `stack`, and appends to `output` the line that it
/// prints. `None` means that the token has no defined effect.
fn apply(stack: &mut Vec<Value>, token: Token, output: &mut Vec<String>) -> (result: Option<
    Result<(), Error>,
>)
    ensures
        match step(old(stack).deep_view(), token@) {
            Step::Next { stack: next, line } => {
                &&& result == Some(Ok::<(), Error>(()))
                &&& final(stack).deep_view() == next
                &&& final(output).deep_view() == old(output).deep_view() + printed(line)
            },
            Step::Fail(e) => {
                &&& result == Some(Err::<(), Error>(e))
                &&& final(output).deep_view() == old(output).deep_view()
            },
            Step::Fault => {
                &&& result is None
                &&& final(output).deep_view() == old(output).deep_view()
            },
        },
{
    let ghost before = stack.deep_view();
    match token {
        Token::LParen | Token::RParen => {},
        Token::Integer(i) => {
            stack.push(Value::Integer(i));
        },
        Token::String(s) => {
            stack.push(Value::String(s));
        },
        Token::Instruction(Instruction::Print) => {
            let line = match stack.pop() {
                Some(Value::Integer(i)) => format_integer(i),
                Some(Value::String(s)) => s,
                None => {
                    return Some(Err(Error::EvaluationError));
                },
            };
            output.push(line);
        },
        Token::Instruction(Instruction::Add) => {
            let first = match stack.pop() {
                Some(Value::Integer(i)) => i,
                Some(_) => {
                    return Some(Err(Error::MismatchedTypes));
                },
                None => {
                    return None;
                },
            };
            let second = match stack.pop() {
                Some(Value::Integer(i)) => i,
                Some(_) => {
                    return Some(Err(Error::MismatchedTypes));
                },
                None => {
                    return None;
                },
            };
            let sum = match first.checked_add(second) {
                Some(sum) => sum,
                None => {
                    return None;
                },
            };
            stack.push(Value::Integer(sum));
            assert(stack.deep_view() =~= before.take(before.len() - 2).push(
                ValueView::Integer(sum),
            ));
        },
        Token::Instruction(Instruction::Concat) => {
            let first = match stack.pop() {
                Some(Value::String(s)) => s,
                Some(_) => {
                    return Some(Err(Error::MismatchedTypes));
                },
                None => {
                    return None;
                },
            };
            let second = match stack.pop() {
                Some(Value::String(s)) => s,
                Some(_) => {
                    return Some(Err(Error::MismatchedTypes));
                },
                None => {
                    return None;
                },
            };
            let ghost joined = first@ + second@;
            stack.push(Value::String(first.concat(second.as_str())));
            assert(stack.deep_view() =~= before.take(before.len() - 2).push(
                ValueView::String(joined),
            ));
        },
    }
    Some(Ok(()))
}

/// Evaluates the program `tokens`, whatever it holds, and appends to
/// `output` the lines that it prints, each without its line end.
///
/// Returns `None` where a token has no defined effect: `add` or `concat`
/// lacks an operand, or a sum is more or less than an `i64` holds. The lines
/// printed before that token are appended all the same, as are those printed
/// before a token that fails.
pub fn checked_evaluate(tokens: Vec<Token>, output: &mut Vec<String>) -> (result: Option<
    Result<(), Error>,
>)
    ensures
        final(output).deep_view() == old(output).deep_view() + run(tokens.deep_view()).output,
        match run(tokens.deep_view()).end {
            End::Finished => result == Some(Ok::<(), Error>(())),
            End::Failed(e) => result == Some(Err::<(), Error>(e)),
            End::Fault => result is None,
        },
{
    let ghost program = tokens.deep_view();
    let ghost lines = output.deep_view();
    let ghost mut added: Seq<Seq<char>> = Seq::empty();
    let mut remaining = tokens;
    let mut stack: Vec<Value> = Vec::new();
    assert(stack.deep_view() =~= Seq::<ValueView>::empty());
    assert(run(program).after(added) == run(program));
    loop
        invariant
            program == tokens.deep_view(),
            lines == old(output).deep_view(),
            output.deep_view() == lines + added,
            run(program) == run_from(stack.deep_view(), remaining.deep_view()).after(added),
        decreases remaining.len(),
    {
        let ghost rest = remaining.deep_view();
        let ghost values = stack.deep_view();
        let token = match remaining.pop() {
            Some(token) => token,
            None => {
                return Some(Ok(()));
            },
        };
        assert(remaining.deep_view() =~= rest.drop_last());
        match apply(&mut stack, token, output) {
            Some(Ok(())) => {
                proof {
                    let line = step(values, rest.last())->line;
                    lemma_after_both(
                        run_from(stack.deep_view(), remaining.deep_view()),
                        added,
                        printed(line),
                    );
                    added = added + printed(line);
                }
            },
            other => {
                return other;
            },
        }
    }
}

/// Evaluates the program `tokens`, and appends to `output` the lines that it
/// prints, each without its line end.
///
/// The tokens are taken from the last to the first. Returns `Ok` when all
/// were taken, and the error of the first token that fails, after which no
/// token is taken: `Error::EvaluationError` where `print` finds the stack
/// empty, `Error::MismatchedTypes` where an operand of `add` or `concat` is
/// of the wrong kind. The lines printed before a token that fails are
/// appended all the same. Each token must have a defined effect when it is
/// taken: `add` and `concat` find their two operands, unless the first one
/// is of the wrong kind, and a sum is one that an `i64` holds;
/// [`checked_evaluate`] takes any program.
pub fn evaluate(tokens: Vec<Token>, output: &mut Vec<String>) -> (result: Result<(), Error>)
    requires
        run(tokens.deep_view()).end != End::Fault,
    ensures
        final(output).deep_view() == old(output).deep_view() + run(tokens.deep_view()).output,
        match result {
            Ok(()) => run(tokens.deep_view()).end == End::Finished,
            Err(e) => run(tokens.deep_view()).end == End::Failed(e),
        },
{
    match checked_evaluate(tokens, output) {
        Some(result) => result,
        None => unreached(),
    }
}

} // verus!
