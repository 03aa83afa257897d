//! Running expressions against the value stack.

use vstd::prelude::*;
use crate::error::{ChaiError, ErrorView};
use crate::expr::{text_of, Expr, ExprKind, ExprKindView, ExprView, Value, ValueView};
use crate::lexer::{errors_of, is_white_space, lemma_blank_text, lex_items, tokens_of};
use crate::parser::expr_of;
use crate::text::{debug_of, debug_text};
use crate::token::TokenView;

verus! {

pub open spec fn add_underflow_message() -> Seq<char> {
    "Expected 2 or more elements on stack."@
}

pub open spec fn print_underflow_message() -> Seq<char> {
    "Expected 1 or more elements on stack."@
}

/// The message for a text value found where a number was needed, given the
/// text's debug form.
pub open spec fn mismatch_message_of(found_debug: Seq<char>) -> Seq<char> {
    "Expected Value::Number(), found String("@ + found_debug + ") instead."@
}

/// The sum of two numbers, wrapping around at 2^64.
pub open spec fn wrapping_sum(a: u64, b: u64) -> u64 {
    ((a + b) % 0x1_0000_0000_0000_0000) as u64
}

/// What running one expression does: the new stack and the line printed, if
/// any, or the error, placed at the expression.
pub open spec fn step(stack: Seq<ValueView>, e: ExprView) -> Result<
    (Seq<ValueView>, Option<Seq<char>>),
    ErrorView,
> {
    let fail = |m: Seq<char>| ErrorView::Source(e.source, e.position, m);
    match e.kind {
        ExprKindView::Push(v) => Ok((stack.push(v), None)),
        ExprKindView::Add => {
            if stack.len() < 2 {
                Err(fail(add_underflow_message()))
            } else {
                let rest = stack.drop_last();
                match (stack.last(), rest.last()) {
                    (ValueView::String(t), _) => Err(fail(mismatch_message_of(debug_of(t)))),
                    (ValueView::Number(_), ValueView::String(t)) => Err(
                        fail(mismatch_message_of(debug_of(t))),
                    ),
                    (ValueView::Number(a), ValueView::Number(b)) => Ok(
                        (rest.drop_last().push(ValueView::Number(wrapping_sum(a, b))), None),
                    ),
                }
            }
        },
        ExprKindView::Print => {
            if stack.len() < 1 {
                Err(fail(print_underflow_message()))
            } else {
                Ok((stack.drop_last(), Some(text_of(stack.last()))))
            }
        },
    }
}

pub open spec fn printed(line: Option<Seq<char>>) -> Seq<Seq<char>> {
    match line {
        Some(l) => seq![l],
        None => Seq::empty(),
    }
}

/// Running `exprs` in order from `stack`: the lines printed, and the first
/// error, after which nothing more runs.
pub open spec fn run(stack: Seq<ValueView>, exprs: Seq<ExprView>) -> (
    Seq<Seq<char>>,
    Result<(), ErrorView>,
)
    decreases exprs.len(),
{
    if exprs.len() == 0 {
        (Seq::empty(), Ok(()))
    } else {
        match step(stack, exprs[0]) {
            Err(e) => (Seq::empty(), Err(e)),
            Ok((next, line)) => {
                let (lines, result) = run(next, exprs.drop_first());
                (printed(line) + lines, result)
            },
        }
    }
}

pub open spec fn stack_view(stack: Seq<Value>) -> Seq<ValueView> {
    stack.map_values(|v: Value| v@)
}

/// Builds the message for a text value found where a number was needed,
/// from the text's debug form.
pub fn mismatch_message(found_debug: &String) -> (r: String)
    ensures
        r@ == mismatch_message_of(found_debug@),
{
    let mut r = String::from_str("Expected Value::Number(), found String(");
    r.append(found_debug.as_str());
    r.append(") instead.");
    r
}

fn source_error(expr: &Expr, message: String) -> (r: ChaiError)
    ensures
        r@ == ErrorView::Source(expr@.source, expr@.position, message@),
{
    ChaiError::SourceError(expr.source.clone(), expr.position, message)
}

fn pop_number(stack: &mut Vec<Value>, expr: &Expr) -> (r: Result<u64, ChaiError>)
    requires
        old(stack)@.len() > 0,
    ensures
        stack_view(final(stack)@) == stack_view(old(stack)@).drop_last(),
        match stack_view(old(stack)@).last() {
            ValueView::Number(n) => r == Ok::<u64, ChaiError>(n),
            ValueView::String(t) => r matches Err(e) && e@ == ErrorView::Source(
                expr@.source,
                expr@.position,
                mismatch_message_of(debug_of(t)),
            ),
        },
{
    let val = stack.pop().unwrap();
    assert(stack_view(stack@) =~= stack_view(old(stack)@).drop_last());
    match val {
        Value::Number(n) => Ok(n),
        Value::String(t) => {
            let found = debug_text(t.as_str());
            Err(source_error(expr, mismatch_message(&found)))
        },
    }
}

/// Runs one expression against `stack`. On success the stack is as `step`
/// says and the printed line, if any, is returned; on failure the error is
/// the one `step` gives.
pub fn execute(stack: &mut Vec<Value>, expr: &Expr) -> (r: Result<Option<String>, ChaiError>)
    ensures
        match step(stack_view(old(stack)@), expr@) {
            Ok((next, line)) => r matches Ok(out) && stack_view(final(stack)@) == next && match out {
                Some(s) => line == Some(s@),
                None => line is None,
            },
            Err(e) => r matches Err(err) && err@ == e,
        },
{
    match &expr.kind {
        ExprKind::Push(v) => {
            stack.push(v.clone());
            assert(stack_view(stack@) =~= stack_view(old(stack)@).push(v@));
            Ok(None)
        },
        ExprKind::Add => {
            if stack.len() < 2 {
                return Err(
                    source_error(expr, String::from_str("Expected 2 or more elements on stack.")),
                );
            }
            let a = match pop_number(stack, expr) {
                Ok(n) => n,
                Err(e) => {
                    return Err(e);
                },
            };
            let b = match pop_number(stack, expr) {
                Ok(n) => n,
                Err(e) => {
                    return Err(e);
                },
            };
            let sum: u128 = a as u128 + b as u128;
            let wrapped: u64 = if sum > u64::MAX as u128 {
                (sum - 0x1_0000_0000_0000_0000u128) as u64
            } else {
                sum as u64
            };
            assert(wrapped == wrapping_sum(a, b));
            stack.push(Value::Number(wrapped));
            assert(stack_view(stack@) =~= stack_view(old(stack)@).drop_last().drop_last().push(
                ValueView::Number(wrapping_sum(a, b)),
            ));
            Ok(None)
        },
        ExprKind::Print => {
            if stack.len() < 1 {
                return Err(
                    source_error(expr, String::from_str("Expected 1 or more elements on stack.")),
                );
            }
            let v = stack.pop().unwrap();
            assert(stack_view(stack@) =~= stack_view(old(stack)@).drop_last());
            Ok(Some(v.render()))
        },
    }
}

/// Runs `exprs` in order against a fresh, empty stack, stopping at the
/// first error. Each printed line is appended to `output`, so the lines that
/// ran before an error are kept.
pub fn interpret_program(exprs: Vec<Expr>, output: &mut Vec<String>) -> (r: Result<(), ChaiError>)
    ensures
        ({
            let (lines, result) = run(Seq::empty(), exprs@.map_values(|e: Expr| e@));
            &&& final(output)@.map_values(|s: String| s@) == old(output)@.map_values(|s: String| s@)
                + lines
            &&& match result {
                Ok(()) => r is Ok,
                Err(e) => r matches Err(err) && err@ == e,
            }
        }),
{
    let mut stack: Vec<Value> = Vec::new();
    let ghost all = exprs@.map_values(|e: Expr| e@);
    let ghost start = old(output)@.map_values(|s: String| s@);
    let mut i: usize = 0;
    assert(stack_view(stack@) =~= Seq::<ValueView>::empty());
    assert(all.skip(0) =~= all);
    assert(start =~= start + Seq::<Seq<char>>::empty());
    while i < exprs.len()
        invariant
            i <= exprs@.len(),
            all == exprs@.map_values(|e: Expr| e@),
            run(Seq::empty(), all) == ({
                let (lines, result) = run(stack_view(stack@), all.skip(i as int));
                (output@.map_values(|s: String| s@).subrange(start.len() as int, output@.len() as int) + lines, result)
            }),
            start == old(output)@.map_values(|s: String| s@),
            start.len() <= output@.len(),
            output@.map_values(|s: String| s@).subrange(0, start.len() as int) == start,
        decreases exprs@.len() - i,
    {
        let ghost before = stack_view(stack@);
        let ghost out_before = output@.map_values(|s: String| s@);
        let ghost rest = all.skip(i as int);
        assert(rest[0] == exprs@[i as int]@);
        assert(rest.drop_first() =~= all.skip(i + 1));
        match execute(&mut stack, &exprs[i]) {
            Err(e) => {
                proof {
                    assert(run(before, rest) == (Seq::<Seq<char>>::empty(), Err::<(), ErrorView>(e@)));
                    let now = output@.map_values(|s: String| s@);
                    assert(now =~= now.subrange(0, start.len() as int) + now.subrange(
                        start.len() as int,
                        now.len() as int,
                    ) + Seq::<Seq<char>>::empty());
                    assert(now == start + run(Seq::empty(), all).0);
                    assert(run(Seq::empty(), all).1 == Err::<(), ErrorView>(e@));
                }
                return Err(e);
            },
            Ok(line) => {
                match line {
                    Some(l) => {
                        output.push(l);
                    },
                    None => {},
                }
                proof {
                    let now = output@.map_values(|s: String| s@);
                    assert(now.subrange(0, start.len() as int) =~= out_before.subrange(0, start.len() as int));
                    assert(now.subrange(start.len() as int, output@.len() as int) =~= out_before.subrange(
                        start.len() as int,
                        out_before.len() as int,
                    ) + printed(step(before, rest[0])->Ok_0.1));
                }
            },
        }
        i = i + 1;
    }
    proof {
        let now = output@.map_values(|s: String| s@);
        assert(now =~= now.subrange(0, start.len() as int) + now.subrange(start.len() as int, now.len() as int));
    }
    Ok(())
}

/// A source made only of white space scans to no tokens and no errors, and
/// running what those parse to prints nothing and succeeds.
pub proof fn lemma_blank_source(s: Seq<char>, source: Seq<char>)
    requires
        forall|k: int| 0 <= k < s.len() ==> is_white_space(#[trigger] s[k]),
    ensures
        errors_of(lex_items(s, 0, source)).len() == 0,
        tokens_of(lex_items(s, 0, source)) == Seq::<TokenView>::empty(),
        run(
            Seq::empty(),
            tokens_of(lex_items(s, 0, source)).map_values(|t: TokenView| expr_of(t)),
        ) == (Seq::<Seq<char>>::empty(), Ok::<(), ErrorView>(())),
{
    lemma_blank_text(s, 0, source);
    assert(tokens_of(lex_items(s, 0, source)).map_values(|t: TokenView| expr_of(t)) =~= Seq::<
        ExprView,
    >::empty());
}

} // verus!
