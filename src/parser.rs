//! Turning tokens into expressions, one for one.

use vstd::prelude::*;
use crate::error::ChaiError;
use crate::expr::{Expr, ExprKind, ExprKindView, ExprView, Value, ValueView};
use crate::token::{Token, TokenKind, TokenKindView, TokenView};

verus! {

/// The expression a token stands for, at the token's source and position.
pub open spec fn expr_of(t: TokenView) -> ExprView {
    let kind = match t.kind {
        TokenKindView::Number(n) => ExprKindView::Push(ValueView::Number(n)),
        TokenKindView::String(s) => ExprKindView::Push(ValueView::String(s)),
        TokenKindView::Plus => ExprKindView::Add,
        TokenKindView::Print => ExprKindView::Print,
    };
    ExprView { kind, source: t.source, position: t.position }
}

#[derive(Debug)]
pub struct Parser {
    tokens: Vec<Token>,
    index: usize,
}

impl Parser {
    /// The tokens being parsed.
    pub closed spec fn tokens(&self) -> Seq<TokenView> {
        self.tokens@.map_values(|t: Token| t@)
    }

    /// The index of the next token to parse.
    pub closed spec fn cursor(&self) -> int {
        self.index as int
    }

    pub closed spec fn wf(&self) -> bool {
        self.index <= self.tokens@.len()
    }

    pub fn from_tokens(tokens: Vec<Token>) -> (r: Parser)
        ensures
            r.wf(),
            r.tokens() == tokens@.map_values(|t: Token| t@),
            r.cursor() == 0,
    {
        Parser { tokens, index: 0 }
    }

    fn reached_end(&self) -> (r: bool)
        ensures
            r == (self.index >= self.tokens@.len()),
    {
        self.index >= self.tokens.len()
    }

    fn peek(&self) -> (t: Token)
        requires
            self.index < self.tokens@.len(),
        ensures
            t@ == self.tokens@[self.index as int]@,
    {
        self.tokens[self.index].clone()
    }

    fn advance(&mut self) -> (t: Token)
        requires
            old(self).index < old(self).tokens@.len(),
        ensures
            final(self).tokens == old(self).tokens,
            final(self).index == old(self).index + 1,
            t@ == old(self).tokens@[old(self).index as int]@,
    {
        let t = self.peek();
        let _len = self.tokens.len();
        self.index = self.index + 1;
        t
    }

    fn collect_expr(&mut self) -> (r: Result<Expr, ChaiError>)
        requires
            old(self).index < old(self).tokens@.len(),
        ensures
            final(self).tokens == old(self).tokens,
            final(self).index == old(self).index + 1,
            r matches Ok(e) && e@ == expr_of(old(self).tokens@[old(self).index as int]@),
    {
        let token = self.advance();
        match token.kind {
            TokenKind::Number(v) => Ok(
                Expr {
                    source: token.source,
                    position: token.position,
                    kind: ExprKind::Push(Value::Number(v)),
                },
            ),
            TokenKind::String(s) => Ok(
                Expr {
                    source: token.source,
                    position: token.position,
                    kind: ExprKind::Push(Value::String(s)),
                },
            ),
            TokenKind::Plus => Ok(
                Expr { source: token.source, position: token.position, kind: ExprKind::Add },
            ),
            TokenKind::Print => Ok(
                Expr { source: token.source, position: token.position, kind: ExprKind::Print },
            ),
        }
    }

    /// Parses the remaining tokens, left to right, each into the expression
    /// of the same shape. No token fails to convert under this grammar, so
    /// the result is always every expression, in token order; a failing
    /// token would be reported and parsing would go on after it.
    pub fn collect_exprs(&mut self) -> (r: Result<Vec<Expr>, Vec<ChaiError>>)
        requires
            old(self).wf(),
        ensures
            final(self).wf(),
            final(self).tokens() == old(self).tokens(),
            final(self).cursor() == old(self).tokens().len(),
            r matches Ok(exprs) && exprs@.map_values(|e: Expr| e@) == old(self).tokens().skip(
                old(self).cursor(),
            ).map_values(|t: TokenView| expr_of(t)),
    {
        let mut exprs: Vec<Expr> = Vec::new();
        let mut errors: Vec<ChaiError> = Vec::new();
        let ghost start = self.index as int;
        while !self.reached_end()
            invariant
                start <= self.index <= self.tokens@.len(),
                self.tokens == old(self).tokens,
                start == old(self).index,
                errors@.len() == 0,
                exprs@.map_values(|e: Expr| e@) == self.tokens().subrange(
                    start,
                    self.index as int,
                ).map_values(|t: TokenView| expr_of(t)),
            decreases self.tokens@.len() - self.index,
        {
            let ghost i = self.index as int;
            let ghost before = exprs@;
            match self.collect_expr() {
                Ok(e) => {
                    exprs.push(e);
                    assert(exprs@.map_values(|e: Expr| e@) =~= before.map_values(|e: Expr| e@).push(
                        e@,
                    ));
                    assert(self.tokens()[i] == self.tokens@[i]@);
                    assert(self.tokens().subrange(start, self.index as int) =~= self.tokens().subrange(
                        start,
                        i,
                    ).push(self.tokens()[i]));
                    assert(exprs@.map_values(|e: Expr| e@) =~= self.tokens().subrange(
                        start,
                        self.index as int,
                    ).map_values(|t: TokenView| expr_of(t)));
                },
                Err(e) => {
                    errors.push(e);
                },
            }
        }
        assert(self.tokens().subrange(start, self.index as int) =~= self.tokens().skip(start));
        if errors.len() > 0 {
            Err(errors)
        } else {
            Ok(exprs)
        }
    }
}

} // verus!
