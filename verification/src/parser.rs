//! Recursive-descent expression parser.
//!
//! `Parser` consumes the token sequence a lexer produced and builds an
//! expression tree, climbing the fixed precedence ladder
//! equality → comparison → term → factor → unary → primary. Binary levels
//! fold left-associatively; unary prefixes are right-recursive. The whole
//! parse is pinned down by the spec-level parser `spec_parse_from`, and the
//! rendered text of a tree by `spec_render`.

use vstd::pervasive::unreached;
use vstd::prelude::*;
use vstd::string::StringExecFns;

use crate::lexer::{
    lit_text, op_symbol, type_matches, KwordType, LitType, LitView, OpType, Token, TokenType,
    TokenView,
};

verus! {

/// An expression tree node; each node exclusively owns its children.
#[derive(Debug, PartialEq)]
pub enum Expr {
    /// Binary expression
    Bin(Box<Expr>, OpType, Box<Expr>),
    /// Grouping expression
    Grouping(Box<Expr>),
    /// Literal expression
    Lit(LitType),
    /// Unary expression
    Unary(OpType, Box<Expr>),
}

/// Spec-level image of an expression tree.
pub enum ExprView {
    Bin(Box<ExprView>, OpType, Box<ExprView>),
    Grouping(Box<ExprView>),
    Lit(LitView),
    Unary(OpType, Box<ExprView>),
}

impl View for Expr {
    type V = ExprView;

    open spec fn view(&self) -> ExprView
        decreases self,
    {
        match self {
            Expr::Bin(l, op, r) => ExprView::Bin(Box::new((**l)@), *op, Box::new((**r)@)),
            Expr::Grouping(e) => ExprView::Grouping(Box::new((**e)@)),
            Expr::Lit(l) => ExprView::Lit(l@),
            Expr::Unary(op, e) => ExprView::Unary(*op, Box::new((**e)@)),
        }
    }
}

/// A failed parse; the whole expression is abandoned, reported as a value.
#[derive(Debug, PartialEq, Eq, Structural, Clone, Copy)]
pub enum ParseError {
    /// No primary-expression alternative matched the current token.
    NoPrimaryMatch,
    /// An opening parenthesis was never closed.
    MissingCloseParen,
}

/// The spec-level image of a token sequence.
pub open spec fn token_views(tokens: Seq<Token>) -> Seq<TokenView> {
    tokens.map_values(|t: Token| t@)
}

pub open spec fn is_equality_op(t: TokenView) -> bool {
    t == TokenView::Op(OpType::EqualEqual) || t == TokenView::Op(OpType::BangEqual)
}

pub open spec fn is_comparison_op(t: TokenView) -> bool {
    ||| t == TokenView::Op(OpType::Greater)
    ||| t == TokenView::Op(OpType::GreaterEqual)
    ||| t == TokenView::Op(OpType::Less)
    ||| t == TokenView::Op(OpType::LessEqual)
}

pub open spec fn is_term_op(t: TokenView) -> bool {
    t == TokenView::Op(OpType::Plus) || t == TokenView::Op(OpType::Minus)
}

pub open spec fn is_factor_op(t: TokenView) -> bool {
    t == TokenView::Op(OpType::Slash) || t == TokenView::Op(OpType::Star)
}

pub open spec fn is_unary_op(t: TokenView) -> bool {
    t == TokenView::Op(OpType::Bang) || t == TokenView::Op(OpType::Minus)
}

/// The operator carried by the token at `p`; only applied under a guard
/// that has already checked the token is an operator.
pub open spec fn op_at(toks: Seq<TokenView>, p: int) -> OpType {
    match toks[p] {
        TokenView::Op(o) => o,
        _ => OpType::Plus,
    }
}

/// Keeps a follow-up position inside `(p, toks.len()]` so the recursion in
/// the chain rules visibly descends; the parser never leaves that range.
pub open spec fn chain_pos(toks: Seq<TokenView>, p: int, p2: int) -> int {
    if p2 < p + 1 {
        p + 1
    } else if p2 > toks.len() {
        toks.len() as int
    } else {
        p2
    }
}

/// primary → "false" | "true" | "nil" | STRING | NUMBER | "(" expression ")"
pub open spec fn spec_primary(toks: Seq<TokenView>, pos: int) -> Result<(ExprView, int), ParseError>
    decreases toks.len() - pos, 0int,
{
    if pos < 0 || pos >= toks.len() {
        Err(ParseError::NoPrimaryMatch)
    } else if toks[pos] == TokenView::Kword(KwordType::False) {
        Ok((ExprView::Lit(LitView::False), pos + 1))
    } else if toks[pos] == TokenView::Kword(KwordType::True) {
        Ok((ExprView::Lit(LitView::True), pos + 1))
    } else if toks[pos] == TokenView::Kword(KwordType::Nil) {
        Ok((ExprView::Lit(LitView::Nil), pos + 1))
    } else if toks[pos] matches TokenView::Lit(l) && (l matches LitView::Str(_) || l
        matches LitView::Num(_)) {
        match toks[pos] {
            TokenView::Lit(l) => Ok((ExprView::Lit(l), pos + 1)),
            _ => Err(ParseError::NoPrimaryMatch),
        }
    } else if toks[pos] == TokenView::Op(OpType::LeftParen) {
        match spec_expression(toks, pos + 1) {
            Ok(inner) => {
                if 0 <= inner.1 < toks.len() && toks[inner.1] == TokenView::Op(
                    OpType::RightParen,
                ) {
                    Ok((ExprView::Grouping(Box::new(inner.0)), inner.1 + 1))
                } else {
                    Err(ParseError::MissingCloseParen)
                }
            },
            Err(e) => Err(e),
        }
    } else {
        Err(ParseError::NoPrimaryMatch)
    }
}

/// unary → ("!" | "-") unary | primary
pub open spec fn spec_unary(toks: Seq<TokenView>, pos: int) -> Result<(ExprView, int), ParseError>
    decreases toks.len() - pos, 1int,
{
    if 0 <= pos < toks.len() && is_unary_op(toks[pos]) {
        match spec_unary(toks, pos + 1) {
            Ok(inner) => Ok((ExprView::Unary(op_at(toks, pos), Box::new(inner.0)), inner.1)),
            Err(e) => Err(e),
        }
    } else {
        spec_primary(toks, pos)
    }
}

/// The left-associative fold of `factor` steps onto `acc`.
pub open spec fn spec_factor_rest(toks: Seq<TokenView>, p: int, acc: ExprView) -> Result<
    (ExprView, int),
    ParseError,
>
    decreases toks.len() - p, 2int,
{
    if 0 <= p < toks.len() && is_factor_op(toks[p]) {
        match spec_unary(toks, p + 1) {
            Ok(rh) => spec_factor_rest(
                toks,
                chain_pos(toks, p, rh.1),
                ExprView::Bin(Box::new(acc), op_at(toks, p), Box::new(rh.0)),
            ),
            Err(e) => Err(e),
        }
    } else {
        Ok((acc, p))
    }
}

/// factor → unary ( ("/" | "*") unary )*
pub open spec fn spec_factor(toks: Seq<TokenView>, pos: int) -> Result<(ExprView, int), ParseError>
    decreases toks.len() - pos, 3int,
        when 0 <= pos <= toks.len()
{
    match spec_unary(toks, pos) {
        Ok(e) => spec_factor_rest(toks, chain_pos(toks, pos - 1, e.1), e.0),
        Err(e) => Err(e),
    }
}

/// The left-associative fold of `term` steps onto `acc`.
pub open spec fn spec_term_rest(toks: Seq<TokenView>, p: int, acc: ExprView) -> Result<
    (ExprView, int),
    ParseError,
>
    decreases toks.len() - p, 4int,
{
    if 0 <= p < toks.len() && is_term_op(toks[p]) {
        match spec_factor(toks, p + 1) {
            Ok(rh) => spec_term_rest(
                toks,
                chain_pos(toks, p, rh.1),
                ExprView::Bin(Box::new(acc), op_at(toks, p), Box::new(rh.0)),
            ),
            Err(e) => Err(e),
        }
    } else {
        Ok((acc, p))
    }
}

/// term → factor ( ("+" | "-") factor )*
pub open spec fn spec_term(toks: Seq<TokenView>, pos: int) -> Result<(ExprView, int), ParseError>
    decreases toks.len() - pos, 5int,
        when 0 <= pos <= toks.len()
{
    match spec_factor(toks, pos) {
        Ok(e) => spec_term_rest(toks, chain_pos(toks, pos - 1, e.1), e.0),
        Err(e) => Err(e),
    }
}

/// The left-associative fold of `comparison` steps onto `acc`.
pub open spec fn spec_comparison_rest(toks: Seq<TokenView>, p: int, acc: ExprView) -> Result<
    (ExprView, int),
    ParseError,
>
    decreases toks.len() - p, 6int,
{
    if 0 <= p < toks.len() && is_comparison_op(toks[p]) {
        match spec_term(toks, p + 1) {
            Ok(rh) => spec_comparison_rest(
                toks,
                chain_pos(toks, p, rh.1),
                ExprView::Bin(Box::new(acc), op_at(toks, p), Box::new(rh.0)),
            ),
            Err(e) => Err(e),
        }
    } else {
        Ok((acc, p))
    }
}

/// comparison → term ( (">" | ">=" | "<" | "<=") term )*
pub open spec fn spec_comparison(toks: Seq<TokenView>, pos: int) -> Result<
    (ExprView, int),
    ParseError,
>
    decreases toks.len() - pos, 7int,
        when 0 <= pos <= toks.len()
{
    match spec_term(toks, pos) {
        Ok(e) => spec_comparison_rest(toks, chain_pos(toks, pos - 1, e.1), e.0),
        Err(e) => Err(e),
    }
}

/// The left-associative fold of `equality` steps onto `acc`.
pub open spec fn spec_equality_rest(toks: Seq<TokenView>, p: int, acc: ExprView) -> Result<
    (ExprView, int),
    ParseError,
>
    decreases toks.len() - p, 8int,
{
    if 0 <= p < toks.len() && is_equality_op(toks[p]) {
        match spec_comparison(toks, p + 1) {
            Ok(rh) => spec_equality_rest(
                toks,
                chain_pos(toks, p, rh.1),
                ExprView::Bin(Box::new(acc), op_at(toks, p), Box::new(rh.0)),
            ),
            Err(e) => Err(e),
        }
    } else {
        Ok((acc, p))
    }
}

/// equality → comparison ( ("==" | "!=") comparison )*
pub open spec fn spec_equality(toks: Seq<TokenView>, pos: int) -> Result<
    (ExprView, int),
    ParseError,
>
    decreases toks.len() - pos, 9int,
        when 0 <= pos <= toks.len()
{
    match spec_comparison(toks, pos) {
        Ok(e) => spec_equality_rest(toks, chain_pos(toks, pos - 1, e.1), e.0),
        Err(e) => Err(e),
    }
}

/// expression → equality
pub open spec fn spec_expression(toks: Seq<TokenView>, pos: int) -> Result<
    (ExprView, int),
    ParseError,
>
    decreases toks.len() - pos, 10int,
{
    spec_equality(toks, pos)
}

/// The expression parsed from position `pos` on, dropping the end position.
pub open spec fn spec_parse_from(toks: Seq<TokenView>, pos: int) -> Result<ExprView, ParseError> {
    match spec_expression(toks, pos) {
        Ok(e) => Ok(e.0),
        Err(e) => Err(e),
    }
}

/// The expression parsed from the whole token sequence.
pub open spec fn spec_parse(toks: Seq<TokenView>) -> Result<ExprView, ParseError> {
    spec_parse_from(toks, 0)
}

/// How an executable parse step relates to its spec-level counterpart: the
/// same error, or the same tree with the cursor on the same follow-up
/// position.
pub open spec fn parse_step(
    r: Result<Expr, ParseError>,
    s: Result<(ExprView, int), ParseError>,
    endpos: int,
) -> bool {
    match (r, s) {
        (Ok(e), Ok(p)) => e@ == p.0 && endpos == p.1,
        (Err(a), Err(b)) => a == b,
        _ => false,
    }
}

fn clone_lit(l: &LitType) -> (r: LitType)
    ensures
        r@ == l@,
{
    match l {
        LitType::Identifier(s) => LitType::Identifier(s.clone()),
        LitType::String(s) => LitType::String(s.clone()),
        LitType::Number(s) => LitType::Number(s.clone()),
        LitType::False => LitType::False,
        LitType::True => LitType::True,
        LitType::Nil => LitType::Nil,
    }
}

/// A capability over expression trees: one operation, dispatched by node
/// variant, so an evaluator can reuse the same traversal shape.
pub trait Visitor<T> {
    fn visit_expr(&mut self, expr: &Expr) -> T;
}

/// A forward-only cursor over a token sequence.
pub struct Parser {
    tokens: Vec<Token>,
    curr: usize,
}

impl Parser {
    /// The token sequence being parsed.
    pub closed spec fn toks_view(&self) -> Seq<TokenView> {
        token_views(self.tokens@)
    }

    /// The cursor.
    pub closed spec fn curr_view(&self) -> int {
        self.curr as int
    }

    /// The cursor is inside the sequence and the sequence ends with the
    /// end-of-input marker, which the parser never steps past.
    pub closed spec fn wf(&self) -> bool {
        &&& self.curr < self.tokens@.len()
        &&& self.tokens@.len() > 0
        &&& self.tokens@.last()@ == TokenView::Eof
    }

    pub fn new(tokens: Vec<Token>) -> (r: Self)
        ensures
            r.toks_view() == token_views(tokens@),
            r.curr_view() == 0,
            tokens@.len() > 0 && tokens@.last()@ == TokenView::Eof ==> r.wf(),
    {
        Parser { tokens, curr: 0 }
    }

    /// Parse one expression from the cursor on; tokens after it, if any,
    /// are left unconsumed.
    pub fn parse_tokens(&mut self) -> (r: Result<Expr, ParseError>)
        requires
            old(self).wf(),
        ensures
            final(self).wf(),
            final(self).toks_view() == old(self).toks_view(),
            (match (r, spec_parse_from(old(self).toks_view(), old(self).curr_view())) {
                (Ok(e), Ok(ev)) => e@ == ev,
                (Err(a), Err(b)) => a == b,
                _ => false,
            }),
    {
        self.expression()
    }

    fn advance(&mut self)
        requires
            old(self).wf(),
        ensures
            final(self).wf(),
            final(self).tokens == old(self).tokens,
            old(self).toks_view()[old(self).curr as int] == TokenView::Eof ==> final(self).curr
                == old(self).curr,
            old(self).toks_view()[old(self).curr as int] != TokenView::Eof ==> final(self).curr
                == old(self).curr + 1,
    {
        if !self.is_at_end() {
            if self.curr < self.tokens.len() {
                self.curr = self.curr + 1;
            }
        }
    }

    // Return whether any of the given token types match the current token
    // and advance by one
    fn consume(&mut self, tok_types: &[TokenType]) -> (r: bool)
        requires
            old(self).wf(),
        ensures
            final(self).wf(),
            final(self).tokens == old(self).tokens,
            r == (exists|j: int|
                0 <= j < tok_types@.len() && type_matches(
                    old(self).toks_view()[old(self).curr as int],
                    tok_types@[j]@,
                )),
            r && old(self).toks_view()[old(self).curr as int] != TokenView::Eof
                ==> final(self).curr == old(self).curr + 1,
            r && old(self).toks_view()[old(self).curr as int] == TokenView::Eof
                ==> final(self).curr == old(self).curr,
            !r ==> *final(self) == *old(self),
    {
        let ghost t = self.toks_view()[self.curr as int];
        let n = tok_types.len();
        let mut i: usize = 0;
        while i < n
            invariant
                self == old(self),
                self.wf(),
                n == tok_types@.len(),
                i <= n,
                t == self.toks_view()[self.curr as int],
                forall|j: int| 0 <= j < i ==> !type_matches(t, tok_types@[j]@),
            decreases n - i,
        {
            let matched = {
                let tok = self.peek();
                tok.token_type == tok_types[i]
            };
            if matched {
                self.advance();
                return true;
            }
            i = i + 1;
        }
        false
    }

    // Return whether the current token is of the given type
    fn check(&self, tok_type: &TokenType) -> (r: bool)
        requires
            self.wf(),
        ensures
            r == (self.toks_view()[self.curr as int] != TokenView::Eof && type_matches(
                self.toks_view()[self.curr as int],
                tok_type@,
            )),
    {
        if self.is_at_end() {
            return false;
        }
        self.peek().token_type == *tok_type
    }

    fn peek(&self) -> (r: &Token)
        requires
            self.wf(),
        ensures
            *r == self.tokens@[self.curr as int],
            r@ == self.toks_view()[self.curr as int],
    {
        &self.tokens[self.curr]
    }

    fn is_at_end(&self) -> (r: bool)
        requires
            self.wf(),
        ensures
            r == (self.toks_view()[self.curr as int] == TokenView::Eof),
    {
        self.curr >= self.tokens.len() || self.peek().token_type == TokenType::Eof
    }

    fn prev(&self) -> (r: &Token)
        requires
            self.wf(),
            self.curr >= 1,
        ensures
            *r == self.tokens@[self.curr - 1],
            r@ == self.toks_view()[self.curr - 1],
    {
        &self.tokens[self.curr - 1]
    }

    // Parse an expression
    fn expression(&mut self) -> (r: Result<Expr, ParseError>)
        requires
            old(self).wf(),
        ensures
            final(self).wf(),
            final(self).tokens == old(self).tokens,
            old(self).curr <= final(self).curr,
            parse_step(
                r,
                spec_expression(old(self).toks_view(), old(self).curr as int),
                final(self).curr as int,
            ),
        decreases old(self).tokens@.len() - old(self).curr, 10int,
    {
        self.equality()
    }

    // Parse an equality
    fn equality(&mut self) -> (r: Result<Expr, ParseError>)
        requires
            old(self).wf(),
        ensures
            final(self).wf(),
            final(self).tokens == old(self).tokens,
            old(self).curr <= final(self).curr,
            parse_step(
                r,
                spec_equality(old(self).toks_view(), old(self).curr as int),
                final(self).curr as int,
            ),
        decreases old(self).tokens@.len() - old(self).curr, 9int,
    {
        let ghost toks = self.toks_view();
        let ghost pos0 = self.curr as int;

        // Parse the LH comparator
        let mut expr = match self.comparison() {
            Ok(e) => e,
            Err(err) => {
                return Err(err);
            },
        };
        proof {
            assert(chain_pos(toks, pos0 - 1, self.curr as int) == self.curr as int);
        }
        loop
            invariant
                self.wf(),
                self.tokens == old(self).tokens,
                toks == old(self).toks_view(),
                toks == self.toks_view(),
                pos0 == old(self).curr as int,
                pos0 <= self.curr as int,
                spec_equality(toks, pos0) == spec_equality_rest(toks, self.curr as int, expr@),
            ensures
                self.wf(),
                self.tokens == old(self).tokens,
                pos0 <= self.curr as int,
                spec_equality(toks, pos0) == Ok::<(ExprView, int), ParseError>(
                    (expr@, self.curr as int),
                ),
            decreases self.tokens@.len() - self.curr,
        {
            let ghost p = self.curr as int;
            let ghost acc = expr@;
            let tok_types = [
                TokenType::Op(OpType::EqualEqual),
                TokenType::Op(OpType::BangEqual),
            ];
            if !self.consume(&tok_types) {
                proof {
                    assert(!type_matches(toks[p], tok_types@[0]@));
                    assert(!type_matches(toks[p], tok_types@[1]@));
                    assert(!is_equality_op(toks[p]));
                }
                break;
            }
            proof {
                assert(type_matches(toks[p], tok_types@[0]@) || type_matches(
                    toks[p],
                    tok_types@[1]@,
                ));
                assert(is_equality_op(toks[p]));
            }
            let op = match self.prev().op_type() {
                Some(op) => op,
                None => unreached(),
            };
            let rh = match self.comparison() {
                Ok(e) => e,
                Err(err) => {
                    proof {
                        assert(spec_equality_rest(toks, p, acc) == Err::<
                            (ExprView, int),
                            ParseError,
                        >(err));
                    }
                    return Err(err);
                },
            };
            proof {
                assert(chain_pos(toks, p, self.curr as int) == self.curr as int);
            }
            expr = Expr::Bin(Box::new(expr), op, Box::new(rh));
            proof {
                assert(spec_equality_rest(toks, p, acc) == spec_equality_rest(
                    toks,
                    self.curr as int,
                    expr@,
                ));
            }
        }
        Ok(expr)
    }

    fn comparison(&mut self) -> (r: Result<Expr, ParseError>)
        requires
            old(self).wf(),
        ensures
            final(self).wf(),
            final(self).tokens == old(self).tokens,
            old(self).curr <= final(self).curr,
            parse_step(
                r,
                spec_comparison(old(self).toks_view(), old(self).curr as int),
                final(self).curr as int,
            ),
        decreases old(self).tokens@.len() - old(self).curr, 7int,
    {
        let ghost toks = self.toks_view();
        let ghost pos0 = self.curr as int;

        let mut expr = match self.term() {
            Ok(e) => e,
            Err(err) => {
                return Err(err);
            },
        };
        proof {
            assert(chain_pos(toks, pos0 - 1, self.curr as int) == self.curr as int);
        }
        loop
            invariant
                self.wf(),
                self.tokens == old(self).tokens,
                toks == old(self).toks_view(),
                toks == self.toks_view(),
                pos0 == old(self).curr as int,
                pos0 <= self.curr as int,
                spec_comparison(toks, pos0) == spec_comparison_rest(
                    toks,
                    self.curr as int,
                    expr@,
                ),
            ensures
                self.wf(),
                self.tokens == old(self).tokens,
                pos0 <= self.curr as int,
                spec_comparison(toks, pos0) == Ok::<(ExprView, int), ParseError>(
                    (expr@, self.curr as int),
                ),
            decreases self.tokens@.len() - self.curr,
        {
            let ghost p = self.curr as int;
            let ghost acc = expr@;
            let tok_types = [
                TokenType::Op(OpType::Greater),
                TokenType::Op(OpType::GreaterEqual),
                TokenType::Op(OpType::Less),
                TokenType::Op(OpType::LessEqual),
            ];
            if !self.consume(&tok_types) {
                proof {
                    assert(!type_matches(toks[p], tok_types@[0]@));
                    assert(!type_matches(toks[p], tok_types@[1]@));
                    assert(!type_matches(toks[p], tok_types@[2]@));
                    assert(!type_matches(toks[p], tok_types@[3]@));
                    assert(!is_comparison_op(toks[p]));
                }
                break;
            }
            proof {
                assert(type_matches(toks[p], tok_types@[0]@) || type_matches(
                    toks[p],
                    tok_types@[1]@,
                ) || type_matches(toks[p], tok_types@[2]@) || type_matches(
                    toks[p],
                    tok_types@[3]@,
                ));
                assert(is_comparison_op(toks[p]));
            }
            let op = match self.prev().op_type() {
                Some(op) => op,
                None => unreached(),
            };
            let rh = match self.term() {
                Ok(e) => e,
                Err(err) => {
                    proof {
                        assert(spec_comparison_rest(toks, p, acc) == Err::<
                            (ExprView, int),
                            ParseError,
                        >(err));
                    }
                    return Err(err);
                },
            };
            proof {
                assert(chain_pos(toks, p, self.curr as int) == self.curr as int);
            }
            expr = Expr::Bin(Box::new(expr), op, Box::new(rh));
            proof {
                assert(spec_comparison_rest(toks, p, acc) == spec_comparison_rest(
                    toks,
                    self.curr as int,
                    expr@,
                ));
            }
        }
        Ok(expr)
    }

    // Parse a term
    fn term(&mut self) -> (r: Result<Expr, ParseError>)
        requires
            old(self).wf(),
        ensures
            final(self).wf(),
            final(self).tokens == old(self).tokens,
            old(self).curr <= final(self).curr,
            parse_step(
                r,
                spec_term(old(self).toks_view(), old(self).curr as int),
                final(self).curr as int,
            ),
        decreases old(self).tokens@.len() - old(self).curr, 5int,
    {
        let ghost toks = self.toks_view();
        let ghost pos0 = self.curr as int;

        let mut expr = match self.factor() {
            Ok(e) => e,
            Err(err) => {
                return Err(err);
            },
        };
        proof {
            assert(chain_pos(toks, pos0 - 1, self.curr as int) == self.curr as int);
        }
        loop
            invariant
                self.wf(),
                self.tokens == old(self).tokens,
                toks == old(self).toks_view(),
                toks == self.toks_view(),
                pos0 == old(self).curr as int,
                pos0 <= self.curr as int,
                spec_term(toks, pos0) == spec_term_rest(toks, self.curr as int, expr@),
            ensures
                self.wf(),
                self.tokens == old(self).tokens,
                pos0 <= self.curr as int,
                spec_term(toks, pos0) == Ok::<(ExprView, int), ParseError>(
                    (expr@, self.curr as int),
                ),
            decreases self.tokens@.len() - self.curr,
        {
            let ghost p = self.curr as int;
            let ghost acc = expr@;
            let tok_types = [TokenType::Op(OpType::Plus), TokenType::Op(OpType::Minus)];
            if !self.consume(&tok_types) {
                proof {
                    assert(!type_matches(toks[p], tok_types@[0]@));
                    assert(!type_matches(toks[p], tok_types@[1]@));
                    assert(!is_term_op(toks[p]));
                }
                break;
            }
            proof {
                assert(type_matches(toks[p], tok_types@[0]@) || type_matches(
                    toks[p],
                    tok_types@[1]@,
                ));
                assert(is_term_op(toks[p]));
            }
            let op = match self.prev().op_type() {
                Some(op) => op,
                None => unreached(),
            };
            let rh = match self.factor() {
                Ok(e) => e,
                Err(err) => {
                    proof {
                        assert(spec_term_rest(toks, p, acc) == Err::<(ExprView, int), ParseError>(
                            err,
                        ));
                    }
                    return Err(err);
                },
            };
            proof {
                assert(chain_pos(toks, p, self.curr as int) == self.curr as int);
            }
            expr = Expr::Bin(Box::new(expr), op, Box::new(rh));
            proof {
                assert(spec_term_rest(toks, p, acc) == spec_term_rest(
                    toks,
                    self.curr as int,
                    expr@,
                ));
            }
        }
        Ok(expr)
    }

    // Parse a factor
    fn factor(&mut self) -> (r: Result<Expr, ParseError>)
        requires
            old(self).wf(),
        ensures
            final(self).wf(),
            final(self).tokens == old(self).tokens,
            old(self).curr <= final(self).curr,
            parse_step(
                r,
                spec_factor(old(self).toks_view(), old(self).curr as int),
                final(self).curr as int,
            ),
        decreases old(self).tokens@.len() - old(self).curr, 3int,
    {
        let ghost toks = self.toks_view();
        let ghost pos0 = self.curr as int;

        let mut expr = match self.unary() {
            Ok(e) => e,
            Err(err) => {
                return Err(err);
            },
        };
        proof {
            assert(chain_pos(toks, pos0 - 1, self.curr as int) == self.curr as int);
        }
        loop
            invariant
                self.wf(),
                self.tokens == old(self).tokens,
                toks == old(self).toks_view(),
                toks == self.toks_view(),
                pos0 == old(self).curr as int,
                pos0 <= self.curr as int,
                spec_factor(toks, pos0) == spec_factor_rest(toks, self.curr as int, expr@),
            ensures
                self.wf(),
                self.tokens == old(self).tokens,
                pos0 <= self.curr as int,
                spec_factor(toks, pos0) == Ok::<(ExprView, int), ParseError>(
                    (expr@, self.curr as int),
                ),
            decreases self.tokens@.len() - self.curr,
        {
            let ghost p = self.curr as int;
            let ghost acc = expr@;
            let tok_types = [TokenType::Op(OpType::Slash), TokenType::Op(OpType::Star)];
            if !self.consume(&tok_types) {
                proof {
                    assert(!type_matches(toks[p], tok_types@[0]@));
                    assert(!type_matches(toks[p], tok_types@[1]@));
                    assert(!is_factor_op(toks[p]));
                }
                break;
            }
            proof {
                assert(type_matches(toks[p], tok_types@[0]@) || type_matches(
                    toks[p],
                    tok_types@[1]@,
                ));
                assert(is_factor_op(toks[p]));
            }
            let op = match self.prev().op_type() {
                Some(op) => op,
                None => unreached(),
            };
            let rh = match self.unary() {
                Ok(e) => e,
                Err(err) => {
                    proof {
                        assert(spec_factor_rest(toks, p, acc) == Err::<
                            (ExprView, int),
                            ParseError,
                        >(err));
                    }
                    return Err(err);
                },
            };
            proof {
                assert(chain_pos(toks, p, self.curr as int) == self.curr as int);
            }
            expr = Expr::Bin(Box::new(expr), op, Box::new(rh));
            proof {
                assert(spec_factor_rest(toks, p, acc) == spec_factor_rest(
                    toks,
                    self.curr as int,
                    expr@,
                ));
            }
        }
        Ok(expr)
    }

    // Parse a unary rule
    fn unary(&mut self) -> (r: Result<Expr, ParseError>)
        requires
            old(self).wf(),
        ensures
            final(self).wf(),
            final(self).tokens == old(self).tokens,
            old(self).curr <= final(self).curr,
            parse_step(
                r,
                spec_unary(old(self).toks_view(), old(self).curr as int),
                final(self).curr as int,
            ),
        decreases old(self).tokens@.len() - old(self).curr, 1int,
    {
        let ghost toks = self.toks_view();
        let ghost pos0 = self.curr as int;
        let tok_types = [TokenType::Op(OpType::Bang), TokenType::Op(OpType::Minus)];
        if self.consume(&tok_types) {
            proof {
                assert(type_matches(toks[pos0], tok_types@[0]@) || type_matches(
                    toks[pos0],
                    tok_types@[1]@,
                ));
                assert(is_unary_op(toks[pos0]));
            }
            let op = match self.prev().op_type() {
                Some(op) => op,
                None => unreached(),
            };
            let inner = match self.unary() {
                Ok(e) => e,
                Err(err) => {
                    return Err(err);
                },
            };
            return Ok(Expr::Unary(op, Box::new(inner)));
        }
        proof {
            assert(!type_matches(toks[pos0], tok_types@[0]@));
            assert(!type_matches(toks[pos0], tok_types@[1]@));
            assert(!is_unary_op(toks[pos0]));
        }
        self.primary()
    }

    fn primary(&mut self) -> (r: Result<Expr, ParseError>)
        requires
            old(self).wf(),
        ensures
            final(self).wf(),
            final(self).tokens == old(self).tokens,
            old(self).curr <= final(self).curr,
            parse_step(
                r,
                spec_primary(old(self).toks_view(), old(self).curr as int),
                final(self).curr as int,
            ),
        decreases old(self).tokens@.len() - old(self).curr, 0int,
    {
        let ghost toks = self.toks_view();
        let ghost pos0 = self.curr as int;
        // false
        let false_types = [TokenType::Kword(KwordType::False)];
        if self.consume(&false_types) {
            return Ok(Expr::Lit(LitType::False));
        }
        // true
        let true_types = [TokenType::Kword(KwordType::True)];
        if self.consume(&true_types) {
            return Ok(Expr::Lit(LitType::True));
        }
        // nil
        let nil_types = [TokenType::Kword(KwordType::Nil)];
        if self.consume(&nil_types) {
            return Ok(Expr::Lit(LitType::Nil));
        }
        // string or number
        let lit_types = [
            TokenType::Lit(LitType::String(String::new())),
            TokenType::Lit(LitType::Number(String::new())),
        ];
        if self.consume(&lit_types) {
            let lt = {
                let prev_tok = self.prev();
                match &prev_tok.token_type {
                    TokenType::Lit(l) => clone_lit(l),
                    _ => unreached(),
                }
            };
            return Ok(Expr::Lit(lt));
        }
        let lparen_types = [TokenType::Op(OpType::LeftParen)];
        if !self.consume(&lparen_types) {
            return Err(ParseError::NoPrimaryMatch);
        }
        let expr = match self.expression() {
            Ok(e) => e,
            Err(err) => {
                return Err(err);
            },
        };
        let rparen_types = [TokenType::Op(OpType::RightParen)];
        if !self.consume(&rparen_types) {
            return Err(ParseError::MissingCloseParen);
        }
        Ok(Expr::Grouping(Box::new(expr)))
    }
}

/// render(Binary(l,op,r)) = render(l) " " op " " render(r);
/// render(Grouping(e)) = "(" render(e) ")"; render(Unary(op,e)) = op render(e);
/// render(Literal(v)) = the literal's canonical text.
pub open spec fn spec_render(e: ExprView) -> Seq<char>
    decreases e,
{
    match e {
        ExprView::Bin(l, op, r) => spec_render(*l) + " "@ + op_symbol(op) + " "@ + spec_render(*r),
        ExprView::Grouping(inner) => "("@ + spec_render(*inner) + ")"@,
        ExprView::Lit(l) => lit_text(l),
        ExprView::Unary(op, inner) => op_symbol(op) + spec_render(*inner),
    }
}

/// Render an expression tree as fully parenthesized infix text, by a pure
/// depth-first traversal.
pub fn render_expr(expr: &Expr) -> (r: String)
    ensures
        r@ == spec_render(expr@),
    decreases expr,
{
    match expr {
        Expr::Bin(l, op, rr) => {
            let mut s = render_expr(&**l);
            s.append(" ");
            let ops = op.to_string();
            s.append(ops.as_str());
            s.append(" ");
            let rs = render_expr(&**rr);
            s.append(rs.as_str());
            s
        },
        Expr::Grouping(e) => {
            let mut s = "(".to_owned();
            let inner = render_expr(&**e);
            s.append(inner.as_str());
            s.append(")");
            s
        },
        Expr::Lit(l) => l.to_string(),
        Expr::Unary(op, e) => {
            let mut s = op.to_string();
            let inner = render_expr(&**e);
            s.append(inner.as_str());
            s
        },
    }
}

impl Visitor<String> for Parser {
    /// Render the tree as text; stands in for a future evaluator.
    fn visit_expr(&mut self, expr: &Expr) -> String {
        render_expr(expr)
    }
}

} // verus!
