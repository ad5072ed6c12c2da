//! Syntactic analysis: a recursive-descent parser over a fixed precedence
//! hierarchy. It consumes a token sequence ending in EOF and produces a
//! single expression tree, or fails recoverably after reporting exactly one
//! diagnostic. The cursor only ever moves forward and trailing tokens after
//! the expression are left unconsumed.

use vstd::pervasive::arbitrary;
use vstd::pervasive::unreached;
use vstd::prelude::*;

use crate::expr;
use crate::lox;
use crate::lox::reports_one_more;
use crate::scanner;

verus! {

/// A recoverable parse failure, surfaced to the immediate caller.
#[derive(Debug)]
pub enum ParseError {
    Error,
}

/// The parser: owns the diagnostics sink, the token sequence, and a cursor
/// into it that only ever moves forward.
pub struct Parser {
    pub lox: lox::Lox,
    pub tokens: Vec<scanner::Token>,
    pub current: usize,
}

/// The token kind stands at some position of the sequence.
pub open spec fn token_type_in(tt: scanner::TokenType, types: Seq<scanner::TokenType>) -> bool {
    exists|k: int| 0 <= k < types.len() && (#[trigger] types[k]) == tt
}

/// The token kinds that may appear in a binary operator position.
pub open spec fn is_binop_token(tt: scanner::TokenType) -> bool {
    match tt {
        scanner::TokenType::BANG_EQUAL => true,
        scanner::TokenType::EQUAL_EQUAL => true,
        scanner::TokenType::GREATER => true,
        scanner::TokenType::GREATER_EQUAL => true,
        scanner::TokenType::LESS => true,
        scanner::TokenType::LESS_EQUAL => true,
        scanner::TokenType::SLASH => true,
        scanner::TokenType::STAR => true,
        scanner::TokenType::MINUS => true,
        scanner::TokenType::PLUS => true,
        _ => false,
    }
}

/// The binary operator a binary-operator token stands for.
pub open spec fn spec_binop(tt: scanner::TokenType) -> expr::BinaryOp {
    match tt {
        scanner::TokenType::BANG_EQUAL => expr::BinaryOp::BangEqual,
        scanner::TokenType::EQUAL_EQUAL => expr::BinaryOp::EqualEqual,
        scanner::TokenType::GREATER => expr::BinaryOp::Greater,
        scanner::TokenType::GREATER_EQUAL => expr::BinaryOp::GreaterEqual,
        scanner::TokenType::LESS => expr::BinaryOp::Less,
        scanner::TokenType::LESS_EQUAL => expr::BinaryOp::LessEqual,
        scanner::TokenType::SLASH => expr::BinaryOp::Slash,
        scanner::TokenType::STAR => expr::BinaryOp::Star,
        scanner::TokenType::MINUS => expr::BinaryOp::Minus,
        scanner::TokenType::PLUS => expr::BinaryOp::Plus,
        _ => arbitrary(),
    }
}

/// The token kinds that may appear in a unary operator position.
pub open spec fn is_unop_token(tt: scanner::TokenType) -> bool {
    match tt {
        scanner::TokenType::BANG => true,
        scanner::TokenType::MINUS => true,
        _ => false,
    }
}

/// The unary operator a unary-operator token stands for.
pub open spec fn spec_unop(tt: scanner::TokenType) -> expr::UnaryOp {
    match tt {
        scanner::TokenType::BANG => expr::UnaryOp::Bang,
        scanner::TokenType::MINUS => expr::UnaryOp::Minus,
        _ => arbitrary(),
    }
}


/// A spec-level expression tree: the shape of `expr::Expr` with text
/// payloads as character sequences, so that spec functions can build it.
pub enum AbsExpr {
    Lit(AbsLiteral),
    Un(expr::UnaryOp, Box<AbsExpr>),
    Bin(Box<AbsExpr>, expr::BinaryOp, Box<AbsExpr>),
    Group(Box<AbsExpr>),
}

/// A spec-level literal: number and string payloads as character sequences.
pub enum AbsLiteral {
    Num(Seq<char>),
    Str(Seq<char>),
    True,
    False,
    Nil,
}

/// The spec-level value of an expression tree.
pub open spec fn abs_expr(e: expr::Expr) -> AbsExpr
    decreases e,
{
    match e {
        expr::Expr::Literal(l) => AbsExpr::Lit(abs_literal(l)),
        expr::Expr::Unary(op, inner) => AbsExpr::Un(op, Box::new(abs_expr(*inner))),
        expr::Expr::Binary(left, op, right) => AbsExpr::Bin(
            Box::new(abs_expr(*left)),
            op,
            Box::new(abs_expr(*right)),
        ),
        expr::Expr::Grouping(inner) => AbsExpr::Group(Box::new(abs_expr(*inner))),
    }
}

/// The spec-level value of a literal.
pub open spec fn abs_literal(l: expr::Literal) -> AbsLiteral {
    match l {
        expr::Literal::Number(t) => AbsLiteral::Num(t@),
        expr::Literal::String(s) => AbsLiteral::Str(s@),
        expr::Literal::True => AbsLiteral::True,
        expr::Literal::False => AbsLiteral::False,
        expr::Literal::Nil => AbsLiteral::Nil,
    }
}

/// The outcome of one grammar level starting at a cursor position: the tree
/// and the cursor after it, or the failure position and the message reported
/// there (the offending token is the one at that position).
pub enum POut {
    Done { e: AbsExpr, pos: int },
    Fail { pos: int, msg: Seq<char> },
}

/// The message reported when no primary production matches.
pub const MSG_EXPR: &'static str = "Expect expression.";

/// The message reported when the ")" closing a grouping is missing.
pub const MSG_RPAREN: &'static str = "Expect ')' after expression.";

/// Clamp a cursor position into a window; on every reachable path the value
/// is already inside and the clamp is the identity, but it makes the
/// recursion measure of the grammar model self-evident.
pub open spec fn clamp_pos(p: int, lo: int, hi: int) -> int {
    if p < lo {
        lo
    } else if p > hi {
        hi
    } else {
        p
    }
}

/// The kinds matched by the equality level.
pub open spec fn is_eq_op(tt: scanner::TokenType) -> bool {
    tt == scanner::TokenType::BANG_EQUAL || tt == scanner::TokenType::EQUAL_EQUAL
}

/// The kinds matched by the comparison level.
pub open spec fn is_cmp_op(tt: scanner::TokenType) -> bool {
    ||| tt == scanner::TokenType::GREATER
    ||| tt == scanner::TokenType::GREATER_EQUAL
    ||| tt == scanner::TokenType::LESS
    ||| tt == scanner::TokenType::LESS_EQUAL
}

/// The kinds matched by the term level.
pub open spec fn is_term_op(tt: scanner::TokenType) -> bool {
    tt == scanner::TokenType::PLUS || tt == scanner::TokenType::MINUS
}

/// The kinds matched by the factor level.
pub open spec fn is_factor_op(tt: scanner::TokenType) -> bool {
    tt == scanner::TokenType::SLASH || tt == scanner::TokenType::STAR
}

/// The string payload a STRING token carries.
pub open spec fn str_payload(t: scanner::Token) -> Seq<char> {
    match t.literal {
        Some(scanner::Literal::Str(s)) => s@,
        _ => arbitrary(),
    }
}

/// The number payload a NUMBER token carries.
pub open spec fn num_payload(t: scanner::Token) -> Seq<char> {
    match t.literal {
        Some(scanner::Literal::Number(s)) => s@,
        _ => arbitrary(),
    }
}

/// expression -> equality (the top of the precedence hierarchy).
pub open spec fn p_expression(toks: Seq<scanner::Token>, pos: int) -> POut
    decreases toks.len() - pos, 12int,
{
    if !(0 <= pos < toks.len()) {
        POut::Fail { pos, msg: Seq::empty() }
    } else {
        p_equality(toks, pos)
    }
}

/// equality -> comparison ( ("!="|"==") comparison )*, folding left.
pub open spec fn p_equality(toks: Seq<scanner::Token>, pos: int) -> POut
    decreases toks.len() - pos, 10int,
{
    if !(0 <= pos < toks.len()) {
        POut::Fail { pos, msg: Seq::empty() }
    } else {
        match p_comparison(toks, pos) {
            POut::Fail { pos, msg } => POut::Fail { pos, msg },
            POut::Done { e, pos: p1 } => p_equality_loop(
                toks,
                clamp_pos(p1, pos + 1, toks.len() as int),
                e,
            ),
        }
    }
}

/// The left-associative fold of the equality level's operators.
pub open spec fn p_equality_loop(toks: Seq<scanner::Token>, pos: int, acc: AbsExpr) -> POut
    decreases toks.len() - pos, 9int,
{
    if !(0 <= pos < toks.len()) {
        POut::Done { e: acc, pos }
    } else if is_eq_op(toks[pos].token_type) {
        match p_comparison(toks, pos + 1) {
            POut::Fail { pos, msg } => POut::Fail { pos, msg },
            POut::Done { e, pos: p2 } => p_equality_loop(
                toks,
                clamp_pos(p2, pos + 1, toks.len() as int),
                AbsExpr::Bin(Box::new(acc), spec_binop(toks[pos].token_type), Box::new(e)),
            ),
        }
    } else {
        POut::Done { e: acc, pos }
    }
}

/// comparison -> term ( (">"|">="|"<"|"<=") term )*, folding left.
pub open spec fn p_comparison(toks: Seq<scanner::Token>, pos: int) -> POut
    decreases toks.len() - pos, 8int,
{
    if !(0 <= pos < toks.len()) {
        POut::Fail { pos, msg: Seq::empty() }
    } else {
        match p_term(toks, pos) {
            POut::Fail { pos, msg } => POut::Fail { pos, msg },
            POut::Done { e, pos: p1 } => p_comparison_loop(
                toks,
                clamp_pos(p1, pos + 1, toks.len() as int),
                e,
            ),
        }
    }
}

/// The left-associative fold of the comparison level's operators.
pub open spec fn p_comparison_loop(toks: Seq<scanner::Token>, pos: int, acc: AbsExpr) -> POut
    decreases toks.len() - pos, 7int,
{
    if !(0 <= pos < toks.len()) {
        POut::Done { e: acc, pos }
    } else if is_cmp_op(toks[pos].token_type) {
        match p_term(toks, pos + 1) {
            POut::Fail { pos, msg } => POut::Fail { pos, msg },
            POut::Done { e, pos: p2 } => p_comparison_loop(
                toks,
                clamp_pos(p2, pos + 1, toks.len() as int),
                AbsExpr::Bin(Box::new(acc), spec_binop(toks[pos].token_type), Box::new(e)),
            ),
        }
    } else {
        POut::Done { e: acc, pos }
    }
}

/// term -> factor ( ("+"|"-") factor )*, folding left.
pub open spec fn p_term(toks: Seq<scanner::Token>, pos: int) -> POut
    decreases toks.len() - pos, 6int,
{
    if !(0 <= pos < toks.len()) {
        POut::Fail { pos, msg: Seq::empty() }
    } else {
        match p_factor(toks, pos) {
            POut::Fail { pos, msg } => POut::Fail { pos, msg },
            POut::Done { e, pos: p1 } => p_term_loop(
                toks,
                clamp_pos(p1, pos + 1, toks.len() as int),
                e,
            ),
        }
    }
}

/// The left-associative fold of the term level's operators.
pub open spec fn p_term_loop(toks: Seq<scanner::Token>, pos: int, acc: AbsExpr) -> POut
    decreases toks.len() - pos, 5int,
{
    if !(0 <= pos < toks.len()) {
        POut::Done { e: acc, pos }
    } else if is_term_op(toks[pos].token_type) {
        match p_factor(toks, pos + 1) {
            POut::Fail { pos, msg } => POut::Fail { pos, msg },
            POut::Done { e, pos: p2 } => p_term_loop(
                toks,
                clamp_pos(p2, pos + 1, toks.len() as int),
                AbsExpr::Bin(Box::new(acc), spec_binop(toks[pos].token_type), Box::new(e)),
            ),
        }
    } else {
        POut::Done { e: acc, pos }
    }
}

/// factor -> unary ( ("/"|"*") unary )*, folding left.
pub open spec fn p_factor(toks: Seq<scanner::Token>, pos: int) -> POut
    decreases toks.len() - pos, 4int,
{
    if !(0 <= pos < toks.len()) {
        POut::Fail { pos, msg: Seq::empty() }
    } else {
        match p_unary(toks, pos) {
            POut::Fail { pos, msg } => POut::Fail { pos, msg },
            POut::Done { e, pos: p1 } => p_factor_loop(
                toks,
                clamp_pos(p1, pos + 1, toks.len() as int),
                e,
            ),
        }
    }
}

/// The left-associative fold of the factor level's operators.
pub open spec fn p_factor_loop(toks: Seq<scanner::Token>, pos: int, acc: AbsExpr) -> POut
    decreases toks.len() - pos, 3int,
{
    if !(0 <= pos < toks.len()) {
        POut::Done { e: acc, pos }
    } else if is_factor_op(toks[pos].token_type) {
        match p_unary(toks, pos + 1) {
            POut::Fail { pos, msg } => POut::Fail { pos, msg },
            POut::Done { e, pos: p2 } => p_factor_loop(
                toks,
                clamp_pos(p2, pos + 1, toks.len() as int),
                AbsExpr::Bin(Box::new(acc), spec_binop(toks[pos].token_type), Box::new(e)),
            ),
        }
    } else {
        POut::Done { e: acc, pos }
    }
}

/// unary -> ("!"|"-") unary | primary; prefix operators nest rightward.
pub open spec fn p_unary(toks: Seq<scanner::Token>, pos: int) -> POut
    decreases toks.len() - pos, 2int,
{
    if !(0 <= pos < toks.len()) {
        POut::Fail { pos, msg: Seq::empty() }
    } else if is_unop_token(toks[pos].token_type) {
        match p_unary(toks, pos + 1) {
            POut::Fail { pos, msg } => POut::Fail { pos, msg },
            POut::Done { e, pos: p } => POut::Done {
                e: AbsExpr::Un(spec_unop(toks[pos].token_type), Box::new(e)),
                pos: p,
            },
        }
    } else {
        p_primary(toks, pos)
    }
}

/// primary -> NUMBER | STRING | "true" | "false" | "nil" | "(" expression ")".
/// Finding no alternative fails with "Expect expression." at the current
/// token; a missing ")" fails at the token standing where ")" was expected.
pub open spec fn p_primary(toks: Seq<scanner::Token>, pos: int) -> POut
    decreases toks.len() - pos, 0int,
{
    if !(0 <= pos < toks.len()) {
        POut::Fail { pos, msg: Seq::empty() }
    } else {
        let tt = toks[pos].token_type;
        if tt == scanner::TokenType::FALSE {
            POut::Done { e: AbsExpr::Lit(AbsLiteral::False), pos: pos + 1 }
        } else if tt == scanner::TokenType::TRUE {
            POut::Done { e: AbsExpr::Lit(AbsLiteral::True), pos: pos + 1 }
        } else if tt == scanner::TokenType::NIL {
            POut::Done { e: AbsExpr::Lit(AbsLiteral::Nil), pos: pos + 1 }
        } else if tt == scanner::TokenType::STRING {
            POut::Done { e: AbsExpr::Lit(AbsLiteral::Str(str_payload(toks[pos]))), pos: pos + 1 }
        } else if tt == scanner::TokenType::NUMBER {
            POut::Done { e: AbsExpr::Lit(AbsLiteral::Num(num_payload(toks[pos]))), pos: pos + 1 }
        } else if tt == scanner::TokenType::LEFT_PAREN {
            match p_expression(toks, pos + 1) {
                POut::Fail { pos, msg } => POut::Fail { pos, msg },
                POut::Done { e, pos: p2 } => if 0 <= p2 < toks.len() && toks[p2].token_type
                    == scanner::TokenType::RIGHT_PAREN {
                    POut::Done { e: AbsExpr::Group(Box::new(e)), pos: p2 + 1 }
                } else {
                    POut::Fail { pos: p2, msg: MSG_RPAREN@ }
                },
            }
        } else {
            POut::Fail { pos, msg: MSG_EXPR@ }
        }
    }
}

/// The statement-starting keywords that `synchronize` stops in front of.
pub open spec fn is_sync_kw(tt: scanner::TokenType) -> bool {
    ||| tt == scanner::TokenType::CLASS
    ||| tt == scanner::TokenType::FUN
    ||| tt == scanner::TokenType::VAR
    ||| tt == scanner::TokenType::FOR
    ||| tt == scanner::TokenType::IF
    ||| tt == scanner::TokenType::WHILE
    ||| tt == scanner::TokenType::PRINT
    ||| tt == scanner::TokenType::RETURN
}

/// What a grammar-level function promises of its outcome `r` and its final
/// state `post`, given the model outcome `out` computed from the tokens and
/// the entry cursor: on success the returned tree and final cursor are the
/// model's; on failure the cursor stands at the model's failure position and
/// the one new report carries that token and the model's message.
pub open spec fn level_out(
    out: POut,
    r: Result<expr::Expr, ParseError>,
    toks: Seq<scanner::Token>,
    post: Parser,
) -> bool {
    match out {
        POut::Done { e, pos } => {
            &&& r matches Result::Ok(v) && abs_expr(v) == e
            &&& post.current == pos
        },
        POut::Fail { pos, msg } => {
            &&& r is Err
            &&& post.current == pos
            &&& post.lox.diagnostics@.last().line == toks[pos].line
            &&& post.lox.diagnostics@.last().context@ == lox::parse_error_context(toks[pos])
            &&& post.lox.diagnostics@.last().message@ == msg
        },
    }
}

impl Parser {
    /// The parser's invariant: the token sequence is a well-formed scan
    /// result and the cursor points at a token.
    pub open spec fn wf(self) -> bool {
        &&& scanner::wf_token_seq(self.tokens@)
        &&& self.current < self.tokens@.len()
    }

    /// The cursor stands on the end-of-input token.
    pub open spec fn spec_at_end(self) -> bool {
        self.tokens@[self.current as int].token_type == scanner::TokenType::EOF
    }

    /// The current token exists and has the given kind (never true at end of
    /// input).
    pub open spec fn spec_check(self, token_type: scanner::TokenType) -> bool {
        &&& !self.spec_at_end()
        &&& self.tokens@[self.current as int].token_type == token_type
    }

    pub fn new(lox: lox::Lox, tokens: Vec<scanner::Token>) -> (parser: Parser)
        requires
            scanner::wf_token_seq(tokens@),
        ensures
            parser.wf(),
            parser.lox == lox,
            parser.tokens == tokens,
            parser.current == 0,
    {
        Parser { lox, tokens, current: 0 }
    }

    /// Parse exactly one expression. On success the diagnostics are
    /// untouched; on failure exactly one diagnostic has been reported.
    /// Trailing tokens after the expression are not consumed.
    /// Parse exactly one expression: the tree and final cursor the grammar
    /// model assigns to the token sequence, or a failure after
    /// exactly one diagnostic carrying the offending token. Trailing tokens
    /// after the expression are not consumed.
    pub fn parse(&mut self) -> (r: Option<expr::Expr>)
        requires
            old(self).wf(),
        ensures
            final(self).wf(),
            final(self).tokens@ == old(self).tokens@,
            old(self).current <= final(self).current,
            r is Some ==> final(self).lox.diagnostics@ == old(self).lox.diagnostics@,
            r is None ==> reports_one_more(
                old(self).lox.diagnostics@,
                final(self).lox.diagnostics@,
            ),
            ({
                let out = p_expression(old(self).tokens@, old(self).current as int);
                match out {
                    POut::Done { e, pos } => {
                        &&& r matches Some(v) && abs_expr(v) == e
                        &&& final(self).current == pos
                    },
                    POut::Fail { pos, msg } => {
                        &&& r is None
                        &&& final(self).current == pos
                        &&& final(self).lox.diagnostics@.last().line == old(self).tokens@[pos].line
                        &&& final(self).lox.diagnostics@.last().context@
                            == lox::parse_error_context(old(self).tokens@[pos])
                        &&& final(self).lox.diagnostics@.last().message@ == msg
                    },
                }
            }),
    {
        match self.expression() {
            Result::Ok(e) => Option::Some(e),
            Result::Err(_) => Option::None,
        }
    }

    /// Consume the current token exactly when its kind is one of the given
    /// ones.
    fn matches(&mut self, token_types: &[scanner::TokenType]) -> (r: bool)
        requires
            old(self).wf(),
        ensures
            final(self).wf(),
            final(self).tokens@ == old(self).tokens@,
            final(self).lox == old(self).lox,
            r == (!old(self).spec_at_end() && token_type_in(
                old(self).tokens@[old(self).current as int].token_type,
                token_types@,
            )),
            r ==> old(self).current < old(self).tokens@.len() - 1 && final(self).current == old(
                self,
            ).current + 1,
            !r ==> final(self).current == old(self).current,
    {
        let n = token_types.len();
        let mut i: usize = 0;
        while i < n
            invariant
                self.wf(),
                self.tokens@ == old(self).tokens@,
                self.current == old(self).current,
                self.lox == old(self).lox,
                i <= n == token_types@.len(),
                forall|k: int| 0 <= k < i ==> !old(self).spec_check(#[trigger] token_types@[k]),
            decreases n - i,
        {
            let tt = token_types[i];
            if self.check(tt) {
                self.advance();
                proof {
                    assert(0 <= i < token_types@.len() && token_types@[i as int] == tt);
                }
                return true;
            }
            i = i + 1;
        }
        false
    }

    fn check(&self, token_type: scanner::TokenType) -> (r: bool)
        requires
            self.wf(),
        ensures
            r == self.spec_check(token_type),
    {
        if self.is_at_end() {
            return false;
        }
        self.peek().token_type == token_type
    }

    /// Move the cursor one token forward, unless it already stands at end of
    /// input.
    fn advance(&mut self)
        requires
            old(self).wf(),
        ensures
            final(self).wf(),
            final(self).tokens@ == old(self).tokens@,
            final(self).lox == old(self).lox,
            old(self).spec_at_end() ==> final(self).current == old(self).current,
            !old(self).spec_at_end() ==> final(self).current == old(self).current + 1,
    {
        if !self.is_at_end() {
            let n = self.tokens.len();
            proof {
                assert(self.tokens@[self.tokens@.len() - 1].token_type == scanner::TokenType::EOF);
                assert(self.current != self.tokens@.len() - 1);
                assert(self.current + 1 < n);
            }
            self.current = self.current + 1;
        }
    }

    fn is_at_end(&self) -> (r: bool)
        requires
            self.wf(),
        ensures
            r == self.spec_at_end(),
    {
        self.peek().token_type == scanner::TokenType::EOF
    }

    fn peek(&self) -> (t: &scanner::Token)
        requires
            self.wf(),
        ensures
            *t == self.tokens@[self.current as int],
    {
        &self.tokens[self.current]
    }

    fn previous(&self) -> (t: &scanner::Token)
        requires
            self.wf(),
            1 <= self.current,
        ensures
            *t == self.tokens@[self.current - 1],
    {
        &self.tokens[self.current - 1]
    }

    /// Consume the current token when it has the expected kind; otherwise
    /// report one diagnostic at the current token and fail.
    fn consume(&mut self, token_type: scanner::TokenType, msg: &str) -> (r: Result<
        (),
        ParseError,
    >)
        requires
            old(self).wf(),
        ensures
            final(self).wf(),
            final(self).tokens@ == old(self).tokens@,
            old(self).current <= final(self).current,
            r is Ok <==> old(self).spec_check(token_type),
            r is Ok ==> final(self).current == old(self).current + 1 && final(self).lox == old(
                self,
            ).lox,
            r is Err ==> ({
                let t = old(self).tokens@[old(self).current as int];
                &&& final(self).current == old(self).current
                &&& reports_one_more(old(self).lox.diagnostics@, final(self).lox.diagnostics@)
                &&& final(self).lox.diagnostics@.last().line == t.line
                &&& final(self).lox.diagnostics@.last().context@ == lox::parse_error_context(t)
                &&& final(self).lox.diagnostics@.last().message@ == msg@
            }),
    {
        if self.check(token_type) {
            self.advance();
            return Result::Ok(());
        }
        let tok = self.peek().clone();
        let e = self.error(tok, msg);
        Result::Err(e)
    }

    /// Report one diagnostic at the given token and hand back the failure
    /// value.
    fn error(&mut self, token: scanner::Token, msg: &str) -> (e: ParseError)
        requires
            old(self).wf(),
        ensures
            final(self).wf(),
            final(self).tokens@ == old(self).tokens@,
            final(self).current == old(self).current,
            reports_one_more(old(self).lox.diagnostics@, final(self).lox.diagnostics@),
            final(self).lox.diagnostics@.last().line == token.line,
            final(self).lox.diagnostics@.last().context@ == lox::parse_error_context(token),
            final(self).lox.diagnostics@.last().message@ == msg@,
    {
        self.lox.parse_error(token, msg);
        ParseError::Error
    }

    /// Discard tokens up to a likely statement boundary: past a semicolon, or
    /// before a keyword that starts a statement.
    pub fn synchronize(&mut self)
        requires
            old(self).wf(),
        ensures
            final(self).wf(),
            final(self).tokens@ == old(self).tokens@,
            final(self).lox == old(self).lox,
            old(self).current <= final(self).current,
            !old(self).spec_at_end() ==> old(self).current < final(self).current,
            final(self).spec_at_end() || final(self).tokens@[final(self).current - 1].token_type
                == scanner::TokenType::SEMICOLON || is_sync_kw(
                final(self).tokens@[final(self).current as int].token_type,
            ),
    {
        self.advance();
        loop
            invariant
                self.wf(),
                self.tokens@ == old(self).tokens@,
                self.lox == old(self).lox,
                old(self).current <= self.current,
                !old(self).spec_at_end() ==> old(self).current < self.current,
                1 <= self.current || self.spec_at_end(),
            ensures
                self.wf(),
                self.tokens@ == old(self).tokens@,
                self.lox == old(self).lox,
                old(self).current <= self.current,
                !old(self).spec_at_end() ==> old(self).current < self.current,
                self.spec_at_end() || self.tokens@[self.current - 1].token_type
                    == scanner::TokenType::SEMICOLON || is_sync_kw(
                    self.tokens@[self.current as int].token_type,
                ),
            decreases self.tokens@.len() - self.current,
        {
            if self.is_at_end() {
                break;
            }
            let prev_tt = self.previous().token_type;
            if prev_tt == scanner::TokenType::SEMICOLON {
                return;
            }
            let tt = self.peek().token_type;
            match tt {
                scanner::TokenType::CLASS => {
                    return;
                },
                scanner::TokenType::FUN => {
                    return;
                },
                scanner::TokenType::VAR => {
                    return;
                },
                scanner::TokenType::FOR => {
                    return;
                },
                scanner::TokenType::IF => {
                    return;
                },
                scanner::TokenType::WHILE => {
                    return;
                },
                scanner::TokenType::PRINT => {
                    return;
                },
                scanner::TokenType::RETURN => {
                    return;
                },
                _ => {},
            }
            self.advance();
        }
    }

    /// Translate a binary-operator token kind to its operator.
    fn token_op_to_expr_binops(token_type: scanner::TokenType) -> (op: expr::BinaryOp)
        requires
            is_binop_token(token_type),
        ensures
            op == spec_binop(token_type),
    {
        match token_type {
            scanner::TokenType::BANG_EQUAL => expr::BinaryOp::BangEqual,
            scanner::TokenType::EQUAL_EQUAL => expr::BinaryOp::EqualEqual,
            scanner::TokenType::GREATER => expr::BinaryOp::Greater,
            scanner::TokenType::GREATER_EQUAL => expr::BinaryOp::GreaterEqual,
            scanner::TokenType::LESS => expr::BinaryOp::Less,
            scanner::TokenType::LESS_EQUAL => expr::BinaryOp::LessEqual,
            scanner::TokenType::SLASH => expr::BinaryOp::Slash,
            scanner::TokenType::STAR => expr::BinaryOp::Star,
            scanner::TokenType::MINUS => expr::BinaryOp::Minus,
            scanner::TokenType::PLUS => expr::BinaryOp::Plus,
            _ => unreached(),
        }
    }

    /// Translate a unary-operator token kind to its operator.
    fn token_op_to_expr_unops(token_type: scanner::TokenType) -> (op: expr::UnaryOp)
        requires
            is_unop_token(token_type),
        ensures
            op == spec_unop(token_type),
    {
        match token_type {
            scanner::TokenType::BANG => expr::UnaryOp::Bang,
            scanner::TokenType::MINUS => expr::UnaryOp::Minus,
            _ => unreached(),
        }
    }

    fn expression(&mut self) -> (r: Result<expr::Expr, ParseError>)
        requires
            old(self).wf(),
        ensures
            final(self).wf(),
            final(self).tokens@ == old(self).tokens@,
            old(self).current <= final(self).current,
            r is Ok ==> old(self).current < final(self).current && final(self).lox.diagnostics@
                == old(self).lox.diagnostics@,
            r is Err ==> reports_one_more(old(self).lox.diagnostics@, final(self).lox.diagnostics@),
            level_out(
                p_expression(old(self).tokens@, old(self).current as int),
                r,
                old(self).tokens@,
                *final(self),
            ),
        decreases old(self).tokens@.len() - old(self).current, 6int,
    {
        proof {
            assert(p_expression(self.tokens@, self.current as int) == p_equality(
                self.tokens@,
                self.current as int,
            ));
        }
        self.equality()
    }

    #[verifier::rlimit(80)]
    fn equality(&mut self) -> (r: Result<expr::Expr, ParseError>)
        requires
            old(self).wf(),
        ensures
            final(self).wf(),
            final(self).tokens@ == old(self).tokens@,
            old(self).current <= final(self).current,
            r is Ok ==> old(self).current < final(self).current && final(self).lox.diagnostics@
                == old(self).lox.diagnostics@,
            r is Err ==> reports_one_more(old(self).lox.diagnostics@, final(self).lox.diagnostics@),
            level_out(
                p_equality(old(self).tokens@, old(self).current as int),
                r,
                old(self).tokens@,
                *final(self),
            ),
        decreases old(self).tokens@.len() - old(self).current, 5int,
    {
        let ghost toks = self.tokens@;
        let ghost pos0 = self.current as int;
        let ghost goal = p_equality(toks, pos0);
        let mut e = match self.comparison() {
            Result::Ok(v) => v,
            Result::Err(err) => {
                proof {
                    assert(goal == p_comparison(toks, pos0));
                }
                return Result::Err(err);
            },
        };
        proof {
            assert(p_equality_loop(toks, self.current as int, abs_expr(e)) == goal);
        }
        loop
            invariant
                self.wf(),
                self.tokens@ == toks,
                toks == old(self).tokens@,
                pos0 == old(self).current as int,
                goal == p_equality(toks, pos0),
                pos0 < self.current as int,
                self.lox.diagnostics@ == old(self).lox.diagnostics@,
                p_equality_loop(toks, self.current as int, abs_expr(e)) == goal,
            ensures
                self.wf(),
                self.tokens@ == toks,
                pos0 < self.current as int,
                self.lox.diagnostics@ == old(self).lox.diagnostics@,
                goal == (POut::Done { e: abs_expr(e), pos: self.current as int }),
            decreases self.tokens@.len() - self.current,
        {
            let ghost cur0 = self.current as int;
            let ghost acc0 = abs_expr(e);
            let m = self.matches(&[scanner::TokenType::BANG_EQUAL, scanner::TokenType::EQUAL_EQUAL]);
            if !m {
                proof {
                    assert(!is_eq_op(toks[cur0].token_type));
                    assert(goal == (POut::Done { e: abs_expr(e), pos: self.current as int }));
                }
                break;
            }
            let op_tt = self.previous().token_type;
            let operator = Parser::token_op_to_expr_binops(op_tt);
            let right = match self.comparison() {
                Result::Ok(v) => v,
                Result::Err(err) => {
                    proof {
                        assert(is_eq_op(toks[cur0].token_type));
                        assert(goal == p_comparison(toks, cur0 + 1));
                    }
                    return Result::Err(err);
                },
            };
            e = expr::Expr::Binary(Box::new(e), operator, Box::new(right));
            proof {
                assert(is_eq_op(toks[cur0].token_type));
                assert(op_tt == toks[cur0].token_type);
                assert(abs_expr(e) == AbsExpr::Bin(
                    Box::new(acc0),
                    spec_binop(toks[cur0].token_type),
                    Box::new(abs_expr(right)),
                ));
                assert(p_equality_loop(toks, self.current as int, abs_expr(e)) == goal);
            }
        }
        Result::Ok(e)
    }

    #[verifier::rlimit(80)]
    fn comparison(&mut self) -> (r: Result<expr::Expr, ParseError>)
        requires
            old(self).wf(),
        ensures
            final(self).wf(),
            final(self).tokens@ == old(self).tokens@,
            old(self).current <= final(self).current,
            r is Ok ==> old(self).current < final(self).current && final(self).lox.diagnostics@
                == old(self).lox.diagnostics@,
            r is Err ==> reports_one_more(old(self).lox.diagnostics@, final(self).lox.diagnostics@),
            level_out(
                p_comparison(old(self).tokens@, old(self).current as int),
                r,
                old(self).tokens@,
                *final(self),
            ),
        decreases old(self).tokens@.len() - old(self).current, 4int,
    {
        let ghost toks = self.tokens@;
        let ghost pos0 = self.current as int;
        let ghost goal = p_comparison(toks, pos0);
        let mut e = match self.term() {
            Result::Ok(v) => v,
            Result::Err(err) => {
                proof {
                    assert(goal == p_term(toks, pos0));
                }
                return Result::Err(err);
            },
        };
        proof {
            assert(p_comparison_loop(toks, self.current as int, abs_expr(e)) == goal);
        }
        loop
            invariant
                self.wf(),
                self.tokens@ == toks,
                toks == old(self).tokens@,
                pos0 == old(self).current as int,
                goal == p_comparison(toks, pos0),
                pos0 < self.current as int,
                self.lox.diagnostics@ == old(self).lox.diagnostics@,
                p_comparison_loop(toks, self.current as int, abs_expr(e)) == goal,
            ensures
                self.wf(),
                self.tokens@ == toks,
                pos0 < self.current as int,
                self.lox.diagnostics@ == old(self).lox.diagnostics@,
                goal == (POut::Done { e: abs_expr(e), pos: self.current as int }),
            decreases self.tokens@.len() - self.current,
        {
            let ghost cur0 = self.current as int;
            let ghost acc0 = abs_expr(e);
            let m = self.matches(&[scanner::TokenType::GREATER, scanner::TokenType::GREATER_EQUAL, scanner::TokenType::LESS, scanner::TokenType::LESS_EQUAL]);
            if !m {
                proof {
                    assert(!is_cmp_op(toks[cur0].token_type));
                    assert(goal == (POut::Done { e: abs_expr(e), pos: self.current as int }));
                }
                break;
            }
            let op_tt = self.previous().token_type;
            let operator = Parser::token_op_to_expr_binops(op_tt);
            let right = match self.term() {
                Result::Ok(v) => v,
                Result::Err(err) => {
                    proof {
                        assert(is_cmp_op(toks[cur0].token_type));
                        assert(goal == p_term(toks, cur0 + 1));
                    }
                    return Result::Err(err);
                },
            };
            e = expr::Expr::Binary(Box::new(e), operator, Box::new(right));
            proof {
                assert(is_cmp_op(toks[cur0].token_type));
                assert(op_tt == toks[cur0].token_type);
                assert(abs_expr(e) == AbsExpr::Bin(
                    Box::new(acc0),
                    spec_binop(toks[cur0].token_type),
                    Box::new(abs_expr(right)),
                ));
                assert(p_comparison_loop(toks, self.current as int, abs_expr(e)) == goal);
            }
        }
        Result::Ok(e)
    }

    #[verifier::rlimit(80)]
    fn term(&mut self) -> (r: Result<expr::Expr, ParseError>)
        requires
            old(self).wf(),
        ensures
            final(self).wf(),
            final(self).tokens@ == old(self).tokens@,
            old(self).current <= final(self).current,
            r is Ok ==> old(self).current < final(self).current && final(self).lox.diagnostics@
                == old(self).lox.diagnostics@,
            r is Err ==> reports_one_more(old(self).lox.diagnostics@, final(self).lox.diagnostics@),
            level_out(
                p_term(old(self).tokens@, old(self).current as int),
                r,
                old(self).tokens@,
                *final(self),
            ),
        decreases old(self).tokens@.len() - old(self).current, 3int,
    {
        let ghost toks = self.tokens@;
        let ghost pos0 = self.current as int;
        let ghost goal = p_term(toks, pos0);
        let mut e = match self.factor() {
            Result::Ok(v) => v,
            Result::Err(err) => {
                proof {
                    assert(goal == p_factor(toks, pos0));
                }
                return Result::Err(err);
            },
        };
        proof {
            assert(p_term_loop(toks, self.current as int, abs_expr(e)) == goal);
        }
        loop
            invariant
                self.wf(),
                self.tokens@ == toks,
                toks == old(self).tokens@,
                pos0 == old(self).current as int,
                goal == p_term(toks, pos0),
                pos0 < self.current as int,
                self.lox.diagnostics@ == old(self).lox.diagnostics@,
                p_term_loop(toks, self.current as int, abs_expr(e)) == goal,
            ensures
                self.wf(),
                self.tokens@ == toks,
                pos0 < self.current as int,
                self.lox.diagnostics@ == old(self).lox.diagnostics@,
                goal == (POut::Done { e: abs_expr(e), pos: self.current as int }),
            decreases self.tokens@.len() - self.current,
        {
            let ghost cur0 = self.current as int;
            let ghost acc0 = abs_expr(e);
            let m = self.matches(&[scanner::TokenType::PLUS, scanner::TokenType::MINUS]);
            if !m {
                proof {
                    assert(!is_term_op(toks[cur0].token_type));
                    assert(goal == (POut::Done { e: abs_expr(e), pos: self.current as int }));
                }
                break;
            }
            let op_tt = self.previous().token_type;
            let operator = Parser::token_op_to_expr_binops(op_tt);
            let right = match self.factor() {
                Result::Ok(v) => v,
                Result::Err(err) => {
                    proof {
                        assert(is_term_op(toks[cur0].token_type));
                        assert(goal == p_factor(toks, cur0 + 1));
                    }
                    return Result::Err(err);
                },
            };
            e = expr::Expr::Binary(Box::new(e), operator, Box::new(right));
            proof {
                assert(is_term_op(toks[cur0].token_type));
                assert(op_tt == toks[cur0].token_type);
                assert(abs_expr(e) == AbsExpr::Bin(
                    Box::new(acc0),
                    spec_binop(toks[cur0].token_type),
                    Box::new(abs_expr(right)),
                ));
                assert(p_term_loop(toks, self.current as int, abs_expr(e)) == goal);
            }
        }
        Result::Ok(e)
    }

    #[verifier::rlimit(80)]
    fn factor(&mut self) -> (r: Result<expr::Expr, ParseError>)
        requires
            old(self).wf(),
        ensures
            final(self).wf(),
            final(self).tokens@ == old(self).tokens@,
            old(self).current <= final(self).current,
            r is Ok ==> old(self).current < final(self).current && final(self).lox.diagnostics@
                == old(self).lox.diagnostics@,
            r is Err ==> reports_one_more(old(self).lox.diagnostics@, final(self).lox.diagnostics@),
            level_out(
                p_factor(old(self).tokens@, old(self).current as int),
                r,
                old(self).tokens@,
                *final(self),
            ),
        decreases old(self).tokens@.len() - old(self).current, 2int,
    {
        let ghost toks = self.tokens@;
        let ghost pos0 = self.current as int;
        let ghost goal = p_factor(toks, pos0);
        let mut e = match self.unary() {
            Result::Ok(v) => v,
            Result::Err(err) => {
                proof {
                    assert(goal == p_unary(toks, pos0));
                }
                return Result::Err(err);
            },
        };
        proof {
            assert(p_factor_loop(toks, self.current as int, abs_expr(e)) == goal);
        }
        loop
            invariant
                self.wf(),
                self.tokens@ == toks,
                toks == old(self).tokens@,
                pos0 == old(self).current as int,
                goal == p_factor(toks, pos0),
                pos0 < self.current as int,
                self.lox.diagnostics@ == old(self).lox.diagnostics@,
                p_factor_loop(toks, self.current as int, abs_expr(e)) == goal,
            ensures
                self.wf(),
                self.tokens@ == toks,
                pos0 < self.current as int,
                self.lox.diagnostics@ == old(self).lox.diagnostics@,
                goal == (POut::Done { e: abs_expr(e), pos: self.current as int }),
            decreases self.tokens@.len() - self.current,
        {
            let ghost cur0 = self.current as int;
            let ghost acc0 = abs_expr(e);
            let m = self.matches(&[scanner::TokenType::SLASH, scanner::TokenType::STAR]);
            if !m {
                proof {
                    assert(!is_factor_op(toks[cur0].token_type));
                    assert(goal == (POut::Done { e: abs_expr(e), pos: self.current as int }));
                }
                break;
            }
            let op_tt = self.previous().token_type;
            let operator = Parser::token_op_to_expr_binops(op_tt);
            let right = match self.unary() {
                Result::Ok(v) => v,
                Result::Err(err) => {
                    proof {
                        assert(is_factor_op(toks[cur0].token_type));
                        assert(goal == p_unary(toks, cur0 + 1));
                    }
                    return Result::Err(err);
                },
            };
            e = expr::Expr::Binary(Box::new(e), operator, Box::new(right));
            proof {
                assert(is_factor_op(toks[cur0].token_type));
                assert(op_tt == toks[cur0].token_type);
                assert(abs_expr(e) == AbsExpr::Bin(
                    Box::new(acc0),
                    spec_binop(toks[cur0].token_type),
                    Box::new(abs_expr(right)),
                ));
                assert(p_factor_loop(toks, self.current as int, abs_expr(e)) == goal);
            }
        }
        Result::Ok(e)
    }

    #[verifier::rlimit(80)]
    fn unary(&mut self) -> (r: Result<expr::Expr, ParseError>)
        requires
            old(self).wf(),
        ensures
            final(self).wf(),
            final(self).tokens@ == old(self).tokens@,
            old(self).current <= final(self).current,
            r is Ok ==> old(self).current < final(self).current && final(self).lox.diagnostics@
                == old(self).lox.diagnostics@,
            r is Err ==> reports_one_more(old(self).lox.diagnostics@, final(self).lox.diagnostics@),
            level_out(
                p_unary(old(self).tokens@, old(self).current as int),
                r,
                old(self).tokens@,
                *final(self),
            ),
        decreases old(self).tokens@.len() - old(self).current, 1int,
    {
        let ghost toks = self.tokens@;
        let ghost pos0 = self.current as int;
        let ghost goal = p_unary(toks, pos0);
        let m = self.matches(&[scanner::TokenType::BANG, scanner::TokenType::MINUS]);
        if m {
            let op_tt = self.previous().token_type;
            let operator = Parser::token_op_to_expr_unops(op_tt);
            proof {
                assert(is_unop_token(toks[pos0].token_type) && op_tt == toks[pos0].token_type);
            }
            let right = match self.unary() {
                Result::Ok(v) => v,
                Result::Err(err) => {
                    proof {
                        assert(goal == p_unary(toks, pos0 + 1));
                    }
                    return Result::Err(err);
                },
            };
            let e = expr::Expr::Unary(operator, Box::new(right));
            proof {
                assert(abs_expr(e) == AbsExpr::Un(
                    spec_unop(toks[pos0].token_type),
                    Box::new(abs_expr(right)),
                ));
            }
            return Result::Ok(e);
        }
        proof {
            assert(!is_unop_token(toks[pos0].token_type));
            assert(goal == p_primary(toks, pos0));
        }
        self.primary()
    }

    #[verifier::rlimit(80)]
    fn primary(&mut self) -> (r: Result<expr::Expr, ParseError>)
        requires
            old(self).wf(),
        ensures
            final(self).wf(),
            final(self).tokens@ == old(self).tokens@,
            old(self).current <= final(self).current,
            r is Ok ==> old(self).current < final(self).current && final(self).lox.diagnostics@
                == old(self).lox.diagnostics@,
            r is Err ==> reports_one_more(old(self).lox.diagnostics@, final(self).lox.diagnostics@),
            level_out(
                p_primary(old(self).tokens@, old(self).current as int),
                r,
                old(self).tokens@,
                *final(self),
            ),
        decreases old(self).tokens@.len() - old(self).current, 0int,
    {
        let ghost toks = self.tokens@;
        let ghost pos0 = self.current as int;
        if self.matches(&[scanner::TokenType::FALSE]) {
            return Result::Ok(expr::Expr::Literal(expr::Literal::False));
        }
        if self.matches(&[scanner::TokenType::TRUE]) {
            return Result::Ok(expr::Expr::Literal(expr::Literal::True));
        }
        if self.matches(&[scanner::TokenType::NIL]) {
            return Result::Ok(expr::Expr::Literal(expr::Literal::Nil));
        }
        if self.matches(&[scanner::TokenType::STRING]) {
            let prev = self.previous();
            match &prev.literal {
                Option::Some(scanner::Literal::Str(lit_string)) => {
                    let v = lit_string.clone();
                    return Result::Ok(expr::Expr::Literal(expr::Literal::String(v)));
                },
                _ => {
                    return unreached();
                },
            }
        }
        if self.matches(&[scanner::TokenType::NUMBER]) {
            let prev = self.previous();
            match &prev.literal {
                Option::Some(scanner::Literal::Number(num)) => {
                    let v = num.clone();
                    return Result::Ok(expr::Expr::Literal(expr::Literal::Number(v)));
                },
                _ => {
                    return unreached();
                },
            }
        }
        if self.matches(&[scanner::TokenType::LEFT_PAREN]) {
            let inner = match self.expression() {
                Result::Ok(v) => v,
                Result::Err(err) => {
                    proof {
                        assert(toks[pos0].token_type == scanner::TokenType::LEFT_PAREN);
                        assert(p_primary(toks, pos0) == p_expression(toks, pos0 + 1));
                    }
                    return Result::Err(err);
                },
            };
            match self.consume(scanner::TokenType::RIGHT_PAREN, MSG_RPAREN) {
                Result::Ok(_) => {},
                Result::Err(err) => {
                    proof {
                        assert(toks[pos0].token_type == scanner::TokenType::LEFT_PAREN);
                        assert(!self.spec_check(scanner::TokenType::RIGHT_PAREN));
                        assert(toks[self.current as int].token_type
                            != scanner::TokenType::RIGHT_PAREN);
                        assert(p_primary(toks, pos0) == (POut::Fail {
                            pos: self.current as int,
                            msg: MSG_RPAREN@,
                        }));
                    }
                    return Result::Err(err);
                },
            }
            let e = expr::Expr::Grouping(Box::new(inner));
            proof {
                assert(abs_expr(e) == AbsExpr::Group(Box::new(abs_expr(inner))));
            }
            return Result::Ok(e);
        }
        proof {
            assert(toks[pos0].token_type != scanner::TokenType::FALSE);
            assert(toks[pos0].token_type != scanner::TokenType::TRUE);
            assert(toks[pos0].token_type != scanner::TokenType::NIL);
            assert(toks[pos0].token_type != scanner::TokenType::STRING);
            assert(toks[pos0].token_type != scanner::TokenType::NUMBER);
            assert(toks[pos0].token_type != scanner::TokenType::LEFT_PAREN);
            assert(p_primary(toks, pos0) == (POut::Fail { pos: pos0, msg: MSG_EXPR@ }));
        }
        let tok = self.peek().clone();
        let e = self.error(tok, MSG_EXPR);
        Result::Err(e)
    }
}

} // verus!
