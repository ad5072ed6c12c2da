//! Lexical analysis: a single forward scan over the source characters that
//! produces a line-numbered token sequence terminated by exactly one
//! end-of-input token. Lexing never aborts early: malformed input is reported
//! to the diagnostics sink and scanning continues.

use vstd::prelude::*;
use vstd::std_specs::iter::IteratorSpec;

use crate::lox::Lox;
use crate::lox::reports_extended;
use crate::lox::reports_one_more;

verus! {

/// The closed set of lexical categories.
#[derive(Debug, Clone, Copy, PartialEq, Eq, Structural)]
#[allow(non_camel_case_types)]
pub enum TokenType {
    // Single-character tokens.
    LEFT_PAREN,
    RIGHT_PAREN,
    LEFT_BRACE,
    RIGHT_BRACE,
    COMMA,
    DOT,
    MINUS,
    PLUS,
    SEMICOLON,
    SLASH,
    STAR,
    // One or two character tokens.
    BANG,
    BANG_EQUAL,
    EQUAL,
    EQUAL_EQUAL,
    GREATER,
    GREATER_EQUAL,
    LESS,
    LESS_EQUAL,
    // Literals.
    IDENTIFIER,
    STRING,
    NUMBER,
    // Keywords.
    AND,
    CLASS,
    ELSE,
    FALSE,
    FUN,
    FOR,
    IF,
    NIL,
    OR,
    PRINT,
    RETURN,
    SUPER,
    THIS,
    TRUE,
    VAR,
    WHILE,
    EOF,
}

/// The literal payload of a STRING or NUMBER token. A number keeps the exact
/// digit text it was scanned from; turning that text into a machine number is
/// left to downstream consumers.
#[derive(Debug, PartialEq)]
pub enum Literal {
    Str(String),
    Number(String),
}

/// A token: its kind, the exact source substring it came from, an optional
/// literal payload, and the 1-based line it started on.
#[derive(Debug, PartialEq)]
pub struct Token {
    pub token_type: TokenType,
    pub lexeme: String,
    pub literal: Option<Literal>,
    pub line: u32,
}

/// Do two literal payloads carry the same text?
pub open spec fn literal_like(a: Literal, b: Literal) -> bool {
    match (a, b) {
        (Literal::Str(x), Literal::Str(y)) => x@ == y@,
        (Literal::Number(x), Literal::Number(y)) => x@ == y@,
        _ => false,
    }
}

impl Clone for Literal {
    fn clone(&self) -> (r: Literal)
        ensures
            literal_like(r, *self),
    {
        match self {
            Literal::Str(s) => Literal::Str(s.clone()),
            Literal::Number(s) => Literal::Number(s.clone()),
        }
    }
}

/// Do two optional payloads agree, carrying the same text when present?
pub open spec fn opt_literal_like(a: Option<Literal>, b: Option<Literal>) -> bool {
    match (a, b) {
        (Option::Some(x), Option::Some(y)) => literal_like(x, y),
        (Option::None, Option::None) => true,
        _ => false,
    }
}

impl Clone for Token {
    fn clone(&self) -> (r: Token)
        ensures
            r.token_type == self.token_type,
            r.lexeme@ == self.lexeme@,
            opt_literal_like(r.literal, self.literal),
            r.line == self.line,
    {
        let literal = match &self.literal {
            Option::Some(l) => Option::Some(l.clone()),
            Option::None => Option::None,
        };
        Token {
            token_type: self.token_type,
            lexeme: self.lexeme.clone(),
            literal,
            line: self.line,
        }
    }
}

/// A STRING token carries a string payload and a NUMBER token a number
/// payload; no other kind requires one.
pub open spec fn payload_ok(t: Token) -> bool {
    &&& (t.token_type == TokenType::STRING ==> t.literal matches Some(Literal::Str(_)))
    &&& (t.token_type == TokenType::NUMBER ==> t.literal matches Some(Literal::Number(_)))
}

/// `sub` occurs in `src` exactly at position `p`.
pub open spec fn is_substring_at(src: Seq<char>, sub: Seq<char>, p: int) -> bool {
    &&& 0 <= p
    &&& p + sub.len() <= src.len()
    &&& sub == src.subrange(p, p + sub.len() as int)
}

/// The token's lexeme is an exact substring of the source.
pub open spec fn token_is_substring(t: Token, src: Seq<char>) -> bool {
    exists|p: int| is_substring_at(src, t.lexeme@, p)
}

/// A well-formed scan result: at least one token, exactly one end-of-input
/// marker and it comes last, and every literal-kind token carries its payload.
pub open spec fn wf_token_seq(tokens: Seq<Token>) -> bool {
    &&& tokens.len() >= 1
    &&& tokens[tokens.len() - 1].token_type == TokenType::EOF
    &&& forall|i: int|
        0 <= i < tokens.len() - 1 ==> (#[trigger] tokens[i].token_type) != TokenType::EOF
    &&& forall|i: int| 0 <= i < tokens.len() ==> payload_ok(#[trigger] tokens[i])
}

/// Line numbers never decrease across the token sequence.
pub open spec fn lines_nondecreasing(tokens: Seq<Token>) -> bool {
    forall|i: int, j: int|
        #![trigger tokens[i].line, tokens[j].line]
        0 <= i <= j < tokens.len() ==> tokens[i].line <= tokens[j].line
}

/// The tokens' lexemes occupy the source at the given positions, in order
/// and without overlap: together with the skipped whitespace and comments
/// between them they cover the source losslessly in position.
pub open spec fn lexemes_in_order(tokens: Seq<Token>, src: Seq<char>, pos: Seq<int>) -> bool {
    &&& pos.len() == tokens.len()
    &&& forall|i: int|
        0 <= i < tokens.len() ==> is_substring_at(src, tokens[i].lexeme@, #[trigger] pos[i])
    &&& forall|i: int, j: int|
        #![trigger pos[i], pos[j]]
        0 <= i < j < pos.len() ==> pos[i] + tokens[i].lexeme@.len() <= pos[j]
}

/// Everything the scanner promises of each non-EOF token it emits: a real
/// token kind, its payload present where owed, its lexeme a substring of the
/// source, and a line number between 1 and the scanner's final line counter.
pub open spec fn token_ok(t: Token, src: Seq<char>, line: u32) -> bool {
    &&& t.token_type != TokenType::EOF
    &&& payload_ok(t)
    &&& token_is_substring(t, src)
    &&& 1 <= t.line <= line
}

/// The scanner: owns the diagnostics sink, the source as a character
/// sequence, and the scan position (token start, current index, line count).
pub struct Scanner {
    pub lox: Lox,
    pub source: Vec<char>,
    pub source_len: usize,
    pub start: usize,
    pub current: usize,
    pub line: u32,
}

/// Relies on String::push: appends the given character to the end of the
/// string.
pub assume_specification[ std::string::String::push ](s: &mut String, ch: char)
    ensures
        final(s)@ == old(s)@.push(ch),
;

/// Whether a character is Unicode-alphabetic; it depends on the character
/// alone.
pub uninterp spec fn unicode_alpha(c: char) -> bool;

/// Relies on char::is_alphabetic: true exactly for Unicode-alphabetic
/// characters, a function of the character alone.
#[verifier::external_body]
fn char_is_alphabetic(c: char) -> (r: bool)
    ensures
        r == unicode_alpha(c),
{
    c.is_alphabetic()
}

/// Whether a character is Unicode-alphanumeric; it depends on the character
/// alone.
pub uninterp spec fn unicode_alnum(c: char) -> bool;

/// Relies on char::is_alphanumeric: true exactly for Unicode-alphanumeric
/// characters, a function of the character alone.
#[verifier::external_body]
fn char_is_alphanumeric(c: char) -> (r: bool)
    ensures
        r == unicode_alnum(c),
{
    c.is_alphanumeric()
}

/// An ASCII digit.
pub open spec fn spec_is_digit(c: char) -> bool {
    48 <= c as u32 <= 57
}

fn is_digit_char(c: char) -> (r: bool)
    ensures
        r == spec_is_digit(c),
{
    let u = c as u32;
    48 <= u && u <= 57
}

/// A character that may begin an identifier: alphabetic or underscore.
pub open spec fn spec_is_alpha(c: char) -> bool {
    unicode_alpha(c) || c == '_'
}

/// A character that may continue an identifier: alphanumeric or underscore.
pub open spec fn spec_is_alphanumeric(c: char) -> bool {
    unicode_alnum(c) || c == '_'
}

/// Collect the characters of a string slice, in order.
fn chars_vec(s: &str) -> (v: Vec<char>)
    ensures
        v@ == s@,
{
    broadcast use vstd::string::axiom_spec_iter;
    broadcast use vstd::string::next_postcondition;

    let mut v: Vec<char> = Vec::new();
    let mut it = s.chars();
    loop
        invariant
            it.obeys_prophetic_iter_laws(),
            v@ + it.remaining() == s@,
        ensures
            v@ == s@,
        decreases s@.len() - v@.len(),
    {
        let ghost pre = it.remaining();
        let c_opt = it.next();
        match c_opt {
            Option::Some(c) => {
                proof {
                    assert(pre =~= seq![pre[0]] + pre.drop_first());
                }
                v.push(c);
                proof {
                    assert(v@ + it.remaining() =~= s@);
                }
            },
            Option::None => {
                proof {
                    assert(v@ =~= s@);
                }
                break;
            },
        }
    }
    v
}

/// Copy the characters of `src` between `from` and `to` into a fresh string.
fn string_range(src: &Vec<char>, from: usize, to: usize) -> (s: String)
    requires
        from <= to <= src@.len(),
    ensures
        s@ == src@.subrange(from as int, to as int),
{
    let mut s = String::new();
    let mut i: usize = from;
    while i < to
        invariant
            from <= i <= to <= src@.len(),
            s@ == src@.subrange(from as int, i as int),
        decreases to - i,
    {
        s.push(src[i]);
        proof {
            assert(src@.subrange(from as int, i + 1 as int) =~= src@.subrange(
                from as int,
                i as int,
            ).push(src@[i as int]));
        }
        i = i + 1;
    }
    s
}

/// The token kind of an identifier-shaped text: the keyword's kind when the
/// text is one of the sixteen reserved keywords, IDENTIFIER otherwise.
pub open spec fn spec_keyword(s: Seq<char>) -> TokenType {
    if s == seq!['a', 'n', 'd'] {
        TokenType::AND
    } else if s == seq!['c', 'l', 'a', 's', 's'] {
        TokenType::CLASS
    } else if s == seq!['e', 'l', 's', 'e'] {
        TokenType::ELSE
    } else if s == seq!['f', 'a', 'l', 's', 'e'] {
        TokenType::FALSE
    } else if s == seq!['f', 'o', 'r'] {
        TokenType::FOR
    } else if s == seq!['f', 'u', 'n'] {
        TokenType::FUN
    } else if s == seq!['i', 'f'] {
        TokenType::IF
    } else if s == seq!['n', 'i', 'l'] {
        TokenType::NIL
    } else if s == seq!['o', 'r'] {
        TokenType::OR
    } else if s == seq!['p', 'r', 'i', 'n', 't'] {
        TokenType::PRINT
    } else if s == seq!['r', 'e', 't', 'u', 'r', 'n'] {
        TokenType::RETURN
    } else if s == seq!['s', 'u', 'p', 'e', 'r'] {
        TokenType::SUPER
    } else if s == seq!['t', 'h', 'i', 's'] {
        TokenType::THIS
    } else if s == seq!['t', 'r', 'u', 'e'] {
        TokenType::TRUE
    } else if s == seq!['v', 'a', 'r'] {
        TokenType::VAR
    } else if s == seq!['w', 'h', 'i', 'l', 'e'] {
        TokenType::WHILE
    } else {
        TokenType::IDENTIFIER
    }
}


/// The spec-level value of a token: its kind, lexeme text, payload text and
/// line, free of the executable string type.
pub struct SpecToken {
    pub kind: TokenType,
    pub lexeme: Seq<char>,
    pub payload: Option<SpecPayload>,
    pub line: u32,
}

/// The spec-level value of a literal payload.
pub enum SpecPayload {
    PStr(Seq<char>),
    PNum(Seq<char>),
}

/// The spec-level value of one scanner report: its line and message (the
/// scanner's reports carry no context string).
pub struct SpecReport {
    pub line: u32,
    pub msg: Seq<char>,
}

/// The spec-level value of an executable token.
pub open spec fn abs_token(t: Token) -> SpecToken {
    SpecToken {
        kind: t.token_type,
        lexeme: t.lexeme@,
        payload: match t.literal {
            Some(Literal::Str(s)) => Some(SpecPayload::PStr(s@)),
            Some(Literal::Number(s)) => Some(SpecPayload::PNum(s@)),
            None => None,
        },
        line: t.line,
    }
}

/// The spec-level values of a token sequence.
pub open spec fn abs_tokens(tokens: Seq<Token>) -> Seq<SpecToken> {
    tokens.map_values(|t: Token| abs_token(t))
}

/// The spec-level value of a recorded report.
pub open spec fn abs_report(d: crate::lox::Diagnostic) -> SpecReport {
    SpecReport { line: d.line, msg: d.message@ }
}

/// The spec-level values of a report sequence.
pub open spec fn abs_reports(ds: Seq<crate::lox::Diagnostic>) -> Seq<SpecReport> {
    ds.map_values(|d: crate::lox::Diagnostic| abs_report(d))
}

/// The singleton or empty sequence an optional value stands for.
pub open spec fn opt_seq<T>(o: Option<T>) -> Seq<T> {
    match o {
        Some(x) => seq![x],
        None => Seq::empty(),
    }
}

/// The first index at or after `p` whose character fails `f`, or the end of
/// the source.
pub open spec fn run_end(src: Seq<char>, p: int, f: spec_fn(char) -> bool) -> int
    decreases src.len() - p,
{
    if !(0 <= p < src.len()) {
        src.len() as int
    } else if !f(src[p]) {
        p
    } else {
        run_end(src, p + 1, f)
    }
}

/// What `run_end` returns: a position in `[p, len]`, every character before
/// it satisfying `f`, the character at it (if any) failing `f`.
pub proof fn lemma_run_end(src: Seq<char>, p: int, f: spec_fn(char) -> bool)
    requires
        0 <= p <= src.len(),
    ensures
        p <= run_end(src, p, f) <= src.len(),
        forall|i: int| p <= i < run_end(src, p, f) ==> f(#[trigger] src[i]),
        run_end(src, p, f) < src.len() ==> !f(src[run_end(src, p, f)]),
    decreases src.len() - p,
{
    if p < src.len() && f(src[p]) {
        lemma_run_end(src, p + 1, f);
    }
}

/// The first index at or after `p` that is not an ASCII digit.
pub open spec fn digits_end(src: Seq<char>, p: int) -> int {
    run_end(src, p, |c: char| spec_is_digit(c))
}

/// The first index at or after `p` that cannot continue an identifier.
pub open spec fn ident_end(src: Seq<char>, p: int) -> int {
    run_end(src, p, |c: char| spec_is_alphanumeric(c))
}

/// The first newline at or after `p`, or the end of the source.
pub open spec fn comment_end(src: Seq<char>, p: int) -> int {
    run_end(src, p, |c: char| c != '\n')
}

/// The first double quote at or after `p`, or the end of the source.
pub open spec fn quote_end(src: Seq<char>, p: int) -> int {
    run_end(src, p, |c: char| c != '"')
}

pub proof fn lemma_digits_end(src: Seq<char>, p: int)
    requires
        0 <= p <= src.len(),
    ensures
        p <= digits_end(src, p) <= src.len(),
        forall|i: int| p <= i < digits_end(src, p) ==> spec_is_digit(#[trigger] src[i]),
        digits_end(src, p) < src.len() ==> !spec_is_digit(src[digits_end(src, p)]),
    decreases src.len() - p,
{
    if p < src.len() && spec_is_digit(src[p]) {
        lemma_digits_end(src, p + 1);
        assert(digits_end(src, p) == digits_end(src, p + 1));
    }
}

pub proof fn lemma_ident_end(src: Seq<char>, p: int)
    requires
        0 <= p <= src.len(),
    ensures
        p <= ident_end(src, p) <= src.len(),
        forall|i: int| p <= i < ident_end(src, p) ==> spec_is_alphanumeric(#[trigger] src[i]),
        ident_end(src, p) < src.len() ==> !spec_is_alphanumeric(src[ident_end(src, p)]),
    decreases src.len() - p,
{
    if p < src.len() && spec_is_alphanumeric(src[p]) {
        lemma_ident_end(src, p + 1);
        assert(ident_end(src, p) == ident_end(src, p + 1));
    }
}

pub proof fn lemma_comment_end(src: Seq<char>, p: int)
    requires
        0 <= p <= src.len(),
    ensures
        p <= comment_end(src, p) <= src.len(),
        forall|i: int| p <= i < comment_end(src, p) ==> (#[trigger] src[i]) != '\n',
        comment_end(src, p) < src.len() ==> src[comment_end(src, p)] == '\n',
    decreases src.len() - p,
{
    if p < src.len() && src[p] != '\n' {
        lemma_comment_end(src, p + 1);
        assert(comment_end(src, p) == comment_end(src, p + 1));
    }
}

pub proof fn lemma_quote_end(src: Seq<char>, p: int)
    requires
        0 <= p <= src.len(),
    ensures
        p <= quote_end(src, p) <= src.len(),
        forall|i: int| p <= i < quote_end(src, p) ==> (#[trigger] src[i]) != '"',
        quote_end(src, p) < src.len() ==> src[quote_end(src, p)] == '"',
    decreases src.len() - p,
{
    if p < src.len() && src[p] != '"' {
        lemma_quote_end(src, p + 1);
        assert(quote_end(src, p) == quote_end(src, p + 1));
    }
}

/// Line addition that sticks at the counter's ceiling, as the scanner's line
/// counter does.
pub open spec fn sat_add(line: u32, n: nat) -> u32 {
    if line + n <= u32::MAX {
        (line + n) as u32
    } else {
        u32::MAX
    }
}

/// How many newline characters a text holds.
pub open spec fn newline_count(s: Seq<char>) -> nat
    decreases s.len(),
{
    if s.len() == 0 {
        0
    } else {
        newline_count(s.drop_last()) + if s.last() == '\n' {
            1nat
        } else {
            0nat
        }
    }
}

/// Where a number ends: the maximal run of digits, extended over a decimal
/// point only when at least one digit follows it. `p` is the position after
/// the leading digit.
pub open spec fn number_end(src: Seq<char>, p: int) -> int {
    let e1 = digits_end(src, p);
    if e1 < src.len() && src[e1] == '.' && e1 + 1 < src.len() && spec_is_digit(src[e1 + 1]) {
        digits_end(src, e1 + 1)
    } else {
        e1
    }
}

/// The digit text of a scanned number: digits, optionally a decimal point
/// with at least one digit on each side of it.
pub open spec fn is_number_text(s: Seq<char>) -> bool {
    ||| (s.len() >= 1 && forall|i: int| 0 <= i < s.len() ==> spec_is_digit(#[trigger] s[i]))
    ||| (exists|k: int|
        1 <= k < s.len() - 1 && s[k] == '.' && (forall|i: int|
            0 <= i < k ==> spec_is_digit(#[trigger] s[i])) && (forall|i: int|
            k < i < s.len() ==> spec_is_digit(#[trigger] s[i])))
}

/// Clamp an index into a window; on every reachable path the value is
/// already inside and this is the identity, but it makes the recursion
/// measure of the scan model self-evident.
pub open spec fn clamp_ix(p: int, lo: int, hi: int) -> int {
    if p < lo {
        lo
    } else if p > hi {
        hi
    } else {
        p
    }
}

/// A single-character-class token step: the cursor moves by `n`, the token
/// carries the matched text and the current line, nothing is reported.
pub open spec fn step_token(src: Seq<char>, pos: int, line: u32, kind: TokenType, n: int) -> StepOut {
    StepOut {
        pos: pos + n,
        line,
        tok: Some(
            SpecToken { kind, lexeme: src.subrange(pos, pos + n), payload: None, line },
        ),
        rep: None,
    }
}

/// What one `scan_token` call does: the cursor and line after it, the token
/// it appends (if any), and the report it makes (if any).
pub struct StepOut {
    pub pos: int,
    pub line: u32,
    pub tok: Option<SpecToken>,
    pub rep: Option<SpecReport>,
}

/// The scanner's per-character case split, as a function of the source,
/// the cursor and the line counter.
pub open spec fn scan_step(src: Seq<char>, pos: int, line: u32) -> StepOut {
    let c = src[pos];
    if c == '(' {
        step_token(src, pos, line, TokenType::LEFT_PAREN, 1)
    } else if c == ')' {
        step_token(src, pos, line, TokenType::RIGHT_PAREN, 1)
    } else if c == '{' {
        step_token(src, pos, line, TokenType::LEFT_BRACE, 1)
    } else if c == '}' {
        step_token(src, pos, line, TokenType::RIGHT_BRACE, 1)
    } else if c == ',' {
        step_token(src, pos, line, TokenType::COMMA, 1)
    } else if c == '.' {
        step_token(src, pos, line, TokenType::DOT, 1)
    } else if c == '-' {
        step_token(src, pos, line, TokenType::MINUS, 1)
    } else if c == '+' {
        step_token(src, pos, line, TokenType::PLUS, 1)
    } else if c == ';' {
        step_token(src, pos, line, TokenType::SEMICOLON, 1)
    } else if c == '*' {
        step_token(src, pos, line, TokenType::STAR, 1)
    } else if c == '!' {
        if pos + 1 < src.len() && src[pos + 1] == '=' {
            step_token(src, pos, line, TokenType::BANG_EQUAL, 2)
        } else {
            step_token(src, pos, line, TokenType::BANG, 1)
        }
    } else if c == '=' {
        if pos + 1 < src.len() && src[pos + 1] == '=' {
            step_token(src, pos, line, TokenType::EQUAL_EQUAL, 2)
        } else {
            step_token(src, pos, line, TokenType::EQUAL, 1)
        }
    } else if c == '<' {
        if pos + 1 < src.len() && src[pos + 1] == '=' {
            step_token(src, pos, line, TokenType::LESS_EQUAL, 2)
        } else {
            step_token(src, pos, line, TokenType::LESS, 1)
        }
    } else if c == '>' {
        if pos + 1 < src.len() && src[pos + 1] == '=' {
            step_token(src, pos, line, TokenType::GREATER_EQUAL, 2)
        } else {
            step_token(src, pos, line, TokenType::GREATER, 1)
        }
    } else if c == '/' {
        if pos + 1 < src.len() && src[pos + 1] == '/' {
            StepOut {
                pos: clamp_ix(comment_end(src, pos + 2), pos + 1, src.len() as int),
                line,
                tok: None,
                rep: None,
            }
        } else {
            step_token(src, pos, line, TokenType::SLASH, 1)
        }
    } else if c == ' ' || c == '\r' || c == '\t' {
        StepOut { pos: pos + 1, line, tok: None, rep: None }
    } else if c == '\n' {
        StepOut { pos: pos + 1, line: sat_add(line, 1), tok: None, rep: None }
    } else if c == '"' {
        let qe = clamp_ix(quote_end(src, pos + 1), pos + 1, src.len() as int);
        let l2 = sat_add(line, newline_count(src.subrange(pos + 1, qe)));
        if qe < src.len() {
            StepOut {
                pos: qe + 1,
                line: l2,
                tok: Some(
                    SpecToken {
                        kind: TokenType::STRING,
                        lexeme: src.subrange(pos, qe + 1),
                        payload: Some(SpecPayload::PStr(src.subrange(pos + 1, qe))),
                        line: l2,
                    },
                ),
                rep: None,
            }
        } else {
            StepOut {
                pos: qe,
                line: l2,
                tok: None,
                rep: Some(SpecReport { line: l2, msg: "Unterminated string."@ }),
            }
        }
    } else if spec_is_digit(c) {
        let ne = clamp_ix(number_end(src, pos + 1), pos + 1, src.len() as int);
        StepOut {
            pos: ne,
            line,
            tok: Some(
                SpecToken {
                    kind: TokenType::NUMBER,
                    lexeme: src.subrange(pos, ne),
                    payload: Some(SpecPayload::PNum(src.subrange(pos, ne))),
                    line,
                },
            ),
            rep: None,
        }
    } else if spec_is_alpha(c) {
        let ie = clamp_ix(ident_end(src, pos + 1), pos + 1, src.len() as int);
        StepOut {
            pos: ie,
            line,
            tok: Some(
                SpecToken {
                    kind: spec_keyword(src.subrange(pos, ie)),
                    lexeme: src.subrange(pos, ie),
                    payload: None,
                    line,
                },
            ),
            rep: None,
        }
    } else {
        StepOut {
            pos: pos + 1,
            line,
            tok: None,
            rep: Some(SpecReport { line, msg: "Unexpected character."@ }),
        }
    }
}

/// Everything the scan loop produces from a cursor and line to the end of
/// the source: the tokens and reports in order, and the final line counter.
pub struct ScanRest {
    pub tokens: Seq<SpecToken>,
    pub reports: Seq<SpecReport>,
    pub line: u32,
}

/// The whole scan from a position: tokens, reports and final line as a
/// function of the source alone.
pub open spec fn spec_scan(src: Seq<char>, pos: int, line: u32) -> ScanRest
    decreases src.len() - pos,
{
    if !(0 <= pos < src.len()) {
        ScanRest { tokens: Seq::empty(), reports: Seq::empty(), line }
    } else {
        let st = scan_step(src, pos, line);
        let rest = spec_scan(src, st.pos, st.line);
        ScanRest {
            tokens: opt_seq(st.tok) + rest.tokens,
            reports: opt_seq(st.rep) + rest.reports,
            line: rest.line,
        }
    }
}

/// Decide between keyword kinds and IDENTIFIER for the text between `from`
/// and `to`.
fn keyword_type(src: &Vec<char>, from: usize, to: usize) -> (t: TokenType)
    requires
        from <= to <= src@.len(),
    ensures
        t == spec_keyword(src@.subrange(from as int, to as int)),
{
    let ghost s = src@.subrange(from as int, to as int);
    let n = to - from;
    if n == 2 {
        if src[from] == 'i' && src[from + 1] == 'f' {
            proof {
                assert(s =~= seq!['i', 'f']);
            }
            return TokenType::IF;
        }
        if src[from] == 'o' && src[from + 1] == 'r' {
            proof {
                assert(s =~= seq!['o', 'r']);
            }
            return TokenType::OR;
        }
        proof {
            assert(s.len() == 2);
            assert(s[0] == src@[from as int]);
            assert(s[1] == src@[from + 1]);
        }
        return TokenType::IDENTIFIER;
    }
    if n == 3 {
        if src[from] == 'a' && src[from + 1] == 'n' && src[from + 2] == 'd' {
            proof {
                assert(s =~= seq!['a', 'n', 'd']);
            }
            return TokenType::AND;
        }
        if src[from] == 'f' && src[from + 1] == 'o' && src[from + 2] == 'r' {
            proof {
                assert(s =~= seq!['f', 'o', 'r']);
            }
            return TokenType::FOR;
        }
        if src[from] == 'f' && src[from + 1] == 'u' && src[from + 2] == 'n' {
            proof {
                assert(s =~= seq!['f', 'u', 'n']);
            }
            return TokenType::FUN;
        }
        if src[from] == 'n' && src[from + 1] == 'i' && src[from + 2] == 'l' {
            proof {
                assert(s =~= seq!['n', 'i', 'l']);
            }
            return TokenType::NIL;
        }
        if src[from] == 'v' && src[from + 1] == 'a' && src[from + 2] == 'r' {
            proof {
                assert(s =~= seq!['v', 'a', 'r']);
            }
            return TokenType::VAR;
        }
        proof {
            assert(s.len() == 3);
            assert(s[0] == src@[from as int]);
            assert(s[1] == src@[from + 1]);
            assert(s[2] == src@[from + 2]);
        }
        return TokenType::IDENTIFIER;
    }
    if n == 4 {
        if src[from] == 'e' && src[from + 1] == 'l' && src[from + 2] == 's' && src[from + 3]
            == 'e' {
            proof {
                assert(s =~= seq!['e', 'l', 's', 'e']);
            }
            return TokenType::ELSE;
        }
        if src[from] == 't' && src[from + 1] == 'h' && src[from + 2] == 'i' && src[from + 3]
            == 's' {
            proof {
                assert(s =~= seq!['t', 'h', 'i', 's']);
            }
            return TokenType::THIS;
        }
        if src[from] == 't' && src[from + 1] == 'r' && src[from + 2] == 'u' && src[from + 3]
            == 'e' {
            proof {
                assert(s =~= seq!['t', 'r', 'u', 'e']);
            }
            return TokenType::TRUE;
        }
        proof {
            assert(s.len() == 4);
            assert(s[0] == src@[from as int]);
            assert(s[1] == src@[from + 1]);
            assert(s[2] == src@[from + 2]);
            assert(s[3] == src@[from + 3]);
        }
        return TokenType::IDENTIFIER;
    }
    if n == 5 {
        if src[from] == 'c' && src[from + 1] == 'l' && src[from + 2] == 'a' && src[from + 3]
            == 's' && src[from + 4] == 's' {
            proof {
                assert(s =~= seq!['c', 'l', 'a', 's', 's']);
            }
            return TokenType::CLASS;
        }
        if src[from] == 'f' && src[from + 1] == 'a' && src[from + 2] == 'l' && src[from + 3]
            == 's' && src[from + 4] == 'e' {
            proof {
                assert(s =~= seq!['f', 'a', 'l', 's', 'e']);
            }
            return TokenType::FALSE;
        }
        if src[from] == 'p' && src[from + 1] == 'r' && src[from + 2] == 'i' && src[from + 3]
            == 'n' && src[from + 4] == 't' {
            proof {
                assert(s =~= seq!['p', 'r', 'i', 'n', 't']);
            }
            return TokenType::PRINT;
        }
        if src[from] == 's' && src[from + 1] == 'u' && src[from + 2] == 'p' && src[from + 3]
            == 'e' && src[from + 4] == 'r' {
            proof {
                assert(s =~= seq!['s', 'u', 'p', 'e', 'r']);
            }
            return TokenType::SUPER;
        }
        if src[from] == 'w' && src[from + 1] == 'h' && src[from + 2] == 'i' && src[from + 3]
            == 'l' && src[from + 4] == 'e' {
            proof {
                assert(s =~= seq!['w', 'h', 'i', 'l', 'e']);
            }
            return TokenType::WHILE;
        }
        proof {
            assert(s.len() == 5);
            assert(s[0] == src@[from as int]);
            assert(s[1] == src@[from + 1]);
            assert(s[2] == src@[from + 2]);
            assert(s[3] == src@[from + 3]);
            assert(s[4] == src@[from + 4]);
        }
        return TokenType::IDENTIFIER;
    }
    if n == 6 {
        if src[from] == 'r' && src[from + 1] == 'e' && src[from + 2] == 't' && src[from + 3]
            == 'u' && src[from + 4] == 'r' && src[from + 5] == 'n' {
            proof {
                assert(s =~= seq!['r', 'e', 't', 'u', 'r', 'n']);
            }
            return TokenType::RETURN;
        }
        proof {
            assert(s.len() == 6);
            assert(s[0] == src@[from as int]);
            assert(s[1] == src@[from + 1]);
            assert(s[2] == src@[from + 2]);
            assert(s[3] == src@[from + 3]);
            assert(s[4] == src@[from + 4]);
            assert(s[5] == src@[from + 5]);
        }
        return TokenType::IDENTIFIER;
    }
    proof {
        assert(s.len() == n as int);
    }
    TokenType::IDENTIFIER
}

impl Scanner {
    /// The scanner's invariant: the cached length is the source's, the token
    /// start never passes the current index, the current index never passes
    /// the end, and the line counter starts at 1.
    pub open spec fn wf(self) -> bool {
        &&& self.source_len == self.source@.len()
        &&& self.start <= self.current <= self.source_len
        &&& 1 <= self.line
    }

    pub fn new(lox: Lox, source: &str) -> (scanner: Scanner)
        ensures
            scanner.wf(),
            scanner.source@ == source@,
            scanner.start == 0,
            scanner.current == 0,
            scanner.line == 1,
            scanner.lox == lox,
    {
        let chars = chars_vec(source);
        let source_len = chars.len();
        Scanner { lox, source: chars, source_len, start: 0, current: 0, line: 1 }
    }

    fn is_at_end(&self) -> (r: bool)
        ensures
            r == (self.current >= self.source_len),
    {
        self.current >= self.source_len
    }

    /// Consume and return the current character.
    fn advance(&mut self) -> (c: char)
        requires
            old(self).wf(),
            old(self).current < old(self).source_len,
        ensures
            final(self).wf(),
            final(self).source == old(self).source,
            final(self).source_len == old(self).source_len,
            final(self).start == old(self).start,
            final(self).line == old(self).line,
            final(self).lox == old(self).lox,
            final(self).current == old(self).current + 1,
            c == old(self).source@[old(self).current as int],
    {
        let current_char = self.source[self.current];
        self.current = self.current + 1;
        current_char
    }

    /// Consume the current character exactly when it is `expected`.
    fn matches(&mut self, expected: char) -> (r: bool)
        requires
            old(self).wf(),
        ensures
            final(self).wf(),
            final(self).source == old(self).source,
            final(self).source_len == old(self).source_len,
            final(self).start == old(self).start,
            final(self).line == old(self).line,
            final(self).lox == old(self).lox,
            r == (old(self).current < old(self).source_len && old(self).source@[old(
                self,
            ).current as int] == expected),
            r ==> final(self).current == old(self).current + 1,
            !r ==> final(self).current == old(self).current,
    {
        if self.current >= self.source_len {
            return false;
        }
        if self.source[self.current] != expected {
            return false;
        }
        self.current = self.current + 1;
        true
    }

    /// The current character, or the NUL character at end of input.
    pub open spec fn spec_peek(self) -> char {
        if self.current < self.source@.len() {
            self.source@[self.current as int]
        } else {
            '\0'
        }
    }

    fn peek(&self) -> (c: char)
        requires
            self.wf(),
        ensures
            c == self.spec_peek(),
    {
        if self.current >= self.source_len {
            '\0'
        } else {
            self.source[self.current]
        }
    }

    /// The character after the current one, or the NUL character when fewer
    /// than two remain.
    pub open spec fn spec_peek_next(self) -> char {
        if self.current + 1 < self.source@.len() {
            self.source@[self.current + 1]
        } else {
            '\0'
        }
    }

    fn peek_next(&self) -> (c: char)
        requires
            self.wf(),
        ensures
            c == self.spec_peek_next(),
    {
        if self.source_len - self.current <= 1 {
            '\0'
        } else {
            self.source[self.current + 1]
        }
    }

    /// Move the line counter to the next line.
    fn bump_line(&mut self)
        requires
            old(self).wf(),
        ensures
            final(self).wf(),
            final(self).source == old(self).source,
            final(self).source_len == old(self).source_len,
            final(self).start == old(self).start,
            final(self).current == old(self).current,
            final(self).lox == old(self).lox,
            old(self).line <= final(self).line,
            final(self).line == sat_add(old(self).line, 1),
    {
        if self.line < u32::MAX {
            self.line = self.line + 1;
        }
    }

    /// Append a token without a payload for the text between `start` and
    /// `current`.
    fn add_token(&mut self, tokens: &mut Vec<Token>, token_type: TokenType)
        requires
            old(self).wf(),
            token_type != TokenType::EOF,
            token_type != TokenType::STRING,
            token_type != TokenType::NUMBER,
        ensures
            *final(self) == *old(self),
            final(tokens)@.len() == old(tokens)@.len() + 1,
            forall|i: int| 0 <= i < old(tokens)@.len() ==> final(tokens)@[i] == #[trigger] old(
                tokens,
            )@[i],
            final(tokens)@.last().token_type == token_type,
            final(tokens)@.last().line == old(self).line,
            final(tokens)@.last().lexeme@ == old(self).source@.subrange(
                old(self).start as int,
                old(self).current as int,
            ),
            final(tokens)@.last().literal is None,
            token_ok(final(tokens)@.last(), old(self).source@, old(self).line),
    {
        self.add_token_literal(tokens, token_type, Option::None);
    }

    /// Append a token for the text between `start` and `current`, carrying
    /// the given payload.
    fn add_token_literal(
        &mut self,
        tokens: &mut Vec<Token>,
        token_type: TokenType,
        literal: Option<Literal>,
    )
        requires
            old(self).wf(),
            token_type != TokenType::EOF,
            token_type == TokenType::STRING ==> literal matches Some(Literal::Str(_)),
            token_type == TokenType::NUMBER ==> literal matches Some(Literal::Number(_)),
        ensures
            *final(self) == *old(self),
            final(tokens)@.len() == old(tokens)@.len() + 1,
            forall|i: int| 0 <= i < old(tokens)@.len() ==> final(tokens)@[i] == #[trigger] old(
                tokens,
            )@[i],
            final(tokens)@.last().token_type == token_type,
            final(tokens)@.last().line == old(self).line,
            final(tokens)@.last().lexeme@ == old(self).source@.subrange(
                old(self).start as int,
                old(self).current as int,
            ),
            final(tokens)@.last().literal == literal,
            token_ok(final(tokens)@.last(), old(self).source@, old(self).line),
    {
        let text = string_range(&self.source, self.start, self.current);
        let token = Token { token_type, lexeme: text, literal, line: self.line };
        tokens.push(token);
        proof {
            assert(is_substring_at(
                self.source@,
                tokens@.last().lexeme@,
                self.start as int,
            ));
        }
    }
}

/// `post` is `pre` with at most one token appended; any appended token is a
/// well-formed non-EOF token of the source whose line lies in the given
/// window.
pub open spec fn pushed_ok(
    pre: Seq<Token>,
    post: Seq<Token>,
    src: Seq<char>,
    line_lo: u32,
    line_hi: u32,
) -> bool {
    &&& pre.len() <= post.len() <= pre.len() + 1
    &&& forall|i: int| 0 <= i < pre.len() ==> post[i] == #[trigger] pre[i]
    &&& forall|i: int|
        pre.len() <= i < post.len() ==> token_ok(#[trigger] post[i], src, line_hi) && line_lo
            <= post[i].line
}

impl Scanner {
    fn is_alpha(c: char) -> (r: bool)
        ensures
            r == spec_is_alpha(c),
    {
        char_is_alphabetic(c) || c == '_'
    }

    fn is_alphanumeric(c: char) -> (r: bool)
        ensures
            r == spec_is_alphanumeric(c),
    {
        char_is_alphanumeric(c) || c == '_'
    }

    /// Scan the rest of a string literal; the opening quote is already
    /// consumed. On reaching end of input first, report and emit no token.
    /// Scan the rest of a string literal; the opening quote is already
    /// consumed. It succeeds exactly when a closing quote exists before end
    /// of input: then the cursor lands just past it, the line counter has
    /// grown by the embedded newlines, and the token is appended. Otherwise
    /// everything up to end of input is consumed and the one report is made.
    fn string(&mut self, tokens: &mut Vec<Token>)
        requires
            old(self).wf(),
            old(self).start < old(self).current,
        ensures
            final(self).wf(),
            final(self).source == old(self).source,
            final(self).source_len == old(self).source_len,
            old(self).current <= final(self).current,
            old(self).line <= final(self).line,
            reports_extended(old(self).lox.diagnostics@, final(self).lox.diagnostics@),
            final(self).start == old(self).start,
            pushed_ok(
                old(tokens)@,
                final(tokens)@,
                old(self).source@,
                old(self).line,
                final(self).line,
            ),
            final(tokens)@.len() == old(tokens)@.len() + 1 ==> final(tokens)@.last().lexeme@ == old(
                self,
            ).source@.subrange(old(self).start as int, final(self).current as int),
            final(tokens)@.len() == old(tokens)@.len() + 1 ==> final(tokens)@.last().token_type
                == TokenType::STRING && (final(tokens)@.last().literal matches Some(
                Literal::Str(v),
            ) && v@ == old(self).source@.subrange(
                old(self).start + 1,
                final(self).current - 1,
            )) && final(self).lox == old(self).lox && final(tokens)@.last().line
                == final(self).line,
            ({
                let src = old(self).source@;
                let qe = quote_end(src, old(self).current as int);
                let l2 = sat_add(
                    old(self).line,
                    newline_count(src.subrange(old(self).current as int, qe)),
                );
                &&& final(self).line == l2
                &&& (if qe < src.len() {
                    &&& final(self).current == qe + 1
                    &&& final(tokens)@.len() == old(tokens)@.len() + 1
                } else {
                    &&& final(self).current == src.len()
                    &&& final(tokens)@ == old(tokens)@
                    &&& reports_one_more(
                        old(self).lox.diagnostics@,
                        final(self).lox.diagnostics@,
                    )
                    &&& final(self).lox.diagnostics@.last().line == l2
                    &&& final(self).lox.diagnostics@.last().context@ == Seq::<char>::empty()
                    &&& final(self).lox.diagnostics@.last().message@ == "Unterminated string."@
                })
            }),
    {
        let ghost src = self.source@;
        let ghost c0 = self.current as int;
        let ghost line0 = self.line;
        proof {
            assert(src.subrange(c0, c0) =~= Seq::<char>::empty());
        }
        loop
            invariant
                self.wf(),
                self.source == old(self).source,
                self.source_len == old(self).source_len,
                self.start == old(self).start,
                old(self).start < self.current,
                old(self).current <= self.current,
                old(self).line <= self.line,
                self.lox == old(self).lox,
                src == self.source@,
                c0 == old(self).current as int,
                line0 == old(self).line,
                quote_end(src, c0) == quote_end(src, self.current as int),
                self.line == sat_add(line0, newline_count(src.subrange(c0, self.current as int))),
            ensures
                self.wf(),
                self.source == old(self).source,
                self.source_len == old(self).source_len,
                self.start == old(self).start,
                old(self).start < self.current,
                old(self).current <= self.current,
                old(self).line <= self.line,
                self.lox == old(self).lox,
                self.current as int == quote_end(src, c0),
                self.line == sat_add(line0, newline_count(src.subrange(c0, self.current as int))),
            decreases self.source_len - self.current,
        {
            if self.is_at_end() {
                proof {
                    assert(quote_end(src, self.current as int) == self.current as int);
                }
                break;
            }
            let c = self.peek();
            if c == '"' {
                proof {
                    assert(quote_end(src, self.current as int) == self.current as int);
                }
                break;
            }
            let ghost cur = self.current as int;
            proof {
                assert(quote_end(src, cur) == quote_end(src, cur + 1));
                assert(src.subrange(c0, cur + 1).drop_last() =~= src.subrange(c0, cur));
                assert(src.subrange(c0, cur + 1).last() == src[cur]);
                assert(newline_count(src.subrange(c0, cur + 1)) == newline_count(
                    src.subrange(c0, cur),
                ) + if src[cur] == '\n' {
                    1nat
                } else {
                    0nat
                });
            }
            if c == '\n' {
                self.bump_line();
            }
            self.advance();
        }
        if self.is_at_end() {
            let line_now = self.line;
            self.lox.error(line_now, "Unterminated string.");
            return;
        }
        self.advance();
        let value = string_range(&self.source, self.start + 1, self.current - 1);
        self.add_token_literal(tokens, TokenType::STRING, Option::Some(Literal::Str(value)));
    }

    /// Scan the rest of a number literal; the leading digit is already
    /// consumed. A decimal point is consumed only when a digit follows it.
    /// Scan the rest of a number literal; the leading digit is already
    /// consumed. A decimal point is consumed only when a digit follows it.
    fn number(&mut self, tokens: &mut Vec<Token>)
        requires
            old(self).wf(),
            old(self).current == old(self).start + 1,
            spec_is_digit(old(self).source@[old(self).start as int]),
        ensures
            final(self).wf(),
            final(self).source == old(self).source,
            final(self).source_len == old(self).source_len,
            final(self).start == old(self).start,
            final(self).line == old(self).line,
            final(self).lox == old(self).lox,
            old(self).current <= final(self).current,
            final(self).current == number_end(old(self).source@, old(self).current as int),
            pushed_ok(
                old(tokens)@,
                final(tokens)@,
                old(self).source@,
                old(self).line,
                final(self).line,
            ),
            final(tokens)@.len() == old(tokens)@.len() + 1,
            final(tokens)@.last().lexeme@ == old(self).source@.subrange(
                old(self).start as int,
                final(self).current as int,
            ),
            final(tokens)@.last().token_type == TokenType::NUMBER,
            final(tokens)@.last().literal matches Some(Literal::Number(t)) && t@ == old(
                self,
            ).source@.subrange(old(self).start as int, final(self).current as int),
            is_number_text(
                old(self).source@.subrange(old(self).start as int, final(self).current as int),
            ),
    {
        let ghost src = self.source@;
        let ghost a = self.start as int;
        let ghost c0 = self.current as int;
        loop
            invariant
                self.wf(),
                self.source == old(self).source,
                self.source_len == old(self).source_len,
                self.start == old(self).start,
                self.line == old(self).line,
                self.lox == old(self).lox,
                old(self).start < self.current,
                old(self).current <= self.current,
                src == self.source@,
                c0 == old(self).current as int,
                digits_end(src, c0) == digits_end(src, self.current as int),
            ensures
                self.wf(),
                self.source == old(self).source,
                self.source_len == old(self).source_len,
                self.start == old(self).start,
                self.line == old(self).line,
                self.lox == old(self).lox,
                old(self).start < self.current,
                old(self).current <= self.current,
                self.current as int == digits_end(src, c0),
            decreases self.source_len - self.current,
        {
            if self.is_at_end() {
                proof {
                    assert(digits_end(src, self.current as int) == self.current as int);
                }
                break;
            }
            let c = self.peek();
            if !is_digit_char(c) {
                proof {
                    assert(digits_end(src, self.current as int) == self.current as int);
                }
                break;
            }
            proof {
                assert(digits_end(src, self.current as int) == digits_end(
                    src,
                    self.current + 1,
                ));
            }
            self.advance();
        }
        let ghost e1 = self.current as int;
        let dot = self.peek();
        if dot == '.' {
            let next = self.peek_next();
            if is_digit_char(next) {
                self.advance();
                loop
                    invariant
                        self.wf(),
                        self.source == old(self).source,
                        self.source_len == old(self).source_len,
                        self.start == old(self).start,
                        self.line == old(self).line,
                        self.lox == old(self).lox,
                        old(self).start < self.current,
                        old(self).current <= self.current,
                        src == self.source@,
                        e1 + 1 <= self.current,
                        digits_end(src, e1 + 1) == digits_end(src, self.current as int),
                    ensures
                        self.wf(),
                        self.source == old(self).source,
                        self.source_len == old(self).source_len,
                        self.start == old(self).start,
                        self.line == old(self).line,
                        self.lox == old(self).lox,
                        old(self).start < self.current,
                        old(self).current <= self.current,
                        self.current as int == digits_end(src, e1 + 1),
                    decreases self.source_len - self.current,
                {
                    if self.is_at_end() {
                        proof {
                            assert(digits_end(src, self.current as int) == self.current as int);
                        }
                        break;
                    }
                    let c = self.peek();
                    if !is_digit_char(c) {
                        proof {
                            assert(digits_end(src, self.current as int) == self.current as int);
                        }
                        break;
                    }
                    proof {
                        assert(digits_end(src, self.current as int) == digits_end(
                            src,
                            self.current + 1,
                        ));
                    }
                    self.advance();
                }
            }
        }
        proof {
            assert(self.current as int == number_end(src, c0));
            let b = self.current as int;
            let s = src.subrange(a, b);
            lemma_digits_end(src, c0);
            if e1 < src.len() && src[e1] == '.' && e1 + 1 < src.len() && spec_is_digit(
                src[e1 + 1],
            ) {
                lemma_digits_end(src, e1 + 1);
                assert(digits_end(src, e1 + 1) == digits_end(src, e1 + 2));
                let k = e1 - a;
                assert forall|i: int| 0 <= i < k implies spec_is_digit(#[trigger] s[i]) by {
                    assert(s[i] == src[a + i]);
                }
                assert forall|i: int| k < i < s.len() implies spec_is_digit(#[trigger] s[i]) by {
                    assert(s[i] == src[a + i]);
                }
                assert(s[k] == '.');
                assert(1 <= k < s.len() - 1);
                assert(is_number_text(s));
            } else {
                assert(b == e1);
                assert forall|i: int| 0 <= i < s.len() implies spec_is_digit(#[trigger] s[i]) by {
                    assert(s[i] == src[a + i]);
                }
                assert(is_number_text(s));
            }
        }
        let text = string_range(&self.source, self.start, self.current);
        self.add_token_literal(tokens, TokenType::NUMBER, Option::Some(Literal::Number(text)));
    }

    /// Scan the rest of an identifier or keyword; the leading character is
    /// already consumed.
    /// Scan the rest of an identifier or keyword; the leading character is
    /// already consumed.
    fn identifier(&mut self, tokens: &mut Vec<Token>)
        requires
            old(self).wf(),
            old(self).start < old(self).current,
        ensures
            final(self).wf(),
            final(self).source == old(self).source,
            final(self).source_len == old(self).source_len,
            final(self).start == old(self).start,
            final(self).line == old(self).line,
            final(self).lox == old(self).lox,
            old(self).current <= final(self).current,
            final(self).current == ident_end(old(self).source@, old(self).current as int),
            pushed_ok(
                old(tokens)@,
                final(tokens)@,
                old(self).source@,
                old(self).line,
                final(self).line,
            ),
            final(tokens)@.len() == old(tokens)@.len() + 1,
            final(tokens)@.last().lexeme@ == old(self).source@.subrange(
                old(self).start as int,
                final(self).current as int,
            ),
            final(tokens)@.last().token_type == spec_keyword(
                old(self).source@.subrange(old(self).start as int, final(self).current as int),
            ),
            final(tokens)@.last().literal is None,
    {
        let ghost src = self.source@;
        let ghost c0 = self.current as int;
        loop
            invariant
                self.wf(),
                self.source == old(self).source,
                self.source_len == old(self).source_len,
                self.start == old(self).start,
                self.line == old(self).line,
                self.lox == old(self).lox,
                old(self).start < self.current,
                old(self).current <= self.current,
                src == self.source@,
                c0 == old(self).current as int,
                ident_end(src, c0) == ident_end(src, self.current as int),
            ensures
                self.wf(),
                self.source == old(self).source,
                self.source_len == old(self).source_len,
                self.start == old(self).start,
                self.line == old(self).line,
                self.lox == old(self).lox,
                old(self).start < self.current,
                old(self).current <= self.current,
                self.current as int == ident_end(src, c0),
            decreases self.source_len - self.current,
        {
            if self.is_at_end() {
                proof {
                    assert(ident_end(src, self.current as int) == self.current as int);
                }
                break;
            }
            let c = self.peek();
            if !Scanner::is_alphanumeric(c) {
                proof {
                    assert(ident_end(src, self.current as int) == self.current as int);
                }
                break;
            }
            proof {
                assert(ident_end(src, self.current as int) == ident_end(src, self.current + 1));
            }
            self.advance();
        }
        let token_type = keyword_type(&self.source, self.start, self.current);
        self.add_token(tokens, token_type);
    }

    /// Scan one token (or skip whitespace or a comment) starting at the
    /// current index; always consumes at least one character.
    /// Scan one token (or skip whitespace or a comment) starting at the
    /// current index: exactly the step `scan_step` assigns to the source at
    /// the current cursor and line. Always consumes at least one character.
    fn scan_token(&mut self, tokens: &mut Vec<Token>)
        requires
            old(self).wf(),
            old(self).start == old(self).current,
            old(self).current < old(self).source_len,
        ensures
            final(self).wf(),
            final(self).source == old(self).source,
            final(self).source_len == old(self).source_len,
            old(self).current < final(self).current,
            old(self).line <= final(self).line,
            reports_extended(old(self).lox.diagnostics@, final(self).lox.diagnostics@),
            pushed_ok(
                old(tokens)@,
                final(tokens)@,
                old(self).source@,
                old(self).line,
                final(self).line,
            ),
            ({
                let st = scan_step(old(self).source@, old(self).current as int, old(self).line);
                let newdiags = final(self).lox.diagnostics@;
                &&& final(self).current == st.pos
                &&& final(self).line == st.line
                &&& (match st.tok {
                    Some(t) => final(tokens)@.len() == old(tokens)@.len() + 1 && abs_token(
                        final(tokens)@.last(),
                    ) == t,
                    None => final(tokens)@ == old(tokens)@,
                })
                &&& (match st.rep {
                    Some(rp) => {
                        &&& reports_one_more(old(self).lox.diagnostics@, newdiags)
                        &&& newdiags.last().line == rp.line
                        &&& newdiags.last().message@ == rp.msg
                        &&& newdiags.last().context@ == Seq::<char>::empty()
                    },
                    None => final(self).lox == old(self).lox,
                })
            }),
    {
        let ghost src = self.source@;
        let ghost pos0 = self.current as int;
        let ghost line0 = self.line;
        let c = self.advance();
        match c {
            '(' => self.add_token(tokens, TokenType::LEFT_PAREN),
            ')' => self.add_token(tokens, TokenType::RIGHT_PAREN),
            '{' => self.add_token(tokens, TokenType::LEFT_BRACE),
            '}' => self.add_token(tokens, TokenType::RIGHT_BRACE),
            ',' => self.add_token(tokens, TokenType::COMMA),
            '.' => self.add_token(tokens, TokenType::DOT),
            '-' => self.add_token(tokens, TokenType::MINUS),
            '+' => self.add_token(tokens, TokenType::PLUS),
            ';' => self.add_token(tokens, TokenType::SEMICOLON),
            '*' => self.add_token(tokens, TokenType::STAR),
            '!' => {
                let two = self.matches('=');
                let token_type = if two {
                    TokenType::BANG_EQUAL
                } else {
                    TokenType::BANG
                };
                self.add_token(tokens, token_type);
            },
            '=' => {
                let two = self.matches('=');
                let token_type = if two {
                    TokenType::EQUAL_EQUAL
                } else {
                    TokenType::EQUAL
                };
                self.add_token(tokens, token_type);
            },
            '<' => {
                let two = self.matches('=');
                let token_type = if two {
                    TokenType::LESS_EQUAL
                } else {
                    TokenType::LESS
                };
                self.add_token(tokens, token_type);
            },
            '>' => {
                let two = self.matches('=');
                let token_type = if two {
                    TokenType::GREATER_EQUAL
                } else {
                    TokenType::GREATER
                };
                self.add_token(tokens, token_type);
            },
            '/' => {
                let two = self.matches('/');
                if two {
                    loop
                        invariant
                            self.wf(),
                            self.source == old(self).source,
                            self.source_len == old(self).source_len,
                            self.start == old(self).start,
                            self.line == old(self).line,
                            self.lox == old(self).lox,
                            old(self).current < self.current,
                            src == self.source@,
                            pos0 + 2 <= self.current,
                            comment_end(src, pos0 + 2) == comment_end(src, self.current as int),
                        ensures
                            self.wf(),
                            self.source == old(self).source,
                            self.source_len == old(self).source_len,
                            self.start == old(self).start,
                            self.line == old(self).line,
                            self.lox == old(self).lox,
                            old(self).current < self.current,
                            self.current as int == comment_end(src, pos0 + 2),
                        decreases self.source_len - self.current,
                    {
                        if self.is_at_end() {
                            proof {
                                assert(comment_end(src, self.current as int)
                                    == self.current as int);
                            }
                            break;
                        }
                        let c2 = self.peek();
                        if c2 == '\n' {
                            proof {
                                assert(comment_end(src, self.current as int)
                                    == self.current as int);
                            }
                            break;
                        }
                        proof {
                            assert(comment_end(src, self.current as int) == comment_end(
                                src,
                                self.current + 1,
                            ));
                        }
                        self.advance();
                    }
                    proof {
                        lemma_comment_end(src, pos0 + 2);
                    }
                } else {
                    self.add_token(tokens, TokenType::SLASH);
                }
            },
            ' ' | '\r' | '\t' => {},
            '\n' => self.bump_line(),
            '"' => {
                self.string(tokens);
                proof {
                    lemma_quote_end(src, pos0 + 1);
                }
            },
            _ => {
                if is_digit_char(c) {
                    self.number(tokens);
                    proof {
                        lemma_digits_end(src, pos0 + 1);
                        let e1 = digits_end(src, pos0 + 1);
                        if e1 < src.len() && src[e1] == '.' && e1 + 1 < src.len()
                            && spec_is_digit(src[e1 + 1]) {
                            lemma_digits_end(src, e1 + 1);
                        }
                    }
                } else {
                    let alpha = Scanner::is_alpha(c);
                    if alpha {
                        self.identifier(tokens);
                        proof {
                            lemma_ident_end(src, pos0 + 1);
                        }
                    } else {
                        let line_now = self.line;
                        self.lox.error(line_now, "Unexpected character.");
                    }
                }
            },
        }
    }

    /// Scan the whole source: repeatedly scan tokens until end of input, then
    /// append exactly one EOF token with an empty lexeme at the final line.
    /// Scan the whole source: exactly the tokens and reports that
    /// `spec_scan` assigns to it, then exactly one EOF token with an empty
    /// lexeme at the final line.
    #[verifier::rlimit(100)]
    pub fn scan_tokens(&mut self) -> (tokens: Vec<Token>)
        requires
            old(self).wf(),
        ensures
            final(self).wf(),
            final(self).source == old(self).source,
            old(self).line <= final(self).line,
            reports_extended(old(self).lox.diagnostics@, final(self).lox.diagnostics@),
            wf_token_seq(tokens@),
            lines_nondecreasing(tokens@),
            exists|pos: Seq<int>| lexemes_in_order(tokens@, old(self).source@, pos),
            forall|i: int|
                0 <= i < tokens@.len() - 1 ==> token_ok(
                    #[trigger] tokens@[i],
                    old(self).source@,
                    final(self).line,
                ),
            tokens@.last().lexeme@ == Seq::<char>::empty(),
            tokens@.last().literal is None,
            tokens@.last().line == final(self).line,
            final(self).current == old(self).source@.len(),
            ({
                let m = spec_scan(old(self).source@, old(self).current as int, old(self).line);
                let d0 = old(self).lox.diagnostics@.len() as int;
                let newdiags = final(self).lox.diagnostics@;
                &&& final(self).line == m.line
                &&& abs_tokens(tokens@) == m.tokens.push(
                    (SpecToken {
                        kind: TokenType::EOF,
                        lexeme: Seq::empty(),
                        payload: None,
                        line: m.line,
                    }),
                )
                &&& abs_reports(newdiags.skip(d0)) == m.reports
                &&& forall|i: int|
                    d0 <= i < newdiags.len() ==> (#[trigger] newdiags[i]).context@
                        == Seq::<char>::empty()
            }),
    {
        let ghost src = self.source@;
        let ghost full = spec_scan(src, self.current as int, self.line);
        let ghost d0 = self.lox.diagnostics@.len() as int;
        let mut tokens: Vec<Token> = Vec::new();
        let ghost mut pos = Seq::<int>::empty();
        proof {
            assert(abs_tokens(tokens@) =~= Seq::<SpecToken>::empty());
            assert(abs_reports(self.lox.diagnostics@.skip(d0)) =~= Seq::<SpecReport>::empty());
            assert(full.tokens =~= abs_tokens(tokens@) + spec_scan(
                src,
                self.current as int,
                self.line,
            ).tokens);
            assert(full.reports =~= abs_reports(self.lox.diagnostics@.skip(d0)) + spec_scan(
                src,
                self.current as int,
                self.line,
            ).reports);
        }
        loop
            invariant
                self.wf(),
                self.source == old(self).source,
                self.source_len == old(self).source_len,
                old(self).line <= self.line,
                reports_extended(old(self).lox.diagnostics@, self.lox.diagnostics@),
                forall|i: int|
                    0 <= i < tokens@.len() ==> token_ok(
                        #[trigger] tokens@[i],
                        old(self).source@,
                        self.line,
                    ),
                lines_nondecreasing(tokens@),
                lexemes_in_order(tokens@, old(self).source@, pos),
                forall|i: int|
                    0 <= i < pos.len() ==> #[trigger] pos[i] + tokens@[i].lexeme@.len()
                        <= self.current as int,
                src == self.source@,
                full == spec_scan(src, old(self).current as int, old(self).line),
                d0 == old(self).lox.diagnostics@.len() as int,
                d0 <= self.lox.diagnostics@.len(),
                full.tokens == abs_tokens(tokens@) + spec_scan(
                    src,
                    self.current as int,
                    self.line,
                ).tokens,
                full.reports == abs_reports(self.lox.diagnostics@.skip(d0)) + spec_scan(
                    src,
                    self.current as int,
                    self.line,
                ).reports,
                full.line == spec_scan(src, self.current as int, self.line).line,
                forall|i: int|
                    d0 <= i < self.lox.diagnostics@.len() ==> (#[trigger] self.lox.diagnostics@[i]).context@
                        == Seq::<char>::empty(),
            ensures
                self.wf(),
                self.source == old(self).source,
                old(self).line <= self.line,
                reports_extended(old(self).lox.diagnostics@, self.lox.diagnostics@),
                forall|i: int|
                    0 <= i < tokens@.len() ==> token_ok(
                        #[trigger] tokens@[i],
                        old(self).source@,
                        self.line,
                    ),
                lines_nondecreasing(tokens@),
                lexemes_in_order(tokens@, old(self).source@, pos),
                forall|i: int|
                    0 <= i < pos.len() ==> #[trigger] pos[i] + tokens@[i].lexeme@.len()
                        <= self.current as int,
                self.current >= self.source_len,
                src == self.source@,
                full == spec_scan(src, old(self).current as int, old(self).line),
                d0 == old(self).lox.diagnostics@.len() as int,
                d0 <= self.lox.diagnostics@.len(),
                full.tokens == abs_tokens(tokens@),
                full.reports == abs_reports(self.lox.diagnostics@.skip(d0)),
                full.line == self.line,
                forall|i: int|
                    d0 <= i < self.lox.diagnostics@.len() ==> (#[trigger] self.lox.diagnostics@[i]).context@
                        == Seq::<char>::empty(),
            decreases self.source_len - self.current,
        {
            if self.is_at_end() {
                proof {
                    assert(spec_scan(src, self.current as int, self.line).tokens
                        =~= Seq::<SpecToken>::empty());
                    assert(full.tokens =~= abs_tokens(tokens@));
                    assert(full.reports =~= abs_reports(self.lox.diagnostics@.skip(d0)));
                }
                break;
            }
            self.start = self.current;
            let ghost pre_tokens = tokens@;
            let ghost pre_line = self.line;
            let ghost pre_pos = pos;
            let ghost pre_current = self.current as int;
            let ghost pre_diags = self.lox.diagnostics@;
            self.scan_token(&mut tokens);
            proof {
                let st = scan_step(src, pre_current, pre_line);
                let rest = spec_scan(src, self.current as int, self.line);
                assert(spec_scan(src, pre_current, pre_line).tokens == opt_seq(st.tok)
                    + rest.tokens);
                assert(spec_scan(src, pre_current, pre_line).reports == opt_seq(st.rep)
                    + rest.reports);
                match st.tok {
                    Some(t) => {
                        assert(abs_tokens(tokens@) =~= abs_tokens(pre_tokens).push(
                            abs_token(tokens@.last()),
                        ));
                        assert(abs_tokens(pre_tokens) + (opt_seq(st.tok) + rest.tokens)
                            =~= abs_tokens(tokens@) + rest.tokens);
                    },
                    None => {
                        assert(abs_tokens(tokens@) =~= abs_tokens(pre_tokens));
                        assert(abs_tokens(pre_tokens) + (opt_seq(st.tok) + rest.tokens)
                            =~= abs_tokens(tokens@) + rest.tokens);
                    },
                }
                match st.rep {
                    Some(rp) => {
                        assert(self.lox.diagnostics@.skip(d0) =~= pre_diags.skip(d0).push(
                            self.lox.diagnostics@.last(),
                        ));
                        assert(abs_reports(self.lox.diagnostics@.skip(d0)) =~= abs_reports(
                            pre_diags.skip(d0),
                        ).push(abs_report(self.lox.diagnostics@.last())));
                        assert(abs_reports(pre_diags.skip(d0)) + (opt_seq(st.rep) + rest.reports)
                            =~= abs_reports(self.lox.diagnostics@.skip(d0)) + rest.reports);
                    },
                    None => {
                        assert(abs_reports(pre_diags.skip(d0)) + (opt_seq(st.rep) + rest.reports)
                            =~= abs_reports(self.lox.diagnostics@.skip(d0)) + rest.reports);
                    },
                }
                if tokens@.len() == pre_tokens.len() + 1 {
                    pos = pos.push(pre_current);
                    assert forall|i: int| 0 <= i < tokens@.len() implies is_substring_at(
                        old(self).source@,
                        tokens@[i].lexeme@,
                        #[trigger] pos[i],
                    ) by {
                        if i < pre_tokens.len() {
                            assert(tokens@[i] == pre_tokens[i] && pos[i] == pre_pos[i]);
                            assert(is_substring_at(
                                old(self).source@,
                                pre_tokens[i].lexeme@,
                                pre_pos[i],
                            ));
                        } else {
                            assert(tokens@[i] == tokens@.last());
                            assert(pre_current + tokens@.last().lexeme@.len()
                                <= self.current as int <= self.source@.len());
                        }
                    }
                    assert forall|i: int| 0 <= i < pos.len() implies #[trigger] pos[i]
                        + tokens@[i].lexeme@.len() <= self.current as int by {
                        if i < pre_tokens.len() {
                            assert(tokens@[i] == pre_tokens[i] && pos[i] == pre_pos[i]);
                            assert(pre_pos[i] + pre_tokens[i].lexeme@.len() <= pre_current);
                        }
                    }
                    assert forall|i: int, j: int|
                        #![trigger pos[i], pos[j]]
                        0 <= i < j < pos.len() implies pos[i] + tokens@[i].lexeme@.len()
                        <= pos[j] by {
                        if j < pre_tokens.len() {
                            assert(tokens@[i] == pre_tokens[i] && pos[i] == pre_pos[i]);
                            assert(pos[j] == pre_pos[j]);
                            assert(pre_pos[i] + pre_tokens[i].lexeme@.len() <= pre_pos[j]);
                        } else {
                            assert(tokens@[i] == pre_tokens[i] && pos[i] == pre_pos[i]);
                            assert(pre_pos[i] + pre_tokens[i].lexeme@.len() <= pre_current);
                        }
                    }
                } else {
                    assert(tokens@ =~= pre_tokens);
                }
                assert forall|i: int| 0 <= i < tokens@.len() implies token_ok(
                    #[trigger] tokens@[i],
                    old(self).source@,
                    self.line,
                ) by {
                    if i < pre_tokens.len() {
                        assert(tokens@[i] == pre_tokens[i]);
                        assert(token_ok(pre_tokens[i], old(self).source@, pre_line));
                    } else {
                        assert(token_ok(tokens@[i], old(self).source@, self.line));
                    }
                }
                assert forall|i: int, j: int|
                    #![trigger tokens@[i].line, tokens@[j].line]
                    0 <= i <= j < tokens@.len() implies tokens@[i].line <= tokens@[j].line by {
                    if j < pre_tokens.len() {
                        assert(tokens@[i] == pre_tokens[i] && tokens@[j] == pre_tokens[j]);
                        assert(pre_tokens[i].line <= pre_tokens[j].line);
                    } else if i < pre_tokens.len() {
                        assert(tokens@[i] == pre_tokens[i]);
                        assert(token_ok(pre_tokens[i], old(self).source@, pre_line));
                        assert(token_ok(tokens@[j], old(self).source@, self.line) && pre_line
                            <= tokens@[j].line);
                    } else {
                        assert(i == j);
                    }
                }
                assert forall|i: int|
                    d0 <= i < self.lox.diagnostics@.len() implies (#[trigger] self.lox.diagnostics@[i]).context@
                    == Seq::<char>::empty() by {
                    if i < pre_diags.len() {
                        assert(self.lox.diagnostics@[i] == pre_diags[i]);
                    } else {
                        assert(i == self.lox.diagnostics@.len() - 1);
                        assert(self.lox.diagnostics@[i] == self.lox.diagnostics@.last());
                    }
                }
            }
        }
        let ghost pre = tokens@;
        let ghost pre_pos = pos;
        let eof_lexeme = String::new();
        let line_now = self.line;
        tokens.push(
            Token {
                token_type: TokenType::EOF,
                lexeme: eof_lexeme,
                literal: Option::None,
                line: line_now,
            },
        );
        proof {
            pos = pos.push(self.current as int);
            assert(tokens@.last().lexeme@ =~= self.source@.subrange(
                self.current as int,
                self.current as int,
            ));
            assert(abs_token(tokens@.last()) == (SpecToken {
                kind: TokenType::EOF,
                lexeme: Seq::empty(),
                payload: None,
                line: full.line,
            }));
            assert(abs_tokens(tokens@) =~= abs_tokens(pre).push(abs_token(tokens@.last())));
            assert forall|i: int| 0 <= i < tokens@.len() implies is_substring_at(
                old(self).source@,
                tokens@[i].lexeme@,
                #[trigger] pos[i],
            ) by {
                if i < pre.len() {
                    assert(tokens@[i] == pre[i] && pos[i] == pre_pos[i]);
                    assert(is_substring_at(old(self).source@, pre[i].lexeme@, pre_pos[i]));
                }
            }
            assert forall|i: int, j: int|
                #![trigger pos[i], pos[j]]
                0 <= i < j < pos.len() implies pos[i] + tokens@[i].lexeme@.len() <= pos[j] by {
                if j < pre.len() {
                    assert(tokens@[i] == pre[i] && pos[i] == pre_pos[i]);
                    assert(pos[j] == pre_pos[j]);
                    assert(pre_pos[i] + pre[i].lexeme@.len() <= pre_pos[j]);
                } else {
                    assert(tokens@[i] == pre[i] && pos[i] == pre_pos[i]);
                    assert(pre_pos[i] + pre[i].lexeme@.len() <= self.current as int);
                }
            }
            assert(lexemes_in_order(tokens@, old(self).source@, pos));
            assert forall|i: int| 0 <= i < tokens@.len() - 1 implies token_ok(
                #[trigger] tokens@[i],
                old(self).source@,
                self.line,
            ) by {
                assert(tokens@[i] == pre[i]);
                assert(token_ok(pre[i], old(self).source@, self.line));
            }
            assert forall|i: int, j: int|
                #![trigger tokens@[i].line, tokens@[j].line]
                0 <= i <= j < tokens@.len() implies tokens@[i].line <= tokens@[j].line by {
                if j < tokens@.len() - 1 {
                    assert(tokens@[i] == pre[i] && tokens@[j] == pre[j]);
                    assert(pre[i].line <= pre[j].line);
                } else if i < tokens@.len() - 1 {
                    assert(tokens@[i] == pre[i]);
                    assert(token_ok(pre[i], old(self).source@, self.line));
                }
            }
        }
        tokens
    }
}

} // verus!
