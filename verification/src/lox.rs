//! The diagnostics sink. Both the lexer and the parser only ever report into
//! it; neither branches on it. Reports are recorded in order as structured
//! values, so a caller (or a test) can inspect exactly what was reported;
//! rendering them for a user is left to downstream consumers.

use vstd::prelude::*;
use vstd::string::StringExecFns;

use crate::scanner::Token;
use crate::scanner::TokenType;

verus! {

/// One error report: the 1-based source line it points at, a context string
/// (empty for lexing errors, " at end" or " at '<lexeme>'" for parse errors),
/// and the message itself.
#[derive(Debug)]
pub struct Diagnostic {
    pub line: u32,
    pub context: String,
    pub message: String,
}

/// The recording diagnostics sink.
pub struct Lox {
    pub diagnostics: Vec<Diagnostic>,
}

/// `post` is `pre` with exactly one report appended.
pub open spec fn reports_one_more(pre: Seq<Diagnostic>, post: Seq<Diagnostic>) -> bool {
    &&& post.len() == pre.len() + 1
    &&& forall|i: int| 0 <= i < pre.len() ==> post[i] == #[trigger] pre[i]
}

/// `post` extends `pre`: earlier reports are never altered or dropped.
pub open spec fn reports_extended(pre: Seq<Diagnostic>, post: Seq<Diagnostic>) -> bool {
    &&& pre.len() <= post.len()
    &&& forall|i: int| 0 <= i < pre.len() ==> post[i] == #[trigger] pre[i]
}

/// The context string a parse error carries: " at end" for the end-of-input
/// token, otherwise " at '<lexeme>'".
pub open spec fn parse_error_context(token: Token) -> Seq<char> {
    if token.token_type == TokenType::EOF {
        " at end"@
    } else {
        " at '"@ + token.lexeme@ + "'"@
    }
}

impl Lox {
    pub fn new() -> (lox: Lox)
        ensures
            lox.diagnostics@.len() == 0,
    {
        Lox { diagnostics: Vec::new() }
    }

    /// Report a parse error at a token: " at end" when the parser stopped at
    /// end of input, otherwise " at '<lexeme>'" with the offending lexeme.
    pub fn parse_error(&mut self, token: Token, msg: &str)
        ensures
            reports_one_more(old(self).diagnostics@, final(self).diagnostics@),
            final(self).diagnostics@.last().line == token.line,
            final(self).diagnostics@.last().context@ == parse_error_context(token),
            final(self).diagnostics@.last().message@ == msg@,
    {
        if token.token_type == TokenType::EOF {
            self.report(token.line, String::from_str(" at end"), msg);
        } else {
            let mut context = String::from_str(" at '");
            context.append(token.lexeme.as_str());
            context.append("'");
            self.report(token.line, context, msg);
        }
    }

    /// Report a lexing error at a line, with no context string.
    pub fn error(&mut self, line: u32, message: &str)
        ensures
            reports_one_more(old(self).diagnostics@, final(self).diagnostics@),
            final(self).diagnostics@.last().line == line,
            final(self).diagnostics@.last().context@ == Seq::<char>::empty(),
            final(self).diagnostics@.last().message@ == message@,
    {
        self.report(line, String::new(), message);
    }

    fn report(&mut self, line: u32, arg_where: String, message: &str)
        ensures
            reports_one_more(old(self).diagnostics@, final(self).diagnostics@),
            final(self).diagnostics@.last().line == line,
            final(self).diagnostics@.last().context@ == arg_where@,
            final(self).diagnostics@.last().message@ == message@,
    {
        self.diagnostics.push(
            Diagnostic { line, context: arg_where, message: String::from_str(message) },
        );
    }
}

} // verus!
