use jlox::lox::Lox;
use jlox::scanner::Literal;
use jlox::scanner::Scanner;
use jlox::scanner::Token;
use jlox::scanner::TokenType;

fn scan(source: &str) -> (Vec<Token>, Scanner) {
    let mut scanner = Scanner::new(Lox::new(), source);
    let tokens = scanner.scan_tokens();
    (tokens, scanner)
}

fn kinds(tokens: &[Token]) -> Vec<TokenType> {
    tokens.iter().map(|t| t.token_type).collect()
}

#[test]
fn empty_source_yields_single_eof() {
    let (tokens, scanner) = scan("");
    assert_eq!(tokens.len(), 1);
    assert_eq!(tokens[0].token_type, TokenType::EOF);
    assert_eq!(tokens[0].lexeme, "");
    assert_eq!(tokens[0].line, 1);
    assert!(scanner.lox.diagnostics.is_empty());
}

#[test]
fn last_token_is_eof_and_others_are_not() {
    let (tokens, _) = scan("( 12 abc \"s\" // c\n)");
    assert_eq!(tokens.last().unwrap().token_type, TokenType::EOF);
    for t in &tokens[..tokens.len() - 1] {
        assert_ne!(t.token_type, TokenType::EOF);
    }
}

#[test]
fn single_char_punctuation() {
    let (tokens, _) = scan("(){},.-+;*");
    assert_eq!(
        kinds(&tokens),
        vec![
            TokenType::LEFT_PAREN,
            TokenType::RIGHT_PAREN,
            TokenType::LEFT_BRACE,
            TokenType::RIGHT_BRACE,
            TokenType::COMMA,
            TokenType::DOT,
            TokenType::MINUS,
            TokenType::PLUS,
            TokenType::SEMICOLON,
            TokenType::STAR,
            TokenType::EOF,
        ]
    );
}

#[test]
fn one_and_two_char_operators() {
    let (tokens, _) = scan("! != = == < <= > >=");
    assert_eq!(
        kinds(&tokens),
        vec![
            TokenType::BANG,
            TokenType::BANG_EQUAL,
            TokenType::EQUAL,
            TokenType::EQUAL_EQUAL,
            TokenType::LESS,
            TokenType::LESS_EQUAL,
            TokenType::GREATER,
            TokenType::GREATER_EQUAL,
            TokenType::EOF,
        ]
    );
}

#[test]
fn slash_alone_is_a_token() {
    let (tokens, _) = scan("/");
    assert_eq!(kinds(&tokens), vec![TokenType::SLASH, TokenType::EOF]);
}

#[test]
fn comment_is_skipped_and_line_counted() {
    // scan("// comment\n42") yields [NUMBER(42), EOF] on line 2.
    let (tokens, scanner) = scan("// comment\n42");
    assert_eq!(tokens.len(), 2);
    assert_eq!(tokens[0].token_type, TokenType::NUMBER);
    assert_eq!(tokens[0].lexeme, "42");
    assert_eq!(tokens[0].literal, Some(Literal::Number(String::from("42"))));
    assert_eq!(tokens[0].line, 2);
    assert_eq!(tokens[1].token_type, TokenType::EOF);
    assert_eq!(tokens[1].line, 2);
    assert!(scanner.lox.diagnostics.is_empty());
}

#[test]
fn number_with_trailing_dot_splits() {
    // "123." lexes to NUMBER 123 followed by DOT, not one malformed number.
    let (tokens, _) = scan("123.");
    assert_eq!(kinds(&tokens), vec![TokenType::NUMBER, TokenType::DOT, TokenType::EOF]);
    assert_eq!(tokens[0].lexeme, "123");
    assert_eq!(tokens[0].literal, Some(Literal::Number(String::from("123"))));
    assert_eq!(tokens[1].lexeme, ".");
}

#[test]
fn decimal_number_is_one_token() {
    let (tokens, _) = scan("3.14");
    assert_eq!(kinds(&tokens), vec![TokenType::NUMBER, TokenType::EOF]);
    assert_eq!(tokens[0].lexeme, "3.14");
    assert_eq!(tokens[0].literal, Some(Literal::Number(String::from("3.14"))));
}

#[test]
fn unterminated_string_reports_once_and_emits_no_token() {
    // scan("\"abc") yields [EOF] and exactly one diagnostic.
    let (tokens, scanner) = scan("\"abc");
    assert_eq!(kinds(&tokens), vec![TokenType::EOF]);
    assert_eq!(scanner.lox.diagnostics.len(), 1);
    assert_eq!(scanner.lox.diagnostics[0].message, "Unterminated string.");
    assert_eq!(scanner.lox.diagnostics[0].line, 1);
}

#[test]
fn string_literal_payload_strips_quotes() {
    let (tokens, _) = scan("\"hi\"");
    assert_eq!(tokens[0].token_type, TokenType::STRING);
    assert_eq!(tokens[0].lexeme, "\"hi\"");
    assert_eq!(tokens[0].literal, Some(Literal::Str(String::from("hi"))));
}

#[test]
fn multiline_string_counts_lines() {
    let (tokens, _) = scan("\"a\nb\" x");
    assert_eq!(tokens[0].token_type, TokenType::STRING);
    assert_eq!(tokens[0].literal, Some(Literal::Str(String::from("a\nb"))));
    assert_eq!(tokens[0].line, 2);
    assert_eq!(tokens[1].token_type, TokenType::IDENTIFIER);
    assert_eq!(tokens[1].line, 2);
}

#[test]
fn all_keywords_are_recognized() {
    let (tokens, _) = scan(
        "and class else false for fun if nil or print return super this true var while",
    );
    assert_eq!(
        kinds(&tokens),
        vec![
            TokenType::AND,
            TokenType::CLASS,
            TokenType::ELSE,
            TokenType::FALSE,
            TokenType::FOR,
            TokenType::FUN,
            TokenType::IF,
            TokenType::NIL,
            TokenType::OR,
            TokenType::PRINT,
            TokenType::RETURN,
            TokenType::SUPER,
            TokenType::THIS,
            TokenType::TRUE,
            TokenType::VAR,
            TokenType::WHILE,
            TokenType::EOF,
        ]
    );
}

#[test]
fn identifiers_are_not_keywords() {
    let (tokens, _) = scan("foo _bar a1 anda classy");
    for t in &tokens[..tokens.len() - 1] {
        assert_eq!(t.token_type, TokenType::IDENTIFIER);
    }
    assert_eq!(tokens[0].lexeme, "foo");
    assert_eq!(tokens[1].lexeme, "_bar");
    assert_eq!(tokens[2].lexeme, "a1");
}

#[test]
fn underscore_continues_an_identifier() {
    let (tokens, _) = scan("a_b _");
    assert_eq!(kinds(&tokens), vec![TokenType::IDENTIFIER, TokenType::IDENTIFIER, TokenType::EOF]);
    assert_eq!(tokens[0].lexeme, "a_b");
    assert_eq!(tokens[1].lexeme, "_");
}

#[test]
fn unicode_letters_form_identifiers() {
    let (tokens, scanner) = scan("h\u{e9}llo \u{3bb}x");
    assert_eq!(
        kinds(&tokens),
        vec![TokenType::IDENTIFIER, TokenType::IDENTIFIER, TokenType::EOF]
    );
    assert_eq!(tokens[0].lexeme, "h\u{e9}llo");
    assert_eq!(tokens[1].lexeme, "\u{3bb}x");
    assert!(scanner.lox.diagnostics.is_empty());
}

#[test]
fn unexpected_character_reports_and_continues() {
    let (tokens, scanner) = scan("@1");
    assert_eq!(kinds(&tokens), vec![TokenType::NUMBER, TokenType::EOF]);
    assert_eq!(scanner.lox.diagnostics.len(), 1);
    assert_eq!(scanner.lox.diagnostics[0].message, "Unexpected character.");
    assert_eq!(scanner.lox.diagnostics[0].context, "");
}

#[test]
fn lexemes_are_substrings_and_lines_nondecrease() {
    let source = "var x = (1 + 2.5) * \"ab\" // tail\n!ok";
    let (tokens, _) = scan(source);
    let mut last_line = 0u32;
    for t in &tokens {
        if t.token_type != TokenType::EOF {
            assert!(source.contains(&t.lexeme), "lexeme {:?} not in source", t.lexeme);
        }
        assert!(t.line >= last_line);
        last_line = t.line;
    }
}

#[test]
fn newline_increments_line_counter() {
    let (tokens, _) = scan("(\n)");
    assert_eq!(tokens[0].line, 1);
    assert_eq!(tokens[1].line, 2);
    assert_eq!(tokens[2].line, 2);
}

#[test]
fn lox_records_reports_in_order() {
    let mut lox = Lox::new();
    lox.error(3, "first");
    lox.error(7, "second");
    assert_eq!(lox.diagnostics.len(), 2);
    assert_eq!(lox.diagnostics[0].line, 3);
    assert_eq!(lox.diagnostics[0].message, "first");
    assert_eq!(lox.diagnostics[1].line, 7);
    assert_eq!(lox.diagnostics[1].message, "second");
}

#[test]
fn lox_parse_error_contexts() {
    let mut lox = Lox::new();
    let tok = Token {
        token_type: TokenType::PLUS,
        lexeme: String::from("+"),
        literal: None,
        line: 2,
    };
    lox.parse_error(tok, "Expect expression.");
    assert_eq!(lox.diagnostics[0].context, " at '+'");
    assert_eq!(lox.diagnostics[0].message, "Expect expression.");
    let eof = Token { token_type: TokenType::EOF, lexeme: String::new(), literal: None, line: 5 };
    lox.parse_error(eof, "Expect expression.");
    assert_eq!(lox.diagnostics[1].context, " at end");
    assert_eq!(lox.diagnostics[1].line, 5);
}
