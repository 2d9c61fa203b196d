use lexer::lexer::Lexer;
use lexer::token::Token;
use lexer::token::TokenType;

fn collect_tokens(input: &str) -> Vec<Token> {
    let mut lx = Lexer::new(String::from(input));
    let mut tokens: Vec<Token> = Vec::new();
    loop {
        let tok = lx.next_token();
        let done = tok.t_type == TokenType::EOF;
        tokens.push(tok);
        if done {
            break;
        }
    }
    tokens
}

#[test]
fn test_next_token() {
    let input = "=+(){},;let+dondon+fn test fn notakewword 1 12 == != ! - * / > <";

    let cases = vec![
        (TokenType::Assign, String::from("=")),
        (TokenType::Plus, String::from("+")),
        (TokenType::Lparen, String::from("(")),
        (TokenType::Rparen, String::from(")")),
        (TokenType::Lbrace, String::from("{")),
        (TokenType::Rbrace, String::from("}")),
        (TokenType::Comma, String::from(",")),
        (TokenType::Semicolon, String::from(";")),
        (TokenType::Let, String::from("let")),
        (TokenType::Plus, String::from("+")),
        (TokenType::Ident, String::from("dondon")),
        (TokenType::Plus, String::from("+")),
        (TokenType::Function, String::from("fn")),
        (TokenType::Ident, String::from("test")),
        (TokenType::Function, String::from("fn")),
        (TokenType::Ident, String::from("notakewword")),
        (TokenType::Int, String::from("1")),
        (TokenType::Int, String::from("12")),
        (TokenType::Equality, String::from("==")),
        (TokenType::NotEqual, String::from("!=")),
        (TokenType::Bang, String::from("!")),
        (TokenType::Minus, String::from("-")),
        (TokenType::Asterisk, String::from("*")),
        (TokenType::Slash, String::from("/")),
        (TokenType::Gt, String::from(">")),
        (TokenType::Lt, String::from("<")),
    ];

    let mut lexer = Lexer::new(String::from(input));
    for (expected_type, expected_literal) in cases {
        let tok = lexer.next_token();
        assert_eq!(tok.t_type, expected_type);
        assert_eq!(tok.literal, expected_literal);
    }
}

#[test]
fn totality_empty_input_and_repeated_calls() {
    let mut lexer = Lexer::new(String::new());
    for _ in 0..5 {
        let tok = lexer.next_token();
        assert_eq!(tok.t_type, TokenType::EOF);
    }

    let mut lexer = Lexer::new(String::from("let x"));
    let mut count = 0;
    loop {
        let tok = lexer.next_token();
        if tok.t_type == TokenType::EOF {
            break;
        }
        count += 1;
        assert!(count <= 5);
    }
    // The terminal state is idempotent: further calls keep yielding EOF.
    for _ in 0..3 {
        assert_eq!(lexer.next_token().t_type, TokenType::EOF);
    }
}

#[test]
fn text_fidelity_of_identifiers_and_numbers() {
    let tokens = collect_tokens("alpha 0123 beta007");
    assert_eq!(tokens[0].t_type, TokenType::Ident);
    assert_eq!(tokens[0].literal, "alpha");
    assert_eq!(tokens[1].t_type, TokenType::Int);
    assert_eq!(tokens[1].literal, "0123");
    assert_eq!(tokens[2].t_type, TokenType::Ident);
    assert_eq!(tokens[2].literal, "beta");
    assert_eq!(tokens[3].t_type, TokenType::Int);
    assert_eq!(tokens[3].literal, "007");
    assert_eq!(tokens[4].t_type, TokenType::EOF);
    assert_eq!(tokens.len(), 5);
}

#[test]
fn lookahead_equality() {
    let tokens = collect_tokens("==");
    assert_eq!(tokens.len(), 2);
    assert_eq!(tokens[0].t_type, TokenType::Equality);
    assert_eq!(tokens[0].literal, "==");
    assert_eq!(tokens[1].t_type, TokenType::EOF);

    let tokens = collect_tokens("=");
    assert_eq!(tokens.len(), 2);
    assert_eq!(tokens[0].t_type, TokenType::Assign);
    assert_eq!(tokens[0].literal, "=");
}

#[test]
fn lookahead_inequality() {
    let tokens = collect_tokens("!=");
    assert_eq!(tokens.len(), 2);
    assert_eq!(tokens[0].t_type, TokenType::NotEqual);
    assert_eq!(tokens[0].literal, "!=");

    let tokens = collect_tokens("!");
    assert_eq!(tokens.len(), 2);
    assert_eq!(tokens[0].t_type, TokenType::Bang);
    assert_eq!(tokens[0].literal, "!");
}

#[test]
fn keyword_vs_identifier_boundary() {
    let tokens = collect_tokens("fn");
    assert_eq!(tokens[0].t_type, TokenType::Function);
    assert_eq!(tokens[0].literal, "fn");

    // No prefix matching: a longer run that starts with a keyword is an identifier.
    let tokens = collect_tokens("function");
    assert_eq!(tokens[0].t_type, TokenType::Ident);
    assert_eq!(tokens[0].literal, "function");
}

#[test]
fn all_keywords_are_recognized() {
    let tokens = collect_tokens("fn let true false if else return");
    let expected = vec![
        TokenType::Function,
        TokenType::Let,
        TokenType::True,
        TokenType::False,
        TokenType::If,
        TokenType::Else,
        TokenType::Return,
        TokenType::EOF,
    ];
    assert_eq!(tokens.len(), expected.len());
    for (tok, want) in tokens.iter().zip(expected) {
        assert_eq!(tok.t_type, want);
    }
}

#[test]
fn keyword_followed_by_symbol_loses_nothing() {
    let tokens = collect_tokens("true;");
    assert_eq!(tokens.len(), 3);
    assert_eq!(tokens[0].t_type, TokenType::True);
    assert_eq!(tokens[0].literal, "true");
    assert_eq!(tokens[1].t_type, TokenType::Semicolon);
    assert_eq!(tokens[1].literal, ";");
    assert_eq!(tokens[2].t_type, TokenType::EOF);
}

#[test]
fn whitespace_transparency() {
    let tokens = collect_tokens("  +   -");
    assert_eq!(tokens.len(), 3);
    assert_eq!(tokens[0].t_type, TokenType::Plus);
    assert_eq!(tokens[0].literal, "+");
    assert_eq!(tokens[1].t_type, TokenType::Minus);
    assert_eq!(tokens[1].literal, "-");
    assert_eq!(tokens[2].t_type, TokenType::EOF);
}

#[test]
fn tabs_and_carriage_returns_are_whitespace() {
    let tokens = collect_tokens("\t x \r y \t");
    assert_eq!(tokens.len(), 3);
    assert_eq!(tokens[0].t_type, TokenType::Ident);
    assert_eq!(tokens[0].literal, "x");
    assert_eq!(tokens[1].t_type, TokenType::Ident);
    assert_eq!(tokens[1].literal, "y");
    assert_eq!(tokens[2].t_type, TokenType::EOF);
}

#[test]
fn let_statement_scenario() {
    let tokens = collect_tokens("let five = 5;");
    let expected = vec![
        (TokenType::Let, "let"),
        (TokenType::Ident, "five"),
        (TokenType::Assign, "="),
        (TokenType::Int, "5"),
        (TokenType::Semicolon, ";"),
    ];
    assert_eq!(tokens.len(), expected.len() + 1);
    for (tok, (want_type, want_literal)) in tokens.iter().zip(expected) {
        assert_eq!(tok.t_type, want_type);
        assert_eq!(tok.literal, want_literal);
    }
    assert_eq!(tokens[5].t_type, TokenType::EOF);
}

#[test]
fn equality_scenario() {
    let tokens = collect_tokens("10 == 10");
    let expected = vec![
        (TokenType::Int, "10"),
        (TokenType::Equality, "=="),
        (TokenType::Int, "10"),
    ];
    assert_eq!(tokens.len(), expected.len() + 1);
    for (tok, (want_type, want_literal)) in tokens.iter().zip(expected) {
        assert_eq!(tok.t_type, want_type);
        assert_eq!(tok.literal, want_literal);
    }
    assert_eq!(tokens[3].t_type, TokenType::EOF);
}

#[test]
fn illegal_character() {
    let tokens = collect_tokens("@");
    assert_eq!(tokens.len(), 2);
    assert_eq!(tokens[0].t_type, TokenType::Illegal);
    assert_eq!(tokens[0].literal, "@");
    assert_eq!(tokens[1].t_type, TokenType::EOF);
}

#[test]
fn newline_is_an_illegal_character() {
    // The scanner is line-based: a line feed is not whitespace and is
    // tagged as a single illegal character, like any other stray byte.
    let tokens = collect_tokens("a\nb");
    assert_eq!(tokens.len(), 4);
    assert_eq!(tokens[0].t_type, TokenType::Ident);
    assert_eq!(tokens[0].literal, "a");
    assert_eq!(tokens[1].t_type, TokenType::Illegal);
    assert_eq!(tokens[1].literal, "\n");
    assert_eq!(tokens[2].t_type, TokenType::Ident);
    assert_eq!(tokens[2].literal, "b");
    assert_eq!(tokens[3].t_type, TokenType::EOF);
}

#[test]
fn scanning_never_halts_on_illegal_characters() {
    let tokens = collect_tokens("#@ $");
    assert_eq!(tokens.len(), 4);
    for tok in &tokens[..3] {
        assert_eq!(tok.t_type, TokenType::Illegal);
        assert_eq!(tok.literal.chars().count(), 1);
    }
    assert_eq!(tokens[3].t_type, TokenType::EOF);
}

#[test]
fn alphabetic_runs_may_hold_unicode_letters() {
    // Identifier characters are exactly the alphabetic ones, not only ASCII.
    let tokens = collect_tokens("caf\u{e9} 7");
    assert_eq!(tokens.len(), 3);
    assert_eq!(tokens[0].t_type, TokenType::Ident);
    assert_eq!(tokens[0].literal, "caf\u{e9}");
    assert_eq!(tokens[1].t_type, TokenType::Int);
    assert_eq!(tokens[1].literal, "7");
    assert_eq!(tokens[2].t_type, TokenType::EOF);
}

#[test]
fn token_equality_is_structural() {
    let a = Token { t_type: TokenType::Plus, literal: String::from("+") };
    let b = Token { t_type: TokenType::Plus, literal: String::from("+") };
    let c = Token { t_type: TokenType::Minus, literal: String::from("-") };
    assert_eq!(a, b);
    assert_ne!(a, c);
    assert_eq!(a.clone(), b);
}
