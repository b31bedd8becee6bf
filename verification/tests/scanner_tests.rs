use oil::object::Object;
use oil::scanner::Scanner;
use oil::token::{Token, TokenType};

fn scan(source: &str) -> Vec<Token> {
    let mut scanner = Scanner::new();
    scanner.scan_tokens(source).expect("the source scans")
}

fn kinds(tokens: &[Token]) -> Vec<TokenType> {
    tokens.iter().map(|t| t.token_type).collect()
}

fn lexemes(tokens: &[Token]) -> Vec<String> {
    tokens.iter().map(|t| t.lexeme.clone()).collect()
}

#[test]
fn scans_single_and_double_character_tokens() {
    let tokens = scan("(){},.-+;*/% ! != = == < <= > >=");
    assert_eq!(
        kinds(&tokens),
        vec![
            TokenType::LeftParen,
            TokenType::RightParen,
            TokenType::LeftBrace,
            TokenType::RightBrace,
            TokenType::Comma,
            TokenType::Period,
            TokenType::Minus,
            TokenType::Plus,
            TokenType::Semicolon,
            TokenType::Asterisk,
            TokenType::Slash,
            TokenType::Mod,
            TokenType::Not,
            TokenType::NotEqual,
            TokenType::Equal,
            TokenType::EqualEqual,
            TokenType::Less,
            TokenType::LessEqual,
            TokenType::Greater,
            TokenType::GreaterEqual,
            TokenType::EOF,
        ]
    );
}

#[test]
fn scans_keywords_and_identifiers() {
    let tokens = scan(
        "and class else false for func if null or print read_input return super this true var while whiles _x a1",
    );
    assert_eq!(
        kinds(&tokens),
        vec![
            TokenType::And,
            TokenType::Class,
            TokenType::Else,
            TokenType::False,
            TokenType::For,
            TokenType::Func,
            TokenType::If,
            TokenType::Null,
            TokenType::Or,
            TokenType::Print,
            TokenType::ReadInput,
            TokenType::Return,
            TokenType::Super,
            TokenType::This,
            TokenType::True,
            TokenType::Var,
            TokenType::While,
            TokenType::Identifier,
            TokenType::Identifier,
            TokenType::Identifier,
            TokenType::EOF,
        ]
    );
    assert_eq!(tokens[17].lexeme, "whiles");
    assert_eq!(tokens[18].lexeme, "_x");
}

#[test]
fn scans_strings_with_their_text() {
    let tokens = scan("\"hello\" \"a\nb\"");
    assert_eq!(kinds(&tokens), vec![TokenType::String, TokenType::String, TokenType::EOF]);
    assert_eq!(tokens[0].lexeme, "\"hello\"");
    match &tokens[0].literal {
        Some(Object::Str(s)) => assert_eq!(s, "hello"),
        other => panic!("unexpected literal {:?}", other),
    }
    match &tokens[1].literal {
        Some(Object::Str(s)) => assert_eq!(s, "a\nb"),
        other => panic!("unexpected literal {:?}", other),
    }
    assert_eq!(tokens[1].line, 1);
    assert_eq!(tokens[2].line, 1);
}

#[test]
fn scans_numbers_and_leaves_their_value_to_read() {
    let tokens = scan("12 3.5 7. 8.x");
    assert_eq!(
        lexemes(&tokens),
        vec!["12", "3.5", "7", ".", "8", ".", "x", ""]
    );
    assert_eq!(tokens[0].token_type, TokenType::Number);
    assert!(tokens[0].literal.is_none());
    assert!(matches!(tokens[3].literal, Some(Object::Null)));
}

#[test]
fn comments_run_to_the_end_of_the_line() {
    let tokens = scan("a // b c\nd");
    assert_eq!(lexemes(&tokens), vec!["a", "d", ""]);
    assert_eq!(tokens[0].line, 0);
    assert_eq!(tokens[1].line, 1);
    assert_eq!(tokens[2].line, 1);
}

#[test]
fn newlines_count_lines() {
    let tokens = scan("a\n\nb\n");
    assert_eq!(tokens[0].line, 0);
    assert_eq!(tokens[1].line, 2);
    assert_eq!(tokens[2].token_type, TokenType::EOF);
    assert_eq!(tokens[2].line, 3);
}

#[test]
fn unexpected_characters_are_reported() {
    let mut scanner = Scanner::new();
    let result = scanner.scan_tokens("a @ b\n#");
    let reports = result.expect_err("the scan fails");
    assert_eq!(
        reports,
        vec![
            "[line 0] Error at : Unexpected character: @".to_string(),
            "[line 1] Error at : Unexpected character: #".to_string(),
        ]
    );
}

#[test]
fn unterminated_strings_are_reported() {
    let mut scanner = Scanner::new();
    let reports = scanner.scan_tokens("print \"abc\ndef").expect_err("the scan fails");
    assert_eq!(reports, vec!["[line 1] Error at : Unterminated string.".to_string()]);
}

#[test]
fn whitespace_and_newlines_do_not_change_tokens() {
    let one_line = scan("var a = 5; print a;");
    let spread = scan("var   a\t=\r\n5;\n\n  print\na ;");
    assert_eq!(kinds(&one_line), kinds(&spread));
    assert_eq!(lexemes(&one_line), lexemes(&spread));
}

#[test]
fn empty_source_gives_only_the_end() {
    let tokens = scan("");
    assert_eq!(kinds(&tokens), vec![TokenType::EOF]);
    assert_eq!(tokens[0].lexeme, "");
    assert_eq!(tokens[0].line, 0);
}

#[test]
fn a_scanner_can_be_used_again() {
    let mut scanner = Scanner::new();
    let first = scanner.scan_tokens("a b").unwrap();
    let second = scanner.scan_tokens("c").unwrap();
    assert_eq!(first.len(), 3);
    assert_eq!(lexemes(&second), vec!["c", ""]);
}

#[test]
fn white_space_between_tokens_is_not_seen() {
    let tight = scan("print(a+1)>=2;");
    let loose = scan(" print ( a\t+ 1 )\r>= 2 ; ");
    assert_eq!(kinds(&tight), kinds(&loose));
    assert_eq!(lexemes(&tight), lexemes(&loose));
    for token in loose.iter().filter(|t| t.token_type != TokenType::String) {
        assert!(!token.lexeme.contains(|c: char| c == ' ' || c == '\t' || c == '\r' || c == '\n'));
    }
}

#[test]
fn number_tokens_get_the_values_supplied() {
    let tokens = scan("x = 1 + 2.5 * \"3\";");
    assert_eq!(oil::scanner::count_numbers(&tokens), 2);
    let values = vec![1.0f64.to_bits(), 2.5f64.to_bits()];
    let valued = oil::scanner::with_number_values(tokens.clone(), &values);
    assert_eq!(valued.len(), tokens.len());
    let numbers: Vec<&Token> = valued.iter().filter(|t| t.token_type == TokenType::Number).collect();
    assert_eq!(numbers.len(), 2);
    assert!(matches!(numbers[0].literal, Some(Object::Num(n)) if n == values[0]));
    assert!(matches!(numbers[1].literal, Some(Object::Num(n)) if n == values[1]));
    for (before, after) in tokens.iter().zip(valued.iter()) {
        assert_eq!(before.token_type, after.token_type);
        assert_eq!(before.lexeme, after.lexeme);
        assert_eq!(before.line, after.line);
        if before.token_type != TokenType::Number {
            assert_eq!(format!("{:?}", before.literal), format!("{:?}", after.literal));
        }
    }
}

#[test]
fn a_blank_put_between_tokens_changes_only_lines() {
    let plain = scan("a// note\nb<c");
    let spaced = scan("a// note \nb <c\n");
    assert_eq!(kinds(&plain), kinds(&spaced));
    assert_eq!(lexemes(&plain), lexemes(&spaced));
    let broken = scan("a\n<\nc");
    assert_eq!(kinds(&scan("a<c")), kinds(&broken));
    assert_eq!(broken[1].line, 1);
    assert_eq!(scan("a<c")[1].line, 0);
}
