use lox_scanner::error::ScanError;
use lox_scanner::scanner::{keyword, Scanner};
use lox_scanner::token::{Kind, Literal, Token};

fn scan(text: &str) -> Result<Vec<Token>, Vec<ScanError>> {
    Scanner::new(text).scan()
}

fn kinds(text: &str) -> Vec<Kind> {
    scan(text).unwrap().iter().map(|t| t.kind()).collect()
}

fn ok(text: &str) -> Vec<Token> {
    scan(text).unwrap()
}

fn errs(text: &str) -> Vec<(String, usize)> {
    scan(text)
        .unwrap_err()
        .iter()
        .map(|e| (e.message().to_string(), e.line()))
        .collect()
}

#[test]
fn empty_input_yields_only_eof() {
    let ts = ok("");
    assert_eq!(ts.len(), 1);
    assert_eq!(ts[0], Token::eof(1));
}

#[test]
fn whitespace_only_yields_only_eof() {
    let ts = ok("  \t\r \n\t ");
    assert_eq!(ts.len(), 1);
    assert_eq!(ts[0].kind(), Kind::Eof);
    assert_eq!(ts[0].lexeme(), "");
    assert_eq!(ts[0].line(), 2);
}

#[test]
fn lexemes_rebuild_text_without_whitespace_and_comments() {
    let ts = ok("var x = 1; // note\nprint \"a b\" >= x;");
    assert_eq!(ts.last().unwrap().kind(), Kind::Eof);
    let joined: String = ts[..ts.len() - 1].iter().map(|t| t.lexeme()).collect();
    assert_eq!(joined, "varx=1;print\"a b\">=x;");
}

#[test]
fn lexemes_are_slices_of_the_input() {
    let text = "fun add(a, b) { return a + b; }";
    let ts = ok(text);
    let mut from = 0;
    for t in &ts[..ts.len() - 1] {
        assert!(!t.lexeme().is_empty());
        let at = text[from..].find(t.lexeme()).unwrap() + from;
        from = at + t.lexeme().len();
    }
    assert_eq!(from, text.len());
}

#[test]
fn multiline_string_keeps_opening_line() {
    let ts = ok("\"a\nb\nc\" x");
    assert_eq!(ts[0].kind(), Kind::String);
    assert_eq!(ts[0].line(), 1);
    assert_eq!(ts[0].lexeme(), "\"a\nb\nc\"");
    assert_eq!(ts[0].literal(), &Literal::string("a\nb\nc"));
    assert_eq!(ts[1].kind(), Kind::Identifier);
    assert_eq!(ts[1].line(), 3);
    assert_eq!(ts[2], Token::eof(3));
}

#[test]
fn unterminated_string_is_one_error() {
    assert_eq!(errs("\"abc"), vec![("unterminated string.".to_string(), 1)]);
}

#[test]
fn unterminated_string_error_is_on_last_line() {
    assert_eq!(errs("\"abc\ndef"), vec![("unterminated string.".to_string(), 2)]);
}

#[test]
fn trailing_dot_is_not_part_of_number() {
    let ts = ok("1.");
    assert_eq!(ts.len(), 3);
    assert_eq!(ts[0].kind(), Kind::Number);
    assert_eq!(ts[0].lexeme(), "1");
    assert_eq!(ts[0].literal(), &Literal::number("1"));
    assert_eq!(ts[1].kind(), Kind::Dot);
    assert_eq!(ts[2].kind(), Kind::Eof);
}

#[test]
fn number_with_fraction() {
    let ts = ok("12.34");
    assert_eq!(ts[0].kind(), Kind::Number);
    assert_eq!(ts[0].literal(), &Literal::number("12.34"));
    assert_eq!(kinds("1.x"), vec![Kind::Number, Kind::Dot, Kind::Identifier, Kind::Eof]);
    assert_eq!(kinds("1.2.3"), vec![Kind::Number, Kind::Dot, Kind::Number, Kind::Eof]);
}

#[test]
fn bang_and_not_equal() {
    assert_eq!(kinds("!="), vec![Kind::Ne, Kind::Eof]);
    assert_eq!(kinds("!"), vec![Kind::Bang, Kind::Eof]);
}

#[test]
fn comparison_operators() {
    assert_eq!(
        kinds("= == < <= > >= ! !="),
        vec![
            Kind::Assign,
            Kind::Eq,
            Kind::Lt,
            Kind::Le,
            Kind::Gt,
            Kind::Ge,
            Kind::Bang,
            Kind::Ne,
            Kind::Eof
        ]
    );
    assert_eq!(kinds("==="), vec![Kind::Eq, Kind::Assign, Kind::Eof]);
}

#[test]
fn single_character_tokens() {
    assert_eq!(
        kinds("(){}.,;+-*/"),
        vec![
            Kind::LeftParen,
            Kind::RightParen,
            Kind::LeftBrace,
            Kind::RightBrace,
            Kind::Dot,
            Kind::Comma,
            Kind::Semicolon,
            Kind::Plus,
            Kind::Minus,
            Kind::Asterisk,
            Kind::Slash,
            Kind::Eof
        ]
    );
}

#[test]
fn comment_then_number_on_next_line() {
    let ts = ok("// comment\n123");
    assert_eq!(ts.len(), 2);
    assert_eq!(ts[0].kind(), Kind::Number);
    assert_eq!(ts[0].literal(), &Literal::number("123"));
    assert_eq!(ts[0].line(), 2);
    assert_eq!(ts[1].kind(), Kind::Eof);
}

#[test]
fn comment_to_end_of_input() {
    assert_eq!(kinds("a // b \"c"), vec![Kind::Identifier, Kind::Eof]);
}

#[test]
fn keyword_needs_whole_word() {
    let ts = ok("classy");
    assert_eq!(ts.len(), 2);
    assert_eq!(ts[0].kind(), Kind::Identifier);
    assert_eq!(ts[0].literal(), &Literal::identifier("classy"));
    assert_eq!(kinds("class"), vec![Kind::Class, Kind::Eof]);
    assert_eq!(kinds("Class"), vec![Kind::Identifier, Kind::Eof]);
}

#[test]
fn every_reserved_word() {
    assert_eq!(
        kinds("true false nil and or if else for while class this super fun return var print"),
        vec![
            Kind::True,
            Kind::False,
            Kind::Nil,
            Kind::And,
            Kind::Or,
            Kind::If,
            Kind::Else,
            Kind::For,
            Kind::While,
            Kind::Class,
            Kind::This,
            Kind::Super,
            Kind::Fun,
            Kind::Return,
            Kind::Var,
            Kind::Print,
            Kind::Eof
        ]
    );
    let ts = ok("while");
    assert_eq!(ts[0].literal(), &Literal::none());
}

#[test]
fn keyword_lookup() {
    let w: Vec<char> = "super".chars().collect();
    assert_eq!(keyword(&w), Some(Kind::Super));
    let w: Vec<char> = "supper".chars().collect();
    assert_eq!(keyword(&w), None);
}

#[test]
fn identifier_with_digits_and_underscores() {
    let ts = ok("_a1 b_2");
    assert_eq!(ts[0].literal(), &Literal::identifier("_a1"));
    assert_eq!(ts[1].literal(), &Literal::identifier("b_2"));
}

#[test]
fn multiple_faults_are_all_reported() {
    assert_eq!(
        errs("@ \"unterminated"),
        vec![
            ("unexpected character.".to_string(), 1),
            ("unterminated string.".to_string(), 1)
        ]
    );
}

#[test]
fn faults_carry_their_lines() {
    assert_eq!(
        errs("a\n#\nb $ \"x\ny"),
        vec![
            ("unexpected character.".to_string(), 2),
            ("unexpected character.".to_string(), 3),
            ("unterminated string.".to_string(), 4)
        ]
    );
}

#[test]
fn any_error_discards_tokens() {
    assert_eq!(errs("var x = 1; ?"), vec![("unexpected character.".to_string(), 1)]);
}

#[test]
fn tokens_record_their_lines() {
    let ts = ok("a\nb\n\nc");
    let lines: Vec<usize> = ts.iter().map(|t| t.line()).collect();
    assert_eq!(lines, vec![1, 2, 4, 4]);
}

#[test]
fn token_model_constructors() {
    let t = Token::new(Kind::Number, "7".to_string(), Literal::number("7"), 3);
    assert_eq!(t.kind(), Kind::Number);
    assert_eq!(t.lexeme(), "7");
    assert_eq!(t.literal(), &Literal::Number("7".to_string()));
    assert_eq!(t.line(), 3);
    let e = Token::eof(5);
    assert_eq!(e.kind(), Kind::Eof);
    assert_eq!(e.lexeme(), "");
    assert_eq!(e.literal(), &Literal::NoValue);
    assert_eq!(e.line(), 5);
    assert_eq!(Literal::identifier("x"), Literal::Identifier("x".to_string()));
    assert_eq!(Literal::string("s"), Literal::String("s".to_string()));
}

#[test]
fn scan_error_holds_message_and_line() {
    let e = ScanError::new("unexpected character.", 9);
    assert_eq!(e.message(), "unexpected character.");
    assert_eq!(e.line(), 9);
}

#[test]
fn non_ascii_letter_is_unexpected() {
    assert_eq!(errs("é"), vec![("unexpected character.".to_string(), 1)]);
    let ts = ok("\"é\"");
    assert_eq!(ts[0].literal(), &Literal::string("é"));
}
