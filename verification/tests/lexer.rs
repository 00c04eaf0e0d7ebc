use shmy::lexer::{LexContext, Lexer, Op, Token};
use shmy::scope::Scope;
use shmy::ast::Node;
use shmy::parser::Parser;
use shmy::registry::Registry;

fn ctx() -> LexContext {
    LexContext { in_args: false, current_is_cmd: false, current_is_empty: true, current_is_number: false }
}

fn first_token(input: &str) -> Token {
    let scope = Scope::new();
    let mut lexer = Lexer::new(input);
    match lexer.next_token(&scope, 0, &ctx()) {
        Ok(t) => t,
        Err(e) => panic!("{}: unexpected error {}", input, e.message),
    }
}

fn first_error(input: &str) -> String {
    let scope = Scope::new();
    let mut lexer = Lexer::new(input);
    match lexer.next_token(&scope, 0, &ctx()) {
        Ok(t) => panic!("{}: expected an error, got {:?}", input, t),
        Err(e) => e.message,
    }
}

#[test]
fn test_operator_tokens() {
    let cases = [
        ("=>>", Op::Append),
        ("=>", Op::Write),
        ("==", Op::Equals),
        ("||", Op::Or),
        ("|", Op::Pipe),
        ("!=", Op::NotEquals),
        ("<=", Op::Lte),
        ("&&", Op::And),
        ("=", Op::Assign),
        ("%", Op::Mod),
    ];
    for (input, op) in cases {
        match first_token(input) {
            Token::Operator(o) => assert_eq!(o, op, "input: {}", input),
            other => panic!("{}: expected an operator, got {:?}", input, other),
        }
    }
}

#[test]
fn test_keyword_token() {
    match first_token("else fail") {
        Token::Keyword(k) => assert_eq!(k, "ELSE"),
        other => panic!("expected a keyword, got {:?}", other),
    }
}

#[test]
fn test_end_token() {
    assert!(matches!(first_token(""), Token::End));
}

#[test]
fn test_unbalanced_quotes() {
    assert_eq!(first_error("\"abc"), "Unbalanced quotes");
}

#[test]
fn test_raw_string_then_end() {
    let scope = Scope::new();
    let mut lexer = Lexer::new("r\"(_;)( \" )\"");
    match lexer.next_token(&scope, 0, &ctx()) {
        Ok(Token::Literal(t)) => {
            assert_eq!(t.value, "_;)( \" ");
            assert!(t.quoted);
            assert!(t.raw);
        },
        other => panic!("expected a raw literal, got {:?}", other.map_err(|e| e.message)),
    }
    assert!(matches!(lexer.next_token(&scope, 0, &ctx()), Ok(Token::End)));
}

#[test]
fn test_escape_errors() {
    assert_eq!(first_error("\"\\u{1b\""), "Invalid unicode escape sequence");
    assert_eq!(first_error("\"\\uac\""), "Invalid unicode escape sequence");
    assert_eq!(first_error("\"\\u{x}\""), "Invalid unicode escape sequence");
    assert_eq!(first_error("\"\\xyz\""), "Invalid hex escape sequence");
    assert_eq!(first_error("\"\\xabc"), "Unbalanced quotes");
}

#[test]
fn a_literal_word_is_read_as_itself() {
    match first_token("no_such_file_here_42") {
        Token::Literal(t) => {
            assert_eq!(t.value, "no_such_file_here_42");
            assert!(!t.quoted);
        }
        t => panic!("expected a word, got {:?}", t),
    }
}

#[test]
fn a_lone_literal_word_parses_to_one_leaf() {
    let mut parser = Parser::new("no_such_command_here_42", Scope::new(), 0);
    let mut registry = Registry::new();
    let mut quit = false;
    let root = match parser.parse(&mut registry, &mut quit) {
        Ok(r) => r,
        Err(e) => panic!("unexpected error {}", e.message),
    };
    let (ast, _) = parser.into_parts();
    match &ast.nodes[root] {
        Node::Group(g) => {
            assert_eq!(g.content.len(), 1);
            match &ast.nodes[g.content[0]] {
                Node::Leaf { text, .. } => assert_eq!(text.value, "no_such_command_here_42"),
                _ => panic!("expected a leaf"),
            }
        }
        _ => panic!("expected a group"),
    }
}
