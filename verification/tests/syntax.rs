use photon::ast::ast::{Literal, Value, AST};
use photon::ast::lexer::{Lexer, LexerError, TokenValue};
use photon::ast::location::{Location, Position};
use photon::ast::lookahead_token_iterator::LookaheadTokenIterator;
use photon::frontend::parser::{ParseError, Parser};

fn lexer(source: &str) -> Lexer {
    Lexer::new("test.ph", source.chars().collect())
}

fn tokens(source: &str) -> Vec<TokenValue> {
    let mut lexer = lexer(source);
    let mut out = Vec::new();
    loop {
        let token = lexer.next().expect("lexer error");
        if token.value == TokenValue::EOF {
            return out;
        }
        out.push(token.value);
    }
}

fn parse(source: &str) -> Result<AST, ParseError> {
    let mut parser = Parser::new(lexer(source));
    parser.read_all_as_block()
}

fn printed(source: &str) -> String {
    parse(source).expect("parse error").to_string()
}

#[test]
fn lexer_reads_keywords_names_and_literals() {
    assert_eq!(
        tokens("val x = 42"),
        vec![TokenValue::Val, TokenValue::Name("x".to_string()), TokenValue::Equal, TokenValue::IntLiteral("42".to_string())]
    );
    assert_eq!(
        tokens("rec if else then and or true false"),
        vec![
            TokenValue::Recursive,
            TokenValue::If,
            TokenValue::Else,
            TokenValue::Then,
            TokenValue::And,
            TokenValue::Or,
            TokenValue::BoolLiteral(true),
            TokenValue::BoolLiteral(false),
        ]
    );
}

#[test]
fn lexer_reads_two_char_operators() {
    assert_eq!(
        tokens("== += -= *= /= <= >= != = < > !"),
        vec![
            TokenValue::EqualEqual,
            TokenValue::PlusEqual,
            TokenValue::MinusEqual,
            TokenValue::AsteriskEqual,
            TokenValue::SlashEqual,
            TokenValue::LessThanEqual,
            TokenValue::GreaterThanEqual,
            TokenValue::NotEqual,
            TokenValue::Equal,
            TokenValue::LessThan,
            TokenValue::GreaterThan,
            TokenValue::Not,
        ]
    );
}

#[test]
fn lexer_reads_punctuation_and_line_breaks() {
    assert_eq!(
        tokens("(a, b).c[@]:{}\n;"),
        vec![
            TokenValue::OpenParen,
            TokenValue::Name("a".to_string()),
            TokenValue::Comma,
            TokenValue::Name("b".to_string()),
            TokenValue::CloseParen,
            TokenValue::Dot,
            TokenValue::Name("c".to_string()),
            TokenValue::OpenBracket,
            TokenValue::At,
            TokenValue::CloseBracket,
            TokenValue::Colon,
            TokenValue::OpenBrace,
            TokenValue::CloseBrace,
            TokenValue::NewLine,
            TokenValue::NewLine,
        ]
    );
}

#[test]
fn lexer_reads_numbers() {
    assert_eq!(tokens("3.25"), vec![TokenValue::DecimalLiteral("3.25".to_string())]);
    // A dot that no digit follows ends the number.
    assert_eq!(
        tokens("3.abs"),
        vec![TokenValue::IntLiteral("3".to_string()), TokenValue::Dot, TokenValue::Name("abs".to_string())]
    );
    assert_eq!(
        tokens("1.2.3"),
        vec![TokenValue::DecimalLiteral("1.2".to_string()), TokenValue::Dot, TokenValue::IntLiteral("3".to_string())]
    );
}

#[test]
fn lexer_reads_names_with_trailing_mark() {
    assert_eq!(
        tokens("empty? set! _a$1"),
        vec![
            TokenValue::Name("empty?".to_string()),
            TokenValue::Name("set!".to_string()),
            TokenValue::Name("_a$1".to_string()),
        ]
    );
}

#[test]
fn lexer_reads_string_escapes() {
    assert_eq!(
        tokens("\"a\\nb\\\"c\\\\\""),
        vec![TokenValue::StringLiteral("a\nb\"c\\".to_string())]
    );
}

#[test]
fn lexer_marks_whitespace_before_tokens() {
    let mut lexer = lexer("a (b");
    let a = lexer.next().unwrap();
    let open = lexer.next().unwrap();
    let b = lexer.next().unwrap();
    assert!(!a.whitespace_before);
    assert!(open.whitespace_before);
    assert!(!b.whitespace_before);
}

#[test]
fn lexer_eof_repeats() {
    let mut lexer = lexer("x");
    assert_eq!(lexer.next().unwrap().value, TokenValue::Name("x".to_string()));
    assert_eq!(lexer.next().unwrap().value, TokenValue::EOF);
    assert_eq!(lexer.next().unwrap().value, TokenValue::EOF);
}

#[test]
fn lexer_rejects_unknown_character() {
    let mut lexer = lexer("%");
    match lexer.next() {
        Err(LexerError::UnexpectedToken(c, _)) => assert_eq!(c, '%'),
        other => panic!("unexpected result {:?}", other),
    }
}

#[test]
fn lexer_rejects_unclosed_string() {
    let mut lexer = lexer("\"abc");
    assert!(matches!(lexer.next(), Err(LexerError::UnclosedStringLiteral(_))));
}

#[test]
fn parser_reads_literals() {
    assert_eq!(printed("42"), "{ 42 }");
    assert_eq!(printed("true"), "{ true }");
    assert_eq!(printed("1.5"), "{ 1.5 }");
    assert_eq!(printed("\"hi\""), "{ \"hi\" }");
    assert_eq!(printed("9223372036854775807"), "{ 9223372036854775807 }");
}

#[test]
fn parser_reads_int_value() {
    let ast = parse("12345").unwrap();
    match ast.value {
        Value::Block(asts) => {
            assert_eq!(asts.len(), 1);
            assert!(matches!(asts[0].value, Value::Literal(Literal::Int(12345))));
        }
        other => panic!("not a block: {:?}", other),
    }
}

#[test]
fn parser_rejects_too_large_int() {
    assert!(matches!(parse("9223372036854775808"), Err(ParseError::CouldNotParseNumber(_))));
}

#[test]
fn parser_respects_precedence() {
    assert_eq!(printed("1 + 2 * 3"), "{ (+ 1 (* 2 3)) }");
    assert_eq!(printed("1 * 2 + 3"), "{ (+ (* 1 2) 3) }");
    assert_eq!(printed("a or b and c"), "{ (or a (and b c)) }");
    assert_eq!(printed("1 + 2 == 3"), "{ (== (+ 1 2) 3) }");
    assert_eq!(printed("1 - 2 - 3"), "{ (- (- 1 2) 3) }");
}

#[test]
fn parser_reads_parenthesised_expression() {
    assert_eq!(printed("(1 + 2) * 3"), "{ (* (+ 1 2) 3) }");
}

#[test]
fn parser_reads_unary_operators() {
    assert_eq!(printed("-5"), "{ (- 5) }");
    assert_eq!(printed("!a"), "{ (! a) }");
}

#[test]
fn parser_reads_calls() {
    assert_eq!(printed("foo(1, 2)"), "{ (foo self 1 2) }");
    assert_eq!(printed("foo 1, 2"), "{ (foo self 1 2) }");
    assert_eq!(printed("a.b(c)"), "{ (b a c) }");
    assert_eq!(printed("a.b"), "{ (b a) }");
    assert_eq!(printed("x"), "{ x }");
    assert_eq!(printed("f()"), "{ (f self) }");
}

#[test]
fn parser_reads_lets() {
    assert_eq!(printed("val x = 42"), "{ (let x 42) }");
    assert_eq!(printed("rec val f = 1"), "{ (let-rec f 1) }");
    assert_eq!(printed("@val T = Int"), "{ (@let T Int) }");
    assert_eq!(printed("val x: Int = 1"), "{ (let x (type-assert 1 Int)) }");
}

#[test]
fn parser_reads_type_assert_and_comptime() {
    assert_eq!(printed("1: Int"), "{ (type-assert 1 Int) }");
    assert_eq!(printed("@x"), "{ @x }");
}

#[test]
fn parser_reads_lambdas() {
    assert_eq!(printed("(a, b) { a }"), "{ (fn [(param a) (param b)] a) }");
    assert_eq!(printed("(x: Int) x"), "{ (fn [(param x Int)] x) }");
    assert_eq!(printed("{ 1 }"), "{ (fn [] 1) }");
    assert_eq!(printed("(): Int { 1 }"), "{ (fn [] Int 1) }");
}

#[test]
fn parser_reads_function_types() {
    assert_eq!(printed("(a: Int): Int"), "{ (fn-type [(param a Int)] Int) }");
}

#[test]
fn parser_reads_several_lines() {
    assert_eq!(printed("val x = 1\nx + 1"), "{ (let x 1) (+ x 1) }");
    assert_eq!(printed("1; 2"), "{ 1 2 }");
}

#[test]
fn parser_reads_one_expression_at_a_time() {
    let mut parser = Parser::new(lexer("1\n2"));
    assert!(parser.has_next().unwrap());
    assert_eq!(parser.next(false).unwrap().to_string(), "1");
    assert!(parser.has_next().unwrap());
    assert_eq!(parser.next(false).unwrap().to_string(), "2");
    assert!(!parser.has_next().unwrap());
    assert!(!parser.has_next().unwrap());
}

#[test]
fn parser_has_nothing_in_empty_input() {
    let mut parser = Parser::new(lexer(""));
    assert!(!parser.has_next().unwrap());
}

#[test]
fn parser_reports_unexpected_token() {
    assert!(matches!(parse("1 +"), Err(ParseError::UnexpectedToken(_, _))));
    assert!(matches!(parse(")"), Err(ParseError::UnexpectedToken(_, _))));
}

#[test]
fn parser_reports_pattern_where_expression_expected() {
    assert!(matches!(parse("val x"), Err(ParseError::UnexpectedPattern(_))));
}

#[test]
fn parser_reports_lexer_error() {
    assert!(matches!(parse("1 % 2"), Err(ParseError::LexerError(LexerError::UnexpectedToken('%', _)))));
}

#[test]
fn printer_escapes_strings() {
    assert_eq!(Literal::String("a\"b\\c\nd".to_string()).to_string(), "\"a\\\"b\\\\c\\nd\"");
    assert_eq!(Literal::Int(-17).to_string(), "-17");
    assert_eq!(Literal::Int(i64::MIN).to_string(), "-9223372036854775808");
    assert_eq!(Literal::Bool(false).to_string(), "false");
}

#[test]
fn printer_shows_if_and_empty_block() {
    let location = parse("1").unwrap().location;
    let lit = |v: i64| AST { value: Value::Literal(Literal::Int(v)), location: location.clone() };
    let if_ast = AST {
        value: Value::If {
            condition: Box::new(lit(1)),
            on_true: Box::new(lit(2)),
            on_false: Some(Box::new(lit(3))),
        },
        location: location.clone(),
    };
    assert_eq!(if_ast.to_string(), "(if 1 2 3)");
    let empty = AST { value: Value::Block(Vec::new()), location };
    assert_eq!(empty.to_string(), "{}");
}

#[test]
fn lookahead_reads_ahead_without_consuming() {
    let mut reader = LookaheadTokenIterator::new(lexer("a b c"));
    assert_eq!(reader.peek().unwrap().value, TokenValue::Name("a".to_string()));
    {
        let mut cursor = reader.look_ahead();
        assert_eq!(cursor.next().unwrap().value, TokenValue::Name("a".to_string()));
        assert_eq!(cursor.next().unwrap().value, TokenValue::Name("b".to_string()));
        assert_eq!(cursor.next().unwrap().value, TokenValue::Name("c".to_string()));
        assert_eq!(cursor.next().unwrap().value, TokenValue::EOF);
    }
    assert_eq!(reader.next().unwrap().value, TokenValue::Name("a".to_string()));
    assert_eq!(reader.read_ahead(0).unwrap().value, TokenValue::Name("b".to_string()));
    assert_eq!(reader.next().unwrap().value, TokenValue::Name("b".to_string()));
    assert_eq!(reader.next().unwrap().value, TokenValue::Name("c".to_string()));
    assert_eq!(reader.next().unwrap().value, TokenValue::EOF);
}

#[test]
fn location_extends_to_the_end_of_another() {
    let a = Location {
        file: "f".to_string(),
        from: Position { line: 1, column: 2 },
        to: Position { line: 1, column: 5 },
    };
    let b = Location {
        file: "f".to_string(),
        from: Position { line: 3, column: 0 },
        to: Position { line: 3, column: 4 },
    };
    let c = a.extend(&b);
    assert_eq!(c.file, "f");
    assert_eq!(c.from, Position { line: 1, column: 2 });
    assert_eq!(c.to, Position { line: 3, column: 4 });
}

#[test]
fn parser_locations_span_expressions() {
    let ast = parse("val x = 1 + 2").unwrap();
    assert_eq!(ast.location.from, Position { line: 0, column: 0 });
    assert_eq!(ast.location.file, "test.ph");
}

#[test]
fn printer_shows_decimals_as_numbers() {
    assert_eq!(printed("1.50"), "{ 1.5 }");
    assert_eq!(printed("1.0"), "{ 1 }");
    assert_eq!(printed("007.250"), "{ 7.25 }");
    assert_eq!(printed("0.000"), "{ 0 }");
    assert_eq!(printed("0.125"), "{ 0.125 }");
}

#[test]
fn lookahead_peek_twice_gives_the_same_token() {
    let mut reader = LookaheadTokenIterator::new(lexer("x + 1"));
    let first = reader.peek().unwrap().value == TokenValue::Name("x".to_string());
    let second = reader.peek().unwrap().value == TokenValue::Name("x".to_string());
    assert!(first && second);
    assert_eq!(reader.next().unwrap().value, TokenValue::Name("x".to_string()));
    assert_eq!(reader.peek().unwrap().value, TokenValue::Plus);
    assert_eq!(reader.next().unwrap().value, TokenValue::Plus);
}

#[test]
fn lookahead_interleaving_keeps_lexer_order() {
    let mut plain = lexer("a (b, c) + 1");
    let mut expected = Vec::new();
    loop {
        let t = plain.next().unwrap();
        let end = t.value == TokenValue::EOF;
        expected.push(t.value);
        if end {
            break;
        }
    }
    let mut reader = LookaheadTokenIterator::new(lexer("a (b, c) + 1"));
    let mut got = Vec::new();
    let mut step = 0;
    loop {
        if step % 2 == 0 {
            let mut cursor = reader.look_ahead();
            let _ = cursor.next().unwrap();
            let _ = cursor.next().unwrap();
        } else {
            let _ = reader.peek().unwrap();
        }
        step += 1;
        let t = reader.next().unwrap();
        let end = t.value == TokenValue::EOF;
        got.push(t.value);
        if end {
            break;
        }
    }
    assert_eq!(got, expected);
}

#[test]
fn parser_argument_forms_differ_on_spaced_method_calls() {
    // Without parentheses a spaced `.b` ends the argument list and applies
    // to the whole call; inside parentheses it applies to the argument.
    assert_eq!(printed("f a .b"), "{ (b (f self a)) }");
    assert_eq!(printed("f(a .b)"), "{ (f self (b a)) }");
    // Without such a call the two forms give the same arguments.
    assert_eq!(printed("f a, b"), printed("f(a, b)"));
}
