use rrmap::format::udmf::blocks::{BlockAccess, Entry, TopLevelDeserializer, ValueDeserializer};
use rrmap::format::udmf::de::{unescape_string, ErrorKind, Parser, Token, Tokenizer};
use rrmap::format::udmf::{Decimal, Shape, Value};

const EXAMPLE_CONFIG: &str = r#"
    namespace = "ringracers";
    version = 1;

    thing {
        x = 43.0;
        y = 459.0;
        height = 20.0;
        angle = 30;
        arg0 = "WADSUP";
        arg1 = true;
    }

    vertex {
        x = 17.0;
        y = 38.0;
    }
    "#;

/// The `f32` that a decimal stands for: the mantissa parsed, signed, then scaled.
fn float_of(d: &Decimal) -> f32 {
    let mantissa: f32 = format!("{}.{}", d.whole, d.fraction).parse().unwrap();
    let signed = if d.negative { mantissa * -1. } else { mantissa };
    if d.exponent == 0 {
        signed
    } else {
        10f32.powi(d.exponent) * signed
    }
}

fn as_f32(v: Value) -> f32 {
    match v {
        Value::Float(d) => float_of(&d),
        other => panic!("not a float: {:?}", other),
    }
}

fn ident(s: &str) -> Token {
    Token::Ident(s.to_string())
}

fn string(s: &str) -> Value {
    Value::String(s.to_string())
}

fn check_read_float() {
    let input = r#"
        4.2
        9.99999
        +8.1
        -4.0
        2.0E-1
        4.0E9
        -2.0E-2
        "#;
    let mut input = Tokenizer::new(input);

    assert_eq!(as_f32(input.next_value().unwrap()), 4.2);
    assert_eq!(as_f32(input.next_value().unwrap()), 9.99999);
    assert_eq!(as_f32(input.next_value().unwrap()), 8.1);
    assert_eq!(as_f32(input.next_value().unwrap()), -4.0);
    assert_eq!(as_f32(input.next_value().unwrap()), 0.2);
    assert_eq!(as_f32(input.next_value().unwrap()), 4_000_000_000.0);
    assert_eq!(as_f32(input.next_value().unwrap()), -0.02);
}

fn check_read_int() {
    let input = r#"
        -10
        17
        38
        "#;
    let mut input = Tokenizer::new(input);

    assert_eq!(input.next_value().unwrap(), Value::Integer(-10));
    assert_eq!(input.next_value().unwrap(), Value::Integer(17));
    assert_eq!(input.next_value().unwrap(), Value::Integer(38));
}

fn check_read_string() {
    let input = r#"
        "Hey Paisanos!"
        "Welcome to the \"Super Mario Bros. Super Show\"!"
        "Do Do Do Do"
        "#;
    let mut input = Tokenizer::new(input);

    assert_eq!(input.next_value().unwrap(), string("Hey Paisanos!"));
    assert_eq!(
        input.next_value().unwrap(),
        string("Welcome to the \"Super Mario Bros. Super Show\"!")
    );
    assert_eq!(input.next_value().unwrap(), string("Do Do Do Do"));
}

fn check_read_top_level_variables() {
    let input = r#"
        namespace = "ringracers";
        version = 1;
        "#;
    let mut input = Tokenizer::new(input);

    assert_eq!(input.next_token().unwrap(), ident("namespace"));
    assert_eq!(input.next_token().unwrap(), Token::Assignment);
    assert_eq!(input.next_value().unwrap(), string("ringracers"));
    assert_eq!(input.next_token().unwrap(), Token::Seperator);
}

fn check_read_all() {
    let mut input = Tokenizer::new(EXAMPLE_CONFIG);

    assert_eq!(input.next_token().unwrap(), ident("namespace"));
    assert_eq!(input.next_token().unwrap(), Token::Assignment);
    assert_eq!(input.next_value().unwrap(), string("ringracers"));
    assert_eq!(input.next_token().unwrap(), Token::Seperator);

    assert_eq!(input.next_token().unwrap(), ident("version"));
    assert_eq!(input.next_token().unwrap(), Token::Assignment);
    assert_eq!(input.next_value().unwrap(), Value::Integer(1));
    assert_eq!(input.next_token().unwrap(), Token::Seperator);

    assert_eq!(input.next_token().unwrap(), ident("thing"));
    assert_eq!(input.next_token().unwrap(), Token::StartBlock);
    assert_eq!(input.next_token().unwrap(), ident("x"));
    assert_eq!(input.next_token().unwrap(), Token::Assignment);
    assert_eq!(as_f32(input.next_value().unwrap()), 43.0);
    assert_eq!(input.next_token().unwrap(), Token::Seperator);
    assert_eq!(input.next_token().unwrap(), ident("y"));
    assert_eq!(input.next_token().unwrap(), Token::Assignment);
    assert_eq!(as_f32(input.next_value().unwrap()), 459.0);
    assert_eq!(input.next_token().unwrap(), Token::Seperator);
    assert_eq!(input.next_token().unwrap(), ident("height"));
    assert_eq!(input.next_token().unwrap(), Token::Assignment);
    assert_eq!(as_f32(input.next_value().unwrap()), 20.0);
    assert_eq!(input.next_token().unwrap(), Token::Seperator);
    assert_eq!(input.next_token().unwrap(), ident("angle"));
    assert_eq!(input.next_token().unwrap(), Token::Assignment);
    assert_eq!(input.next_value().unwrap(), Value::Integer(30));
    assert_eq!(input.next_token().unwrap(), Token::Seperator);
    assert_eq!(input.next_token().unwrap(), ident("arg0"));
    assert_eq!(input.next_token().unwrap(), Token::Assignment);
    assert_eq!(input.next_value().unwrap(), string("WADSUP"));
    assert_eq!(input.next_token().unwrap(), Token::Seperator);
    assert_eq!(input.next_token().unwrap(), ident("arg1"));
    assert_eq!(input.next_token().unwrap(), Token::Assignment);
    assert_eq!(input.next_value().unwrap(), Value::Boolean(true));
    assert_eq!(input.next_token().unwrap(), Token::Seperator);
    assert_eq!(input.next_token().unwrap(), Token::EndBlock);

    assert_eq!(input.next_token().unwrap(), ident("vertex"));
    assert_eq!(input.next_token().unwrap(), Token::StartBlock);
    assert_eq!(input.next_token().unwrap(), ident("x"));
    assert_eq!(input.next_token().unwrap(), Token::Assignment);
    assert_eq!(as_f32(input.next_value().unwrap()), 17.0);
    assert_eq!(input.next_token().unwrap(), Token::Seperator);
    assert_eq!(input.next_token().unwrap(), ident("y"));
    assert_eq!(input.next_token().unwrap(), Token::Assignment);
    assert_eq!(as_f32(input.next_value().unwrap()), 38.0);
    assert_eq!(input.next_token().unwrap(), Token::Seperator);
    assert_eq!(input.next_token().unwrap(), Token::EndBlock);
}

#[test]
fn de_read_float() {
    check_read_float();
}

#[test]
fn de_read_int() {
    check_read_int();
}

#[test]
fn de_read_string() {
    check_read_string();
}

#[test]
fn de_read_top_level_variables() {
    check_read_top_level_variables();
}

#[test]
fn de_read_all() {
    check_read_all();
}

#[test]
fn mod_read_float() {
    check_read_float();
}

#[test]
fn mod_read_int() {
    check_read_int();
}

#[test]
fn mod_read_string() {
    check_read_string();
}

#[test]
fn mod_read_top_level_variables() {
    check_read_top_level_variables();
}

#[test]
fn mod_read_all() {
    check_read_all();
}

/// The field of a block with the given name.
fn field<'a>(fields: &'a [(String, Value)], name: &str) -> &'a Value {
    &fields.iter().find(|(k, _)| k == name).unwrap().1
}

#[test]
fn test_parser() {
    let mut parser = Parser::new(EXAMPLE_CONFIG);

    assert_eq!(parser.next_key().unwrap(), Some("namespace".to_string()));
    assert_eq!(
        parser.next_value().unwrap(),
        Entry::Scalar(string("ringracers"))
    );

    assert_eq!(parser.next_key().unwrap(), Some("version".to_string()));
    assert_eq!(parser.next_value().unwrap(), Entry::Scalar(Value::Integer(1)));

    assert_eq!(parser.next_key().unwrap(), Some("thing".to_string()));
    match parser.next_value().unwrap() {
        Entry::Block(fields) => {
            assert_eq!(fields.len(), 6);
            assert_eq!(as_f32(field(&fields, "x").clone()), 43.0);
            assert_eq!(as_f32(field(&fields, "y").clone()), 459.0);
            assert_eq!(as_f32(field(&fields, "height").clone()), 20.0);
            assert_eq!(field(&fields, "angle"), &Value::Integer(30));
            assert_eq!(field(&fields, "arg0"), &string("WADSUP"));
            assert_eq!(field(&fields, "arg1"), &Value::Boolean(true));
        }
        other => panic!("expected a block, got {:?}", other),
    }

    assert_eq!(parser.next_key().unwrap(), Some("vertex".to_string()));
    match parser.next_value().unwrap() {
        Entry::Block(fields) => {
            assert_eq!(fields.len(), 2);
            assert_eq!(as_f32(field(&fields, "x").clone()), 17.0);
            assert_eq!(as_f32(field(&fields, "y").clone()), 38.0);
        }
        other => panic!("expected a block, got {:?}", other),
    }

    assert_eq!(parser.next_key().unwrap(), None);
}

// ---- numbers -------------------------------------------------------------------------

fn decimal(negative: bool, whole: &str, fraction: &str, exponent: i32) -> Value {
    Value::Float(Decimal {
        negative,
        whole: whole.to_string(),
        fraction: fraction.to_string(),
        exponent,
    })
}

#[test]
fn decimals_keep_their_digits_exactly() {
    let mut t = Tokenizer::new("4.2 -4.0 2.0E-1 4.0E9 +.5 7. 1.5e+3");
    assert_eq!(t.next_value().unwrap(), decimal(false, "4", "2", 0));
    assert_eq!(t.next_value().unwrap(), decimal(true, "4", "0", 0));
    assert_eq!(t.next_value().unwrap(), decimal(false, "2", "0", -1));
    assert_eq!(t.next_value().unwrap(), decimal(false, "4", "0", 9));
    assert_eq!(t.next_value().unwrap(), decimal(false, "", "5", 0));
    assert_eq!(t.next_value().unwrap(), decimal(false, "7", "", 0));
    assert_eq!(t.next_value().unwrap(), decimal(false, "1", "5", 3));
    assert!(t.next_value().unwrap_err().is_eof());
}

#[test]
fn integer_limits() {
    let mut t = Tokenizer::new("2147483647 -2147483647 +12");
    assert_eq!(t.next_value().unwrap(), Value::Integer(2147483647));
    assert_eq!(t.next_value().unwrap(), Value::Integer(-2147483647));
    assert_eq!(t.next_value().unwrap(), Value::Integer(12));
    let mut t = Tokenizer::new("2147483648");
    assert_eq!(t.next_value().unwrap_err().kind(), &ErrorKind::UnexpectedChar('2'));
    let mut t = Tokenizer::new("-2147483648 1.0e-2147483648");
    assert_eq!(t.next_value().unwrap(), Value::Integer(i32::MIN));
    assert_eq!(t.next_value().unwrap(), decimal(false, "1", "0", i32::MIN));
    let mut t = Tokenizer::new("-2147483649");
    assert_eq!(t.next_value().unwrap_err().kind(), &ErrorKind::UnexpectedChar('2'));
}

#[test]
fn malformed_numbers() {
    assert_eq!(
        Tokenizer::new("-.").next_value().unwrap_err().kind(),
        &ErrorKind::UnexpectedChar('.')
    );
    assert_eq!(
        Tokenizer::new("-x").next_value().unwrap_err().kind(),
        &ErrorKind::UnexpectedChar('x')
    );
    assert!(Tokenizer::new("+").next_value().unwrap_err().is_eof());
    assert!(Tokenizer::new("1.0e").next_value().unwrap_err().is_eof());
    assert_eq!(
        Tokenizer::new("1.0e;").next_value().unwrap_err().kind(),
        &ErrorKind::UnexpectedChar(';')
    );
}

#[test]
fn hex_only_where_asked_for() {
    let mut t = Tokenizer::new("0x005A");
    assert_eq!(t.read_number_zero_prefix().unwrap(), Value::Integer(0x5A));
    // The default entry point reads the leading zero as an integer and stops at `x`.
    let mut t = Tokenizer::new("0x005A");
    assert_eq!(t.next_value().unwrap(), Value::Integer(0));
    assert_eq!(t.next_token().unwrap(), ident("x005A"));
    assert_eq!(
        Tokenizer::new("0y1").read_number_zero_prefix().unwrap_err().kind(),
        &ErrorKind::UnexpectedChar('y')
    );
    assert_eq!(
        Tokenizer::new("0xFFFFFFFF").read_number_zero_prefix().unwrap_err().kind(),
        &ErrorKind::UnexpectedChar('F')
    );
}

// ---- strings and keywords ------------------------------------------------------------

#[test]
fn unescape_keeps_other_backslashes() {
    assert_eq!(unescape_string(r#"a\"b"#), "a\"b");
    assert_eq!(unescape_string(r"a\nb"), r"a\nb");
    assert_eq!(unescape_string(r"a\\b"), r"a\\b");
    assert_eq!(unescape_string(r"end\"), r"end\");
    assert_eq!(unescape_string(r"ab\"), r"ab\");
    assert_eq!(unescape_string(""), "");
}

#[test]
fn unterminated_string_fails() {
    assert_eq!(
        Tokenizer::new(r#""abc"#).next_value().unwrap_err().kind(),
        &ErrorKind::UnquotedString
    );
    assert_eq!(
        Tokenizer::new(r#""\"#).next_value().unwrap_err().kind(),
        &ErrorKind::UnquotedString
    );
    assert_eq!(
        Tokenizer::new("\"").next_value().unwrap_err().kind(),
        &ErrorKind::UnquotedString
    );
}

#[test]
fn keywords() {
    let mut t = Tokenizer::new("true false");
    assert_eq!(t.next_value().unwrap(), Value::Boolean(true));
    assert_eq!(t.next_value().unwrap(), Value::Boolean(false));
    assert_eq!(
        Tokenizer::new("nil;").next_value().unwrap_err().kind(),
        &ErrorKind::InvalidKeyword("nil".to_string())
    );
    assert_eq!(
        Tokenizer::new("truest").next_value().unwrap_err().kind(),
        &ErrorKind::InvalidKeyword("truest".to_string())
    );
    assert_eq!(
        Tokenizer::new("true(").next_value().unwrap_err().kind(),
        &ErrorKind::InvalidKeyword("true(".to_string())
    );
    let mut t = Tokenizer::new("false=");
    assert_eq!(t.next_value().unwrap(), Value::Boolean(false));
    assert_eq!(t.next_token().unwrap(), Token::Assignment);
}

// ---- tokens --------------------------------------------------------------------------

#[test]
fn tokens_and_end_of_input() {
    let mut t = Tokenizer::new("  a_1 = { } ;  ");
    assert_eq!(t.peek_token().unwrap(), ident("a_1"));
    assert_eq!(t.next_token().unwrap(), ident("a_1"));
    assert_eq!(t.next_token().unwrap(), Token::Assignment);
    assert_eq!(t.next_token().unwrap(), Token::StartBlock);
    assert_eq!(t.next_token().unwrap(), Token::EndBlock);
    assert_eq!(t.next_token().unwrap(), Token::Seperator);
    assert!(t.next_token().unwrap_err().is_eof());
    assert_eq!(
        Tokenizer::new("9abc").next_token().unwrap_err().kind(),
        &ErrorKind::UnexpectedChar('9')
    );
}

#[test]
fn value_without_separator() {
    let mut p = Parser::new("x = 1 y");
    assert_eq!(p.next_key().unwrap(), Some("x".to_string()));
    assert_eq!(p.next_value().unwrap_err().kind(), &ErrorKind::ExpectedSeperator);
}

#[test]
fn block_errors() {
    let mut p = Parser::new("b { k ; }");
    p.next_key().unwrap();
    assert_eq!(p.next_value().unwrap_err().kind(), &ErrorKind::ExpectedAssignment);
    let mut p = Parser::new("b { = 1; }");
    p.next_key().unwrap();
    assert_eq!(p.next_value().unwrap_err().kind(), &ErrorKind::UnexpectedToken);
    let mut p = Parser::new("b ; ");
    p.next_key().unwrap();
    assert_eq!(p.next_value().unwrap_err().kind(), &ErrorKind::UnexpectedToken);
    let mut p = Parser::new("= 1;");
    assert_eq!(p.next_key().unwrap_err().kind(), &ErrorKind::ExpectedIdent);
}

#[test]
fn value_kind_names() {
    assert_eq!(Value::Boolean(true).kind_name(), "boolean");
    assert_eq!(Value::Integer(1).kind_name(), "integer");
    assert_eq!(string("a").kind_name(), "string");
    assert_eq!(Value::Nil.kind_name(), "nil");
    assert_eq!(decimal(false, "1", "", 0).shape(), Shape::Float);
}

#[test]
fn error_messages() {
    let message = |text: &str| Tokenizer::new(text).next_value().unwrap_err().message();
    assert_eq!(message("-x"), "unexpected: 'x'");
    assert_eq!(message("\"abc"), "unquoted string");
    assert_eq!(message("maybe"), "invalid keyword: \"maybe\"");
    assert_eq!(message(""), "got eof");
    let mut p = Parser::new("x = 1 y");
    p.next_key().unwrap();
    assert_eq!(p.next_value().unwrap_err().message(), "expected seperator ';'");
    let mut p = Parser::new("b { k ; }");
    p.next_key().unwrap();
    assert_eq!(p.next_value().unwrap_err().message(), "expected assignment token");
}

#[test]
fn values_from_plain_values() {
    assert_eq!(Value::from(true), Value::Boolean(true));
    assert_eq!(Value::from(-3), Value::Integer(-3));
    assert_eq!(Value::from("s".to_string()), string("s"));
    assert_eq!(Value::from(None), Value::Nil);
    assert_eq!(Value::from(Some(Value::Integer(2))), Value::Integer(2));
    assert_eq!(
        Value::from(Decimal {
            negative: false,
            whole: "1".to_string(),
            fraction: "5".to_string(),
            exponent: 0
        }),
        decimal(false, "1", "5", 0)
    );
}

#[test]
fn bridge_pieces() {
    let mut t = Tokenizer::new("= 5; { a = true; b = \"s\"; } 7 ;");
    assert_eq!(
        TopLevelDeserializer::new(&mut t).deserialize_any().unwrap(),
        Entry::Scalar(Value::Integer(5))
    );
    assert_eq!(t.next_token().unwrap(), Token::StartBlock);
    let mut block = BlockAccess(&mut t);
    assert_eq!(block.next_key().unwrap(), Some("a".to_string()));
    assert_eq!(block.next_value().unwrap(), Value::Boolean(true));
    assert_eq!(block.next_key().unwrap(), Some("b".to_string()));
    assert_eq!(block.next_value().unwrap(), string("s"));
    assert_eq!(block.next_key().unwrap(), None);
    assert_eq!(
        ValueDeserializer::new(&mut t).deserialize_any().unwrap(),
        Value::Integer(7)
    );
    assert!(t.next_token().unwrap_err().is_eof());
}

#[test]
fn symbols_to_tokens() {
    assert_eq!(Token::from_symbol('=').unwrap(), Token::Assignment);
    assert_eq!(Token::from_symbol(';').unwrap(), Token::Seperator);
    assert_eq!(Token::from_symbol('{').unwrap(), Token::StartBlock);
    assert_eq!(Token::from_symbol('}').unwrap(), Token::EndBlock);
    assert_eq!(
        Token::from_symbol('a').unwrap_err().kind(),
        &ErrorKind::UnexpectedChar('a')
    );
}

#[test]
fn invalid_keyword_moves_past_the_word() {
    let mut t = Tokenizer::new("  maybe; x");
    assert_eq!(
        t.next_value().unwrap_err().kind(),
        &ErrorKind::InvalidKeyword("maybe".to_string())
    );
    assert_eq!(t.next_token().unwrap(), Token::Seperator);
    assert_eq!(t.next_token().unwrap(), ident("x"));
}
