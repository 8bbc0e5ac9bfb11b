use son::deserialize::{object_fields, take_field, variant_index};
use son::error::ParseStep;
use son::lexer::SonLexer;
use son::token::{Token, TokenType};
use son::{Decimal, DeserializationError, Error, FromSon, ParseError, Printer, SonParser, ToSon, Value};

fn obj(entries: Vec<(&str, Value)>) -> Value {
    Value::Object(entries.into_iter().map(|(k, v)| (k.to_string(), v)).collect())
}

fn text(s: &str) -> Value {
    Value::String(s.to_string())
}

fn parse(s: &str) -> Result<Value, Error> {
    son::from_str::<Value>(s)
}

fn parse_error(s: &str) -> ParseError {
    match parse(s) {
        Err(Error::ParseError(e)) => e,
        other => panic!("expected a parse error, got {:?}", other),
    }
}

fn tokens(data: &[u8], capacity: usize) -> Vec<(TokenType, String)> {
    let mut lexer = SonLexer::from_buf_reader(data.to_vec(), capacity);
    let mut out = Vec::new();
    while let Some(t) = lexer.next() {
        out.push((t.get_type(), t.get_source()));
    }
    out
}

#[test]
fn negation_of_parsed_values() {
    assert_eq!(parse("[-5]").unwrap(), Value::Array(vec![Value::Integer(-5)]));
    assert_eq!(
        parse("[-3.5]").unwrap(),
        Value::Array(vec![Value::Float(Decimal { negative: true, digits: "3.5".to_string() })])
    );
    assert_eq!(parse("[-true, --5]").unwrap(), Value::Array(vec![Value::Bool(false), Value::Integer(5)]));
    assert_eq!(parse("[-\"s\"]").unwrap(), Value::Array(vec![text("s")]));
}

#[test]
fn negate_transforms_each_kind() {
    assert_eq!(Value::Bool(true).negate(), Value::Bool(false));
    assert_eq!(Value::Integer(7).negate(), Value::Integer(-7));
    assert_eq!(text("x").negate(), text("x"));
    assert_eq!(Value::Null.negate(), Value::Null);
    assert_eq!(Value::Integer(i128::MIN).negate(), Value::Integer(i128::MIN));
}

#[test]
fn commas_are_optional_between_members() {
    let expected = obj(vec![("a", Value::Integer(1)), ("b", Value::Integer(2))]);
    assert_eq!(parse("{a:1 b:2}").unwrap(), expected);
    assert_eq!(parse("{a:1, b:2}").unwrap(), expected);
    assert_eq!(parse("{a:1,, b:2}").unwrap(), expected);
    assert_eq!(parse("[1 2,3,,4]").unwrap(), Value::Array(vec![1, 2, 3, 4].into_iter().map(Value::Integer).collect()));
}

#[test]
fn empty_and_blank_documents_end_early() {
    for s in ["", "   ", " \n\t\r\n ", "// only a comment\n"] {
        match parse_error(s) {
            ParseError::UnexpectedEOF(step) => assert_eq!(step, ParseStep::Start),
            e => panic!("expected UnexpectedEOF, got {:?}", e),
        }
    }
}

#[test]
fn documents_start_with_a_brace_or_bracket() {
    for s in ["5", "name: 1", "\"text\"", "true", ":"] {
        match parse_error(s) {
            ParseError::UnexpectedToken { step, expected, .. } => {
                assert_eq!(step, ParseStep::Start);
                assert_eq!(expected, vec![TokenType::LeftCurlyBrace, TokenType::LeftSquareBrace]);
            }
            e => panic!("expected UnexpectedToken, got {:?}", e),
        }
    }
}

#[test]
fn unterminated_literals_are_error_tokens() {
    match parse_error("{a: \"abc") {
        ParseError::ErrorToken(step, t) => {
            assert_eq!(step, ParseStep::Value);
            assert_eq!(t.get_type(), TokenType::Error);
            assert_eq!(t.get_source(), "Unterminated string literal");
        }
        e => panic!("expected ErrorToken, got {:?}", e),
    }
    match parse_error("['x") {
        ParseError::ErrorToken(step, t) => {
            assert_eq!(step, ParseStep::Array);
            assert_eq!(t.get_source(), "Unterminated char literal");
        }
        e => panic!("expected ErrorToken, got {:?}", e),
    }
    match parse_error("\"open") {
        ParseError::ErrorToken(step, _) => assert_eq!(step, ParseStep::Start),
        e => panic!("expected ErrorToken, got {:?}", e),
    }
}

#[test]
fn unexpected_characters_are_error_tokens() {
    match parse_error("{a: #}") {
        ParseError::ErrorToken(step, t) => {
            assert_eq!(step, ParseStep::Value);
            assert_eq!(t.get_source(), "Unexpected character");
        }
        e => panic!("expected ErrorToken, got {:?}", e),
    }
}

#[test]
fn duplicate_keys_keep_the_last_value() {
    let v = parse("{name: \"A\", name: \"B\"}").unwrap();
    assert_eq!(v, obj(vec![("name", text("B"))]));
}

#[test]
fn bare_identifiers_are_enum_tags() {
    let v = parse("{ty: Home}").unwrap();
    assert_eq!(v.get("ty"), Some(&Value::Enum("Home".to_string())));
    assert_eq!(variant_index(Value::Enum("Home".to_string()), &["Home", "Office"], "PhoneType").unwrap(), 0);
    assert_eq!(variant_index(Value::Enum("Office".to_string()), &["Home", "Office"], "PhoneType").unwrap(), 1);
    match variant_index(Value::Enum("Mobile".to_string()), &["Home", "Office"], "PhoneType") {
        Err(DeserializationError::UnknownVariant { variant, enum_name }) => {
            assert_eq!(variant, "Mobile");
            assert_eq!(enum_name, "PhoneType");
        }
        other => panic!("expected UnknownVariant, got {:?}", other),
    }
    match variant_index(text("Home"), &["Home"], "PhoneType") {
        Err(DeserializationError::UnexpectedType { expected, found }) => {
            assert_eq!(expected, "Enum");
            assert_eq!(found, "String");
        }
        other => panic!("expected UnexpectedType, got {:?}", other),
    }
}

#[derive(Debug, PartialEq)]
struct Pair {
    a: i32,
    b: i32,
}

impl FromSon for Pair {
    fn from_son(son: Value) -> Result<Self, DeserializationError> {
        let mut map = object_fields(son)?;
        Ok(Pair { a: take_field(&mut map, "a")?, b: take_field(&mut map, "b")? })
    }
}

impl son::Deserialize for Pair {}

#[test]
fn a_missing_field_is_reported_by_name() {
    match son::from_str::<Pair>("{a: 1}") {
        Err(Error::DeserializationError(DeserializationError::MissingField { field })) => assert_eq!(field, "b"),
        other => panic!("expected MissingField, got {:?}", other),
    }
    assert_eq!(son::from_str::<Pair>("{b: 2 a: 1 c: 3}").unwrap(), Pair { a: 1, b: 2 });
}

#[test]
fn a_field_of_the_wrong_kind_is_a_type_mismatch() {
    let mut map = object_fields(parse("{name: 5}").unwrap()).unwrap();
    match take_field::<String>(&mut map, "name") {
        Err(DeserializationError::UnexpectedType { expected, found }) => {
            assert_eq!(expected, "String");
            assert_eq!(found, "Integer");
        }
        other => panic!("expected UnexpectedType, got {:?}", other),
    }
}

#[test]
fn take_field_removes_the_field() {
    let mut map = object_fields(obj(vec![("x", Value::Integer(1)), ("y", Value::Integer(2))])).unwrap();
    assert_eq!(take_field::<i32>(&mut map, "x").unwrap(), 1);
    assert_eq!(map, vec![("y".to_string(), Value::Integer(2))]);
    match take_field::<i32>(&mut map, "x") {
        Err(DeserializationError::MissingField { field }) => assert_eq!(field, "x"),
        other => panic!("expected MissingField, got {:?}", other),
    }
}

#[test]
fn negative_integers_do_not_fill_unsigned_targets() {
    for r in [
        u8::from_son(Value::Integer(-1)).err(),
        u16::from_son(Value::Integer(-1)).err(),
        u32::from_son(Value::Integer(-1)).err(),
        u64::from_son(Value::Integer(-1)).err(),
        u128::from_son(Value::Integer(-1)).err(),
        usize::from_son(Value::Integer(-1)).err(),
    ] {
        match r {
            Some(DeserializationError::InvalidValue { message }) => {
                assert_eq!(message, "A negative value cannot populate an unsigned field")
            }
            other => panic!("expected InvalidValue, got {:?}", other),
        }
    }
    assert_eq!(u8::from_son(Value::Integer(0)).unwrap(), 0);
}

#[test]
fn integers_are_truncated_to_the_target_width() {
    assert_eq!(i8::from_son(Value::Integer(300)).unwrap(), 44);
    assert_eq!(u8::from_son(Value::Integer(256)).unwrap(), 0);
    assert_eq!(i16::from_son(Value::Integer(-40000)).unwrap(), 25536);
}

#[test]
fn options_read_null_as_none() {
    assert_eq!(Option::<i32>::from_son(Value::Null).unwrap(), None);
    assert_eq!(Option::<i32>::from_son(Value::Integer(3)).unwrap(), Some(3));
    assert!(Option::<i32>::from_son(text("3")).is_err());
    assert_eq!(Some(4i32).to_son(), Value::Integer(4));
    assert_eq!(None::<i32>.to_son(), Value::Null);
}

#[test]
fn the_first_failing_element_decides_the_error() {
    let v = Value::Array(vec![Value::Integer(1), text("two"), Value::Bool(true)]);
    match Vec::<i32>::from_son(v) {
        Err(DeserializationError::UnexpectedType { found, .. }) => assert_eq!(found, "String"),
        other => panic!("expected UnexpectedType, got {:?}", other),
    }
}

#[test]
fn decimals_read_floats_and_whole_numbers() {
    let d = Decimal::from_son(Value::Integer(-42)).unwrap();
    assert_eq!(d, Decimal { negative: true, digits: "42".to_string() });
    let d = Decimal::from_son(Value::Integer(0)).unwrap();
    assert_eq!(d, Decimal { negative: false, digits: "0".to_string() });
    let f = Decimal { negative: false, digits: "2.5".to_string() };
    assert_eq!(Decimal::from_son(f.to_son()).unwrap(), f);
}

#[test]
fn values_round_trip_through_the_tree() {
    assert_eq!(i32::from_son((-17i32).to_son()).unwrap(), -17);
    assert_eq!(u64::from_son(u64::MAX.to_son()).unwrap(), u64::MAX);
    assert_eq!(i128::from_son(i128::MIN.to_son()).unwrap(), i128::MIN);
    assert_eq!(u128::from_son((i128::MAX as u128).to_son()).unwrap(), i128::MAX as u128);
    assert_eq!(char::from_son('é'.to_son()).unwrap(), 'é');
    assert_eq!(String::from_son("héllo".to_string().to_son()).unwrap(), "héllo");
    let nested = vec![vec![true], vec![], vec![false, true]];
    assert_eq!(Vec::<Vec<bool>>::from_son(nested.to_son()).unwrap(), nested);
}

#[test]
fn values_round_trip_through_text() {
    let v = obj(vec![
        ("name", text("He said \"hi\"\n\tbye")),
        ("count", Value::Integer(-12)),
        ("ratio", Value::Float(Decimal { negative: true, digits: "0.25".to_string() })),
        ("flags", Value::Array(vec![Value::Bool(true), Value::Null, Value::Char('x')])),
        ("kind", Value::Enum("Home".to_string())),
        ("inner", obj(vec![("empty", Value::Array(vec![])), ("none", obj(vec![]))])),
    ]);
    assert_eq!(parse(&v.to_string()).unwrap(), v);
    assert_eq!(parse(&son::to_string_pretty(&v, "\t")).unwrap(), v);
}

#[test]
fn printer_output_is_exact() {
    let v = obj(vec![("a", Value::Integer(1)), ("b", Value::Array(vec![text("x\"y"), Value::Bool(false)]))]);
    let printer = Printer::new("  ".to_string());
    assert_eq!(printer.son_to_string(&v), "{\n  a: 1\n  b: [\n    \"x\\\"y\"\n    false\n  ]\n}\n");
    assert_eq!(son::to_string(&vec![1u8, 2u8]), "[\n    1\n    2\n]\n");
    assert_eq!(Value::Float(Decimal { negative: true, digits: "1.5".to_string() }).to_string(), "-1.5\n");
    assert_eq!(Value::Char('q').to_string(), "'q'\n");
    assert_eq!(Value::Null.to_string(), "null\n");
}

#[test]
fn literal_escapes_are_read() {
    let v = parse("[\"a\\\"b\\nc\\td\\x\"]").unwrap();
    assert_eq!(v, Value::Array(vec![text("a\"b\nc\td\\x")]));
}

#[test]
fn char_literals_hold_one_character() {
    assert_eq!(parse("['z']").unwrap(), Value::Array(vec![Value::Char('z')]));
    match parse_error("['zz']") {
        ParseError::ErrorToken(step, t) => {
            assert_eq!(step, ParseStep::Value);
            assert_eq!(t.get_source(), "Char literal must hold exactly one character");
        }
        e => panic!("expected ErrorToken, got {:?}", e),
    }
}

#[test]
fn integer_literals_must_fit() {
    assert_eq!(
        parse("[170141183460469231731687303715884105727]").unwrap(),
        Value::Array(vec![Value::Integer(i128::MAX)])
    );
    match parse_error("[170141183460469231731687303715884105728]") {
        ParseError::ErrorToken(_, t) => assert_eq!(t.get_source(), "Literal out of range"),
        e => panic!("expected ErrorToken, got {:?}", e),
    }
}

#[test]
fn identifiers_hold_no_digits() {
    match parse_error("{a1: 1}") {
        ParseError::UnexpectedToken { step, found, .. } => {
            assert_eq!(step, ParseStep::Object);
            assert_eq!(found.get_type(), TokenType::IntegerLiteral);
        }
        e => panic!("expected UnexpectedToken, got {:?}", e),
    }
}

#[test]
fn nested_members_without_colons() {
    let v = parse("{outer {x: 1} list [1 2]}").unwrap();
    assert_eq!(
        v,
        obj(vec![
            ("outer", obj(vec![("x", Value::Integer(1))])),
            ("list", Value::Array(vec![Value::Integer(1), Value::Integer(2)])),
        ])
    );
    match parse_error("{: 1}") {
        ParseError::UnexpectedToken { step, expected, message, .. } => {
            assert_eq!(step, ParseStep::Object);
            assert_eq!(expected, vec![TokenType::Identifier]);
            assert_eq!(message, "Expected a field name");
        }
        e => panic!("expected UnexpectedToken, got {:?}", e),
    }
}

#[test]
fn lexer_tokens_and_positions() {
    let mut lexer = SonLexer::new(b"{ // note\n  name: \"x\" 12.5 3. true }".to_vec());
    let expected = [
        (TokenType::LeftCurlyBrace, "{", 1, 0),
        (TokenType::Identifier, "name", 2, 2),
        (TokenType::Colon, ":", 2, 6),
        (TokenType::StringLiteral, "\"x\"", 2, 8),
        (TokenType::FloatLiteral, "12.5", 2, 12),
        (TokenType::IntegerLiteral, "3", 2, 17),
        (TokenType::Dot, ".", 2, 18),
        (TokenType::True, "true", 2, 20),
        (TokenType::RightCurlyBrace, "}", 2, 25),
    ];
    for (kind, source, line, col) in expected {
        let t = lexer.next_token();
        assert_eq!((t.get_type(), t.get_source(), t.get_line(), t.get_col()), (kind, source.to_string(), line, col));
    }
    assert_eq!(lexer.next_token().get_type(), TokenType::EOF);
    assert!(lexer.next().is_none());
}

#[test]
fn chunk_boundaries_do_not_split_characters() {
    let data = "{ naive: \"héllo 世界 🌍\" }".as_bytes();
    let whole = tokens(data, 1024);
    assert_eq!(whole[3], (TokenType::StringLiteral, "\"héllo 世界 🌍\"".to_string()));
    for capacity in [1usize, 2, 3, 5, 7] {
        assert_eq!(tokens(data, capacity), whole);
    }
}

#[test]
fn a_lexer_without_capacity_reads_nothing() {
    assert_eq!(tokens(b"[1]", 0), vec![]);
    let mut lexer = SonLexer::from_buf_reader(b"[1]".to_vec(), 0);
    assert_eq!(lexer.next_token().get_type(), TokenType::EOF);
}

#[test]
fn undecodable_bytes_at_the_end_are_dropped() {
    let mut data = b"[1, 2]".to_vec();
    data.push(0xE4);
    data.push(0xB8);
    assert_eq!(tokens(&data, 4), tokens(b"[1, 2]", 4));
    let mut parser = SonParser::new(data);
    assert_eq!(parser.parse().unwrap(), Value::Array(vec![Value::Integer(1), Value::Integer(2)]));
}

#[test]
fn token_values_and_descriptions() {
    let t = Token::new(TokenType::IntegerLiteral, 3, 4, "42".to_string());
    assert_eq!(t.get_value(), Some(Value::Integer(42)));
    assert_eq!(t.describe(), "[3:4] Integer: 42");
    assert_eq!(Token::new(TokenType::IntegerLiteral, 1, 1, "4x".to_string()).get_value(), None);
    let t = Token::new(TokenType::StringLiteral, 1, 0, "\"a\\tb\"".to_string());
    assert_eq!(t.get_value(), Some(text("a\tb")));
    let t = Token::new_error(2, 7, "Unexpected character".to_string());
    assert_eq!(t.get_value(), None);
    assert_eq!(t.describe(), "[Error] [2:7] Unexpected character");
    assert_eq!(Token::new(TokenType::Colon, 1, 1, ":".to_string()).describe(), "[1:1] Colon");
}

#[test]
fn error_messages() {
    let e = DeserializationError::UnexpectedType { expected: "String".to_string(), found: "Integer".to_string() };
    assert_eq!(e.message(), "Unexpected type: expected String, found Integer");
    let e = DeserializationError::UnknownVariant { variant: "Mobile".to_string(), enum_name: "PhoneType".to_string() };
    assert_eq!(e.message(), "Unknown variant 'Mobile' for enum 'PhoneType'");
    assert_eq!(DeserializationError::MissingField { field: "b".to_string() }.message(), "Missing field: b");
    assert_eq!(parse_error("[").message(), "[Parse Array] Unexpected End of File");
    assert_eq!(
        parse_error("5").message(),
        " Unexpected token: expected one of [LeftCurlyBrace, LeftSquareBrace], got: \n[1:0] Integer: 5. \nSON files can only begin with either a { or ["
    );
    assert_eq!(parse("{a: $}").unwrap_err().message(), "Parse Error: [Parse Value] Error at: [Error] [1:4] Unexpected character");
    assert_eq!(
        son::from_str::<bool>("[]").unwrap_err().message(),
        "Deserialization Error: Unexpected type: expected Bool, found Array"
    );
}

#[test]
fn object_lookup() {
    let v = parse("{a: 1, b: [2]}").unwrap();
    assert_eq!(v.get("a"), Some(&Value::Integer(1)));
    assert_eq!(v.get("c"), None);
    assert_eq!(Value::Integer(1).get("a"), None);
    assert_eq!(v.get_type(), "Object");
}
